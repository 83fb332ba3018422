# tsk

A small command-line task manager, written in Verus.

- `src/` is the verified library: tasks (`task`), the store and its
  operations (`store`), counting (`summary`), the text the command line shows
  (`display`), the commands (`command`), id choice from a task list
  (`storage`) and text helpers (`text`). Contracts speak of views: a task's
  strings as character sequences, a store as its counter and task sequence.
- `app/` is the program around it: argument parsing with clap, reading and
  writing `$HOME/.tsk/tasks.json` with serde_json, printing.
- `tests/` runs the library on concrete values.
