//! A small task manager: tasks with a title, a priority, a status and an
//! optional project, kept in a store that hands out increasing ids, with
//! filtering, searching, editing, a summary, and the text the command line
//! shows for each of them.

pub mod text;
pub mod task;
pub mod store;
pub mod summary;
pub mod display;
pub mod command;
pub mod storage;
