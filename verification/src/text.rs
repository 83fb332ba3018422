//! Text building blocks: decimal numbers, right padding, substring search
//! and the standard library string operations the library relies on.

use vstd::prelude::*;

verus! {

/// The character of a decimal digit.
pub open spec fn digit_char(d: nat) -> char {
    if d == 0 {
        '0'
    } else if d == 1 {
        '1'
    } else if d == 2 {
        '2'
    } else if d == 3 {
        '3'
    } else if d == 4 {
        '4'
    } else if d == 5 {
        '5'
    } else if d == 6 {
        '6'
    } else if d == 7 {
        '7'
    } else if d == 8 {
        '8'
    } else {
        '9'
    }
}

/// The decimal notation of `n`, without leading zeros (as `{}` prints it).
pub open spec fn decimal(n: nat) -> Seq<char>
    decreases n,
{
    if n < 10 {
        seq![digit_char(n)]
    } else {
        decimal(n / 10).push(digit_char(n % 10))
    }
}

/// `n` spaces.
pub open spec fn spaces(n: nat) -> Seq<char> {
    Seq::new(n, |i: int| ' ')
}

/// `s` padded on the right with spaces to at least `width` characters
/// (as `{:<width}` prints it).
pub open spec fn pad_right(s: Seq<char>, width: nat) -> Seq<char> {
    if s.len() >= width {
        s
    } else {
        s + spaces((width - s.len()) as nat)
    }
}

/// `needle` occurs in `hay` at position `i`.
pub open spec fn occurs_at(hay: Seq<char>, needle: Seq<char>, i: int) -> bool {
    0 <= i && i + needle.len() <= hay.len() && hay.subrange(i, i + needle.len()) == needle
}

/// `needle` occurs somewhere in `hay`.
pub open spec fn contains_text(hay: Seq<char>, needle: Seq<char>) -> bool {
    exists|i: int| occurs_at(hay, needle, i)
}

/// What `str::to_lowercase` gives for a string: the lowercase mapping of
/// Unicode, which is a function of the characters alone.
pub uninterp spec fn lowercase_text(s: Seq<char>) -> Seq<char>;

/// `String::push` appends one character.
pub assume_specification[ String::push ](s: &mut String, ch: char)
    ensures
        final(s)@ == old(s)@.push(ch),
;

/// Every character of `s` is ASCII.
pub open spec fn is_ascii_text(s: Seq<char>) -> bool {
    forall|i: int| 0 <= i < s.len() ==> (#[trigger] s[i]) as u32 <= 127
}

/// An ASCII capital letter turned into its small letter; any other
/// character stays.
pub open spec fn ascii_lower_char(c: char) -> char {
    if 'A' <= c && c <= 'Z' {
        ((c as u32) + 32) as char
    } else {
        c
    }
}

/// An ASCII small letter turned into its capital; any other character stays.
pub open spec fn ascii_upper_char(c: char) -> char {
    if 'a' <= c && c <= 'z' {
        ((c as u32) - 32) as char
    } else {
        c
    }
}

/// `s` with its ASCII capitals made small.
pub open spec fn ascii_lower(s: Seq<char>) -> Seq<char> {
    s.map_values(|c: char| ascii_lower_char(c))
}

/// `s` with its ASCII small letters made capital.
pub open spec fn ascii_upper(s: Seq<char>) -> Seq<char> {
    s.map_values(|c: char| ascii_upper_char(c))
}

/// `str::to_lowercase` returns the lowercase mapping of its argument; what
/// that mapping is, character by character, is left to the name
/// `lowercase_text`. Of ASCII text it states the one thing std documents
/// through the Unicode mapping it follows: the capitals `A` to `Z` become
/// `a` to `z` and every other ASCII character stays as it is. Of other text
/// (where a character may become several) nothing is stated.
pub assume_specification[ str::to_lowercase ](s: &str) -> (res: String)
    ensures
        res@ == lowercase_text(s@),
        is_ascii_text(s@) ==> res@ == ascii_lower(s@),
;

/// Making ASCII capitals of a text and then small letters gives the same
/// as making small letters directly; the capitals are ASCII again.
pub proof fn law_ascii_case_round_trip(s: Seq<char>)
    requires
        is_ascii_text(s),
    ensures
        is_ascii_text(ascii_upper(s)),
        ascii_lower(ascii_upper(s)) == ascii_lower(s),
{
    assert forall|i: int| 0 <= i < s.len() implies ascii_lower_char(ascii_upper_char(s[i]))
        == ascii_lower_char(s[i]) && (ascii_upper_char(s[i]) as u32 <= 127) by {
        let c = s[i];
        if 'a' <= c && c <= 'z' {
            assert(((c as u32) - 32) as char as u32 == (c as u32) - 32);
        }
    }
    assert(ascii_lower(ascii_upper(s)) =~= ascii_lower(s));
}

/// `ascii_lower` moves exactly the letters `A` to `Z` (codes 65 to 90) up
/// by 32, to `a` to `z`; `ascii_upper` moves exactly `a` to `z` (codes 97 to
/// 122) down by 32; every other character stays, and the length stays.
pub proof fn law_ascii_case_maps(s: Seq<char>)
    ensures
        ascii_lower(s).len() == s.len(),
        ascii_upper(s).len() == s.len(),
        forall|i: int|
            0 <= i < s.len() ==> (#[trigger] ascii_lower(s)[i]) as u32 == if 65 <= (s[i] as u32) <= 90 {
                (s[i] as u32) + 32
            } else {
                s[i] as u32 as int
            },
        forall|i: int|
            0 <= i < s.len() ==> (#[trigger] ascii_upper(s)[i]) as u32 == if 97 <= (s[i] as u32) <= 122 {
                (s[i] as u32) - 32
            } else {
                s[i] as u32 as int
            },
{
    assert forall|i: int| 0 <= i < s.len() implies (#[trigger] ascii_lower(s)[i]) as u32 == if 65
        <= (s[i] as u32) <= 90 {
        (s[i] as u32) + 32
    } else {
        s[i] as u32 as int
    } by {
        let c = s[i];
        if 'A' <= c && c <= 'Z' {
            assert(((c as u32) + 32) as char as u32 == (c as u32) + 32);
        }
    }
    assert forall|i: int| 0 <= i < s.len() implies (#[trigger] ascii_upper(s)[i]) as u32 == if 97
        <= (s[i] as u32) <= 122 {
        (s[i] as u32) - 32
    } else {
        s[i] as u32 as int
    } by {
        let c = s[i];
        if 'a' <= c && c <= 'z' {
            assert(((c as u32) - 32) as char as u32 == (c as u32) - 32);
        }
    }
}

/// Making the ASCII capitals of a text small twice changes nothing the
/// second time, and leaves ASCII text ASCII.
pub proof fn law_ascii_lower_idempotent(s: Seq<char>)
    requires
        is_ascii_text(s),
    ensures
        is_ascii_text(ascii_lower(s)),
        ascii_lower(ascii_lower(s)) == ascii_lower(s),
{
    assert forall|i: int| 0 <= i < s.len() implies ascii_lower_char(ascii_lower_char(s[i]))
        == ascii_lower_char(s[i]) && (ascii_lower_char(s[i]) as u32 <= 127) by {
        let c = s[i];
        if 'A' <= c && c <= 'Z' {
            assert(((c as u32) + 32) as char as u32 == (c as u32) + 32);
        }
    }
    assert(ascii_lower(ascii_lower(s)) =~= ascii_lower(s));
}

/// The empty text occurs in every text.
pub proof fn lemma_empty_occurs(hay: Seq<char>)
    ensures
        contains_text(hay, Seq::empty()),
{
    assert(hay.subrange(0, 0) =~= Seq::<char>::empty());
    assert(occurs_at(hay, Seq::empty(), 0));
}

/// An occurrence in `a` is one in `a + b` at the same place, and one in `b`
/// is one in `a + b` shifted by the length of `a`.
pub proof fn lemma_occurs_in_concat(a: Seq<char>, b: Seq<char>, needle: Seq<char>, i: int)
    ensures
        occurs_at(a, needle, i) ==> occurs_at(a + b, needle, i),
        occurs_at(b, needle, i) ==> occurs_at(a + b, needle, a.len() + i),
{
    if occurs_at(a, needle, i) {
        assert((a + b).subrange(i, i + needle.len()) =~= a.subrange(i, i + needle.len()));
    }
    if occurs_at(b, needle, i) {
        assert((a + b).subrange(a.len() + i, a.len() + i + needle.len()) =~= b.subrange(
            i,
            i + needle.len(),
        ));
    }
}

/// How often the character `c` occurs in `s`.
pub open spec fn count_char(s: Seq<char>, c: char) -> nat
    decreases s.len(),
{
    if s.len() == 0 {
        0
    } else {
        count_char(s.drop_last(), c) + if s.last() == c {
            1nat
        } else {
            0nat
        }
    }
}

/// Counting a character over a concatenation adds the counts.
pub proof fn lemma_count_char_concat(a: Seq<char>, b: Seq<char>, c: char)
    ensures
        count_char(a + b, c) == count_char(a, c) + count_char(b, c),
    decreases b.len(),
{
    if b.len() == 0 {
        assert(a + b =~= a);
    } else {
        lemma_count_char_concat(a, b.drop_last(), c);
        assert((a + b).drop_last() =~= a + b.drop_last());
    }
}

/// A character that `s` does not hold is counted 0 times.
pub proof fn lemma_count_char_absent(s: Seq<char>, c: char)
    requires
        forall|i: int| 0 <= i < s.len() ==> s[i] != c,
    ensures
        count_char(s, c) == 0,
    decreases s.len(),
{
    if s.len() > 0 {
        lemma_count_char_absent(s.drop_last(), c);
    }
}

/// Decimal notation holds digits only.
pub proof fn lemma_decimal_digits(n: nat)
    ensures
        forall|i: int| 0 <= i < decimal(n).len() ==> '0' <= #[trigger] decimal(n)[i] <= '9',
        decimal(n).len() >= 1,
    decreases n,
{
    if n >= 10 {
        lemma_decimal_digits(n / 10);
    }
}

/// Padding adds spaces only.
pub proof fn lemma_pad_right_chars(s: Seq<char>, width: nat, c: char)
    requires
        c != ' ',
        forall|i: int| 0 <= i < s.len() ==> s[i] != c,
    ensures
        forall|i: int| 0 <= i < pad_right(s, width).len() ==> #[trigger] pad_right(s, width)[i] != c,
        pad_right(s, width).len() >= s.len(),
        pad_right(s, width).subrange(0, s.len() as int) == s,
{
    assert(pad_right(s, width).subrange(0, s.len() as int) =~= s);
}

/// `needle` occurs in `hay` at `i` exactly when it fits there and every
/// one of its characters equals the character of `hay` at its place.
pub proof fn law_occurs_at_compares_every_char(hay: Seq<char>, needle: Seq<char>, i: int)
    ensures
        occurs_at(hay, needle, i) <==> (0 <= i && i + needle.len() <= hay.len() && forall|k: int|
            0 <= k < needle.len() ==> hay[i + k] == needle[k]),
{
    if 0 <= i && i + needle.len() <= hay.len() {
        if forall|k: int| 0 <= k < needle.len() ==> hay[i + k] == needle[k] {
            assert(hay.subrange(i, i + needle.len()) =~= needle);
        }
        if occurs_at(hay, needle, i) {
            assert forall|k: int| 0 <= k < needle.len() implies hay[i + k] == needle[k] by {
                assert(hay.subrange(i, i + needle.len())[k] == hay[i + k]);
            }
        }
    }
}

/// The value of a text of decimal digits.
pub open spec fn digits_value(s: Seq<char>) -> nat
    decreases s.len(),
{
    if s.len() == 0 {
        0
    } else {
        digits_value(s.drop_last()) * 10 + ((s.last() as nat) - ('0' as nat)) as nat
    }
}

/// The decimal notation of `n` is made of digits, reads back as `n`, and
/// has no leading zero (only `0` itself starts with `0`).
pub proof fn law_decimal_reads_back(n: nat)
    ensures
        decimal(n).len() >= 1,
        forall|i: int| 0 <= i < decimal(n).len() ==> '0' <= #[trigger] decimal(n)[i] <= '9',
        digits_value(decimal(n)) == n,
        decimal(n)[0] == '0' ==> n == 0,
    decreases n,
{
    lemma_decimal_digits(n);
    if n < 10 {
        assert(seq![digit_char(n)].drop_last() =~= Seq::<char>::empty());
        assert(digits_value(Seq::<char>::empty()) == 0);
    } else {
        law_decimal_reads_back(n / 10);
        let d = decimal(n / 10);
        assert(d.push(digit_char(n % 10)).drop_last() =~= d);
        assert(decimal(n)[0] == d[0]);
    }
}

/// Padding keeps the text in front, fills with spaces only, and gives the
/// longer of the text and the width.
pub proof fn law_pad_right(s: Seq<char>, width: nat)
    ensures
        pad_right(s, width).len() == if s.len() >= width {
            s.len()
        } else {
            width
        },
        pad_right(s, width).subrange(0, s.len() as int) == s,
        forall|k: int| s.len() <= k < pad_right(s, width).len() ==> #[trigger] pad_right(s, width)[k] == ' ',
{
    assert(pad_right(s, width).subrange(0, s.len() as int) =~= s);
}

fn digit(d: u64) -> (c: char)
    requires
        d < 10,
    ensures
        c == digit_char(d as nat),
{
    if d == 0 {
        '0'
    } else if d == 1 {
        '1'
    } else if d == 2 {
        '2'
    } else if d == 3 {
        '3'
    } else if d == 4 {
        '4'
    } else if d == 5 {
        '5'
    } else if d == 6 {
        '6'
    } else if d == 7 {
        '7'
    } else if d == 8 {
        '8'
    } else {
        '9'
    }
}

/// Appends the decimal notation of `n` to `out`.
pub fn push_decimal(out: &mut String, n: u64)
    ensures
        final(out)@ == old(out)@ + decimal(n as nat),
    decreases n,
{
    if n < 10 {
        out.push(digit(n));
    } else {
        push_decimal(out, n / 10);
        out.push(digit(n % 10));
    }
}

/// The decimal notation of `n`.
pub fn decimal_text(n: u64) -> (s: String)
    ensures
        s@ == decimal(n as nat),
{
    let mut s = String::new();
    push_decimal(&mut s, n);
    assert(s@ =~= decimal(n as nat));
    s
}

/// Appends `n` spaces to `out`.
pub fn push_spaces(out: &mut String, n: usize)
    ensures
        final(out)@ == old(out)@ + spaces(n as nat),
{
    let mut k: usize = 0;
    while k < n
        invariant
            k <= n,
            out@ == old(out)@ + spaces(k as nat),
        decreases n - k,
    {
        out.push(' ');
        k = k + 1;
        assert(out@ =~= old(out)@ + spaces(k as nat));
    }
}

/// Appends `s` padded on the right with spaces to `width` characters.
pub fn push_padded(out: &mut String, s: &str, width: usize)
    ensures
        final(out)@ == old(out)@ + pad_right(s@, width as nat),
{
    let len = s.unicode_len();
    out.append(s);
    if len < width {
        push_spaces(out, width - len);
    }
    assert(out@ =~= old(out)@ + pad_right(s@, width as nat));
}

/// The characters of `s`, one by one.
pub fn chars_of(s: &str) -> (v: Vec<char>)
    ensures
        v@ == s@,
{
    let len = s.unicode_len();
    let mut v: Vec<char> = Vec::new();
    let mut i: usize = 0;
    while i < len
        invariant
            len == s@.len(),
            i <= len,
            v@ == s@.subrange(0, i as int),
        decreases len - i,
    {
        v.push(s.get_char(i));
        i = i + 1;
        assert(v@ =~= s@.subrange(0, i as int));
    }
    assert(v@ =~= s@);
    v
}

fn occurs_at_index(hay: &Vec<char>, needle: &Vec<char>, i: usize) -> (b: bool)
    requires
        i + needle@.len() <= hay@.len(),
    ensures
        b == occurs_at(hay@, needle@, i as int),
{
    let n = needle.len();
    let hl = hay.len();
    let mut j: usize = 0;
    while j < n
        invariant
            n == needle@.len(),
            hl == hay@.len(),
            i + n <= hl,
            j <= n,
            forall|k: int| 0 <= k < j ==> hay@[i + k] == needle@[k],
        decreases n - j,
    {
        if hay[i + j] != needle[j] {
            assert(hay@.subrange(i as int, i + n)[j as int] != needle@[j as int]);
            return false;
        }
        j = j + 1;
    }
    assert(hay@.subrange(i as int, i + n) =~= needle@);
    true
}

/// Whether `needle` occurs in `hay`, as `str::contains` answers it for a
/// string pattern; an empty needle occurs in every text.
pub fn text_contains(hay: &str, needle: &str) -> (b: bool)
    ensures
        b == contains_text(hay@, needle@),
{
    let h = chars_of(hay);
    let n = chars_of(needle);
    if n.len() > h.len() {
        assert forall|i: int| !occurs_at(hay@, needle@, i) by {}
        return false;
    }
    let last = h.len() - n.len();
    let mut i: usize = 0;
    loop
        invariant
            h@ == hay@,
            n@ == needle@,
            last + n@.len() == h@.len(),
            i <= last,
            forall|k: int| 0 <= k < i ==> !occurs_at(hay@, needle@, k),
        decreases last - i,
    {
        if occurs_at_index(&h, &n, i) {
            return true;
        }
        if i == last {
            assert forall|k: int| !occurs_at(hay@, needle@, k) by {
                if 0 <= k < i {
                }
            }
            return false;
        }
        i = i + 1;
    }
}

} // verus!
