//! The line grammar of desktop entry files, read from bytes.
//!
//! A file is blank lines and comments, then groups. A group is a header
//! line `[Name]` followed by `key=value` lines, with blank lines and
//! comments allowed between them. Keys are ASCII and stored lower-cased;
//! values are kept raw, and must be UTF-8.
use vstd::prelude::*;
use vstd::utf8::{decode_utf8, valid_utf8};
use crate::model::{insert_all, pairs_view, DesktopEntry, Group, GroupView, RawPairs};
use crate::text::lower_char;

verus! {

/// Why a file could not be parsed.
#[derive(Debug, Clone, Copy, PartialEq, Eq)]
pub enum ParseError {
    /// The input does not follow the grammar.
    Syntax,
    /// A value is not valid UTF-8.
    NonUtf8,
}

/// Line feed, which ends every line.
pub const LINE_FEED: u8 = 10;
/// `#`, which starts a comment.
pub const HASH: u8 = 35;
/// `[`, which opens a group header or a locale.
pub const OPEN_BRACKET: u8 = 91;
/// `]`, which closes a group header or a locale.
pub const CLOSE_BRACKET: u8 = 93;
/// `=`, between a key and its value.
pub const EQUALS: u8 = 61;
/// `_`, before a locale's country.
pub const UNDERSCORE: u8 = 95;
/// `.`, before a locale's encoding.
pub const DOT: u8 = 46;
/// `@`, before a locale's modifier.
pub const AT: u8 = 64;

/// Whether position `i` of `b` holds byte `c`.
pub open spec fn has(b: Seq<u8>, i: int, c: u8) -> bool {
    0 <= i < b.len() && b[i] == c
}

/// The byte classes of the grammar.
pub open spec fn in_class(c: u8, class: u8) -> bool {
    if class == CLASS_KEY {
        (65 <= c <= 90) || (97 <= c <= 122) || (48 <= c <= 57) || c == 45
    } else if class == CLASS_MODIFIER {
        (65 <= c <= 90) || (97 <= c <= 122) || c == 48 || c == 57 || c == 45
    } else if class == CLASS_HEADER {
        32 <= c < 127 && c != OPEN_BRACKET && c != CLOSE_BRACKET
    } else if class == CLASS_LOWER {
        97 <= c <= 122
    } else if class == CLASS_UPPER {
        65 <= c <= 90
    } else {
        c == 32 || c == 9
    }
}

/// Letters, digits and `-`: the bytes of a key and of a locale's encoding.
pub const CLASS_KEY: u8 = 0;
/// The bytes of a locale's modifier.
pub const CLASS_MODIFIER: u8 = 1;
/// Printable ASCII but the square brackets: the bytes of a group name.
pub const CLASS_HEADER: u8 = 2;
/// Lower-case ASCII letters.
pub const CLASS_LOWER: u8 = 3;
/// Upper-case ASCII letters.
pub const CLASS_UPPER: u8 = 4;
/// Spaces and tabs.
pub const CLASS_SPACE: u8 = 5;

/// The end of the run of bytes of `class` that starts at `i`.
pub open spec fn run_end(b: Seq<u8>, i: int, class: u8) -> int
    decreases b.len() - i,
{
    if 0 <= i < b.len() && in_class(b[i], class) {
        run_end(b, i + 1, class)
    } else {
        i
    }
}

/// The position of the line feed that ends the line at `i`, or the end of
/// the input.
pub open spec fn line_end(b: Seq<u8>, i: int) -> int
    decreases b.len() - i,
{
    if 0 <= i < b.len() && b[i] != LINE_FEED {
        line_end(b, i + 1)
    } else {
        i
    }
}

/// The start of the line after the one at `i`.
pub open spec fn next_line(b: Seq<u8>, i: int) -> int {
    if line_end(b, i) < b.len() {
        line_end(b, i) + 1
    } else {
        line_end(b, i)
    }
}

/// The position after the blank lines and comments that start at `i`. A
/// blank line is spaces or tabs then a line feed; a comment is `#` up to
/// the end of its line.
pub open spec fn skip_blanks(b: Seq<u8>, i: int) -> int
    decreases b.len() - i,
{
    if 0 <= i < b.len() {
        if b[i] == HASH {
            if i < next_line(b, i) <= b.len() {
                skip_blanks(b, next_line(b, i))
            } else {
                i
            }
        } else if has(b, run_end(b, i, CLASS_SPACE), LINE_FEED) && run_end(b, i, CLASS_SPACE) >= i {
            skip_blanks(b, run_end(b, i, CLASS_SPACE) + 1)
        } else {
            i
        }
    } else {
        i
    }
}

/// The end of the locale suffix `[lang_COUNTRY.ENCODING@MODIFIER]` that
/// starts at `i`, if one does; each of the three last parts may be left out.
pub open spec fn locale_end(b: Seq<u8>, i: int) -> Option<int> {
    if has(b, i, OPEN_BRACKET) && 0 <= i && i + 2 < b.len() && in_class(b[i + 1], CLASS_LOWER) && in_class(
        b[i + 2],
        CLASS_LOWER,
    ) {
        let j = i + 3;
        let j = if has(b, j, UNDERSCORE) && j + 2 < b.len() && in_class(b[j + 1], CLASS_UPPER)
            && in_class(b[j + 2], CLASS_UPPER) {
            j + 3
        } else {
            j
        };
        let j = if has(b, j, DOT) && j + 1 < b.len() && in_class(b[j + 1], CLASS_KEY) {
            run_end(b, j + 1, CLASS_KEY)
        } else {
            j
        };
        let j = if has(b, j, AT) && j + 1 < b.len() && in_class(b[j + 1], CLASS_MODIFIER) {
            run_end(b, j + 1, CLASS_MODIFIER)
        } else {
            j
        };
        if has(b, j, CLOSE_BRACKET) {
            Some(j + 1)
        } else {
            None
        }
    } else {
        None
    }
}

/// The end of the key that starts at `i`: one or more key bytes, then a
/// locale suffix if one follows.
pub open spec fn key_end(b: Seq<u8>, i: int) -> Option<int> {
    let e = run_end(b, i, CLASS_KEY);
    if e == i {
        None
    } else {
        match locale_end(b, e) {
            Some(f) => Some(f),
            None => Some(e),
        }
    }
}

/// Where the entry read from `i` has its key and its value: after blank
/// lines and comments, a key, optional spaces, `=`, optional spaces. Gives
/// the start and end of the key and the start of the value.
pub open spec fn entry_at(b: Seq<u8>, i: int) -> Option<(int, int, int)> {
    let k0 = skip_blanks(b, i);
    match key_end(b, k0) {
        None => None,
        Some(k1) => {
            let q = run_end(b, k1, CLASS_SPACE);
            if has(b, q, EQUALS) {
                Some((k0, k1, run_end(b, q + 1, CLASS_SPACE)))
            } else {
                None
            }
        },
    }
}

/// ASCII bytes as the characters they encode, lower-cased.
pub open spec fn lower_text(b: Seq<u8>) -> Seq<char> {
    b.map_values(|c: u8| lower_char(c as char))
}

/// ASCII bytes as the characters they encode.
pub open spec fn ascii_text(b: Seq<u8>) -> Seq<char> {
    b.map_values(|c: u8| c as char)
}

/// The entries read from `i` on, in order: `None` when a value is not
/// UTF-8. Also gives the position where the entries stop.
pub open spec fn entries_from(b: Seq<u8>, i: int) -> (Option<RawPairs>, int)
    decreases b.len() - i,
{
    match entry_at(b, i) {
        None => (Some(seq![]), i),
        Some((k0, k1, v0)) => {
            let value = b.subrange(v0, line_end(b, v0));
            if !valid_utf8(value) {
                (None, i)
            } else {
                let nx = next_line(b, v0);
                if i < nx <= b.len() {
                    let pair = (lower_text(b.subrange(k0, k1)), decode_utf8(value));
                    let (rest, end) = entries_from(b, nx);
                    match rest {
                        None => (None, end),
                        Some(ps) => (Some(seq![pair] + ps), end),
                    }
                } else {
                    (Some(seq![]), i)
                }
            }
        },
    }
}

/// The end of the group name in the header line `[Name]` at `i`.
pub open spec fn header_end(b: Seq<u8>, i: int) -> Option<int> {
    let e = run_end(b, i + 1, CLASS_HEADER);
    if has(b, i, OPEN_BRACKET) && has(b, e, CLOSE_BRACKET) && has(b, e + 1, LINE_FEED) {
        Some(e)
    } else {
        None
    }
}

/// The groups read from `i` to the end of the input.
pub open spec fn groups_from(b: Seq<u8>, i: int) -> Result<Seq<GroupView>, ParseError>
    decreases b.len() - i,
{
    match header_end(b, i) {
        None => if i >= b.len() {
            Ok(seq![])
        } else {
            Err(ParseError::Syntax)
        },
        Some(e) => {
            let (ps, j) = entries_from(b, e + 2);
            match ps {
                None => Err(ParseError::NonUtf8),
                Some(ps) => {
                    let nx = skip_blanks(b, j);
                    if i < nx <= b.len() {
                        let g = GroupView {
                            name: ascii_text(b.subrange(i + 1, e)),
                            entries: insert_all(ps),
                        };
                        match groups_from(b, nx) {
                            Ok(gs) => Ok(seq![g] + gs),
                            Err(x) => Err(x),
                        }
                    } else {
                        Err(ParseError::Syntax)
                    }
                },
            }
        },
    }
}

/// What a whole file parses to.
pub open spec fn parsed(b: Seq<u8>) -> Result<Seq<GroupView>, ParseError> {
    groups_from(b, skip_blanks(b, 0))
}

/// Relies on `std::str::from_utf8`: it accepts exactly the valid UTF-8
/// byte sequences, and then gives the characters they encode.
#[verifier::external_body]
fn utf8_text(b: &[u8]) -> (r: Option<String>)
    ensures
        r is Some <==> valid_utf8(b@),
        r is Some ==> r->0@ == decode_utf8(b@),
{
    std::str::from_utf8(b).ok().map(|s| s.to_string())
}

/// Whether byte `c` is in `class`.
fn byte_in_class(c: u8, class: u8) -> (r: bool)
    ensures
        r == in_class(c, class),
{
    if class == CLASS_KEY {
        (65 <= c && c <= 90) || (97 <= c && c <= 122) || (48 <= c && c <= 57) || c == 45
    } else if class == CLASS_MODIFIER {
        (65 <= c && c <= 90) || (97 <= c && c <= 122) || c == 48 || c == 57 || c == 45
    } else if class == CLASS_HEADER {
        32 <= c && c < 127 && c != OPEN_BRACKET && c != CLOSE_BRACKET
    } else if class == CLASS_LOWER {
        97 <= c && c <= 122
    } else if class == CLASS_UPPER {
        65 <= c && c <= 90
    } else {
        c == 32 || c == 9
    }
}

/// Whether position `i` of the input holds byte `c`.
fn has_at(input: &[u8], i: usize, c: u8) -> (r: bool)
    ensures
        r == has(input@, i as int, c),
{
    i < input.len() && input[i] == c
}

/// The end of the run of bytes of `class` that starts at `i`.
fn run_end_at(input: &[u8], i: usize, class: u8) -> (r: usize)
    requires
        i <= input@.len(),
    ensures
        r == run_end(input@, i as int, class),
        i <= r <= input@.len(),
{
    let mut j: usize = i;
    while j < input.len() && byte_in_class(input[j], class)
        invariant
            i <= j <= input@.len(),
            run_end(input@, i as int, class) == run_end(input@, j as int, class),
        decreases input@.len() - j,
    {
        j = j + 1;
    }
    j
}

/// The position of the line feed that ends the line at `i`, or the end.
fn line_end_at(input: &[u8], i: usize) -> (r: usize)
    requires
        i <= input@.len(),
    ensures
        r == line_end(input@, i as int),
        i <= r <= input@.len(),
{
    let mut j: usize = i;
    while j < input.len() && input[j] != LINE_FEED
        invariant
            i <= j <= input@.len(),
            line_end(input@, i as int) == line_end(input@, j as int),
        decreases input@.len() - j,
    {
        j = j + 1;
    }
    j
}

/// The start of the line after the one at `i`.
fn next_line_at(input: &[u8], i: usize) -> (r: usize)
    requires
        i <= input@.len(),
    ensures
        r == next_line(input@, i as int),
        i <= r <= input@.len(),
{
    let e = line_end_at(input, i);
    if e < input.len() {
        e + 1
    } else {
        e
    }
}

/// The position after the blank lines and comments that start at `i`.
fn skip_blanks_at(input: &[u8], i: usize) -> (r: usize)
    requires
        i <= input@.len(),
    ensures
        r == skip_blanks(input@, i as int),
        i <= r <= input@.len(),
{
    let ghost b = input@;
    let mut j: usize = i;
    loop
        invariant
            b == input@,
            i <= j <= b.len(),
            skip_blanks(b, i as int) == skip_blanks(b, j as int),
        decreases b.len() - j,
    {
        if j >= input.len() {
            return j;
        }
        if input[j] == HASH {
            let nx = next_line_at(input, j);
            if nx <= j {
                return j;
            }
            j = nx;
        } else {
            let e = run_end_at(input, j, CLASS_SPACE);
            if has_at(input, e, LINE_FEED) {
                j = e + 1;
            } else {
                return j;
            }
        }
    }
}

/// The end of the locale suffix that starts at `i`, if one does.
fn locale_end_at(input: &[u8], i: usize) -> (r: Option<usize>)
    requires
        i <= input@.len(),
    ensures
        match r {
            Some(x) => locale_end(input@, i as int) == Some(x as int) && i < x <= input@.len(),
            None => locale_end(input@, i as int) is None,
        },
{
    let n = input.len();
    if !(has_at(input, i, OPEN_BRACKET) && n - i > 2 && byte_in_class(input[i + 1], CLASS_LOWER)
        && byte_in_class(input[i + 2], CLASS_LOWER)) {
        return None;
    }
    let mut j = i + 3;
    if has_at(input, j, UNDERSCORE) && n - j > 2 && byte_in_class(input[j + 1], CLASS_UPPER)
        && byte_in_class(input[j + 2], CLASS_UPPER) {
        j = j + 3;
    }
    if has_at(input, j, DOT) && n - j > 1 && byte_in_class(input[j + 1], CLASS_KEY) {
        j = run_end_at(input, j + 1, CLASS_KEY);
    }
    if has_at(input, j, AT) && n - j > 1 && byte_in_class(input[j + 1], CLASS_MODIFIER) {
        j = run_end_at(input, j + 1, CLASS_MODIFIER);
    }
    if has_at(input, j, CLOSE_BRACKET) {
        Some(j + 1)
    } else {
        None
    }
}

/// The end of the key that starts at `i`, if one does.
fn key_end_at(input: &[u8], i: usize) -> (r: Option<usize>)
    requires
        i <= input@.len(),
    ensures
        match r {
            Some(x) => key_end(input@, i as int) == Some(x as int) && i < x <= input@.len(),
            None => key_end(input@, i as int) is None,
        },
{
    let e = run_end_at(input, i, CLASS_KEY);
    if e == i {
        return None;
    }
    match locale_end_at(input, e) {
        Some(f) => Some(f),
        None => Some(e),
    }
}

/// Where the entry read from `i` has its key and its value.
fn entry_at_exec(input: &[u8], i: usize) -> (r: Option<(usize, usize, usize)>)
    requires
        i <= input@.len(),
    ensures
        match r {
            Some((k0, k1, v0)) => entry_at(input@, i as int) == Some(
                (k0 as int, k1 as int, v0 as int),
            ) && i <= k0 < k1 < v0 <= input@.len(),
            None => entry_at(input@, i as int) is None,
        },
{
    let k0 = skip_blanks_at(input, i);
    match key_end_at(input, k0) {
        None => None,
        Some(k1) => {
            let q = run_end_at(input, k1, CLASS_SPACE);
            if q < input.len() && input[q] == EQUALS {
                Some((k0, k1, run_end_at(input, q + 1, CLASS_SPACE)))
            } else {
                None
            }
        },
    }
}

/// The bytes `from..to` of ASCII input as a lower-case string.
fn lower_string(input: &[u8], from: usize, to: usize) -> (r: String)
    requires
        from <= to <= input@.len(),
    ensures
        r@ == lower_text(input@.subrange(from as int, to as int)),
{
    let mut r = String::new();
    let mut k: usize = from;
    while k < to
        invariant
            from <= k <= to <= input@.len(),
            r@ == lower_text(input@.subrange(from as int, k as int)),
        decreases to - k,
    {
        let c = input[k] as char;
        let l = if 'A' <= c && c <= 'Z' {
            ((c as u8) + 32) as char
        } else {
            c
        };
        r.push(l);
        assert(input@.subrange(from as int, k + 1) =~= input@.subrange(from as int, k as int).push(
            input@[k as int],
        ));
        assert(r@ =~= lower_text(input@.subrange(from as int, k + 1)));
        k = k + 1;
    }
    r
}

/// The bytes `from..to` of ASCII input as a string.
fn ascii_string(input: &[u8], from: usize, to: usize) -> (r: String)
    requires
        from <= to <= input@.len(),
    ensures
        r@ == ascii_text(input@.subrange(from as int, to as int)),
{
    let mut r = String::new();
    let mut k: usize = from;
    while k < to
        invariant
            from <= k <= to <= input@.len(),
            r@ == ascii_text(input@.subrange(from as int, k as int)),
        decreases to - k,
    {
        r.push(input[k] as char);
        assert(input@.subrange(from as int, k + 1) =~= input@.subrange(from as int, k as int).push(
            input@[k as int],
        ));
        assert(r@ =~= ascii_text(input@.subrange(from as int, k + 1)));
        k = k + 1;
    }
    r
}

/// The bytes `from..to` of the input, copied.
fn copy_bytes(input: &[u8], from: usize, to: usize) -> (r: Vec<u8>)
    requires
        from <= to <= input@.len(),
    ensures
        r@ == input@.subrange(from as int, to as int),
{
    let mut r: Vec<u8> = Vec::new();
    let mut k: usize = from;
    while k < to
        invariant
            from <= k <= to <= input@.len(),
            r@ == input@.subrange(from as int, k as int),
        decreases to - k,
    {
        r.push(input[k]);
        assert(r@ =~= input@.subrange(from as int, k + 1));
        k = k + 1;
    }
    r
}

/// `p` put in front of the entries that were read, or the failure unchanged.
pub open spec fn prefix_entries(p: RawPairs, r: (Option<RawPairs>, int)) -> (Option<RawPairs>, int) {
    match r.0 {
        Some(ps) => (Some(p + ps), r.1),
        None => (None, r.1),
    }
}

/// Reads the entries of a group from `i` on: the pairs in file order (or
/// `None` when a value is not UTF-8) and the position where they stop.
fn read_entries(input: &[u8], i: usize) -> (r: (Option<Vec<(String, String)>>, usize))
    requires
        i <= input@.len(),
    ensures
        i <= r.1 <= input@.len(),
        entries_from(input@, i as int) == (
            match r.0 {
                Some(v) => Some(pairs_view(v)),
                None => None::<RawPairs>,
            },
            r.1 as int,
        ),
{
    let ghost b = input@;
    let mut acc: Vec<(String, String)> = Vec::new();
    let mut j: usize = i;
    assert(pairs_view(acc) + Seq::<(Seq<char>, Seq<char>)>::empty() =~= Seq::<(Seq<char>, Seq<char>)>::empty());
    loop
        invariant
            b == input@,
            i <= j <= b.len(),
            entries_from(b, i as int) == prefix_entries(pairs_view(acc), entries_from(b, j as int)),
        decreases b.len() - j,
    {
        match entry_at_exec(input, j) {
            None => {
                assert(pairs_view(acc) + Seq::<(Seq<char>, Seq<char>)>::empty() =~= pairs_view(acc));
                return (Some(acc), j);
            },
            Some((k0, k1, v0)) => {
                let ve = line_end_at(input, v0);
                let raw = copy_bytes(input, v0, ve);
                match utf8_text(raw.as_slice()) {
                    None => {
                        return (None, j);
                    },
                    Some(value) => {
                        let nx = next_line_at(input, v0);
                        let key = lower_string(input, k0, k1);
                        let ghost before = pairs_view(acc);
                        let ghost pair = (key@, value@);
                        acc.push((key, value));
                        assert(pairs_view(acc) =~= before.push(pair));
                        let ghost rest = entries_from(b, nx as int);
                        proof {
                            if rest.0 is Some {
                                assert(before + (seq![pair] + rest.0->0) =~= before.push(pair)
                                    + rest.0->0);
                            }
                        }
                        j = nx;
                    },
                }
            },
        }
    }
}

/// `g` put in front of the groups that were read, or the error unchanged.
pub open spec fn prefix_groups(p: Seq<GroupView>, r: Result<Seq<GroupView>, ParseError>) -> Result<
    Seq<GroupView>,
    ParseError,
> {
    match r {
        Ok(gs) => Ok(p + gs),
        Err(e) => Err(e),
    }
}

/// Parse a slice of bytes into a `DesktopEntry`.
///
/// The whole input must follow the grammar: anything left over is a
/// syntax error. A value that is not UTF-8 gives `NonUtf8`.
pub fn parse(input: &[u8]) -> (r: Result<DesktopEntry, ParseError>)
    ensures
        match parsed(input@) {
            Ok(gs) => r is Ok && r->Ok_0@ == gs,
            Err(e) => r == Err::<DesktopEntry, ParseError>(e),
        },
{
    let ghost b = input@;
    let mut groups: Vec<Group> = Vec::new();
    let mut i = skip_blanks_at(input, 0);
    assert(groups@.map_values(|g: Group| g@) + Seq::<GroupView>::empty() =~= Seq::<GroupView>::empty());
    loop
        invariant
            b == input@,
            i <= b.len(),
            parsed(b) == prefix_groups(groups@.map_values(|g: Group| g@), groups_from(b, i as int)),
        decreases b.len() - i,
    {
        let ghost before = groups@.map_values(|g: Group| g@);
        let e = if i < input.len() && input[i] == OPEN_BRACKET {
            run_end_at(input, i + 1, CLASS_HEADER)
        } else {
            input.len()
        };
        if !(i < input.len() && input[i] == OPEN_BRACKET && has_at(input, e, CLOSE_BRACKET)
            && has_at(input, e + 1, LINE_FEED)) {
            assert(header_end(b, i as int) is None);
            if i >= input.len() {
                assert(before + Seq::<GroupView>::empty() =~= before);
                return Ok(DesktopEntry::new(groups));
            }
            return Err(ParseError::Syntax);
        }
        assert(header_end(b, i as int) == Some(e as int));
        let (pairs, j) = read_entries(input, e + 2);
        match pairs {
            None => {
                return Err(ParseError::NonUtf8);
            },
            Some(pairs) => {
                let nx = skip_blanks_at(input, j);
                let name = ascii_string(input, i + 1, e);
                let g = Group::new(name, pairs);
                let ghost gv = g@;
                groups.push(g);
                assert(groups@.map_values(|g: Group| g@) =~= before.push(gv));
                let ghost rest = groups_from(b, nx as int);
                proof {
                    if rest is Ok {
                        assert(before + (seq![gv] + rest->Ok_0) =~= before.push(gv) + rest->Ok_0);
                    }
                }
                i = nx;
            },
        }
    }
}

} // verus!
