//! Reading a group's own bytes again gives the same group: the grammar
//! looks at nothing outside the span a group was read from.
use vstd::prelude::*;
use vstd::utf8::valid_utf8;
use crate::parser::{
    entries_from, entry_at, groups_from, has, header_end, in_class, key_end, line_end, locale_end,
    next_line, parsed, run_end, skip_blanks, ParseError, AT, CLASS_HEADER, CLASS_KEY,
    CLASS_MODIFIER, CLASS_SPACE, CLASS_UPPER, DOT, HASH, LINE_FEED, OPEN_BRACKET, UNDERSCORE,
};

verus! {

proof fn lemma_run_end_bounds(b: Seq<u8>, p: int, c: u8)
    requires
        0 <= p <= b.len(),
    ensures
        p <= run_end(b, p, c) <= b.len(),
    decreases b.len() - p,
{
    if p < b.len() && in_class(b[p], c) {
        lemma_run_end_bounds(b, p + 1, c);
    }
}

proof fn lemma_line_end_bounds(b: Seq<u8>, p: int)
    requires
        0 <= p <= b.len(),
    ensures
        p <= line_end(b, p) <= b.len(),
    decreases b.len() - p,
{
    if p < b.len() && b[p] != LINE_FEED {
        lemma_line_end_bounds(b, p + 1);
    }
}

proof fn lemma_skip_blanks_bounds(b: Seq<u8>, p: int)
    requires
        0 <= p <= b.len(),
    ensures
        p <= skip_blanks(b, p) <= b.len(),
    decreases b.len() - p,
{
    lemma_line_end_bounds(b, p);
    lemma_run_end_bounds(b, p, CLASS_SPACE);
    if 0 <= p < b.len() {
        if b[p] == HASH {
            if p < next_line(b, p) <= b.len() {
                lemma_skip_blanks_bounds(b, next_line(b, p));
            }
        } else if has(b, run_end(b, p, CLASS_SPACE), LINE_FEED) && run_end(b, p, CLASS_SPACE) >= p {
            lemma_skip_blanks_bounds(b, run_end(b, p, CLASS_SPACE) + 1);
        }
    }
}

proof fn lemma_entries_end_bounds(b: Seq<u8>, p: int)
    requires
        0 <= p <= b.len(),
    ensures
        p <= entries_from(b, p).1 <= b.len(),
    decreases b.len() - p,
{
    match entry_at(b, p) {
        None => {},
        Some((k0, k1, v0)) => {
            let nx = next_line(b, v0);
            if valid_utf8(b.subrange(v0, line_end(b, v0))) && p < nx <= b.len() {
                lemma_entries_end_bounds(b, nx);
            }
        },
    }
}

proof fn lemma_run_end_local(b: Seq<u8>, s0: int, n2: int, p: int, c: u8)
    requires
        0 <= s0 <= p <= n2 <= b.len(),
    ensures
        run_end(b.subrange(s0, n2), p - s0, c) == (if run_end(b, p, c) < n2 {
            run_end(b, p, c)
        } else {
            n2
        }) - s0,
    decreases n2 - p,
{
    let sub = b.subrange(s0, n2);
    lemma_run_end_bounds(b, p, c);
    if p < n2 {
        assert(sub[p - s0] == b[p]);
        if in_class(b[p], c) {
            lemma_run_end_local(b, s0, n2, p + 1, c);
            assert(p + 1 - s0 == (p - s0) + 1);
        }
    }
}

proof fn lemma_line_end_local(b: Seq<u8>, s0: int, n2: int, p: int)
    requires
        0 <= s0 <= p <= n2 <= b.len(),
    ensures
        line_end(b.subrange(s0, n2), p - s0) == (if line_end(b, p) < n2 {
            line_end(b, p)
        } else {
            n2
        }) - s0,
    decreases n2 - p,
{
    let sub = b.subrange(s0, n2);
    lemma_line_end_bounds(b, p);
    if p < n2 {
        assert(sub[p - s0] == b[p]);
        if b[p] != LINE_FEED {
            lemma_line_end_local(b, s0, n2, p + 1);
            assert(p + 1 - s0 == (p - s0) + 1);
        }
    }
}

/// The line after `p` starts at the same place in the span as in the
/// whole input, when it starts inside the span.
proof fn lemma_next_line_local(b: Seq<u8>, s0: int, n2: int, p: int)
    requires
        0 <= s0 <= p <= n2 <= b.len(),
        next_line(b, p) <= n2,
    ensures
        next_line(b.subrange(s0, n2), p - s0) == next_line(b, p) - s0,
        line_end(b.subrange(s0, n2), p - s0) == line_end(b, p) - s0,
{
    lemma_line_end_local(b, s0, n2, p);
    lemma_line_end_bounds(b, p);
}

proof fn lemma_skip_blanks_local(b: Seq<u8>, s0: int, n2: int, p: int)
    requires
        0 <= s0 <= p <= n2 <= b.len(),
        skip_blanks(b, p) <= n2,
    ensures
        skip_blanks(b.subrange(s0, n2), p - s0) == skip_blanks(b, p) - s0,
    decreases n2 - p,
{
    let sub = b.subrange(s0, n2);
    lemma_skip_blanks_bounds(b, p);
    if p < n2 {
        assert(sub[p - s0] == b[p]);
        lemma_run_end_local(b, s0, n2, p, CLASS_SPACE);
        lemma_run_end_bounds(b, p, CLASS_SPACE);
        lemma_line_end_bounds(b, p);
        let e = run_end(b, p, CLASS_SPACE);
        if b[p] == HASH {
            let nl = next_line(b, p);
            lemma_skip_blanks_bounds(b, nl);
            lemma_next_line_local(b, s0, n2, p);
            lemma_skip_blanks_local(b, s0, n2, nl);
        } else if has(b, e, LINE_FEED) {
            lemma_skip_blanks_bounds(b, e + 1);
            assert(sub[e - s0] == b[e]);
            lemma_skip_blanks_local(b, s0, n2, e + 1);
            assert(e + 1 - s0 == (e - s0) + 1);
        } else {
            if e < n2 {
                assert(sub[e - s0] == b[e]);
            }
        }
    }
}

proof fn lemma_locale_end_bounds(b: Seq<u8>, x: int)
    requires
        0 <= x <= b.len(),
    ensures
        locale_end(b, x) is Some ==> x + 3 < locale_end(b, x)->0 <= b.len(),
{
    if has(b, x, OPEN_BRACKET) && x + 2 < b.len() {
        let j = if has(b, x + 3, UNDERSCORE) && x + 5 < b.len() && in_class(b[x + 4], CLASS_UPPER)
            && in_class(b[x + 5], CLASS_UPPER) {
            x + 6
        } else {
            x + 3
        };
        let j2 = if has(b, j, DOT) && j + 1 < b.len() && in_class(b[j + 1], CLASS_KEY) {
            run_end(b, j + 1, CLASS_KEY)
        } else {
            j
        };
        if has(b, j, DOT) && j + 1 < b.len() {
            lemma_run_end_bounds(b, j + 1, CLASS_KEY);
        }
        if has(b, j2, AT) && j2 + 1 < b.len() {
            lemma_run_end_bounds(b, j2 + 1, CLASS_MODIFIER);
        }
    }
}

proof fn lemma_locale_end_local(b: Seq<u8>, s0: int, n2: int, x: int)
    requires
        0 <= s0 <= x < n2 <= b.len(),
        locale_end(b, x) is Some ==> locale_end(b, x)->0 <= n2,
        locale_end(b, x) is None ==> !(has(b, x, OPEN_BRACKET)),
    ensures
        locale_end(b.subrange(s0, n2), x - s0) == match locale_end(b, x) {
            Some(f) => Some(f - s0),
            None => None::<int>,
        },
{
    let sub = b.subrange(s0, n2);
    assert(forall|y: int| 0 <= y < n2 - s0 ==> sub[y] == b[y + s0]);
    lemma_locale_end_bounds(b, x);
    if locale_end(b, x) is Some {
        let f = locale_end(b, x)->0;
        let j = if has(b, x + 3, UNDERSCORE) && x + 5 < b.len() && in_class(b[x + 4], CLASS_UPPER)
            && in_class(b[x + 5], CLASS_UPPER) {
            x + 6
        } else {
            x + 3
        };
        let j2 = if has(b, j, DOT) && j + 1 < b.len() && in_class(b[j + 1], CLASS_KEY) {
            run_end(b, j + 1, CLASS_KEY)
        } else {
            j
        };
        if has(b, j, DOT) && j + 1 < b.len() {
            lemma_run_end_bounds(b, j + 1, CLASS_KEY);
        }
        if has(b, j2, AT) && j2 + 1 < b.len() {
            lemma_run_end_bounds(b, j2 + 1, CLASS_MODIFIER);
        }
        if has(b, j, DOT) && j + 1 < n2 && in_class(b[j + 1], CLASS_KEY) {
            lemma_run_end_local(b, s0, n2, j + 1, CLASS_KEY);
        }
        if has(b, j2, AT) && j2 + 1 < n2 && in_class(b[j2 + 1], CLASS_MODIFIER) {
            lemma_run_end_local(b, s0, n2, j2 + 1, CLASS_MODIFIER);
        }
        assert(sub[x - s0] == b[x]);
    } else {
        assert(sub[x - s0] == b[x]);
    }
}

proof fn lemma_entry_at_bounds(b: Seq<u8>, p: int)
    requires
        0 <= p <= b.len(),
        entry_at(b, p) is Some,
    ensures
        p <= (entry_at(b, p)->0).0 < (entry_at(b, p)->0).1 < (entry_at(b, p)->0).2 <= b.len(),
{
    let k0 = skip_blanks(b, p);
    lemma_skip_blanks_bounds(b, p);
    let e = run_end(b, k0, CLASS_KEY);
    lemma_run_end_bounds(b, k0, CLASS_KEY);
    lemma_locale_end_bounds(b, e);
    let k1 = key_end(b, k0)->0;
    let q = run_end(b, k1, CLASS_SPACE);
    lemma_run_end_bounds(b, k1, CLASS_SPACE);
    lemma_run_end_bounds(b, q + 1, CLASS_SPACE);
}

proof fn lemma_entry_at_local(b: Seq<u8>, s0: int, n2: int, p: int)
    requires
        0 <= s0 <= p <= n2 <= b.len(),
        entry_at(b, p) is Some,
        (entry_at(b, p)->0).2 <= n2,
    ensures
        entry_at(b.subrange(s0, n2), p - s0) == Some(
            ((entry_at(b, p)->0).0 - s0, (entry_at(b, p)->0).1 - s0, (entry_at(b, p)->0).2 - s0),
        ),
        (entry_at(b, p)->0).0 < (entry_at(b, p)->0).1 < (entry_at(b, p)->0).2,
        p <= (entry_at(b, p)->0).0,
{
    let sub = b.subrange(s0, n2);
    assert(forall|y: int| 0 <= y < n2 - s0 ==> sub[y] == b[y + s0]);
    let k0 = skip_blanks(b, p);
    lemma_skip_blanks_bounds(b, p);
    let e = run_end(b, k0, CLASS_KEY);
    lemma_run_end_bounds(b, k0, CLASS_KEY);
    lemma_locale_end_bounds(b, e);
    let k1 = key_end(b, k0)->0;
    let q = run_end(b, k1, CLASS_SPACE);
    lemma_run_end_bounds(b, k1, CLASS_SPACE);
    let v0 = run_end(b, q + 1, CLASS_SPACE);
    lemma_run_end_bounds(b, q + 1, CLASS_SPACE);
    if locale_end(b, e) is None && has(b, e, OPEN_BRACKET) {
        assert(q == e);
        assert(false);
    }
    lemma_skip_blanks_local(b, s0, n2, p);
    lemma_run_end_local(b, s0, n2, k0, CLASS_KEY);
    lemma_locale_end_local(b, s0, n2, e);
    lemma_run_end_local(b, s0, n2, k1, CLASS_SPACE);
    lemma_run_end_local(b, s0, n2, q + 1, CLASS_SPACE);
    assert(sub[q - s0] == b[q]);
}

proof fn lemma_entries_local(b: Seq<u8>, s0: int, n2: int, p: int)
    requires
        0 <= s0 <= p <= n2 <= b.len(),
        entries_from(b, p).0 is Some,
        skip_blanks(b, entries_from(b, p).1) == n2,
    ensures
        entries_from(b.subrange(s0, n2), p - s0) == (
            entries_from(b, p).0,
            entries_from(b, p).1 - s0,
        ),
    decreases b.len() - p,
{
    let sub = b.subrange(s0, n2);
    lemma_entries_end_bounds(b, p);
    match entry_at(b, p) {
        None => {
            lemma_skip_blanks_local(b, s0, n2, p);
            lemma_run_end_bounds(sub, n2 - s0, CLASS_KEY);
        },
        Some((k0, k1, v0)) => {
            lemma_entry_at_bounds(b, p);
            let le = line_end(b, v0);
            let nx = next_line(b, v0);
            lemma_line_end_bounds(b, v0);
            lemma_entries_end_bounds(b, nx);
            lemma_skip_blanks_bounds(b, entries_from(b, nx).1);
            lemma_entry_at_local(b, s0, n2, p);
            lemma_next_line_local(b, s0, n2, v0);
            lemma_entries_local(b, s0, n2, nx);
            assert(sub.subrange(v0 - s0, le - s0) =~= b.subrange(v0, le));
            assert(sub.subrange(k0 - s0, k1 - s0) =~= b.subrange(k0, k1));
        },
    }
}

/// Where the bytes of the group whose header is at `i` end: after its
/// entries and the blank lines and comments that follow them.
pub open spec fn group_span_end(b: Seq<u8>, i: int) -> int {
    match header_end(b, i) {
        Some(e) => skip_blanks(b, entries_from(b, e + 2).1),
        None => i,
    }
}

/// Parsing again the exact bytes that one group was read from gives that
/// group alone.
pub proof fn lemma_reparse_group_span(b: Seq<u8>, i: int)
    requires
        0 <= i <= b.len(),
        header_end(b, i) is Some,
        groups_from(b, i) is Ok,
    ensures
        parsed(b.subrange(i, group_span_end(b, i))) == Ok::<Seq<crate::model::GroupView>, ParseError>(
            seq![groups_from(b, i)->Ok_0[0]],
        ),
{
    let e = header_end(b, i)->0;
    let n2 = group_span_end(b, i);
    let sub = b.subrange(i, n2);
    assert(forall|y: int| 0 <= y < n2 - i ==> sub[y] == b[y + i]);
    lemma_run_end_bounds(b, i + 1, CLASS_HEADER);
    lemma_entries_end_bounds(b, e + 2);
    let j = entries_from(b, e + 2).1;
    lemma_skip_blanks_bounds(b, j);
    lemma_run_end_local(b, i, n2, i + 1, CLASS_HEADER);
    lemma_run_end_local(b, i, n2, i, CLASS_SPACE);
    lemma_entries_local(b, i, n2, e + 2);
    lemma_skip_blanks_local(b, i, n2, j);
    assert(sub.subrange(1, e - i) =~= b.subrange(i + 1, e));
    assert(skip_blanks(sub, 0) == 0);
    assert(header_end(sub, 0) == Some(e - i));
    assert(header_end(sub, n2 - i) is None);
    assert(groups_from(sub, n2 - i) == Ok::<Seq<crate::model::GroupView>, ParseError>(seq![]));
    let gs = groups_from(b, i)->Ok_0;
    assert(groups_from(sub, 0) =~= Ok::<Seq<crate::model::GroupView>, ParseError>(seq![gs[0]]));
}

} // verus!
