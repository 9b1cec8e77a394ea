//! The value-level escape rules: unescaping a string value and splitting a
//! list value at its unescaped semicolons.
use vstd::prelude::*;
use crate::text::chars_of;

verus! {

/// The character that `\x` stands for in a string value, if `x` names one.
pub open spec fn escaped_char(x: char) -> Option<char> {
    if x == 's' {
        Some(' ')
    } else if x == 'n' {
        Some('\n')
    } else if x == 't' {
        Some('\t')
    } else if x == 'r' {
        Some('\r')
    } else if x == '\\' {
        Some('\\')
    } else {
        None
    }
}

/// The character that `\x` stands for inside one element of a list value.
pub open spec fn list_escaped_char(x: char) -> Option<char> {
    if x == ';' {
        Some(';')
    } else {
        escaped_char(x)
    }
}

/// What the escape `\` followed by `x` decodes to under the given table:
/// the named character, or the backslash and `x` themselves.
pub open spec fn decode_escape(x: char, named: Option<char>) -> Seq<char> {
    match named {
        Some(c) => seq![c],
        None => seq!['\\', x],
    }
}

/// A string value with its escapes decoded. A lone backslash at the end
/// stays a backslash.
pub open spec fn unescaped(s: Seq<char>) -> Seq<char>
    decreases s.len(),
{
    if s.len() == 0 {
        seq![]
    } else if s[0] == '\\' {
        if s.len() == 1 {
            seq!['\\']
        } else {
            decode_escape(s[1], escaped_char(s[1])) + unescaped(s.skip(2))
        }
    } else {
        seq![s[0]] + unescaped(s.skip(1))
    }
}

/// The first element of a list value: its characters up to the first
/// unescaped `;` (or the end), decoded.
pub open spec fn first_value(s: Seq<char>) -> Seq<char>
    decreases s.len(),
{
    if s.len() == 0 {
        seq![]
    } else if s[0] == '\\' {
        if s.len() == 1 {
            seq!['\\']
        } else {
            decode_escape(s[1], list_escaped_char(s[1])) + first_value(s.skip(2))
        }
    } else if s[0] == ';' {
        seq![]
    } else {
        seq![s[0]] + first_value(s.skip(1))
    }
}

/// What is left of a list value after its first element and the `;` that
/// ends it.
pub open spec fn after_first_value(s: Seq<char>) -> Seq<char>
    decreases s.len(),
{
    if s.len() == 0 {
        seq![]
    } else if s[0] == '\\' {
        if s.len() == 1 {
            seq![]
        } else {
            after_first_value(s.skip(2))
        }
    } else if s[0] == ';' {
        s.skip(1)
    } else {
        after_first_value(s.skip(1))
    }
}

/// Taking the first element always makes a non-empty list value shorter.
pub proof fn lemma_after_first_value_shorter(s: Seq<char>)
    ensures
        s.len() > 0 ==> after_first_value(s).len() < s.len(),
        after_first_value(s).len() <= s.len(),
    decreases s.len(),
{
    if s.len() > 0 {
        if s[0] == '\\' {
            if s.len() > 1 {
                lemma_after_first_value_shorter(s.skip(2));
            }
        } else if s[0] != ';' {
            lemma_after_first_value_shorter(s.skip(1));
        }
    }
}

/// The elements of a list value. An empty value has none, and a final `;`
/// ends the last element without starting another.
pub open spec fn split_values(s: Seq<char>) -> Seq<Seq<char>>
    decreases s.len(),
{
    if s.len() == 0 {
        seq![]
    } else {
        let rest = after_first_value(s);
        if rest.len() < s.len() {
            seq![first_value(s)] + split_values(rest)
        } else {
            seq![]
        }
    }
}

/// A value without backslashes or semicolons, followed by the closing `;`,
/// splits into exactly that value.
pub proof fn lemma_split_single_terminated(s: Seq<char>)
    requires
        forall|i: int| 0 <= i < s.len() ==> s[i] != '\\' && s[i] != ';',
    ensures
        split_values(s.push(';')) == seq![s],
{
    lemma_first_value_plain(s);
    let t = s.push(';');
    lemma_after_first_value_shorter(t);
    assert(split_values(Seq::<char>::empty()) == Seq::<Seq<char>>::empty());
    assert(split_values(t) =~= seq![s]);
}

proof fn lemma_first_value_plain(s: Seq<char>)
    requires
        forall|i: int| 0 <= i < s.len() ==> s[i] != '\\' && s[i] != ';',
    ensures
        first_value(s.push(';')) == s,
        after_first_value(s.push(';')) == Seq::<char>::empty(),
    decreases s.len(),
{
    let t = s.push(';');
    if s.len() == 0 {
        assert(t.skip(1) =~= Seq::<char>::empty());
    } else {
        let u = s.skip(1);
        assert(t.skip(1) =~= u.push(';'));
        lemma_first_value_plain(u);
        assert(seq![s[0]] + u =~= s);
    }
}

/// An empty value has no elements, and a lone `;` has one empty element.
pub proof fn lemma_split_empty_and_lone_separator()
    ensures
        split_values(Seq::<char>::empty()) == Seq::<Seq<char>>::empty(),
        split_values(seq![';']) == seq![Seq::<char>::empty()],
{
    let t = seq![';'];
    assert(t.skip(1) =~= Seq::<char>::empty());
    assert(first_value(t) == Seq::<char>::empty());
    assert(after_first_value(t) == Seq::<char>::empty());
    assert(split_values(Seq::<char>::empty()) == Seq::<Seq<char>>::empty());
    assert(split_values(t) =~= seq![Seq::<char>::empty()]);
}

/// Unescaping leaves a value without backslashes as it is, so doing it a
/// second time changes nothing; and an escaped backslash becomes one
/// backslash.
pub proof fn lemma_unescape_plain(s: Seq<char>)
    requires
        forall|i: int| 0 <= i < s.len() ==> s[i] != '\\',
    ensures
        unescaped(s) == s,
        unescaped(unescaped(s)) == unescaped(s),
        unescaped(seq!['\\', '\\']) == seq!['\\'],
    decreases s.len(),
{
    if s.len() > 0 {
        lemma_unescape_plain(s.skip(1));
        assert(seq![s[0]] + s.skip(1) =~= s);
    }
    let b = seq!['\\', '\\'];
    assert(b.skip(2) =~= Seq::<char>::empty());
    assert(unescaped(Seq::<char>::empty()) == Seq::<char>::empty());
    assert(unescaped(b) =~= seq!['\\']);
}

/// Unescape a string value
///
/// This should be used when deserializing any entries
/// with string values.
pub fn unescape_value(s: &str) -> (r: String)
    ensures
        r@ == unescaped(s@),
{
    let cs = chars_of(s);
    let n = cs.len();
    let mut content = String::new();
    let mut i: usize = 0;
    assert(s@.skip(0) =~= s@);
    while i < n
        invariant
            cs@ == s@,
            n == cs@.len(),
            i <= n,
            content@ + unescaped(s@.skip(i as int)) == unescaped(s@),
        decreases n - i,
    {
        let ghost before = content@;
        let ghost t = s@.skip(i as int);
        let ch = cs[i];
        if ch == '\\' {
            if i + 1 < n {
                let x = cs[i + 1];
                if x == 's' {
                    content.push(' ');
                } else if x == 'n' {
                    content.push('\n');
                } else if x == 't' {
                    content.push('\t');
                } else if x == 'r' {
                    content.push('\r');
                } else if x == '\\' {
                    content.push('\\');
                } else {
                    content.push('\\');
                    content.push(x);
                }
                assert(t.skip(2) =~= s@.skip(i + 2));
                assert(content@ =~= before + decode_escape(x, escaped_char(x)));
                i = i + 2;
            } else {
                content.push('\\');
                i = i + 1;
            }
        } else {
            content.push(ch);
            assert(t.skip(1) =~= s@.skip(i + 1));
            i = i + 1;
        }
        assert(content@ + unescaped(s@.skip(i as int)) =~= unescaped(s@));
    }
    assert(s@.skip(0) =~= s@);
    content
}

/// Split a value by semicolons
///
/// The elements are produced one at a time by `Values::next`.
pub fn split_value_str(s: &str) -> (r: Values)
    ensures
        r.wf(),
        r.remaining() == s@,
{
    Values { chars: chars_of(s), pos: 0 }
}

/// The elements of a list value, produced one at a time.
///
/// See `split_value_str`
pub struct Values {
    chars: Vec<char>,
    pos: usize,
}

impl Values {
    /// The part of the value that no element has been taken from yet.
    pub closed spec fn remaining(&self) -> Seq<char> {
        self.chars@.skip(self.pos as int)
    }

    pub closed spec fn wf(&self) -> bool {
        self.pos <= self.chars@.len()
    }

    /// The next element, or `None` once the value is used up.
    pub fn next(&mut self) -> (r: Option<String>)
        requires
            old(self).wf(),
        ensures
            final(self).wf(),
            old(self).remaining().len() == 0 ==> r is None && final(self).remaining() == old(
                self,
            ).remaining(),
            old(self).remaining().len() > 0 ==> r is Some && r->0@ == first_value(
                old(self).remaining(),
            ) && final(self).remaining() == after_first_value(old(self).remaining()),
    {
        let n = self.chars.len();
        if self.pos >= n {
            return None;
        }
        let ghost start = self.remaining();
        let mut value = String::new();
        let mut i: usize = self.pos;
        while i < n
            invariant
                self.chars@.len() == n,
                self.chars@ == old(self).chars@,
                self.pos == old(self).pos,
                self.pos <= i <= n,
                start == self.chars@.skip(self.pos as int),
                value@ + first_value(self.chars@.skip(i as int)) == first_value(start),
                after_first_value(self.chars@.skip(i as int)) == after_first_value(start),
            decreases n - i,
        {
            let ghost before = value@;
            let ghost t = self.chars@.skip(i as int);
            let c = self.chars[i];
            if c == '\\' {
                if i + 1 < n {
                    let x = self.chars[i + 1];
                    if x == '\\' {
                        value.push('\\');
                    } else if x == ';' {
                        value.push(';');
                    } else if x == 's' {
                        value.push(' ');
                    } else if x == 'n' {
                        value.push('\n');
                    } else if x == 't' {
                        value.push('\t');
                    } else if x == 'r' {
                        value.push('\r');
                    } else {
                        value.push('\\');
                        value.push(x);
                    }
                    assert(t.skip(2) =~= self.chars@.skip(i + 2));
                    assert(value@ =~= before + decode_escape(x, list_escaped_char(x)));
                    i = i + 2;
                } else {
                    value.push('\\');
                    i = i + 1;
                    assert(self.chars@.skip(i as int) =~= seq![]);
                    assert(value@ + first_value(self.chars@.skip(i as int)) =~= first_value(
                        start,
                    ));
                }
            } else if c == ';' {
                self.pos = i + 1;
                assert(t.skip(1) =~= self.chars@.skip(i + 1));
                assert(first_value(t) == Seq::<char>::empty());
                assert(after_first_value(t) == t.skip(1));
                assert(value@ =~= first_value(start));
                return Some(value);
            } else {
                value.push(c);
                assert(t.skip(1) =~= self.chars@.skip(i + 1));
                i = i + 1;
                assert(value@ + first_value(self.chars@.skip(i as int)) =~= first_value(start));
            }
        }
        self.pos = n;
        assert(self.chars@.skip(n as int) =~= seq![]);
        assert(value@ =~= first_value(start));
        Some(value)
    }

    /// All the elements that are left, in order.
    pub fn into_vec(&self) -> (r: Vec<String>)
        requires
            self.wf(),
        ensures
            r.deep_view() == split_values(self.remaining()),
    {
        let ghost all = self.remaining();
        let mut it = Values { chars: self.chars.clone(), pos: self.pos };
        assert(it.chars@ =~= self.chars@);
        let mut r: Vec<String> = Vec::new();
        assert(r.deep_view() + split_values(all) =~= split_values(all));
        loop
            invariant
                it.wf(),
                all == self.remaining(),
                r.deep_view() + split_values(it.remaining()) == split_values(all),
            decreases it.remaining().len(),
        {
            let ghost rem = it.remaining();
            proof {
                lemma_after_first_value_shorter(rem);
            }
            match it.next() {
                None => {
                    assert(split_values(it.remaining()) == Seq::<Seq<char>>::empty());
                    assert(r.deep_view() + split_values(it.remaining()) =~= r.deep_view());
                    return r;
                },
                Some(v) => {
                    let ghost old_r = r.deep_view();
                    r.push(v);
                    assert(r.deep_view() =~= old_r.push(v@));
                    assert(split_values(rem) == seq![first_value(rem)] + split_values(it.remaining()));
                    assert(r.deep_view() + split_values(it.remaining()) =~= old_r + split_values(rem));
                },
            }
        }
    }
}

} // verus!
