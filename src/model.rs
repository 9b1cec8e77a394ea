//! The in-memory form of a parsed file: groups of raw key/value pairs.
use vstd::prelude::*;
use vstd::string::StringExecFns;
use crate::entries::Entry;
use crate::text::{ascii_lower, same_text, to_ascii_lower};

verus! {

/// The name of the main group of a desktop entry.
pub const DESKTOP_ENTRY_NAME: &'static str = "Desktop Entry";

/// Raw key/value pairs, in the order their keys first appeared.
pub type RawPairs = Seq<(Seq<char>, Seq<char>)>;

/// The pairs of a vector of strings, as character sequences.
pub open spec fn pairs_view(v: Vec<(String, String)>) -> RawPairs {
    v@.map_values(|p: (String, String)| (p.0@, p.1@))
}

/// `m` with `k` set to `v`: an existing key keeps its place and takes the
/// new value; a new key goes at the end.
pub open spec fn insert_pair(m: RawPairs, k: Seq<char>, v: Seq<char>) -> RawPairs
    decreases m.len(),
{
    if m.len() == 0 {
        seq![(k, v)]
    } else if m[0].0 == k {
        seq![(k, v)] + m.skip(1)
    } else {
        seq![m[0]] + insert_pair(m.skip(1), k, v)
    }
}

/// The pairs that setting each of `ps` in turn leaves, the last write of a
/// key winning.
pub open spec fn insert_all(ps: RawPairs) -> RawPairs
    decreases ps.len(),
{
    if ps.len() == 0 {
        seq![]
    } else {
        let last = ps.last();
        insert_pair(insert_all(ps.drop_last()), last.0, last.1)
    }
}

/// The value stored under `k`, if any.
pub open spec fn lookup(m: RawPairs, k: Seq<char>) -> Option<Seq<char>>
    decreases m.len(),
{
    if m.len() == 0 {
        None
    } else if m[0].0 == k {
        Some(m[0].1)
    } else {
        lookup(m.skip(1), k)
    }
}

/// Setting a key at an index where it already stands replaces the value there.
proof fn lemma_insert_at(m: RawPairs, k: Seq<char>, v: Seq<char>, j: int)
    requires
        0 <= j < m.len(),
        m[j].0 == k,
        forall|i: int| 0 <= i < j ==> m[i].0 != k,
    ensures
        insert_pair(m, k, v) == m.update(j, (k, v)),
    decreases m.len(),
{
    if j == 0 {
        assert(seq![(k, v)] + m.skip(1) =~= m.update(0, (k, v)));
    } else {
        lemma_insert_at(m.skip(1), k, v, j - 1);
        assert(seq![m[0]] + m.skip(1).update(j - 1, (k, v)) =~= m.update(j, (k, v)));
    }
}

/// Setting a key that is absent appends it.
proof fn lemma_insert_new(m: RawPairs, k: Seq<char>, v: Seq<char>)
    requires
        forall|i: int| 0 <= i < m.len() ==> m[i].0 != k,
    ensures
        insert_pair(m, k, v) == m.push((k, v)),
    decreases m.len(),
{
    if m.len() > 0 {
        lemma_insert_new(m.skip(1), k, v);
        assert(seq![m[0]] + m.skip(1).push((k, v)) =~= m.push((k, v)));
    }
}

/// Set `k` to `v` in a vector of pairs, as `insert_pair` says.
pub fn set_pair(m: &mut Vec<(String, String)>, k: String, v: String)
    ensures
        pairs_view(*final(m)) == insert_pair(pairs_view(*old(m)), k@, v@),
{
    let ghost before = pairs_view(*m);
    let mut j: usize = 0;
    while j < m.len()
        invariant
            pairs_view(*m) == before,
            before == pairs_view(*old(m)),
            m@.len() == before.len(),
            j <= m@.len(),
            forall|i: int| 0 <= i < j ==> before[i].0 != k@,
        decreases m@.len() - j,
    {
        if same_text(m[j].0.as_str(), k.as_str()) {
            proof {
                lemma_insert_at(before, k@, v@, j as int);
            }
            m.set(j, (k, v));
            assert(pairs_view(*m) =~= before.update(j as int, (k@, v@)));
            return;
        }
        j = j + 1;
    }
    proof {
        lemma_insert_new(before, k@, v@);
    }
    m.push((k, v));
    assert(pairs_view(*m) =~= before.push((k@, v@)));
}

/// What a group is: its name and its raw pairs.
pub struct GroupView {
    pub name: Seq<char>,
    pub entries: RawPairs,
}

/// A named group of raw key/value pairs.
#[derive(Debug, PartialEq, Clone)]
pub struct Group {
    name: String,
    values: Vec<(String, String)>,
}

impl View for Group {
    type V = GroupView;

    closed spec fn view(&self) -> GroupView {
        GroupView { name: self.name@, entries: pairs_view(self.values) }
    }
}

/// A string option as a character-sequence option.
pub open spec fn opt_text(o: Option<&str>) -> Option<Seq<char>> {
    match o {
        Some(s) => Some(s@),
        None => None,
    }
}

/// What a typed lookup owes: nothing when the key is absent, else the
/// field's decoding of the raw value.
pub open spec fn field_result<T: Entry>(raw: Option<Seq<char>>, r: Option<T>) -> bool {
    match raw {
        None => r is None,
        Some(v) => T::decodes(v, r),
    }
}

/// The key under which the localized form of a field is stored.
pub open spec fn localized_key(key: Seq<char>, locale: Seq<char>) -> Seq<char> {
    key + "["@ + locale + "]"@
}

impl Group {
    /// A group with the given name, holding the pairs set in order (a later
    /// pair with the same key replaces an earlier one).
    pub fn new(name: String, values: Vec<(String, String)>) -> (r: Group)
        ensures
            r@.name == name@,
            r@.entries == insert_all(pairs_view(values)),
    {
        let mut m: Vec<(String, String)> = Vec::new();
        let mut i: usize = 0;
        while i < values.len()
            invariant
                i <= values@.len(),
                pairs_view(m) == insert_all(pairs_view(values).take(i as int)),
            decreases values@.len() - i,
        {
            let k = values[i].0.clone();
            let v = values[i].1.clone();
            proof {
                let t = pairs_view(values).take(i + 1);
                assert(t.drop_last() =~= pairs_view(values).take(i as int));
            }
            set_pair(&mut m, k, v);
            i = i + 1;
        }
        assert(pairs_view(values).take(values@.len() as int) =~= pairs_view(values));
        Group { name, values: m }
    }

    pub fn name(&self) -> (r: &str)
        ensures
            r@ == self@.name,
    {
        self.name.as_str()
    }

    pub fn values(&self) -> (r: &Vec<(String, String)>)
        ensures
            pairs_view(*r) == self@.entries,
    {
        &self.values
    }

    /// The typed value of field `T`, if its key is present and decodes.
    pub fn get<T: Entry>(&self) -> (r: Option<T>)
        ensures
            field_result(lookup(self@.entries, ascii_lower(T::key())), r),
    {
        match self.get_raw(T::name()) {
            Some(v) => T::deserialize(v),
            None => None,
        }
    }

    /// The typed value of field `T` for one locale, looked up under
    /// `Key[locale]` with no fallback to more general locales.
    pub fn get_localized<T: Entry>(&self, locale: &str) -> (r: Option<T>)
        ensures
            field_result(lookup(self@.entries, ascii_lower(localized_key(T::key(), locale@))), r),
    {
        let mut key = String::from_str(T::name());
        key.append("[");
        key.append(locale);
        key.append("]");
        match self.get_raw(key.as_str()) {
            Some(v) => T::deserialize(v),
            None => None,
        }
    }

    /// The raw value stored under `name`; keys match without regard to
    /// ASCII case.
    pub fn get_raw(&self, name: &str) -> (r: Option<&str>)
        ensures
            opt_text(r) == lookup(self@.entries, ascii_lower(name@)),
    {
        let key = to_ascii_lower(name);
        let ghost m = self@.entries;
        let mut j: usize = 0;
        assert(m.skip(0) =~= m);
        while j < self.values.len()
            invariant
                m == pairs_view(self.values),
                m == self@.entries,
                key@ == ascii_lower(name@),
                j <= self.values@.len(),
                lookup(m, key@) == lookup(m.skip(j as int), key@),
            decreases self.values@.len() - j,
        {
            let ghost t = m.skip(j as int);
            assert(t.skip(1) =~= m.skip(j + 1));
            assert(t[0] == (self.values@[j as int].0@, self.values@[j as int].1@));
            if same_text(self.values[j].0.as_str(), key.as_str()) {
                return Some(self.values[j].1.as_str());
            }
            j = j + 1;
        }
        None
    }
}

/// The first group in `gs` with the given name.
pub open spec fn first_group(gs: Seq<GroupView>, name: Seq<char>) -> Option<GroupView>
    decreases gs.len(),
{
    if gs.len() == 0 {
        None
    } else if gs[0].name == name {
        Some(gs[0])
    } else {
        first_group(gs.skip(1), name)
    }
}

/// A group option as a view option.
pub open spec fn opt_group(o: Option<&Group>) -> Option<GroupView> {
    match o {
        Some(g) => Some(g@),
        None => None,
    }
}

/// A parsed file: its groups in file order.
#[derive(Debug, PartialEq, Clone)]
pub struct DesktopEntry(Vec<Group>);

impl View for DesktopEntry {
    type V = Seq<GroupView>;

    closed spec fn view(&self) -> Seq<GroupView> {
        self.0@.map_values(|g: Group| g@)
    }
}

impl DesktopEntry {
    pub fn new(groups: Vec<Group>) -> (r: DesktopEntry)
        ensures
            r@ == groups@.map_values(|g: Group| g@),
    {
        DesktopEntry(groups)
    }

    /// Get a group in the entry by name
    pub fn group(&self, name: &str) -> (r: Option<&Group>)
        ensures
            opt_group(r) == first_group(self@, name@),
    {
        let ghost gs = self@;
        let mut j: usize = 0;
        assert(gs.skip(0) =~= gs);
        while j < self.0.len()
            invariant
                gs == self@,
                j <= self.0@.len(),
                first_group(gs, name@) == first_group(gs.skip(j as int), name@),
            decreases self.0@.len() - j,
        {
            let ghost t = gs.skip(j as int);
            assert(t.skip(1) =~= gs.skip(j + 1));
            assert(t[0] == self.0@[j as int]@);
            if same_text(self.0[j].name.as_str(), name) {
                return Some(&self.0[j]);
            }
            j = j + 1;
        }
        None
    }

    /// All groups in the entry, in file order
    pub fn groups(&self) -> (r: &Vec<Group>)
        ensures
            r@.map_values(|g: Group| g@) == self@,
    {
        &self.0
    }

    /// Get the "Desktop Entry" group
    pub fn main_group(&self) -> (r: Option<&Group>)
        ensures
            opt_group(r) == first_group(self@, DESKTOP_ENTRY_NAME@),
    {
        self.group(DESKTOP_ENTRY_NAME)
    }

    /// Get the group of the action with the given name
    pub fn action_group(&self, action_name: &str) -> (r: Option<&Group>)
        ensures
            opt_group(r) == first_group(self@, "Desktop Action "@ + action_name@),
    {
        let mut name = String::from_str("Desktop Action ");
        name.append(action_name);
        self.group(name.as_str())
    }

    /// Shortcut for `self.main_group()` followed by `Group::get`
    pub fn get<T: Entry>(&self) -> (r: Option<T>)
        ensures
            match first_group(self@, DESKTOP_ENTRY_NAME@) {
                None => r is None,
                Some(g) => field_result(lookup(g.entries, ascii_lower(T::key())), r),
            },
    {
        match self.main_group() {
            Some(g) => g.get::<T>(),
            None => None,
        }
    }
}

} // verus!
