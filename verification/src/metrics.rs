pub mod amap;
pub mod cmap;

use vstd::prelude::*;

use crate::display::i64_chars;
use crate::display::i64_string;
use crate::error::MetricsError;

verus! {

/// The entries of a counter table, each reduced to its name's characters
/// and its count.
pub open spec fn entry_views(s: Seq<(String, i64)>) -> Seq<(Seq<char>, i64)> {
    Seq::new(s.len(), |t: int| (s[t].0@, s[t].1))
}

/// No two entries of the table carry the same name.
pub open spec fn keys_unique(s: Seq<(Seq<char>, i64)>) -> bool {
    forall|p: int, q: int| 0 <= p < q < s.len() ==> (#[trigger] s[p]).0 != (#[trigger] s[q]).0
}

/// Some entry of the table carries the name `k`.
pub open spec fn has_key(s: Seq<(Seq<char>, i64)>, k: Seq<char>) -> bool {
    exists|t: int| 0 <= t < s.len() && (#[trigger] s[t]).0 == k
}

/// The finite map a table of (name, count) entries denotes.
pub open spec fn entries_map(s: Seq<(Seq<char>, i64)>) -> Map<Seq<char>, i64>
    decreases s.len(),
{
    if s.len() == 0 {
        Map::empty()
    } else {
        entries_map(s.drop_last()).insert(s.last().0, s.last().1)
    }
}

/// The counter map with no entries.
pub open spec fn empty_counters() -> Map<Seq<char>, i64> {
    Map::empty()
}

/// The names of a list of strings, each reduced to its characters.
pub open spec fn name_views(s: Seq<String>) -> Seq<Seq<char>> {
    Seq::new(s.len(), |t: int| s[t]@)
}

/// The position of the entry named `k` in a table that carries it.
pub open spec fn key_index(s: Seq<(Seq<char>, i64)>, k: Seq<char>) -> int {
    choose|t: int| 0 <= t < s.len() && (#[trigger] s[t]).0 == k
}

/// The table that registering a list of names builds: one zero-count entry
/// per distinct name, in order of first occurrence.
pub open spec fn register_names(names: Seq<Seq<char>>) -> Seq<(Seq<char>, i64)>
    decreases names.len(),
{
    if names.len() == 0 {
        Seq::empty()
    } else {
        let prior = register_names(names.drop_last());
        if has_key(prior, names.last()) {
            prior
        } else {
            prior.push((names.last(), 0))
        }
    }
}

/// A counter map after one increment of `k`: a missing name starts at
/// zero, so its counter becomes one.
pub open spec fn inc_map(m: Map<Seq<char>, i64>, k: Seq<char>) -> Map<Seq<char>, i64> {
    if m.contains_key(k) {
        m.insert(k, (m[k] + 1) as i64)
    } else {
        m.insert(k, 1i64)
    }
}

/// The display form of a counter table: one `name: count` line per entry,
/// in table order.
pub open spec fn counters_chars(s: Seq<(Seq<char>, i64)>) -> Seq<char>
    decreases s.len(),
{
    if s.len() == 0 {
        Seq::empty()
    } else {
        counters_chars(s.drop_last()) + s.last().0 + seq![':', ' '] + i64_chars(s.last().1 as int)
            + seq!['\n']
    }
}

/// A name is in the denoted map exactly when some entry carries it.
pub proof fn lemma_entries_map_contains(s: Seq<(Seq<char>, i64)>, k: Seq<char>)
    ensures
        entries_map(s).contains_key(k) <==> has_key(s, k),
    decreases s.len(),
{
    if s.len() > 0 {
        let prefix = s.drop_last();
        lemma_entries_map_contains(prefix, k);
        if k == s.last().0 {
            assert((s[s.len() - 1]).0 == k);
        }
        if entries_map(prefix).contains_key(k) {
            let t = choose|t: int| 0 <= t < prefix.len() && (#[trigger] prefix[t]).0 == k;
            assert((s[t]).0 == k);
        }
        if has_key(s, k) && k != s.last().0 {
            let t = choose|t: int| 0 <= t < s.len() && (#[trigger] s[t]).0 == k;
            assert((prefix[t]).0 == k);
        }
    }
}

/// In a table with unique names, the denoted map sends the name of entry
/// `t` to the count of entry `t`.
pub proof fn lemma_entries_map_value(s: Seq<(Seq<char>, i64)>, t: int)
    requires
        keys_unique(s),
        0 <= t < s.len(),
    ensures
        entries_map(s).contains_key(s[t].0),
        entries_map(s)[s[t].0] == s[t].1,
    decreases s.len(),
{
    let prefix = s.drop_last();
    if t < s.len() - 1 {
        assert forall|p: int, q: int| 0 <= p < q < prefix.len() implies (#[trigger] prefix[p]).0
            != (#[trigger] prefix[q]).0 by {
            assert(prefix[p] == s[p] && prefix[q] == s[q]);
        }
        lemma_entries_map_value(prefix, t);
        assert(prefix[t] == s[t]);
        assert(s[t].0 != s.last().0);
    }
}

/// Overwriting the count of entry `t` (keeping its name) denotes the same
/// map as inserting the new count under that name, and keeps names unique.
pub proof fn lemma_entries_map_update(s: Seq<(Seq<char>, i64)>, t: int, v: i64)
    requires
        keys_unique(s),
        0 <= t < s.len(),
    ensures
        entries_map(s.update(t, (s[t].0, v))) == entries_map(s).insert(s[t].0, v),
        keys_unique(s.update(t, (s[t].0, v))),
    decreases s.len(),
{
    let s2 = s.update(t, (s[t].0, v));
    assert forall|p: int, q: int| 0 <= p < q < s2.len() implies (#[trigger] s2[p]).0 != (
    #[trigger] s2[q]).0 by {
        assert(s2[p].0 == s[p].0 && s2[q].0 == s[q].0);
    }
    if t == s.len() - 1 {
        assert(s2.drop_last() =~= s.drop_last());
        assert(s2.last() == (s[t].0, v));
        assert(entries_map(s2) =~= entries_map(s).insert(s[t].0, v));
    } else {
        let prefix = s.drop_last();
        assert forall|p: int, q: int| 0 <= p < q < prefix.len() implies (#[trigger] prefix[p]).0
            != (#[trigger] prefix[q]).0 by {
            assert(prefix[p] == s[p] && prefix[q] == s[q]);
        }
        lemma_entries_map_update(prefix, t, v);
        assert(s2.drop_last() =~= prefix.update(t, (s[t].0, v)));
        assert(prefix[t] == s[t]);
        assert(s[t].0 != s.last().0);
        assert(entries_map(s2) =~= entries_map(s).insert(s[t].0, v));
    }
}

/// Appending an entry with a fresh name denotes inserting it, and keeps
/// names unique.
pub proof fn lemma_entries_map_push(s: Seq<(Seq<char>, i64)>, k: Seq<char>, v: i64)
    requires
        keys_unique(s),
        !has_key(s, k),
    ensures
        entries_map(s.push((k, v))) == entries_map(s).insert(k, v),
        keys_unique(s.push((k, v))),
{
    let s2 = s.push((k, v));
    assert(s2.drop_last() =~= s);
    assert(s2.last() == (k, v));
    assert forall|p: int, q: int| 0 <= p < q < s2.len() implies (#[trigger] s2[p]).0 != (
    #[trigger] s2[q]).0 by {
        if q < s2.len() - 1 {
            assert(s2[p] == s[p] && s2[q] == s[q]);
        } else {
            assert(s2[p] == s[p]);
            assert(!((s[p]).0 == k));
        }
    }
}

/// Appending an entry adds exactly its name to the names the table
/// carries.
pub proof fn lemma_has_key_push(s: Seq<(Seq<char>, i64)>, k: Seq<char>, v: i64)
    ensures
        forall|x: Seq<char>| #[trigger] has_key(s.push((k, v)), x) <==> (has_key(s, x) || x == k),
{
    let s2 = s.push((k, v));
    assert forall|x: Seq<char>| #[trigger] has_key(s2, x) <==> (has_key(s, x) || x == k) by {
        if has_key(s2, x) {
            let t = choose|t: int| 0 <= t < s2.len() && (#[trigger] s2[t]).0 == x;
            if t < s.len() {
                assert(s[t] == s2[t]);
                assert(has_key(s, x));
            } else {
                assert(s2[t] == (k, v));
            }
        }
        if has_key(s, x) {
            let t = choose|t: int| 0 <= t < s.len() && (#[trigger] s[t]).0 == x;
            assert(s2[t] == s[t]);
            assert(has_key(s2, x));
        }
        if x == k {
            assert(s2[s.len() as int] == (k, v));
            assert(has_key(s2, x));
        }
    }
}

/// Renders a counter table as one `name: count` line per entry, in table
/// order.
pub(crate) fn render_counters(data: &Vec<(String, i64)>) -> (s: String)
    ensures
        s@ == counters_chars(entry_views(data@)),
{
    let ghost entries = entry_views(data@);
    let mut s = String::new();
    let mut t: usize = 0;
    while t < data.len()
        invariant
            t <= data@.len(),
            entries == entry_views(data@),
            entries.len() == data@.len(),
            s@ == counters_chars(entries.take(t as int)),
        decreases data@.len() - t,
    {
        s.append(data[t].0.as_str());
        s.append(": ");
        let num = i64_string(data[t].1);
        s.append(num.as_str());
        s.append("\n");
        proof {
            reveal_strlit(": ");
            reveal_strlit("\n");
            assert(entries.take(t as int + 1).drop_last() =~= entries.take(t as int));
            assert(entries.take(t as int + 1).last() == entries[t as int]);
            assert(s@ =~= counters_chars(entries.take(t as int + 1)));
        }
        t = t + 1;
    }
    proof {
        assert(entries.take(data@.len() as int) =~= entries);
    }
    s
}

/// Finds the position of the entry named `key`, if the table has one.
pub(crate) fn find_entry(data: &Vec<(String, i64)>, key: &String) -> (r: Option<usize>)
    ensures
        r matches Some(t) ==> t < data@.len() && data@[t as int].0@ == key@,
        r is None ==> forall|t: int| 0 <= t < data@.len() ==> (#[trigger] data@[t]).0@ != key@,
{
    let mut t: usize = 0;
    while t < data.len()
        invariant
            t <= data@.len(),
            forall|p: int| 0 <= p < t ==> (#[trigger] data@[p]).0@ != key@,
        decreases data@.len() - t,
    {
        if data[t].0 == *key {
            return Some(t);
        }
        t = t + 1;
    }
    None
}

/// An in-memory table of named counters: each distinct name holds one
/// signed count, starting at one on first increment.
#[derive(Debug, Clone)]
pub struct Metrics {
    data: Vec<(String, i64)>,
}

impl View for Metrics {
    type V = Map<Seq<char>, i64>;

    open spec fn view(&self) -> Map<Seq<char>, i64> {
        entries_map(self.spec_entries())
    }
}

impl Metrics {
    /// The table's entries in insertion order, reduced to plain values.
    pub closed spec fn spec_entries(&self) -> Seq<(Seq<char>, i64)> {
        entry_views(self.data@)
    }

    /// Well-formedness: no name occurs twice in the table.
    pub open spec fn wf(&self) -> bool {
        keys_unique(self.spec_entries())
    }

    /// Creates an empty counter table.
    pub fn new() -> (m: Metrics)
        ensures
            m.wf(),
            m@ == empty_counters(),
            m.spec_entries() == Seq::<(Seq<char>, i64)>::empty(),
    {
        let m = Metrics { data: Vec::new() };
        proof {
            assert(m.spec_entries() =~= Seq::<(Seq<char>, i64)>::empty());
        }
        m
    }

    /// Increments the counter under `key` by one, starting it at one if
    /// the name is new to the table.
    pub fn inc(&mut self, key: String) -> (r: Result<(), MetricsError>)
        requires
            old(self).wf(),
            old(self)@.contains_key(key@) ==> old(self)@[key@] < i64::MAX,
        ensures
            final(self).wf(),
            r is Ok,
            final(self)@ == inc_map(old(self)@, key@),
            !old(self)@.contains_key(key@) ==> final(self).spec_entries() == old(
                self,
            ).spec_entries().push((key@, 1i64)),
            old(self)@.contains_key(key@) ==> final(self).spec_entries() == old(
                self,
            ).spec_entries().update(
                key_index(old(self).spec_entries(), key@),
                (key@, (old(self)@[key@] + 1) as i64),
            ),
    {
        proof {
            lemma_entries_map_contains(old(self).spec_entries(), key@);
        }
        match find_entry(&self.data, &key) {
            Some(t) => {
                proof {
                    lemma_entries_map_value(old(self).spec_entries(), t as int);
                }
                let cur = self.data[t].1;
                let name = self.data[t].0.clone();
                self.data[t] = (name, cur + 1);
                proof {
                    let s = old(self).spec_entries();
                    assert(self.spec_entries() =~= s.update(t as int, (s[t as int].0, (cur + 1) as i64)));
                    lemma_entries_map_update(s, t as int, (cur + 1) as i64);
                    let ti = key_index(s, key@);
                    assert(0 <= ti < s.len() && (s[ti]).0 == key@);
                    if ti != t {
                        if ti < t {
                            assert((s[ti]).0 != (s[t as int]).0);
                        } else {
                            assert((s[t as int]).0 != (s[ti]).0);
                        }
                    }
                }
                Ok(())
            },
            None => {
                self.data.push((key, 1));
                proof {
                    let s = old(self).spec_entries();
                    assert(self.spec_entries() =~= s.push((key@, 1i64)));
                    lemma_entries_map_push(s, key@, 1i64);
                }
                Ok(())
            },
        }
    }

    /// Returns a copy of the whole table: every entry with its current
    /// count, in table order.
    pub fn snapshot(&self) -> (r: Result<Vec<(String, i64)>, MetricsError>)
        ensures
            r matches Ok(v) && entry_views(v@) == self.spec_entries(),
    {
        let mut out: Vec<(String, i64)> = Vec::new();
        let mut t: usize = 0;
        while t < self.data.len()
            invariant
                t <= self.data@.len(),
                out@.len() == t,
                forall|p: int| 0 <= p < t ==> (#[trigger] out@[p]).0@ == self.data@[p].0@
                    && out@[p].1 == self.data@[p].1,
            decreases self.data@.len() - t,
        {
            let name = self.data[t].0.clone();
            let v = self.data[t].1;
            out.push((name, v));
            t = t + 1;
        }
        proof {
            assert(entry_views(out@) =~= self.spec_entries());
        }
        Ok(out)
    }

    /// Renders the table as one `name: count` line per entry, in table
    /// order.
    pub fn display_string(&self) -> (s: String)
        ensures
            s@ == counters_chars(self.spec_entries()),
    {
        render_counters(&self.data)
    }
}

impl Default for Metrics {
    /// An empty counter table.
    fn default() -> (m: Metrics)
        ensures
            m.wf(),
            m@ == empty_counters(),
    {
        Metrics::new()
    }
}

} // verus!
