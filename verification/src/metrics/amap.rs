use vstd::prelude::*;

use crate::error::MetricsError;
use crate::metrics::counters_chars;
use crate::metrics::entry_views;
use crate::metrics::find_entry;
use crate::metrics::has_key;
use crate::metrics::keys_unique;
use crate::metrics::lemma_entries_map_contains;
use crate::metrics::lemma_entries_map_update;
use crate::metrics::lemma_entries_map_value;
use crate::metrics::lemma_has_key_push;
use crate::metrics::name_views;
use crate::metrics::register_names;
use crate::metrics::render_counters;

verus! {

/// A counter table over a fixed set of names registered at construction:
/// incrementing an unregistered name is an error, and counts wrap around
/// on overflow.
#[derive(Debug, Clone)]
pub struct AmapMetrics {
    data: Vec<(String, i64)>,
}

impl View for AmapMetrics {
    type V = Map<Seq<char>, i64>;

    open spec fn view(&self) -> Map<Seq<char>, i64> {
        crate::metrics::entries_map(self.spec_entries())
    }
}

impl AmapMetrics {
    /// The table's entries in registration order, reduced to plain values.
    pub closed spec fn spec_entries(&self) -> Seq<(Seq<char>, i64)> {
        entry_views(self.data@)
    }

    /// Well-formedness: no name occurs twice in the table.
    pub open spec fn wf(&self) -> bool {
        keys_unique(self.spec_entries())
    }

    /// Registers the given names, each with a zero count. A name listed
    /// twice is registered once.
    pub fn new(metric_names: &Vec<String>) -> (m: AmapMetrics)
        ensures
            m.wf(),
            m.spec_entries() == register_names(name_views(metric_names@)),
            forall|k: Seq<char>| #[trigger] m@.contains_key(k) <==> (exists|t: int|
                0 <= t < metric_names@.len() && #[trigger] metric_names@[t]@ == k),
            forall|k: Seq<char>| #[trigger] m@.contains_key(k) ==> m@[k] == 0,
    {
        let ghost nv = name_views(metric_names@);
        let mut data: Vec<(String, i64)> = Vec::new();
        let mut t: usize = 0;
        proof {
            assert(entry_views(data@) =~= Seq::<(Seq<char>, i64)>::empty());
            assert(nv.take(0) =~= Seq::<Seq<char>>::empty());
        }
        while t < metric_names.len()
            invariant
                t <= metric_names@.len(),
                nv == name_views(metric_names@),
                keys_unique(entry_views(data@)),
                entry_views(data@) == register_names(nv.take(t as int)),
                forall|k: Seq<char>| #[trigger] has_key(entry_views(data@), k) <==> (exists|p: int|
                    0 <= p < t && #[trigger] metric_names@[p]@ == k),
                forall|p: int| 0 <= p < data@.len() ==> (#[trigger] entry_views(data@)[p]).1 == 0,
            decreases metric_names@.len() - t,
        {
            let name = metric_names[t].clone();
            let ghost s1 = entry_views(data@);
            proof {
                assert(nv.take(t as int + 1).drop_last() =~= nv.take(t as int));
                assert(nv.take(t as int + 1).last() == nv[t as int]);
                assert(nv[t as int] == name@);
            }
            match find_entry(&data, &name) {
                Some(p) => {
                    proof {
                        assert(metric_names@[t as int]@ == name@);
                        assert((s1[p as int]).0 == name@);
                        assert(has_key(s1, name@));
                    }
                },
                None => {
                    data.push((name, 0));
                    proof {
                        assert(!has_key(s1, nv[t as int]));
                        assert(entry_views(data@) =~= s1.push((metric_names@[t as int]@, 0i64)));
                        lemma_has_key_push(s1, metric_names@[t as int]@, 0i64);
                        assert forall|p: int, q: int| 0 <= p < q < entry_views(data@).len() implies (
                        #[trigger] entry_views(data@)[p]).0 != (#[trigger] entry_views(
                            data@,
                        )[q]).0 by {
                            if q == entry_views(data@).len() - 1 {
                                assert(!has_key(s1, metric_names@[t as int]@));
                                assert(s1[p] == entry_views(data@)[p]);
                            }
                        }
                    }
                },
            }
            t = t + 1;
        }
        let m = AmapMetrics { data };
        proof {
            assert(nv.take(metric_names@.len() as int) =~= nv);
            assert forall|k: Seq<char>| #[trigger] m@.contains_key(k) <==> (exists|p: int|
                0 <= p < metric_names@.len() && #[trigger] metric_names@[p]@ == k) by {
                lemma_entries_map_contains(m.spec_entries(), k);
            }
            assert forall|k: Seq<char>| #[trigger] m@.contains_key(k) implies m@[k] == 0 by {
                lemma_entries_map_contains(m.spec_entries(), k);
                let p = choose|p: int|
                    0 <= p < m.spec_entries().len() && (#[trigger] m.spec_entries()[p]).0 == k;
                lemma_entries_map_value(m.spec_entries(), p);
            }
        }
        m
    }

    /// Increments the counter under `key` by one, wrapping around on
    /// overflow; fails with `KeyNotFound` exactly when the name was not
    /// registered, leaving the table unchanged.
    pub fn inc(&mut self, key: &String) -> (r: Result<(), MetricsError>)
        requires
            old(self).wf(),
        ensures
            final(self).wf(),
            old(self)@.contains_key(key@) ==> (r is Ok && final(self)@ == old(self)@.insert(
                key@,
                vstd::wrapping::i64_specs::wrapping_add(old(self)@[key@], 1),
            ) && final(self).spec_entries() == old(self).spec_entries().update(
                crate::metrics::key_index(old(self).spec_entries(), key@),
                (key@, vstd::wrapping::i64_specs::wrapping_add(old(self)@[key@], 1)),
            )),
            !old(self)@.contains_key(key@) ==> (r matches Err(e) && e == MetricsError::KeyNotFound
                && *final(self) == *old(self)),
    {
        proof {
            lemma_entries_map_contains(old(self).spec_entries(), key@);
        }
        match find_entry(&self.data, key) {
            Some(t) => {
                proof {
                    lemma_entries_map_value(old(self).spec_entries(), t as int);
                }
                let cur = self.data[t].1;
                let name = self.data[t].0.clone();
                let next = cur.wrapping_add(1);
                self.data[t] = (name, next);
                proof {
                    let s = old(self).spec_entries();
                    assert(self.spec_entries() =~= s.update(t as int, (s[t as int].0, next)));
                    lemma_entries_map_update(s, t as int, next);
                    let ti = crate::metrics::key_index(s, key@);
                    assert(0 <= ti < s.len() && (s[ti]).0 == key@);
                    if ti != t {
                        if ti < t {
                            assert((s[ti]).0 != (s[t as int]).0);
                        } else {
                            assert((s[t as int]).0 != (s[ti]).0);
                        }
                    }
                }
                Ok(())
            },
            None => Err(MetricsError::KeyNotFound),
        }
    }

    /// Renders the table as one `name: count` line per entry, in
    /// registration order.
    pub fn display_string(&self) -> (s: String)
        ensures
            s@ == counters_chars(self.spec_entries()),
    {
        render_counters(&self.data)
    }
}

} // verus!
