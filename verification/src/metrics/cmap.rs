use vstd::prelude::*;

use crate::error::MetricsError;
use crate::metrics::counters_chars;
use crate::metrics::entries_map;
use crate::metrics::entry_views;
use crate::metrics::inc_map;
use crate::metrics::keys_unique;
use crate::metrics::render_counters;

verus! {

#[verifier::external_type_specification]
#[verifier::external_body]
#[verifier::reject_recursive_types(K)]
#[verifier::reject_recursive_types(V)]
#[verifier::reject_recursive_types(S)]
pub struct ExDashMap<K, V, S>(dashmap::DashMap<K, V, S>);

/// What a concurrent counter map holds: a finite map from name to count.
pub uninterp spec fn dash_contents(m: dashmap::DashMap<String, i64>) -> Map<Seq<char>, i64>;

/// Relies on dashmap::DashMap::get: returns the value stored under the
/// key, if the map holds one.
#[verifier::external_body]
fn dash_get(m: &dashmap::DashMap<String, i64>, key: &String) -> (r: Option<i64>)
    ensures
        r == if dash_contents(*m).contains_key(key@) {
            Some(dash_contents(*m)[key@])
        } else {
            None::<i64>
        },
{
    m.get(key).map(|entry| *entry.value())
}

/// Relies on dashmap::DashMap::insert: stores the value under the key and
/// returns the value previously stored there, if any.
#[verifier::external_body]
fn dash_insert(m: &mut dashmap::DashMap<String, i64>, key: String, value: i64) -> (r: Option<i64>)
    ensures
        dash_contents(*final(m)) == dash_contents(*old(m)).insert(key@, value),
        r == if dash_contents(*old(m)).contains_key(key@) {
            Some(dash_contents(*old(m))[key@])
        } else {
            None::<i64>
        },
{
    m.insert(key, value)
}

/// Relies on dashmap::DashMap::iter: yields every entry of the map exactly
/// once, in an unspecified order.
#[verifier::external_body]
fn dash_entries(m: &dashmap::DashMap<String, i64>) -> (r: Vec<(String, i64)>)
    ensures
        keys_unique(entry_views(r@)),
        entries_map(entry_views(r@)) == dash_contents(*m),
{
    m.iter().map(|entry| (entry.key().clone(), *entry.value())).collect()
}

/// A counter table backed by a concurrent hash map: any name may be
/// incremented, starting at one on first increment.
pub struct CmapMetrics {
    data: dashmap::DashMap<String, i64>,
}

impl View for CmapMetrics {
    type V = Map<Seq<char>, i64>;

    closed spec fn view(&self) -> Map<Seq<char>, i64> {
        dash_contents(self.data)
    }
}

impl CmapMetrics {
    /// Creates an empty counter table. Relies on dashmap::DashMap::new:
    /// a freshly created map holds nothing.
    #[verifier::external_body]
    pub fn new() -> (m: CmapMetrics)
        ensures
            m@ == crate::metrics::empty_counters(),
    {
        CmapMetrics { data: dashmap::DashMap::new() }
    }

    /// Increments the counter under `key` by one, starting it at one if
    /// the map does not hold the name yet.
    pub fn inc(&mut self, key: String) -> (r: Result<(), MetricsError>)
        requires
            old(self)@.contains_key(key@) ==> old(self)@[key@] < i64::MAX,
        ensures
            r is Ok,
            final(self)@ == inc_map(old(self)@, key@),
    {
        match dash_get(&self.data, &key) {
            Some(cur) => {
                dash_insert(&mut self.data, key, cur + 1);
            },
            None => {
                dash_insert(&mut self.data, key, 1);
            },
        }
        Ok(())
    }

    /// The current count under `key`, if the map holds the name.
    pub fn get(&self, key: &String) -> (r: Option<i64>)
        ensures
            r == if self@.contains_key(key@) {
                Some(self@[key@])
            } else {
                None::<i64>
            },
    {
        dash_get(&self.data, key)
    }

    /// Renders the table as one `name: count` line per entry, in whatever
    /// order the backing map yields them.
    pub fn display_string(&self) -> (s: String)
        ensures
            exists|e: Seq<(Seq<char>, i64)>|
                keys_unique(e) && entries_map(e) == self@ && s@ == #[trigger] counters_chars(e),
    {
        let entries = dash_entries(&self.data);
        let s = render_counters(&entries);
        proof {
            assert(keys_unique(entry_views(entries@)) && entries_map(entry_views(entries@))
                == self@ && s@ == counters_chars(entry_views(entries@)));
        }
        s
    }
}

impl Default for CmapMetrics {
    /// An empty counter table.
    fn default() -> (m: CmapMetrics)
        ensures
            m@ == crate::metrics::empty_counters(),
    {
        CmapMetrics::new()
    }
}

} // verus!
