use vstd::prelude::*;

use crate::strutil::str_eq;

verus! {

/// The map that a sequence of (name, count) records denotes: later
/// records overwrite earlier ones.
pub open spec fn assoc_map(s: Seq<(String, usize)>) -> Map<Seq<char>, usize>
    decreases s.len(),
{
    if s.len() == 0 {
        Map::empty()
    } else {
        assoc_map(s.drop_last()).insert(s.last().0@, s.last().1)
    }
}

/// A per-name counter record, viewed as a map from names to counts.
pub struct CountMap {
    entries: Vec<(String, usize)>,
}

impl View for CountMap {
    type V = Map<Seq<char>, usize>;

    closed spec fn view(&self) -> Map<Seq<char>, usize> {
        assoc_map(self.entries@)
    }
}

impl CountMap {
    /// An empty counter record.
    pub fn new() -> (r: CountMap)
        ensures
            r@ == Map::<Seq<char>, usize>::empty(),
    {
        CountMap { entries: Vec::new() }
    }

    /// Sets the count recorded under `name`, overwriting any earlier one.
    pub fn set(&mut self, name: &str, v: usize)
        ensures
            final(self)@ == old(self)@.insert(name@, v),
    {
        self.entries.push((name.to_owned(), v));
        proof {
            assert(self.entries@.drop_last() =~= old(self).entries@);
        }
    }

    /// The count recorded under `name`, if any.
    pub fn get(&self, name: &str) -> (r: Option<usize>)
        ensures
            match r {
                Some(v) => self@.contains_key(name@) && self@[name@] == v,
                None => !self@.contains_key(name@),
            },
    {
        let mut i: usize = self.entries.len();
        proof {
            assert(self.entries@.take(i as int) =~= self.entries@);
        }
        while i > 0
            invariant
                i <= self.entries@.len(),
                !assoc_map(self.entries@.take(i as int)).contains_key(name@) ==> !assoc_map(
                    self.entries@,
                ).contains_key(name@),
                assoc_map(self.entries@.take(i as int)).contains_key(name@) ==> assoc_map(
                    self.entries@,
                ).contains_key(name@) && assoc_map(self.entries@)[name@] == assoc_map(
                    self.entries@.take(i as int),
                )[name@],
            decreases i,
        {
            i -= 1;
            if str_eq(self.entries[i].0.as_str(), name) {
                proof {
                    assert(self.entries@.take(i + 1 as int).drop_last() =~= self.entries@.take(
                        i as int,
                    ));
                    assert(self.entries@.take(i + 1 as int).last() == self.entries@[i as int]);
                }
                return Some(self.entries[i].1);
            }
            proof {
                assert(self.entries@.take(i + 1 as int).drop_last() =~= self.entries@.take(i as int));
                assert(self.entries@.take(i + 1 as int).last() == self.entries@[i as int]);
            }
        }
        proof {
            assert(self.entries@.take(0int) =~= Seq::<(String, usize)>::empty());
        }
        None
    }
}

/// Counters describing one run of the tree algorithm.
pub struct TreeAlgoStats {
    /// How many child nodes the preparation walked.
    pub num_nodes: usize,
    /// Usage-site counts per node name.
    pub num_usages_per_node: CountMap,
    /// Final completion counts per node name.
    pub num_comps_per_node: CountMap,
}

impl TreeAlgoStats {
    /// Fresh counters, all zero and empty.
    pub fn new() -> (r: TreeAlgoStats)
        ensures
            r.num_nodes == 0,
            r.num_usages_per_node@ == Map::<Seq<char>, usize>::empty(),
            r.num_comps_per_node@ == Map::<Seq<char>, usize>::empty(),
    {
        TreeAlgoStats {
            num_nodes: 0,
            num_usages_per_node: CountMap::new(),
            num_comps_per_node: CountMap::new(),
        }
    }
}

/// Counts one more node, when counters are being kept; the count
/// saturates rather than wrap.
pub fn increase_node_count(stats: Option<TreeAlgoStats>) -> (r: Option<TreeAlgoStats>)
    ensures
        match stats {
            Some(st) => r matches Some(rs) && rs.num_nodes == (
            if st.num_nodes < usize::MAX {
                st.num_nodes + 1
            } else {
                usize::MAX as int
            }) && rs.num_usages_per_node == st.num_usages_per_node && rs.num_comps_per_node
                == st.num_comps_per_node,
            None => r is None,
        },
{
    match stats {
        Some(mut st) => {
            if st.num_nodes < usize::MAX {
                st.num_nodes = st.num_nodes + 1;
            }
            Some(st)
        },
        None => None,
    }
}

/// Records the usage count observed for one node, when counters are kept.
pub fn insert_usages(stats: Option<TreeAlgoStats>, name: &str, usages: usize) -> (r: Option<
    TreeAlgoStats,
>)
    ensures
        match stats {
            Some(st) => r matches Some(rs) && rs.num_nodes == st.num_nodes
                && rs.num_usages_per_node@ == st.num_usages_per_node@.insert(name@, usages)
                && rs.num_comps_per_node == st.num_comps_per_node,
            None => r is None,
        },
{
    match stats {
        Some(mut st) => {
            st.num_usages_per_node.set(name, usages);
            Some(st)
        },
        None => None,
    }
}

/// Records the completion count produced for one node, when counters are kept.
pub fn insert_num_comps(stats: Option<TreeAlgoStats>, name: &str, num_comps: usize) -> (r: Option<
    TreeAlgoStats,
>)
    ensures
        match stats {
            Some(st) => r matches Some(rs) && rs.num_nodes == st.num_nodes
                && rs.num_usages_per_node == st.num_usages_per_node && rs.num_comps_per_node@
                == st.num_comps_per_node@.insert(name@, num_comps),
            None => r is None,
        },
{
    match stats {
        Some(mut st) => {
            st.num_comps_per_node.set(name, num_comps);
            Some(st)
        },
        None => None,
    }
}

} // verus!
