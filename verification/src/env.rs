//! The environment variables that a command is started with.

use vstd::prelude::*;
use vstd::slice::slice_to_vec;

use crate::bytes;

verus! {

/// A set of environment variables, each name with one value.
#[derive(Debug)]
pub struct EnvMap {
    pairs: Vec<(Vec<u8>, Vec<u8>)>,
}

/// The contents of a list of name and value pairs.
pub open spec fn entries(pairs: Seq<(Vec<u8>, Vec<u8>)>) -> Seq<(Seq<u8>, Seq<u8>)> {
    pairs.map_values(|p: (Vec<u8>, Vec<u8>)| (p.0@, p.1@))
}

/// The variables that a list of pairs sets. Where a name occurs twice, the later value holds.
pub open spec fn collect(pairs: Seq<(Seq<u8>, Seq<u8>)>) -> Map<Seq<u8>, Seq<u8>>
    decreases pairs.len(),
{
    if pairs.len() == 0 {
        Map::empty()
    } else {
        collect(pairs.drop_last()).insert(pairs.last().0, pairs.last().1)
    }
}

/// No name occurs twice in the list.
pub open spec fn distinct_names(pairs: Seq<(Seq<u8>, Seq<u8>)>) -> bool {
    forall|i: int, j: int| 0 <= i < j < pairs.len() ==> pairs[i].0 != pairs[j].0
}

/// Where names are distinct, putting a new value behind a name sets that one variable.
proof fn lemma_collect_update(pairs: Seq<(Seq<u8>, Seq<u8>)>, i: int, value: Seq<u8>)
    requires
        0 <= i < pairs.len(),
        distinct_names(pairs),
    ensures
        collect(pairs.update(i, (pairs[i].0, value))) == collect(pairs).insert(pairs[i].0, value),
    decreases pairs.len(),
{
    let front = pairs.drop_last();
    let name = pairs[i].0;
    let updated = pairs.update(i, (name, value));
    if i == pairs.len() - 1 {
        assert(updated.drop_last() =~= front);
        assert(collect(updated) =~= collect(pairs).insert(name, value));
    } else {
        assert(updated.drop_last() =~= front.update(i, (name, value)));
        assert(front[i] == pairs[i]);
        lemma_collect_update(front, i, value);
        assert(pairs.last().0 != name);
        assert(collect(updated) =~= collect(pairs).insert(name, value));
    }
}

impl EnvMap {
    #[verifier::type_invariant]
    spec fn well_formed(self) -> bool {
        distinct_names(entries(self.pairs@))
    }

    /// The variables as a map from names to values.
    pub closed spec fn view(&self) -> Map<Seq<u8>, Seq<u8>> {
        collect(entries(self.pairs@))
    }

    /// No variables at all.
    pub fn new() -> (env: EnvMap)
        ensures
            env@ == Map::<Seq<u8>, Seq<u8>>::empty(),
    {
        EnvMap { pairs: Vec::new() }
    }

    /// Sets one variable.
    pub fn insert(self, name: Vec<u8>, value: Vec<u8>) -> (env: EnvMap)
        ensures
            env@ == self@.insert(name@, value@),
    {
        proof {
            use_type_invariant(&self);
        }
        let mut pairs = self.pairs;
        let ghost before = entries(pairs@);
        let mut i: usize = 0;
        while i < pairs.len()
            invariant
                i <= pairs.len(),
                entries(pairs@) == before,
                self@ == collect(before),
                distinct_names(before),
                forall|j: int| 0 <= j < i ==> (#[trigger] before[j]).0 != name@,
            decreases pairs.len() - i,
        {
            proof {
                assert(before[i as int].0 == pairs@[i as int].0@);
            }
            if bytes::same(&pairs[i].0, &name) {
                pairs.set(i, (name, value));
                proof {
                    let changed = (before[i as int].0, value@);
                    assert(entries(pairs@) =~= before.update(i as int, changed));
                    lemma_collect_update(before, i as int, value@);
                }
                return EnvMap { pairs };
            }
            i = i + 1;
        }
        pairs.push((name, value));
        proof {
            assert(entries(pairs@) =~= before.push((name@, value@)));
            assert(entries(pairs@).drop_last() =~= before);
        }
        EnvMap { pairs }
    }

    /// Sets each of the variables in turn, starting with none.
    pub fn from_pairs(pairs: Vec<(Vec<u8>, Vec<u8>)>) -> (env: EnvMap)
        ensures
            env@ == collect(entries(pairs@)),
    {
        let mut env = EnvMap::new();
        let mut i: usize = 0;
        while i < pairs.len()
            invariant
                i <= pairs.len(),
                env@ == collect(entries(pairs@).take(i as int)),
            decreases pairs.len() - i,
        {
            env = env.insert(
                slice_to_vec(pairs[i].0.as_slice()),
                slice_to_vec(pairs[i].1.as_slice()),
            );
            proof {
                assert(entries(pairs@).take(i + 1).drop_last() =~= entries(pairs@).take(i as int));
            }
            i = i + 1;
        }
        proof {
            assert(entries(pairs@).take(i as int) =~= entries(pairs@));
        }
        env
    }

    /// The variables as a list, in no particular order. No name occurs twice.
    pub fn pairs(&self) -> (pairs: &Vec<(Vec<u8>, Vec<u8>)>)
        ensures
            collect(entries(pairs@)) == self@,
            distinct_names(entries(pairs@)),
    {
        proof {
            use_type_invariant(self);
        }
        &self.pairs
    }
}

impl Clone for EnvMap {
    fn clone(&self) -> (env: EnvMap)
        ensures
            env@ == self@,
    {
        proof {
            use_type_invariant(self);
        }
        let mut pairs: Vec<(Vec<u8>, Vec<u8>)> = Vec::new();
        let mut i: usize = 0;
        while i < self.pairs.len()
            invariant
                i <= self.pairs.len(),
                entries(pairs@) == entries(self.pairs@).take(i as int),
            decreases self.pairs.len() - i,
        {
            let ghost before = entries(pairs@);
            pairs.push(
                (
                    slice_to_vec(self.pairs[i].0.as_slice()),
                    slice_to_vec(self.pairs[i].1.as_slice()),
                ),
            );
            proof {
                let copied = (self.pairs@[i as int].0@, self.pairs@[i as int].1@);
                assert(entries(pairs@) =~= before.push(copied));
                assert(entries(self.pairs@).take(i + 1) =~= before.push(copied));
            }
            i = i + 1;
        }
        proof {
            assert(entries(self.pairs@).take(i as int) =~= entries(self.pairs@));
        }
        EnvMap { pairs }
    }
}

} // verus!
