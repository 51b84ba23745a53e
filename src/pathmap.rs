//! A map between virtual paths, kept as the list of its insertions.
use vstd::prelude::*;

verus! {

/// One recorded association `from -> to`.
#[derive(Clone, Debug, PartialEq)]
pub struct PathPair {
    pub from: String,
    pub to: String,
}

pub open spec fn pair_view(p: PathPair) -> (Seq<char>, Seq<char>) {
    (p.from@, p.to@)
}

/// The map that inserting the pairs in order builds: a later pair overrides
/// an earlier one with the same key.
pub open spec fn pairs_map(s: Seq<(Seq<char>, Seq<char>)>) -> Map<Seq<char>, Seq<char>>
    decreases s.len(),
{
    if s.len() == 0 {
        Map::empty()
    } else {
        pairs_map(s.drop_last()).insert(s.last().0, s.last().1)
    }
}

/// A map from virtual path to virtual path.
pub struct PathMap {
    pairs: Vec<PathPair>,
}

impl View for PathMap {
    type V = Map<Seq<char>, Seq<char>>;

    closed spec fn view(&self) -> Map<Seq<char>, Seq<char>> {
        pairs_map(self.pairs@.map_values(|p: PathPair| pair_view(p)))
    }
}

impl PathMap {
    pub fn new() -> (r: PathMap)
        ensures
            r@ == Map::<Seq<char>, Seq<char>>::empty(),
    {
        let r = PathMap { pairs: Vec::new() };
        assert(r.pairs@.map_values(|p: PathPair| pair_view(p)) =~= Seq::<(Seq<char>, Seq<char>)>::empty());
        r
    }

    pub fn insert(&mut self, from: String, to: String)
        ensures
            final(self)@ == old(self)@.insert(from@, to@),
    {
        let ghost before = self.pairs@.map_values(|p: PathPair| pair_view(p));
        self.pairs.push(PathPair { from, to });
        let ghost after = self.pairs@.map_values(|p: PathPair| pair_view(p));
        assert(after.drop_last() =~= before);
    }

    /// The path that `from` maps to.
    pub fn get(&self, from: &String) -> (r: Option<&String>)
        ensures
            match r {
                Some(to) => self@.contains_key(from@) && self@[from@] == to@,
                None => !self@.contains_key(from@),
            },
    {
        let ghost all = self.pairs@.map_values(|p: PathPair| pair_view(p));
        let mut i: usize = self.pairs.len();
        assert(all.take(i as int) =~= all);
        while i > 0
            invariant
                i <= self.pairs@.len(),
                all == self.pairs@.map_values(|p: PathPair| pair_view(p)),
                pairs_map(all).contains_key(from@) == pairs_map(all.take(i as int)).contains_key(from@),
                pairs_map(all).contains_key(from@) ==> pairs_map(all)[from@] == pairs_map(all.take(i as int))[from@],
            decreases i,
        {
            let p = &self.pairs[i - 1];
            if p.from == *from {
                assert(all.take(i as int).last() == pair_view(*p));
                return Some(&p.to);
            }
            assert(all.take(i as int).drop_last() =~= all.take(i - 1));
            i -= 1;
        }
        None
    }
}

} // verus!
