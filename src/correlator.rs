use std::collections::HashMap;
use vstd::prelude::*;

verus! {

broadcast use vstd::std_specs::hash::group_hash_axioms;

/// Fragments received so far for each request id whose response is not yet
/// delivered.
pub struct Correlator {
    table: HashMap<i32, Vec<u8>>,
}

impl View for Correlator {
    type V = Map<i32, Seq<u8>>;

    closed spec fn view(&self) -> Map<i32, Seq<u8>> {
        Map::new(|k: i32| self.table@.contains_key(k), |k: i32| self.table@[k]@)
    }
}

impl Correlator {
    /// A table with no pending response.
    pub fn new() -> (r: Correlator)
        ensures
            r@ == Map::<i32, Seq<u8>>::empty(),
    {
        let r = Correlator { table: HashMap::new() };
        assert(r@ =~= Map::<i32, Seq<u8>>::empty());
        r
    }

    /// Whether fragments are buffered for `id`.
    pub fn contains(&self, id: i32) -> (r: bool)
        ensures
            r == self@.contains_key(id),
    {
        self.table.contains_key(&id)
    }

    /// Appends a fragment to what is buffered for `id`, opening the entry if
    /// this is its first fragment.
    pub fn append(&mut self, id: i32, fragment: &[u8])
        ensures
            final(self)@ == old(self)@.insert(
                id,
                if old(self)@.contains_key(id) {
                    old(self)@[id] + fragment@
                } else {
                    fragment@
                },
            ),
    {
        let mut buf = match self.table.remove(&id) {
            Some(b) => b,
            None => Vec::new(),
        };
        let ghost before = buf@;
        let mut i: usize = 0;
        while i < fragment.len()
            invariant
                i <= fragment@.len(),
                buf@ == before + fragment@.subrange(0, i as int),
            decreases fragment@.len() - i,
        {
            buf.push(fragment[i]);
            i += 1;
            assert(fragment@.subrange(0, i as int) =~= fragment@.subrange(0, i - 1) + seq![
                fragment@[i - 1],
            ]);
        }
        assert(fragment@.subrange(0, i as int) =~= fragment@);
        self.table.insert(id, buf);
        assert(self@ =~= old(self)@.insert(
            id,
            if old(self)@.contains_key(id) {
                old(self)@[id] + fragment@
            } else {
                fragment@
            },
        ));
    }

    /// Removes the entry of `id` and hands out its fragments, joined in the
    /// order they arrived.
    pub fn take(&mut self, id: i32) -> (r: Option<Vec<u8>>)
        ensures
            final(self)@ == old(self)@.remove(id),
            match r {
                Some(b) => old(self)@.contains_key(id) && b@ == old(self)@[id],
                None => !old(self)@.contains_key(id),
            },
    {
        let r = self.table.remove(&id);
        assert(self@ =~= old(self)@.remove(id));
        r
    }

    /// Drops every pending entry.
    pub fn clear(&mut self)
        ensures
            final(self)@ == Map::<i32, Seq<u8>>::empty(),
    {
        self.table.clear();
        assert(self@ =~= Map::<i32, Seq<u8>>::empty());
    }
}

} // verus!
