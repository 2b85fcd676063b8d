//! A set of node identifiers, kept as a vector in which no identifier occurs
//! twice.

use vstd::prelude::*;
use vstd::seq_lib::*;

verus! {

/// A finite set of identifiers. Its view is the set of the identifiers'
/// character sequences.
pub struct IdSet {
    ids: Vec<String>,
}

impl IdSet {
    /// No identifier is stored twice.
    #[verifier::type_invariant]
    pub closed spec fn inv(&self) -> bool {
        self.seq().no_duplicates()
    }

    /// The identifiers in storage order.
    pub closed spec fn seq(&self) -> Seq<Seq<char>> {
        Seq::new(self.ids.len() as nat, |i: int| self.ids[i]@)
    }

    /// The identifiers as a set.
    pub open spec fn view(&self) -> Set<Seq<char>> {
        self.seq().to_set()
    }

    /// The view is finite and has as many members as there are stored entries.
    pub proof fn lemma_view(&self)
        requires
            self.inv(),
        ensures
            self@.finite(),
            self@.len() == self.seq().len(),
            self.seq().no_duplicates(),
    {
        seq_to_set_is_finite(self.seq());
        self.seq().unique_seq_to_set();
    }

    /// The empty set.
    pub fn new() -> (s: Self)
        ensures
            s.inv(),
            s@ == Set::<Seq<char>>::empty(),
            s.seq() == Seq::<Seq<char>>::empty(),
    {
        let s = IdSet { ids: Vec::new() };
        assert(s.seq() =~= Seq::<Seq<char>>::empty());
        assert(s@ =~= Set::<Seq<char>>::empty());
        s
    }

    /// The number of identifiers in the set.
    pub fn len(&self) -> (n: usize)
        ensures
            n == self@.len(),
            n == self.seq().len(),
    {
        proof {
            use_type_invariant(self);
            self.lemma_view();
        }
        self.ids.len()
    }

    /// The `i`-th identifier in storage order.
    pub fn get(&self, i: usize) -> (id: &String)
        requires
            i < self.seq().len(),
        ensures
            id@ == self.seq()[i as int],
            self@.contains(id@),
    {
        assert(self.seq()[i as int] == self.ids[i as int]@);
        &self.ids[i]
    }

    /// Whether `id` is in the set.
    pub fn contains(&self, id: &String) -> (found: bool)
        ensures
            found == self@.contains(id@),
    {
        let mut i: usize = 0;
        while i < self.ids.len()
            invariant
                i <= self.ids.len(),
                forall|k: int| 0 <= k < i ==> self.seq()[k] != id@,
            decreases self.ids.len() - i,
        {
            if self.ids[i] == *id {
                assert(self.seq()[i as int] == id@);
                return true;
            }
            i += 1;
        }
        false
    }

    /// Adds `id` to the set; says whether it was new.
    pub fn insert(&mut self, id: String) -> (fresh: bool)
        ensures
            final(self).inv(),
            final(self)@ == old(self)@.insert(id@),
            fresh == !old(self)@.contains(id@),
            fresh ==> final(self).seq() == old(self).seq().push(id@),
            !fresh ==> final(self).seq() == old(self).seq(),
    {
        proof {
            use_type_invariant(&*self);
        }
        if self.contains(&id) {
            assert(self@ =~= self@.insert(id@));
            false
        } else {
            let ghost before = self.seq();
            let mut ids: Vec<String> = Vec::new();
            std::mem::swap(&mut self.ids, &mut ids);
            ids.push(id);
            proof {
                let after = Seq::new(ids.len() as nat, |i: int| ids[i]@);
                assert(after =~= before.push(id@));
                assert(!before.to_set().contains(id@));
                assert forall|i: int, j: int| 0 <= i < after.len() && 0 <= j < after.len() && i != j
                    implies after[i] != after[j] by {
                    if i < before.len() {
                        assert(before.to_set().contains(before[i]));
                    }
                    if j < before.len() {
                        assert(before.to_set().contains(before[j]));
                    }
                }
            }
            self.ids = ids;
            assert(self.seq() =~= before.push(id@));
            assert(self@ =~= old(self)@.insert(id@)) by {
                lemma_push_to_set(before, id@);
            }
            true
        }
    }
}

/// Appending an entry to a sequence inserts it into the sequence's set.
proof fn lemma_push_to_set<A>(s: Seq<A>, a: A)
    ensures
        s.push(a).to_set() =~= s.to_set().insert(a),
{
    let longer = s.push(a);
    assert forall|x: A| longer.to_set().contains(x) implies s.to_set().insert(a).contains(x) by {
        let i = choose|i: int| 0 <= i < longer.len() && #[trigger] longer[i] == x;
        if i < s.len() {
            assert(s[i] == x);
        }
    }
    assert forall|x: A| s.to_set().insert(a).contains(x) implies longer.to_set().contains(x) by {
        if x == a {
            assert(longer[s.len() as int] == x);
        } else {
            let i = choose|i: int| 0 <= i < s.len() && #[trigger] s[i] == x;
            assert(longer[i] == x);
        }
    }
}

} // verus!
