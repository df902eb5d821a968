//! The set of positions at which one message was reported.

use vstd::prelude::*;

verus! {

/// A diagnostic text, after normalisation.
pub type Message = String;

/// A source location.  It is compared as text and never looked into.
pub type Position = String;

/// A duplicate-free listing put behind another one stays duplicate-free
/// when the new item is new, and its set grows by that item.
pub proof fn lemma_listing_push(listing: Seq<Seq<char>>, p: Seq<char>)
    requires
        listing.no_duplicates(),
        !listing.contains(p),
    ensures
        listing.push(p).no_duplicates(),
        listing.push(p).to_set() == listing.to_set().insert(p),
{
    let grown = listing.push(p);
    assert forall|i: int, j: int| 0 <= i < grown.len() && 0 <= j < grown.len() && i != j implies grown[i]
        != grown[j] by {
        if i < listing.len() {
            assert(listing[i] == grown[i]);
        }
        if j < listing.len() {
            assert(listing[j] == grown[j]);
        }
    }
    assert forall|x: Seq<char>| grown.contains(x) <==> (listing.contains(x) || x == p) by {
        if listing.contains(x) {
            let i = listing.index_of(x);
            assert(grown[i] == x);
        }
        if x == p {
            assert(grown[listing.len() as int] == x);
        }
        if grown.contains(x) {
            let i = grown.index_of(x);
            if i < listing.len() {
                assert(listing[i] == x);
            }
        }
    }
    assert(grown.to_set() =~= listing.to_set().insert(p));
}

/// The positions of one message: a set, held in the order of arrival.
#[derive(Debug)]
pub struct Finds {
    positions: Vec<Position>,
}

impl Finds {
    /// The positions in the order in which they arrived.
    pub closed spec fn listing(&self) -> Seq<Seq<char>> {
        Seq::new(self.positions@.len(), |i: int| self.positions@[i]@)
    }

    /// What every value of the type satisfies: no position twice.
    #[verifier::type_invariant]
    pub open spec fn wf(&self) -> bool {
        self.listing().no_duplicates()
    }

    pub open spec fn view(&self) -> Set<Seq<char>> {
        self.listing().to_set()
    }

    pub fn new() -> (f: Finds)
        ensures
            f.wf(),
            f.listing() == Seq::<Seq<char>>::empty(),
            f@ == Set::<Seq<char>>::empty(),
    {
        let f = Finds { positions: Vec::new() };
        assert(f.listing() =~= Seq::<Seq<char>>::empty());
        assert(f@ =~= Set::<Seq<char>>::empty());
        f
    }

    /// How many positions the set holds.
    pub fn len(&self) -> (n: usize)
        ensures
            self.wf(),
            self@.finite(),
            n == self.listing().len(),
            n == self@.len(),
    {
        proof {
            use_type_invariant(self);
            self.listing().unique_seq_to_set();
            vstd::seq_lib::seq_to_set_is_finite(self.listing());
        }
        self.positions.len()
    }

    pub fn is_empty(&self) -> (b: bool)
        ensures
            b == self@.is_empty(),
            b == (self@ == Set::<Seq<char>>::empty()),
    {
        let n = self.len();
        proof {
            if n == 0 {
                assert(self@ =~= Set::<Seq<char>>::empty());
            } else {
                assert(self.listing().contains(self.listing()[0]));
                assert(self@.contains(self.listing()[0]));
            }
        }
        n == 0
    }

    /// The position at place `i` of the listing.
    pub fn position(&self, i: usize) -> (p: &Position)
        requires
            i < self.listing().len(),
        ensures
            p@ == self.listing()[i as int],
            self@.contains(p@),
    {
        assert(self.listing().contains(self.listing()[i as int]));
        &self.positions[i]
    }

    pub fn contains(&self, p: &Position) -> (b: bool)
        ensures
            b == self@.contains(p@),
    {
        let mut i: usize = 0;
        while i < self.positions.len()
            invariant
                i <= self.positions@.len(),
                self.listing().len() == self.positions@.len(),
                forall|j: int| 0 <= j < i ==> self.listing()[j] != p@,
            decreases self.positions@.len() - i,
        {
            if self.positions[i] == *p {
                assert(self.listing()[i as int] == p@);
                return true;
            }
            i += 1;
        }
        false
    }

    /// Adds a position; one that the set holds already changes nothing.
    /// Says whether the position was new.
    pub fn insert(&mut self, p: Position) -> (fresh: bool)
        ensures
            final(self).wf(),
            final(self)@ == old(self)@.insert(p@),
            fresh == !old(self)@.contains(p@),
            fresh ==> final(self).listing() == old(self).listing().push(p@),
            !fresh ==> final(self).listing() == old(self).listing(),
    {
        proof {
            use_type_invariant(&*self);
        }
        if self.contains(&p) {
            assert(self@.insert(p@) =~= self@);
            false
        } else {
            let ghost before = self.listing();
            proof {
                lemma_listing_push(before, p@);
            }
            let mut positions: Vec<Position> = Vec::new();
            std::mem::swap(&mut self.positions, &mut positions);
            positions.push(p);
            proof {
                let f = Finds { positions };
                assert(f.listing() =~= before.push(p@));
            }
            self.positions = positions;
            true
        }
    }

    /// A set of one position.
    pub fn single(p: Position) -> (f: Finds)
        ensures
            f.wf(),
            f@ == Set::<Seq<char>>::empty().insert(p@),
    {
        let mut f = Finds::new();
        f.insert(p);
        f
    }

    /// A copy of the set.
    pub fn duplicate(&self) -> (f: Finds)
        ensures
            f.wf(),
            f.listing() == self.listing(),
            f@ == self@,
    {
        proof {
            use_type_invariant(self);
        }
        let mut positions: Vec<Position> = Vec::new();
        let mut i: usize = 0;
        while i < self.positions.len()
            invariant
                i <= self.positions@.len(),
                positions@.len() == i,
                forall|j: int| 0 <= j < i ==> positions@[j]@ == self.positions@[j]@,
            decreases self.positions@.len() - i,
        {
            positions.push(self.positions[i].clone());
            i += 1;
        }
        proof {
            let f = Finds { positions };
            assert(f.listing() =~= self.listing());
        }
        Finds { positions }
    }

    /// The positions of this set that `other` does not hold.
    pub fn minus(&self, other: &Finds) -> (f: Finds)
        ensures
            f.wf(),
            f@ == self@.difference(other@),
    {
        let mut f = Finds::new();
        let mut i: usize = 0;
        let n = self.len();
        while i < n
            invariant
                i <= n,
                n == self.listing().len(),
                forall|x: Seq<char>|
                    f@.contains(x) <==> (exists|j: int|
                        0 <= j < i && self.listing()[j] == x && !other@.contains(x)),
            decreases n - i,
        {
            let p = self.position(i);
            let ghost before = f@;
            if !other.contains(p) {
                f.insert(p.clone());
            }
            proof {
                assert forall|x: Seq<char>|
                    f@.contains(x) <==> (exists|j: int|
                        0 <= j < i + 1 && self.listing()[j] == x && !other@.contains(x)) by {
                    if f@.contains(x) {
                        if before.contains(x) {
                            let j = choose|j: int|
                                0 <= j < i && self.listing()[j] == x && !other@.contains(x);
                            assert(0 <= j < i + 1 && self.listing()[j] == x);
                        } else {
                            assert(self.listing()[i as int] == x);
                        }
                    }
                    if exists|j: int|
                        0 <= j < i + 1 && self.listing()[j] == x && !other@.contains(x) {
                        let j = choose|j: int|
                            0 <= j < i + 1 && self.listing()[j] == x && !other@.contains(x);
                        if j < i {
                            assert(before.contains(x));
                        }
                    }
                }
            }
            i += 1;
        }
        proof {
            use_type_invariant(&f);
            assert forall|x: Seq<char>| f@.contains(x) <==> self@.difference(other@).contains(x) by {
                if self@.difference(other@).contains(x) {
                    let j = self.listing().index_of(x);
                    assert(0 <= j < n && self.listing()[j] == x);
                }
            }
            assert(f@ =~= self@.difference(other@));
        }
        f
    }

    /// Whether every position of this set is one of `other` too.
    pub fn is_subset_of(&self, other: &Finds) -> (b: bool)
        ensures
            b == self@.subset_of(other@),
    {
        let mut i: usize = 0;
        let n = self.len();
        while i < n
            invariant
                i <= n,
                n == self.listing().len(),
                forall|j: int| 0 <= j < i ==> other@.contains(self.listing()[j]),
            decreases n - i,
        {
            let p = self.position(i);
            if !other.contains(p) {
                return false;
            }
            i += 1;
        }
        proof {
            assert forall|x: Seq<char>| self@.contains(x) implies other@.contains(x) by {
                let j = self.listing().index_of(x);
                assert(0 <= j < n && self.listing()[j] == x);
            }
        }
        true
    }

    /// Whether the two sets hold the same positions.
    pub fn same(&self, other: &Finds) -> (b: bool)
        ensures
            b == (self@ == other@),
    {
        let b = self.is_subset_of(other) && other.is_subset_of(self);
        proof {
            if b {
                assert(self@ =~= other@);
            }
        }
        b
    }

    /// Adds every position of `other`.
    pub fn absorb(&mut self, other: &Finds)
        ensures
            final(self).wf(),
            final(self)@ == old(self)@.union(other@),
    {
        let mut i: usize = 0;
        let n = other.len();
        while i < n
            invariant
                i <= n,
                n == other.listing().len(),
                forall|x: Seq<char>|
                    self@.contains(x) <==> (old(self)@.contains(x) || exists|j: int|
                        0 <= j < i && other.listing()[j] == x),
            decreases n - i,
        {
            let p = other.position(i);
            let ghost before = self@;
            self.insert(p.clone());
            proof {
                assert forall|x: Seq<char>|
                    self@.contains(x) <==> (old(self)@.contains(x) || exists|j: int|
                        0 <= j < i + 1 && other.listing()[j] == x) by {
                    if self@.contains(x) && !old(self)@.contains(x) {
                        if before.contains(x) {
                            let j = choose|j: int| 0 <= j < i && other.listing()[j] == x;
                            assert(0 <= j < i + 1 && other.listing()[j] == x);
                        } else {
                            assert(other.listing()[i as int] == x);
                        }
                    }
                    if exists|j: int| 0 <= j < i + 1 && other.listing()[j] == x {
                        let j = choose|j: int| 0 <= j < i + 1 && other.listing()[j] == x;
                        if j < i {
                            assert(before.contains(x));
                        }
                    }
                }
            }
            i += 1;
        }
        proof {
            use_type_invariant(&*self);
            assert forall|x: Seq<char>| self@.contains(x) <==> old(self)@.union(other@).contains(x) by {
                if other@.contains(x) {
                    let j = other.listing().index_of(x);
                    assert(0 <= j < n && other.listing()[j] == x);
                }
            }
            assert(self@ =~= old(self)@.union(other@));
        }
    }

    /// The positions as owned text, in the order of arrival.
    pub fn to_vec(&self) -> (v: Vec<Position>)
        ensures
            v@.len() == self.listing().len(),
            forall|i: int| 0 <= i < v@.len() ==> (#[trigger] v@[i])@ == self.listing()[i],
    {
        self.duplicate().positions
    }
}

} // verus!
