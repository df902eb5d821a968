//! The diagnostics of one severity: for each message the set of positions
//! at which it was reported.

use crate::finds::{Finds, Message, Position};
use crate::table::Table;
use vstd::prelude::*;

verus! {

/// The mathematical side of a log: positions by message.
pub type LogView = Map<Seq<char>, Set<Seq<char>>>;

/// No message of the log is without a position, and none has infinitely
/// many.
pub open spec fn populated(log: LogView) -> bool {
    forall|m: Seq<char>| #[trigger] log.contains_key(m) ==> log[m].finite() && !log[m].is_empty()
}

/// What `a` reports and `b` does not: under a message that both hold the
/// positions of `a` that `b` lacks, if there are any, and under a message
/// that only `a` holds all of its positions.
pub open spec fn log_minus(a: LogView, b: LogView) -> LogView {
    Map::new(
        |m: Seq<char>| a.contains_key(m) && (b.contains_key(m) ==> !a[m].subset_of(b[m])),
        |m: Seq<char>|
            if b.contains_key(m) {
                a[m].difference(b[m])
            } else {
                a[m]
            },
    )
}

/// A position stands under a message of `log_minus(a, b)` exactly when `a`
/// reports it there and `b` does not: `b` lacks the message, or has it
/// without that position.
pub proof fn lemma_log_minus_member(a: LogView, b: LogView, m: Seq<char>, p: Seq<char>)
    ensures
        (log_minus(a, b).contains_key(m) && log_minus(a, b)[m].contains(p)) <==> (a.contains_key(m)
            && a[m].contains(p) && (!b.contains_key(m) || !b[m].contains(p))),
{
}

/// Positions by message, the messages in the order of their arrival.
#[derive(Debug)]
pub struct CompLog {
    table: Table<Finds>,
}

impl CompLog {
    #[verifier::type_invariant]
    spec fn no_empty_finds(self) -> bool {
        forall|i: int|
            0 <= i < self.table.values().len() ==> !(#[trigger] self.table.values()[i])@.is_empty()
    }

    /// The messages in the order in which they arrived.
    pub closed spec fn messages(&self) -> Seq<Seq<char>> {
        self.table.keys()
    }

    pub closed spec fn view(&self) -> LogView {
        Map::new(|m: Seq<char>| self.table@.contains_key(m), |m: Seq<char>| self.table@[m]@)
    }

    /// What every log satisfies: no message twice, none without a position.
    pub open spec fn wf(&self) -> bool {
        &&& self.messages().no_duplicates()
        &&& forall|m: Seq<char>| self.messages().contains(m) <==> self@.contains_key(m)
        &&& populated(self@)
    }

    proof fn lemma_wf(&self)
        requires
            self.table.wf(),
            self.no_empty_finds(),
        ensures
            self.wf(),
    {
        let keys = self.table.keys();
        let values = self.table.values();
        assert forall|m: Seq<char>| #[trigger] self@.contains_key(m) implies self@[m].finite()
            && !self@[m].is_empty() by {
            let i = keys.index_of(m);
            crate::table::lemma_map_of_at(keys, values, i);
            vstd::seq_lib::seq_to_set_is_finite(values[i].listing());
        }
    }

    pub fn new() -> (log: CompLog)
        ensures
            log.wf(),
            log@ == Map::<Seq<char>, Set<Seq<char>>>::empty(),
            log.messages() == Seq::<Seq<char>>::empty(),
    {
        let log = CompLog { table: Table::new() };
        assert(log@ =~= Map::<Seq<char>, Set<Seq<char>>>::empty());
        proof {
            log.lemma_wf();
        }
        log
    }

    /// How many messages the log holds.
    pub fn len(&self) -> (n: usize)
        ensures
            self.wf(),
            n == self.messages().len(),
    {
        proof {
            use_type_invariant(self);
            use_type_invariant(&self.table);
            self.lemma_wf();
        }
        self.table.len()
    }

    pub fn is_empty(&self) -> (b: bool)
        ensures
            b == (self@ == Map::<Seq<char>, Set<Seq<char>>>::empty()),
    {
        let n = self.len();
        proof {
            if n == 0 {
                assert(self@ =~= Map::<Seq<char>, Set<Seq<char>>>::empty());
            } else {
                assert(self.messages().contains(self.messages()[0]));
            }
        }
        n == 0
    }

    /// The message at place `i`.
    pub fn message(&self, i: usize) -> (m: &Message)
        requires
            i < self.messages().len(),
        ensures
            m@ == self.messages()[i as int],
            self@.contains_key(m@),
    {
        self.table.key(i)
    }

    /// The positions of the message at place `i`.
    pub fn finds(&self, i: usize) -> (f: &Finds)
        requires
            i < self.messages().len(),
        ensures
            self@.contains_key(self.messages()[i as int]),
            f@ == self@[self.messages()[i as int]],
            !f@.is_empty(),
    {
        proof {
            use_type_invariant(self);
            use_type_invariant(&self.table);
            crate::table::lemma_map_of_at(self.table.keys(), self.table.values(), i as int);
        }
        self.table.value(i)
    }

    /// The positions of `message`, if the log holds it.
    pub fn get(&self, message: &Message) -> (r: Option<&Finds>)
        ensures
            match r {
                Some(f) => self@.contains_key(message@) && f@ == self@[message@],
                None => !self@.contains_key(message@),
            },
    {
        self.table.get(message)
    }

    pub fn contains_key(&self, message: &Message) -> (b: bool)
        ensures
            b == self@.contains_key(message@),
    {
        self.table.contains_key(message)
    }

    /// Whether the log reports `message` at `position`.
    pub fn contains(&self, message: &Message, position: &Position) -> (b: bool)
        ensures
            b == (self@.contains_key(message@) && self@[message@].contains(position@)),
    {
        match self.table.get(message) {
            Some(f) => f.contains(position),
            None => false,
        }
    }

    /// Maps `message` to `finds`, which holds at least one position.
    fn put(&mut self, message: Message, finds: Finds)
        requires
            !finds@.is_empty(),
        ensures
            final(self).wf(),
            final(self)@ == old(self)@.insert(message@, finds@),
            old(self)@.contains_key(message@) ==> final(self).messages() == old(self).messages(),
            !old(self)@.contains_key(message@) ==> final(self).messages() == old(self).messages().push(
                message@,
            ),
    {
        proof {
            use_type_invariant(&*self);
            use_type_invariant(&self.table);
        }
        let ghost before = self@;
        let ghost table0 = self.table;
        let mut table: Table<Finds> = Table::new();
        std::mem::swap(&mut self.table, &mut table);
        table.insert(message, finds);
        proof {
            let log = CompLog { table };
            assert(log@ =~= before.insert(message@, finds@));
            assert forall|i: int| 0 <= i < table.values().len() implies !(#[trigger] table.values()[i])@.is_empty() by {
                crate::table::lemma_map_of_at(table.keys(), table.values(), i);
                let k = table.keys()[i];
                if k != message@ {
                    assert(table0@.contains_key(k));
                    let j = table0.keys().index_of(k);
                    crate::table::lemma_map_of_at(table0.keys(), table0.values(), j);
                }
            }
            log.lemma_wf();
        }
        self.table = table;
    }

    /// Reports `message` at `position`: a message that the log does not
    /// hold yet arrives with that one position, and one that it holds
    /// gains the position.
    pub fn record(&mut self, message: Message, position: Position)
        ensures
            final(self).wf(),
            final(self)@ == old(self)@.insert(
                message@,
                (if old(self)@.contains_key(message@) {
                    old(self)@[message@]
                } else {
                    Set::<Seq<char>>::empty()
                }).insert(position@),
            ),
    {
        let finds = match self.table.get(&message) {
            Some(f) => {
                let mut g = f.duplicate();
                g.insert(position);
                g
            },
            None => Finds::single(position),
        };
        assert(finds@.contains(position@));
        self.put(message, finds);
    }

    /// A copy of the log.
    pub fn duplicate(&self) -> (log: CompLog)
        ensures
            log.wf(),
            log@ == self@,
            log.messages() == self.messages(),
    {
        let mut log = CompLog::new();
        let n = self.len();
        let mut i: usize = 0;
        while i < n
            invariant
                i <= n,
                n == self.messages().len(),
                self.wf(),
                log.wf(),
                log.messages() == self.messages().take(i as int),
                forall|m: Seq<char>| #[trigger] log@.contains_key(m) ==> log@[m] == self@[m],
            decreases n - i,
        {
            let m = self.message(i);
            let f = self.finds(i);
            proof {
                if log@.contains_key(m@) {
                    let j = log.messages().index_of(m@);
                    assert(self.messages()[j] == m@);
                }
                assert(self.messages().take(i as int + 1) =~= self.messages().take(i as int).push(m@));
            }
            log.put(m.clone(), f.duplicate());
            i += 1;
        }
        proof {
            assert(self.messages().take(n as int) =~= self.messages());
            assert(log@ =~= self@);
        }
        log
    }

    /// Takes over every message of `other`; where both logs hold a
    /// message, its positions become those of `other`.
    pub fn extend(&mut self, other: &CompLog)
        ensures
            final(self).wf(),
            final(self)@ == old(self)@.union_prefer_right(other@),
    {
        let n = other.len();
        let mut i: usize = 0;
        while i < n
            invariant
                i <= n,
                n == other.messages().len(),
                other.wf(),
                forall|m: Seq<char>|
                    self@.contains_key(m) <==> (old(self)@.contains_key(m) || other.messages().take(
                        i as int,
                    ).contains(m)),
                forall|m: Seq<char>| #[trigger]
                    self@.contains_key(m) ==> self@[m] == (if other.messages().take(i as int).contains(
                        m,
                    ) {
                        other@[m]
                    } else {
                        old(self)@[m]
                    }),
            decreases n - i,
        {
            let m = other.message(i);
            let f = other.finds(i);
            let ghost seen = other.messages().take(i as int);
            let ghost grown = other.messages().take(i as int + 1);
            proof {
                assert(grown =~= seen.push(m@));
                assert forall|x: Seq<char>| grown.contains(x) <==> (seen.contains(x) || x == m@) by {
                    if seen.contains(x) {
                        let j = seen.index_of(x);
                        assert(grown[j] == x);
                    }
                    if x == m@ {
                        assert(grown[i as int] == x);
                    }
                    if grown.contains(x) {
                        let j = grown.index_of(x);
                        if j < i {
                            assert(seen[j] == x);
                        }
                    }
                }
            }
            self.put(m.clone(), f.duplicate());
            i += 1;
        }
        proof {
            use_type_invariant(&*self);
            use_type_invariant(&self.table);
            self.lemma_wf();
            assert(other.messages().take(n as int) =~= other.messages());
            assert(self@ =~= old(self)@.union_prefer_right(other@));
        }
    }

    /// What this log reports and `other` does not.
    pub fn minus(&self, other: &CompLog) -> (log: CompLog)
        ensures
            log.wf(),
            log@ == log_minus(self@, other@),
    {
        let mut log = CompLog::new();
        let n = self.len();
        let mut i: usize = 0;
        while i < n
            invariant
                i <= n,
                n == self.messages().len(),
                self.wf(),
                log.wf(),
                forall|m: Seq<char>|
                    log@.contains_key(m) <==> (log_minus(self@, other@).contains_key(m)
                        && self.messages().take(i as int).contains(m)),
                forall|m: Seq<char>| #[trigger]
                    log@.contains_key(m) ==> log@[m] == log_minus(self@, other@)[m],
            decreases n - i,
        {
            let m = self.message(i);
            let f = self.finds(i);
            let ghost seen = self.messages().take(i as int);
            let ghost grown = self.messages().take(i as int + 1);
            proof {
                assert(grown =~= seen.push(m@));
                assert forall|x: Seq<char>| grown.contains(x) <==> (seen.contains(x) || x == m@) by {
                    if seen.contains(x) {
                        let j = seen.index_of(x);
                        assert(grown[j] == x);
                    }
                    if x == m@ {
                        assert(grown[i as int] == x);
                    }
                    if grown.contains(x) {
                        let j = grown.index_of(x);
                        if j < i {
                            assert(seen[j] == x);
                        }
                    }
                }
            }
            match other.get(m) {
                Some(g) => {
                    let d = f.minus(g);
                    if !d.is_empty() {
                        proof {
                            let x = choose|x: Seq<char>| d@.contains(x);
                            assert(f@.contains(x) && !g@.contains(x));
                        }
                        log.put(m.clone(), d);
                    } else {
                        proof {
                            assert forall|x: Seq<char>| f@.contains(x) implies g@.contains(x) by {
                                if !g@.contains(x) {
                                    assert(d@.contains(x));
                                }
                            }
                        }
                    }
                },
                None => {
                    log.put(m.clone(), f.duplicate());
                },
            }
            i += 1;
        }
        proof {
            assert(self.messages().take(n as int) =~= self.messages());
            assert(log@ =~= log_minus(self@, other@));
        }
        log
    }

    /// Whether every message of this log stands in `other` with the same
    /// positions.
    fn within(&self, other: &CompLog) -> (b: bool)
        ensures
            b == (forall|m: Seq<char>| #[trigger]
                self@.contains_key(m) ==> other@.contains_key(m) && other@[m] == self@[m]),
    {
        let n = self.len();
        let mut i: usize = 0;
        while i < n
            invariant
                i <= n,
                n == self.messages().len(),
                self.wf(),
                forall|j: int|
                    0 <= j < i ==> other@.contains_key(#[trigger] self.messages()[j]) && other@[self.messages()[j]]
                        == self@[self.messages()[j]],
            decreases n - i,
        {
            let m = self.message(i);
            let f = self.finds(i);
            match other.get(m) {
                Some(g) => {
                    if !f.same(g) {
                        return false;
                    }
                },
                None => {
                    return false;
                },
            }
            i += 1;
        }
        proof {
            assert forall|m: Seq<char>| #[trigger] self@.contains_key(m) implies other@.contains_key(m)
                && other@[m] == self@[m] by {
                let j = self.messages().index_of(m);
                assert(0 <= j < n && self.messages()[j] == m);
            }
        }
        true
    }

    /// Whether the two logs report the same positions under the same
    /// messages.
    pub fn same(&self, other: &CompLog) -> (b: bool)
        ensures
            b == (self@ == other@),
    {
        let b = self.within(other) && other.within(self);
        proof {
            if b {
                assert(self@ =~= other@);
            }
        }
        b
    }
}

} // verus!
