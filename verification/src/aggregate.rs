//! Folding the disagreements of all files of a corpus into one result.

use crate::complog::{CompLog, LogView};
use crate::diffing::{facet_view, merged, Diff, ParserDiff, ParserDiffView};
use crate::finds::Finds;
use crate::table::Table;
use vstd::prelude::*;

verus! {

/// For each message the positions at which only parser A, and those at
/// which only parser B, reported it.
pub type MessageOccurrences = Table<Diff<Finds>>;

/// The mathematical side of `MessageOccurrences`.
pub type OccurrencesView = Map<Seq<char>, Diff<Set<Seq<char>>>>;

pub open spec fn occurrences_view(t: MessageOccurrences) -> OccurrencesView {
    Map::new(
        |m: Seq<char>| t@.contains_key(m),
        |m: Seq<char>| Diff { result_a: t@[m].result_a@, result_b: t@[m].result_b@ },
    )
}

/// Every message has a position on at least one side.
pub open spec fn occupied(o: OccurrencesView) -> bool {
    forall|m: Seq<char>| #[trigger]
        o.contains_key(m) ==> !o[m].result_a.is_empty() || !o[m].result_b.is_empty()
}

/// The disagreements of a whole corpus, by severity.
#[derive(Debug)]
pub struct DiffResult {
    pub err_diff: MessageOccurrences,
    pub wrn_diff: MessageOccurrences,
    pub trc_diff: MessageOccurrences,
}

/// The mathematical side of a `DiffResult`.
pub struct DiffResultView {
    pub err_diff: OccurrencesView,
    pub wrn_diff: OccurrencesView,
    pub trc_diff: OccurrencesView,
}

impl View for DiffResult {
    type V = DiffResultView;

    open spec fn view(&self) -> DiffResultView {
        DiffResultView {
            err_diff: occurrences_view(self.err_diff),
            wrn_diff: occurrences_view(self.wrn_diff),
            trc_diff: occurrences_view(self.trc_diff),
        }
    }
}

/// The positions that a log holds under a message; none where it does
/// not hold the message.
pub open spec fn side(log: LogView, m: Seq<char>) -> Set<Seq<char>> {
    if log.contains_key(m) {
        log[m]
    } else {
        Set::<Seq<char>>::empty()
    }
}

/// A pair of logs turned into pairs of position sets by message: a
/// message of either side is there, with what each side holds for it.
pub open spec fn flattened(d: Option<Diff<LogView>>) -> OccurrencesView {
    match d {
        None => Map::<Seq<char>, Diff<Set<Seq<char>>>>::empty(),
        Some(d) => Map::new(
            |m: Seq<char>| d.result_a.contains_key(m) || d.result_b.contains_key(m),
            |m: Seq<char>| Diff { result_a: side(d.result_a, m), result_b: side(d.result_b, m) },
        ),
    }
}

/// The records of a sequence merged from the left, the first one being
/// the start.
pub open spec fn folded(diffs: Seq<ParserDiffView>) -> ParserDiffView
    recommends
        diffs.len() > 0,
    decreases diffs.len(),
{
    if diffs.len() <= 1 {
        diffs[0]
    } else {
        merged(folded(diffs.drop_last()), diffs.last())
    }
}

/// A result without any message.
pub open spec fn empty_result() -> DiffResultView {
    DiffResultView {
        err_diff: Map::<Seq<char>, Diff<Set<Seq<char>>>>::empty(),
        wrn_diff: Map::<Seq<char>, Diff<Set<Seq<char>>>>::empty(),
        trc_diff: Map::<Seq<char>, Diff<Set<Seq<char>>>>::empty(),
    }
}

/// The result of a corpus: nothing for no record at all, and otherwise
/// the logs of the folded records, flattened.
pub open spec fn aggregate(diffs: Seq<ParserDiffView>) -> DiffResultView {
    if diffs.len() == 0 {
        empty_result()
    } else {
        let all = folded(diffs);
        DiffResultView {
            err_diff: flattened(all.err_eq),
            wrn_diff: flattened(all.warn_eq),
            trc_diff: flattened(all.trace_eq),
        }
    }
}

/// The views of a sequence of records.
pub open spec fn diff_views(diffs: Seq<ParserDiff>) -> Seq<ParserDiffView> {
    Seq::new(diffs.len(), |i: int| diffs[i]@)
}

/// Aggregating no record at all gives a result without any message.
pub proof fn lemma_aggregate_of_nothing()
    ensures
        aggregate(Seq::<ParserDiffView>::empty()) == empty_result(),
{
}

/// Records without log facets aggregate to a result without any
/// message.
pub proof fn lemma_aggregate_without_logs(diffs: Seq<ParserDiffView>)
    requires
        forall|i: int|
            0 <= i < diffs.len() ==> (#[trigger] diffs[i]).err_eq is None && diffs[i].warn_eq is None
                && diffs[i].trace_eq is None,
    ensures
        aggregate(diffs) == empty_result(),
    decreases diffs.len(),
{
    if diffs.len() > 0 {
        lemma_folded_without_logs(diffs);
    }
}

proof fn lemma_folded_without_logs(diffs: Seq<ParserDiffView>)
    requires
        diffs.len() > 0,
        forall|i: int|
            0 <= i < diffs.len() ==> (#[trigger] diffs[i]).err_eq is None && diffs[i].warn_eq is None
                && diffs[i].trace_eq is None,
    ensures
        folded(diffs).err_eq is None,
        folded(diffs).warn_eq is None,
        folded(diffs).trace_eq is None,
    decreases diffs.len(),
{
    if diffs.len() > 1 {
        let front = diffs.drop_last();
        assert forall|i: int| 0 <= i < front.len() implies (#[trigger] front[i]).err_eq is None
            && front[i].warn_eq is None && front[i].trace_eq is None by {
            assert(front[i] == diffs[i]);
        }
        lemma_folded_without_logs(front);
    }
}

/// Once two records of a sequence carry standard outputs, the folded
/// record carries the sentinel.
pub proof fn lemma_folded_stdout_is_sentinel(diffs: Seq<ParserDiffView>, i: int, j: int)
    requires
        0 <= i < j < diffs.len(),
        diffs[i].stdout_eq is Some,
        diffs[j].stdout_eq is Some,
    ensures
        folded(diffs).stdout_eq == Some(crate::diffing::sentinel()),
    decreases diffs.len(),
{
    let front = diffs.drop_last();
    if j == diffs.len() - 1 {
        lemma_folded_keeps_stdout(front, i);
    } else {
        lemma_folded_stdout_is_sentinel(front, i, j);
    }
}

proof fn lemma_folded_keeps_stdout(diffs: Seq<ParserDiffView>, i: int)
    requires
        0 <= i < diffs.len(),
        diffs[i].stdout_eq is Some,
    ensures
        folded(diffs).stdout_eq is Some,
    decreases diffs.len(),
{
    if diffs.len() > 1 {
        if i < diffs.len() - 1 {
            lemma_folded_keeps_stdout(diffs.drop_last(), i);
        }
    }
}

/// Turns a pair of logs into pairs of position sets by message.
pub fn propagate_msg(log: Option<Diff<CompLog>>) -> (t: MessageOccurrences)
    ensures
        occurrences_view(t) == flattened(facet_view(log)),
        occupied(occurrences_view(t)),
{
    let mut t: MessageOccurrences = Table::new();
    let d = match log {
        None => {
            assert(occurrences_view(t) =~= flattened(facet_view(log)));
            return t;
        },
        Some(d) => d,
    };
    let ghost a = d.result_a@;
    let ghost b = d.result_b@;
    let n = d.result_a.len();
    let mut i: usize = 0;
    while i < n
        invariant
            i <= n,
            n == d.result_a.messages().len(),
            d.result_a.wf(),
            a == d.result_a@,
            forall|m: Seq<char>|
                t@.contains_key(m) <==> d.result_a.messages().take(i as int).contains(m),
            forall|m: Seq<char>| #[trigger]
                t@.contains_key(m) ==> t@[m].result_a@ == a[m] && t@[m].result_b@ == Set::<
                    Seq<char>,
                >::empty(),
            forall|m: Seq<char>| #[trigger] t@.contains_key(m) ==> !t@[m].result_a@.is_empty(),
        decreases n - i,
    {
        let m = d.result_a.message(i);
        let f = d.result_a.finds(i);
        let ghost seen = d.result_a.messages().take(i as int);
        let ghost grown = d.result_a.messages().take(i as int + 1);
        proof {
            assert(grown =~= seen.push(m@));
            assert forall|x: Seq<char>| grown.contains(x) <==> (seen.contains(x) || x == m@) by {
                if seen.contains(x) {
                    let j = seen.index_of(x);
                    assert(grown[j] == x);
                }
                if x == m@ {
                    assert(grown[i as int] == x);
                }
                if grown.contains(x) {
                    let j = grown.index_of(x);
                    if j < i {
                        assert(seen[j] == x);
                    }
                }
            }
        }
        t.insert(m.clone(), Diff { result_a: f.duplicate(), result_b: Finds::new() });
        i += 1;
    }
    assert(d.result_a.messages().take(n as int) =~= d.result_a.messages());
    let n = d.result_b.len();
    let mut i: usize = 0;
    while i < n
        invariant
            i <= n,
            n == d.result_b.messages().len(),
            d.result_a.wf(),
            d.result_b.wf(),
            a == d.result_a@,
            b == d.result_b@,
            forall|m: Seq<char>|
                t@.contains_key(m) <==> (a.contains_key(m) || d.result_b.messages().take(
                    i as int,
                ).contains(m)),
            forall|m: Seq<char>| #[trigger]
                t@.contains_key(m) ==> t@[m].result_a@ == side(a, m) && t@[m].result_b@ == (
                if d.result_b.messages().take(i as int).contains(m) {
                    b[m]
                } else {
                    Set::<Seq<char>>::empty()
                }),
            forall|m: Seq<char>| #[trigger]
                t@.contains_key(m) ==> !t@[m].result_a@.is_empty() || !t@[m].result_b@.is_empty(),
        decreases n - i,
    {
        let m = d.result_b.message(i);
        let f = d.result_b.finds(i);
        let ghost seen = d.result_b.messages().take(i as int);
        let ghost grown = d.result_b.messages().take(i as int + 1);
        proof {
            assert(grown =~= seen.push(m@));
            assert forall|x: Seq<char>| grown.contains(x) <==> (seen.contains(x) || x == m@) by {
                if seen.contains(x) {
                    let j = seen.index_of(x);
                    assert(grown[j] == x);
                }
                if x == m@ {
                    assert(grown[i as int] == x);
                }
                if grown.contains(x) {
                    let j = grown.index_of(x);
                    if j < i {
                        assert(seen[j] == x);
                    }
                }
            }
        }
        let result_a = match t.get(m) {
            Some(both) => both.result_a.duplicate(),
            None => Finds::new(),
        };
        let ghost before = t@;
        t.insert(m.clone(), Diff { result_a, result_b: f.duplicate() });
        proof {
            assert forall|x: Seq<char>| t@.contains_key(x) <==> (a.contains_key(x) || grown.contains(x)) by {
                assert(t@.contains_key(x) <==> (before.contains_key(x) || x == m@));
                assert(before.contains_key(x) <==> (a.contains_key(x) || seen.contains(x)));
            }
        }
        i += 1;
    }
    proof {
        assert(d.result_b.messages().take(n as int) =~= d.result_b.messages());
        assert(occurrences_view(t) =~= flattened(facet_view(log)));
    }
    t
}

impl DiffResult {
    /// A result without any message.
    pub fn new() -> (r: DiffResult)
        ensures
            r@ == empty_result(),
            occupied(r@.err_diff),
            occupied(r@.wrn_diff),
            occupied(r@.trc_diff),
    {
        let r = DiffResult { err_diff: Table::new(), wrn_diff: Table::new(), trc_diff: Table::new() };
        assert(r@.err_diff =~= empty_result().err_diff);
        assert(r@.wrn_diff =~= empty_result().wrn_diff);
        assert(r@.trc_diff =~= empty_result().trc_diff);
        r
    }

    /// Folds the records of all files, in the order given, and flattens
    /// the logs of what comes out.
    pub fn from(diffs: Vec<ParserDiff>) -> (r: DiffResult)
        ensures
            r@ == aggregate(diff_views(diffs@)),
            occupied(r@.err_diff),
            occupied(r@.wrn_diff),
            occupied(r@.trc_diff),
    {
        if diffs.len() == 0 {
            return DiffResult::new();
        }
        let ghost views = diff_views(diffs@);
        let mut acc: Option<ParserDiff> = None;
        for d in it: diffs
            invariant
                it.seq() == diffs@,
                views == diff_views(diffs@),
                it.index() == 0 ==> acc is None,
                it.index() > 0 ==> (acc matches Some(all) && all@ == folded(views.take(it.index() as int))),
        {
            let ghost k = it.index() as int;
            proof {
                assert(views.take(k + 1).drop_last() =~= views.take(k));
                assert(views.take(k + 1).last() == d@);
            }
            acc = match acc {
                None => Some(d),
                Some(mut all) => {
                    all.merge(d);
                    Some(all)
                },
            };
        }
        assert(views.take(diffs@.len() as int) =~= views);
        match acc {
            Some(rep) => DiffResult {
                err_diff: propagate_msg(rep.err_eq),
                wrn_diff: propagate_msg(rep.warn_eq),
                trc_diff: propagate_msg(rep.trace_eq),
            },
            None => DiffResult::new(),
        }
    }
}

} // verus!
