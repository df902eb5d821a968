//! What two parser runs disagree on for one file, and how the
//! disagreements of many files fold into one.

use crate::complog::{lemma_log_minus_member, log_minus, populated, CompLog, LogView};
use crate::finds::Message;
use vstd::prelude::*;

verus! {

/// The errors of one parser run.
pub type ErrLog = CompLog;

/// The warnings of one parser run.
pub type WarnLog = CompLog;

/// The traces of one parser run.
pub type TraceLog = CompLog;

/// One value for each of the two parsers.
#[derive(Debug)]
pub struct Diff<T> {
    pub result_a: T,
    pub result_b: T,
}

/// What each of two logs reports and the other does not.
pub open spec fn diff_of(a: LogView, b: LogView) -> Diff<LogView> {
    Diff { result_a: log_minus(a, b), result_b: log_minus(b, a) }
}

/// The view of a pair of logs.
pub open spec fn logs_diff_view(d: Diff<CompLog>) -> Diff<LogView> {
    Diff { result_a: d.result_a@, result_b: d.result_b@ }
}

/// The view of a pair of texts.
pub open spec fn texts_diff_view(d: Diff<Message>) -> Diff<Seq<char>> {
    Diff { result_a: d.result_a@, result_b: d.result_b@ }
}

/// A pair of logs with the messages of both pairs on each side; where
/// both pairs hold a message on a side, its positions are those of
/// `incoming`.
pub open spec fn extended(acc: Diff<LogView>, incoming: Diff<LogView>) -> Diff<LogView> {
    Diff {
        result_a: acc.result_a.union_prefer_right(incoming.result_a),
        result_b: acc.result_b.union_prefer_right(incoming.result_b),
    }
}

/// In the difference of two logs a position stands under a message on
/// the side of `a` exactly when `a` reports it there and `b` does not,
/// and on the side of `b` exactly when `b` reports it there and `a` does
/// not.
pub proof fn lemma_diff_is_symmetric_difference(a: LogView, b: LogView, m: Seq<char>, p: Seq<char>)
    ensures
        (diff_of(a, b).result_a.contains_key(m) && diff_of(a, b).result_a[m].contains(p)) <==> (
        a.contains_key(m) && a[m].contains(p) && (!b.contains_key(m) || !b[m].contains(p))),
        (diff_of(a, b).result_b.contains_key(m) && diff_of(a, b).result_b[m].contains(p)) <==> (
        b.contains_key(m) && b[m].contains(p) && (!a.contains_key(m) || !a[m].contains(p))),
{
    lemma_log_minus_member(a, b, m, p);
    lemma_log_minus_member(b, a, m, p);
}

/// What both logs report at the same position is on neither side of
/// their difference.
pub proof fn lemma_diff_drops_agreement(a: LogView, b: LogView, m: Seq<char>, p: Seq<char>)
    requires
        a.contains_key(m) && a[m].contains(p),
        b.contains_key(m) && b[m].contains(p),
    ensures
        !(diff_of(a, b).result_a.contains_key(m) && diff_of(a, b).result_a[m].contains(p)),
        !(diff_of(a, b).result_b.contains_key(m) && diff_of(a, b).result_b[m].contains(p)),
{
}

/// Two populated logs differ exactly when one side of their difference
/// holds something.
pub proof fn lemma_diff_empty_iff_equal(a: LogView, b: LogView)
    requires
        populated(a),
        populated(b),
    ensures
        (a == b) <==> (diff_of(a, b).result_a == Map::<Seq<char>, Set<Seq<char>>>::empty() && diff_of(
            a,
            b,
        ).result_b == Map::<Seq<char>, Set<Seq<char>>>::empty()),
{
    let d = diff_of(a, b);
    if a == b {
        assert(d.result_a =~= Map::<Seq<char>, Set<Seq<char>>>::empty());
        assert(d.result_b =~= Map::<Seq<char>, Set<Seq<char>>>::empty());
    }
    if d.result_a == Map::<Seq<char>, Set<Seq<char>>>::empty() && d.result_b == Map::<
        Seq<char>,
        Set<Seq<char>>,
    >::empty() {
        assert forall|m: Seq<char>| a.contains_key(m) implies b.contains_key(m) && a[m] == b[m] by {
            assert(!d.result_a.contains_key(m));
            assert(b.contains_key(m));
            assert(!d.result_b.contains_key(m));
            assert(a[m] =~= b[m]);
        }
        assert forall|m: Seq<char>| b.contains_key(m) implies a.contains_key(m) by {
            assert(!d.result_b.contains_key(m));
        }
        assert(a =~= b);
    }
}

impl Diff<CompLog> {
    /// The difference of two logs, position by position: each side keeps
    /// what its log reports and the other does not.
    pub fn from(result_a: CompLog, result_b: CompLog) -> (d: Diff<CompLog>)
        ensures
            logs_diff_view(d) == diff_of(result_a@, result_b@),
            d.result_a.wf(),
            d.result_b.wf(),
    {
        let in_a_but_not_in_b = result_a.minus(&result_b);
        let in_b_but_not_in_a = result_b.minus(&result_a);
        Diff { result_a: in_a_but_not_in_b, result_b: in_b_but_not_in_a }
    }

    /// Takes over the messages of `b`, side by side; a message that both
    /// hold on a side gets the positions that `b` has for it.
    pub fn merge(&mut self, b: Diff<CompLog>)
        ensures
            logs_diff_view(*final(self)) == extended(logs_diff_view(*old(self)), logs_diff_view(b)),
            final(self).result_a.wf(),
            final(self).result_b.wf(),
    {
        self.result_a.extend(&b.result_a);
        self.result_b.extend(&b.result_b);
    }
}

/// What the two parsers disagree on for one file.  A facet is there
/// where they disagree on it.
#[derive(Debug)]
pub struct ParserDiff {
    /// Whether each parser succeeded.
    pub pass_eq: Option<Diff<bool>>,
    /// The exit code of each parser, where it has one.
    pub exit_eq: Option<Diff<Option<i32>>>,
    /// The standard output of each parser.
    pub stdout_eq: Option<Diff<Message>>,
    pub err_eq: Option<Diff<ErrLog>>,
    pub warn_eq: Option<Diff<WarnLog>>,
    pub trace_eq: Option<Diff<TraceLog>>,
}

/// The mathematical side of a `ParserDiff`.
pub struct ParserDiffView {
    pub pass_eq: Option<Diff<bool>>,
    pub exit_eq: Option<Diff<Option<i32>>>,
    pub stdout_eq: Option<Diff<Seq<char>>>,
    pub err_eq: Option<Diff<LogView>>,
    pub warn_eq: Option<Diff<LogView>>,
    pub trace_eq: Option<Diff<LogView>>,
}

/// The view of a pair of logs that may be missing.
pub open spec fn facet_view(d: Option<Diff<CompLog>>) -> Option<Diff<LogView>> {
    match d {
        Some(d) => Some(logs_diff_view(d)),
        None => None,
    }
}

/// The view of a pair of texts that may be missing.
pub open spec fn stdout_view(d: Option<Diff<Message>>) -> Option<Diff<Seq<char>>> {
    match d {
        Some(d) => Some(texts_diff_view(d)),
        None => None,
    }
}

impl View for ParserDiff {
    type V = ParserDiffView;

    open spec fn view(&self) -> ParserDiffView {
        ParserDiffView {
            pass_eq: self.pass_eq,
            exit_eq: self.exit_eq,
            stdout_eq: stdout_view(self.stdout_eq),
            err_eq: facet_view(self.err_eq),
            warn_eq: facet_view(self.warn_eq),
            trace_eq: facet_view(self.trace_eq),
        }
    }
}

/// What stands for the standard outputs of more than one file.
pub open spec fn sentinel() -> Diff<Seq<char>> {
    Diff { result_a: "Multiple given"@, result_b: "Multiple given"@ }
}

/// The first of two values that is there.
pub open spec fn first_of<T>(acc: Option<T>, incoming: Option<T>) -> Option<T> {
    match acc {
        Some(_) => acc,
        None => incoming,
    }
}

/// Two pairs of standard outputs give way to the sentinel; one alone
/// stays.
pub open spec fn merged_stdout(acc: Option<Diff<Seq<char>>>, incoming: Option<Diff<Seq<char>>>) -> Option<
    Diff<Seq<char>>,
> {
    match (acc, incoming) {
        (Some(_), Some(_)) => Some(sentinel()),
        (None, b) => b,
        (a, None) => a,
    }
}

/// Two pairs of logs are extended into one; one alone stays.
pub open spec fn merged_logs(acc: Option<Diff<LogView>>, incoming: Option<Diff<LogView>>) -> Option<
    Diff<LogView>,
> {
    match (acc, incoming) {
        (Some(a), Some(b)) => Some(extended(a, b)),
        (None, b) => b,
        (a, None) => a,
    }
}

/// The disagreements of two files as one.
pub open spec fn merged(acc: ParserDiffView, incoming: ParserDiffView) -> ParserDiffView {
    ParserDiffView {
        pass_eq: first_of(acc.pass_eq, incoming.pass_eq),
        exit_eq: first_of(acc.exit_eq, incoming.exit_eq),
        stdout_eq: merged_stdout(acc.stdout_eq, incoming.stdout_eq),
        err_eq: merged_logs(acc.err_eq, incoming.err_eq),
        warn_eq: merged_logs(acc.warn_eq, incoming.warn_eq),
        trace_eq: merged_logs(acc.trace_eq, incoming.trace_eq),
    }
}

/// Merging two disagreements that both carry standard outputs leaves
/// the sentinel in their place, whatever the outputs were.
pub proof fn lemma_two_stdouts_give_sentinel(acc: ParserDiffView, incoming: ParserDiffView)
    requires
        acc.stdout_eq is Some,
        incoming.stdout_eq is Some,
    ensures
        merged(acc, incoming).stdout_eq == Some(sentinel()),
        merged(incoming, acc).stdout_eq == Some(sentinel()),
{
}

fn merge_logs(acc: &mut Option<Diff<CompLog>>, incoming: Option<Diff<CompLog>>)
    ensures
        facet_view(*final(acc)) == merged_logs(facet_view(*old(acc)), facet_view(incoming)),
{
    let mine = acc.take();
    match (mine, incoming) {
        (Some(mut a), Some(b)) => {
            a.merge(b);
            *acc = Some(a);
        },
        (None, b) => {
            *acc = b;
        },
        (a, None) => {
            *acc = a;
        },
    }
}

impl ParserDiff {
    /// A record without any facet.
    pub fn new() -> (d: ParserDiff)
        ensures
            d@ == (ParserDiffView {
                pass_eq: None,
                exit_eq: None,
                stdout_eq: None,
                err_eq: None,
                warn_eq: None,
                trace_eq: None,
            }),
    {
        ParserDiff { pass_eq: None, exit_eq: None, stdout_eq: None, err_eq: None, warn_eq: None, trace_eq: None }
    }

    /// Folds the disagreements of another file into this record.  The
    /// success flags and exit codes that came first stay; two pairs of
    /// standard outputs give way to the sentinel; the logs are extended.
    pub fn merge(&mut self, other: ParserDiff)
        ensures
            final(self)@ == merged(old(self)@, other@),
    {
        if self.pass_eq.is_none() {
            self.pass_eq = other.pass_eq;
        }
        if self.exit_eq.is_none() {
            self.exit_eq = other.exit_eq;
        }
        let mine = self.stdout_eq.take();
        self.stdout_eq = match (mine, other.stdout_eq) {
            (Some(_), Some(_)) => Some(
                Diff { result_a: "Multiple given".to_owned(), result_b: "Multiple given".to_owned() },
            ),
            (None, b) => b,
            (a, None) => a,
        };
        merge_logs(&mut self.err_eq, other.err_eq);
        merge_logs(&mut self.warn_eq, other.warn_eq);
        merge_logs(&mut self.trace_eq, other.trace_eq);
    }
}

} // verus!
