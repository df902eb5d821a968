//! Putting the results of several repositories side by side, and laying
//! the outcome out in lines.

use crate::aggregate::{occurrences_view, DiffResult, MessageOccurrences, OccurrencesView};
use crate::diffing::Diff;
use crate::finds::{Finds, Message};
use crate::parsing::Severity;
use crate::table::Table;
use crate::text::same_text;
use vstd::prelude::*;

verus! {

/// How much of a report is shown.
#[derive(Clone, Copy, PartialEq, Eq, Structural, Debug)]
pub enum ReportVerbosity {
    /// Counts only.
    Summary,
    /// Everything.
    Detailed,
    /// `Detailed` for a single report, `Summary` for several.
    Auto,
}

/// The verbosity that a word of the command line names.
pub open spec fn verbosity_named_by(word: Seq<char>) -> Option<ReportVerbosity> {
    if word == "summary"@ || word == "0"@ {
        Some(ReportVerbosity::Summary)
    } else if word == "detailed"@ || word == "1"@ {
        Some(ReportVerbosity::Detailed)
    } else if word == "auto"@ || word == ""@ {
        Some(ReportVerbosity::Auto)
    } else {
        None
    }
}

/// What a verbosity amounts to when `reports` reports are shown.
pub open spec fn resolved(verbosity: ReportVerbosity, reports: int) -> ReportVerbosity {
    match verbosity {
        ReportVerbosity::Auto => if reports == 1 {
            ReportVerbosity::Detailed
        } else {
            ReportVerbosity::Summary
        },
        v => v,
    }
}

impl ReportVerbosity {
    /// Reads a verbosity as it is written on the command line.
    pub fn from_str(s: &str) -> (r: Result<ReportVerbosity, ()>)
        ensures
            match r {
                Ok(v) => verbosity_named_by(s@) == Some(v),
                Err(_) => verbosity_named_by(s@) is None,
            },
    {
        if same_text(s, "summary") || same_text(s, "0") {
            Ok(ReportVerbosity::Summary)
        } else if same_text(s, "detailed") || same_text(s, "1") {
            Ok(ReportVerbosity::Detailed)
        } else if same_text(s, "auto") || same_text(s, "") {
            Ok(ReportVerbosity::Auto)
        } else {
            Err(())
        }
    }

    /// Settles `Auto` for a given number of reports.
    pub fn resolve(self, reports: usize) -> (v: ReportVerbosity)
        ensures
            v == resolved(self, reports as int),
            v != ReportVerbosity::Auto,
    {
        match self {
            ReportVerbosity::Auto => if reports == 1 {
                ReportVerbosity::Detailed
            } else {
                ReportVerbosity::Summary
            },
            ReportVerbosity::Summary => ReportVerbosity::Summary,
            ReportVerbosity::Detailed => ReportVerbosity::Detailed,
        }
    }
}

/// The view of a pair of standard outputs.
pub open spec fn pair_view(d: Diff<Message>) -> (Seq<char>, Seq<char>) {
    (d.result_a@, d.result_b@)
}

/// Pairs of standard outputs, none of them twice.
#[derive(Debug)]
pub struct OutDiffs {
    items: Vec<Diff<Message>>,
}

impl OutDiffs {
    /// The pairs in the order in which they arrived.
    pub closed spec fn listing(&self) -> Seq<(Seq<char>, Seq<char>)> {
        Seq::new(self.items@.len(), |i: int| pair_view(self.items@[i]))
    }

    /// What every value of the type satisfies: no pair twice.
    #[verifier::type_invariant]
    pub open spec fn wf(&self) -> bool {
        self.listing().no_duplicates()
    }

    pub open spec fn view(&self) -> Set<(Seq<char>, Seq<char>)> {
        self.listing().to_set()
    }

    pub fn new() -> (d: OutDiffs)
        ensures
            d.wf(),
            d.listing() == Seq::<(Seq<char>, Seq<char>)>::empty(),
            d@ == Set::<(Seq<char>, Seq<char>)>::empty(),
    {
        let d = OutDiffs { items: Vec::new() };
        assert(d.listing() =~= Seq::<(Seq<char>, Seq<char>)>::empty());
        assert(d@ =~= Set::<(Seq<char>, Seq<char>)>::empty());
        d
    }

    /// How many distinct pairs there are.
    pub fn len(&self) -> (n: usize)
        ensures
            self.wf(),
            self@.finite(),
            n == self.listing().len(),
            n == self@.len(),
    {
        proof {
            use_type_invariant(self);
            self.listing().unique_seq_to_set();
            vstd::seq_lib::seq_to_set_is_finite(self.listing());
        }
        self.items.len()
    }

    /// The pair at place `i`.
    pub fn pair(&self, i: usize) -> (d: &Diff<Message>)
        requires
            i < self.listing().len(),
        ensures
            pair_view(*d) == self.listing()[i as int],
    {
        &self.items[i]
    }

    pub fn contains(&self, d: &Diff<Message>) -> (b: bool)
        ensures
            b == self@.contains(pair_view(*d)),
    {
        let mut i: usize = 0;
        while i < self.items.len()
            invariant
                i <= self.items@.len(),
                self.listing().len() == self.items@.len(),
                forall|j: int| 0 <= j < i ==> self.listing()[j] != pair_view(*d),
            decreases self.items@.len() - i,
        {
            if self.items[i].result_a == d.result_a && self.items[i].result_b == d.result_b {
                assert(self.listing()[i as int] == pair_view(*d));
                return true;
            }
            i += 1;
        }
        false
    }

    /// Adds a pair; one that is there already changes nothing.
    pub fn insert(&mut self, d: Diff<Message>)
        ensures
            final(self).wf(),
            final(self)@ == old(self)@.insert(pair_view(d)),
    {
        proof {
            use_type_invariant(&*self);
        }
        if self.contains(&d) {
            assert(self@.insert(pair_view(d)) =~= self@);
        } else {
            let ghost before = self.listing();
            let ghost p = pair_view(d);
            let mut items: Vec<Diff<Message>> = Vec::new();
            std::mem::swap(&mut self.items, &mut items);
            items.push(d);
            proof {
                let grown = before.push(p);
                let out = OutDiffs { items };
                assert(out.listing() =~= grown);
                assert forall|i: int, j: int|
                    0 <= i < grown.len() && 0 <= j < grown.len() && i != j implies grown[i] != grown[j] by {
                    if i < before.len() {
                        assert(before[i] == grown[i]);
                    }
                    if j < before.len() {
                        assert(before[j] == grown[j]);
                    }
                }
                assert forall|x: (Seq<char>, Seq<char>)|
                    grown.contains(x) <==> (before.contains(x) || x == p) by {
                    if before.contains(x) {
                        let i = before.index_of(x);
                        assert(grown[i] == x);
                    }
                    if x == p {
                        assert(grown[before.len() as int] == x);
                    }
                    if grown.contains(x) {
                        let i = grown.index_of(x);
                        if i < before.len() {
                            assert(before[i] == x);
                        }
                    }
                }
                assert(grown.to_set() =~= before.to_set().insert(p));
            }
            self.items = items;
        }
    }

    /// A copy of the pairs.
    pub fn duplicate(&self) -> (d: OutDiffs)
        ensures
            d.wf(),
            d.listing() == self.listing(),
            d@ == self@,
    {
        proof {
            use_type_invariant(self);
        }
        let mut items: Vec<Diff<Message>> = Vec::new();
        let mut i: usize = 0;
        while i < self.items.len()
            invariant
                i <= self.items@.len(),
                items@.len() == i,
                forall|j: int| 0 <= j < i ==> pair_view(items@[j]) == pair_view(self.items@[j]),
            decreases self.items@.len() - i,
        {
            items.push(
                Diff { result_a: self.items[i].result_a.clone(), result_b: self.items[i].result_b.clone() },
            );
            i += 1;
        }
        proof {
            let d = OutDiffs { items };
            assert(d.listing() =~= self.listing());
        }
        OutDiffs { items }
    }
}

/// For each repository the positions of one message.
pub type RepoOccurrences = Table<Diff<Finds>>;

/// For each message, for each repository, the positions on each side.
pub type MessageAnalysis = Table<RepoOccurrences>;

/// For each repository the pairs of standard outputs that differ.
pub type OutAnalysis = Table<OutDiffs>;

/// The mathematical side of a `MessageAnalysis`.
pub type AnalysisView = Map<Seq<char>, OccurrencesView>;

pub open spec fn analysis_view(t: MessageAnalysis) -> AnalysisView {
    Map::new(|m: Seq<char>| t@.contains_key(m), |m: Seq<char>| occurrences_view(t@[m]))
}

/// The results of several repositories, message by message.
#[derive(Debug)]
pub struct Report {
    pub stdout: OutAnalysis,
    pub err_log: MessageAnalysis,
    pub wrn_log: MessageAnalysis,
    pub trc_log: MessageAnalysis,
}

/// What a repository holds for a message so far; nothing on either side
/// where it is new.
pub open spec fn prior(log: AnalysisView, m: Seq<char>, name: Seq<char>) -> Diff<Set<Seq<char>>> {
    if log.contains_key(m) && log[m].contains_key(name) {
        log[m][name]
    } else {
        Diff { result_a: Set::<Seq<char>>::empty(), result_b: Set::<Seq<char>>::empty() }
    }
}

/// The repositories of a message so far; none where the message is new.
pub open spec fn repos_of(log: AnalysisView, m: Seq<char>) -> OccurrencesView {
    if log.contains_key(m) {
        log[m]
    } else {
        Map::<Seq<char>, Diff<Set<Seq<char>>>>::empty()
    }
}

/// An analysis with the result of the repository `name` added: under
/// each message of the result the repository gains the positions of
/// both sides.
pub open spec fn added(log: AnalysisView, occ: OccurrencesView, name: Seq<char>) -> AnalysisView {
    Map::new(
        |m: Seq<char>| log.contains_key(m) || occ.contains_key(m),
        |m: Seq<char>|
            if occ.contains_key(m) {
                repos_of(log, m).insert(
                    name,
                    Diff {
                        result_a: prior(log, m, name).result_a.union(occ[m].result_a),
                        result_b: prior(log, m, name).result_b.union(occ[m].result_b),
                    },
                )
            } else {
                log[m]
            },
    )
}

/// `added`, for the messages of a listing only.
pub open spec fn added_for(
    log: AnalysisView,
    occ: OccurrencesView,
    name: Seq<char>,
    seen: Seq<Seq<char>>,
) -> AnalysisView {
    Map::new(
        |m: Seq<char>| log.contains_key(m) || (occ.contains_key(m) && seen.contains(m)),
        |m: Seq<char>|
            if occ.contains_key(m) && seen.contains(m) {
                added(log, occ, name)[m]
            } else {
                log[m]
            },
    )
}

fn propagate(log: &mut MessageAnalysis, occ: &MessageOccurrences, name: &String)
    ensures
        analysis_view(*final(log)) == added(analysis_view(*old(log)), occurrences_view(*occ), name@),
{
    let ghost log0 = analysis_view(*log);
    let ghost occ0 = occurrences_view(*occ);
    let n = occ.len();
    let mut i: usize = 0;
    assert(analysis_view(*log) =~= added_for(log0, occ0, name@, occ.keys().take(0)));
    while i < n
        invariant
            i <= n,
            n == occ.keys().len(),
            occ.wf(),
            occ0 == occurrences_view(*occ),
            analysis_view(*log) == added_for(log0, occ0, name@, occ.keys().take(i as int)),
        decreases n - i,
    {
        let msg = occ.key(i);
        let d = occ.value(i);
        let ghost seen = occ.keys().take(i as int);
        let ghost grown = occ.keys().take(i as int + 1);
        let ghost before = *log;
        proof {
            assert(grown =~= seen.push(msg@));
            assert forall|x: Seq<char>| grown.contains(x) <==> (seen.contains(x) || x == msg@) by {
                if seen.contains(x) {
                    let j = seen.index_of(x);
                    assert(grown[j] == x);
                }
                if x == msg@ {
                    assert(grown[i as int] == x);
                }
                if grown.contains(x) {
                    let j = grown.index_of(x);
                    if j < i {
                        assert(seen[j] == x);
                    }
                }
            }
            assert(!seen.contains(msg@)) by {
                if seen.contains(msg@) {
                    let j = seen.index_of(msg@);
                    assert(occ.keys()[j] == msg@ && occ.keys()[i as int] == msg@);
                }
            }
        }
        let found = log.find(msg);
        proof {
            if let Some(j) = found {
                crate::table::lemma_map_of_at(log.keys(), log.values(), j as int);
            }
        }
        let mut repos: RepoOccurrences = match found {
            Some(j) => log.replace(j, Table::new()),
            None => Table::new(),
        };
        let ghost repos0 = repos;
        proof {
            let so_far = added_for(log0, occ0, name@, seen);
            assert(analysis_view(before).contains_key(msg@) == before@.contains_key(msg@));
            assert(so_far.contains_key(msg@) == log0.contains_key(msg@));
            if found is Some {
                assert(repos0 == before@[msg@]);
                assert(analysis_view(before)[msg@] == occurrences_view(before@[msg@]));
                assert(so_far[msg@] == log0[msg@]);
            }
            assert(occurrences_view(repos0) =~= repos_of(log0, msg@));
        }
        let slot = repos.find(name);
        proof {
            if let Some(k) = slot {
                crate::table::lemma_map_of_at(repos.keys(), repos.values(), k as int);
            }
        }
        let mut di: Diff<Finds> = match slot {
            Some(k) => repos.replace(k, Diff { result_a: Finds::new(), result_b: Finds::new() }),
            None => Diff { result_a: Finds::new(), result_b: Finds::new() },
        };
        let ghost di0 = di;
        proof {
            assert(occurrences_view(repos0).contains_key(name@) == repos0@.contains_key(name@));
            if slot is Some {
                assert(di0 == repos0@[name@]);
                assert(occurrences_view(repos0)[name@].result_a == di0.result_a@);
                assert(occurrences_view(repos0)[name@].result_b == di0.result_b@);
            }
            assert(di0.result_a@ == prior(log0, msg@, name@).result_a);
            assert(di0.result_b@ == prior(log0, msg@, name@).result_b);
        }
        di.result_a.absorb(&d.result_a);
        di.result_b.absorb(&d.result_b);
        repos.insert(name.clone(), di);
        assert(repos@ =~= repos0@.insert(name@, di));
        log.insert(msg.clone(), repos);
        assert(log@ =~= before@.insert(msg@, repos));
        proof {
            let target = added(log0, occ0, name@)[msg@];
            assert(occ0.contains_key(msg@));
            assert(occ0[msg@].result_a == d.result_a@);
            assert(occ0[msg@].result_b == d.result_b@);
            assert(occurrences_view(repos) =~= target);
            assert(analysis_view(*log) =~= analysis_view(before).insert(msg@, target));
            assert(added_for(log0, occ0, name@, grown) =~= added_for(log0, occ0, name@, seen).insert(
                msg@,
                target,
            ));
        }
        i += 1;
    }
    proof {
        assert(occ.keys().take(n as int) =~= occ.keys());
        assert(analysis_view(*log) =~= added(log0, occ0, name@));
    }
}

impl Report {
    /// A report without any repository.
    pub fn new() -> (r: Report)
        ensures
            r.stdout@ == Map::<Seq<char>, OutDiffs>::empty(),
            analysis_view(r.err_log) == Map::<Seq<char>, OccurrencesView>::empty(),
            analysis_view(r.wrn_log) == Map::<Seq<char>, OccurrencesView>::empty(),
            analysis_view(r.trc_log) == Map::<Seq<char>, OccurrencesView>::empty(),
    {
        let r = Report { stdout: Table::new(), err_log: Table::new(), wrn_log: Table::new(), trc_log: Table::new() };
        assert(analysis_view(r.err_log) =~= Map::<Seq<char>, OccurrencesView>::empty());
        assert(analysis_view(r.wrn_log) =~= Map::<Seq<char>, OccurrencesView>::empty());
        assert(analysis_view(r.trc_log) =~= Map::<Seq<char>, OccurrencesView>::empty());
        r
    }

    /// Adds the result of the repository `name`.  Each log gains the
    /// positions of the result under its messages; the repository is
    /// entered among the standard outputs without any pair, a result
    /// holding none.
    pub fn add(&mut self, diff_result: DiffResult, name: String)
        ensures
            analysis_view(final(self).err_log) == added(
                analysis_view(old(self).err_log),
                diff_result@.err_diff,
                name@,
            ),
            analysis_view(final(self).wrn_log) == added(
                analysis_view(old(self).wrn_log),
                diff_result@.wrn_diff,
                name@,
            ),
            analysis_view(final(self).trc_log) == added(
                analysis_view(old(self).trc_log),
                diff_result@.trc_diff,
                name@,
            ),
            final(self).stdout@.dom() == old(self).stdout@.dom().insert(name@),
            final(self).stdout@[name@]@ == Set::<(Seq<char>, Seq<char>)>::empty(),
            forall|k: Seq<char>|
                k != name@ && old(self).stdout@.contains_key(k) ==> final(self).stdout@[k] == old(
                    self,
                ).stdout@[k],
    {
        propagate(&mut self.err_log, &diff_result.err_diff, &name);
        propagate(&mut self.wrn_log, &diff_result.wrn_diff, &name);
        propagate(&mut self.trc_log, &diff_result.trc_diff, &name);
        let ghost before = self.stdout@;
        self.stdout.insert(name, OutDiffs::new());
        assert(self.stdout@.dom() =~= before.dom().insert(name@));
    }
}

/// One line of a report that is shown.
#[derive(Debug)]
pub enum ReportLine {
    /// The standard outputs of the two parsers differed somewhere.
    StdoutWarning,
    /// The heading of the standard outputs.
    StdoutHeading,
    /// A repository with the number of its distinct pairs of standard
    /// outputs.
    StdoutCount { repo: String, count: usize },
    /// A repository with its pairs of standard outputs.
    StdoutDetail { repo: String, diffs: OutDiffs },
    /// The heading of the messages of one severity.
    Heading(Severity),
    /// A message; the lines of its repositories follow.
    MessageHeading(Message),
    /// A repository with the number of positions on each side.
    Sizes { repo: String, a: usize, b: usize },
    /// A repository with the positions on each side.
    Positions { repo: String, diff: Diff<Finds> },
}

/// The mathematical side of a `ReportLine`.
pub enum ReportLineView {
    StdoutWarning,
    StdoutHeading,
    StdoutCount { repo: Seq<char>, count: nat },
    StdoutDetail { repo: Seq<char>, diffs: Set<(Seq<char>, Seq<char>)> },
    Heading(Severity),
    MessageHeading(Seq<char>),
    Sizes { repo: Seq<char>, a: nat, b: nat },
    Positions { repo: Seq<char>, result_a: Set<Seq<char>>, result_b: Set<Seq<char>> },
}

impl View for ReportLine {
    type V = ReportLineView;

    open spec fn view(&self) -> ReportLineView {
        match *self {
            ReportLine::StdoutWarning => ReportLineView::StdoutWarning,
            ReportLine::StdoutHeading => ReportLineView::StdoutHeading,
            ReportLine::StdoutCount { repo, count } => ReportLineView::StdoutCount {
                repo: repo@,
                count: count as nat,
            },
            ReportLine::StdoutDetail { repo, diffs } => ReportLineView::StdoutDetail {
                repo: repo@,
                diffs: diffs@,
            },
            ReportLine::Heading(severity) => ReportLineView::Heading(severity),
            ReportLine::MessageHeading(m) => ReportLineView::MessageHeading(m@),
            ReportLine::Sizes { repo, a, b } => ReportLineView::Sizes { repo: repo@, a: a as nat, b: b as nat },
            ReportLine::Positions { repo, diff } => ReportLineView::Positions {
                repo: repo@,
                result_a: diff.result_a@,
                result_b: diff.result_b@,
            },
        }
    }
}

/// The views of a sequence of lines.
pub open spec fn line_views(lines: Seq<ReportLine>) -> Seq<ReportLineView> {
    Seq::new(lines.len(), |i: int| lines[i]@)
}

/// The line of one repository under a message: the positions themselves
/// where everything is shown, and their numbers otherwise.
pub open spec fn repo_line(detailed: bool, repo: Seq<char>, d: Diff<Finds>) -> ReportLineView {
    if detailed {
        ReportLineView::Positions { repo, result_a: d.result_a@, result_b: d.result_b@ }
    } else {
        ReportLineView::Sizes { repo, a: d.result_a@.len(), b: d.result_b@.len() }
    }
}

/// The lines of the first `upto` repositories of a message.
pub open spec fn repo_lines(detailed: bool, repos: RepoOccurrences, upto: int) -> Seq<ReportLineView> {
    Seq::new(upto as nat, |i: int| repo_line(detailed, repos.keys()[i], repos.values()[i]))
}

/// The lines of a message: its heading, then one line for each of its
/// repositories.
pub open spec fn message_lines(detailed: bool, m: Seq<char>, repos: RepoOccurrences) -> Seq<ReportLineView> {
    seq![ReportLineView::MessageHeading(m)] + repo_lines(detailed, repos, repos.keys().len() as int)
}

/// The lines of the first `upto` messages of a log.
pub open spec fn log_body(detailed: bool, log: MessageAnalysis, upto: int) -> Seq<ReportLineView>
    decreases upto,
{
    if upto <= 0 {
        Seq::<ReportLineView>::empty()
    } else {
        log_body(detailed, log, upto - 1) + message_lines(
            detailed,
            log.keys()[upto - 1],
            log.values()[upto - 1],
        )
    }
}

/// Whether one of the first `upto` messages of a log has a repository.
pub open spec fn log_has_content(log: MessageAnalysis, upto: int) -> bool {
    exists|i: int| 0 <= i < upto && (#[trigger] log.values()[i]).keys().len() > 0
}

/// The lines of a log: the heading of its severity, if a message has a
/// repository, and then the lines of every message.
pub open spec fn log_lines(detailed: bool, severity: Severity, log: MessageAnalysis) -> Seq<ReportLineView> {
    (if log_has_content(log, log.keys().len() as int) {
        seq![ReportLineView::Heading(severity)]
    } else {
        Seq::<ReportLineView>::empty()
    }) + log_body(detailed, log, log.keys().len() as int)
}

/// The line of a repository among the standard outputs.
pub open spec fn stdout_line(detailed: bool, repo: Seq<char>, diffs: OutDiffs) -> ReportLineView {
    if detailed {
        ReportLineView::StdoutDetail { repo, diffs: diffs@ }
    } else {
        ReportLineView::StdoutCount { repo, count: diffs@.len() }
    }
}

/// The lines of the first `upto` repositories among the standard
/// outputs; a repository without a pair has none.
pub open spec fn stdout_body(detailed: bool, stdout: OutAnalysis, upto: int) -> Seq<ReportLineView>
    decreases upto,
{
    if upto <= 0 {
        Seq::<ReportLineView>::empty()
    } else {
        stdout_body(detailed, stdout, upto - 1) + (if stdout.values()[upto - 1].listing().len() > 0 {
            seq![stdout_line(detailed, stdout.keys()[upto - 1], stdout.values()[upto - 1])]
        } else {
            Seq::<ReportLineView>::empty()
        })
    }
}

/// Whether one of the first `upto` repositories has a pair of standard
/// outputs.
pub open spec fn stdout_has_content(stdout: OutAnalysis, upto: int) -> bool {
    exists|i: int| 0 <= i < upto && (#[trigger] stdout.values()[i]).listing().len() > 0
}

/// The lines of the standard outputs: a warning and a heading, if a
/// repository has a pair, and then the lines of the repositories.
pub open spec fn stdout_lines(detailed: bool, stdout: OutAnalysis) -> Seq<ReportLineView> {
    (if stdout_has_content(stdout, stdout.keys().len() as int) {
        seq![ReportLineView::StdoutWarning, ReportLineView::StdoutHeading]
    } else {
        Seq::<ReportLineView>::empty()
    }) + stdout_body(detailed, stdout, stdout.keys().len() as int)
}

/// The lines of a whole report: standard outputs, errors, warnings,
/// traces.  `Auto` is settled by the number of repositories.
pub open spec fn lines_of(report: Report, verbosity: ReportVerbosity) -> Seq<ReportLineView> {
    let detailed = resolved(verbosity, report.stdout.keys().len() as int) == ReportVerbosity::Detailed;
    stdout_lines(detailed, report.stdout) + log_lines(detailed, Severity::Error, report.err_log)
        + log_lines(detailed, Severity::Warning, report.wrn_log) + log_lines(
        detailed,
        Severity::Trace,
        report.trc_log,
    )
}

fn push_stdout_lines(lines: &mut Vec<ReportLine>, detailed: bool, stdout: &OutAnalysis)
    ensures
        line_views(final(lines)@) == line_views(old(lines)@) + stdout_lines(detailed, *stdout),
{
    let ghost start = line_views(lines@);
    let n = stdout.len();
    let mut any = false;
    let mut i: usize = 0;
    while i < n
        invariant
            i <= n,
            n == stdout.keys().len(),
            stdout.wf(),
            any == stdout_has_content(*stdout, i as int),
        decreases n - i,
    {
        let diffs = stdout.value(i);
        if diffs.len() > 0 {
            any = true;
        }
        i += 1;
    }
    if any {
        lines.push(ReportLine::StdoutWarning);
        lines.push(ReportLine::StdoutHeading);
    }
    let ghost head = line_views(lines@);
    assert(head =~= start + (if stdout_has_content(*stdout, n as int) {
        seq![ReportLineView::StdoutWarning, ReportLineView::StdoutHeading]
    } else {
        Seq::<ReportLineView>::empty()
    }));
    let mut i: usize = 0;
    while i < n
        invariant
            i <= n,
            n == stdout.keys().len(),
            stdout.wf(),
            line_views(lines@) == head + stdout_body(detailed, *stdout, i as int),
        decreases n - i,
    {
        let repo = stdout.key(i);
        let diffs = stdout.value(i);
        let ghost before = line_views(lines@);
        let count = diffs.len();
        if count > 0 {
            if detailed {
                lines.push(ReportLine::StdoutDetail { repo: repo.clone(), diffs: diffs.duplicate() });
            } else {
                lines.push(ReportLine::StdoutCount { repo: repo.clone(), count });
            }
            assert(line_views(lines@) =~= before + seq![stdout_line(detailed, repo@, *diffs)]);
        } else {
            assert(line_views(lines@) =~= before + Seq::<ReportLineView>::empty());
        }
        assert(line_views(lines@) =~= head + stdout_body(detailed, *stdout, i as int + 1));
        i += 1;
    }
    assert(line_views(lines@) =~= start + stdout_lines(detailed, *stdout));
}

fn push_message_lines(lines: &mut Vec<ReportLine>, detailed: bool, m: &Message, repos: &RepoOccurrences)
    ensures
        line_views(final(lines)@) == line_views(old(lines)@) + message_lines(detailed, m@, *repos),
{
    let ghost start = line_views(lines@);
    lines.push(ReportLine::MessageHeading(m.clone()));
    let ghost head = line_views(lines@);
    assert(head =~= start + seq![ReportLineView::MessageHeading(m@)]);
    let n = repos.len();
    let mut i: usize = 0;
    assert(line_views(lines@) =~= head + repo_lines(detailed, *repos, 0));
    while i < n
        invariant
            i <= n,
            n == repos.keys().len(),
            repos.wf(),
            line_views(lines@) == head + repo_lines(detailed, *repos, i as int),
        decreases n - i,
    {
        let repo = repos.key(i);
        let d = repos.value(i);
        let ghost before = line_views(lines@);
        if detailed {
            lines.push(
                ReportLine::Positions {
                    repo: repo.clone(),
                    diff: Diff { result_a: d.result_a.duplicate(), result_b: d.result_b.duplicate() },
                },
            );
        } else {
            lines.push(ReportLine::Sizes { repo: repo.clone(), a: d.result_a.len(), b: d.result_b.len() });
        }
        assert(line_views(lines@) =~= before + seq![repo_line(detailed, repo@, *d)]);
        assert(repo_lines(detailed, *repos, i as int + 1) =~= repo_lines(detailed, *repos, i as int) + seq![
            repo_line(detailed, repo@, *d),
        ]);
        assert(line_views(lines@) =~= head + repo_lines(detailed, *repos, i as int + 1));
        i += 1;
    }
    assert(line_views(lines@) =~= start + message_lines(detailed, m@, *repos));
}

fn push_log_lines(lines: &mut Vec<ReportLine>, detailed: bool, severity: Severity, log: &MessageAnalysis)
    ensures
        line_views(final(lines)@) == line_views(old(lines)@) + log_lines(detailed, severity, *log),
{
    let ghost start = line_views(lines@);
    let n = log.len();
    let mut any = false;
    let mut i: usize = 0;
    while i < n
        invariant
            i <= n,
            n == log.keys().len(),
            log.wf(),
            any == log_has_content(*log, i as int),
        decreases n - i,
    {
        let repos = log.value(i);
        if repos.len() > 0 {
            any = true;
        }
        i += 1;
    }
    if any {
        lines.push(ReportLine::Heading(severity));
    }
    let ghost head = line_views(lines@);
    assert(head =~= start + (if log_has_content(*log, n as int) {
        seq![ReportLineView::Heading(severity)]
    } else {
        Seq::<ReportLineView>::empty()
    }));
    let mut i: usize = 0;
    while i < n
        invariant
            i <= n,
            n == log.keys().len(),
            log.wf(),
            line_views(lines@) == head + log_body(detailed, *log, i as int),
        decreases n - i,
    {
        let m = log.key(i);
        let repos = log.value(i);
        let ghost before = line_views(lines@);
        push_message_lines(lines, detailed, m, repos);
        assert(line_views(lines@) =~= head + log_body(detailed, *log, i as int + 1));
        i += 1;
    }
    assert(line_views(lines@) =~= start + log_lines(detailed, severity, *log));
}

/// Lays a report out in lines: the standard outputs first, then the
/// errors, the warnings and the traces.
pub fn report_lines(report: &Report, verbosity: ReportVerbosity) -> (lines: Vec<ReportLine>)
    ensures
        line_views(lines@) == lines_of(*report, verbosity),
{
    let detailed = verbosity.resolve(report.stdout.len()) == ReportVerbosity::Detailed;
    let mut lines: Vec<ReportLine> = Vec::new();
    assert(line_views(lines@) =~= Seq::<ReportLineView>::empty());
    push_stdout_lines(&mut lines, detailed, &report.stdout);
    push_log_lines(&mut lines, detailed, Severity::Error, &report.err_log);
    push_log_lines(&mut lines, detailed, Severity::Warning, &report.wrn_log);
    push_log_lines(&mut lines, detailed, Severity::Trace, &report.trc_log);
    assert(line_views(lines@) =~= lines_of(*report, verbosity));
    lines
}

} // verus!
