//! Comparing what two parsers did with one file.

use crate::complog::{CompLog, LogView};
use crate::diffing::{diff_of, facet_view, Diff, ErrLog, ParserDiff, ParserDiffView, TraceLog, WarnLog};
use crate::parsing::{logs_of, split_stderr, LogError, LogErrorView};
use crate::text::{bytes_equal, lemma_same_bytes_same_text, text_of_bytes};
use vstd::prelude::*;
use vstd::utf8::{decode_utf8, encode_utf8, valid_utf8};

verus! {

/// How a parser process ended.
#[derive(Clone, Copy, PartialEq, Eq, Structural, Debug)]
pub struct ExitState {
    /// Whether the process reported success.
    pub success: bool,
    /// Its exit code; none where a signal ended it.
    pub code: Option<i32>,
}

/// What one parser run left behind.
#[derive(Debug)]
pub struct RunOutput {
    pub status: ExitState,
    pub stdout: Vec<u8>,
    pub stderr: Vec<u8>,
}

/// The mathematical side of a `RunOutput`.
pub struct RunOutputView {
    pub status: ExitState,
    pub stdout: Seq<u8>,
    pub stderr: Seq<u8>,
}

impl View for RunOutput {
    type V = RunOutputView;

    open spec fn view(&self) -> RunOutputView {
        RunOutputView { status: self.status, stdout: self.stdout@, stderr: self.stderr@ }
    }
}

/// One of the two streams that a parser writes.
#[derive(Clone, Copy, PartialEq, Eq, Structural, Debug)]
pub enum Channel {
    Stdout,
    Stderr,
}

/// Why two runs could not be compared.
#[derive(Debug)]
pub enum DiffError {
    /// A parser could not be started; what the system said of it is
    /// kept.
    SpawnFailed(String),
    /// A stream that has to be read as text is not valid UTF-8.
    EncodingError(Channel),
    /// A standard error does not follow the protocol.
    ProtocolViolation(LogError),
}

/// The mathematical side of a `DiffError`.
pub enum DiffErrorView {
    SpawnFailed(Seq<char>),
    EncodingError(Channel),
    ProtocolViolation(LogErrorView),
}

impl View for DiffError {
    type V = DiffErrorView;

    open spec fn view(&self) -> DiffErrorView {
        match *self {
            DiffError::SpawnFailed(why) => DiffErrorView::SpawnFailed(why@),
            DiffError::EncodingError(c) => DiffErrorView::EncodingError(c),
            DiffError::ProtocolViolation(e) => DiffErrorView::ProtocolViolation(e@),
        }
    }
}

/// The difference of two logs of one severity, if they differ.
pub open spec fn facet(a: LogView, b: LogView) -> Option<Diff<LogView>> {
    if a == b {
        None
    } else {
        Some(diff_of(a, b))
    }
}

/// The three log facets of two standard errors: none where the streams
/// are the same bytes; otherwise both are read, and each severity gives a
/// facet where its two logs differ.
pub open spec fn stderr_diffs(a: Seq<u8>, b: Seq<u8>, file: Seq<char>) -> Result<
    (Option<Diff<LogView>>, Option<Diff<LogView>>, Option<Diff<LogView>>),
    LogErrorView,
> {
    if a == b {
        Ok((None, None, None))
    } else {
        match logs_of(a, file) {
            Err(e) => Err(e),
            Ok(of_a) => match logs_of(b, file) {
                Err(e) => Err(e),
                Ok(of_b) => Ok((facet(of_a.0, of_b.0), facet(of_a.1, of_b.1), facet(of_a.2, of_b.2))),
            },
        }
    }
}

/// The view of three log facets, or of the error in their place.
pub open spec fn facets_view(
    r: Result<(Option<Diff<ErrLog>>, Option<Diff<WarnLog>>, Option<Diff<TraceLog>>), LogError>,
) -> Result<(Option<Diff<LogView>>, Option<Diff<LogView>>, Option<Diff<LogView>>), LogErrorView> {
    match r {
        Ok((e, w, t)) => Ok((facet_view(e), facet_view(w), facet_view(t))),
        Err(e) => Err(e@),
    }
}

fn log_facet(a: CompLog, b: CompLog) -> (d: Option<Diff<CompLog>>)
    ensures
        facet_view(d) == facet(a@, b@),
{
    if a.same(&b) {
        None
    } else {
        Some(Diff::from(a, b))
    }
}

/// Compares the standard errors of the two parsers, severity by
/// severity.
pub fn diff_stderr(err_a: String, err_b: String, file: &str) -> (r: Result<
    (Option<Diff<ErrLog>>, Option<Diff<WarnLog>>, Option<Diff<TraceLog>>),
    LogError,
>)
    ensures
        facets_view(r) == stderr_diffs(encode_utf8(err_a@), encode_utf8(err_b@), file@),
{
    proof {
        lemma_same_bytes_same_text(err_a@, err_b@);
    }
    if err_a != err_b {
        let (err_a, wrn_a, trc_a) = match split_stderr(err_a, file) {
            Ok(logs) => logs,
            Err(e) => {
                return Err(e);
            },
        };
        let (err_b, wrn_b, trc_b) = match split_stderr(err_b, file) {
            Ok(logs) => logs,
            Err(e) => {
                return Err(e);
            },
        };
        Ok((log_facet(err_a, err_b), log_facet(wrn_a, wrn_b), log_facet(trc_a, trc_b)))
    } else {
        Ok((None, None, None))
    }
}

/// The two success flags, where they differ.
pub open spec fn pass_facet(a: ExitState, b: ExitState) -> Option<Diff<bool>> {
    if a.success != b.success {
        Some(Diff { result_a: a.success, result_b: b.success })
    } else {
        None
    }
}

/// The two exit codes, where the ends of the two processes differ.
pub open spec fn exit_facet(a: ExitState, b: ExitState) -> Option<Diff<Option<i32>>> {
    if a != b {
        Some(Diff { result_a: a.code, result_b: b.code })
    } else {
        None
    }
}

/// The two standard outputs as text, where their bytes differ.
pub open spec fn stdout_facet(a: Seq<u8>, b: Seq<u8>) -> Option<Diff<Seq<char>>> {
    if a != b {
        Some(Diff { result_a: decode_utf8(a), result_b: decode_utf8(b) })
    } else {
        None
    }
}

/// What comparing two runs on `file` gives.
///
/// Runs that agree byte for byte give no record.  Otherwise both
/// standard errors have to be text and to follow the protocol, and
/// standard outputs that differ have to be text; then each facet stands
/// in the record exactly where the runs disagree on it.
pub open spec fn compared(a: RunOutputView, b: RunOutputView, file: Seq<char>) -> Result<
    Option<ParserDiffView>,
    DiffErrorView,
> {
    if a.status == b.status && a.stdout == b.stdout && a.stderr == b.stderr {
        Ok(None)
    } else if !valid_utf8(a.stderr) || !valid_utf8(b.stderr) {
        Err(DiffErrorView::EncodingError(Channel::Stderr))
    } else {
        match stderr_diffs(a.stderr, b.stderr, file) {
            Err(e) => Err(DiffErrorView::ProtocolViolation(e)),
            Ok((err_eq, warn_eq, trace_eq)) => if a.stdout != b.stdout && !(valid_utf8(a.stdout)
                && valid_utf8(b.stdout)) {
                Err(DiffErrorView::EncodingError(Channel::Stdout))
            } else {
                Ok(
                    Some(
                        ParserDiffView {
                            pass_eq: pass_facet(a.status, b.status),
                            exit_eq: exit_facet(a.status, b.status),
                            stdout_eq: stdout_facet(a.stdout, b.stdout),
                            err_eq,
                            warn_eq,
                            trace_eq,
                        },
                    ),
                )
            },
        }
    }
}

/// The view of what a comparison gave.
pub open spec fn compared_view(r: Result<Option<ParserDiff>, DiffError>) -> Result<
    Option<ParserDiffView>,
    DiffErrorView,
> {
    match r {
        Ok(Some(d)) => Ok(Some(d@)),
        Ok(None) => Ok(None),
        Err(e) => Err(e@),
    }
}

/// Runs that agree byte for byte in status, standard output and standard
/// error give no record.
pub proof fn lemma_equal_runs_give_none(a: RunOutputView, b: RunOutputView, file: Seq<char>)
    requires
        a.status == b.status,
        a.stdout == b.stdout,
        a.stderr == b.stderr,
    ensures
        compared(a, b, file) == Ok::<Option<ParserDiffView>, DiffErrorView>(None),
{
}

/// In the record of two runs each facet is there exactly where the runs
/// differ in what the facet is about: the success flags, the ends of the
/// processes, the bytes of the standard outputs, and, for each severity,
/// the logs read from standard errors that differ.
pub proof fn lemma_facets_follow_the_outputs(a: RunOutputView, b: RunOutputView, file: Seq<char>)
    ensures
        match compared(a, b, file) {
            Ok(Some(d)) => {
                &&& d.pass_eq is Some <==> a.status.success != b.status.success
                &&& d.exit_eq is Some <==> a.status != b.status
                &&& d.stdout_eq is Some <==> a.stdout != b.stdout
                &&& a.stderr == b.stderr ==> d.err_eq is None && d.warn_eq is None && d.trace_eq is None
                &&& a.stderr != b.stderr ==> (match (logs_of(a.stderr, file), logs_of(b.stderr, file)) {
                    (Ok(of_a), Ok(of_b)) => {
                        &&& d.err_eq is Some <==> of_a.0 != of_b.0
                        &&& d.warn_eq is Some <==> of_a.1 != of_b.1
                        &&& d.trace_eq is Some <==> of_a.2 != of_b.2
                    },
                    _ => false,
                })
            },
            _ => true,
        },
{
}

/// Compares two runs of the parsers on `file`.
pub fn diff_outputs(a: RunOutput, b: RunOutput, file: &str) -> (r: Result<Option<ParserDiff>, DiffError>)
    ensures
        compared_view(r) == compared(a@, b@, file@),
{
    let same_status = a.status == b.status;
    let same_stdout = bytes_equal(a.stdout.as_slice(), b.stdout.as_slice());
    let same_stderr = bytes_equal(a.stderr.as_slice(), b.stderr.as_slice());
    if same_status && same_stdout && same_stderr {
        return Ok(None);
    }
    let status_a = a.status;
    let status_b = b.status;
    let ghost view_a = a@;
    let ghost view_b = b@;
    let err_a = match text_of_bytes(a.stderr) {
        Some(text) => text,
        None => {
            return Err(DiffError::EncodingError(Channel::Stderr));
        },
    };
    let err_b = match text_of_bytes(b.stderr) {
        Some(text) => text,
        None => {
            return Err(DiffError::EncodingError(Channel::Stderr));
        },
    };
    proof {
        vstd::utf8::decode_utf8_encode_utf8(view_a.stderr);
        vstd::utf8::decode_utf8_encode_utf8(view_b.stderr);
    }
    let (err_eq, warn_eq, trace_eq) = match diff_stderr(err_a, err_b, file) {
        Ok(facets) => facets,
        Err(e) => {
            return Err(DiffError::ProtocolViolation(e));
        },
    };
    let stdout_eq = if same_stdout {
        None
    } else {
        let out_a = match text_of_bytes(a.stdout) {
            Some(text) => text,
            None => {
                return Err(DiffError::EncodingError(Channel::Stdout));
            },
        };
        let out_b = match text_of_bytes(b.stdout) {
            Some(text) => text,
            None => {
                return Err(DiffError::EncodingError(Channel::Stdout));
            },
        };
        Some(Diff { result_a: out_a, result_b: out_b })
    };
    let pass_eq = if status_a.success != status_b.success {
        Some(Diff { result_a: status_a.success, result_b: status_b.success })
    } else {
        None
    };
    let exit_eq = if same_status {
        None
    } else {
        Some(Diff { result_a: status_a.code, result_b: status_b.code })
    };
    Ok(Some(ParserDiff { pass_eq, exit_eq, stdout_eq, err_eq, warn_eq, trace_eq }))
}

} // verus!
