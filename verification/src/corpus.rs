//! The rules by which a corpus is walked and the parsers are run over it.

use crate::diffing::{ParserDiff, ParserDiffView};
use crate::differ::DiffError;
use crate::text::chars_of;
use vstd::prelude::*;

verus! {

/// How many files are compared at the same time at most.
pub const MAX_IN_FLIGHT: usize = 10;

/// What the name of a corpus file ends in.
pub open spec fn extension() -> Seq<char> {
    ".nix"@
}

/// Whether a file of this name belongs to the corpus.
pub open spec fn is_corpus_name(name: Seq<char>) -> bool {
    name.len() >= extension().len() && name.subrange(name.len() - extension().len(), name.len() as int)
        == extension()
}

/// Whether a file of this name belongs to the corpus: its name ends in
/// `.nix`.
pub fn is_nix_file(name: &str) -> (b: bool)
    ensures
        b == is_corpus_name(name@),
{
    proof {
        reveal_strlit(".nix");
    }
    let chars = chars_of(name);
    let n = chars.len();
    if n < 4 {
        return false;
    }
    let b = chars[n - 4] == '.' && chars[n - 3] == 'n' && chars[n - 2] == 'i' && chars[n - 1] == 'x';
    proof {
        let tail = name@.subrange(n - 4, n as int);
        assert(tail[0] == name@[n - 4] && tail[1] == name@[n - 3] && tail[2] == name@[n - 2] && tail[3]
            == name@[n - 1]);
        if b {
            assert(tail =~= extension());
        }
    }
    b
}

/// The name under which a parser is started, whatever its binary is
/// called.
pub fn program_name() -> (name: &'static str)
    ensures
        name@ == "nix-instantiate"@,
{
    "nix-instantiate"
}

/// The arguments with which a parser is started on `file`.
pub open spec fn arguments_for(file: Seq<char>) -> Seq<Seq<char>> {
    seq!["--parse"@, "--log-format"@, "internal-json"@, file]
}

/// The arguments with which a parser is started on `file`.
pub fn parser_arguments(file: &str) -> (args: Vec<String>)
    ensures
        args@.len() == 4,
        forall|i: int| 0 <= i < 4 ==> (#[trigger] args@[i])@ == arguments_for(file@)[i],
{
    let mut args: Vec<String> = Vec::new();
    args.push("--parse".to_owned());
    args.push("--log-format".to_owned());
    args.push("internal-json".to_owned());
    args.push(file.to_owned());
    args
}

/// The record that the comparison of one file leaves for the aggregate:
/// none where the parsers agreed, and none where the comparison failed.
pub open spec fn kept(outcome: Result<Option<ParserDiff>, DiffError>) -> Option<ParserDiff> {
    match outcome {
        Ok(Some(d)) => Some(d),
        _ => None,
    }
}

/// The records that the first `upto` outcomes leave, in their order.
pub open spec fn survivors(outcomes: Seq<Result<Option<ParserDiff>, DiffError>>, upto: int) -> Seq<
    ParserDiffView,
>
    decreases upto,
{
    if upto <= 0 {
        Seq::<ParserDiffView>::empty()
    } else {
        match kept(outcomes[upto - 1]) {
            Some(d) => survivors(outcomes, upto - 1).push(d@),
            None => survivors(outcomes, upto - 1),
        }
    }
}

/// Keeps the records of the files on which the parsers disagreed.  A
/// file whose comparison failed is dropped like one on which the parsers
/// agreed: no failure of a single file fails the run.
pub fn surviving(outcomes: Vec<Result<Option<ParserDiff>, DiffError>>) -> (diffs: Vec<ParserDiff>)
    ensures
        crate::aggregate::diff_views(diffs@) == survivors(outcomes@, outcomes@.len() as int),
{
    let mut diffs: Vec<ParserDiff> = Vec::new();
    assert(crate::aggregate::diff_views(diffs@) =~= survivors(outcomes@, 0));
    for outcome in it: outcomes
        invariant
            it.seq() == outcomes@,
            crate::aggregate::diff_views(diffs@) == survivors(outcomes@, it.index() as int),
    {
        let ghost before = crate::aggregate::diff_views(diffs@);
        match outcome {
            Ok(Some(d)) => {
                diffs.push(d);
                assert(crate::aggregate::diff_views(diffs@) =~= before.push(d@));
            },
            _ => {},
        }
    }
    diffs
}

} // verus!
