//! The sets of sources that a corpus can be gathered from.

use crate::text::same_text;
use vstd::prelude::*;

verus! {

/// Where source files come from.
#[derive(Clone, Copy, PartialEq, Eq, Structural, Debug)]
pub enum SourceSet {
    /// The Nixpkgs repository.
    Nixpkgs,
    /// All NUR repositories.
    Nur,
    /// All GitHub repositories with a flake.
    Github,
}

/// The name under which a source set is shown.
pub open spec fn shown_as(set: SourceSet) -> Seq<char> {
    match set {
        SourceSet::Nixpkgs => "Nixpkgs"@,
        SourceSet::Nur => "NUR"@,
        SourceSet::Github => "Github"@,
    }
}

/// The source set that a word of the command line names.
pub open spec fn named_by(word: Seq<char>) -> Option<SourceSet> {
    if word == "nixpkgs"@ {
        Some(SourceSet::Nixpkgs)
    } else if word == "nur"@ {
        Some(SourceSet::Nur)
    } else if word == "github"@ {
        Some(SourceSet::Github)
    } else {
        None
    }
}

impl SourceSet {
    pub fn as_str(&self) -> (name: &'static str)
        ensures
            name@ == shown_as(*self),
    {
        match self {
            SourceSet::Nixpkgs => "Nixpkgs",
            SourceSet::Nur => "NUR",
            SourceSet::Github => "Github",
        }
    }

    /// Reads the name of a source set as it is written on the command
    /// line, in lower case.
    pub fn from_str(s: &str) -> (r: Result<SourceSet, ()>)
        ensures
            match r {
                Ok(set) => named_by(s@) == Some(set),
                Err(_) => named_by(s@) is None,
            },
    {
        if same_text(s, "nixpkgs") {
            Ok(SourceSet::Nixpkgs)
        } else if same_text(s, "nur") {
            Ok(SourceSet::Nur)
        } else if same_text(s, "github") {
            Ok(SourceSet::Github)
        } else {
            Err(())
        }
    }
}

} // verus!
