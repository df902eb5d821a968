//! Collecting the failures of several steps under one heading.

use crate::text::{centered, centered_text, dashes, decimal, decimal_text, repeated};
use vstd::prelude::*;
use vstd::string::StringExecFns;

verus! {

/// One thing that went wrong: a plain description, or a whole group of
/// failures of a step of its own.
#[derive(Debug)]
pub enum Failure {
    Message(String),
    Group(ErrorGroup),
}

/// Failures under a common heading, in the order in which they were added.
#[derive(Debug)]
pub struct ErrorGroup {
    pub msg: String,
    pub errors: Vec<Failure>,
}

impl ErrorGroup {
    /// An empty group with the heading `msg`.
    pub fn from(msg: String) -> (group: ErrorGroup)
        ensures
            group.msg == msg,
            group.errors@ == Seq::<Failure>::empty(),
    {
        ErrorGroup { msg, errors: Vec::new() }
    }

    /// Puts `error` behind the failures that the group holds.
    pub fn add(&mut self, error: Failure)
        ensures
            final(self).msg == old(self).msg,
            final(self).errors@ == old(self).errors@.push(error),
    {
        self.errors.push(error)
    }

    /// Whether the group holds any failure.
    pub fn has_content(&self) -> (b: bool)
        ensures
            b == (self.errors@.len() > 0),
    {
        self.errors.len() > 0
    }

    /// Hands this group to `group` as one of its failures, unless this
    /// group is empty: then `group` stays as it is.
    pub fn add_error_to(self, group: &mut ErrorGroup) -> (out: &mut ErrorGroup)
        ensures
            out.msg == old(group).msg,
            out.errors@ == (if self.errors@.len() > 0 {
                old(group).errors@.push(Failure::Group(self))
            } else {
                old(group).errors@
            }),
            *final(group) == *final(out),
    {
        if self.has_content() {
            group.add(Failure::Group(self));
        }
        group
    }

    /// `Ok` for an empty group, and the group itself as the error
    /// otherwise.
    pub fn to_result(self) -> (r: Result<(), ErrorGroup>)
        ensures
            r == (if self.errors@.len() > 0 {
                Err::<(), ErrorGroup>(self)
            } else {
                Ok::<(), ErrorGroup>(())
            }),
    {
        if self.has_content() {
            Err(self)
        } else {
            Ok(())
        }
    }
}

/// Results whose failure can be handed to a group.
pub trait AddErrorResult<T>: Sized {
    /// The result that is handed over.
    spec fn outcome(self) -> Result<T, Failure>;

    /// Passes a success on and leaves `group` as it is; puts a failure
    /// behind the failures of `group` and hands the group back in its
    /// place.
    fn add_error_to(self, group: &mut ErrorGroup) -> (r: Result<T, &mut ErrorGroup>)
        ensures
            match self.outcome() {
                Ok(t) => r matches Ok(u) && u == t && *final(group) == *old(group),
                Err(e) => r matches Err(out) && out.msg == old(group).msg && out.errors@ == old(
                    group,
                ).errors@.push(e) && *final(group) == *final(out),
            },
    ;
}

impl<T> AddErrorResult<T> for Result<T, Failure> {
    open spec fn outcome(self) -> Result<T, Failure> {
        self
    }

    fn add_error_to(self, group: &mut ErrorGroup) -> (r: Result<T, &mut ErrorGroup>) {
        match self {
            Ok(t) => Ok(t),
            Err(e) => {
                group.add(e);
                Err(group)
            },
        }
    }
}

/// Failures that can be handed to a group.
pub trait AddError: Sized {
    /// The failure that is handed over.
    spec fn failure(self) -> Failure;

    /// Puts the failure behind the failures of `group`.
    fn add_error_to(self, group: &mut ErrorGroup) -> (out: &mut ErrorGroup)
        ensures
            out.msg == old(group).msg,
            out.errors@ == old(group).errors@.push(self.failure()),
            *final(group) == *final(out),
    ;
}

impl AddError for Failure {
    open spec fn failure(self) -> Failure {
        self
    }

    fn add_error_to(self, group: &mut ErrorGroup) -> (out: &mut ErrorGroup) {
        group.add(self);
        group
    }
}

impl AddError for String {
    open spec fn failure(self) -> Failure {
        Failure::Message(self)
    }

    fn add_error_to(self, group: &mut ErrorGroup) -> (out: &mut ErrorGroup) {
        group.add(Failure::Message(self));
        group
    }
}

/// How wide the rules and the numbered headings of a shown group are.
pub const RULE_WIDTH: usize = 40;

/// The heading of the failure with the number `number`: the number in
/// the middle of a rule.
pub open spec fn item_heading(number: nat) -> Seq<char> {
    "  +"@ + centered(decimal(number), RULE_WIDTH as nat) + "\n"@ + "  | "@
}

/// A failure as text: a description as it is, a group as it is shown.
pub open spec fn failure_text(f: Failure) -> Seq<char>
    decreases f,
{
    match f {
        Failure::Message(m) => m@,
        Failure::Group(g) => group_text(g),
    }
}

/// The first `upto` failures as text, each under its numbered heading
/// and on a line of its own.
pub open spec fn items_text(errors: Vec<Failure>, upto: int) -> Seq<char>
    decreases errors, upto,
{
    if upto <= 0 || upto > errors@.len() {
        Seq::<char>::empty()
    } else {
        items_text(errors, upto - 1) + item_heading(upto as nat) + failure_text(errors@[upto - 1])
            + "\n"@
    }
}

/// A group as it is shown: its heading, a rule, its failures with their
/// numbers, and a closing rule.
pub open spec fn group_text(g: ErrorGroup) -> Seq<char>
    decreases g,
{
    "ErrorGroup("@ + g.msg@ + "):\n"@ + "+-+"@ + repeated('-', RULE_WIDTH as nat) + "\n"@ + items_text(
        g.errors,
        g.errors@.len() as int,
    ) + "  +"@ + repeated('-', RULE_WIDTH as nat)
}

impl Failure {
    /// The failure as text.
    pub fn to_text(&self) -> (text: String)
        ensures
            text@ == failure_text(*self),
        decreases self,
    {
        match self {
            Failure::Message(m) => m.clone(),
            Failure::Group(g) => g.to_text(),
        }
    }
}

impl ErrorGroup {
    /// The group as it is shown.
    pub fn to_text(&self) -> (text: String)
        ensures
            text@ == group_text(*self),
        decreases self,
    {
        let mut text = "ErrorGroup(".to_owned();
        text.append(self.msg.as_str());
        text.append("):\n");
        text.append("+-+");
        text.append(dashes(RULE_WIDTH).as_str());
        text.append("\n");
        let ghost head = text@;
        let n = self.errors.len();
        let mut i: usize = 0;
        assert(text@ =~= head + items_text(self.errors, 0));
        while i < n
            invariant
                i <= n,
                n == self.errors@.len(),
                text@ == head + items_text(self.errors, i as int),
            decreases n - i,
        {
            let ghost before = text@;
            text.append("  +");
            text.append(centered_text(decimal_text(i + 1).as_str(), RULE_WIDTH).as_str());
            text.append("\n");
            text.append("  | ");
            text.append(self.errors[i].to_text().as_str());
            text.append("\n");
            assert(text@ =~= before + item_heading((i + 1) as nat) + failure_text(self.errors@[i as int])
                + "\n"@);
            assert(text@ =~= head + items_text(self.errors, i as int + 1));
            i += 1;
        }
        text.append("  +");
        text.append(dashes(RULE_WIDTH).as_str());
        assert(text@ =~= group_text(*self));
        text
    }
}

} // verus!
