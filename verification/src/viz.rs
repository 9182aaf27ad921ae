//! Which interpreter draws the figures. The script runs as a separate program; what
//! is decided here is which program to try and what its fate means.
use crate::text::reads;
use vstd::prelude::*;

verus! {

/// How an attempt to run an interpreter ended.
pub enum Attempt {
    /// It ran and reported success.
    Succeeded,
    /// It ran and reported a failure.
    Failed,
    /// There is no such program.
    Missing,
}

/// What to do next.
#[derive(PartialEq, Eq, Structural)]
pub enum Action {
    /// Run the interpreter of this number.
    Run(usize),
    /// The figures are drawn.
    Done,
    /// Say how the interpreter of this number ended, and stop.
    ReportFailure(usize),
    /// Say that no interpreter was found, and stop.
    ReportMissing,
}

/// How many interpreters there are to try.
pub open spec fn candidates() -> int {
    3
}

/// The interpreters in the order in which they are tried.
pub open spec fn candidate(k: int) -> Seq<char> {
    if k == 0 {
        "python3"@
    } else if k == 1 {
        "python"@
    } else {
        "py"@
    }
}

/// The name of an interpreter.
pub fn interpreter(k: usize) -> (r: &'static str)
    requires
        k < candidates(),
    ensures
        r@ == candidate(k as int),
{
    if k == 0 {
        "python3"
    } else if k == 1 {
        "python"
    } else {
        "py"
    }
}

/// What follows the attempt to run the interpreter number `k`: only a missing one
/// makes way for the next.
pub fn after_attempt(k: usize, attempt: Attempt) -> (r: Action)
    requires
        k < candidates(),
    ensures
        r == match attempt {
            Attempt::Succeeded => Action::Done,
            Attempt::Failed => Action::ReportFailure(k),
            Attempt::Missing => if k + 1 < candidates() {
                Action::Run((k + 1) as usize)
            } else {
                Action::ReportMissing
            },
        },
{
    match attempt {
        Attempt::Succeeded => Action::Done,
        Attempt::Failed => Action::ReportFailure(k),
        Attempt::Missing => if k + 1 < 3 {
            Action::Run(k + 1)
        } else {
            Action::ReportMissing
        },
    }
}

/// The arguments of the script: the output directory, and a flag to show the figures.
pub fn arguments(outdir: &String, show: bool) -> (r: Vec<String>)
    ensures
        r@.len() == if show {
            2int
        } else {
            1
        },
        r@[0]@ == outdir@,
        show ==> r@[1]@ == "--show"@,
{
    let mut args: Vec<String> = Vec::new();
    args.push(outdir.clone());
    if show {
        args.push("--show".to_owned());
    }
    args
}

/// Whether a view setting asks for figures at all.
pub fn wants_figures(view: &String) -> (r: bool)
    ensures
        r == (view@ != "none"@),
{
    !reads(view, "none")
}

/// Whether a view setting asks to show the figures.
pub fn wants_show(view: &String) -> (r: bool)
    ensures
        r == (view@ == "show"@),
{
    reads(view, "show")
}

} // verus!
