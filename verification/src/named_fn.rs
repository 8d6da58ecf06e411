//! Handlers that are known by name. A handler is a tag, so that its name
//! can be read off it; comparing function values would not tell.

use vstd::prelude::*;
use crate::text::same_text;

verus! {

/// One of the two handlers.
#[derive(Clone, Copy, Debug, PartialEq, Eq, Structural)]
pub enum Afn {
    Fn1,
    Fn2,
}

/// The name of a handler.
pub open spec fn fn_name(f: Afn) -> Seq<char> {
    match f {
        Afn::Fn1 => "fn1"@,
        Afn::Fn2 => "fn2"@,
    }
}

/// What a handler reports when it runs.
pub open spec fn fn_report(f: Afn) -> Seq<char> {
    match f {
        Afn::Fn1 => "in fn1"@,
        Afn::Fn2 => "in fn2"@,
    }
}

/// The report of the first handler.
pub fn fn1() -> (report: &'static str)
    ensures
        report@ == fn_report(Afn::Fn1),
{
    "in fn1"
}

/// The report of the second handler.
pub fn fn2() -> (report: &'static str)
    ensures
        report@ == fn_report(Afn::Fn2),
{
    "in fn2"
}

impl Afn {
    /// Runs the handler and gives its report.
    pub fn call(&self) -> (report: &'static str)
        ensures
            report@ == fn_report(*self),
    {
        match self {
            Afn::Fn1 => fn1(),
            Afn::Fn2 => fn2(),
        }
    }
}

/// The handler of the given name. Only the names of the two handlers are
/// accepted.
pub fn str_to_fn(s: &str) -> (f: Afn)
    requires
        s@ == fn_name(Afn::Fn1) || s@ == fn_name(Afn::Fn2),
    ensures
        fn_name(f) == s@,
        s@ == fn_name(Afn::Fn1) ==> f == Afn::Fn1,
        s@ != fn_name(Afn::Fn1) ==> f == Afn::Fn2,
{
    if same_text(s, "fn1") {
        Afn::Fn1
    } else {
        Afn::Fn2
    }
}

/// The name of a handler.
pub fn fn_to_str(f: Afn) -> (name: &'static str)
    ensures
        name@ == fn_name(f),
{
    match f {
        Afn::Fn1 => "fn1",
        Afn::Fn2 => "fn2",
    }
}

/// The two names differ, so a handler's name leads back to that handler
/// and to no other.
pub proof fn lemma_fn_names_differ(f: Afn, g: Afn)
    ensures
        fn_name(f) == fn_name(g) <==> f == g,
{
    reveal_strlit("fn1");
    reveal_strlit("fn2");
    assert("fn1"@[2] == '1');
    assert("fn2"@[2] == '2');
}

} // verus!
