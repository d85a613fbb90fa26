//! Process ids and the application names they are recorded with.
use vstd::prelude::*;

use crate::text::{before_char, text_before};

verus! {

/// A process id, tagged with the kind of application that owns it.
#[derive(Debug, Hash, PartialEq, Eq, Structural)]
pub enum PidType {
    SimpApp(u32),
    MsgApp(u32),
}

impl PidType {
    /// The process id, whichever kind of application owns it.
    pub open spec fn pid(&self) -> u32 {
        match self {
            PidType::SimpApp(o) => *o,
            PidType::MsgApp(o) => *o,
        }
    }

    pub fn as_u32(&self) -> (r: u32)
        ensures
            r == self.pid(),
    {
        match self {
            PidType::SimpApp(o) => *o,
            PidType::MsgApp(o) => *o,
        }
    }
}


/// Whether the process name `comm` belongs to `app`: it is `app`, or its part before the first
/// `:` is (`app:service` names a service process of `app`).
pub open spec fn is_same_app(comm: Seq<char>, app: Seq<char>) -> bool {
    comm == app || before_char(comm, ':') == app
}

/// Whether the process name `comm` belongs to the application `app`.
pub fn same_app(comm: &str, app: &str) -> (r: bool)
    ensures
        r == is_same_app(comm@, app@),
{
    let c = comm.to_owned();
    let a = app.to_owned();
    if c == a {
        true
    } else {
        text_before(comm, ':') == a
    }
}

/// A process name belongs to its own application, and so does the name of each of its
/// service processes.
pub proof fn lemma_same_app(app: Seq<char>, service: Seq<char>)
    requires
        !app.contains(':'),
    ensures
        is_same_app(app, app),
        is_same_app(app + seq![':'] + service, app),
{
    let comm = app + seq![':'] + service;
    let p = crate::text::is_char(':');
    assert forall|j: int| 0 <= j < app.len() implies !p(#[trigger] comm[j]) by {
        assert(comm[j] == app[j]);
    }
    assert(comm[app.len() as int] == ':');
    crate::text::lemma_find_unique(comm, p, app.len() as int);
    assert(comm.take(app.len() as int) =~= app);
}

} // verus!
