//! The shared, append-only log of `(kind, message)` entries that the engine,
//! the registry and plugin scripts report into, and that a presentation layer
//! polls.

use vstd::prelude::*;

verus! {

use vstd::string::StringExecFns;

/// The severity of one log entry.
#[derive(Clone, Copy, Debug, PartialEq, Eq, Structural)]
pub enum LogKind {
    Info,
    Success,
    Error,
    Warn,
    Debug,
}

/// The prefix that marks a log line with its kind.
pub open spec fn spec_prefix(kind: LogKind) -> Seq<char> {
    match kind {
        LogKind::Info => "[info]:"@,
        LogKind::Success => "[success]:"@,
        LogKind::Error => "[error]:"@,
        LogKind::Warn => "[warn]:"@,
        LogKind::Debug => "[debug]:"@,
    }
}

/// The full text of a log line: the kind's prefix, a space, then the message.
pub open spec fn formatted(kind: LogKind, message: Seq<char>) -> Seq<char> {
    spec_prefix(kind) + " "@ + message
}

fn prefix(kind: LogKind) -> (r: &'static str)
    ensures
        r@ == spec_prefix(kind),
{
    match kind {
        LogKind::Info => "[info]:",
        LogKind::Success => "[success]:",
        LogKind::Error => "[error]:",
        LogKind::Warn => "[warn]:",
        LogKind::Debug => "[debug]:",
    }
}

/// The append-only log store. Entries are only ever added during a run; the
/// presentation layer may clear it between runs.
pub struct Logs {
    entries: Vec<(LogKind, String)>,
}

impl View for Logs {
    type V = Seq<(LogKind, Seq<char>)>;

    closed spec fn view(&self) -> Seq<(LogKind, Seq<char>)> {
        self.entries@.map(|i: int, e: (LogKind, String)| (e.0, e.1@))
    }
}

/// A widget marker under which the presentation layer renders the log store.
#[derive(Clone, Copy, Debug, Default)]
pub struct LogsWidget;

impl Logs {
    /// An empty log store.
    pub fn new() -> (r: Logs)
        ensures
            r@ =~= Seq::<(LogKind, Seq<char>)>::empty(),
    {
        Logs { entries: Vec::new() }
    }

    /// A read-only snapshot of every entry appended so far, in append order.
    pub fn get_logs(&self) -> (r: &Vec<(LogKind, String)>)
        ensures
            r@.map(|i: int, e: (LogKind, String)| (e.0, e.1@)) == self@,
    {
        &self.entries
    }

    /// Write access to the entry store, for the presentation layer.
    pub fn get_logs_mut(&mut self) -> (r: &mut Vec<(LogKind, String)>)
        ensures
            r@.map(|i: int, e: (LogKind, String)| (e.0, e.1@)) == old(self)@,
            final(self)@ == final(r)@.map(|i: int, e: (LogKind, String)| (e.0, e.1@)),
    {
        &mut self.entries
    }

    /// Removes every entry, for a fresh run.
    pub fn clear(&mut self)
        ensures
            final(self)@ =~= Seq::<(LogKind, Seq<char>)>::empty(),
    {
        self.entries.clear();
    }
}

/// Appends one entry: the message prefixed with its kind's marker.
pub fn add_log(logs: &mut Logs, kind: LogKind, message: String)
    ensures
        final(logs)@ == old(logs)@.push((kind, formatted(kind, message@))),
{
    let line = String::from_str(prefix(kind)).concat(" ").concat(message.as_str());
    logs.entries.push((kind, line));
    proof {
        assert(final(logs)@ =~= old(logs)@.push((kind, formatted(kind, message@))));
    }
}

} // verus!
