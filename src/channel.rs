//! Subscription filters of the event bus and the choice of handlers a message
//! reaches.

use vstd::prelude::*;

use crate::events::{GraphEvent, Log, Message};

verus! {

/// Whether `text` matches the glob `pattern`; nothing when the pattern is not
/// a valid glob.
pub uninterp spec fn glob_match(pattern: Seq<char>, text: Seq<char>) -> Option<bool>;

/// Relies on `globset::Glob::new` and `GlobSetBuilder::build`, which return
/// an error for an invalid pattern or one too large to compile, and on
/// `GlobSet::is_match`. Patterns compile with `.` matching newlines, so `*`
/// matches every text.
#[verifier::external_body]
fn glob_matches(pattern: &str, text: &str) -> (r: Option<bool>)
    ensures
        r == glob_match(pattern@, text@),
        pattern@ == seq!['*'] ==> r == Some(true),
{
    let glob = globset::Glob::new(pattern).ok()?;
    let set = globset::GlobSetBuilder::new().add(glob).build().ok()?;
    Some(set.is_match(text))
}

/// Glob patterns a message's process id and node id must match.
#[derive(Debug, Clone)]
pub struct ChannelOptions {
    pub pid: String,
    pub nid: String,
}

/// Both patterns are valid and match.
pub open spec fn accepts(o: ChannelOptions, pid: Seq<char>, nid: Seq<char>) -> bool {
    glob_match(o.pid@, pid) == Some(true) && glob_match(o.nid@, nid) == Some(true)
}

impl ChannelOptions {
    /// Options that match any process and any node.
    pub fn any() -> (r: ChannelOptions)
        ensures
            r.pid@ == seq!['*'],
            r.nid@ == seq!['*'],
    {
        proof {
            reveal_strlit("*");
        }
        ChannelOptions { pid: "*".to_owned(), nid: "*".to_owned() }
    }

    pub fn new(pid: String, nid: String) -> (r: ChannelOptions)
        ensures
            r.pid == pid,
            r.nid == nid,
    {
        ChannelOptions { pid, nid }
    }

    /// Options for one process pattern and any node.
    pub fn with_pid(pid: String) -> (r: ChannelOptions)
        ensures
            r.pid == pid,
            r.nid@ == seq!['*'],
    {
        proof {
            reveal_strlit("*");
        }
        ChannelOptions { pid, nid: "*".to_owned() }
    }

    /// Options for one node pattern and any process.
    pub fn with_nid(nid: String) -> (r: ChannelOptions)
        ensures
            r.pid@ == seq!['*'],
            r.nid == nid,
    {
        proof {
            reveal_strlit("*");
        }
        ChannelOptions { pid: "*".to_owned(), nid }
    }

    /// Whether a message about process `pid` and node `nid` passes the
    /// filter. An invalid pattern lets nothing pass.
    pub fn matches(&self, pid: &str, nid: &str) -> (r: bool)
        ensures
            r == accepts(*self, pid@, nid@),
    {
        match glob_matches(self.pid.as_str(), pid) {
            Some(true) => match glob_matches(self.nid.as_str(), nid) {
                Some(b) => b,
                None => false,
            },
            _ => false,
        }
    }
}

impl Default for ChannelOptions {
    fn default() -> (r: ChannelOptions)
        ensures
            r.pid@ == seq!['*'],
            r.nid@ == seq!['*'],
    {
        ChannelOptions::any()
    }
}

/// Which messages a handler wants.
#[derive(Debug, Clone, Copy, PartialEq, Eq, Structural)]
pub enum HandlerKind {
    /// Workflow succeeded events; the handler gets the process id.
    Complete,
    /// Workflow failed events.
    Error,
    /// Every event.
    Event,
    /// Every log line.
    Log,
}

/// A registered handler: its filter and what it wants.
#[derive(Debug, Clone)]
pub struct Subscription {
    pub options: ChannelOptions,
    pub kind: HandlerKind,
}

/// Handler `s` wants event `e` by its kind.
pub open spec fn wants_event(s: Subscription, e: GraphEvent) -> bool {
    match s.kind {
        HandlerKind::Complete => e matches GraphEvent::Workflow(w) && w is Succeeded,
        HandlerKind::Error => e matches GraphEvent::Workflow(w) && w is Failed,
        HandlerKind::Event => true,
        HandlerKind::Log => false,
    }
}

/// Indices, in registration order, among the first `n` subscriptions, of
/// those `pick` selects.
pub open spec fn picked(subs: Seq<Subscription>, pick: spec_fn(Subscription) -> bool, n: int) -> Seq<usize>
    decreases n,
{
    if n <= 0 {
        seq![]
    } else if pick(subs[n - 1]) {
        picked(subs, pick, n - 1).push((n - 1) as usize)
    } else {
        picked(subs, pick, n - 1)
    }
}

/// The handlers registered on a channel, in registration order.
#[derive(Debug, Clone)]
pub struct Registry {
    subs: Vec<Subscription>,
}

impl View for Registry {
    type V = Seq<Subscription>;

    closed spec fn view(&self) -> Seq<Subscription> {
        self.subs@
    }
}

impl Registry {
    pub fn new() -> (r: Registry)
        ensures
            r@.len() == 0,
    {
        Registry { subs: Vec::new() }
    }

    /// Registers a handler; returns its index.
    pub fn register(&mut self, options: ChannelOptions, kind: HandlerKind) -> (r: usize)
        ensures
            final(self)@ == old(self)@.push(Subscription { options, kind }),
            r == old(self)@.len(),
    {
        let r = self.subs.len();
        self.subs.push(Subscription { options, kind });
        r
    }

    /// The handlers a message reaches, in registration order: those whose
    /// filter accepts its process and node and that want its event.
    pub fn event_recipients(&self, msg: &Message) -> (r: Vec<usize>)
        ensures
            r@ == picked(
                self@,
                |s: Subscription| wants_event(s, msg.event) && accepts(s.options, msg.pid@, msg.nid@),
                self@.len() as int,
            ),
    {
        let ghost pick = |s: Subscription| wants_event(s, msg.event) && accepts(s.options, msg.pid@, msg.nid@);
        let mut out: Vec<usize> = Vec::new();
        let mut i: usize = 0;
        while i < self.subs.len()
            invariant
                i <= self.subs@.len(),
                out@ == picked(self.subs@, pick, i as int),
                pick == (|s: Subscription| wants_event(s, msg.event) && accepts(s.options, msg.pid@, msg.nid@)),
            decreases self.subs@.len() - i,
        {
            let s = &self.subs[i];
            let wanted = match s.kind {
                HandlerKind::Complete => msg.event.is_complete(),
                HandlerKind::Error => msg.event.is_error(),
                HandlerKind::Event => true,
                HandlerKind::Log => false,
            };
            let ok = wanted && s.options.matches(msg.pid.as_str(), msg.nid.as_str());
            proof {
                assert(pick(self.subs@[i as int]) == ok);
            }
            if ok {
                out.push(i);
            }
            i = i + 1;
        }
        out
    }

    /// The log handlers a log line reaches, in registration order.
    pub fn log_recipients(&self, log: &Log) -> (r: Vec<usize>)
        ensures
            r@ == picked(
                self@,
                |s: Subscription| s.kind == HandlerKind::Log && accepts(s.options, log.pid@, log.nid@),
                self@.len() as int,
            ),
    {
        let ghost pick = |s: Subscription| s.kind == HandlerKind::Log && accepts(s.options, log.pid@, log.nid@);
        let mut out: Vec<usize> = Vec::new();
        let mut i: usize = 0;
        while i < self.subs.len()
            invariant
                i <= self.subs@.len(),
                out@ == picked(self.subs@, pick, i as int),
                pick == (|s: Subscription| s.kind == HandlerKind::Log && accepts(s.options, log.pid@, log.nid@)),
            decreases self.subs@.len() - i,
        {
            let s = &self.subs[i];
            let ok = s.kind == HandlerKind::Log && s.options.matches(log.pid.as_str(), log.nid.as_str());
            proof {
                assert(pick(self.subs@[i as int]) == ok);
            }
            if ok {
                out.push(i);
            }
            i = i + 1;
        }
        out
    }
}

} // verus!
