//! Settings of the runtime stack and the small identifiers its services hand out.
use vstd::prelude::*;

use crate::cid::{ulid_from_str, ulid_parse};

verus! {

/// How much the runtime logs: nothing, or messages of this level and the more severe ones.
#[derive(Debug, Clone, Copy, PartialEq, Eq, Structural)]
pub enum LogFilter {
    Off,
    Error,
    Warn,
    Info,
    Debug,
    Trace,
}

impl Default for LogFilter {
    /// Informational messages and the more severe ones.
    fn default() -> (r: LogFilter)
        ensures
            r == LogFilter::Info,
    {
        LogFilter::Info
    }
}

/// Whether other nodes may deploy and stop scripts on this node.
#[derive(Debug, Clone, Copy, PartialEq, Eq, Structural)]
pub enum ScriptManagementConfig {
    Allow,
    Deny,
}

impl ScriptManagementConfig {
    /// Whether scripts running here get a client that may deploy and stop scripts;
    /// where not, their bridge refuses such requests.
    pub fn allows_management(&self) -> (r: bool)
        ensures
            r == (*self == ScriptManagementConfig::Allow),
    {
        match self {
            ScriptManagementConfig::Allow => true,
            ScriptManagementConfig::Deny => false,
        }
    }
}

impl Default for ScriptManagementConfig {
    /// Other nodes may not manage scripts here.
    fn default() -> (r: ScriptManagementConfig)
        ensures
            r == ScriptManagementConfig::Deny,
    {
        ScriptManagementConfig::Deny
    }
}

/// The number a node sends to another to report that a round trip has finished.
#[derive(Debug, Clone, PartialEq, Eq, Structural)]
pub struct ReportRoundTrip {
    nonce: u64,
}

impl ReportRoundTrip {
    /// A report of the round trip with this number.
    pub fn new(nonce: u64) -> (r: ReportRoundTrip)
        ensures
            r.nonce() == nonce,
    {
        ReportRoundTrip { nonce }
    }

    pub closed spec fn nonce(&self) -> u64 {
        self.nonce
    }

    /// The number of the round trip.
    pub fn get_nonce(&self) -> (r: u64)
        ensures
            r == self.nonce(),
    {
        self.nonce
    }
}

/// A subscription to incoming requests.
#[derive(Debug, Hash, PartialEq, Eq, Structural)]
pub struct SubscriptionId(u64);

/// The source of subscription identifiers: each one handed out is new.
pub struct SubscriptionIds {
    next_subscription_id: u64,
}

impl SubscriptionIds {
    /// The identifiers handed out so far are the numbers below this one.
    pub closed spec fn next(&self) -> u64 {
        self.next_subscription_id
    }

    /// The number of a subscription.
    pub closed spec fn id_of(id: SubscriptionId) -> u64 {
        id.0
    }

    /// No identifier handed out yet.
    pub fn new() -> (r: SubscriptionIds)
        ensures
            r.next() == 0,
    {
        SubscriptionIds { next_subscription_id: 0 }
    }

    /// A new identifier: the lowest not handed out yet.
    pub fn allocate(&mut self) -> (r: SubscriptionId)
        requires
            old(self).next() < u64::MAX,
        ensures
            Self::id_of(r) == old(self).next(),
            final(self).next() == old(self).next() + 1,
    {
        let id = self.next_subscription_id;
        self.next_subscription_id = self.next_subscription_id + 1;
        SubscriptionId(id)
    }

    /// The number of a subscription.
    pub fn number(id: &SubscriptionId) -> (r: u64)
        ensures
            r == Self::id_of(*id),
    {
        id.0
    }
}

/// What an entry of the store directory is.
#[derive(Debug, Clone, Copy, PartialEq, Eq, Structural)]
pub enum EntryKind {
    Directory,
    File,
    Other,
}

/// What a clean start does with an entry of the store directory.
#[derive(Debug, Clone, Copy, PartialEq, Eq, Structural)]
pub enum CleanupAction {
    /// Remove the directory and all it holds.
    RemoveDirectory,
    /// Remove the file.
    RemoveFile,
    /// Leave the entry.
    Keep,
}

/// A clean start removes every file of the store directory and every directory named by
/// a ULID; it leaves everything else.
pub fn cleanup_action(kind: EntryKind, name: &str) -> (r: CleanupAction)
    ensures
        r == match kind {
            EntryKind::Directory => if ulid_parse(name@) is Some { CleanupAction::RemoveDirectory } else { CleanupAction::Keep },
            EntryKind::File => CleanupAction::RemoveFile,
            EntryKind::Other => CleanupAction::Keep,
        },
{
    match kind {
        EntryKind::Directory => match ulid_from_str(name) {
            Some(_) => CleanupAction::RemoveDirectory,
            None => CleanupAction::Keep,
        },
        EntryKind::File => CleanupAction::RemoveFile,
        EntryKind::Other => CleanupAction::Keep,
    }
}

/// How many entries a clean start removes, of those whose actions are given.
pub open spec fn removed_count(actions: Seq<CleanupAction>) -> nat
    decreases actions.len(),
{
    if actions.len() == 0 {
        0
    } else {
        removed_count(actions.drop_last()) + if actions.last() == CleanupAction::Keep { 0nat } else { 1nat }
    }
}

/// The number of entries removed, for the report after a clean start.
pub fn count_removed(actions: &Vec<CleanupAction>) -> (r: usize)
    ensures
        r == removed_count(actions@),
{
    let mut r: usize = 0;
    let mut i: usize = 0;
    while i < actions.len()
        invariant
            i <= actions.len(),
            r == removed_count(actions@.take(i as int)),
            r <= i,
        decreases actions.len() - i,
    {
        assert(actions@.take(i + 1).drop_last() =~= actions@.take(i as int));
        assert(actions@.take(i + 1).last() == actions@[i as int]);
        if actions[i] != CleanupAction::Keep {
            r = r + 1;
        }
        i = i + 1;
    }
    assert(actions@.take(i as int) =~= actions@);
    r
}

} // verus!
