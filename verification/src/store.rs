//! What the composition asks of the object store.
//!
//! The store is content addressed: objects are named by checksums, and
//! symbolic references name commits. This module holds the rules on the
//! composing side of the store: the form of a checksum, what a missing
//! reference means, and the stages that a commit goes through.

use vstd::prelude::*;
use vstd::string::*;
use crate::error::{Error, ErrorKind};
use crate::text::chars_of;

verus! {

/// The length of a checksum in characters.
pub const CHECKSUM_LEN: usize = 64;

/// A lower-case hexadecimal digit.
pub open spec fn is_hex(c: char) -> bool {
    0x30 <= c as u32 <= 0x39 || 0x61 <= c as u32 <= 0x66
}

/// A checksum in canonical form: 64 lower-case hexadecimal digits.
pub open spec fn is_checksum(s: Seq<char>) -> bool {
    s.len() == 64 && forall|i: int| 0 <= i < s.len() ==> is_hex(#[trigger] s[i])
}

/// Whether `s` is a checksum in canonical form.
pub fn valid_checksum(s: &str) -> (b: bool)
    ensures
        b == is_checksum(s@),
{
    let cs = chars_of(s);
    if cs.len() != CHECKSUM_LEN {
        return false;
    }
    let mut i: usize = 0;
    while i < cs.len()
        invariant
            cs@ == s@,
            i <= cs.len(),
            cs.len() == 64,
            forall|k: int| 0 <= k < i ==> is_hex(#[trigger] s@[k]),
        decreases cs.len() - i,
    {
        let u: u32 = cs[i] as u32;
        if !((0x30 <= u && u <= 0x39) || (0x61 <= u && u <= 0x66)) {
            assert(!is_hex(s@[i as int]));
            return false;
        }
        i += 1;
    }
    true
}

/// The message for a reference that names no commit.
pub open spec fn missing_ref_message(name: Seq<char>) -> Seq<char> {
    "Commit ref '"@ + name + "' not found"@
}

/// What the resolution of the reference `name` gives, when the store
/// found the commit `found` for it or none. A reference that is unknown
/// resolves to nothing if it may be missing, and is an error if it may
/// not.
pub fn resolve(name: &str, found: Option<String>, allow_missing: bool) -> (r: Result<
    Option<String>,
    Error,
>)
    ensures
        found is Some ==> r == Ok::<Option<String>, Error>(found),
        found is None && allow_missing ==> r == Ok::<Option<String>, Error>(None),
        found is None && !allow_missing ==> r is Err && r->Err_0.kind
            == ErrorKind::StoreUnavailable && r->Err_0.message@ == missing_ref_message(name@),
{
    match found {
        Some(c) => Ok(Some(c)),
        None => {
            if allow_missing {
                Ok(None)
            } else {
                let mut message = "Commit ref '".to_owned();
                message.append(name);
                message.append("' not found");
                Err(Error { kind: ErrorKind::StoreUnavailable, message })
            }
        },
    }
}

/// The stage of a commit in its life.
#[derive(Clone, Copy, Debug, PartialEq, Eq, Structural)]
pub enum CommitStage {
    /// A transaction is open; nothing is written yet.
    Draft,
    /// Objects are written inside the transaction.
    Staged,
    /// The transaction is committed: the objects are in the store.
    Published,
    /// A reference names the commit.
    Referenced,
    /// The deployment tool has taken the commit.
    Deployed,
    /// The transaction was given up: the store is as it was.
    Aborted,
}

/// What happens to a commit.
#[derive(Clone, Copy, Debug, PartialEq, Eq, Structural)]
pub enum StoreEvent {
    /// Objects are written.
    Stage,
    /// The transaction is committed.
    Publish,
    /// The transaction is given up.
    Abort,
    /// A reference is moved to the commit.
    SetRef,
    /// The commit is deployed.
    Deploy,
}

/// The stage after `event`, if the event can happen at `stage`. A
/// commit is staged, published, referenced and deployed in this order;
/// only a draft or a staged commit can be given up; a reference can be
/// moved again to a commit that has one.
pub open spec fn next_stage(stage: CommitStage, event: StoreEvent) -> Option<CommitStage> {
    match (stage, event) {
        (CommitStage::Draft, StoreEvent::Stage) => Some(CommitStage::Staged),
        (CommitStage::Staged, StoreEvent::Stage) => Some(CommitStage::Staged),
        (CommitStage::Staged, StoreEvent::Publish) => Some(CommitStage::Published),
        (CommitStage::Draft, StoreEvent::Abort) => Some(CommitStage::Aborted),
        (CommitStage::Staged, StoreEvent::Abort) => Some(CommitStage::Aborted),
        (CommitStage::Published, StoreEvent::SetRef) => Some(CommitStage::Referenced),
        (CommitStage::Referenced, StoreEvent::SetRef) => Some(CommitStage::Referenced),
        (CommitStage::Referenced, StoreEvent::Deploy) => Some(CommitStage::Deployed),
        _ => None,
    }
}

/// Whether the objects of a commit at `stage` can be seen in the store.
pub open spec fn visible(stage: CommitStage) -> bool {
    stage is Published || stage is Referenced || stage is Deployed
}

/// The stage after `event`, if the event can happen at `stage`.
pub fn advance(stage: CommitStage, event: StoreEvent) -> (r: Option<CommitStage>)
    ensures
        r == next_stage(stage, event),
{
    match (stage, event) {
        (CommitStage::Draft, StoreEvent::Stage) => Some(CommitStage::Staged),
        (CommitStage::Staged, StoreEvent::Stage) => Some(CommitStage::Staged),
        (CommitStage::Staged, StoreEvent::Publish) => Some(CommitStage::Published),
        (CommitStage::Draft, StoreEvent::Abort) => Some(CommitStage::Aborted),
        (CommitStage::Staged, StoreEvent::Abort) => Some(CommitStage::Aborted),
        (CommitStage::Published, StoreEvent::SetRef) => Some(CommitStage::Referenced),
        (CommitStage::Referenced, StoreEvent::SetRef) => Some(CommitStage::Referenced),
        (CommitStage::Referenced, StoreEvent::Deploy) => Some(CommitStage::Deployed),
        _ => None,
    }
}

/// Whether the objects of a commit at `stage` can be seen in the store.
pub fn is_visible(stage: CommitStage) -> (b: bool)
    ensures
        b == visible(stage),
{
    match stage {
        CommitStage::Published | CommitStage::Referenced | CommitStage::Deployed => true,
        _ => false,
    }
}

/// The stage that a run of events leads to from `stage`, if every event
/// can happen where it comes.
pub open spec fn stage_after(stage: CommitStage, events: Seq<StoreEvent>, n: int) -> Option<
    CommitStage,
>
    decreases n,
{
    if n <= 0 {
        Some(stage)
    } else {
        match stage_after(stage, events, n - 1) {
            Some(s) => next_stage(s, events[n - 1]),
            None => None,
        }
    }
}

/// A commit becomes visible only by the commit of its transaction, and
/// stays visible from then on; one that was given up never becomes
/// visible. Whatever happens to a commit, it is visible at the end
/// exactly if its transaction was committed on the way.
pub proof fn law_visible_iff_published(events: Seq<StoreEvent>, n: int)
    requires
        0 <= n <= events.len(),
        stage_after(CommitStage::Draft, events, n) is Some,
    ensures
        visible(stage_after(CommitStage::Draft, events, n)->0) <==> exists|k: int|
            0 <= k < n && #[trigger] events[k] == StoreEvent::Publish,
    decreases n,
{
    if n > 0 {
        law_visible_iff_published(events, n - 1);
        let before = stage_after(CommitStage::Draft, events, n - 1)->0;
        if exists|k: int| 0 <= k < n - 1 && #[trigger] events[k] == StoreEvent::Publish {
            let k = choose|k: int| 0 <= k < n - 1 && #[trigger] events[k] == StoreEvent::Publish;
            assert(events[k] == StoreEvent::Publish);
        }
        if visible(stage_after(CommitStage::Draft, events, n)->0) && !visible(before) {
            assert(events[n - 1] == StoreEvent::Publish);
        }
        if exists|k: int| 0 <= k < n && #[trigger] events[k] == StoreEvent::Publish {
            let k = choose|k: int| 0 <= k < n && #[trigger] events[k] == StoreEvent::Publish;
            if k < n - 1 {
                assert(events[k] == StoreEvent::Publish);
            }
        }
    }
}

} // verus!
