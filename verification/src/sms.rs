//! The order in which the notifier backends are tried.

use vstd::prelude::*;

verus! {

/// A backend that can deliver a message.
#[derive(Clone, Copy, Debug, PartialEq, Eq, Structural)]
pub enum Backend {
    Aws,
    Twilio,
}

/// What a backend reports of one attempt.
#[derive(Clone, Copy, Debug, PartialEq, Eq, Structural)]
pub enum Delivery {
    /// The backend lacks its settings and did nothing.
    NotConfigured,
    /// The message went out.
    Delivered,
    /// The attempt failed.
    Failed,
}

/// The backend that is tried in place `i`.
pub open spec fn backend_at(i: int) -> Option<Backend> {
    if i == 0 {
        Some(Backend::Aws)
    } else if i == 1 {
        Some(Backend::Twilio)
    } else {
        None
    }
}

/// The backend to try next, given whether a receiver is set and what the
/// backends tried so far have reported, in order. Without a receiver nothing
/// is tried. The backends are tried in their order, and none is tried once
/// one has delivered; `None` says that the dispatch is over.
pub open spec fn next_backend(receiver_set: bool, reports: Seq<Delivery>) -> Option<Backend> {
    if !receiver_set || reports.contains(Delivery::Delivered) {
        None
    } else {
        backend_at(reports.len() as int)
    }
}

/// Whether the dispatch ended without delivery although a receiver is set:
/// every backend was tried and none delivered.
pub open spec fn undelivered(receiver_set: bool, reports: Seq<Delivery>) -> bool {
    receiver_set && reports.len() >= 2 && !reports.contains(Delivery::Delivered)
}

/// The backend to try next; see `next_backend`.
pub fn next_to_try(receiver_set: bool, reports: &Vec<Delivery>) -> (r: Option<Backend>)
    ensures
        r == next_backend(receiver_set, reports@),
{
    if !receiver_set {
        return None;
    }
    let mut i: usize = 0;
    while i < reports.len()
        invariant
            i <= reports.len(),
            forall|j: int| 0 <= j < i ==> reports@[j] != Delivery::Delivered,
        decreases reports.len() - i,
    {
        if reports[i] == Delivery::Delivered {
            assert(reports@.contains(reports@[i as int]));
            return None;
        }
        i += 1;
    }
    if reports.len() == 0 {
        Some(Backend::Aws)
    } else if reports.len() == 1 {
        Some(Backend::Twilio)
    } else {
        None
    }
}

/// Whether the dispatch ended without delivery although a receiver is set.
pub fn gave_up(receiver_set: bool, reports: &Vec<Delivery>) -> (r: bool)
    ensures
        r == undelivered(receiver_set, reports@),
{
    if !receiver_set || reports.len() < 2 {
        return false;
    }
    let mut i: usize = 0;
    while i < reports.len()
        invariant
            i <= reports.len(),
            forall|j: int| 0 <= j < i ==> reports@[j] != Delivery::Delivered,
        decreases reports.len() - i,
    {
        if reports[i] == Delivery::Delivered {
            assert(reports@.contains(reports@[i as int]));
            return false;
        }
        i += 1;
    }
    true
}

} // verus!
