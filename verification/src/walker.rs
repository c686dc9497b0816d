//! A walk over a directory tree that yields its visible files one at a
//! time.
//!
//! The walker holds no more than the path of the directory that is being
//! read and the directories that still wait to be opened. It reads nothing
//! itself: it asks for the next entry or for a directory to be opened, and is
//! told the answer with `step`. Directories are passed through and never
//! yielded, and the one that was met last is opened first.

use vstd::prelude::*;
use crate::error::open_error;
use crate::error::Error;
use crate::error::OpenFailure;
use crate::filter::visible;
use crate::listing::is_wanted;
use crate::listing::slot_view;
use crate::listing::Entry;
use crate::listing::EntryView;
use crate::path::join;
use crate::path::joined;

verus! {

/// What the walker asks of its caller.
#[derive(Debug)]
pub enum WalkRequest {
    /// Read the next entry of the open directory and answer with
    /// `WalkReply::Found` or `WalkReply::End`.
    Read,
    /// Open the directory at this path in place of the one that is open,
    /// and answer with `WalkReply::Opened`.
    Open(String),
    /// This file is the next one of the walk. To go on, read the next entry
    /// as for `Read`.
    Yield(String),
    /// The walk is over.
    Finished,
}

/// A `WalkRequest` as plain values.
#[verifier::ext_equal]
pub enum WalkRequestView {
    Read,
    Open(Seq<char>),
    Yield(Seq<char>),
    Finished,
}

impl View for WalkRequest {
    type V = WalkRequestView;

    open spec fn view(&self) -> WalkRequestView {
        match *self {
            WalkRequest::Read => WalkRequestView::Read,
            WalkRequest::Open(path) => WalkRequestView::Open(path@),
            WalkRequest::Yield(path) => WalkRequestView::Yield(path@),
            WalkRequest::Finished => WalkRequestView::Finished,
        }
    }
}

/// What the caller found.
#[derive(Debug)]
pub enum WalkReply {
    /// The next entry of the open directory, or nothing where reading it
    /// failed.
    Found(Option<Entry>),
    /// The open directory has no further entry.
    End,
    /// Whether the directory could be opened.
    Opened(bool),
}

/// A `WalkReply` as plain values.
#[verifier::ext_equal]
pub enum WalkReplyView {
    Found(Option<EntryView>),
    End,
    Opened(bool),
}

impl View for WalkReply {
    type V = WalkReplyView;

    open spec fn view(&self) -> WalkReplyView {
        match *self {
            WalkReply::Found(slot) => WalkReplyView::Found(slot_view(slot)),
            WalkReply::End => WalkReplyView::End,
            WalkReply::Opened(done) => WalkReplyView::Opened(done),
        }
    }
}

/// What the walker is doing.
enum Phase {
    Reading(String),
    Opening(String),
    Finished,
}

/// What the walker is doing, as plain values.
#[verifier::ext_equal]
pub enum PhaseView {
    /// The directory at this path is open and being read.
    Reading(Seq<char>),
    /// The directory at this path has been asked for.
    Opening(Seq<char>),
    /// The walk is over.
    Finished,
}

/// A walk over the visible files of a directory tree.
pub struct Walker {
    pending: Vec<String>,
    phase: Phase,
}

/// A `Walker` as plain values: the directories that wait to be opened, the
/// one that was met last at the end, and what the walker is doing.
#[verifier::ext_equal]
pub struct WalkerView {
    pub pending: Seq<Seq<char>>,
    pub phase: PhaseView,
}

spec fn paths_view(paths: Seq<String>) -> Seq<Seq<char>> {
    Seq::new(paths.len(), |i: int| paths[i]@)
}

spec fn phase_view(phase: Phase) -> PhaseView {
    match phase {
        Phase::Reading(dir) => PhaseView::Reading(dir@),
        Phase::Opening(path) => PhaseView::Opening(path@),
        Phase::Finished => PhaseView::Finished,
    }
}

impl View for Walker {
    type V = WalkerView;

    closed spec fn view(&self) -> WalkerView {
        WalkerView { pending: paths_view(self.pending@), phase: phase_view(self.phase) }
    }
}

/// The walker at the start: the root is open and nothing waits.
pub open spec fn set_out(root: Seq<char>) -> WalkerView {
    WalkerView { pending: Seq::empty(), phase: PhaseView::Reading(root) }
}

/// What the walker does when the open directory has no further entry or a
/// directory could not be opened: it turns to the directory that was met
/// last among those that wait, and the walk is over where none waits.
pub open spec fn turned(pending: Seq<Seq<char>>) -> (WalkerView, WalkRequestView) {
    if pending.len() == 0 {
        (WalkerView { pending, phase: PhaseView::Finished }, WalkRequestView::Finished)
    } else {
        (
            WalkerView { pending: pending.drop_last(), phase: PhaseView::Opening(pending.last()) },
            WalkRequestView::Open(pending.last()),
        )
    }
}

/// What the walker makes of a reply: its next state and its next request.
///
/// An entry that could not be read and a hidden one are passed over. A
/// visible directory is put with those that wait, a visible file is
/// yielded. A directory that cannot be opened is passed over as well. A
/// reply that does not answer the outstanding request changes nothing, and
/// the request is made again.
pub open spec fn walk_step(state: WalkerView, reply: WalkReplyView) -> (
    WalkerView,
    WalkRequestView,
) {
    match state.phase {
        PhaseView::Reading(dir) => match reply {
            WalkReplyView::Found(slot) => if is_wanted(slot) {
                let child = joined(dir, slot->0.name);
                if slot->0.is_dir {
                    (
                        WalkerView { pending: state.pending.push(child), ..state },
                        WalkRequestView::Read,
                    )
                } else {
                    (state, WalkRequestView::Yield(child))
                }
            } else {
                (state, WalkRequestView::Read)
            },
            WalkReplyView::End => turned(state.pending),
            WalkReplyView::Opened(_) => (state, WalkRequestView::Read),
        },
        PhaseView::Opening(path) => match reply {
            WalkReplyView::Opened(true) => (
                WalkerView { phase: PhaseView::Reading(path), ..state },
                WalkRequestView::Read,
            ),
            WalkReplyView::Opened(false) => turned(state.pending),
            _ => (state, WalkRequestView::Open(path)),
        },
        PhaseView::Finished => (state, WalkRequestView::Finished),
    }
}

impl Walker {
    /// Starts a walk at `root`, given how opening it went. The walk cannot
    /// start where the root cannot be opened. After a start the caller
    /// reads the first entry of the root and goes on with `step`.
    pub fn new(root: &str, opened: Result<(), OpenFailure>) -> (walker: Result<Walker, Error>)
        ensures
            match walker {
                Ok(started) => opened is Ok && started@ == set_out(root@),
                Err(error) => opened matches Err(failure) && error == open_error(failure),
            },
    {
        match opened {
            Ok(_) => {
                let started = Walker {
                    pending: Vec::new(),
                    phase: Phase::Reading(root.to_owned()),
                };
                assert(started@.pending == Seq::<Seq<char>>::empty());
                Ok(started)
            },
            Err(failure) => Err(failure.into_error()),
        }
    }

    /// Whether the walk is over.
    pub fn is_finished(&self) -> (over: bool)
        ensures
            over == (self@.phase is Finished),
    {
        match &self.phase {
            Phase::Finished => true,
            _ => false,
        }
    }

    /// Turns to the directory that was met last among those that wait.
    fn turn(pending: Vec<String>) -> (next: (Walker, WalkRequest))
        ensures
            next.0@ == turned(paths_view(pending@)).0,
            next.1@ == turned(paths_view(pending@)).1,
    {
        let mut pending = pending;
        let ghost waiting = paths_view(pending@);
        match pending.pop() {
            Some(path) => {
                assert(waiting.last() == path@);
                assert(waiting.drop_last() == paths_view(pending@));
                let request = WalkRequest::Open(path.clone());
                (Walker { pending, phase: Phase::Opening(path) }, request)
            },
            None => {
                assert(waiting.len() == 0);
                assert(paths_view(pending@) == waiting);
                (Walker { pending, phase: Phase::Finished }, WalkRequest::Finished)
            },
        }
    }

    /// The step, on a walker that is given up for the next one.
    fn answer(self, reply: WalkReply) -> (next: (Walker, WalkRequest))
        ensures
            next.0@ == walk_step(self@, reply@).0,
            next.1@ == walk_step(self@, reply@).1,
    {
        let mut pending = self.pending;
        match self.phase {
            Phase::Reading(dir) => match reply {
                WalkReply::Found(Some(entry)) => {
                    if !visible(entry.name.as_str()) {
                        (Walker { pending, phase: Phase::Reading(dir) }, WalkRequest::Read)
                    } else {
                        let child = join(dir.as_str(), entry.name.as_str());
                        if entry.is_dir {
                            let ghost waiting = paths_view(pending@);
                            pending.push(child);
                            assert(paths_view(pending@) == waiting.push(child@));
                            (Walker { pending, phase: Phase::Reading(dir) }, WalkRequest::Read)
                        } else {
                            (
                                Walker { pending, phase: Phase::Reading(dir) },
                                WalkRequest::Yield(child),
                            )
                        }
                    }
                },
                WalkReply::Found(None) => (
                    Walker { pending, phase: Phase::Reading(dir) },
                    WalkRequest::Read,
                ),
                WalkReply::End => Walker::turn(pending),
                WalkReply::Opened(_) => (
                    Walker { pending, phase: Phase::Reading(dir) },
                    WalkRequest::Read,
                ),
            },
            Phase::Opening(path) => match reply {
                WalkReply::Opened(true) => (
                    Walker { pending, phase: Phase::Reading(path) },
                    WalkRequest::Read,
                ),
                WalkReply::Opened(false) => Walker::turn(pending),
                _ => {
                    let request = WalkRequest::Open(path.clone());
                    (Walker { pending, phase: Phase::Opening(path) }, request)
                },
            },
            Phase::Finished => (Walker { pending, phase: Phase::Finished }, WalkRequest::Finished),
        }
    }

    /// Takes the answer to the outstanding request and says what is asked
    /// for next.
    pub fn step(&mut self, reply: WalkReply) -> (request: WalkRequest)
        ensures
            final(self)@ == walk_step(old(self)@, reply@).0,
            request@ == walk_step(old(self)@, reply@).1,
    {
        let mut state = Walker { pending: Vec::new(), phase: Phase::Finished };
        core::mem::swap(self, &mut state);
        let (next, request) = state.answer(reply);
        *self = next;
        request
    }
}

} // verus!
