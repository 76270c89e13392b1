//! One paste under way: the answers to its reports of progress, and the
//! record of how each source ended.

use vstd::prelude::*;
use crate::command::batch::{Batch, BatchView, ItemOutcome};
use crate::command::file_operation::FileOp;
use crate::fs::metadata::FsError;
use crate::path::texts_of;

verus! {

/// How a transfer treats what it finds at the destination, and how it
/// reads the sources. The engine looks only at `overwrite` and
/// `skip_exist`; the rest goes to whoever moves the bytes.
#[derive(Clone, Copy, Debug, PartialEq, Eq, Structural)]
pub struct PasteOptions {
    /// Replace what is at the destination.
    pub overwrite: bool,
    /// Leave what is at the destination and go on.
    pub skip_exist: bool,
    /// How many bytes are moved between two reports of progress.
    pub buffer_size: usize,
    /// Put a directory inside the destination rather than over it.
    pub copy_inside: bool,
    /// Transfer what a directory holds, not the directory.
    pub content_only: bool,
    /// How deep a copy descends; 0 for all the way.
    pub depth: u64,
}

/// What a report of progress found at the destination.
#[derive(Clone, Copy, Debug, PartialEq, Eq, Structural)]
pub enum TransitState {
    /// Nothing in the way.
    Normal,
    /// The destination exists already.
    Exists,
    /// The destination cannot be written.
    NoAccess,
}

/// What the engine answers to a report of progress.
#[derive(Clone, Copy, Debug, PartialEq, Eq, Structural)]
pub enum TransitDecision {
    Continue,
    Overwrite,
    Skip,
    Abort,
}

/// The key that stands for Escape.
pub const ESCAPE: i32 = 27;

/// Whether a key asks to abort the transfer under way: Escape does, and
/// no other key.
pub open spec fn is_abort(ch: i32) -> bool {
    ch == ESCAPE
}

/// Whether a key asks to abort the transfer under way.
pub fn abort_key(ch: i32) -> (r: bool)
    ensures
        r == is_abort(ch),
{
    ch == ESCAPE
}

/// The answer to a report of progress. A request to abort wins. What
/// exists at the destination is replaced only where the options say so,
/// and else left alone; what cannot be written is passed over.
pub open spec fn transit_decision(options: PasteOptions, state: TransitState, abort_requested: bool) -> TransitDecision {
    if abort_requested {
        TransitDecision::Abort
    } else {
        match state {
            TransitState::Normal => TransitDecision::Continue,
            TransitState::Exists => if options.overwrite {
                TransitDecision::Overwrite
            } else {
                TransitDecision::Skip
            },
            TransitState::NoAccess => TransitDecision::Skip,
        }
    }
}

/// The failure that a report of progress means for the item under way:
/// a destination that exists and that the options neither replace nor
/// skip, or one that cannot be written.
pub open spec fn transit_trouble(options: PasteOptions, state: TransitState) -> Option<FsError> {
    match state {
        TransitState::Normal => None,
        TransitState::Exists => if options.overwrite || options.skip_exist {
            None
        } else {
            Some(FsError::AlreadyExists)
        },
        TransitState::NoAccess => Some(FsError::PermissionDenied),
    }
}

/// The sum of two byte counts, held at the largest count there is.
pub open spec fn bytes_sum(a: u64, b: u64) -> u64 {
    if a + b > u64::MAX {
        u64::MAX
    } else {
        (a + b) as u64
    }
}

/// One paste under way: the batch of sources, where they go and how, and
/// what was reported of the item being transferred.
pub struct TransferJob {
    op: FileOp,
    destination: String,
    options: PasteOptions,
    batch: Batch,
    finished_bytes: u64,
    current_bytes: u64,
    trouble: Option<FsError>,
}

/// A transfer as mathematical values.
pub struct TransferView {
    pub op: FileOp,
    pub destination: Seq<char>,
    pub options: PasteOptions,
    pub batch: BatchView,
    /// The bytes of the items that have ended.
    pub finished_bytes: u64,
    /// The bytes last reported of the item under way.
    pub current_bytes: u64,
    /// The first failure reported of the item under way.
    pub trouble: Option<FsError>,
}

impl TransferView {
    /// The transfer of `sources` to `destination`, nothing attempted yet.
    pub open spec fn started(
        op: FileOp,
        sources: Seq<Seq<char>>,
        destination: Seq<char>,
        options: PasteOptions,
    ) -> TransferView {
        TransferView {
            op,
            destination,
            options,
            batch: BatchView { items: sources, outcomes: Seq::empty(), aborted: false },
            finished_bytes: 0,
            current_bytes: 0,
            trouble: None,
        }
    }

    /// The transfer after a report of progress on the item under way.
    pub open spec fn progressed(self, copied_bytes: u64, state: TransitState, abort_requested: bool) -> TransferView {
        TransferView {
            current_bytes: copied_bytes,
            trouble: if self.trouble is Some {
                self.trouble
            } else {
                transit_trouble(self.options, state)
            },
            batch: if abort_requested {
                BatchView { aborted: true, ..self.batch }
            } else {
                self.batch
            },
            ..self
        }
    }

    /// How the item under way ended, given what moving it returned: as
    /// that failed, else as a report of progress said, else done.
    pub open spec fn outcome_of(self, result: Result<u64, FsError>) -> ItemOutcome {
        match result {
            Err(e) => ItemOutcome::Failed(e),
            Ok(_) => match self.trouble {
                Some(e) => ItemOutcome::Failed(e),
                None => ItemOutcome::Done,
            },
        }
    }

    /// The transfer after the item under way ended. After an abort nothing
    /// is recorded: the item during which the abort came is not reported,
    /// neither done nor failed.
    pub open spec fn item_ended(self, result: Result<u64, FsError>) -> TransferView {
        if self.batch.pending() is Some {
            TransferView {
                batch: self.batch.recorded(self.outcome_of(result)),
                finished_bytes: bytes_sum(
                    self.finished_bytes,
                    match result {
                        Ok(n) => n,
                        Err(_) => self.current_bytes,
                    },
                ),
                current_bytes: 0,
                trouble: None,
                ..self
            }
        } else {
            self
        }
    }

    /// The directories whose listings the transfer may have changed: the
    /// parents of the sources, then the destination.
    pub open spec fn invalidated(self) -> Seq<Seq<char>> {
        self.batch.affected().push(self.destination)
    }
}

impl View for TransferJob {
    type V = TransferView;

    closed spec fn view(&self) -> TransferView {
        TransferView {
            op: self.op,
            destination: self.destination@,
            options: self.options,
            batch: self.batch@,
            finished_bytes: self.finished_bytes,
            current_bytes: self.current_bytes,
            trouble: self.trouble,
        }
    }
}

impl TransferJob {
    /// The transfer of `sources` to `destination`.
    pub fn new(op: FileOp, sources: Vec<String>, destination: &str, options: PasteOptions) -> (r: Self)
        ensures
            r@ == TransferView::started(op, texts_of(sources@), destination@, options),
    {
        TransferJob {
            op,
            destination: destination.to_owned(),
            options,
            batch: Batch::new(sources),
            finished_bytes: 0,
            current_bytes: 0,
            trouble: None,
        }
    }

    pub fn op(&self) -> (r: FileOp)
        ensures
            r == self@.op,
    {
        self.op
    }

    pub fn destination(&self) -> (r: &str)
        ensures
            r@ == self@.destination,
    {
        self.destination.as_str()
    }

    pub fn options(&self) -> (r: PasteOptions)
        ensures
            r == self@.options,
    {
        self.options
    }

    /// The batch of sources.
    pub fn batch(&self) -> (r: &Batch)
        ensures
            r@ == self@.batch,
    {
        &self.batch
    }

    /// The source to transfer next, if the transfer has not ended.
    pub fn next(&self) -> (r: Option<&str>)
        ensures
            match r {
                Some(path) => self@.batch.pending() == Some(path@),
                None => self@.batch.pending() is None,
            },
    {
        self.batch.next()
    }

    /// The bytes transferred so far, those of the item under way included.
    pub fn copied_bytes(&self) -> (r: u64)
        ensures
            r == bytes_sum(self@.finished_bytes, self@.current_bytes),
    {
        self.finished_bytes.saturating_add(self.current_bytes)
    }

    /// Takes a report of progress on the item under way and answers it.
    pub fn progress(&mut self, copied_bytes: u64, state: TransitState, abort_requested: bool) -> (r:
        TransitDecision)
        ensures
            r == transit_decision(old(self)@.options, state, abort_requested),
            final(self)@ == old(self)@.progressed(copied_bytes, state, abort_requested),
    {
        self.current_bytes = copied_bytes;
        if self.trouble.is_none() {
            self.trouble = match state {
                TransitState::Normal => None,
                TransitState::Exists => if self.options.overwrite || self.options.skip_exist {
                    None
                } else {
                    Some(FsError::AlreadyExists)
                },
                TransitState::NoAccess => Some(FsError::PermissionDenied),
            };
        }
        if abort_requested {
            self.batch.abort();
            return TransitDecision::Abort;
        }
        match state {
            TransitState::Normal => TransitDecision::Continue,
            TransitState::Exists => if self.options.overwrite {
                TransitDecision::Overwrite
            } else {
                TransitDecision::Skip
            },
            TransitState::NoAccess => TransitDecision::Skip,
        }
    }

    /// Records how the item under way ended, given what moving it
    /// returned: the bytes moved, or why it failed.
    pub fn item_done(&mut self, result: Result<u64, FsError>)
        ensures
            final(self)@ == old(self)@.item_ended(result),
    {
        if self.batch.is_finished() {
            return ;
        }
        let outcome = match result {
            Err(e) => ItemOutcome::Failed(e),
            Ok(_) => match self.trouble {
                Some(e) => ItemOutcome::Failed(e),
                None => ItemOutcome::Done,
            },
        };
        let bytes = match result {
            Ok(n) => n,
            Err(_) => self.current_bytes,
        };
        self.batch.record(outcome);
        self.finished_bytes = self.finished_bytes.saturating_add(bytes);
        self.current_bytes = 0;
        self.trouble = None;
    }

    /// The directories whose listings the transfer may have changed.
    pub fn invalidated(&self) -> (r: Vec<String>)
        ensures
            texts_of(r@) == self@.invalidated(),
    {
        let mut dirs = self.batch.affected_directories();
        let destination = self.destination.clone();
        dirs.push(destination);
        dirs
    }
}

} // verus!
