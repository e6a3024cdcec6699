//! The application's own state between events: the errors not yet
//! dismissed, the dialog of the open operation, and whether a write to disk
//! is under way.
use vstd::prelude::*;

use crate::error::Error;
use crate::operation::{Command, DialogMessage, Operation, OperationDialog};

verus! {

/// The dialog the application shows.
#[derive(Clone, Copy, Debug, PartialEq, Eq, Structural)]
pub enum ShownDialog {
    /// The last error, which can be dismissed.
    Warning,
    /// The last error, which ends the application.
    Critical,
    /// The dialog of the open operation.
    Operation,
    /// A write to disk is under way.
    Wait,
    Nothing,
}

pub struct Session {
    pub errors: Vec<Error>,
    pub operation: Option<OperationDialog>,
    pub pending: bool,
}

impl Session {
    pub fn new() -> (r: Session)
        ensures
            r.errors@.len() == 0,
            r.operation is None,
            !r.pending,
    {
        Session { errors: Vec::new(), operation: None, pending: false }
    }

    /// Errors come first, the last one shown; then the open operation; then
    /// the wait for a write.
    pub open spec fn shown(self) -> ShownDialog {
        if self.errors@.len() > 0 {
            if self.errors@.last().recoverable {
                ShownDialog::Warning
            } else {
                ShownDialog::Critical
            }
        } else if self.operation is Some {
            ShownDialog::Operation
        } else if self.pending {
            ShownDialog::Wait
        } else {
            ShownDialog::Nothing
        }
    }

    pub fn dialog(&self) -> (r: ShownDialog)
        ensures
            r == self.shown(),
    {
        let n = self.errors.len();
        if n > 0 {
            if self.errors[n - 1].recoverable {
                ShownDialog::Warning
            } else {
                ShownDialog::Critical
            }
        } else if self.operation.is_some() {
            ShownDialog::Operation
        } else if self.pending {
            ShownDialog::Wait
        } else {
            ShownDialog::Nothing
        }
    }

    /// An error was reported; it is shown until dismissed.
    pub fn report(&mut self, error: Error)
        ensures
            final(self).errors@ == old(self).errors@.push(error),
            final(self).operation == old(self).operation,
            final(self).pending == old(self).pending,
    {
        self.errors.push(error);
    }

    pub fn dismiss_last_error(&mut self)
        ensures
            final(self).errors@ == (if old(self).errors@.len() > 0 {
                old(self).errors@.drop_last()
            } else {
                old(self).errors@
            }),
            final(self).operation == old(self).operation,
            final(self).pending == old(self).pending,
    {
        let _ = self.errors.pop();
    }

    /// Opens the dialog of `operation`, in place of any open one.
    pub fn open(&mut self, operation: Operation)
        ensures
            final(self).errors@ == old(self).errors@,
            final(self).operation matches Some(d) && operation.opens(d),
            final(self).pending == old(self).pending,
    {
        self.operation = Some(operation.into_dialog());
    }

    /// Hands `message` to the open dialog, if any.
    pub fn input(&mut self, message: DialogMessage) -> (r: Option<Command>)
        requires
            old(self).operation matches Some(d) ==> d.accepts(message),
        ensures
            final(self).errors@ == old(self).errors@,
            final(self).pending == old(self).pending,
            old(self).operation is None ==> final(self).operation is None && r is None,
            old(self).operation matches Some(d) ==> (final(self).operation matches Some(n)
                && d.step(message, n, r)),
    {
        match &mut self.operation {
            Some(d) => d.update(message),
            None => None,
        }
    }

    /// The user confirmed the open operation. With a drive selected and no
    /// write under way, the write begins: the dialog makes its request and
    /// closes, and the session waits for the write to finish. While a write
    /// is under way nothing changes and no request is made.
    pub fn confirm(&mut self, drive_selected: bool) -> (r: Option<Command>)
        requires
            old(self).operation matches Some(d) ==> d.accepts(DialogMessage::Perform),
        ensures
            final(self).errors@ == old(self).errors@,
            !drive_selected || old(self).pending ==> final(self).operation == old(self).operation
                && final(self).pending == old(self).pending && r is None,
            drive_selected && !old(self).pending ==> final(self).operation is None
                && final(self).pending,
            drive_selected && !old(self).pending && old(self).operation is None ==> r is None,
            drive_selected && !old(self).pending ==> (old(self).operation matches Some(d)
                ==> exists|n: OperationDialog| d.step(DialogMessage::Perform, n, r)),
    {
        if !drive_selected || self.pending {
            return None;
        }
        let r = match &mut self.operation {
            Some(d) => d.update(DialogMessage::Perform),
            None => None,
        };
        self.operation = None;
        self.pending = true;
        r
    }

    pub fn cancel(&mut self)
        ensures
            final(self).errors@ == old(self).errors@,
            final(self).operation is None,
            final(self).pending == old(self).pending,
    {
        self.operation = None;
    }

    /// The write to disk is over; the drive is read again.
    pub fn finish(&mut self)
        ensures
            final(self).errors@ == old(self).errors@,
            final(self).operation is None,
            !final(self).pending,
    {
        self.pending = false;
        self.operation = None;
    }
}

} // verus!
