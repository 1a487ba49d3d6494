//! Starting and stopping a device: the decisions between the writes to
//! sysfs, which the caller makes.

use vstd::prelude::*;
use crate::device_uuid::{hyphenated, hyphenated_text};
use crate::error::{Error, ErrorView, IoError};
use crate::mdev::{MDev, MDevView, active_path_of, no_parent_error, no_type_error};
use crate::text::{joined, path_join};

verus! {

/// Where starting a device stands: creating it, writing attribute `i`, or
/// stopping it again after an attribute could not be written (with that
/// error).
pub enum StartStage {
    Creating,
    Writing(usize),
    Stopping(Error),
}

/// What to do next while starting a device: write attribute `i` (its name
/// and value, to the running device), stop the device (the error is the one
/// to report once it is stopped), or finish with the result.
pub enum StartAction {
    WriteAttr(usize),
    Stop(Error),
    Finish(Result<(), Error>),
}

/// The next step of starting a device with `n` attributes, after the step
/// for `stage` came to `outcome`: a device that cannot be created is not
/// started; once created, its attributes are written in order; when one
/// cannot be written, the device is stopped and that error reported, unless
/// stopping fails too, whose error is reported instead.
pub open spec fn start_next(n: nat, stage: StartStage, outcome: Result<(), Error>) -> StartAction {
    match stage {
        StartStage::Creating => match outcome {
            Err(e) => StartAction::Finish(Err(e)),
            Ok(_) => if n > 0 {
                StartAction::WriteAttr(0)
            } else {
                StartAction::Finish(Ok(()))
            },
        },
        StartStage::Writing(i) => match outcome {
            Err(e) => StartAction::Stop(e),
            Ok(_) => if i + 1 < n {
                StartAction::WriteAttr((i + 1) as usize)
            } else {
                StartAction::Finish(Ok(()))
            },
        },
        StartStage::Stopping(e) => match outcome {
            Err(s) => StartAction::Finish(Err(s)),
            Ok(_) => StartAction::Finish(Err(e)),
        },
    }
}

/// The message for a device that could not be created under its parent.
pub open spec fn creation_failure_message(d: MDevView) -> Seq<char> {
    "Failed to create mdev "@ + hyphenated(d.uuid.value) + ", type "@ + d.mdev_type->0 + " on "@
        + d.parent->0
}

/// The file whose writing removes a running device.
pub open spec fn removal_path_of(root: Seq<char>, d: MDevView) -> Seq<char> {
    joined(active_path_of(root, d.uuid), "remove"@)
}

/// The message for a device that could not be removed.
pub open spec fn removal_message(d: MDevView) -> Seq<char> {
    "Error removing device "@ + hyphenated(d.uuid.value)
}

impl<'e> MDev<'e> {
    /// The step that follows `stage` while the device is started, `outcome`
    /// being what that step came to.
    pub fn start_step(&self, stage: StartStage, outcome: Result<(), Error>) -> (a: StartAction)
        ensures
            a == start_next(self.attrs@.len(), stage, outcome),
    {
        match stage {
            StartStage::Creating => match outcome {
                Err(e) => StartAction::Finish(Err(e)),
                Ok(_) => if self.attrs.len() > 0 {
                    StartAction::WriteAttr(0)
                } else {
                    StartAction::Finish(Ok(()))
                },
            },
            StartStage::Writing(i) => match outcome {
                Err(e) => StartAction::Stop(e),
                Ok(_) => if i < self.attrs.len() && i + 1 < self.attrs.len() {
                    StartAction::WriteAttr(i + 1)
                } else {
                    StartAction::Finish(Ok(()))
                },
            },
            StartStage::Stopping(e) => match outcome {
                Err(s) => StartAction::Finish(Err(s)),
                Ok(_) => StartAction::Finish(Err(e)),
            },
        }
    }

    /// The device after writing its UUID to its parent's `create` file came
    /// to `outcome`: a device that was created is active; otherwise it stays
    /// as it was, and the error names the device, its type and its parent. A
    /// device without a parent or a type is refused as creation refuses it.
    pub fn created(&mut self, outcome: Result<(), IoError>) -> (r: Result<(), Error>)
        ensures
            final(self).env == old(self).env,
            old(self).parent is None ==> {
                &&& final(self)@ == old(self)@
                &&& r matches Err(e)
                &&& no_parent_error(e, old(self).uuid)
            },
            old(self).parent is Some && old(self).mdev_type is None ==> {
                &&& final(self)@ == old(self)@
                &&& r matches Err(e)
                &&& no_type_error(e, old(self)@)
            },
            old(self).parent is Some && old(self).mdev_type is Some ==> match outcome {
                Ok(_) => r is Ok && final(self)@ == MDevView { active: true, ..old(self)@ },
                Err(io) => {
                    &&& final(self)@ == old(self)@
                    &&& r matches Err(e)
                    &&& e@ == ErrorView::IOError(creation_failure_message(old(self)@), io)
                },
            },
    {
        let parent = self.parent()?.clone();
        let mdev_type = self.mdev_type()?.clone();
        match outcome {
            Ok(()) => {
                self.active = true;
                Ok(())
            },
            Err(io) => {
                let mut m = String::from_str("Failed to create mdev ");
                let u = hyphenated_text(&self.uuid);
                m.append(u.as_str());
                m.append(", type ");
                m.append(mdev_type.as_str());
                m.append(" on ");
                m.append(parent.as_str());
                Err(Error::IOError(m, io))
            },
        }
    }

    /// The sysfs file that removes the running device when `1` is written to
    /// it.
    pub fn removal_path(&self) -> (p: String)
        ensures
            p@ == removal_path_of(self.env@, self@),
    {
        let a = self.active_path();
        path_join(a.as_str(), "remove")
    }

    /// The device after writing to its removal file came to `outcome`: a
    /// device that was removed is no longer active; otherwise it stays as it
    /// was, and the error says which device could not be removed.
    pub fn stopped(&mut self, outcome: Result<(), IoError>) -> (r: Result<(), Error>)
        ensures
            final(self).env == old(self).env,
            match outcome {
                Ok(_) => r is Ok && final(self)@ == MDevView { active: false, ..old(self)@ },
                Err(io) => {
                    &&& final(self)@ == old(self)@
                    &&& r matches Err(e)
                    &&& e@ == ErrorView::IOError(removal_message(old(self)@), io)
                },
            },
    {
        match outcome {
            Ok(()) => {
                self.active = false;
                Ok(())
            },
            Err(io) => {
                let mut m = String::from_str("Error removing device ");
                let u = hyphenated_text(&self.uuid);
                m.append(u.as_str());
                Err(Error::IOError(m, io))
            },
        }
    }
}

/// Starting a device writes every attribute in order: once it is created,
/// the first attribute is written (or, with none, the start succeeds);
/// after attribute `i` is written, attribute `i + 1` follows while there is
/// one, and the start succeeds after the last.
pub proof fn law_start_writes_every_attribute(n: nat, i: usize)
    ensures
        start_next(n, StartStage::Creating, Ok(())) == if n > 0 {
            StartAction::WriteAttr(0)
        } else {
            StartAction::Finish(Ok(()))
        },
        i + 1 < n ==> start_next(n, StartStage::Writing(i), Ok(())) == StartAction::WriteAttr(
            (i + 1) as usize,
        ),
        i + 1 == n ==> start_next(n, StartStage::Writing(i), Ok(())) == StartAction::Finish(Ok(())),
{
}

/// The action taken once the device is created and then `k` attribute
/// writes in a row have succeeded (an action that writes nothing stays).
pub open spec fn action_after_writes(n: nat, k: nat) -> StartAction
    decreases k,
{
    if k == 0 {
        start_next(n, StartStage::Creating, Ok(()))
    } else {
        match action_after_writes(n, (k - 1) as nat) {
            StartAction::WriteAttr(i) => start_next(n, StartStage::Writing(i), Ok(())),
            a => a,
        }
    }
}

/// When every write succeeds, starting a device with `n` attributes writes
/// attributes 0, 1, ..., n - 1, one after the other, and then succeeds.
pub proof fn law_start_writes_all_in_order(n: nat, k: nat)
    requires
        n <= usize::MAX,
    ensures
        k < n ==> action_after_writes(n, k) == StartAction::WriteAttr(k as usize),
        k == n ==> action_after_writes(n, k) == StartAction::Finish(Ok(())),
    decreases k,
{
    if k > 0 {
        law_start_writes_all_in_order(n, (k - 1) as nat);
    }
}

} // verus!
