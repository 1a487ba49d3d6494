//! The errors that the library reports.

use vstd::prelude::*;
use crate::device_uuid::{Uuid, hyphenated, hyphenated_text};

verus! {

/// A failed I/O operation, as the library sees it: whether the object was
/// missing, and the operating system's description.
#[derive(Debug)]
pub struct IoError {
    pub not_found: bool,
    pub message: String,
}

impl IoError {
    /// A copy of this description.
    pub fn copy(&self) -> (r: IoError)
        ensures
            r == *self,
    {
        IoError { not_found: self.not_found, message: self.message.clone() }
    }
}

/// An I/O error that says the object does not exist.
pub open spec fn is_absent(e: Error) -> bool {
    e matches Error::IOError(_, io) && io.not_found
}

/// Everything that can go wrong.
#[derive(Debug)]
pub enum Error {
    IOError(String, IoError),
    InvalidJSON(String),
    DeviceFormat(String),
    /// A message, the device's UUID and, where known, its parent.
    DeviceState(String, Uuid, Option<String>),
    ParentNotFound(String),
    DeviceExists(String),
    Unsupported(String),
    System(String),
    InsufficientResources(String),
    InvalidConfiguration(String),
    Callout(String),
    DeviceNotFound,
}

/// How a device is named in messages: `parent/uuid`, or the UUID alone when
/// the parent is not known.
pub open spec fn dev_label(uuid: Uuid, parent: Option<Seq<char>>) -> Seq<char> {
    match parent {
        Some(p) => p + seq!['/'] + hyphenated(uuid.value),
        None => hyphenated(uuid.value),
    }
}

/// A device's label for messages (see [`dev_label`]).
pub fn format_dev(uuid: &Uuid, parent: Option<&String>) -> (s: String)
    ensures
        s@ == dev_label(
            *uuid,
            match parent {
                Some(p) => Some(p@),
                None => None,
            },
        ),
{
    match parent {
        Some(p) => {
            let mut s = p.clone();
            crate::text::push_char(&mut s, '/');
            let u = hyphenated_text(uuid);
            s.append(u.as_str());
            s
        },
        None => hyphenated_text(uuid),
    }
}

/// An error as the contracts see it, text taken as sequences of characters.
pub enum ErrorView {
    IOError(Seq<char>, IoError),
    InvalidJSON(Seq<char>),
    DeviceFormat(Seq<char>),
    DeviceState(Seq<char>, Uuid, Option<Seq<char>>),
    ParentNotFound(Seq<char>),
    DeviceExists(Seq<char>),
    Unsupported(Seq<char>),
    System(Seq<char>),
    InsufficientResources(Seq<char>),
    InvalidConfiguration(Seq<char>),
    Callout(Seq<char>),
    DeviceNotFound,
}

impl View for Error {
    type V = ErrorView;

    open spec fn view(&self) -> ErrorView {
        match self {
            Error::IOError(m, io) => ErrorView::IOError(m@, *io),
            Error::InvalidJSON(m) => ErrorView::InvalidJSON(m@),
            Error::DeviceFormat(m) => ErrorView::DeviceFormat(m@),
            Error::DeviceState(m, u, p) => ErrorView::DeviceState(
                m@,
                *u,
                match p {
                    Some(s) => Some(s@),
                    None => None,
                },
            ),
            Error::ParentNotFound(m) => ErrorView::ParentNotFound(m@),
            Error::DeviceExists(m) => ErrorView::DeviceExists(m@),
            Error::Unsupported(m) => ErrorView::Unsupported(m@),
            Error::System(m) => ErrorView::System(m@),
            Error::InsufficientResources(m) => ErrorView::InsufficientResources(m@),
            Error::InvalidConfiguration(m) => ErrorView::InvalidConfiguration(m@),
            Error::Callout(m) => ErrorView::Callout(m@),
            Error::DeviceNotFound => ErrorView::DeviceNotFound,
        }
    }
}

} // verus!
