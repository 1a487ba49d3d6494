//! Mediated devices: their model, the text and JSON forms they are shown and
//! stored in, and the checks made when they are created.

use vstd::prelude::*;
use crate::device_uuid::{Uuid, hyphenated, hyphenated_text};
use crate::environment::{Environment, mdev_base_of, config_base_of};
use crate::error::Error;
use crate::text::{joined, path_join, push_char};

verus! {

/// Which view of a device is asked for: as it is running, or as it is
/// defined on disk.
#[derive(Clone, Copy, Debug, PartialEq, Eq, Structural)]
pub enum FormatType {
    Active,
    Defined,
}

/// What sysfs tells about a running device.
#[derive(Debug)]
pub struct MDevSysfsData {
    pub uuid: Uuid,
    pub parent: String,
    pub mdev_type: String,
}

/// A mediated device.
#[derive(Clone, Debug)]
pub struct MDev<'e> {
    pub uuid: Uuid,
    pub active: bool,
    pub autostart: bool,
    pub parent: Option<String>,
    pub mdev_type: Option<String>,
    pub attrs: Vec<(String, String)>,
    pub env: &'e Environment,
}

/// A device as the contracts see it: its fields, with text taken as
/// sequences of characters.
pub struct MDevView {
    pub uuid: Uuid,
    pub active: bool,
    pub autostart: bool,
    pub parent: Option<Seq<char>>,
    pub mdev_type: Option<Seq<char>>,
    pub attrs: Seq<(Seq<char>, Seq<char>)>,
}

/// An optional text, as a sequence of characters.
pub open spec fn opt_text(o: Option<String>) -> Option<Seq<char>> {
    match o {
        Some(s) => Some(s@),
        None => None,
    }
}

/// An attribute (name and value), as sequences of characters.
pub open spec fn attr_text(a: (String, String)) -> (Seq<char>, Seq<char>) {
    (a.0@, a.1@)
}

/// The attributes, as sequences of characters.
pub open spec fn attrs_text(a: Seq<(String, String)>) -> Seq<(Seq<char>, Seq<char>)> {
    a.map_values(|p: (String, String)| attr_text(p))
}

impl<'e> View for MDev<'e> {
    type V = MDevView;

    open spec fn view(&self) -> MDevView {
        MDevView {
            uuid: self.uuid,
            active: self.active,
            autostart: self.autostart,
            parent: opt_text(self.parent),
            mdev_type: opt_text(self.mdev_type),
            attrs: attrs_text(self.attrs@),
        }
    }
}

/// A new, inactive device with nothing known of it but its UUID.
pub open spec fn fresh_view(uuid: Uuid) -> MDevView {
    MDevView {
        uuid,
        active: false,
        autostart: false,
        parent: None,
        mdev_type: None,
        attrs: Seq::empty(),
    }
}

/// The message and parent of the error for a device whose parent is unknown.
pub open spec fn no_parent_error(e: Error, uuid: Uuid) -> bool {
    e matches Error::DeviceState(m, u, p) && m@ == "parent device is not specified"@ && u == uuid
        && p is None
}

/// The error for a device whose type is unknown.
pub open spec fn no_type_error(e: Error, d: MDevView) -> bool {
    e matches Error::DeviceState(m, u, p) && m@ == "mdev_type is not specified"@ && u == d.uuid
        && opt_text(p) == d.parent
}

/// Where sysfs shows a running device with this UUID.
pub open spec fn active_path_of(root: Seq<char>, uuid: Uuid) -> Seq<char> {
    joined(mdev_base_of(root), hyphenated(uuid.value))
}

/// Where the definition of a device with this UUID under this parent is
/// kept.
pub open spec fn persistent_path_of(root: Seq<char>, parent: Seq<char>, uuid: Uuid) -> Seq<char> {
    joined(joined(config_base_of(root), parent), hyphenated(uuid.value))
}

/// A device after it takes sysfs data: data for its own UUID gives it that
/// parent and type and marks it active; data for another UUID is ignored.
pub open spec fn with_sysfs_data(d: MDevView, uuid: Uuid, parent: Seq<char>, mdev_type: Seq<char>) -> MDevView {
    if d.uuid == uuid {
        MDevView { parent: Some(parent), mdev_type: Some(mdev_type), active: true, ..d }
    } else {
        d
    }
}

/// Whether a device has the parent and type that sysfs shows.
pub open spec fn sysfs_matches(d: MDevView, parent: Seq<char>, mdev_type: Seq<char>) -> bool {
    d.parent == Some(parent) && d.mdev_type == Some(mdev_type)
}

/// A copy of an optional text.
pub fn copy_opt_text(o: &Option<String>) -> (r: Option<String>)
    ensures
        opt_text(r) == opt_text(*o),
{
    match o {
        Some(s) => Some(s.clone()),
        None => None,
    }
}

impl MDevSysfsData {
    /// Where sysfs shows the running device `uuid`.
    pub fn active_path(env: &Environment, uuid: &Uuid) -> (p: String)
        ensures
            p@ == active_path_of(env@, *uuid),
    {
        let base = env.mdev_base();
        let u = hyphenated_text(uuid);
        path_join(base.as_str(), u.as_str())
    }
}

impl<'e> MDev<'e> {
    pub fn new(env: &'e Environment, uuid: Uuid) -> (d: MDev<'e>)
        ensures
            d@ == fresh_view(uuid),
            d.env == env,
    {
        let d = MDev {
            uuid,
            active: false,
            autostart: false,
            parent: None,
            mdev_type: None,
            attrs: Vec::new(),
            env,
        };
        assert(d@.attrs =~= Seq::<(Seq<char>, Seq<char>)>::empty());
        d
    }

    /// Where sysfs shows this device while it runs.
    pub fn active_path(&self) -> (p: String)
        ensures
            p@ == active_path_of(self.env@, self.uuid),
    {
        MDevSysfsData::active_path(self.env, &self.uuid)
    }

    /// The parent device, or the error that says it is not specified.
    pub fn parent(&self) -> (r: Result<&String, Error>)
        ensures
            match r {
                Ok(p) => self.parent == Some(*p),
                Err(e) => self.parent is None && no_parent_error(e, self.uuid),
            },
    {
        match &self.parent {
            Some(p) => Ok(p),
            None => Err(Error::DeviceState(String::from_str("parent device is not specified"), self.uuid, None)),
        }
    }

    /// The device's type, or the error that says it is not specified.
    pub fn mdev_type(&self) -> (r: Result<&String, Error>)
        ensures
            match r {
                Ok(t) => self.mdev_type == Some(*t),
                Err(e) => self.mdev_type is None && no_type_error(e, self@),
            },
    {
        match &self.mdev_type {
            Some(t) => Ok(t),
            None => Err(
                Error::DeviceState(
                    String::from_str("mdev_type is not specified"),
                    self.uuid,
                    copy_opt_text(&self.parent),
                ),
            ),
        }
    }

    /// Where the device's definition is kept; that needs its parent.
    pub fn persistent_path(&self) -> (r: Result<String, Error>)
        ensures
            match r {
                Ok(p) => self@.parent matches Some(parent) && p@ == persistent_path_of(
                    self.env@,
                    parent,
                    self.uuid,
                ),
                Err(e) => self.parent is None && no_parent_error(e, self.uuid),
            },
    {
        let parent = self.parent()?;
        let base = self.env.config_base();
        let dir = path_join(base.as_str(), parent.as_str());
        let u = hyphenated_text(&self.uuid);
        Ok(path_join(dir.as_str(), u.as_str()))
    }

    /// Takes what sysfs says of a running device: its parent and type, and
    /// that it is active. Data for another UUID is ignored.
    pub fn set_sysfs_data(&mut self, sysfs_data: MDevSysfsData)
        ensures
            final(self).env == old(self).env,
            final(self)@ == with_sysfs_data(
                old(self)@,
                sysfs_data.uuid,
                sysfs_data.parent@,
                sysfs_data.mdev_type@,
            ),
    {
        if self.uuid != sysfs_data.uuid {
            return;
        }
        self.parent = Some(sysfs_data.parent);
        self.mdev_type = Some(sysfs_data.mdev_type);
        self.active = true;
    }

    /// Whether sysfs shows the device with the parent and type that it has.
    pub fn sysfs_data_matches(&self, sysfs_data: &MDevSysfsData) -> (b: bool)
        ensures
            b == sysfs_matches(self@, sysfs_data.parent@, sysfs_data.mdev_type@),
    {
        match &self.parent {
            Some(p) => {
                if *p != sysfs_data.parent {
                    return false;
                }
            },
            None => {
                return false;
            },
        }
        match &self.mdev_type {
            Some(t) => *t == sysfs_data.mdev_type,
            None => false,
        }
    }
}

/// Sysfs data for a device's own UUID, once taken, matches the device; and
/// data for another UUID leaves the device as it was.
pub proof fn law_taken_sysfs_data_matches(before: MDevView, sysfs_uuid: Uuid, parent: Seq<char>, mdev_type: Seq<char>)
    ensures
        sysfs_matches(with_sysfs_data(before, sysfs_uuid, parent, mdev_type), parent, mdev_type)
            <== before.uuid == sysfs_uuid,
        before.uuid != sysfs_uuid ==> with_sysfs_data(before, sysfs_uuid, parent, mdev_type) == before,
{
}

} // verus!
