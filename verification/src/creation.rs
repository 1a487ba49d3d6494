//! Reading what sysfs says of a device, finding its parent, and the checks
//! made before a device is created.

use vstd::prelude::*;
use crate::device_uuid::{Uuid, hyphenated, hyphenated_text};
use crate::environment::parent_base_of;
use crate::error::{Error, IoError, is_absent};
use crate::mdev::{MDev, MDevSysfsData, no_parent_error, no_type_error};
use crate::text::{
    IntParseError, i32_value, joined, lowercase, lowercase_text, parse_i32, path_join, trim, trimmed,
};

verus! {

/// A read that failed for another reason than that nothing was there.
pub open spec fn blocking(r: Result<String, Error>) -> bool {
    r matches Err(e) && !is_absent(e)
}

impl MDevSysfsData {
    /// What sysfs says of device `uuid`, from the two reads of its parent
    /// and of its type. A read that finds nothing means that the device is
    /// not there; any other failure is passed on, the parent's first.
    pub fn load(uuid: &Uuid, parent_read: Result<String, Error>, type_read: Result<String, Error>) -> (r: Result<MDevSysfsData, Error>)
        ensures
            blocking(parent_read) ==> r == Err::<MDevSysfsData, Error>(parent_read->Err_0),
            !blocking(parent_read) && blocking(type_read) ==> r == Err::<MDevSysfsData, Error>(
                type_read->Err_0,
            ),
            !blocking(parent_read) && !blocking(type_read) && parent_read is Ok && type_read is Ok
                ==> r == Ok::<MDevSysfsData, Error>(
                MDevSysfsData {
                    uuid: *uuid,
                    parent: parent_read->Ok_0,
                    mdev_type: type_read->Ok_0,
                },
            ),
            !blocking(parent_read) && !blocking(type_read) && !(parent_read is Ok && type_read is Ok)
                ==> r matches Err(Error::DeviceNotFound),
    {
        let parent = match parent_read {
            Ok(p) => Some(p),
            Err(e) => {
                let absent = match &e {
                    Error::IOError(_, io) => io.not_found,
                    _ => false,
                };
                if !absent {
                    return Err(e);
                }
                None
            },
        };
        let mdev_type = match type_read {
            Ok(t) => Some(t),
            Err(e) => {
                let absent = match &e {
                    Error::IOError(_, io) => io.not_found,
                    _ => false,
                };
                if !absent {
                    return Err(e);
                }
                None
            },
        };
        match (parent, mdev_type) {
            (Some(parent), Some(mdev_type)) => Ok(MDevSysfsData { uuid: *uuid, parent, mdev_type }),
            _ => Err(Error::DeviceNotFound),
        }
    }

    /// [`MDevSysfsData::load`] for the device `mdev`.
    pub fn load_for_mdev(mdev: &MDev, parent_read: Result<String, Error>, type_read: Result<String, Error>) -> (r: Result<MDevSysfsData, Error>)
        ensures
            blocking(parent_read) ==> r == Err::<MDevSysfsData, Error>(parent_read->Err_0),
            !blocking(parent_read) && blocking(type_read) ==> r == Err::<MDevSysfsData, Error>(
                type_read->Err_0,
            ),
            !blocking(parent_read) && !blocking(type_read) && parent_read is Ok && type_read is Ok
                ==> r == Ok::<MDevSysfsData, Error>(
                MDevSysfsData {
                    uuid: mdev.uuid,
                    parent: parent_read->Ok_0,
                    mdev_type: type_read->Ok_0,
                },
            ),
            !blocking(parent_read) && !blocking(type_read) && !(parent_read is Ok && type_read is Ok)
                ==> r matches Err(Error::DeviceNotFound),
    {
        Self::load(&mdev.uuid, parent_read, type_read)
    }
}

/// Where sysfs shows the parent device `parent`.
pub open spec fn parent_dir_of(root: Seq<char>, parent: Seq<char>) -> Seq<char> {
    joined(parent_base_of(root), parent)
}

/// The position of the first entry that ends the search for a parent whose
/// name differs only in case: a failed read, or such a name. The length when
/// there is none.
pub open spec fn first_stop(entries: Seq<Result<String, IoError>>, parent: Seq<char>, i: int) -> int
    decreases entries.len() - i,
{
    if i >= entries.len() {
        entries.len() as int
    } else {
        match entries[i] {
            Err(_) => i,
            Ok(n) => if lowercase_text(n@) == lowercase_text(parent) {
                i
            } else {
                first_stop(entries, parent, i + 1)
            },
        }
    }
}

impl<'e> MDev<'e> {
    /// The sysfs directory of the device's parent. `parent_is_dir` tells
    /// whether that directory exists; if not, `parent_entries` is the listing
    /// of the parents that do exist (names converted lossily), in which a
    /// name that differs only in case is offered as a suggestion.
    pub fn find_parent_dir(&self, parent_is_dir: bool, parent_entries: Result<Vec<Result<String, IoError>>, IoError>) -> (r: Result<String, Error>)
        ensures
            match self@.parent {
                None => r matches Err(e) && no_parent_error(e, self.uuid),
                Some(p) => if parent_is_dir {
                    r matches Ok(s) && s@ == parent_dir_of(self.env@, p)
                } else {
                    match parent_entries {
                        Err(io) => r matches Err(Error::IOError(m, e)) && m@
                            == "Failed to read parent device directory"@ && e == io,
                        Ok(v) => {
                            let k = first_stop(v@, p, 0);
                            if k == v.len() {
                                r matches Err(Error::ParentNotFound(m)) && m@ == p
                            } else {
                                match v@[k] {
                                    Err(io) => r matches Err(Error::IOError(m, e)) && m@
                                        == "Failed to read entry in directory parent device directory"@
                                        && e == io,
                                    Ok(n) => r matches Err(Error::ParentNotFound(m)) && m@ == p
                                        + " (Did you mean "@ + n@ + "?)"@,
                                }
                            }
                        },
                    }
                },
            },
    {
        let parent = self.parent()?;
        let base = self.env.parent_base();
        let path = path_join(base.as_str(), parent.as_str());
        if parent_is_dir {
            return Ok(path);
        }
        let entries = match parent_entries {
            Ok(v) => v,
            Err(io) => {
                return Err(Error::IOError(String::from_str("Failed to read parent device directory"), io));
            },
        };
        let wanted = lowercase(parent.as_str());
        let mut i: usize = 0;
        while i < entries.len()
            invariant
                i <= entries.len(),
                wanted@ == lowercase_text(parent@),
                parent_entries matches Ok(v) && v == entries,
                self@.parent == Some(parent@),
                !parent_is_dir,
                first_stop(entries@, parent@, 0) == first_stop(entries@, parent@, i as int),
            decreases entries.len() - i,
        {
            match &entries[i] {
                Err(io) => {
                    return Err(
                        Error::IOError(
                            String::from_str("Failed to read entry in directory parent device directory"),
                            io.copy(),
                        ),
                    );
                },
                Ok(name) => {
                    let lc = lowercase(name.as_str());
                    if lc == wanted {
                        let mut m = parent.clone();
                        m.append(" (Did you mean ");
                        m.append(name.as_str());
                        m.append("?)");
                        return Err(Error::ParentNotFound(m));
                    }
                },
            }
            i = i + 1;
        }
        Err(Error::ParentNotFound(parent.clone()))
    }
}

/// The file to which a device's UUID is written to create it under the
/// parent's directory `pd`.
pub open spec fn create_path_of(pd: Seq<char>, t: Seq<char>) -> Seq<char> {
    joined(joined(joined(pd, "mdev_supported_types"@), t), "create"@)
}

/// What the checks before creating device `uuid` of type `t` under parent
/// `p` come to. A device that sysfs already shows is refused, saying how it
/// differs; then the parent's directory must be found, must support mdev
/// devices and this type, and must have an available instance left (its
/// count read as text, trimmed and parsed as an `i32`).
pub open spec fn creation_outcome(
    uuid: Uuid,
    p: Seq<char>,
    t: Seq<char>,
    sysfs: Result<MDevSysfsData, Error>,
    parent_dir: Result<String, Error>,
    supported_exists: bool,
    type_exists: bool,
    available: Result<String, IoError>,
    r: Result<String, Error>,
) -> bool {
    match sysfs {
        Ok(d) => if d.parent@ != p {
            r matches Err(Error::DeviceExists(m)) && m@ == "device "@ + hyphenated(uuid.value)
                + " found under different parent '"@ + d.parent@ + "'"@
        } else if d.mdev_type@ != t {
            r matches Err(Error::DeviceExists(m)) && m@ == "device "@ + hyphenated(uuid.value)
                + " found with different type '"@ + d.mdev_type@ + "'"@
        } else {
            r matches Err(Error::DeviceExists(m)) && m@ == hyphenated(uuid.value)
        },
        Err(_) => match parent_dir {
            Err(e) => r == Err::<String, Error>(e),
            Ok(pd) => if !supported_exists {
                r matches Err(Error::Unsupported(m)) && m@ == "parent "@ + p
                    + " is not currently registered for mdev support"@
            } else if !type_exists {
                r matches Err(Error::Unsupported(m)) && m@ == "parent "@ + p
                    + " does not support mdev type "@ + t
            } else {
                match available {
                    Err(io) => r matches Err(Error::IOError(m, e)) && m@
                        == "Failed to read number of available instances"@ && e == io,
                    Ok(text) => match i32_value(trimmed(text@)) {
                        Err(pe) => r matches Err(Error::System(m)) && m@
                            == "Failed to parse available instances as a string: "@ + pe.text(),
                        Ok(n) => if n == 0 {
                            r matches Err(Error::InsufficientResources(m)) && m@
                                == "No available instances of "@ + t + " on "@ + p
                        } else {
                            r matches Ok(s) && s@ == create_path_of(pd@, t)
                        },
                    },
                }
            },
        },
    }
}

impl<'e> MDev<'e> {
    /// The checks made before the device is created, and the file to which
    /// its UUID is then written. The inputs are what was found on the system:
    /// sysfs's view of the device, the parent's directory (as
    /// [`MDev::find_parent_dir`] gives it), whether the parent supports mdev
    /// devices and this type, and the text of its available-instances count.
    pub fn creation_target(
        &self,
        sysfs: Result<MDevSysfsData, Error>,
        parent_dir: Result<String, Error>,
        supported_exists: bool,
        type_exists: bool,
        available: Result<String, IoError>,
    ) -> (r: Result<String, Error>)
        ensures
            self.parent is None ==> (r matches Err(e) && no_parent_error(e, self.uuid)),
            self.parent is Some && self.mdev_type is None ==> (r matches Err(e) && no_type_error(
                e,
                self@,
            )),
            self@.parent is Some && self@.mdev_type is Some ==> creation_outcome(
                self.uuid,
                self@.parent->0,
                self@.mdev_type->0,
                sysfs,
                parent_dir,
                supported_exists,
                type_exists,
                available,
                r,
            ),
    {
        let parent = self.parent()?;
        let mdev_type = self.mdev_type()?;
        match &sysfs {
            Ok(d) => {
                let u = hyphenated_text(&self.uuid);
                if d.parent != *parent {
                    let mut m = String::from_str("device ");
                    m.append(u.as_str());
                    m.append(" found under different parent '");
                    m.append(d.parent.as_str());
                    m.append("'");
                    return Err(Error::DeviceExists(m));
                }
                if d.mdev_type != *mdev_type {
                    let mut m = String::from_str("device ");
                    m.append(u.as_str());
                    m.append(" found with different type '");
                    m.append(d.mdev_type.as_str());
                    m.append("'");
                    return Err(Error::DeviceExists(m));
                }
                return Err(Error::DeviceExists(u));
            },
            Err(_) => {},
        }
        let pd = parent_dir?;
        if !supported_exists {
            let mut m = String::from_str("parent ");
            m.append(parent.as_str());
            m.append(" is not currently registered for mdev support");
            return Err(Error::Unsupported(m));
        }
        if !type_exists {
            let mut m = String::from_str("parent ");
            m.append(parent.as_str());
            m.append(" does not support mdev type ");
            m.append(mdev_type.as_str());
            return Err(Error::Unsupported(m));
        }
        let text = match available {
            Ok(t) => t,
            Err(io) => {
                return Err(Error::IOError(String::from_str("Failed to read number of available instances"), io));
            },
        };
        let trimmed_text = trim(text.as_str());
        let avail = match parse_i32(trimmed_text.as_str()) {
            Ok(n) => n,
            Err(pe) => {
                let mut m = String::from_str("Failed to parse available instances as a string: ");
                let pm = pe.message();
                m.append(pm.as_str());
                return Err(Error::System(m));
            },
        };
        if avail == 0 {
            let mut m = String::from_str("No available instances of ");
            m.append(mdev_type.as_str());
            m.append(" on ");
            m.append(parent.as_str());
            return Err(Error::InsufficientResources(m));
        }
        let supported = path_join(pd.as_str(), "mdev_supported_types");
        let typed = path_join(supported.as_str(), mdev_type.as_str());
        Ok(path_join(typed.as_str(), "create"))
    }
}

} // verus!
