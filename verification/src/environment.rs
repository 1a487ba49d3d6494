//! The file-system layout that the tool works in: where sysfs keeps devices
//! and parents, where device definitions and scripts are kept, all below a
//! root directory that tests can move.

use vstd::prelude::*;
use crate::error::Error;
use crate::text::{joined, path_join, path_debug, path_debug_text};

verus! {

/// The root directory under which every other directory is found.
#[derive(Debug)]
pub struct Environment {
    rootpath: String,
}

impl View for Environment {
    type V = Seq<char>;

    closed spec fn view(&self) -> Seq<char> {
        self.rootpath@
    }
}

/// Where sysfs lists the mediated devices.
pub open spec fn mdev_base_of(root: Seq<char>) -> Seq<char> {
    joined(root, "sys/bus/mdev/devices"@)
}

/// Where device definitions are kept, one directory per parent.
pub open spec fn config_base_of(root: Seq<char>) -> Seq<char> {
    joined(root, "etc/mdevctl.d"@)
}

/// Where sysfs lists the parent devices.
pub open spec fn parent_base_of(root: Seq<char>) -> Seq<char> {
    joined(root, "sys/class/mdev_bus"@)
}

/// The scripts directory among the definitions (its former place).
pub open spec fn config_scripts_base_of(root: Seq<char>) -> Seq<char> {
    joined(config_base_of(root), "scripts.d"@)
}

/// The scripts directory.
pub open spec fn scripts_base_of(root: Seq<char>) -> Seq<char> {
    joined(root, "usr/lib/mdevctl/scripts.d"@)
}

/// The callout scripts.
pub open spec fn callout_dir_of(root: Seq<char>) -> Seq<char> {
    joined(scripts_base_of(root), "callouts"@)
}

/// The callout scripts in their former place.
pub open spec fn old_callout_dir_of(root: Seq<char>) -> Seq<char> {
    joined(config_scripts_base_of(root), "callouts"@)
}

/// The notification scripts.
pub open spec fn notification_dir_of(root: Seq<char>) -> Seq<char> {
    joined(scripts_base_of(root), "notifiers"@)
}

/// The notification scripts in their former place.
pub open spec fn old_notification_dir_of(root: Seq<char>) -> Seq<char> {
    joined(config_scripts_base_of(root), "notifiers"@)
}

/// The directories that an installation must provide, in the order in which
/// they are checked.
pub open spec fn required_dirs_of(root: Seq<char>) -> Seq<Seq<char>> {
    seq![config_base_of(root), callout_dir_of(root), notification_dir_of(root)]
}

/// The position of the first directory of `n` that `present` does not report
/// as existing (a directory without an entry counts as missing); `n` when all
/// are there.
pub open spec fn first_missing(present: Seq<bool>, k: int, n: int) -> int
    decreases n - k,
{
    if k >= n {
        n
    } else if !(k < present.len() && present[k]) {
        k
    } else {
        first_missing(present, k + 1, n)
    }
}

/// The message for a required directory that does not exist.
pub open spec fn missing_dir_message(dir: Seq<char>) -> Seq<char> {
    "Required directory "@ + path_debug_text(dir)
        + " doesn't exist. This may indicate a packaging or installation error"@
}

impl Environment {
    /// An environment rooted at `root`, or at `root_override` where that is
    /// given (the tool takes it from the environment variable
    /// `MDEVCTL_ENV_ROOT`).
    pub fn new(root: String, root_override: Option<String>) -> (env: Self)
        ensures
            env@ == match root_override {
                Some(r) => r@,
                None => root@,
            },
    {
        match root_override {
            Some(r) => Environment { rootpath: r },
            None => Environment { rootpath: root },
        }
    }

    pub fn root(&self) -> (r: &String)
        ensures
            r@ == self@,
    {
        &self.rootpath
    }

    /// Where sysfs lists the mediated devices.
    pub fn mdev_base(&self) -> (p: String)
        ensures
            p@ == mdev_base_of(self@),
    {
        path_join(self.rootpath.as_str(), "sys/bus/mdev/devices")
    }

    /// Where device definitions are kept, one directory per parent.
    pub fn config_base(&self) -> (p: String)
        ensures
            p@ == config_base_of(self@),
    {
        path_join(self.rootpath.as_str(), "etc/mdevctl.d")
    }

    /// Where sysfs lists the parent devices that support mediated devices.
    pub fn parent_base(&self) -> (p: String)
        ensures
            p@ == parent_base_of(self@),
    {
        path_join(self.rootpath.as_str(), "sys/class/mdev_bus")
    }

    pub fn config_scripts_base(&self) -> (p: String)
        ensures
            p@ == config_scripts_base_of(self@),
    {
        let c = self.config_base();
        path_join(c.as_str(), "scripts.d")
    }

    pub fn scripts_base(&self) -> (p: String)
        ensures
            p@ == scripts_base_of(self@),
    {
        path_join(self.rootpath.as_str(), "usr/lib/mdevctl/scripts.d")
    }

    pub fn callout_dir(&self) -> (p: String)
        ensures
            p@ == callout_dir_of(self@),
    {
        let s = self.scripts_base();
        path_join(s.as_str(), "callouts")
    }

    pub fn old_callout_dir(&self) -> (p: String)
        ensures
            p@ == old_callout_dir_of(self@),
    {
        let s = self.config_scripts_base();
        path_join(s.as_str(), "callouts")
    }

    /// The callout directories, the current one first.
    pub fn callout_dirs(&self) -> (v: Vec<String>)
        ensures
            v@.len() == 2,
            v@[0]@ == callout_dir_of(self@),
            v@[1]@ == old_callout_dir_of(self@),
    {
        let mut v: Vec<String> = Vec::new();
        v.push(self.callout_dir());
        v.push(self.old_callout_dir());
        v
    }

    pub fn notification_dir(&self) -> (p: String)
        ensures
            p@ == notification_dir_of(self@),
    {
        let s = self.scripts_base();
        path_join(s.as_str(), "notifiers")
    }

    pub fn old_notification_dir(&self) -> (p: String)
        ensures
            p@ == old_notification_dir_of(self@),
    {
        let s = self.config_scripts_base();
        path_join(s.as_str(), "notifiers")
    }

    /// The notification directories, the current one first.
    pub fn notification_dirs(&self) -> (v: Vec<String>)
        ensures
            v@.len() == 2,
            v@[0]@ == notification_dir_of(self@),
            v@[1]@ == old_notification_dir_of(self@),
    {
        let mut v: Vec<String> = Vec::new();
        v.push(self.notification_dir());
        v.push(self.old_notification_dir());
        v
    }

    /// The directories that [`Environment::self_check`] asks about, in order.
    pub fn required_dirs(&self) -> (v: Vec<String>)
        ensures
            v@.len() == 3,
            forall|k: int| 0 <= k < 3 ==> #[trigger] v@[k]@ == required_dirs_of(self@)[k],
    {
        let mut v: Vec<String> = Vec::new();
        v.push(self.config_base());
        v.push(self.callout_dir());
        v.push(self.notification_dir());
        v
    }

    /// Checks that the environment is sane: `present[k]` tells whether the
    /// `k`-th of [`Environment::required_dirs`] exists. The first one that
    /// does not is reported.
    pub fn self_check(&self, present: &Vec<bool>) -> (r: Result<(), Error>)
        ensures
            first_missing(present@, 0, 3) == 3 ==> r is Ok,
            first_missing(present@, 0, 3) < 3 ==> (r matches Err(Error::System(m)) && m@
                == missing_dir_message(required_dirs_of(self@)[first_missing(present@, 0, 3)])),
    {
        let dirs = self.required_dirs();
        let mut k: usize = 0;
        while k < 3
            invariant
                k <= 3,
                dirs@.len() == 3,
                forall|j: int| 0 <= j < 3 ==> #[trigger] dirs@[j]@ == required_dirs_of(self@)[j],
                first_missing(present@, 0, 3) == first_missing(present@, k as int, 3),
            decreases 3 - k,
        {
            if !(k < present.len() && present[k]) {
                let mut m = String::from_str("Required directory ");
                let d = path_debug(dirs[k].as_str());
                m.append(d.as_str());
                m.append(" doesn't exist. This may indicate a packaging or installation error");
                return Err(Error::System(m));
            }
            k = k + 1;
        }
        Ok(())
    }
}

} // verus!
