//! Listing the devices that are defined on disk, from what was read of the
//! configuration directory.

use vstd::prelude::*;
use crate::definition::loaded_from_json;
use crate::device_uuid::{Uuid, parse_uuid, parsed_uuid};
use crate::environment::{Environment, config_base_of, scripts_base_of};
use crate::error::{Error, ErrorView, IoError};
use crate::json::{JsonFile, JsonFileView, JsonView, file_view, parse_json};
use crate::mdev::{MDev, MDevSysfsData, MDevView, fresh_view, sysfs_matches, with_sysfs_data, opt_text};
use crate::supported_types::{contents_failure, dir_entry_debug};
use crate::text::{joined, path_debug, path_debug_text, path_join};
use crate::text_map::{TextMap, as_map, entry_view, key_order, lemma_map_shape};

verus! {

/// What was read of one file in a parent's configuration directory. The
/// contents and sysfs's view of the device are consulted only where the
/// entry is a file whose name is a UUID that is asked for.
pub struct DefinedChildEntry {
    /// The file name (converted lossily where it is not UTF-8).
    pub file_name: String,
    pub utf8_name: bool,
    pub is_file: Result<bool, IoError>,
    pub contents: JsonFile,
    pub sysfs: Result<MDevSysfsData, Error>,
}

/// What was read of one entry of the configuration directory.
pub struct DefinedParentEntry {
    /// The entry's name (converted lossily where it is not UTF-8).
    pub file_name: String,
    pub utf8_name: bool,
    pub is_dir: Result<bool, IoError>,
    /// The entries of the directory, or why it could not be read.
    pub children: Result<Vec<Result<DefinedChildEntry, IoError>>, IoError>,
}

/// What one entry comes to while devices are listed.
pub enum DeviceStep {
    Skip,
    Found(MDevView),
    Fail(ErrorView),
}

/// Whether a device with value `v` is passed over because another UUID is
/// asked for.
pub open spec fn other_uuid(wanted: Option<Uuid>, v: u128) -> bool {
    wanted matches Some(w) && w.value != v
}

/// A device defined under `pname` by the JSON `json`, after sysfs's view of
/// it is taken where that matches the definition.
pub open spec fn defined_device(pname: Seq<char>, uuid: Uuid, json: JsonView, sysfs: Result<MDevSysfsData, Error>) -> (MDevView, Option<Seq<char>>) {
    let loaded = loaded_from_json(fresh_view(uuid), pname, json);
    match sysfs {
        Ok(d) => if sysfs_matches(loaded.0, d.parent@, d.mdev_type@) {
            (with_sysfs_data(loaded.0, d.uuid, d.parent@, d.mdev_type@), loaded.1)
        } else {
            loaded
        },
        Err(_) => loaded,
    }
}

/// Reading one file of the directory `pdir` of parent `pname`: what is not a
/// readable file named by a wanted UUID is passed over (as is a file that
/// cannot be opened); a file that cannot be read, is not JSON or is not a
/// valid definition stops the listing.
pub open spec fn defined_child_step(pdir: Seq<char>, pname: Seq<char>, wanted: Option<Uuid>, c: DefinedChildEntry) -> DeviceStep {
    match c.is_file {
        Err(_) => DeviceStep::Skip,
        Ok(is_file) => if !is_file || !c.utf8_name {
            DeviceStep::Skip
        } else {
            match parsed_uuid(c.file_name@) {
                None => DeviceStep::Skip,
                Some(v) => if other_uuid(wanted, v) {
                    DeviceStep::Skip
                } else {
                    match file_view(c.contents) {
                        JsonFileView::Unopened(_) => DeviceStep::Skip,
                        JsonFileView::Unread(io) => DeviceStep::Fail(
                            ErrorView::IOError(contents_failure(joined(pdir, c.file_name@)), io),
                        ),
                        JsonFileView::Invalid(m) => DeviceStep::Fail(ErrorView::InvalidJSON(m)),
                        JsonFileView::Parsed(json) => {
                            let d = defined_device(pname, Uuid { value: v }, json, c.sysfs);
                            match d.1 {
                                Some(m) => DeviceStep::Fail(ErrorView::DeviceFormat(m)),
                                None => DeviceStep::Found(d.0),
                            }
                        },
                    }
                }
            }
        },
    }
}

/// The devices read from the files of a parent's directory, in order, or
/// the first error.
pub open spec fn defined_children_fold(pdir: Seq<char>, pname: Seq<char>, wanted: Option<Uuid>, children: Seq<Result<DefinedChildEntry, IoError>>) -> Result<Seq<MDevView>, ErrorView>
    decreases children.len(),
{
    if children.len() == 0 {
        Ok(Seq::empty())
    } else {
        match defined_children_fold(pdir, pname, wanted, children.drop_last()) {
            Err(e) => Err(e),
            Ok(prev) => match children.last() {
                Err(io) => Err(
                    ErrorView::IOError("Failed to read entry from directory "@ + dir_entry_debug(pdir), io),
                ),
                Ok(c) => match defined_child_step(pdir, pname, wanted, c) {
                    DeviceStep::Skip => Ok(prev),
                    DeviceStep::Found(d) => Ok(prev.push(d)),
                    DeviceStep::Fail(e) => Err(e),
                },
            },
        }
    }
}

/// The number of leading entries that name the scripts directory (which the
/// listing passes over).
pub open spec fn leading_scripts(root: Seq<char>, entries: Seq<Result<DefinedParentEntry, IoError>>, i: int) -> int
    decreases entries.len() - i,
{
    if i >= entries.len() {
        entries.len() as int
    } else {
        match entries[i] {
            Ok(p) => if joined(config_base_of(root), p.file_name@) == scripts_base_of(root) {
                leading_scripts(root, entries, i + 1)
            } else {
                i
            },
            Err(_) => i,
        }
    }
}

/// The devices per parent read from the entries of the configuration
/// directory, or the first error. Entries whose names are not UTF-8, other
/// parents than the one asked for, and what is not a directory are passed
/// over; a directory that cannot be listed, or that holds no wanted device,
/// adds nothing.
pub open spec fn defined_parents_fold(root: Seq<char>, wanted: Option<Uuid>, wanted_parent: Option<Seq<char>>, entries: Seq<Result<DefinedParentEntry, IoError>>) -> Result<Map<Seq<char>, Seq<MDevView>>, ErrorView>
    decreases entries.len(),
{
    if entries.len() == 0 {
        Ok(Map::empty())
    } else {
        match defined_parents_fold(root, wanted, wanted_parent, entries.drop_last()) {
            Err(e) => Err(e),
            Ok(prev) => match entries.last() {
                Err(io) => Err(
                    ErrorView::IOError(
                        "Failed to read entry from persistent device configuration directory"@,
                        io,
                    ),
                ),
                Ok(pe) => if !pe.utf8_name || (wanted_parent is Some && wanted_parent != Some(
                    pe.file_name@,
                )) {
                    Ok(prev)
                } else {
                    let pdir = joined(config_base_of(root), pe.file_name@);
                    match pe.is_dir {
                        Err(io) => Err(
                            ErrorView::IOError("Failed to read metadata for "@ + dir_entry_debug(pdir), io),
                        ),
                        Ok(is_dir) => if !is_dir {
                            Ok(prev)
                        } else {
                            match pe.children {
                                Err(_) => Ok(prev),
                                Ok(list) => match defined_children_fold(pdir, pe.file_name@, wanted, list@) {
                                    Err(e) => Err(e),
                                    Ok(devs) => if devs.len() == 0 {
                                        Ok(prev)
                                    } else {
                                        Ok(prev.insert(pe.file_name@, devs))
                                    },
                                },
                            }
                        },
                    }
                }
            },
        }
    }
}

/// The defined devices per parent, from what was read of the configuration
/// directory (an error where the directory itself could not be read).
pub open spec fn defined_devices_of(root: Seq<char>, wanted: Option<Uuid>, wanted_parent: Option<Seq<char>>, listing: Result<Vec<Result<DefinedParentEntry, IoError>>, IoError>) -> Result<Map<Seq<char>, Seq<MDevView>>, ErrorView> {
    match listing {
        Err(io) => Err(
            ErrorView::IOError("Failed to read persistent device configuration directory"@, io),
        ),
        Ok(v) => {
            let s = v@;
            defined_parents_fold(root, wanted, wanted_parent, s.skip(leading_scripts(root, s, 0)))
        },
    }
}

/// The view of a device.
pub open spec fn dev_view<'e>(d: MDev<'e>) -> MDevView {
    d@
}

/// `m` holds the devices of `want` under the same keys, all of them in
/// environment `env`.
pub open spec fn device_map_matches<'e>(m: Map<Seq<char>, Vec<MDev<'e>>>, want: Map<Seq<char>, Seq<MDevView>>, env: &'e Environment) -> bool {
    &&& m.dom() == want.dom()
    &&& forall|k: Seq<char>| #[trigger] want.contains_key(k) ==> m[k]@.map_values(|d: MDev<'e>| dev_view(d)) == want[k]
    &&& forall|k: Seq<char>, i: int| #[trigger] want.contains_key(k) && 0 <= i < m[k]@.len() ==> #[trigger] m[k]@[i].env == env
}

/// An optional borrowed UUID, as a value.
pub open spec fn opt_uuid(u: Option<&Uuid>) -> Option<Uuid> {
    match u {
        Some(x) => Some(*x),
        None => None,
    }
}

/// An optional borrowed text, as a sequence of characters.
pub open spec fn opt_ref_text(p: Option<&String>) -> Option<Seq<char>> {
    match p {
        Some(s) => Some(s@),
        None => None,
    }
}

proof fn lemma_children_error_sticks(pdir: Seq<char>, pname: Seq<char>, wanted: Option<Uuid>, s: Seq<Result<DefinedChildEntry, IoError>>, k: int, n: int)
    requires
        0 <= k <= n <= s.len(),
        defined_children_fold(pdir, pname, wanted, s.take(k)) is Err,
    ensures
        defined_children_fold(pdir, pname, wanted, s.take(n)) == defined_children_fold(pdir, pname, wanted, s.take(k)),
    decreases n - k,
{
    if n > k {
        lemma_children_error_sticks(pdir, pname, wanted, s, k, n - 1);
        assert(s.take(n).drop_last() =~= s.take(n - 1));
    }
}

proof fn lemma_parents_error_sticks(root: Seq<char>, wanted: Option<Uuid>, wp: Option<Seq<char>>, s: Seq<Result<DefinedParentEntry, IoError>>, k: int, n: int)
    requires
        0 <= k <= n <= s.len(),
        defined_parents_fold(root, wanted, wp, s.take(k)) is Err,
    ensures
        defined_parents_fold(root, wanted, wp, s.take(n)) == defined_parents_fold(root, wanted, wp, s.take(k)),
    decreases n - k,
{
    if n > k {
        lemma_parents_error_sticks(root, wanted, wp, s, k, n - 1);
        assert(s.take(n).drop_last() =~= s.take(n - 1));
    }
}

impl Environment {
    fn read_defined_child<'e>(&'e self, pdir: &String, pname: &String, uuid: Option<&Uuid>, c: DefinedChildEntry) -> (r: Result<Option<MDev<'e>>, Error>)
        ensures
            match defined_child_step(pdir@, pname@, opt_uuid(uuid), c) {
                DeviceStep::Skip => r matches Ok(None),
                DeviceStep::Found(d) => r matches Ok(Some(x)) && x@ == d && x.env == self,
                DeviceStep::Fail(ev) => r matches Err(x) && x@ == ev,
            },
    {
        let is_file = match c.is_file {
            Ok(b) => b,
            Err(_) => {
                return Ok(None);
            },
        };
        if !is_file || !c.utf8_name {
            return Ok(None);
        }
        let u = match parse_uuid(c.file_name.as_str()) {
            Some(u) => u,
            None => {
                return Ok(None);
            },
        };
        match uuid {
            Some(w) => {
                if w.value != u.value {
                    return Ok(None);
                }
            },
            None => {},
        }
        let json = match c.contents {
            JsonFile::Unopened(_) => {
                return Ok(None);
            },
            JsonFile::Unread(io) => {
                let p = path_join(pdir.as_str(), c.file_name.as_str());
                let mut m = String::from_str("Failed to read contents of ");
                let d = path_debug(p.as_str());
                m.append(d.as_str());
                return Err(Error::IOError(m, io));
            },
            JsonFile::Read(text) => match parse_json(text.as_str()) {
                Ok(j) => j,
                Err(m) => {
                    return Err(Error::InvalidJSON(m));
                },
            },
        };
        let mut dev = MDev::new(self, u);
        dev.load_from_json(pname.clone(), &json)?;
        match c.sysfs {
            Ok(d) => {
                if dev.sysfs_data_matches(&d) {
                    dev.set_sysfs_data(d);
                }
            },
            Err(_) => {},
        }
        Ok(Some(dev))
    }
}

/// Whether `entry` is the scripts directory (as a path under `config`).
fn names_scripts_dir(config: &String, scripts: &String, entry: &Result<DefinedParentEntry, IoError>) -> (b: bool)
    ensures
        b == match entry {
            Ok(p) => joined(config@, p.file_name@) == scripts@,
            Err(_) => false,
        },
{
    match entry {
        Ok(p) => {
            let path = path_join(config.as_str(), p.file_name.as_str());
            path == *scripts
        },
        Err(_) => false,
    }
}

impl Environment {
    fn read_defined_children<'e>(&'e self, pdir: &String, pname: &String, uuid: Option<&Uuid>, list: Vec<Result<DefinedChildEntry, IoError>>) -> (r: Result<Vec<MDev<'e>>, Error>)
        ensures
            match defined_children_fold(pdir@, pname@, opt_uuid(uuid), list@) {
                Ok(devs) => r matches Ok(v) && v@.map_values(|d: MDev<'e>| dev_view(d)) == devs
                    && forall|i: int| 0 <= i < v@.len() ==> (#[trigger] v@[i]).env == self,
                Err(ev) => r matches Err(x) && x@ == ev,
            },
    {
        let ghost orig = list@;
        let ghost wanted = opt_uuid(uuid);
        let total: usize = list.len();
        let mut rest = list;
        let mut out: Vec<MDev<'e>> = Vec::new();
        let mut k: usize = 0;
        assert(orig.skip(0) =~= orig);
        assert(orig.take(0) =~= Seq::<Result<DefinedChildEntry, IoError>>::empty());
        assert(out@.map_values(|d: MDev<'e>| dev_view(d)) =~= Seq::<MDevView>::empty());
        while rest.len() > 0
            invariant
                k <= total,
                orig.len() == total,
                orig == list@,
                wanted == opt_uuid(uuid),
                rest@ == orig.skip(k as int),
                rest@.len() == total - k,
                forall|i: int| 0 <= i < out@.len() ==> (#[trigger] out@[i]).env == self,
                defined_children_fold(pdir@, pname@, wanted, orig.take(k as int)) matches Ok(devs)
                    && out@.map_values(|d: MDev<'e>| dev_view(d)) == devs,
            decreases rest.len(),
        {
            let item = rest.remove(0);
            assert(item == orig[k as int]);
            assert(rest@ =~= orig.skip(k + 1));
            assert(orig.take(k + 1).drop_last() =~= orig.take(k as int));
            assert(orig.take(k + 1).last() == orig[k as int]);
            let ghost before = out@.map_values(|d: MDev<'e>| dev_view(d));
            match item {
                Err(io) => {
                    let mut m = String::from_str("Failed to read entry from directory ");
                    m.append("DirEntry(");
                    let d = path_debug(pdir.as_str());
                    m.append(d.as_str());
                    m.append(")");
                    assert(m@ =~= "Failed to read entry from directory "@ + dir_entry_debug(pdir@));
                    proof {
                        lemma_children_error_sticks(pdir@, pname@, wanted, orig, k as int + 1, total as int);
                        assert(orig.take(total as int) =~= orig);
                    }
                    return Err(Error::IOError(m, io));
                },
                Ok(c) => {
                    match self.read_defined_child(pdir, pname, uuid, c) {
                        Err(e) => {
                            proof {
                                lemma_children_error_sticks(pdir@, pname@, wanted, orig, k as int + 1, total as int);
                                assert(orig.take(total as int) =~= orig);
                            }
                            return Err(e);
                        },
                        Ok(None) => {},
                        Ok(Some(dev)) => {
                            out.push(dev);
                            assert(out@.map_values(|d: MDev<'e>| dev_view(d)) =~= before.push(
                                dev_view(out@.last()),
                            ));
                        },
                    }
                },
            }
            k = k + 1;
        }
        assert(orig.take(total as int) =~= orig);
        Ok(out)
    }

    /// The devices defined on disk, per parent (only device `uuid` and parent
    /// `parent` where those are given), each taking what sysfs shows of it
    /// where that matches its definition. `listing` is what was read of the
    /// configuration directory.
    pub fn get_defined_devices<'e>(&'e self, uuid: Option<&Uuid>, parent: Option<&String>, listing: Result<Vec<Result<DefinedParentEntry, IoError>>, IoError>) -> (r: Result<TextMap<Vec<MDev<'e>>>, Error>)
        ensures
            match defined_devices_of(self@, opt_uuid(uuid), opt_ref_text(parent), listing) {
                Ok(want) => r matches Ok(m) && key_order(m@) && device_map_matches(as_map(m@), want, self),
                Err(ev) => r matches Err(x) && x@ == ev,
            },
    {
        let mut devices: TextMap<Vec<MDev<'e>>> = TextMap::new();
        let entries = match listing {
            Err(io) => {
                return Err(
                    Error::IOError(
                        String::from_str("Failed to read persistent device configuration directory"),
                        io,
                    ),
                );
            },
            Ok(v) => v,
        };
        let ghost wanted = opt_uuid(uuid);
        let ghost wp = opt_ref_text(parent);
        let ghost all = entries@;
        let count: usize = entries.len();
        let config = self.config_base();
        let scripts = self.scripts_base();
        let mut rest = entries;
        let mut lead: usize = 0;
        assert(all.skip(0) =~= all);
        while rest.len() > 0 && names_scripts_dir(&config, &scripts, &rest[0])
            invariant
                lead <= all.len(),
                all.len() == count,
                rest@ == all.skip(lead as int),
                rest@.len() == all.len() - lead,
                listing matches Ok(v) && v@ == all,
                config@ == config_base_of(self@),
                scripts@ == scripts_base_of(self@),
                leading_scripts(self@, all, 0) == leading_scripts(self@, all, lead as int),
            decreases rest.len(),
        {
            assert(rest@[0] == all[lead as int]);
            rest.remove(0);
            assert(rest@ =~= all.skip(lead + 1));
            lead = lead + 1;
        }
        proof {
            if lead < all.len() {
                assert(rest@[0] == all[lead as int]);
            }
        }
        assert(leading_scripts(self@, all, lead as int) == lead);
        let ghost orig = rest@;
        let total: usize = rest.len();
        let mut k: usize = 0;
        assert(orig.skip(0) =~= orig);
        assert(orig.take(0) =~= Seq::<Result<DefinedParentEntry, IoError>>::empty());
        assert(as_map(devices@) =~= Map::<Seq<char>, Vec<MDev<'e>>>::empty());
        while rest.len() > 0
            invariant
                k <= total,
                orig.len() == total,
                orig == all.skip(leading_scripts(self@, all, 0)),
                listing matches Ok(v) && v@ == all,
                wanted == opt_uuid(uuid),
                wp == opt_ref_text(parent),
                config@ == config_base_of(self@),
                rest@ == orig.skip(k as int),
                rest@.len() == total - k,
                key_order(devices@),
                defined_parents_fold(self@, wanted, wp, orig.take(k as int)) matches Ok(want)
                    && device_map_matches(as_map(devices@), want, self),
            decreases rest.len(),
        {
            let item = rest.remove(0);
            assert(item == orig[k as int]);
            assert(rest@ =~= orig.skip(k + 1));
            assert(orig.take(k + 1).drop_last() =~= orig.take(k as int));
            assert(orig.take(k + 1).last() == orig[k as int]);
            let ghost want_before = defined_parents_fold(self@, wanted, wp, orig.take(k as int))->Ok_0;
            match item {
                Err(io) => {
                    proof {
                        lemma_parents_error_sticks(self@, wanted, wp, orig, k as int + 1, total as int);
                        assert(orig.take(total as int) =~= orig);
                    }
                    return Err(
                        Error::IOError(
                            String::from_str(
                                "Failed to read entry from persistent device configuration directory",
                            ),
                            io,
                        ),
                    );
                },
                Ok(pe) => {
                    let skip = !pe.utf8_name || match parent {
                        Some(p) => *p != pe.file_name,
                        None => false,
                    };
                    if !skip {
                        let pdir = path_join(config.as_str(), pe.file_name.as_str());
                        let is_dir = match pe.is_dir {
                            Ok(b) => b,
                            Err(io) => {
                                let mut m = String::from_str("Failed to read metadata for ");
                                m.append("DirEntry(");
                                let d = path_debug(pdir.as_str());
                                m.append(d.as_str());
                                m.append(")");
                                assert(m@ =~= "Failed to read metadata for "@ + dir_entry_debug(pdir@));
                                proof {
                                    lemma_parents_error_sticks(self@, wanted, wp, orig, k as int + 1, total as int);
                                    assert(orig.take(total as int) =~= orig);
                                }
                                return Err(Error::IOError(m, io));
                            },
                        };
                        if is_dir {
                            match pe.children {
                                Err(_) => {},
                                Ok(list) => {
                                    match self.read_defined_children(&pdir, &pe.file_name, uuid, list) {
                                        Err(e) => {
                                            proof {
                                                lemma_parents_error_sticks(self@, wanted, wp, orig, k as int + 1, total as int);
                                                assert(orig.take(total as int) =~= orig);
                                            }
                                            return Err(e);
                                        },
                                        Ok(devs) => {
                                            if devs.len() > 0 {
                                                let ghost devs_view = devs@.map_values(|d: MDev<'e>| dev_view(d));
                                                let ghost devs_seq = devs@;
                                                devices.insert(pe.file_name, devs);
                                                let ghost want_now = want_before.insert(pe.file_name@, devs_view);
                                                assert(device_map_matches(as_map(devices@), want_now, self)) by {
                                                    assert(as_map(devices@).dom() =~= want_now.dom());
                                                }
                                            }
                                        },
                                    }
                                },
                            }
                        }
                    }
                },
            }
            k = k + 1;
        }
        assert(orig.take(total as int) =~= orig);
        Ok(devices)
    }
}

/// What looking up one defined device among those found comes to: none
/// found means the device is not defined; more than one parent (which needs
/// a parent to be named, unless one was), or more than one definition under
/// the one parent, is an error; otherwise the one device.
pub open spec fn single_defined<'e>(uuid: Uuid, parent: Option<Seq<char>>, want: Map<Seq<char>, Seq<MDevView>>, r: Result<MDev<'e>, Error>, env: &'e Environment) -> bool {
    if want.dom() == Set::<Seq<char>>::empty() {
        r matches Err(x) && x@ == ErrorView::DeviceState("device is not defined"@, uuid, parent)
    } else if exists|p: Seq<char>| want.dom() == set![p] {
        let p = choose|p: Seq<char>| want.dom() == set![p];
        if want[p].len() > 1 {
            r matches Err(x) && x@ == ErrorView::DeviceState(
                "Multiple definitions found"@,
                uuid,
                Some(p),
            )
        } else if want[p].len() == 0 {
            r matches Err(x) && x@ == ErrorView::DeviceNotFound
        } else {
            r matches Ok(d) && d@ == want[p][0] && d.env == env
        }
    } else {
        r matches Err(x) && x@ == ErrorView::DeviceState(
            if parent is None {
                "Multiple definitions found, specify a parent"@
            } else {
                "Multiple definitions found"@
            },
            uuid,
            parent,
        )
    }
}

impl Environment {
    /// The device `uuid` defined on disk (under `parent` where that is
    /// given), from what was read of the configuration directory.
    pub fn get_defined_device<'e>(&'e self, uuid: Uuid, parent: Option<&String>, listing: Result<Vec<Result<DefinedParentEntry, IoError>>, IoError>) -> (r: Result<MDev<'e>, Error>)
        ensures
            match defined_devices_of(self@, Some(uuid), opt_ref_text(parent), listing) {
                Err(ev) => r matches Err(x) && x@ == ev,
                Ok(want) => single_defined(uuid, opt_ref_text(parent), want, r, self),
            },
    {
        let devs = self.get_defined_devices(Some(&uuid), parent, listing)?;
        let ghost want = defined_devices_of(self@, Some(uuid), opt_ref_text(parent), listing)->Ok_0;
        let ghost dv = devs@;
        proof {
            lemma_map_shape(dv);
        }
        let n: usize = devs.len();
        if n == 0 {
            assert(want.dom() =~= Set::<Seq<char>>::empty());
            return Err(
                Error::DeviceState(
                    String::from_str("device is not defined"),
                    uuid,
                    crate::active::copy_opt_ref_text(parent),
                ),
            );
        }
        if n > 1 {
            assert(want.dom() != Set::<Seq<char>>::empty());
            assert(!(exists|p: Seq<char>| want.dom() == set![p]));
            let m = match parent {
                None => String::from_str("Multiple definitions found, specify a parent"),
                Some(_) => String::from_str("Multiple definitions found"),
            };
            return Err(Error::DeviceState(m, uuid, crate::active::copy_opt_ref_text(parent)));
        }
        let mut entries = devs.into_entries();
        assert(entries@.map_values(|e: (String, Vec<MDev<'e>>)| entry_view(e))[0] == dv[0]);
        let (p, mut children) = entries.remove(0);
        let ghost key = p@;
        assert(key == dv[0].0);
        assert(want.dom() == set![key]);
        let ghost chosen = choose|q: Seq<char>| want.dom() == set![q];
        assert(set![chosen].contains(key));
        assert(chosen == key);
        assert(children@.map_values(|d: MDev<'e>| dev_view(d)) == want[key]);
        if children.len() > 1 {
            return Err(
                Error::DeviceState(String::from_str("Multiple definitions found"), uuid, Some(p)),
            );
        }
        if children.len() == 0 {
            return Err(Error::DeviceNotFound);
        }
        assert(dev_view(children@[0]) == want[key][0]);
        Ok(children.remove(0))
    }
}

proof fn lemma_loaded_keeps_identity(d: MDevView, parent: Seq<char>, json: crate::json::JsonView)
    ensures
        loaded_from_json(d, parent, json).0.parent == Some(parent),
        loaded_from_json(d, parent, json).0.uuid == d.uuid,
        loaded_from_json(d, parent, json).0.active == d.active,
{
}

proof fn lemma_defined_children_grouped(pdir: Seq<char>, pname: Seq<char>, wanted: Option<Uuid>, s: Seq<Result<DefinedChildEntry, IoError>>)
    ensures
        defined_children_fold(pdir, pname, wanted, s) matches Ok(devs) ==> forall|i: int|
            0 <= i < devs.len() ==> (#[trigger] devs[i]).parent == Some(pname) && (wanted matches Some(
                w,
            ) ==> devs[i].uuid == w),
    decreases s.len(),
{
    if s.len() > 0 {
        lemma_defined_children_grouped(pdir, pname, wanted, s.drop_last());
        if let Ok(c) = s.last() {
            if let Ok(true) = c.is_file {
                if let Some(v) = parsed_uuid(c.file_name@) {
                    if let JsonFileView::Parsed(json) = file_view(c.contents) {
                        lemma_loaded_keeps_identity(fresh_view(Uuid { value: v }), pname, json);
                    }
                }
            }
        }
    }
}

proof fn lemma_defined_parents_grouped(root: Seq<char>, wanted: Option<Uuid>, wp: Option<Seq<char>>, s: Seq<Result<DefinedParentEntry, IoError>>)
    ensures
        defined_parents_fold(root, wanted, wp, s) matches Ok(m) ==> forall|k: Seq<char>|
            #[trigger] m.contains_key(k) ==> {
                &&& m[k].len() > 0
                &&& (wp matches Some(p) ==> k == p)
                &&& forall|i: int| 0 <= i < m[k].len() ==> (#[trigger] m[k][i]).parent == Some(k) && (
                wanted matches Some(w) ==> m[k][i].uuid == w)
            },
    decreases s.len(),
{
    if s.len() > 0 {
        lemma_defined_parents_grouped(root, wanted, wp, s.drop_last());
        if let Ok(pe) = s.last() {
            if let Ok(list) = pe.children {
                let pdir = joined(config_base_of(root), pe.file_name@);
                lemma_defined_children_grouped(pdir, pe.file_name@, wanted, list@);
            }
        }
    }
}

/// The defined devices are listed under the parent in whose directory their
/// definitions lie, which is their parent; no list is empty; and when a
/// device or a parent is asked for, nothing else is listed.
pub proof fn law_defined_devices_grouped(root: Seq<char>, wanted: Option<Uuid>, wanted_parent: Option<Seq<char>>, listing: Result<Vec<Result<DefinedParentEntry, IoError>>, IoError>)
    ensures
        defined_devices_of(root, wanted, wanted_parent, listing) matches Ok(m) ==> forall|k: Seq<char>|
            #[trigger] m.contains_key(k) ==> {
                &&& m[k].len() > 0
                &&& (wanted_parent matches Some(p) ==> k == p)
                &&& forall|i: int| 0 <= i < m[k].len() ==> (#[trigger] m[k][i]).parent == Some(k) && (
                wanted matches Some(w) ==> m[k][i].uuid == w)
            },
{
    if let Ok(v) = listing {
        let s = v@;
        lemma_defined_parents_grouped(root, wanted, wanted_parent, s.skip(leading_scripts(root, s, 0)));
    }
}

/// The file `c` of parent `pname`'s directory is where `d` comes from: it is
/// a file named by `d`'s UUID, whose text is a definition that gives `d`.
/// `d` is active exactly where sysfs shows the device (by its UUID) under
/// that parent with the type defined, whatever its start mode; otherwise
/// `d` is as its definition makes it.
pub open spec fn defined_by(pname: Seq<char>, c: DefinedChildEntry, d: MDevView) -> bool {
    &&& c.is_file matches Ok(true)
    &&& c.utf8_name
    &&& parsed_uuid(c.file_name@) == Some(d.uuid.value)
    &&& file_view(c.contents) matches JsonFileView::Parsed(j)
    &&& defined_device(pname, d.uuid, j, c.sysfs) == (d, None::<Seq<char>>)
    &&& d.active ==> (c.sysfs matches Ok(sd) && sd.parent@ == pname && d.mdev_type == Some(sd.mdev_type@))
    &&& (c.sysfs matches Ok(sd) && sd.uuid == d.uuid && sd.parent@ == pname && d.mdev_type == Some(
        sd.mdev_type@,
    )) ==> d.active
    &&& !d.active ==> d == loaded_from_json(fresh_view(d.uuid), pname, j).0
}

/// The entry `e` of a parent's directory is a file where `d` comes from.
pub open spec fn child_defines(pname: Seq<char>, e: Result<DefinedChildEntry, IoError>, d: MDevView) -> bool {
    e matches Ok(c) && defined_by(pname, c, d)
}

/// One of the entries `s` of parent `pname`'s directory is a file where `d`
/// comes from.
pub open spec fn from_child(pname: Seq<char>, s: Seq<Result<DefinedChildEntry, IoError>>, d: MDevView) -> bool {
    exists|l: int| 0 <= l < s.len() && #[trigger] child_defines(pname, s[l], d)
}

/// The entry `e` of the configuration directory is the directory of parent
/// `k`, one of whose files is where `d` comes from.
pub open spec fn parent_defines(k: Seq<char>, e: Result<DefinedParentEntry, IoError>, d: MDevView) -> bool {
    &&& e matches Ok(pe)
    &&& pe.file_name@ == k
    &&& pe.children matches Ok(list)
    &&& from_child(k, list@, d)
}

/// One of the entries `s` of the configuration directory is the directory of
/// parent `k`, one of whose files is where `d` comes from.
pub open spec fn from_parent(k: Seq<char>, s: Seq<Result<DefinedParentEntry, IoError>>, d: MDevView) -> bool {
    exists|j: int| 0 <= j < s.len() && #[trigger] parent_defines(k, s[j], d)
}

proof fn lemma_found_is_defined_by(pdir: Seq<char>, pname: Seq<char>, wanted: Option<Uuid>, c: DefinedChildEntry)
    ensures
        defined_child_step(pdir, pname, wanted, c) matches DeviceStep::Found(d) ==> defined_by(pname, c, d),
{
    if let DeviceStep::Found(d) = defined_child_step(pdir, pname, wanted, c) {
        let v = parsed_uuid(c.file_name@)->0;
        let u = Uuid { value: v };
        let j = file_view(c.contents)->Parsed_0;
        lemma_loaded_keeps_identity(fresh_view(u), pname, j);
        let loaded = loaded_from_json(fresh_view(u), pname, j);
        assert(d.uuid == u);
        assert(!loaded.0.active);
    }
}

proof fn lemma_defined_children_from_files(pdir: Seq<char>, pname: Seq<char>, wanted: Option<Uuid>, s: Seq<Result<DefinedChildEntry, IoError>>)
    ensures
        defined_children_fold(pdir, pname, wanted, s) matches Ok(devs) ==> forall|i: int|
            0 <= i < devs.len() ==> #[trigger] from_child(pname, s, devs[i]),
    decreases s.len(),
{
    if s.len() > 0 {
        let t = s.drop_last();
        lemma_defined_children_from_files(pdir, pname, wanted, t);
        if let Ok(prev) = defined_children_fold(pdir, pname, wanted, t) {
            if let Ok(c) = s.last() {
                lemma_found_is_defined_by(pdir, pname, wanted, c);
                if let Ok(devs) = defined_children_fold(pdir, pname, wanted, s) {
                    assert forall|i: int| 0 <= i < devs.len() implies #[trigger] from_child(pname, s, devs[i]) by {
                        if i < prev.len() {
                            assert(devs[i] == prev[i]);
                            assert(from_child(pname, t, prev[i]));
                            let l = choose|l: int| 0 <= l < t.len() && #[trigger] child_defines(pname, t[l], prev[i]);
                            assert(t[l] == s[l]);
                            assert(child_defines(pname, s[l], devs[i]));
                        } else {
                            assert(child_defines(pname, s[s.len() - 1], devs[i]));
                        }
                    }
                }
            }
        }
    }
}

proof fn lemma_defined_parents_from_files(root: Seq<char>, wanted: Option<Uuid>, wp: Option<Seq<char>>, s: Seq<Result<DefinedParentEntry, IoError>>)
    ensures
        defined_parents_fold(root, wanted, wp, s) matches Ok(m) ==> forall|k: Seq<char>, i: int|
            m.contains_key(k) && 0 <= i < m[k].len() ==> #[trigger] from_parent(k, s, m[k][i]),
    decreases s.len(),
{
    if s.len() > 0 {
        let t = s.drop_last();
        lemma_defined_parents_from_files(root, wanted, wp, t);
        if let Ok(prev) = defined_parents_fold(root, wanted, wp, t) {
            if let Ok(m) = defined_parents_fold(root, wanted, wp, s) {
                assert forall|k: Seq<char>, i: int| m.contains_key(k) && 0 <= i < m[k].len() implies #[trigger] from_parent(
                    k,
                    s,
                    m[k][i],
                ) by {
                    let pe = s.last()->Ok_0;
                    if m == prev || k != pe.file_name@ {
                        assert(prev.contains_key(k) && m[k] == prev[k]);
                        assert(from_parent(k, t, prev[k][i]));
                        let j = choose|j: int| 0 <= j < t.len() && #[trigger] parent_defines(k, t[j], prev[k][i]);
                        assert(t[j] == s[j]);
                        assert(parent_defines(k, s[j], m[k][i]));
                    } else {
                        let list = pe.children->Ok_0;
                        let pdir = joined(config_base_of(root), pe.file_name@);
                        lemma_defined_children_from_files(pdir, k, wanted, list@);
                        let devs = defined_children_fold(pdir, k, wanted, list@)->Ok_0;
                        assert(m[k] == devs);
                        assert(from_child(k, list@, devs[i]));
                        assert(parent_defines(k, s[s.len() - 1], m[k][i]));
                    }
                }
            }
        }
    }
}

proof fn lemma_leading_scripts_bound(root: Seq<char>, s: Seq<Result<DefinedParentEntry, IoError>>, i: int)
    requires
        0 <= i,
    ensures
        i <= s.len() ==> i <= leading_scripts(root, s, i) <= s.len(),
    decreases s.len() - i,
{
    if i < s.len() {
        lemma_leading_scripts_bound(root, s, i + 1);
    }
}

/// Every defined device comes from a file of its parent's directory: a file
/// named by its UUID whose definition gives it, with sysfs's view of it
/// taken exactly where that shows the device under that parent with the type
/// defined (and then it is active, whatever its start mode).
pub proof fn law_defined_devices_from_files(root: Seq<char>, wanted: Option<Uuid>, wanted_parent: Option<Seq<char>>, v: Vec<Result<DefinedParentEntry, IoError>>)
    ensures
        defined_devices_of(root, wanted, wanted_parent, Ok(v)) matches Ok(m) ==> forall|k: Seq<char>, i: int|
            m.contains_key(k) && 0 <= i < m[k].len() ==> #[trigger] from_parent(k, v@, m[k][i]),
{
    let s = v@;
    let n = leading_scripts(root, s, 0);
    let t = s.skip(n);
    lemma_leading_scripts_bound(root, s, 0);
    lemma_defined_parents_from_files(root, wanted, wanted_parent, t);
    if let Ok(m) = defined_devices_of(root, wanted, wanted_parent, Ok(v)) {
        assert forall|k: Seq<char>, i: int| m.contains_key(k) && 0 <= i < m[k].len() implies #[trigger] from_parent(
            k,
            s,
            m[k][i],
        ) by {
            assert(from_parent(k, t, m[k][i]));
            let j = choose|j: int| 0 <= j < t.len() && #[trigger] parent_defines(k, t[j], m[k][i]);
            assert(t[j] == s[j + n]);
            assert(parent_defines(k, s[j + n], m[k][i]));
        }
    }
}

} // verus!
