//! Listing the devices that are running, from what was read of sysfs.

use vstd::prelude::*;
use crate::definition::definition_loaded;
use crate::defined::{DeviceStep, dev_view, device_map_matches, opt_ref_text, opt_uuid, other_uuid};
use crate::device_uuid::{Uuid, parse_uuid, parsed_uuid};
use crate::environment::Environment;
use crate::error::{Error, ErrorView, IoError};
use crate::json::JsonFile;
use crate::mdev::{MDev, MDevSysfsData, MDevView, fresh_view, opt_text, with_sysfs_data};
use crate::device_uuid::{hyphenated, hyphenated_text};
use crate::text_map::{TextMap, as_map, entry_view, key_order, lemma_map_shape, lookup};

verus! {

/// What was read of one entry of the sysfs device directory. Sysfs's view
/// of the device and its definition (the file under the parent that sysfs
/// shows) are consulted only where the name is a UUID that is asked for.
pub struct ActiveEntry {
    /// The entry's name; `None` where it is not UTF-8.
    pub file_name: Option<String>,
    pub sysfs: Result<MDevSysfsData, Error>,
    pub definition: JsonFile,
}

/// A running device: the device `uuid` with what sysfs shows of it, taking
/// its start mode from its stored definition (`definition`, read at its
/// persistent path under `root`) where that reads without error.
pub open spec fn running_device(root: Seq<char>, uuid: Uuid, sysfs: Result<MDevSysfsData, Error>, definition: JsonFile) -> MDevView {
    let d = match sysfs {
        Ok(s) => with_sysfs_data(fresh_view(uuid), s.uuid, s.parent@, s.mdev_type@),
        Err(_) => fresh_view(uuid),
    };
    let l = definition_loaded(MDevView { parent: d.parent, ..fresh_view(uuid) }, root, definition);
    MDevView { autostart: if l.1 is None { l.0.autostart } else { d.autostart }, ..d }
}

/// Reading one entry of the sysfs device directory: a name that is not UTF-8
/// stops the listing; names that are not wanted UUIDs, devices that sysfs
/// does not show as running, and (when a parent is asked for) devices of
/// other parents are passed over.
pub open spec fn active_step(root: Seq<char>, wanted: Option<Uuid>, wanted_parent: Option<Seq<char>>, e: ActiveEntry) -> DeviceStep {
    match e.file_name {
        None => DeviceStep::Fail(ErrorView::System("filename is not valid utf8"@)),
        Some(n) => match parsed_uuid(n@) {
            None => DeviceStep::Skip,
            Some(v) => if other_uuid(wanted, v) {
                DeviceStep::Skip
            } else {
                let d = running_device(root, Uuid { value: v }, e.sysfs, e.definition);
                if !d.active || (wanted_parent is Some && wanted_parent != d.parent) {
                    DeviceStep::Skip
                } else {
                    DeviceStep::Found(d)
                }
            },
        },
    }
}

/// Adds device `d` at the end of the list of its parent.
pub open spec fn grouped(m: Map<Seq<char>, Seq<MDevView>>, d: MDevView) -> Map<Seq<char>, Seq<MDevView>> {
    let p = d.parent->0;
    m.insert(p, (if m.contains_key(p) { m[p] } else { Seq::empty() }).push(d))
}

/// The running devices per parent, in the order read, or the first error.
pub open spec fn active_fold(root: Seq<char>, wanted: Option<Uuid>, wanted_parent: Option<Seq<char>>, entries: Seq<Result<ActiveEntry, IoError>>) -> Result<Map<Seq<char>, Seq<MDevView>>, ErrorView>
    decreases entries.len(),
{
    if entries.len() == 0 {
        Ok(Map::empty())
    } else {
        match active_fold(root, wanted, wanted_parent, entries.drop_last()) {
            Err(e) => Err(e),
            Ok(prev) => match entries.last() {
                Err(io) => Err(ErrorView::IOError("Failed to read directory entry"@, io)),
                Ok(e) => match active_step(root, wanted, wanted_parent, e) {
                    DeviceStep::Skip => Ok(prev),
                    DeviceStep::Found(d) => Ok(grouped(prev, d)),
                    DeviceStep::Fail(err) => Err(err),
                },
            },
        }
    }
}

/// The running devices per parent; none when the sysfs device directory
/// could not be read (`listing` is `None`).
pub open spec fn active_devices_of(root: Seq<char>, wanted: Option<Uuid>, wanted_parent: Option<Seq<char>>, listing: Option<Vec<Result<ActiveEntry, IoError>>>) -> Result<Map<Seq<char>, Seq<MDevView>>, ErrorView> {
    match listing {
        None => Ok(Map::empty()),
        Some(v) => active_fold(root, wanted, wanted_parent, v@),
    }
}

proof fn lemma_active_error_sticks(root: Seq<char>, wanted: Option<Uuid>, wp: Option<Seq<char>>, s: Seq<Result<ActiveEntry, IoError>>, k: int, n: int)
    requires
        0 <= k <= n <= s.len(),
        active_fold(root, wanted, wp, s.take(k)) is Err,
    ensures
        active_fold(root, wanted, wp, s.take(n)) == active_fold(root, wanted, wp, s.take(k)),
    decreases n - k,
{
    if n > k {
        lemma_active_error_sticks(root, wanted, wp, s, k, n - 1);
        assert(s.take(n).drop_last() =~= s.take(n - 1));
    }
}

impl Environment {
    fn read_active_entry<'e>(&'e self, uuid: Option<&Uuid>, parent: Option<&String>, e: ActiveEntry) -> (r: Result<Option<MDev<'e>>, Error>)
        ensures
            match active_step(self@, opt_uuid(uuid), opt_ref_text(parent), e) {
                DeviceStep::Skip => r matches Ok(None),
                DeviceStep::Found(d) => r matches Ok(Some(x)) && x@ == d && x.env == self,
                DeviceStep::Fail(ev) => r matches Err(x) && x@ == ev,
            },
    {
        let name = match e.file_name {
            Some(n) => n,
            None => {
                return Err(Error::System(String::from_str("filename is not valid utf8")));
            },
        };
        let u = match parse_uuid(name.as_str()) {
            Some(u) => u,
            None => {
                return Ok(None);
            },
        };
        match uuid {
            Some(w) => {
                if w.value != u.value {
                    return Ok(None);
                }
            },
            None => {},
        }
        let mut dev = MDev::new(self, u);
        match e.sysfs {
            Ok(d) => dev.set_sysfs_data(d),
            Err(_) => {},
        }
        if !dev.active {
            return Ok(None);
        }
        match parent {
            Some(p) => {
                match &dev.parent {
                    Some(q) => {
                        if *p != *q {
                            return Ok(None);
                        }
                    },
                    None => {
                        return Ok(None);
                    },
                }
            },
            None => {},
        }
        let mut per_dev = MDev::new(self, u);
        per_dev.parent = crate::mdev::copy_opt_text(&dev.parent);
        if per_dev.load_definition(e.definition).is_ok() {
            dev.autostart = per_dev.autostart;
        }
        Ok(Some(dev))
    }

    /// The running devices, per parent (only device `uuid` and parent
    /// `parent` where those are given), each with the start mode of its
    /// definition where that reads. `listing` is what was read of the sysfs
    /// device directory, `None` where it could not be read.
    pub fn get_active_devices<'e>(&'e self, uuid: Option<&Uuid>, parent: Option<&String>, listing: Option<Vec<Result<ActiveEntry, IoError>>>) -> (r: Result<TextMap<Vec<MDev<'e>>>, Error>)
        ensures
            match active_devices_of(self@, opt_uuid(uuid), opt_ref_text(parent), listing) {
                Ok(want) => r matches Ok(m) && key_order(m@) && device_map_matches(as_map(m@), want, self),
                Err(ev) => r matches Err(x) && x@ == ev,
            },
    {
        let mut devices: TextMap<Vec<MDev<'e>>> = TextMap::new();
        let entries = match listing {
            None => {
                assert(as_map(devices@) =~= Map::<Seq<char>, Vec<MDev<'e>>>::empty());
                return Ok(devices);
            },
            Some(v) => v,
        };
        let ghost wanted = opt_uuid(uuid);
        let ghost wp = opt_ref_text(parent);
        let ghost orig = entries@;
        let total: usize = entries.len();
        let mut rest = entries;
        let mut k: usize = 0;
        assert(orig.skip(0) =~= orig);
        assert(orig.take(0) =~= Seq::<Result<ActiveEntry, IoError>>::empty());
        assert(as_map(devices@) =~= Map::<Seq<char>, Vec<MDev<'e>>>::empty());
        while rest.len() > 0
            invariant
                k <= total,
                orig.len() == total,
                listing matches Some(v) && v@ == orig,
                wanted == opt_uuid(uuid),
                wp == opt_ref_text(parent),
                rest@ == orig.skip(k as int),
                rest@.len() == total - k,
                key_order(devices@),
                active_fold(self@, wanted, wp, orig.take(k as int)) matches Ok(want) && device_map_matches(
                    as_map(devices@),
                    want,
                    self,
                ),
            decreases rest.len(),
        {
            let item = rest.remove(0);
            assert(item == orig[k as int]);
            assert(rest@ =~= orig.skip(k + 1));
            assert(orig.take(k + 1).drop_last() =~= orig.take(k as int));
            assert(orig.take(k + 1).last() == orig[k as int]);
            let ghost want_before = active_fold(self@, wanted, wp, orig.take(k as int))->Ok_0;
            match item {
                Err(io) => {
                    proof {
                        lemma_active_error_sticks(self@, wanted, wp, orig, k as int + 1, total as int);
                        assert(orig.take(total as int) =~= orig);
                    }
                    return Err(Error::IOError(String::from_str("Failed to read directory entry"), io));
                },
                Ok(e) => {
                    match self.read_active_entry(uuid, parent, e) {
                        Err(err) => {
                            proof {
                                lemma_active_error_sticks(self@, wanted, wp, orig, k as int + 1, total as int);
                                assert(orig.take(total as int) =~= orig);
                            }
                            return Err(err);
                        },
                        Ok(None) => {},
                        Ok(Some(dev)) => {
                            let key = match &dev.parent {
                                Some(q) => q.clone(),
                                None => String::new(),
                            };
                            let ghost dv = dev_view(dev);
                            let ghost old_map = as_map(devices@);
                            devices.push_into(key, dev);
                            let ghost want_now = grouped(want_before, dv);
                            assert(device_map_matches(as_map(devices@), want_now, self)) by {
                                assert(as_map(devices@).dom() =~= want_now.dom());
                                let p = dv.parent->0;
                                assert(as_map(devices@)[p]@.map_values(|d: MDev<'e>| dev_view(d)) =~= want_now[p]);
                            }
                        },
                    }
                },
            }
            k = k + 1;
        }
        assert(orig.take(total as int) =~= orig);
        Ok(devices)
    }
}

/// What looking up one running device among those found comes to: none
/// found means the device is not active; more than one parent, or more than
/// one device under the one parent, is an error; otherwise the one device.
pub open spec fn single_active<'e>(uuid: Uuid, parent: Option<Seq<char>>, want: Map<Seq<char>, Seq<MDevView>>, r: Result<MDev<'e>, Error>, env: &'e Environment) -> bool {
    if want.dom() == Set::<Seq<char>>::empty() {
        r matches Err(x) && x@ == ErrorView::DeviceState("device is not active"@, uuid, parent)
    } else if exists|p: Seq<char>| want.dom() == set![p] {
        let p = choose|p: Seq<char>| want.dom() == set![p];
        if want[p].len() > 1 {
            r matches Err(x) && x@ == ErrorView::System(
                "Multiple devices found for "@ + p + "/"@ + hyphenated(uuid.value),
            )
        } else if want[p].len() == 0 {
            r matches Err(x) && x@ == ErrorView::DeviceNotFound
        } else {
            r matches Ok(d) && d@ == want[p][0] && d.env == env
        }
    } else {
        r matches Err(x) && x@ == ErrorView::System(
            "Multiple parents found for "@ + hyphenated(uuid.value),
        )
    }
}

/// An owned copy of an optional borrowed text.
pub fn copy_opt_ref_text(p: Option<&String>) -> (r: Option<String>)
    ensures
        opt_text(r) == opt_ref_text(p),
{
    match p {
        Some(s) => Some(s.clone()),
        None => None,
    }
}

impl Environment {
    /// The running device `uuid` (under `parent` where that is given), from
    /// what was read of the sysfs device directory.
    pub fn get_active_device<'e>(&'e self, uuid: Uuid, parent: Option<&String>, listing: Option<Vec<Result<ActiveEntry, IoError>>>) -> (r: Result<MDev<'e>, Error>)
        ensures
            match active_devices_of(self@, Some(uuid), opt_ref_text(parent), listing) {
                Err(ev) => r matches Err(x) && x@ == ev,
                Ok(want) => single_active(uuid, opt_ref_text(parent), want, r, self),
            },
    {
        let devs = self.get_active_devices(Some(&uuid), parent, listing)?;
        let ghost want = active_devices_of(self@, Some(uuid), opt_ref_text(parent), listing)->Ok_0;
        let ghost dv = devs@;
        proof {
            lemma_map_shape(dv);
        }
        let n: usize = devs.len();
        if n == 0 {
            assert(want.dom() =~= Set::<Seq<char>>::empty());
            return Err(Error::DeviceState(String::from_str("device is not active"), uuid, copy_opt_ref_text(parent)));
        }
        if n > 1 {
            let mut m = String::from_str("Multiple parents found for ");
            let u = hyphenated_text(&uuid);
            m.append(u.as_str());
            assert(want.dom() != Set::<Seq<char>>::empty());
            assert(!(exists|p: Seq<char>| want.dom() == set![p]));
            return Err(Error::System(m));
        }
        let mut entries = devs.into_entries();
        assert(entries@.map_values(|e: (String, Vec<MDev<'e>>)| entry_view(e))[0] == dv[0]);
        let (p, mut children) = entries.remove(0);
        let ghost key = p@;
        assert(key == dv[0].0);
        assert(want.dom() == set![key]);
        let ghost chosen = choose|q: Seq<char>| want.dom() == set![q];
        assert(set![chosen].contains(key));
        assert(chosen == key);
        assert(children@.map_values(|d: MDev<'e>| dev_view(d)) == want[key]);
        if children.len() > 1 {
            let mut m = String::from_str("Multiple devices found for ");
            m.append(p.as_str());
            m.append("/");
            let u = hyphenated_text(&uuid);
            m.append(u.as_str());
            return Err(Error::System(m));
        }
        if children.len() == 0 {
            return Err(Error::DeviceNotFound);
        }
        assert(dev_view(children@[0]) == want[key][0]);
        Ok(children.remove(0))
    }
}

proof fn lemma_active_fold_grouped(root: Seq<char>, wanted: Option<Uuid>, wp: Option<Seq<char>>, s: Seq<Result<ActiveEntry, IoError>>)
    ensures
        active_fold(root, wanted, wp, s) matches Ok(m) ==> forall|k: Seq<char>| #[trigger] m.contains_key(k)
            ==> {
            &&& m[k].len() > 0
            &&& (wp matches Some(p) ==> k == p)
            &&& forall|i: int| 0 <= i < m[k].len() ==> {
                &&& (#[trigger] m[k][i]).parent == Some(k)
                &&& m[k][i].active
                &&& (wanted matches Some(w) ==> m[k][i].uuid == w)
            }
        },
    decreases s.len(),
{
    if s.len() > 0 {
        lemma_active_fold_grouped(root, wanted, wp, s.drop_last());
        if let Ok(prev) = active_fold(root, wanted, wp, s.drop_last()) {
            if let Ok(e) = s.last() {
                if let DeviceStep::Found(d) = active_step(root, wanted, wp, e) {
                    let m = grouped(prev, d);
                    assert forall|k: Seq<char>| #[trigger] m.contains_key(k) implies {
                        &&& m[k].len() > 0
                        &&& (wp matches Some(p) ==> k == p)
                        &&& forall|i: int| 0 <= i < m[k].len() ==> {
                            &&& (#[trigger] m[k][i]).parent == Some(k)
                            &&& m[k][i].active
                            &&& (wanted matches Some(w) ==> m[k][i].uuid == w)
                        }
                    } by {
                        if k == d.parent->0 {
                            let old_list = if prev.contains_key(k) { prev[k] } else { Seq::empty() };
                            assert(m[k] == old_list.push(d));
                            assert forall|i: int| 0 <= i < m[k].len() implies {
                                &&& (#[trigger] m[k][i]).parent == Some(k)
                                &&& m[k][i].active
                                &&& (wanted matches Some(w) ==> m[k][i].uuid == w)
                            } by {
                                if i < old_list.len() {
                                    assert(m[k][i] == old_list[i]);
                                }
                            }
                        }
                    }
                }
            }
        }
    }
}

/// The running devices are listed under their parents, all of them active;
/// no list is empty; and when a device or a parent is asked for, nothing
/// else is listed.
pub proof fn law_active_devices_grouped(root: Seq<char>, wanted: Option<Uuid>, wanted_parent: Option<Seq<char>>, listing: Option<Vec<Result<ActiveEntry, IoError>>>)
    ensures
        active_devices_of(root, wanted, wanted_parent, listing) matches Ok(m) ==> forall|k: Seq<char>|
            #[trigger] m.contains_key(k) ==> {
                &&& m[k].len() > 0
                &&& (wanted_parent matches Some(p) ==> k == p)
                &&& forall|i: int| 0 <= i < m[k].len() ==> {
                    &&& (#[trigger] m[k][i]).parent == Some(k)
                    &&& m[k][i].active
                    &&& (wanted matches Some(w) ==> m[k][i].uuid == w)
                }
            },
{
    if let Some(v) = listing {
        lemma_active_fold_grouped(root, wanted, wanted_parent, v@);
    }
}

/// The entry `e` of the sysfs device directory is where running device `d`
/// comes from: it is named by `d`'s UUID, sysfs shows the device under `d`'s
/// parent with `d`'s type, and `d` starts automatically exactly where its
/// stored definition (under that parent) reads without error and says so.
pub open spec fn running_from(root: Seq<char>, e: Result<ActiveEntry, IoError>, d: MDevView) -> bool {
    &&& e matches Ok(a)
    &&& a.file_name matches Some(n)
    &&& parsed_uuid(n@) == Some(d.uuid.value)
    &&& d == running_device(root, d.uuid, a.sysfs, a.definition)
    &&& a.sysfs matches Ok(sd)
    &&& sd.uuid == d.uuid
    &&& d.parent == Some(sd.parent@)
    &&& d.mdev_type == Some(sd.mdev_type@)
    &&& d.autostart == {
        let l = definition_loaded(MDevView { parent: d.parent, ..fresh_view(d.uuid) }, root, a.definition);
        l.1 is None && l.0.autostart
    }
}

/// One of the entries `s` of the sysfs device directory is where running
/// device `d` comes from.
pub open spec fn from_entry(root: Seq<char>, s: Seq<Result<ActiveEntry, IoError>>, d: MDevView) -> bool {
    exists|j: int| 0 <= j < s.len() && #[trigger] running_from(root, s[j], d)
}

proof fn lemma_found_is_running_from(root: Seq<char>, wanted: Option<Uuid>, wp: Option<Seq<char>>, e: ActiveEntry)
    ensures
        active_step(root, wanted, wp, e) matches DeviceStep::Found(d) ==> running_from(root, Ok(e), d),
{
    if let DeviceStep::Found(d) = active_step(root, wanted, wp, e) {
        let v = parsed_uuid(e.file_name->0@)->0;
        let u = Uuid { value: v };
        assert(d == running_device(root, u, e.sysfs, e.definition));
        assert(d.uuid == u);
    }
}

proof fn lemma_active_from_entries(root: Seq<char>, wanted: Option<Uuid>, wp: Option<Seq<char>>, s: Seq<Result<ActiveEntry, IoError>>)
    ensures
        active_fold(root, wanted, wp, s) matches Ok(m) ==> forall|k: Seq<char>, i: int|
            m.contains_key(k) && 0 <= i < m[k].len() ==> #[trigger] from_entry(root, s, m[k][i]),
    decreases s.len(),
{
    if s.len() > 0 {
        let t = s.drop_last();
        lemma_active_from_entries(root, wanted, wp, t);
        if let Ok(prev) = active_fold(root, wanted, wp, t) {
            if let Ok(e) = s.last() {
                lemma_found_is_running_from(root, wanted, wp, e);
                if let Ok(m) = active_fold(root, wanted, wp, s) {
                    assert forall|k: Seq<char>, i: int| m.contains_key(k) && 0 <= i < m[k].len() implies #[trigger] from_entry(
                        root,
                        s,
                        m[k][i],
                    ) by {
                        let from_prev = prev.contains_key(k) && i < prev[k].len() && m[k][i] == prev[k][i];
                        if let DeviceStep::Found(d) = active_step(root, wanted, wp, e) {
                            let p = d.parent->0;
                            let old_list = if prev.contains_key(p) { prev[p] } else { Seq::empty() };
                            if k == p {
                                assert(m[k] == old_list.push(d));
                                if i == old_list.len() {
                                    assert(running_from(root, s[s.len() - 1], m[k][i]));
                                } else {
                                    assert(m[k][i] == old_list[i]);
                                }
                            }
                        }
                        if from_prev {
                            assert(from_entry(root, t, prev[k][i]));
                            let j = choose|j: int| 0 <= j < t.len() && #[trigger] running_from(root, t[j], prev[k][i]);
                            assert(t[j] == s[j]);
                            assert(running_from(root, s[j], m[k][i]));
                        }
                    }
                }
            }
        }
    }
}

/// Every running device comes from an entry of the sysfs device directory
/// named by its UUID: sysfs shows it under its parent with its type, and it
/// starts automatically exactly where its stored definition reads without
/// error and says so.
pub proof fn law_running_devices_from_sysfs(root: Seq<char>, wanted: Option<Uuid>, wanted_parent: Option<Seq<char>>, v: Vec<Result<ActiveEntry, IoError>>)
    ensures
        active_devices_of(root, wanted, wanted_parent, Some(v)) matches Ok(m) ==> forall|k: Seq<char>, i: int|
            m.contains_key(k) && 0 <= i < m[k].len() ==> #[trigger] from_entry(root, v@, m[k][i]),
{
    lemma_active_from_entries(root, wanted, wanted_parent, v@);
}

} // verus!
