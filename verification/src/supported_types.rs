//! Listing the device types that parent devices support, from what was read
//! of sysfs.

use vstd::prelude::*;
use crate::device_type::{MDevType, MDevTypeView, sort_by_typename, sorted_by_typename, type_view};
use crate::environment::{Environment, parent_base_of};
use crate::error::{Error, ErrorView, IoError};
use crate::mdev::opt_text;
use crate::text::{
    IntParseError, i32_value, joined, lemma_i32_value_fits, newlines_as_commas, parse_i32, path_debug, path_debug_text,
    path_join, replace_newlines, trim, trimmed,
};
use crate::text_map::{TextMap, as_map, key_order};

verus! {

/// What was read of one entry of a parent's `mdev_supported_types`
/// directory. The file contents are asked for only where the entry is a
/// directory with a UTF-8 name; `name` and `description` are `None` where
/// the file does not exist.
pub struct TypeEntry {
    /// The entry's file name (converted lossily where it is not UTF-8).
    pub file_name: String,
    pub utf8_name: bool,
    pub is_dir: Result<bool, IoError>,
    pub available_instances: Result<String, IoError>,
    pub device_api: Result<String, IoError>,
    pub name: Option<Result<String, IoError>>,
    pub description: Option<Result<String, IoError>>,
}

/// What was read of one entry of the directory of parent devices.
pub struct ParentTypesEntry {
    /// The entry's file name (converted lossily where it is not UTF-8).
    pub file_name: String,
    pub utf8_name: bool,
    /// The entries of its `mdev_supported_types` directory, or why that
    /// could not be read.
    pub types: Result<Vec<Result<TypeEntry, IoError>>, IoError>,
}

/// How `{:?}` shows a directory entry at path `p`.
pub open spec fn dir_entry_debug(p: Seq<char>) -> Seq<char> {
    "DirEntry("@ + path_debug_text(p) + ")"@
}

/// The message for a file at `p` that could not be read.
pub open spec fn contents_failure(p: Seq<char>) -> Seq<char> {
    "Failed to read contents of "@ + path_debug_text(p)
}

/// What one entry of a type directory comes to.
pub enum TypeStep {
    Skip,
    Found(MDevTypeView),
    Fail(ErrorView),
}

/// Reading a type from its entry `e` in the directory `pdir` of parent
/// `pname`: entries that are not directories, or whose names are not UTF-8,
/// are skipped; then the available instances (trimmed, as an `i32`), the
/// device API (trimmed), and where they exist the name (trimmed) and the
/// description (trimmed, line breaks as ", ").
pub open spec fn type_step(pdir: Seq<char>, pname: Seq<char>, e: TypeEntry) -> TypeStep {
    let tdir = joined(pdir, e.file_name@);
    match e.is_dir {
        Err(io) => TypeStep::Fail(
            ErrorView::IOError("Unable to determine file type for "@ + dir_entry_debug(tdir), io),
        ),
        Ok(is_dir) => if !is_dir || !e.utf8_name {
            TypeStep::Skip
        } else {
            match e.available_instances {
                Err(io) => TypeStep::Fail(
                    ErrorView::IOError(contents_failure(joined(tdir, "available_instances"@)), io),
                ),
                Ok(text) => match i32_value(trimmed(text@)) {
                    Err(pe) => TypeStep::Fail(
                        ErrorView::System(
                            "Failed to parse available instances as a string: "@ + pe.text(),
                        ),
                    ),
                    Ok(n) => match e.device_api {
                        Err(io) => TypeStep::Fail(
                            ErrorView::IOError(contents_failure(joined(tdir, "device_api"@)), io),
                        ),
                        Ok(api) => match e.name {
                            Some(Err(io)) => TypeStep::Fail(
                                ErrorView::IOError(contents_failure(joined(tdir, "name"@)), io),
                            ),
                            _ => match e.description {
                                Some(Err(io)) => TypeStep::Fail(
                                    ErrorView::IOError(
                                        contents_failure(joined(tdir, "description"@)),
                                        io,
                                    ),
                                ),
                                _ => TypeStep::Found(
                                    MDevTypeView {
                                        parent: pname,
                                        typename: e.file_name@,
                                        available_instances: n as i32,
                                        device_api: trimmed(api@),
                                        name: match e.name {
                                            Some(Ok(s)) => trimmed(s@),
                                            _ => Seq::empty(),
                                        },
                                        description: match e.description {
                                            Some(Ok(s)) => newlines_as_commas(trimmed(s@)),
                                            _ => Seq::empty(),
                                        },
                                    },
                                ),
                            },
                        },
                    },
                },
            }
        },
    }
}

/// The types read from the entries of a parent's type directory, in order,
/// or the first error.
pub open spec fn types_fold(pdir: Seq<char>, pname: Seq<char>, entries: Seq<Result<TypeEntry, IoError>>) -> Result<Seq<MDevTypeView>, ErrorView>
    decreases entries.len(),
{
    if entries.len() == 0 {
        Ok(Seq::empty())
    } else {
        match types_fold(pdir, pname, entries.drop_last()) {
            Err(e) => Err(e),
            Ok(prev) => match entries.last() {
                Err(io) => Err(
                    ErrorView::IOError("Failed to read entry from directory "@ + path_debug_text(pdir), io),
                ),
                Ok(te) => match type_step(pdir, pname, te) {
                    TypeStep::Skip => Ok(prev),
                    TypeStep::Found(t) => Ok(prev.push(t)),
                    TypeStep::Fail(e) => Err(e),
                },
            },
        }
    }
}

/// The type directory of parent `pname`.
pub open spec fn types_dir_of(root: Seq<char>, pname: Seq<char>) -> Seq<char> {
    joined(joined(parent_base_of(root), pname), "mdev_supported_types"@)
}

/// The types per parent read from the entries of the parents' directory, or
/// the first error. Parents whose names are not UTF-8, and (when a parent is
/// asked for) other parents, are passed over.
pub open spec fn parents_fold(root: Seq<char>, wanted: Option<Seq<char>>, entries: Seq<Result<ParentTypesEntry, IoError>>) -> Result<Map<Seq<char>, Seq<MDevTypeView>>, ErrorView>
    decreases entries.len(),
{
    if entries.len() == 0 {
        Ok(Map::empty())
    } else {
        match parents_fold(root, wanted, entries.drop_last()) {
            Err(e) => Err(e),
            Ok(prev) => match entries.last() {
                Err(io) => Err(
                    ErrorView::IOError("Failed to read entry from mdev parent device directory"@, io),
                ),
                Ok(pe) => if !pe.utf8_name || (wanted is Some && wanted != Some(pe.file_name@)) {
                    Ok(prev)
                } else {
                    let pdir = types_dir_of(root, pe.file_name@);
                    match pe.types {
                        Err(io) => Err(
                            ErrorView::IOError("Failed to read directory "@ + path_debug_text(pdir), io),
                        ),
                        Ok(list) => match types_fold(pdir, pe.file_name@, list@) {
                            Err(e) => Err(e),
                            Ok(ts) => Ok(prev.insert(pe.file_name@, ts)),
                        },
                    }
                }
            },
        }
    }
}

/// The supported types per parent; nothing when the parents' directory
/// could not be read (`listing` is `None`).
pub open spec fn supported_types_of(root: Seq<char>, wanted: Option<Seq<char>>, listing: Option<Vec<Result<ParentTypesEntry, IoError>>>) -> Result<Map<Seq<char>, Seq<MDevTypeView>>, ErrorView> {
    match listing {
        None => Ok(Map::empty()),
        Some(v) => parents_fold(root, wanted, v@),
    }
}

/// `got` holds the types of `want`, ordered by name (see
/// [`sorted_by_typename`]).
pub open spec fn sorted_version_of(got: Seq<MDevType>, want: Seq<MDevTypeView>) -> bool {
    got.map_values(|t: MDevType| type_view(t)) == sorted_by_typename(want)
}

/// `m` holds the lists of `want` under the same keys, each ordered by name.
pub open spec fn type_map_matches(m: Map<Seq<char>, Vec<MDevType>>, want: Map<Seq<char>, Seq<MDevTypeView>>) -> bool {
    &&& m.dom() == want.dom()
    &&& forall|k: Seq<char>| #[trigger] want.contains_key(k) ==> sorted_version_of(m[k]@, want[k])
}

fn file_failure(dir: &String, file: &str, io: IoError) -> (e: Error)
    ensures
        e@ == ErrorView::IOError(contents_failure(joined(dir@, file@)), io),
{
    let p = path_join(dir.as_str(), file);
    let mut m = String::from_str("Failed to read contents of ");
    let d = path_debug(p.as_str());
    m.append(d.as_str());
    Error::IOError(m, io)
}

fn read_type(pdir: &String, pname: &String, e: TypeEntry) -> (r: Result<Option<MDevType>, Error>)
    ensures
        match type_step(pdir@, pname@, e) {
            TypeStep::Skip => r matches Ok(None),
            TypeStep::Found(t) => r matches Ok(Some(x)) && x@ == t,
            TypeStep::Fail(ev) => r matches Err(x) && x@ == ev,
        },
{
    let ghost e0 = e;
    let tdir = path_join(pdir.as_str(), e.file_name.as_str());
    let is_dir = match e.is_dir {
        Ok(b) => b,
        Err(io) => {
            let mut m = String::from_str("Unable to determine file type for ");
            m.append("DirEntry(");
            let d = path_debug(tdir.as_str());
            m.append(d.as_str());
            m.append(")");
            assert(m@ =~= "Unable to determine file type for "@ + dir_entry_debug(tdir@));
            return Err(Error::IOError(m, io));
        },
    };
    if !is_dir || !e.utf8_name {
        return Ok(None);
    }
    let text = match e.available_instances {
        Ok(t) => t,
        Err(io) => {
            return Err(file_failure(&tdir, "available_instances", io));
        },
    };
    let tt = trim(text.as_str());
    let n = match parse_i32(tt.as_str()) {
        Ok(n) => n,
        Err(pe) => {
            let mut m = String::from_str("Failed to parse available instances as a string: ");
            let pm = pe.message();
            m.append(pm.as_str());
            return Err(Error::System(m));
        },
    };
    let api = match e.device_api {
        Ok(a) => a,
        Err(io) => {
            return Err(file_failure(&tdir, "device_api", io));
        },
    };
    let name = match e.name {
        Some(Err(io)) => {
            return Err(file_failure(&tdir, "name", io));
        },
        Some(Ok(s)) => trim(s.as_str()),
        None => String::new(),
    };
    let description = match e.description {
        Some(Err(io)) => {
            return Err(file_failure(&tdir, "description", io));
        },
        Some(Ok(s)) => {
            let t = trim(s.as_str());
            replace_newlines(t.as_str())
        },
        None => String::new(),
    };
    let mut t = MDevType::new();
    t.parent = pname.clone();
    t.typename = e.file_name;
    t.available_instances = n;
    t.device_api = trim(api.as_str());
    t.name = name;
    t.description = description;
    Ok(Some(t))
}

fn read_types(pdir: &String, pname: &String, list: Vec<Result<TypeEntry, IoError>>) -> (r: Result<Vec<MDevType>, Error>)
    ensures
        match types_fold(pdir@, pname@, list@) {
            Ok(ts) => r matches Ok(v) && v@.map_values(|t: MDevType| type_view(t)) == ts,
            Err(ev) => r matches Err(x) && x@ == ev,
        },
{
    let ghost orig = list@;
    let total: usize = list.len();
    let mut rest = list;
    let mut out: Vec<MDevType> = Vec::new();
    let mut k: usize = 0;
    assert(orig.skip(0) =~= orig);
    assert(orig.take(0) =~= Seq::<Result<TypeEntry, IoError>>::empty());
    assert(out@.map_values(|t: MDevType| type_view(t)) =~= Seq::<MDevTypeView>::empty());
    while rest.len() > 0
        invariant
            k <= total,
            orig.len() == total,
            orig == list@,
            rest@ == orig.skip(k as int),
            rest@.len() == total - k,
            types_fold(pdir@, pname@, orig.take(k as int)) matches Ok(ts) && out@.map_values(
                |t: MDevType| type_view(t),
            ) == ts,
        decreases rest.len(),
    {
        let item = rest.remove(0);
        assert(item == orig[k as int]);
        assert(rest@ =~= orig.skip(k + 1));
        assert(orig.take(k + 1).drop_last() =~= orig.take(k as int));
        assert(orig.take(k + 1).last() == orig[k as int]);
        let ghost before = out@.map_values(|t: MDevType| type_view(t));
        match item {
            Err(io) => {
                let mut m = String::from_str("Failed to read entry from directory ");
                let d = path_debug(pdir.as_str());
                m.append(d.as_str());
                proof {
                    lemma_types_fold_error_sticks(pdir@, pname@, orig, k as int + 1, total as int);
                    assert(orig.take(total as int) =~= orig);
                }
                return Err(Error::IOError(m, io));
            },
            Ok(te) => {
                match read_type(pdir, pname, te) {
                    Err(e) => {
                        proof {
                            lemma_types_fold_error_sticks(pdir@, pname@, orig, k as int + 1, total as int);
                            assert(orig.take(total as int) =~= orig);
                        }
                        return Err(e);
                    },
                    Ok(None) => {},
                    Ok(Some(t)) => {
                        out.push(t);
                        assert(out@.map_values(|t: MDevType| type_view(t)) =~= before.push(
                            type_view(out@.last()),
                        ));
                    },
                }
            },
        }
        k = k + 1;
    }
    assert(orig.take(total as int) =~= orig);
    Ok(out)
}

proof fn lemma_types_fold_error_sticks(pdir: Seq<char>, pname: Seq<char>, s: Seq<Result<TypeEntry, IoError>>, k: int, n: int)
    requires
        0 <= k <= n <= s.len(),
        types_fold(pdir, pname, s.take(k)) is Err,
    ensures
        types_fold(pdir, pname, s.take(n)) == types_fold(pdir, pname, s.take(k)),
    decreases n - k,
{
    if n > k {
        lemma_types_fold_error_sticks(pdir, pname, s, k, n - 1);
        assert(s.take(n).drop_last() =~= s.take(n - 1));
    }
}

proof fn lemma_parents_fold_error_sticks(root: Seq<char>, wanted: Option<Seq<char>>, s: Seq<Result<ParentTypesEntry, IoError>>, k: int, n: int)
    requires
        0 <= k <= n <= s.len(),
        parents_fold(root, wanted, s.take(k)) is Err,
    ensures
        parents_fold(root, wanted, s.take(n)) == parents_fold(root, wanted, s.take(k)),
    decreases n - k,
{
    if n > k {
        lemma_parents_fold_error_sticks(root, wanted, s, k, n - 1);
        assert(s.take(n).drop_last() =~= s.take(n - 1));
    }
}

impl Environment {
    /// The device types that each parent device supports (only those of
    /// `parent` where that is given), each parent's list ordered by type
    /// name. `listing` is what was read of the parents' directory, `None`
    /// where that directory could not be read.
    pub fn get_supported_types(&self, parent: Option<String>, listing: Option<Vec<Result<ParentTypesEntry, IoError>>>) -> (r: Result<TextMap<Vec<MDevType>>, Error>)
        ensures
            match supported_types_of(self@, opt_text(parent), listing) {
                Ok(want) => r matches Ok(m) && key_order(m@) && type_map_matches(as_map(m@), want),
                Err(ev) => r matches Err(x) && x@ == ev,
            },
    {
        let mut types: TextMap<Vec<MDevType>> = TextMap::new();
        let entries = match listing {
            None => {
                assert(as_map(types@) =~= Map::<Seq<char>, Vec<MDevType>>::empty());
                return Ok(types);
            },
            Some(v) => v,
        };
        let ghost wanted = opt_text(parent);
        let ghost orig = entries@;
        let total: usize = entries.len();
        let mut rest = entries;
        let mut k: usize = 0;
        let base = self.parent_base();
        assert(orig.skip(0) =~= orig);
        assert(orig.take(0) =~= Seq::<Result<ParentTypesEntry, IoError>>::empty());
        assert(as_map(types@) =~= Map::<Seq<char>, Vec<MDevType>>::empty());
        while rest.len() > 0
            invariant
                k <= total,
                orig.len() == total,
                listing matches Some(v) && v@ == orig,
                rest@ == orig.skip(k as int),
                rest@.len() == total - k,
                base@ == parent_base_of(self@),
                wanted == opt_text(parent),
                key_order(types@),
                parents_fold(self@, wanted, orig.take(k as int)) matches Ok(want) && type_map_matches(
                    as_map(types@),
                    want,
                ),
            decreases rest.len(),
        {
            let item = rest.remove(0);
            assert(item == orig[k as int]);
            assert(rest@ =~= orig.skip(k + 1));
            assert(orig.take(k + 1).drop_last() =~= orig.take(k as int));
            assert(orig.take(k + 1).last() == orig[k as int]);
            let ghost want_before = parents_fold(self@, wanted, orig.take(k as int))->Ok_0;
            match item {
                Err(io) => {
                    proof {
                        lemma_parents_fold_error_sticks(self@, wanted, orig, k as int + 1, total as int);
                        assert(orig.take(total as int) =~= orig);
                    }
                    return Err(
                        Error::IOError(
                            String::from_str("Failed to read entry from mdev parent device directory"),
                            io,
                        ),
                    );
                },
                Ok(pe) => {
                    let skip = !pe.utf8_name || match &parent {
                        Some(p) => *p != pe.file_name,
                        None => false,
                    };
                    if !skip {
                        let pd = path_join(base.as_str(), pe.file_name.as_str());
                        let pdir = path_join(pd.as_str(), "mdev_supported_types");
                        let list = match pe.types {
                            Ok(l) => l,
                            Err(io) => {
                                let mut m = String::from_str("Failed to read directory ");
                                let d = path_debug(pdir.as_str());
                                m.append(d.as_str());
                                proof {
                                    lemma_parents_fold_error_sticks(self@, wanted, orig, k as int + 1, total as int);
                                    assert(orig.take(total as int) =~= orig);
                                }
                                return Err(Error::IOError(m, io));
                            },
                        };
                        match read_types(&pdir, &pe.file_name, list) {
                            Err(e) => {
                                proof {
                                    lemma_parents_fold_error_sticks(self@, wanted, orig, k as int + 1, total as int);
                                    assert(orig.take(total as int) =~= orig);
                                }
                                return Err(e);
                            },
                            Ok(ts) => {
                                let ghost ts_view = ts@.map_values(|t: MDevType| type_view(t));
                                let sorted = sort_by_typename(ts);
                                let ghost before_map = as_map(types@);
                                types.insert(pe.file_name, sorted);
                                let ghost want_now = want_before.insert(pe.file_name@, ts_view);
                                assert(type_map_matches(as_map(types@), want_now)) by {
                                    assert(as_map(types@).dom() =~= want_now.dom());
                                }
                            },
                        }
                    }
                },
            }
            k = k + 1;
        }
        assert(orig.take(total as int) =~= orig);
        Ok(types)
    }
}

proof fn lemma_types_fold_parent(pdir: Seq<char>, pname: Seq<char>, s: Seq<Result<TypeEntry, IoError>>)
    ensures
        types_fold(pdir, pname, s) matches Ok(ts) ==> forall|i: int| 0 <= i < ts.len() ==> (
        #[trigger] ts[i]).parent == pname,
    decreases s.len(),
{
    if s.len() > 0 {
        lemma_types_fold_parent(pdir, pname, s.drop_last());
    }
}

proof fn lemma_parents_fold_parent(root: Seq<char>, wanted: Option<Seq<char>>, s: Seq<Result<ParentTypesEntry, IoError>>)
    ensures
        parents_fold(root, wanted, s) matches Ok(m) ==> forall|k: Seq<char>| #[trigger] m.contains_key(k)
            ==> (wanted matches Some(p) ==> k == p) && forall|i: int| 0 <= i < m[k].len() ==> (
            #[trigger] m[k][i]).parent == k,
    decreases s.len(),
{
    if s.len() > 0 {
        lemma_parents_fold_parent(root, wanted, s.drop_last());
        if let Ok(pe) = s.last() {
            if let Ok(list) = pe.types {
                lemma_types_fold_parent(types_dir_of(root, pe.file_name@), pe.file_name@, list@);
            }
        }
    }
}

/// Each parent's types name that parent as theirs; and when a parent is
/// asked for, no other is listed.
pub proof fn law_types_listed_by_parent(root: Seq<char>, wanted: Option<Seq<char>>, listing: Option<Vec<Result<ParentTypesEntry, IoError>>>)
    ensures
        supported_types_of(root, wanted, listing) matches Ok(m) ==> forall|k: Seq<char>|
            #[trigger] m.contains_key(k) ==> (wanted matches Some(p) ==> k == p) && forall|i: int|
                0 <= i < m[k].len() ==> (#[trigger] m[k][i]).parent == k,
{
    if let Some(v) = listing {
        lemma_parents_fold_parent(root, wanted, v@);
    }
}

proof fn lemma_parents_fold_one(root: Seq<char>, p: Seq<char>, s: Seq<Result<ParentTypesEntry, IoError>>)
    ensures
        parents_fold(root, None, s) matches Ok(all) ==> parents_fold(root, Some(p), s) == Ok::<
            Map<Seq<char>, Seq<MDevTypeView>>,
            ErrorView,
        >(all.restrict(set![p])),
    decreases s.len(),
{
    if s.len() == 0 {
        assert(Map::<Seq<char>, Seq<MDevTypeView>>::empty().restrict(set![p]) =~= Map::empty());
    } else {
        let t = s.drop_last();
        lemma_parents_fold_one(root, p, t);
        if let Ok(all) = parents_fold(root, None, s) {
            let prev = parents_fold(root, None, t)->Ok_0;
            let pe = s.last()->Ok_0;
            assert(parents_fold(root, Some(p), t) == Ok::<Map<Seq<char>, Seq<MDevTypeView>>, ErrorView>(
                prev.restrict(set![p]),
            ));
            if !pe.utf8_name {
                assert(all == prev);
            } else {
                let ts = types_fold(types_dir_of(root, pe.file_name@), pe.file_name@, pe.types->Ok_0@)->Ok_0;
                assert(all == prev.insert(pe.file_name@, ts));
                if pe.file_name@ == p {
                    assert(all.restrict(set![p]) =~= prev.restrict(set![p]).insert(p, ts));
                } else {
                    assert(all.restrict(set![p]) =~= prev.restrict(set![p]));
                }
            }
        }
    }
}

/// Asking for the types of one parent gives exactly that parent's part of
/// the listing of all parents (nothing where it has none), whenever listing
/// all of them succeeds.
pub proof fn law_one_parent_of_all(root: Seq<char>, p: Seq<char>, listing: Option<Vec<Result<ParentTypesEntry, IoError>>>)
    ensures
        supported_types_of(root, None, listing) matches Ok(all) ==> supported_types_of(root, Some(p), listing)
            == Ok::<Map<Seq<char>, Seq<MDevTypeView>>, ErrorView>(all.restrict(set![p])),
{
    match listing {
        Some(v) => lemma_parents_fold_one(root, p, v@),
        None => {
            assert(Map::<Seq<char>, Seq<MDevTypeView>>::empty().restrict(set![p]) =~= Map::empty());
        },
    }
}

/// The type `t` of parent `k` is what its entry `e` of the parent's type
/// directory reads as: a directory with a UTF-8 name, the type's name; the
/// available instances are the trimmed text of that file as an integer; the
/// device API is that file's text trimmed; the name and the description are
/// their files' texts trimmed (line breaks in the description replaced by
/// ", ") where those files exist, each independently of the other, and
/// empty where they do not.
pub open spec fn type_read_from(k: Seq<char>, e: TypeEntry, t: MDevTypeView) -> bool {
    &&& e.is_dir matches Ok(true)
    &&& e.utf8_name
    &&& t.parent == k
    &&& t.typename == e.file_name@
    &&& e.available_instances matches Ok(a)
    &&& i32_value(trimmed(a@)) == Ok::<int, IntParseError>(t.available_instances as int)
    &&& e.device_api matches Ok(api)
    &&& t.device_api == trimmed(api@)
    &&& (e.name matches Some(Ok(n)) ==> t.name == trimmed(n@))
    &&& (e.name is None ==> t.name == Seq::<char>::empty())
    &&& (e.description matches Some(Ok(x)) ==> t.description == newlines_as_commas(trimmed(x@)))
    &&& (e.description is None ==> t.description == Seq::<char>::empty())
}

/// One of the entries `s` of parent `k`'s type directory reads as `t`.
pub open spec fn from_type_entry(k: Seq<char>, s: Seq<Result<TypeEntry, IoError>>, t: MDevTypeView) -> bool {
    exists|l: int| 0 <= l < s.len() && #[trigger] type_entry_reads(k, s[l], t)
}

/// The entry `e` reads as `t`.
pub open spec fn type_entry_reads(k: Seq<char>, e: Result<TypeEntry, IoError>, t: MDevTypeView) -> bool {
    e matches Ok(te) && type_read_from(k, te, t)
}

/// The entry `e` of the parents' directory is parent `k`, one of whose type
/// entries reads as `t`.
pub open spec fn parent_type_entry(k: Seq<char>, e: Result<ParentTypesEntry, IoError>, t: MDevTypeView) -> bool {
    &&& e matches Ok(pe)
    &&& pe.file_name@ == k
    &&& pe.types matches Ok(list)
    &&& from_type_entry(k, list@, t)
}

/// One of the entries `s` of the parents' directory is parent `k`, one of
/// whose type entries reads as `t`.
pub open spec fn from_parent_entry(k: Seq<char>, s: Seq<Result<ParentTypesEntry, IoError>>, t: MDevTypeView) -> bool {
    exists|j: int| 0 <= j < s.len() && #[trigger] parent_type_entry(k, s[j], t)
}

proof fn lemma_found_type_read_from(pdir: Seq<char>, pname: Seq<char>, e: TypeEntry)
    ensures
        type_step(pdir, pname, e) matches TypeStep::Found(t) ==> type_read_from(pname, e, t),
{
    if let Ok(a) = e.available_instances {
        lemma_i32_value_fits(trimmed(a@));
    }
}

proof fn lemma_types_from_entries(pdir: Seq<char>, pname: Seq<char>, s: Seq<Result<TypeEntry, IoError>>)
    ensures
        types_fold(pdir, pname, s) matches Ok(ts) ==> forall|i: int|
            0 <= i < ts.len() ==> #[trigger] from_type_entry(pname, s, ts[i]),
    decreases s.len(),
{
    if s.len() > 0 {
        let t = s.drop_last();
        lemma_types_from_entries(pdir, pname, t);
        if let Ok(prev) = types_fold(pdir, pname, t) {
            if let Ok(ts) = types_fold(pdir, pname, s) {
                assert forall|i: int| 0 <= i < ts.len() implies #[trigger] from_type_entry(pname, s, ts[i]) by {
                    if i < prev.len() {
                        assert(ts[i] == prev[i]);
                        assert(from_type_entry(pname, t, prev[i]));
                        let l = choose|l: int| 0 <= l < t.len() && #[trigger] type_entry_reads(pname, t[l], prev[i]);
                        assert(t[l] == s[l]);
                        assert(type_entry_reads(pname, s[l], ts[i]));
                    } else {
                        lemma_found_type_read_from(pdir, pname, s.last()->Ok_0);
                        assert(type_entry_reads(pname, s[s.len() - 1], ts[i]));
                    }
                }
            }
        }
    }
}

proof fn lemma_parents_types_from_entries(root: Seq<char>, wanted: Option<Seq<char>>, s: Seq<Result<ParentTypesEntry, IoError>>)
    ensures
        parents_fold(root, wanted, s) matches Ok(m) ==> forall|k: Seq<char>, i: int|
            m.contains_key(k) && 0 <= i < m[k].len() ==> #[trigger] from_parent_entry(k, s, m[k][i]),
    decreases s.len(),
{
    if s.len() > 0 {
        let t = s.drop_last();
        lemma_parents_types_from_entries(root, wanted, t);
        if let Ok(prev) = parents_fold(root, wanted, t) {
            if let Ok(m) = parents_fold(root, wanted, s) {
                assert forall|k: Seq<char>, i: int| m.contains_key(k) && 0 <= i < m[k].len() implies #[trigger] from_parent_entry(
                    k,
                    s,
                    m[k][i],
                ) by {
                    let pe = s.last()->Ok_0;
                    if m == prev || k != pe.file_name@ {
                        assert(prev.contains_key(k) && m[k] == prev[k]);
                        assert(from_parent_entry(k, t, prev[k][i]));
                        let j = choose|j: int| 0 <= j < t.len() && #[trigger] parent_type_entry(k, t[j], prev[k][i]);
                        assert(t[j] == s[j]);
                        assert(parent_type_entry(k, s[j], m[k][i]));
                    } else {
                        let list = pe.types->Ok_0;
                        let pdir = types_dir_of(root, pe.file_name@);
                        lemma_types_from_entries(pdir, k, list@);
                        let ts = types_fold(pdir, k, list@)->Ok_0;
                        assert(m[k] == ts);
                        assert(from_type_entry(k, list@, ts[i]));
                        assert(parent_type_entry(k, s[s.len() - 1], m[k][i]));
                    }
                }
            }
        }
    }
}

/// Every listed type is what an entry of its parent's type directory reads
/// as: its name, parent, available instances and device API from that
/// entry's files, and its name and description from their own files where
/// those exist (the description whether or not there is a name).
pub proof fn law_types_read_from_entries(root: Seq<char>, wanted: Option<Seq<char>>, v: Vec<Result<ParentTypesEntry, IoError>>)
    ensures
        supported_types_of(root, wanted, Some(v)) matches Ok(m) ==> forall|k: Seq<char>, i: int|
            m.contains_key(k) && 0 <= i < m[k].len() ==> #[trigger] from_parent_entry(k, v@, m[k][i]),
{
    lemma_parents_types_from_entries(root, wanted, v@);
}

} // verus!
