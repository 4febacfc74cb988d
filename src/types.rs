//! The records and classification tags of the library.
use vstd::prelude::*;

verus! {

/// The state of a package on the device; exactly one holds per package.
#[derive(Debug, Clone, Copy, PartialEq, Eq, Structural)]
pub enum PackageState {
    Enabled,
    Disabled,
    Uninstalled,
}

/// The curated list that documents a package, if any.
#[derive(Debug, Clone, Copy, PartialEq, Eq, Structural)]
pub enum UadList {
    Aosp,
    Carrier,
    Google,
    Misc,
    Oem,
    Pending,
    Unlisted,
}

/// The documented safety of removing a package.
#[derive(Debug, Clone, Copy, PartialEq, Eq, Structural)]
pub enum Removal {
    Recommended,
    Advanced,
    Expert,
    Unsafe,
    Unlisted,
}

/// Failures of the folder picker.
#[derive(Debug, Clone, Copy, PartialEq, Eq, Structural)]
pub enum Error {
    DialogClosed,
}

/// Description given to a package that the classification store does not describe.
pub const DEFAULT_DESCRIPTION: &'static str = "[No description]: CONTRIBUTION WELCOMED";

/// Name of the file that the selection export writes.
pub const EXPORT_FILE_NAME: &'static str = "selection_export.txt";

/// Canonical shortened name of the application.
pub const NAME: &'static str = "UAD-ng";

/// Environment variable that holds the serial of the current device.
pub const ANDROID_SERIAL: &'static str = "ANDROID_SERIAL";

/// One entry of the classification store.
#[derive(Debug, Clone)]
pub struct Package {
    pub id: String,
    pub description: String,
    pub list: UadList,
    pub removal: Removal,
}

/// The classification store: entries keyed by package id, held in a `Vec`.
/// Ids are not required to be unique: by design, where two entries share an
/// id, the later one is the one that counts, as when the entries are inserted
/// one by one into a map, so the store behaves as a map from id to entry.
#[derive(Debug, Clone)]
pub struct PackageHashMap {
    pub packages: Vec<Package>,
}

/// The entry of `s` whose id is `name`, the last one if there are several.
pub open spec fn find_entry(s: Seq<Package>, name: Seq<char>) -> Option<Package>
    decreases s.len(),
{
    if s.len() == 0 {
        None
    } else if s.last().id@ == name {
        Some(s.last())
    } else {
        find_entry(s.drop_last(), name)
    }
}

impl PackageHashMap {
    pub open spec fn lookup(&self, name: Seq<char>) -> Option<Package> {
        find_entry(self.packages@, name)
    }

    /// A store of the given entries.
    pub fn new(packages: Vec<Package>) -> (r: PackageHashMap)
        ensures
            r.packages@ == packages@,
    {
        PackageHashMap { packages }
    }

    /// The entry for `name`.
    pub fn get(&self, name: &str) -> (r: Option<&Package>)
        ensures
            match r {
                Some(p) => self.lookup(name@) == Some(*p),
                None => self.lookup(name@) is None,
            },
    {
        let mut i: usize = self.packages.len();
        assert(self.packages@.subrange(0, i as int) =~= self.packages@);
        while i > 0
            invariant
                i <= self.packages@.len(),
                self.lookup(name@) == find_entry(self.packages@.subrange(0, i as int), name@),
            decreases i,
        {
            let p = &self.packages[i - 1];
            assert(self.packages@.subrange(0, i as int).drop_last() =~= self.packages@.subrange(0, i - 1));
            if crate::text::str_equal(p.id.as_str(), name) {
                return Some(p);
            }
            i = i - 1;
        }
        None
    }
}

/// The abstract content of a `PackageRow`.
pub struct RowView {
    pub name: Seq<char>,
    pub state: PackageState,
    pub description: Seq<char>,
    pub uad_list: UadList,
    pub removal: Removal,
    pub selected: bool,
    pub marked: bool,
}

/// The canonical record of one package of the device.
#[derive(Debug, Clone)]
pub struct PackageRow {
    pub name: String,
    pub state: PackageState,
    pub description: String,
    pub uad_list: UadList,
    pub removal: Removal,
    pub selected: bool,
    pub marked: bool,
}

impl View for PackageRow {
    type V = RowView;

    open spec fn view(&self) -> RowView {
        RowView {
            name: self.name@,
            state: self.state,
            description: self.description@,
            uad_list: self.uad_list,
            removal: self.removal,
            selected: self.selected,
            marked: self.marked,
        }
    }
}

/// The views of a sequence of rows.
pub open spec fn rows_view(s: Seq<PackageRow>) -> Seq<RowView> {
    s.map_values(|r: PackageRow| r@)
}

impl PackageRow {
    pub fn new(
        name: &str,
        state: PackageState,
        description: &str,
        uad_list: UadList,
        removal: Removal,
        selected: bool,
        marked: bool,
    ) -> (r: PackageRow)
        ensures
            r@ == (RowView {
                name: name@,
                state,
                description: description@,
                uad_list,
                removal,
                selected,
                marked,
            }),
    {
        PackageRow {
            name: name.to_owned(),
            state,
            description: description.to_owned(),
            uad_list,
            removal,
            selected,
            marked,
        }
    }
}

} // verus!
