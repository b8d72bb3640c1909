//! The mount-table record and its mathematical model.

use vstd::prelude::*;
use vstd::string::*;
use crate::chars::is_wspace;
use crate::text::{has_ch, no_ws};

verus! {

/// One mount-table record.  For what the fields mean consult `man fstab`.
#[derive(Clone, Debug)]
pub struct FsEntry {
    /// The device identifier: a device path, `UUID=...`, `LABEL=...`, or the
    /// literal `none`.
    pub fs_spec: String,
    /// The mount point, or the literal `none` for entries that are not
    /// mounted, such as swap.
    pub mountpoint: String,
    /// Which filesystem type it is.
    pub vfs_type: String,
    /// Mount options to use, comma-joined on the wire; order is preserved.
    pub mount_options: Vec<String>,
    /// Whether `dump(8)` should consider the filesystem.
    pub dump: bool,
    /// The pass in which `fsck(8)` checks the filesystem at boot; 0 skips
    /// the check.
    pub fsck_order: u16,
}

/// The model of a record: each text field as its character sequence.
#[verifier::ext_equal]
pub ghost struct EntryV {
    pub fs_spec: Seq<char>,
    pub mountpoint: Seq<char>,
    pub vfs_type: Seq<char>,
    pub mount_options: Seq<Seq<char>>,
    pub dump: bool,
    pub fsck_order: u16,
}

/// The views of a list of strings.
pub open spec fn str_views(v: Seq<String>) -> Seq<Seq<char>> {
    v.map_values(|s: String| s@)
}

/// The models of a list of records.
pub open spec fn entry_views(v: Seq<FsEntry>) -> Seq<EntryV> {
    v.map_values(|e: FsEntry| e@)
}

impl View for FsEntry {
    type V = EntryV;

    open spec fn view(&self) -> EntryV {
        EntryV {
            fs_spec: self.fs_spec@,
            mountpoint: self.mountpoint@,
            vfs_type: self.vfs_type@,
            mount_options: str_views(self.mount_options@),
            dump: self.dump,
            fsck_order: self.fsck_order,
        }
    }
}

/// A wire-safe text field: non-empty and free of white space.
pub open spec fn field_ok(s: Seq<char>) -> bool {
    s.len() > 0 && no_ws(s)
}

/// A record whose fields survive the wire format unchanged: fields are
/// non-empty and hold no white space, the device field does not begin like
/// a comment, no option holds a comma, and the options column is not empty.
pub open spec fn entry_wf(e: EntryV) -> bool {
    &&& field_ok(e.fs_spec)
    &&& e.fs_spec[0] != '#'
    &&& field_ok(e.mountpoint)
    &&& field_ok(e.vfs_type)
    &&& e.mount_options.len() > 0
    &&& forall|i: int|
        0 <= i < e.mount_options.len() ==> no_ws(#[trigger] e.mount_options[i]) && !has_ch(
            e.mount_options[i],
            ',',
        )
    &&& e.mount_options.len() > 1 || e.mount_options[0].len() > 0
}

/// Compares two option lists element by element.
fn options_eq(a: &Vec<String>, b: &Vec<String>) -> (r: bool)
    ensures
        r == (str_views(a@) == str_views(b@)),
{
    if a.len() != b.len() {
        proof {
            assert(str_views(a@).len() != str_views(b@).len());
        }
        return false;
    }
    let n = a.len();
    let mut i: usize = 0;
    while i < n
        invariant
            0 <= i <= n,
            n == a@.len(),
            n == b@.len(),
            forall|j: int| 0 <= j < i ==> a@[j]@ == b@[j]@,
        decreases n - i,
    {
        if !(a[i] == b[i]) {
            proof {
                assert(str_views(a@)[i as int] != str_views(b@)[i as int]);
            }
            return false;
        }
        i += 1;
    }
    proof {
        assert(str_views(a@) =~= str_views(b@));
    }
    true
}

impl PartialEq for FsEntry {
    /// Structural equality over all six fields.
    fn eq(&self, other: &Self) -> (r: bool) {
        let r = self.fs_spec == other.fs_spec && self.mountpoint == other.mountpoint
            && self.vfs_type == other.vfs_type && options_eq(
            &self.mount_options,
            &other.mount_options,
        ) && self.dump == other.dump && self.fsck_order == other.fsck_order;
        proof {
            if r {
                assert(self@ =~= other@);
            }
        }
        r
    }
}

impl vstd::std_specs::cmp::PartialEqSpecImpl for FsEntry {
    open spec fn obeys_eq_spec() -> bool {
        true
    }

    open spec fn eq_spec(&self, other: &FsEntry) -> bool {
        self@ == other@
    }
}

impl Eq for FsEntry {

}

/// Decides [`entry_wf`] for a record: whether it would survive a trip
/// through the wire format unchanged.
pub fn check_entry(e: &FsEntry) -> (r: bool)
    ensures
        r == entry_wf(e@),
{
    if !check_field(&e.fs_spec) {
        return false;
    }
    if e.fs_spec.as_str().get_char(0) == '#' {
        return false;
    }
    if !check_field(&e.mountpoint) {
        return false;
    }
    if !check_field(&e.vfs_type) {
        return false;
    }
    if e.mount_options.len() == 0 {
        return false;
    }
    let n = e.mount_options.len();
    let mut i: usize = 0;
    while i < n
        invariant
            0 <= i <= n,
            n == e.mount_options@.len(),
            forall|j: int|
                0 <= j < i ==> no_ws(#[trigger] str_views(e.mount_options@)[j]) && !has_ch(
                    str_views(e.mount_options@)[j],
                    ',',
                ),
        decreases n - i,
    {
        if !check_option(&e.mount_options[i]) {
            proof {
                assert(str_views(e.mount_options@)[i as int] == e.mount_options@[i as int]@);
                assert(!entry_wf(e@));
            }
            return false;
        }
        i += 1;
    }
    if e.mount_options.len() == 1 && e.mount_options[0].as_str().unicode_len() == 0 {
        return false;
    }
    true
}

/// Decides [`field_ok`].
fn check_field(s: &String) -> (r: bool)
    ensures
        r == field_ok(s@),
{
    let n = s.as_str().unicode_len();
    if n == 0 {
        return false;
    }
    no_ws_str(s.as_str())
}

/// Decides whether a string is free of white space.
fn no_ws_str(s: &str) -> (r: bool)
    ensures
        r == no_ws(s@),
{
    let n = s.unicode_len();
    let mut i: usize = 0;
    while i < n
        invariant
            0 <= i <= n,
            n == s@.len(),
            forall|j: int| 0 <= j < i ==> !is_wspace(s@[j]),
        decreases n - i,
    {
        if crate::chars::is_wspace_char(s.get_char(i)) {
            return false;
        }
        i += 1;
    }
    true
}

/// Decides whether an option is wire-safe: no white space and no comma.
fn check_option(s: &String) -> (r: bool)
    ensures
        r == (no_ws(s@) && !has_ch(s@, ',')),
{
    if !no_ws_str(s.as_str()) {
        return false;
    }
    let n = s.as_str().unicode_len();
    let mut i: usize = 0;
    while i < n
        invariant
            0 <= i <= n,
            n == s@.len(),
            no_ws(s@),
            forall|j: int| 0 <= j < i ==> s@[j] != ',',
        decreases n - i,
    {
        if s.as_str().get_char(i) == ',' {
            return false;
        }
        i += 1;
    }
    true
}

} // verus!
