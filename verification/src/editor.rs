//! The manual layout editor: what each partition may be answered with, how
//! an answer changes the held layout, and how the layout table draws it.

use crate::answers::{
    contains_str, rename_at, Created, mount_at, mounts_device, open_at, opens_device, CustomLayout, CustomMount, Key, LuksOpen,
    Mounted, Partition, OPEN,
};
use crate::copy::{self, gb_said, gb_text};
use crate::payload::Payload;
use crate::table::{place_all, place_creates, DiskTable};
use crate::esp::{fat, is_fat};
use crate::seqs::lemma_first_where;
use crate::text::{cat, cat4, owned, same_ignoring_case, str_eq, str_eq_ignore_case};
use crate::ui::{cell_view, cells_view, items_view, Cell, MenuItem};
use vstd::prelude::*;

verus! {

/// The answers one partition's popup gives.
#[derive(Clone, Copy, Debug, PartialEq, Eq, Structural)]
pub enum PartAction {
    Assign,
    Format,
    Reset,
    Open,
    Close,
    /// Changes the partition table itself: `Delete` and `Clear` plan a
    /// removal, `Create` plans a cut, and `Rename` writes a label.
    Delete,
    Clear,
    Create,
    Rename,
}

/// The filesystems that carry every mount point but the ESP and swap.
pub open spec fn linux_fs(fstype: Seq<char>) -> bool {
    fstype == "ext3"@ || fstype == "ext4"@ || fstype == "xfs"@ || fstype == "btrfs"@
}

/// Whether a filesystem can carry a mount point: only FAT carries
/// `/boot/efi`, only swap carries `/swap`, and every other mount point needs
/// a Linux filesystem.
pub open spec fn fits_spec(target: Seq<char>, fstype: Seq<char>) -> bool {
    if target == "/boot/efi"@ {
        fat(fstype)
    } else if target == "/swap"@ {
        fstype == "swap"@
    } else {
        linux_fs(fstype)
    }
}

/// Reports whether a filesystem can carry a mount point.
pub fn fits(target: &str, fstype: &str) -> (r: bool)
    ensures
        r == fits_spec(target@, fstype@),
{
    if str_eq(target, "/boot/efi") {
        is_fat(fstype)
    } else if str_eq(target, "/swap") {
        str_eq(fstype, "swap")
    } else {
        str_eq(fstype, "ext3") || str_eq(fstype, "ext4") || str_eq(fstype, "xfs") || str_eq(
            fstype,
            "btrfs",
        )
    }
}

/// The filesystem an answer leaves on a partition: a Format answer wins, and
/// without one the partition keeps the filesystem it reported.
pub open spec fn effective_fs_spec(partition: Partition, answer: Option<Mounted>) -> Seq<char> {
    match answer {
        Some(m) => if m.fstype@ != OPEN@ && m.fstype@ != "unformatted"@ {
            m.fstype@
        } else {
            partition.fstype@
        },
        None => partition.fstype@,
    }
}

/// Gives the filesystem one partition's answer leaves on the disk.
pub fn effective_fs(partition: &Partition, answer: Option<&Mounted>) -> (fs: String)
    ensures
        fs@ == effective_fs_spec(
            *partition,
            match answer {
                Some(m) => Some(*m),
                None => None,
            },
        ),
{
    match answer {
        Some(mounted) => {
            if !str_eq(mounted.fstype.as_str(), OPEN) && !str_eq(
                mounted.fstype.as_str(),
                "unformatted",
            ) {
                owned(mounted.fstype.as_str())
            } else {
                owned(partition.fstype.as_str())
            }
        },
        None => owned(partition.fstype.as_str()),
    }
}

/// Whether a mount point stays on a list for a target with or without a
/// separate `/boot` and a composefs backend.
pub open spec fn offered(target: Seq<char>, boot: bool, composefs: bool) -> bool {
    (target != "/boot"@ || boot) && (target != "/var"@ || !composefs)
}

/// The mount points `copy::mount_points` lists that `keep` keeps, in order.
pub open spec fn points_where(points: Seq<&'static str>, keep: spec_fn(Seq<char>) -> bool) -> Seq<Seq<char>>
    decreases points.len(),
{
    if points.len() == 0 {
        Seq::empty()
    } else {
        let rest = points_where(points.drop_last(), keep);
        if keep(points.last()@) {
            rest.push(points.last()@)
        } else {
            rest
        }
    }
}

pub open spec fn strs(v: Seq<&'static str>) -> Seq<Seq<char>> {
    v.map_values(|s: &'static str| s@)
}

/// The test a listed mount point passes to be offered: `offered`, and where
/// `check` holds, carried by `holds`.
pub open spec fn point_kept(boot: bool, composefs: bool, holds: Seq<char>, check: bool) -> spec_fn(Seq<char>) -> bool {
    |t: Seq<char>| offered(t, boot, composefs) && (!check || fits_spec(t, holds))
}

/// The mount points one partition can take: never one its filesystem cannot
/// carry, `/boot` only where the bootloader reads one, and no `/var` for a
/// composefs image.
pub open spec fn assigns_spec(holds: Seq<char>, boot: bool, composefs: bool) -> Seq<Seq<char>> {
    points_where(seq!["/boot/efi", "/", "/boot", "/swap"], point_kept(boot, composefs, holds, true))
}

/// Keeps the mount points `point_kept` accepts, in order.
fn keep_points(points: &[&'static str], boot: bool, composefs: bool, holds: &str, check: bool) -> (out: Vec<&'static str>)
    ensures
        strs(out@) == points_where(points@, point_kept(boot, composefs, holds@, check)),
{
    let ghost keep = point_kept(boot, composefs, holds@, check);
    let mut out: Vec<&'static str> = Vec::new();
    let mut i: usize = 0;
    while i < points.len()
        invariant
            i <= points@.len(),
            keep == point_kept(boot, composefs, holds@, check),
            strs(out@) == points_where(points@.take(i as int), keep),
        decreases points.len() - i,
    {
        assert(points@.take(i + 1).drop_last() =~= points@.take(i as int));
        let target = points[i];
        let take = (!str_eq(target, "/boot") || boot) && (!str_eq(target, "/var") || !composefs)
            && (!check || fits(target, holds));
        if take {
            out.push(target);
            assert(strs(out@) =~= strs(out@.drop_last()).push(target@));
        }
        i = i + 1;
    }
    assert(points@.take(i as int) =~= points@);
    out
}

/// Lists the mount points one partition can take.
pub fn assigns(partition: &Partition, answer: Option<&Mounted>, boot: bool, composefs: bool) -> (out: Vec<&'static str>)
    ensures
        strs(out@) == assigns_spec(
            effective_fs_spec(
                *partition,
                match answer {
                    Some(m) => Some(*m),
                    None => None,
                },
            ),
            boot,
            composefs,
        ),
{
    let holds = effective_fs(partition, answer);
    let points = copy::mount_points();
    keep_points(&points, boot, composefs, holds.as_str(), true)
}

/// The mount points an open container takes: a closed one is offered none,
/// `/boot/efi` never, because firmware reads the ESP before anything opens
/// the container, and no `/var` for a composefs image.
pub fn open_points(composefs: bool) -> (out: Vec<&'static str>)
    ensures
        strs(out@) == (if composefs {
            seq!["/"@, "/var/home"@]
        } else {
            seq!["/"@, "/var"@, "/var/home"@]
        }),
{
    let mut out: Vec<&'static str> = Vec::new();
    out.push("/");
    if !composefs {
        out.push("/var");
    }
    out.push("/var/home");
    assert(strs(out@) =~= (if composefs {
        seq!["/"@, "/var/home"@]
    } else {
        seq!["/"@, "/var"@, "/var/home"@]
    }));
    out
}

/// The Assign submenu: the mount points, then `Unassign` so the user can take
/// a mount point back.
pub fn assign_children(points: &[&'static str]) -> (children: Vec<&'static str>)
    ensures
        children@ == points@.push(copy::UNASSIGN),
{
    let mut children: Vec<&'static str> = Vec::new();
    let mut i: usize = 0;
    while i < points.len()
        invariant
            i <= points@.len(),
            children@ == points@.take(i as int),
        decreases points.len() - i,
    {
        children.push(points[i]);
        assert(points@.take(i + 1) =~= points@.take(i as int).push(points@[i as int]));
        i = i + 1;
    }
    assert(points@.take(i as int) =~= points@);
    children.push(copy::UNASSIGN);
    children
}

pub open spec fn mount_name_text(target: Seq<char>) -> Seq<char> {
    if target == "/boot/efi"@ {
        "EFI-SYSTEM"@
    } else if target == "/boot"@ {
        "boot"@
    } else if target == "/"@ {
        "root"@
    } else if target == "/var"@ || target == "/var/home"@ {
        "var"@
    } else {
        ""@
    }
}

/// The label a mount point derives, in the words the automatic plan writes
/// onto the partitions it cuts; empty for a mount point this installer does
/// not name.
pub fn mount_name(target: &str) -> (name: &'static str)
    ensures
        name@ == mount_name_text(target@),
{
    if str_eq(target, "/boot/efi") {
        "EFI-SYSTEM"
    } else if str_eq(target, "/boot") {
        "boot"
    } else if str_eq(target, "/") {
        "root"
    } else if str_eq(target, "/var") || str_eq(target, "/var/home") {
        "var"
    } else {
        ""
    }
}

/// The name the rename window opens on: a label the plan already carries
/// wins, and otherwise the mount point names it.
pub fn rename_default(target: &str, label: &str) -> (name: String)
    ensures
        name@ == (if label@.len() == 0 {
            mount_name_text(target@)
        } else {
            label@
        }),
{
    if label.is_empty() {
        owned(mount_name(target))
    } else {
        owned(label)
    }
}

/// Whether the installed machine can use a key. A key file for a data volume
/// is read at boot from the installed root, so it is usable only where the
/// layout opens a container as `/`; a passphrase is typed at boot.
pub fn usable_key(key: &Key, encrypted_root: bool) -> (r: bool)
    ensures
        r == (encrypted_root || key is Passphrase),
{
    encrypted_root || match key {
        Key::Passphrase(_) => true,
        _ => false,
    }
}

pub open spec fn partition_type_text(parttype: Seq<char>) -> Seq<char> {
    if same_ignoring_case(parttype, "c12a7328-f81f-11d2-ba4b-00a0c93ec93b"@) || same_ignoring_case(parttype, "0xef"@) {
        "efi"@
    } else if same_ignoring_case(parttype, "0fc63daf-8483-4772-8e79-3d69d8477de4"@) || same_ignoring_case(parttype, "0x83"@) {
        "linux"@
    } else if same_ignoring_case(parttype, "e6d6d379-f507-44c2-a23c-238f2a3df928"@) || same_ignoring_case(parttype, "0x8e"@) {
        "lvm"@
    } else if same_ignoring_case(parttype, "0657fd6d-a4ab-43c4-84e5-0933c84b4f4f"@) || same_ignoring_case(parttype, "0x82"@) {
        "swap"@
    } else {
        ""@
    }
}

/// Names the partition type for the table, from the GPT type GUID or from
/// the byte a dos label carries, in any case. An unrecognised type reads
/// empty, because a raw GUID tells the user nothing.
pub fn partition_type_said(parttype: &str) -> (said: &'static str)
    ensures
        said@ == partition_type_text(parttype@),
{
    if str_eq_ignore_case(parttype, "c12a7328-f81f-11d2-ba4b-00a0c93ec93b") || str_eq_ignore_case(parttype, "0xef") {
        "efi"
    } else if str_eq_ignore_case(parttype, "0fc63daf-8483-4772-8e79-3d69d8477de4") || str_eq_ignore_case(parttype, "0x83") {
        "linux"
    } else if str_eq_ignore_case(parttype, "e6d6d379-f507-44c2-a23c-238f2a3df928") || str_eq_ignore_case(parttype, "0x8e") {
        "lvm"
    } else if str_eq_ignore_case(parttype, "0657fd6d-a4ab-43c4-84e5-0933c84b4f4f") || str_eq_ignore_case(parttype, "0x82") {
        "swap"
    } else {
        ""
    }
}

// ---------------------------------------------------------------------------
// Answers that change the held layout

/// A mount answer as plain values: partition, mount point, format and
/// passphrase.
pub type MountView = (Seq<char>, Seq<char>, Seq<char>, Seq<char>);

pub open spec fn mount_view(m: CustomMount) -> MountView {
    (m.partition@, m.target@, m.fstype@, m.passphrase@)
}

pub open spec fn mounts_view(ms: Seq<CustomMount>) -> Seq<MountView> {
    ms.map_values(|m: CustomMount| mount_view(m))
}

/// The mount answers a held layout starts from.
pub open spec fn mounts_of(held: Option<CustomLayout>) -> Seq<CustomMount> {
    match held {
        Some(l) => l.mounts@,
        None => Seq::empty(),
    }
}

/// The opened containers a held layout starts from.
pub open spec fn opens_of(held: Option<CustomLayout>) -> Seq<LuksOpen> {
    match held {
        Some(l) => l.opens@,
        None => Seq::empty(),
    }
}

/// An answer about one partition keeps the rest of the plan: the layout held
/// before, or a fresh one for `disk` where none was held.
pub open spec fn same_plan(before: Option<CustomLayout>, after: CustomLayout, disk: Seq<char>) -> bool {
    match before {
        Some(l) => after.disk == l.disk && after.deletes == l.deletes && after.creates == l.creates
            && after.renames == l.renames && after.esp == l.esp && after.confirmed == l.confirmed,
        None => after.disk@ == disk && after.deletes@.len() == 0 && after.creates@.len() == 0
            && after.renames@.len() == 0 && after.esp@.len() == 0 && after.confirmed is None,
    }
}

/// The first mount answer naming `device`, over plain values.
pub open spec fn names_view(device: Seq<char>) -> spec_fn(MountView) -> bool {
    |m: MountView| m.0 == device
}

proof fn lemma_mount_at_view(ms: Seq<CustomMount>, device: Seq<char>)
    ensures
        mount_at(ms, device) == crate::seqs::first_where(mounts_view(ms), names_view(device)),
        mounts_view(ms).len() == ms.len(),
{
    let v = mounts_view(ms);
    assert forall|i: int| 0 <= i < ms.len() implies mounts_device(device)(#[trigger] ms[i])
        == names_view(device)(v[i]) by {
        assert(v[i] == mount_view(ms[i]));
    }
    crate::seqs::lemma_first_where_same(ms, mounts_device(device), v, names_view(device));
}

/// Gives the held layout, building a fresh one for `disk` on the first
/// answer about the disk.
pub fn held_layout(held: &mut Option<CustomLayout>, disk: &str)
    ensures
        *final(held) is Some,
        match *old(held) {
            Some(l) => *final(held) == Some(l),
            None => same_plan(None, (*final(held))->0, disk@) && (*final(held))->0.mounts@.len() == 0
                && (*final(held))->0.opens@.len() == 0,
        },
{
    if held.is_none() {
        *held = Some(CustomLayout::empty(disk));
    }
}

pub open spec fn place_target_done(was: Option<CustomLayout>, now: Option<CustomLayout>, disk: Seq<char>, partition: &Partition, target: Seq<char>) -> bool {
    &&& (now is Some)
    &&& (same_plan(was, now->0, disk))
    &&& (({
            let d = partition.device@;
            let m0 = mounts_of(was);
            let o0 = opens_of(was);
            let m1 = now->0.mounts@;
            let o1 = now->0.opens@;
            match open_at(o0, d) {
                Some(i) => m1 == m0 && o1.len() == o0.len() && (forall|j: int|
                    0 <= j < o0.len() && j != i ==> o1[j] == o0[j]) && o1[i].partition
                    == o0[i].partition && o1[i].key == o0[i].key && o1[i].target@ == target,
                None => o1 == o0 && match mount_at(m0, d) {
                    Some(i) => mounts_view(m1) == mounts_view(m0).update(
                        i,
                        (m0[i].partition@, target, m0[i].fstype@, m0[i].passphrase@),
                    ),
                    None => mounts_view(m1) == mounts_view(m0).push(
                        (d, target, "unformatted"@, Seq::empty()),
                    ),
                },
            }
        }))
    &&& (open_at(opens_of(was), partition.device@) is None || mount_at(
            mounts_of(was),
            partition.device@,
        ) is None ==> (now->0.answer_of(partition.device@) matches Some((t, _)) && t
            == target))
}

/// Points one partition's answer at a mount point. An open container keeps
/// the key it was opened with. Every other partition becomes a mount that
/// stays `unformatted` until a Format answer rewrites it. Where the partition
/// is not both mounted and opened, its answer then reads back with that
/// mount point.
pub fn place_target(held: &mut Option<CustomLayout>, disk: &str, partition: &Partition, target: &str)
    ensures
        place_target_done(*old(held), *final(held), disk@, partition, target@),
{
    held_layout(held, disk);
    let ghost before = held->0;
    proof {
        assert(opens_of(*old(held)) =~= before.opens@);
        assert(mounts_of(*old(held)) =~= before.mounts@);
    }
    let device = partition.device.as_str();
    match held {
        Some(layout) => {
            let mut i: usize = 0;
            while i < layout.opens.len() && !str_eq(layout.opens[i].partition.as_str(), device)
                invariant
                    i <= layout.opens@.len(),
                    layout.opens@ == before.opens@,
                    device@ == partition.device@,
                    forall|j: int| 0 <= j < i ==> !opens_device(device@)(#[trigger] layout.opens@[j]),
                decreases layout.opens.len() - i,
            {
                i = i + 1;
            }
            proof {
                lemma_first_where(layout.opens@, opens_device(device@), i as int);
            }
            if i < layout.opens.len() {
                layout.opens[i].target = owned(target);
                proof {
                    let o1 = layout.opens@;
                    assert forall|j: int| 0 <= j < o1.len() && j != i implies #[trigger] o1[j] == before.opens@[j] by {
                    }
                    assert forall|j: int| 0 <= j < o1.len() implies opens_device(device@)(#[trigger] before.opens@[j])
                        == opens_device(device@)(o1[j]) by {
                    }
                    crate::seqs::lemma_first_where_same(before.opens@, opens_device(device@), o1, opens_device(device@));
                }
            } else {
            let mut k: usize = 0;
            while k < layout.mounts.len() && !str_eq(layout.mounts[k].partition.as_str(), device)
                invariant
                    k <= layout.mounts@.len(),
                    layout.mounts@ == before.mounts@,
                    device@ == partition.device@,
                    forall|j: int| 0 <= j < k ==> !mounts_device(device@)(#[trigger] layout.mounts@[j]),
                decreases layout.mounts.len() - k,
            {
                k = k + 1;
            }
            proof {
                lemma_first_where(layout.mounts@, mounts_device(device@), k as int);
                lemma_mount_at_view(before.mounts@, device@);
            }
            if k < layout.mounts.len() {
                layout.mounts[k].target = owned(target);
                proof {
                    let m1 = layout.mounts@;
                    assert(mounts_view(m1) =~= mounts_view(before.mounts@).update(
                        k as int,
                        (before.mounts@[k as int].partition@, target@, before.mounts@[k as int].fstype@, before.mounts@[k as int].passphrase@),
                    ));
                    assert forall|j: int| 0 <= j < m1.len() implies mounts_device(device@)(#[trigger] before.mounts@[j])
                        == mounts_device(device@)(m1[j]) by {
                    }
                    crate::seqs::lemma_first_where_same(before.mounts@, mounts_device(device@), m1, mounts_device(device@));
                }
            } else {
                let row = CustomMount {
                    partition: owned(device),
                    target: owned(target),
                    fstype: owned("unformatted"),
                    passphrase: String::new(),
                };
                layout.mounts.push(row);
                proof {
                    let m1 = layout.mounts@;
                    assert(mounts_view(m1) =~= mounts_view(before.mounts@).push(
                        (device@, target@, "unformatted"@, Seq::empty()),
                    ));
                    crate::seqs::lemma_first_where_push(before.mounts@, row, mounts_device(device@));
                }
            }
            }
        },
        None => {},
    }
}

/// The containers that stay open once the partition `device` is formatted.
pub open spec fn other_opens(device: Seq<char>) -> spec_fn(LuksOpen) -> bool {
    |o: LuksOpen| o.partition@ != device
}

/// The mount rows that stay once `device` lost its mount point: a row for it
/// with no mount point goes, and where `only_unformatted` only one that also
/// keeps its filesystem.
pub open spec fn kept_row(device: Seq<char>, only_unformatted: bool) -> spec_fn(MountView) -> bool {
    |m: MountView| !(m.0 == device && m.1.len() == 0 && (!only_unformatted || m.2 == "unformatted"@))
}

/// Drops the containers opened on `device`.
fn drop_opens(opens: &mut Vec<LuksOpen>, device: &str)
    ensures
        final(opens)@ == old(opens)@.filter(other_opens(device@)),
{
    let mut rest: Vec<LuksOpen> = Vec::new();
    std::mem::swap(opens, &mut rest);
    let ghost all = rest@;
    assert(opens@ + rest@.filter(other_opens(device@)) =~= all.filter(other_opens(device@)));
    while rest.len() > 0
        invariant
            opens@ + rest@.filter(other_opens(device@)) == all.filter(other_opens(device@)),
        decreases rest.len(),
    {
        let ghost before = rest@;
        let open = rest.remove(0);
        proof {
            assert(before =~= seq![open] + rest@);
            Seq::filter_distributes_over_add(seq![open], rest@, other_opens(device@));
            reveal_with_fuel(Seq::filter, 2);
            assert(seq![open].drop_last() =~= Seq::<LuksOpen>::empty());
        }
        let keep = !str_eq(open.partition.as_str(), device);
        let ghost head = opens@;
        if keep {
            opens.push(open);
            assert(opens@ + rest@.filter(other_opens(device@)) =~= head + before.filter(other_opens(device@)));
        } else {
            assert(head + rest@.filter(other_opens(device@)) =~= head + before.filter(other_opens(device@)));
        }
    }
    assert(rest@.filter(other_opens(device@)) =~= Seq::<LuksOpen>::empty());
    assert(opens@ + rest@.filter(other_opens(device@)) =~= opens@);
}

/// Drops the mount rows `kept_row` refuses.
fn drop_rows(mounts: &mut Vec<CustomMount>, device: &str, only_unformatted: bool)
    ensures
        mounts_view(final(mounts)@) == mounts_view(old(mounts)@).filter(kept_row(device@, only_unformatted)),
{
    let mut rest: Vec<CustomMount> = Vec::new();
    std::mem::swap(mounts, &mut rest);
    let ghost all = mounts_view(rest@);
    let ghost p = kept_row(device@, only_unformatted);
    assert(mounts_view(rest@) =~= all);
    while rest.len() > 0
        invariant
            p == kept_row(device@, only_unformatted),
            mounts_view(mounts@) + mounts_view(rest@).filter(p) == all.filter(p),
        decreases rest.len(),
    {
        let ghost before = rest@;
        let row = rest.remove(0);
        proof {
            assert(mounts_view(before) =~= seq![mount_view(row)] + mounts_view(rest@));
            Seq::filter_distributes_over_add(seq![mount_view(row)], mounts_view(rest@), p);
            reveal_with_fuel(Seq::filter, 2);
            assert(seq![mount_view(row)].drop_last() =~= Seq::<MountView>::empty());
        }
        let drop = str_eq(row.partition.as_str(), device) && row.target.as_str().is_empty()
            && (!only_unformatted || str_eq(row.fstype.as_str(), "unformatted"));
        let ghost head = mounts_view(mounts@);
        if !drop {
            mounts.push(row);
            assert(mounts_view(mounts@) =~= head.push(mount_view(row)));
            assert(mounts_view(mounts@) + mounts_view(rest@).filter(p) =~= head + mounts_view(before).filter(p));
        } else {
            assert(head + mounts_view(rest@).filter(p) =~= head + mounts_view(before).filter(p));
        }
    }
    assert(mounts_view(rest@).filter(p) =~= Seq::<MountView>::empty());
    assert(mounts_view(mounts@) + mounts_view(rest@).filter(p) =~= mounts_view(mounts@));
}

/// What taking a partition's mount point away leaves of the mount rows: the
/// first row for it loses its mount point, and a row left with no mount
/// point and no format states nothing and goes.
pub open spec fn unassigned_rows(rows: Seq<MountView>, device: Seq<char>) -> Seq<MountView> {
    let cleared = match crate::seqs::first_where(rows, names_view(device)) {
        Some(i) => rows.update(i, (rows[i].0, Seq::empty(), rows[i].2, rows[i].3)),
        None => rows,
    };
    cleared.filter(kept_row(device, true))
}

pub open spec fn place_unassign_done(was: Option<CustomLayout>, now: Option<CustomLayout>, partition: &Partition) -> bool {
    &&& (match (was, now) {
            (None, None) => true,
            (Some(before), Some(after)) => {
                let d = partition.device@;
                &&& after.disk == before.disk && after.deletes == before.deletes && after.creates
                    == before.creates && after.renames == before.renames && after.esp == before.esp
                    && after.confirmed == before.confirmed
                &&& match open_at(before.opens@, d) {
                    Some(i) => after.opens@.len() == before.opens@.len() && (forall|j: int|
                        0 <= j < before.opens@.len() && j != i ==> after.opens@[j]
                        == before.opens@[j]) && after.opens@[i].partition == before.opens@[i].partition
                        && after.opens@[i].key == before.opens@[i].key
                        && after.opens@[i].target@.len() == 0,
                    None => after.opens == before.opens,
                }
                &&& mounts_view(after.mounts@) == unassigned_rows(mounts_view(before.mounts@), d)
            },
            _ => false,
        })
}

/// Takes one partition's mount point away and leaves its format alone. The
/// layout is half answered until the user assigns a point again.
pub fn place_unassign(held: &mut Option<CustomLayout>, partition: &Partition)
    ensures
        place_unassign_done(*old(held), *final(held), partition),
{
    let device = partition.device.as_str();
    match held {
        Some(layout) => {
            let ghost before = *layout;
            let mut i: usize = 0;
            while i < layout.opens.len() && !str_eq(layout.opens[i].partition.as_str(), device)
                invariant
                    i <= layout.opens@.len(),
                    layout.opens@ == before.opens@,
                    device@ == partition.device@,
                    forall|j: int| 0 <= j < i ==> !opens_device(device@)(#[trigger] layout.opens@[j]),
                decreases layout.opens.len() - i,
            {
                i = i + 1;
            }
            proof {
                lemma_first_where(layout.opens@, opens_device(device@), i as int);
            }
            if i < layout.opens.len() {
                layout.opens[i].target = String::new();
                assert forall|j: int| 0 <= j < before.opens@.len() && j != i implies #[trigger] layout.opens@[j] == before.opens@[j] by {
                }
            }
            let mut k: usize = 0;
            while k < layout.mounts.len() && !str_eq(layout.mounts[k].partition.as_str(), device)
                invariant
                    k <= layout.mounts@.len(),
                    layout.mounts@ == before.mounts@,
                    device@ == partition.device@,
                    forall|j: int| 0 <= j < k ==> !mounts_device(device@)(#[trigger] layout.mounts@[j]),
                decreases layout.mounts.len() - k,
            {
                k = k + 1;
            }
            proof {
                lemma_first_where(layout.mounts@, mounts_device(device@), k as int);
                lemma_mount_at_view(before.mounts@, device@);
            }
            if k < layout.mounts.len() {
                layout.mounts[k].target = String::new();
                assert(mounts_view(layout.mounts@) =~= mounts_view(before.mounts@).update(
                    k as int,
                    (before.mounts@[k as int].partition@, Seq::empty(), before.mounts@[k as int].fstype@, before.mounts@[k as int].passphrase@),
                ));
            } else {
                assert(mounts_view(layout.mounts@) == mounts_view(before.mounts@));
            }
            drop_rows(&mut layout.mounts, device, true);
        },
        None => {},
    }
}

/// What choosing a format leaves of the mount rows. The first row for the
/// partition takes the format, or a new row without a mount point does. The
/// chosen filesystem overrules the mount point, so a point `carries` cannot
/// carry is cleared. Where the format keeps the filesystem, a row left with no
/// mount point goes.
pub open spec fn formatted_rows(rows: Seq<MountView>, device: Seq<char>, answer: Seq<char>, carries: Seq<char>, keep: bool) -> Seq<MountView> {
    let (set, at) = match crate::seqs::first_where(rows, names_view(device)) {
        Some(i) => (rows.update(i, (rows[i].0, rows[i].1, answer, rows[i].3)), i),
        None => (rows.push((device, Seq::empty(), answer, Seq::empty())), rows.len() as int),
    };
    let checked = if set[at].1.len() > 0 && !fits_spec(set[at].1, carries) {
        set.update(at, (set[at].0, Seq::empty(), set[at].2, set[at].3))
    } else {
        set
    };
    if keep {
        checked.filter(kept_row(device, false))
    } else {
        checked
    }
}

pub open spec fn place_format_done(was: Option<CustomLayout>, now: Option<CustomLayout>, disk: Seq<char>, partition: &Partition, fstype: Seq<char>) -> bool {
    &&& (now is Some)
    &&& (same_plan(was, now->0, disk))
    &&& (({
            let d = partition.device@;
            let keep = fstype == copy::NO_FORMAT@;
            let o0 = opens_of(was);
            let after = now->0;
            &&& after.opens@ == (if keep { o0 } else { o0.filter(other_opens(d)) })
            &&& mounts_view(after.mounts@) == formatted_rows(
                mounts_view(mounts_of(was)),
                d,
                if keep { "unformatted"@ } else { fstype },
                if keep { partition.fstype@ } else { fstype },
                keep,
            )
        }))
    &&& (fstype != copy::NO_FORMAT@ ==> forall|j: int|
            0 <= j < now->0.opens@.len() ==> (#[trigger] now->0.opens@[j]).partition@
                != partition.device@)
}

/// Chooses the filesystem a partition is rewritten to. A format erases a
/// container, so the layout drops that partition's opens. `Do not format`
/// returns the answer to `unformatted`, and drops the mount row where the
/// partition holds no mount point. No answer is left holding a mount point
/// its filesystem cannot carry.
pub fn place_format(held: &mut Option<CustomLayout>, disk: &str, partition: &Partition, fstype: &str)
    ensures
        place_format_done(*old(held), *final(held), disk@, partition, fstype@),
{
    held_layout(held, disk);
    let ghost start = held->0;
    proof {
        assert(opens_of(*old(held)) =~= start.opens@);
        assert(mounts_of(*old(held)) =~= start.mounts@);
    }
    let keep = str_eq(fstype, copy::NO_FORMAT);
    let device = partition.device.as_str();
    match held {
        Some(layout) => {
            if !keep {
                drop_opens(&mut layout.opens, device);
                proof {
                    let kept = layout.opens@;
                    assert forall|j: int| 0 <= j < kept.len() implies (#[trigger] kept[j]).partition@ != device@ by {
                        start.opens@.filter_lemma(other_opens(device@));
                        assert(other_opens(device@)(kept[j]));
                    }
                }
            }
            let answer: &str = if keep { "unformatted" } else { fstype };
            let ghost rows = mounts_view(start.mounts@);
            let mut k: usize = 0;
            while k < layout.mounts.len() && !str_eq(layout.mounts[k].partition.as_str(), device)
                invariant
                    k <= layout.mounts@.len(),
                    layout.mounts@ == start.mounts@,
                    device@ == partition.device@,
                    forall|j: int| 0 <= j < k ==> !mounts_device(device@)(#[trigger] layout.mounts@[j]),
                decreases layout.mounts.len() - k,
            {
                k = k + 1;
            }
            proof {
                lemma_first_where(layout.mounts@, mounts_device(device@), k as int);
                lemma_mount_at_view(start.mounts@, device@);
            }
            if k < layout.mounts.len() {
                layout.mounts[k].fstype = owned(answer);
                assert(mounts_view(layout.mounts@) =~= rows.update(
                    k as int,
                    (rows[k as int].0, rows[k as int].1, answer@, rows[k as int].3),
                ));
            } else {
                layout.mounts.push(
                    CustomMount {
                        partition: owned(device),
                        target: String::new(),
                        fstype: owned(answer),
                        passphrase: String::new(),
                    },
                );
                assert(mounts_view(layout.mounts@) =~= rows.push((device@, Seq::empty(), answer@, Seq::empty())));
            }
            let carries: &str = if keep { partition.fstype.as_str() } else { fstype };
            let ghost set = mounts_view(layout.mounts@);
            let clear = !layout.mounts[k].target.as_str().is_empty() && !fits(layout.mounts[k].target.as_str(), carries);
            if clear {
                layout.mounts[k].target = String::new();
                assert(mounts_view(layout.mounts@) =~= set.update(
                    k as int,
                    (set[k as int].0, Seq::empty(), set[k as int].2, set[k as int].3),
                ));
            }
            if keep {
                drop_rows(&mut layout.mounts, device, false);
            }
        },
        None => {},
    }
}

/// At most one row of `rows` names `device`.
pub open spec fn one_row_for(rows: Seq<MountView>, device: Seq<char>) -> bool {
    forall|i: int, j: int|
        0 <= i < rows.len() && 0 <= j < rows.len() && rows[i].0 == device && rows[j].0 == device
            ==> i == j
}

/// Every element a filter keeps is one of the sequence's.
proof fn lemma_filter_from<T>(s: Seq<T>, p: spec_fn(T) -> bool)
    ensures
        forall|i: int| 0 <= i < s.filter(p).len() ==> s.contains(#[trigger] s.filter(p)[i]),
    decreases s.len(),
{
    reveal(Seq::filter);
    if s.len() > 0 {
        let rest = s.drop_last();
        lemma_filter_from(rest, p);
        let out = s.filter(p);
        assert forall|i: int| 0 <= i < out.len() implies s.contains(#[trigger] out[i]) by {
            if p(s.last()) && i == out.len() - 1 {
                assert(s[s.len() - 1] == out[i]);
            } else {
                assert(out[i] == rest.filter(p)[i]);
                let k = choose|k: int| 0 <= k < rest.len() && rest[k] == rest.filter(p)[i];
                assert(s[k] == out[i]);
            }
        }
    }
}

/// A format never leaves a mount point the partition's filesystem cannot
/// carry: where the layout held at most one row for the partition, every row
/// that names it afterwards holds no mount point or one `carries` carries.
pub proof fn lemma_format_fits(rows: Seq<MountView>, device: Seq<char>, answer: Seq<char>, carries: Seq<char>, keep: bool)
    requires
        one_row_for(rows, device),
    ensures
        forall|j: int|
            0 <= j < formatted_rows(rows, device, answer, carries, keep).len() && (
            #[trigger] formatted_rows(rows, device, answer, carries, keep)[j]).0 == device
                ==> formatted_rows(rows, device, answer, carries, keep)[j].1.len() == 0
                || fits_spec(formatted_rows(rows, device, answer, carries, keep)[j].1, carries),
{
    crate::seqs::lemma_first_where_found(rows, names_view(device));
    let (set, at) = match crate::seqs::first_where(rows, names_view(device)) {
        Some(i) => (rows.update(i, (rows[i].0, rows[i].1, answer, rows[i].3)), i),
        None => (rows.push((device, Seq::empty(), answer, Seq::empty())), rows.len() as int),
    };
    let checked = if set[at].1.len() > 0 && !fits_spec(set[at].1, carries) {
        set.update(at, (set[at].0, Seq::empty(), set[at].2, set[at].3))
    } else {
        set
    };
    assert(0 <= at < checked.len());
    assert forall|j: int| 0 <= j < checked.len() && (#[trigger] checked[j]).0 == device implies j == at by {
        if j != at {
            assert(checked[j] == rows[j]);
        }
    }
    assert(checked[at].1.len() == 0 || fits_spec(checked[at].1, carries));
    let out = formatted_rows(rows, device, answer, carries, keep);
    if keep {
        lemma_filter_from(checked, kept_row(device, false));
        assert forall|j: int| 0 <= j < out.len() && (#[trigger] out[j]).0 == device
            implies out[j].1.len() == 0 || fits_spec(out[j].1, carries) by {
            assert(checked.contains(out[j]));
            let k = choose|k: int| 0 <= k < checked.len() && checked[k] == out[j];
            assert(k == at);
        }
    }
}

// ---------------------------------------------------------------------------
// Rows and popups

/// An answer as plain values: mount point and format.
pub open spec fn mounted_view(answer: Option<Mounted>) -> Option<(Seq<char>, Seq<char>)> {
    match answer {
        Some(m) => Some((m.target@, m.fstype@)),
        None => None,
    }
}

/// A partition named by its label with the node in brackets, or by its node
/// alone where it has no label.
pub open spec fn named_text(label: Seq<char>, device: Seq<char>) -> Seq<char> {
    if label.len() == 0 {
        device
    } else {
        label + " ("@ + device + ")"@
    }
}

fn named_said(label: &str, device: &str) -> (said: String)
    ensures
        said@ == named_text(label@, device@),
{
    if label.is_empty() {
        owned(device)
    } else {
        cat4(label, " (", device, ")")
    }
}

/// The row one existing partition draws: `size` is its size as the screens
/// say it. A partition the plan removes says `remove` in the format column
/// and nothing else. Every cell the layout answers is drawn white, and a
/// rename stands in for the label the partition carries now.
pub open spec fn partition_row(
    partition: Partition,
    size: Seq<char>,
    answer: Option<(Seq<char>, Seq<char>)>,
    branch: Seq<char>,
    deleted: bool,
    renamed: Option<Seq<char>>,
) -> Seq<(Seq<char>, bool)> {
    if deleted {
        seq![
            (branch + named_text(partition.label@, partition.device@), true),
            (size, false),
            (""@, false),
            (copy::CELL_REMOVE@, true),
            (""@, false),
            (""@, false),
        ]
    } else {
        let rewritten = answer matches Some((_, f)) && f != OPEN@ && f != "unformatted"@;
        let filesystem = match answer {
            Some((_, f)) => if f == OPEN@ {
                (copy::LUKS_OPEN@, true)
            } else if f != "unformatted"@ {
                (f, true)
            } else if partition.fstype@ == "crypto_LUKS"@ {
                (copy::LUKS_CLOSED@, false)
            } else {
                (partition.fstype@, false)
            },
            None => if partition.fstype@ == "crypto_LUKS"@ {
                (copy::LUKS_CLOSED@, false)
            } else {
                (partition.fstype@, false)
            },
        };
        let format = if rewritten {
            (copy::FORMAT_TICK@, true)
        } else {
            (""@, false)
        };
        let kind = if answer matches Some((t, _)) && t == "/boot/efi"@ {
            (copy::EFI_CELL@, true)
        } else {
            (partition_type_text(partition.parttype@), false)
        };
        let mount = match answer {
            Some((t, _)) => (t, true),
            None => (""@, false),
        };
        let label = match renamed {
            Some(l) => l,
            None => partition.label@,
        };
        let answered = answer is Some || renamed is Some;
        seq![
            (branch + named_text(label, partition.device@), answered),
            (size, false),
            filesystem,
            format,
            kind,
            mount,
        ]
    }
}

/// Draws one existing partition as a table row.
pub fn partition_cells(
    partition: &Partition,
    size: &str,
    answer: Option<Mounted>,
    branch: &str,
    deleted: bool,
    renamed: Option<&str>,
) -> (cells: Vec<Cell>)
    ensures
        cells_view(cells@) == partition_row(
            *partition,
            size@,
            mounted_view(answer),
            branch@,
            deleted,
            match renamed {
                Some(l) => Some(l@),
                None => None,
            },
        ),
{
    let mut cells: Vec<Cell> = Vec::new();
    if deleted {
        let said = named_said(partition.label.as_str(), partition.device.as_str());
        cells.push(Cell::set(cat(branch, said.as_str()).as_str()));
        cells.push(Cell::new(size));
        cells.push(Cell::new(""));
        cells.push(Cell::set(copy::CELL_REMOVE));
        cells.push(Cell::new(""));
        cells.push(Cell::new(""));
        assert(cells_view(cells@) =~= partition_row(*partition, size@, mounted_view(answer), branch@, deleted, match renamed {
            Some(l) => Some(l@),
            None => None,
        }));
        return cells;
    }
    let rewritten = match &answer {
        Some(m) => !str_eq(m.fstype.as_str(), OPEN) && !str_eq(m.fstype.as_str(), "unformatted"),
        None => false,
    };
    let luks = str_eq(partition.fstype.as_str(), "crypto_LUKS");
    let filesystem = match &answer {
        Some(m) => {
            if str_eq(m.fstype.as_str(), OPEN) {
                Cell::set(copy::LUKS_OPEN)
            } else if !str_eq(m.fstype.as_str(), "unformatted") {
                Cell::set(m.fstype.as_str())
            } else if luks {
                Cell::new(copy::LUKS_CLOSED)
            } else {
                Cell::new(partition.fstype.as_str())
            }
        },
        None => {
            if luks {
                Cell::new(copy::LUKS_CLOSED)
            } else {
                Cell::new(partition.fstype.as_str())
            }
        },
    };
    let format = if rewritten {
        Cell::set(copy::FORMAT_TICK)
    } else {
        Cell::new("")
    };
    let efi = match &answer {
        Some(m) => str_eq(m.target.as_str(), "/boot/efi"),
        None => false,
    };
    let kind = if efi {
        Cell::set(copy::EFI_CELL)
    } else {
        Cell::new(partition_type_said(partition.parttype.as_str()))
    };
    let mount = match &answer {
        Some(m) => Cell::set(m.target.as_str()),
        None => Cell::new(""),
    };
    let label: &str = match renamed {
        Some(l) => l,
        None => partition.label.as_str(),
    };
    let said = named_said(label, partition.device.as_str());
    let answered = answer.is_some() || renamed.is_some();
    let text = cat(branch, said.as_str());
    let device = if answered {
        Cell::set(text.as_str())
    } else {
        Cell::new(text.as_str())
    };
    cells.push(device);
    cells.push(Cell::new(size));
    cells.push(filesystem);
    cells.push(format);
    cells.push(kind);
    cells.push(mount);
    assert(cells_view(cells@) =~= partition_row(*partition, size@, mounted_view(answer), branch@, deleted, match renamed {
        Some(l) => Some(l@),
        None => None,
    }));
    cells
}

/// The row one planned partition draws, on the node predicted for it:
/// `size` is its size as the screens say it. The format column reads `new`,
/// because a partition that does not exist yet says more than a tick could.
pub open spec fn created_row(create: crate::answers::Created, device: Seq<char>, size: Seq<char>, branch: Seq<char>) -> Seq<(Seq<char>, bool)> {
    seq![
        (branch + named_text(create.label@, device), true),
        (size, false),
        if create.fstype@.len() == 0 { (""@, false) } else { (create.fstype@, true) },
        (copy::CELL_NEW@, true),
        if create.target@ == "/boot/efi"@ { (copy::EFI_CELL@, true) } else { (""@, false) },
        if create.target@.len() == 0 { (""@, false) } else { (create.target@, true) },
    ]
}

/// Draws one planned partition as a table row.
pub fn created_cells(create: &crate::answers::Created, device: &str, size: &str, branch: &str) -> (cells: Vec<Cell>)
    ensures
        cells_view(cells@) == created_row(*create, device@, size@, branch@),
{
    let said = named_said(create.label.as_str(), device);
    let mut cells: Vec<Cell> = Vec::new();
    cells.push(Cell::set(cat(branch, said.as_str()).as_str()));
    cells.push(Cell::new(size));
    if create.fstype.as_str().is_empty() {
        cells.push(Cell::new(""));
    } else {
        cells.push(Cell::set(create.fstype.as_str()));
    }
    cells.push(Cell::set(copy::CELL_NEW));
    if str_eq(create.target.as_str(), "/boot/efi") {
        cells.push(Cell::set(copy::EFI_CELL));
    } else {
        cells.push(Cell::new(""));
    }
    if create.target.as_str().is_empty() {
        cells.push(Cell::new(""));
    } else {
        cells.push(Cell::set(create.target.as_str()));
    }
    assert(cells_view(cells@) =~= created_row(*create, device@, size@, branch@));
    cells
}

/// The chosen disk's popup in a manual layout: `Create` always, and `Clear`
/// where the disk still holds partitions to clear.
pub fn disk_menu(parts: usize) -> (out: (Vec<MenuItem>, Vec<PartAction>))
    ensures
        items_view(out.0@) == (if parts > 0 {
            seq![(copy::CREATE_PART@, Seq::<Seq<char>>::empty()), (copy::CLEAR_PARTS@, Seq::<Seq<char>>::empty())]
        } else {
            seq![(copy::CREATE_PART@, Seq::<Seq<char>>::empty())]
        }),
        out.1@ == (if parts > 0 {
            seq![PartAction::Create, PartAction::Clear]
        } else {
            seq![PartAction::Create]
        }),
{
    let mut items: Vec<MenuItem> = Vec::new();
    let mut actions: Vec<PartAction> = Vec::new();
    items.push(MenuItem::new(copy::CREATE_PART));
    actions.push(PartAction::Create);
    if parts > 0 {
        items.push(MenuItem::new(copy::CLEAR_PARTS));
        actions.push(PartAction::Clear);
    }
    proof {
        assert(items@[0].children@.map_values(|s: &'static str| s@) =~= Seq::<Seq<char>>::empty());
        if parts > 0 {
            assert(items@[1].children@.map_values(|s: &'static str| s@) =~= Seq::<Seq<char>>::empty());
        }
    }
    assert(items_view(items@) =~= (if parts > 0 {
        seq![(copy::CREATE_PART@, Seq::<Seq<char>>::empty()), (copy::CLEAR_PARTS@, Seq::<Seq<char>>::empty())]
    } else {
        seq![(copy::CREATE_PART@, Seq::<Seq<char>>::empty())]
    }));
    assert(actions@ =~= (if parts > 0 {
        seq![PartAction::Create, PartAction::Clear]
    } else {
        seq![PartAction::Create]
    }));
    (items, actions)
}

pub open spec fn plain_item(label: &'static str) -> (Seq<char>, Seq<Seq<char>>) {
    (label@, Seq::empty())
}

/// The Assign item over `points`, with `Unassign` after them.
pub open spec fn assign_item(points: Seq<Seq<char>>) -> (Seq<char>, Seq<Seq<char>>) {
    (copy::ASSIGN@, points.push(copy::UNASSIGN@))
}

/// The mount points a planned partition is offered: no `/swap`, because a
/// create is formatted from the plain formats, `/boot` only where the
/// bootloader reads one, no `/var` for composefs, and none its chosen format
/// cannot carry.
pub open spec fn create_point(boot: bool, composefs: bool, fstype: Seq<char>) -> spec_fn(Seq<char>) -> bool {
    |t: Seq<char>| t != "/swap"@ && offered(t, boot, composefs) && (fstype.len() == 0 || fits_spec(t, fstype))
}

/// The popup of one planned partition: it formats, assigns, renames or drops
/// the partition.
pub open spec fn created_menu_spec(create: Created, boot: bool, composefs: bool) -> (Seq<(Seq<char>, Seq<Seq<char>>)>, Seq<PartAction>) {
    let points = points_where(seq!["/boot/efi", "/", "/boot", "/swap"], create_point(boot, composefs, create.fstype@));
    let tail = seq![plain_item(copy::FORMAT_ROW), plain_item(copy::RENAME_PART), plain_item(copy::DELETE_PART)];
    let acts = seq![PartAction::Format, PartAction::Rename, PartAction::Delete];
    if points.len() > 0 {
        (seq![assign_item(points)] + tail, seq![PartAction::Assign] + acts)
    } else {
        (tail, acts)
    }
}

/// Builds one planned partition's popup and the action each item answers
/// with.
pub fn created_menu(create: &Created, boot: bool, composefs: bool) -> (out: (Vec<MenuItem>, Vec<PartAction>))
    ensures
        (items_view(out.0@), out.1@) == created_menu_spec(*create, boot, composefs),
{
    let all = copy::mount_points();
    let ghost keep = create_point(boot, composefs, create.fstype@);
    let mut points: Vec<&'static str> = Vec::new();
    let mut i: usize = 0;
    while i < 4
        invariant
            i <= 4,
            all@ == seq!["/boot/efi", "/", "/boot", "/swap"],
            keep == create_point(boot, composefs, create.fstype@),
            strs(points@) == points_where(all@.take(i as int), keep),
        decreases 4 - i,
    {
        assert(all@.take(i + 1).drop_last() =~= all@.take(i as int));
        let target = all[i];
        let take = !str_eq(target, "/swap") && (!str_eq(target, "/boot") || boot) && (!str_eq(target, "/var") || !composefs)
            && (create.fstype.as_str().is_empty() || fits(target, create.fstype.as_str()));
        if take {
            points.push(target);
            assert(strs(points@) =~= strs(points@.drop_last()).push(target@));
        }
        i = i + 1;
    }
    assert(all@.take(4) =~= all@);
    let mut items: Vec<MenuItem> = Vec::new();
    let mut actions: Vec<PartAction> = Vec::new();
    let ghost pts = strs(points@);
    if points.len() > 0 {
        let children = assign_children(points.as_slice());
        items.push(MenuItem::under(copy::ASSIGN, children));
        actions.push(PartAction::Assign);
        assert(items@[0].children@.map_values(|s: &'static str| s@) =~= pts.push(copy::UNASSIGN@));
    }
    items.push(MenuItem::new(copy::FORMAT_ROW));
    actions.push(PartAction::Format);
    items.push(MenuItem::new(copy::RENAME_PART));
    actions.push(PartAction::Rename);
    items.push(MenuItem::new(copy::DELETE_PART));
    actions.push(PartAction::Delete);
    proof {
        let n = items@.len();
        assert(items@[n - 1].children@.map_values(|s: &'static str| s@) =~= Seq::<Seq<char>>::empty());
        assert(items@[n - 2].children@.map_values(|s: &'static str| s@) =~= Seq::<Seq<char>>::empty());
        assert(items@[n - 3].children@.map_values(|s: &'static str| s@) =~= Seq::<Seq<char>>::empty());
        let spec = created_menu_spec(*create, boot, composefs);
        assert(items_view(items@) =~= spec.0);
        assert(actions@ =~= spec.1);
    }
    (items, actions)
}

/// The filesystem an answer, as plain values, leaves on a partition.
pub open spec fn effective_of(partition: Partition, answer: Option<(Seq<char>, Seq<char>)>) -> Seq<char> {
    match answer {
        Some((_, f)) => if f != OPEN@ && f != "unformatted"@ {
            f
        } else {
            partition.fstype@
        },
        None => partition.fstype@,
    }
}

/// Whether a layout opens a container on `device`.
pub open spec fn opens_on(layout: CustomLayout, device: Seq<char>) -> bool {
    exists|i: int| 0 <= i < layout.opens@.len() && (#[trigger] layout.opens@[i]).partition@ == device
}

/// The popup of one existing partition and the action each item answers
/// with. A partition the plan removes offers `Reset` alone. A container, by
/// the answer or else by what the disk reports, offers its mount points only
/// while open, then a format and the open or close. A plain filesystem offers
/// the mount points it can carry and a format. `Rename` follows, then `Reset`
/// where the partition carries an answer or a name, and `Delete` last, so the
/// cursor never opens on the destructive answer.
pub open spec fn partition_menu_spec(partition: Partition, held: Option<CustomLayout>, boot: bool, composefs: bool) -> (Seq<(Seq<char>, Seq<Seq<char>>)>, Seq<PartAction>) {
    let d = partition.device@;
    if held matches Some(l) && l.deletes_device(d) {
        (seq![plain_item(copy::RESET_CHANGES)], seq![PartAction::Reset])
    } else {
        let answer = match held {
            Some(l) => l.answer_of(d),
            None => None,
        };
        let renamed = held matches Some(l) && rename_at(l.renames@, d) is Some;
        let opened = held matches Some(l) && opens_on(l, d);
        let container = match answer {
            Some((_, f)) => if f == OPEN@ {
                true
            } else if f != "unformatted"@ {
                false
            } else {
                partition.fstype@ == "crypto_LUKS"@
            },
            None => partition.fstype@ == "crypto_LUKS"@,
        };
        let head: (Seq<(Seq<char>, Seq<Seq<char>>)>, Seq<PartAction>) = if container {
            let open_pts = if composefs { seq!["/"@, "/var/home"@] } else { seq!["/"@, "/var"@, "/var/home"@] };
            let lead: (Seq<(Seq<char>, Seq<Seq<char>>)>, Seq<PartAction>) = if opened {
                (seq![assign_item(open_pts)], seq![PartAction::Assign])
            } else {
                (Seq::empty(), Seq::empty())
            };
            (
                lead.0 + seq![plain_item(copy::FORMAT_ROW), if opened { plain_item(copy::CLOSE_ENCRYPTED) } else { plain_item(copy::OPEN_ENCRYPTED) }],
                lead.1 + seq![PartAction::Format, if opened { PartAction::Close } else { PartAction::Open }],
            )
        } else {
            let pts = assigns_spec(effective_of(partition, answer), boot, composefs);
            let lead: (Seq<(Seq<char>, Seq<Seq<char>>)>, Seq<PartAction>) = if pts.len() > 0 {
                (seq![assign_item(pts)], seq![PartAction::Assign])
            } else {
                (Seq::empty(), Seq::empty())
            };
            (lead.0 + seq![plain_item(copy::FORMAT_ROW)], lead.1 + seq![PartAction::Format])
        };
        let reset: (Seq<(Seq<char>, Seq<Seq<char>>)>, Seq<PartAction>) = if answer is Some || renamed {
            (seq![plain_item(copy::RESET_CHANGES)], seq![PartAction::Reset])
        } else {
            (Seq::empty(), Seq::empty())
        };
        (
            head.0 + seq![plain_item(copy::RENAME_PART)] + reset.0 + seq![plain_item(copy::DELETE_PART)],
            head.1 + seq![PartAction::Rename] + reset.1 + seq![PartAction::Delete],
        )
    }
}

/// Whether a layout opens a container on `device`.
fn opens_any(layout: &CustomLayout, device: &str) -> (r: bool)
    ensures
        r == opens_on(*layout, device@),
{
    let mut i: usize = 0;
    while i < layout.opens.len()
        invariant
            i <= layout.opens@.len(),
            forall|j: int| 0 <= j < i ==> (#[trigger] layout.opens@[j]).partition@ != device@,
        decreases layout.opens.len() - i,
    {
        if str_eq(layout.opens[i].partition.as_str(), device) {
            return true;
        }
        i = i + 1;
    }
    false
}

/// Pushes a popup item that opens nothing.
fn push_item(items: &mut Vec<MenuItem>, actions: &mut Vec<PartAction>, label: &'static str, action: PartAction)
    ensures
        items_view(final(items)@) == items_view(old(items)@).push(plain_item(label)),
        final(actions)@ == old(actions)@.push(action),
{
    items.push(MenuItem::new(label));
    actions.push(action);
    assert(final(items)@.last().children@.map_values(|s: &'static str| s@) =~= Seq::<Seq<char>>::empty());
    assert(items_view(final(items)@) =~= items_view(old(items)@).push(plain_item(label)));
}

/// Builds one existing partition's popup and the action each item answers
/// with. Building the popup writes nothing to the disk.
#[verifier::rlimit(40)]
pub fn partition_menu(partition: &Partition, held: Option<&CustomLayout>, boot: bool, composefs: bool) -> (out: (Vec<MenuItem>, Vec<PartAction>))
    ensures
        (items_view(out.0@), out.1@) == partition_menu_spec(
            *partition,
            match held {
                Some(l) => Some(*l),
                None => None,
            },
            boot,
            composefs,
        ),
{
    let device = partition.device.as_str();
    let mut items: Vec<MenuItem> = Vec::new();
    let mut actions: Vec<PartAction> = Vec::new();
    let deleted = match held {
        Some(l) => contains_str(&l.deletes, device),
        None => false,
    };
    if deleted {
        push_item(&mut items, &mut actions, copy::RESET_CHANGES, PartAction::Reset);
        assert(items_view(items@) =~= seq![plain_item(copy::RESET_CHANGES)]);
        assert(actions@ =~= seq![PartAction::Reset]);
        return (items, actions);
    }
    let answer = match held {
        Some(l) => l.answer(partition),
        None => None,
    };
    let renamed = match held {
        Some(l) => l.renamed(device).is_some(),
        None => false,
    };
    let opened = match held {
        Some(l) => opens_any(l, device),
        None => false,
    };
    let container = match &answer {
        Some(m) => {
            if str_eq(m.fstype.as_str(), OPEN) {
                true
            } else if !str_eq(m.fstype.as_str(), "unformatted") {
                false
            } else {
                str_eq(partition.fstype.as_str(), "crypto_LUKS")
            }
        },
        None => str_eq(partition.fstype.as_str(), "crypto_LUKS"),
    };
    let ghost av = match held {
        Some(l) => l.answer_of(partition.device@),
        None => None,
    };
    assert(mounted_view(answer) == av);
    if container {
        if opened {
            let points = open_points(composefs);
            let children = assign_children(points.as_slice());
            items.push(MenuItem::under(copy::ASSIGN, children));
            actions.push(PartAction::Assign);
            assert(items@[0].children@.map_values(|s: &'static str| s@) =~= strs(points@).push(copy::UNASSIGN@));
        }
        push_item(&mut items, &mut actions, copy::FORMAT_ROW, PartAction::Format);
        if opened {
            push_item(&mut items, &mut actions, copy::CLOSE_ENCRYPTED, PartAction::Close);
        } else {
            push_item(&mut items, &mut actions, copy::OPEN_ENCRYPTED, PartAction::Open);
        }
    } else {
        let points = assigns(partition, answer.as_ref(), boot, composefs);
        assert(effective_fs_spec(*partition, answer) == effective_of(*partition, av));
        if points.len() > 0 {
            let children = assign_children(points.as_slice());
            items.push(MenuItem::under(copy::ASSIGN, children));
            actions.push(PartAction::Assign);
            assert(items@[0].children@.map_values(|s: &'static str| s@) =~= strs(points@).push(copy::UNASSIGN@));
        }
        push_item(&mut items, &mut actions, copy::FORMAT_ROW, PartAction::Format);
    }
    let ghost head = (items_view(items@), actions@);
    push_item(&mut items, &mut actions, copy::RENAME_PART, PartAction::Rename);
    let reset = answer.is_some() || renamed;
    if reset {
        push_item(&mut items, &mut actions, copy::RESET_CHANGES, PartAction::Reset);
    }
    push_item(&mut items, &mut actions, copy::DELETE_PART, PartAction::Delete);
    proof {
        let spec = partition_menu_spec(*partition, match held {
            Some(l) => Some(*l),
            None => None,
        }, boot, composefs);
        assert(items_view(items@) =~= spec.0);
        assert(actions@ =~= spec.1);
    }
    (items, actions)
}

/// The first row from `from` on that the cursor can rest on.
pub open spec fn next_selectable(selectable: Seq<bool>, from: int) -> Option<int>
    decreases selectable.len() - from,
{
    if from < 0 || from >= selectable.len() {
        None
    } else if selectable[from] {
        Some(from)
    } else {
        next_selectable(selectable, from + 1)
    }
}

/// The last row below `to` that the cursor can rest on.
pub open spec fn last_selectable(selectable: Seq<bool>, to: int) -> Option<int>
    decreases to,
{
    if to <= 0 || to > selectable.len() {
        None
    } else if selectable[to - 1] {
        Some(to - 1)
    } else {
        last_selectable(selectable, to - 1)
    }
}

/// Where the cursor lands: `at`, held inside the table, where that row is
/// selectable; else the next selectable row below it; else the last one
/// above it; else the top.
pub open spec fn clamped(selectable: Seq<bool>, at: int) -> int {
    let top = if selectable.len() > 0 { selectable.len() - 1 } else { 0 };
    let at = if at < top { at } else { top };
    if 0 <= at < selectable.len() && selectable[at] {
        at
    } else {
        match next_selectable(selectable, at + 1) {
            Some(n) => n,
            None => match last_selectable(selectable, at) {
                Some(p) => p,
                None => 0,
            },
        }
    }
}

proof fn lemma_next_selectable(selectable: Seq<bool>, from: int)
    requires
        0 <= from,
    ensures
        match next_selectable(selectable, from) {
            Some(n) => from <= n < selectable.len() && selectable[n],
            None => forall|j: int| from <= j < selectable.len() ==> !selectable[j],
        },
    decreases selectable.len() - from,
{
    if from < selectable.len() && !selectable[from] {
        lemma_next_selectable(selectable, from + 1);
    }
}

proof fn lemma_last_selectable(selectable: Seq<bool>, to: int)
    requires
        0 <= to <= selectable.len(),
    ensures
        match last_selectable(selectable, to) {
            Some(p) => 0 <= p < to && selectable[p],
            None => forall|j: int| 0 <= j < to ==> !selectable[j],
        },
    decreases to,
{
    if to > 0 && !selectable[to - 1] {
        lemma_last_selectable(selectable, to - 1);
    }
}

/// Moves the table cursor onto a row it can rest on. A selectable row keeps
/// the cursor, and wherever the table holds a selectable row the cursor
/// lands on one.
pub fn clamp_row(selectable: &[bool], at: usize) -> (row: usize)
    ensures
        row == clamped(selectable@, at as int),
        at < selectable@.len() && selectable@[at as int] ==> row == at,
        (exists|i: int| 0 <= i < selectable@.len() && selectable@[i]) ==> row < selectable@.len()
            && selectable@[row as int],
{
    let top = if selectable.len() > 0 { selectable.len() - 1 } else { 0 };
    let here = if at < top { at } else { top };
    proof {
        lemma_next_selectable(selectable@, here + 1);
        lemma_last_selectable(selectable@, here as int);
    }
    if here < selectable.len() && selectable[here] {
        return here;
    }
    let mut next = here + 1;
    while next < selectable.len()
        invariant
            here + 1 <= next,
            here == (if at < top { at } else { top }),
            top == (if selectable@.len() > 0 { selectable@.len() - 1 } else { 0 }),
            !(here < selectable@.len() && selectable@[here as int]),
            next_selectable(selectable@, here + 1) == next_selectable(selectable@, next as int),
        decreases selectable.len() - next,
    {
        if selectable[next] {
            return next;
        }
        next = next + 1;
    }
    let mut below = here;
    while below > 0
        invariant
            below <= here,
            here == (if at < top { at } else { top }),
            top == (if selectable@.len() > 0 { selectable@.len() - 1 } else { 0 }),
            !(here < selectable@.len() && selectable@[here as int]),
            next_selectable(selectable@, here + 1) is None,
            last_selectable(selectable@, here as int) == last_selectable(selectable@, below as int),
        decreases below,
    {
        if selectable[below - 1] {
            return below - 1;
        }
        below = below - 1;
    }
    0
}

// ---------------------------------------------------------------------------
// The automatic plan

/// One row of the automatic plan as plain values: name, size, filesystem,
/// type and mount point, and whether it sits inside the LUKS container.
pub type PlanRow = (Seq<char>, Seq<char>, Seq<char>, Seq<char>, Seq<char>, bool);

/// The whole GB the disk leaves after the ESP and, for a bootloader other
/// than systemd-boot, a `/boot`; unknown where the disk's size is unknown or
/// too small.
pub open spec fn left_gb(disk: Option<u64>, boot: bool) -> Option<int> {
    let need: int = if boot { 4 } else { 2 };
    match disk {
        Some(d) => if d >= need { Some(d - need) } else { None },
        None => None,
    }
}

/// The root's size: what the disk leaves less a home size the user typed;
/// unknown where a separate home has no size yet.
pub open spec fn root_gb(left: Option<int>, home_gb: Option<u64>, home: bool) -> Option<int> {
    match home_gb {
        Some(h) => match left {
            Some(l) => if l >= h { Some(l - h) } else { None },
            None => None,
        },
        None => if home { None } else { left },
    }
}

pub open spec fn said_gb(size: Option<int>) -> Seq<char> {
    match size {
        Some(s) => gb_text(s as nat),
        None => "the rest"@,
    }
}

/// The automatic plan's rows before their tree glyphs: the ESP, a `/boot`
/// where the bootloader reads one, then the root, inside the container where
/// the answer encrypts it, and a home where the user asked for one.
pub open spec fn plan_rows(filesystem: Seq<char>, boot: bool, home_gb: Option<u64>, home_said: Seq<char>, disk: Option<u64>, home: bool, encrypted: bool) -> Seq<PlanRow> {
    let left = left_gb(disk, boot);
    let root = root_gb(left, home_gb, home);
    let head = seq![("EFI-SYSTEM"@, gb_text(2), "fat32"@, "efi"@, "/boot/efi"@, false)] + if boot {
        seq![("boot"@, gb_text(2), "ext4"@, "linux"@, "/boot"@, false)]
    } else {
        Seq::empty()
    };
    let home_size = match home_gb {
        Some(s) => gb_text(s as nat),
        None => home_said,
    };
    let root_row = ("root"@, said_gb(root), filesystem, "linux"@, "/"@, encrypted);
    let home_rows = if home {
        seq![("var"@, home_size, filesystem, "linux"@, "/var/home"@, encrypted)]
    } else {
        Seq::empty()
    };
    let container = if encrypted {
        seq![("root (LUKS)"@, said_gb(left), ""@, "luks"@, ""@, false)]
    } else {
        Seq::empty()
    };
    head + container + seq![root_row] + home_rows
}

/// The last row at one level, or the first row where the level has none.
pub open spec fn last_at(rows: Seq<PlanRow>, inside: bool) -> int
    decreases rows.len(),
{
    if rows.len() == 0 {
        0
    } else if rows.last().5 == inside {
        rows.len() - 1
    } else {
        last_at(rows.drop_last(), inside)
    }
}

/// The tree glyph a row takes: the last row of each level the corner, and a
/// row inside the container indented under the container's corner.
pub open spec fn glyph(inside: bool, last: bool) -> Seq<char> {
    if !inside && last {
        "\u{2514}\u{2500} "@
    } else if !inside {
        "\u{251c}\u{2500} "@
    } else if last {
        "   \u{2514}\u{2500} "@
    } else {
        "   \u{251c}\u{2500} "@
    }
}

/// The automatic plan as the table draws it, each name behind its glyph.
pub open spec fn automatic_plan(filesystem: Seq<char>, boot: bool, home_gb: Option<u64>, home_said: Seq<char>, disk: Option<u64>, home: bool, encrypted: bool) -> Seq<(Seq<char>, Seq<char>, Seq<char>, Seq<char>, Seq<char>)> {
    let rows = plan_rows(filesystem, boot, home_gb, home_said, disk, home, encrypted);
    Seq::new(rows.len(), |at: int| {
        let r = rows[at];
        (glyph(r.5, at == last_at(rows, r.5)) + r.0, r.1, r.2, r.3, r.4)
    })
}

pub open spec fn row5_view(r: (String, String, String, String, String)) -> (Seq<char>, Seq<char>, Seq<char>, Seq<char>, Seq<char>) {
    (r.0@, r.1@, r.2@, r.3@, r.4@)
}

fn said_size(size: Option<u64>) -> (said: String)
    ensures
        said@ == said_gb(match size {
            Some(s) => Some(s as int),
            None => None,
        }),
{
    match size {
        Some(s) => gb_said(s),
        None => owned("the rest"),
    }
}

fn glyph_of(inside: bool, last: bool) -> (g: &'static str)
    ensures
        g@ == glyph(inside, last),
{
    if !inside && last {
        "\u{2514}\u{2500} "
    } else if !inside {
        "\u{251c}\u{2500} "
    } else if last {
        "   \u{2514}\u{2500} "
    } else {
        "   \u{251c}\u{2500} "
    }
}

pub open spec fn plan_row_view(r: (String, String, String, String, String, bool)) -> PlanRow {
    (r.0@, r.1@, r.2@, r.3@, r.4@, r.5)
}

fn plan_row(name: &str, size: String, filesystem: &str, kind: &str, mount: &str, inside: bool) -> (row: (String, String, String, String, String, bool))
    ensures
        plan_row_view(row) == (name@, size@, filesystem@, kind@, mount@, inside),
{
    (owned(name), size, owned(filesystem), owned(kind), owned(mount), inside)
}

/// Builds the automatic plan, one row per partition the install would cut.
/// `disk` is the disk's size in whole GB where it is known, `home_gb` the
/// home size the user typed where it reads as a number, and `home_said` what
/// the home's size cell says otherwise. The root row reads `the rest` where
/// the disk size is unknown, where the arithmetic runs out, and where a
/// separate home has no size yet.
#[verifier::rlimit(40)]
pub fn automatic_rows(payload: &Payload, home_gb: Option<u64>, home_said: &str, disk: Option<u64>, home: bool, encrypted: bool) -> (rows: Vec<(String, String, String, String, String)>)
    ensures
        rows@.map_values(|r: (String, String, String, String, String)| row5_view(r)) == automatic_plan(
            payload.filesystem@,
            payload.bootloader@ != "systemd"@,
            home_gb,
            home_said@,
            disk,
            home,
            encrypted,
        ),
{
    let boot = !str_eq(payload.bootloader.as_str(), "systemd");
    let need: u64 = if boot { 4 } else { 2 };
    let left: Option<u64> = match disk {
        Some(d) => if d >= need { Some(d - need) } else { None },
        None => None,
    };
    let root: Option<u64> = match home_gb {
        Some(h) => match left {
            Some(l) => if l >= h { Some(l - h) } else { None },
            None => None,
        },
        None => if home { None } else { left },
    };
    let fs = payload.filesystem.as_str();
    let ghost spec_rows = plan_rows(payload.filesystem@, boot, home_gb, home_said@, disk, home, encrypted);
    let mut plan: Vec<(String, String, String, String, String, bool)> = Vec::new();
    plan.push(plan_row("EFI-SYSTEM", gb_said(2), "fat32", "efi", "/boot/efi", false));
    if boot {
        plan.push(plan_row("boot", gb_said(2), "ext4", "linux", "/boot", false));
    }
    if encrypted {
        plan.push(plan_row("root (LUKS)", said_size(left), "", "luks", "", false));
    }
    plan.push(plan_row("root", said_size(root), fs, "linux", "/", encrypted));
    if home {
        let size = match home_gb {
            Some(s) => gb_said(s),
            None => owned(home_said),
        };
        plan.push(plan_row("var", size, fs, "linux", "/var/home", encrypted));
    }
    let ghost pv = plan@.map_values(|r: (String, String, String, String, String, bool)| plan_row_view(r));
    assert(pv =~= spec_rows);
    let mut outside: usize = 0;
    let mut inner: usize = 0;
    let mut k: usize = 0;
    while k < plan.len()
        invariant
            k <= plan@.len(),
            pv == plan@.map_values(|r: (String, String, String, String, String, bool)| plan_row_view(r)),
            outside == last_at(pv.take(k as int), false),
            inner == last_at(pv.take(k as int), true),
        decreases plan.len() - k,
    {
        assert(pv.take(k + 1).drop_last() =~= pv.take(k as int));
        if plan[k].5 {
            inner = k;
        } else {
            outside = k;
        }
        k = k + 1;
    }
    assert(pv.take(k as int) =~= pv);
    let mut rows: Vec<(String, String, String, String, String)> = Vec::new();
    let mut at: usize = 0;
    while at < plan.len()
        invariant
            at <= plan@.len(),
            pv == plan@.map_values(|r: (String, String, String, String, String, bool)| plan_row_view(r)),
            outside == last_at(pv, false),
            inner == last_at(pv, true),
            rows@.len() == at,
            forall|j: int| 0 <= j < at ==> row5_view(#[trigger] rows@[j]) == (
                glyph(pv[j].5, j == last_at(pv, pv[j].5)) + pv[j].0,
                pv[j].1,
                pv[j].2,
                pv[j].3,
                pv[j].4,
            ),
        decreases plan.len() - at,
    {
        let inside = plan[at].5;
        let last = if inside { at == inner } else { at == outside };
        let name = cat(glyph_of(inside, last), plan[at].0.as_str());
        rows.push((name, plan[at].1.clone(), plan[at].2.clone(), plan[at].3.clone(), plan[at].4.clone()));
        at = at + 1;
    }
    assert(rows@.map_values(|r: (String, String, String, String, String)| row5_view(r)) =~= automatic_plan(
        payload.filesystem@,
        boot,
        home_gb,
        home_said@,
        disk,
        home,
        encrypted,
    ));
    rows
}

// ---------------------------------------------------------------------------
// What a manual layout still needs

/// A planned root smaller than the image's reserve.
pub open spec fn small_root(reserve: u64) -> spec_fn(Created) -> bool {
    |c: Created| c.target@ == "/"@ && c.gb < reserve
}

/// The refusal the table the plan cuts gives: a non-GPT label it would
/// append to, or a plan its free spans cannot hold.
pub open spec fn table_problem(table: Option<DiskTable>, layout: CustomLayout) -> Option<Seq<char>> {
    match table {
        None => None,
        Some(t) => {
            let d = layout.deletes.deep_view();
            if !(layout.creates@.len() == 0 && layout.renames@.len() == 0 || t.label@.len() == 0
                || t.label@ == "gpt"@ || t.cleared(d)) {
                Some("this disk has a "@ + t.label@ + " partition table: clear it to use GPT"@)
            } else {
                match place_all(t.sector, t.free_spans(d), layout.creates@) {
                    Err(room) => Some(copy::too_big_text(room as nat)),
                    Ok(_) => None,
                }
            }
        },
    }
}

/// Every mount point the layout answers: its mounts', its opens' and its
/// creates', in that order.
pub open spec fn targets_of(layout: CustomLayout) -> Seq<Seq<char>> {
    layout.mounts@.map_values(|m: CustomMount| m.target@) + layout.opens@.map_values(
        |o: LuksOpen| o.target@,
    ) + layout.creates@.map_values(|c: Created| c.target@)
}

pub open spec fn repeats(targets: Seq<Seq<char>>) -> bool {
    exists|i: int, j: int| 0 <= i < j < targets.len() && targets[i] == targets[j]
}

/// A root the plan formats with a filesystem that has no fs-verity.
pub open spec fn unverified_root(layout: CustomLayout) -> bool {
    let bad = |fstype: Seq<char>| fstype != "ext4"@ && fstype != "btrfs"@;
    ||| exists|i: int|
        0 <= i < layout.mounts@.len() && (#[trigger] layout.mounts@[i]).fstype@ != "unformatted"@
            && layout.mounts@[i].target@ == "/"@ && bad(layout.mounts@[i].fstype@)
    ||| exists|i: int|
        0 <= i < layout.creates@.len() && (#[trigger] layout.creates@[i]).target@ == "/"@ && bad(
            layout.creates@[i].fstype@,
        )
}

/// A mount the plan formats, or a partition it creates, whose filesystem
/// cannot carry the mount point it holds. A kept partition is not formatted
/// by the plan, so its filesystem is the disk's to say.
pub open spec fn misfit(layout: CustomLayout) -> bool {
    ||| exists|i: int|
        0 <= i < layout.mounts@.len() && (#[trigger] layout.mounts@[i]).fstype@ != "unformatted"@
            && !fits_spec(layout.mounts@[i].target@, layout.mounts@[i].fstype@)
    ||| exists|i: int|
        0 <= i < layout.creates@.len() && !fits_spec((#[trigger] layout.creates@[i]).target@, layout.creates@[i].fstype@)
}

/// What a manual layout still needs before the install can take it, in the
/// order the screen says it: a planned root below the image's reserve; a
/// table the plan cannot be cut into; a planned partition with no format; a
/// partition answered with no mount point; no root; a mount point claimed
/// twice; no ESP; a manual container; a filesystem that cannot carry the
/// point it holds; and, for a sealed image, a root with no fs-verity.
pub open spec fn layout_problem(layout: CustomLayout, seals: bool, table: Option<DiskTable>, reserve: u64) -> Option<Seq<char>> {
    match crate::seqs::first_where(layout.creates@, small_root(reserve)) {
        Some(i) => Some("a "@ + crate::text::decimal(layout.creates@[i].gb as nat) + " GB root is below the "@
            + crate::text::decimal(reserve as nat) + " GB this image needs"@),
        None => match table_problem(table, layout) {
            Some(why) => Some(why),
            None => {
                let targets = targets_of(layout);
                if exists|i: int| 0 <= i < layout.creates@.len() && (#[trigger] layout.creates@[i]).fstype@.len() == 0 {
                    Some(copy::CUSTOM_UNFORMATTED@)
                } else if exists|i: int| 0 <= i < targets.len() && (#[trigger] targets[i]).len() == 0 {
                    Some(copy::CUSTOM_UNMOUNTED@)
                } else if !targets.contains("/"@) {
                    Some(copy::CUSTOM_ROOT@)
                } else if repeats(targets) {
                    Some(copy::CUSTOM_DUPLICATE@)
                } else if !targets.contains("/boot/efi"@) {
                    Some(copy::CUSTOM_ESP@)
                } else if exists|i: int| 0 <= i < layout.mounts@.len() && (#[trigger] layout.mounts@[i]).fstype@ == "luks"@ {
                    Some(copy::CUSTOM_LUKS_LATER@)
                } else if misfit(layout) {
                    Some(copy::CUSTOM_MISFIT@)
                } else if seals && unverified_root(layout) {
                    Some(copy::CUSTOM_VERITY@)
                } else {
                    None
                }
            },
        },
    }
}

fn collect_targets(layout: &CustomLayout) -> (targets: Vec<String>)
    ensures
        targets.deep_view() == targets_of(*layout),
{
    let mut targets: Vec<String> = Vec::new();
    let mut i: usize = 0;
    while i < layout.mounts.len()
        invariant
            i <= layout.mounts@.len(),
            targets.deep_view() == layout.mounts@.take(i as int).map_values(|m: CustomMount| m.target@),
        decreases layout.mounts.len() - i,
    {
        let ghost before = targets.deep_view();
        targets.push(layout.mounts[i].target.clone());
        assert(targets.deep_view() =~= before.push(layout.mounts@[i as int].target@));
        assert(layout.mounts@.take(i + 1).map_values(|m: CustomMount| m.target@) =~= before.push(layout.mounts@[i as int].target@));
        i = i + 1;
    }
    assert(layout.mounts@.take(i as int) =~= layout.mounts@);
    let ghost first = targets.deep_view();
    let mut j: usize = 0;
    while j < layout.opens.len()
        invariant
            j <= layout.opens@.len(),
            first == layout.mounts@.map_values(|m: CustomMount| m.target@),
            targets.deep_view() == first + layout.opens@.take(j as int).map_values(|o: LuksOpen| o.target@),
        decreases layout.opens.len() - j,
    {
        let ghost before = targets.deep_view();
        targets.push(layout.opens[j].target.clone());
        assert(targets.deep_view() =~= before.push(layout.opens@[j as int].target@));
        assert(first + layout.opens@.take(j + 1).map_values(|o: LuksOpen| o.target@) =~= before.push(layout.opens@[j as int].target@));
        j = j + 1;
    }
    assert(layout.opens@.take(j as int) =~= layout.opens@);
    let ghost second = targets.deep_view();
    let mut k: usize = 0;
    while k < layout.creates.len()
        invariant
            k <= layout.creates@.len(),
            second == layout.mounts@.map_values(|m: CustomMount| m.target@) + layout.opens@.map_values(|o: LuksOpen| o.target@),
            targets.deep_view() == second + layout.creates@.take(k as int).map_values(|c: Created| c.target@),
        decreases layout.creates.len() - k,
    {
        let ghost before = targets.deep_view();
        targets.push(layout.creates[k].target.clone());
        assert(targets.deep_view() =~= before.push(layout.creates@[k as int].target@));
        assert(second + layout.creates@.take(k + 1).map_values(|c: Created| c.target@) =~= before.push(layout.creates@[k as int].target@));
        k = k + 1;
    }
    assert(layout.creates@.take(k as int) =~= layout.creates@);
    targets
}

fn holds_target(targets: &Vec<String>, target: &str) -> (r: bool)
    ensures
        r == targets.deep_view().contains(target@),
{
    let mut i: usize = 0;
    while i < targets.len()
        invariant
            i <= targets@.len(),
            forall|j: int| 0 <= j < i ==> targets.deep_view()[j] != target@,
        decreases targets.len() - i,
    {
        if str_eq(targets[i].as_str(), target) {
            assert(targets.deep_view()[i as int] == target@);
            return true;
        }
        i = i + 1;
    }
    false
}

fn has_repeat(targets: &Vec<String>) -> (r: bool)
    ensures
        r == repeats(targets.deep_view()),
{
    let ghost t = targets.deep_view();
    let mut j: usize = 0;
    while j < targets.len()
        invariant
            j <= targets@.len(),
            t == targets.deep_view(),
            forall|a: int, b: int| 0 <= a < b < j ==> t[a] != t[b],
        decreases targets.len() - j,
    {
        let mut i: usize = 0;
        while i < j
            invariant
                i <= j < targets@.len(),
                t == targets.deep_view(),
                forall|a: int| 0 <= a < i ==> t[a] != t[j as int],
            decreases j - i,
        {
            if str_eq(targets[i].as_str(), targets[j].as_str()) {
                assert(t[i as int] == t[j as int]);
                return true;
            }
            i = i + 1;
        }
        j = j + 1;
    }
    false
}

fn has_empty(targets: &Vec<String>) -> (r: bool)
    ensures
        r == exists|i: int| 0 <= i < targets.deep_view().len() && (#[trigger] targets.deep_view()[i]).len() == 0,
{
    let mut e: usize = 0;
    while e < targets.len()
        invariant
            e <= targets@.len(),
            forall|j: int| 0 <= j < e ==> (#[trigger] targets.deep_view()[j]).len() != 0,
        decreases targets.len() - e,
    {
        if targets[e].as_str().is_empty() {
            assert(targets.deep_view()[e as int].len() == 0);
            return true;
        }
        e = e + 1;
    }
    false
}

fn small_root_at(layout: &CustomLayout, reserve: u64) -> (at: Option<usize>)
    ensures
        match at {
            Some(i) => crate::seqs::first_where(layout.creates@, small_root(reserve)) == Some(i as int),
            None => crate::seqs::first_where(layout.creates@, small_root(reserve)) is None,
        },
{
    let mut i: usize = 0;
    while i < layout.creates.len()
        invariant
            i <= layout.creates@.len(),
            forall|j: int| 0 <= j < i ==> !small_root(reserve)(#[trigger] layout.creates@[j]),
        decreases layout.creates.len() - i,
    {
        if str_eq(layout.creates[i].target.as_str(), "/") && layout.creates[i].gb < reserve {
            proof {
                lemma_first_where(layout.creates@, small_root(reserve), i as int);
            }
            return Some(i);
        }
        i = i + 1;
    }
    proof {
        lemma_first_where(layout.creates@, small_root(reserve), i as int);
    }
    None
}

fn unformatted_create(layout: &CustomLayout) -> (r: bool)
    ensures
        r == exists|i: int| 0 <= i < layout.creates@.len() && (#[trigger] layout.creates@[i]).fstype@.len() == 0,
{
    let mut k: usize = 0;
    while k < layout.creates.len()
        invariant
            k <= layout.creates@.len(),
            forall|j: int| 0 <= j < k ==> (#[trigger] layout.creates@[j]).fstype@.len() != 0,
        decreases layout.creates.len() - k,
    {
        if layout.creates[k].fstype.as_str().is_empty() {
            assert(layout.creates@[k as int].fstype@.len() == 0);
            return true;
        }
        k = k + 1;
    }
    false
}

fn luks_mount(layout: &CustomLayout) -> (r: bool)
    ensures
        r == exists|i: int| 0 <= i < layout.mounts@.len() && (#[trigger] layout.mounts@[i]).fstype@ == "luks"@,
{
    let mut m: usize = 0;
    while m < layout.mounts.len()
        invariant
            m <= layout.mounts@.len(),
            forall|j: int| 0 <= j < m ==> (#[trigger] layout.mounts@[j]).fstype@ != "luks"@,
        decreases layout.mounts.len() - m,
    {
        if str_eq(layout.mounts[m].fstype.as_str(), "luks") {
            assert(layout.mounts@[m as int].fstype@ == "luks"@);
            return true;
        }
        m = m + 1;
    }
    false
}

fn misfits(layout: &CustomLayout) -> (r: bool)
    ensures
        r == misfit(*layout),
{
    let mut a: usize = 0;
    while a < layout.mounts.len()
        invariant
            a <= layout.mounts@.len(),
            forall|j: int| 0 <= j < a ==> !((#[trigger] layout.mounts@[j]).fstype@ != "unformatted"@
                && !fits_spec(layout.mounts@[j].target@, layout.mounts@[j].fstype@)),
        decreases layout.mounts.len() - a,
    {
        let m = &layout.mounts[a];
        if !str_eq(m.fstype.as_str(), "unformatted") && !fits(m.target.as_str(), m.fstype.as_str()) {
            assert(layout.mounts@[a as int].fstype@ != "unformatted"@);
            return true;
        }
        a = a + 1;
    }
    let mut b: usize = 0;
    while b < layout.creates.len()
        invariant
            b <= layout.creates@.len(),
            forall|j: int| 0 <= j < layout.mounts@.len() ==> !((#[trigger] layout.mounts@[j]).fstype@ != "unformatted"@
                && !fits_spec(layout.mounts@[j].target@, layout.mounts@[j].fstype@)),
            forall|j: int| 0 <= j < b ==> fits_spec((#[trigger] layout.creates@[j]).target@, layout.creates@[j].fstype@),
        decreases layout.creates.len() - b,
    {
        let c = &layout.creates[b];
        if !fits(c.target.as_str(), c.fstype.as_str()) {
            assert(!fits_spec(layout.creates@[b as int].target@, layout.creates@[b as int].fstype@));
            return true;
        }
        b = b + 1;
    }
    false
}

fn unverified(layout: &CustomLayout) -> (r: bool)
    ensures
        r == unverified_root(*layout),
{
    let mut a: usize = 0;
    while a < layout.mounts.len()
        invariant
            a <= layout.mounts@.len(),
            forall|j: int| 0 <= j < a ==> !((#[trigger] layout.mounts@[j]).fstype@ != "unformatted"@
                && layout.mounts@[j].target@ == "/"@ && layout.mounts@[j].fstype@ != "ext4"@
                && layout.mounts@[j].fstype@ != "btrfs"@),
        decreases layout.mounts.len() - a,
    {
        let f = layout.mounts[a].fstype.as_str();
        if !str_eq(f, "unformatted") && str_eq(layout.mounts[a].target.as_str(), "/") && !str_eq(f, "ext4") && !str_eq(f, "btrfs") {
            assert(layout.mounts@[a as int].fstype@ != "unformatted"@);
            return true;
        }
        a = a + 1;
    }
    let mut b: usize = 0;
    while b < layout.creates.len()
        invariant
            b <= layout.creates@.len(),
            forall|j: int| 0 <= j < layout.mounts@.len() ==> !((#[trigger] layout.mounts@[j]).fstype@ != "unformatted"@
                && layout.mounts@[j].target@ == "/"@ && layout.mounts@[j].fstype@ != "ext4"@
                && layout.mounts@[j].fstype@ != "btrfs"@),
            forall|j: int| 0 <= j < b ==> !((#[trigger] layout.creates@[j]).target@ == "/"@
                && layout.creates@[j].fstype@ != "ext4"@ && layout.creates@[j].fstype@ != "btrfs"@),
        decreases layout.creates.len() - b,
    {
        let f = layout.creates[b].fstype.as_str();
        if str_eq(layout.creates[b].target.as_str(), "/") && !str_eq(f, "ext4") && !str_eq(f, "btrfs") {
            assert(layout.creates@[b as int].target@ == "/"@);
            return true;
        }
        b = b + 1;
    }
    false
}

/// Says what a manual layout still needs before the install can take it.
/// The editor lets the user build a half-answered layout, so this runs on
/// every draw and keeps `Install` blocked until it returns `None`.
pub fn layout_short_of(layout: &CustomLayout, seals: bool, table: Option<&DiskTable>, reserve: u64) -> (why: Option<String>)
    requires
        table matches Some(t) ==> t.addressable(),
    ensures
        match why {
            Some(w) => layout_problem(*layout, seals, match table { Some(t) => Some(*t), None => None }, reserve) == Some(w@),
            None => layout_problem(*layout, seals, match table { Some(t) => Some(*t), None => None }, reserve) is None,
        },
{
    if let Some(i) = small_root_at(layout, reserve) {
        proof {
            crate::seqs::lemma_first_where_found(layout.creates@, small_root(reserve));
        }
        return Some(copy::custom_root_too_small(layout.creates[i].gb, reserve));
    }
    match table {
        Some(t) => {
            let deletes = layout.deletes.as_slice();
            assert(deletes.deep_view() =~= layout.deletes.deep_view());
            match t.wrong_label_for(deletes, layout.creates.len(), layout.renames.len()) {
                Some(why) => return Some(why),
                None => {},
            }
            match place_creates(t, deletes, layout.creates.as_slice()) {
                Err(room) => return Some(copy::custom_too_big(room)),
                Ok(_) => {},
            }
        },
        None => {},
    }
    if unformatted_create(layout) {
        return Some(owned(copy::CUSTOM_UNFORMATTED));
    }
    let targets = collect_targets(layout);
    if has_empty(&targets) {
        return Some(owned(copy::CUSTOM_UNMOUNTED));
    }
    if !holds_target(&targets, "/") {
        return Some(owned(copy::CUSTOM_ROOT));
    }
    if has_repeat(&targets) {
        return Some(owned(copy::CUSTOM_DUPLICATE));
    }
    if !holds_target(&targets, "/boot/efi") {
        return Some(owned(copy::CUSTOM_ESP));
    }
    if luks_mount(layout) {
        return Some(owned(copy::CUSTOM_LUKS_LATER));
    }
    if misfits(layout) {
        return Some(owned(copy::CUSTOM_MISFIT));
    }
    if seals && unverified(layout) {
        return Some(owned(copy::CUSTOM_VERITY));
    }
    None
}

/// Which point of the layout a position in its list of answered points
/// holds: the mounts' first, then the opens', then the creates'.
proof fn lemma_point_at(layout: CustomLayout, a: int)
    requires
        0 <= a < layout.mounts@.len() + layout.opens@.len() + layout.creates@.len(),
    ensures
        targets_of(layout).len() == layout.mounts@.len() + layout.opens@.len() + layout.creates@.len(),
        a < layout.mounts@.len() ==> targets_of(layout)[a] == layout.mounts@[a].target@,
        layout.mounts@.len() <= a < layout.mounts@.len() + layout.opens@.len() ==> targets_of(layout)[a]
            == layout.opens@[a - layout.mounts@.len()].target@,
        layout.mounts@.len() + layout.opens@.len() <= a ==> targets_of(layout)[a]
            == layout.creates@[a - layout.mounts@.len() - layout.opens@.len()].target@,
{
}

/// A container opened with the same mount point as an answered partition
/// claims that point twice, so the layout is refused, whatever else holds.
pub proof fn lemma_shared_point_refused(layout: CustomLayout, seals: bool, table: Option<DiskTable>, reserve: u64, i: int, j: int)
    requires
        0 <= i < layout.mounts@.len(),
        0 <= j < layout.opens@.len(),
        layout.mounts@[i].target@ == layout.opens@[j].target@,
    ensures
        layout_problem(layout, seals, table, reserve) is Some,
{
    let m = layout.mounts@.len();
    lemma_point_at(layout, i);
    lemma_point_at(layout, m + j);
    let t = targets_of(layout);
    assert(0 <= i < m + j < t.len() && t[i] == t[m + j]);
    assert(repeats(t));
}

/// A container opened without a mount point leaves the layout half
/// answered, so it is refused, whatever else holds.
pub proof fn lemma_unplaced_open_refused(layout: CustomLayout, seals: bool, table: Option<DiskTable>, reserve: u64, j: int)
    requires
        0 <= j < layout.opens@.len(),
        layout.opens@[j].target@.len() == 0,
    ensures
        layout_problem(layout, seals, table, reserve) is Some,
{
    let m = layout.mounts@.len();
    lemma_point_at(layout, m + j);
    assert(targets_of(layout)[m + j].len() == 0);
}

/// A layout is accepted where nothing is wrong with it: every point it
/// answers, in a mount, an opened container or a planned partition, is
/// given, and given once; a root and an ESP are among them, in any of the
/// three; no planned root falls below the image's reserve; every planned
/// partition has a format; no answered partition is a manual container;
/// every filesystem the plan writes can carry its point; and, for a sealed
/// image, every root the plan formats has fs-verity. A root inside an opened
/// container counts as the root.
pub proof fn lemma_sound_layout_accepted(layout: CustomLayout, seals: bool, reserve: u64)
    requires
        forall|a: int| 0 <= a < layout.mounts@.len() ==> (#[trigger] layout.mounts@[a]).target@.len() > 0,
        forall|a: int| 0 <= a < layout.opens@.len() ==> (#[trigger] layout.opens@[a]).target@.len() > 0,
        forall|a: int| 0 <= a < layout.creates@.len() ==> (#[trigger] layout.creates@[a]).target@.len() > 0,
        forall|a: int, b: int| 0 <= a < b < layout.mounts@.len() ==> layout.mounts@[a].target@ != layout.mounts@[b].target@,
        forall|a: int, b: int| 0 <= a < b < layout.opens@.len() ==> layout.opens@[a].target@ != layout.opens@[b].target@,
        forall|a: int, b: int| 0 <= a < b < layout.creates@.len() ==> layout.creates@[a].target@ != layout.creates@[b].target@,
        forall|a: int, b: int| 0 <= a < layout.mounts@.len() && 0 <= b < layout.opens@.len() ==> layout.mounts@[a].target@
            != layout.opens@[b].target@,
        forall|a: int, b: int| 0 <= a < layout.mounts@.len() && 0 <= b < layout.creates@.len() ==> layout.mounts@[a].target@
            != layout.creates@[b].target@,
        forall|a: int, b: int| 0 <= a < layout.opens@.len() && 0 <= b < layout.creates@.len() ==> layout.opens@[a].target@
            != layout.creates@[b].target@,
        (exists|a: int| 0 <= a < layout.mounts@.len() && (#[trigger] layout.mounts@[a]).target@ == "/"@)
            || (exists|a: int| 0 <= a < layout.opens@.len() && (#[trigger] layout.opens@[a]).target@ == "/"@)
            || (exists|a: int| 0 <= a < layout.creates@.len() && (#[trigger] layout.creates@[a]).target@ == "/"@),
        (exists|a: int| 0 <= a < layout.mounts@.len() && (#[trigger] layout.mounts@[a]).target@ == "/boot/efi"@)
            || (exists|a: int| 0 <= a < layout.opens@.len() && (#[trigger] layout.opens@[a]).target@ == "/boot/efi"@)
            || (exists|a: int| 0 <= a < layout.creates@.len() && (#[trigger] layout.creates@[a]).target@ == "/boot/efi"@),
        forall|a: int| 0 <= a < layout.creates@.len() && (#[trigger] layout.creates@[a]).target@ == "/"@ ==> layout.creates@[a].gb >= reserve,
        forall|a: int| 0 <= a < layout.creates@.len() ==> (#[trigger] layout.creates@[a]).fstype@.len() > 0,
        forall|a: int| 0 <= a < layout.mounts@.len() ==> (#[trigger] layout.mounts@[a]).fstype@ != "luks"@,
        forall|a: int| 0 <= a < layout.mounts@.len() && (#[trigger] layout.mounts@[a]).fstype@ != "unformatted"@ ==> fits_spec(
            layout.mounts@[a].target@,
            layout.mounts@[a].fstype@,
        ),
        forall|a: int| 0 <= a < layout.creates@.len() ==> fits_spec((#[trigger] layout.creates@[a]).target@, layout.creates@[a].fstype@),
        seals ==> forall|a: int| 0 <= a < layout.mounts@.len() && (#[trigger] layout.mounts@[a]).fstype@ != "unformatted"@
            && layout.mounts@[a].target@ == "/"@ ==> layout.mounts@[a].fstype@ == "ext4"@ || layout.mounts@[a].fstype@ == "btrfs"@,
        seals ==> forall|a: int| 0 <= a < layout.creates@.len() && (#[trigger] layout.creates@[a]).target@ == "/"@
            ==> layout.creates@[a].fstype@ == "ext4"@ || layout.creates@[a].fstype@ == "btrfs"@,
    ensures
        layout_problem(layout, seals, None, reserve) is None,
{
    let m = layout.mounts@.len();
    let o = layout.opens@.len();
    let t = targets_of(layout);
    crate::seqs::lemma_first_where_found(layout.creates@, small_root(reserve));
    assert(t.len() == m + o + layout.creates@.len());
    assert forall|a: int| 0 <= a < t.len() implies (#[trigger] t[a]).len() != 0 by {
        lemma_point_at(layout, a);
    }
    assert(!repeats(t)) by {
        assert forall|a: int, b: int| 0 <= a < b < t.len() implies t[a] != t[b] by {
            lemma_point_at(layout, a);
            lemma_point_at(layout, b);
        }
    }
    assert(t.contains("/"@)) by {
        if exists|a: int| 0 <= a < m && (#[trigger] layout.mounts@[a]).target@ == "/"@ {
            let a = choose|a: int| 0 <= a < m && (#[trigger] layout.mounts@[a]).target@ == "/"@;
            lemma_point_at(layout, a);
        } else if exists|a: int| 0 <= a < o && (#[trigger] layout.opens@[a]).target@ == "/"@ {
            let a = choose|a: int| 0 <= a < o && (#[trigger] layout.opens@[a]).target@ == "/"@;
            lemma_point_at(layout, m + a);
        } else {
            let a = choose|a: int| 0 <= a < layout.creates@.len() && (#[trigger] layout.creates@[a]).target@ == "/"@;
            lemma_point_at(layout, m + o + a);
        }
    }
    assert(t.contains("/boot/efi"@)) by {
        if exists|a: int| 0 <= a < m && (#[trigger] layout.mounts@[a]).target@ == "/boot/efi"@ {
            let a = choose|a: int| 0 <= a < m && (#[trigger] layout.mounts@[a]).target@ == "/boot/efi"@;
            lemma_point_at(layout, a);
        } else if exists|a: int| 0 <= a < o && (#[trigger] layout.opens@[a]).target@ == "/boot/efi"@ {
            let a = choose|a: int| 0 <= a < o && (#[trigger] layout.opens@[a]).target@ == "/boot/efi"@;
            lemma_point_at(layout, m + a);
        } else {
            let a = choose|a: int| 0 <= a < layout.creates@.len() && (#[trigger] layout.creates@[a]).target@ == "/boot/efi"@;
            lemma_point_at(layout, m + o + a);
        }
    }
    assert(!misfit(layout));
    assert(seals ==> !unverified_root(layout));
}

} // verus!
