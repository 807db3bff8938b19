//! The answers on the disk table that change the plan itself: a partition
//! planned away or put back, renamed, opened or closed, and the answers a
//! planned partition carries.

use crate::answers::{holds_text, Created, CustomLayout, CustomMount, Key, LuksOpen, Partition, Rename};
use crate::copy;
use crate::editor::{
    fits_spec, place_format, place_format_done, place_target, place_target_done, place_unassign, place_unassign_done,
};
use crate::text::{owned, str_eq};
use vstd::prelude::*;

verus! {

/// The answers of partitions other than `device`.
pub open spec fn other_mount(device: Seq<char>) -> spec_fn(CustomMount) -> bool {
    |m: CustomMount| m.partition@ != device
}

pub open spec fn other_open(device: Seq<char>) -> spec_fn(LuksOpen) -> bool {
    |o: LuksOpen| o.partition@ != device
}

pub open spec fn other_rename(device: Seq<char>) -> spec_fn(Rename) -> bool {
    |r: Rename| r.partition@ != device
}

pub open spec fn other_device(device: Seq<char>) -> spec_fn(String) -> bool {
    |s: String| s@ != device
}

/// The plan an answer starts from: the layout held, or a fresh one for
/// `disk` where none is.
pub open spec fn start_of(held: Option<CustomLayout>, disk: Seq<char>) -> (Seq<char>, Seq<CustomMount>, Seq<LuksOpen>, Seq<String>, Seq<Created>, Seq<Rename>) {
    match held {
        Some(l) => (l.disk@, l.mounts@, l.opens@, l.deletes@, l.creates@, l.renames@),
        None => (disk, Seq::empty(), Seq::empty(), Seq::empty(), Seq::empty(), Seq::empty()),
    }
}

/// What an answer keeps of the plan besides the lists it changes: the disk,
/// the ESP removals and the confirmed table.
pub open spec fn kept_plan(held: Option<CustomLayout>, after: CustomLayout, disk: Seq<char>) -> bool {
    match held {
        Some(l) => after.disk == l.disk && after.esp == l.esp && after.confirmed == l.confirmed,
        None => after.disk@ == disk && after.esp@.len() == 0 && after.confirmed is None,
    }
}

fn drop_mounts(mounts: &mut Vec<CustomMount>, device: &str)
    ensures
        final(mounts)@ == old(mounts)@.filter(other_mount(device@)),
{
    let mut rest: Vec<CustomMount> = Vec::new();
    std::mem::swap(mounts, &mut rest);
    let ghost all = rest@;
    let ghost p = other_mount(device@);
    assert(mounts@ + rest@.filter(p) =~= all.filter(p));
    while rest.len() > 0
        invariant
            p == other_mount(device@),
            mounts@ + rest@.filter(p) == all.filter(p),
        decreases rest.len(),
    {
        let ghost before = rest@;
        let row = rest.remove(0);
        proof {
            assert(before =~= seq![row] + rest@);
            Seq::filter_distributes_over_add(seq![row], rest@, p);
            reveal_with_fuel(Seq::filter, 2);
            assert(seq![row].drop_last() =~= Seq::<CustomMount>::empty());
        }
        let ghost head = mounts@;
        if !str_eq(row.partition.as_str(), device) {
            mounts.push(row);
            assert(mounts@ + rest@.filter(p) =~= head + before.filter(p));
        } else {
            assert(head + rest@.filter(p) =~= head + before.filter(p));
        }
    }
    assert(mounts@ + rest@.filter(p) =~= mounts@);
}

fn drop_opens(opens: &mut Vec<LuksOpen>, device: &str)
    ensures
        final(opens)@ == old(opens)@.filter(other_open(device@)),
{
    let mut rest: Vec<LuksOpen> = Vec::new();
    std::mem::swap(opens, &mut rest);
    let ghost all = rest@;
    let ghost p = other_open(device@);
    assert(opens@ + rest@.filter(p) =~= all.filter(p));
    while rest.len() > 0
        invariant
            p == other_open(device@),
            opens@ + rest@.filter(p) == all.filter(p),
        decreases rest.len(),
    {
        let ghost before = rest@;
        let row = rest.remove(0);
        proof {
            assert(before =~= seq![row] + rest@);
            Seq::filter_distributes_over_add(seq![row], rest@, p);
            reveal_with_fuel(Seq::filter, 2);
            assert(seq![row].drop_last() =~= Seq::<LuksOpen>::empty());
        }
        let ghost head = opens@;
        if !str_eq(row.partition.as_str(), device) {
            opens.push(row);
            assert(opens@ + rest@.filter(p) =~= head + before.filter(p));
        } else {
            assert(head + rest@.filter(p) =~= head + before.filter(p));
        }
    }
    assert(opens@ + rest@.filter(p) =~= opens@);
}

fn drop_renames(renames: &mut Vec<Rename>, device: &str)
    ensures
        final(renames)@ == old(renames)@.filter(other_rename(device@)),
{
    let mut rest: Vec<Rename> = Vec::new();
    std::mem::swap(renames, &mut rest);
    let ghost all = rest@;
    let ghost p = other_rename(device@);
    assert(renames@ + rest@.filter(p) =~= all.filter(p));
    while rest.len() > 0
        invariant
            p == other_rename(device@),
            renames@ + rest@.filter(p) == all.filter(p),
        decreases rest.len(),
    {
        let ghost before = rest@;
        let row = rest.remove(0);
        proof {
            assert(before =~= seq![row] + rest@);
            Seq::filter_distributes_over_add(seq![row], rest@, p);
            reveal_with_fuel(Seq::filter, 2);
            assert(seq![row].drop_last() =~= Seq::<Rename>::empty());
        }
        let ghost head = renames@;
        if !str_eq(row.partition.as_str(), device) {
            renames.push(row);
            assert(renames@ + rest@.filter(p) =~= head + before.filter(p));
        } else {
            assert(head + rest@.filter(p) =~= head + before.filter(p));
        }
    }
    assert(renames@ + rest@.filter(p) =~= renames@);
}

fn drop_device(devices: &mut Vec<String>, device: &str)
    ensures
        final(devices)@ == old(devices)@.filter(other_device(device@)),
{
    let mut rest: Vec<String> = Vec::new();
    std::mem::swap(devices, &mut rest);
    let ghost all = rest@;
    let ghost p = other_device(device@);
    assert(devices@ + rest@.filter(p) =~= all.filter(p));
    while rest.len() > 0
        invariant
            p == other_device(device@),
            devices@ + rest@.filter(p) == all.filter(p),
        decreases rest.len(),
    {
        let ghost before = rest@;
        let row = rest.remove(0);
        proof {
            assert(before =~= seq![row] + rest@);
            Seq::filter_distributes_over_add(seq![row], rest@, p);
            reveal_with_fuel(Seq::filter, 2);
            assert(seq![row].drop_last() =~= Seq::<String>::empty());
        }
        let ghost head = devices@;
        if !str_eq(row.as_str(), device) {
            devices.push(row);
            assert(devices@ + rest@.filter(p) =~= head + before.filter(p));
        } else {
            assert(head + rest@.filter(p) =~= head + before.filter(p));
        }
    }
    assert(devices@ + rest@.filter(p) =~= devices@);
}

fn take_held(held: &mut Option<CustomLayout>, disk: &str) -> (layout: CustomLayout)
    ensures
        *final(held) is None,
        layout.disk@ == start_of(*old(held), disk@).0,
        layout.mounts@ == start_of(*old(held), disk@).1,
        layout.opens@ == start_of(*old(held), disk@).2,
        layout.deletes@ == start_of(*old(held), disk@).3,
        layout.creates@ == start_of(*old(held), disk@).4,
        layout.renames@ == start_of(*old(held), disk@).5,
        kept_plan(*old(held), layout, disk@),
{
    match held.take() {
        Some(layout) => layout,
        None => CustomLayout::empty(disk),
    }
}

pub open spec fn place_delete_done(was: Option<CustomLayout>, now: Option<CustomLayout>, disk: Seq<char>, device: Seq<char>) -> bool {
    &&& (now is Some)
    &&& (kept_plan(was, now->0, disk))
    &&& (({
            let s = start_of(was, disk);
            let after = now->0;
            &&& after.disk@ == s.0
            &&& after.mounts@ == s.1.filter(other_mount(device))
            &&& after.opens@ == s.2.filter(other_open(device))
            &&& after.renames@ == s.5.filter(other_rename(device))
            &&& after.creates@ == s.4
            &&& after.deletes.deep_view() =~= (if holds_text(s.3, device) {
                s.3.map_values(|d: String| d@)
            } else {
                s.3.map_values(|d: String| d@).push(device)
            })
        }))
}

/// Plans a partition away. The install cannot mount, format, open or rename
/// a partition that will not be there, so the partition loses every answer,
/// and it is planned away once however often the answer is given.
pub fn place_delete(held: &mut Option<CustomLayout>, disk: &str, device: &str)
    ensures
        place_delete_done(*old(held), *final(held), disk@, device@),
{
    let mut layout = take_held(held, disk);
    drop_mounts(&mut layout.mounts, device);
    drop_opens(&mut layout.opens, device);
    drop_renames(&mut layout.renames, device);
    if !crate::answers::contains_str(&layout.deletes, device) {
        let ghost before = layout.deletes.deep_view();
        layout.deletes.push(owned(device));
        assert(layout.deletes.deep_view() =~= before.push(device@));
    }
    *held = Some(layout);
}

pub open spec fn place_reset_done(was: Option<CustomLayout>, now: Option<CustomLayout>, device: Seq<char>) -> bool {
    &&& (match (was, now) {
            (None, None) => true,
            (Some(before), Some(after)) => {
                &&& after.disk == before.disk && after.creates == before.creates && after.esp
                    == before.esp && after.confirmed == before.confirmed
                &&& after.mounts@ == before.mounts@.filter(other_mount(device))
                &&& after.opens@ == before.opens@.filter(other_open(device))
                &&& after.renames@ == before.renames@.filter(other_rename(device))
                &&& after.deletes@ == before.deletes@.filter(other_device(device))
            },
            _ => false,
        })
}

/// Takes every answer about a partition back, a planned removal included:
/// `Reset` is the one item a partition planned away still offers, so it is
/// also what puts it back. A layout not yet held has nothing to take back.
pub fn place_reset(held: &mut Option<CustomLayout>, device: &str)
    ensures
        place_reset_done(*old(held), *final(held), device@),
{
    if let Some(layout) = held {
        drop_mounts(&mut layout.mounts, device);
        drop_opens(&mut layout.opens, device);
        drop_renames(&mut layout.renames, device);
        drop_device(&mut layout.deletes, device);
    }
}

pub open spec fn place_rename_done(was: Option<CustomLayout>, now: Option<CustomLayout>, disk: Seq<char>, partition: &Partition, label: String) -> bool {
    &&& (now is Some)
    &&& (kept_plan(was, now->0, disk))
    &&& (({
            let s = start_of(was, disk);
            let after = now->0;
            let kept = s.5.filter(other_rename(partition.device@));
            &&& after.disk@ == s.0 && after.mounts@ == s.1 && after.opens@ == s.2 && after.deletes@
                == s.3 && after.creates@ == s.4
            &&& if label@ == partition.label@ {
                after.renames@ == kept
            } else {
                after.renames@.len() == kept.len() + 1 && after.renames@.take(kept.len() as int)
                    == kept && after.renames@.last().partition@ == partition.device@
                    && after.renames@.last().label@ == label@
            }
        }))
}

/// Names a partition the plan keeps. A renamed partition keeps its other
/// answers, and a name equal to the label it already carries states nothing,
/// so the plan holds no rename for it then.
pub fn place_rename(held: &mut Option<CustomLayout>, disk: &str, partition: &Partition, label: String)
    ensures
        place_rename_done(*old(held), *final(held), disk@, partition, label),
{
    let mut layout = take_held(held, disk);
    drop_renames(&mut layout.renames, partition.device.as_str());
    if !str_eq(label.as_str(), partition.label.as_str()) {
        let ghost kept = layout.renames@;
        layout.renames.push(Rename { partition: owned(partition.device.as_str()), label });
        assert(layout.renames@.take(kept.len() as int) =~= kept);
    }
    *held = Some(layout);
}

pub open spec fn place_open_done(was: Option<CustomLayout>, now: Option<CustomLayout>, disk: Seq<char>, device: Seq<char>, key: Key) -> bool {
    &&& (now is Some)
    &&& (kept_plan(was, now->0, disk))
    &&& (({
            let s = start_of(was, disk);
            let after = now->0;
            let kept = s.2.filter(other_open(device));
            &&& after.disk@ == s.0 && after.deletes@ == s.3 && after.creates@ == s.4 && after.renames@
                == s.5
            &&& after.mounts@ == s.1.filter(other_mount(device))
            &&& after.opens@.len() == kept.len() + 1 && after.opens@.take(kept.len() as int) == kept
            &&& after.opens@.last().partition@ == device && after.opens@.last().target@.len() == 0
                && after.opens@.last().key == key
        }))
}

/// Opens a container with the key the user gave. The key is known before
/// the mount point is, so the open starts with none; the partition's other
/// mount and open answers give way to it.
pub fn place_open(held: &mut Option<CustomLayout>, disk: &str, device: &str, key: Key)
    ensures
        place_open_done(*old(held), *final(held), disk@, device@, key),
{
    let mut layout = take_held(held, disk);
    drop_mounts(&mut layout.mounts, device);
    drop_opens(&mut layout.opens, device);
    let ghost kept = layout.opens@;
    layout.opens.push(LuksOpen { partition: owned(device), target: String::new(), key });
    assert(layout.opens@.take(kept.len() as int) =~= kept);
    *held = Some(layout);
}

pub open spec fn place_close_done(was: Option<CustomLayout>, now: Option<CustomLayout>, device: Seq<char>) -> bool {
    &&& (match (was, now) {
            (None, None) => true,
            (Some(before), Some(after)) => after.disk == before.disk && after.mounts == before.mounts
                && after.deletes == before.deletes && after.creates == before.creates && after.renames
                == before.renames && after.esp == before.esp && after.confirmed == before.confirmed
                && after.opens@ == before.opens@.filter(other_open(device)),
            _ => false,
        })
}

/// Closes a container the layout opened. A layout not yet held opens none.
pub fn place_close(held: &mut Option<CustomLayout>, device: &str)
    ensures
        place_close_done(*old(held), *final(held), device@),
{
    if let Some(layout) = held {
        drop_opens(&mut layout.opens, device);
    }
}

pub open spec fn place_clear_done(was: Option<CustomLayout>, now: Option<CustomLayout>, disk: Seq<char>, devices: Vec<String>) -> bool {
    &&& (now is Some)
    &&& (kept_plan(was, now->0, disk))
    &&& (({
            let s = start_of(was, disk);
            let after = now->0;
            &&& after.disk@ == s.0 && after.creates@ == s.4
            &&& after.deletes == devices
            &&& after.mounts@.len() == 0 && after.opens@.len() == 0 && after.renames@.len() == 0
        }))
}

/// Plans every partition of the disk away. A partition planned away keeps
/// no mount, no open and no name.
pub fn place_clear(held: &mut Option<CustomLayout>, disk: &str, devices: Vec<String>)
    ensures
        place_clear_done(*old(held), *final(held), disk@, devices),
{
    let mut layout = take_held(held, disk);
    layout.deletes = devices;
    layout.mounts = Vec::new();
    layout.opens = Vec::new();
    layout.renames = Vec::new();
    *held = Some(layout);
}

pub open spec fn place_create_done(was: Option<CustomLayout>, now: Option<CustomLayout>, disk: Seq<char>, offset: u64, gb: u64) -> bool {
    &&& (now is Some)
    &&& (kept_plan(was, now->0, disk))
    &&& (({
            let s = start_of(was, disk);
            let after = now->0;
            &&& after.disk@ == s.0 && after.mounts@ == s.1 && after.opens@ == s.2 && after.deletes@
                == s.3 && after.renames@ == s.5
            &&& after.creates@.len() == s.4.len() + 1 && after.creates@.take(s.4.len() as int) == s.4
            &&& ({
                let c = after.creates@.last();
                c.gb == gb && c.offset == offset && c.target@.len() == 0 && c.fstype@.len() == 0
                    && c.label@.len() == 0 && c.device@.len() == 0 && !c.encrypt && !c.discoverable
            })
        }))
}

/// Plans a new partition of `gb` whole GB, `offset` GB into the free span it
/// lands in. It arrives with no mount point, no format and no name.
pub fn place_create(held: &mut Option<CustomLayout>, disk: &str, offset: u64, gb: u64)
    ensures
        place_create_done(*old(held), *final(held), disk@, offset, gb),
{
    let mut layout = take_held(held, disk);
    let ghost kept = layout.creates@;
    layout.creates.push(Created {
        gb,
        offset,
        target: String::new(),
        fstype: String::new(),
        label: String::new(),
        device: String::new(),
        encrypt: false,
        discoverable: false,
    });
    assert(layout.creates@.take(kept.len() as int) =~= kept);
    *held = Some(layout);
}

pub open spec fn keep_passphrase_done(was: Option<CustomLayout>, now: Option<CustomLayout>, device: Seq<char>, passphrase: String) -> bool {
    &&& (match (was, now) {
            (None, None) => true,
            (Some(before), Some(after)) => after.disk == before.disk && after.opens == before.opens
                && after.deletes == before.deletes && after.creates == before.creates && after.renames
                == before.renames && after.esp == before.esp && after.confirmed == before.confirmed
                && match crate::answers::mount_at(before.mounts@, device) {
                Some(i) => after.mounts@.len() == before.mounts@.len() && (forall|j: int|
                    0 <= j < before.mounts@.len() && j != i ==> after.mounts@[j] == before.mounts@[j])
                    && after.mounts@[i].partition == before.mounts@[i].partition
                    && after.mounts@[i].target == before.mounts@[i].target
                    && after.mounts@[i].fstype == before.mounts@[i].fstype
                    && after.mounts@[i].passphrase@ == passphrase@,
                None => after.mounts == before.mounts,
            },
            _ => false,
        })
}

/// Keeps the passphrase a new container was answered with on the first
/// mount answer for its partition.
pub fn keep_passphrase(held: &mut Option<CustomLayout>, device: &str, passphrase: String)
    ensures
        keep_passphrase_done(*old(held), *final(held), device@, passphrase),
{
    if let Some(layout) = held {
        let ghost before = layout.mounts@;
        let mut i: usize = 0;
        while i < layout.mounts.len() && !str_eq(layout.mounts[i].partition.as_str(), device)
            invariant
                i <= layout.mounts@.len(),
                layout.mounts@ == before,
                forall|j: int| 0 <= j < i ==> !crate::answers::mounts_device(device@)(#[trigger] layout.mounts@[j]),
            decreases layout.mounts.len() - i,
        {
            i = i + 1;
        }
        proof {
            crate::seqs::lemma_first_where(layout.mounts@, crate::answers::mounts_device(device@), i as int);
        }
        if i < layout.mounts.len() {
            layout.mounts[i].passphrase = passphrase;
        }
    }
}

pub open spec fn created_assign_done(was: Option<CustomLayout>, now: Option<CustomLayout>, index: usize, target: Seq<char>) -> bool {
    &&& (match (was, now) {
            (None, None) => true,
            (Some(before), Some(after)) => {
                &&& after.disk == before.disk && after.mounts == before.mounts && after.opens
                    == before.opens && after.deletes == before.deletes && after.renames
                    == before.renames && after.esp == before.esp && after.confirmed == before.confirmed
                &&& if index < before.creates@.len() {
                    let c = before.creates@[index as int];
                    let d = after.creates@[index as int];
                    after.creates@.len() == before.creates@.len() && (forall|j: int|
                        0 <= j < before.creates@.len() && j != index ==> after.creates@[j]
                        == before.creates@[j]) && d.gb == c.gb && d.offset == c.offset && d.fstype
                        == c.fstype && d.label == c.label && d.device == c.device && d.encrypt
                        == c.encrypt && d.discoverable == c.discoverable && d.target@ == (if target
                        == copy::UNASSIGN@ { Seq::empty() } else { target })
                } else {
                    after.creates == before.creates
                }
            },
            _ => false,
        })
}

/// Points a planned partition at a mount point, or takes its point away on
/// `Unassign`. An index past the plan answers nothing.
pub fn created_assign(held: &mut Option<CustomLayout>, index: usize, target: &str)
    ensures
        created_assign_done(*old(held), *final(held), index, target@),
{
    if let Some(layout) = held {
        if index < layout.creates.len() {
            layout.creates[index].target = if str_eq(target, copy::UNASSIGN) {
                String::new()
            } else {
                owned(target)
            };
        }
    }
}

pub open spec fn created_format_done(was: Option<CustomLayout>, now: Option<CustomLayout>, index: usize, fstype: Seq<char>) -> bool {
    &&& (match (was, now) {
            (None, None) => true,
            (Some(before), Some(after)) => {
                &&& after.disk == before.disk && after.mounts == before.mounts && after.opens
                    == before.opens && after.deletes == before.deletes && after.renames
                    == before.renames && after.esp == before.esp && after.confirmed == before.confirmed
                &&& if index < before.creates@.len() {
                    let c = before.creates@[index as int];
                    let d = after.creates@[index as int];
                    after.creates@.len() == before.creates@.len() && (forall|j: int|
                        0 <= j < before.creates@.len() && j != index ==> after.creates@[j]
                        == before.creates@[j]) && d.gb == c.gb && d.offset == c.offset && d.label
                        == c.label && d.device == c.device && d.encrypt == c.encrypt && d.discoverable
                        == c.discoverable && d.fstype@ == fstype && d.target@ == (if c.target@.len()
                        > 0 && !fits_spec(c.target@, fstype) { Seq::empty() } else { c.target@ })
                } else {
                    after.creates == before.creates
                }
            },
            _ => false,
        })
}

/// Chooses a planned partition's filesystem. The chosen filesystem overrules
/// the mount point, as it does on a partition that was already there: a
/// point the new filesystem cannot carry is cleared instead of left wrong.
pub fn created_format(held: &mut Option<CustomLayout>, index: usize, fstype: &str)
    ensures
        created_format_done(*old(held), *final(held), index, fstype@),
{
    if let Some(layout) = held {
        if index < layout.creates.len() {
            layout.creates[index].fstype = owned(fstype);
            let clear = !layout.creates[index].target.as_str().is_empty() && !crate::editor::fits(
                layout.creates[index].target.as_str(),
                fstype,
            );
            if clear {
                layout.creates[index].target = String::new();
            }
        }
    }
}

pub open spec fn created_rename_done(was: Option<CustomLayout>, now: Option<CustomLayout>, index: usize, label: String) -> bool {
    &&& (match (was, now) {
            (None, None) => true,
            (Some(before), Some(after)) => {
                &&& after.disk == before.disk && after.mounts == before.mounts && after.opens
                    == before.opens && after.deletes == before.deletes && after.renames
                    == before.renames && after.esp == before.esp && after.confirmed == before.confirmed
                &&& if index < before.creates@.len() {
                    let c = before.creates@[index as int];
                    let d = after.creates@[index as int];
                    after.creates@.len() == before.creates@.len() && (forall|j: int|
                        0 <= j < before.creates@.len() && j != index ==> after.creates@[j]
                        == before.creates@[j]) && d.gb == c.gb && d.offset == c.offset && d.target
                        == c.target && d.fstype == c.fstype && d.device == c.device && d.encrypt
                        == c.encrypt && d.discoverable == c.discoverable && d.label@ == label@
                } else {
                    after.creates == before.creates
                }
            },
            _ => false,
        })
}

/// Names a planned partition; the cut writes the name into its script.
pub fn created_rename(held: &mut Option<CustomLayout>, index: usize, label: String)
    ensures
        created_rename_done(*old(held), *final(held), index, label),
{
    if let Some(layout) = held {
        if index < layout.creates.len() {
            layout.creates[index].label = label;
        }
    }
}

pub open spec fn created_delete_done(was: Option<CustomLayout>, now: Option<CustomLayout>, index: usize) -> bool {
    &&& (match (was, now) {
            (None, None) => true,
            (Some(before), Some(after)) => {
                &&& after.disk == before.disk && after.mounts == before.mounts && after.opens
                    == before.opens && after.deletes == before.deletes && after.renames
                    == before.renames && after.esp == before.esp && after.confirmed == before.confirmed
                &&& after.creates@ == (if index < before.creates@.len() {
                    before.creates@.remove(index as int)
                } else {
                    before.creates@
                })
            },
            _ => false,
        })
}

/// Drops a planned partition. The creates under it move up a slot, and
/// their answers ride on the plan entry, so they move with it.
pub fn created_delete(held: &mut Option<CustomLayout>, index: usize)
    ensures
        created_delete_done(*old(held), *final(held), index),
{
    if let Some(layout) = held {
        if index < layout.creates.len() {
            layout.creates.remove(index);
        }
    }
}

/// The kind the form opens on: a form no flag answered installs encrypted
/// where the TPM and the image both allow it, and a flag naming a kind keeps
/// that kind.
pub fn opening_kind(named: bool, chosen: String, tpm: bool, luks_initramfs: bool) -> (kind: String)
    ensures
        kind@ == (if !named && chosen@ == copy::NONE@ && tpm && luks_initramfs {
            "tpm2-luks"@
        } else {
            chosen@
        }),
{
    if !named && str_eq(chosen.as_str(), copy::NONE) && tpm && luks_initramfs {
        owned("tpm2-luks")
    } else {
        chosen
    }
}

/// One answer given on a partition row of the disk table: the point picked
/// under `Assign` (`Unassign` takes it away), the format picked with the
/// passphrase a `luks` format keeps, a reset, a new name, a removal, the key
/// a container opens with, or a close.
pub enum PartAnswer {
    Assign(String),
    Format(String, String),
    Reset,
    Rename(String),
    Delete,
    Open(Key),
    Close,
}

/// What an answer on a partition row does to the plan: each answer takes
/// the step of its own kind, and a `luks` format also keeps the passphrase
/// the new container is made with.
pub open spec fn part_answer_done(was: Option<CustomLayout>, now: Option<CustomLayout>, disk: Seq<char>, partition: &Partition, answer: PartAnswer) -> bool {
    match answer {
        PartAnswer::Assign(target) => if target@ == copy::UNASSIGN@ {
            place_unassign_done(was, now, partition)
        } else {
            place_target_done(was, now, disk, partition, target@)
        },
        PartAnswer::Format(fstype, passphrase) => if fstype@ == "luks"@ {
            exists|mid: Option<CustomLayout>|
                place_format_done(was, mid, disk, partition, fstype@) && #[trigger] keep_passphrase_done(
                    mid,
                    now,
                    partition.device@,
                    passphrase,
                )
        } else {
            place_format_done(was, now, disk, partition, fstype@)
        },
        PartAnswer::Reset => place_reset_done(was, now, partition.device@),
        PartAnswer::Rename(label) => place_rename_done(was, now, disk, partition, label),
        PartAnswer::Delete => place_delete_done(was, now, disk, partition.device@),
        PartAnswer::Open(key) => place_open_done(was, now, disk, partition.device@, key),
        PartAnswer::Close => place_close_done(was, now, partition.device@),
    }
}

/// Applies one answer given on a partition row of `disk`'s table.
pub fn answer_part(held: &mut Option<CustomLayout>, disk: &str, partition: &Partition, answer: PartAnswer)
    ensures
        part_answer_done(*old(held), *final(held), disk@, partition, answer),
{
    let device = partition.device.as_str();
    match answer {
        PartAnswer::Assign(target) => {
            if str_eq(target.as_str(), copy::UNASSIGN) {
                place_unassign(held, partition);
            } else {
                place_target(held, disk, partition, target.as_str());
            }
        },
        PartAnswer::Format(fstype, passphrase) => {
            if str_eq(fstype.as_str(), "luks") {
                place_format(held, disk, partition, fstype.as_str());
                let ghost mid = *held;
                keep_passphrase(held, device, passphrase);
                assert(keep_passphrase_done(mid, *held, partition.device@, passphrase));
            } else {
                place_format(held, disk, partition, fstype.as_str());
            }
        },
        PartAnswer::Reset => place_reset(held, device),
        PartAnswer::Rename(label) => place_rename(held, disk, partition, label),
        PartAnswer::Delete => place_delete(held, disk, device),
        PartAnswer::Open(key) => place_open(held, disk, device, key),
        PartAnswer::Close => place_close(held, device),
    }
}

/// One answer given on a planned partition's row: its point (`Unassign`
/// takes it away), its format, its name, or its removal.
pub enum CreatedAnswer {
    Assign(String),
    Format(String),
    Rename(String),
    Delete,
}

/// What an answer on the row of planned partition `index` does to the plan.
pub open spec fn created_answer_done(was: Option<CustomLayout>, now: Option<CustomLayout>, index: usize, answer: CreatedAnswer) -> bool {
    match answer {
        CreatedAnswer::Assign(target) => created_assign_done(was, now, index, target@),
        CreatedAnswer::Format(fstype) => created_format_done(was, now, index, fstype@),
        CreatedAnswer::Rename(label) => created_rename_done(was, now, index, label),
        CreatedAnswer::Delete => created_delete_done(was, now, index),
    }
}

/// Applies one answer given on the row of planned partition `index`. A
/// planned partition is on no disk yet, so its answers live on its entry.
pub fn answer_created(held: &mut Option<CustomLayout>, index: usize, answer: CreatedAnswer)
    ensures
        created_answer_done(*old(held), *final(held), index, answer),
{
    match answer {
        CreatedAnswer::Assign(target) => created_assign(held, index, target.as_str()),
        CreatedAnswer::Format(fstype) => created_format(held, index, fstype.as_str()),
        CreatedAnswer::Rename(label) => created_rename(held, index, label),
        CreatedAnswer::Delete => created_delete(held, index),
    }
}

/// One answer given on a disk row: a partition placed in the free space, at
/// an offset and of a size in whole GB, or every partition of the disk
/// planned away.
pub enum DiskAnswer {
    Create(u64, u64),
    Clear(Vec<String>),
}

pub open spec fn disk_answer_done(was: Option<CustomLayout>, now: Option<CustomLayout>, disk: Seq<char>, answer: DiskAnswer) -> bool {
    match answer {
        DiskAnswer::Create(offset, gb) => place_create_done(was, now, disk, offset, gb),
        DiskAnswer::Clear(devices) => place_clear_done(was, now, disk, devices),
    }
}

/// Applies one answer given on `disk`'s own row.
pub fn answer_disk(held: &mut Option<CustomLayout>, disk: &str, answer: DiskAnswer)
    ensures
        disk_answer_done(*old(held), *final(held), disk@, answer),
{
    match answer {
        DiskAnswer::Create(offset, gb) => place_create(held, disk, offset, gb),
        DiskAnswer::Clear(devices) => place_clear(held, disk, devices),
    }
}

} // verus!
