//! The plan a whole-disk answer cuts, the filesystems a plan writes and
//! mounts, and the order the mounts go in.

use crate::answers::{CustomLayout, CustomMount, Created, Encryption, Key, LuksOpen};
use crate::copy;
use crate::esp::{fat, is_fat};
use crate::payload::{reserve_of, Payload};
use crate::seqs::{first_where, lemma_first_where};
use crate::table::{create_rooms, rooms_of, DiskState, Slot};
use crate::text::{cat, owned, starts_with, str_eq};
use vstd::prelude::*;

verus! {

/// Sizes the whole-disk ESP and a GRUB target's `/boot`, in whole GB.
/// `automatic_rows` draws the same figures, because the form's rows describe
/// the plan the cut writes.
pub const ESP_GB: u64 = 2;

pub const BOOT_GB: u64 = 2;

/// Holds the installed system's filesystems while bootc writes them. `/run`
/// is RAM, so the directory never reaches a disk.
pub const SYSROOT: &'static str = "/run/tect-sysroot";

/// Says whether the installed initrd finds the root by its partition type. A
/// sealed UKI carries no `root=` argument, and systemd-boot hands a composefs
/// root no BLS entry to carry one.
pub open spec fn by_type(payload: Payload) -> bool {
    payload.boot@.len() > 0 || (payload.composefs && payload.bootloader@ == "systemd"@)
}

pub fn found_by_type(payload: &Payload) -> (r: bool)
    ensures
        r == by_type(*payload),
{
    !payload.boot.as_str().is_empty() || (payload.composefs && str_eq(payload.bootloader.as_str(), "systemd"))
}

/// The command that writes one filesystem, without the device. Only the root
/// takes fs-verity, because the composefs backend enables it on the objects
/// it stores there. GRUB reads an ext4 `/boot` and refuses features it does
/// not know.
pub open spec fn mkfs_spec(fstype: Seq<char>, target: Seq<char>) -> Option<Seq<Seq<char>>> {
    if fstype == "ext4"@ && target == "/"@ {
        Some(seq!["mkfs.ext4"@, "-F"@, "-O"@, "verity"@])
    } else if fstype == "ext4"@ {
        Some(seq!["mkfs.ext4"@, "-F"@])
    } else if fstype == "xfs"@ {
        Some(seq!["mkfs.xfs"@, "-f"@])
    } else if fstype == "btrfs"@ {
        Some(seq!["mkfs.btrfs"@, "-f"@])
    } else if fat(fstype) {
        Some(seq!["mkfs.fat"@, "-F"@, "32"@])
    } else {
        None
    }
}

pub open spec fn strs_view(v: Seq<&'static str>) -> Seq<Seq<char>> {
    v.map_values(|s: &'static str| s@)
}

/// Gives the command that writes one filesystem, or names the filesystem
/// the installer cannot write.
pub fn mkfs_args(fstype: &str, target: &str) -> (out: Result<Vec<&'static str>, String>)
    ensures
        match mkfs_spec(fstype@, target@) {
            Some(args) => out matches Ok(v) && strs_view(v@) == args,
            None => out matches Err(why) && why@ == target@ + " cannot be formatted as "@
                + crate::text::debug_str(fstype@) + "; the installer writes btrfs, ext4, xfs and fat32"@,
        },
{
    let out: Vec<&'static str> = if str_eq(fstype, "ext4") && str_eq(target, "/") {
        vec!["mkfs.ext4", "-F", "-O", "verity"]
    } else if str_eq(fstype, "ext4") {
        vec!["mkfs.ext4", "-F"]
    } else if str_eq(fstype, "xfs") {
        vec!["mkfs.xfs", "-f"]
    } else if str_eq(fstype, "btrfs") {
        vec!["mkfs.btrfs", "-f"]
    } else if is_fat(fstype) {
        vec!["mkfs.fat", "-F", "32"]
    } else {
        return Err(copy::unformattable(fstype, target));
    };
    assert(strs_view(out@) =~= mkfs_spec(fstype@, target@)->0);
    Ok(out)
}

/// Each filesystem the plan writes, as its format and its mount point: the
/// formatted mounts, every create, and the root filesystem inside an opened
/// root container.
pub open spec fn planned_spec(layout: CustomLayout, root_fs: Seq<char>) -> Seq<(Seq<char>, Seq<char>)> {
    layout.mounts@.filter(|m: CustomMount| m.fstype@ != "unformatted"@).map_values(
        |m: CustomMount| (m.fstype@, m.target@),
    ) + layout.creates@.map_values(|c: Created| (c.fstype@, c.target@)) + layout.opens@.filter(
        |o: LuksOpen| o.target@ == "/"@,
    ).map_values(|o: LuksOpen| (root_fs, "/"@))
}

fn push_pair(out: &mut Vec<(String, String)>, a: &str, b: &str)
    ensures
        final(out).deep_view() == old(out).deep_view().push((a@, b@)),
{
    let ghost before = out.deep_view();
    out.push((owned(a), owned(b)));
    assert(out.deep_view() =~= before.push((a@, b@)));
}

/// Lists each filesystem the plan writes, as its format and its mount point.
/// A created container's filesystem is listed too, so the check before the
/// cut covers it.
pub fn planned_formats(layout: &CustomLayout, root_fs: &str) -> (out: Vec<(String, String)>)
    ensures
        out.deep_view() == planned_spec(*layout, root_fs@),
{
    let ghost keep_m = |m: CustomMount| m.fstype@ != "unformatted"@;
    let ghost view_m = |m: CustomMount| (m.fstype@, m.target@);
    let ghost keep_o = |o: LuksOpen| o.target@ == "/"@;
    let ghost view_o = |o: LuksOpen| (root_fs@, "/"@);
    let mut out: Vec<(String, String)> = Vec::new();
    let mut i: usize = 0;
    while i < layout.mounts.len()
        invariant
            i <= layout.mounts.len(),
            keep_m == (|m: CustomMount| m.fstype@ != "unformatted"@),
            view_m == (|m: CustomMount| (m.fstype@, m.target@)),
            out.deep_view() == layout.mounts@.take(i as int).filter(keep_m).map_values(view_m),
        decreases layout.mounts.len() - i,
    {
        let m = &layout.mounts[i];
        proof {
            reveal(Seq::filter);
            assert(layout.mounts@.take(i + 1).drop_last() =~= layout.mounts@.take(i as int));
        }
        if !str_eq(m.fstype.as_str(), "unformatted") {
            push_pair(&mut out, m.fstype.as_str(), m.target.as_str());
            proof {
                assert(layout.mounts@.take(i + 1).filter(keep_m) =~= layout.mounts@.take(i as int).filter(keep_m).push(*m));
                assert(out.deep_view() =~= layout.mounts@.take(i + 1).filter(keep_m).map_values(view_m));
            }
        } else {
            assert(layout.mounts@.take(i + 1).filter(keep_m) =~= layout.mounts@.take(i as int).filter(keep_m));
        }
        i = i + 1;
    }
    assert(layout.mounts@.take(i as int) =~= layout.mounts@);
    let ghost after_mounts = out.deep_view();
    let mut c: usize = 0;
    while c < layout.creates.len()
        invariant
            c <= layout.creates.len(),
            out.deep_view() == after_mounts + layout.creates@.take(c as int).map_values(
                |x: Created| (x.fstype@, x.target@),
            ),
        decreases layout.creates.len() - c,
    {
        let x = &layout.creates[c];
        push_pair(&mut out, x.fstype.as_str(), x.target.as_str());
        assert(layout.creates@.take(c + 1).map_values(|x: Created| (x.fstype@, x.target@)) =~= layout.creates@.take(
            c as int,
        ).map_values(|x: Created| (x.fstype@, x.target@)).push((x.fstype@, x.target@)));
        c = c + 1;
    }
    assert(layout.creates@.take(c as int) =~= layout.creates@);
    let ghost after_creates = out.deep_view();
    let mut o: usize = 0;
    while o < layout.opens.len()
        invariant
            o <= layout.opens.len(),
            keep_o == (|o: LuksOpen| o.target@ == "/"@),
            view_o == (|o: LuksOpen| (root_fs@, "/"@)),
            out.deep_view() == after_creates + layout.opens@.take(o as int).filter(keep_o).map_values(view_o),
        decreases layout.opens.len() - o,
    {
        let x = &layout.opens[o];
        proof {
            reveal(Seq::filter);
            assert(layout.opens@.take(o + 1).drop_last() =~= layout.opens@.take(o as int));
        }
        if str_eq(x.target.as_str(), "/") {
            push_pair(&mut out, root_fs, "/");
            proof {
                assert(layout.opens@.take(o + 1).filter(keep_o) =~= layout.opens@.take(o as int).filter(keep_o).push(*x));
                assert(out.deep_view() =~= after_creates + layout.opens@.take(o + 1).filter(keep_o).map_values(view_o));
            }
        } else {
            assert(layout.opens@.take(o + 1).filter(keep_o) =~= layout.opens@.take(o as int).filter(keep_o));
        }
        o = o + 1;
    }
    assert(layout.opens@.take(o as int) =~= layout.opens@);
    out
}

/// One planned partition as plain values: size, offset, mount point,
/// format, label, node, and whether it is encrypted and found by type.
pub open spec fn created_view(c: Created) -> (u64, u64, Seq<char>, Seq<char>, Seq<char>, Seq<char>, bool, bool) {
    (c.gb, c.offset, c.target@, c.fstype@, c.label@, c.device@, c.encrypt, c.discoverable)
}

pub open spec fn creates_view(cs: Seq<Created>) -> Seq<(u64, u64, Seq<char>, Seq<char>, Seq<char>, Seq<char>, bool, bool)> {
    cs.map_values(|c: Created| created_view(c))
}

/// A partition the whole-disk plan cuts at the front of the free space.
fn planned(gb: u64, target: &str, fstype: &str, label: &str, encrypt: bool, discoverable: bool) -> (c: Created)
    ensures
        created_view(c) == (gb, 0u64, target@, fstype@, label@, Seq::<char>::empty(), encrypt, discoverable),
{
    Created {
        gb,
        offset: 0,
        target: owned(target),
        fstype: owned(fstype),
        label: owned(label),
        device: String::new(),
        encrypt,
        discoverable,
    }
}

/// The partitions a whole-disk plan cuts ahead of the root: the ESP, then a
/// `/boot` for a GRUB target.
pub open spec fn head_creates(boot: bool) -> Seq<(u64, u64, Seq<char>, Seq<char>, Seq<char>, Seq<char>, bool, bool)> {
    seq![(ESP_GB, 0u64, "/boot/efi"@, "fat32"@, "EFI-SYSTEM"@, Seq::<char>::empty(), false, false)] + if boot {
        seq![(BOOT_GB, 0u64, "/boot"@, "ext4"@, "boot"@, Seq::<char>::empty(), false, false)]
    } else {
        seq![]
    }
}

/// Which refusal the whole-disk plan meets first, if any: a bootloader the
/// installer cannot lay out for (an empty one reads as `grub2`), a recipe with no root filesystem, or a root
/// the remaining space cannot hold.
pub open spec fn whole_disk_refusal(payload: Payload, rest: u64) -> Option<Seq<char>> {
    if payload.bootloader@.len() != 0 && payload.bootloader@ != "grub2"@ && payload.bootloader@ != "systemd"@ {
        Some("the recipe's `bootloader` is "@ + crate::text::debug_str(payload.bootloader@)
            + "; the installer lays out a disk for `grub2` or `systemd`"@)
    } else if payload.filesystem@.len() == 0 {
        Some(copy::NO_ROOT_FILESYSTEM@)
    } else if rest < reserve_of(payload.image_gb) {
        Some("a "@ + crate::text::decimal(rest as nat) + " GB root is below the "@ + crate::text::decimal(
            reserve_of(payload.image_gb) as nat,
        ) + " GB this image needs"@)
    } else {
        None
    }
}

/// The nodes of every slot the disk carries.
pub open spec fn slot_nodes(slots: Seq<Slot>) -> Seq<Seq<char>> {
    slots.map_values(|s: Slot| s.node@)
}

/// What placing a plan reads of each create: its size and its offset.
pub open spec fn sizes_of(cs: Seq<Created>) -> Seq<(u64, u64)> {
    cs.map_values(|c: Created| (c.gb, c.offset))
}

/// The sizes of the partitions a whole-disk plan cuts ahead of the root.
pub open spec fn head_sizes(boot: bool) -> Seq<(u64, u64)> {
    if boot {
        seq![(ESP_GB, 0u64), (BOOT_GB, 0u64)]
    } else {
        seq![(ESP_GB, 0u64)]
    }
}

/// The largest whole GB left once the ESP and any `/boot` are placed on a
/// disk whose every slot is deleted. Placement reads only each create's size
/// and offset, so any creates of those sizes give this room.
pub open spec fn head_rest(table: crate::table::DiskTable, deletes: Seq<Seq<char>>, boot: bool) -> u64 {
    rooms_of(table, deletes, choose|cs: Seq<Created>| sizes_of(cs) == head_sizes(boot)).largest
}

/// Placing creates reads nothing of them but their sizes and offsets.
pub proof fn lemma_place_reads_sizes(sector: u64, free: Seq<crate::table::Region>, a: Seq<Created>, b: Seq<Created>)
    requires
        sizes_of(a) == sizes_of(b),
    ensures
        crate::table::place_all(sector, free, a) == crate::table::place_all(sector, free, b),
    decreases a.len(),
{
    assert(a.len() == sizes_of(a).len());
    assert(b.len() == sizes_of(b).len());
    if a.len() > 0 {
        assert(sizes_of(a)[0] == (a[0].gb, a[0].offset));
        assert(sizes_of(b)[0] == (b[0].gb, b[0].offset));
        assert(sizes_of(a.drop_first()) =~= sizes_of(a).drop_first());
        assert(sizes_of(b.drop_first()) =~= sizes_of(b).drop_first());
        match crate::table::place_one(sector, free, a[0].offset, a[0].gb) {
            Some((start, left)) => lemma_place_reads_sizes(sector, left, a.drop_first(), b.drop_first()),
            None => {},
        }
    }
}

/// The room is the same for any two plans of the same sizes.
pub proof fn lemma_rooms_read_sizes(table: crate::table::DiskTable, deletes: Seq<Seq<char>>, a: Seq<Created>, b: Seq<Created>)
    requires
        sizes_of(a) == sizes_of(b),
    ensures
        rooms_of(table, deletes, a) == rooms_of(table, deletes, b),
{
    lemma_place_reads_sizes(table.sector, table.free_spans(deletes), a, b);
}

/// Builds the plan a whole-disk answer cuts from `state`, the disk as it was
/// read. The plan deletes every partition and writes a fresh GPT label. It
/// cuts the ESP first, then an ext4 `/boot` for a GRUB target (an empty
/// bootloader reads as `grub2`), because GRUB
/// cannot read every root filesystem an image may name. The root takes the
/// largest free room left, in whole GB, so it can fall short of the disk's
/// end by less than one GB; it is refused where that is below the room the
/// image needs.
pub fn whole_disk(disk: &str, payload: &Payload, encryption: &Encryption, state: DiskState) -> (out: Result<CustomLayout, String>)
    requires
        state.table.addressable(),
        payload.measured(),
    ensures
        ({
            let boot = payload.bootloader@ == "grub2"@ || payload.bootloader@.len() == 0;
            let deletes = slot_nodes(state.table.slots@);
            let rest = head_rest(state.table, deletes, boot);
            match whole_disk_refusal(*payload, rest) {
                Some(why) => out matches Err(w) && w@ == why,
                None => out matches Ok(l) && l.disk@ == disk@ && l.deletes.deep_view() == deletes
                    && creates_view(l.creates@) == head_creates(boot).push(
                    (rest, 0u64, "/"@, payload.filesystem@, "root"@, Seq::<char>::empty(),
                    encryption.kind@ != copy::NONE@, by_type(*payload)))
                    && l.mounts@.len() == 0 && l.opens@.len() == 0 && l.renames@.len() == 0
                    && l.esp@.len() == 0 && l.confirmed == Some(state),
            }
        }),
{
    let boot = if str_eq(payload.bootloader.as_str(), "grub2") || payload.bootloader.as_str().is_empty() {
        true
    } else if str_eq(payload.bootloader.as_str(), "systemd") {
        false
    } else {
        return Err(copy::unknown_bootloader(payload.bootloader.as_str()));
    };
    if payload.filesystem.as_str().is_empty() {
        return Err(owned(copy::NO_ROOT_FILESYSTEM));
    }
    let mut deletes: Vec<String> = Vec::new();
    let mut i: usize = 0;
    while i < state.table.slots.len()
        invariant
            i <= state.table.slots.len(),
            deletes.deep_view() == slot_nodes(state.table.slots@.take(i as int)),
        decreases state.table.slots.len() - i,
    {
        let ghost before = deletes.deep_view();
        deletes.push(state.table.slots[i].node.clone());
        assert(slot_nodes(state.table.slots@.take(i + 1)) =~= before.push(state.table.slots@[i as int].node@));
        i = i + 1;
    }
    assert(state.table.slots@.take(i as int) =~= state.table.slots@);
    let mut creates: Vec<Created> = Vec::new();
    creates.push(planned(ESP_GB, "/boot/efi", "fat32", "EFI-SYSTEM", false, false));
    if boot {
        creates.push(planned(BOOT_GB, "/boot", "ext4", "boot", false, false));
    }
    assert(sizes_of(creates@) =~= head_sizes(boot));
    let rest = create_rooms(&state.table, deletes.as_slice(), creates.as_slice()).largest;
    proof {
        let chosen = choose|cs: Seq<Created>| sizes_of(cs) == head_sizes(boot);
        lemma_rooms_read_sizes(state.table, deletes.deep_view(), creates@, chosen);
    }
    let ghost heads = creates@;
    assert(creates_view(heads) =~= head_creates(boot));
    let reserve = payload.reserve_gb();
    if rest < reserve {
        return Err(copy::custom_root_too_small(rest, reserve));
    }
    let discoverable = found_by_type(payload);
    let root = planned(rest, "/", payload.filesystem.as_str(), "root", !str_eq(encryption.kind.as_str(), copy::NONE), discoverable);
    creates.push(root);
    assert(creates_view(creates@) =~= creates_view(heads).push(created_view(root)));
    Ok(CustomLayout {
        disk: owned(disk),
        mounts: Vec::new(),
        opens: Vec::new(),
        deletes,
        creates,
        renames: Vec::new(),
        esp: Vec::new(),
        confirmed: Some(state),
    })
}

/// The containers the plan creates, each as its partition and the mount
/// point the filesystem inside it takes, in plan order.
pub open spec fn sealed_spec(creates: Seq<Created>) -> Seq<(Seq<char>, Seq<char>)> {
    creates.filter(|c: Created| c.encrypt).map_values(|c: Created| (c.device@, c.target@))
}

pub open spec fn pair_views(v: Seq<(String, String)>) -> Seq<(Seq<char>, Seq<char>)> {
    v.map_values(|p: (String, String)| (p.0@, p.1@))
}

/// Lists the containers the plan creates, each with the mount point of the
/// filesystem it holds.
pub fn sealed_creates(layout: &CustomLayout) -> (sealed: Vec<(String, String)>)
    ensures
        pair_views(sealed@) == sealed_spec(layout.creates@),
{
    let ghost keep = |c: Created| c.encrypt;
    let ghost f = |c: Created| (c.device@, c.target@);
    let mut sealed: Vec<(String, String)> = Vec::new();
    let mut i: usize = 0;
    while i < layout.creates.len()
        invariant
            i <= layout.creates@.len(),
            keep == (|c: Created| c.encrypt),
            f == (|c: Created| (c.device@, c.target@)),
            pair_views(sealed@) == layout.creates@.take(i as int).filter(keep).map_values(f),
        decreases layout.creates.len() - i,
    {
        proof {
            reveal(Seq::filter);
            assert(layout.creates@.take(i + 1).drop_last() =~= layout.creates@.take(i as int));
        }
        let create = &layout.creates[i];
        if create.encrypt {
            let ghost before = pair_views(sealed@);
            sealed.push((owned(create.device.as_str()), owned(create.target.as_str())));
            assert(layout.creates@.take(i + 1).filter(keep) =~= layout.creates@.take(i as int).filter(keep).push(
                *create,
            ));
            assert(pair_views(sealed@) =~= before.push((create.device@, create.target@)));
            assert(layout.creates@.take(i as int).filter(keep).push(*create).map_values(f)
                =~= layout.creates@.take(i as int).filter(keep).map_values(f).push(f(*create)));
            assert(pair_views(sealed@) =~= layout.creates@.take(i + 1).filter(keep).map_values(f));
        } else {
            assert(layout.creates@.take(i + 1).filter(keep) =~= layout.creates@.take(i as int).filter(keep));
        }
        i = i + 1;
    }
    assert(layout.creates@.take(i as int) =~= layout.creates@);
    sealed
}

/// The key a created container is sealed with where the answer names one:
/// the passphrase a kind named for one owes. Every other kind is sealed with
/// a generated key, which the last screen shows as the recovery key.
pub fn seal_passphrase(encryption: &Encryption) -> (key: Option<String>)
    ensures
        match key {
            Some(k) => "passphrase"@.is_suffix_of(encryption.kind@) && k@ == encryption.passphrase@,
            None => !"passphrase"@.is_suffix_of(encryption.kind@),
        },
{
    if Encryption::wants_passphrase(encryption.kind.as_str()) {
        Some(owned(encryption.passphrase.as_str()))
    } else {
        None
    }
}

/// Opens every sealed container with the key it was sealed with, after the
/// containers the plan already opens.
pub fn open_sealed(layout: &mut CustomLayout, sealed: &Vec<(String, String)>, key: &str)
    ensures
        final(layout).disk == old(layout).disk && final(layout).mounts == old(layout).mounts
            && final(layout).deletes == old(layout).deletes && final(layout).creates
            == old(layout).creates && final(layout).renames == old(layout).renames && final(layout).esp
            == old(layout).esp && final(layout).confirmed == old(layout).confirmed,
        final(layout).opens@.len() == old(layout).opens@.len() + sealed@.len(),
        final(layout).opens@.take(old(layout).opens@.len() as int) == old(layout).opens@,
        forall|i: int| 0 <= i < sealed@.len() ==> {
            let o = #[trigger] final(layout).opens@[old(layout).opens@.len() + i];
            o.partition@ == sealed@[i].0@ && o.target@ == sealed@[i].1@ && o.key.view_of() == (
                0int,
                key@,
                Seq::<u8>::empty(),
            )
        },
{
    let ghost start = layout.opens@;
    let mut i: usize = 0;
    while i < sealed.len()
        invariant
            i <= sealed@.len(),
            layout.disk == old(layout).disk && layout.mounts == old(layout).mounts && layout.deletes
                == old(layout).deletes && layout.creates == old(layout).creates && layout.renames
                == old(layout).renames && layout.esp == old(layout).esp && layout.confirmed
                == old(layout).confirmed,
            start == old(layout).opens@,
            layout.opens@.len() == start.len() + i,
            layout.opens@.take(start.len() as int) == start,
            forall|j: int| 0 <= j < i ==> {
                let o = #[trigger] layout.opens@[start.len() + j];
                o.partition@ == sealed@[j].0@ && o.target@ == sealed@[j].1@ && o.key.view_of() == (
                    0int,
                    key@,
                    Seq::<u8>::empty(),
                )
            },
        decreases sealed.len() - i,
    {
        let ghost before = layout.opens@;
        let open = LuksOpen {
            partition: owned(sealed[i].0.as_str()),
            target: owned(sealed[i].1.as_str()),
            key: Key::Passphrase(owned(key)),
        };
        layout.opens.push(open);
        assert(layout.opens@.take(start.len() as int) =~= before.take(start.len() as int));
        assert forall|j: int| 0 <= j < i + 1 implies {
            let o = #[trigger] layout.opens@[start.len() + j];
            o.partition@ == sealed@[j].0@ && o.target@ == sealed@[j].1@ && o.key.view_of() == (
                0int,
                key@,
                Seq::<u8>::empty(),
            )
        } by {
            if j < i {
                assert(layout.opens@[start.len() + j] == before[start.len() + j]);
            }
        }
        i = i + 1;
    }
}

/// One filesystem the install writes or mounts. `format` names the
/// filesystem to write; `None` leaves the device's filesystem in place.
pub struct Volume {
    pub device: String,
    pub target: String,
    pub format: Option<String>,
}

pub open spec fn volume_view(v: Volume) -> (Seq<char>, Seq<char>, Option<Seq<char>>) {
    (v.device@, v.target@, match v.format { Some(f) => Some(f@), None => None })
}

pub open spec fn volumes_view(vs: Seq<Volume>) -> Seq<(Seq<char>, Seq<char>, Option<Seq<char>>)> {
    vs.map_values(|v: Volume| volume_view(v))
}

/// The node an opened container's filesystem is read at.
pub fn mapper_path(name: &str) -> (path: String)
    ensures
        path@ == "/dev/mapper/"@ + name@,
{
    cat("/dev/mapper/", name)
}

/// Whether a create is the container behind the partition `device`.
pub open spec fn seals(device: Seq<char>) -> spec_fn(Created) -> bool {
    |c: Created| c.encrypt && c.device@ == device
}

/// What an opened container's filesystem is made as: the format its create
/// names where the plan created it, the image's root filesystem inside an
/// opened root, and nothing for any other container, which keeps its
/// filesystem.
pub open spec fn opened_format(creates: Seq<Created>, open: LuksOpen, root_fs: Seq<char>) -> Option<Seq<char>> {
    match first_where(creates, seals(open.partition@)) {
        Some(i) => Some(creates[i].fstype@),
        None => if open.target@ == "/"@ { Some(root_fs) } else { None },
    }
}

/// Every filesystem the layout places: the answered partitions, the plain
/// creates, and each opened container through its mapper, whose partition
/// holds only a LUKS header.
pub open spec fn volumes_spec(layout: CustomLayout, root_fs: Seq<char>) -> Seq<(Seq<char>, Seq<char>, Option<Seq<char>>)> {
    layout.mounts@.map_values(
        |m: CustomMount| (m.partition@, m.target@, if m.fstype@ == "unformatted"@ { None } else { Some(m.fstype@) }),
    ) + layout.creates@.filter(|c: Created| !c.encrypt).map_values(
        |c: Created| (c.device@, c.target@, Some(c.fstype@)),
    ) + Seq::new(
        layout.opens@.len(),
        |i: int| (
            "/dev/mapper/"@ + "tect-"@ + crate::text::decimal((i + 1) as nat),
            layout.opens@[i].target@,
            opened_format(layout.creates@, layout.opens@[i], root_fs),
        ),
    )
}

fn push_volume(out: &mut Vec<Volume>, device: String, target: &str, format: Option<String>)
    ensures
        volumes_view(final(out)@) == volumes_view(old(out)@).push(
            (device@, target@, match format { Some(f) => Some(f@), None => None }),
        ),
{
    let v = Volume { device, target: owned(target), format };
    out.push(v);
    assert(volumes_view(out@) =~= volumes_view(old(out)@).push(volume_view(v)));
}

/// Finds the create behind an opened container.
fn sealing_create(creates: &Vec<Created>, device: &str) -> (at: Option<usize>)
    ensures
        match at {
            Some(k) => k < creates@.len() && first_where(creates@, seals(device@)) == Some(k as int),
            None => first_where(creates@, seals(device@)) is None,
        },
{
    let ghost p = seals(device@);
    let mut i: usize = 0;
    while i < creates.len()
        invariant
            i <= creates.len(),
            p == seals(device@),
            forall|j: int| 0 <= j < i ==> !p(#[trigger] creates@[j]),
        decreases creates.len() - i,
    {
        if creates[i].encrypt && str_eq(creates[i].device.as_str(), device) {
            proof {
                lemma_first_where(creates@, p, i as int);
            }
            return Some(i);
        }
        i = i + 1;
    }
    proof {
        lemma_first_where(creates@, p, i as int);
    }
    None
}

/// Lists every filesystem the layout places. A created container is listed
/// through its mapper, because its partition holds only a LUKS header.
pub fn volumes(layout: &CustomLayout, root_fs: &str) -> (out: Vec<Volume>)
    ensures
        volumes_view(out@) == volumes_spec(*layout, root_fs@),
{
    let mut out: Vec<Volume> = Vec::new();
    let ghost fm = |m: CustomMount| (m.partition@, m.target@, if m.fstype@ == "unformatted"@ { None } else { Some(m.fstype@) });
    let mut i: usize = 0;
    while i < layout.mounts.len()
        invariant
            i <= layout.mounts.len(),
            fm == (|m: CustomMount| (m.partition@, m.target@, if m.fstype@ == "unformatted"@ { None } else { Some(m.fstype@) })),
            volumes_view(out@) == layout.mounts@.take(i as int).map_values(fm),
        decreases layout.mounts.len() - i,
    {
        let m = &layout.mounts[i];
        let format = if str_eq(m.fstype.as_str(), "unformatted") { None } else { Some(m.fstype.clone()) };
        push_volume(&mut out, m.partition.clone(), m.target.as_str(), format);
        assert(layout.mounts@.take(i + 1).map_values(fm) =~= layout.mounts@.take(i as int).map_values(fm).push(fm(*m)));
        i = i + 1;
    }
    assert(layout.mounts@.take(i as int) =~= layout.mounts@);
    let ghost after_mounts = volumes_view(out@);
    let ghost keep = |c: Created| !c.encrypt;
    let ghost fc = |c: Created| (c.device@, c.target@, Some(c.fstype@));
    let mut c: usize = 0;
    while c < layout.creates.len()
        invariant
            c <= layout.creates.len(),
            keep == (|c: Created| !c.encrypt),
            fc == (|c: Created| (c.device@, c.target@, Some(c.fstype@))),
            volumes_view(out@) == after_mounts + layout.creates@.take(c as int).filter(keep).map_values(fc),
        decreases layout.creates.len() - c,
    {
        let x = &layout.creates[c];
        proof {
            reveal(Seq::filter);
            assert(layout.creates@.take(c + 1).drop_last() =~= layout.creates@.take(c as int));
        }
        if !x.encrypt {
            push_volume(&mut out, x.device.clone(), x.target.as_str(), Some(x.fstype.clone()));
            proof {
                assert(layout.creates@.take(c + 1).filter(keep) =~= layout.creates@.take(c as int).filter(keep).push(*x));
                assert(volumes_view(out@) =~= after_mounts + layout.creates@.take(c + 1).filter(keep).map_values(fc));
            }
        } else {
            assert(layout.creates@.take(c + 1).filter(keep) =~= layout.creates@.take(c as int).filter(keep));
        }
        c = c + 1;
    }
    assert(layout.creates@.take(c as int) =~= layout.creates@);
    let ghost after_creates = volumes_view(out@);
    let names = layout.mappers();
    let ghost fo = |i: int| (
        "/dev/mapper/"@ + "tect-"@ + crate::text::decimal((i + 1) as nat),
        layout.opens@[i].target@,
        opened_format(layout.creates@, layout.opens@[i], root_fs@),
    );
    let mut o: usize = 0;
    while o < names.len()
        invariant
            o <= names.len(),
            names@.len() == layout.opens@.len(),
            forall|i: int| 0 <= i < names@.len() ==> (#[trigger] names@[i]).0@ == "tect-"@ + crate::text::decimal(
                (i + 1) as nat,
            ) && *names@[i].1 == layout.opens@[i],
            fo == (|i: int| (
                "/dev/mapper/"@ + "tect-"@ + crate::text::decimal((i + 1) as nat),
                layout.opens@[i].target@,
                opened_format(layout.creates@, layout.opens@[i], root_fs@),
            )),
            volumes_view(out@) == after_creates + Seq::new(o as nat, fo),
        decreases names.len() - o,
    {
        let open = names[o].1;
        let device = mapper_path(names[o].0.as_str());
        let format = match sealing_create(&layout.creates, open.partition.as_str()) {
            Some(k) => Some(layout.creates[k].fstype.clone()),
            None => if str_eq(open.target.as_str(), "/") { Some(owned(root_fs)) } else { None },
        };
        let ghost fv = match &format { Some(f) => Some(f@), None => None };
        assert(fv == opened_format(layout.creates@, layout.opens@[o as int], root_fs@));
        assert(device@ =~= "/dev/mapper/"@ + "tect-"@ + crate::text::decimal((o + 1) as nat));
        push_volume(&mut out, device, open.target.as_str(), format);
        assert(Seq::new((o + 1) as nat, fo) =~= Seq::new(o as nat, fo).push(fo(o as int)));
        o = o + 1;
    }
    assert(volumes_view(out@) =~= volumes_spec(*layout, root_fs@));
    out
}

/// What orders a mount: the length of its mount point, in bytes.
pub open spec fn mount_key(v: Volume) -> nat {
    vstd::utf8::encode_utf8(v.target@).len()
}

/// A volume takes a mount where its target is a path, which swap's is not.
pub open spec fn takes_mount() -> spec_fn(Volume) -> bool {
    |v: Volume| "/"@.is_prefix_of(v.target@) && v.target@ != "/swap"@
}

/// Places `x` after every volume whose key is no greater, so volumes of one
/// key keep their order.
pub open spec fn insert_by_key(s: Seq<Volume>, x: Volume) -> Seq<Volume>
    decreases s.len(),
{
    if s.len() == 0 {
        seq![x]
    } else if mount_key(s.last()) <= mount_key(x) {
        s.push(x)
    } else {
        insert_by_key(s.drop_last(), x).push(s.last())
    }
}

/// The volumes in a stable order by key.
pub open spec fn sort_by_key(s: Seq<Volume>) -> Seq<Volume>
    decreases s.len(),
{
    if s.len() == 0 {
        seq![]
    } else {
        insert_by_key(sort_by_key(s.drop_last()), s.last())
    }
}

/// The order the mounts go in: the volumes that take a mount, shortest
/// mount point first, and in their own order where two are as long.
pub open spec fn mount_order_spec(volumes: Seq<Volume>) -> Seq<Volume> {
    sort_by_key(volumes.filter(takes_mount()))
}

/// Where the insertion scan stops, the insertion is a split there.
pub proof fn lemma_insert_at(s: Seq<Volume>, x: Volume, j: int)
    requires
        0 <= j <= s.len(),
        forall|k: int| j <= k < s.len() ==> mount_key(#[trigger] s[k]) > mount_key(x),
        j == 0 || mount_key(s[j - 1]) <= mount_key(x),
    ensures
        insert_by_key(s, x) == s.take(j).push(x) + s.skip(j),
    decreases s.len(),
{
    if s.len() == j {
        assert(s.take(j) =~= s);
        assert(s.skip(j) =~= Seq::<Volume>::empty());
        if j == 0 {
            assert(insert_by_key(s, x) =~= seq![x]);
        }
    } else {
        let t = s.drop_last();
        assert(mount_key(s[s.len() - 1]) > mount_key(x));
        assert forall|k: int| j <= k < t.len() implies mount_key(#[trigger] t[k]) > mount_key(x) by {
            assert(t[k] == s[k]);
        }
        if j > 0 {
            assert(t[j - 1] == s[j - 1]);
        }
        lemma_insert_at(t, x, j);
        assert(t.take(j) =~= s.take(j));
        assert(t.skip(j).push(s.last()) =~= s.skip(j));
        assert(insert_by_key(s, x) =~= s.take(j).push(x) + s.skip(j));
    }
}

/// Orders the volumes that take a mount. A mount point is longer than the
/// mount point it sits under, so the length orders a parent first. Swap
/// takes no mount point.
pub fn mount_order(volumes: &Vec<Volume>) -> (order: Vec<&Volume>)
    ensures
        order@.map_values(|v: &Volume| *v) == mount_order_spec(volumes@),
{
    let ghost keep = takes_mount();
    let mut order: Vec<&Volume> = Vec::new();
    let mut i: usize = 0;
    while i < volumes.len()
        invariant
            i <= volumes.len(),
            keep == takes_mount(),
            order@.map_values(|v: &Volume| *v) == sort_by_key(volumes@.take(i as int).filter(keep)),
        decreases volumes.len() - i,
    {
        let v = &volumes[i];
        proof {
            reveal(Seq::filter);
            assert(volumes@.take(i + 1).drop_last() =~= volumes@.take(i as int));
        }
        let target = v.target.as_str();
        if starts_with(target, "/") && !str_eq(target, "/swap") {
            let ghost before = order@.map_values(|v: &Volume| *v);
            let key = target.as_bytes().len();
            assert(target@ == v.target@);
            assert(key == mount_key(*v));
            let mut j: usize = order.len();
            while j > 0 && order[j - 1].target.as_str().as_bytes().len() > key
                invariant
                    j <= order@.len(),
                    key == mount_key(*v),
                    before == order@.map_values(|v: &Volume| *v),
                    forall|k: int| j <= k < order@.len() ==> mount_key(#[trigger] before[k]) > mount_key(*v),
                decreases j,
            {
                j = j - 1;
            }
            if j > 0 {
                let other = order[j - 1].target.as_str().as_bytes();
                assert(other@ == vstd::utf8::encode_utf8(before[j - 1].target@));
                assert(other.len() == mount_key(before[j - 1]));
            }
            proof {
                lemma_insert_at(before, *v, j as int);
            }
            order.insert(j, v);
            proof {
                let filtered = volumes@.take(i + 1).filter(keep);
                assert(filtered =~= volumes@.take(i as int).filter(keep).push(*v));
                assert(filtered.drop_last() =~= volumes@.take(i as int).filter(keep));
                assert(order@.map_values(|v: &Volume| *v) =~= before.take(j as int).push(*v) + before.skip(j as int));
            }
        } else {
            assert(volumes@.take(i + 1).filter(keep) =~= volumes@.take(i as int).filter(keep));
        }
        i = i + 1;
    }
    assert(volumes@.take(i as int) =~= volumes@);
    order
}

pub open spec fn key_sorted(s: Seq<Volume>) -> bool {
    forall|i: int, j: int| 0 <= i < j < s.len() ==> mount_key(#[trigger] s[i]) <= mount_key(#[trigger] s[j])
}

proof fn lemma_insert_sorted(s: Seq<Volume>, x: Volume)
    requires
        key_sorted(s),
    ensures
        key_sorted(insert_by_key(s, x)),
        insert_by_key(s, x).len() == s.len() + 1,
        forall|k: int| 0 <= k < insert_by_key(s, x).len() ==> mount_key(#[trigger] insert_by_key(s, x)[k]) == mount_key(x)
            || s.contains(insert_by_key(s, x)[k]),
    decreases s.len(),
{
    if s.len() > 0 && mount_key(s.last()) > mount_key(x) {
        let t = s.drop_last();
        assert(key_sorted(t)) by {
            assert forall|i: int, j: int| 0 <= i < j < t.len() implies mount_key(#[trigger] t[i]) <= mount_key(#[trigger] t[j]) by {
                assert(t[i] == s[i] && t[j] == s[j]);
            }
        }
        lemma_insert_sorted(t, x);
        let r = insert_by_key(t, x);
        assert forall|k: int| 0 <= k < r.len() implies mount_key(#[trigger] r[k]) <= mount_key(s.last()) by {
            if mount_key(r[k]) != mount_key(x) {
                assert(t.contains(r[k]));
                let m = choose|m: int| 0 <= m < t.len() && t[m] == r[k];
                assert(s[m] == t[m]);
            }
        }
        assert forall|k: int| 0 <= k < r.push(s.last()).len() implies mount_key(#[trigger] r.push(s.last())[k]) == mount_key(x)
            || s.contains(r.push(s.last())[k]) by {
            if k < r.len() {
                if mount_key(r[k]) != mount_key(x) {
                    let m = choose|m: int| 0 <= m < t.len() && t[m] == r[k];
                    assert(s[m] == t[m]);
                }
            } else {
                assert(s[s.len() - 1] == s.last());
            }
        }
    } else if s.len() > 0 {
        assert forall|k: int| 0 <= k < s.push(x).len() implies mount_key(#[trigger] s.push(x)[k]) == mount_key(x)
            || s.contains(s.push(x)[k]) by {
            if k < s.len() {
                assert(s.push(x)[k] == s[k]);
            }
        }
    }
}

proof fn lemma_sort_sorted(s: Seq<Volume>)
    ensures
        key_sorted(sort_by_key(s)),
    decreases s.len(),
{
    if s.len() > 0 {
        lemma_sort_sorted(s.drop_last());
        lemma_insert_sorted(sort_by_key(s.drop_last()), s.last());
    }
}

/// A volume mounts no later than any volume whose mount point is longer,
/// so a parent directory is mounted before what is mounted inside it.
pub proof fn lemma_mount_parents_first(volumes: Seq<Volume>)
    ensures
        key_sorted(mount_order_spec(volumes)),
{
    lemma_sort_sorted(volumes.filter(takes_mount()));
}

/// The mapper of every opened container is listed after the answered
/// partitions and the plain creates, at its mount point. A container the
/// plan created takes a format a create sealing it names; any other
/// container opened as `/` takes the image's root filesystem, because bootc
/// installs only onto an empty root; every other opened container keeps
/// the filesystem it holds.
pub proof fn lemma_opened_volume(layout: CustomLayout, root_fs: Seq<char>, i: int)
    requires
        0 <= i < layout.opens@.len(),
    ensures
        ({
            let at = layout.mounts@.len() + layout.creates@.filter(|c: Created| !c.encrypt).len() + i;
            let v = volumes_spec(layout, root_fs);
            let open = layout.opens@[i];
            let sealed = exists|k: int| 0 <= k < layout.creates@.len() && (#[trigger] layout.creates@[k]).encrypt
                && layout.creates@[k].device@ == open.partition@;
            &&& at < v.len()
            &&& v[at].1 == open.target@
            &&& !sealed && open.target@ == "/"@ ==> v[at].2 == Some(root_fs)
            &&& !sealed && open.target@ != "/"@ ==> v[at].2 is None
            &&& sealed ==> exists|k: int| 0 <= k < layout.creates@.len() && (#[trigger] layout.creates@[k]).encrypt
                && layout.creates@[k].device@ == open.partition@ && v[at].2 == Some(layout.creates@[k].fstype@)
        }),
{
    let open = layout.opens@[i];
    crate::seqs::lemma_first_where_found(layout.creates@, seals(open.partition@));
    let sealed = exists|k: int| 0 <= k < layout.creates@.len() && (#[trigger] layout.creates@[k]).encrypt
        && layout.creates@[k].device@ == open.partition@;
    if !sealed {
        assert forall|k: int| 0 <= k < layout.creates@.len() implies !seals(open.partition@)(#[trigger] layout.creates@[k]) by {}
    }
    match first_where(layout.creates@, seals(open.partition@)) {
        Some(k) => {
            assert(seals(open.partition@)(layout.creates@[k]));
        },
        None => {
            if sealed {
                let k = choose|k: int| 0 <= k < layout.creates@.len() && (#[trigger] layout.creates@[k]).encrypt
                    && layout.creates@[k].device@ == open.partition@;
                assert(seals(open.partition@)(layout.creates@[k]));
            }
        },
    }
}

} // verus!
