use installer::answers::{Created, CustomLayout, Rename};
use installer::copy::custom_too_big;
use installer::table::{
    appended_slots, create_holes, create_rooms, cut_plan, partition_number, within_reach,
    DiskTable, Slot,
};

/// A 64 GB GPT disk in 512-byte sectors: a 512 MiB ESP, then a 30 GiB root,
/// then free space to the end.
fn disk() -> DiskTable {
    DiskTable {
        first: 2048,
        last: 124_999_966,
        sector: 512,
        label: "gpt".to_string(),
        slots: vec![
            Slot { node: "/dev/vda1".to_string(), number: 1, start: 2048, sectors: 1_048_576 },
            Slot {
                node: "/dev/vda2".to_string(),
                number: 2,
                start: 1_050_624,
                sectors: 62_914_560,
            },
        ],
    }
}

fn create(gb: u64, target: &str, label: &str) -> Created {
    Created {
        gb,
        offset: 0,
        target: target.to_string(),
        fstype: "ext4".to_string(),
        label: label.to_string(),
        device: String::new(),
        encrypt: false,
        discoverable: false,
    }
}

#[test]
fn a_partition_number_is_the_trailing_digits() {
    assert_eq!(partition_number("/dev/nvme0n1p12"), Ok(12));
    assert_eq!(partition_number("/dev/vda3"), Ok(3));
    assert_eq!(
        partition_number("/dev/mapper/root"),
        Err("/dev/mapper/root names no partition number".to_string())
    );
}

/// `sfdisk --append` takes the lowest free numbers, so a hole a delete left
/// is filled before the table grows.
#[test]
fn appends_take_the_lowest_free_numbers() {
    assert_eq!(appended_slots(&[1, 3], 3), vec![2, 4, 5]);
    assert_eq!(appended_slots(&[], 2), vec![1, 2]);
    assert_eq!(appended_slots(&[2, 1], 0), Vec::<usize>::new());
}

#[test]
fn a_plan_that_changes_nothing_writes_nothing() {
    let layout = CustomLayout::empty("/dev/vda");
    let plan = cut_plan(&layout, &disk()).expect("an empty plan");
    assert!(!plan.cleared);
    assert!(plan.delete_devices.is_empty() && plan.numbers.is_empty());
    assert!(plan.append.is_empty() && plan.rename_numbers.is_empty());
}

/// A delete frees its slot and its span, and the create that follows takes
/// both: the number the delete freed and the first aligned sector after the
/// kept partition.
#[test]
fn a_replaced_root_takes_the_freed_slot_and_span() {
    let mut layout = CustomLayout::empty("/dev/vda");
    layout.deletes.push("/dev/vda2".to_string());
    layout.creates.push(create(10, "/", "root"));
    layout.renames.push(Rename { partition: "/dev/vda1".to_string(), label: "esp".to_string() });
    let plan = cut_plan(&layout, &disk()).expect("the plan fits");
    assert!(!plan.cleared);
    assert_eq!(plan.delete_devices, vec!["/dev/vda2".to_string()]);
    assert_eq!(plan.delete_numbers, vec![2]);
    assert_eq!(plan.numbers, vec![2]);
    assert_eq!(plan.append, "start=1050624, size=10GB, type=L, name=\"root\"\n");
    assert_eq!(plan.rename_numbers, vec![1]);
    assert_eq!(plan.rename_labels, vec!["esp".to_string()]);
}

/// A plan that removes every partition writes a fresh label instead of one
/// delete each, and its creates number from 1. The ESP is typed so firmware
/// finds it.
#[test]
fn a_cleared_disk_gets_a_fresh_label_and_numbers_from_one() {
    let mut layout = CustomLayout::empty("/dev/vda");
    layout.deletes.push("/dev/vda1".to_string());
    layout.deletes.push("/dev/vda2".to_string());
    layout.creates.push(create(1, "/boot/efi", ""));
    layout.creates.push(create(20, "/", ""));
    let plan = cut_plan(&layout, &disk()).expect("the plan fits");
    assert!(plan.cleared);
    assert!(plan.delete_devices.is_empty() && plan.delete_numbers.is_empty());
    assert_eq!(plan.numbers, vec![1, 2]);
    assert_eq!(
        plan.append,
        "start=2048, size=1GB, type=U\nstart=1955840, size=20GB, type=L\n"
    );
}

#[test]
fn a_dos_disk_takes_no_create_beside_what_it_keeps() {
    let mut table = disk();
    table.label = "dos".to_string();
    let mut layout = CustomLayout::empty("/dev/vda");
    layout.creates.push(create(5, "/home", ""));
    let refused = cut_plan(&layout, &table).err().expect("a refusal");
    assert_eq!(refused, "this disk has a dos partition table: clear it to use GPT");
    // Deleting alone needs no GPT.
    let mut layout = CustomLayout::empty("/dev/vda");
    layout.deletes.push("/dev/vda2".to_string());
    assert!(cut_plan(&layout, &table).is_ok());
}

#[test]
fn an_unnumbered_delete_or_rename_is_refused_before_any_write() {
    let mut layout = CustomLayout::empty("/dev/vda");
    layout.deletes.push("/dev/mapper/data".to_string());
    assert_eq!(
        cut_plan(&layout, &disk()).err(),
        Some("/dev/mapper/data names no partition number".to_string())
    );
    let mut layout = CustomLayout::empty("/dev/vda");
    layout.renames.push(Rename { partition: "/dev/vda".to_string(), label: "x".to_string() });
    assert_eq!(
        cut_plan(&layout, &disk()).err(),
        Some("/dev/vda names no partition number".to_string())
    );
}

/// A create larger than any free span refuses with the largest room, the
/// same figure the create window offers.
#[test]
fn a_create_the_disk_cannot_hold_states_the_largest_room() {
    let mut layout = CustomLayout::empty("/dev/vda");
    layout.creates.push(create(1000, "/data", ""));
    let rooms = create_rooms(&disk(), &layout.deletes, &layout.creates);
    assert_eq!(rooms.first, 0);
    assert_eq!(rooms.largest, 31);
    assert_eq!(cut_plan(&layout, &disk()).err(), Some(custom_too_big(31)));
    assert_eq!(custom_too_big(31), "only 31 GB is free in the largest free region");
}

#[test]
fn the_bar_names_the_partitions_around_each_free_span() {
    let names = vec![(1, "vda1".to_string()), (2, "vda2".to_string())];
    let holes = create_holes(&disk(), &[], &[], &names);
    assert_eq!(holes.len(), 1);
    assert_eq!(holes[0].before.as_deref(), Some("vda2"));
    assert_eq!(holes[0].after, None);
    assert_eq!(holes[0].gb, 31);
    // A delete joins the freed span with the tail.
    let holes = create_holes(&disk(), &["/dev/vda2".to_string()], &[], &names);
    assert_eq!(holes.len(), 1);
    assert_eq!(holes[0].before.as_deref(), Some("vda1"));
    assert_eq!(holes[0].gb, 63);
    // A span smaller than a GB offers no room and draws nothing.
    let holes = create_holes(&disk(), &["/dev/vda1".to_string()], &[], &names);
    assert_eq!(holes.len(), 1);
    assert_eq!(holes[0].before.as_deref(), Some("vda2"));
}

/// A planned partition bounds the span after it, and a slot the names miss
/// draws by its number.
#[test]
fn a_planned_partition_bounds_the_span_after_it() {
    let names = vec![(1, "vda1".to_string())];
    let creates = vec![create(10, "/", "")];
    let holes = create_holes(&disk(), &["/dev/vda2".to_string()], &creates, &names);
    assert_eq!(holes.len(), 1);
    assert_eq!(holes[0].before.as_deref(), Some("2"));
    assert_eq!(holes[0].after, None);
    assert_eq!(holes[0].gb, 53);
    // Creates that no longer fit leave no bar at all.
    let too_big = vec![create(500, "/", "")];
    assert!(create_holes(&disk(), &[], &too_big, &names).is_empty());
}

#[test]
fn a_real_table_is_within_reach() {
    assert!(within_reach(&disk()));
    let mut table = disk();
    table.slots[0].start = u64::MAX - 5;
    assert!(!within_reach(&table));
}
