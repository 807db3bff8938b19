use installer::answers::{Created, CustomLayout, CustomMount};
use installer::copy;
use installer::editor::{automatic_rows, clamp_row, fits, layout_short_of, mount_name, open_points, partition_type_said};
use installer::payload::Payload;
use installer::table::{DiskTable, Slot};

fn payload(bootloader: &str) -> Payload {
    Payload {
        recipe: "r.json".to_string(),
        image: "quay.io/t/os:1".to_string(),
        hostname: "box".to_string(),
        filesystem: "btrfs".to_string(),
        bootloader: bootloader.to_string(),
        boot: String::new(),
        composefs: false,
        image_gb: None,
        luks_initramfs: true,
    }
}

fn strs(rows: Vec<(String, String, String, String, String)>) -> Vec<[String; 5]> {
    rows.into_iter().map(|(a, b, c, d, e)| [a, b, c, d, e]).collect()
}

fn r(a: &str, b: &str, c: &str, d: &str, e: &str) -> [String; 5] {
    [a.to_string(), b.to_string(), c.to_string(), d.to_string(), e.to_string()]
}

/// The root takes what the ESP leaves, and the last row of each level takes
/// the corner glyph.
#[test]
fn the_automatic_plan_gives_the_root_the_rest() {
    assert_eq!(
        strs(automatic_rows(&payload("systemd"), None, "", Some(64), false, false)),
        vec![
            r("\u{251c}\u{2500} EFI-SYSTEM", "2.0 GB", "fat32", "efi", "/boot/efi"),
            r("\u{2514}\u{2500} root", "62.0 GB", "btrfs", "linux", "/"),
        ]
    );
    // GRUB adds a `/boot`, and an unknown disk size leaves the rest unsaid.
    assert_eq!(
        strs(automatic_rows(&payload("grub2"), None, "", None, false, false)),
        vec![
            r("\u{251c}\u{2500} EFI-SYSTEM", "2.0 GB", "fat32", "efi", "/boot/efi"),
            r("\u{251c}\u{2500} boot", "2.0 GB", "ext4", "linux", "/boot"),
            r("\u{2514}\u{2500} root", "the rest", "btrfs", "linux", "/"),
        ]
    );
}

/// An encrypted plan draws the root and the home inside the container.
#[test]
fn an_encrypted_plan_nests_the_root_and_home() {
    assert_eq!(
        strs(automatic_rows(&payload("systemd"), Some(20), "20.0 GB", Some(64), true, true)),
        vec![
            r("\u{251c}\u{2500} EFI-SYSTEM", "2.0 GB", "fat32", "efi", "/boot/efi"),
            r("\u{2514}\u{2500} root (LUKS)", "62.0 GB", "", "luks", ""),
            r("   \u{251c}\u{2500} root", "42.0 GB", "btrfs", "linux", "/"),
            r("   \u{2514}\u{2500} var", "20.0 GB", "btrfs", "linux", "/var/home"),
        ]
    );
    // A separate home with no size yet leaves the root's size unknown.
    let rows = automatic_rows(&payload("systemd"), None, "", Some(64), true, false);
    assert_eq!(rows[1].1, "the rest");
    assert_eq!(rows[2].1, "");
}

fn mount(partition: &str, target: &str, fstype: &str) -> CustomMount {
    CustomMount {
        partition: partition.to_string(),
        target: target.to_string(),
        fstype: fstype.to_string(),
        passphrase: String::new(),
    }
}

fn create(gb: u64, target: &str, fstype: &str) -> Created {
    Created {
        gb,
        offset: 0,
        target: target.to_string(),
        fstype: fstype.to_string(),
        label: String::new(),
        device: String::new(),
        encrypt: false,
        discoverable: false,
    }
}

fn layout(mounts: Vec<CustomMount>, creates: Vec<Created>) -> CustomLayout {
    let mut l = CustomLayout::empty("/dev/vda");
    l.mounts = mounts;
    l.creates = creates;
    l
}

/// Each refusal a manual layout can meet, in the order the editor asks.
#[test]
fn a_manual_layout_is_refused_until_it_can_install() {
    let esp = || mount("/dev/vda1", "/boot/efi", "unformatted");
    let ok = layout(vec![esp(), mount("/dev/vda2", "/", "ext4")], Vec::new());
    assert_eq!(layout_short_of(&ok, true, None, 10), None);
    let small = layout(vec![esp()], vec![create(5, "/", "ext4")]);
    assert_eq!(layout_short_of(&small, false, None, 10), Some(copy::custom_root_too_small(5, 10)));
    let blank = layout(vec![esp()], vec![create(20, "/", "")]);
    assert_eq!(layout_short_of(&blank, false, None, 10), Some(copy::CUSTOM_UNFORMATTED.to_string()));
    let unmounted = layout(vec![esp(), mount("/dev/vda2", "", "ext4")], Vec::new());
    assert_eq!(layout_short_of(&unmounted, false, None, 10), Some(copy::CUSTOM_UNMOUNTED.to_string()));
    let rootless = layout(vec![esp()], Vec::new());
    assert_eq!(layout_short_of(&rootless, false, None, 10), Some(copy::CUSTOM_ROOT.to_string()));
    let twice = layout(vec![esp(), mount("/dev/vda2", "/", "ext4"), mount("/dev/vda3", "/", "xfs")], Vec::new());
    assert_eq!(layout_short_of(&twice, false, None, 10), Some(copy::CUSTOM_DUPLICATE.to_string()));
    let no_esp = layout(vec![mount("/dev/vda2", "/", "ext4")], Vec::new());
    assert_eq!(layout_short_of(&no_esp, false, None, 10), Some(copy::CUSTOM_ESP.to_string()));
    let luks = layout(vec![esp(), mount("/dev/vda2", "/", "ext4"), mount("/dev/vda3", "/srv", "luks")], Vec::new());
    assert_eq!(layout_short_of(&luks, false, None, 10), Some(copy::CUSTOM_LUKS_LATER.to_string()));
    let xfs = layout(vec![esp(), mount("/dev/vda2", "/", "xfs")], Vec::new());
    assert_eq!(layout_short_of(&xfs, true, None, 10), Some(copy::CUSTOM_VERITY.to_string()));
    assert_eq!(layout_short_of(&xfs, false, None, 10), None);
}

/// A filesystem that cannot carry the point it holds is refused: the ESP
/// must be FAT, and a created partition follows the same rule.
#[test]
fn a_filesystem_that_cannot_carry_its_point_is_refused() {
    let ext4_esp = layout(vec![mount("/dev/vda1", "/", "ext4"), mount("/dev/vda2", "/boot/efi", "ext4")], Vec::new());
    assert_eq!(layout_short_of(&ext4_esp, false, None, 0), Some(copy::CUSTOM_MISFIT.to_string()));
    let fat_root = layout(vec![mount("/dev/vda1", "/boot/efi", "fat32")], vec![create(20, "/", "fat32")]);
    assert_eq!(layout_short_of(&fat_root, false, None, 10), Some(copy::CUSTOM_MISFIT.to_string()));
    let fits = layout(vec![mount("/dev/vda1", "/boot/efi", "fat32")], vec![create(20, "/", "ext4")]);
    assert_eq!(layout_short_of(&fits, false, None, 10), None);
}

/// The plan is weighed against the disk as it is now.
#[test]
fn a_plan_the_disk_cannot_hold_is_refused() {
    let table = DiskTable {
        first: 2048,
        last: 124_999_966,
        sector: 512,
        label: "dos".to_string(),
        slots: vec![Slot { node: "/dev/vda1".to_string(), number: 1, start: 2048, sectors: 1_048_576 }],
    };
    let planned = layout(vec![mount("/dev/vda1", "/boot/efi", "unformatted")], vec![create(20, "/", "ext4")]);
    assert_eq!(
        layout_short_of(&planned, false, Some(&table), 10),
        Some(copy::custom_not_gpt("dos"))
    );
    let mut gpt = table.clone();
    gpt.label = "gpt".to_string();
    assert_eq!(layout_short_of(&planned, false, Some(&gpt), 10), None);
    let too_big = layout(vec![mount("/dev/vda1", "/boot/efi", "unformatted")], vec![create(200, "/", "ext4")]);
    assert_eq!(layout_short_of(&too_big, false, Some(&gpt), 10), Some(copy::custom_too_big(63)));
}

#[test]
fn a_mount_point_takes_the_filesystems_that_fit_it() {
    assert!(fits("/boot/efi", "vfat") && !fits("/boot/efi", "ext4"));
    assert!(fits("/swap", "swap") && !fits("/swap", "ext4"));
    assert!(fits("/", "xfs") && !fits("/", "ntfs"));
    assert_eq!(mount_name("/var/home"), "var");
    assert_eq!(mount_name("/boot/efi"), "EFI-SYSTEM");
    assert_eq!(mount_name("/srv"), "");
    assert_eq!(open_points(true), vec!["/", "/var/home"]);
    assert_eq!(open_points(false), vec!["/", "/var", "/var/home"]);
}

#[test]
fn a_partition_type_is_said_by_its_short_name() {
    assert_eq!(partition_type_said("C12A7328-F81F-11D2-BA4B-00A0C93EC93B"), "efi");
    assert_eq!(partition_type_said("0x83"), "linux");
    assert_eq!(partition_type_said("0x8e"), "lvm");
    assert_eq!(partition_type_said("0657fd6d-a4ab-43c4-84e5-0933c84b4f4f"), "swap");
    assert_eq!(partition_type_said("ebd0a0a2-b9e5-4433-87c0-68b6b72699c7"), "");
}

/// The cursor lands on the row asked for where it can be picked, and
/// otherwise on a row that can.
#[test]
fn the_cursor_lands_on_a_row_it_can_pick() {
    assert_eq!(clamp_row(&[false, true, true], 2), 2);
    let row = clamp_row(&[false, true, false], 2);
    assert_eq!(row, 1);
    assert_eq!(clamp_row(&[true, false], 0), 0);
}
