use installer::answers::{CustomLayout, CustomMount, Encryption};
use installer::copy::{custom_root_too_small, unknown_bootloader, NO_ROOT_FILESYSTEM};
use installer::layout::{mapper_path, mkfs_args, mount_order, open_sealed, seal_passphrase, sealed_creates, volumes, whole_disk, Volume};
use installer::payload::Payload;
use installer::table::{DiskState, DiskTable, Slot};

fn state() -> DiskState {
    DiskState {
        rdev: 0xfd00,
        dev: 5,
        ino: 7,
        table: DiskTable {
            first: 2048,
            last: 124_999_966,
            sector: 512,
            label: "gpt".to_string(),
            slots: vec![Slot {
                node: "/dev/vda1".to_string(),
                number: 1,
                start: 2048,
                sectors: 1_048_576,
            }],
        },
    }
}

fn payload(bootloader: &str, image_gb: Option<u64>) -> Payload {
    Payload {
        recipe: "/run/p/install-recipe.json".to_string(),
        image: "quay.io/t/os:1".to_string(),
        hostname: "box".to_string(),
        filesystem: "btrfs".to_string(),
        bootloader: bootloader.to_string(),
        boot: String::new(),
        composefs: true,
        image_gb,
        luks_initramfs: false,
    }
}

fn none() -> Encryption {
    Encryption { kind: "none".to_string(), passphrase: String::new(), pin: String::new() }
}

/// A whole-disk answer clears every partition, cuts the ESP, and gives the
/// root the largest whole-GB room left.
#[test]
fn a_whole_disk_plan_clears_the_disk_and_fills_it() {
    let layout = whole_disk("/dev/vda", &payload("systemd", Some(5)), &none(), state())
        .unwrap_or_else(|why| panic!("{why}"));
    assert_eq!(layout.disk, "/dev/vda");
    assert_eq!(layout.deletes, vec!["/dev/vda1".to_string()]);
    assert_eq!(layout.creates.len(), 2);
    let esp = &layout.creates[0];
    assert_eq!((esp.gb, esp.target.as_str(), esp.fstype.as_str()), (2, "/boot/efi", "fat32"));
    assert_eq!(esp.label, "EFI-SYSTEM");
    let root = &layout.creates[1];
    assert_eq!((root.gb, root.target.as_str(), root.fstype.as_str()), (61, "/", "btrfs"));
    assert!(!root.encrypt);
    // A composefs root under systemd-boot has no BLS entry to name it.
    assert!(root.discoverable);
    assert!(layout.confirmed.is_some());
}

/// GRUB gets an ext4 `/boot` it can read, which the root gives up.
#[test]
fn a_grub_plan_cuts_a_separate_boot() {
    let layout = whole_disk("/dev/vda", &payload("grub2", None), &none(), state())
        .unwrap_or_else(|why| panic!("{why}"));
    let targets: Vec<&str> = layout.creates.iter().map(|c| c.target.as_str()).collect();
    assert_eq!(targets, vec!["/boot/efi", "/boot", "/"]);
    assert_eq!(layout.creates[1].fstype, "ext4");
    assert_eq!(layout.creates[2].gb, 59);
    assert!(!layout.creates[2].discoverable);
}

/// An empty bootloader reads as GRUB, so it gets the same ext4 `/boot`.
#[test]
fn an_empty_bootloader_is_laid_out_as_grub() {
    let layout = whole_disk("/dev/vda", &payload("", None), &none(), state())
        .unwrap_or_else(|why| panic!("{why}"));
    let targets: Vec<&str> = layout.creates.iter().map(|c| c.target.as_str()).collect();
    assert_eq!(targets, vec!["/boot/efi", "/boot", "/"]);
    assert_eq!((layout.creates[1].gb, layout.creates[1].fstype.as_str()), (2, "ext4"));
    assert_eq!(layout.creates[2].gb, 59);
}

#[test]
fn a_whole_disk_plan_refuses_what_it_cannot_lay_out() {
    assert_eq!(
        whole_disk("/dev/vda", &payload("lilo", None), &none(), state()).err(),
        Some(unknown_bootloader("lilo"))
    );
    assert_eq!(unknown_bootloader("lilo"), "the recipe's `bootloader` is \"lilo\"; the installer lays out a disk for `grub2` or `systemd`");
    let mut bare = payload("systemd", None);
    bare.filesystem = String::new();
    assert_eq!(
        whole_disk("/dev/vda", &bare, &none(), state()).err(),
        Some(NO_ROOT_FILESYSTEM.to_string())
    );
    // Twice a 40 GB image plus 2 GB does not fit in 61 GB.
    assert_eq!(
        whole_disk("/dev/vda", &payload("systemd", Some(40)), &none(), state()).err(),
        Some(custom_root_too_small(61, 82))
    );
    assert_eq!(custom_root_too_small(61, 82), "a 61 GB root is below the 82 GB this image needs");
}

#[test]
fn only_the_root_takes_fs_verity() {
    assert_eq!(mkfs_args("ext4", "/").unwrap(), vec!["mkfs.ext4", "-F", "-O", "verity"]);
    assert_eq!(mkfs_args("ext4", "/boot").unwrap(), vec!["mkfs.ext4", "-F"]);
    assert_eq!(mkfs_args("xfs", "/home").unwrap(), vec!["mkfs.xfs", "-f"]);
    assert_eq!(mkfs_args("fat32", "/boot/efi").unwrap(), vec!["mkfs.fat", "-F", "32"]);
    assert_eq!(
        mkfs_args("zfs", "/data").err(),
        Some("/data cannot be formatted as \"zfs\"; the installer writes btrfs, ext4, xfs and fat32".to_string())
    );
}

fn volume(target: &str) -> Volume {
    Volume { device: format!("/dev/x{}", target.len()), target: target.to_string(), format: None }
}

/// A mount point is mounted after every mount point that contains it, and
/// swap and non-paths are never mounted.
#[test]
fn a_parent_is_mounted_before_what_it_contains() {
    let all = vec![
        volume("/boot/efi"),
        volume("/home/ada"),
        volume("/swap"),
        volume("/"),
        volume("swap"),
        volume("/home"),
        volume("/boot"),
    ];
    let order: Vec<&str> = mount_order(&all).iter().map(|v| v.target.as_str()).collect();
    assert_eq!(order, vec!["/", "/home", "/boot", "/boot/efi", "/home/ada"]);
}

#[test]
fn an_opened_container_is_read_at_its_mapper() {
    assert_eq!(mapper_path("tect-1"), "/dev/mapper/tect-1");
    let mut layout = CustomLayout::empty("/dev/vda");
    layout.mounts.push(CustomMount {
        partition: "/dev/vda2".to_string(),
        target: "/".to_string(),
        fstype: "ext4".to_string(),
        passphrase: String::new(),
    });
    layout.mounts.push(CustomMount {
        partition: "/dev/vda3".to_string(),
        target: "/home".to_string(),
        fstype: "unformatted".to_string(),
        passphrase: String::new(),
    });
    let placed = volumes(&layout, "btrfs");
    assert_eq!(placed.len(), 2);
    assert_eq!(placed[0].format.as_deref(), Some("ext4"));
    assert_eq!(placed[1].format, None);
}

/// A created container is sealed with the passphrase its kind names, or
/// else with a generated key, and then opened with the same key.
#[test]
fn created_containers_are_sealed_and_opened_with_one_key() {
    let mut layout = whole_disk(
        "/dev/vda",
        &payload("systemd", None),
        &Encryption { kind: "luks-passphrase".to_string(), passphrase: "pw".to_string(), pin: String::new() },
        state(),
    )
    .unwrap_or_else(|why| panic!("{why}"));
    layout.creates[1].device = "/dev/vda2".to_string();
    let sealed = sealed_creates(&layout);
    assert_eq!(sealed, vec![("/dev/vda2".to_string(), "/".to_string())]);
    assert_eq!(
        seal_passphrase(&Encryption { kind: "luks-passphrase".to_string(), passphrase: "pw".to_string(), pin: String::new() }),
        Some("pw".to_string())
    );
    assert_eq!(seal_passphrase(&Encryption { kind: "tpm2-luks".to_string(), passphrase: "pw".to_string(), pin: String::new() }), None);
    open_sealed(&mut layout, &sealed, "pw");
    assert_eq!(layout.opens.len(), 1);
    assert_eq!((layout.opens[0].partition.as_str(), layout.opens[0].target.as_str()), ("/dev/vda2", "/"));
    assert_eq!(layout.opens[0].key.bytes(), Some(&b"pw"[..]));
}
