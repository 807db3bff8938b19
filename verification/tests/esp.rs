use installer::answers::{CustomLayout, CustomMount, Partition};
use installer::esp::{bls_links, bootuuid, entry_names, is_fat, linked, named, removals, searched, Carried, Label, Link};
use installer::screen::{DiskScan, Scan};

fn part(device: &str, fstype: &str, uuid: &str, label: &str) -> Partition {
    Partition {
        device: device.to_string(),
        size: "1G".to_string(),
        fstype: fstype.to_string(),
        label: label.to_string(),
        parttype: String::new(),
        uuid: uuid.to_string(),
    }
}

#[test]
fn the_esp_is_made_of_fat() {
    assert!(is_fat("vfat") && is_fat("fat32") && is_fat("fat"));
    assert!(!is_fat("ext4"));
}

/// A value held in a shell variable, or an empty one, names nothing.
#[test]
fn a_loader_value_names_a_filesystem_unless_it_is_a_variable() {
    assert_eq!(named(" \"abcd\" "), Some("abcd".to_string()));
    assert_eq!(named("'boot'"), Some("boot".to_string()));
    assert_eq!(named("$root"), None);
    assert_eq!(named("\"\""), None);
    assert_eq!(bootuuid("# written by bootupd\n  set BOOT_UUID=\"1234-ab\"\n"), Some("1234-ab".to_string()));
    assert_eq!(bootuuid("set prefix=x\n"), None);
}

#[test]
fn grub_searches_by_uuid_or_label() {
    assert_eq!(searched("search.fs_uuid 1234 root\n"), Some(Link::Uuid("1234".to_string())));
    assert_eq!(
        searched("insmod part_gpt\nsearch --no-floppy --set prefix --label boot\n"),
        Some(Link::Label("boot".to_string()))
    );
    assert_eq!(
        searched("search --no-floppy --fs-uuid --set=dev abcd\n"),
        Some(Link::Uuid("abcd".to_string()))
    );
    assert_eq!(searched("search --label $BOOT_LABEL\n"), None);
    assert_eq!(searched("configfile $prefix/grub.cfg\n"), None);
}

/// A BLS entry names its root first and the container second.
#[test]
fn a_bls_entry_names_its_root_then_its_container() {
    let entry = "title OS\noptions rd.luks.uuid=luks-c1 root=UUID=r1 rw\n";
    assert_eq!(
        bls_links(entry),
        vec![Link::Uuid("r1".to_string()), Link::Uuid("c1".to_string())]
    );
    assert!(bls_links("title UKI\nefi /EFI/Linux/os.efi\n").is_empty());
}

/// The first link that names a partition wins, compared without regard to
/// case, and a Microsoft directory falls back to the Windows install.
#[test]
fn each_system_is_placed_on_the_partition_it_boots() {
    let partitions = vec![
        part("/dev/vda2", "crypto_LUKS", "C1", ""),
        part("/dev/vda3", "ext4", "", "boot"),
    ];
    let walked = vec![(
        "/dev/vda1".to_string(),
        vec![
            Carried {
                name: "fedora".to_string(),
                links: vec![Link::Uuid("r1".to_string()), Link::Uuid("c1".to_string())],
            },
            Carried { name: "centos".to_string(), links: vec![Link::Label("BOOT".to_string())] },
            Carried { name: "Microsoft".to_string(), links: Vec::new() },
            Carried { name: "other".to_string(), links: Vec::new() },
        ],
    )];
    let placed = linked(&walked, &partitions, Some("/dev/nvme0n1p3"));
    assert_eq!(placed.len(), 1);
    assert_eq!(placed[0].0, "/dev/vda1");
    let links: Vec<(&str, &str)> =
        placed[0].1.iter().map(|l| (l.name.as_str(), l.link.as_str())).collect();
    assert_eq!(
        links,
        vec![
            ("fedora", "/dev/vda2"),
            ("centos", "/dev/vda3"),
            ("Microsoft", "/dev/nvme0n1p3"),
            ("other", ""),
        ]
    );
}

/// Only the ESP the plan mounts at `/boot/efi` loses entries, and only those
/// whose systems the plan rewrites or deletes.
#[test]
fn only_the_kept_esp_loses_the_entries_of_replaced_systems() {
    let disk = DiskScan {
        device: "/dev/vda".to_string(),
        detail: String::new(),
        partitions: vec![part("/dev/vda1", "vfat", "E1", ""), part("/dev/vda2", "ext4", "R1", "")],
        said: vec!["1.0 GB".to_string(), "9.0 GB".to_string()],
        gb: Some(10),
        labels: vec![(
            "/dev/vda1".to_string(),
            vec![
                Label { name: "fedora".to_string(), link: "/dev/vda2".to_string() },
                Label { name: "debian".to_string(), link: "/dev/vdb1".to_string() },
            ],
        )],
    };
    let scan = Scan { disks: vec![disk] };
    let mut layout = CustomLayout::empty("/dev/vda");
    layout.mounts.push(CustomMount {
        partition: "/dev/vda1".to_string(),
        target: "/boot/efi".to_string(),
        fstype: "unformatted".to_string(),
        passphrase: String::new(),
    });
    layout.mounts.push(CustomMount {
        partition: "/dev/vda2".to_string(),
        target: "/".to_string(),
        fstype: "ext4".to_string(),
        passphrase: String::new(),
    });
    let found = removals(&scan, &layout);
    assert_eq!(found.len(), 1);
    assert_eq!(found[0].partition, "/dev/vda1");
    assert_eq!(found[0].entries, vec!["fedora".to_string()]);
    // A formatted ESP has already lost its entries.
    layout.mounts[0].fstype = "fat32".to_string();
    assert!(removals(&scan, &layout).is_empty());
}

/// The staged entries are named once each, sorted without regard to case,
/// and the fallback directory is not one of them.
#[test]
fn the_staged_entries_are_named_once_each() {
    let listed = "EFI/fedora\n  EFI/BOOT \nEFI/Fedora\nEFI/centos/\nEFI/Alpha\nubuntu\n\n";
    assert_eq!(
        entry_names(listed),
        vec!["Alpha".to_string(), "fedora".to_string(), "ubuntu".to_string()]
    );
}
