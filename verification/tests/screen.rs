use installer::answers::{CustomLayout, CustomMount, Partition};
use installer::payload::Payload;
use installer::screen::{layout_table, DiskScan, RowKind, Scan, TableData};

fn payload() -> Payload {
    Payload {
        recipe: "r.json".to_string(),
        image: "quay.io/t/os:1".to_string(),
        hostname: "box".to_string(),
        filesystem: "btrfs".to_string(),
        bootloader: "systemd".to_string(),
        boot: String::new(),
        composefs: false,
        image_gb: None,
        luks_initramfs: true,
    }
}

fn scan() -> Scan {
    Scan {
        disks: vec![
            DiskScan {
                device: "/dev/vda".to_string(),
                detail: "64.0 GB  QEMU HARDDISK  removable".to_string(),
                partitions: Vec::new(),
                said: Vec::new(),
                gb: Some(64),
                labels: Vec::new(),
            },
            DiskScan {
                device: "/dev/sdb".to_string(),
                detail: "16.0 GB  removable".to_string(),
                partitions: vec![Partition {
                    device: "/dev/sdb1".to_string(),
                    size: "14.9G".to_string(),
                    fstype: "vfat".to_string(),
                    label: String::new(),
                    parttype: "0xef".to_string(),
                    uuid: "AB".to_string(),
                }],
                said: vec!["16.0 GB".to_string()],
                gb: Some(16),
                labels: Vec::new(),
            },
        ],
    }
}

fn texts(table: &TableData) -> Vec<Vec<(String, bool)>> {
    table
        .rows
        .iter()
        .map(|row| row.iter().map(|c| (c.text.clone(), c.set)).collect())
        .collect()
}

fn plain(cells: &[&str]) -> Vec<(String, bool)> {
    cells.iter().map(|t| (t.to_string(), false)).collect()
}

/// The chosen disk shows the plan the install would cut, in grey rows no
/// one answers; another disk shows what it holds.
#[test]
fn an_automatic_layout_draws_its_plan_under_the_chosen_disk() {
    let table = layout_table(&scan(), "/dev/vda", None, &payload(), None, "", false, false, &Vec::new(), &Vec::new());
    let mut first = plain(&["\u{25c9} QEMU HARDDISK (/dev/vda)", "64.0 GB", "", "", "", ""]);
    first[0].1 = true;
    assert_eq!(
        texts(&table),
        vec![
            first,
            plain(&["\u{251c}\u{2500} EFI-SYSTEM", "2.0 GB", "fat32", "", "efi", "/boot/efi"]),
            plain(&["\u{2514}\u{2500} root", "62.0 GB", "btrfs", "", "linux", "/"]),
            plain(&["\u{25cb} /dev/sdb", "16.0 GB", "", "", "", ""]),
            plain(&["\u{2514}\u{2500} /dev/sdb1", "16.0 GB", "vfat", "", "efi", ""]),
        ]
    );
    assert_eq!(table.selectable, vec![true, false, false, true, false]);
    assert!(matches!(&table.kinds[0], RowKind::Disk(d) if d == "/dev/vda"));
    assert!(matches!(table.kinds[1], RowKind::Preview));
    assert!(matches!(table.kinds[4], RowKind::Part { index: 0 }));
    // Only a manual layout offers popups.
    assert!(table.menus.iter().all(|m| m.is_empty()));
    // A disk is named by its model only where the removable tag follows it.
    let mut fixed = scan();
    fixed.disks[0].detail = "64.0 GB  QEMU HARDDISK".to_string();
    let table = layout_table(&fixed, "/dev/vda", None, &payload(), None, "", false, false, &Vec::new(), &Vec::new());
    assert_eq!(table.rows[0][0].text, "\u{25c9} /dev/vda");
}

/// A manual layout draws the chosen disk's partitions with their answers
/// read back, and the disk row offers the create and clear items.
#[test]
fn a_manual_layout_reads_its_answers_back() {
    let mut layout = CustomLayout::empty("/dev/sdb");
    layout.mounts.push(CustomMount {
        partition: "/dev/sdb1".to_string(),
        target: "/boot/efi".to_string(),
        fstype: "unformatted".to_string(),
        passphrase: String::new(),
    });
    let table = layout_table(&scan(), "/dev/sdb", Some(&layout), &payload(), None, "", false, false, &Vec::new(), &Vec::new());
    let rows = texts(&table);
    assert_eq!(rows.len(), 3);
    assert_eq!(rows[0][0], ("\u{25cb} QEMU HARDDISK (/dev/vda)".to_string(), false));
    assert_eq!(rows[1][0], ("\u{25c9} /dev/sdb".to_string(), true));
    assert_eq!(rows[2][0], ("\u{2514}\u{2500} /dev/sdb1".to_string(), true));
    assert_eq!(rows[2][4], (installer::copy::EFI_CELL.to_string(), true));
    assert_eq!(rows[2][5], ("/boot/efi".to_string(), true));
    assert_eq!(table.selectable, vec![true, true, true]);
    assert!(table.menus[0].is_empty());
    assert_eq!(table.menus[1].len(), 2);
    assert!(!table.menus[2].is_empty());
}
