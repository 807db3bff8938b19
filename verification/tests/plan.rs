use installer::answers::{CustomLayout, CustomMount, Key, LuksOpen, Partition, Rename};
use installer::copy;
use installer::plan::{
    answer_created, answer_disk, answer_part, CreatedAnswer, DiskAnswer, PartAnswer, created_assign, created_delete, created_format, created_rename, keep_passphrase, opening_kind, place_clear,
    place_close, place_create, place_delete, place_open, place_rename, place_reset,
};

fn partition(device: &str, label: &str) -> Partition {
    Partition {
        device: device.to_string(),
        size: "1G".to_string(),
        fstype: "ext4".to_string(),
        label: label.to_string(),
        parttype: String::new(),
        uuid: String::new(),
    }
}

fn answered() -> CustomLayout {
    let mut layout = CustomLayout::empty("/dev/vda");
    layout.mounts.push(CustomMount {
        partition: "/dev/vda2".to_string(),
        target: "/".to_string(),
        fstype: "ext4".to_string(),
        passphrase: String::new(),
    });
    layout.mounts.push(CustomMount {
        partition: "/dev/vda3".to_string(),
        target: "/srv".to_string(),
        fstype: "unformatted".to_string(),
        passphrase: String::new(),
    });
    layout.opens.push(LuksOpen { partition: "/dev/vda3".to_string(), target: "/srv".to_string(), key: Key::Passphrase("x".to_string()) });
    layout.renames.push(Rename { partition: "/dev/vda3".to_string(), label: "data".to_string() });
    layout
}

/// A partition planned away loses every answer, and is planned away once.
#[test]
fn a_deleted_partition_keeps_no_answer() {
    let mut held = Some(answered());
    place_delete(&mut held, "/dev/vda", "/dev/vda3");
    place_delete(&mut held, "/dev/vda", "/dev/vda3");
    let layout = held.unwrap();
    assert_eq!(layout.deletes, vec!["/dev/vda3".to_string()]);
    assert_eq!(layout.mounts.len(), 1);
    assert!(layout.opens.is_empty() && layout.renames.is_empty());
    // The first answer about a disk builds its layout.
    let mut fresh = None;
    place_delete(&mut fresh, "/dev/vdb", "/dev/vdb1");
    assert_eq!(fresh.map(|l| (l.disk, l.deletes)), Some(("/dev/vdb".to_string(), vec!["/dev/vdb1".to_string()])));
}

/// Reset takes every answer back, the planned removal included.
#[test]
fn reset_puts_a_partition_back() {
    let mut held = Some(answered());
    place_delete(&mut held, "/dev/vda", "/dev/vda2");
    place_reset(&mut held, "/dev/vda2");
    let layout = held.unwrap();
    assert!(layout.deletes.is_empty());
    assert_eq!(layout.mounts.len(), 1);
    assert_eq!(layout.mounts[0].partition, "/dev/vda3");
    let mut none = None;
    place_reset(&mut none, "/dev/vda2");
    assert!(none.is_none());
}

/// A name equal to the label the partition carries states nothing.
#[test]
fn a_rename_to_the_same_label_is_no_rename() {
    let mut held = Some(answered());
    place_rename(&mut held, "/dev/vda", &partition("/dev/vda3", "data"), "data".to_string());
    assert!(held.as_ref().unwrap().renames.is_empty());
    place_rename(&mut held, "/dev/vda", &partition("/dev/vda3", "data"), "srv".to_string());
    let layout = held.unwrap();
    assert_eq!(layout.renames.len(), 1);
    assert_eq!((layout.renames[0].partition.as_str(), layout.renames[0].label.as_str()), ("/dev/vda3", "srv"));
}

#[test]
fn an_open_replaces_the_partitions_answers_and_a_close_takes_it_back() {
    let mut held = Some(answered());
    place_open(&mut held, "/dev/vda", "/dev/vda2", Key::Passphrase("pw".to_string()));
    {
        let layout = held.as_ref().unwrap();
        assert_eq!(layout.mounts.len(), 1);
        assert_eq!(layout.opens.len(), 2);
        assert_eq!(layout.opens[1].partition, "/dev/vda2");
        assert_eq!(layout.opens[1].target, "");
    }
    place_close(&mut held, "/dev/vda2");
    assert_eq!(held.as_ref().unwrap().opens.len(), 1);
}

#[test]
fn clear_plans_every_partition_away() {
    let mut held = Some(answered());
    place_clear(&mut held, "/dev/vda", vec!["/dev/vda1".to_string(), "/dev/vda2".to_string()]);
    let layout = held.unwrap();
    assert_eq!(layout.deletes.len(), 2);
    assert!(layout.mounts.is_empty() && layout.opens.is_empty() && layout.renames.is_empty());
}

/// A planned partition's answers ride on its plan entry.
#[test]
fn a_planned_partition_carries_its_own_answers() {
    let mut held = None;
    place_create(&mut held, "/dev/vda", 1, 20);
    place_create(&mut held, "/dev/vda", 0, 5);
    created_assign(&mut held, 0, "/boot/efi");
    created_format(&mut held, 0, "ext4");
    {
        let c = &held.as_ref().unwrap().creates[0];
        assert_eq!((c.gb, c.offset, c.fstype.as_str(), c.target.as_str()), (20, 1, "ext4", ""));
    }
    created_assign(&mut held, 1, "/srv");
    created_format(&mut held, 1, "xfs");
    created_rename(&mut held, 1, "data".to_string());
    created_assign(&mut held, 7, "/srv");
    {
        let c = &held.as_ref().unwrap().creates[1];
        assert_eq!((c.target.as_str(), c.fstype.as_str(), c.label.as_str()), ("/srv", "xfs", "data"));
    }
    created_assign(&mut held, 1, copy::UNASSIGN);
    assert_eq!(held.as_ref().unwrap().creates[1].target, "");
    created_delete(&mut held, 0);
    let layout = held.unwrap();
    assert_eq!(layout.creates.len(), 1);
    assert_eq!(layout.creates[0].label, "data");
}

#[test]
fn a_new_container_keeps_its_passphrase_on_its_mount() {
    let mut held = Some(answered());
    keep_passphrase(&mut held, "/dev/vda3", "pw".to_string());
    let layout = held.unwrap();
    assert_eq!(layout.mounts[1].passphrase, "pw");
    assert_eq!(layout.mounts[0].passphrase, "");
}

/// An unanswered form installs encrypted where the TPM and the image allow
/// it; a flag naming a kind keeps that kind.
#[test]
fn the_form_opens_encrypted_where_it_can() {
    assert_eq!(opening_kind(false, "none".to_string(), true, true), "tpm2-luks");
    assert_eq!(opening_kind(true, "none".to_string(), true, true), "none");
    assert_eq!(opening_kind(false, "none".to_string(), false, true), "none");
    assert_eq!(opening_kind(false, "luks-passphrase".to_string(), true, true), "luks-passphrase");
}

/// Each answer on the disk table takes the step of its own kind: a luks
/// format keeps the passphrase it was made with, `Unassign` takes a point
/// away, and a planned partition's answers ride on its entry.
#[test]
fn each_table_answer_takes_its_own_step() {
    let disk = partition("/dev/vda4", "");
    let mut held = Some(answered());
    answer_part(&mut held, "/dev/vda", &disk, PartAnswer::Assign("/var".to_string()));
    answer_part(&mut held, "/dev/vda", &disk, PartAnswer::Format("luks".to_string(), "secret".to_string()));
    let layout = held.clone().unwrap();
    let mount = layout.mounts.iter().find(|m| m.partition == "/dev/vda4").unwrap();
    // A `luks` format clears the point: no answer keeps a point its
    // filesystem cannot carry.
    assert_eq!((mount.target.as_str(), mount.fstype.as_str(), mount.passphrase.as_str()), ("", "luks", "secret"));
    answer_part(&mut held, "/dev/vda", &disk, PartAnswer::Assign(copy::UNASSIGN.to_string()));
    let mount = held.as_ref().unwrap().mounts.iter().find(|m| m.partition == "/dev/vda4").cloned().unwrap();
    assert_eq!(mount.target, "");
    answer_part(&mut held, "/dev/vda", &disk, PartAnswer::Delete);
    assert!(held.as_ref().unwrap().deletes.contains(&"/dev/vda4".to_string()));
    answer_part(&mut held, "/dev/vda", &disk, PartAnswer::Reset);
    assert!(!held.as_ref().unwrap().deletes.contains(&"/dev/vda4".to_string()));

    answer_disk(&mut held, "/dev/vda", DiskAnswer::Create(0, 8));
    let at = held.as_ref().unwrap().creates.len() - 1;
    assert_eq!(held.as_ref().unwrap().creates[at].gb, 8);
    answer_created(&mut held, at, CreatedAnswer::Format("fat32".to_string()));
    answer_created(&mut held, at, CreatedAnswer::Assign("/boot/efi".to_string()));
    answer_created(&mut held, at, CreatedAnswer::Rename("ESP".to_string()));
    let create = held.as_ref().unwrap().creates[at].clone();
    assert_eq!((create.fstype.as_str(), create.target.as_str(), create.label.as_str()), ("fat32", "/boot/efi", "ESP"));
    answer_created(&mut held, at, CreatedAnswer::Delete);
    assert_eq!(held.as_ref().unwrap().creates.len(), at);

    answer_disk(&mut held, "/dev/vda", DiskAnswer::Clear(vec!["/dev/vda2".to_string(), "/dev/vda3".to_string()]));
    let layout = held.unwrap();
    assert!(layout.mounts.is_empty() && layout.opens.is_empty() && layout.renames.is_empty());
    assert_eq!(layout.deletes, vec!["/dev/vda2".to_string(), "/dev/vda3".to_string()]);
}
