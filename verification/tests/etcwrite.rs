use installer::answers::{Key, Opened};
use installer::etcwrite::{
    auth_args, crypttab_name, free_slot, hex_key, joined, kill_slot_args, merged_crypttab,
    merged_fstab, naming_added, one_deployment, selinux_type, slot_note, tpm2_paths, volume_key,
    volume_key_path, VolumeKey,
};

/// A line the install writes replaces the held line of the same name, and
/// every other held line stays, in order.
#[test]
fn crypttab_lines_are_replaced_by_name() {
    let held = "old /dev/a none\nroot UUID=1 none\n";
    let ours = vec![("root".to_string(), "root UUID=2 none luks".to_string())];
    assert_eq!(
        merged_crypttab(held, &ours),
        Some("old /dev/a none\nroot UUID=2 none luks\n".to_string())
    );
    // Nothing held and nothing to write writes no file.
    assert_eq!(merged_crypttab("", &Vec::new()), None);
}

#[test]
fn the_swap_line_is_written_once() {
    let held = "UUID=s none swap defaults 0 0\n/dev/x / ext4 defaults 0 1\n";
    assert_eq!(
        merged_fstab(held, "s"),
        "/dev/x / ext4 defaults 0 1\nUUID=s none swap defaults 0 0\n"
    );
    assert_eq!(merged_fstab("", "s"), "UUID=s none swap defaults 0 0\n");
}

#[test]
fn a_container_is_named_after_its_mount_point() {
    assert_eq!(crypttab_name("/srv/data"), "srv-data");
    assert_eq!(crypttab_name("/home"), "home");
}

/// `cryptsetup` takes the lowest free key slot of 32.
#[test]
fn a_new_key_takes_the_lowest_free_slot() {
    assert_eq!(free_slot(&vec![0, 1, 3]), Ok(2));
    assert_eq!(free_slot(&vec![]), Ok(0));
    let all: Vec<u32> = (0..32).collect();
    assert_eq!(free_slot(&all), Err("all 32 key slots are in use".to_string()));
}

#[test]
fn a_key_is_written_as_lowercase_hex() {
    assert_eq!(hex_key(&[0x0f, 0xa0, 0x00, 0xff]), b"0fa000ff".to_vec());
    assert!(hex_key(&[]).is_empty());
}

#[test]
fn a_key_reaches_cryptsetup_on_stdin_or_by_path() {
    assert_eq!(auth_args(&Key::Passphrase("pw".to_string())), vec!["--key-file", "-"]);
    assert_eq!(
        auth_args(&Key::File("/k.key".into())),
        vec!["--key-file".to_string(), "/k.key".to_string()]
    );
    assert_eq!(
        kill_slot_args(&Key::Passphrase("pw".to_string()), "/dev/vda3", 1),
        vec!["-q", "luksKillSlot", "--key-file", "-", "/dev/vda3", "1"]
    );
}

#[test]
fn the_slot_note_names_the_slot_the_machine_no_longer_needs() {
    assert_eq!(
        slot_note("/dev/vda3", &vec![0], 2),
        vec![
            "/dev/vda3 has 2 slots, and this machine no longer needs slot 0".to_string(),
            "both keys open it, so it can go: cryptsetup luksKillSlot /dev/vda3 0".to_string(),
        ]
    );
}

#[test]
fn the_added_keys_are_named_in_a_failure() {
    assert_eq!(naming_added("boom".to_string(), &Vec::new()), "boom");
    assert_eq!(
        naming_added("boom".to_string(), &vec!["/dev/a".to_string(), "/dev/b".to_string()]),
        "boom; a key was added to /dev/a, /dev/b and the install did not finish"
    );
}

#[test]
fn the_policy_is_the_first_uncommented_type() {
    let raw = "# SELINUXTYPE=mls\nSELINUX=enforcing\n  SELINUXTYPE=\"targeted\"  \nSELINUXTYPE=mls\n";
    assert_eq!(selinux_type(raw), Some("targeted".to_string()));
    assert_eq!(selinux_type("SELINUXTYPE=''\nSELINUXTYPE=mls\n"), None);
    assert_eq!(selinux_type("SELINUX=permissive\n"), None);
}

#[test]
fn exactly_one_deployment_is_written() {
    let one = vec![("/sysroot/ostree/deploy/a".to_string(), true)];
    assert_eq!(one_deployment(one, "/sysroot"), Ok(("/sysroot/ostree/deploy/a".to_string(), true)));
    assert_eq!(
        one_deployment(Vec::new(), "/sysroot"),
        Err("/sysroot: no installed deployment carries an /etc".to_string())
    );
    let two = vec![("a".to_string(), false), ("b".to_string(), false)];
    assert_eq!(
        one_deployment(two, "/sysroot"),
        Err("/sysroot: 2 deployments carry an /etc, so which one to write is not clear".to_string())
    );
}

#[test]
fn both_failures_of_a_retag_are_said() {
    assert_eq!(joined(Ok(()), Ok(())), Ok(()));
    assert_eq!(joined(Err("a".into()), Err("b".into())), Err("a; and b".to_string()));
    assert_eq!(joined(Ok(()), Err("b".into())), Err("b".to_string()));
}

#[test]
fn a_volume_opens_by_the_key_it_is_given() {
    let pass = Key::Passphrase("pw".to_string());
    assert_eq!(volume_key(&pass, Opened::AddKey), VolumeKey::AddKey);
    assert_eq!(volume_key(&pass, Opened::Keep), VolumeKey::Passphrase);
    assert_eq!(volume_key(&Key::File("/k".into()), Opened::AddKey), VolumeKey::KeyFile);
    assert_eq!(volume_key_path("srv"), "/etc/cryptsetup-keys.d/srv.key");
    let (key, pin, unit) = tpm2_paths("root");
    assert_eq!(key, "/etc/tect/tpm2-enroll-root.key");
    assert_eq!(pin, "/etc/tect/tpm2-enroll-root.pin");
    assert_eq!(unit, "/etc/systemd/system/tect-tpm2-enroll-root.service");
}
