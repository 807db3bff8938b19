use installer::answers::{Answers, Created, CustomLayout, CustomMount, Encryption, Given, Key, LuksOpen, Opened};
use installer::copy;
use installer::esp::EspRemoval;
use installer::collect::{confirm_question, confirmed_state};
use installer::payload::Payload;
use installer::table::{DiskState, DiskTable, Slot};

fn payload(boot: &str) -> Payload {
    Payload {
        recipe: "r.json".to_string(),
        image: "quay.io/t/os:1".to_string(),
        hostname: "box".to_string(),
        filesystem: "btrfs".to_string(),
        bootloader: "systemd".to_string(),
        boot: boot.to_string(),
        composefs: false,
        image_gb: None,
        luks_initramfs: true,
    }
}

fn answers(layout: Option<CustomLayout>, opened: Opened) -> Answers {
    Answers {
        disk: "/dev/vda".to_string(),
        hostname: "box".to_string(),
        user: "ada".to_string(),
        password: "pw".to_string(),
        encryption: Encryption { kind: "luks-passphrase".to_string(), passphrase: "x".to_string(), pin: String::new() },
        layout,
        opened,
    }
}

fn pairs(rows: &[(&str, &str)]) -> Vec<(String, String)> {
    rows.iter().map(|(a, b)| (a.to_string(), b.to_string())).collect()
}

/// The summary never shows the password, and a whole-disk install ends with
/// what the disk is written over.
#[test]
fn a_whole_disk_summary_says_what_is_written_over() {
    let rows = answers(None, Opened::Keep).summary(&payload(""));
    let mut expected = pairs(&[
        (copy::ROW_DISK, "/dev/vda"),
        (copy::ROW_HOSTNAME, "box"),
        (copy::ROW_ACCOUNT, "ada"),
        (copy::ROW_PASSWORD, copy::PASSWORD_SET),
        (copy::ROW_ENCRYPTION, copy::ENC_PASSPHRASE),
    ]);
    expected.extend(copy::written_over("systemd", "btrfs"));
    assert_eq!(rows, expected);
    assert!(!rows.iter().any(|(_, value)| value == "pw"));
}

/// A manual summary puts what the plan removes first.
#[test]
fn a_manual_summary_puts_removals_first() {
    let mut layout = CustomLayout::empty("/dev/vda");
    layout.deletes.push("/dev/vda3".to_string());
    layout.esp.push(EspRemoval { partition: "/dev/vda1".to_string(), entries: vec!["fedora".to_string()] });
    layout.creates.push(Created {
        gb: 20,
        offset: 0,
        target: "/srv".to_string(),
        fstype: "xfs".to_string(),
        label: String::new(),
        device: String::new(),
        encrypt: false,
        discoverable: false,
    });
    layout.mounts.push(CustomMount {
        partition: "/dev/vda1".to_string(),
        target: "/boot/efi".to_string(),
        fstype: "unformatted".to_string(),
        passphrase: String::new(),
    });
    layout.opens.push(LuksOpen {
        partition: "/dev/vda2".to_string(),
        target: "/".to_string(),
        key: Key::Passphrase("pw".to_string()),
    });
    let rows = answers(Some(layout), Opened::Keep).summary(&payload("uki-db"));
    assert_eq!(
        rows[5..].to_vec(),
        pairs(&[
            (copy::ROW_REMOVED, "/dev/vda3  DELETED, contents lost"),
            (copy::ROW_REMOVED, "fedora boot entry on /dev/vda1 is removed"),
            ("/srv", "a new 20 GB partition, format as xfs"),
            ("/boot/efi", "/dev/vda1  kept"),
            ("/", &format!("/dev/vda2  format as btrfs inside, {}", copy::BOOT_PASSPHRASE)),
            ("boot chain", copy::boot_chain("uki-db").unwrap()),
        ])
    );
}

/// The flags seed the answers, and a kind fisherman does not know refuses.
#[test]
fn the_flags_seed_the_answers() {
    let given = Given {
        disk: Some("/dev/vda".to_string()),
        hostname: None,
        user: Some("ada".to_string()),
        password: None,
        encryption: Some("tpm2-luks".to_string()),
        passphrase: None,
        pin: None,
    };
    let seeded = Answers::seeded(given.clone()).unwrap_or_else(|w| panic!("{w}"));
    assert_eq!(seeded.disk, "/dev/vda");
    assert_eq!(seeded.hostname, "");
    assert_eq!(seeded.encryption.kind, "tpm2-luks");
    assert!(seeded.layout.is_none());
    let mut bad = given;
    bad.encryption = Some("luks".to_string());
    assert!(Answers::seeded(bad).is_err());
    let none = Answers::seeded(Given::default()).unwrap_or_else(|w| panic!("{w}"));
    assert_eq!(none.encryption.kind, "none");
}

/// The form's rows become the answers; a manual layout answers no
/// whole-disk kind.
#[test]
fn the_form_becomes_the_answers() {
    let values: Vec<String> = ["box", "ada", "pw", "pw", copy::LAYOUT_WHOLE, copy::ENC_PASSPHRASE, "", "secret", ""]
        .iter()
        .map(|s| s.to_string())
        .collect();
    let a = Answers::of(&values, false, "/dev/vda".to_string(), None);
    assert_eq!((a.hostname.as_str(), a.user.as_str(), a.password.as_str()), ("box", "ada", "pw"));
    assert_eq!(a.encryption.kind, "luks-passphrase");
    assert_eq!(a.encryption.passphrase, "secret");
    assert!(a.layout.is_none());
    let mut manual = values.clone();
    manual[4] = copy::LAYOUT_MANUAL.to_string();
    let a = Answers::of(&manual, false, "/dev/vda".to_string(), None);
    assert_eq!(a.encryption.kind, "none");
    assert_eq!(a.layout.map(|l| l.disk), Some("/dev/vda".to_string()));
}

/// The confirmation asks over what costs the user most: removed partitions,
/// then formats, then the whole disk.
#[test]
fn the_confirmation_asks_over_the_costliest_change() {
    let mut layout = CustomLayout::empty("/dev/vda");
    assert_eq!(confirm_question("/dev/vda", None), copy::erasing("/dev/vda"));
    assert_eq!(confirm_question("/dev/vda", Some(&layout)), copy::changing_partitions("/dev/vda"));
    layout.deletes.push("/dev/vda2".to_string());
    assert_eq!(confirm_question("/dev/vda", Some(&layout)), "DELETE 1 partition on /dev/vda? Its contents are lost.");
    layout.deletes.push("/dev/vda3".to_string());
    assert_eq!(confirm_question("/dev/vda", Some(&layout)), "DELETE 2 partitions on /dev/vda? Their contents are lost.");
}

/// The disk is taken only where its table is still the one reviewed.
#[test]
fn a_table_that_moved_under_the_review_is_refused() {
    let table = DiskTable {
        first: 2048,
        last: 99_999,
        sector: 512,
        label: "gpt".to_string(),
        slots: vec![Slot { node: "/dev/vda1".to_string(), number: 1, start: 2048, sectors: 4096 }],
    };
    let state = DiskState { rdev: 1, dev: 2, ino: 3, table: table.clone() };
    assert_eq!(confirmed_state(&table, state.clone(), "/dev/vda"), Ok(state.clone()));
    let mut moved = state.clone();
    moved.table.slots[0].sectors = 8192;
    assert_eq!(confirmed_state(&table, moved, "/dev/vda"), Err(copy::table_changed("/dev/vda")));
}
