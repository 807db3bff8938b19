use installer::answers::CustomLayout;
use installer::copy;
use installer::form::{asked, held_pick, pair_mismatch, short_of, Held};
use installer::payload::Payload;

fn payload(luks_initramfs: bool) -> Payload {
    Payload {
        recipe: "r.json".to_string(),
        image: "quay.io/t/os:1".to_string(),
        hostname: "box".to_string(),
        filesystem: "btrfs".to_string(),
        bootloader: "systemd".to_string(),
        boot: String::new(),
        composefs: false,
        image_gb: Some(4),
        luks_initramfs,
    }
}

/// The form's rows: hostname, account, password, confirmation, layout,
/// encryption, table, passphrase, PIN.
fn values(rows: [&str; 9]) -> Vec<String> {
    rows.iter().map(|s| s.to_string()).collect()
}

fn filled() -> [&'static str; 9] {
    ["box", "ada", "pw", "pw", copy::LAYOUT_WHOLE, copy::ENC_NONE, "", "", ""]
}

#[test]
fn a_complete_whole_disk_form_is_short_of_nothing() {
    assert_eq!(short_of(&values(filled()), "/dev/vda", None, &payload(false), false, None), None);
}

/// A disagreeing pair is already drawn red, so the refusal says nothing more.
#[test]
fn a_disagreeing_password_pair_blocks_silently() {
    let mut rows = filled();
    rows[3] = "wp";
    assert_eq!(
        short_of(&values(rows), "/dev/vda", None, &payload(false), false, None),
        Some(String::new())
    );
    assert_eq!(pair_mismatch("pw", "wp", [2, 3]), vec![2, 3]);
    assert!(pair_mismatch("pw", "", [2, 3]).is_empty());
}

#[test]
fn the_missing_answers_are_named_in_row_order() {
    let mut rows = filled();
    rows[0] = "";
    rows[2] = "";
    rows[3] = "";
    assert_eq!(
        short_of(&values(rows), "", None, &payload(false), false, None),
        Some(copy::still_needs(&[copy::ROW_HOSTNAME, copy::INSTALLATION_DISK, copy::ROW_PASSWORD]))
    );
    assert_eq!(copy::still_needs(&["a", "b"]), "Missing: a, b");
    let mut rows = filled();
    rows[3] = "";
    assert_eq!(
        short_of(&values(rows), "/dev/vda", None, &payload(false), false, None),
        Some(copy::still_needs(&[copy::ROW_CONFIRM]))
    );
}

#[test]
fn an_unportable_account_is_refused() {
    let mut rows = filled();
    rows[1] = "Ada";
    assert_eq!(
        short_of(&values(rows), "/dev/vda", None, &payload(false), false, None),
        Some(copy::account_name("Ada"))
    );
}

/// A kind the image cannot open at boot, or the machine cannot enrol, is
/// refused; a passphrase kind needs its passphrase.
#[test]
fn an_encryption_kind_needs_its_image_machine_and_passphrase() {
    let mut rows = filled();
    rows[5] = copy::ENC_PASSPHRASE;
    assert_eq!(
        short_of(&values(rows), "/dev/vda", None, &payload(false), true, None),
        Some(copy::NO_LUKS_INITRAMFS.to_string())
    );
    assert_eq!(
        short_of(&values(rows), "/dev/vda", None, &payload(true), true, None),
        Some(copy::still_needs(&[copy::ROW_PASSPHRASE]))
    );
    rows[7] = "secret";
    assert_eq!(short_of(&values(rows), "/dev/vda", None, &payload(true), true, None), None);
    let mut rows = filled();
    rows[5] = copy::ENC_TPM2;
    assert_eq!(
        short_of(&values(rows), "/dev/vda", None, &payload(true), false, None),
        Some(copy::NO_TPM.to_string())
    );
    rows[5] = copy::ENC_TPM2_PIN;
    assert_eq!(
        short_of(&values(rows), "/dev/vda", None, &payload(true), true, None),
        Some(copy::still_needs(&[copy::ROW_PIN]))
    );
}

/// A manual answer with no layout for this disk still needs its root.
#[test]
fn a_manual_layout_needs_a_root() {
    let mut rows = filled();
    rows[4] = copy::LAYOUT_MANUAL;
    assert_eq!(
        short_of(&values(rows), "/dev/vda", None, &payload(false), false, None),
        Some(copy::CUSTOM_ROOT.to_string())
    );
    let other = CustomLayout::empty("/dev/vdb");
    assert_eq!(
        short_of(&values(rows), "/dev/vda", Some(&other), &payload(false), false, None),
        Some(copy::CUSTOM_ROOT.to_string())
    );
    assert_eq!(held_pick(copy::LAYOUT_MANUAL, Some(&other), "/dev/vda"), Held::Fresh);
    assert_eq!(held_pick(copy::LAYOUT_MANUAL, Some(&other), "/dev/vdb"), Held::Kept);
    assert_eq!(held_pick(copy::LAYOUT_WHOLE, Some(&other), "/dev/vdb"), Held::Whole);
}

/// The encryption window owns the passphrase and PIN rows, and a manual
/// layout drops the whole-disk encryption row unless a container is open.
#[test]
fn the_asked_rows_leave_out_what_a_window_owns() {
    assert_eq!(asked(9, copy::LAYOUT_WHOLE, false), vec![0, 1, 2, 3, 4, 5, 6]);
    assert_eq!(asked(9, copy::LAYOUT_MANUAL, false), vec![0, 1, 2, 3, 4, 6]);
    assert_eq!(asked(9, copy::LAYOUT_MANUAL, true), vec![0, 1, 2, 3, 4, 5, 6]);
}
