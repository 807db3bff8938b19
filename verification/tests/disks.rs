use installer::answers::{CustomLayout, Key, LuksOpen, Slots};
use installer::copy;
use installer::disks::{shown, written, check_kind, disk_detail, is_source, is_virtual, kinds, named, opened_rows, slots_from, visible_kinds};
use installer::json::Json;

fn open(partition: &str, target: &str, key: Key) -> LuksOpen {
    LuksOpen { partition: partition.to_string(), target: target.to_string(), key }
}

fn row(c: &installer::ui::Choice) -> (String, String, bool, bool) {
    (c.label.clone(), c.detail.clone(), c.unavailable, c.hidden)
}

#[test]
fn a_kind_is_one_fisherman_knows() {
    assert_eq!(named("tpm2-luks".to_string()), Ok("tpm2-luks".to_string()));
    assert_eq!(
        named("luks".to_string()),
        Err("`luks` is not one of none, tpm2-luks, luks-passphrase, tpm2-luks-passphrase, tpm2-luks-pin".to_string())
    );
}

/// A `tpm2-` kind needs a TPM, and any kind needs an image that proved it
/// opens LUKS in its initramfs.
#[test]
fn a_kind_the_machine_or_image_cannot_use_is_refused() {
    assert_eq!(check_kind("tpm2-luks", false, true), Err(copy::NO_TPM.to_string()));
    assert_eq!(check_kind("luks-passphrase", false, false), Err(copy::NO_LUKS_INITRAMFS.to_string()));
    assert_eq!(check_kind("none", false, false), Ok(()));
    assert_eq!(check_kind("tpm2-luks-pin", true, true), Ok(()));
}

#[test]
fn the_menu_hides_what_the_machine_cannot_use() {
    let all = kinds(false, true, true);
    assert_eq!(all.len(), 5);
    let hidden: Vec<bool> = all.iter().map(|c| c.hidden).collect();
    assert_eq!(hidden, vec![false, true, false, true, true]);
    let visible: Vec<usize> = visible_kinds(false, true).iter().map(|(at, _)| *at).collect();
    assert_eq!(visible, vec![0, 2]);
    // The window that makes a container leaves `none` out.
    assert_eq!(kinds(true, true, false).len(), 4);
    assert_eq!(kinds(true, true, false)[0].label, copy::ENC_TPM2);
}

/// The row reports what each header holds, and offers a key file for the
/// data volume, never a second TPM2 token where one is enrolled.
#[test]
fn the_encryption_row_reports_the_opened_headers() {
    let mut layout = CustomLayout::empty("/dev/vda");
    layout.opens.push(open("/dev/vda2", "/", Key::Passphrase("pw".to_string())));
    layout.opens.push(open("/dev/vda3", "/srv", Key::Passphrase("x".to_string())));
    let read = vec![
        Ok(Slots { keys: vec![0], tokens: Vec::new() }),
        Ok(Slots { keys: vec![0, 1], tokens: vec!["systemd-tpm2".to_string()] }),
    ];
    let rows: Vec<_> = opened_rows(&layout, &read, true, true).iter().map(row).collect();
    assert_eq!(
        rows,
        vec![
            (copy::OPENED_KEEP.to_string(), "slot 0; slot 0, slot 1, token systemd-tpm2".to_string(), false, false),
            (copy::OPENED_TPM2.to_string(), copy::OPENED_TPM2_HAS.to_string(), true, true),
            (
                copy::OPENED_ADD_KEY.to_string(),
                format!("{}; 2 slots now", copy::OPENED_ADD_KEY_COST),
                false,
                false
            ),
        ]
    );
    // An image that cannot open LUKS at boot refuses every answer.
    let refused = opened_rows(&layout, &read, true, false);
    assert!(refused.iter().all(|c| c.unavailable && c.detail == copy::NO_LUKS_INITRAMFS));
}

/// A root a key file opens keeps nothing, and a header that could not be
/// read says why on the token answer.
#[test]
fn a_key_file_root_and_an_unread_header_refuse_their_answers() {
    let mut layout = CustomLayout::empty("/dev/vda");
    layout.opens.push(open("/dev/vda2", "/", Key::File("/k".to_string())));
    let read = vec![Err("not LUKS2".to_string())];
    let rows: Vec<_> = opened_rows(&layout, &read, true, true).iter().map(row).collect();
    assert_eq!(
        rows,
        vec![
            (copy::OPENED_KEEP.to_string(), copy::OPENED_ROOT_KEYFILE.to_string(), true, true),
            (copy::OPENED_TPM2.to_string(), "not LUKS2".to_string(), true, true),
        ]
    );
}

fn object(pairs: Vec<(&str, Json)>) -> Json {
    Json::Object(pairs.into_iter().map(|(k, v)| (k.to_string(), v)).collect())
}

/// Slots are read by index, with the gap a removed slot leaves, and token
/// types come out sorted.
#[test]
fn a_header_dump_gives_its_slots_and_tokens() {
    let doc = object(vec![
        ("keyslots", object(vec![("0", Json::Null), ("3", Json::Null), ("40", Json::Null)])),
        (
            "tokens",
            object(vec![
                ("0", object(vec![("type", Json::Text("systemd-tpm2".to_string()))])),
                ("1", object(vec![("type", Json::Text("systemd-fido2".to_string()))])),
                ("2", object(vec![])),
            ]),
        ),
    ]);
    let slots = slots_from(&doc).unwrap_or_else(|w| panic!("{w}"));
    assert_eq!(slots.keys, vec![0, 3]);
    assert_eq!(slots.tokens, vec!["systemd-fido2".to_string(), "systemd-tpm2".to_string()]);
    let bad = object(vec![("tokens", Json::Array(Vec::new()))]);
    assert_eq!(slots_from(&bad).err(), Some("luksDump wrote tokens that are not an object".to_string()));
}

#[test]
fn the_disk_list_drops_what_no_user_installs_onto() {
    assert!(is_virtual("loop0") && is_virtual("zram0") && is_virtual("dm-1") && is_virtual("md127"));
    assert!(!is_virtual("nvme0n1") && !is_virtual("sda"));
    let mounts = "/dev/sdb1 /run/media iso9660 ro 0 0\noverlay / overlay rw 0 0\n";
    assert!(is_source(mounts, "/dev/sdb1"));
    assert!(!is_source(mounts, "/dev/sdb"));
    assert_eq!(disk_detail("64.0 GB", "QEMU HARDDISK", true), "64.0 GB  QEMU HARDDISK  removable");
    assert_eq!(disk_detail("64.0 GB", "", false), "64.0 GB");
}

/// A label read back gives the kind it shows, for every kind, and a label
/// no kind carries reads as `none`.
#[test]
fn written_reverses_shown() {
    for kind in ["none", "tpm2-luks", "luks-passphrase", "tpm2-luks-passphrase", "tpm2-luks-pin"] {
        assert_eq!(written(shown(kind)), kind);
    }
    assert_eq!(shown("luks"), copy::ENC_NONE);
    assert_eq!(written("LUKS"), "none");
}
