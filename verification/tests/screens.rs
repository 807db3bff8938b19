use installer::answers::{Answers, Encryption, Key, LuksOpen, Opened, CustomLayout};
use installer::automatic::{discarded_message, encrypted_root, partitions_of_type, unlocking_key};
use installer::backend::Event;
use installer::cli::{error_line, version_asked};
use installer::copy;
use installer::firmware::{Firmware, PlatformKey};
use installer::json::Json;
use installer::panel::{bootloader_said, erase_warning, image_name, next_steps, panel_lines};
use installer::payload::Payload;
use installer::ui::HeaderLine;
use installer::windows::{create_short_of, key_asked, key_short_of, luks_short_of, luks_taken, luks_window_rows};

fn payload(bootloader: &str, boot: &str) -> Payload {
    Payload {
        recipe: "r.json".to_string(),
        image: "quay.io/tect/workstation:42".to_string(),
        hostname: "box".to_string(),
        filesystem: "btrfs".to_string(),
        bootloader: bootloader.to_string(),
        boot: boot.to_string(),
        composefs: false,
        image_gb: None,
        luks_initramfs: true,
    }
}

fn firmware(key: PlatformKey, database: bool) -> Firmware {
    Firmware { efivars: true, secure_boot: Some(false), setup_mode: Some(false), platform_key: key, database }
}

#[test]
fn the_panel_names_the_image_by_its_last_element() {
    assert_eq!(image_name("quay.io/tect/workstation:42"), "workstation");
    assert_eq!(image_name("localhost/os@sha256:ab"), "os");
    assert_eq!(image_name("registry/:tag"), "registry/:tag");
    assert_eq!(bootloader_said(&payload("systemd", "uki-db")), "systemd-boot with a signed UKI");
    assert_eq!(bootloader_said(&payload("grub2", "uki-shim")), "grub2 with a signed UKI");
    assert_eq!(bootloader_said(&payload("", "")), "grub2");
    assert_eq!(bootloader_said(&payload("systemd", "")), "systemd");
}

/// The firmware asks for a step only where neither the owner's keys nor
/// setup mode let the image enrol its own.
#[test]
fn the_next_steps_follow_the_firmware() {
    assert_eq!(next_steps("uki-db", &firmware(PlatformKey::Owner, true)), None);
    assert_eq!(next_steps("uki-db", &firmware(PlatformKey::NoKey, false)), None);
    assert_eq!(next_steps("uki-db", &firmware(PlatformKey::Other, false)), Some(copy::next_steps_setup()));
    assert_eq!(next_steps("uki-shim", &firmware(PlatformKey::Owner, true)), Some(copy::shim_steps()));
    assert_eq!(next_steps("uki-db", &Firmware::default()), None);
    assert_eq!(
        erase_warning("uki-db", &firmware(PlatformKey::Other, false)),
        vec![copy::ERASE_WARNING_SECURE_BOOT, copy::ERASE_WARNING_UEFI_SETUP]
    );
    assert!(erase_warning("uki-shim", &firmware(PlatformKey::Other, false)).is_empty());
}

fn said(line: &HeaderLine) -> String {
    match line {
        HeaderLine::Section(t) => format!("## {t}"),
        HeaderLine::Pair(a, b) => format!("{a}: {b}"),
        HeaderLine::Row(t) => t.clone(),
        HeaderLine::Good(a, b) => format!("{a}: +{b}"),
        HeaderLine::Warn(a, b) => format!("{a}: !{b}"),
    }
}

#[test]
fn the_panel_says_what_the_firmware_still_needs() {
    let lines: Vec<String> =
        panel_lines(&firmware(PlatformKey::NoKey, false), &payload("systemd", "uki-db")).iter().map(said).collect();
    assert_eq!(
        lines,
        vec![
            format!("## {}", copy::PANEL_IMAGE),
            "name: workstation".to_string(),
            "repo: quay.io/tect/workstation:42".to_string(),
            "bootloader: systemd-boot with a signed UKI".to_string(),
            format!("## {}", copy::PANEL_FIRMWARE),
            format!("{}: !{}", copy::FIRMWARE_SECURE, copy::FIRMWARE_OFF),
            format!("{}: {}", copy::PLATFORM_KEY, copy::PLATFORM_KEY_SETUP),
            format!("## {}", copy::PANEL_REQUIRED),
            copy::UKI_DB_ENROLL.to_string(),
        ]
    );
    let plain: Vec<String> = panel_lines(&Firmware::default(), &payload("grub2", "")).iter().map(said).collect();
    assert_eq!(plain.len(), 6);
    assert_eq!(plain[5], copy::FIRMWARE_NO_EFIVARS);
}

/// A passphrase kind asks for both halves and checks they agree; a pair
/// that disagrees is already drawn red.
#[test]
fn the_luks_window_asks_for_both_halves() {
    assert_eq!(luks_window_rows("luks-passphrase", true), vec![0, 1, 2, 3]);
    assert_eq!(luks_window_rows("tpm2-luks-pin", true), vec![0, 1, 4, 5]);
    assert_eq!(luks_window_rows("tpm2-luks", true), vec![0]);
    assert_eq!(luks_window_rows("luks-passphrase", false), vec![0]);
    assert_eq!(luks_short_of("luks-passphrase", "", "", "", "", true), Some(copy::still_needs(&[copy::ROW_PASSPHRASE])));
    assert_eq!(luks_short_of("luks-passphrase", "a", "", "", "", true), Some(copy::still_needs(&[copy::CONFIRM_PASSPHRASE])));
    assert_eq!(luks_short_of("luks-passphrase", "a", "b", "", "", true), Some(String::new()));
    assert_eq!(luks_short_of("luks-passphrase", "a", "a", "", "", true), None);
    assert_eq!(luks_short_of("tpm2-luks-pin", "", "", "1", "", true), Some(copy::still_needs(&[copy::CONFIRM_PIN])));
    assert_eq!(luks_short_of("tpm2-luks", "", "", "", "", false), Some(copy::NO_LUKS_INITRAMFS.to_string()));
    assert_eq!(luks_short_of("none", "", "", "", "", false), None);
    let (kind, pass, pin) = luks_taken("tpm2-luks-pin", "pw", "1234");
    assert_eq!((kind.as_str(), pass.as_str(), pin.as_str()), ("tpm2-luks-pin", "", "1234"));
}

#[test]
fn the_key_window_needs_a_key_it_can_read() {
    assert_eq!(key_asked(copy::KEY_FILE), vec![0, 2]);
    assert_eq!(key_asked(copy::KEY_PASSPHRASE), vec![0, 1]);
    assert_eq!(key_short_of(copy::KEY_FILE, "", "", false), Some(String::new()));
    assert_eq!(key_short_of(copy::KEY_FILE, "", "/k", false), Some(copy::KEY_FILE_MISSING.to_string()));
    assert_eq!(key_short_of(copy::KEY_FILE, "", "/k", true), None);
    assert_eq!(key_short_of(copy::KEY_PASSPHRASE, "", "", false), Some(String::new()));
    assert_eq!(key_short_of(copy::KEY_PASSPHRASE, "pw", "", false), None);
}

/// The create window refuses a size the room cannot hold, offset included.
#[test]
fn the_create_window_holds_the_offset_and_size_to_the_room() {
    assert_eq!(create_short_of(Some(0), None, 30), Some(String::new()));
    assert_eq!(create_short_of(None, Some(30), 30), None);
    assert_eq!(create_short_of(Some(1), Some(30), 30), Some(copy::custom_too_big(30)));
    assert_eq!(create_short_of(Some(0), Some(0), 30), Some(copy::custom_too_big(30)));
    assert_eq!(create_short_of(Some(u64::MAX), Some(2), 30), Some(copy::custom_too_big(30)));
}

fn object(pairs: Vec<(&str, Json)>) -> Json {
    Json::Object(pairs.into_iter().map(|(k, v)| (k.to_string(), v)).collect())
}

/// A step line drives the gauge; the recovery key never reaches the log.
#[test]
fn a_backend_line_is_read_once() {
    let step = object(vec![
        ("type", Json::Text("step".to_string())),
        ("cumulative_pct", Json::Number(40)),
        ("weight_pct", Json::Number(10)),
        ("step", Json::Number(3)),
        ("total_steps", Json::Number(7)),
        ("step_name", Json::Text("formatting".to_string())),
    ]);
    let event = Event::of("{...}", Some(&step));
    assert!(matches!(&event, Event::Step(40, 10, what) if what == "3/7 formatting"));
    assert_eq!(event.say(), "[ 40%] 3/7 formatting");
    let key = object(vec![("type", Json::Text("recovery_key".to_string())), ("key", Json::Text("k-1".to_string()))]);
    assert_eq!(Event::of("{...}", Some(&key)).logged(), None);
    let note = object(vec![("type", Json::Text("substep".to_string())), ("message", Json::Text("m".to_string()))]);
    assert_eq!(Event::of("{...}", Some(&note)).logged(), Some("       m".to_string()));
    assert_eq!(Event::of("plain text", None).logged(), Some("plain text".to_string()));
}

#[test]
fn a_refusal_ends_in_one_sentence() {
    assert_eq!(error_line("no disk"), "Error: no disk.");
    assert_eq!(error_line("no disk."), "Error: no disk.");
    assert_eq!(error_line("one\ntwo"), "Error: one\ntwo");
    assert!(version_asked(&vec!["--version".to_string()]));
    assert!(!version_asked(&vec!["--version".to_string(), "--disk".to_string()]));
}

fn answers(kind: &str, layout: Option<CustomLayout>, opened: Opened) -> Answers {
    Answers {
        disk: "/dev/vda".to_string(),
        hostname: "box".to_string(),
        user: "ada".to_string(),
        password: "pw".to_string(),
        encryption: Encryption { kind: kind.to_string(), passphrase: "secret".to_string(), pin: String::new() },
        layout,
        opened,
    }
}

#[test]
fn the_root_partition_is_found_by_its_type() {
    let listed = "vda \nvda1 c12a7328-f81f-11d2-ba4b-00a0c93ec93b\nvda2 4F68BCE3-E8CD-4DB1-96E7-FBCAF984B709\n";
    assert_eq!(
        partitions_of_type(listed, "4f68bce3-e8cd-4db1-96e7-fbcaf984b709"),
        vec!["/dev/vda2".to_string()]
    );
    assert_eq!(encrypted_root(&answers("tpm2-luks", None, Opened::Keep), listed), Ok("/dev/vda2".to_string()));
    assert_eq!(
        encrypted_root(&answers("tpm2-luks", None, Opened::Keep), "vda\n"),
        Err(copy::AUTO_NO_ROOT.to_string())
    );
    let mut layout = CustomLayout::empty("/dev/vda");
    layout.opens.push(LuksOpen { partition: "/dev/vda3".to_string(), target: "/".to_string(), key: Key::Passphrase("pw".to_string()) });
    assert_eq!(encrypted_root(&answers("none", Some(layout), Opened::Tpm2), ""), Ok("/dev/vda3".to_string()));
}

/// The key that opens the container: the recovery key the backend reported,
/// the passphrase typed, or the key the layout opened the root with.
#[test]
fn the_unlocking_key_is_the_one_the_answers_hold() {
    let key = |k: Option<(Key, bool)>| k.map(|(key, pin)| (key.bytes().map(|b| b.to_vec()), pin));
    assert_eq!(
        key(unlocking_key(&answers("tpm2-luks-pin", None, Opened::Keep), Some("r-1"))),
        Some((Some(b"r-1".to_vec()), true))
    );
    assert_eq!(key(unlocking_key(&answers("tpm2-luks", None, Opened::Keep), None)), None);
    assert_eq!(
        key(unlocking_key(&answers("tpm2-luks-passphrase", None, Opened::Keep), None)),
        Some((Some(b"secret".to_vec()), false))
    );
    assert_eq!(key(unlocking_key(&answers("none", None, Opened::Keep), Some("r"))), None);
    let layout = CustomLayout::empty("/dev/vda");
    assert_eq!(key(unlocking_key(&answers("none", Some(layout), Opened::Keep), Some("r"))), None);
    assert_eq!(discarded_message(3, "boom".to_string(), Ok(())), "boom");
    assert_eq!(
        discarded_message(3, "boom".to_string(), Err("busy".to_string())),
        "boom; and slot 3 was left behind: busy"
    );
}
