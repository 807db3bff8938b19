use installer::firmware::{holds, key_of, Firmware, PlatformKey};

/// One variable the way efivarfs carries it: four attribute bytes, then the
/// value, under the name the variable and its vendor GUID give it.
fn variable(name: &str, value: &[u8]) -> (String, Option<Vec<u8>>) {
    let file = match name {
        "db" => format!("{name}-d719b2cb-3d3a-4596-a3bc-dad00e67656f"),
        _ => format!("{name}-8be4df61-93ca-11d2-aa0d-00e098032b8c"),
    };
    let mut bytes = vec![0, 0, 0, 7];
    bytes.extend_from_slice(value);
    (file, Some(bytes))
}

/// Reads a full state from one listing of variables.
fn read(owner: Option<&[u8]>, variables: &[(&str, &[u8])]) -> Firmware {
    let entries: Vec<(String, Option<Vec<u8>>)> = variables
        .iter()
        .map(|(name, value)| variable(name, value))
        .collect();
    Firmware::of(&entries, owner)
}

/// A missing efivars directory never reads as setup mode. The firmware must
/// say so.
#[test]
fn a_machine_without_efivars_is_neither_keyless_nor_enrolled() {
    let firmware = Firmware::default();
    assert!(!firmware.efivars, "{firmware:?}");
    assert_eq!(firmware.secure_boot, None, "{firmware:?}");
    assert_eq!(firmware.platform_key, PlatformKey::NoKey, "{firmware:?}");
}

/// Secure Boot, setup mode and the database each come off their own
/// variable. A key that is present is never claimed to be the owner's.
#[test]
fn the_variables_are_read_apart_from_the_owner() {
    let firmware = read(
        Some(b"owner certificate"),
        &[
            ("SecureBoot", &[1]),
            ("SetupMode", &[0]),
            ("PK", b"vendor certificate bytes"),
            ("db", b"vendor database bytes"),
        ],
    );
    assert!(firmware.efivars && firmware.secure_boot == Some(true));
    assert_eq!(firmware.setup_mode, Some(false));
    assert_eq!(firmware.platform_key, PlatformKey::Other);
    assert!(!firmware.database, "{firmware:?}");
}

/// The owner key is the one comparison here, and it compares bytes. The same
/// certificate inside a longer list is the owner's, in `PK` and in `db`. A
/// shorter certificate must not match out of a longer value.
#[test]
fn an_enrolled_owner_certificate_is_recognised_in_place() {
    let firmware = read(
        Some(b"owner certificate"),
        &[
            ("SecureBoot", &[1]),
            ("SetupMode", &[0]),
            ("PK", b"list-header owner certificate list-footer"),
            ("db", b"list-header owner certificate list-footer"),
        ],
    );
    assert_eq!(firmware.platform_key, PlatformKey::Owner, "{firmware:?}");
    assert!(firmware.database, "{firmware:?}");

    assert_eq!(key_of(b"", Some(b"owner certificate")), PlatformKey::NoKey);
    assert_eq!(
        key_of(b"another", Some(b"owner certificate")),
        PlatformKey::Other
    );
    assert!(
        !holds(b"owner cer", b"owner certificate"),
        "a value shorter than the certificate cannot hold it"
    );
    assert!(!holds(b"another certificate", b"owner certificate"));
    assert!(!holds(b"another", b""));
}

/// Setup mode with a `PK` this cannot read reads as unknown rather than none,
/// because the firmware states that an enrolled key is there.
#[test]
fn a_key_the_firmware_claims_but_this_cannot_read_is_unknown() {
    // No PK variable at all, with SetupMode 0.
    let firmware = read(None, &[("SecureBoot", &[1]), ("SetupMode", &[0])]);
    assert_eq!(firmware.platform_key, PlatformKey::Unknown, "{firmware:?}");
    // The firmware states the same thing itself, which is no key and setup
    // mode.
    let setup = read(None, &[("SecureBoot", &[0]), ("SetupMode", &[1])]);
    assert_eq!(setup.platform_key, PlatformKey::NoKey, "{setup:?}");
    assert_eq!(setup.setup_mode, Some(true), "{setup:?}");
    // A firmware carrying neither variable is never called keyless, because
    // no variable stated setup mode.
    let bare = read(None, &[("SecureBoot", &[0])]);
    assert_eq!(bare.platform_key, PlatformKey::Unknown, "{bare:?}");
    assert_eq!(bare.setup_mode, None, "{bare:?}");
}

/// A variable this could not read leaves its own field unknown and reads
/// nothing else.
#[test]
fn an_unreadable_variable_leaves_its_field_unknown() {
    let entries = vec![
        variable("SecureBoot", &[1]),
        ("SetupMode-8be4df61-93ca-11d2-aa0d-00e098032b8c".to_string(), None),
    ];
    let firmware = Firmware::of(&entries, None);
    assert_eq!(firmware.secure_boot, Some(true));
    assert_eq!(firmware.setup_mode, None);
    assert_eq!(firmware.platform_key, PlatformKey::Unknown);
}
