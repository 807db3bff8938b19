use installer::copy;
use installer::copy::{
    boot_chain, erasing, next_steps_setup, shim_steps, tpm2_unit, written_over, ENROLLING, ESP_TYPE,
};

/// The question that costs a disk names the disk and asks. It is the last
/// thing between the user and a wipe.
#[test]
fn the_cost_names_the_disk_and_asks() {
    let said = erasing("/dev/vda");
    assert!(said.contains("/dev/vda"), "{said}");
    assert!(said.contains('?'), "{said}");
}

/// A widget draws a question into a one-line head, so a question that wraps
/// loses everything after its first line. Every one-line string of the copy
/// is held here; a legend, which draws along the widget's border, is not.
#[test]
fn every_string_here_is_one_short_line() {
    let strings: [(&str, &str); 142] = [
        ("INSTALL_DISK", copy::INSTALL_DISK),
        ("INSTALL_NAME", copy::INSTALL_NAME),
        ("INSTALL_USER", copy::INSTALL_USER),
        ("INSTALL_PASSWORD", copy::INSTALL_PASSWORD),
        ("INSTALL_ENCRYPTION", copy::INSTALL_ENCRYPTION),
        ("LUKS_PASSPHRASE", copy::LUKS_PASSPHRASE),
        ("LUKS_PIN", copy::LUKS_PIN),
        ("ENC_NONE", copy::ENC_NONE),
        ("ENC_TPM2", copy::ENC_TPM2),
        ("ENC_PASSPHRASE", copy::ENC_PASSPHRASE),
        ("ENC_BOTH", copy::ENC_BOTH),
        ("ENC_TPM2_PIN", copy::ENC_TPM2_PIN),
        ("NO_TPM", copy::NO_TPM),
        ("NO_LUKS_INITRAMFS", copy::NO_LUKS_INITRAMFS),
        ("REMOVABLE", copy::REMOVABLE),
        ("CUSTOM_ROOT", copy::CUSTOM_ROOT),
        ("CUSTOM_ESP", copy::CUSTOM_ESP),
        ("CUSTOM_ROOT_KEPT", copy::CUSTOM_ROOT_KEPT),
        ("CUSTOM_LUKS_LATER", copy::CUSTOM_LUKS_LATER),
        ("CUSTOM_MISFIT", copy::CUSTOM_MISFIT),
        ("CUSTOM_VERITY", copy::CUSTOM_VERITY),
        ("INSTALLATION_DISK", copy::INSTALLATION_DISK),
        ("CUSTOM_DUPLICATE", copy::CUSTOM_DUPLICATE),
        ("CUSTOM_UNMOUNTED", copy::CUSTOM_UNMOUNTED),
        ("CUSTOM_UNFORMATTED", copy::CUSTOM_UNFORMATTED),
        ("OPENED_KEEP", copy::OPENED_KEEP),
        ("OPENED_TPM2", copy::OPENED_TPM2),
        ("OPENED_ADD_KEY", copy::OPENED_ADD_KEY),
        ("OPENED_TPM2_COST", copy::OPENED_TPM2_COST),
        ("OPENED_TPM2_HAS", copy::OPENED_TPM2_HAS),
        ("OPENED_ADD_KEY_COST", copy::OPENED_ADD_KEY_COST),
        ("OPENED_KEYFILE_PLAIN", copy::OPENED_KEYFILE_PLAIN),
        ("OPENED_ROOT_KEYFILE", copy::OPENED_ROOT_KEYFILE),
        ("BOOT_KEYFILE", copy::BOOT_KEYFILE),
        ("BOOT_PASSPHRASE", copy::BOOT_PASSPHRASE),
        ("BOOT_TPM2", copy::BOOT_TPM2),
        ("BOOT_ADDED_KEY", copy::BOOT_ADDED_KEY),
        ("ENROLLING", copy::ENROLLING),
        ("ESP_TYPE", copy::ESP_TYPE),
        ("KEY_TYPE", copy::KEY_TYPE),
        ("KEY_OPEN", copy::KEY_OPEN),
        ("KEY_BACK", copy::KEY_BACK),
        ("PARTITION_ENCRYPTION", copy::PARTITION_ENCRYPTION),
        ("CONFIRM_PASSPHRASE", copy::CONFIRM_PASSPHRASE),
        ("CONFIRM_PIN", copy::CONFIRM_PIN),
        ("LUKS_PARTITION", copy::LUKS_PARTITION),
        ("ENCRYPTION_TYPE", copy::ENCRYPTION_TYPE),
        ("KEY_PASSPHRASE", copy::KEY_PASSPHRASE),
        ("KEY_FILE", copy::KEY_FILE),
        ("KEY_FILE_PATH", copy::KEY_FILE_PATH),
        ("KEY_FILE_MISSING", copy::KEY_FILE_MISSING),
        ("ENCRYPTED_DISK", copy::ENCRYPTED_DISK),
        ("ENCRYPTED_PARTITION", copy::ENCRYPTED_PARTITION),
        ("OLD_ROOT_NONE", copy::OLD_ROOT_NONE),
        ("ROW_REMOVED", copy::ROW_REMOVED),
        ("ROW_CREATED", copy::ROW_CREATED),
        ("INSTALLATION_SUMMARY", copy::INSTALLATION_SUMMARY),
        ("READY", copy::READY),
        ("START_INSTALLATION", copy::START_INSTALLATION),
        ("INSTALL", copy::INSTALL),
        ("SHUT_DOWN", copy::SHUT_DOWN),
        ("GO_BACK", copy::GO_BACK),
        ("EXIT_SHELL", copy::EXIT_SHELL),
        ("ROW_CONFIRM", copy::ROW_CONFIRM),
        ("ROW_LAYOUT", copy::ROW_LAYOUT),
        ("LAYOUT_WHOLE", copy::LAYOUT_WHOLE),
        ("LAYOUT_MANUAL", copy::LAYOUT_MANUAL),
        ("ASSIGN", copy::ASSIGN),
        ("UNASSIGN", copy::UNASSIGN),
        ("FORMAT_ROW", copy::FORMAT_ROW),
        ("SELECT_FORMAT", copy::SELECT_FORMAT),
        ("USE_DISK", copy::USE_DISK),
        ("USE_DISK_ACTION", copy::USE_DISK_ACTION),
        ("RESET_CHANGES", copy::RESET_CHANGES),
        ("DELETE_PART", copy::DELETE_PART),
        ("CLEAR_PARTS", copy::CLEAR_PARTS),
        ("CREATE_PART", copy::CREATE_PART),
        ("RENAME_PART", copy::RENAME_PART),
        ("NEW_PARTITION", copy::NEW_PARTITION),
        ("NEW_NAME", copy::NEW_NAME),
        ("NAME_NEEDED", copy::NAME_NEEDED),
        ("ROW_OFFSET", copy::ROW_OFFSET),
        ("ROW_PARTITION_SIZE", copy::ROW_PARTITION_SIZE),
        ("ROW_AVAILABLE", copy::ROW_AVAILABLE),
        ("NEW_SIZE_NEEDED", copy::NEW_SIZE_NEEDED),
        ("CELL_REMOVE", copy::CELL_REMOVE),
        ("CELL_NEW", copy::CELL_NEW),
        ("OPEN_ENCRYPTED", copy::OPEN_ENCRYPTED),
        ("CLOSE_ENCRYPTED", copy::CLOSE_ENCRYPTED),
        ("NO_FORMAT", copy::NO_FORMAT),
        ("FORMAT_TICK", copy::FORMAT_TICK),
        ("LUKS_OPEN", copy::LUKS_OPEN),
        ("LUKS_CLOSED", copy::LUKS_CLOSED),
        ("EFI_CELL", copy::EFI_CELL),
        ("ROW_DISK", copy::ROW_DISK),
        ("DISK_SELECTION", copy::DISK_SELECTION),
        ("ROW_HOSTNAME", copy::ROW_HOSTNAME),
        ("ROW_ACCOUNT", copy::ROW_ACCOUNT),
        ("ROW_PASSWORD", copy::ROW_PASSWORD),
        ("ROW_ENCRYPTION", copy::ROW_ENCRYPTION),
        ("ROW_PASSPHRASE", copy::ROW_PASSPHRASE),
        ("ROW_PIN", copy::ROW_PIN),
        ("PASSWORD_SET", copy::PASSWORD_SET),
        ("NOT_SET", copy::NOT_SET),
        ("RECOVERY_HEADING", copy::RECOVERY_HEADING),
        ("NEXT_STEPS_HEADING", copy::NEXT_STEPS_HEADING),
        ("LEAVING", copy::LEAVING),
        ("LEAVE_BACK", copy::LEAVE_BACK),
        ("LEAVE_OVER", copy::LEAVE_OVER),
        ("LEAVE_SHELL", copy::LEAVE_SHELL),
        ("INSTALL_DONE", copy::INSTALL_DONE),
        ("RESTART", copy::RESTART),
        ("FINALIZE_AUTO", copy::FINALIZE_AUTO),
        ("FINALIZE_MANUAL", copy::FINALIZE_MANUAL),
        ("AUTO_WINDOW", copy::AUTO_WINDOW),
        ("AUTO_WINDOW_PIN", copy::AUTO_WINDOW_PIN),
        ("AUTO_NO_STUB", copy::AUTO_NO_STUB),
        ("AUTO_NO_POLICY", copy::AUTO_NO_POLICY),
        ("AUTO_NO_ROOT", copy::AUTO_NO_ROOT),
        ("AUTO_FAILED", copy::AUTO_FAILED),
        ("PANEL_IMAGE", copy::PANEL_IMAGE),
        ("PANEL_FIRMWARE", copy::PANEL_FIRMWARE),
        ("PANEL_REQUIRED", copy::PANEL_REQUIRED),
        ("SETUP_OS", copy::SETUP_OS),
        ("SETUP_DISK", copy::SETUP_DISK),
        ("FIRMWARE_NO_EFIVARS", copy::FIRMWARE_NO_EFIVARS),
        ("FIRMWARE_SECURE", copy::FIRMWARE_SECURE),
        ("FIRMWARE_ON", copy::FIRMWARE_ON),
        ("FIRMWARE_OFF", copy::FIRMWARE_OFF),
        ("FIRMWARE_SETUP", copy::FIRMWARE_SETUP),
        ("FIRMWARE_UNREADABLE", copy::FIRMWARE_UNREADABLE),
        ("PLATFORM_KEY", copy::PLATFORM_KEY),
        ("PLATFORM_KEY_SETUP", copy::PLATFORM_KEY_SETUP),
        ("PLATFORM_KEY_PRESENT", copy::PLATFORM_KEY_PRESENT),
        ("PLATFORM_KEY_OWNER", copy::PLATFORM_KEY_OWNER),
        ("PLATFORM_KEY_UNKNOWN", copy::PLATFORM_KEY_UNKNOWN),
        ("UKI_NEEDS_UEFI", copy::UKI_NEEDS_UEFI),
        ("UKI_DB_ENROLL", copy::UKI_DB_ENROLL),
        ("UKI_DB_OWNER", copy::UKI_DB_OWNER),
        ("ERASE_WARNING_SECURE_BOOT", copy::ERASE_WARNING_SECURE_BOOT),
        ("ERASE_WARNING_UEFI_SETUP", copy::ERASE_WARNING_UEFI_SETUP),
        ("NONE", copy::NONE),
    ];
    for (name, text) in strings {
        assert!(text.chars().count() < 60, "{name} = {text:?}");
    }
}

#[test]
fn uki_chains_are_visible_before_and_after_install() {
    assert!(boot_chain("uki-shim").is_some_and(|chain| chain.contains("Microsoft shim")));
    assert!(!written_over("systemd", "ext4")
        .iter()
        .any(|(name, _)| name == "boot chain"));
    assert!(next_steps_setup().contains("setup mode"));
    assert!(
        next_steps_setup().contains("platform key"),
        "the step that clears a foreign key is named"
    );
    assert!(shim_steps().contains("EFI/BOOT/MOK.cer"));
}

/// The enrolment names both files the stub places in `/run/systemd/` and
/// keeps PCR 7. A silent bind to no PCRs at all is the failure this test
/// guards against.
#[test]
fn a_pcr_policy_tpm2_unit_names_the_embedded_files() {
    let policy = tpm2_unit("root", "/etc/tect/tpm2-enroll-root.key", None, "u", true);
    assert!(policy.contains("--tpm2-pcrs=7"), "{policy}");
    assert!(
        policy.contains("--tpm2-public-key=/run/systemd/tpm2-pcr-public-key.pem"),
        "{policy}"
    );
    assert!(
        policy.contains("--tpm2-signature=/run/systemd/tpm2-pcr-signature.json"),
        "{policy}"
    );
    let other = tpm2_unit("root", "/etc/tect/tpm2-enroll-root.key", None, "u", false);
    assert!(other.contains("--tpm2-pcrs=7"), "{other}");
    assert!(!other.contains("tpm2-pcr-public-key"), "{other}");
    assert!(!other.contains("tpm2-with-pin"), "{other}");
    assert!(!other.contains("new-tpm2-pin"), "{other}");
}

/// Without the ordering, the unit races `getty@tty1` and prints over a login
/// prompt the user may already be typing into.
#[test]
fn a_tpm2_unit_runs_before_any_login_and_says_so() {
    let unit = tpm2_unit("root", "/etc/tect/tpm2-enroll-root.key", None, "u", false);
    assert!(unit.contains("Before=systemd-user-sessions.service"), "{unit}");
    assert!(unit.contains("TimeoutStartSec=120"), "{unit}");
    assert!(unit.contains("StandardOutput=journal+console"), "{unit}");
    assert!(unit.contains("StandardError=journal+console"), "{unit}");
    assert!(
        unit.contains(&format!("ExecStartPre=/bin/echo '{}'", ENROLLING)),
        "{unit}"
    );
    assert!(ENROLLING.chars().count() < 60, "{}", ENROLLING);
}

/// The automatic finalize leaves a marker on the ESP, and the unit that
/// enrols the token must also kill the one-time slot and remove the
/// credential. A failed cleanup keeps the key, so the next boot runs the unit
/// again.
#[test]
fn a_tpm2_unit_cleans_up_an_automatic_finalize() {
    let unit = tpm2_unit("root", "/etc/tect/tpm2-enroll-root.key", None, "abcd", true);
    assert!(unit.contains(&format!("\"{}\"", ESP_TYPE)), "{unit}");
    assert!(unit.contains("loader/credentials/cryptsetup.slot"), "{unit}");
    assert!(
        unit.contains("loader/credentials/cryptsetup.passphrase.cred"),
        "{unit}"
    );
    assert!(unit.contains("--wipe-slot=$slot"), "{unit}");
    assert!(
        unit.contains("--unlock-key-file=/etc/tect/tpm2-enroll-root.key $wipe"),
        "{unit}"
    );
    assert!(unit.contains("for i in 1 2 3 4 5"), "{unit}");
    assert!(
        unit.contains("rm -f \"$mnt/loader/credentials/cryptsetup.passphrase.cred\"")
            && unit.contains("|| exit 1"),
        "{unit}"
    );
}

#[test]
fn a_pin_unit_loads_and_shreds_the_pin() {
    let unit = tpm2_unit(
        "root",
        "/etc/tect/tpm2-enroll-root.key",
        Some("/etc/tect/tpm2-enroll-root.pin"),
        "abcd",
        false,
    );
    assert!(unit.contains("--tpm2-with-pin=yes"), "{unit}");
    assert!(
        unit.contains("LoadCredential=cryptenroll.new-tpm2-pin:/etc/tect/tpm2-enroll-root.pin"),
        "{unit}"
    );
    assert!(
        unit.contains("ExecStartPost=-/usr/bin/shred -u /etc/tect/tpm2-enroll-root.pin"),
        "{unit}"
    );
}
