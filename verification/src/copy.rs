//! Every string this installer says to the user, in one place.
//!
//! This catalogue holds the questions, the answer labels beside them, the
//! hints under the widgets and the lines an install run prints. The image
//! describes itself in the recipe that carries it. Errors and diagnostics
//! stay with the code that raises them.

use crate::text::{
    cat, cat3, cat4, cat5, debug_str, decimal, decimal_u32, decimal_u64, decimal_usize, join,
    join_strings, owned, quoted, str_eq,
};
use vstd::prelude::*;

verus! {

pub const INSTALL_DISK: &'static str = "Installation disk";

pub const INSTALL_NAME: &'static str = "Hostname";

pub const INSTALL_USER: &'static str = "Username";

pub const INSTALL_PASSWORD: &'static str = "Password";

pub const INSTALL_ENCRYPTION: &'static str = "Encryption type";

pub const LUKS_PASSPHRASE: &'static str = "LUKS passphrase";

pub const LUKS_PIN: &'static str = "LUKS PIN";

/// The encryption row shows these labels. `env::KINDS` pairs each one with
/// the name the `--encryption` flag takes.
pub const ENC_NONE: &'static str = "none";

/// Each label names what opens the container and what the recovery answer
/// is. The encryption row and its list are only a few words wide.
pub const ENC_TPM2: &'static str = "LUKS with TPM2 + recovery key";

pub const ENC_PASSPHRASE: &'static str = "LUKS with passphrase";

pub const ENC_BOTH: &'static str = "LUKS with TPM2 + recovery passphrase";

/// The user types this PIN at every unlock, on top of the TPM policy. A
/// thief who takes the machine gets no automatic TPM unlock. A thief who
/// takes the disk alone gets no passphrase to attack offline.
pub const ENC_TPM2_PIN: &'static str = "LUKS with TPM2 + PIN";

pub const NO_TPM: &'static str = "No TPM available";

pub const NO_LUKS_INITRAMFS: &'static str = "the image has not declared and proved `luks-initramfs`";

pub const REMOVABLE: &'static str = "removable";

/// The whole-disk plan formats the root with the recipe's `filesystem`, so a
/// recipe without one has no root to write.
pub const NO_ROOT_FILESYSTEM: &'static str =
    "the recipe names no `filesystem`, and the whole-disk layout formats the root with it";

pub const CUSTOM_ROOT: &'static str = "still needs a / partition";

/// Bootc installs its bootloader through the ESP. The installer cuts an ESP
/// only on the whole-disk path, so a manual layout must supply one.
pub const CUSTOM_ESP: &'static str = "still needs a /boot/efi partition";

/// bootc installs only onto an empty root, so a kept `/` would fail after the
/// partition table was cut.
pub const CUSTOM_ROOT_KEPT: &'static str = "the / partition must be formatted";

/// The installer creates no container from a manual `luks` format. The editor
/// refuses the format here, because `mkfs_args` would otherwise refuse it after
/// the user had confirmed the wipe.
pub const CUSTOM_LUKS_LATER: &'static str = "manual LUKS is not installed yet; use the whole disk";

/// A mount point the planned filesystem cannot carry would fail after the
/// cut: the ESP must be FAT, swap must be swap, and every other point needs
/// a Linux filesystem.
pub const CUSTOM_MISFIT: &'static str = "a filesystem cannot carry the mount point it holds";

/// A composefs deployment is sealed with fs-verity. Only ext4 and btrfs
/// carry fs-verity, so a manual root on xfs or ext3 cannot boot the image.
pub const CUSTOM_VERITY: &'static str = "the image needs fs-verity: format the root ext4 or btrfs";

/// The missing list names the install disk by what it is. `ROW_DISK` labels
/// the form row that asks for it.
pub const INSTALLATION_DISK: &'static str = "installation disk";

pub const CUSTOM_DUPLICATE: &'static str = "each mount point can be used only once";

pub const CUSTOM_UNMOUNTED: &'static str = "a partition is answered with no mount point";

/// A created partition is cut blank. It has no existing filesystem to keep,
/// so the user must choose what it becomes.
pub const CUSTOM_UNFORMATTED: &'static str = "a new partition has no filesystem chosen";

pub const OPENED_KEEP: &'static str = "keep what is enrolled";

pub const OPENED_TPM2: &'static str = "add a TPM2 token";

pub const OPENED_ADD_KEY: &'static str = "add a key file for boot";

pub const OPENED_TPM2_COST: &'static str = "first boot asks once, then no prompt";

pub const OPENED_TPM2_HAS: &'static str = "this container already has one";

pub const OPENED_ADD_KEY_COST: &'static str = "this machine reads it, the old one keeps its own";

/// The installed root holds a data volume's key file. It also holds the key
/// that a first-boot TPM2 enrolment is staged with. An unencrypted root
/// would leave that key in the clear beside the volume it opens, so the
/// ladder falls to the passphrase.
pub const OPENED_KEYFILE_PLAIN: &'static str = "the root is not encrypted, so the key would be readable";

/// A key file for the root would have to live on the filesystem its own key
/// opens. A token staged inside the root cannot be enrolled until the first
/// boot has already unlocked it.
pub const OPENED_ROOT_KEYFILE: &'static str = "a key file cannot open the root; use its passphrase";

/// Each string names one rung of the unlock ladder. Every one of them
/// repeats `decrypted`, because the summary column is a few words wide and a
/// bare "passphrase at boot" reads as the cost of installing.
pub const BOOT_KEYFILE: &'static str = "decrypted, keyfile at boot";

pub const BOOT_PASSPHRASE: &'static str = "decrypted, passphrase at boot";

pub const BOOT_TPM2: &'static str = "decrypted, TPM2 at boot";

pub const BOOT_ADDED_KEY: &'static str = "decrypted, key added here";

/// The first-boot enrolment prints this before it runs, so the user knows
/// why the console has stopped for a few seconds.
pub const ENROLLING: &'static str = "enrolling disk auto-unlock; this takes a few seconds";

/// Names the GPT type every EFI System Partition carries. The first-boot
/// unit scans for it, because the installed system mounts no boot partition.
pub const ESP_TYPE: &'static str = "c12a7328-f81f-11d2-ba4b-00a0c93ec93b";

pub const KEY_TYPE: &'static str = "Key type";

pub const KEY_OPEN: &'static str = "Open";

pub const KEY_BACK: &'static str = "Back";

/// The passphrase window takes Enter as its own action, so it draws no
/// button.
pub const PARTITION_ENCRYPTION: &'static str = "partition encryption";

pub const CONFIRM_PASSPHRASE: &'static str = "confirm passphrase";

pub const CONFIRM_PIN: &'static str = "confirm PIN";

pub const LUKS_PARTITION: &'static str = "luks partition";

pub const ENCRYPTION_TYPE: &'static str = "encryption type";

pub const SUBMIT_KEYS: &'static str = "\u{23ce}  submit \u{2022} Esc back \u{2022} Alt+S show";

pub const KEY_PASSPHRASE: &'static str = "passphrase";

pub const KEY_FILE: &'static str = "key file";

pub const KEY_FILE_PATH: &'static str = "key file path";

pub const KEY_FILE_MISSING: &'static str = "there is no file at that path";

pub const ENCRYPTED_DISK: &'static str = "encrypted disk";

pub const ENCRYPTED_PARTITION: &'static str = "encrypted partition";

pub const OLD_ROOT_NONE: &'static str = "no partition on this disk reads as an old system";

pub const ROW_REMOVED: &'static str = "removed";

pub const ROW_CREATED: &'static str = "created";

pub const INSTALLATION_SUMMARY: &'static str = "Installation Summary";

pub const READY: &'static str = "Ready to install?";

pub const START_INSTALLATION: &'static str = "Start Installation";

/// The form's legend omits Esc, because the escape hatch already has a
/// button of its own in `EXIT_SHELL`.
pub const INSTALL_KEYS: &'static str = "\u{2191}\u{2193} navigate \u{2022} \u{23ce}  select";

pub const INSTALL: &'static str = "Install";

pub const SHUT_DOWN: &'static str = "Shut down";

pub const GO_BACK: &'static str = "Go back";

pub const EXIT_SHELL: &'static str = "Switch to shell";

pub const ROW_CONFIRM: &'static str = "password (confirm)";

pub const ROW_LAYOUT: &'static str = "partition layout";

/// If the user answers `whole disk`, then the installer cuts the disk
/// itself. The partition table below the row carries the detail of a manual
/// answer.
pub const LAYOUT_WHOLE: &'static str = "whole disk";

pub const LAYOUT_MANUAL: &'static str = "manual";

pub const ASSIGN: &'static str = "Assign";

pub const UNASSIGN: &'static str = "Unassign";

pub const FORMAT_ROW: &'static str = "Format";

/// The `Format` overlay's legend says `confirm` where the table menu says
/// `select`, because one key takes the overlay and it opens no child menu.
pub const SELECT_FORMAT: &'static str = "select partition format";

pub const USE_DISK: &'static str = "use this disk";

pub const USE_DISK_ACTION: &'static str = "Use this disk";

pub const CHOOSE_KEYS: &'static str =
    "\u{2191}\u{2193} navigate \u{2022} \u{23ce}  confirm \u{2022} Esc back";

pub const RESET_CHANGES: &'static str = "Reset changes";

/// These four actions change the partition table itself. `cut_partitions`
/// enacts them through `sfdisk` before the installer formats any partition.
pub const DELETE_PART: &'static str = "Delete";

pub const CLEAR_PARTS: &'static str = "Clear partitions";

pub const CREATE_PART: &'static str = "Create partition";

pub const RENAME_PART: &'static str = "Rename";

pub const NEW_PARTITION: &'static str = "create partition";

pub const NEW_NAME: &'static str = "name";

pub const NAME_NEEDED: &'static str = "a name is needed";

/// The create window asks where the partition starts and how much of the free
/// region it takes. The start offset is measured from the region's first
/// sector.
pub const ROW_OFFSET: &'static str = "Start offset";

pub const ROW_PARTITION_SIZE: &'static str = "Partition size";

pub const ROW_AVAILABLE: &'static str = "Available";

pub const NEW_SIZE_NEEDED: &'static str = "a size is needed";

/// The `format` column says what will be written to a partition. These two
/// cells are the strongest answers that column takes.
pub const CELL_REMOVE: &'static str = "remove";

pub const CELL_NEW: &'static str = "new";

pub const OPEN_ENCRYPTED: &'static str = "Open Encrypted Partition";

pub const CLOSE_ENCRYPTED: &'static str = "Close Encrypted Partition";

pub const NO_FORMAT: &'static str = "Do not format";

pub const FORMAT_TICK: &'static str = "\u{2713}";

/// The filesystem column says `luks` and whether the container is open.
/// `lsblk` reports `crypto_LUKS`, which the user has no reason to read. The
/// space is dropped so `luks(closed)` fits the column's twelve cells.
pub const LUKS_OPEN: &'static str = "luks(open)";

pub const LUKS_CLOSED: &'static str = "luks(closed)";

pub const EFI_CELL: &'static str = "efi";

pub const ROW_DISK: &'static str = "disk";

/// The form draws this as the table field's own label, above its columns.
pub const DISK_SELECTION: &'static str = "disk selection";

pub const ROW_HOSTNAME: &'static str = "hostname";

pub const ROW_ACCOUNT: &'static str = "username";

pub const ROW_PASSWORD: &'static str = "password";

pub const ROW_ENCRYPTION: &'static str = "encryption";

pub const ROW_PASSPHRASE: &'static str = "passphrase";

pub const ROW_PIN: &'static str = "PIN";

pub const PASSWORD_SET: &'static str = "set";

/// A form has to show the difference between a value and a gap, so an
/// unanswered field reads as this rather than as blank.
pub const NOT_SET: &'static str = "not set";

pub const RECOVERY_HEADING: &'static str = "LUKS disk encryption recovery key:";

pub const NEXT_STEPS_HEADING: &'static str = "Next Steps:";

pub const LEAVING: &'static str = "Leave the installer?";

pub const LEAVE_BACK: &'static str = "Keep going";

pub const LEAVE_OVER: &'static str = "Start the form again";

/// On installer media the unit starts the installer again, so quitting
/// returns the user to a shell only where they ran the installer from one.
pub const LEAVE_SHELL: &'static str = "Quit the installer";

pub const INSTALL_DONE: &'static str = "Installation Complete";

pub const RESTART: &'static str = "Restart now";

/// The legend already names esc, so the last screen draws no row for it.
pub const DONE_KEYS: &'static str = "enter to finalize, esc to quit the installer";

/// An install whose first boot would ask for a key offers two ways to finish.
/// The automatic action writes a one-time key that the firmware carries into
/// the initrd, and the first boot removes it after the TPM is enrolled.
pub const FINALIZE_AUTO: &'static str = "Restart and finalize (automatic)";

pub const FINALIZE_MANUAL: &'static str = "Restart and finalize (manual)";

/// The automatic action's window. The credential opens the volume until the
/// first boot kills the one-time slot, and a PIN kind loses its PIN for that
/// window alone.
pub const AUTO_WINDOW: &'static str = "until then this key opens the disk without a passphrase";

pub const AUTO_WINDOW_PIN: &'static str = "until then this key opens the disk without the PIN";

/// Why the automatic action draws dim and unpickable.
pub const AUTO_NO_STUB: &'static str = "the image does not boot through systemd-stub";

pub const AUTO_NO_POLICY: &'static str = "the image has no signed PCR policy to seal to";

pub const AUTO_NO_ROOT: &'static str = "no encrypted root was found";

/// The automatic action failed after the key was added. The completion screen
/// draws again with this reason, so the recovery key stays on it.
pub const AUTO_FAILED: &'static str = "the automatic finalize failed; choose manual restart";

/// The panel draws each section title as one short line. No row under them
/// asks the user to read a certificate subject.
pub const PANEL_IMAGE: &'static str = "OS Image";

pub const PANEL_FIRMWARE: &'static str = "UEFI Firmware";

pub const PANEL_REQUIRED: &'static str = "Required";

/// The form asks its sections in this order.
pub const SETUP_OS: &'static str = "OS setup";

pub const SETUP_DISK: &'static str = "Disk setup";

pub const FIRMWARE_NO_EFIVARS: &'static str = "no EFI variables; not a UEFI boot";

/// The firmware panel tints only the secure-boot answer, so the label keeps
/// the panel's own ink.
pub const FIRMWARE_SECURE: &'static str = "secure boot";

pub const FIRMWARE_ON: &'static str = "on";

pub const FIRMWARE_OFF: &'static str = "off";

/// Setup mode is off with a difference. The installer can enrol keys in it
/// without sending the user into the firmware's own menus.
pub const FIRMWARE_SETUP: &'static str = "off (setup mode)";

pub const FIRMWARE_UNREADABLE: &'static str = "state unreadable";

/// The panel draws this label in the form's label column, so each answer
/// below carries the value alone.
pub const PLATFORM_KEY: &'static str = "platform key";

pub const PLATFORM_KEY_SETUP: &'static str = "none (setup mode)";

pub const PLATFORM_KEY_PRESENT: &'static str = "existing";

pub const PLATFORM_KEY_OWNER: &'static str = "the owner key";

pub const PLATFORM_KEY_UNKNOWN: &'static str = "could not be read";

pub const UKI_NEEDS_UEFI: &'static str = "this image needs a UEFI boot, and none was found";

pub const UKI_DB_ENROLL: &'static str = "the image enrolls its owner key on first boot";

pub const UKI_DB_OWNER: &'static str = "the owner key is enrolled; nothing to change";

/// The last screen before the disk is written repeats the platform-key fact
/// in the warning colour. Two short rows replace `required_uki_db`'s prose,
/// because a `pub const` here has to stay under 60 characters.
pub const ERASE_WARNING_SECURE_BOOT: &'static str = "secure boot: the platform key must be cleared";

pub const ERASE_WARNING_UEFI_SETUP: &'static str = "afterwards, in UEFI setup: Custom mode";

/// An unanswered row reads as this word. `ENC_NONE` says the same word for
/// the encryption row, and the two answers are not the same answer.
pub const NONE: &'static str = "none";

pub fn unknown_bootloader(bootloader: &str) -> (said: String)
    ensures
        said@ == "the recipe's `bootloader` is "@ + debug_str(bootloader@)
            + "; the installer lays out a disk for `grub2` or `systemd`"@,
{
    cat3(
        "the recipe's `bootloader` is ",
        &quoted(bootloader),
        "; the installer lays out a disk for `grub2` or `systemd`",
    )
}

pub fn unformattable(fstype: &str, target: &str) -> (said: String)
    ensures
        said@ == target@ + " cannot be formatted as "@ + debug_str(fstype@)
            + "; the installer writes btrfs, ext4, xfs and fat32"@,
{
    cat4(
        target,
        " cannot be formatted as ",
        &quoted(fstype),
        "; the installer writes btrfs, ext4, xfs and fat32",
    )
}

/// Every failure after the first disk write says this. The user has to know
/// that the install stopped and that the disk now needs recovering.
pub fn table_already_changed(disk: &str) -> (said: String)
    ensures
        said@ == "the partition table on "@ + disk@ + " has already been changed"@,
{
    cat3("the partition table on ", disk, " has already been changed")
}

pub fn no_mkfs(program: &str, fstype: &str) -> (said: String)
    ensures
        said@ == "this live environment has no "@ + program@ + ", so it cannot format "@
            + fstype@,
{
    cat4("this live environment has no ", program, ", so it cannot format ", fstype)
}

pub fn root_type_needs_gpt(disk: &str) -> (said: String)
    ensures
        said@ == disk@
            + " needs a GPT partition table, because this image finds its root by partition type"@,
{
    cat(disk, " needs a GPT partition table, because this image finds its root by partition type")
}

pub fn account_name(user: &str) -> (said: String)
    ensures
        said@ == "the username "@ + debug_str(user@)
            + " needs lowercase letters, digits, `_` or `-`, starting with a letter or `_`"@,
{
    cat3(
        "the username ",
        &quoted(user),
        " needs lowercase letters, digits, `_` or `-`, starting with a letter or `_`",
    )
}

pub fn table_changed(disk: &str) -> (said: String)
    ensures
        said@ == "the partition table on "@ + disk@
            + " changed while it was being reviewed; review it again"@,
{
    cat3("the partition table on ", disk, " changed while it was being reviewed; review it again")
}

/// `sfdisk --append` appends only to a GPT disk. Clearing the disk writes a
/// fresh GPT label, so clearing is the way forward.
pub fn custom_not_gpt(label: &str) -> (said: String)
    ensures
        said@ == "this disk has a "@ + label@ + " partition table: clear it to use GPT"@,
{
    cat3("this disk has a ", label, " partition table: clear it to use GPT")
}

/// One ESP entry the plan removes is not a name this installer may join to a
/// path. The name comes from a directory listing, so a name that is not one
/// path element is a defect rather than a disk state.
pub fn esp_entry_name(entry: &str) -> (said: String)
    ensures
        said@ == "`"@ + entry@ + "` is not one entry name under EFI"@,
{
    cat3("`", entry, "` is not one entry name under EFI")
}

/// One ESP entry the plan removes is gone from the ESP the walk read, so the
/// disk changed while the plan was reviewed.
pub fn esp_entry_missing(path: &str, why: &str) -> (said: String)
    ensures
        said@ == path@ + " is not on the ESP: "@ + why@,
{
    cat3(path, " is not on the ESP: ", why)
}

pub fn esp_entry_remove(path: &str, why: &str) -> (said: String)
    ensures
        said@ == "removing "@ + path@ + ": "@ + why@,
{
    cat4("removing ", path, ": ", why)
}

/// The refusal a create states for the largest free region it could not use.
pub open spec fn too_big_text(gb: nat) -> Seq<char> {
    if gb == 0 {
        "no room left on the disk for a new partition"@
    } else {
        "only "@ + decimal(gb) + " GB is free in the largest free region"@
    }
}

/// A create takes one free region of the disk, and the room a refusal states
/// is the largest region the plan could not use. The form refuses the size
/// before the confirmation, because the deletes are written before the
/// creates and a later refusal would leave the disk wiped.
pub fn custom_too_big(gb: u64) -> (said: String)
    ensures
        said@ == too_big_text(gb as nat),
{
    if gb == 0 {
        owned("no room left on the disk for a new partition")
    } else {
        cat3("only ", &decimal_u64(gb), " GB is free in the largest free region")
    }
}

/// The confirmation names one kept container and how the installed machine
/// opens it at boot. A container reports no filesystem until it is open, so
/// the summary says these two facts alone.
pub fn opened(partition: &str, how: &str) -> (said: String)
    ensures
        said@ == partition@ + "  "@ + how@,
{
    cat3(partition, "  ", how)
}

/// The confirmation names an opened root's format too, because the install
/// erases the old system inside the container it keeps.
pub fn opened_root(partition: &str, fstype: &str, how: &str) -> (said: String)
    ensures
        said@ == partition@ + "  format as "@ + fstype@ + " inside, "@ + how@,
{
    cat5(partition, "  format as ", fstype, " inside, ", how)
}

/// The words one key slot or one token is named by in the header summary.
pub open spec fn slot_words(keys: Seq<u32>, tokens: Seq<Seq<char>>) -> Seq<Seq<char>> {
    keys.map_values(|at: u32| "slot "@ + decimal(at as nat)) + tokens.map_values(
        |kind: Seq<char>| "token "@ + kind,
    )
}

pub open spec fn slots_text(keys: Seq<u32>, tokens: Seq<Seq<char>>) -> Seq<char> {
    if slot_words(keys, tokens).len() == 0 {
        "no slots"@
    } else {
        join(slot_words(keys, tokens), ", "@)
    }
}

pub fn slots_said(keys: &[u32], tokens: &[String]) -> (said: String)
    ensures
        said@ == slots_text(keys@, tokens@.map_values(|t: String| t@)),
{
    let ghost want = slot_words(keys@, tokens@.map_values(|t: String| t@));
    let mut words: Vec<String> = Vec::new();
    let mut i: usize = 0;
    while i < keys.len()
        invariant
            i <= keys.len(),
            want == slot_words(keys@, tokens@.map_values(|t: String| t@)),
            words.deep_view() =~= want.take(i as int),
        decreases keys.len() - i,
    {
        let word = cat("slot ", &decimal_u32(keys[i]));
        let ghost before = words.deep_view();
        words.push(word);
        assert(words.deep_view() =~= before.push(word@));
        i = i + 1;
    }
    let mut j: usize = 0;
    while j < tokens.len()
        invariant
            j <= tokens.len(),
            want == slot_words(keys@, tokens@.map_values(|t: String| t@)),
            words.deep_view() =~= want.take(keys.len() + j),
        decreases tokens.len() - j,
    {
        let word = cat("token ", tokens[j].as_str());
        let ghost before = words.deep_view();
        words.push(word);
        assert(words.deep_view() =~= before.push(word@));
        j = j + 1;
    }
    assert(want.take(keys.len() + j) =~= want);
    if words.len() == 0 {
        owned("no slots")
    } else {
        join_strings(&words, ", ")
    }
}

pub fn slots_unknown(why: &str) -> (said: String)
    ensures
        said@ == "its slots could not be read: "@ + why@,
{
    cat("its slots could not be read: ", why)
}

/// The last screen tells the user which slot the machine no longer needs.
/// The installer never removes a slot itself, because a LUKS header does not
/// record which slot holds what and the old system may still open the volume
/// with it. Each string is one row, because the last screen draws a row as a
/// line.
pub fn kill_slot(device: &str, slot: u32, count: usize) -> (rows: Vec<String>)
    ensures
        rows.deep_view() == seq![
            device@ + " has "@ + decimal(count as nat)
                + " slots, and this machine no longer needs slot "@ + decimal(slot as nat),
            "both keys open it, so it can go: cryptsetup luksKillSlot "@ + device@ + " "@
                + decimal(slot as nat),
        ],
{
    let mut first = cat3(device, " has ", &decimal_usize(count));
    first.append(" slots, and this machine no longer needs slot ");
    first.append(&decimal_u32(slot));
    let second = cat4(
        "both keys open it, so it can go: cryptsetup luksKillSlot ",
        device,
        " ",
        &decimal_u32(slot),
    );
    let rows = vec![first, second];
    assert(rows.deep_view() =~= seq![rows@[0]@, rows@[1]@]);
    rows
}

pub fn kill_a_slot(device: &str, count: usize) -> (rows: Vec<String>)
    ensures
        rows.deep_view() == seq![
            device@ + " has "@ + decimal(count as nat)
                + " slots, and this machine no longer needs one of them"@,
            "cryptsetup luksKillSlot "@ + device@ + " <slot>"@,
        ],
{
    let first = cat4(
        device,
        " has ",
        &decimal_usize(count),
        " slots, and this machine no longer needs one of them",
    );
    let second = cat3("cryptsetup luksKillSlot ", device, " <slot>");
    let rows = vec![first, second];
    assert(rows.deep_view() =~= seq![rows@[0]@, rows@[1]@]);
    rows
}

/// `none` in the third crypttab field tells the installed system to ask the
/// user for a passphrase at boot.
pub fn crypttab_line(name: &str, uuid: &str, keyfile: Option<&str>) -> (line: String)
    ensures
        line@ == name@ + " UUID="@ + uuid@ + " "@ + match keyfile {
            Some(k) => k@,
            None => "none"@,
        } + " luks"@,
{
    let field = match keyfile {
        Some(k) => k,
        None => "none",
    };
    let mut line = cat4(name, " UUID=", uuid, " ");
    line.append(field);
    line.append(" luks");
    line
}

/// The enrolment arguments a first-boot unit passes `systemd-cryptenroll`.
pub open spec fn enroll_args(pin: bool, pcr_policy: bool) -> Seq<char> {
    (if pcr_policy {
        "--tpm2-pcrs=7 --tpm2-public-key=/run/systemd/tpm2-pcr-public-key.pem --tpm2-signature=/run/systemd/tpm2-pcr-signature.json"@
    } else {
        "--tpm2-pcrs=7"@
    }) + (if pin {
        " --tpm2-with-pin=yes"@
    } else {
        seq![]
    })
}

/// The path under the ESP the one-time credential is sealed into.
pub open spec fn credential_path() -> Seq<char> {
    "loader/credentials/cryptsetup.passphrase.cred"@
}

/// The path under the ESP the one-time slot number is written to.
pub open spec fn marker_path() -> Seq<char> {
    "loader/credentials/cryptsetup.slot"@
}

/// The shell line a first-boot unit runs to enrol the token and clean up an
/// automatic finalize.
pub open spec fn tpm2_script(key: Seq<char>, uuid: Seq<char>, enroll: Seq<char>) -> Seq<char> {
    let marker = marker_path();
    let credential = credential_path();
    "mnt=/run/tpm2-enroll-esp; slot=; esp=; while read -r name parttype; do [ \"$parttype\" = \""@ + ESP_TYPE@ + "\" ] || continue; mkdir -p \"$mnt\"; mount \"/dev/$name\" \"$mnt\" 2>/dev/null || continue; if [ -s \"$mnt/"@ + marker + "\" ]; then slot=$(cat \"$mnt/"@ + marker + "\"); esp=$name; break; fi; umount \"$mnt\" 2>/dev/null; done < <(lsblk -rno NAME,PARTTYPE); wipe=; if [ -n \"$slot\" ] && cryptsetup luksDump \"/dev/disk/by-uuid/"@ + uuid + "\" | grep -qE \"^[[:space:]]*$slot: luks2\"; then wipe=\"--wipe-slot=$slot\"; fi; for i in 1 2 3 4 5; do if /usr/bin/systemd-cryptenroll --tpm2-device=auto "@ + enroll + " --unlock-key-file="@ + key + " $wipe /dev/disk/by-uuid/"@ + uuid + "; then if [ -n \"$esp\" ]; then rm -f \"$mnt/"@ + credential + "\" \"$mnt/"@ + marker + "\" || exit 1; umount \"$mnt\" || exit 1; fi; exit 0; fi; sleep 5; done; exit 1"@
}

/// The unit file a first-boot TPM2 enrolment is staged as.
pub open spec fn tpm2_unit_text(
    name: Seq<char>,
    key: Seq<char>,
    pin: Option<Seq<char>>,
    uuid: Seq<char>,
    pcr_policy: bool,
) -> Seq<char> {
    let script = tpm2_script(key, uuid, enroll_args(pin is Some, pcr_policy));
    let pin_credential = match pin {
        Some(path) => "LoadCredential=cryptenroll.new-tpm2-pin:"@ + path + "\n"@,
        None => seq![],
    };
    let shred_pin = match pin {
        Some(path) => "ExecStartPost=-/usr/bin/shred -u "@ + path + "\n"@,
        None => seq![],
    };
    "[Unit]\nDescription=Enroll the "@ + name + " container for TPM2 unlock\nConditionPathExists="@ + key + "\nAfter=basic.target\nBefore=systemd-user-sessions.service\nDefaultDependencies=no\n\n[Service]\nType=oneshot\nRemainAfterExit=no\nTimeoutStartSec=120\nStandardOutput=journal+console\nStandardError=journal+console\n"@ + pin_credential + "ExecStartPre=/bin/echo '"@ + ENROLLING@ + "'\nExecStart=/bin/bash -c '"@ + script + "'\nExecStartPost=-/usr/bin/shred -u "@ + key + "\n"@ + shred_pin + "ExecStartPost=-/usr/bin/systemctl disable tect-tpm2-enroll-"@ + name + ".service\n\n[Install]\nWantedBy=multi-user.target\n"@
}

fn tpm2_script_of(key: &str, uuid: &str, enroll: &str) -> (out: String)
    ensures
        out@ == tpm2_script(key@, uuid@, enroll@),
{
    let marker = owned("loader/credentials/cryptsetup.slot");
    let credential = owned("loader/credentials/cryptsetup.passphrase.cred");
    let mut out = String::new();
    out.append("mnt=/run/tpm2-enroll-esp; slot=; esp=; while read -r name parttype; do [ \"$parttype\" = \"");
    out.append(ESP_TYPE);
    out.append("\" ] || continue; mkdir -p \"$mnt\"; mount \"/dev/$name\" \"$mnt\" 2>/dev/null || continue; if [ -s \"$mnt/");
    out.append(&marker);
    out.append("\" ]; then slot=$(cat \"$mnt/");
    out.append(&marker);
    out.append("\"); esp=$name; break; fi; umount \"$mnt\" 2>/dev/null; done < <(lsblk -rno NAME,PARTTYPE); wipe=; if [ -n \"$slot\" ] && cryptsetup luksDump \"/dev/disk/by-uuid/");
    out.append(uuid);
    out.append("\" | grep -qE \"^[[:space:]]*$slot: luks2\"; then wipe=\"--wipe-slot=$slot\"; fi; for i in 1 2 3 4 5; do if /usr/bin/systemd-cryptenroll --tpm2-device=auto ");
    out.append(enroll);
    out.append(" --unlock-key-file=");
    out.append(key);
    out.append(" $wipe /dev/disk/by-uuid/");
    out.append(uuid);
    out.append("; then if [ -n \"$esp\" ]; then rm -f \"$mnt/");
    out.append(&credential);
    out.append("\" \"$mnt/");
    out.append(&marker);
    out.append("\" || exit 1; umount \"$mnt\" || exit 1; fi; exit 0; fi; sleep 5; done; exit 1");
    out
}

/// `systemd-cryptenroll` seals against the PCRs of the machine it runs on.
/// The live installer's PCRs are not the installed machine's, so this unit
/// enrols on the first boot. The key that opens the container and an optional
/// PIN are staged beside the unit and shredded once the token is in.
///
/// If `pcr_policy` is true, then the installed image carries a signed PCR 11
/// policy and the token binds to that policy as well as to PCR 7.
/// `systemd-stub` places the booted UKI's `.pcrsig` and `.pcrpkey` under
/// `/run/systemd/` as it boots. The unit names both paths outright, because
/// `systemd-cryptenroll` otherwise binds to no PCRs at all when it finds no
/// public key and no signature. An image with no policy keeps PCR 7 alone.
///
/// The automatic finalize leaves a marker beside the credential on the ESP,
/// naming the one-time slot it added. The unit then wipes that slot in the
/// same enrolment command and deletes both files, so the credential stops
/// opening the volume at the boot the token arrives.
///
/// `Before=systemd-user-sessions.service` holds every getty and display
/// manager until the unit exits, and `TimeoutStartSec` covers a hang as well
/// as a failure.
pub fn tpm2_unit(name: &str, key: &str, pin: Option<&str>, uuid: &str, pcr_policy: bool) -> (unit:
    String)
    ensures
        unit@ == tpm2_unit_text(
            name@,
            key@,
            match pin {
                Some(p) => Some(p@),
                None => None,
            },
            uuid@,
            pcr_policy,
        ),
{
    let mut enroll = match pcr_policy {
        true => owned(
            "--tpm2-pcrs=7 --tpm2-public-key=/run/systemd/tpm2-pcr-public-key.pem --tpm2-signature=/run/systemd/tpm2-pcr-signature.json",
        ),
        false => owned("--tpm2-pcrs=7"),
    };
    if pin.is_some() {
        enroll.append(" --tpm2-with-pin=yes");
    }
    proof {
        let pcr_part = if pcr_policy {
            "--tpm2-pcrs=7 --tpm2-public-key=/run/systemd/tpm2-pcr-public-key.pem --tpm2-signature=/run/systemd/tpm2-pcr-signature.json"@
        } else {
            "--tpm2-pcrs=7"@
        };
        if pin.is_none() {
            assert(pcr_part + seq![] =~= pcr_part);
        }
    }
    let pin_credential = match pin {
        Some(path) => cat3("LoadCredential=cryptenroll.new-tpm2-pin:", path, "\n"),
        None => String::new(),
    };
    let shred_pin = match pin {
        Some(path) => cat3("ExecStartPost=-/usr/bin/shred -u ", path, "\n"),
        None => String::new(),
    };
    let script = tpm2_script_of(key, uuid, &enroll);
    let mut out = String::new();
    out.append("[Unit]\nDescription=Enroll the ");
    out.append(name);
    out.append(" container for TPM2 unlock\nConditionPathExists=");
    out.append(key);
    out.append("\nAfter=basic.target\nBefore=systemd-user-sessions.service\nDefaultDependencies=no\n\n[Service]\nType=oneshot\nRemainAfterExit=no\nTimeoutStartSec=120\nStandardOutput=journal+console\nStandardError=journal+console\n");
    out.append(&pin_credential);
    out.append("ExecStartPre=/bin/echo '");
    out.append(ENROLLING);
    out.append("'\nExecStart=/bin/bash -c '");
    out.append(&script);
    out.append("'\nExecStartPost=-/usr/bin/shred -u ");
    out.append(key);
    out.append("\n");
    out.append(&shred_pin);
    out.append("ExecStartPost=-/usr/bin/systemctl disable tect-tpm2-enroll-");
    out.append(name);
    out.append(".service\n\n[Install]\nWantedBy=multi-user.target\n");
    out
}

/// The installer verifies every key it adds. A key that does not open its
/// own container is a change the install must not leave behind.
pub fn added_key_wrong(device: &str) -> (said: String)
    ensures
        said@ == "the key just added to "@ + device@ + " does not open it"@,
{
    cat3("the key just added to ", device, " does not open it")
}

pub fn old_root_unnamed(partition: &str) -> (said: String)
    ensures
        said@ == "no old system on this disk names a key for "@ + partition@,
{
    cat("no old system on this disk names a key for ", partition)
}

pub fn old_root_partly(unread: &str) -> (said: String)
    ensures
        said@ == unread@ + ", and nothing readable named a key"@,
{
    cat(unread, ", and nothing readable named a key")
}

pub fn old_root_key_missing(volume: &str, at: &str, why: &str) -> (said: String)
    ensures
        said@ == "the key "@ + at@ + " that opens "@ + volume@ + " could not be read: "@ + why@,
{
    let mut said = cat4("the key ", at, " that opens ", volume);
    said.append(" could not be read: ");
    said.append(why);
    said
}

pub fn old_root_key_outside(at: &str) -> (said: String)
    ensures
        said@ == "the key "@ + at@ + " is not a file inside the system that names it"@,
{
    cat3("the key ", at, " is not a file inside the system that names it")
}

pub fn old_root_key_wrong(partition: &str) -> (said: String)
    ensures
        said@ == "the key the old system named for "@ + partition@ + " does not open it"@,
{
    cat3("the key the old system named for ", partition, " does not open it")
}

pub fn old_root_key_unreadable(volume: &str) -> (said: String)
    ensures
        said@ == volume@ + " opens with a script this installer cannot run"@,
{
    cat(volume, " opens with a script this installer cannot run")
}

/// The old system reads this volume's key from removable media, through
/// Debian's `passdev` or a `path:device` third crypttab field. The installer
/// refuses the volume instead of copying the key onto the root, because the
/// user keeps that media apart from the machine on purpose.
pub fn old_root_key_removable(volume: &str) -> (said: String)
    ensures
        said@ == volume@
            + " opens with a key file on removable media, which this installer does not copy onto the machine"@,
{
    cat(
        volume,
        " opens with a key file on removable media, which this installer does not copy onto the machine",
    )
}

/// `keyfile-timeout=` waits for a key file to appear at boot, which is the
/// same removable-media arrangement said another way. The installer does not
/// configure it.
pub fn old_root_key_waited(volume: &str) -> (said: String)
    ensures
        said@ == volume@
            + " waits for its key file at boot, which this installer does not configure"@,
{
    cat(volume, " waits for its key file at boot, which this installer does not configure")
}

pub fn custom_keep_boot(bootloader: &str) -> (said: String)
    ensures
        said@ == if bootloader@ == "systemd"@ {
            "systemd-boot does not use a separate /boot"@
        } else {
            bootloader@ + " installs with a supported ext4 /boot"@
        },
{
    if str_eq(bootloader, "systemd") {
        owned("systemd-boot does not use a separate /boot")
    } else {
        cat(bootloader, " installs with a supported ext4 /boot")
    }
}

/// The installer asks this once, after the form is complete and before it
/// writes to the disk. The question carries the whole cost of installing.
pub fn erasing(disk: &str) -> (said: String)
    ensures
        said@ == "Erase everything on "@ + disk@ + "? This cannot be undone."@,
{
    cat3("Erase everything on ", disk, "? This cannot be undone.")
}

pub fn changing_partitions(disk: &str) -> (said: String)
    ensures
        said@ == "Erase the partitions marked format on "@ + disk@ + "? This cannot be undone."@,
{
    cat3("Erase the partitions marked format on ", disk, "? This cannot be undone.")
}

/// The layout removes partitions the user never marked for format, and one
/// of them may carry another operating system. `changing_partitions` would
/// tell the user the wrong thing, so this question says DELETE instead. The
/// summary lists each removed partition by name below it.
pub fn removing_partitions(disk: &str, count: usize) -> (said: String)
    ensures
        said@ == if count == 1 {
            "DELETE 1 partition on "@ + disk@ + "? Its contents are lost."@
        } else {
            "DELETE "@ + decimal(count as nat) + " partitions on "@ + disk@
                + "? Their contents are lost."@
        },
{
    if count == 1 {
        cat3("DELETE 1 partition on ", disk, "? Its contents are lost.")
    } else {
        let mut said = cat3("DELETE ", &decimal_usize(count), " partitions on ");
        said.append(disk);
        said.append("? Their contents are lost.");
        said
    }
}

/// `DELETED` is deliberately the loudest word on the summary screen.
pub fn summary_deleted(partition: &str) -> (said: String)
    ensures
        said@ == partition@ + "  DELETED, contents lost"@,
{
    cat(partition, "  DELETED, contents lost")
}

/// The confirmation names each ESP boot entry the install removes, because
/// the system it belonged to is rewritten or deleted.
pub fn summary_esp(entry: &str, partition: &str) -> (said: String)
    ensures
        said@ == entry@ + " boot entry on "@ + partition@ + " is removed"@,
{
    cat4(entry, " boot entry on ", partition, " is removed")
}

pub fn summary_created(gb: u64, fstype: &str) -> (said: String)
    ensures
        said@ == "a new "@ + decimal(gb as nat) + " GB partition, format as "@ + fstype@,
{
    cat4("a new ", &decimal_u64(gb), " GB partition, format as ", fstype)
}

/// The note names the installer's own tty and the key that returns to it.
/// The calling command reads the VT number from the machine, because the
/// installer cannot assume which VT it runs on.
pub fn switch_note(vt: u32) -> (said: String)
    ensures
        said@ == "Installer on tty"@ + decimal(vt as nat) + "; press Ctrl+Alt+F"@ + decimal(
            vt as nat,
        ) + " to return."@,
{
    let n = decimal_u32(vt);
    let mut said = cat4("Installer on tty", &n, "; press Ctrl+Alt+F", &n);
    said.append(" to return.");
    said
}

/// These five head the table's value columns. `ROW_DISK` heads the label
/// column to their left, which carries the partition names.
pub fn layout_headings() -> (heads: [&'static str; 5])
    ensures
        heads@ == seq!["size", "filesystem", "format", "type", "mount"],
{
    ["size", "filesystem", "format", "type", "mount"]
}

/// Gives the table's value columns their fixed widths, one per heading. The
/// widest thing each column can hold sets its number: `100.1 GB` and the
/// automatic plan's `the rest` the size, `luks(closed)` the filesystem, the
/// heading alone carries the format, the longest type word (`linux`) the type,
/// and `/boot/efi` the mount.
pub fn layout_widths() -> (widths: [usize; 5])
    ensures
        widths@ == seq![8usize, 12, 6, 5, 9],
{
    [8, 12, 6, 5, 9]
}

/// This action plans away partitions the user never looked at, so the
/// confirmation says how many.
pub fn clear_all(count: usize) -> (said: String)
    ensures
        said@ == "plan to remove all "@ + decimal(count as nat) + " partitions on this disk?"@,
{
    cat3("plan to remove all ", &decimal_usize(count), " partitions on this disk?")
}

/// The Assign list offers a partition these mount points. `assigns` leaves
/// `/boot` out where the target's bootloader cannot read a separate one.
pub fn mount_points() -> (points: [&'static str; 4])
    ensures
        points@ == seq!["/boot/efi", "/", "/boot", "/swap"],
{
    ["/boot/efi", "/", "/boot", "/swap"]
}

/// The `select partition format` overlay offers these, in the mock's order.
/// `luks` makes the partition a container instead of a plain filesystem.
pub fn format_options() -> (formats: [&'static str; 5])
    ensures
        formats@ == seq!["btrfs", "ext4", "fat32", "xfs", "luks"],
{
    ["btrfs", "ext4", "fat32", "xfs", "luks"]
}

/// Offers a created partition every `format_options` entry but `luks`.
/// `collect` refuses a manual container through `CUSTOM_LUKS_LATER`, which
/// reads the layout's mounts and never a create, so `luks` on a create would
/// be a dead end the screen never refuses.
pub fn plain_formats() -> (formats: [&'static str; 4])
    ensures
        formats@ == seq!["btrfs", "ext4", "fat32", "xfs"],
{
    ["btrfs", "ext4", "fat32", "xfs"]
}

pub open spec fn boot_chain_text(boot: Seq<char>) -> Option<Seq<char>> {
    if boot == "uki-shim"@ {
        Some("owner-signed UKI through Microsoft shim"@)
    } else if boot == "uki-db"@ {
        Some("owner-signed UKI through firmware keys"@)
    } else {
        None
    }
}

pub fn boot_chain(boot: &str) -> (chain: Option<&'static str>)
    ensures
        match boot_chain_text(boot@) {
            Some(t) => chain matches Some(c) && c@ == t,
            None => chain is None,
        },
{
    if str_eq(boot, "uki-shim") {
        Some("owner-signed UKI through Microsoft shim")
    } else if str_eq(boot, "uki-db") {
        Some("owner-signed UKI through firmware keys")
    } else {
        None
    }
}

/// A whole number of GB the way the screens say a size, with one decimal
/// place.
pub open spec fn gb_text(gb: nat) -> Seq<char> {
    decimal(gb) + ".0 GB"@
}

/// Says a whole number of GB the way the screens say a size. A whole number
/// read as a decimal prints one `0` after the point.
pub fn gb_said(gb: u64) -> (said: String)
    ensures
        said@ == gb_text(gb as nat),
{
    cat(&decimal_u64(gb), ".0 GB")
}

/// Refuses a created root smaller than the room the image needs for the
/// installed copy and the staged deployment beside it. The refusal belongs
/// here because `bootc` would discover it only after the disk had been cut
/// and formatted, with the old partition table already gone.
pub fn custom_root_too_small(gb: u64, reserve: u64) -> (said: String)
    ensures
        said@ == "a "@ + decimal(gb as nat) + " GB root is below the "@ + decimal(reserve as nat)
            + " GB this image needs"@,
{
    let mut said = cat4("a ", &decimal_u64(gb), " GB root is below the ", &decimal_u64(reserve));
    said.append(" GB this image needs");
    said
}

/// The rows the confirmation spells out for a whole-disk install.
pub open spec fn written_over_rows(bootloader: Seq<char>, filesystem: Seq<char>) -> Seq<
    (Seq<char>, Seq<char>),
> {
    let esp = seq![("esp"@, gb_text(2) + "  fat32"@)];
    let boot = if bootloader != "systemd"@ {
        seq![("/boot"@, gb_text(2) + "  ext4"@)]
    } else {
        seq![]
    };
    esp + boot + seq![("root"@, "the rest  "@ + filesystem)]
}

/// The confirmation spells out one row per partition the install will cut.
/// The rows follow the order the plan cuts in. The signed boot chain belongs
/// to the image and is drawn in the panel, so it is not a row here.
pub fn written_over(bootloader: &str, filesystem: &str) -> (rows: Vec<(String, String)>)
    ensures
        rows.deep_view() == written_over_rows(bootloader@, filesystem@),
{
    let mut rows: Vec<(String, String)> = Vec::new();
    rows.push((owned("esp"), cat(&gb_said(2), "  fat32")));
    if !str_eq(bootloader, "systemd") {
        rows.push((owned("/boot"), cat(&gb_said(2), "  ext4")));
    }
    rows.push((owned("root"), cat("the rest  ", filesystem)));
    assert(rows.deep_view() =~= written_over_rows(bootloader@, filesystem@));
    rows
}

/// The dim action says which fields are still missing. Nothing derives these
/// fields and no default stands in for them.
pub fn still_needs(fields: &[&str]) -> (said: String)
    ensures
        said@ == "Missing: "@ + join(fields@.map_values(|f: &str| f@), ", "@),
{
    let mut parts: Vec<String> = Vec::new();
    let mut i: usize = 0;
    while i < fields.len()
        invariant
            i <= fields.len(),
            parts.deep_view() =~= fields@.map_values(|f: &str| f@).take(i as int),
        decreases fields.len() - i,
    {
        let ghost before = parts.deep_view();
        let part = owned(fields[i]);
        parts.push(part);
        assert(parts.deep_view() =~= before.push(part@));
        i = i + 1;
    }
    assert(fields@.map_values(|f: &str| f@).take(i as int) =~= fields@.map_values(|f: &str| f@));
    cat("Missing: ", &join_strings(&parts, ", "))
}

/// The title bar names the image and the current screen, so a user looking
/// at a photograph of the screen knows both.
pub fn installing(image: &str) -> (said: String)
    ensures
        said@ == image@ + " installer \u{2022} configure"@,
{
    cat(image, " installer \u{2022} configure")
}

/// A live environment may have nothing writable on it. The installer says so
/// outright, because the user cannot tell a log that was never written from
/// one they cannot find. `log` is the log's path as it is displayed.
pub fn logging(log: Option<&str>) -> (said: String)
    ensures
        said@ == match log {
            Some(at) => "the install log is at "@ + at@,
            None => "nothing here is writable, so this screen is the only copy"@,
        },
{
    match log {
        Some(at) => cat("the install log is at ", at),
        None => owned("nothing here is writable, so this screen is the only copy"),
    }
}

/// A user watching an install cannot ask for two facts. This line says that
/// the disk is being overwritten and where the transcript is. It stays short,
/// because it draws as one line inside a box.
pub fn writing(log: Option<&str>) -> (said: String)
    ensures
        said@ == match log {
            Some(at) => "disk being overwritten; log: "@ + at@,
            None => "disk being overwritten; this screen is the only log"@,
        },
{
    match log {
        Some(at) => cat("disk being overwritten; log: ", at),
        None => owned("disk being overwritten; this screen is the only log"),
    }
}

/// This key is the only copy the user will ever get. The disk does not open
/// without it if the TPM stops answering.
pub fn recovery(key: &str) -> (said: String)
    ensures
        said@ == "Write it down; it is the only copy."@ + " "@ + key@,
{
    cat3(write_down(), " ", key)
}

/// The completion screen draws this above the key. Where there is no screen
/// to draw on, `recovery` appends the key to this line instead.
pub fn write_down() -> (said: &'static str)
    ensures
        said@ == "Write it down; it is the only copy."@,
{
    "Write it down; it is the only copy."
}

/// The completion screen explains what the automatic action does. Each
/// paragraph wraps to its own run of rows, as the firmware steps do.
pub fn automatic_explanation() -> (paragraphs: [&'static str; 2])
    ensures
        paragraphs@ == seq![
            "This reboots once to enrol LUKS with the TPM. A temporary TPM-encrypted key is staged on the ESP and unlocks the disk on the next boot; the first boot then enrols the TPM, removes the temporary key entry from LUKS and deletes the temporary key before restarting.",
            "Choose 'Manual' below to unlock the next boot with the recovery key instead.",
        ],
{
    [
        "This reboots once to enrol LUKS with the TPM. A temporary TPM-encrypted key is staged on the ESP and unlocks the disk on the next boot; the first boot then enrols the TPM, removes the temporary key entry from LUKS and deletes the temporary key before restarting.",
        "Choose 'Manual' below to unlock the next boot with the recovery key instead.",
    ]
}

/// The last screen asks for setup mode where a `uki-db` image's platform key
/// is still not the owner's. Vendors name that mode differently, so the text
/// gives the common wording too.
pub fn next_steps_setup() -> (said: &'static str)
    ensures
        said@ == "Before the installed image boots, set secure boot to 'setup mode'. The steps are vendor specific: often set secure boot to 'custom', then delete the existing platform key (PK)."@,
{
    "Before the installed image boots, set secure boot to 'setup mode'. The steps are vendor specific: often set secure boot to 'custom', then delete the existing platform key (PK)."
}

/// The shim chain asks the user for one confirmation and no firmware change.
/// The panel says it before the install and the last screen repeats it
/// after.
pub fn shim_steps() -> (said: &'static str)
    ensures
        said@ == "On first boot, use MokManager to enrol EFI/BOOT/MOK.cer; no firmware change is needed."@,
{
    "On first boot, use MokManager to enrol EFI/BOOT/MOK.cer; no firmware change is needed."
}

/// The Required rows warn the user of a `uki-db` image that their platform
/// key will be deleted. The vendor's own steps come after the install, so no
/// row carries them. The panel wraps each row to its own width and draws the
/// empty row as a blank line.
pub fn required_uki_db() -> (rows: [&'static str; 3])
    ensures
        rows@ == seq![
            "Secure boot with the systemd-boot bootloader needs the image's platform key set in this system's UEFI.",
            "",
            "The existing platform key is deleted, so any existing OS here stops booting with secure boot on.",
        ],
{
    [
        "Secure boot with the systemd-boot bootloader needs the image's platform key set in this system's UEFI.",
        "",
        "The existing platform key is deleted, so any existing OS here stops booting with secure boot on.",
    ]
}

} // verus!
