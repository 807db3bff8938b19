//! The panel above the form, which states the firmware and what the image
//! needs from it, and the steps the last screen asks for.

use crate::copy;
use crate::firmware::{Firmware, PlatformKey};
use crate::payload::Payload;
use crate::seqs::{first_where, lemma_first_where, lemma_first_where_found};
use crate::text::{cat, chars_of, owned, str_eq, string_of};
use crate::ui::{line_view, lines_view, HeaderLine};
use vstd::prelude::*;

verus! {

/// The steps the last screen asks for, from the reading the panel used. An
/// image that needs no step gets none, and neither does firmware that is not
/// UEFI. A `uki-shim` image asks for the MokManager step; a `uki-db` image
/// asks for setup mode unless the owner holds both the platform key and the
/// database, or the firmware already sits in setup mode.
pub open spec fn next_steps_text(boot: Seq<char>, firmware: Firmware) -> Option<Seq<char>> {
    if !firmware.efivars {
        None
    } else if boot == "uki-shim"@ {
        Some("On first boot, use MokManager to enrol EFI/BOOT/MOK.cer; no firmware change is needed."@)
    } else if boot == "uki-db"@ {
        if (firmware.platform_key == PlatformKey::Owner && firmware.database)
            || firmware.platform_key == PlatformKey::NoKey {
            None
        } else {
            Some("Before the installed image boots, set secure boot to 'setup mode'. The steps are vendor specific: often set secure boot to 'custom', then delete the existing platform key (PK)."@)
        }
    } else {
        None
    }
}

/// Returns the steps the last screen asks for.
pub fn next_steps(boot: &str, firmware: &Firmware) -> (steps: Option<&'static str>)
    ensures
        match steps {
            Some(s) => next_steps_text(boot@, *firmware) == Some(s@),
            None => next_steps_text(boot@, *firmware) is None,
        },
{
    if !firmware.efivars {
        return None;
    }
    if str_eq(boot, "uki-shim") {
        Some(copy::shim_steps())
    } else if str_eq(boot, "uki-db") {
        if (firmware.platform_key == PlatformKey::Owner && firmware.database)
            || firmware.platform_key == PlatformKey::NoKey {
            None
        } else {
            Some(copy::next_steps_setup())
        }
    } else {
        None
    }
}

/// The rows the erase confirmation carries in the warning colour: the
/// platform-key fact a `uki-db` image's steps rest on, said before the
/// install.
pub fn erase_warning(boot: &str, firmware: &Firmware) -> (rows: Vec<&'static str>)
    ensures
        rows@ == (if boot@ == "uki-db"@ && next_steps_text(boot@, *firmware) is Some {
            seq![copy::ERASE_WARNING_SECURE_BOOT, copy::ERASE_WARNING_UEFI_SETUP]
        } else {
            Seq::empty()
        }),
{
    let mut rows: Vec<&'static str> = Vec::new();
    if str_eq(boot, "uki-db") && next_steps(boot, firmware).is_some() {
        rows.push(copy::ERASE_WARNING_SECURE_BOOT);
        rows.push(copy::ERASE_WARNING_UEFI_SETUP);
        assert(rows@ =~= seq![copy::ERASE_WARNING_SECURE_BOOT, copy::ERASE_WARNING_UEFI_SETUP]);
    } else {
        assert(rows@ =~= Seq::<&'static str>::empty());
    }
    rows
}

/// The last `/` of a text, as `rsplit` finds it.
pub open spec fn last_slash(s: Seq<char>) -> Option<int>
    decreases s.len(),
{
    if s.len() == 0 {
        None
    } else if s.last() == '/' {
        Some(s.len() - 1)
    } else {
        last_slash(s.drop_last())
    }
}

/// A tag or digest separator.
pub open spec fn tag_mark() -> spec_fn(char) -> bool {
    |c: char| c == ':' || c == '@'
}

/// The image's name inside its reference: the last path segment without a
/// tag or a digest, or the whole reference where that is empty.
pub open spec fn image_name_text(reference: Seq<char>) -> Seq<char> {
    let last = match last_slash(reference) {
        Some(i) => reference.subrange(i + 1, reference.len() as int),
        None => reference,
    };
    let name = match first_where(last, tag_mark()) {
        Some(j) => last.subrange(0, j),
        None => last,
    };
    if name.len() == 0 { reference } else { name }
}

/// Returns the image's name inside its reference, which is what the user
/// calls the image.
pub fn image_name(reference: &str) -> (name: String)
    ensures
        name@ == image_name_text(reference@),
{
    let chars = chars_of(reference);
    assert(chars@.subrange(0, chars@.len() as int) =~= chars@);
    let mut k: usize = chars.len();
    while k > 0 && chars[k - 1] != '/'
        invariant
            k <= chars@.len(),
            chars@ == reference@,
            last_slash(chars@) == last_slash(chars@.subrange(0, k as int)),
        decreases k,
    {
        assert(chars@.subrange(0, k as int).drop_last() =~= chars@.subrange(0, k - 1));
        k = k - 1;
    }
    proof {
        if k > 0 {
            assert(chars@.subrange(0, k as int).last() == '/');
        } else {
            assert(chars@.subrange(0, 0) =~= Seq::<char>::empty());
        }
    }
    let mut end: usize = k;
    while end < chars.len() && chars[end] != ':' && chars[end] != '@'
        invariant
            k <= end <= chars@.len(),
            forall|j: int| k <= j < end ==> !tag_mark()(#[trigger] chars@[j]),
        decreases chars.len() - end,
    {
        end = end + 1;
    }
    let ghost last = chars@.subrange(k as int, chars@.len() as int);
    proof {
        assert forall|j: int| 0 <= j < end - k implies !tag_mark()(#[trigger] last[j]) by {
            assert(last[j] == chars@[k + j]);
        }
        if end < chars@.len() {
            assert(last[end - k] == chars@[end as int]);
        }
        lemma_first_where(last, tag_mark(), end - k);
        assert(last.subrange(0, end - k) =~= chars@.subrange(k as int, end as int));
    }
    if end == k {
        owned(reference)
    } else {
        let part = crate::text::slice_range(chars.as_slice(), k, end);
        string_of(part.as_slice())
    }
}

/// Names the boot chain the payload declares, for the image section.
pub open spec fn bootloader_text(boot: Seq<char>, bootloader: Seq<char>) -> Seq<char> {
    if boot.len() > 0 {
        if bootloader == "systemd"@ {
            "systemd-boot with a signed UKI"@
        } else {
            bootloader + " with a signed UKI"@
        }
    } else if bootloader.len() == 0 || bootloader == "grub2"@ {
        "grub2"@
    } else {
        bootloader
    }
}

pub fn bootloader_said(payload: &Payload) -> (said: String)
    ensures
        said@ == bootloader_text(payload.boot@, payload.bootloader@),
{
    let bootloader = payload.bootloader.as_str();
    if !payload.boot.as_str().is_empty() {
        if str_eq(bootloader, "systemd") {
            owned("systemd-boot with a signed UKI")
        } else {
            cat(bootloader, " with a signed UKI")
        }
    } else if bootloader.is_empty() || str_eq(bootloader, "grub2") {
        owned("grub2")
    } else {
        owned(bootloader)
    }
}

pub type LineView = (int, Seq<char>, Seq<char>);

/// The secure-boot line: on reads green, off amber, setup mode says so, and
/// a state the firmware did not answer pairs with its label untinted.
pub open spec fn secure_line(firmware: Firmware) -> LineView {
    match firmware.secure_boot {
        Some(true) => (3, copy::FIRMWARE_SECURE@, copy::FIRMWARE_ON@),
        Some(false) => if firmware.setup_mode == Some(true) {
            (4, copy::FIRMWARE_SECURE@, copy::FIRMWARE_SETUP@)
        } else {
            (4, copy::FIRMWARE_SECURE@, copy::FIRMWARE_OFF@)
        },
        None => (1, copy::FIRMWARE_SECURE@, copy::FIRMWARE_UNREADABLE@),
    }
}

pub open spec fn key_said(key: PlatformKey) -> Seq<char> {
    match key {
        PlatformKey::Owner => copy::PLATFORM_KEY_OWNER@,
        PlatformKey::Other => copy::PLATFORM_KEY_PRESENT@,
        PlatformKey::Unknown => copy::PLATFORM_KEY_UNKNOWN@,
        PlatformKey::NoKey => copy::PLATFORM_KEY_SETUP@,
    }
}

/// The panel's words from a firmware reading: the image section, the
/// firmware section, and for a UKI image the section saying what it needs.
pub open spec fn panel_spec(firmware: Firmware, payload: Payload) -> Seq<LineView> {
    let head = seq![
        (0, copy::PANEL_IMAGE@, Seq::empty()),
        (1, "name"@, image_name_text(payload.image@)),
        (1, "repo"@, payload.image@),
        (1, "bootloader"@, bootloader_text(payload.boot@, payload.bootloader@)),
        (0, copy::PANEL_FIRMWARE@, Seq::empty()),
    ];
    let state = if !firmware.efivars {
        seq![(2, copy::FIRMWARE_NO_EFIVARS@, Seq::empty())]
    } else {
        seq![secure_line(firmware), (1, copy::PLATFORM_KEY@, key_said(firmware.platform_key))]
    };
    let lines = head + state;
    if payload.boot@.len() == 0 {
        lines
    } else {
        let required = lines + seq![(0, copy::PANEL_REQUIRED@, Seq::empty())];
        let row = |t: Seq<char>| (2int, t, Seq::<char>::empty());
        if !firmware.efivars {
            required + seq![row(copy::UKI_NEEDS_UEFI@)]
        } else if payload.boot@ == "uki-db"@ && firmware.platform_key == PlatformKey::Owner && firmware.database {
            required + seq![row(copy::UKI_DB_OWNER@)]
        } else if payload.boot@ == "uki-db"@ && firmware.platform_key == PlatformKey::NoKey {
            required + seq![row(copy::UKI_DB_ENROLL@)]
        } else if payload.boot@ == "uki-db"@ {
            required + seq![
                row("Secure boot with the systemd-boot bootloader needs the image's platform key set in this system's UEFI."@),
                row(""@),
                row("The existing platform key is deleted, so any existing OS here stops booting with secure boot on."@),
            ]
        } else if payload.boot@ == "uki-shim"@ {
            required + seq![row("On first boot, use MokManager to enrol EFI/BOOT/MOK.cer; no firmware change is needed."@)]
        } else {
            required
        }
    }
}

fn push_line(lines: &mut Vec<HeaderLine>, line: HeaderLine)
    ensures
        lines_view(final(lines)@) == lines_view(old(lines)@).push(line_view(line)),
{
    lines.push(line);
    assert(lines_view(final(lines)@) =~= lines_view(old(lines)@).push(line_view(line)));
}

fn row(text: &str) -> (line: HeaderLine)
    ensures
        line_view(line) == (2int, text@, Seq::<char>::empty()),
{
    HeaderLine::Row(owned(text))
}

fn section(text: &str) -> (line: HeaderLine)
    ensures
        line_view(line) == (0int, text@, Seq::<char>::empty()),
{
    HeaderLine::Section(owned(text))
}

fn pair(a: &str, b: &str) -> (line: HeaderLine)
    ensures
        line_view(line) == (1int, a@, b@),
{
    HeaderLine::Pair(owned(a), owned(b))
}

/// Writes the panel's words from a firmware reading.
#[verifier::rlimit(40)]
pub fn panel_lines(firmware: &Firmware, payload: &Payload) -> (lines: Vec<HeaderLine>)
    ensures
        lines_view(lines@) == panel_spec(*firmware, *payload),
{
    let mut lines: Vec<HeaderLine> = Vec::new();
    push_line(&mut lines, section(copy::PANEL_IMAGE));
    push_line(&mut lines, HeaderLine::Pair(owned("name"), image_name(payload.image.as_str())));
    push_line(&mut lines, pair("repo", payload.image.as_str()));
    push_line(&mut lines, HeaderLine::Pair(owned("bootloader"), bootloader_said(payload)));
    push_line(&mut lines, section(copy::PANEL_FIRMWARE));
    if !firmware.efivars {
        push_line(&mut lines, row(copy::FIRMWARE_NO_EFIVARS));
    } else {
        let secure = match firmware.secure_boot {
            Some(true) => HeaderLine::Good(owned(copy::FIRMWARE_SECURE), owned(copy::FIRMWARE_ON)),
            Some(false) => {
                if firmware.setup_mode == Some(true) {
                    HeaderLine::Warn(owned(copy::FIRMWARE_SECURE), owned(copy::FIRMWARE_SETUP))
                } else {
                    HeaderLine::Warn(owned(copy::FIRMWARE_SECURE), owned(copy::FIRMWARE_OFF))
                }
            },
            None => pair(copy::FIRMWARE_SECURE, copy::FIRMWARE_UNREADABLE),
        };
        push_line(&mut lines, secure);
        let key = match firmware.platform_key {
            PlatformKey::Owner => copy::PLATFORM_KEY_OWNER,
            PlatformKey::Other => copy::PLATFORM_KEY_PRESENT,
            PlatformKey::Unknown => copy::PLATFORM_KEY_UNKNOWN,
            PlatformKey::NoKey => copy::PLATFORM_KEY_SETUP,
        };
        push_line(&mut lines, pair(copy::PLATFORM_KEY, key));
    }
    let boot = payload.boot.as_str();
    if boot.is_empty() {
        return lines;
    }
    push_line(&mut lines, section(copy::PANEL_REQUIRED));
    if !firmware.efivars {
        push_line(&mut lines, row(copy::UKI_NEEDS_UEFI));
        return lines;
    }
    let db = str_eq(boot, "uki-db");
    if db && firmware.platform_key == PlatformKey::Owner && firmware.database {
        push_line(&mut lines, row(copy::UKI_DB_OWNER));
    } else if db && firmware.platform_key == PlatformKey::NoKey {
        push_line(&mut lines, row(copy::UKI_DB_ENROLL));
    } else if db {
        let rows = copy::required_uki_db();
        push_line(&mut lines, row(rows[0]));
        push_line(&mut lines, row(rows[1]));
        push_line(&mut lines, row(rows[2]));
    } else if str_eq(boot, "uki-shim") {
        push_line(&mut lines, row(copy::shim_steps()));
    }
    lines
}

} // verus!
