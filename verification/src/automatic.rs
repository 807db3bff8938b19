//! The automatic action the completion screen offers: a one-time key sealed
//! into an ESP credential, so the first boot of the installed machine asks
//! for nothing. This module decides whether the action is offered, with
//! which key, and what a failed finalize says it left behind.

use crate::answers::{Answers, Key, LuksOpen, Opened};
use crate::copy;
use crate::etcwrite::ROOT_GUID;
use crate::payload::Payload;
use crate::seqs::{first_where, lemma_first_where};
use crate::text::{
    cat, chars_eq_ignore_case, chars_lines, chars_of, chars_words, decimal, decimal_u32, decimal_usize,
    join, join_strings, lines, owned, same_ignoring_case, str_eq, string_of, views, words,
};
use vstd::prelude::*;

verus! {

/// Names the credential `systemd-cryptsetup` asks for and the directory
/// `systemd-stub` packs from the ESP into the initrd.
pub const CREDENTIAL: &'static str = "cryptsetup.passphrase";

pub const CREDENTIAL_DIR: &'static str = "loader/credentials";

/// Names the file the first-boot unit reads the one-time slot from. Its
/// presence means the automatic action ran and its cleanup is owed.
pub const SLOT_FILE: &'static str = "cryptsetup.slot";

/// Holds an install the automatic action can finish.
pub struct Ready {
    pub image: String,
    /// Names the disk whose boot partition receives the credential.
    pub disk: String,
    /// Names the encrypted root the one-time key is added to.
    pub partition: String,
    /// Opens that root, and authenticates the one-time addition.
    pub key: Key,
    /// States that the root's token needs a PIN at every later unlock, so the
    /// window the credential opens states the PIN it does not ask for.
    pub pin: bool,
}

/// What the completion screen offers beside the restart.
pub enum Offered {
    /// The automatic action can finish this install.
    Ready(Ready),
    /// A first-boot enrolment is staged and the automatic action cannot carry
    /// it. The screen draws the action dim with this reason.
    Unavailable(String),
    /// This install stages no first-boot enrolment, so there is nothing to
    /// finalize and the screen offers the restart alone.
    Nothing,
}

/// Whether a container mounts as the root.
pub open spec fn opens_root_target() -> spec_fn(LuksOpen) -> bool {
    |o: LuksOpen| o.target@ == "/"@
}

/// Where the layout's root container stands in its opens.
pub open spec fn root_open_at(opens: Seq<LuksOpen>) -> Option<int> {
    first_where(opens, opens_root_target())
}

/// The key that authenticates the one-time addition, as plain values, and
/// whether the token asks for a PIN later. `None` means the install stages no
/// first-boot enrolment.
pub open spec fn unlocking_spec(a: Answers, recovery: Option<Seq<char>>) -> Option<((int, Seq<char>, Seq<u8>), bool)> {
    match a.layout {
        Some(l) => if a.opened != Opened::Tpm2 {
            None
        } else {
            match root_open_at(l.opens@) {
                Some(i) => Some((l.opens@[i].key.view_of(), false)),
                None => None,
            }
        },
        None => {
            let kind = a.encryption.kind@;
            if kind == "tpm2-luks"@ || kind == "tpm2-luks-pin"@ {
                match recovery {
                    Some(r) => Some(((0, r, Seq::empty()), "pin"@.is_suffix_of(kind))),
                    None => None,
                }
            } else if kind == "tpm2-luks-passphrase"@ {
                Some(((0, a.encryption.passphrase@, Seq::empty()), false))
            } else {
                None
            }
        },
    }
}

/// Finds the layout's root container.
pub fn root_open(opens: &Vec<LuksOpen>) -> (at: Option<usize>)
    ensures
        match at {
            Some(k) => k < opens@.len() && root_open_at(opens@) == Some(k as int),
            None => root_open_at(opens@) is None,
        },
{
    let ghost p = opens_root_target();
    let mut i: usize = 0;
    while i < opens.len()
        invariant
            i <= opens.len(),
            p == opens_root_target(),
            forall|j: int| 0 <= j < i ==> !p(#[trigger] opens@[j]),
        decreases opens.len() - i,
    {
        if str_eq(opens[i].target.as_str(), "/") {
            proof {
                lemma_first_where(opens@, p, i as int);
            }
            return Some(i);
        }
        i = i + 1;
    }
    proof {
        lemma_first_where(opens@, p, i as int);
    }
    None
}

/// Holds the key that authenticates the one-time addition and whether the
/// token asks for a PIN later. A layout stages an enrolment only where its
/// row chose the TPM, with the key its root opens by. A whole-disk install
/// stages one for the TPM kinds: the generated recovery key, which the
/// completion screen reports once, or the passphrase the user typed.
pub fn unlocking_key(answers: &Answers, recovery: Option<&str>) -> (out: Option<(Key, bool)>)
    ensures
        match unlocking_spec(*answers, match recovery { Some(r) => Some(r@), None => None }) {
            Some((k, pin)) => out matches Some((key, p)) && key.view_of() == k && p == pin,
            None => out is None,
        },
{
    if let Some(layout) = &answers.layout {
        if answers.opened != Opened::Tpm2 {
            return None;
        }
        return match root_open(&layout.opens) {
            Some(i) => Some((layout.opens[i].key.duplicate(), false)),
            None => None,
        };
    }
    let kind = answers.encryption.kind.as_str();
    if str_eq(kind, "tpm2-luks") || str_eq(kind, "tpm2-luks-pin") {
        match recovery {
            Some(key) => Some((Key::Passphrase(owned(key)), crate::text::ends_with(kind, "pin"))),
            None => None,
        }
    } else if str_eq(kind, "tpm2-luks-passphrase") {
        Some((Key::Passphrase(answers.encryption.passphrase.clone()), false))
    } else {
        None
    }
}

/// The devices of one partition type in an `lsblk NAME,PARTTYPE` listing,
/// line by line. The type compares without regard to case.
pub open spec fn typed_devices(lines: Seq<Seq<char>>, kind: Seq<char>) -> Seq<Seq<char>>
    decreases lines.len(),
{
    if lines.len() == 0 {
        seq![]
    } else {
        let rest = typed_devices(lines.drop_last(), kind);
        let w = words(lines.last());
        let found = if w.len() > 1 { w[1] } else { Seq::<char>::empty() };
        if w.len() > 0 && same_ignoring_case(found, kind) {
            rest.push("/dev/"@ + w[0])
        } else {
            rest
        }
    }
}

/// Reads one partition type's devices out of an `lsblk NAME,PARTTYPE`
/// listing. The compare ignores case, because util-linux and the disk agree
/// on the identifier and not always on its case.
pub fn partitions_of_type(listed: &str, kind: &str) -> (out: Vec<String>)
    ensures
        out.deep_view() == typed_devices(lines(listed@), kind@),
{
    let text = chars_of(listed);
    let kind_chars = chars_of(kind);
    let rows = chars_lines(text.as_slice());
    let ghost ls = lines(listed@);
    let mut out: Vec<String> = Vec::new();
    let mut i: usize = 0;
    while i < rows.len()
        invariant
            i <= rows.len(),
            views(rows@) == ls,
            kind_chars@ == kind@,
            out.deep_view() == typed_devices(ls.take(i as int), kind@),
        decreases rows.len() - i,
    {
        assert(ls.take(i + 1).drop_last() =~= ls.take(i as int));
        assert(ls[i as int] == rows@[i as int]@);
        let w = chars_words(rows[i].as_slice());
        if w.len() > 0 {
            let empty: Vec<char> = Vec::new();
            let found: &[char] = if w.len() > 1 { w[1].as_slice() } else { empty.as_slice() };
            assert(found@ == (if views(w@).len() > 1 { views(w@)[1] } else { Seq::<char>::empty() }));
            if chars_eq_ignore_case(found, kind_chars.as_slice()) {
                let ghost before = out.deep_view();
                let device = cat("/dev/", string_of(w[0].as_slice()).as_str());
                out.push(device);
                assert(out.deep_view() =~= before.push("/dev/"@ + views(w@)[0]));
            }
        }
        i = i + 1;
    }
    assert(ls.take(i as int) =~= ls);
    out
}

/// Names the encrypted root the one-time key is added to: the layout's root
/// container where a layout names one, else the one partition of the root
/// type that `listed`, the disk's `lsblk NAME,PARTTYPE` listing, holds.
pub open spec fn encrypted_root_spec(a: Answers, listed: Seq<char>) -> Result<Seq<char>, Seq<char>> {
    match a.layout {
        Some(l) => match root_open_at(l.opens@) {
            Some(i) => Ok(l.opens@[i].partition@),
            None => Err(copy::AUTO_NO_ROOT@),
        },
        None => {
            let found = typed_devices(lines(listed), ROOT_GUID@);
            if found.len() == 1 {
                Ok(found[0])
            } else if found.len() == 0 {
                Err(copy::AUTO_NO_ROOT@)
            } else {
                Err(decimal(found.len()) + " root partitions are on "@ + a.disk@ + ": "@ + join(found, ", "@))
            }
        },
    }
}

/// Names the encrypted root the one-time key is added to. A layout names its
/// root outright. The automatic layout's root is the partition fisherman
/// retags for the sealed UKI's GPT auto-discovery, read out of `listed`.
pub fn encrypted_root(answers: &Answers, listed: &str) -> (out: Result<String, String>)
    ensures
        match encrypted_root_spec(*answers, listed@) {
            Ok(p) => out matches Ok(q) && q@ == p,
            Err(w) => out matches Err(q) && q@ == w,
        },
{
    if let Some(layout) = &answers.layout {
        return match root_open(&layout.opens) {
            Some(i) => Ok(layout.opens[i].partition.clone()),
            None => Err(owned(copy::AUTO_NO_ROOT)),
        };
    }
    let found = partitions_of_type(listed, ROOT_GUID);
    if found.len() == 1 {
        assert(found.deep_view()[0] == found@[0]@);
        Ok(found[0].clone())
    } else if found.len() == 0 {
        Err(owned(copy::AUTO_NO_ROOT))
    } else {
        let mut said = decimal_usize(found.len());
        said.append(" root partitions are on ");
        said.append(answers.disk.as_str());
        said.append(": ");
        said.append(join_strings(&found, ", ").as_str());
        Err(said)
    }
}

/// What the completion screen offers, as plain values: the action's reason
/// where it cannot be taken, and the disk, root, key and PIN flag it takes
/// where it can.
pub open spec fn offered_spec(
    payload: Payload,
    a: Answers,
    recovery: Option<Seq<char>>,
    root: Result<Seq<char>, Seq<char>>,
    pcr_policy: bool,
) -> Option<Result<(Seq<char>, Seq<char>, Seq<char>, (int, Seq<char>, Seq<u8>), bool), Seq<char>>> {
    match unlocking_spec(a, recovery) {
        None => None,
        Some((key, pin)) => if payload.boot@.len() == 0 {
            Some(Err(copy::AUTO_NO_STUB@))
        } else {
            match root {
                Err(why) => Some(Err(why)),
                Ok(partition) => if !pcr_policy {
                    Some(Err(copy::AUTO_NO_POLICY@))
                } else {
                    Some(Ok((payload.image@, a.disk@, partition, key, pin)))
                },
            }
        },
    }
}

pub open spec fn offered_view(o: Offered) -> Option<Result<(Seq<char>, Seq<char>, Seq<char>, (int, Seq<char>, Seq<u8>), bool), Seq<char>>> {
    match o {
        Offered::Nothing => None,
        Offered::Unavailable(why) => Some(Err(why@)),
        Offered::Ready(r) => Some(Ok((r.image@, r.disk@, r.partition@, r.key.view_of(), r.pin))),
    }
}

/// Decides what the completion screen offers. Every refusal here is a fact
/// the screen states, rather than a failure the user meets after choosing.
/// The credential reaches the initrd through systemd-stub, which only the
/// signed UKI chains boot through. `root` is what `encrypted_root` answered,
/// and `pcr_policy` whether the image carries the signed PCR policy the seal
/// is made to.
pub fn offered(
    payload: &Payload,
    answers: &Answers,
    recovery: Option<&str>,
    root: Result<String, String>,
    pcr_policy: bool,
) -> (o: Offered)
    ensures
        offered_view(o) == offered_spec(
            *payload,
            *answers,
            match recovery { Some(r) => Some(r@), None => None },
            match root { Ok(p) => Ok(p@), Err(w) => Err(w@) },
            pcr_policy,
        ),
{
    let (key, pin) = match unlocking_key(answers, recovery) {
        Some(found) => found,
        None => return Offered::Nothing,
    };
    if payload.boot.as_str().is_empty() {
        return Offered::Unavailable(owned(copy::AUTO_NO_STUB));
    }
    let partition = match root {
        Ok(partition) => partition,
        Err(why) => return Offered::Unavailable(why),
    };
    if !pcr_policy {
        return Offered::Unavailable(owned(copy::AUTO_NO_POLICY));
    }
    Offered::Ready(Ready {
        image: payload.image.clone(),
        disk: answers.disk.clone(),
        partition,
        key,
        pin,
    })
}

/// States what a failed finalize left behind. The one-time slot has to be
/// named when its removal also fails, so the user knows which slot to wipe.
pub fn discarded_message(slot: u32, why: String, cleanup: Result<(), String>) -> (said: String)
    ensures
        match cleanup {
            Ok(()) => said@ == why@,
            Err(c) => said@ == why@ + "; and slot "@ + decimal(slot as nat) + " was left behind: "@ + c@,
        },
{
    match cleanup {
        Ok(()) => why,
        Err(cleanup) => {
            let mut said = why;
            said.append("; and slot ");
            said.append(decimal_u32(slot).as_str());
            said.append(" was left behind: ");
            said.append(cleanup.as_str());
            said
        },
    }
}

} // verus!
