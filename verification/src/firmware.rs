//! What the machine's firmware says, from the variables the efivars
//! filesystem holds.
//!
//! No function here parses a certificate. The installer finds the owner key
//! by its bytes rather than by its subject.

use crate::text::str_eq;
use vstd::prelude::*;

verus! {

/// The variables this reads, spelled the way efivarfs names them,
/// `<name>-<guid>`. UEFI defines each variable under exactly one GUID, so the
/// whole name is matched.
pub const SECURE_BOOT: &'static str = "SecureBoot-8be4df61-93ca-11d2-aa0d-00e098032b8c";
pub const SETUP_MODE: &'static str = "SetupMode-8be4df61-93ca-11d2-aa0d-00e098032b8c";
pub const PLATFORM_KEY: &'static str = "PK-8be4df61-93ca-11d2-aa0d-00e098032b8c";
/// The image security database, which authorises a signed loader to run.
pub const DATABASE: &'static str = "db-d719b2cb-3d3a-4596-a3bc-dad00e67656f";

/// Which key the firmware's `PK` variable holds.
#[derive(Clone, Copy, Debug, PartialEq, Eq, Structural)]
pub enum PlatformKey {
    /// No readable `PK`: the firmware sits in setup mode.
    NoKey,
    /// An enrolled `PK` that is not the owner certificate.
    Other,
    /// An enrolled `PK` holding the owner certificate.
    Owner,
    /// A key the firmware calls enrolled and this could not read.
    Unknown,
}

/// The firmware state a screen needs. `efivars` says whether the filesystem
/// was there at all, which separates "no EFI variables" from "no key". Each
/// option is a variable this could not read.
#[derive(Clone, Copy, Debug, PartialEq, Eq, Structural)]
pub struct Firmware {
    pub efivars: bool,
    pub secure_boot: Option<bool>,
    pub setup_mode: Option<bool>,
    pub platform_key: PlatformKey,
    /// The image security database holds the owner certificate.
    pub database: bool,
}

impl Firmware {
    /// A machine with no EFI variables.
    pub fn default() -> (f: Firmware)
        ensures
            f == (Firmware {
                efivars: false,
                secure_boot: None,
                setup_mode: None,
                platform_key: PlatformKey::NoKey,
                database: false,
            }),
    {
        Firmware {
            efivars: false,
            secure_boot: None,
            setup_mode: None,
            platform_key: PlatformKey::NoKey,
            database: false,
        }
    }
}

/// Whether `value` carries `owner` verbatim somewhere.
pub open spec fn holds_bytes(value: Seq<u8>, owner: Seq<u8>) -> bool {
    owner.len() > 0 && exists|i: int|
        0 <= i && i + owner.len() <= value.len() && #[trigger] value.subrange(i, i + owner.len()) == owner
}

/// Whether `value` carries `owner` verbatim. An enrolled key holds the
/// certificate's bytes as they are, so this understands no signature list.
pub fn holds(value: &[u8], owner: &[u8]) -> (r: bool)
    ensures
        r == holds_bytes(value@, owner@),
{
    if owner.len() == 0 || owner.len() > value.len() {
        proof {
            if owner.len() > 0 {
                assert forall|i: int| 0 <= i && i + owner@.len() <= value@.len() implies
                    #[trigger] value@.subrange(i, i + owner@.len()) != owner@ by {
                }
            }
        }
        return false;
    }
    let n = value.len();
    let mut i: usize = 0;
    while i <= value.len() - owner.len()
        invariant
            n == value@.len(),
            owner@.len() > 0,
            owner@.len() <= value@.len(),
            forall|j: int| 0 <= j < i ==> #[trigger] value@.subrange(j, j + owner@.len()) != owner@,
        decreases value.len() - i,
    {
        let mut k: usize = 0;
        let mut same = true;
        while k < owner.len() && same
            invariant
                n == value@.len(),
                k <= owner@.len(),
                i + owner@.len() <= value@.len(),
                forall|m: int| 0 <= m < k ==> value@[i + m] == owner@[m],
                !same ==> k < owner@.len() && value@[i + k] != owner@[k as int],
            decreases owner.len() - k, if same { 1int } else { 0int },
        {
            if value[i + k] != owner[k] {
                same = false;
            } else {
                k = k + 1;
            }
        }
        if same {
            assert(value@.subrange(i as int, i + owner@.len()) =~= owner@);
            return true;
        }
        assert(value@.subrange(i as int, i + owner@.len())[k as int] != owner@[k as int]);
        i = i + 1;
    }
    false
}

/// What an enrolled `PK` value says: no bytes, no key; the owner's
/// certificate, the owner; anything else, another key.
pub open spec fn key_from(value: Seq<u8>, owner: Option<Seq<u8>>) -> PlatformKey {
    if value.len() == 0 {
        PlatformKey::NoKey
    } else {
        match owner {
            Some(o) => if holds_bytes(value, o) { PlatformKey::Owner } else { PlatformKey::Other },
            None => PlatformKey::Other,
        }
    }
}

/// Classifies an enrolled `PK` by the bytes it holds.
pub fn key_of(value: &[u8], owner: Option<&[u8]>) -> (key: PlatformKey)
    ensures
        key == key_from(value@, match owner { Some(o) => Some(o@), None => None }),
{
    if value.len() == 0 {
        PlatformKey::NoKey
    } else {
        match owner {
            Some(o) => {
                if holds(value, o) {
                    PlatformKey::Owner
                } else {
                    PlatformKey::Other
                }
            },
            None => PlatformKey::Other,
        }
    }
}

/// A variable's value: its bytes after the four-byte attribute header, and
/// nothing where the file is shorter than that.
pub open spec fn value_of(bytes: Seq<u8>) -> Seq<u8> {
    if bytes.len() >= 4 { bytes.subrange(4, bytes.len() as int) } else { Seq::empty() }
}

/// A one-byte flag: the first byte of the value is 1.
pub open spec fn flag_of(bytes: Seq<u8>) -> Option<bool> {
    if value_of(bytes).len() > 0 { Some(value_of(bytes)[0] == 1) } else { None }
}

/// One efivarfs entry as the listing gave it: its name, and its bytes where
/// they could be read.
pub type Entry = (String, Option<Vec<u8>>);

/// The state a listing gives, from `start`, reading entries in order. A
/// variable no screen draws is skipped, and so is one that could not be read.
/// `key` is the platform key as read so far.
pub open spec fn reading(entries: Seq<Entry>, owner: Option<Seq<u8>>) -> (Firmware, Option<PlatformKey>)
    decreases entries.len(),
{
    if entries.len() == 0 {
        (Firmware { efivars: true, secure_boot: None, setup_mode: None, platform_key: PlatformKey::NoKey, database: false }, None)
    } else {
        let (f, key) = reading(entries.drop_last(), owner);
        let (name, read) = entries.last();
        match read {
            None => (f, key),
            Some(bytes) => {
                let b = bytes@;
                if name@ == SECURE_BOOT@ {
                    (Firmware { secure_boot: flag_of(b), ..f }, key)
                } else if name@ == SETUP_MODE@ {
                    (Firmware { setup_mode: flag_of(b), ..f }, key)
                } else if name@ == PLATFORM_KEY@ {
                    (f, Some(key_from(value_of(b), owner)))
                } else if name@ == DATABASE@ {
                    (Firmware { database: owner matches Some(o) && holds_bytes(value_of(b), o), ..f }, key)
                } else {
                    (f, key)
                }
            },
        }
    }
}

/// The firmware state an efivars listing gives. A key this read speaks for
/// itself; otherwise only `SetupMode=1` says no key is enrolled, and a
/// firmware without the variable, or one this could not read, is unknown
/// rather than keyless.
pub open spec fn firmware_of(entries: Seq<Entry>, owner: Option<Seq<u8>>) -> Firmware {
    let (f, key) = reading(entries, owner);
    Firmware {
        platform_key: match key {
            Some(k) => k,
            None => if f.setup_mode == Some(true) { PlatformKey::NoKey } else { PlatformKey::Unknown },
        },
        ..f
    }
}

/// A variable's value, after its four-byte attribute header.
pub fn value_bytes(bytes: &[u8]) -> (value: Vec<u8>)
    ensures
        value@ == value_of(bytes@),
{
    let mut value: Vec<u8> = Vec::new();
    if bytes.len() >= 4 {
        let mut i: usize = 4;
        while i < bytes.len()
            invariant
                4 <= i <= bytes@.len(),
                value@ == bytes@.subrange(4, i as int),
            decreases bytes.len() - i,
        {
            value.push(bytes[i]);
            assert(value@ =~= bytes@.subrange(4, i + 1));
            i = i + 1;
        }
    } else {
        assert(value@ =~= Seq::<u8>::empty());
    }
    value
}

impl Firmware {
    /// The firmware state an efivars listing gives. `owner` carries the
    /// owner certificate's DER bytes where the caller knows them.
    pub fn of(entries: &Vec<Entry>, owner: Option<&[u8]>) -> (f: Firmware)
        ensures
            f == firmware_of(entries@, match owner { Some(o) => Some(o@), None => None }),
    {
        let ghost own = match owner { Some(o) => Some(o@), None => None };
        let mut f = Firmware {
            efivars: true,
            secure_boot: None,
            setup_mode: None,
            platform_key: PlatformKey::NoKey,
            database: false,
        };
        let mut key: Option<PlatformKey> = None;
        let mut i: usize = 0;
        while i < entries.len()
            invariant
                i <= entries@.len(),
                own == (match owner { Some(o) => Some(o@), None => None }),
                (f, key) == reading(entries@.take(i as int), own),
            decreases entries.len() - i,
        {
            assert(entries@.take(i + 1).drop_last() =~= entries@.take(i as int));
            assert(entries@.take(i + 1).last() == entries@[i as int]);
            let name = entries[i].0.as_str();
            match &entries[i].1 {
                None => {},
                Some(bytes) => {
                    let value = value_bytes(bytes.as_slice());
                    let flag = if value.len() > 0 { Some(value[0] == 1) } else { None };
                    if str_eq(name, SECURE_BOOT) {
                        f.secure_boot = flag;
                    } else if str_eq(name, SETUP_MODE) {
                        f.setup_mode = flag;
                    } else if str_eq(name, PLATFORM_KEY) {
                        key = Some(key_of(value.as_slice(), owner));
                    } else if str_eq(name, DATABASE) {
                        f.database = match owner {
                            Some(o) => holds(value.as_slice(), o),
                            None => false,
                        };
                    }
                },
            }
            i = i + 1;
        }
        assert(entries@.take(i as int) =~= entries@);
        f.platform_key = match key {
            Some(k) => k,
            None => {
                if f.setup_mode == Some(true) {
                    PlatformKey::NoKey
                } else {
                    PlatformKey::Unknown
                }
            },
        };
        f
    }
}

} // verus!
