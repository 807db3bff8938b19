//! The user's half of the install: the answers, the manual layout they hold,
//! and what each answer says about the disk.

use crate::copy;
use crate::esp::EspRemoval;
use crate::seqs::{first_where, lemma_first_where};
use crate::table::DiskState;
use crate::text::{decimal, decimal_usize, cat, ends_with, owned, str_eq};
use vstd::prelude::*;

verus! {

pub struct Encryption {
    pub kind: String,
    pub passphrase: String,
    /// Holds the PIN the user types at every unlock beside the TPM policy.
    /// Only `tpm2-luks-pin` asks for one. `tpm2-luks` leaves it empty,
    /// because that kind's passphrase is a generated recovery key.
    pub pin: String,
}

impl Encryption {
    /// Whether a kind owes a passphrase, which every kind named for one does.
    pub fn wants_passphrase(kind: &str) -> (r: bool)
        ensures
            r == "passphrase"@.is_suffix_of(kind@),
    {
        ends_with(kind, "passphrase")
    }

    /// Whether a kind owes a PIN, which only the kind named for one does.
    pub fn wants_pin(kind: &str) -> (r: bool)
        ensures
            r == "pin"@.is_suffix_of(kind@),
    {
        ends_with(kind, "pin")
    }
}

#[derive(Clone, Debug)]
pub struct CustomMount {
    pub partition: String,
    pub target: String,
    pub fstype: String,
    /// Holds the passphrase a `luks` format kept. No reader takes it, because
    /// `layout_short_of` refuses a manual `luks` format before the install.
    pub passphrase: String,
}

/// Holds one partition the plan renames when it cuts the disk. The partition
/// already exists, so the cut writes the name through `sfdisk --part-label`.
/// A planned partition carries its name in the cut script instead.
#[derive(Clone, Debug)]
pub struct Rename {
    pub partition: String,
    pub label: String,
}

/// Holds how the user opens a container. A passphrase is typed here, and a
/// key file is one this live system can read, named by its path. Either one
/// is secret, so it is never drawn, logged or written into a recipe.
#[derive(Clone)]
pub enum Key {
    Passphrase(String),
    File(String),
    /// Holds a key read out of an old system. That key has no path left once
    /// the walk that found it unmounts. `cryptsetup` takes the bytes the way
    /// it takes a passphrase.
    Data(Vec<u8>),
}

impl Key {
    /// Returns what `cryptsetup` reads on stdin. A key file returns nothing,
    /// because it is passed by name and never travels through this process.
    pub fn bytes(&self) -> (out: Option<&[u8]>)
        ensures
            match self {
                Key::Passphrase(p) => out matches Some(b) && b@ == vstd::utf8::encode_utf8(p@),
                Key::Data(d) => out matches Some(b) && b@ == d@,
                Key::File(_) => out is None,
            },
    {
        match self {
            Key::Passphrase(passphrase) => Some(passphrase.as_str().as_bytes()),
            Key::Data(bytes) => Some(bytes.as_slice()),
            Key::File(_) => None,
        }
    }

    /// Whether the key is a typed passphrase.
    pub open spec fn is_passphrase(self) -> bool {
        self is Passphrase
    }

    /// The key as plain values: which kind it is, its text where it is a
    /// passphrase or a path, and its bytes where it holds them.
    pub open spec fn view_of(self) -> (int, Seq<char>, Seq<u8>) {
        match self {
            Key::Passphrase(p) => (0, p@, Seq::empty()),
            Key::File(f) => (1, f@, Seq::empty()),
            Key::Data(d) => (2, Seq::empty(), d@),
        }
    }

    /// The same key, held a second time.
    pub fn duplicate(&self) -> (k: Key)
        ensures
            k.view_of() == self.view_of(),
    {
        match self {
            Key::Passphrase(p) => Key::Passphrase(p.clone()),
            Key::File(f) => Key::File(f.clone()),
            Key::Data(d) => {
                let copied = d.clone();
                assert(copied@ =~= d@);
                Key::Data(copied)
            },
        }
    }
}

/// Holds one container the user asked to open and where its filesystem
/// mounts.
#[derive(Clone)]
pub struct LuksOpen {
    pub partition: String,
    pub target: String,
    pub key: Key,
}

/// Holds one partition's answer, which is where it mounts and how it is made
/// ready. An `OPEN` fstype marks a container that is decrypted and kept. An
/// `unformatted` fstype marks a filesystem that is kept as it is.
#[derive(Clone, Debug)]
pub struct Mounted {
    pub target: String,
    pub fstype: String,
}

/// The sentinel an answer carries for a container that is opened instead of
/// formatted. It is read out of an answer and never written into a recipe.
pub const OPEN: &'static str = "open";

/// Holds a partition the plan will cut before the install formats it. `sfdisk
/// --append` decides the number, so the screens derive the device from the
/// surviving partitions every time. The answers ride on this plan entry
/// rather than on a name that moves.
#[derive(Clone, Debug)]
pub struct Created {
    /// Holds the size the user typed, in whole GB.
    pub gb: u64,
    /// Holds how far into the free region the user placed the partition, in
    /// whole GB. Zero starts the partition at the region's first sector.
    pub offset: u64,
    /// Names where it mounts. It stays empty until the user assigns it.
    pub target: String,
    /// Names what it is formatted as. It stays empty until the user chooses
    /// a format.
    pub fstype: String,
    /// Names the label the cut writes into the partition table. It stays
    /// empty until the user renames the partition.
    pub label: String,
    /// Names the node the partition actually got. The cut writes it once
    /// `sfdisk` has appended the partition, from the node the disk gives it
    /// then.
    pub device: String,
    /// Only the whole-disk plan sets it, because the editor refuses a manual
    /// container.
    pub encrypt: bool,
    /// Marks a partition the cut types `ROOT_GUID`, so an initrd with no
    /// `root=` argument finds it.
    pub discoverable: bool,
}

#[derive(Clone)]
pub struct CustomLayout {
    pub disk: String,
    pub mounts: Vec<CustomMount>,
    pub opens: Vec<LuksOpen>,
    /// Hold the existing partitions the plan removes and the ones it
    /// appends. Both stay empty until the user takes a create or clear menu
    /// item, so a layout that only assigns and formats writes no partition
    /// table at all.
    pub deletes: Vec<String>,
    pub creates: Vec<Created>,
    /// Holds the labels the plan writes onto partitions it keeps.
    pub renames: Vec<Rename>,
    /// Holds the ESP entries the plan replaces, which are removed before
    /// `bootc` writes the entries the image carries.
    pub esp: Vec<EspRemoval>,
    /// Holds the disk the user reviewed immediately before the destructive
    /// summary. The cut refuses a replaced or changed table rather than
    /// applying the approved partition numbers to the disk now present.
    pub confirmed: Option<DiskState>,
}

#[derive(Clone, Debug)]
pub struct Partition {
    pub device: String,
    pub size: String,
    pub fstype: String,
    pub label: String,
    pub parttype: String,
    /// Carries what an old system's crypttab names the container by. A
    /// partition with no uuid leaves it empty.
    pub uuid: String,
}

/// The mount answer that names `device`, as `find` picks it.
pub open spec fn mount_at(mounts: Seq<CustomMount>, device: Seq<char>) -> Option<int> {
    first_where(mounts, mounts_device(device))
}

pub open spec fn mounts_device(device: Seq<char>) -> spec_fn(CustomMount) -> bool {
    |m: CustomMount| m.partition@ == device
}

pub open spec fn opens_device(device: Seq<char>) -> spec_fn(LuksOpen) -> bool {
    |o: LuksOpen| o.partition@ == device
}

pub open spec fn renames_device(device: Seq<char>) -> spec_fn(Rename) -> bool {
    |r: Rename| r.partition@ == device
}

/// The opened container that names `device`, as `find` picks it.
pub open spec fn open_at(opens: Seq<LuksOpen>, device: Seq<char>) -> Option<int> {
    first_where(opens, opens_device(device))
}

/// The rename that names `device`, as `find` picks it.
pub open spec fn rename_at(renames: Seq<Rename>, device: Seq<char>) -> Option<int> {
    first_where(renames, renames_device(device))
}

/// Whether a string equals one of the texts `v` holds.
pub open spec fn holds_text(v: Seq<String>, s: Seq<char>) -> bool {
    exists|i: int| 0 <= i < v.len() && (#[trigger] v[i])@ == s
}

/// Whether `v` holds the string `s`, as `contains` asks.
pub fn contains_str(v: &Vec<String>, s: &str) -> (r: bool)
    ensures
        r == holds_text(v@, s@),
{
    let mut i: usize = 0;
    while i < v.len()
        invariant
            i <= v.len(),
            forall|j: int| 0 <= j < i ==> (#[trigger] v@[j])@ != s@,
        decreases v.len() - i,
    {
        if str_eq(v[i].as_str(), s) {
            return true;
        }
        i = i + 1;
    }
    false
}

impl CustomLayout {
    /// The answer a partition named `device` carries: its mount answer where
    /// it has one, else `OPEN` where it is an opened container.
    pub open spec fn answer_of(self, device: Seq<char>) -> Option<(Seq<char>, Seq<char>)> {
        match mount_at(self.mounts@, device) {
            Some(i) => Some((self.mounts@[i].target@, self.mounts@[i].fstype@)),
            None => match open_at(self.opens@, device) {
                Some(j) => Some((self.opens@[j].target@, OPEN@)),
                None => None,
            },
        }
    }

    /// Whether a container this layout opens mounts at the root.
    pub open spec fn opens_root(self) -> bool {
        exists|i: int| 0 <= i < self.opens@.len() && (#[trigger] self.opens@[i]).target@ == "/"@
    }

    /// Whether the plan rewrites the filesystem of the partition `device`.
    pub open spec fn formats(self, device: Seq<char>) -> bool {
        exists|i: int|
            0 <= i < self.mounts@.len() && (#[trigger] self.mounts@[i]).partition@ == device
                && self.mounts@[i].fstype@ != "unformatted"@
    }

    /// Whether the plan removes the partition `device`.
    pub open spec fn deletes_device(self, device: Seq<char>) -> bool {
        holds_text(self.deletes@, device)
    }

    /// Builds a manual layout with nothing answered in it yet. A `Some`
    /// layout is what makes the install manual at all. `short_of` refuses an
    /// empty one until it carries a root.
    pub fn empty(disk: &str) -> (layout: Self)
        ensures
            layout.disk@ == disk@,
            layout.mounts@.len() == 0,
            layout.opens@.len() == 0,
            layout.deletes@.len() == 0,
            layout.creates@.len() == 0,
            layout.renames@.len() == 0,
            layout.esp@.len() == 0,
            layout.confirmed is None,
    {
        CustomLayout {
            disk: owned(disk),
            mounts: Vec::new(),
            opens: Vec::new(),
            deletes: Vec::new(),
            creates: Vec::new(),
            renames: Vec::new(),
            esp: Vec::new(),
            confirmed: None,
        }
    }

    /// Returns the answer a partition already carries. The editor opened a
    /// second time keeps what the user said the first time.
    pub fn answer(&self, partition: &Partition) -> (out: Option<Mounted>)
        ensures
            match out {
                Some(m) => self.answer_of(partition.device@) == Some((m.target@, m.fstype@)),
                None => self.answer_of(partition.device@) is None,
            },
    {
        let ghost device = partition.device@;
        let mut i: usize = 0;
        while i < self.mounts.len()
            invariant
                i <= self.mounts.len(),
                device == partition.device@,
                forall|j: int|
                    0 <= j < i ==> (#[trigger] self.mounts@[j]).partition@ != device,
            decreases self.mounts.len() - i,
        {
            let same = str_eq(self.mounts[i].partition.as_str(), partition.device.as_str());
            if same {
                proof {
                    lemma_first_where(
                        self.mounts@,
                        mounts_device(device),
                        i as int,
                    );
                }
                return Some(
                    Mounted {
                        target: self.mounts[i].target.clone(),
                        fstype: self.mounts[i].fstype.clone(),
                    },
                );
            }
            i = i + 1;
        }
        proof {
            lemma_first_where(self.mounts@, mounts_device(device), i as int);
        }
        let mut j: usize = 0;
        while j < self.opens.len()
            invariant
                j <= self.opens.len(),
                device == partition.device@,
                mount_at(self.mounts@, device) is None,
                forall|k: int| 0 <= k < j ==> (#[trigger] self.opens@[k]).partition@ != device,
            decreases self.opens.len() - j,
        {
            if str_eq(self.opens[j].partition.as_str(), partition.device.as_str()) {
                proof {
                    lemma_first_where(self.opens@, opens_device(device), j as int);
                }
                return Some(Mounted { target: self.opens[j].target.clone(), fstype: owned(OPEN) });
            }
            j = j + 1;
        }
        proof {
            lemma_first_where(self.opens@, opens_device(device), j as int);
        }
        None
    }

    /// Names each opened container for `/dev/mapper`, in the order the
    /// layout opens them. `cryptsetup` takes the bare name.
    pub fn mappers(&self) -> (out: Vec<(String, &LuksOpen)>)
        ensures
            out@.len() == self.opens@.len(),
            forall|i: int|
                0 <= i < out@.len() ==> (#[trigger] out@[i]).0@ == "tect-"@ + decimal(
                    (i + 1) as nat,
                ) && *out@[i].1 == self.opens@[i],
    {
        let mut out: Vec<(String, &LuksOpen)> = Vec::new();
        let mut i: usize = 0;
        while i < self.opens.len()
            invariant
                i <= self.opens.len(),
                out@.len() == i,
                forall|k: int|
                    0 <= k < i ==> (#[trigger] out@[k]).0@ == "tect-"@ + decimal((k + 1) as nat)
                        && *out@[k].1 == self.opens@[k],
            decreases self.opens.len() - i,
        {
            out.push((cat("tect-", &decimal_usize(i + 1)), &self.opens[i]));
            i = i + 1;
        }
        out
    }

    /// Whether the cut writes the partition table at all.
    pub fn changes_table(&self) -> (r: bool)
        ensures
            r == !(self.deletes@.len() == 0 && self.creates@.len() == 0 && self.renames@.len()
                == 0),
    {
        !(self.deletes.len() == 0 && self.creates.len() == 0 && self.renames.len() == 0)
    }

    /// Whether a container this layout opens is the root, which is the
    /// filesystem every key file for the machine is read from.
    pub fn opens_the_root(&self) -> (r: bool)
        ensures
            r == self.opens_root(),
    {
        let mut i: usize = 0;
        while i < self.opens.len()
            invariant
                i <= self.opens.len(),
                forall|j: int| 0 <= j < i ==> (#[trigger] self.opens@[j]).target@ != "/"@,
            decreases self.opens.len() - i,
        {
            if str_eq(self.opens[i].target.as_str(), "/") {
                return true;
            }
            i = i + 1;
        }
        false
    }

    /// Gives the label the plan writes onto one partition it keeps, which
    /// stands in for the label the partition carries now.
    pub fn renamed(&self, partition: &str) -> (out: Option<&str>)
        ensures
            match rename_at(self.renames@, partition@) {
                Some(i) => out matches Some(l) && l@ == self.renames@[i].label@,
                None => out is None,
            },
    {
        let mut i: usize = 0;
        while i < self.renames.len()
            invariant
                i <= self.renames.len(),
                forall|j: int|
                    0 <= j < i ==> (#[trigger] self.renames@[j]).partition@ != partition@,
            decreases self.renames.len() - i,
        {
            if str_eq(self.renames[i].partition.as_str(), partition) {
                proof {
                    lemma_first_where(
                        self.renames@,
                        renames_device(partition@),
                        i as int,
                    );
                }
                return Some(self.renames[i].label.as_str());
            }
            i = i + 1;
        }
        proof {
            lemma_first_where(self.renames@, renames_device(partition@), i as int);
        }
        None
    }

    /// Reports whether the plan rewrites one partition's filesystem. An
    /// assigned partition keeps its filesystem, because only a format answer
    /// erases it.
    pub fn formatted(&self, partition: &str) -> (r: bool)
        ensures
            r == self.formats(partition@),
    {
        let mut i: usize = 0;
        while i < self.mounts.len()
            invariant
                i <= self.mounts.len(),
                forall|j: int|
                    0 <= j < i ==> !((#[trigger] self.mounts@[j]).partition@ == partition@
                        && self.mounts@[j].fstype@ != "unformatted"@),
            decreases self.mounts.len() - i,
        {
            if str_eq(self.mounts[i].partition.as_str(), partition) && !str_eq(
                self.mounts[i].fstype.as_str(),
                "unformatted",
            ) {
                return true;
            }
            i = i + 1;
        }
        false
    }

    /// Whether the plan removes the partition a link names.
    fn deletes_contain(&self, link: &str) -> (r: bool)
        ensures
            r == self.deletes_device(link@),
    {
        contains_str(&self.deletes, link)
    }

    /// Reports whether the plan takes the partition one link names, so the
    /// entry that named it is replaced. A mount point, a format and an opened
    /// container each take the partition. A delete removes it.
    pub fn entry_replaced(&self, link: &str) -> (r: bool)
        ensures
            r == (link@.len() > 0 && (self.deletes_device(link@) || mount_at(
                self.mounts@,
                link@,
            ) is Some || open_at(self.opens@, link@) is Some)),
    {
        if link.is_empty() {
            return false;
        }
        proof {
            assert(link@.len() > 0);
        }
        if self.deletes_contain(link) {
            return true;
        }
        let mut i: usize = 0;
        while i < self.mounts.len()
            invariant
                i <= self.mounts.len(),
                link@.len() > 0,
                forall|j: int| 0 <= j < i ==> (#[trigger] self.mounts@[j]).partition@ != link@,
            decreases self.mounts.len() - i,
        {
            if str_eq(self.mounts[i].partition.as_str(), link) {
                proof {
                    lemma_first_where(self.mounts@, mounts_device(link@), i as int);
                }
                return true;
            }
            i = i + 1;
        }
        proof {
            lemma_first_where(self.mounts@, mounts_device(link@), i as int);
        }
        let mut j: usize = 0;
        while j < self.opens.len()
            invariant
                j <= self.opens.len(),
                link@.len() > 0,
                !self.deletes_device(link@),
                mount_at(self.mounts@, link@) is None,
                forall|k: int| 0 <= k < j ==> (#[trigger] self.opens@[k]).partition@ != link@,
            decreases self.opens.len() - j,
        {
            if str_eq(self.opens[j].partition.as_str(), link) {
                proof {
                    lemma_first_where(self.opens@, opens_device(link@), j as int);
                }
                return true;
            }
            j = j + 1;
        }
        proof {
            lemma_first_where(self.opens@, opens_device(link@), j as int);
        }
        false
    }

    /// Reports whether the system one link names is deleted or rewritten,
    /// which leaves its ESP entry booting nothing. The plan removes those
    /// entries and the image writes its own.
    pub fn entry_gone(&self, link: &str) -> (r: bool)
        ensures
            r == (link@.len() > 0 && (self.deletes_device(link@) || self.formats(link@))),
    {
        if link.is_empty() {
            return false;
        }
        proof {
            assert(link@.len() > 0);
        }
        self.deletes_contain(link) || self.formatted(link)
    }
}

/// Holds what one container's header carries, read through `luksDump`. LUKS2
/// numbers key slots 0 to 31 and leaves a gap where one was removed, so the
/// slot indices are read rather than counted.
#[derive(Clone, Debug)]
pub struct Slots {
    pub keys: Vec<u32>,
    pub tokens: Vec<String>,
}

impl Slots {
    /// Whether the header carries a token a TPM2 unlock uses.
    pub fn has_tpm2(&self) -> (r: bool)
        ensures
            r == holds_text(self.tokens@, "systemd-tpm2"@),
    {
        contains_str(&self.tokens, "systemd-tpm2")
    }
}

/// Holds what the user chose on the row that replaces the encryption kinds
/// once the layout opens a container. The row is one field, so it takes one
/// answer.
#[derive(Clone, Copy, Debug, PartialEq, Eq, Structural)]
pub enum Opened {
    /// Keeps what the container's header already holds. The key ladder then
    /// decides the machine's way in.
    Keep,
    /// A first-boot enrollment adds a TPM2 token to every opened container.
    Tpm2,
    /// Adds a key file to a data volume's header, so it stops asking for a
    /// passphrase at every boot.
    AddKey,
}

impl Opened {
    /// The answer a row label reads back as. A label no answer carries keeps
    /// the header as it is.
    pub open spec fn of_label(shown: Seq<char>) -> Opened {
        if shown == copy::OPENED_TPM2@ {
            Opened::Tpm2
        } else if shown == copy::OPENED_ADD_KEY@ {
            Opened::AddKey
        } else {
            Opened::Keep
        }
    }

    pub open spec fn label_text(self) -> Seq<char> {
        match self {
            Opened::Keep => copy::OPENED_KEEP@,
            Opened::Tpm2 => copy::OPENED_TPM2@,
            Opened::AddKey => copy::OPENED_ADD_KEY@,
        }
    }

    pub fn of(shown: &str) -> (opened: Self)
        ensures
            opened == Opened::of_label(shown@),
    {
        if str_eq(shown, copy::OPENED_TPM2) {
            Opened::Tpm2
        } else if str_eq(shown, copy::OPENED_ADD_KEY) {
            Opened::AddKey
        } else {
            Opened::Keep
        }
    }

    pub fn label(self) -> (shown: &'static str)
        ensures
            shown@ == self.label_text(),
    {
        match self {
            Opened::Keep => copy::OPENED_KEEP,
            Opened::Tpm2 => copy::OPENED_TPM2,
            Opened::AddKey => copy::OPENED_ADD_KEY,
        }
    }
}

/// How the installed machine opens one container it did not re-key.
pub open spec fn at_boot_text(target: Seq<char>, key: Key, opened: Opened) -> Seq<char> {
    if opened == Opened::Tpm2 {
        copy::BOOT_TPM2@
    } else if target == "/"@ {
        if key is Passphrase {
            copy::BOOT_PASSPHRASE@
        } else {
            copy::OPENED_ROOT_KEYFILE@
        }
    } else if key is Passphrase {
        if opened == Opened::AddKey {
            copy::BOOT_ADDED_KEY@
        } else {
            copy::BOOT_PASSPHRASE@
        }
    } else {
        copy::BOOT_KEYFILE@
    }
}

/// Says how the installed machine opens one container it did not re-key.
/// The key ladder runs from the top. The keyfile an old system holds is
/// carried to the new root. A passphrase is asked for at boot. A key added
/// here is what a data volume takes when the user wants it unattended. A
/// keyfile on the root cannot open the root, because the file would live on
/// the filesystem the key opens.
pub fn at_boot(open: &LuksOpen, opened: Opened) -> (how: &'static str)
    ensures
        how@ == at_boot_text(open.target@, open.key, opened),
{
    if opened == Opened::Tpm2 {
        return copy::BOOT_TPM2;
    }
    if str_eq(open.target.as_str(), "/") {
        return match open.key {
            Key::Passphrase(_) => copy::BOOT_PASSPHRASE,
            _ => copy::OPENED_ROOT_KEYFILE,
        };
    }
    match (&open.key, opened) {
        (Key::Passphrase(_), Opened::AddKey) => copy::BOOT_ADDED_KEY,
        (Key::Passphrase(_), _) => copy::BOOT_PASSPHRASE,
        _ => copy::BOOT_KEYFILE,
    }
}

/// Holds the user's half of the install. Nothing derives these answers and
/// no flag defaults them.
pub struct Answers {
    pub disk: String,
    pub hostname: String,
    pub user: String,
    pub password: String,
    pub encryption: Encryption,
    pub layout: Option<CustomLayout>,
    /// Holds what the row replacing the encryption kinds answered, once the
    /// layout opens a container. Every other install keeps `Keep`, because
    /// the row still shows the kinds.
    pub opened: Opened,
}

/// Holds what the flags gave. The first pass reads it to seed each field. A
/// field asked a second time opens on the answer it already carries.
#[derive(Clone, Default)]
pub struct Given {
    pub disk: Option<String>,
    pub hostname: Option<String>,
    pub user: Option<String>,
    pub password: Option<String>,
    pub encryption: Option<String>,
    pub passphrase: Option<String>,
    pub pin: Option<String>,
}

/// Names what a leave key is answered with. All three stay available for as
/// long as no disk has been touched, which is the whole of when the
/// installer asks.
#[derive(Clone, Copy, Debug, PartialEq, Eq, Structural)]
pub enum Leave {
    /// Returns to the screen the key was pressed on and keeps the answers.
    Back,
    /// Asks the questions again, from the first one.
    Over,
    /// Leaves the installer, having written nothing.
    Shell,
}

/// Reads the leaving question's answer: the option the user picked, `None`
/// for Esc, and `interrupted` where the widget reported a leave key pressed
/// on the question itself. A leave key on the leaving question returns to the
/// screen it came from.
pub fn leave_answer(picked: Option<usize>) -> (leave: Leave)
    ensures
        leave == match picked {
            Some(1) => Leave::Over,
            Some(2) => Leave::Shell,
            _ => Leave::Back,
        },
{
    match picked {
        Some(1) => Leave::Over,
        Some(2) => Leave::Shell,
        _ => Leave::Back,
    }
}

/// The virtual terminal the console shows, from what
/// `/sys/class/tty/tty0/active` holds: `tty` and the terminal's number.
pub open spec fn console_text(active: Seq<char>) -> Option<u32> {
    match crate::text::strip_prefix(crate::text::trim(active), "tty"@) {
        Some(rest) => match crate::text::u64_text(rest) {
            Some(n) => if n <= u32::MAX { Some(n as u32) } else { None },
            None => None,
        },
        None => None,
    }
}

/// Reads the virtual terminal the console shows.
pub fn console_of(active: &str) -> (vt: Option<u32>)
    ensures
        vt == console_text(active@),
{
    let trimmed = crate::text::chars_trim(crate::text::chars_of(active).as_slice());
    let tty = crate::text::chars_of("tty");
    match crate::text::chars_strip_prefix(trimmed.as_slice(), tty.as_slice()) {
        Some(rest) => match crate::text::parse_u64(rest.as_slice()) {
            Some(n) => if n <= 0xFFFF_FFFF { Some(n as u32) } else { None },
            None => None,
        },
        None => None,
    }
}

/// The terminal a shell is switched to: the media autologins root on every
/// terminal and its installer owns the first, so the shell takes the second,
/// or the third where the installer shows on the second.
pub fn shell_vt(active: Option<u32>) -> (vt: u32)
    ensures
        vt == (if active == Some(2u32) { 3u32 } else { 2u32 }),
{
    match active {
        Some(2) => 3,
        _ => 2,
    }
}

} // verus!
