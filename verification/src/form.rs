//! The install form's rows, which of them are asked, and what the form is
//! still short of before `Install` can be taken.

use crate::account::{portable, portable_name};
use crate::answers::{CustomLayout, Encryption, Key, Opened};
use crate::copy;
use crate::disks::{written, written_text};
use crate::editor::{layout_problem, layout_short_of};
use crate::payload::{reserve_of, Payload};
use crate::table::DiskTable;
use crate::text::{owned, str_eq};
use vstd::prelude::*;

verus! {

/// The form rows, so each reader names the row it reads. The first four are
/// the OS setup, the layout row leads the disk setup, the encryption row
/// answers what opens the root, and the table draws the disks. The
/// passphrase and PIN rows stay out of the drawn rows, because the encryption
/// window writes them.
pub const ROW_HOSTNAME: usize = 0;
pub const ROW_ACCOUNT: usize = 1;
pub const ROW_PASSWORD: usize = 2;
pub const ROW_CONFIRM: usize = 3;
pub const ROW_LAYOUT: usize = 4;
pub const ROW_ENCRYPTION: usize = 5;
pub const ROW_TABLE: usize = 6;
pub const ROW_PASSPHRASE: usize = 7;
pub const ROW_PIN: usize = 8;

/// Which layout the layout row says is held.
#[derive(Clone, Copy, Debug, PartialEq, Eq, Structural)]
pub enum Held {
    /// A whole-disk answer holds no layout.
    Whole,
    /// A manual answer keeps the layout held for this disk.
    Kept,
    /// A manual answer with no layout for this disk starts a fresh one.
    Fresh,
}

/// Reads the layout row: a `manual` answer always holds a layout for this
/// disk, the one held where it is this disk's, a fresh one otherwise.
pub fn held_pick(layout_row: &str, layout: Option<&CustomLayout>, disk: &str) -> (held: Held)
    ensures
        held == (if layout_row@ != copy::LAYOUT_MANUAL@ {
            Held::Whole
        } else if layout matches Some(l) && l.disk@ == disk@ {
            Held::Kept
        } else {
            Held::Fresh
        }),
{
    if !str_eq(layout_row, copy::LAYOUT_MANUAL) {
        return Held::Whole;
    }
    match layout {
        Some(l) => if str_eq(l.disk.as_str(), disk) { Held::Kept } else { Held::Fresh },
        None => Held::Fresh,
    }
}

/// The rows the form asks: never the passphrase or PIN rows, and not the
/// whole-disk encryption row for a manual layout unless it holds opened
/// containers' answers.
pub open spec fn asked_rows(count: nat, manual: bool, opens: bool) -> Seq<usize> {
    Seq::new(count, |i: int| i as usize).filter(|row: usize| row != ROW_PASSPHRASE && row != ROW_PIN && (!manual || row != ROW_ENCRYPTION || opens))
}

/// Lists the rows the form asks. `opens` says the encryption row holds the
/// opened containers' answers.
pub fn asked(count: usize, layout_row: &str, opens: bool) -> (rows: Vec<usize>)
    ensures
        rows@ == asked_rows(count as nat, layout_row@ == copy::LAYOUT_MANUAL@, opens),
{
    let manual = str_eq(layout_row, copy::LAYOUT_MANUAL);
    let ghost all = Seq::new(count as nat, |i: int| i as usize);
    let ghost keep = |row: usize| row != ROW_PASSPHRASE && row != ROW_PIN && (!manual || row != ROW_ENCRYPTION || opens);
    let mut rows: Vec<usize> = Vec::new();
    let mut row: usize = 0;
    while row < count
        invariant
            row <= count,
            all == Seq::new(count as nat, |i: int| i as usize),
            keep == (|r: usize| r != ROW_PASSPHRASE && r != ROW_PIN && (!manual || r != ROW_ENCRYPTION || opens)),
            rows@ == all.take(row as int).filter(keep),
        decreases count - row,
    {
        proof {
            reveal(Seq::filter);
            assert(all.take(row + 1).drop_last() =~= all.take(row as int));
            assert(all.take(row + 1).last() == row);
        }
        if row != ROW_PASSPHRASE && row != ROW_PIN && (!manual || row != ROW_ENCRYPTION || opens) {
            rows.push(row);
        }
        row = row + 1;
    }
    assert(all.take(count as int) =~= all);
    rows
}

/// Both rows of a pair whose two answers disagree. An empty half is a
/// missing answer, so a pair is wrong only once both halves are filled.
pub fn pair_mismatch(left: &str, right: &str, pair: [usize; 2]) -> (rows: Vec<usize>)
    ensures
        rows@ == (if left@.len() == 0 || right@.len() == 0 || left@ == right@ {
            Seq::empty()
        } else {
            seq![pair[0], pair[1]]
        }),
{
    let mut rows: Vec<usize> = Vec::new();
    if !(left.is_empty() || right.is_empty() || str_eq(left, right)) {
        rows.push(pair[0]);
        rows.push(pair[1]);
        assert(rows@ =~= seq![pair[0], pair[1]]);
    } else {
        assert(rows@ =~= Seq::<usize>::empty());
    }
    rows
}

/// A container that opens something, other than the root where `root`
/// says not, with a key other than a passphrase.
pub open spec fn keyfile_open(layout: CustomLayout, root: bool) -> bool {
    exists|i: int|
        0 <= i < layout.opens@.len() && ((#[trigger] layout.opens@[i]).target@ == "/"@) == root
            && !(layout.opens@[i].key is Passphrase)
}

/// What a held manual layout is still short of: what `layout_problem` says,
/// then an opened root on an image with no LUKS initramfs, a root a key file
/// opens, and a key addition or a key-file volume beside a plain root.
pub open spec fn manual_problem(layout: CustomLayout, encryption_row: Seq<char>, payload: Payload, table: Option<DiskTable>) -> Option<Seq<char>> {
    match layout_problem(layout, payload.composefs, table, reserve_of(payload.image_gb) as u64) {
        Some(why) => Some(why),
        None => if layout.opens_root() && !payload.luks_initramfs {
            Some(copy::NO_LUKS_INITRAMFS@)
        } else if keyfile_open(layout, true) {
            Some(copy::OPENED_ROOT_KEYFILE@)
        } else if !layout.opens_root() && Opened::of_label(encryption_row) != Opened::Keep {
            Some(copy::OPENED_KEYFILE_PLAIN@)
        } else if !layout.opens_root() && keyfile_open(layout, false) {
            Some(copy::OPENED_KEYFILE_PLAIN@)
        } else {
            None
        },
    }
}

/// The rows still unanswered, named as the refusal names them.
pub open spec fn missing_rows(values: Seq<Seq<char>>, disk: Seq<char>, kind: Seq<char>) -> Seq<Seq<char>> {
    let wants = "passphrase"@.is_suffix_of(kind);
    let wants_pin = "pin"@.is_suffix_of(kind);
    seq![
        (values[0].len() == 0, copy::ROW_HOSTNAME@),
        (disk.len() == 0, copy::INSTALLATION_DISK@),
        (values[1].len() == 0, copy::ROW_ACCOUNT@),
        (values[2].len() == 0, copy::ROW_PASSWORD@),
        (values[2].len() != 0 && values[3].len() == 0, copy::ROW_CONFIRM@),
        (wants && values[7].len() == 0, copy::ROW_PASSPHRASE@),
        (wants_pin && values[8].len() == 0, copy::ROW_PIN@),
    ].filter(|e: (bool, Seq<char>)| e.0).map_values(|e: (bool, Seq<char>)| e.1)
}

/// What the form is still short of: a disagreeing password pair (an empty
/// refusal, because the pair is already drawn red), then what a manual
/// layout is short of, a kind the image or the machine cannot carry, an
/// account name outside the portable set, and the rows still unanswered.
pub open spec fn short_spec(values: Seq<Seq<char>>, disk: Seq<char>, layout: Option<CustomLayout>, payload: Payload, tpm: bool, table: Option<DiskTable>) -> Option<Seq<char>> {
    let manual = values[4] == copy::LAYOUT_MANUAL@;
    if values[2].len() != 0 && values[3].len() != 0 && values[2] != values[3] {
        Some(Seq::empty())
    } else if manual && !(layout matches Some(l) && l.disk@ == disk) {
        Some(copy::CUSTOM_ROOT@)
    } else if manual && manual_problem(layout->0, values[5], payload, table) is Some {
        manual_problem(layout->0, values[5], payload, table)
    } else {
        let kind = if manual { copy::NONE@ } else { written_text(values[5]) };
        if kind != copy::NONE@ && !payload.luks_initramfs {
            Some(copy::NO_LUKS_INITRAMFS@)
        } else if "tpm2"@.is_prefix_of(kind) && !tpm {
            Some(copy::NO_TPM@)
        } else if values[1].len() != 0 && !portable(values[1]) {
            Some("the username "@ + crate::text::debug_str(values[1])
                + " needs lowercase letters, digits, `_` or `-`, starting with a letter or `_`"@)
        } else if missing_rows(values, disk, kind).len() == 0 {
            None
        } else {
            Some("Missing: "@ + crate::text::join(missing_rows(values, disk, kind), ", "@))
        }
    }
}

/// Whether a layout opens a container with a key file, on the root or off
/// it as `root` says.
fn keyfile_opens(layout: &CustomLayout, root: bool) -> (r: bool)
    ensures
        r == keyfile_open(*layout, root),
{
    let mut i: usize = 0;
    while i < layout.opens.len()
        invariant
            i <= layout.opens@.len(),
            forall|j: int| 0 <= j < i ==> !(((#[trigger] layout.opens@[j]).target@ == "/"@) == root && !(layout.opens@[j].key is Passphrase)),
        decreases layout.opens.len() - i,
    {
        let on_root = str_eq(layout.opens[i].target.as_str(), "/");
        if on_root == root && !matches!(layout.opens[i].key, Key::Passphrase(_)) {
            return true;
        }
        i = i + 1;
    }
    false
}

/// Says what a held manual layout is still short of.
fn manual_short_of(layout: &CustomLayout, encryption_row: &str, payload: &Payload, table: Option<&DiskTable>) -> (why: Option<String>)
    requires
        payload.measured(),
        table matches Some(t) ==> t.addressable(),
    ensures
        match why {
            Some(w) => manual_problem(*layout, encryption_row@, *payload, match table { Some(t) => Some(*t), None => None }) == Some(w@),
            None => manual_problem(*layout, encryption_row@, *payload, match table { Some(t) => Some(*t), None => None }) is None,
        },
{
    match layout_short_of(layout, payload.composefs, table, payload.reserve_gb()) {
        Some(short) => return Some(short),
        None => {},
    }
    let root = layout.opens_the_root();
    if root && !payload.luks_initramfs {
        return Some(owned(copy::NO_LUKS_INITRAMFS));
    }
    if keyfile_opens(layout, true) {
        return Some(owned(copy::OPENED_ROOT_KEYFILE));
    }
    if !root && Opened::of(encryption_row) != Opened::Keep {
        return Some(owned(copy::OPENED_KEYFILE_PLAIN));
    }
    if !root && keyfile_opens(layout, false) {
        return Some(owned(copy::OPENED_KEYFILE_PLAIN));
    }
    None
}

/// Says what the form is still short of, which the `Install` action shows
/// while it stays unpickable. `values` holds each row's answer by row
/// number.
#[verifier::rlimit(60)]
pub fn short_of(values: &Vec<String>, disk: &str, layout: Option<&CustomLayout>, payload: &Payload, tpm: bool, table: Option<&DiskTable>) -> (why: Option<String>)
    requires
        values@.len() > ROW_PIN,
        payload.measured(),
        table matches Some(t) ==> t.addressable(),
    ensures
        match why {
            Some(w) => short_spec(values.deep_view(), disk@, match layout { Some(l) => Some(*l), None => None }, *payload, tpm, match table { Some(t) => Some(*t), None => None }) == Some(w@),
            None => short_spec(values.deep_view(), disk@, match layout { Some(l) => Some(*l), None => None }, *payload, tpm, match table { Some(t) => Some(*t), None => None }) is None,
        },
{
    let ghost v = values.deep_view();
    assert(forall|i: int| 0 <= i < values@.len() ==> v[i] == (#[trigger] values@[i])@);
    let at = |row: usize| -> (s: &str)
        requires row < values@.len(),
        ensures s@ == values@[row as int]@,
    {
        values[row].as_str()
    };
    if !at(ROW_PASSWORD).is_empty() && !at(ROW_CONFIRM).is_empty() && !str_eq(at(ROW_PASSWORD), at(ROW_CONFIRM)) {
        proof {
            reveal_strlit("");
        }
        return Some(String::new());
    }
    let held = held_pick(at(ROW_LAYOUT), layout, disk);
    let manual = held != Held::Whole;
    if held == Held::Fresh {
        return Some(owned(copy::CUSTOM_ROOT));
    }
    if held == Held::Kept {
        match layout {
            Some(l) => {
                match manual_short_of(l, at(ROW_ENCRYPTION), payload, table) {
                    Some(short) => return Some(short),
                    None => {},
                }
            },
            None => {},
        }
    }
    let kind: &str = if manual { copy::NONE } else { written(at(ROW_ENCRYPTION)) };
    if !str_eq(kind, copy::NONE) && !payload.luks_initramfs {
        return Some(owned(copy::NO_LUKS_INITRAMFS));
    }
    if crate::text::starts_with(kind, "tpm2") && !tpm {
        return Some(owned(copy::NO_TPM));
    }
    let account = at(ROW_ACCOUNT);
    if !account.is_empty() && !portable_name(account) {
        return Some(copy::account_name(account));
    }
    let wants = Encryption::wants_passphrase(kind);
    let wants_pin = Encryption::wants_pin(kind);
    let mut missing: Vec<&str> = Vec::new();
    let ghost pairs = seq![
        (v[0].len() == 0, copy::ROW_HOSTNAME@),
        (disk@.len() == 0, copy::INSTALLATION_DISK@),
        (v[1].len() == 0, copy::ROW_ACCOUNT@),
        (v[2].len() == 0, copy::ROW_PASSWORD@),
        (v[2].len() != 0 && v[3].len() == 0, copy::ROW_CONFIRM@),
        (wants && v[7].len() == 0, copy::ROW_PASSPHRASE@),
        (wants_pin && v[8].len() == 0, copy::ROW_PIN@),
    ];
    let ghost keep = |e: (bool, Seq<char>)| e.0;
    proof {
        reveal(Seq::filter);
    }
    if at(ROW_HOSTNAME).is_empty() {
        missing.push(copy::ROW_HOSTNAME);
    }
    assert(pairs.take(1).drop_last() =~= pairs.take(0));
    assert(pairs.take(0).filter(keep) =~= Seq::<(bool, Seq<char>)>::empty());
    assert(missing@.map_values(|s: &str| s@) =~= pairs.take(1).filter(keep).map_values(|e: (bool, Seq<char>)| e.1));
    if disk.is_empty() {
        missing.push(copy::INSTALLATION_DISK);
    }
    assert(pairs.take(2).drop_last() =~= pairs.take(1));
    assert(missing@.map_values(|s: &str| s@) =~= pairs.take(2).filter(keep).map_values(|e: (bool, Seq<char>)| e.1));
    if at(ROW_ACCOUNT).is_empty() {
        missing.push(copy::ROW_ACCOUNT);
    }
    assert(pairs.take(3).drop_last() =~= pairs.take(2));
    assert(missing@.map_values(|s: &str| s@) =~= pairs.take(3).filter(keep).map_values(|e: (bool, Seq<char>)| e.1));
    if at(ROW_PASSWORD).is_empty() {
        missing.push(copy::ROW_PASSWORD);
    }
    assert(pairs.take(4).drop_last() =~= pairs.take(3));
    assert(missing@.map_values(|s: &str| s@) =~= pairs.take(4).filter(keep).map_values(|e: (bool, Seq<char>)| e.1));
    if !at(ROW_PASSWORD).is_empty() && at(ROW_CONFIRM).is_empty() {
        missing.push(copy::ROW_CONFIRM);
    }
    assert(pairs.take(5).drop_last() =~= pairs.take(4));
    assert(missing@.map_values(|s: &str| s@) =~= pairs.take(5).filter(keep).map_values(|e: (bool, Seq<char>)| e.1));
    if wants && at(ROW_PASSPHRASE).is_empty() {
        missing.push(copy::ROW_PASSPHRASE);
    }
    assert(pairs.take(6).drop_last() =~= pairs.take(5));
    assert(missing@.map_values(|s: &str| s@) =~= pairs.take(6).filter(keep).map_values(|e: (bool, Seq<char>)| e.1));
    if wants_pin && at(ROW_PIN).is_empty() {
        missing.push(copy::ROW_PIN);
    }
    assert(pairs.take(7).drop_last() =~= pairs.take(6));
    assert(pairs.take(7) =~= pairs);
    assert(missing@.map_values(|s: &str| s@) =~= pairs.filter(keep).map_values(|e: (bool, Seq<char>)| e.1));
    if missing.len() == 0 {
        None
    } else {
        Some(copy::still_needs(missing.as_slice()))
    }
}

} // verus!
