//! The small windows the layout table opens: the LUKS window that picks an
//! encryption kind and its secret, the key window that opens a container,
//! and the create window that places a planned partition.

use crate::answers::{Encryption, Key};
use crate::copy;
use crate::editor::{automatic_plan, automatic_rows, row5_view};
use crate::payload::Payload;
use crate::seqs::{first_where, lemma_first_where};
use crate::text::{join, owned, str_eq};
use crate::ui::{choices_view, Choice};
use vstd::prelude::*;

verus! {

/// Whether a drawn plan row mounts at the root.
pub open spec fn mounts_root_row() -> spec_fn((Seq<char>, Seq<char>, Seq<char>, Seq<char>, Seq<char>)) -> bool {
    |r: (Seq<char>, Seq<char>, Seq<char>, Seq<char>, Seq<char>)| r.4 == "/"@
}

/// The slot the LUKS container takes in the whole-disk plan: the root's,
/// counted from one in the plan read unencrypted, after the ESP and any
/// `/boot`.
pub open spec fn container_slot(payload: Payload) -> int {
    let plan = automatic_plan(payload.filesystem@, payload.bootloader@ != "systemd"@, None, Seq::empty(), None, false, false);
    1 + match first_where(plan, mounts_root_row()) {
        Some(i) => i,
        None => 0,
    }
}

/// Gives the slot the LUKS container takes in the whole-disk plan. The
/// container takes the root's slot, so the plan is read unencrypted and the
/// row mounted at `/` is counted.
pub fn container_number(payload: &Payload) -> (n: usize)
    ensures
        n == container_slot(*payload),
{
    let plan = automatic_rows(payload, None, "", None, false, false);
    let ghost view = plan@.map_values(|r: (String, String, String, String, String)| row5_view(r));
    proof {
        reveal_strlit("");
        assert(""@ =~= Seq::<char>::empty());
    }
    assert(view == automatic_plan(payload.filesystem@, payload.bootloader@ != "systemd"@, None, Seq::empty(), None, false, false));
    let ghost p = mounts_root_row();
    let count = plan.len();
    let mut i: usize = 0;
    while i < plan.len()
        invariant
            i <= plan.len(),
            count == plan.len(),
            view == plan@.map_values(|r: (String, String, String, String, String)| row5_view(r)),
            p == mounts_root_row(),
            view == automatic_plan(payload.filesystem@, payload.bootloader@ != "systemd"@, None, Seq::empty(), None, false, false),
            forall|j: int| 0 <= j < i ==> !p(#[trigger] view[j]),
        decreases plan.len() - i,
    {
        assert(view[i as int] == row5_view(plan@[i as int]));
        if str_eq(plan[i].4.as_str(), "/") {
            proof {
                lemma_first_where(view, p, i as int);
            }
            return i + 1;
        }
        i = i + 1;
    }
    proof {
        lemma_first_where(view, p, i as int);
    }
    1
}

/// Picks which of the LUKS window's six rows a kind asks for: the kind, the
/// gap, and the pair the kind owes. A kind that owes a PIN shows the PIN pair
/// and skips the passphrase pair. An image with no LUKS initramfs asks the
/// kind row alone.
pub open spec fn window_rows(chosen: Seq<char>, luks_initramfs: bool) -> Seq<usize> {
    if !luks_initramfs {
        seq![0usize]
    } else if "passphrase"@.is_suffix_of(chosen) {
        seq![0usize, 1, 2, 3]
    } else if "pin"@.is_suffix_of(chosen) {
        seq![0usize, 1, 4, 5]
    } else {
        seq![0usize]
    }
}

pub fn luks_window_rows(chosen: &str, luks_initramfs: bool) -> (rows: Vec<usize>)
    ensures
        rows@ == window_rows(chosen@, luks_initramfs),
{
    let rows: Vec<usize> = if !luks_initramfs {
        vec![0]
    } else if Encryption::wants_passphrase(chosen) {
        vec![0, 1, 2, 3]
    } else if Encryption::wants_pin(chosen) {
        vec![0, 1, 4, 5]
    } else {
        vec![0]
    };
    assert(rows@ =~= window_rows(chosen@, luks_initramfs));
    rows
}

/// Gives the row the window reopens on once a kind is taken, which is the
/// first half of the pair that kind owes. A kind that owes no secret returns
/// `None` and answers the window outright.
pub fn luks_window_start(chosen: &str) -> (at: Option<usize>)
    ensures
        at == (if "passphrase"@.is_suffix_of(chosen@) {
            Some(2usize)
        } else if "pin"@.is_suffix_of(chosen@) {
            Some(4usize)
        } else {
            None
        }),
{
    if Encryption::wants_passphrase(chosen) {
        Some(2)
    } else if Encryption::wants_pin(chosen) {
        Some(4)
    } else {
        None
    }
}

/// What the LUKS window answers once taken: the kind, and only the secret
/// that kind owes.
pub fn luks_taken(chosen: &str, passphrase: &str, pin: &str) -> (answer: (String, String, String))
    ensures
        answer.0@ == chosen@,
        answer.1@ == (if "passphrase"@.is_suffix_of(chosen@) { passphrase@ } else { Seq::<char>::empty() }),
        answer.2@ == (if "pin"@.is_suffix_of(chosen@) { pin@ } else { Seq::<char>::empty() }),
{
    let p = if Encryption::wants_passphrase(chosen) { owned(passphrase) } else { String::new() };
    let n = if Encryption::wants_pin(chosen) { owned(pin) } else { String::new() };
    (owned(chosen), p, n)
}

pub open spec fn missing_text(field: Seq<char>) -> Seq<char> {
    "Missing: "@ + field
}

/// What the LUKS window still needs. A kind other than `none` is refused
/// outright on an image with no LUKS initramfs. A kind that owes a passphrase
/// or a PIN needs both halves filled and agreeing; a disagreeing pair is
/// already drawn red, so its refusal is empty and only blocks the action.
pub open spec fn luks_short_spec(
    kind: Seq<char>,
    passphrase: Seq<char>,
    confirm: Seq<char>,
    pin: Seq<char>,
    confirm_pin: Seq<char>,
    luks_initramfs: bool,
) -> Option<Seq<char>> {
    if kind != copy::NONE@ && !luks_initramfs {
        Some(copy::NO_LUKS_INITRAMFS@)
    } else if "passphrase"@.is_suffix_of(kind) {
        if passphrase.len() == 0 {
            Some(missing_text(copy::ROW_PASSPHRASE@))
        } else if confirm.len() == 0 {
            Some(missing_text(copy::CONFIRM_PASSPHRASE@))
        } else if passphrase == confirm {
            None
        } else {
            Some(Seq::empty())
        }
    } else if "pin"@.is_suffix_of(kind) {
        if pin.len() == 0 {
            Some(missing_text(copy::ROW_PIN@))
        } else if confirm_pin.len() == 0 {
            Some(missing_text(copy::CONFIRM_PIN@))
        } else if pin == confirm_pin {
            None
        } else {
            Some(Seq::empty())
        }
    } else {
        None
    }
}

fn needs(field: &'static str) -> (said: String)
    ensures
        said@ == missing_text(field@),
{
    let fields: [&str; 1] = [field];
    let said = copy::still_needs(&fields);
    assert(fields@.map_values(|f: &str| f@) =~= seq![field@]);
    said
}

pub fn luks_short_of(
    kind: &str,
    passphrase: &str,
    confirm: &str,
    pin: &str,
    confirm_pin: &str,
    luks_initramfs: bool,
) -> (why: Option<String>)
    ensures
        match luks_short_spec(kind@, passphrase@, confirm@, pin@, confirm_pin@, luks_initramfs) {
            Some(w) => why matches Some(s) && s@ == w,
            None => why is None,
        },
{
    if !str_eq(kind, copy::NONE) && !luks_initramfs {
        return Some(owned(copy::NO_LUKS_INITRAMFS));
    }
    if Encryption::wants_passphrase(kind) {
        if passphrase.is_empty() {
            return Some(needs(copy::ROW_PASSPHRASE));
        }
        if confirm.is_empty() {
            return Some(needs(copy::CONFIRM_PASSPHRASE));
        }
        return if str_eq(passphrase, confirm) { None } else { Some(String::new()) };
    }
    if Encryption::wants_pin(kind) {
        if pin.is_empty() {
            return Some(needs(copy::ROW_PIN));
        }
        if confirm_pin.is_empty() {
            return Some(needs(copy::CONFIRM_PIN));
        }
        return if str_eq(pin, confirm_pin) { None } else { Some(String::new()) };
    }
    None
}

/// Lists the ways a container opens. The key file row is dropped where the
/// root is not an encrypted container, because a key file there would sit
/// readable beside the volume it opens.
pub fn key_methods(plain_root: bool) -> (methods: Vec<Choice>)
    ensures
        choices_view(methods@) == seq![(copy::KEY_PASSPHRASE@, Seq::<char>::empty(), false, false)] + if plain_root {
            Seq::empty()
        } else {
            seq![(copy::KEY_FILE@, Seq::<char>::empty(), false, false)]
        },
{
    let mut methods: Vec<Choice> = Vec::new();
    methods.push(Choice::new(copy::KEY_PASSPHRASE, ""));
    if !plain_root {
        methods.push(Choice::new(copy::KEY_FILE, ""));
    }
    proof {
        reveal_strlit("");
        assert(""@ =~= Seq::<char>::empty());
    }
    assert(choices_view(methods@) =~= seq![(copy::KEY_PASSPHRASE@, Seq::<char>::empty(), false, false)] + if plain_root {
        Seq::empty()
    } else {
        seq![(copy::KEY_FILE@, Seq::<char>::empty(), false, false)]
    });
    methods
}

/// Picks the rows the key window asks: the method, and the one secret row
/// that method reads.
pub fn key_asked(method: &str) -> (rows: Vec<usize>)
    ensures
        rows@ == (if method@ == copy::KEY_FILE@ { seq![0usize, 2] } else { seq![0usize, 1] }),
{
    let rows: Vec<usize> = if str_eq(method, copy::KEY_FILE) { vec![0, 2] } else { vec![0, 1] };
    assert(rows@ =~= (if method@ == copy::KEY_FILE@ { seq![0usize, 2] } else { seq![0usize, 1] }));
    rows
}

/// Says why the key window is unfinished. An empty box returns an empty
/// refusal, because the greyed action already says so. A path that names no
/// file is stated, because nothing else on the screen says so; `is_file`
/// says whether a file stands at `path`.
pub fn key_short_of(method: &str, passphrase: &str, path: &str, is_file: bool) -> (why: Option<String>)
    ensures
        method@ == copy::KEY_FILE@ ==> (if path@.len() == 0 {
            why matches Some(s) && s@.len() == 0
        } else if !is_file {
            why matches Some(s) && s@ == copy::KEY_FILE_MISSING@
        } else {
            why is None
        }),
        method@ != copy::KEY_FILE@ ==> (if passphrase@.len() == 0 {
            why matches Some(s) && s@.len() == 0
        } else {
            why is None
        }),
{
    if str_eq(method, copy::KEY_FILE) {
        if path.is_empty() {
            Some(String::new())
        } else if !is_file {
            Some(owned(copy::KEY_FILE_MISSING))
        } else {
            None
        }
    } else if passphrase.is_empty() {
        Some(String::new())
    } else {
        None
    }
}

/// The key the window answers: the file at `path` where the method reads a
/// file, else the typed passphrase.
pub fn key_of(method: &str, passphrase: &str, path: &str) -> (key: Key)
    ensures
        key.view_of() == (if method@ == copy::KEY_FILE@ {
            (1int, path@, Seq::<u8>::empty())
        } else {
            (0int, passphrase@, Seq::<u8>::empty())
        }),
{
    if str_eq(method, copy::KEY_FILE) {
        Key::File(owned(path))
    } else {
        Key::Passphrase(owned(passphrase))
    }
}

/// Says why a placed create cannot be taken. `offset` and `size` are what
/// the two fields read as whole GB, `None` where a field reads as no number;
/// `room` is the largest free region's whole GB, so a create that fits no
/// region is refused with the most the disk still has. A size that reads as
/// no number returns an empty refusal, because the window's legend already
/// says the screen is unfinished.
pub open spec fn create_short_spec(offset: Option<u64>, size: Option<u64>, room: u64) -> Option<Seq<char>> {
    match size {
        None => Some(Seq::empty()),
        Some(s) => {
            let o: int = match offset { Some(o) => o as int, None => 0 };
            let total: int = if o + s > u64::MAX { u64::MAX as int } else { o + s };
            if s == 0 || total > room {
                Some(copy::too_big_text(room as nat))
            } else {
                None
            }
        },
    }
}

pub fn create_short_of(offset: Option<u64>, size: Option<u64>, room: u64) -> (why: Option<String>)
    ensures
        match create_short_spec(offset, size, room) {
            Some(w) => why matches Some(s) && s@ == w,
            None => why is None,
        },
{
    let size = match size {
        Some(s) => s,
        None => return Some(String::new()),
    };
    let offset = match offset {
        Some(o) => o,
        None => 0,
    };
    if size == 0 || offset.saturating_add(size) > room {
        Some(copy::custom_too_big(room))
    } else {
        None
    }
}

} // verus!
