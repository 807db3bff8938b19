//! The disks the installer offers, the encryption kinds, and what the
//! encryption row offers once the layout opens containers.

use crate::answers::{holds_text, CustomLayout, Key, Slots};
use crate::copy::{self, slots_text};
use crate::json::{field, field_of, text, text_of, Json};
use crate::text::{
    cat, cat3, cat4, decimal, decimal_u32, decimal_usize, join, join_strings, owned, sort_texts,
    sorted_texts, starts_with, str_eq, chars_of, lines, views, words,
};
use crate::ui::{choice_view, choices_view, Choice};
use vstd::prelude::*;

verus! {

/// The encryption kinds fisherman knows, each with the label the screens
/// show for it.
pub fn kinds_list() -> (kinds: [(&'static str, &'static str); 5])
    ensures
        kinds@ == seq![
            (copy::NONE, copy::ENC_NONE),
            ("tpm2-luks", copy::ENC_TPM2),
            ("luks-passphrase", copy::ENC_PASSPHRASE),
            ("tpm2-luks-passphrase", copy::ENC_BOTH),
            ("tpm2-luks-pin", copy::ENC_TPM2_PIN),
        ],
{
    [
        (copy::NONE, copy::ENC_NONE),
        ("tpm2-luks", copy::ENC_TPM2),
        ("luks-passphrase", copy::ENC_PASSPHRASE),
        ("tpm2-luks-passphrase", copy::ENC_BOTH),
        ("tpm2-luks-pin", copy::ENC_TPM2_PIN),
    ]
}

pub open spec fn kind_names() -> Seq<Seq<char>> {
    seq![copy::NONE@, "tpm2-luks"@, "luks-passphrase"@, "tpm2-luks-passphrase"@, "tpm2-luks-pin"@]
}

pub open spec fn kind_labels() -> Seq<Seq<char>> {
    seq![copy::ENC_NONE@, copy::ENC_TPM2@, copy::ENC_PASSPHRASE@, copy::ENC_BOTH@, copy::ENC_TPM2_PIN@]
}

/// Returns the encryption kind where fisherman has one by that name, and
/// otherwise names them all.
pub fn named(kind: String) -> (out: Result<String, String>)
    ensures
        kind_names().contains(kind@) ==> out == Ok::<String, String>(kind),
        !kind_names().contains(kind@) ==> (out matches Err(why) && why@ == "`"@ + kind@
            + "` is not one of "@ + join(kind_names(), ", "@)),
{
    let kinds = kinds_list();
    let mut i: usize = 0;
    while i < 5
        invariant
            i <= 5,
            kinds@ == seq![
                (copy::NONE, copy::ENC_NONE),
                ("tpm2-luks", copy::ENC_TPM2),
                ("luks-passphrase", copy::ENC_PASSPHRASE),
                ("tpm2-luks-passphrase", copy::ENC_BOTH),
                ("tpm2-luks-pin", copy::ENC_TPM2_PIN),
            ],
            forall|j: int| 0 <= j < i ==> kind_names()[j] != kind@,
        decreases 5 - i,
    {
        if str_eq(kinds[i].0, kind.as_str()) {
            assert(kind_names()[i as int] == kind@);
            return Ok(kind);
        }
        i = i + 1;
    }
    let mut names: Vec<String> = Vec::new();
    let mut k: usize = 0;
    while k < 5
        invariant
            k <= 5,
            kinds@ == seq![
                (copy::NONE, copy::ENC_NONE),
                ("tpm2-luks", copy::ENC_TPM2),
                ("luks-passphrase", copy::ENC_PASSPHRASE),
                ("tpm2-luks-passphrase", copy::ENC_BOTH),
                ("tpm2-luks-pin", copy::ENC_TPM2_PIN),
            ],
            names.deep_view() == kind_names().take(k as int),
        decreases 5 - k,
    {
        let ghost before = names.deep_view();
        names.push(owned(kinds[k].0));
        assert(names.deep_view() =~= before.push(kinds@[k as int].0@));
        assert(kind_names().take(k + 1) =~= kind_names().take(k as int).push(kind_names()[k as int]));
        k = k + 1;
    }
    assert(kind_names().take(5) =~= kind_names());
    let mut why = cat3("`", kind.as_str(), "` is not one of ");
    why.append(join_strings(&names, ", ").as_str());
    Err(why)
}

/// A text equal to `t`.
pub open spec fn same_text(t: Seq<char>) -> spec_fn(Seq<char>) -> bool {
    |x: Seq<char>| x == t
}

/// The first kind whose label is `label`.
pub open spec fn label_at(label: Seq<char>) -> Option<int> {
    crate::seqs::first_where(kind_labels(), same_text(label))
}

/// The first kind named `name`.
pub open spec fn name_at(name: Seq<char>) -> Option<int> {
    crate::seqs::first_where(kind_names(), same_text(name))
}

/// Reads a label back as the kind fisherman is given; a label no kind
/// carries reads as `none`.
pub open spec fn written_text(shown: Seq<char>) -> Seq<char> {
    match label_at(shown) {
        Some(i) => kind_names()[i],
        None => copy::NONE@,
    }
}

/// The label a kind is shown as; a name no kind has shows as `none`.
pub open spec fn shown_text(kind: Seq<char>) -> Seq<char> {
    match name_at(kind) {
        Some(i) => kind_labels()[i],
        None => copy::ENC_NONE@,
    }
}

/// A kind read back from the label it is shown as is the kind itself:
/// `written` reverses `shown` for every kind fisherman knows.
pub proof fn lemma_written_reverses_shown(kind: Seq<char>)
    requires
        kind_names().contains(kind),
    ensures
        written_text(shown_text(kind)) == kind,
{
    reveal_strlit("none");
    reveal_strlit("tpm2-luks");
    reveal_strlit("luks-passphrase");
    reveal_strlit("tpm2-luks-passphrase");
    reveal_strlit("tpm2-luks-pin");
    reveal_strlit("LUKS with TPM2 + recovery key");
    reveal_strlit("LUKS with passphrase");
    reveal_strlit("LUKS with TPM2 + recovery passphrase");
    reveal_strlit("LUKS with TPM2 + PIN");
    let names = kind_names();
    let labels = kind_labels();
    assert(labels[2][10] != labels[4][10]);
    let i = choose|i: int| 0 <= i < names.len() && names[i] == kind;
    assert forall|j: int| 0 <= j < i implies names[j] != kind by {
        assert(names[j].len() != names[i].len());
    }
    crate::seqs::lemma_first_where(names, same_text(kind), i);
    assert(shown_text(kind) == labels[i]);
    assert forall|j: int| 0 <= j < i implies labels[j] != labels[i] by {
        if !(j == 2 && i == 4) {
            assert(labels[j].len() != labels[i].len());
        }
    }
    crate::seqs::lemma_first_where(labels, same_text(labels[i]), i);
}

/// Reads a label back as the name fisherman is given, which reverses
/// `shown`.
pub fn written(shown: &str) -> (kind: &'static str)
    ensures
        kind@ == written_text(shown@),
{
    let kinds = kinds_list();
    let ghost p = |l: Seq<char>| l == shown@;
    let mut i: usize = 0;
    while i < 5
        invariant
            i <= 5,
            p == (|l: Seq<char>| l == shown@),
            kinds@ == seq![
                (copy::NONE, copy::ENC_NONE),
                ("tpm2-luks", copy::ENC_TPM2),
                ("luks-passphrase", copy::ENC_PASSPHRASE),
                ("tpm2-luks-passphrase", copy::ENC_BOTH),
                ("tpm2-luks-pin", copy::ENC_TPM2_PIN),
            ],
            forall|j: int| 0 <= j < i ==> !p(#[trigger] kind_labels()[j]),
        decreases 5 - i,
    {
        if str_eq(kinds[i].1, shown) {
            proof {
                crate::seqs::lemma_first_where(kind_labels(), p, i as int);
            }
            return kinds[i].0;
        }
        i = i + 1;
    }
    proof {
        crate::seqs::lemma_first_where(kind_labels(), p, 5);
    }
    copy::NONE
}

/// The label a kind's name is shown as.
pub fn shown(kind: &str) -> (label: &'static str)
    ensures
        label@ == shown_text(kind@),
{
    let kinds = kinds_list();
    let ghost p = |n: Seq<char>| n == kind@;
    let mut i: usize = 0;
    while i < 5
        invariant
            i <= 5,
            p == (|n: Seq<char>| n == kind@),
            kinds@ == seq![
                (copy::NONE, copy::ENC_NONE),
                ("tpm2-luks", copy::ENC_TPM2),
                ("luks-passphrase", copy::ENC_PASSPHRASE),
                ("tpm2-luks-passphrase", copy::ENC_BOTH),
                ("tpm2-luks-pin", copy::ENC_TPM2_PIN),
            ],
            forall|j: int| 0 <= j < i ==> !p(#[trigger] kind_names()[j]),
        decreases 5 - i,
    {
        if str_eq(kinds[i].0, kind) {
            proof {
                crate::seqs::lemma_first_where(kind_names(), p, i as int);
            }
            return kinds[i].1;
        }
        i = i + 1;
    }
    proof {
        crate::seqs::lemma_first_where(kind_names(), p, 5);
    }
    copy::ENC_NONE
}

/// The first option whose label is the one `kind` shows as.
pub open spec fn kind_index(options: Seq<Choice>, kind: Seq<char>) -> Option<int> {
    crate::seqs::first_where(options, |c: Choice| c.label@ == shown_text(kind))
}

/// Finds a kind's index in the list that was built, by the label the screen
/// shows. The window that makes a container leaves `none` out, so its
/// indices run behind the kinds and the answer is found in the built list.
pub fn kind_at(options: &[Choice], kind: &str) -> (at: Option<usize>)
    ensures
        match at {
            Some(i) => kind_index(options@, kind@) == Some(i as int),
            None => kind_index(options@, kind@) is None,
        },
{
    let label = shown(kind);
    let ghost p = |c: Choice| c.label@ == shown_text(kind@);
    let mut i: usize = 0;
    while i < options.len()
        invariant
            i <= options@.len(),
            label@ == shown_text(kind@),
            p == (|c: Choice| c.label@ == shown_text(kind@)),
            forall|j: int| 0 <= j < i ==> !p(#[trigger] options@[j]),
        decreases options.len() - i,
    {
        if str_eq(options[i].label.as_str(), label) {
            proof {
                crate::seqs::lemma_first_where(options@, p, i as int);
            }
            return Some(i);
        }
        i = i + 1;
    }
    proof {
        crate::seqs::lemma_first_where(options@, p, i as int);
    }
    None
}

/// One kind as the menu offers it: a non-`none` kind refuses on an image with
/// no LUKS initramfs, a `tpm2-` kind refuses on a machine with no TPM, and
/// every other kind is offered.
pub open spec fn kind_choice(name: Seq<char>, label: Seq<char>, tpm: bool, luks_initramfs: bool) -> (Seq<char>, Seq<char>, bool, bool) {
    if name != copy::NONE@ && !luks_initramfs {
        (label, copy::NO_LUKS_INITRAMFS@, true, true)
    } else if !tpm && "tpm2"@.is_prefix_of(name) {
        (label, copy::NO_TPM@, true, true)
    } else {
        (label, ""@, false, false)
    }
}

/// The kinds the menu lists: every kind, or every kind but `none` for the
/// window that makes a container, because a LUKS header with no key is no
/// answer.
pub open spec fn kinds_spec(tpm: bool, luks_initramfs: bool, with_none: bool) -> Seq<(Seq<char>, Seq<char>, bool, bool)> {
    let all = Seq::new(5, |i: int| kind_choice(kind_names()[i], kind_labels()[i], tpm, luks_initramfs));
    if with_none { all } else { all.drop_first() }
}

/// Builds the encryption kinds as the menu offers them.
pub fn kinds(tpm: bool, luks_initramfs: bool, with_none: bool) -> (options: Vec<Choice>)
    ensures
        choices_view(options@) == kinds_spec(tpm, luks_initramfs, with_none),
{
    let list = kinds_list();
    let mut options: Vec<Choice> = Vec::new();
    let start: usize = if with_none { 0 } else { 1 };
    let mut i: usize = start;
    while i < 5
        invariant
            start <= i <= 5,
            start == (if with_none { 0usize } else { 1usize }),
            list@ == seq![
                (copy::NONE, copy::ENC_NONE),
                ("tpm2-luks", copy::ENC_TPM2),
                ("luks-passphrase", copy::ENC_PASSPHRASE),
                ("tpm2-luks-passphrase", copy::ENC_BOTH),
                ("tpm2-luks-pin", copy::ENC_TPM2_PIN),
            ],
            choices_view(options@) == Seq::new(5, |j: int| kind_choice(kind_names()[j], kind_labels()[j], tpm, luks_initramfs)).subrange(start as int, i as int),
        decreases 5 - i,
    {
        let (name, label) = list[i];
        let c = if !str_eq(name, copy::NONE) && !luks_initramfs {
            Choice::refused(label, copy::NO_LUKS_INITRAMFS)
        } else if !tpm && starts_with(name, "tpm2") {
            Choice::refused(label, copy::NO_TPM)
        } else {
            Choice::new(label, "")
        };
        let ghost before = choices_view(options@);
        let ghost all = Seq::new(5, |j: int| kind_choice(kind_names()[j], kind_labels()[j], tpm, luks_initramfs));
        assert(choice_view(c) == all[i as int]);
        options.push(c);
        assert(choices_view(options@) =~= before.push(choice_view(c)));
        assert(all.subrange(start as int, i + 1) =~= all.subrange(start as int, i as int).push(all[i as int]));
        i = i + 1;
    }
    let ghost all = Seq::new(5, |j: int| kind_choice(kind_names()[j], kind_labels()[j], tpm, luks_initramfs));
    assert(all.subrange(0, 5) =~= all);
    assert(all.subrange(1, 5) =~= all.drop_first());
    options
}

/// The kinds a numbered prompt offers, each with the index it holds among
/// the kinds, the refused ones left out.
pub open spec fn visible_spec(tpm: bool, luks_initramfs: bool) -> Seq<(int, (Seq<char>, Seq<char>, bool, bool))> {
    Seq::new(5, |i: int| (i, kind_choice(kind_names()[i], kind_labels()[i], tpm, luks_initramfs))).filter(
        |e: (int, (Seq<char>, Seq<char>, bool, bool))| !e.1.3,
    )
}

/// The numbered prompt has no renderer to filter its options, so each
/// visible option keeps the index it holds among the kinds.
pub fn visible_kinds(tpm: bool, luks_initramfs: bool) -> (out: Vec<(usize, Choice)>)
    ensures
        out@.map_values(|e: (usize, Choice)| (e.0 as int, choice_view(e.1))) == visible_spec(tpm, luks_initramfs),
{
    let all = kinds(tpm, luks_initramfs, true);
    let ghost whole = Seq::new(5, |i: int| (i, kind_choice(kind_names()[i], kind_labels()[i], tpm, luks_initramfs)));
    let ghost keep = |e: (int, (Seq<char>, Seq<char>, bool, bool))| !e.1.3;
    assert(choices_view(all@).len() == all@.len());
    assert forall|j: int| 0 <= j < all@.len() implies choice_view(#[trigger] all@[j]) == whole[0 + j].1 by {
        assert(choices_view(all@)[j] == choice_view(all@[j]));
    }
    assert(whole.take(0) =~= Seq::<(int, (Seq<char>, Seq<char>, bool, bool))>::empty());
    let mut out: Vec<(usize, Choice)> = Vec::new();
    let mut rest = all;
    let mut i: usize = 0;
    while rest.len() > 0
        invariant
            i + rest@.len() == 5,
            keep == (|e: (int, (Seq<char>, Seq<char>, bool, bool))| !e.1.3),
            whole == Seq::new(5, |j: int| (j, kind_choice(kind_names()[j], kind_labels()[j], tpm, luks_initramfs))),
            forall|j: int| 0 <= j < rest@.len() ==> choice_view(#[trigger] rest@[j]) == whole[i + j].1,
            out@.map_values(|e: (usize, Choice)| (e.0 as int, choice_view(e.1))) == whole.take(i as int).filter(keep),
        decreases rest.len(),
    {
        let ghost old_rest = rest@;
        let c = rest.remove(0);
        assert(choice_view(c) == whole[i as int].1);
        assert forall|j: int| 0 <= j < rest@.len() implies choice_view(#[trigger] rest@[j]) == whole[i + 1 + j].1 by {
            assert(rest@[j] == old_rest[j + 1]);
        }
        proof {
            reveal(Seq::filter);
            assert(whole.take(i + 1).drop_last() =~= whole.take(i as int));
            assert(whole.take(i + 1).last() == whole[i as int]);
        }
        let ghost before = out@.map_values(|e: (usize, Choice)| (e.0 as int, choice_view(e.1)));
        if !c.hidden {
            out.push((i, c));
            assert(out@.map_values(|e: (usize, Choice)| (e.0 as int, choice_view(e.1))) =~= before.push(whole[i as int]));
        }
        i = i + 1;
    }
    assert(whole.take(5) =~= whole);
    out
}

/// The refusal a chosen kind meets: a `tpm2-` kind on a machine with no TPM,
/// and a kind other than `none` on an image with no LUKS initramfs.
pub open spec fn kind_refusal(kind: Seq<char>, tpm: bool, luks_initramfs: bool) -> Option<Seq<char>> {
    if "tpm2"@.is_prefix_of(kind) && !tpm {
        Some(copy::NO_TPM@)
    } else if kind != copy::NONE@ && !luks_initramfs {
        Some(copy::NO_LUKS_INITRAMFS@)
    } else {
        None
    }
}

/// Refuses a kind this machine or this image cannot carry, so a run with no
/// window does not carry it into the recipe.
pub fn check_kind(kind: &str, tpm: bool, luks_initramfs: bool) -> (out: Result<(), String>)
    ensures
        match kind_refusal(kind@, tpm, luks_initramfs) {
            Some(why) => out matches Err(e) && e@ == why,
            None => out is Ok,
        },
{
    if starts_with(kind, "tpm2") && !tpm {
        return Err(owned(copy::NO_TPM));
    }
    if !str_eq(kind, copy::NONE) && !luks_initramfs {
        return Err(owned(copy::NO_LUKS_INITRAMFS));
    }
    Ok(())
}

// ---------------------------------------------------------------------------
// The encryption row once containers are opened

pub type ChoiceView = (Seq<char>, Seq<char>, bool, bool);

/// What one header read says beside `keep what is enrolled`.
pub open spec fn read_said(read: Result<Slots, String>) -> Seq<char> {
    match read {
        Ok(s) => slots_text(s.keys@, s.tokens@.map_values(|t: String| t@)),
        Err(why) => "its slots could not be read: "@ + why@,
    }
}

/// What every header holds, one per opened container.
pub open spec fn headers_said(read: Seq<Result<Slots, String>>) -> Seq<char> {
    if read.len() == 0 {
        Seq::empty()
    } else {
        join(read.map_values(|r: Result<Slots, String>| read_said(r)), "; "@)
    }
}

/// A root a key file opens: the machine has nothing to read at boot.
pub open spec fn keyfile_root(layout: CustomLayout) -> bool {
    exists|i: int|
        0 <= i < layout.opens@.len() && (#[trigger] layout.opens@[i]).target@ == "/"@
            && !(layout.opens@[i].key is Passphrase)
}

/// The reason of the first header that could not be read.
pub open spec fn first_unread(read: Seq<Result<Slots, String>>) -> Option<Seq<char>> {
    match crate::seqs::first_where(read, |r: Result<Slots, String>| r is Err) {
        Some(i) => Some(read[i]->Err_0@),
        None => None,
    }
}

/// Whether one header read carries a TPM2 token.
pub open spec fn carries_tpm2(read: Result<Slots, String>) -> bool {
    match read {
        Ok(s) => holds_text(s.tokens@, "systemd-tpm2"@),
        Err(_) => false,
    }
}

/// Whether a header already carries a TPM2 token.
pub open spec fn enrolled(read: Seq<Result<Slots, String>>) -> bool {
    exists|i: int| 0 <= i < read.len() && carries_tpm2(#[trigger] read[i])
}

/// The TPM2 answer: refused with the first reason that holds.
pub open spec fn tpm_row(layout: CustomLayout, read: Seq<Result<Slots, String>>, tpm: bool) -> ChoiceView {
    let label = copy::OPENED_TPM2@;
    if !tpm {
        (label, copy::NO_TPM@, true, true)
    } else if !layout.opens_root() {
        (label, copy::OPENED_KEYFILE_PLAIN@, true, true)
    } else if first_unread(read) is Some {
        (label, first_unread(read)->0, true, true)
    } else if enrolled(read) {
        (label, copy::OPENED_TPM2_HAS@, true, true)
    } else if keyfile_root(layout) {
        (label, copy::OPENED_ROOT_KEYFILE@, true, true)
    } else {
        (label, copy::OPENED_TPM2_COST@, false, false)
    }
}

/// A data volume the editor holds a passphrase for.
pub open spec fn passphrase_volume(layout: CustomLayout) -> spec_fn(int) -> bool {
    |i: int| layout.opens@[i].target@ != "/"@ && layout.opens@[i].key is Passphrase
}

/// The first data volume opened with a passphrase.
pub open spec fn first_volume(layout: CustomLayout) -> Option<int> {
    crate::seqs::first_where(Seq::new(layout.opens@.len(), |i: int| i), passphrase_volume(layout))
}

/// The key-file answer for that volume, where there is one.
pub open spec fn add_key_row(layout: CustomLayout, read: Seq<Result<Slots, String>>) -> Seq<ChoiceView> {
    match first_volume(layout) {
        None => Seq::empty(),
        Some(i) => {
            let detail = match read[i] {
                Ok(s) => copy::OPENED_ADD_KEY_COST@ + "; "@ + decimal(s.keys@.len()) + " slots now"@,
                Err(_) => copy::OPENED_ADD_KEY_COST@,
            };
            if layout.opens_root() {
                seq![(copy::OPENED_ADD_KEY@, detail, false, false)]
            } else {
                seq![(copy::OPENED_ADD_KEY@, copy::OPENED_KEYFILE_PLAIN@, true, true)]
            }
        },
    }
}

/// What the encryption row offers once the layout opens containers: keeping
/// what the headers hold, a TPM2 token, and a key file for a data volume.
/// An image with no LUKS initramfs refuses every answer for an encrypted
/// root.
pub open spec fn opened_spec(layout: CustomLayout, read: Seq<Result<Slots, String>>, tpm: bool, luks_initramfs: bool) -> Seq<ChoiceView> {
    let keep = if keyfile_root(layout) {
        (copy::OPENED_KEEP@, copy::OPENED_ROOT_KEYFILE@, true, true)
    } else {
        (copy::OPENED_KEEP@, headers_said(read), false, false)
    };
    let rows = seq![keep, tpm_row(layout, read, tpm)] + add_key_row(layout, read);
    if layout.opens_root() && !luks_initramfs {
        rows.map_values(|r: ChoiceView| (r.0, copy::NO_LUKS_INITRAMFS@, true, true))
    } else {
        rows
    }
}

fn said_of(read: &Result<Slots, String>) -> (said: String)
    ensures
        said@ == read_said(*read),
{
    match read {
        Ok(slots) => copy::slots_said(slots.keys.as_slice(), slots.tokens.as_slice()),
        Err(why) => copy::slots_unknown(why.as_str()),
    }
}

/// Builds what the encryption row holds once the layout opens containers.
/// `read` holds each opened container's header read, in the order the layout
/// opens them; a header that could not be read refuses its additions with the
/// reason instead of stopping the form.
pub fn opened_rows(layout: &CustomLayout, read: &Vec<Result<Slots, String>>, tpm: bool, luks_initramfs: bool) -> (rows: Vec<Choice>)
    requires
        read@.len() == layout.opens@.len(),
    ensures
        choices_view(rows@) == opened_spec(*layout, read@, tpm, luks_initramfs),
{
    let mut parts: Vec<String> = Vec::new();
    let mut i: usize = 0;
    while i < read.len()
        invariant
            i <= read@.len(),
            parts.deep_view() == read@.take(i as int).map_values(|r: Result<Slots, String>| read_said(r)),
        decreases read.len() - i,
    {
        let ghost before = parts.deep_view();
        parts.push(said_of(&read[i]));
        assert(parts.deep_view() =~= before.push(read_said(read@[i as int])));
        assert(read@.take(i + 1).map_values(|r: Result<Slots, String>| read_said(r)) =~= before.push(read_said(read@[i as int])));
        i = i + 1;
    }
    assert(read@.take(i as int) =~= read@);
    let said = if read.len() == 0 { String::new() } else { join_strings(&parts, "; ") };
    assert(said@ == headers_said(read@));
    // Whether a key file opens the root.
    let mut keyfile = false;
    let mut k: usize = 0;
    while k < layout.opens.len()
        invariant
            k <= layout.opens@.len(),
            keyfile == exists|j: int| 0 <= j < k && (#[trigger] layout.opens@[j]).target@ == "/"@
                && !(layout.opens@[j].key is Passphrase),
        decreases layout.opens.len() - k,
    {
        if str_eq(layout.opens[k].target.as_str(), "/") && !matches!(layout.opens[k].key, Key::Passphrase(_)) {
            keyfile = true;
        }
        k = k + 1;
    }
    let keep = if keyfile {
        Choice::refused(copy::OPENED_KEEP, copy::OPENED_ROOT_KEYFILE)
    } else {
        Choice::new(copy::OPENED_KEEP, said.as_str())
    };
    // The first header that could not be read, and whether one is enrolled.
    let ghost is_err = |r: Result<Slots, String>| r is Err;
    let mut unread: Option<&String> = None;
    let mut at: usize = 0;
    while at < read.len()
        invariant_except_break
            unread is None,
        invariant
            at <= read@.len(),
            is_err == (|r: Result<Slots, String>| r is Err),
            forall|j: int| 0 <= j < at ==> !is_err(#[trigger] read@[j]),
        ensures
            at <= read@.len(),
            forall|j: int| 0 <= j < at ==> !is_err(#[trigger] read@[j]),
            unread matches Some(w) ==> at < read@.len() && read@[at as int] == Err::<Slots, String>(*w),
            unread is None ==> at == read@.len(),
        decreases read.len() - at,
    {
        match &read[at] {
            Err(why) => {
                unread = Some(why);
                break;
            },
            Ok(_) => {},
        }
        at = at + 1;
    }
    proof {
        crate::seqs::lemma_first_where(read@, is_err, at as int);
    }
    let mut has = false;
    let mut e: usize = 0;
    while e < read.len()
        invariant
            e <= read@.len(),
            has == exists|j: int| 0 <= j < e && carries_tpm2(#[trigger] read@[j]),
        decreases read.len() - e,
    {
        match &read[e] {
            Ok(slots) => {
                if slots.has_tpm2() {
                    has = true;
                }
            },
            Err(_) => {},
        }
        e = e + 1;
    }
    let encrypted_root = layout.opens_the_root();
    let second = if !tpm {
        Choice::refused(copy::OPENED_TPM2, copy::NO_TPM)
    } else if !encrypted_root {
        Choice::refused(copy::OPENED_TPM2, copy::OPENED_KEYFILE_PLAIN)
    } else if unread.is_some() {
        Choice::refused(copy::OPENED_TPM2, unread.unwrap().as_str())
    } else if has {
        Choice::refused(copy::OPENED_TPM2, copy::OPENED_TPM2_HAS)
    } else if keyfile {
        Choice::refused(copy::OPENED_TPM2, copy::OPENED_ROOT_KEYFILE)
    } else {
        Choice::new(copy::OPENED_TPM2, copy::OPENED_TPM2_COST)
    };
    let mut rows: Vec<Choice> = Vec::new();
    rows.push(keep);
    rows.push(second);
    // The first data volume opened with a passphrase.
    let ghost indices = Seq::new(layout.opens@.len(), |j: int| j);
    let ghost volume = passphrase_volume(*layout);
    let mut v: usize = 0;
    while v < layout.opens.len() && !(!str_eq(layout.opens[v].target.as_str(), "/") && matches!(layout.opens[v].key, Key::Passphrase(_)))
        invariant
            v <= layout.opens@.len(),
            indices == Seq::new(layout.opens@.len(), |j: int| j),
            volume == passphrase_volume(*layout),
            forall|j: int| 0 <= j < v ==> !volume(#[trigger] indices[j]),
        decreases layout.opens.len() - v,
    {
        assert(indices[v as int] == v);
        v = v + 1;
    }
    proof {
        if v < layout.opens@.len() {
            assert(indices[v as int] == v);
        }
        crate::seqs::lemma_first_where(indices, volume, v as int);
    }
    if v < layout.opens.len() {
        let detail = match &read[v] {
            Ok(slots) => {
                let mut d = cat4(copy::OPENED_ADD_KEY_COST, "; ", decimal_usize(slots.keys.len()).as_str(), " slots now");
                d
            },
            Err(_) => owned(copy::OPENED_ADD_KEY_COST),
        };
        if encrypted_root {
            rows.push(Choice::new(copy::OPENED_ADD_KEY, detail.as_str()));
        } else {
            rows.push(Choice::refused(copy::OPENED_ADD_KEY, copy::OPENED_KEYFILE_PLAIN));
        }
    }
    let ghost built = choices_view(rows@);
    assert(built =~= seq![choice_view(rows@[0]), choice_view(rows@[1])] + add_key_row(*layout, read@));
    if encrypted_root && !luks_initramfs {
        let mut out: Vec<Choice> = Vec::new();
        let mut r: usize = 0;
        while r < rows.len()
            invariant
                r <= rows@.len(),
                built == choices_view(rows@),
                choices_view(out@) == built.take(r as int).map_values(|c: ChoiceView| (c.0, copy::NO_LUKS_INITRAMFS@, true, true)),
            decreases rows.len() - r,
        {
            let ghost before = choices_view(out@);
            out.push(Choice::refused(rows[r].label.as_str(), copy::NO_LUKS_INITRAMFS));
            assert(choices_view(out@) =~= before.push((built[r as int].0, copy::NO_LUKS_INITRAMFS@, true, true)));
            assert(built.take(r + 1).map_values(|c: ChoiceView| (c.0, copy::NO_LUKS_INITRAMFS@, true, true)) =~= before.push((built[r as int].0, copy::NO_LUKS_INITRAMFS@, true, true)));
            r = r + 1;
        }
        assert(built.take(r as int) =~= built);
        return out;
    }
    rows
}

// ---------------------------------------------------------------------------
// Reading a header

/// The key slots a header's `keyslots` object names, from 0 to 31.
pub open spec fn slot_numbers(keyslots: Option<Json>) -> Seq<u32> {
    match keyslots {
        None => Seq::empty(),
        Some(k) => Seq::new(32, |i: int| i as u32).filter(|at: u32| field_of(k, decimal(at as nat)) is Some),
    }
}

/// The token types a header's `tokens` object names, in document order.
pub open spec fn token_types(entries: Seq<(String, Json)>) -> Seq<Seq<char>>
    decreases entries.len(),
{
    if entries.len() == 0 {
        Seq::empty()
    } else {
        let rest = token_types(entries.drop_last());
        match text_of(entries.last().1, "type"@) {
            Some(kind) => rest.push(kind),
            None => rest,
        }
    }
}

/// Reads the keyslot indices and the token types a `luksDump` document
/// names, the types sorted. LUKS2 stops at slot 31, which is the range this
/// walks.
pub fn slots_from(doc: &Json) -> (out: Result<Slots, String>)
    ensures
        match field_of(*doc, "tokens"@) {
            Some(Json::Object(entries)) => out matches Ok(s) && s.keys@ == slot_numbers(field_of(*doc, "keyslots"@))
                && s.tokens.deep_view() == sort_texts(token_types(entries@)),
            Some(_) => out matches Err(why) && why@ == "luksDump wrote tokens that are not an object"@,
            None => out matches Ok(s) && s.keys@ == slot_numbers(field_of(*doc, "keyslots"@))
                && s.tokens@.len() == 0,
        },
{
    let mut keys: Vec<u32> = Vec::new();
    match field(doc, "keyslots") {
        Some(keyslots) => {
            let ghost all = Seq::new(32, |i: int| i as u32);
            let ghost named_slot = |at: u32| field_of(*keyslots, decimal(at as nat)) is Some;
            let mut at: u32 = 0;
            while at < 32
                invariant
                    at <= 32,
                    all == Seq::new(32, |i: int| i as u32),
                    named_slot == (|at: u32| field_of(*keyslots, decimal(at as nat)) is Some),
                    keys@ == all.take(at as int).filter(named_slot),
                decreases 32 - at,
            {
                proof {
                    reveal(Seq::filter);
                    assert(all.take(at + 1).drop_last() =~= all.take(at as int));
                    assert(all.take(at + 1).last() == at);
                }
                if field(keyslots, decimal_u32(at).as_str()).is_some() {
                    keys.push(at);
                }
                at = at + 1;
            }
            assert(all.take(32) =~= all);
        },
        None => {},
    }
    let mut tokens: Vec<String> = Vec::new();
    match field(doc, "tokens") {
        Some(listed) => {
            let entries = match listed {
                Json::Object(entries) => entries,
                _ => return Err(owned("luksDump wrote tokens that are not an object")),
            };
            let mut i: usize = 0;
            while i < entries.len()
                invariant
                    i <= entries@.len(),
                    tokens.deep_view() == token_types(entries@.take(i as int)),
                decreases entries.len() - i,
            {
                assert(entries@.take(i + 1).drop_last() =~= entries@.take(i as int));
                match text(&entries[i].1, "type") {
                    Some(kind) => {
                        let ghost before = tokens.deep_view();
                        tokens.push(owned(kind));
                        assert(tokens.deep_view() =~= before.push(kind@));
                    },
                    None => {},
                }
                i = i + 1;
            }
            assert(entries@.take(i as int) =~= entries@);
        },
        None => {},
    }
    let tokens = sorted_texts(tokens);
    Ok(Slots { keys, tokens })
}

/// The block-device prefixes the disk list drops. No user installs onto one
/// of these, and each one is only an option to get wrong.
pub open spec fn virtual_name(name: Seq<char>) -> bool {
    "loop"@.is_prefix_of(name) || "ram"@.is_prefix_of(name) || "zram"@.is_prefix_of(name) || "sr"@.is_prefix_of(name)
        || "fd"@.is_prefix_of(name) || "dm-"@.is_prefix_of(name) || "md"@.is_prefix_of(name)
}

pub fn is_virtual(name: &str) -> (r: bool)
    ensures
        r == virtual_name(name@),
{
    crate::text::starts_with(name, "loop") || crate::text::starts_with(name, "ram") || crate::text::starts_with(name, "zram")
        || crate::text::starts_with(name, "sr") || crate::text::starts_with(name, "fd") || crate::text::starts_with(
        name,
        "dm-",
    ) || crate::text::starts_with(name, "md")
}

/// Whether `/proc/mounts`, as `mounts` holds it, mounts the device `dev`:
/// some line's first word is its node.
pub open spec fn mounts_source(mounts: Seq<char>, dev: Seq<char>) -> bool {
    exists|i: int| 0 <= i < lines(mounts).len() && words(#[trigger] lines(mounts)[i]).len() > 0 && words(lines(mounts)[i])[0] == dev
}

pub fn is_source(mounts: &str, dev: &str) -> (r: bool)
    ensures
        r == mounts_source(mounts@, dev@),
{
    let rows = crate::text::chars_lines(chars_of(mounts).as_slice());
    let want = chars_of(dev);
    let mut i: usize = 0;
    while i < rows.len()
        invariant
            i <= rows.len(),
            views(rows@) == lines(mounts@),
            want@ == dev@,
            forall|j: int| 0 <= j < i ==> !(words(#[trigger] lines(mounts@)[j]).len() > 0 && words(lines(mounts@)[j])[0] == dev@),
        decreases rows.len() - i,
    {
        assert(lines(mounts@)[i as int] == rows@[i as int]@);
        let ws = crate::text::chars_words(rows[i].as_slice());
        if ws.len() > 0 {
            assert(views(ws@)[0] == ws@[0]@);
            if crate::text::chars_eq(ws[0].as_slice(), want.as_slice()) {
                return true;
            }
        }
        i = i + 1;
    }
    false
}

/// The line the disk list draws for one disk: its size as the screens say
/// it, its model and its removable tag, the empty ones left out, joined by
/// two spaces.
pub open spec fn detail_text(said: Seq<char>, model: Seq<char>, removable: bool) -> Seq<char> {
    let one = |p: Seq<char>| if p.len() > 0 { seq![p] } else { Seq::<Seq<char>>::empty() };
    join(one(said) + one(model) + if removable { seq![copy::REMOVABLE@] } else { Seq::<Seq<char>>::empty() }, "  "@)
}

pub fn disk_detail(said: &str, model: &str, removable: bool) -> (detail: String)
    ensures
        detail@ == detail_text(said@, model@, removable),
{
    let ghost one = |p: Seq<char>| if p.len() > 0 { seq![p] } else { Seq::<Seq<char>>::empty() };
    let mut parts: Vec<String> = Vec::new();
    if !said.is_empty() {
        parts.push(owned(said));
    }
    assert(parts.deep_view() =~= one(said@));
    if !model.is_empty() {
        let ghost before = parts.deep_view();
        parts.push(owned(model));
        assert(parts.deep_view() =~= before.push(model@));
    }
    assert(parts.deep_view() =~= one(said@) + one(model@));
    if removable {
        let ghost before = parts.deep_view();
        parts.push(owned(copy::REMOVABLE));
        assert(parts.deep_view() =~= before.push(copy::REMOVABLE@));
    }
    assert(parts.deep_view() =~= one(said@) + one(model@) + if removable { seq![copy::REMOVABLE@] } else { Seq::<Seq<char>>::empty() });
    join_strings(&parts, "  ")
}

} // verus!
