//! What the install writes under the installed system's own `/etc`: the
//! crypttab lines and key files the opened containers need, and how a
//! failure names the containers that already carry a new key.

use crate::answers::{Answers, CustomLayout, Encryption, Key, LuksOpen, Opened};
use crate::copy;
use crate::layout::{volume_view, volumes, volumes_spec};
use crate::seqs::{first_where, lemma_first_where};
use crate::text::{
    cat, cat3, chars_lines, chars_of, chars_trim, chars_words, decimal, decimal_u32, join, join_strings,
    lines, owned, starts_with, str_eq, string_of, trim, views, words,
};
use vstd::prelude::*;

verus! {

/// The x86-64 root partition type, which an initrd with no `root=` argument
/// finds the root by.
pub const ROOT_GUID: &'static str = "4f68bce3-e8cd-4db1-96e7-fbcaf984b709";

/// A failure after a key was added names the containers it was added to. The
/// new slot is in the LUKS header, and the key file that would have used it
/// may not be written, so the user opens that container with the key it had
/// before.
pub fn naming_added(err: String, added: &Vec<String>) -> (said: String)
    ensures
        added@.len() == 0 ==> said@ == err@,
        added@.len() > 0 ==> said@ == err@ + "; a key was added to "@ + join(added.deep_view(), ", "@)
            + " and the install did not finish"@,
{
    if added.len() == 0 {
        return err;
    }
    let mut said = err;
    said.append("; a key was added to ");
    said.append(join_strings(added, ", ").as_str());
    said.append(" and the install did not finish");
    said
}

/// The name the installed machine opens a data volume as, taken from where
/// the volume mounts: the leading slashes dropped and every other slash a
/// dash. The key file takes the same name.
pub open spec fn crypttab_name_text(target: Seq<char>) -> Seq<char>
    decreases target.len(),
{
    if target.len() > 0 && target[0] == '/' {
        crypttab_name_text(target.drop_first())
    } else {
        target.map_values(|c: char| if c == '/' { '-' } else { c })
    }
}

pub fn crypttab_name(target: &str) -> (name: String)
    ensures
        name@ == crypttab_name_text(target@),
{
    let chars = chars_of(target);
    let mut at: usize = 0;
    assert(chars@.skip(0) =~= chars@);
    while at < chars.len() && chars[at] == '/'
        invariant
            at <= chars@.len(),
            chars@ == target@,
            crypttab_name_text(chars@.skip(at as int)) == crypttab_name_text(target@),
        decreases chars.len() - at,
    {
        assert(chars@.skip(at as int).drop_first() =~= chars@.skip(at + 1));
        at = at + 1;
    }
    let ghost rest = chars@.skip(at as int);
    let mut out: Vec<char> = Vec::new();
    let mut i: usize = at;
    while i < chars.len()
        invariant
            at <= i <= chars@.len(),
            rest == chars@.skip(at as int),
            out@ == rest.take(i - at).map_values(|c: char| if c == '/' { '-' } else { c }),
        decreases chars.len() - i,
    {
        out.push(if chars[i] == '/' { '-' } else { chars[i] });
        assert(rest.take(i + 1 - at) =~= rest.take(i - at).push(chars@[i as int]));
        assert(out@ =~= rest.take(i + 1 - at).map_values(|c: char| if c == '/' { '-' } else { c }));
        i = i + 1;
    }
    assert(rest.take(i - at) =~= rest);
    string_of(out.as_slice())
}

/// Names the first key slot a container can take. LUKS2 stops at slot 31,
/// and an explicit slot is what lets a caller name the key it added even
/// when the header cannot be read back.
pub fn free_slot(keys: &Vec<u32>) -> (out: Result<u32, String>)
    ensures
        match out {
            Ok(slot) => slot < 32 && !keys@.contains(slot) && forall|k: u32| k < slot ==> #[trigger] keys@.contains(k),
            Err(why) => why@ == "all 32 key slots are in use"@ && forall|k: u32| k < 32 ==> #[trigger] keys@.contains(k),
        },
{
    let mut at: u32 = 0;
    while at < 32
        invariant
            at <= 32,
            forall|k: u32| k < at ==> #[trigger] keys@.contains(k),
        decreases 32 - at,
    {
        let mut i: usize = 0;
        let mut held = false;
        while i < keys.len()
            invariant
                i <= keys.len(),
                held == (exists|j: int| 0 <= j < i && keys@[j] == at),
            decreases keys.len() - i,
        {
            if keys[i] == at {
                held = true;
            }
            i = i + 1;
        }
        if !held {
            return Ok(at);
        }
        at = at + 1;
    }
    Err(owned("all 32 key slots are in use"))
}

/// Builds `cryptsetup`'s arguments that authenticate one header operation.
/// A passphrase and a data volume's key both arrive on stdin, so neither
/// reaches the process list. A key file is named by its path, which
/// `cryptsetup` reads itself.
pub fn auth_args(key: &Key) -> (args: Vec<String>)
    ensures
        args.deep_view() == match *key {
            Key::File(path) => seq!["--key-file"@, path@],
            _ => seq!["--key-file"@, "-"@],
        },
{
    let mut args: Vec<String> = Vec::new();
    args.push(owned("--key-file"));
    match key {
        Key::File(path) => args.push(path.clone()),
        _ => args.push(owned("-")),
    }
    assert(args.deep_view() =~= match *key {
        Key::File(path) => seq!["--key-file"@, path@],
        _ => seq!["--key-file"@, "-"@],
    });
    args
}

/// The arguments that remove one key slot, authenticated with the key that
/// opens the container.
pub fn kill_slot_args(key: &Key, partition: &str, slot: u32) -> (args: Vec<String>)
    ensures
        args.deep_view() == seq!["-q"@, "luksKillSlot"@] + match *key {
            Key::File(path) => seq!["--key-file"@, path@],
            _ => seq!["--key-file"@, "-"@],
        } + seq![partition@, decimal(slot as nat)],
{
    let mut args: Vec<String> = Vec::new();
    args.push(owned("-q"));
    args.push(owned("luksKillSlot"));
    let auth = auth_args(key);
    assert(auth.deep_view().len() == 2);
    assert(auth@.len() == 2);
    args.push(auth[0].clone());
    args.push(auth[1].clone());
    args.push(owned(partition));
    args.push(decimal_u32(slot));
    assert(args.deep_view() =~= seq!["-q"@, "luksKillSlot"@] + auth.deep_view() + seq![partition@, decimal(slot as nat)]);
    args
}

/// What the last screen owes the user where a key was added: the slot the
/// installed machine no longer needs where the header held one before, or
/// any one of them, with the slot count the header now holds.
pub fn slot_note(partition: &str, before: &Vec<u32>, count: usize) -> (rows: Vec<String>)
    ensures
        before@.len() == 1 ==> rows.deep_view() == seq![
            partition@ + " has "@ + decimal(count as nat) + " slots, and this machine no longer needs slot "@
                + decimal(before@[0] as nat),
            "both keys open it, so it can go: cryptsetup luksKillSlot "@ + partition@ + " "@ + decimal(before@[0] as nat),
        ],
        before@.len() != 1 ==> rows.deep_view() == seq![
            partition@ + " has "@ + decimal(count as nat) + " slots, and this machine no longer needs one of them"@,
            "cryptsetup luksKillSlot "@ + partition@ + " <slot>"@,
        ],
{
    if before.len() == 1 {
        copy::kill_slot(partition, before[0], count)
    } else {
        copy::kill_a_slot(partition, count)
    }
}

/// The first word of a line, or nothing.
pub open spec fn first_word(line: Seq<char>) -> Seq<char> {
    if words(line).len() > 0 { words(line)[0] } else { Seq::empty() }
}

fn first_word_of(line: &[char]) -> (w: Vec<char>)
    ensures
        w@ == first_word(line@),
{
    let ws = chars_words(line);
    if ws.len() > 0 {
        assert(views(ws@)[0] == ws@[0]@);
        slice_copy(ws[0].as_slice())
    } else {
        Vec::new()
    }
}

fn slice_copy(s: &[char]) -> (out: Vec<char>)
    ensures
        out@ == s@,
{
    let out = crate::text::slice_from(s, 0);
    assert(s@.skip(0) =~= s@);
    out
}

/// Whether this install decides the volume a crypttab line opens.
pub open spec fn decided(ours: Seq<(Seq<char>, Seq<char>)>, name: Seq<char>) -> bool {
    exists|k: int| 0 <= k < ours.len() && (#[trigger] ours[k]).0 == name
}

/// The installed system's crypttab: the lines already there, less any line
/// naming a volume this install decides, then this install's lines. The
/// volume name is the first field, which is what systemd keys an entry by.
/// `None` where nothing is left to write.
pub open spec fn merged_crypttab_text(held: Seq<char>, ours: Seq<(Seq<char>, Seq<char>)>) -> Option<Seq<char>> {
    let kept = lines(held).filter(|l: Seq<char>| !decided(ours, first_word(l)));
    let all = kept + ours.map_values(|o: (Seq<char>, Seq<char>)| o.1);
    if all.len() == 0 {
        None
    } else {
        Some(join(all, "\n"@) + "\n"@)
    }
}

pub open spec fn pairs_view(v: Seq<(String, String)>) -> Seq<(Seq<char>, Seq<char>)> {
    v.map_values(|p: (String, String)| (p.0@, p.1@))
}

fn decides(ours: &Vec<(String, String)>, name: &[char]) -> (r: bool)
    ensures
        r == decided(pairs_view(ours@), name@),
{
    let mut i: usize = 0;
    while i < ours.len()
        invariant
            i <= ours.len(),
            forall|k: int| 0 <= k < i ==> (#[trigger] pairs_view(ours@)[k]).0 != name@,
        decreases ours.len() - i,
    {
        let mine = chars_of(ours[i].0.as_str());
        if crate::text::chars_eq(mine.as_slice(), name) {
            assert(pairs_view(ours@)[i as int].0 == name@);
            return true;
        }
        i = i + 1;
    }
    false
}

/// Merges this install's crypttab lines into the file the image carries.
pub fn merged_crypttab(held: &str, ours: &Vec<(String, String)>) -> (out: Option<String>)
    ensures
        match merged_crypttab_text(held@, pairs_view(ours@)) {
            Some(t) => out matches Some(s) && s@ == t,
            None => out is None,
        },
{
    let ghost ov = pairs_view(ours@);
    let ghost keep = |l: Seq<char>| !decided(ov, first_word(l));
    let text = chars_of(held);
    let rows = chars_lines(text.as_slice());
    let ghost ls = lines(held@);
    let mut all: Vec<String> = Vec::new();
    let mut i: usize = 0;
    while i < rows.len()
        invariant
            i <= rows.len(),
            views(rows@) == ls,
            ov == pairs_view(ours@),
            keep == (|l: Seq<char>| !decided(ov, first_word(l))),
            all.deep_view() == ls.take(i as int).filter(keep),
        decreases rows.len() - i,
    {
        proof {
            reveal(Seq::filter);
            assert(ls.take(i + 1).drop_last() =~= ls.take(i as int));
            assert(ls[i as int] == rows@[i as int]@);
        }
        let word = first_word_of(rows[i].as_slice());
        if !decides(ours, word.as_slice()) {
            let ghost before = all.deep_view();
            all.push(string_of(rows[i].as_slice()));
            assert(all.deep_view() =~= before.push(ls[i as int]));
            assert(ls.take(i + 1).filter(keep) =~= ls.take(i as int).filter(keep).push(ls[i as int]));
        } else {
            assert(ls.take(i + 1).filter(keep) =~= ls.take(i as int).filter(keep));
        }
        i = i + 1;
    }
    assert(ls.take(i as int) =~= ls);
    let ghost kept = all.deep_view();
    let mut k: usize = 0;
    while k < ours.len()
        invariant
            k <= ours.len(),
            ov == pairs_view(ours@),
            all.deep_view() == kept + ov.take(k as int).map_values(|o: (Seq<char>, Seq<char>)| o.1),
        decreases ours.len() - k,
    {
        let ghost before = all.deep_view();
        all.push(ours[k].1.clone());
        assert(all.deep_view() =~= before.push(ov[k as int].1));
        assert(ov.take(k + 1).map_values(|o: (Seq<char>, Seq<char>)| o.1) =~= ov.take(k as int).map_values(
            |o: (Seq<char>, Seq<char>)| o.1,
        ).push(ov[k as int].1));
        k = k + 1;
    }
    assert(ov.take(k as int) =~= ov);
    if all.len() == 0 {
        return None;
    }
    Some(cat(join_strings(&all, "\n").as_str(), "\n"))
}

/// The installed system's fstab with the swap line this install owes: any
/// line for the same source dropped, then the swap line.
pub open spec fn other_source(source: Seq<char>) -> spec_fn(Seq<char>) -> bool {
    |l: Seq<char>| !(words(l).len() > 0 && words(l)[0] == source)
}

pub open spec fn merged_fstab_text(held: Seq<char>, uuid: Seq<char>) -> Seq<char> {
    let source = "UUID="@ + uuid;
    let kept = lines(held).filter(other_source(source));
    join(kept.push(source + " none swap defaults 0 0"@), "\n"@) + "\n"@
}

pub fn merged_fstab(held: &str, uuid: &str) -> (out: String)
    ensures
        out@ == merged_fstab_text(held@, uuid@),
{
    let source = cat("UUID=", uuid);
    let source_chars = chars_of(source.as_str());
    let ghost keep = other_source(source@);
    let text = chars_of(held);
    let rows = chars_lines(text.as_slice());
    let ghost ls = lines(held@);
    let mut all: Vec<String> = Vec::new();
    let mut i: usize = 0;
    while i < rows.len()
        invariant
            i <= rows.len(),
            views(rows@) == ls,
            source_chars@ == source@,
            keep == other_source(source@),
            all.deep_view() == ls.take(i as int).filter(keep),
        decreases rows.len() - i,
    {
        proof {
            reveal(Seq::filter);
            assert(ls.take(i + 1).drop_last() =~= ls.take(i as int));
            assert(ls[i as int] == rows@[i as int]@);
        }
        let ws = chars_words(rows[i].as_slice());
        let same = ws.len() > 0 && crate::text::chars_eq(ws[0].as_slice(), source_chars.as_slice());
        assert(ws.len() > 0 ==> views(ws@)[0] == ws@[0]@);
        if !same {
            let ghost before = all.deep_view();
            all.push(string_of(rows[i].as_slice()));
            assert(all.deep_view() =~= before.push(ls[i as int]));
            assert(ls.take(i + 1).filter(keep) =~= ls.take(i as int).filter(keep).push(ls[i as int]));
        } else {
            assert(ls.take(i + 1).filter(keep) =~= ls.take(i as int).filter(keep));
        }
        i = i + 1;
    }
    assert(ls.take(i as int) =~= ls);
    let ghost before = all.deep_view();
    all.push(cat(source.as_str(), " none swap defaults 0 0"));
    assert(all.deep_view() =~= before.push(source@ + " none swap defaults 0 0"@));
    cat(join_strings(&all, "\n").as_str(), "\n")
}

/// Whether a volume mounts as swap.
pub open spec fn swaps() -> spec_fn((Seq<char>, Seq<char>, Option<Seq<char>>)) -> bool {
    |v: (Seq<char>, Seq<char>, Option<Seq<char>>)| v.1 == "/swap"@
}

/// The device the layout swaps on, where it places one.
pub fn swap_device(layout: &CustomLayout) -> (out: Option<String>)
    ensures
        match first_where(volumes_spec(*layout, Seq::empty()), swaps()) {
            Some(i) => out matches Some(d) && d@ == volumes_spec(*layout, Seq::empty())[i].0,
            None => out is None,
        },
{
    let all = volumes(layout, "");
    proof {
        reveal_strlit("");
        assert(""@ =~= Seq::<char>::empty());
    }
    let ghost vs = crate::layout::volumes_view(all@);
    let ghost p = swaps();
    let mut i: usize = 0;
    while i < all.len()
        invariant
            i <= all.len(),
            vs == crate::layout::volumes_view(all@),
            vs == volumes_spec(*layout, Seq::empty()),
            p == swaps(),
            forall|j: int| 0 <= j < i ==> !p(#[trigger] vs[j]),
        decreases all.len() - i,
    {
        assert(vs[i as int] == volume_view(all@[i as int]));
        if str_eq(all[i].target.as_str(), "/swap") {
            proof {
                lemma_first_where(vs, p, i as int);
            }
            return Some(all[i].device.clone());
        }
        i = i + 1;
    }
    proof {
        lemma_first_where(vs, p, i as int);
    }
    None
}

/// The value of one `SELINUXTYPE=` line, quotes stripped from both ends.
pub open spec fn unquoted(s: Seq<char>) -> Seq<char>
    decreases s.len(),
{
    if s.len() > 0 && (s[0] == '\'' || s[0] == '"') {
        unquoted(s.drop_first())
    } else if s.len() > 0 && (s.last() == '\'' || s.last() == '"') {
        unquoted(s.drop_last())
    } else {
        s
    }
}

/// Whether a trimmed line of the SELinux configuration names its policy.
pub open spec fn names_policy() -> spec_fn(Seq<char>) -> bool {
    |l: Seq<char>| !"#"@.is_prefix_of(l) && "SELINUXTYPE="@.is_prefix_of(l)
}

/// The policy the target's SELinux configuration names: the first
/// uncommented `SELINUXTYPE=` line's value, quotes aside; `None` where no
/// line names one or the value is empty.
pub open spec fn selinux_type_text(raw: Seq<char>) -> Option<Seq<char>> {
    let ls = lines(raw).map_values(|l: Seq<char>| trim(l));
    match first_where(ls, names_policy()) {
        Some(i) => {
            let v = unquoted(ls[i].skip(12));
            if v.len() > 0 { Some(v) } else { None }
        },
        None => None,
    }
}

fn unquote(s: &[char]) -> (out: Vec<char>)
    ensures
        out@ == unquoted(s@),
{
    let mut from: usize = 0;
    let mut to: usize = s.len();
    assert(s@.subrange(0, s@.len() as int) =~= s@);
    while from < to
        invariant
            from <= to <= s@.len(),
            unquoted(s@.subrange(from as int, to as int)) == unquoted(s@),
        decreases to - from,
    {
        let ghost t = s@.subrange(from as int, to as int);
        if s[from] == '\'' || s[from] == '"' {
            assert(t.drop_first() =~= s@.subrange(from + 1, to as int));
            from = from + 1;
        } else if s[to - 1] == '\'' || s[to - 1] == '"' {
            assert(t.drop_last() =~= s@.subrange(from as int, to - 1));
            to = to - 1;
        } else {
            return crate::text::slice_range(s, from, to);
        }
    }
    assert(s@.subrange(from as int, to as int) =~= Seq::<char>::empty());
    Vec::new()
}

/// Reads the policy the target's SELinux configuration names.
pub fn selinux_type(raw: &str) -> (out: Option<String>)
    ensures
        match selinux_type_text(raw@) {
            Some(t) => out matches Some(s) && s@ == t,
            None => out is None,
        },
{
    let text = chars_of(raw);
    let rows = chars_lines(text.as_slice());
    let ghost ls = lines(raw@).map_values(|l: Seq<char>| trim(l));
    let ghost p = names_policy();
    let hash = chars_of("#");
    let key = chars_of("SELINUXTYPE=");
    proof {
        reveal_strlit("SELINUXTYPE=");
    }
    let mut i: usize = 0;
    while i < rows.len()
        invariant
            i <= rows.len(),
            views(rows@) == lines(raw@),
            ls == lines(raw@).map_values(|l: Seq<char>| trim(l)),
            p == names_policy(),
            hash@ == "#"@,
            key@ == "SELINUXTYPE="@,
            key@.len() == 12,
            forall|j: int| 0 <= j < i ==> !p(#[trigger] ls[j]),
        decreases rows.len() - i,
    {
        let line = chars_trim(rows[i].as_slice());
        assert(line@ == ls[i as int]);
        if !crate::text::chars_start_with(line.as_slice(), hash.as_slice()) && crate::text::chars_start_with(line.as_slice(), key.as_slice()) {
            proof {
                lemma_first_where(ls, p, i as int);
            }
            let value = unquote(crate::text::slice_from(line.as_slice(), 12).as_slice());
            if value.len() > 0 {
                return Some(string_of(value.as_slice()));
            }
            return None;
        }
        i = i + 1;
    }
    proof {
        lemma_first_where(ls, p, i as int);
    }
    None
}

/// Takes the one deployment bootc installed, with whether it is composefs.
/// A root with none or several is refused instead of guessed at.
pub fn one_deployment(found: Vec<(String, bool)>, root: &str) -> (out: Result<(String, bool), String>)
    ensures
        found@.len() == 1 ==> (out matches Ok(d) && d.0@ == found@[0].0@ && d.1 == found@[0].1),
        found@.len() == 0 ==> (out matches Err(w) && w@ == root@ + ": no installed deployment carries an /etc"@),
        found@.len() > 1 ==> (out matches Err(w) && w@ == root@ + ": "@ + decimal(found@.len())
            + " deployments carry an /etc, so which one to write is not clear"@),
{
    let count = found.len();
    if count == 1 {
        let mut found = found;
        let one = found.pop().unwrap();
        return Ok(one);
    }
    if count == 0 {
        return Err(cat(root, ": no installed deployment carries an /etc"));
    }
    let mut said = cat3(root, ": ", crate::text::decimal_usize(count).as_str());
    said.append(" deployments carry an /etc, so which one to write is not clear");
    Err(said)
}

/// Whether a plain mount or a create is the root.
pub open spec fn mounts_slash() -> spec_fn(crate::answers::CustomMount) -> bool {
    |m: crate::answers::CustomMount| m.target@ == "/"@
}

pub open spec fn creates_slash() -> spec_fn(crate::answers::Created) -> bool {
    |c: crate::answers::Created| c.target@ == "/"@
}

/// The partition a root found by type is retagged on, with the name its
/// container maps to where the layout opens the root: the opened root, else
/// the partition mounted at `/`, else the create that is the root.
pub open spec fn retag_spec(layout: CustomLayout) -> Result<(Option<Seq<char>>, Seq<char>), Seq<char>> {
    match crate::automatic::root_open_at(layout.opens@) {
        Some(i) => Ok((Some("tect-"@ + decimal((i + 1) as nat)), layout.opens@[i].partition@)),
        None => match first_where(layout.mounts@, mounts_slash()) {
            Some(i) => Ok((None, layout.mounts@[i].partition@)),
            None => match first_where(layout.creates@, creates_slash()) {
                Some(i) => Ok((None, layout.creates@[i].device@)),
                None => Err("the layout names no root partition"@),
            },
        },
    }
}

/// Finds the partition a root found by type is retagged on.
pub fn retag_target(layout: &CustomLayout) -> (out: Result<(Option<String>, String), String>)
    ensures
        match retag_spec(*layout) {
            Ok((m, p)) => out matches Ok((a, b)) && b@ == p && match m {
                Some(n) => a matches Some(x) && x@ == n,
                None => a is None,
            },
            Err(w) => out matches Err(e) && e@ == w,
        },
{
    let count = layout.opens.len();
    match crate::automatic::root_open(&layout.opens) {
        Some(i) => {
            return Ok((Some(cat("tect-", crate::text::decimal_usize(i + 1).as_str())), layout.opens[i].partition.clone()));
        },
        None => {},
    }
    let ghost pm = mounts_slash();
    let mut m: usize = 0;
    while m < layout.mounts.len()
        invariant
            m <= layout.mounts.len(),
            pm == mounts_slash(),
            crate::automatic::root_open_at(layout.opens@) is None,
            forall|j: int| 0 <= j < m ==> !pm(#[trigger] layout.mounts@[j]),
        decreases layout.mounts.len() - m,
    {
        if str_eq(layout.mounts[m].target.as_str(), "/") {
            proof {
                lemma_first_where(layout.mounts@, pm, m as int);
            }
            return Ok((None, layout.mounts[m].partition.clone()));
        }
        m = m + 1;
    }
    proof {
        lemma_first_where(layout.mounts@, pm, m as int);
    }
    let ghost pc = creates_slash();
    let mut c: usize = 0;
    while c < layout.creates.len()
        invariant
            c <= layout.creates.len(),
            pc == creates_slash(),
            crate::automatic::root_open_at(layout.opens@) is None,
            first_where(layout.mounts@, mounts_slash()) is None,
            forall|j: int| 0 <= j < c ==> !pc(#[trigger] layout.creates@[j]),
        decreases layout.creates.len() - c,
    {
        if str_eq(layout.creates[c].target.as_str(), "/") {
            proof {
                lemma_first_where(layout.creates@, pc, c as int);
            }
            return Ok((None, layout.creates[c].device.clone()));
        }
        c = c + 1;
    }
    proof {
        lemma_first_where(layout.creates@, pc, c as int);
    }
    Err(owned("the layout names no root partition"))
}

/// What a retag reports once the container is open again: both failures
/// where both steps failed, else the one that failed.
pub fn joined(tagged: Result<(), String>, reopened: Result<(), String>) -> (out: Result<(), String>)
    ensures
        match (tagged, reopened) {
            (Ok(()), Ok(())) => out is Ok,
            (Err(t), Ok(())) => out matches Err(w) && w@ == t@,
            (Ok(()), Err(o)) => out matches Err(w) && w@ == o@,
            (Err(t), Err(o)) => out matches Err(w) && w@ == t@ + "; and "@ + o@,
        },
{
    match (tagged, reopened) {
        (Ok(()), Ok(())) => Ok(()),
        (Err(t), Ok(())) => Err(t),
        (Ok(()), Err(o)) => Err(o),
        (Err(t), Err(o)) => Err(cat3(t.as_str(), "; and ", o.as_str())),
    }
}

/// The lowercase hex digit of a nibble.
pub open spec fn hex_digit(n: u8) -> u8 {
    if n < 10 { (48 + n) as u8 } else { (87 + n) as u8 }
}

/// A key's random bytes written as lowercase hex, two digits a byte.
pub open spec fn hex_text(bytes: Seq<u8>) -> Seq<u8>
    decreases bytes.len(),
{
    if bytes.len() == 0 {
        seq![]
    } else {
        hex_text(bytes.drop_last()) + seq![hex_digit(bytes.last() / 16), hex_digit(bytes.last() % 16)]
    }
}

fn digit(n: u8) -> (d: u8)
    requires
        n < 16,
    ensures
        d == hex_digit(n),
{
    if n < 10 { 48 + n } else { 87 + n }
}

/// Writes a key's random bytes as the hex text a container is keyed with.
pub fn hex_key(bytes: &[u8]) -> (out: Vec<u8>)
    ensures
        out@ == hex_text(bytes@),
{
    let mut out: Vec<u8> = Vec::new();
    let mut i: usize = 0;
    while i < bytes.len()
        invariant
            i <= bytes.len(),
            out@ == hex_text(bytes@.take(i as int)),
        decreases bytes.len() - i,
    {
        let b = bytes[i];
        out.push(digit(b / 16));
        out.push(digit(b % 16));
        assert(bytes@.take(i + 1).drop_last() =~= bytes@.take(i as int));
        assert(out@ =~= hex_text(bytes@.take(i + 1)));
        i = i + 1;
    }
    assert(bytes@.take(i as int) =~= bytes@);
    out
}

/// How a data volume opens on the installed machine: by a key this install
/// adds, by a passphrase typed at boot, or by the key file the volume
/// already opens with, carried over.
#[derive(Clone, Copy, Debug, PartialEq, Eq, Structural)]
pub enum VolumeKey {
    AddKey,
    Passphrase,
    KeyFile,
}

pub fn volume_key(key: &Key, opened: Opened) -> (how: VolumeKey)
    ensures
        how == (if key is Passphrase && opened == Opened::AddKey {
            VolumeKey::AddKey
        } else if key is Passphrase {
            VolumeKey::Passphrase
        } else {
            VolumeKey::KeyFile
        }),
{
    match key {
        Key::Passphrase(_) => if opened == Opened::AddKey { VolumeKey::AddKey } else { VolumeKey::Passphrase },
        _ => VolumeKey::KeyFile,
    }
}

/// The key file a data volume of this name opens from.
pub fn volume_key_path(name: &str) -> (path: String)
    ensures
        path@ == "/etc/cryptsetup-keys.d/"@ + name@ + ".key"@,
{
    cat3("/etc/cryptsetup-keys.d/", name, ".key")
}

/// The files a staged TPM2 enrolment writes: the key that opens the
/// container, the PIN where the token asks for one, and the unit that
/// enrols on the first boot and shreds both.
pub fn tpm2_paths(name: &str) -> (paths: (String, String, String))
    ensures
        paths.0@ == "/etc/tect/tpm2-enroll-"@ + name@ + ".key"@,
        paths.1@ == "/etc/tect/tpm2-enroll-"@ + name@ + ".pin"@,
        paths.2@ == "/etc/systemd/system/tect-tpm2-enroll-"@ + name@ + ".service"@,
{
    (
        cat3("/etc/tect/tpm2-enroll-", name, ".key"),
        cat3("/etc/tect/tpm2-enroll-", name, ".pin"),
        cat3("/etc/systemd/system/tect-tpm2-enroll-", name, ".service"),
    )
}

/// Whether the plan created and encrypted the container on this partition.
pub open spec fn created_container(layout: CustomLayout, partition: Seq<char>) -> bool {
    exists|k: int| 0 <= k < layout.creates@.len() && (#[trigger] layout.creates@[k]).encrypt && layout.creates@[k].device@ == partition
}

/// What `arrange` does for one opened container: the crypttab name a data
/// volume takes, and the enrolment staged for it, by name and with the PIN
/// a created PIN kind owes.
pub struct OpenPlan {
    pub volume: Option<String>,
    pub tpm2: Option<(String, Option<String>)>,
}

/// The decisions one opened container takes. A key written to an
/// unencrypted root sits readable beside the volume it opens, so a data
/// volume that would need one is refused there. A container the plan
/// created is enrolled where a TPM kind made it; one it kept, where the row
/// chose the TPM.
pub open spec fn open_plan_spec(layout: CustomLayout, answers: Answers, open: LuksOpen, encrypted_root: bool) -> Result<(Option<Seq<char>>, Option<(Seq<char>, Option<Seq<char>>)>), Seq<char>> {
    let data = open.target@ != "/"@;
    if data && !encrypted_root && (answers.opened != Opened::Keep || !(open.key is Passphrase)) {
        Err(copy::OPENED_KEYFILE_PLAIN@)
    } else {
        let created = created_container(layout, open.partition@);
        let created_tpm = "tpm2-"@.is_prefix_of(answers.encryption.kind@);
        let opened_tpm = answers.opened == Opened::Tpm2;
        let volume = if data { Some(crypttab_name_text(open.target@)) } else { None };
        let tpm2 = if (created && created_tpm) || (!created && opened_tpm) {
            Some((
                if data { crypttab_name_text(open.target@) } else { "root"@ },
                if created && "pin"@.is_suffix_of(answers.encryption.kind@) { Some(answers.encryption.pin@) } else { None },
            ))
        } else {
            None
        };
        Ok((volume, tpm2))
    }
}

pub fn open_plan(layout: &CustomLayout, answers: &Answers, open: &LuksOpen, encrypted_root: bool) -> (out: Result<OpenPlan, String>)
    ensures
        match open_plan_spec(*layout, *answers, *open, encrypted_root) {
            Err(w) => out matches Err(e) && e@ == w,
            Ok((v, t)) => out matches Ok(p) && (match v {
                Some(n) => p.volume matches Some(x) && x@ == n,
                None => p.volume is None,
            }) && (match t {
                Some((n, pin)) => p.tpm2 matches Some((x, y)) && x@ == n && (match pin {
                    Some(q) => y matches Some(z) && z@ == q,
                    None => y is None,
                }),
                None => p.tpm2 is None,
            }),
        },
{
    let data = !str_eq(open.target.as_str(), "/");
    let passphrase = match open.key { Key::Passphrase(_) => true, _ => false };
    if data && !encrypted_root && (answers.opened != Opened::Keep || !passphrase) {
        return Err(owned(copy::OPENED_KEYFILE_PLAIN));
    }
    let mut created = false;
    let mut k: usize = 0;
    while k < layout.creates.len()
        invariant
            k <= layout.creates.len(),
            created == (exists|j: int| 0 <= j < k && (#[trigger] layout.creates@[j]).encrypt && layout.creates@[j].device@ == open.partition@),
        decreases layout.creates.len() - k,
    {
        if layout.creates[k].encrypt && str_eq(layout.creates[k].device.as_str(), open.partition.as_str()) {
            created = true;
        }
        k = k + 1;
    }
    let created_tpm = starts_with(answers.encryption.kind.as_str(), "tpm2-");
    let opened_tpm = answers.opened == Opened::Tpm2;
    let volume = if data { Some(crypttab_name(open.target.as_str())) } else { None };
    let tpm2 = if (created && created_tpm) || (!created && opened_tpm) {
        let name = if data { crypttab_name(open.target.as_str()) } else { owned("root") };
        let pin = if created && Encryption::wants_pin(answers.encryption.kind.as_str()) {
            Some(answers.encryption.pin.clone())
        } else {
            None
        };
        Some((name, pin))
    } else {
        None
    };
    Ok(OpenPlan { volume, tpm2 })
}

/// The systemd unit a written file is, where its last path segment names a
/// service; such a unit is wanted by the installed machine's default target.
pub open spec fn unit_of(at: Seq<char>) -> Option<Seq<char>> {
    let last = crate::screen::short_node(at);
    if ".service"@.is_suffix_of(last) { Some(last) } else { None }
}

pub fn unit_name(at: &str) -> (out: Option<String>)
    ensures
        match unit_of(at@) {
            Some(u) => out matches Some(s) && s@ == u,
            None => out is None,
        },
{
    let chars = chars_of(at);
    assert(chars@.subrange(0, chars@.len() as int) =~= chars@);
    let mut k: usize = chars.len();
    while k > 0 && chars[k - 1] != '/'
        invariant
            k <= chars@.len(),
            chars@ == at@,
            crate::panel::last_slash(chars@) == crate::panel::last_slash(chars@.subrange(0, k as int)),
        decreases k,
    {
        assert(chars@.subrange(0, k as int).drop_last() =~= chars@.subrange(0, k - 1));
        k = k - 1;
    }
    proof {
        if k > 0 {
            assert(chars@.subrange(0, k as int).last() == '/');
        } else {
            assert(chars@.subrange(0, 0) =~= Seq::<char>::empty());
        }
    }
    let last = string_of(crate::text::slice_from(chars.as_slice(), k).as_slice());
    if crate::text::ends_with(last.as_str(), ".service") { Some(last) } else { None }
}

} // verus!
