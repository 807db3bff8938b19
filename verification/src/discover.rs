//! What an old system on the disk says about its containers: the lines of
//! its `/etc/crypttab`, where each container's key is, and where its
//! `/etc/fstab` mounted it.

use crate::answers::{CustomLayout, Key, Partition};
use crate::backend::text_or_empty;
use crate::copy;
use crate::json::{field, field_of, text, text_of, Json};
use crate::seqs::{first_where, lemma_first_where};
use crate::text::{
    cat, chars_lines, chars_of, chars_split, chars_split_once, chars_start_with, chars_trim, chars_words, lines,
    owned, same_ignoring_case, split, split_once, str_eq, str_eq_ignore_case, string_of, trim, views, words,
};
use vstd::prelude::*;

verus! {

/// Where one crypttab line says a container's key is.
pub enum KeySource {
    /// A path inside the old system.
    Inside(String),
    /// The systemd default, `/etc/cryptsetup-keys.d/<name>.key` inside the
    /// old root.
    Default,
    /// A path on another filesystem, which the old system names by an
    /// fstab-style device spec.
    OnDevice { device: String, path: String },
    /// A path the old system waits for at boot under `keyfile-timeout=`.
    /// Removable media carries a key this way.
    Waited,
    /// A keyscript this installer cannot run.
    Unreadable,
}

/// A key source as plain values: which it is, and its device and path.
pub open spec fn source_view(k: KeySource) -> (int, Seq<char>, Seq<char>) {
    match k {
        KeySource::Inside(p) => (0, Seq::empty(), p@),
        KeySource::Default => (1, Seq::empty(), Seq::empty()),
        KeySource::OnDevice { device, path } => (2, device@, path@),
        KeySource::Waited => (3, Seq::empty(), Seq::empty()),
        KeySource::Unreadable => (4, Seq::empty(), Seq::empty()),
    }
}

/// One line of an old system's `/etc/crypttab`: the name the old system
/// opens the container as, how the line spells the container, and where
/// its key is.
pub struct Crypttab {
    pub name: String,
    pub device: String,
    pub key: KeySource,
}

pub open spec fn crypttab_view(c: Crypttab) -> (Seq<char>, Seq<char>, (int, Seq<char>, Seq<char>)) {
    (c.name@, c.device@, source_view(c.key))
}

/// Whether a word names a filesystem the way fstab does.
pub open spec fn device_spec_text(said: Seq<char>) -> bool {
    "/dev/"@.is_prefix_of(said) || "UUID="@.is_prefix_of(said) || "PARTUUID="@.is_prefix_of(said)
        || "LABEL="@.is_prefix_of(said)
}

pub fn device_spec(said: &str) -> (r: bool)
    ensures
        r == device_spec_text(said@),
{
    crate::text::starts_with(said, "/dev/") || crate::text::starts_with(said, "UUID=") || crate::text::starts_with(
        said,
        "PARTUUID=",
    ) || crate::text::starts_with(said, "LABEL=")
}

/// Reads a `path:device` third field, where the path is relative to that
/// device's filesystem root. Debian's `passdev` keyscript writes the two
/// halves the other way round, as `device:path[:timeout]`.
pub open spec fn on_device_text(said: Seq<char>, passdev: bool) -> Option<(Seq<char>, Seq<char>)> {
    match split_once(said, ':') {
        None => None,
        Some((first, rest)) => if device_spec_text(first) {
            let path = match split_once(rest, ':') {
                Some((p, _)) => p,
                None => rest,
            };
            Some((first, path))
        } else if !passdev && device_spec_text(rest) {
            Some((rest, first))
        } else {
            None
        },
    }
}

pub fn on_device(said: &str, passdev: bool) -> (out: Option<(String, String)>)
    ensures
        match on_device_text(said@, passdev) {
            Some((d, p)) => out matches Some((a, b)) && a@ == d && b@ == p,
            None => out is None,
        },
{
    let chars = chars_of(said);
    let (first, rest) = match chars_split_once(chars.as_slice(), ':') {
        Some(pair) => pair,
        None => return None,
    };
    let first = string_of(first.as_slice());
    let rest_text = string_of(rest.as_slice());
    if device_spec(first.as_str()) {
        let path = match chars_split_once(rest.as_slice(), ':') {
            Some((p, _)) => string_of(p.as_slice()),
            None => rest_text,
        };
        Some((first, path))
    } else if !passdev && device_spec(rest_text.as_str()) {
        Some((rest_text, first))
    } else {
        None
    }
}

/// The options of a crypttab line, split at commas.
pub open spec fn options_of(options: Seq<char>) -> Seq<Seq<char>> {
    split(options, ',')
}

/// Whether an option names a keyscript.
pub open spec fn keyscript_option() -> spec_fn(Seq<char>) -> bool {
    |o: Seq<char>| "keyscript="@.is_prefix_of(o)
}

/// The keyscript a line's options name, where one does.
pub open spec fn keyscript_of(options: Seq<char>) -> Option<Seq<char>> {
    let os = options_of(options);
    match first_where(os, keyscript_option()) {
        Some(i) => Some(os[i].skip(10)),
        None => None,
    }
}

/// Whether a line's options make systemd wait for the key file.
pub open spec fn timed_text(options: Seq<char>) -> bool {
    exists|i: int| 0 <= i < options_of(options).len() && "keyfile-timeout="@.is_prefix_of(#[trigger] options_of(options)[i])
}

/// Where a line's key is, given its third field and its options.
pub open spec fn key_source_text(field: Seq<char>, options: Seq<char>) -> (int, Seq<char>, Seq<char>) {
    match keyscript_of(options) {
        Some(script) => if crate::screen::short_node(script) == "passdev"@ {
            match on_device_text(field, true) {
                Some((d, p)) => (2, d, p),
                None => (4, Seq::empty(), Seq::empty()),
            }
        } else {
            (4, Seq::empty(), Seq::empty())
        },
        None => if field == "none"@ || field == "-"@ {
            (1, Seq::empty(), Seq::empty())
        } else {
            match on_device_text(field, false) {
                Some((d, p)) => (2, d, p),
                None => if timed_text(options) {
                    (3, Seq::empty(), Seq::empty())
                } else {
                    (0, Seq::empty(), field)
                },
            }
        },
    }
}

/// A line with its comment dropped and its ends trimmed.
pub open spec fn uncommented(line: Seq<char>) -> Seq<char> {
    trim(split(line, '#')[0])
}

/// The entry one crypttab line makes, where it names a volume and a device.
pub open spec fn crypttab_line(line: Seq<char>) -> Option<(Seq<char>, Seq<char>, (int, Seq<char>, Seq<char>))> {
    let w = words(uncommented(line));
    if w.len() < 2 {
        None
    } else {
        let field = if w.len() > 2 { w[2] } else { "none"@ };
        let options = if w.len() > 3 { w[3] } else { Seq::empty() };
        Some((w[0], w[1], key_source_text(field, options)))
    }
}

/// Every entry a crypttab holds, line by line.
pub open spec fn crypttabs_spec(ls: Seq<Seq<char>>) -> Seq<(Seq<char>, Seq<char>, (int, Seq<char>, Seq<char>))>
    decreases ls.len(),
{
    if ls.len() == 0 {
        seq![]
    } else {
        let rest = crypttabs_spec(ls.drop_last());
        match crypttab_line(ls.last()) {
            Some(e) => rest.push(e),
            None => rest,
        }
    }
}

/// Reading one more crypttab line adds one entry exactly where the line,
/// its comment dropped, holds at least two words: the entry is named by the
/// first word and spells its device by the second, and a line that gives no
/// key field reads as `none`, the systemd default key file. A line of fewer
/// words adds nothing. The entries already read stay as they were.
pub proof fn lemma_crypttab_line_read(ls: Seq<Seq<char>>, line: Seq<char>)
    ensures
        ({
            let w = words(uncommented(line));
            let before = crypttabs_spec(ls);
            let after = crypttabs_spec(ls.push(line));
            &&& w.len() >= 2 ==> {
                &&& after.len() == before.len() + 1
                &&& after.take(before.len() as int) == before
                &&& after[before.len() as int].0 == w[0]
                &&& after[before.len() as int].1 == w[1]
                &&& w.len() == 2 ==> after[before.len() as int].2 == source_view(KeySource::Default)
            }
            &&& w.len() < 2 ==> after == before
        }),
{
    let all = ls.push(line);
    assert(all.drop_last() =~= ls);
    assert(all.last() == line);
    let w = words(uncommented(line));
    let before = crypttabs_spec(ls);
    if w.len() >= 2 {
        let after = crypttabs_spec(all);
        assert(after.take(before.len() as int) =~= before);
        if w.len() == 2 {
            let empty = Seq::<char>::empty();
            let os = options_of(empty);
            assert(crate::text::split_scan(empty, ',') == (Seq::<Seq<char>>::empty(), Seq::<char>::empty()));
            assert(os =~= seq![empty]);
            assert(!keyscript_option()(os[0])) by {
                reveal_strlit("keyscript=");
            }
            lemma_first_where(os, keyscript_option(), 1);
            assert(keyscript_of(empty) is None);
            reveal_strlit("none");
        }
    }
}

fn before_hash(line: &[char]) -> (out: Vec<char>)
    ensures
        out@ == split(line@, '#')[0],
{
    let parts = chars_split(line, '#');
    proof {
        lemma_split_first(line@, '#');
    }
    assert(views(parts@)[0] == parts@[0]@);
    crate::text::slice_from(parts[0].as_slice(), 0)
}

/// The first piece of a split is the text up to the first separator.
proof fn lemma_split_first(s: Seq<char>, sep: char)
    ensures
        split(s, sep).len() > 0,
        split(s, sep)[0] == match crate::text::first_of(s, sep) {
            Some(i) => s.take(i),
            None => s,
        },
    decreases s.len(),
{
    lemma_split_len(s, sep);
    if s.len() > 0 {
        let t = s.drop_last();
        lemma_split_first(t, sep);
        lemma_first_of_extends(t, s.last(), sep);
        let (done, cur) = crate::text::split_scan(t, sep);
        if done.len() == 0 {
            if s.last() == sep {
                assert(split(s, sep)[0] == cur);
            } else {
                assert(split(s, sep)[0] == cur.push(s.last()));
            }
        } else {
            assert(split(s, sep)[0] == split(t, sep)[0]);
        }
    }
}

proof fn lemma_split_len(s: Seq<char>, sep: char)
    ensures
        crate::text::split_scan(s, sep).0.len() == 0 <==> crate::text::first_of(s, sep) is None,
        crate::text::split_scan(s, sep).0.len() == 0 ==> crate::text::split_scan(s, sep).1 == s,
        crate::text::split_scan(s, sep).0.len() > 0 ==> crate::text::split_scan(s, sep).0[0] == s.take(
            crate::text::first_of(s, sep)->0,
        ),
    decreases s.len(),
{
    if s.len() > 0 {
        let t = s.drop_last();
        lemma_split_len(t, sep);
        lemma_first_of_extends(t, s.last(), sep);
        assert(t.push(s.last()) =~= s);
        let (done, cur) = crate::text::split_scan(t, sep);
        if done.len() == 0 && s.last() == sep {
            assert(s.take(t.len() as int) =~= t);
        }
        if done.len() > 0 {
            let i = crate::text::first_of(t, sep)->0;
            assert(s.take(i) =~= t.take(i));
        }
    }
}

/// Where the first separator of a text with one more character falls.
proof fn lemma_first_of_extends(t: Seq<char>, c: char, sep: char)
    ensures
        crate::text::first_of(t.push(c), sep) == match crate::text::first_of(t, sep) {
            Some(i) => Some(i),
            None => if c == sep { Some(t.len() as int) } else { None },
        },
        crate::text::first_of(t, sep) matches Some(i) ==> 0 <= i < t.len(),
    decreases t.len(),
{
    if t.len() > 0 {
        let u = t.push(c);
        lemma_first_of_extends(t.drop_first(), c, sep);
        assert(u.drop_first() =~= t.drop_first().push(c));
        assert(u[0] == t[0]);
        if t[0] != sep {
            match crate::text::first_of(t.drop_first(), sep) {
                Some(i) => {
                    assert(crate::text::first_of(t, sep) == Some(i + 1));
                    assert(crate::text::first_of(u, sep) == Some(i + 1));
                },
                None => {
                    assert(crate::text::first_of(t, sep) is None);
                    if c == sep {
                        assert(crate::text::first_of(u.drop_first(), sep) == Some(t.len() - 1));
                        assert(crate::text::first_of(u, sep) == Some(t.len() as int));
                    } else {
                        assert(crate::text::first_of(u, sep) is None);
                    }
                },
            }
        } else {
            assert(crate::text::first_of(t, sep) == Some(0int));
            assert(crate::text::first_of(u, sep) == Some(0int));
        }
    } else {
        let u = t.push(c);
        assert(u.drop_first() =~= Seq::<char>::empty());
        assert(u[0] == c);
        assert(crate::text::first_of(t, sep) is None);
        if c == sep {
            assert(crate::text::first_of(u, sep) == Some(0int));
        } else {
            assert(crate::text::first_of(u.drop_first(), sep) is None);
            assert(crate::text::first_of(u, sep) is None);
        }
    }
}

/// The keyscript a line's options name.
fn keyscript(options: &[char]) -> (out: Option<Vec<char>>)
    ensures
        match keyscript_of(options@) {
            Some(k) => out matches Some(v) && v@ == k,
            None => out is None,
        },
{
    let parts = chars_split(options, ',');
    let key = chars_of("keyscript=");
    proof {
        reveal_strlit("keyscript=");
    }
    let ghost os = options_of(options@);
    let ghost p = keyscript_option();
    let mut i: usize = 0;
    while i < parts.len()
        invariant
            i <= parts.len(),
            views(parts@) == os,
            os == options_of(options@),
            p == keyscript_option(),
            key@ == "keyscript="@,
            key@.len() == 10,
            forall|j: int| 0 <= j < i ==> !p(#[trigger] os[j]),
        decreases parts.len() - i,
    {
        assert(os[i as int] == parts@[i as int]@);
        if chars_start_with(parts[i].as_slice(), key.as_slice()) {
            proof {
                lemma_first_where(os, p, i as int);
            }
            return Some(crate::text::slice_from(parts[i].as_slice(), 10));
        }
        i = i + 1;
    }
    proof {
        lemma_first_where(os, p, i as int);
    }
    None
}

fn timed(options: &[char]) -> (r: bool)
    ensures
        r == timed_text(options@),
{
    let parts = chars_split(options, ',');
    let key = chars_of("keyfile-timeout=");
    let mut i: usize = 0;
    while i < parts.len()
        invariant
            i <= parts.len(),
            views(parts@) == options_of(options@),
            key@ == "keyfile-timeout="@,
            forall|j: int| 0 <= j < i ==> !"keyfile-timeout="@.is_prefix_of(#[trigger] options_of(options@)[j]),
        decreases parts.len() - i,
    {
        assert(options_of(options@)[i as int] == parts@[i as int]@);
        if chars_start_with(parts[i].as_slice(), key.as_slice()) {
            return true;
        }
        i = i + 1;
    }
    false
}

fn source_of(field: &str, options: &[char]) -> (k: KeySource)
    ensures
        source_view(k) == key_source_text(field@, options@),
{
    match keyscript(options) {
        Some(script) => {
            let name = crate::screen::short_name_of(string_of(script.as_slice()).as_str());
            if str_eq(name.as_str(), "passdev") {
                match on_device(field, true) {
                    Some((device, path)) => KeySource::OnDevice { device, path },
                    None => KeySource::Unreadable,
                }
            } else {
                KeySource::Unreadable
            }
        },
        None => {
            if str_eq(field, "none") || str_eq(field, "-") {
                KeySource::Default
            } else {
                match on_device(field, false) {
                    Some((device, path)) => KeySource::OnDevice { device, path },
                    None => if timed(options) { KeySource::Waited } else { KeySource::Inside(owned(field)) },
                }
            }
        },
    }
}

/// Reads the lines of `/etc/crypttab` as the volumes they open and where
/// their keys are. A line naming a mechanism this installer cannot read
/// keeps its volume name, so the refusal can say which volume it was.
pub fn crypttabs(raw: &str) -> (found: Vec<Crypttab>)
    ensures
        found@.map_values(|c: Crypttab| crypttab_view(c)) == crypttabs_spec(lines(raw@)),
{
    let text = chars_of(raw);
    let rows = chars_lines(text.as_slice());
    let ghost ls = lines(raw@);
    let mut found: Vec<Crypttab> = Vec::new();
    let mut i: usize = 0;
    while i < rows.len()
        invariant
            i <= rows.len(),
            views(rows@) == ls,
            found@.map_values(|c: Crypttab| crypttab_view(c)) == crypttabs_spec(ls.take(i as int)),
        decreases rows.len() - i,
    {
        assert(ls.take(i + 1).drop_last() =~= ls.take(i as int));
        assert(ls[i as int] == rows@[i as int]@);
        let line = chars_trim(before_hash(rows[i].as_slice()).as_slice());
        let w = chars_words(line.as_slice());
        assert(views(w@) == words(uncommented(ls[i as int])));
        if w.len() >= 2 {
            let field = if w.len() > 2 { string_of(w[2].as_slice()) } else { owned("none") };
            let empty: Vec<char> = Vec::new();
            let options: &[char] = if w.len() > 3 { w[3].as_slice() } else { empty.as_slice() };
            assert(views(w@)[0] == w@[0]@ && views(w@)[1] == w@[1]@);
            assert(w.len() > 2 ==> views(w@)[2] == w@[2]@);
            assert(w.len() > 3 ==> views(w@)[3] == w@[3]@);
            let key = source_of(field.as_str(), options);
            let entry = Crypttab { name: string_of(w[0].as_slice()), device: string_of(w[1].as_slice()), key };
            let ghost before = found@;
            found.push(entry);
            assert(found@.map_values(|c: Crypttab| crypttab_view(c)) =~= before.map_values(|c: Crypttab| crypttab_view(c)).push(
                crypttab_view(entry),
            ));
        }
        i = i + 1;
    }
    assert(ls.take(i as int) =~= ls);
    found
}

/// Whether one crypttab line names this container: by its LUKS UUID, case
/// aside, where the line gives a UUID, else by its node.
pub open spec fn names_text(said: Seq<char>, uuid: Seq<char>, device: Seq<char>) -> bool {
    if "UUID="@.is_prefix_of(said) {
        uuid.len() > 0 && same_ignoring_case(said.skip(5), uuid)
    } else if "/dev/disk/by-uuid/"@.is_prefix_of(said) {
        uuid.len() > 0 && same_ignoring_case(said.skip(18), uuid)
    } else {
        said == device
    }
}

pub fn names(entry: &Crypttab, container: &Partition) -> (r: bool)
    ensures
        r == names_text(entry.device@, container.uuid@, container.device@),
{
    let said = chars_of(entry.device.as_str());
    let uuid = chars_of(container.uuid.as_str());
    let by_uuid = chars_of("UUID=");
    let by_path = chars_of("/dev/disk/by-uuid/");
    proof {
        reveal_strlit("UUID=");
        reveal_strlit("/dev/disk/by-uuid/");
    }
    if chars_start_with(said.as_slice(), by_uuid.as_slice()) {
        let rest = crate::text::slice_from(said.as_slice(), 5);
        return uuid.len() > 0 && crate::text::chars_eq_ignore_case(rest.as_slice(), uuid.as_slice());
    }
    if chars_start_with(said.as_slice(), by_path.as_slice()) {
        let rest = crate::text::slice_from(said.as_slice(), 18);
        return uuid.len() > 0 && crate::text::chars_eq_ignore_case(rest.as_slice(), uuid.as_slice());
    }
    str_eq(entry.device.as_str(), container.device.as_str())
}

/// Where the old system mounted a container, by the mapper name its
/// crypttab gave it: the second word of the first line whose first word is
/// that mapper's node, or nothing.
pub open spec fn fstab_target_text(raw: Seq<char>, name: Seq<char>) -> Seq<char> {
    let ws = lines(raw).map_values(|l: Seq<char>| words(uncommented(l)));
    match first_where(ws, mounts_mapper("/dev/mapper/"@ + name)) {
        Some(i) => ws[i][1],
        None => Seq::empty(),
    }
}

pub open spec fn mounts_mapper(mapper: Seq<char>) -> spec_fn(Seq<Seq<char>>) -> bool {
    |w: Seq<Seq<char>>| w.len() >= 2 && w[0] == mapper
}

pub fn fstab_target(raw: &str, name: &str) -> (target: String)
    ensures
        target@ == fstab_target_text(raw@, name@),
{
    let mapper = chars_of(cat("/dev/mapper/", name).as_str());
    let text = chars_of(raw);
    let rows = chars_lines(text.as_slice());
    let ghost ws = lines(raw@).map_values(|l: Seq<char>| words(uncommented(l)));
    let ghost p = mounts_mapper("/dev/mapper/"@ + name@);
    let mut i: usize = 0;
    while i < rows.len()
        invariant
            i <= rows.len(),
            views(rows@) == lines(raw@),
            ws == lines(raw@).map_values(|l: Seq<char>| words(uncommented(l))),
            p == mounts_mapper("/dev/mapper/"@ + name@),
            mapper@ == "/dev/mapper/"@ + name@,
            forall|j: int| 0 <= j < i ==> !p(#[trigger] ws[j]),
        decreases rows.len() - i,
    {
        assert(lines(raw@)[i as int] == rows@[i as int]@);
        let line = chars_trim(before_hash(rows[i].as_slice()).as_slice());
        let w = chars_words(line.as_slice());
        assert(views(w@) == ws[i as int]);
        if w.len() >= 2 && crate::text::chars_eq(w[0].as_slice(), mapper.as_slice()) {
            assert(views(w@)[0] == w@[0]@ && views(w@)[1] == w@[1]@);
            proof {
                lemma_first_where(ws, p, i as int);
            }
            return string_of(w[1].as_slice());
        }
        proof {
            if w.len() >= 2 {
                assert(views(w@)[0] == w@[0]@);
            }
        }
        i = i + 1;
    }
    proof {
        lemma_first_where(ws, p, i as int);
    }
    String::new()
}

/// Chooses the options that keep a read of an old filesystem from writing
/// to it. A read-only mount of a journaling filesystem still replays its
/// journal, so the four filesystems the editor knows take `norecovery`.
pub fn mount_options(fstype: &str) -> (options: &'static str)
    ensures
        options@ == (if fstype@ == "ext3"@ || fstype@ == "ext4"@ || fstype@ == "xfs"@ || fstype@ == "btrfs"@ {
            "ro,norecovery"@
        } else {
            "ro"@
        }),
{
    if str_eq(fstype, "ext3") || str_eq(fstype, "ext4") || str_eq(fstype, "xfs") || str_eq(fstype, "btrfs") {
        "ro,norecovery"
    } else {
        "ro"
    }
}

/// One key an old system carries, proved against the container it opens,
/// and the mount point the old fstab gave that container, empty where it
/// gave none.
pub struct OldKey {
    pub target: String,
    pub key: Key,
}

/// What the walk came back with: each container's proved key, or the reason
/// the walk has none for it.
pub struct Discovered {
    pub found: Vec<(String, OldKey)>,
    pub why: Vec<(String, String)>,
}

/// Whether a found key is the one for this container.
pub open spec fn found_for(partition: Seq<char>) -> spec_fn((String, OldKey)) -> bool {
    |f: (String, OldKey)| f.0@ == partition
}

impl Discovered {
    /// The walk found nothing, because there was nothing to walk.
    pub fn empty() -> (d: Discovered)
        ensures
            d.found@.len() == 0,
            d.why@.len() == 0,
    {
        Discovered { found: Vec::new(), why: Vec::new() }
    }

    /// Returns the key an old system holds for one container.
    pub fn key(&self, partition: &str) -> (out: Option<&Key>)
        ensures
            match first_where(self.found@, found_for(partition@)) {
                Some(i) => out matches Some(k) && *k == self.found@[i].1.key,
                None => out is None,
            },
    {
        let ghost p = found_for(partition@);
        let mut i: usize = 0;
        while i < self.found.len()
            invariant
                i <= self.found.len(),
                p == found_for(partition@),
                forall|j: int| 0 <= j < i ==> !p(#[trigger] self.found@[j]),
            decreases self.found.len() - i,
        {
            if str_eq(self.found[i].0.as_str(), partition) {
                proof {
                    lemma_first_where(self.found@, p, i as int);
                }
                return Some(&self.found[i].1.key);
            }
            i = i + 1;
        }
        proof {
            lemma_first_where(self.found@, p, i as int);
        }
        None
    }
}

/// Why the walk holds no key for a container, where no line gave a reason:
/// a named container always carries one, an unread device comes before a
/// read system because it may hold the key, and a read system that names no
/// key is said outright.
pub fn missing_key(why: Option<String>, named: bool, unread: &Vec<String>, systems: usize, device: &str) -> (said: String)
    ensures
        why matches Some(w) ==> said@ == w@,
        why is None && named ==> said@ == "the key the old system named for "@ + device@ + " does not open it"@,
        why is None && !named && unread@.len() > 0 ==> said@ == unread@[0]@ + ", and nothing readable named a key"@,
        why is None && !named && unread@.len() == 0 && systems > 0 ==> said@ == "no old system on this disk names a key for "@
            + device@,
        why is None && !named && unread@.len() == 0 && systems == 0 ==> said@ == copy::OLD_ROOT_NONE@,
{
    match why {
        Some(w) => w,
        None => if named {
            copy::old_root_key_wrong(device)
        } else if unread.len() > 0 {
            copy::old_root_partly(unread[0].as_str())
        } else if systems > 0 {
            copy::old_root_unnamed(device)
        } else {
            owned(copy::OLD_ROOT_NONE)
        },
    }
}

/// A key a system on the disk already records for a container, where the
/// installed machine could use it: a key file only where the layout opens a
/// container as `/`, because it is read at boot from the installed root.
/// `None` leaves the key for the user to give.
pub fn reused_key<'a>(partition: &str, held: Option<&CustomLayout>, found: &'a Discovered) -> (out: Option<&'a Key>)
    ensures
        ({
            let encrypted_root = held matches Some(l) && l.opens_root();
            match first_where(found.found@, found_for(partition@)) {
                Some(i) => {
                    let k = found.found@[i].1.key;
                    if encrypted_root || k is Passphrase {
                        out matches Some(x) && *x == k
                    } else {
                        out is None
                    }
                },
                None => out is None,
            }
        }),
{
    let encrypted_root = match held {
        Some(l) => l.opens_the_root(),
        None => false,
    };
    match found.key(partition) {
        Some(key) => if crate::editor::usable_key(key, encrypted_root) { Some(key) } else { None },
        None => None,
    }
}

// ---------------------------------------------------------------------------
// What `lsblk --json` lists

/// One partition as plain values: node, size, filesystem, label, type and
/// UUID.
pub open spec fn part_view(p: Partition) -> (Seq<char>, Seq<char>, Seq<char>, Seq<char>, Seq<char>, Seq<char>) {
    (p.device@, p.size@, p.fstype@, p.label@, p.parttype@, p.uuid@)
}

pub open spec fn parts_view(ps: Seq<Partition>) -> Seq<(Seq<char>, Seq<char>, Seq<char>, Seq<char>, Seq<char>, Seq<char>)> {
    ps.map_values(|p: Partition| part_view(p))
}

/// A device `lsblk` lists, as the partition it is where it is one.
pub open spec fn node_part(node: Json) -> Seq<(Seq<char>, Seq<char>, Seq<char>, Seq<char>, Seq<char>, Seq<char>)> {
    if text_of(node, "type"@) == Some("part"@) {
        seq![(
            text_or_empty(node, "name"@),
            text_or_empty(node, "size"@),
            text_or_empty(node, "fstype"@),
            text_or_empty(node, "label"@),
            text_or_empty(node, "parttype"@),
            text_or_empty(node, "uuid"@),
        )]
    } else {
        Seq::empty()
    }
}

/// The partitions under one listed device, the device first and then each
/// child's, in the order `lsblk` lists them.
pub open spec fn parts_under(node: Json) -> Seq<(Seq<char>, Seq<char>, Seq<char>, Seq<char>, Seq<char>, Seq<char>)>
    decreases node,
{
    match field_of(node, "children"@) {
        Some(Json::Array(items)) => {
            proof {
                crate::json::lemma_field_decreases(node, "children"@);
            }
            node_part(node) + parts_under_all(items@)
        },
        _ => node_part(node),
    }
}

pub open spec fn parts_under_all(nodes: Seq<Json>) -> Seq<(Seq<char>, Seq<char>, Seq<char>, Seq<char>, Seq<char>, Seq<char>)>
    decreases nodes,
{
    if nodes.len() == 0 {
        Seq::empty()
    } else {
        proof {
            vstd::seq::axiom_seq_index_decreases(nodes, nodes.len() - 1);
            vstd::seq::axiom_seq_subrange_decreases(nodes, 0, nodes.len() - 1);
        }
        parts_under_all(nodes.drop_last()) + parts_under(nodes.last())
    }
}

/// The partitions a whole `lsblk --json` document lists.
pub open spec fn listed_parts(doc: Json) -> Seq<(Seq<char>, Seq<char>, Seq<char>, Seq<char>, Seq<char>, Seq<char>)> {
    parts_under_all(crate::json::items_of(doc, "blockdevices"@))
}

fn text_owned(node: &Json, key: &str) -> (s: String)
    ensures
        s@ == text_or_empty(*node, key@),
{
    match text(node, key) {
        Some(t) => owned(t),
        None => String::new(),
    }
}

fn is_text(value: Option<&str>, want: &str) -> (r: bool)
    ensures
        r == (value matches Some(v) && v@ == want@),
{
    match value {
        Some(v) => str_eq(v, want),
        None => false,
    }
}

fn collect_parts(node: &Json, found: &mut Vec<Partition>)
    ensures
        parts_view(final(found)@) == parts_view(old(found)@) + parts_under(*node),
    decreases node,
{
    let ghost before = parts_view(found@);
    if is_text(text(node, "type"), "part") {
        let p = Partition {
            device: text_owned(node, "name"),
            size: text_owned(node, "size"),
            fstype: text_owned(node, "fstype"),
            label: text_owned(node, "label"),
            parttype: text_owned(node, "parttype"),
            uuid: text_owned(node, "uuid"),
        };
        found.push(p);
        assert(parts_view(found@) =~= before + seq![part_view(p)]);
    } else {
        assert(parts_view(found@) =~= before + node_part(*node));
    }
    let ghost here = parts_view(found@);
    match field(node, "children") {
        Some(Json::Array(items)) => {
            proof {
                crate::json::lemma_field_decreases(*node, "children"@);
            }
            let mut j: usize = 0;
            while j < items.len()
                invariant
                    j <= items@.len(),
                    field_of(*node, "children"@) == Some(Json::Array(*items)),
                    decreases_to!(*node => items@),
                    parts_view(found@) == here + parts_under_all(items@.take(j as int)),
                decreases items.len() - j,
            {
                proof {
                    vstd::seq::axiom_seq_index_decreases(items@, j as int);
                    assert(items@.take(j + 1).drop_last() =~= items@.take(j as int));
                    assert(items@.take(j + 1).last() == items@[j as int]);
                }
                collect_parts(&items[j], found);
                assert(parts_view(found@) =~= here + parts_under_all(items@.take(j + 1)));
                j = j + 1;
            }
            assert(items@.take(j as int) =~= items@);
        },
        _ => {},
    }
}

/// Reads every partition a `lsblk --json --paths` document lists, at any
/// depth: a partition nested under a container is a partition too.
pub fn partition_rows(doc: &Json) -> (found: Vec<Partition>)
    ensures
        parts_view(found@) == listed_parts(*doc),
{
    let blocks = crate::json::items(doc, "blockdevices");
    let mut found: Vec<Partition> = Vec::new();
    let mut j: usize = 0;
    while j < blocks.len()
        invariant
            j <= blocks@.len(),
            parts_view(found@) == parts_under_all(blocks@.take(j as int)),
        decreases blocks.len() - j,
    {
        assert(blocks@.take(j + 1).drop_last() =~= blocks@.take(j as int));
        assert(blocks@.take(j + 1).last() == blocks@[j as int]);
        collect_parts(&blocks[j], &mut found);
        j = j + 1;
    }
    assert(blocks@.take(j as int) =~= blocks@);
    found
}

/// A listed device a walk can mount: a partition, an opened container or a
/// logical volume, with a filesystem that is not a LUKS header.
pub open spec fn node_mountable(node: Json) -> Seq<(Seq<char>, Seq<char>)> {
    let kind = text_or_empty(node, "type"@);
    let fstype = text_or_empty(node, "fstype"@);
    if (kind == "part"@ || kind == "crypt"@ || kind == "lvm"@) && fstype.len() > 0 && fstype != "crypto_LUKS"@ {
        seq![(text_or_empty(node, "name"@), fstype)]
    } else {
        Seq::empty()
    }
}

/// The mountable devices under one listed device, the device first and then
/// each child's, in the order `lsblk` lists them.
pub open spec fn mountable_under(node: Json) -> Seq<(Seq<char>, Seq<char>)>
    decreases node,
{
    match field_of(node, "children"@) {
        Some(Json::Array(items)) => {
            proof {
                crate::json::lemma_field_decreases(node, "children"@);
            }
            node_mountable(node) + mountable_under_all(items@)
        },
        _ => node_mountable(node),
    }
}

pub open spec fn mountable_under_all(nodes: Seq<Json>) -> Seq<(Seq<char>, Seq<char>)>
    decreases nodes,
{
    if nodes.len() == 0 {
        Seq::empty()
    } else {
        proof {
            vstd::seq::axiom_seq_index_decreases(nodes, nodes.len() - 1);
            vstd::seq::axiom_seq_subrange_decreases(nodes, 0, nodes.len() - 1);
        }
        mountable_under_all(nodes.drop_last()) + mountable_under(nodes.last())
    }
}

pub open spec fn pairs_of(v: Seq<(String, String)>) -> Seq<(Seq<char>, Seq<char>)> {
    v.map_values(|p: (String, String)| (p.0@, p.1@))
}

fn collect_mountable(node: &Json, found: &mut Vec<(String, String)>)
    ensures
        pairs_of(final(found)@) == pairs_of(old(found)@) + mountable_under(*node),
    decreases node,
{
    let ghost before = pairs_of(found@);
    let kind = text_owned(node, "type");
    let fstype = text_owned(node, "fstype");
    let k = kind.as_str();
    if (str_eq(k, "part") || str_eq(k, "crypt") || str_eq(k, "lvm")) && !fstype.as_str().is_empty()
        && !str_eq(fstype.as_str(), "crypto_LUKS") {
        let name = text_owned(node, "name");
        let ghost entry = (name@, fstype@);
        found.push((name, fstype));
        assert(pairs_of(found@) =~= before + seq![entry]);
    } else {
        assert(pairs_of(found@) =~= before + node_mountable(*node));
    }
    let ghost here = pairs_of(found@);
    match field(node, "children") {
        Some(Json::Array(items)) => {
            proof {
                crate::json::lemma_field_decreases(*node, "children"@);
            }
            let mut j: usize = 0;
            while j < items.len()
                invariant
                    j <= items@.len(),
                    field_of(*node, "children"@) == Some(Json::Array(*items)),
                    decreases_to!(*node => items@),
                    pairs_of(found@) == here + mountable_under_all(items@.take(j as int)),
                decreases items.len() - j,
            {
                proof {
                    vstd::seq::axiom_seq_index_decreases(items@, j as int);
                    assert(items@.take(j + 1).drop_last() =~= items@.take(j as int));
                    assert(items@.take(j + 1).last() == items@[j as int]);
                }
                collect_mountable(&items[j], found);
                assert(pairs_of(found@) =~= here + mountable_under_all(items@.take(j + 1)));
                j = j + 1;
            }
            assert(items@.take(j as int) =~= items@);
        },
        _ => {},
    }
}

/// Reads the devices a `lsblk --json --paths` document lists that a walk
/// can mount, each with its filesystem, at any depth: an old root inside an
/// opened container or a volume group is listed under it.
pub fn mountable_rows(doc: &Json) -> (found: Vec<(String, String)>)
    ensures
        pairs_of(found@) == mountable_under_all(crate::json::items_of(*doc, "blockdevices"@)),
{
    let blocks = crate::json::items(doc, "blockdevices");
    let mut found: Vec<(String, String)> = Vec::new();
    let mut j: usize = 0;
    while j < blocks.len()
        invariant
            j <= blocks@.len(),
            pairs_of(found@) == mountable_under_all(blocks@.take(j as int)),
        decreases blocks.len() - j,
    {
        assert(blocks@.take(j + 1).drop_last() =~= blocks@.take(j as int));
        assert(blocks@.take(j + 1).last() == blocks@[j as int]);
        collect_mountable(&blocks[j], &mut found);
        j = j + 1;
    }
    assert(blocks@.take(j as int) =~= blocks@);
    found
}

} // verus!
