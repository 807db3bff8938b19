//! The systems an EFI System Partition carries, what each one boots, and the
//! entries an install replaces or removes.

use crate::answers::{CustomLayout, Partition};
use crate::seqs::{first_where, lemma_first_where};
use crate::text::{
    chars_eq_ignore_case, chars_le, chars_lines, chars_of, chars_start_with, chars_trim, chars_words, lines,
    lower_char, lower_seq, owned, same_ignoring_case, str_eq, str_eq_ignore_case, string_of, text_le, trim,
    views, words,
};
use vstd::prelude::*;

verus! {

/// The filesystems this project's ESP is made of.
pub open spec fn fat(fstype: Seq<char>) -> bool {
    fstype == "vfat"@ || fstype == "fat"@ || fstype == "fat32"@
}

/// Reports whether a filesystem is one this project's ESP is made of.
pub fn is_fat(fstype: &str) -> (r: bool)
    ensures
        r == fat(fstype@),
{
    str_eq(fstype, "vfat") || str_eq(fstype, "fat") || str_eq(fstype, "fat32")
}

/// How one loader entry finds the filesystem it boots: by filesystem UUID or
/// by filesystem label.
#[derive(Clone, Debug, PartialEq, Eq)]
pub enum Link {
    Uuid(String),
    Label(String),
}

/// One system row a mounted filesystem carries, with every link its loader
/// names in the order the search runs.
#[derive(Clone, Debug, PartialEq, Eq)]
pub struct Carried {
    pub name: String,
    pub links: Vec<Link>,
}

/// One system row under the partition that carries it, with the partition it
/// boots where the walk could place it. An empty link marks a system the walk
/// cannot place.
#[derive(Clone, Debug, PartialEq, Eq)]
pub struct Label {
    pub name: String,
    pub link: String,
}

/// The entries one ESP loses before the install writes its own, because the
/// systems they boot are rewritten or deleted.
#[derive(Clone, Debug, PartialEq, Eq)]
pub struct EspRemoval {
    pub partition: String,
    pub entries: Vec<String>,
}

/// A link as plain values: by UUID or by label, and what it names.
pub open spec fn link_view(l: Link) -> (bool, Seq<char>) {
    match l {
        Link::Uuid(u) => (true, u@),
        Link::Label(l) => (false, l@),
    }
}

pub open spec fn links_view(ls: Seq<Link>) -> Seq<(bool, Seq<char>)> {
    ls.map_values(|l: Link| link_view(l))
}

/// A value with quotes stripped from both ends.
pub open spec fn unquoted(s: Seq<char>) -> Seq<char>
    decreases s.len(),
{
    if s.len() > 0 && (s[0] == '"' || s[0] == '\'') {
        unquoted(s.drop_first())
    } else if s.len() > 0 && (s.last() == '"' || s.last() == '\'') {
        unquoted(s.drop_last())
    } else {
        s
    }
}

/// One loader value that names a filesystem: trimmed and unquoted, and
/// nothing where it is empty or held in a shell variable.
pub open spec fn named_text(said: Seq<char>) -> Option<Seq<char>> {
    let value = unquoted(trim(said));
    if value.len() > 0 && !value.contains('$') { Some(value) } else { None }
}

pub fn named(said: &str) -> (out: Option<String>)
    ensures
        match named_text(said@) {
            Some(v) => out matches Some(s) && s@ == v,
            None => out is None,
        },
{
    let t = chars_trim(chars_of(said).as_slice());
    let mut from: usize = 0;
    let mut to: usize = t.len();
    let mut settled = false;
    assert(t@.subrange(0, t@.len() as int) =~= t@);
    while from < to && !settled
        invariant
            from <= to <= t@.len(),
            unquoted(t@.subrange(from as int, to as int)) == unquoted(t@),
            settled ==> unquoted(t@.subrange(from as int, to as int)) == t@.subrange(from as int, to as int),
        decreases to - from + (if settled { 0int } else { 1int }),
    {
        let ghost u = t@.subrange(from as int, to as int);
        if t[from] == '"' || t[from] == '\'' {
            assert(u.drop_first() =~= t@.subrange(from + 1, to as int));
            from = from + 1;
        } else if t[to - 1] == '"' || t[to - 1] == '\'' {
            assert(u.drop_last() =~= t@.subrange(from as int, to - 1));
            to = to - 1;
        } else {
            settled = true;
        }
    }
    let value = crate::text::slice_range(t.as_slice(), from, to);
    proof {
        let u = t@.subrange(from as int, to as int);
        if !settled {
            assert(u =~= Seq::<char>::empty());
        }
    }
    if value.len() == 0 || crate::text::chars_contain(value.as_slice(), '$') {
        None
    } else {
        Some(string_of(value.as_slice()))
    }
}

/// The boot filesystem UUID bootupd writes into an ESP's `bootuuid.cfg`:
/// the first line that sets `BOOT_UUID` to a value naming a filesystem.
pub open spec fn bootuuid_of(ls: Seq<Seq<char>>) -> Option<Seq<char>>
    decreases ls.len(),
{
    if ls.len() == 0 {
        None
    } else {
        let l = trim(ls[0]);
        let here = if "set BOOT_UUID="@.is_prefix_of(l) { named_text(l.skip(14)) } else { None };
        match here {
            Some(v) => Some(v),
            None => bootuuid_of(ls.drop_first()),
        }
    }
}

pub fn bootuuid(text: &str) -> (out: Option<String>)
    ensures
        match bootuuid_of(lines(text@)) {
            Some(v) => out matches Some(s) && s@ == v,
            None => out is None,
        },
{
    let rows = chars_lines(chars_of(text).as_slice());
    let key = chars_of("set BOOT_UUID=");
    proof {
        reveal_strlit("set BOOT_UUID=");
    }
    let ghost ls = lines(text@);
    let mut i: usize = 0;
    assert(ls.skip(0) =~= ls);
    while i < rows.len()
        invariant
            i <= rows.len(),
            views(rows@) == ls,
            key@ == "set BOOT_UUID="@,
            key@.len() == 14,
            ls == lines(text@),
            bootuuid_of(ls) == bootuuid_of(ls.skip(i as int)),
        decreases rows.len() - i,
    {
        let ghost rest = ls.skip(i as int);
        assert(rest[0] == rows@[i as int]@);
        assert(rest.drop_first() =~= ls.skip(i + 1));
        let line = chars_trim(rows[i].as_slice());
        if chars_start_with(line.as_slice(), key.as_slice()) {
            let value = crate::text::slice_from(line.as_slice(), 14);
            let said = string_of(value.as_slice());
            assert(said@ == trim(rest[0]).skip(14));
            match named(said.as_str()) {
                Some(v) => {
                    assert(bootuuid_of(rest) == Some(v@));
                    return Some(v);
                },
                None => {},
            }
        }
        i = i + 1;
    }
    assert(ls.skip(i as int) =~= Seq::<Seq<char>>::empty());
    None
}

/// The name a `search` command looks for: its first token that is not an
/// option. `--set` takes an optional variable name, which is never the one
/// searched for.
pub open spec fn name_after_text(ws: Seq<Seq<char>>) -> Option<Seq<char>>
    decreases ws.len(),
{
    if ws.len() == 0 {
        None
    } else if ws[0] == "--set"@ {
        if ws.len() > 1 && !"--"@.is_prefix_of(ws[1]) {
            name_after_text(ws.skip(2))
        } else {
            name_after_text(ws.drop_first())
        }
    } else if "--"@.is_prefix_of(ws[0]) {
        name_after_text(ws.drop_first())
    } else {
        named_text(ws[0])
    }
}

pub fn name_after(ws: &[Vec<char>]) -> (out: Option<String>)
    ensures
        match name_after_text(views(ws@)) {
            Some(v) => out matches Some(s) && s@ == v,
            None => out is None,
        },
{
    let set = chars_of("--set");
    let dashes = chars_of("--");
    let ghost all = views(ws@);
    let mut at: usize = 0;
    assert(all.skip(0) =~= all);
    while at < ws.len()
        invariant
            at <= ws.len(),
            all == views(ws@),
            set@ == "--set"@,
            dashes@ == "--"@,
            name_after_text(all) == name_after_text(all.skip(at as int)),
        decreases ws.len() - at,
    {
        let ghost rest = all.skip(at as int);
        assert(rest[0] == ws@[at as int]@);
        assert(rest.drop_first() =~= all.skip(at + 1));
        let word = &ws[at];
        at = at + 1;
        if crate::text::chars_eq(word.as_slice(), set.as_slice()) {
            if at < ws.len() && !chars_start_with(ws[at].as_slice(), dashes.as_slice()) {
                assert(rest[1] == ws@[at as int]@);
                assert(rest.skip(2) =~= all.skip(at + 1));
                at = at + 1;
            }
            continue;
        }
        if chars_start_with(word.as_slice(), dashes.as_slice()) {
            continue;
        }
        return named(string_of(word.as_slice()).as_str());
    }
    assert(all.skip(at as int) =~= Seq::<Seq<char>>::empty());
    None
}

/// What one line of a GRUB config searches for, where it says.
pub open spec fn line_search(ws: Seq<Seq<char>>) -> Option<(bool, Seq<char>)> {
    let command = if ws.len() > 0 { ws[0] } else { Seq::empty() };
    let rest = if ws.len() > 0 { ws.drop_first() } else { Seq::empty() };
    let by_uuid = if command == "search.fs_uuid"@ && rest.len() > 0 {
        match named_text(rest[0]) {
            Some(u) => Some((true, u)),
            None => None,
        }
    } else {
        None
    };
    match by_uuid {
        Some(l) => Some(l),
        None => if command == "search"@ { search_flags(rest, 0) } else { None },
    }
}

/// The first `--fs-uuid` or `--label` flag from `at` on whose value names a
/// filesystem.
pub open spec fn search_flags(rest: Seq<Seq<char>>, at: int) -> Option<(bool, Seq<char>)>
    decreases rest.len() - at,
{
    if at < 0 || at >= rest.len() {
        None
    } else {
        let w = rest[at];
        let value = name_after_text(rest.skip(at + 1));
        let here = if w == "--fs-uuid"@ && value is Some {
            Some((true, value->0))
        } else if w == "--label"@ && value is Some {
            Some((false, value->0))
        } else {
            None
        };
        match here {
            Some(l) => Some(l),
            None => search_flags(rest, at + 1),
        }
    }
}

/// The filesystem a GRUB config's search looks for: the first line that
/// names one.
pub open spec fn searched_text(ls: Seq<Seq<char>>) -> Option<(bool, Seq<char>)>
    decreases ls.len(),
{
    if ls.len() == 0 {
        None
    } else {
        match line_search(words(ls[0])) {
            Some(l) => Some(l),
            None => searched_text(ls.drop_first()),
        }
    }
}

fn link_of(uuid: bool, value: String) -> (l: Link)
    ensures
        link_view(l) == (uuid, value@),
{
    if uuid { Link::Uuid(value) } else { Link::Label(value) }
}

fn flags(rest: &[Vec<char>]) -> (out: Option<Link>)
    ensures
        match search_flags(views(rest@), 0) {
            Some(v) => out matches Some(l) && link_view(l) == v,
            None => out is None,
        },
{
    let fs_uuid = chars_of("--fs-uuid");
    let label = chars_of("--label");
    let ghost all = views(rest@);
    let mut at: usize = 0;
    while at < rest.len()
        invariant
            at <= rest.len(),
            all == views(rest@),
            fs_uuid@ == "--fs-uuid"@,
            label@ == "--label"@,
            search_flags(all, 0) == search_flags(all, at as int),
        decreases rest.len() - at,
    {
        assert(all[at as int] == rest@[at as int]@);
        let is_uuid = crate::text::chars_eq(rest[at].as_slice(), fs_uuid.as_slice());
        let is_label = crate::text::chars_eq(rest[at].as_slice(), label.as_slice());
        if is_uuid || is_label {
            let tail = crate::text::slice_from_vecs(rest, at + 1);
            assert(views(tail@) =~= all.skip(at + 1));
            match name_after(tail.as_slice()) {
                Some(v) => return Some(link_of(is_uuid, v)),
                None => {},
            }
        }
        at = at + 1;
    }
    None
}

/// Reads the filesystem a GRUB `search` line looks for. The line names it by
/// UUID or by label, and a value the build left as a shell variable names
/// nothing this walk can resolve.
pub fn searched(text: &str) -> (out: Option<Link>)
    ensures
        match searched_text(lines(text@)) {
            Some(v) => out matches Some(l) && link_view(l) == v,
            None => out is None,
        },
{
    let rows = chars_lines(chars_of(text).as_slice());
    let by_uuid = chars_of("search.fs_uuid");
    let search = chars_of("search");
    proof {
        reveal_strlit("search");
        reveal_strlit("search.fs_uuid");
        assert("search"@.len() != "search.fs_uuid"@.len());
    }
    let ghost ls = lines(text@);
    let mut i: usize = 0;
    assert(ls.skip(0) =~= ls);
    while i < rows.len()
        invariant
            i <= rows.len(),
            views(rows@) == ls,
            by_uuid@ == "search.fs_uuid"@,
            search@ == "search"@,
            ls == lines(text@),
            searched_text(ls) == searched_text(ls.skip(i as int)),
        decreases rows.len() - i,
    {
        let ghost rest_lines = ls.skip(i as int);
        assert(rest_lines[0] == rows@[i as int]@);
        assert(rest_lines.drop_first() =~= ls.skip(i + 1));
        let ws = chars_words(rows[i].as_slice());
        let ghost wv = views(ws@);
        if ws.len() > 0 {
            assert(wv[0] == ws@[0]@);
            let rest = crate::text::slice_from_vecs(ws.as_slice(), 1);
            assert(views(rest@) =~= wv.drop_first());
            if crate::text::chars_eq(ws[0].as_slice(), by_uuid.as_slice()) && rest.len() > 0 {
                assert(views(rest@)[0] == rest@[0]@);
                match named(string_of(rest[0].as_slice()).as_str()) {
                    Some(u) => return Some(Link::Uuid(u)),
                    None => {},
                }
            }
            if crate::text::chars_eq(ws[0].as_slice(), search.as_slice()) {
                match flags(rest.as_slice()) {
                    Some(l) => return Some(l),
                    None => {},
                }
            }
        }
        i = i + 1;
    }
    assert(ls.skip(i as int) =~= Seq::<Seq<char>>::empty());
    None
}

/// The words of every `options` line, in order.
pub open spec fn option_words(ls: Seq<Seq<char>>) -> Seq<Seq<char>>
    decreases ls.len(),
{
    if ls.len() == 0 {
        seq![]
    } else {
        option_words(ls.drop_last()) + if "options "@.is_prefix_of(ls.last()) {
            words(ls.last().skip(8))
        } else {
            seq![]
        }
    }
}

pub open spec fn roots_of() -> spec_fn(Seq<char>) -> bool {
    |w: Seq<char>| "root=UUID="@.is_prefix_of(w)
}

pub open spec fn containers_of() -> spec_fn(Seq<char>) -> bool {
    |w: Seq<char>| "rd.luks.uuid="@.is_prefix_of(w)
}

/// A container's UUID as `rd.luks.uuid=` gives it, without the `luks-`
/// prefix some generators write.
pub open spec fn luks_uuid_text(value: Seq<char>) -> Seq<char> {
    if "luks-"@.is_prefix_of(value) { value.skip(5) } else { value }
}

/// What one BLS entry opens, in the order the search runs: every root UUID,
/// then every container UUID.
pub open spec fn bls_spec(text: Seq<char>) -> Seq<(bool, Seq<char>)> {
    let ws = option_words(lines(text));
    ws.filter(roots_of()).map_values(|w: Seq<char>| (true, w.skip(10))) + ws.filter(containers_of()).map_values(
        |w: Seq<char>| (true, luks_uuid_text(w.skip(13))),
    )
}

/// Reads what one BLS entry opens, in the order the search runs. A signed
/// UKI carries its own cmdline and names neither, so it links to nothing.
pub fn bls_links(text: &str) -> (links: Vec<Link>)
    ensures
        links_view(links@) == bls_spec(text@),
{
    let rows = chars_lines(chars_of(text).as_slice());
    let options = chars_of("options ");
    proof {
        reveal_strlit("options ");
    }
    let ghost ls = lines(text@);
    let mut ws: Vec<Vec<char>> = Vec::new();
    let mut i: usize = 0;
    while i < rows.len()
        invariant
            i <= rows.len(),
            views(rows@) == ls,
            ls == lines(text@),
            options@ == "options "@,
            options@.len() == 8,
            views(ws@) == option_words(ls.take(i as int)),
        decreases rows.len() - i,
    {
        assert(ls.take(i + 1).drop_last() =~= ls.take(i as int));
        assert(ls[i as int] == rows@[i as int]@);
        if chars_start_with(rows[i].as_slice(), options.as_slice()) {
            let tail = crate::text::slice_from(rows[i].as_slice(), 8);
            let found = chars_words(tail.as_slice());
            let ghost before = views(ws@);
            let mut k: usize = 0;
            while k < found.len()
                invariant
                    k <= found.len(),
                    views(ws@) == before + views(found@).take(k as int),
                decreases found.len() - k,
            {
                let copy = crate::text::slice_from(found[k].as_slice(), 0);
                assert(found@[k as int]@.skip(0) =~= found@[k as int]@);
                let ghost prev = ws@;
                ws.push(copy);
                assert(views(ws@) =~= views(prev).push(found@[k as int]@));
                assert(views(found@).take(k + 1) =~= views(found@).take(k as int).push(found@[k as int]@));
                k = k + 1;
            }
            assert(views(found@).take(k as int) =~= views(found@));
        }
        i = i + 1;
    }
    assert(ls.take(i as int) =~= ls);
    let ghost wv = views(ws@);
    let root = chars_of("root=UUID=");
    let luks = chars_of("rd.luks.uuid=");
    let prefix = chars_of("luks-");
    proof {
        reveal_strlit("root=UUID=");
        reveal_strlit("rd.luks.uuid=");
        reveal_strlit("luks-");
    }
    let mut links: Vec<Link> = Vec::new();
    let ghost fr = |w: Seq<char>| (true, w.skip(10));
    let mut j: usize = 0;
    while j < ws.len()
        invariant
            j <= ws.len(),
            wv == views(ws@),
            root@ == "root=UUID="@,
            root@.len() == 10,
            fr == (|w: Seq<char>| (true, w.skip(10))),
            links_view(links@) == wv.take(j as int).filter(roots_of()).map_values(fr),
        decreases ws.len() - j,
    {
        proof {
            reveal(Seq::filter);
            assert(wv.take(j + 1).drop_last() =~= wv.take(j as int));
            assert(wv[j as int] == ws@[j as int]@);
        }
        if chars_start_with(ws[j].as_slice(), root.as_slice()) {
            let value = string_of(crate::text::slice_from(ws[j].as_slice(), 10).as_slice());
            let ghost prev = links@;
            links.push(Link::Uuid(value));
            assert(links_view(links@) =~= links_view(prev).push((true, wv[j as int].skip(10))));
            assert(wv.take(j + 1).filter(roots_of()) =~= wv.take(j as int).filter(roots_of()).push(wv[j as int]));
        } else {
            assert(wv.take(j + 1).filter(roots_of()) =~= wv.take(j as int).filter(roots_of()));
        }
        j = j + 1;
    }
    assert(wv.take(j as int) =~= wv);
    let ghost roots = links_view(links@);
    let ghost fc = |w: Seq<char>| (true, luks_uuid_text(w.skip(13)));
    let mut m: usize = 0;
    while m < ws.len()
        invariant
            m <= ws.len(),
            wv == views(ws@),
            luks@ == "rd.luks.uuid="@,
            luks@.len() == 13,
            prefix@ == "luks-"@,
            prefix@.len() == 5,
            fc == (|w: Seq<char>| (true, luks_uuid_text(w.skip(13)))),
            links_view(links@) == roots + wv.take(m as int).filter(containers_of()).map_values(fc),
        decreases ws.len() - m,
    {
        proof {
            reveal(Seq::filter);
            assert(wv.take(m + 1).drop_last() =~= wv.take(m as int));
            assert(wv[m as int] == ws@[m as int]@);
        }
        if chars_start_with(ws[m].as_slice(), luks.as_slice()) {
            let value = crate::text::slice_from(ws[m].as_slice(), 13);
            let uuid = if chars_start_with(value.as_slice(), prefix.as_slice()) {
                crate::text::slice_from(value.as_slice(), 5)
            } else {
                value
            };
            let ghost prev = links@;
            links.push(Link::Uuid(string_of(uuid.as_slice())));
            assert(links_view(links@) =~= links_view(prev).push(fc(wv[m as int])));
            assert(wv.take(m + 1).filter(containers_of()) =~= wv.take(m as int).filter(containers_of()).push(wv[m as int]));
        } else {
            assert(wv.take(m + 1).filter(containers_of()) =~= wv.take(m as int).filter(containers_of()));
        }
        m = m + 1;
    }
    assert(wv.take(m as int) =~= wv);
    links
}

/// Whether a partition is the one a link names: by its filesystem UUID or
/// by its label, case aside, and never by an empty one.
pub open spec fn matches_link(l: (bool, Seq<char>)) -> spec_fn(Partition) -> bool {
    |p: Partition| if l.0 {
        p.uuid@.len() > 0 && same_ignoring_case(p.uuid@, l.1)
    } else {
        p.label@.len() > 0 && same_ignoring_case(p.label@, l.1)
    }
}

/// The partition the first resolvable link names.
pub open spec fn link_target(parts: Seq<Partition>, links: Seq<(bool, Seq<char>)>) -> Option<Seq<char>>
    decreases links.len(),
{
    if links.len() == 0 {
        None
    } else {
        match first_where(parts, matches_link(links[0])) {
            Some(i) => Some(parts[i].device@),
            None => link_target(parts, links.drop_first()),
        }
    }
}

/// The row one carried system draws: its name, and the partition it boots,
/// a Microsoft directory taking the Windows install where its own files
/// name none, and nothing where the walk cannot place it.
pub open spec fn label_spec(c: Carried, parts: Seq<Partition>, windows: Option<Seq<char>>) -> (Seq<char>, Seq<char>) {
    let link = match link_target(parts, links_view(c.links@)) {
        Some(d) => d,
        None => if same_ignoring_case(c.name@, "Microsoft"@) {
            match windows { Some(w) => w, None => Seq::empty() }
        } else {
            Seq::empty()
        },
    };
    (c.name@, link)
}

pub open spec fn labels_view(ls: Seq<Label>) -> Seq<(Seq<char>, Seq<char>)> {
    ls.map_values(|l: Label| (l.name@, l.link@))
}

fn find_partition(parts: &[Partition], uuid: bool, value: &str) -> (at: Option<usize>)
    ensures
        match at {
            Some(k) => k < parts@.len() && first_where(parts@, matches_link((uuid, value@))) == Some(k as int),
            None => first_where(parts@, matches_link((uuid, value@))) is None,
        },
{
    let ghost p = matches_link((uuid, value@));
    let mut i: usize = 0;
    while i < parts.len()
        invariant
            i <= parts.len(),
            p == matches_link((uuid, value@)),
            forall|j: int| 0 <= j < i ==> !p(#[trigger] parts@[j]),
        decreases parts.len() - i,
    {
        let part = &parts[i];
        let hit = if uuid {
            !part.uuid.as_str().is_empty() && str_eq_ignore_case(part.uuid.as_str(), value)
        } else {
            !part.label.as_str().is_empty() && str_eq_ignore_case(part.label.as_str(), value)
        };
        if hit {
            proof {
                lemma_first_where(parts@, p, i as int);
            }
            return Some(i);
        }
        i = i + 1;
    }
    proof {
        lemma_first_where(parts@, p, i as int);
    }
    None
}

fn label_of(c: &Carried, parts: &[Partition], windows: Option<&str>) -> (l: Label)
    ensures
        (l.name@, l.link@) == label_spec(*c, parts@, match windows { Some(w) => Some(w@), None => None }),
{
    let ghost lv = links_view(c.links@);
    let mut k: usize = 0;
    assert(lv.skip(0) =~= lv);
    while k < c.links.len()
        invariant
            k <= c.links.len(),
            lv == links_view(c.links@),
            link_target(parts@, lv) == link_target(parts@, lv.skip(k as int)),
        decreases c.links.len() - k,
    {
        let ghost rest = lv.skip(k as int);
        assert(rest[0] == link_view(c.links@[k as int]));
        assert(rest.drop_first() =~= lv.skip(k + 1));
        let found = match &c.links[k] {
            Link::Uuid(u) => find_partition(parts, true, u.as_str()),
            Link::Label(n) => find_partition(parts, false, n.as_str()),
        };
        match found {
            Some(i) => {
                return Label { name: c.name.clone(), link: parts[i].device.clone() };
            },
            None => {},
        }
        k = k + 1;
    }
    assert(lv.skip(k as int) =~= Seq::<(bool, Seq<char>)>::empty());
    let link = if str_eq_ignore_case(c.name.as_str(), "Microsoft") {
        match windows {
            Some(w) => owned(w),
            None => String::new(),
        }
    } else {
        String::new()
    };
    Label { name: c.name.clone(), link }
}

pub open spec fn walked_view(w: Seq<(String, Vec<Carried>)>) -> Seq<(Seq<char>, Seq<Carried>)> {
    w.map_values(|e: (String, Vec<Carried>)| (e.0@, e.1@))
}

pub open spec fn linked_view(out: Seq<(String, Vec<Label>)>) -> Seq<(Seq<char>, Seq<(Seq<char>, Seq<char>)>)> {
    out.map_values(|e: (String, Vec<Label>)| (e.0@, labels_view(e.1@)))
}

/// Resolves each walked system's link to a partition the scan read. The
/// first candidate that names one wins, so a BLS entry whose root filesystem
/// sits in a closed container falls back to the container it names. A
/// Microsoft directory takes the `windows` link when its own files name none.
pub fn linked(walked: &Vec<(String, Vec<Carried>)>, partitions: &[Partition], windows: Option<&str>) -> (out: Vec<(String, Vec<Label>)>)
    ensures
        out@.len() == walked@.len(),
        forall|i: int| 0 <= i < out@.len() ==> {
            &&& (#[trigger] out@[i]).0@ == walked@[i].0@
            &&& labels_view(out@[i].1@) == walked@[i].1@.map_values(
                |c: Carried| label_spec(c, partitions@, match windows { Some(w) => Some(w@), None => None }),
            )
        },
{
    let ghost wv = match windows { Some(w) => Some(w@), None => None };
    let mut out: Vec<(String, Vec<Label>)> = Vec::new();
    let mut i: usize = 0;
    while i < walked.len()
        invariant
            i <= walked.len(),
            wv == match windows { Some(w) => Some(w@), None => None },
            out@.len() == i,
            forall|k: int| 0 <= k < i ==> {
                &&& (#[trigger] out@[k]).0@ == walked@[k].0@
                &&& labels_view(out@[k].1@) == walked@[k].1@.map_values(|c: Carried| label_spec(c, partitions@, wv))
            },
        decreases walked.len() - i,
    {
        let carried = &walked[i].1;
        let mut rows: Vec<Label> = Vec::new();
        let mut k: usize = 0;
        while k < carried.len()
            invariant
                k <= carried.len(),
                wv == match windows { Some(w) => Some(w@), None => None },
                labels_view(rows@) == carried@.take(k as int).map_values(|c: Carried| label_spec(c, partitions@, wv)),
            decreases carried.len() - k,
        {
            let ghost prev = rows@;
            rows.push(label_of(&carried[k], partitions, windows));
            assert(labels_view(rows@) =~= labels_view(prev).push(label_spec(carried@[k as int], partitions@, wv)));
            assert(carried@.take(k + 1).map_values(|c: Carried| label_spec(c, partitions@, wv)) =~= carried@.take(
                k as int,
            ).map_values(|c: Carried| label_spec(c, partitions@, wv)).push(label_spec(carried@[k as int], partitions@, wv)));
            k = k + 1;
        }
        assert(carried@.take(k as int) =~= carried@);
        out.push((walked[i].0.clone(), rows));
        i = i + 1;
    }
    out
}

pub open spec fn at_device(at: Seq<char>) -> spec_fn(Partition) -> bool {
    |p: Partition| p.device@ == at
}

pub open spec fn gone_link(layout: CustomLayout) -> spec_fn(Label) -> bool {
    |l: Label| l.link@.len() > 0 && (layout.deletes_device(l.link@) || layout.formats(l.link@))
}

/// What one disk's scanned ESPs lose, partition by partition.
pub open spec fn disk_removals(parts: Seq<Partition>, labels: Seq<(String, Vec<Label>)>, layout: CustomLayout) -> Seq<(Seq<char>, Seq<Seq<char>>)>
    decreases labels.len(),
{
    if labels.len() == 0 {
        seq![]
    } else {
        let rest = disk_removals(parts, labels.drop_last(), layout);
        let (at, ls) = labels.last();
        match first_where(parts, at_device(at@)) {
            None => rest,
            Some(i) => {
                let partition = parts[i];
                let receives = layout.answer_of(partition.device@) matches Some((t, _)) && t == "/boot/efi"@;
                let entries = ls@.filter(gone_link(layout)).map_values(|l: Label| l.name@);
                if !fat(partition.fstype@) || !receives || layout.formats(at@) || entries.len() == 0 {
                    rest
                } else {
                    rest.push((at@, entries))
                }
            },
        }
    }
}

pub open spec fn removals_spec(disks: Seq<crate::screen::DiskScan>, layout: CustomLayout) -> Seq<(Seq<char>, Seq<Seq<char>>)>
    decreases disks.len(),
{
    if disks.len() == 0 {
        seq![]
    } else {
        removals_spec(disks.drop_last(), layout) + disk_removals(disks.last().partitions@, disks.last().labels@, layout)
    }
}

pub open spec fn removal_view(r: EspRemoval) -> (Seq<char>, Seq<Seq<char>>) {
    (r.partition@, r.entries.deep_view())
}

fn partition_at(parts: &Vec<Partition>, at: &str) -> (out: Option<usize>)
    ensures
        match out {
            Some(k) => k < parts@.len() && first_where(parts@, at_device(at@)) == Some(k as int),
            None => first_where(parts@, at_device(at@)) is None,
        },
{
    let ghost p = at_device(at@);
    let mut i: usize = 0;
    while i < parts.len()
        invariant
            i <= parts.len(),
            p == at_device(at@),
            forall|j: int| 0 <= j < i ==> !p(#[trigger] parts@[j]),
        decreases parts.len() - i,
    {
        if str_eq(parts[i].device.as_str(), at) {
            proof {
                lemma_first_where(parts@, p, i as int);
            }
            return Some(i);
        }
        i = i + 1;
    }
    proof {
        lemma_first_where(parts@, p, i as int);
    }
    None
}

fn gone_names(labels: &Vec<Label>, layout: &CustomLayout) -> (names: Vec<String>)
    ensures
        names.deep_view() == labels@.filter(gone_link(*layout)).map_values(|l: Label| l.name@),
{
    let ghost keep = gone_link(*layout);
    let mut names: Vec<String> = Vec::new();
    let mut i: usize = 0;
    while i < labels.len()
        invariant
            i <= labels.len(),
            keep == gone_link(*layout),
            names.deep_view() == labels@.take(i as int).filter(keep).map_values(|l: Label| l.name@),
        decreases labels.len() - i,
    {
        proof {
            reveal(Seq::filter);
            assert(labels@.take(i + 1).drop_last() =~= labels@.take(i as int));
        }
        if layout.entry_gone(labels[i].link.as_str()) {
            let ghost before = names.deep_view();
            names.push(labels[i].name.clone());
            assert(names.deep_view() =~= before.push(labels@[i as int].name@));
            assert(labels@.take(i + 1).filter(keep) =~= labels@.take(i as int).filter(keep).push(labels@[i as int]));
        } else {
            assert(labels@.take(i + 1).filter(keep) =~= labels@.take(i as int).filter(keep));
        }
        i = i + 1;
    }
    assert(labels@.take(i as int) =~= labels@);
    names
}

/// Names the ESP entries the plan replaces, so the install removes them
/// before it writes its own. Only the partition the plan assigns `/boot/efi`
/// receives new entries, so only its old entries are removed. A formatted
/// ESP has already lost them.
pub fn removals(scan: &crate::screen::Scan, layout: &CustomLayout) -> (found: Vec<EspRemoval>)
    ensures
        found@.map_values(|r: EspRemoval| removal_view(r)) == removals_spec(scan.disks@, *layout),
{
    let mut found: Vec<EspRemoval> = Vec::new();
    let mut d: usize = 0;
    while d < scan.disks.len()
        invariant
            d <= scan.disks.len(),
            found@.map_values(|r: EspRemoval| removal_view(r)) == removals_spec(scan.disks@.take(d as int), *layout),
        decreases scan.disks.len() - d,
    {
        let disk = &scan.disks[d];
        let ghost start = found@.map_values(|r: EspRemoval| removal_view(r));
        let mut k: usize = 0;
        while k < disk.labels.len()
            invariant
                k <= disk.labels.len(),
                found@.map_values(|r: EspRemoval| removal_view(r)) == start + disk_removals(disk.partitions@, disk.labels@.take(k as int), *layout),
            decreases disk.labels.len() - k,
        {
            let at = disk.labels[k].0.as_str();
            let labels = &disk.labels[k].1;
            proof {
                let t = disk.labels@.take(k + 1);
                assert(t.drop_last() =~= disk.labels@.take(k as int));
                assert(t.last() == disk.labels@[k as int]);
            }
            match partition_at(&disk.partitions, at) {
                None => {},
                Some(i) => {
                    let partition = &disk.partitions[i];
                    let receives = match layout.answer(partition) {
                        Some(m) => str_eq(m.target.as_str(), "/boot/efi"),
                        None => false,
                    };
                    let entries = gone_names(labels, layout);
                    if is_fat(partition.fstype.as_str()) && receives && !layout.formatted(at) && entries.len() > 0 {
                        let ghost prev = found@;
                        let removal = EspRemoval { partition: owned(at), entries };
                        found.push(removal);
                        assert(found@.map_values(|r: EspRemoval| removal_view(r)) =~= prev.map_values(|r: EspRemoval| removal_view(r)).push(
                            removal_view(removal),
                        ));
                    }
                },
            }
            k = k + 1;
        }
        assert(disk.labels@.take(k as int) =~= disk.labels@);
        proof {
            let t = scan.disks@.take(d + 1);
            assert(t.drop_last() =~= scan.disks@.take(d as int));
            assert(t.last() == *disk);
        }
        d = d + 1;
    }
    assert(scan.disks@.take(d as int) =~= scan.disks@);
    found
}

// ---------------------------------------------------------------------------
// The entries an image carries

/// The last element of a listed path: what follows its last `/`, or all of
/// it where it holds none.
pub open spec fn last_part(s: Seq<char>) -> Seq<char>
    decreases s.len(),
{
    if s.len() == 0 {
        s
    } else if s.last() == '/' {
        Seq::empty()
    } else {
        last_part(s.drop_last()).push(s.last())
    }
}

/// The entry names a listing of staged EFI directories carries, in listed
/// order: each line's last element, the empty ones and the fallback `BOOT`
/// directory dropped.
pub open spec fn entry_candidates(listed: Seq<char>) -> Seq<Seq<char>> {
    lines(listed).map_values(|l: Seq<char>| last_part(trim(l))).filter(
        |n: Seq<char>| n.len() > 0 && !same_ignoring_case(n, "BOOT"@),
    )
}

/// Where a stable sort by lowercase places `x` among `sorted`: after every
/// name whose lowercase sorts at or before its own.
pub open spec fn lower_slot(sorted: Seq<Seq<char>>, x: Seq<char>) -> int
    decreases sorted.len(),
{
    if sorted.len() == 0 {
        0
    } else if !text_le(lower_seq(sorted[0]), lower_seq(x)) {
        0
    } else {
        1 + lower_slot(sorted.drop_first(), x)
    }
}

/// Names in the order a stable sort by their lowercase leaves them.
pub open spec fn sort_lower(s: Seq<Seq<char>>) -> Seq<Seq<char>>
    decreases s.len(),
{
    if s.len() == 0 {
        s
    } else {
        let sorted = sort_lower(s.drop_last());
        sorted.insert(lower_slot(sorted, s.last()), s.last())
    }
}

/// Names with each run that differs only in ASCII case kept once, as its
/// first.
pub open spec fn dedup_ci(s: Seq<Seq<char>>) -> Seq<Seq<char>>
    decreases s.len(),
{
    if s.len() == 0 {
        s
    } else {
        let kept = dedup_ci(s.drop_last());
        if kept.len() > 0 && same_ignoring_case(kept.last(), s.last()) {
            kept
        } else {
            kept.push(s.last())
        }
    }
}

/// The entry directory names an image's staged EFI payloads carry, sorted
/// without regard to case and each kept once.
pub open spec fn entry_names_spec(listed: Seq<char>) -> Seq<Seq<char>> {
    dedup_ci(sort_lower(entry_candidates(listed)))
}

fn last_part_of(s: &[char]) -> (out: Vec<char>)
    ensures
        out@ == last_part(s@),
{
    let mut k: usize = s.len();
    assert(s@.take(k as int) =~= s@);
    assert(s@.skip(k as int) =~= Seq::<char>::empty());
    while k > 0 && s[k - 1] != '/'
        invariant
            k <= s@.len(),
            last_part(s@) == last_part(s@.take(k as int)) + s@.skip(k as int),
        decreases k,
    {
        assert(s@.take(k as int).drop_last() =~= s@.take(k - 1));
        assert(s@.skip(k - 1) =~= seq![s@[k - 1]] + s@.skip(k as int));
        assert(last_part(s@.take(k - 1)).push(s@[k - 1]) + s@.skip(k as int) =~= last_part(s@.take(k - 1))
            + s@.skip(k - 1));
        k = k - 1;
    }
    if k > 0 {
        assert(s@.take(k as int).last() == '/');
    }
    assert(s@.take(0) =~= Seq::<char>::empty());
    crate::text::slice_from(s, k)
}

fn lower_chars(s: &[char]) -> (out: Vec<char>)
    ensures
        out@ == lower_seq(s@),
{
    let mut out: Vec<char> = Vec::new();
    let mut i: usize = 0;
    while i < s.len()
        invariant
            i <= s@.len(),
            out@ == lower_seq(s@.take(i as int)),
        decreases s.len() - i,
    {
        out.push(lower_char(s[i]));
        assert(out@ =~= lower_seq(s@.take(i + 1)));
        i = i + 1;
    }
    assert(s@.take(i as int) =~= s@);
    out
}

proof fn lemma_lower_slot(sorted: Seq<Seq<char>>, x: Seq<char>, j: int)
    requires
        0 <= j <= sorted.len(),
        forall|k: int| 0 <= k < j ==> text_le(lower_seq(#[trigger] sorted[k]), lower_seq(x)),
        j == sorted.len() || !text_le(lower_seq(sorted[j]), lower_seq(x)),
    ensures
        lower_slot(sorted, x) == j,
    decreases j,
{
    if j > 0 {
        let t = sorted.drop_first();
        assert forall|k: int| 0 <= k < j - 1 implies text_le(lower_seq(#[trigger] t[k]), lower_seq(x)) by {
            assert(t[k] == sorted[k + 1]);
        }
        if j - 1 < t.len() {
            assert(t[j - 1] == sorted[j]);
        }
        lemma_lower_slot(t, x, j - 1);
    }
}

/// Reads the entry directory names an image's staged EFI payloads carry,
/// from a listing of their paths, one per line. The install writes them
/// into the ESP, so they are what replaces the entries it removes. `EFI/BOOT`
/// is the fallback every ESP carries and is not a system of its own.
pub fn entry_names(listed: &str) -> (names: Vec<String>)
    ensures
        names.deep_view() == entry_names_spec(listed@),
{
    let chars = chars_of(listed);
    let rows = chars_lines(chars.as_slice());
    let boot = chars_of("BOOT");
    let ghost parts = views(rows@).map_values(|l: Seq<char>| last_part(trim(l)));
    let ghost keep = |n: Seq<char>| n.len() > 0 && !same_ignoring_case(n, "BOOT"@);
    let mut found: Vec<Vec<char>> = Vec::new();
    let mut i: usize = 0;
    while i < rows.len()
        invariant
            i <= rows@.len(),
            views(rows@) == lines(listed@),
            boot@ == "BOOT"@,
            parts == views(rows@).map_values(|l: Seq<char>| last_part(trim(l))),
            keep == (|n: Seq<char>| n.len() > 0 && !same_ignoring_case(n, "BOOT"@)),
            views(found@) == parts.take(i as int).filter(keep),
        decreases rows.len() - i,
    {
        let name = last_part_of(chars_trim(rows[i].as_slice()).as_slice());
        proof {
            reveal(Seq::filter);
            assert(parts.take(i + 1).drop_last() =~= parts.take(i as int));
            assert(parts.take(i + 1).last() == name@);
        }
        if name.len() > 0 && !chars_eq_ignore_case(name.as_slice(), boot.as_slice()) {
            let ghost before = views(found@);
            found.push(name);
            assert(views(found@) =~= before.push(name@));
        }
        i = i + 1;
    }
    assert(parts.take(i as int) =~= parts);
    assert(parts =~= lines(listed@).map_values(|l: Seq<char>| last_part(trim(l))));
    let ghost all = views(found@);
    assert(all == entry_candidates(listed@));
    // A stable insertion sort by lowercase.
    let mut sorted: Vec<Vec<char>> = Vec::new();
    let mut keys: Vec<Vec<char>> = Vec::new();
    let mut j: usize = 0;
    while j < found.len()
        invariant
            j <= found@.len(),
            all == views(found@),
            keys@.len() == sorted@.len(),
            forall|k: int| 0 <= k < keys@.len() ==> (#[trigger] keys@[k])@ == lower_seq(sorted@[k]@),
            views(sorted@) == sort_lower(all.take(j as int)),
        decreases found.len() - j,
    {
        let x = &found[j];
        let key = lower_chars(x.as_slice());
        let ghost before = views(sorted@);
        let mut at: usize = 0;
        while at < sorted.len() && chars_le(keys[at].as_slice(), key.as_slice())
            invariant
                at <= sorted@.len(),
                keys@.len() == sorted@.len(),
                before == views(sorted@),
                key@ == lower_seq(x@),
                forall|k: int| 0 <= k < keys@.len() ==> (#[trigger] keys@[k])@ == lower_seq(sorted@[k]@),
                forall|k: int| 0 <= k < at ==> text_le(lower_seq(#[trigger] before[k]), lower_seq(x@)),
            decreases sorted.len() - at,
        {
            assert(before[at as int] == sorted@[at as int]@);
            assert(keys@[at as int]@ == lower_seq(before[at as int]));
            at = at + 1;
        }
        proof {
            if at < sorted@.len() {
                assert(before[at as int] == sorted@[at as int]@);
                assert(keys@[at as int]@ == lower_seq(before[at as int]));
            }
            lemma_lower_slot(before, x@, at as int);
            assert(all.take(j + 1).drop_last() =~= all.take(j as int));
            assert(all.take(j + 1).last() == x@);
        }
        let ghost old_keys = keys@;
        let ghost old_sorted = sorted@;
        let copy = crate::text::slice_from(x.as_slice(), 0);
        assert(copy@ =~= x@);
        sorted.insert(at, copy);
        keys.insert(at, key);
        assert forall|k: int| 0 <= k < sorted@.len() implies views(sorted@)[k] == before.insert(at as int, x@)[k] by {
            if k < at {
                assert(sorted@[k] == old_sorted[k]);
            } else if k > at {
                assert(sorted@[k] == old_sorted[k - 1]);
            }
        }
        assert(views(sorted@) =~= before.insert(at as int, x@));
        assert forall|k: int| 0 <= k < keys@.len() implies (#[trigger] keys@[k])@ == lower_seq(sorted@[k]@) by {
            if k < at {
                assert(keys@[k] == old_keys[k] && sorted@[k] == old_sorted[k]);
            } else if k > at {
                assert(keys@[k] == old_keys[k - 1] && sorted@[k] == old_sorted[k - 1]);
            }
        }
        j = j + 1;
    }
    assert(all.take(j as int) =~= all);
    let ghost ordered = views(sorted@);
    // Each run that differs only in case is kept once, as its first.
    let mut names: Vec<String> = Vec::new();
    let mut last: Vec<char> = Vec::new();
    let mut k: usize = 0;
    while k < sorted.len()
        invariant
            k <= sorted@.len(),
            ordered == views(sorted@),
            names.deep_view() == dedup_ci(ordered.take(k as int)),
            names@.len() > 0 ==> last@ == names.deep_view().last(),
        decreases sorted.len() - k,
    {
        assert(ordered.take(k + 1).drop_last() =~= ordered.take(k as int));
        assert(ordered.take(k + 1).last() == sorted@[k as int]@);
        let repeat = names.len() > 0 && chars_eq_ignore_case(last.as_slice(), sorted[k].as_slice());
        if !repeat {
            let ghost before = names.deep_view();
            names.push(string_of(sorted[k].as_slice()));
            last = crate::text::slice_from(sorted[k].as_slice(), 0);
            assert(last@ =~= sorted@[k as int]@);
            assert(names.deep_view() =~= before.push(sorted@[k as int]@));
        }
        k = k + 1;
    }
    assert(ordered.take(k as int) =~= ordered);
    names
}

} // verus!
