//! The boot chain's files: the options line every BLS entry carries, the
//! enrolment policy `loader.conf` holds, and how the checks and the renderer
//! that run inside the image answer.

use crate::text::{
    cat, cat3, chars_lines, chars_of, chars_words, ends_with, join, join_strings, lines, owned, starts_with,
    str_eq, string_of, trim_start, views, words,
};
use vstd::prelude::*;

verus! {

/// Names the file an image writes to witness that its boot chain was
/// signed. Every bootc image that writes the path gets the chain it declares.
pub const SIGNED_MARKER: &'static str = "/usr/share/secureboot/signed";

/// Names the menu renderer a deb image ships and a fedora image does not.
pub const RENDERER: &'static str = "/usr/libexec/grub-menu-from-bls";

/// Names the directory podman binds into the image as `/target`.
pub const TARGET: &'static str = "/run/tect-target";

/// Whether a BLS line is the options line that carries `arg` among its
/// words.
pub open spec fn names_arg(line: Seq<char>, arg: Seq<char>) -> bool {
    "options "@.is_prefix_of(line) && words(line).contains(arg)
}

/// Whether an options line still lacks `arg`.
pub open spec fn lacks_arg(line: Seq<char>, arg: Seq<char>) -> bool {
    "options "@.is_prefix_of(line) && !words(line).contains(arg)
}

fn has_word(line: &[char], arg: &[char]) -> (r: bool)
    ensures
        r == words(line@).contains(arg@),
{
    let ws = chars_words(line);
    let mut i: usize = 0;
    while i < ws.len()
        invariant
            i <= ws.len(),
            views(ws@) == words(line@),
            forall|j: int| 0 <= j < i ==> views(ws@)[j] != arg@,
        decreases ws.len() - i,
    {
        assert(views(ws@)[i as int] == ws@[i as int]@);
        if crate::text::chars_eq(ws[i].as_slice(), arg) {
            assert(words(line@)[i as int] == arg@);
            return true;
        }
        i = i + 1;
    }
    false
}

/// Reports whether a BLS entry's options line already carries the argument.
/// `add_boot_arg` returns the same `false` for an entry that already carries
/// it and for an entry with no options line, so the caller asks this as well.
pub fn boot_arg_named(raw: &str, arg: &str) -> (r: bool)
    ensures
        r == exists|i: int| 0 <= i < lines(raw@).len() && names_arg(#[trigger] lines(raw@)[i], arg@),
{
    let text = chars_of(raw);
    let rows = chars_lines(text.as_slice());
    let word = chars_of(arg);
    let prefix = chars_of("options ");
    let mut i: usize = 0;
    while i < rows.len()
        invariant
            i <= rows.len(),
            views(rows@) == lines(raw@),
            word@ == arg@,
            prefix@ == "options "@,
            forall|j: int| 0 <= j < i ==> !names_arg(#[trigger] lines(raw@)[j], arg@),
        decreases rows.len() - i,
    {
        assert(lines(raw@)[i as int] == rows@[i as int]@);
        if crate::text::chars_start_with(rows[i].as_slice(), prefix.as_slice()) && has_word(rows[i].as_slice(), word.as_slice()) {
            return true;
        }
        i = i + 1;
    }
    false
}

/// One entry with the argument on its options line: each options line that
/// lacks it gains it at its end, every other line stays, and the trailing
/// newline the entry ended in stays.
pub open spec fn with_arg(raw: Seq<char>, arg: Seq<char>) -> Seq<char> {
    let ls = lines(raw).map_values(|l: Seq<char>| if lacks_arg(l, arg) { l + " "@ + arg } else { l });
    let all = if raw.len() > 0 && raw.last() == '\n' { ls.push(Seq::empty()) } else { ls };
    join(all, "\n"@)
}

/// Returns one BLS entry with the argument on its options line, and whether
/// that changed it. An entry that already carries the argument comes back
/// unchanged. `options` is the line systemd-boot hands the kernel, so the
/// argument belongs on that line alone.
pub fn add_boot_arg(raw: &str, arg: &str) -> (out: (String, bool))
    ensures
        out.0@ == with_arg(raw@, arg@),
        out.1 == exists|i: int| 0 <= i < lines(raw@).len() && lacks_arg(#[trigger] lines(raw@)[i], arg@),
{
    let text = chars_of(raw);
    let rows = chars_lines(text.as_slice());
    let word = chars_of(arg);
    let prefix = chars_of("options ");
    let ghost f = |l: Seq<char>| if lacks_arg(l, arg@) { l + " "@ + arg@ } else { l };
    let mut out: Vec<String> = Vec::new();
    let mut changed = false;
    let mut i: usize = 0;
    while i < rows.len()
        invariant
            i <= rows.len(),
            views(rows@) == lines(raw@),
            word@ == arg@,
            prefix@ == "options "@,
            f == (|l: Seq<char>| if lacks_arg(l, arg@) { l + " "@ + arg@ } else { l }),
            out.deep_view() == lines(raw@).take(i as int).map_values(f),
            changed == exists|j: int| 0 <= j < i && lacks_arg(#[trigger] lines(raw@)[j], arg@),
        decreases rows.len() - i,
    {
        let line = &rows[i];
        assert(lines(raw@)[i as int] == line@);
        let ghost before = out.deep_view();
        if crate::text::chars_start_with(line.as_slice(), prefix.as_slice()) && !has_word(line.as_slice(), word.as_slice()) {
            changed = true;
            out.push(cat3(string_of(line.as_slice()).as_str(), " ", arg));
        } else {
            out.push(string_of(line.as_slice()));
        }
        assert(out.deep_view() =~= before.push(f(lines(raw@)[i as int])));
        assert(lines(raw@).take(i + 1).map_values(f) =~= lines(raw@).take(i as int).map_values(f).push(f(lines(raw@)[i as int])));
        i = i + 1;
    }
    assert(lines(raw@).take(i as int) =~= lines(raw@));
    if text.len() > 0 && text[text.len() - 1] == '\n' {
        let ghost before = out.deep_view();
        out.push(String::new());
        assert(out.deep_view() =~= before.push(Seq::empty()));
    }
    (join_strings(&out, "\n"), changed)
}

/// A line that already sets the enrolment policy.
pub open spec fn sets_enroll(line: Seq<char>) -> bool {
    "secure-boot-enroll "@.is_prefix_of(trim_start(line))
}

/// The `uki-db` chain's `loader.conf`: every line it held but one that sets
/// the enrolment policy, then the forced enrolment.
pub open spec fn loader_conf_text(current: Seq<char>) -> Seq<char> {
    join(lines(current).filter(|l: Seq<char>| !sets_enroll(l)).push("secure-boot-enroll force"@), "\n"@) + "\n"@
}

fn chars_trim_start(s: &[char]) -> (out: Vec<char>)
    ensures
        out@ == trim_start(s@),
{
    let mut k: usize = 0;
    assert(s@.skip(0) =~= s@);
    while k < s.len() && crate::text::whitespace(s[k])
        invariant
            k <= s@.len(),
            trim_start(s@.skip(k as int)) == trim_start(s@),
        decreases s.len() - k,
    {
        assert(s@.skip(k as int).drop_first() =~= s@.skip(k + 1));
        k = k + 1;
    }
    crate::text::slice_from(s, k)
}

pub fn loader_conf(current: &str) -> (out: String)
    ensures
        out@ == loader_conf_text(current@),
{
    let text = chars_of(current);
    let rows = chars_lines(text.as_slice());
    let key = chars_of("secure-boot-enroll ");
    let ghost keep = |l: Seq<char>| !sets_enroll(l);
    let ghost ls = lines(current@);
    let mut all: Vec<String> = Vec::new();
    let mut i: usize = 0;
    while i < rows.len()
        invariant
            i <= rows.len(),
            views(rows@) == ls,
            key@ == "secure-boot-enroll "@,
            keep == (|l: Seq<char>| !sets_enroll(l)),
            all.deep_view() == ls.take(i as int).filter(keep),
        decreases rows.len() - i,
    {
        proof {
            reveal(Seq::filter);
            assert(ls.take(i + 1).drop_last() =~= ls.take(i as int));
            assert(ls[i as int] == rows@[i as int]@);
        }
        let lead = chars_trim_start(rows[i].as_slice());
        if !crate::text::chars_start_with(lead.as_slice(), key.as_slice()) {
            let ghost before = all.deep_view();
            all.push(string_of(rows[i].as_slice()));
            assert(all.deep_view() =~= before.push(ls[i as int]));
            assert(ls.take(i + 1).filter(keep) =~= ls.take(i as int).filter(keep).push(ls[i as int]));
        } else {
            assert(ls.take(i + 1).filter(keep) =~= ls.take(i as int).filter(keep));
        }
        i = i + 1;
    }
    assert(ls.take(i as int) =~= ls);
    let ghost before = all.deep_view();
    all.push(owned("secure-boot-enroll force"));
    assert(all.deep_view() =~= before.push("secure-boot-enroll force"@));
    cat(join_strings(&all, "\n").as_str(), "\n")
}

/// The files a declared chain needs placed beside what bootc wrote.
#[derive(Clone, Copy, Debug, PartialEq, Eq, Structural)]
pub enum Chain {
    /// `uki-db`: the enrolment keys bootc wrote, and a forced enrolment.
    Db,
    /// `uki-shim`: Microsoft's shim as the fallback loader.
    Shim,
}

pub fn chain_of(chain: &str) -> (out: Result<Chain, String>)
    ensures
        chain@ == "uki-db"@ ==> out == Ok::<Chain, String>(Chain::Db),
        chain@ == "uki-shim"@ ==> out == Ok::<Chain, String>(Chain::Shim),
        chain@ != "uki-db"@ && chain@ != "uki-shim"@ ==> (out matches Err(w) && w@ == "unknown boot chain `"@ + chain@ + "`"@),
{
    proof {
        reveal_strlit("uki-db");
        reveal_strlit("uki-shim");
        assert("uki-db"@[4] != "uki-shim"@[4]);
    }
    if str_eq(chain, "uki-db") {
        Ok(Chain::Db)
    } else if str_eq(chain, "uki-shim") {
        Ok(Chain::Shim)
    } else {
        Err(cat3("unknown boot chain `", chain, "`"))
    }
}

/// Where a mounted partition carries the boot files: the renderer's root,
/// `/target` where they sit at its top and `/target/boot` where they sit in
/// a `/boot` directory, or `None` where it carries none. Each flag says
/// whether `loader/entries` or `EFI/Linux` is a directory at that level.
pub fn boot_root(top: bool, under_boot: bool) -> (root: Option<&'static str>)
    ensures
        top ==> (root matches Some(r) && r@ == "/target"@),
        !top && under_boot ==> (root matches Some(r) && r@ == "/target/boot"@),
        !top && !under_boot ==> root is None,
{
    if top {
        Some("/target")
    } else if under_boot {
        Some("/target/boot")
    } else {
        None
    }
}

/// The shell line the renderer runs inside the image: exit 3 where the
/// image ships no renderer, else render the entries under `root`.
pub fn renderer_line(root: &str) -> (line: String)
    ensures
        line@ == "test -x "@ + RENDERER@ + " || exit 3; exec "@ + RENDERER@ + " "@ + root@,
{
    let mut line = cat3("test -x ", RENDERER, " || exit 3; exec ");
    line.append(RENDERER);
    line.append(" ");
    line.append(root);
    line
}

/// What the renderer's exit says: it wrote the menu, the image ships no
/// renderer, or it failed with what it printed.
pub fn rendered(code: Option<i32>, image: &str, stderr: &str) -> (out: Result<bool, String>)
    ensures
        code == Some(0i32) ==> out == Ok::<bool, String>(true),
        code == Some(3i32) ==> out == Ok::<bool, String>(false),
        code != Some(0i32) && code != Some(3i32) ==> (out matches Err(w) && w@ == RENDERER@ + " in "@ + image@ + ": "@ + stderr@),
{
    match code {
        Some(0) => Ok(true),
        Some(3) => Ok(false),
        _ => {
            let mut said = cat3(RENDERER, " in ", image);
            said.append(": ");
            said.append(stderr);
            Err(said)
        },
    }
}

/// Refuses an image whose declared chain it cannot sign.
pub fn unsigned_chain(image: &str, chain: &str) -> (said: String)
    ensures
        said@ == image@ + " does not carry "@ + SIGNED_MARKER@ + ", which its declared "@ + chain@
            + " chain needs; build it with the Secure Boot private key, or with a `boot/uki` new enough to write that path, before installing"@,
{
    let mut said = cat3(image, " does not carry ", SIGNED_MARKER);
    said.append(", which its declared ");
    said.append(chain);
    said.append(" chain needs; build it with the Secure Boot private key, or with a `boot/uki` new enough to write that path, before installing");
    said
}

/// Refuses an image that cannot enrol the TPM2 token on its own first boot.
pub fn no_cryptenroll(image: &str) -> (said: String)
    ensures
        said@ == image@ + " has no /usr/bin/systemd-cryptenroll, so it cannot enrol the TPM2 token this answer asks for"@,
{
    cat(image, " has no /usr/bin/systemd-cryptenroll, so it cannot enrol the TPM2 token this answer asks for")
}

/// What naming the container in the boot entries ends with: the count of
/// entries changed, or a refusal where no entry names the container,
/// because the machine would not find its root.
pub fn named_in_entries(named: usize, patched: usize, device: &str, name: &str) -> (out: Result<usize, String>)
    ensures
        named == 0 ==> (out matches Err(w) && w@ == device@ + " carries no boot entry naming the "@ + name@
            + " container, so the machine would not find its root"@),
        named > 0 ==> out == Ok::<usize, String>(patched),
{
    if named == 0 {
        let mut said = cat3(device, " carries no boot entry naming the ", name);
        said.append(" container, so the machine would not find its root");
        return Err(said);
    }
    Ok(patched)
}

/// A text's lines and its open tail, joined back with newlines, give the
/// text again where it holds no carriage return.
proof fn lemma_scan_rejoins(s: Seq<char>)
    requires
        !s.contains('\r'),
    ensures
        join(crate::text::line_scan(s).0.push(crate::text::line_scan(s).1), "\n"@) == s,
        s.len() > 0 && s.last() == '\n' ==> crate::text::line_scan(s).1.len() == 0,
        s.len() > 0 && s.last() != '\n' ==> crate::text::line_scan(s).1.len() > 0,
    decreases s.len(),
{
    reveal_strlit("\n");
    if s.len() == 0 {
        assert(join(seq![Seq::<char>::empty()], "\n"@) =~= s);
    } else {
        let t = s.drop_last();
        assert(!t.contains('\r')) by {
            assert forall|i: int| 0 <= i < t.len() implies t[i] != '\r' by {
                assert(t[i] == s[i]);
            }
        }
        lemma_scan_rejoins(t);
        let (done, cur) = crate::text::line_scan(t);
        assert(!cur.contains('\r') || true);
        if s.last() == '\n' {
            if cur.len() > 0 {
                assert(cur.last() != '\r') by {
                    lemma_tail_from(t);
                }
            }
            assert(crate::text::strip_cr(cur) == cur);
            let parts = done.push(cur).push(Seq::<char>::empty());
            assert(parts.drop_last() =~= done.push(cur));
            assert(join(parts, "\n"@) =~= s);
        } else {
            let parts = done.push(cur.push(s.last()));
            if done.len() == 0 {
                assert(join(done.push(cur), "\n"@) == cur);
                assert(join(parts, "\n"@) =~= s);
            } else {
                assert(parts.drop_last() =~= done);
                assert(done.push(cur).drop_last() =~= done);
                assert(join(done.push(cur), "\n"@) == join(done, "\n"@) + "\n"@ + cur);
                assert(join(parts, "\n"@) == join(done, "\n"@) + "\n"@ + cur.push(s.last()));
                assert(t.push(s.last()) =~= s);
                assert(join(parts, "\n"@) =~= s);
            }
        }
    }
}

/// The open tail of a scan is a suffix of the text, so it holds what the
/// text holds.
proof fn lemma_tail_from(s: Seq<char>)
    ensures
        forall|i: int| 0 <= i < crate::text::line_scan(s).1.len() ==> s.contains(#[trigger] crate::text::line_scan(s).1[i]),
    decreases s.len(),
{
    if s.len() > 0 {
        let t = s.drop_last();
        lemma_tail_from(t);
        let cur = crate::text::line_scan(t).1;
        if s.last() != '\n' {
            assert forall|i: int| 0 <= i < cur.push(s.last()).len() implies s.contains(#[trigger] cur.push(s.last())[i]) by {
                if i < cur.len() {
                    let k = choose|k: int| 0 <= k < t.len() && t[k] == cur[i];
                    assert(s[k] == t[k]);
                } else {
                    assert(s[s.len() - 1] == s.last());
                }
            }
        }
    }
}

/// Lines joined back with newlines, and the final newline where the text
/// ended in one, give the text again where it holds no carriage return.
pub proof fn lemma_lines_rejoin(s: Seq<char>)
    requires
        !s.contains('\r'),
    ensures
        join(if s.len() > 0 && s.last() == '\n' { lines(s).push(Seq::empty()) } else { lines(s) }, "\n"@) == s,
{
    lemma_scan_rejoins(s);
    let (done, cur) = crate::text::line_scan(s);
    if s.len() == 0 {
        assert(lines(s) =~= Seq::<Seq<char>>::empty());
    } else if s.last() == '\n' {
        assert(lines(s) == done);
    } else {
        assert(lines(s) == done.push(cur));
    }
}

/// An entry whose every options line already carries the argument comes
/// back as it was, where its lines end in bare newlines.
pub proof fn lemma_named_entry_unchanged(raw: Seq<char>, arg: Seq<char>)
    requires
        !raw.contains('\r'),
        forall|i: int| 0 <= i < lines(raw).len() ==> !lacks_arg(#[trigger] lines(raw)[i], arg),
    ensures
        with_arg(raw, arg) == raw,
{
    let f = |l: Seq<char>| if lacks_arg(l, arg) { l + " "@ + arg } else { l };
    assert(lines(raw).map_values(f) =~= lines(raw));
    lemma_lines_rejoin(raw);
}

/// Text with no newline, read on after an open line, only lengthens it.
proof fn lemma_scan_append(p: Seq<char>, w: Seq<char>)
    requires
        !w.contains('\n'),
    ensures
        crate::text::line_scan(p + w) == (crate::text::line_scan(p).0, crate::text::line_scan(p).1 + w),
    decreases w.len(),
{
    if w.len() == 0 {
        assert(p + w =~= p);
        assert(crate::text::line_scan(p).1 + w =~= crate::text::line_scan(p).1);
    } else {
        let v = w.drop_last();
        assert(!v.contains('\n')) by {
            assert forall|i: int| 0 <= i < v.len() implies v[i] != '\n' by {
                assert(v[i] == w[i]);
            }
        }
        lemma_scan_append(p, v);
        assert((p + w).drop_last() =~= p + v);
        assert((p + w).last() == w.last());
        assert(w[w.len() - 1] == w.last());
        assert((crate::text::line_scan(p).1 + v).push(w.last()) =~= crate::text::line_scan(p).1 + w);
    }
}

/// A line that ends in a carriage return.
pub open spec fn ends_cr(l: Seq<char>) -> bool {
    l.len() > 0 && l.last() == '\r'
}

/// A text with no carriage return just before a CR LF ending: reading its
/// lines drops one carriage return before each newline, so such a text is
/// the one whose lines read back as written.
pub open spec fn crlf_safe(s: Seq<char>) -> bool {
    forall|i: int| #![trigger s[i]] 0 <= i < s.len() - 2 ==> !(s[i] == '\r' && s[i + 1] == '\r' && s[i + 2] == '\n')
}

/// Lines holding no newline, all but the last ending in something other
/// than a carriage return, joined with newlines, scan back as every line but
/// the last finished and the last still open.
proof fn lemma_scan_join(ls: Seq<Seq<char>>)
    requires
        ls.len() > 0,
        forall|i: int| 0 <= i < ls.len() ==> !(#[trigger] ls[i]).contains('\n'),
        forall|i: int| 0 <= i < ls.len() - 1 ==> !ends_cr(#[trigger] ls[i]),
    ensures
        crate::text::line_scan(join(ls, "\n"@)) == (ls.drop_last(), ls.last()),
    decreases ls.len(),
{
    reveal_strlit("\n");
    if ls.len() == 1 {
        assert(join(ls, "\n"@) == ls[0]);
        lemma_scan_append(Seq::<char>::empty(), ls[0]);
        assert(Seq::<char>::empty() + ls[0] =~= ls[0]);
        assert(ls.drop_last() =~= Seq::<Seq<char>>::empty());
    } else {
        let d = ls.drop_last();
        assert forall|i: int| 0 <= i < d.len() implies !(#[trigger] d[i]).contains('\n') by {
            assert(d[i] == ls[i]);
        }
        assert forall|i: int| 0 <= i < d.len() - 1 implies !ends_cr(#[trigger] d[i]) by {
            assert(d[i] == ls[i]);
        }
        lemma_scan_join(d);
        let a = join(d, "\n"@);
        let cur = d.last();
        assert(d[d.len() - 1] == cur);
        assert(!ends_cr(ls[d.len() - 1]));
        assert(crate::text::strip_cr(cur) == cur);
        assert((a + "\n"@).drop_last() =~= a);
        assert(crate::text::line_scan(a + "\n"@) == (d.drop_last().push(cur), Seq::<char>::empty()));
        assert(d.drop_last().push(cur) =~= d);
        assert(ls[ls.len() - 1] == ls.last());
        lemma_scan_append(a + "\n"@, ls.last());
        assert(Seq::<char>::empty() + ls.last() =~= ls.last());
        assert(join(ls, "\n"@) == a + "\n"@ + ls.last());
    }
}

/// Lines joined with newlines, and ended in one where asked, read back as
/// the same lines, where no line holds a newline and no line a newline
/// follows ends in a carriage return. Without the final newline the last
/// line must hold something, or it would read as none.
proof fn lemma_lines_of_join(ls: Seq<Seq<char>>, trailing: bool)
    requires
        forall|i: int| 0 <= i < ls.len() ==> !(#[trigger] ls[i]).contains('\n'),
        forall|i: int| 0 <= i < ls.len() - (if trailing { 0int } else { 1int }) ==> !ends_cr(#[trigger] ls[i]),
        trailing ==> ls.len() > 0,
        !trailing ==> ls.len() == 0 || ls.last().len() > 0,
    ensures
        lines(join(if trailing { ls.push(Seq::empty()) } else { ls }, "\n"@)) == ls,
{
    if trailing {
        let all = ls.push(Seq::<char>::empty());
        assert forall|i: int| 0 <= i < all.len() implies !(#[trigger] all[i]).contains('\n') by {
            if i < ls.len() {
                assert(all[i] == ls[i]);
            }
        }
        assert forall|i: int| 0 <= i < all.len() - 1 implies !ends_cr(#[trigger] all[i]) by {
            assert(all[i] == ls[i]);
        }
        lemma_scan_join(all);
        assert(all.drop_last() =~= ls);
    } else if ls.len() == 0 {
        assert(join(ls, "\n"@) == Seq::<char>::empty());
    } else {
        lemma_scan_join(ls);
        assert(ls.drop_last().push(ls.last()) =~= ls);
    }
}

/// The open tail of a scan is the text's own suffix.
proof fn lemma_scan_tail(s: Seq<char>)
    ensures
        crate::text::line_scan(s).1.len() <= s.len(),
        crate::text::line_scan(s).1 =~= s.subrange(s.len() - crate::text::line_scan(s).1.len(), s.len() as int),
    decreases s.len(),
{
    if s.len() > 0 {
        let t = s.drop_last();
        lemma_scan_tail(t);
        let cur = crate::text::line_scan(t).1;
        if s.last() != '\n' {
            assert(s[s.len() - 1] == s.last());
            assert(cur.push(s.last()) =~= s.subrange(s.len() - cur.len() - 1, s.len() as int));
        }
    }
}

/// What a scan has read holds no newline in any line, and where no carriage
/// return stands just before a CR LF ending, no finished line ends in one.
proof fn lemma_scan_ends(s: Seq<char>)
    ensures
        forall|i: int| 0 <= i < crate::text::line_scan(s).0.len() ==> !(#[trigger] crate::text::line_scan(s).0[i]).contains('\n'),
        !crate::text::line_scan(s).1.contains('\n'),
        crlf_safe(s) ==> forall|i: int| 0 <= i < crate::text::line_scan(s).0.len() ==> !ends_cr(#[trigger] crate::text::line_scan(s).0[i]),
    decreases s.len(),
{
    if s.len() > 0 {
        let t = s.drop_last();
        lemma_scan_ends(t);
        let (done, cur) = crate::text::line_scan(t);
        if crlf_safe(s) {
            assert forall|i: int| #![trigger t[i]] 0 <= i < t.len() - 2 implies !(t[i] == '\r' && t[i + 1] == '\r' && t[i + 2] == '\n') by {
                assert(s[i] == t[i] && s[i + 1] == t[i + 1] && s[i + 2] == t[i + 2]);
            }
        }
        if s.last() == '\n' {
            let c = crate::text::strip_cr(cur);
            assert(!c.contains('\n')) by {
                assert forall|i: int| 0 <= i < c.len() implies c[i] != '\n' by {
                    assert(c[i] == cur[i]);
                }
            }
            if crlf_safe(s) && ends_cr(c) {
                lemma_scan_tail(t);
                let k = cur.len();
                assert(ends_cr(cur));
                assert(c == cur.drop_last());
                assert(k >= 2);
                assert(cur[k - 1] == '\r' && cur[k - 2] == '\r');
                assert(t[t.len() - 1] == cur[k - 1]);
                assert(t[t.len() - 2] == cur[k - 2]);
                assert(s[s.len() - 3] == t[t.len() - 2] && s[s.len() - 2] == t[t.len() - 1]);
                assert(s[s.len() - 1] == '\n');
                assert(!(s[s.len() - 3] == '\r' && s[s.len() - 2] == '\r' && s[s.len() - 1] == '\n'));
            }
            assert forall|i: int| 0 <= i < done.push(c).len() implies !(#[trigger] done.push(c)[i]).contains('\n') by {
                if i < done.len() {
                    assert(done.push(c)[i] == done[i]);
                }
            }
            if crlf_safe(s) {
                assert forall|i: int| 0 <= i < done.push(c).len() implies !ends_cr(#[trigger] done.push(c)[i]) by {
                    if i < done.len() {
                        assert(done.push(c)[i] == done[i]);
                    }
                }
            }
            assert(!Seq::<char>::empty().contains('\n'));
        } else {
            let c = cur.push(s.last());
            assert(s[s.len() - 1] == s.last());
            assert(!c.contains('\n')) by {
                assert forall|i: int| 0 <= i < c.len() implies c[i] != '\n' by {
                    if i < cur.len() {
                        assert(c[i] == cur[i]);
                    }
                }
            }
        }
    }
}

/// A text's lines hold no newline; where no carriage return stands just
/// before a CR LF ending, no line a newline follows ends in one. Its last
/// line holds something where the text does not end in a newline, and there
/// is a line where it does.
proof fn lemma_lines_clean(s: Seq<char>)
    requires
        crlf_safe(s),
    ensures
        forall|i: int| 0 <= i < lines(s).len() ==> !(#[trigger] lines(s)[i]).contains('\n'),
        s.len() > 0 && s.last() == '\n' ==> lines(s).len() > 0 && forall|i: int| 0 <= i < lines(s).len() ==> !ends_cr(#[trigger] lines(s)[i]),
        !(s.len() > 0 && s.last() == '\n') ==> (lines(s).len() == 0 || lines(s).last().len() > 0) && forall|i: int|
            0 <= i < lines(s).len() - 1 ==> !ends_cr(#[trigger] lines(s)[i]),
{
    lemma_scan_ends(s);
    let (done, cur) = crate::text::line_scan(s);
    if cur.len() > 0 {
        let ls = done.push(cur);
        assert forall|i: int| 0 <= i < ls.len() implies !(#[trigger] ls[i]).contains('\n') by {
            if i < done.len() {
                assert(ls[i] == done[i]);
            }
        }
        assert forall|i: int| 0 <= i < ls.len() - 1 implies !ends_cr(#[trigger] ls[i]) by {
            assert(ls[i] == done[i]);
        }
    }
    if s.len() > 0 {
        let t = s.drop_last();
        if s.last() == '\n' {
            assert(cur.len() == 0);
        } else {
            assert(cur == crate::text::line_scan(t).1.push(s.last()));
        }
    } else {
        assert(done.len() == 0 && cur.len() == 0);
    }
}

/// Lines joined with newlines end in the last line's last character, where
/// that line holds one.
proof fn lemma_join_last(ls: Seq<Seq<char>>)
    requires
        ls.len() > 0,
        ls.last().len() > 0,
    ensures
        join(ls, "\n"@).len() > 0,
        join(ls, "\n"@).last() == ls.last().last(),
{
    let l = ls.last();
    assert(ls[ls.len() - 1] == l);
    if ls.len() > 1 {
        let whole = join(ls.drop_last(), "\n"@) + "\n"@ + l;
        assert(join(ls, "\n"@) == whole);
        assert(whole[whole.len() - 1] == l[l.len() - 1]);
    }
}

/// A word of no whitespace, written after a space, is among the words.
proof fn lemma_word_appended(p: Seq<char>, w: Seq<char>)
    requires
        w.len() > 0,
        forall|k: int| 0 <= k < w.len() ==> !crate::text::is_ws(#[trigger] w[k]),
    ensures
        words(p + " "@ + w).contains(w),
{
    reveal_strlit(" ");
    let q = p + " "@;
    assert(q.drop_last() =~= p);
    assert(q.last() == ' ');
    assert(crate::text::word_scan(q).1.len() == 0);
    lemma_wscan_append(q, w);
    assert(Seq::<char>::empty() + w =~= w);
    let ws = words(p + " "@ + w);
    assert(ws == crate::text::word_scan(q).0.push(w));
    assert(ws[ws.len() - 1] == w);
}

/// Characters of no whitespace, read on after an open word, only lengthen it.
proof fn lemma_wscan_append(p: Seq<char>, w: Seq<char>)
    requires
        forall|k: int| 0 <= k < w.len() ==> !crate::text::is_ws(#[trigger] w[k]),
    ensures
        crate::text::word_scan(p + w) == (crate::text::word_scan(p).0, crate::text::word_scan(p).1 + w),
    decreases w.len(),
{
    if w.len() == 0 {
        assert(p + w =~= p);
        assert(crate::text::word_scan(p).1 + w =~= crate::text::word_scan(p).1);
    } else {
        let v = w.drop_last();
        assert forall|k: int| 0 <= k < v.len() implies !crate::text::is_ws(#[trigger] v[k]) by {
            assert(v[k] == w[k]);
        }
        lemma_wscan_append(p, v);
        assert((p + w).drop_last() =~= p + v);
        assert(w[w.len() - 1] == w.last());
        assert((p + w).last() == w.last());
        assert((crate::text::word_scan(p).1 + v).push(w.last()) =~= crate::text::word_scan(p).1 + w);
    }
}

/// One call puts the argument on every options line an entry has, and the
/// entry then names the argument exactly where it has an options line; so
/// a second call finds no options line lacking the argument, reports no
/// change, and gives the same text. This holds where the argument is one
/// word, non-empty and free of whitespace, and where no carriage return
/// stands just before a CR LF ending: reading lines drops one carriage
/// return there, so such a line reads back changed.
pub proof fn lemma_add_boot_arg_idempotent(raw: Seq<char>, arg: Seq<char>)
    requires
        crlf_safe(raw),
        arg.len() > 0,
        forall|k: int| 0 <= k < arg.len() ==> !crate::text::is_ws(#[trigger] arg[k]),
    ensures
        forall|i: int| 0 <= i < lines(with_arg(raw, arg)).len() ==> !lacks_arg(#[trigger] lines(with_arg(raw, arg))[i], arg),
        !(exists|i: int| 0 <= i < lines(with_arg(raw, arg)).len() && lacks_arg(#[trigger] lines(with_arg(raw, arg))[i], arg)),
        (exists|i: int| 0 <= i < lines(with_arg(raw, arg)).len() && names_arg(#[trigger] lines(with_arg(raw, arg))[i], arg))
            == (exists|i: int| 0 <= i < lines(raw).len() && "options "@.is_prefix_of(#[trigger] lines(raw)[i])),
        with_arg(with_arg(raw, arg), arg) == with_arg(raw, arg),
{
    reveal_strlit(" ");
    reveal_strlit("\n");
    let f = |l: Seq<char>| if lacks_arg(l, arg) { l + " "@ + arg } else { l };
    let ls = lines(raw);
    let ms = ls.map_values(f);
    let trailing = raw.len() > 0 && raw.last() == '\n';
    lemma_lines_clean(raw);
    let bound: int = if trailing { 0int } else { 1int };
    assert forall|i: int| 0 <= i < ms.len() implies !(#[trigger] ms[i]).contains('\n') && (i < ms.len() - bound ==> !ends_cr(ms[i])) by {
        let l = ls[i];
        assert(ms[i] == f(l));
        if lacks_arg(l, arg) {
            let m = l + " "@ + arg;
            assert forall|k: int| 0 <= k < m.len() implies m[k] != '\n' by {
                if k < l.len() {
                    assert(m[k] == l[k]);
                } else if k == l.len() {
                    assert(m[k] == ' ');
                } else {
                    assert(m[k] == arg[k - l.len() - 1]);
                    assert(!crate::text::is_ws(arg[k - l.len() - 1]));
                }
            }
            assert(m[m.len() - 1] == arg[arg.len() - 1]);
            assert(!crate::text::is_ws(arg[arg.len() - 1]));
        }
    }
    assert forall|i: int| 0 <= i < ms.len() - bound implies !ends_cr(#[trigger] ms[i]) by {}
    assert(!trailing ==> ms.len() == 0 || ms.last().len() > 0) by {
        if !trailing && ms.len() > 0 {
            assert(ms[ms.len() - 1] == f(ls[ls.len() - 1]));
            assert(ls[ls.len() - 1] == ls.last());
        }
    }
    lemma_lines_of_join(ms, trailing);
    let t = with_arg(raw, arg);
    let all = if trailing { ms.push(Seq::<char>::empty()) } else { ms };
    assert(t == join(all, "\n"@));
    assert(lines(t) == ms);
    assert forall|i: int| 0 <= i < ms.len() implies !lacks_arg(#[trigger] ms[i], arg)
        && (names_arg(ms[i], arg) == "options "@.is_prefix_of(ls[i])) by {
        let l = ls[i];
        if lacks_arg(l, arg) {
            lemma_word_appended(l, arg);
            let m = l + " "@ + arg;
            let o = "options "@;
            assert(o.is_prefix_of(m)) by {
                assert(o.len() <= l.len());
                assert forall|k: int| 0 <= k < o.len() implies m[k] == o[k] by {
                    assert(m[k] == l[k]);
                }
                assert(m.subrange(0, o.len() as int) =~= o);
            }
        }
    }
    assert((exists|i: int| 0 <= i < lines(t).len() && names_arg(#[trigger] lines(t)[i], arg))
        == (exists|i: int| 0 <= i < ls.len() && "options "@.is_prefix_of(#[trigger] ls[i]))) by {
        if exists|i: int| 0 <= i < ls.len() && "options "@.is_prefix_of(#[trigger] ls[i]) {
            let i = choose|i: int| 0 <= i < ls.len() && "options "@.is_prefix_of(#[trigger] ls[i]);
            assert(names_arg(lines(t)[i], arg));
        }
        if exists|i: int| 0 <= i < lines(t).len() && names_arg(#[trigger] lines(t)[i], arg) {
            let i = choose|i: int| 0 <= i < lines(t).len() && names_arg(#[trigger] lines(t)[i], arg);
            assert("options "@.is_prefix_of(ls[i]));
        }
    }
    // The second call maps every line to itself and ends the text as the
    // first did.
    assert(lines(t).map_values(f) =~= ms);
    let t_trailing = t.len() > 0 && t.last() == '\n';
    if trailing {
        assert(all.drop_last() =~= ms);
        assert(all[all.len() - 1] == Seq::<char>::empty());
        assert(join(all, "\n"@) == join(ms, "\n"@) + "\n"@ + Seq::<char>::empty());
        assert(t_trailing);
    } else if ms.len() > 0 {
        lemma_join_last(ms);
        assert(ms[ms.len() - 1] == ms.last());
        assert(!ms.last().contains('\n'));
        assert(ms.last()[ms.last().len() - 1] == ms.last().last());
        assert(!t_trailing);
    } else {
        assert(t == Seq::<char>::empty());
    }
}

} // verus!
