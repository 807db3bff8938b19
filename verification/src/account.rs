//! The installed machine's account: which names are accepted, which groups it
//! joins, and the command and files that make it.

use crate::text::{
    cat, cat3, chars_of, chars_split, join, join_strings, lines, owned, split, str_eq,
    string_of, views,
};
use vstd::prelude::*;

verus! {

pub open spec fn lowercase(c: char) -> bool {
    'a' <= c && c <= 'z'
}

/// The portable account names this installer accepts: a lowercase letter
/// or `_` first, then lowercase letters, digits, `_` or `-`, at most 32 in
/// all.
pub open spec fn portable(user: Seq<char>) -> bool {
    &&& user.len() > 0
    &&& (lowercase(user[0]) || user[0] == '_')
    &&& forall|i: int| 1 <= i < user.len() ==> (lowercase(#[trigger] user[i]) || ('0' <= user[i] && user[i] <= '9') || user[i] == '_' || user[i] == '-')
    &&& user.len() <= 32
}

/// Says whether an account name is in the portable set. `useradd` runs after
/// bootc has written the disk, so a name outside the set is refused before
/// the cut.
pub fn portable_name(user: &str) -> (r: bool)
    ensures
        r == portable(user@),
{
    let chars = chars_of(user);
    if chars.len() == 0 {
        return false;
    }
    let first = chars[0];
    if !(('a' <= first && first <= 'z') || first == '_') {
        return false;
    }
    let mut i: usize = 1;
    while i < chars.len()
        invariant
            1 <= i <= chars@.len(),
            chars@ == user@,
            forall|j: int| 1 <= j < i ==> (lowercase(#[trigger] chars@[j]) || ('0' <= chars@[j] && chars@[j] <= '9') || chars@[j] == '_' || chars@[j] == '-'),
        decreases chars.len() - i,
    {
        let c = chars[i];
        if !(('a' <= c && c <= 'z') || ('0' <= c && c <= '9') || c == '_' || c == '-') {
            return false;
        }
        i = i + 1;
    }
    chars.len() <= 32
}

/// The name a `/etc/group` line gives its group: the text before its first
/// `:`.
pub open spec fn group_name(line: Seq<char>) -> Seq<char> {
    split(line, ':')[0]
}

/// Whether a `/etc/group` text names `group`.
pub open spec fn names_group(held: Seq<char>, group: Seq<char>) -> bool {
    exists|i: int| 0 <= i < lines(held).len() && group_name(#[trigger] lines(held)[i]) == group
}

/// The requested groups the target's `/etc/group` holds, in the order they
/// were asked for. A missing group would make `useradd` refuse the whole
/// account.
pub fn groups_present(held: &str, requested: &Vec<String>) -> (kept: Vec<String>)
    ensures
        kept.deep_view() == requested.deep_view().filter(|g: Seq<char>| names_group(held@, g)),
{
    let chars = chars_of(held);
    let all = crate::text::chars_lines(chars.as_slice());
    let mut names: Vec<Vec<char>> = Vec::new();
    let mut i: usize = 0;
    while i < all.len()
        invariant
            i <= all@.len(),
            views(all@) == lines(held@),
            chars@ == held@,
            names@.len() == i,
            forall|j: int| 0 <= j < i ==> (#[trigger] names@[j])@ == group_name(views(all@)[j]),
        decreases all.len() - i,
    {
        let parts = chars_split(all[i].as_slice(), ':');
        assert(views(parts@).len() == split(all@[i as int]@, ':').len());
        assert(parts@.len() > 0);
        assert(views(parts@)[0] == parts@[0]@);
        names.push(crate::text::slice_from(parts[0].as_slice(), 0));
        assert(views(all@)[i as int] == all@[i as int]@);
        i = i + 1;
    }
    let ghost keep = |g: Seq<char>| names_group(held@, g);
    let mut kept: Vec<String> = Vec::new();
    let mut k: usize = 0;
    while k < requested.len()
        invariant
            k <= requested@.len(),
            keep == (|g: Seq<char>| names_group(held@, g)),
            names@.len() == lines(held@).len(),
            forall|j: int| 0 <= j < names@.len() ==> (#[trigger] names@[j])@ == group_name(lines(held@)[j]),
            kept.deep_view() == requested.deep_view().take(k as int).filter(keep),
        decreases requested.len() - k,
    {
        let group = chars_of(requested[k].as_str());
        let mut found = false;
        let mut j: usize = 0;
        while j < names.len() && !found
            invariant
                j <= names@.len(),
                names@.len() == lines(held@).len(),
                forall|m: int| 0 <= m < names@.len() ==> (#[trigger] names@[m])@ == group_name(lines(held@)[m]),
                found ==> names_group(held@, group@),
                !found ==> forall|m: int| 0 <= m < j ==> group_name(#[trigger] lines(held@)[m]) != group@,
            decreases names.len() - j, if found { 0int } else { 1int },
        {
            if crate::text::chars_eq(names[j].as_slice(), group.as_slice()) {
                assert(group_name(lines(held@)[j as int]) == group@);
                found = true;
            } else {
                j = j + 1;
            }
        }
        proof {
            reveal(Seq::filter);
            assert(requested.deep_view().take(k + 1).drop_last() =~= requested.deep_view().take(k as int));
            assert(requested.deep_view().take(k + 1).last() == requested@[k as int]@);
            assert(found == names_group(held@, requested@[k as int]@));
        }
        if found {
            let ghost before = kept.deep_view();
            kept.push(requested[k].clone());
            assert(kept.deep_view() =~= before.push(requested@[k as int]@));
        }
        k = k + 1;
    }
    assert(requested.deep_view().take(k as int) =~= requested.deep_view());
    kept
}

/// The `useradd` command that makes the account: run with `--root` on a
/// composefs deployment, which exposes only writable state, and through
/// `chroot` on an ostree deployment, which is a full rootfs.
pub open spec fn useradd_spec(deployment: Seq<char>, composefs: bool, user: Seq<char>, groups: Seq<Seq<char>>, hash: Seq<char>) -> Seq<Seq<char>> {
    let head = if composefs {
        seq!["useradd"@, "--root"@, deployment, "--no-create-home"@]
    } else {
        seq!["chroot"@, deployment, "useradd"@, "--no-create-home"@]
    };
    let groups_args = if groups.len() > 0 { seq!["--groups"@, join(groups, ","@)] } else { Seq::empty() };
    head + seq!["--shell"@, "/bin/bash"@, "--password"@, hash] + groups_args + seq![user]
}

/// Builds the account command.
pub fn useradd_args(deployment: &str, composefs: bool, user: &str, groups: &Vec<String>, password_hash: &str) -> (argv: Vec<String>)
    ensures
        argv.deep_view() == useradd_spec(deployment@, composefs, user@, groups.deep_view(), password_hash@),
{
    let mut argv: Vec<String> = Vec::new();
    if composefs {
        argv.push(owned("useradd"));
        argv.push(owned("--root"));
        argv.push(owned(deployment));
        argv.push(owned("--no-create-home"));
    } else {
        argv.push(owned("chroot"));
        argv.push(owned(deployment));
        argv.push(owned("useradd"));
        argv.push(owned("--no-create-home"));
    }
    argv.push(owned("--shell"));
    argv.push(owned("/bin/bash"));
    argv.push(owned("--password"));
    argv.push(owned(password_hash));
    if groups.len() > 0 {
        argv.push(owned("--groups"));
        argv.push(join_strings(groups, ","));
    }
    argv.push(owned(user));
    assert(argv.deep_view() =~= useradd_spec(deployment@, composefs, user@, groups.deep_view(), password_hash@));
    argv
}

/// The tmpfiles line that copies the skeleton into the account's home. `C`
/// sets ownership on the whole copied tree only when it copies, so a later
/// boot never resets ownership in the home.
pub fn tmpfiles(user: &str) -> (line: String)
    ensures
        line@ == "C /var/home/"@ + user@ + " 0700 "@ + user@ + " "@ + user@ + " - /etc/skel\n"@,
{
    let mut line = cat3("C /var/home/", user, " 0700 ");
    line.append(user);
    line.append(" ");
    line.append(user);
    line.append(" - /etc/skel\n");
    line
}

/// A file `name` under the directory `dir`, as `Path::join` writes it: an
/// empty directory adds no separator, and one that ends in `/` adds none
/// either.
pub open spec fn under(dir: Seq<char>, name: Seq<char>) -> Seq<char> {
    if dir.len() == 0 || dir.last() == '/' { dir + name } else { dir + "/"@ + name }
}

pub fn join_path(dir: &str, name: &str) -> (path: String)
    ensures
        path@ == under(dir@, name@),
{
    let slash = crate::text::ends_with(dir, "/");
    proof {
        reveal_strlit("/");
        assert("/"@ =~= seq!['/']);
        if dir@.len() > 0 {
            let tail = dir@.subrange(dir@.len() - 1, dir@.len() as int);
            assert(tail[0] == dir@.last());
            if dir@.last() == '/' {
                assert(tail =~= "/"@);
            }
            if slash {
                assert(tail[0] == "/"@[0]);
            }
        }
    }
    if slash || dir.is_empty() {
        cat(dir, name)
    } else {
        cat3(dir, "/", name)
    }
}

/// The account files whose SELinux labels the install restores, under the
/// deployment's `etc`, then the tmpfiles snippet; the caller keeps the ones
/// that exist.
pub fn paths_to_label(etc: &str, snippet: &str) -> (paths: Vec<String>)
    ensures
        paths.deep_view() == seq![
            "hostname"@, "passwd"@, "shadow"@, "group"@, "gshadow"@, "subuid"@, "subgid"@,
            "passwd-"@, "shadow-"@, "group-"@, "gshadow-"@, "subuid-"@, "subgid-"@,
        ].map_values(|n: Seq<char>| under(etc@, n)).push(snippet@),
{
    let names: [&'static str; 13] = [
        "hostname", "passwd", "shadow", "group", "gshadow", "subuid", "subgid", "passwd-",
        "shadow-", "group-", "gshadow-", "subuid-", "subgid-",
    ];
    let ghost want = seq![
        "hostname"@, "passwd"@, "shadow"@, "group"@, "gshadow"@, "subuid"@, "subgid"@,
        "passwd-"@, "shadow-"@, "group-"@, "gshadow-"@, "subuid-"@, "subgid-"@,
    ];
    assert(names@.map_values(|n: &'static str| n@) =~= want);
    let mut paths: Vec<String> = Vec::new();
    let mut i: usize = 0;
    while i < 13
        invariant
            i <= 13,
            names@.map_values(|n: &'static str| n@) == want,
            paths.deep_view() == want.take(i as int).map_values(|n: Seq<char>| under(etc@, n)),
        decreases 13 - i,
    {
        let ghost before = paths.deep_view();
        assert(names@.map_values(|n: &'static str| n@)[i as int] == names@[i as int]@);
        paths.push(join_path(etc, names[i]));
        assert(paths.deep_view() =~= before.push(under(etc@, want[i as int])));
        assert(want.take(i + 1).map_values(|n: Seq<char>| under(etc@, n)) =~= before.push(under(etc@, want[i as int])));
        i = i + 1;
    }
    assert(want.take(13) =~= want);
    let ghost before = paths.deep_view();
    paths.push(owned(snippet));
    assert(paths.deep_view() =~= before.push(snippet@));
    paths
}

/// What `openssl passwd -6` answered: the crypt string it wrote, trimmed,
/// where it succeeded and the string is one; otherwise the refusal, with
/// what it printed on its error stream.
pub open spec fn crypt_text(succeeded: bool, stdout: Seq<char>, stderr: Seq<char>) -> Result<Seq<char>, Seq<char>> {
    let hash = crate::text::trim(stdout);
    if succeeded && "$"@.is_prefix_of(hash) {
        Ok(hash)
    } else {
        Err("openssl passwd wrote no crypt string: "@ + crate::text::trim(stderr))
    }
}

/// Reads the password hash out of what the hashing command answered.
pub fn crypt_answer(succeeded: bool, stdout: &str, stderr: &str) -> (out: Result<String, String>)
    ensures
        match crypt_text(succeeded, stdout@, stderr@) {
            Ok(h) => out matches Ok(s) && s@ == h,
            Err(w) => out matches Err(s) && s@ == w,
        },
{
    let hash = crate::text::trim_str(stdout);
    if succeeded && crate::text::starts_with(hash.as_str(), "$") {
        Ok(hash)
    } else {
        Err(cat("openssl passwd wrote no crypt string: ", crate::text::trim_str(stderr).as_str()))
    }
}

} // verus!
