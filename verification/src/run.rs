//! The install run's own decisions: what it checks before the cut, the
//! command bootc runs in, what the last screen draws and offers, and what a
//! choice on that screen does next.

use crate::answers::{Answers, CustomLayout, Opened};
use crate::automatic::{Offered, Ready};
use crate::copy;
use crate::layout::SYSROOT;
use crate::recipe::InstallRecipe;
use crate::text::{cat, cat3, cat4, chars_contain, chars_of, decimal, decimal_usize, owned, starts_with, str_eq};
use crate::ui::{choices_view, Choice, Look};
use vstd::prelude::*;

verus! {

/// Names the storage configuration bootc reads the media's image stores
/// through.
pub const STORAGE_CONF: &'static str = "/etc/containers/storage.conf";

/// A TPM2 answer stages an enrolment the image performs on its own first
/// boot, so the run refuses an image unable to perform it before any write.
pub fn needs_tpm2_check(answers: &Answers) -> (r: bool)
    ensures
        r == (answers.opened == Opened::Tpm2 || "tpm2-"@.is_prefix_of(answers.encryption.kind@)),
{
    answers.opened == Opened::Tpm2 || starts_with(answers.encryption.kind.as_str(), "tpm2-")
}

/// What a failure after the cut says: where the plan changed the partition
/// table, the user is told the disk needs recovering.
pub fn run_failure(why: String, changes_table: bool, disk: &str) -> (said: String)
    ensures
        changes_table ==> said@ == why@ + "\n\n"@ + "the partition table on "@ + disk@ + " has already been changed"@,
        !changes_table ==> said@ == why@,
{
    if changes_table {
        let mut said = why;
        said.append("\n\n");
        said.append(copy::table_already_changed(disk).as_str());
        said
    } else {
        why
    }
}

/// A store the recipe names is refused where it is no absolute path or
/// holds a colon, which the volume flag bootc runs with cannot carry.
pub fn unusable_store(store: &str) -> (r: bool)
    ensures
        r == (!"/"@.is_prefix_of(store@) || store@.contains(':')),
{
    !starts_with(store, "/") || chars_contain(chars_of(store).as_slice(), ':')
}

/// Reads what `podman image exists` answered: the image is in a store, in
/// none of them, or the stores could not be read. `stderr` is what podman
/// printed, trimmed.
pub fn store_answer(code: Option<i32>, image: &str, stderr: &str) -> (out: Result<(), String>)
    ensures
        code == Some(0i32) ==> out is Ok,
        code == Some(1i32) ==> (out matches Err(w) && w@ == "no store "@ + STORAGE_CONF@ + " names holds "@ + image@),
        code != Some(0i32) && code != Some(1i32) ==> (out matches Err(w)
            && w@ == "podman could not read the stores "@ + STORAGE_CONF@ + " names: "@ + stderr@),
{
    match code {
        Some(0) => Ok(()),
        Some(1) => Err(cat4("no store ", STORAGE_CONF, " names holds ", image)),
        _ => Err(cat4("podman could not read the stores ", STORAGE_CONF, " names: ", stderr)),
    }
}

/// The two volume arguments one additional image store takes, read-only.
pub open spec fn store_args(stores: Seq<String>) -> Seq<Seq<char>>
    decreases stores.len(),
{
    if stores.len() == 0 {
        seq![]
    } else {
        let s = stores.last()@;
        store_args(stores.drop_last()) + seq!["-v"@, s + ":"@ + s + ":ro"@]
    }
}

/// The arguments podman runs bootc with: the container that sees the host's
/// devices and stores, the install onto the mounted target, and the flags the
/// recipe and the root container ask for.
pub open spec fn bootc_spec(recipe: InstallRecipe, karg: Option<Seq<char>>) -> Seq<Seq<char>> {
    seq![
        "run"@, "--rm"@, "--pull=never"@, "--privileged"@, "--pid=host"@, "--security-opt"@,
        "label=disable"@, "-v"@, "/dev:/dev"@, "-v"@, "/var/lib/containers:/var/lib/containers"@,
    ] + store_args(recipe.stores@) + install_spec(recipe, karg)
}

fn push_arg(args: &mut Vec<String>, arg: &str)
    ensures
        final(args).deep_view() == old(args).deep_view().push(arg@),
{
    let ghost before = args.deep_view();
    args.push(owned(arg));
    assert(args.deep_view() =~= before.push(arg@));
}

/// The arguments after the stores: the storage configuration, the target,
/// the image and the install, and the flags the recipe and the root
/// container ask for.
pub open spec fn install_spec(recipe: InstallRecipe, karg: Option<Seq<char>>) -> Seq<Seq<char>> {
    seq![
        "-v"@, STORAGE_CONF@ + ":"@ + STORAGE_CONF@ + ":ro"@, "-v"@, SYSROOT@ + ":/target"@,
        recipe.image@, "bootc"@, "install"@, "to-filesystem"@, "--skip-finalize"@, "--target-imgref"@,
        recipe.target_imgref@,
    ] + (if recipe.composefs { seq!["--composefs-backend"@] } else { seq![] })
        + (if recipe.bootloader@.len() > 0 && recipe.bootloader@ != "grub2"@ {
        seq!["--bootloader"@, recipe.bootloader@]
    } else {
        seq![]
    }) + (if recipe.generic { seq!["--generic-image"@] } else { seq![] }) + (match karg {
        Some(k) => seq!["--karg"@, k],
        None => seq![],
    }) + seq!["/target"@]
}

fn install_args(recipe: &InstallRecipe, karg: Option<&str>) -> (args: Vec<String>)
    ensures
        args.deep_view() == install_spec(*recipe, match karg { Some(k) => Some(k@), None => None }),
{
    let mut args: Vec<String> = Vec::new();
    push_arg(&mut args, "-v");
    push_arg(&mut args, cat4(STORAGE_CONF, ":", STORAGE_CONF, ":ro").as_str());
    push_arg(&mut args, "-v");
    push_arg(&mut args, cat(SYSROOT, ":/target").as_str());
    push_arg(&mut args, recipe.image.as_str());
    push_arg(&mut args, "bootc");
    push_arg(&mut args, "install");
    push_arg(&mut args, "to-filesystem");
    push_arg(&mut args, "--skip-finalize");
    push_arg(&mut args, "--target-imgref");
    push_arg(&mut args, recipe.target_imgref.as_str());
    let ghost head = args.deep_view();
    if recipe.composefs {
        push_arg(&mut args, "--composefs-backend");
    }
    let ghost a1 = args.deep_view();
    if !recipe.bootloader.as_str().is_empty() && !str_eq(recipe.bootloader.as_str(), "grub2") {
        push_arg(&mut args, "--bootloader");
        push_arg(&mut args, recipe.bootloader.as_str());
    }
    let ghost a2 = args.deep_view();
    if recipe.generic {
        push_arg(&mut args, "--generic-image");
    }
    let ghost a3 = args.deep_view();
    match karg {
        Some(k) => {
            push_arg(&mut args, "--karg");
            push_arg(&mut args, k);
        },
        None => {},
    }
    let ghost a4 = args.deep_view();
    push_arg(&mut args, "/target");
    assert(a1 =~= head + (if recipe.composefs { seq!["--composefs-backend"@] } else { seq![] }));
    assert(args.deep_view() =~= install_spec(*recipe, match karg { Some(k) => Some(k@), None => None }));
    args
}

/// Builds the arguments podman runs the payload's own bootc with.
pub fn bootc_args(recipe: &InstallRecipe, karg: Option<&str>) -> (args: Vec<String>)
    ensures
        args.deep_view() == bootc_spec(*recipe, match karg { Some(k) => Some(k@), None => None }),
{
    let mut args: Vec<String> = Vec::new();
    push_arg(&mut args, "run");
    push_arg(&mut args, "--rm");
    push_arg(&mut args, "--pull=never");
    push_arg(&mut args, "--privileged");
    push_arg(&mut args, "--pid=host");
    push_arg(&mut args, "--security-opt");
    push_arg(&mut args, "label=disable");
    push_arg(&mut args, "-v");
    push_arg(&mut args, "/dev:/dev");
    push_arg(&mut args, "-v");
    push_arg(&mut args, "/var/lib/containers:/var/lib/containers");
    let ghost head = args.deep_view();
    let mut i: usize = 0;
    while i < recipe.stores.len()
        invariant
            i <= recipe.stores.len(),
            args.deep_view() == head + store_args(recipe.stores@.take(i as int)),
        decreases recipe.stores.len() - i,
    {
        let store = recipe.stores[i].as_str();
        push_arg(&mut args, "-v");
        let mut volume = cat3(store, ":", store);
        volume.append(":ro");
        push_arg(&mut args, volume.as_str());
        proof {
            let t = recipe.stores@.take(i + 1);
            assert(t.drop_last() =~= recipe.stores@.take(i as int));
            assert(t.last() == recipe.stores@[i as int]);
        }
        assert(args.deep_view() =~= head + store_args(recipe.stores@.take(i + 1)));
        i = i + 1;
    }
    assert(recipe.stores@.take(i as int) =~= recipe.stores@);
    let tail = install_args(recipe, karg);
    let ghost middle = args.deep_view();
    let mut t: usize = 0;
    while t < tail.len()
        invariant
            t <= tail.len(),
            args.deep_view() == middle + tail.deep_view().take(t as int),
        decreases tail.len() - t,
    {
        push_arg(&mut args, tail[t].as_str());
        assert(tail.deep_view().take(t + 1) =~= tail.deep_view().take(t as int).push(tail.deep_view()[t as int]));
        t = t + 1;
    }
    assert(tail.deep_view().take(t as int) =~= tail.deep_view());
    assert(args.deep_view() =~= bootc_spec(*recipe, match karg { Some(k) => Some(k@), None => None }));
    args
}

/// The root container bootc is told of, as its mapper name and its
/// partition, where the BLS entry needs one: a signed UKI finds its root by
/// partition type and carries no mutable kernel command line.
pub open spec fn root_container_spec(layout: CustomLayout, boot: Seq<char>) -> Option<(Seq<char>, Seq<char>)> {
    if boot.len() > 0 {
        None
    } else {
        match crate::automatic::root_open_at(layout.opens@) {
            Some(i) => Some(("tect-"@ + decimal((i + 1) as nat), layout.opens@[i].partition@)),
            None => None,
        }
    }
}

/// Finds the root container bootc is told of, as the name it maps to and
/// the partition its UUID is read from.
pub fn root_container(layout: &CustomLayout, boot: &str) -> (out: Option<(String, String)>)
    ensures
        match root_container_spec(*layout, boot@) {
            Some((n, p)) => out matches Some((a, b)) && a@ == n && b@ == p,
            None => out is None,
        },
{
    if !boot.is_empty() {
        return None;
    }
    let count = layout.opens.len();
    match crate::automatic::root_open(&layout.opens) {
        Some(i) => Some((cat("tect-", decimal_usize(i + 1).as_str()), layout.opens[i].partition.clone())),
        None => None,
    }
}

/// The kernel argument that names the root container for the initrd.
pub fn luks_name_arg(uuid: &str, name: &str) -> (arg: String)
    ensures
        arg@ == "rd.luks.name="@ + uuid@ + "="@ + name@,
{
    let mut arg = cat3("rd.luks.name=", uuid, "=");
    arg.append(name);
    arg
}

/// What a recovery key opens: the install disk, then every partition the
/// layout chose to open.
pub open spec fn recovery_spec(answers: Answers) -> Seq<Seq<char>> {
    seq![copy::ENCRYPTED_DISK@ + ": "@ + answers.disk@] + match answers.layout {
        Some(l) => l.opens@.map_values(|o: crate::answers::LuksOpen| copy::ENCRYPTED_PARTITION@ + ": "@ + o.partition@),
        None => seq![],
    }
}

/// Lists what a recovery key opens, so a photograph of the screen names the
/// disk.
pub fn recovery_volumes(answers: &Answers) -> (volumes: Vec<String>)
    ensures
        volumes.deep_view() == recovery_spec(*answers),
{
    let mut volumes: Vec<String> = Vec::new();
    volumes.push(cat3(copy::ENCRYPTED_DISK, ": ", answers.disk.as_str()));
    let ghost first = volumes.deep_view();
    match &answers.layout {
        Some(layout) => {
            let ghost f = |o: crate::answers::LuksOpen| copy::ENCRYPTED_PARTITION@ + ": "@ + o.partition@;
            let mut i: usize = 0;
            while i < layout.opens.len()
                invariant
                    i <= layout.opens.len(),
                    f == (|o: crate::answers::LuksOpen| copy::ENCRYPTED_PARTITION@ + ": "@ + o.partition@),
                    volumes.deep_view() == first + layout.opens@.take(i as int).map_values(f),
                decreases layout.opens.len() - i,
            {
                let ghost before = volumes.deep_view();
                volumes.push(cat3(copy::ENCRYPTED_PARTITION, ": ", layout.opens[i].partition.as_str()));
                assert(volumes.deep_view() =~= before.push(f(layout.opens@[i as int])));
                assert(layout.opens@.take(i + 1).map_values(f) =~= layout.opens@.take(i as int).map_values(f).push(
                    f(layout.opens@[i as int])));
                i = i + 1;
            }
            assert(layout.opens@.take(i as int) =~= layout.opens@);
        },
        None => {},
    }
    assert(volumes.deep_view() =~= recovery_spec(*answers));
    volumes
}

/// Rows that each draw one text in one look.
pub open spec fn rows_of(texts: Seq<Seq<char>>, look: Look) -> Seq<(Seq<char>, Look)> {
    texts.map_values(|t: Seq<char>| (t, look))
}

/// The key's rows: its heading, what to do with it, the volumes it opens
/// between two blanks, and the key itself, tinted.
pub open spec fn key_rows(recovery: Option<Seq<char>>, volumes: Seq<Seq<char>>) -> Seq<(Seq<char>, Look)> {
    match recovery {
        Some(key) => seq![
            (copy::RECOVERY_HEADING@, Look::Heading),
            ("Write it down; it is the only copy."@, Look::Content),
            (Seq::<char>::empty(), Look::Plain),
        ] + rows_of(volumes, Look::Content) + seq![(Seq::<char>::empty(), Look::Plain), (key, Look::Tinted)],
        None => seq![],
    }
}

/// The firmware steps' rows, set off from the key by a blank.
pub open spec fn step_rows(after_key: bool, steps: Option<Seq<Seq<char>>>) -> Seq<(Seq<char>, Look)> {
    match steps {
        Some(lines) => (if after_key { seq![(Seq::<char>::empty(), Look::Plain)] } else { seq![] })
            + seq![(copy::NEXT_STEPS_HEADING@, Look::Heading)] + rows_of(lines, Look::Content),
        None => seq![],
    }
}

/// The explanation's paragraphs, one blank between each two.
pub open spec fn paragraph_rows(paragraphs: Seq<Seq<Seq<char>>>) -> Seq<(Seq<char>, Look)>
    decreases paragraphs.len(),
{
    if paragraphs.len() == 0 {
        seq![]
    } else {
        paragraph_rows(paragraphs.drop_last()) + (if paragraphs.len() > 1 {
            seq![(Seq::<char>::empty(), Look::Plain)]
        } else {
            seq![]
        }) + rows_of(paragraphs.last(), Look::Content)
    }
}

/// The automatic action's rows: what each action does, and the window the
/// automatic action opens, in the warning colour.
pub open spec fn action_rows(offered: Offered, explained: Seq<Seq<Seq<char>>>) -> Seq<(Seq<char>, Look)> {
    match offered {
        Offered::Nothing => seq![],
        Offered::Unavailable(_) => seq![(Seq::<char>::empty(), Look::Plain)] + paragraph_rows(explained),
        Offered::Ready(r) => seq![(Seq::<char>::empty(), Look::Plain)] + paragraph_rows(explained) + seq![(
            if r.pin { copy::AUTO_WINDOW_PIN@ } else { copy::AUTO_WINDOW@ },
            Look::Warning,
        )],
    }
}

pub open spec fn logging_text(log: Option<Seq<char>>) -> Seq<char> {
    match log {
        Some(at) => "the install log is at "@ + at,
        None => "nothing here is writable, so this screen is the only copy"@,
    }
}

/// The last screen's rows.
pub open spec fn done_spec(
    recovery: Option<Seq<char>>,
    log: Option<Seq<char>>,
    steps: Option<Seq<Seq<char>>>,
    notes: Seq<Seq<char>>,
    volumes: Seq<Seq<char>>,
    offered: Offered,
    explained: Seq<Seq<Seq<char>>>,
) -> Seq<(Seq<char>, Look)> {
    key_rows(recovery, volumes) + step_rows(recovery is Some, steps) + rows_of(notes, Look::Content) + seq![
        (logging_text(log), Look::Content),
    ] + action_rows(offered, explained)
}

pub open spec fn looks_view(rows: Seq<(String, Look)>) -> Seq<(Seq<char>, Look)> {
    rows.map_values(|r: (String, Look)| (r.0@, r.1))
}

fn push_look(rows: &mut Vec<(String, Look)>, text: &str, look: Look)
    ensures
        looks_view(final(rows)@) == looks_view(old(rows)@).push((text@, look)),
{
    rows.push((owned(text), look));
    assert(looks_view(rows@) =~= looks_view(old(rows)@).push((text@, look)));
}

fn push_blank(rows: &mut Vec<(String, Look)>)
    ensures
        looks_view(final(rows)@) == looks_view(old(rows)@).push((Seq::<char>::empty(), Look::Plain)),
{
    rows.push((String::new(), Look::Plain));
    assert(looks_view(rows@) =~= looks_view(old(rows)@).push((Seq::<char>::empty(), Look::Plain)));
}

fn push_all(rows: &mut Vec<(String, Look)>, texts: &Vec<String>, look: Look)
    ensures
        looks_view(final(rows)@) == looks_view(old(rows)@) + rows_of(texts.deep_view(), look),
{
    let ghost start = looks_view(rows@);
    let mut i: usize = 0;
    while i < texts.len()
        invariant
            i <= texts.len(),
            looks_view(rows@) == start + rows_of(texts.deep_view().take(i as int), look),
        decreases texts.len() - i,
    {
        push_look(rows, texts[i].as_str(), look);
        assert(rows_of(texts.deep_view().take(i + 1), look) =~= rows_of(texts.deep_view().take(i as int), look).push(
            (texts.deep_view()[i as int], look)));
        i = i + 1;
    }
    assert(texts.deep_view().take(i as int) =~= texts.deep_view());
}

pub open spec fn nested_view(ps: Seq<Vec<String>>) -> Seq<Seq<Seq<char>>> {
    ps.map_values(|p: Vec<String>| p.deep_view())
}

fn push_key(rows: &mut Vec<(String, Look)>, recovery: Option<&str>, volumes: &Vec<String>)
    ensures
        looks_view(final(rows)@) == looks_view(old(rows)@) + key_rows(
            match recovery { Some(k) => Some(k@), None => None },
            volumes.deep_view(),
        ),
{
    let ghost start = looks_view(rows@);
    match recovery {
        Some(key) => {
            push_look(rows, copy::RECOVERY_HEADING, Look::Heading);
            push_look(rows, copy::write_down(), Look::Content);
            push_blank(rows);
            push_all(rows, volumes, Look::Content);
            push_blank(rows);
            push_look(rows, key, Look::Tinted);
            assert(looks_view(rows@) =~= start + key_rows(Some(key@), volumes.deep_view()));
        },
        None => {
            assert(looks_view(rows@) =~= start + key_rows(None, volumes.deep_view()));
        },
    }
}

fn push_steps(rows: &mut Vec<(String, Look)>, after_key: bool, steps: Option<&Vec<String>>)
    ensures
        looks_view(final(rows)@) == looks_view(old(rows)@) + step_rows(
            after_key,
            match steps { Some(s) => Some(s.deep_view()), None => None },
        ),
{
    let ghost start = looks_view(rows@);
    match steps {
        Some(lines) => {
            if after_key {
                push_blank(rows);
            }
            push_look(rows, copy::NEXT_STEPS_HEADING, Look::Heading);
            push_all(rows, lines, Look::Content);
            assert(looks_view(rows@) =~= start + step_rows(after_key, Some(lines.deep_view())));
        },
        None => {
            assert(looks_view(rows@) =~= start + step_rows(after_key, None));
        },
    }
}

fn push_paragraphs(rows: &mut Vec<(String, Look)>, explained: &Vec<Vec<String>>)
    ensures
        looks_view(final(rows)@) == looks_view(old(rows)@) + paragraph_rows(nested_view(explained@)),
{
    let ghost start = looks_view(rows@);
    let mut p: usize = 0;
    while p < explained.len()
        invariant
            p <= explained.len(),
            looks_view(rows@) == start + paragraph_rows(nested_view(explained@).take(p as int)),
        decreases explained.len() - p,
    {
        if p > 0 {
            push_blank(rows);
        }
        push_all(rows, &explained[p], Look::Content);
        proof {
            let t = nested_view(explained@).take(p + 1);
            assert(t.drop_last() =~= nested_view(explained@).take(p as int));
            assert(t.last() == explained@[p as int].deep_view());
        }
        assert(looks_view(rows@) =~= start + paragraph_rows(nested_view(explained@).take(p + 1)));
        p = p + 1;
    }
    assert(nested_view(explained@).take(p as int) =~= nested_view(explained@));
}

fn push_actions(rows: &mut Vec<(String, Look)>, offered: &Offered, explained: &Vec<Vec<String>>)
    ensures
        looks_view(final(rows)@) == looks_view(old(rows)@) + action_rows(*offered, nested_view(explained@)),
{
    let ghost start = looks_view(rows@);
    match offered {
        Offered::Nothing => {
            assert(looks_view(rows@) =~= start + action_rows(*offered, nested_view(explained@)));
        },
        Offered::Unavailable(_) => {
            push_blank(rows);
            push_paragraphs(rows, explained);
            assert(looks_view(rows@) =~= start + action_rows(*offered, nested_view(explained@)));
        },
        Offered::Ready(ready) => {
            push_blank(rows);
            push_paragraphs(rows, explained);
            let window = if ready.pin { copy::AUTO_WINDOW_PIN } else { copy::AUTO_WINDOW };
            push_look(rows, window, Look::Warning);
            assert(looks_view(rows@) =~= start + action_rows(*offered, nested_view(explained@)));
        },
    }
}

/// Builds the last screen's rows. They carry the key as text under its
/// heading, the steps the firmware still asks for under their own, the notes,
/// and where the log went. The key is the one row the user must copy by eye.
/// Where a first-boot enrolment is staged, the rows end with what each action
/// does, and the automatic action's window draws in the warning colour.
/// `steps` and each paragraph of `explained` arrive wrapped to the panel's
/// room, one line a row.
pub fn done_rows(
    recovery: Option<&str>,
    log: Option<&str>,
    steps: Option<&Vec<String>>,
    notes: &Vec<String>,
    volumes: &Vec<String>,
    offered: &Offered,
    explained: &Vec<Vec<String>>,
) -> (rows: Vec<(String, Look)>)
    ensures
        looks_view(rows@) == done_spec(
            match recovery { Some(k) => Some(k@), None => None },
            match log { Some(l) => Some(l@), None => None },
            match steps { Some(s) => Some(s.deep_view()), None => None },
            notes.deep_view(),
            volumes.deep_view(),
            *offered,
            nested_view(explained@),
        ),
{
    let mut rows: Vec<(String, Look)> = Vec::new();
    push_key(&mut rows, recovery, volumes);
    push_steps(&mut rows, recovery.is_some(), steps);
    push_all(&mut rows, notes, Look::Content);
    push_look(&mut rows, copy::logging(log).as_str(), Look::Content);
    push_actions(&mut rows, offered, explained);
    assert(looks_view(rows@) =~= done_spec(
        match recovery { Some(k) => Some(k@), None => None },
        match log { Some(l) => Some(l@), None => None },
        match steps { Some(s) => Some(s.deep_view()), None => None },
        notes.deep_view(),
        volumes.deep_view(),
        *offered,
        nested_view(explained@),
    ));
    rows
}

/// The actions the last screen offers: the automatic finalize, taken or
/// drawn dim with its reason, beside the manual one where an enrolment is
/// staged, and the restart alone where none is.
pub open spec fn actions_spec(offered: Offered) -> Seq<(Seq<char>, Seq<char>, bool, bool)> {
    match offered {
        Offered::Ready(_) => seq![
            (copy::FINALIZE_AUTO@, Seq::<char>::empty(), false, false),
            (copy::FINALIZE_MANUAL@, Seq::<char>::empty(), false, false),
        ],
        Offered::Unavailable(why) => seq![
            (copy::FINALIZE_AUTO@, why@, true, false),
            (copy::FINALIZE_MANUAL@, Seq::<char>::empty(), false, false),
        ],
        Offered::Nothing => seq![(copy::RESTART@, Seq::<char>::empty(), false, false)],
    }
}

pub fn done_actions(offered: &Offered) -> (actions: Vec<Choice>)
    ensures
        choices_view(actions@) == actions_spec(*offered),
{
    let mut actions: Vec<Choice> = Vec::new();
    match offered {
        Offered::Ready(_) => {
            actions.push(Choice::new(copy::FINALIZE_AUTO, ""));
            actions.push(Choice::new(copy::FINALIZE_MANUAL, ""));
        },
        Offered::Unavailable(why) => {
            actions.push(Choice::dim(copy::FINALIZE_AUTO, why.as_str()));
            actions.push(Choice::new(copy::FINALIZE_MANUAL, ""));
        },
        Offered::Nothing => {
            actions.push(Choice::new(copy::RESTART, ""));
        },
    }
    proof {
        reveal_strlit("");
        assert(""@ =~= Seq::<char>::empty());
    }
    assert(choices_view(actions@) =~= actions_spec(*offered));
    actions
}

/// What a pick on the last screen does: Esc leaves, the first action
/// finalizes where the automatic action is ready, and any other restarts.
#[derive(Clone, Copy, Debug, PartialEq, Eq, Structural)]
pub enum Chosen {
    Leave,
    Finalize,
    Restart,
}

pub fn chosen(offered: &Offered, picked: Option<usize>) -> (c: Chosen)
    ensures
        c == (match picked {
            None => Chosen::Leave,
            Some(at) => if at == 0 && offered is Ready { Chosen::Finalize } else { Chosen::Restart },
        }),
{
    match picked {
        None => Chosen::Leave,
        Some(at) => match offered {
            Offered::Ready(_) if at == 0 => Chosen::Finalize,
            _ => Chosen::Restart,
        },
    }
}

/// What the last screen offers once the automatic finalize failed: the
/// action drawn dim with the reason, so the screen draws again with the
/// recovery key on it rather than restarting.
pub fn finalize_failed() -> (o: Offered)
    ensures
        o matches Offered::Unavailable(why) && why@ == copy::AUTO_FAILED@,
{
    Offered::Unavailable(owned(copy::AUTO_FAILED))
}

/// Once the automatic finalize failed, no pick on the screen drawn again
/// finalizes: each restarts by hand or leaves.
pub proof fn lemma_failed_finalize_never_repeats(why: String, picked: Option<usize>)
    ensures
        (match picked {
            None => Chosen::Leave,
            Some(at) => if at == 0 && Offered::Unavailable(why) is Ready { Chosen::Finalize } else { Chosen::Restart },
        }) != Chosen::Finalize,
{
}

/// The outside work an install run does, in the order it does it, and the
/// answer it ends with.
pub enum Step {
    /// Refuses an image whose declared boot chain it cannot sign.
    CheckChain,
    /// Refuses an image unable to perform the first-boot TPM2 enrolment.
    CheckTpm2,
    /// Refuses missing host paths, and an image the stores lack.
    CheckRecipe,
    /// Hashes the password before it is written anywhere.
    HashPassword,
    /// Cuts, encrypts, formats and mounts the disk.
    Prepare,
    /// Runs bootc over the prepared disk and writes the installed system.
    Install,
    /// The run is over, with this answer.
    Finished(Result<(), String>),
}

pub open spec fn step_view(s: Step) -> (int, Option<Result<(), Seq<char>>>) {
    match s {
        Step::CheckChain => (0, None),
        Step::CheckTpm2 => (1, None),
        Step::CheckRecipe => (2, None),
        Step::HashPassword => (3, None),
        Step::Prepare => (4, None),
        Step::Install => (5, None),
        Step::Finished(Ok(())) => (6, Some(Ok(()))),
        Step::Finished(Err(w)) => (6, Some(Err(w@))),
    }
}

/// The step after `after` answered `outcome`, or the first step where
/// nothing ran yet. Every check that can refuse the answers runs before the
/// disk is prepared, so a refusal leaves the disk as the user left it. A
/// failure after the disk was prepared says the partition table already
/// changed where the plan changes it, which `changes_table` says.
pub open spec fn run_spec(answers: Answers, after: Option<Step>, outcome: Result<(), Seq<char>>, changes_table: bool) -> (int, Option<Result<(), Seq<char>>>) {
    match after {
        None => (0, None),
        Some(Step::Finished(r)) => step_view(Step::Finished(r)),
        Some(step) => match outcome {
            Err(why) => if step is Install && changes_table {
                (6, Some(Err(why + "\n\n"@ + "the partition table on "@ + answers.disk@ + " has already been changed"@)))
            } else {
                (6, Some(Err(why)))
            },
            Ok(()) => match step {
                Step::CheckChain => if answers.opened == Opened::Tpm2 || "tpm2-"@.is_prefix_of(answers.encryption.kind@) {
                    (1, None)
                } else {
                    (2, None)
                },
                Step::CheckTpm2 => (2, None),
                Step::CheckRecipe => if crate::account::portable(answers.user@) {
                    (3, None)
                } else {
                    (6, Some(Err("the username "@ + crate::text::debug_str(answers.user@)
                        + " needs lowercase letters, digits, `_` or `-`, starting with a letter or `_`"@)))
                },
                Step::HashPassword => (4, None),
                Step::Prepare => (5, None),
                _ => (6, Some(Ok(()))),
            },
        },
    }
}

/// Decides an install run's next step: the first where `after` is `None`,
/// else the one after `after`, which answered `outcome`.
pub fn run(answers: &Answers, after: Option<Step>, outcome: Result<(), String>, changes_table: bool) -> (next: Step)
    ensures
        step_view(next) == run_spec(*answers, after, match outcome { Ok(()) => Ok(()), Err(w) => Err(w@) }, changes_table),
{
    let step = match after {
        None => return Step::CheckChain,
        Some(step) => step,
    };
    if let Step::Finished(r) = step {
        return Step::Finished(r);
    }
    match outcome {
        Err(why) => {
            let install = match step { Step::Install => true, _ => false };
            if install {
                Step::Finished(Err(run_failure(why, changes_table, answers.disk.as_str())))
            } else {
                Step::Finished(Err(why))
            }
        },
        Ok(()) => match step {
            Step::CheckChain => if needs_tpm2_check(answers) { Step::CheckTpm2 } else { Step::CheckRecipe },
            Step::CheckTpm2 => Step::CheckRecipe,
            Step::CheckRecipe => if crate::account::portable_name(answers.user.as_str()) {
                Step::HashPassword
            } else {
                Step::Finished(Err(copy::account_name(answers.user.as_str())))
            },
            Step::HashPassword => Step::Prepare,
            Step::Prepare => Step::Install,
            _ => Step::Finished(Ok(())),
        },
    }
}

/// The disk is prepared only once every check has passed: the step that
/// leads to the cut is a password hashed after the account name was taken.
pub proof fn lemma_checks_before_cut(answers: Answers, after: Option<Step>, outcome: Result<(), Seq<char>>, changes_table: bool)
    requires
        run_spec(answers, after, outcome, changes_table).0 == 4,
    ensures
        after matches Some(Step::HashPassword),
        outcome is Ok,
{
}

} // verus!
