//! The payload a root carries: the recipe, the fields the installer shows the
//! user, and how a root is told apart from a repository or nothing at all.

use crate::json::{field, text, text_of, field_of, Json};
use crate::text::{cat, cat3, cat4, chars_lines, chars_of, chars_trim, join, join_strings, lines, owned, string_of, trim, views};
use vstd::prelude::*;

verus! {

/// Names this installer wherever it names itself: the prefix of the lines a
/// run prints, and the command a refusal tells the user to type again.
pub const PROGRAM: &'static str = "tect-installer";

/// The file a root holding a module repository carries instead of a payload.
pub const REPO_FILE: &'static str = "repo.kdl";

/// The document a payload root carries.
pub const RECIPE: &'static str = "install-recipe.json";

/// The partition label a payload partition carries. This label is the whole
/// rule for finding a root the user never named.
pub const LABEL: &'static str = "TECT";

/// Where a labelled partition is mounted: `/run` is RAM on a live system, so
/// reading a payload writes to no disk.
pub const MOUNTPOINT: &'static str = "/run/tect-payload";

/// The root `--from` defaults to: the directory holding the build's own
/// documents, which is the build record's directory.
pub fn media() -> (root: String)
    ensures
        root@ == "/usr/share/tectonic"@,
{
    owned("/usr/share/tectonic")
}

/// A recipe and the fields the installer shows the user before they agree to
/// erase a disk. `image_gb` is the image's size in whole GB where the local
/// store could say.
pub struct Payload {
    pub recipe: String,
    pub image: String,
    pub hostname: String,
    pub filesystem: String,
    /// `grub2` or `systemd`; an empty value reads as `grub2`.
    pub bootloader: String,
    /// The declared UKI trust chain; an empty value takes the existing boot
    /// path.
    pub boot: String,
    pub composefs: bool,
    pub image_gb: Option<u64>,
    pub luks_initramfs: bool,
}

/// The room a separate home must leave for the root: twice the image, which
/// covers the copy that installs and the deployment staged beside it, plus
/// 2 GB of slack, and 10 GB for an image that could not be measured.
pub open spec fn reserve_of(image_gb: Option<u64>) -> int {
    match image_gb {
        Some(gb) => 2 * gb + 2,
        None => 10,
    }
}

/// Reserves twice the image plus 2 GB.
pub fn root_reserve(image_gb: &Option<u64>) -> (gb: u64)
    requires
        reserve_of(*image_gb) <= u64::MAX,
    ensures
        gb == reserve_of(*image_gb),
{
    match image_gb {
        Some(image) => 2 * *image + 2,
        None => 10,
    }
}

/// The image's size in whole GB, rounded up, from the bytes `podman image
/// inspect` reports; nothing where the report is not a number.
pub open spec fn image_gb_text(said: Seq<char>) -> Option<u64> {
    match crate::text::u64_text(trim(said)) {
        Some(bytes) => Some(crate::table::ceil_div(bytes as nat, 1_000_000_000) as u64),
        None => None,
    }
}

/// Reads the image's size in whole GB from what `podman image inspect
/// --format {{.Size}}` printed.
pub fn image_gb_of(said: &str) -> (gb: Option<u64>)
    ensures
        gb == image_gb_text(said@),
{
    let trimmed = chars_trim(chars_of(said).as_slice());
    match crate::text::parse_u64(trimmed.as_slice()) {
        Some(bytes) => Some(crate::table::div_ceil(bytes, 1_000_000_000)),
        None => None,
    }
}

impl Payload {
    /// A payload whose reserve fits in a `u64`.
    pub open spec fn measured(self) -> bool {
        reserve_of(self.image_gb) <= u64::MAX
    }

    /// The whole GB a separate home must leave for the root.
    pub fn reserve_gb(&self) -> (gb: u64)
        requires
            self.measured(),
        ensures
            gb == reserve_of(self.image_gb),
    {
        root_reserve(&self.image_gb)
    }
}

/// Which of the three cases a root is: built bytes with the recipe for them,
/// a repository to build first, or neither. The last two keep the root so the
/// refusal names where the installer looked.
pub enum Found {
    Image(Payload),
    Repo(String),
    Nothing(String),
}

impl Found {
    /// Returns the payload, or states why this root has none.
    pub fn payload(&self) -> (out: Result<&Payload, String>)
        ensures
            match self {
                Found::Image(p) => out == Ok::<&Payload, String>(p),
                Found::Repo(root) => out matches Err(why) && why@ == root@
                    + " is a repository, so there is nothing here to install yet\n\nhelp: `tect build` in it, then `"@
                    + PROGRAM@ + " --from <the built payload>`"@,
                Found::Nothing(root) => out matches Err(why) && why@ == root@ + " holds no "@
                    + RECIPE@ + " and no "@ + REPO_FILE@
                    + ", so it is neither a payload nor a repository"@,
            },
    {
        match self {
            Found::Image(payload) => Ok(payload),
            Found::Repo(root) => {
                let mut why = cat3(
                    root.as_str(),
                    " is a repository, so there is nothing here to install yet\n\nhelp: `tect build` in it, then `",
                    PROGRAM,
                );
                why.append(" --from <the built payload>`");
                Err(why)
            },
            Found::Nothing(root) => {
                let mut why = cat4(root.as_str(), " holds no ", RECIPE, " and no ");
                why.append(REPO_FILE);
                why.append(", so it is neither a payload nor a repository");
                Err(why)
            },
        }
    }
}

/// A payload field that must hold text that is not empty.
pub open spec fn needed(doc: Json, recipe: Seq<char>, key: Seq<char>) -> Result<Seq<char>, Seq<char>> {
    match text_of(doc, key) {
        Some(value) => if value.len() > 0 {
            Ok(value)
        } else {
            Err(recipe + ": no `"@ + key + "`"@)
        },
        None => Err(recipe + ": no `"@ + key + "`"@),
    }
}

/// A payload field that reads as empty where it is missing.
pub open spec fn told(doc: Json, key: Seq<char>) -> Seq<char> {
    match text_of(doc, key) {
        Some(value) => value,
        None => Seq::empty(),
    }
}

fn needed_text(doc: &Json, recipe: &str, key: &str) -> (out: Result<String, String>)
    ensures
        match (out, needed(*doc, recipe@, key@)) {
            (Ok(v), Ok(w)) => v@ == w,
            (Err(e), Err(w)) => e@ == w,
            _ => false,
        },
{
    match text(doc, key) {
        Some(value) => {
            if value.is_empty() {
                Err(cat4(recipe, ": no `", key, "`"))
            } else {
                Ok(owned(value))
            }
        },
        None => Err(cat4(recipe, ": no `", key, "`")),
    }
}

fn told_text(doc: &Json, key: &str) -> (out: String)
    ensures
        out@ == told(*doc, key@),
{
    match text(doc, key) {
        Some(value) => owned(value),
        None => String::new(),
    }
}

fn is_true(value: Option<&Json>) -> (r: bool)
    ensures
        r == (match value {
            Some(v) => *v == Json::Bool(true),
            None => false,
        }),
{
    match value {
        Some(Json::Bool(b)) => *b,
        _ => false,
    }
}

impl Payload {
    /// Reads the payload a recipe document describes: its `image` and
    /// `hostname` must be there, and every other field reads as a default,
    /// so an absent `bootloader` installs as though it used GRUB. `recipe`
    /// is the recipe's path, which the refusals name.
    pub fn of(doc: &Json, recipe: &str, image_gb: Option<u64>) -> (out: Result<Payload, String>)
        ensures
            match needed(*doc, recipe@, "image"@) {
                Err(why) => out matches Err(e) && e@ == why,
                Ok(image) => match needed(*doc, recipe@, "hostname"@) {
                    Err(why) => out matches Err(e) && e@ == why,
                    Ok(hostname) => out matches Ok(p) && p.recipe@ == recipe@ && p.image@ == image
                        && p.hostname@ == hostname && p.filesystem@ == told(*doc, "filesystem"@)
                        && p.bootloader@ == told(*doc, "bootloader"@) && p.boot@ == told(
                        *doc,
                        "boot"@,
                    ) && p.composefs == (field_of(*doc, "composeFsBackend"@) == Some(
                        Json::Bool(true),
                    )) && p.luks_initramfs == (field_of(*doc, "luksInitramfs"@) == Some(
                        Json::Bool(true),
                    )) && p.image_gb == image_gb,
                },
            },
    {
        let image = match needed_text(doc, recipe, "image") {
            Ok(v) => v,
            Err(why) => return Err(why),
        };
        let hostname = match needed_text(doc, recipe, "hostname") {
            Ok(v) => v,
            Err(why) => return Err(why),
        };
        Ok(Payload {
            recipe: owned(recipe),
            image,
            hostname,
            filesystem: told_text(doc, "filesystem"),
            bootloader: told_text(doc, "bootloader"),
            boot: told_text(doc, "boot"),
            composefs: is_true(field(doc, "composeFsBackend")),
            image_gb,
            luks_initramfs: is_true(field(doc, "luksInitramfs")),
        })
    }
}

/// The devices `blkid` listed, one per line: each line trimmed, the empty
/// ones dropped.
pub open spec fn listed_devices(listed: Seq<char>) -> Seq<Seq<char>>
{
    lines(listed).map_values(|l: Seq<char>| trim(l)).filter(|l: Seq<char>| l.len() > 0)
}

/// Reads the devices `blkid` listed.
pub fn labelled(listed: &str) -> (devices: Vec<String>)
    ensures
        devices.deep_view() == listed_devices(listed@),
{
    let chars = chars_of(listed);
    let all = chars_lines(chars.as_slice());
    let ghost trimmed = views(all@).map_values(|l: Seq<char>| trim(l));
    let ghost keep = |l: Seq<char>| l.len() > 0;
    let mut devices: Vec<String> = Vec::new();
    let mut i: usize = 0;
    while i < all.len()
        invariant
            i <= all@.len(),
            views(all@) == lines(chars@),
            chars@ == listed@,
            trimmed == views(all@).map_values(|l: Seq<char>| trim(l)),
            keep == (|l: Seq<char>| l.len() > 0),
            devices.deep_view() == trimmed.take(i as int).filter(keep),
        decreases all.len() - i,
    {
        let line = chars_trim(all[i].as_slice());
        assert(trimmed.take(i + 1).drop_last() =~= trimmed.take(i as int));
        assert(trimmed.take(i + 1).last() == line@);
        proof {
            reveal(Seq::filter);
        }
        if line.len() > 0 {
            let ghost before = devices.deep_view();
            devices.push(string_of(line.as_slice()));
            assert(devices.deep_view() =~= before.push(line@));
        }
        i = i + 1;
    }
    assert(trimmed.take(i as int) =~= trimmed);
    devices
}

/// Where the installer reads its payload from when no flag names one: the
/// media's own payload, the one partition labelled `TECT`, or a refusal when
/// two or more carry the label, because picking wrong erases a disk from the
/// wrong image.
pub enum RootChoice {
    Media,
    Mount(String),
    Refuse(String),
}

/// The refusal for several labelled partitions.
pub open spec fn many_labelled_text(devices: Seq<Seq<char>>) -> Seq<char> {
    crate::text::decimal(devices.len())
        + " partitions are labelled TECT, so which one to install from is not clear: "@
        + join(devices, ", "@) + "\n\nhelp: `"@ + PROGRAM@ + " --from <root>` names one outright"@
}

/// Decides where the payload comes from, given the devices carrying the
/// label.
fn root_choice(devices: &Vec<String>) -> (choice: RootChoice)
    ensures
        devices@.len() == 0 ==> choice is Media,
        devices@.len() == 1 ==> (choice matches RootChoice::Mount(d) && d@ == devices@[0]@),
        devices@.len() > 1 ==> (choice matches RootChoice::Refuse(why) && why@ == many_labelled_text(
            devices.deep_view(),
        )),
{
    if devices.len() == 0 {
        RootChoice::Media
    } else if devices.len() == 1 {
        RootChoice::Mount(devices[0].clone())
    } else {
        let mut why = cat(crate::text::decimal_usize(devices.len()).as_str(), " partitions are labelled TECT, so which one to install from is not clear: ");
        why.append(join_strings(devices, ", ").as_str());
        why.append("\n\nhelp: `");
        why.append(PROGRAM);
        why.append(" --from <root>` names one outright");
        RootChoice::Refuse(why)
    }
}

/// Finds the root to classify when no `--from` named one, from what `blkid`
/// listed for the `TECT` label. A labelled partition overrides the media's
/// own payload, and two of them refuse, naming both.
pub fn root(listed: &str) -> (choice: RootChoice)
    ensures
        listed_devices(listed@).len() == 0 ==> choice is Media,
        listed_devices(listed@).len() == 1 ==> (choice matches RootChoice::Mount(d) && d@ == listed_devices(listed@)[0]),
        listed_devices(listed@).len() > 1 ==> (choice matches RootChoice::Refuse(why) && why@ == many_labelled_text(
            listed_devices(listed@),
        )),
{
    let devices = labelled(listed);
    assert(devices@.len() == devices.deep_view().len());
    if devices.len() == 1 {
        assert(devices.deep_view()[0] == devices@[0]@);
    }
    root_choice(&devices)
}

} // verus!
