//! The install recipe a payload carries: every field this installer accepts,
//! and the refusal for each field it does not.

use crate::json::{field, field_of, Json};
use crate::text::{cat, cat3, cat4, debug_str, owned, quoted, str_eq};
use vstd::prelude::*;

verus! {

/// Every recipe field this installer accepts; the installer refuses a field
/// outside this list before it changes the disk.
pub struct InstallRecipe {
    pub image: String,
    pub target_imgref: String,
    pub composefs: bool,
    pub generic: bool,
    pub bootloader: String,
    pub filesystem: String,
    pub hostname: String,
    pub groups: Vec<String>,
    pub stores: Vec<String>,
    pub boot: String,
    pub luks_initramfs: bool,
}

/// A recipe's fields as plain values.
pub struct RecipeView {
    pub image: Seq<char>,
    pub target_imgref: Seq<char>,
    pub composefs: bool,
    pub generic: bool,
    pub bootloader: Seq<char>,
    pub filesystem: Seq<char>,
    pub hostname: Seq<char>,
    pub groups: Seq<Seq<char>>,
    pub stores: Seq<Seq<char>>,
    pub boot: Seq<char>,
    pub luks_initramfs: bool,
}

impl View for InstallRecipe {
    type V = RecipeView;

    open spec fn view(&self) -> RecipeView {
        RecipeView {
            image: self.image@,
            target_imgref: self.target_imgref@,
            composefs: self.composefs,
            generic: self.generic,
            bootloader: self.bootloader@,
            filesystem: self.filesystem@,
            hostname: self.hostname@,
            groups: self.groups.deep_view(),
            stores: self.stores.deep_view(),
            boot: self.boot@,
            luks_initramfs: self.luks_initramfs,
        }
    }
}

/// A refusal that names the recipe it is about.
pub open spec fn refused(p: Seq<char>, why: Seq<char>) -> Seq<char> {
    p + ": "@ + why
}

/// The top-level fields a recipe may carry.
pub open spec fn top_field(name: Seq<char>) -> bool {
    ||| name == "image"@
    ||| name == "targetImgref"@
    ||| name == "composeFsBackend"@
    ||| name == "genericImage"@
    ||| name == "bootloader"@
    ||| name == "filesystem"@
    ||| name == "hostname"@
    ||| name == "user"@
    ||| name == "additionalImageStores"@
    ||| name == "boot"@
    ||| name == "luksInitramfs"@
}

/// The fields a recipe's `user` object may carry.
pub open spec fn user_field(name: Seq<char>) -> bool {
    name == "groups"@
}

pub open spec fn seen_before(fields: Seq<(String, Json)>, at: int, name: Seq<char>) -> bool {
    exists|j: int| 0 <= j < at && (#[trigger] fields[j]).0@ == name
}

/// The refusal for the first field, in document order, that is not allowed
/// or that repeats an earlier one. `prefix` names the object it sits in.
pub open spec fn first_problem(
    fields: Seq<(String, Json)>,
    at: int,
    top: bool,
    p: Seq<char>,
    prefix: Seq<char>,
) -> Option<Seq<char>>
    decreases fields.len() - at,
{
    if at < 0 || at >= fields.len() {
        None
    } else {
        let name = fields[at].0@;
        if !(if top { top_field(name) } else { user_field(name) }) {
            Some(p + ": field `"@ + prefix + name + "` is not implemented"@)
        } else if seen_before(fields, at, name) {
            Some(p + ": field `"@ + prefix + name + "` occurs twice"@)
        } else {
            first_problem(fields, at + 1, top, p, prefix)
        }
    }
}

/// A field that must hold text where it is there at all.
pub open spec fn opt_text(doc: Json, p: Seq<char>, key: Seq<char>) -> Result<Option<Seq<char>>, Seq<char>> {
    match field_of(doc, key) {
        None => Ok(None),
        Some(Json::Text(value)) => Ok(Some(value@)),
        Some(_) => Err(p + ": field `"@ + key + "` is not a string"@),
    }
}

/// A field that must hold text that is not empty.
pub open spec fn req_text(doc: Json, p: Seq<char>, key: Seq<char>) -> Result<Seq<char>, Seq<char>> {
    match opt_text(doc, p, key) {
        Err(why) => Err(why),
        Ok(Some(value)) => if value.len() > 0 {
            Ok(value)
        } else {
            Err(p + ": no `"@ + key + "`"@)
        },
        Ok(None) => Err(p + ": no `"@ + key + "`"@),
    }
}

/// A field that must hold `true` or `false` where it is there at all.
pub open spec fn opt_bool(doc: Json, p: Seq<char>, key: Seq<char>) -> Result<Option<bool>, Seq<char>> {
    match field_of(doc, key) {
        None => Ok(None),
        Some(Json::Bool(value)) => Ok(Some(value)),
        Some(_) => Err(p + ": field `"@ + key + "` is not true or false"@),
    }
}

/// The texts of a list whose every item is text; `None` where one is not.
pub open spec fn texts_of(items: Seq<Json>) -> Option<Seq<Seq<char>>>
    decreases items.len(),
{
    if items.len() == 0 {
        Some(Seq::empty())
    } else {
        match (texts_of(items.drop_last()), items.last()) {
            (Some(rest), Json::Text(value)) => Some(rest.push(value@)),
            _ => None,
        }
    }
}

/// A field that must hold a list of texts where it is there at all.
pub open spec fn strings_of(value: Option<Json>, p: Seq<char>, key: Seq<char>) -> Result<Seq<Seq<char>>, Seq<char>> {
    match value {
        None => Ok(Seq::empty()),
        Some(Json::Array(items)) => match texts_of(items@) {
            Some(texts) => Ok(texts),
            None => Err(p + ": field `"@ + key + "` contains a value that is not a string"@),
        },
        Some(_) => Err(p + ": field `"@ + key + "` is not a list"@),
    }
}

/// The groups a recipe's `user` object names.
pub open spec fn groups_of(doc: Json, p: Seq<char>) -> Result<Seq<Seq<char>>, Seq<char>> {
    match field_of(doc, "user"@) {
        None => Ok(Seq::empty()),
        Some(Json::Object(user)) => match first_problem(user@, 0, false, p, "user."@) {
            Some(why) => Err(why),
            None => strings_of(field_of(Json::Object(user), "groups"@), p, "groups"@),
        },
        Some(_) => Err(refused(p, "field `user` is not an object"@)),
    }
}

pub open spec fn or_false(value: Option<bool>) -> bool {
    match value {
        Some(b) => b,
        None => false,
    }
}

pub open spec fn or_empty(value: Option<Seq<char>>) -> Seq<char> {
    match value {
        Some(s) => s,
        None => Seq::empty(),
    }
}

/// The fields after the list of stores, in the order they are read.
pub open spec fn recipe_tail(
    doc: Json,
    p: Seq<char>,
    image: Seq<char>,
    target: Seq<char>,
    bootloader: Seq<char>,
    groups: Seq<Seq<char>>,
    stores: Seq<Seq<char>>,
) -> Result<RecipeView, Seq<char>> {
    match opt_bool(doc, p, "composeFsBackend"@) {
        Err(why) => Err(why),
        Ok(composefs) => match req_text(doc, p, "filesystem"@) {
            Err(why) => Err(why),
            Ok(filesystem) => if or_false(composefs) && filesystem != "ext4"@ && filesystem
                != "btrfs"@ {
                Err(refused(p, "`composeFsBackend` needs fs-verity, which `filesystem` "@) + debug_str(
                    filesystem,
                ) + " has not got"@)
            } else {
                match opt_bool(doc, p, "genericImage"@) {
                    Err(why) => Err(why),
                    Ok(generic) => match req_text(doc, p, "hostname"@) {
                        Err(why) => Err(why),
                        Ok(hostname) => match opt_text(doc, p, "boot"@) {
                            Err(why) => Err(why),
                            Ok(boot) => match opt_bool(doc, p, "luksInitramfs"@) {
                                Err(why) => Err(why),
                                Ok(luks) => Ok(
                                    RecipeView {
                                        image,
                                        target_imgref: target,
                                        composefs: or_false(composefs),
                                        generic: or_false(generic),
                                        bootloader,
                                        filesystem,
                                        hostname,
                                        groups,
                                        stores,
                                        boot: or_empty(boot),
                                        luks_initramfs: or_false(luks),
                                    },
                                ),
                            },
                        },
                    },
                }
            },
        },
    }
}

/// What a recipe document reads as, or the first refusal, for a recipe the
/// messages name as `p`.
pub open spec fn recipe_of(doc: Json, p: Seq<char>) -> Result<RecipeView, Seq<char>> {
    match doc {
        Json::Object(fields) => match first_problem(fields@, 0, true, p, Seq::empty()) {
            Some(why) => Err(why),
            None => match req_text(doc, p, "image"@) {
                Err(why) => Err(why),
                Ok(image) => match opt_text(doc, p, "targetImgref"@) {
                    Err(why) => Err(why),
                    Ok(told) => if told == Some(Seq::<char>::empty()) {
                        Err(refused(p, "no `targetImgref`"@))
                    } else {
                        let target = match told {
                            Some(value) => value,
                            None => image,
                        };
                        match req_text(doc, p, "bootloader"@) {
                            Err(why) => Err(why),
                            Ok(bootloader) => if bootloader != "grub2"@ && bootloader
                                != "systemd"@ {
                                Err(refused(p, "the recipe's `bootloader` is "@ + debug_str(
                                    bootloader,
                                ) + "; the installer lays out a disk for `grub2` or `systemd`"@))
                            } else {
                                match groups_of(doc, p) {
                                    Err(why) => Err(why),
                                    Ok(groups) => match strings_of(
                                        field_of(doc, "additionalImageStores"@),
                                        p,
                                        "additionalImageStores"@,
                                    ) {
                                        Err(why) => Err(why),
                                        Ok(stores) => if stores.len() == 0 {
                                            Err(refused(p, "no `additionalImageStores`, and every install reads the media store"@))
                                        } else {
                                            recipe_tail(
                                                doc,
                                                p,
                                                image,
                                                target,
                                                bootloader,
                                                groups,
                                                stores,
                                            )
                                        },
                                    },
                                }
                            },
                        }
                    },
                },
            },
        },
        _ => Err(refused(p, "not an object"@)),
    }
}

fn is_top_field(name: &str) -> (r: bool)
    ensures
        r == top_field(name@),
{
    str_eq(name, "image") || str_eq(name, "targetImgref") || str_eq(name, "composeFsBackend")
        || str_eq(name, "genericImage") || str_eq(name, "bootloader") || str_eq(
        name,
        "filesystem",
    ) || str_eq(name, "hostname") || str_eq(name, "user") || str_eq(
        name,
        "additionalImageStores",
    ) || str_eq(name, "boot") || str_eq(name, "luksInitramfs")
}

/// `p`, a colon and what is wrong with it.
fn refusal(p: &str, why: &str) -> (out: String)
    ensures
        out@ == refused(p@, why@),
{
    cat3(p, ": ", why)
}

/// `p: field `<prefix><name>` <what>`.
fn field_refusal(p: &str, prefix: &str, name: &str, what: &str) -> (out: String)
    ensures
        out@ == p@ + ": field `"@ + prefix@ + name@ + what@,
{
    let mut out = cat4(p, ": field `", prefix, name);
    out.append(what);
    out
}

/// Refuses the first field that is not allowed or that repeats an earlier
/// one.
fn check_fields(fields: &Vec<(String, Json)>, top: bool, p: &str, prefix: &str) -> (out: Option<String>)
    ensures
        match out {
            Some(why) => first_problem(fields@, 0, top, p@, prefix@) == Some(why@),
            None => first_problem(fields@, 0, top, p@, prefix@) is None,
        },
{
    let mut at: usize = 0;
    while at < fields.len()
        invariant
            at <= fields@.len(),
            first_problem(fields@, 0, top, p@, prefix@) == first_problem(fields@, at as int, top, p@, prefix@),
        decreases fields.len() - at,
    {
        let name = fields[at].0.as_str();
        let allowed = if top { is_top_field(name) } else { str_eq(name, "groups") };
        if !allowed {
            return Some(field_refusal(p, prefix, name, "` is not implemented"));
        }
        let mut j: usize = 0;
        while j < at
            invariant
                j <= at < fields@.len(),
                name@ == fields@[at as int].0@,
                first_problem(fields@, 0, top, p@, prefix@) == first_problem(fields@, at as int, top, p@, prefix@),
                (if top { top_field(name@) } else { user_field(name@) }),
                forall|k: int| 0 <= k < j ==> (#[trigger] fields@[k]).0@ != name@,
            decreases at - j,
        {
            if str_eq(fields[j].0.as_str(), name) {
                assert(seen_before(fields@, at as int, name@));
                return Some(field_refusal(p, prefix, name, "` occurs twice"));
            }
            j = j + 1;
        }
        at = at + 1;
    }
    None
}

/// `p: field `<key><what>`.
fn key_refusal(p: &str, key: &str, what: &str) -> (out: String)
    ensures
        out@ == p@ + ": field `"@ + key@ + what@,
{
    cat4(p, ": field `", key, what)
}

fn opt_text_exec(doc: &Json, p: &str, key: &str) -> (out: Result<Option<String>, String>)
    ensures
        match (out, opt_text(*doc, p@, key@)) {
            (Ok(Some(v)), Ok(Some(w))) => v@ == w,
            (Ok(None), Ok(None)) => true,
            (Err(e), Err(w)) => e@ == w,
            _ => false,
        },
{
    match field(doc, key) {
        None => Ok(None),
        Some(Json::Text(value)) => Ok(Some(value.clone())),
        Some(_) => Err(key_refusal(p, key, "` is not a string")),
    }
}

fn req_text_exec(doc: &Json, p: &str, key: &str) -> (out: Result<String, String>)
    ensures
        match (out, req_text(*doc, p@, key@)) {
            (Ok(v), Ok(w)) => v@ == w,
            (Err(e), Err(w)) => e@ == w,
            _ => false,
        },
{
    match opt_text_exec(doc, p, key) {
        Err(why) => Err(why),
        Ok(Some(value)) => {
            if value.as_str().is_empty() {
                Err(cat4(p, ": no `", key, "`"))
            } else {
                Ok(value)
            }
        },
        Ok(None) => Err(cat4(p, ": no `", key, "`")),
    }
}

fn opt_bool_exec(doc: &Json, p: &str, key: &str) -> (out: Result<Option<bool>, String>)
    ensures
        match (out, opt_bool(*doc, p@, key@)) {
            (Ok(v), Ok(w)) => v == w,
            (Err(e), Err(w)) => e@ == w,
            _ => false,
        },
{
    match field(doc, key) {
        None => Ok(None),
        Some(Json::Bool(value)) => Ok(Some(*value)),
        Some(_) => Err(key_refusal(p, key, "` is not true or false")),
    }
}

fn strings_exec(value: Option<&Json>, p: &str, key: &str) -> (out: Result<Vec<String>, String>)
    ensures
        match (out, strings_of(
            match value {
                Some(v) => Some(*v),
                None => None,
            },
            p@,
            key@,
        )) {
            (Ok(v), Ok(w)) => v.deep_view() == w,
            (Err(e), Err(w)) => e@ == w,
            _ => false,
        },
{
    match value {
        None => {
            let out: Vec<String> = Vec::new();
            assert(out.deep_view() =~= Seq::<Seq<char>>::empty());
            Ok(out)
        },
        Some(Json::Array(items)) => {
            let mut out: Vec<String> = Vec::new();
            let mut i: usize = 0;
            while i < items.len()
                invariant
                    i <= items@.len(),
                    texts_of(items@.take(i as int)) == Some(out.deep_view()),
                    match value {
                        Some(v) => *v == Json::Array(*items),
                        None => false,
                    },
                decreases items.len() - i,
            {
                assert(items@.take(i + 1).drop_last() =~= items@.take(i as int));
                assert(items@.take(i + 1).last() == items@[i as int]);
                match &items[i] {
                    Json::Text(text) => {
                        out.push(text.clone());
                        assert(out.deep_view() =~= out.deep_view().drop_last().push(text@));
                    },
                    _ => {
                        proof {
                            lemma_texts_of_prefix(items@, i as int + 1);
                        }
                        return Err(key_refusal(p, key, "` contains a value that is not a string"));
                    },
                }
                i = i + 1;
            }
            assert(items@.take(i as int) =~= items@);
            Ok(out)
        },
        Some(_) => Err(key_refusal(p, key, "` is not a list")),
    }
}

/// A list with an item that is not text somewhere in a prefix has no texts.
proof fn lemma_texts_of_prefix(items: Seq<Json>, n: int)
    requires
        0 <= n <= items.len(),
        texts_of(items.take(n)) is None,
    ensures
        texts_of(items) is None,
    decreases items.len() - n,
{
    if n < items.len() {
        assert(items.take(n + 1).drop_last() =~= items.take(n));
        lemma_texts_of_prefix(items, n + 1);
    } else {
        assert(items.take(n) =~= items);
    }
}

fn groups_exec(doc: &Json, p: &str) -> (out: Result<Vec<String>, String>)
    ensures
        match (out, groups_of(*doc, p@)) {
            (Ok(v), Ok(w)) => v.deep_view() == w,
            (Err(e), Err(w)) => e@ == w,
            _ => false,
        },
{
    match field(doc, "user") {
        None => Ok(Vec::new()),
        Some(user) => match user {
            Json::Object(fields) => {
                match check_fields(fields, false, p, "user.") {
                    Some(why) => Err(why),
                    None => strings_exec(field(user, "groups"), p, "groups"),
                }
            },
            _ => Err(refusal(p, "field `user` is not an object")),
        },
    }
}

impl InstallRecipe {
    /// Reads a recipe document, refusing every field this installer does not
    /// implement, a repeated field, a field of the wrong kind and a missing
    /// required one. `p` is how the refusals name the recipe.
    pub fn of(doc: &Json, p: &str) -> (out: Result<InstallRecipe, String>)
        ensures
            match (out, recipe_of(*doc, p@)) {
                (Ok(recipe), Ok(view)) => recipe@ == view,
                (Err(why), Err(said)) => why@ == said,
                _ => false,
            },
    {
        let fields = match doc {
            Json::Object(fields) => fields,
            _ => return Err(refusal(p, "not an object")),
        };
        proof {
            reveal_strlit("");
        }
        assert(""@ =~= Seq::<char>::empty());
        if let Some(why) = check_fields(fields, true, p, "") {
            return Err(why);
        }
        let image = match req_text_exec(doc, p, "image") {
            Ok(v) => v,
            Err(why) => return Err(why),
        };
        let target_imgref = match opt_text_exec(doc, p, "targetImgref") {
            Err(why) => return Err(why),
            Ok(Some(value)) => {
                if value.as_str().is_empty() {
                    assert(value@ =~= Seq::<char>::empty());
                    return Err(refusal(p, "no `targetImgref`"));
                }
                value
            },
            Ok(None) => image.clone(),
        };
        let bootloader = match req_text_exec(doc, p, "bootloader") {
            Ok(v) => v,
            Err(why) => return Err(why),
        };
        if !str_eq(bootloader.as_str(), "grub2") && !str_eq(bootloader.as_str(), "systemd") {
            let said = crate::copy::unknown_bootloader(bootloader.as_str());
            return Err(refusal(p, said.as_str()));
        }
        let groups = match groups_exec(doc, p) {
            Ok(v) => v,
            Err(why) => return Err(why),
        };
        let stores = match strings_exec(field(doc, "additionalImageStores"), p, "additionalImageStores") {
            Ok(v) => v,
            Err(why) => return Err(why),
        };
        if stores.len() == 0 {
            return Err(refusal(p, "no `additionalImageStores`, and every install reads the media store"));
        }
        let composefs = match opt_bool_exec(doc, p, "composeFsBackend") {
            Ok(v) => match v {
                Some(b) => b,
                None => false,
            },
            Err(why) => return Err(why),
        };
        let filesystem = match req_text_exec(doc, p, "filesystem") {
            Ok(v) => v,
            Err(why) => return Err(why),
        };
        if composefs && !str_eq(filesystem.as_str(), "ext4") && !str_eq(filesystem.as_str(), "btrfs") {
            let mut why = refusal(p, "`composeFsBackend` needs fs-verity, which `filesystem` ");
            why.append(quoted(filesystem.as_str()).as_str());
            why.append(" has not got");
            return Err(why);
        }
        let generic = match opt_bool_exec(doc, p, "genericImage") {
            Ok(v) => match v {
                Some(b) => b,
                None => false,
            },
            Err(why) => return Err(why),
        };
        let hostname = match req_text_exec(doc, p, "hostname") {
            Ok(v) => v,
            Err(why) => return Err(why),
        };
        let boot = match opt_text_exec(doc, p, "boot") {
            Ok(v) => match v {
                Some(b) => b,
                None => String::new(),
            },
            Err(why) => return Err(why),
        };
        let luks_initramfs = match opt_bool_exec(doc, p, "luksInitramfs") {
            Ok(v) => match v {
                Some(b) => b,
                None => false,
            },
            Err(why) => return Err(why),
        };
        Ok(InstallRecipe {
            image,
            target_imgref,
            composefs,
            generic,
            bootloader,
            filesystem,
            hostname,
            groups,
            stores,
            boot,
            luks_initramfs,
        })
    }
}

/// A recipe that reads follows the image it names, and the reference bootc
/// is told to track is the recipe's own `targetImgref` where the recipe
/// gives one; only a recipe with no such field tracks the image itself. A
/// field given empty is refused rather than read as absent.
pub proof fn lemma_recipe_target(doc: Json, p: Seq<char>)
    ensures
        recipe_of(doc, p) matches Ok(v) ==> {
            &&& field_of(doc, "image"@) matches Some(Json::Text(i)) && v.image == i@ && i@.len() > 0
            &&& field_of(doc, "targetImgref"@) matches Some(Json::Text(t)) ==> v.target_imgref == t@ && t@.len() > 0
            &&& field_of(doc, "targetImgref"@) is None ==> v.target_imgref == v.image
        },
{
    if let Ok(v) = recipe_of(doc, p) {
        let image = req_text(doc, p, "image"@)->Ok_0;
        let told = opt_text(doc, p, "targetImgref"@)->Ok_0;
        let target = match told {
            Some(value) => value,
            None => image,
        };
        let bootloader = req_text(doc, p, "bootloader"@)->Ok_0;
        let groups = groups_of(doc, p)->Ok_0;
        let stores = strings_of(field_of(doc, "additionalImageStores"@), p, "additionalImageStores"@)->Ok_0;
        assert(recipe_tail(doc, p, image, target, bootloader, groups, stores) == Ok::<RecipeView, Seq<char>>(v));
        assert(v.image == image && v.target_imgref == target);
        assert(image.len() > 0);
        if let Some(t) = told {
            if t.len() == 0 {
                assert(t =~= Seq::<char>::empty());
            }
        }
    }
}

} // verus!
