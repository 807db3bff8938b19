use installer::json::Json;
use installer::recipe::InstallRecipe;

fn text(s: &str) -> Json {
    Json::Text(s.to_string())
}

fn list(items: &[&str]) -> Json {
    Json::Array(items.iter().map(|s| text(s)).collect())
}

fn fields(pairs: Vec<(&str, Json)>) -> Json {
    Json::Object(pairs.into_iter().map(|(k, v)| (k.to_string(), v)).collect())
}

fn base() -> Vec<(&'static str, Json)> {
    vec![
        ("image", text("quay.io/t/os:1")),
        ("bootloader", text("systemd")),
        ("filesystem", text("btrfs")),
        ("hostname", text("box")),
        ("additionalImageStores", list(&["/run/store"])),
    ]
}

fn with(extra: Vec<(&'static str, Json)>) -> Json {
    let mut all = base();
    all.extend(extra);
    fields(all)
}

fn refusal(doc: &Json) -> String {
    match InstallRecipe::of(doc, "r.json") {
        Ok(_) => panic!("the recipe was accepted"),
        Err(why) => why,
    }
}

#[test]
fn a_recipe_reads_with_its_defaults() {
    let doc = with(vec![
        ("composeFsBackend", Json::Bool(true)),
        ("user", fields(vec![("groups", list(&["wheel"]))])),
    ]);
    let recipe = InstallRecipe::of(&doc, "r.json").unwrap_or_else(|w| panic!("{w}"));
    assert_eq!(recipe.image, "quay.io/t/os:1");
    assert_eq!(recipe.target_imgref, "quay.io/t/os:1");
    assert!(recipe.composefs && !recipe.generic && !recipe.luks_initramfs);
    assert_eq!(recipe.groups, vec!["wheel".to_string()]);
    assert_eq!(recipe.stores, vec!["/run/store".to_string()]);
    assert_eq!(recipe.boot, "");
}

/// A field the installer does not know, or one written twice, refuses the
/// recipe instead of being dropped.
#[test]
fn an_unknown_or_repeated_field_is_refused() {
    assert_eq!(refusal(&with(vec![("color", text("red"))])), "r.json: field `color` is not implemented");
    assert_eq!(refusal(&with(vec![("image", text("again"))])), "r.json: field `image` occurs twice");
    assert_eq!(
        refusal(&with(vec![("user", fields(vec![("shell", text("zsh"))]))])),
        "r.json: field `user.shell` is not implemented"
    );
    assert_eq!(refusal(&with(vec![("user", text("ada"))])), "r.json: field `user` is not an object");
    assert_eq!(refusal(&Json::Array(Vec::new())), "r.json: not an object");
}

#[test]
fn each_field_has_its_type() {
    let mut doc = base();
    doc[0] = ("image", Json::Number(1));
    assert_eq!(refusal(&fields(doc)), "r.json: field `image` is not a string");
    assert_eq!(
        refusal(&with(vec![("genericImage", text("yes"))])),
        "r.json: field `genericImage` is not true or false"
    );
    let mut doc = base();
    doc[4] = ("additionalImageStores", Json::Array(vec![Json::Number(2)]));
    assert_eq!(
        refusal(&fields(doc)),
        "r.json: field `additionalImageStores` contains a value that is not a string"
    );
}

#[test]
fn a_recipe_names_what_the_install_needs() {
    let mut doc = base();
    doc[4] = ("additionalImageStores", list(&[]));
    assert_eq!(
        refusal(&fields(doc)),
        "r.json: no `additionalImageStores`, and every install reads the media store"
    );
    let mut doc = base();
    doc[1] = ("bootloader", text("lilo"));
    assert_eq!(
        refusal(&fields(doc)),
        "r.json: the recipe's `bootloader` is \"lilo\"; the installer lays out a disk for `grub2` or `systemd`"
    );
    assert_eq!(refusal(&with(vec![("targetImgref", text(""))])), "r.json: no `targetImgref`");
    let mut doc = base();
    doc.remove(3);
    assert_eq!(refusal(&fields(doc)), "r.json: no `hostname`");
}

/// The composefs backend stores its objects with fs-verity, which only ext4
/// and btrfs carry.
#[test]
fn composefs_needs_a_verity_filesystem() {
    let mut doc = base();
    doc[2] = ("filesystem", text("xfs"));
    doc.push(("composeFsBackend", Json::Bool(true)));
    assert_eq!(
        refusal(&fields(doc)),
        "r.json: `composeFsBackend` needs fs-verity, which `filesystem` \"xfs\" has not got"
    );
}
