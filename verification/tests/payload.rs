use installer::json::Json;
use installer::payload::{root, Found, Payload, RootChoice};

fn doc(fields: &[(&str, Json)]) -> Json {
    Json::Object(fields.iter().map(|(k, v)| (k.to_string(), clone(v))).collect())
}

fn clone(v: &Json) -> Json {
    match v {
        Json::Null => Json::Null,
        Json::Bool(b) => Json::Bool(*b),
        Json::Number(n) => Json::Number(*n),
        Json::Text(t) => Json::Text(t.clone()),
        Json::Array(items) => Json::Array(items.iter().map(clone).collect()),
        Json::Object(fields) => {
            Json::Object(fields.iter().map(|(k, v)| (k.clone(), clone(v))).collect())
        }
    }
}

fn text(s: &str) -> Json {
    Json::Text(s.to_string())
}

/// `image` and `hostname` must be there; every other field reads as a
/// default.
#[test]
fn a_recipe_names_its_image_and_hostname() {
    let recipe = doc(&[
        ("image", text("quay.io/t/os:1")),
        ("hostname", text("box")),
        ("filesystem", text("xfs")),
        ("composeFsBackend", Json::Bool(true)),
    ]);
    let payload = Payload::of(&recipe, "/r/install-recipe.json", Some(4)).unwrap_or_else(|w| panic!("{w}"));
    assert_eq!(payload.image, "quay.io/t/os:1");
    assert_eq!(payload.hostname, "box");
    assert_eq!(payload.filesystem, "xfs");
    assert_eq!(payload.bootloader, "");
    assert!(payload.composefs && !payload.luks_initramfs);
    assert_eq!(payload.reserve_gb(), 10);
    let unmeasured = Payload::of(&recipe, "/r/install-recipe.json", None).unwrap_or_else(|w| panic!("{w}"));
    assert_eq!(unmeasured.reserve_gb(), 10);
    let big = Payload::of(&recipe, "/r/install-recipe.json", Some(20)).unwrap_or_else(|w| panic!("{w}"));
    assert_eq!(big.reserve_gb(), 42);
}

#[test]
fn a_recipe_without_its_image_or_hostname_is_refused() {
    let no_host = doc(&[("image", text("quay.io/t/os:1"))]);
    assert_eq!(
        Payload::of(&no_host, "/r/install-recipe.json", None).err(),
        Some("/r/install-recipe.json: no `hostname`".to_string())
    );
    let empty_image = doc(&[("image", text("")), ("hostname", text("box"))]);
    assert_eq!(
        Payload::of(&empty_image, "/r/install-recipe.json", None).err(),
        Some("/r/install-recipe.json: no `image`".to_string())
    );
    // A value that is not text is no image either.
    let number = doc(&[("image", Json::Number(3)), ("hostname", text("box"))]);
    assert!(Payload::of(&number, "/r/install-recipe.json", None).is_err());
}

/// The one labelled partition overrides the media's own payload, and two
/// refuse, naming both.
#[test]
fn the_label_picks_the_root_unless_two_carry_it() {
    assert!(matches!(root(""), RootChoice::Media));
    assert!(matches!(root("\n  \n"), RootChoice::Media));
    match root("  /dev/sdb1 \n") {
        RootChoice::Mount(device) => assert_eq!(device, "/dev/sdb1"),
        _ => panic!("one labelled partition is the root"),
    }
    match root("/dev/sdb1\n/dev/sdc1\n") {
        RootChoice::Refuse(why) => assert_eq!(
            why,
            "2 partitions are labelled TECT, so which one to install from is not clear: \
             /dev/sdb1, /dev/sdc1\n\nhelp: `tect-installer --from <root>` names one outright"
        ),
        _ => panic!("two labelled partitions refuse"),
    }
}

#[test]
fn a_root_without_a_payload_says_what_it_is() {
    assert_eq!(
        Found::Repo("/src/os".to_string()).payload().err(),
        Some("/src/os is a repository, so there is nothing here to install yet\n\nhelp: `tect build` in it, then `tect-installer --from <the built payload>`".to_string())
    );
    assert_eq!(
        Found::Nothing("/mnt".to_string()).payload().err(),
        Some("/mnt holds no install-recipe.json and no repo.kdl, so it is neither a payload nor a repository".to_string())
    );
}
