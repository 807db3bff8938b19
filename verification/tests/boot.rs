use installer::boot::{
    add_boot_arg, boot_arg_named, boot_root, chain_of, loader_conf, named_in_entries, rendered,
    renderer_line, Chain,
};

const ENTRY: &str = "title OS\nlinux /vmlinuz\noptions root=UUID=1 rw\n";

/// The argument lands on the options line alone, and only once.
#[test]
fn a_boot_argument_goes_on_the_options_line() {
    let (text, changed) = add_boot_arg(ENTRY, "rd.luks.name=u=root");
    assert!(changed);
    assert_eq!(text, "title OS\nlinux /vmlinuz\noptions root=UUID=1 rw rd.luks.name=u=root\n");
    assert!(boot_arg_named(&text, "rd.luks.name=u=root"));
    assert!(!boot_arg_named(ENTRY, "rd.luks.name=u=root"));
}

/// An entry that already carries the argument comes back as it was, which
/// is what a retried install sees.
#[test]
fn an_entry_that_names_the_argument_is_unchanged() {
    let (once, _) = add_boot_arg(ENTRY, "quiet");
    let (twice, changed) = add_boot_arg(&once, "quiet");
    assert!(!changed);
    assert_eq!(twice, once);
    // An entry with no options line is not changed either, and names nothing.
    let (text, changed) = add_boot_arg("title OS\nlinux /vmlinuz", "quiet");
    assert!(!changed);
    assert_eq!(text, "title OS\nlinux /vmlinuz");
    assert!(!boot_arg_named(&text, "quiet"));
}

#[test]
fn the_loader_forces_enrolment_once() {
    assert_eq!(
        loader_conf("timeout 3\n  secure-boot-enroll manual\n"),
        "timeout 3\nsecure-boot-enroll force\n"
    );
    assert_eq!(loader_conf(""), "secure-boot-enroll force\n");
}

#[test]
fn a_chain_is_one_of_the_two_the_installer_places() {
    assert_eq!(chain_of("uki-db"), Ok(Chain::Db));
    assert_eq!(chain_of("uki-shim"), Ok(Chain::Shim));
    assert_eq!(chain_of("uki"), Err("unknown boot chain `uki`".to_string()));
}

#[test]
fn the_boot_files_sit_at_the_top_or_under_boot() {
    assert_eq!(boot_root(true, true), Some("/target"));
    assert_eq!(boot_root(false, true), Some("/target/boot"));
    assert_eq!(boot_root(false, false), None);
}

#[test]
fn the_renderer_is_optional_in_an_image() {
    assert_eq!(
        renderer_line("/target"),
        "test -x /usr/libexec/grub-menu-from-bls || exit 3; exec /usr/libexec/grub-menu-from-bls /target"
    );
    assert_eq!(rendered(Some(0), "img", ""), Ok(true));
    assert_eq!(rendered(Some(3), "img", ""), Ok(false));
    assert_eq!(
        rendered(Some(1), "img", "boom"),
        Err("/usr/libexec/grub-menu-from-bls in img: boom".to_string())
    );
}

/// A partition with no entry naming the container refuses the install,
/// because the machine would not find its root.
#[test]
fn no_named_entry_refuses() {
    assert_eq!(named_in_entries(2, 1, "/dev/vda1", "root"), Ok(1));
    assert_eq!(
        named_in_entries(0, 0, "/dev/vda1", "root"),
        Err("/dev/vda1 carries no boot entry naming the root container, so the machine would not find its root".to_string())
    );
}

/// A second call changes nothing, CR LF entries included, and the entry
/// names the argument where it has an options line.
#[test]
fn a_second_boot_argument_changes_nothing() {
    for raw in ["title OS\r\noptions rw\r\n", "options a\noptions b quiet\nlinux /k", "title OS\n"] {
        let (once, _) = add_boot_arg(raw, "quiet");
        let (twice, changed) = add_boot_arg(&once, "quiet");
        assert_eq!(twice, once);
        assert!(!changed);
        assert_eq!(boot_arg_named(&once, "quiet"), raw.lines().any(|l| l.starts_with("options ")));
    }
}
