use installer::account::{crypt_answer, groups_present, join_path, paths_to_label, portable_name, tmpfiles, useradd_args};

/// The names `useradd` takes everywhere: a lowercase letter or `_` first,
/// then lowercase letters, digits, `_` and `-`, at most 32 bytes.
#[test]
fn a_portable_name_is_what_useradd_takes_everywhere() {
    assert!(portable_name("ada"));
    assert!(portable_name("_svc-1"));
    assert!(!portable_name("Ada"));
    assert!(!portable_name("1ada"));
    assert!(!portable_name(""));
    assert!(!portable_name("ada.l"));
    assert!(portable_name(&"a".repeat(32)));
    assert!(!portable_name(&"a".repeat(33)));
}

/// A group the target lacks is dropped, because `useradd` would refuse the
/// whole account for it.
#[test]
fn only_groups_the_target_has_are_requested() {
    let held = "root:x:0:\nwheel:x:10:\ndocker:x:999:ada\n";
    let requested = vec!["wheel".to_string(), "libvirt".to_string(), "docker".to_string()];
    assert_eq!(groups_present(held, &requested), vec!["wheel".to_string(), "docker".to_string()]);
    assert!(groups_present("", &requested).is_empty());
}

#[test]
fn useradd_runs_inside_the_deployment() {
    let groups = vec!["wheel".to_string(), "docker".to_string()];
    assert_eq!(
        useradd_args("/d", true, "ada", &groups, "$6$h"),
        vec![
            "useradd", "--root", "/d", "--no-create-home", "--shell", "/bin/bash", "--password",
            "$6$h", "--groups", "wheel,docker", "ada",
        ]
    );
    assert_eq!(
        useradd_args("/d", false, "ada", &Vec::new(), "$6$h"),
        vec![
            "chroot", "/d", "useradd", "--no-create-home", "--shell", "/bin/bash", "--password",
            "$6$h", "ada",
        ]
    );
}

#[test]
fn the_home_is_made_on_first_boot() {
    assert_eq!(tmpfiles("ada"), "C /var/home/ada 0700 ada ada - /etc/skel\n");
}

#[test]
fn every_account_file_is_relabelled() {
    let paths = paths_to_label("/d/etc", "/d/etc/tmpfiles.d/tect-home-ada.conf");
    assert_eq!(paths.len(), 14);
    assert_eq!(paths[0], "/d/etc/hostname");
    assert_eq!(paths[12], "/d/etc/subgid-");
    assert_eq!(paths[13], "/d/etc/tmpfiles.d/tect-home-ada.conf");
    assert_eq!(join_path("/d/etc/", "passwd"), "/d/etc/passwd");
    assert_eq!(join_path("/d", "x"), "/d/x");
    assert_eq!(join_path("", "x"), "x");
}

/// The hash is the trimmed crypt string a successful run wrote; anything
/// else is refused with what the command said.
#[test]
fn a_password_hash_is_taken_only_as_a_crypt_string() {
    assert_eq!(crypt_answer(true, "$6$salt$hash\n", ""), Ok("$6$salt$hash".to_string()));
    assert_eq!(
        crypt_answer(false, "$6$salt$hash\n", " no entropy \n"),
        Err("openssl passwd wrote no crypt string: no entropy".to_string())
    );
    assert_eq!(crypt_answer(true, "usage\n", ""), Err("openssl passwd wrote no crypt string: ".to_string()));
}
