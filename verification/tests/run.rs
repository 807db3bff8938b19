use installer::answers::{Answers, Encryption, Opened};
use installer::automatic::Offered;
use installer::recipe::InstallRecipe;
use installer::run::{
    bootc_args, chosen, finalize_failed, luks_name_arg, run, run_failure, store_answer,
    unusable_store, Chosen, Step,
};

fn answers(user: &str, kind: &str) -> Answers {
    Answers {
        disk: "/dev/vda".to_string(),
        hostname: "box".to_string(),
        user: user.to_string(),
        password: "secret".to_string(),
        encryption: Encryption {
            kind: kind.to_string(),
            passphrase: String::new(),
            pin: String::new(),
        },
        layout: None,
        opened: Opened::Keep,
    }
}

fn recipe() -> InstallRecipe {
    InstallRecipe {
        image: "quay.io/t/os:1".to_string(),
        target_imgref: "quay.io/t/os:stable".to_string(),
        composefs: true,
        generic: false,
        bootloader: "systemd".to_string(),
        filesystem: "btrfs".to_string(),
        hostname: "box".to_string(),
        groups: Vec::new(),
        stores: vec!["/run/media/store".to_string()],
        boot: String::new(),
        luks_initramfs: false,
    }
}

fn step_name(step: &Step) -> String {
    match step {
        Step::CheckChain => "chain".to_string(),
        Step::CheckTpm2 => "tpm2".to_string(),
        Step::CheckRecipe => "recipe".to_string(),
        Step::HashPassword => "hash".to_string(),
        Step::Prepare => "prepare".to_string(),
        Step::Install => "install".to_string(),
        Step::Finished(Ok(())) => "done".to_string(),
        Step::Finished(Err(why)) => format!("refused: {why}"),
    }
}

/// Runs every step to the end with each outside step answering `Ok`, and
/// gives the steps taken.
fn walk(answers: &Answers) -> Vec<String> {
    let mut steps = Vec::new();
    let mut next = run(answers, None, Ok(()), false);
    loop {
        steps.push(step_name(&next));
        if let Step::Finished(_) = next {
            return steps;
        }
        next = run(answers, Some(next), Ok(()), false);
    }
}

/// Every check runs before the disk is prepared, and a TPM2 answer adds its
/// own check.
#[test]
fn every_check_runs_before_the_disk_is_prepared() {
    assert_eq!(
        walk(&answers("ada", "none")),
        vec!["chain", "recipe", "hash", "prepare", "install", "done"]
    );
    assert_eq!(
        walk(&answers("ada", "tpm2-luks")),
        vec!["chain", "tpm2", "recipe", "hash", "prepare", "install", "done"]
    );
}

/// A name `useradd` refuses stops the run before the disk is touched.
#[test]
fn a_refused_account_name_stops_before_the_cut() {
    let steps = walk(&answers("Ada Lovelace", "none"));
    assert_eq!(steps.len(), 3);
    assert!(steps[2].starts_with("refused: the username \"Ada Lovelace\""), "{steps:?}");
}

/// A failure after the cut says the table already changed; one before it
/// does not.
#[test]
fn a_failure_after_the_cut_says_the_table_changed() {
    let a = answers("ada", "none");
    let after = run(&a, Some(Step::Install), Err("bootc did not finish".to_string()), true);
    assert_eq!(
        step_name(&after),
        "refused: bootc did not finish\n\nthe partition table on /dev/vda has already been changed"
    );
    let before = run(&a, Some(Step::CheckRecipe), Err("no store".to_string()), true);
    assert_eq!(step_name(&before), "refused: no store");
    assert_eq!(run_failure("x".to_string(), false, "/dev/vda"), "x");
}

/// Once the automatic finalize failed, the screen drawn again restarts by
/// hand: no pick finalizes a second time.
#[test]
fn a_failed_finalize_is_never_offered_again() {
    let failed = finalize_failed();
    for picked in [None, Some(0), Some(1), Some(2)] {
        assert_ne!(chosen(&failed, picked), Chosen::Finalize);
    }
    assert_eq!(chosen(&failed, None), Chosen::Leave);
    assert_eq!(chosen(&Offered::Nothing, Some(0)), Chosen::Restart);
}

#[test]
fn bootc_runs_from_the_media_store_and_never_pulls() {
    let args = bootc_args(&recipe(), Some("rd.luks.name=u=root"));
    let expected: Vec<&str> = vec![
        "run",
        "--rm",
        "--pull=never",
        "--privileged",
        "--pid=host",
        "--security-opt",
        "label=disable",
        "-v",
        "/dev:/dev",
        "-v",
        "/var/lib/containers:/var/lib/containers",
        "-v",
        "/run/media/store:/run/media/store:ro",
        "-v",
        "/etc/containers/storage.conf:/etc/containers/storage.conf:ro",
        "-v",
        "/run/tect-sysroot:/target",
        "quay.io/t/os:1",
        "bootc",
        "install",
        "to-filesystem",
        "--skip-finalize",
        "--target-imgref",
        "quay.io/t/os:stable",
        "--composefs-backend",
        "--bootloader",
        "systemd",
        "--karg",
        "rd.luks.name=u=root",
        "/target",
    ];
    assert_eq!(args, expected);
    let mut grub = recipe();
    grub.bootloader = "grub2".to_string();
    grub.composefs = false;
    grub.generic = true;
    let args = bootc_args(&grub, None);
    assert!(!args.iter().any(|a| a == "--bootloader" || a == "--karg"), "{args:?}");
    assert!(args.iter().any(|a| a == "--generic-image"), "{args:?}");
}

#[test]
fn the_root_container_is_named_by_uuid() {
    assert_eq!(luks_name_arg("1234-abcd", "root"), "rd.luks.name=1234-abcd=root");
}

#[test]
fn a_store_must_be_an_absolute_plain_path() {
    assert!(unusable_store("relative/store"));
    assert!(unusable_store("/a:b"));
    assert!(!unusable_store("/run/media/store"));
}

#[test]
fn podman_says_whether_a_store_holds_the_image() {
    assert_eq!(store_answer(Some(0), "img", ""), Ok(()));
    assert_eq!(
        store_answer(Some(1), "img", ""),
        Err("no store /etc/containers/storage.conf names holds img".to_string())
    );
    assert_eq!(
        store_answer(Some(125), "img", "broken"),
        Err("podman could not read the stores /etc/containers/storage.conf names: broken".to_string())
    );
}
