use installer::answers::Partition;
use installer::discover::{crypttabs, device_spec, fstab_target, mount_options, mountable_rows, names, on_device, partition_rows, KeySource};
use installer::json::Json;

fn partition(device: &str, uuid: &str) -> Partition {
    Partition {
        device: device.to_string(),
        size: "10G".to_string(),
        fstype: "crypto_LUKS".to_string(),
        label: String::new(),
        parttype: String::new(),
        uuid: uuid.to_string(),
    }
}

#[test]
fn a_device_is_named_the_way_fstab_names_one() {
    assert!(device_spec("/dev/sdb1"));
    assert!(device_spec("UUID=abcd"));
    assert!(device_spec("LABEL=keys"));
    assert!(!device_spec("/etc/keys/data.key"));
}

/// `passdev` writes the device first; a plain key field may put the path
/// first. A timeout after the path is dropped.
#[test]
fn a_key_on_another_device_is_found_either_way_round() {
    assert_eq!(
        on_device("/dev/sdb1:/keys/root.key:30", true),
        Some(("/dev/sdb1".to_string(), "/keys/root.key".to_string()))
    );
    assert_eq!(
        on_device("/keys/data.key:UUID=ab", false),
        Some(("UUID=ab".to_string(), "/keys/data.key".to_string()))
    );
    assert_eq!(on_device("/keys/data.key:UUID=ab", true), None);
    assert_eq!(on_device("/etc/keys/data.key", false), None);
}

#[test]
fn each_crypttab_line_says_where_its_key_is() {
    let raw = "# comment\n\
               root UUID=1 none luks\n\
               data /dev/vda3 /etc/keys/data.key luks # trailing\n\
               usb UUID=2 /keys/usb.key:LABEL=stick luks\n\
               wait UUID=3 /media/key luks,keyfile-timeout=10s\n\
               pass UUID=4 /dev/sdc1:/k luks,keyscript=/lib/cryptsetup/scripts/passdev\n\
               odd UUID=5 x luks,keyscript=decrypt_gnupg\n\
               lonely\n";
    let found = crypttabs(raw);
    assert_eq!(found.len(), 6);
    assert_eq!((found[0].name.as_str(), found[0].device.as_str()), ("root", "UUID=1"));
    assert!(matches!(found[0].key, KeySource::Default));
    assert!(matches!(&found[1].key, KeySource::Inside(path) if path == "/etc/keys/data.key"));
    assert!(matches!(&found[2].key,
        KeySource::OnDevice { device, path } if device == "LABEL=stick" && path == "/keys/usb.key"));
    assert!(matches!(found[3].key, KeySource::Waited));
    assert!(matches!(&found[4].key,
        KeySource::OnDevice { device, path } if device == "/dev/sdc1" && path == "/k"));
    assert!(matches!(found[5].key, KeySource::Unreadable));
}

/// A line names a container by its UUID, in either spelling and either case,
/// or by its device.
#[test]
fn a_crypttab_line_names_its_container() {
    let found = crypttabs("a UUID=ABCD none\nb /dev/disk/by-uuid/abcd none\nc /dev/vda3 none\n");
    let container = partition("/dev/vda3", "abcd");
    assert!(names(&found[0], &container));
    assert!(names(&found[1], &container));
    assert!(names(&found[2], &container));
    assert!(!names(&found[0], &partition("/dev/vda3", "")));
}

#[test]
fn the_old_fstab_gives_the_mount_point() {
    let raw = "/dev/mapper/root / ext4 defaults 0 1\n/dev/mapper/data /srv xfs defaults 0 2 # x\n";
    assert_eq!(fstab_target(raw, "data"), "/srv");
    assert_eq!(fstab_target(raw, "swap"), "");
}

/// A read of an old journaling filesystem must not replay its journal.
#[test]
fn an_old_filesystem_is_read_without_replay() {
    assert_eq!(mount_options("ext4"), "ro,norecovery");
    assert_eq!(mount_options("vfat"), "ro");
}

fn node(pairs: Vec<(&str, &str)>, children: Vec<Json>) -> Json {
    let mut fields: Vec<(String, Json)> =
        pairs.into_iter().map(|(k, v)| (k.to_string(), Json::Text(v.to_string()))).collect();
    if !children.is_empty() {
        fields.push(("children".to_string(), Json::Array(children)));
    }
    Json::Object(fields)
}

/// A listing nests an opened container and its volumes under their
/// partition; the walk reads every level, in the order listed.
fn listing() -> Json {
    let root = node(vec![("name", "/dev/mapper/root"), ("type", "crypt"), ("fstype", "ext4")], Vec::new());
    let luks = node(
        vec![("name", "/dev/vda2"), ("type", "part"), ("fstype", "crypto_LUKS"), ("size", "30G"), ("uuid", "C1")],
        vec![root],
    );
    let esp = node(
        vec![("name", "/dev/vda1"), ("type", "part"), ("fstype", "vfat"), ("size", "512M"), ("label", "ESP")],
        Vec::new(),
    );
    let disk = node(vec![("name", "/dev/vda"), ("type", "disk")], vec![esp, luks]);
    Json::Object(vec![("blockdevices".to_string(), Json::Array(vec![disk]))])
}

#[test]
fn every_partition_is_listed_at_any_depth() {
    let parts = partition_rows(&listing());
    let devices: Vec<&str> = parts.iter().map(|p| p.device.as_str()).collect();
    assert_eq!(devices, vec!["/dev/vda1", "/dev/vda2"]);
    assert_eq!((parts[0].size.as_str(), parts[0].label.as_str(), parts[0].uuid.as_str()), ("512M", "ESP", ""));
    assert_eq!((parts[1].fstype.as_str(), parts[1].uuid.as_str()), ("crypto_LUKS", "C1"));
    assert!(partition_rows(&Json::Null).is_empty());
}

/// A LUKS header mounts nothing; the filesystem opened inside it does.
#[test]
fn a_walk_mounts_what_holds_a_filesystem() {
    assert_eq!(
        mountable_rows(&listing()),
        vec![
            ("/dev/vda1".to_string(), "vfat".to_string()),
            ("/dev/mapper/root".to_string(), "ext4".to_string()),
        ]
    );
}
