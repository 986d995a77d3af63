use consolevault::registry::{emulators, find, system_for_extension};

#[test]
fn registry_order_and_keys() {
    let keys: Vec<&str> = emulators().iter().map(|d| d.system).collect();
    assert_eq!(keys, vec!["snes", "n64", "ps1", "ps2", "ps3"]);
}

#[test]
fn find_by_key() {
    let d = find("ps2").unwrap();
    assert_eq!(d.emulator, "PCSX2");
    assert_eq!(d.pacman_pkg, Some("pcsx2"));
    assert!(find("gba").is_none());
    assert!(find("").is_none());
    assert_eq!(find("ps3").unwrap().extensions.len(), 0);
}

#[test]
fn extension_owner_in_registry_order() {
    assert_eq!(system_for_extension("bin"), Some("ps1"));
    assert_eq!(system_for_extension("iso"), Some("ps2"));
    assert_eq!(system_for_extension("gz"), Some("ps2"));
    assert_eq!(system_for_extension("fig"), Some("snes"));
    assert_eq!(system_for_extension("img"), None);
    assert_eq!(system_for_extension("SFC"), None);
}
