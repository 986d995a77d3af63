use consolevault::scan::{
    scan_roots, classify, clean_title, detect_ps3_folder, ps3_eboot_path, scan, sibling_cue_path,
    system_from_path_hint, EntryKind, Game, ScanEntry,
};

#[test]
fn cleans_titles() {
    assert_eq!(clean_title("Super Mario 64 (USA)"), "Super Mario 64");
    assert_eq!(clean_title("Chrono_Trigger_[!]"), "Chrono Trigger");
    assert_eq!(clean_title("Final Fantasy VII (USA) (Disc 1)"), "Final Fantasy VII");
}

#[test]
fn classifies_unambiguous_extensions() {
    assert_eq!(classify("/roms/Mario.sfc", "sfc"), Some("snes"));
    assert_eq!(classify("/roms/Zelda.z64", "z64"), Some("n64"));
    assert_eq!(classify("/roms/Crash.pbp", "pbp"), Some("ps1"));
}

#[test]
fn path_hint_disambiguates_disc_images() {
    // A bare .iso defaults to PS2 (registry order), but a PS1 path wins the hint.
    assert_eq!(classify("/games/PS2/GT4.iso", "iso"), Some("ps2"));
    assert_eq!(classify("/games/PSX/FF7.cue", "cue"), Some("ps1"));
}

fn dir(path: &str, eboot: bool) -> ScanEntry {
    ScanEntry { path: path.to_string(), kind: EntryKind::Dir, eboot_is_file: eboot, cue_sibling_is_file: false, name_is_utf8: true }
}

fn file(path: &str, cue: bool) -> ScanEntry {
    ScanEntry { path: path.to_string(), kind: EntryKind::File, eboot_is_file: false, cue_sibling_is_file: cue, name_is_utf8: true }
}

fn by_system<'a>(games: &'a [Game], system: &str) -> Vec<&'a Game> {
    games.iter().filter(|g| g.system == system).collect()
}

#[test]
fn scans_walk_with_mixed_systems_and_ps3() {
    // The walk of a folder holding two cartridge dumps and a PS3 game folder
    // whose USRDIR holds EBOOT.BIN and an internal data .bin file.
    let root = "/tmp/emuapp_scan_test";
    let entries = vec![
        dir(root, false),
        file("/tmp/emuapp_scan_test/Super Mario World (USA).sfc", false),
        file("/tmp/emuapp_scan_test/GoldenEye 007 (USA).z64", false),
        dir("/tmp/emuapp_scan_test/MyPS3Game", true),
        dir("/tmp/emuapp_scan_test/MyPS3Game/PS3_GAME", false),
        dir("/tmp/emuapp_scan_test/MyPS3Game/PS3_GAME/USRDIR", false),
        file("/tmp/emuapp_scan_test/MyPS3Game/PS3_GAME/USRDIR/EBOOT.BIN", false),
        file("/tmp/emuapp_scan_test/MyPS3Game/PS3_GAME/USRDIR/game_data.bin", false),
    ];
    let games = scan(&entries);
    assert_eq!(by_system(&games, "snes")[0].title, "Super Mario World");
    assert_eq!(by_system(&games, "n64")[0].title, "GoldenEye 007");
    assert_eq!(by_system(&games, "ps3")[0].title, "MyPS3Game");
    let ps3_game = by_system(&games, "ps3")[0];
    assert!(ps3_game.path.ends_with("EBOOT.BIN"));
    assert_eq!(ps3_game.path, "/tmp/emuapp_scan_test/MyPS3Game/PS3_GAME/USRDIR/EBOOT.BIN");
    // Internal PS3 files must NOT surface as PS1/PS2 titles.
    assert_eq!(by_system(&games, "ps1").len(), 0);
    assert_eq!(by_system(&games, "ps2").len(), 0);
    assert_eq!(by_system(&games, "ps3").len(), 1);
    assert_eq!(games.len(), 3);
}

#[test]
fn skips_bin_track_beside_cue() {
    let entries = vec![
        dir("/tmp/emuapp_cue_test", false),
        file("/tmp/emuapp_cue_test/PSX Game.cue", false),
        file("/tmp/emuapp_cue_test/PSX Game.bin", true),
    ];
    let games = scan(&entries);
    // Only the .cue should surface, not the paired .bin track.
    assert_eq!(games.len(), 1);
    assert!(games[0].path.ends_with(".cue"));
    assert_eq!(games[0].system, "ps1");
    assert_eq!(games[0].title, "PSX Game");
}

#[test]
fn lone_bin_is_a_game() {
    let games = scan(&vec![file("/roms/ps2/Game.bin", false)]);
    assert_eq!(games.len(), 1);
    assert_eq!(games[0].system, "ps2");
}

#[test]
fn scan_sorts_by_system_then_title_and_dedups_paths() {
    let entries = vec![
        file("/r/Zelda.z64", false),
        file("/r/b.sfc", false),
        file("/r/A.sfc", false),
        file("/r/Zelda.z64", false),
        file("/r/Mario.z64", false),
        file("/r/notes.txt", false),
        ScanEntry { path: "/r/link".to_string(), kind: EntryKind::Other, eboot_is_file: true, cue_sibling_is_file: true, name_is_utf8: true },
    ];
    let games = scan(&entries);
    let keys: Vec<(String, String)> = games.iter().map(|g| (g.system.clone(), g.title.clone())).collect();
    assert_eq!(
        keys,
        vec![
            ("n64".to_string(), "Mario".to_string()),
            ("n64".to_string(), "Zelda".to_string()),
            ("snes".to_string(), "A".to_string()),
            ("snes".to_string(), "b".to_string()),
        ]
    );
    assert_eq!(games[0].id, games[0].path);
}

#[test]
fn scan_is_stable_for_equal_keys() {
    let entries = vec![file("/x/Tetris.sfc", false), file("/y/Tetris (Europe).sfc", false)];
    let games = scan(&entries);
    assert_eq!(games[0].path, "/x/Tetris.sfc");
    assert_eq!(games[1].path, "/y/Tetris (Europe).sfc");
}

#[test]
fn uppercase_extension_is_classified() {
    let games = scan(&vec![file("/roms/Mario.SFC", false)]);
    assert_eq!(games.len(), 1);
    assert_eq!(games[0].system, "snes");
}

#[test]
fn files_inside_ps3_game_folder_are_skipped_whatever_the_case() {
    let games = scan(&vec![file("/roms/x/ps3_game/data.iso", false)]);
    assert_eq!(games.len(), 0);
}

#[test]
fn path_hint_must_accept_extension() {
    // A "ps3" path hint is ignored for an ISO: RPCS3 takes no files.
    assert_eq!(classify("/games/PS3/thing.iso", "iso"), Some("ps2"));
    assert_eq!(classify("/roms/readme.txt", "txt"), None);
    assert_eq!(classify("/games/playstation/x.chd", "chd"), Some("ps1"));
    // Hints only apply to ambiguous disc formats.
    assert_eq!(classify("/games/PS2/x.pbp", "pbp"), Some("ps1"));
}

#[test]
fn path_hints_in_order() {
    assert_eq!(system_from_path_hint("/Games/PlayStation 2/x"), Some("ps2"));
    assert_eq!(system_from_path_hint("/games/playstation/x"), Some("ps1"));
    assert_eq!(system_from_path_hint("/games/Nintendo 64/x"), Some("n64"));
    assert_eq!(system_from_path_hint("/games/other/x"), None);
}

#[test]
fn ps3_paths() {
    assert_eq!(ps3_eboot_path("/g/Game"), "/g/Game/PS3_GAME/USRDIR/EBOOT.BIN");
    assert_eq!(ps3_eboot_path("/g/Game/"), "/g/Game/PS3_GAME/USRDIR/EBOOT.BIN");
    let g = detect_ps3_folder("/g/Demon_Souls [BLUS]/", true, true).unwrap();
    assert_eq!(g.title, "Demon Souls");
    assert_eq!(g.system, "ps3");
    assert!(detect_ps3_folder("/g/Game", false, true).is_none());
    assert_eq!(detect_ps3_folder("/", true, true).unwrap().title, "Unknown PS3 Game");
}

#[test]
fn sibling_cue_paths() {
    assert_eq!(sibling_cue_path("/roms/PSX Game.bin"), "/roms/PSX Game.cue");
    assert_eq!(sibling_cue_path("/roms/a.b.bin"), "/roms/a.b.cue");
    assert_eq!(sibling_cue_path("/roms/noext"), "/roms/noext.cue");
    assert_eq!(sibling_cue_path("/roms/.hidden"), "/roms/.hidden.cue");
    assert_eq!(sibling_cue_path("/"), "/");
}

#[test]
fn title_cleaning_edge_cases() {
    assert_eq!(clean_title(""), "");
    assert_eq!(clean_title("  a\t\tb  "), "a b");
    assert_eq!(clean_title("a)b"), "ab");
    assert_eq!(clean_title("x (unclosed"), "x");
    assert_eq!(clean_title("Game.Name_v1"), "Game Name v1");
    assert_eq!(clean_title(&clean_title("A [b] (c)_d.e")), clean_title("A [b] (c)_d.e"));
}

#[test]
fn names_that_are_not_text_give_no_title() {
    let mut f = file("/roms/\u{fffd}\u{fffd}.sfc", false);
    f.name_is_utf8 = false;
    let mut d = dir("/roms/\u{fffd}game", true);
    d.name_is_utf8 = false;
    let games = scan(&vec![f, d]);
    assert_eq!(games.len(), 2);
    assert_eq!(games[0].system, "ps3");
    assert_eq!(games[0].title, "Unknown PS3 Game");
    assert_eq!(games[1].system, "snes");
    assert_eq!(games[1].title, "");
    assert_eq!(detect_ps3_folder("/g/x", true, false).unwrap().title, "Unknown PS3 Game");
}

fn summary(games: &[Game]) -> Vec<(String, String, String)> {
    games.iter().map(|g| (g.system.clone(), g.title.clone(), g.path.clone())).collect()
}

#[test]
fn repeated_walk_entries_add_nothing() {
    let walk = || {
        vec![
            dir("/roms", false),
            file("/roms/Zelda (USA).sfc", false),
            file("/roms/Mario (USA).sfc", false),
            dir("/roms/Game", true),
        ]
    };
    let once = walk();
    let mut twice = walk();
    twice.extend(walk().into_iter().rev());
    let a = scan(&once);
    let b = scan(&twice);
    assert_eq!(summary(&a), summary(&b));
    assert_eq!(a.len(), 3);
    assert!(a.iter().all(|g| g.path.starts_with('/')));
}

#[test]
fn repeated_and_missing_roots_change_nothing() {
    let root_a = || vec![dir("/a", false), file("/a/Zelda (USA).sfc", false)];
    let root_b = || vec![dir("/b", false), file("/b/Crash.pbp", false), dir("/b/Game", true)];
    let once = scan_roots(&vec![root_a(), root_b()]);
    let twice = scan_roots(&vec![root_a(), root_b(), root_a(), root_b()]);
    let with_missing = scan_roots(&vec![root_a(), root_b(), vec![]]);
    assert_eq!(summary(&once), summary(&twice));
    assert_eq!(summary(&once), summary(&with_missing));
    assert_eq!(once.len(), 3);
    assert_eq!(summary(&once), summary(&scan(&root_a().into_iter().chain(root_b()).collect())));
}
