use consolevault::config::AppConfig;
use consolevault::detect::{detect_all, flatpak_to_probe, resolve_invocation, HostProbe, Invocation};
use consolevault::launch::{launch, needs_detection};
use consolevault::metadata::{boxart_target, fetch_outcome, sanitize, to_base64, to_data_url, FetchOutcome};
use consolevault::registry::find;
use consolevault::metadata::{
    art_step, cache_write_for, cached_art_result, download_result, ArtAction, ArtEvent, ArtState, CacheWrite, Download,
};
use consolevault::syscmd::{appimage_injected, backup_name, env_plan, EnvAction, SavedValue};

fn probe(on_path: &[&str], flatpak: bool) -> HostProbe {
    HostProbe { on_path: on_path.iter().map(|s| s.to_string()).collect(), flatpak_installed: flatpak }
}

#[test]
fn invocation_prefers_native() {
    let def = find("ps1").unwrap();
    let on = vec!["duckstation".to_string(), "duckstation-qt".to_string()];
    match resolve_invocation(&def, &on, true) {
        Some(Invocation::Native { program }) => assert_eq!(program, "duckstation-qt"),
        _ => panic!("expected native"),
    }
    match resolve_invocation(&def, &vec![], true) {
        Some(Invocation::Flatpak { app_id }) => assert_eq!(app_id, "org.duckstation.DuckStation"),
        _ => panic!("expected flatpak"),
    }
    assert!(resolve_invocation(&def, &vec![], false).is_none());
}

#[test]
fn detect_all_statuses() {
    let statuses = detect_all(&vec![probe(&["snes9x"], false), probe(&[], true)]);
    assert_eq!(statuses.len(), 5);
    assert!(statuses[0].installed);
    assert_eq!(statuses[1].system, "n64");
    assert!(statuses[1].installed);
    assert!(!statuses[2].installed);
    assert!(statuses[2].bios_required);
    assert!(!statuses[1].has_pacman);
    assert!(statuses[4].has_flatpak);
}

fn config_with(overrides: &[(&str, &str)]) -> AppConfig {
    AppConfig::from_parts(
        vec![],
        overrides.iter().map(|(k, v)| (k.to_string(), v.to_string())).collect(),
        false,
    )
}

#[test]
fn launch_with_override() {
    let c = config_with(&[("snes", "  /opt/snes9x  --fullscreen ")]);
    assert!(!needs_detection(&c, "snes"));
    assert!(needs_detection(&c, "n64"));
    let cmd = launch(&c, "snes", "/roms/a b.sfc", None).unwrap();
    assert_eq!(cmd.program, "/opt/snes9x");
    assert_eq!(cmd.args, vec!["--fullscreen".to_string(), "/roms/a b.sfc".to_string()]);
    let empty = config_with(&[("snes", "   ")]);
    assert_eq!(launch(&empty, "snes", "/r.sfc", None).err().unwrap(), "empty emulator override command");
}

#[test]
fn launch_detected() {
    let c = AppConfig::default();
    let cmd = launch(&c, "ps1", "/r/x.cue", Some(Invocation::Native { program: "duckstation-qt".to_string() })).unwrap();
    assert_eq!(cmd.program, "duckstation-qt");
    assert_eq!(cmd.args, vec!["--".to_string(), "/r/x.cue".to_string()]);
    let cmd = launch(&c, "ps1", "/r/x.cue", Some(Invocation::Flatpak { app_id: "org.duckstation.DuckStation".to_string() })).unwrap();
    assert_eq!(cmd.program, "flatpak");
    assert_eq!(cmd.args, vec!["run", "org.duckstation.DuckStation", "--", "/r/x.cue"]);
    assert_eq!(
        launch(&c, "ps2", "/r/x.iso", None).err().unwrap(),
        "PCSX2 is not installed. Install it from the Emulators screen first."
    );
    assert_eq!(launch(&c, "gb", "/r/x.gb", None).err().unwrap(), "unknown system: gb");
}

#[test]
fn base64_vectors() {
    assert_eq!(to_base64(b""), "");
    assert_eq!(to_base64(b"f"), "Zg==");
    assert_eq!(to_base64(b"fo"), "Zm8=");
    assert_eq!(to_base64(b"foo"), "Zm9v");
    assert_eq!(to_base64(b"foob"), "Zm9vYg==");
    assert_eq!(to_base64(b"fooba"), "Zm9vYmE=");
    assert_eq!(to_base64(b"foobar"), "Zm9vYmFy");
    assert_eq!(to_base64(&[0xff, 0xfe, 0x00]), "//4A");
    assert_eq!(to_base64(&[0xfb]), "+w==");
    for n in 0..10usize {
        let v = vec![7u8; n];
        assert_eq!(to_base64(&v).len(), 4 * ((n + 2) / 3));
    }
}

#[test]
fn data_urls() {
    assert_eq!(to_data_url(b"ab"), "data:image/png;base64,YWI=");
}

#[test]
fn sanitizes_titles() {
    assert_eq!(sanitize("A/B: C? <D> \"E\" |F| *G* `H` \\I & J"), "A_B_ C_ _D_ _E_ _F_ _G_ _H_ _I _ J");
}

#[test]
fn boxart_urls() {
    let t = boxart_target("snes", "Super Mario World (USA)").unwrap();
    assert_eq!(t.png_name, "Super Mario World (USA).png");
    assert_eq!(t.miss_name, "Super Mario World (USA).miss");
    assert_eq!(
        t.url,
        "https://raw.githubusercontent.com/libretro-thumbnails/Nintendo_-_Super_Nintendo_Entertainment_System/master/Named_Boxarts/Super%20Mario%20World%20%28USA%29.png"
    );
    let t = boxart_target("ps1", "Café: Ünïcode/Test~").unwrap();
    assert_eq!(t.png_name, "Café_ Ünïcode_Test~.png");
    assert!(t.url.ends_with("/Caf%C3%A9_%20%C3%9Cn%C3%AFcode_Test~.png"));
    assert_eq!(boxart_target("gba", "x").err().unwrap(), "unknown system: gba");
}

#[test]
fn fetch_outcomes() {
    assert!(matches!(fetch_outcome(Some(200), "200 OK"), FetchOutcome::Body));
    assert!(matches!(fetch_outcome(Some(404), "404 Not Found"), FetchOutcome::NoArt));
    assert!(matches!(fetch_outcome(None, ""), FetchOutcome::NoArt));
    match fetch_outcome(Some(500), "500 Internal Server Error") {
        FetchOutcome::Failed(m) => assert_eq!(m, "box art request failed: HTTP 500 Internal Server Error"),
        _ => panic!("expected failure"),
    }
}

#[test]
fn config_override_lookup() {
    let c = config_with(&[("ps1", "a"), ("ps2", "b")]);
    assert_eq!(c.emulator_override("ps2").unwrap(), "b");
    assert!(c.emulator_override("ps3").is_none());
    let d = AppConfig::default();
    assert!(d.rom_folders().is_empty());
    assert!(!d.setup_complete());
}

#[test]
fn flatpak_probe_only_without_native_binary() {
    let def = find("ps2").unwrap();
    assert_eq!(flatpak_to_probe(&def, &vec![]), Some("net.pcsx2.PCSX2"));
    assert_eq!(flatpak_to_probe(&def, &vec!["pcsx2".to_string()]), None);
    assert_eq!(flatpak_to_probe(&def, &vec!["other".to_string()]), Some("net.pcsx2.PCSX2"));
}

#[test]
fn base64_concatenates_by_groups() {
    assert_eq!(to_base64(b"foobar"), format!("{}{}", to_base64(b"foo"), to_base64(b"bar")));
    assert_eq!(to_base64(b"fooba"), format!("{}{}", to_base64(b"foo"), to_base64(b"ba")));
    assert_eq!(to_base64(b"foob"), "Zm9vYg==");
}

#[test]
fn download_results() {
    let art = Download::Art(b"PNG".to_vec());
    assert_eq!(cache_write_for(&art), CacheWrite::Png);
    assert_eq!(cache_write_for(&Download::NoArt), CacheWrite::Miss);
    assert_eq!(cache_write_for(&Download::Failed("x".to_string())), CacheWrite::Nothing);
    assert_eq!(download_result(&art, &Ok(())), Ok(Some("data:image/png;base64,UE5H".to_string())));
    assert_eq!(download_result(&art, &Err("disk full".to_string())), Err("write cache: disk full".to_string()));
    assert_eq!(download_result(&Download::NoArt, &Ok(())), Ok(None));
    assert_eq!(
        download_result(&Download::Failed("box art request failed: HTTP 500".to_string()), &Ok(())),
        Err("box art request failed: HTTP 500".to_string())
    );
    assert_eq!(cached_art_result(&Ok(b"PNG".to_vec())), Ok(Some("data:image/png;base64,UE5H".to_string())));
    assert_eq!(cached_art_result(&Err("gone".to_string())), Err("read cache: gone".to_string()));
}

#[test]
fn overrides_from_parts_keep_last_value() {
    let cfg = AppConfig::from_parts(
        vec!["/roms".to_string()],
        vec![
            ("snes".to_string(), "a".to_string()),
            ("n64".to_string(), "b".to_string()),
            ("snes".to_string(), "c".to_string()),
        ],
        true,
    );
    assert_eq!(cfg.emulator_overrides().len(), 2);
    assert_eq!(cfg.emulator_override("snes"), Some(&"c".to_string()));
    assert_eq!(cfg.emulator_override("n64"), Some(&"b".to_string()));
    assert_eq!(cfg.emulator_override("ps1"), None);
    assert_eq!(*cfg.rom_folders(), vec!["/roms".to_string()]);
    assert!(cfg.setup_complete());
}

#[test]
fn set_override_replaces() {
    let mut cfg = AppConfig::default();
    cfg.set_override("ps2".to_string(), "pcsx2".to_string());
    cfg.set_override("ps2".to_string(), "pcsx2-qt".to_string());
    assert_eq!(cfg.emulator_overrides().len(), 1);
    assert_eq!(cfg.emulator_override("ps2"), Some(&"pcsx2-qt".to_string()));
}

#[test]
fn environment_plan() {
    let vars = appimage_injected();
    assert_eq!(vars.len(), 17);
    assert_eq!(vars[0], "LD_LIBRARY_PATH");
    assert_eq!(backup_name("GTK_PATH"), "GTK_PATH_ORIG");
    let saved = vec![SavedValue::Present, SavedValue::Empty, SavedValue::Absent];
    assert!(env_plan(false, false, &saved).is_empty());
    assert_eq!(env_plan(true, false, &saved), vec![EnvAction::Restore, EnvAction::Remove, EnvAction::Remove]);
    assert_eq!(env_plan(false, true, &saved), vec![EnvAction::Restore, EnvAction::Remove, EnvAction::Remove]);
}

/// Run a box-art lookup against an in-memory cache; returns the answer, the
/// cache afterwards and whether the download was asked for.
fn run_lookup(
    png: &mut Option<Vec<u8>>,
    miss: &mut bool,
    download: impl Fn() -> Download,
) -> (Result<Option<String>, String>, bool) {
    let mut fetched = false;
    let mut state = ArtState::Start;
    let mut event = ArtEvent::Probed { png_is_file: png.is_some(), miss_is_file: *miss };
    loop {
        let (next, action) = art_step(state, event);
        state = next;
        event = match action {
            ArtAction::Answer(a) => return (a, fetched),
            ArtAction::ReadPng => ArtEvent::PngRead(Ok(png.clone().unwrap())),
            ArtAction::Fetch => {
                fetched = true;
                ArtEvent::Fetched(download())
            }
            ArtAction::WritePng(b) => {
                *png = Some(b);
                ArtEvent::PngWritten(Ok(()))
            }
            ArtAction::WriteMiss => {
                *miss = true;
                ArtEvent::MissWritten
            }
        };
    }
}

#[test]
fn repeat_box_art_lookups_are_offline() {
    let (mut png, mut miss) = (None, false);
    let first = run_lookup(&mut png, &mut miss, || Download::Art(b"PNG".to_vec()));
    assert_eq!(first, (Ok(Some("data:image/png;base64,UE5H".to_string())), true));
    let again = run_lookup(&mut png, &mut miss, || Download::Failed("offline".to_string()));
    assert_eq!(again, (Ok(Some("data:image/png;base64,UE5H".to_string())), false));

    let (mut png, mut miss) = (None, false);
    assert_eq!(run_lookup(&mut png, &mut miss, || Download::NoArt), (Ok(None), true));
    assert!(miss);
    assert_eq!(run_lookup(&mut png, &mut miss, || Download::Art(vec![1])), (Ok(None), false));

    let (mut png, mut miss) = (None, false);
    let failed = run_lookup(&mut png, &mut miss, || Download::Failed("box art request failed: HTTP 500".to_string()));
    assert_eq!(failed, (Err("box art request failed: HTTP 500".to_string()), true));
    assert!(png.is_none() && !miss);
}

#[test]
fn box_art_step_out_of_order() {
    let (_, action) = art_step(ArtState::Start, ArtEvent::MissWritten);
    match action {
        ArtAction::Answer(a) => assert_eq!(a, Err("box art lookup: unexpected step".to_string())),
        _ => panic!("expected an answer"),
    }
}
