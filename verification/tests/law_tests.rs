use consolevault::config::AppConfig;
use consolevault::detect::Invocation;
use consolevault::install::{
    install, plan, uninstall, uninstall_plan, HostTools, InstallMethod, InstallOp, InstalledSources,
};
use consolevault::launch::launch;
use consolevault::registry::{emulators, find};

fn tools() -> HostTools {
    HostTools { flatpak: true, git: true, cmake: true, make: false, ninja: true, cc: true, gcc: false, clang: false }
}

/// The commands echoed right before each step that runs something.
fn echoed(ops: &[InstallOp]) -> Vec<String> {
    let mut out = Vec::new();
    for w in ops.windows(2) {
        if let InstallOp::Emit(line) = &w[0] {
            if matches!(w[1], InstallOp::Run { .. } | InstallOp::RemoveBuildDir(_)) {
                out.push(line[2..].to_string());
            }
        }
    }
    out
}

#[test]
fn install_preview_matches_script_for_every_method() {
    for def in emulators() {
        for method in [InstallMethod::Pacman, InstallMethod::Flatpak, InstallMethod::Source] {
            if let Ok(p) = plan(def.system, Some(method)) {
                let ops = install(def.system, method, &tools(), &Ok("/cache".to_string())).unwrap();
                assert_eq!(echoed(&ops), p.commands, "{} {:?}", def.system, method);
            }
        }
    }
}

#[test]
fn uninstall_preview_matches_script() {
    let s = InstalledSources { flatpak_user: true, pacman: true, cache_dir: Some("/cache".to_string()), build_dir_exists: true };
    for def in emulators() {
        let p = uninstall_plan(def.system, &s).unwrap();
        let ops = uninstall(def.system, &s).unwrap();
        assert_eq!(echoed(&ops), p.commands);
    }
}

#[test]
fn only_allowed_programs_run() {
    let s = InstalledSources { flatpak_user: true, pacman: true, cache_dir: Some("/c".to_string()), build_dir_exists: true };
    for def in emulators() {
        let mut all = uninstall(def.system, &s).unwrap();
        for method in [InstallMethod::Pacman, InstallMethod::Flatpak, InstallMethod::Source] {
            all.extend(install(def.system, method, &tools(), &Ok("/c".to_string())).unwrap());
        }
        for op in &all {
            if let InstallOp::Run { program, .. } = op {
                assert!(program == "pkexec" || program == "flatpak" || program == "sh", "{program}");
            }
        }
    }
}

#[test]
fn source_build_available_everywhere() {
    for def in emulators() {
        let p = plan(def.system, Some(InstallMethod::Source)).unwrap();
        assert_eq!(*p.available_methods.last().unwrap(), InstallMethod::Source);
        assert_eq!(plan(def.system, None).unwrap().method, p.available_methods[0]);
    }
}

#[test]
fn registry_extensions_are_plain_and_keys_unique() {
    let defs = emulators();
    for (i, d) in defs.iter().enumerate() {
        for e in &d.extensions {
            assert_eq!(e.to_ascii_lowercase(), *e);
            assert!(!e.contains('.'));
        }
        assert_eq!(find(d.system).unwrap().emulator, d.emulator);
        for other in &defs[i + 1..] {
            assert_ne!(d.system, other.system);
        }
    }
}

#[test]
fn override_ignores_detection_and_rom_is_last() {
    let mut c = AppConfig::default();
    c.set_override("n64".to_string(), "mupen64plus --fullscreen".to_string());
    let a = launch(&c, "n64", "/r/m.z64", None).unwrap();
    let b = launch(&c, "n64", "/r/m.z64", Some(Invocation::Flatpak { app_id: "io.github.gopher64.gopher64".to_string() })).unwrap();
    assert_eq!(a.program, b.program);
    assert_eq!(a.args, b.args);
    assert_eq!(a.args.last().unwrap(), "/r/m.z64");
}
