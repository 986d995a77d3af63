use consolevault::install::{
    available_methods, build_dir, describe_action, install, label, missing_build_tools, plan,
    preferred_method, uninstall, uninstall_actions, uninstall_plan, HostTools, InstallMethod,
    InstallOp, InstalledSources, UninstallAction,
};
use consolevault::registry::find;

fn all_tools() -> HostTools {
    HostTools { flatpak: true, git: true, cmake: true, make: true, ninja: false, cc: false, gcc: true, clang: false }
}

fn no_tools() -> HostTools {
    HostTools { flatpak: false, git: false, cmake: false, make: false, ninja: false, cc: false, gcc: false, clang: false }
}

fn lines(ops: &[InstallOp]) -> Vec<String> {
    ops.iter()
        .map(|op| match op {
            InstallOp::Emit(l) => format!("emit {l}"),
            InstallOp::Fail(m) => format!("fail {m}"),
            InstallOp::Run { program, args, cwd, failure } => {
                format!("run {program} {} @{:?} !{failure}", args.join(" "), cwd)
            }
            InstallOp::ResetBuildDir(d) => format!("reset {d}"),
            InstallOp::RemoveBuildDir(d) => format!("remove {d}"),
        })
        .collect()
}

#[test]
fn methods_in_preference_order() {
    assert_eq!(available_methods(&find("snes").unwrap()), vec![InstallMethod::Pacman, InstallMethod::Flatpak, InstallMethod::Source]);
    assert_eq!(available_methods(&find("n64").unwrap()), vec![InstallMethod::Flatpak, InstallMethod::Source]);
    assert_eq!(preferred_method(&find("ps2").unwrap()), InstallMethod::Pacman);
    assert_eq!(preferred_method(&find("ps3").unwrap()), InstallMethod::Flatpak);
    assert_eq!(label(InstallMethod::Source), "source build");
}

#[test]
fn plan_defaults_to_preferred() {
    let p = plan("snes", None).unwrap();
    assert_eq!(p.method, InstallMethod::Pacman);
    assert_eq!(p.commands, vec!["pkexec pacman -S --needed --noconfirm snes9x-gtk".to_string()]);
    assert_eq!(p.emulator, "Snes9x");
    let f = plan("ps1", None).unwrap();
    assert_eq!(f.method, InstallMethod::Flatpak);
    assert_eq!(
        f.commands,
        vec![
            "flatpak remote-add --if-not-exists --user flathub https://flathub.org/repo/flathub.flatpakrepo".to_string(),
            "flatpak install --user -y flathub org.duckstation.DuckStation".to_string(),
        ]
    );
}

#[test]
fn plan_source_lists_steps() {
    let p = plan("n64", Some(InstallMethod::Source)).unwrap();
    assert_eq!(p.commands.len(), 2);
    assert_eq!(p.commands[1], "cargo build --release");
    assert_eq!(p.available_methods, vec![InstallMethod::Flatpak, InstallMethod::Source]);
}

#[test]
fn plan_errors() {
    assert_eq!(plan("gba", None).err().unwrap(), "unknown system: gba");
    assert_eq!(
        plan("ps3", Some(InstallMethod::Pacman)).err().unwrap(),
        "official repo (pacman) is unavailable for RPCS3"
    );
}

#[test]
fn missing_tools_names() {
    assert_eq!(missing_build_tools(&all_tools()), Vec::<&str>::new());
    assert_eq!(missing_build_tools(&no_tools()), vec!["git", "cmake", "make or ninja", "a C/C++ compiler (gcc)"]);
}

#[test]
fn install_pacman_script() {
    let ops = install("ps2", InstallMethod::Pacman, &all_tools(), &Ok("/c".to_string())).unwrap();
    assert_eq!(
        lines(&ops),
        vec![
            "emit == Installing PCSX2 via official repo (pacman) ==",
            "emit $ pkexec pacman -S --needed --noconfirm pcsx2",
            "run pkexec pacman -S --needed --noconfirm pcsx2 @None !`pkexec` exited with a non-zero status",
        ]
    );
}

#[test]
fn install_without_package_or_flatpak_fails() {
    let ops = install("n64", InstallMethod::Pacman, &all_tools(), &Ok("/c".to_string())).unwrap();
    assert_eq!(lines(&ops)[1], "fail no pacman package for this emulator");
    let ops = install("n64", InstallMethod::Flatpak, &no_tools(), &Ok("/c".to_string())).unwrap();
    assert_eq!(lines(&ops)[2], "fail flatpak is not installed. Install it once with: sudo pacman -S flatpak");
    assert_eq!(install("gba", InstallMethod::Source, &all_tools(), &Ok("/c".to_string())).err().unwrap(), "unknown system: gba");
}

#[test]
fn install_flatpak_script() {
    let ops = install("ps3", InstallMethod::Flatpak, &all_tools(), &Ok("/c".to_string())).unwrap();
    let l = lines(&ops);
    assert_eq!(l.len(), 5);
    assert_eq!(l[3], "emit $ flatpak install --user -y flathub net.rpcs3.RPCS3");
}

#[test]
fn install_source_script() {
    let ops = install("snes", InstallMethod::Source, &all_tools(), &Ok("/home/u/.cache/cv".to_string())).unwrap();
    let l = lines(&ops);
    assert_eq!(l[1], "reset /home/u/.cache/cv/build/snes");
    assert_eq!(l[2], "emit Build dir (clean): /home/u/.cache/cv/build/snes");
    assert_eq!(l[3], "emit Build the GTK front-end of Snes9x with CMake.");
    assert_eq!(l[4], "emit $ git clone --depth 1 https://github.com/snes9xgit/snes9x .");
    assert_eq!(
        l[5],
        "run sh -c git clone --depth 1 https://github.com/snes9xgit/snes9x . @Some(\"/home/u/.cache/cv/build/snes\") !source build step failed: git clone --depth 1 https://github.com/snes9xgit/snes9x ."
    );
    assert_eq!(l.len(), 10);
}

#[test]
fn install_source_preflight() {
    let ops = install("snes", InstallMethod::Source, &no_tools(), &Ok("/c".to_string())).unwrap();
    let l = lines(&ops);
    assert_eq!(l.len(), 3);
    assert_eq!(
        l[2],
        "fail Missing build tools: git, cmake, make or ninja, a C/C++ compiler (gcc).\nInstall the base toolchain once, then retry:\n    pkexec pacman -S --needed --noconfirm base-devel cmake git ninja"
    );
    let ops = install("snes", InstallMethod::Source, &all_tools(), &Err("denied".to_string())).unwrap();
    assert_eq!(lines(&ops)[1], "fail no cache dir: denied");
}

#[test]
fn build_dirs() {
    assert_eq!(build_dir("/c", "ps1"), "/c/build/ps1");
    assert_eq!(build_dir("/c/", "ps1"), "/c/build/ps1");
}

fn sources(flatpak_user: bool, pacman: bool, cache: bool) -> InstalledSources {
    InstalledSources { flatpak_user, pacman, cache_dir: Some("/c".to_string()), build_dir_exists: cache }
}

#[test]
fn uninstall_actions_and_plan() {
    let def = find("snes").unwrap();
    let actions = uninstall_actions(&def, &sources(true, true, true));
    let described: Vec<String> = actions.iter().map(describe_action).collect();
    assert_eq!(
        described,
        vec![
            "flatpak uninstall --user -y com.snes9x.Snes9x".to_string(),
            "pkexec pacman -Rns --noconfirm snes9x-gtk".to_string(),
            "rm -rf /c/build/snes".to_string(),
        ]
    );
    assert!(matches!(actions[2], UninstallAction::SourceCache(_)));
    let p = uninstall_plan("n64", &sources(false, true, false)).unwrap();
    assert_eq!(p.commands.len(), 0);
    assert_eq!(p.emulator, "gopher64");
    assert_eq!(uninstall_plan("x", &sources(true, true, true)).err().unwrap(), "unknown system: x");
}

#[test]
fn uninstall_scripts() {
    let ops = uninstall("ps2", &sources(false, true, true)).unwrap();
    assert_eq!(
        lines(&ops),
        vec![
            "emit == Uninstalling PCSX2 ==",
            "emit $ pkexec pacman -Rns --noconfirm pcsx2",
            "run pkexec pacman -Rns --noconfirm pcsx2 @None !`pkexec` exited with a non-zero status",
            "emit $ rm -rf /c/build/ps2",
            "remove /c/build/ps2",
            "emit Done.",
        ]
    );
    let none = uninstall("ps3", &sources(false, false, false)).unwrap();
    assert_eq!(
        lines(&none),
        vec!["emit RPCS3 does not appear to be installed.", "fail RPCS3 does not appear to be installed."]
    );
}
