//! Static definitions for every supported system and its emulator.
//!
//! One `EmulatorDef` per system describes how to detect, install, and launch the
//! emulator. Install sources: prefer the official Arch/CachyOS `pacman` package,
//! else Flathub, with an opt-in build-from-source path using the project's
//! official upstream GitHub. The AUR is never used.
use vstd::prelude::*;
use crate::text::{str_eq, lower, owned, strings_view};

verus! {

/// The views of a sequence of string slices.
pub open spec fn strs_view(s: Seq<&'static str>) -> Seq<Seq<char>> {
    s.map_values(|x: &'static str| x@)
}

/// The view of an optional string slice.
pub open spec fn opt_str_view(o: Option<&'static str>) -> Option<Seq<char>> {
    match o {
        Some(s) => Some(s@),
        None => None,
    }
}

/// A shell recipe for building an emulator from its official upstream source.
pub struct SourceBuild {
    /// Official upstream git repository (used for display + `git clone`).
    pub repo_url: &'static str,
    /// Human-readable summary of what the build does (shown before running).
    pub summary: &'static str,
    /// Documented build steps, run in order from a fresh clone directory.
    pub steps: Vec<&'static str>,
}

/// Mathematical model of a `SourceBuild`.
pub struct SourceBuildView {
    pub repo_url: Seq<char>,
    pub summary: Seq<char>,
    pub steps: Seq<Seq<char>>,
}

impl View for SourceBuild {
    type V = SourceBuildView;

    open spec fn view(&self) -> SourceBuildView {
        SourceBuildView {
            repo_url: self.repo_url@,
            summary: self.summary@,
            steps: strs_view(self.steps@),
        }
    }
}

/// Everything the app needs to know about one system's emulator.
pub struct EmulatorDef {
    /// Stable system key, e.g. "snes", "n64", "ps1", "ps2", "ps3".
    pub system: &'static str,
    /// Display name of the system, e.g. "Super Nintendo".
    pub system_label: &'static str,
    /// Emulator name, e.g. "Snes9x".
    pub emulator: &'static str,
    /// libretro-thumbnails repo name for box art lookups.
    pub thumbnail_repo: &'static str,
    /// Official Arch/CachyOS repo package name, if the emulator is packaged there.
    pub pacman_pkg: Option<&'static str>,
    /// Flathub application id, if distributed on Flathub.
    pub flatpak_id: Option<&'static str>,
    /// Native binary names to probe on PATH (covers pacman/native/source installs).
    pub binaries: Vec<&'static str>,
    /// Extra args inserted before the ROM path when launching a native binary.
    pub launch_args: Vec<&'static str>,
    /// Extra args inserted before the ROM path when launching via `flatpak run`.
    pub flatpak_launch_args: Vec<&'static str>,
    /// Accepted file extensions (lowercase, no dot). Empty => folder-based (PS3).
    pub extensions: Vec<&'static str>,
    /// True when the system needs user-provided BIOS/firmware.
    pub bios_required: bool,
    /// Build-from-source recipe (opt-in install method).
    pub source_build: SourceBuild,
}

/// Mathematical model of an `EmulatorDef`.
pub struct EmulatorDefView {
    pub system: Seq<char>,
    pub system_label: Seq<char>,
    pub emulator: Seq<char>,
    pub thumbnail_repo: Seq<char>,
    pub pacman_pkg: Option<Seq<char>>,
    pub flatpak_id: Option<Seq<char>>,
    pub binaries: Seq<Seq<char>>,
    pub launch_args: Seq<Seq<char>>,
    pub flatpak_launch_args: Seq<Seq<char>>,
    pub extensions: Seq<Seq<char>>,
    pub bios_required: bool,
    pub source_build: SourceBuildView,
}

impl View for EmulatorDef {
    type V = EmulatorDefView;

    open spec fn view(&self) -> EmulatorDefView {
        EmulatorDefView {
            system: self.system@,
            system_label: self.system_label@,
            emulator: self.emulator@,
            thumbnail_repo: self.thumbnail_repo@,
            pacman_pkg: opt_str_view(self.pacman_pkg),
            flatpak_id: opt_str_view(self.flatpak_id),
            binaries: strs_view(self.binaries@),
            launch_args: strs_view(self.launch_args@),
            flatpak_launch_args: strs_view(self.flatpak_launch_args@),
            extensions: strs_view(self.extensions@),
            bios_required: self.bios_required,
            source_build: self.source_build@,
        }
    }
}

/// The views of a sequence of definitions.
pub open spec fn defs_view(s: Seq<EmulatorDef>) -> Seq<EmulatorDefView> {
    s.map_values(|d: EmulatorDef| d@)
}

/// The Super Nintendo entry.
pub open spec fn snes_def() -> EmulatorDefView {
    EmulatorDefView {
        system: "snes"@,
        system_label: "Super Nintendo"@,
        emulator: "Snes9x"@,
        thumbnail_repo: "Nintendo - Super Nintendo Entertainment System"@,
        pacman_pkg: Some("snes9x-gtk"@),
        flatpak_id: Some("com.snes9x.Snes9x"@),
        binaries: seq!["snes9x-gtk"@, "snes9x"@],
        launch_args: seq![],
        flatpak_launch_args: seq![],
        extensions: seq!["sfc"@, "smc"@, "swc"@, "fig"@],
        bios_required: false,
        source_build: SourceBuildView {
            repo_url: "https://github.com/snes9xgit/snes9x"@,
            summary: "Build the GTK front-end of Snes9x with CMake."@,
            steps: seq![
                "git clone --depth 1 https://github.com/snes9xgit/snes9x ."@,
                "cmake -S gtk -B build -DCMAKE_BUILD_TYPE=Release"@,
                "cmake --build build --parallel"@,
            ],
        },
    }
}

/// The Nintendo 64 entry (gopher64, the renamed simple64; the older tools stay
/// as fallback binaries).
pub open spec fn n64_def() -> EmulatorDefView {
    EmulatorDefView {
        system: "n64"@,
        system_label: "Nintendo 64"@,
        emulator: "gopher64"@,
        thumbnail_repo: "Nintendo - Nintendo 64"@,
        pacman_pkg: None,
        flatpak_id: Some("io.github.gopher64.gopher64"@),
        binaries: seq!["gopher64"@, "simple64-gui"@, "mupen64plus"@],
        launch_args: seq![],
        flatpak_launch_args: seq![],
        extensions: seq!["z64"@, "n64"@, "v64"@],
        bios_required: false,
        source_build: SourceBuildView {
            repo_url: "https://github.com/gopher64/gopher64"@,
            summary: "Build gopher64 (Rust) with Cargo. Needs the Rust toolchain and SDL3."@,
            steps: seq![
                "git clone --depth 1 --recursive https://github.com/gopher64/gopher64.git ."@,
                "cargo build --release"@,
            ],
        },
    }
}

/// The PlayStation entry.
pub open spec fn ps1_def() -> EmulatorDefView {
    EmulatorDefView {
        system: "ps1"@,
        system_label: "PlayStation"@,
        emulator: "DuckStation"@,
        thumbnail_repo: "Sony - PlayStation"@,
        pacman_pkg: None,
        flatpak_id: Some("org.duckstation.DuckStation"@),
        binaries: seq!["duckstation-qt-x11"@, "duckstation-qt"@, "duckstation"@],
        launch_args: seq!["--"@],
        flatpak_launch_args: seq!["--"@],
        extensions: seq!["cue"@, "bin"@, "chd"@, "pbp"@, "m3u"@, "ecm"@],
        bios_required: true,
        source_build: SourceBuildView {
            repo_url: "https://github.com/stenzek/duckstation"@,
            summary: "Build DuckStation with CMake (Qt front-end)."@,
            steps: seq![
                "git clone --depth 1 https://github.com/stenzek/duckstation ."@,
                "cmake -S . -B build -DCMAKE_BUILD_TYPE=Release"@,
                "cmake --build build --parallel"@,
            ],
        },
    }
}

/// The PlayStation 2 entry.
pub open spec fn ps2_def() -> EmulatorDefView {
    EmulatorDefView {
        system: "ps2"@,
        system_label: "PlayStation 2"@,
        emulator: "PCSX2"@,
        thumbnail_repo: "Sony - PlayStation 2"@,
        pacman_pkg: Some("pcsx2"@),
        flatpak_id: Some("net.pcsx2.PCSX2"@),
        binaries: seq!["pcsx2-qt"@, "pcsx2"@],
        launch_args: seq![],
        flatpak_launch_args: seq![],
        extensions: seq!["iso"@, "chd"@, "bin"@, "cue"@, "mdf"@, "gz"@],
        bios_required: true,
        source_build: SourceBuildView {
            repo_url: "https://github.com/PCSX2/pcsx2"@,
            summary: "Build PCSX2 with CMake (heavy; many multimedia deps required)."@,
            steps: seq![
                "git clone --depth 1 https://github.com/PCSX2/pcsx2 ."@,
                "cmake -S . -B build -DCMAKE_BUILD_TYPE=Release -DPACKAGE_MODE=OFF"@,
                "cmake --build build --parallel"@,
            ],
        },
    }
}

/// The PlayStation 3 entry (titles are folders, so no file extensions).
pub open spec fn ps3_def() -> EmulatorDefView {
    EmulatorDefView {
        system: "ps3"@,
        system_label: "PlayStation 3"@,
        emulator: "RPCS3"@,
        thumbnail_repo: "Sony - PlayStation 3"@,
        pacman_pkg: None,
        flatpak_id: Some("net.rpcs3.RPCS3"@),
        binaries: seq!["rpcs3"@],
        launch_args: seq![],
        flatpak_launch_args: seq![],
        extensions: seq![],
        bios_required: true,
        source_build: SourceBuildView {
            repo_url: "https://github.com/RPCS3/rpcs3"@,
            summary: "Build RPCS3 with CMake (very heavy; long compile, many deps)."@,
            steps: seq![
                "git clone --depth 1 --recursive https://github.com/RPCS3/rpcs3 ."@,
                "cmake -S . -B build -DCMAKE_BUILD_TYPE=Release"@,
                "cmake --build build --parallel"@,
            ],
        },
    }
}

/// The full set of supported emulators, in display order.
pub open spec fn registry() -> Seq<EmulatorDefView> {
    seq![snes_def(), n64_def(), ps1_def(), ps2_def(), ps3_def()]
}

/// The first definition in `defs` whose system key is `key`.
pub open spec fn find_in(defs: Seq<EmulatorDefView>, key: Seq<char>) -> Option<EmulatorDefView>
    decreases defs.len(),
{
    if defs.len() == 0 {
        None
    } else if defs[0].system == key {
        Some(defs[0])
    } else {
        find_in(defs.drop_first(), key)
    }
}

/// The error for a system key that the registry does not know.
pub open spec fn unknown_system(system: Seq<char>) -> Seq<char> {
    "unknown system: "@ + system
}

/// The registry entry for system key `key`, if any.
pub open spec fn spec_find(key: Seq<char>) -> Option<EmulatorDefView> {
    find_in(registry(), key)
}

/// The system key of the first definition in `defs` that accepts `ext`.
pub open spec fn ext_owner_in(defs: Seq<EmulatorDefView>, ext: Seq<char>) -> Option<Seq<char>>
    decreases defs.len(),
{
    if defs.len() == 0 {
        None
    } else if defs[0].extensions.contains(ext) {
        Some(defs[0].system)
    } else {
        ext_owner_in(defs.drop_first(), ext)
    }
}

/// The system key that claims the (lowercase, dot-less) extension `ext`.
pub open spec fn spec_system_for_extension(ext: Seq<char>) -> Option<Seq<char>> {
    ext_owner_in(registry(), ext)
}

fn snes() -> (d: EmulatorDef)
    ensures
        d@ == snes_def(),
{
    let d = EmulatorDef {
        system: "snes",
        system_label: "Super Nintendo",
        emulator: "Snes9x",
        thumbnail_repo: "Nintendo - Super Nintendo Entertainment System",
        pacman_pkg: Some("snes9x-gtk"),
        flatpak_id: Some("com.snes9x.Snes9x"),
        binaries: vec!["snes9x-gtk", "snes9x"],
        launch_args: vec![],
        flatpak_launch_args: vec![],
        extensions: vec!["sfc", "smc", "swc", "fig"],
        bios_required: false,
        source_build: SourceBuild {
            repo_url: "https://github.com/snes9xgit/snes9x",
            summary: "Build the GTK front-end of Snes9x with CMake.",
            steps: vec![
                "git clone --depth 1 https://github.com/snes9xgit/snes9x .",
                "cmake -S gtk -B build -DCMAKE_BUILD_TYPE=Release",
                "cmake --build build --parallel",
            ],
        },
    };
    assert(d@.binaries =~= snes_def().binaries);
    assert(d@.launch_args =~= snes_def().launch_args);
    assert(d@.flatpak_launch_args =~= snes_def().flatpak_launch_args);
    assert(d@.extensions =~= snes_def().extensions);
    assert(d@.source_build.steps =~= snes_def().source_build.steps);
    d
}

fn n64() -> (d: EmulatorDef)
    ensures
        d@ == n64_def(),
{
    let d = EmulatorDef {
        system: "n64",
        system_label: "Nintendo 64",
        emulator: "gopher64",
        thumbnail_repo: "Nintendo - Nintendo 64",
        pacman_pkg: None,
        flatpak_id: Some("io.github.gopher64.gopher64"),
        binaries: vec!["gopher64", "simple64-gui", "mupen64plus"],
        launch_args: vec![],
        flatpak_launch_args: vec![],
        extensions: vec!["z64", "n64", "v64"],
        bios_required: false,
        source_build: SourceBuild {
            repo_url: "https://github.com/gopher64/gopher64",
            summary: "Build gopher64 (Rust) with Cargo. Needs the Rust toolchain and SDL3.",
            steps: vec![
                "git clone --depth 1 --recursive https://github.com/gopher64/gopher64.git .",
                "cargo build --release",
            ],
        },
    };
    assert(d@.binaries =~= n64_def().binaries);
    assert(d@.launch_args =~= n64_def().launch_args);
    assert(d@.flatpak_launch_args =~= n64_def().flatpak_launch_args);
    assert(d@.extensions =~= n64_def().extensions);
    assert(d@.source_build.steps =~= n64_def().source_build.steps);
    d
}

fn ps1() -> (d: EmulatorDef)
    ensures
        d@ == ps1_def(),
{
    let d = EmulatorDef {
        system: "ps1",
        system_label: "PlayStation",
        emulator: "DuckStation",
        thumbnail_repo: "Sony - PlayStation",
        pacman_pkg: None,
        flatpak_id: Some("org.duckstation.DuckStation"),
        binaries: vec!["duckstation-qt-x11", "duckstation-qt", "duckstation"],
        launch_args: vec!["--"],
        flatpak_launch_args: vec!["--"],
        extensions: vec!["cue", "bin", "chd", "pbp", "m3u", "ecm"],
        bios_required: true,
        source_build: SourceBuild {
            repo_url: "https://github.com/stenzek/duckstation",
            summary: "Build DuckStation with CMake (Qt front-end).",
            steps: vec![
                "git clone --depth 1 https://github.com/stenzek/duckstation .",
                "cmake -S . -B build -DCMAKE_BUILD_TYPE=Release",
                "cmake --build build --parallel",
            ],
        },
    };
    assert(d@.binaries =~= ps1_def().binaries);
    assert(d@.launch_args =~= ps1_def().launch_args);
    assert(d@.flatpak_launch_args =~= ps1_def().flatpak_launch_args);
    assert(d@.extensions =~= ps1_def().extensions);
    assert(d@.source_build.steps =~= ps1_def().source_build.steps);
    d
}

fn ps2() -> (d: EmulatorDef)
    ensures
        d@ == ps2_def(),
{
    let d = EmulatorDef {
        system: "ps2",
        system_label: "PlayStation 2",
        emulator: "PCSX2",
        thumbnail_repo: "Sony - PlayStation 2",
        pacman_pkg: Some("pcsx2"),
        flatpak_id: Some("net.pcsx2.PCSX2"),
        binaries: vec!["pcsx2-qt", "pcsx2"],
        launch_args: vec![],
        flatpak_launch_args: vec![],
        extensions: vec!["iso", "chd", "bin", "cue", "mdf", "gz"],
        bios_required: true,
        source_build: SourceBuild {
            repo_url: "https://github.com/PCSX2/pcsx2",
            summary: "Build PCSX2 with CMake (heavy; many multimedia deps required).",
            steps: vec![
                "git clone --depth 1 https://github.com/PCSX2/pcsx2 .",
                "cmake -S . -B build -DCMAKE_BUILD_TYPE=Release -DPACKAGE_MODE=OFF",
                "cmake --build build --parallel",
            ],
        },
    };
    assert(d@.binaries =~= ps2_def().binaries);
    assert(d@.launch_args =~= ps2_def().launch_args);
    assert(d@.flatpak_launch_args =~= ps2_def().flatpak_launch_args);
    assert(d@.extensions =~= ps2_def().extensions);
    assert(d@.source_build.steps =~= ps2_def().source_build.steps);
    d
}

fn ps3() -> (d: EmulatorDef)
    ensures
        d@ == ps3_def(),
{
    let d = EmulatorDef {
        system: "ps3",
        system_label: "PlayStation 3",
        emulator: "RPCS3",
        thumbnail_repo: "Sony - PlayStation 3",
        pacman_pkg: None,
        flatpak_id: Some("net.rpcs3.RPCS3"),
        binaries: vec!["rpcs3"],
        launch_args: vec![],
        flatpak_launch_args: vec![],
        extensions: vec![],
        bios_required: true,
        source_build: SourceBuild {
            repo_url: "https://github.com/RPCS3/rpcs3",
            summary: "Build RPCS3 with CMake (very heavy; long compile, many deps).",
            steps: vec![
                "git clone --depth 1 --recursive https://github.com/RPCS3/rpcs3 .",
                "cmake -S . -B build -DCMAKE_BUILD_TYPE=Release",
                "cmake --build build --parallel",
            ],
        },
    };
    assert(d@.binaries =~= ps3_def().binaries);
    assert(d@.launch_args =~= ps3_def().launch_args);
    assert(d@.flatpak_launch_args =~= ps3_def().flatpak_launch_args);
    assert(d@.extensions =~= ps3_def().extensions);
    assert(d@.source_build.steps =~= ps3_def().source_build.steps);
    d
}

/// The full set of supported emulators, in display order.
pub fn emulators() -> (v: Vec<EmulatorDef>)
    ensures
        defs_view(v@) == registry(),
{
    let v = vec![snes(), n64(), ps1(), ps2(), ps3()];
    assert(defs_view(v@) =~= registry());
    v
}

/// Whether `list` holds a string equal to `s`.
pub fn contains_str(list: &Vec<&'static str>, s: &str) -> (r: bool)
    ensures
        r == strs_view(list@).contains(s@),
{
    let mut i: usize = 0;
    while i < list.len()
        invariant
            i <= list.len(),
            forall|j: int| 0 <= j < i ==> list@[j]@ != s@,
        decreases list.len() - i,
    {
        if str_eq(list[i], s) {
            assert(strs_view(list@)[i as int] == s@);
            return true;
        }
        i = i + 1;
    }
    assert forall|j: int| 0 <= j < strs_view(list@).len() implies strs_view(list@)[j] != s@ by {
        assert(strs_view(list@)[j] == list@[j]@);
    }
    false
}

/// Owned copies of a list of string slices.
pub fn to_strings(v: &Vec<&'static str>) -> (r: Vec<String>)
    ensures
        strings_view(r@) == strs_view(v@),
{
    let mut r: Vec<String> = Vec::new();
    let mut i: usize = 0;
    while i < v.len()
        invariant
            i <= v.len(),
            r.len() == i,
            forall|j: int| 0 <= j < i ==> #[trigger] r@[j]@ == v@[j]@,
        decreases v.len() - i,
    {
        r.push(owned(v[i]));
        i = i + 1;
    }
    assert(strings_view(r@) =~= strs_view(v@)) by {
        assert forall|j: int| 0 <= j < v.len() implies strings_view(r@)[j] == strs_view(v@)[j] by {
            assert(r@[j]@ == v@[j]@);
        }
    }
    r
}

/// Look up an emulator definition by system key.
pub fn find(system: &str) -> (r: Option<EmulatorDef>)
    ensures
        match r {
            Some(d) => spec_find(system@) == Some(d@),
            None => spec_find(system@) is None,
        },
{
    let mut defs = emulators();
    let ghost all = defs_view(defs@);
    let mut i: usize = 0;
    assert(all.skip(0) =~= all);
    while i < defs.len()
        invariant
            all == registry(),
            defs_view(defs@) == all,
            i <= defs.len(),
            find_in(all, system@) == find_in(all.skip(i as int), system@),
        decreases defs.len() - i,
    {
        assert(defs_view(defs@)[i as int] == defs@[i as int]@);
        if str_eq(defs[i].system, system) {
            let d = defs.remove(i);
            return Some(d);
        }
        assert(all.skip(i as int).drop_first() =~= all.skip(i + 1));
        i = i + 1;
    }
    None
}

/// Classify a file extension (lowercase, no dot) to a system key, if any.
pub fn system_for_extension(ext: &str) -> (r: Option<&'static str>)
    ensures
        opt_str_view(r) == spec_system_for_extension(ext@),
{
    let defs = emulators();
    let ghost all = defs_view(defs@);
    let mut i: usize = 0;
    assert(all.skip(0) =~= all);
    while i < defs.len()
        invariant
            all == registry(),
            defs_view(defs@) == all,
            i <= defs.len(),
            ext_owner_in(all, ext@) == ext_owner_in(all.skip(i as int), ext@),
        decreases defs.len() - i,
    {
        assert(defs_view(defs@)[i as int] == defs@[i as int]@);
        if contains_str(&defs[i].extensions, ext) {
            return Some(defs[i].system);
        }
        assert(all.skip(i as int).drop_first() =~= all.skip(i + 1));
        i = i + 1;
    }
    None
}

/* Laws of the registry */

/// The system keys of the registry.
pub open spec fn registry_keys() -> Seq<Seq<char>> {
    seq!["snes"@, "n64"@, "ps1"@, "ps2"@, "ps3"@]
}

/// No two systems in the registry share a key.
pub proof fn law_registry_keys_distinct()
    ensures
        forall|i: int, j: int|
            0 <= i < j < registry().len() ==> registry()[i].system != registry()[j].system,
        forall|i: int| 0 <= i < registry().len() ==> registry()[i].system == registry_keys()[i],
{
    reveal_strlit("snes");
    reveal_strlit("n64");
    reveal_strlit("ps1");
    reveal_strlit("ps2");
    reveal_strlit("ps3");
    let k = registry_keys();
    assert(k[0].len() == 4);
    assert(k[1][0] == 'n' && k[2][0] == 'p' && k[3][0] == 'p' && k[4][0] == 'p');
    assert(k[2][2] == '1' && k[3][2] == '2' && k[4][2] == '3');
    assert forall|i: int, j: int| 0 <= i < j < k.len() implies k[i] != k[j] by {
        if i == 0 {
            assert(k[i].len() != k[j].len());
        } else if i == 1 {
            assert(k[i][0] != k[j][0]);
        } else {
            assert(k[i][2] != k[j][2]);
        }
    }
}

proof fn lemma_find_in_index(defs: Seq<EmulatorDefView>, i: int)
    requires
        0 <= i < defs.len(),
        forall|a: int, b: int| 0 <= a < b < defs.len() ==> defs[a].system != defs[b].system,
    ensures
        find_in(defs, defs[i].system) == Some(defs[i]),
    decreases i,
{
    if i > 0 {
        let rest = defs.drop_first();
        assert(rest[i - 1] == defs[i]);
        lemma_find_in_index(rest, i - 1);
    }
}

/// Looking a registry entry up by its own key gives that entry back.
pub proof fn law_find_own_key(i: int)
    requires
        0 <= i < registry().len(),
    ensures
        spec_find(registry()[i].system) == Some(registry()[i]),
{
    law_registry_keys_distinct();
    lemma_find_in_index(registry(), i);
}

proof fn lemma_ext_owner_in(defs: Seq<EmulatorDefView>, ext: Seq<char>)
    requires
        forall|a: int, b: int| 0 <= a < b < defs.len() ==> defs[a].system != defs[b].system,
    ensures
        ext_owner_in(defs, ext) is Some <==> exists|i: int|
            0 <= i < defs.len() && #[trigger] defs[i].extensions.contains(ext),
        ext_owner_in(defs, ext) matches Some(sys) ==> (find_in(defs, sys) matches Some(d)
            && d.extensions.contains(ext) && d.system == sys),
    decreases defs.len(),
{
    if defs.len() > 0 {
        let rest = defs.drop_first();
        lemma_ext_owner_in(rest, ext);
        if defs[0].extensions.contains(ext) {
            lemma_find_in_index(defs, 0);
        } else {
            if exists|i: int| 0 <= i < defs.len() && #[trigger] defs[i].extensions.contains(ext) {
                let i = choose|i: int| 0 <= i < defs.len() && #[trigger] defs[i].extensions.contains(ext);
                assert(rest[i - 1].extensions.contains(ext));
            }
            if ext_owner_in(rest, ext) is Some {
                let j = choose|j: int| 0 <= j < rest.len() && #[trigger] rest[j].extensions.contains(ext);
                assert(defs[j + 1] == rest[j]);
                let sys = ext_owner_in(rest, ext)->0;
                assert(sys != defs[0].system) by {
                    let d = find_in(rest, sys)->0;
                    lemma_find_in_some(rest, sys);
                }
            }
        }
    }
}

pub proof fn lemma_find_in_some(defs: Seq<EmulatorDefView>, key: Seq<char>)
    ensures
        find_in(defs, key) matches Some(d) ==> exists|i: int|
            0 <= i < defs.len() && defs[i] == d && d.system == key,
    decreases defs.len(),
{
    if defs.len() > 0 && defs[0].system != key {
        lemma_find_in_some(defs.drop_first(), key);
        if find_in(defs, key) is Some {
            let d = find_in(defs, key)->0;
            let i = choose|i: int| 0 <= i < defs.drop_first().len() && defs.drop_first()[i] == d && d.system == key;
            assert(defs[i + 1] == d);
        }
    }
}

/// An extension belongs to a system exactly when some emulator accepts it,
/// and then that system's emulator accepts it.
pub proof fn law_extension_owner(ext: Seq<char>)
    ensures
        spec_system_for_extension(ext) is Some <==> exists|i: int|
            0 <= i < registry().len() && #[trigger] registry()[i].extensions.contains(ext),
        spec_system_for_extension(ext) matches Some(sys) ==> (spec_find(sys) matches Some(d)
            && d.extensions.contains(ext)),
{
    law_registry_keys_distinct();
    lemma_ext_owner_in(registry(), ext);
}

/// An extension as the registry keeps it: lowercase, without a dot.
pub open spec fn plain_extension(e: Seq<char>) -> bool {
    lower(e) == e && !e.contains('.')
}

proof fn lemma_ext_plain(e: Seq<char>)
    requires
        forall|i: int| 0 <= i < e.len() ==> ('a' <= #[trigger] e[i] <= 'z') || ('0' <= e[i] <= '9'),
    ensures
        plain_extension(e),
{
    assert(lower(e) =~= e);
}

/// Every accepted extension is lowercase and carries no dot.
pub proof fn law_extensions_plain()
    ensures
        forall|i: int, j: int|
            0 <= i < registry().len() && 0 <= j < registry()[i].extensions.len()
                ==> plain_extension(#[trigger] registry()[i].extensions[j]),
{
    reveal_strlit("sfc");
    reveal_strlit("smc");
    reveal_strlit("swc");
    reveal_strlit("fig");
    reveal_strlit("z64");
    reveal_strlit("n64");
    reveal_strlit("v64");
    reveal_strlit("cue");
    reveal_strlit("bin");
    reveal_strlit("chd");
    reveal_strlit("pbp");
    reveal_strlit("m3u");
    reveal_strlit("ecm");
    reveal_strlit("iso");
    reveal_strlit("mdf");
    reveal_strlit("gz");
    lemma_ext_plain("sfc"@);
    lemma_ext_plain("smc"@);
    lemma_ext_plain("swc"@);
    lemma_ext_plain("fig"@);
    lemma_ext_plain("z64"@);
    lemma_ext_plain("n64"@);
    lemma_ext_plain("v64"@);
    lemma_ext_plain("cue"@);
    lemma_ext_plain("bin"@);
    lemma_ext_plain("chd"@);
    lemma_ext_plain("pbp"@);
    lemma_ext_plain("m3u"@);
    lemma_ext_plain("ecm"@);
    lemma_ext_plain("iso"@);
    lemma_ext_plain("mdf"@);
    lemma_ext_plain("gz"@);
    assert forall|i: int, j: int|
        0 <= i < registry().len() && 0 <= j < registry()[i].extensions.len() implies plain_extension(
            #[trigger] registry()[i].extensions[j],
        ) by {
        assert(0 <= i < 5);
    }
}

} // verus!
