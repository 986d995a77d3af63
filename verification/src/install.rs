//! Install emulators from allowed sources: official pacman repos, Flathub, or a
//! build from the project's official upstream GitHub. The AUR is never used.
//!
//! Planning is pure; installing and uninstalling are described as a script of
//! [`InstallOp`]s that the host runs in order, stopping at the first failure.
use vstd::prelude::*;
use crate::text::{owned, push_str, join_sep, strings_view, concat};
use crate::registry::{EmulatorDef, EmulatorDefView, find, spec_find, strs_view, to_strings, unknown_system};
use crate::paths::{join, join_chars};

verus! {

/// Which install source to use for an emulator.
#[derive(Clone, Copy, Debug, PartialEq, Eq, Structural)]
pub enum InstallMethod {
    /// Official Arch/CachyOS repo via pacman.
    Pacman,
    /// Flathub via flatpak (per-user install).
    Flatpak,
    /// Build from the official upstream GitHub source.
    Source,
}

/// A previewable install plan: the method and the exact shell commands.
pub struct InstallPlan {
    pub system: String,
    pub emulator: String,
    pub method: InstallMethod,
    /// Human-readable commands, shown to the user before they confirm.
    pub commands: Vec<String>,
    /// Available alternate methods the user could pick instead.
    pub available_methods: Vec<InstallMethod>,
}

/// Mathematical model of an `InstallPlan`.
pub struct InstallPlanView {
    pub system: Seq<char>,
    pub emulator: Seq<char>,
    pub method: InstallMethod,
    pub commands: Seq<Seq<char>>,
    pub available_methods: Seq<InstallMethod>,
}

impl View for InstallPlan {
    type V = InstallPlanView;

    open spec fn view(&self) -> InstallPlanView {
        InstallPlanView {
            system: self.system@,
            emulator: self.emulator@,
            method: self.method,
            commands: strings_view(self.commands@),
            available_methods: self.available_methods@,
        }
    }
}

/// Methods available for an emulator, in preference order.
pub open spec fn spec_available_methods(d: EmulatorDefView) -> Seq<InstallMethod> {
    (if d.pacman_pkg is Some {
        seq![InstallMethod::Pacman]
    } else {
        Seq::empty()
    }) + (if d.flatpak_id is Some {
        seq![InstallMethod::Flatpak]
    } else {
        Seq::empty()
    }) + seq![InstallMethod::Source]
}

/// Methods available for an emulator, in preference order.
pub fn available_methods(def: &EmulatorDef) -> (r: Vec<InstallMethod>)
    ensures
        r@ == spec_available_methods(def@),
{
    let mut methods: Vec<InstallMethod> = Vec::new();
    if def.pacman_pkg.is_some() {
        methods.push(InstallMethod::Pacman);
    }
    if def.flatpak_id.is_some() {
        methods.push(InstallMethod::Flatpak);
    }
    methods.push(InstallMethod::Source);  // always possible
    assert(methods@ =~= spec_available_methods(def@));
    methods
}

/// The default (preferred) method for an emulator.
pub fn preferred_method(def: &EmulatorDef) -> (r: InstallMethod)
    ensures
        r == spec_available_methods(def@)[0],
{
    let methods = available_methods(def);
    methods[0]
}

/// Display label for a method.
pub open spec fn spec_label(m: InstallMethod) -> Seq<char> {
    match m {
        InstallMethod::Pacman => "official repo (pacman)"@,
        InstallMethod::Flatpak => "Flathub (flatpak)"@,
        InstallMethod::Source => "source build"@,
    }
}

/// Display label for a method.
pub fn label(method: InstallMethod) -> (r: &'static str)
    ensures
        r@ == spec_label(method),
{
    match method {
        InstallMethod::Pacman => "official repo (pacman)",
        InstallMethod::Flatpak => "Flathub (flatpak)",
        InstallMethod::Source => "source build",
    }
}

/// The command that registers the Flathub remote for the user.
pub open spec fn flathub_remote_cmd() -> Seq<char> {
    "flatpak remote-add --if-not-exists --user flathub https://flathub.org/repo/flathub.flatpakrepo"@
}

/// The shell commands an install of `d` by method `m` runs.
pub open spec fn install_commands(d: EmulatorDefView, m: InstallMethod) -> Seq<Seq<char>> {
    match m {
        InstallMethod::Pacman => seq![
            "pkexec pacman -S --needed --noconfirm "@ + d.pacman_pkg->0,
        ],
        InstallMethod::Flatpak => seq![
            flathub_remote_cmd(),
            "flatpak install --user -y flathub "@ + d.flatpak_id->0,
        ],
        InstallMethod::Source => d.source_build.steps,
    }
}

/// The plan for `system`, by `method` or else the preferred method.
pub open spec fn spec_plan(system: Seq<char>, method: Option<InstallMethod>) -> Result<
    InstallPlanView,
    Seq<char>,
> {
    match spec_find(system) {
        None => Err(unknown_system(system)),
        Some(d) => {
            let available = spec_available_methods(d);
            let m = match method {
                Some(m) => m,
                None => available[0],
            };
            if !available.contains(m) {
                Err(spec_label(m) + " is unavailable for "@ + d.emulator)
            } else {
                Ok(
                    InstallPlanView {
                        system: d.system,
                        emulator: d.emulator,
                        method: m,
                        commands: install_commands(d, m),
                        available_methods: available,
                    },
                )
            }
        },
    }
}

fn contains_method(v: &Vec<InstallMethod>, m: InstallMethod) -> (r: bool)
    ensures
        r == v@.contains(m),
{
    let mut i: usize = 0;
    while i < v.len()
        invariant
            i <= v.len(),
            forall|j: int| 0 <= j < i ==> v@[j] != m,
        decreases v.len() - i,
    {
        if v[i] == m {
            return true;
        }
        i = i + 1;
    }
    false
}

/// Build a preview plan for `system`, defaulting to its preferred method (or the
/// caller's chosen `method` when provided).
pub fn plan(system: &str, method: Option<InstallMethod>) -> (r: Result<InstallPlan, String>)
    ensures
        match r {
            Ok(p) => spec_plan(system@, method) == Ok::<InstallPlanView, Seq<char>>(p@),
            Err(e) => spec_plan(system@, method) == Err::<InstallPlanView, Seq<char>>(e@),
        },
{
    let def = match find(system) {
        Some(d) => d,
        None => {
            return Err(concat("unknown system: ", system));
        },
    };
    let available = available_methods(&def);
    let method = match method {
        Some(m) => m,
        None => available[0],
    };
    if !contains_method(&available, method) {
        let mut msg = owned(label(method));
        push_str(&mut msg, " is unavailable for ");
        push_str(&mut msg, def.emulator);
        return Err(msg);
    }
    let commands: Vec<String> = match method {
        InstallMethod::Pacman => {
            let pkg = match def.pacman_pkg {
                Some(p) => p,
                None => "",
            };
            let c = concat("pkexec pacman -S --needed --noconfirm ", pkg);
            let v = vec![c];
            proof {
                let want = install_commands(def@, method);
                assert(strings_view(v@) =~= want);
            }
            v
        },
        InstallMethod::Flatpak => {
            let id = match def.flatpak_id {
                Some(p) => p,
                None => "",
            };
            let v = vec![
                owned(
                    "flatpak remote-add --if-not-exists --user flathub https://flathub.org/repo/flathub.flatpakrepo",
                ),
                concat("flatpak install --user -y flathub ", id),
            ];
            proof {
                let want = install_commands(def@, method);
                assert(strings_view(v@) =~= want);
            }
            v
        },
        InstallMethod::Source => to_strings(&def.source_build.steps),
    };
    Ok(
        InstallPlan {
            system: owned(def.system),
            emulator: owned(def.emulator),
            method,
            commands,
            available_methods: available,
        },
    )
}

/// A plan's method is one of its available methods, which always end with the
/// source build; without a chosen method the plan uses the first (preferred)
/// one.
pub proof fn law_plan_method(system: Seq<char>, method: Option<InstallMethod>)
    ensures
        spec_plan(system, method) matches Ok(p) ==> {
            &&& p.available_methods.contains(p.method)
            &&& p.available_methods.last() == InstallMethod::Source
            &&& method matches Some(m) ==> p.method == m
            &&& method is None ==> p.method == p.available_methods[0]
        },
{
    if let Some(d) = spec_find(system) {
        let a = spec_available_methods(d);
        assert(a.last() == InstallMethod::Source);
        assert(a.contains(a[0]));
    }
}

/// Building from source is possible for every known system.
pub proof fn law_source_always_available(system: Seq<char>)
    requires
        spec_find(system) is Some,
    ensures
        spec_plan(system, Some(InstallMethod::Source)) is Ok,
{
    let a = spec_available_methods(spec_find(system)->0);
    assert(a[a.len() - 1] == InstallMethod::Source);
}

/* Install and uninstall scripts */

/// One step of an install or uninstall script. The host runs the steps in
/// order as [`crate::script`] directs, which ends the script at the first
/// step that fails.
pub enum InstallOp {
    /// Send one log line to the UI.
    Emit(String),
    /// Stop, failing with this message.
    Fail(String),
    /// Run `program args...` (in `cwd` when given), streaming its output; a
    /// non-zero exit stops the script with `failure`.
    Run { program: String, args: Vec<String>, cwd: Option<String>, failure: String },
    /// Delete the directory if present (ignoring errors), then create it afresh.
    ResetBuildDir(String),
    /// Delete the directory and everything in it.
    RemoveBuildDir(String),
}

/// Mathematical model of an `InstallOp`.
pub enum InstallOpView {
    Emit(Seq<char>),
    Fail(Seq<char>),
    Run { program: Seq<char>, args: Seq<Seq<char>>, cwd: Option<Seq<char>>, failure: Seq<char> },
    ResetBuildDir(Seq<char>),
    RemoveBuildDir(Seq<char>),
}

/// The view of an optional `String`.
pub open spec fn opt_string_view(o: Option<String>) -> Option<Seq<char>> {
    match o {
        Some(s) => Some(s@),
        None => None,
    }
}

impl View for InstallOp {
    type V = InstallOpView;

    open spec fn view(&self) -> InstallOpView {
        match self {
            InstallOp::Emit(s) => InstallOpView::Emit(s@),
            InstallOp::Fail(s) => InstallOpView::Fail(s@),
            InstallOp::Run { program, args, cwd, failure } => InstallOpView::Run {
                program: program@,
                args: strings_view(args@),
                cwd: opt_string_view(*cwd),
                failure: failure@,
            },
            InstallOp::ResetBuildDir(d) => InstallOpView::ResetBuildDir(d@),
            InstallOp::RemoveBuildDir(d) => InstallOpView::RemoveBuildDir(d@),
        }
    }
}

/// The views of a script.
pub open spec fn ops_view(s: Seq<InstallOp>) -> Seq<InstallOpView> {
    s.map_values(|o: InstallOp| o@)
}

/// Which tools the host has on PATH.
pub struct HostTools {
    pub flatpak: bool,
    pub git: bool,
    pub cmake: bool,
    pub make: bool,
    pub ninja: bool,
    pub cc: bool,
    pub gcc: bool,
    pub clang: bool,
}

/// Tools every source build needs that are missing, by human-readable name.
pub open spec fn spec_missing_build_tools(t: HostTools) -> Seq<Seq<char>> {
    (if !t.git {
        seq!["git"@]
    } else {
        Seq::empty()
    }) + (if !t.cmake {
        seq!["cmake"@]
    } else {
        Seq::empty()
    }) + (if !t.make && !t.ninja {
        seq!["make or ninja"@]
    } else {
        Seq::empty()
    }) + (if !t.cc && !t.gcc && !t.clang {
        seq!["a C/C++ compiler (gcc)"@]
    } else {
        Seq::empty()
    })
}

/// Tools every source build needs before its recipe (git clone + cmake) can run.
/// Returns the human-readable names of the ones that are missing from PATH.
pub fn missing_build_tools(t: &HostTools) -> (r: Vec<&'static str>)
    ensures
        strs_view(r@) == spec_missing_build_tools(*t),
{
    let mut missing: Vec<&'static str> = Vec::new();
    if !t.git {
        missing.push("git");
    }
    if !t.cmake {
        missing.push("cmake");
    }
    if !t.make && !t.ninja {
        missing.push("make or ninja");
    }
    if !t.cc && !t.gcc && !t.clang {
        missing.push("a C/C++ compiler (gcc)");
    }
    assert(strs_view(missing@) =~= spec_missing_build_tools(*t));
    missing
}

/// `parts` joined with `sep` between neighbours.
pub fn join_strings(parts: &Vec<String>, sep: &str) -> (r: String)
    ensures
        r@ == join_sep(strings_view(parts@), sep@),
{
    let ghost all = strings_view(parts@);
    let mut r = String::new();
    let mut i: usize = 0;
    while i < parts.len()
        invariant
            all == strings_view(parts@),
            i <= parts.len(),
            r@ == join_sep(all.take(i as int), sep@),
        decreases parts.len() - i,
    {
        assert(all.take(i + 1).drop_last() =~= all.take(i as int));
        assert(all.take(i + 1).last() == parts@[i as int]@);
        if i > 0 {
            push_str(&mut r, sep);
        } else {
            assert(r@ =~= Seq::<char>::empty());
        }
        push_str(&mut r, parts[i].as_str());
        i = i + 1;
    }
    assert(all.take(i as int) =~= all);
    r
}

/// The script of `run(program, args)`: echo the command, then run it.
pub open spec fn spec_run_ops(program: Seq<char>, args: Seq<Seq<char>>) -> Seq<InstallOpView> {
    seq![
        InstallOpView::Emit("$ "@ + program + " "@ + join_sep(args, " "@)),
        InstallOpView::Run {
            program,
            args,
            cwd: None,
            failure: "`"@ + program + "` exited with a non-zero status"@,
        },
    ]
}

/// The script of `run(program, args)`: echo the command, then run it.
fn run_ops(program: &str, args: Vec<String>) -> (r: Vec<InstallOp>)
    ensures
        ops_view(r@) == spec_run_ops(program@, strings_view(args@)),
{
    let mut line = concat("$ ", program);
    push_str(&mut line, " ");
    let joined = join_strings(&args, " ");
    push_str(&mut line, joined.as_str());
    let mut failure = concat("`", program);
    push_str(&mut failure, "` exited with a non-zero status");
    let ghost av = strings_view(args@);
    let r = vec![
        InstallOp::Emit(line),
        InstallOp::Run { program: owned(program), args, cwd: None, failure },
    ];
    assert(ops_view(r@) =~= spec_run_ops(program@, av));
    r
}

/// Build-from-source cache directory of `system`: `<cache>/build/<system>`.
pub open spec fn spec_build_dir(cache: Seq<char>, system: Seq<char>) -> Seq<char> {
    join(join(cache, "build"@), system)
}

/// Build-from-source cache directory of `system`: `<cache>/build/<system>`.
pub fn build_dir(cache: &str, system: &str) -> (r: String)
    ensures
        r@ == spec_build_dir(cache@, system@),
{
    let a = join_chars(&crate::text::chars_of(cache), &crate::text::chars_of("build"));
    let b = join_chars(&a, &crate::text::chars_of(system));
    crate::text::string_from_chars(&b)
}

/// Echo, then run one documented build step through the shell in `dir`.
pub open spec fn step_ops(step: Seq<char>, dir: Seq<char>) -> Seq<InstallOpView> {
    seq![
        InstallOpView::Emit("$ "@ + step),
        InstallOpView::Run {
            program: "sh"@,
            args: seq!["-c"@, step],
            cwd: Some(dir),
            failure: "source build step failed: "@ + step,
        },
    ]
}

/// The scripts of all `steps`, in order.
pub open spec fn steps_ops(steps: Seq<Seq<char>>, dir: Seq<char>) -> Seq<InstallOpView>
    decreases steps.len(),
{
    if steps.len() == 0 {
        Seq::empty()
    } else {
        steps_ops(steps.drop_last(), dir) + step_ops(steps.last(), dir)
    }
}

/// The message shown when build tools are missing.
pub open spec fn missing_tools_msg(missing: Seq<Seq<char>>) -> Seq<char> {
    "Missing build tools: "@ + join_sep(missing, ", "@)
        + ".\nInstall the base toolchain once, then retry:\n    pkexec pacman -S --needed --noconfirm base-devel cmake git ninja"@
}

/// Clone and build an emulator from its official source in a per-system
/// cache dir, after checking the base toolchain.
pub open spec fn spec_source_build_ops(
    d: EmulatorDefView,
    tools: HostTools,
    cache: Result<Seq<char>, Seq<char>>,
) -> Seq<InstallOpView> {
    let missing = spec_missing_build_tools(tools);
    if missing.len() > 0 {
        let msg = missing_tools_msg(missing);
        seq![InstallOpView::Emit(msg), InstallOpView::Fail(msg)]
    } else {
        match cache {
            Err(e) => seq![InstallOpView::Fail("no cache dir: "@ + e)],
            Ok(c) => {
                let dir = spec_build_dir(c, d.system);
                seq![
                    InstallOpView::ResetBuildDir(dir),
                    InstallOpView::Emit("Build dir (clean): "@ + dir),
                    InstallOpView::Emit(d.source_build.summary),
                ] + steps_ops(d.source_build.steps, dir)
            },
        }
    }
}

/// The message shown when flatpak itself is missing.
pub open spec fn flatpak_missing_msg() -> Seq<char> {
    "flatpak is not installed. Install it once with: sudo pacman -S flatpak"@
}

/// The install script for `system` by `method`.
pub open spec fn spec_install(
    system: Seq<char>,
    method: InstallMethod,
    tools: HostTools,
    cache: Result<Seq<char>, Seq<char>>,
) -> Result<Seq<InstallOpView>, Seq<char>> {
    match spec_find(system) {
        None => Err(unknown_system(system)),
        Some(d) => Ok(
            seq![
                InstallOpView::Emit(
                    "== Installing "@ + d.emulator + " via "@ + spec_label(method) + " =="@,
                ),
            ] + match method {
                InstallMethod::Pacman => match d.pacman_pkg {
                    None => seq![InstallOpView::Fail("no pacman package for this emulator"@)],
                    Some(pkg) => spec_run_ops(
                        "pkexec"@,
                        seq!["pacman"@, "-S"@, "--needed"@, "--noconfirm"@, pkg],
                    ),
                },
                InstallMethod::Flatpak => if !tools.flatpak {
                    seq![
                        InstallOpView::Emit(flatpak_missing_msg()),
                        InstallOpView::Fail(flatpak_missing_msg()),
                    ]
                } else {
                    match d.flatpak_id {
                        None => seq![InstallOpView::Fail("no flatpak id for this emulator"@)],
                        Some(id) => spec_run_ops(
                            "flatpak"@,
                            seq![
                                "remote-add"@,
                                "--if-not-exists"@,
                                "--user"@,
                                "flathub"@,
                                "https://flathub.org/repo/flathub.flatpakrepo"@,
                            ],
                        ) + spec_run_ops(
                            "flatpak"@,
                            seq!["install"@, "--user"@, "-y"@, "flathub"@, id],
                        ),
                    }
                },
                InstallMethod::Source => spec_source_build_ops(d, tools, cache),
            },
        ),
    }
}

/// The view of the cache-directory lookup result.
pub open spec fn cache_view(c: Result<String, String>) -> Result<Seq<char>, Seq<char>> {
    match c {
        Ok(s) => Ok(s@),
        Err(e) => Err(e@),
    }
}

fn source_build_ops(def: &EmulatorDef, tools: &HostTools, cache: &Result<String, String>) -> (r: Vec<
    InstallOp,
>)
    ensures
        ops_view(r@) == spec_source_build_ops(def@, *tools, cache_view(*cache)),
{
    // Preflight: without the base toolchain the recipe fails on an opaque
    // "command not found", so report exactly what's missing and how to get it.
    let missing = missing_build_tools(tools);
    if missing.len() > 0 {
        let names = to_strings(&missing);
        let mut msg = concat("Missing build tools: ", join_strings(&names, ", ").as_str());
        push_str(
            &mut msg,
            ".\nInstall the base toolchain once, then retry:\n    pkexec pacman -S --needed --noconfirm base-devel cmake git ninja",
        );
        let copy = owned(msg.as_str());
        let r = vec![InstallOp::Emit(copy), InstallOp::Fail(msg)];
        assert(ops_view(r@) =~= spec_source_build_ops(def@, *tools, cache_view(*cache)));
        return r;
    }
    let cache_dir = match cache {
        Err(e) => {
            let r = vec![InstallOp::Fail(concat("no cache dir: ", e.as_str()))];
            assert(ops_view(r@) =~= spec_source_build_ops(def@, *tools, cache_view(*cache)));
            return r;
        },
        Ok(c) => c,
    };
    let dir = build_dir(cache_dir.as_str(), def.system);
    let mut r = vec![
        InstallOp::ResetBuildDir(owned(dir.as_str())),
        InstallOp::Emit(concat("Build dir (clean): ", dir.as_str())),
        InstallOp::Emit(owned(def.source_build.summary)),
    ];
    let ghost head = ops_view(r@);
    let ghost steps = strs_view(def.source_build.steps@);
    let mut i: usize = 0;
    while i < def.source_build.steps.len()
        invariant
            steps == strs_view(def.source_build.steps@),
            i <= def.source_build.steps.len(),
            ops_view(r@) == head + steps_ops(steps.take(i as int), dir@),
        decreases def.source_build.steps.len() - i,
    {
        let step = def.source_build.steps[i];
        let ghost before = r@;
        let args = to_strings(&vec!["-c", step]);
        assert(strings_view(args@) =~= seq!["-c"@, step@]);
        let e = InstallOp::Emit(concat("$ ", step));
        let run = InstallOp::Run {
            program: owned("sh"),
            args,
            cwd: Some(owned(dir.as_str())),
            failure: concat("source build step failed: ", step),
        };
        let ghost two = seq![e@, run@];
        assert(two =~= step_ops(step@, dir@));
        r.push(e);
        r.push(run);
        proof {
            assert(steps.take(i + 1).drop_last() =~= steps.take(i as int));
            assert(steps.take(i + 1).last() == step@);
            assert(ops_view(r@) =~= ops_view(before) + two);
        }
        i = i + 1;
    }
    assert(steps.take(i as int) =~= steps);
    r
}

/// The script that installs `system` by `method`, given which tools the host
/// has and where its cache directory is (or why there is none). Err for an
/// unknown system.
pub fn install(
    system: &str,
    method: InstallMethod,
    tools: &HostTools,
    cache_dir: &Result<String, String>,
) -> (r: Result<Vec<InstallOp>, String>)
    ensures
        match r {
            Ok(ops) => spec_install(system@, method, *tools, cache_view(*cache_dir)) == Ok::<
                Seq<InstallOpView>,
                Seq<char>,
            >(ops_view(ops@)),
            Err(e) => spec_install(system@, method, *tools, cache_view(*cache_dir)) == Err::<
                Seq<InstallOpView>,
                Seq<char>,
            >(e@),
        },
{
    let def = match find(system) {
        Some(d) => d,
        None => {
            return Err(concat("unknown system: ", system));
        },
    };
    let mut header = concat("== Installing ", def.emulator);
    push_str(&mut header, " via ");
    push_str(&mut header, label(method));
    push_str(&mut header, " ==");
    let mut ops = vec![InstallOp::Emit(header)];
    let ghost head = ops_view(ops@);
    let mut rest: Vec<InstallOp> = match method {
        InstallMethod::Pacman => match def.pacman_pkg {
            None => vec![InstallOp::Fail(owned("no pacman package for this emulator"))],
            Some(pkg) => {
                let args = to_strings(&vec!["pacman", "-S", "--needed", "--noconfirm", pkg]);
                assert(strings_view(args@) =~= seq!["pacman"@, "-S"@, "--needed"@, "--noconfirm"@, pkg@]);
                run_ops("pkexec", args)
            },
        },
        InstallMethod::Flatpak => {
            if !tools.flatpak {
                let msg = "flatpak is not installed. Install it once with: sudo pacman -S flatpak";
                vec![InstallOp::Emit(owned(msg)), InstallOp::Fail(owned(msg))]
            } else {
                match def.flatpak_id {
                    None => vec![InstallOp::Fail(owned("no flatpak id for this emulator"))],
                    Some(id) => {
                        let args1 = to_strings(&vec![
                                "remote-add",
                                "--if-not-exists",
                                "--user",
                                "flathub",
                                "https://flathub.org/repo/flathub.flatpakrepo",
                            ],
                        );
                        assert(strings_view(args1@) =~= seq!["remote-add"@, "--if-not-exists"@, "--user"@, "flathub"@, "https://flathub.org/repo/flathub.flatpakrepo"@]);
                        let args2 = to_strings(&vec!["install", "--user", "-y", "flathub", id]);
                        assert(strings_view(args2@) =~= seq!["install"@, "--user"@, "-y"@, "flathub"@, id@]);
                        let mut a = run_ops("flatpak", args1);
                        let mut b = run_ops("flatpak", args2);
                        let ghost va = ops_view(a@);
                        let ghost vb = ops_view(b@);
                        a.append(&mut b);
                        assert(ops_view(a@) =~= va + vb);
                        a
                    },
                }
            }
        },
        InstallMethod::Source => source_build_ops(&def, tools, cache_dir),
    };
    let ghost tail = ops_view(rest@);
    ops.append(&mut rest);
    proof {
        assert(ops_view(ops@) =~= head + tail);
        let d = def@;
        assert(head =~= seq![
            InstallOpView::Emit("== Installing "@ + d.emulator + " via "@ + spec_label(method) + " =="@),
        ]);
        match method {
            InstallMethod::Pacman => {
                match d.pacman_pkg {
                    None => {
                        assert(tail =~= seq![InstallOpView::Fail("no pacman package for this emulator"@)]);
                    },
                    Some(pkg) => {
                        assert(tail == spec_run_ops("pkexec"@, seq!["pacman"@, "-S"@, "--needed"@, "--noconfirm"@, pkg]));
                    },
                }
            },
            InstallMethod::Flatpak => {
                if !tools.flatpak {
                    assert(tail =~= seq![
                        InstallOpView::Emit(flatpak_missing_msg()),
                        InstallOpView::Fail(flatpak_missing_msg()),
                    ]);
                } else {
                    match d.flatpak_id {
                        None => {
                            assert(tail =~= seq![InstallOpView::Fail("no flatpak id for this emulator"@)]);
                        },
                        Some(id) => {
                            assert(tail == spec_run_ops(
                                "flatpak"@,
                                seq!["remote-add"@, "--if-not-exists"@, "--user"@, "flathub"@, "https://flathub.org/repo/flathub.flatpakrepo"@],
                            ) + spec_run_ops("flatpak"@, seq!["install"@, "--user"@, "-y"@, "flathub"@, id]));
                        },
                    }
                }
            },
            InstallMethod::Source => {},
        }
    }
    Ok(ops)
}

/* Uninstall */

/// What is installed for one emulator right now.
pub struct InstalledSources {
    /// Whether its Flathub app is installed in the per-user scope (the only
    /// scope installs use, so the only one uninstalled).
    pub flatpak_user: bool,
    /// Whether its official-repo package is installed.
    pub pacman: bool,
    /// The app's cache directory, when it has one.
    pub cache_dir: Option<String>,
    /// Whether the build directory [`build_dir`] of the cache exists.
    pub build_dir_exists: bool,
}

/// Mathematical model of `InstalledSources`.
pub struct InstalledSourcesView {
    pub flatpak_user: bool,
    pub pacman: bool,
    pub cache_dir: Option<Seq<char>>,
    pub build_dir_exists: bool,
}

impl View for InstalledSources {
    type V = InstalledSourcesView;

    open spec fn view(&self) -> InstalledSourcesView {
        InstalledSourcesView {
            flatpak_user: self.flatpak_user,
            pacman: self.pacman,
            cache_dir: opt_string_view(self.cache_dir),
            build_dir_exists: self.build_dir_exists,
        }
    }
}

/// One concrete uninstall step, chosen from the sources currently present.
pub enum UninstallAction {
    /// Remove a per-user Flatpak app.
    Flatpak(&'static str),
    /// Remove an official-repo package via pacman (needs pkexec).
    Pacman(&'static str),
    /// Delete a build-from-source cache directory.
    SourceCache(String),
}

/// Mathematical model of an `UninstallAction`.
pub enum UninstallActionView {
    Flatpak(Seq<char>),
    Pacman(Seq<char>),
    SourceCache(Seq<char>),
}

impl View for UninstallAction {
    type V = UninstallActionView;

    open spec fn view(&self) -> UninstallActionView {
        match self {
            UninstallAction::Flatpak(id) => UninstallActionView::Flatpak(id@),
            UninstallAction::Pacman(p) => UninstallActionView::Pacman(p@),
            UninstallAction::SourceCache(d) => UninstallActionView::SourceCache(d@),
        }
    }
}

/// The views of a sequence of actions.
pub open spec fn actions_view(s: Seq<UninstallAction>) -> Seq<UninstallActionView> {
    s.map_values(|a: UninstallAction| a@)
}

/// The uninstall steps that apply to `d`: its per-user Flatpak app, its
/// official package, its build cache, each when present, in that order.
pub open spec fn spec_uninstall_actions(d: EmulatorDefView, s: InstalledSourcesView) -> Seq<
    UninstallActionView,
> {
    (if d.flatpak_id is Some && s.flatpak_user {
        seq![UninstallActionView::Flatpak(d.flatpak_id->0)]
    } else {
        Seq::empty()
    }) + (if d.pacman_pkg is Some && s.pacman {
        seq![UninstallActionView::Pacman(d.pacman_pkg->0)]
    } else {
        Seq::empty()
    }) + (if s.cache_dir is Some && s.build_dir_exists {
        seq![UninstallActionView::SourceCache(spec_build_dir(s.cache_dir->0, d.system))]
    } else {
        Seq::empty()
    })
}

/// Resolve which uninstall steps apply to `def` given what's installed now.
pub fn uninstall_actions(def: &EmulatorDef, sources: &InstalledSources) -> (r: Vec<UninstallAction>)
    ensures
        actions_view(r@) == spec_uninstall_actions(def@, sources@),
{
    let mut actions: Vec<UninstallAction> = Vec::new();
    if let Some(id) = def.flatpak_id {
        // Only the per-user scope, matching how installs run (`flatpak --user`).
        if sources.flatpak_user {
            actions.push(UninstallAction::Flatpak(id));
        }
    }
    if let Some(pkg) = def.pacman_pkg {
        if sources.pacman {
            actions.push(UninstallAction::Pacman(pkg));
        }
    }
    if let Some(cache) = &sources.cache_dir {
        if sources.build_dir_exists {
            actions.push(UninstallAction::SourceCache(build_dir(cache.as_str(), def.system)));
        }
    }
    assert(actions_view(actions@) =~= spec_uninstall_actions(def@, sources@));
    actions
}

/// Human-readable command for an uninstall action (for the preview).
pub open spec fn spec_describe(a: UninstallActionView) -> Seq<char> {
    match a {
        UninstallActionView::Flatpak(id) => "flatpak uninstall --user -y "@ + id,
        UninstallActionView::Pacman(pkg) => "pkexec pacman -Rns --noconfirm "@ + pkg,
        UninstallActionView::SourceCache(dir) => "rm -rf "@ + dir,
    }
}

/// Human-readable command for an uninstall action (for the preview).
pub fn describe_action(action: &UninstallAction) -> (r: String)
    ensures
        r@ == spec_describe(action@),
{
    match action {
        UninstallAction::Flatpak(id) => concat("flatpak uninstall --user -y ", id),
        UninstallAction::Pacman(pkg) => concat("pkexec pacman -Rns --noconfirm ", pkg),
        UninstallAction::SourceCache(dir) => concat("rm -rf ", dir.as_str()),
    }
}

/// A previewable uninstall plan: the exact commands that would run, resolved
/// from what is actually installed right now.
pub struct UninstallPlan {
    pub system: String,
    pub emulator: String,
    /// Human-readable commands, shown to the user before they confirm.
    pub commands: Vec<String>,
}

/// Mathematical model of an `UninstallPlan`.
pub struct UninstallPlanView {
    pub system: Seq<char>,
    pub emulator: Seq<char>,
    pub commands: Seq<Seq<char>>,
}

impl View for UninstallPlan {
    type V = UninstallPlanView;

    open spec fn view(&self) -> UninstallPlanView {
        UninstallPlanView {
            system: self.system@,
            emulator: self.emulator@,
            commands: strings_view(self.commands@),
        }
    }
}

/// The uninstall preview of `system`.
pub open spec fn spec_uninstall_plan(system: Seq<char>, s: InstalledSourcesView) -> Result<
    UninstallPlanView,
    Seq<char>,
> {
    match spec_find(system) {
        None => Err(unknown_system(system)),
        Some(d) => Ok(
            UninstallPlanView {
                system: d.system,
                emulator: d.emulator,
                commands: spec_uninstall_actions(d, s).map_values(
                    |a: UninstallActionView| spec_describe(a),
                ),
            },
        ),
    }
}

/// Build a preview of what uninstalling `system` would do.
pub fn uninstall_plan(system: &str, sources: &InstalledSources) -> (r: Result<UninstallPlan, String>)
    ensures
        match r {
            Ok(p) => spec_uninstall_plan(system@, sources@) == Ok::<UninstallPlanView, Seq<char>>(
                p@,
            ),
            Err(e) => spec_uninstall_plan(system@, sources@) == Err::<
                UninstallPlanView,
                Seq<char>,
            >(e@),
        },
{
    let def = match find(system) {
        Some(d) => d,
        None => {
            return Err(concat("unknown system: ", system));
        },
    };
    let actions = uninstall_actions(&def, sources);
    let ghost av = actions_view(actions@);
    let mut commands: Vec<String> = Vec::new();
    let mut i: usize = 0;
    while i < actions.len()
        invariant
            av == actions_view(actions@),
            i <= actions.len(),
            commands.len() == i,
            forall|j: int| 0 <= j < i ==> #[trigger] commands@[j]@ == spec_describe(av[j]),
        decreases actions.len() - i,
    {
        assert(av[i as int] == actions@[i as int]@);
        commands.push(describe_action(&actions[i]));
        i = i + 1;
    }
    assert(strings_view(commands@) =~= av.map_values(|a: UninstallActionView| spec_describe(a)))
        by {
        assert forall|j: int| 0 <= j < av.len() implies strings_view(commands@)[j] == av.map_values(
            |a: UninstallActionView| spec_describe(a),
        )[j] by {
            assert(commands@[j]@ == spec_describe(av[j]));
        }
    }
    Ok(UninstallPlan { system: owned(def.system), emulator: owned(def.emulator), commands })
}

/// The script of one uninstall action.
pub open spec fn action_ops(a: UninstallActionView) -> Seq<InstallOpView> {
    match a {
        UninstallActionView::Flatpak(id) => spec_run_ops(
            "flatpak"@,
            seq!["uninstall"@, "--user"@, "-y"@, id],
        ),
        UninstallActionView::Pacman(pkg) => spec_run_ops(
            "pkexec"@,
            seq!["pacman"@, "-Rns"@, "--noconfirm"@, pkg],
        ),
        UninstallActionView::SourceCache(dir) => seq![
            InstallOpView::Emit("$ rm -rf "@ + dir),
            InstallOpView::RemoveBuildDir(dir),
        ],
    }
}

/// The scripts of all `actions`, in order.
pub open spec fn actions_ops(actions: Seq<UninstallActionView>) -> Seq<InstallOpView>
    decreases actions.len(),
{
    if actions.len() == 0 {
        Seq::empty()
    } else {
        actions_ops(actions.drop_last()) + action_ops(actions.last())
    }
}

/// The uninstall script of `system`: undo every install source present, or
/// fail when none is.
pub open spec fn spec_uninstall(system: Seq<char>, s: InstalledSourcesView) -> Result<
    Seq<InstallOpView>,
    Seq<char>,
> {
    match spec_find(system) {
        None => Err(unknown_system(system)),
        Some(d) => {
            let actions = spec_uninstall_actions(d, s);
            if actions.len() == 0 {
                let msg = d.emulator + " does not appear to be installed."@;
                Ok(seq![InstallOpView::Emit(msg), InstallOpView::Fail(msg)])
            } else {
                Ok(
                    seq![InstallOpView::Emit("== Uninstalling "@ + d.emulator + " =="@)]
                        + actions_ops(actions) + seq![InstallOpView::Emit("Done."@)],
                )
            }
        },
    }
}

fn one_action_ops(action: &UninstallAction) -> (r: Vec<InstallOp>)
    ensures
        ops_view(r@) == action_ops(action@),
{
    match action {
        UninstallAction::Flatpak(id) => {
            let args = to_strings(&vec!["uninstall", "--user", "-y", id]);
            assert(strings_view(args@) =~= seq!["uninstall"@, "--user"@, "-y"@, id@]);
            run_ops("flatpak", args)
        },
        UninstallAction::Pacman(pkg) => {
            let args = to_strings(&vec!["pacman", "-Rns", "--noconfirm", pkg]);
            assert(strings_view(args@) =~= seq!["pacman"@, "-Rns"@, "--noconfirm"@, pkg@]);
            run_ops("pkexec", args)
        },
        UninstallAction::SourceCache(dir) => {
            let r = vec![
                InstallOp::Emit(concat("$ rm -rf ", dir.as_str())),
                InstallOp::RemoveBuildDir(owned(dir.as_str())),
            ];
            assert(ops_view(r@) =~= action_ops(action@));
            r
        },
    }
}

/// The script that uninstalls `system` by undoing every install source
/// currently present. Err for an unknown system.
pub fn uninstall(system: &str, sources: &InstalledSources) -> (r: Result<Vec<InstallOp>, String>)
    ensures
        match r {
            Ok(ops) => spec_uninstall(system@, sources@) == Ok::<Seq<InstallOpView>, Seq<char>>(
                ops_view(ops@),
            ),
            Err(e) => spec_uninstall(system@, sources@) == Err::<Seq<InstallOpView>, Seq<char>>(
                e@,
            ),
        },
{
    let def = match find(system) {
        Some(d) => d,
        None => {
            return Err(concat("unknown system: ", system));
        },
    };
    let actions = uninstall_actions(&def, sources);
    assert(actions_view(actions@).len() == actions@.len());
    if actions.len() == 0 {
        let msg = concat(def.emulator, " does not appear to be installed.");
        let r = vec![InstallOp::Emit(owned(msg.as_str())), InstallOp::Fail(msg)];
        assert(ops_view(r@) =~= seq![InstallOpView::Emit(msg@), InstallOpView::Fail(msg@)]);
        return Ok(r);
    }
    let mut header = concat("== Uninstalling ", def.emulator);
    push_str(&mut header, " ==");
    let mut ops = vec![InstallOp::Emit(header)];
    let ghost head = ops_view(ops@);
    assert(head =~= seq![InstallOpView::Emit("== Uninstalling "@ + def@.emulator + " =="@)]);
    let ghost av = actions_view(actions@);
    let mut i: usize = 0;
    assert(av.take(0) =~= Seq::<UninstallActionView>::empty());
    while i < actions.len()
        invariant
            av == actions_view(actions@),
            i <= actions.len(),
            ops_view(ops@) == head + actions_ops(av.take(i as int)),
        decreases actions.len() - i,
    {
        let mut more = one_action_ops(&actions[i]);
        let ghost before = ops_view(ops@);
        let ghost extra = ops_view(more@);
        ops.append(&mut more);
        proof {
            assert(av.take(i + 1).drop_last() =~= av.take(i as int));
            assert(av.take(i + 1).last() == actions@[i as int]@);
            assert(ops_view(ops@) =~= before + extra);
        }
        i = i + 1;
    }
    assert(av.take(i as int) =~= av);
    ops.push(InstallOp::Emit(owned("Done.")));
    assert(ops_view(ops@) =~= head + actions_ops(av) + seq![InstallOpView::Emit("Done."@)]);
    Ok(ops)
}

/* Only allowed sources */

/// The programs an install or uninstall may run: `pkexec` (for pacman),
/// `flatpak`, or `sh` for a documented build step.
pub open spec fn allowed_program(p: Seq<char>) -> bool {
    p == "pkexec"@ || p == "flatpak"@ || p == "sh"@
}

/// Every program that `ops` runs is an allowed one.
pub open spec fn runs_only_allowed(ops: Seq<InstallOpView>) -> bool {
    forall|i: int| 0 <= i < ops.len() ==> (#[trigger] ops[i] matches InstallOpView::Run { program, .. } ==> allowed_program(program))
}

proof fn lemma_steps_allowed(steps: Seq<Seq<char>>, dir: Seq<char>)
    ensures
        runs_only_allowed(steps_ops(steps, dir)),
    decreases steps.len(),
{
    if steps.len() > 0 {
        lemma_steps_allowed(steps.drop_last(), dir);
        let a = steps_ops(steps.drop_last(), dir);
        let b = step_ops(steps.last(), dir);
        assert forall|i: int| 0 <= i < (a + b).len() implies (#[trigger] (a + b)[i] matches InstallOpView::Run { program, .. } ==> allowed_program(program)) by {
            if i < a.len() {
                assert((a + b)[i] == a[i]);
            } else {
                assert((a + b)[i] == b[i - a.len()]);
            }
        }
    }
}

proof fn lemma_actions_allowed(actions: Seq<UninstallActionView>)
    ensures
        runs_only_allowed(actions_ops(actions)),
    decreases actions.len(),
{
    if actions.len() > 0 {
        lemma_actions_allowed(actions.drop_last());
        let a = actions_ops(actions.drop_last());
        let b = action_ops(actions.last());
        assert forall|i: int| 0 <= i < (a + b).len() implies (#[trigger] (a + b)[i] matches InstallOpView::Run { program, .. } ==> allowed_program(program)) by {
            if i < a.len() {
                assert((a + b)[i] == a[i]);
            } else {
                assert((a + b)[i] == b[i - a.len()]);
            }
        }
    }
}

proof fn lemma_concat_allowed(a: Seq<InstallOpView>, b: Seq<InstallOpView>)
    requires
        runs_only_allowed(a),
        runs_only_allowed(b),
    ensures
        runs_only_allowed(a + b),
{
    assert forall|i: int| 0 <= i < (a + b).len() implies (#[trigger] (a + b)[i] matches InstallOpView::Run { program, .. } ==> allowed_program(program)) by {
        if i < a.len() {
            assert((a + b)[i] == a[i]);
        } else {
            assert((a + b)[i] == b[i - a.len()]);
        }
    }
}

/// Installs and uninstalls only ever run pacman through pkexec, flatpak, or a
/// documented source-build step: never any other package tool.
pub proof fn law_only_allowed_sources(
    system: Seq<char>,
    method: InstallMethod,
    tools: HostTools,
    cache: Result<Seq<char>, Seq<char>>,
    s: InstalledSourcesView,
)
    ensures
        spec_install(system, method, tools, cache) matches Ok(ops) ==> runs_only_allowed(ops),
        spec_uninstall(system, s) matches Ok(ops) ==> runs_only_allowed(ops),
{
    if let Some(d) = spec_find(system) {
        let header = seq![
            InstallOpView::Emit("== Installing "@ + d.emulator + " via "@ + spec_label(method) + " =="@),
        ];
        assert(runs_only_allowed(header));
        let body = match method {
            InstallMethod::Pacman => match d.pacman_pkg {
                None => seq![InstallOpView::Fail("no pacman package for this emulator"@)],
                Some(pkg) => spec_run_ops("pkexec"@, seq!["pacman"@, "-S"@, "--needed"@, "--noconfirm"@, pkg]),
            },
            InstallMethod::Flatpak => if !tools.flatpak {
                seq![InstallOpView::Emit(flatpak_missing_msg()), InstallOpView::Fail(flatpak_missing_msg())]
            } else {
                match d.flatpak_id {
                    None => seq![InstallOpView::Fail("no flatpak id for this emulator"@)],
                    Some(id) => spec_run_ops(
                        "flatpak"@,
                        seq!["remote-add"@, "--if-not-exists"@, "--user"@, "flathub"@, "https://flathub.org/repo/flathub.flatpakrepo"@],
                    ) + spec_run_ops("flatpak"@, seq!["install"@, "--user"@, "-y"@, "flathub"@, id]),
                }
            },
            InstallMethod::Source => spec_source_build_ops(d, tools, cache),
        };
        match method {
            InstallMethod::Flatpak => {
                if tools.flatpak && d.flatpak_id is Some {
                    let id = d.flatpak_id->0;
                    let r1 = spec_run_ops("flatpak"@, seq!["remote-add"@, "--if-not-exists"@, "--user"@, "flathub"@, "https://flathub.org/repo/flathub.flatpakrepo"@]);
                    let r2 = spec_run_ops("flatpak"@, seq!["install"@, "--user"@, "-y"@, "flathub"@, id]);
                    assert(runs_only_allowed(r1));
                    assert(runs_only_allowed(r2));
                    lemma_concat_allowed(r1, r2);
                }
            },
            InstallMethod::Source => {
                if spec_missing_build_tools(tools).len() == 0 && cache is Ok {
                    let dir = spec_build_dir(cache->Ok_0, d.system);
                    let prep = seq![
                        InstallOpView::ResetBuildDir(dir),
                        InstallOpView::Emit("Build dir (clean): "@ + dir),
                        InstallOpView::Emit(d.source_build.summary),
                    ];
                    assert(runs_only_allowed(prep));
                    lemma_steps_allowed(d.source_build.steps, dir);
                    lemma_concat_allowed(prep, steps_ops(d.source_build.steps, dir));
                }
            },
            InstallMethod::Pacman => {},
        }
        assert(runs_only_allowed(body));
        lemma_concat_allowed(header, body);
        let actions = spec_uninstall_actions(d, s);
        if actions.len() > 0 {
            let uh = seq![InstallOpView::Emit("== Uninstalling "@ + d.emulator + " =="@)];
            let done = seq![InstallOpView::Emit("Done."@)];
            assert(runs_only_allowed(uh));
            assert(runs_only_allowed(done));
            lemma_actions_allowed(actions);
            lemma_concat_allowed(uh, actions_ops(actions));
            lemma_concat_allowed(uh + actions_ops(actions), done);
        } else {
            let msg = d.emulator + " does not appear to be installed."@;
            assert(runs_only_allowed(seq![InstallOpView::Emit(msg), InstallOpView::Fail(msg)]));
        }
    }
}

/* Previews match what runs */

/// The commands a script runs, as echoed to the log: for each step that runs
/// a program or removes a directory, the text of the `$ ` line just before it,
/// without the `$ `.
pub open spec fn echoed_commands(ops: Seq<InstallOpView>) -> Seq<Seq<char>>
    decreases ops.len(),
{
    if ops.len() < 2 {
        Seq::empty()
    } else {
        let prev = echoed_commands(ops.drop_last());
        match ops[ops.len() - 2] {
            InstallOpView::Emit(line) => match ops.last() {
                InstallOpView::Run { .. } => prev.push(line.skip(2)),
                InstallOpView::RemoveBuildDir(_) => prev.push(line.skip(2)),
                _ => prev,
            },
            _ => prev,
        }
    }
}

/// Whether `op` runs something (a program or a directory removal).
pub open spec fn runs_something(op: InstallOpView) -> bool {
    op is Run || op is RemoveBuildDir
}

proof fn lemma_echoed_concat(a: Seq<InstallOpView>, b: Seq<InstallOpView>)
    requires
        b.len() > 0 ==> !runs_something(b[0]),
    ensures
        echoed_commands(a + b) == echoed_commands(a) + echoed_commands(b),
    decreases b.len(),
{
    if b.len() == 0 {
        assert(a + b =~= a);
    } else {
        let bd = b.drop_last();
        lemma_echoed_concat(a, bd);
        assert((a + b).drop_last() =~= a + bd);
        if b.len() == 1 {
            assert((a + b)[(a + b).len() - 1] == b[0]);
            assert(echoed_commands(b) =~= Seq::<Seq<char>>::empty());
            assert(echoed_commands(bd) =~= Seq::<Seq<char>>::empty());
        } else {
            assert((a + b)[(a + b).len() - 2] == b[b.len() - 2]);
            assert((a + b).last() == b.last());
        }
    }
}

proof fn lemma_echo_line(x: Seq<char>)
    ensures
        ("$ "@ + x).skip(2) == x,
{
    reveal_strlit("$ ");
    assert(("$ "@ + x).skip(2) =~= x);
}

proof fn lemma_echoed_pair(line: Seq<char>, op: InstallOpView)
    requires
        runs_something(op),
    ensures
        echoed_commands(seq![InstallOpView::Emit(line), op]) == seq![line.skip(2)],
{
    let s = seq![InstallOpView::Emit(line), op];
    assert(s.drop_last() =~= seq![InstallOpView::Emit(line)]);
    assert(echoed_commands(s.drop_last()) =~= Seq::<Seq<char>>::empty());
    assert(s[s.len() - 2] == InstallOpView::Emit(line));
    assert(s.last() == op);
    assert(Seq::<Seq<char>>::empty().push(line.skip(2)) =~= seq![line.skip(2)]);
}

proof fn lemma_echoed_steps(steps: Seq<Seq<char>>, dir: Seq<char>)
    ensures
        echoed_commands(steps_ops(steps, dir)) == steps,
        steps.len() > 0 ==> steps_ops(steps, dir)[0] is Emit,
    decreases steps.len(),
{
    if steps.len() > 0 {
        let d = steps.drop_last();
        lemma_echoed_steps(d, dir);
        let two = step_ops(steps.last(), dir);
        lemma_echoed_concat(steps_ops(d, dir), two);
        lemma_echoed_pair("$ "@ + steps.last(), two[1]);
        assert(two =~= seq![two[0], two[1]]);
        lemma_echo_line(steps.last());
        assert(d.push(steps.last()) =~= steps);
        if d.len() > 0 {
            assert(steps_ops(steps, dir)[0] == steps_ops(d, dir)[0]);
        }
    } else {
        assert(echoed_commands(steps_ops(steps, dir)) =~= Seq::<Seq<char>>::empty());
        assert(steps =~= Seq::<Seq<char>>::empty());
    }
}

proof fn lemma_run_echo(program: Seq<char>, args: Seq<Seq<char>>)
    ensures
        echoed_commands(spec_run_ops(program, args)) == seq![program + " "@ + join_sep(args, " "@)],
        spec_run_ops(program, args)[0] is Emit,
{
    let line = "$ "@ + program + " "@ + join_sep(args, " "@);
    let r = spec_run_ops(program, args);
    lemma_echoed_pair(line, r[1]);
    assert(r =~= seq![InstallOpView::Emit(line), r[1]]);
    assert(line == "$ "@ + (program + " "@ + join_sep(args, " "@)));
    lemma_echo_line(program + " "@ + join_sep(args, " "@));
}

proof fn lemma_join5(a: Seq<char>, b: Seq<char>, c: Seq<char>, d: Seq<char>, e: Seq<char>)
    ensures
        join_sep(seq![a, b, c, d, e], " "@) == a + " "@ + b + " "@ + c + " "@ + d + " "@ + e,
{
    reveal_with_fuel(join_sep, 6);
    let p = seq![a, b, c, d, e];
    assert(p.drop_last().drop_last().drop_last().drop_last() =~= seq![a]);
    assert(p.drop_last().drop_last().drop_last() =~= seq![a, b]);
    assert(p.drop_last().drop_last() =~= seq![a, b, c]);
    assert(p.drop_last() =~= seq![a, b, c, d]);
}

proof fn lemma_join4(a: Seq<char>, b: Seq<char>, c: Seq<char>, d: Seq<char>)
    ensures
        join_sep(seq![a, b, c, d], " "@) == a + " "@ + b + " "@ + c + " "@ + d,
{
    reveal_with_fuel(join_sep, 5);
    let p = seq![a, b, c, d];
    assert(p.drop_last().drop_last().drop_last() =~= seq![a]);
    assert(p.drop_last().drop_last() =~= seq![a, b]);
    assert(p.drop_last() =~= seq![a, b, c]);
}

/// The install preview lists exactly the commands that the install echoes and
/// runs, in order, whenever the install gets past its preflight checks.
pub proof fn law_plan_previews_install(
    system: Seq<char>,
    method: InstallMethod,
    tools: HostTools,
    cache: Result<Seq<char>, Seq<char>>,
)
    requires
        spec_plan(system, Some(method)) is Ok,
        method == InstallMethod::Flatpak ==> tools.flatpak,
        method == InstallMethod::Source ==> spec_missing_build_tools(tools).len() == 0 && cache is Ok,
    ensures
        spec_install(system, method, tools, cache) matches Ok(ops) && echoed_commands(ops)
            == spec_plan(system, Some(method))->Ok_0.commands,
{
    reveal_strlit(" ");
    let d = spec_find(system)->0;
    let header = seq![
        InstallOpView::Emit("== Installing "@ + d.emulator + " via "@ + spec_label(method) + " =="@),
    ];
    let plan = spec_plan(system, Some(method))->Ok_0;
    assert(echoed_commands(header) =~= Seq::<Seq<char>>::empty());
    match method {
        InstallMethod::Pacman => {
            let pkg = d.pacman_pkg->0;
            let args = seq!["pacman"@, "-S"@, "--needed"@, "--noconfirm"@, pkg];
            lemma_run_echo("pkexec"@, args);
            lemma_echoed_concat(header, spec_run_ops("pkexec"@, args));
            lemma_join5("pacman"@, "-S"@, "--needed"@, "--noconfirm"@, pkg);
            reveal_strlit("pkexec");
            reveal_strlit("pacman");
            reveal_strlit("-S");
            reveal_strlit("--needed");
            reveal_strlit("--noconfirm");
            reveal_strlit("pkexec pacman -S --needed --noconfirm ");
            assert("pkexec"@ + " "@ + join_sep(args, " "@) =~= "pkexec pacman -S --needed --noconfirm "@ + pkg);
            assert(plan.commands =~= seq!["pkexec pacman -S --needed --noconfirm "@ + pkg]);
        },
        InstallMethod::Flatpak => {
            let id = d.flatpak_id->0;
            let url = "https://flathub.org/repo/flathub.flatpakrepo"@;
            let args1 = seq!["remote-add"@, "--if-not-exists"@, "--user"@, "flathub"@, url];
            let args2 = seq!["install"@, "--user"@, "-y"@, "flathub"@, id];
            let r1 = spec_run_ops("flatpak"@, args1);
            let r2 = spec_run_ops("flatpak"@, args2);
            lemma_run_echo("flatpak"@, args1);
            lemma_run_echo("flatpak"@, args2);
            lemma_echoed_concat(header + r1, r2);
            lemma_echoed_concat(header, r1);
            lemma_join5("remote-add"@, "--if-not-exists"@, "--user"@, "flathub"@, url);
            lemma_join5("install"@, "--user"@, "-y"@, "flathub"@, id);
            reveal_strlit("flatpak");
            reveal_strlit("remote-add");
            reveal_strlit("--if-not-exists");
            reveal_strlit("--user");
            reveal_strlit("flathub");
            reveal_strlit("https://flathub.org/repo/flathub.flatpakrepo");
            reveal_strlit("install");
            reveal_strlit("-y");
            reveal_strlit("flatpak install --user -y flathub ");
            reveal_strlit(
                "flatpak remote-add --if-not-exists --user flathub https://flathub.org/repo/flathub.flatpakrepo",
            );
            assert("flatpak"@ + " "@ + join_sep(args1, " "@) =~= flathub_remote_cmd());
            assert("flatpak"@ + " "@ + join_sep(args2, " "@) =~= "flatpak install --user -y flathub "@ + id);
            assert(header + r1 + r2 =~= header + (r1 + r2));
            assert(echoed_commands(header + r1 + r2) =~= plan.commands);
        },
        InstallMethod::Source => {
            let c = cache->Ok_0;
            let dir = spec_build_dir(c, d.system);
            let prep = seq![
                InstallOpView::ResetBuildDir(dir),
                InstallOpView::Emit("Build dir (clean): "@ + dir),
                InstallOpView::Emit(d.source_build.summary),
            ];
            let steps = steps_ops(d.source_build.steps, dir);
            lemma_echoed_steps(d.source_build.steps, dir);
            lemma_echoed_concat(header + prep, steps);
            lemma_echoed_concat(header, prep);
            let p3 = prep;
            assert(echoed_commands(p3) =~= Seq::<Seq<char>>::empty()) by {
                assert(p3.drop_last() =~= seq![p3[0], p3[1]]);
                assert(p3.drop_last().drop_last() =~= seq![p3[0]]);
                assert(echoed_commands(p3.drop_last().drop_last()) =~= Seq::<Seq<char>>::empty());
                assert(p3.drop_last()[0] is ResetBuildDir);
                assert(echoed_commands(p3.drop_last()) =~= Seq::<Seq<char>>::empty());
                assert(p3.last() is Emit);
            }
            assert(header + (prep + steps) =~= header + prep + steps);
            assert(echoed_commands(header + prep + steps) =~= plan.commands);
        },
    }
}

proof fn lemma_echoed_actions(actions: Seq<UninstallActionView>)
    ensures
        echoed_commands(actions_ops(actions)) == actions.map_values(
            |a: UninstallActionView| spec_describe(a),
        ),
        actions.len() > 0 ==> actions_ops(actions)[0] is Emit,
    decreases actions.len(),
{
    reveal_strlit(" ");
    if actions.len() > 0 {
        let rest = actions.drop_last();
        let a = actions.last();
        lemma_echoed_actions(rest);
        let two = action_ops(a);
        lemma_echoed_concat(actions_ops(rest), two);
        match a {
            UninstallActionView::Flatpak(id) => {
                let args = seq!["uninstall"@, "--user"@, "-y"@, id];
                lemma_run_echo("flatpak"@, args);
                lemma_join4("uninstall"@, "--user"@, "-y"@, id);
                reveal_strlit("flatpak");
                reveal_strlit("uninstall");
                reveal_strlit("--user");
                reveal_strlit("-y");
                reveal_strlit("flatpak uninstall --user -y ");
                assert("flatpak"@ + " "@ + join_sep(args, " "@) =~= spec_describe(a));
            },
            UninstallActionView::Pacman(pkg) => {
                let args = seq!["pacman"@, "-Rns"@, "--noconfirm"@, pkg];
                lemma_run_echo("pkexec"@, args);
                lemma_join4("pacman"@, "-Rns"@, "--noconfirm"@, pkg);
                reveal_strlit("pkexec");
                reveal_strlit("pacman");
                reveal_strlit("-Rns");
                reveal_strlit("--noconfirm");
                reveal_strlit("pkexec pacman -Rns --noconfirm ");
                assert("pkexec"@ + " "@ + join_sep(args, " "@) =~= spec_describe(a));
            },
            UninstallActionView::SourceCache(dir) => {
                lemma_echoed_pair("$ rm -rf "@ + dir, InstallOpView::RemoveBuildDir(dir));
                reveal_strlit("$ rm -rf ");
                reveal_strlit("rm -rf ");
                assert(("$ rm -rf "@ + dir).skip(2) =~= spec_describe(a));
                assert(two =~= seq![InstallOpView::Emit("$ rm -rf "@ + dir), InstallOpView::RemoveBuildDir(dir)]);
            },
        }
        assert(actions.map_values(|x: UninstallActionView| spec_describe(x)) =~= rest.map_values(
            |x: UninstallActionView| spec_describe(x),
        ).push(spec_describe(a)));
        if rest.len() > 0 {
            assert(actions_ops(actions)[0] == actions_ops(rest)[0]);
        }
    } else {
        assert(echoed_commands(actions_ops(actions)) =~= Seq::<Seq<char>>::empty());
        assert(actions.map_values(|x: UninstallActionView| spec_describe(x)) =~= Seq::<Seq<char>>::empty());
    }
}

/// The uninstall preview lists exactly the commands that the uninstall echoes
/// and runs, in order.
pub proof fn law_plan_previews_uninstall(system: Seq<char>, s: InstalledSourcesView)
    requires
        spec_find(system) is Some,
    ensures
        spec_uninstall(system, s) matches Ok(ops) && spec_uninstall_plan(system, s) matches Ok(
            p,
        ) && echoed_commands(ops) == p.commands,
{
    let d = spec_find(system)->0;
    let actions = spec_uninstall_actions(d, s);
    lemma_echoed_actions(actions);
    if actions.len() == 0 {
        let msg = d.emulator + " does not appear to be installed."@;
        let ops = seq![InstallOpView::Emit(msg), InstallOpView::Fail(msg)];
        assert(ops.drop_last() =~= seq![InstallOpView::Emit(msg)]);
        assert(echoed_commands(ops.drop_last()) =~= Seq::<Seq<char>>::empty());
        assert(ops.last() is Fail);
        assert(echoed_commands(ops) =~= Seq::<Seq<char>>::empty());
        assert(actions.map_values(|a: UninstallActionView| spec_describe(a)) =~= Seq::<Seq<char>>::empty());
    } else {
        let header = seq![InstallOpView::Emit("== Uninstalling "@ + d.emulator + " =="@)];
        let done = seq![InstallOpView::Emit("Done."@)];
        let body = actions_ops(actions);
        lemma_echoed_concat(header + body, done);
        lemma_echoed_concat(header, body);
        assert(echoed_commands(header) =~= Seq::<Seq<char>>::empty());
        assert(echoed_commands(done) =~= Seq::<Seq<char>>::empty());
    }
}

/* What uninstalling removes, and what a source build needs */

/// An uninstall removes only what is installed, and everything that is: the
/// Flathub app only when its per-user install is present, the official
/// package only when it is installed, the build cache only when the build
/// directory exists; each of these present gives its action, with the
/// registry's id or package and the build directory of the cache.
pub proof fn law_uninstall_only_installed(d: EmulatorDefView, s: InstalledSourcesView)
    ensures
        forall|a: UninstallActionView| #[trigger]
            spec_uninstall_actions(d, s).contains(a) ==> match a {
                UninstallActionView::Flatpak(id) => s.flatpak_user && d.flatpak_id == Some(id),
                UninstallActionView::Pacman(pkg) => s.pacman && d.pacman_pkg == Some(pkg),
                UninstallActionView::SourceCache(dir) => s.build_dir_exists && s.cache_dir is Some
                    && dir == spec_build_dir(s.cache_dir->0, d.system),
            },
        s.flatpak_user && d.flatpak_id is Some ==> spec_uninstall_actions(d, s).contains(
            UninstallActionView::Flatpak(d.flatpak_id->0),
        ),
        s.pacman && d.pacman_pkg is Some ==> spec_uninstall_actions(d, s).contains(
            UninstallActionView::Pacman(d.pacman_pkg->0),
        ),
        s.build_dir_exists && s.cache_dir is Some ==> spec_uninstall_actions(d, s).contains(
            UninstallActionView::SourceCache(spec_build_dir(s.cache_dir->0, d.system)),
        ),
        spec_uninstall_actions(d, s).len() == 0 <==> !(s.flatpak_user && d.flatpak_id is Some) && !(
        s.pacman && d.pacman_pkg is Some) && !(s.build_dir_exists && s.cache_dir is Some),
{
    let f: Seq<UninstallActionView> = if d.flatpak_id is Some && s.flatpak_user {
        seq![UninstallActionView::Flatpak(d.flatpak_id->0)]
    } else {
        Seq::empty()
    };
    let p: Seq<UninstallActionView> = if d.pacman_pkg is Some && s.pacman {
        seq![UninstallActionView::Pacman(d.pacman_pkg->0)]
    } else {
        Seq::empty()
    };
    let c: Seq<UninstallActionView> = if s.cache_dir is Some && s.build_dir_exists {
        seq![UninstallActionView::SourceCache(spec_build_dir(s.cache_dir->0, d.system))]
    } else {
        Seq::empty()
    };
    let all = spec_uninstall_actions(d, s);
    assert(all == f + p + c);
    assert forall|a: UninstallActionView| #[trigger] all.contains(a) implies match a {
        UninstallActionView::Flatpak(id) => s.flatpak_user && d.flatpak_id == Some(id),
        UninstallActionView::Pacman(pkg) => s.pacman && d.pacman_pkg == Some(pkg),
        UninstallActionView::SourceCache(dir) => s.build_dir_exists && s.cache_dir is Some && dir
            == spec_build_dir(s.cache_dir->0, d.system),
    } by {
        let i = choose|i: int| 0 <= i < all.len() && all[i] == a;
        if i < f.len() {
            assert(all[i] == f[i]);
        } else if i < f.len() + p.len() {
            assert(all[i] == p[i - f.len()]);
        } else {
            assert(all[i] == c[i - f.len() - p.len()]);
        }
    }
    if s.flatpak_user && d.flatpak_id is Some {
        assert(all[0] == UninstallActionView::Flatpak(d.flatpak_id->0));
    }
    if s.pacman && d.pacman_pkg is Some {
        assert(all[f.len() as int] == UninstallActionView::Pacman(d.pacman_pkg->0));
    }
    if s.build_dir_exists && s.cache_dir is Some {
        assert(all[(f.len() + p.len()) as int] == UninstallActionView::SourceCache(
            spec_build_dir(s.cache_dir->0, d.system),
        ));
    }
}

/// With nothing of an emulator installed, uninstalling it removes nothing:
/// the script only reports, and fails with, "<emulator> does not appear to be
/// installed." When something is installed the script runs its removals and
/// does not fail by itself.
pub proof fn law_uninstall_nothing_installed(system: Seq<char>, s: InstalledSourcesView)
    requires
        spec_find(system) is Some,
    ensures
        ({
            let d = spec_find(system)->0;
            let msg = d.emulator + " does not appear to be installed."@;
            let nothing = !(s.flatpak_user && d.flatpak_id is Some) && !(s.pacman && d.pacman_pkg is Some)
                && !(s.build_dir_exists && s.cache_dir is Some);
            &&& nothing ==> spec_uninstall(system, s) == Ok::<Seq<InstallOpView>, Seq<char>>(
                seq![InstallOpView::Emit(msg), InstallOpView::Fail(msg)],
            )
            &&& !nothing ==> (spec_uninstall(system, s) matches Ok(ops) && ops.len() > 0
                && ops.last() == InstallOpView::Emit("Done."@))
        }),
{
    law_uninstall_only_installed(spec_find(system)->0, s);
}

/// A source build lacks exactly the tools that are not on PATH: git, cmake,
/// one of make or ninja, and one C/C++ compiler (cc, gcc or clang, any one of
/// them will do); nothing else is ever reported, and nothing is reported when
/// all are there.
pub proof fn law_missing_build_tools(t: HostTools)
    ensures
        spec_missing_build_tools(t).contains("git"@) <==> !t.git,
        spec_missing_build_tools(t).contains("cmake"@) <==> !t.cmake,
        spec_missing_build_tools(t).contains("make or ninja"@) <==> !t.make && !t.ninja,
        spec_missing_build_tools(t).contains("a C/C++ compiler (gcc)"@) <==> !t.cc && !t.gcc
            && !t.clang,
        forall|x: Seq<char>| #[trigger]
            spec_missing_build_tools(t).contains(x) ==> x == "git"@ || x == "cmake"@ || x
                == "make or ninja"@ || x == "a C/C++ compiler (gcc)"@,
        spec_missing_build_tools(t).len() == 0 <==> t.git && t.cmake && (t.make || t.ninja) && (t.cc
            || t.gcc || t.clang),
{
    reveal_strlit("git");
    reveal_strlit("cmake");
    reveal_strlit("make or ninja");
    reveal_strlit("a C/C++ compiler (gcc)");
    let n1 = "git"@;
    let n2 = "cmake"@;
    let n3 = "make or ninja"@;
    let n4 = "a C/C++ compiler (gcc)"@;
    assert(n1.len() == 3 && n2.len() == 5 && n3.len() == 13 && n4.len() == 22);
    let a: Seq<Seq<char>> = if !t.git { seq![n1] } else { Seq::empty() };
    let b: Seq<Seq<char>> = if !t.cmake { seq![n2] } else { Seq::empty() };
    let c: Seq<Seq<char>> = if !t.make && !t.ninja { seq![n3] } else { Seq::empty() };
    let e: Seq<Seq<char>> = if !t.cc && !t.gcc && !t.clang { seq![n4] } else { Seq::empty() };
    let all = spec_missing_build_tools(t);
    assert(all == a + b + c + e);
    assert forall|x: Seq<char>| #[trigger] all.contains(x) implies (x == n1 && !t.git) || (x == n2
        && !t.cmake) || (x == n3 && !t.make && !t.ninja) || (x == n4 && !t.cc && !t.gcc && !t.clang) by {
        let i = choose|i: int| 0 <= i < all.len() && all[i] == x;
        if i < a.len() {
            assert(all[i] == a[i]);
        } else if i < a.len() + b.len() {
            assert(all[i] == b[i - a.len()]);
        } else if i < a.len() + b.len() + c.len() {
            assert(all[i] == c[i - a.len() - b.len()]);
        } else {
            assert(all[i] == e[i - a.len() - b.len() - c.len()]);
        }
    }
    if !t.git {
        assert(all[0] == n1);
    }
    if !t.cmake {
        assert(all[a.len() as int] == n2);
    }
    if !t.make && !t.ninja {
        assert(all[(a.len() + b.len()) as int] == n3);
    }
    if !t.cc && !t.gcc && !t.clang {
        assert(all[(a.len() + b.len() + c.len()) as int] == n4);
    }
    assert(n1 != n2 && n1 != n3 && n1 != n4 && n2 != n3 && n2 != n4 && n3 != n4);
}

/// The preference rank of an install method: official repo first, then
/// Flathub, then a source build.
pub open spec fn method_rank(m: InstallMethod) -> int {
    match m {
        InstallMethod::Pacman => 0,
        InstallMethod::Flatpak => 1,
        InstallMethod::Source => 2,
    }
}

/// An emulator can be installed from the official repo exactly when it has a
/// package there, from Flathub exactly when it has a Flathub id, and always
/// from source; the methods are listed once each in preference order, so the
/// preferred one is the repo package if there is one, else the Flathub app,
/// else the source build.
pub proof fn law_available_methods(d: EmulatorDefView)
    ensures
        spec_available_methods(d).contains(InstallMethod::Pacman) <==> d.pacman_pkg is Some,
        spec_available_methods(d).contains(InstallMethod::Flatpak) <==> d.flatpak_id is Some,
        spec_available_methods(d).contains(InstallMethod::Source),
        forall|i: int, j: int|
            0 <= i < j < spec_available_methods(d).len() ==> method_rank(
                #[trigger] spec_available_methods(d)[i],
            ) < method_rank(#[trigger] spec_available_methods(d)[j]),
        spec_available_methods(d)[0] == (if d.pacman_pkg is Some {
            InstallMethod::Pacman
        } else if d.flatpak_id is Some {
            InstallMethod::Flatpak
        } else {
            InstallMethod::Source
        }),
{
    let a = spec_available_methods(d);
    assert(a[a.len() - 1] == InstallMethod::Source);
    if d.pacman_pkg is Some {
        assert(a[0] == InstallMethod::Pacman);
    }
    if d.flatpak_id is Some {
        assert(a[if d.pacman_pkg is Some { 1int } else { 0int }] == InstallMethod::Flatpak);
    }
    assert forall|m: InstallMethod| #[trigger] a.contains(m) implies (m == InstallMethod::Pacman ==> d.pacman_pkg is Some) && (m == InstallMethod::Flatpak ==> d.flatpak_id is Some) by {
        let i = choose|i: int| 0 <= i < a.len() && a[i] == m;
    }
}

/// A plan is refused exactly for an unknown system or an unavailable method,
/// and an unavailable method is named in the refusal.
pub proof fn law_plan_refusals(system: Seq<char>, method: Option<InstallMethod>)
    ensures
        spec_find(system) is None ==> spec_plan(system, method) == Err::<InstallPlanView, Seq<char>>(
            unknown_system(system),
        ),
        spec_find(system) is Some && method is None ==> spec_plan(system, method) is Ok,
        method matches Some(m) ==> (spec_find(system) is Some ==> (spec_plan(system, method) is Ok
            <==> spec_available_methods(spec_find(system)->0).contains(m))),
        method matches Some(m) ==> (spec_find(system) is Some && !spec_available_methods(
            spec_find(system)->0,
        ).contains(m) ==> spec_plan(system, method) == Err::<InstallPlanView, Seq<char>>(
            spec_label(m) + " is unavailable for "@ + spec_find(system)->0.emulator,
        )),
{
    if let Some(d) = spec_find(system) {
        let a = spec_available_methods(d);
        assert(a.contains(a[0]));
    }
}

/// Every step of a build's steps script only logs, or runs a shell in the
/// build directory.
proof fn lemma_steps_ops_shape(steps: Seq<Seq<char>>, dir: Seq<char>)
    ensures
        forall|i: int|
            0 <= i < steps_ops(steps, dir).len() ==> (#[trigger] steps_ops(steps, dir)[i] is Emit || (
            steps_ops(steps, dir)[i] matches InstallOpView::Run { program, cwd, .. } && program
                == "sh"@ && cwd == Some(dir))),
    decreases steps.len(),
{
    if steps.len() > 0 {
        lemma_steps_ops_shape(steps.drop_last(), dir);
        let a = steps_ops(steps.drop_last(), dir);
        let b = step_ops(steps.last(), dir);
        assert forall|i: int| 0 <= i < steps_ops(steps, dir).len() implies (#[trigger] steps_ops(
            steps,
            dir,
        )[i] is Emit || (steps_ops(steps, dir)[i] matches InstallOpView::Run { program, cwd, .. }
            && program == "sh"@ && cwd == Some(dir))) by {
            if i < a.len() {
                assert(steps_ops(steps, dir)[i] == a[i]);
            } else {
                assert(steps_ops(steps, dir)[i] == b[i - a.len()]);
            }
        }
    }
}

/// A source build checks before it builds: with build tools missing, or no
/// cache directory, the script fails and runs nothing and touches no
/// directory; otherwise it first makes the build directory
/// `<cache>/build/<system>` afresh, never fails by itself, and runs only
/// shells in that directory.
pub proof fn law_source_preflight(system: Seq<char>, tools: HostTools, cache: Result<Seq<char>, Seq<char>>)
    requires
        spec_find(system) is Some,
    ensures
        spec_install(system, InstallMethod::Source, tools, cache) is Ok,
        spec_missing_build_tools(tools).len() > 0 || cache is Err ==> ({
            let ops = spec_install(system, InstallMethod::Source, tools, cache)->Ok_0;
            &&& ops.last() is Fail
            &&& forall|i: int| 0 <= i < ops.len() ==> !(#[trigger] ops[i] is Run) && !(ops[i] is ResetBuildDir)
        }),
        spec_missing_build_tools(tools).len() == 0 && cache is Ok ==> ({
            let ops = spec_install(system, InstallMethod::Source, tools, cache)->Ok_0;
            let dir = spec_build_dir(cache->Ok_0, system);
            &&& ops[1] == InstallOpView::ResetBuildDir(dir)
            &&& forall|i: int| 0 <= i < ops.len() ==> !(#[trigger] ops[i] is Fail)
            &&& forall|i: int|
                0 <= i < ops.len() && #[trigger] ops[i] is Run ==> (ops[i] matches InstallOpView::Run {
                    program,
                    cwd,
                    ..
                } && program == "sh"@ && cwd == Some(dir))
        }),
{
    let d = spec_find(system)->0;
    crate::registry::lemma_find_in_some(crate::registry::registry(), system);
    let ops = spec_install(system, InstallMethod::Source, tools, cache)->Ok_0;
    let head = seq![
        InstallOpView::Emit("== Installing "@ + d.emulator + " via "@ + spec_label(InstallMethod::Source) + " =="@),
    ];
    let tail = spec_source_build_ops(d, tools, cache);
    assert(ops == head + tail);
    if spec_missing_build_tools(tools).len() == 0 {
        if let Ok(c) = cache {
            let dir = spec_build_dir(c, d.system);
            assert(d.system == system);
            let pre = seq![
                InstallOpView::ResetBuildDir(dir),
                InstallOpView::Emit("Build dir (clean): "@ + dir),
                InstallOpView::Emit(d.source_build.summary),
            ];
            let st = steps_ops(d.source_build.steps, dir);
            lemma_steps_ops_shape(d.source_build.steps, dir);
            assert(tail == pre + st);
            assert forall|i: int| 0 <= i < ops.len() implies !(#[trigger] ops[i] is Fail) && (ops[i] is Run
                ==> (ops[i] matches InstallOpView::Run { program, cwd, .. } && program == "sh"@ && cwd
                == Some(dir))) by {
                if i >= 4 {
                    assert(ops[i] == st[i - 4]);
                } else if i >= 1 {
                    assert(ops[i] == pre[i - 1]);
                }
            }
        }
    }
}

/// An install that cannot work fails without running anything: by the
/// official repo when the emulator has no package there, by Flathub when
/// flatpak is not installed or the emulator has no Flathub app.
pub proof fn law_install_preflight(system: Seq<char>, method: InstallMethod, tools: HostTools, cache: Result<Seq<char>, Seq<char>>)
    requires
        spec_find(system) is Some,
        (method == InstallMethod::Pacman && spec_find(system)->0.pacman_pkg is None) || (method
            == InstallMethod::Flatpak && (!tools.flatpak || spec_find(system)->0.flatpak_id is None)),
    ensures
        spec_install(system, method, tools, cache) matches Ok(ops) && ops.last() is Fail && forall|i: int|
            0 <= i < ops.len() ==> !(#[trigger] ops[i] is Run),
{
    let ops = spec_install(system, method, tools, cache)->Ok_0;
    assert forall|i: int| 0 <= i < ops.len() implies !(#[trigger] ops[i] is Run) by {
        if i > 0 {
        }
    }
}

} // verus!
