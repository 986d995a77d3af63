//! Launch a game: decide which emulator command to spawn for a ROM.
//!
//! Resolution order:
//! 1. A user override command from config (ROM appended as the final arg).
//! 2. A detected native binary on PATH.
//! 3. The Flatpak app id via `flatpak run`.
//!
//! The host spawns the command detached and reaps it when it exits.
use vstd::prelude::*;
use crate::text::{owned, chars_of, split_whitespace, words, string_from_chars, char_vecs_view};
use crate::registry::{find, spec_find};
use crate::config::{AppConfig, lookup};
use crate::detect::{Invocation, InvocationView, opt_invocation_view};
use crate::text::{concat, strings_view};
use crate::registry::{to_strings, unknown_system};

verus! {

/// A command to spawn: a program and its arguments.
pub struct LaunchCommand {
    pub program: String,
    pub args: Vec<String>,
}

/// Mathematical model of a `LaunchCommand`.
pub struct LaunchCommandView {
    pub program: Seq<char>,
    pub args: Seq<Seq<char>>,
}

impl View for LaunchCommand {
    type V = LaunchCommandView;

    open spec fn view(&self) -> LaunchCommandView {
        LaunchCommandView { program: self.program@, args: strings_view(self.args@) }
    }
}

/// The error for an emulator that is neither overridden nor installed.
pub open spec fn not_installed_msg(emulator: Seq<char>) -> Seq<char> {
    emulator + " is not installed. Install it from the Emulators screen first."@
}

/// The command that launches `rom` on `system`, given the configuration and
/// the invocation detected for the system's emulator (`None` when not found).
pub open spec fn spec_launch(
    overrides: Seq<(Seq<char>, Seq<char>)>,
    system: Seq<char>,
    rom: Seq<char>,
    detected: Option<InvocationView>,
) -> Result<LaunchCommandView, Seq<char>> {
    match spec_find(system) {
        None => Err(unknown_system(system)),
        Some(d) => match lookup(overrides, system) {
            Some(cmd) => {
                let parts = words(cmd);
                if parts.len() == 0 {
                    Err("empty emulator override command"@)
                } else {
                    Ok(LaunchCommandView { program: parts[0], args: parts.drop_first().push(rom) })
                }
            },
            None => match detected {
                None => Err(not_installed_msg(d.emulator)),
                Some(InvocationView::Native { program }) => Ok(
                    LaunchCommandView { program, args: d.launch_args.push(rom) },
                ),
                Some(InvocationView::Flatpak { app_id }) => Ok(
                    LaunchCommandView {
                        program: "flatpak"@,
                        args: seq!["run"@, app_id] + d.flatpak_launch_args.push(rom),
                    },
                ),
            },
        },
    }
}

/// Whether launching on `system` needs emulator detection: the system is known
/// and no override is configured for it.
pub fn needs_detection(config: &AppConfig, system: &str) -> (r: bool)
    ensures
        r == (spec_find(system@) is Some && lookup(config@.emulator_overrides, system@) is None),
{
    find(system).is_some() && config.emulator_override(system).is_none()
}

/// Launch `rom_path` on `system`: the command to spawn. `detected` is how the
/// system's emulator resolved on this host (see `resolve_invocation`); it is
/// only consulted when no override is configured.
pub fn launch(config: &AppConfig, system: &str, rom_path: &str, detected: Option<Invocation>) -> (r:
    Result<LaunchCommand, String>)
    ensures
        match r {
            Ok(c) => spec_launch(config@.emulator_overrides, system@, rom_path@, opt_invocation_view(detected))
                == Ok::<LaunchCommandView, Seq<char>>(c@),
            Err(e) => spec_launch(config@.emulator_overrides, system@, rom_path@, opt_invocation_view(detected))
                == Err::<LaunchCommandView, Seq<char>>(e@),
        },
{
    let def = match find(system) {
        Some(d) => d,
        None => {
            return Err(concat("unknown system: ", system));
        },
    };
    // 1. User override: split into program + args, then append the ROM path.
    if let Some(override_cmd) = config.emulator_override(system) {
        let parts = split_whitespace(&chars_of(override_cmd.as_str()));
        let ghost pv = char_vecs_view(parts@);
        if parts.len() == 0 {
            return Err(owned("empty emulator override command"));
        }
        let program = string_from_chars(&parts[0]);
        let mut args: Vec<String> = Vec::new();
        let mut i: usize = 1;
        while i < parts.len()
            invariant
                pv == char_vecs_view(parts@),
                1 <= i <= parts.len(),
                args.len() == i - 1,
                forall|j: int| 0 <= j < i - 1 ==> #[trigger] args@[j]@ == pv[j + 1],
            decreases parts.len() - i,
        {
            args.push(string_from_chars(&parts[i]));
            i = i + 1;
        }
        args.push(owned(rom_path));
        assert(strings_view(args@) =~= pv.drop_first().push(rom_path@)) by {
            assert forall|j: int| 0 <= j < args.len() implies strings_view(args@)[j] == pv.drop_first().push(rom_path@)[j] by {
                if j < args.len() - 1 {
                    assert(args@[j]@ == pv[j + 1]);
                }
            }
        }
        return Ok(LaunchCommand { program, args });
    }
    // 2 & 3. Detected native binary or flatpak.
    let invocation = match detected {
        Some(i) => i,
        None => {
            return Err(concat(def.emulator, " is not installed. Install it from the Emulators screen first."));
        },
    };
    match invocation {
        Invocation::Native { program } => {
            let mut args = to_strings(&def.launch_args);
            let ghost base = strings_view(args@);
            args.push(owned(rom_path));
            assert(strings_view(args@) =~= base.push(rom_path@));
            Ok(LaunchCommand { program, args })
        },
        Invocation::Flatpak { app_id } => {
            let ghost id = app_id@;
            let mut args = vec![owned("run"), app_id];
            let mut extra = to_strings(&def.flatpak_launch_args);
            let ghost ev = strings_view(extra@);
            let ghost head = args@;
            args.append(&mut extra);
            args.push(owned(rom_path));
            assert(strings_view(args@) =~= seq!["run"@, id] + ev.push(rom_path@)) by {
                assert(strings_view(head) =~= seq!["run"@, id]);
            }
            Ok(LaunchCommand { program: owned("flatpak"), args })
        },
    }
}

/// Whatever resolves the command, a successful launch passes the ROM path as
/// its final argument.
pub proof fn law_rom_is_last_argument(
    overrides: Seq<(Seq<char>, Seq<char>)>,
    system: Seq<char>,
    rom: Seq<char>,
    detected: Option<InvocationView>,
)
    ensures
        spec_launch(overrides, system, rom, detected) matches Ok(c) ==> c.args.len() > 0
            && c.args.last() == rom,
{
}

/// An override configured for the system decides the command, whatever was
/// detected on the host.
pub proof fn law_override_wins(
    overrides: Seq<(Seq<char>, Seq<char>)>,
    system: Seq<char>,
    rom: Seq<char>,
    a: Option<InvocationView>,
    b: Option<InvocationView>,
)
    requires
        lookup(overrides, system) is Some,
    ensures
        spec_launch(overrides, system, rom, a) == spec_launch(overrides, system, rom, b),
{
}

/// What launching does, by source of the command. An override's words are
/// the command, followed by the ROM (an override of no words is refused).
/// Without one, a native binary found on PATH runs with the emulator's launch
/// arguments and then the ROM, and a Flathub app runs as `flatpak run <id>`
/// with its launch arguments and then the ROM; with neither, the launch is
/// refused as not installed. An unknown system is refused.
pub proof fn law_launch_command(
    overrides: Seq<(Seq<char>, Seq<char>)>,
    system: Seq<char>,
    rom: Seq<char>,
    detected: Option<InvocationView>,
)
    ensures
        spec_find(system) is None ==> spec_launch(overrides, system, rom, detected) == Err::<
            LaunchCommandView,
            Seq<char>,
        >(unknown_system(system)),
        lookup(overrides, system) matches Some(cmd) ==> (spec_find(system) is Some ==> (
        spec_launch(overrides, system, rom, detected) is Ok <==> words(cmd).len() > 0)),
        lookup(overrides, system) matches Some(cmd) ==> (spec_launch(
            overrides,
            system,
            rom,
            detected,
        ) matches Ok(c) ==> seq![c.program] + c.args == words(cmd).push(rom)),
        detected matches Some(InvocationView::Native { program }) ==> (lookup(overrides, system) is None
            && spec_find(system) is Some ==> spec_launch(overrides, system, rom, detected) == Ok::<
            LaunchCommandView,
            Seq<char>,
        >(LaunchCommandView { program, args: spec_find(system)->0.launch_args.push(rom) })),
        detected matches Some(InvocationView::Flatpak { app_id }) ==> (lookup(overrides, system) is None
            && spec_find(system) is Some ==> (spec_launch(overrides, system, rom, detected) matches Ok(c)
            && seq![c.program] + c.args == seq!["flatpak"@, "run"@, app_id] + spec_find(
            system,
        )->0.flatpak_launch_args.push(rom))),
        detected is None && lookup(overrides, system) is None && spec_find(system) is Some
            ==> spec_launch(overrides, system, rom, detected) == Err::<LaunchCommandView, Seq<char>>(
            not_installed_msg(spec_find(system)->0.emulator),
        ),
{
    if let Some(cmd) = lookup(overrides, system) {
        if let Ok(c) = spec_launch(overrides, system, rom, detected) {
            let w = words(cmd);
            assert(seq![c.program] + c.args =~= w.push(rom));
        }
    }
    if let Some(InvocationView::Flatpak { app_id }) = detected {
        if lookup(overrides, system) is None && spec_find(system) is Some {
            let c = spec_launch(overrides, system, rom, detected)->Ok_0;
            assert(seq![c.program] + c.args =~= seq!["flatpak"@, "run"@, app_id] + spec_find(
                system,
            )->0.flatpak_launch_args.push(rom));
        }
    }
}

} // verus!
