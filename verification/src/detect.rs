//! Detect which emulators are installed and how they can be launched.
//!
//! The probes themselves (is a binary on PATH, is a Flatpak app installed) are
//! made by the host; this module decides from their answers.
use vstd::prelude::*;
use crate::text::{owned, str_eq, strings_view};
use crate::registry::{EmulatorDef, EmulatorDefView, emulators, registry, defs_view, opt_str_view};

verus! {

/// How a detected emulator will be invoked.
pub enum Invocation {
    /// A native binary found on PATH (from pacman / native / source build).
    Native { program: String },
    /// A Flatpak app id run via `flatpak run <id>`.
    Flatpak { app_id: String },
}

/// Mathematical model of an `Invocation`.
pub enum InvocationView {
    Native { program: Seq<char> },
    Flatpak { app_id: Seq<char> },
}

impl View for Invocation {
    type V = InvocationView;

    open spec fn view(&self) -> InvocationView {
        match self {
            Invocation::Native { program } => InvocationView::Native { program: program@ },
            Invocation::Flatpak { app_id } => InvocationView::Flatpak { app_id: app_id@ },
        }
    }
}

/// The view of an optional invocation.
pub open spec fn opt_invocation_view(o: Option<Invocation>) -> Option<InvocationView> {
    match o {
        Some(i) => Some(i@),
        None => None,
    }
}

/// Detection result for a single system, sent to the UI.
pub struct EmulatorStatus {
    pub system: String,
    pub system_label: String,
    pub emulator: String,
    pub installed: bool,
    /// How it will launch, when installed.
    pub invocation: Option<Invocation>,
    pub bios_required: bool,
    /// Whether an official pacman package exists for this emulator.
    pub has_pacman: bool,
    /// Whether a Flathub app id exists for this emulator.
    pub has_flatpak: bool,
}

/// Mathematical model of an `EmulatorStatus`.
pub struct EmulatorStatusView {
    pub system: Seq<char>,
    pub system_label: Seq<char>,
    pub emulator: Seq<char>,
    pub installed: bool,
    pub invocation: Option<InvocationView>,
    pub bios_required: bool,
    pub has_pacman: bool,
    pub has_flatpak: bool,
}

impl View for EmulatorStatus {
    type V = EmulatorStatusView;

    open spec fn view(&self) -> EmulatorStatusView {
        EmulatorStatusView {
            system: self.system@,
            system_label: self.system_label@,
            emulator: self.emulator@,
            installed: self.installed,
            invocation: opt_invocation_view(self.invocation),
            bios_required: self.bios_required,
            has_pacman: self.has_pacman,
            has_flatpak: self.has_flatpak,
        }
    }
}

/// What the host found for one emulator.
pub struct HostProbe {
    /// Names of the emulator's binaries that exist on PATH.
    pub on_path: Vec<String>,
    /// Whether its Flatpak app is installed (any scope).
    pub flatpak_installed: bool,
}

/// Mathematical model of a `HostProbe`.
pub struct HostProbeView {
    pub on_path: Seq<Seq<char>>,
    pub flatpak_installed: bool,
}

impl View for HostProbe {
    type V = HostProbeView;

    open spec fn view(&self) -> HostProbeView {
        HostProbeView { on_path: strings_view(self.on_path@), flatpak_installed: self.flatpak_installed }
    }
}

/// The first of `bins` that is among `on_path`.
pub open spec fn first_on_path(bins: Seq<Seq<char>>, on_path: Seq<Seq<char>>) -> Option<Seq<char>>
    decreases bins.len(),
{
    if bins.len() == 0 {
        None
    } else if on_path.contains(bins[0]) {
        Some(bins[0])
    } else {
        first_on_path(bins.drop_first(), on_path)
    }
}

/// The native invocation of `d`: its first binary found on PATH.
pub open spec fn spec_native(d: EmulatorDefView, on_path: Seq<Seq<char>>) -> Option<InvocationView> {
    match first_on_path(d.binaries, on_path) {
        Some(p) => Some(InvocationView::Native { program: p }),
        None => None,
    }
}

/// How `d` can be invoked: a native binary if one is on PATH, else its
/// Flatpak app when installed, else not at all.
pub open spec fn spec_resolve(
    d: EmulatorDefView,
    on_path: Seq<Seq<char>>,
    flatpak_installed: bool,
) -> Option<InvocationView> {
    match spec_native(d, on_path) {
        Some(i) => Some(i),
        None => match d.flatpak_id {
            Some(id) => if flatpak_installed {
                Some(InvocationView::Flatpak { app_id: id })
            } else {
                None
            },
            None => None,
        },
    }
}

fn contains_string(v: &Vec<String>, s: &str) -> (r: bool)
    ensures
        r == strings_view(v@).contains(s@),
{
    let mut i: usize = 0;
    while i < v.len()
        invariant
            i <= v.len(),
            forall|j: int| 0 <= j < i ==> v@[j]@ != s@,
        decreases v.len() - i,
    {
        if str_eq(v[i].as_str(), s) {
            assert(strings_view(v@)[i as int] == s@);
            return true;
        }
        i = i + 1;
    }
    assert forall|j: int| 0 <= j < strings_view(v@).len() implies strings_view(v@)[j] != s@ by {
        assert(strings_view(v@)[j] == v@[j]@);
    }
    false
}

/// The native invocation of `def`: its first binary that is on PATH.
pub fn native_invocation(def: &EmulatorDef, on_path: &Vec<String>) -> (r: Option<Invocation>)
    ensures
        opt_invocation_view(r) == spec_native(def@, strings_view(on_path@)),
{
    let ghost bins = def@.binaries;
    let ghost op = strings_view(on_path@);
    let mut i: usize = 0;
    assert(bins.skip(0) =~= bins);
    while i < def.binaries.len()
        invariant
            bins == def@.binaries,
            op == strings_view(on_path@),
            i <= def.binaries.len(),
            first_on_path(bins, op) == first_on_path(bins.skip(i as int), op),
        decreases def.binaries.len() - i,
    {
        let bin = def.binaries[i];
        assert(bins.skip(i as int)[0] == bin@);
        if contains_string(on_path, bin) {
            return Some(Invocation::Native { program: owned(bin) });
        }
        assert(bins.skip(i as int).drop_first() =~= bins.skip(i + 1));
        i = i + 1;
    }
    None
}

/// A binary on PATH always wins over the Flatpak app, whether or not the
/// Flatpak is installed; without one, the Flatpak is used exactly when it is
/// installed.
pub proof fn law_native_preferred(d: EmulatorDefView, on_path: Seq<Seq<char>>, a: bool, b: bool)
    ensures
        spec_native(d, on_path) is Some ==> spec_resolve(d, on_path, a) == spec_native(d, on_path)
            && spec_resolve(d, on_path, a) == spec_resolve(d, on_path, b),
        spec_native(d, on_path) is None ==> (spec_resolve(d, on_path, a) is Some <==> (
        d.flatpak_id is Some && a)),
{
}

/// The Flatpak app whose installation decides how `def` is invoked: its app
/// id when none of its binaries is on PATH (the host need not ask otherwise).
pub fn flatpak_to_probe(def: &EmulatorDef, on_path: &Vec<String>) -> (r: Option<&'static str>)
    ensures
        opt_str_view(r) == (if spec_native(def@, strings_view(on_path@)) is None {
            def@.flatpak_id
        } else {
            None
        }),
{
    if native_invocation(def, on_path).is_some() {
        None
    } else {
        def.flatpak_id
    }
}

/// Resolve how an emulator can be invoked right now, preferring a native binary.
pub fn resolve_invocation(def: &EmulatorDef, on_path: &Vec<String>, flatpak_installed: bool) -> (r:
    Option<Invocation>)
    ensures
        opt_invocation_view(r) == spec_resolve(def@, strings_view(on_path@), flatpak_installed),
{
    if let Some(native) = native_invocation(def, on_path) {
        return Some(native);
    }
    if let Some(id) = def.flatpak_id {
        if flatpak_installed {
            return Some(Invocation::Flatpak { app_id: owned(id) });
        }
    }
    None
}

/// The probe for the `i`-th emulator, or an empty probe when none was given.
pub open spec fn probe_at(probes: Seq<HostProbeView>, i: int) -> HostProbeView {
    if 0 <= i < probes.len() {
        probes[i]
    } else {
        HostProbeView { on_path: Seq::empty(), flatpak_installed: false }
    }
}

/// Detection status of `d` given the host's probe.
pub open spec fn spec_status(d: EmulatorDefView, p: HostProbeView) -> EmulatorStatusView {
    let invocation = spec_resolve(d, p.on_path, p.flatpak_installed);
    EmulatorStatusView {
        system: d.system,
        system_label: d.system_label,
        emulator: d.emulator,
        installed: invocation is Some,
        invocation,
        bios_required: d.bios_required,
        has_pacman: d.pacman_pkg is Some,
        has_flatpak: d.flatpak_id is Some,
    }
}

/// Detection status of one emulator.
pub fn detect_status(def: &EmulatorDef, probe: &HostProbe) -> (r: EmulatorStatus)
    ensures
        r@ == spec_status(def@, probe@),
{
    let invocation = resolve_invocation(def, &probe.on_path, probe.flatpak_installed);
    EmulatorStatus {
        system: owned(def.system),
        system_label: owned(def.system_label),
        emulator: owned(def.emulator),
        installed: invocation.is_some(),
        invocation,
        bios_required: def.bios_required,
        has_pacman: def.pacman_pkg.is_some(),
        has_flatpak: def.flatpak_id.is_some(),
    }
}

/// Detection status for every supported system, in registry order; `probes[i]`
/// is what the host found for the `i`-th emulator of the registry.
pub fn detect_all(probes: &Vec<HostProbe>) -> (r: Vec<EmulatorStatus>)
    ensures
        r@.len() == registry().len(),
        forall|i: int|
            0 <= i < r@.len() ==> #[trigger] r@[i]@ == spec_status(
                registry()[i],
                probe_at(probes@.map_values(|p: HostProbe| p@), i),
            ),
{
    let defs = emulators();
    let ghost pv = probes@.map_values(|p: HostProbe| p@);
    let empty = HostProbe { on_path: Vec::new(), flatpak_installed: false };
    assert(strings_view(empty.on_path@) =~= Seq::<Seq<char>>::empty());
    let mut out: Vec<EmulatorStatus> = Vec::new();
    let mut i: usize = 0;
    while i < defs.len()
        invariant
            defs_view(defs@) == registry(),
            pv == probes@.map_values(|p: HostProbe| p@),
            empty@ == (HostProbeView { on_path: Seq::empty(), flatpak_installed: false }),
            i <= defs.len(),
            out.len() == i,
            forall|j: int| 0 <= j < i ==> #[trigger] out@[j]@ == spec_status(registry()[j], probe_at(pv, j)),
        decreases defs.len() - i,
    {
        assert(defs_view(defs@)[i as int] == defs@[i as int]@);
        let probe = if i < probes.len() {
            &probes[i]
        } else {
            &empty
        };
        assert(probe@ == probe_at(pv, i as int));
        out.push(detect_status(&defs[i], probe));
        i = i + 1;
    }
    out
}

/// The first binary of `bins` found on PATH is one of `bins`, is on PATH,
/// and no earlier binary is; there is none exactly when no binary is on PATH.
proof fn lemma_first_on_path(bins: Seq<Seq<char>>, on_path: Seq<Seq<char>>)
    ensures
        first_on_path(bins, on_path) matches Some(b) ==> exists|i: int|
            0 <= i < bins.len() && #[trigger] bins[i] == b && on_path.contains(b) && forall|j: int|
                0 <= j < i ==> !on_path.contains(#[trigger] bins[j]),
        first_on_path(bins, on_path) is None <==> forall|i: int|
            0 <= i < bins.len() ==> !on_path.contains(#[trigger] bins[i]),
    decreases bins.len(),
{
    if bins.len() > 0 {
        let rest = bins.drop_first();
        lemma_first_on_path(rest, on_path);
        if !on_path.contains(bins[0]) {
            if let Some(b) = first_on_path(rest, on_path) {
                let i = choose|i: int|
                    0 <= i < rest.len() && #[trigger] rest[i] == b && on_path.contains(b) && forall|
                        j: int,
                    | 0 <= j < i ==> !on_path.contains(#[trigger] rest[j]);
                assert(bins[i + 1] == b);
                assert forall|j: int| 0 <= j < i + 1 implies !on_path.contains(#[trigger] bins[j]) by {
                    if j > 0 {
                        assert(bins[j] == rest[j - 1]);
                    }
                }
            } else {
                assert forall|i: int| 0 <= i < bins.len() implies !on_path.contains(#[trigger] bins[i]) by {
                    if i > 0 {
                        assert(bins[i] == rest[i - 1]);
                    }
                }
            }
            if forall|i: int| 0 <= i < bins.len() ==> !on_path.contains(#[trigger] bins[i]) {
                assert forall|i: int| 0 <= i < rest.len() implies !on_path.contains(#[trigger] rest[i]) by {
                    assert(rest[i] == bins[i + 1]);
                }
            }
        } else {
            assert(bins[0] == bins[0]);
        }
    }
}

/// A status reports the registry's facts as they are: its system, label and
/// emulator, whether BIOS files are needed, and whether an official package
/// and a Flathub app exist (each independently of the other). The emulator
/// counts as installed exactly when one of its binaries is on PATH or its
/// Flathub app is installed; then it runs as the first of its binaries on
/// PATH, or, when none is, as its Flathub app.
pub proof fn law_status_reports_registry(d: EmulatorDefView, p: HostProbeView)
    ensures
        spec_status(d, p).system == d.system,
        spec_status(d, p).system_label == d.system_label,
        spec_status(d, p).emulator == d.emulator,
        spec_status(d, p).bios_required == d.bios_required,
        spec_status(d, p).has_pacman == (d.pacman_pkg is Some),
        spec_status(d, p).has_flatpak == (d.flatpak_id is Some),
        spec_status(d, p).installed == (spec_status(d, p).invocation is Some),
        spec_status(d, p).installed <==> (exists|i: int|
            0 <= i < d.binaries.len() && p.on_path.contains(#[trigger] d.binaries[i])) || (
        d.flatpak_id is Some && p.flatpak_installed),
        spec_status(d, p).invocation matches Some(InvocationView::Native { program }) ==> exists|i: int|
            0 <= i < d.binaries.len() && #[trigger] d.binaries[i] == program && p.on_path.contains(
                program,
            ) && forall|j: int| 0 <= j < i ==> !p.on_path.contains(#[trigger] d.binaries[j]),
        spec_status(d, p).invocation matches Some(InvocationView::Flatpak { app_id }) ==> d.flatpak_id
            == Some(app_id) && p.flatpak_installed && forall|i: int|
            0 <= i < d.binaries.len() ==> !p.on_path.contains(#[trigger] d.binaries[i]),
{
    lemma_first_on_path(d.binaries, p.on_path);
}

} // verus!
