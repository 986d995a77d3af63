//! User-editable settings persisted across runs (stored as JSON by the host).
use vstd::prelude::*;
use crate::text::{str_eq, strings_view};

verus! {

/// User-editable settings persisted across runs. Built with
/// [`AppConfig::from_parts`] or `default`, changed with
/// [`AppConfig::set_override`]; no system ever has two overrides.
pub struct AppConfig {
    /// Root folders to scan for ROMs.
    rom_folders: Vec<String>,
    /// Per-system manual override of the emulator invocation.
    ///
    /// Key = system key ("snes", ...). Value = a full command; the ROM path is
    /// appended as the final argument. Overrides auto-detection when set.
    /// Each key appears at most once.
    emulator_overrides: Vec<(String, String)>,
    /// Whether the first-run setup wizard has been completed.
    setup_complete: bool,
}

/// Mathematical model of an `AppConfig`.
pub struct AppConfigView {
    pub rom_folders: Seq<Seq<char>>,
    pub emulator_overrides: Seq<(Seq<char>, Seq<char>)>,
    pub setup_complete: bool,
}

/// The views of a list of key/value string pairs.
pub open spec fn pairs_view(s: Seq<(String, String)>) -> Seq<(Seq<char>, Seq<char>)> {
    s.map_values(|p: (String, String)| (p.0@, p.1@))
}

impl View for AppConfig {
    type V = AppConfigView;

    closed spec fn view(&self) -> AppConfigView {
        AppConfigView {
            rom_folders: strings_view(self.rom_folders@),
            emulator_overrides: pairs_view(self.emulator_overrides@),
            setup_complete: self.setup_complete,
        }
    }
}

impl AppConfigView {
    /// No system key has two overrides (the settings hold a map).
    pub open spec fn wf(self) -> bool {
        forall|i: int, j: int|
            0 <= i < j < self.emulator_overrides.len() ==> self.emulator_overrides[i].0
                != self.emulator_overrides[j].0
    }
}

impl AppConfig {
    /// The settings hold a map: no system key has two overrides.
    #[verifier::type_invariant]
    spec fn keys_distinct(self) -> bool {
        self@.wf()
    }

    /// The root folders to scan for ROMs.
    pub fn rom_folders(&self) -> (r: &Vec<String>)
        ensures
            strings_view(r@) == self@.rom_folders,
    {
        &self.rom_folders
    }

    /// The per-system override commands, each system at most once.
    pub fn emulator_overrides(&self) -> (r: &Vec<(String, String)>)
        ensures
            pairs_view(r@) == self@.emulator_overrides,
            self@.wf(),
    {
        proof {
            use_type_invariant(self);
        }
        &self.emulator_overrides
    }

    /// Whether the first-run setup wizard has been completed.
    pub fn setup_complete(&self) -> (r: bool)
        ensures
            r == self@.setup_complete,
    {
        self.setup_complete
    }

    /// The settings taken apart: the folders, the overrides (each system at
    /// most once) and the setup flag.
    pub fn into_parts(self) -> (r: (Vec<String>, Vec<(String, String)>, bool))
        ensures
            strings_view(r.0@) == self@.rom_folders,
            pairs_view(r.1@) == self@.emulator_overrides,
            r.2 == self@.setup_complete,
            self@.wf(),
    {
        proof {
            use_type_invariant(&self);
        }
        let AppConfig { rom_folders, emulator_overrides, setup_complete } = self;
        (rom_folders, emulator_overrides, setup_complete)
    }

    /// Mark the first-run setup as completed or not.
    pub fn set_setup_complete(&mut self, done: bool)
        ensures
            final(self)@ == (AppConfigView { setup_complete: done, ..old(self)@ }),
    {
        proof {
            use_type_invariant(&*self);
        }
        self.setup_complete = done;
    }

    /// Replace the root folders.
    pub fn set_rom_folders(&mut self, folders: Vec<String>)
        ensures
            final(self)@ == (AppConfigView { rom_folders: strings_view(folders@), ..old(self)@ }),
    {
        proof {
            use_type_invariant(&*self);
        }
        self.rom_folders = folders;
    }
}

impl Default for AppConfig {
    /// No folders, no overrides, setup not done.
    fn default() -> (r: Self)
        ensures
            r@ == (AppConfigView {
                rom_folders: Seq::empty(),
                emulator_overrides: Seq::empty(),
                setup_complete: false,
            }),
    {
        let r = AppConfig { rom_folders: Vec::new(), emulator_overrides: Vec::new(), setup_complete: false };
        assert(r@.rom_folders =~= Seq::<Seq<char>>::empty());
        assert(r@.emulator_overrides =~= Seq::<(Seq<char>, Seq<char>)>::empty());
        r
    }
}

/// The value stored under `key` in `pairs` (the first such entry).
pub open spec fn lookup(pairs: Seq<(Seq<char>, Seq<char>)>, key: Seq<char>) -> Option<Seq<char>>
    decreases pairs.len(),
{
    if pairs.len() == 0 {
        None
    } else if pairs[0].0 == key {
        Some(pairs[0].1)
    } else {
        lookup(pairs.drop_first(), key)
    }
}

proof fn lemma_lookup_pairs(pairs: Seq<(Seq<char>, Seq<char>)>, key: Seq<char>, value: Seq<char>)
    requires
        forall|i: int, j: int| 0 <= i < j < pairs.len() ==> pairs[i].0 != pairs[j].0,
    ensures
        lookup(pairs, key) == Some(value) <==> pairs.contains((key, value)),
    decreases pairs.len(),
{
    if pairs.len() > 0 {
        let rest = pairs.drop_first();
        lemma_lookup_pairs(rest, key, value);
        if pairs.contains((key, value)) && pairs[0] != (key, value) {
            let i = choose|i: int| 0 <= i < pairs.len() && pairs[i] == (key, value);
            assert(rest[i - 1] == (key, value));
        }
        if rest.contains((key, value)) {
            let i = choose|i: int| 0 <= i < rest.len() && rest[i] == (key, value);
            assert(pairs[i + 1] == (key, value));
        }
    }
}

/// With each system key stored once, the overrides behave as a map: looking a
/// key up gives exactly the command stored with it.
pub proof fn law_overrides_are_a_map(cfg: AppConfigView, key: Seq<char>, value: Seq<char>)
    requires
        cfg.wf(),
    ensures
        lookup(cfg.emulator_overrides, key) == Some(value) <==> cfg.emulator_overrides.contains(
            (key, value),
        ),
{
    lemma_lookup_pairs(cfg.emulator_overrides, key, value);
}

impl AppConfig {
    /// The emulator override command configured for `system`, if any.
    pub fn emulator_override(&self, system: &str) -> (r: Option<&String>)
        ensures
            match r {
                Some(cmd) => lookup(self@.emulator_overrides, system@) == Some(cmd@),
                None => lookup(self@.emulator_overrides, system@) is None,
            },
    {
        let ghost pairs = self@.emulator_overrides;
        let mut i: usize = 0;
        assert(pairs.skip(0) =~= pairs);
        while i < self.emulator_overrides.len()
            invariant
                pairs == self@.emulator_overrides,
                i <= self.emulator_overrides.len(),
                lookup(pairs, system@) == lookup(pairs.skip(i as int), system@),
            decreases self.emulator_overrides.len() - i,
        {
            let entry = &self.emulator_overrides[i];
            assert(pairs.skip(i as int)[0] == (entry.0@, entry.1@));
            if str_eq(entry.0.as_str(), system) {
                return Some(&entry.1);
            }
            assert(pairs.skip(i as int).drop_first() =~= pairs.skip(i + 1));
            i = i + 1;
        }
        None
    }
}

/// The value of the last pair for `key` in `pairs`: what a map built by
/// inserting the pairs in order holds for `key`.
pub open spec fn last_lookup(pairs: Seq<(Seq<char>, Seq<char>)>, key: Seq<char>) -> Option<
    Seq<char>,
>
    decreases pairs.len(),
{
    if pairs.len() == 0 {
        None
    } else if pairs.last().0 == key {
        Some(pairs.last().1)
    } else {
        last_lookup(pairs.drop_last(), key)
    }
}

proof fn lemma_lookup_update(
    pairs: Seq<(Seq<char>, Seq<char>)>,
    i: int,
    key: Seq<char>,
    value: Seq<char>,
    k: Seq<char>,
)
    requires
        0 <= i < pairs.len(),
        pairs[i].0 == key,
        forall|j: int| 0 <= j < i ==> pairs[j].0 != key,
    ensures
        lookup(pairs.update(i, (key, value)), k) == if k == key {
            Some(value)
        } else {
            lookup(pairs, k)
        },
    decreases pairs.len(),
{
    let u = pairs.update(i, (key, value));
    assert(u[0] == if i == 0 { (key, value) } else { pairs[0] });
    if i > 0 {
        let rest = pairs.drop_first();
        assert(u.drop_first() =~= rest.update(i - 1, (key, value)));
        assert forall|j: int| 0 <= j < i - 1 implies rest[j].0 != key by {
            assert(rest[j] == pairs[j + 1]);
        }
        lemma_lookup_update(rest, i - 1, key, value, k);
    } else {
        assert(u.drop_first() =~= pairs.drop_first());
    }
}

proof fn lemma_lookup_push(pairs: Seq<(Seq<char>, Seq<char>)>, key: Seq<char>, value: Seq<char>, k: Seq<char>)
    requires
        forall|j: int| 0 <= j < pairs.len() ==> pairs[j].0 != key,
    ensures
        lookup(pairs.push((key, value)), k) == if k == key {
            Some(value)
        } else {
            lookup(pairs, k)
        },
    decreases pairs.len(),
{
    let p = pairs.push((key, value));
    if pairs.len() > 0 {
        let rest = pairs.drop_first();
        assert(p[0] == pairs[0]);
        assert(pairs[0].0 != key);
        assert(p.drop_first() =~= rest.push((key, value)));
        assert forall|j: int| 0 <= j < rest.len() implies rest[j].0 != key by {
            assert(rest[j] == pairs[j + 1]);
        }
        lemma_lookup_push(rest, key, value, k);
    } else {
        assert(p[0] == (key, value));
        assert(lookup(pairs, k) is None);
        assert(lookup(p.drop_first(), k) is None);
        assert(pairs.push((key, value)).drop_first() =~= Seq::<(Seq<char>, Seq<char>)>::empty());
    }
}

impl AppConfig {
    /// Set the override command for `system`, replacing any earlier one (as a
    /// map insert does); the other overrides, the folders and the setup flag
    /// stay as they were.
    pub fn set_override(&mut self, system: String, command: String)
        ensures
            final(self)@.rom_folders == old(self)@.rom_folders,
            final(self)@.setup_complete == old(self)@.setup_complete,
            final(self)@.wf(),
            forall|k: Seq<char>|
                #[trigger] lookup(final(self)@.emulator_overrides, k) == if k == system@ {
                    Some(command@)
                } else {
                    lookup(old(self)@.emulator_overrides, k)
                },
    {
        proof {
            use_type_invariant(&*self);
        }
        let ghost pairs = self@.emulator_overrides;
        let mut v: Vec<(String, String)> = Vec::new();
        std::mem::swap(&mut v, &mut self.emulator_overrides);
        assert(pairs_view(v@) == pairs);
        let mut i: usize = 0;
        let mut found = false;
        while i < v.len()
            invariant
                pairs == pairs_view(v@),
                i <= v.len(),
                forall|j: int| 0 <= j < i ==> pairs[j].0 != system@,
                found ==> i < v.len() && pairs[i as int].0 == system@,
            ensures
                found ==> i < v.len() && pairs[i as int].0 == system@,
                !found ==> i == v.len(),
                forall|j: int| 0 <= j < i ==> pairs[j].0 != system@,
            decreases v.len() - i,
        {
            if str_eq(v[i].0.as_str(), system.as_str()) {
                found = true;
                break;
            }
            i = i + 1;
        }
        let ghost key = system@;
        let ghost value = command@;
        assert(old(self)@.wf());
        if found {
            v.set(i, (system, command));
            proof {
                assert(pairs_view(v@) =~= pairs.update(i as int, (key, value)));
                assert(forall|j: int|
                    0 <= j < pairs.len() ==> #[trigger] pairs_view(v@)[j].0 == pairs[j].0);
                assert forall|k: Seq<char>|
                    #[trigger] lookup(pairs_view(v@), k) == if k == key {
                        Some(value)
                    } else {
                        lookup(pairs, k)
                    } by {
                    lemma_lookup_update(pairs, i as int, key, value, k);
                }
            }
        } else {
            v.push((system, command));
            proof {
                assert(pairs_view(v@) =~= pairs.push((key, value)));
                assert(forall|j: int| 0 <= j < pairs.len() ==> pairs[j].0 != key);
                assert forall|k: Seq<char>|
                    #[trigger] lookup(pairs_view(v@), k) == if k == key {
                        Some(value)
                    } else {
                        lookup(pairs, k)
                    } by {
                    lemma_lookup_push(pairs, key, value, k);
                }
            }
        }
        self.emulator_overrides = v;
    }

    /// Settings from their parts, the overrides given as key/value pairs in
    /// any order: a later pair for the same system replaces an earlier one,
    /// so each system keeps one command, the last given.
    pub fn from_parts(
        rom_folders: Vec<String>,
        overrides: Vec<(String, String)>,
        setup_complete: bool,
    ) -> (r: AppConfig)
        ensures
            r@.wf(),
            r@.rom_folders == strings_view(rom_folders@),
            r@.setup_complete == setup_complete,
            forall|k: Seq<char>|
                #[trigger] lookup(r@.emulator_overrides, k) == last_lookup(pairs_view(overrides@), k),
    {
        let ghost input = pairs_view(overrides@);
        let mut cfg = AppConfig { rom_folders, emulator_overrides: Vec::new(), setup_complete };
        let ghost folders = cfg@.rom_folders;
        assert(input.take(0) =~= Seq::<(Seq<char>, Seq<char>)>::empty());
        let mut i: usize = 0;
        assert(cfg@.emulator_overrides =~= Seq::<(Seq<char>, Seq<char>)>::empty());
        while i < overrides.len()
            invariant
                i <= overrides.len(),
                input == pairs_view(overrides@),
                cfg@.wf(),
                cfg@.rom_folders == folders,
                cfg@.setup_complete == setup_complete,
                forall|k: Seq<char>|
                    #[trigger] lookup(cfg@.emulator_overrides, k) == last_lookup(input.take(i as int), k),
            decreases overrides.len() - i,
        {
            let key = overrides[i].0.clone();
            let value = overrides[i].1.clone();
            let ghost pv = (key@, value@);
            assert(pv == input[i as int]);
            cfg.set_override(key, value);
            assert(input.take(i + 1).drop_last() =~= input.take(i as int));
            assert(input.take(i + 1).last() == pv);
            i = i + 1;
        }
        assert(input.take(i as int) =~= input);
        cfg
    }
}

/// The value the last pair for `key` gives: it is one of the pairs, and no
/// later pair has that key; there is none exactly when no pair has the key.
pub proof fn law_last_value_wins(pairs: Seq<(Seq<char>, Seq<char>)>, key: Seq<char>)
    ensures
        last_lookup(pairs, key) matches Some(v) ==> exists|i: int|
            0 <= i < pairs.len() && #[trigger] pairs[i] == (key, v) && forall|j: int|
                i < j < pairs.len() ==> (#[trigger] pairs[j]).0 != key,
        last_lookup(pairs, key) is None <==> forall|i: int|
            0 <= i < pairs.len() ==> (#[trigger] pairs[i]).0 != key,
    decreases pairs.len(),
{
    if pairs.len() > 0 {
        let init = pairs.drop_last();
        law_last_value_wins(init, key);
        if pairs.last().0 != key {
            if let Some(v) = last_lookup(init, key) {
                let i = choose|i: int|
                    0 <= i < init.len() && #[trigger] init[i] == (key, v) && forall|j: int|
                        i < j < init.len() ==> (#[trigger] init[j]).0 != key;
                assert(pairs[i] == init[i]);
                assert forall|j: int| i < j < pairs.len() implies (#[trigger] pairs[j]).0 != key by {
                    if j < pairs.len() - 1 {
                        assert(pairs[j] == init[j]);
                    }
                }
            } else {
                assert forall|i: int| 0 <= i < pairs.len() implies (#[trigger] pairs[i]).0 != key by {
                    if i < pairs.len() - 1 {
                        assert(pairs[i] == init[i]);
                    }
                }
            }
            if forall|i: int| 0 <= i < pairs.len() ==> (#[trigger] pairs[i]).0 != key {
                assert forall|i: int| 0 <= i < init.len() implies (#[trigger] init[i]).0 != key by {
                    assert(init[i] == pairs[i]);
                }
            }
        } else {
            assert(pairs[pairs.len() - 1] == (key, pairs.last().1));
        }
    }
}

} // verus!
