//! Classify the entries found under the user's ROM folders by system.
//!
//! The walk over the folders, and the few file-existence checks it needs,
//! happen outside the library; each visited entry arrives here as a
//! [`ScanEntry`] and [`scan`] turns the walk into the sorted game list.
use vstd::prelude::*;
use vstd::hash_set::StringHashSet;
use crate::text::{
    chars_of, string_from_chars, collapse_ws, collapse_whitespace, lower,
    ws_normalized, law_collapse_ws, law_collapse_is_words_joined, join_sep, words,
    ascii_lowercase, contains_seq, contains_chars, str_eq, lex_lt, chars_lt, lemma_lex_irreflexive,
    lemma_lex_total, lemma_lex_transitive,
};
use crate::paths::{
    file_name, file_stem, extension, join, with_extension, has_component_ci, file_name_of,
    file_stem_of, extension_of, join_chars, with_extension_of, has_component_ci_of,
};
use crate::registry::{
    find, spec_find, system_for_extension, spec_system_for_extension, contains_str, strs_view,
    opt_str_view, law_extension_owner, lemma_find_in_some, registry, law_find_own_key,
};

verus! {

/// One game found on disk.
pub struct Game {
    /// System key ("snes", "n64", "ps1", "ps2", "ps3").
    pub system: String,
    /// Cleaned title derived from the filename/folder.
    pub title: String,
    /// Absolute path passed to the emulator (file, or EBOOT.BIN for PS3).
    pub path: String,
    /// Stable id (the path) for the UI to key on.
    pub id: String,
}

/// Mathematical model of a `Game`.
pub struct GameView {
    pub system: Seq<char>,
    pub title: Seq<char>,
    pub path: Seq<char>,
    pub id: Seq<char>,
}

impl View for Game {
    type V = GameView;

    open spec fn view(&self) -> GameView {
        GameView { system: self.system@, title: self.title@, path: self.path@, id: self.id@ }
    }
}

/// The views of a sequence of games.
pub open spec fn games_view(s: Seq<Game>) -> Seq<GameView> {
    s.map_values(|g: Game| g@)
}

/* Titles */

/// Bracket depth and output after reading `s`: `(`/`[` open a tag, `)`/`]`
/// close one (never below zero), `_` and `.` outside tags become spaces, other
/// characters outside tags are kept, everything inside tags is dropped.
pub open spec fn tag_state(s: Seq<char>) -> (int, Seq<char>)
    decreases s.len(),
{
    if s.len() == 0 {
        (0, Seq::empty())
    } else {
        let (d, o) = tag_state(s.drop_last());
        let c = s.last();
        if c == '(' || c == '[' {
            (d + 1, o)
        } else if c == ')' || c == ']' {
            (if d > 0 { d - 1 } else { 0 }, o)
        } else if d == 0 && (c == '_' || c == '.') {
            (d, o.push(' '))
        } else if d == 0 {
            (d, o.push(c))
        } else {
            (d, o)
        }
    }
}

/// `s` with region/dump tags removed and separators turned into spaces.
pub open spec fn strip_tags(s: Seq<char>) -> Seq<char> {
    tag_state(s).1
}

/// The display title for a raw filename stem: the words of the stem once
/// tags are stripped, joined with single spaces.
pub open spec fn spec_clean_title(stem: Seq<char>) -> Seq<char> {
    join_sep(words(strip_tags(stem)), seq![' '])
}

fn strip_tags_chars(v: &Vec<char>) -> (r: Vec<char>)
    ensures
        r@ == strip_tags(v@),
{
    let mut out: Vec<char> = Vec::new();
    let mut depth: usize = 0;
    let mut i: usize = 0;
    while i < v.len()
        invariant
            i <= v.len(),
            depth <= i,
            (depth as int, out@) == tag_state(v@.take(i as int)),
        decreases v.len() - i,
    {
        let c = v[i];
        assert(v@.take(i + 1).drop_last() =~= v@.take(i as int));
        if c == '(' || c == '[' {
            depth = depth + 1;
        } else if c == ')' || c == ']' {
            if depth > 0 {
                depth = depth - 1;
            }
        } else if depth == 0 && (c == '_' || c == '.') {
            out.push(' ');
        } else if depth == 0 {
            out.push(c);
        }
        i = i + 1;
    }
    assert(v@.take(i as int) =~= v@);
    out
}

/// Turn a raw filename stem into a display title: strip region/dump tags,
/// replace separators with spaces, collapse whitespace.
pub fn clean_title(stem: &str) -> (r: String)
    ensures
        r@ == spec_clean_title(stem@),
{
    let v = chars_of(stem);
    let stripped = strip_tags_chars(&v);
    let collapsed = collapse_whitespace(&stripped);
    proof {
        law_collapse_is_words_joined(stripped@);
    }
    string_from_chars(&collapsed)
}

/// A character that opens or closes a tag, or separates words in a file name.
pub open spec fn is_tag_char(c: char) -> bool {
    c == '(' || c == ')' || c == '[' || c == ']' || c == '_' || c == '.'
}

/// `s` holds no tag or separator characters.
pub open spec fn tag_free(s: Seq<char>) -> bool {
    forall|i: int| 0 <= i < s.len() ==> !is_tag_char(#[trigger] s[i])
}

proof fn lemma_strip_tag_free(s: Seq<char>)
    ensures
        tag_free(strip_tags(s)),
    decreases s.len(),
{
    if s.len() > 0 {
        lemma_strip_tag_free(s.drop_last());
        let o = tag_state(s.drop_last()).1;
        let n = strip_tags(s);
        assert forall|i: int| 0 <= i < n.len() implies !is_tag_char(#[trigger] n[i]) by {
            if i < o.len() {
                assert(n[i] == o[i]);
            }
        }
    }
}

proof fn lemma_strip_identity(s: Seq<char>)
    requires
        tag_free(s),
    ensures
        tag_state(s) == (0int, s),
    decreases s.len(),
{
    if s.len() > 0 {
        let prev = s.drop_last();
        assert forall|i: int| 0 <= i < prev.len() implies !is_tag_char(#[trigger] prev[i]) by {
            assert(prev[i] == s[i]);
        }
        lemma_strip_identity(prev);
        assert(!is_tag_char(s[s.len() - 1]));
        assert(prev.push(s.last()) =~= s);
    }
}

/// Cleaning a title twice changes nothing more than cleaning it once.
pub proof fn law_clean_title_idempotent(stem: Seq<char>)
    ensures
        spec_clean_title(spec_clean_title(stem)) == spec_clean_title(stem),
{
    let t = spec_clean_title(stem);
    law_clean_title_shape(stem);
    lemma_strip_identity(t);
    law_collapse_ws(strip_tags(stem));
    law_collapse_is_words_joined(strip_tags(stem));
    law_collapse_is_words_joined(t);
}

/// A cleaned title has no region/dump tags or separators, and its words are
/// separated by single spaces with none at either end.
pub proof fn law_clean_title_shape(stem: Seq<char>)
    ensures
        tag_free(spec_clean_title(stem)),
        ws_normalized(spec_clean_title(stem)),
{
    let st = strip_tags(stem);
    law_collapse_is_words_joined(st);
    lemma_strip_tag_free(stem);
    law_collapse_ws(st);
    let t = collapse_ws(st);
    assert forall|i: int| 0 <= i < t.len() implies !is_tag_char(#[trigger] t[i]) by {
        if t[i] != ' ' {
            assert(st.contains(t[i]));
            let j = choose|j: int| 0 <= j < st.len() && st[j] == t[i];
            assert(!is_tag_char(st[j]));
        }
    }
}

/* Classification */

/// Keywords that name a system inside a path, most specific first.
pub open spec fn hints() -> Seq<(Seq<char>, Seq<char>)> {
    seq![
        ("ps3"@, "ps3"@),
        ("playstation 3"@, "ps3"@),
        ("ps2"@, "ps2"@),
        ("playstation 2"@, "ps2"@),
        ("ps1"@, "ps1"@),
        ("psx"@, "ps1"@),
        ("playstation"@, "ps1"@),
        ("n64"@, "n64"@),
        ("nintendo 64"@, "n64"@),
        ("snes"@, "snes"@),
    ]
}

/// The system of the first hint whose keyword occurs in `hay`.
pub open spec fn first_hint(hay: Seq<char>, hs: Seq<(Seq<char>, Seq<char>)>) -> Option<Seq<char>>
    decreases hs.len(),
{
    if hs.len() == 0 {
        None
    } else if contains_seq(hay, hs[0].0) {
        Some(hs[0].1)
    } else {
        first_hint(hay, hs.drop_first())
    }
}

/// The system named by a keyword anywhere in `path` (ASCII case-insensitive).
pub open spec fn spec_path_hint(path: Seq<char>) -> Option<Seq<char>> {
    first_hint(lower(path), hints())
}

/// Disc-image extensions shared by PS1 and PS2; disambiguated via path hints.
pub open spec fn ambiguous() -> Seq<Seq<char>> {
    seq!["bin"@, "cue"@, "chd"@, "iso"@, "img"@, "mdf"@]
}

/// The system of a file at `path` with (lowercase) extension `ext`: for a disc
/// image, a system named in the path wins when its emulator accepts `ext`;
/// otherwise the first system in the registry that accepts `ext`.
pub open spec fn spec_classify(path: Seq<char>, ext: Seq<char>) -> Option<Seq<char>> {
    if ambiguous().contains(ext) {
        match spec_path_hint(path) {
            Some(sys) => match spec_find(sys) {
                Some(d) => if d.extensions.contains(ext) {
                    Some(sys)
                } else {
                    spec_system_for_extension(ext)
                },
                None => spec_system_for_extension(ext),
            },
            None => spec_system_for_extension(ext),
        }
    } else {
        spec_system_for_extension(ext)
    }
}

fn hint_table() -> (v: Vec<(&'static str, &'static str)>)
    ensures
        v@.map_values(|h: (&'static str, &'static str)| (h.0@, h.1@)) == hints(),
{
    let v = vec![
        ("ps3", "ps3"),
        ("playstation 3", "ps3"),
        ("ps2", "ps2"),
        ("playstation 2", "ps2"),
        ("ps1", "ps1"),
        ("psx", "ps1"),
        ("playstation", "ps1"),
        ("n64", "n64"),
        ("nintendo 64", "n64"),
        ("snes", "snes"),
    ];
    assert(v@.map_values(|h: (&'static str, &'static str)| (h.0@, h.1@)) =~= hints());
    v
}

/// Guess a system from keywords anywhere in the path (case-insensitive).
pub fn system_from_path_hint(path: &str) -> (r: Option<&'static str>)
    ensures
        opt_str_view(r) == spec_path_hint(path@),
{
    let hay = ascii_lowercase(&chars_of(path));
    let table = hint_table();
    let ghost hs = hints();
    let mut i: usize = 0;
    assert(hs.skip(0) =~= hs);
    while i < table.len()
        invariant
            hs == hints(),
            table@.map_values(|h: (&'static str, &'static str)| (h.0@, h.1@)) == hs,
            hay@ == lower(path@),
            i <= table.len(),
            spec_path_hint(path@) == first_hint(hay@, hs.skip(i as int)),
        decreases table.len() - i,
    {
        let (token, sys) = table[i];
        assert(hs[i as int] == (token@, sys@));
        let needle = chars_of(token);
        if contains_chars(&hay, &needle) {
            return Some(sys);
        }
        assert(hs.skip(i as int).drop_first() =~= hs.skip(i + 1));
        i = i + 1;
    }
    None
}

fn is_ambiguous(ext: &str) -> (r: bool)
    ensures
        r == ambiguous().contains(ext@),
{
    let list: Vec<&'static str> = vec!["bin", "cue", "chd", "iso", "img", "mdf"];
    assert(strs_view(list@) =~= ambiguous());
    contains_str(&list, ext)
}

/// Classify a file to a system, using path hints for ambiguous disc formats.
pub fn classify(path: &str, ext: &str) -> (r: Option<&'static str>)
    ensures
        opt_str_view(r) == spec_classify(path@, ext@),
{
    if is_ambiguous(ext) {
        // Prefer a system named in the path (e.g. ".../PS2/game.iso").
        if let Some(sys) = system_from_path_hint(path) {
            // Only accept a hint whose emulator actually accepts this extension.
            if let Some(d) = find(sys) {
                if contains_str(&d.extensions, ext) {
                    return Some(sys);
                }
            }
        }
        // No usable hint: fall back to the registry's first accepting system.
        return system_for_extension(ext);
    }
    system_for_extension(ext)
}

/// A file is classified exactly when some emulator accepts its extension, and
/// the system it is classified to accepts that extension.
pub proof fn law_classify_accepts(path: Seq<char>, ext: Seq<char>)
    ensures
        spec_classify(path, ext) is Some <==> spec_system_for_extension(ext) is Some,
        spec_classify(path, ext) matches Some(sys) ==> (spec_find(sys) matches Some(d)
            && d.extensions.contains(ext)),
{
    law_extension_owner(ext);
    if ambiguous().contains(ext) {
        if let Some(sys) = spec_path_hint(path) {
            if let Some(d) = spec_find(sys) {
                if d.extensions.contains(ext) {
                    lemma_find_in_some(registry(), sys);
                    let i = choose|i: int| 0 <= i < registry().len() && registry()[i] == d && d.system == sys;
                    assert(registry()[i].extensions.contains(ext));
                }
            }
        }
    }
}

/* Entries of the walk */

/// What kind of filesystem object a visited entry is.
#[derive(Clone, Copy, PartialEq, Eq, Structural)]
pub enum EntryKind {
    Dir,
    File,
    Other,
}

/// One entry visited while walking a ROM folder (symlinks followed).
pub struct ScanEntry {
    /// The entry's path, as text.
    pub path: String,
    /// Whether it is a directory, a regular file, or something else.
    pub kind: EntryKind,
    /// For a directory: whether [`ps3_eboot_path`] of it is an existing file.
    pub eboot_is_file: bool,
    /// For a file: whether [`sibling_cue_path`] of it is an existing file.
    pub cue_sibling_is_file: bool,
    /// Whether the entry's own name is valid UTF-8 (`path` holds a lossy
    /// rendering otherwise, and the name then gives no title).
    pub name_is_utf8: bool,
}

/// Mathematical model of a `ScanEntry`.
pub struct ScanEntryView {
    pub path: Seq<char>,
    pub kind: EntryKind,
    pub eboot_is_file: bool,
    pub cue_sibling_is_file: bool,
    pub name_is_utf8: bool,
}

impl View for ScanEntry {
    type V = ScanEntryView;

    open spec fn view(&self) -> ScanEntryView {
        ScanEntryView {
            path: self.path@,
            kind: self.kind,
            eboot_is_file: self.eboot_is_file,
            cue_sibling_is_file: self.cue_sibling_is_file,
            name_is_utf8: self.name_is_utf8,
        }
    }
}

/// The views of a sequence of entries.
pub open spec fn entries_view(s: Seq<ScanEntry>) -> Seq<ScanEntryView> {
    s.map_values(|e: ScanEntry| e@)
}

/// `<dir>/PS3_GAME/USRDIR/EBOOT.BIN`.
pub open spec fn spec_eboot_path(dir: Seq<char>) -> Seq<char> {
    join(join(join(dir, "PS3_GAME"@), "USRDIR"@), "EBOOT.BIN"@)
}

/// The file whose presence makes `dir` a PS3 game folder.
pub fn ps3_eboot_path(dir: &str) -> (r: String)
    ensures
        r@ == spec_eboot_path(dir@),
{
    let d = chars_of(dir);
    let a = join_chars(&d, &chars_of("PS3_GAME"));
    let b = join_chars(&a, &chars_of("USRDIR"));
    let c = join_chars(&b, &chars_of("EBOOT.BIN"));
    string_from_chars(&c)
}

/// The `.cue` file with the same stem as `path`.
pub open spec fn spec_sibling_cue(path: Seq<char>) -> Seq<char> {
    with_extension(path, "cue"@)
}

/// The `.cue` file with the same stem as `path` (a `.bin` beside it is a track
/// of that cue sheet).
pub fn sibling_cue_path(path: &str) -> (r: String)
    ensures
        r@ == spec_sibling_cue(path@),
{
    let p = chars_of(path);
    let c = with_extension_of(&p, &chars_of("cue"));
    string_from_chars(&c)
}

/// The PS3 game for folder `dir`, when its EBOOT.BIN exists; titled after the
/// folder's name when that name is text.
pub open spec fn spec_ps3_folder(dir: Seq<char>, eboot_is_file: bool, name_is_utf8: bool) -> Option<
    GameView,
> {
    if !eboot_is_file {
        None
    } else {
        let eboot = spec_eboot_path(dir);
        Some(
            GameView {
                system: "ps3"@,
                title: match file_name(dir) {
                    Some(n) => if name_is_utf8 {
                        spec_clean_title(n)
                    } else {
                        "Unknown PS3 Game"@
                    },
                    None => "Unknown PS3 Game"@,
                },
                path: eboot,
                id: eboot,
            },
        )
    }
}

/// If `dir` is a PS3 game folder (its EBOOT.BIN exists, as `eboot_is_file`
/// tells), return its Game, launched via EBOOT.BIN. `name_is_utf8` tells
/// whether the folder's own name is valid UTF-8.
pub fn detect_ps3_folder(dir: &str, eboot_is_file: bool, name_is_utf8: bool) -> (r: Option<Game>)
    ensures
        match r {
            Some(g) => spec_ps3_folder(dir@, eboot_is_file, name_is_utf8) == Some(g@),
            None => spec_ps3_folder(dir@, eboot_is_file, name_is_utf8) is None,
        },
{
    if !eboot_is_file {
        return None;
    }
    let eboot = ps3_eboot_path(dir);
    let title = match file_name_of(&chars_of(dir)) {
        Some(n) => if name_is_utf8 {
            clean_title(string_from_chars(&n).as_str())
        } else {
            crate::text::owned("Unknown PS3 Game")
        },
        None => crate::text::owned("Unknown PS3 Game"),
    };
    Some(Game { system: crate::text::owned("ps3"), title, path: eboot.clone(), id: eboot })
}

/// The game, if any, that one visited entry contributes: a PS3 folder; or a
/// file outside any PS3_GAME folder whose lowercased extension classifies to a
/// system, unless it is a `.bin` track beside a `.cue` (titled after its stem
/// when its name is text, else untitled).
pub open spec fn entry_game(e: ScanEntryView) -> Option<GameView> {
    match e.kind {
        EntryKind::Dir => spec_ps3_folder(e.path, e.eboot_is_file, e.name_is_utf8),
        EntryKind::File => {
            if has_component_ci(e.path, "PS3_GAME"@) {
                None
            } else {
                match extension(e.path) {
                    None => None,
                    Some(x) => {
                        let ext = lower(x);
                        match spec_classify(e.path, ext) {
                            None => None,
                            Some(sys) => if ext == "bin"@ && e.cue_sibling_is_file {
                                None
                            } else {
                                let stem = match file_stem(e.path) {
                                    Some(st) => if e.name_is_utf8 {
                                        st
                                    } else {
                                        Seq::empty()
                                    },
                                    None => Seq::empty(),
                                };
                                Some(
                                    GameView {
                                        system: sys,
                                        title: spec_clean_title(stem),
                                        path: e.path,
                                        id: e.path,
                                    },
                                )
                            },
                        }
                    },
                }
            }
        },
        EntryKind::Other => None,
    }
}

fn game_for_entry(e: &ScanEntry) -> (r: Option<Game>)
    ensures
        match r {
            Some(g) => entry_game(e@) == Some(g@),
            None => entry_game(e@) is None,
        },
{
    match e.kind {
        EntryKind::Dir => detect_ps3_folder(e.path.as_str(), e.eboot_is_file, e.name_is_utf8),
        EntryKind::File => {
            let p = chars_of(e.path.as_str());
            // Files inside a PS3 game folder belong to that folder's entry.
            if has_component_ci_of(&p, &chars_of("PS3_GAME")) {
                return None;
            }
            let raw_ext = match extension_of(&p) {
                Some(x) => x,
                None => {
                    return None;
                },
            };
            let ext = string_from_chars(&ascii_lowercase(&raw_ext));
            let sys = match classify(e.path.as_str(), ext.as_str()) {
                Some(s) => s,
                None => {
                    return None;
                },
            };
            // A .bin next to a .cue is loaded via the .cue; skip lone .bin tracks.
            if str_eq(ext.as_str(), "bin") && e.cue_sibling_is_file {
                return None;
            }
            let stem = match file_stem_of(&p) {
                Some(st) => if e.name_is_utf8 {
                    string_from_chars(&st)
                } else {
                    String::new()
                },
                None => String::new(),
            };
            let title = clean_title(stem.as_str());
            Some(
                Game {
                    system: crate::text::owned(sys),
                    title,
                    path: e.path.clone(),
                    id: e.path.clone(),
                },
            )
        },
        EntryKind::Other => None,
    }
}

/// Whether some game in `gs` has path `p`.
pub open spec fn path_seen(gs: Seq<GameView>, p: Seq<char>) -> bool {
    exists|i: int| 0 <= i < gs.len() && gs[i].path == p
}

/// The games of a walk in discovery order, keeping only the first game for
/// each path.
pub open spec fn discover(es: Seq<ScanEntryView>) -> Seq<GameView>
    decreases es.len(),
{
    if es.len() == 0 {
        Seq::empty()
    } else {
        let prev = discover(es.drop_last());
        match entry_game(es.last()) {
            Some(g) => if path_seen(prev, g.path) {
                prev
            } else {
                prev.push(g)
            },
            None => prev,
        }
    }
}

/* Ordering */

/// `a` sorts strictly before `b` by (system, title).
pub open spec fn game_lt(a: GameView, b: GameView) -> bool {
    lex_lt(a.system, b.system) || (a.system == b.system && lex_lt(a.title, b.title))
}

/// `a` and `b` have the same sort key.
pub open spec fn same_key(a: GameView, b: GameView) -> bool {
    a.system == b.system && a.title == b.title
}

/// `s` is in non-decreasing (system, title) order.
pub open spec fn sorted_games(s: Seq<GameView>) -> bool {
    forall|i: int, j: int| 0 <= i < j < s.len() ==> !game_lt(s[j], s[i])
}

/// The games of `s` that share the sort key of `k`, in order.
pub open spec fn key_filter(s: Seq<GameView>, k: GameView) -> Seq<GameView> {
    s.filter(|g: GameView| same_key(g, k))
}

/// `out` is `inp` sorted by (system, title), games with equal keys keeping
/// their relative order (a stable sort).
pub open spec fn stable_sort_of(out: Seq<GameView>, inp: Seq<GameView>) -> bool {
    &&& sorted_games(out)
    &&& forall|k: GameView| #[trigger] key_filter(out, k) == key_filter(inp, k)
}

/// The order on games is a strict weak order on their keys.
pub proof fn lemma_game_order(a: GameView, b: GameView, c: GameView)
    ensures
        same_key(a, b) ==> !game_lt(a, b),
        game_lt(a, b) ==> !game_lt(b, a),
        same_key(a, b) || game_lt(a, b) || game_lt(b, a),
        game_lt(a, b) && !game_lt(c, b) ==> game_lt(a, c),
{
    lemma_lex_irreflexive(a.system);
    lemma_lex_irreflexive(a.title);
    lemma_lex_total(a.system, b.system);
    lemma_lex_total(a.title, b.title);
    lemma_lex_total(b.system, c.system);
    lemma_lex_total(b.title, c.title);
    if game_lt(a, b) && !game_lt(c, b) {
        if lex_lt(b.system, c.system) {
            if lex_lt(a.system, b.system) {
                lemma_lex_transitive(a.system, b.system, c.system);
            }
        } else if b.system == c.system {
            if lex_lt(b.title, c.title) && a.system == b.system {
                lemma_lex_transitive(a.title, b.title, c.title);
            }
        }
    }
}

proof fn lemma_filter_none(s: Seq<GameView>, k: GameView)
    requires
        forall|i: int| 0 <= i < s.len() ==> !same_key(s[i], k),
    ensures
        key_filter(s, k) == Seq::<GameView>::empty(),
    decreases s.len(),
{
    reveal(Seq::filter);
    if s.len() > 0 {
        lemma_filter_none(s.drop_last(), k);
    }
}

proof fn lemma_filter_single(x: GameView, k: GameView)
    ensures
        key_filter(seq![x], k) == if same_key(x, k) {
            seq![x]
        } else {
            Seq::<GameView>::empty()
        },
{
    let e = Seq::<GameView>::empty();
    reveal(Seq::filter);
    assert(e.filter(|g: GameView| same_key(g, k)) == e);
    e.lemma_filter_push(x, |g: GameView| same_key(g, k));
    assert(e.push(x) =~= seq![x]);
}

/// Inserting `x` at the end of its key's run keeps `s` sorted and appends `x`
/// to the games that share its key.
proof fn lemma_insert_stable(s: Seq<GameView>, p: int, x: GameView)
    requires
        sorted_games(s),
        0 <= p <= s.len(),
        forall|i: int| 0 <= i < p ==> !game_lt(x, s[i]),
        forall|i: int| p <= i < s.len() ==> game_lt(x, s[i]),
    ensures
        sorted_games(s.insert(p, x)),
        forall|k: GameView|
            #[trigger] key_filter(s.insert(p, x), k) == if same_key(x, k) {
                key_filter(s, k).push(x)
            } else {
                key_filter(s, k)
            },
{
    let t = s.insert(p, x);
    assert forall|i: int, j: int| 0 <= i < j < t.len() implies !game_lt(t[j], t[i]) by {
        if i < p && j == p {
        } else if i == p && j > p {
            lemma_game_order(x, t[j], x);
        } else {
            let si = if i < p { i } else { i - 1 };
            let sj = if j <= p { j } else { j - 1 };
            assert(t[i] == s[si] && t[j] == s[sj]);
        }
    }
    let a = s.take(p);
    let b = s.skip(p);
    assert(t =~= a + seq![x] + b);
    assert(s =~= a + b);
    assert forall|k: GameView| #[trigger] key_filter(t, k) == if same_key(x, k) {
        key_filter(s, k).push(x)
    } else {
        key_filter(s, k)
    } by {
        let pred = |g: GameView| same_key(g, k);
        Seq::filter_distributes_over_add(a + seq![x], b, pred);
        Seq::filter_distributes_over_add(a, seq![x], pred);
        Seq::filter_distributes_over_add(a, b, pred);
        lemma_filter_single(x, k);
        if same_key(x, k) {
            assert forall|i: int| 0 <= i < b.len() implies !same_key(b[i], k) by {
                lemma_game_order(x, b[i], x);
            }
            lemma_filter_none(b, k);
            assert(key_filter(b, k) =~= Seq::<GameView>::empty());
            assert(key_filter(t, k) =~= key_filter(a, k).push(x));
            assert(key_filter(s, k) =~= key_filter(a, k));
        } else {
            assert(key_filter(t, k) =~= key_filter(a, k) + key_filter(b, k));
        }
    }
}

/// Whether `g` sorts strictly after the key (`sys`, `title`).
fn key_before_game(sys: &Vec<char>, title: &Vec<char>, g: &Game) -> (r: bool)
    ensures
        r == game_lt(GameView { system: sys@, title: title@, path: g@.path, id: g@.id }, g@),
{
    let gs = chars_of(g.system.as_str());
    let gt = chars_of(g.title.as_str());
    chars_lt(sys, &gs) || (crate::text::chars_eq(sys, &gs) && chars_lt(title, &gt))
}

/// Inserts `g` after every game whose key is not above its own.
fn insert_sorted(out: &mut Vec<Game>, g: Game)
    requires
        sorted_games(games_view(old(out)@)),
    ensures
        sorted_games(games_view(final(out)@)),
        forall|k: GameView|
            #[trigger] key_filter(games_view(final(out)@), k) == if same_key(g@, k) {
                key_filter(games_view(old(out)@), k).push(g@)
            } else {
                key_filter(games_view(old(out)@), k)
            },
        forall|x: GameView|
            games_view(final(out)@).contains(x) <==> (games_view(old(out)@).contains(x) || x
                == g@),
        exists|p: int|
            0 <= p <= old(out)@.len() && games_view(final(out)@) == games_view(old(out)@).insert(
                p,
                g@,
            ),
{
    let sys = chars_of(g.system.as_str());
    let title = chars_of(g.title.as_str());
    let ghost s = games_view(out@);
    let mut lo: usize = 0;
    let mut hi: usize = out.len();
    while lo < hi
        invariant
            s == games_view(out@),
            sorted_games(s),
            lo <= hi <= out.len(),
            sys@ == g@.system,
            title@ == g@.title,
            forall|i: int| 0 <= i < lo ==> !game_lt(g@, s[i]),
            forall|i: int| hi <= i < s.len() ==> game_lt(g@, s[i]),
        decreases hi - lo,
    {
        let mid = lo + (hi - lo) / 2;
        assert(s[mid as int] == out@[mid as int]@);
        if key_before_game(&sys, &title, &out[mid]) {
            assert forall|i: int| mid <= i < s.len() && i < hi implies game_lt(g@, s[i]) by {
                lemma_game_order(g@, s[mid as int], s[i]);
            }
            hi = mid;
        } else {
            assert forall|i: int| 0 <= i <= mid implies !game_lt(g@, s[i]) by {
                lemma_game_order(g@, s[i], s[mid as int]);
            }
            lo = mid + 1;
        }
    }
    proof {
        lemma_insert_stable(s, lo as int, g@);
    }
    let ghost gv = g@;
    out.insert(lo, g);
    assert(games_view(out@) =~= s.insert(lo as int, gv));
    assert forall|x: GameView| games_view(out@).contains(x) <==> (s.contains(x) || x == gv) by {
        let t = s.insert(lo as int, gv);
        if s.contains(x) {
            let i = choose|i: int| 0 <= i < s.len() && s[i] == x;
            if i < lo {
                assert(t[i] == x);
            } else {
                assert(t[i + 1] == x);
            }
        }
        if t.contains(x) {
            let i = choose|i: int| 0 <= i < t.len() && t[i] == x;
            if i < lo {
                assert(s[i] == x);
            } else if i > lo {
                assert(s[i - 1] == x);
            }
        }
        if x == gv {
            assert(t[lo as int] == x);
        }
    }
}

/// No two games in `s` share a path.
pub open spec fn distinct_paths(s: Seq<GameView>) -> bool {
    forall|a: int, b: int| 0 <= a < b < s.len() ==> s[a].path != s[b].path
}

/// Every game in `s` is the game of one of `es`.
pub open spec fn from_entries(s: Seq<GameView>, es: Seq<ScanEntryView>) -> bool {
    forall|x: GameView|
        s.contains(x) ==> exists|k: int| 0 <= k < es.len() && entry_game(#[trigger] es[k]) == Some(x)
}

/// Sort the games of a walk by (system, title), keeping one game per path:
/// the result is the stable sort of [`discover`] over the visited entries, so
/// no two games share a path and each comes from a visited entry.
pub fn scan(entries: &Vec<ScanEntry>) -> (r: Vec<Game>)
    ensures
        stable_sort_of(games_view(r@), discover(entries_view(entries@))),
        distinct_paths(games_view(r@)),
        from_entries(games_view(r@), entries_view(entries@)),
{
    let mut games: Vec<Game> = Vec::new();
    let mut seen = StringHashSet::new();
    let ghost es = entries_view(entries@);
    let mut i: usize = 0;
    assert(es.take(0) =~= Seq::<ScanEntryView>::empty());
    assert(games_view(games@) =~= discover(es.take(0)));
    while i < entries.len()
        invariant
            es == entries_view(entries@),
            i <= entries.len(),
            stable_sort_of(games_view(games@), discover(es.take(i as int))),
            forall|x: GameView|
                games_view(games@).contains(x) <==> discover(es.take(i as int)).contains(x),
            forall|p: Seq<char>| seen@.contains(p) <==> path_seen(discover(es.take(i as int)), p),
            distinct_paths(games_view(games@)),
            from_entries(games_view(games@), es.take(i as int)),
        decreases entries.len() - i,
    {
        let ghost prev = discover(es.take(i as int));
        assert(es.take(i + 1).drop_last() =~= es.take(i as int));
        assert(es.take(i + 1).last() == entries@[i as int]@);
        let found = game_for_entry(&entries[i]);
        if found.is_none() {
            assert(discover(es.take(i + 1)) == prev);
        }
        if let Some(g) = found {
            let ghost seen_before = path_seen(prev, g@.path);
            if seen.insert(g.path.clone()) {
                let ghost gv = g@;
                assert forall|k: GameView| #[trigger] key_filter(prev.push(gv), k) == if same_key(gv, k) {
                    key_filter(prev, k).push(gv)
                } else {
                    key_filter(prev, k)
                } by {
                    prev.lemma_filter_push(gv, |h: GameView| same_key(h, k));
                }
                let ghost old_games = games_view(games@);
                assert forall|a: int| 0 <= a < old_games.len() implies old_games[a].path != gv.path by {
                    assert(old_games.contains(old_games[a]));
                    assert(prev.contains(old_games[a]));
                    let j = choose|j: int| 0 <= j < prev.len() && prev[j] == old_games[a];
                    assert(!path_seen(prev, gv.path));
                }
                insert_sorted(&mut games, g);
                proof {
                    let p = choose|p: int| 0 <= p <= old_games.len() && games_view(games@) == old_games.insert(p, gv);
                    let t = games_view(games@);
                    assert forall|a: int, b: int| 0 <= a < b < t.len() implies t[a].path != t[b].path by {
                        let sa = if a < p { a } else { a - 1 };
                        let sb = if b < p { b } else { b - 1 };
                        if a != p && b != p {
                            assert(t[a] == old_games[sa] && t[b] == old_games[sb]);
                        } else if a == p {
                            assert(t[b] == old_games[sb]);
                        } else {
                            assert(t[a] == old_games[sa]);
                        }
                    }
                }
                assert forall|p: Seq<char>| seen@.contains(p) <==> path_seen(prev.push(gv), p) by {
                    if path_seen(prev, p) {
                        let j = choose|j: int| 0 <= j < prev.len() && prev[j].path == p;
                        assert(prev.push(gv)[j].path == p);
                    }
                    if p == gv.path {
                        assert(prev.push(gv)[prev.len() as int].path == p);
                    }
                    if path_seen(prev.push(gv), p) {
                        let j = choose|j: int| 0 <= j < prev.len() + 1 && prev.push(gv)[j].path == p;
                        if j < prev.len() {
                            assert(prev[j].path == p);
                        }
                    }
                }
                assert forall|x: GameView| prev.push(gv).contains(x) <==> (prev.contains(x) || x == gv) by {
                    if prev.contains(x) {
                        let j = choose|j: int| 0 <= j < prev.len() && prev[j] == x;
                        assert(prev.push(gv)[j] == x);
                    }
                    if x == gv {
                        assert(prev.push(gv)[prev.len() as int] == x);
                    }
                    if prev.push(gv).contains(x) {
                        let j = choose|j: int| 0 <= j < prev.len() + 1 && prev.push(gv)[j] == x;
                        if j < prev.len() {
                            assert(prev[j] == x);
                        }
                    }
                }
                assert(discover(es.take(i + 1)) == prev.push(gv));
            } else {
                assert(seen_before);
                assert(discover(es.take(i + 1)) == prev);
            }
        }
        i = i + 1;
    }
    assert(es.take(i as int) =~= es);
    games
}

/// Every game's id is its path.
pub proof fn law_ids_are_paths(es: Seq<ScanEntryView>, out: Seq<GameView>)
    requires
        from_entries(out, es),
    ensures
        forall|k: int| 0 <= k < out.len() ==> #[trigger] out[k].id == out[k].path,
{
    assert forall|k: int| 0 <= k < out.len() implies #[trigger] out[k].id == out[k].path by {
        assert(out.contains(out[k]));
        let j = choose|j: int| 0 <= j < es.len() && entry_game(#[trigger] es[j]) == Some(out[k]);
    }
}

/// Files inside a PS3 game folder never surface as games of their own: every
/// PS3 game is the EBOOT.BIN of a visited folder, and every other game is a
/// file outside any PS3_GAME folder.
pub proof fn law_ps3_folders(es: Seq<ScanEntryView>, out: Seq<GameView>)
    requires
        from_entries(out, es),
    ensures
        forall|k: int|
            0 <= k < out.len() && #[trigger] out[k].system == "ps3"@ ==> exists|j: int|
                0 <= j < es.len() && es[j].kind == EntryKind::Dir && out[k].path
                    == spec_eboot_path(#[trigger] es[j].path),
        forall|k: int|
            0 <= k < out.len() && #[trigger] out[k].system != "ps3"@ ==> !has_component_ci(
                out[k].path,
                "PS3_GAME"@,
            ),
{
    law_find_own_key(4);
    assert forall|k: int| 0 <= k < out.len() implies (#[trigger] out[k].system == "ps3"@ ==> exists|j: int|
        0 <= j < es.len() && es[j].kind == EntryKind::Dir && out[k].path == spec_eboot_path(
            #[trigger] es[j].path,
        )) && (out[k].system != "ps3"@ ==> !has_component_ci(out[k].path, "PS3_GAME"@)) by {
        let x = out[k];
        assert(out.contains(x));
        let j = choose|j: int| 0 <= j < es.len() && entry_game(#[trigger] es[j]) == Some(x);
        let e = es[j];
        if e.kind == EntryKind::File {
            let ext = lower(extension(e.path)->0);
            law_classify_accepts(e.path, ext);
            assert(spec_find(x.system) matches Some(d) && d.extensions.contains(ext));
            if x.system == "ps3"@ {
                assert(registry()[4].extensions.len() == 0);
                assert(false);
            }
        }
    }
}

/// A path that starts at the root of the file system.
pub open spec fn is_absolute(p: Seq<char>) -> bool {
    p.len() > 0 && p[0] == '/'
}

/// A walk of absolute paths yields games with absolute paths: each game's
/// path is a visited path, or a path under a visited folder.
pub proof fn law_absolute_paths(es: Seq<ScanEntryView>, out: Seq<GameView>)
    requires
        from_entries(out, es),
        forall|k: int| 0 <= k < es.len() ==> is_absolute(#[trigger] es[k].path),
    ensures
        forall|k: int| 0 <= k < out.len() ==> is_absolute(#[trigger] out[k].path),
{
    assert forall|k: int| 0 <= k < out.len() implies is_absolute(#[trigger] out[k].path) by {
        assert(out.contains(out[k]));
        let j = choose|j: int| 0 <= j < es.len() && entry_game(#[trigger] es[j]) == Some(out[k]);
        let d = es[j].path;
        assert(is_absolute(d));
        if es[j].kind == EntryKind::Dir {
            let a = join(d, "PS3_GAME"@);
            let b = join(a, "USRDIR"@);
            assert(a[0] == '/');
            assert(b[0] == '/');
            assert(spec_eboot_path(d)[0] == '/');
        }
    }
}

/// Once a walk has visited an entry, the game of that entry (if any) has a
/// path among the discovered games.
proof fn lemma_discover_sees(es: Seq<ScanEntryView>)
    ensures
        forall|j: int|
            0 <= j < es.len() && #[trigger] entry_game(es[j]) is Some ==> path_seen(
                discover(es),
                entry_game(es[j])->0.path,
            ),
    decreases es.len(),
{
    if es.len() > 0 {
        let prev = discover(es.drop_last());
        lemma_discover_sees(es.drop_last());
        assert forall|j: int|
            0 <= j < es.len() && #[trigger] entry_game(es[j]) is Some implies path_seen(
                discover(es),
                entry_game(es[j])->0.path,
            ) by {
            let p = entry_game(es[j])->0.path;
            if j < es.len() - 1 {
                assert(es.drop_last()[j] == es[j]);
                assert(path_seen(prev, p));
                let i = choose|i: int| 0 <= i < prev.len() && prev[i].path == p;
                if let Some(g) = entry_game(es.last()) {
                    if !path_seen(prev, g.path) {
                        assert(prev.push(g)[i].path == p);
                    }
                }
            } else {
                let g = entry_game(es.last())->0;
                if !path_seen(prev, g.path) {
                    assert(prev.push(g)[prev.len() as int].path == p);
                }
            }
        }
    }
}

/// Visiting entries again that the walk already visited (a root listed
/// twice, a folder reached twice) discovers nothing new.
pub proof fn law_repeated_entries(es: Seq<ScanEntryView>, extra: Seq<ScanEntryView>)
    requires
        forall|k: int| 0 <= k < extra.len() ==> es.contains(#[trigger] extra[k]),
    ensures
        discover(es + extra) == discover(es),
    decreases extra.len(),
{
    if extra.len() > 0 {
        law_repeated_entries(es, extra.drop_last());
        assert((es + extra).drop_last() =~= es + extra.drop_last());
        let e = extra.last();
        assert(es.contains(extra[extra.len() - 1]));
        let j = choose|j: int| 0 <= j < es.len() && es[j] == e;
        lemma_discover_sees(es);
        assert((es + extra).last() == e);
        if let Some(g) = entry_game(e) {
            assert(entry_game(es[j]) is Some);
            assert(path_seen(discover(es), g.path));
        }
    }
}

/// The games of `s` with the same key as `x`: pushing one more game.
proof fn lemma_filter_push_key(s: Seq<GameView>, x: GameView, k: GameView)
    ensures
        key_filter(s.push(x), k) == if same_key(x, k) {
            key_filter(s, k).push(x)
        } else {
            key_filter(s, k)
        },
{
    s.lemma_filter_push(x, |g: GameView| same_key(g, k));
}

/// The last game of a non-empty sorted sequence has a key no other game's key
/// is above.
proof fn lemma_last_is_max(s: Seq<GameView>, y: GameView)
    requires
        sorted_games(s),
        s.len() > 0,
        s.contains(y),
    ensures
        !game_lt(s.last(), y),
{
    let i = choose|i: int| 0 <= i < s.len() && s[i] == y;
    if i < s.len() - 1 {
        assert(!game_lt(s[s.len() - 1], s[i]));
    } else {
        lemma_game_order(y, y, y);
    }
}

/// A stable sort is unique: two stable sorts of the same games are equal.
pub proof fn law_stable_sort_unique(a: Seq<GameView>, b: Seq<GameView>, inp: Seq<GameView>)
    requires
        stable_sort_of(a, inp),
        stable_sort_of(b, inp),
    ensures
        a == b,
{
    assert forall|k: GameView| #[trigger] key_filter(a, k) == key_filter(b, k) by {
        assert(key_filter(a, k) == key_filter(inp, k));
        assert(key_filter(b, k) == key_filter(inp, k));
    }
    lemma_same_filters_equal(a, b);
}

proof fn lemma_same_filters_equal(a: Seq<GameView>, b: Seq<GameView>)
    requires
        sorted_games(a),
        sorted_games(b),
        forall|k: GameView| #[trigger] key_filter(a, k) == key_filter(b, k),
    ensures
        a == b,
    decreases a.len() + b.len(),
{
    if a.len() == 0 && b.len() == 0 {
        assert(a =~= b);
    } else if a.len() == 0 || b.len() == 0 {
        let (s, t) = if a.len() == 0 { (b, a) } else { (a, b) };
        let x = s.last();
        assert(s =~= s.drop_last().push(x));
        lemma_filter_push_key(s.drop_last(), x, x);
        lemma_game_order(x, x, x);
        lemma_filter_none(t, x);
        assert(key_filter(s, x).len() > 0);
        assert(key_filter(t, x).len() == 0);
        assert(key_filter(a, x) == key_filter(b, x));
    } else {
        let x = a.last();
        let y = b.last();
        let a0 = a.drop_last();
        let b0 = b.drop_last();
        assert(a =~= a0.push(x));
        assert(b =~= b0.push(y));
        lemma_game_order(x, x, x);
        lemma_game_order(y, y, y);
        lemma_filter_push_key(a0, x, x);
        lemma_filter_push_key(b0, y, y);
        lemma_filter_push_key(a0, x, y);
        lemma_filter_push_key(b0, y, x);
        // x occurs in b and y occurs in a, so neither key is above the other.
        let fy = key_filter(a, y);
        let fx = key_filter(b, x);
        assert(key_filter(b, y).last() == y);
        assert(fy == key_filter(b, y));
        assert(fy.contains(fy[fy.len() - 1]));
        a.lemma_filter_contains_rev(|g: GameView| same_key(g, y), y);
        assert(key_filter(a, x).last() == x);
        assert(fx.contains(fx[fx.len() - 1]));
        b.lemma_filter_contains_rev(|g: GameView| same_key(g, x), x);
        lemma_last_is_max(a, y);
        lemma_last_is_max(b, x);
        lemma_game_order(x, y, x);
        assert(same_key(x, y));
        assert(key_filter(a, x).last() == x);
        assert(key_filter(b, x).last() == y);
        assert(x == y);
        assert(sorted_games(a0)) by {
            assert forall|i: int, j: int| 0 <= i < j < a0.len() implies !game_lt(a0[j], a0[i]) by {
                assert(a0[i] == a[i] && a0[j] == a[j]);
            }
        }
        assert(sorted_games(b0)) by {
            assert forall|i: int, j: int| 0 <= i < j < b0.len() implies !game_lt(b0[j], b0[i]) by {
                assert(b0[i] == b[i] && b0[j] == b[j]);
            }
        }
        assert forall|k: GameView| #[trigger] key_filter(a0, k) == key_filter(b0, k) by {
            lemma_filter_push_key(a0, x, k);
            lemma_filter_push_key(b0, x, k);
            assert(key_filter(a, k) == key_filter(b, k));
            if same_key(x, k) {
                assert(key_filter(a0, k) =~= key_filter(a, k).drop_last());
                assert(key_filter(b0, k) =~= key_filter(b, k).drop_last());
            }
        }
        lemma_same_filters_equal(a0, b0);
    }
}

/// A walk that visits some entries again (a root listed twice, a folder
/// reached twice) gives the same scan as the walk without the repeats.
pub proof fn law_scan_ignores_repeats(
    es: Seq<ScanEntryView>,
    extra: Seq<ScanEntryView>,
    once: Seq<GameView>,
    twice: Seq<GameView>,
)
    requires
        forall|k: int| 0 <= k < extra.len() ==> es.contains(#[trigger] extra[k]),
        stable_sort_of(once, discover(es)),
        stable_sort_of(twice, discover(es + extra)),
    ensures
        once == twice,
{
    law_repeated_entries(es, extra);
    law_stable_sort_unique(once, twice, discover(es));
}

/* Roots */

/// The entries of a walk of several roots: each root's walk, in the order
/// the roots are given.
pub open spec fn walk_entries(walks: Seq<Seq<ScanEntryView>>) -> Seq<ScanEntryView>
    decreases walks.len(),
{
    if walks.len() == 0 {
        Seq::empty()
    } else {
        walk_entries(walks.drop_last()) + walks.last()
    }
}

/// The views of the walks of several roots.
pub open spec fn walks_view(walks: Seq<Vec<ScanEntry>>) -> Seq<Seq<ScanEntryView>> {
    walks.map_values(|w: Vec<ScanEntry>| entries_view(w@))
}

/// A copy of one entry.
fn copy_entry(e: &ScanEntry) -> (r: ScanEntry)
    ensures
        r@ == e@,
{
    ScanEntry {
        path: e.path.clone(),
        kind: e.kind,
        eboot_is_file: e.eboot_is_file,
        cue_sibling_is_file: e.cue_sibling_is_file,
        name_is_utf8: e.name_is_utf8,
    }
}

/// Scan several roots, given the walk of each (an unreadable or missing root
/// has an empty walk): the stable (system, title) sort of the games
/// discovered over all the walks in order, one per path.
pub fn scan_roots(walks: &Vec<Vec<ScanEntry>>) -> (r: Vec<Game>)
    ensures
        stable_sort_of(games_view(r@), discover(walk_entries(walks_view(walks@)))),
        distinct_paths(games_view(r@)),
        from_entries(games_view(r@), walk_entries(walks_view(walks@))),
{
    let ghost ws = walks_view(walks@);
    let mut all: Vec<ScanEntry> = Vec::new();
    let mut i: usize = 0;
    assert(ws.take(0) =~= Seq::<Seq<ScanEntryView>>::empty());
    assert(entries_view(all@) =~= Seq::<ScanEntryView>::empty());
    while i < walks.len()
        invariant
            ws == walks_view(walks@),
            i <= walks.len(),
            entries_view(all@) == walk_entries(ws.take(i as int)),
        decreases walks.len() - i,
    {
        let w = &walks[i];
        let ghost before = entries_view(all@);
        let mut j: usize = 0;
        while j < w.len()
            invariant
                j <= w.len(),
                entries_view(all@) == before + entries_view(w@).take(j as int),
            decreases w.len() - j,
        {
            let e = copy_entry(&w[j]);
            let ghost ev = e@;
            assert(entries_view(w@)[j as int] == ev);
            let ghost prev = entries_view(all@);
            all.push(e);
            assert(entries_view(all@) =~= prev.push(ev));
            assert(entries_view(all@) =~= before + entries_view(w@).take(j + 1));
            j = j + 1;
        }
        assert(entries_view(w@).take(j as int) =~= entries_view(w@));
        assert(ws.take(i + 1).drop_last() =~= ws.take(i as int));
        assert(ws.take(i + 1).last() == entries_view(w@));
        i = i + 1;
    }
    assert(ws.take(i as int) =~= ws);
    scan(&all)
}

proof fn lemma_walk_entries_concat(a: Seq<Seq<ScanEntryView>>, b: Seq<Seq<ScanEntryView>>)
    ensures
        walk_entries(a + b) == walk_entries(a) + walk_entries(b),
    decreases b.len(),
{
    if b.len() == 0 {
        assert(a + b =~= a);
        assert(walk_entries(a) + walk_entries(b) =~= walk_entries(a));
    } else {
        lemma_walk_entries_concat(a, b.drop_last());
        assert((a + b).drop_last() =~= a + b.drop_last());
        assert(walk_entries(a) + walk_entries(b) =~= (walk_entries(a) + walk_entries(b.drop_last()))
            + b.last());
    }
}

/// Every entry of the walk of several roots is in the walk of one of them,
/// and every entry of each root's walk is in the whole walk.
proof fn lemma_walk_entries_members(walks: Seq<Seq<ScanEntryView>>)
    ensures
        forall|x: ScanEntryView|
            #[trigger] walk_entries(walks).contains(x) ==> exists|i: int|
                0 <= i < walks.len() && #[trigger] walks[i].contains(x),
        forall|i: int, x: ScanEntryView|
            0 <= i < walks.len() && #[trigger] walks[i].contains(x) ==> walk_entries(
                walks,
            ).contains(x),
    decreases walks.len(),
{
    if walks.len() > 0 {
        let init = walks.drop_last();
        lemma_walk_entries_members(init);
        let a = walk_entries(init);
        let b = walks.last();
        assert forall|x: ScanEntryView| #[trigger] walk_entries(walks).contains(x) implies exists|i: int|
            0 <= i < walks.len() && #[trigger] walks[i].contains(x) by {
            let k = choose|k: int| 0 <= k < (a + b).len() && (a + b)[k] == x;
            if k < a.len() {
                assert(a.contains(x));
                let i = choose|i: int| 0 <= i < init.len() && #[trigger] init[i].contains(x);
                assert(walks[i] == init[i]);
            } else {
                assert(b[k - a.len()] == x);
                assert(walks[walks.len() - 1].contains(x));
            }
        }
        assert forall|i: int, x: ScanEntryView|
            0 <= i < walks.len() && #[trigger] walks[i].contains(x) implies walk_entries(walks).contains(x) by {
            if i < walks.len() - 1 {
                assert(init[i] == walks[i]);
                assert(a.contains(x));
                let k = choose|k: int| 0 <= k < a.len() && a[k] == x;
                assert((a + b)[k] == x);
            } else {
                let k = choose|k: int| 0 <= k < b.len() && b[k] == x;
                assert((a + b)[a.len() + k] == x);
            }
        }
    }
}

/// Listing a root again, or listing a root that is missing (its walk is
/// empty), changes no scan: with the roots `walks` followed by roots `more`,
/// each of which is empty or walks as one of `walks` does, the scan is that
/// of `walks` alone. In particular the roots listed twice over scan as the
/// roots listed once.
pub proof fn law_repeated_and_missing_roots(
    walks: Seq<Seq<ScanEntryView>>,
    more: Seq<Seq<ScanEntryView>>,
    once: Seq<GameView>,
    twice: Seq<GameView>,
)
    requires
        forall|j: int| 0 <= j < more.len() ==> #[trigger] more[j].len() == 0 || walks.contains(more[j]),
        stable_sort_of(once, discover(walk_entries(walks))),
        stable_sort_of(twice, discover(walk_entries(walks + more))),
    ensures
        once == twice,
{
    lemma_walk_entries_concat(walks, more);
    lemma_walk_entries_members(walks);
    lemma_walk_entries_members(more);
    let es = walk_entries(walks);
    let extra = walk_entries(more);
    assert forall|k: int| 0 <= k < extra.len() implies es.contains(#[trigger] extra[k]) by {
        let x = extra[k];
        assert(extra.contains(x));
        let j = choose|j: int| 0 <= j < more.len() && #[trigger] more[j].contains(x);
        assert(more[j].len() > 0);
        assert(walks.contains(more[j]));
        let i = choose|i: int| 0 <= i < walks.len() && walks[i] == more[j];
        assert(walks[i].contains(x));
    }
    law_scan_ignores_repeats(es, extra, once, twice);
}

/// A title that is already clean (no tags or separators, single spaces
/// between words and none at the ends) is kept exactly as it is: cleaning
/// drops or changes no other character.
pub proof fn law_clean_title_keeps_clean(stem: Seq<char>)
    requires
        tag_free(stem),
        ws_normalized(stem),
    ensures
        spec_clean_title(stem) == stem,
{
    lemma_strip_identity(stem);
    law_collapse_is_words_joined(stem);
    crate::text::lemma_collapse_normalized(stem);
}

/// The first hint whose keyword occurs in `hay` decides: the result is the
/// system of a hint whose keyword occurs, no earlier keyword occurs, and
/// there is no result exactly when no keyword occurs.
proof fn lemma_first_hint(hay: Seq<char>, hs: Seq<(Seq<char>, Seq<char>)>)
    ensures
        first_hint(hay, hs) matches Some(sys) ==> exists|i: int|
            0 <= i < hs.len() && #[trigger] hs[i].1 == sys && contains_seq(hay, hs[i].0) && forall|
                j: int,
            | 0 <= j < i ==> !contains_seq(hay, #[trigger] hs[j].0),
        first_hint(hay, hs) is None <==> forall|i: int|
            0 <= i < hs.len() ==> !contains_seq(hay, #[trigger] hs[i].0),
    decreases hs.len(),
{
    if hs.len() > 0 {
        let rest = hs.drop_first();
        lemma_first_hint(hay, rest);
        if !contains_seq(hay, hs[0].0) {
            if let Some(sys) = first_hint(hay, rest) {
                let i = choose|i: int|
                    0 <= i < rest.len() && #[trigger] rest[i].1 == sys && contains_seq(hay, rest[i].0)
                        && forall|j: int| 0 <= j < i ==> !contains_seq(hay, #[trigger] rest[j].0);
                assert(hs[i + 1] == rest[i]);
                assert forall|j: int| 0 <= j < i + 1 implies !contains_seq(hay, #[trigger] hs[j].0) by {
                    if j > 0 {
                        assert(hs[j] == rest[j - 1]);
                    }
                }
            } else {
                assert forall|i: int| 0 <= i < hs.len() implies !contains_seq(hay, #[trigger] hs[i].0) by {
                    if i > 0 {
                        assert(hs[i] == rest[i - 1]);
                    }
                }
            }
            if forall|i: int| 0 <= i < hs.len() ==> !contains_seq(hay, #[trigger] hs[i].0) {
                assert forall|i: int| 0 <= i < rest.len() implies !contains_seq(hay, #[trigger] rest[i].0) by {
                    assert(rest[i] == hs[i + 1]);
                }
            }
        } else {
            assert(hs[0].1 == hs[0].1);
        }
    }
}

/// A path names a system when one of the hint keywords occurs in its
/// lowercased text; of several, the first in [`hints`] (the most specific)
/// decides; no keyword, no hint.
pub proof fn law_path_hint(path: Seq<char>)
    ensures
        spec_path_hint(path) matches Some(sys) ==> exists|i: int|
            0 <= i < hints().len() && #[trigger] hints()[i].1 == sys && contains_seq(
                lower(path),
                hints()[i].0,
            ) && forall|j: int| 0 <= j < i ==> !contains_seq(lower(path), #[trigger] hints()[j].0),
        spec_path_hint(path) is None <==> forall|i: int|
            0 <= i < hints().len() ==> !contains_seq(lower(path), #[trigger] hints()[i].0),
{
    lemma_first_hint(lower(path), hints());
}

/// A file is classified exactly when some emulator accepts its extension.
/// Only a shared disc-image extension looks at the path: there a system named
/// in the path wins when its emulator accepts the extension. Every other
/// file, and every file whose path names no system, goes to the first system
/// in the registry that accepts its extension.
pub proof fn law_classify(path: Seq<char>, ext: Seq<char>)
    ensures
        spec_classify(path, ext) is Some <==> spec_system_for_extension(ext) is Some,
        !ambiguous().contains(ext) ==> spec_classify(path, ext) == spec_system_for_extension(ext),
        spec_path_hint(path) is None ==> spec_classify(path, ext) == spec_system_for_extension(ext),
        ambiguous().contains(ext) && spec_path_hint(path) is Some && spec_find(spec_path_hint(path)->0)
            is Some && spec_find(spec_path_hint(path)->0)->0.extensions.contains(ext) ==> spec_classify(
            path,
            ext,
        ) == spec_path_hint(path),
{
    law_extension_owner(ext);
    if let Some(sys) = spec_path_hint(path) {
        if let Some(d) = spec_find(sys) {
            if d.extensions.contains(ext) {
                lemma_find_in_some(registry(), sys);
                let i = choose|i: int| 0 <= i < registry().len() && registry()[i] == d && d.system == sys;
                assert(registry()[i].extensions.contains(ext));
            }
        }
    }
}

/// How a visited file becomes a game: never when it is not a regular file or
/// directory, never inside a PS3_GAME folder, never as a `.bin` track beside
/// its `.cue`; otherwise exactly when its lowercased extension classifies, as
/// a game of that system at the file's own path, titled by cleaning its
/// stem (or untitled when its name is not text).
pub proof fn law_file_entries(e: ScanEntryView)
    ensures
        e.kind == EntryKind::Other ==> entry_game(e) is None,
        e.kind == EntryKind::File && has_component_ci(e.path, "PS3_GAME"@) ==> entry_game(e) is None,
        e.kind == EntryKind::File && extension(e.path) is None ==> entry_game(e) is None,
        e.kind == EntryKind::File && extension(e.path) is Some && lower(extension(e.path)->0)
            == "bin"@ && e.cue_sibling_is_file ==> entry_game(e) is None,
        e.kind == EntryKind::File && !has_component_ci(e.path, "PS3_GAME"@) && extension(e.path) is Some
            && !(lower(extension(e.path)->0) == "bin"@ && e.cue_sibling_is_file) ==> (entry_game(e)
            is Some <==> spec_classify(e.path, lower(extension(e.path)->0)) is Some),
        e.kind == EntryKind::File && entry_game(e) is Some ==> ({
            let g = entry_game(e)->0;
            &&& Some(g.system) == spec_classify(e.path, lower(extension(e.path)->0))
            &&& g.path == e.path
            &&& g.id == e.path
            &&& g.title == spec_clean_title(if e.name_is_utf8 { file_stem(e.path)->0 } else { Seq::empty() })
        }),
        e.kind == EntryKind::Dir ==> (entry_game(e) is Some <==> e.eboot_is_file),
        e.kind == EntryKind::Dir && e.eboot_is_file ==> entry_game(e)->0.system == "ps3"@
            && entry_game(e)->0.path == spec_eboot_path(e.path),
{
    if e.kind == EntryKind::File && entry_game(e) is Some {
        crate::paths::law_path_extension(e.path);
    }
}

/// Games sort by system first and by title among games of the same system,
/// each in dictionary order of code points.
pub proof fn law_sort_key(a: GameView, b: GameView)
    ensures
        a.system != b.system ==> (game_lt(a, b) <==> lex_lt(a.system, b.system)),
        a.system == b.system ==> (game_lt(a, b) <==> lex_lt(a.title, b.title)),
{
    lemma_lex_total(a.system, b.system);
}

} // verus!
