use vstd::prelude::*;

use crate::text::{
    same_chars,
    chars_of, contains, expand_home, has_infix, has_prefix, home_expanded, lines, lines_of,
    lower_of, opt_view, starts_with, string_of, strip_prefixes, to_lower, views,
    without_prefixes,
};

verus! {

// ---------------------------------------------------------------------------
// Where icons are looked for
// ---------------------------------------------------------------------------

/// Packaging name of the Discord client.
pub const DISCORD_ID: &'static str = "com.discordapp.Discord";

/// Number of icon-theme candidates: 7 theme roots, 8 sizes, 4 categories,
/// 6 name variants and 2 extensions.
pub const THEME_PROBES: usize = 2688;

/// Number of candidates in all: the theme candidates, three pixmaps and the
/// name itself as a path.
pub const ICON_PROBES: usize = 2692;

/// The name under which a window class is looked up.
pub open spec fn alias(class: Seq<char>) -> Seq<char> {
    if class == "Cursor"@ {
        "com.cursor.Cursor"@
    } else if class == "discord"@ || class == "Discord"@ {
        DISCORD_ID@
    } else {
        class
    }
}

/// The fixed install locations probed first for a lookup name.
pub open spec fn packaged_paths(lookup: Seq<char>, home: Option<Seq<char>>) -> Seq<Seq<char>> {
    if lookup == DISCORD_ID@ {
        seq![
            home_expanded("/var/lib/flatpak/app/com.discordapp.Discord/current/active/files/discord/discord.png"@, home),
            home_expanded("/var/lib/flatpak/app/com.discordapp.Discord/current/active/export/share/icons/hicolor/256x256/apps/com.discordapp.Discord.png"@, home),
            home_expanded("~/.local/share/flatpak/app/com.discordapp.Discord/current/active/files/discord/discord.png"@, home),
        ]
    } else {
        Seq::empty()
    }
}

pub open spec fn theme_root(i: int) -> Seq<char> {
    if i == 0 {
        "/var/lib/flatpak/exports/share/icons/hicolor"@
    } else if i == 1 {
        "~/.local/share/flatpak/exports/share/icons/hicolor"@
    } else if i == 2 {
        "/usr/share/icons/hicolor"@
    } else if i == 3 {
        "/usr/share/icons/Papirus"@
    } else if i == 4 {
        "/usr/share/icons/breeze"@
    } else if i == 5 {
        "/usr/share/icons/default"@
    } else {
        "~/.local/share/icons"@
    }
}

pub open spec fn size_dir(i: int) -> Seq<char> {
    if i == 0 {
        "256x256"@
    } else if i == 1 {
        "128x128"@
    } else if i == 2 {
        "64x64"@
    } else if i == 3 {
        "48x48"@
    } else if i == 4 {
        "32x32"@
    } else if i == 5 {
        "24x24"@
    } else if i == 6 {
        "16x16"@
    } else {
        "scalable"@
    }
}

pub open spec fn category_dir(i: int) -> Seq<char> {
    if i == 0 {
        "apps"@
    } else if i == 1 {
        "devices"@
    } else if i == 2 {
        "places"@
    } else {
        "status"@
    }
}

/// `s` with every `.` turned into `-`.
pub open spec fn dots_to_dashes(s: Seq<char>) -> Seq<char> {
    Seq::new(s.len(), |i: int| if s[i] == '.' { '-' } else { s[i] })
}

/// The spellings of an icon name that are tried, in order.
pub open spec fn name_variant(name: Seq<char>, i: int) -> Seq<char> {
    if i == 0 {
        name
    } else if i == 1 {
        lower_of(name)
    } else if i == 2 {
        dots_to_dashes(name)
    } else if i == 3 {
        lower_of(dots_to_dashes(name))
    } else if i == 4 {
        "com.discordapp."@ + name
    } else {
        name + ".png"@
    }
}

pub open spec fn extension(i: int) -> Seq<char> {
    if i == 0 {
        ".png"@
    } else {
        ".svg"@
    }
}

/// The `i`-th path probed for an icon name: theme roots outermost, then sizes,
/// categories, name variants, and PNG before SVG; then the pixmaps directory;
/// last the name itself as a path.
pub open spec fn icon_candidate(name: Seq<char>, home: Option<Seq<char>>, i: int) -> Seq<char> {
    if i < THEME_PROBES {
        home_expanded(theme_root(i / 384), home) + "/"@ + size_dir((i % 384) / 48) + "/"@
            + category_dir((i % 48) / 12) + "/"@ + name_variant(name, (i % 12) / 2) + extension(
            i % 2,
        )
    } else if i == THEME_PROBES {
        "/usr/share/pixmaps/"@ + name + ".png"@
    } else if i == THEME_PROBES + 1 {
        "/usr/share/pixmaps/"@ + name + ".svg"@
    } else if i == THEME_PROBES + 2 {
        "/usr/share/pixmaps/"@ + name + ".xpm"@
    } else {
        home_expanded(name, home)
    }
}

pub open spec fn icon_candidates(name: Seq<char>, home: Option<Seq<char>>) -> Seq<Seq<char>> {
    Seq::new(ICON_PROBES as nat, |i: int| icon_candidate(name, home, i))
}

// ---------------------------------------------------------------------------
// Desktop entries
// ---------------------------------------------------------------------------

/// A `Name=` or `Exec=` line that mentions the lookup name or the class, in
/// any case.
pub open spec fn line_matches(l: Seq<char>, lookup: Seq<char>, class: Seq<char>) -> bool {
    &&& starts_with(l, "Name="@) || starts_with(l, "Exec="@)
    &&& contains(lower_of(l), lower_of(lookup)) || contains(lower_of(l), lower_of(class))
}

/// A desktop entry describes the app when one of its lines matches.
pub open spec fn entry_matches(content: Seq<char>, lookup: Seq<char>, class: Seq<char>) -> bool {
    exists|i: int| 0 <= i < lines(content).len() && line_matches(lines(content)[i], lookup, class)
}

/// The icon named by the first `Icon=` line of the lines `ls`.
pub open spec fn icon_line(ls: Seq<Seq<char>>) -> Option<Seq<char>>
    decreases ls.len(),
{
    if ls.len() == 0 {
        None
    } else if starts_with(ls[0], "Icon="@) {
        Some(strip_prefixes(ls[0], "Icon="@))
    } else {
        icon_line(ls.skip(1))
    }
}

/// The icon a desktop entry names.
pub open spec fn entry_icon(content: Seq<char>) -> Option<Seq<char>> {
    icon_line(lines(content))
}

/// The desktop entry files of a listing, one path a line, `~` expanded.
pub open spec fn listed_files(listing: Option<Seq<char>>, home: Option<Seq<char>>) -> Seq<Seq<char>> {
    match listing {
        Some(t) => lines(t).map_values(|l: Seq<char>| home_expanded(l, home)),
        None => Seq::empty(),
    }
}

// ---------------------------------------------------------------------------
// The search as a state machine
// ---------------------------------------------------------------------------

/// Where a search stands.
pub enum SearchPhase {
    /// Probing the `i`-th fixed install location.
    Packaged(nat),
    /// Waiting for the list of desktop entry files.
    Listing,
    /// Reading the `i`-th of these files.
    Entries(Seq<Seq<char>>, nat),
    /// Probing the `i`-th candidate path for an icon name.
    Themes(Seq<char>, nat),
    /// Finished, with the path found if any.
    Done(Option<Seq<char>>),
}

/// What a search holds: the class, its lookup name, the home directory and
/// where it stands.
pub struct SearchState {
    pub class: Seq<char>,
    pub lookup: Seq<char>,
    pub home: Option<Seq<char>>,
    pub phase: SearchPhase,
}

/// What a search asks for next.
pub enum StepView {
    Probe(Seq<char>),
    ListEntries,
    ReadEntry(Seq<char>),
    Found(Seq<char>),
    NotFound,
}

pub open spec fn with_phase(v: SearchState, p: SearchPhase) -> SearchState {
    SearchState { phase: p, ..v }
}

/// Moves past a phase that has nothing left to try.
pub open spec fn settle(v: SearchState) -> SearchState {
    match v.phase {
        SearchPhase::Packaged(i) => if i >= packaged_paths(v.lookup, v.home).len() {
            with_phase(v, SearchPhase::Listing)
        } else {
            v
        },
        SearchPhase::Entries(files, i) => if i >= files.len() {
            with_phase(v, SearchPhase::Themes(v.lookup, 0))
        } else {
            v
        },
        SearchPhase::Themes(name, i) => if i >= ICON_PROBES {
            with_phase(v, SearchPhase::Done(None))
        } else {
            v
        },
        _ => v,
    }
}

/// The search for the icon of `class` at its start.
pub open spec fn initial(class: Seq<char>, home: Option<Seq<char>>) -> SearchState {
    settle(SearchState { class, lookup: alias(class), home, phase: SearchPhase::Packaged(0) })
}

/// What a search asks for in state `v`.
pub open spec fn action(v: SearchState) -> StepView {
    match v.phase {
        SearchPhase::Packaged(i) => StepView::Probe(packaged_paths(v.lookup, v.home)[i as int]),
        SearchPhase::Listing => StepView::ListEntries,
        SearchPhase::Entries(files, i) => StepView::ReadEntry(files[i as int]),
        SearchPhase::Themes(name, i) => StepView::Probe(icon_candidate(name, v.home, i as int)),
        SearchPhase::Done(r) => match r {
            Some(p) => StepView::Found(p),
            None => StepView::NotFound,
        },
    }
}

/// The state after learning whether the probed path exists.
pub open spec fn after_probe(v: SearchState, found: bool) -> SearchState {
    match v.phase {
        SearchPhase::Packaged(i) => if found {
            with_phase(v, SearchPhase::Done(Some(packaged_paths(v.lookup, v.home)[i as int])))
        } else {
            settle(with_phase(v, SearchPhase::Packaged(i + 1)))
        },
        SearchPhase::Themes(name, i) => if found {
            with_phase(v, SearchPhase::Done(Some(icon_candidate(name, v.home, i as int))))
        } else {
            settle(with_phase(v, SearchPhase::Themes(name, i + 1)))
        },
        _ => v,
    }
}

/// The state after the desktop entry files were listed (`None`: the listing failed).
pub open spec fn after_listing(v: SearchState, listing: Option<Seq<char>>) -> SearchState {
    match v.phase {
        SearchPhase::Listing => settle(
            with_phase(v, SearchPhase::Entries(listed_files(listing, v.home), 0)),
        ),
        _ => v,
    }
}

/// The state after reading the current desktop entry (`None`: it could not be read).
pub open spec fn after_read(v: SearchState, content: Option<Seq<char>>) -> SearchState {
    match v.phase {
        SearchPhase::Entries(files, i) => match content {
            Some(c) if entry_matches(c, v.lookup, v.class) => with_phase(
                v,
                SearchPhase::Themes(
                    match entry_icon(c) {
                        Some(n) => n,
                        None => v.lookup,
                    },
                    0,
                ),
            ),
            _ => settle(with_phase(v, SearchPhase::Entries(files, i + 1))),
        },
        _ => v,
    }
}

// ---------------------------------------------------------------------------
// What a search finds on a given file system
// ---------------------------------------------------------------------------

/// The answers a file system gives: which paths exist, the listing of desktop
/// entry files, and what each file holds.
pub struct Snapshot {
    pub present: spec_fn(Seq<char>) -> bool,
    pub listing: Option<Seq<char>>,
    pub read: spec_fn(Seq<char>) -> Option<Seq<char>>,
}

/// The first path of `s` that exists.
pub open spec fn first_existing(s: Seq<Seq<char>>, present: spec_fn(Seq<char>) -> bool) -> Option<
    Seq<char>,
>
    decreases s.len(),
{
    if s.len() == 0 {
        None
    } else if present(s[0]) {
        Some(s[0])
    } else {
        first_existing(s.skip(1), present)
    }
}

/// The icon name of the first of `files` that describes the app: `Some(None)`
/// when that entry names no icon, `None` when no entry matches.
pub open spec fn desktop_icon(
    files: Seq<Seq<char>>,
    lookup: Seq<char>,
    class: Seq<char>,
    fs: Snapshot,
) -> Option<Option<Seq<char>>>
    decreases files.len(),
{
    if files.len() == 0 {
        None
    } else {
        match (fs.read)(files[0]) {
            Some(c) if entry_matches(c, lookup, class) => Some(entry_icon(c)),
            _ => desktop_icon(files.skip(1), lookup, class, fs),
        }
    }
}

/// The path found once the desktop entries `files` are searched.
pub open spec fn from_entries(
    files: Seq<Seq<char>>,
    lookup: Seq<char>,
    class: Seq<char>,
    home: Option<Seq<char>>,
    fs: Snapshot,
) -> Option<Seq<char>> {
    let name = match desktop_icon(files, lookup, class, fs) {
        Some(Some(n)) => n,
        _ => lookup,
    };
    first_existing(icon_candidates(name, home), fs.present)
}

/// The path a search in state `v` ends with on the file system `fs`.
pub open spec fn outcome(v: SearchState, fs: Snapshot) -> Option<Seq<char>> {
    match v.phase {
        SearchPhase::Packaged(i) => match first_existing(
            packaged_paths(v.lookup, v.home).skip(i as int),
            fs.present,
        ) {
            Some(p) => Some(p),
            None => from_entries(listed_files(fs.listing, v.home), v.lookup, v.class, v.home, fs),
        },
        SearchPhase::Listing => from_entries(listed_files(fs.listing, v.home), v.lookup, v.class, v.home, fs),
        SearchPhase::Entries(files, i) => from_entries(files.skip(i as int), v.lookup, v.class, v.home, fs),
        SearchPhase::Themes(name, i) => first_existing(
            icon_candidates(name, v.home).skip(i as int),
            fs.present,
        ),
        SearchPhase::Done(r) => r,
    }
}

/// The icon path found for `class` on the file system `fs`: the first fixed
/// install location that exists; else, with the icon name of the first desktop
/// entry that describes the app (or the lookup name), the first candidate path
/// that exists.
pub open spec fn resolution(class: Seq<char>, home: Option<Seq<char>>, fs: Snapshot) -> Option<
    Seq<char>,
> {
    match first_existing(packaged_paths(alias(class), home), fs.present) {
        Some(p) => Some(p),
        None => from_entries(listed_files(fs.listing, home), alias(class), class, home, fs),
    }
}

/// The state that follows `v` when `fs` answers what it asks.
pub open spec fn answer(v: SearchState, fs: Snapshot) -> SearchState {
    match action(v) {
        StepView::Probe(p) => after_probe(v, (fs.present)(p)),
        StepView::ListEntries => after_listing(v, fs.listing),
        StepView::ReadEntry(f) => after_read(v, (fs.read)(f)),
        _ => v,
    }
}

/// A state reached by a search: each phase has something left to try.
pub open spec fn settled(v: SearchState) -> bool {
    match v.phase {
        SearchPhase::Packaged(i) => i < packaged_paths(v.lookup, v.home).len(),
        SearchPhase::Entries(files, i) => i < files.len(),
        SearchPhase::Themes(_, i) => i < ICON_PROBES,
        _ => true,
    }
}

/// Each index of a state is at most the number of things its phase tries.
pub open spec fn in_range(v: SearchState) -> bool {
    match v.phase {
        SearchPhase::Packaged(i) => i <= packaged_paths(v.lookup, v.home).len(),
        SearchPhase::Entries(files, i) => i <= files.len(),
        SearchPhase::Themes(_, i) => i <= ICON_PROBES,
        _ => true,
    }
}

proof fn lemma_settle_settled(v: SearchState)
    requires
        in_range(v),
    ensures
        settled(settle(v)),
{
}

proof fn lemma_settle(v: SearchState, fs: Snapshot)
    requires
        in_range(v),
    ensures
        settled(settle(v)),
        outcome(settle(v), fs) == outcome(v, fs),
        settle(v).class == v.class && settle(v).lookup == v.lookup && settle(v).home == v.home,
{
    match v.phase {
        SearchPhase::Packaged(i) => {
            if i >= packaged_paths(v.lookup, v.home).len() {
                assert(packaged_paths(v.lookup, v.home).skip(i as int) =~= Seq::<Seq<char>>::empty());
            }
        },
        SearchPhase::Entries(files, i) => {
            if i >= files.len() {
                assert(files.skip(i as int) =~= Seq::<Seq<char>>::empty());
                assert(icon_candidates(v.lookup, v.home).skip(0) == icon_candidates(
                    v.lookup,
                    v.home,
                ));
            }
        },
        SearchPhase::Themes(name, i) => {
            if i >= ICON_PROBES {
                assert(icon_candidates(name, v.home).skip(i as int) =~= Seq::<Seq<char>>::empty());
            }
        },
        _ => {},
    }
}

proof fn lemma_first_existing_step(s: Seq<Seq<char>>, i: int, present: spec_fn(Seq<char>) -> bool)
    requires
        0 <= i < s.len(),
    ensures
        first_existing(s.skip(i), present) == if present(s[i]) {
            Some(s[i])
        } else {
            first_existing(s.skip(i + 1), present)
        },
{
    assert(s.skip(i)[0] == s[i]);
    assert(s.skip(i).skip(1) == s.skip(i + 1));
}

proof fn lemma_answer_packaged(v: SearchState, fs: Snapshot, i: nat)
    requires
        v.phase == SearchPhase::Packaged(i),
        i < packaged_paths(v.lookup, v.home).len(),
    ensures
        settled(answer(v, fs)),
        outcome(answer(v, fs), fs) == outcome(v, fs),
{
    let pk = packaged_paths(v.lookup, v.home);
    lemma_first_existing_step(pk, i as int, fs.present);
    lemma_settle(with_phase(v, SearchPhase::Packaged(i + 1)), fs);
}

proof fn lemma_answer_listing(v: SearchState, fs: Snapshot)
    requires
        v.phase == SearchPhase::Listing,
    ensures
        settled(answer(v, fs)),
        outcome(answer(v, fs), fs) == outcome(v, fs),
{
    let files = listed_files(fs.listing, v.home);
    assert(files.skip(0) == files);
    lemma_settle(with_phase(v, SearchPhase::Entries(files, 0)), fs);
}

proof fn lemma_answer_entries(v: SearchState, fs: Snapshot, files: Seq<Seq<char>>, i: nat)
    requires
        v.phase == SearchPhase::Entries(files, i),
        i < files.len(),
    ensures
        settled(answer(v, fs)),
        outcome(answer(v, fs), fs) == outcome(v, fs),
{
    let t = files.skip(i as int);
    assert(t[0] == files[i as int]);
    assert(t.skip(1) == files.skip(i as int + 1));
    lemma_settle(with_phase(v, SearchPhase::Entries(files, i + 1)), fs);
    match (fs.read)(files[i as int]) {
        Some(c) => {
            if entry_matches(c, v.lookup, v.class) {
                let name = match entry_icon(c) {
                    Some(n) => n,
                    None => v.lookup,
                };
                assert(icon_candidates(name, v.home).skip(0) == icon_candidates(name, v.home));
            }
        },
        None => {},
    }
}

proof fn lemma_answer_themes(v: SearchState, fs: Snapshot, name: Seq<char>, i: nat)
    requires
        v.phase == SearchPhase::Themes(name, i),
        i < ICON_PROBES,
    ensures
        settled(answer(v, fs)),
        outcome(answer(v, fs), fs) == outcome(v, fs),
{
    let cs = icon_candidates(name, v.home);
    assert(cs[i as int] == icon_candidate(name, v.home, i as int));
    lemma_first_existing_step(cs, i as int, fs.present);
    lemma_settle(with_phase(v, SearchPhase::Themes(name, i + 1)), fs);
}

/// Answering what a search asks keeps what it will find.
pub proof fn lemma_answer_keeps_outcome(v: SearchState, fs: Snapshot)
    requires
        settled(v),
    ensures
        settled(answer(v, fs)),
        outcome(answer(v, fs), fs) == outcome(v, fs),
{
    match v.phase {
        SearchPhase::Packaged(i) => lemma_answer_packaged(v, fs, i),
        SearchPhase::Listing => lemma_answer_listing(v, fs),
        SearchPhase::Entries(files, i) => lemma_answer_entries(v, fs, files, i),
        SearchPhase::Themes(name, i) => lemma_answer_themes(v, fs, name, i),
        SearchPhase::Done(r) => {},
    }
}

/// A search starts out bound to find exactly the resolution of its class.
pub proof fn lemma_initial_outcome(class: Seq<char>, home: Option<Seq<char>>, fs: Snapshot)
    ensures
        settled(initial(class, home)),
        outcome(initial(class, home), fs) == resolution(class, home, fs),
{
    let v = SearchState { class, lookup: alias(class), home, phase: SearchPhase::Packaged(0) };
    lemma_settle(v, fs);
    assert(packaged_paths(alias(class), home).skip(0) == packaged_paths(alias(class), home));
}

/// A search answered step by step from one file system ends with the
/// resolution of its class on that file system: the path found depends on
/// nothing but the class, the home directory and the files, so resolving a
/// class twice against the same files gives the same path.
pub proof fn lemma_search_resolves(
    class: Seq<char>,
    home: Option<Seq<char>>,
    fs: Snapshot,
    run: Seq<SearchState>,
)
    requires
        run.len() > 0,
        run[0] == initial(class, home),
        forall|k: int| 0 <= k < run.len() - 1 ==> run[k + 1] == answer(#[trigger] run[k], fs),
        run.last().phase is Done,
    ensures
        run.last().phase == SearchPhase::Done(resolution(class, home, fs)),
{
    lemma_initial_outcome(class, home, fs);
    lemma_run_from(fs, run, 0, resolution(class, home, fs));
}

proof fn lemma_run_from(fs: Snapshot, run: Seq<SearchState>, k: int, r: Option<Seq<char>>)
    requires
        0 <= k < run.len(),
        forall|j: int| 0 <= j < run.len() - 1 ==> run[j + 1] == answer(#[trigger] run[j], fs),
        settled(run[k]),
        outcome(run[k], fs) == r,
        run.last().phase is Done,
    ensures
        run.last().phase == SearchPhase::Done(r),
    decreases run.len() - k,
{
    if k < run.len() - 1 {
        lemma_answer_keeps_outcome(run[k], fs);
        assert(run[k + 1] == answer(run[k], fs));
        lemma_run_from(fs, run, k + 1, r);
    }
}

/// Two searches for one class, answered from the same file system, find the
/// same path.
pub proof fn lemma_resolve_twice(
    class: Seq<char>,
    home: Option<Seq<char>>,
    fs: Snapshot,
    first: Seq<SearchState>,
    second: Seq<SearchState>,
)
    requires
        first.len() > 0 && second.len() > 0,
        first[0] == initial(class, home),
        second[0] == initial(class, home),
        forall|k: int| 0 <= k < first.len() - 1 ==> first[k + 1] == answer(#[trigger] first[k], fs),
        forall|k: int|
            0 <= k < second.len() - 1 ==> second[k + 1] == answer(#[trigger] second[k], fs),
        first.last().phase is Done,
        second.last().phase is Done,
    ensures
        first.last().phase == second.last().phase,
{
    lemma_search_resolves(class, home, fs, first);
    lemma_search_resolves(class, home, fs, second);
}

/// Whether looking up `class` on the file system `fs` gives a raster icon,
/// where `bytes` gives what each file holds: a file is found and its bytes
/// decode.
pub open spec fn yields_icon(
    class: Seq<char>,
    home: Option<Seq<char>>,
    fs: Snapshot,
    bytes: spec_fn(Seq<char>) -> Seq<u8>,
) -> bool {
    match resolution(class, home, fs) {
        Some(p) => crate::raster::decodes(bytes(p)),
        None => false,
    }
}

/// Two lookups of one class on the same files end alike: both searches find
/// the same path, so loading that file as an icon succeeds for both or for
/// neither.
pub proof fn lemma_lookup_twice(
    class: Seq<char>,
    home: Option<Seq<char>>,
    fs: Snapshot,
    bytes: spec_fn(Seq<char>) -> Seq<u8>,
    first: Seq<SearchState>,
    second: Seq<SearchState>,
)
    requires
        first.len() > 0 && second.len() > 0,
        first[0] == initial(class, home),
        second[0] == initial(class, home),
        forall|k: int| 0 <= k < first.len() - 1 ==> first[k + 1] == answer(#[trigger] first[k], fs),
        forall|k: int|
            0 <= k < second.len() - 1 ==> second[k + 1] == answer(#[trigger] second[k], fs),
        first.last().phase is Done,
        second.last().phase is Done,
    ensures
        first.last().phase == SearchPhase::Done(resolution(class, home, fs)),
        second.last().phase == SearchPhase::Done(resolution(class, home, fs)),
        (match first.last().phase {
            SearchPhase::Done(Some(p)) => crate::raster::decodes(bytes(p)),
            _ => false,
        }) == yields_icon(class, home, fs, bytes),
        (match second.last().phase {
            SearchPhase::Done(Some(p)) => crate::raster::decodes(bytes(p)),
            _ => false,
        }) == yields_icon(class, home, fs, bytes),
{
    lemma_search_resolves(class, home, fs, first);
    lemma_search_resolves(class, home, fs, second);
}

// ---------------------------------------------------------------------------
// Building the paths
// ---------------------------------------------------------------------------

fn home_ref(home: &Option<String>) -> (r: Option<&str>)
    ensures
        opt_view(r) == string_opt(*home),
{
    match home {
        Some(h) => Some(h.as_str()),
        None => None,
    }
}

pub open spec fn string_opt(o: Option<String>) -> Option<Seq<char>> {
    match o {
        Some(s) => Some(s@),
        None => None,
    }
}

fn is_text(s: &str, t: &str) -> (r: bool)
    ensures
        r == (s@ == t@),
{
    let a = chars_of(s);
    let b = chars_of(t);
    same_chars(a.as_slice(), b.as_slice())
}

/// The name under which a window class is looked up.
pub fn alias_of(class: &str) -> (r: String)
    ensures
        r@ == alias(class@),
{
    if is_text(class, "Cursor") {
        String::from_str("com.cursor.Cursor")
    } else if is_text(class, "discord") || is_text(class, "Discord") {
        String::from_str(DISCORD_ID)
    } else {
        String::from_str(class)
    }
}

fn packaged_count(lookup: &str, home: Option<&str>) -> (r: usize)
    ensures
        r == packaged_paths(lookup@, opt_view(home)).len(),
{
    if is_text(lookup, DISCORD_ID) {
        3
    } else {
        0
    }
}

fn packaged_path(lookup: &str, home: Option<&str>, i: usize) -> (r: String)
    requires
        i < packaged_paths(lookup@, opt_view(home)).len(),
    ensures
        r@ == packaged_paths(lookup@, opt_view(home))[i as int],
{
    if i == 0 {
        expand_home(
            "/var/lib/flatpak/app/com.discordapp.Discord/current/active/files/discord/discord.png",
            home,
        )
    } else if i == 1 {
        expand_home(
            "/var/lib/flatpak/app/com.discordapp.Discord/current/active/export/share/icons/hicolor/256x256/apps/com.discordapp.Discord.png",
            home,
        )
    } else {
        expand_home(
            "~/.local/share/flatpak/app/com.discordapp.Discord/current/active/files/discord/discord.png",
            home,
        )
    }
}

fn theme_root_text(i: usize) -> (r: &'static str)
    ensures
        r@ == theme_root(i as int),
{
    if i == 0 {
        "/var/lib/flatpak/exports/share/icons/hicolor"
    } else if i == 1 {
        "~/.local/share/flatpak/exports/share/icons/hicolor"
    } else if i == 2 {
        "/usr/share/icons/hicolor"
    } else if i == 3 {
        "/usr/share/icons/Papirus"
    } else if i == 4 {
        "/usr/share/icons/breeze"
    } else if i == 5 {
        "/usr/share/icons/default"
    } else {
        "~/.local/share/icons"
    }
}

fn size_text(i: usize) -> (r: &'static str)
    ensures
        r@ == size_dir(i as int),
{
    if i == 0 {
        "256x256"
    } else if i == 1 {
        "128x128"
    } else if i == 2 {
        "64x64"
    } else if i == 3 {
        "48x48"
    } else if i == 4 {
        "32x32"
    } else if i == 5 {
        "24x24"
    } else if i == 6 {
        "16x16"
    } else {
        "scalable"
    }
}

fn category_text(i: usize) -> (r: &'static str)
    ensures
        r@ == category_dir(i as int),
{
    if i == 0 {
        "apps"
    } else if i == 1 {
        "devices"
    } else if i == 2 {
        "places"
    } else {
        "status"
    }
}

fn extension_text(i: usize) -> (r: &'static str)
    ensures
        r@ == extension(i as int),
{
    if i == 0 {
        ".png"
    } else {
        ".svg"
    }
}

/// `name` with every `.` turned into `-`.
pub fn replace_dots(name: &str) -> (r: String)
    ensures
        r@ == dots_to_dashes(name@),
{
    let c = chars_of(name);
    let mut out: Vec<char> = Vec::new();
    let mut i: usize = 0;
    while i < c.len()
        invariant
            c@ == name@,
            i <= c@.len(),
            out@.len() == i,
            forall|j: int| 0 <= j < i ==> out@[j] == (if c@[j] == '.' { '-' } else { c@[j] }),
        decreases c@.len() - i,
    {
        if c[i] == '.' {
            out.push('-');
        } else {
            out.push(c[i]);
        }
        i = i + 1;
    }
    assert(out@ == dots_to_dashes(name@));
    string_of(out.as_slice())
}

fn name_variant_at(name: &str, k: usize) -> (r: String)
    ensures
        r@ == name_variant(name@, k as int),
{
    if k == 0 {
        String::from_str(name)
    } else if k == 1 {
        to_lower(name)
    } else if k == 2 {
        replace_dots(name)
    } else if k == 3 {
        let d = replace_dots(name);
        to_lower(d.as_str())
    } else if k == 4 {
        let mut s = String::from_str("com.discordapp.");
        s.append(name);
        s
    } else {
        let mut s = String::from_str(name);
        s.append(".png");
        s
    }
}

/// The `i`-th path probed for the icon name `name`; an index past the last
/// candidate gives the last one.
pub fn icon_candidate_at(name: &str, home: Option<&str>, i: usize) -> (r: String)
    ensures
        r@ == icon_candidate(name@, opt_view(home), i as int),
{
    if i < THEME_PROBES {
        let mut s = expand_home(theme_root_text(i / 384), home);
        s.append("/");
        s.append(size_text((i % 384) / 48));
        s.append("/");
        s.append(category_text((i % 48) / 12));
        s.append("/");
        let v = name_variant_at(name, (i % 12) / 2);
        s.append(v.as_str());
        s.append(extension_text(i % 2));
        s
    } else if i < THEME_PROBES + 3 {
        let mut s = String::from_str("/usr/share/pixmaps/");
        s.append(name);
        if i == THEME_PROBES {
            s.append(".png");
        } else if i == THEME_PROBES + 1 {
            s.append(".svg");
        } else {
            s.append(".xpm");
        }
        s
    } else {
        expand_home(name, home)
    }
}

/// The desktop entry files that a listing names, one a line, `~` expanded.
pub fn listed_file_paths(listing: Option<&str>, home: Option<&str>) -> (r: Vec<String>)
    ensures
        crate::workspace::string_views(r@) == listed_files(opt_view(listing), opt_view(home)),
{
    let mut r: Vec<String> = Vec::new();
    match listing {
        Some(t) => {
            let text = chars_of(t);
            let rows = lines_of(text.as_slice());
            let ghost ls = lines(t@);
            let mut i: usize = 0;
            while i < rows.len()
                invariant
                    views(rows@) == ls,
                    i <= rows@.len(),
                    r@.len() == i,
                    forall|j: int|
                        0 <= j < i ==> (#[trigger] r@[j])@ == home_expanded(ls[j], opt_view(home)),
                decreases rows@.len() - i,
            {
                assert(rows@[i as int]@ == ls[i as int]);
                let row = string_of(rows[i].as_slice());
                r.push(expand_home(row.as_str(), home));
                i = i + 1;
            }
            assert(crate::workspace::string_views(r@) == listed_files(
                opt_view(listing),
                opt_view(home),
            ));
        },
        None => {
            assert(crate::workspace::string_views(r@) =~= Seq::<Seq<char>>::empty());
        },
    }
    r
}

// ---------------------------------------------------------------------------
// Reading a desktop entry
// ---------------------------------------------------------------------------

/// Whether a desktop entry line names the app, given the line, the lookup name
/// and the class each already lower-cased: a `Name=` or `Exec=` line whose
/// lower-cased text contains either name.
pub fn line_matches_folded(
    line: &str,
    folded_line: &str,
    folded_lookup: &str,
    folded_class: &str,
) -> (r: bool)
    ensures
        r == ((starts_with(line@, "Name="@) || starts_with(line@, "Exec="@)) && (contains(
            folded_line@,
            folded_lookup@,
        ) || contains(folded_line@, folded_class@))),
{
    let l = chars_of(line);
    let name = chars_of("Name=");
    let exec = chars_of("Exec=");
    if !(has_prefix(l.as_slice(), name.as_slice()) || has_prefix(l.as_slice(), exec.as_slice())) {
        return false;
    }
    let f = chars_of(folded_line);
    let a = chars_of(folded_lookup);
    let b = chars_of(folded_class);
    has_infix(f.as_slice(), a.as_slice()) || has_infix(f.as_slice(), b.as_slice())
}

/// Whether a desktop entry describes the app looked up as `lookup` for `class`.
pub fn describes_app(content: &str, lookup: &str, class: &str) -> (r: bool)
    ensures
        r == entry_matches(content@, lookup@, class@),
{
    let text = chars_of(content);
    let rows = lines_of(text.as_slice());
    let fl = to_lower(lookup);
    let fc = to_lower(class);
    let ghost ls = lines(content@);
    let mut i: usize = 0;
    while i < rows.len()
        invariant
            views(rows@) == ls,
            ls == lines(content@),
            fl@ == lower_of(lookup@),
            fc@ == lower_of(class@),
            i <= rows@.len(),
            forall|j: int| 0 <= j < i ==> !line_matches(#[trigger] ls[j], lookup@, class@),
        decreases rows@.len() - i,
    {
        assert(rows@[i as int]@ == ls[i as int]);
        let line = string_of(rows[i].as_slice());
        let folded = to_lower(line.as_str());
        if line_matches_folded(line.as_str(), folded.as_str(), fl.as_str(), fc.as_str()) {
            assert(line_matches(ls[i as int], lookup@, class@));
            return true;
        }
        i = i + 1;
    }
    false
}

/// The icon that a desktop entry names on its first `Icon=` line, every
/// leading `Icon=` removed.
pub fn entry_icon_name(content: &str) -> (r: Option<String>)
    ensures
        match (r, entry_icon(content@)) {
            (Some(n), Some(m)) => n@ == m,
            (None, None) => true,
            _ => false,
        },
{
    let text = chars_of(content);
    let rows = lines_of(text.as_slice());
    let key = chars_of("Icon=");
    let ghost ls = lines(content@);
    assert(ls.skip(0) == ls);
    let mut i: usize = 0;
    while i < rows.len()
        invariant
            views(rows@) == ls,
            ls == lines(content@),
            key@ == "Icon="@,
            i <= rows@.len(),
            icon_line(ls) == icon_line(ls.skip(i as int)),
        decreases rows@.len() - i,
    {
        let ghost rest = ls.skip(i as int);
        assert(rest[0] == rows@[i as int]@);
        assert(rest.skip(1) == ls.skip(i + 1));
        if has_prefix(rows[i].as_slice(), key.as_slice()) {
            let v = without_prefixes(rows[i].as_slice(), key.as_slice());
            return Some(string_of(v.as_slice()));
        }
        i = i + 1;
    }
    assert(ls.skip(i as int).len() == 0);
    None
}

// ---------------------------------------------------------------------------
// The search
// ---------------------------------------------------------------------------

/// What a search asks for next.
pub enum SearchStep {
    /// Whether this path exists.
    Probe(String),
    /// The list of desktop entry files.
    ListEntries,
    /// The text of this desktop entry file.
    ReadEntry(String),
    /// The search ended with this icon file.
    Found(String),
    /// The search ended without an icon.
    NotFound,
}

impl View for SearchStep {
    type V = StepView;

    open spec fn view(&self) -> StepView {
        match self {
            SearchStep::Probe(p) => StepView::Probe(p@),
            SearchStep::ListEntries => StepView::ListEntries,
            SearchStep::ReadEntry(f) => StepView::ReadEntry(f@),
            SearchStep::Found(p) => StepView::Found(p@),
            SearchStep::NotFound => StepView::NotFound,
        }
    }
}

enum Phase {
    Packaged(usize),
    Listing,
    Entries(Vec<String>, usize),
    Themes(String, usize),
    Done(Option<String>),
}

/// The search for the icon file of one window class, driven by whoever
/// answers its questions about the file system.
pub struct IconSearch {
    class: String,
    lookup: String,
    home: Option<String>,
    phase: Phase,
}

spec fn phase_view(p: Phase) -> SearchPhase {
    match p {
        Phase::Packaged(i) => SearchPhase::Packaged(i as nat),
        Phase::Listing => SearchPhase::Listing,
        Phase::Entries(files, i) => SearchPhase::Entries(
            crate::workspace::string_views(files@),
            i as nat,
        ),
        Phase::Themes(name, i) => SearchPhase::Themes(name@, i as nat),
        Phase::Done(r) => SearchPhase::Done(string_opt(r)),
    }
}

impl View for IconSearch {
    type V = SearchState;

    closed spec fn view(&self) -> SearchState {
        SearchState {
            class: self.class@,
            lookup: self.lookup@,
            home: string_opt(self.home),
            phase: phase_view(self.phase),
        }
    }
}

impl IconSearch {
    #[verifier::type_invariant]
    spec fn reachable(&self) -> bool {
        settled(self@)
    }

    /// `p`, or the phase after it when it has nothing left to try.
    fn settled_phase(&self, p: Phase) -> (r: Phase)
        requires
            in_range(with_phase(self@, phase_view(p))),
        ensures
            phase_view(r) == settle(with_phase(self@, phase_view(p))).phase,
            settled(with_phase(self@, phase_view(r))),
    {
        proof {
            lemma_settle_settled(with_phase(self@, phase_view(p)));
        }
        let home = home_ref(&self.home);
        let n = packaged_count(self.lookup.as_str(), home);
        match p {
            Phase::Packaged(i) => if i >= n {
                Phase::Listing
            } else {
                Phase::Packaged(i)
            },
            Phase::Entries(files, i) => if i >= files.len() {
                Phase::Themes(self.lookup.clone(), 0)
            } else {
                Phase::Entries(files, i)
            },
            Phase::Themes(name, i) => if i >= ICON_PROBES {
                Phase::Done(None)
            } else {
                Phase::Themes(name, i)
            },
            other => other,
        }
    }

    /// A search for the icon of `class`, with `~` standing for `home`.
    pub fn new(class: &str, home: Option<&str>) -> (r: IconSearch)
        ensures
            r@ == initial(class@, opt_view(home)),
    {
        let lookup = alias_of(class);
        let phase = if packaged_count(lookup.as_str(), home) > 0 {
            Phase::Packaged(0)
        } else {
            Phase::Listing
        };
        let h = match home {
            Some(t) => Some(String::from_str(t)),
            None => None,
        };
        IconSearch { class: String::from_str(class), lookup, home: h, phase }
    }

    /// What the search asks for next.
    pub fn next_step(&self) -> (r: SearchStep)
        ensures
            r@ == action(self@),
    {
        proof {
            use_type_invariant(self);
        }
        let home = home_ref(&self.home);
        match &self.phase {
            Phase::Packaged(i) => SearchStep::Probe(
                packaged_path(self.lookup.as_str(), home, *i),
            ),
            Phase::Listing => SearchStep::ListEntries,
            Phase::Entries(files, i) => SearchStep::ReadEntry(files[*i].clone()),
            Phase::Themes(name, i) => SearchStep::Probe(
                icon_candidate_at(name.as_str(), home, *i),
            ),
            Phase::Done(r) => match r {
                Some(p) => SearchStep::Found(p.clone()),
                None => SearchStep::NotFound,
            },
        }
    }

    /// Takes in whether the probed path exists.
    pub fn probe_result(&mut self, found: bool)
        ensures
            final(self)@ == after_probe(old(self)@, found),
    {
        proof {
            use_type_invariant(&*self);
        }
        let home = home_ref(&self.home);
        let next = match &self.phase {
            Phase::Packaged(i) => if found {
                Some(Phase::Done(Some(packaged_path(self.lookup.as_str(), home, *i))))
            } else {
                Some(self.settled_phase(Phase::Packaged(*i + 1)))
            },
            Phase::Themes(name, i) => if found {
                Some(Phase::Done(Some(icon_candidate_at(name.as_str(), home, *i))))
            } else {
                Some(self.settled_phase(Phase::Themes(name.clone(), *i + 1)))
            },
            _ => None,
        };
        match next {
            Some(p) => {
                self.phase = p;
            },
            None => {},
        }
    }

    /// Takes in the listing of desktop entry files, one path a line, or `None`
    /// when it could not be made.
    pub fn entries_listed(&mut self, listing: Option<&str>)
        ensures
            final(self)@ == after_listing(old(self)@, opt_view(listing)),
    {
        proof {
            use_type_invariant(&*self);
        }
        let next = match &self.phase {
            Phase::Listing => {
                let home = home_ref(&self.home);
                let files = listed_file_paths(listing, home);
                Some(self.settled_phase(Phase::Entries(files, 0)))
            },
            _ => None,
        };
        match next {
            Some(p) => {
                self.phase = p;
            },
            None => {},
        }
    }

    /// Takes in the text of the desktop entry file asked for, or `None` when
    /// it could not be read.
    pub fn entry_read(&mut self, content: Option<&str>)
        ensures
            final(self)@ == after_read(old(self)@, opt_view(content)),
    {
        proof {
            use_type_invariant(&*self);
        }
        let next = match &self.phase {
            Phase::Entries(files, i) => {
                let hit = match content {
                    Some(c) => if describes_app(c, self.lookup.as_str(), self.class.as_str()) {
                        Some(
                            match entry_icon_name(c) {
                                Some(n) => n,
                                None => self.lookup.clone(),
                            },
                        )
                    } else {
                        None
                    },
                    None => None,
                };
                match hit {
                    Some(name) => Some(Phase::Themes(name, 0)),
                    None => Some(self.settled_phase(Phase::Entries(files.clone(), *i + 1))),
                }
            },
            _ => None,
        };
        match next {
            Some(p) => {
                self.phase = p;
            },
            None => {},
        }
    }
}

} // verus!
