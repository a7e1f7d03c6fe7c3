use vstd::prelude::*;

use crate::config::Colors;
use crate::icon::{cached, record, IconCache};
use crate::text::{chars_of, same_chars};

verus! {

/// Class of the overlay's own window, which is never shown as an app.
pub const APP_ID: &'static str = "hypowertools";

/// Milliseconds between two workspace polls.
pub const WORKSPACE_POLL_MS: u64 = 500;

/// Most app icons drawn on one workspace button.
pub const MAX_APP_ICONS: usize = 3;

/// A numbered virtual desktop of the compositor.
pub struct Workspace {
    pub id: i32,
    pub name: String,
}

impl View for Workspace {
    type V = (i32, Seq<char>);

    open spec fn view(&self) -> (i32, Seq<char>) {
        (self.id, self.name@)
    }
}

impl Workspace {
    pub fn new(id: i32, name: &str) -> (w: Workspace)
        ensures
            w@ == (id, name@),
    {
        Workspace { id, name: String::from_str(name) }
    }

    /// An equal workspace.
    pub fn duplicate(&self) -> (r: Workspace)
        ensures
            r@ == self@,
    {
        Workspace { id: self.id, name: self.name.clone() }
    }
}

/// A window of the compositor: the workspace it is on and its class.
pub struct Window {
    pub workspace_id: i32,
    pub class: String,
}

impl View for Window {
    type V = (i32, Seq<char>);

    open spec fn view(&self) -> (i32, Seq<char>) {
        (self.workspace_id, self.class@)
    }
}

pub open spec fn workspace_views(v: Seq<Workspace>) -> Seq<(i32, Seq<char>)> {
    v.map_values(|w: Workspace| w@)
}

pub open spec fn window_views(v: Seq<Window>) -> Seq<(i32, Seq<char>)> {
    v.map_values(|w: Window| w@)
}

// ---------------------------------------------------------------------------
// Ordering by id
// ---------------------------------------------------------------------------

/// `x` placed before the first workspace of `s` with a greater id.
pub open spec fn insert_by_id(s: Seq<(i32, Seq<char>)>, x: (i32, Seq<char>)) -> Seq<
    (i32, Seq<char>),
>
    decreases s.len(),
{
    if s.len() == 0 {
        seq![x]
    } else if s[0].0 > x.0 {
        seq![x] + s
    } else {
        seq![s[0]] + insert_by_id(s.skip(1), x)
    }
}

/// `s` ordered by ascending id; workspaces of equal id keep their order.
pub open spec fn sort_by_id(s: Seq<(i32, Seq<char>)>) -> Seq<(i32, Seq<char>)>
    decreases s.len(),
{
    if s.len() == 0 {
        s
    } else {
        insert_by_id(sort_by_id(s.drop_last()), s.last())
    }
}

pub open spec fn has_id(s: Seq<(i32, Seq<char>)>, k: i32) -> bool {
    exists|i: int| 0 <= i < s.len() && s[i].0 == k
}

pub open spec fn ascending(s: Seq<(i32, Seq<char>)>) -> bool {
    forall|i: int, j: int| 0 <= i < j < s.len() ==> s[i].0 <= s[j].0
}

pub open spec fn strictly_ascending(s: Seq<(i32, Seq<char>)>) -> bool {
    forall|i: int, j: int| 0 <= i < j < s.len() ==> s[i].0 < s[j].0
}

pub open spec fn distinct_ids(s: Seq<(i32, Seq<char>)>) -> bool {
    forall|i: int, j: int| 0 <= i < j < s.len() ==> s[i].0 != s[j].0
}

proof fn lemma_insert_by_id(s: Seq<(i32, Seq<char>)>, x: (i32, Seq<char>))
    requires
        ascending(s),
    ensures
        ascending(insert_by_id(s, x)),
        insert_by_id(s, x).len() == s.len() + 1,
        forall|k: i32| #[trigger] has_id(insert_by_id(s, x), k) <==> (has_id(s, k) || k == x.0),
        strictly_ascending(s) && !has_id(s, x.0) ==> strictly_ascending(insert_by_id(s, x)),
    decreases s.len(),
{
    let r = insert_by_id(s, x);
    if s.len() == 0 {
        assert(r[0] == x);
    } else if s[0].0 > x.0 {
        assert forall|k: i32| has_id(r, k) <==> (has_id(s, k) || k == x.0) by {
            if has_id(s, k) {
                let i = choose|i: int| 0 <= i < s.len() && s[i].0 == k;
                assert(r[i + 1] == s[i]);
            }
            if has_id(r, k) {
                let i = choose|i: int| 0 <= i < r.len() && r[i].0 == k;
                if i > 0 {
                    assert(r[i] == s[i - 1]);
                }
            }
            if k == x.0 {
                assert(r[0] == x);
            }
        }
        assert forall|i: int, j: int| 0 <= i < j < r.len() implies r[i].0 <= r[j].0 by {
            if i > 0 {
                assert(r[i] == s[i - 1] && r[j] == s[j - 1]);
            } else {
                assert(r[j] == s[j - 1]);
                assert(s[0].0 <= s[j - 1].0);
            }
        }
        if strictly_ascending(s) {
            assert forall|i: int, j: int| 0 <= i < j < r.len() implies r[i].0 < r[j].0 by {
                if i > 0 {
                    assert(r[i] == s[i - 1] && r[j] == s[j - 1]);
                } else {
                    assert(r[j] == s[j - 1]);
                    if j > 1 {
                        assert(s[0].0 < s[j - 1].0);
                    }
                }
            }
        }
    } else {
        let t = s.skip(1);
        assert forall|i: int, j: int| 0 <= i < j < t.len() implies t[i].0 <= t[j].0 by {
            assert(t[i] == s[i + 1] && t[j] == s[j + 1]);
        }
        lemma_insert_by_id(t, x);
        let u = insert_by_id(t, x);
        assert(r == seq![s[0]] + u);
        assert forall|k: i32| has_id(t, k) implies has_id(s, k) by {
            {
                let i = choose|i: int| 0 <= i < t.len() && t[i].0 == k;
                assert(s[i + 1] == t[i]);
            }
        }
        assert forall|k: i32| has_id(s, k) && k != s[0].0 implies has_id(t, k) by {
            {
                let i = choose|i: int| 0 <= i < s.len() && s[i].0 == k;
                assert(t[i - 1] == s[i]);
            }
        }
        assert forall|k: i32| has_id(r, k) <==> (has_id(s, k) || k == x.0) by {
            if has_id(r, k) {
                let i = choose|i: int| 0 <= i < r.len() && r[i].0 == k;
                if i > 0 {
                    assert(r[i] == u[i - 1]);
                    assert(has_id(u, k));
                } else {
                    assert(s[0].0 == k);
                }
            }
            if has_id(s, k) || k == x.0 {
                if k == s[0].0 {
                    assert(r[0].0 == k);
                } else {
                    if k != x.0 {
                        assert(has_id(t, k));
                    }
                    assert(has_id(u, k));
                    let i = choose|i: int| 0 <= i < u.len() && u[i].0 == k;
                    assert(r[i + 1] == u[i]);
                }
            }
        }
        assert forall|j: int| 0 <= j < u.len() implies s[0].0 <= #[trigger] u[j].0 by {
            assert(has_id(u, u[j].0));
            if u[j].0 != x.0 {
                assert(has_id(t, u[j].0));
                let i = choose|i: int| 0 <= i < t.len() && t[i].0 == u[j].0;
                assert(t[i] == s[i + 1]);
            }
        }
        assert forall|i: int, j: int| 0 <= i < j < r.len() implies r[i].0 <= r[j].0 by {
            assert(r[j] == u[j - 1]);
            if i > 0 {
                assert(r[i] == u[i - 1]);
            }
        }
        if strictly_ascending(s) && !has_id(s, x.0) {
            assert forall|i: int, j: int| 0 <= i < j < t.len() implies t[i].0 < t[j].0 by {
                assert(t[i] == s[i + 1] && t[j] == s[j + 1]);
            }
            assert(!has_id(t, x.0));
            assert forall|j: int| 0 <= j < u.len() implies s[0].0 < #[trigger] u[j].0 by {
                assert(has_id(u, u[j].0));
                if u[j].0 != x.0 {
                    assert(has_id(t, u[j].0));
                    let i = choose|i: int| 0 <= i < t.len() && t[i].0 == u[j].0;
                    assert(t[i] == s[i + 1]);
                } else {
                    assert(s[0].0 != x.0);
                }
            }
            assert forall|i: int, j: int| 0 <= i < j < r.len() implies r[i].0 < r[j].0 by {
                assert(r[j] == u[j - 1]);
                if i > 0 {
                    assert(r[i] == u[i - 1]);
                }
            }
        }
    }
}

/// Ordering by id gives ascending ids, and the same ids as before; when no
/// two workspaces share an id, the ids strictly ascend.
pub proof fn lemma_sort_by_id(s: Seq<(i32, Seq<char>)>)
    ensures
        ascending(sort_by_id(s)),
        sort_by_id(s).len() == s.len(),
        forall|k: i32| #[trigger] has_id(sort_by_id(s), k) <==> has_id(s, k),
        distinct_ids(s) ==> strictly_ascending(sort_by_id(s)),
    decreases s.len(),
{
    if s.len() > 0 {
        let p = s.drop_last();
        lemma_sort_by_id(p);
        lemma_insert_by_id(sort_by_id(p), s.last());
        assert forall|k: i32| has_id(s, k) <==> (has_id(p, k) || k == s.last().0) by {
            if has_id(s, k) {
                let i = choose|i: int| 0 <= i < s.len() && s[i].0 == k;
                if i < p.len() {
                    assert(p[i] == s[i]);
                }
            }
            if has_id(p, k) {
                let i = choose|i: int| 0 <= i < p.len() && p[i].0 == k;
                assert(s[i] == p[i]);
            }
        }
        if distinct_ids(s) {
            assert forall|i: int, j: int| 0 <= i < j < p.len() implies p[i].0 != p[j].0 by {
                assert(p[i] == s[i] && p[j] == s[j]);
            }
            assert(!has_id(p, s.last().0)) by {
                if has_id(p, s.last().0) {
                    let i = choose|i: int| 0 <= i < p.len() && p[i].0 == s.last().0;
                    assert(s[i] == p[i]);
                }
            }
        }
    } else {
        assert(sort_by_id(s) == s);
    }
}

/// After a successful poll the workspaces are held in strictly ascending order
/// of id, provided the compositor listed each id once.
pub proof fn lemma_poll_sorted(listed: Seq<(i32, Seq<char>)>)
    requires
        distinct_ids(listed),
    ensures
        strictly_ascending(sort_by_id(listed)),
{
    lemma_sort_by_id(listed);
}

proof fn lemma_insert_by_id_at(s: Seq<(i32, Seq<char>)>, x: (i32, Seq<char>), pos: int)
    requires
        0 <= pos <= s.len(),
        forall|j: int| 0 <= j < pos ==> s[j].0 <= x.0,
        pos == s.len() || s[pos].0 > x.0,
    ensures
        insert_by_id(s, x) == s.insert(pos, x),
    decreases s.len(),
{
    if s.len() > 0 && pos > 0 {
        assert forall|j: int| 0 <= j < pos - 1 implies s.skip(1)[j].0 <= x.0 by {
            assert(s.skip(1)[j] == s[j + 1]);
        }
        lemma_insert_by_id_at(s.skip(1), x, pos - 1);
        assert(seq![s[0]] + s.skip(1).insert(pos - 1, x) == s.insert(pos, x));
    } else if s.len() > 0 {
        assert(seq![x] + s == s.insert(0, x));
    } else {
        assert(seq![x] == s.insert(0, x));
    }
}

/// `v` ordered by ascending id, workspaces of equal id in their old order.
pub fn get_workspaces(v: &Vec<Workspace>) -> (r: Vec<Workspace>)
    ensures
        workspace_views(r@) == sort_by_id(workspace_views(v@)),
{
    let ghost src = workspace_views(v@);
    let mut r: Vec<Workspace> = Vec::new();
    let mut i: usize = 0;
    while i < v.len()
        invariant
            src == workspace_views(v@),
            i <= v@.len(),
            workspace_views(r@) == sort_by_id(src.take(i as int)),
        decreases v@.len() - i,
    {
        let x = v[i].duplicate();
        let ghost sorted = workspace_views(r@);
        let mut pos: usize = 0;
        while pos < r.len() && r[pos].id <= x.id
            invariant
                sorted == workspace_views(r@),
                pos <= r@.len(),
                forall|j: int| 0 <= j < pos ==> sorted[j].0 <= x@.0,
            decreases r@.len() - pos,
        {
            pos = pos + 1;
        }
        proof {
            lemma_insert_by_id_at(sorted, x@, pos as int);
            assert(src.take(i + 1).drop_last() == src.take(i as int));
            assert(src.take(i + 1).last() == x@);
        }
        let ghost xv = x@;
        r.insert(pos, x);
        assert(workspace_views(r@) == sorted.insert(pos as int, xv));
        i = i + 1;
    }
    assert(src.take(v@.len() as int) == src);
    r
}

// ---------------------------------------------------------------------------
// Apps shown on a workspace
// ---------------------------------------------------------------------------

pub open spec fn seq_has(s: Seq<Seq<char>>, x: Seq<char>) -> bool {
    exists|i: int| 0 <= i < s.len() && s[i] == x
}

/// The distinct classes of the windows on workspace `id`, in order of first
/// appearance, without the overlay's own window.
pub open spec fn apps_of(windows: Seq<(i32, Seq<char>)>, id: i32) -> Seq<Seq<char>>
    decreases windows.len(),
{
    if windows.len() == 0 {
        Seq::empty()
    } else {
        let rest = apps_of(windows.drop_last(), id);
        let w = windows.last();
        if w.0 == id && w.1 != APP_ID@ && !seq_has(rest, w.1) {
            rest.push(w.1)
        } else {
            rest
        }
    }
}

pub open spec fn string_views(v: Seq<String>) -> Seq<Seq<char>> {
    v.map_values(|s: String| s@)
}

fn holds_string(v: &Vec<String>, x: &String) -> (r: bool)
    ensures
        r == seq_has(string_views(v@), x@),
{
    let ghost s = string_views(v@);
    let mut i: usize = 0;
    while i < v.len()
        invariant
            s == string_views(v@),
            i <= v@.len(),
            forall|j: int| 0 <= j < i ==> s[j] != x@,
        decreases v@.len() - i,
    {
        if v[i] == *x {
            assert(s[i as int] == x@);
            return true;
        }
        i = i + 1;
    }
    false
}

/// The classes of the apps on workspace `id`: each once, in order of first
/// appearance, the overlay itself left out.
pub fn workspace_apps(windows: &Vec<Window>, id: i32) -> (r: Vec<String>)
    ensures
        string_views(r@) == apps_of(window_views(windows@), id),
{
    let own = String::from_str(APP_ID);
    let ghost ws = window_views(windows@);
    let mut r: Vec<String> = Vec::new();
    let mut i: usize = 0;
    while i < windows.len()
        invariant
            ws == window_views(windows@),
            own@ == APP_ID@,
            i <= windows@.len(),
            string_views(r@) == apps_of(ws.take(i as int), id),
        decreases windows@.len() - i,
    {
        let ghost pre = ws.take(i + 1);
        assert(pre.drop_last() == ws.take(i as int));
        assert(pre.last() == windows@[i as int]@);
        let w = &windows[i];
        if w.workspace_id == id && !(w.class == own) && !holds_string(&r, &w.class) {
            let c = w.class.clone();
            proof {
                assert(string_views(r@.push(c)) == string_views(r@).push(c@));
            }
            r.push(c);
        }
        i = i + 1;
    }
    assert(ws.take(windows@.len() as int) == ws);
    r
}

/// The class under which an app's icon is looked up: `Cursor` is looked up
/// as `cursor`, any other class as itself.
pub fn icon_lookup_name(class: &str) -> (r: String)
    ensures
        r@ == (if class@ == "Cursor"@ {
            "cursor"@
        } else {
            class@
        }),
{
    let c = chars_of(class);
    let cursor = chars_of("Cursor");
    if same_chars(c.as_slice(), cursor.as_slice()) {
        String::from_str("cursor")
    } else {
        String::from_str(class)
    }
}

/// How many apps of a workspace go without an icon: those past the first three.
pub fn extra_app_count(apps: usize) -> (r: usize)
    ensures
        r == (if apps > MAX_APP_ICONS {
            apps - MAX_APP_ICONS
        } else {
            0
        }),
{
    if apps > MAX_APP_ICONS {
        apps - MAX_APP_ICONS
    } else {
        0
    }
}

// ---------------------------------------------------------------------------
// Keyboard navigation
// ---------------------------------------------------------------------------

/// The keys pressed during one frame.
pub struct KeyPresses {
    /// The left arrow.
    pub left: bool,
    /// The right arrow or Tab.
    pub right: bool,
    /// The digit keys pressed, 0 to 9, in ascending order.
    pub digits: Vec<u8>,
    /// Escape or Enter.
    pub dismiss: bool,
}

/// What the keys of a frame ask for: a workspace to switch to, and whether to
/// close the overlay.
#[derive(PartialEq, Eq, Structural, Clone, Copy, Debug)]
pub struct KeyOutcome {
    pub switch_to: Option<i32>,
    pub close: bool,
}

/// Index of the first workspace with id `id`.
pub open spec fn index_of(s: Seq<(i32, Seq<char>)>, id: i32) -> Option<int>
    decreases s.len(),
{
    if s.len() == 0 {
        None
    } else if s[0].0 == id {
        Some(0)
    } else {
        match index_of(s.skip(1), id) {
            Some(i) => Some(i + 1),
            None => None,
        }
    }
}

/// The workspace before the current one.
pub open spec fn left_of(s: Seq<(i32, Seq<char>)>, current: i32) -> Option<i32> {
    match index_of(s, current) {
        Some(i) => if i > 0 {
            Some(s[i - 1].0)
        } else {
            None
        },
        None => None,
    }
}

/// The workspace after the current one.
pub open spec fn right_of(s: Seq<(i32, Seq<char>)>, current: i32) -> Option<i32> {
    match index_of(s, current) {
        Some(i) => if i + 1 < s.len() {
            Some(s[i + 1].0)
        } else {
            None
        },
        None => None,
    }
}

/// The workspace that digit key `d` selects: 1 to 9 name themselves, 0 names 10.
pub open spec fn digit_target(s: Seq<(i32, Seq<char>)>, d: u8) -> Option<i32> {
    let n: i32 = if d == 0 {
        10
    } else {
        d as i32
    };
    if has_id(s, n) {
        Some(n)
    } else {
        None
    }
}

/// The outcome after the digit keys `ds`, starting from `start`: each digit
/// that selects a workspace switches to it and closes the overlay.
pub open spec fn after_digits(s: Seq<(i32, Seq<char>)>, ds: Seq<u8>, start: KeyOutcome) -> KeyOutcome
    decreases ds.len(),
{
    if ds.len() == 0 {
        start
    } else {
        let o = after_digits(s, ds.drop_last(), start);
        match digit_target(s, ds.last()) {
            Some(n) => KeyOutcome { switch_to: Some(n), close: true },
            None => o,
        }
    }
}

/// The outcome of a frame's keys: arrows move to a neighbour, digits then pick
/// a workspace and close, Escape or Enter close; a later key overrides an
/// earlier one's choice of workspace.
pub open spec fn key_outcome(
    s: Seq<(i32, Seq<char>)>,
    current: i32,
    left: bool,
    right: bool,
    ds: Seq<u8>,
    dismiss: bool,
) -> KeyOutcome {
    let a = KeyOutcome { switch_to: None, close: false };
    let b = if left && left_of(s, current) is Some {
        KeyOutcome { switch_to: left_of(s, current), ..a }
    } else {
        a
    };
    let c = if right && right_of(s, current) is Some {
        KeyOutcome { switch_to: right_of(s, current), ..b }
    } else {
        b
    };
    let d = after_digits(s, ds, c);
    KeyOutcome { close: d.close || dismiss, ..d }
}

fn find_index(v: &Vec<Workspace>, id: i32) -> (r: Option<usize>)
    ensures
        match r {
            Some(i) => i < v@.len() && index_of(workspace_views(v@), id) == Some(i as int),
            None => index_of(workspace_views(v@), id) is None,
        },
{
    let ghost s = workspace_views(v@);
    let mut i: usize = 0;
    while i < v.len()
        invariant
            s == workspace_views(v@),
            i <= v@.len(),
            forall|j: int| 0 <= j < i ==> s[j].0 != id,
        decreases v@.len() - i,
    {
        if v[i].id == id {
            proof {
                lemma_index_of(s, id, i as int);
            }
            return Some(i);
        }
        i = i + 1;
    }
    proof {
        lemma_index_of(s, id, i as int);
    }
    None
}

proof fn lemma_index_of(s: Seq<(i32, Seq<char>)>, id: i32, i: int)
    requires
        0 <= i <= s.len(),
        forall|j: int| 0 <= j < i ==> s[j].0 != id,
        i == s.len() || s[i].0 == id,
    ensures
        index_of(s, id) == (if i == s.len() {
            None::<int>
        } else {
            Some(i)
        }),
    decreases s.len(),
{
    if s.len() > 0 && i > 0 {
        assert forall|j: int| 0 <= j < i - 1 implies s.skip(1)[j].0 != id by {
            assert(s.skip(1)[j] == s[j + 1]);
        }
        lemma_index_of(s.skip(1), id, i - 1);
    }
}

proof fn lemma_index_of_has_id(s: Seq<(i32, Seq<char>)>, id: i32)
    ensures
        (index_of(s, id) is Some) == has_id(s, id),
        index_of(s, id) matches Some(i) ==> 0 <= i < s.len() && s[i].0 == id,
    decreases s.len(),
{
    if s.len() > 0 {
        lemma_index_of_has_id(s.skip(1), id);
        if has_id(s, id) && s[0].0 != id {
            let i = choose|i: int| 0 <= i < s.len() && s[i].0 == id;
            assert(s.skip(1)[i - 1] == s[i]);
        }
        if has_id(s.skip(1), id) {
            let i = choose|i: int| 0 <= i < s.len() - 1 && s.skip(1)[i].0 == id;
            assert(s[i + 1] == s.skip(1)[i]);
        }
    }
}

/// What the switcher holds.
pub struct SwitcherState<H> {
    pub colors: Colors,
    pub current: i32,
    pub workspaces: Seq<(i32, Seq<char>)>,
    pub last_update: u64,
    pub background: Option<H>,
    pub icons: Seq<(Seq<char>, Option<H>)>,
}

/// The workspace switcher: the workspaces, the active one, and the images it
/// draws them with (of type `H`).
pub struct WorkspaceSwitcher<H> {
    colors: Colors,
    current_workspace: i32,
    workspaces: Vec<Workspace>,
    last_update: u64,
    background: Option<H>,
    icon_cache: IconCache<H>,
}

impl<H> View for WorkspaceSwitcher<H> {
    type V = SwitcherState<H>;

    closed spec fn view(&self) -> SwitcherState<H> {
        SwitcherState {
            colors: self.colors,
            current: self.current_workspace,
            workspaces: workspace_views(self.workspaces@),
            last_update: self.last_update,
            background: self.background,
            icons: self.icon_cache@,
        }
    }
}

impl<H> WorkspaceSwitcher<H> {
    /// A switcher with no workspaces yet, workspace 1 active, last refreshed at `now`.
    pub fn new(colors: Colors, now: u64) -> (w: WorkspaceSwitcher<H>)
        ensures
            w@.colors == colors,
            w@.current == 1,
            w@.workspaces.len() == 0,
            w@.last_update == now,
            w@.background is None,
            w@.icons.len() == 0,
    {
        let w = WorkspaceSwitcher {
            colors,
            current_workspace: 1,
            workspaces: Vec::new(),
            last_update: now,
            background: None,
            icon_cache: IconCache::new(),
        };
        assert(workspace_views(w.workspaces@).len() == 0);
        w
    }

    /// Whether a poll is due at `now`: more than half a second since the last.
    pub fn should_update(&self, now: u64) -> (r: bool)
        ensures
            r == (now >= self@.last_update && now - self@.last_update > WORKSPACE_POLL_MS),
    {
        now >= self.last_update && now - self.last_update > WORKSPACE_POLL_MS
    }

    /// Takes in a poll made at `now`: the workspaces listed and the active
    /// workspace's id, each `None` when its query failed. What a failed query
    /// would have refreshed is kept as it was.
    pub fn update(&mut self, listed: Option<Vec<Workspace>>, active: Option<i32>, now: u64)
        ensures
            final(self)@.workspaces == (match listed {
                Some(v) => sort_by_id(workspace_views(v@)),
                None => old(self)@.workspaces,
            }),
            final(self)@.current == (match active {
                Some(a) => a,
                None => old(self)@.current,
            }),
            final(self)@.last_update == now,
            final(self)@.colors == old(self)@.colors,
            final(self)@.background == old(self)@.background,
            final(self)@.icons == old(self)@.icons,
    {
        match listed {
            Some(v) => {
                self.workspaces = get_workspaces(&v);
            },
            None => {},
        }
        match active {
            Some(a) => {
                self.current_workspace = a;
            },
            None => {},
        }
        self.last_update = now;
    }

    pub fn colors(&self) -> (r: &Colors)
        ensures
            *r == self@.colors,
    {
        &self.colors
    }

    /// The workspaces, by ascending id.
    pub fn workspaces(&self) -> (r: &Vec<Workspace>)
        ensures
            workspace_views(r@) == self@.workspaces,
    {
        &self.workspaces
    }

    pub fn workspace_count(&self) -> (r: usize)
        ensures
            r == self@.workspaces.len(),
    {
        self.workspaces.len()
    }

    /// The id of the active workspace.
    pub fn current_workspace(&self) -> (r: i32)
        ensures
            r == self@.current,
    {
        self.current_workspace
    }

    /// The name under which the compositor is asked to show workspace `id`,
    /// when the switcher holds it.
    pub fn switch_to_workspace(&self, id: i32) -> (r: Option<String>)
        ensures
            match (r, index_of(self@.workspaces, id)) {
                (Some(n), Some(i)) => n@ == self@.workspaces[i].1,
                (None, None) => true,
                _ => false,
            },
    {
        match find_index(&self.workspaces, id) {
            Some(i) => Some(self.workspaces[i].name.clone()),
            None => None,
        }
    }

    /// What the keys of a frame ask for.
    pub fn navigate(&self, keys: &KeyPresses) -> (r: KeyOutcome)
        ensures
            r == key_outcome(
                self@.workspaces,
                self@.current,
                keys.left,
                keys.right,
                keys.digits@,
                keys.dismiss,
            ),
    {
        let ghost s = self@.workspaces;
        let mut out = KeyOutcome { switch_to: None, close: false };
        let at = find_index(&self.workspaces, self.current_workspace);
        if keys.left {
            match at {
                Some(i) => if i > 0 {
                    out = KeyOutcome { switch_to: Some(self.workspaces[i - 1].id), ..out };
                },
                None => {},
            }
        }
        if keys.right {
            match at {
                Some(i) => if self.workspaces.len() - i > 1 {
                    out = KeyOutcome { switch_to: Some(self.workspaces[i + 1].id), ..out };
                },
                None => {},
            }
        }
        let ghost c = out;
        let ds = &keys.digits;
        let mut k: usize = 0;
        while k < ds.len()
            invariant
                s == workspace_views(self.workspaces@),
                k <= ds@.len(),
                out == after_digits(s, ds@.take(k as int), c),
            decreases ds@.len() - k,
        {
            let d = ds[k];
            let n: i32 = if d == 0 {
                10
            } else {
                d as i32
            };
            let hit = find_index(&self.workspaces, n);
            proof {
                lemma_index_of_has_id(s, n);
                assert(ds@.take(k + 1).drop_last() == ds@.take(k as int));
                assert(ds@.take(k + 1).last() == d);
            }
            if hit.is_some() {
                out = KeyOutcome { switch_to: Some(n), close: true };
            }
            k = k + 1;
        }
        assert(ds@.take(ds@.len() as int) == ds@);
        KeyOutcome { close: out.close || keys.dismiss, ..out }
    }

    /// The icon recorded for a window class, if it was looked up before.
    pub fn get_app_icon(&self, class: &str) -> (r: Option<&Option<H>>)
        ensures
            match (r, cached(self@.icons, class@)) {
                (Some(e), Some(x)) => *e == x,
                (None, None) => true,
                _ => false,
            },
    {
        self.icon_cache.get(class)
    }

    /// Records the outcome of looking up a class's icon; the first one stays.
    pub fn record_app_icon(&mut self, class: &str, icon: Option<H>)
        ensures
            final(self)@.icons == record(old(self)@.icons, class@, icon),
            final(self)@.workspaces == old(self)@.workspaces,
            final(self)@.current == old(self)@.current,
            final(self)@.colors == old(self)@.colors,
            final(self)@.last_update == old(self)@.last_update,
            final(self)@.background == old(self)@.background,
    {
        self.icon_cache.insert(class, icon);
    }

    /// The wallpaper drawn behind the workspaces, once loaded.
    pub fn background(&self) -> (r: &Option<H>)
        ensures
            *r == self@.background,
    {
        &self.background
    }

    pub fn set_background(&mut self, image: H)
        ensures
            final(self)@.background == Some(image),
            final(self)@.workspaces == old(self)@.workspaces,
            final(self)@.current == old(self)@.current,
            final(self)@.colors == old(self)@.colors,
            final(self)@.last_update == old(self)@.last_update,
            final(self)@.icons == old(self)@.icons,
    {
        self.background = Some(image);
    }

    /// Releases every image held: the icons and the wallpaper.
    pub fn cleanup(&mut self)
        ensures
            final(self)@.icons.len() == 0,
            final(self)@.background is None,
            final(self)@.workspaces == old(self)@.workspaces,
            final(self)@.current == old(self)@.current,
            final(self)@.colors == old(self)@.colors,
            final(self)@.last_update == old(self)@.last_update,
    {
        self.icon_cache.clear();
        self.background = None;
    }
}

} // verus!
