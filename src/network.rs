use vstd::prelude::*;

use crate::config::Colors;
use crate::text::{
    same_chars,
    chars_of, contains, has_infix, int_value, lines, lines_of, parse_int, split_chars, split_on,
    string_of, views,
};

verus! {

/// A wireless network as shown to the user.
pub struct NetworkRecord {
    pub ssid: String,
    pub signal_strength: i32,
    pub security: String,
    pub is_known: bool,
}

/// What a network record holds.
pub struct NetworkView {
    pub ssid: Seq<char>,
    pub signal: i32,
    pub security: Seq<char>,
    pub is_known: bool,
}

impl View for NetworkRecord {
    type V = NetworkView;

    open spec fn view(&self) -> NetworkView {
        NetworkView {
            ssid: self.ssid@,
            signal: self.signal_strength,
            security: self.security@,
            is_known: self.is_known,
        }
    }
}

impl NetworkRecord {
    /// An equal record.
    pub fn duplicate(&self) -> (r: NetworkRecord)
        ensures
            r@ == self@,
    {
        NetworkRecord {
            ssid: self.ssid.clone(),
            signal_strength: self.signal_strength,
            security: self.security.clone(),
            is_known: self.is_known,
        }
    }
}

pub open spec fn record_views(v: Seq<NetworkRecord>) -> Seq<NetworkView> {
    v.map_values(|r: NetworkRecord| r@)
}

/// Whether the network manager reports an active wireless connection.
pub enum ConnectionState {
    Disconnected,
    Connected(String),
}

impl ConnectionState {
    pub open spec fn ssid(&self) -> Option<Seq<char>> {
        match self {
            ConnectionState::Disconnected => None,
            ConnectionState::Connected(s) => Some(s@),
        }
    }

    /// The connected network's name, if any.
    pub fn current(&self) -> (r: Option<String>)
        ensures
            match r {
                Some(s) => self.ssid() == Some(s@),
                None => self.ssid() is None,
            },
    {
        match self {
            ConnectionState::Disconnected => None,
            ConnectionState::Connected(s) => Some(s.clone()),
        }
    }
}

// ---------------------------------------------------------------------------
// Reading the network manager's terse output
// ---------------------------------------------------------------------------

/// The ssid of the first status row `yes:SSID:...`.
pub open spec fn active_ssid(rows: Seq<Seq<char>>) -> Option<Seq<char>>
    decreases rows.len(),
{
    if rows.len() == 0 {
        None
    } else {
        let parts = split_on(rows[0], ':');
        if parts.len() >= 2 && parts[0] == "yes"@ {
            Some(parts[1])
        } else {
            active_ssid(rows.skip(1))
        }
    }
}

/// The connected ssid that a status listing (`ACTIVE:SSID:SIGNAL` rows) names.
pub fn parse_active_ssid(output: &str) -> (r: Option<String>)
    ensures
        match r {
            Some(s) => active_ssid(lines(output@)) == Some(s@),
            None => active_ssid(lines(output@)) is None,
        },
{
    let text = chars_of(output);
    let rows = lines_of(text.as_slice());
    let yes = chars_of("yes");
    let ghost ls = lines(output@);
    assert(ls.skip(0) == ls);
    let mut i: usize = 0;
    while i < rows.len()
        invariant
            views(rows@) == ls,
            ls == lines(output@),
            yes@ == "yes"@,
            i <= rows@.len(),
            active_ssid(ls) == active_ssid(ls.skip(i as int)),
        decreases rows@.len() - i,
    {
        let ghost rest = ls.skip(i as int);
        assert(rest[0] == rows@[i as int]@);
        assert(rest.skip(1) == ls.skip(i + 1));
        let parts = split_chars(rows[i].as_slice(), ':');
        assert(views(parts@).len() == parts@.len());
        if parts.len() >= 2 {
            assert(parts@[0]@ == split_on(rest[0], ':')[0]);
            assert(parts@[1]@ == split_on(rest[0], ':')[1]);
            if same_chars(parts[0].as_slice(), yes.as_slice()) {
                return Some(string_of(parts[1].as_slice()));
            }
        }
        i = i + 1;
    }
    assert(ls.skip(i as int).len() == 0);
    None
}

/// A profile name that stands for a wired or loopback connection.
pub open spec fn is_wired_name(n: Seq<char>) -> bool {
    contains(n, "ethernet"@) || contains(n, "loopback"@)
}

/// The saved wireless profiles of a listing of `NAME:UUID` rows, in order.
pub open spec fn known_profiles(rows: Seq<Seq<char>>) -> Seq<NetworkView>
    decreases rows.len(),
{
    if rows.len() == 0 {
        Seq::empty()
    } else {
        let rest = known_profiles(rows.drop_last());
        let name = split_on(rows.last(), ':')[0];
        if is_wired_name(name) {
            rest
        } else {
            rest.push(NetworkView { ssid: name, signal: 0, security: Seq::empty(), is_known: true })
        }
    }
}

/// The saved wireless profiles that a `NAME:UUID` listing names, with no signal yet.
pub fn parse_known(output: &str) -> (r: Vec<NetworkRecord>)
    ensures
        record_views(r@) == known_profiles(lines(output@)),
{
    let text = chars_of(output);
    let rows = lines_of(text.as_slice());
    let ethernet = chars_of("ethernet");
    let loopback = chars_of("loopback");
    let ghost ls = lines(output@);
    let mut r: Vec<NetworkRecord> = Vec::new();
    let mut i: usize = 0;
    while i < rows.len()
        invariant
            views(rows@) == ls,
            ethernet@ == "ethernet"@,
            loopback@ == "loopback"@,
            i <= rows@.len(),
            record_views(r@) == known_profiles(ls.take(i as int)),
        decreases rows@.len() - i,
    {
        let ghost pre = ls.take(i + 1);
        assert(pre.drop_last() == ls.take(i as int));
        assert(pre.last() == rows@[i as int]@);
        let parts = split_chars(rows[i].as_slice(), ':');
        proof {
            crate::text::lemma_split_on_nonempty(rows@[i as int]@, ':');
            assert(views(parts@).len() == parts@.len());
            assert(parts@[0]@ == split_on(pre.last(), ':')[0]);
        }
        let name = &parts[0];
        if !has_infix(name.as_slice(), ethernet.as_slice()) && !has_infix(
            name.as_slice(),
            loopback.as_slice(),
        ) {
            let rec = NetworkRecord {
                ssid: string_of(name.as_slice()),
                signal_strength: 0,
                security: String::new(),
                is_known: true,
            };
            proof {
                assert(record_views(r@.push(rec)) == record_views(r@).push(rec@));
            }
            r.push(rec);
        }
        i = i + 1;
    }
    assert(ls.take(rows@.len() as int) == ls);
    r
}

/// The signal of a scan row's field: its decimal value, or 0.
pub open spec fn signal_of(t: Seq<char>) -> i32 {
    match int_value(t) {
        Some(v) => v,
        None => 0,
    }
}

/// A scan row `SSID:SIGNAL:SECURITY:IN-USE` with a non-empty ssid.
pub open spec fn scan_row(l: Seq<char>) -> Option<(Seq<char>, i32, Seq<char>)> {
    let p = split_on(l, ':');
    if p.len() >= 4 && p[0].len() > 0 {
        Some((p[0], signal_of(p[1]), p[2]))
    } else {
        None
    }
}

/// Index of the first record named `ssid`.
pub open spec fn find_ssid(s: Seq<NetworkView>, ssid: Seq<char>) -> Option<int>
    decreases s.len(),
{
    if s.len() == 0 {
        None
    } else if s[0].ssid == ssid {
        Some(0)
    } else {
        match find_ssid(s.skip(1), ssid) {
            Some(i) => Some(i + 1),
            None => None,
        }
    }
}

/// Known profiles and unknown networks after the scan rows `rows`: a scanned
/// network that is a known profile gives that profile its signal and security;
/// any other joins the unknown networks, where a network scanned more than
/// once keeps its strongest row (the first of equally strong ones).
pub open spec fn merge_rows(known: Seq<NetworkView>, rows: Seq<Seq<char>>) -> (
    Seq<NetworkView>,
    Seq<NetworkView>,
)
    decreases rows.len(),
{
    if rows.len() == 0 {
        (known, Seq::empty())
    } else {
        let (k, a) = merge_rows(known, rows.drop_last());
        match scan_row(rows.last()) {
            None => (k, a),
            Some((ssid, signal, security)) => match find_ssid(k, ssid) {
                Some(i) => (k.update(i, NetworkView { signal, security, ..k[i] }), a),
                None => match find_ssid(a, ssid) {
                    Some(j) => if a[j].signal < signal {
                        (k, a.update(j, NetworkView { ssid, signal, security, is_known: false }))
                    } else {
                        (k, a)
                    },
                    None => (k, a.push(NetworkView { ssid, signal, security, is_known: false })),
                },
            },
        }
    }
}

/// `x` placed before the first record of `s` with a weaker signal.
pub open spec fn insert_by_signal(s: Seq<NetworkView>, x: NetworkView) -> Seq<NetworkView>
    decreases s.len(),
{
    if s.len() == 0 {
        seq![x]
    } else if s[0].signal < x.signal {
        seq![x] + s
    } else {
        seq![s[0]] + insert_by_signal(s.skip(1), x)
    }
}

/// `s` ordered by descending signal; records of equal signal keep their order.
pub open spec fn sort_by_signal(s: Seq<NetworkView>) -> Seq<NetworkView>
    decreases s.len(),
{
    if s.len() == 0 {
        s
    } else {
        insert_by_signal(sort_by_signal(s.drop_last()), s.last())
    }
}

pub open spec fn signal_descending(s: Seq<NetworkView>) -> bool {
    forall|i: int, j: int| 0 <= i < j < s.len() ==> s[i].signal >= s[j].signal
}

/// The known and unknown networks that two listings describe, each by
/// descending signal.
pub open spec fn inventory(known_rows: Seq<Seq<char>>, scan_rows: Seq<Seq<char>>) -> (
    Seq<NetworkView>,
    Seq<NetworkView>,
) {
    let (k, a) = merge_rows(known_profiles(known_rows), scan_rows);
    (sort_by_signal(k), sort_by_signal(a))
}

proof fn lemma_insert_at(s: Seq<NetworkView>, x: NetworkView, pos: int)
    requires
        0 <= pos <= s.len(),
        forall|j: int| 0 <= j < pos ==> s[j].signal >= x.signal,
        pos == s.len() || s[pos].signal < x.signal,
    ensures
        insert_by_signal(s, x) == s.insert(pos, x),
    decreases s.len(),
{
    if s.len() > 0 && pos > 0 {
        assert forall|j: int| 0 <= j < pos - 1 implies s.skip(1)[j].signal >= x.signal by {
            assert(s.skip(1)[j] == s[j + 1]);
        }
        lemma_insert_at(s.skip(1), x, pos - 1);
        assert(seq![s[0]] + s.skip(1).insert(pos - 1, x) == s.insert(pos, x));
    } else if s.len() > 0 {
        assert(seq![x] + s == s.insert(0, x));
    } else {
        assert(seq![x] == s.insert(0, x));
    }
}

proof fn lemma_insert_keeps_order(s: Seq<NetworkView>, x: NetworkView)
    requires
        signal_descending(s),
    ensures
        signal_descending(insert_by_signal(s, x)),
        insert_by_signal(s, x).to_multiset() == s.to_multiset().insert(x),
    decreases s.len(),
{
    broadcast use vstd::seq_lib::group_to_multiset_ensures;
    if s.len() == 0 {
        assert(seq![x] == s.push(x));
    } else if s[0].signal < x.signal {
        assert(seq![x] + s == s.insert(0, x));
        s.insert_ensures(0, x);
        assert(s.to_multiset().insert(x) =~= s.insert(0, x).to_multiset()) by {
            vstd::seq_lib::lemma_multiset_commutative(seq![x], s);
            assert(seq![x].to_multiset() =~= vstd::multiset::Multiset::empty().insert(x)) by {
                assert(seq![x] == Seq::<NetworkView>::empty().push(x));
            }
        }
    } else {
        let t = s.skip(1);
        assert forall|i: int, j: int| 0 <= i < j < t.len() implies t[i].signal >= t[j].signal by {
            assert(t[i] == s[i + 1] && t[j] == s[j + 1]);
        }
        lemma_insert_keeps_order(t, x);
        let u = insert_by_signal(t, x);
        assert(s =~= seq![s[0]] + t);
        assert forall|i: int, j: int| 0 <= i < j < u.len() + 1 implies (seq![s[0]] + u)[i].signal
            >= (seq![s[0]] + u)[j].signal by {
            if i == 0 {
                assert(u.to_multiset().count(u[j - 1]) > 0);
                assert(t.to_multiset().insert(x).count(u[j - 1]) > 0);
                if u[j - 1] != x {
                    assert(t.to_multiset().count(u[j - 1]) > 0);
                    let k = choose|k: int| 0 <= k < t.len() && t[k] == u[j - 1];
                    assert(t[k] == s[k + 1]);
                }
            }
        }
        vstd::seq_lib::lemma_multiset_commutative(seq![s[0]], u);
        vstd::seq_lib::lemma_multiset_commutative(seq![s[0]], t);
    }
}

/// Sorting by signal orders the records by descending signal and keeps each of them.
pub proof fn lemma_sort_by_signal(s: Seq<NetworkView>)
    ensures
        signal_descending(sort_by_signal(s)),
        sort_by_signal(s).to_multiset() == s.to_multiset(),
    decreases s.len(),
{
    broadcast use vstd::seq_lib::group_to_multiset_ensures;
    if s.len() > 0 {
        lemma_sort_by_signal(s.drop_last());
        lemma_insert_keeps_order(sort_by_signal(s.drop_last()), s.last());
        assert(s.drop_last().push(s.last()) == s);
    }
}

/// After a re-scan the known profiles and the unknown networks are each
/// ordered by descending signal, and each keeps every record the merge made.
pub proof fn lemma_inventory_sorted(known_rows: Seq<Seq<char>>, scan_rows: Seq<Seq<char>>)
    ensures
        signal_descending(inventory(known_rows, scan_rows).0),
        signal_descending(inventory(known_rows, scan_rows).1),
        inventory(known_rows, scan_rows).0.to_multiset() == merge_rows(
            known_profiles(known_rows),
            scan_rows,
        ).0.to_multiset(),
        inventory(known_rows, scan_rows).1.to_multiset() == merge_rows(
            known_profiles(known_rows),
            scan_rows,
        ).1.to_multiset(),
{
    let (k, a) = merge_rows(known_profiles(known_rows), scan_rows);
    lemma_sort_by_signal(k);
    lemma_sort_by_signal(a);
}

/// `v` ordered by descending signal, records of equal signal in their old order.
pub fn sort_records(v: &Vec<NetworkRecord>) -> (r: Vec<NetworkRecord>)
    ensures
        record_views(r@) == sort_by_signal(record_views(v@)),
{
    let ghost src = record_views(v@);
    let mut r: Vec<NetworkRecord> = Vec::new();
    let mut i: usize = 0;
    while i < v.len()
        invariant
            src == record_views(v@),
            i <= v@.len(),
            record_views(r@) == sort_by_signal(src.take(i as int)),
        decreases v@.len() - i,
    {
        let x = v[i].duplicate();
        let ghost sorted = record_views(r@);
        let mut pos: usize = 0;
        while pos < r.len() && r[pos].signal_strength >= x.signal_strength
            invariant
                sorted == record_views(r@),
                pos <= r@.len(),
                forall|j: int| 0 <= j < pos ==> sorted[j].signal >= x@.signal,
            decreases r@.len() - pos,
        {
            pos = pos + 1;
        }
        proof {
            lemma_insert_at(sorted, x@, pos as int);
            assert(src.take(i + 1).drop_last() == src.take(i as int));
            assert(src.take(i + 1).last() == x@);
        }
        let ghost xv = x@;
        r.insert(pos, x);
        assert(record_views(r@) == sorted.insert(pos as int, xv));
        i = i + 1;
    }
    assert(src.take(v@.len() as int) == src);
    r
}

/// The first record of `v` named `ssid`.
fn position_of(v: &Vec<NetworkRecord>, ssid: &String) -> (r: Option<usize>)
    ensures
        match r {
            Some(i) => i < v@.len() && find_ssid(record_views(v@), ssid@) == Some(i as int),
            None => find_ssid(record_views(v@), ssid@) is None,
        },
{
    let ghost s = record_views(v@);
    let mut i: usize = 0;
    while i < v.len()
        invariant
            s == record_views(v@),
            i <= v@.len(),
            forall|j: int| 0 <= j < i ==> s[j].ssid != ssid@,
        decreases v@.len() - i,
    {
        if v[i].ssid == *ssid {
            proof {
                lemma_find_ssid(s, ssid@, i as int);
            }
            return Some(i);
        }
        i = i + 1;
    }
    proof {
        lemma_find_ssid(s, ssid@, i as int);
    }
    None
}

proof fn lemma_find_ssid(s: Seq<NetworkView>, ssid: Seq<char>, i: int)
    requires
        0 <= i <= s.len(),
        forall|j: int| 0 <= j < i ==> s[j].ssid != ssid,
        i == s.len() || s[i].ssid == ssid,
    ensures
        find_ssid(s, ssid) == (if i == s.len() {
            None::<int>
        } else {
            Some(i)
        }),
    decreases s.len(),
{
    if s.len() > 0 && i > 0 {
        assert forall|j: int| 0 <= j < i - 1 implies s.skip(1)[j].ssid != ssid by {
            assert(s.skip(1)[j] == s[j + 1]);
        }
        lemma_find_ssid(s.skip(1), ssid, i - 1);
    }
}

/// The known and unknown networks that a `NAME:UUID` profile listing and an
/// `SSID:SIGNAL:SECURITY:IN-USE` scan listing describe, each by descending signal.
pub fn get_networks(known_output: &str, scan_output: &str) -> (r: (
    Vec<NetworkRecord>,
    Vec<NetworkRecord>,
))
    ensures
        (record_views(r.0@), record_views(r.1@)) == inventory(
            lines(known_output@),
            lines(scan_output@),
        ),
{
    let mut known = parse_known(known_output);
    let mut available: Vec<NetworkRecord> = Vec::new();
    let text = chars_of(scan_output);
    let rows = lines_of(text.as_slice());
    let ghost k0 = record_views(known@);
    let ghost ls = lines(scan_output@);
    let mut i: usize = 0;
    while i < rows.len()
        invariant
            views(rows@) == ls,
            i <= rows@.len(),
            (record_views(known@), record_views(available@)) == merge_rows(
                k0,
                ls.take(i as int),
            ),
        decreases rows@.len() - i,
    {
        let ghost pre = ls.take(i + 1);
        assert(pre.drop_last() == ls.take(i as int));
        assert(pre.last() == rows@[i as int]@);
        let parts = split_chars(rows[i].as_slice(), ':');
        assert(views(parts@).len() == parts@.len());
        if parts.len() >= 4 && parts[0].len() > 0 {
            proof {
                let p = split_on(pre.last(), ':');
                assert(parts@[0]@ == p[0]);
                assert(parts@[1]@ == p[1]);
                assert(parts@[2]@ == p[2]);
            }
            let ssid = string_of(parts[0].as_slice());
            let signal = match parse_int(parts[1].as_slice()) {
                Some(v) => v,
                None => 0,
            };
            let security = string_of(parts[2].as_slice());
            match position_of(&known, &ssid) {
                Some(j) => {
                    let rec = NetworkRecord {
                        ssid: known[j].ssid.clone(),
                        signal_strength: signal,
                        security,
                        is_known: known[j].is_known,
                    };
                    let ghost before = record_views(known@);
                    let ghost old_known = known@;
                    assert(rec@ == NetworkView { signal, security: rec@.security, ..before[j as int] });
                    known.set(j, rec);
                    assert(record_views(old_known.update(j as int, rec)) == before.update(j as int, rec@));
                },
                None => {
                    let seen = position_of(&available, &ssid);
                    let rec = NetworkRecord {
                        ssid,
                        signal_strength: signal,
                        security,
                        is_known: false,
                    };
                    match seen {
                        Some(j) => {
                            if available[j].signal_strength < signal {
                                let ghost before = record_views(available@);
                                let ghost old_avail = available@;
                                available.set(j, rec);
                                assert(record_views(old_avail.update(j as int, rec)) == before.update(
                                    j as int,
                                    rec@,
                                ));
                            }
                        },
                        None => {
                            proof {
                                assert(record_views(available@.push(rec)) == record_views(
                                    available@,
                                ).push(rec@));
                            }
                            available.push(rec);
                        },
                    }
                },
            }
        } else {
            proof {
                let p = split_on(pre.last(), ':');
                if p.len() >= 4 {
                    assert(parts@[0]@ == p[0]);
                }
            }
        }
        i = i + 1;
    }
    assert(ls.take(rows@.len() as int) == ls);
    (sort_records(&known), sort_records(&available))
}

// ---------------------------------------------------------------------------
// The network widget's state
// ---------------------------------------------------------------------------

/// Milliseconds between two connection status checks.
pub const NETWORK_POLL_MS: u64 = 1000;

/// Width and height of a panel, in logical pixels.
#[derive(PartialEq, Eq, Structural, Clone, Copy, Debug)]
pub struct WidgetSize {
    pub width: u32,
    pub height: u32,
}

/// What the network widget holds.
pub struct NetworkState {
    pub connection: Option<Seq<char>>,
    pub known: Seq<NetworkView>,
    pub available: Seq<NetworkView>,
    pub last_update: u64,
    pub expanded: Option<Seq<char>>,
    pub colors: Colors,
    pub size: WidgetSize,
}

/// The connected network, the saved profiles and the unknown networks in range.
pub struct NetworkWidget {
    colors: Colors,
    connection_state: ConnectionState,
    known_networks: Vec<NetworkRecord>,
    available_networks: Vec<NetworkRecord>,
    last_update: u64,
    expanded_network: Option<String>,
    size: WidgetSize,
}

impl View for NetworkWidget {
    type V = NetworkState;

    closed spec fn view(&self) -> NetworkState {
        NetworkState {
            connection: self.connection_state.ssid(),
            known: record_views(self.known_networks@),
            available: record_views(self.available_networks@),
            last_update: self.last_update,
            expanded: match self.expanded_network {
                Some(s) => Some(s@),
                None => None,
            },
            colors: self.colors,
            size: self.size,
        }
    }
}

/// Whether the connection differs from the one held before.
pub open spec fn connection_changed(old: Option<Seq<char>>, new: Option<Seq<char>>) -> bool {
    old != new
}

/// A full re-scan is due when the connection changed or nothing is listed.
pub open spec fn rescan_due(s: NetworkState, new: Option<Seq<char>>) -> bool {
    connection_changed(s.connection, new) || (s.known.len() == 0 && s.available.len() == 0)
}

/// The first record of `s` named `ssid` with a positive signal.
pub open spec fn first_live(s: Seq<NetworkView>, ssid: Seq<char>) -> Option<NetworkView>
    decreases s.len(),
{
    if s.len() == 0 {
        None
    } else if s[0].ssid == ssid && s[0].signal > 0 {
        Some(s[0])
    } else {
        first_live(s.skip(1), ssid)
    }
}

/// Some row of `rows` shows the network named `n`.
pub open spec fn shows_name(rows: Seq<(NetworkView, bool)>, n: Seq<char>) -> bool {
    exists|i: int| 0 <= i < rows.len() && rows[i].0.ssid == n
}

/// No two rows show the same network name.
pub open spec fn distinct_names(rows: Seq<(NetworkView, bool)>) -> bool {
    forall|i: int, j: int| 0 <= i < j < rows.len() ==> rows[i].0.ssid != rows[j].0.ssid
}

/// `rows` followed by the records of `s`, in order, that have a positive
/// signal, are not the connected network and whose name no row shows yet.
pub open spec fn add_rows(
    rows: Seq<(NetworkView, bool)>,
    s: Seq<NetworkView>,
    current: Option<Seq<char>>,
) -> Seq<(NetworkView, bool)>
    decreases s.len(),
{
    if s.len() == 0 {
        rows
    } else {
        let r = add_rows(rows, s.drop_last(), current);
        let x = s.last();
        if current != Some(x.ssid) && x.signal > 0 && !shows_name(r, x.ssid) {
            r.push((x, false))
        } else {
            r
        }
    }
}

/// The row of the connected network, when it is in range.
pub open spec fn connected_row(s: NetworkState) -> Seq<(NetworkView, bool)> {
    match s.connection {
        None => Seq::empty(),
        Some(c) => match first_live(s.known, c) {
            Some(r) => seq![(r, true)],
            None => match first_live(s.available, c) {
                Some(r) => seq![(r, true)],
                None => Seq::empty(),
            },
        },
    }
}

/// The rows shown: the connected network, then the known and the unknown
/// networks in range, each name once, each row flagged as connected or not.
pub open spec fn display_rows(s: NetworkState) -> Seq<(NetworkView, bool)> {
    add_rows(add_rows(connected_row(s), s.known, s.connection), s.available, s.connection)
}

proof fn lemma_first_live(s: Seq<NetworkView>, ssid: Seq<char>)
    ensures
        match first_live(s, ssid) {
            Some(r) => r.ssid == ssid && r.signal > 0,
            None => forall|i: int| 0 <= i < s.len() ==> !(s[i].ssid == ssid && s[i].signal > 0),
        },
    decreases s.len(),
{
    if s.len() > 0 {
        lemma_first_live(s.skip(1), ssid);
        if first_live(s, ssid) is None {
            assert forall|i: int| 0 <= i < s.len() implies !(s[i].ssid == ssid && s[i].signal
                > 0) by {
                if i > 0 {
                    assert(s[i] == s.skip(1)[i - 1]);
                }
            }
        }
    }
}

proof fn lemma_add_rows(
    rows: Seq<(NetworkView, bool)>,
    s: Seq<NetworkView>,
    current: Option<Seq<char>>,
)
    ensures
        add_rows(rows, s, current).len() >= rows.len(),
        forall|i: int| 0 <= i < rows.len() ==> #[trigger] add_rows(rows, s, current)[i] == rows[i],
        forall|i: int|
            rows.len() <= i < add_rows(rows, s, current).len() ==> (#[trigger] add_rows(
                rows,
                s,
                current,
            )[i]).0.signal > 0 && !add_rows(rows, s, current)[i].1 && current != Some(
                add_rows(rows, s, current)[i].0.ssid,
            ),
        distinct_names(rows) ==> distinct_names(add_rows(rows, s, current)),
    decreases s.len(),
{
    if s.len() > 0 {
        lemma_add_rows(rows, s.drop_last(), current);
        let r = add_rows(rows, s.drop_last(), current);
        let x = s.last();
        if current != Some(x.ssid) && x.signal > 0 && !shows_name(r, x.ssid) {
            let t = r.push((x, false));
            assert(add_rows(rows, s, current) == t);
            assert forall|i: int| 0 <= i < rows.len() implies #[trigger] t[i] == rows[i] by {
                assert(t[i] == r[i]);
            }
            assert forall|i: int| rows.len() <= i < t.len() implies (#[trigger] t[i]).0.signal > 0
                && !t[i].1 && current != Some(t[i].0.ssid) by {
                if i < r.len() {
                    assert(t[i] == r[i]);
                }
            }
            if distinct_names(rows) {
                assert forall|i: int, j: int| 0 <= i < j < t.len() implies t[i].0.ssid
                    != t[j].0.ssid by {
                    assert(t[i] == r[i]);
                    if j < r.len() {
                        assert(t[j] == r[j]);
                    } else if t[i].0.ssid == x.ssid {
                        assert(shows_name(r, x.ssid));
                    }
                }
            }
        }
    }
}

/// No row shown has a signal of 0 or less, and no network name is shown twice.
pub proof fn lemma_display_rows_live(s: NetworkState)
    ensures
        forall|i: int|
            0 <= i < display_rows(s).len() ==> (#[trigger] display_rows(s)[i]).0.signal > 0,
        distinct_names(display_rows(s)),
{
    match s.connection {
        Some(c) => {
            lemma_first_live(s.known, c);
            lemma_first_live(s.available, c);
        },
        None => {},
    }
    let a = connected_row(s);
    let b = add_rows(a, s.known, s.connection);
    let d = add_rows(b, s.available, s.connection);
    lemma_add_rows(a, s.known, s.connection);
    lemma_add_rows(b, s.available, s.connection);
    assert forall|i: int| 0 <= i < d.len() implies (#[trigger] d[i]).0.signal > 0 by {
        if i < b.len() {
            assert(d[i] == b[i]);
            if i < a.len() {
                assert(b[i] == a[i]);
            }
        }
    }
}

/// When the connected network is listed with a positive signal, it is the
/// first row shown, flagged as connected; no other row is so flagged.
pub proof fn lemma_connected_first(s: NetworkState, c: Seq<char>)
    requires
        s.connection == Some(c),
        exists|i: int| 0 <= i < s.known.len() && s.known[i].ssid == c && s.known[i].signal > 0
            || exists|i: int|
            0 <= i < s.available.len() && s.available[i].ssid == c && s.available[i].signal > 0,
    ensures
        display_rows(s).len() > 0,
        display_rows(s)[0].0.ssid == c,
        display_rows(s)[0].0.signal > 0,
        display_rows(s)[0].1,
        forall|i: int| 1 <= i < display_rows(s).len() ==> !(#[trigger] display_rows(s)[i]).1,
{
    lemma_first_live(s.known, c);
    lemma_first_live(s.available, c);
    let a = connected_row(s);
    let b = add_rows(a, s.known, s.connection);
    let d = add_rows(b, s.available, s.connection);
    lemma_add_rows(a, s.known, s.connection);
    lemma_add_rows(b, s.available, s.connection);
    assert(a.len() == 1);
    assert(d[0] == b[0] && b[0] == a[0]);
    assert forall|i: int| 1 <= i < d.len() implies !(#[trigger] d[i]).1 by {
        if i < b.len() {
            assert(d[i] == b[i]);
        }
    }
}

/// The first record of `v` named `ssid` with a positive signal.
fn find_live(v: &Vec<NetworkRecord>, ssid: &String) -> (r: Option<NetworkRecord>)
    ensures
        match (r, first_live(record_views(v@), ssid@)) {
            (Some(x), Some(y)) => x@ == y,
            (None, None) => true,
            _ => false,
        },
{
    let ghost s = record_views(v@);
    assert(s.skip(0) == s);
    let mut i: usize = 0;
    while i < v.len()
        invariant
            s == record_views(v@),
            i <= v@.len(),
            first_live(s, ssid@) == first_live(s.skip(i as int), ssid@),
        decreases v@.len() - i,
    {
        assert(s.skip(i as int)[0] == v@[i as int]@);
        assert(s.skip(i as int).skip(1) == s.skip(i + 1));
        if v[i].ssid == *ssid && v[i].signal_strength > 0 {
            return Some(v[i].duplicate());
        }
        i = i + 1;
    }
    assert(s.skip(i as int).len() == 0);
    None
}

/// Whether a row of `out` shows the network named `ssid`.
fn shows_network(out: &Vec<(NetworkRecord, bool)>, ssid: &String) -> (r: bool)
    ensures
        r == shows_name(row_views(out@), ssid@),
{
    let ghost rows = row_views(out@);
    let mut i: usize = 0;
    while i < out.len()
        invariant
            rows == row_views(out@),
            i <= out@.len(),
            forall|j: int| 0 <= j < i ==> rows[j].0.ssid != ssid@,
        decreases out@.len() - i,
    {
        if out[i].0.ssid == *ssid {
            assert(rows[i as int].0.ssid == ssid@);
            return true;
        }
        i = i + 1;
    }
    false
}

/// Appends the records of `v` with a positive signal that are not the
/// connected one and whose name no row shows yet.
fn push_other_rows(
    out: &mut Vec<(NetworkRecord, bool)>,
    v: &Vec<NetworkRecord>,
    current: &Option<String>,
)
    ensures
        row_views(final(out)@) == add_rows(
            row_views(old(out)@),
            record_views(v@),
            match current {
                Some(c) => Some(c@),
                None => None,
            },
        ),
{
    let ghost cur = match current {
        Some(c) => Some(c@),
        None => None,
    };
    let ghost s = record_views(v@);
    let ghost start = row_views(out@);
    let mut i: usize = 0;
    while i < v.len()
        invariant
            s == record_views(v@),
            cur == (match current {
                Some(c) => Some(c@),
                None => None::<Seq<char>>,
            }),
            i <= v@.len(),
            row_views(out@) == add_rows(start, s.take(i as int), cur),
        decreases v@.len() - i,
    {
        let ghost pre = s.take(i + 1);
        assert(pre.drop_last() == s.take(i as int));
        assert(pre.last() == v@[i as int]@);
        let is_current = match current {
            Some(c) => v[i].ssid == *c,
            None => false,
        };
        if !is_current && v[i].signal_strength > 0 && !shows_network(out, &v[i].ssid) {
            let row = (v[i].duplicate(), false);
            proof {
                assert(row_views(out@.push(row)) == row_views(out@).push((row.0@, false)));
            }
            out.push(row);
        }
        i = i + 1;
    }
    assert(s.take(v@.len() as int) == s);
}

pub open spec fn row_views(v: Seq<(NetworkRecord, bool)>) -> Seq<(NetworkView, bool)> {
    v.map_values(|r: (NetworkRecord, bool)| (r.0@, r.1))
}

/// How strong a signal looks.
#[derive(PartialEq, Eq, Structural, Clone, Copy, Debug)]
pub enum SignalLevel {
    High,
    Medium,
    Low,
    Weak,
    Faint,
}

/// The level of a signal strength: 80 and over high, 60 medium, 40 low,
/// 20 weak, below that faint.
pub fn get_signal_icon(strength: i32) -> (r: SignalLevel)
    ensures
        r == (if strength >= 80 {
            SignalLevel::High
        } else if strength >= 60 {
            SignalLevel::Medium
        } else if strength >= 40 {
            SignalLevel::Low
        } else if strength >= 20 {
            SignalLevel::Weak
        } else {
            SignalLevel::Faint
        }),
{
    if strength >= 80 {
        SignalLevel::High
    } else if strength >= 60 {
        SignalLevel::Medium
    } else if strength >= 40 {
        SignalLevel::Low
    } else if strength >= 20 {
        SignalLevel::Weak
    } else {
        SignalLevel::Faint
    }
}

/// Whether a network's security is worth showing: set and not `none`.
pub fn shows_security(security: &str) -> (r: bool)
    ensures
        r == (security@.len() > 0 && security@ != "none"@),
{
    let s = chars_of(security);
    let none = chars_of("none");
    s.len() > 0 && !same_chars(s.as_slice(), none.as_slice())
}

/// The short name of a security setting: the first of WPA2, WPA3, WPA, WEP
/// that it mentions, else the setting itself.
pub fn security_label(security: &str) -> (r: String)
    ensures
        r@ == (if contains(security@, "WPA2"@) {
            "WPA2"@
        } else if contains(security@, "WPA3"@) {
            "WPA3"@
        } else if contains(security@, "WPA"@) {
            "WPA"@
        } else if contains(security@, "WEP"@) {
            "WEP"@
        } else {
            security@
        }),
{
    let s = chars_of(security);
    let wpa2 = chars_of("WPA2");
    let wpa3 = chars_of("WPA3");
    let wpa = chars_of("WPA");
    let wep = chars_of("WEP");
    if has_infix(s.as_slice(), wpa2.as_slice()) {
        String::from_str("WPA2")
    } else if has_infix(s.as_slice(), wpa3.as_slice()) {
        String::from_str("WPA3")
    } else if has_infix(s.as_slice(), wpa.as_slice()) {
        String::from_str("WPA")
    } else if has_infix(s.as_slice(), wep.as_slice()) {
        String::from_str("WEP")
    } else {
        String::from_str(security)
    }
}

/// The controls of an expanded row.
#[derive(PartialEq, Eq, Structural, Clone, Copy, Debug)]
pub enum RowControls {
    /// Disconnect and forget.
    Connected,
    /// Connect and forget.
    Saved,
    /// Connect only.
    Unsaved,
}

/// The controls of an expanded row: the connected network can be left or
/// forgotten, a saved one joined or forgotten, any other only joined.
pub fn row_controls(is_connected: bool, is_known: bool) -> (r: RowControls)
    ensures
        r == (if is_connected {
            RowControls::Connected
        } else if is_known {
            RowControls::Saved
        } else {
            RowControls::Unsaved
        }),
{
    if is_connected {
        RowControls::Connected
    } else if is_known {
        RowControls::Saved
    } else {
        RowControls::Unsaved
    }
}

impl NetworkWidget {
    /// A widget with nothing listed yet, last refreshed at `now` (milliseconds).
    pub fn new(colors: Colors, now: u64) -> (w: NetworkWidget)
        ensures
            w@.connection is None,
            w@.known.len() == 0,
            w@.available.len() == 0,
            w@.last_update == now,
            w@.expanded is None,
            w@.colors == colors,
            w@.size == (WidgetSize { width: 400, height: 434 }),
    {
        let w = NetworkWidget {
            colors,
            connection_state: ConnectionState::Disconnected,
            known_networks: Vec::new(),
            available_networks: Vec::new(),
            last_update: now,
            expanded_network: None,
            size: WidgetSize { width: 400, height: 434 },
        };
        proof {
            assert(record_views(w.known_networks@).len() == 0);
            assert(record_views(w.available_networks@).len() == 0);
        }
        w
    }

    /// Whether the status check is due at `now`: more than a second since the last.
    pub fn should_update(&self, now: u64) -> (r: bool)
        ensures
            r == (now >= self@.last_update && now - self@.last_update > NETWORK_POLL_MS),
    {
        now >= self.last_update && now - self.last_update > NETWORK_POLL_MS
    }

    /// Takes in a status check made at `now`: the output of the
    /// `ACTIVE:SSID:SIGNAL` listing, or `None` when it failed. A failed check
    /// changes nothing but the time of the last refresh. Returns whether a full
    /// re-scan is due.
    pub fn update(&mut self, status: Option<&str>, now: u64) -> (rescan: bool)
        ensures
            final(self)@.last_update == now,
            final(self)@.known == old(self)@.known,
            final(self)@.available == old(self)@.available,
            final(self)@.expanded == old(self)@.expanded,
            final(self)@.colors == old(self)@.colors,
            final(self)@.size == old(self)@.size,
            match status {
                None => final(self)@.connection == old(self)@.connection && !rescan,
                Some(t) => final(self)@.connection == active_ssid(lines(t@)) && rescan
                    == rescan_due(old(self)@, active_ssid(lines(t@))),
            },
    {
        self.last_update = now;
        match status {
            None => false,
            Some(t) => {
                let current = parse_active_ssid(t);
                let changed = match (&self.connection_state, &current) {
                    (ConnectionState::Connected(old), Some(new)) => *old != *new,
                    (ConnectionState::Connected(_), None) => true,
                    (ConnectionState::Disconnected, Some(_)) => true,
                    _ => false,
                };
                self.connection_state = match current {
                    Some(c) => ConnectionState::Connected(c),
                    None => ConnectionState::Disconnected,
                };
                changed || (self.known_networks.len() == 0 && self.available_networks.len() == 0)
            },
        }
    }

    /// Takes in a full re-scan: the saved-profile listing and the scan listing.
    /// When either query failed (`None`) nothing changes.
    pub fn apply_networks(&mut self, known_output: Option<&str>, scan_output: Option<&str>)
        ensures
            final(self)@.connection == old(self)@.connection,
            final(self)@.last_update == old(self)@.last_update,
            final(self)@.expanded == old(self)@.expanded,
            final(self)@.colors == old(self)@.colors,
            final(self)@.size == old(self)@.size,
            match (known_output, scan_output) {
                (Some(k), Some(s)) => (final(self)@.known, final(self)@.available) == inventory(
                    lines(k@),
                    lines(s@),
                ),
                _ => final(self)@.known == old(self)@.known && final(self)@.available == old(
                    self,
                )@.available,
            },
    {
        match (known_output, scan_output) {
            (Some(k), Some(s)) => {
                let (known, available) = get_networks(k, s);
                self.known_networks = known;
                self.available_networks = available;
            },
            _ => {},
        }
    }

    /// The rows to show, in order, each with whether it is the connected network.
    pub fn display_list(&self) -> (r: Vec<(NetworkRecord, bool)>)
        ensures
            row_views(r@) == display_rows(self@),
            forall|i: int| 0 <= i < r@.len() ==> (#[trigger] r@[i]).0.signal_strength > 0,
            forall|i: int, j: int| 0 <= i < j < r@.len() ==> r@[i].0.ssid@ != r@[j].0.ssid@,
    {
        let mut out: Vec<(NetworkRecord, bool)> = Vec::new();
        let current = self.connection_state.current();
        match &current {
            Some(c) => {
                let found = match find_live(&self.known_networks, c) {
                    Some(x) => Some(x),
                    None => find_live(&self.available_networks, c),
                };
                match found {
                    Some(x) => {
                        let ghost xv = x@;
                        out.push((x, true));
                        assert(row_views(out@) == seq![(xv, true)]);
                    },
                    None => {},
                }
            },
            None => {},
        }
        assert(row_views(out@) == connected_row(self@));
        push_other_rows(&mut out, &self.known_networks, &current);
        push_other_rows(&mut out, &self.available_networks, &current);
        proof {
            lemma_display_rows_live(self@);
            let rows = row_views(out@);
            assert forall|i: int| 0 <= i < out@.len() implies (#[trigger] out@[i]).0.signal_strength
                > 0 by {
                assert(rows[i].0.signal > 0);
            }
            assert forall|i: int, j: int| 0 <= i < j < out@.len() implies out@[i].0.ssid@
                != out@[j].0.ssid@ by {
                assert(rows[i].0.ssid != rows[j].0.ssid);
            }
        }
        out
    }

    /// Opens the row of `ssid`, or closes it when it is the open one.
    pub fn toggle_expanded(&mut self, ssid: &str)
        ensures
            final(self)@.expanded == (if old(self)@.expanded == Some(ssid@) {
                None
            } else {
                Some(ssid@)
            }),
            final(self)@.connection == old(self)@.connection,
            final(self)@.known == old(self)@.known,
            final(self)@.available == old(self)@.available,
            final(self)@.last_update == old(self)@.last_update,
    {
        let s = String::from_str(ssid);
        let same = match &self.expanded_network {
            Some(e) => *e == s,
            None => false,
        };
        if same {
            self.expanded_network = None;
        } else {
            self.expanded_network = Some(s);
        }
    }

    /// Whether the row of `ssid` is open.
    pub fn is_expanded(&self, ssid: &str) -> (r: bool)
        ensures
            r == (self@.expanded == Some(ssid@)),
    {
        let s = String::from_str(ssid);
        match &self.expanded_network {
            Some(e) => *e == s,
            None => false,
        }
    }

    pub fn colors(&self) -> (r: &Colors)
        ensures
            *r == self@.colors,
    {
        &self.colors
    }

    pub fn size(&self) -> (r: WidgetSize)
        ensures
            r == self@.size,
    {
        self.size
    }

    /// The connection as last reported.
    pub fn connection_state(&self) -> (r: &ConnectionState)
        ensures
            r.ssid() == self@.connection,
    {
        &self.connection_state
    }

    /// The saved profiles, by descending signal.
    pub fn known_networks(&self) -> (r: &Vec<NetworkRecord>)
        ensures
            record_views(r@) == self@.known,
    {
        &self.known_networks
    }

    /// The unknown networks in range, by descending signal.
    pub fn available_networks(&self) -> (r: &Vec<NetworkRecord>)
        ensures
            record_views(r@) == self@.available,
    {
        &self.available_networks
    }
}

} // verus!
