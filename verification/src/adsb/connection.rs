//! Feed connection bookkeeping: counting feeds by state, counting distinct
//! aircraft across feeds, the status summary shown to the user, and the plan
//! of which connections to drop and start when the feed configuration
//! changes. Threads, sockets and the ADS-B client stay outside.

use vstd::prelude::*;

use crate::text::{dec, push_decimal};

verus! {

/// State of one feed connection.
#[derive(Debug, Clone, Copy, PartialEq, Eq, Structural)]
pub enum FeedLinkState {
    Disconnected,
    Connecting,
    Connected,
    Error,
}

/// Whether a feed is in `target` state.
pub open spec fn in_state(target: FeedLinkState) -> spec_fn(FeedLinkState) -> bool {
    |s: FeedLinkState| s == target
}

/// Number of feeds in `target` state.
pub open spec fn count_state(states: Seq<FeedLinkState>, target: FeedLinkState) -> nat {
    states.filter(in_state(target)).len()
}

/// Number of feeds whose connection is in `target` state.
pub fn count_in_state(states: &Vec<FeedLinkState>, target: FeedLinkState) -> (r: usize)
    ensures
        r == count_state(states@, target),
{
    let ghost p = in_state(target);
    let mut n: usize = 0;
    let mut i: usize = 0;
    while i < states.len()
        invariant
            i <= states@.len(),
            p == in_state(target),
            n == states@.take(i as int).filter(p).len(),
            n <= i,
        decreases states@.len() - i,
    {
        proof {
            assert(states@.take(i as int).push(states@[i as int]) =~= states@.take(i + 1));
            states@.take(i as int).lemma_filter_push(states@[i as int], p);
        }
        if states[i] == target {
            n = n + 1;
        }
        i = i + 1;
    }
    proof {
        assert(states@.take(i as int) =~= states@);
    }
    n
}

/// The views of a run of strings.
pub open spec fn string_views(s: Seq<String>) -> Seq<Seq<char>> {
    s.map_values(|x: String| x@)
}

/// Number of distinct aircraft among the ICAO addresses reported by all
/// feeds (an aircraft seen by two feeds counts once).
pub fn unique_aircraft_count(icaos: &Vec<String>) -> (r: usize)
    ensures
        r == string_views(icaos@).to_set().len(),
{
    let ghost all = string_views(icaos@);
    let mut seen: Vec<String> = Vec::new();
    let mut i: usize = 0;
    proof {
        assert(string_views(seen@).to_set() =~= all.take(0).to_set());
    }
    while i < icaos.len()
        invariant
            i <= icaos@.len(),
            all == string_views(icaos@),
            string_views(seen@).no_duplicates(),
            string_views(seen@).to_set() == all.take(i as int).to_set(),
            seen@.len() <= i,
        decreases icaos@.len() - i,
    {
        let id = &icaos[i];
        let mut j: usize = 0;
        let mut found = false;
        while j < seen.len()
            invariant_except_break
                !found,
            invariant
                j <= seen@.len(),
                forall|k: int| 0 <= k < j ==> seen@[k]@ != id@,
            ensures
                found ==> string_views(seen@).contains(id@),
                !found ==> !string_views(seen@).contains(id@),
            decreases seen@.len() - j,
        {
            if seen[j] == *id {
                found = true;
                proof {
                    assert(string_views(seen@)[j as int] == id@);
                }
                break;
            }
            j = j + 1;
        }
        proof {
            assert(all.take(i as int).push(id@) =~= all.take(i + 1));
            all.take(i as int).lemma_push_to_set_commute(id@);
        }
        if !found {
            let ghost before = string_views(seen@);
            seen.push(id.clone());
            proof {
                assert(string_views(seen@) =~= before.push(id@));
                before.lemma_push_to_set_commute(id@);
            }
        } else {
            proof {
                assert(all.take(i + 1).to_set() =~= all.take(i as int).to_set());
            }
        }
        i = i + 1;
    }
    proof {
        assert(all.take(i as int) =~= all);
        string_views(seen@).unique_seq_to_set();
    }
    seen.len()
}

/// The overall state of the ADS-B feeds.
#[derive(Debug, Clone, Copy, PartialEq, Eq, Structural)]
pub enum FeedSummary {
    NoFeeds,
    AllConnected,
    Connecting,
    PartlyConnected,
    Disconnected,
}

pub open spec fn feed_summary_spec(total: usize, connected: usize, connecting: usize) -> FeedSummary {
    if total == 0 {
        FeedSummary::NoFeeds
    } else if connected == total {
        FeedSummary::AllConnected
    } else if connecting > 0 && connected == 0 {
        FeedSummary::Connecting
    } else if connected > 0 {
        FeedSummary::PartlyConnected
    } else {
        FeedSummary::Disconnected
    }
}

/// Summarizes `total` feeds of which `connected` are connected and
/// `connecting` are connecting.
pub fn feed_summary(total: usize, connected: usize, connecting: usize) -> (r: FeedSummary)
    ensures
        r == feed_summary_spec(total, connected, connecting),
{
    if total == 0 {
        FeedSummary::NoFeeds
    } else if connected == total {
        FeedSummary::AllConnected
    } else if connecting > 0 && connected == 0 {
        FeedSummary::Connecting
    } else if connected > 0 {
        FeedSummary::PartlyConnected
    } else {
        FeedSummary::Disconnected
    }
}

/// Color class of a status text.
#[derive(Debug, Clone, Copy, PartialEq, Eq, Structural)]
pub enum StatusTone {
    Dim,
    Success,
    Warn,
    Error,
}

/// The status line of the ADS-B indicator.
pub open spec fn connection_status_text_spec(
    total: usize,
    connected: usize,
    connecting: usize,
    aircraft: usize,
) -> Seq<char> {
    match feed_summary_spec(total, connected, connecting) {
        FeedSummary::NoFeeds => "ADS-B: No feeds"@,
        FeedSummary::AllConnected => "ADS-B: "@ + dec(aircraft as nat) + " aircraft"@,
        FeedSummary::Connecting => "ADS-B: Connecting..."@,
        FeedSummary::PartlyConnected => "ADS-B: "@ + dec(connected as nat) + "/"@ + dec(
            total as nat,
        ) + " feeds, "@ + dec(aircraft as nat) + " ac"@,
        FeedSummary::Disconnected => "ADS-B: Disconnected"@,
    }
}

/// The tone of the ADS-B indicator.
pub open spec fn connection_status_tone_spec(total: usize, connected: usize, connecting: usize) -> StatusTone {
    match feed_summary_spec(total, connected, connecting) {
        FeedSummary::NoFeeds => StatusTone::Error,
        FeedSummary::AllConnected => StatusTone::Success,
        FeedSummary::Connecting => StatusTone::Warn,
        FeedSummary::PartlyConnected => StatusTone::Warn,
        FeedSummary::Disconnected => StatusTone::Error,
    }
}

/// Text and tone of the aggregate ADS-B connection indicator.
pub fn connection_status_text(total: usize, connected: usize, connecting: usize, aircraft: usize) -> (r: (String, StatusTone))
    ensures
        r.0@ == connection_status_text_spec(total, connected, connecting, aircraft),
        r.1 == connection_status_tone_spec(total, connected, connecting),
{
    match feed_summary(total, connected, connecting) {
        FeedSummary::NoFeeds => (String::from_str("ADS-B: No feeds"), StatusTone::Error),
        FeedSummary::AllConnected => {
            let mut s = String::from_str("ADS-B: ");
            push_decimal(&mut s, aircraft as u64);
            s.append(" aircraft");
            (s, StatusTone::Success)
        },
        FeedSummary::Connecting => (String::from_str("ADS-B: Connecting..."), StatusTone::Warn),
        FeedSummary::PartlyConnected => {
            let mut s = String::from_str("ADS-B: ");
            push_decimal(&mut s, connected as u64);
            s.append("/");
            push_decimal(&mut s, total as u64);
            s.append(" feeds, ");
            push_decimal(&mut s, aircraft as u64);
            s.append(" ac");
            (s, StatusTone::Warn)
        },
        FeedSummary::Disconnected => (String::from_str("ADS-B: Disconnected"), StatusTone::Error),
    }
}

/// The feed label of the status bar.
pub open spec fn statusbar_feed_label_spec(total: usize, connected: usize, connecting: usize) -> Seq<char> {
    match feed_summary_spec(total, connected, connecting) {
        FeedSummary::NoFeeds => "No feeds"@,
        FeedSummary::AllConnected => dec(total as nat) + " feeds"@,
        FeedSummary::Connecting => "Connecting..."@,
        FeedSummary::PartlyConnected => dec(connected as nat) + "/"@ + dec(total as nat) + " feeds"@,
        FeedSummary::Disconnected => "Disconnected"@,
    }
}

/// The tone of the status bar's feed dot: like the indicator, except that no
/// feeds at all is dim rather than an error.
pub open spec fn statusbar_feed_tone_spec(total: usize, connected: usize, connecting: usize) -> StatusTone {
    match feed_summary_spec(total, connected, connecting) {
        FeedSummary::NoFeeds => StatusTone::Dim,
        _ => connection_status_tone_spec(total, connected, connecting),
    }
}

/// Label and dot tone of the status bar's feed section.
pub fn statusbar_feed_label(total: usize, connected: usize, connecting: usize) -> (r: (String, StatusTone))
    ensures
        r.0@ == statusbar_feed_label_spec(total, connected, connecting),
        r.1 == statusbar_feed_tone_spec(total, connected, connecting),
{
    match feed_summary(total, connected, connecting) {
        FeedSummary::NoFeeds => (String::from_str("No feeds"), StatusTone::Dim),
        FeedSummary::AllConnected => {
            let mut s = String::new();
            push_decimal(&mut s, total as u64);
            s.append(" feeds");
            (s, StatusTone::Success)
        },
        FeedSummary::Connecting => (String::from_str("Connecting..."), StatusTone::Warn),
        FeedSummary::PartlyConnected => {
            let mut s = String::new();
            push_decimal(&mut s, connected as u64);
            s.append("/");
            push_decimal(&mut s, total as u64);
            s.append(" feeds");
            (s, StatusTone::Warn)
        },
        FeedSummary::Disconnected => (String::from_str("Disconnected"), StatusTone::Error),
    }
}

/// Messages received since the last check: the counter difference, zero if
/// the counter went backwards (a feed restarted).
pub fn messages_since(current: u64, previous: u64) -> (r: u64)
    ensures
        r == if current >= previous { (current - previous) as u64 } else { 0u64 },
{
    current.saturating_sub(previous)
}

/// Wire protocol of an ADS-B feed.
#[derive(Debug, Clone, Copy, PartialEq, Eq, Structural)]
pub enum FeedProtocol {
    Sbs1,
    Beast,
}

/// The parts of a feed (or enrichment source) configuration that decide
/// whether its connection must be restarted.
pub struct FeedSourceConfig {
    pub id: String,
    pub endpoint: String,
    pub protocol: FeedProtocol,
    pub enabled: bool,
}

/// The configuration that counts for `id`: the last one with that id (later
/// entries replace earlier ones, as when they are collected into a map).
pub open spec fn last_with_id(d: Seq<FeedSourceConfig>, id: Seq<char>) -> Option<FeedSourceConfig>
    decreases d.len(),
{
    if d.len() == 0 {
        None
    } else if d.last().id@ == id {
        Some(d.last())
    } else {
        last_with_id(d.drop_last(), id)
    }
}

/// A running connection must stop when its feed is gone, disabled, or now
/// points elsewhere (another endpoint or, where protocols count, another
/// protocol).
pub open spec fn must_stop(c: FeedSourceConfig, desired: Seq<FeedSourceConfig>, check_protocol: bool) -> bool {
    match last_with_id(desired, c.id@) {
        None => true,
        Some(n) => !n.enabled || n.endpoint@ != c.endpoint@ || (check_protocol && n.protocol != c.protocol),
    }
}

/// Indices, ascending, of the first `n` running connections that must stop.
spec fn stops_upto(current: Seq<FeedSourceConfig>, desired: Seq<FeedSourceConfig>, check_protocol: bool, n: nat) -> Seq<nat>
    decreases n,
{
    if n == 0 {
        Seq::empty()
    } else {
        let prev = stops_upto(current, desired, check_protocol, (n - 1) as nat);
        if must_stop(current[n - 1], desired, check_protocol) {
            prev.push((n - 1) as nat)
        } else {
            prev
        }
    }
}

/// Ids of the first `n` running connections that keep running.
spec fn kept_upto(current: Seq<FeedSourceConfig>, desired: Seq<FeedSourceConfig>, check_protocol: bool, n: nat) -> Seq<Seq<char>>
    decreases n,
{
    if n == 0 {
        Seq::empty()
    } else {
        let prev = kept_upto(current, desired, check_protocol, (n - 1) as nat);
        if must_stop(current[n - 1], desired, check_protocol) {
            prev
        } else {
            prev.push(current[n - 1].id@)
        }
    }
}

/// Indices, ascending, of the first `n` desired feeds to start: enabled,
/// not still running, and not started earlier in the plan under the same id.
spec fn starts_upto(desired: Seq<FeedSourceConfig>, kept: Seq<Seq<char>>, n: nat) -> Seq<nat>
    decreases n,
{
    if n == 0 {
        Seq::empty()
    } else {
        let prev = starts_upto(desired, kept, (n - 1) as nat);
        let f = desired[n - 1];
        if f.enabled && !kept.contains(f.id@) && !(exists|j: int|
            0 <= j < prev.len() && desired[prev[j] as int].id@ == f.id@) {
            prev.push((n - 1) as nat)
        } else {
            prev
        }
    }
}

/// What to do when the configured feeds change.
pub struct FeedPlan {
    /// Indices of the running connections to shut down.
    pub stop: Vec<usize>,
    /// Indices of the configured feeds to connect.
    pub start: Vec<usize>,
}

fn same_string(a: &String, b: &String) -> (r: bool)
    ensures
        r == (a@ == b@),
{
    *a == *b
}

/// The indices `0 .. n`, ascending.
pub open spec fn indices(n: nat) -> Seq<nat> {
    Seq::new(n, |i: int| i as nat)
}

/// Indices, ascending, of the running connections to shut down: those
/// whose feed is gone, disabled or moved (`must_stop`).
pub open spec fn stop_indices(current: Seq<FeedSourceConfig>, desired: Seq<FeedSourceConfig>, check_protocol: bool) -> Seq<nat> {
    indices(current.len()).filter(|i: nat| must_stop(current[i as int], desired, check_protocol))
}

/// Whether a running connection with id `id` keeps running.
pub open spec fn kept_id(current: Seq<FeedSourceConfig>, desired: Seq<FeedSourceConfig>, check_protocol: bool, id: Seq<char>) -> bool {
    exists|i: int| 0 <= i < current.len() && current[i].id@ == id && !must_stop(current[i], desired, check_protocol)
}

/// Whether configured feed `i` is connected: it is enabled, no running
/// connection with its id keeps running, and it is the first enabled feed
/// with that id.
pub open spec fn starts_feed(
    current: Seq<FeedSourceConfig>,
    desired: Seq<FeedSourceConfig>,
    check_protocol: bool,
    i: int,
) -> bool {
    &&& desired[i].enabled
    &&& !kept_id(current, desired, check_protocol, desired[i].id@)
    &&& forall|j: int| 0 <= j < i ==> !(desired[j].enabled && #[trigger] desired[j].id@ == desired[i].id@)
}

/// Indices, ascending, of the configured feeds to connect.
pub open spec fn start_indices(current: Seq<FeedSourceConfig>, desired: Seq<FeedSourceConfig>, check_protocol: bool) -> Seq<nat> {
    indices(desired.len()).filter(|i: nat| starts_feed(current, desired, check_protocol, i as int))
}

proof fn lemma_stops_upto_is_filter(current: Seq<FeedSourceConfig>, desired: Seq<FeedSourceConfig>, check_protocol: bool, n: nat)
    requires
        n <= current.len(),
    ensures
        stops_upto(current, desired, check_protocol, n) == indices(n).filter(
            |i: nat| must_stop(current[i as int], desired, check_protocol),
        ),
    decreases n,
{
    let p = |i: nat| must_stop(current[i as int], desired, check_protocol);
    if n == 0 {
        assert(indices(0).filter(p) =~= Seq::<nat>::empty()) by {
            reveal(Seq::filter);
        }
    } else {
        let m = (n - 1) as nat;
        lemma_stops_upto_is_filter(current, desired, check_protocol, m);
        assert(indices(m).push(m) =~= indices(n));
        indices(m).lemma_filter_push(m, p);
    }
}

proof fn lemma_kept_upto_ids(current: Seq<FeedSourceConfig>, desired: Seq<FeedSourceConfig>, check_protocol: bool, n: nat)
    requires
        n <= current.len(),
    ensures
        forall|id: Seq<char>|
            #[trigger] kept_upto(current, desired, check_protocol, n).contains(id) <==> exists|i: int|
                0 <= i < n && current[i].id@ == id && !must_stop(current[i], desired, check_protocol),
    decreases n,
{
    if n > 0 {
        let m = (n - 1) as nat;
        lemma_kept_upto_ids(current, desired, check_protocol, m);
        let prev = kept_upto(current, desired, check_protocol, m);
        let cur = kept_upto(current, desired, check_protocol, n);
        assert forall|id: Seq<char>| cur.contains(id) <==> exists|i: int|
            0 <= i < n && current[i].id@ == id && !must_stop(current[i], desired, check_protocol) by {
            if cur.contains(id) && !prev.contains(id) {
                let k = choose|k: int| 0 <= k < cur.len() && cur[k] == id;
                assert(k == prev.len());
                assert(current[m as int].id@ == id);
            }
            if prev.contains(id) {
                let k = choose|k: int| 0 <= k < prev.len() && prev[k] == id;
                assert(cur[k] == id);
            }
            if exists|i: int| 0 <= i < n && current[i].id@ == id && !must_stop(current[i], desired, check_protocol) {
                let i = choose|i: int|
                    0 <= i < n && current[i].id@ == id && !must_stop(current[i], desired, check_protocol);
                if i == m {
                    assert(cur[prev.len() as int] == id);
                }
            }
        }
    }
}

proof fn lemma_starts_upto_is_filter(
    current: Seq<FeedSourceConfig>,
    desired: Seq<FeedSourceConfig>,
    check_protocol: bool,
    kept: Seq<Seq<char>>,
    n: nat,
)
    requires
        n <= desired.len(),
        forall|id: Seq<char>| #[trigger] kept.contains(id) <==> kept_id(current, desired, check_protocol, id),
    ensures
        starts_upto(desired, kept, n) == indices(n).filter(|i: nat| starts_feed(current, desired, check_protocol, i as int)),
        forall|id: Seq<char>|
            (exists|j: int| 0 <= j < starts_upto(desired, kept, n).len() && #[trigger] desired[starts_upto(desired, kept, n)[j] as int].id@ == id)
                <==> (!kept_id(current, desired, check_protocol, id) && exists|j: int|
                0 <= j < n && desired[j].enabled && #[trigger] desired[j].id@ == id),
    decreases n,
{
    let p = |i: nat| starts_feed(current, desired, check_protocol, i as int);
    if n == 0 {
        assert(indices(0).filter(p) =~= Seq::<nat>::empty()) by {
            reveal(Seq::filter);
        }
    } else {
        let m = (n - 1) as nat;
        lemma_starts_upto_is_filter(current, desired, check_protocol, kept, m);
        assert(indices(m).push(m) =~= indices(n));
        indices(m).lemma_filter_push(m, p);
        let prev = starts_upto(desired, kept, m);
        let cur = starts_upto(desired, kept, n);
        let f = desired[m as int];
        let in_prev = exists|j: int| 0 <= j < prev.len() && #[trigger] desired[prev[j] as int].id@ == f.id@;
        assert(in_prev <==> (!kept_id(current, desired, check_protocol, f.id@) && exists|j: int|
            0 <= j < m && desired[j].enabled && #[trigger] desired[j].id@ == f.id@));
        assert(kept.contains(f.id@) <==> kept_id(current, desired, check_protocol, f.id@));
        assert(p(m) <==> (f.enabled && !kept.contains(f.id@) && !in_prev)) by {
            if f.enabled && !kept.contains(f.id@) && !in_prev {
                assert forall|j: int| 0 <= j < m implies !(desired[j].enabled && #[trigger] desired[j].id@
                    == f.id@) by {
                    if desired[j].enabled && desired[j].id@ == f.id@ {
                        assert(exists|jj: int| 0 <= jj < m && desired[jj].enabled && #[trigger] desired[jj].id@ == f.id@);
                    }
                }
            }
        }
        assert forall|id: Seq<char>|
            (exists|j: int| 0 <= j < cur.len() && #[trigger] desired[cur[j] as int].id@ == id)
                <==> (!kept_id(current, desired, check_protocol, id) && exists|j: int|
                0 <= j < n && desired[j].enabled && #[trigger] desired[j].id@ == id) by {
            if exists|j: int| 0 <= j < cur.len() && #[trigger] desired[cur[j] as int].id@ == id {
                let j = choose|j: int| 0 <= j < cur.len() && #[trigger] desired[cur[j] as int].id@ == id;
                if j < prev.len() {
                    assert(cur[j] == prev[j]);
                    assert(exists|jj: int| 0 <= jj < prev.len() && #[trigger] desired[prev[jj] as int].id@ == id);
                    let k = choose|k: int| 0 <= k < m && desired[k].enabled && #[trigger] desired[k].id@ == id;
                    assert(0 <= k < n);
                } else {
                    assert(cur == prev.push(m));
                    assert(cur[j] == m);
                    assert(desired[m as int].enabled && desired[m as int].id@ == id);
                }
            }
            if !kept_id(current, desired, check_protocol, id) && exists|j: int|
                0 <= j < n && desired[j].enabled && #[trigger] desired[j].id@ == id {
                let j = choose|j: int| 0 <= j < n && desired[j].enabled && #[trigger] desired[j].id@ == id;
                if exists|jj: int| 0 <= jj < m && desired[jj].enabled && #[trigger] desired[jj].id@ == id {
                    assert(exists|k: int| 0 <= k < prev.len() && #[trigger] desired[prev[k] as int].id@ == id);
                    let k = choose|k: int| 0 <= k < prev.len() && #[trigger] desired[prev[k] as int].id@ == id;
                    assert(cur[k] == prev[k]);
                } else {
                    assert(j == m);
                    assert(!in_prev);
                    assert(cur == prev.push(m));
                    assert(desired[cur[prev.len() as int] as int].id@ == id);
                }
            }
        }
    }
}

/// Plans the reconnection after a configuration change: `current` are the
/// configurations of the running connections, `desired` the new
/// configuration list; protocols count only where `check_protocol` is set
/// (feeds, not enrichment sources).
pub fn plan_feed_changes(current: &Vec<FeedSourceConfig>, desired: &Vec<FeedSourceConfig>, check_protocol: bool) -> (plan: FeedPlan)
    ensures
        plan.stop@.map_values(|i: usize| i as nat) == stop_indices(current@, desired@, check_protocol),
        plan.start@.map_values(|i: usize| i as nat) == start_indices(current@, desired@, check_protocol),
{
    let mut stop: Vec<usize> = Vec::new();
    let mut kept: Vec<usize> = Vec::new();
    let mut i: usize = 0;
    while i < current.len()
        invariant
            i <= current@.len(),
            stop@.map_values(|k: usize| k as nat) == stops_upto(current@, desired@, check_protocol, i as nat),
            kept@.map_values(|k: usize| current@[k as int].id@) == kept_upto(current@, desired@, check_protocol, i as nat),
            forall|k: int| 0 <= k < kept@.len() ==> kept@[k] < i,
        decreases current@.len() - i,
    {
        let c = &current[i];
        // The last desired entry with this id.
        let mut found: Option<usize> = None;
        let mut j: usize = 0;
        while j < desired.len()
            invariant
                j <= desired@.len(),
                match found {
                    Some(f) => f < j && last_with_id(desired@.take(j as int), c.id@) == Some(desired@[f as int]),
                    None => last_with_id(desired@.take(j as int), c.id@) == None::<FeedSourceConfig>,
                },
            decreases desired@.len() - j,
        {
            proof {
                assert(desired@.take(j + 1).drop_last() =~= desired@.take(j as int));
            }
            if same_string(&desired[j].id, &c.id) {
                found = Some(j);
            }
            j = j + 1;
        }
        proof {
            assert(desired@.take(j as int) =~= desired@);
        }
        let stops = match found {
            None => true,
            Some(f) => {
                let n = &desired[f];
                !n.enabled || !same_string(&n.endpoint, &c.endpoint) || (check_protocol && n.protocol
                    != c.protocol)
            },
        };
        let ghost s0 = stop@;
        let ghost k0 = kept@;
        if stops {
            stop.push(i);
            proof {
                assert(stop@.map_values(|k: usize| k as nat) =~= s0.map_values(|k: usize| k as nat).push(i as nat));
                assert(kept@.map_values(|k: usize| current@[k as int].id@) =~= k0.map_values(|k: usize| current@[k as int].id@));
            }
        } else {
            kept.push(i);
            proof {
                assert(kept@.map_values(|k: usize| current@[k as int].id@) =~= k0.map_values(
                    |k: usize| current@[k as int].id@,
                ).push(current@[i as int].id@));
            }
        }
        i = i + 1;
    }
    let ghost kept_ids = kept_upto(current@, desired@, check_protocol, current@.len());
    let mut start: Vec<usize> = Vec::new();
    let mut i: usize = 0;
    while i < desired.len()
        invariant
            i <= desired@.len(),
            kept@.map_values(|k: usize| current@[k as int].id@) == kept_ids,
            forall|k: int| 0 <= k < kept@.len() ==> kept@[k] < current@.len(),
            start@.map_values(|k: usize| k as nat) == starts_upto(desired@, kept_ids, i as nat),
            forall|k: int| 0 <= k < start@.len() ==> start@[k] < i,
        decreases desired@.len() - i,
    {
        let f = &desired[i];
        let mut eligible = f.enabled;
        if eligible {
            let mut k: usize = 0;
            while k < kept.len()
                invariant_except_break
                    eligible,
                invariant
                    k <= kept@.len(),
                    forall|m: int| 0 <= m < k ==> kept_ids[m] != f.id@,
                    kept@.map_values(|q: usize| current@[q as int].id@) == kept_ids,
                    forall|q: int| 0 <= q < kept@.len() ==> kept@[q] < current@.len(),
                ensures
                    eligible ==> !kept_ids.contains(f.id@),
                    !eligible ==> kept_ids.contains(f.id@),
                decreases kept@.len() - k,
            {
                if same_string(&current[kept[k]].id, &f.id) {
                    eligible = false;
                    proof {
                        assert(kept_ids[k as int] == f.id@);
                    }
                    break;
                }
                k = k + 1;
            }
        }
        if eligible {
            let mut k: usize = 0;
            let ghost prev = start@.map_values(|q: usize| q as nat);
            while k < start.len()
                invariant_except_break
                    eligible,
                invariant
                    k <= start@.len(),
                    i < desired@.len(),
                    prev == start@.map_values(|q: usize| q as nat),
                    forall|q: int| 0 <= q < start@.len() ==> start@[q] < i,
                    forall|m: int| 0 <= m < k ==> desired@[prev[m] as int].id@ != f.id@,
                ensures
                    eligible ==> !(exists|m: int| 0 <= m < prev.len() && desired@[prev[m] as int].id@ == f.id@),
                    !eligible ==> (exists|m: int| 0 <= m < prev.len() && desired@[prev[m] as int].id@ == f.id@),
                decreases start@.len() - k,
            {
                if same_string(&desired[start[k]].id, &f.id) {
                    eligible = false;
                    proof {
                        assert(prev[k as int] == start@[k as int] as nat);
                        assert(desired@[prev[k as int] as int].id@ == f.id@);
                    }
                    break;
                }
                k = k + 1;
            }
        }
        let ghost s0 = start@;
        if eligible {
            start.push(i);
            proof {
                assert(start@.map_values(|q: usize| q as nat) =~= s0.map_values(|q: usize| q as nat).push(i as nat));
            }
        }
        i = i + 1;
    }
    proof {
        lemma_stops_upto_is_filter(current@, desired@, check_protocol, current@.len());
        lemma_kept_upto_ids(current@, desired@, check_protocol, current@.len());
        lemma_starts_upto_is_filter(current@, desired@, check_protocol, kept_ids, desired@.len());
    }
    FeedPlan { stop, start }
}

/// Whether one of the planned starts `st` is a feed with id `id`.
pub open spec fn started_id(desired: Seq<FeedSourceConfig>, st: Seq<nat>, id: Seq<char>) -> bool {
    exists|j: int| 0 <= j < st.len() && (#[trigger] desired[st[j] as int]).id@ == id
}

/// Coverage of the step-by-step start list over the first `n` feeds.
proof fn lemma_starts_upto_covers(desired: Seq<FeedSourceConfig>, kept: Seq<Seq<char>>, n: nat)
    requires
        n <= desired.len(),
    ensures
        forall|i: int|
            0 <= i < n && (#[trigger] desired[i]).enabled ==> kept.contains(desired[i].id@)
                || started_id(desired, starts_upto(desired, kept, n), desired[i].id@),
        forall|j: int|
            0 <= j < starts_upto(desired, kept, n).len() ==> {
                let f = #[trigger] starts_upto(desired, kept, n)[j];
                &&& f < n
                &&& desired[f as int].enabled
                &&& !kept.contains(desired[f as int].id@)
            },
        forall|j: int, k: int|
            0 <= j < k < starts_upto(desired, kept, n).len() ==> desired[#[trigger] starts_upto(
                desired,
                kept,
                n,
            )[j] as int].id@ != desired[#[trigger] starts_upto(desired, kept, n)[k] as int].id@,
    decreases n,
{
    if n > 0 {
        let m = (n - 1) as nat;
        lemma_starts_upto_covers(desired, kept, m);
        let prev = starts_upto(desired, kept, m);
        let cur = starts_upto(desired, kept, n);
        let f = desired[m as int];
        assert forall|i: int|
            0 <= i < n && (#[trigger] desired[i]).enabled implies kept.contains(desired[i].id@)
                || started_id(desired, cur, desired[i].id@) by {
            if i < m {
                if !kept.contains(desired[i].id@) {
                    assert(started_id(desired, prev, desired[i].id@));
                    let j = choose|j: int| 0 <= j < prev.len() && (#[trigger] desired[prev[j] as int]).id@
                        == desired[i].id@;
                    assert(cur[j] == prev[j]);
                    assert(desired[cur[j] as int].id@ == desired[i].id@);
                }
            } else {
                if !kept.contains(f.id@) {
                    if exists|j: int| 0 <= j < prev.len() && desired[prev[j] as int].id@ == f.id@ {
                        let j = choose|j: int| 0 <= j < prev.len() && desired[prev[j] as int].id@ == f.id@;
                        assert(cur[j] == prev[j]);
                        assert(desired[cur[j] as int].id@ == desired[i].id@);
                    } else {
                        assert(cur == prev.push(m));
                        assert(cur[prev.len() as int] == m);
                        assert(desired[cur[prev.len() as int] as int].id@ == desired[i].id@);
                    }
                }
            }
        }
    }
}

/// After a reconnection every enabled feed of the new configuration has a
/// connection, kept running or newly started; every newly started feed is
/// enabled and was not kept running; and no id is started twice.
pub proof fn lemma_plan_covers_enabled(
    current: Seq<FeedSourceConfig>,
    desired: Seq<FeedSourceConfig>,
    check_protocol: bool,
)
    ensures
        forall|i: int|
            0 <= i < desired.len() && (#[trigger] desired[i]).enabled ==> kept_id(
                current,
                desired,
                check_protocol,
                desired[i].id@,
            ) || started_id(desired, start_indices(current, desired, check_protocol), desired[i].id@),
        forall|j: int|
            0 <= j < start_indices(current, desired, check_protocol).len() ==> {
                let f = #[trigger] start_indices(current, desired, check_protocol)[j];
                &&& f < desired.len()
                &&& desired[f as int].enabled
                &&& !kept_id(current, desired, check_protocol, desired[f as int].id@)
            },
        forall|j: int, k: int|
            0 <= j < k < start_indices(current, desired, check_protocol).len() ==> desired[#[trigger] start_indices(
                current,
                desired,
                check_protocol,
            )[j] as int].id@ != desired[#[trigger] start_indices(current, desired, check_protocol)[k] as int].id@,
{
    let kept = kept_upto(current, desired, check_protocol, current.len());
    lemma_kept_upto_ids(current, desired, check_protocol, current.len());
    lemma_starts_upto_is_filter(current, desired, check_protocol, kept, desired.len());
    lemma_starts_upto_covers(desired, kept, desired.len());
}

/// The feed summary reads "all connected" exactly when every configured
/// feed (there is at least one) is connected, and "connecting" whenever no
/// feed is connected yet and at least one is connecting; only the
/// all-connected state has the success tone, in the indicator and in the
/// status bar, and a connecting state reads "Connecting..." in both.
pub proof fn lemma_feed_summary_states(total: usize, connected: usize, connecting: usize)
    ensures
        (feed_summary_spec(total, connected, connecting) == FeedSummary::AllConnected) <==> (total > 0
            && connected == total),
        total > 0 && connected == 0 && connecting > 0 ==> feed_summary_spec(total, connected, connecting)
            == FeedSummary::Connecting,
        (connection_status_tone_spec(total, connected, connecting) == StatusTone::Success) <==> (total > 0
            && connected == total),
        (statusbar_feed_tone_spec(total, connected, connecting) == StatusTone::Success) <==> (total > 0
            && connected == total),
        total > 0 && connected == 0 && connecting > 0 ==> connection_status_text_spec(
            total,
            connected,
            connecting,
            0,
        ) == "ADS-B: Connecting..."@ && statusbar_feed_label_spec(total, connected, connecting)
            == "Connecting..."@,
{
}

} // verus!
