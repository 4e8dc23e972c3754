//! How pod events change the registry.
use crate::registry::state::{AppState, TunnelEntry, TunnelEntryView};
use crate::text::{
    all_white, decimal, is_digit, law_decimal_round_trip, law_trim_takes_white_space_off,
    lemma_number_in_range, number_in, parse_number, same_text, trim, trimmed,
};
use crate::uuids::{law_uuid_round_trip, parse_uuid, uuid_text, uuid_value};
use vstd::prelude::*;
use vstd::string::*;

verus! {

/// The annotation with a pod's tunnel id.
pub const ANN_TUNNEL_ID: &'static str = "wstunnel.io/tunnel-id";

/// The annotation with the port that a tunnel leads to.
pub const ANN_TUNNEL_PORT: &'static str = "wstunnel.io/tunnel-port";

/// The annotation with a rate limit for both directions.
pub const ANN_TUNNEL_RATE_LIMIT: &'static str = "wstunnel.io/tunnel-rate-limit";

/// The annotation with the upload rate limit.
pub const ANN_TUNNEL_RATE_LIMIT_UPLOAD: &'static str = "wstunnel.io/tunnel-rate-limit-upload";

/// The annotation with the download rate limit.
pub const ANN_TUNNEL_RATE_LIMIT_DOWNLOAD: &'static str = "wstunnel.io/tunnel-rate-limit-download";

/// The port of a tunnel whose pod names none.
pub const DEFAULT_TUNNEL_PORT: u16 = 22;

/// The highest rate limit, in MiB per second.
pub const MAX_RATE_LIMIT_M: u16 = 10;

/// What an event says of a pod.
#[derive(Debug)]
pub struct Pod {
    pub name: Option<String>,
    pub annotations: Option<Vec<(String, String)>>,
    pub pod_ip: Option<String>,
    pub phase: Option<String>,
    pub deleting: bool,
}

/// Annotations as character sequences.
pub open spec fn pairs(v: Seq<(String, String)>) -> Seq<(Seq<char>, Seq<char>)> {
    v.map_values(|p: (String, String)| (p.0@, p.1@))
}

/// The mathematical content of a [`Pod`].
pub ghost struct PodView {
    pub name: Option<Seq<char>>,
    pub annotations: Option<Seq<(Seq<char>, Seq<char>)>>,
    pub pod_ip: Option<Seq<char>>,
    pub phase: Option<Seq<char>>,
    pub deleting: bool,
}

/// An optional text as characters.
pub open spec fn opt_text(t: Option<String>) -> Option<Seq<char>> {
    match t {
        Some(s) => Some(s@),
        None => None,
    }
}

impl View for Pod {
    type V = PodView;

    open spec fn view(&self) -> PodView {
        PodView {
            name: opt_text(self.name),
            annotations: match self.annotations {
                Some(v) => Some(pairs(v@)),
                None => None,
            },
            pod_ip: opt_text(self.pod_ip),
            phase: opt_text(self.phase),
            deleting: self.deleting,
        }
    }
}

/// A pod stands for what is said of it: its annotations in their order, its address, its phase, and
/// whether it is on its way out.
pub proof fn law_pod_stands_for_itself(p: Pod, i: int)
    ensures
        p@.annotations is Some <==> p.annotations is Some,
        p.annotations matches Some(v) ==> {
            &&& p@.annotations->0.len() == v@.len()
            &&& 0 <= i < v@.len() ==> p@.annotations->0[i] == (v@[i].0@, v@[i].1@)
        },
        p.pod_ip matches Some(ip) ==> p@.pod_ip == Some(ip@),
        p.pod_ip is None ==> p@.pod_ip is None,
        p.phase matches Some(phase) ==> p@.phase == Some(phase@),
        p.phase is None ==> p@.phase is None,
        p@.deleting == p.deleting,
{
}

/// The value of the annotation `key`.
pub open spec fn annotation(v: Seq<(Seq<char>, Seq<char>)>, key: Seq<char>) -> Option<Seq<char>>
    decreases v.len(),
{
    if v.len() == 0 {
        None
    } else if v[0].0 == key {
        Some(v[0].1)
    } else {
        annotation(v.drop_first(), key)
    }
}

/// A rate limit that is a number, cut to the highest one.
pub open spec fn rate_limit(value: Option<Seq<char>>) -> Option<u16> {
    match value {
        None => None,
        Some(s) => match number_in(trimmed(s), u16::MAX as int) {
            None => None,
            Some(n) => Some(
                if n <= MAX_RATE_LIMIT_M {
                    n as u16
                } else {
                    MAX_RATE_LIMIT_M
                },
            ),
        },
    }
}

/// `a`, or `b` where there is no `a`.
pub open spec fn or_else(a: Option<u16>, b: Option<u16>) -> Option<u16> {
    if a is Some {
        a
    } else {
        b
    }
}

/// The port that an annotation names.
pub open spec fn port_of(value: Option<Seq<char>>) -> u16 {
    match value {
        None => DEFAULT_TUNNEL_PORT,
        Some(s) => match number_in(s, u16::MAX as int) {
            None => DEFAULT_TUNNEL_PORT,
            Some(n) => n as u16,
        },
    }
}

/// Whether traffic can be sent to a pod: it has an address, it runs, and it is not on its way out.
pub open spec fn is_up(p: PodView) -> bool {
    &&& p.pod_ip matches Some(ip) && ip.len() > 0
    &&& p.phase == Some("Running"@)
    &&& !p.deleting
}

/// The entry of a pod that is up.
pub open spec fn entry_of(p: PodView) -> TunnelEntryView {
    let ann = p.annotations.unwrap();
    let both = rate_limit(annotation(ann, ANN_TUNNEL_RATE_LIMIT@));
    TunnelEntryView {
        host: p.pod_ip.unwrap(),
        port: port_of(annotation(ann, ANN_TUNNEL_PORT@)),
        rate_limit_upload_m: or_else(
            rate_limit(annotation(ann, ANN_TUNNEL_RATE_LIMIT_UPLOAD@)),
            both,
        ),
        rate_limit_download_m: or_else(
            rate_limit(annotation(ann, ANN_TUNNEL_RATE_LIMIT_DOWNLOAD@)),
            both,
        ),
    }
}

/// What an event changes.
pub ghost enum Change {
    /// Nothing: the pod has no tunnel.
    NoTunnel,
    /// Nothing: the pod's tunnel id is no UUID.
    InvalidId,
    /// The tunnel goes down.
    Down(u128),
    /// The tunnel goes up, or stays up with this entry.
    Up(u128, TunnelEntryView),
}

/// What an event about `p` changes.
pub open spec fn change_of(p: PodView) -> Change {
    match p.annotations {
        None => Change::NoTunnel,
        Some(ann) => match annotation(ann, ANN_TUNNEL_ID@) {
            None => Change::NoTunnel,
            Some(text) => match uuid_value(text) {
                None => Change::InvalidId,
                Some(id) => if is_up(p) {
                    Change::Up(id as u128, entry_of(p))
                } else {
                    Change::Down(id as u128)
                },
            },
        },
    }
}

/// A registry after a change.
pub open spec fn changed(m: Map<u128, TunnelEntryView>, c: Change) -> Map<u128, TunnelEntryView> {
    match c {
        Change::NoTunnel => m,
        Change::InvalidId => m,
        Change::Down(id) => m.remove(id),
        Change::Up(id, e) => m.insert(id, e),
    }
}

/// What became of an event.
#[derive(Debug, PartialEq, Eq, Structural)]
pub enum PodOutcome {
    /// The pod has no tunnel.
    NoTunnel,
    /// The pod's tunnel id is no UUID.
    InvalidId,
    /// This tunnel went down, or was not up.
    Down { id: u128, was_up: bool },
    /// This tunnel is up with a new entry.
    Up { id: u128 },
}

/// How an outcome tells of a change to the registry `m`.
pub open spec fn outcome(m: Map<u128, TunnelEntryView>, c: Change) -> PodOutcome {
    match c {
        Change::NoTunnel => PodOutcome::NoTunnel,
        Change::InvalidId => PodOutcome::InvalidId,
        Change::Down(id) => PodOutcome::Down { id, was_up: m.contains_key(id) },
        Change::Up(id, _) => PodOutcome::Up { id },
    }
}

/// Finds an annotation.
fn find_annotation<'a>(v: &'a Vec<(String, String)>, key: &str) -> (r: Option<&'a str>)
    ensures
        annotation(pairs(v@), key@) == (match r {
            Some(s) => Some(s@),
            None => None,
        }),
{
    let mut i: usize = 0;
    assert(pairs(v@).skip(0) =~= pairs(v@));
    while i < v.len()
        invariant
            i <= v@.len(),
            annotation(pairs(v@), key@) == annotation(pairs(v@).skip(i as int), key@),
        decreases v@.len() - i,
    {
        assert(pairs(v@).skip(i as int)[0] == (v@[i as int].0@, v@[i as int].1@));
        if same_text(v[i].0.as_str(), key) {
            return Some(v[i].1.as_str());
        }
        assert(pairs(v@).skip(i as int).drop_first() =~= pairs(v@).skip(i + 1));
        i += 1;
    }
    None
}

/// Reads a rate limit.
fn parse_rate_limit(value: Option<&str>) -> (r: Option<u16>)
    ensures
        r == rate_limit(match value {
            Some(s) => Some(s@),
            None => None,
        }),
{
    match value {
        None => None,
        Some(s) => match parse_number(trim(s), 65535) {
            None => None,
            Some(n) => Some(
                if n <= MAX_RATE_LIMIT_M as u64 {
                    n as u16
                } else {
                    MAX_RATE_LIMIT_M
                },
            ),
        },
    }
}

/// Reads a port.
fn parse_port(value: Option<&str>) -> (r: u16)
    ensures
        r == port_of(match value {
            Some(s) => Some(s@),
            None => None,
        }),
{
    match value {
        None => DEFAULT_TUNNEL_PORT,
        Some(s) => match parse_number(s, 65535) {
            None => DEFAULT_TUNNEL_PORT,
            Some(n) => n as u16,
        },
    }
}

/// The first of two rate limits that is there.
fn first_limit(a: Option<u16>, b: Option<u16>) -> (r: Option<u16>)
    ensures
        r == or_else(a, b),
{
    match a {
        Some(n) => Some(n),
        None => b,
    }
}

/// Brings the registry up to date with an event about a pod.
pub fn handle_pod_event(state: &mut AppState, pod: &Pod) -> (r: PodOutcome)
    ensures
        final(state)@ == changed(old(state)@, change_of(pod@)),
        r == outcome(old(state)@, change_of(pod@)),
{
    let annotations = match &pod.annotations {
        Some(a) => a,
        None => return PodOutcome::NoTunnel,
    };
    let id_text = match find_annotation(annotations, ANN_TUNNEL_ID) {
        Some(t) => t,
        None => return PodOutcome::NoTunnel,
    };
    let id: u128 = match parse_uuid(id_text) {
        Some(id) => id,
        None => return PodOutcome::InvalidId,
    };
    let ip = match &pod.pod_ip {
        Some(ip) => ip.as_str(),
        None => "",
    };
    let running = match &pod.phase {
        Some(p) => same_text(p.as_str(), "Running"),
        None => false,
    };
    proof {
        reveal_strlit("");
    }
    if ip.is_empty() || !running || pod.deleting {
        let was_up = state.remove(id);
        return PodOutcome::Down { id, was_up };
    }
    let port: u16 = parse_port(find_annotation(annotations, ANN_TUNNEL_PORT));
    let both = parse_rate_limit(find_annotation(annotations, ANN_TUNNEL_RATE_LIMIT));
    let upload = parse_rate_limit(find_annotation(annotations, ANN_TUNNEL_RATE_LIMIT_UPLOAD));
    let download = parse_rate_limit(find_annotation(annotations, ANN_TUNNEL_RATE_LIMIT_DOWNLOAD));
    let entry = TunnelEntry {
        host: ip.to_owned(),
        port,
        rate_limit_upload_m: first_limit(upload, both),
        rate_limit_download_m: first_limit(download, both),
    };
    state.insert(id, entry);
    PodOutcome::Up { id }
}

/// Which pods are watched.
#[derive(Debug)]
pub enum WatchScope {
    /// Those of every namespace.
    All,
    /// Those of one namespace.
    Namespaced(String),
}

/// The pods to watch: those of `namespace`, or all where it is empty.
pub fn watch_scope(namespace: &str) -> (r: WatchScope)
    ensures
        match r {
            WatchScope::All => namespace@.len() == 0,
            WatchScope::Namespaced(n) => namespace@.len() > 0 && n@ == namespace@,
        },
{
    if namespace.is_empty() {
        WatchScope::All
    } else {
        WatchScope::Namespaced(namespace.to_owned())
    }
}

/// What the watch on the pods hands over next.
#[derive(Debug)]
pub enum WatchEvent {
    /// A pod changed.
    Pod(Pod),
    /// The watch failed for now.
    Failed,
    /// The watch is over.
    Ended,
}

/// What comes of a watch event.
#[derive(Debug, PartialEq, Eq, Structural)]
pub enum WatchStep {
    /// The watch goes on, after this outcome.
    Handled(PodOutcome),
    /// The watch goes on in spite of a failure.
    Failed,
    /// The watch is over.
    Ended,
}

/// Takes one event of the watch: a pod's event is handled, a failure changes nothing and does not
/// end the watch.
pub fn watch_step(state: &mut AppState, event: &WatchEvent) -> (r: WatchStep)
    ensures
        match event {
            WatchEvent::Pod(p) => {
                &&& final(state)@ == changed(old(state)@, change_of(p@))
                &&& r == WatchStep::Handled(outcome(old(state)@, change_of(p@)))
            },
            WatchEvent::Failed => final(state)@ == old(state)@ && r == WatchStep::Failed,
            WatchEvent::Ended => final(state)@ == old(state)@ && r == WatchStep::Ended,
        },
{
    match event {
        WatchEvent::Pod(p) => WatchStep::Handled(handle_pod_event(state, p)),
        WatchEvent::Failed => WatchStep::Failed,
        WatchEvent::Ended => WatchStep::Ended,
    }
}

// --- Laws ---

/// The tunnel that an event is about.
pub open spec fn tunnel_of(p: PodView) -> Option<u128> {
    match change_of(p) {
        Change::NoTunnel => None,
        Change::InvalidId => None,
        Change::Down(id) => Some(id),
        Change::Up(id, _) => Some(id),
    }
}

/// A registry after a list of events.
pub open spec fn after_events(
    m: Map<u128, TunnelEntryView>,
    events: Seq<PodView>,
) -> Map<u128, TunnelEntryView>
    decreases events.len(),
{
    if events.len() == 0 {
        m
    } else {
        changed(after_events(m, events.drop_last()), change_of(events.last()))
    }
}

/// The entry of a tunnel in a registry.
pub open spec fn entry_in(m: Map<u128, TunnelEntryView>, id: u128) -> Option<TunnelEntryView> {
    if m.contains_key(id) {
        Some(m[id])
    } else {
        None
    }
}

/// The entry that an event gives its tunnel.
pub open spec fn entry_by(p: PodView) -> Option<TunnelEntryView> {
    if is_up(p) {
        Some(entry_of(p))
    } else {
        None
    }
}

/// The last event about a tunnel decides: it is up with that event's entry if that event's pod is
/// up, and down if not, whatever came before, and whatever came after about other tunnels.
pub proof fn law_last_event_decides(
    m: Map<u128, TunnelEntryView>,
    events: Seq<PodView>,
    i: int,
    id: u128,
)
    requires
        0 <= i < events.len(),
        tunnel_of(events[i]) == Some(id),
        forall|k: int| i < k < events.len() ==> tunnel_of(#[trigger] events[k]) != Some(id),
    ensures
        entry_in(after_events(m, events), id) == entry_by(events[i]),
    decreases events.len(),
{
    let front = events.drop_last();
    if i < events.len() - 1 {
        assert forall|k: int| i < k < front.len() implies tunnel_of(#[trigger] front[k])
            != Some(id) by {
            assert(front[k] == events[k]);
        }
        law_last_event_decides(m, front, i, id);
        assert(tunnel_of(events[events.len() - 1]) != Some(id));
    }
}

/// Events about other tunnels, or about none, leave a tunnel as it is.
pub proof fn law_other_tunnels_untouched(
    m: Map<u128, TunnelEntryView>,
    events: Seq<PodView>,
    id: u128,
)
    requires
        forall|k: int| 0 <= k < events.len() ==> tunnel_of(#[trigger] events[k]) != Some(id),
    ensures
        entry_in(after_events(m, events), id) == entry_in(m, id),
    decreases events.len(),
{
    if events.len() > 0 {
        let front = events.drop_last();
        assert forall|k: int| 0 <= k < front.len() implies tunnel_of(#[trigger] front[k])
            != Some(id) by {
            assert(front[k] == events[k]);
        }
        law_other_tunnels_untouched(m, front, id);
        assert(tunnel_of(events[events.len() - 1]) != Some(id));
    }
}

/// An event that comes twice does what it does once.
pub proof fn law_event_idempotent(m: Map<u128, TunnelEntryView>, p: PodView)
    ensures
        changed(changed(m, change_of(p)), change_of(p)) == changed(m, change_of(p)),
{
    let c = change_of(p);
    assert(changed(changed(m, c), c) =~= changed(m, c));
}

/// Whether no key occurs twice in a list of annotations.
pub open spec fn keys_differ(v: Seq<(Seq<char>, Seq<char>)>) -> bool {
    forall|i: int, j: int| 0 <= i < j < v.len() ==> (#[trigger] v[i]).0 != (#[trigger] v[j]).0
}

/// A value that is found stands in the list, and where none is found the key does not.
proof fn lemma_annotation_found(v: Seq<(Seq<char>, Seq<char>)>, key: Seq<char>)
    ensures
        annotation(v, key) matches Some(x) ==> v.contains((key, x)),
        annotation(v, key) is None ==> forall|i: int| 0 <= i < v.len() ==> (#[trigger] v[i]).0 != key,
    decreases v.len(),
{
    if v.len() > 0 && v[0].0 != key {
        let rest = v.drop_first();
        lemma_annotation_found(rest, key);
        if let Some(x) = annotation(v, key) {
            let i = choose|i: int| 0 <= i < rest.len() && rest[i] == (key, x);
            assert(v[i + 1] == (key, x));
        } else {
            assert forall|i: int| 0 <= i < v.len() implies (#[trigger] v[i]).0 != key by {
                if i > 0 {
                    assert(rest[i - 1] == v[i]);
                }
            }
        }
    } else if v.len() > 0 {
        assert(v[0] == (key, v[0].1));
    }
}

/// Where no key occurs twice, the value found for a key is the one that stands with it, and it does
/// not depend on the order of the list.
pub proof fn law_annotation_order_free(
    v: Seq<(Seq<char>, Seq<char>)>,
    w: Seq<(Seq<char>, Seq<char>)>,
    key: Seq<char>,
)
    requires
        keys_differ(v),
        v.to_multiset() == w.to_multiset(),
    ensures
        annotation(w, key) == annotation(v, key),
        forall|x: Seq<char>|
            #![trigger v.contains((key, x))]
            v.contains((key, x)) <==> annotation(v, key) == Some(x),
{
    lemma_annotation_found(v, key);
    lemma_annotation_found(w, key);
    v.to_multiset_ensures();
    w.to_multiset_ensures();
    assert forall|x: Seq<char>|
        #![trigger v.contains((key, x))]
        v.contains((key, x)) implies annotation(v, key) == Some(x) by {
        let i = choose|i: int| 0 <= i < v.len() && v[i] == (key, x);
        assert(v[i].0 == key);
        let y = annotation(v, key)->0;
        let j = choose|j: int| 0 <= j < v.len() && v[j] == (key, y);
        assert(v[j].0 == key);
    }
    if let Some(x) = annotation(w, key) {
        assert(w.to_multiset().count((key, x)) > 0);
        assert(v.contains((key, x)));
    } else if let Some(x) = annotation(v, key) {
        assert(v.to_multiset().count((key, x)) > 0);
        assert(w.contains((key, x)));
        let i = choose|i: int| 0 <= i < w.len() && w[i] == (key, x);
        assert(w[i].0 == key);
    }
}

/// Whether a list of annotations has this one.
pub open spec fn annotated(p: PodView, key: Seq<char>, value: Seq<char>) -> bool {
    p.annotations matches Some(v) && v.contains((key, value))
}

/// Whether a pod has annotations of which no key occurs twice.
pub open spec fn well_annotated(p: PodView) -> bool {
    p.annotations matches Some(v) && keys_differ(v)
}

proof fn lemma_annotated(p: PodView, key: Seq<char>, value: Seq<char>)
    requires
        well_annotated(p),
    ensures
        annotated(p, key, value) ==> annotation(p.annotations->0, key) == Some(value),
        (forall|x: Seq<char>| !annotated(p, key, x)) ==> annotation(p.annotations->0, key) is None,
{
    let v = p.annotations->0;
    law_annotation_order_free(v, v, key);
    if annotated(p, key, value) {
        assert(v.contains((key, value)));
    }
    if forall|x: Seq<char>| !annotated(p, key, x) {
        if let Some(x) = annotation(v, key) {
            assert(v.contains((key, x)));
            assert(annotated(p, key, x));
        }
    }
}

/// A tunnel leads to the port that its pod names: to port `port` wherever the annotation writes that
/// number in decimal.
pub proof fn law_port_is_the_one_named(p: PodView, port: u16)
    requires
        well_annotated(p),
        annotated(p, ANN_TUNNEL_PORT@, decimal(port as int)),
    ensures
        entry_of(p).port == port,
{
    lemma_annotated(p, ANN_TUNNEL_PORT@, decimal(port as int));
    law_decimal_round_trip(port as int, u16::MAX as int);
}

/// A tunnel leads to the number of 16 bits that its pod's annotation reads as, and to port 22 exactly
/// where the annotation reads as no other such number or is missing.
pub proof fn law_port_falls_back(p: PodView, text: Seq<char>)
    requires
        well_annotated(p),
    ensures
        annotated(p, ANN_TUNNEL_PORT@, text) ==> (match number_in(text, 65535) {
            Some(n) => entry_of(p).port == n,
            None => entry_of(p).port == 22,
        }),
        (forall|x: Seq<char>| !annotated(p, ANN_TUNNEL_PORT@, x)) ==> entry_of(p).port == 22,
{
    lemma_annotated(p, ANN_TUNNEL_PORT@, text);
    lemma_number_in_range(text, 65535);
}

/// A rate limit is the number that its text writes between white space, up to 10 MiB per second: 10
/// stands for every higher one. A text that writes no number of 16 bits limits nothing, and neither does
/// no text.
pub proof fn law_limit_is_the_one_named(
    before: Seq<char>,
    limit: u16,
    after: Seq<char>,
    text: Seq<char>,
)
    requires
        all_white(before),
        all_white(after),
    ensures
        limit <= 10 ==> rate_limit(Some(before + decimal(limit as int) + after)) == Some(limit),
        limit > 10 ==> rate_limit(Some(before + decimal(limit as int) + after)) == Some(10u16),
        match number_in(trimmed(text), 65535) {
            Some(n) => rate_limit(Some(text)) == Some(
                if n < 10 {
                    n as u16
                } else {
                    10
                },
            ),
            None => rate_limit(Some(text)) is None,
        },
        rate_limit(None) is None,
{
    let digits = decimal(limit as int);
    law_decimal_round_trip(limit as int, u16::MAX as int);
    assert(is_digit(digits[0]) && is_digit(digits[digits.len() - 1]));
    law_trim_takes_white_space_off(before, digits, after);
}

/// An event about a pod with a tunnel decides that tunnel and no other: with an address, running and not
/// on its way out, the tunnel is up and leads to the pod's address, and otherwise it is down. The outcome
/// says which tunnel it was, and of one that is down whether it was up before.
pub proof fn law_pod_decides_its_tunnel(
    m: Map<u128, TunnelEntryView>,
    p: PodView,
    text: Seq<char>,
    id: u128,
)
    requires
        well_annotated(p),
        annotated(p, ANN_TUNNEL_ID@, text),
        uuid_value(text) == Some(id as int),
    ensures
        ({
            let after = changed(m, change_of(p));
            let up = p.pod_ip is Some && p.pod_ip->0.len() > 0 && p.phase == Some("Running"@)
                && !p.deleting;
            &&& up ==> after.contains_key(id) && after[id] == entry_of(p) && after[id].host
                == p.pod_ip->0 && outcome(m, change_of(p)) == (PodOutcome::Up { id })
            &&& !up ==> !after.contains_key(id) && outcome(m, change_of(p)) == (PodOutcome::Down {
                id,
                was_up: m.contains_key(id),
            })
            &&& forall|other: u128| #![trigger after.contains_key(other)]
                other != id ==> after.contains_key(other) == m.contains_key(other)
            &&& forall|other: u128| #![trigger after[other]]
                other != id && m.contains_key(other) ==> after[other] == m[other]
        }),
{
    lemma_annotated(p, ANN_TUNNEL_ID@, text);
}

/// A tunnel's id is found in its pod's annotation however the id is written there, and in particular as
/// it is printed.
pub proof fn law_printed_id_names_its_tunnel(p: PodView, id: u128)
    requires
        well_annotated(p),
        annotated(p, ANN_TUNNEL_ID@, uuid_text(id)),
    ensures
        tunnel_of(p) == Some(id),
{
    law_uuid_round_trip(id);
    lemma_annotated(p, ANN_TUNNEL_ID@, uuid_text(id));
}

/// A pod without annotations, without an id among them, or with an id that is no UUID changes nothing,
/// and the outcome says which.
pub proof fn law_pod_without_tunnel_changes_nothing(
    m: Map<u128, TunnelEntryView>,
    p: PodView,
    text: Seq<char>,
)
    ensures
        p.annotations is None || (well_annotated(p) && forall|x: Seq<char>|
            !annotated(p, ANN_TUNNEL_ID@, x)) ==> changed(m, change_of(p)) == m && outcome(
            m,
            change_of(p),
        ) == PodOutcome::NoTunnel,
        well_annotated(p) && annotated(p, ANN_TUNNEL_ID@, text) && uuid_value(text) is None
            ==> changed(m, change_of(p)) == m && outcome(m, change_of(p)) == PodOutcome::InvalidId,
{
    if well_annotated(p) {
        lemma_annotated(p, ANN_TUNNEL_ID@, text);
    }
}

/// Two pods that differ in nothing but the order of their annotations, of which no key occurs twice,
/// change the registry in the same way.
pub proof fn law_event_order_free(p: PodView, q: PodView)
    requires
        p.annotations matches Some(v) && keys_differ(v),
        q == (PodView { annotations: q.annotations, ..p }),
        q.annotations matches Some(w) && w.to_multiset() == p.annotations->0.to_multiset(),
    ensures
        change_of(q) == change_of(p),
{
    let (v, w) = (p.annotations->0, q.annotations->0);
    law_annotation_order_free(v, w, ANN_TUNNEL_ID@);
    law_annotation_order_free(v, w, ANN_TUNNEL_PORT@);
    law_annotation_order_free(v, w, ANN_TUNNEL_RATE_LIMIT@);
    law_annotation_order_free(v, w, ANN_TUNNEL_RATE_LIMIT_UPLOAD@);
    law_annotation_order_free(v, w, ANN_TUNNEL_RATE_LIMIT_DOWNLOAD@);
}

/// A rate limit within bounds.
pub open spec fn limit_ok(l: Option<u16>) -> bool {
    l matches Some(n) ==> n <= MAX_RATE_LIMIT_M
}

/// Whether every tunnel leads to some address and no rate limit is above the highest one.
pub open spec fn within_limits(m: Map<u128, TunnelEntryView>) -> bool {
    forall|id: u128| #[trigger]
        m.contains_key(id) ==> m[id].host.len() > 0 && limit_ok(m[id].rate_limit_upload_m)
            && limit_ok(m[id].rate_limit_download_m)
}

proof fn lemma_rate_limit_ok(value: Option<Seq<char>>)
    ensures
        limit_ok(rate_limit(value)),
{
    if let Some(s) = value {
        lemma_number_in_range(trimmed(s), u16::MAX as int);
    }
}

/// In a registry that started empty, every tunnel leads to some address, and no rate limit is above
/// the highest one.
pub proof fn law_registry_within_limits(events: Seq<PodView>)
    ensures
        within_limits(after_events(Map::empty(), events)),
    decreases events.len(),
{
    if events.len() > 0 {
        law_registry_within_limits(events.drop_last());
        if let Some(ann) = events.last().annotations {
            lemma_rate_limit_ok(annotation(ann, ANN_TUNNEL_RATE_LIMIT@));
            lemma_rate_limit_ok(annotation(ann, ANN_TUNNEL_RATE_LIMIT_UPLOAD@));
            lemma_rate_limit_ok(annotation(ann, ANN_TUNNEL_RATE_LIMIT_DOWNLOAD@));
        }
    }
}

/// The limit for both directions holds in a direction that has none of its own, and only there.
pub proof fn law_own_limit_first(p: PodView)
    requires
        p.annotations is Some,
        p.pod_ip is Some,
    ensures
        ({
            let ann = p.annotations.unwrap();
            let both = rate_limit(annotation(ann, ANN_TUNNEL_RATE_LIMIT@));
            let up = rate_limit(annotation(ann, ANN_TUNNEL_RATE_LIMIT_UPLOAD@));
            let down = rate_limit(annotation(ann, ANN_TUNNEL_RATE_LIMIT_DOWNLOAD@));
            &&& up is Some ==> entry_of(p).rate_limit_upload_m == up
            &&& up is None ==> entry_of(p).rate_limit_upload_m == both
            &&& down is Some ==> entry_of(p).rate_limit_download_m == down
            &&& down is None ==> entry_of(p).rate_limit_download_m == both
        }),
{
}

} // verus!
