//! What the registry answers over http.
use crate::registry::state::{AppState, TunnelEntry, TunnelEntryView};
use crate::registry::watcher::{change_of, changed, entry_of, is_up, tunnel_of, PodView};
use crate::resolver::{host_of, payload, IpAddress, TunnelEndpointResponse};
use crate::text::{decimal, is_digit, law_decimal_round_trip, number_in, push_number, trimmed};
use vstd::prelude::*;
use vstd::string::*;
use vstd::utf8::*;

verus! {

/// The content type of a tunnel's description.
pub const CONTENT_TYPE: &'static str = "text/yaml; charset=utf-8";

/// The status of an answer that holds a description.
pub const STATUS_OK: u16 = 200;

/// The status of an answer about a tunnel that is not up.
pub const STATUS_NOT_FOUND: u16 = 404;

/// An answer to a request for a tunnel.
#[derive(Debug)]
pub struct TunnelReply {
    pub status: u16,
    pub content_type: Option<&'static str>,
    pub body: String,
}

/// A line with a rate limit, or nothing where there is none.
pub open spec fn limit_line(key: Seq<char>, limit: Option<u16>) -> Seq<char> {
    match limit {
        Some(m) => key + ": "@ + decimal(m as int) + "\n"@,
        None => Seq::empty(),
    }
}

/// A tunnel's description in YAML.
pub open spec fn description(e: TunnelEntryView) -> Seq<char> {
    "host: "@ + e.host + "\nport: "@ + decimal(e.port as int) + "\n"@ + limit_line(
        "rate_limit_upload_m"@,
        e.rate_limit_upload_m,
    ) + limit_line("rate_limit_download_m"@, e.rate_limit_download_m)
}

fn push_limit(out: &mut String, key: &str, limit: Option<u16>)
    ensures
        final(out)@ == old(out)@ + limit_line(key@, limit),
{
    if let Some(m) = limit {
        out.append(key);
        out.append(": ");
        push_number(out, m as u64);
        out.append("\n");
    }
    assert(out@ =~= old(out)@ + limit_line(key@, limit));
}

/// Writes a tunnel's description.
pub fn describe(entry: &TunnelEntry) -> (r: String)
    ensures
        r@ == description(entry@),
{
    let mut body = "host: ".to_owned();
    body.append(entry.host.as_str());
    body.append("\nport: ");
    push_number(&mut body, entry.port as u64);
    body.append("\n");
    push_limit(&mut body, "rate_limit_upload_m", entry.rate_limit_upload_m);
    push_limit(&mut body, "rate_limit_download_m", entry.rate_limit_download_m);
    body
}

/// Answers a request for a tunnel: its description if it is up, and not found if not.
pub fn get_tunnel(state: &AppState, id: u128) -> (r: TunnelReply)
    ensures
        state@.contains_key(id) ==> {
            &&& r.status == STATUS_OK
            &&& r.content_type matches Some(t) && t@ == CONTENT_TYPE@
            &&& r.body@ == description(state@[id])
        },
        !state@.contains_key(id) ==> {
            &&& r.status == STATUS_NOT_FOUND
            &&& r.content_type is None
            &&& r.body@.len() == 0
        },
{
    match state.get(id) {
        Some(entry) => TunnelReply {
            status: STATUS_OK,
            content_type: Some(CONTENT_TYPE),
            body: describe(entry),
        },
        None => TunnelReply {
            status: STATUS_NOT_FOUND,
            content_type: None,
            body: String::new(),
        },
    }
}

// --- Laws ---

/// Whether a host's text stays on one line.
pub open spec fn one_line(s: Seq<char>) -> bool {
    forall|i: int| 0 <= i < s.len() ==> s[i] != '\n'
}

proof fn lemma_split(a1: Seq<char>, b1: Seq<char>, a2: Seq<char>, b2: Seq<char>)
    requires
        one_line(a1),
        one_line(a2),
        a1 + seq!['\n'] + b1 == a2 + seq!['\n'] + b2,
    ensures
        a1 == a2,
        b1 == b2,
{
    let s = a1 + seq!['\n'] + b1;
    let t = a2 + seq!['\n'] + b2;
    if a1.len() < a2.len() {
        assert(s[a1.len() as int] == '\n');
        assert(t[a1.len() as int] == a2[a1.len() as int]);
        assert(false);
    }
    if a2.len() < a1.len() {
        assert(t[a2.len() as int] == '\n');
        assert(s[a2.len() as int] == a1[a2.len() as int]);
        assert(false);
    }
    assert forall|i: int| 0 <= i < a1.len() implies a1[i] == a2[i] by {
        assert(s[i] == a1[i]);
        assert(t[i] == a2[i]);
    }
    assert(a1 =~= a2);
    assert(s.len() == a1.len() + 1 + b1.len());
    assert(t.len() == a2.len() + 1 + b2.len());
    assert forall|i: int| 0 <= i < b1.len() implies b1[i] == b2[i] by {
        assert(s[a1.len() + 1 + i] == b1[i]);
        assert(t[a2.len() + 1 + i] == b2[i]);
    }
    assert(b1 =~= b2);
}

proof fn lemma_decimal_one_line(n: int)
    requires
        0 <= n,
    ensures
        one_line(decimal(n)),
{
    law_decimal_round_trip(n, n);
    assert forall|i: int| 0 <= i < decimal(n).len() implies decimal(n)[i] != '\n' by {
        assert(is_digit(decimal(n)[i]));
    }
}

proof fn lemma_decimal_injective(a: int, b: int)
    requires
        0 <= a,
        0 <= b,
        decimal(a) == decimal(b),
    ensures
        a == b,
{
    law_decimal_round_trip(a, a);
    law_decimal_round_trip(b, b);
}

/// The limits behind the host and the port.
spec fn limits(e: TunnelEntryView) -> Seq<char> {
    limit_line("rate_limit_upload_m"@, e.rate_limit_upload_m) + limit_line(
        "rate_limit_download_m"@,
        e.rate_limit_download_m,
    )
}

proof fn lemma_limit_line(key: Seq<char>, m: u16)
    requires
        one_line(key),
    ensures
        limit_line(key, Some(m)) == key + seq![':', ' '] + decimal(m as int) + seq!['\n'],
        one_line(key + seq![':', ' '] + decimal(m as int)),
{
    reveal_strlit(": ");
    reveal_strlit("\n");
    assert(": "@ =~= seq![':', ' ']);
    assert("\n"@ =~= seq!['\n']);
    lemma_decimal_one_line(m as int);
    let a = key + seq![':', ' '] + decimal(m as int);
    assert forall|i: int| 0 <= i < a.len() implies a[i] != '\n' by {
        if i < key.len() {
            assert(a[i] == key[i]);
        } else if i >= key.len() + 2 {
            assert(a[i] == decimal(m as int)[i - key.len() - 2]);
        }
    }
}

proof fn lemma_limit_value(key: Seq<char>, m: u16, rest1: Seq<char>, n: u16, rest2: Seq<char>)
    requires
        one_line(key),
        limit_line(key, Some(m)) + rest1 == limit_line(key, Some(n)) + rest2,
    ensures
        m == n,
        rest1 == rest2,
{
    lemma_limit_line(key, m);
    lemma_limit_line(key, n);
    let a = key + seq![':', ' '] + decimal(m as int);
    let b = key + seq![':', ' '] + decimal(n as int);
    assert(limit_line(key, Some(m)) + rest1 =~= a + seq!['\n'] + rest1);
    assert(limit_line(key, Some(n)) + rest2 =~= b + seq!['\n'] + rest2);
    lemma_split(a, rest1, b, rest2);
    assert(a.skip(key.len() as int + 2) =~= decimal(m as int));
    assert(b.skip(key.len() as int + 2) =~= decimal(n as int));
    lemma_decimal_injective(m as int, n as int);
}

proof fn lemma_limits_injective(a: TunnelEntryView, b: TunnelEntryView)
    requires
        limits(a) == limits(b),
    ensures
        a.rate_limit_upload_m == b.rate_limit_upload_m,
        a.rate_limit_download_m == b.rate_limit_download_m,
{
    reveal_strlit("rate_limit_upload_m");
    reveal_strlit("rate_limit_download_m");
    let up = "rate_limit_upload_m"@;
    let down = "rate_limit_download_m"@;
    let empty = Seq::<char>::empty();
    assert(up[11] == 'u' && down[11] == 'd');
    let da = limit_line(down, a.rate_limit_download_m);
    let db = limit_line(down, b.rate_limit_download_m);
    // A first character tells a line that is there from none, and the keys apart.
    assert(forall|m: u16| #[trigger] limit_line(up, Some(m)).len() > 11);
    assert(forall|m: u16| #[trigger] limit_line(down, Some(m)).len() > 11);
    assert(forall|m: u16| #[trigger] limit_line(up, Some(m))[11] == 'u');
    assert(forall|m: u16| #[trigger] limit_line(down, Some(m))[11] == 'd');
    match (a.rate_limit_upload_m, b.rate_limit_upload_m) {
        (Some(m), Some(n)) => {
            lemma_limit_value(up, m, da, n, db);
        },
        (Some(m), None) => {
            assert(limits(a)[11] == 'u');
            assert(limits(b) =~= db);
            assert(false);
        },
        (None, Some(n)) => {
            assert(limits(b)[11] == 'u');
            assert(limits(a) =~= da);
            assert(false);
        },
        (None, None) => {
            assert(limits(a) =~= da);
            assert(limits(b) =~= db);
        },
    }
    match (a.rate_limit_download_m, b.rate_limit_download_m) {
        (Some(m), Some(n)) => {
            assert(da =~= da + empty);
            assert(db =~= db + empty);
            lemma_limit_value(down, m, empty, n, empty);
        },
        _ => {},
    }
}

/// What stands behind the host and its newline.
spec fn behind_host(e: TunnelEntryView) -> Seq<char> {
    seq!['p', 'o', 'r', 't', ':', ' '] + decimal(e.port as int) + seq!['\n'] + limits(e)
}

proof fn lemma_description_parts(e: TunnelEntryView)
    ensures
        description(e).skip(6) == e.host + seq!['\n'] + behind_host(e),
        behind_host(e).skip(6) == decimal(e.port as int) + seq!['\n'] + limits(e),
{
    reveal_strlit("host: ");
    reveal_strlit("\nport: ");
    reveal_strlit("\n");
    let port_key = seq!['p', 'o', 'r', 't', ':', ' '];
    assert("\nport: "@ =~= seq!['\n'] + port_key);
    assert("\n"@ =~= seq!['\n']);
    let up = limit_line("rate_limit_upload_m"@, e.rate_limit_upload_m);
    let down = limit_line("rate_limit_download_m"@, e.rate_limit_download_m);
    assert("host: "@.len() == 6);
    assert(description(e) =~= "host: "@ + (e.host + seq!['\n'] + behind_host(e)));
    assert(description(e).skip(6) =~= e.host + seq!['\n'] + behind_host(e));
    assert(behind_host(e).skip(6) =~= decimal(e.port as int) + seq!['\n'] + limits(e));
}

/// A description tells everything of a tunnel: two tunnels with the same description have the same
/// host, port and rate limits. A host with a newline in it is out of this, and no address has one.
pub proof fn law_description_injective(a: TunnelEntryView, b: TunnelEntryView)
    requires
        one_line(a.host),
        one_line(b.host),
        description(a) == description(b),
    ensures
        a == b,
{
    lemma_description_parts(a);
    lemma_description_parts(b);
    lemma_split(a.host, behind_host(a), b.host, behind_host(b));
    lemma_decimal_one_line(a.port as int);
    lemma_decimal_one_line(b.port as int);
    lemma_split(decimal(a.port as int), limits(a), decimal(b.port as int), limits(b));
    lemma_decimal_injective(a.port as int, b.port as int);
    lemma_limits_injective(a, b);
}

/// A description is the host and the port, each in its line, and then a line for each limit that there
/// is, that of uploads first, and nothing else.
pub proof fn law_description_is_its_lines(
    host: Seq<char>,
    port: u16,
    up: Option<u16>,
    down: Option<u16>,
)
    ensures
        ({
            let bare = TunnelEntryView {
                host,
                port,
                rate_limit_upload_m: None,
                rate_limit_download_m: None,
            };
            let e = TunnelEntryView {
                host,
                port,
                rate_limit_upload_m: up,
                rate_limit_download_m: down,
            };
            let line_up = match up {
                Some(m) => "rate_limit_upload_m: "@ + decimal(m as int) + "\n"@,
                None => Seq::empty(),
            };
            let line_down = match down {
                Some(m) => "rate_limit_download_m: "@ + decimal(m as int) + "\n"@,
                None => Seq::empty(),
            };
            &&& description(bare) == "host: "@ + host + "\nport: "@ + decimal(port as int) + "\n"@
            &&& description(e) == description(bare) + line_up + line_down
        }),
{
    reveal_strlit("rate_limit_upload_m");
    reveal_strlit("rate_limit_upload_m: ");
    reveal_strlit("rate_limit_download_m");
    reveal_strlit("rate_limit_download_m: ");
    reveal_strlit(": ");
    assert("rate_limit_upload_m: "@ =~= "rate_limit_upload_m"@ + ": "@);
    assert("rate_limit_download_m: "@ =~= "rate_limit_download_m"@ + ": "@);
    let bare = TunnelEntryView {
        host,
        port,
        rate_limit_upload_m: None,
        rate_limit_download_m: None,
    };
    assert(description(bare) =~= "host: "@ + host + "\nport: "@ + decimal(port as int) + "\n"@);
}

/// The number of characters in the first line of a text, without its newline.
pub open spec fn line_len(text: Seq<char>) -> nat
    decreases text.len(),
{
    if text.len() == 0 || text[0] == '\n' {
        0
    } else {
        1 + line_len(text.drop_first())
    }
}

/// The value behind `key` and a colon, in the first line of a text that starts with them.
pub open spec fn line_value(text: Seq<char>, key: Seq<char>) -> Option<Seq<char>>
    decreases text.len(),
{
    let end = line_len(text) as int;
    let line = text.take(end);
    let head = key + ": "@;
    if head.len() <= line.len() && line.take(head.len() as int) == head {
        Some(line.skip(head.len() as int))
    } else if end < text.len() {
        line_value(text.skip(end + 1), key)
    } else {
        None
    }
}

proof fn lemma_first_line(line: Seq<char>, rest: Seq<char>)
    requires
        one_line(line),
    ensures
        line_len(line + seq!['\n'] + rest) == line.len(),
        (line + seq!['\n'] + rest).take(line.len() as int) == line,
        (line + seq!['\n'] + rest).skip(line.len() as int + 1) == rest,
    decreases line.len(),
{
    let text = line + seq!['\n'] + rest;
    if line.len() > 0 {
        assert(text[0] == line[0]);
        lemma_first_line(line.drop_first(), rest);
        assert(text.drop_first() =~= line.drop_first() + seq!['\n'] + rest);
    }
    assert(text.take(line.len() as int) =~= line);
    assert(text.skip(line.len() as int + 1) =~= rest);
}

/// A tunnel's host and port stand in the lines of its description that are named after them, whatever
/// limits it has. A host with a newline in it is out of this.
pub proof fn law_description_lines(e: TunnelEntryView)
    requires
        one_line(e.host),
    ensures
        line_value(description(e), "host"@) == Some(e.host),
        line_value(description(e), "port"@) == Some(decimal(e.port as int)),
        number_in(decimal(e.port as int), u16::MAX as int) == Some(e.port as int),
{
    law_decimal_round_trip(e.port as int, u16::MAX as int);
    reveal_strlit("host");
    reveal_strlit("port");
    reveal_strlit("host: ");
    reveal_strlit(": ");
    let host_head = "host"@ + ": "@;
    let port_head = "port"@ + ": "@;
    let host_line = host_head + e.host;
    let port_line = port_head + decimal(e.port as int);
    assert("host: "@ =~= host_head);
    assert(port_head =~= seq!['p', 'o', 'r', 't', ':', ' ']);
    lemma_description_parts(e);
    assert(description(e) =~= host_line + seq!['\n'] + behind_host(e)) by {
        assert(description(e).take(6) =~= host_head);
        assert(description(e) =~= description(e).take(6) + description(e).skip(6));
    }
    lemma_first_line(host_line, behind_host(e));
    assert(host_line.take(6) =~= host_head);
    assert(host_line.skip(6) =~= e.host);
    assert(host_line.take(6)[0] == 'h');
    assert(port_head[0] == 'p');
    lemma_decimal_one_line(e.port as int);
    lemma_first_line(port_line, limits(e));
    assert(behind_host(e) =~= port_line + seq!['\n'] + limits(e));
    assert(port_line.take(6) =~= port_head);
    assert(port_line.skip(6) =~= decimal(e.port as int));
    assert(line_value(behind_host(e), "port"@) == Some(decimal(e.port as int)));
}

/// A lookup undoes what the registry answers. Let a tunnel's description come back as the body of a
/// successful answer, and let `response` hold what stands in its `host` and `port` lines, whatever
/// limits stand below them: then the body's text is the description, the response names a host, which
/// is the tunnel's, be it read as an IP address or as a domain, and the port is the tunnel's. A host
/// with a newline in it is out of this, and so is one that is empty or has white space around it.
pub proof fn law_lookup_undoes_answer(e: TunnelEntryView, response: TunnelEndpointResponse)
    requires
        one_line(e.host),
        e.host.len() > 0,
        trimmed(e.host) == e.host,
        ({
            let text = payload(encode_utf8(description(e)));
            &&& line_value(text, "host"@) == Some(response.host@)
            &&& line_value(text, "port"@) matches Some(p) && number_in(p, u16::MAX as int) == Some(
                response.port as int,
            )
        }),
    ensures
        payload(encode_utf8(description(e))) == description(e),
        trimmed(response.host@).len() > 0,
        forall|ip: Option<IpAddress>| #[trigger]
            host_of(trimmed(response.host@), ip) == host_of(e.host, ip),
        response.port == e.port,
{
    encode_utf8_valid_utf8(description(e));
    encode_utf8_decode_utf8(description(e));
    law_description_lines(e);
}

/// Right after an event about a tunnel, a request for the tunnel is answered by what the event
/// says: the description of the pod's entry if the pod is up, and not found if it is not.
pub proof fn law_answer_follows_event(m: Map<u128, TunnelEntryView>, p: PodView, id: u128)
    requires
        tunnel_of(p) == Some(id),
    ensures
        is_up(p) ==> changed(m, change_of(p)).contains_key(id) && description(
            changed(m, change_of(p))[id],
        ) == description(entry_of(p)),
        !is_up(p) ==> !changed(m, change_of(p)).contains_key(id),
{
}

} // verus!
