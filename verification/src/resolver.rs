//! How a tunnel's end is asked for over http, and what an answer means.
use crate::text::{decode_lossy, lossy, same_text, trim, trimmed, utf8_text};
use crate::uuids::{format_uuid, hex_value, law_uuid_round_trip, law_uuid_text_injective, uuid_text};
use url::Position;
use vstd::prelude::*;
use vstd::string::*;
use vstd::utf8::*;

verus! {

/// What of a URL the resolver reads: its scheme, whether it has no path that could be appended to,
/// the text before its path, the path, and the text behind it.
#[derive(Debug)]
pub struct UrlParts {
    pub scheme: String,
    pub cannot_be_a_base: bool,
    pub before_path: String,
    pub path: String,
    pub after_path: String,
}

/// The mathematical content of [`UrlParts`].
pub ghost struct UrlPartsView {
    pub scheme: Seq<char>,
    pub cannot_be_a_base: bool,
    pub before_path: Seq<char>,
    pub path: Seq<char>,
    pub after_path: Seq<char>,
}

impl View for UrlParts {
    type V = UrlPartsView;

    open spec fn view(&self) -> UrlPartsView {
        UrlPartsView {
            scheme: self.scheme@,
            cannot_be_a_base: self.cannot_be_a_base,
            before_path: self.before_path@,
            path: self.path@,
            after_path: self.after_path@,
        }
    }
}

/// The parts that `url::Url::parse` finds in a text, or none where it finds no URL.
pub uninterp spec fn url_parts(text: Seq<char>) -> Option<UrlPartsView>;

/// Takes a URL apart.
///
/// Trusted: what `url::Url::parse` finds in a text depends on the text alone. How a text is split
/// into parts is left unsaid.
#[verifier::external_body]
fn parse_url(text: &str) -> (r: Option<UrlParts>)
    ensures
        url_parts(text@) == (match r {
            Some(p) => Some(p@),
            None => None,
        }),
{
    url::Url::parse(text).ok().map(|u| UrlParts {
        scheme: u.scheme().to_string(),
        cannot_be_a_base: u.cannot_be_a_base(),
        before_path: u[..Position::BeforePath].to_string(),
        path: u[Position::BeforePath..Position::AfterPath].to_string(),
        after_path: u[Position::AfterPath..].to_string(),
    })
}

/// Whether a text is made of hexadecimal digits and hyphens.
pub open spec fn is_id_text(s: Seq<char>) -> bool {
    forall|i: int| 0 <= i < s.len() ==> hex_value(#[trigger] s[i]) is Some || s[i] == '-'
}

/// A URL with a segment behind its path: with a slash between, unless the path is a slash.
pub open spec fn with_segment(p: UrlPartsView, segment: Seq<char>) -> Seq<char> {
    p.before_path + p.path + (if p.path == seq!['/'] {
        Seq::empty()
    } else {
        seq!['/']
    }) + segment + p.after_path
}

/// The number of bytes in a URL.
pub open spec fn url_bytes(p: UrlPartsView) -> nat {
    encode_utf8(p.before_path).len() + encode_utf8(p.path).len() + encode_utf8(p.after_path).len()
}

/// Whether a slash and an id can be appended to a URL's path: it has one, and the URL stays short
/// enough for 32-bit offsets.
pub open spec fn can_append(p: UrlPartsView) -> bool {
    !p.cannot_be_a_base && url_bytes(p) + 37 <= u32::MAX
}

/// Appends a segment to the path of an http URL.
///
/// Trusted: `PathSegmentsMut::push`, reached through `url::Url::path_segments_mut`, puts a slash and
/// the segment behind the path, and the slash only where the path is not a single one. Hexadecimal
/// digits and hyphens stay as they are; segments with other characters are left out, and so are URLs
/// that outgrow the 32-bit offsets of `url::Url`, where it panics.
#[verifier::external_body]
fn push_segment(text: &str, segment: &str) -> (r: String)
    requires
        url_parts(text@) is Some,
        url_parts(text@)->0.scheme == "http"@,
        can_append(url_parts(text@)->0),
        0 < segment@.len() <= 36,
        is_id_text(segment@),
    ensures
        r@ == with_segment(url_parts(text@)->0, segment@),
{
    let mut url = url::Url::parse(text).unwrap();
    url.path_segments_mut().unwrap().push(segment);
    url.into()
}

/// Whether `hyper::Uri` takes a text.
pub uninterp spec fn uri_accepted(text: Seq<char>) -> bool;

/// Tests whether a text is a URI.
///
/// Trusted: whether a text parses as a `hyper::Uri` depends on the text alone. Which texts do is
/// left unsaid.
#[verifier::external_body]
fn is_uri(text: &str) -> (r: bool)
    ensures
        r == uri_accepted(text@),
{
    text.parse::<hyper::Uri>().is_ok()
}

// --- Request ---

/// Why a tunnel could not be resolved.
#[derive(Debug)]
pub enum ResolveError {
    /// The base is no URL.
    InvalidBase,
    /// The base has another scheme than http.
    UnsupportedScheme(String),
    /// Nothing can be appended to the base.
    CannotAppend,
    /// The request's address is no URI.
    InvalidUri(String),
    /// The resolver answered with a status other than success.
    Rejected { status: u16, body: String },
    /// The resolver named no host.
    EmptyHost,
}

/// The mathematical content of a [`ResolveError`].
pub ghost enum ResolveErrorView {
    InvalidBase,
    UnsupportedScheme(Seq<char>),
    CannotAppend,
    InvalidUri(Seq<char>),
    Rejected { status: u16, body: Seq<char> },
    EmptyHost,
}

impl View for ResolveError {
    type V = ResolveErrorView;

    open spec fn view(&self) -> ResolveErrorView {
        match self {
            ResolveError::InvalidBase => ResolveErrorView::InvalidBase,
            ResolveError::UnsupportedScheme(s) => ResolveErrorView::UnsupportedScheme(s@),
            ResolveError::CannotAppend => ResolveErrorView::CannotAppend,
            ResolveError::InvalidUri(u) => ResolveErrorView::InvalidUri(u@),
            ResolveError::Rejected { status, body } => ResolveErrorView::Rejected {
                status: *status,
                body: body@,
            },
            ResolveError::EmptyHost => ResolveErrorView::EmptyHost,
        }
    }
}

/// The text of an error in resolving tunnel `id` at `base`. `status` is the text of a rejection's
/// status.
pub open spec fn error_text(
    e: ResolveErrorView,
    base: Seq<char>,
    id: u128,
    status: Seq<char>,
) -> Seq<char> {
    match e {
        ResolveErrorView::InvalidBase => "invalid resolver base url "@ + base,
        ResolveErrorView::UnsupportedScheme(s) =>
            "tunnel resolver only supports http:// for now, got "@ + s,
        ResolveErrorView::CannotAppend => "cannot append path to resolver base url "@ + base,
        ResolveErrorView::InvalidUri(u) => "invalid resolver uri "@ + u,
        ResolveErrorView::Rejected { body, .. } => "resolver rejected tunnel "@ + uuid_text(id)
            + ": status "@ + status + " body "@ + body,
        ResolveErrorView::EmptyHost => "host is empty"@,
    }
}

impl ResolveError {
    /// The text of the error, for a user.
    pub fn message(&self, base: &str, id: u128, status: &str) -> (r: String)
        ensures
            r@ == error_text(self@, base@, id, status@),
    {
        match self {
            ResolveError::InvalidBase => {
                let mut r = "invalid resolver base url ".to_owned();
                r.append(base);
                r
            },
            ResolveError::UnsupportedScheme(s) => {
                let mut r = "tunnel resolver only supports http:// for now, got ".to_owned();
                r.append(s.as_str());
                r
            },
            ResolveError::CannotAppend => {
                let mut r = "cannot append path to resolver base url ".to_owned();
                r.append(base);
                r
            },
            ResolveError::InvalidUri(u) => {
                let mut r = "invalid resolver uri ".to_owned();
                r.append(u.as_str());
                r
            },
            ResolveError::Rejected { body, .. } => {
                let mut r = "resolver rejected tunnel ".to_owned();
                let text = format_uuid(id);
                r.append(text.as_str());
                r.append(": status ");
                r.append(status);
                r.append(" body ");
                r.append(body.as_str());
                r
            },
            ResolveError::EmptyHost => "host is empty".to_owned(),
        }
    }
}

/// A GET request to the resolver.
#[derive(Debug)]
pub struct ResolverRequest {
    pub uri: String,
    pub authorization: Option<String>,
}

/// The mathematical content of a [`ResolverRequest`].
pub ghost struct ResolverRequestView {
    pub uri: Seq<char>,
    pub authorization: Option<Seq<char>>,
}

/// An optional text as characters.
pub open spec fn opt_chars(t: Option<&str>) -> Option<Seq<char>> {
    match t {
        Some(s) => Some(s@),
        None => None,
    }
}

impl View for ResolverRequest {
    type V = ResolverRequestView;

    open spec fn view(&self) -> ResolverRequestView {
        ResolverRequestView {
            uri: self.uri@,
            authorization: match self.authorization {
                Some(a) => Some(a@),
                None => None,
            },
        }
    }
}

/// A request, an error, the parts of a URL and an optional text stand for what they hold.
pub proof fn law_lookup_values_stand_for_themselves(
    q: ResolverRequest,
    e: ResolveError,
    p: UrlParts,
    t: Option<&str>,
)
    ensures
        q@.uri == q.uri@,
        q.authorization matches Some(a) ==> q@.authorization == Some(a@),
        q.authorization is None ==> q@.authorization is None,
        match e {
            ResolveError::InvalidBase => e@ is InvalidBase,
            ResolveError::UnsupportedScheme(s) => e@ == ResolveErrorView::UnsupportedScheme(s@),
            ResolveError::CannotAppend => e@ is CannotAppend,
            ResolveError::InvalidUri(u) => e@ == ResolveErrorView::InvalidUri(u@),
            ResolveError::Rejected { status, body } => e@ == (ResolveErrorView::Rejected {
                status,
                body: body@,
            }),
            ResolveError::EmptyHost => e@ is EmptyHost,
        },
        p@.scheme == p.scheme@,
        p@.cannot_be_a_base == p.cannot_be_a_base,
        p@.before_path == p.before_path@,
        p@.path == p.path@,
        p@.after_path == p.after_path@,
        t matches Some(s) ==> opt_chars(t) == Some(s@),
        t is None ==> opt_chars(t) is None,
{
}

/// What is wrong with a base, if anything.
pub open spec fn base_fault(parts: Option<UrlPartsView>) -> Option<ResolveErrorView> {
    match parts {
        None => Some(ResolveErrorView::InvalidBase),
        Some(p) => if p.scheme != "http"@ {
            Some(ResolveErrorView::UnsupportedScheme(p.scheme))
        } else if !can_append(p) {
            Some(ResolveErrorView::CannotAppend)
        } else {
            None
        },
    }
}

impl UrlParts {
    /// Whether a slash and an id fit behind the path.
    fn has_room(&self) -> (r: bool)
        ensures
            r == (url_bytes(self@) + 37 <= u32::MAX),
    {
        let before: u128 = self.before_path.as_str().as_bytes().len() as u128;
        let path: u128 = self.path.as_str().as_bytes().len() as u128;
        let after: u128 = self.after_path.as_str().as_bytes().len() as u128;
        before + path + after + 37 <= 0xFFFF_FFFF
    }
}

/// Judges a base by its parts.
pub fn judge_base(parts: &Option<UrlParts>) -> (r: Option<ResolveError>)
    ensures
        base_fault(
            match parts {
                Some(p) => Some(p@),
                None => None,
            },
        ) == (match r {
            Some(e) => Some(e@),
            None => None,
        }),
{
    match parts {
        None => Some(ResolveError::InvalidBase),
        Some(p) => {
            if !same_text(p.scheme.as_str(), "http") {
                Some(ResolveError::UnsupportedScheme(p.scheme.clone()))
            } else if p.cannot_be_a_base || !p.has_room() {
                Some(ResolveError::CannotAppend)
            } else {
                None
            }
        },
    }
}

/// The request for an address that is a URI or not. An empty authorization is none.
pub open spec fn request_at(
    uri: Seq<char>,
    accepted: bool,
    authorization: Option<Seq<char>>,
) -> Result<ResolverRequestView, ResolveErrorView> {
    if accepted {
        Ok(
            ResolverRequestView {
                uri,
                authorization: match authorization {
                    Some(a) => if a.len() > 0 {
                        Some(a)
                    } else {
                        None
                    },
                    None => None,
                },
            },
        )
    } else {
        Err(ResolveErrorView::InvalidUri(uri))
    }
}

/// A request goes to the address that it is made for, if that is a URI, and takes an authorization along
/// as it is, unless it is empty.
pub proof fn law_request_keeps_address_and_authorization(uri: Seq<char>, authorization: Seq<char>)
    ensures
        request_at(uri, true, None) == Ok::<ResolverRequestView, ResolveErrorView>(
            ResolverRequestView { uri, authorization: None },
        ),
        request_at(uri, true, Some(Seq::empty())) == request_at(uri, true, None),
        authorization.len() > 0 ==> request_at(uri, true, Some(authorization)) == Ok::<
            ResolverRequestView,
            ResolveErrorView,
        >(ResolverRequestView { uri, authorization: Some(authorization) }),
        request_at(uri, false, None) == Err::<ResolverRequestView, ResolveErrorView>(
            ResolveErrorView::InvalidUri(uri),
        ),
        request_at(uri, false, Some(authorization)) == request_at(uri, false, None),
{
}

/// Makes the request for an address that is a URI or not.
pub fn assemble_request(
    uri: String,
    accepted: bool,
    authorization: Option<&str>,
) -> (r: Result<ResolverRequest, ResolveError>)
    ensures
        match r {
            Ok(q) => request_at(uri@, accepted, opt_chars(authorization)) == Ok::<
                ResolverRequestView,
                ResolveErrorView,
            >(q@),
            Err(e) => request_at(uri@, accepted, opt_chars(authorization)) == Err::<
                ResolverRequestView,
                ResolveErrorView,
            >(e@),
        },
{
    if !accepted {
        return Err(ResolveError::InvalidUri(uri));
    }
    let authorization = match authorization {
        Some(a) => if a.is_empty() {
            None
        } else {
            Some(a.to_owned())
        },
        None => None,
    };
    Ok(ResolverRequest { uri, authorization })
}

/// The request that asks the resolver at `base` for tunnel `id`.
pub open spec fn request_for(
    base: Seq<char>,
    id: u128,
    authorization: Option<Seq<char>>,
) -> Result<ResolverRequestView, ResolveErrorView> {
    match base_fault(url_parts(base)) {
        Some(e) => Err(e),
        None => {
            let uri = with_segment(url_parts(base)->0, uuid_text(id));
            request_at(uri, uri_accepted(uri), authorization)
        },
    }
}

/// Makes the request that asks the resolver at `base` for tunnel `id`: the id is the last segment
/// of the path.
pub fn resolver_request(
    base: &str,
    id: u128,
    authorization: Option<&str>,
) -> (r: Result<ResolverRequest, ResolveError>)
    ensures
        match r {
            Ok(q) => request_for(base@, id, opt_chars(authorization)) == Ok::<
                ResolverRequestView,
                ResolveErrorView,
            >(q@),
            Err(e) => request_for(base@, id, opt_chars(authorization)) == Err::<
                ResolverRequestView,
                ResolveErrorView,
            >(e@),
        },
{
    let parts = parse_url(base);
    if let Some(fault) = judge_base(&parts) {
        return Err(fault);
    }
    let segment = format_uuid(id);
    proof {
        law_uuid_round_trip(id);
    }
    let uri = push_segment(base, segment.as_str());
    let accepted = is_uri(uri.as_str());
    assemble_request(uri, accepted, authorization)
}

// --- Answer ---

/// The text of a successful answer's body: none where it is not UTF-8.
pub open spec fn payload(body: Seq<u8>) -> Seq<char> {
    if valid_utf8(body) {
        decode_utf8(body)
    } else {
        Seq::empty()
    }
}

/// Judges an answer by its status: the text of its body on success, and the rejection otherwise.
pub fn resolver_reply(status: u16, body: &[u8]) -> (r: Result<String, ResolveError>)
    ensures
        match r {
            Ok(text) => 200 <= status <= 299 && text@ == payload(body@),
            Err(e) => !(200 <= status <= 299) && e@ == (ResolveErrorView::Rejected {
                status,
                body: lossy(body@),
            }),
        },
{
    if 200 <= status && status <= 299 {
        match utf8_text(body) {
            Some(text) => Ok(text.to_owned()),
            None => Ok(String::new()),
        }
    } else {
        Err(ResolveError::Rejected { status, body: decode_lossy(body) })
    }
}

/// An IP address, as a number with the first octet or group highest.
#[derive(Debug, Clone, Copy, PartialEq, Eq, Structural)]
pub enum IpAddress {
    V4(u32),
    V6(u128),
}

/// The host that a tunnel leads to.
#[derive(Debug)]
pub enum Host {
    Domain(String),
    Ipv4(u32),
    Ipv6(u128),
}

/// The mathematical content of a [`Host`].
pub ghost enum HostView {
    Domain(Seq<char>),
    Ipv4(u32),
    Ipv6(u128),
}

impl View for Host {
    type V = HostView;

    open spec fn view(&self) -> HostView {
        match self {
            Host::Domain(d) => HostView::Domain(d@),
            Host::Ipv4(a) => HostView::Ipv4(*a),
            Host::Ipv6(a) => HostView::Ipv6(*a),
        }
    }
}

/// The host of a text that is an IP address or not.
pub open spec fn host_of(text: Seq<char>, ip: Option<IpAddress>) -> HostView {
    match ip {
        Some(IpAddress::V4(a)) => HostView::Ipv4(a),
        Some(IpAddress::V6(a)) => HostView::Ipv6(a),
        None => HostView::Domain(text),
    }
}

/// Makes a host of a text and the IP address that it writes, if it writes one.
pub fn host_from(text: &str, ip: Option<IpAddress>) -> (r: Host)
    ensures
        r@ == host_of(text@, ip),
        match ip {
            Some(IpAddress::V4(a)) => r == Host::Ipv4(a),
            Some(IpAddress::V6(a)) => r == Host::Ipv6(a),
            None => r matches Host::Domain(d) && d@ == text@,
        },
{
    match ip {
        Some(IpAddress::V4(a)) => Host::Ipv4(a),
        Some(IpAddress::V6(a)) => Host::Ipv6(a),
        None => Host::Domain(text.to_owned()),
    }
}

/// Whether `parse_ip`, given the text `text`, may say `ip`.
pub open spec fn may_parse<F: Fn(&str) -> Option<IpAddress>>(
    parse_ip: F,
    text: Seq<char>,
    ip: Option<IpAddress>,
) -> bool {
    exists|t: &str| t@ == text && #[trigger] call_ensures(parse_ip, (t,), ip)
}

/// Reads a host, without the white space around it. `parse_ip` reads IP addresses; what it does not
/// take is a domain.
pub fn parse_host<F: Fn(&str) -> Option<IpAddress>>(
    host: &str,
    parse_ip: F,
) -> (r: Result<Host, ResolveError>)
    requires
        forall|s: &str| #[trigger] call_requires(parse_ip, (s,)),
    ensures
        match r {
            Err(e) => trimmed(host@).len() == 0 && e@ == ResolveErrorView::EmptyHost,
            Ok(h) => trimmed(host@).len() > 0 && exists|ip: Option<IpAddress>| #[trigger]
                may_parse(parse_ip, trimmed(host@), ip) && h@ == host_of(trimmed(host@), ip) && (
                match ip {
                    Some(IpAddress::V4(a)) => h == Host::Ipv4(a),
                    Some(IpAddress::V6(a)) => h == Host::Ipv6(a),
                    None => h matches Host::Domain(d) && d@ == trimmed(host@),
                }),
        },
{
    let text = trim(host);
    if text.is_empty() {
        return Err(ResolveError::EmptyHost);
    }
    let ip = parse_ip(text);
    assert(may_parse(parse_ip, text@, ip));
    Ok(host_from(text, ip))
}

/// What the resolver says of a tunnel's end.
#[derive(Debug)]
pub struct TunnelEndpointResponse {
    pub host: String,
    pub port: u16,
}

/// The tunnel's end by what the resolver says of it.
pub fn endpoint<F: Fn(&str) -> Option<IpAddress>>(
    response: &TunnelEndpointResponse,
    parse_ip: F,
) -> (r: Result<(Host, u16), ResolveError>)
    requires
        forall|s: &str| #[trigger] call_requires(parse_ip, (s,)),
    ensures
        match r {
            Err(e) => trimmed(response.host@).len() == 0 && e@ == ResolveErrorView::EmptyHost,
            Ok((h, port)) => {
                &&& port == response.port
                &&& trimmed(response.host@).len() > 0
                &&& exists|ip: Option<IpAddress>| #[trigger]
                    may_parse(parse_ip, trimmed(response.host@), ip) && h@ == host_of(
                        trimmed(response.host@),
                        ip,
                    ) && (match ip {
                        Some(IpAddress::V4(a)) => h == Host::Ipv4(a),
                        Some(IpAddress::V6(a)) => h == Host::Ipv6(a),
                        None => h matches Host::Domain(d) && d@ == trimmed(response.host@),
                    })
            },
        },
{
    match parse_host(response.host.as_str(), parse_ip) {
        Ok(host) => Ok((host, response.port)),
        Err(e) => Err(e),
    }
}

// --- Laws ---

/// Requests for different tunnels go to different addresses.
pub proof fn law_address_names_tunnel(p: UrlPartsView, a: u128, b: u128)
    requires
        with_segment(p, uuid_text(a)) == with_segment(p, uuid_text(b)),
    ensures
        a == b,
{
    let slash = if p.path == seq!['/'] {
        Seq::empty()
    } else {
        seq!['/']
    };
    let start = (p.before_path + p.path + slash).len() as int;
    law_uuid_round_trip(a);
    law_uuid_round_trip(b);
    assert(with_segment(p, uuid_text(a)).subrange(start, start + 36) =~= uuid_text(a));
    assert(with_segment(p, uuid_text(b)).subrange(start, start + 36) =~= uuid_text(b));
    law_uuid_text_injective(a, b);
}

/// A host is the very address that its text is read as, in either family and bit for bit, and a text that
/// is read as no address is a domain of that text. Different addresses and texts are different hosts.
pub proof fn law_host_is_what_is_read(text: Seq<char>, v4: u32, v6: u128)
    ensures
        host_of(text, Some(IpAddress::V4(v4))) == HostView::Ipv4(v4),
        host_of(text, Some(IpAddress::V6(v6))) == HostView::Ipv6(v6),
        host_of(text, None) == HostView::Domain(text),
{
}

/// A host stands for its own address or text.
pub proof fn law_host_stands_for_itself(host: Host)
    ensures
        host matches Host::Ipv4(a) ==> host@ == HostView::Ipv4(a),
        host matches Host::Ipv6(a) ==> host@ == HostView::Ipv6(a),
        host matches Host::Domain(d) ==> host@ == HostView::Domain(d@),
{
}

/// What a reader of addresses may say of a text is what it says of that text and of no other: where it
/// says what `read` says of every text, that is what it says of this one.
pub proof fn law_reader_is_asked_for_the_text<F: Fn(&str) -> Option<IpAddress>>(
    parse_ip: F,
    read: spec_fn(Seq<char>) -> Option<IpAddress>,
    text: Seq<char>,
    ip: Option<IpAddress>,
)
    requires
        forall|s: &str, r: Option<IpAddress>| #[trigger]
            call_ensures(parse_ip, (s,), r) ==> r == read(s@),
        may_parse(parse_ip, text, ip),
    ensures
        ip == read(text),
{
}

/// A base that can be asked is asked for the tunnel: the address is the base with the id as one more
/// segment of its path, set off by a slash where the path is more than one, and nothing else of it
/// changes. An authorization goes with the request as it is, unless it is empty. Where the address is no
/// URI, the request is refused with the address.
pub proof fn law_request_asks_for_the_tunnel(
    base: Seq<char>,
    p: UrlPartsView,
    id: u128,
    authorization: Option<Seq<char>>,
    address: Seq<char>,
)
    requires
        url_parts(base) == Some(p),
        p.scheme == "http"@,
        !p.cannot_be_a_base,
        encode_utf8(p.before_path).len() + encode_utf8(p.path).len() + encode_utf8(
            p.after_path,
        ).len() <= 4294967258,
        p.path == seq!['/'] ==> address == p.before_path + p.path + uuid_text(id) + p.after_path,
        p.path != seq!['/'] ==> address == p.before_path + p.path + seq!['/'] + uuid_text(id)
            + p.after_path,
    ensures
        uri_accepted(address) ==> (match request_for(base, id, authorization) {
            Ok(q) => {
                &&& q.uri == address
                &&& authorization is None ==> q.authorization is None
                &&& authorization matches Some(a) ==> q.authorization == (if a.len() == 0 {
                    None
                } else {
                    Some(a)
                })
            },
            Err(_) => false,
        }),
        !uri_accepted(address) ==> request_for(base, id, authorization) == Err::<
            ResolverRequestView,
            ResolveErrorView,
        >(ResolveErrorView::InvalidUri(address)),
{
    assert(with_segment(p, uuid_text(id)) =~= address);
}

/// A base that cannot be asked is refused before anything is sent: one that is no URL, one of another
/// scheme than http, and one of http to whose path nothing can be appended or that is too long for it.
pub proof fn law_base_is_refused(
    base: Seq<char>,
    id: u128,
    authorization: Option<Seq<char>>,
)
    ensures
        url_parts(base) is None ==> request_for(base, id, authorization) == Err::<
            ResolverRequestView,
            ResolveErrorView,
        >(ResolveErrorView::InvalidBase),
        url_parts(base) matches Some(p) ==> p.scheme == "http"@ && (p.cannot_be_a_base
            || encode_utf8(p.before_path).len() + encode_utf8(p.path).len() + encode_utf8(
            p.after_path,
        ).len() > 4294967258) ==> request_for(base, id, authorization) == Err::<
            ResolverRequestView,
            ResolveErrorView,
        >(ResolveErrorView::CannotAppend),
{
}

/// The text of a successful answer is its body's, and a body that is not text has none.
pub proof fn law_payload_is_the_text(text: Seq<char>, body: Seq<u8>)
    ensures
        payload(encode_utf8(text)) == text,
        !valid_utf8(body) ==> payload(body).len() == 0,
{
    encode_utf8_valid_utf8(text);
    encode_utf8_decode_utf8(text);
}

/// The text of an error says what the error holds, and names the base or the tunnel that it is about.
pub proof fn law_error_text_says_what_is_wrong(
    text: Seq<char>,
    base: Seq<char>,
    id: u128,
    code: u16,
    status: Seq<char>,
)
    ensures
        error_text(ResolveErrorView::InvalidBase, base, id, status) == "invalid resolver base url "@
            + base,
        error_text(ResolveErrorView::UnsupportedScheme(text), base, id, status)
            == "tunnel resolver only supports http:// for now, got "@ + text,
        error_text(ResolveErrorView::CannotAppend, base, id, status)
            == "cannot append path to resolver base url "@ + base,
        error_text(ResolveErrorView::InvalidUri(text), base, id, status) == "invalid resolver uri "@
            + text,
        error_text(ResolveErrorView::Rejected { status: code, body: text }, base, id, status)
            == "resolver rejected tunnel "@ + uuid_text(id) + ": status "@ + status + " body "@ + text,
        error_text(ResolveErrorView::EmptyHost, base, id, status) == "host is empty"@,
{
}

/// A base with another scheme than http is refused, whatever else it holds, and before anything is
/// asked.
pub proof fn law_only_http(base: Seq<char>, id: u128, authorization: Option<Seq<char>>)
    requires
        url_parts(base) matches Some(p) && p.scheme != "http"@,
    ensures
        request_for(base, id, authorization) == Err::<ResolverRequestView, ResolveErrorView>(
            ResolveErrorView::UnsupportedScheme(url_parts(base)->0.scheme),
        ),
{
}

} // verus!
