use wstunnel::resolver::{
    assemble_request, endpoint, host_from, judge_base, parse_host, resolver_reply, resolver_request,
    Host, IpAddress, ResolveError, TunnelEndpointResponse, UrlParts,
};
use wstunnel::ssh::{hash_step, login_result, signature_hash, tunnel_remote, HashStep, SshError};

const ID_TEXT: &str = "67e55044-10b1-426f-9247-bb680e5fe0c8";
const ID: u128 = 0x67e55044_10b1_426f_9247_bb680e5fe0c8;

fn parse_ip(s: &str) -> Option<IpAddress> {
    match s {
        "10.0.0.7" => Some(IpAddress::V4(0x0a000007)),
        "1.2.3.4" => Some(IpAddress::V4(0x01020304)),
        "::1" => Some(IpAddress::V6(1)),
        _ => None,
    }
}

#[test]
fn request_goes_to_the_base_with_the_id_behind_it() {
    for (base, expected) in [
        ("http://localhost:9000/tunnels", "http://localhost:9000/tunnels/"),
        ("http://localhost:9000", "http://localhost:9000/"),
        ("http://localhost:9000/", "http://localhost:9000/"),
        ("HTTP://Localhost:80/a/", "http://localhost/a//"),
        ("http://h/a b", "http://h/a%20b/"),
    ] {
        let q = resolver_request(base, ID, None).unwrap();
        assert_eq!(q.uri, format!("{expected}{ID_TEXT}"));
        assert!(q.authorization.is_none());
    }
    let q = resolver_request("http://h/t?x=1#f", ID, None).unwrap();
    assert_eq!(q.uri, format!("http://h/t/{ID_TEXT}?x=1#f"));
}

#[test]
fn empty_authorization_is_none() {
    let q = resolver_request("http://h", ID, Some("")).unwrap();
    assert!(q.authorization.is_none());
    let q = resolver_request("http://h", ID, Some("Bearer t")).unwrap();
    assert_eq!(q.authorization.as_deref(), Some("Bearer t"));
}

#[test]
fn bases_that_are_wrong_are_told_apart() {
    assert!(matches!(
        resolver_request("https://h", ID, None),
        Err(ResolveError::UnsupportedScheme(s)) if s == "https"
    ));
    assert!(matches!(
        resolver_request("mailto:a@b", ID, None),
        Err(ResolveError::UnsupportedScheme(s)) if s == "mailto"
    ));
    assert!(matches!(resolver_request("no url", ID, None), Err(ResolveError::InvalidBase)));
    let parts = |scheme: &str, cannot_be_a_base: bool| {
        Some(UrlParts {
            scheme: scheme.to_string(),
            cannot_be_a_base,
            before_path: "http://h".to_string(),
            path: "/".to_string(),
            after_path: String::new(),
        })
    };
    assert!(judge_base(&parts("http", false)).is_none());
    assert!(matches!(judge_base(&parts("http", true)), Some(ResolveError::CannotAppend)));
    assert!(matches!(judge_base(&parts("ftp", true)), Some(ResolveError::UnsupportedScheme(_))));
    assert!(matches!(judge_base(&None), Some(ResolveError::InvalidBase)));
}

#[test]
fn address_that_is_no_uri_is_refused() {
    assert!(matches!(
        assemble_request("x".to_string(), false, None),
        Err(ResolveError::InvalidUri(u)) if u == "x"
    ));
    let long = format!("http://h/{}", "a".repeat(70000));
    assert!(matches!(
        resolver_request(&long, ID, None),
        Err(ResolveError::InvalidUri(u)) if u == format!("{long}/{ID_TEXT}")
    ));
}

#[test]
fn answers_are_judged_by_their_status() {
    assert_eq!(resolver_reply(200, b"host: h\n").unwrap(), "host: h\n");
    assert_eq!(resolver_reply(299, b"").unwrap(), "");
    assert_eq!(resolver_reply(204, &[b'a', 0xff]).unwrap(), "");
    for status in [199, 300, 404, 500] {
        match resolver_reply(status, &[b'a', 0xff]) {
            Err(ResolveError::Rejected { status: s, body }) => {
                assert_eq!(s, status);
                assert_eq!(body, "a\u{fffd}");
            }
            _ => panic!("{status}"),
        }
    }
}

#[test]
fn hosts_are_addresses_or_domains() {
    assert!(matches!(parse_host(" 10.0.0.7\n", parse_ip), Ok(Host::Ipv4(0x0a000007))));
    assert!(matches!(parse_host("::1", parse_ip), Ok(Host::Ipv6(1))));
    assert!(matches!(parse_host(" pod.local ", parse_ip), Ok(Host::Domain(d)) if d == "pod.local"));
    assert!(matches!(parse_host("10.0.0.256", parse_ip), Ok(Host::Domain(d)) if d == "10.0.0.256"));
    assert!(matches!(parse_host(" \t", parse_ip), Err(ResolveError::EmptyHost)));
    assert!(matches!(parse_host("", parse_ip), Err(ResolveError::EmptyHost)));
    assert!(matches!(host_from("x", Some(IpAddress::V6(2))), Host::Ipv6(2)));
    let response = TunnelEndpointResponse { host: "1.2.3.4".to_string(), port: 22 };
    assert!(matches!(endpoint(&response, parse_ip), Ok((Host::Ipv4(0x01020304), 22))));
}

#[test]
fn lookup_errors_have_their_texts() {
    let text = |e: ResolveError| e.message("http://b", ID, "404 Not Found");
    assert_eq!(text(ResolveError::InvalidBase), "invalid resolver base url http://b");
    assert_eq!(
        text(ResolveError::UnsupportedScheme("ftp".to_string())),
        "tunnel resolver only supports http:// for now, got ftp"
    );
    assert_eq!(
        text(ResolveError::CannotAppend),
        "cannot append path to resolver base url http://b"
    );
    assert_eq!(text(ResolveError::InvalidUri("u".to_string())), "invalid resolver uri u");
    assert_eq!(
        text(ResolveError::Rejected { status: 404, body: "gone".to_string() }),
        format!("resolver rejected tunnel {ID_TEXT}: status 404 Not Found body gone")
    );
    assert_eq!(text(ResolveError::EmptyHost), "host is empty");
}

#[test]
fn session_is_addressed_by_the_tunnel_id() {
    let r = tunnel_remote(ID);
    assert!(matches!(r.host, Host::Domain(d) if d == ID_TEXT));
    assert_eq!(r.port, 0);
    assert!(!r.proxy_protocol);
}

#[test]
fn rsa_keys_sign_with_what_the_server_supports() {
    assert_eq!(hash_step(true), HashStep::AskServer);
    assert_eq!(hash_step(false), HashStep::SignNow);
    assert_eq!(signature_hash(true, Some(Some(512))), Some(512));
    assert_eq!(signature_hash::<u32>(true, Some(None)), None);
    assert_eq!(signature_hash::<u32>(true, None), None);
    assert_eq!(signature_hash(false, Some(Some(512))), None);
    assert_eq!(login_result(true), Ok(()));
    assert_eq!(login_result(false), Err(SshError::AuthenticationFailed));
    assert_eq!(SshError::AuthenticationFailed.message(), "ssh authentication failed");
}

#[test]
fn different_tunnels_have_different_addresses() {
    let a = resolver_request("http://h/t?x", ID, None).unwrap();
    let b = resolver_request("http://h/t?x", ID + 1, None).unwrap();
    assert_ne!(a.uri, b.uri);
    assert_eq!(a.uri.len(), b.uri.len());
}
