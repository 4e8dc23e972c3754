use wstunnel::registry::api::{describe, get_tunnel};
use wstunnel::registry::state::{AppState, TunnelEntry};
use wstunnel::registry::watcher::{
    handle_pod_event, watch_scope, watch_step, Pod, PodOutcome, WatchEvent, WatchScope, WatchStep,
};
use wstunnel::ssh::tunnel_remote;
use wstunnel::resolver::{endpoint, resolver_reply, Host, IpAddress, TunnelEndpointResponse};

const ID_TEXT: &str = "67e55044-10b1-426f-9247-bb680e5fe0c8";
const ID: u128 = 0x67e55044_10b1_426f_9247_bb680e5fe0c8;

fn pod(annotations: &[(&str, &str)]) -> Pod {
    Pod {
        name: Some("pod".to_string()),
        annotations: Some(
            annotations
                .iter()
                .map(|(k, v)| (k.to_string(), v.to_string()))
                .collect(),
        ),
        pod_ip: Some("10.0.0.7".to_string()),
        phase: Some("Running".to_string()),
        deleting: false,
    }
}

fn body(annotations: &[(&str, &str)]) -> String {
    let mut state = AppState::new();
    let mut all = vec![("wstunnel.io/tunnel-id", ID_TEXT)];
    all.extend_from_slice(annotations);
    assert_eq!(handle_pod_event(&mut state, &pod(&all)), PodOutcome::Up { id: ID });
    get_tunnel(&state, ID).body
}

#[test]
fn running_pod_is_published_on_the_default_port() {
    let mut state = AppState::new();
    let p = pod(&[("wstunnel.io/tunnel-id", ID_TEXT)]);
    assert_eq!(handle_pod_event(&mut state, &p), PodOutcome::Up { id: ID });
    let r = get_tunnel(&state, ID);
    assert_eq!(r.status, 200);
    assert_eq!(r.content_type, Some("text/yaml; charset=utf-8"));
    assert_eq!(r.body, "host: 10.0.0.7\nport: 22\n");
    assert_eq!(get_tunnel(&state, ID + 1).status, 404);
    assert_eq!(get_tunnel(&state, ID + 1).body, "");
    assert!(get_tunnel(&state, ID + 1).content_type.is_none());
}

#[test]
fn every_form_of_an_id_names_the_same_tunnel() {
    for text in [
        ID_TEXT,
        "67e5504410b1426f9247bb680e5fe0c8",
        "67E55044-10B1-426F-9247-BB680E5FE0C8",
        "{67e55044-10b1-426f-9247-bb680e5fe0c8}",
        "urn:uuid:67e55044-10b1-426f-9247-bb680e5fe0c8",
        "URN:uuid:67e55044-10b1-426f-9247-bb680e5fe0c8",
    ] {
        let mut state = AppState::new();
        let p = pod(&[("wstunnel.io/tunnel-id", text)]);
        assert_eq!(handle_pod_event(&mut state, &p), PodOutcome::Up { id: ID }, "{text}");
    }
}

#[test]
fn texts_that_are_no_id_change_nothing() {
    for text in [
        "",
        "tunnel",
        "67e55044-10b1-426f-9247-bb680e5fe0c",
        "67e55044-10b1-426f-9247-bb680e5fe0cg",
        "67e55044+10b1-426f-9247-bb680e5fe0c8",
        " 67e55044-10b1-426f-9247-bb680e5fe0c8",
        "{67e55044-10b1-426f-9247-bb680e5fe0c8",
        "(67e55044-10b1-426f-9247-bb680e5fe0c8)",
        "{67e5504410b1426f9247bb680e5fe0c8}",
        "urn;uuid:67e55044-10b1-426f-9247-bb680e5fe0c8",
        "é7e55044-10b1-426f-9247-bb680e5fe0c",
    ] {
        let mut state = AppState::new();
        let p = pod(&[("wstunnel.io/tunnel-id", text)]);
        assert_eq!(handle_pod_event(&mut state, &p), PodOutcome::InvalidId, "{text}");
        assert_eq!(get_tunnel(&state, ID).status, 404);
    }
}

#[test]
fn id_is_written_as_it_is_read() {
    for id in [0u128, 1, ID, u128::MAX, 0x00112233_4455_6677_8899_aabbccddeeff] {
        let text = match tunnel_remote(id).host {
            Host::Domain(d) => d,
            _ => unreachable!(),
        };
        assert_eq!(text, uuid::Uuid::from_u128(id).to_string());
        let mut state = AppState::new();
        let p = pod(&[("wstunnel.io/tunnel-id", &text)]);
        assert_eq!(handle_pod_event(&mut state, &p), PodOutcome::Up { id });
    }
}

#[test]
fn pods_without_a_tunnel_are_passed_over() {
    let mut state = AppState::new();
    let mut p = pod(&[]);
    assert_eq!(handle_pod_event(&mut state, &p), PodOutcome::NoTunnel);
    p.annotations = None;
    assert_eq!(handle_pod_event(&mut state, &p), PodOutcome::NoTunnel);
}

#[test]
fn tunnel_goes_down_with_its_pod() {
    let changes: [fn(&mut Pod); 6] = [
        |p| p.pod_ip = None,
        |p| p.pod_ip = Some(String::new()),
        |p| p.phase = None,
        |p| p.phase = Some("Pending".to_string()),
        |p| p.phase = Some("running".to_string()),
        |p| p.deleting = true,
    ];
    for change in changes {
        let mut state = AppState::new();
        let up = pod(&[("wstunnel.io/tunnel-id", ID_TEXT)]);
        let mut down = pod(&[("wstunnel.io/tunnel-id", ID_TEXT)]);
        change(&mut down);
        handle_pod_event(&mut state, &up);
        assert_eq!(get_tunnel(&state, ID).status, 200);
        assert_eq!(
            handle_pod_event(&mut state, &down),
            PodOutcome::Down { id: ID, was_up: true }
        );
        assert_eq!(get_tunnel(&state, ID).status, 404);
        assert_eq!(
            handle_pod_event(&mut state, &down),
            PodOutcome::Down { id: ID, was_up: false }
        );
    }
}

#[test]
fn port_is_read_without_trimming() {
    assert_eq!(body(&[("wstunnel.io/tunnel-port", "2222")]), "host: 10.0.0.7\nport: 2222\n");
    for bad in ["", " 2222", "65536", "-1", "ssh"] {
        assert_eq!(body(&[("wstunnel.io/tunnel-port", bad)]), "host: 10.0.0.7\nport: 22\n");
    }
    assert_eq!(body(&[("wstunnel.io/tunnel-port", "0")]), "host: 10.0.0.7\nport: 0\n");
}

#[test]
fn rate_limits_are_trimmed_capped_and_fall_back() {
    assert_eq!(
        body(&[("wstunnel.io/tunnel-rate-limit", " 5 ")]),
        "host: 10.0.0.7\nport: 22\nrate_limit_upload_m: 5\nrate_limit_download_m: 5\n"
    );
    assert_eq!(
        body(&[
            ("wstunnel.io/tunnel-rate-limit", "5"),
            ("wstunnel.io/tunnel-rate-limit-upload", "3"),
        ]),
        "host: 10.0.0.7\nport: 22\nrate_limit_upload_m: 3\nrate_limit_download_m: 5\n"
    );
    assert_eq!(
        body(&[("wstunnel.io/tunnel-rate-limit-download", "11")]),
        "host: 10.0.0.7\nport: 22\nrate_limit_download_m: 10\n"
    );
    assert_eq!(
        body(&[("wstunnel.io/tunnel-rate-limit", "65536")]),
        "host: 10.0.0.7\nport: 22\n"
    );
    assert_eq!(
        body(&[
            ("wstunnel.io/tunnel-rate-limit", "65535"),
            ("wstunnel.io/tunnel-rate-limit-download", "fast"),
        ]),
        "host: 10.0.0.7\nport: 22\nrate_limit_upload_m: 10\nrate_limit_download_m: 10\n"
    );
    assert_eq!(
        body(&[("wstunnel.io/tunnel-rate-limit", "0")]),
        "host: 10.0.0.7\nport: 22\nrate_limit_upload_m: 0\nrate_limit_download_m: 0\n"
    );
}

#[test]
fn last_event_decides_and_other_tunnels_stay() {
    let mut state = AppState::new();
    let other = "00000000-0000-0000-0000-000000000001";
    handle_pod_event(&mut state, &pod(&[("wstunnel.io/tunnel-id", other)]));
    handle_pod_event(&mut state, &pod(&[("wstunnel.io/tunnel-id", ID_TEXT)]));
    let mut moved = pod(&[("wstunnel.io/tunnel-id", ID_TEXT)]);
    moved.pod_ip = Some("10.0.0.8".to_string());
    handle_pod_event(&mut state, &moved);
    handle_pod_event(&mut state, &moved);
    assert_eq!(get_tunnel(&state, ID).body, "host: 10.0.0.8\nport: 22\n");
    assert_eq!(get_tunnel(&state, 1).body, "host: 10.0.0.7\nport: 22\n");
}

#[test]
fn description_is_yaml_that_reads_back() {
    let entry = TunnelEntry {
        host: "10.1.2.3".to_string(),
        port: 8022,
        rate_limit_upload_m: Some(1),
        rate_limit_download_m: None,
    };
    let text = describe(&entry);
    assert_eq!(text, "host: 10.1.2.3\nport: 8022\nrate_limit_upload_m: 1\n");
    let value: serde_yaml::Value = serde_yaml::from_str(&text).unwrap();
    assert_eq!(value.get("host").unwrap().as_str(), Some("10.1.2.3"));
    assert_eq!(value.get("port").unwrap().as_u64(), Some(8022));
}

#[test]
fn watch_goes_on_after_a_failure_and_ends_with_the_stream() {
    let mut state = AppState::new();
    let up = WatchEvent::Pod(pod(&[("wstunnel.io/tunnel-id", ID_TEXT)]));
    assert_eq!(
        watch_step(&mut state, &up),
        WatchStep::Handled(PodOutcome::Up { id: ID })
    );
    assert_eq!(watch_step(&mut state, &WatchEvent::Failed), WatchStep::Failed);
    assert_eq!(get_tunnel(&state, ID).status, 200);
    assert_eq!(watch_step(&mut state, &WatchEvent::Ended), WatchStep::Ended);
}

#[test]
fn empty_namespace_means_all() {
    assert!(matches!(watch_scope(""), WatchScope::All));
    assert!(matches!(watch_scope("dev"), WatchScope::Namespaced(n) if n == "dev"));
}

#[test]
fn different_tunnels_have_different_descriptions() {
    let entry = |port, up, down| TunnelEntry {
        host: "10.1.2.3".to_string(),
        port,
        rate_limit_upload_m: up,
        rate_limit_download_m: down,
    };
    let entries = [
        entry(1, None, None),
        entry(11, None, None),
        entry(1, Some(1), None),
        entry(1, None, Some(1)),
        entry(1, Some(1), Some(1)),
        entry(1, Some(11), Some(1)),
    ];
    for i in 0..entries.len() {
        for j in 0..i {
            assert_ne!(describe(&entries[i]), describe(&entries[j]));
        }
    }
}

#[test]
fn repeated_event_changes_nothing_more() {
    let mut state = AppState::new();
    let p = pod(&[
        ("wstunnel.io/tunnel-id", ID_TEXT),
        ("wstunnel.io/tunnel-rate-limit", "99"),
    ]);
    handle_pod_event(&mut state, &p);
    let once = get_tunnel(&state, ID).body;
    handle_pod_event(&mut state, &p);
    assert_eq!(get_tunnel(&state, ID).body, once);
    assert_eq!(state.get(ID).unwrap().rate_limit_upload_m, Some(10));
}

#[test]
fn lookup_finds_what_the_registry_published() {
    let mut state = AppState::new();
    let p = pod(&[
        ("wstunnel.io/tunnel-id", ID_TEXT),
        ("wstunnel.io/tunnel-port", "8022"),
        ("wstunnel.io/tunnel-rate-limit", "5"),
    ]);
    handle_pod_event(&mut state, &p);
    let reply = get_tunnel(&state, ID);
    let text = resolver_reply(reply.status, reply.body.as_bytes()).unwrap();
    let value: serde_yaml::Value = serde_yaml::from_str(&text).unwrap();
    let response = TunnelEndpointResponse {
        host: value.get("host").unwrap().as_str().unwrap().to_string(),
        port: value.get("port").unwrap().as_u64().unwrap() as u16,
    };
    let parse_ip = |s: &str| {
        if s == "10.0.0.7" {
            Some(IpAddress::V4(0x0a000007))
        } else {
            None
        }
    };
    assert!(matches!(endpoint(&response, parse_ip), Ok((Host::Ipv4(0x0a000007), 8022))));
}

#[test]
fn order_of_annotations_does_not_matter() {
    let pairs = [
        ("wstunnel.io/tunnel-rate-limit", "7"),
        ("wstunnel.io/tunnel-port", "8022"),
        ("wstunnel.io/tunnel-id", ID_TEXT),
        ("other", "x"),
    ];
    for shift in 0..pairs.len() {
        let mut turned = pairs;
        turned.rotate_left(shift);
        let mut state = AppState::new();
        assert_eq!(handle_pod_event(&mut state, &pod(&turned)), PodOutcome::Up { id: ID });
        assert_eq!(
            get_tunnel(&state, ID).body,
            "host: 10.0.0.7\nport: 8022\nrate_limit_upload_m: 7\nrate_limit_download_m: 7\n"
        );
    }
}
