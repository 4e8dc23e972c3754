use wstunnel::cli::{log_target, needs_h2_directive, Command, LocalProtocol, LogTarget, H2_DIRECTIVE};
use wstunnel::shell::{farewell, input_step, pty_size, InputStep, SessionEnd};

#[test]
fn input_ends_with_the_end_byte_or_with_nothing() {
    assert_eq!(input_step(b"ls\n"), InputStep::Forward);
    assert_eq!(input_step(b""), InputStep::Stop);
    assert_eq!(input_step(b"\x04"), InputStep::Stop);
    assert_eq!(input_step(b"ls\x04\n"), InputStep::Stop);
    assert_eq!(input_step(b"4"), InputStep::Forward);
}

#[test]
fn only_input_before_the_end_is_passed_on() {
    let pieces: [&[u8]; 4] = [b"a", b"b", b"c\x04", b"d"];
    let passed: Vec<&[u8]> = pieces
        .iter()
        .copied()
        .take_while(|p| input_step(p) == InputStep::Forward)
        .collect();
    assert_eq!(passed, pieces[..2].to_vec());
}

#[test]
fn terminal_of_unknown_size_is_the_default_one() {
    assert_eq!(pty_size(Some((132, 43))), (132, 43));
    assert_eq!(pty_size(None), (80, 24));
}

#[test]
fn session_says_why_it_ends() {
    assert_eq!(farewell(SessionEnd::Interrupted), Some("terminated"));
    assert_eq!(farewell(SessionEnd::InputOver), Some("stdin closed"));
    assert_eq!(farewell(SessionEnd::RemoteDone), None);
}

#[test]
fn http2_is_silenced_unless_it_is_asked_for() {
    assert!(needs_h2_directive("INFO"));
    assert!(needs_h2_directive("h2"));
    assert!(!needs_h2_directive("INFO,h2=trace"));
    assert!(!needs_h2_directive("h2::codec=debug"));
    assert_eq!(H2_DIRECTIVE, "h2::codec=off");
}

#[test]
fn log_keeps_off_a_taken_standard_output() {
    assert_eq!(log_target(&Command::Server), LogTarget::Stdout);
    assert_eq!(log_target(&Command::Ssh), LogTarget::Stderr);
    assert_eq!(log_target(&Command::Client(vec![])), LogTarget::Stdout);
    assert_eq!(
        log_target(&Command::Client(vec![LocalProtocol::Other, LocalProtocol::Other])),
        LogTarget::Stdout
    );
    assert_eq!(
        log_target(&Command::Client(vec![LocalProtocol::Other, LocalProtocol::Stdio])),
        LogTarget::Stderr
    );
    assert_eq!(
        log_target(&Command::Client(vec![LocalProtocol::TunnelStdio])),
        LogTarget::Stderr
    );
}
