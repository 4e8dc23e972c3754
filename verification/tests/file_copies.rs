use std::path::PathBuf;
use wstunnel::scp::download::{DownloadAction, ScpDownload};
use wstunnel::scp::transfer::ScpTransfer;
use wstunnel::scp::upload::{ScpUpload, UploadAction, UploadEvent};
use wstunnel::scp::wire::{
    dir_end, dir_header, download_command, file_header, parse_c_header, recv_data, recv_response,
    upload_command, ChannelEvent, Received, Reply, ScpError,
};

fn data(b: &[u8]) -> ChannelEvent {
    ChannelEvent::Data(b.to_vec())
}

fn shown(actions: &[DownloadAction]) -> Vec<String> {
    actions
        .iter()
        .map(|a| match a {
            DownloadAction::Ack => "ack".to_string(),
            DownloadAction::CreateDir(p) => format!("mkdir {}", p.join("/")),
            DownloadAction::CreateFile(p) => format!("create {}", p.join("/")),
            DownloadAction::Write(b) => format!("write {}", String::from_utf8_lossy(b)),
            DownloadAction::Flush => "flush".to_string(),
            DownloadAction::Report(p, n) => format!("report {} {n}", p.join("/")),
            DownloadAction::Warn(w) => format!("warn {w}"),
            DownloadAction::SendEof => "eof".to_string(),
        })
        .collect()
}

fn run(d: &mut ScpDownload, messages: &[&[u8]]) -> Vec<String> {
    let mut all = Vec::new();
    for m in messages {
        all.extend(shown(&d.step(&data(m)).unwrap()));
    }
    all
}

#[test]
fn headers_are_written_and_read_back() {
    assert_eq!(file_header(12, "a b.txt"), b"C0644 12 a b.txt\n");
    assert_eq!(dir_header("src"), b"D0755 0 src\n");
    assert_eq!(dir_end(), b"E\n");
    for (size, name) in [(0, ""), (1, "x"), (u64::MAX, "grün  name "), (7, "a\nb")] {
        let (s, n) = parse_c_header(&file_header(size, name)).unwrap();
        assert_eq!((s, n.as_str()), (size, name));
    }
    let (s, n) = parse_c_header(&dir_header("a dir")).unwrap();
    assert_eq!((s, n.as_str()), (0, "a dir"));
    let (_, n) = parse_c_header(&file_header(1, "end\n")).unwrap();
    assert_eq!(n, "end");
}

#[test]
fn headers_that_are_wrong_are_told_apart() {
    assert!(matches!(parse_c_header(b"C0644 12\n"), Err(ScpError::MalformedHeader(l)) if l == "C0644 12"));
    assert!(matches!(parse_c_header(b"C"), Err(ScpError::MalformedHeader(l)) if l == "C"));
    assert!(matches!(parse_c_header(b"C0644 x name\n"), Err(ScpError::InvalidSize)));
    assert!(matches!(parse_c_header(b"C0644  name\n"), Err(ScpError::InvalidSize)));
    assert!(matches!(
        parse_c_header(b"C0644 18446744073709551616 n\n"),
        Err(ScpError::InvalidSize)
    ));
    assert!(matches!(parse_c_header(&[b'C', 0xff]), Err(ScpError::HeaderNotUtf8)));
    let (s, n) = parse_c_header(b"C +5 n\n\n").unwrap();
    assert_eq!((s, n.as_str()), (5, "n"));
}

#[test]
fn commands_name_direction_and_target() {
    assert_eq!(upload_command(true, "/tmp/x"), "scp -r -t /tmp/x");
    assert_eq!(upload_command(false, "/tmp/x"), "scp -t /tmp/x");
    assert_eq!(download_command(true, "y z"), "scp -r -f y z");
    assert_eq!(download_command(false, ""), "scp -f ");
    let up = ScpTransfer::Upload { local: PathBuf::from("a"), remote: "b".to_string() };
    let down = ScpTransfer::Download { remote: "b".to_string(), local: PathBuf::from("a") };
    assert_eq!(up.command(false), "scp -t b");
    assert_eq!(down.command(true), "scp -r -f b");
}

#[test]
fn replies_are_judged_by_their_first_byte() {
    assert!(matches!(recv_response(&data(&[])), Reply::Pending));
    assert!(matches!(recv_response(&ChannelEvent::Other), Reply::Pending));
    assert!(matches!(recv_response(&data(&[0])), Reply::Accepted(None)));
    assert!(matches!(recv_response(&data(b"\x01 slow \n")), Reply::Accepted(Some(w)) if w == "slow"));
    assert!(matches!(recv_response(&data(b"\x02no such file\n")), Reply::Failed(ScpError::Remote(m)) if m == "no such file"));
    assert!(matches!(recv_response(&data(&[2, 0xff])), Reply::Failed(ScpError::Remote(m)) if m == "\u{fffd}"));
    assert!(matches!(recv_response(&data(b"C")), Reply::Failed(ScpError::UnexpectedReply(67))));
    assert!(matches!(
        recv_response(&ChannelEvent::Eof),
        Reply::Failed(ScpError::ClosedUnexpectedly)
    ));
    assert!(matches!(
        recv_response(&ChannelEvent::Close),
        Reply::Failed(ScpError::ClosedUnexpectedly)
    ));
    assert!(matches!(recv_response(&ChannelEvent::Ended), Reply::Failed(ScpError::Closed)));
}

#[test]
fn data_is_appended() {
    let mut buf = vec![1];
    assert_eq!(recv_data(&data(&[2, 3]), &mut buf), Received::Packet);
    assert_eq!(recv_data(&ChannelEvent::Other, &mut buf), Received::Pending);
    assert_eq!(recv_data(&ChannelEvent::Eof, &mut buf), Received::Over);
    assert_eq!(recv_data(&ChannelEvent::Close, &mut buf), Received::Over);
    assert_eq!(recv_data(&ChannelEvent::Ended, &mut buf), Received::Over);
    assert_eq!(buf, vec![1, 2, 3]);
}

#[test]
fn file_comes_in_pieces() {
    let (mut d, first) = ScpDownload::begin();
    assert_eq!(shown(&first), ["ack"]);
    assert_eq!(
        run(&mut d, &[b"C0644 5 f\n", b"he", b"", b"llo", b"\0"]),
        [
            "ack", "create f", "write he", "write ", "write llo", "flush", "report f 5", "ack"
        ]
    );
    let end = d.step(&ChannelEvent::Eof).unwrap();
    assert_eq!(shown(&end), ["eof"]);
    assert!(d.is_finished());
    assert!(d.step(&data(b"C0644 5 f\n")).unwrap().is_empty());
}

#[test]
fn status_byte_may_ride_along() {
    let (mut d, _) = ScpDownload::begin();
    assert_eq!(
        run(&mut d, &[b"C0644 3 f\n", b"abc\0", b"C0644 0 g\n", b"\0"]),
        [
            "ack", "create f", "write abc", "flush", "report f 3", "ack", "ack", "create g",
            "flush", "report g 0", "ack"
        ]
    );
}

#[test]
fn directories_nest_and_close() {
    let (mut d, _) = ScpDownload::begin();
    assert_eq!(
        run(
            &mut d,
            &[
                b"D0755 0 a\n",
                b"D0755 0 b\n",
                b"C0644 1 f\n",
                b"x",
                b"\0",
                b"E\n",
                b"E\n",
                b"E\n",
                b"C0644 1 g\n",
                b"y",
                b"\0",
            ]
        ),
        [
            "mkdir a", "ack", "mkdir a/b", "ack", "ack", "create a/b/f", "write x", "flush",
            "report a/b/f 1", "ack", "ack", "ack", "ack", "ack", "create g", "write y", "flush",
            "report g 1", "ack"
        ]
    );
}

#[test]
fn download_warnings_go_on_and_errors_end() {
    let (mut d, _) = ScpDownload::begin();
    assert_eq!(run(&mut d, &[b"\x01 odd \n"]), ["warn odd", "ack"]);
    assert!(d.step(&ChannelEvent::Other).unwrap().is_empty());
    assert!(matches!(d.step(&data(b"\x02gone\n")), Err(ScpError::Remote(m)) if m == "gone"));
    assert!(d.is_finished());

    let (mut d, _) = ScpDownload::begin();
    assert!(matches!(d.step(&data(b"\0")), Err(ScpError::UnexpectedHeader(0))));

    let (mut d, _) = ScpDownload::begin();
    assert!(matches!(d.step(&data(b"D0755\n")), Err(ScpError::MalformedHeader(_))));

    let (mut d, _) = ScpDownload::begin();
    run(&mut d, &[b"C0644 5 f\n", b"he"]);
    assert!(matches!(d.step(&ChannelEvent::Ended), Err(ScpError::ClosedDuringTransfer)));

    let (mut d, _) = ScpDownload::begin();
    run(&mut d, &[b"C0644 2 f\n", b"he"]);
    assert_eq!(shown(&d.step(&ChannelEvent::Close).unwrap()), ["report f 2", "ack"]);
    assert_eq!(shown(&d.step(&ChannelEvent::Close).unwrap()), ["eof"]);
}

fn sent(actions: Vec<UploadAction>, out: &mut Vec<Vec<u8>>) -> Vec<String> {
    actions
        .into_iter()
        .map(|a| match a {
            UploadAction::InspectTarget => "inspect".to_string(),
            UploadAction::Enter => "enter".to_string(),
            UploadAction::Leave => "leave".to_string(),
            UploadAction::StatFile => "stat".to_string(),
            UploadAction::ReadFile => "read".to_string(),
            UploadAction::NameDir => "name".to_string(),
            UploadAction::OpenDir => "open".to_string(),
            UploadAction::NextEntry => "next".to_string(),
            UploadAction::Send(b) => {
                out.push(b);
                "send".to_string()
            }
            UploadAction::Report(n) => format!("report {n}"),
            UploadAction::Warn(w) => format!("warn {w}"),
            UploadAction::SendEof => "eof".to_string(),
        })
        .collect()
}

fn ok() -> UploadEvent {
    UploadEvent::Channel(data(&[0]))
}

fn info(size: u64, name: &str) -> UploadEvent {
    UploadEvent::FileInfo { size, name: Some(name.to_string()) }
}

#[test]
fn tree_is_sent_and_arrives() {
    let events = vec![
        ok(),
        UploadEvent::Target { is_dir: true },
        UploadEvent::DirInfo { name: Some("d".to_string()) },
        ok(),
        UploadEvent::Entry { is_dir: false },
        info(2, "f"),
        ok(),
        UploadEvent::Contents(b"hi".to_vec()),
        ok(),
        UploadEvent::Entry { is_dir: true },
        UploadEvent::DirInfo { name: Some("e".to_string()) },
        ok(),
        UploadEvent::NoMoreEntries,
        ok(),
        UploadEvent::NoMoreEntries,
        ok(),
    ];
    let mut up = ScpUpload::begin(true);
    let mut wire = Vec::new();
    let mut steps = Vec::new();
    for e in events {
        steps.push(sent(up.step(e).unwrap(), &mut wire).join(","));
    }
    assert!(up.is_finished());
    assert_eq!(
        steps,
        [
            "inspect", "name", "send", "open,next", "enter,stat", "send", "read", "send,send",
            "report 2,leave,next", "enter,name", "send", "open,next", "send", "leave,next", "send",
            "eof"
        ]
    );
    let expected: Vec<&[u8]> = vec![
        b"D0755 0 d\n", b"C0644 2 f\n", b"hi", b"\0", b"D0755 0 e\n", b"E\n", b"E\n",
    ];
    assert_eq!(wire, expected);

    let (mut down, _) = ScpDownload::begin();
    let messages: Vec<&[u8]> = wire.iter().map(|m| m.as_slice()).collect();
    assert_eq!(
        run(&mut down, &messages),
        [
            "mkdir d", "ack", "ack", "create d/f", "write hi", "flush", "report d/f 2", "ack",
            "mkdir d/e", "ack", "ack", "ack"
        ]
    );
}

#[test]
fn upload_errors_end_it() {
    let mut up = ScpUpload::begin(false);
    up.step(ok()).unwrap();
    assert!(matches!(
        up.step(UploadEvent::Target { is_dir: true }),
        Err(ScpError::IsDirectory)
    ));
    assert!(up.is_finished());

    let mut up = ScpUpload::begin(false);
    assert!(up.awaits_reply());
    assert!(up.step(UploadEvent::Channel(ChannelEvent::Other)).unwrap().is_empty());
    assert!(up.awaits_reply());
    let mut wire = Vec::new();
    let steps = sent(up.step(UploadEvent::Channel(data(b"\x01hm"))).unwrap(), &mut wire);
    assert_eq!(steps, ["warn hm", "inspect"]);
    assert!(!up.awaits_reply());
    up.step(UploadEvent::Target { is_dir: false }).unwrap();
    assert!(matches!(
        up.step(UploadEvent::FileInfo { size: 1, name: None }),
        Err(ScpError::NoFileName)
    ));

    let mut up = ScpUpload::begin(true);
    up.step(ok()).unwrap();
    up.step(UploadEvent::Target { is_dir: true }).unwrap();
    assert!(matches!(
        up.step(UploadEvent::DirInfo { name: None }),
        Err(ScpError::NoDirectoryName)
    ));

    let mut up = ScpUpload::begin(true);
    assert!(matches!(
        up.step(UploadEvent::Channel(ChannelEvent::Ended)),
        Err(ScpError::Closed)
    ));
}

#[test]
fn copy_errors_have_their_texts() {
    let text = |e: ScpError| e.message("p");
    assert_eq!(text(ScpError::Remote("x".to_string())), "scp error: x");
    assert_eq!(text(ScpError::UnexpectedReply(67)), "unexpected scp response byte: 67");
    assert_eq!(text(ScpError::UnexpectedHeader(0)), "unexpected scp header byte: 0x00");
    assert_eq!(text(ScpError::UnexpectedHeader(0xaf)), "unexpected scp header byte: 0xaf");
    assert_eq!(text(ScpError::ClosedUnexpectedly), "channel closed unexpectedly");
    assert_eq!(text(ScpError::Closed), "channel closed");
    assert_eq!(text(ScpError::ClosedDuringTransfer), "channel closed during file transfer");
    assert_eq!(text(ScpError::HeaderNotUtf8), "invalid utf-8 in scp header");
    assert_eq!(text(ScpError::MalformedHeader("C".to_string())), "malformed scp header: C");
    assert_eq!(text(ScpError::InvalidSize), "invalid size in scp header");
    assert_eq!(text(ScpError::IsDirectory), "p is a directory (use --recursive)");
    assert_eq!(text(ScpError::NoFileName), "no file name: p");
    assert_eq!(text(ScpError::NoDirectoryName), "no directory name: p");
}

#[test]
fn directory_is_refused_after_a_warning_too() {
    let mut up = ScpUpload::begin(false);
    let mut wire = Vec::new();
    let steps = sent(up.step(UploadEvent::Channel(data(b"\x01careful\n"))).unwrap(), &mut wire);
    assert_eq!(steps, ["warn careful", "inspect"]);
    assert!(matches!(
        up.step(UploadEvent::Target { is_dir: true }),
        Err(ScpError::IsDirectory)
    ));
    assert!(wire.is_empty());
}

#[test]
fn bytes_beyond_the_size_are_dropped() {
    let (mut d, _) = ScpDownload::begin();
    assert_eq!(
        run(&mut d, &[b"C0644 3 f\n", b"a", b"bcdef"]),
        ["ack", "create f", "write a", "write bc", "flush", "report f 3", "ack"]
    );
}

#[test]
fn file_cut_short_fails_the_copy() {
    for end in [ChannelEvent::Eof, ChannelEvent::Close, ChannelEvent::Ended] {
        let (mut d, _) = ScpDownload::begin();
        assert_eq!(
            run(&mut d, &[b"C0644 9 f\n", b"ab", b"", b"cd"]),
            ["ack", "create f", "write ab", "write ", "write cd"]
        );
        assert!(matches!(d.step(&end), Err(ScpError::ClosedDuringTransfer)));
    }
}

#[test]
fn warnings_do_not_change_what_is_sent() {
    for reply in [&b"\0"[..], &b"\0more"[..], &b"\x01slow\n"[..]] {
        let events = vec![
            UploadEvent::Channel(data(reply)),
            UploadEvent::Target { is_dir: false },
            info(2, "f"),
            UploadEvent::Channel(data(reply)),
            UploadEvent::Contents(b"hi".to_vec()),
            UploadEvent::Channel(data(reply)),
        ];
        let mut up = ScpUpload::begin(false);
        let mut wire = Vec::new();
        for e in events {
            sent(up.step(e).unwrap(), &mut wire);
        }
        assert!(up.is_finished());
        let expected: Vec<&[u8]> = vec![b"C0644 2 f\n", b"hi", b"\0"];
        assert_eq!(wire, expected);
    }
}
