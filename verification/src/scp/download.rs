//! The receiving side of a copy: channel events in, file system and channel actions out.
use crate::scp::wire::{
    header_value, lemma_has_kind, parse_c_header, recv_data, text_behind_code, ChannelEvent,
    ChannelEventView, Received, ScpError, ScpErrorView,
};
use crate::text::{trim, trimmed, lossy};
use vstd::prelude::*;
use vstd::string::*;

verus! {

/// What the receiving side does next. A path is a list of names, to be joined in order to the
/// local target.
#[derive(Debug)]
pub enum DownloadAction {
    /// Send the byte zero.
    Ack,
    /// Make this directory, with its parents.
    CreateDir(Vec<String>),
    /// Make or empty this file, and write to it from here on.
    CreateFile(Vec<String>),
    /// Write these bytes to the open file.
    Write(Vec<u8>),
    /// Flush the open file.
    Flush,
    /// Tell the user that this file of this many bytes is there.
    Report(Vec<String>, u64),
    /// Tell the user what the remote end warns of.
    Warn(String),
    /// Say that nothing more will be sent.
    SendEof,
}

/// The mathematical content of a [`DownloadAction`].
pub ghost enum DownloadActionView {
    Ack,
    CreateDir(Seq<Seq<char>>),
    CreateFile(Seq<Seq<char>>),
    Write(Seq<u8>),
    Flush,
    Report(Seq<Seq<char>>, int),
    Warn(Seq<char>),
    SendEof,
}

/// A list of names as character sequences.
pub open spec fn names(v: Seq<String>) -> Seq<Seq<char>> {
    v.map_values(|s: String| s@)
}

impl View for DownloadAction {
    type V = DownloadActionView;

    open spec fn view(&self) -> DownloadActionView {
        match self {
            DownloadAction::Ack => DownloadActionView::Ack,
            DownloadAction::CreateDir(p) => DownloadActionView::CreateDir(names(p@)),
            DownloadAction::CreateFile(p) => DownloadActionView::CreateFile(names(p@)),
            DownloadAction::Write(b) => DownloadActionView::Write(b@),
            DownloadAction::Flush => DownloadActionView::Flush,
            DownloadAction::Report(p, n) => DownloadActionView::Report(names(p@), *n as int),
            DownloadAction::Warn(w) => DownloadActionView::Warn(w@),
            DownloadAction::SendEof => DownloadActionView::SendEof,
        }
    }
}

/// A list of actions by their contents.
pub open spec fn actions(v: Seq<DownloadAction>) -> Seq<DownloadActionView> {
    v.map_values(|a: DownloadAction| a@)
}

/// An action stands for what it asks for: the bytes to write, the path and the size, the text.
pub proof fn law_download_action_stands_for_itself(a: DownloadAction)
    ensures
        match a {
            DownloadAction::Ack => a@ is Ack,
            DownloadAction::CreateDir(p) => a@ == DownloadActionView::CreateDir(
                p@.map_values(|s: String| s@),
            ),
            DownloadAction::CreateFile(p) => a@ == DownloadActionView::CreateFile(
                p@.map_values(|s: String| s@),
            ),
            DownloadAction::Write(b) => a@ == DownloadActionView::Write(b@),
            DownloadAction::Flush => a@ is Flush,
            DownloadAction::Report(p, n) => a@ == DownloadActionView::Report(
                p@.map_values(|s: String| s@),
                n as int,
            ),
            DownloadAction::Warn(w) => a@ == DownloadActionView::Warn(w@),
            DownloadAction::SendEof => a@ is SendEof,
        },
{
}

/// A list of actions stands for its actions, each in its place.
pub proof fn law_download_actions_stand_in_order(v: Seq<DownloadAction>, i: int)
    requires
        0 <= i < v.len(),
    ensures
        actions(v).len() == v.len(),
        actions(v)[i] == v[i]@,
{
}

/// What the receiving side waits for.
#[derive(Debug)]
enum Phase {
    /// A header, or the end.
    Header,
    /// The rest of a file.
    Body { name: String, size: u64, remaining: u64 },
    /// The status byte behind a file.
    Trailer { name: String, size: u64 },
    /// Nothing.
    Finished,
}

/// The mathematical content of what the receiving side waits for.
pub ghost enum PhaseView {
    Header,
    Body { name: Seq<char>, size: int, remaining: int },
    Trailer { name: Seq<char>, size: int },
    Finished,
}

/// The receiving side of a copy.
#[derive(Debug)]
pub struct ScpDownload {
    phase: Phase,
    dirs: Vec<String>,
}

/// The state of a [`ScpDownload`]: what it waits for, and the directories that it is in.
#[verifier::ext_equal]
pub ghost struct DownloadView {
    pub phase: PhaseView,
    pub dirs: Seq<Seq<char>>,
}

impl View for ScpDownload {
    type V = DownloadView;

    closed spec fn view(&self) -> DownloadView {
        DownloadView {
            phase: match self.phase {
                Phase::Header => PhaseView::Header,
                Phase::Body { name, size, remaining } => PhaseView::Body {
                    name: name@,
                    size: size as int,
                    remaining: remaining as int,
                },
                Phase::Trailer { name, size } => PhaseView::Trailer {
                    name: name@,
                    size: size as int,
                },
                Phase::Finished => PhaseView::Finished,
            },
            dirs: names(self.dirs@),
        }
    }
}

/// The lesser of two numbers.
pub open spec fn least(a: int, b: int) -> int {
    if a <= b {
        a
    } else {
        b
    }
}

/// A step of the receiving side: its next state and what it does, or why the copy failed.
pub type DownloadStep = Result<(DownloadView, Seq<DownloadActionView>), ScpErrorView>;

/// What a message other than an empty one means where a header is awaited.
pub open spec fn on_header(dirs: Seq<Seq<char>>, msg: Seq<u8>) -> DownloadStep {
    if msg[0] == 67 {
        match header_value(msg) {
            Err(e) => Err(e),
            Ok((size, name)) => Ok(
                (
                    DownloadView {
                        phase: if size == 0 {
                            PhaseView::Trailer { name, size }
                        } else {
                            PhaseView::Body { name, size, remaining: size }
                        },
                        dirs,
                    },
                    if size == 0 {
                        seq![
                            DownloadActionView::Ack,
                            DownloadActionView::CreateFile(dirs.push(name)),
                            DownloadActionView::Flush,
                        ]
                    } else {
                        seq![
                            DownloadActionView::Ack,
                            DownloadActionView::CreateFile(dirs.push(name)),
                        ]
                    },
                ),
            ),
        }
    } else if msg[0] == 68 {
        match header_value(msg) {
            Err(e) => Err(e),
            Ok((_, name)) => Ok(
                (
                    DownloadView { phase: PhaseView::Header, dirs: dirs.push(name) },
                    seq![
                        DownloadActionView::CreateDir(dirs.push(name)),
                        DownloadActionView::Ack,
                    ],
                ),
            ),
        }
    } else if msg[0] == 69 {
        Ok(
            (
                DownloadView {
                    phase: PhaseView::Header,
                    dirs: if dirs.len() > 0 {
                        dirs.drop_last()
                    } else {
                        dirs
                    },
                },
                seq![DownloadActionView::Ack],
            ),
        )
    } else if msg[0] == 1 {
        Ok(
            (
                DownloadView { phase: PhaseView::Header, dirs },
                seq![
                    DownloadActionView::Warn(trimmed(lossy(msg.skip(1)))),
                    DownloadActionView::Ack,
                ],
            ),
        )
    } else if msg[0] == 2 {
        Err(ScpErrorView::Remote(trimmed(lossy(msg.skip(1)))))
    } else {
        Err(ScpErrorView::UnexpectedHeader(msg[0]))
    }
}

/// What a packet means in the middle of a file: the bytes that the file still lacks are written,
/// and a packet that holds more than those ends the file on the spot.
pub open spec fn on_body(
    dirs: Seq<Seq<char>>,
    name: Seq<char>,
    size: int,
    remaining: int,
    packet: Seq<u8>,
) -> (DownloadView, Seq<DownloadActionView>) {
    let written = DownloadActionView::Write(packet.take(least(remaining, packet.len() as int)));
    if packet.len() < remaining {
        (
            DownloadView {
                phase: PhaseView::Body { name, size, remaining: remaining - packet.len() },
                dirs,
            },
            seq![written],
        )
    } else if packet.len() == remaining {
        (
            DownloadView { phase: PhaseView::Trailer { name, size }, dirs },
            seq![written, DownloadActionView::Flush],
        )
    } else {
        (
            DownloadView { phase: PhaseView::Header, dirs },
            seq![
                written,
                DownloadActionView::Flush,
                DownloadActionView::Report(dirs.push(name), size),
                DownloadActionView::Ack,
            ],
        )
    }
}

/// What the receiving side does with a channel event.
pub open spec fn download_next(st: DownloadView, event: ChannelEventView) -> DownloadStep {
    match (st.phase, event) {
        (PhaseView::Finished, _) => Ok((st, Seq::empty())),
        (_, ChannelEventView::Other) => Ok((st, Seq::empty())),
        (PhaseView::Header, ChannelEventView::Data(msg)) => if msg.len() == 0 {
            Ok((st, Seq::empty()))
        } else {
            on_header(st.dirs, msg)
        },
        (PhaseView::Header, _) => Ok(
            (
                DownloadView { phase: PhaseView::Finished, dirs: st.dirs },
                seq![DownloadActionView::SendEof],
            ),
        ),
        (PhaseView::Body { name, size, remaining }, ChannelEventView::Data(packet)) => Ok(
            on_body(st.dirs, name, size, remaining, packet),
        ),
        (PhaseView::Body { .. }, _) => Err(ScpErrorView::ClosedDuringTransfer),
        (PhaseView::Trailer { name, size }, _) => Ok(
            (
                DownloadView { phase: PhaseView::Header, dirs: st.dirs },
                seq![
                    DownloadActionView::Report(st.dirs.push(name), size),
                    DownloadActionView::Ack,
                ],
            ),
        ),
    }
}

/// The first `n` bytes of `bytes`.
fn first_bytes(bytes: &Vec<u8>, n: usize) -> (r: Vec<u8>)
    requires
        n <= bytes@.len(),
    ensures
        r@ == bytes@.take(n as int),
{
    let mut r: Vec<u8> = Vec::new();
    let mut i: usize = 0;
    while i < n
        invariant
            i <= n <= bytes@.len(),
            r@ == bytes@.take(i as int),
        decreases n - i,
    {
        r.push(bytes[i]);
        i += 1;
    }
    r
}

/// `dirs` with `name` behind it.
fn path_to(dirs: &Vec<String>, name: &str) -> (r: Vec<String>)
    ensures
        names(r@) == names(dirs@).push(name@),
{
    let mut r: Vec<String> = Vec::new();
    let mut i: usize = 0;
    while i < dirs.len()
        invariant
            i <= dirs@.len(),
            names(r@) == names(dirs@).take(i as int),
        decreases dirs@.len() - i,
    {
        let ghost before = r@;
        r.push(dirs[i].clone());
        assert(names(r@) =~= names(before).push(dirs@[i as int]@));
        i += 1;
    }
    let ghost before = r@;
    r.push(name.to_owned());
    assert(names(r@) =~= names(before).push(name@));
    assert(names(dirs@).take(i as int) =~= names(dirs@));
    r
}

impl ScpDownload {
    /// Whether the receiving side's parts fit together.
    pub closed spec fn wf(&self) -> bool {
        match self.phase {
            Phase::Body { size, remaining, .. } => 0 < remaining <= size,
            _ => true,
        }
    }

    /// A copy that waits for its first header, and what it does first: it acknowledges, so that
    /// the remote end starts.
    pub fn begin() -> (r: (ScpDownload, Vec<DownloadAction>))
        ensures
            r.0.wf(),
            r.0@ == (DownloadView { phase: PhaseView::Header, dirs: Seq::empty() }),
            actions(r.1@) == seq![DownloadActionView::Ack],
    {
        let s = ScpDownload { phase: Phase::Header, dirs: Vec::new() };
        assert(names(s.dirs@) =~= Seq::empty());
        let mut todo: Vec<DownloadAction> = Vec::new();
        todo.push(DownloadAction::Ack);
        assert(actions(todo@) =~= seq![DownloadActionView::Ack]);
        (s, todo)
    }

    /// Whether the copy is over.
    pub fn is_finished(&self) -> (r: bool)
        ensures
            r == (self@.phase is Finished),
    {
        match self.phase {
            Phase::Finished => true,
            _ => false,
        }
    }

    /// Takes one channel event. A copy that failed is over.
    pub fn step(&mut self, event: &ChannelEvent) -> (r: Result<Vec<DownloadAction>, ScpError>)
        requires
            old(self).wf(),
        ensures
            final(self).wf(),
            match r {
                Ok(todo) => download_next(old(self)@, event@) == Ok::<
                    (DownloadView, Seq<DownloadActionView>),
                    ScpErrorView,
                >((final(self)@, actions(todo@))),
                Err(e) => download_next(old(self)@, event@) == Err::<
                    (DownloadView, Seq<DownloadActionView>),
                    ScpErrorView,
                >(e@) && final(self)@ == (DownloadView {
                    phase: PhaseView::Finished,
                    dirs: old(self)@.dirs,
                }),
            },
    {
        let mut todo: Vec<DownloadAction> = Vec::new();
        assert(actions(todo@) =~= Seq::empty());
        let mut phase = Phase::Finished;
        std::mem::swap(&mut self.phase, &mut phase);
        let mut buf: Vec<u8> = Vec::new();
        let got = recv_data(event, &mut buf);
        assert(got is Packet ==> event@ == ChannelEventView::Data(buf@)) by {
            if let ChannelEventView::Data(b) = event@ {
                assert(Seq::<u8>::empty() + b =~= b);
            }
        }
        match (phase, got) {
            (Phase::Finished, _) => Ok(todo),
            (phase, Received::Pending) => {
                self.phase = phase;
                Ok(todo)
            },
            (Phase::Header, Received::Packet) => {
                if buf.len() == 0 {
                    self.phase = Phase::Header;
                    Ok(todo)
                } else {
                    self.step_header(&buf)
                }
            },
            (Phase::Header, Received::Over) => {
                todo.push(DownloadAction::SendEof);
                assert(actions(todo@) =~= seq![DownloadActionView::SendEof]);
                Ok(todo)
            },
            (Phase::Body { name, size, remaining }, Received::Packet) => {
                Ok(self.step_body(name, size, remaining, &buf))
            },
            (Phase::Body { .. }, Received::Over) => Err(ScpError::ClosedDuringTransfer),
            (Phase::Trailer { name, size }, _) => {
                self.phase = Phase::Header;
                let path = path_to(&self.dirs, name.as_str());
                todo.push(DownloadAction::Report(path, size));
                todo.push(DownloadAction::Ack);
                assert(actions(todo@) =~= seq![
                    DownloadActionView::Report(names(path@), size as int),
                    DownloadActionView::Ack,
                ]);
                Ok(todo)
            },
        }
    }

    /// Takes a message where a header is awaited.
    fn step_header(&mut self, msg: &Vec<u8>) -> (r: Result<Vec<DownloadAction>, ScpError>)
        requires
            old(self)@.phase is Finished,
            msg@.len() > 0,
        ensures
            final(self).wf(),
            match r {
                Ok(todo) => on_header(old(self)@.dirs, msg@) == Ok::<
                    (DownloadView, Seq<DownloadActionView>),
                    ScpErrorView,
                >((final(self)@, actions(todo@))),
                Err(e) => on_header(old(self)@.dirs, msg@) == Err::<
                    (DownloadView, Seq<DownloadActionView>),
                    ScpErrorView,
                >(e@) && final(self)@ == old(self)@,
            },
    {
        let mut todo: Vec<DownloadAction> = Vec::new();
        let kind: u8 = msg[0];
        if kind == 67 || kind == 68 {
            proof {
                lemma_has_kind(msg@);
            }
            let (size, name) = match parse_c_header(msg.as_slice()) {
                Ok(v) => v,
                Err(e) => return Err(e),
            };
            let path = path_to(&self.dirs, name.as_str());
            if kind == 67 {
                todo.push(DownloadAction::Ack);
                todo.push(DownloadAction::CreateFile(path));
                if size == 0 {
                    todo.push(DownloadAction::Flush);
                    self.phase = Phase::Trailer { name, size };
                    assert(actions(todo@) =~= seq![
                        DownloadActionView::Ack,
                        DownloadActionView::CreateFile(names(path@)),
                        DownloadActionView::Flush,
                    ]);
                } else {
                    self.phase = Phase::Body { name, size, remaining: size };
                    assert(actions(todo@) =~= seq![
                        DownloadActionView::Ack,
                        DownloadActionView::CreateFile(names(path@)),
                    ]);
                }
            } else {
                let ghost before = self.dirs@;
                self.dirs.push(name);
                assert(names(self.dirs@) =~= names(before).push(name@));
                self.phase = Phase::Header;
                todo.push(DownloadAction::CreateDir(path));
                todo.push(DownloadAction::Ack);
                assert(actions(todo@) =~= seq![
                    DownloadActionView::CreateDir(names(path@)),
                    DownloadActionView::Ack,
                ]);
            }
            Ok(todo)
        } else if kind == 69 {
            let ghost before = self.dirs@;
            if self.dirs.len() > 0 {
                self.dirs.pop();
                assert(names(self.dirs@) =~= names(before).drop_last());
            }
            self.phase = Phase::Header;
            todo.push(DownloadAction::Ack);
            assert(actions(todo@) =~= seq![DownloadActionView::Ack]);
            Ok(todo)
        } else if kind == 1 {
            let message = text_behind_code(msg);
            let warning = trim(message.as_str()).to_owned();
            self.phase = Phase::Header;
            todo.push(DownloadAction::Warn(warning));
            todo.push(DownloadAction::Ack);
            assert(actions(todo@) =~= seq![
                DownloadActionView::Warn(warning@),
                DownloadActionView::Ack,
            ]);
            Ok(todo)
        } else if kind == 2 {
            let message = text_behind_code(msg);
            Err(ScpError::Remote(trim(message.as_str()).to_owned()))
        } else {
            Err(ScpError::UnexpectedHeader(kind))
        }
    }

    /// Takes a packet in the middle of a file.
    fn step_body(
        &mut self,
        name: String,
        size: u64,
        remaining: u64,
        packet: &Vec<u8>,
    ) -> (todo: Vec<DownloadAction>)
        requires
            0 < remaining <= size,
        ensures
            final(self).wf(),
            (final(self)@, actions(todo@)) == on_body(
                old(self)@.dirs,
                name@,
                size as int,
                remaining as int,
                packet@,
            ),
    {
        let mut todo: Vec<DownloadAction> = Vec::new();
        let len: usize = packet.len();
        let take: usize = if remaining < len as u64 {
            remaining as usize
        } else {
            len
        };
        let left: u64 = remaining - take as u64;
        let bytes = first_bytes(packet, take);
        let ghost written = DownloadActionView::Write(bytes@);
        todo.push(DownloadAction::Write(bytes));
        if left > 0 {
            self.phase = Phase::Body { name, size, remaining: left };
            assert(actions(todo@) =~= seq![written]);
        } else if take == len {
            todo.push(DownloadAction::Flush);
            self.phase = Phase::Trailer { name, size };
            assert(actions(todo@) =~= seq![written, DownloadActionView::Flush]);
        } else {
            let path = path_to(&self.dirs, name.as_str());
            todo.push(DownloadAction::Flush);
            todo.push(DownloadAction::Report(path, size));
            todo.push(DownloadAction::Ack);
            self.phase = Phase::Header;
            assert(actions(todo@) =~= seq![
                written,
                DownloadActionView::Flush,
                DownloadActionView::Report(names(path@), size as int),
                DownloadActionView::Ack,
            ]);
        }
        todo
    }
}

} // verus!
