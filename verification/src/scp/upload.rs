//! The sending side of a copy: events from the file system and the channel in, actions out.
use crate::scp::download::names;
use crate::scp::wire::{
    dir_end, dir_header, dir_line, file_header, file_line, recv_response, reply_in, ChannelEvent,
    ChannelEventView, Reply, ReplyView, ScpError, ScpErrorView,
};
use vstd::prelude::*;
use vstd::string::*;
use vstd::utf8::*;

verus! {

/// What the sending side does next. It works at a current path, which starts as the local target.
#[derive(Debug)]
pub enum UploadAction {
    /// Look whether the target is a directory.
    InspectTarget,
    /// Go down to the directory entry that was found last.
    Enter,
    /// Go back up to the directory that holds the current path.
    Leave,
    /// Find the size and the name of the file at the current path.
    StatFile,
    /// Read the file at the current path.
    ReadFile,
    /// Find the name of the directory at the current path.
    NameDir,
    /// Start to list the directory at the current path.
    OpenDir,
    /// Find the next entry of the directory that is listed.
    NextEntry,
    /// Send these bytes.
    Send(Vec<u8>),
    /// Tell the user that the file at the current path, of this many bytes, was sent.
    Report(u64),
    /// Tell the user what the remote end warns of.
    Warn(String),
    /// Say that nothing more will be sent.
    SendEof,
}

/// The mathematical content of an [`UploadAction`].
pub ghost enum UploadActionView {
    InspectTarget,
    Enter,
    Leave,
    StatFile,
    ReadFile,
    NameDir,
    OpenDir,
    NextEntry,
    Send(Seq<u8>),
    Report(int),
    Warn(Seq<char>),
    SendEof,
}

impl View for UploadAction {
    type V = UploadActionView;

    open spec fn view(&self) -> UploadActionView {
        match self {
            UploadAction::InspectTarget => UploadActionView::InspectTarget,
            UploadAction::Enter => UploadActionView::Enter,
            UploadAction::Leave => UploadActionView::Leave,
            UploadAction::StatFile => UploadActionView::StatFile,
            UploadAction::ReadFile => UploadActionView::ReadFile,
            UploadAction::NameDir => UploadActionView::NameDir,
            UploadAction::OpenDir => UploadActionView::OpenDir,
            UploadAction::NextEntry => UploadActionView::NextEntry,
            UploadAction::Send(b) => UploadActionView::Send(b@),
            UploadAction::Report(n) => UploadActionView::Report(*n as int),
            UploadAction::Warn(w) => UploadActionView::Warn(w@),
            UploadAction::SendEof => UploadActionView::SendEof,
        }
    }
}

/// A list of actions by their contents.
pub open spec fn actions(v: Seq<UploadAction>) -> Seq<UploadActionView> {
    v.map_values(|a: UploadAction| a@)
}

/// What the sending side learns.
#[derive(Debug)]
pub enum UploadEvent {
    /// The channel's next message.
    Channel(ChannelEvent),
    /// Whether the target is a directory.
    Target { is_dir: bool },
    /// The size and the name of a file.
    FileInfo { size: u64, name: Option<String> },
    /// What a file holds.
    Contents(Vec<u8>),
    /// The name of a directory.
    DirInfo { name: Option<String> },
    /// A directory has another entry.
    Entry { is_dir: bool },
    /// A directory has no more entries.
    NoMoreEntries,
}

/// The mathematical content of an [`UploadEvent`].
pub ghost enum UploadEventView {
    Channel(ChannelEventView),
    Target { is_dir: bool },
    FileInfo { size: int, name: Option<Seq<char>> },
    Contents(Seq<u8>),
    DirInfo { name: Option<Seq<char>> },
    Entry { is_dir: bool },
    NoMoreEntries,
}

/// An optional name as characters.
pub open spec fn opt_name(n: Option<String>) -> Option<Seq<char>> {
    match n {
        Some(s) => Some(s@),
        None => None,
    }
}

impl View for UploadEvent {
    type V = UploadEventView;

    open spec fn view(&self) -> UploadEventView {
        match self {
            UploadEvent::Channel(e) => UploadEventView::Channel(e@),
            UploadEvent::Target { is_dir } => UploadEventView::Target { is_dir: *is_dir },
            UploadEvent::FileInfo { size, name } => UploadEventView::FileInfo {
                size: *size as int,
                name: opt_name(*name),
            },
            UploadEvent::Contents(b) => UploadEventView::Contents(b@),
            UploadEvent::DirInfo { name } => UploadEventView::DirInfo { name: opt_name(*name) },
            UploadEvent::Entry { is_dir } => UploadEventView::Entry { is_dir: *is_dir },
            UploadEvent::NoMoreEntries => UploadEventView::NoMoreEntries,
        }
    }
}

/// An action stands for what it asks for: the bytes to send, the size, the text.
pub proof fn law_upload_action_stands_for_itself(a: UploadAction)
    ensures
        match a {
            UploadAction::InspectTarget => a@ is InspectTarget,
            UploadAction::Enter => a@ is Enter,
            UploadAction::Leave => a@ is Leave,
            UploadAction::StatFile => a@ is StatFile,
            UploadAction::ReadFile => a@ is ReadFile,
            UploadAction::NameDir => a@ is NameDir,
            UploadAction::OpenDir => a@ is OpenDir,
            UploadAction::NextEntry => a@ is NextEntry,
            UploadAction::Send(b) => a@ == UploadActionView::Send(b@),
            UploadAction::Report(n) => a@ == UploadActionView::Report(n as int),
            UploadAction::Warn(w) => a@ == UploadActionView::Warn(w@),
            UploadAction::SendEof => a@ is SendEof,
        },
{
}

/// A list of actions stands for its actions, each in its place.
pub proof fn law_upload_actions_stand_in_order(v: Seq<UploadAction>, i: int)
    requires
        0 <= i < v.len(),
    ensures
        actions(v).len() == v.len(),
        actions(v)[i] == v[i]@,
{
}

/// An event stands for what it tells: the channel's message, the size and the name, the contents.
pub proof fn law_upload_event_stands_for_itself(e: UploadEvent)
    ensures
        match e {
            UploadEvent::Channel(c) => e@ == UploadEventView::Channel(c@),
            UploadEvent::Target { is_dir } => e@ == (UploadEventView::Target { is_dir }),
            UploadEvent::FileInfo { size, name: Some(n) } => e@ == (UploadEventView::FileInfo {
                size: size as int,
                name: Some(n@),
            }),
            UploadEvent::FileInfo { size, name: None } => e@ == (UploadEventView::FileInfo {
                size: size as int,
                name: None,
            }),
            UploadEvent::Contents(b) => e@ == UploadEventView::Contents(b@),
            UploadEvent::DirInfo { name: Some(n) } => e@ == (UploadEventView::DirInfo {
                name: Some(n@),
            }),
            UploadEvent::DirInfo { name: None } => e@ == (UploadEventView::DirInfo { name: None }),
            UploadEvent::Entry { is_dir } => e@ == (UploadEventView::Entry { is_dir }),
            UploadEvent::NoMoreEntries => e@ is NoMoreEntries,
        },
{
}

/// What the sending side waits for.
#[derive(Debug, Clone, Copy, PartialEq, Eq, Structural)]
pub enum UploadPhase {
    /// The remote end's first reply.
    Greeting,
    /// Whether the target is a directory.
    Target,
    /// A file's size and name.
    FileInfo,
    /// The reply to a file's header.
    FileHeader { size: u64 },
    /// A file's contents.
    Contents { size: u64 },
    /// The reply to a file's contents.
    FileBody { size: u64 },
    /// A directory's name.
    DirInfo,
    /// The reply to a directory's header.
    DirHeader,
    /// A directory's next entry.
    Listing,
    /// The reply to a directory's end.
    DirEnd,
    /// Nothing.
    Finished,
}

/// The sending side of a copy.
#[derive(Debug)]
pub struct ScpUpload {
    recursive: bool,
    phase: UploadPhase,
    dirs: Vec<String>,
}

/// The state of a [`ScpUpload`]: its recursive flag, what it waits for, and the directories whose
/// header was sent and whose end was not acknowledged yet.
#[verifier::ext_equal]
pub ghost struct UploadView {
    pub recursive: bool,
    pub phase: UploadPhase,
    pub dirs: Seq<Seq<char>>,
}

impl View for ScpUpload {
    type V = UploadView;

    closed spec fn view(&self) -> UploadView {
        UploadView { recursive: self.recursive, phase: self.phase, dirs: names(self.dirs@) }
    }
}

/// A step of the sending side: its next state and what it does, or why the copy failed.
pub type UploadStep = Result<(UploadView, Seq<UploadActionView>), ScpErrorView>;

/// What a warning makes the sending side do.
pub open spec fn warned(w: Option<Seq<char>>) -> Seq<UploadActionView> {
    match w {
        Some(m) => seq![UploadActionView::Warn(m)],
        None => Seq::empty(),
    }
}

/// `st` in another phase.
pub open spec fn in_phase(st: UploadView, phase: UploadPhase) -> UploadView {
    UploadView { phase, ..st }
}

/// Where the sending side goes from an item that is done: on with the directory that holds it,
/// or to the end where none does.
pub open spec fn item_done(st: UploadView) -> (UploadView, Seq<UploadActionView>) {
    if st.dirs.len() > 0 {
        (
            in_phase(st, UploadPhase::Listing),
            seq![UploadActionView::Leave, UploadActionView::NextEntry],
        )
    } else {
        (in_phase(st, UploadPhase::Finished), seq![UploadActionView::SendEof])
    }
}

/// What the sending side does once its last message was accepted.
pub open spec fn on_accepted(st: UploadView) -> (UploadView, Seq<UploadActionView>) {
    match st.phase {
        UploadPhase::Greeting => (
            in_phase(st, UploadPhase::Target),
            seq![UploadActionView::InspectTarget],
        ),
        UploadPhase::FileHeader { size } => (
            in_phase(st, UploadPhase::Contents { size }),
            seq![UploadActionView::ReadFile],
        ),
        UploadPhase::FileBody { size } => {
            let (next, more) = item_done(st);
            (next, seq![UploadActionView::Report(size as int)] + more)
        },
        UploadPhase::DirHeader => (
            in_phase(st, UploadPhase::Listing),
            seq![UploadActionView::OpenDir, UploadActionView::NextEntry],
        ),
        UploadPhase::DirEnd => item_done(UploadView { dirs: st.dirs.drop_last(), ..st }),
        _ => (st, Seq::empty()),
    }
}

/// Whether the sending side waits for a reply.
pub open spec fn awaits_reply(phase: UploadPhase) -> bool {
    phase is Greeting || phase is FileHeader || phase is FileBody || phase is DirHeader || phase
        is DirEnd
}

/// How the sending side starts on a file or a directory.
pub open spec fn start_item(st: UploadView, is_dir: bool) -> (UploadView, UploadActionView) {
    if is_dir {
        (in_phase(st, UploadPhase::DirInfo), UploadActionView::NameDir)
    } else {
        (in_phase(st, UploadPhase::FileInfo), UploadActionView::StatFile)
    }
}

/// What the sending side does with an event. An event that it does not wait for changes nothing.
pub open spec fn upload_next(st: UploadView, event: UploadEventView) -> UploadStep {
    match event {
        UploadEventView::Channel(e) => if awaits_reply(st.phase) {
            match reply_in(e) {
                ReplyView::Pending => Ok((st, Seq::empty())),
                ReplyView::Failed(err) => Err(err),
                ReplyView::Accepted(w) => {
                    let (next, todo) = on_accepted(st);
                    Ok((next, warned(w) + todo))
                },
            }
        } else {
            Ok((st, Seq::empty()))
        },
        UploadEventView::Target { is_dir } => if st.phase is Target {
            if is_dir && !st.recursive {
                Err(ScpErrorView::IsDirectory)
            } else {
                let (next, act) = start_item(st, is_dir);
                Ok((next, seq![act]))
            }
        } else {
            Ok((st, Seq::empty()))
        },
        UploadEventView::Entry { is_dir } => if st.phase is Listing {
            let (next, act) = start_item(st, is_dir);
            Ok((next, seq![UploadActionView::Enter, act]))
        } else {
            Ok((st, Seq::empty()))
        },
        UploadEventView::NoMoreEntries => if st.phase is Listing {
            Ok(
                (
                    in_phase(st, UploadPhase::DirEnd),
                    seq![UploadActionView::Send(encode_utf8("E\n"@))],
                ),
            )
        } else {
            Ok((st, Seq::empty()))
        },
        UploadEventView::FileInfo { size, name } => if st.phase is FileInfo {
            match name {
                None => Err(ScpErrorView::NoFileName),
                Some(n) => Ok(
                    (
                        in_phase(st, UploadPhase::FileHeader { size: size as u64 }),
                        seq![UploadActionView::Send(encode_utf8(file_line(size, n)))],
                    ),
                ),
            }
        } else {
            Ok((st, Seq::empty()))
        },
        UploadEventView::Contents(data) => match st.phase {
            UploadPhase::Contents { size } => Ok(
                (
                    in_phase(st, UploadPhase::FileBody { size }),
                    seq![UploadActionView::Send(data), UploadActionView::Send(seq![0u8])],
                ),
            ),
            _ => Ok((st, Seq::empty())),
        },
        UploadEventView::DirInfo { name } => if st.phase is DirInfo {
            match name {
                None => Err(ScpErrorView::NoDirectoryName),
                Some(n) => Ok(
                    (
                        UploadView { phase: UploadPhase::DirHeader, dirs: st.dirs.push(n), ..st },
                        seq![UploadActionView::Send(encode_utf8(dir_line(n)))],
                    ),
                ),
            }
        } else {
            Ok((st, Seq::empty()))
        },
    }
}

impl ScpUpload {
    /// Whether the sending side's parts fit together: it is inside a directory wherever it lists
    /// one or closes one.
    pub closed spec fn wf(&self) -> bool {
        (self.phase is DirHeader || self.phase is Listing || self.phase is DirEnd)
            ==> self.dirs@.len() > 0
    }

    /// A copy that waits for the remote end's greeting.
    pub fn begin(recursive: bool) -> (r: ScpUpload)
        ensures
            r.wf(),
            r@ == (UploadView {
                recursive,
                phase: UploadPhase::Greeting,
                dirs: Seq::empty(),
            }),
    {
        let r = ScpUpload { recursive, phase: UploadPhase::Greeting, dirs: Vec::new() };
        assert(names(r.dirs@) =~= Seq::empty());
        r
    }

    /// Whether the copy is over.
    pub fn is_finished(&self) -> (r: bool)
        ensures
            r == (self@.phase is Finished),
    {
        match self.phase {
            UploadPhase::Finished => true,
            _ => false,
        }
    }

    /// Whether the copy waits for a reply of the remote end.
    pub fn awaits_reply(&self) -> (r: bool)
        ensures
            r == awaits_reply(self@.phase),
    {
        match self.phase {
            UploadPhase::Greeting => true,
            UploadPhase::FileHeader { .. } => true,
            UploadPhase::FileBody { .. } => true,
            UploadPhase::DirHeader => true,
            UploadPhase::DirEnd => true,
            _ => false,
        }
    }

    /// Takes one event. A copy that failed is over.
    pub fn step(&mut self, event: UploadEvent) -> (r: Result<Vec<UploadAction>, ScpError>)
        requires
            old(self).wf(),
        ensures
            final(self).wf(),
            match r {
                Ok(todo) => upload_next(old(self)@, event@) == Ok::<
                    (UploadView, Seq<UploadActionView>),
                    ScpErrorView,
                >((final(self)@, actions(todo@))),
                Err(e) => upload_next(old(self)@, event@) == Err::<
                    (UploadView, Seq<UploadActionView>),
                    ScpErrorView,
                >(e@) && final(self)@ == in_phase(old(self)@, UploadPhase::Finished),
            },
    {
        let mut todo: Vec<UploadAction> = Vec::new();
        assert(actions(todo@) =~= Seq::empty());
        match (self.phase, event) {
            (_, UploadEvent::Channel(e)) => {
                if self.awaits_reply() {
                    match recv_response(&e) {
                        Reply::Pending => Ok(todo),
                        Reply::Failed(err) => {
                            self.phase = UploadPhase::Finished;
                            Err(err)
                        },
                        Reply::Accepted(w) => {
                            let ghost warning = opt_name(w);
                            if let Some(m) = w {
                                todo.push(UploadAction::Warn(m));
                            }
                            assert(actions(todo@) =~= warned(warning));
                            let mut more = self.accepted();
                            let ghost second = actions(more@);
                            todo.append(&mut more);
                            assert(actions(todo@) =~= warned(warning) + second);
                            Ok(todo)
                        },
                    }
                } else {
                    Ok(todo)
                }
            },
            (UploadPhase::Target, UploadEvent::Target { is_dir }) => {
                if is_dir && !self.recursive {
                    self.phase = UploadPhase::Finished;
                    Err(ScpError::IsDirectory)
                } else {
                    let ghost st = self@;
                    todo.push(self.start(is_dir));
                    assert(actions(todo@) =~= seq![start_item(st, is_dir).1]);
                    Ok(todo)
                }
            },
            (UploadPhase::Listing, UploadEvent::Entry { is_dir }) => {
                let ghost st = self@;
                todo.push(UploadAction::Enter);
                todo.push(self.start(is_dir));
                assert(actions(todo@) =~= seq![UploadActionView::Enter, start_item(st, is_dir).1]);
                Ok(todo)
            },
            (UploadPhase::Listing, UploadEvent::NoMoreEntries) => {
                self.phase = UploadPhase::DirEnd;
                todo.push(UploadAction::Send(dir_end()));
                assert(actions(todo@) =~= seq![UploadActionView::Send(encode_utf8("E\n"@))]);
                Ok(todo)
            },
            (UploadPhase::FileInfo, UploadEvent::FileInfo { size, name }) => match name {
                None => {
                    self.phase = UploadPhase::Finished;
                    Err(ScpError::NoFileName)
                },
                Some(n) => {
                    self.phase = UploadPhase::FileHeader { size };
                    todo.push(UploadAction::Send(file_header(size, n.as_str())));
                    assert(actions(todo@) =~= seq![
                        UploadActionView::Send(encode_utf8(file_line(size as int, n@))),
                    ]);
                    Ok(todo)
                },
            },
            (UploadPhase::Contents { size }, UploadEvent::Contents(data)) => {
                self.phase = UploadPhase::FileBody { size };
                let mut status: Vec<u8> = Vec::new();
                status.push(0);
                assert(status@ =~= seq![0u8]);
                todo.push(UploadAction::Send(data));
                todo.push(UploadAction::Send(status));
                assert(actions(todo@) =~= seq![
                    UploadActionView::Send(data@),
                    UploadActionView::Send(seq![0u8]),
                ]);
                Ok(todo)
            },
            (UploadPhase::DirInfo, UploadEvent::DirInfo { name }) => match name {
                None => {
                    self.phase = UploadPhase::Finished;
                    Err(ScpError::NoDirectoryName)
                },
                Some(n) => {
                    self.phase = UploadPhase::DirHeader;
                    todo.push(UploadAction::Send(dir_header(n.as_str())));
                    let ghost before = self.dirs@;
                    self.dirs.push(n);
                    assert(names(self.dirs@) =~= names(before).push(n@));
                    assert(actions(todo@) =~= seq![
                        UploadActionView::Send(encode_utf8(dir_line(n@))),
                    ]);
                    Ok(todo)
                },
            },
            _ => Ok(todo),
        }
    }

    /// Starts on a file or a directory.
    fn start(&mut self, is_dir: bool) -> (r: UploadAction)
        ensures
            final(self).wf(),
            (final(self)@, r@) == start_item(old(self)@, is_dir),
    {
        if is_dir {
            self.phase = UploadPhase::DirInfo;
            UploadAction::NameDir
        } else {
            self.phase = UploadPhase::FileInfo;
            UploadAction::StatFile
        }
    }

    /// Goes on from an item that is done.
    fn finish_item(&mut self, todo: &mut Vec<UploadAction>)
        ensures
            final(self).wf(),
            final(self)@ == item_done(old(self)@).0,
            actions(final(todo)@) == actions(old(todo)@) + item_done(old(self)@).1,
    {
        let ghost before = actions(todo@);
        if self.dirs.len() > 0 {
            self.phase = UploadPhase::Listing;
            todo.push(UploadAction::Leave);
            todo.push(UploadAction::NextEntry);
            assert(actions(todo@) =~= before + seq![
                UploadActionView::Leave,
                UploadActionView::NextEntry,
            ]);
        } else {
            self.phase = UploadPhase::Finished;
            todo.push(UploadAction::SendEof);
            assert(actions(todo@) =~= before + seq![UploadActionView::SendEof]);
        }
    }

    /// Goes on from a message that was accepted.
    fn accepted(&mut self) -> (todo: Vec<UploadAction>)
        requires
            old(self).wf(),
        ensures
            final(self).wf(),
            (final(self)@, actions(todo@)) == on_accepted(old(self)@),
    {
        let mut todo: Vec<UploadAction> = Vec::new();
        assert(actions(todo@) =~= Seq::empty());
        match self.phase {
            UploadPhase::Greeting => {
                self.phase = UploadPhase::Target;
                todo.push(UploadAction::InspectTarget);
                assert(actions(todo@) =~= seq![UploadActionView::InspectTarget]);
            },
            UploadPhase::FileHeader { size } => {
                self.phase = UploadPhase::Contents { size };
                todo.push(UploadAction::ReadFile);
                assert(actions(todo@) =~= seq![UploadActionView::ReadFile]);
            },
            UploadPhase::FileBody { size } => {
                todo.push(UploadAction::Report(size));
                assert(actions(todo@) =~= seq![UploadActionView::Report(size as int)]);
                self.finish_item(&mut todo);
            },
            UploadPhase::DirHeader => {
                self.phase = UploadPhase::Listing;
                todo.push(UploadAction::OpenDir);
                todo.push(UploadAction::NextEntry);
                assert(actions(todo@) =~= seq![
                    UploadActionView::OpenDir,
                    UploadActionView::NextEntry,
                ]);
            },
            UploadPhase::DirEnd => {
                let ghost before = self.dirs@;
                self.dirs.pop();
                assert(names(self.dirs@) =~= names(before).drop_last());
                self.finish_item(&mut todo);
                assert(actions(todo@) =~= item_done(
                    UploadView { dirs: old(self)@.dirs.drop_last(), ..old(self)@ },
                ).1);
            },
            _ => {},
        }
        todo
    }
}

} // verus!
