//! What a whole copy comes to: the messages that the sending side puts on the channel for a
//! tree of files, and what the receiving side makes of them.
use crate::scp::download::{
    download_next, on_body, DownloadActionView, DownloadStep, DownloadView, PhaseView,
};
use crate::scp::upload::{
    awaits_reply, in_phase, item_done, on_accepted, start_item, upload_next, warned,
    UploadActionView, UploadEventView, UploadPhase, UploadStep, UploadView,
};
use crate::scp::wire::{
    dir_line, file_line, header_line, header_value, law_dir_header_round_trip,
    law_file_header_round_trip, law_header_reads_its_fields, law_header_starts_with_its_kind,
    law_reply_goes_by_its_first_byte, law_reply_hands_its_text_on, reply_in, ChannelEventView,
    ReplyView, ScpErrorView,
};
use crate::text::{
    all_white, decimal, is_white_space, law_decimal_round_trip, law_lossy_keeps_text,
    law_trim_takes_white_space_off, lossy, trimmed,
};
use vstd::prelude::*;
use vstd::utf8::*;

verus! {

/// A file, with its contents in the pieces in which a channel delivers them, or a directory.
pub ghost enum Node {
    File { name: Seq<char>, pieces: Seq<Seq<u8>> },
    Dir { name: Seq<char>, children: Seq<Node> },
}

/// Byte sequences put together in order.
pub open spec fn joined(pieces: Seq<Seq<u8>>) -> Seq<u8>
    decreases pieces.len(),
{
    if pieces.len() == 0 {
        Seq::empty()
    } else {
        joined(pieces.drop_last()) + pieces.last()
    }
}

/// Whether a node is a directory.
pub open spec fn is_dir(n: Node) -> bool {
    n is Dir
}

// --- Sending ---

/// The reply that lets the sending side go on.
pub open spec fn go_on() -> UploadEventView {
    UploadEventView::Channel(ChannelEventView::Data(seq![0u8]))
}

/// What the sending side learns of a node, from its start to its last reply.
pub open spec fn node_events(n: Node) -> Seq<UploadEventView>
    decreases n,
{
    match n {
        Node::File { name, pieces } => seq![
            UploadEventView::FileInfo { size: joined(pieces).len() as int, name: Some(name) },
            go_on(),
            UploadEventView::Contents(joined(pieces)),
            go_on(),
        ],
        Node::Dir { name, children } => seq![
            UploadEventView::DirInfo { name: Some(name) },
            go_on(),
        ] + list_events(children) + seq![UploadEventView::NoMoreEntries, go_on()],
    }
}

/// What the sending side learns of a directory's entries.
pub open spec fn list_events(children: Seq<Node>) -> Seq<UploadEventView>
    decreases children,
{
    if children.len() == 0 {
        Seq::empty()
    } else {
        list_events(children.drop_last()) + seq![
            UploadEventView::Entry { is_dir: is_dir(children.last()) },
        ] + node_events(children.last())
    }
}

/// The messages that stand for a node on the channel.
pub open spec fn node_messages(n: Node) -> Seq<Seq<u8>>
    decreases n,
{
    match n {
        Node::File { name, pieces } => seq![
            encode_utf8(file_line(joined(pieces).len() as int, name)),
            joined(pieces),
            seq![0u8],
        ],
        Node::Dir { name, children } => seq![encode_utf8(dir_line(name))] + list_messages(children)
            + seq![encode_utf8("E\n"@)],
    }
}

/// The messages that stand for a directory's entries on the channel.
pub open spec fn list_messages(children: Seq<Node>) -> Seq<Seq<u8>>
    decreases children,
{
    if children.len() == 0 {
        Seq::empty()
    } else {
        list_messages(children.drop_last()) + node_messages(children.last())
    }
}

/// The sending side from `st` on through `events`.
pub open spec fn upload_run(st: UploadView, events: Seq<UploadEventView>) -> UploadStep
    decreases events.len(),
{
    if events.len() == 0 {
        Ok((st, Seq::empty()))
    } else {
        match upload_run(st, events.drop_last()) {
            Err(e) => Err(e),
            Ok((mid, acts)) => match upload_next(mid, events.last()) {
                Err(e) => Err(e),
                Ok((end, more)) => Ok((end, acts + more)),
            },
        }
    }
}

/// The messages that a list of actions sends.
pub open spec fn sent(acts: Seq<UploadActionView>) -> Seq<Seq<u8>>
    decreases acts.len(),
{
    if acts.len() == 0 {
        Seq::empty()
    } else {
        match acts.last() {
            UploadActionView::Send(b) => sent(acts.drop_last()).push(b),
            _ => sent(acts.drop_last()),
        }
    }
}

/// Whether a run from `st` through `events` reaches `end` and sends `messages`.
pub open spec fn sends(
    st: UploadView,
    events: Seq<UploadEventView>,
    end: UploadView,
    messages: Seq<Seq<u8>>,
) -> bool {
    match upload_run(st, events) {
        Ok((e, acts)) => e == end && sent(acts) == messages,
        Err(_) => false,
    }
}

/// A list of actions without its warnings.
pub open spec fn unwarned(acts: Seq<UploadActionView>) -> Seq<UploadActionView>
    decreases acts.len(),
{
    if acts.len() == 0 {
        Seq::empty()
    } else if acts.last() is Warn {
        unwarned(acts.drop_last())
    } else {
        unwarned(acts.drop_last()).push(acts.last())
    }
}

/// Whether a run from `st` through `events` reaches `end` and does `acts`.
pub open spec fn runs(
    st: UploadView,
    events: Seq<UploadEventView>,
    end: UploadView,
    acts: Seq<UploadActionView>,
) -> bool {
    upload_run(st, events) == Ok::<(UploadView, Seq<UploadActionView>), ScpErrorView>((end, acts))
}

/// What the sending side does for a node, from its start on: a file is announced, read, sent with a
/// zero byte behind it and reported; a directory is announced, its entries are found and sent one by
/// one, and its end is sent.
pub open spec fn node_todo(n: Node) -> Seq<UploadActionView>
    decreases n,
{
    match n {
        Node::File { name, pieces } => seq![
            UploadActionView::Send(encode_utf8(file_line(joined(pieces).len() as int, name))),
            UploadActionView::ReadFile,
            UploadActionView::Send(joined(pieces)),
            UploadActionView::Send(seq![0u8]),
            UploadActionView::Report(joined(pieces).len() as int),
        ],
        Node::Dir { name, children } => seq![
            UploadActionView::Send(encode_utf8(dir_line(name))),
            UploadActionView::OpenDir,
            UploadActionView::NextEntry,
        ] + list_todo(children) + seq![UploadActionView::Send(encode_utf8("E\n"@))],
    }
}

/// How the sending side starts on a file or a directory.
pub open spec fn first_look(dir: bool) -> UploadActionView {
    if dir {
        UploadActionView::NameDir
    } else {
        UploadActionView::StatFile
    }
}

/// What the sending side does for a directory's entries: it goes down to each, and back up.
pub open spec fn list_todo(children: Seq<Node>) -> Seq<UploadActionView>
    decreases children,
{
    if children.len() == 0 {
        Seq::empty()
    } else {
        list_todo(children.drop_last()) + seq![
            UploadActionView::Enter,
            first_look(is_dir(children.last())),
        ] + node_todo(children.last()) + seq![UploadActionView::Leave, UploadActionView::NextEntry]
    }
}

/// What the sending side does for a target, from the remote end's first reply to the end.
pub open spec fn target_todo(n: Node) -> Seq<UploadActionView> {
    seq![UploadActionView::InspectTarget, first_look(is_dir(n))] + node_todo(n) + seq![
        UploadActionView::SendEof,
    ]
}

proof fn lemma_sent_append(a: Seq<UploadActionView>, b: Seq<UploadActionView>)
    ensures
        sent(a + b) == sent(a) + sent(b),
    decreases b.len(),
{
    if b.len() == 0 {
        assert(a + b =~= a);
    } else {
        lemma_sent_append(a, b.drop_last());
        assert((a + b).drop_last() =~= a + b.drop_last());
        assert((a + b).last() == b.last());
        assert(sent(a + b) =~= sent(a) + sent(b));
    }
}

proof fn lemma_unwarned_append(a: Seq<UploadActionView>, b: Seq<UploadActionView>)
    ensures
        unwarned(a + b) == unwarned(a) + unwarned(b),
    decreases b.len(),
{
    if b.len() == 0 {
        assert(a + b =~= a);
    } else {
        lemma_unwarned_append(a, b.drop_last());
        assert((a + b).drop_last() =~= a + b.drop_last());
        assert((a + b).last() == b.last());
        assert(unwarned(a + b) =~= unwarned(a) + unwarned(b));
    }
}

/// Warnings are not sent.
proof fn lemma_sent_unwarned(acts: Seq<UploadActionView>)
    ensures
        sent(unwarned(acts)) == sent(acts),
    decreases acts.len(),
{
    if acts.len() > 0 {
        let front = acts.drop_last();
        lemma_sent_unwarned(front);
        if !(acts.last() is Warn) {
            assert(unwarned(acts).drop_last() =~= unwarned(front));
        }
    }
}

/// A list without warnings stays as it is.
proof fn lemma_unwarned_id(acts: Seq<UploadActionView>)
    requires
        forall|i: int| 0 <= i < acts.len() ==> !(#[trigger] acts[i] is Warn),
    ensures
        unwarned(acts) == acts,
    decreases acts.len(),
{
    if acts.len() > 0 {
        assert(!(acts[acts.len() - 1] is Warn));
        lemma_unwarned_id(acts.drop_last());
        assert(acts =~= acts.drop_last().push(acts.last()));
    }
}

proof fn lemma_runs_append(
    st: UploadView,
    first: Seq<UploadEventView>,
    mid: UploadView,
    a1: Seq<UploadActionView>,
    second: Seq<UploadEventView>,
    end: UploadView,
    a2: Seq<UploadActionView>,
)
    requires
        runs(st, first, mid, a1),
        runs(mid, second, end, a2),
    ensures
        runs(st, first + second, end, a1 + a2),
    decreases second.len(),
{
    if second.len() == 0 {
        assert(first + second =~= first);
        assert(a1 + a2 =~= a1);
    } else {
        let (m, a) = upload_run(mid, second.drop_last())->Ok_0;
        lemma_runs_append(st, first, mid, a1, second.drop_last(), m, a);
        assert((first + second).drop_last() =~= first + second.drop_last());
        assert((first + second).last() == second.last());
        let more = upload_next(m, second.last())->Ok_0.1;
        assert(a1 + a + more =~= a1 + (a + more));
    }
}

/// One event makes one step.
proof fn lemma_runs_one(
    st: UploadView,
    event: UploadEventView,
    end: UploadView,
    acts: Seq<UploadActionView>,
)
    requires
        upload_next(st, event) == Ok::<(UploadView, Seq<UploadActionView>), ScpErrorView>(
            (end, acts),
        ),
    ensures
        runs(st, seq![event], end, acts),
{
    let one = seq![event];
    assert(one.drop_last() =~= Seq::empty());
    assert(upload_run(st, one.drop_last()) == Ok::<
        (UploadView, Seq<UploadActionView>),
        ScpErrorView,
    >((st, Seq::empty())));
    assert(Seq::<UploadActionView>::empty() + acts =~= acts);
}

/// A reply that lets the sending side go on makes it go on, without a warning.
proof fn lemma_go_on(st: UploadView)
    requires
        awaits_reply(st.phase),
    ensures
        upload_next(st, go_on()) == Ok::<(UploadView, Seq<UploadActionView>), ScpErrorView>(
            on_accepted(st),
        ),
        runs(st, seq![go_on()], on_accepted(st).0, on_accepted(st).1),
{
    let (next, todo) = on_accepted(st);
    assert(reply_in(ChannelEventView::Data(seq![0u8])) == ReplyView::Accepted(None));
    assert(warned(None) + todo =~= todo);
    lemma_runs_one(st, go_on(), next, todo);
}

/// Two events, one behind the other.
proof fn lemma_runs_two(
    st: UploadView,
    e1: UploadEventView,
    mid: UploadView,
    a1: Seq<UploadActionView>,
    e2: UploadEventView,
    end: UploadView,
    a2: Seq<UploadActionView>,
)
    requires
        runs(st, seq![e1], mid, a1),
        runs(mid, seq![e2], end, a2),
    ensures
        runs(st, seq![e1, e2], end, a1 + a2),
{
    lemma_runs_append(st, seq![e1], mid, a1, seq![e2], end, a2);
    assert(seq![e1] + seq![e2] =~= seq![e1, e2]);
}

/// A file's header is sent, and once it is accepted the file is read.
proof fn lemma_file_opens(st: UploadView, size: int, name: Seq<char>)
    requires
        st.phase is FileInfo,
        0 <= size <= u64::MAX,
    ensures
        runs(
            st,
            seq![UploadEventView::FileInfo { size, name: Some(name) }, go_on()],
            in_phase(st, UploadPhase::Contents { size: size as u64 }),
            seq![
                UploadActionView::Send(encode_utf8(file_line(size, name))),
                UploadActionView::ReadFile,
            ],
        ),
{
    let e = UploadEventView::FileInfo { size, name: Some(name) };
    let s1 = in_phase(st, UploadPhase::FileHeader { size: size as u64 });
    let s2 = in_phase(st, UploadPhase::Contents { size: size as u64 });
    let a1 = seq![UploadActionView::Send(encode_utf8(file_line(size, name)))];
    let a2 = seq![UploadActionView::ReadFile];
    lemma_runs_one(st, e, s1, a1);
    lemma_go_on(s1);
    assert(in_phase(s1, UploadPhase::Contents { size: size as u64 }) =~= s2);
    lemma_runs_two(st, e, s1, a1, go_on(), s2, a2);
    assert(a1 + a2 =~= seq![
        UploadActionView::Send(encode_utf8(file_line(size, name))),
        UploadActionView::ReadFile,
    ]);
}

/// A file's contents are sent, and once they are accepted the file is reported and done.
proof fn lemma_file_closes(st: UploadView, size: u64, data: Seq<u8>)
    requires
        st.phase == (UploadPhase::Contents { size }),
    ensures
        runs(
            st,
            seq![UploadEventView::Contents(data), go_on()],
            item_done(st).0,
            seq![
                UploadActionView::Send(data),
                UploadActionView::Send(seq![0u8]),
                UploadActionView::Report(size as int),
            ] + item_done(st).1,
        ),
{
    let e = UploadEventView::Contents(data);
    let s1 = in_phase(st, UploadPhase::FileBody { size });
    let a1 = seq![UploadActionView::Send(data), UploadActionView::Send(seq![0u8])];
    let a2 = seq![UploadActionView::Report(size as int)] + item_done(st).1;
    lemma_runs_one(st, e, s1, a1);
    lemma_go_on(s1);
    assert(item_done(s1).0 =~= item_done(st).0);
    assert(item_done(s1).1 =~= item_done(st).1);
    lemma_runs_two(st, e, s1, a1, go_on(), item_done(st).0, a2);
    assert(a1 + a2 =~= seq![
        UploadActionView::Send(data),
        UploadActionView::Send(seq![0u8]),
        UploadActionView::Report(size as int),
    ] + item_done(st).1);
}

proof fn lemma_file_runs(st: UploadView, name: Seq<char>, pieces: Seq<Seq<u8>>)
    requires
        st.phase is FileInfo,
        joined(pieces).len() <= u64::MAX,
    ensures
        runs(
            st,
            node_events(Node::File { name, pieces }),
            item_done(st).0,
            node_todo(Node::File { name, pieces }) + item_done(st).1,
        ),
{
    let n = Node::File { name, pieces };
    let data = joined(pieces);
    let size = data.len() as int;
    let mid = in_phase(st, UploadPhase::Contents { size: size as u64 });
    let e1 = seq![UploadEventView::FileInfo { size, name: Some(name) }, go_on()];
    let e2 = seq![UploadEventView::Contents(data), go_on()];
    let a1 = seq![
        UploadActionView::Send(encode_utf8(file_line(size, name))),
        UploadActionView::ReadFile,
    ];
    let a2 = seq![
        UploadActionView::Send(data),
        UploadActionView::Send(seq![0u8]),
        UploadActionView::Report(size),
    ];
    lemma_file_opens(st, size, name);
    lemma_file_closes(mid, size as u64, data);
    assert(item_done(mid).0 =~= item_done(st).0);
    assert(item_done(mid).1 =~= item_done(st).1);
    lemma_runs_append(st, e1, mid, a1, e2, item_done(st).0, a2 + item_done(st).1);
    assert(e1 + e2 =~= node_events(n));
    assert(a1 + (a2 + item_done(st).1) =~= node_todo(n) + item_done(st).1);
}

/// A directory's header is sent, and once it is accepted its entries are listed.
proof fn lemma_dir_opens(st: UploadView, name: Seq<char>)
    requires
        st.phase is DirInfo,
    ensures
        runs(
            st,
            seq![UploadEventView::DirInfo { name: Some(name) }, go_on()],
            (UploadView { phase: UploadPhase::Listing, dirs: st.dirs.push(name), ..st }),
            seq![
                UploadActionView::Send(encode_utf8(dir_line(name))),
                UploadActionView::OpenDir,
                UploadActionView::NextEntry,
            ],
        ),
{
    let e = UploadEventView::DirInfo { name: Some(name) };
    let s1 = UploadView { phase: UploadPhase::DirHeader, dirs: st.dirs.push(name), ..st };
    let s2 = in_phase(s1, UploadPhase::Listing);
    let a1 = seq![UploadActionView::Send(encode_utf8(dir_line(name)))];
    let a2 = seq![UploadActionView::OpenDir, UploadActionView::NextEntry];
    lemma_runs_one(st, e, s1, a1);
    lemma_go_on(s1);
    lemma_runs_two(st, e, s1, a1, go_on(), s2, a2);
    assert(a1 + a2 =~= seq![
        UploadActionView::Send(encode_utf8(dir_line(name))),
        UploadActionView::OpenDir,
        UploadActionView::NextEntry,
    ]);
}

/// A directory's end is sent behind its entries, and once it is accepted the directory is done.
proof fn lemma_dir_closes(st: UploadView)
    requires
        st.phase is Listing,
        st.dirs.len() > 0,
    ensures
        ({
            let left = UploadView { dirs: st.dirs.drop_last(), ..st };
            runs(
                st,
                seq![UploadEventView::NoMoreEntries, go_on()],
                item_done(left).0,
                seq![UploadActionView::Send(encode_utf8("E\n"@))] + item_done(left).1,
            )
        }),
{
    let e = UploadEventView::NoMoreEntries;
    let s1 = in_phase(st, UploadPhase::DirEnd);
    let left = UploadView { dirs: st.dirs.drop_last(), ..st };
    let a1 = seq![UploadActionView::Send(encode_utf8("E\n"@))];
    lemma_runs_one(st, e, s1, a1);
    lemma_go_on(s1);
    assert(on_accepted(s1).0 =~= item_done(left).0);
    assert(on_accepted(s1).1 =~= item_done(left).1);
    lemma_runs_two(st, e, s1, a1, go_on(), item_done(left).0, item_done(left).1);
}

proof fn lemma_node_runs(st: UploadView, n: Node)
    requires
        st.phase == (if is_dir(n) {
            UploadPhase::DirInfo
        } else {
            UploadPhase::FileInfo
        }),
        small(n),
    ensures
        runs(st, node_events(n), item_done(st).0, node_todo(n) + item_done(st).1),
    decreases n,
{
    match n {
        Node::File { name, pieces } => {
            lemma_file_runs(st, name, pieces);
        },
        Node::Dir { name, children } => {
            let first = seq![UploadEventView::DirInfo { name: Some(name) }, go_on()];
            let last = seq![UploadEventView::NoMoreEntries, go_on()];
            let a1 = seq![
                UploadActionView::Send(encode_utf8(dir_line(name))),
                UploadActionView::OpenDir,
                UploadActionView::NextEntry,
            ];
            let close = seq![UploadActionView::Send(encode_utf8("E\n"@))];
            let mid = UploadView { phase: UploadPhase::Listing, dirs: st.dirs.push(name), ..st };
            let left = UploadView { dirs: mid.dirs.drop_last(), ..mid };
            lemma_dir_opens(st, name);
            lemma_list_runs(mid, children);
            lemma_dir_closes(mid);
            assert(left.dirs =~= st.dirs);
            assert(item_done(left).0 =~= item_done(st).0);
            assert(item_done(left).1 =~= item_done(st).1);
            lemma_runs_append(
                st,
                first,
                mid,
                a1,
                list_events(children),
                mid,
                list_todo(children),
            );
            lemma_runs_append(
                st,
                first + list_events(children),
                mid,
                a1 + list_todo(children),
                last,
                item_done(st).0,
                close + item_done(st).1,
            );
            assert(a1 + list_todo(children) + (close + item_done(st).1) =~= node_todo(n)
                + item_done(st).1);
        },
    }
}

proof fn lemma_list_runs(st: UploadView, children: Seq<Node>)
    requires
        st.phase is Listing,
        st.dirs.len() > 0,
        all_small(children),
    ensures
        runs(st, list_events(children), st, list_todo(children)),
    decreases children,
{
    if children.len() > 0 {
        let n = children.last();
        let front = children.drop_last();
        lemma_list_runs(st, front);
        let e = UploadEventView::Entry { is_dir: is_dir(n) };
        let s1 = start_item(st, is_dir(n)).0;
        let enter = seq![UploadActionView::Enter, first_look(is_dir(n))];
        let leave = seq![UploadActionView::Leave, UploadActionView::NextEntry];
        lemma_runs_one(st, e, s1, enter);
        lemma_node_runs(s1, n);
        assert(item_done(s1).0 =~= st);
        assert(item_done(s1).1 =~= leave);
        lemma_runs_append(st, list_events(front), st, list_todo(front), seq![e], s1, enter);
        lemma_runs_append(
            st,
            list_events(front) + seq![e],
            s1,
            list_todo(front) + enter,
            node_events(n),
            st,
            node_todo(n) + leave,
        );
        assert(list_todo(front) + enter + (node_todo(n) + leave) =~= list_todo(children));
    }
}

/// Whether every file of a node fits in a 64-bit size.
pub open spec fn small(n: Node) -> bool
    decreases n,
{
    match n {
        Node::File { pieces, .. } => joined(pieces).len() <= u64::MAX,
        Node::Dir { children, .. } => all_small(children),
    }
}

/// Whether every file of a list of nodes fits in a 64-bit size.
pub open spec fn all_small(children: Seq<Node>) -> bool
    decreases children,
{
    children.len() == 0 || (all_small(children.drop_last()) && small(children.last()))
}

/// What the sending side learns of a target, from the remote end's first reply to its last.
pub open spec fn target_events(n: Node) -> Seq<UploadEventView> {
    seq![go_on(), UploadEventView::Target { is_dir: is_dir(n) }] + node_events(n)
}

/// Whether an event is another one, or both are replies that accept, each in its way.
pub open spec fn alike(event: UploadEventView, model: UploadEventView) -> bool {
    event == model || (model == go_on() && (event matches UploadEventView::Channel(e) && reply_in(e)
        is Accepted))
}

/// Whether `events` are those of `model`, with any accepting replies.
pub open spec fn accepting(events: Seq<UploadEventView>, model: Seq<UploadEventView>) -> bool {
    &&& events.len() == model.len()
    &&& forall|i: int| 0 <= i < model.len() ==> #[trigger] alike(events[i], model[i])
}

/// With other accepting replies, the sending side gets to the same state and does the same but for
/// warnings.
proof fn lemma_accepting_runs(
    st: UploadView,
    model: Seq<UploadEventView>,
    events: Seq<UploadEventView>,
    end: UploadView,
    acts: Seq<UploadActionView>,
)
    requires
        accepting(events, model),
        runs(st, model, end, acts),
    ensures
        match upload_run(st, events) {
            Ok((e, done)) => e == end && unwarned(done) == unwarned(acts),
            Err(_) => false,
        },
    decreases model.len(),
{
    if model.len() > 0 {
        let (mid, before) = upload_run(st, model.drop_last())->Ok_0;
        let more = upload_next(mid, model.last())->Ok_0.1;
        assert forall|i: int| 0 <= i < model.len() - 1 implies #[trigger] alike(
            events.drop_last()[i],
            model.drop_last()[i],
        ) by {
            assert(alike(events[i], model[i]));
        }
        lemma_accepting_runs(st, model.drop_last(), events.drop_last(), mid, before);
        let done = upload_run(st, events.drop_last())->Ok_0.1;
        assert(alike(events[model.len() - 1], model[model.len() - 1]));
        lemma_unwarned_append(before, more);
        let e = events.last();
        if e == model.last() {
            lemma_unwarned_append(done, more);
        } else {
            let reply = e->Channel_0;
            if awaits_reply(mid.phase) {
                let w = warned(reply_in(reply)->Accepted_0);
                let todo = on_accepted(mid).1;
                lemma_go_on(mid);
                lemma_unwarned_append(done, w + todo);
                lemma_unwarned_append(w, todo);
                reveal_with_fuel(unwarned, 2);
                assert(w.len() > 0 ==> w.drop_last() =~= Seq::empty());
                assert(unwarned(w) =~= Seq::empty());
                assert(unwarned(w) + unwarned(todo) =~= unwarned(todo));
            } else {
                lemma_unwarned_append(done, Seq::empty());
            }
        }
    } else {
        assert(events =~= model);
    }
}

proof fn lemma_target_runs(recursive: bool, n: Node)
    requires
        is_dir(n) ==> recursive,
        small(n),
    ensures
        runs(
            UploadView { recursive, phase: UploadPhase::Greeting, dirs: Seq::empty() },
            target_events(n),
            UploadView { recursive, phase: UploadPhase::Finished, dirs: Seq::empty() },
            target_todo(n),
        ),
{
    let st = UploadView { recursive, phase: UploadPhase::Greeting, dirs: Seq::empty() };
    let end = UploadView { recursive, phase: UploadPhase::Finished, dirs: Seq::empty() };
    let s1 = in_phase(st, UploadPhase::Target);
    let s2 = start_item(s1, is_dir(n)).0;
    let e = UploadEventView::Target { is_dir: is_dir(n) };
    let a1 = seq![UploadActionView::InspectTarget];
    let a2 = seq![first_look(is_dir(n))];
    let eof = seq![UploadActionView::SendEof];
    lemma_go_on(st);
    lemma_runs_one(s1, e, s2, a2);
    lemma_runs_two(st, go_on(), s1, a1, e, s2, a2);
    lemma_node_runs(s2, n);
    assert(item_done(s2).0 =~= end);
    assert(item_done(s2).1 =~= eof);
    lemma_runs_append(
        st,
        seq![go_on(), e],
        s2,
        a1 + a2,
        node_events(n),
        end,
        node_todo(n) + eof,
    );
    assert(a1 + a2 + (node_todo(n) + eof) =~= target_todo(n));
}

/// An upload whose replies all let it go on does for its target exactly what has to be done, in order,
/// but for the warnings that it passes on: it looks at every file and directory, announces it by its
/// name and size, sends what it holds, goes down into directories and back up, reports every file, and
/// is over.
pub proof fn law_upload_does_its_work(recursive: bool, n: Node, events: Seq<UploadEventView>)
    requires
        is_dir(n) ==> recursive,
        small(n),
        accepting(events, target_events(n)),
    ensures
        match upload_run(
            UploadView { recursive, phase: UploadPhase::Greeting, dirs: Seq::empty() },
            events,
        ) {
            Ok((end, acts)) => end.phase is Finished && unwarned(acts) == target_todo(n),
            Err(_) => false,
        },
{
    let st = UploadView { recursive, phase: UploadPhase::Greeting, dirs: Seq::empty() };
    let end = UploadView { recursive, phase: UploadPhase::Finished, dirs: Seq::empty() };
    lemma_target_runs(recursive, n);
    lemma_accepting_runs(st, target_events(n), events, end, target_todo(n));
    lemma_node_never_warns(n);
    lemma_unwarned_id(target_todo(n));
}

proof fn lemma_node_never_warns(n: Node)
    ensures
        forall|i: int| 0 <= i < node_todo(n).len() ==> !(#[trigger] node_todo(n)[i] is Warn),
    decreases n,
{
    if let Node::Dir { children, .. } = n {
        lemma_list_never_warns(children);
    }
}

proof fn lemma_list_never_warns(children: Seq<Node>)
    ensures
        forall|i: int|
            0 <= i < list_todo(children).len() ==> !(#[trigger] list_todo(children)[i] is Warn),
    decreases children,
{
    if children.len() > 0 {
        lemma_list_never_warns(children.drop_last());
        lemma_node_never_warns(children.last());
    }
}

proof fn lemma_node_todo_sends(n: Node)
    ensures
        sent(node_todo(n)) == node_messages(n),
    decreases n,
{
    reveal_with_fuel(sent, 6);
    match n {
        Node::File { name, pieces } => {
            let header = UploadActionView::Send(
                encode_utf8(file_line(joined(pieces).len() as int, name)),
            );
            let a = seq![header, UploadActionView::ReadFile];
            let b = seq![UploadActionView::Send(joined(pieces)), UploadActionView::Send(seq![0u8])];
            let c = seq![UploadActionView::Report(joined(pieces).len() as int)];
            assert(node_todo(n) =~= a + b + c);
            lemma_sent_append(a, b);
            lemma_sent_append(a + b, c);
            assert(a.drop_last() =~= seq![header]);
            assert(b.drop_last() =~= seq![UploadActionView::Send(joined(pieces))]);
            assert(sent(seq![header]) =~= seq![header->Send_0]);
            assert(sent(b.drop_last()) =~= seq![joined(pieces)]);
            assert(sent(c) =~= Seq::empty());
            assert(sent(node_todo(n)) =~= node_messages(n));
        },
        Node::Dir { name, children } => {
            let header = UploadActionView::Send(encode_utf8(dir_line(name)));
            let a = seq![header, UploadActionView::OpenDir, UploadActionView::NextEntry];
            let c = seq![UploadActionView::Send(encode_utf8("E\n"@))];
            lemma_list_todo_sends(children);
            lemma_sent_append(a, list_todo(children));
            lemma_sent_append(a + list_todo(children), c);
            assert(a.drop_last() =~= seq![header, UploadActionView::OpenDir]);
            assert(a.drop_last().drop_last() =~= seq![header]);
            assert(sent(seq![header]) =~= seq![header->Send_0]);
            assert(sent(c) =~= seq![encode_utf8("E\n"@)]);
            assert(sent(node_todo(n)) =~= node_messages(n));
        },
    }
}

proof fn lemma_list_todo_sends(children: Seq<Node>)
    ensures
        sent(list_todo(children)) == list_messages(children),
    decreases children,
{
    if children.len() > 0 {
        let front = children.drop_last();
        let n = children.last();
        let enter = seq![UploadActionView::Enter, first_look(is_dir(n))];
        let leave = seq![UploadActionView::Leave, UploadActionView::NextEntry];
        lemma_list_todo_sends(front);
        lemma_node_todo_sends(n);
        reveal_with_fuel(sent, 3);
        assert(enter.drop_last() =~= seq![UploadActionView::Enter]);
        assert(leave.drop_last() =~= seq![UploadActionView::Leave]);
        assert(sent(enter) =~= Seq::empty());
        assert(sent(leave) =~= Seq::empty());
        lemma_sent_append(list_todo(front), enter);
        lemma_sent_append(list_todo(front) + enter, node_todo(n));
        lemma_sent_append(list_todo(front) + enter + node_todo(n), leave);
        assert(sent(list_todo(children)) =~= list_messages(children));
    }
}

/// An upload whose replies all let it go on, with warnings or without, puts on the channel the messages
/// of the target, in order and no others, and is over.
pub proof fn law_upload_sends_tree(recursive: bool, n: Node, events: Seq<UploadEventView>)
    requires
        is_dir(n) ==> recursive,
        small(n),
        accepting(events, target_events(n)),
    ensures
        sends(
            UploadView { recursive, phase: UploadPhase::Greeting, dirs: Seq::empty() },
            events,
            UploadView { recursive, phase: UploadPhase::Finished, dirs: Seq::empty() },
            node_messages(n),
        ),
{
    let st = UploadView { recursive, phase: UploadPhase::Greeting, dirs: Seq::empty() };
    let end = UploadView { recursive, phase: UploadPhase::Finished, dirs: Seq::empty() };
    lemma_target_runs(recursive, n);
    lemma_accepting_runs(st, target_events(n), events, end, target_todo(n));
    let acts = upload_run(st, events)->Ok_0.1;
    lemma_sent_unwarned(acts);
    lemma_sent_unwarned(target_todo(n));
    let a = seq![UploadActionView::InspectTarget, first_look(is_dir(n))];
    let c = seq![UploadActionView::SendEof];
    reveal_with_fuel(sent, 3);
    assert(a.drop_last() =~= seq![UploadActionView::InspectTarget]);
    assert(sent(a) =~= Seq::empty());
    assert(sent(c) =~= Seq::empty());
    lemma_node_todo_sends(n);
    lemma_sent_append(a, node_todo(n));
    lemma_sent_append(a + node_todo(n), c);
    assert(sent(target_todo(n)) =~= node_messages(n));
}

/// A directory is refused where the recursive flag is off, whatever the remote end accepted the copy
/// with, and before anything is sent.
pub proof fn law_upload_refuses_directory(greeting: ChannelEventView)
    requires
        reply_in(greeting) is Accepted,
    ensures
        ({
            let st = UploadView {
                recursive: false,
                phase: UploadPhase::Greeting,
                dirs: Seq::empty(),
            };
            let hello = UploadEventView::Channel(greeting);
            &&& sends(st, seq![hello], in_phase(st, UploadPhase::Target), Seq::empty())
            &&& upload_run(st, seq![hello, UploadEventView::Target { is_dir: true }]) == Err::<
                (UploadView, Seq<UploadActionView>),
                ScpErrorView,
            >(ScpErrorView::IsDirectory)
        }),
{
    let st = UploadView { recursive: false, phase: UploadPhase::Greeting, dirs: Seq::empty() };
    let hello = UploadEventView::Channel(greeting);
    let events = seq![hello, UploadEventView::Target { is_dir: true }];
    let warning = warned(reply_in(greeting)->Accepted_0);
    let todo = seq![UploadActionView::InspectTarget];
    reveal_with_fuel(sent, 2);
    assert(todo.drop_last() =~= Seq::empty());
    assert(sent(todo) =~= Seq::empty());
    assert(warning.len() > 0 ==> warning.drop_last() =~= Seq::empty());
    assert(sent(warning) =~= Seq::empty());
    lemma_sent_append(warning, todo);
    lemma_runs_one(st, hello, in_phase(st, UploadPhase::Target), warning + todo);
    assert(events.drop_last() =~= seq![hello]);
}

/// Whether the sending side waits for the remote end: for its greeting, or for what it says to a
/// header, to a file's contents or to a directory's end.
pub open spec fn waits_for_remote(phase: UploadPhase) -> bool {
    match phase {
        UploadPhase::Greeting => true,
        UploadPhase::FileHeader { .. } => true,
        UploadPhase::FileBody { .. } => true,
        UploadPhase::DirHeader => true,
        UploadPhase::DirEnd => true,
        _ => false,
    }
}

/// Wherever a reply is awaited, one whose first byte is 2 or above fails the upload, whatever stands
/// behind that byte; and so does the end of the channel.
pub proof fn law_upload_fails_with_the_remote_end(st: UploadView, b: Seq<u8>)
    requires
        waits_for_remote(st.phase),
        b.len() > 0,
    ensures
        b[0] >= 2 <==> upload_next(st, UploadEventView::Channel(ChannelEventView::Data(b))) is Err,
        b[0] == 2 ==> upload_next(st, UploadEventView::Channel(ChannelEventView::Data(b)))->Err_0
            is Remote,
        b[0] > 2 ==> upload_next(st, UploadEventView::Channel(ChannelEventView::Data(b)))->Err_0
            == ScpErrorView::UnexpectedReply(b[0]),
        upload_next(st, UploadEventView::Channel(ChannelEventView::Eof)) is Err,
        upload_next(st, UploadEventView::Channel(ChannelEventView::Close)) is Err,
        upload_next(st, UploadEventView::Channel(ChannelEventView::Ended)) is Err,
{
    law_reply_goes_by_its_first_byte(b);
}

/// What the remote end reports as an error is what the upload fails with: its text, without the white
/// space around it.
pub proof fn law_upload_reports_the_remote_error(
    st: UploadView,
    before: Seq<char>,
    text: Seq<char>,
    after: Seq<char>,
)
    requires
        waits_for_remote(st.phase),
        all_white(before),
        all_white(after),
        text.len() > 0 ==> !is_white_space(text[0]) && !is_white_space(text.last()),
    ensures
        upload_next(
            st,
            UploadEventView::Channel(
                ChannelEventView::Data(seq![2u8] + encode_utf8(before + text + after)),
            ),
        ) == Err::<(UploadView, Seq<UploadActionView>), ScpErrorView>(ScpErrorView::Remote(text)),
{
    law_reply_hands_its_text_on(before, text, after);
}

/// A warning is passed on, and otherwise the upload goes on as without it.
pub proof fn law_upload_passes_warnings_on(st: UploadView, e: ChannelEventView, w: Seq<char>)
    requires
        waits_for_remote(st.phase),
        reply_in(e) == ReplyView::Accepted(Some(w)),
    ensures
        match (upload_next(st, UploadEventView::Channel(e)), upload_next(st, go_on())) {
            (Ok((s1, a1)), Ok((s2, a2))) => s1 == s2 && a1 == seq![UploadActionView::Warn(w)] + a2,
            _ => false,
        },
{
    lemma_go_on(st);
}

/// Where no reply is awaited a channel event changes nothing, and where one is awaited nothing changes
/// until it comes; and what the file system says changes nothing where it was not asked for.
pub proof fn law_upload_ignores_what_it_does_not_await(st: UploadView, event: UploadEventView)
    requires
        match event {
            UploadEventView::Channel(e) => !waits_for_remote(st.phase) || e is Other || (e
                matches ChannelEventView::Data(b) && b.len() == 0),
            UploadEventView::Target { .. } => !(st.phase is Target),
            UploadEventView::FileInfo { .. } => !(st.phase is FileInfo),
            UploadEventView::Contents(_) => !(st.phase is Contents),
            UploadEventView::DirInfo { .. } => !(st.phase is DirInfo),
            UploadEventView::Entry { .. } => !(st.phase is Listing),
            UploadEventView::NoMoreEntries => !(st.phase is Listing),
        },
    ensures
        upload_next(st, event) == Ok::<(UploadView, Seq<UploadActionView>), ScpErrorView>(
            (st, Seq::empty()),
        ),
{
}

/// A file is announced with the size that was found for it and sent with the contents that were read,
/// whatever they hold, and it is reported with the size that was announced.
pub proof fn law_upload_sends_what_was_found(
    st: UploadView,
    size: int,
    name: Seq<char>,
    data: Seq<u8>,
)
    requires
        st.phase is FileInfo,
        0 <= size <= u64::MAX,
    ensures
        match upload_run(
            st,
            seq![
                UploadEventView::FileInfo { size, name: Some(name) },
                go_on(),
                UploadEventView::Contents(data),
                go_on(),
            ],
        ) {
            Ok((end, acts)) => {
                &&& acts.take(5) == seq![
                    UploadActionView::Send(encode_utf8(file_line(size, name))),
                    UploadActionView::ReadFile,
                    UploadActionView::Send(data),
                    UploadActionView::Send(seq![0u8]),
                    UploadActionView::Report(size),
                ]
                &&& st.dirs.len() > 0 ==> end == in_phase(st, UploadPhase::Listing) && acts.skip(5)
                    == seq![UploadActionView::Leave, UploadActionView::NextEntry]
                &&& st.dirs.len() == 0 ==> end == in_phase(st, UploadPhase::Finished) && acts.skip(
                    5,
                ) == seq![UploadActionView::SendEof]
            },
            Err(_) => false,
        },
{
    let mid = in_phase(st, UploadPhase::Contents { size: size as u64 });
    let e1 = seq![UploadEventView::FileInfo { size, name: Some(name) }, go_on()];
    let e2 = seq![UploadEventView::Contents(data), go_on()];
    let a1 = seq![
        UploadActionView::Send(encode_utf8(file_line(size, name))),
        UploadActionView::ReadFile,
    ];
    let a2 = seq![
        UploadActionView::Send(data),
        UploadActionView::Send(seq![0u8]),
        UploadActionView::Report(size),
    ];
    let (end, last) = item_done(mid);
    lemma_file_opens(st, size, name);
    lemma_file_closes(mid, size as u64, data);
    lemma_runs_append(st, e1, mid, a1, e2, end, a2 + last);
    assert(e1 + e2 =~= seq![
        UploadEventView::FileInfo { size, name: Some(name) },
        go_on(),
        UploadEventView::Contents(data),
        go_on(),
    ]);
    let acts = a1 + (a2 + last);
    assert(acts.take(5) =~= a1 + a2);
    assert(acts.skip(5) =~= last);
}

/// An item without a name ends the upload, and nothing is sent for it.
pub proof fn law_upload_needs_names(st: UploadView, size: int)
    ensures
        st.phase is FileInfo ==> upload_next(st, UploadEventView::FileInfo { size, name: None })
            == Err::<(UploadView, Seq<UploadActionView>), ScpErrorView>(ScpErrorView::NoFileName),
        st.phase is DirInfo ==> upload_next(st, UploadEventView::DirInfo { name: None }) == Err::<
            (UploadView, Seq<UploadActionView>),
            ScpErrorView,
        >(ScpErrorView::NoDirectoryName),
{
}

// --- Receiving ---

/// The receiving side from `st` on through `events`.
pub open spec fn download_run(st: DownloadView, events: Seq<ChannelEventView>) -> DownloadStep
    decreases events.len(),
{
    if events.len() == 0 {
        Ok((st, Seq::empty()))
    } else {
        match download_run(st, events.drop_last()) {
            Err(e) => Err(e),
            Ok((mid, acts)) => match download_next(mid, events.last()) {
                Err(e) => Err(e),
                Ok((end, more)) => Ok((end, acts + more)),
            },
        }
    }
}

/// Packets as channel events.
pub open spec fn packets(pieces: Seq<Seq<u8>>) -> Seq<ChannelEventView> {
    pieces.map_values(|b: Seq<u8>| ChannelEventView::Data(b))
}

/// The packets in which a node's messages reach the receiving side.
pub open spec fn node_packets(n: Node) -> Seq<ChannelEventView>
    decreases n,
{
    match n {
        Node::File { name, pieces } => seq![
            ChannelEventView::Data(encode_utf8(file_line(joined(pieces).len() as int, name))),
        ] + packets(pieces) + seq![ChannelEventView::Data(seq![0u8])],
        Node::Dir { name, children } => seq![ChannelEventView::Data(encode_utf8(dir_line(name)))]
            + list_packets(children) + seq![ChannelEventView::Data(encode_utf8("E\n"@))],
    }
}

/// The packets in which a directory's entries reach the receiving side.
pub open spec fn list_packets(children: Seq<Node>) -> Seq<ChannelEventView>
    decreases children,
{
    if children.len() == 0 {
        Seq::empty()
    } else {
        list_packets(children.drop_last()) + node_packets(children.last())
    }
}

/// Writes of pieces, one by one.
pub open spec fn writes(pieces: Seq<Seq<u8>>) -> Seq<DownloadActionView> {
    pieces.map_values(|b: Seq<u8>| DownloadActionView::Write(b))
}

/// The actions that make a file in the directory `dirs`: its header is acknowledged, it is created, each
/// piece is written, and it is flushed, reported with its size and acknowledged.
pub open spec fn file_actions(
    name: Seq<char>,
    pieces: Seq<Seq<u8>>,
    dirs: Seq<Seq<char>>,
) -> Seq<DownloadActionView> {
    seq![DownloadActionView::Ack, DownloadActionView::CreateFile(dirs.push(name))] + writes(pieces)
        + seq![
        DownloadActionView::Flush,
        DownloadActionView::Report(dirs.push(name), joined(pieces).len() as int),
        DownloadActionView::Ack,
    ]
}

/// The actions that make a node in the directory `dirs`.
pub open spec fn node_actions(n: Node, dirs: Seq<Seq<char>>) -> Seq<DownloadActionView>
    decreases n,
{
    match n {
        Node::File { name, pieces } => file_actions(name, pieces, dirs),
        Node::Dir { name, children } => seq![
            DownloadActionView::CreateDir(dirs.push(name)),
            DownloadActionView::Ack,
        ] + list_actions(children, dirs.push(name)) + seq![DownloadActionView::Ack],
    }
}

/// The actions that make a list of nodes in the directory `dirs`.
pub open spec fn list_actions(children: Seq<Node>, dirs: Seq<Seq<char>>) -> Seq<DownloadActionView>
    decreases children,
{
    if children.len() == 0 {
        Seq::empty()
    } else {
        list_actions(children.drop_last(), dirs) + node_actions(children.last(), dirs)
    }
}

/// A name that a header can carry.
pub open spec fn plain_name(name: Seq<char>) -> bool {
    name.len() > 0 ==> name.last() != '\n'
}

/// Whether a node's names can be carried by headers, its files fit in a 64-bit size, and the last
/// piece of a file is not empty.
pub open spec fn sendable(n: Node) -> bool
    decreases n,
{
    match n {
        Node::File { name, pieces } => {
            &&& plain_name(name)
            &&& joined(pieces).len() <= u64::MAX
            &&& pieces.len() > 0 ==> pieces.last().len() > 0
        },
        Node::Dir { name, children } => plain_name(name) && all_sendable(children),
    }
}

/// Whether every node of a list is [`sendable`].
pub open spec fn all_sendable(children: Seq<Node>) -> bool
    decreases children,
{
    children.len() == 0 || (all_sendable(children.drop_last()) && sendable(children.last()))
}

/// Whether a run from `st` through `events` reaches `end` and does `acts`.
pub open spec fn does(
    st: DownloadView,
    events: Seq<ChannelEventView>,
    end: DownloadView,
    acts: Seq<DownloadActionView>,
) -> bool {
    download_run(st, events) == Ok::<(DownloadView, Seq<DownloadActionView>), ScpErrorView>(
        (end, acts),
    )
}

proof fn lemma_does_one(
    st: DownloadView,
    event: ChannelEventView,
    end: DownloadView,
    acts: Seq<DownloadActionView>,
)
    requires
        download_next(st, event) == Ok::<(DownloadView, Seq<DownloadActionView>), ScpErrorView>(
            (end, acts),
        ),
    ensures
        does(st, seq![event], end, acts),
{
    let one = seq![event];
    assert(one.drop_last() =~= Seq::empty());
    assert(does(st, one.drop_last(), st, Seq::empty()));
    assert(Seq::<DownloadActionView>::empty() + acts =~= acts);
}

proof fn lemma_does_append(
    st: DownloadView,
    first: Seq<ChannelEventView>,
    mid: DownloadView,
    a1: Seq<DownloadActionView>,
    second: Seq<ChannelEventView>,
    end: DownloadView,
    a2: Seq<DownloadActionView>,
)
    requires
        does(st, first, mid, a1),
        does(mid, second, end, a2),
    ensures
        does(st, first + second, end, a1 + a2),
    decreases second.len(),
{
    if second.len() == 0 {
        assert(first + second =~= first);
        assert(a1 + a2 =~= a1);
    } else {
        let (m, a) = download_run(mid, second.drop_last())->Ok_0;
        lemma_does_append(st, first, mid, a1, second.drop_last(), m, a);
        assert((first + second).drop_last() =~= first + second.drop_last());
        assert((first + second).last() == second.last());
        let more = download_next(m, second.last())->Ok_0.1;
        assert(a1 + a + more =~= a1 + (a + more));
    }
}

/// In the middle of a file, packets that together hold no more than the file still lacks are
/// written whole and in order.
proof fn lemma_body_does(
    dirs: Seq<Seq<char>>,
    name: Seq<char>,
    size: int,
    remaining: int,
    pieces: Seq<Seq<u8>>,
)
    requires
        joined(pieces).len() < remaining,
    ensures
        does(
            DownloadView { phase: PhaseView::Body { name, size, remaining }, dirs },
            packets(pieces),
            DownloadView {
                phase: PhaseView::Body {
                    name,
                    size,
                    remaining: remaining - joined(pieces).len(),
                },
                dirs,
            },
            writes(pieces),
        ),
    decreases pieces.len(),
{
    let st = DownloadView { phase: PhaseView::Body { name, size, remaining }, dirs };
    if pieces.len() == 0 {
        assert(packets(pieces) =~= Seq::empty());
        assert(writes(pieces) =~= Seq::empty());
    } else {
        let front = pieces.drop_last();
        let last = pieces.last();
        lemma_body_does(dirs, name, size, remaining, front);
        assert(packets(pieces).drop_last() =~= packets(front));
        assert(packets(pieces).last() == ChannelEventView::Data(last));
        assert(last.take(last.len() as int) =~= last);
        assert(writes(pieces) =~= writes(front) + seq![DownloadActionView::Write(last)]);
    }
}

/// A file's contents reach the open file exactly: whatever the packets in which they come, what is
/// written is their bytes in order, up to the announced size, and what comes beyond it in the last
/// packet is dropped.
pub proof fn law_download_writes_contents(
    dirs: Seq<Seq<char>>,
    name: Seq<char>,
    size: int,
    pieces: Seq<Seq<u8>>,
)
    requires
        pieces.len() > 0,
        joined(pieces.drop_last()).len() < size <= joined(pieces).len(),
    ensures
        ({
            let st = DownloadView {
                phase: PhaseView::Body { name, size, remaining: size },
                dirs,
            };
            match download_run(st, packets(pieces)) {
                Err(_) => false,
                Ok((end, acts)) => {
                    &&& written(acts) == joined(pieces).take(size)
                    &&& end.dirs == dirs
                    &&& end.phase == (if joined(pieces).len() == size {
                        PhaseView::Trailer { name, size }
                    } else {
                        PhaseView::Header
                    })
                },
            }
        }),
{
    let st = DownloadView { phase: PhaseView::Body { name, size, remaining: size }, dirs };
    let front = pieces.drop_last();
    let last = pieces.last();
    let left = size - joined(front).len();
    lemma_body_does(dirs, name, size, size, front);
    assert(packets(pieces).drop_last() =~= packets(front));
    assert(packets(pieces).last() == ChannelEventView::Data(last));
    let (end, more) = on_body(dirs, name, size, left, last);
    assert(download_run(st, packets(pieces)) == Ok::<
        (DownloadView, Seq<DownloadActionView>),
        ScpErrorView,
    >((end, writes(front) + more)));
    lemma_written_writes(front);
    lemma_written_append(writes(front), more);
    lemma_written_single(more);
    assert(joined(pieces).take(size) =~= joined(front) + last.take(left));
}

/// A file that is cut short fails the copy: where the packets hold fewer bytes than were announced,
/// whatever their sizes, all of them are written, and if the channel then ends, in whichever way, the
/// copy has failed.
pub proof fn law_download_cut_short(
    dirs: Seq<Seq<char>>,
    name: Seq<char>,
    size: int,
    pieces: Seq<Seq<u8>>,
    end: ChannelEventView,
)
    requires
        joined(pieces).len() < size,
        end is Eof || end is Close || end is Ended,
    ensures
        ({
            let st = DownloadView {
                phase: PhaseView::Body { name, size, remaining: size },
                dirs,
            };
            &&& match download_run(st, packets(pieces)) {
                Err(_) => false,
                Ok((_, acts)) => written(acts) == joined(pieces),
            }
            &&& download_run(st, packets(pieces).push(end)) == Err::<
                (DownloadView, Seq<DownloadActionView>),
                ScpErrorView,
            >(ScpErrorView::ClosedDuringTransfer)
        }),
{
    lemma_body_does(dirs, name, size, size, pieces);
    lemma_written_writes(pieces);
    assert(packets(pieces).push(end).drop_last() =~= packets(pieces));
}

/// The bytes that a list of actions writes to files.
pub open spec fn written(acts: Seq<DownloadActionView>) -> Seq<u8>
    decreases acts.len(),
{
    if acts.len() == 0 {
        Seq::empty()
    } else {
        match acts.last() {
            DownloadActionView::Write(b) => written(acts.drop_last()) + b,
            _ => written(acts.drop_last()),
        }
    }
}

proof fn lemma_written_append(a: Seq<DownloadActionView>, b: Seq<DownloadActionView>)
    ensures
        written(a + b) == written(a) + written(b),
    decreases b.len(),
{
    if b.len() == 0 {
        assert(a + b =~= a);
    } else {
        lemma_written_append(a, b.drop_last());
        assert((a + b).drop_last() =~= a + b.drop_last());
        assert((a + b).last() == b.last());
        assert(written(a + b) =~= written(a) + written(b));
    }
}

proof fn lemma_written_writes(pieces: Seq<Seq<u8>>)
    ensures
        written(writes(pieces)) == joined(pieces),
    decreases pieces.len(),
{
    if pieces.len() > 0 {
        lemma_written_writes(pieces.drop_last());
        assert(writes(pieces).drop_last() =~= writes(pieces.drop_last()));
    }
}

proof fn lemma_written_single(acts: Seq<DownloadActionView>)
    requires
        acts.len() > 0,
        acts[0] is Write,
        forall|i: int| 1 <= i < acts.len() ==> !(#[trigger] acts[i] is Write),
    ensures
        written(acts) == acts[0]->Write_0,
    decreases acts.len(),
{
    if acts.len() == 1 {
        assert(acts.drop_last() =~= Seq::empty());
        assert(written(acts.drop_last()) =~= Seq::empty());
        assert(written(acts) =~= acts[0]->Write_0);
    } else {
        lemma_written_single(acts.drop_last());
        assert(acts.last() == acts[acts.len() - 1]);
    }
}

/// A file arrives by its header, in whatever form, its contents in pieces, and a packet behind them.
proof fn lemma_file_arrives(
    dirs: Seq<Seq<char>>,
    header: Seq<u8>,
    name: Seq<char>,
    pieces: Seq<Seq<u8>>,
    status: Seq<u8>,
)
    requires
        header.len() > 0,
        header[0] == 67,
        header_value(header) == Ok::<(int, Seq<char>), ScpErrorView>(
            (joined(pieces).len() as int, name),
        ),
        pieces.len() > 0 ==> pieces.last().len() > 0,
    ensures
        does(
            DownloadView { phase: PhaseView::Header, dirs },
            seq![ChannelEventView::Data(header)] + packets(pieces) + seq![
                ChannelEventView::Data(status),
            ],
            DownloadView { phase: PhaseView::Header, dirs },
            file_actions(name, pieces, dirs),
        ),
{
    let st = DownloadView { phase: PhaseView::Header, dirs };
    let size = joined(pieces).len() as int;
    let path = dirs.push(name);
    let trailer = DownloadView { phase: PhaseView::Trailer { name, size }, dirs };
    let head = seq![DownloadActionView::Ack, DownloadActionView::CreateFile(path)];
    let e0 = ChannelEventView::Data(header);
    let e2 = ChannelEventView::Data(status);
    let tail = seq![DownloadActionView::Report(path, size), DownloadActionView::Ack];
    lemma_does_one(trailer, e2, st, tail);
    if pieces.len() == 0 {
        let a0 = head.push(DownloadActionView::Flush);
        assert(a0 =~= seq![
            DownloadActionView::Ack,
            DownloadActionView::CreateFile(path),
            DownloadActionView::Flush,
        ]);
        lemma_does_one(st, e0, trailer, a0);
        lemma_does_append(st, seq![e0], trailer, a0, seq![e2], st, tail);
        assert(seq![e0] + seq![e2] =~= seq![e0] + packets(pieces) + seq![e2]);
        assert(a0 + tail =~= file_actions(name, pieces, dirs));
    } else {
        let front = pieces.drop_last();
        let last = pieces.last();
        let body = DownloadView { phase: PhaseView::Body { name, size, remaining: size }, dirs };
        let mid = DownloadView {
            phase: PhaseView::Body { name, size, remaining: size - joined(front).len() },
            dirs,
        };
        lemma_does_one(st, e0, body, head);
        lemma_body_does(dirs, name, size, size, front);
        let a2 = seq![DownloadActionView::Write(last), DownloadActionView::Flush];
        assert(last.take(last.len() as int) =~= last);
        lemma_does_one(mid, ChannelEventView::Data(last), trailer, a2);
        lemma_does_append(st, seq![e0], body, head, packets(front), mid, writes(front));
        lemma_does_append(
            st,
            seq![e0] + packets(front),
            mid,
            head + writes(front),
            seq![ChannelEventView::Data(last)],
            trailer,
            a2,
        );
        lemma_does_append(
            st,
            seq![e0] + packets(front) + seq![ChannelEventView::Data(last)],
            trailer,
            head + writes(front) + a2,
            seq![e2],
            st,
            tail,
        );
        assert(seq![e0] + packets(front) + seq![ChannelEventView::Data(last)] + seq![e2]
            =~= seq![e0] + packets(pieces) + seq![e2]);
        assert(head + writes(front) + a2 + tail =~= file_actions(name, pieces, dirs));
    }
}

proof fn lemma_file_does(dirs: Seq<Seq<char>>, name: Seq<char>, pieces: Seq<Seq<u8>>)
    requires
        sendable(Node::File { name, pieces }),
    ensures
        does(
            DownloadView { phase: PhaseView::Header, dirs },
            node_packets(Node::File { name, pieces }),
            DownloadView { phase: PhaseView::Header, dirs },
            node_actions(Node::File { name, pieces }, dirs),
        ),
{
    let size = joined(pieces).len() as int;
    law_file_header_round_trip(size, name);
    lemma_file_arrives(dirs, encode_utf8(file_line(size, name)), name, pieces, seq![0u8]);
}

proof fn lemma_node_does(dirs: Seq<Seq<char>>, n: Node)
    requires
        sendable(n),
    ensures
        does(
            DownloadView { phase: PhaseView::Header, dirs },
            node_packets(n),
            DownloadView { phase: PhaseView::Header, dirs },
            node_actions(n, dirs),
        ),
    decreases n,
{
    match n {
        Node::File { name, pieces } => {
            lemma_file_does(dirs, name, pieces);
        },
        Node::Dir { name, children } => {
            let st = DownloadView { phase: PhaseView::Header, dirs };
            let inner = DownloadView { phase: PhaseView::Header, dirs: dirs.push(name) };
            let e0 = ChannelEventView::Data(encode_utf8(dir_line(name)));
            let e1 = ChannelEventView::Data(encode_utf8("E\n"@));
            law_dir_header_round_trip(name);
            let a0 = seq![
                DownloadActionView::CreateDir(dirs.push(name)),
                DownloadActionView::Ack,
            ];
            lemma_does_one(st, e0, inner, a0);
            lemma_list_does(dirs.push(name), children);
            lemma_dir_end_bytes();
            assert(inner.dirs.drop_last() =~= dirs);
            lemma_does_one(inner, e1, st, seq![DownloadActionView::Ack]);
            lemma_does_append(
                st,
                seq![e0],
                inner,
                a0,
                list_packets(children),
                inner,
                list_actions(children, dirs.push(name)),
            );
            lemma_does_append(
                st,
                seq![e0] + list_packets(children),
                inner,
                a0 + list_actions(children, dirs.push(name)),
                seq![e1],
                st,
                seq![DownloadActionView::Ack],
            );
        },
    }
}

proof fn lemma_dir_end_bytes()
    ensures
        encode_utf8("E\n"@) == seq![69u8, 10u8],
{
    reveal_strlit("E\n");
    is_ascii_chars_encode_utf8("E\n"@);
    assert(encode_utf8("E\n"@) =~= seq![69u8, 10u8]);
}

proof fn lemma_list_does(dirs: Seq<Seq<char>>, children: Seq<Node>)
    requires
        all_sendable(children),
    ensures
        does(
            DownloadView { phase: PhaseView::Header, dirs },
            list_packets(children),
            DownloadView { phase: PhaseView::Header, dirs },
            list_actions(children, dirs),
        ),
    decreases children,
{
    let st = DownloadView { phase: PhaseView::Header, dirs };
    if children.len() > 0 {
        let front = children.drop_last();
        let n = children.last();
        lemma_list_does(dirs, front);
        lemma_node_does(dirs, n);
        lemma_does_append(
            st,
            list_packets(front),
            st,
            list_actions(front, dirs),
            node_packets(n),
            st,
            node_actions(n, dirs),
        );
    }
}

/// A download that is given the messages of a tree, with the contents of files in pieces of any
/// sizes but for an empty last one, makes that tree: every directory and every file under its name
/// in its place, each file with its contents. It is then back in the directory where it was, ready
/// for more.
pub proof fn law_download_makes_tree(dirs: Seq<Seq<char>>, n: Node)
    requires
        sendable(n),
    ensures
        download_run(DownloadView { phase: PhaseView::Header, dirs }, node_packets(n)) == Ok::<
            (DownloadView, Seq<DownloadActionView>),
            ScpErrorView,
        >((DownloadView { phase: PhaseView::Header, dirs }, node_actions(n, dirs))),
{
    lemma_node_does(dirs, n);
}

/// What a remote end sends for a file or for a directory, in its own form: the header as it comes, a
/// file's contents in pieces with a packet behind them, and a directory's entries with a message that
/// closes it.
pub ghost enum Arrival {
    File { header: Seq<u8>, name: Seq<char>, pieces: Seq<Seq<u8>>, status: Seq<u8> },
    Dir { header: Seq<u8>, name: Seq<char>, children: Seq<Arrival>, close: Seq<u8> },
}

/// Whether the parts of an arrival belong together: headers of kind `C` and `D` that hold the name,
/// and for a file the number of bytes in its pieces, of which the last is not empty; and a message of
/// kind `E` at the end of a directory.
pub open spec fn in_order(a: Arrival) -> bool
    decreases a,
{
    match a {
        Arrival::File { header, name, pieces, .. } => {
            &&& header.len() > 0 && header[0] == 67
            &&& header_value(header) == Ok::<(int, Seq<char>), ScpErrorView>(
                (joined(pieces).len() as int, name),
            )
            &&& pieces.len() > 0 ==> pieces.last().len() > 0
        },
        Arrival::Dir { header, name, children, close } => {
            &&& header.len() > 0 && header[0] == 68
            &&& header_value(header) matches Ok((_, n)) && n == name
            &&& close.len() > 0 && close[0] == 69
            &&& all_in_order(children)
        },
    }
}

/// Whether every arrival of a list is [`in_order`].
pub open spec fn all_in_order(children: Seq<Arrival>) -> bool
    decreases children,
{
    children.len() == 0 || (all_in_order(children.drop_last()) && in_order(children.last()))
}

/// The packets of an arrival.
pub open spec fn arrival_packets(a: Arrival) -> Seq<ChannelEventView>
    decreases a,
{
    match a {
        Arrival::File { header, pieces, status, .. } => seq![ChannelEventView::Data(header)]
            + packets(pieces) + seq![ChannelEventView::Data(status)],
        Arrival::Dir { header, children, close, .. } => seq![ChannelEventView::Data(header)]
            + arrivals_packets(children) + seq![ChannelEventView::Data(close)],
    }
}

/// The packets of a list of arrivals.
pub open spec fn arrivals_packets(children: Seq<Arrival>) -> Seq<ChannelEventView>
    decreases children,
{
    if children.len() == 0 {
        Seq::empty()
    } else {
        arrivals_packets(children.drop_last()) + arrival_packets(children.last())
    }
}

/// The actions that make what arrives in the directory `dirs`.
pub open spec fn arrival_actions(a: Arrival, dirs: Seq<Seq<char>>) -> Seq<DownloadActionView>
    decreases a,
{
    match a {
        Arrival::File { name, pieces, .. } => file_actions(name, pieces, dirs),
        Arrival::Dir { name, children, .. } => seq![
            DownloadActionView::CreateDir(dirs.push(name)),
            DownloadActionView::Ack,
        ] + arrivals_actions(children, dirs.push(name)) + seq![DownloadActionView::Ack],
    }
}

/// The actions that make a list of arrivals in the directory `dirs`.
pub open spec fn arrivals_actions(children: Seq<Arrival>, dirs: Seq<Seq<char>>) -> Seq<
    DownloadActionView,
>
    decreases children,
{
    if children.len() == 0 {
        Seq::empty()
    } else {
        arrivals_actions(children.drop_last(), dirs) + arrival_actions(children.last(), dirs)
    }
}

/// A download makes whatever tree arrives, however the remote end writes its headers: whatever modes
/// they name, however they write a size, however a directory is closed, and whatever byte stands behind
/// a file. Every directory and every file is made under its name in its place, each file is written
/// with exactly the bytes that came for it, and the download is then back where it was.
pub proof fn law_download_makes_what_arrives(dirs: Seq<Seq<char>>, a: Arrival)
    requires
        in_order(a),
    ensures
        download_run(DownloadView { phase: PhaseView::Header, dirs }, arrival_packets(a)) == Ok::<
            (DownloadView, Seq<DownloadActionView>),
            ScpErrorView,
        >((DownloadView { phase: PhaseView::Header, dirs }, arrival_actions(a, dirs))),
    decreases a,
{
    match a {
        Arrival::File { header, name, pieces, status } => {
            lemma_file_arrives(dirs, header, name, pieces, status);
        },
        Arrival::Dir { header, name, children, close } => {
            let st = DownloadView { phase: PhaseView::Header, dirs };
            let inner = DownloadView { phase: PhaseView::Header, dirs: dirs.push(name) };
            let e0 = ChannelEventView::Data(header);
            let e1 = ChannelEventView::Data(close);
            let a0 = seq![
                DownloadActionView::CreateDir(dirs.push(name)),
                DownloadActionView::Ack,
            ];
            lemma_does_one(st, e0, inner, a0);
            lemma_arrivals_do(dirs.push(name), children);
            assert(inner.dirs.drop_last() =~= dirs);
            lemma_does_one(inner, e1, st, seq![DownloadActionView::Ack]);
            lemma_does_append(
                st,
                seq![e0],
                inner,
                a0,
                arrivals_packets(children),
                inner,
                arrivals_actions(children, dirs.push(name)),
            );
            lemma_does_append(
                st,
                seq![e0] + arrivals_packets(children),
                inner,
                a0 + arrivals_actions(children, dirs.push(name)),
                seq![e1],
                st,
                seq![DownloadActionView::Ack],
            );
        },
    }
}

proof fn lemma_arrivals_do(dirs: Seq<Seq<char>>, children: Seq<Arrival>)
    requires
        all_in_order(children),
    ensures
        does(
            DownloadView { phase: PhaseView::Header, dirs },
            arrivals_packets(children),
            DownloadView { phase: PhaseView::Header, dirs },
            arrivals_actions(children, dirs),
        ),
    decreases children,
{
    let st = DownloadView { phase: PhaseView::Header, dirs };
    if children.len() > 0 {
        let front = children.drop_last();
        let a = children.last();
        lemma_arrivals_do(dirs, front);
        law_download_makes_what_arrives(dirs, a);
        lemma_does_append(
            st,
            arrivals_packets(front),
            st,
            arrivals_actions(front, dirs),
            arrival_packets(a),
            st,
            arrival_actions(a, dirs),
        );
    }
}

/// A file is made whatever mode its header names: the file is created under its name, what is written to
/// it is the bytes that came, as many as the header announced, and it is reported with that size.
pub proof fn law_download_takes_any_mode(
    dirs: Seq<Seq<char>>,
    mode: Seq<char>,
    name: Seq<char>,
    ends: nat,
    pieces: Seq<Seq<u8>>,
    status: Seq<u8>,
)
    requires
        forall|i: int| 0 <= i < mode.len() ==> mode[i] != ' ',
        plain_name(name),
        joined(pieces).len() <= u64::MAX,
        pieces.len() > 0 ==> pieces.last().len() > 0,
    ensures
        ({
            let st = DownloadView { phase: PhaseView::Header, dirs };
            let size = joined(pieces).len() as int;
            let header = encode_utf8(header_line('C', mode, decimal(size), name, ends));
            let events = seq![ChannelEventView::Data(header)] + packets(pieces) + seq![
                ChannelEventView::Data(status),
            ];
            match download_run(st, events) {
                Err(_) => false,
                Ok((end, acts)) => {
                    &&& end == st
                    &&& written(acts) == joined(pieces)
                    &&& acts.take(2) == seq![
                        DownloadActionView::Ack,
                        DownloadActionView::CreateFile(dirs.push(name)),
                    ]
                    &&& acts.skip(acts.len() - 3) == seq![
                        DownloadActionView::Flush,
                        DownloadActionView::Report(dirs.push(name), size),
                        DownloadActionView::Ack,
                    ]
                },
            }
        }),
{
    let size = joined(pieces).len() as int;
    let header = encode_utf8(header_line('C', mode, decimal(size), name, ends));
    law_decimal_round_trip(size, u64::MAX as int);
    law_header_reads_its_fields('C', mode, decimal(size), size, name, ends);
    law_header_starts_with_its_kind('C', mode, decimal(size), name, ends);
    lemma_file_arrives(dirs, header, name, pieces, status);
    let head = seq![DownloadActionView::Ack, DownloadActionView::CreateFile(dirs.push(name))];
    let tail = seq![
        DownloadActionView::Flush,
        DownloadActionView::Report(dirs.push(name), size),
        DownloadActionView::Ack,
    ];
    let acts = file_actions(name, pieces, dirs);
    assert(acts.take(2) =~= head);
    assert(acts.skip(acts.len() - 3) =~= tail);
    lemma_written_writes(pieces);
    lemma_written_append(head, writes(pieces));
    lemma_written_append(head + writes(pieces), tail);
    lemma_writes_nothing(head);
    lemma_writes_nothing(tail);
    assert(written(acts) =~= joined(pieces));
}

proof fn lemma_writes_nothing(acts: Seq<DownloadActionView>)
    requires
        forall|i: int| 0 <= i < acts.len() ==> !(#[trigger] acts[i] is Write),
    ensures
        written(acts) == Seq::<u8>::empty(),
    decreases acts.len(),
{
    if acts.len() > 0 {
        assert(!(acts[acts.len() - 1] is Write));
        lemma_writes_nothing(acts.drop_last());
    }
}

/// A packet that holds more than a file still lacks ends the file on the spot: the missing bytes are
/// written and the rest of the packet is dropped, the file is reported, and a header is awaited.
pub proof fn law_download_drops_what_is_too_much(
    dirs: Seq<Seq<char>>,
    name: Seq<char>,
    size: int,
    front: Seq<Seq<u8>>,
    missing: Seq<u8>,
    excess: Seq<u8>,
)
    requires
        joined(front).len() + missing.len() == size,
        missing.len() > 0,
        excess.len() > 0,
    ensures
        does(
            DownloadView { phase: PhaseView::Body { name, size, remaining: size }, dirs },
            packets(front).push(ChannelEventView::Data(missing + excess)),
            DownloadView { phase: PhaseView::Header, dirs },
            writes(front) + seq![
                DownloadActionView::Write(missing),
                DownloadActionView::Flush,
                DownloadActionView::Report(dirs.push(name), size),
                DownloadActionView::Ack,
            ],
        ),
{
    lemma_body_does(dirs, name, size, size, front);
    let e = ChannelEventView::Data(missing + excess);
    assert(packets(front).push(e).drop_last() =~= packets(front));
    assert((missing + excess).take(missing.len() as int) =~= missing);
}

/// Whatever comes behind a file's last byte, and be it the end of the channel, the file is reported and
/// acknowledged, and a header is awaited; a message of another kind is passed over.
pub proof fn law_download_completes_a_file(
    dirs: Seq<Seq<char>>,
    name: Seq<char>,
    size: int,
    event: ChannelEventView,
)
    requires
        !(event is Other),
    ensures
        download_next(DownloadView { phase: PhaseView::Trailer { name, size }, dirs }, event)
            == Ok::<(DownloadView, Seq<DownloadActionView>), ScpErrorView>(
            (
                DownloadView { phase: PhaseView::Header, dirs },
                seq![
                    DownloadActionView::Report(dirs.push(name), size),
                    DownloadActionView::Ack,
                ],
            ),
        ),
{
}

/// Messages of other kinds change nothing at any time, an empty packet changes nothing where a header is
/// awaited, and nothing changes a download that is over.
pub proof fn law_download_passes_over(st: DownloadView, event: ChannelEventView)
    requires
        event is Other || st.phase is Finished || (st.phase is Header && (event
            matches ChannelEventView::Data(b) && b.len() == 0)),
    ensures
        download_next(st, event) == Ok::<(DownloadView, Seq<DownloadActionView>), ScpErrorView>(
            (st, Seq::empty()),
        ),
{
}

/// A channel that ends where a header is awaited ends the download, which answers in kind.
pub proof fn law_download_ends_with_the_channel(dirs: Seq<Seq<char>>, event: ChannelEventView)
    requires
        event is Eof || event is Close || event is Ended,
    ensures
        download_next(DownloadView { phase: PhaseView::Header, dirs }, event) == Ok::<
            (DownloadView, Seq<DownloadActionView>),
            ScpErrorView,
        >(
            (
                DownloadView { phase: PhaseView::Finished, dirs },
                seq![DownloadActionView::SendEof],
            ),
        ),
{
}

/// A message that closes a directory closes the innermost one, whatever stands behind its first byte,
/// and outside every directory it changes nothing; either way it is acknowledged.
pub proof fn law_download_closes_directories(
    dirs: Seq<Seq<char>>,
    name: Seq<char>,
    msg: Seq<u8>,
)
    requires
        msg.len() > 0,
        msg[0] == 69,
    ensures
        ({
            let close = ChannelEventView::Data(msg);
            let st = DownloadView { phase: PhaseView::Header, dirs };
            let inner = DownloadView { phase: PhaseView::Header, dirs: dirs.push(name) };
            let top = DownloadView { phase: PhaseView::Header, dirs: Seq::empty() };
            &&& does(inner, seq![close], st, seq![DownloadActionView::Ack])
            &&& does(top, seq![close], top, seq![DownloadActionView::Ack])
        }),
{
    let close = ChannelEventView::Data(msg);
    let st = DownloadView { phase: PhaseView::Header, dirs };
    let inner = DownloadView { phase: PhaseView::Header, dirs: dirs.push(name) };
    let top = DownloadView { phase: PhaseView::Header, dirs: Seq::empty() };
    assert(inner.dirs.drop_last() =~= dirs);
    lemma_does_one(inner, close, st, seq![DownloadActionView::Ack]);
    lemma_does_one(top, close, top, seq![DownloadActionView::Ack]);
}

/// Where a header is awaited, a warning is passed on and acknowledged and changes nothing else, and an
/// error fails the download; both with the text behind their first byte, without the white space
/// around it.
pub proof fn law_download_hands_messages_on(
    dirs: Seq<Seq<char>>,
    before: Seq<char>,
    text: Seq<char>,
    after: Seq<char>,
)
    requires
        all_white(before),
        all_white(after),
        text.len() > 0 ==> !is_white_space(text[0]) && !is_white_space(text.last()),
    ensures
        ({
            let st = DownloadView { phase: PhaseView::Header, dirs };
            let bytes = encode_utf8(before + text + after);
            &&& download_next(st, ChannelEventView::Data(seq![1u8] + bytes)) == Ok::<
                (DownloadView, Seq<DownloadActionView>),
                ScpErrorView,
            >((st, seq![DownloadActionView::Warn(text), DownloadActionView::Ack]))
            &&& download_next(st, ChannelEventView::Data(seq![2u8] + bytes)) == Err::<
                (DownloadView, Seq<DownloadActionView>),
                ScpErrorView,
            >(ScpErrorView::Remote(text))
        }),
{
    let bytes = encode_utf8(before + text + after);
    law_lossy_keeps_text(before + text + after);
    law_trim_takes_white_space_off(before, text, after);
    assert((seq![1u8] + bytes).skip(1) =~= bytes);
    assert((seq![2u8] + bytes).skip(1) =~= bytes);
}

/// The same holds of text that is not UTF-8, with what is made of its bytes.
pub proof fn law_download_hands_any_bytes_on(dirs: Seq<Seq<char>>, bytes: Seq<u8>)
    ensures
        ({
            let st = DownloadView { phase: PhaseView::Header, dirs };
            &&& download_next(st, ChannelEventView::Data(seq![1u8] + bytes)) == Ok::<
                (DownloadView, Seq<DownloadActionView>),
                ScpErrorView,
            >((st, seq![DownloadActionView::Warn(trimmed(lossy(bytes))), DownloadActionView::Ack]))
            &&& download_next(st, ChannelEventView::Data(seq![2u8] + bytes)) == Err::<
                (DownloadView, Seq<DownloadActionView>),
                ScpErrorView,
            >(ScpErrorView::Remote(trimmed(lossy(bytes))))
        }),
{
    assert((seq![1u8] + bytes).skip(1) =~= bytes);
    assert((seq![2u8] + bytes).skip(1) =~= bytes);
}

/// Where a header is awaited, a message goes by its first byte: 67, 68, 69 and 1 can be taken, 2 is an
/// error of the remote end, and any other byte fails the download for that byte. A header of kind `C` or
/// `D` that cannot be read fails it for what is wrong with the header.
pub proof fn law_download_refuses_what_is_no_header(dirs: Seq<Seq<char>>, msg: Seq<u8>)
    requires
        msg.len() > 0,
    ensures
        ({
            let next = download_next(
                DownloadView { phase: PhaseView::Header, dirs },
                ChannelEventView::Data(msg),
            );
            &&& msg[0] == 69 || msg[0] == 1 ==> next is Ok
            &&& msg[0] == 2 ==> (next matches Err(e) && e is Remote)
            &&& msg[0] == 67 || msg[0] == 68 ==> (next is Ok <==> header_value(msg) is Ok)
            &&& msg[0] == 67 || msg[0] == 68 ==> (header_value(msg) matches Err(e) ==> next
                == Err::<(DownloadView, Seq<DownloadActionView>), ScpErrorView>(e))
            &&& !(msg[0] == 67 || msg[0] == 68 || msg[0] == 69 || msg[0] == 1 || msg[0] == 2)
                ==> next == Err::<(DownloadView, Seq<DownloadActionView>), ScpErrorView>(
                ScpErrorView::UnexpectedHeader(msg[0]),
            )
        }),
{
}

/// The bytes that events bring.
pub open spec fn bytes_in(events: Seq<ChannelEventView>) -> Seq<u8>
    decreases events.len(),
{
    if events.len() == 0 {
        Seq::empty()
    } else {
        match events.last() {
            ChannelEventView::Data(b) => bytes_in(events.drop_last()) + b,
            _ => bytes_in(events.drop_last()),
        }
    }
}

/// What the receiving side is given for a tree is, byte for byte, what the sending side sends for
/// it.
pub proof fn law_packets_carry_messages(n: Node)
    ensures
        bytes_in(node_packets(n)) == joined(node_messages(n)),
    decreases n,
{
    match n {
        Node::File { name, pieces } => {
            let line = encode_utf8(file_line(joined(pieces).len() as int, name));
            let zero = seq![0u8];
            let head = seq![ChannelEventView::Data(line)];
            let tail = seq![ChannelEventView::Data(zero)];
            lemma_bytes_in_packets(pieces);
            lemma_bytes_in_append(head, packets(pieces));
            lemma_bytes_in_append(head + packets(pieces), tail);
            lemma_bytes_in_one(line);
            lemma_bytes_in_one(zero);
            let m = node_messages(n);
            assert(m.drop_last() =~= seq![line, joined(pieces)]);
            assert(m.drop_last().drop_last() =~= seq![line]);
            assert(m.drop_last().drop_last().drop_last() =~= Seq::empty());
            reveal_with_fuel(joined, 4);
            assert(joined(m) =~= line + joined(pieces) + zero);
        },
        Node::Dir { name, children } => {
            let line = encode_utf8(dir_line(name));
            let close = encode_utf8("E\n"@);
            let head = seq![ChannelEventView::Data(line)];
            let tail = seq![ChannelEventView::Data(close)];
            lemma_list_carries(children);
            lemma_bytes_in_append(head, list_packets(children));
            lemma_bytes_in_append(head + list_packets(children), tail);
            lemma_bytes_in_one(line);
            lemma_bytes_in_one(close);
            lemma_joined_append(seq![line], list_messages(children));
            lemma_joined_append(seq![line] + list_messages(children), seq![close]);
            lemma_joined_one(line);
            lemma_joined_one(close);
        },
    }
}

proof fn lemma_list_carries(children: Seq<Node>)
    ensures
        bytes_in(list_packets(children)) == joined(list_messages(children)),
    decreases children,
{
    if children.len() > 0 {
        lemma_list_carries(children.drop_last());
        law_packets_carry_messages(children.last());
        lemma_bytes_in_append(list_packets(children.drop_last()), node_packets(children.last()));
        lemma_joined_append(list_messages(children.drop_last()), node_messages(children.last()));
    }
}

proof fn lemma_bytes_in_one(b: Seq<u8>)
    ensures
        bytes_in(seq![ChannelEventView::Data(b)]) == b,
{
    let one = seq![ChannelEventView::Data(b)];
    assert(one.drop_last() =~= Seq::empty());
    reveal_with_fuel(bytes_in, 2);
    assert(bytes_in(one) =~= b);
}

proof fn lemma_joined_one(b: Seq<u8>)
    ensures
        joined(seq![b]) == b,
{
    let one = seq![b];
    assert(one.drop_last() =~= Seq::empty());
    reveal_with_fuel(joined, 2);
    assert(joined(one) =~= b);
}

proof fn lemma_bytes_in_append(a: Seq<ChannelEventView>, b: Seq<ChannelEventView>)
    ensures
        bytes_in(a + b) == bytes_in(a) + bytes_in(b),
    decreases b.len(),
{
    if b.len() == 0 {
        assert(a + b =~= a);
    } else {
        lemma_bytes_in_append(a, b.drop_last());
        assert((a + b).drop_last() =~= a + b.drop_last());
        assert((a + b).last() == b.last());
        assert(bytes_in(a + b) =~= bytes_in(a) + bytes_in(b));
    }
}

proof fn lemma_joined_append(a: Seq<Seq<u8>>, b: Seq<Seq<u8>>)
    ensures
        joined(a + b) == joined(a) + joined(b),
    decreases b.len(),
{
    if b.len() == 0 {
        assert(a + b =~= a);
    } else {
        lemma_joined_append(a, b.drop_last());
        assert((a + b).drop_last() =~= a + b.drop_last());
        assert((a + b).last() == b.last());
        assert(joined(a + b) =~= joined(a) + joined(b));
    }
}

proof fn lemma_bytes_in_packets(pieces: Seq<Seq<u8>>)
    ensures
        bytes_in(packets(pieces)) == joined(pieces),
    decreases pieces.len(),
{
    if pieces.len() > 0 {
        lemma_bytes_in_packets(pieces.drop_last());
        assert(packets(pieces).drop_last() =~= packets(pieces.drop_last()));
    }
}

/// An end of directory outside every directory leaves the receiving side where it is; right after
/// a directory's start, it goes back to where it was before.
pub proof fn law_directory_end(dirs: Seq<Seq<char>>, name: Seq<char>)
    requires
        plain_name(name),
    ensures
        ({
            let close = ChannelEventView::Data(seq![69u8, 10u8]);
            let open_dir = ChannelEventView::Data(encode_utf8(dir_line(name)));
            let top = DownloadView { phase: PhaseView::Header, dirs: Seq::empty() };
            let st = DownloadView { phase: PhaseView::Header, dirs };
            &&& does(top, seq![close], top, seq![DownloadActionView::Ack])
            &&& does(
                st,
                seq![open_dir, close],
                st,
                seq![
                    DownloadActionView::CreateDir(dirs.push(name)),
                    DownloadActionView::Ack,
                    DownloadActionView::Ack,
                ],
            )
        }),
{
    let close = ChannelEventView::Data(seq![69u8, 10u8]);
    let top = DownloadView { phase: PhaseView::Header, dirs: Seq::empty() };
    lemma_does_one(top, close, top, seq![DownloadActionView::Ack]);
    let n = Node::Dir { name, children: Seq::empty() };
    lemma_node_does(dirs, n);
    lemma_dir_end_bytes();
    let open_dir = ChannelEventView::Data(encode_utf8(dir_line(name)));
    assert(node_packets(n) =~= seq![open_dir, close]);
    assert(node_actions(n, dirs) =~= seq![
        DownloadActionView::CreateDir(dirs.push(name)),
        DownloadActionView::Ack,
        DownloadActionView::Ack,
    ]);
}

} // verus!
