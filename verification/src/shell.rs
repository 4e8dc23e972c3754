//! An interactive shell through a tunnel: what is passed on from the keyboard, and how the session
//! ends.
use vstd::prelude::*;

verus! {

/// The byte that ends the input.
pub const END_OF_TRANSMISSION: u8 = 4;

/// The columns of a terminal of unknown size.
pub const DEFAULT_COLUMNS: u16 = 80;

/// The rows of a terminal of unknown size.
pub const DEFAULT_ROWS: u16 = 24;

/// The size of the remote terminal: columns and rows of the local one, or the default ones.
pub fn pty_size(local: Option<(u16, u16)>) -> (r: (u32, u32))
    ensures
        match local {
            Some((columns, rows)) => r == (columns as u32, rows as u32),
            None => r == (DEFAULT_COLUMNS as u32, DEFAULT_ROWS as u32),
        },
{
    match local {
        Some((columns, rows)) => (columns as u32, rows as u32),
        None => (DEFAULT_COLUMNS as u32, DEFAULT_ROWS as u32),
    }
}

/// What is done with a piece of input.
#[derive(Debug, Clone, Copy, PartialEq, Eq, Structural)]
pub enum InputStep {
    /// It is passed on.
    Forward,
    /// It is dropped, and the input is over.
    Stop,
}

/// Whether a piece of input ends the input: an empty one does, and one with the end byte in it.
pub open spec fn ends_input(piece: Seq<u8>) -> bool {
    piece.len() == 0 || piece.contains(END_OF_TRANSMISSION)
}

/// Decides what is done with a piece of input.
pub fn input_step(piece: &[u8]) -> (r: InputStep)
    ensures
        r == (if ends_input(piece@) {
            InputStep::Stop
        } else {
            InputStep::Forward
        }),
{
    if piece.len() == 0 {
        return InputStep::Stop;
    }
    let mut i: usize = 0;
    while i < piece.len()
        invariant
            i <= piece@.len(),
            piece@.len() > 0,
            forall|k: int| 0 <= k < i ==> piece@[k] != END_OF_TRANSMISSION,
        decreases piece@.len() - i,
    {
        if piece[i] == END_OF_TRANSMISSION {
            assert(piece@[i as int] == END_OF_TRANSMISSION);
            return InputStep::Stop;
        }
        i += 1;
    }
    InputStep::Forward
}

/// How a session ends.
#[derive(Debug, Clone, Copy, PartialEq, Eq, Structural)]
pub enum SessionEnd {
    /// The user interrupted it.
    Interrupted,
    /// The input is over.
    InputOver,
    /// The remote end is done.
    RemoteDone,
}

/// What is said to the remote end as a session ends, if anything.
pub fn farewell(end: SessionEnd) -> (r: Option<&'static str>)
    ensures
        match end {
            SessionEnd::Interrupted => r matches Some(s) && s@ == "terminated"@,
            SessionEnd::InputOver => r matches Some(s) && s@ == "stdin closed"@,
            SessionEnd::RemoteDone => r is None,
        },
{
    match end {
        SessionEnd::Interrupted => Some("terminated"),
        SessionEnd::InputOver => Some("stdin closed"),
        SessionEnd::RemoteDone => None,
    }
}

/// What reaches the remote end of a list of pieces.
pub open spec fn passed_on(pieces: Seq<Seq<u8>>) -> Seq<Seq<u8>>
    decreases pieces.len(),
{
    if pieces.len() == 0 || ends_input(pieces[0]) {
        Seq::empty()
    } else {
        seq![pieces[0]] + passed_on(pieces.drop_first())
    }
}

/// The end byte ends the input wherever it stands in a piece, an empty piece ends it too, and nothing else
/// does.
pub proof fn law_end_byte_ends_the_input(a: Seq<u8>, b: Seq<u8>, piece: Seq<u8>)
    ensures
        ends_input(a + seq![4u8] + b),
        ends_input(Seq::empty()),
        piece.len() > 0 && (forall|i: int| 0 <= i < piece.len() ==> piece[i] != 4) ==> !ends_input(
            piece,
        ),
{
    let s = a + seq![4u8] + b;
    assert(s[a.len() as int] == 4);
    assert(s.contains(END_OF_TRANSMISSION));
}

/// Every piece before the first one that ends the input reaches the remote end, whole and in order;
/// nothing of that one does, nor of those behind it; and the end byte never does.
pub proof fn law_input_until_end(pieces: Seq<Seq<u8>>, n: int)
    requires
        0 <= n <= pieces.len(),
        forall|i: int| 0 <= i < n ==> !ends_input(#[trigger] pieces[i]),
        n < pieces.len() ==> ends_input(pieces[n]),
    ensures
        passed_on(pieces) == pieces.take(n),
        forall|i: int|
            0 <= i < passed_on(pieces).len() ==> !(#[trigger] passed_on(pieces)[i]).contains(
                END_OF_TRANSMISSION,
            ),
    decreases n,
{
    if n == 0 {
        assert(pieces.take(0) =~= Seq::empty());
    } else {
        let rest = pieces.drop_first();
        assert forall|i: int| 0 <= i < n - 1 implies !ends_input(#[trigger] rest[i]) by {
            assert(rest[i] == pieces[i + 1]);
        }
        law_input_until_end(rest, n - 1);
        assert(!ends_input(pieces[0]));
        assert(seq![pieces[0]] + rest.take(n - 1) =~= pieces.take(n));
    }
    assert forall|i: int| 0 <= i < passed_on(pieces).len() implies !(#[trigger] passed_on(
        pieces,
    )[i]).contains(END_OF_TRANSMISSION) by {
        assert(passed_on(pieces)[i] == pieces[i]);
    }
}

} // verus!
