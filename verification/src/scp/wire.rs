//! What the two ends of a copy say to each other: commands, headers and replies.
use crate::text::{
    all_white, chars_of, decimal, decode_lossy, is_white_space, law_decimal_round_trip,
    law_lossy_keeps_text, law_number_has_digits_only, law_trim_takes_white_space_off, lossy,
    number_in, parse_number, push_number, trim, trimmed, utf8_text,
};
use crate::uuids::{hex_text, push_hex};
use vstd::prelude::*;
use vstd::string::*;
use vstd::utf8::*;

verus! {

/// Why a copy failed.
#[derive(Debug)]
pub enum ScpError {
    /// The remote end reported a fatal error.
    Remote(String),
    /// A reply started with a byte that is no reply code.
    UnexpectedReply(u8),
    /// A message started with a byte that is no header.
    UnexpectedHeader(u8),
    /// The channel was closed while a reply was awaited.
    ClosedUnexpectedly,
    /// The channel ended while a reply was awaited.
    Closed,
    /// The channel was closed before a file was complete.
    ClosedDuringTransfer,
    /// A header is not UTF-8.
    HeaderNotUtf8,
    /// A header lacks one of its three fields.
    MalformedHeader(String),
    /// A header's size is no number.
    InvalidSize,
    /// A directory was to be sent without the recursive flag.
    IsDirectory,
    /// A file has no name.
    NoFileName,
    /// A directory has no name.
    NoDirectoryName,
}

/// The mathematical content of a [`ScpError`].
pub ghost enum ScpErrorView {
    Remote(Seq<char>),
    UnexpectedReply(u8),
    UnexpectedHeader(u8),
    ClosedUnexpectedly,
    Closed,
    ClosedDuringTransfer,
    HeaderNotUtf8,
    MalformedHeader(Seq<char>),
    InvalidSize,
    IsDirectory,
    NoFileName,
    NoDirectoryName,
}

impl View for ScpError {
    type V = ScpErrorView;

    open spec fn view(&self) -> ScpErrorView {
        match self {
            ScpError::Remote(m) => ScpErrorView::Remote(m@),
            ScpError::UnexpectedReply(b) => ScpErrorView::UnexpectedReply(*b),
            ScpError::UnexpectedHeader(b) => ScpErrorView::UnexpectedHeader(*b),
            ScpError::ClosedUnexpectedly => ScpErrorView::ClosedUnexpectedly,
            ScpError::Closed => ScpErrorView::Closed,
            ScpError::ClosedDuringTransfer => ScpErrorView::ClosedDuringTransfer,
            ScpError::HeaderNotUtf8 => ScpErrorView::HeaderNotUtf8,
            ScpError::MalformedHeader(l) => ScpErrorView::MalformedHeader(l@),
            ScpError::InvalidSize => ScpErrorView::InvalidSize,
            ScpError::IsDirectory => ScpErrorView::IsDirectory,
            ScpError::NoFileName => ScpErrorView::NoFileName,
            ScpError::NoDirectoryName => ScpErrorView::NoDirectoryName,
        }
    }
}

/// An error stands for what went wrong, with the text or the byte that it holds.
pub proof fn law_scp_error_stands_for_itself(e: ScpError)
    ensures
        match e {
            ScpError::Remote(m) => e@ == ScpErrorView::Remote(m@),
            ScpError::UnexpectedReply(b) => e@ == ScpErrorView::UnexpectedReply(b),
            ScpError::UnexpectedHeader(b) => e@ == ScpErrorView::UnexpectedHeader(b),
            ScpError::ClosedUnexpectedly => e@ is ClosedUnexpectedly,
            ScpError::Closed => e@ is Closed,
            ScpError::ClosedDuringTransfer => e@ is ClosedDuringTransfer,
            ScpError::HeaderNotUtf8 => e@ is HeaderNotUtf8,
            ScpError::MalformedHeader(l) => e@ == ScpErrorView::MalformedHeader(l@),
            ScpError::InvalidSize => e@ is InvalidSize,
            ScpError::IsDirectory => e@ is IsDirectory,
            ScpError::NoFileName => e@ is NoFileName,
            ScpError::NoDirectoryName => e@ is NoDirectoryName,
        },
{
}

/// The text of an error about the item at `path`.
pub open spec fn error_text(e: ScpErrorView, path: Seq<char>) -> Seq<char> {
    match e {
        ScpErrorView::Remote(m) => "scp error: "@ + m,
        ScpErrorView::UnexpectedReply(b) => "unexpected scp response byte: "@ + decimal(b as int),
        ScpErrorView::UnexpectedHeader(b) => "unexpected scp header byte: 0x"@ + hex_text(
            b as int,
            2,
        ),
        ScpErrorView::ClosedUnexpectedly => "channel closed unexpectedly"@,
        ScpErrorView::Closed => "channel closed"@,
        ScpErrorView::ClosedDuringTransfer => "channel closed during file transfer"@,
        ScpErrorView::HeaderNotUtf8 => "invalid utf-8 in scp header"@,
        ScpErrorView::MalformedHeader(l) => "malformed scp header: "@ + l,
        ScpErrorView::InvalidSize => "invalid size in scp header"@,
        ScpErrorView::IsDirectory => path + " is a directory (use --recursive)"@,
        ScpErrorView::NoFileName => "no file name: "@ + path,
        ScpErrorView::NoDirectoryName => "no directory name: "@ + path,
    }
}

/// The text of an error says what the error holds, as it is, behind words that are always the same.
/// Errors about a local item name its path, and no other error does.
pub proof fn law_error_text_says_what_happened(
    text: Seq<char>,
    byte: u8,
    path: Seq<char>,
    other: Seq<char>,
)
    ensures
        error_text(ScpErrorView::Remote(text), path) == "scp error: "@ + text,
        error_text(ScpErrorView::MalformedHeader(text), path) == "malformed scp header: "@ + text,
        error_text(ScpErrorView::UnexpectedReply(byte), path) == "unexpected scp response byte: "@
            + decimal(byte as int),
        error_text(ScpErrorView::UnexpectedHeader(byte), path) == "unexpected scp header byte: 0x"@
            + hex_text(byte as int, 2),
        error_text(ScpErrorView::IsDirectory, path) == path
            + " is a directory (use --recursive)"@,
        error_text(ScpErrorView::NoFileName, path) == "no file name: "@ + path,
        error_text(ScpErrorView::NoDirectoryName, path) == "no directory name: "@ + path,
        error_text(ScpErrorView::ClosedUnexpectedly, path) == error_text(
            ScpErrorView::ClosedUnexpectedly,
            other,
        ),
        error_text(ScpErrorView::Closed, path) == error_text(ScpErrorView::Closed, other),
        error_text(ScpErrorView::ClosedDuringTransfer, path) == error_text(
            ScpErrorView::ClosedDuringTransfer,
            other,
        ),
        error_text(ScpErrorView::HeaderNotUtf8, path) == error_text(
            ScpErrorView::HeaderNotUtf8,
            other,
        ),
        error_text(ScpErrorView::InvalidSize, path) == error_text(
            ScpErrorView::InvalidSize,
            other,
        ),
{
}

/// Two pieces of text, one behind the other.
fn both(a: &str, b: &str) -> (r: String)
    ensures
        r@ == a@ + b@,
{
    let mut r = a.to_owned();
    r.append(b);
    r
}

impl ScpError {
    /// The text of the error, for a user. `path` is the local item that the copy was at.
    pub fn message(&self, path: &str) -> (r: String)
        ensures
            r@ == error_text(self@, path@),
    {
        match self {
            ScpError::Remote(m) => both("scp error: ", m.as_str()),
            ScpError::UnexpectedReply(b) => {
                let mut r = "unexpected scp response byte: ".to_owned();
                push_number(&mut r, *b as u64);
                r
            },
            ScpError::UnexpectedHeader(b) => {
                let mut r = "unexpected scp header byte: 0x".to_owned();
                push_hex(&mut r, *b as u64, 2);
                r
            },
            ScpError::ClosedUnexpectedly => "channel closed unexpectedly".to_owned(),
            ScpError::Closed => "channel closed".to_owned(),
            ScpError::ClosedDuringTransfer => "channel closed during file transfer".to_owned(),
            ScpError::HeaderNotUtf8 => "invalid utf-8 in scp header".to_owned(),
            ScpError::MalformedHeader(l) => both("malformed scp header: ", l.as_str()),
            ScpError::InvalidSize => "invalid size in scp header".to_owned(),
            ScpError::IsDirectory => both(path, " is a directory (use --recursive)"),
            ScpError::NoFileName => both("no file name: ", path),
            ScpError::NoDirectoryName => both("no directory name: ", path),
        }
    }
}

// --- Headers ---

/// `s` without its trailing newlines.
pub open spec fn strip_newlines(s: Seq<char>) -> Seq<char>
    decreases s.len(),
{
    if s.len() > 0 && s.last() == '\n' {
        strip_newlines(s.drop_last())
    } else {
        s
    }
}

/// The text before the first space, between the first two, and after the second.
pub open spec fn three_fields(s: Seq<char>) -> Option<(Seq<char>, Seq<char>, Seq<char>)> {
    match s.index_of_first(' ') {
        None => None,
        Some(i) => {
            let rest = s.skip(i + 1);
            match rest.index_of_first(' ') {
                None => None,
                Some(j) => Some((s.take(i), rest.take(j), rest.skip(j + 1))),
            }
        },
    }
}

/// The size and the name in a header: one kind character, the mode, the size and the name,
/// separated by single spaces, with any newlines at the end left out.
pub open spec fn header_value(buf: Seq<u8>) -> Result<(int, Seq<char>), ScpErrorView> {
    if !valid_utf8(buf) {
        Err(ScpErrorView::HeaderNotUtf8)
    } else {
        let line = strip_newlines(decode_utf8(buf));
        match three_fields(line.skip(1)) {
            None => Err(ScpErrorView::MalformedHeader(line)),
            Some((_, size, name)) => match number_in(size, u64::MAX as int) {
                None => Err(ScpErrorView::InvalidSize),
                Some(n) => Ok((n, name)),
            },
        }
    }
}

/// Whether a kind character can be taken off the front of a header's line.
pub open spec fn has_kind(buf: Seq<u8>) -> bool {
    valid_utf8(buf) ==> ({
        let line = strip_newlines(decode_utf8(buf));
        line.len() > 0 && (line[0] as u32) < 128
    })
}

/// A sequence that starts with an ASCII byte other than a newline has a kind character.
pub proof fn lemma_has_kind(buf: Seq<u8>)
    requires
        buf.len() > 0,
        buf[0] < 128,
        buf[0] != 10,
    ensures
        has_kind(buf),
        valid_utf8(buf) ==> decode_utf8(buf).len() > 0 && decode_utf8(buf)[0] == buf[0] as char,
{
    if valid_utf8(buf) {
        let b = buf[0];
        assert(b < 128 ==> b & 0x7f == b) by (bit_vector);
        assert(decode_utf8(buf)[0] == buf[0] as char);
        lemma_strip_keeps_first(decode_utf8(buf));
    }
}

proof fn lemma_strip_keeps_first(s: Seq<char>)
    requires
        s.len() > 0,
        s[0] != '\n',
    ensures
        strip_newlines(s).len() > 0,
        strip_newlines(s)[0] == s[0],
    decreases s.len(),
{
    if s.last() == '\n' {
        lemma_strip_keeps_first(s.drop_last());
    }
}

/// The place of the first space at or after `from`.
fn find_space(cs: &Vec<char>, from: usize) -> (r: Option<usize>)
    requires
        from <= cs@.len(),
    ensures
        match r {
            Some(i) => from <= i < cs@.len() && cs@.skip(from as int).index_of_first(' ') == Some(
                i - from,
            ),
            None => cs@.skip(from as int).index_of_first(' ') is None,
        },
{
    let ghost s = cs@.skip(from as int);
    let mut i: usize = from;
    while i < cs.len()
        invariant
            from <= i <= cs@.len(),
            s == cs@.skip(from as int),
            forall|k: int| 0 <= k < i - from ==> s[k] != ' ',
        decreases cs@.len() - i,
    {
        if cs[i] == ' ' {
            proof {
                assert(s[i - from] == ' ');
                assert(s.contains(' '));
                s.index_of_first_ensures(' ');
            }
            return Some(i);
        }
        assert(s[i - from] == cs@[i as int]);
        i += 1;
    }
    proof {
        s.index_of_first_ensures(' ');
    }
    None
}

/// Reads the size and the name from a `C` or `D` header.
pub fn parse_c_header(buf: &[u8]) -> (r: Result<(u64, String), ScpError>)
    requires
        has_kind(buf@),
    ensures
        match r {
            Ok((size, name)) => header_value(buf@) == Ok::<(int, Seq<char>), ScpErrorView>(
                (size as int, name@),
            ),
            Err(e) => header_value(buf@) == Err::<(int, Seq<char>), ScpErrorView>(e@),
        },
{
    let text = match utf8_text(buf) {
        Some(t) => t,
        None => return Err(ScpError::HeaderNotUtf8),
    };
    let cs = chars_of(text);
    let mut end: usize = cs.len();
    assert(cs@.take(end as int) =~= cs@);
    while end > 0 && cs[end - 1] == '\n'
        invariant
            end <= cs@.len(),
            strip_newlines(cs@) == strip_newlines(cs@.take(end as int)),
        decreases end,
    {
        assert(cs@.take(end as int).drop_last() =~= cs@.take(end - 1));
        end -= 1;
    }
    let line = text.substring_char(0, end);
    assert(line@ =~= cs@.take(end as int));
    assert(line@ == strip_newlines(decode_utf8(buf@)));
    let fields = chars_of(line);
    let first = match find_space(&fields, 1) {
        Some(i) => i,
        None => return Err(ScpError::MalformedHeader(line.to_owned())),
    };
    let ghost rest = line@.skip(1).skip(first - 1 + 1);
    assert(rest =~= fields@.skip(first + 1));
    let second = match find_space(&fields, first + 1) {
        Some(i) => i,
        None => return Err(ScpError::MalformedHeader(line.to_owned())),
    };
    let size_text = line.substring_char(first + 1, second);
    assert(size_text@ =~= rest.take(second - first - 1));
    let size: u64 = match parse_number(size_text, u64::MAX) {
        Some(n) => n,
        None => return Err(ScpError::InvalidSize),
    };
    let name = line.substring_char(second + 1, end);
    assert(name@ =~= rest.skip(second - first - 1 + 1));
    Ok((size, name.to_owned()))
}

/// The line that announces a file.
pub open spec fn file_line(size: int, name: Seq<char>) -> Seq<char> {
    "C0644 "@ + decimal(size) + " "@ + name + "\n"@
}

/// The line that announces a directory.
pub open spec fn dir_line(name: Seq<char>) -> Seq<char> {
    "D0755 0 "@ + name + "\n"@
}

/// The bytes that announce a file of `size` bytes.
pub fn file_header(size: u64, name: &str) -> (r: Vec<u8>)
    ensures
        r@ == encode_utf8(file_line(size as int, name@)),
{
    let mut line = "C0644 ".to_owned();
    push_number(&mut line, size);
    line.append(" ");
    line.append(name);
    line.append("\n");
    line.as_str().as_bytes_vec()
}

/// The bytes that announce a directory.
pub fn dir_header(name: &str) -> (r: Vec<u8>)
    ensures
        r@ == encode_utf8(dir_line(name@)),
{
    let mut line = "D0755 0 ".to_owned();
    line.append(name);
    line.append("\n");
    line.as_str().as_bytes_vec()
}

/// The bytes that close a directory.
pub fn dir_end() -> (r: Vec<u8>)
    ensures
        r@ == encode_utf8("E\n"@),
        r@ == seq![69u8, 10u8],
{
    proof {
        reveal_strlit("E\n");
        is_ascii_chars_encode_utf8("E\n"@);
    }
    let r = "E\n".as_bytes_vec();
    assert(r@ =~= seq![69u8, 10u8]);
    r
}

proof fn lemma_first_space(a: Seq<char>, b: Seq<char>)
    requires
        forall|i: int| 0 <= i < a.len() ==> a[i] != ' ',
    ensures
        (a + seq![' '] + b).index_of_first(' ') == Some(a.len() as int),
        (a + seq![' '] + b).take(a.len() as int) == a,
        (a + seq![' '] + b).skip(a.len() as int + 1) == b,
{
    let s = a + seq![' '] + b;
    assert(s[a.len() as int] == ' ');
    assert(s.contains(' '));
    s.index_of_first_ensures(' ');
    let k = s.index_of_first(' ').unwrap();
    if k < a.len() {
        assert(s[k] == a[k]);
    }
    assert(s.take(a.len() as int) =~= a);
    assert(s.skip(a.len() as int + 1) =~= b);
}

/// `n` newlines.
pub open spec fn newlines(n: nat) -> Seq<char> {
    Seq::new(n, |i: int| '\n')
}

/// A line that is stripped of the newlines behind it is the line.
proof fn lemma_strip(line: Seq<char>, n: nat)
    requires
        line.len() > 0 ==> line.last() != '\n',
    ensures
        strip_newlines(line + newlines(n)) == line,
    decreases n,
{
    let s = line + newlines(n);
    if n == 0 {
        assert(s =~= line);
    } else {
        assert(s.drop_last() =~= line + newlines((n - 1) as nat));
        lemma_strip(line, (n - 1) as nat);
    }
}

/// What is left of a message's text without the newlines behind it.
proof fn lemma_message_line(line: Seq<char>, n: nat)
    requires
        line.len() > 0 ==> line.last() != '\n',
    ensures
        valid_utf8(encode_utf8(line + newlines(n))),
        strip_newlines(decode_utf8(encode_utf8(line + newlines(n)))) == line,
{
    encode_utf8_valid_utf8(line + newlines(n));
    encode_utf8_decode_utf8(line + newlines(n));
    lemma_strip(line, n);
}

proof fn lemma_no_space(digits: Seq<char>, max: int)
    requires
        number_in(digits, max) is Some,
    ensures
        forall|i: int| 0 <= i < digits.len() ==> digits[i] != ' ',
{
    assert forall|i: int| 0 <= i < digits.len() implies digits[i] != ' ' by {
        if digits[i] == ' ' {
            law_number_has_digits_only(digits, max, i);
        }
    }
}

/// A header with its fields: the kind, the mode, the size and the name, and newlines behind them.
pub open spec fn header_line(
    kind: char,
    mode: Seq<char>,
    size: Seq<char>,
    name: Seq<char>,
    ends: nat,
) -> Seq<char> {
    seq![kind] + mode + seq![' '] + size + seq![' '] + name + newlines(ends)
}

/// The fields of a header are found wherever there are such fields: behind any kind character and any
/// mode without a space, a size, and a name of whatever characters, with any number of newlines at the
/// end. The size and the name are read, and nothing else counts. A name that itself ends in a newline
/// is out of this.
pub proof fn law_header_reads_its_fields(
    kind: char,
    mode: Seq<char>,
    size_text: Seq<char>,
    size: int,
    name: Seq<char>,
    ends: nat,
)
    requires
        forall|i: int| 0 <= i < mode.len() ==> mode[i] != ' ',
        number_in(size_text, u64::MAX as int) == Some(size),
        name.len() > 0 ==> name.last() != '\n',
    ensures
        header_value(encode_utf8(header_line(kind, mode, size_text, name, ends))) == Ok::<
            (int, Seq<char>),
            ScpErrorView,
        >((size, name)),
{
    let bare = seq![kind] + mode + seq![' '] + size_text + seq![' '] + name;
    assert(bare.last() != '\n') by {
        if name.len() > 0 {
            assert(bare.last() == name.last());
        }
    }
    lemma_message_line(bare, ends);
    let tail = size_text + seq![' '] + name;
    assert(bare.skip(1) =~= mode + seq![' '] + tail);
    lemma_first_space(mode, tail);
    lemma_no_space(size_text, u64::MAX as int);
    lemma_first_space(size_text, name);
}

/// A header whose size is no number is refused for that, whatever its mode and its name.
pub proof fn law_header_size_has_to_be_a_number(
    kind: char,
    mode: Seq<char>,
    size_text: Seq<char>,
    name: Seq<char>,
    ends: nat,
)
    requires
        forall|i: int| 0 <= i < mode.len() ==> mode[i] != ' ',
        forall|i: int| 0 <= i < size_text.len() ==> size_text[i] != ' ',
        number_in(size_text, u64::MAX as int) is None,
        name.len() > 0 ==> name.last() != '\n',
    ensures
        header_value(encode_utf8(header_line(kind, mode, size_text, name, ends))) == Err::<
            (int, Seq<char>),
            ScpErrorView,
        >(ScpErrorView::InvalidSize),
{
    let bare = seq![kind] + mode + seq![' '] + size_text + seq![' '] + name;
    assert(bare.last() != '\n') by {
        if name.len() > 0 {
            assert(bare.last() == name.last());
        }
    }
    lemma_message_line(bare, ends);
    let tail = size_text + seq![' '] + name;
    assert(bare.skip(1) =~= mode + seq![' '] + tail);
    lemma_first_space(mode, tail);
    lemma_first_space(size_text, name);
}

/// A header with fewer than two spaces behind its kind character lacks a field, and is refused for
/// that with its line.
pub proof fn law_header_needs_two_spaces(line: Seq<char>, ends: nat)
    requires
        line.len() > 0,
        line.last() != '\n',
        forall|i: int, j: int| 1 <= i < j < line.len() ==> !(line[i] == ' ' && line[j] == ' '),
    ensures
        header_value(encode_utf8(line + newlines(ends))) == Err::<(int, Seq<char>), ScpErrorView>(
            ScpErrorView::MalformedHeader(line),
        ),
{
    lemma_message_line(line, ends);
    let s = line.skip(1);
    s.index_of_first_ensures(' ');
    if let Some(i) = s.index_of_first(' ') {
        let rest = s.skip(i + 1);
        rest.index_of_first_ensures(' ');
        if let Some(j) = rest.index_of_first(' ') {
            assert(s[i] == ' ' && rest[j] == ' ');
            assert(line[i + 1] == ' ' && line[i + 1 + j + 1] == ' ');
            assert(false);
        }
    }
}

/// A header that is not UTF-8 is refused for that.
pub proof fn law_header_has_to_be_text(buf: Seq<u8>)
    requires
        !valid_utf8(buf),
    ensures
        header_value(buf) == Err::<(int, Seq<char>), ScpErrorView>(ScpErrorView::HeaderNotUtf8),
{
}

proof fn lemma_first_byte(kind: char, rest: Seq<char>)
    requires
        (kind as u32) < 128,
    ensures
        encode_utf8(seq![kind] + rest).len() > 0,
        encode_utf8(seq![kind] + rest)[0] == kind as u8,
{
    let line = seq![kind] + rest;
    encode_utf8_first_scalar(line);
    let k = kind as u32;
    assert(k < 128 ==> (k & 0x7F) as u8 == k as u8) by (bit_vector);
}

/// The message of a header starts with its kind, as a byte.
pub proof fn law_header_starts_with_its_kind(
    kind: char,
    mode: Seq<char>,
    size: Seq<char>,
    name: Seq<char>,
    ends: nat,
)
    requires
        (kind as u32) < 128,
    ensures
        encode_utf8(header_line(kind, mode, size, name, ends)).len() > 0,
        encode_utf8(header_line(kind, mode, size, name, ends))[0] == kind as u8,
{
    let rest = mode + seq![' '] + size + seq![' '] + name + newlines(ends);
    assert(header_line(kind, mode, size, name, ends) =~= seq![kind] + rest);
    lemma_first_byte(kind, rest);
}

/// The lines that announce a file and a directory are headers of kind `C` and `D`, with the modes of
/// a plain file and of a directory that can be entered, a size, a name and one newline.
pub proof fn law_lines_are_headers(size: int, name: Seq<char>)
    ensures
        file_line(size, name) == header_line('C', "0644"@, decimal(size), name, 1),
        dir_line(name) == header_line('D', "0755"@, "0"@, name, 1),
{
    reveal_strlit("C0644 ");
    reveal_strlit("D0755 0 ");
    reveal_strlit("0644");
    reveal_strlit("0755");
    reveal_strlit("0");
    reveal_strlit(" ");
    reveal_strlit("\n");
    assert(file_line(size, name) =~= header_line('C', "0644"@, decimal(size), name, 1));
    assert(dir_line(name) =~= header_line('D', "0755"@, "0"@, name, 1));
}

/// A file header reads back as the size and the name that it was made of, as long as the name
/// does not end in a newline.
pub proof fn law_file_header_round_trip(size: int, name: Seq<char>)
    requires
        0 <= size <= u64::MAX,
        name.len() > 0 ==> name.last() != '\n',
    ensures
        header_value(encode_utf8(file_line(size, name))) == Ok::<(int, Seq<char>), ScpErrorView>(
            (size, name),
        ),
        encode_utf8(file_line(size, name)).len() > 0,
        encode_utf8(file_line(size, name))[0] == 67,
{
    reveal_strlit("0644");
    law_lines_are_headers(size, name);
    law_decimal_round_trip(size, u64::MAX as int);
    law_header_reads_its_fields('C', "0644"@, decimal(size), size, name, 1);
    law_header_starts_with_its_kind('C', "0644"@, decimal(size), name, 1);
}

/// A directory header reads back as size zero and the name that it was made of, as long as the
/// name does not end in a newline.
pub proof fn law_dir_header_round_trip(name: Seq<char>)
    requires
        name.len() > 0 ==> name.last() != '\n',
    ensures
        header_value(encode_utf8(dir_line(name))) == Ok::<(int, Seq<char>), ScpErrorView>(
            (0, name),
        ),
        encode_utf8(dir_line(name)).len() > 0,
        encode_utf8(dir_line(name))[0] == 68,
{
    reveal_strlit("0755");
    reveal_strlit("0");
    law_lines_are_headers(0, name);
    law_decimal_round_trip(0, u64::MAX as int);
    assert("0"@ =~= decimal(0));
    law_header_reads_its_fields('D', "0755"@, "0"@, 0, name, 1);
    law_header_starts_with_its_kind('D', "0755"@, "0"@, name, 1);
}

// --- Commands ---

/// What runs on the remote end: `scp`, recursive or not, as the sink (`-t`) or the source (`-f`)
/// of `remote`.
pub open spec fn remote_command(recursive: bool, sink: bool, remote: Seq<char>) -> Seq<char> {
    "scp "@ + (if recursive {
        "-r "@
    } else {
        ""@
    }) + (if sink {
        "-t "@
    } else {
        "-f "@
    }) + remote
}

fn command(recursive: bool, sink: bool, remote: &str) -> (r: String)
    ensures
        r@ == remote_command(recursive, sink, remote@),
{
    let mut cmd = "scp ".to_owned();
    cmd.append(
        if recursive {
            "-r "
        } else {
            ""
        },
    );
    cmd.append(
        if sink {
            "-t "
        } else {
            "-f "
        },
    );
    cmd.append(remote);
    cmd
}

/// What runs at the remote end names the remote path last, as it is, behind one of four beginnings.
pub proof fn law_command_ends_with_the_path(recursive: bool, sink: bool, remote: Seq<char>)
    ensures
        recursive && sink ==> remote_command(recursive, sink, remote) == "scp -r -t "@ + remote,
        recursive && !sink ==> remote_command(recursive, sink, remote) == "scp -r -f "@ + remote,
        !recursive && sink ==> remote_command(recursive, sink, remote) == "scp -t "@ + remote,
        !recursive && !sink ==> remote_command(recursive, sink, remote) == "scp -f "@ + remote,
{
    reveal_strlit("scp ");
    reveal_strlit("-r ");
    reveal_strlit("");
    reveal_strlit("-t ");
    reveal_strlit("-f ");
    reveal_strlit("scp -r -t ");
    reveal_strlit("scp -r -f ");
    reveal_strlit("scp -t ");
    reveal_strlit("scp -f ");
    let c = remote_command(recursive, sink, remote);
    if recursive && sink {
        assert(c =~= "scp -r -t "@ + remote);
    } else if recursive {
        assert(c =~= "scp -r -f "@ + remote);
    } else if sink {
        assert(c =~= "scp -t "@ + remote);
    } else {
        assert(c =~= "scp -f "@ + remote);
    }
}

/// The remote command that takes an upload.
pub fn upload_command(recursive: bool, remote: &str) -> (r: String)
    ensures
        r@ == remote_command(recursive, true, remote@),
{
    command(recursive, true, remote)
}

/// The remote command that gives a download.
pub fn download_command(recursive: bool, remote: &str) -> (r: String)
    ensures
        r@ == remote_command(recursive, false, remote@),
{
    command(recursive, false, remote)
}

// --- Channel ---

/// What the ssh channel hands over next.
#[derive(Debug)]
pub enum ChannelEvent {
    /// Bytes from the remote end.
    Data(Vec<u8>),
    /// The remote end sends no more.
    Eof,
    /// The remote end closed the channel.
    Close,
    /// A message of another kind.
    Other,
    /// The channel is gone.
    Ended,
}

/// The mathematical content of a [`ChannelEvent`].
pub ghost enum ChannelEventView {
    Data(Seq<u8>),
    Eof,
    Close,
    Other,
    Ended,
}

impl View for ChannelEvent {
    type V = ChannelEventView;

    open spec fn view(&self) -> ChannelEventView {
        match self {
            ChannelEvent::Data(b) => ChannelEventView::Data(b@),
            ChannelEvent::Eof => ChannelEventView::Eof,
            ChannelEvent::Close => ChannelEventView::Close,
            ChannelEvent::Other => ChannelEventView::Other,
            ChannelEvent::Ended => ChannelEventView::Ended,
        }
    }
}

/// A channel event stands for itself, and data for its bytes.
pub proof fn law_channel_event_stands_for_itself(e: ChannelEvent)
    ensures
        match e {
            ChannelEvent::Data(b) => e@ == ChannelEventView::Data(b@),
            ChannelEvent::Eof => e@ is Eof,
            ChannelEvent::Close => e@ is Close,
            ChannelEvent::Other => e@ is Other,
            ChannelEvent::Ended => e@ is Ended,
        },
{
}

/// Where the wait for a reply stands.
#[derive(Debug)]
pub enum Reply {
    /// No reply yet.
    Pending,
    /// The remote end goes on, with a warning or without.
    Accepted(Option<String>),
    /// The copy is over.
    Failed(ScpError),
}

/// The mathematical content of a [`Reply`].
pub ghost enum ReplyView {
    Pending,
    Accepted(Option<Seq<char>>),
    Failed(ScpErrorView),
}

impl View for Reply {
    type V = ReplyView;

    open spec fn view(&self) -> ReplyView {
        match self {
            Reply::Pending => ReplyView::Pending,
            Reply::Accepted(None) => ReplyView::Accepted(None),
            Reply::Accepted(Some(w)) => ReplyView::Accepted(Some(w@)),
            Reply::Failed(e) => ReplyView::Failed(e@),
        }
    }
}

/// A reply stands for itself: pending, accepted with its warning or without, or failed with its error.
pub proof fn law_reply_stands_for_itself(r: Reply)
    ensures
        match r {
            Reply::Pending => r@ is Pending,
            Reply::Accepted(None) => r@ == ReplyView::Accepted(None),
            Reply::Accepted(Some(w)) => r@ == ReplyView::Accepted(Some(w@)),
            Reply::Failed(e) => r@ == ReplyView::Failed(e@),
        },
{
}

/// What a reply of code `code` with the text `message` behind it says: `0` goes on, `1` goes on
/// with a warning, `2` is fatal, and nothing else is a reply.
pub open spec fn reply_meaning(code: u8, message: Seq<char>) -> ReplyView {
    if code == 0 {
        ReplyView::Accepted(None)
    } else if code == 1 {
        ReplyView::Accepted(Some(trimmed(message)))
    } else if code == 2 {
        ReplyView::Failed(ScpErrorView::Remote(trimmed(message)))
    } else {
        ReplyView::Failed(ScpErrorView::UnexpectedReply(code))
    }
}

/// What a channel event says to one who waits for a reply.
pub open spec fn reply_in(event: ChannelEventView) -> ReplyView {
    match event {
        ChannelEventView::Data(b) => if b.len() == 0 {
            ReplyView::Pending
        } else {
            reply_meaning(b[0], lossy(b.skip(1)))
        },
        ChannelEventView::Eof => ReplyView::Failed(ScpErrorView::ClosedUnexpectedly),
        ChannelEventView::Close => ReplyView::Failed(ScpErrorView::ClosedUnexpectedly),
        ChannelEventView::Other => ReplyView::Pending,
        ChannelEventView::Ended => ReplyView::Failed(ScpErrorView::Closed),
    }
}

/// A reply is judged by its first byte, whatever stands behind it: it is accepted exactly if that byte
/// is 0 or 1, without a warning for 0 and with one for 1, and otherwise the copy has failed, by what
/// the remote end reports for 2, and for the byte itself where it is above that.
pub proof fn law_reply_goes_by_its_first_byte(b: Seq<u8>)
    requires
        b.len() > 0,
    ensures
        reply_in(ChannelEventView::Data(b)) is Accepted <==> b[0] == 0 || b[0] == 1,
        reply_in(ChannelEventView::Data(b)) is Failed <==> b[0] >= 2,
        b[0] == 0 ==> reply_in(ChannelEventView::Data(b))->Accepted_0 is None,
        b[0] == 1 ==> reply_in(ChannelEventView::Data(b))->Accepted_0 is Some,
        b[0] == 2 ==> reply_in(ChannelEventView::Data(b))->Failed_0 is Remote,
        b[0] > 2 ==> reply_in(ChannelEventView::Data(b))->Failed_0
            == ScpErrorView::UnexpectedReply(b[0]),
{
}

/// The text behind a warning or an error reaches the user, without the white space around it and
/// otherwise as it is.
pub proof fn law_reply_hands_its_text_on(before: Seq<char>, text: Seq<char>, after: Seq<char>)
    requires
        all_white(before),
        all_white(after),
        text.len() > 0 ==> !is_white_space(text[0]) && !is_white_space(text.last()),
    ensures
        reply_in(ChannelEventView::Data(seq![1u8] + encode_utf8(before + text + after)))
            == ReplyView::Accepted(Some(text)),
        reply_in(ChannelEventView::Data(seq![2u8] + encode_utf8(before + text + after)))
            == ReplyView::Failed(ScpErrorView::Remote(text)),
{
    let bytes = encode_utf8(before + text + after);
    law_lossy_keeps_text(before + text + after);
    law_trim_takes_white_space_off(before, text, after);
    assert((seq![1u8] + bytes).skip(1) =~= bytes);
    assert((seq![2u8] + bytes).skip(1) =~= bytes);
}

/// Text behind a code that is not UTF-8 is the same for a warning and for an error: what is made of
/// its bytes, without the white space around it.
pub proof fn law_reply_text_of_any_bytes(bytes: Seq<u8>)
    ensures
        reply_in(ChannelEventView::Data(seq![1u8] + bytes)) == ReplyView::Accepted(
            Some(trimmed(lossy(bytes))),
        ),
        reply_in(ChannelEventView::Data(seq![2u8] + bytes)) == ReplyView::Failed(
            ScpErrorView::Remote(trimmed(lossy(bytes))),
        ),
{
    assert((seq![1u8] + bytes).skip(1) =~= bytes);
    assert((seq![2u8] + bytes).skip(1) =~= bytes);
}

/// One who waits for a reply goes on waiting on an empty packet and on messages of other kinds, and has
/// failed once the channel is closed or gone.
pub proof fn law_reply_is_waited_for()
    ensures
        reply_in(ChannelEventView::Data(Seq::empty())) is Pending,
        reply_in(ChannelEventView::Other) is Pending,
        reply_in(ChannelEventView::Eof) == ReplyView::Failed(ScpErrorView::ClosedUnexpectedly),
        reply_in(ChannelEventView::Close) == ReplyView::Failed(ScpErrorView::ClosedUnexpectedly),
        reply_in(ChannelEventView::Ended) == ReplyView::Failed(ScpErrorView::Closed),
{
}

/// Judges a reply by its code and the text behind it.
pub fn judge_reply(code: u8, message: &str) -> (r: Reply)
    ensures
        r@ == reply_meaning(code, message@),
{
    if code == 0 {
        Reply::Accepted(None)
    } else if code == 1 {
        Reply::Accepted(Some(trim(message).to_owned()))
    } else if code == 2 {
        Reply::Failed(ScpError::Remote(trim(message).to_owned()))
    } else {
        Reply::Failed(ScpError::UnexpectedReply(code))
    }
}

/// Decodes what follows the first byte of a message.
pub(crate) fn text_behind_code(bytes: &Vec<u8>) -> (r: String)
    requires
        bytes@.len() > 0,
    ensures
        r@ == lossy(bytes@.skip(1)),
{
    let mut rest: Vec<u8> = Vec::new();
    let mut i: usize = 1;
    while i < bytes.len()
        invariant
            1 <= i <= bytes@.len(),
            rest@ == bytes@.subrange(1, i as int),
        decreases bytes@.len() - i,
    {
        rest.push(bytes[i]);
        i += 1;
    }
    assert(rest@ =~= bytes@.skip(1));
    decode_lossy(rest.as_slice())
}

/// Takes one channel event while a reply is awaited.
pub fn recv_response(event: &ChannelEvent) -> (r: Reply)
    ensures
        r@ == reply_in(event@),
{
    match event {
        ChannelEvent::Data(bytes) => {
            if bytes.len() == 0 {
                Reply::Pending
            } else {
                let message = text_behind_code(bytes);
                judge_reply(bytes[0], message.as_str())
            }
        },
        ChannelEvent::Eof => Reply::Failed(ScpError::ClosedUnexpectedly),
        ChannelEvent::Close => Reply::Failed(ScpError::ClosedUnexpectedly),
        ChannelEvent::Other => Reply::Pending,
        ChannelEvent::Ended => Reply::Failed(ScpError::Closed),
    }
}

/// Where the wait for data stands.
#[derive(Debug, PartialEq, Eq, Structural)]
pub enum Received {
    /// No data yet.
    Pending,
    /// A packet came in.
    Packet,
    /// There will be no more.
    Over,
}

/// What a channel event says to one who waits for data.
pub open spec fn received(event: ChannelEventView) -> Received {
    match event {
        ChannelEventView::Data(_) => Received::Packet,
        ChannelEventView::Other => Received::Pending,
        _ => Received::Over,
    }
}

/// Data comes in packets alone, and the channel is over for one who waits for data exactly if it is
/// closed or gone.
pub proof fn law_data_comes_in_packets(event: ChannelEventView)
    ensures
        received(event) == Received::Packet <==> event is Data,
        received(event) == Received::Over <==> event is Eof || event is Close || event is Ended,
{
}

/// Takes one channel event while data is awaited: a packet goes to the end of `buf`.
pub fn recv_data(event: &ChannelEvent, buf: &mut Vec<u8>) -> (r: Received)
    ensures
        r == received(event@),
        final(buf)@ == (match event@ {
            ChannelEventView::Data(b) => old(buf)@ + b,
            _ => old(buf)@,
        }),
{
    match event {
        ChannelEvent::Data(bytes) => {
            let mut i: usize = 0;
            assert(bytes@.take(0) =~= Seq::<u8>::empty());
            while i < bytes.len()
                invariant
                    i <= bytes@.len(),
                    buf@ == old(buf)@ + bytes@.take(i as int),
                decreases bytes@.len() - i,
            {
                buf.push(bytes[i]);
                i += 1;
            }
            assert(bytes@.take(i as int) =~= bytes@);
            Received::Packet
        },
        ChannelEvent::Other => Received::Pending,
        ChannelEvent::Eof => Received::Over,
        ChannelEvent::Close => Received::Over,
        ChannelEvent::Ended => Received::Over,
    }
}

} // verus!
