//! Tunnel ids: the 128-bit number of a UUID and its text.
use crate::text::digit_text;
use vstd::prelude::*;
use vstd::string::*;

verus! {

/// The value of a hexadecimal digit of either case.
pub open spec fn hex_value(c: char) -> Option<int> {
    if '0' <= c <= '9' {
        Some(c as int - '0' as int)
    } else if 'a' <= c <= 'f' {
        Some(c as int - 'a' as int + 10)
    } else if 'A' <= c <= 'F' {
        Some(c as int - 'A' as int + 10)
    } else {
        None
    }
}

/// The lower-case hexadecimal digit of value `d`.
pub open spec fn hex_char(d: int) -> char {
    if d < 10 {
        ('0' as int + d) as char
    } else {
        ('a' as int + d - 10) as char
    }
}

/// The number that a run of hexadecimal digits writes.
pub open spec fn hex_number(s: Seq<char>) -> Option<int>
    decreases s.len(),
{
    if s.len() == 0 {
        Some(0)
    } else {
        match (hex_number(s.drop_last()), hex_value(s.last())) {
            (Some(high), Some(low)) => Some(high * 16 + low),
            _ => None,
        }
    }
}

/// The last `width` hexadecimal digits of `n`, in lower case.
pub open spec fn hex_text(n: int, width: nat) -> Seq<char>
    decreases width,
{
    if width == 0 {
        Seq::empty()
    } else {
        hex_text(n / 16, (width - 1) as nat).push(hex_char(n % 16))
    }
}

/// The text of a single hexadecimal digit.
fn hex_digit_text(d: u64) -> (r: &'static str)
    requires
        d < 16,
    ensures
        r@ == seq![hex_char(d as int)],
{
    proof {
        reveal_strlit("a");
        reveal_strlit("b");
        reveal_strlit("c");
        reveal_strlit("d");
        reveal_strlit("e");
        reveal_strlit("f");
    }
    if d < 10 {
        digit_text(d)
    } else if d == 10 {
        "a"
    } else if d == 11 {
        "b"
    } else if d == 12 {
        "c"
    } else if d == 13 {
        "d"
    } else if d == 14 {
        "e"
    } else {
        "f"
    }
}

/// Appends the last `width` hexadecimal digits of `n` to `out`.
pub(crate) fn push_hex(out: &mut String, n: u64, width: usize)
    ensures
        final(out)@ == old(out)@ + hex_text(n as int, width as nat),
    decreases width,
{
    if width > 0 {
        push_hex(out, n / 16, width - 1);
        out.append(hex_digit_text(n % 16));
    }
}

/// The hyphenated text of a UUID: 32 lower-case digits in groups of 8, 4, 4, 4 and 12.
pub open spec fn uuid_text(id: u128) -> Seq<char> {
    let h = hex_text(id as int, 32);
    h.subrange(0, 8) + seq!['-'] + h.subrange(8, 12) + seq!['-'] + h.subrange(12, 16) + seq!['-']
        + h.subrange(16, 20) + seq!['-'] + h.subrange(20, 32)
}

/// The number of a hyphenated UUID of either case.
pub open spec fn hyphenated_value(s: Seq<char>) -> Option<int> {
    if s.len() == 36 && s[8] == '-' && s[13] == '-' && s[18] == '-' && s[23] == '-' {
        hex_number(
            s.subrange(0, 8) + s.subrange(9, 13) + s.subrange(14, 18) + s.subrange(19, 23)
                + s.subrange(24, 36),
        )
    } else {
        None
    }
}

/// `c` with an ASCII upper-case letter made lower-case.
pub open spec fn ascii_lower(c: char) -> char {
    if 'A' <= c <= 'Z' {
        (c as int - 'A' as int + 'a' as int) as char
    } else {
        c
    }
}

/// The number of a UUID's text: 32 digits, or the hyphenated form, bare, in braces, or after
/// `urn:uuid:` in any case.
pub open spec fn uuid_value(s: Seq<char>) -> Option<int> {
    if s.len() == 32 {
        hex_number(s)
    } else if s.len() == 36 {
        hyphenated_value(s)
    } else if s.len() == 38 && s[0] == '{' && s[37] == '}' {
        hyphenated_value(s.subrange(1, 37))
    } else if s.len() == 45 && s.take(9).map_values(|c: char| ascii_lower(c))
        == seq!['u', 'r', 'n', ':', 'u', 'u', 'i', 'd', ':'] {
        hyphenated_value(s.skip(9))
    } else {
        None
    }
}

/// Reads a UUID.
///
/// Trusted: `uuid::Uuid::parse_str` accepts exactly the four forms of [`uuid_value`], of 32, 36,
/// 38 and 45 characters, and `Uuid::as_u128` is the number that their digits write.
#[verifier::external_body]
pub(crate) fn parse_uuid(s: &str) -> (r: Option<u128>)
    ensures
        uuid_value(s@) == (match r {
            Some(id) => Some(id as int),
            None => None,
        }),
{
    uuid::Uuid::parse_str(s).ok().map(|id| id.as_u128())
}

/// Writes a UUID.
///
/// Trusted: the `Display` of `uuid::Uuid` is the hyphenated lower-case form of the number that
/// `Uuid::from_u128` took.
#[verifier::external_body]
pub(crate) fn format_uuid(id: u128) -> (r: String)
    ensures
        r@ == uuid_text(id),
{
    uuid::Uuid::from_u128(id).to_string()
}

/// The first number that does not fit in `width` hexadecimal digits.
spec fn hex_bound(width: nat) -> int
    decreases width,
{
    if width == 0 {
        1
    } else {
        hex_bound((width - 1) as nat) * 16
    }
}

proof fn lemma_hex_round_trip(n: int, width: nat)
    requires
        0 <= n < hex_bound(width),
    ensures
        hex_text(n, width).len() == width,
        hex_number(hex_text(n, width)) == Some(n),
        forall|i: int| 0 <= i < width ==> hex_value(#[trigger] hex_text(n, width)[i]) is Some,
    decreases width,
{
    if width > 0 {
        let w = (width - 1) as nat;
        assert(hex_bound(width) == hex_bound(w) * 16);
        lemma_hex_round_trip(n / 16, w);
        assert(hex_text(n, width).drop_last() =~= hex_text(n / 16, w));
        assert(hex_value(hex_char(n % 16)) == Some(n % 16));
    }
}

/// The hexadecimal text of a byte has two digits, in lower case, and writes the byte.
pub proof fn law_hex_byte_round_trip(n: u8)
    ensures
        hex_text(n as int, 2).len() == 2,
        hex_number(hex_text(n as int, 2)) == Some(n as int),
        forall|i: int|
            0 <= i < 2 ==> '0' <= #[trigger] hex_text(n as int, 2)[i] <= '9' || 'a' <= hex_text(
                n as int,
                2,
            )[i] <= 'f',
{
    reveal_with_fuel(hex_bound, 3);
    reveal_with_fuel(hex_text, 3);
    lemma_hex_round_trip(n as int, 2);
}

/// A UUID reads back as itself from the text that it is written in: 36 characters, each a
/// hexadecimal digit or a hyphen.
pub proof fn law_uuid_round_trip(id: u128)
    ensures
        uuid_text(id).len() == 36,
        uuid_value(uuid_text(id)) == Some(id as int),
        forall|i: int|
            0 <= i < 36 ==> hex_value(#[trigger] uuid_text(id)[i]) is Some || uuid_text(id)[i]
                == '-',
{
    let h = hex_text(id as int, 32);
    let t = uuid_text(id);
    reveal_with_fuel(hex_bound, 33);
    lemma_hex_round_trip(id as int, 32);
    assert(t.subrange(0, 8) + t.subrange(9, 13) + t.subrange(14, 18) + t.subrange(19, 23)
        + t.subrange(24, 36) =~= h);
    assert forall|i: int| 0 <= i < 36 implies hex_value(#[trigger] t[i]) is Some || t[i]
        == '-' by {
        if i < 8 {
            assert(t[i] == h[i]);
        } else if 9 <= i < 13 {
            assert(t[i] == h[i - 1]);
        } else if 14 <= i < 18 {
            assert(t[i] == h[i - 2]);
        } else if 19 <= i < 23 {
            assert(t[i] == h[i - 3]);
        } else if 24 <= i {
            assert(t[i] == h[i - 4]);
        }
    }
}

/// Two UUIDs with the same text are the same UUID.
pub proof fn law_uuid_text_injective(a: u128, b: u128)
    requires
        uuid_text(a) == uuid_text(b),
    ensures
        a == b,
{
    law_uuid_round_trip(a);
    law_uuid_round_trip(b);
}

} // verus!
