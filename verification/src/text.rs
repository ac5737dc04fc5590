//! Numbers as text, and searching text.

use vstd::prelude::*;
use vstd::string::StringExecFns;

verus! {

/// The digit of a value below sixteen; letters are upper case.
pub open spec fn digit_char(d: nat) -> char {
    if d < 10 {
        (('0' as nat) + d) as char
    } else {
        (('A' as nat) + (d - 10)) as char
    }
}

/// The decimal digits of `n`, without leading zeros (zero itself is one digit).
pub open spec fn decimal(n: nat) -> Seq<char>
    decreases n,
{
    if n < 10 {
        seq![digit_char(n)]
    } else {
        decimal(n / 10) + seq![digit_char(n % 10)]
    }
}

/// A byte as two upper-case hexadecimal digits.
pub open spec fn hex_byte(v: u8) -> Seq<char> {
    seq![digit_char((v / 16) as nat), digit_char((v % 16) as nat)]
}

/// `part` stands somewhere in `whole`.
pub open spec fn has_part(whole: Seq<char>, part: Seq<char>) -> bool {
    exists|i: int| #[trigger] part_at(whole, part, i)
}

/// `part` stands in `whole` at position `i`.
pub open spec fn part_at(whole: Seq<char>, part: Seq<char>, i: int) -> bool {
    0 <= i && i + part.len() <= whole.len() && whole.subrange(i, i + part.len()) == part
}

fn digit_text(d: u8) -> (text: &'static str)
    requires
        d < 16,
    ensures
        text@ == seq![digit_char(d as nat)],
{
    proof {
        reveal_strlit("0");
        reveal_strlit("1");
        reveal_strlit("2");
        reveal_strlit("3");
        reveal_strlit("4");
        reveal_strlit("5");
        reveal_strlit("6");
        reveal_strlit("7");
        reveal_strlit("8");
        reveal_strlit("9");
        reveal_strlit("A");
        reveal_strlit("B");
        reveal_strlit("C");
        reveal_strlit("D");
        reveal_strlit("E");
        reveal_strlit("F");
    }
    match d {
        0 => "0",
        1 => "1",
        2 => "2",
        3 => "3",
        4 => "4",
        5 => "5",
        6 => "6",
        7 => "7",
        8 => "8",
        9 => "9",
        10 => "A",
        11 => "B",
        12 => "C",
        13 => "D",
        14 => "E",
        _ => "F",
    }
}

/// Appends the decimal digits of `n`.
pub fn push_decimal(out: &mut String, n: u64)
    ensures
        final(out)@ == old(out)@ + decimal(n as nat),
    decreases n,
{
    if n >= 10 {
        push_decimal(out, n / 10);
    }
    out.append(digit_text((n % 10) as u8));
    assert(out@ =~= old(out)@ + decimal(n as nat));
}

/// Appends the decimal digits of a wide number.
pub fn push_wide_decimal(out: &mut String, n: u128)
    ensures
        final(out)@ == old(out)@ + decimal(n as nat),
    decreases n,
{
    if n >= 10 {
        push_wide_decimal(out, n / 10);
    }
    out.append(digit_text((n % 10) as u8));
    assert(out@ =~= old(out)@ + decimal(n as nat));
}

/// Appends a byte as two upper-case hexadecimal digits.
pub fn push_hex_byte(out: &mut String, v: u8)
    ensures
        final(out)@ == old(out)@ + hex_byte(v),
{
    out.append(digit_text(v / 16));
    out.append(digit_text(v % 16));
    assert(out@ =~= old(out)@ + hex_byte(v));
}

/// `prefix` followed by the decimal digits of `n`.
pub fn with_number(prefix: &str, n: u64) -> (text: String)
    ensures
        text@ == prefix@ + decimal(n as nat),
{
    let mut text = prefix.to_string();
    push_decimal(&mut text, n);
    text
}

/// The characters of `s`.
pub fn chars_of(s: &str) -> (chars: Vec<char>)
    ensures
        chars@ == s@,
{
    let mut out: Vec<char> = Vec::new();
    for c in it: s.chars()
        invariant
            out@ == it.seq().take(it.index() as int),
            it.seq() == s@,
    {
        out.push(c);
    }
    assert(out@ =~= s@);
    out
}

/// Whether `part` stands somewhere in `whole`.
pub fn contains(whole: &str, part: &str) -> (found: bool)
    ensures
        found == has_part(whole@, part@),
{
    let w: Vec<char> = chars_of(whole);
    let p: Vec<char> = chars_of(part);
    if p.len() > w.len() {
        return false;
    }
    let total: usize = w.len();
    let last: usize = total - p.len();
    let mut i: usize = 0;
    loop
        invariant
            w@ == whole@,
            p@ == part@,
            w@.len() == total,
            last == w@.len() - p@.len(),
            i <= last,
            forall|k: int| 0 <= k < i ==> !part_at(whole@, part@, k),
        decreases last - i,
    {
        let mut j: usize = 0;
        while j < p.len() && w[i + j] == p[j]
            invariant
                last == w@.len() - p@.len(),
                i <= last,
                w@.len() == total,
                j <= p@.len(),
                forall|k: int| 0 <= k < j ==> w@[i + k] == p@[k],
            decreases p.len() - j,
        {
            j += 1;
        }
        if j == p.len() {
            assert(whole@.subrange(i as int, i + part@.len()) =~= part@);
            assert(part_at(whole@, part@, i as int));
            return true;
        }
        assert(whole@.subrange(i as int, i + part@.len())[j as int] != part@[j as int]);
        if i == last {
            return false;
        }
        i += 1;
    }
}

/// What the standard library's lossy decoding makes of bytes that are not valid UTF-8.
pub uninterp spec fn utf8_replaced(data: Seq<u8>) -> Seq<char>;

/// The text that `data` encodes in UTF-8; where it is not valid UTF-8, the text with
/// replacement characters in it.
pub open spec fn utf8_lossy(data: Seq<u8>) -> Seq<char> {
    if vstd::utf8::valid_utf8(data) {
        vstd::utf8::decode_utf8(data)
    } else {
        utf8_replaced(data)
    }
}

/// `String::from_utf8_lossy`: valid UTF-8 comes back as the text it encodes; of other bytes
/// it is claimed only that the text is a function of them.
#[verifier::external_body]
pub(crate) fn from_utf8_lossy(data: &[u8]) -> (s: String)
    ensures
        vstd::utf8::valid_utf8(data@) ==> s@ == vstd::utf8::decode_utf8(data@),
        !vstd::utf8::valid_utf8(data@) ==> s@ == utf8_replaced(data@),
{
    String::from_utf8_lossy(data).to_string()
}

/// The lower-case hexadecimal digit of a value below sixteen.
pub open spec fn hex_digit(v: nat) -> char {
    if v < 10 {
        (('0' as nat) + v) as char
    } else {
        (('a' as nat) + (v - 10)) as char
    }
}

/// Two lower-case hexadecimal digits for each byte.
pub open spec fn hex_text(data: Seq<u8>) -> Seq<char> {
    Seq::new(
        2 * data.len(),
        |i: int|
            hex_digit(
                if i % 2 == 0 {
                    (data[i / 2] / 16) as nat
                } else {
                    (data[i / 2] % 16) as nat
                },
            ),
    )
}

/// `hex::encode`: each byte as two lower-case hexadecimal digits, the high half first.
#[verifier::external_body]
pub(crate) fn hex_encode(data: &[u8]) -> (s: String)
    ensures
        s@ == hex_text(data@),
{
    hex::encode(data)
}

} // verus!
