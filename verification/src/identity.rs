//! Node identity: the long-term static key of the encrypted transport, and its file.
//!
//! The file holds 64 hexadecimal digits. A file that is there but cannot be read as that is
//! an error: a node never starts with a replaced identity.

use crate::text;
use vstd::prelude::*;
use vstd::string::StringExecFns;
use zeroize::Zeroize;

verus! {

/// Name of the identity file inside the data directory.
pub const IDENTITY_FILE_NAME: &'static str = "noise_identity";

/// The byte stands for a hexadecimal digit, in upper or lower case.
pub open spec fn is_hex_digit(c: u8) -> bool {
    ||| 0x30 <= c <= 0x39
    ||| 0x41 <= c <= 0x46
    ||| 0x61 <= c <= 0x66
}

/// The value of a hexadecimal digit.
pub open spec fn hex_value(c: u8) -> int {
    if c <= 0x39 {
        c - 0x30
    } else if c <= 0x46 {
        c - 0x41 + 10
    } else {
        c - 0x61 + 10
    }
}

/// Every byte stands for a hexadecimal digit.
pub open spec fn all_hex(s: Seq<u8>) -> bool {
    forall|i: int| 0 <= i < s.len() ==> is_hex_digit(#[trigger] s[i])
}

/// The bytes that pairs of hexadecimal digits stand for.
pub open spec fn hex_bytes(s: Seq<u8>) -> Seq<u8> {
    Seq::new(s.len() / 2, |i: int| (hex_value(s[2 * i]) * 16 + hex_value(s[2 * i + 1])) as u8)
}

/// `hex::FromHexError`: why a text is not the hexadecimal form of so many bytes. It is
/// carried through, and nothing is claimed of it.
#[verifier::external_type_specification]
#[verifier::external_body]
pub struct ExFromHexError(hex::FromHexError);

/// `hex::decode_to_slice` into 32 bytes: it succeeds on 64 hexadecimal digits of either case
/// and on nothing else, and gives the byte of each pair of digits.
#[verifier::external_body]
fn hex_decode_32(digits: &[u8]) -> (res: Result<[u8; 32], hex::FromHexError>)
    ensures
        res is Ok == (digits@.len() == 64 && all_hex(digits@)),
        res is Ok ==> res->Ok_0@ == hex_bytes(digits@),
{
    let mut out = [0u8; 32];
    hex::decode_to_slice(digits, &mut out).map(|_| out)
}

/// `std::str::from_utf8`: it succeeds on valid UTF-8 and on nothing else.
#[verifier::external_body]
fn is_utf8(data: &[u8]) -> (valid: bool)
    ensures
        valid == vstd::utf8::valid_utf8(data@),
{
    std::str::from_utf8(data).is_ok()
}

/// `zeroize::Zeroize::zeroize` on a byte array: every byte becomes zero, by writes that are
/// not optimised away.
#[verifier::external_body]
fn wipe(private: &mut [u8; 32])
    ensures
        forall|i: int| 0 <= i < 32 ==> final(private)@[i] == 0,
    opens_invariants none
    no_unwind
{
    private.zeroize();
}

/// The byte is an ASCII white-space character.
pub open spec fn is_space(c: u8) -> bool {
    c == 0x20 || c == 0x09 || c == 0x0A || c == 0x0C || c == 0x0D
}

/// `s` without the white space at its start.
pub open spec fn trim_start(s: Seq<u8>) -> Seq<u8>
    decreases s.len(),
{
    if s.len() > 0 && is_space(s[0]) {
        trim_start(s.subrange(1, s.len() as int))
    } else {
        s
    }
}

/// `s` without the white space at its end.
pub open spec fn trim_end(s: Seq<u8>) -> Seq<u8>
    decreases s.len(),
{
    if s.len() > 0 && is_space(s.last()) {
        trim_end(s.drop_last())
    } else {
        s
    }
}

/// `s` without the white space around it.
pub open spec fn trimmed(s: Seq<u8>) -> Seq<u8> {
    trim_end(trim_start(s))
}

/// Every byte is zero.
pub open spec fn all_zero(s: Seq<u8>) -> bool {
    forall|i: int| 0 <= i < s.len() ==> s[i] == 0
}

/// The private key in an identity file, or why there is none.
pub open spec fn file_key(data: Seq<u8>) -> Result<Seq<u8>, Seq<char>> {
    let digits = trimmed(data);
    if !vstd::utf8::valid_utf8(data) {
        Err("not valid UTF-8"@)
    } else if digits.len() != 64 {
        Err("expected exactly 64 hex characters"@)
    } else if !all_hex(digits) {
        Err("non-hex characters present"@)
    } else if all_zero(hex_bytes(digits)) {
        Err("degenerate static key (all zero)"@)
    } else {
        Ok(hex_bytes(digits))
    }
}

/// The private half of the static key. It has no textual form: what is shown of an identity
/// is made from the public half alone.
pub struct NodeIdentity {
    private: [u8; 32],
}

impl View for NodeIdentity {
    type V = Seq<u8>;

    closed spec fn view(&self) -> Seq<u8> {
        self.private@
    }
}

impl Drop for NodeIdentity {
    fn drop(&mut self)
        opens_invariants none
        no_unwind
    {
        wipe(&mut self.private);
    }
}

/// What reading the identity file gave.
pub enum FileRead {
    Contents(Vec<u8>),
    Missing,
    Failed,
}

/// What a start does about its identity.
pub enum Startup {
    /// The file's identity is used.
    Use(NodeIdentity),
    /// A fresh identity is made and written.
    Create,
    /// The node does not start, for the given reason.
    Refuse(String),
    /// The node does not start: the file could not be read.
    Fail,
}

impl NodeIdentity {
    /// The identity with the given private key.
    pub fn from_private(private: [u8; 32]) -> (identity: NodeIdentity)
        ensures
            identity@ == private@,
    {
        NodeIdentity { private }
    }

    /// Reads an identity file: white space around exactly 64 hexadecimal digits is ignored,
    /// and the key is not all zero.
    pub fn parse_file(data: &[u8]) -> (res: Result<NodeIdentity, &'static str>)
        ensures
            match (res, file_key(data@)) {
                (Ok(identity), Ok(key)) => identity@ == key,
                (Err(reason), Err(text)) => reason@ == text,
                _ => false,
            },
    {
        if !is_utf8(data) {
            return Err("not valid UTF-8");
        }
        let digits: &[u8] = trim(data);
        if digits.len() != 64 {
            return Err("expected exactly 64 hex characters");
        }
        if !only_hex(digits) {
            return Err("non-hex characters present");
        }
        let mut private: [u8; 32] = match hex_decode_32(digits) {
            Ok(private) => private,
            Err(_) => {
                return Err("hex decode failed");
            },
        };
        if only_zero(&private) {
            wipe(&mut private);
            return Err("degenerate static key (all zero)");
        }
        Ok(NodeIdentity { private })
    }

    /// What is written to the identity file.
    pub fn file_contents(&self) -> (contents: String)
        ensures
            contents@ == text::hex_text(self@),
    {
        text::hex_encode(&self.private)
    }

    /// What a start does about its identity, given what reading the file gave. `path` is
    /// where the file is.
    pub fn startup(path: &str, read: &FileRead) -> (startup: Startup)
        ensures
            match *read {
                FileRead::Contents(data) => match file_key(data@) {
                    Ok(key) => startup matches Startup::Use(identity) && identity@ == key,
                    Err(reason) => startup matches Startup::Refuse(text) && text@
                        == "invalid node identity file "@ + path@ + ": "@ + reason
                        + ". Restore it from backup; the node will not start with a replaced identity."@,
                },
                FileRead::Missing => startup is Create,
                FileRead::Failed => startup is Fail,
            },
    {
        match read {
            FileRead::Contents(data) => {
                match Self::parse_file(data.as_slice()) {
                    Ok(identity) => Startup::Use(identity),
                    Err(reason) => {
                        let mut text = "invalid node identity file ".to_string();
                        text.append(path);
                        text.append(": ");
                        text.append(reason);
                        text.append(
                            ". Restore it from backup; the node will not start with a replaced identity.",
                        );
                        Startup::Refuse(text)
                    },
                }
            },
            FileRead::Missing => Startup::Create,
            FileRead::Failed => Startup::Fail,
        }
    }

    /// The name of the file that is written first and then renamed.
    pub fn temp_file_name(process_id: u32) -> (name: String)
        ensures
            name@ == IDENTITY_FILE_NAME@ + ".tmp."@ + text::decimal(process_id as nat),
    {
        let mut name = IDENTITY_FILE_NAME.to_string();
        name.append(".tmp.");
        text::push_decimal(&mut name, process_id as u64);
        name
    }

    /// The raw private key.
    pub fn private_bytes(&self) -> (private: &[u8; 32])
        ensures
            private@ == self@,
    {
        &self.private
    }

    /// A public key as text.
    pub fn public_hex(public_key: &[u8; 32]) -> (s: String)
        ensures
            s@ == text::hex_text(public_key@),
    {
        text::hex_encode(public_key)
    }

    /// What may be shown of the identity with the given public key.
    pub fn describe(public_key: &[u8; 32]) -> (s: String)
        ensures
            s@ == "NodeIdentity { public: \""@ + text::hex_text(public_key@)
                + "\", private: \"<redacted>\" }"@,
    {
        let mut s = "NodeIdentity { public: \"".to_string();
        let public: String = text::hex_encode(public_key);
        s.append(public.as_str());
        s.append("\", private: \"<redacted>\" }");
        s
    }
}

fn space(c: u8) -> (b: bool)
    ensures
        b == is_space(c),
{
    c == 0x20 || c == 0x09 || c == 0x0A || c == 0x0C || c == 0x0D
}

/// `s` without the white space around it.
fn trim(s: &[u8]) -> (t: &[u8])
    ensures
        t@ == trimmed(s@),
{
    let mut from: usize = 0;
    let mut to: usize = s.len();
    assert(s@.subrange(0, s@.len() as int) =~= s@);
    while from < to && space(s[from])
        invariant
            from <= to == s@.len(),
            trim_start(s@) == trim_start(s@.subrange(from as int, to as int)),
        decreases to - from,
    {
        proof {
            let rest = s@.subrange(from as int, to as int);
            assert(rest.subrange(1, rest.len() as int) =~= s@.subrange(from + 1, to as int));
        }
        from += 1;
    }
    while from < to && space(s[to - 1])
        invariant
            from <= to <= s@.len(),
            trimmed(s@) == trim_end(s@.subrange(from as int, to as int)),
        decreases to - from,
    {
        proof {
            let rest = s@.subrange(from as int, to as int);
            assert(rest.drop_last() =~= s@.subrange(from as int, to - 1));
        }
        to -= 1;
    }
    vstd::slice::slice_subrange(s, from, to)
}

fn only_hex(s: &[u8]) -> (b: bool)
    ensures
        b == all_hex(s@),
{
    let mut i: usize = 0;
    while i < s.len()
        invariant
            i <= s@.len(),
            forall|k: int| 0 <= k < i ==> is_hex_digit(#[trigger] s@[k]),
        decreases s.len() - i,
    {
        let c: u8 = s[i];
        if !((0x30 <= c && c <= 0x39) || (0x41 <= c && c <= 0x46) || (0x61 <= c && c <= 0x66)) {
            assert(!is_hex_digit(s@[i as int]));
            return false;
        }
        i += 1;
    }
    true
}

fn only_zero(s: &[u8; 32]) -> (b: bool)
    ensures
        b == all_zero(s@),
{
    let mut i: usize = 0;
    while i < 32
        invariant
            i <= 32,
            forall|k: int| 0 <= k < i ==> s@[k] == 0,
        decreases 32 - i,
    {
        if s[i] != 0 {
            return false;
        }
        i += 1;
    }
    true
}

proof fn lemma_ascii_is_utf8(s: Seq<u8>)
    requires
        forall|i: int| 0 <= i < s.len() ==> s[i] < 0x80,
    ensures
        vstd::utf8::valid_utf8(s),
    decreases s.len(),
{
    if s.len() > 0 {
        let b = s[0];
        assert(b < 0x80 ==> (b & 0x7F) as u32 <= 0x7F) by (bit_vector);
        let rest = vstd::utf8::pop_first_scalar(s);
        assert(rest =~= s.subrange(1, s.len() as int));
        lemma_ascii_is_utf8(rest);
    }
}

proof fn lemma_no_space_to_trim(s: Seq<u8>)
    requires
        all_hex(s),
    ensures
        trimmed(s) == s,
{
    if s.len() > 0 {
        assert(is_hex_digit(s[0]));
        assert(is_hex_digit(s[s.len() - 1]));
    }
}

/// The bytes of an identity file that was written for a key give the same key back, also with
/// white space after them, as an editor may add.
pub proof fn identity_file_round_trip(key: Seq<u8>, data: Seq<u8>)
    requires
        key.len() == 32,
        !all_zero(key),
        data.len() == 64,
        forall|i: int| 0 <= i < 64 ==> data[i] as char == text::hex_text(key)[i],
    ensures
        file_key(data) == Ok::<Seq<u8>, Seq<char>>(key),
        file_key(data.push(0x0A)) == Ok::<Seq<u8>, Seq<char>>(key),
{
    assert forall|i: int| 0 <= i < 64 implies is_hex_digit(#[trigger] data[i]) && hex_value(data[i])
        == (if i % 2 == 0 {
        key[i / 2] / 16
    } else {
        key[i / 2] % 16
    }) by {
        assert(data[i] as char == text::hex_text(key)[i]);
    }
    let line = data.push(0x0A);
    lemma_ascii_is_utf8(data);
    lemma_ascii_is_utf8(line);
    lemma_no_space_to_trim(data);
    assert(trim_start(line) == line) by {
        assert(line[0] == data[0]);
        assert(is_hex_digit(data[0]));
    }
    assert(trim_end(line) == trim_end(data)) by {
        assert(line.drop_last() =~= data);
    }
    assert(hex_bytes(data) =~= key) by {
        assert forall|i: int| 0 <= i < 32 implies hex_bytes(data)[i] == key[i] by {
            assert(is_hex_digit(data[2 * i]) && hex_value(data[2 * i]) == key[i] / 16);
            assert(is_hex_digit(data[2 * i + 1]) && hex_value(data[2 * i + 1]) == key[i] % 16);
        }
    }
}

/// No identity comes from a file of which, without the white space around it, anything but 64
/// hexadecimal digits is left.
pub proof fn malformed_identity_refused(data: Seq<u8>)
    requires
        trimmed(data).len() != 64 || !all_hex(trimmed(data)),
    ensures
        file_key(data) is Err,
{
}

/// A byte that an identity file may have around its digits: a space, a tab, or the end of a line or
/// of a page.
pub open spec fn blank(c: u8) -> bool {
    c == 32 || c == 9 || c == 10 || c == 12 || c == 13
}

/// The value of a digit: nought to nine, and A to F in either case.
pub open spec fn digit_value(c: u8) -> Option<int> {
    if 48 <= c <= 57 {
        Some(c - 48)
    } else if 65 <= c <= 70 {
        Some(c - 55)
    } else if 97 <= c <= 102 {
        Some(c - 87)
    } else {
        None
    }
}

/// `digits` is `data` without the blanks around it.
pub open spec fn core_of(data: Seq<u8>, digits: Seq<u8>, before: int) -> bool {
    &&& 0 <= before && before + digits.len() <= data.len()
    &&& digits == data.subrange(before, before + digits.len())
    &&& forall|i: int| 0 <= i < before ==> blank(#[trigger] data[i])
    &&& forall|i: int| before + digits.len() <= i < data.len() ==> blank(#[trigger] data[i])
    &&& digits.len() > 0 ==> !blank(digits[0]) && !blank(digits[digits.len() - 1])
}

/// A file is read by what stands between its blanks: it has a key exactly when that is sixty-four
/// hexadecimal digits which are not all zero, and the key has the byte of each pair of them, the
/// higher digit first.
pub proof fn identity_is_read_by_its_digits(data: Seq<u8>, digits: Seq<u8>, before: int)
    requires
        core_of(data, digits, before),
        vstd::utf8::valid_utf8(data),
    ensures
        ({
            let hex = digits.len() == 64 && forall|i: int|
                0 <= i < 64 ==> digit_value(#[trigger] digits[i]) is Some;
            let naught = forall|i: int| 0 <= i < 64 ==> #[trigger] digits[i] == 48;
            &&& file_key(data) is Ok <==> hex && !naught
            &&& file_key(data) is Ok ==> file_key(data)->Ok_0.len() == 32 && forall|i: int|
                0 <= i < 32 ==> #[trigger] file_key(data)->Ok_0[i] == 16 * digit_value(
                    digits[2 * i],
                )->0 + digit_value(digits[2 * i + 1])->0
        }),
{
    lemma_trimmed_is_core(data, digits, before);
    assert(trimmed(data) == digits);
    if digits.len() == 64 && all_hex(digits) {
        let key = hex_bytes(digits);
        assert forall|i: int| 0 <= i < 64 implies digit_value(#[trigger] digits[i]) is Some by {
            assert(is_hex_digit(digits[i]));
        }
        assert forall|i: int| 0 <= i < 32 implies #[trigger] key[i] == 16 * digit_value(
            digits[2 * i],
        )->0 + digit_value(digits[2 * i + 1])->0 by {
            assert(is_hex_digit(digits[2 * i]) && is_hex_digit(digits[2 * i + 1]));
        }
        if all_zero(key) {
            assert forall|i: int| 0 <= i < 64 implies #[trigger] digits[i] == 48 by {
                assert(key[i / 2] == 0);
                assert(is_hex_digit(digits[2 * (i / 2)]));
                assert(is_hex_digit(digits[2 * (i / 2) + 1]));
            }
        } else {
            let i = choose|i: int| 0 <= i < key.len() && key[i] != 0;
            assert(digits[2 * i] != 48 || digits[2 * i + 1] != 48);
        }
    } else if digits.len() == 64 {
        let i = choose|i: int| 0 <= i < digits.len() && !is_hex_digit(#[trigger] digits[i]);
        assert(digit_value(digits[i]) is None);
    }
}

proof fn lemma_trimmed_is_core(data: Seq<u8>, digits: Seq<u8>, before: int)
    requires
        core_of(data, digits, before),
    ensures
        trimmed(data) == digits,
    decreases data.len(),
{
    if data.len() == 0 {
        assert(digits =~= data);
    } else if before > 0 {
        let rest = data.subrange(1, data.len() as int);
        assert(blank(data[0]));
        assert(digits =~= rest.subrange(before - 1, before - 1 + digits.len()));
        assert forall|i: int| 0 <= i < before - 1 implies blank(#[trigger] rest[i]) by {
            assert(rest[i] == data[i + 1]);
        }
        assert forall|i: int| before - 1 + digits.len() <= i < rest.len() implies blank(
            #[trigger] rest[i],
        ) by {
            assert(rest[i] == data[i + 1]);
        }
        lemma_trimmed_is_core(rest, digits, before - 1);
        assert(trim_start(data) == trim_start(rest));
    } else if digits.len() == 0 {
        let rest = data.subrange(1, data.len() as int);
        assert(blank(data[0]));
        assert forall|i: int| 0 <= i < rest.len() implies blank(#[trigger] rest[i]) by {
            assert(rest[i] == data[i + 1]);
        }
        assert(digits =~= rest.subrange(0, 0));
        lemma_trimmed_is_core(rest, digits, 0);
        assert(trim_start(data) == trim_start(rest));
    } else {
        assert(digits[0] == data[0]);
        assert(trim_start(data) == data);
        lemma_trim_end_is_core(data, digits);
    }
}

proof fn lemma_trim_end_is_core(data: Seq<u8>, digits: Seq<u8>)
    requires
        core_of(data, digits, 0),
        digits.len() > 0,
    ensures
        trim_end(data) == digits,
    decreases data.len(),
{
    if digits.len() == data.len() {
        assert(digits =~= data);
    } else {
        let rest = data.drop_last();
        assert(blank(data[data.len() - 1]));
        assert(digits =~= rest.subrange(0, digits.len() as int));
        assert forall|i: int| digits.len() <= i < rest.len() implies blank(#[trigger] rest[i]) by {
            assert(rest[i] == data[i]);
        }
        lemma_trim_end_is_core(rest, digits);
    }
}

} // verus!
