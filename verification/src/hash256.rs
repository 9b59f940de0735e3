//! 32-byte roots and hexadecimal text.
use std::str::FromStr;
use vstd::prelude::*;
use vstd::string::StrSliceExecFns;
use vstd::utf8::encode_utf8;

verus! {

/// A 32-byte root of a block or state.
#[derive(Clone, Copy, Debug, Eq)]
pub struct Hash256 {
    pub bytes: [u8; 32],
}

impl View for Hash256 {
    type V = Seq<u8>;

    open spec fn view(&self) -> Seq<u8> {
        self.bytes@
    }
}

impl PartialEq for Hash256 {
    fn eq(&self, other: &Self) -> (res: bool) {
        let mut i: usize = 0;
        while i < 32
            invariant
                i <= 32,
                forall|j: int| 0 <= j < i ==> self.bytes@[j] == other.bytes@[j],
            decreases 32 - i,
        {
            if self.bytes[i] != other.bytes[i] {
                return false;
            }
            i = i + 1;
        }
        assert(self.bytes =~= other.bytes);
        true
    }
}

impl vstd::std_specs::cmp::PartialEqSpecImpl for Hash256 {
    open spec fn obeys_eq_spec() -> bool {
        true
    }

    open spec fn eq_spec(&self, other: &Self) -> bool {
        *self == *other
    }
}

/// Two roots with the same bytes are the same root.
pub proof fn roots_equal_by_bytes(a: Hash256, b: Hash256)
    requires
        a@ == b@,
    ensures
        a == b,
{
    assert forall|i: int| 0 <= i < 32 implies a.bytes[i] == b.bytes[i] by {
        assert(a.bytes@[i] == b.bytes@[i]);
    }
    assert(a.bytes =~= b.bytes);
}

/// The root whose bytes are all zero.
pub open spec fn is_zero(bytes: Seq<u8>) -> bool {
    bytes =~= Seq::new(32, |i: int| 0u8)
}

impl Hash256 {
    /// The root whose bytes are all zero.
    pub fn zero() -> (res: Hash256)
        ensures
            is_zero(res@),
    {
        Hash256 { bytes: [0u8; 32] }
    }

    /// The root that holds the 32 bytes of `bytes`.
    pub fn from_slice(bytes: &Vec<u8>) -> (res: Hash256)
        requires
            bytes@.len() == 32,
        ensures
            res@ == bytes@,
    {
        let mut out: [u8; 32] = [0u8; 32];
        let mut i: usize = 0;
        while i < 32
            invariant
                i <= 32,
                bytes@.len() == 32,
                forall|j: int| 0 <= j < i ==> out@[j] == bytes@[j],
            decreases 32 - i,
        {
            out[i] = bytes[i];
            i = i + 1;
        }
        let res = Hash256 { bytes: out };
        assert(res@ =~= bytes@);
        res
    }
}

/// Why a text is not the hexadecimal notation of the bytes asked for.
#[derive(Clone, Copy, Debug, PartialEq, Eq, Structural)]
pub enum HexError {
    /// The byte `c`, `index` bytes into the digits, is no hexadecimal digit.
    InvalidHexCharacter { c: char, index: usize },
    /// The number of digits is odd.
    OddLength,
    /// The number of digits is not that of the bytes asked for.
    InvalidStringLength,
}

/// Why a text is not a root.
#[derive(Clone, Copy, Debug, PartialEq, Eq, Structural)]
pub enum RootError {
    /// Without its `0x` the text is not 64 bytes long.
    WrongLength { hex_chars: usize },
    /// The text is 64 bytes long, but they are not 64 hexadecimal digits.
    InvalidHex { cause: HexError },
}

/// Why a text is not the hexadecimal notation of a byte string.
#[derive(Clone, Copy, Debug, PartialEq, Eq, Structural)]
pub enum HexBytesError {
    /// Without its `0x` the text is an odd number of bytes long.
    OddLength,
    /// One of the bytes is not a hexadecimal digit.
    InvalidHex { cause: HexError },
}

/// The value of a hexadecimal digit, in either case.
pub open spec fn hex_value(b: u8) -> Option<int> {
    if 48 <= b <= 57 {
        Some(b - 48)
    } else if 65 <= b <= 70 {
        Some(b - 55)
    } else if 97 <= b <= 102 {
        Some(b - 87)
    } else {
        None
    }
}

/// The first position, from `from` on, that holds no hexadecimal digit.
pub open spec fn first_non_digit(digits: Seq<u8>, from: nat) -> nat
    decreases digits.len() - from,
{
    if from >= digits.len() || hex_value(digits[from as int]) is None {
        from
    } else {
        first_non_digit(digits, from + 1)
    }
}

/// The bytes that pairs of hexadecimal digits stand for.
pub open spec fn paired_digits(digits: Seq<u8>) -> Seq<u8> {
    Seq::new(
        digits.len() / 2,
        |i: int| (16 * hex_value(digits[2 * i])->0 + hex_value(digits[2 * i + 1])->0) as u8,
    )
}

/// What an even number of digits stands for, or the first of them that is none.
pub open spec fn digits_decoded(digits: Seq<u8>) -> Result<Seq<u8>, HexError> {
    let bad = first_non_digit(digits, 0);
    if bad < digits.len() {
        Err(HexError::InvalidHexCharacter { c: digits[bad as int] as char, index: bad as usize })
    } else {
        Ok(paired_digits(digits))
    }
}

/// What hexadecimal text of any length stands for.
pub open spec fn hex_decoded(digits: Seq<u8>) -> Result<Seq<u8>, HexError> {
    if digits.len() % 2 != 0 {
        Err(HexError::OddLength)
    } else {
        digits_decoded(digits)
    }
}

/// `digits` without a `0x` or `0X` in front.
pub open spec fn without_any_prefix(digits: Seq<u8>) -> Seq<u8> {
    if digits.len() >= 2 && digits[0] == 48 && (digits[1] == 120 || digits[1] == 88) {
        digits.skip(2)
    } else {
        digits
    }
}

/// What hexadecimal text that may have a prefix stands for, as 32 bytes.
pub open spec fn hex_decoded_32(digits: Seq<u8>) -> Result<Seq<u8>, HexError> {
    let rest = without_any_prefix(digits);
    if digits.len() % 2 != 0 {
        Err(HexError::OddLength)
    } else if rest.len() != 64 {
        Err(HexError::InvalidStringLength)
    } else {
        digits_decoded(rest)
    }
}

/// `hex::decode`: an odd number of bytes is refused; else the first byte that is no
/// hexadecimal digit is reported with its position; else the digits are taken in pairs, high
/// one first.
#[verifier::external_body]
fn hex_decode(value: &str) -> (res: Result<Vec<u8>, HexError>)
    ensures
        match res {
            Ok(bytes) => hex_decoded(encode_utf8(value@)) == Ok::<Seq<u8>, HexError>(bytes@),
            Err(e) => hex_decoded(encode_utf8(value@)) == Err::<Seq<u8>, HexError>(e),
        },
{
    match hex::decode(value) {
        Ok(bytes) => Ok(bytes),
        Err(hex::FromHexError::InvalidHexCharacter { c, index }) => {
            Err(HexError::InvalidHexCharacter { c, index })
        },
        Err(hex::FromHexError::OddLength) => Err(HexError::OddLength),
        Err(hex::FromHexError::InvalidStringLength) => Err(HexError::InvalidStringLength),
    }
}

/// `alloy_primitives::B256::from_str`: an odd number of bytes is refused; then a `0x` or `0X`
/// in front is left out, what remains must be 64 bytes, and they must be hexadecimal digits,
/// of which the first that is none is reported with its position behind the prefix.
#[verifier::external_body]
fn b256_from_str(value: &str) -> (res: Result<Hash256, HexError>)
    ensures
        match res {
            Ok(root) => hex_decoded_32(encode_utf8(value@)) == Ok::<Seq<u8>, HexError>(root@),
            Err(e) => hex_decoded_32(encode_utf8(value@)) == Err::<Seq<u8>, HexError>(e),
        },
{
    match alloy_primitives::B256::from_str(value) {
        Ok(root) => Ok(Hash256 { bytes: root.0 }),
        Err(alloy_primitives::hex::FromHexError::InvalidHexCharacter { c, index }) => {
            Err(HexError::InvalidHexCharacter { c, index })
        },
        Err(alloy_primitives::hex::FromHexError::OddLength) => Err(HexError::OddLength),
        Err(alloy_primitives::hex::FromHexError::InvalidStringLength) => {
            Err(HexError::InvalidStringLength)
        },
    }
}

/// The lower-case hexadecimal digit for `v`, for `v < 16`.
pub open spec fn nibble_char(v: int) -> char {
    if v < 10 {
        (48 + v) as char
    } else {
        (87 + v) as char
    }
}

/// The lower-case hexadecimal notation of `bytes`.
pub open spec fn lower_hex(bytes: Seq<u8>) -> Seq<char> {
    Seq::new(
        2 * bytes.len(),
        |i: int| nibble_char(if i % 2 == 0 { bytes[i / 2] as int / 16 } else { bytes[i / 2] as int % 16 }),
    )
}

/// How a root is written: `0x` and its bytes in lower-case hexadecimal.
pub open spec fn root_text(bytes: Seq<u8>) -> Seq<char> {
    seq!['0', 'x'] + lower_hex(bytes)
}

/// The `Debug` form of `alloy_primitives::B256`: `0x`, then two lower-case hexadecimal digits
/// for each byte.
#[verifier::external_body]
pub(crate) fn b256_debug(root: &Hash256) -> (res: String)
    ensures
        res@ == root_text(root@),
{
    format!("{:?}", alloy_primitives::B256::from(root.bytes))
}

/// `text` without a `0x` in front.
pub open spec fn without_prefix(text: Seq<char>) -> Seq<char> {
    if text.len() >= 2 && text[0] == '0' && text[1] == 'x' {
        text.skip(2)
    } else {
        text
    }
}

fn strip_prefix(text: &str) -> (res: &str)
    ensures
        res@ == without_prefix(text@),
{
    let n = text.unicode_len();
    if n >= 2 && text.get_char(0) == '0' && text.get_char(1) == 'x' {
        let res = text.substring_char(2, n);
        assert(res@ =~= text@.skip(2));
        res
    } else {
        text
    }
}

/// What `parse_root` makes of a text.
pub open spec fn root_parsed(text: Seq<char>) -> Result<Seq<u8>, RootError> {
    let digits = encode_utf8(without_prefix(text));
    if digits.len() != 64 {
        Err(RootError::WrongLength { hex_chars: digits.len() as usize })
    } else {
        match hex_decoded_32(digits) {
            Ok(bytes) => Ok(bytes),
            Err(cause) => Err(RootError::InvalidHex { cause }),
        }
    }
}

/// Reads a root: 64 hexadecimal digits, in either case, with or without `0x` in front.
pub fn parse_root(root: &str) -> (res: Result<Hash256, RootError>)
    ensures
        match res {
            Ok(hash) => root_parsed(root@) == Ok::<Seq<u8>, RootError>(hash@),
            Err(e) => root_parsed(root@) == Err::<Seq<u8>, RootError>(e),
        },
{
    let digits = strip_prefix(root);
    let hex_chars = digits.as_bytes().len();
    if hex_chars != 64 {
        return Err(RootError::WrongLength { hex_chars });
    }
    match b256_from_str(digits) {
        Ok(hash) => Ok(hash),
        Err(cause) => Err(RootError::InvalidHex { cause }),
    }
}

/// What `parse_hex_bytes` makes of a text.
pub open spec fn hex_bytes_parsed(text: Seq<char>) -> Result<Seq<u8>, HexBytesError> {
    let digits = encode_utf8(without_prefix(text));
    if digits.len() % 2 != 0 {
        Err(HexBytesError::OddLength)
    } else {
        match digits_decoded(digits) {
            Ok(bytes) => Ok(bytes),
            Err(cause) => Err(HexBytesError::InvalidHex { cause }),
        }
    }
}

/// Reads a byte string of any length from its hexadecimal notation, with or without `0x` in
/// front.
pub fn parse_hex_bytes(value: &str) -> (res: Result<Vec<u8>, HexBytesError>)
    ensures
        match res {
            Ok(bytes) => hex_bytes_parsed(value@) == Ok::<Seq<u8>, HexBytesError>(bytes@),
            Err(e) => hex_bytes_parsed(value@) == Err::<Seq<u8>, HexBytesError>(e),
        },
{
    let digits = strip_prefix(value);
    if digits.as_bytes().len() % 2 != 0 {
        return Err(HexBytesError::OddLength);
    }
    match hex_decode(digits) {
        Ok(bytes) => Ok(bytes),
        Err(cause) => Err(HexBytesError::InvalidHex { cause }),
    }
}

/// What `parse_hex_hash` makes of a text.
pub open spec fn hex_hash_parsed(text: Seq<char>) -> Result<Seq<u8>, RootError> {
    let digits = encode_utf8(without_prefix(text));
    if digits.len() != 64 {
        Err(RootError::WrongLength { hex_chars: digits.len() as usize })
    } else {
        match digits_decoded(digits) {
            Ok(bytes) => Ok(bytes),
            Err(cause) => Err(RootError::InvalidHex { cause }),
        }
    }
}

/// Reads a root from 64 hexadecimal digits with or without `0x` in front.
pub fn parse_hex_hash(s: &str) -> (res: Result<Hash256, RootError>)
    ensures
        match res {
            Ok(hash) => hex_hash_parsed(s@) == Ok::<Seq<u8>, RootError>(hash@),
            Err(e) => hex_hash_parsed(s@) == Err::<Seq<u8>, RootError>(e),
        },
{
    let digits = strip_prefix(s);
    let hex_chars = digits.as_bytes().len();
    if hex_chars != 64 {
        return Err(RootError::WrongLength { hex_chars });
    }
    match hex_decode(digits) {
        Ok(bytes) => Ok(Hash256::from_slice(&bytes)),
        Err(cause) => Err(RootError::InvalidHex { cause }),
    }
}

proof fn lemma_all_digits(digits: Seq<u8>, from: nat)
    requires
        from <= digits.len(),
        forall|i: int| from <= i < digits.len() ==> hex_value(#[trigger] digits[i]) is Some,
    ensures
        first_non_digit(digits, from) == digits.len(),
    decreases digits.len() - from,
{
    if from < digits.len() {
        lemma_all_digits(digits, from + 1);
    }
}

proof fn lemma_first_non_digit(digits: Seq<u8>, from: nat, bad: nat)
    requires
        from <= bad < digits.len(),
        hex_value(digits[bad as int]) is None,
    ensures
        first_non_digit(digits, from) <= bad,
    decreases bad - from,
{
    if from < bad {
        lemma_first_non_digit(digits, from + 1, bad);
    }
}

/// A root that was written reads back as the same root.
pub proof fn written_root_reads_back(bytes: Seq<u8>)
    requires
        bytes.len() == 32,
    ensures
        root_parsed(root_text(bytes)) == Ok::<Seq<u8>, RootError>(bytes),
        hex_hash_parsed(root_text(bytes)) == Ok::<Seq<u8>, RootError>(bytes),
{
    let text = lower_hex(bytes);
    let digits = encode_utf8(text);
    assert(without_prefix(root_text(bytes)) =~= text);
    assert forall|i: int| 0 <= i < text.len() implies 48 <= #[trigger] text[i] as int <= 102 by {
        let b = bytes[i / 2] as int;
        assert(0 <= b / 16 < 16 && 0 <= b % 16 < 16);
    }
    vstd::utf8::is_ascii_chars_encode_utf8(text);
    assert forall|i: int| 0 <= i < 64 implies hex_value(#[trigger] digits[i]) == Some(
        if i % 2 == 0 { bytes[i / 2] as int / 16 } else { bytes[i / 2] as int % 16 },
    ) by {
        let b = bytes[i / 2] as int;
        assert(0 <= b / 16 < 16 && 0 <= b % 16 < 16);
        assert(digits[i] == text[i] as u8);
    }
    lemma_all_digits(digits, 0);
    assert(hex_value(digits[1]) is Some);
    assert forall|i: int| 0 <= i < 32 implies paired_digits(digits)[i] == bytes[i] by {
        assert(hex_value(digits[2 * i])->0 == bytes[i] as int / 16);
        assert(hex_value(digits[2 * i + 1])->0 == bytes[i] as int % 16);
    }
    assert(paired_digits(digits) =~= bytes);
}

/// The two ways to read a root accept the same texts and read the same root from them.
pub proof fn root_readers_agree(text: Seq<char>)
    ensures
        root_parsed(text) is Ok <==> hex_hash_parsed(text) is Ok,
        root_parsed(text) is Ok ==> root_parsed(text) == hex_hash_parsed(text),
{
    let digits = encode_utf8(without_prefix(text));
    if digits.len() == 64 && without_any_prefix(digits) != digits {
        lemma_first_non_digit(digits, 0, 1);
    }
}

/// A `0x` in front of a text that has none changes nothing of how the text reads.
pub proof fn prefix_is_optional(text: Seq<char>)
    requires
        without_prefix(text) == text,
    ensures
        root_parsed(seq!['0', 'x'] + text) == root_parsed(text),
        hex_hash_parsed(seq!['0', 'x'] + text) == hex_hash_parsed(text),
        hex_bytes_parsed(seq!['0', 'x'] + text) == hex_bytes_parsed(text),
{
    assert(without_prefix(seq!['0', 'x'] + text) =~= text);
}

/// Which texts are roots: those that are, without a `0x` in front, 64 hexadecimal digits in either
/// case. A text of another length is refused with that length.
pub proof fn which_texts_are_roots(text: Seq<char>)
    requires
        encode_utf8(without_prefix(text)).len() <= usize::MAX,
    ensures
        ({
            let digits = encode_utf8(without_prefix(text));
            &&& root_parsed(text) is Ok <==> digits.len() == 64 && forall|i: int|
                0 <= i < 64 ==> is_hex_digit(#[trigger] digits[i])
            &&& hex_hash_parsed(text) is Ok <==> digits.len() == 64 && forall|i: int|
                0 <= i < 64 ==> is_hex_digit(#[trigger] digits[i])
            &&& digits.len() != 64 ==> {
                &&& root_parsed(text) matches Err(RootError::WrongLength { hex_chars }) && hex_chars
                    == digits.len()
                &&& hex_hash_parsed(text) == root_parsed(text)
            }
            &&& digits.len() == 64 && root_parsed(text) is Err ==> {
                &&& root_parsed(text)->Err_0 is InvalidHex
                &&& hex_hash_parsed(text)->Err_0 is InvalidHex
            }
        }),
{
    let digits = encode_utf8(without_prefix(text));
    root_readers_agree(text);
    if digits.len() == 64 {
        lemma_bad_digit(digits, 0);
        if forall|i: int| 0 <= i < 64 ==> is_hex_digit(#[trigger] digits[i]) {
            assert forall|i: int| 0 <= i < digits.len() implies hex_value(
                #[trigger] digits[i],
            ) is Some by {
                assert(is_hex_digit(digits[i]));
            }
            lemma_all_digits(digits, 0);
        } else {
            let bad = choose|i: int| 0 <= i < 64 && !is_hex_digit(#[trigger] digits[i]);
            lemma_first_non_digit(digits, 0, bad as nat);
        }
    }
}

/// Whether a byte is one of the characters 0 to 9, a to f or A to F.
pub open spec fn is_hex_digit(b: u8) -> bool {
    ('0' as u8 <= b <= '9' as u8) || ('a' as u8 <= b <= 'f' as u8) || ('A' as u8 <= b <= 'F' as u8)
}

proof fn lemma_bad_digit(digits: Seq<u8>, from: nat)
    requires
        from <= digits.len(),
    ensures
        ({
            let bad = first_non_digit(digits, from);
            &&& from <= bad <= digits.len()
            &&& bad < digits.len() ==> hex_value(digits[bad as int]) is None
            &&& forall|i: int| from <= i < bad ==> hex_value(#[trigger] digits[i]) is Some
        }),
    decreases digits.len() - from,
{
    if from < digits.len() && hex_value(digits[from as int]) is Some {
        lemma_bad_digit(digits, from + 1);
    }
}

/// What digits stand for: each byte is sixteen times the value of one digit, and that of the next.
/// Where there is something else among the digits, the first of these is named with its
/// position.
pub proof fn digits_stand_for_bytes(digits: Seq<u8>)
    requires
        digits.len() % 2 == 0,
        digits.len() <= usize::MAX,
    ensures
        match digits_decoded(digits) {
            Ok(bytes) => {
                &&& 2 * bytes.len() == digits.len()
                &&& forall|i: int|
                    0 <= i < digits.len() ==> is_hex_digit(#[trigger] digits[i])
                &&& forall|i: int|
                    0 <= i < bytes.len() ==> #[trigger] bytes[i] == 16 * hex_value(
                        digits[2 * i],
                    )->0 + hex_value(digits[2 * i + 1])->0
            },
            Err(HexError::InvalidHexCharacter { c, index }) => {
                &&& index < digits.len()
                &&& !is_hex_digit(digits[index as int])
                &&& c as int == digits[index as int]
                &&& forall|i: int| 0 <= i < index ==> is_hex_digit(#[trigger] digits[i])
            },
            Err(_) => false,
        },
{
    lemma_bad_digit(digits, 0);
    let bad = first_non_digit(digits, 0);
    assert forall|i: int| 0 <= i < bad implies is_hex_digit(#[trigger] digits[i]) by {
        assert(hex_value(digits[i]) is Some);
    }
    if bad == digits.len() {
        let bytes = paired_digits(digits);
        assert forall|i: int| 0 <= i < bytes.len() implies #[trigger] bytes[i] == 16 * hex_value(
            digits[2 * i],
        )->0 + hex_value(digits[2 * i + 1])->0 by {
            assert(hex_value(digits[2 * i]) is Some && hex_value(digits[2 * i + 1]) is Some);
        }
    }
}

/// The digits have their values: those from 0 to 9, and those from a to f, in either case, the
/// values from ten to fifteen. Nothing else has a value.
pub proof fn values_of_hex_digits(v: u8, b: u8)
    ensures
        v < 10 ==> hex_value(('0' as u8 + v) as u8) == Some(v as int),
        v < 6 ==> hex_value(('a' as u8 + v) as u8) == Some(10 + v),
        v < 6 ==> hex_value(('A' as u8 + v) as u8) == Some(10 + v),
        hex_value(b) is Some <==> is_hex_digit(b),
{
}

/// A byte string of any length that was written in hexadecimal reads back, with a `0x` in front
/// of it or without.
pub proof fn written_bytes_read_back(bytes: Seq<u8>)
    requires
        2 * bytes.len() <= usize::MAX,
    ensures
        hex_bytes_parsed(lower_hex(bytes)) == Ok::<Seq<u8>, HexBytesError>(bytes),
        hex_bytes_parsed(root_text(bytes)) == Ok::<Seq<u8>, HexBytesError>(bytes),
{
    let text = lower_hex(bytes);
    let digits = encode_utf8(text);
    assert(without_prefix(root_text(bytes)) =~= text);
    assert forall|i: int| 0 <= i < text.len() implies 48 <= #[trigger] text[i] as int <= 102 by {
        let b = bytes[i / 2] as int;
        assert(0 <= b / 16 < 16 && 0 <= b % 16 < 16);
    }
    if text.len() >= 2 {
        assert(text[1] as int <= 102);
        assert(without_prefix(text) == text);
    }
    vstd::utf8::is_ascii_chars_encode_utf8(text);
    assert forall|i: int| 0 <= i < digits.len() implies hex_value(#[trigger] digits[i]) == Some(
        if i % 2 == 0 { bytes[i / 2] as int / 16 } else { bytes[i / 2] as int % 16 },
    ) by {
        let b = bytes[i / 2] as int;
        assert(0 <= b / 16 < 16 && 0 <= b % 16 < 16);
        assert(digits[i] == text[i] as u8);
    }
    lemma_all_digits(digits, 0);
    assert forall|i: int| 0 <= i < bytes.len() implies paired_digits(digits)[i] == bytes[i] by {
        assert(hex_value(digits[2 * i])->0 == bytes[i] as int / 16);
        assert(hex_value(digits[2 * i + 1])->0 == bytes[i] as int % 16);
    }
    assert(paired_digits(digits) =~= bytes);
}

/// A byte string is read from an even number of hexadecimal digits, and from nothing else: an odd
/// number is refused as such, whatever stands there.
pub proof fn which_texts_are_bytes(text: Seq<char>)
    requires
        encode_utf8(without_prefix(text)).len() <= usize::MAX,
    ensures
        ({
            let digits = encode_utf8(without_prefix(text));
            &&& hex_bytes_parsed(text) is Ok <==> digits.len() % 2 == 0 && forall|i: int|
                0 <= i < digits.len() ==> is_hex_digit(#[trigger] digits[i])
            &&& digits.len() % 2 != 0 <==> hex_bytes_parsed(text) == Err::<Seq<u8>, HexBytesError>(
                HexBytesError::OddLength,
            )
        }),
{
    let digits = encode_utf8(without_prefix(text));
    if digits.len() % 2 == 0 {
        digits_stand_for_bytes(digits);
    }
}

/// Only a `0x` in lower case is left out, and only in front.
pub proof fn only_the_prefix_is_left_out(text: Seq<char>)
    ensures
        without_prefix(seq!['0', 'x'] + text) == text,
        text.len() >= 2 && text[0] == '0' && text[1] == 'x' ==> seq!['0', 'x'] + without_prefix(text)
            == text,
        text.len() < 2 || text[0] != '0' || text[1] != 'x' ==> without_prefix(text) == text,
{
    assert((seq!['0', 'x'] + text).skip(2) =~= text);
    if text.len() >= 2 && text[0] == '0' && text[1] == 'x' {
        assert(seq!['0', 'x'] + text.skip(2) =~= text);
    }
}

/// The root that a text stands for has a byte for each two digits: sixteen times the value of the
/// first, and that of the second. A text of the right length that is no root is refused for the
/// first of its bytes that is no digit; the one exception is a text that has a second prefix, which
/// one of the two readers takes off before it counts.
pub proof fn what_the_digits_of_a_root_stand_for(text: Seq<char>)
    requires
        encode_utf8(without_prefix(text)).len() == 64,
    ensures
        ({
            let digits = encode_utf8(without_prefix(text));
            let prefixed = digits[0] == '0' as u8 && (digits[1] == 'x' as u8 || digits[1] == 'X' as u8);
            &&& match hex_hash_parsed(text) {
                Ok(bytes) => {
                    &&& bytes.len() == 32
                    &&& root_parsed(text) == Ok::<Seq<u8>, RootError>(bytes)
                    &&& forall|i: int|
                        0 <= i < 32 ==> #[trigger] bytes[i] == 16 * hex_value(digits[2 * i])->0
                            + hex_value(digits[2 * i + 1])->0
                },
                Err(RootError::InvalidHex {
                    cause: HexError::InvalidHexCharacter { c, index },
                }) => {
                    &&& index < 64
                    &&& !is_hex_digit(digits[index as int])
                    &&& c as int == digits[index as int]
                    &&& forall|i: int| 0 <= i < index ==> is_hex_digit(#[trigger] digits[i])
                },
                Err(_) => false,
            }
            &&& !prefixed ==> root_parsed(text) == hex_hash_parsed(text)
            &&& prefixed ==> root_parsed(text) == Err::<Seq<u8>, RootError>(
                RootError::InvalidHex { cause: HexError::InvalidStringLength },
            )
        }),
{
    let digits = encode_utf8(without_prefix(text));
    digits_stand_for_bytes(digits);
    root_readers_agree(text);
}

/// What an even number of digits stands for as bytes, and why something else is refused.
pub proof fn what_the_digits_of_bytes_stand_for(text: Seq<char>)
    requires
        encode_utf8(without_prefix(text)).len() % 2 == 0,
        encode_utf8(without_prefix(text)).len() <= usize::MAX,
    ensures
        ({
            let digits = encode_utf8(without_prefix(text));
            match hex_bytes_parsed(text) {
                Ok(bytes) => {
                    &&& 2 * bytes.len() == digits.len()
                    &&& forall|i: int|
                        0 <= i < bytes.len() ==> #[trigger] bytes[i] == 16 * hex_value(
                            digits[2 * i],
                        )->0 + hex_value(digits[2 * i + 1])->0
                },
                Err(HexBytesError::InvalidHex {
                    cause: HexError::InvalidHexCharacter { c, index },
                }) => {
                    &&& index < digits.len()
                    &&& !is_hex_digit(digits[index as int])
                    &&& c as int == digits[index as int]
                    &&& forall|i: int| 0 <= i < index ==> is_hex_digit(#[trigger] digits[i])
                },
                Err(_) => false,
            }
        }),
{
    digits_stand_for_bytes(encode_utf8(without_prefix(text)));
}

} // verus!
