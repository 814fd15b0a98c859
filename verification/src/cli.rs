//! What the command-line front end decides: hexadecimal arguments, the log verbosity, the
//! kind of an executable file, and the bytes of a hexadecimal program text.

use vstd::prelude::*;
use vstd::string::StringSliceAdditionalSpecFns;

verus! {

/// Why a hexadecimal number could not be read.
#[derive(Debug, Clone, Copy, PartialEq, Eq, Structural)]
pub enum HexParseError {
    /// Nothing was left to read.
    Empty,
    /// A character that is not a hexadecimal digit.
    InvalidDigit,
    /// The number does not fit in 32 bits.
    PosOverflow,
}

impl HexParseError {
    /// What went wrong, in words.
    pub fn message(&self) -> (r: &'static str)
        ensures
            r@ == (match self {
                HexParseError::Empty => "cannot parse integer from empty string"@,
                HexParseError::InvalidDigit => "invalid digit found in string"@,
                HexParseError::PosOverflow => "number too large to fit in target type"@,
            }),
    {
        match self {
            HexParseError::Empty => "cannot parse integer from empty string",
            HexParseError::InvalidDigit => "invalid digit found in string",
            HexParseError::PosOverflow => "number too large to fit in target type",
        }
    }
}

/// The value of a hexadecimal digit (either case), if `c` is one.
pub open spec fn hex_digit_value(c: u8) -> Option<u32> {
    if 48 <= c <= 57 {
        Some((c - 48) as u32)
    } else if 97 <= c <= 102 {
        Some((c - 87) as u32)
    } else if 65 <= c <= 70 {
        Some((c - 55) as u32)
    } else {
        None
    }
}

pub open spec fn is_hex_digit(c: u8) -> bool {
    hex_digit_value(c) is Some
}

/// The value of hexadecimal digits, most significant first.
pub open spec fn hex_value(s: Seq<u8>) -> nat
    decreases s.len(),
{
    if s.len() == 0 {
        0
    } else {
        hex_value(s.drop_last()) * 16 + hex_digit_value(s.last()).unwrap_or(0) as nat
    }
}

/// The number of leading hexadecimal digits of `s`.
pub open spec fn leading_digits(s: Seq<u8>) -> nat
    decreases s.len(),
{
    if s.len() > 0 && is_hex_digit(s[0]) {
        1 + leading_digits(s.drop_first())
    } else {
        0
    }
}

/// `s` without every leading `"0x"`.
pub open spec fn trim_0x(s: Seq<u8>) -> Seq<u8>
    decreases s.len(),
{
    if s.len() >= 2 && s[0] == 48 && s[1] == 120 {
        trim_0x(s.skip(2))
    } else {
        s
    }
}

/// Reading a 32-bit number from hexadecimal digits with an optional leading `+`: empty input
/// is refused; past the leading digits, a value too large overflows, and otherwise a
/// character that is not a digit is refused.
pub open spec fn parse_hex_u32(s: Seq<u8>) -> Result<u32, HexParseError> {
    if s.len() == 0 {
        Err(HexParseError::Empty)
    } else if s[0] == 43 && s.len() == 1 {
        Err(HexParseError::InvalidDigit)
    } else {
        let digits = if s[0] == 43 {
            s.skip(1)
        } else {
            s
        };
        let p = leading_digits(digits);
        if hex_value(digits.take(p as int)) > u32::MAX {
            Err(HexParseError::PosOverflow)
        } else if p < digits.len() {
            Err(HexParseError::InvalidDigit)
        } else {
            Ok(hex_value(digits) as u32)
        }
    }
}

/// The underscore byte.
pub open spec fn not_underscore(c: u8) -> bool {
    c != 95
}

fn hex_digit(c: u8) -> (r: Option<u32>)
    ensures
        r == hex_digit_value(c),
{
    if c >= 48u8 && c <= 57u8 {
        Some((c - 48u8) as u32)
    } else if c >= 97u8 && c <= 102u8 {
        Some((c - 87u8) as u32)
    } else if c >= 65u8 && c <= 70u8 {
        Some((c - 55u8) as u32)
    } else {
        None
    }
}

proof fn lemma_leading_digits(s: Seq<u8>, i: int)
    requires
        0 <= i <= s.len(),
        forall|j: int| 0 <= j < i ==> is_hex_digit(#[trigger] s[j]),
    ensures
        leading_digits(s) >= i,
        leading_digits(s) <= s.len(),
        i < s.len() && !is_hex_digit(s[i]) ==> leading_digits(s) == i,
    decreases i,
{
    if i > 0 {
        lemma_leading_digits(s.drop_first(), i - 1);
    } else {
        lemma_leading_digits_le(s);
    }
}

proof fn lemma_leading_digits_le(s: Seq<u8>)
    ensures
        leading_digits(s) <= s.len(),
        leading_digits(s) < s.len() ==> !is_hex_digit(s[leading_digits(s) as int]),
        forall|j: int| 0 <= j < leading_digits(s) ==> is_hex_digit(#[trigger] s[j]),
    decreases s.len(),
{
    if s.len() > 0 && is_hex_digit(s[0]) {
        lemma_leading_digits_le(s.drop_first());
        assert forall|j: int| 0 <= j < leading_digits(s) implies is_hex_digit(#[trigger] s[j]) by {
            if j > 0 {
                assert(s[j] == s.drop_first()[j - 1]);
            }
        }
    }
}

proof fn lemma_hex_value_mono(s: Seq<u8>, k: int, m: int)
    requires
        0 <= k <= m <= s.len(),
    ensures
        hex_value(s.take(k)) <= hex_value(s.take(m)),
    decreases m - k,
{
    if k < m {
        lemma_hex_value_mono(s, k, m - 1);
        assert(s.take(m).drop_last() =~= s.take(m - 1));
    }
}

/// Reads a hexadecimal 32-bit number; leading `"0x"` and underscores anywhere are allowed
/// (as in `0x1000_0000`).
pub fn hex_parser(s: &str) -> (r: Result<u32, HexParseError>)
    ensures
        r == parse_hex_u32(trim_0x(s.spec_bytes()).filter(|c: u8| not_underscore(c))),
{
    let b = s.as_bytes();
    let mut start: usize = 0;
    assert(b@.skip(0) =~= b@);
    while b.len() - start >= 2 && b[start] == 48u8 && b[start + 1] == 120u8
        invariant
            start <= b@.len(),
            trim_0x(b@) == trim_0x(b@.skip(start as int)),
        decreases b@.len() - start,
    {
        assert(b@.skip(start as int).skip(2) =~= b@.skip(start + 2));
        start += 2;
    }
    assert(trim_0x(b@.skip(start as int)) == b@.skip(start as int));
    let ghost rest = b@.skip(start as int);
    let mut digits: Vec<u8> = Vec::new();
    let mut i: usize = start;
    while i < b.len()
        invariant
            start <= i <= b@.len(),
            rest == b@.skip(start as int),
            digits@ == b@.subrange(start as int, i as int).filter(|c: u8| not_underscore(c)),
        decreases b@.len() - i,
    {
        proof {
            let t = b@.subrange(start as int, i + 1);
            assert(t.drop_last() =~= b@.subrange(start as int, i as int));
            reveal_with_fuel(Seq::filter, 1);
        }
        if b[i] != 95u8 {
            digits.push(b[i]);
        }
        i += 1;
    }
    assert(b@.subrange(start as int, i as int) =~= rest);
    parse_hex_digits(&digits)
}

fn parse_hex_digits(s: &Vec<u8>) -> (r: Result<u32, HexParseError>)
    ensures
        r == parse_hex_u32(s@),
{
    if s.len() == 0 {
        return Err(HexParseError::Empty);
    }
    if s[0] == 43u8 && s.len() == 1 {
        return Err(HexParseError::InvalidDigit);
    }
    let first: usize = if s[0] == 43u8 {
        1
    } else {
        0
    };
    let ghost digits = s@.skip(first as int);
    assert(s@.skip(0) =~= s@);
    assert(digits == (if s@[0] == 43 { s@.skip(1) } else { s@ }));
    let mut result: u32 = 0;
    let mut i: usize = first;
    while i < s.len()
        invariant
            first <= i <= s@.len(),
            s@.len() > 0,
            !(s@[0] == 43 && s@.len() == 1),
            first == (if s@[0] == 43 { 1usize } else { 0usize }),
            digits == s@.skip(first as int),
            digits == (if s@[0] == 43 { s@.skip(1) } else { s@ }),
            forall|j: int| 0 <= j < i - first ==> is_hex_digit(#[trigger] digits[j]),
            result == hex_value(digits.take(i - first)),
        decreases s@.len() - i,
    {
        let k = i - first;
        assert(digits[k as int] == s@[i as int]);
        let d = hex_digit(s[i]);
        let mul = result.checked_mul(16);
        match d {
            None => {
                proof {
                    lemma_leading_digits(digits, k as int);
                }
                return Err(HexParseError::InvalidDigit);
            },
            Some(x) => {
                assert(digits.take(k + 1).drop_last() =~= digits.take(k as int));
                match mul {
                    None => {
                        proof {
                            lemma_leading_digits(digits, k + 1);
                            lemma_leading_digits_le(digits);
                            lemma_hex_value_mono(digits, k + 1, leading_digits(digits) as int);
                        }
                        return Err(HexParseError::PosOverflow);
                    },
                    Some(m) => {
                        result = m + x;
                    },
                }
            },
        }
        i += 1;
    }
    proof {
        lemma_leading_digits(digits, digits.len() as int);
        assert(digits.take(digits.len() as int) =~= digits);
    }
    Ok(result)
}

/// How much the log says, from the quietest to the most verbose.
pub const LOG_LEVELS: usize = 6;

/// The default verbosity: warnings.
pub const DEFAULT_LOG_LEVEL_INDEX: usize = 2;

/// The verbosity (an index into the levels from `Off` to `Trace`) that `-v` repeated
/// `verbose` times or `-q` repeated `quiet` times asks for; `None` when neither is given and
/// the level given by name applies.
pub fn verbosity_index(verbose: u8, quiet: u8) -> (r: Option<usize>)
    requires
        verbose == 0 || quiet == 0,
    ensures
        verbose == 0 && quiet == 0 ==> r is None,
        verbose > 0 ==> r == Some(vstd::math::min(5, DEFAULT_LOG_LEVEL_INDEX + verbose) as usize),
        quiet > 0 ==> r == Some(if quiet >= DEFAULT_LOG_LEVEL_INDEX {
            0
        } else {
            (DEFAULT_LOG_LEVEL_INDEX - quiet) as usize
        }),
{
    if verbose == 0 && quiet == 0 {
        None
    } else if verbose > 0 {
        // More verbose: towards Trace.
        let i = DEFAULT_LOG_LEVEL_INDEX + verbose as usize;
        Some(if i < 5 {
            i
        } else {
            5
        })
    } else {
        // Quieter: towards Off.
        Some(DEFAULT_LOG_LEVEL_INDEX.saturating_sub(quiet as usize))
    }
}

/// The kinds of executable file that the emulator loads.
#[derive(Debug, Clone, Copy, PartialEq, Eq, Structural)]
pub enum FileType {
    Elf,
    Hex,
    Bin,
}

/// The kind of a file named by its extension: `elf`, `hex` or `bin`.
pub fn file_type_from_extension(ext: &str) -> (r: Option<FileType>)
    ensures
        r == (if ext.spec_bytes() == seq![101u8, 108, 102] {
            Some(FileType::Elf)
        } else if ext.spec_bytes() == seq![104u8, 101, 120] {
            Some(FileType::Hex)
        } else if ext.spec_bytes() == seq![98u8, 105, 110] {
            Some(FileType::Bin)
        } else {
            None
        }),
{
    let b = ext.as_bytes();
    if b.len() == 3 {
        if b[0] == 101u8 && b[1] == 108u8 && b[2] == 102u8 {
            assert(b@ =~= seq![101u8, 108, 102]);
            return Some(FileType::Elf);
        } else if b[0] == 104u8 && b[1] == 101u8 && b[2] == 120u8 {
            assert(b@ =~= seq![104u8, 101, 120]);
            return Some(FileType::Hex);
        } else if b[0] == 98u8 && b[1] == 105u8 && b[2] == 110u8 {
            assert(b@ =~= seq![98u8, 105, 110]);
            return Some(FileType::Bin);
        }
    }
    None
}

/// Why hexadecimal text could not be decoded into bytes.
#[derive(Debug, Clone, Copy, PartialEq, Eq, Structural)]
pub enum HexError {
    /// A character that is not a hexadecimal digit, and its index.
    InvalidHexCharacter { c: char, index: usize },
    /// An odd number of digits: two digits make one byte.
    OddLength,
    /// The text does not fit the size of a fixed container.
    InvalidStringLength,
}

/// The bytes of pairs of hexadecimal digits, most significant digit first.
pub open spec fn hex_bytes(s: Seq<u8>) -> Seq<u8> {
    Seq::new(
        s.len() / 2,
        |i: int|
            (hex_digit_value(s[2 * i]).unwrap_or(0) * 16 + hex_digit_value(s[2 * i + 1]).unwrap_or(
                0,
            )) as u8,
    )
}

/// What decoding hexadecimal text gives: an odd number of characters is refused first, then
/// the first character that is not a hexadecimal digit; otherwise the bytes of the pairs.
pub open spec fn hex_decode_spec(data: Seq<u8>) -> Result<Seq<u8>, HexError> {
    if data.len() % 2 == 1 {
        Err(HexError::OddLength)
    } else if leading_digits(data) < data.len() {
        Err(
            HexError::InvalidHexCharacter {
                c: data[leading_digits(data) as int] as char,
                index: leading_digits(data) as usize,
            },
        )
    } else {
        Ok(hex_bytes(data))
    }
}

/// A decoding result, with the bytes as a sequence.
pub open spec fn decoded_view(r: Result<Vec<u8>, HexError>) -> Result<Seq<u8>, HexError> {
    match r {
        Ok(v) => Ok(v@),
        Err(e) => Err(e),
    }
}

/// `hex::decode`, which takes text of hexadecimal digits (either case, mixed too) two by
/// two; its contract is `hex_decode_spec`, as the function's source reads.
#[verifier::external_body]
fn hex_decode(data: &[u8]) -> (r: Result<Vec<u8>, HexError>)
    ensures
        decoded_view(r) == hex_decode_spec(data@),
{
    match hex::decode(data) {
        Ok(v) => Ok(v),
        Err(hex::FromHexError::InvalidHexCharacter { c, index }) => Err(
            HexError::InvalidHexCharacter { c, index },
        ),
        Err(hex::FromHexError::OddLength) => Err(HexError::OddLength),
        Err(hex::FromHexError::InvalidStringLength) => Err(HexError::InvalidStringLength),
    }
}

/// `s` with every `"0x"` removed, from left to right.
pub open spec fn remove_0x(s: Seq<u8>) -> Seq<u8>
    decreases s.len(),
{
    if s.len() < 2 {
        s
    } else if s[0] == 48 && s[1] == 120 {
        remove_0x(s.skip(2))
    } else {
        seq![s[0]] + remove_0x(s.skip(1))
    }
}

/// The bytes with each group of four (and the shorter last group) in reverse order.
pub open spec fn reverse_words(b: Seq<u8>) -> Seq<u8> {
    Seq::new(
        b.len(),
        |i: int|
            {
                let start = i - i % 4;
                let end = if start + 4 <= b.len() {
                    start + 4
                } else {
                    b.len() as int
                };
                b[start + end - 1 - i]
            },
    )
}

fn remove_0x_bytes(s: &[u8]) -> (r: Vec<u8>)
    ensures
        r@ == remove_0x(s@),
{
    let mut out: Vec<u8> = Vec::new();
    let mut i: usize = 0;
    assert(s@.skip(0) =~= s@);
    while i < s.len()
        invariant
            i <= s@.len(),
            out@ + remove_0x(s@.skip(i as int)) == remove_0x(s@),
        decreases s@.len() - i,
    {
        let t = Ghost(s@.skip(i as int));
        if s.len() - i >= 2 && s[i] == 48u8 && s[i + 1] == 120u8 {
            assert(t@.skip(2) =~= s@.skip(i + 2));
            i += 2;
        } else {
            assert(t@.skip(1) =~= s@.skip(i + 1));
            assert(t@[0] == s@[i as int]);
            if s.len() - i >= 2 {
                assert(remove_0x(t@) == seq![t@[0]] + remove_0x(t@.skip(1)));
            } else {
                assert(s@.skip(i + 1).len() == 0);
                assert(remove_0x(t@) =~= seq![t@[0]] + remove_0x(t@.skip(1)));
            }
            out.push(s[i]);
            assert(out@ + remove_0x(s@.skip(i + 1)) =~= (out@.drop_last() + seq![s@[i as int]])
                + remove_0x(s@.skip(i + 1)));
            i += 1;
        }
    }
    assert(s@.skip(i as int) =~= Seq::<u8>::empty());
    assert(out@ =~= out@ + Seq::<u8>::empty());
    out
}

fn hex_digits_only(s: &Vec<u8>) -> (r: Vec<u8>)
    ensures
        r@ == s@.filter(|c: u8| is_hex_digit(c)),
        leading_digits(r@) == r@.len(),
{
    let mut out: Vec<u8> = Vec::new();
    let mut i: usize = 0;
    while i < s.len()
        invariant
            i <= s@.len(),
            out@ == s@.take(i as int).filter(|c: u8| is_hex_digit(c)),
            forall|j: int| 0 <= j < out@.len() ==> is_hex_digit(#[trigger] out@[j]),
        decreases s@.len() - i,
    {
        proof {
            assert(s@.take(i + 1).drop_last() =~= s@.take(i as int));
            reveal_with_fuel(Seq::filter, 1);
        }
        if hex_digit(s[i]).is_some() {
            out.push(s[i]);
        }
        i += 1;
    }
    assert(s@.take(i as int) =~= s@);
    proof {
        lemma_leading_digits(out@, out@.len() as int);
    }
    out
}

fn reverse_each_word(b: &Vec<u8>) -> (r: Vec<u8>)
    ensures
        r@ == reverse_words(b@),
{
    let mut out: Vec<u8> = Vec::new();
    let mut i: usize = 0;
    while i < b.len()
        invariant
            i <= b@.len(),
            out@ == reverse_words(b@).take(i as int),
        decreases b@.len() - i,
    {
        let start = i - i % 4;
        let end = if b.len() - start >= 4 {
            start + 4
        } else {
            b.len()
        };
        out.push(b[start + (end - 1 - i)]);
        assert(out@ =~= reverse_words(b@).take(i + 1));
        i += 1;
    }
    assert(out@ =~= reverse_words(b@));
    out
}

/// The bytes of a program given as hexadecimal text: every `"0x"` is dropped, then every
/// character that is not a hexadecimal digit; the digits are decoded in pairs, and each group
/// of four bytes is reversed, so that the words written most significant byte first are
/// stored little-endian (`"0x20000537"` becomes `[0x37, 0x05, 0x00, 0x20]`).
pub fn bytecode_from_hex_text(text: &str) -> (r: Result<Vec<u8>, HexError>)
    ensures
        ({
            let digits = remove_0x(text.spec_bytes()).filter(|c: u8| is_hex_digit(c));
            &&& digits.len() % 2 == 1 ==> r == Err::<Vec<u8>, HexError>(HexError::OddLength)
            &&& digits.len() % 2 == 0 ==> decoded_view(r) == Ok::<Seq<u8>, HexError>(
                reverse_words(hex_bytes(digits)),
            )
        }),
{
    let stripped = remove_0x_bytes(text.as_bytes());
    let digits = hex_digits_only(&stripped);
    match hex_decode(digits.as_slice()) {
        Ok(bytes) => Ok(reverse_each_word(&bytes)),
        Err(e) => Err(e),
    }
}

} // verus!
