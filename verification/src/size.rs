//! The size of a random input, as the command line gives it: two numbers
//! and an element type, separated by the letter `x`, as in `32x64xf32`.

use vstd::prelude::*;
use vstd::string::StringSliceAdditionalSpecFns;
use crate::tfpb::types::DataType;

verus! {

/// The size of an input: its two dimensions and its element type.
#[derive(Debug, Clone, Copy, PartialEq, Eq, Structural)]
pub struct InputSize {
    pub x: usize,
    pub y: usize,
    pub datatype: DataType,
}

/// Why a text is no size.
#[derive(Debug, Clone, Copy, PartialEq, Eq, Structural)]
pub enum SizeError {
    /// The text has not three parts.
    Format,
    /// One of the first two parts is no number.
    Number,
    /// The third part is no element type.
    Type,
}

/// The place of the first `x` in `bytes` at or after `from`, or the length
/// of `bytes` where there is none.
pub open spec fn next_x(bytes: Seq<u8>, from: int) -> int
    decreases bytes.len() - from,
{
    if from >= bytes.len() {
        bytes.len() as int
    } else if bytes[from] == 0x78 {
        from
    } else {
        next_x(bytes, from + 1)
    }
}

/// The number that decimal digits spell.
pub open spec fn digits_value(digits: Seq<u8>) -> nat
    decreases digits.len(),
{
    if digits.len() == 0 {
        0
    } else {
        digits_value(digits.drop_last()) * 10 + (digits.last() - 0x30) as nat
    }
}

/// Whether every byte is a decimal digit.
pub open spec fn all_digits(digits: Seq<u8>) -> bool {
    forall|i: int| 0 <= i < digits.len() ==> 0x30 <= #[trigger] digits[i] <= 0x39
}

/// The number that a part of the text spells: decimal digits, at least one,
/// after an optional plus sign, with a value that fits `usize`.
pub open spec fn number_of(part: Seq<u8>) -> Option<usize> {
    let digits = if part.len() > 0 && part[0] == 0x2b {
        part.skip(1)
    } else {
        part
    };
    if digits.len() > 0 && all_digits(digits) && digits_value(digits) <= usize::MAX {
        Some(digits_value(digits) as usize)
    } else {
        None
    }
}

/// A letter in lower case; every other byte as it is.
pub open spec fn lower(b: u8) -> u8 {
    if 0x41 <= b <= 0x5a {
        (b + 0x20) as u8
    } else {
        b
    }
}

/// Whether `part`, letters in either case, spells `name`.
pub open spec fn spells(part: Seq<u8>, name: Seq<u8>) -> bool {
    &&& part.len() == name.len()
    &&& forall|i: int| 0 <= i < part.len() ==> lower(#[trigger] part[i]) == name[i]
}

/// The element type that a part of the text names: `f64`, `f32`, `i32`,
/// `i8` or `u8`, letters in either case.
pub open spec fn type_of(part: Seq<u8>) -> Option<DataType> {
    if spells(part, seq![0x66u8, 0x36, 0x34]) {
        Some(DataType::DT_DOUBLE)
    } else if spells(part, seq![0x66u8, 0x33, 0x32]) {
        Some(DataType::DT_FLOAT)
    } else if spells(part, seq![0x69u8, 0x33, 0x32]) {
        Some(DataType::DT_INT32)
    } else if spells(part, seq![0x69u8, 0x38]) {
        Some(DataType::DT_INT8)
    } else if spells(part, seq![0x75u8, 0x38]) {
        Some(DataType::DT_UINT8)
    } else {
        None
    }
}

/// The size that a text spells.  The first two `x` split the text into
/// three parts: two numbers and an element type.
pub open spec fn size_of(bytes: Seq<u8>) -> Result<InputSize, SizeError> {
    let first = next_x(bytes, 0);
    let second = next_x(bytes, first + 1);
    if first >= bytes.len() || second >= bytes.len() {
        Err(SizeError::Format)
    } else {
        match (number_of(bytes.subrange(0, first)), number_of(bytes.subrange(first + 1, second))) {
            (Some(x), Some(y)) => match type_of(bytes.subrange(second + 1, bytes.len() as int)) {
                Some(datatype) => Ok(InputSize { x, y, datatype }),
                None => Err(SizeError::Type),
            },
            _ => Err(SizeError::Number),
        }
    }
}

/// The value of digits is at least the value of the digits without the
/// last.
proof fn lemma_digits_grow(digits: Seq<u8>, k: int)
    requires
        0 <= k <= digits.len(),
        all_digits(digits),
    ensures
        digits_value(digits.take(k)) <= digits_value(digits),
    decreases digits.len() - k,
{
    if k == digits.len() {
        assert(digits.take(k) == digits);
    } else {
        lemma_digits_grow(digits, k + 1);
        assert(digits.take(k + 1).drop_last() == digits.take(k));
        assert(digits.take(k + 1).last() == digits[k]);
    }
}

/// The place of the first `x` at or after `from`.
fn find_x(bytes: &[u8], from: usize) -> (r: usize)
    requires
        from <= bytes@.len(),
    ensures
        r == next_x(bytes@, from as int),
        from <= r <= bytes@.len(),
{
    let n = bytes.len();
    let mut i = from;
    while i < n
        invariant
            from <= i <= n,
            n == bytes@.len(),
            next_x(bytes@, from as int) == next_x(bytes@, i as int),
        decreases n - i,
    {
        if bytes[i] == 0x78 {
            return i;
        }
        i += 1;
    }
    n
}

/// The number that the bytes from `from` up to `to` spell.
fn parse_number(bytes: &[u8], from: usize, to: usize) -> (r: Option<usize>)
    requires
        from <= to <= bytes@.len(),
    ensures
        r == number_of(bytes@.subrange(from as int, to as int)),
{
    let ghost part = bytes@.subrange(from as int, to as int);
    let start = if from < to && bytes[from] == 0x2b {
        from + 1
    } else {
        from
    };
    let ghost digits = bytes@.subrange(start as int, to as int);
    proof {
        if start == from {
            assert(part.len() > 0 ==> part[0] == bytes@[from as int]);
            assert(digits =~= part);
        } else {
            assert(part[0] == 0x2b);
            assert(digits =~= part.skip(1));
        }
    }
    let ghost wanted = number_of(part);
    assert(wanted == if digits.len() > 0 && all_digits(digits) && digits_value(digits)
        <= usize::MAX {
        Some(digits_value(digits) as usize)
    } else {
        None
    });
    if start == to {
        return None;
    }
    let mut value: usize = 0;
    let mut i = start;
    assert(digits.take(0).len() == 0);
    while i < to
        invariant
            start <= i <= to,
            to <= bytes@.len(),
            digits == bytes@.subrange(start as int, to as int),
            wanted == number_of(bytes@.subrange(from as int, to as int)),
            wanted == if digits.len() > 0 && all_digits(digits) && digits_value(digits)
                <= usize::MAX {
                Some(digits_value(digits) as usize)
            } else {
                None
            },
            from <= start,
            all_digits(digits.take(i - start)),
            value == digits_value(digits.take(i - start)),
        decreases to - i,
    {
        let b = bytes[i];
        proof {
            assert(digits[i - start] == b);
            assert(digits.take(i - start + 1).drop_last() == digits.take(i - start));
            assert(digits.take(i - start + 1).last() == b);
        }
        if b < 0x30 || b > 0x39 {
            assert(!all_digits(digits));
            return None;
        }
        proof {
            assert forall|j: int| 0 <= j < digits.take(i - start + 1).len() implies 0x30
                <= #[trigger] digits.take(i - start + 1)[j] <= 0x39 by {
                if j < i - start {
                    assert(digits.take(i - start)[j] == digits.take(i - start + 1)[j]);
                }
            }
        }
        let digit = (b - 0x30) as usize;
        if value > (usize::MAX - digit) / 10 {
            proof {
                if all_digits(digits) {
                    lemma_digits_grow(digits, i - start + 1);
                }
            }
            return None;
        }
        value = value * 10 + digit;
        i += 1;
    }
    assert(digits.take(to - start) == digits);
    Some(value)
}

/// Whether the bytes from `from` to the end, letters in either case, spell
/// `name`.
fn spelled(bytes: &[u8], from: usize, name: &[u8]) -> (r: bool)
    requires
        from <= bytes@.len(),
    ensures
        r == spells(bytes@.subrange(from as int, bytes@.len() as int), name@),
{
    let n = bytes.len();
    let ghost part = bytes@.subrange(from as int, n as int);
    if n - from != name.len() {
        return false;
    }
    let mut i: usize = 0;
    while i < name.len()
        invariant
            i <= name.len(),
            n == bytes@.len(),
            from <= n,
            n - from == name@.len(),
            part == bytes@.subrange(from as int, n as int),
            forall|j: int| 0 <= j < i ==> lower(#[trigger] part[j]) == name@[j],
        decreases name.len() - i,
    {
        let b = bytes[from + i];
        assert(part[i as int] == b);
        let low = if 0x41 <= b && b <= 0x5a {
            b + 0x20
        } else {
            b
        };
        if low != name[i] {
            return false;
        }
        i += 1;
    }
    true
}

/// Reads the size of an input from a text such as `32x64xf32`.
pub fn parse_size(text: &str) -> (r: Result<InputSize, SizeError>)
    ensures
        r == size_of(text.spec_bytes()),
{
    let bytes = text.as_bytes();
    let n = bytes.len();
    let first = find_x(bytes, 0);
    if first >= n {
        return Err(SizeError::Format);
    }
    let second = find_x(bytes, first + 1);
    if second >= n {
        return Err(SizeError::Format);
    }
    let x = match parse_number(bytes, 0, first) {
        Some(x) => x,
        None => {
            return Err(SizeError::Number);
        },
    };
    let y = match parse_number(bytes, first + 1, second) {
        Some(y) => y,
        None => {
            return Err(SizeError::Number);
        },
    };
    let f64_name: [u8; 3] = [0x66, 0x36, 0x34];
    let f32_name: [u8; 3] = [0x66, 0x33, 0x32];
    let i32_name: [u8; 3] = [0x69, 0x33, 0x32];
    let i8_name: [u8; 2] = [0x69, 0x38];
    let u8_name: [u8; 2] = [0x75, 0x38];
    assert(f64_name@ =~= seq![0x66u8, 0x36, 0x34]);
    assert(f32_name@ =~= seq![0x66u8, 0x33, 0x32]);
    assert(i32_name@ =~= seq![0x69u8, 0x33, 0x32]);
    assert(i8_name@ =~= seq![0x69u8, 0x38]);
    assert(u8_name@ =~= seq![0x75u8, 0x38]);
    let datatype = if spelled(bytes, second + 1, f64_name.as_slice()) {
        DataType::DT_DOUBLE
    } else if spelled(bytes, second + 1, f32_name.as_slice()) {
        DataType::DT_FLOAT
    } else if spelled(bytes, second + 1, i32_name.as_slice()) {
        DataType::DT_INT32
    } else if spelled(bytes, second + 1, i8_name.as_slice()) {
        DataType::DT_INT8
    } else if spelled(bytes, second + 1, u8_name.as_slice()) {
        DataType::DT_UINT8
    } else {
        return Err(SizeError::Type);
    };
    Ok(InputSize { x, y, datatype })
}

} // verus!
