//! Blob metadata decoder: parses raw transaction input bytes into a
//! blob-count / blob-size pair. Pure computation, no I/O.
//!
//! The canonical encoding is a structured 64-byte header: bytes `[0, 32)`
//! hold the blob count and bytes `[32, 64)` hold the blob size, each as a
//! 256-bit big-endian unsigned integer. A value that does not fit in 64 bits
//! is rejected as an overflow rather than truncated.

use vstd::prelude::*;

verus! {

/// Error taxonomy of the decoder: both variants are soft, per-transaction
/// failures that a caller skips and counts rather than aborts on.
#[derive(Debug, Clone, Copy, PartialEq, Eq, Structural)]
pub enum DecodeError {
    /// The input is too short for the structured header, or a hex tail holds
    /// a character that is not an ASCII hex digit (or no digit at all).
    MalformedInput,
    /// A decoded integer exceeds the 64-bit range used downstream.
    Overflow,
}

/// The value of a byte sequence read as a big-endian unsigned integer.
pub open spec fn be_nat(s: Seq<u8>) -> nat
    decreases s.len(),
{
    if s.len() == 0 {
        0
    } else {
        be_nat(s.drop_last()) * 256 + s.last() as nat
    }
}

/// 256 raised to the given power: the exclusive upper bound of `be_nat` on
/// sequences of that length.
pub open spec fn pow256(n: nat) -> nat
    decreases n,
{
    if n == 0 {
        1
    } else {
        256 * pow256((n - 1) as nat)
    }
}

proof fn lemma_pow256_pos(n: nat)
    ensures
        pow256(n) >= 1,
    decreases n,
{
    if n > 0 {
        lemma_pow256_pos((n - 1) as nat);
    }
}

proof fn lemma_pow256_monotone(m: nat, n: nat)
    requires
        m <= n,
    ensures
        pow256(m) <= pow256(n),
    decreases n,
{
    if m < n {
        lemma_pow256_monotone(m, (n - 1) as nat);
        lemma_pow256_pos((n - 1) as nat);
    }
}

proof fn lemma_be_nat_bound(s: Seq<u8>)
    ensures
        be_nat(s) < pow256(s.len()),
    decreases s.len(),
{
    if s.len() > 0 {
        lemma_be_nat_bound(s.drop_last());
    }
}

proof fn lemma_be_nat_all_zero(s: Seq<u8>)
    requires
        forall|i: int| 0 <= i < s.len() ==> s[i] == 0,
    ensures
        be_nat(s) == 0,
    decreases s.len(),
{
    if s.len() > 0 {
        lemma_be_nat_all_zero(s.drop_last());
    }
}

/// Leading zero bytes do not change the value read.
proof fn lemma_be_nat_zero_prefix(s: Seq<u8>, k: int)
    requires
        0 <= k <= s.len(),
        forall|i: int| 0 <= i < k ==> s[i] == 0,
    ensures
        be_nat(s) == be_nat(s.subrange(k, s.len() as int)),
    decreases s.len(),
{
    if s.len() == k {
        lemma_be_nat_all_zero(s);
    } else {
        lemma_be_nat_zero_prefix(s.drop_last(), k);
        assert(s.drop_last().subrange(k, s.len() - 1) =~= s.subrange(k, s.len() as int).drop_last());
        assert(s.subrange(k, s.len() as int).last() == s.last());
    }
}

/// A nonzero byte at position `j` forces the value up to at least
/// `pow256(len - j - 1)`.
proof fn lemma_be_nat_lower_bound(s: Seq<u8>, j: int)
    requires
        0 <= j < s.len(),
        s[j] != 0,
    ensures
        be_nat(s) >= pow256((s.len() - j - 1) as nat),
    decreases s.len(),
{
    if j == s.len() - 1 {
    } else {
        lemma_be_nat_lower_bound(s.drop_last(), j);
        assert(be_nat(s.drop_last()) * 256 >= pow256((s.len() - j - 2) as nat) * 256) by (nonlinear_arith)
            requires
                be_nat(s.drop_last()) >= pow256((s.len() - j - 2) as nat),
        ;
    }
}

/// Reads the 32-byte big-endian word at `off`, refusing values over
/// `u64::MAX`.
fn read_word_u64(input: &Vec<u8>, off: usize) -> (r: Option<u64>)
    requires
        off + 32 <= input@.len(),
    ensures
        r is Some <==> be_nat(input@.subrange(off as int, off + 32)) <= u64::MAX,
        r is Some ==> r->Some_0 == be_nat(input@.subrange(off as int, off + 32)),
{
    let n: usize = input.len();
    let ghost word: Seq<u8> = input@.subrange(off as int, off + 32);
    assert(word.len() == 32);
    let mut i: usize = off;
    while i < off + 24
        invariant
            off <= i <= off + 24,
            off + 32 <= n,
            n == input@.len(),
            word == input@.subrange(off as int, off + 32),
            forall|j: int| off <= j < i ==> input@[j] == 0,
        decreases off + 24 - i,
    {
        if input[i] != 0 {
            proof {
                assert(word[i - off] == input@[i as int]);
                lemma_be_nat_lower_bound(word, i - off);
                lemma_pow256_monotone(8, (32 - (i - off) - 1) as nat);
                lemma_pow256_values();
            }
            return None;
        }
        i += 1;
    }
    proof {
        assert(forall|j: int| 0 <= j < 24 ==> word[j] == input@[off + j] && word[j] == 0);
        lemma_be_nat_zero_prefix(word, 24);
        assert(word.subrange(24, 32) =~= input@.subrange(off + 24, off + 32));
    }
    let mut acc: u64 = 0;
    let mut k: usize = off + 24;
    while k < off + 32
        invariant
            off + 24 <= k <= off + 32,
            off + 32 <= n,
            n == input@.len(),
            acc == be_nat(input@.subrange(off + 24, k as int)),
            acc < pow256((k - (off + 24)) as nat),
        decreases off + 32 - k,
    {
        proof {
            let pre = input@.subrange(off + 24, k as int);
            let post = input@.subrange(off + 24, k + 1);
            assert(post.drop_last() =~= pre);
            assert(post.last() == input@[k as int]);
            lemma_pow256_monotone((k - (off + 24)) as nat, 7);
            lemma_pow256_values();
        }
        acc = acc * 256 + (input[k] as u64);
        k += 1;
    }
    proof {
        lemma_be_nat_bound(input@.subrange(off + 24, off + 32));
        lemma_pow256_values();
    }
    Some(acc)
}

proof fn lemma_pow256_values()
    ensures
        pow256(7) == 0x100000000000000,
        pow256(8) == 0x10000000000000000,
{
    reveal_with_fuel(pow256, 9);
}

/// What the structured-header decoder returns for each possible input: the
/// direct mathematical statement the executable decoder is proved against.
pub open spec fn decode_structured_spec(input: Seq<u8>) -> Result<(u64, u64), DecodeError> {
    if input.len() < 64 {
        Err(DecodeError::MalformedInput)
    } else {
        let count = be_nat(input.subrange(0, 32));
        let size = be_nat(input.subrange(32, 64));
        if count > u64::MAX || size > u64::MAX {
            Err(DecodeError::Overflow)
        } else {
            Ok((count as u64, size as u64))
        }
    }
}

/// Decodes the structured 64-byte header: blob count from bytes `[0, 32)`,
/// blob size from bytes `[32, 64)`, both big-endian.
pub fn decode_structured(input: &Vec<u8>) -> (r: Result<(u64, u64), DecodeError>)
    ensures
        r == decode_structured_spec(input@),
{
    if input.len() < 64 {
        return Err(DecodeError::MalformedInput);
    }
    let count = match read_word_u64(input, 0) {
        Some(v) => v,
        None => {
            return Err(DecodeError::Overflow);
        },
    };
    let size = match read_word_u64(input, 32) {
        Some(v) => v,
        None => {
            return Err(DecodeError::Overflow);
        },
    };
    Ok((count, size))
}

/// Whether a byte is an ASCII hex digit (`0-9`, `a-f`, `A-F`).
pub open spec fn is_hex_digit(b: u8) -> bool {
    (48 <= b <= 57) || (97 <= b <= 102) || (65 <= b <= 70)
}

/// The numeric value of an ASCII hex digit.
pub open spec fn hex_digit_val(b: u8) -> nat {
    if 48 <= b <= 57 {
        (b - 48) as nat
    } else if 97 <= b <= 102 {
        (b - 87) as nat
    } else {
        (b - 55) as nat
    }
}

/// The value of a sequence of ASCII hex digits read as an unsigned integer,
/// most significant digit first.
pub open spec fn hex_nat(s: Seq<u8>) -> nat
    decreases s.len(),
{
    if s.len() == 0 {
        0
    } else {
        hex_nat(s.drop_last()) * 16 + hex_digit_val(s.last())
    }
}

pub open spec fn all_hex(s: Seq<u8>) -> bool {
    forall|i: int| 0 <= i < s.len() ==> is_hex_digit(s[i])
}

/// Extending a digit string never lowers its value.
proof fn lemma_hex_nat_prefix_le(s: Seq<u8>, m: int)
    requires
        0 <= m <= s.len(),
    ensures
        hex_nat(s) >= hex_nat(s.subrange(0, m)),
    decreases s.len(),
{
    if m < s.len() {
        lemma_hex_nat_prefix_le(s.drop_last(), m);
        assert(s.drop_last().subrange(0, m) =~= s.subrange(0, m));
    } else {
        assert(s.subrange(0, m) =~= s);
    }
}

fn hex_digit_value(b: u8) -> (r: Option<u8>)
    ensures
        r is Some <==> is_hex_digit(b),
        r is Some ==> r->Some_0 == hex_digit_val(b),
{
    if 48 <= b && b <= 57 {
        Some(b - 48)
    } else if 97 <= b && b <= 102 {
        Some(b - 87)
    } else if 65 <= b && b <= 70 {
        Some(b - 55)
    } else {
        None
    }
}

/// What the hex-tail decoder returns for each possible input. The tail after
/// the two-character prefix must be nonempty ASCII hex; it gives the blob
/// count directly and no size is defined in this scheme.
pub open spec fn decode_hex_tail_spec(input: Seq<u8>) -> Result<u64, DecodeError> {
    if input.len() <= 2 {
        Err(DecodeError::MalformedInput)
    } else {
        let tail = input.subrange(2, input.len() as int);
        if !all_hex(tail) {
            Err(DecodeError::MalformedInput)
        } else if hex_nat(tail) > u64::MAX {
            Err(DecodeError::Overflow)
        } else {
            Ok(hex_nat(tail) as u64)
        }
    }
}

/// Decodes the hex-tail scheme: the bytes after a fixed 2-character prefix,
/// read as an ASCII-hex unsigned integer, give the blob count.
pub fn decode_hex_tail(input: &Vec<u8>) -> (r: Result<u64, DecodeError>)
    ensures
        r == decode_hex_tail_spec(input@),
{
    let n: usize = input.len();
    if n <= 2 {
        return Err(DecodeError::MalformedInput);
    }
    let ghost tail: Seq<u8> = input@.subrange(2, n as int);
    let mut i: usize = 2;
    while i < n
        invariant
            2 <= i <= n,
            n == input@.len(),
            n > 2,
            tail == input@.subrange(2, n as int),
            forall|j: int| 0 <= j < i - 2 ==> is_hex_digit(tail[j]),
        decreases n - i,
    {
        proof {
            assert(tail[i - 2] == input@[i as int]);
        }
        if hex_digit_value(input[i]).is_none() {
            return Err(DecodeError::MalformedInput);
        }
        i += 1;
    }
    assert(all_hex(tail));
    let mut acc: u64 = 0;
    let mut k: usize = 2;
    while k < n
        invariant
            2 <= k <= n,
            n == input@.len(),
            n > 2,
            tail == input@.subrange(2, n as int),
            all_hex(tail),
            acc == hex_nat(tail.subrange(0, k - 2)),
        decreases n - k,
    {
        proof {
            let pre = tail.subrange(0, k - 2);
            let post = tail.subrange(0, k - 1);
            assert(post.drop_last() =~= pre);
            assert(post.last() == tail[k - 2]);
            assert(tail[k - 2] == input@[k as int]);
            if acc >= 0x1000000000000000 {
                lemma_hex_nat_prefix_le(tail, k - 1);
            }
        }
        if acc >= 0x1000000000000000 {
            return Err(DecodeError::Overflow);
        }
        let d = match hex_digit_value(input[k]) {
            Some(d) => d,
            None => {
                return Err(DecodeError::MalformedInput);
            },
        };
        acc = acc * 16 + (d as u64);
        k += 1;
    }
    proof {
        assert(tail.subrange(0, n - 2) =~= tail);
    }
    Ok(acc)
}

/// The named decode strategies: the two encodings a blob transaction's input
/// may carry. The caller picks one explicitly as part of its policy.
#[derive(Debug, Clone, Copy, PartialEq, Eq, Structural)]
pub enum DecodeScheme {
    /// 64-byte header of two 32-byte big-endian words: count, then size.
    StructuredHeader,
    /// ASCII-hex count after a 2-character prefix; no size is defined.
    HexTail,
}

/// What `decode` returns under each strategy: count always, size only where
/// the strategy defines one.
pub open spec fn decode_spec(scheme: DecodeScheme, input: Seq<u8>) -> Result<
    (u64, Option<u64>),
    DecodeError,
> {
    match scheme {
        DecodeScheme::StructuredHeader => match decode_structured_spec(input) {
            Ok((c, s)) => Ok((c, Some(s))),
            Err(e) => Err(e),
        },
        DecodeScheme::HexTail => match decode_hex_tail_spec(input) {
            Ok(c) => Ok((c, None)),
            Err(e) => Err(e),
        },
    }
}

/// Decodes raw transaction input bytes into blob count and optional blob
/// size under the chosen strategy.
pub fn decode(scheme: DecodeScheme, input: &Vec<u8>) -> (r: Result<
    (u64, Option<u64>),
    DecodeError,
>)
    ensures
        r == decode_spec(scheme, input@),
{
    match scheme {
        DecodeScheme::StructuredHeader => match decode_structured(input) {
            Ok((c, s)) => Ok((c, Some(s))),
            Err(e) => Err(e),
        },
        DecodeScheme::HexTail => match decode_hex_tail(input) {
            Ok(c) => Ok((c, None)),
            Err(e) => Err(e),
        },
    }
}

} // verus!
