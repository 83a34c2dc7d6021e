//! Byte framing of the core's exchange format (the postcard wire format).
//!
//! Fixed-size byte arrays are written as their bytes, one after the other.
//! A byte string is its length as a LEB128 varint (seven bits per byte, low
//! bits first, high bit set on every byte but the last) followed by its
//! bytes. A reader takes what it needs from the front of the buffer and
//! ignores what follows.

use crate::error::Error;
use vstd::prelude::*;
use vstd::string::StringExecFns;

verus! {

/// Why bytes could not be read.
#[derive(Clone, Copy, Debug, PartialEq, Eq, Structural)]
pub enum WireError {
    /// The buffer ended before the value did.
    UnexpectedEnd,
    /// A varint ran over ten bytes, or its tenth byte held more than the
    /// 64th bit.
    BadVarint,
}

/// The text of a framing error.
pub open spec fn wire_message(e: WireError) -> Seq<char> {
    match e {
        WireError::UnexpectedEnd => "Hit the end of buffer, expected more data"@,
        WireError::BadVarint => "Found a varint that didn't terminate. Is the usize too big for this platform?"@,
    }
}

impl WireError {
    /// The text of the error.
    pub fn message(&self) -> (r: String)
        ensures
            r@ == wire_message(*self),
    {
        match self {
            WireError::UnexpectedEnd => String::from_str("Hit the end of buffer, expected more data"),
            WireError::BadVarint => String::from_str(
                "Found a varint that didn't terminate. Is the usize too big for this platform?",
            ),
        }
    }

    /// The library error for this framing error (a serialisation error).
    pub fn into_error(self) -> (e: Error)
        ensures
            e matches Error::Serialization(m) && m@ == wire_message(self),
    {
        Error::Serialization(self.message())
    }
}

/// `128` to the power `k`.
pub open spec fn pow128(k: nat) -> nat
    decreases k,
{
    if k == 0 {
        1
    } else {
        128 * pow128((k - 1) as nat)
    }
}

/// `2^64`: one more than the largest varint value.
pub open spec fn varint_limit() -> nat {
    0x1_0000_0000_0000_0000
}

/// The varint of `n`: the low seven bits with the high bit set, then the
/// varint of the rest, until fewer than seven bits remain.
pub open spec fn varint(n: nat) -> Seq<u8>
    decreases n,
{
    if n < 128 {
        seq![n as u8]
    } else {
        seq![(n % 128 + 128) as u8] + varint(n / 128)
    }
}

/// Reads the varint that starts at `start`, its first `k` bytes already
/// consumed: the value of the remaining digits and the position after the
/// varint, or why it cannot be read.
pub open spec fn varint_tail(s: Seq<u8>, start: nat, k: nat) -> Result<(nat, nat), WireError>
    decreases 10 - k,
{
    if k >= 10 {
        Err(WireError::BadVarint)
    } else if start + k >= s.len() {
        Err(WireError::UnexpectedEnd)
    } else {
        let b = s[(start + k) as int];
        if b < 128 {
            if k == 9 && b > 1 {
                Err(WireError::BadVarint)
            } else {
                Ok((b as nat, start + k + 1))
            }
        } else {
            match varint_tail(s, start, k + 1) {
                Ok((v, next)) => Ok((((b - 128) + 128 * v) as nat, next)),
                Err(e) => Err(e),
            }
        }
    }
}

/// The varint at `start`: its value and the position after it.
pub open spec fn varint_at(s: Seq<u8>, start: nat) -> Result<(nat, nat), WireError> {
    varint_tail(s, start, 0)
}

/// A byte string as written: its length, then its bytes.
pub open spec fn bytes_field(b: Seq<u8>) -> Seq<u8> {
    varint(b.len()) + b
}

/// Reads the byte string at `pos`: its bytes and the position after it.
pub open spec fn bytes_field_at(s: Seq<u8>, pos: nat) -> Result<(Seq<u8>, nat), WireError> {
    match varint_at(s, pos) {
        Err(e) => Err(e),
        Ok((n, p)) => if p + n <= s.len() {
            Ok((s.subrange(p as int, (p + n) as int), p + n))
        } else {
            Err(WireError::UnexpectedEnd)
        },
    }
}

/// Reads `n` fixed bytes at `pos`.
pub open spec fn array_at(s: Seq<u8>, pos: nat, n: nat) -> Result<Seq<u8>, WireError> {
    if pos + n <= s.len() {
        Ok(s.subrange(pos as int, (pos + n) as int))
    } else {
        Err(WireError::UnexpectedEnd)
    }
}

proof fn lemma_pow128_monotone(a: nat, b: nat)
    requires
        a <= b,
    ensures
        pow128(a) <= pow128(b),
    decreases b,
{
    if a < b {
        lemma_pow128_monotone(a, (b - 1) as nat);
    }
}

proof fn lemma_pow128_values()
    ensures
        pow128(1) == 128,
        pow128(9) == 0x8000_0000_0000_0000,
        pow128(10) == 0x40_0000_0000_0000_0000,
{
    reveal_with_fuel(pow128, 11);
}

/// The varint of a value below `2^64 / 128^k`, found at digit `k` of a
/// varint, reads back as that value.
proof fn lemma_varint_tail(s: Seq<u8>, start: nat, k: nat, m: nat)
    requires
        k <= 9,
        m * pow128(k) < varint_limit(),
        start + k + varint(m).len() <= s.len(),
        s.subrange((start + k) as int, (start + k + varint(m).len()) as int) == varint(m),
    ensures
        varint_tail(s, start, k) == Ok::<(nat, nat), WireError>((m, start + k + varint(m).len())),
    decreases 9 - k,
{
    let v = varint(m);
    assert(s[(start + k) as int] == v[0]);
    if m < 128 {
        if k == 9 {
            lemma_pow128_values();
            assert(m <= 1) by (nonlinear_arith)
                requires
                    m * 0x8000_0000_0000_0000nat < 0x1_0000_0000_0000_0000nat,
            ;
        }
    } else {
        let q = m / 128;
        let rest = varint(q);
        assert(v == seq![(m % 128 + 128) as u8] + rest);
        assert(q * pow128(k + 1) <= m * pow128(k)) by {
            assert(pow128(k + 1) == 128 * pow128(k));
            let p = pow128(k);
            assert(q * (128 * p) == (q * 128) * p) by (nonlinear_arith);
            assert(q * 128 <= m);
            assert((q * 128) * p <= m * p) by (nonlinear_arith)
                requires
                    q * 128 <= m,
            ;
        }
        if k == 9 {
            lemma_pow128_values();
            assert(q * pow128(10) >= pow128(10)) by (nonlinear_arith)
                requires
                    q >= 1,
            ;
            assert(false);
        }
        assert(s.subrange((start + k + 1) as int, (start + k + 1 + rest.len()) as int) =~= rest) by {
            assert forall|i: int| 0 <= i < rest.len() implies s[start + k + 1 + i] == rest[i] by {
                assert(s[start + k + 1 + i] == v[1 + i]);
            }
        }
        lemma_varint_tail(s, start, k + 1, q);
    }
}

/// Law: a varint reads back as the value it was written from.
pub proof fn lemma_varint_roundtrip(s: Seq<u8>, start: nat, n: nat)
    requires
        n < varint_limit(),
        start + varint(n).len() <= s.len(),
        s.subrange(start as int, (start + varint(n).len()) as int) == varint(n),
    ensures
        varint_at(s, start) == Ok::<(nat, nat), WireError>((n, start + varint(n).len())),
{
    assert(pow128(0) == 1);
    lemma_varint_tail(s, start, 0, n);
}

/// Law: a byte string reads back, from the position where it was written,
/// as itself, whatever precedes or follows it.
pub proof fn lemma_bytes_field_roundtrip(before: Seq<u8>, b: Seq<u8>, after: Seq<u8>)
    requires
        b.len() < varint_limit(),
    ensures
        bytes_field_at(before + bytes_field(b) + after, before.len())
            == Ok::<(Seq<u8>, nat), WireError>((b, before.len() + bytes_field(b).len())),
{
    let s = before + bytes_field(b) + after;
    let v = varint(b.len());
    assert(s.subrange(before.len() as int, (before.len() + v.len()) as int) =~= v);
    lemma_varint_roundtrip(s, before.len(), b.len());
    assert(s.subrange((before.len() + v.len()) as int, (before.len() + v.len() + b.len()) as int) =~= b);
}

/// Law: fixed bytes read back as themselves.
pub proof fn lemma_array_roundtrip(before: Seq<u8>, b: Seq<u8>, after: Seq<u8>)
    ensures
        array_at(before + b + after, before.len(), b.len()) == Ok::<Seq<u8>, WireError>(b),
{
    assert((before + b + after).subrange(before.len() as int, (before.len() + b.len()) as int) =~= b);
}

/// Appends the varint of `n` to `out`.
pub fn write_varint(out: &mut Vec<u8>, n: usize)
    ensures
        final(out)@ == old(out)@ + varint(n as nat),
{
    let mut v: usize = n;
    while v >= 128
        invariant
            out@ + varint(v as nat) == old(out)@ + varint(n as nat),
        decreases v,
    {
        let byte: u8 = (v % 128 + 128) as u8;
        proof {
            assert(varint(v as nat) == seq![byte] + varint((v / 128) as nat));
            assert(out@.push(byte) + varint((v / 128) as nat) =~= out@ + varint(v as nat));
        }
        out.push(byte);
        v = v / 128;
    }
    proof {
        assert(varint(v as nat) == seq![v as u8]);
        assert(out@.push(v as u8) =~= out@ + varint(v as nat));
    }
    out.push(v as u8);
}

/// Appends a byte string: its length, then its bytes.
pub fn write_bytes(out: &mut Vec<u8>, b: &[u8])
    ensures
        final(out)@ == old(out)@ + bytes_field(b@),
{
    write_varint(out, b.len());
    out.extend_from_slice(b);
    assert(out@ =~= old(out)@ + bytes_field(b@));
}

/// Reads the varint at `start`, its first `k` bytes already consumed.
fn read_varint_tail(bytes: &[u8], start: usize, k: usize) -> (r: Result<(u128, usize), WireError>)
    requires
        start <= bytes@.len(),
        k <= 10,
    ensures
        match varint_tail(bytes@, start as nat, k as nat) {
            Ok((v, next)) => r matches Ok((x, m)) && x as nat == v && m as nat == next,
            Err(e) => r == Err::<(u128, usize), WireError>(e),
        },
        r matches Ok((x, m)) ==> (x as nat) < pow128((10 - k) as nat) && m <= bytes@.len(),
    decreases 10 - k,
{
    if k >= 10 {
        return Err(WireError::BadVarint);
    }
    if k >= bytes.len() - start {
        return Err(WireError::UnexpectedEnd);
    }
    let b: u8 = bytes[start + k];
    proof {
        lemma_pow128_values();
        lemma_pow128_monotone(1, (10 - k) as nat);
        lemma_pow128_monotone((9 - k) as nat, 9);
    }
    if b < 128 {
        if k == 9 && b > 1 {
            Err(WireError::BadVarint)
        } else {
            Ok((b as u128, start + k + 1))
        }
    } else {
        match read_varint_tail(bytes, start, k + 1) {
            Ok((v, next)) => {
                proof {
                    let p = pow128((9 - k) as nat);
                    assert(pow128((10 - k) as nat) == 128 * p);
                    assert(128 * (v as nat) + 127 < 128 * p) by (nonlinear_arith)
                        requires
                            (v as nat) < p,
                    ;
                }
                Ok(((b - 128) as u128 + 128 * v, next))
            },
            Err(e) => Err(e),
        }
    }
}

/// Reads the varint at `start`: its value and the position after it.
pub fn read_varint(bytes: &[u8], start: usize) -> (r: Result<(u128, usize), WireError>)
    requires
        start <= bytes@.len(),
    ensures
        match varint_at(bytes@, start as nat) {
            Ok((v, next)) => r matches Ok((x, m)) && x as nat == v && m as nat == next,
            Err(e) => r == Err::<(u128, usize), WireError>(e),
        },
        r matches Ok((_, m)) ==> m <= bytes@.len(),
{
    read_varint_tail(bytes, start, 0)
}

/// Reads `N` fixed bytes at `pos`.
pub fn read_array<const N: usize>(bytes: &[u8], pos: usize) -> (r: Result<[u8; N], WireError>)
    requires
        pos <= bytes@.len(),
    ensures
        match array_at(bytes@, pos as nat, N as nat) {
            Ok(b) => r matches Ok(a) && a@ == b,
            Err(e) => r == Err::<[u8; N], WireError>(e),
        },
{
    if N > bytes.len() - pos {
        return Err(WireError::UnexpectedEnd);
    }
    let len: usize = bytes.len();
    let mut a = [0u8; N];
    let mut i: usize = 0;
    while i < N
        invariant
            len == bytes@.len(),
            pos + N <= bytes@.len(),
            i <= N,
            a@.len() == N,
            forall|j: int| 0 <= j < i ==> a@[j] == bytes@[pos + j],
        decreases N - i,
    {
        a[i] = bytes[pos + i];
        i = i + 1;
    }
    assert(a@ =~= bytes@.subrange(pos as int, (pos + N) as int));
    Ok(a)
}

/// Reads the byte string at `pos`: its bytes and the position after it.
pub fn read_bytes(bytes: &[u8], pos: usize) -> (r: Result<(Vec<u8>, usize), WireError>)
    requires
        pos <= bytes@.len(),
    ensures
        match bytes_field_at(bytes@, pos as nat) {
            Ok((b, next)) => r matches Ok((v, m)) && v@ == b && m as nat == next,
            Err(e) => r == Err::<(Vec<u8>, usize), WireError>(e),
        },
{
    let (n, p) = match read_varint(bytes, pos) {
        Ok(x) => x,
        Err(e) => {
            return Err(e);
        },
    };
    if n > (bytes.len() - p) as u128 {
        return Err(WireError::UnexpectedEnd);
    }
    let end: usize = p + n as usize;
    let mut v: Vec<u8> = Vec::new();
    v.extend_from_slice(&bytes[p..end]);
    assert(v@ =~= bytes@.subrange(p as int, end as int));
    Ok((v, end))
}

} // verus!
