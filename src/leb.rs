//! LEB128 integers: the variable-length encoding that carries every
//! unsigned and signed integer wider than a byte, every length and every
//! discriminant on the wire.
use vstd::prelude::*;

verus! {

/// Powers of 128.
pub open spec fn pow128(k: nat) -> nat
    decreases k,
{
    if k == 0 {
        1
    } else {
        128 * pow128((k - 1) as nat)
    }
}

/// The unsigned LEB128 encoding of `v`: groups of seven bits, least
/// significant first, every byte but the last with its high bit set.
pub open spec fn leb128_unsigned(v: nat) -> Seq<u8>
    decreases v,
{
    if v < 128 {
        seq![v as u8]
    } else {
        seq![(v % 128 + 128) as u8] + leb128_unsigned(v / 128)
    }
}

/// The signed LEB128 encoding of `v` (two's complement, sign-extended from
/// bit 6 of the last byte).
pub open spec fn leb128_signed(v: int) -> Seq<u8>
    decreases (if v >= 0 { v } else { -v }),
{
    if -64 <= v < 64 {
        seq![(v % 128) as u8]
    } else {
        seq![(v % 128 + 128) as u8] + leb128_signed(v / 128)
    }
}

/// A complete LEB128 group: bytes with the continuation bit set, closed by
/// one byte without it.
pub open spec fn is_leb128_group(g: Seq<u8>) -> bool {
    &&& g.len() >= 1
    &&& forall|i: int| 0 <= i < g.len() - 1 ==> g[i] >= 128
    &&& g[g.len() - 1] < 128
}

/// The unsigned number that a group of LEB128 bytes denotes.
pub open spec fn leb128_unsigned_value(g: Seq<u8>) -> int
    decreases g.len(),
{
    if g.len() == 0 {
        0
    } else {
        (g[0] % 128) as int + 128 * leb128_unsigned_value(g.drop_first())
    }
}

/// The signed number that a group of LEB128 bytes denotes: bit 6 of the last
/// byte is the sign.
pub open spec fn leb128_signed_value(g: Seq<u8>) -> int
    decreases g.len(),
{
    if g.len() == 0 {
        0
    } else if g.len() == 1 {
        if g[0] % 128 >= 64 {
            g[0] % 128 - 128
        } else {
            (g[0] % 128) as int
        }
    } else {
        (g[0] % 128) as int + 128 * leb128_signed_value(g.drop_first())
    }
}

/// Whether an unsigned group fits in 64 bits as a reader of `u64` accepts it:
/// at most ten bytes, and a tenth byte of 0 or 1.
pub open spec fn fits_unsigned64(g: Seq<u8>) -> bool {
    g.len() < 10 || (g.len() == 10 && g[9] <= 1)
}

/// Whether a signed group fits in 64 bits as a reader of `i64` accepts it:
/// at most ten bytes, and a tenth byte of 0x00 or 0x7f.
pub open spec fn fits_signed64(g: Seq<u8>) -> bool {
    g.len() < 10 || (g.len() == 10 && (g[9] == 0 || g[9] == 0x7f))
}

/// Relies on `leb128::write::unsigned`: it appends the unsigned LEB128
/// encoding of `v`; writing into a `Vec<u8>` does not fail.
#[verifier::external_body]
pub(crate) fn write_unsigned(buf: &mut Vec<u8>, v: u64)
    ensures
        final(buf)@ == old(buf)@ + leb128_unsigned(v as nat),
{
    let _written = leb128::write::unsigned(buf, v);
}

/// Relies on `leb128::write::signed`: it appends the signed LEB128 encoding
/// of `v`; writing into a `Vec<u8>` does not fail.
#[verifier::external_body]
pub(crate) fn write_signed(buf: &mut Vec<u8>, v: i64)
    ensures
        final(buf)@ == old(buf)@ + leb128_signed(v as int),
{
    let _written = leb128::write::signed(buf, v);
}

/// Relies on `leb128::read::unsigned` on a complete group: it yields the
/// group's value, or `Overflow` past 64 bits.
#[verifier::external_body]
fn read_unsigned_group(g: &[u8]) -> (r: Option<u64>)
    requires
        is_leb128_group(g@),
    ensures
        r is Some <==> fits_unsigned64(g@),
        r matches Some(v) ==> v as int == leb128_unsigned_value(g@),
{
    let mut reader = g;
    match leb128::read::unsigned(&mut reader) {
        Ok(v) => Some(v),
        Err(_) => None,
    }
}

/// Relies on `leb128::read::signed` on a complete group: it yields the
/// group's value, or `Overflow` past 64 bits.
#[verifier::external_body]
fn read_signed_group(g: &[u8]) -> (r: Option<i64>)
    requires
        is_leb128_group(g@),
    ensures
        r is Some <==> fits_signed64(g@),
        r matches Some(v) ==> v as int == leb128_signed_value(g@),
{
    let mut reader = g;
    match leb128::read::signed(&mut reader) {
        Ok(v) => Some(v),
        Err(_) => None,
    }
}

/// Why an integer could not be read.
#[derive(Debug, Clone, Copy, PartialEq, Eq, Structural)]
pub enum LebError {
    /// The bytes end before the group is closed.
    Incomplete,
    /// The group denotes a number wider than 64 bits.
    Overflow,
}

/// The end of the LEB128 group that starts at `pos`, if the bytes close it.
pub open spec fn group_end(b: Seq<u8>, pos: int) -> Option<int>
    decreases b.len() - pos,
{
    if pos < 0 || pos >= b.len() {
        None
    } else if b[pos] < 128 {
        Some(pos + 1)
    } else {
        group_end(b, pos + 1)
    }
}

/// What reading an unsigned integer at `pos` gives: the value and the
/// position after it.
pub open spec fn read_unsigned_spec(b: Seq<u8>, pos: int) -> Result<(u64, int), LebError> {
    match group_end(b, pos) {
        None => Err(LebError::Incomplete),
        Some(end) => if fits_unsigned64(b.subrange(pos, end)) {
            Ok((leb128_unsigned_value(b.subrange(pos, end)) as u64, end))
        } else {
            Err(LebError::Overflow)
        },
    }
}

/// What reading a signed integer at `pos` gives: the value and the position
/// after it.
pub open spec fn read_signed_spec(b: Seq<u8>, pos: int) -> Result<(i64, int), LebError> {
    match group_end(b, pos) {
        None => Err(LebError::Incomplete),
        Some(end) => if fits_signed64(b.subrange(pos, end)) {
            Ok((leb128_signed_value(b.subrange(pos, end)) as i64, end))
        } else {
            Err(LebError::Overflow)
        },
    }
}

proof fn lemma_group_end(b: Seq<u8>, pos: int)
    requires
        0 <= pos,
    ensures
        group_end(b, pos) matches Some(end) ==> pos < end <= b.len() && is_leb128_group(
            b.subrange(pos, end),
        ),
        group_end(b, pos) is None ==> forall|i: int| pos <= i < b.len() ==> b[i] >= 128,
    decreases b.len() - pos,
{
    if pos < b.len() && b[pos] >= 128 {
        lemma_group_end(b, pos + 1);
        if let Some(end) = group_end(b, pos + 1) {
            let g = b.subrange(pos, end);
            assert forall|i: int| 0 <= i < g.len() - 1 implies g[i] >= 128 by {
                if i > 0 {
                    assert(g[i] == b.subrange(pos + 1, end)[i - 1]);
                }
            }
        }
    }
}

/// Finds the end of the group that starts at `pos`.
fn find_group_end(b: &[u8], pos: usize) -> (r: Option<usize>)
    ensures
        r matches Some(e) ==> group_end(b@, pos as int) == Some(e as int),
        r is None ==> group_end(b@, pos as int) is None,
{
    let mut i: usize = pos;
    while i < b.len()
        invariant
            pos <= i,
            group_end(b@, pos as int) == group_end(b@, i as int),
        decreases b.len() - i,
    {
        if b[i] < 128 {
            return Some(i + 1);
        }
        i = i + 1;
    }
    None
}

/// Reads an unsigned LEB128 integer at `pos`.
pub fn read_unsigned(b: &[u8], pos: usize) -> (r: Result<(u64, usize), LebError>)
    ensures
        r matches Ok((v, e)) ==> read_unsigned_spec(b@, pos as int) == Ok::<(u64, int), LebError>((v, e as int)) && pos < e <= b.len(),
        r matches Err(err) ==> read_unsigned_spec(b@, pos as int) == Err::<(u64, int), LebError>(err),
{
    proof {
        lemma_group_end(b@, pos as int);
    }
    match find_group_end(b, pos) {
        None => Err(LebError::Incomplete),
        Some(end) => {
            let g = vstd::slice::slice_subrange(b, pos, end);
            match read_unsigned_group(g) {
                Some(v) => Ok((v, end)),
                None => Err(LebError::Overflow),
            }
        },
    }
}

/// Reads a signed LEB128 integer at `pos`.
pub fn read_signed(b: &[u8], pos: usize) -> (r: Result<(i64, usize), LebError>)
    ensures
        r matches Ok((v, e)) ==> read_signed_spec(b@, pos as int) == Ok::<(i64, int), LebError>((v, e as int)) && pos < e <= b.len(),
        r matches Err(err) ==> read_signed_spec(b@, pos as int) == Err::<(i64, int), LebError>(err),
{
    proof {
        lemma_group_end(b@, pos as int);
    }
    match find_group_end(b, pos) {
        None => Err(LebError::Incomplete),
        Some(end) => {
            let g = vstd::slice::slice_subrange(b, pos, end);
            match read_signed_group(g) {
                Some(v) => Ok((v, end)),
                None => Err(LebError::Overflow),
            }
        },
    }
}

/// The unsigned encoding of a 64-bit number is one group that reads back as
/// that number.
pub proof fn lemma_unsigned_round_trip(v: nat)
    requires
        v < 0x1_0000_0000_0000_0000,
    ensures
        is_leb128_group(leb128_unsigned(v)),
        fits_unsigned64(leb128_unsigned(v)),
        leb128_unsigned_value(leb128_unsigned(v)) == v,
{
    lemma_unsigned_group(v);
    reveal_with_fuel(pow128, 10);
    assert(pow128(9) == 0x8000_0000_0000_0000);
    lemma_unsigned_len(v, 9);
}

proof fn lemma_unsigned_group(v: nat)
    ensures
        is_leb128_group(leb128_unsigned(v)),
        leb128_unsigned_value(leb128_unsigned(v)) == v,
    decreases v,
{
    let e = leb128_unsigned(v);
    if v >= 128 {
        lemma_unsigned_group(v / 128);
        let rest = leb128_unsigned(v / 128);
        assert(e.drop_first() =~= rest);
        assert(e[0] % 128 == v % 128);
        assert(v == v % 128 + 128 * (v / 128));
        assert(leb128_unsigned_value(e) == (e[0] % 128) as int + 128 * leb128_unsigned_value(
            e.drop_first(),
        ));
        assert forall|i: int| 0 <= i < e.len() - 1 implies e[i] >= 128 by {
            if i > 0 {
                assert(e[i] == rest[i - 1]);
            }
        }
    } else {
        assert(e.drop_first() =~= Seq::<u8>::empty());
        assert(leb128_unsigned_value(e.drop_first()) == 0);
        assert(e[0] == v as u8);
        assert(leb128_unsigned_value(e) == (e[0] % 128) as int + 128 * leb128_unsigned_value(
            e.drop_first(),
        ));
    }
}

proof fn lemma_unsigned_len(v: nat, k: nat)
    requires
        v < 2 * pow128(k),
    ensures
        leb128_unsigned(v).len() <= k + 1,
        leb128_unsigned(v).len() == k + 1 ==> leb128_unsigned(v)[k as int] <= 1,
    decreases k,
{
    if v >= 128 {
        if k == 0 {
            assert(false);
        } else {
            let k1 = (k - 1) as nat;
            assert(v / 128 < 2 * pow128(k1)) by {
                assert(pow128(k) == 128 * pow128(k1));
            }
            lemma_unsigned_len(v / 128, k1);
            let rest = leb128_unsigned(v / 128);
            assert(leb128_unsigned(v) == seq![(v % 128 + 128) as u8] + rest);
            if leb128_unsigned(v).len() == k + 1 {
                assert(leb128_unsigned(v)[k as int] == rest[k1 as int]);
            }
        }
    }
}

/// The signed encoding of a 64-bit number is one group that reads back as
/// that number.
pub proof fn lemma_signed_round_trip(v: int)
    requires
        -0x8000_0000_0000_0000 <= v < 0x8000_0000_0000_0000,
    ensures
        is_leb128_group(leb128_signed(v)),
        fits_signed64(leb128_signed(v)),
        leb128_signed_value(leb128_signed(v)) == v,
{
    lemma_signed_group(v);
    reveal_with_fuel(pow128, 10);
    assert(pow128(9) == 0x8000_0000_0000_0000);
    lemma_signed_len(v, 9);
}

proof fn lemma_signed_group(v: int)
    ensures
        is_leb128_group(leb128_signed(v)),
        leb128_signed_value(leb128_signed(v)) == v,
    decreases (if v >= 0 { v } else { -v }),
{
    let e = leb128_signed(v);
    if !(-64 <= v < 64) {
        lemma_signed_group(v / 128);
        let rest = leb128_signed(v / 128);
        assert(e.drop_first() =~= rest);
        assert forall|i: int| 0 <= i < e.len() - 1 implies e[i] >= 128 by {
            if i > 0 {
                assert(e[i] == rest[i - 1]);
            }
        }
    }
}

proof fn lemma_signed_len(v: int, k: nat)
    requires
        -pow128(k) <= v < pow128(k),
    ensures
        leb128_signed(v).len() <= k + 1,
        leb128_signed(v).len() == k + 1 ==> (leb128_signed(v)[k as int] == 0 || leb128_signed(
            v,
        )[k as int] == 0x7f),
    decreases k,
{
    if !(-64 <= v < 64) {
        if k == 0 {
            assert(false);
        } else {
            let k1 = (k - 1) as nat;
            assert(-pow128(k1) <= v / 128 < pow128(k1)) by {
                assert(pow128(k) == 128 * pow128(k1));
            }
            lemma_signed_len(v / 128, k1);
            let rest = leb128_signed(v / 128);
            assert(leb128_signed(v) == seq![(v % 128 + 128) as u8] + rest);
            if leb128_signed(v).len() == k + 1 {
                assert(leb128_signed(v)[k as int] == rest[k1 as int]);
            }
        }
    }
}

} // verus!
