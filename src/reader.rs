use vstd::prelude::*;

use crate::error::DbError;

verus! {

/// The unsigned big-endian number written by the bytes `s`.
pub open spec fn be_value(s: Seq<u8>) -> nat
    decreases s.len(),
{
    if s.len() == 0 {
        0
    } else {
        be_value(s.drop_last()) * 256 + s.last() as nat
    }
}

pub open spec fn pow256(n: nat) -> nat
    decreases n,
{
    if n == 0 {
        1
    } else {
        256 * pow256((n - 1) as nat)
    }
}

pub open spec fn pow128(n: nat) -> nat
    decreases n,
{
    if n == 0 {
        1
    } else {
        128 * pow128((n - 1) as nat)
    }
}

/// The `n` bytes at `pos`, read as a big-endian number.
pub open spec fn spec_read_be(data: Seq<u8>, pos: int, n: nat) -> Result<(nat, int), DbError> {
    if pos < 0 || pos + n > data.len() {
        Err(DbError::Truncated)
    } else {
        Ok((be_value(data.subrange(pos, pos + n)), pos + n))
    }
}

/// Decoding of a varint from byte `pos + k` on, where the `k` bytes before
/// have already contributed `acc`: the first eight bytes give seven bits each
/// and flag by their high bit that another byte follows; a ninth byte gives
/// all eight bits.
pub open spec fn varint_step(data: Seq<u8>, pos: int, k: nat, acc: nat) -> Result<(nat, int), DbError>
    decreases 8 - k,
{
    if pos < 0 || pos + k >= data.len() {
        Err(DbError::Truncated)
    } else if k >= 8 {
        Ok((acc * 256 + data[pos + k] as nat, pos + k + 1))
    } else if data[pos + k] < 128 {
        Ok((acc * 128 + data[pos + k] as nat, pos + k + 1))
    } else {
        varint_step(data, pos, k + 1, acc * 128 + (data[pos + k] - 128) as nat)
    }
}

/// The varint at `pos`: its value and the position just after it.
pub open spec fn spec_varint(data: Seq<u8>, pos: int) -> Result<(nat, int), DbError> {
    varint_step(data, pos, 0, 0)
}

pub proof fn lemma_be_value_bound(s: Seq<u8>)
    ensures
        be_value(s) < pow256(s.len()),
    decreases s.len(),
{
    if s.len() > 0 {
        lemma_be_value_bound(s.drop_last());
        let a = be_value(s.drop_last());
        let p = pow256((s.len() - 1) as nat);
        let b = s.last() as nat;
        assert(a * 256 + b < 256 * p) by (nonlinear_arith)
            requires
                a < p,
                b < 256,
        ;
    }
}

proof fn lemma_pow256_mono(a: nat, b: nat)
    requires
        a <= b,
    ensures
        pow256(a) <= pow256(b),
    decreases b,
{
    if a < b {
        lemma_pow256_mono(a, (b - 1) as nat);
    }
}

proof fn lemma_pow128_mono(a: nat, b: nat)
    requires
        a <= b,
    ensures
        pow128(a) <= pow128(b),
    decreases b,
{
    if a < b {
        lemma_pow128_mono(a, (b - 1) as nat);
    }
}

/// Reads `n` (at most 8) big-endian bytes at `pos`.
pub fn read_be(data: &[u8], pos: usize, n: usize) -> (r: Result<(u64, usize), DbError>)
    requires
        n <= 8,
    ensures
        match r {
            Ok((v, p)) => spec_read_be(data@, pos as int, n as nat) == Ok::<(nat, int), DbError>(
                (v as nat, p as int),
            ),
            Err(e) => spec_read_be(data@, pos as int, n as nat) == Err::<(nat, int), DbError>(e),
        },
{
    if pos > data.len() || n > data.len() - pos {
        return Err(DbError::Truncated);
    }
    let mut acc: u64 = 0;
    let mut i: usize = 0;
    proof {
        reveal_with_fuel(pow256, 9);
        lemma_pow256_mono(n as nat, 8);
    }
    while i < n
        invariant
            i <= n,
            n <= 8,
            pos + n <= data.len(),
            acc == be_value(data@.subrange(pos as int, pos + i)),
            pow256(n as nat) <= 0x1_0000_0000_0000_0000,
        decreases n - i,
    {
        proof {
            let s = data@.subrange(pos as int, pos + i + 1);
            assert(s.drop_last() =~= data@.subrange(pos as int, pos + i));
            lemma_be_value_bound(s);
            lemma_pow256_mono((i + 1) as nat, n as nat);
        }
        acc = acc * 256 + data[pos + i] as u64;
        i = i + 1;
    }
    Ok((acc, pos + n))
}

/// Reads one byte at `pos`.
pub fn read_byte(data: &[u8], pos: usize) -> (r: Result<(u8, usize), DbError>)
    ensures
        match r {
            Ok((v, p)) => pos < data@.len() && v == data@[pos as int] && p == pos + 1,
            Err(e) => pos >= data@.len() && e == DbError::Truncated,
        },
{
    if pos < data.len() {
        Ok((data[pos], pos + 1))
    } else {
        Err(DbError::Truncated)
    }
}

/// Reads the varint at `pos`.
pub fn read_varint(data: &[u8], pos: usize) -> (r: Result<(u64, usize), DbError>)
    ensures
        match r {
            Ok((v, p)) => spec_varint(data@, pos as int) == Ok::<(nat, int), DbError>(
                (v as nat, p as int),
            ),
            Err(e) => spec_varint(data@, pos as int) == Err::<(nat, int), DbError>(e),
        },
{
    let mut acc: u64 = 0;
    let mut k: usize = 0;
    proof {
        reveal_with_fuel(pow128, 9);
    }
    loop
        invariant
            k <= 8,
            acc < pow128(k as nat),
            pow128(8) == 0x100_0000_0000_0000,
            spec_varint(data@, pos as int) == varint_step(data@, pos as int, k as nat, acc as nat),
        decreases 8 - k,
    {
        proof {
            lemma_pow128_mono(k as nat, 8);
        }
        if pos >= data.len() || k >= data.len() - pos {
            return Err(DbError::Truncated);
        }
        let b = data[pos + k];
        if k >= 8 {
            assert(acc * 256 + b < 0x1_0000_0000_0000_0000);
            return Ok((acc * 256 + b as u64, pos + k + 1));
        }
        if b < 128 {
            return Ok((acc * 128 + b as u64, pos + k + 1));
        }
        proof {
            lemma_pow128_mono((k + 1) as nat, 8);
            assert(acc * 128 + (b - 128) < 128 * pow128(k as nat)) by (nonlinear_arith)
                requires
                    acc < pow128(k as nat),
                    b - 128 < 128,
            ;
        }
        acc = acc * 128 + (b - 128) as u64;
        k = k + 1;
    }
}

} // verus!

verus! {

/// A varint takes between one and nine bytes.
pub proof fn lemma_varint_advances(data: Seq<u8>, pos: int)
    requires
        spec_varint(data, pos) is Ok,
    ensures
        pos < spec_varint(data, pos)->Ok_0.1 <= pos + 9,
        spec_varint(data, pos)->Ok_0.1 <= data.len(),
{
    lemma_varint_step_advances(data, pos, 0, 0);
}

proof fn lemma_varint_step_advances(data: Seq<u8>, pos: int, k: nat, acc: nat)
    requires
        k <= 8,
        varint_step(data, pos, k, acc) is Ok,
    ensures
        pos + k < varint_step(data, pos, k, acc)->Ok_0.1 <= pos + 9,
        varint_step(data, pos, k, acc)->Ok_0.1 <= data.len(),
    decreases 8 - k,
{
    if !(pos < 0 || pos + k >= data.len()) && k < 8 && data[pos + k] >= 128 {
        lemma_varint_step_advances(data, pos, k + 1, acc * 128 + (data[pos + k] - 128) as nat);
    }
}

} // verus!

verus! {

/// Two bytes hold a `u16`, four a `u32`.
pub proof fn lemma_be_value_fits(s: Seq<u8>)
    ensures
        s.len() == 2 ==> be_value(s) < 0x1_0000,
        s.len() == 4 ==> be_value(s) < 0x1_0000_0000,
{
    lemma_be_value_bound(s);
    reveal_with_fuel(pow256, 5);
}

} // verus!

verus! {

/// The low `n` seven-bit groups of `x`, most significant first, each with
/// its high bit set to flag that another byte follows.
pub open spec fn flagged_groups(x: nat, n: nat) -> Seq<u8>
    decreases n,
{
    if n == 0 {
        Seq::empty()
    } else {
        flagged_groups(x / 128, (n - 1) as nat).push((x % 128 + 128) as u8)
    }
}

/// The number of bytes, from `n` on, that the varint of `v` takes: the
/// fewest (at most eight) whose seven-bit groups hold it, else nine.
pub open spec fn varint_len_from(v: nat, n: nat) -> nat
    decreases 9 - n,
{
    if n >= 9 || v < pow128(n) {
        n
    } else {
        varint_len_from(v, n + 1)
    }
}

/// The shortest varint encoding of `v`.
pub open spec fn encode_varint(v: nat) -> Seq<u8> {
    let n = varint_len_from(v, 1);
    if n >= 9 {
        flagged_groups(v / 256, 8).push((v % 256) as u8)
    } else {
        flagged_groups(v / 128, (n - 1) as nat).push((v % 128) as u8)
    }
}

/// The number that flagged bytes give, seven bits each.
pub open spec fn be7(s: Seq<u8>) -> nat
    decreases s.len(),
{
    if s.len() == 0 {
        0
    } else {
        be7(s.drop_last()) * 128 + (s.last() - 128) as nat
    }
}

proof fn lemma_flagged_groups(x: nat, n: nat)
    requires
        x < pow128(n),
    ensures
        flagged_groups(x, n).len() == n,
        be7(flagged_groups(x, n)) == x,
        forall|i: int| 0 <= i < n ==> #[trigger] flagged_groups(x, n)[i] >= 128,
    decreases n,
{
    if n > 0 {
        let p = pow128((n - 1) as nat);
        assert(x / 128 < p) by (nonlinear_arith)
            requires
                x < 128 * p,
        ;
        lemma_flagged_groups(x / 128, (n - 1) as nat);
        let g = flagged_groups(x, n);
        assert(g.drop_last() =~= flagged_groups(x / 128, (n - 1) as nat));
        assert((x / 128) * 128 + x % 128 == x) by (nonlinear_arith);
    }
}

proof fn lemma_decode_flagged(data: Seq<u8>, k: nat)
    requires
        k <= 8,
        k < data.len(),
        forall|i: int| 0 <= i < k ==> data[i] >= 128,
    ensures
        spec_varint(data, 0) == varint_step(data, 0, k, be7(data.take(k as int))),
    decreases k,
{
    if k > 0 {
        lemma_decode_flagged(data, (k - 1) as nat);
        assert(data.take(k as int).drop_last() =~= data.take(k - 1));
    } else {
        assert(data.take(0) =~= Seq::<u8>::empty());
    }
}

proof fn lemma_varint_len(v: nat, n: nat)
    requires
        1 <= n <= 9,
    ensures
        n <= varint_len_from(v, n) <= 9,
        varint_len_from(v, n) <= 8 ==> v < pow128(varint_len_from(v, n)),
    decreases 9 - n,
{
    if !(n >= 9 || v < pow128(n)) {
        lemma_varint_len(v, n + 1);
    }
}

/// Decoding the encoding of any 64-bit value gives that value back, and
/// consumes the whole encoding.
pub proof fn lemma_varint_round_trip(v: nat)
    requires
        v < 0x1_0000_0000_0000_0000,
    ensures
        spec_varint(encode_varint(v), 0) == Ok::<(nat, int), DbError>((v, encode_varint(v).len() as int)),
{
    let n = varint_len_from(v, 1);
    lemma_varint_len(v, 1);
    reveal_with_fuel(pow128, 9);
    let e = encode_varint(v);
    if n >= 9 {
        assert(v / 256 < pow128(8)) by (nonlinear_arith)
            requires
                v < 0x1_0000_0000_0000_0000,
                pow128(8) == 0x100_0000_0000_0000,
        ;
        lemma_flagged_groups(v / 256, 8);
        assert(e.take(8) =~= flagged_groups(v / 256, 8));
        lemma_decode_flagged(e, 8);
        assert((v / 256) * 256 + v % 256 == v) by (nonlinear_arith);
    } else {
        let m = (n - 1) as nat;
        lemma_pow128_succ(m);
        assert(v / 128 < pow128(m)) by (nonlinear_arith)
            requires
                v < 128 * pow128(m),
        ;
        lemma_flagged_groups(v / 128, m);
        assert(e.take(m as int) =~= flagged_groups(v / 128, m));
        lemma_decode_flagged(e, m);
        assert((v / 128) * 128 + v % 128 == v) by (nonlinear_arith);
    }
}

proof fn lemma_pow128_succ(m: nat)
    ensures
        pow128(m + 1) == 128 * pow128(m),
{
}

} // verus!
