//! Fixed-layout byte helpers: copying arrays in and out of byte strings, and
//! little-endian integers.
use vstd::prelude::*;

verus! {

broadcast use Seq::lemma_flatten_push;

/// The rows of a two-dimensional byte array, each as a sequence.
pub open spec fn rows_view<const N: usize, const M: usize>(a: [[u8; N]; M]) -> Seq<Seq<u8>> {
    Seq::new(M as nat, |i: int| a[i]@)
}

/// `n` consecutive chunks of `len` bytes each, starting at the front of `b`.
pub open spec fn chunks(b: Seq<u8>, n: nat, len: nat) -> Seq<Seq<u8>> {
    Seq::new(n, |i: int| b.subrange(len * i, len * i + len))
}

/// Little-endian bytes of a `u32`.
pub open spec fn le_bytes(x: u32) -> Seq<u8> {
    seq![
        (x & 0xff) as u8,
        ((x >> 8u32) & 0xff) as u8,
        ((x >> 16u32) & 0xff) as u8,
        ((x >> 24u32) & 0xff) as u8,
    ]
}

/// The `u32` whose little-endian bytes begin `b`.
pub open spec fn le_value(b: Seq<u8>) -> u32 {
    (b[0] as u32) | ((b[1] as u32) << 8u32) | ((b[2] as u32) << 16u32) | ((b[3] as u32) << 24u32)
}

pub proof fn lemma_le_round_trip(x: u32)
    ensures
        le_value(le_bytes(x)) == x,
        le_bytes(le_value(le_bytes(x))) == le_bytes(x),
{
    let b0 = (x & 0xff) as u8;
    let b1 = ((x >> 8u32) & 0xff) as u8;
    let b2 = ((x >> 16u32) & 0xff) as u8;
    let b3 = ((x >> 24u32) & 0xff) as u8;
    assert(((b0 as u32) | ((b1 as u32) << 8u32) | ((b2 as u32) << 16u32) | ((b3 as u32)
        << 24u32)) == x) by (bit_vector)
        requires
            b0 == (x & 0xff) as u8,
            b1 == ((x >> 8u32) & 0xff) as u8,
            b2 == ((x >> 16u32) & 0xff) as u8,
            b3 == ((x >> 24u32) & 0xff) as u8,
    ;
}

pub proof fn lemma_le_zero()
    ensures
        le_bytes(0) == seq![0u8, 0u8, 0u8, 0u8],
{
    assert((0u32 & 0xff) as u8 == 0 && ((0u32 >> 8u32) & 0xff) as u8 == 0 && ((0u32 >> 16u32)
        & 0xff) as u8 == 0 && ((0u32 >> 24u32) & 0xff) as u8 == 0) by (bit_vector);
    assert(le_bytes(0) =~= seq![0u8, 0u8, 0u8, 0u8]);
}

/// Flattening rows of equal length `len` puts byte `j` of row `i` at
/// `len * i + j`.
pub proof fn lemma_flatten_rows(s: Seq<Seq<u8>>, len: nat)
    requires
        forall|i: int| 0 <= i < s.len() ==> (#[trigger] s[i]).len() == len,
    ensures
        s.flatten().len() == s.len() * len,
        forall|i: int, j: int|
            0 <= i < s.len() && 0 <= j < len ==> s.flatten()[len * i + j] == #[trigger] s[i][j],
    decreases s.len(),
{
    if s.len() > 0 {
        let t = s.drop_last();
        lemma_flatten_rows(t, len);
        assert(t.push(s.last()) =~= s);
        assert(s.flatten() == t.flatten() + s.last());
        assert(s.len() * len == t.len() * len + len) by (nonlinear_arith)
            requires
                s.len() == t.len() + 1,
        ;
        assert forall|i: int, j: int| 0 <= i < s.len() && 0 <= j < len implies s.flatten()[len
            * i + j] == #[trigger] s[i][j] by {
            if i < t.len() {
                assert(len * i + j < t.len() * len) by (nonlinear_arith)
                    requires
                        0 <= i < t.len(),
                        0 <= j < len,
                ;
                assert(t[i] == s[i]);
            } else {
                assert(len * i == t.len() * len) by (nonlinear_arith)
                    requires
                        i == t.len(),
                ;
            }
        }
    }
}

/// Cutting flattened rows of equal length back into chunks gives the rows.
pub proof fn lemma_chunks_of_flatten(s: Seq<Seq<u8>>, len: nat)
    requires
        forall|i: int| 0 <= i < s.len() ==> (#[trigger] s[i]).len() == len,
    ensures
        s.flatten().len() == s.len() * len,
        chunks(s.flatten(), s.len(), len) == s,
{
    lemma_flatten_rows(s, len);
    let f = s.flatten();
    assert forall|i: int| 0 <= i < s.len() implies #[trigger] chunks(f, s.len(), len)[i] == s[i] by {
        assert(len * i + len <= s.len() * len) by (nonlinear_arith)
            requires
                0 <= i < s.len(),
        ;
        assert forall|j: int| 0 <= j < len implies f.subrange(len * i, len * i + len)[j]
            == s[i][j] by {
            assert(f[len * i + j] == s[i][j]);
        }
        assert(f.subrange(len * i, len * i + len) =~= s[i]);
    }
    assert(chunks(f, s.len(), len) =~= s);
}

/// Appends the bytes of `a` to `out`.
pub fn push_bytes(out: &mut Vec<u8>, a: &[u8])
    ensures
        final(out)@ == old(out)@ + a@,
{
    let ghost start = out@;
    let mut i: usize = 0;
    while i < a.len()
        invariant
            0 <= i <= a.len(),
            out@ == start + a@.subrange(0, i as int),
        decreases a.len() - i,
    {
        out.push(a[i]);
        assert(a@.subrange(0, i + 1) =~= a@.subrange(0, i as int).push(a@[i as int]));
        i += 1;
    }
    assert(a@.subrange(0, a.len() as int) =~= a@);
}

/// Appends the rows of `rows` to `out`, one after the other.
pub fn push_rows<const N: usize, const M: usize>(out: &mut Vec<u8>, rows: &[[u8; N]; M])
    ensures
        final(out)@ == old(out)@ + rows_view(*rows).flatten(),
{
    let ghost start = out@;
    let ghost rv = rows_view(*rows);
    let mut i: usize = 0;
    while i < M
        invariant
            0 <= i <= M,
            rv == rows_view(*rows),
            out@ == start + rv.take(i as int).flatten(),
        decreases M - i,
    {
        push_bytes(out, rows[i].as_slice());
        proof {
            assert(rv.take(i + 1) =~= rv.take(i as int).push(rv[i as int]));
            assert(rv.take(i as int).push(rv[i as int]).flatten() == rv.take(i as int).flatten()
                + rv[i as int]);
        }
        i += 1;
    }
    assert(rv.take(M as int) =~= rv);
}

/// Reads `N` bytes starting at `off`.
pub fn read_array<const N: usize>(bytes: &[u8], off: usize) -> (r: [u8; N])
    requires
        off + N <= bytes@.len(),
    ensures
        r@ == bytes@.subrange(off as int, off + N),
{
    let mut a = [0u8; N];
    let blen = bytes.len();
    let mut i: usize = 0;
    while i < N
        invariant
            0 <= i <= N,
            blen == bytes@.len(),
            off + N <= blen,
            forall|j: int| 0 <= j < i ==> a@[j] == bytes@[off + j],
        decreases N - i,
    {
        a[i] = bytes[off + i];
        i += 1;
    }
    assert(a@ =~= bytes@.subrange(off as int, off + N));
    a
}

/// Reads `M` rows of `N` bytes each, starting at `off`.
pub fn read_rows<const N: usize, const M: usize>(bytes: &[u8], off: usize) -> (r: [[u8; N]; M])
    requires
        off + N * M <= bytes@.len(),
    ensures
        rows_view(r) == chunks(bytes@.subrange(off as int, off + N * M), M as nat, N as nat),
{
    let mut rows = [[0u8; N]; M];
    let blen = bytes.len();
    let ghost b = bytes@.subrange(off as int, off + N * M);
    let mut i: usize = 0;
    let mut pos: usize = off;
    while i < M
        invariant
            0 <= i <= M,
            blen == bytes@.len(),
            off + N * M <= blen,
            b == bytes@.subrange(off as int, off + N * M),
            pos == off + N * i,
            b.len() == N * M,
            forall|k: int| 0 <= k < i ==> (#[trigger] rows[k])@ == b.subrange(N * k, N * k + N),
        decreases M - i,
    {
        assert(N * i + N <= N * M) by (nonlinear_arith)
            requires
                i < M,
        ;
        let row: [u8; N] = read_array(bytes, pos);
        assert(row@ =~= b.subrange(N * i, N * i + N));
        let ghost prev = rows;
        rows[i] = row;
        assert forall|k: int| 0 <= k < i + 1 implies (#[trigger] rows[k])@ == b.subrange(
            N * k,
            N * k + N,
        ) by {
            if k < i {
                assert(rows[k] == prev[k]);
            }
        }
        assert(N * (i + 1) == N * i + N) by (nonlinear_arith);
        pos = pos + N;
        i += 1;
    }
    assert(rows_view(rows) =~= chunks(b, M as nat, N as nat));
    rows
}

/// Reads a little-endian `u32` at `off`.
pub fn read_le_u32(bytes: &[u8], off: usize) -> (r: u32)
    requires
        off + 4 <= bytes@.len(),
    ensures
        r == le_value(bytes@.subrange(off as int, off + 4)),
{
    (bytes[off] as u32) | ((bytes[off + 1] as u32) << 8u32) | ((bytes[off + 2] as u32) << 16u32)
        | ((bytes[off + 3] as u32) << 24u32)
}

/// The little-endian bytes of `x`.
pub fn le_bytes_of(x: u32) -> (r: [u8; 4])
    ensures
        r@ == le_bytes(x),
{
    let r = [
        (x & 0xff) as u8,
        ((x >> 8u32) & 0xff) as u8,
        ((x >> 16u32) & 0xff) as u8,
        ((x >> 24u32) & 0xff) as u8,
    ];
    assert(r@ =~= le_bytes(x));
    r
}

} // verus!
