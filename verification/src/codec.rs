//! Artifact encoding: a fixed binary format for every artifact the toolchain
//! persists (settings, commitment parameters, keys, proofs, datasets), with a
//! proved byte-exact round trip: decoding an encoding yields the original
//! value, and the decoder rejects buffers it cannot account for.

use vstd::prelude::*;

use crate::lifecycle::{
    CommitmentParams, ProvingKey, Snark, SnarkV, TranscriptType, VerificationKey,
};
use crate::settings::{CircuitSettings, LookupRange, SettingsV};

verus! {

/// One byte of a word: byte `i` of the little-endian encoding.
pub open spec fn byte_of(v: u64, i: int) -> u8 {
    ((v >> ((8 * i) as u64)) & 0xff) as u8
}

/// The eight little-endian bytes of a word.
pub open spec fn enc_u64(v: u64) -> Seq<u8> {
    Seq::new(8, |i: int| byte_of(v, i))
}

/// The word eight bytes spell, little-endian.
pub open spec fn dec_u64_raw(s: Seq<u8>) -> u64 {
    ((s[0] as u64) | ((s[1] as u64) << 8u64) | ((s[2] as u64) << 16u64) | ((s[3] as u64) << 24u64)
        | ((s[4] as u64) << 32u64) | ((s[5] as u64) << 40u64) | ((s[6] as u64) << 48u64) | ((
    s[7] as u64) << 56u64)) as u64
}

proof fn lemma_u64_codec(v: u64)
    ensures
        dec_u64_raw(enc_u64(v)) == v,
{
    let e = enc_u64(v);
    assert(e[0] == ((v >> 0u64) & 0xff) as u8);
    assert(e[1] == ((v >> 8u64) & 0xff) as u8);
    assert(e[2] == ((v >> 16u64) & 0xff) as u8);
    assert(e[3] == ((v >> 24u64) & 0xff) as u8);
    assert(e[4] == ((v >> 32u64) & 0xff) as u8);
    assert(e[5] == ((v >> 40u64) & 0xff) as u8);
    assert(e[6] == ((v >> 48u64) & 0xff) as u8);
    assert(e[7] == ((v >> 56u64) & 0xff) as u8);
    assert((((((v >> 0u64) & 0xff) as u8) as u64) | (((((v >> 8u64) & 0xff) as u8) as u64) << 8u64)
        | (((((v >> 16u64) & 0xff) as u8) as u64) << 16u64) | (((((v >> 24u64) & 0xff) as u8)
        as u64) << 24u64) | (((((v >> 32u64) & 0xff) as u8) as u64) << 32u64) | (((((v >> 40u64)
        & 0xff) as u8) as u64) << 40u64) | (((((v >> 48u64) & 0xff) as u8) as u64) << 48u64) | ((((
    (v >> 56u64) & 0xff) as u8) as u64) << 56u64)) == v) by (bit_vector);
}

/// Append the little-endian bytes of a word.
pub fn write_u64(out: &mut Vec<u8>, v: u64)
    ensures
        final(out)@ == old(out)@ + enc_u64(v),
{
    out.push(((v >> 0u64) & 0xff) as u8);
    out.push(((v >> 8u64) & 0xff) as u8);
    out.push(((v >> 16u64) & 0xff) as u8);
    out.push(((v >> 24u64) & 0xff) as u8);
    out.push(((v >> 32u64) & 0xff) as u8);
    out.push(((v >> 40u64) & 0xff) as u8);
    out.push(((v >> 48u64) & 0xff) as u8);
    out.push(((v >> 56u64) & 0xff) as u8);
    proof {
        assert(final(out)@ =~= old(out)@ + enc_u64(v));
    }
}

/// Read the word at `pos`.
pub fn read_u64(buf: &Vec<u8>, pos: usize) -> (r: u64)
    requires
        pos + 8 <= buf@.len(),
    ensures
        r == dec_u64_raw(buf@.subrange(pos as int, pos as int + 8)),
{
    let n: usize = buf.len();
    proof {
        assert(pos + 8 <= n);
    }
    let r: u64 = (buf[pos] as u64) | ((buf[pos + 1] as u64) << 8u64) | ((buf[pos + 2] as u64)
        << 16u64) | ((buf[pos + 3] as u64) << 24u64) | ((buf[pos + 4] as u64) << 32u64) | ((buf[pos
        + 5] as u64) << 40u64) | ((buf[pos + 6] as u64) << 48u64) | ((buf[pos + 7] as u64)
        << 56u64);
    proof {
        let s = buf@.subrange(pos as int, pos as int + 8);
        assert(s[0] == buf@[pos as int]);
        assert(s[1] == buf@[pos as int + 1]);
        assert(s[2] == buf@[pos as int + 2]);
        assert(s[3] == buf@[pos as int + 3]);
        assert(s[4] == buf@[pos as int + 4]);
        assert(s[5] == buf@[pos as int + 5]);
        assert(s[6] == buf@[pos as int + 6]);
        assert(s[7] == buf@[pos as int + 7]);
    }
    r
}

/// Parse a word at `pos`: the value and the next position.
pub open spec fn dec_u64_at(s: Seq<u8>, pos: int) -> Option<(u64, int)> {
    if 0 <= pos && pos + 8 <= s.len() {
        Some((dec_u64_raw(s.subrange(pos, pos + 8)), pos + 8))
    } else {
        None
    }
}

proof fn lemma_dec_u64_at_enc(s: Seq<u8>, pos: int, v: u64)
    requires
        0 <= pos,
        pos + 8 <= s.len(),
        s.subrange(pos, pos + 8) == enc_u64(v),
    ensures
        dec_u64_at(s, pos) == Some((v, pos + 8)),
{
    lemma_u64_codec(v);
}

proof fn lemma_window_split(s: Seq<u8>, pos: int, a: Seq<u8>, b: Seq<u8>)
    requires
        0 <= pos,
        pos + a.len() + b.len() <= s.len(),
        s.subrange(pos, pos + a.len() + b.len()) == a + b,
    ensures
        s.subrange(pos, pos + a.len()) == a,
        s.subrange(pos + a.len(), pos + a.len() + b.len()) == b,
{
    let w = s.subrange(pos, pos + a.len() + b.len());
    assert forall|j: int| 0 <= j < a.len() implies s.subrange(pos, pos + a.len())[j] == a[j] by {
        assert(w[j] == (a + b)[j]);
    }
    assert(s.subrange(pos, pos + a.len()) =~= a);
    assert forall|j: int|
        0 <= j < b.len() implies s.subrange(pos + a.len(), pos + a.len() + b.len())[j] == b[j] by {
        assert(w[a.len() + j] == (a + b)[a.len() + j]);
    }
    assert(s.subrange(pos + a.len(), pos + a.len() + b.len()) =~= b);
}

/// A narrow word, stored widened.
pub open spec fn enc_u32(v: u32) -> Seq<u8> {
    enc_u64(v as u64)
}

/// Parse a narrow word at `pos`; reject words that do not fit.
pub open spec fn dec_u32_at(s: Seq<u8>, pos: int) -> Option<(u32, int)> {
    match dec_u64_at(s, pos) {
        Some((v, p)) => if v <= u32::MAX as u64 {
            Some((v as u32, p))
        } else {
            None
        },
        None => None,
    }
}

proof fn lemma_dec_u32_at_enc(s: Seq<u8>, pos: int, v: u32)
    requires
        0 <= pos,
        pos + 8 <= s.len(),
        s.subrange(pos, pos + 8) == enc_u32(v),
    ensures
        dec_u32_at(s, pos) == Some((v, pos + 8)),
{
    lemma_dec_u64_at_enc(s, pos, v as u64);
}

/// The unsigned word a signed value is stored as, shifted by `2^63`.
pub open spec fn i64_word(v: i64) -> u64 {
    (v as int + 0x8000_0000_0000_0000) as u64
}

/// The signed value an unsigned word stands for.
pub open spec fn word_i64(w: u64) -> i64 {
    (w as int - 0x8000_0000_0000_0000) as i64
}

/// A signed value, stored offset by `2^63`.
pub open spec fn enc_i64(v: i64) -> Seq<u8> {
    enc_u64(i64_word(v))
}

/// Parse a signed value at `pos`.
pub open spec fn dec_i64_at(s: Seq<u8>, pos: int) -> Option<(i64, int)> {
    match dec_u64_at(s, pos) {
        Some((w, p)) => Some((word_i64(w), p)),
        None => None,
    }
}

proof fn lemma_i64_word_codec(v: i64)
    ensures
        word_i64(i64_word(v)) == v,
{
    assert(0 <= v as int + 0x8000_0000_0000_0000 < 0x1_0000_0000_0000_0000);
}

proof fn lemma_dec_i64_at_enc(s: Seq<u8>, pos: int, v: i64)
    requires
        0 <= pos,
        pos + 8 <= s.len(),
        s.subrange(pos, pos + 8) == enc_i64(v),
    ensures
        dec_i64_at(s, pos) == Some((v, pos + 8)),
{
    lemma_dec_u64_at_enc(s, pos, i64_word(v));
    lemma_i64_word_codec(v);
}

/// A byte string, count-prefixed.
pub open spec fn enc_bytes(b: Seq<u8>) -> Seq<u8> {
    enc_u64(b.len() as u64) + b
}

/// Parse a byte string at `pos`.
pub open spec fn dec_bytes_at(s: Seq<u8>, pos: int) -> Option<(Seq<u8>, int)> {
    match dec_u64_at(s, pos) {
        Some((n, p)) => if p + n <= s.len() {
            Some((s.subrange(p, p + n as int), p + n as int))
        } else {
            None
        },
        None => None,
    }
}

proof fn lemma_dec_bytes_at_enc(s: Seq<u8>, pos: int, b: Seq<u8>)
    requires
        b.len() <= u64::MAX,
        0 <= pos,
        pos + 8 + b.len() <= s.len(),
        s.subrange(pos, pos + 8 + b.len()) == enc_bytes(b),
    ensures
        dec_bytes_at(s, pos) == Some((b, pos + 8 + b.len())),
{
    lemma_window_split(s, pos, enc_u64(b.len() as u64), b);
    lemma_dec_u64_at_enc(s, pos, b.len() as u64);
}

/// Words in sequence, in order.
pub open spec fn enc_u64s(v: Seq<u64>) -> Seq<u8>
    decreases v.len(),
{
    if v.len() == 0 {
        Seq::empty()
    } else {
        enc_u64s(v.drop_last()) + enc_u64(v.last())
    }
}

proof fn lemma_enc_u64s_len(v: Seq<u64>)
    ensures
        enc_u64s(v).len() == 8 * v.len(),
    decreases v.len(),
{
    if v.len() > 0 {
        lemma_enc_u64s_len(v.drop_last());
    }
}

/// Parse `n` words at `pos`.
pub open spec fn dec_u64s_at(s: Seq<u8>, pos: int, n: nat) -> Option<(Seq<u64>, int)>
    decreases n,
{
    if n == 0 {
        Some((Seq::empty(), pos))
    } else {
        match dec_u64s_at(s, pos, (n - 1) as nat) {
            Some((vs, p)) => match dec_u64_at(s, p) {
                Some((v, p2)) => Some((vs.push(v), p2)),
                None => None,
            },
            None => None,
        }
    }
}

proof fn lemma_dec_u64s_at_enc(s: Seq<u8>, pos: int, v: Seq<u64>)
    requires
        0 <= pos,
        pos + 8 * v.len() <= s.len(),
        s.subrange(pos, pos + 8 * v.len()) == enc_u64s(v),
    ensures
        dec_u64s_at(s, pos, v.len()) == Some((v, pos + 8 * v.len())),
    decreases v.len(),
{
    if v.len() > 0 {
        lemma_enc_u64s_len(v.drop_last());
        lemma_window_split(s, pos, enc_u64s(v.drop_last()), enc_u64(v.last()));
        lemma_dec_u64s_at_enc(s, pos, v.drop_last());
        let p = pos + 8 * (v.len() - 1);
        lemma_dec_u64_at_enc(s, p, v.last());
        assert(v.drop_last().push(v.last()) =~= v);
    } else {
        assert(v =~= Seq::<u64>::empty());
    }
}

proof fn lemma_dec_u64s_none_mono(s: Seq<u8>, pos: int, k: nat, m: nat)
    requires
        k <= m,
        dec_u64s_at(s, pos, k) is None,
    ensures
        dec_u64s_at(s, pos, m) is None,
    decreases m,
{
    if m > k {
        lemma_dec_u64s_none_mono(s, pos, k, (m - 1) as nat);
    }
}

/// A word list, count-prefixed.
pub open spec fn enc_u64_vec(v: Seq<u64>) -> Seq<u8> {
    enc_u64(v.len() as u64) + enc_u64s(v)
}

/// Parse a word list at `pos`.
pub open spec fn dec_u64_vec_at(s: Seq<u8>, pos: int) -> Option<(Seq<u64>, int)> {
    match dec_u64_at(s, pos) {
        Some((n, p)) => dec_u64s_at(s, p, n as nat),
        None => None,
    }
}

proof fn lemma_dec_u64_vec_at_enc(s: Seq<u8>, pos: int, v: Seq<u64>)
    requires
        v.len() <= u64::MAX,
        0 <= pos,
        pos + enc_u64_vec(v).len() <= s.len(),
        s.subrange(pos, pos + enc_u64_vec(v).len()) == enc_u64_vec(v),
    ensures
        enc_u64_vec(v).len() == 8 + 8 * v.len(),
        dec_u64_vec_at(s, pos) == Some((v, pos + 8 + 8 * v.len())),
{
    lemma_enc_u64s_len(v);
    lemma_window_split(s, pos, enc_u64(v.len() as u64), enc_u64s(v));
    lemma_dec_u64_at_enc(s, pos, v.len() as u64);
    lemma_dec_u64s_at_enc(s, pos + 8, v);
}

/// Narrow words in sequence, each widened.
pub open spec fn enc_u32s(v: Seq<u32>) -> Seq<u8>
    decreases v.len(),
{
    if v.len() == 0 {
        Seq::empty()
    } else {
        enc_u32s(v.drop_last()) + enc_u32(v.last())
    }
}

proof fn lemma_enc_u32s_len(v: Seq<u32>)
    ensures
        enc_u32s(v).len() == 8 * v.len(),
    decreases v.len(),
{
    if v.len() > 0 {
        lemma_enc_u32s_len(v.drop_last());
    }
}

/// Parse `n` narrow words at `pos`.
pub open spec fn dec_u32s_at(s: Seq<u8>, pos: int, n: nat) -> Option<(Seq<u32>, int)>
    decreases n,
{
    if n == 0 {
        Some((Seq::empty(), pos))
    } else {
        match dec_u32s_at(s, pos, (n - 1) as nat) {
            Some((vs, p)) => match dec_u32_at(s, p) {
                Some((v, p2)) => Some((vs.push(v), p2)),
                None => None,
            },
            None => None,
        }
    }
}

proof fn lemma_dec_u32s_at_enc(s: Seq<u8>, pos: int, v: Seq<u32>)
    requires
        0 <= pos,
        pos + 8 * v.len() <= s.len(),
        s.subrange(pos, pos + 8 * v.len()) == enc_u32s(v),
    ensures
        dec_u32s_at(s, pos, v.len()) == Some((v, pos + 8 * v.len())),
    decreases v.len(),
{
    if v.len() > 0 {
        lemma_enc_u32s_len(v.drop_last());
        lemma_window_split(s, pos, enc_u32s(v.drop_last()), enc_u32(v.last()));
        lemma_dec_u32s_at_enc(s, pos, v.drop_last());
        let p = pos + 8 * (v.len() - 1);
        lemma_dec_u32_at_enc(s, p, v.last());
        assert(v.drop_last().push(v.last()) =~= v);
    } else {
        assert(v =~= Seq::<u32>::empty());
    }
}

proof fn lemma_dec_u32s_none_mono(s: Seq<u8>, pos: int, k: nat, m: nat)
    requires
        k <= m,
        dec_u32s_at(s, pos, k) is None,
    ensures
        dec_u32s_at(s, pos, m) is None,
    decreases m,
{
    if m > k {
        lemma_dec_u32s_none_mono(s, pos, k, (m - 1) as nat);
    }
}

/// A narrow-word list, count-prefixed.
pub open spec fn enc_u32_vec(v: Seq<u32>) -> Seq<u8> {
    enc_u64(v.len() as u64) + enc_u32s(v)
}

/// Parse a narrow-word list at `pos`.
pub open spec fn dec_u32_vec_at(s: Seq<u8>, pos: int) -> Option<(Seq<u32>, int)> {
    match dec_u64_at(s, pos) {
        Some((n, p)) => dec_u32s_at(s, p, n as nat),
        None => None,
    }
}

proof fn lemma_dec_u32_vec_at_enc(s: Seq<u8>, pos: int, v: Seq<u32>)
    requires
        v.len() <= u64::MAX,
        0 <= pos,
        pos + enc_u32_vec(v).len() <= s.len(),
        s.subrange(pos, pos + enc_u32_vec(v).len()) == enc_u32_vec(v),
    ensures
        enc_u32_vec(v).len() == 8 + 8 * v.len(),
        dec_u32_vec_at(s, pos) == Some((v, pos + 8 + 8 * v.len())),
{
    lemma_enc_u32s_len(v);
    lemma_window_split(s, pos, enc_u64(v.len() as u64), enc_u32s(v));
    lemma_dec_u64_at_enc(s, pos, v.len() as u64);
    lemma_dec_u32s_at_enc(s, pos + 8, v);
}

/// Word rows in sequence, each count-prefixed, in order.
pub open spec fn enc_rows(v: Seq<Seq<u64>>) -> Seq<u8>
    decreases v.len(),
{
    if v.len() == 0 {
        Seq::empty()
    } else {
        enc_rows(v.drop_last()) + enc_u64_vec(v.last())
    }
}

/// Parse `n` word rows at `pos`.
pub open spec fn dec_rows_at(s: Seq<u8>, pos: int, n: nat) -> Option<(Seq<Seq<u64>>, int)>
    decreases n,
{
    if n == 0 {
        Some((Seq::empty(), pos))
    } else {
        match dec_rows_at(s, pos, (n - 1) as nat) {
            Some((vs, p)) => match dec_u64_vec_at(s, p) {
                Some((v, p2)) => Some((vs.push(v), p2)),
                None => None,
            },
            None => None,
        }
    }
}

proof fn lemma_dec_rows_at_enc(s: Seq<u8>, pos: int, v: Seq<Seq<u64>>)
    requires
        forall|i: int| 0 <= i < v.len() ==> (#[trigger] v[i]).len() <= u64::MAX,
        0 <= pos,
        pos + enc_rows(v).len() <= s.len(),
        s.subrange(pos, pos + enc_rows(v).len()) == enc_rows(v),
    ensures
        dec_rows_at(s, pos, v.len()) == Some((v, pos + enc_rows(v).len())),
    decreases v.len(),
{
    if v.len() > 0 {
        assert(forall|i: int| 0 <= i < v.len() - 1 ==> v.drop_last()[i] == #[trigger] v[i]);
        lemma_window_split(s, pos, enc_rows(v.drop_last()), enc_u64_vec(v.last()));
        lemma_dec_rows_at_enc(s, pos, v.drop_last());
        let p = pos + enc_rows(v.drop_last()).len();
        lemma_dec_u64_vec_at_enc(s, p, v.last());
        assert(v.drop_last().push(v.last()) =~= v);
    } else {
        assert(v =~= Seq::<Seq<u64>>::empty());
    }
}

proof fn lemma_dec_rows_none_mono(s: Seq<u8>, pos: int, k: nat, m: nat)
    requires
        k <= m,
        dec_rows_at(s, pos, k) is None,
    ensures
        dec_rows_at(s, pos, m) is None,
    decreases m,
{
    if m > k {
        lemma_dec_rows_none_mono(s, pos, k, (m - 1) as nat);
    }
}

/// A row list, count-prefixed.
pub open spec fn enc_rows_vec(v: Seq<Seq<u64>>) -> Seq<u8> {
    enc_u64(v.len() as u64) + enc_rows(v)
}

/// Parse a row list at `pos`.
pub open spec fn dec_rows_vec_at(s: Seq<u8>, pos: int) -> Option<(Seq<Seq<u64>>, int)> {
    match dec_u64_at(s, pos) {
        Some((n, p)) => dec_rows_at(s, p, n as nat),
        None => None,
    }
}

proof fn lemma_dec_rows_vec_at_enc(s: Seq<u8>, pos: int, v: Seq<Seq<u64>>)
    requires
        v.len() <= u64::MAX,
        forall|i: int| 0 <= i < v.len() ==> (#[trigger] v[i]).len() <= u64::MAX,
        0 <= pos,
        pos + enc_rows_vec(v).len() <= s.len(),
        s.subrange(pos, pos + enc_rows_vec(v).len()) == enc_rows_vec(v),
    ensures
        dec_rows_vec_at(s, pos) == Some((v, pos + enc_rows_vec(v).len())),
{
    lemma_window_split(s, pos, enc_u64(v.len() as u64), enc_rows(v));
    lemma_dec_u64_at_enc(s, pos, v.len() as u64);
    lemma_dec_rows_at_enc(s, pos + 8, v);
}

/// Append a narrow word.
pub fn write_u32(out: &mut Vec<u8>, v: u32)
    ensures
        final(out)@ == old(out)@ + enc_u32(v),
{
    write_u64(out, v as u64);
}

/// Append a signed value.
pub fn write_i64(out: &mut Vec<u8>, v: i64)
    ensures
        final(out)@ == old(out)@ + enc_i64(v),
{
    let w: u64 = ((v as i128) + 0x8000_0000_0000_0000i128) as u64;
    proof {
        assert(w == i64_word(v));
    }
    write_u64(out, w);
}

/// Append a count-prefixed byte string.
pub fn write_bytes(out: &mut Vec<u8>, b: &Vec<u8>)
    ensures
        final(out)@ == old(out)@ + enc_bytes(b@),
{
    let ghost base: Seq<u8> = out@;
    write_u64(out, b.len() as u64);
    let mut i: usize = 0;
    while i < b.len()
        invariant
            i <= b@.len(),
            out@ == base + enc_u64(b@.len() as u64) + b@.take(i as int),
        decreases b@.len() - i,
    {
        out.push(b[i]);
        i = i + 1;
        proof {
            assert(out@ =~= base + enc_u64(b@.len() as u64) + b@.take(i as int));
        }
    }
    proof {
        assert(b@.take(b@.len() as int) =~= b@);
        assert(out@ =~= base + enc_bytes(b@));
    }
}

/// Append a count-prefixed word list.
pub fn write_u64_list(out: &mut Vec<u8>, v: &Vec<u64>)
    ensures
        final(out)@ == old(out)@ + enc_u64_vec(v@),
{
    let ghost base: Seq<u8> = out@;
    write_u64(out, v.len() as u64);
    let mut i: usize = 0;
    while i < v.len()
        invariant
            i <= v@.len(),
            out@ == base + enc_u64(v@.len() as u64) + enc_u64s(v@.take(i as int)),
        decreases v@.len() - i,
    {
        proof {
            assert(v@.take(i + 1).drop_last() =~= v@.take(i as int));
            assert(v@.take(i + 1).last() == v@[i as int]);
        }
        write_u64(out, v[i]);
        i = i + 1;
        proof {
            assert(out@ =~= base + enc_u64(v@.len() as u64) + enc_u64s(v@.take(i as int)));
        }
    }
    proof {
        assert(v@.take(v@.len() as int) =~= v@);
        assert(out@ =~= base + enc_u64_vec(v@));
    }
}

/// Append a count-prefixed narrow-word list.
pub fn write_u32_list(out: &mut Vec<u8>, v: &Vec<u32>)
    ensures
        final(out)@ == old(out)@ + enc_u32_vec(v@),
{
    let ghost base: Seq<u8> = out@;
    write_u64(out, v.len() as u64);
    let mut i: usize = 0;
    while i < v.len()
        invariant
            i <= v@.len(),
            out@ == base + enc_u64(v@.len() as u64) + enc_u32s(v@.take(i as int)),
        decreases v@.len() - i,
    {
        proof {
            assert(v@.take(i + 1).drop_last() =~= v@.take(i as int));
            assert(v@.take(i + 1).last() == v@[i as int]);
        }
        write_u32(out, v[i]);
        i = i + 1;
        proof {
            assert(out@ =~= base + enc_u64(v@.len() as u64) + enc_u32s(v@.take(i as int)));
        }
    }
    proof {
        assert(v@.take(v@.len() as int) =~= v@);
        assert(out@ =~= base + enc_u32_vec(v@));
    }
}

/// Append a count-prefixed row list.
pub fn write_rows(out: &mut Vec<u8>, v: &Vec<Vec<u64>>)
    ensures
        final(out)@ == old(out)@ + enc_rows_vec(v.deep_view()),
{
    let ghost base: Seq<u8> = out@;
    let ghost dv = v.deep_view();
    proof {
        assert(dv.len() == v@.len());
        assert(forall|k: int| 0 <= k < dv.len() ==> dv[k] == (#[trigger] v@[k])@);
    }
    write_u64(out, v.len() as u64);
    let mut i: usize = 0;
    while i < v.len()
        invariant
            dv == v.deep_view(),
            dv.len() == v@.len(),
            forall|k: int| 0 <= k < dv.len() ==> dv[k] == (#[trigger] v@[k])@,
            i <= dv.len(),
            out@ == base + enc_u64(dv.len() as u64) + enc_rows(dv.take(i as int)),
        decreases v@.len() - i,
    {
        proof {
            assert(dv.take(i + 1).drop_last() =~= dv.take(i as int));
            assert(dv.take(i + 1).last() == dv[i as int]);
        }
        write_u64_list(out, &v[i]);
        i = i + 1;
        proof {
            assert(out@ =~= base + enc_u64(dv.len() as u64) + enc_rows(dv.take(i as int)));
        }
    }
    proof {
        assert(dv.take(dv.len() as int) =~= dv);
        assert(out@ =~= base + enc_rows_vec(dv));
    }
}

/// Read a word at `pos`, with the next position.
pub fn read_u64_from(buf: &Vec<u8>, pos: usize) -> (r: Option<(u64, usize)>)
    ensures
        match r {
            Some((v, p)) => dec_u64_at(buf@, pos as int) == Some((v, p as int)),
            None => dec_u64_at(buf@, pos as int) is None,
        },
{
    let n: usize = buf.len();
    if pos <= n && n - pos >= 8 {
        Some((read_u64(buf, pos), pos + 8))
    } else {
        None
    }
}

/// Read a narrow word at `pos`, with the next position.
pub fn read_u32_from(buf: &Vec<u8>, pos: usize) -> (r: Option<(u32, usize)>)
    ensures
        match r {
            Some((v, p)) => dec_u32_at(buf@, pos as int) == Some((v, p as int)),
            None => dec_u32_at(buf@, pos as int) is None,
        },
{
    match read_u64_from(buf, pos) {
        Some((v, p)) => {
            if v <= 0xFFFF_FFFFu64 {
                Some((v as u32, p))
            } else {
                None
            }
        },
        None => None,
    }
}

/// Read a signed value at `pos`, with the next position.
pub fn read_i64_from(buf: &Vec<u8>, pos: usize) -> (r: Option<(i64, usize)>)
    ensures
        match r {
            Some((v, p)) => dec_i64_at(buf@, pos as int) == Some((v, p as int)),
            None => dec_i64_at(buf@, pos as int) is None,
        },
{
    match read_u64_from(buf, pos) {
        Some((w, p)) => {
            let v: i64 = ((w as i128) - 0x8000_0000_0000_0000i128) as i64;
            proof {
                assert(v == word_i64(w));
            }
            Some((v, p))
        },
        None => None,
    }
}

/// Read a count-prefixed byte string at `pos`, with the next position.
pub fn read_bytes_from(buf: &Vec<u8>, pos: usize) -> (r: Option<(Vec<u8>, usize)>)
    ensures
        match r {
            Some((v, p)) => dec_bytes_at(buf@, pos as int) == Some((v@, p as int)),
            None => dec_bytes_at(buf@, pos as int) is None,
        },
{
    let total: usize = buf.len();
    match read_u64_from(buf, pos) {
        Some((n, p)) => {
            if n <= (total - p) as u64 {
                let len: usize = n as usize;
                let mut v: Vec<u8> = Vec::new();
                let mut i: usize = 0;
                while i < len
                    invariant
                        p + len <= buf@.len(),
                        p + len <= total,
                        i <= len,
                        v@ == buf@.subrange(p as int, p as int + i as int),
                    decreases len - i,
                {
                    v.push(buf[p + i]);
                    i = i + 1;
                    proof {
                        assert(v@ =~= buf@.subrange(p as int, p as int + i as int));
                    }
                }
                Some((v, p + len))
            } else {
                None
            }
        },
        None => None,
    }
}

/// Read a count-prefixed word list at `pos`, with the next position.
pub fn read_u64_list_from(buf: &Vec<u8>, pos: usize) -> (r: Option<(Vec<u64>, usize)>)
    ensures
        match r {
            Some((v, p)) => dec_u64_vec_at(buf@, pos as int) == Some((v@, p as int)),
            None => dec_u64_vec_at(buf@, pos as int) is None,
        },
{
    match read_u64_from(buf, pos) {
        Some((n, p0)) => {
            let mut v: Vec<u64> = Vec::new();
            let mut p: usize = p0;
            let mut i: u64 = 0;
            while i < n
                invariant
                    i <= n,
                    dec_u64_at(buf@, pos as int) == Some((n, p0 as int)),
                    dec_u64s_at(buf@, p0 as int, i as nat) == Some((v@, p as int)),
                decreases n - i,
            {
                match read_u64_from(buf, p) {
                    Some((x, p2)) => {
                        v.push(x);
                        p = p2;
                    },
                    None => {
                        proof {
                            assert(dec_u64s_at(buf@, p0 as int, (i as nat) + 1) is None);
                            lemma_dec_u64s_none_mono(buf@, p0 as int, (i as nat) + 1, n as nat);
                        }
                        return None;
                    },
                }
                i = i + 1;
            }
            Some((v, p))
        },
        None => None,
    }
}

/// Read a count-prefixed narrow-word list at `pos`, with the next position.
pub fn read_u32_list_from(buf: &Vec<u8>, pos: usize) -> (r: Option<(Vec<u32>, usize)>)
    ensures
        match r {
            Some((v, p)) => dec_u32_vec_at(buf@, pos as int) == Some((v@, p as int)),
            None => dec_u32_vec_at(buf@, pos as int) is None,
        },
{
    match read_u64_from(buf, pos) {
        Some((n, p0)) => {
            let mut v: Vec<u32> = Vec::new();
            let mut p: usize = p0;
            let mut i: u64 = 0;
            while i < n
                invariant
                    i <= n,
                    dec_u64_at(buf@, pos as int) == Some((n, p0 as int)),
                    dec_u32s_at(buf@, p0 as int, i as nat) == Some((v@, p as int)),
                decreases n - i,
            {
                match read_u32_from(buf, p) {
                    Some((x, p2)) => {
                        v.push(x);
                        p = p2;
                    },
                    None => {
                        proof {
                            assert(dec_u32s_at(buf@, p0 as int, (i as nat) + 1) is None);
                            lemma_dec_u32s_none_mono(buf@, p0 as int, (i as nat) + 1, n as nat);
                        }
                        return None;
                    },
                }
                i = i + 1;
            }
            Some((v, p))
        },
        None => None,
    }
}

/// Read a count-prefixed row list at `pos`, with the next position.
pub fn read_rows_from(buf: &Vec<u8>, pos: usize) -> (r: Option<(Vec<Vec<u64>>, usize)>)
    ensures
        match r {
            Some((v, p)) => dec_rows_vec_at(buf@, pos as int) == Some((v.deep_view(), p as int)),
            None => dec_rows_vec_at(buf@, pos as int) is None,
        },
{
    match read_u64_from(buf, pos) {
        Some((n, p0)) => {
            let mut v: Vec<Vec<u64>> = Vec::new();
            let mut p: usize = p0;
            let mut i: u64 = 0;
            while i < n
                invariant
                    i <= n,
                    v@.len() == i,
                    dec_u64_at(buf@, pos as int) == Some((n, p0 as int)),
                    dec_rows_at(buf@, p0 as int, i as nat) == Some((v.deep_view(), p as int)),
                decreases n - i,
            {
                match read_u64_list_from(buf, p) {
                    Some((x, p2)) => {
                        v.push(x);
                        p = p2;
                        proof {
                            assert(v.deep_view() =~~= dec_rows_at(
                                buf@,
                                p0 as int,
                                i as nat + 1,
                            ).unwrap().0);
                        }
                    },
                    None => {
                        proof {
                            assert(dec_rows_at(buf@, p0 as int, (i as nat) + 1) is None);
                            lemma_dec_rows_none_mono(buf@, p0 as int, (i as nat) + 1, n as nat);
                        }
                        return None;
                    },
                }
                i = i + 1;
            }
            Some((v, p))
        },
        None => None,
    }
}


/// The stored tag of a transcript kind.
pub open spec fn transcript_tag(t: TranscriptType) -> u64 {
    match t {
        TranscriptType::Blake => 0,
        TranscriptType::Poseidon => 1,
        TranscriptType::Evm => 2,
    }
}

/// The transcript kind a stored tag stands for.
pub open spec fn tag_transcript(v: u64) -> Option<TranscriptType> {
    if v == 0 {
        Some(TranscriptType::Blake)
    } else if v == 1 {
        Some(TranscriptType::Poseidon)
    } else if v == 2 {
        Some(TranscriptType::Evm)
    } else {
        None
    }
}

fn transcript_tag_exec(t: TranscriptType) -> (r: u64)
    ensures
        r == transcript_tag(t),
{
    match t {
        TranscriptType::Blake => 0,
        TranscriptType::Poseidon => 1,
        TranscriptType::Evm => 2,
    }
}

fn tag_transcript_exec(v: u64) -> (r: Option<TranscriptType>)
    ensures
        r == tag_transcript(v),
{
    if v == 0 {
        Some(TranscriptType::Blake)
    } else if v == 1 {
        Some(TranscriptType::Poseidon)
    } else if v == 2 {
        Some(TranscriptType::Evm)
    } else {
        None
    }
}

/// The settings artifact's encoding: every field in declaration order.
pub open spec fn enc_settings(v: SettingsV) -> Seq<u8> {
    enc_u32(v.input_scale) + (enc_u32(v.param_scale) + (enc_u32(v.scale_rebase_multiplier) + (
    enc_u32(v.logrows) + (enc_i64(v.lookup_lo) + (enc_i64(v.lookup_hi) + (enc_u64_vec(
        v.required_lookups,
    ) + (enc_u32_vec(v.model_input_scales) + (enc_u32_vec(v.model_output_scales) + (enc_u64(
        v.num_constraints,
    ) + (enc_u64(v.total_const_size) + enc_rows_vec(v.model_instance_shapes)))))))))))
}

/// Parse a settings artifact: every field in order, consuming the whole
/// buffer.
pub open spec fn dec_settings(s: Seq<u8>) -> Option<SettingsV> {
    match dec_u32_at(s, 0) {
        Some((input_scale, p1)) => match dec_u32_at(s, p1) {
            Some((param_scale, p2)) => match dec_u32_at(s, p2) {
                Some((scale_rebase_multiplier, p3)) => match dec_u32_at(s, p3) {
                    Some((logrows, p4)) => match dec_i64_at(s, p4) {
                        Some((lookup_lo, p5)) => match dec_i64_at(s, p5) {
                            Some((lookup_hi, p6)) => match dec_u64_vec_at(s, p6) {
                                Some((required_lookups, p7)) => match dec_u32_vec_at(s, p7) {
                                    Some((model_input_scales, p8)) => match dec_u32_vec_at(s, p8) {
                                        Some((model_output_scales, p9)) => match dec_u64_at(s, p9) {
                                            Some((num_constraints, p10)) => match dec_u64_at(
                                                s,
                                                p10,
                                            ) {
                                                Some((total_const_size, p11)) => match dec_rows_vec_at(
                                                    s,
                                                    p11,
                                                ) {
                                                    Some((model_instance_shapes, p12)) => if p12
                                                        == s.len() {
                                                        Some(
                                                            SettingsV {
                                                                input_scale,
                                                                param_scale,
                                                                scale_rebase_multiplier,
                                                                logrows,
                                                                lookup_lo,
                                                                lookup_hi,
                                                                required_lookups,
                                                                model_input_scales,
                                                                model_output_scales,
                                                                num_constraints,
                                                                total_const_size,
                                                                model_instance_shapes,
                                                            },
                                                        )
                                                    } else {
                                                        None
                                                    },
                                                    None => None,
                                                },
                                                None => None,
                                            },
                                            None => None,
                                        },
                                        None => None,
                                    },
                                    None => None,
                                },
                                None => None,
                            },
                            None => None,
                        },
                        None => None,
                    },
                    None => None,
                },
                None => None,
            },
            None => None,
        },
        None => None,
    }
}

/// Encode a settings artifact.
pub fn encode_settings(s: &CircuitSettings) -> (r: Vec<u8>)
    ensures
        r@ == enc_settings(s@),
{
    let mut out: Vec<u8> = Vec::new();
    write_u32(&mut out, s.input_scale);
    write_u32(&mut out, s.param_scale);
    write_u32(&mut out, s.scale_rebase_multiplier);
    write_u32(&mut out, s.logrows);
    write_i64(&mut out, s.lookup_range.lo);
    write_i64(&mut out, s.lookup_range.hi);
    write_u64_list(&mut out, &s.required_lookups);
    write_u32_list(&mut out, &s.model_input_scales);
    write_u32_list(&mut out, &s.model_output_scales);
    write_u64(&mut out, s.num_constraints);
    write_u64(&mut out, s.total_const_size);
    write_rows(&mut out, &s.model_instance_shapes);
    proof {
        assert(out@ =~= enc_settings(s@));
    }
    out
}

/// Decode a settings artifact; rejects any buffer that is not exactly an
/// encoding.
pub fn decode_settings(buf: &Vec<u8>) -> (r: Option<CircuitSettings>)
    ensures
        match dec_settings(buf@) {
            Some(v) => (r matches Some(x) && x@ == v),
            None => r is None,
        },
{
    let (input_scale, p1) = match read_u32_from(buf, 0) {
        Some(x) => x,
        None => { return None; },
    };
    let (param_scale, p2) = match read_u32_from(buf, p1) {
        Some(x) => x,
        None => { return None; },
    };
    let (scale_rebase_multiplier, p3) = match read_u32_from(buf, p2) {
        Some(x) => x,
        None => { return None; },
    };
    let (logrows, p4) = match read_u32_from(buf, p3) {
        Some(x) => x,
        None => { return None; },
    };
    let (lookup_lo, p5) = match read_i64_from(buf, p4) {
        Some(x) => x,
        None => { return None; },
    };
    let (lookup_hi, p6) = match read_i64_from(buf, p5) {
        Some(x) => x,
        None => { return None; },
    };
    let (required_lookups, p7) = match read_u64_list_from(buf, p6) {
        Some(x) => x,
        None => { return None; },
    };
    let (model_input_scales, p8) = match read_u32_list_from(buf, p7) {
        Some(x) => x,
        None => { return None; },
    };
    let (model_output_scales, p9) = match read_u32_list_from(buf, p8) {
        Some(x) => x,
        None => { return None; },
    };
    let (num_constraints, p10) = match read_u64_from(buf, p9) {
        Some(x) => x,
        None => { return None; },
    };
    let (total_const_size, p11) = match read_u64_from(buf, p10) {
        Some(x) => x,
        None => { return None; },
    };
    let (model_instance_shapes, p12) = match read_rows_from(buf, p11) {
        Some(x) => x,
        None => { return None; },
    };
    if p12 != buf.len() {
        return None;
    }
    let r = CircuitSettings {
        input_scale,
        param_scale,
        scale_rebase_multiplier,
        logrows,
        lookup_range: LookupRange { lo: lookup_lo, hi: lookup_hi },
        required_lookups,
        model_input_scales,
        model_output_scales,
        num_constraints,
        total_const_size,
        model_instance_shapes,
    };
    proof {
        assert(r@ =~= dec_settings(buf@).unwrap());
    }
    Some(r)
}

proof fn lemma_settings_parse_finish(s: Seq<u8>, v: SettingsV, q7: int, q8: int, q9: int, q12: int)
    requires
        dec_u32_at(s, 0) == Some((v.input_scale, 8int)),
        dec_u32_at(s, 8) == Some((v.param_scale, 16int)),
        dec_u32_at(s, 16) == Some((v.scale_rebase_multiplier, 24int)),
        dec_u32_at(s, 24) == Some((v.logrows, 32int)),
        dec_i64_at(s, 32) == Some((v.lookup_lo, 40int)),
        dec_i64_at(s, 40) == Some((v.lookup_hi, 48int)),
        dec_u64_vec_at(s, 48) == Some((v.required_lookups, q7)),
        dec_u32_vec_at(s, q7) == Some((v.model_input_scales, q8)),
        dec_u32_vec_at(s, q8) == Some((v.model_output_scales, q9)),
        dec_u64_at(s, q9) == Some((v.num_constraints, q9 + 8)),
        dec_u64_at(s, q9 + 8) == Some((v.total_const_size, q9 + 16)),
        dec_rows_vec_at(s, q9 + 16) == Some((v.model_instance_shapes, q12)),
        q12 == s.len(),
    ensures
        dec_settings(s) == Some(v),
{
    assert(dec_settings(s) is Some);
    assert(dec_settings(s).unwrap() =~= v);
}

/// Law (round trip): decoding an encoded settings artifact yields exactly the
/// settings that were encoded.
#[verifier::rlimit(100)]
pub proof fn lemma_settings_round_trip(v: SettingsV)
    requires
        v.required_lookups.len() <= u64::MAX,
        v.model_input_scales.len() <= u64::MAX,
        v.model_output_scales.len() <= u64::MAX,
        v.model_instance_shapes.len() <= u64::MAX,
        forall|i: int|
            0 <= i < v.model_instance_shapes.len() ==> (#[trigger] v.model_instance_shapes[i]).len()
                <= u64::MAX,
    ensures
        dec_settings(enc_settings(v)) == Some(v),
{
    let e1 = enc_u32(v.input_scale);
    let e2 = enc_u32(v.param_scale);
    let e3 = enc_u32(v.scale_rebase_multiplier);
    let e4 = enc_u32(v.logrows);
    let e5 = enc_i64(v.lookup_lo);
    let e6 = enc_i64(v.lookup_hi);
    let e7 = enc_u64_vec(v.required_lookups);
    let e8 = enc_u32_vec(v.model_input_scales);
    let e9 = enc_u32_vec(v.model_output_scales);
    let e10 = enc_u64(v.num_constraints);
    let e11 = enc_u64(v.total_const_size);
    let e12 = enc_rows_vec(v.model_instance_shapes);
    let s = enc_settings(v);

    let r11 = e12;
    let r10 = e11 + r11;
    let r9 = e10 + r10;
    let r8 = e9 + r9;
    let r7 = e8 + r8;
    let r6 = e7 + r7;
    let r5 = e6 + r6;
    let r4 = e5 + r5;
    let r3 = e4 + r4;
    let r2 = e3 + r3;
    let r1 = e2 + r2;
    assert(s == e1 + r1);
    assert(s.subrange(0, s.len() as int) =~= s);

    let p0: int = 0;
    lemma_window_split(s, p0, e1, r1);
    lemma_dec_u32_at_enc(s, p0, v.input_scale);
    let p1 = p0 + 8;
    lemma_window_split(s, p1, e2, r2);
    lemma_dec_u32_at_enc(s, p1, v.param_scale);
    let p2 = p1 + 8;
    lemma_window_split(s, p2, e3, r3);
    lemma_dec_u32_at_enc(s, p2, v.scale_rebase_multiplier);
    let p3 = p2 + 8;
    lemma_window_split(s, p3, e4, r4);
    lemma_dec_u32_at_enc(s, p3, v.logrows);
    let p4 = p3 + 8;
    lemma_window_split(s, p4, e5, r5);
    lemma_dec_i64_at_enc(s, p4, v.lookup_lo);
    let p5 = p4 + 8;
    lemma_window_split(s, p5, e6, r6);
    lemma_dec_i64_at_enc(s, p5, v.lookup_hi);
    let p6 = p5 + 8;
    lemma_window_split(s, p6, e7, r7);
    lemma_dec_u64_vec_at_enc(s, p6, v.required_lookups);
    let p7: int = p6 + e7.len() as int;
    lemma_window_split(s, p7, e8, r8);
    lemma_dec_u32_vec_at_enc(s, p7, v.model_input_scales);
    let p8: int = p7 + e8.len() as int;
    lemma_window_split(s, p8, e9, r9);
    lemma_dec_u32_vec_at_enc(s, p8, v.model_output_scales);
    let p9: int = p8 + e9.len() as int;
    lemma_window_split(s, p9, e10, r10);
    lemma_dec_u64_at_enc(s, p9, v.num_constraints);
    let p10 = p9 + 8;
    lemma_window_split(s, p10, e11, r11);
    lemma_dec_u64_at_enc(s, p10, v.total_const_size);
    let p11 = p10 + 8;
    lemma_dec_rows_vec_at_enc(s, p11, v.model_instance_shapes);
    let p12: int = p11 + e12.len() as int;
    assert(p12 == s.len());
    lemma_settings_parse_finish(s, v, p7, p8, p9, p12);
}

/// The commitment-parameters artifact's encoding.
pub open spec fn enc_params(p: CommitmentParams) -> Seq<u8> {
    enc_u32(p.k) + enc_u64(p.generator)
}

/// Parse a commitment-parameters artifact.
pub open spec fn dec_params(s: Seq<u8>) -> Option<CommitmentParams> {
    match dec_u32_at(s, 0) {
        Some((k, p1)) => match dec_u64_at(s, p1) {
            Some((generator, p2)) => if p2 == s.len() {
                Some(CommitmentParams { k, generator })
            } else {
                None
            },
            None => None,
        },
        None => None,
    }
}

/// Encode a commitment-parameters artifact.
pub fn encode_params(p: &CommitmentParams) -> (r: Vec<u8>)
    ensures
        r@ == enc_params(*p),
{
    let mut out: Vec<u8> = Vec::new();
    write_u32(&mut out, p.k);
    write_u64(&mut out, p.generator);
    proof {
        assert(out@ =~= enc_params(*p));
    }
    out
}

/// Decode a commitment-parameters artifact.
pub fn decode_params(buf: &Vec<u8>) -> (r: Option<CommitmentParams>)
    ensures
        r == dec_params(buf@),
{
    let (k, p1) = match read_u32_from(buf, 0) {
        Some(x) => x,
        None => { return None; },
    };
    let (generator, p2) = match read_u64_from(buf, p1) {
        Some(x) => x,
        None => { return None; },
    };
    if p2 != buf.len() {
        return None;
    }
    Some(CommitmentParams { k, generator })
}

/// Law (round trip): decoding encoded commitment parameters yields exactly
/// the parameters that were encoded.
pub proof fn lemma_params_round_trip(p: CommitmentParams)
    ensures
        dec_params(enc_params(p)) == Some(p),
{
    let s = enc_params(p);
    assert(s.subrange(0, s.len() as int) =~= s);
    lemma_window_split(s, 0, enc_u32(p.k), enc_u64(p.generator));
    lemma_dec_u32_at_enc(s, 0, p.k);
    lemma_dec_u64_at_enc(s, 8, p.generator);
}

/// A key artifact's encoding: its opaque payload, count-prefixed.
pub open spec fn enc_key(payload: Seq<u8>) -> Seq<u8> {
    enc_bytes(payload)
}

/// Parse a key artifact.
pub open spec fn dec_key(s: Seq<u8>) -> Option<Seq<u8>> {
    match dec_bytes_at(s, 0) {
        Some((payload, p)) => if p == s.len() {
            Some(payload)
        } else {
            None
        },
        None => None,
    }
}

/// Encode a proving-key artifact.
pub fn encode_proving_key(k: &ProvingKey) -> (r: Vec<u8>)
    ensures
        r@ == enc_key(k@),
{
    let mut out: Vec<u8> = Vec::new();
    write_bytes(&mut out, &k.payload);
    proof {
        assert(out@ =~= enc_key(k@));
    }
    out
}

/// Decode a proving-key artifact.
pub fn decode_proving_key(buf: &Vec<u8>) -> (r: Option<ProvingKey>)
    ensures
        match dec_key(buf@) {
            Some(payload) => (r matches Some(k) && k@ == payload),
            None => r is None,
        },
{
    let (payload, p) = match read_bytes_from(buf, 0) {
        Some(x) => x,
        None => { return None; },
    };
    if p != buf.len() {
        return None;
    }
    Some(ProvingKey { payload })
}

/// Encode a verification-key artifact.
pub fn encode_verification_key(k: &VerificationKey) -> (r: Vec<u8>)
    ensures
        r@ == enc_key(k@),
{
    let mut out: Vec<u8> = Vec::new();
    write_bytes(&mut out, &k.payload);
    proof {
        assert(out@ =~= enc_key(k@));
    }
    out
}

/// Decode a verification-key artifact.
pub fn decode_verification_key(buf: &Vec<u8>) -> (r: Option<VerificationKey>)
    ensures
        match dec_key(buf@) {
            Some(payload) => (r matches Some(k) && k@ == payload),
            None => r is None,
        },
{
    let (payload, p) = match read_bytes_from(buf, 0) {
        Some(x) => x,
        None => { return None; },
    };
    if p != buf.len() {
        return None;
    }
    Some(VerificationKey { payload })
}

/// Law (round trip): decoding an encoded key artifact yields exactly the
/// payload that was encoded.
pub proof fn lemma_key_round_trip(payload: Seq<u8>)
    requires
        payload.len() <= u64::MAX,
    ensures
        dec_key(enc_key(payload)) == Some(payload),
{
    let s = enc_key(payload);
    assert(s.subrange(0, s.len() as int) =~= s);
    lemma_dec_bytes_at_enc(s, 0, payload);
}

/// The proof artifact's encoding: proof bytes, instances, protocol
/// descriptor, transcript tag.
pub open spec fn enc_snark(v: SnarkV) -> Seq<u8> {
    enc_bytes(v.proof) + (enc_rows_vec(v.instances) + (enc_bytes(v.protocol) + enc_u64(
        transcript_tag(v.transcript_type),
    )))
}

/// Parse a proof artifact.
pub open spec fn dec_snark(s: Seq<u8>) -> Option<SnarkV> {
    match dec_bytes_at(s, 0) {
        Some((proof, p1)) => match dec_rows_vec_at(s, p1) {
            Some((instances, p2)) => match dec_bytes_at(s, p2) {
                Some((protocol, p3)) => match dec_u64_at(s, p3) {
                    Some((tag, p4)) => if p4 == s.len() {
                        match tag_transcript(tag) {
                            Some(transcript_type) => Some(
                                SnarkV { proof, instances, protocol, transcript_type },
                            ),
                            None => None,
                        }
                    } else {
                        None
                    },
                    None => None,
                },
                None => None,
            },
            None => None,
        },
        None => None,
    }
}

/// Encode a proof artifact.
pub fn encode_snark(v: &Snark) -> (r: Vec<u8>)
    ensures
        r@ == enc_snark(v@),
{
    let mut out: Vec<u8> = Vec::new();
    write_bytes(&mut out, &v.proof);
    write_rows(&mut out, &v.instances);
    write_bytes(&mut out, &v.protocol);
    let tag = transcript_tag_exec(v.transcript_type);
    write_u64(&mut out, tag);
    proof {
        assert(out@ =~= enc_snark(v@));
    }
    out
}

/// Decode a proof artifact.
pub fn decode_snark(buf: &Vec<u8>) -> (r: Option<Snark>)
    ensures
        match dec_snark(buf@) {
            Some(v) => (r matches Some(x) && x@ == v),
            None => r is None,
        },
{
    let (proof, p1) = match read_bytes_from(buf, 0) {
        Some(x) => x,
        None => { return None; },
    };
    let (instances, p2) = match read_rows_from(buf, p1) {
        Some(x) => x,
        None => { return None; },
    };
    let (protocol, p3) = match read_bytes_from(buf, p2) {
        Some(x) => x,
        None => { return None; },
    };
    let (tag, p4) = match read_u64_from(buf, p3) {
        Some(x) => x,
        None => { return None; },
    };
    if p4 != buf.len() {
        return None;
    }
    let transcript_type = match tag_transcript_exec(tag) {
        Some(t) => t,
        None => { return None; },
    };
    let r = Snark { proof, instances, protocol, transcript_type };
    proof {
        assert(r@ =~= dec_snark(buf@).unwrap());
    }
    Some(r)
}

proof fn lemma_snark_parse_finish(s: Seq<u8>, v: SnarkV, q1: int, q2: int, q3: int)
    requires
        dec_bytes_at(s, 0) == Some((v.proof, q1)),
        dec_rows_vec_at(s, q1) == Some((v.instances, q2)),
        dec_bytes_at(s, q2) == Some((v.protocol, q3)),
        dec_u64_at(s, q3) == Some((transcript_tag(v.transcript_type), q3 + 8)),
        q3 + 8 == s.len(),
    ensures
        dec_snark(s) == Some(v),
{
    assert(tag_transcript(transcript_tag(v.transcript_type)) == Some(v.transcript_type));
    assert(dec_snark(s) is Some);
    assert(dec_snark(s).unwrap() =~= v);
}

/// Law (round trip): decoding an encoded proof artifact yields exactly the
/// proof that was encoded.
#[verifier::rlimit(100)]
pub proof fn lemma_snark_round_trip(v: SnarkV)
    requires
        v.proof.len() <= u64::MAX,
        v.protocol.len() <= u64::MAX,
        v.instances.len() <= u64::MAX,
        forall|i: int| 0 <= i < v.instances.len() ==> (#[trigger] v.instances[i]).len() <= u64::MAX,
    ensures
        dec_snark(enc_snark(v)) == Some(v),
{
    let e1 = enc_bytes(v.proof);
    let e2 = enc_rows_vec(v.instances);
    let e3 = enc_bytes(v.protocol);
    let e4 = enc_u64(transcript_tag(v.transcript_type));
    let s = enc_snark(v);

    let r3 = e4;
    let r2 = e3 + r3;
    let r1 = e2 + r2;
    assert(s == e1 + r1);
    assert(s.subrange(0, s.len() as int) =~= s);

    lemma_window_split(s, 0, e1, r1);
    lemma_dec_bytes_at_enc(s, 0, v.proof);
    let p1: int = e1.len() as int;
    lemma_window_split(s, p1, e2, r2);
    lemma_dec_rows_vec_at_enc(s, p1, v.instances);
    let p2: int = p1 + e2.len() as int;
    lemma_window_split(s, p2, e3, r3);
    lemma_dec_bytes_at_enc(s, p2, v.protocol);
    let p3: int = p2 + e3.len() as int;
    lemma_dec_u64_at_enc(s, p3, transcript_tag(v.transcript_type));
    lemma_snark_parse_finish(s, v, p1, p2, p3);
}

} // verus!
