//! Recursive-length-prefix encoding: the byte framing used for transaction
//! payloads, receipts and trie keys. The spec functions define the canonical
//! encoding; the exec functions build it and are proved against the spec.

use vstd::prelude::*;

verus! {

/// Minimal big-endian digits of `n`: empty for zero, no leading zero byte.
pub open spec fn be_bytes(n: nat) -> Seq<u8>
    decreases n,
{
    if n == 0 {
        Seq::empty()
    } else {
        be_bytes(n / 256) + seq![(n % 256) as u8]
    }
}

/// 256^k, the bound under which `be_bytes` fits in `k` digits.
pub open spec fn pow256(k: nat) -> nat
    decreases k,
{
    if k == 0 {
        1
    } else {
        256 * pow256((k - 1) as nat)
    }
}

pub proof fn lemma_be_bytes_len(n: nat, k: nat)
    requires
        n < pow256(k),
    ensures
        be_bytes(n).len() <= k,
    decreases k,
{
    if n == 0 {
    } else {
        if k == 0 {
        } else {
            lemma_be_bytes_len(n / 256, (k - 1) as nat);
        }
    }
}

pub proof fn lemma_be_bytes_nonzero(n: nat)
    requires
        n > 0,
    ensures
        be_bytes(n).len() >= 1,
{
}

/// The canonical encoding of a byte string.
pub open spec fn rlp_str(p: Seq<u8>) -> Seq<u8> {
    if p.len() == 1 && p[0] < 0x80 {
        p
    } else if p.len() <= 55 {
        seq![(0x80 + p.len()) as u8] + p
    } else {
        seq![(0xb7 + be_bytes(p.len()).len()) as u8] + be_bytes(p.len()) + p
    }
}

/// The canonical framing of a list whose item encodings concatenate to `p`.
pub open spec fn rlp_list(p: Seq<u8>) -> Seq<u8> {
    if p.len() <= 55 {
        seq![(0xc0 + p.len()) as u8] + p
    } else {
        seq![(0xf7 + be_bytes(p.len()).len()) as u8] + be_bytes(p.len()) + p
    }
}

/// The canonical encoding of an unsigned integer: its minimal big-endian
/// digits encoded as a byte string.
pub open spec fn rlp_uint(n: nat) -> Seq<u8> {
    rlp_str(be_bytes(n))
}

/// Concatenation of `f` applied to each element, in order.
pub open spec fn cat_map<T>(s: Seq<T>, f: spec_fn(T) -> Seq<u8>) -> Seq<u8>
    decreases s.len(),
{
    if s.len() == 0 {
        Seq::empty()
    } else {
        f(s[0]) + cat_map(s.drop_first(), f)
    }
}

pub proof fn lemma_cat_map_snoc<T>(s: Seq<T>, f: spec_fn(T) -> Seq<u8>, i: int)
    requires
        0 <= i < s.len(),
    ensures
        cat_map(s.take(i + 1), f) == cat_map(s.take(i), f) + f(s[i]),
    decreases i,
{
    if i == 0 {
        assert(s.take(1) =~= seq![s[0]]);
        assert(s.take(1).drop_first() =~= Seq::<T>::empty());
        assert(s.take(0) =~= Seq::<T>::empty());
        assert(cat_map(s.take(i + 1), f) =~= cat_map(s.take(i), f) + f(s[i]));
    } else {
        let t = s.drop_first();
        lemma_cat_map_snoc(t, f, i - 1);
        assert(s.take(i + 1).drop_first() =~= t.take(i));
        assert(s.take(i).drop_first() =~= t.take(i - 1));
        assert(s.take(i + 1)[0] == s[0]);
        assert(s.take(i)[0] == s[0]);
        assert(t[i - 1] == s[i]);
        assert(cat_map(s.take(i + 1), f) == f(s[0]) + cat_map(t.take(i), f));
        assert(cat_map(s.take(i), f) == f(s[0]) + cat_map(t.take(i - 1), f));
        assert(cat_map(s.take(i + 1), f) =~= cat_map(s.take(i), f) + f(s[i]));
    }
}

pub proof fn lemma_be_bytes_no_leading_zero(n: nat)
    requires
        n > 0,
    ensures
        be_bytes(n).len() > 0,
        be_bytes(n)[0] != 0,
    decreases n,
{
    if n >= 256 {
        lemma_be_bytes_no_leading_zero(n / 256);
        assert(be_bytes(n) == be_bytes(n / 256) + seq![(n % 256) as u8]);
        assert(be_bytes(n)[0] == be_bytes(n / 256)[0]);
    } else {
        assert(be_bytes(n / 256) =~= Seq::<u8>::empty());
        assert(be_bytes(n) =~= seq![(n % 256) as u8]);
        assert(be_bytes(n)[0] == (n % 256) as u8);
    }
}

/// Minimal big-endian digits determine their value.
pub proof fn lemma_be_bytes_injective(a: nat, b: nat)
    requires
        be_bytes(a) == be_bytes(b),
    ensures
        a == b,
    decreases a,
{
    if a == 0 {
        if b != 0 {
            assert(be_bytes(b).len() >= 1);
        }
    } else {
        if b == 0 {
            assert(be_bytes(a).len() >= 1);
        } else {
            assert(be_bytes(a).last() == ((a % 256) as u8));
            assert(be_bytes(b).last() == ((b % 256) as u8));
            assert(be_bytes(a).drop_last() =~= be_bytes(a / 256));
            assert(be_bytes(b).drop_last() =~= be_bytes(b / 256));
            lemma_be_bytes_injective(a / 256, b / 256);
        }
    }
}

/// Cancelling equal-length prefixes of equal concatenations.
pub proof fn lemma_concat_cancel(a: Seq<u8>, x: Seq<u8>, b: Seq<u8>, y: Seq<u8>)
    requires
        a + x == b + y,
        a.len() == b.len(),
    ensures
        a == b,
        x == y,
{
    assert forall|i: int| 0 <= i < a.len() implies a[i] == b[i] by {
        assert((a + x)[i] == a[i]);
        assert((b + y)[i] == b[i]);
    }
    assert(a =~= b);
    assert((a + x).len() == a.len() + x.len());
    assert((b + y).len() == b.len() + y.len());
    assert(x.len() == y.len());
    assert forall|i: int| 0 <= i < x.len() implies x[i] == y[i] by {
        assert((a + x)[a.len() + i] == x[i]);
        assert((b + y)[b.len() + i] == y[i]);
    }
    assert(x =~= y);
}

/// The canonical string encoding is prefix-free: a byte stream determines
/// the item's payload and the remainder.
pub proof fn lemma_rlp_str_prefix_free(p: Seq<u8>, x: Seq<u8>, q: Seq<u8>, y: Seq<u8>)
    requires
        p.len() <= usize::MAX,
        q.len() <= usize::MAX,
        rlp_str(p) + x == rlp_str(q) + y,
    ensures
        p == q,
        x == y,
{
    let t = rlp_str(p) + x;
    let single_p = p.len() == 1 && p[0] < 0x80;
    let single_q = q.len() == 1 && q[0] < 0x80;
    if p.len() > 55 {
        lemma_usize_fits_len(p.len());
        lemma_be_bytes_nonzero(p.len());
    }
    if q.len() > 55 {
        lemma_usize_fits_len(q.len());
        lemma_be_bytes_nonzero(q.len());
    }
    assert(t[0] == rlp_str(p)[0]);
    assert(t[0] == rlp_str(q)[0]);
    if single_p {
        assert(rlp_str(p)[0] == p[0]);
        assert(t[0] < 0x80);
        assert(single_q);
        lemma_concat_cancel(p, x, q, y);
    } else if p.len() <= 55 {
        assert(rlp_str(p)[0] == 0x80 + p.len());
        assert(0x80 <= t[0] <= 0xb7);
        assert(!single_q);
        assert(q.len() <= 55);
        assert(rlp_str(q)[0] == 0x80 + q.len());
        assert(p.len() == q.len());
        lemma_concat_cancel(rlp_str(p), x, rlp_str(q), y);
        lemma_concat_cancel(seq![(0x80 + p.len()) as u8], p, seq![(0x80 + q.len()) as u8], q);
    } else {
        let lp = be_bytes(p.len());
        let lq = be_bytes(q.len());
        assert(rlp_str(p)[0] == 0xb7 + lp.len());
        assert(t[0] >= 0xb8);
        assert(!single_q);
        assert(q.len() > 55);
        assert(lp.len() == lq.len());
        assert forall|i: int| 0 <= i < lp.len() implies lp[i] == lq[i] by {
            assert(rlp_str(p)[1 + i] == lp[i]);
            assert(rlp_str(q)[1 + i] == lq[i]);
            assert(t[1 + i] == rlp_str(p)[1 + i]);
            assert(t[1 + i] == rlp_str(q)[1 + i]);
        }
        assert(lp =~= lq);
        lemma_be_bytes_injective(p.len(), q.len());
        lemma_concat_cancel(rlp_str(p), x, rlp_str(q), y);
        lemma_concat_cancel(seq![(0xb7 + lp.len()) as u8] + lp + p, x, seq![(0xb7 + lq.len()) as u8] + lq + q, y);
        lemma_concat_cancel(seq![(0xb7 + lp.len()) as u8] + lp, p, seq![(0xb7 + lq.len()) as u8] + lq, q);
    }
}

/// The canonical integer encoding is prefix-free and unambiguous.
pub proof fn lemma_rlp_uint_prefix_free(a: nat, x: Seq<u8>, b: nat, y: Seq<u8>)
    requires
        a <= u128::MAX,
        b <= u128::MAX,
        rlp_uint(a) + x == rlp_uint(b) + y,
    ensures
        a == b,
        x == y,
{
    reveal_with_fuel(pow256, 17);
    assert(pow256(16) == 0x1_0000_0000_0000_0000_0000_0000_0000_0000);
    lemma_be_bytes_len(a, 16);
    lemma_be_bytes_len(b, 16);
    lemma_rlp_str_prefix_free(be_bytes(a), x, be_bytes(b), y);
    lemma_be_bytes_injective(a, b);
}

/// The canonical list framing is prefix-free: a byte stream determines the
/// item payload and the remainder.
pub proof fn lemma_rlp_list_prefix_free(p: Seq<u8>, x: Seq<u8>, q: Seq<u8>, y: Seq<u8>)
    requires
        p.len() <= usize::MAX,
        q.len() <= usize::MAX,
        rlp_list(p) + x == rlp_list(q) + y,
    ensures
        p == q,
        x == y,
{
    let t = rlp_list(p) + x;
    if p.len() > 55 {
        lemma_usize_fits_len(p.len());
        lemma_be_bytes_nonzero(p.len());
    }
    if q.len() > 55 {
        lemma_usize_fits_len(q.len());
        lemma_be_bytes_nonzero(q.len());
    }
    assert(t[0] == rlp_list(p)[0]);
    assert(t[0] == rlp_list(q)[0]);
    if p.len() <= 55 {
        assert(rlp_list(p)[0] == 0xc0 + p.len());
        assert(t[0] <= 0xf7);
        assert(q.len() <= 55);
        assert(p.len() == q.len());
        lemma_concat_cancel(rlp_list(p), x, rlp_list(q), y);
        lemma_concat_cancel(seq![(0xc0 + p.len()) as u8], p, seq![(0xc0 + q.len()) as u8], q);
    } else {
        let lp = be_bytes(p.len());
        let lq = be_bytes(q.len());
        assert(rlp_list(p)[0] == 0xf7 + lp.len());
        assert(t[0] >= 0xf8);
        assert(q.len() > 55);
        assert(lp.len() == lq.len());
        assert forall|i: int| 0 <= i < lp.len() implies lp[i] == lq[i] by {
            assert(rlp_list(p)[1 + i] == lp[i]);
            assert(rlp_list(q)[1 + i] == lq[i]);
            assert(t[1 + i] == rlp_list(p)[1 + i]);
            assert(t[1 + i] == rlp_list(q)[1 + i]);
        }
        assert(lp =~= lq);
        lemma_be_bytes_injective(p.len(), q.len());
        lemma_concat_cancel(rlp_list(p), x, rlp_list(q), y);
        lemma_concat_cancel(seq![(0xf7 + lp.len()) as u8] + lp, p, seq![(0xf7 + lq.len()) as u8] + lq, q);
    }
}

pub proof fn lemma_usize_fits_len(n: nat)
    requires
        n <= usize::MAX,
    ensures
        be_bytes(n).len() <= 8,
{
    reveal_with_fuel(pow256, 9);
    assert(pow256(8) == 0x1_0000_0000_0000_0000);
    lemma_be_bytes_len(n, 8);
}

/// Append every byte of `s` to `out`.
pub fn append_bytes(out: &mut Vec<u8>, s: &Vec<u8>)
    ensures
        final(out)@ == old(out)@ + s@,
{
    let n = s.len();
    let mut i: usize = 0;
    while i < n
        invariant
            n == s@.len(),
            i <= n,
            out@ == old(out)@ + s@.take(i as int),
        decreases n - i,
    {
        out.push(s[i]);
        assert(old(out)@ + s@.take(i + 1) =~= (old(out)@ + s@.take(i as int)).push(s@[i as int]));
        i += 1;
    }
    assert(s@.take(n as int) =~= s@);
}

/// Append the minimal big-endian digits of `n`.
pub fn append_be(out: &mut Vec<u8>, n: u128)
    ensures
        final(out)@ == old(out)@ + be_bytes(n as nat),
    decreases n,
{
    if n > 0 {
        append_be(out, n / 256);
        out.push((n % 256) as u8);
        assert(old(out)@ + be_bytes(n as nat) =~= (old(out)@ + be_bytes((n / 256) as nat)).push(
            ((n as nat) % 256) as u8,
        ));
    }
}

proof fn lemma_usize_fits_8_digits(n: usize)
    ensures
        be_bytes(n as nat).len() <= 8,
{
    reveal_with_fuel(pow256, 9);
    assert(pow256(8) == 0x1_0000_0000_0000_0000);
    assert((n as nat) < pow256(8));
    lemma_be_bytes_len(n as nat, 8);
}

/// Append the canonical encoding of the byte string `s`.
pub fn append_str(out: &mut Vec<u8>, s: &Vec<u8>)
    ensures
        final(out)@ == old(out)@ + rlp_str(s@),
{
    if s.len() == 1 && s[0] < 0x80 {
        out.push(s[0]);
        assert(old(out)@ + rlp_str(s@) =~= old(out)@.push(s@[0]));
    } else if s.len() <= 55 {
        out.push(0x80 + s.len() as u8);
        append_bytes(out, s);
        assert(old(out)@ + rlp_str(s@) =~= old(out)@.push((0x80 + s@.len()) as u8) + s@);
    } else {
        let mut lenb: Vec<u8> = Vec::new();
        append_be(&mut lenb, s.len() as u128);
        proof {
            lemma_usize_fits_8_digits(s.len());
            lemma_be_bytes_nonzero(s.len() as nat);
        }
        out.push(0xb7 + lenb.len() as u8);
        append_bytes(out, &lenb);
        append_bytes(out, s);
        assert(old(out)@ + rlp_str(s@) =~= old(out)@.push(
            (0xb7 + be_bytes(s@.len()).len()) as u8,
        ) + be_bytes(s@.len()) + s@);
    }
}

/// Append the canonical list framing around the item payload `p`.
pub fn append_list(out: &mut Vec<u8>, p: &Vec<u8>)
    ensures
        final(out)@ == old(out)@ + rlp_list(p@),
{
    if p.len() <= 55 {
        out.push(0xc0 + p.len() as u8);
        append_bytes(out, p);
        assert(old(out)@ + rlp_list(p@) =~= old(out)@.push((0xc0 + p@.len()) as u8) + p@);
    } else {
        let mut lenb: Vec<u8> = Vec::new();
        append_be(&mut lenb, p.len() as u128);
        proof {
            lemma_usize_fits_8_digits(p.len());
            lemma_be_bytes_nonzero(p.len() as nat);
        }
        out.push(0xf7 + lenb.len() as u8);
        append_bytes(out, &lenb);
        append_bytes(out, p);
        assert(old(out)@ + rlp_list(p@) =~= old(out)@.push(
            (0xf7 + be_bytes(p@.len()).len()) as u8,
        ) + be_bytes(p@.len()) + p@);
    }
}

pub proof fn lemma_pow256_pos(k: nat)
    ensures
        pow256(k) >= 1,
    decreases k,
{
    if k > 0 {
        lemma_pow256_pos((k - 1) as nat);
    }
}

pub proof fn lemma_pow256_mono(a: nat, b: nat)
    requires
        a <= b,
    ensures
        pow256(a) <= pow256(b),
    decreases b,
{
    if a < b {
        lemma_pow256_mono(a, (b - 1) as nat);
        lemma_pow256_pos((b - 1) as nat);
    }
}

/// The canonical string encoding of `p` begins at `pos` of `b`.
pub open spec fn str_at(b: Seq<u8>, pos: int, p: Seq<u8>) -> bool {
    &&& 0 <= pos
    &&& pos + rlp_str(p).len() <= b.len()
    &&& b.subrange(pos, pos + rlp_str(p).len()) == rlp_str(p)
}

/// The canonical list framing of payload `p` begins at `pos` of `b`.
pub open spec fn list_at(b: Seq<u8>, pos: int, p: Seq<u8>) -> bool {
    &&& 0 <= pos
    &&& pos + rlp_list(p).len() <= b.len()
    &&& b.subrange(pos, pos + rlp_list(p).len()) == rlp_list(p)
}

/// The canonical integer encoding of `n` begins at `pos` of `b`.
pub open spec fn uint_at(b: Seq<u8>, pos: int, n: nat) -> bool {
    str_at(b, pos, be_bytes(n))
}

/// The value big-endian digits denote.
pub open spec fn be_val(digits: Seq<u8>) -> nat
    decreases digits.len(),
{
    if digits.len() == 0 {
        0
    } else {
        (be_val(digits.drop_last()) * 256 + digits.last()) as nat
    }
}

/// Reading back the minimal digits of `n` yields `n`.
pub proof fn lemma_be_val_of_bytes(n: nat)
    ensures
        be_val(be_bytes(n)) == n,
    decreases n,
{
    if n > 0 {
        lemma_be_val_of_bytes(n / 256);
        assert(be_bytes(n).drop_last() =~= be_bytes(n / 256));
        assert(be_bytes(n).last() == (n % 256) as u8);
    }
}

/// Splitting a known concatenation at a position into its two parts.
pub proof fn lemma_subrange_split(b: Seq<u8>, pos: int, x: Seq<u8>, y: Seq<u8>)
    requires
        0 <= pos,
        pos + x.len() + y.len() <= b.len(),
        b.subrange(pos, pos + x.len() + y.len()) == x + y,
    ensures
        b.subrange(pos, pos + x.len()) == x,
        b.subrange(pos + x.len(), pos + x.len() + y.len()) == y,
{
    assert forall|i: int| 0 <= i < x.len() implies b.subrange(pos, pos + x.len())[i] == x[i] by {
        assert(b.subrange(pos, pos + x.len() + y.len())[i] == (x + y)[i]);
    }
    assert(b.subrange(pos, pos + x.len()) =~= x);
    assert forall|i: int| 0 <= i < y.len() implies b.subrange(
        pos + x.len(),
        pos + x.len() + y.len(),
    )[i] == y[i] by {
        assert(b.subrange(pos + x.len(), pos + x.len() + y.len())[i] == b[pos + x.len() + i]);
        assert(b.subrange(pos, pos + x.len() + y.len())[x.len() + i] == b[pos + x.len() + i]);
        assert(b.subrange(pos, pos + x.len() + y.len())[x.len() + i] == (x + y)[x.len() + i]);
        assert((x + y)[x.len() + i] == y[i]);
    }
    assert(b.subrange(pos + x.len(), pos + x.len() + y.len()) =~= y);
}

/// The first byte of a canonical string encoding, by payload shape.
proof fn lemma_str_first_byte(b: Seq<u8>, pos: int, p: Seq<u8>)
    requires
        p.len() <= usize::MAX,
        str_at(b, pos, p),
    ensures
        pos < b.len(),
        p.len() == 1 && p[0] < 0x80 ==> b[pos] == p[0],
        !(p.len() == 1 && p[0] < 0x80) && p.len() <= 55 ==> b[pos] == 0x80 + p.len(),
        p.len() > 55 ==> b[pos] == 0xb7 + be_bytes(p.len()).len() && 1 <= be_bytes(p.len()).len()
            <= 8,
{
    assert(b.subrange(pos, pos + rlp_str(p).len())[0] == b[pos]);
    if p.len() > 55 {
        lemma_usize_fits_len(p.len());
        lemma_be_bytes_nonzero(p.len());
    }
}

/// The first byte of a canonical list framing, by payload shape.
pub proof fn lemma_list_first_byte(b: Seq<u8>, pos: int, p: Seq<u8>)
    requires
        p.len() <= usize::MAX,
        list_at(b, pos, p),
    ensures
        pos < b.len(),
        p.len() <= 55 ==> b[pos] == 0xc0 + p.len(),
        p.len() > 55 ==> b[pos] == 0xf7 + be_bytes(p.len()).len() && 1 <= be_bytes(p.len()).len()
            <= 8,
{
    assert(b.subrange(pos, pos + rlp_list(p).len())[0] == b[pos]);
    if p.len() > 55 {
        lemma_usize_fits_len(p.len());
        lemma_be_bytes_nonzero(p.len());
    }
}

/// The payload of a framed list sits just before its end.
pub proof fn lemma_list_payload_at(b: Seq<u8>, q: int, p: Seq<u8>)
    requires
        p.len() <= usize::MAX,
        list_at(b, q, p),
    ensures
        b.subrange(
            q + rlp_list(p).len() - p.len(),
            q + rlp_list(p).len(),
        ) == p,
{
    if p.len() <= 55 {
        assert(b.subrange(q, q + 1 + p.len()) == seq![(0xc0 + p.len()) as u8] + p);
        lemma_subrange_split(b, q, seq![(0xc0 + p.len()) as u8], p);
    } else {
        lemma_usize_fits_len(p.len());
        lemma_be_bytes_nonzero(p.len());
        let digits = be_bytes(p.len());
        assert(b.subrange(q, q + 1 + digits.len() + p.len()) == (seq![(0xf7 + digits.len()) as u8]
            + digits) + p);
        lemma_subrange_split(b, q, seq![(0xf7 + digits.len()) as u8] + digits, p);
    }
}

/// A concatenation of mapped items splits at any index.
pub proof fn lemma_cat_map_split<T>(s: Seq<T>, f: spec_fn(T) -> Seq<u8>, d: int)
    requires
        0 <= d <= s.len(),
    ensures
        cat_map(s, f) == cat_map(s.take(d), f) + cat_map(s.skip(d), f),
    decreases d,
{
    if d == 0 {
        assert(s.take(0) =~= Seq::<T>::empty());
        assert(s.skip(0) =~= s);
        assert(cat_map(s, f) =~= cat_map(s.take(0), f) + cat_map(s.skip(0), f));
    } else {
        let rest = s.drop_first();
        lemma_cat_map_split(rest, f, d - 1);
        assert(s.take(d)[0] == s[0]);
        assert(s.take(d).drop_first() =~= rest.take(d - 1));
        assert(s.skip(d) =~= rest.skip(d - 1));
        assert(cat_map(s.take(d), f) == f(s[0]) + cat_map(rest.take(d - 1), f));
        assert(cat_map(s, f) == f(s[0]) + cat_map(rest, f));
        assert(cat_map(s, f) =~= cat_map(s.take(d), f) + cat_map(s.skip(d), f));
    }
}

/// Read a big-endian length of `count` digits starting at `pos`.
fn read_be_len(b: &Vec<u8>, pos: usize, count: usize) -> (r: u64)
    requires
        count <= 8,
        pos + count <= b@.len(),
    ensures
        r == be_val(b@.subrange(pos as int, (pos + count) as int)),
{
    let blen = b.len();
    proof {
        assert(b@.subrange(pos as int, pos as int) =~= Seq::<u8>::empty());
    }
    let mut l: u64 = 0;
    let mut k: usize = 0;
    while k < count
        invariant
            count <= 8,
            pos + count <= b@.len(),
            b@.len() == blen,
            k <= count,
            l < pow256(k as nat),
            l == be_val(b@.subrange(pos as int, (pos + k) as int)),
        decreases count - k,
    {
        proof {
            lemma_pow256_mono(k as nat, 7);
            reveal_with_fuel(pow256, 9);
            assert(b@.subrange(pos as int, (pos + k + 1) as int).drop_last() =~= b@.subrange(
                pos as int,
                (pos + k) as int,
            ));
            assert(b@.subrange(pos as int, (pos + k + 1) as int).last() == b@[(pos + k) as int]);
        }
        l = l * 256 + (b[pos + k] as u64);
        k += 1;
    }
    l
}

/// Find the payload of the byte-string item starting at `pos`: on success,
/// the payload's start and length, in bounds. When the canonical encoding of
/// some payload begins at `pos`, that payload is found exactly.
pub fn parse_str_header(b: &Vec<u8>, pos: usize) -> (r: Option<(usize, usize)>)
    ensures
        r matches Some((s, l)) ==> pos <= s && s + l <= b@.len() && pos < s + l,
        forall|p: Seq<u8>|
            p.len() <= usize::MAX && #[trigger] str_at(b@, pos as int, p) ==> (r matches Some(
                (s, l),
            ) && l == p.len() && s + l == pos + rlp_str(p).len() && b@.subrange(
                s as int,
                (s + l) as int,
            ) == p),
{
    if pos >= b.len() {
        proof {
            assert forall|p: Seq<u8>|
                p.len() <= usize::MAX && #[trigger] str_at(b@, pos as int, p) implies false by {
                lemma_str_first_byte(b@, pos as int, p);
            }
        }
        return None;
    }
    let h = b[pos];
    if h < 0x80 {
        proof {
            assert forall|p: Seq<u8>|
                p.len() <= usize::MAX && #[trigger] str_at(b@, pos as int, p) implies p.len() == 1
                && pos + 1 == pos + rlp_str(p).len() && b@.subrange(pos as int, (pos + 1) as int)
                == p by {
                lemma_str_first_byte(b@, pos as int, p);
                assert(p.len() == 1 && p[0] < 0x80);
                assert(rlp_str(p) == p);
            }
        }
        Some((pos, 1))
    } else if h <= 0xb7 {
        let l = (h - 0x80) as usize;
        proof {
            assert forall|p: Seq<u8>|
                p.len() <= usize::MAX && #[trigger] str_at(b@, pos as int, p) implies p.len() == l
                && pos + 1 + l <= b@.len() && b@.subrange((pos + 1) as int, (pos + 1 + l) as int)
                == p by {
                lemma_str_first_byte(b@, pos as int, p);
                assert(!(p.len() == 1 && p[0] < 0x80) && p.len() <= 55);
                assert(b@.subrange(pos as int, pos + 1 + p.len()) == seq![(0x80 + p.len()) as u8]
                    + p);
                lemma_subrange_split(b@, pos as int, seq![(0x80 + p.len()) as u8], p);
            }
        }
        if l <= b.len() - (pos + 1) {
            Some((pos + 1, l))
        } else {
            None
        }
    } else if h <= 0xbf {
        let ll = (h - 0xb7) as usize;
        proof {
            assert forall|p: Seq<u8>|
                p.len() <= usize::MAX && #[trigger] str_at(b@, pos as int, p) implies p.len() > 55
                && ll == be_bytes(p.len()).len() && pos + 1 + ll + p.len() <= b@.len()
                && b@.subrange((pos + 1) as int, (pos + 1 + ll) as int) == be_bytes(p.len())
                && b@.subrange((pos + 1 + ll) as int, (pos + 1 + ll + p.len()) as int) == p by {
                lemma_str_first_byte(b@, pos as int, p);
                assert(p.len() > 55);
                let digits = be_bytes(p.len());
                assert(b@.subrange(pos as int, pos + 1 + digits.len() + p.len()) == (seq![(0xb7
                    + digits.len()) as u8] + digits) + p);
                lemma_subrange_split(b@, pos as int, seq![(0xb7 + digits.len()) as u8] + digits, p);
                lemma_subrange_split(b@, pos as int, seq![(0xb7 + digits.len()) as u8], digits);
            }
        }
        if ll > b.len() - (pos + 1) {
            return None;
        }
        let l = read_be_len(b, pos + 1, ll);
        proof {
            assert forall|p: Seq<u8>|
                p.len() <= usize::MAX && #[trigger] str_at(b@, pos as int, p) implies l
                == p.len() by {
                assert(b@.subrange((pos + 1) as int, (pos + 1 + ll) as int) == be_bytes(p.len()));
                lemma_be_val_of_bytes(p.len());
            }
        }
        let start = pos + 1 + ll;
        let avail = b.len() - start;
        if l <= avail as u64 && l > 0 {
            Some((start, l as usize))
        } else {
            None
        }
    } else {
        proof {
            assert forall|p: Seq<u8>|
                p.len() <= usize::MAX && #[trigger] str_at(b@, pos as int, p) implies false by {
                lemma_str_first_byte(b@, pos as int, p);
            }
        }
        None
    }
}

/// Find the item payload of the list starting at `pos`: on success, the
/// payload's start and length, in bounds. When the canonical framing of some
/// payload begins at `pos`, that payload is found exactly.
pub fn parse_list_header(b: &Vec<u8>, pos: usize) -> (r: Option<(usize, usize)>)
    ensures
        r matches Some((s, l)) ==> pos < s && s + l <= b@.len(),
        forall|p: Seq<u8>|
            p.len() <= usize::MAX && #[trigger] list_at(b@, pos as int, p) ==> (r matches Some(
                (s, l),
            ) && l == p.len() && s + l == pos + rlp_list(p).len() && b@.subrange(
                s as int,
                (s + l) as int,
            ) == p),
{
    if pos >= b.len() {
        proof {
            assert forall|p: Seq<u8>|
                p.len() <= usize::MAX && #[trigger] list_at(b@, pos as int, p) implies false by {
                lemma_list_first_byte(b@, pos as int, p);
            }
        }
        return None;
    }
    let h = b[pos];
    if h < 0xc0 {
        proof {
            assert forall|p: Seq<u8>|
                p.len() <= usize::MAX && #[trigger] list_at(b@, pos as int, p) implies false by {
                lemma_list_first_byte(b@, pos as int, p);
            }
        }
        None
    } else if h <= 0xf7 {
        let l = (h - 0xc0) as usize;
        proof {
            assert forall|p: Seq<u8>|
                p.len() <= usize::MAX && #[trigger] list_at(b@, pos as int, p) implies p.len() == l
                && pos + 1 + l <= b@.len() && b@.subrange((pos + 1) as int, (pos + 1 + l) as int)
                == p by {
                lemma_list_first_byte(b@, pos as int, p);
                assert(p.len() <= 55);
                assert(b@.subrange(pos as int, pos + 1 + p.len()) == seq![(0xc0 + p.len()) as u8]
                    + p);
                lemma_subrange_split(b@, pos as int, seq![(0xc0 + p.len()) as u8], p);
            }
        }
        if l <= b.len() - (pos + 1) {
            Some((pos + 1, l))
        } else {
            None
        }
    } else {
        let ll = (h - 0xf7) as usize;
        proof {
            assert forall|p: Seq<u8>|
                p.len() <= usize::MAX && #[trigger] list_at(b@, pos as int, p) implies p.len() > 55
                && ll == be_bytes(p.len()).len() && pos + 1 + ll + p.len() <= b@.len()
                && b@.subrange((pos + 1) as int, (pos + 1 + ll) as int) == be_bytes(p.len())
                && b@.subrange((pos + 1 + ll) as int, (pos + 1 + ll + p.len()) as int) == p by {
                lemma_list_first_byte(b@, pos as int, p);
                assert(p.len() > 55);
                let digits = be_bytes(p.len());
                assert(b@.subrange(pos as int, pos + 1 + digits.len() + p.len()) == (seq![(0xf7
                    + digits.len()) as u8] + digits) + p);
                lemma_subrange_split(b@, pos as int, seq![(0xf7 + digits.len()) as u8] + digits, p);
                lemma_subrange_split(b@, pos as int, seq![(0xf7 + digits.len()) as u8], digits);
            }
        }
        if ll > b.len() - (pos + 1) {
            return None;
        }
        let l = read_be_len(b, pos + 1, ll);
        proof {
            assert forall|p: Seq<u8>|
                p.len() <= usize::MAX && #[trigger] list_at(b@, pos as int, p) implies l
                == p.len() by {
                assert(b@.subrange((pos + 1) as int, (pos + 1 + ll) as int) == be_bytes(p.len()));
                lemma_be_val_of_bytes(p.len());
            }
        }
        let start = pos + 1 + ll;
        let avail = b.len() - start;
        if l <= avail as u64 && l > 0 {
            Some((start, l as usize))
        } else {
            None
        }
    }
}

/// Read the integer item starting at `pos`: its value and the position just
/// after it. When the canonical encoding of some integer begins at `pos`,
/// exactly that integer is read.
pub fn parse_uint(b: &Vec<u8>, pos: usize) -> (r: Option<(u128, usize)>)
    ensures
        r matches Some((n, next)) ==> pos < next <= b@.len(),
        forall|n: nat|
            n <= u128::MAX && #[trigger] uint_at(b@, pos as int, n) ==> (r matches Some((m, next))
                && m == n && next == pos + rlp_uint(n).len()),
{
    proof {
        assert forall|n: nat| n <= u128::MAX && #[trigger] uint_at(b@, pos as int, n) implies
            str_at(b@, pos as int, be_bytes(n)) && be_bytes(n).len() <= 16 by {
            reveal_with_fuel(pow256, 17);
            assert(pow256(16) == 0x1_0000_0000_0000_0000_0000_0000_0000_0000);
            lemma_be_bytes_len(n, 16);
        }
    }
    match parse_str_header(b, pos) {
        Some((s, l)) => {
            if l > 16 {
                proof {
                    assert forall|n: nat|
                        n <= u128::MAX && #[trigger] uint_at(b@, pos as int, n) implies false by {
                        assert(l == be_bytes(n).len());
                    }
                }
                return None;
            }
            let blen = b.len();
            proof {
                assert(b@.subrange(s as int, s as int) =~= Seq::<u8>::empty());
            }
            let mut n: u128 = 0;
            let mut k: usize = 0;
            while k < l
                invariant
                    l <= 16,
                    s + l <= b@.len(),
                    b@.len() == blen,
                    k <= l,
                    n < pow256(k as nat),
                    n == be_val(b@.subrange(s as int, (s + k) as int)),
                decreases l - k,
            {
                proof {
                    lemma_pow256_mono(k as nat, 15);
                    reveal_with_fuel(pow256, 17);
                    assert(b@.subrange(s as int, (s + k + 1) as int).drop_last() =~= b@.subrange(
                        s as int,
                        (s + k) as int,
                    ));
                    assert(b@.subrange(s as int, (s + k + 1) as int).last() == b@[(s + k) as int]);
                }
                n = n * 256 + (b[s + k] as u128);
                k += 1;
            }
            proof {
                assert forall|m: nat|
                    m <= u128::MAX && #[trigger] uint_at(b@, pos as int, m) implies n == m && s + l
                    == pos + rlp_uint(m).len() by {
                    assert(b@.subrange(s as int, (s + l) as int) == be_bytes(m));
                    lemma_be_val_of_bytes(m);
                }
            }
            assert(s + l <= blen);
            Some((n, s + l))
        },
        None => {
            proof {
                assert forall|n: nat|
                    n <= u128::MAX && #[trigger] uint_at(b@, pos as int, n) implies false by {
                    assert(str_at(b@, pos as int, be_bytes(n)));
                }
            }
            None
        },
    }
}

/// Copy the byte-string item starting at `pos`: its payload and the position
/// just after it. When the canonical encoding of some byte string begins at
/// `pos`, exactly that byte string is returned.
pub fn parse_bytes(b: &Vec<u8>, pos: usize) -> (r: Option<(Vec<u8>, usize)>)
    ensures
        r matches Some((v, next)) ==> pos < next <= b@.len(),
        forall|p: Seq<u8>|
            p.len() <= usize::MAX && #[trigger] str_at(b@, pos as int, p) ==> (r matches Some(
                (v, next),
            ) && v@ == p && next == pos + rlp_str(p).len()),
{
    let blen = b.len();
    match parse_str_header(b, pos) {
        Some((s, l)) => {
            assert(s + l <= blen);
            let v = crate::types::copy_range(b, s, s + l);
            Some((v, s + l))
        },
        None => None,
    }
}

/// Append the canonical encoding of the integer `n`.
pub fn append_uint(out: &mut Vec<u8>, n: u128)
    ensures
        final(out)@ == old(out)@ + rlp_uint(n as nat),
{
    let mut digits: Vec<u8> = Vec::new();
    append_be(&mut digits, n);
    append_str(out, &digits);
}

} // verus!
