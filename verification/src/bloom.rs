//! The 2048-bit logs bloom filter: three bits per accrued input, indexed by
//! the leading bytes of its Keccak-256 digest.

use vstd::prelude::*;

use crate::crypto::{keccak_of, keccak256};
use crate::types::{log_view_fn, Bloom, Log, LogView};

verus! {

/// The 256 zero bytes of an empty filter.
pub open spec fn zero_bloom() -> Seq<u8> {
    Seq::new(256, |i: int| 0u8)
}

/// One of the three bit positions taken from a digest.
pub open spec fn bloom_pos(h: Seq<u8>, i: int) -> int {
    ((h[i] as int) * 256 + (h[i + 1] as int)) % 2048
}

/// The single-bit mask for a position within a byte.
pub open spec fn bit_mask_spec(k: int) -> u8 {
    if k == 0 {
        1
    } else if k == 1 {
        2
    } else if k == 2 {
        4
    } else if k == 3 {
        8
    } else if k == 4 {
        16
    } else if k == 5 {
        32
    } else if k == 6 {
        64
    } else {
        128
    }
}

/// Set bit `bit` of the filter, counting from its least significant end.
pub open spec fn set_bloom_bit(b: Seq<u8>, bit: int) -> Seq<u8> {
    b.update(255 - bit / 8, b[255 - bit / 8] | bit_mask_spec(bit % 8))
}

/// Accrue one digest: set the three bits it names.
pub open spec fn accrue_hash(b: Seq<u8>, h: Seq<u8>) -> Seq<u8> {
    set_bloom_bit(set_bloom_bit(set_bloom_bit(b, bloom_pos(h, 0)), bloom_pos(h, 2)), bloom_pos(h, 4))
}

/// Accrue one input by its Keccak-256 digest.
#[verifier::opaque]
pub open spec fn accrue_input(b: Seq<u8>, input: Seq<u8>) -> Seq<u8> {
    accrue_hash(b, keccak_of(input))
}

/// Accrue every topic in order.
pub open spec fn bloom_topics(b: Seq<u8>, ts: Seq<Seq<u8>>) -> Seq<u8>
    decreases ts.len(),
{
    if ts.len() == 0 {
        b
    } else {
        bloom_topics(accrue_input(b, ts[0]), ts.drop_first())
    }
}

/// Accrue every log in order: its address, then its topics.
pub open spec fn bloom_logs(b: Seq<u8>, logs: Seq<LogView>) -> Seq<u8>
    decreases logs.len(),
{
    if logs.len() == 0 {
        b
    } else {
        bloom_logs(bloom_topics(accrue_input(b, logs[0].address), logs[0].topics), logs.drop_first())
    }
}

/// The filter of a list of logs, grown from the empty filter.
pub open spec fn logs_bloom_spec(logs: Seq<LogView>) -> Seq<u8> {
    bloom_logs(zero_bloom(), logs)
}

fn bit_mask(k: usize) -> (r: u8)
    requires
        k < 8,
    ensures
        r == bit_mask_spec(k as int),
{
    if k == 0 {
        1
    } else if k == 1 {
        2
    } else if k == 2 {
        4
    } else if k == 3 {
        8
    } else if k == 4 {
        16
    } else if k == 5 {
        32
    } else if k == 6 {
        64
    } else {
        128
    }
}

fn set_bit(b: &mut Vec<u8>, bit: usize)
    requires
        old(b)@.len() == 256,
        bit < 2048,
    ensures
        final(b)@ == set_bloom_bit(old(b)@, bit as int),
        final(b)@.len() == 256,
{
    let idx = 255 - bit / 8;
    let m = bit_mask(bit % 8);
    let cur = b[idx];
    b.set(idx, cur | m);
}

fn accrue(b: &mut Vec<u8>, input: &Vec<u8>)
    requires
        old(b)@.len() == 256,
    ensures
        final(b)@ == accrue_input(old(b)@, input@),
        final(b)@.len() == 256,
{
    proof {
        reveal(accrue_input);
    }
    let h = keccak256(input);
    let p0 = ((h[0] as usize) * 256 + (h[1] as usize)) % 2048;
    let p1 = ((h[2] as usize) * 256 + (h[3] as usize)) % 2048;
    let p2 = ((h[4] as usize) * 256 + (h[5] as usize)) % 2048;
    set_bit(b, p0);
    set_bit(b, p1);
    set_bit(b, p2);
}

/// The logs-bloom filter over the given logs.
#[verifier::rlimit(80)]
pub fn logs_bloom(logs: &Vec<Log>) -> (r: Bloom)
    ensures
        r@ == logs_bloom_spec(logs@.map_values(log_view_fn())),
        r.wf(),
{
    let ghost lv = logs@.map_values(log_view_fn());
    let ghost target = logs_bloom_spec(lv);
    let mut b: Vec<u8> = Vec::new();
    let mut z: usize = 0;
    while z < 256
        invariant
            z <= 256,
            b@ =~= zero_bloom().take(z as int),
        decreases 256 - z,
    {
        b.push(0u8);
        assert(b@ =~= zero_bloom().take(z + 1));
        z += 1;
    }
    assert(zero_bloom().take(256) =~= zero_bloom());
    proof {
        assert(b@ =~= zero_bloom());
        assert(lv.skip(0) =~= lv);
    }
    let n = logs.len();
    let mut i: usize = 0;
    while i < n
        invariant
            n == logs@.len(),
            lv == logs@.map_values(log_view_fn()),
            lv.len() == n,
            i <= n,
            b@.len() == 256,
            bloom_logs(b@, lv.skip(i as int)) == target,
        decreases n - i,
    {
        let log = &logs[i];
        proof {
            assert(lv.skip(i as int)[0] == lv[i as int]);
            assert(lv.skip(i as int).drop_first() =~= lv.skip(i + 1));
            assert(lv[i as int] == logs@[i as int]@);
        }
        accrue(&mut b, &log.address.v);
        let ghost tv = lv[i as int].topics;
        proof {
            assert(tv.skip(0) =~= tv);
            assert(lv[i as int].address == log.address.v@);
            assert(bloom_logs(bloom_topics(b@, tv), lv.skip(i + 1)) == target);
        }
        let m = log.topics.len();
        let mut j: usize = 0;
        while j < m
            invariant
                m == log.topics@.len(),
                tv == log@.topics,
                tv.len() == m,
                j <= m,
                b@.len() == 256,
                bloom_logs(bloom_topics(b@, tv.skip(j as int)), lv.skip(i + 1)) == target,
            decreases m - j,
        {
            proof {
                assert(tv.skip(j as int)[0] == tv[j as int]);
                assert(tv.skip(j as int).drop_first() =~= tv.skip(j + 1));
                assert(tv[j as int] == log.topics@[j as int]@);
            }
            accrue(&mut b, &log.topics[j].v);
            j += 1;
        }
        proof {
            assert(tv.skip(m as int) =~= Seq::<Seq<u8>>::empty());
        }
        i += 1;
    }
    proof {
        assert(lv.skip(n as int) =~= Seq::<LogView>::empty());
    }
    Bloom { v: b }
}

} // verus!
