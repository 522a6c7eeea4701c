//! Decoding the transaction wire format. The decoder parses the byte string,
//! rebuilds the transaction, re-encodes it, and accepts only when the bytes
//! round-trip: whatever it returns is a transaction whose canonical encoding
//! is exactly the input.

use vstd::prelude::*;

use crate::rlp::{parse_bytes, parse_list_header, parse_uint, rlp_list, rlp_str, rlp_uint, str_at, uint_at};
use crate::rlp::cat_map;
use crate::transaction::{
    action_payload, al_item_view_fn, enc_access_item, enc_access_item_fn, enc_access_list,
    enc_eip1559_payload,
    enc_eip2930_payload, enc_legacy_payload, enc_legacy_tail, enc_typed_tail,
    lemma_eip1559_layout, lemma_eip2930_layout, lemma_legacy_chain_tail_layout,
    lemma_legacy_layout, lemma_legacy_tail_layout, lemma_typed_tail_layout, opt_sig_view,
    enc_key_fn, h256_view_fn, replay_v, spec_encode_tx, tx_wire, ALItemView, AccessList,
    AccessListItem, Eip1559Transaction,
    Eip1559View, Eip2930Transaction, Eip2930View, LegacyTransaction, LegacyView, SigView,
    SignatureComponents, TransactionAction, TypesError, UnsignedTransaction, UnsignedView,
    UnverifiedTransaction,
};
use crate::types::{H160, H256};

verus! {

/// Parse a call target: a 20-byte string, or the empty string for creation.
fn parse_action(b: &Vec<u8>, pos: usize) -> (r: Option<(TransactionAction, usize)>)
    ensures
        r matches Some((a, next)) ==> pos < next <= b@.len(),
        forall|ap: Option<Seq<u8>>|
            ((ap matches Some(to) ==> to.len() == 20) && #[trigger] str_at(
                b@,
                pos as int,
                action_payload(ap),
            )) ==> (r matches Some((act, next)) && act@ == ap && next == pos + rlp_str(
                action_payload(ap),
            ).len()),
{
    match parse_bytes(b, pos) {
        Some((v, next)) => {
            if v.len() == 20 {
                Some((TransactionAction::Call(H160 { v }), next))
            } else if v.len() == 0 {
                Some((TransactionAction::Create, next))
            } else {
                None
            }
        },
        None => None,
    }
}

/// A canonical access list's item concatenation is framed at `pos`.
pub open spec fn al_ok(b: Seq<u8>, pos: int, al: Seq<ALItemView>) -> bool {
    &&& crate::transaction::access_list_canonical(al)
    &&& cat_map(al, enc_access_item_fn()).len() <= usize::MAX
    &&& crate::rlp::list_at(b, pos, cat_map(al, enc_access_item_fn()))
}

/// Encoded storage keys are 33 bytes each, and sit at a fixed stride.
proof fn lemma_keys_len(ks: Seq<Seq<u8>>)
    requires
        forall|j: int| 0 <= j < ks.len() ==> (#[trigger] ks[j]).len() == 32,
    ensures
        cat_map(ks, enc_key_fn()).len() == 33 * ks.len(),
    decreases ks.len(),
{
    if ks.len() > 0 {
        assert(enc_key_fn()(ks[0]) == rlp_str(ks[0]));
        assert(rlp_str(ks[0]).len() == 33);
        assert(forall|j: int|
            0 <= j < ks.drop_first().len() ==> (#[trigger] ks.drop_first()[j]).len() == 32);
        lemma_keys_len(ks.drop_first());
    }
}

/// Where storage key `j` of a key region sits.
proof fn lemma_keys_at(b: Seq<u8>, kstart: int, ks: Seq<Seq<u8>>, j: int)
    requires
        forall|i: int| 0 <= i < ks.len() ==> (#[trigger] ks[i]).len() == 32,
        0 <= kstart,
        kstart + cat_map(ks, enc_key_fn()).len() <= b.len(),
        b.subrange(kstart, kstart + cat_map(ks, enc_key_fn()).len()) == cat_map(ks, enc_key_fn()),
        0 <= j < ks.len(),
    ensures
        str_at(b, kstart + 33 * j, ks[j]),
    decreases j,
{
    lemma_keys_len(ks);
    let rest = ks.drop_first();
    assert(enc_key_fn()(ks[0]) == rlp_str(ks[0]));
    assert(rlp_str(ks[0]).len() == 33);
    assert(cat_map(ks, enc_key_fn()) == rlp_str(ks[0]) + cat_map(rest, enc_key_fn()));
    crate::rlp::lemma_subrange_split(b, kstart, rlp_str(ks[0]), cat_map(rest, enc_key_fn()));
    if j == 0 {
        assert(str_at(b, kstart, ks[0]));
    } else {
        assert(forall|i: int| 0 <= i < rest.len() ==> (#[trigger] rest[i]).len() == 32);
        lemma_keys_at(b, kstart + 33, rest, j - 1);
        assert(rest[j - 1] == ks[j]);
    }
}

/// The layout of item `d` within an access-list region, as the loop uses it.
pub open spec fn item_step_facts(b: Seq<u8>, rs: int, al: Seq<ALItemView>, d: int) -> bool {
    let pd = rs + cat_map(al.take(d), enc_access_item_fn()).len();
    let it = al[d];
    let kc = cat_map(it.storage_keys, enc_key_fn());
    let ip = rlp_str(it.address) + rlp_list(kc);
    let istart = pd + rlp_list(ip).len() - ip.len();
    let kstart = istart + rlp_str(it.address).len() + rlp_list(kc).len() - kc.len();
    &&& ip.len() <= usize::MAX
    &&& crate::rlp::list_at(b, pd, ip)
    &&& str_at(b, istart, it.address)
    &&& crate::rlp::list_at(b, istart + rlp_str(it.address).len(), kc)
    &&& b.subrange(kstart, kstart + kc.len()) == kc
    &&& istart + rlp_str(it.address).len() + rlp_list(kc).len() == pd + rlp_list(ip).len()
    &&& pd + rlp_list(ip).len() == rs + cat_map(al.take(d + 1), enc_access_item_fn()).len()
    &&& cat_map(al.take(d + 1), enc_access_item_fn()).len() <= cat_map(
        al,
        enc_access_item_fn(),
    ).len()
}

/// Where item `d` of an access-list region sits, and its internal layout.
#[verifier::rlimit(100)]
#[verifier::spinoff_prover]
proof fn lemma_items_at(b: Seq<u8>, rs: int, al: Seq<ALItemView>, d: int)
    requires
        crate::transaction::access_list_canonical(al),
        cat_map(al, enc_access_item_fn()).len() <= usize::MAX,
        0 <= rs,
        rs + cat_map(al, enc_access_item_fn()).len() <= b.len(),
        b.subrange(rs, rs + cat_map(al, enc_access_item_fn()).len()) == cat_map(
            al,
            enc_access_item_fn(),
        ),
        0 <= d < al.len(),
    ensures
        item_step_facts(b, rs, al, d),
{
    let f = enc_access_item_fn();
    let cat = cat_map(al, f);
    crate::rlp::lemma_cat_map_split(al, f, d);
    let pd = rs + cat_map(al.take(d), f).len();
    crate::rlp::lemma_subrange_split(b, rs, cat_map(al.take(d), f), cat_map(al.skip(d), f));
    let tail = al.skip(d);
    assert(tail[0] == al[d]);
    assert(tail.drop_first() =~= al.skip(d + 1));
    assert(cat_map(tail, f) == f(al[d]) + cat_map(al.skip(d + 1), f));
    assert(f(al[d]) == enc_access_item(al[d]));
    let it = al[d];
    let kc = cat_map(it.storage_keys, enc_key_fn());
    let ip = rlp_str(it.address) + rlp_list(kc);
    assert(enc_access_item(it) == rlp_list(ip));
    crate::rlp::lemma_subrange_split(b, pd, rlp_list(ip), cat_map(al.skip(d + 1), f));
    assert(crate::rlp::list_at(b, pd, ip));
    crate::rlp::lemma_list_payload_at(b, pd, ip);
    let istart = pd + rlp_list(ip).len() - ip.len();
    crate::rlp::lemma_subrange_split(b, istart, rlp_str(it.address), rlp_list(kc));
    assert(str_at(b, istart, it.address));
    assert(crate::rlp::list_at(b, istart + rlp_str(it.address).len(), kc));
    crate::rlp::lemma_list_payload_at(b, istart + rlp_str(it.address).len(), kc);
    crate::rlp::lemma_cat_map_snoc(al, f, d);
    assert(cat_map(al.take(d + 1), f) == cat_map(al.take(d), f) + f(al[d]));
    crate::rlp::lemma_cat_map_split(al, f, d + 1);
}

/// Parse an access list: a list of [address, [storage keys]] pairs. A
/// canonical access-list region is read back exactly, item for item.
#[verifier::rlimit(100)]
#[verifier::spinoff_prover]
fn parse_access_list(b: &Vec<u8>, pos: usize) -> (r: Option<(AccessList, usize)>)
    ensures
        r matches Some((al, next)) ==> pos < next <= b@.len(),
        forall|alv: Seq<ALItemView>|
            #[trigger] al_ok(b@, pos as int, alv) ==> (r matches Some((items, next))
                && items@.map_values(al_item_view_fn()) == alv && next == pos + rlp_list(
                cat_map(alv, enc_access_item_fn()),
            ).len()),
{
    let blen = b.len();
    let (start, len) = match parse_list_header(b, pos) {
        Some(x) => x,
        None => return None,
    };
    assert(start + len <= blen);
    let end = start + len;
    proof {
        assert forall|alv: Seq<ALItemView>| #[trigger] al_ok(b@, pos as int, alv) implies len
            == cat_map(alv, enc_access_item_fn()).len() && b@.subrange(start as int, end as int)
            == cat_map(alv, enc_access_item_fn()) && end == pos + rlp_list(
            cat_map(alv, enc_access_item_fn()),
        ).len() && alv.take(0) =~= Seq::<ALItemView>::empty() && cat_map(
            Seq::<ALItemView>::empty(),
            enc_access_item_fn(),
        ) =~= Seq::<u8>::empty() by {
        }
    }
    let mut items: AccessList = Vec::new();
    let mut p = start;
    proof {
        assert(items@.map_values(al_item_view_fn()) =~= Seq::<ALItemView>::empty());
    }
    while p < end
        invariant
            blen == b@.len(),
            end <= blen,
            start <= p <= end,
            forall|alv: Seq<ALItemView>|
                #[trigger] al_ok(b@, pos as int, alv) ==> (len == cat_map(
                    alv,
                    enc_access_item_fn(),
                ).len() && b@.subrange(start as int, end as int) == cat_map(
                    alv,
                    enc_access_item_fn(),
                ) && end == start + len && items@.len() <= alv.len() && items@.map_values(
                    al_item_view_fn(),
                ) == alv.take(items@.len() as int) && p == start + cat_map(
                    alv.take(items@.len() as int),
                    enc_access_item_fn(),
                ).len()),
        decreases end - p,
    {
        let ghost d = items@.len() as int;
        proof {
            assert forall|alv: Seq<ALItemView>| #[trigger] al_ok(b@, pos as int, alv) implies d
                < alv.len() && item_step_facts(b@, start as int, alv, d) by {
                if d >= alv.len() {
                    assert(alv.take(alv.len() as int) =~= alv);
                    assert(false);
                }
                lemma_items_at(b@, start as int, alv, d);
            }
        }
        let (item_start, item_len) = match parse_list_header(b, p) {
            Some(x) => x,
            None => return None,
        };
        assert(item_start + item_len <= blen);
        let item_end = item_start + item_len;
        if item_end > end {
            return None;
        }
        let (addr, q) = match parse_bytes(b, item_start) {
            Some(x) => x,
            None => return None,
        };
        if addr.len() != 20 {
            return None;
        }
        let (keys_start, keys_len) = match parse_list_header(b, q) {
            Some(x) => x,
            None => return None,
        };
        assert(keys_start + keys_len <= blen);
        let keys_end = keys_start + keys_len;
        if keys_end > item_end {
            return None;
        }
        proof {
            assert forall|alv: Seq<ALItemView>| #[trigger] al_ok(b@, pos as int, alv) implies
                keys_start + cat_map(alv[d].storage_keys, enc_key_fn()).len() <= b@.len()
                && b@.subrange(
                keys_start as int,
                keys_start + cat_map(alv[d].storage_keys, enc_key_fn()).len(),
            ) == cat_map(alv[d].storage_keys, enc_key_fn()) && keys_len == cat_map(
                alv[d].storage_keys,
                enc_key_fn(),
            ).len() && keys_len == 33 * alv[d].storage_keys.len() && keys_end == item_end by {
                lemma_keys_len(alv[d].storage_keys);
            }
        }
        let mut keys: Vec<H256> = Vec::new();
        let mut kp = keys_start;
        proof {
            assert(keys@.map_values(h256_view_fn()) =~= Seq::<Seq<u8>>::empty());
            assert forall|alv: Seq<ALItemView>| #[trigger] al_ok(b@, pos as int, alv) implies
                alv[d].storage_keys.take(0) =~= Seq::<Seq<u8>>::empty() by {
            }
        }
        while kp < keys_end
            invariant
                blen == b@.len(),
                keys_end <= blen,
                keys_start <= kp <= keys_end,
                forall|alv: Seq<ALItemView>|
                    #[trigger] al_ok(b@, pos as int, alv) ==> (0 <= d < alv.len() && keys_start
                        + cat_map(alv[d].storage_keys, enc_key_fn()).len() <= b@.len()
                        && b@.subrange(
                        keys_start as int,
                        keys_start + cat_map(alv[d].storage_keys, enc_key_fn()).len(),
                    ) == cat_map(alv[d].storage_keys, enc_key_fn()) && keys_end == keys_start + 33
                        * alv[d].storage_keys.len() && keys@.len() <= alv[d].storage_keys.len()
                        && keys@.map_values(h256_view_fn()) == alv[d].storage_keys.take(
                        keys@.len() as int,
                    ) && kp == keys_start + 33 * keys@.len()),
            decreases keys_end - kp,
        {
            proof {
                assert forall|alv: Seq<ALItemView>| #[trigger] al_ok(b@, pos as int, alv) implies
                    keys@.len() < alv[d].storage_keys.len() && str_at(
                    b@,
                    kp as int,
                    alv[d].storage_keys[keys@.len() as int],
                ) && rlp_str(alv[d].storage_keys[keys@.len() as int]).len() == 33 by {
                    lemma_keys_at(b@, keys_start as int, alv[d].storage_keys, keys@.len() as int);
                }
            }
            let (key, next) = match parse_bytes(b, kp) {
                Some(x) => x,
                None => return None,
            };
            if key.len() != 32 {
                return None;
            }
            if next > keys_end {
                return None;
            }
            let ghost prevk = keys@;
            keys.push(H256 { v: key });
            proof {
                prevk.lemma_push_map_commute(h256_view_fn(), keys@.last());
                assert forall|alv: Seq<ALItemView>| #[trigger] al_ok(b@, pos as int, alv) implies
                    keys@.map_values(h256_view_fn()) == alv[d].storage_keys.take(
                    keys@.len() as int,
                ) by {
                    assert(alv[d].storage_keys.take(prevk.len() as int + 1) =~= alv[
                    d].storage_keys.take(prevk.len() as int).push(
                        alv[d].storage_keys[prevk.len() as int],
                    ));
                }
            }
            kp = next;
        }
        if kp != keys_end || keys_end != item_end {
            return None;
        }
        let ghost previ = items@;
        items.push(AccessListItem { address: H160 { v: addr }, storage_keys: keys });
        proof {
            previ.lemma_push_map_commute(al_item_view_fn(), items@.last());
            assert forall|alv: Seq<ALItemView>| #[trigger] al_ok(b@, pos as int, alv) implies
                items@.map_values(al_item_view_fn()) == alv.take(items@.len() as int) && item_end
                == start + cat_map(alv.take(items@.len() as int), enc_access_item_fn()).len() by {
                assert(keys@.len() == alv[d].storage_keys.len());
                assert(alv[d].storage_keys.take(alv[d].storage_keys.len() as int) =~= alv[
                d].storage_keys);
                assert(items@.last()@ == alv[d]);
                assert(alv.take(d + 1) =~= alv.take(d).push(alv[d]));
            }
        }
        p = item_end;
    }
    if p != end {
        return None;
    }
    proof {
        assert forall|alv: Seq<ALItemView>| #[trigger] al_ok(b@, pos as int, alv) implies
            items@.map_values(al_item_view_fn()) == alv && end == pos + rlp_list(
            cat_map(alv, enc_access_item_fn()),
        ).len() by {
            if items@.len() < alv.len() {
                lemma_items_at(b@, start as int, alv, items@.len() as int);
                crate::transaction::lemma_rlp_list_nonempty(
                    rlp_str(alv[items@.len() as int].address) + rlp_list(
                        cat_map(alv[items@.len() as int].storage_keys, enc_key_fn()),
                    ),
                );
                assert(false);
            }
            assert(alv.take(alv.len() as int) =~= alv);
        }
    }
    Some((items, end))
}

/// Canonical v, r, s fields sit at `pos`.
pub open spec fn sig_tail_at(b: Seq<u8>, pos: int, v: u64, rb: Seq<u8>, sb: Seq<u8>) -> bool {
    &&& uint_at(b, pos, v as nat)
    &&& str_at(b, pos + rlp_uint(v as nat).len(), rb)
    &&& str_at(b, pos + rlp_uint(v as nat).len() + rlp_str(rb).len(), sb)
}

/// Parse the trailing v, r, s fields up to `end`; an exhausted payload means
/// no signature. Canonical trailing fields are read back exactly.
fn parse_sig_tail(b: &Vec<u8>, pos: usize, end: usize) -> (r: Option<
    (Option<(u64, Vec<u8>, Vec<u8>)>, usize),
>)
    requires
        pos <= b@.len(),
    ensures
        r matches Some((t, next)) ==> next <= b@.len(),
        pos == end ==> (r matches Some((t, next)) && t is None && next == pos),
        forall|v: u64, rb: Seq<u8>, sb: Seq<u8>|
            (pos != end && rb.len() <= usize::MAX && sb.len() <= usize::MAX
                && #[trigger] sig_tail_at(b@, pos as int, v, rb, sb)) ==> (r matches Some(
                (t, next),
            ) && (t matches Some((w, rv, sv)) && w == v && rv@ == rb && sv@ == sb) && next == pos
                + rlp_uint(v as nat).len() + rlp_str(rb).len() + rlp_str(sb).len()),
{
    if pos == end {
        return Some((None, pos));
    }
    let (v, p1) = match parse_uint(b, pos) {
        Some(x) => x,
        None => return None,
    };
    if v > u64::MAX as u128 {
        return None;
    }
    let (rb, p2) = match parse_bytes(b, p1) {
        Some(x) => x,
        None => return None,
    };
    let (sb, p3) = match parse_bytes(b, p2) {
        Some(x) => x,
        None => return None,
    };
    Some((Some((v as u64, rb, sb)), p3))
}

/// No canonical legacy encoding starts with a typed transaction's leading
/// byte, which is below the list-framing range.
proof fn lemma_legacy_first_byte(b: Seq<u8>)
    requires
        b.len() <= usize::MAX,
    ensures
        forall|t: LegacyView, c: Option<u64>, sg: Option<SigView>|
            #[trigger] tx_wire(b, UnsignedView::Legacy(t), c, sg) ==> b.len() > 0 && b[0] >= 0xc0,
{
    assert forall|t: LegacyView, c: Option<u64>, sg: Option<SigView>|
        #[trigger] tx_wire(b, UnsignedView::Legacy(t), c, sg) implies b.len() > 0 && b[0]
        >= 0xc0 by {
        lemma_legacy_all(b, t, c, sg);
        crate::rlp::lemma_list_first_byte(b, 0, enc_legacy_payload(t, c, sg));
    }
}

/// Decode a wire transaction. Whatever is accepted re-encodes to exactly the
/// input and its replay indicator fits the machine word; every canonical
/// encoding, of every version, is accepted and reproduced field for field.
/// The cached hash is left zero and is the caller's to check.
pub fn decode_tx(b: &Vec<u8>) -> (r: Result<UnverifiedTransaction, TypesError>)
    ensures
        r matches Ok(tx) ==> b@ == spec_encode_tx(tx@.unsigned, tx@.chain_id, tx@.signature),
        r matches Ok(tx) ==> tx.sig_fits_all(),
        forall|t: LegacyView, c: Option<u64>, sg: Option<SigView>|
            #[trigger] tx_wire(b@, UnsignedView::Legacy(t), c, sg) ==> (r matches Ok(tx)
                && tx@.unsigned == UnsignedView::Legacy(t) && tx@.chain_id == c && tx@.signature
                == sg),
        forall|t: Eip1559View, c: Option<u64>, sg: Option<SigView>|
            #[trigger] tx_wire(b@, UnsignedView::Eip1559(t), c, sg) ==> (r matches Ok(tx)
                && tx@.unsigned == UnsignedView::Eip1559(t) && tx@.chain_id == c && tx@.signature
                == sg),
        forall|t: Eip2930View, c: Option<u64>, sg: Option<SigView>|
            #[trigger] tx_wire(b@, UnsignedView::Eip2930(t), c, sg) ==> (r matches Ok(tx)
                && tx@.unsigned == UnsignedView::Eip2930(t) && tx@.chain_id == c && tx@.signature
                == sg),
{
    let blen = b.len();
    proof {
        lemma_legacy_first_byte(b@);
        contra_1559(b@);
        contra_2930(b@);
    }
    if b.len() == 0 {
        return Err(TypesError::InvalidWireFormat);
    }
    let first = b[0];
    let decoded = if first == 0x02 {
        decode_1559(b)
    } else if first == 0x01 {
        decode_2930(b)
    } else if first >= 0xc0 {
        decode_legacy(b)
    } else {
        None
    };
    let utx = match decoded {
        Some(u) => u,
        None => {
            return Err(TypesError::InvalidWireFormat);
        },
    };
    let sig = match &utx.signature {
        Some(s) => Some(s.clone()),
        None => None,
    };
    if !check_replay_fits(&utx) {
        proof {
            assert forall|t: LegacyView, c: Option<u64>, sg: Option<SigView>|
                #[trigger] tx_wire(b@, UnsignedView::Legacy(t), c, sg) implies false by {
                assert(utx@.unsigned == UnsignedView::Legacy(t));
                assert(utx.sig_fits_all());
            }
            assert forall|t: Eip1559View, c: Option<u64>, sg: Option<SigView>|
                #[trigger] tx_wire(b@, UnsignedView::Eip1559(t), c, sg) implies false by {
                assert(utx@.unsigned == UnsignedView::Eip1559(t));
                assert(utx.sig_fits_all());
            }
            assert forall|t: Eip2930View, c: Option<u64>, sg: Option<SigView>|
                #[trigger] tx_wire(b@, UnsignedView::Eip2930(t), c, sg) implies false by {
                assert(utx@.unsigned == UnsignedView::Eip2930(t));
                assert(utx.sig_fits_all());
            }
        }
        return Err(TypesError::InvalidWireFormat);
    }
    assert(opt_sig_view(sig) == utx@.signature);
    let enc = utx.unsigned.encode(utx.chain_id, sig);
    if crate::bytes_eq(&enc, b) {
        Ok(utx)
    } else {
        proof {
            assert forall|t: LegacyView, c: Option<u64>, sg: Option<SigView>|
                #[trigger] tx_wire(b@, UnsignedView::Legacy(t), c, sg) implies false by {
                assert(utx@.unsigned == UnsignedView::Legacy(t));
                assert(enc@ == spec_encode_tx(UnsignedView::Legacy(t), c, sg));
            }
            assert forall|t: Eip1559View, c: Option<u64>, sg: Option<SigView>|
                #[trigger] tx_wire(b@, UnsignedView::Eip1559(t), c, sg) implies false by {
                assert(utx@.unsigned == UnsignedView::Eip1559(t));
                assert(enc@ == spec_encode_tx(UnsignedView::Eip1559(t), c, sg));
            }
            assert forall|t: Eip2930View, c: Option<u64>, sg: Option<SigView>|
                #[trigger] tx_wire(b@, UnsignedView::Eip2930(t), c, sg) implies false by {
                assert(utx@.unsigned == UnsignedView::Eip2930(t));
                assert(enc@ == spec_encode_tx(UnsignedView::Eip2930(t), c, sg));
            }
        }
        Err(TypesError::InvalidWireFormat)
    }
}

/// True when a legacy signature's replay indicator fits the machine word.
fn check_replay_fits(utx: &UnverifiedTransaction) -> (r: bool)
    ensures
        r == utx.sig_fits_all(),
{
    match (&utx.unsigned, &utx.signature) {
        (UnsignedTransaction::Legacy(_), Some(sig)) => {
            let base: u128 = match utx.chain_id {
                Some(id) => 2 * (id as u128) + 35,
                None => 27,
            };
            sig.standard_v as u128 + base <= u64::MAX as u128
        },
        _ => true,
    }
}

/// Everything a canonical legacy encoding pins down: the payload framing,
/// each field's position, and the trailing fields by signature shape.
pub open spec fn legacy_facts(b: Seq<u8>, t: LegacyView, c: Option<u64>, sg: Option<SigView>) -> bool {
    let pl = enc_legacy_payload(t, c, sg);
    let p0 = b.len() - pl.len();
    let q1 = p0 + rlp_uint(t.nonce as nat).len();
    let q2 = q1 + rlp_uint(t.gas_price as nat).len();
    let q3 = q2 + rlp_uint(t.gas_limit as nat).len();
    let q4 = q3 + rlp_str(action_payload(t.action)).len();
    let q5 = q4 + rlp_uint(t.value as nat).len();
    let q6 = q5 + rlp_str(t.data).len();
    &&& pl.len() <= usize::MAX
    &&& crate::rlp::list_at(b, 0, pl)
    &&& rlp_list(pl).len() == b.len()
    &&& uint_at(b, p0, t.nonce as nat)
    &&& uint_at(b, q1, t.gas_price as nat)
    &&& uint_at(b, q2, t.gas_limit as nat)
    &&& str_at(b, q3, action_payload(t.action))
    &&& uint_at(b, q4, t.value as nat)
    &&& str_at(b, q5, t.data)
    &&& q6 + enc_legacy_tail(c, sg).len() == b.len()
    &&& (sg matches Some(sv) ==> 27 <= replay_v(sv.standard_v, c) <= u64::MAX && sig_tail_at(
        b,
        q6,
        replay_v(sv.standard_v, c) as u64,
        sv.r,
        sv.s,
    ) && q6 < b.len())
    &&& ((sg is None && c is Some) ==> sig_tail_at(
        b,
        q6,
        c.unwrap(),
        Seq::<u8>::empty(),
        Seq::<u8>::empty(),
    ) && q6 < b.len())
    &&& ((sg is None && c is None) ==> q6 == b.len())
}

proof fn lemma_legacy_all(b: Seq<u8>, t: LegacyView, c: Option<u64>, sg: Option<SigView>)
    requires
        b.len() <= usize::MAX,
        tx_wire(b, UnsignedView::Legacy(t), c, sg),
    ensures
        legacy_facts(b, t, c, sg),
{
    lemma_legacy_layout(b, t, c, sg);
    let pl = enc_legacy_payload(t, c, sg);
    let p0 = b.len() - pl.len();
    let q6 = p0 + rlp_uint(t.nonce as nat).len() + rlp_uint(t.gas_price as nat).len() + rlp_uint(
        t.gas_limit as nat,
    ).len() + rlp_str(action_payload(t.action)).len() + rlp_uint(t.value as nat).len() + rlp_str(
        t.data,
    ).len();
    match sg {
        Some(sv) => {
            lemma_legacy_tail_layout(b, q6, c, sv);
            assert(27 <= replay_v(sv.standard_v, c));
            assert(replay_v(sv.standard_v, c) as u64 as nat == replay_v(sv.standard_v, c) as nat);
        },
        None => {
            match c {
                Some(id) => {
                    lemma_legacy_chain_tail_layout(b, q6, id);
                },
                None => {
                },
            }
        },
    }
}

/// Every canonical legacy encoding of `b` has its layout facts available.
proof fn contra_legacy(b: Seq<u8>)
    requires
        b.len() <= usize::MAX,
    ensures
        forall|t: LegacyView, c: Option<u64>, sg: Option<SigView>|
            #[trigger] tx_wire(b, UnsignedView::Legacy(t), c, sg) ==> legacy_facts(b, t, c, sg),
{
    assert forall|t: LegacyView, c: Option<u64>, sg: Option<SigView>|
        #[trigger] tx_wire(b, UnsignedView::Legacy(t), c, sg) implies legacy_facts(
        b,
        t,
        c,
        sg,
    ) by {
        lemma_legacy_all(b, t, c, sg);
    }
}

#[verifier::rlimit(100)]
#[verifier::spinoff_prover]
fn decode_legacy(b: &Vec<u8>) -> (r: Option<UnverifiedTransaction>)
    ensures
        forall|t: LegacyView, c: Option<u64>, sg: Option<SigView>|
            #[trigger] tx_wire(b@, UnsignedView::Legacy(t), c, sg) ==> (r matches Some(u)
                && u@.unsigned == UnsignedView::Legacy(t) && u@.signature == sg && u@.chain_id
                == c),
{
    let blen = b.len();
    proof {
        contra_legacy(b@);
    }
    let (start, len) = match parse_list_header(b, 0) {
        Some(x) => x,
        None => {
            return None;
        },
    };
    assert(start + len <= blen);
    let end = start + len;
    let (nonce, p) = match parse_uint(b, start) {
        Some(x) => x,
        None => {
            return None;
        },
    };
    if nonce > u64::MAX as u128 {
        return None;
    }
    let (gas_price, p) = match parse_uint(b, p) {
        Some(x) => x,
        None => {
            return None;
        },
    };
    let (gas_limit, p) = match parse_uint(b, p) {
        Some(x) => x,
        None => {
            return None;
        },
    };
    if gas_limit > u64::MAX as u128 {
        return None;
    }
    let (action, p) = match parse_action(b, p) {
        Some(x) => x,
        None => {
            return None;
        },
    };
    let (value, p) = match parse_uint(b, p) {
        Some(x) => x,
        None => {
            return None;
        },
    };
    let (data, p) = match parse_bytes(b, p) {
        Some(x) => x,
        None => {
            return None;
        },
    };
    let (tail, p) = match parse_sig_tail(b, p, end) {
        Some(x) => x,
        None => {
            return None;
        },
    };
    if p != end || end != b.len() {
        return None;
    }
    let tx = LegacyTransaction {
        nonce: nonce as u64,
        gas_price,
        gas_limit: gas_limit as u64,
        action,
        value,
        data,
    };
    let (signature, chain_id) = match tail {
        None => (None, None),
        Some((v, rb, sb)) => {
            if rb.len() == 0 && sb.len() == 0 {
                // The replay-protected unsigned preimage: chain id and two
                // empty fields.
                (None, Some(v))
            } else {
                let standard_v = match SignatureComponents::extract_standard_v(v) {
                    Some(x) => x,
                    None => {
                        return None;
                    },
                };
                let chain_id = SignatureComponents::extract_chain_id(v);
                (Some(SignatureComponents { r: rb, s: sb, standard_v }), chain_id)
            }
        },
    };
    let u = UnverifiedTransaction {
        unsigned: UnsignedTransaction::Legacy(tx),
        signature,
        chain_id,
        hash: H256::zero(),
    };
    proof {
        assert forall|t: LegacyView, c: Option<u64>, sg: Option<SigView>|
            #[trigger] tx_wire(b@, UnsignedView::Legacy(t), c, sg) implies u@.unsigned
            == UnsignedView::Legacy(t) && u@.signature == sg && u@.chain_id == c by {
            assert(legacy_facts(b@, t, c, sg));
            assert(u@.unsigned == UnsignedView::Legacy(t));
            match sg {
                Some(sv) => {
                    let w = replay_v(sv.standard_v, c);
                    assert(!(sv.r.len() == 0 && sv.s.len() == 0));
                    match c {
                        Some(id) => {
                            assert(w == sv.standard_v + 2 * (id as int) + 35);
                            assert(w >= 35);
                            assert((w - 1) % 2 == sv.standard_v as int);
                            assert((w - 35) / 2 == id as int);
                        },
                        None => {
                            assert(w == sv.standard_v + 27);
                        },
                    }
                    assert(u@.signature == sg);
                    assert(u@.chain_id == c);
                },
                None => {
                    assert(u@.signature == sg && u@.chain_id == c);
                },
            }
        }
    }
    Some(u)
}

/// Everything a canonical typed encoding pins down, for each version.
pub open spec fn eip1559_facts(b: Seq<u8>, t: Eip1559View, c: Option<u64>, sg: Option<SigView>) -> bool {
    let pl = enc_eip1559_payload(t, c, sg);
    let p0 = b.len() - pl.len();
    let z1 = p0 + rlp_uint(c.unwrap_or(0) as nat).len();
    let z2 = z1 + rlp_uint(t.nonce as nat).len();
    let z3 = z2 + rlp_uint(t.max_priority_fee_per_gas as nat).len();
    let z4 = z3 + rlp_uint(t.gas_price as nat).len();
    let z5 = z4 + rlp_uint(t.gas_limit as nat).len();
    let z6 = z5 + rlp_str(action_payload(t.action)).len();
    let z7 = z6 + rlp_uint(t.value as nat).len();
    let z8 = z7 + rlp_str(t.data).len();
    let z9 = z8 + enc_access_list(t.access_list).len();
    &&& pl.len() <= usize::MAX
    &&& b.len() > 0
    &&& b[0] == 2
    &&& crate::rlp::list_at(b, 1, pl)
    &&& 1 + rlp_list(pl).len() == b.len()
    &&& uint_at(b, p0, c.unwrap_or(0) as nat)
    &&& uint_at(b, z1, t.nonce as nat)
    &&& uint_at(b, z2, t.max_priority_fee_per_gas as nat)
    &&& uint_at(b, z3, t.gas_price as nat)
    &&& uint_at(b, z4, t.gas_limit as nat)
    &&& str_at(b, z5, action_payload(t.action))
    &&& uint_at(b, z6, t.value as nat)
    &&& str_at(b, z7, t.data)
    &&& crate::rlp::list_at(b, z8, cat_map(t.access_list, enc_access_item_fn()))
    &&& z9 + enc_typed_tail(sg).len() == b.len()
    &&& (sg matches Some(sv) ==> sig_tail_at(b, z9, sv.standard_v as u64, sv.r, sv.s) && z9
        < b.len())
    &&& (sg is None ==> z9 == b.len())
}

pub open spec fn eip2930_facts(b: Seq<u8>, t: Eip2930View, c: Option<u64>, sg: Option<SigView>) -> bool {
    let pl = enc_eip2930_payload(t, c, sg);
    let p0 = b.len() - pl.len();
    let z1 = p0 + rlp_uint(c.unwrap_or(0) as nat).len();
    let z2 = z1 + rlp_uint(t.nonce as nat).len();
    let z3 = z2 + rlp_uint(t.gas_price as nat).len();
    let z4 = z3 + rlp_uint(t.gas_limit as nat).len();
    let z5 = z4 + rlp_str(action_payload(t.action)).len();
    let z6 = z5 + rlp_uint(t.value as nat).len();
    let z7 = z6 + rlp_str(t.data).len();
    let z8 = z7 + enc_access_list(t.access_list).len();
    &&& pl.len() <= usize::MAX
    &&& b.len() > 0
    &&& b[0] == 1
    &&& crate::rlp::list_at(b, 1, pl)
    &&& 1 + rlp_list(pl).len() == b.len()
    &&& uint_at(b, p0, c.unwrap_or(0) as nat)
    &&& uint_at(b, z1, t.nonce as nat)
    &&& uint_at(b, z2, t.gas_price as nat)
    &&& uint_at(b, z3, t.gas_limit as nat)
    &&& str_at(b, z4, action_payload(t.action))
    &&& uint_at(b, z5, t.value as nat)
    &&& str_at(b, z6, t.data)
    &&& crate::rlp::list_at(b, z7, cat_map(t.access_list, enc_access_item_fn()))
    &&& z8 + enc_typed_tail(sg).len() == b.len()
    &&& (sg matches Some(sv) ==> sig_tail_at(b, z8, sv.standard_v as u64, sv.r, sv.s) && z8
        < b.len())
    &&& (sg is None ==> z8 == b.len())
}

/// Every canonical EIP-1559 encoding of `b` has its layout facts available.
#[verifier::rlimit(100)]
#[verifier::spinoff_prover]
proof fn contra_1559(b: Seq<u8>)
    requires
        b.len() <= usize::MAX,
    ensures
        forall|t: Eip1559View, c: Option<u64>, sg: Option<SigView>|
            #[trigger] tx_wire(b, UnsignedView::Eip1559(t), c, sg) ==> eip1559_facts(b, t, c, sg),
{
    assert forall|t: Eip1559View, c: Option<u64>, sg: Option<SigView>|
        #[trigger] tx_wire(b, UnsignedView::Eip1559(t), c, sg) implies eip1559_facts(
        b,
        t,
        c,
        sg,
    ) by {
        lemma_eip1559_layout(b, t, c, sg);
        let z9 = b.len() - enc_typed_tail(sg).len();
        match sg {
            Some(sv) => {
                lemma_typed_tail_layout(b, z9, sv);
            },
            None => {
            },
        }
    }
}

/// Every canonical EIP-2930 encoding of `b` has its layout facts available.
#[verifier::rlimit(100)]
#[verifier::spinoff_prover]
proof fn contra_2930(b: Seq<u8>)
    requires
        b.len() <= usize::MAX,
    ensures
        forall|t: Eip2930View, c: Option<u64>, sg: Option<SigView>|
            #[trigger] tx_wire(b, UnsignedView::Eip2930(t), c, sg) ==> eip2930_facts(b, t, c, sg),
{
    assert forall|t: Eip2930View, c: Option<u64>, sg: Option<SigView>|
        #[trigger] tx_wire(b, UnsignedView::Eip2930(t), c, sg) implies eip2930_facts(
        b,
        t,
        c,
        sg,
    ) by {
        lemma_eip2930_layout(b, t, c, sg);
        let z8 = b.len() - enc_typed_tail(sg).len();
        match sg {
            Some(sv) => {
                lemma_typed_tail_layout(b, z8, sv);
            },
            None => {
            },
        }
    }
}

/// The position just after the leading numeric fields of a canonical
/// Eip1559 encoding.
pub open spec fn nums_end_1559(b: Seq<u8>, t: Eip1559View, c: Option<u64>, sg: Option<SigView>) -> int {
    b.len() - enc_eip1559_payload(t, c, sg).len() + rlp_uint(c.unwrap_or(0) as nat).len() + rlp_uint(
        t.nonce as nat,
    ).len() + rlp_uint(t.max_priority_fee_per_gas as nat).len() + rlp_uint(t.gas_price as nat).len() + rlp_uint(t.gas_limit as nat).len()
}

/// Parse the list framing and leading numeric fields of a typed encoding;
/// on a canonical Eip1559 encoding every value is read back exactly.
#[verifier::rlimit(100)]
#[verifier::spinoff_prover]
fn parse_1559_nums(b: &Vec<u8>) -> (r: Option<(u128, u128, u128, u128, u128, usize, usize)>)
    ensures
        r matches Some(n) ==> n.5 <= b@.len() && n.6 <= b@.len() && n.0 <= u64::MAX
            && n.1 <= u64::MAX && n.4 <= u64::MAX,
        forall|tv: Eip1559View, c: Option<u64>, sg: Option<SigView>|
            #[trigger] tx_wire(b@, UnsignedView::Eip1559(tv), c, sg) ==> (r matches Some(n)
                && n.0 == c.unwrap_or(0) && n.1 == tv.nonce && n.2 == tv.max_priority_fee_per_gas && n.3 == tv.gas_price
                && n.4 == tv.gas_limit && n.5 == nums_end_1559(b@, tv, c, sg)
                && n.6 == b@.len()),
{
    let blen = b.len();
    proof {
        contra_1559(b@);
    }
    let (start, len) = match parse_list_header(b, 1) {
        Some(x) => x,
        None => {
            return None;
        },
    };
    assert(start + len <= blen);
    let end = start + len;
    let (chain, p) = match parse_uint(b, start) {
        Some(x) => x,
        None => {
            return None;
        },
    };
    if chain > u64::MAX as u128 {
        return None;
    }
    let (nonce, p) = match parse_uint(b, p) {
        Some(x) => x,
        None => {
            return None;
        },
    };
    if nonce > u64::MAX as u128 {
        return None;
    }
    let (priority, p) = match parse_uint(b, p) {
        Some(x) => x,
        None => {
            return None;
        },
    };
    let (gas_price, p) = match parse_uint(b, p) {
        Some(x) => x,
        None => {
            return None;
        },
    };
    let (gas_limit, p) = match parse_uint(b, p) {
        Some(x) => x,
        None => {
            return None;
        },
    };
    if gas_limit > u64::MAX as u128 {
        return None;
    }
    Some((chain, nonce, priority, gas_price, gas_limit, p, end))
}

/// Decode a canonical Eip1559 transaction.
#[verifier::rlimit(100)]
#[verifier::spinoff_prover]
fn decode_1559(b: &Vec<u8>) -> (r: Option<UnverifiedTransaction>)
    ensures
        forall|t: Eip1559View, c: Option<u64>, sg: Option<SigView>|
            #[trigger] tx_wire(b@, UnsignedView::Eip1559(t), c, sg) ==> (r matches Some(u)
                && u@.unsigned == UnsignedView::Eip1559(t) && u@.signature == sg && u@.chain_id
                == c),
{
    let blen = b.len();
    proof {
        contra_1559(b@);
    }
    let (chain, nonce, priority, gas_price, gas_limit, p, end) = match parse_1559_nums(b) {
        Some(x) => x,
        None => {
            return None;
        },
    };
    let (action, p) = match parse_action(b, p) {
        Some(x) => x,
        None => {
            return None;
        },
    };
    let (value, p) = match parse_uint(b, p) {
        Some(x) => x,
        None => {
            return None;
        },
    };
    let (data, p) = match parse_bytes(b, p) {
        Some(x) => x,
        None => {
            return None;
        },
    };
    proof {
        assert forall|t: Eip1559View, c: Option<u64>, sg: Option<SigView>|
            #[trigger] tx_wire(b@, UnsignedView::Eip1559(t), c, sg) implies al_ok(
            b@,
            p as int,
            t.access_list,
        ) by {
        }
    }
    let (access_list, p) = match parse_access_list(b, p) {
        Some(x) => x,
        None => {
            return None;
        },
    };
    let ghost alv = access_list@.map_values(al_item_view_fn());
    let (tail, p) = match parse_sig_tail(b, p, end) {
        Some(x) => x,
        None => {
            return None;
        },
    };
    if p != end || end != b.len() {
        return None;
    }
    let signature = match tail {
        None => None,
        Some((v, rb, sb)) => {
            if v > u8::MAX as u64 {
                return None;
            }
            Some(SignatureComponents { r: rb, s: sb, standard_v: v as u8 })
        },
    };
    let unsigned = UnsignedTransaction::Eip1559(
        Eip1559Transaction {
            nonce: nonce as u64,
                max_priority_fee_per_gas: priority,
            gas_price,
            gas_limit: gas_limit as u64,
            action,
            value,
            data,
            access_list,
        },
    );
    let u = UnverifiedTransaction {
        unsigned,
        signature,
        chain_id: Some(chain as u64),
        hash: H256::zero(),
    };
    proof {
        assert forall|t: Eip1559View, c: Option<u64>, sg: Option<SigView>|
            #[trigger] tx_wire(b@, UnsignedView::Eip1559(t), c, sg) implies u@.unsigned
            == UnsignedView::Eip1559(t) && u@.signature == sg && u@.chain_id == c by {
            assert(eip1559_facts(b@, t, c, sg));
            assert(alv == t.access_list);
            assert(u@.unsigned == UnsignedView::Eip1559(t));
            assert(u@.signature == sg);
            assert(u@.chain_id == c);
        }
    }
    Some(u)
}

/// The position just after the leading numeric fields of a canonical
/// Eip2930 encoding.
pub open spec fn nums_end_2930(b: Seq<u8>, t: Eip2930View, c: Option<u64>, sg: Option<SigView>) -> int {
    b.len() - enc_eip2930_payload(t, c, sg).len() + rlp_uint(c.unwrap_or(0) as nat).len() + rlp_uint(
        t.nonce as nat,
    ).len() + rlp_uint(t.gas_price as nat).len() + rlp_uint(t.gas_limit as nat).len()
}

/// Parse the list framing and leading numeric fields of a typed encoding;
/// on a canonical Eip2930 encoding every value is read back exactly.
#[verifier::rlimit(100)]
#[verifier::spinoff_prover]
fn parse_2930_nums(b: &Vec<u8>) -> (r: Option<(u128, u128, u128, u128, usize, usize)>)
    ensures
        r matches Some(n) ==> n.4 <= b@.len() && n.5 <= b@.len() && n.0 <= u64::MAX
            && n.1 <= u64::MAX && n.3 <= u64::MAX,
        forall|tv: Eip2930View, c: Option<u64>, sg: Option<SigView>|
            #[trigger] tx_wire(b@, UnsignedView::Eip2930(tv), c, sg) ==> (r matches Some(n)
                && n.0 == c.unwrap_or(0) && n.1 == tv.nonce && n.2 == tv.gas_price
                && n.3 == tv.gas_limit && n.4 == nums_end_2930(b@, tv, c, sg)
                && n.5 == b@.len()),
{
    let blen = b.len();
    proof {
        contra_2930(b@);
    }
    let (start, len) = match parse_list_header(b, 1) {
        Some(x) => x,
        None => {
            return None;
        },
    };
    assert(start + len <= blen);
    let end = start + len;
    let (chain, p) = match parse_uint(b, start) {
        Some(x) => x,
        None => {
            return None;
        },
    };
    if chain > u64::MAX as u128 {
        return None;
    }
    let (nonce, p) = match parse_uint(b, p) {
        Some(x) => x,
        None => {
            return None;
        },
    };
    if nonce > u64::MAX as u128 {
        return None;
    }
    let (gas_price, p) = match parse_uint(b, p) {
        Some(x) => x,
        None => {
            return None;
        },
    };
    let (gas_limit, p) = match parse_uint(b, p) {
        Some(x) => x,
        None => {
            return None;
        },
    };
    if gas_limit > u64::MAX as u128 {
        return None;
    }
    Some((chain, nonce, gas_price, gas_limit, p, end))
}

/// Decode a canonical Eip2930 transaction.
#[verifier::rlimit(100)]
#[verifier::spinoff_prover]
fn decode_2930(b: &Vec<u8>) -> (r: Option<UnverifiedTransaction>)
    ensures
        forall|t: Eip2930View, c: Option<u64>, sg: Option<SigView>|
            #[trigger] tx_wire(b@, UnsignedView::Eip2930(t), c, sg) ==> (r matches Some(u)
                && u@.unsigned == UnsignedView::Eip2930(t) && u@.signature == sg && u@.chain_id
                == c),
{
    let blen = b.len();
    proof {
        contra_2930(b@);
    }
    let (chain, nonce, gas_price, gas_limit, p, end) = match parse_2930_nums(b) {
        Some(x) => x,
        None => {
            return None;
        },
    };
    let (action, p) = match parse_action(b, p) {
        Some(x) => x,
        None => {
            return None;
        },
    };
    let (value, p) = match parse_uint(b, p) {
        Some(x) => x,
        None => {
            return None;
        },
    };
    let (data, p) = match parse_bytes(b, p) {
        Some(x) => x,
        None => {
            return None;
        },
    };
    proof {
        assert forall|t: Eip2930View, c: Option<u64>, sg: Option<SigView>|
            #[trigger] tx_wire(b@, UnsignedView::Eip2930(t), c, sg) implies al_ok(
            b@,
            p as int,
            t.access_list,
        ) by {
        }
    }
    let (access_list, p) = match parse_access_list(b, p) {
        Some(x) => x,
        None => {
            return None;
        },
    };
    let ghost alv = access_list@.map_values(al_item_view_fn());
    let (tail, p) = match parse_sig_tail(b, p, end) {
        Some(x) => x,
        None => {
            return None;
        },
    };
    if p != end || end != b.len() {
        return None;
    }
    let signature = match tail {
        None => None,
        Some((v, rb, sb)) => {
            if v > u8::MAX as u64 {
                return None;
            }
            Some(SignatureComponents { r: rb, s: sb, standard_v: v as u8 })
        },
    };
    let unsigned = UnsignedTransaction::Eip2930(
        Eip2930Transaction {
            nonce: nonce as u64,
            gas_price,
            gas_limit: gas_limit as u64,
            action,
            value,
            data,
            access_list,
        },
    );
    let u = UnverifiedTransaction {
        unsigned,
        signature,
        chain_id: Some(chain as u64),
        hash: H256::zero(),
    };
    proof {
        assert forall|t: Eip2930View, c: Option<u64>, sg: Option<SigView>|
            #[trigger] tx_wire(b@, UnsignedView::Eip2930(t), c, sg) implies u@.unsigned
            == UnsignedView::Eip2930(t) && u@.signature == sg && u@.chain_id == c by {
            assert(eip2930_facts(b@, t, c, sg));
            assert(alv == t.access_list);
            assert(u@.unsigned == UnsignedView::Eip2930(t));
            assert(u@.signature == sg);
            assert(u@.chain_id == c);
        }
    }
    Some(u)
}

} // verus!
