//! The transaction model: the three protocol versions, their canonical byte
//! encoding, signature components with two recovery schemes, hash checking,
//! and receipt encoding.

use vstd::prelude::*;

use crate::crypto::{keccak_of, keccak256, recovered_key_of, secp256k1_recover};
use crate::rlp::{
    append_bytes, append_list, append_str, append_uint, be_bytes, cat_map, lemma_cat_map_snoc,
    rlp_list, rlp_str, rlp_uint,
};
use crate::types::{
    cap_u128, clone_bytes, copy_range, Amount, Bloom, ExitReason, Log, Public, TxResp, H160, H256,
};

verus! {

pub const MAX_PRIORITY_FEE_PER_GAS: u64 = 1_337;

/// Typed, recoverable failures of the transaction model.
#[derive(Debug)]
pub enum TypesError {
    /// The prepay multiplication gas_price * gas_limit overflows.
    PrepayGasIsTooLarge,
    /// The cached hash differs from the recomputed one.
    TxHashMismatch { origin: H256, calc: H256 },
    /// A signed operation was attempted on an unsigned transaction.
    Unsigned,
    /// A signature was required and absent.
    MissingSignature,
    /// Public-key recovery failed.
    Crypto,
    /// The signature's r-field marker names no supported recovery scheme.
    InvalidSignatureRType,
    /// The embedded interoperation payload does not decode.
    DecodeInteroperationSigR,
    /// A byte string is not the canonical encoding of any transaction.
    InvalidWireFormat,
}

/// Where a transaction is directed: an existing account, or contract creation.
pub enum TransactionAction {
    Call(H160),
    Create,
}

impl View for TransactionAction {
    type V = Option<Seq<u8>>;

    open spec fn view(&self) -> Option<Seq<u8>> {
        match self {
            TransactionAction::Call(to) => Some(to@),
            TransactionAction::Create => None,
        }
    }
}

impl Clone for TransactionAction {
    fn clone(&self) -> (r: Self)
        ensures
            r@ == self@,
    {
        match self {
            TransactionAction::Call(to) => TransactionAction::Call(to.clone()),
            TransactionAction::Create => TransactionAction::Create,
        }
    }
}

impl TransactionAction {
    pub open spec fn wf(&self) -> bool {
        match self {
            TransactionAction::Call(to) => to.wf(),
            TransactionAction::Create => true,
        }
    }
}

/// One access-list entry: an address and the storage keys it pre-declares.
pub struct AccessListItem {
    pub address: H160,
    pub storage_keys: Vec<H256>,
}

/// The mathematical value of an access-list entry.
pub struct ALItemView {
    pub address: Seq<u8>,
    pub storage_keys: Seq<Seq<u8>>,
}

/// The view of one storage key.
pub open spec fn h256_view_fn() -> spec_fn(H256) -> Seq<u8> {
    |k: H256| k@
}

/// The view of one access-list entry.
pub open spec fn al_item_view_fn() -> spec_fn(AccessListItem) -> ALItemView {
    |it: AccessListItem| it@
}

impl View for AccessListItem {
    type V = ALItemView;

    open spec fn view(&self) -> ALItemView {
        ALItemView {
            address: self.address@,
            storage_keys: self.storage_keys@.map_values(h256_view_fn()),
        }
    }
}

impl Clone for AccessListItem {
    fn clone(&self) -> (r: Self)
        ensures
            r@ == self@,
    {
        let mut keys: Vec<H256> = Vec::new();
        let n = self.storage_keys.len();
        let mut i: usize = 0;
        while i < n
            invariant
                n == self.storage_keys@.len(),
                i <= n,
                keys@.map_values(h256_view_fn()) == self.storage_keys@.take(i as int).map_values(
                    h256_view_fn(),
                ),
            decreases n - i,
        {
            let ghost prev = keys@;
            keys.push(self.storage_keys[i].clone());
            proof {
                prev.lemma_push_map_commute(h256_view_fn(), keys@.last());
                self.storage_keys@.lemma_map_take_succ(h256_view_fn(), i as int);
                assert(keys@.map_values(h256_view_fn()) =~= self.storage_keys@.take(
                    i + 1,
                ).map_values(h256_view_fn()));
            }
            i += 1;
        }
        assert(self.storage_keys@.take(n as int) =~= self.storage_keys@);
        let r = AccessListItem { address: self.address.clone(), storage_keys: keys };
        assert(r@ =~= self@);
        r
    }
}

pub type AccessList = Vec<AccessListItem>;

/// Pre-typed-transaction format: no access list, no chain id field of its own.
pub struct LegacyTransaction {
    pub nonce: u64,
    pub gas_price: Amount,
    pub gas_limit: u64,
    pub action: TransactionAction,
    pub value: Amount,
    pub data: Vec<u8>,
}

/// The mathematical value of a legacy transaction.
pub struct LegacyView {
    pub nonce: u64,
    pub gas_price: Amount,
    pub gas_limit: u64,
    pub action: Option<Seq<u8>>,
    pub value: Amount,
    pub data: Seq<u8>,
}

impl View for LegacyTransaction {
    type V = LegacyView;

    open spec fn view(&self) -> LegacyView {
        LegacyView {
            nonce: self.nonce,
            gas_price: self.gas_price,
            gas_limit: self.gas_limit,
            action: self.action@,
            value: self.value,
            data: self.data@,
        }
    }
}

impl Clone for LegacyTransaction {
    fn clone(&self) -> (r: Self)
        ensures
            r@ == self@,
    {
        LegacyTransaction {
            nonce: self.nonce,
            gas_price: self.gas_price,
            gas_limit: self.gas_limit,
            action: self.action.clone(),
            value: self.value,
            data: clone_bytes(&self.data),
        }
    }
}

impl LegacyTransaction {
    pub fn get_to(&self) -> (r: Option<H160>)
        ensures
            r matches Some(to) ==> self.action@ is Some && to@ == self.action@.unwrap(),
            r is None <==> self.action@ is None,
    {
        match &self.action {
            TransactionAction::Call(to) => Some(to.clone()),
            TransactionAction::Create => None,
        }
    }
}

/// EIP-2930: adds a chain id and an access list.
pub struct Eip2930Transaction {
    pub nonce: u64,
    pub gas_price: Amount,
    pub gas_limit: u64,
    pub action: TransactionAction,
    pub value: Amount,
    pub data: Vec<u8>,
    pub access_list: AccessList,
}

/// The mathematical value of an EIP-2930 transaction.
pub struct Eip2930View {
    pub nonce: u64,
    pub gas_price: Amount,
    pub gas_limit: u64,
    pub action: Option<Seq<u8>>,
    pub value: Amount,
    pub data: Seq<u8>,
    pub access_list: Seq<ALItemView>,
}

impl View for Eip2930Transaction {
    type V = Eip2930View;

    open spec fn view(&self) -> Eip2930View {
        Eip2930View {
            nonce: self.nonce,
            gas_price: self.gas_price,
            gas_limit: self.gas_limit,
            action: self.action@,
            value: self.value,
            data: self.data@,
            access_list: self.access_list@.map_values(al_item_view_fn()),
        }
    }
}

impl Eip2930Transaction {
    pub fn get_to(&self) -> (r: Option<H160>)
        ensures
            r matches Some(to) ==> self.action@ is Some && to@ == self.action@.unwrap(),
            r is None <==> self.action@ is None,
    {
        match &self.action {
            TransactionAction::Call(to) => Some(to.clone()),
            TransactionAction::Create => None,
        }
    }
}

/// EIP-1559: adds a priority fee beside the (maximum) gas price.
pub struct Eip1559Transaction {
    pub nonce: u64,
    pub max_priority_fee_per_gas: Amount,
    pub gas_price: Amount,
    pub gas_limit: u64,
    pub action: TransactionAction,
    pub value: Amount,
    pub data: Vec<u8>,
    pub access_list: AccessList,
}

/// The mathematical value of an EIP-1559 transaction.
pub struct Eip1559View {
    pub nonce: u64,
    pub max_priority_fee_per_gas: Amount,
    pub gas_price: Amount,
    pub gas_limit: u64,
    pub action: Option<Seq<u8>>,
    pub value: Amount,
    pub data: Seq<u8>,
    pub access_list: Seq<ALItemView>,
}

impl View for Eip1559Transaction {
    type V = Eip1559View;

    open spec fn view(&self) -> Eip1559View {
        Eip1559View {
            nonce: self.nonce,
            max_priority_fee_per_gas: self.max_priority_fee_per_gas,
            gas_price: self.gas_price,
            gas_limit: self.gas_limit,
            action: self.action@,
            value: self.value,
            data: self.data@,
            access_list: self.access_list@.map_values(al_item_view_fn()),
        }
    }
}

impl Eip1559Transaction {
    pub fn get_to(&self) -> (r: Option<H160>)
        ensures
            r matches Some(to) ==> self.action@ is Some && to@ == self.action@.unwrap(),
            r is None <==> self.action@ is None,
    {
        match &self.action {
            TransactionAction::Call(to) => Some(to.clone()),
            TransactionAction::Create => None,
        }
    }
}

/// The closed set of protocol transaction versions.
pub enum UnsignedTransaction {
    Legacy(LegacyTransaction),
    Eip2930(Eip2930Transaction),
    Eip1559(Eip1559Transaction),
}

/// The mathematical value of an unsigned transaction.
pub enum UnsignedView {
    Legacy(LegacyView),
    Eip2930(Eip2930View),
    Eip1559(Eip1559View),
}

impl View for UnsignedTransaction {
    type V = UnsignedView;

    open spec fn view(&self) -> UnsignedView {
        match self {
            UnsignedTransaction::Legacy(tx) => UnsignedView::Legacy(tx@),
            UnsignedTransaction::Eip2930(tx) => UnsignedView::Eip2930(tx@),
            UnsignedTransaction::Eip1559(tx) => UnsignedView::Eip1559(tx@),
        }
    }
}

/// Signature components: r and s byte strings plus the recovery indicator.
pub struct SignatureComponents {
    pub r: Vec<u8>,
    pub s: Vec<u8>,
    pub standard_v: u8,
}

/// The mathematical value of a signature.
pub struct SigView {
    pub r: Seq<u8>,
    pub s: Seq<u8>,
    pub standard_v: u8,
}

impl View for SignatureComponents {
    type V = SigView;

    open spec fn view(&self) -> SigView {
        SigView { r: self.r@, s: self.s@, standard_v: self.standard_v }
    }
}

impl Clone for SignatureComponents {
    fn clone(&self) -> (r: Self)
        ensures
            r@ == self@,
    {
        SignatureComponents {
            r: clone_bytes(&self.r),
            s: clone_bytes(&self.s),
            standard_v: self.standard_v,
        }
    }
}

/// The view of an optional signature.
pub open spec fn opt_sig_view(s: Option<SignatureComponents>) -> Option<SigView> {
    match s {
        Some(sig) => Some(sig@),
        None => None,
    }
}

/// Unsigned payload plus optional signature, chain id, and the cached hash.
pub struct UnverifiedTransaction {
    pub unsigned: UnsignedTransaction,
    pub signature: Option<SignatureComponents>,
    pub chain_id: Option<u64>,
    pub hash: H256,
}

/// The mathematical value of an unverified transaction.
pub struct UtxView {
    pub unsigned: UnsignedView,
    pub signature: Option<SigView>,
    pub chain_id: Option<u64>,
    pub hash: Seq<u8>,
}

impl View for UnverifiedTransaction {
    type V = UtxView;

    open spec fn view(&self) -> UtxView {
        UtxView {
            unsigned: self.unsigned@,
            signature: opt_sig_view(self.signature),
            chain_id: self.chain_id,
            hash: self.hash@,
        }
    }
}

/// A verified transaction with its recovered sender.
pub struct SignedTransaction {
    pub transaction: UnverifiedTransaction,
    pub sender: H160,
    pub public: Option<Public>,
}

// ------------------------------------------------------------------
// The canonical encoding, as spec functions over the view types.
// ------------------------------------------------------------------

/// The recovery indicator of a legacy signature under replay protection.
pub open spec fn replay_v(standard_v: u8, chain_id: Option<u64>) -> int {
    standard_v + (match chain_id {
        Some(id) => 2 * (id as int) + 35,
        None => 27,
    })
}

pub open spec fn enc_action(a: Option<Seq<u8>>) -> Seq<u8> {
    match a {
        Some(to) => rlp_str(to),
        None => rlp_str(Seq::empty()),
    }
}

pub open spec fn enc_key_fn() -> spec_fn(Seq<u8>) -> Seq<u8> {
    |k: Seq<u8>| rlp_str(k)
}

pub open spec fn enc_access_item(it: ALItemView) -> Seq<u8> {
    rlp_list(rlp_str(it.address) + rlp_list(cat_map(it.storage_keys, enc_key_fn())))
}

pub open spec fn enc_access_item_fn() -> spec_fn(ALItemView) -> Seq<u8> {
    |it: ALItemView| enc_access_item(it)
}

pub open spec fn enc_access_list(al: Seq<ALItemView>) -> Seq<u8> {
    rlp_list(cat_map(al, enc_access_item_fn()))
}

/// Trailing fields of a legacy payload: v, r, s under a signature; the chain
/// id and two zero fields for an unsigned replay-protected preimage; nothing
/// for the reduced pre-replay-protection preimage.
pub open spec fn enc_legacy_tail(chain_id: Option<u64>, sig: Option<SigView>) -> Seq<u8> {
    match sig {
        Some(s) => rlp_uint(replay_v(s.standard_v, chain_id) as nat) + rlp_str(s.r) + rlp_str(s.s),
        None => match chain_id {
            Some(id) => rlp_uint(id as nat) + rlp_uint(0) + rlp_uint(0),
            None => Seq::empty(),
        },
    }
}

/// Trailing fields of a typed payload: the raw recovery indicator, r, s.
pub open spec fn enc_typed_tail(sig: Option<SigView>) -> Seq<u8> {
    match sig {
        Some(s) => rlp_uint(s.standard_v as nat) + rlp_str(s.r) + rlp_str(s.s),
        None => Seq::empty(),
    }
}

pub open spec fn enc_legacy_payload(
    t: LegacyView,
    chain_id: Option<u64>,
    sig: Option<SigView>,
) -> Seq<u8> {
    rlp_uint(t.nonce as nat) + rlp_uint(t.gas_price as nat) + rlp_uint(t.gas_limit as nat)
        + enc_action(t.action) + rlp_uint(t.value as nat) + rlp_str(t.data) + enc_legacy_tail(
        chain_id,
        sig,
    )
}

pub open spec fn enc_eip2930_payload(
    t: Eip2930View,
    chain_id: Option<u64>,
    sig: Option<SigView>,
) -> Seq<u8> {
    rlp_uint(chain_id.unwrap_or(0) as nat) + rlp_uint(t.nonce as nat) + rlp_uint(
        t.gas_price as nat,
    ) + rlp_uint(t.gas_limit as nat) + enc_action(t.action) + rlp_uint(t.value as nat) + rlp_str(
        t.data,
    ) + enc_access_list(t.access_list) + enc_typed_tail(sig)
}

pub open spec fn enc_eip1559_payload(
    t: Eip1559View,
    chain_id: Option<u64>,
    sig: Option<SigView>,
) -> Seq<u8> {
    rlp_uint(chain_id.unwrap_or(0) as nat) + rlp_uint(t.nonce as nat) + rlp_uint(
        t.max_priority_fee_per_gas as nat,
    ) + rlp_uint(t.gas_price as nat) + rlp_uint(t.gas_limit as nat) + enc_action(t.action)
        + rlp_uint(t.value as nat) + rlp_str(t.data) + enc_access_list(t.access_list)
        + enc_typed_tail(sig)
}

/// The wire format: a leading type byte for the typed versions (0x01, 0x02;
/// implicit for legacy), then the list of version-specific fields, then the
/// signature fields.
pub open spec fn spec_encode_tx(
    u: UnsignedView,
    chain_id: Option<u64>,
    sig: Option<SigView>,
) -> Seq<u8> {
    match u {
        UnsignedView::Legacy(t) => rlp_list(enc_legacy_payload(t, chain_id, sig)),
        UnsignedView::Eip2930(t) => seq![1u8] + rlp_list(enc_eip2930_payload(t, chain_id, sig)),
        UnsignedView::Eip1559(t) => seq![2u8] + rlp_list(enc_eip1559_payload(t, chain_id, sig)),
    }
}

// ------------------------------------------------------------------
// Exec encoders, proved against the spec encoding.
// ------------------------------------------------------------------

fn append_action(out: &mut Vec<u8>, a: &TransactionAction)
    ensures
        final(out)@ == old(out)@ + enc_action(a@),
{
    match a {
        TransactionAction::Call(to) => append_str(out, &to.v),
        TransactionAction::Create => {
            let empty: Vec<u8> = Vec::new();
            append_str(out, &empty);
        },
    }
}

fn append_access_list(out: &mut Vec<u8>, al: &AccessList)
    ensures
        final(out)@ == old(out)@ + enc_access_list(al@.map_values(al_item_view_fn())),
{
    let ghost alv = al@.map_values(al_item_view_fn());
    let mut payload: Vec<u8> = Vec::new();
    let n = al.len();
    let mut i: usize = 0;
    while i < n
        invariant
            n == al@.len(),
            alv == al@.map_values(al_item_view_fn()),
            alv.len() == n,
            i <= n,
            payload@ == cat_map(alv.take(i as int), enc_access_item_fn()),
        decreases n - i,
    {
        let item = &al[i];
        let mut keys_payload: Vec<u8> = Vec::new();
        let ghost kv = item@.storage_keys;
        let m = item.storage_keys.len();
        let mut j: usize = 0;
        while j < m
            invariant
                m == item.storage_keys@.len(),
                kv == item@.storage_keys,
                kv.len() == m,
                j <= m,
                keys_payload@ == cat_map(kv.take(j as int), enc_key_fn()),
            decreases m - j,
        {
            append_str(&mut keys_payload, &item.storage_keys[j].v);
            proof {
                lemma_cat_map_snoc(kv, enc_key_fn(), j as int);
                assert(kv[j as int] == item.storage_keys@[j as int]@);
            }
            j += 1;
        }
        assert(kv.take(m as int) =~= kv);
        let mut item_payload: Vec<u8> = Vec::new();
        append_str(&mut item_payload, &item.address.v);
        append_list(&mut item_payload, &keys_payload);
        append_list(&mut payload, &item_payload);
        proof {
            lemma_cat_map_snoc(alv, enc_access_item_fn(), i as int);
            assert(alv[i as int] == al@[i as int]@);
        }
        i += 1;
    }
    assert(alv.take(n as int) =~= alv);
    append_list(out, &payload);
}

impl SignatureComponents {
    pub const SECP256K1_SIGNATURE_LEN: usize = 65;

    /// The flat 65-byte (for standard signatures) form: r ++ s ++ v.
    pub open spec fn bytes_spec(s: SigView) -> Seq<u8> {
        s.r + s.s + seq![s.standard_v]
    }

    pub fn as_bytes(&self) -> (r: Vec<u8>)
        ensures
            r@ == Self::bytes_spec(self@),
    {
        let mut out = clone_bytes(&self.r);
        append_bytes(&mut out, &self.s);
        out.push(self.standard_v);
        assert(out@ =~= Self::bytes_spec(self@));
        out
    }

    pub open spec fn len_spec(&self) -> int {
        self.r@.len() + self.s@.len() + 1int
    }

    pub fn len(&self) -> (r: usize)
        requires
            self.len_spec() <= usize::MAX,
        ensures
            r == self.len_spec(),
    {
        self.r.len() + self.s.len() + 1
    }

    pub open spec fn is_eth_sig_spec(&self) -> bool {
        self.len_spec() == 65
    }

    pub fn is_eth_sig(&self) -> (r: bool)
        requires
            self.len_spec() <= usize::MAX,
        ensures
            r == self.is_eth_sig_spec(),
    {
        self.len() == Self::SECP256K1_SIGNATURE_LEN
    }

    pub fn add_chain_replay_protection(&self, chain_id: Option<u64>) -> (r: u64)
        requires
            replay_v(self.standard_v, chain_id) <= u64::MAX,
        ensures
            r == replay_v(self.standard_v, chain_id),
    {
        (self.standard_v as u64) + (match chain_id {
            Some(i) => i * 2 + 35,
            None => 27,
        })
    }

    /// The standard recovery indicator hidden in a replay-protected v value.
    pub fn extract_standard_v(v: u64) -> (r: Option<u8>)
        ensures
            v == 27 ==> r == Some(0u8),
            v == 28 ==> r == Some(1u8),
            v >= 35 ==> r == Some((((v - 1) as int % 2) as u8)),
            !(v == 27 || v == 28 || v >= 35) ==> r is None,
    {
        if v == 27 {
            Some(0)
        } else if v == 28 {
            Some(1)
        } else if v >= 35 {
            Some(((v - 1) % 2) as u8)
        } else {
            None
        }
    }

    /// The chain id hidden in a replay-protected v value.
    pub fn extract_chain_id(v: u64) -> (r: Option<u64>)
        ensures
            v >= 35 ==> r == Some((((v - 35) as int / 2) as u64)),
            v < 35 ==> r is None,
    {
        if v >= 35 {
            Some((v - 35) / 2u64)
        } else {
            None
        }
    }
}

impl UnsignedTransaction {
    pub open spec fn type_spec(&self) -> int {
        match self {
            UnsignedTransaction::Legacy(_) => 0,
            UnsignedTransaction::Eip2930(_) => 1,
            UnsignedTransaction::Eip1559(_) => 2,
        }
    }

    /// The version discriminant: 0 legacy, 1 EIP-2930, 2 EIP-1559.
    pub fn type_(&self) -> (r: u64)
        ensures
            r == self.type_spec(),
    {
        match self {
            UnsignedTransaction::Legacy(_) => 0x00,
            UnsignedTransaction::Eip2930(_) => 0x01,
            UnsignedTransaction::Eip1559(_) => 0x02,
        }
    }

    pub open spec fn is_legacy_spec(&self) -> bool {
        self is Legacy
    }

    pub fn is_legacy(&self) -> (r: bool)
        ensures
            r == self.is_legacy_spec(),
    {
        matches!(self, UnsignedTransaction::Legacy(_))
    }

    pub fn is_eip1559(&self) -> (r: bool)
        ensures
            r == (self is Eip1559),
    {
        matches!(self, UnsignedTransaction::Eip1559(_))
    }

    /// The raw type byte of a typed transaction; legacy has none.
    pub fn as_u8(&self) -> (r: u8)
        requires
            !self.is_legacy_spec(),
        ensures
            r == self.type_spec(),
    {
        match self {
            UnsignedTransaction::Legacy(_) => {
                proof {
                    assert(false);
                }
                0u8
            },
            UnsignedTransaction::Eip2930(_) => 1u8,
            UnsignedTransaction::Eip1559(_) => 2u8,
        }
    }

    /// The effective price per gas unit: EIP-1559 takes the larger of the
    /// base price and the priority fee.
    pub open spec fn gas_price_spec(&self) -> Amount {
        match self {
            UnsignedTransaction::Legacy(tx) => tx.gas_price,
            UnsignedTransaction::Eip2930(tx) => tx.gas_price,
            UnsignedTransaction::Eip1559(tx) => if tx.gas_price >= tx.max_priority_fee_per_gas {
                tx.gas_price
            } else {
                tx.max_priority_fee_per_gas
            },
        }
    }

    pub fn gas_price(&self) -> (r: Amount)
        ensures
            r == self.gas_price_spec(),
    {
        match self {
            UnsignedTransaction::Legacy(tx) => tx.gas_price,
            UnsignedTransaction::Eip2930(tx) => tx.gas_price,
            UnsignedTransaction::Eip1559(tx) => {
                if tx.gas_price >= tx.max_priority_fee_per_gas {
                    tx.gas_price
                } else {
                    tx.max_priority_fee_per_gas
                }
            },
        }
    }

    pub fn max_priority_fee_per_gas(&self) -> (r: Amount)
        ensures
            r == (match self {
                UnsignedTransaction::Legacy(tx) => tx.gas_price,
                UnsignedTransaction::Eip2930(tx) => tx.gas_price,
                UnsignedTransaction::Eip1559(tx) => tx.max_priority_fee_per_gas,
            }),
    {
        match self {
            UnsignedTransaction::Legacy(tx) => tx.gas_price,
            UnsignedTransaction::Eip2930(tx) => tx.gas_price,
            UnsignedTransaction::Eip1559(tx) => tx.max_priority_fee_per_gas,
        }
    }

    pub open spec fn gas_limit_spec(&self) -> u64 {
        match self {
            UnsignedTransaction::Legacy(tx) => tx.gas_limit,
            UnsignedTransaction::Eip2930(tx) => tx.gas_limit,
            UnsignedTransaction::Eip1559(tx) => tx.gas_limit,
        }
    }

    pub fn gas_limit(&self) -> (r: u64)
        ensures
            r == self.gas_limit_spec(),
    {
        match self {
            UnsignedTransaction::Legacy(tx) => tx.gas_limit,
            UnsignedTransaction::Eip2930(tx) => tx.gas_limit,
            UnsignedTransaction::Eip1559(tx) => tx.gas_limit,
        }
    }

    pub open spec fn value_spec(&self) -> Amount {
        match self {
            UnsignedTransaction::Legacy(tx) => tx.value,
            UnsignedTransaction::Eip2930(tx) => tx.value,
            UnsignedTransaction::Eip1559(tx) => tx.value,
        }
    }

    pub fn value(&self) -> (r: Amount)
        ensures
            r == self.value_spec(),
    {
        match self {
            UnsignedTransaction::Legacy(tx) => tx.value,
            UnsignedTransaction::Eip2930(tx) => tx.value,
            UnsignedTransaction::Eip1559(tx) => tx.value,
        }
    }

    pub open spec fn nonce_spec(&self) -> u64 {
        match self {
            UnsignedTransaction::Legacy(tx) => tx.nonce,
            UnsignedTransaction::Eip2930(tx) => tx.nonce,
            UnsignedTransaction::Eip1559(tx) => tx.nonce,
        }
    }

    pub fn nonce(&self) -> (r: u64)
        ensures
            r == self.nonce_spec(),
    {
        match self {
            UnsignedTransaction::Legacy(tx) => tx.nonce,
            UnsignedTransaction::Eip2930(tx) => tx.nonce,
            UnsignedTransaction::Eip1559(tx) => tx.nonce,
        }
    }

    pub open spec fn data_spec(&self) -> Seq<u8> {
        match self {
            UnsignedTransaction::Legacy(tx) => tx.data@,
            UnsignedTransaction::Eip2930(tx) => tx.data@,
            UnsignedTransaction::Eip1559(tx) => tx.data@,
        }
    }

    pub fn data(&self) -> (r: &Vec<u8>)
        ensures
            r@ == self.data_spec(),
    {
        match self {
            UnsignedTransaction::Legacy(tx) => &tx.data,
            UnsignedTransaction::Eip2930(tx) => &tx.data,
            UnsignedTransaction::Eip1559(tx) => &tx.data,
        }
    }

    pub open spec fn action_spec(&self) -> Option<Seq<u8>> {
        match self {
            UnsignedTransaction::Legacy(tx) => tx.action@,
            UnsignedTransaction::Eip2930(tx) => tx.action@,
            UnsignedTransaction::Eip1559(tx) => tx.action@,
        }
    }

    pub fn action(&self) -> (r: &TransactionAction)
        ensures
            r@ == self.action_spec(),
    {
        match self {
            UnsignedTransaction::Legacy(tx) => &tx.action,
            UnsignedTransaction::Eip2930(tx) => &tx.action,
            UnsignedTransaction::Eip1559(tx) => &tx.action,
        }
    }

    pub fn set_action(&mut self, action: TransactionAction)
        ensures
            final(self).action_spec() == action@,
            final(self).nonce_spec() == old(self).nonce_spec(),
            final(self).gas_price_spec() == old(self).gas_price_spec(),
            final(self).gas_limit_spec() == old(self).gas_limit_spec(),
            final(self).value_spec() == old(self).value_spec(),
            final(self).data_spec() == old(self).data_spec(),
            final(self).access_list_spec() == old(self).access_list_spec(),
            final(self).type_spec() == old(self).type_spec(),
    {
        match self {
            UnsignedTransaction::Legacy(tx) => tx.action = action,
            UnsignedTransaction::Eip2930(tx) => tx.action = action,
            UnsignedTransaction::Eip1559(tx) => tx.action = action,
        }
    }

    pub fn set_data(&mut self, data: Vec<u8>)
        ensures
            final(self).data_spec() == data@,
            final(self).action_spec() == old(self).action_spec(),
            final(self).nonce_spec() == old(self).nonce_spec(),
            final(self).gas_price_spec() == old(self).gas_price_spec(),
            final(self).gas_limit_spec() == old(self).gas_limit_spec(),
            final(self).value_spec() == old(self).value_spec(),
            final(self).access_list_spec() == old(self).access_list_spec(),
            final(self).type_spec() == old(self).type_spec(),
    {
        match self {
            UnsignedTransaction::Legacy(tx) => tx.data = data,
            UnsignedTransaction::Eip2930(tx) => tx.data = data,
            UnsignedTransaction::Eip1559(tx) => tx.data = data,
        }
    }

    pub fn get_legacy(&self) -> (r: Option<LegacyTransaction>)
        ensures
            self is Legacy ==> (r matches Some(tx) && UnsignedView::Legacy(tx@) == self@),
            !(self is Legacy) ==> r is None,
    {
        match self {
            UnsignedTransaction::Legacy(tx) => Some(tx.clone()),
            _ => None,
        }
    }

    pub open spec fn access_list_spec(&self) -> Seq<ALItemView> {
        match self {
            UnsignedTransaction::Legacy(_) => Seq::empty(),
            UnsignedTransaction::Eip2930(tx) => tx.access_list@.map_values(
                al_item_view_fn(),
            ),
            UnsignedTransaction::Eip1559(tx) => tx.access_list@.map_values(
                al_item_view_fn(),
            ),
        }
    }

    pub fn access_list(&self) -> (r: AccessList)
        ensures
            r@.map_values(al_item_view_fn()) == self.access_list_spec(),
    {
        match self {
            UnsignedTransaction::Legacy(_) => {
                let r: AccessList = Vec::new();
                assert(r@.map_values(al_item_view_fn()) =~= self.access_list_spec());
                r
            },
            UnsignedTransaction::Eip2930(tx) => clone_access_list(&tx.access_list),
            UnsignedTransaction::Eip1559(tx) => clone_access_list(&tx.access_list),
        }
    }

    pub fn to(&self) -> (r: Option<H160>)
        ensures
            r matches Some(to) ==> self.action_spec() is Some && to@ == self.action_spec().unwrap(),
            r is None <==> self.action_spec() is None,
    {
        match self {
            UnsignedTransaction::Legacy(tx) => tx.get_to(),
            UnsignedTransaction::Eip2930(tx) => tx.get_to(),
            UnsignedTransaction::Eip1559(tx) => tx.get_to(),
        }
    }

    /// The prepay obligation: gas_price * gas_limit, saturating-added to the
    /// transferred value; a distinct failure when the multiplication itself
    /// overflows the money type.
    pub fn may_cost(&self) -> (r: Result<Amount, TypesError>)
        ensures
            (match r {
                Ok(c) => self.gas_price_spec() * self.gas_limit_spec() <= Amount::MAX && c
                    == cap_u128(
                    self.gas_price_spec() * self.gas_limit_spec() + self.value_spec(),
                ),
                Err(e) => self.gas_price_spec() * self.gas_limit_spec() > Amount::MAX && (
                e matches TypesError::PrepayGasIsTooLarge),
            }),
    {
        if let Some(res) = self.gas_price().checked_mul(self.gas_limit() as u128) {
            return Ok(res.saturating_add(self.value()));
        }
        Err(TypesError::PrepayGasIsTooLarge)
    }

    /// True when a legacy signature's replay-protected v value fits the
    /// machine word; every realistic chain id does.
    pub open spec fn sig_fits(&self, chain_id: Option<u64>, sig: Option<SigView>) -> bool {
        (self is Legacy && sig is Some) ==> replay_v(sig.unwrap().standard_v, chain_id)
            <= u64::MAX
    }

    /// The deterministic byte encoding: both the signing preimage and the
    /// wire format, a function of the three arguments alone.
    #[verifier::rlimit(100)]
    pub fn encode(&self, chain_id: Option<u64>, signature: Option<SignatureComponents>) -> (out:
        Vec<u8>)
        requires
            self.sig_fits(chain_id, opt_sig_view(signature)),
        ensures
            out@ == spec_encode_tx(self@, chain_id, opt_sig_view(signature)),
    {
        let mut out: Vec<u8> = Vec::new();
        let mut payload: Vec<u8> = Vec::new();
        match self {
            UnsignedTransaction::Legacy(tx) => {
                append_uint(&mut payload, tx.nonce as u128);
                append_uint(&mut payload, tx.gas_price);
                append_uint(&mut payload, tx.gas_limit as u128);
                append_action(&mut payload, &tx.action);
                append_uint(&mut payload, tx.value);
                append_str(&mut payload, &tx.data);
                match &signature {
                    Some(s) => {
                        append_uint(&mut payload, s.add_chain_replay_protection(chain_id) as u128);
                        append_str(&mut payload, &s.r);
                        append_str(&mut payload, &s.s);
                    },
                    None => {
                        if let Some(id) = chain_id {
                            append_uint(&mut payload, id as u128);
                            append_uint(&mut payload, 0);
                            append_uint(&mut payload, 0);
                        }
                    },
                }
                assert(payload@ =~= enc_legacy_payload(tx@, chain_id, opt_sig_view(signature)));
                append_list(&mut out, &payload);
                assert(out@ =~= spec_encode_tx(self@, chain_id, opt_sig_view(signature)));
            },
            UnsignedTransaction::Eip2930(tx) => {
                append_uint(&mut payload, chain_id.unwrap_or(0) as u128);
                append_uint(&mut payload, tx.nonce as u128);
                append_uint(&mut payload, tx.gas_price);
                append_uint(&mut payload, tx.gas_limit as u128);
                append_action(&mut payload, &tx.action);
                append_uint(&mut payload, tx.value);
                append_str(&mut payload, &tx.data);
                append_access_list(&mut payload, &tx.access_list);
                match &signature {
                    Some(s) => {
                        append_uint(&mut payload, s.standard_v as u128);
                        append_str(&mut payload, &s.r);
                        append_str(&mut payload, &s.s);
                    },
                    None => {},
                }
                assert(payload@ =~= enc_eip2930_payload(tx@, chain_id, opt_sig_view(signature)));
                out.push(1u8);
                append_list(&mut out, &payload);
                assert(out@ =~= spec_encode_tx(self@, chain_id, opt_sig_view(signature)));
            },
            UnsignedTransaction::Eip1559(tx) => {
                append_uint(&mut payload, chain_id.unwrap_or(0) as u128);
                append_uint(&mut payload, tx.nonce as u128);
                append_uint(&mut payload, tx.max_priority_fee_per_gas);
                append_uint(&mut payload, tx.gas_price);
                append_uint(&mut payload, tx.gas_limit as u128);
                append_action(&mut payload, &tx.action);
                append_uint(&mut payload, tx.value);
                append_str(&mut payload, &tx.data);
                append_access_list(&mut payload, &tx.access_list);
                match &signature {
                    Some(s) => {
                        append_uint(&mut payload, s.standard_v as u128);
                        append_str(&mut payload, &s.r);
                        append_str(&mut payload, &s.s);
                    },
                    None => {},
                }
                assert(payload@ =~= enc_eip1559_payload(tx@, chain_id, opt_sig_view(signature)));
                out.push(2u8);
                append_list(&mut out, &payload);
                assert(out@ =~= spec_encode_tx(self@, chain_id, opt_sig_view(signature)));
            },
        }
        out
    }
}

/// Canonical side conditions under which a legacy encoding is unambiguous:
/// call targets are 20 bytes, lengths fit the machine word, a present
/// signature has a standard recovery indicator and is not the all-empty one.
pub open spec fn legacy_canonical(t: LegacyView, chain_id: Option<u64>, sig: Option<SigView>) -> bool {
    &&& (t.action matches Some(to) ==> to.len() == 20)
    &&& t.data.len() <= usize::MAX
    &&& (sig matches Some(sg) ==> sg.standard_v <= 1 && (sg.r.len() > 0 || sg.s.len() > 0)
        && sg.r.len() <= usize::MAX && sg.s.len() <= usize::MAX)
}

proof fn lemma_rlp_str_nonempty(p: Seq<u8>)
    ensures
        rlp_str(p).len() >= 1,
{
}

/// Peeling the head of a left-associated concatenation.
proof fn lemma_shift_head(a: Seq<u8>, x: Seq<u8>, y: Seq<u8>)
    ensures
        (a + x) + y == a + (x + y),
{
    vstd::seq_lib::lemma_concat_associative(a, x, y);
    assert((a + x) + y =~= a + (x + y));
}

/// Equal canonical encodings of legacy transactions carry equal fields.
/// With the decoder's contract — whatever it accepts re-encodes to the
/// input — this pins the decoding of a legacy transaction's encoding down
/// to the original fields.
#[verifier::rlimit(100)]
pub proof fn lemma_legacy_encoding_injective(
    t1: LegacyView,
    c1: Option<u64>,
    s1: Option<SigView>,
    t2: LegacyView,
    c2: Option<u64>,
    s2: Option<SigView>,
)
    requires
        legacy_canonical(t1, c1, s1),
        legacy_canonical(t2, c2, s2),
        enc_legacy_payload(t1, c1, s1).len() <= usize::MAX,
        enc_legacy_payload(t2, c2, s2).len() <= usize::MAX,
        spec_encode_tx(UnsignedView::Legacy(t1), c1, s1) == spec_encode_tx(
            UnsignedView::Legacy(t2),
            c2,
            s2,
        ),
    ensures
        t1 == t2,
        c1 == c2,
        s1 == s2,
{
    let pl1 = enc_legacy_payload(t1, c1, s1);
    let pl2 = enc_legacy_payload(t2, c2, s2);
    assert(rlp_list(pl1) + Seq::<u8>::empty() =~= rlp_list(pl1));
    assert(rlp_list(pl2) + Seq::<u8>::empty() =~= rlp_list(pl2));
    crate::rlp::lemma_rlp_list_prefix_free(pl1, Seq::empty(), pl2, Seq::empty());

    lemma_peel_payload(t1, c1, s1);
    lemma_peel_payload(t2, c2, s2);
    let a1 = rlp_uint(t1.nonce as nat);
    let a2 = rlp_uint(t2.nonce as nat);
    let b1 = rlp_uint(t1.gas_price as nat);
    let b2 = rlp_uint(t2.gas_price as nat);
    let g1 = rlp_uint(t1.gas_limit as nat);
    let g2 = rlp_uint(t2.gas_limit as nat);
    let e1 = rlp_uint(t1.value as nat);
    let e2 = rlp_uint(t2.value as nat);
    let d1 = rlp_str(t1.data);
    let d2 = rlp_str(t2.data);
    let tail1 = enc_legacy_tail(c1, s1);
    let tail2 = enc_legacy_tail(c2, s2);
    let ap1 = match t1.action {
        Some(to) => to,
        None => Seq::empty(),
    };
    let ap2 = match t2.action {
        Some(to) => to,
        None => Seq::empty(),
    };
    assert(enc_action(t1.action) == rlp_str(ap1));
    assert(enc_action(t2.action) == rlp_str(ap2));
    crate::rlp::lemma_rlp_uint_prefix_free(
        t1.nonce as nat,
        b1 + (g1 + (rlp_str(ap1) + (e1 + (d1 + tail1)))),
        t2.nonce as nat,
        b2 + (g2 + (rlp_str(ap2) + (e2 + (d2 + tail2)))),
    );
    crate::rlp::lemma_rlp_uint_prefix_free(
        t1.gas_price as nat,
        g1 + (rlp_str(ap1) + (e1 + (d1 + tail1))),
        t2.gas_price as nat,
        g2 + (rlp_str(ap2) + (e2 + (d2 + tail2))),
    );
    crate::rlp::lemma_rlp_uint_prefix_free(
        t1.gas_limit as nat,
        rlp_str(ap1) + (e1 + (d1 + tail1)),
        t2.gas_limit as nat,
        rlp_str(ap2) + (e2 + (d2 + tail2)),
    );
    crate::rlp::lemma_rlp_str_prefix_free(ap1, e1 + (d1 + tail1), ap2, e2 + (d2 + tail2));
    assert(t1.action == t2.action);
    crate::rlp::lemma_rlp_uint_prefix_free(t1.value as nat, d1 + tail1, t2.value as nat, d2 + tail2);
    crate::rlp::lemma_rlp_str_prefix_free(t1.data, tail1, t2.data, tail2);
    assert(t1 == t2);

    lemma_legacy_tail_injective(c1, s1, c2, s2);
}

/// A legacy payload re-associated so that each field heads the remainder.
pub proof fn lemma_peel_payload(t: LegacyView, chain_id: Option<u64>, sig: Option<SigView>)
    ensures
        ({
            let a = rlp_uint(t.nonce as nat);
            let b = rlp_uint(t.gas_price as nat);
            let g = rlp_uint(t.gas_limit as nat);
            let ac = enc_action(t.action);
            let e = rlp_uint(t.value as nat);
            let d = rlp_str(t.data);
            let tail = enc_legacy_tail(chain_id, sig);
            enc_legacy_payload(t, chain_id, sig) == a + (b + (g + (ac + (e + (d + tail)))))
        }),
{
    let a = rlp_uint(t.nonce as nat);
    let b = rlp_uint(t.gas_price as nat);
    let g = rlp_uint(t.gas_limit as nat);
    let ac = enc_action(t.action);
    let e = rlp_uint(t.value as nat);
    let d = rlp_str(t.data);
    let tail = enc_legacy_tail(chain_id, sig);
    lemma_shift_head(a, b, g);
    lemma_shift_head(a, b + g, ac);
    lemma_shift_head(a, (b + g) + ac, e);
    lemma_shift_head(a, ((b + g) + ac) + e, d);
    lemma_shift_head(a, (((b + g) + ac) + e) + d, tail);
    lemma_shift_head(b, g, ac);
    lemma_shift_head(b, g + ac, e);
    lemma_shift_head(b, (g + ac) + e, d);
    lemma_shift_head(b, ((g + ac) + e) + d, tail);
    lemma_shift_head(g, ac, e);
    lemma_shift_head(g, ac + e, d);
    lemma_shift_head(g, (ac + e) + d, tail);
    lemma_shift_head(ac, e, d);
    lemma_shift_head(ac, e + d, tail);
    lemma_shift_head(e, d, tail);
}

/// Equal legacy trailing fields carry the same chain id and signature, under
/// the canonical side conditions.
#[verifier::rlimit(100)]
#[verifier::spinoff_prover]
proof fn lemma_legacy_tail_injective(
    c1: Option<u64>,
    s1: Option<SigView>,
    c2: Option<u64>,
    s2: Option<SigView>,
)
    requires
        (s1 matches Some(sg) ==> sg.standard_v <= 1 && (sg.r.len() > 0 || sg.s.len() > 0)
            && sg.r.len() <= usize::MAX && sg.s.len() <= usize::MAX),
        (s2 matches Some(sg) ==> sg.standard_v <= 1 && (sg.r.len() > 0 || sg.s.len() > 0)
            && sg.r.len() <= usize::MAX && sg.s.len() <= usize::MAX),
        enc_legacy_tail(c1, s1) == enc_legacy_tail(c2, s2),
    ensures
        c1 == c2,
        s1 == s2,
{
    let tail1 = enc_legacy_tail(c1, s1);
    let tail2 = enc_legacy_tail(c2, s2);
    match (s1, s2) {
        (None, None) => {
            match (c1, c2) {
                (None, None) => {
                }
                (Some(id1), Some(id2)) => {
                    let x1 = rlp_uint(0) + rlp_uint(0);
                    assert(tail1 =~= rlp_uint(id1 as nat) + x1);
                    assert(tail2 =~= rlp_uint(id2 as nat) + x1);
                    crate::rlp::lemma_rlp_uint_prefix_free(id1 as nat, x1, id2 as nat, x1);
                }
                (Some(id1), None) => {
                    lemma_rlp_str_nonempty(be_bytes(id1 as nat));
                    assert(tail1.len() >= 1);
                    assert(tail2.len() == 0);
                }
                (None, Some(id2)) => {
                    lemma_rlp_str_nonempty(be_bytes(id2 as nat));
                    assert(tail2.len() >= 1);
                    assert(tail1.len() == 0);
                }
            }
        }
        (Some(sg1), Some(sg2)) => {
            let v1 = replay_v(sg1.standard_v, c1);
            let v2 = replay_v(sg2.standard_v, c2);
            let x1 = rlp_str(sg1.r) + rlp_str(sg1.s);
            let x2 = rlp_str(sg2.r) + rlp_str(sg2.s);
            assert(tail1 =~= rlp_uint(v1 as nat) + x1);
            assert(tail2 =~= rlp_uint(v2 as nat) + x2);
            crate::rlp::lemma_rlp_uint_prefix_free(v1 as nat, x1, v2 as nat, x2);
            assert(v1 == v2);
            assert(rlp_str(sg1.r) + rlp_str(sg1.s) == rlp_str(sg2.r) + rlp_str(sg2.s));
            crate::rlp::lemma_rlp_str_prefix_free(sg1.r, rlp_str(sg1.s), sg2.r, rlp_str(sg2.s));
            assert(rlp_str(sg1.s) + Seq::<u8>::empty() =~= rlp_str(sg1.s));
            assert(rlp_str(sg2.s) + Seq::<u8>::empty() =~= rlp_str(sg2.s));
            crate::rlp::lemma_rlp_str_prefix_free(sg1.s, Seq::empty(), sg2.s, Seq::empty());
            match (c1, c2) {
                (None, None) => {
                    assert(sg1.standard_v == sg2.standard_v);
                }
                (Some(id1), Some(id2)) => {
                    assert(v1 == sg1.standard_v + 2 * (id1 as int) + 35);
                    assert(v2 == sg2.standard_v + 2 * (id2 as int) + 35);
                    if sg1.standard_v != sg2.standard_v {
                        assert(sg1.standard_v + sg2.standard_v == 1);
                        assert(false) by {
                            assert(sg1.standard_v + 2 * (id1 as int) == sg2.standard_v + 2 * (
                            id2 as int));
                        }
                    }
                    assert(id1 == id2);
                }
                (Some(id1), None) => {
                    assert(v1 >= 35);
                    assert(v2 <= 28);
                }
                (None, Some(id2)) => {
                    assert(v2 >= 35);
                    assert(v1 <= 28);
                }
            }
        }
        (Some(sg1), None) => {
            match c2 {
                None => {
                    lemma_rlp_str_nonempty(be_bytes(replay_v(sg1.standard_v, c1) as nat));
                    assert(tail1.len() >= 1);
                    assert(tail2.len() == 0);
                }
                Some(id2) => {
                    let v1 = replay_v(sg1.standard_v, c1);
                    let x1 = rlp_str(sg1.r) + rlp_str(sg1.s);
                    let x2 = rlp_uint(0) + rlp_uint(0);
                    assert(tail1 =~= rlp_uint(v1 as nat) + x1);
                    assert(tail2 =~= rlp_uint(id2 as nat) + x2);
                    crate::rlp::lemma_rlp_uint_prefix_free(v1 as nat, x1, id2 as nat, x2);
                    assert(rlp_uint(0) == rlp_str(Seq::<u8>::empty()));
                    crate::rlp::lemma_rlp_str_prefix_free(sg1.r, rlp_str(sg1.s), Seq::empty(), rlp_uint(0));
                    assert(sg1.r.len() == 0);
                    assert(rlp_str(sg1.s) + Seq::<u8>::empty() =~= rlp_str(sg1.s));
                    assert(rlp_uint(0) + Seq::<u8>::empty() =~= rlp_uint(0));
                    crate::rlp::lemma_rlp_str_prefix_free(sg1.s, Seq::empty(), Seq::empty(), Seq::empty());
                    assert(sg1.s.len() == 0);
                }
            }
        }
        (None, Some(sg2)) => {
            match c1 {
                None => {
                    lemma_rlp_str_nonempty(be_bytes(replay_v(sg2.standard_v, c2) as nat));
                    assert(tail2.len() >= 1);
                    assert(tail1.len() == 0);
                }
                Some(id1) => {
                    let v2 = replay_v(sg2.standard_v, c2);
                    let x2 = rlp_str(sg2.r) + rlp_str(sg2.s);
                    let x1 = rlp_uint(0) + rlp_uint(0);
                    assert(tail2 =~= rlp_uint(v2 as nat) + x2);
                    assert(tail1 =~= rlp_uint(id1 as nat) + x1);
                    crate::rlp::lemma_rlp_uint_prefix_free(id1 as nat, x1, v2 as nat, x2);
                    assert(rlp_uint(0) == rlp_str(Seq::<u8>::empty()));
                    crate::rlp::lemma_rlp_str_prefix_free(Seq::empty(), rlp_uint(0), sg2.r, rlp_str(sg2.s));
                    assert(sg2.r.len() == 0);
                    assert(rlp_str(sg2.s) + Seq::<u8>::empty() =~= rlp_str(sg2.s));
                    assert(rlp_uint(0) + Seq::<u8>::empty() =~= rlp_uint(0));
                    crate::rlp::lemma_rlp_str_prefix_free(Seq::empty(), Seq::empty(), sg2.s, Seq::empty());
                    assert(sg2.s.len() == 0);
                }
            }
        }
    }
}

pub proof fn lemma_rlp_list_nonempty(p: Seq<u8>)
    ensures
        rlp_list(p).len() >= p.len() + 1,
{
}

proof fn lemma_rlp_str_len(p: Seq<u8>)
    ensures
        rlp_str(p).len() >= p.len(),
        rlp_str(p).len() >= 1,
{
}

/// Canonical side conditions for an access list: 20-byte addresses, 32-byte
/// storage keys, and encodings that fit the machine word.
pub open spec fn access_list_canonical(al: Seq<ALItemView>) -> bool {
    forall|i: int|
        0 <= i < al.len() ==> {
            &&& (#[trigger] al[i]).address.len() == 20
            &&& (forall|j: int|
                0 <= j < al[i].storage_keys.len() ==> (#[trigger] al[i].storage_keys[j]).len()
                    == 32)
            &&& cat_map(al[i].storage_keys, enc_key_fn()).len() <= usize::MAX
            &&& enc_access_item(al[i]).len() <= usize::MAX
        }
}

/// Equal concatenations of encoded storage keys carry equal keys.
proof fn lemma_keys_cat_injective(k1: Seq<Seq<u8>>, k2: Seq<Seq<u8>>)
    requires
        forall|j: int| 0 <= j < k1.len() ==> (#[trigger] k1[j]).len() == 32,
        forall|j: int| 0 <= j < k2.len() ==> (#[trigger] k2[j]).len() == 32,
        cat_map(k1, enc_key_fn()) == cat_map(k2, enc_key_fn()),
    ensures
        k1 == k2,
    decreases k1.len(),
{
    let f = enc_key_fn();
    if k1.len() == 0 && k2.len() == 0 {
        assert(k1 =~= k2);
    } else if k1.len() == 0 {
        assert(cat_map(k2, f) == f(k2[0]) + cat_map(k2.drop_first(), f));
        lemma_rlp_str_len(k2[0]);
        assert(cat_map(k2, f).len() >= 1);
    } else if k2.len() == 0 {
        assert(cat_map(k1, f) == f(k1[0]) + cat_map(k1.drop_first(), f));
        lemma_rlp_str_len(k1[0]);
        assert(cat_map(k1, f).len() >= 1);
    } else {
        assert(f(k1[0]) == rlp_str(k1[0]));
        assert(f(k2[0]) == rlp_str(k2[0]));
        crate::rlp::lemma_rlp_str_prefix_free(
            k1[0],
            cat_map(k1.drop_first(), f),
            k2[0],
            cat_map(k2.drop_first(), f),
        );
        assert(forall|j: int|
            0 <= j < k1.drop_first().len() ==> (#[trigger] k1.drop_first()[j]).len() == 32);
        assert(forall|j: int|
            0 <= j < k2.drop_first().len() ==> (#[trigger] k2.drop_first()[j]).len() == 32);
        lemma_keys_cat_injective(k1.drop_first(), k2.drop_first());
        assert(k1.len() == k2.len());
        assert forall|i: int| 0 <= i < k1.len() implies k1[i] == k2[i] by {
            if i > 0 {
                assert(k1.drop_first()[i - 1] == k1[i]);
                assert(k2.drop_first()[i - 1] == k2[i]);
            }
        }
        assert(k1 =~= k2);
    }
}

/// Equal concatenations of encoded access-list items carry equal items.
proof fn lemma_items_cat_injective(a1: Seq<ALItemView>, a2: Seq<ALItemView>)
    requires
        access_list_canonical(a1),
        access_list_canonical(a2),
        cat_map(a1, enc_access_item_fn()) == cat_map(a2, enc_access_item_fn()),
    ensures
        a1 == a2,
    decreases a1.len(),
{
    let f = enc_access_item_fn();
    if a1.len() == 0 && a2.len() == 0 {
        assert(a1 =~= a2);
    } else if a1.len() == 0 {
        assert(cat_map(a2, f) == f(a2[0]) + cat_map(a2.drop_first(), f));
        assert(f(a2[0]) == enc_access_item(a2[0]));
        lemma_rlp_list_nonempty(
            rlp_str(a2[0].address) + rlp_list(cat_map(a2[0].storage_keys, enc_key_fn())),
        );
        assert(cat_map(a2, f).len() >= 1);
    } else if a2.len() == 0 {
        assert(cat_map(a1, f) == f(a1[0]) + cat_map(a1.drop_first(), f));
        assert(f(a1[0]) == enc_access_item(a1[0]));
        lemma_rlp_list_nonempty(
            rlp_str(a1[0].address) + rlp_list(cat_map(a1[0].storage_keys, enc_key_fn())),
        );
        assert(cat_map(a1, f).len() >= 1);
    } else {
        let i1 = a1[0];
        let i2 = a2[0];
        let kc1 = cat_map(i1.storage_keys, enc_key_fn());
        let kc2 = cat_map(i2.storage_keys, enc_key_fn());
        let ip1 = rlp_str(i1.address) + rlp_list(kc1);
        let ip2 = rlp_str(i2.address) + rlp_list(kc2);
        assert(f(a1[0]) == enc_access_item(i1));
        assert(f(a2[0]) == enc_access_item(i2));
        assert(enc_access_item(i1) == rlp_list(ip1));
        assert(enc_access_item(i2) == rlp_list(ip2));
        lemma_rlp_list_nonempty(ip1);
        assert(ip1.len() <= usize::MAX);
        lemma_rlp_list_nonempty(ip2);
        assert(ip2.len() <= usize::MAX);
        crate::rlp::lemma_rlp_list_prefix_free(
            ip1,
            cat_map(a1.drop_first(), f),
            ip2,
            cat_map(a2.drop_first(), f),
        );
        crate::rlp::lemma_rlp_str_prefix_free(i1.address, rlp_list(kc1), i2.address, rlp_list(kc2));
        assert(rlp_list(kc1) + Seq::<u8>::empty() =~= rlp_list(kc1));
        assert(rlp_list(kc2) + Seq::<u8>::empty() =~= rlp_list(kc2));
        crate::rlp::lemma_rlp_list_prefix_free(kc1, Seq::empty(), kc2, Seq::empty());
        lemma_keys_cat_injective(i1.storage_keys, i2.storage_keys);
        assert(i1 == i2);
        assert(access_list_canonical(a1.drop_first()));
        assert(access_list_canonical(a2.drop_first()));
        lemma_items_cat_injective(a1.drop_first(), a2.drop_first());
        assert(a1.len() == a2.len());
        assert forall|i: int| 0 <= i < a1.len() implies a1[i] == a2[i] by {
            if i > 0 {
                assert(a1.drop_first()[i - 1] == a1[i]);
                assert(a2.drop_first()[i - 1] == a2[i]);
            }
        }
        assert(a1 =~= a2);
    }
}


/// Canonical side conditions for a typed transaction's encoding.
pub open spec fn typed_canonical(
    action: Option<Seq<u8>>,
    data: Seq<u8>,
    al: Seq<ALItemView>,
    sig: Option<SigView>,
) -> bool {
    &&& (action matches Some(to) ==> to.len() == 20)
    &&& data.len() <= usize::MAX
    &&& access_list_canonical(al)
    &&& cat_map(al, enc_access_item_fn()).len() <= usize::MAX
    &&& (sig matches Some(sg) ==> sg.r.len() <= usize::MAX && sg.s.len() <= usize::MAX)
}

/// Equal typed trailing fields carry the same signature.
#[verifier::rlimit(100)]
proof fn lemma_typed_tail_injective(s1: Option<SigView>, s2: Option<SigView>)
    requires
        (s1 matches Some(sg) ==> sg.r.len() <= usize::MAX && sg.s.len() <= usize::MAX),
        (s2 matches Some(sg) ==> sg.r.len() <= usize::MAX && sg.s.len() <= usize::MAX),
        enc_typed_tail(s1) == enc_typed_tail(s2),
    ensures
        s1 == s2,
{
    match (s1, s2) {
        (None, None) => {
        }
        (Some(a), Some(b)) => {
            let x1 = rlp_str(a.r) + rlp_str(a.s);
            let x2 = rlp_str(b.r) + rlp_str(b.s);
            assert(enc_typed_tail(s1) =~= rlp_uint(a.standard_v as nat) + x1);
            assert(enc_typed_tail(s2) =~= rlp_uint(b.standard_v as nat) + x2);
            crate::rlp::lemma_rlp_uint_prefix_free(a.standard_v as nat, x1, b.standard_v as nat, x2);
            crate::rlp::lemma_rlp_str_prefix_free(a.r, rlp_str(a.s), b.r, rlp_str(b.s));
            assert(rlp_str(a.s) + Seq::<u8>::empty() =~= rlp_str(a.s));
            assert(rlp_str(b.s) + Seq::<u8>::empty() =~= rlp_str(b.s));
            crate::rlp::lemma_rlp_str_prefix_free(a.s, Seq::empty(), b.s, Seq::empty());
        }
        (Some(a), None) => {
            lemma_rlp_str_nonempty(be_bytes(a.standard_v as nat));
            assert(enc_typed_tail(s1).len() >= 1);
            assert(enc_typed_tail(s2).len() == 0);
        }
        (None, Some(b)) => {
            lemma_rlp_str_nonempty(be_bytes(b.standard_v as nat));
            assert(enc_typed_tail(s2).len() >= 1);
            assert(enc_typed_tail(s1).len() == 0);
        }
    }
}

/// An EIP-1559 payload re-associated so that each field heads the remainder.
pub proof fn lemma_peel_1559(t: Eip1559View, chain_id: Option<u64>, sig: Option<SigView>)
    ensures
        ({
            let c = rlp_uint(chain_id.unwrap_or(0) as nat);
            let n = rlp_uint(t.nonce as nat);
            let pr = rlp_uint(t.max_priority_fee_per_gas as nat);
            let gp = rlp_uint(t.gas_price as nat);
            let gl = rlp_uint(t.gas_limit as nat);
            let ac = enc_action(t.action);
            let v = rlp_uint(t.value as nat);
            let d = rlp_str(t.data);
            let alx = enc_access_list(t.access_list);
            let tl = enc_typed_tail(sig);
            enc_eip1559_payload(t, chain_id, sig) == c + (n + (pr + (gp + (gl + (ac + (v + (d + (alx + (tl)))))))))
        }),
{
    let c = rlp_uint(chain_id.unwrap_or(0) as nat);
    let n = rlp_uint(t.nonce as nat);
    let pr = rlp_uint(t.max_priority_fee_per_gas as nat);
    let gp = rlp_uint(t.gas_price as nat);
    let gl = rlp_uint(t.gas_limit as nat);
    let ac = enc_action(t.action);
    let v = rlp_uint(t.value as nat);
    let d = rlp_str(t.data);
    let alx = enc_access_list(t.access_list);
    let tl = enc_typed_tail(sig);
    lemma_shift_head(c, n, pr);
    lemma_shift_head(c, n + pr, gp);
    lemma_shift_head(c, (n + pr) + gp, gl);
    lemma_shift_head(c, ((n + pr) + gp) + gl, ac);
    lemma_shift_head(c, (((n + pr) + gp) + gl) + ac, v);
    lemma_shift_head(c, ((((n + pr) + gp) + gl) + ac) + v, d);
    lemma_shift_head(c, (((((n + pr) + gp) + gl) + ac) + v) + d, alx);
    lemma_shift_head(c, ((((((n + pr) + gp) + gl) + ac) + v) + d) + alx, tl);
    lemma_shift_head(n, pr, gp);
    lemma_shift_head(n, pr + gp, gl);
    lemma_shift_head(n, (pr + gp) + gl, ac);
    lemma_shift_head(n, ((pr + gp) + gl) + ac, v);
    lemma_shift_head(n, (((pr + gp) + gl) + ac) + v, d);
    lemma_shift_head(n, ((((pr + gp) + gl) + ac) + v) + d, alx);
    lemma_shift_head(n, (((((pr + gp) + gl) + ac) + v) + d) + alx, tl);
    lemma_shift_head(pr, gp, gl);
    lemma_shift_head(pr, gp + gl, ac);
    lemma_shift_head(pr, (gp + gl) + ac, v);
    lemma_shift_head(pr, ((gp + gl) + ac) + v, d);
    lemma_shift_head(pr, (((gp + gl) + ac) + v) + d, alx);
    lemma_shift_head(pr, ((((gp + gl) + ac) + v) + d) + alx, tl);
    lemma_shift_head(gp, gl, ac);
    lemma_shift_head(gp, gl + ac, v);
    lemma_shift_head(gp, (gl + ac) + v, d);
    lemma_shift_head(gp, ((gl + ac) + v) + d, alx);
    lemma_shift_head(gp, (((gl + ac) + v) + d) + alx, tl);
    lemma_shift_head(gl, ac, v);
    lemma_shift_head(gl, ac + v, d);
    lemma_shift_head(gl, (ac + v) + d, alx);
    lemma_shift_head(gl, ((ac + v) + d) + alx, tl);
    lemma_shift_head(ac, v, d);
    lemma_shift_head(ac, v + d, alx);
    lemma_shift_head(ac, (v + d) + alx, tl);
    lemma_shift_head(v, d, alx);
    lemma_shift_head(v, d + alx, tl);
    lemma_shift_head(d, alx, tl);
}

/// An EIP-2930 payload re-associated so that each field heads the remainder.
pub proof fn lemma_peel_2930(t: Eip2930View, chain_id: Option<u64>, sig: Option<SigView>)
    ensures
        ({
            let c = rlp_uint(chain_id.unwrap_or(0) as nat);
            let n = rlp_uint(t.nonce as nat);
            let gp = rlp_uint(t.gas_price as nat);
            let gl = rlp_uint(t.gas_limit as nat);
            let ac = enc_action(t.action);
            let v = rlp_uint(t.value as nat);
            let d = rlp_str(t.data);
            let alx = enc_access_list(t.access_list);
            let tl = enc_typed_tail(sig);
            enc_eip2930_payload(t, chain_id, sig) == c + (n + (gp + (gl + (ac + (v + (d + (alx + (tl))))))))
        }),
{
    let c = rlp_uint(chain_id.unwrap_or(0) as nat);
    let n = rlp_uint(t.nonce as nat);
    let gp = rlp_uint(t.gas_price as nat);
    let gl = rlp_uint(t.gas_limit as nat);
    let ac = enc_action(t.action);
    let v = rlp_uint(t.value as nat);
    let d = rlp_str(t.data);
    let alx = enc_access_list(t.access_list);
    let tl = enc_typed_tail(sig);
    lemma_shift_head(c, n, gp);
    lemma_shift_head(c, n + gp, gl);
    lemma_shift_head(c, (n + gp) + gl, ac);
    lemma_shift_head(c, ((n + gp) + gl) + ac, v);
    lemma_shift_head(c, (((n + gp) + gl) + ac) + v, d);
    lemma_shift_head(c, ((((n + gp) + gl) + ac) + v) + d, alx);
    lemma_shift_head(c, (((((n + gp) + gl) + ac) + v) + d) + alx, tl);
    lemma_shift_head(n, gp, gl);
    lemma_shift_head(n, gp + gl, ac);
    lemma_shift_head(n, (gp + gl) + ac, v);
    lemma_shift_head(n, ((gp + gl) + ac) + v, d);
    lemma_shift_head(n, (((gp + gl) + ac) + v) + d, alx);
    lemma_shift_head(n, ((((gp + gl) + ac) + v) + d) + alx, tl);
    lemma_shift_head(gp, gl, ac);
    lemma_shift_head(gp, gl + ac, v);
    lemma_shift_head(gp, (gl + ac) + v, d);
    lemma_shift_head(gp, ((gl + ac) + v) + d, alx);
    lemma_shift_head(gp, (((gl + ac) + v) + d) + alx, tl);
    lemma_shift_head(gl, ac, v);
    lemma_shift_head(gl, ac + v, d);
    lemma_shift_head(gl, (ac + v) + d, alx);
    lemma_shift_head(gl, ((ac + v) + d) + alx, tl);
    lemma_shift_head(ac, v, d);
    lemma_shift_head(ac, v + d, alx);
    lemma_shift_head(ac, (v + d) + alx, tl);
    lemma_shift_head(v, d, alx);
    lemma_shift_head(v, d + alx, tl);
    lemma_shift_head(d, alx, tl);
}

/// Equal canonical encodings of EIP-1559 transactions carry equal fields.
#[verifier::rlimit(100)]
pub proof fn lemma_eip1559_encoding_injective(
    t1: Eip1559View,
    c1: Option<u64>,
    s1: Option<SigView>,
    t2: Eip1559View,
    c2: Option<u64>,
    s2: Option<SigView>,
)
    requires
        typed_canonical(t1.action, t1.data, t1.access_list, s1),
        typed_canonical(t2.action, t2.data, t2.access_list, s2),
        c1 is Some,
        c2 is Some,
        enc_eip1559_payload(t1, c1, s1).len() <= usize::MAX,
        enc_eip1559_payload(t2, c2, s2).len() <= usize::MAX,
        spec_encode_tx(UnsignedView::Eip1559(t1), c1, s1) == spec_encode_tx(
            UnsignedView::Eip1559(t2),
            c2,
            s2,
        ),
    ensures
        t1 == t2,
        c1 == c2,
        s1 == s2,
{
    let pl1 = enc_eip1559_payload(t1, c1, s1);
    let pl2 = enc_eip1559_payload(t2, c2, s2);
    crate::rlp::lemma_concat_cancel(seq![2u8], rlp_list(pl1), seq![2u8], rlp_list(pl2));
    assert(rlp_list(pl1) + Seq::<u8>::empty() =~= rlp_list(pl1));
    assert(rlp_list(pl2) + Seq::<u8>::empty() =~= rlp_list(pl2));
    crate::rlp::lemma_rlp_list_prefix_free(pl1, Seq::empty(), pl2, Seq::empty());
    lemma_peel_1559(t1, c1, s1);
    lemma_peel_1559(t2, c2, s2);
    let n1 = rlp_uint(t1.nonce as nat);
    let n2 = rlp_uint(t2.nonce as nat);
    let pr1 = rlp_uint(t1.max_priority_fee_per_gas as nat);
    let pr2 = rlp_uint(t2.max_priority_fee_per_gas as nat);
    let gp1 = rlp_uint(t1.gas_price as nat);
    let gp2 = rlp_uint(t2.gas_price as nat);
    let gl1 = rlp_uint(t1.gas_limit as nat);
    let gl2 = rlp_uint(t2.gas_limit as nat);
    let v1 = rlp_uint(t1.value as nat);
    let v2 = rlp_uint(t2.value as nat);
    let d1 = rlp_str(t1.data);
    let d2 = rlp_str(t2.data);
    let alx1 = enc_access_list(t1.access_list);
    let alx2 = enc_access_list(t2.access_list);
    let tl1 = enc_typed_tail(s1);
    let tl2 = enc_typed_tail(s2);
    let ap1 = match t1.action {
        Some(to) => to,
        None => Seq::empty(),
    };
    let ap2 = match t2.action {
        Some(to) => to,
        None => Seq::empty(),
    };
    assert(enc_action(t1.action) == rlp_str(ap1));
    assert(enc_action(t2.action) == rlp_str(ap2));
    crate::rlp::lemma_rlp_uint_prefix_free(
        c1.unwrap_or(0) as nat,
        n1 + (pr1 + (gp1 + (gl1 + (rlp_str(ap1) + (v1 + (d1 + (alx1 + tl1))))))),
        c2.unwrap_or(0) as nat,
        n2 + (pr2 + (gp2 + (gl2 + (rlp_str(ap2) + (v2 + (d2 + (alx2 + tl2))))))),
    );
    assert(c1 == c2);
    crate::rlp::lemma_rlp_uint_prefix_free(
        t1.nonce as nat,
        pr1 + (gp1 + (gl1 + (rlp_str(ap1) + (v1 + (d1 + (alx1 + tl1)))))),
        t2.nonce as nat,
        pr2 + (gp2 + (gl2 + (rlp_str(ap2) + (v2 + (d2 + (alx2 + tl2)))))),
    );
    crate::rlp::lemma_rlp_uint_prefix_free(
        t1.max_priority_fee_per_gas as nat,
        gp1 + (gl1 + (rlp_str(ap1) + (v1 + (d1 + (alx1 + tl1))))),
        t2.max_priority_fee_per_gas as nat,
        gp2 + (gl2 + (rlp_str(ap2) + (v2 + (d2 + (alx2 + tl2))))),
    );
    crate::rlp::lemma_rlp_uint_prefix_free(
        t1.gas_price as nat,
        gl1 + (rlp_str(ap1) + (v1 + (d1 + (alx1 + tl1)))),
        t2.gas_price as nat,
        gl2 + (rlp_str(ap2) + (v2 + (d2 + (alx2 + tl2)))),
    );
    crate::rlp::lemma_rlp_uint_prefix_free(
        t1.gas_limit as nat,
        rlp_str(ap1) + (v1 + (d1 + (alx1 + tl1))),
        t2.gas_limit as nat,
        rlp_str(ap2) + (v2 + (d2 + (alx2 + tl2))),
    );
    crate::rlp::lemma_rlp_str_prefix_free(
        ap1,
        v1 + (d1 + (alx1 + tl1)),
        ap2,
        v2 + (d2 + (alx2 + tl2)),
    );
    assert(t1.action == t2.action);
    crate::rlp::lemma_rlp_uint_prefix_free(
        t1.value as nat,
        d1 + (alx1 + tl1),
        t2.value as nat,
        d2 + (alx2 + tl2),
    );
    crate::rlp::lemma_rlp_str_prefix_free(t1.data, alx1 + tl1, t2.data, alx2 + tl2);
    crate::rlp::lemma_rlp_list_prefix_free(
        cat_map(t1.access_list, enc_access_item_fn()),
        tl1,
        cat_map(t2.access_list, enc_access_item_fn()),
        tl2,
    );
    lemma_items_cat_injective(t1.access_list, t2.access_list);
    assert(t1 == t2);
    lemma_typed_tail_injective(s1, s2);
}

/// Equal canonical encodings of EIP-2930 transactions carry equal fields.
#[verifier::rlimit(100)]
pub proof fn lemma_eip2930_encoding_injective(
    t1: Eip2930View,
    c1: Option<u64>,
    s1: Option<SigView>,
    t2: Eip2930View,
    c2: Option<u64>,
    s2: Option<SigView>,
)
    requires
        typed_canonical(t1.action, t1.data, t1.access_list, s1),
        typed_canonical(t2.action, t2.data, t2.access_list, s2),
        c1 is Some,
        c2 is Some,
        enc_eip2930_payload(t1, c1, s1).len() <= usize::MAX,
        enc_eip2930_payload(t2, c2, s2).len() <= usize::MAX,
        spec_encode_tx(UnsignedView::Eip2930(t1), c1, s1) == spec_encode_tx(
            UnsignedView::Eip2930(t2),
            c2,
            s2,
        ),
    ensures
        t1 == t2,
        c1 == c2,
        s1 == s2,
{
    let pl1 = enc_eip2930_payload(t1, c1, s1);
    let pl2 = enc_eip2930_payload(t2, c2, s2);
    crate::rlp::lemma_concat_cancel(seq![1u8], rlp_list(pl1), seq![1u8], rlp_list(pl2));
    assert(rlp_list(pl1) + Seq::<u8>::empty() =~= rlp_list(pl1));
    assert(rlp_list(pl2) + Seq::<u8>::empty() =~= rlp_list(pl2));
    crate::rlp::lemma_rlp_list_prefix_free(pl1, Seq::empty(), pl2, Seq::empty());
    lemma_peel_2930(t1, c1, s1);
    lemma_peel_2930(t2, c2, s2);
    let n1 = rlp_uint(t1.nonce as nat);
    let n2 = rlp_uint(t2.nonce as nat);
    let gp1 = rlp_uint(t1.gas_price as nat);
    let gp2 = rlp_uint(t2.gas_price as nat);
    let gl1 = rlp_uint(t1.gas_limit as nat);
    let gl2 = rlp_uint(t2.gas_limit as nat);
    let v1 = rlp_uint(t1.value as nat);
    let v2 = rlp_uint(t2.value as nat);
    let d1 = rlp_str(t1.data);
    let d2 = rlp_str(t2.data);
    let alx1 = enc_access_list(t1.access_list);
    let alx2 = enc_access_list(t2.access_list);
    let tl1 = enc_typed_tail(s1);
    let tl2 = enc_typed_tail(s2);
    let ap1 = match t1.action {
        Some(to) => to,
        None => Seq::empty(),
    };
    let ap2 = match t2.action {
        Some(to) => to,
        None => Seq::empty(),
    };
    assert(enc_action(t1.action) == rlp_str(ap1));
    assert(enc_action(t2.action) == rlp_str(ap2));
    crate::rlp::lemma_rlp_uint_prefix_free(
        c1.unwrap_or(0) as nat,
        n1 + (gp1 + (gl1 + (rlp_str(ap1) + (v1 + (d1 + (alx1 + tl1)))))),
        c2.unwrap_or(0) as nat,
        n2 + (gp2 + (gl2 + (rlp_str(ap2) + (v2 + (d2 + (alx2 + tl2)))))),
    );
    assert(c1 == c2);
    crate::rlp::lemma_rlp_uint_prefix_free(
        t1.nonce as nat,
        gp1 + (gl1 + (rlp_str(ap1) + (v1 + (d1 + (alx1 + tl1))))),
        t2.nonce as nat,
        gp2 + (gl2 + (rlp_str(ap2) + (v2 + (d2 + (alx2 + tl2))))),
    );
    crate::rlp::lemma_rlp_uint_prefix_free(
        t1.gas_price as nat,
        gl1 + (rlp_str(ap1) + (v1 + (d1 + (alx1 + tl1)))),
        t2.gas_price as nat,
        gl2 + (rlp_str(ap2) + (v2 + (d2 + (alx2 + tl2)))),
    );
    crate::rlp::lemma_rlp_uint_prefix_free(
        t1.gas_limit as nat,
        rlp_str(ap1) + (v1 + (d1 + (alx1 + tl1))),
        t2.gas_limit as nat,
        rlp_str(ap2) + (v2 + (d2 + (alx2 + tl2))),
    );
    crate::rlp::lemma_rlp_str_prefix_free(
        ap1,
        v1 + (d1 + (alx1 + tl1)),
        ap2,
        v2 + (d2 + (alx2 + tl2)),
    );
    assert(t1.action == t2.action);
    crate::rlp::lemma_rlp_uint_prefix_free(
        t1.value as nat,
        d1 + (alx1 + tl1),
        t2.value as nat,
        d2 + (alx2 + tl2),
    );
    crate::rlp::lemma_rlp_str_prefix_free(t1.data, alx1 + tl1, t2.data, alx2 + tl2);
    crate::rlp::lemma_rlp_list_prefix_free(
        cat_map(t1.access_list, enc_access_item_fn()),
        tl1,
        cat_map(t2.access_list, enc_access_item_fn()),
        tl2,
    );
    lemma_items_cat_injective(t1.access_list, t2.access_list);
    assert(t1 == t2);
    lemma_typed_tail_injective(s1, s2);
}

/// Canonical side conditions under which any transaction encoding is
/// unambiguous.
pub open spec fn tx_canonical(u: UnsignedView, chain_id: Option<u64>, sig: Option<SigView>) -> bool {
    match u {
        UnsignedView::Legacy(t) => legacy_canonical(t, chain_id, sig) && enc_legacy_payload(
            t,
            chain_id,
            sig,
        ).len() <= usize::MAX,
        UnsignedView::Eip2930(t) => typed_canonical(t.action, t.data, t.access_list, sig)
            && chain_id is Some && enc_eip2930_payload(t, chain_id, sig).len() <= usize::MAX,
        UnsignedView::Eip1559(t) => typed_canonical(t.action, t.data, t.access_list, sig)
            && chain_id is Some && enc_eip1559_payload(t, chain_id, sig).len() <= usize::MAX,
    }
}

/// The payload a call target encodes as.
pub open spec fn action_payload(a: Option<Seq<u8>>) -> Seq<u8> {
    match a {
        Some(to) => to,
        None => Seq::empty(),
    }
}

/// The wire shape of a transaction: canonical, with a replay indicator that
/// fits the machine word, and equal to the canonical encoding.
pub open spec fn tx_wire(b: Seq<u8>, u: UnsignedView, c: Option<u64>, s: Option<SigView>) -> bool {
    &&& tx_canonical(u, c, s)
    &&& ((u is Legacy && s is Some) ==> replay_v(s.unwrap().standard_v, c) <= u64::MAX)
    &&& b == spec_encode_tx(u, c, s)
}

/// Where each field of a canonically encoded legacy transaction sits.
#[verifier::rlimit(100)]
pub proof fn lemma_legacy_layout(b: Seq<u8>, t: LegacyView, c: Option<u64>, s: Option<SigView>)
    requires
        b.len() <= usize::MAX,
        tx_wire(b, UnsignedView::Legacy(t), c, s),
    ensures
        ({
            let pl = enc_legacy_payload(t, c, s);
            let p0 = b.len() - pl.len();
            let q1 = p0 + rlp_uint(t.nonce as nat).len();
            let q2 = q1 + rlp_uint(t.gas_price as nat).len();
            let q3 = q2 + rlp_uint(t.gas_limit as nat).len();
            let q4 = q3 + enc_action(t.action).len();
            let q5 = q4 + rlp_uint(t.value as nat).len();
            let q6 = q5 + rlp_str(t.data).len();
            &&& pl.len() <= usize::MAX
            &&& crate::rlp::list_at(b, 0, pl)
            &&& crate::rlp::uint_at(b, p0, t.nonce as nat)
            &&& crate::rlp::uint_at(b, q1, t.gas_price as nat)
            &&& crate::rlp::uint_at(b, q2, t.gas_limit as nat)
            &&& crate::rlp::str_at(b, q3, action_payload(t.action))
            &&& crate::rlp::uint_at(b, q4, t.value as nat)
            &&& crate::rlp::str_at(b, q5, t.data)
            &&& b.subrange(q6, b.len() as int) == enc_legacy_tail(c, s)
            &&& q6 + enc_legacy_tail(c, s).len() == b.len()
        }),
{
    let pl = enc_legacy_payload(t, c, s);
    let p0 = b.len() - pl.len();
    lemma_rlp_list_nonempty(pl);
    assert(b.subrange(0, b.len() as int) =~= b);
    assert(crate::rlp::list_at(b, 0, pl));
    if pl.len() <= 55 {
        assert(b == seq![(0xc0 + pl.len()) as u8] + pl);
        crate::rlp::lemma_subrange_split(b, 0, seq![(0xc0 + pl.len()) as u8], pl);
    } else {
        crate::rlp::lemma_usize_fits_len(pl.len());
        crate::rlp::lemma_be_bytes_nonzero(pl.len());
        let digits = be_bytes(pl.len());
        assert(b == (seq![(0xf7 + digits.len()) as u8] + digits) + pl);
        crate::rlp::lemma_subrange_split(b, 0, seq![(0xf7 + digits.len()) as u8] + digits, pl);
    }
    assert(b.subrange(p0 as int, (p0 + pl.len()) as int) == pl);
    lemma_peel_payload(t, c, s);
    let a = rlp_uint(t.nonce as nat);
    let g = rlp_uint(t.gas_price as nat);
    let gl = rlp_uint(t.gas_limit as nat);
    let ac = enc_action(t.action);
    let v = rlp_uint(t.value as nat);
    let d = rlp_str(t.data);
    let tail = enc_legacy_tail(c, s);
    crate::rlp::lemma_subrange_split(b, p0 as int, a, g + (gl + (ac + (v + (d + tail)))));
    crate::rlp::lemma_subrange_split(b, p0 + a.len(), g, gl + (ac + (v + (d + tail))));
    crate::rlp::lemma_subrange_split(b, p0 + a.len() + g.len(), gl, ac + (v + (d + tail)));
    crate::rlp::lemma_subrange_split(b, p0 + a.len() + g.len() + gl.len(), ac, v + (d + tail));
    crate::rlp::lemma_subrange_split(
        b,
        p0 + a.len() + g.len() + gl.len() + ac.len(),
        v,
        d + tail,
    );
    crate::rlp::lemma_subrange_split(
        b,
        p0 + a.len() + g.len() + gl.len() + ac.len() + v.len(),
        d,
        tail,
    );
    assert(ac == rlp_str(action_payload(t.action)));
}

/// The trailing fields of a signed legacy encoding, laid out at `pos`.
#[verifier::rlimit(100)]
pub proof fn lemma_legacy_tail_layout(b: Seq<u8>, pos: int, c: Option<u64>, sg: SigView)
    requires
        0 <= pos,
        pos + enc_legacy_tail(c, Some(sg)).len() <= b.len(),
        b.subrange(pos, pos + enc_legacy_tail(c, Some(sg)).len()) == enc_legacy_tail(c, Some(sg)),
    ensures
        ({
            let v = replay_v(sg.standard_v, c);
            let w1 = pos + rlp_uint(v as nat).len();
            let w2 = w1 + rlp_str(sg.r).len();
            &&& v >= 27
            &&& crate::rlp::uint_at(b, pos, v as nat)
            &&& crate::rlp::str_at(b, w1, sg.r)
            &&& crate::rlp::str_at(b, w2, sg.s)
            &&& w2 + rlp_str(sg.s).len() == pos + enc_legacy_tail(c, Some(sg)).len()
        }),
{
    let v = replay_v(sg.standard_v, c);
    let u = rlp_uint(v as nat);
    let rr = rlp_str(sg.r);
    let ss = rlp_str(sg.s);
    lemma_shift_head(u, rr, ss);
    assert(enc_legacy_tail(c, Some(sg)) == u + (rr + ss));
    crate::rlp::lemma_subrange_split(b, pos, u, rr + ss);
    crate::rlp::lemma_subrange_split(b, pos + u.len(), rr, ss);
}

/// The trailing fields of an unsigned replay-protected legacy encoding.
pub proof fn lemma_legacy_chain_tail_layout(b: Seq<u8>, pos: int, id: u64)
    requires
        0 <= pos,
        pos + enc_legacy_tail(Some(id), None).len() <= b.len(),
        b.subrange(pos, pos + enc_legacy_tail(Some(id), None).len()) == enc_legacy_tail(
            Some(id),
            None,
        ),
    ensures
        ({
            let w1 = pos + rlp_uint(id as nat).len();
            let w2 = w1 + rlp_uint(0).len();
            &&& crate::rlp::uint_at(b, pos, id as nat)
            &&& crate::rlp::str_at(b, w1, Seq::<u8>::empty())
            &&& crate::rlp::str_at(b, w2, Seq::<u8>::empty())
            &&& w2 + rlp_uint(0).len() == pos + enc_legacy_tail(Some(id), None).len()
        }),
{
    let u = rlp_uint(id as nat);
    let z = rlp_uint(0);
    lemma_shift_head(u, z, z);
    assert(enc_legacy_tail(Some(id), None) == u + (z + z));
    crate::rlp::lemma_subrange_split(b, pos, u, z + z);
    crate::rlp::lemma_subrange_split(b, pos + u.len(), z, z);
    assert(z == rlp_str(be_bytes(0)));
    assert(be_bytes(0) =~= Seq::<u8>::empty());
}



/// The trailing fields of a signed typed encoding, laid out at `pos`.
#[verifier::rlimit(100)]
pub proof fn lemma_typed_tail_layout(b: Seq<u8>, pos: int, sg: SigView)
    requires
        0 <= pos,
        pos + enc_typed_tail(Some(sg)).len() <= b.len(),
        b.subrange(pos, pos + enc_typed_tail(Some(sg)).len()) == enc_typed_tail(Some(sg)),
    ensures
        ({
            let w1 = pos + rlp_uint(sg.standard_v as nat).len();
            let w2 = w1 + rlp_str(sg.r).len();
            &&& crate::rlp::uint_at(b, pos, sg.standard_v as nat)
            &&& crate::rlp::str_at(b, w1, sg.r)
            &&& crate::rlp::str_at(b, w2, sg.s)
            &&& w2 + rlp_str(sg.s).len() == pos + enc_typed_tail(Some(sg)).len()
        }),
{
    let u = rlp_uint(sg.standard_v as nat);
    let rr = rlp_str(sg.r);
    let ss = rlp_str(sg.s);
    lemma_shift_head(u, rr, ss);
    assert(enc_typed_tail(Some(sg)) == u + (rr + ss));
    crate::rlp::lemma_subrange_split(b, pos, u, rr + ss);
    crate::rlp::lemma_subrange_split(b, pos + u.len(), rr, ss);
}

/// Where each field of a canonically encoded Eip1559 transaction sits.
#[verifier::rlimit(100)]
#[verifier::spinoff_prover]
pub proof fn lemma_eip1559_layout(b: Seq<u8>, t: Eip1559View, chain_id: Option<u64>, sig: Option<SigView>)
    requires
        b.len() <= usize::MAX,
        tx_wire(b, UnsignedView::Eip1559(t), chain_id, sig),
    ensures
        ({
            let pl = enc_eip1559_payload(t, chain_id, sig);
            let p0 = b.len() - pl.len();
            let z0 = p0;
            let z1 = z0 + rlp_uint(chain_id.unwrap_or(0) as nat).len();
            let z2 = z1 + rlp_uint(t.nonce as nat).len();
            let z3 = z2 + rlp_uint(t.max_priority_fee_per_gas as nat).len();
            let z4 = z3 + rlp_uint(t.gas_price as nat).len();
            let z5 = z4 + rlp_uint(t.gas_limit as nat).len();
            let z6 = z5 + enc_action(t.action).len();
            let z7 = z6 + rlp_uint(t.value as nat).len();
            let z8 = z7 + rlp_str(t.data).len();
            let z9 = z8 + enc_access_list(t.access_list).len();
            &&& pl.len() <= usize::MAX
            &&& b.len() > 0
            &&& b[0] == 2
            &&& crate::rlp::list_at(b, 1, pl)
            &&& 1 + rlp_list(pl).len() == b.len()
            &&& crate::rlp::uint_at(b, z0, chain_id.unwrap_or(0) as nat)
            &&& crate::rlp::uint_at(b, z1, t.nonce as nat)
            &&& crate::rlp::uint_at(b, z2, t.max_priority_fee_per_gas as nat)
            &&& crate::rlp::uint_at(b, z3, t.gas_price as nat)
            &&& crate::rlp::uint_at(b, z4, t.gas_limit as nat)
            &&& crate::rlp::str_at(b, z5, action_payload(t.action))
            &&& crate::rlp::uint_at(b, z6, t.value as nat)
            &&& crate::rlp::str_at(b, z7, t.data)
            &&& crate::rlp::list_at(b, z8, cat_map(t.access_list, enc_access_item_fn()))
            &&& b.subrange(z8 + enc_access_list(t.access_list).len() - cat_map(t.access_list, enc_access_item_fn()).len(), z8 + enc_access_list(t.access_list).len()) == cat_map(t.access_list, enc_access_item_fn())
            &&& b.subrange(z9, b.len() as int) == enc_typed_tail(sig)
            &&& z9 + enc_typed_tail(sig).len() == b.len()
        }),
{
    let pl = enc_eip1559_payload(t, chain_id, sig);
    lemma_rlp_list_nonempty(pl);
    assert(b == seq![2u8] + rlp_list(pl));
    assert(b[0] == 2);
    assert(b.subrange(0, b.len() as int) =~= b);
    crate::rlp::lemma_subrange_split(b, 0, seq![2u8], rlp_list(pl));
    assert(crate::rlp::list_at(b, 1, pl));
    crate::rlp::lemma_list_payload_at(b, 1, pl);
    let p0 = b.len() - pl.len();
    assert(b.subrange(p0 as int, (p0 + pl.len()) as int) == pl);
    lemma_peel_1559(t, chain_id, sig);
    let c = rlp_uint(chain_id.unwrap_or(0) as nat);
    let n = rlp_uint(t.nonce as nat);
    let pr = rlp_uint(t.max_priority_fee_per_gas as nat);
    let gp = rlp_uint(t.gas_price as nat);
    let gl = rlp_uint(t.gas_limit as nat);
    let ac = enc_action(t.action);
    let v = rlp_uint(t.value as nat);
    let d = rlp_str(t.data);
    let alx = enc_access_list(t.access_list);
    let tl = enc_typed_tail(sig);
    crate::rlp::lemma_subrange_split(b, p0, c, n + (pr + (gp + (gl + (ac + (v + (d + (alx + (tl)))))))));
    crate::rlp::lemma_subrange_split(b, p0 + c.len(), n, pr + (gp + (gl + (ac + (v + (d + (alx + (tl))))))));
    crate::rlp::lemma_subrange_split(b, p0 + c.len() + n.len(), pr, gp + (gl + (ac + (v + (d + (alx + (tl)))))));
    crate::rlp::lemma_subrange_split(b, p0 + c.len() + n.len() + pr.len(), gp, gl + (ac + (v + (d + (alx + (tl))))));
    crate::rlp::lemma_subrange_split(b, p0 + c.len() + n.len() + pr.len() + gp.len(), gl, ac + (v + (d + (alx + (tl)))));
    crate::rlp::lemma_subrange_split(b, p0 + c.len() + n.len() + pr.len() + gp.len() + gl.len(), ac, v + (d + (alx + (tl))));
    crate::rlp::lemma_subrange_split(b, p0 + c.len() + n.len() + pr.len() + gp.len() + gl.len() + ac.len(), v, d + (alx + (tl)));
    crate::rlp::lemma_subrange_split(b, p0 + c.len() + n.len() + pr.len() + gp.len() + gl.len() + ac.len() + v.len(), d, alx + (tl));
    crate::rlp::lemma_subrange_split(b, p0 + c.len() + n.len() + pr.len() + gp.len() + gl.len() + ac.len() + v.len() + d.len(), alx, tl);
    assert(ac == rlp_str(action_payload(t.action)));
    crate::rlp::lemma_list_payload_at(b, p0 + c.len() + n.len() + pr.len() + gp.len() + gl.len() + ac.len() + v.len() + d.len(), cat_map(t.access_list, enc_access_item_fn()));
}

/// Where each field of a canonically encoded Eip2930 transaction sits.
#[verifier::rlimit(100)]
#[verifier::spinoff_prover]
pub proof fn lemma_eip2930_layout(b: Seq<u8>, t: Eip2930View, chain_id: Option<u64>, sig: Option<SigView>)
    requires
        b.len() <= usize::MAX,
        tx_wire(b, UnsignedView::Eip2930(t), chain_id, sig),
    ensures
        ({
            let pl = enc_eip2930_payload(t, chain_id, sig);
            let p0 = b.len() - pl.len();
            let z0 = p0;
            let z1 = z0 + rlp_uint(chain_id.unwrap_or(0) as nat).len();
            let z2 = z1 + rlp_uint(t.nonce as nat).len();
            let z3 = z2 + rlp_uint(t.gas_price as nat).len();
            let z4 = z3 + rlp_uint(t.gas_limit as nat).len();
            let z5 = z4 + enc_action(t.action).len();
            let z6 = z5 + rlp_uint(t.value as nat).len();
            let z7 = z6 + rlp_str(t.data).len();
            let z8 = z7 + enc_access_list(t.access_list).len();
            &&& pl.len() <= usize::MAX
            &&& b.len() > 0
            &&& b[0] == 1
            &&& crate::rlp::list_at(b, 1, pl)
            &&& 1 + rlp_list(pl).len() == b.len()
            &&& crate::rlp::uint_at(b, z0, chain_id.unwrap_or(0) as nat)
            &&& crate::rlp::uint_at(b, z1, t.nonce as nat)
            &&& crate::rlp::uint_at(b, z2, t.gas_price as nat)
            &&& crate::rlp::uint_at(b, z3, t.gas_limit as nat)
            &&& crate::rlp::str_at(b, z4, action_payload(t.action))
            &&& crate::rlp::uint_at(b, z5, t.value as nat)
            &&& crate::rlp::str_at(b, z6, t.data)
            &&& crate::rlp::list_at(b, z7, cat_map(t.access_list, enc_access_item_fn()))
            &&& b.subrange(z7 + enc_access_list(t.access_list).len() - cat_map(t.access_list, enc_access_item_fn()).len(), z7 + enc_access_list(t.access_list).len()) == cat_map(t.access_list, enc_access_item_fn())
            &&& b.subrange(z8, b.len() as int) == enc_typed_tail(sig)
            &&& z8 + enc_typed_tail(sig).len() == b.len()
        }),
{
    let pl = enc_eip2930_payload(t, chain_id, sig);
    lemma_rlp_list_nonempty(pl);
    assert(b == seq![1u8] + rlp_list(pl));
    assert(b[0] == 1);
    assert(b.subrange(0, b.len() as int) =~= b);
    crate::rlp::lemma_subrange_split(b, 0, seq![1u8], rlp_list(pl));
    assert(crate::rlp::list_at(b, 1, pl));
    crate::rlp::lemma_list_payload_at(b, 1, pl);
    let p0 = b.len() - pl.len();
    assert(b.subrange(p0 as int, (p0 + pl.len()) as int) == pl);
    lemma_peel_2930(t, chain_id, sig);
    let c = rlp_uint(chain_id.unwrap_or(0) as nat);
    let n = rlp_uint(t.nonce as nat);
    let gp = rlp_uint(t.gas_price as nat);
    let gl = rlp_uint(t.gas_limit as nat);
    let ac = enc_action(t.action);
    let v = rlp_uint(t.value as nat);
    let d = rlp_str(t.data);
    let alx = enc_access_list(t.access_list);
    let tl = enc_typed_tail(sig);
    crate::rlp::lemma_subrange_split(b, p0, c, n + (gp + (gl + (ac + (v + (d + (alx + (tl))))))));
    crate::rlp::lemma_subrange_split(b, p0 + c.len(), n, gp + (gl + (ac + (v + (d + (alx + (tl)))))));
    crate::rlp::lemma_subrange_split(b, p0 + c.len() + n.len(), gp, gl + (ac + (v + (d + (alx + (tl))))));
    crate::rlp::lemma_subrange_split(b, p0 + c.len() + n.len() + gp.len(), gl, ac + (v + (d + (alx + (tl)))));
    crate::rlp::lemma_subrange_split(b, p0 + c.len() + n.len() + gp.len() + gl.len(), ac, v + (d + (alx + (tl))));
    crate::rlp::lemma_subrange_split(b, p0 + c.len() + n.len() + gp.len() + gl.len() + ac.len(), v, d + (alx + (tl)));
    crate::rlp::lemma_subrange_split(b, p0 + c.len() + n.len() + gp.len() + gl.len() + ac.len() + v.len(), d, alx + (tl));
    crate::rlp::lemma_subrange_split(b, p0 + c.len() + n.len() + gp.len() + gl.len() + ac.len() + v.len() + d.len(), alx, tl);
    assert(ac == rlp_str(action_payload(t.action)));
    crate::rlp::lemma_list_payload_at(b, p0 + c.len() + n.len() + gp.len() + gl.len() + ac.len() + v.len() + d.len(), cat_map(t.access_list, enc_access_item_fn()));
}

/// The wire encoding is injective over canonical transactions: equal
/// encodings carry the same version, fields, chain id and signature. With
/// the decoder's contract, decoding an encoding reproduces the original.
pub proof fn lemma_tx_encoding_injective(
    u1: UnsignedView,
    c1: Option<u64>,
    s1: Option<SigView>,
    u2: UnsignedView,
    c2: Option<u64>,
    s2: Option<SigView>,
)
    requires
        tx_canonical(u1, c1, s1),
        tx_canonical(u2, c2, s2),
        spec_encode_tx(u1, c1, s1) == spec_encode_tx(u2, c2, s2),
    ensures
        u1 == u2,
        c1 == c2,
        s1 == s2,
{
    let e = spec_encode_tx(u1, c1, s1);
    match u1 {
        UnsignedView::Legacy(t1) => {
            lemma_usize_fits_payload(enc_legacy_payload(t1, c1, s1).len());
            assert(e[0] >= 0xc0);
        }
        UnsignedView::Eip2930(_) => {
            assert(e[0] == 1);
        }
        UnsignedView::Eip1559(_) => {
            assert(e[0] == 2);
        }
    }
    match u2 {
        UnsignedView::Legacy(t2) => {
            lemma_usize_fits_payload(enc_legacy_payload(t2, c2, s2).len());
            assert(e[0] >= 0xc0);
        }
        UnsignedView::Eip2930(_) => {
            assert(e[0] == 1);
        }
        UnsignedView::Eip1559(_) => {
            assert(e[0] == 2);
        }
    }
    match (u1, u2) {
        (UnsignedView::Legacy(t1), UnsignedView::Legacy(t2)) => {
            lemma_legacy_encoding_injective(t1, c1, s1, t2, c2, s2);
        }
        (UnsignedView::Eip2930(t1), UnsignedView::Eip2930(t2)) => {
            lemma_eip2930_encoding_injective(t1, c1, s1, t2, c2, s2);
        }
        (UnsignedView::Eip1559(t1), UnsignedView::Eip1559(t2)) => {
            lemma_eip1559_encoding_injective(t1, c1, s1, t2, c2, s2);
        }
        _ => {
        }
    }
}

/// A machine-word length needs at most eight big-endian digits.
proof fn lemma_usize_fits_payload(n: nat)
    requires
        n <= usize::MAX,
    ensures
        be_bytes(n).len() <= 8,
{
    reveal_with_fuel(crate::rlp::pow256, 9);
    assert(crate::rlp::pow256(8) == 0x1_0000_0000_0000_0000);
    crate::rlp::lemma_be_bytes_len(n, 8);
}

// ------------------------------------------------------------------
// Hashing, verification, recovery.
// ------------------------------------------------------------------

/// The deterministic hash of a transaction: the digest of its full encoding.
pub open spec fn tx_hash_spec(u: UtxView) -> Seq<u8> {
    keccak_of(spec_encode_tx(u.unsigned, u.chain_id, u.signature))
}

/// The signing preimage digest; legacy transactions without replay
/// protection hash a reduced encoding with no signature and chain-id fields.
pub open spec fn sig_hash_spec(u: UtxView, with_chain_id: bool) -> Seq<u8> {
    if !with_chain_id && u.unsigned is Legacy {
        keccak_of(spec_encode_tx(u.unsigned, None, None))
    } else {
        keccak_of(spec_encode_tx(u.unsigned, u.chain_id, None))
    }
}

/// The 64 zero bytes standing for an absent recovered key.
pub open spec fn zero_public() -> Seq<u8> {
    Seq::new(64, |i: int| 0u8)
}

/// A signature that selects the interoperation recovery scheme: not the
/// standard 65-byte shape, and its r field opens with the zero marker.
pub open spec fn interop_selected(sv: SigView) -> bool {
    &&& sv.r.len() + sv.s.len() + 1 != 65
    &&& sv.r.len() > 0
    &&& sv.r[0] == 0
}

impl UnverifiedTransaction {
    /// True when the cached legacy replay indicator fits the machine word.
    pub open spec fn sig_fits_all(&self) -> bool {
        self.unsigned.sig_fits(self.chain_id, opt_sig_view(self.signature))
    }

    /// Recompute the deterministic hash of (unsigned, chain id, signature).
    pub fn get_hash(&self) -> (r: H256)
        requires
            self.sig_fits_all(),
        ensures
            r@ == tx_hash_spec(self@),
            r.wf(),
    {
        let sig = match &self.signature {
            Some(s) => Some(s.clone()),
            None => None,
        };
        assert(opt_sig_view(sig) == self@.signature);
        let enc = self.unsigned.encode(self.chain_id, sig);
        H256 { v: keccak256(&enc) }
    }

    /// Cache the recomputed hash.
    pub fn calc_hash(self) -> (r: Self)
        requires
            self.sig_fits_all(),
        ensures
            r@ == (UtxView { hash: tx_hash_spec(self@), ..self@ }),
    {
        let hash = self.get_hash();
        let r = UnverifiedTransaction { hash, ..self };
        r
    }

    /// Accept the cached hash only when it equals the recomputed one; the
    /// mismatch error carries both.
    pub fn check_hash(&self) -> (r: Result<(), TypesError>)
        requires
            self.sig_fits_all(),
        ensures
            (match r {
                Ok(_) => self.hash@ == tx_hash_spec(self@),
                Err(e) => self.hash@ != tx_hash_spec(self@) && (
                e matches TypesError::TxHashMismatch { origin, calc } && origin@ == self.hash@
                    && calc@ == tx_hash_spec(self@)),
            }),
    {
        let calc = self.get_hash();
        if self.hash.eq(&calc) {
            Ok(())
        } else {
            Err(TypesError::TxHashMismatch { origin: self.hash.clone(), calc })
        }
    }

    /// The digest the signature was made over.
    pub fn signature_hash(&self, with_chain_id: bool) -> (r: H256)
        ensures
            r@ == sig_hash_spec(self@, with_chain_id),
            r.wf(),
    {
        if !with_chain_id {
            if let Some(legacy_tx) = self.unsigned.get_legacy() {
                let reduced = UnsignedTransaction::Legacy(legacy_tx);
                assert(reduced@ == self@.unsigned);
                let enc = reduced.encode(None, None);
                return H256 { v: keccak256(&enc) };
            }
        }
        let enc = self.unsigned.encode(self.chain_id, None);
        H256 { v: keccak256(&enc) }
    }

    /// Recover the signer's public key from the standard 65-byte signature.
    pub fn recover_public(&self, with_chain_id: bool) -> (r: Result<Public, TypesError>)
        ensures
            (match r {
                Ok(p) => self.signature is Some && (recovered_key_of(
                    sig_hash_spec(self@, with_chain_id),
                    SignatureComponents::bytes_spec(self@.signature.unwrap()),
                ) matches Some(k) && p@ == k && p.wf()),
                Err(e) => (self.signature is None && e is MissingSignature) || (
                self.signature is Some && recovered_key_of(
                    sig_hash_spec(self@, with_chain_id),
                    SignatureComponents::bytes_spec(self@.signature.unwrap()),
                ) is None && e is Crypto),
            }),
    {
        match &self.signature {
            None => Err(TypesError::MissingSignature),
            Some(sig) => {
                let hash = self.signature_hash(with_chain_id);
                let sb = sig.as_bytes();
                match secp256k1_recover(&hash.v, &sb) {
                    Some(p) => Ok(p),
                    None => Err(TypesError::Crypto),
                }
            },
        }
    }
}

/// A transaction whose cached hash was recomputed from its own (unsigned,
/// signature, chain id) encoding passes the hash check: caching and checking
/// read the same deterministic hash.
pub proof fn lemma_calc_hash_then_check(u: UtxView)
    ensures
        ({
            let t = UtxView { hash: tx_hash_spec(u), ..u };
            t.hash == tx_hash_spec(t)
        }),
{
}

/// The 20-byte address of a public key: the tail of its digest.
pub fn public_to_address(public: &Public) -> (r: H160)
    ensures
        r@ == keccak_of(public@).subrange(12, 32),
        r.wf(),
{
    let hash = keccak256(&public.v);
    H160 { v: copy_range(&hash, 12, 32) }
}

/// The tagged 65-byte form of an uncompressed public key.
pub fn recover_intact_pub_key(public: &Public) -> (r: crate::types::H520)
    requires
        public.wf(),
    ensures
        r@ == seq![4u8] + public@,
        r.wf(),
{
    let mut v: Vec<u8> = Vec::new();
    v.push(4u8);
    append_bytes(&mut v, &public.v);
    assert(v@ =~= seq![4u8] + public@);
    crate::types::H520 { v }
}

// ------------------------------------------------------------------
// The interoperation recovery scheme: an embedded public key.
// ------------------------------------------------------------------

/// A cell dependency reference carried beside an embedded public key.
pub struct CellDep {
    pub tx_hash: H256,
    pub index: u32,
    pub dep_type: u8,
}

/// The payload embedded in an interoperation signature's r field.
pub struct CellDepWithPubKey {
    pub cell_dep: CellDep,
    pub pub_key: Vec<u8>,
}

/// The mathematical value of an embedded payload.
pub struct CdpkView {
    pub tx_hash: Seq<u8>,
    pub index: u32,
    pub dep_type: u8,
    pub pub_key: Seq<u8>,
}

impl View for CellDepWithPubKey {
    type V = CdpkView;

    open spec fn view(&self) -> CdpkView {
        CdpkView {
            tx_hash: self.cell_dep.tx_hash@,
            index: self.cell_dep.index,
            dep_type: self.cell_dep.dep_type,
            pub_key: self.pub_key@,
        }
    }
}

/// The field encodings of an embedded payload, concatenated.
pub open spec fn enc_cdpk_payload(c: CdpkView) -> Seq<u8> {
    rlp_str(c.tx_hash) + rlp_uint(c.index as nat) + rlp_uint(c.dep_type as nat) + rlp_str(
        c.pub_key,
    )
}

/// The canonical encoding of an embedded payload.
pub open spec fn spec_enc_cell_dep(c: CdpkView) -> Seq<u8> {
    rlp_list(enc_cdpk_payload(c))
}

/// Canonical side conditions for an embedded payload: a 32-byte cell hash
/// and a key that fits the machine word.
pub open spec fn cdpk_canonical(c: CdpkView) -> bool {
    &&& c.tx_hash.len() == 32
    &&& c.pub_key.len() <= usize::MAX
}

/// Where each field of a canonically encoded embedded payload sits.
proof fn lemma_cdpk_layout(b: Seq<u8>, c: CdpkView)
    requires
        cdpk_canonical(c),
        b.len() <= usize::MAX,
        b == spec_enc_cell_dep(c),
    ensures
        ({
            let pl = enc_cdpk_payload(c);
            let p0 = b.len() - pl.len();
            let p1 = p0 + rlp_str(c.tx_hash).len();
            let p2 = p1 + rlp_uint(c.index as nat).len();
            let p3 = p2 + rlp_uint(c.dep_type as nat).len();
            &&& pl.len() <= usize::MAX
            &&& crate::rlp::list_at(b, 0, pl)
            &&& crate::rlp::str_at(b, p0, c.tx_hash)
            &&& crate::rlp::uint_at(b, p1, c.index as nat)
            &&& crate::rlp::uint_at(b, p2, c.dep_type as nat)
            &&& crate::rlp::str_at(b, p3, c.pub_key)
            &&& p3 + rlp_str(c.pub_key).len() == b.len()
        }),
{
    let s1 = rlp_str(c.tx_hash);
    let s2 = rlp_uint(c.index as nat);
    let s3 = rlp_uint(c.dep_type as nat);
    let s4 = rlp_str(c.pub_key);
    let pl = enc_cdpk_payload(c);
    let p0 = b.len() - pl.len();
    lemma_rlp_list_nonempty(pl);
    assert(b.subrange(0, b.len() as int) =~= b);
    assert(crate::rlp::list_at(b, 0, pl));
    if pl.len() <= 55 {
        assert(b == seq![(0xc0 + pl.len()) as u8] + pl);
        crate::rlp::lemma_subrange_split(b, 0, seq![(0xc0 + pl.len()) as u8], pl);
    } else {
        crate::rlp::lemma_usize_fits_len(pl.len());
        crate::rlp::lemma_be_bytes_nonzero(pl.len());
        let digits = crate::rlp::be_bytes(pl.len());
        assert(b == (seq![(0xf7 + digits.len()) as u8] + digits) + pl);
        crate::rlp::lemma_subrange_split(b, 0, seq![(0xf7 + digits.len()) as u8] + digits, pl);
    }
    assert(b.subrange(p0 as int, (p0 + pl.len()) as int) == pl);
    lemma_shift_head(s2, s3, s4);
    lemma_shift_head(s1, s2, s3);
    lemma_shift_head(s1, s2 + s3, s4);
    assert(pl == s1 + (s2 + (s3 + s4)));
    crate::rlp::lemma_subrange_split(b, p0 as int, s1, s2 + (s3 + s4));
    crate::rlp::lemma_subrange_split(b, p0 + s1.len(), s2, s3 + s4);
    crate::rlp::lemma_subrange_split(b, p0 + s1.len() + s2.len(), s3, s4);
}

fn encode_cell_dep(c: &CellDepWithPubKey) -> (out: Vec<u8>)
    ensures
        out@ == spec_enc_cell_dep(c@),
{
    let mut payload: Vec<u8> = Vec::new();
    append_str(&mut payload, &c.cell_dep.tx_hash.v);
    append_uint(&mut payload, c.cell_dep.index as u128);
    append_uint(&mut payload, c.cell_dep.dep_type as u128);
    append_str(&mut payload, &c.pub_key);
    let mut out: Vec<u8> = Vec::new();
    append_list(&mut out, &payload);
    assert(out@ =~= spec_enc_cell_dep(c@));
    out
}

/// Parse an embedded payload; whenever the input is the canonical encoding
/// of some payload, exactly that payload is returned. The caller still
/// re-encodes the result and accepts it only when the bytes round-trip.
#[verifier::rlimit(100)]
fn decode_cell_dep(b: &Vec<u8>) -> (r: Option<CellDepWithPubKey>)
    ensures
        forall|c: CdpkView|
            cdpk_canonical(c) && b@ == #[trigger] spec_enc_cell_dep(c) ==> (r matches Some(d)
                && d@ == c),
{
    let blen = b.len();
    proof {
        assert forall|c: CdpkView|
            cdpk_canonical(c) && b@ == #[trigger] spec_enc_cell_dep(c) implies crate::rlp::list_at(
            b@,
            0,
            enc_cdpk_payload(c),
        ) && enc_cdpk_payload(c).len() <= usize::MAX by {
            lemma_cdpk_layout(b@, c);
        }
    }
    let (ps, pl) = match crate::rlp::parse_list_header(b, 0) {
        Some(x) => x,
        None => return None,
    };
    let (hash_v, p1) = match crate::rlp::parse_bytes(b, ps) {
        Some(x) => x,
        None => {
            proof {
                assert forall|c: CdpkView|
                    cdpk_canonical(c) && b@ == #[trigger] spec_enc_cell_dep(c) implies false by {
                    lemma_cdpk_layout(b@, c);
                }
            }
            return None;
        },
    };
    let (index, p2) = match crate::rlp::parse_uint(b, p1) {
        Some(x) => x,
        None => {
            proof {
                assert forall|c: CdpkView|
                    cdpk_canonical(c) && b@ == #[trigger] spec_enc_cell_dep(c) implies false by {
                    lemma_cdpk_layout(b@, c);
                }
            }
            return None;
        },
    };
    if index > u32::MAX as u128 {
        proof {
            assert forall|c: CdpkView|
                cdpk_canonical(c) && b@ == #[trigger] spec_enc_cell_dep(c) implies false by {
                lemma_cdpk_layout(b@, c);
            }
        }
        return None;
    }
    let (dep_type, p3) = match crate::rlp::parse_uint(b, p2) {
        Some(x) => x,
        None => {
            proof {
                assert forall|c: CdpkView|
                    cdpk_canonical(c) && b@ == #[trigger] spec_enc_cell_dep(c) implies false by {
                    lemma_cdpk_layout(b@, c);
                }
            }
            return None;
        },
    };
    if dep_type > u8::MAX as u128 {
        proof {
            assert forall|c: CdpkView|
                cdpk_canonical(c) && b@ == #[trigger] spec_enc_cell_dep(c) implies false by {
                lemma_cdpk_layout(b@, c);
            }
        }
        return None;
    }
    let (pub_key, _p4) = match crate::rlp::parse_bytes(b, p3) {
        Some(x) => x,
        None => {
            proof {
                assert forall|c: CdpkView|
                    cdpk_canonical(c) && b@ == #[trigger] spec_enc_cell_dep(c) implies false by {
                    lemma_cdpk_layout(b@, c);
                }
            }
            return None;
        },
    };
    let d = CellDepWithPubKey {
        cell_dep: CellDep {
            tx_hash: H256 { v: hash_v },
            index: index as u32,
            dep_type: dep_type as u8,
        },
        pub_key,
    };
    proof {
        assert forall|c: CdpkView|
            cdpk_canonical(c) && b@ == #[trigger] spec_enc_cell_dep(c) implies d@ == c by {
            lemma_cdpk_layout(b@, c);
        }
    }
    Some(d)
}

impl SignatureComponents {
    /// Interoperation recovery: a zero marker byte flags an embedded payload
    /// in the rest of r; the sender is the tail of the embedded key's digest.
    /// A signature whose r field is empty or opens with any other marker
    /// names no supported scheme and fails with the typed error.
    pub fn extract_interoperation_tx_sender(&self) -> (res: Result<H160, TypesError>)
        ensures
            (self.r@.len() == 0 || self.r@[0] != 0) <==> (res matches Err(e)
                && e is InvalidSignatureRType),
            res matches Ok(a) ==> self.r@.len() > 0 && self.r@[0] == 0 && a.wf() && (exists|
                c: CdpkView,
            |
                #![auto]
                self.r@.skip(1) == spec_enc_cell_dep(c) && a@ == keccak_of(c.pub_key).subrange(
                    12,
                    32,
                )),
            (self.r@.len() > 0 && self.r@[0] == 0) ==> (res matches Ok(_) || (res matches Err(e)
                && e is DecodeInteroperationSigR)),
            forall|c: CdpkView|
                cdpk_canonical(c) && self.r@.len() > 0 && self.r@[0] == 0 && self.r@.skip(1)
                    == #[trigger] spec_enc_cell_dep(c) ==> (res matches Ok(a) && a@ == keccak_of(
                    c.pub_key,
                ).subrange(12, 32)),
    {
        if self.r.len() == 0 {
            return Err(TypesError::InvalidSignatureRType);
        }
        if self.r[0] == 0 {
            let tail = copy_range(&self.r, 1, self.r.len());
            assert(tail@ =~= self.r@.skip(1));
            match decode_cell_dep(&tail) {
                Some(c) => {
                    let enc = encode_cell_dep(&c);
                    if crate::bytes_eq(&enc, &tail) {
                        let hash = keccak256(&c.pub_key);
                        let addr = H160 { v: copy_range(&hash, 12, 32) };
                        proof {
                            assert(self.r@.skip(1) == spec_enc_cell_dep(c@) && addr@ == keccak_of(
                                c@.pub_key,
                            ).subrange(12, 32));
                            assert forall|c2: CdpkView|
                                cdpk_canonical(c2) && self.r@.skip(1)
                                    == #[trigger] spec_enc_cell_dep(c2) implies addr@ == keccak_of(
                                c2.pub_key,
                            ).subrange(12, 32) by {
                                assert(c@ == c2);
                            }
                        }
                        Ok(addr)
                    } else {
                        proof {
                            assert forall|c2: CdpkView|
                                cdpk_canonical(c2) && self.r@.skip(1)
                                    == #[trigger] spec_enc_cell_dep(c2) implies false by {
                                assert(c@ == c2);
                                assert(enc@ == tail@);
                            }
                        }
                        Err(TypesError::DecodeInteroperationSigR)
                    }
                },
                None => {
                    proof {
                        assert forall|c2: CdpkView|
                            cdpk_canonical(c2) && self.r@.skip(1) == #[trigger] spec_enc_cell_dep(
                                c2,
                            ) implies false by {
                        }
                    }
                    Err(TypesError::DecodeInteroperationSigR)
                },
            }
        } else {
            Err(TypesError::InvalidSignatureRType)
        }
    }
}

impl SignedTransaction {
    /// Verify an unverified transaction: recover the sender by the scheme
    /// its signature selects, and cache the transaction hash.
    pub fn from_unverified(utx: UnverifiedTransaction) -> (r: Result<
        SignedTransaction,
        TypesError,
    >)
        requires
            utx.sig_fits_all(),
            utx.signature matches Some(s) ==> s.len_spec() <= usize::MAX,
        ensures
            (match r {
                Ok(st) => utx.signature is Some && st.transaction@ == (UtxView {
                    hash: tx_hash_spec(utx@),
                    ..utx@
                }) && (if utx@.signature.unwrap().r.len() + utx@.signature.unwrap().s.len() + 1
                    == 65 {
                    recovered_key_of(
                        sig_hash_spec(utx@, true),
                        SignatureComponents::bytes_spec(utx@.signature.unwrap()),
                    ) matches Some(k) && (st.public matches Some(p) && p@ == k) && st.sender@
                        == keccak_of(k).subrange(12, 32)
                } else {
                    utx@.signature.unwrap().r.len() > 0 && utx@.signature.unwrap().r[0] == 0 && (
                    st.public matches Some(p) && p@ == zero_public()) && (exists|c: CdpkView|
                        #![auto]
                        utx@.signature.unwrap().r.skip(1) == spec_enc_cell_dep(c) && st.sender@
                            == keccak_of(c.pub_key).subrange(12, 32))
                }) && st.sender.wf(),
                Err(e) => (utx.signature is None && e is Unsigned) || (utx.signature is Some
                    && utx@.signature.unwrap().r.len() + utx@.signature.unwrap().s.len() + 1 == 65
                    && recovered_key_of(
                    sig_hash_spec(utx@, true),
                    SignatureComponents::bytes_spec(utx@.signature.unwrap()),
                ) is None && e is Crypto) || (utx.signature is Some && utx@.signature.unwrap(
                ).r.len() + utx@.signature.unwrap().s.len() + 1 != 65 && (
                e is InvalidSignatureRType || e is DecodeInteroperationSigR)),
            }),
            (utx@.signature is Some && utx@.signature.unwrap().r.len()
                + utx@.signature.unwrap().s.len() + 1 != 65 && (utx@.signature.unwrap().r.len()
                == 0 || utx@.signature.unwrap().r[0] != 0)) ==> (r matches Err(e)
                && e is InvalidSignatureRType),
            (utx@.signature is Some && interop_selected(utx@.signature.unwrap())) ==> (
            r matches Ok(_) || (r matches Err(e) && e is DecodeInteroperationSigR)),
            forall|c: CdpkView|
                (utx@.signature is Some && interop_selected(utx@.signature.unwrap())
                    && cdpk_canonical(c) && utx@.signature.unwrap().r.skip(1)
                    == #[trigger] spec_enc_cell_dep(c)) ==> (r matches Ok(st) && st.sender@
                    == keccak_of(c.pub_key).subrange(12, 32)),
    {
        let sigc = match &utx.signature {
            Some(s) => s.clone(),
            None => {
                return Err(TypesError::Unsigned);
            },
        };
        let hash = utx.signature_hash(true);
        if sigc.is_eth_sig() {
            let sb = sigc.as_bytes();
            match secp256k1_recover(&hash.v, &sb) {
                Some(public) => {
                    let sender = public_to_address(&public);
                    let transaction = utx.calc_hash();
                    Ok(SignedTransaction { transaction, sender, public: Some(public) })
                },
                None => Err(TypesError::Crypto),
            }
        } else {
            match sigc.extract_interoperation_tx_sender() {
                Ok(sender) => {
                    let transaction = utx.calc_hash();
                    Ok(SignedTransaction { transaction, sender, public: Some(Public::zero()) })
                },
                Err(e) => Err(e),
            }
        }
    }

    pub fn type_(&self) -> (r: u64)
        ensures
            r == self.transaction.unsigned.type_spec(),
    {
        self.transaction.unsigned.type_()
    }

    pub fn get_to(&self) -> (r: Option<H160>)
        ensures
            r matches Some(to) ==> self.transaction.unsigned.action_spec() is Some && to@
                == self.transaction.unsigned.action_spec().unwrap(),
            r is None <==> self.transaction.unsigned.action_spec() is None,
    {
        self.transaction.unsigned.to()
    }

    pub fn is_eip155(&self) -> (r: bool)
        ensures
            r == (self.transaction.chain_id is Some),
    {
        self.transaction.chain_id.is_some()
    }
}

// ------------------------------------------------------------------
// Receipt encoding.
// ------------------------------------------------------------------

/// The encoding of one log: [address, topics, data].
pub open spec fn enc_log(l: crate::types::LogView) -> Seq<u8> {
    rlp_list(
        rlp_str(l.address) + rlp_list(cat_map(l.topics, enc_key_fn())) + rlp_str(l.data),
    )
}

pub open spec fn enc_log_fn() -> spec_fn(crate::types::LogView) -> Seq<u8> {
    |l: crate::types::LogView| enc_log(l)
}

/// The four-field receipt body: [status, cumulative gas, bloom, logs].
pub open spec fn receipt_body(
    status: nat,
    gas: nat,
    bloom: Seq<u8>,
    logs: Seq<crate::types::LogView>,
) -> Seq<u8> {
    rlp_list(
        rlp_uint(status) + rlp_uint(gas) + rlp_str(bloom) + rlp_list(cat_map(logs, enc_log_fn())),
    )
}

/// The wire receipt: a raw type byte ahead of the body for versions 1 and 2,
/// the bare body otherwise.
pub open spec fn spec_encode_receipt(
    tx_type: int,
    exit_ok: bool,
    gas_used: u64,
    bloom: Seq<u8>,
    logs: Seq<crate::types::LogView>,
) -> Seq<u8> {
    let body = receipt_body(if exit_ok { 1nat } else { 0nat }, gas_used as nat, bloom, logs);
    if tx_type == 1 {
        seq![1u8] + body
    } else if tx_type == 2 {
        seq![2u8] + body
    } else {
        body
    }
}

fn append_log(out: &mut Vec<u8>, l: &Log)
    ensures
        final(out)@ == old(out)@ + enc_log(l@),
{
    let mut topics_payload: Vec<u8> = Vec::new();
    let ghost tv = l@.topics;
    let m = l.topics.len();
    let mut j: usize = 0;
    while j < m
        invariant
            m == l.topics@.len(),
            tv == l@.topics,
            tv.len() == m,
            j <= m,
            topics_payload@ == cat_map(tv.take(j as int), enc_key_fn()),
        decreases m - j,
    {
        append_str(&mut topics_payload, &l.topics[j].v);
        proof {
            lemma_cat_map_snoc(tv, enc_key_fn(), j as int);
            assert(tv[j as int] == l.topics@[j as int]@);
        }
        j += 1;
    }
    assert(tv.take(m as int) =~= tv);
    let mut item: Vec<u8> = Vec::new();
    append_str(&mut item, &l.address.v);
    append_list(&mut item, &topics_payload);
    append_str(&mut item, &l.data);
    append_list(out, &item);
}

impl SignedTransaction {
    /// Encode this transaction's receipt: consensus-critical, bit-exact.
    pub fn encode_receipt(&self, r: &TxResp, logs_bloom: Bloom) -> (out: Vec<u8>)
        ensures
            out@ == spec_encode_receipt(
                self.transaction.unsigned.type_spec(),
                r.exit_reason.is_succeed_spec(),
                r.gas_used,
                logs_bloom@,
                r.logs@.map_values(crate::types::log_view_fn()),
            ),
    {
        let status: u64 = if r.exit_reason.is_succeed() {
            1
        } else {
            0
        };
        let ghost lv = r.logs@.map_values(crate::types::log_view_fn());
        let mut logs_payload: Vec<u8> = Vec::new();
        let n = r.logs.len();
        let mut i: usize = 0;
        while i < n
            invariant
                n == r.logs@.len(),
                lv == r.logs@.map_values(crate::types::log_view_fn()),
                lv.len() == n,
                i <= n,
                logs_payload@ == cat_map(lv.take(i as int), enc_log_fn()),
            decreases n - i,
        {
            append_log(&mut logs_payload, &r.logs[i]);
            proof {
                lemma_cat_map_snoc(lv, enc_log_fn(), i as int);
                assert(lv[i as int] == r.logs@[i as int]@);
            }
            i += 1;
        }
        assert(lv.take(n as int) =~= lv);
        let mut body_payload: Vec<u8> = Vec::new();
        append_uint(&mut body_payload, status as u128);
        append_uint(&mut body_payload, r.gas_used as u128);
        append_str(&mut body_payload, &logs_bloom.v);
        append_list(&mut body_payload, &logs_payload);
        let mut out: Vec<u8> = Vec::new();
        let t = self.type_();
        if t == 0x01 || t == 0x02 {
            out.push(t as u8);
        }
        append_list(&mut out, &body_payload);
        assert(out@ =~= spec_encode_receipt(
            self.transaction.unsigned.type_spec(),
            r.exit_reason.is_succeed_spec(),
            r.gas_used,
            logs_bloom@,
            lv,
        ));
        out
    }
}

/// Clone an access list, preserving its value.
pub fn clone_access_list(al: &AccessList) -> (r: AccessList)
    ensures
        r@.map_values(al_item_view_fn()) == al@.map_values(al_item_view_fn()),
{
    let mut r: AccessList = Vec::new();
    let n = al.len();
    let mut i: usize = 0;
    while i < n
        invariant
            n == al@.len(),
            i <= n,
            r@.map_values(al_item_view_fn()) == al@.take(i as int).map_values(
                al_item_view_fn(),
            ),
        decreases n - i,
    {
        let ghost prev = r@;
        r.push(al[i].clone());
        proof {
            prev.lemma_push_map_commute(al_item_view_fn(), r@.last());
            al@.lemma_map_take_succ(al_item_view_fn(), i as int);
            assert(r@.map_values(al_item_view_fn()) =~= al@.take(i + 1).map_values(
                al_item_view_fn(),
            ));
        }
        i += 1;
    }
    assert(al@.take(n as int) =~= al@);
    r
}

} // verus!
