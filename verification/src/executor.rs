//! The block executor: per-transaction dispatch, gas and fee accounting,
//! hook invocation, fee distribution, and the block-level state and receipts
//! roots. The state backend, the system-contract gateway, the machine and
//! the fee policy are external collaborators, specified here as traits.

use vstd::prelude::*;

use crate::bloom::{logs_bloom, logs_bloom_spec};
use crate::crypto::{bytes_view_fn, keccak_of, keccak256, ordered_root_of, ordered_trie_root};
use crate::hardfork::{enable_hardfork, gate_bits, hardfork_enabled, HardforkGate, HardforkName};
use crate::precompile::{build_precompile_set, PrecompileSet};
use crate::rlp::{append_list, append_str, append_uint, rlp_list, rlp_str, rlp_uint};
use crate::transaction::{spec_encode_receipt, AccessList, SignedTransaction, TransactionAction};
use crate::types::{
    cap_u128, cap_u64, clone_bytes, copy_range, log_view_fn, Account, Amount, ExecResp, ExitReason,
    Log, LogView, TxResp, H160, H256,
};

verus! {

/// Gas-metering configuration; everything but the creation-size limit is a
/// fixed baseline profile.
pub struct Config {
    /// Estimation mode relaxes gas-limit enforcement for cost queries.
    pub estimate: bool,
    /// Maximum creation bytecode size.
    pub create_contract_limit: Option<usize>,
}

impl Config {
    /// The fixed baseline profile.
    pub fn london() -> (c: Config)
        ensures
            c.estimate == false,
            c.create_contract_limit == Some(0x6000usize),
    {
        Config { estimate: false, create_contract_limit: Some(0x6000) }
    }
}

/// A validator as the fee policy sees it.
pub struct ValidatorExtend {
    pub address: H160,
    pub propose_weight: u32,
    pub vote_weight: u32,
}

/// One fee credit: the address and the amount it is owed.
pub struct FeeInlet {
    pub address: H160,
    pub amount: Amount,
}

/// The state overlay a machine run produces, merged into the adapter on
/// success.
pub struct StateDiff {
    pub accounts: Vec<(H160, Account)>,
}

/// What one machine run returns.
pub struct VmOutcome {
    pub exit_reason: ExitReason,
    pub ret: Vec<u8>,
    pub remain_gas: u64,
    pub used_gas: u64,
    pub logs: Vec<Log>,
    pub diff: StateDiff,
}

/// The arguments of one machine run.
pub struct VmArgs {
    pub from: H160,
    pub action: TransactionAction,
    pub value: Amount,
    pub data: Vec<u8>,
    pub gas_limit: u64,
    pub access_list: AccessList,
}

/// Read-only access to the current chain state.
pub trait Backend {
    /// The account stored under an address.
    spec fn account_spec(&self, a: Seq<u8>) -> Account;

    /// The storage word of an account's slot.
    spec fn storage_spec(&self, a: Seq<u8>, k: Seq<u8>) -> Seq<u8>;

    /// The gas price of the transaction being served.
    spec fn gas_price_spec(&self) -> Amount;

    /// The origin of the transaction being served.
    spec fn origin_spec(&self) -> Seq<u8>;

    /// The number of the block being built.
    spec fn block_number_spec(&self) -> u64;

    fn get_account(&self, address: &H160) -> (r: Account)
        ensures
            r == self.account_spec(address@),
    ;

    fn storage(&self, address: &H160, key: &H256) -> (r: H256)
        ensures
            r@ == self.storage_spec(address@, key@),
            r.wf(),
    ;

    fn gas_price(&self) -> (r: Amount)
        ensures
            r == self.gas_price_spec(),
    ;

    fn origin(&self) -> (r: H160)
        ensures
            r@ == self.origin_spec(),
    ;

    fn block_number(&self) -> (r: u64)
        ensures
            r == self.block_number_spec(),
    ;
}

/// Accounts unchanged between two backend states.
pub open spec fn same_accounts<A: Backend + ?Sized>(a: &A, b: &A) -> bool {
    forall|x: Seq<u8>| #[trigger] b.account_spec(x) == a.account_spec(x)
}

/// Storage unchanged between two backend states.
pub open spec fn same_storage<A: Backend + ?Sized>(a: &A, b: &A) -> bool {
    forall|x: Seq<u8>, k: Seq<u8>| #[trigger] b.storage_spec(x, k) == a.storage_spec(x, k)
}

/// Gas price, origin and block number unchanged.
pub open spec fn same_env<A: Backend + ?Sized>(a: &A, b: &A) -> bool {
    &&& b.gas_price_spec() == a.gas_price_spec()
    &&& b.origin_spec() == a.origin_spec()
    &&& b.block_number_spec() == a.block_number_spec()
}

/// Mutating access to the overlay the block accumulates; commit publishes it
/// exactly once per block.
pub trait ExecutorAdapter: Backend {
    /// The per-transaction log buffer.
    spec fn logs_spec(&self) -> Seq<LogView>;

    /// How many times the overlay was committed.
    spec fn commit_count_spec(&self) -> nat;

    fn set_gas_price(&mut self, price: Amount)
        ensures
            final(self).gas_price_spec() == price,
            final(self).origin_spec() == old(self).origin_spec(),
            final(self).block_number_spec() == old(self).block_number_spec(),
            same_accounts(old(self), final(self)),
            same_storage(old(self), final(self)),
            final(self).logs_spec() == old(self).logs_spec(),
            final(self).commit_count_spec() == old(self).commit_count_spec(),
    ;

    fn set_origin(&mut self, origin: &H160)
        ensures
            final(self).origin_spec() == origin@,
            final(self).gas_price_spec() == old(self).gas_price_spec(),
            final(self).block_number_spec() == old(self).block_number_spec(),
            same_accounts(old(self), final(self)),
            same_storage(old(self), final(self)),
            final(self).logs_spec() == old(self).logs_spec(),
            final(self).commit_count_spec() == old(self).commit_count_spec(),
    ;

    fn save_account(&mut self, address: &H160, account: &Account)
        ensures
            forall|x: Seq<u8>|
                #[trigger] final(self).account_spec(x) == if x == address@ {
                    *account
                } else {
                    old(self).account_spec(x)
                },
            same_storage(old(self), final(self)),
            same_env(old(self), final(self)),
            final(self).logs_spec() == old(self).logs_spec(),
            final(self).commit_count_spec() == old(self).commit_count_spec(),
    ;

    /// Drain the per-transaction log buffer.
    fn take_logs(&mut self) -> (r: Vec<Log>)
        ensures
            r@.map_values(crate::types::log_view_fn()) == old(self).logs_spec(),
            final(self).logs_spec() == Seq::<LogView>::empty(),
            same_accounts(old(self), final(self)),
            same_storage(old(self), final(self)),
            same_env(old(self), final(self)),
            final(self).commit_count_spec() == old(self).commit_count_spec(),
    ;

    /// Merge a machine run's diff and logs into the overlay; how the diff
    /// lands in the accounts is the backend's own rule.
    fn apply(&mut self, diff: StateDiff, logs: Vec<Log>, delete_empty: bool)
        ensures
            final(self).logs_spec() == old(self).logs_spec() + logs@.map_values(
                crate::types::log_view_fn(),
            ),
            same_env(old(self), final(self)),
            final(self).commit_count_spec() == old(self).commit_count_spec(),
    ;

    /// Publish the overlay: the single durability boundary of a block.
    fn commit(&mut self) -> (r: H256)
        ensures
            final(self).commit_count_spec() == old(self).commit_count_spec() + 1,
            same_accounts(old(self), final(self)),
            same_storage(old(self), final(self)),
            same_env(old(self), final(self)),
            final(self).logs_spec() == old(self).logs_spec(),
            r.wf(),
    ;
}

/// The system-contract side: hooks around the block and dispatch by address.
pub trait SystemContractGateway<A: ExecutorAdapter> {
    /// How many times the before-block hook ran.
    spec fn before_count(&self) -> nat;

    /// How many times the after-block hook ran.
    spec fn after_count(&self) -> nat;

    /// Which transactions this gateway claims for a system contract; fixed
    /// for the life of the gateway.
    spec fn claims(&self, tx: SignedTransaction) -> bool;

    fn before_block_hook(&mut self, adapter: &mut A)
        ensures
            final(self).before_count() == old(self).before_count() + 1,
            final(self).after_count() == old(self).after_count(),
            forall|t: SignedTransaction| #[trigger] final(self).claims(t) == old(self).claims(t),
            final(adapter).commit_count_spec() == old(adapter).commit_count_spec(),
            final(adapter).block_number_spec() == old(adapter).block_number_spec(),
    ;

    fn after_block_hook(&mut self, adapter: &mut A)
        ensures
            final(self).after_count() == old(self).after_count() + 1,
            final(self).before_count() == old(self).before_count(),
            forall|t: SignedTransaction| #[trigger] final(self).claims(t) == old(self).claims(t),
            final(adapter).commit_count_spec() == old(adapter).commit_count_spec(),
            final(adapter).block_number_spec() == old(adapter).block_number_spec(),
    ;

    /// Claim a transaction whose target is a system contract; an absent
    /// result falls through to the machine.
    fn dispatch(&mut self, adapter: &mut A, tx: &SignedTransaction) -> (r: Option<TxResp>)
        ensures
            r is Some <==> old(self).claims(*tx),
            final(self).before_count() == old(self).before_count(),
            final(self).after_count() == old(self).after_count(),
            forall|t: SignedTransaction| #[trigger] final(self).claims(t) == old(self).claims(t),
            final(adapter).gas_price_spec() == old(adapter).gas_price_spec(),
            final(adapter).commit_count_spec() == old(adapter).commit_count_spec(),
            final(adapter).block_number_spec() == old(adapter).block_number_spec(),
    ;
}

/// Consensus configuration read from the metadata system contract.
pub trait MetadataHandle {
    /// The creation-size limit recorded under a metadata root.
    spec fn contract_limit_spec(&self, root: Seq<u8>) -> usize;

    fn max_contract_limit(&self, root: &H256) -> (r: usize)
        ensures
            r == self.contract_limit_spec(root@),
    ;
}

/// The machine: runs a call or a creation against the backend and returns
/// its outcome; it never writes the backend directly.
pub trait Vm<A: Backend> {
    fn run(&mut self, backend: &A, config: &Config, precompiles: &PrecompileSet, args: &VmArgs) -> (r:
        VmOutcome)
        ensures
            r.used_gas <= args.gas_limit,
            r.remain_gas <= args.gas_limit,
    ;
}

/// The pluggable fee policy: collected fees become ordered credits.
pub trait FeeAllocate {
    fn allocate(
        &self,
        block_number: u64,
        fee_collect: Amount,
        proposer: &H160,
        validators: &Vec<ValidatorExtend>,
    ) -> (r: Vec<FeeInlet>);
}

/// The default policy: the whole collected fee is credited to the proposer.
pub struct DefaultFeeAllocator;

impl FeeAllocate for DefaultFeeAllocator {
    fn allocate(
        &self,
        block_number: u64,
        fee_collect: Amount,
        proposer: &H160,
        validators: &Vec<ValidatorExtend>,
    ) -> (r: Vec<FeeInlet>)
        ensures
            r@.len() == 1,
            r@[0].amount == fee_collect,
            r@[0].address@ == proposer@,
    {
        let mut r: Vec<FeeInlet> = Vec::new();
        r.push(FeeInlet { address: proposer.clone(), amount: fee_collect });
        r
    }
}

/// The two call-scoped roots, cached once per top-level call and threaded
/// explicitly instead of living in ambient state.
pub struct CallRoots {
    pub header_cell_root: H256,
    pub metadata_root: H256,
}

/// A reserved system-contract address: 19 bytes of 0xff and a tag.
pub open spec fn system_address_spec(tag: u8) -> Seq<u8> {
    Seq::new(20, |i: int| if i == 19 { tag } else { 0xffu8 })
}

/// A reserved storage key: 31 zero bytes and a tag.
pub open spec fn system_key_spec(tag: u8) -> Seq<u8> {
    Seq::new(32, |i: int| if i == 31 { tag } else { 0u8 })
}

fn system_address(tag: u8) -> (r: H160)
    ensures
        r@ == system_address_spec(tag),
        r.wf(),
{
    let mut v: Vec<u8> = Vec::new();
    let mut i: usize = 0;
    while i < 19
        invariant
            i <= 19,
            v@.len() == i,
            forall|j: int| 0 <= j < i ==> v@[j] == 0xffu8,
        decreases 19 - i,
    {
        v.push(0xffu8);
        i += 1;
    }
    v.push(tag);
    let r = H160 { v };
    assert(r@ =~= system_address_spec(tag));
    r
}

fn system_key(tag: u8) -> (r: H256)
    ensures
        r@ == system_key_spec(tag),
        r.wf(),
{
    let mut v: Vec<u8> = Vec::new();
    let mut i: usize = 0;
    while i < 31
        invariant
            i <= 31,
            v@.len() == i,
            forall|j: int| 0 <= j < i ==> v@[j] == 0u8,
        decreases 31 - i,
    {
        v.push(0u8);
        i += 1;
    }
    v.push(tag);
    let r = H256 { v };
    assert(r@ =~= system_key_spec(tag));
    r
}

/// The metadata system contract's reserved address tag.
pub const METADATA_ADDRESS_TAG: u8 = 0x01;

/// The light-client system contract's reserved address tag.
pub const CKB_LIGHT_CLIENT_ADDRESS_TAG: u8 = 0x02;

/// The slot holding the metadata root.
pub const METADATA_ROOT_KEY_TAG: u8 = 0x01;

/// The slot holding the header-cell root.
pub const HEADER_CELL_ROOT_KEY_TAG: u8 = 0x02;

/// The caller a query runs as: the given address, or the zero address.
pub open spec fn caller_or_zero(from: Option<H160>) -> Seq<u8> {
    match from {
        Some(f) => f@,
        None => Seq::new(20, |i: int| 0u8),
    }
}

/// The legacy deterministic created-contract address: the tail of the digest
/// of the encoded (sender, nonce) pair.
pub open spec fn code_address_spec(sender: Seq<u8>, nonce: u64) -> Seq<u8> {
    keccak_of(rlp_list(rlp_str(sender) + rlp_uint(nonce as nat))).subrange(12, 32)
}

pub fn code_address(sender: &H160, nonce: u64) -> (r: H160)
    ensures
        r@ == code_address_spec(sender@, nonce),
        r.wf(),
{
    let mut payload: Vec<u8> = Vec::new();
    append_str(&mut payload, &sender.v);
    append_uint(&mut payload, nonce as u128);
    let mut enc: Vec<u8> = Vec::new();
    append_list(&mut enc, &payload);
    let hash = keccak256(&enc);
    H160 { v: copy_range(&hash, 12, 32) }
}

/// Whether an action is a call of exactly this address.
pub fn is_transaction_call(action: &TransactionAction, addr: &H160) -> (r: bool)
    ensures
        r <==> action@ == Some(addr@),
{
    match action {
        TransactionAction::Call(to) => to.eq(addr),
        TransactionAction::Create => false,
    }
}

/// The saturating running total of gas over a response list.
pub open spec fn total_gas(s: Seq<TxResp>) -> int
    decreases s.len(),
{
    if s.len() == 0 {
        0
    } else {
        cap_u64(total_gas(s.drop_last()) + s.last().gas_used)
    }
}

/// The saturating running total of fees over a response list.
pub open spec fn total_fee(s: Seq<TxResp>) -> int
    decreases s.len(),
{
    if s.len() == 0 {
        0
    } else {
        cap_u128(total_fee(s.drop_last()) + s.last().fee_cost)
    }
}

/// The running totals clamp at the representable maximum instead of
/// wrapping: however many transactions accumulate, the fee and gas totals
/// stay within their types.
pub proof fn lemma_totals_clamp(s: Seq<TxResp>)
    ensures
        0 <= total_gas(s) <= u64::MAX,
        0 <= total_fee(s) <= u128::MAX,
    decreases s.len(),
{
    if s.len() > 0 {
        lemma_totals_clamp(s.drop_last());
    }
}

/// What the machine sub-path guarantees of a response, whatever the run
/// returned: no removal, gas within the limit, the exact fee formula at the
/// transaction's effective price, and a created address exactly for a
/// successful creation.
pub open spec fn evm_resp_shape(tx: SignedTransaction, r: TxResp) -> bool {
    &&& r.removed == false
    &&& r.gas_used <= tx.transaction.unsigned.gas_limit_spec()
    &&& r.remain_gas <= tx.transaction.unsigned.gas_limit_spec()
    &&& r.fee_cost == cap_u128(tx.transaction.unsigned.gas_price_spec() * r.gas_used)
    &&& ((r.code_address is Some) <==> (tx.transaction.unsigned.action_spec() is None
        && r.exit_reason.is_succeed_spec()))
}

/// The receipt bytes of one transaction and its response.
pub open spec fn spec_receipt_of(tx: SignedTransaction, r: TxResp) -> Seq<u8> {
    spec_encode_receipt(
        tx.transaction.unsigned.type_spec(),
        r.exit_reason.is_succeed_spec(),
        r.gas_used,
        logs_bloom_spec(r.logs@.map_values(log_view_fn())),
        r.logs@.map_values(log_view_fn()),
    )
}

/// The ordered receipt list of a block.
pub open spec fn receipts_of(txs: Seq<SignedTransaction>, resps: Seq<TxResp>) -> Seq<Seq<u8>> {
    Seq::new(txs.len(), |i: int| spec_receipt_of(txs[i], resps[i]))
}

/// The receipts-trie root: the canonical empty-trie sentinel for an empty
/// list, the ordered trie root otherwise.
pub fn receipts_trie_root(encoded: &Vec<Vec<u8>>) -> (r: H256)
    ensures
        encoded@.len() == 0 ==> r@ == keccak_of(seq![0x80u8]),
        encoded@.len() > 0 ==> r@ == ordered_root_of(encoded@.map_values(bytes_view_fn())),
        r.wf(),
{
    if encoded.len() == 0 {
        let mut empty_str: Vec<u8> = Vec::new();
        empty_str.push(0x80u8);
        assert(empty_str@ =~= seq![0x80u8]);
        H256 { v: keccak256(&empty_str) }
    } else {
        H256 { v: ordered_trie_root(encoded) }
    }
}

/// The balance left after debiting the prepay obligation, clamped at zero.
pub open spec fn prepaid_balance(balance: int, price: int, gas_limit: int) -> int {
    let prepay = cap_u128(price * gas_limit);
    if balance >= prepay {
        balance - prepay
    } else {
        0
    }
}

/// The refund for unused gas, nothing when none remains.
pub open spec fn refund_amount(price: int, remain_gas: int) -> int {
    if remain_gas != 0 {
        cap_u128(price * remain_gas)
    } else {
        0
    }
}

/// The balance of address `x` after applying `credits` in order to an
/// initial balance: each nonzero credit to `x` adds exactly its amount,
/// saturating; zero credits and credits to other addresses change nothing.
pub open spec fn credited_balance(init: int, credits: Seq<FeeInlet>, x: Seq<u8>) -> int
    decreases credits.len(),
{
    if credits.len() == 0 {
        init
    } else {
        let prev = credited_balance(init, credits.drop_last(), x);
        let last = credits.last();
        if last.address@ == x && last.amount != 0 {
            cap_u128(prev + last.amount)
        } else {
            prev
        }
    }
}

/// Crediting never lowers a balance and never leaves the money type.
pub proof fn lemma_credited_balance_bounds(init: int, credits: Seq<FeeInlet>, x: Seq<u8>)
    requires
        0 <= init <= u128::MAX,
    ensures
        init <= credited_balance(init, credits, x) <= u128::MAX,
    decreases credits.len(),
{
    if credits.len() > 0 {
        lemma_credited_balance_bounds(init, credits.drop_last(), x);
    }
}

/// Every balance of `post` is `pre`'s after applying `credits` in order.
pub open spec fn credits_applied<A: ExecutorAdapter + ?Sized>(
    pre: &A,
    post: &A,
    credits: Seq<FeeInlet>,
) -> bool {
    forall|x: Seq<u8>|
        post.account_spec(x).balance == #[trigger] credited_balance(
            pre.account_spec(x).balance as int,
            credits,
            x,
        )
}

/// Apply a credit list in order: each nonzero credit raises exactly its
/// address's balance by exactly its amount (saturating); zero credits touch
/// no account; nonces, storage, environment, logs and the commit count are
/// untouched.
pub fn apply_credits<A: ExecutorAdapter>(adapter: &mut A, credits: &Vec<FeeInlet>)
    ensures
        forall|x: Seq<u8>| #[trigger]
            final(adapter).account_spec(x).balance == credited_balance(
                old(adapter).account_spec(x).balance as int,
                credits@,
                x,
            ),
        forall|x: Seq<u8>| #[trigger]
            final(adapter).account_spec(x).nonce == old(adapter).account_spec(x).nonce,
        same_storage(old(adapter), final(adapter)),
        same_env(old(adapter), final(adapter)),
        final(adapter).logs_spec() == old(adapter).logs_spec(),
        final(adapter).commit_count_spec() == old(adapter).commit_count_spec(),
{
    proof {
        assert forall|x: Seq<u8>| #[trigger]
            adapter.account_spec(x).balance == credited_balance(
                old(adapter).account_spec(x).balance as int,
                credits@.take(0),
                x,
            ) by {
            assert(credits@.take(0) =~= Seq::<FeeInlet>::empty());
        }
    }
    let n = credits.len();
    let mut i: usize = 0;
    while i < n
        invariant
            n == credits@.len(),
            i <= n,
            forall|x: Seq<u8>| #[trigger]
                adapter.account_spec(x).balance == credited_balance(
                    old(adapter).account_spec(x).balance as int,
                    credits@.take(i as int),
                    x,
                ),
            forall|x: Seq<u8>| #[trigger]
                adapter.account_spec(x).nonce == old(adapter).account_spec(x).nonce,
            same_storage(old(adapter), adapter),
            same_env(old(adapter), adapter),
            adapter.logs_spec() == old(adapter).logs_spec(),
            adapter.commit_count_spec() == old(adapter).commit_count_spec(),
        decreases n - i,
    {
        let inlet = &credits[i];
        let ghost pre = *adapter;
        proof {
            assert(credits@.take(i + 1).drop_last() =~= credits@.take(i as int));
            assert(credits@.take(i + 1).last() == credits@[i as int]);
        }
        if inlet.amount != 0 {
            let mut account = adapter.get_account(&inlet.address);
            account.balance = account.balance.saturating_add(inlet.amount);
            adapter.save_account(&inlet.address, &account);
            proof {
                assert forall|x: Seq<u8>| #[trigger]
                    adapter.account_spec(x).balance == credited_balance(
                        old(adapter).account_spec(x).balance as int,
                        credits@.take(i + 1),
                        x,
                    ) by {
                    if x == inlet.address@ {
                        assert(adapter.account_spec(x).balance == account.balance);
                    } else {
                        assert(adapter.account_spec(x) == pre.account_spec(x));
                    }
                }
            }
        } else {
            proof {
                assert forall|x: Seq<u8>| #[trigger]
                    adapter.account_spec(x).balance == credited_balance(
                        old(adapter).account_spec(x).balance as int,
                        credits@.take(i + 1),
                        x,
                    ) by {
                }
            }
        }
        i += 1;
    }
    assert(credits@.take(n as int) =~= credits@);
}

/// Credit every nonzero allocation, saturating each balance; skipped
/// entirely at the genesis block.
pub fn distribute_fees<A: ExecutorAdapter, F: FeeAllocate>(
    adapter: &mut A,
    allocator: &F,
    block_number: u64,
    fee: Amount,
    validators: &Vec<ValidatorExtend>,
)
    ensures
        block_number == 0 ==> same_accounts(old(adapter), final(adapter)),
        block_number != 0 ==> (exists|credits: Seq<FeeInlet>| #[trigger] credits_applied(
            old(adapter),
            final(adapter),
            credits,
        )),
        forall|x: Seq<u8>| #[trigger]
            final(adapter).account_spec(x).nonce == old(adapter).account_spec(x).nonce,
        forall|x: Seq<u8>| #[trigger]
            final(adapter).account_spec(x).balance >= old(adapter).account_spec(x).balance,
        same_storage(old(adapter), final(adapter)),
        same_env(old(adapter), final(adapter)),
        final(adapter).logs_spec() == old(adapter).logs_spec(),
        final(adapter).commit_count_spec() == old(adapter).commit_count_spec(),
{
    if block_number == 0 {
        return ;
    }
    let proposer = adapter.origin();
    let alloc = allocator.allocate(block_number, fee, &proposer, validators);
    apply_credits(adapter, &alloc);
    proof {
        assert forall|x: Seq<u8>| #[trigger]
            adapter.account_spec(x).balance >= old(adapter).account_spec(x).balance by {
            lemma_credited_balance_bounds(old(adapter).account_spec(x).balance as int, alloc@, x);
        }
        assert(credits_applied(old(adapter), adapter, alloc@));
        assert(exists|credits: Seq<FeeInlet>| #[trigger] credits_applied(
            old(adapter),
            adapter,
            credits,
        ));
    }
}

/// The deterministic state-transition engine.
pub struct AxonExecutor;

impl Default for AxonExecutor {
    fn default() -> (r: Self)
        ensures
            r == (AxonExecutor {}),
    {
        AxonExecutor
    }
}

impl AxonExecutor {
    /// Cache the two call-scoped roots from the current backend state, once
    /// per top-level call.
    pub fn init_local_system_contract_roots<B: Backend>(&self, adapter: &B) -> (r: CallRoots)
        ensures
            r.header_cell_root@ == adapter.storage_spec(
                system_address_spec(CKB_LIGHT_CLIENT_ADDRESS_TAG),
                system_key_spec(HEADER_CELL_ROOT_KEY_TAG),
            ),
            r.metadata_root@ == adapter.storage_spec(
                system_address_spec(METADATA_ADDRESS_TAG),
                system_key_spec(METADATA_ROOT_KEY_TAG),
            ),
            r.header_cell_root.wf(),
            r.metadata_root.wf(),
    {
        let header_cell_root = adapter.storage(
            &system_address(CKB_LIGHT_CLIENT_ADDRESS_TAG),
            &system_key(HEADER_CELL_ROOT_KEY_TAG),
        );
        let metadata_root = adapter.storage(
            &system_address(METADATA_ADDRESS_TAG),
            &system_key(METADATA_ROOT_KEY_TAG),
        );
        CallRoots { header_cell_root, metadata_root }
    }

    /// Resolve the gas-metering configuration: the baseline profile, with the
    /// creation-size limit read from the metadata contract once the named
    /// hardfork is enabled.
    pub fn config<M: MetadataHandle>(&self, gate: &HardforkGate, meta: &M, roots: &CallRoots) -> (c:
        Config)
        ensures
            c.estimate == false,
            hardfork_enabled(gate_bits(*gate), HardforkName::Andromeda) ==> c.create_contract_limit
                == Some(meta.contract_limit_spec(roots.metadata_root@)),
            !hardfork_enabled(gate_bits(*gate), HardforkName::Andromeda)
                ==> c.create_contract_limit == Some(0x6000usize),
    {
        let mut evm_config = Config::london();
        if enable_hardfork(gate, HardforkName::Andromeda) {
            let limit = meta.max_contract_limit(&roots.metadata_root);
            evm_config.create_contract_limit = Some(limit);
        }
        evm_config
    }

    /// Read-only point query: run a call or a creation against the current
    /// state under an estimation-mode configuration; nothing is committed.
    pub fn call<B: Backend, V: Vm<B>, M: MetadataHandle>(
        &self,
        backend: &B,
        vm: &mut V,
        gate: &HardforkGate,
        meta: &M,
        gas_limit: u64,
        from: Option<H160>,
        to: Option<H160>,
        value: Amount,
        data: Vec<u8>,
    ) -> (r: TxResp)
        ensures
            r.fee_cost == cap_u128(backend.gas_price_spec() * r.gas_used),
            r.logs@.len() == 0,
            r.removed == false,
            r.gas_used <= gas_limit,
            r.remain_gas <= gas_limit,
            (r.code_address is Some) <==> (to is None),
            r.code_address matches Some(a) ==> a@ == code_address_spec(
                caller_or_zero(from),
                backend.account_spec(caller_or_zero(from)).nonce,
            ),
    {
        let roots = self.init_local_system_contract_roots(backend);
        let mut config = self.config(gate, meta, &roots);
        config.estimate = true;
        let precompiles = build_precompile_set();
        let sender = match &from {
            Some(a) => a.clone(),
            None => H160::zero(),
        };
        proof {
            assert(sender@ =~= caller_or_zero(from));
        }
        let action = match &to {
            Some(a) => TransactionAction::Call(a.clone()),
            None => TransactionAction::Create,
        };
        let args = VmArgs {
            from: sender.clone(),
            action,
            value,
            data,
            gas_limit,
            access_list: Vec::new(),
        };
        let outcome = vm.run(backend, &config, &precompiles, &args);
        let code_addr = if to.is_none() {
            Some(code_address(&sender, backend.get_account(&sender).nonce))
        } else {
            None
        };
        TxResp {
            exit_reason: outcome.exit_reason,
            ret: outcome.ret,
            remain_gas: outcome.remain_gas,
            gas_used: outcome.used_gas,
            fee_cost: backend.gas_price().checked_mul(outcome.used_gas as u128).unwrap_or(
                u128::MAX,
            ),
            logs: Vec::new(),
            code_address: code_addr,
            removed: false,
        }
    }

    /// The machine sub-path of one transaction: debit the prepay, run the
    /// machine, advance the sender nonce by exactly one whatever the exit,
    /// refund unused gas, and merge the diff on success only.
    pub fn evm_exec<A: ExecutorAdapter, V: Vm<A>>(
        adapter: &mut A,
        vm: &mut V,
        config: &Config,
        precompiles: &PrecompileSet,
        tx: &SignedTransaction,
    ) -> (r: TxResp)
        ensures
            final(adapter).account_spec(tx.sender@).nonce == cap_u64(
                old(adapter).account_spec(tx.sender@).nonce + 1,
            ),
            r.fee_cost == cap_u128(old(adapter).gas_price_spec() * r.gas_used),
            r.logs@.len() == 0,
            r.removed == false,
            r.gas_used <= tx.transaction.unsigned.gas_limit_spec(),
            r.remain_gas <= tx.transaction.unsigned.gas_limit_spec(),
            (r.code_address is Some) <==> (tx.transaction.unsigned.action_spec() is None
                && r.exit_reason.is_succeed_spec()),
            r.code_address matches Some(a) ==> a@ == code_address_spec(
                tx.sender@,
                old(adapter).account_spec(tx.sender@).nonce,
            ),
            !r.exit_reason.is_succeed_spec() ==> final(adapter).account_spec(tx.sender@).balance
                == cap_u128(
                prepaid_balance(
                    old(adapter).account_spec(tx.sender@).balance as int,
                    old(adapter).gas_price_spec() as int,
                    tx.transaction.unsigned.gas_limit_spec() as int,
                ) + refund_amount(old(adapter).gas_price_spec() as int, r.remain_gas as int),
            ),
            !r.exit_reason.is_succeed_spec() ==> final(adapter).logs_spec() == old(
                adapter,
            ).logs_spec(),
            final(adapter).gas_price_spec() == old(adapter).gas_price_spec(),
            final(adapter).block_number_spec() == old(adapter).block_number_spec(),
            final(adapter).commit_count_spec() == old(adapter).commit_count_spec(),
    {
        let sender = &tx.sender;
        let tx_gas_price = adapter.gas_price();
        let gas_limit = tx.transaction.unsigned.gas_limit();
        let prepay_gas = tx_gas_price.checked_mul(gas_limit as u128).unwrap_or(u128::MAX);

        let mut account = adapter.get_account(sender);
        let old_nonce = account.nonce;

        account.balance = account.balance.saturating_sub(prepay_gas);
        adapter.save_account(sender, &account);

        let args = VmArgs {
            from: tx.sender.clone(),
            action: tx.transaction.unsigned.action().clone(),
            value: tx.transaction.unsigned.value(),
            data: clone_bytes(tx.transaction.unsigned.data()),
            gas_limit,
            access_list: tx.transaction.unsigned.access_list(),
        };
        let outcome = vm.run(adapter, config, precompiles, &args);
        let exit_ok = outcome.exit_reason.is_succeed();
        let is_create = matches!(tx.transaction.unsigned.action(), TransactionAction::Create);
        let VmOutcome { exit_reason, ret, remain_gas, used_gas, logs, diff } = outcome;

        let code_addr = if is_create && exit_ok {
            Some(code_address(sender, old_nonce))
        } else {
            None
        };

        if exit_ok {
            adapter.apply(diff, logs, true);
        }

        let mut account = adapter.get_account(sender);
        account.nonce = old_nonce.saturating_add(1);

        if remain_gas != 0 {
            let remain = (remain_gas as u128).checked_mul(tx_gas_price).unwrap_or(u128::MAX);
            account.balance = account.balance.checked_add(remain).unwrap_or(u128::MAX);
        }

        adapter.save_account(sender, &account);

        TxResp {
            exit_reason,
            ret,
            remain_gas,
            gas_used: used_gas,
            fee_cost: tx_gas_price.checked_mul(used_gas as u128).unwrap_or(u128::MAX),
            logs: Vec::new(),
            code_address: code_addr,
            removed: false,
        }
    }

    /// Apply a block: hooks around an ordered, sequential transaction loop,
    /// fee distribution away from genesis, one commit, and the receipts root
    /// over the ordered encoded receipts.
    #[verifier::rlimit(80)]
    pub fn exec<A, G, V, F, M>(
        &self,
        adapter: &mut A,
        gateway: &mut G,
        vm: &mut V,
        allocator: &F,
        meta: &M,
        gate: &HardforkGate,
        txs: &Vec<SignedTransaction>,
        validators: &Vec<ValidatorExtend>,
    ) -> (r: ExecResp) where
        A: ExecutorAdapter,
        G: SystemContractGateway<A>,
        V: Vm<A>,
        F: FeeAllocate,
        M: MetadataHandle,

        ensures
            r.tx_resp@.len() == txs@.len(),
            r.gas_used == total_gas(r.tx_resp@),
            txs@.len() == 0 ==> r.receipt_root@ == keccak_of(seq![0x80u8]),
            txs@.len() > 0 ==> r.receipt_root@ == ordered_root_of(receipts_of(txs@, r.tx_resp@)),
            final(gateway).before_count() == old(gateway).before_count() + 1,
            final(gateway).after_count() == old(gateway).after_count() + 1,
            forall|k: int|
                0 <= k < txs@.len() ==> (old(gateway).claims(txs@[k])
                    || #[trigger] evm_resp_shape(txs@[k], r.tx_resp@[k])),
            final(adapter).commit_count_spec() == old(adapter).commit_count_spec() + 1,
            r.state_root.wf(),
            r.receipt_root.wf(),
    {
        let txs_len = txs.len();
        let block_number = adapter.block_number();
        let mut res: Vec<TxResp> = Vec::new();
        let mut encode_receipts: Vec<Vec<u8>> = Vec::new();
        let mut gas: u64 = 0;
        let mut fee: Amount = 0;
        let precompiles = build_precompile_set();
        let roots = self.init_local_system_contract_roots(adapter);
        let config = self.config(gate, meta, &roots);

        gateway.before_block_hook(adapter);

        let ghost bc = gateway.before_count();
        let ghost ac = gateway.after_count();
        let ghost cc = adapter.commit_count_spec();

        let mut i: usize = 0;
        while i < txs_len
            invariant
                txs_len == txs@.len(),
                i <= txs_len,
                res@.len() == i,
                encode_receipts@.len() == i,
                gas == total_gas(res@),
                fee == total_fee(res@),
                forall|k: int|
                    0 <= k < i ==> #[trigger] encode_receipts@[k]@ == spec_receipt_of(
                        txs@[k],
                        res@[k],
                    ),
                gateway.before_count() == bc,
                gateway.after_count() == ac,
                forall|t: SignedTransaction| #[trigger]
                    gateway.claims(t) == old(gateway).claims(t),
                forall|k: int|
                    0 <= k < i ==> (old(gateway).claims(txs@[k]) || #[trigger] evm_resp_shape(
                        txs@[k],
                        res@[k],
                    )),
                adapter.commit_count_spec() == cc,
            decreases txs_len - i,
        {
            let tx = &txs[i];
            adapter.set_gas_price(tx.transaction.unsigned.gas_price());
            adapter.set_origin(&tx.sender);

            let ghost was_claimed = old(gateway).claims(txs@[i as int]);
            let mut r = match gateway.dispatch(adapter, tx) {
                Some(resp) => resp,
                None => Self::evm_exec(adapter, vm, &config, &precompiles, tx),
            };
            proof {
                assert(!was_claimed ==> evm_resp_shape(txs@[i as int], r));
            }

            r.logs = adapter.take_logs();
            proof {
                assert(!was_claimed ==> evm_resp_shape(txs@[i as int], r));
            }
            let ghost prev_res = res@;
            let ghost prev_rec = encode_receipts@;
            gas = gas.saturating_add(r.gas_used);
            fee = fee.saturating_add(r.fee_cost);

            let bloom = logs_bloom(&r.logs);
            let receipt = tx.encode_receipt(&r, bloom);
            encode_receipts.push(receipt);
            res.push(r);
            proof {
                assert(res@.drop_last() =~= prev_res);
                assert(encode_receipts@[i as int]@ == spec_receipt_of(txs@[i as int], res@[
                i as int]));
            }
            i += 1;
        }

        if block_number != 0 {
            distribute_fees(adapter, allocator, block_number, fee, validators);
        }

        gateway.after_block_hook(adapter);

        let new_state_root = adapter.commit();

        let receipt_root = receipts_trie_root(&encode_receipts);
        proof {
            if txs@.len() > 0 {
                assert(encode_receipts@.map_values(bytes_view_fn()) =~= receipts_of(txs@, res@));
            }
        }

        ExecResp { state_root: new_state_root, receipt_root, gas_used: gas, tx_resp: res }
    }
}

} // verus!
