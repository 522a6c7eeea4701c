//! In-memory collaborators: an overlay backend over an association list, a
//! quiet gateway that only counts its hooks, a scripted machine, and a fixed
//! metadata handle. They give the executor's traits verified reference
//! implementations.

use vstd::prelude::*;

use crate::executor::{
    Backend, Config, ExecutorAdapter, MetadataHandle, StateDiff, SystemContractGateway, Vm, VmArgs,
    VmOutcome,
};
use crate::precompile::PrecompileSet;
use crate::types::{
    clone_bytes, log_view_fn, Account, Amount, ExitReason, ExitSucceed, Log, LogView, TxResp, H160,
    H256,
};
use crate::transaction::SignedTransaction;

verus! {

/// First match from the front; absent addresses read as the empty account.
pub open spec fn assoc_get(s: Seq<(H160, Account)>, a: Seq<u8>) -> Account
    decreases s.len(),
{
    if s.len() == 0 {
        Account { nonce: 0, balance: 0 }
    } else if s[0].0@ == a {
        s[0].1
    } else {
        assoc_get(s.drop_first(), a)
    }
}

impl Clone for Log {
    fn clone(&self) -> (r: Self)
        ensures
            r@ == self@,
    {
        let mut topics: Vec<H256> = Vec::new();
        let n = self.topics.len();
        let mut i: usize = 0;
        while i < n
            invariant
                n == self.topics@.len(),
                i <= n,
                topics@.map_values(crate::types::topic_view_fn()) == self.topics@.take(
                    i as int,
                ).map_values(crate::types::topic_view_fn()),
            decreases n - i,
        {
            let ghost prev = topics@;
            topics.push(self.topics[i].clone());
            proof {
                prev.lemma_push_map_commute(crate::types::topic_view_fn(), topics@.last());
                self.topics@.lemma_map_take_succ(crate::types::topic_view_fn(), i as int);
            }
            i += 1;
        }
        assert(self.topics@.take(n as int) =~= self.topics@);
        let r = Log {
            address: self.address.clone(),
            topics,
            data: clone_bytes(&self.data),
        };
        assert(r@ =~= self@);
        r
    }
}

/// An in-memory block overlay.
pub struct MemoryAdapter {
    pub accounts: Vec<(H160, Account)>,
    pub price: Amount,
    pub origin_address: H160,
    pub block: u64,
    pub logs: Vec<Log>,
    pub commits: Ghost<nat>,
}

impl MemoryAdapter {
    pub fn new(block: u64) -> (r: Self)
        ensures
            r.block_number_spec() == block,
            r.commit_count_spec() == 0,
            r.logs_spec() == Seq::<LogView>::empty(),
            forall|x: Seq<u8>| #[trigger] r.account_spec(x) == (Account { nonce: 0, balance: 0 }),
    {
        let r = MemoryAdapter {
            accounts: Vec::new(),
            price: 0,
            origin_address: H160::zero(),
            block,
            logs: Vec::new(),
            commits: Ghost(0),
        };
        proof {
            assert(r.logs@.map_values(log_view_fn()) =~= Seq::<LogView>::empty());
        }
        r
    }

    /// Buffer a log, as a system contract or a machine run would.
    pub fn push_log(&mut self, log: Log)
        ensures
            final(self).logs_spec() == old(self).logs_spec().push(log@),
            same_accounts_mem(old(self), final(self)),
    {
        let ghost prev = self.logs@;
        self.logs.push(log);
        proof {
            prev.lemma_push_map_commute(log_view_fn(), self.logs@.last());
        }
    }
}

/// Accounts unchanged between two overlay states.
pub open spec fn same_accounts_mem(a: &MemoryAdapter, b: &MemoryAdapter) -> bool {
    a.accounts@ == b.accounts@
}

impl Backend for MemoryAdapter {
    open spec fn account_spec(&self, a: Seq<u8>) -> Account {
        assoc_get(self.accounts@, a)
    }

    open spec fn storage_spec(&self, a: Seq<u8>, k: Seq<u8>) -> Seq<u8> {
        Seq::new(32, |i: int| 0u8)
    }

    open spec fn gas_price_spec(&self) -> Amount {
        self.price
    }

    open spec fn origin_spec(&self) -> Seq<u8> {
        self.origin_address@
    }

    open spec fn block_number_spec(&self) -> u64 {
        self.block
    }

    fn get_account(&self, address: &H160) -> (r: Account) {
        proof {
            assert(self.accounts@.skip(0) =~= self.accounts@);
        }
        let n = self.accounts.len();
        let mut i: usize = 0;
        while i < n
            invariant
                n == self.accounts@.len(),
                i <= n,
                assoc_get(self.accounts@, address@) == assoc_get(
                    self.accounts@.skip(i as int),
                    address@,
                ),
            decreases n - i,
        {
            proof {
                assert(self.accounts@.skip(i as int)[0] == self.accounts@[i as int]);
                assert(self.accounts@.skip(i as int).drop_first() =~= self.accounts@.skip(i + 1));
            }
            if self.accounts[i].0.eq(address) {
                return self.accounts[i].1.clone();
            }
            i += 1;
        }
        proof {
            assert(self.accounts@.skip(n as int) =~= Seq::<(H160, Account)>::empty());
        }
        Account { nonce: 0, balance: 0 }
    }

    fn storage(&self, address: &H160, key: &H256) -> (r: H256) {
        let z = H256::zero();
        assert(z@ =~= Seq::new(32, |i: int| 0u8));
        z
    }

    fn gas_price(&self) -> (r: Amount) {
        self.price
    }

    fn origin(&self) -> (r: H160) {
        self.origin_address.clone()
    }

    fn block_number(&self) -> (r: u64) {
        self.block
    }
}

impl ExecutorAdapter for MemoryAdapter {
    open spec fn logs_spec(&self) -> Seq<LogView> {
        self.logs@.map_values(log_view_fn())
    }

    open spec fn commit_count_spec(&self) -> nat {
        self.commits@
    }

    fn set_gas_price(&mut self, price: Amount) {
        self.price = price;
    }

    fn set_origin(&mut self, origin: &H160) {
        self.origin_address = origin.clone();
    }

    fn save_account(&mut self, address: &H160, account: &Account) {
        let pair = (address.clone(), account.clone());
        let ghost prev = self.accounts@;
        self.accounts.insert(0, pair);
        proof {
            assert(self.accounts@.drop_first() =~= prev);
            assert forall|x: Seq<u8>| #[trigger]
                self.account_spec(x) == if x == address@ {
                    *account
                } else {
                    old(self).account_spec(x)
                } by {
                assert(self.accounts@[0].0@ == address@);
            }
        }
    }

    fn take_logs(&mut self) -> (r: Vec<Log>) {
        let mut out: Vec<Log> = Vec::new();
        core::mem::swap(&mut out, &mut self.logs);
        proof {
            assert(self.logs@.map_values(log_view_fn()) =~= Seq::<LogView>::empty());
        }
        out
    }

    fn apply(&mut self, diff: StateDiff, logs: Vec<Log>, delete_empty: bool) {
        let n = diff.accounts.len();
        let mut i: usize = 0;
        while i < n
            invariant
                n == diff.accounts@.len(),
                i <= n,
                self.price == old(self).price,
                self.origin_address@ == old(self).origin_address@,
                self.block == old(self).block,
                self.logs@ == old(self).logs@,
                self.commits@ == old(self).commits@,
            decreases n - i,
        {
            let entry = &diff.accounts[i];
            let pair = (entry.0.clone(), entry.1.clone());
            self.accounts.insert(0, pair);
            i += 1;
        }
        let ghost mid_logs = self.logs@;
        let m = logs.len();
        let mut j: usize = 0;
        while j < m
            invariant
                m == logs@.len(),
                j <= m,
                self.price == old(self).price,
                self.origin_address@ == old(self).origin_address@,
                self.block == old(self).block,
                self.commits@ == old(self).commits@,
                self.logs@.map_values(log_view_fn()) == mid_logs.map_values(log_view_fn())
                    + logs@.take(j as int).map_values(log_view_fn()),
                mid_logs.map_values(log_view_fn()) == old(self).logs_spec(),
            decreases m - j,
        {
            let ghost prev = self.logs@;
            self.logs.push(logs[j].clone());
            proof {
                prev.lemma_push_map_commute(log_view_fn(), self.logs@.last());
                logs@.lemma_map_take_succ(log_view_fn(), j as int);
                assert(self.logs@.map_values(log_view_fn()) =~= mid_logs.map_values(log_view_fn())
                    + logs@.take(j + 1).map_values(log_view_fn()));
            }
            j += 1;
        }
        proof {
            assert(logs@.take(m as int) =~= logs@);
        }
    }

    fn commit(&mut self) -> (r: H256) {
        proof {
            assert(self.logs@.map_values(log_view_fn()) == old(self).logs_spec());
        }
        self.commits = Ghost(self.commits@ + 1);
        H256::zero()
    }
}

/// A gateway that claims nothing and only counts its hook invocations.
pub struct NoopGateway {
    pub before_runs: Ghost<nat>,
    pub after_runs: Ghost<nat>,
}

impl NoopGateway {
    pub fn new() -> (r: Self)
        ensures
            r.before_runs@ == 0,
            r.after_runs@ == 0,
    {
        NoopGateway { before_runs: Ghost(0), after_runs: Ghost(0) }
    }
}

impl<A: ExecutorAdapter> SystemContractGateway<A> for NoopGateway {
    open spec fn before_count(&self) -> nat {
        self.before_runs@
    }

    open spec fn after_count(&self) -> nat {
        self.after_runs@
    }

    open spec fn claims(&self, tx: SignedTransaction) -> bool {
        false
    }

    fn before_block_hook(&mut self, adapter: &mut A) {
        self.before_runs = Ghost(self.before_runs@ + 1);
    }

    fn after_block_hook(&mut self, adapter: &mut A) {
        self.after_runs = Ghost(self.after_runs@ + 1);
    }

    fn dispatch(&mut self, adapter: &mut A, tx: &SignedTransaction) -> (r: Option<TxResp>) {
        None
    }
}

/// A machine that replays scripted outcomes, clamped to the gas limit; once
/// the script runs out it stops cleanly, using no gas.
pub struct ScriptedVm {
    pub outcomes: Vec<VmOutcome>,
}

impl<A: Backend> Vm<A> for ScriptedVm {
    fn run(
        &mut self,
        backend: &A,
        config: &Config,
        precompiles: &PrecompileSet,
        args: &VmArgs,
    ) -> (r: VmOutcome) {
        if self.outcomes.len() > 0 {
            let mut o = self.outcomes.remove(0);
            if o.used_gas > args.gas_limit {
                o.used_gas = args.gas_limit;
            }
            if o.remain_gas > args.gas_limit {
                o.remain_gas = args.gas_limit;
            }
            o
        } else {
            VmOutcome {
                exit_reason: ExitReason::Succeed(ExitSucceed::Stopped),
                ret: Vec::new(),
                remain_gas: 0,
                used_gas: 0,
                logs: Vec::new(),
                diff: StateDiff { accounts: Vec::new() },
            }
        }
    }
}

/// A metadata handle answering a fixed creation-size limit.
pub struct StaticMetadata {
    pub limit: usize,
}

impl MetadataHandle for StaticMetadata {
    open spec fn contract_limit_spec(&self, root: Seq<u8>) -> usize {
        self.limit
    }

    fn max_contract_limit(&self, root: &H256) -> (r: usize) {
        self.limit
    }
}

} // verus!
