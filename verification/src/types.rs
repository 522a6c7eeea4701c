//! Plain-value models of the primitive chain types: fixed-width byte strings,
//! accounts, logs, and the money type.

use vstd::prelude::*;

verus! {

/// A 20-byte address.
#[derive(Debug)]
pub struct H160 {
    pub v: Vec<u8>,
}

impl H160 {
    /// Well-formed: exactly 20 bytes.
    pub open spec fn wf(&self) -> bool {
        self.v@.len() == 20
    }

    pub fn zero() -> (r: H160)
        ensures
            r.wf(),
            forall|i: int| 0 <= i < 20 ==> r@[i] == 0u8,
    {
        let mut v: Vec<u8> = Vec::new();
        let mut i: usize = 0;
        while i < 20
            invariant
                i <= 20,
                v@.len() == i,
                forall|j: int| 0 <= j < i ==> v@[j] == 0u8,
            decreases 20 - i,
        {
            v.push(0u8);
            i += 1;
        }
        H160 { v }
    }

    pub fn eq(&self, other: &H160) -> (r: bool)
        ensures
            r <==> self@ == other@,
    {
        crate::bytes_eq(&self.v, &other.v)
    }
}

impl View for H160 {
    type V = Seq<u8>;

    open spec fn view(&self) -> Seq<u8> {
        self.v@
    }
}

impl Clone for H160 {
    fn clone(&self) -> (r: Self)
        ensures
            r@ == self@,
    {
        H160 { v: clone_bytes(&self.v) }
    }
}

/// A 32-byte hash or storage word.
#[derive(Debug)]
pub struct H256 {
    pub v: Vec<u8>,
}

impl H256 {
    /// Well-formed: exactly 32 bytes.
    pub open spec fn wf(&self) -> bool {
        self.v@.len() == 32
    }

    pub fn zero() -> (r: H256)
        ensures
            r.wf(),
            forall|i: int| 0 <= i < 32 ==> r@[i] == 0u8,
    {
        let mut v: Vec<u8> = Vec::new();
        let mut i: usize = 0;
        while i < 32
            invariant
                i <= 32,
                v@.len() == i,
                forall|j: int| 0 <= j < i ==> v@[j] == 0u8,
            decreases 32 - i,
        {
            v.push(0u8);
            i += 1;
        }
        H256 { v }
    }

    pub fn eq(&self, other: &H256) -> (r: bool)
        ensures
            r <==> self@ == other@,
    {
        crate::bytes_eq(&self.v, &other.v)
    }
}

impl View for H256 {
    type V = Seq<u8>;

    open spec fn view(&self) -> Seq<u8> {
        self.v@
    }
}

impl Clone for H256 {
    fn clone(&self) -> (r: Self)
        ensures
            r@ == self@,
    {
        H256 { v: clone_bytes(&self.v) }
    }
}

/// An uncompressed public key body: 64 bytes.
pub struct Public {
    pub v: Vec<u8>,
}

impl Public {
    /// Well-formed: exactly 64 bytes.
    pub open spec fn wf(&self) -> bool {
        self.v@.len() == 64
    }

    pub fn zero() -> (r: Public)
        ensures
            r.wf(),
            forall|i: int| 0 <= i < 64 ==> r@[i] == 0u8,
    {
        let mut v: Vec<u8> = Vec::new();
        let mut i: usize = 0;
        while i < 64
            invariant
                i <= 64,
                v@.len() == i,
                forall|j: int| 0 <= j < i ==> v@[j] == 0u8,
            decreases 64 - i,
        {
            v.push(0u8);
            i += 1;
        }
        Public { v }
    }
}

impl View for Public {
    type V = Seq<u8>;

    open spec fn view(&self) -> Seq<u8> {
        self.v@
    }
}

impl Clone for Public {
    fn clone(&self) -> (r: Self)
        ensures
            r@ == self@,
    {
        Public { v: clone_bytes(&self.v) }
    }
}

/// A 65-byte value: a tagged uncompressed public key.
pub struct H520 {
    pub v: Vec<u8>,
}

impl H520 {
    /// Well-formed: exactly 65 bytes.
    pub open spec fn wf(&self) -> bool {
        self.v@.len() == 65
    }
}

impl View for H520 {
    type V = Seq<u8>;

    open spec fn view(&self) -> Seq<u8> {
        self.v@
    }
}

/// The engine's money type; balances, values and fees saturate at its maximum.
pub type Amount = u128;

/// An account as the engine reads and writes it through the adapter.
pub struct Account {
    pub nonce: u64,
    pub balance: Amount,
}

impl Clone for Account {
    fn clone(&self) -> (r: Self)
        ensures
            r == *self,
    {
        Account { nonce: self.nonce, balance: self.balance }
    }
}

/// One emitted log: source address, topic words, payload.
pub struct Log {
    pub address: H160,
    pub topics: Vec<H256>,
    pub data: Vec<u8>,
}

/// The mathematical value of a log.
pub struct LogView {
    pub address: Seq<u8>,
    pub topics: Seq<Seq<u8>>,
    pub data: Seq<u8>,
}

/// The view of one topic word.
pub open spec fn topic_view_fn() -> spec_fn(H256) -> Seq<u8> {
    |k: H256| k@
}

/// The view of one log.
pub open spec fn log_view_fn() -> spec_fn(Log) -> LogView {
    |l: Log| l@
}

impl View for Log {
    type V = LogView;

    open spec fn view(&self) -> LogView {
        LogView {
            address: self.address@,
            topics: self.topics@.map_values(topic_view_fn()),
            data: self.data@,
        }
    }
}

impl Log {
    pub open spec fn wf(&self) -> bool {
        &&& self.address.wf()
        &&& forall|i: int| 0 <= i < self.topics@.len() ==> self.topics@[i].wf()
    }
}

/// How a transaction or call left the machine.
pub enum ExitSucceed {
    Stopped,
    Returned,
    Suicided,
}

/// Execution outcome of one transaction; failure here never fails the block.
pub enum ExitReason {
    Succeed(ExitSucceed),
    Revert,
    Error,
    Fatal,
}

impl ExitReason {
    pub open spec fn is_succeed_spec(&self) -> bool {
        self is Succeed
    }

    pub fn is_succeed(&self) -> (r: bool)
        ensures
            r == self.is_succeed_spec(),
    {
        matches!(self, ExitReason::Succeed(_))
    }
}

impl Clone for ExitReason {
    fn clone(&self) -> (r: Self)
        ensures
            r == *self,
    {
        match self {
            ExitReason::Succeed(ExitSucceed::Stopped) => ExitReason::Succeed(ExitSucceed::Stopped),
            ExitReason::Succeed(ExitSucceed::Returned) => ExitReason::Succeed(
                ExitSucceed::Returned,
            ),
            ExitReason::Succeed(ExitSucceed::Suicided) => ExitReason::Succeed(
                ExitSucceed::Suicided,
            ),
            ExitReason::Revert => ExitReason::Revert,
            ExitReason::Error => ExitReason::Error,
            ExitReason::Fatal => ExitReason::Fatal,
        }
    }
}

/// Per-transaction result.
pub struct TxResp {
    pub exit_reason: ExitReason,
    pub ret: Vec<u8>,
    pub remain_gas: u64,
    pub gas_used: u64,
    pub fee_cost: Amount,
    pub logs: Vec<Log>,
    pub code_address: Option<H160>,
    pub removed: bool,
}

/// Block-level aggregate result.
pub struct ExecResp {
    pub state_root: H256,
    pub receipt_root: H256,
    pub gas_used: u64,
    pub tx_resp: Vec<TxResp>,
}

/// A 2048-bit log filter, stored as 256 bytes.
pub struct Bloom {
    pub v: Vec<u8>,
}

impl Bloom {
    /// Well-formed: exactly 256 bytes.
    pub open spec fn wf(&self) -> bool {
        self.v@.len() == 256
    }
}

impl View for Bloom {
    type V = Seq<u8>;

    open spec fn view(&self) -> Seq<u8> {
        self.v@
    }
}

/// Saturation at the money type's maximum.
pub open spec fn cap_u128(x: int) -> int {
    if x > u128::MAX {
        u128::MAX as int
    } else {
        x
    }
}

/// Saturation at the gas type's maximum.
pub open spec fn cap_u64(x: int) -> int {
    if x > u64::MAX {
        u64::MAX as int
    } else {
        x
    }
}

/// Copy the byte range [from, to) of `a`.
pub fn copy_range(a: &Vec<u8>, from: usize, to: usize) -> (r: Vec<u8>)
    requires
        from <= to <= a@.len(),
    ensures
        r@ == a@.subrange(from as int, to as int),
{
    let mut r: Vec<u8> = Vec::new();
    let mut i: usize = from;
    while i < to
        invariant
            from <= i <= to <= a@.len(),
            r@ == a@.subrange(from as int, i as int),
        decreases to - i,
    {
        r.push(a[i]);
        assert(r@ =~= a@.subrange(from as int, i + 1));
        i += 1;
    }
    r
}

/// Copy a byte vector.
pub fn clone_bytes(a: &Vec<u8>) -> (r: Vec<u8>)
    ensures
        r@ == a@,
{
    let mut r: Vec<u8> = Vec::new();
    let n = a.len();
    let mut i: usize = 0;
    while i < n
        invariant
            n == a@.len(),
            i <= n,
            r@ == a@.take(i as int),
        decreases n - i,
    {
        r.push(a[i]);
        assert(r@ =~= a@.take(i + 1));
        i += 1;
    }
    assert(a@.take(n as int) =~= a@);
    r
}

} // verus!
