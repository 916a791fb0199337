//! The indexer's data model: tickers, balances, history entries, pending
//! transfers, rejected operations, and the state that owns them.
//!
//! Every record type has a ghost view (`...V`) over mathematical sequences
//! and integers; contracts and invariants speak of views only. Amounts are
//! fixed-point integers scaled by `10^decimals` (see [`crate::amount`]);
//! they are kept within 127 bits so that signed history deltas are always
//! representable.

use crate::bytes::is_lower;
use vstd::prelude::*;

verus! {

/// The kind of an append-only balance history record.
///
/// `Inscription` covers both mint credits (positive amount) and
/// transfer-inscribe reservations (negative amount, moving value from the
/// available to the transferable sub-balance). `Send` debits the
/// transferable sub-balance of the sender; `Receive` credits the available
/// sub-balance of the receiver.
#[derive(Clone, Copy, PartialEq, Eq, Structural, Debug)]
pub enum UserBalanceEntryType {
    Inscription,
    Send,
    Receive,
}

impl UserBalanceEntryType {
    /// The storage label of this entry kind.
    pub fn label_bytes(&self) -> (r: Vec<u8>)
        ensures
            self is Inscription ==> r@ == seq![
                105u8, 110u8, 115u8, 99u8, 114u8, 105u8, 112u8, 116u8, 105u8, 111u8, 110u8,
            ],
            self is Send ==> r@ == seq![115u8, 101u8, 110u8, 100u8],
            self is Receive ==> r@ == seq![114u8, 101u8, 99u8, 101u8, 105u8, 118u8, 101u8],
    {
        let mut v: Vec<u8> = Vec::new();
        match self {
            UserBalanceEntryType::Inscription => {
                v.push(105);
                v.push(110);
                v.push(115);
                v.push(99);
                v.push(114);
                v.push(105);
                v.push(112);
                v.push(116);
                v.push(105);
                v.push(111);
                v.push(110);
                proof {
                    assert(v@ =~= seq![
                        105u8, 110u8, 115u8, 99u8, 114u8, 105u8, 112u8, 116u8, 105u8, 111u8, 110u8,
                    ]);
                }
            },
            UserBalanceEntryType::Send => {
                v.push(115);
                v.push(101);
                v.push(110);
                v.push(100);
                proof {
                    assert(v@ =~= seq![115u8, 101u8, 110u8, 100u8]);
                }
            },
            UserBalanceEntryType::Receive => {
                v.push(114);
                v.push(101);
                v.push(99);
                v.push(101);
                v.push(105);
                v.push(118);
                v.push(101);
                proof {
                    assert(v@ =~= seq![114u8, 101u8, 99u8, 101u8, 105u8, 118u8, 101u8]);
                }
            },
        }
        v
    }
}

/// The reason a rejected operation is recorded with.
#[derive(Clone, Copy, PartialEq, Eq, Structural, Debug)]
pub enum InvalidReason {
    MalformedInscription,
    TickerNotFound,
    TickerAlreadyDeployed,
    AmountExceedsLimit,
    TickerFullyMinted,
    InsufficientAvailableBalance,
    UserBalanceNotFound,
    BadDecimalPrecision,
    UnresolvableAddress,
}

/// A parsed BRC-20 inscription payload: the JSON object's fields as byte
/// strings, absent fields as `None`.
#[derive(Clone, Debug, PartialEq, Eq)]
pub struct Brc20Inscription {
    pub p: Vec<u8>,
    pub op: Vec<u8>,
    pub tick: Vec<u8>,
    pub max: Option<Vec<u8>>,
    pub lim: Option<Vec<u8>>,
    pub dec: Option<Vec<u8>>,
    pub amt: Option<Vec<u8>>,
}

pub struct InscriptionV {
    pub p: Seq<u8>,
    pub op: Seq<u8>,
    pub tick: Seq<u8>,
    pub max: Option<Seq<u8>>,
    pub lim: Option<Seq<u8>>,
    pub dec: Option<Seq<u8>>,
    pub amt: Option<Seq<u8>>,
}

pub open spec fn opt_bytes_view(o: Option<Vec<u8>>) -> Option<Seq<u8>> {
    match o {
        Some(v) => Some(v@),
        None => None,
    }
}

impl View for Brc20Inscription {
    type V = InscriptionV;

    open spec fn view(&self) -> InscriptionV {
        InscriptionV {
            p: self.p@,
            op: self.op@,
            tick: self.tick@,
            max: opt_bytes_view(self.max),
            lim: opt_bytes_view(self.lim),
            dec: opt_bytes_view(self.dec),
            amt: opt_bytes_view(self.amt),
        }
    }
}

impl Brc20Inscription {
    /// A copy with the same view.
    pub fn duplicate(&self) -> (r: Brc20Inscription)
        ensures
            r@ == self@,
    {
        Brc20Inscription {
            p: crate::bytes::clone_bytes(&self.p),
            op: crate::bytes::clone_bytes(&self.op),
            tick: crate::bytes::clone_bytes(&self.tick),
            max: crate::bytes::clone_opt_bytes(&self.max),
            lim: crate::bytes::clone_opt_bytes(&self.lim),
            dec: crate::bytes::clone_opt_bytes(&self.dec),
            amt: crate::bytes::clone_opt_bytes(&self.amt),
        }
    }
}

/// A deployed ticker: deploy parameters and cumulative minted amount.
#[derive(Clone, Debug, PartialEq, Eq)]
pub struct Brc20Ticker {
    pub tick: Vec<u8>,
    pub max_supply: u128,
    pub limit: u128,
    pub decimals: u8,
    pub total_minted: u128,
    pub deploy_block_height: u64,
    pub deploy_tx_id: Vec<u8>,
}

pub struct TickerV {
    pub tick: Seq<u8>,
    pub max_supply: int,
    pub limit: int,
    pub decimals: int,
    pub total_minted: int,
    pub deploy_block_height: int,
    pub deploy_tx_id: Seq<u8>,
}

impl View for Brc20Ticker {
    type V = TickerV;

    open spec fn view(&self) -> TickerV {
        TickerV {
            tick: self.tick@,
            max_supply: self.max_supply as int,
            limit: self.limit as int,
            decimals: self.decimals as int,
            total_minted: self.total_minted as int,
            deploy_block_height: self.deploy_block_height as int,
            deploy_tx_id: self.deploy_tx_id@,
        }
    }
}

impl Brc20Ticker {
    /// A ticker record fresh from a deploy: nothing minted yet.
    pub fn new(
        tick: Vec<u8>,
        max_supply: u128,
        limit: u128,
        decimals: u8,
        deploy_block_height: u64,
        deploy_tx_id: Vec<u8>,
    ) -> (r: Brc20Ticker)
        ensures
            r@ == (TickerV {
                tick: tick@,
                max_supply: max_supply as int,
                limit: limit as int,
                decimals: decimals as int,
                total_minted: 0,
                deploy_block_height: deploy_block_height as int,
                deploy_tx_id: deploy_tx_id@,
            }),
    {
        Brc20Ticker {
            tick,
            max_supply,
            limit,
            decimals,
            total_minted: 0,
            deploy_block_height,
            deploy_tx_id,
        }
    }

    /// The canonical (lower-cased) ticker key.
    pub fn get_ticker(&self) -> (r: &Vec<u8>)
        ensures
            r@ == self@.tick,
    {
        &self.tick
    }
}

/// The three coupled sub-balances of one `(address, tick)` pair.
#[derive(Clone, Debug, PartialEq, Eq)]
pub struct UserBalance {
    pub address: Vec<u8>,
    pub tick: Vec<u8>,
    pub available_balance: u128,
    pub transferable_balance: u128,
    pub overall_balance: u128,
    pub block_height: u64,
}

pub struct BalanceV {
    pub address: Seq<u8>,
    pub tick: Seq<u8>,
    pub available: int,
    pub transferable: int,
    pub overall: int,
    pub block_height: int,
}

impl View for UserBalance {
    type V = BalanceV;

    open spec fn view(&self) -> BalanceV {
        BalanceV {
            address: self.address@,
            tick: self.tick@,
            available: self.available_balance as int,
            transferable: self.transferable_balance as int,
            overall: self.overall_balance as int,
            block_height: self.block_height as int,
        }
    }
}

impl UserBalance {
    pub fn get_available_balance(&self) -> (r: u128)
        ensures
            r as int == self@.available,
    {
        self.available_balance
    }

    pub fn get_transferable_balance(&self) -> (r: u128)
        ensures
            r as int == self@.transferable,
    {
        self.transferable_balance
    }

    pub fn get_overall_balance(&self) -> (r: u128)
        ensures
            r as int == self@.overall,
    {
        self.overall_balance
    }
}

/// One append-only history record; the ledger's current state is the fold
/// of these in order.
#[derive(Clone, Debug, PartialEq, Eq)]
pub struct UserBalanceEntry {
    pub address: Vec<u8>,
    pub tick: Vec<u8>,
    pub block_height: u64,
    pub amt: i128,
    pub entry_type: UserBalanceEntryType,
}

pub struct EntryV {
    pub address: Seq<u8>,
    pub tick: Seq<u8>,
    pub block_height: int,
    pub amt: int,
    pub entry_type: UserBalanceEntryType,
}

impl View for UserBalanceEntry {
    type V = EntryV;

    open spec fn view(&self) -> EntryV {
        EntryV {
            address: self.address@,
            tick: self.tick@,
            block_height: self.block_height as int,
            amt: self.amt as int,
            entry_type: self.entry_type,
        }
    }
}

impl UserBalanceEntry {
    pub fn new(
        address: Vec<u8>,
        tick: Vec<u8>,
        block_height: u64,
        amount: i128,
        entry_type: UserBalanceEntryType,
    ) -> (r: UserBalanceEntry)
        ensures
            r@ == (EntryV {
                address: address@,
                tick: tick@,
                block_height: block_height as int,
                amt: amount as int,
                entry_type: entry_type,
            }),
    {
        UserBalanceEntry { address, tick, block_height, amt: amount, entry_type }
    }
}

impl Default for UserBalanceEntry {
    fn default() -> (r: Self)
        ensures
            r@.address == Seq::<u8>::empty(),
            r@.tick == Seq::<u8>::empty(),
            r@.block_height == 0,
            r@.amt == 0,
            r@.entry_type == UserBalanceEntryType::Inscription,
    {
        UserBalanceEntry {
            address: Vec::new(),
            tick: Vec::new(),
            block_height: 0,
            amt: 0,
            entry_type: UserBalanceEntryType::Inscription,
        }
    }
}

/// An accepted (possibly clamped) mint.
#[derive(Clone, Debug, PartialEq, Eq)]
pub struct Brc20Mint {
    pub tick: Vec<u8>,
    pub address: Vec<u8>,
    pub amount: u128,
    pub clamped: bool,
    pub block_height: u64,
    pub tx_id: Vec<u8>,
}

pub struct MintV {
    pub tick: Seq<u8>,
    pub address: Seq<u8>,
    pub amount: int,
    pub clamped: bool,
    pub block_height: int,
    pub tx_id: Seq<u8>,
}

impl View for Brc20Mint {
    type V = MintV;

    open spec fn view(&self) -> MintV {
        MintV {
            tick: self.tick@,
            address: self.address@,
            amount: self.amount as int,
            clamped: self.clamped,
            block_height: self.block_height as int,
            tx_id: self.tx_id@,
        }
    }
}

/// Where a recorded transfer-inscribe stands: still pending, sent to a
/// receiver, or refunded to the inscriber because the spending output had
/// no derivable address.
#[derive(Clone, Debug, PartialEq, Eq)]
pub enum TransferStatus {
    Pending,
    Sent(Vec<u8>),
    Refunded,
}

pub enum TransferStatusV {
    Pending,
    Sent(Seq<u8>),
    Refunded,
}

pub open spec fn status_view(s: TransferStatus) -> TransferStatusV {
    match s {
        TransferStatus::Pending => TransferStatusV::Pending,
        TransferStatus::Sent(r) => TransferStatusV::Sent(r@),
        TransferStatus::Refunded => TransferStatusV::Refunded,
    }
}

/// An accepted transfer-inscribe and, once its outpoint is spent, the
/// outcome of the send. The inscription outpoint is `(tx_id, 0)`.
#[derive(Clone, Debug, PartialEq, Eq)]
pub struct Brc20Transfer {
    pub tx_id: Vec<u8>,
    pub tick: Vec<u8>,
    pub from: Vec<u8>,
    pub amt: u128,
    pub block_height: u64,
    pub status: TransferStatus,
}

pub struct TransferV {
    pub tx_id: Seq<u8>,
    pub tick: Seq<u8>,
    pub from: Seq<u8>,
    pub amt: int,
    pub block_height: int,
    pub status: TransferStatusV,
}

impl View for Brc20Transfer {
    type V = TransferV;

    open spec fn view(&self) -> TransferV {
        TransferV {
            tx_id: self.tx_id@,
            tick: self.tick@,
            from: self.from@,
            amt: self.amt as int,
            block_height: self.block_height as int,
            status: status_view(self.status),
        }
    }
}

/// A transfer-inscribe whose outpoint has not been spent yet; it holds
/// `amt` reserved on the inscriber's transferable sub-balance.
#[derive(Clone, Debug, PartialEq, Eq)]
pub struct Brc20ActiveTransfer {
    pub tx_id: Vec<u8>,
    pub vout: u32,
    pub tick: Vec<u8>,
    pub block_height: u64,
    pub from: Vec<u8>,
    pub amt: u128,
}

pub struct ActiveV {
    pub tx_id: Seq<u8>,
    pub vout: int,
    pub tick: Seq<u8>,
    pub block_height: int,
    pub from: Seq<u8>,
    pub amt: int,
}

impl View for Brc20ActiveTransfer {
    type V = ActiveV;

    open spec fn view(&self) -> ActiveV {
        ActiveV {
            tx_id: self.tx_id@,
            vout: self.vout as int,
            tick: self.tick@,
            block_height: self.block_height as int,
            from: self.from@,
            amt: self.amt as int,
        }
    }
}

impl Brc20ActiveTransfer {
    pub fn new(
        tx_id: Vec<u8>,
        vout: u32,
        tick: Vec<u8>,
        block_height: u64,
        from: Vec<u8>,
        amt: u128,
    ) -> (r: Brc20ActiveTransfer)
        ensures
            r@ == (ActiveV {
                tx_id: tx_id@,
                vout: vout as int,
                tick: tick@,
                block_height: block_height as int,
                from: from@,
                amt: amt as int,
            }),
    {
        Brc20ActiveTransfer { tx_id, vout, tick, block_height, from, amt }
    }
}

/// A rejected operation, kept for audit and never read by the validator.
#[derive(Clone, Debug, PartialEq, Eq)]
pub struct InvalidBrc20Tx {
    pub tx_id: Vec<u8>,
    pub inscription: Brc20Inscription,
    pub reason: InvalidReason,
    pub block_height: u64,
}

pub struct InvalidV {
    pub tx_id: Seq<u8>,
    pub inscription: InscriptionV,
    pub reason: InvalidReason,
    pub block_height: int,
}

impl View for InvalidBrc20Tx {
    type V = InvalidV;

    open spec fn view(&self) -> InvalidV {
        InvalidV {
            tx_id: self.tx_id@,
            inscription: self.inscription@,
            reason: self.reason,
            block_height: self.block_height as int,
        }
    }
}

/// The in-memory protocol state: everything the validator reads or writes.
#[derive(Debug, PartialEq, Eq)]
pub struct Brc20Index {
    pub tickers: Vec<Brc20Ticker>,
    pub balances: Vec<UserBalance>,
    pub active_transfers: Vec<Brc20ActiveTransfer>,
    pub mints: Vec<Brc20Mint>,
    pub transfers: Vec<Brc20Transfer>,
    pub entries: Vec<UserBalanceEntry>,
    pub invalids: Vec<InvalidBrc20Tx>,
}

pub struct IndexV {
    pub tickers: Seq<TickerV>,
    pub balances: Seq<BalanceV>,
    pub active: Seq<ActiveV>,
    pub mints: Seq<MintV>,
    pub transfers: Seq<TransferV>,
    pub entries: Seq<EntryV>,
    pub invalids: Seq<InvalidV>,
}

impl View for Brc20Index {
    type V = IndexV;

    open spec fn view(&self) -> IndexV {
        IndexV {
            tickers: self.tickers@.map_values(|t: Brc20Ticker| t@),
            balances: self.balances@.map_values(|b: UserBalance| b@),
            active: self.active_transfers@.map_values(|a: Brc20ActiveTransfer| a@),
            mints: self.mints@.map_values(|m: Brc20Mint| m@),
            transfers: self.transfers@.map_values(|t: Brc20Transfer| t@),
            entries: self.entries@.map_values(|e: UserBalanceEntry| e@),
            invalids: self.invalids@.map_values(|v: InvalidBrc20Tx| v@),
        }
    }
}

// ---------------------------------------------------------------------
// Lookups over views
// ---------------------------------------------------------------------

pub open spec fn ticker_at(ts: Seq<TickerV>, tick: Seq<u8>, i: int) -> bool {
    0 <= i < ts.len() && ts[i].tick == tick
}

pub open spec fn has_ticker(ts: Seq<TickerV>, tick: Seq<u8>) -> bool {
    exists|i: int| ticker_at(ts, tick, i)
}

pub open spec fn ticker_idx(ts: Seq<TickerV>, tick: Seq<u8>) -> int {
    choose|i: int| ticker_at(ts, tick, i)
}

pub open spec fn bal_at(bs: Seq<BalanceV>, addr: Seq<u8>, tick: Seq<u8>, i: int) -> bool {
    0 <= i < bs.len() && bs[i].address == addr && bs[i].tick == tick
}

pub open spec fn has_bal(bs: Seq<BalanceV>, addr: Seq<u8>, tick: Seq<u8>) -> bool {
    exists|i: int| bal_at(bs, addr, tick, i)
}

pub open spec fn bal_idx(bs: Seq<BalanceV>, addr: Seq<u8>, tick: Seq<u8>) -> int {
    choose|i: int| bal_at(bs, addr, tick, i)
}

pub open spec fn active_at(az: Seq<ActiveV>, txid: Seq<u8>, vout: int, i: int) -> bool {
    0 <= i < az.len() && az[i].tx_id == txid && az[i].vout == vout
}

pub open spec fn has_active(az: Seq<ActiveV>, txid: Seq<u8>, vout: int) -> bool {
    exists|i: int| active_at(az, txid, vout, i)
}

pub open spec fn active_idx(az: Seq<ActiveV>, txid: Seq<u8>, vout: int) -> int {
    choose|i: int| active_at(az, txid, vout, i)
}

pub open spec fn transfer_rec_at(ts: Seq<TransferV>, txid: Seq<u8>, i: int) -> bool {
    0 <= i < ts.len() && ts[i].tx_id == txid
}

pub open spec fn has_transfer_rec(ts: Seq<TransferV>, txid: Seq<u8>) -> bool {
    exists|i: int| transfer_rec_at(ts, txid, i)
}

pub open spec fn transfer_rec_idx(ts: Seq<TransferV>, txid: Seq<u8>) -> int {
    choose|i: int| transfer_rec_at(ts, txid, i)
}

// ---------------------------------------------------------------------
// Sums and folds
// ---------------------------------------------------------------------

/// The sum of `overall` over every balance row of `tick`.
pub open spec fn sum_overall(bs: Seq<BalanceV>, tick: Seq<u8>) -> int
    decreases bs.len(),
{
    if bs.len() == 0 {
        0
    } else {
        sum_overall(bs.drop_last(), tick) + if bs.last().tick == tick {
            bs.last().overall
        } else {
            0
        }
    }
}

/// The sum of credited amounts over every accepted mint of `tick`.
pub open spec fn sum_mints(ms: Seq<MintV>, tick: Seq<u8>) -> int
    decreases ms.len(),
{
    if ms.len() == 0 {
        0
    } else {
        sum_mints(ms.drop_last(), tick) + if ms.last().tick == tick {
            ms.last().amount
        } else {
            0
        }
    }
}

/// The sum of reserved amounts over every active transfer of
/// `(addr, tick)`.
pub open spec fn sum_active(az: Seq<ActiveV>, addr: Seq<u8>, tick: Seq<u8>) -> int
    decreases az.len(),
{
    if az.len() == 0 {
        0
    } else {
        sum_active(az.drop_last(), addr, tick) + if az.last().from == addr && az.last().tick
            == tick {
            az.last().amt
        } else {
            0
        }
    }
}

/// The `(available, transferable)` pair of the row keyed `(addr, tick)`,
/// `(0, 0)` where no row exists.
pub open spec fn bal_pair(bs: Seq<BalanceV>, addr: Seq<u8>, tick: Seq<u8>) -> (int, int)
    decreases bs.len(),
{
    if bs.len() == 0 {
        (0int, 0int)
    } else if bs.last().address == addr && bs.last().tick == tick {
        (bs.last().available, bs.last().transferable)
    } else {
        bal_pair(bs.drop_last(), addr, tick)
    }
}

/// One history record applied to an `(available, transferable)` pair.
pub open spec fn entry_apply(b: (int, int), e: EntryV) -> (int, int) {
    match e.entry_type {
        UserBalanceEntryType::Inscription => {
            if e.amt >= 0 {
                (b.0 + e.amt, b.1)
            } else {
                (b.0 + e.amt, b.1 - e.amt)
            }
        },
        UserBalanceEntryType::Send => (b.0, b.1 + e.amt),
        UserBalanceEntryType::Receive => (b.0 + e.amt, b.1),
    }
}

/// The `(available, transferable)` pair of `(addr, tick)` obtained by
/// folding the history in order from the empty ledger.
pub open spec fn fold_entries(es: Seq<EntryV>, addr: Seq<u8>, tick: Seq<u8>) -> (int, int)
    decreases es.len(),
{
    if es.len() == 0 {
        (0int, 0int)
    } else {
        let prev = fold_entries(es.drop_last(), addr, tick);
        if es.last().address == addr && es.last().tick == tick {
            entry_apply(prev, es.last())
        } else {
            prev
        }
    }
}

// ---------------------------------------------------------------------
// Well-formedness
// ---------------------------------------------------------------------

pub open spec fn ticker_wf(t: TickerV) -> bool {
    &&& t.tick.len() == 4
    &&& is_lower(t.tick)
    &&& 0 <= t.decimals <= 18
    &&& 1 <= t.limit <= t.max_supply
    &&& t.max_supply <= i128::MAX
    &&& 0 <= t.total_minted <= t.max_supply
}

pub open spec fn tickers_unique(ts: Seq<TickerV>) -> bool {
    forall|i: int, j: int|
        0 <= i < ts.len() && 0 <= j < ts.len() && #[trigger] ts[i].tick == #[trigger] ts[j].tick
            ==> i == j
}

pub open spec fn balances_unique(bs: Seq<BalanceV>) -> bool {
    forall|i: int, j: int|
        0 <= i < bs.len() && 0 <= j < bs.len() && #[trigger] bs[i].address == #[trigger] bs[j].address
            && bs[i].tick == bs[j].tick ==> i == j
}

pub open spec fn active_unique(az: Seq<ActiveV>) -> bool {
    forall|i: int, j: int|
        0 <= i < az.len() && 0 <= j < az.len() && #[trigger] az[i].tx_id == #[trigger] az[j].tx_id
            && az[i].vout == az[j].vout ==> i == j
}

pub open spec fn transfers_unique(ts: Seq<TransferV>) -> bool {
    forall|i: int, j: int|
        0 <= i < ts.len() && 0 <= j < ts.len() && #[trigger] ts[i].tx_id == #[trigger] ts[j].tx_id
            ==> i == j
}

impl IndexV {
    /// Every ticker row is well formed and ticks are unique keys.
    pub open spec fn wf_tickers(self) -> bool {
        &&& tickers_unique(self.tickers)
        &&& forall|i: int|
            0 <= i < self.tickers.len() ==> ticker_wf(#[trigger] self.tickers[i])
    }

    /// Balance rows: unique keys, non-negative sub-balances, the overall
    /// balance equal to their sum, and a deployed ticker behind each row.
    pub open spec fn wf_balances(self) -> bool {
        &&& balances_unique(self.balances)
        &&& forall|i: int|
            0 <= i < self.balances.len() ==> {
                let b = #[trigger] self.balances[i];
                &&& b.available >= 0
                &&& b.transferable >= 0
                &&& b.overall == b.available + b.transferable
                &&& has_ticker(self.tickers, b.tick)
            }
    }

    /// Conservation: for every ticker, the overall balances of all
    /// addresses sum to exactly the minted total (nothing is ever burned:
    /// a send to an unresolvable output refunds the inscriber).
    pub open spec fn wf_conservation(self) -> bool {
        forall|i: int|
            0 <= i < self.tickers.len() ==> sum_overall(
                self.balances,
                (#[trigger] self.tickers[i]).tick,
            ) == self.tickers[i].total_minted
    }

    /// Audit: every ticker's minted total is the sum of its accepted
    /// mint records, and each mint names a deployed ticker.
    pub open spec fn wf_mints(self) -> bool {
        &&& forall|i: int|
            0 <= i < self.tickers.len() ==> sum_mints(
                self.mints,
                (#[trigger] self.tickers[i]).tick,
            ) == self.tickers[i].total_minted
        &&& forall|i: int|
            0 <= i < self.mints.len() ==> has_ticker(
                self.tickers,
                (#[trigger] self.mints[i]).tick,
            )
    }

    /// The ledger is the fold of its history: for every key, folding the
    /// entries in order yields the stored sub-balances.
    pub open spec fn wf_fold(self) -> bool {
        forall|addr: Seq<u8>, tick: Seq<u8>|
            #[trigger] fold_entries(self.entries, addr, tick) == bal_pair(
                self.balances,
                addr,
                tick,
            )
    }

    /// The transferable sub-balance of every key is exactly the amount
    /// reserved by its live transfer-inscribes.
    pub open spec fn wf_reserved(self) -> bool {
        forall|addr: Seq<u8>, tick: Seq<u8>|
            #[trigger] sum_active(self.active, addr, tick) == bal_pair(
                self.balances,
                addr,
                tick,
            ).1
    }

    /// Active-transfer rows: unique outpoints, positive reserved amounts,
    /// inscription output index zero, a deployed ticker behind each.
    pub open spec fn wf_active(self) -> bool {
        &&& active_unique(self.active)
        &&& forall|i: int|
            0 <= i < self.active.len() ==> {
                let a = #[trigger] self.active[i];
                &&& a.amt >= 1
                &&& a.vout == 0
                &&& has_ticker(self.tickers, a.tick)
            }
    }

    /// The registry and the transfer records agree: an outpoint is active
    /// exactly while its (unique) transfer record is still pending.
    pub open spec fn wf_registry(self) -> bool {
        &&& transfers_unique(self.transfers)
        &&& forall|i: int|
            0 <= i < self.active.len() ==> {
                let a = #[trigger] self.active[i];
                &&& has_transfer_rec(self.transfers, a.tx_id)
                &&& self.transfers[transfer_rec_idx(self.transfers, a.tx_id)].status
                    == TransferStatusV::Pending
            }
        &&& forall|i: int|
            0 <= i < self.transfers.len() ==> {
                let t = #[trigger] self.transfers[i];
                &&& t.status == TransferStatusV::Pending ==> has_active(self.active, t.tx_id, 0)
                &&& t.amt >= 1
            }
    }

    /// The committed-state invariant: everything above at once.
    pub open spec fn wf(self) -> bool {
        &&& self.wf_tickers()
        &&& self.wf_balances()
        &&& self.wf_conservation()
        &&& self.wf_mints()
        &&& self.wf_fold()
        &&& self.wf_reserved()
        &&& self.wf_active()
        &&& self.wf_registry()
    }

    /// The empty state.
    pub open spec fn empty() -> IndexV {
        IndexV {
            tickers: Seq::empty(),
            balances: Seq::empty(),
            active: Seq::empty(),
            mints: Seq::empty(),
            transfers: Seq::empty(),
            entries: Seq::empty(),
            invalids: Seq::empty(),
        }
    }
}

/// The empty state satisfies the invariant.
pub proof fn lemma_empty_wf()
    ensures
        IndexV::empty().wf(),
{
    assert forall|addr: Seq<u8>, tick: Seq<u8>|
        #[trigger] fold_entries(IndexV::empty().entries, addr, tick) == bal_pair(
            IndexV::empty().balances,
            addr,
            tick,
        ) by {
        assert(fold_entries(IndexV::empty().entries, addr, tick) == (0int, 0int));
        assert(bal_pair(IndexV::empty().balances, addr, tick) == (0int, 0int));
    }
    assert forall|addr: Seq<u8>, tick: Seq<u8>|
        #[trigger] sum_active(IndexV::empty().active, addr, tick) == bal_pair(
            IndexV::empty().balances,
            addr,
            tick,
        ).1 by {
        assert(sum_active(IndexV::empty().active, addr, tick) == 0);
        assert(bal_pair(IndexV::empty().balances, addr, tick) == (0int, 0int));
    }
}

impl Brc20Index {
    /// A fresh, empty index.
    pub fn new() -> (r: Brc20Index)
        ensures
            r@ == IndexV::empty(),
            r@.wf(),
    {
        let r = Brc20Index {
            tickers: Vec::new(),
            balances: Vec::new(),
            active_transfers: Vec::new(),
            mints: Vec::new(),
            transfers: Vec::new(),
            entries: Vec::new(),
            invalids: Vec::new(),
        };
        proof {
            assert(r@.tickers =~= Seq::<TickerV>::empty());
            assert(r@.balances =~= Seq::<BalanceV>::empty());
            assert(r@.active =~= Seq::<ActiveV>::empty());
            assert(r@.mints =~= Seq::<MintV>::empty());
            assert(r@.transfers =~= Seq::<TransferV>::empty());
            assert(r@.entries =~= Seq::<EntryV>::empty());
            assert(r@.invalids =~= Seq::<InvalidV>::empty());
            lemma_empty_wf();
        }
        r
    }
}

} // verus!
