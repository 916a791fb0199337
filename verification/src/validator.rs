//! Executable validation: the deploy, mint, transfer-inscribe and
//! transfer-send rules applied to a [`Brc20Index`].
//!
//! Every function here is proved to compute exactly the corresponding
//! transition of [`crate::model`], and to carry the committed-state
//! invariant [`IndexV::wf`] along.

use crate::amount::parse_amount;
use crate::bytes::{bytes_eq, clone_bytes, to_lowercase_bytes};
use crate::invariants::{
    lemma_active_le_sum, lemma_bal_pair_absent, lemma_bal_pair_found, lemma_row_le_sum,
    lemma_ticker_idx_is, lemma_wf_deploy,
};
use crate::model::{deploy_verdict, push_invalid, spec_deploy};
use crate::state::{
    active_at, bal_at, bal_pair, has_active, has_bal, has_ticker, has_transfer_rec, ticker_at,
    ticker_idx, transfer_rec_at, Brc20Index, Brc20Inscription, Brc20Ticker, IndexV, InvalidBrc20Tx,
    InvalidReason, TickerV,
};
use vstd::prelude::*;

verus! {

impl Brc20Index {
    /// The index of the ticker row keyed by the (already canonical)
    /// `tick`, if any.
    pub fn find_ticker(&self, tick: &Vec<u8>) -> (r: Option<usize>)
        ensures
            match r {
                Some(i) => ticker_at(self@.tickers, tick@, i as int),
                None => !has_ticker(self@.tickers, tick@),
            },
    {
        let mut i: usize = 0;
        while i < self.tickers.len()
            invariant
                0 <= i <= self.tickers.len(),
                forall|j: int| 0 <= j < i ==> (#[trigger] self@.tickers[j]).tick != tick@,
            decreases self.tickers.len() - i,
        {
            if bytes_eq(&self.tickers[i].tick, tick) {
                return Some(i);
            }
            i = i + 1;
        }
        proof {
            if has_ticker(self@.tickers, tick@) {
                let k = choose|k: int| ticker_at(self@.tickers, tick@, k);
            }
        }
        None
    }

    /// The index of the balance row keyed `(addr, tick)`, if any.
    pub fn find_balance(&self, addr: &Vec<u8>, tick: &Vec<u8>) -> (r: Option<usize>)
        ensures
            match r {
                Some(i) => bal_at(self@.balances, addr@, tick@, i as int),
                None => !has_bal(self@.balances, addr@, tick@),
            },
    {
        let mut i: usize = 0;
        while i < self.balances.len()
            invariant
                0 <= i <= self.balances.len(),
                forall|j: int|
                    0 <= j < i ==> !((#[trigger] self@.balances[j]).address == addr@
                        && self@.balances[j].tick == tick@),
            decreases self.balances.len() - i,
        {
            if bytes_eq(&self.balances[i].address, addr) && bytes_eq(&self.balances[i].tick, tick) {
                return Some(i);
            }
            i = i + 1;
        }
        proof {
            if has_bal(self@.balances, addr@, tick@) {
                let k = choose|k: int| bal_at(self@.balances, addr@, tick@, k);
            }
        }
        None
    }

    /// The index of the active transfer keyed by the outpoint, if any.
    pub fn find_active(&self, txid: &Vec<u8>, vout: u32) -> (r: Option<usize>)
        ensures
            match r {
                Some(i) => active_at(self@.active, txid@, vout as int, i as int),
                None => !has_active(self@.active, txid@, vout as int),
            },
    {
        let mut i: usize = 0;
        while i < self.active_transfers.len()
            invariant
                0 <= i <= self.active_transfers.len(),
                forall|j: int|
                    0 <= j < i ==> !((#[trigger] self@.active[j]).tx_id == txid@
                        && self@.active[j].vout == vout as int),
            decreases self.active_transfers.len() - i,
        {
            if bytes_eq(&self.active_transfers[i].tx_id, txid) && self.active_transfers[i].vout
                == vout {
                return Some(i);
            }
            i = i + 1;
        }
        proof {
            if has_active(self@.active, txid@, vout as int) {
                let k = choose|k: int| active_at(self@.active, txid@, vout as int, k);
            }
        }
        None
    }

    /// The index of the transfer record keyed by its inscribe
    /// transaction id, if any.
    pub fn find_transfer_rec(&self, txid: &Vec<u8>) -> (r: Option<usize>)
        ensures
            match r {
                Some(i) => transfer_rec_at(self@.transfers, txid@, i as int),
                None => !has_transfer_rec(self@.transfers, txid@),
            },
    {
        let mut i: usize = 0;
        while i < self.transfers.len()
            invariant
                0 <= i <= self.transfers.len(),
                forall|j: int| 0 <= j < i ==> (#[trigger] self@.transfers[j]).tx_id != txid@,
            decreases self.transfers.len() - i,
        {
            if bytes_eq(&self.transfers[i].tx_id, txid) {
                return Some(i);
            }
            i = i + 1;
        }
        proof {
            if has_transfer_rec(self@.transfers, txid@) {
                let k = choose|k: int| transfer_rec_at(self@.transfers, txid@, k);
            }
        }
        None
    }

    /// Records a rejected operation and reports its reason.
    fn record_invalid(
        &mut self,
        insc: &Brc20Inscription,
        txid: &Vec<u8>,
        reason: InvalidReason,
        height: u64,
    ) -> (r: Result<(), InvalidReason>)
        ensures
            final(self)@ == push_invalid(old(self)@, insc@, txid@, reason, height as int),
            r == Err::<(), InvalidReason>(reason),
    {
        self.invalids.push(
            InvalidBrc20Tx {
                tx_id: clone_bytes(txid),
                inscription: insc.duplicate(),
                reason,
                block_height: height,
            },
        );
        proof {
            let s2 = push_invalid(old(self)@, insc@, txid@, reason, height as int);
            assert(self@.invalids =~= s2.invalids);
            assert(self@ == s2);
        }
        Err(reason)
    }

    /// A deploy operation: first deploy of a four-byte tick wins; `max`
    /// must be a positive in-range decimal, `lim` (default `max`)
    /// positive and at most `max`, `dec` (default 18) at most 18.
    ///
    /// Returns `Ok` exactly where `deploy_verdict` accepts, and the
    /// verdict's reason otherwise; the state becomes `spec_deploy` of the
    /// old state in either case.
    pub fn apply_deploy(
        &mut self,
        insc: &Brc20Inscription,
        txid: &Vec<u8>,
        height: u64,
    ) -> (r: Result<(), InvalidReason>)
        requires
            old(self)@.wf(),
        ensures
            final(self)@ == spec_deploy(old(self)@, insc@, txid@, height as int),
            final(self)@.wf(),
            (r is Ok) == (deploy_verdict(old(self)@, insc@) is None),
            r matches Err(e) ==> deploy_verdict(old(self)@, insc@) == Some(e),
    {
        proof {
            lemma_wf_deploy(old(self)@, insc@, txid@, height as int);
        }
        if insc.tick.len() != 4 {
            return self.record_invalid(insc, txid, InvalidReason::MalformedInscription, height);
        }
        let max_str = match &insc.max {
            Some(m) => m,
            None => {
                return self.record_invalid(
                    insc,
                    txid,
                    InvalidReason::MalformedInscription,
                    height,
                );
            },
        };
        let mut decimals: u8 = 18;
        if let Some(d) = &insc.dec {
            match parse_amount(d, 0) {
                Ok(v) => {
                    proof {
                        crate::amount::lemma_decimal_value_nonneg(d@, 0);
                    }
                    if v > 18 {
                        return self.record_invalid(
                            insc,
                            txid,
                            InvalidReason::MalformedInscription,
                            height,
                        );
                    }
                    decimals = v as u8;
                },
                Err(e) => {
                    return self.record_invalid(
                        insc,
                        txid,
                        crate::model::amount_reason_exec(e),
                        height,
                    );
                },
            }
        }
        let max_supply = match parse_amount(max_str, decimals) {
            Ok(v) => {
                proof {
                    crate::amount::lemma_decimal_value_nonneg(max_str@, decimals as int);
                }
                v
            },
            Err(e) => {
                return self.record_invalid(insc, txid, crate::model::amount_reason_exec(e), height);
            },
        };
        if max_supply == 0 || max_supply > (i128::MAX as u128) {
            return self.record_invalid(insc, txid, InvalidReason::MalformedInscription, height);
        }
        let limit = match &insc.lim {
            Some(l) => {
                match parse_amount(l, decimals) {
                    Ok(v) => {
                        proof {
                            crate::amount::lemma_decimal_value_nonneg(l@, decimals as int);
                        }
                        v
                    },
                    Err(e) => {
                        return self.record_invalid(
                            insc,
                            txid,
                            crate::model::amount_reason_exec(e),
                            height,
                        );
                    },
                }
            },
            None => max_supply,
        };
        if limit == 0 || limit > max_supply {
            return self.record_invalid(insc, txid, InvalidReason::MalformedInscription, height);
        }
        let key = to_lowercase_bytes(&insc.tick);
        if self.find_ticker(&key).is_some() {
            return self.record_invalid(insc, txid, InvalidReason::TickerAlreadyDeployed, height);
        }
        self.tickers.push(
            Brc20Ticker {
                tick: key,
                max_supply,
                limit,
                decimals,
                total_minted: 0,
                deploy_block_height: height,
                deploy_tx_id: clone_bytes(txid),
            },
        );
        proof {
            let s2 = spec_deploy(old(self)@, insc@, txid@, height as int);
            assert(self@.tickers =~= s2.tickers);
            assert(self@ == s2);
        }
        Ok(())
    }

    /// Credits `amt` to the available balance of `(addr, tick)`,
    /// creating the row if absent.
    fn credit_balance(&mut self, addr: &Vec<u8>, tick: &Vec<u8>, amt: u128, height: u64)
        requires
            crate::state::balances_unique(old(self)@.balances),
            forall|i: int|
                0 <= i < old(self)@.balances.len() ==> {
                    let b = #[trigger] old(self)@.balances[i];
                    b.overall == b.available + b.transferable
                },
            bal_pair(old(self)@.balances, addr@, tick@).0 + bal_pair(
                old(self)@.balances,
                addr@,
                tick@,
            ).1 + amt <= u128::MAX,
        ensures
            final(self)@ == (IndexV {
                balances: crate::model::credit_available(
                    old(self)@.balances,
                    addr@,
                    tick@,
                    amt as int,
                    height as int,
                ),
                ..old(self)@
            }),
    {
        match self.find_balance(addr, tick) {
            Some(bi) => {
                proof {
                    crate::invariants::lemma_bal_idx_is(self@.balances, addr@, tick@, bi as int);
                    lemma_bal_pair_found(self@.balances, bi as int);
                }
                let row = self.balances.remove(bi);
                let new_row = crate::state::UserBalance {
                    available_balance: row.available_balance + amt,
                    overall_balance: row.overall_balance + amt,
                    block_height: height,
                    ..row
                };
                self.balances.insert(bi, new_row);
                proof {
                    assert(self@.balances =~= crate::model::credit_available(
                        old(self)@.balances,
                        addr@,
                        tick@,
                        amt as int,
                        height as int,
                    ));
                }
            },
            None => {
                proof {
                    lemma_bal_pair_absent(self@.balances, addr@, tick@);
                }
                self.balances.push(
                    crate::state::UserBalance {
                        address: clone_bytes(addr),
                        tick: clone_bytes(tick),
                        available_balance: amt,
                        transferable_balance: 0,
                        overall_balance: amt,
                        block_height: height,
                    },
                );
                proof {
                    assert(self@.balances =~= crate::model::credit_available(
                        old(self)@.balances,
                        addr@,
                        tick@,
                        amt as int,
                        height as int,
                    ));
                }
            },
        }
    }

    /// A mint operation: credits the requested amount to the controlling
    /// address of the reveal transaction's first output, clamped to what
    /// remains under the ticker's cap.
    pub fn apply_mint(
        &mut self,
        insc: &Brc20Inscription,
        txid: &Vec<u8>,
        height: u64,
        minter: &Option<Vec<u8>>,
    ) -> (r: Result<(), InvalidReason>)
        requires
            old(self)@.wf(),
        ensures
            final(self)@ == crate::model::spec_mint(
                old(self)@,
                insc@,
                txid@,
                height as int,
                crate::state::opt_bytes_view(*minter),
            ),
            final(self)@.wf(),
            (r is Ok) == (crate::model::mint_verdict(
                old(self)@,
                insc@,
                crate::state::opt_bytes_view(*minter),
            ) is None),
            r matches Err(e) ==> crate::model::mint_verdict(
                old(self)@,
                insc@,
                crate::state::opt_bytes_view(*minter),
            ) == Some(e),
    {
        proof {
            crate::invariants::lemma_wf_mint(
                old(self)@,
                insc@,
                txid@,
                height as int,
                crate::state::opt_bytes_view(*minter),
            );
        }
        let key = to_lowercase_bytes(&insc.tick);
        let ti = match self.find_ticker(&key) {
            Some(i) => i,
            None => {
                return self.record_invalid(insc, txid, InvalidReason::TickerNotFound, height);
            },
        };
        proof {
            lemma_ticker_idx_is(self@.tickers, key@, ti as int);
            assert(crate::state::ticker_wf(self@.tickers[ti as int]));
        }
        let decimals = self.tickers[ti].decimals;
        let limit = self.tickers[ti].limit;
        let max_supply = self.tickers[ti].max_supply;
        let total_minted = self.tickers[ti].total_minted;
        let amt_str = match &insc.amt {
            Some(a) => a,
            None => {
                return self.record_invalid(
                    insc,
                    txid,
                    InvalidReason::MalformedInscription,
                    height,
                );
            },
        };
        let v = match parse_amount(amt_str, decimals) {
            Ok(v) => {
                proof {
                    crate::amount::lemma_decimal_value_nonneg(amt_str@, decimals as int);
                }
                v
            },
            Err(e) => {
                return self.record_invalid(insc, txid, crate::model::amount_reason_exec(e), height);
            },
        };
        if v == 0 {
            return self.record_invalid(insc, txid, InvalidReason::MalformedInscription, height);
        }
        if v > limit {
            return self.record_invalid(insc, txid, InvalidReason::AmountExceedsLimit, height);
        }
        let addr = match minter {
            Some(a) => a,
            None => {
                return self.record_invalid(insc, txid, InvalidReason::UnresolvableAddress, height);
            },
        };
        let remaining = max_supply - total_minted;
        if remaining == 0 {
            return self.record_invalid(insc, txid, InvalidReason::TickerFullyMinted, height);
        }
        let credited = if v > remaining {
            remaining
        } else {
            v
        };
        // advance the minted total
        let trow = self.tickers.remove(ti);
        let trow2 = Brc20Ticker { total_minted: trow.total_minted + credited, ..trow };
        self.tickers.insert(ti, trow2);
        proof {
            assert(self@.tickers =~= old(self)@.tickers.update(
                ti as int,
                TickerV { total_minted: total_minted + credited, ..old(self)@.tickers[ti as int] },
            ));
        }
        // record the accepted mint
        self.mints.push(
            crate::state::Brc20Mint {
                tick: clone_bytes(&key),
                address: clone_bytes(addr),
                amount: credited,
                clamped: v > credited,
                block_height: height,
                tx_id: clone_bytes(txid),
            },
        );
        // the credited row stays within the cap, which is within range
        proof {
            let ghost bs = self@.balances;
            assert(bs == old(self)@.balances);
            if has_bal(bs, addr@, key@) {
                let bi2 = crate::state::bal_idx(bs, addr@, key@);
                assert(bal_at(bs, addr@, key@, bi2));
                lemma_bal_pair_found(bs, bi2);
                lemma_row_le_sum(bs, bi2, key@);
                assert(crate::state::sum_overall(bs, key@) == total_minted);
            } else {
                lemma_bal_pair_absent(bs, addr@, key@);
            }
        }
        self.credit_balance(addr, &key, credited, height);
        // the history leg
        self.entries.push(
            crate::state::UserBalanceEntry::new(
                clone_bytes(addr),
                clone_bytes(&key),
                height,
                credited as i128,
                crate::state::UserBalanceEntryType::Inscription,
            ),
        );
        proof {
            let s2 = crate::model::spec_mint(
                old(self)@,
                insc@,
                txid@,
                height as int,
                crate::state::opt_bytes_view(*minter),
            );
            assert(self@.tickers =~= s2.tickers);
            assert(self@.mints =~= s2.mints);
            assert(self@.entries =~= s2.entries);
            assert(self@.balances == s2.balances);
            assert(self@ == s2);
        }
        Ok(())
    }

    /// A transfer-inscribe: reserves the amount on the inscriber's
    /// balance, registers the active transfer at `(txid, 0)` and its
    /// pending record, and appends the history leg.
    ///
    /// An inscription in a transaction whose id already carries a
    /// transfer record is ignored (its outpoint is already tracked; a
    /// chain with unique transaction ids cannot produce this).
    pub fn apply_transfer_inscribe(
        &mut self,
        insc: &Brc20Inscription,
        txid: &Vec<u8>,
        height: u64,
        inscriber: &Option<Vec<u8>>,
    ) -> (r: Result<(), InvalidReason>)
        requires
            old(self)@.wf(),
        ensures
            final(self)@ == crate::model::spec_inscribe(
                old(self)@,
                insc@,
                txid@,
                height as int,
                crate::state::opt_bytes_view(*inscriber),
            ),
            final(self)@.wf(),
            has_transfer_rec(old(self)@.transfers, txid@) ==> r is Ok,
            !has_transfer_rec(old(self)@.transfers, txid@) ==> (r is Ok)
                == (crate::model::inscribe_verdict(
                old(self)@,
                insc@,
                crate::state::opt_bytes_view(*inscriber),
            ) is None),
            !has_transfer_rec(old(self)@.transfers, txid@) && r is Err
                ==> crate::model::inscribe_verdict(
                old(self)@,
                insc@,
                crate::state::opt_bytes_view(*inscriber),
            ) == Some(r->Err_0),
    {
        proof {
            crate::invariants::lemma_wf_inscribe(
                old(self)@,
                insc@,
                txid@,
                height as int,
                crate::state::opt_bytes_view(*inscriber),
            );
        }
        if self.find_transfer_rec(txid).is_some() {
            return Ok(());
        }
        let key = to_lowercase_bytes(&insc.tick);
        let ti = match self.find_ticker(&key) {
            Some(i) => i,
            None => {
                return self.record_invalid(insc, txid, InvalidReason::TickerNotFound, height);
            },
        };
        proof {
            lemma_ticker_idx_is(self@.tickers, key@, ti as int);
            assert(crate::state::ticker_wf(self@.tickers[ti as int]));
        }
        let decimals = self.tickers[ti].decimals;
        let amt_str = match &insc.amt {
            Some(a) => a,
            None => {
                return self.record_invalid(
                    insc,
                    txid,
                    InvalidReason::MalformedInscription,
                    height,
                );
            },
        };
        let v = match parse_amount(amt_str, decimals) {
            Ok(v) => {
                proof {
                    crate::amount::lemma_decimal_value_nonneg(amt_str@, decimals as int);
                }
                v
            },
            Err(e) => {
                return self.record_invalid(insc, txid, crate::model::amount_reason_exec(e), height);
            },
        };
        if v == 0 {
            return self.record_invalid(insc, txid, InvalidReason::MalformedInscription, height);
        }
        let addr = match inscriber {
            Some(a) => a,
            None => {
                return self.record_invalid(insc, txid, InvalidReason::UnresolvableAddress, height);
            },
        };
        let bi = match self.find_balance(addr, &key) {
            Some(i) => i,
            None => {
                return self.record_invalid(insc, txid, InvalidReason::UserBalanceNotFound, height);
            },
        };
        proof {
            crate::invariants::lemma_bal_idx_is(self@.balances, addr@, key@, bi as int);
            lemma_bal_pair_found(self@.balances, bi as int);
        }
        if self.balances[bi].available_balance < v {
            return self.record_invalid(
                insc,
                txid,
                InvalidReason::InsufficientAvailableBalance,
                height,
            );
        }
        // the reserved amount stays within 127 bits: it is at most the
        // row's overall balance, which the cap bounds
        proof {
            lemma_row_le_sum(old(self)@.balances, bi as int, key@);
            assert(crate::state::sum_overall(old(self)@.balances, key@) == old(
                self,
            )@.tickers[ti as int].total_minted);
        }
        let row = self.balances.remove(bi);
        let row2 = crate::state::UserBalance {
            available_balance: row.available_balance - v,
            transferable_balance: row.transferable_balance + v,
            block_height: height,
            ..row
        };
        self.balances.insert(bi, row2);
        proof {
            assert(self@.balances =~= crate::model::reserve_amount(
                old(self)@.balances,
                addr@,
                key@,
                v as int,
                height as int,
            ));
        }
        self.entries.push(
            crate::state::UserBalanceEntry::new(
                clone_bytes(addr),
                clone_bytes(&key),
                height,
                -(v as i128),
                crate::state::UserBalanceEntryType::Inscription,
            ),
        );
        self.active_transfers.push(
            crate::state::Brc20ActiveTransfer::new(
                clone_bytes(txid),
                0,
                clone_bytes(&key),
                height,
                clone_bytes(addr),
                v,
            ),
        );
        self.transfers.push(
            crate::state::Brc20Transfer {
                tx_id: clone_bytes(txid),
                tick: clone_bytes(&key),
                from: clone_bytes(addr),
                amt: v,
                block_height: height,
                status: crate::state::TransferStatus::Pending,
            },
        );
        proof {
            let s2 = crate::model::spec_inscribe(
                old(self)@,
                insc@,
                txid@,
                height as int,
                crate::state::opt_bytes_view(*inscriber),
            );
            assert(self@.entries =~= s2.entries);
            assert(self@.active =~= s2.active);
            assert(self@.transfers =~= s2.transfers);
            assert(self@ == s2);
        }
        Ok(())
    }

    /// The spend of an outpoint: where it is an active transfer's, the
    /// reserved amount moves to the spending transaction's first-output
    /// address — or back to the inscriber's available balance where no
    /// address can be derived. Returns whether a send took place.
    pub fn apply_transfer_send(
        &mut self,
        txid: &Vec<u8>,
        vout: u32,
        height: u64,
        receiver: &Option<Vec<u8>>,
    ) -> (sent: bool)
        requires
            old(self)@.wf(),
        ensures
            final(self)@ == crate::model::spec_send(
                old(self)@,
                txid@,
                vout as int,
                height as int,
                crate::state::opt_bytes_view(*receiver),
            ),
            final(self)@.wf(),
            sent == has_active(old(self)@.active, txid@, vout as int),
    {
        proof {
            crate::invariants::lemma_wf_send(
                old(self)@,
                txid@,
                vout as int,
                height as int,
                crate::state::opt_bytes_view(*receiver),
            );
        }
        let ai = match self.find_active(txid, vout) {
            Some(i) => i,
            None => {
                return false;
            },
        };
        proof {
            crate::invariants::lemma_active_idx_is(self@.active, txid@, vout as int, ai as int);
        }
        let ghost av0 = old(self)@.active[ai as int];
        // facts from the invariant, all on the old state
        proof {
            assert(av0.amt >= 1 && has_ticker(old(self)@.tickers, av0.tick));
            lemma_active_le_sum(old(self)@.active, ai as int);
            assert(crate::state::sum_active(old(self)@.active, av0.from, av0.tick) == bal_pair(
                old(self)@.balances,
                av0.from,
                av0.tick,
            ).1);
            assert(has_bal(old(self)@.balances, av0.from, av0.tick)) by {
                if !has_bal(old(self)@.balances, av0.from, av0.tick) {
                    lemma_bal_pair_absent(old(self)@.balances, av0.from, av0.tick);
                }
            }
            let ti2 = ticker_idx(old(self)@.tickers, av0.tick);
            assert(ticker_at(old(self)@.tickers, av0.tick, ti2));
            assert(crate::state::ticker_wf(old(self)@.tickers[ti2]));
            assert(crate::state::sum_overall(old(self)@.balances, av0.tick) == old(
                self,
            )@.tickers[ti2].total_minted);
        }
        let a = self.active_transfers.remove(ai);
        proof {
            assert(a@ == av0);
            assert(self@.active =~= old(self)@.active.remove(ai as int));
        }
        // settle the transfer record
        let to_status = match receiver {
            Some(r) => crate::state::TransferStatus::Sent(clone_bytes(r)),
            None => crate::state::TransferStatus::Refunded,
        };
        match self.find_transfer_rec(&a.tx_id) {
            Some(ri) => {
                proof {
                    crate::invariants::lemma_transfer_rec_idx_is(
                        self@.transfers,
                        a.tx_id@,
                        ri as int,
                    );
                }
                let rec = self.transfers.remove(ri);
                let rec2 = crate::state::Brc20Transfer { status: to_status, ..rec };
                self.transfers.insert(ri, rec2);
                proof {
                    assert(self@.transfers =~= old(self)@.transfers.update(
                        ri as int,
                        crate::state::TransferV {
                            status: match *receiver {
                                Some(r) => crate::state::TransferStatusV::Sent(r@),
                                None => crate::state::TransferStatusV::Refunded,
                            },
                            ..old(self)@.transfers[ri as int]
                        },
                    ));
                }
            },
            None => {},
        }
        // debit the inscriber's reserved amount
        let bi = match self.find_balance(&a.from, &a.tick) {
            Some(i) => i,
            None => {
                // a live transfer always has its inscriber's row: its
                // reserved amount is positive (shown unreachable above)
                proof {
                    assert(false);
                }
                return true;
            },
        };
        proof {
            crate::invariants::lemma_bal_idx_is(self@.balances, a.from@, a.tick@, bi as int);
            lemma_bal_pair_found(self@.balances, bi as int);
            lemma_row_le_sum(old(self)@.balances, bi as int, a.tick@);
        }
        let row = self.balances.remove(bi);
        let row2 = crate::state::UserBalance {
            transferable_balance: row.transferable_balance - a.amt,
            overall_balance: row.overall_balance - a.amt,
            block_height: height,
            ..row
        };
        self.balances.insert(bi, row2);
        let ghost b1 = self@.balances;
        proof {
            assert(b1 =~= crate::model::debit_transferable(
                old(self)@.balances,
                av0.from,
                av0.tick,
                av0.amt,
                height as int,
            ));
        }
        // credit the receiver, or refund the inscriber
        let to_addr = match receiver {
            Some(r) => r,
            None => &a.from,
        };
        proof {
            // rows of the debited ledger still balance, and the credit
            // stays in range: the cap bounds both rows of this ticker
            assert(crate::state::balances_unique(b1)) by {
                assert forall|p: int, q: int|
                    0 <= p < b1.len() && 0 <= q < b1.len() && #[trigger] b1[p].address
                        == #[trigger] b1[q].address && b1[p].tick == b1[q].tick implies p == q by {
                    assert(old(self)@.balances[p].address == old(self)@.balances[q].address && old(
                        self,
                    )@.balances[p].tick == old(self)@.balances[q].tick);
                }
            }
            assert forall|i: int| 0 <= i < b1.len() implies {
                let b = #[trigger] b1[i];
                b.overall == b.available + b.transferable
            } by {
                let b0 = old(self)@.balances[i];
                assert(b0.overall == b0.available + b0.transferable);
            }
            if has_bal(b1, to_addr@, a.tick@) {
                let ci = crate::state::bal_idx(b1, to_addr@, a.tick@);
                assert(bal_at(b1, to_addr@, a.tick@, ci));
                lemma_bal_pair_found(b1, ci);
                crate::invariants::lemma_bal_pair_update(
                    old(self)@.balances,
                    bi as int,
                    b1[bi as int],
                    to_addr@,
                    a.tick@,
                );
                if to_addr@ == av0.from {
                    crate::invariants::lemma_bal_idx_is(b1, av0.from, av0.tick, bi as int);
                } else {
                    assert(bal_at(old(self)@.balances, to_addr@, a.tick@, ci));
                    crate::invariants::lemma_bal_pair_found(old(self)@.balances, ci);
                    crate::invariants::lemma_two_rows_le_sum(
                        old(self)@.balances,
                        ci,
                        bi as int,
                        a.tick@,
                    );
                }
            } else {
                lemma_bal_pair_absent(b1, to_addr@, a.tick@);
            }
        }
        self.credit_balance(to_addr, &a.tick, a.amt, height);
        // the two history legs
        self.entries.push(
            crate::state::UserBalanceEntry::new(
                clone_bytes(&a.from),
                clone_bytes(&a.tick),
                height,
                -(a.amt as i128),
                crate::state::UserBalanceEntryType::Send,
            ),
        );
        self.entries.push(
            crate::state::UserBalanceEntry::new(
                clone_bytes(to_addr),
                clone_bytes(&a.tick),
                height,
                a.amt as i128,
                crate::state::UserBalanceEntryType::Receive,
            ),
        );
        proof {
            let s2 = crate::model::spec_send(
                old(self)@,
                txid@,
                vout as int,
                height as int,
                crate::state::opt_bytes_view(*receiver),
            );
            assert(self@.entries =~= s2.entries);
            assert(self@.balances == s2.balances);
            assert(self@.active == s2.active);
            assert(self@.transfers == s2.transfers);
            assert(self@ == s2);
        }
        true
    }
}

} // verus!
