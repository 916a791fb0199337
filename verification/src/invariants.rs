//! Preservation of the committed-state invariant.
//!
//! The first half proves how the sums and folds of [`crate::state`] react
//! to pushing, updating and removing rows; the second half proves that
//! every transition of [`crate::model`] carries [`IndexV::wf`] along.

use crate::state::{
    active_at, active_idx, bal_at, bal_idx, bal_pair, balances_unique, entry_apply, fold_entries,
    has_active, has_bal, has_ticker, has_transfer_rec, sum_active, sum_mints, sum_overall,
    ticker_at, ticker_idx, tickers_unique, transfer_rec_at, transfer_rec_idx, transfers_unique,
    ActiveV, BalanceV, EntryV, IndexV, MintV, TickerV, TransferV,
};
use vstd::prelude::*;

verus! {

// ---------------------------------------------------------------------
// Lookup indices
// ---------------------------------------------------------------------

pub proof fn lemma_ticker_idx_is(ts: Seq<TickerV>, tick: Seq<u8>, i: int)
    requires
        tickers_unique(ts),
        ticker_at(ts, tick, i),
    ensures
        has_ticker(ts, tick),
        ticker_idx(ts, tick) == i,
{
    assert(has_ticker(ts, tick));
    let j = ticker_idx(ts, tick);
    assert(ticker_at(ts, tick, j));
    assert(ts[i].tick == ts[j].tick);
}

pub proof fn lemma_bal_idx_is(bs: Seq<BalanceV>, addr: Seq<u8>, tick: Seq<u8>, i: int)
    requires
        balances_unique(bs),
        bal_at(bs, addr, tick, i),
    ensures
        has_bal(bs, addr, tick),
        bal_idx(bs, addr, tick) == i,
{
    assert(has_bal(bs, addr, tick));
    let j = bal_idx(bs, addr, tick);
    assert(bal_at(bs, addr, tick, j));
    assert(bs[i].address == bs[j].address && bs[i].tick == bs[j].tick);
}

pub proof fn lemma_active_idx_is(az: Seq<ActiveV>, txid: Seq<u8>, vout: int, i: int)
    requires
        crate::state::active_unique(az),
        active_at(az, txid, vout, i),
    ensures
        has_active(az, txid, vout),
        active_idx(az, txid, vout) == i,
{
    assert(has_active(az, txid, vout));
    let j = active_idx(az, txid, vout);
    assert(active_at(az, txid, vout, j));
    assert(az[i].tx_id == az[j].tx_id && az[i].vout == az[j].vout);
}

pub proof fn lemma_transfer_rec_idx_is(ts: Seq<TransferV>, txid: Seq<u8>, i: int)
    requires
        transfers_unique(ts),
        transfer_rec_at(ts, txid, i),
    ensures
        has_transfer_rec(ts, txid),
        transfer_rec_idx(ts, txid) == i,
{
    assert(has_transfer_rec(ts, txid));
    let j = transfer_rec_idx(ts, txid);
    assert(transfer_rec_at(ts, txid, j));
    assert(ts[i].tx_id == ts[j].tx_id);
}

// ---------------------------------------------------------------------
// sum_overall
// ---------------------------------------------------------------------

pub proof fn lemma_sum_overall_push(bs: Seq<BalanceV>, b: BalanceV, tick: Seq<u8>)
    ensures
        sum_overall(bs.push(b), tick) == sum_overall(bs, tick) + if b.tick == tick {
            b.overall
        } else {
            0
        },
{
    assert(bs.push(b).drop_last() =~= bs);
    assert(bs.push(b).last() == b);
}

pub proof fn lemma_sum_overall_update(bs: Seq<BalanceV>, i: int, nb: BalanceV, tick: Seq<u8>)
    requires
        0 <= i < bs.len(),
    ensures
        sum_overall(bs.update(i, nb), tick) == sum_overall(bs, tick) - (if bs[i].tick == tick {
            bs[i].overall
        } else {
            0
        }) + (if nb.tick == tick {
            nb.overall
        } else {
            0
        }),
    decreases bs.len(),
{
    let u = bs.update(i, nb);
    if i == bs.len() - 1 {
        assert(u.drop_last() =~= bs.drop_last());
        assert(u.last() == nb);
    } else {
        assert(u.drop_last() =~= bs.drop_last().update(i, nb));
        assert(u.last() == bs.last());
        lemma_sum_overall_update(bs.drop_last(), i, nb, tick);
    }
}

pub proof fn lemma_sum_overall_nonneg(bs: Seq<BalanceV>, tick: Seq<u8>)
    requires
        forall|i: int| 0 <= i < bs.len() ==> (#[trigger] bs[i]).overall >= 0,
    ensures
        sum_overall(bs, tick) >= 0,
    decreases bs.len(),
{
    if bs.len() > 0 {
        lemma_sum_overall_nonneg(bs.drop_last(), tick);
    }
}

pub proof fn lemma_row_le_sum(bs: Seq<BalanceV>, i: int, tick: Seq<u8>)
    requires
        forall|k: int| 0 <= k < bs.len() ==> (#[trigger] bs[k]).overall >= 0,
        0 <= i < bs.len(),
        bs[i].tick == tick,
    ensures
        bs[i].overall <= sum_overall(bs, tick),
    decreases bs.len(),
{
    if i == bs.len() - 1 {
        lemma_sum_overall_nonneg(bs.drop_last(), tick);
    } else {
        lemma_row_le_sum(bs.drop_last(), i, tick);
    }
}

pub proof fn lemma_two_rows_le_sum(bs: Seq<BalanceV>, i: int, j: int, tick: Seq<u8>)
    requires
        forall|k: int| 0 <= k < bs.len() ==> (#[trigger] bs[k]).overall >= 0,
        0 <= i < bs.len(),
        0 <= j < bs.len(),
        i != j,
        bs[i].tick == tick,
        bs[j].tick == tick,
    ensures
        bs[i].overall + bs[j].overall <= sum_overall(bs, tick),
    decreases bs.len(),
{
    if j == bs.len() - 1 {
        lemma_row_le_sum(bs.drop_last(), i, tick);
    } else if i == bs.len() - 1 {
        lemma_row_le_sum(bs.drop_last(), j, tick);
    } else {
        lemma_two_rows_le_sum(bs.drop_last(), i, j, tick);
    }
}

pub proof fn lemma_sum_overall_no_such_tick(bs: Seq<BalanceV>, tick: Seq<u8>)
    requires
        forall|i: int| 0 <= i < bs.len() ==> (#[trigger] bs[i]).tick != tick,
    ensures
        sum_overall(bs, tick) == 0,
    decreases bs.len(),
{
    if bs.len() > 0 {
        lemma_sum_overall_no_such_tick(bs.drop_last(), tick);
    }
}

// ---------------------------------------------------------------------
// sum_mints
// ---------------------------------------------------------------------

pub proof fn lemma_sum_mints_push(ms: Seq<MintV>, m: MintV, tick: Seq<u8>)
    ensures
        sum_mints(ms.push(m), tick) == sum_mints(ms, tick) + if m.tick == tick {
            m.amount
        } else {
            0
        },
{
    assert(ms.push(m).drop_last() =~= ms);
    assert(ms.push(m).last() == m);
}

pub proof fn lemma_sum_mints_no_such_tick(ms: Seq<MintV>, tick: Seq<u8>)
    requires
        forall|i: int| 0 <= i < ms.len() ==> (#[trigger] ms[i]).tick != tick,
    ensures
        sum_mints(ms, tick) == 0,
    decreases ms.len(),
{
    if ms.len() > 0 {
        lemma_sum_mints_no_such_tick(ms.drop_last(), tick);
    }
}

// ---------------------------------------------------------------------
// sum_active
// ---------------------------------------------------------------------

pub proof fn lemma_sum_active_push(az: Seq<ActiveV>, a: ActiveV, addr: Seq<u8>, tick: Seq<u8>)
    ensures
        sum_active(az.push(a), addr, tick) == sum_active(az, addr, tick) + if a.from == addr
            && a.tick == tick {
            a.amt
        } else {
            0
        },
{
    assert(az.push(a).drop_last() =~= az);
    assert(az.push(a).last() == a);
}

pub proof fn lemma_sum_active_remove(az: Seq<ActiveV>, i: int, addr: Seq<u8>, tick: Seq<u8>)
    requires
        0 <= i < az.len(),
    ensures
        sum_active(az.remove(i), addr, tick) == sum_active(az, addr, tick) - (if az[i].from == addr
            && az[i].tick == tick {
            az[i].amt
        } else {
            0
        }),
    decreases az.len(),
{
    let u = az.remove(i);
    if i == az.len() - 1 {
        assert(u =~= az.drop_last());
    } else {
        assert(u.drop_last() =~= az.drop_last().remove(i));
        assert(u.last() == az.last());
        lemma_sum_active_remove(az.drop_last(), i, addr, tick);
    }
}

pub proof fn lemma_sum_active_nonneg(az: Seq<ActiveV>, addr: Seq<u8>, tick: Seq<u8>)
    requires
        forall|i: int| 0 <= i < az.len() ==> (#[trigger] az[i]).amt >= 0,
    ensures
        sum_active(az, addr, tick) >= 0,
    decreases az.len(),
{
    if az.len() > 0 {
        lemma_sum_active_nonneg(az.drop_last(), addr, tick);
    }
}

pub proof fn lemma_active_le_sum(az: Seq<ActiveV>, i: int)
    requires
        forall|k: int| 0 <= k < az.len() ==> (#[trigger] az[k]).amt >= 0,
        0 <= i < az.len(),
    ensures
        az[i].amt <= sum_active(az, az[i].from, az[i].tick),
    decreases az.len(),
{
    if i == az.len() - 1 {
        lemma_sum_active_nonneg(az.drop_last(), az[i].from, az[i].tick);
    } else {
        lemma_active_le_sum(az.drop_last(), i);
    }
}

// ---------------------------------------------------------------------
// bal_pair
// ---------------------------------------------------------------------

pub proof fn lemma_bal_pair_push(bs: Seq<BalanceV>, b: BalanceV, addr: Seq<u8>, tick: Seq<u8>)
    ensures
        bal_pair(bs.push(b), addr, tick) == if b.address == addr && b.tick == tick {
            (b.available, b.transferable)
        } else {
            bal_pair(bs, addr, tick)
        },
{
    assert(bs.push(b).drop_last() =~= bs);
    assert(bs.push(b).last() == b);
}

pub proof fn lemma_bal_pair_update(
    bs: Seq<BalanceV>,
    i: int,
    nb: BalanceV,
    addr: Seq<u8>,
    tick: Seq<u8>,
)
    requires
        balances_unique(bs),
        0 <= i < bs.len(),
        nb.address == bs[i].address,
        nb.tick == bs[i].tick,
    ensures
        bal_pair(bs.update(i, nb), addr, tick) == if bs[i].address == addr && bs[i].tick == tick {
            (nb.available, nb.transferable)
        } else {
            bal_pair(bs, addr, tick)
        },
    decreases bs.len(),
{
    let u = bs.update(i, nb);
    if i == bs.len() - 1 {
        assert(u.drop_last() =~= bs.drop_last());
        assert(u.last() == nb);
    } else {
        assert(u.drop_last() =~= bs.drop_last().update(i, nb));
        assert(u.last() == bs.last());
        if bs.last().address == addr && bs.last().tick == tick {
            // the scan stops at the last row, which is not row i
            if bs[i].address == addr && bs[i].tick == tick {
                assert(bs[i].address == bs[bs.len() - 1].address && bs[i].tick == bs[bs.len()
                    - 1].tick);
                assert(i == bs.len() - 1);
            }
        } else {
            assert(balances_unique(bs.drop_last())) by {
                assert(forall|p: int, q: int|
                    0 <= p < bs.drop_last().len() && 0 <= q < bs.drop_last().len() ==> {
                        &&& #[trigger] bs.drop_last()[p] == bs[p]
                        &&& #[trigger] bs.drop_last()[q] == bs[q]
                    });
            }
            lemma_bal_pair_update(bs.drop_last(), i, nb, addr, tick);
        }
    }
}

pub proof fn lemma_bal_pair_absent(bs: Seq<BalanceV>, addr: Seq<u8>, tick: Seq<u8>)
    requires
        !has_bal(bs, addr, tick),
    ensures
        bal_pair(bs, addr, tick) == (0int, 0int),
    decreases bs.len(),
{
    if bs.len() > 0 {
        assert(!(bs.last().address == addr && bs.last().tick == tick)) by {
            if bs.last().address == addr && bs.last().tick == tick {
                assert(bal_at(bs, addr, tick, bs.len() - 1));
            }
        }
        assert(!has_bal(bs.drop_last(), addr, tick)) by {
            if has_bal(bs.drop_last(), addr, tick) {
                let k = choose|k: int| bal_at(bs.drop_last(), addr, tick, k);
                assert(bs.drop_last()[k] == bs[k]);
                assert(bal_at(bs, addr, tick, k));
            }
        }
        lemma_bal_pair_absent(bs.drop_last(), addr, tick);
    }
}

pub proof fn lemma_bal_pair_found(bs: Seq<BalanceV>, i: int)
    requires
        balances_unique(bs),
        0 <= i < bs.len(),
    ensures
        bal_pair(bs, bs[i].address, bs[i].tick) == (bs[i].available, bs[i].transferable),
    decreases bs.len(),
{
    if i == bs.len() - 1 {
    } else {
        if bs.last().address == bs[i].address && bs.last().tick == bs[i].tick {
            assert(i == bs.len() - 1);
        }
        assert(balances_unique(bs.drop_last())) by {
            assert(forall|p: int, q: int|
                0 <= p < bs.drop_last().len() && 0 <= q < bs.drop_last().len() ==> {
                    &&& #[trigger] bs.drop_last()[p] == bs[p]
                    &&& #[trigger] bs.drop_last()[q] == bs[q]
                });
        }
        lemma_bal_pair_found(bs.drop_last(), i);
        assert(bs.drop_last()[i] == bs[i]);
    }
}

// ---------------------------------------------------------------------
// fold_entries
// ---------------------------------------------------------------------

pub proof fn lemma_fold_entries_push(es: Seq<EntryV>, e: EntryV, addr: Seq<u8>, tick: Seq<u8>)
    ensures
        fold_entries(es.push(e), addr, tick) == if e.address == addr && e.tick == tick {
            entry_apply(fold_entries(es, addr, tick), e)
        } else {
            fold_entries(es, addr, tick)
        },
{
    assert(es.push(e).drop_last() =~= es);
    assert(es.push(e).last() == e);
}

// ---------------------------------------------------------------------
// has_ticker under ticker-sequence changes
// ---------------------------------------------------------------------

pub proof fn lemma_has_ticker_push(ts: Seq<TickerV>, nt: TickerV, tick: Seq<u8>)
    requires
        has_ticker(ts, tick),
    ensures
        has_ticker(ts.push(nt), tick),
{
    let k = choose|k: int| ticker_at(ts, tick, k);
    assert(ticker_at(ts.push(nt), tick, k));
}

/// Two ticker sequences with the same keys admit the same lookups.
pub proof fn lemma_has_ticker_same_ticks(ts: Seq<TickerV>, ts2: Seq<TickerV>, tick: Seq<u8>)
    requires
        ts.len() == ts2.len(),
        forall|j: int| 0 <= j < ts.len() ==> (#[trigger] ts2[j]).tick == ts[j].tick,
    ensures
        has_ticker(ts, tick) == has_ticker(ts2, tick),
{
    if has_ticker(ts, tick) {
        let k = choose|k: int| ticker_at(ts, tick, k);
        assert(ticker_at(ts2, tick, k));
    }
    if has_ticker(ts2, tick) {
        let k = choose|k: int| ticker_at(ts2, tick, k);
        assert(ticker_at(ts, tick, k));
    }
}

// ---------------------------------------------------------------------
// Preservation: rejected operations
// ---------------------------------------------------------------------

/// Recording a rejected operation touches only the audit log.
pub proof fn lemma_wf_push_invalid(
    s: IndexV,
    insc: crate::state::InscriptionV,
    txid: Seq<u8>,
    reason: crate::state::InvalidReason,
    height: int,
)
    requires
        s.wf(),
    ensures
        crate::model::push_invalid(s, insc, txid, reason, height).wf(),
{
    let s2 = crate::model::push_invalid(s, insc, txid, reason, height);
    assert(s2.tickers == s.tickers);
    assert(s2.balances == s.balances);
    assert(s2.active == s.active);
    assert(s2.mints == s.mints);
    assert(s2.transfers == s.transfers);
    assert(s2.entries == s.entries);
}

// ---------------------------------------------------------------------
// Preservation: deploy
// ---------------------------------------------------------------------

pub proof fn lemma_wf_deploy(s: IndexV, insc: crate::state::InscriptionV, txid: Seq<u8>, height: int)
    requires
        s.wf(),
    ensures
        crate::model::spec_deploy(s, insc, txid, height).wf(),
{
    let s2 = crate::model::spec_deploy(s, insc, txid, height);
    match crate::model::deploy_verdict(s, insc) {
        Some(r) => {
            lemma_wf_push_invalid(s, insc, txid, r, height);
        },
        None => {
            let key = crate::bytes::lower_bytes(insc.tick);
            let dec = crate::model::deploy_decimals(insc);
            let maxv = crate::amount::decimal_value(insc.max->Some_0, dec);
            let limv = crate::model::deploy_limit(insc);
            assert(s2.balances == s.balances);
            assert(s2.entries == s.entries);
            assert(s2.active == s.active);
            assert(s2.mints == s.mints);
            assert(s2.transfers == s.transfers);
            let nt = s2.tickers.last();
            assert(s2.tickers == s.tickers.push(nt));
            assert(!has_ticker(s.tickers, key));
            // the new row is well formed
            crate::bytes::lemma_lower_bytes_is_lower(insc.tick);
            if insc.dec is Some {
                crate::amount::lemma_decimal_value_nonneg(insc.dec->Some_0, 0);
            }
            crate::amount::lemma_decimal_value_nonneg(insc.max->Some_0, dec);
            if insc.lim is Some {
                crate::amount::lemma_decimal_value_nonneg(insc.lim->Some_0, dec);
            }
            assert(crate::state::ticker_wf(nt));
            // keys stay unique: the new key was not deployed
            assert forall|i: int, j: int|
                0 <= i < s2.tickers.len() && 0 <= j < s2.tickers.len()
                    && #[trigger] s2.tickers[i].tick == #[trigger] s2.tickers[j].tick implies i
                == j by {
                if i < s.tickers.len() && j < s.tickers.len() {
                    assert(s.tickers[i].tick == s.tickers[j].tick);
                } else if i < s.tickers.len() && j == s.tickers.len() {
                    assert(ticker_at(s.tickers, key, i));
                } else if j < s.tickers.len() && i == s.tickers.len() {
                    assert(ticker_at(s.tickers, key, j));
                }
            }
            assert forall|i: int| 0 <= i < s2.tickers.len() implies crate::state::ticker_wf(
                #[trigger] s2.tickers[i],
            ) by {
                if i < s.tickers.len() {
                    assert(crate::state::ticker_wf(s.tickers[i]));
                }
            }
            // every balance row still has a ticker
            assert forall|i: int| 0 <= i < s2.balances.len() implies has_ticker(
                s2.tickers,
                (#[trigger] s2.balances[i]).tick,
            ) by {
                assert(has_ticker(s.tickers, s.balances[i].tick));
                lemma_has_ticker_push(s.tickers, nt, s.balances[i].tick);
            }
            // conservation: untouched tickers keep their sums; the new
            // ticker has no balance rows and no mints yet
            assert forall|i: int| 0 <= i < s2.tickers.len() implies sum_overall(
                s2.balances,
                (#[trigger] s2.tickers[i]).tick,
            ) == s2.tickers[i].total_minted by {
                if i < s.tickers.len() {
                    assert(sum_overall(s.balances, s.tickers[i].tick) == s.tickers[i].total_minted);
                } else {
                    assert forall|k: int| 0 <= k < s.balances.len() implies (
                    #[trigger] s.balances[k]).tick != key by {
                        if s.balances[k].tick == key {
                            assert(has_ticker(s.tickers, s.balances[k].tick));
                        }
                    }
                    lemma_sum_overall_no_such_tick(s.balances, key);
                }
            }
            assert forall|i: int| 0 <= i < s2.tickers.len() implies sum_mints(
                s2.mints,
                (#[trigger] s2.tickers[i]).tick,
            ) == s2.tickers[i].total_minted by {
                if i < s.tickers.len() {
                    assert(sum_mints(s.mints, s.tickers[i].tick) == s.tickers[i].total_minted);
                } else {
                    assert forall|k: int| 0 <= k < s.mints.len() implies (
                    #[trigger] s.mints[k]).tick != key by {
                        if s.mints[k].tick == key {
                            assert(has_ticker(s.tickers, s.mints[k].tick));
                        }
                    }
                    lemma_sum_mints_no_such_tick(s.mints, key);
                }
            }
            assert forall|i: int| 0 <= i < s2.mints.len() implies has_ticker(
                s2.tickers,
                (#[trigger] s2.mints[i]).tick,
            ) by {
                assert(has_ticker(s.tickers, s.mints[i].tick));
                lemma_has_ticker_push(s.tickers, nt, s.mints[i].tick);
            }
            assert forall|i: int| 0 <= i < s2.active.len() implies has_ticker(
                s2.tickers,
                (#[trigger] s2.active[i]).tick,
            ) by {
                assert(has_ticker(s.tickers, s.active[i].tick));
                lemma_has_ticker_push(s.tickers, nt, s.active[i].tick);
            }
            assert(s2.wf_fold()) by {
                assert forall|addr: Seq<u8>, tick: Seq<u8>|
                    #[trigger] fold_entries(s2.entries, addr, tick) == bal_pair(
                        s2.balances,
                        addr,
                        tick,
                    ) by {
                    assert(fold_entries(s.entries, addr, tick) == bal_pair(
                        s.balances,
                        addr,
                        tick,
                    ));
                }
            }
            assert(s2.wf_reserved()) by {
                assert forall|addr: Seq<u8>, tick: Seq<u8>|
                    #[trigger] sum_active(s2.active, addr, tick) == bal_pair(
                        s2.balances,
                        addr,
                        tick,
                    ).1 by {
                    assert(sum_active(s.active, addr, tick) == bal_pair(s.balances, addr, tick).1);
                }
            }
        },
    }
}

// ---------------------------------------------------------------------
// Preservation: mint
// ---------------------------------------------------------------------

pub proof fn lemma_wf_mint(
    s: IndexV,
    insc: crate::state::InscriptionV,
    txid: Seq<u8>,
    height: int,
    out0: Option<Seq<u8>>,
)
    requires
        s.wf(),
    ensures
        crate::model::spec_mint(s, insc, txid, height, out0).wf(),
{
    let s2 = crate::model::spec_mint(s, insc, txid, height, out0);
    match crate::model::mint_verdict(s, insc, out0) {
        Some(r) => {
            lemma_wf_push_invalid(s, insc, txid, r, height);
        },
        None => {
            let key = crate::bytes::lower_bytes(insc.tick);
            let ti = ticker_idx(s.tickers, key);
            let t = s.tickers[ti];
            let v = crate::amount::decimal_value(insc.amt->Some_0, t.decimals);
            let c = crate::model::mint_credited(s, insc);
            let addr = out0->Some_0;
            assert(ticker_at(s.tickers, key, ti));
            crate::amount::lemma_decimal_value_nonneg(insc.amt->Some_0, t.decimals);
            assert(1 <= c && c <= t.max_supply - t.total_minted);
            let nt = TickerV { total_minted: t.total_minted + c, ..t };
            assert(s2.tickers == s.tickers.update(ti, nt));
            assert(s2.mints == s.mints.push(s2.mints.last()));
            let nm = s2.mints.last();
            assert(s2.balances == crate::model::credit_available(s.balances, addr, key, c, height));
            assert(s2.entries == s.entries.push(s2.entries.last()));
            let ne = s2.entries.last();
            assert(s2.active == s.active);
            assert(s2.transfers == s.transfers);
            // ticker rows keep their keys
            assert(forall|j: int|
                0 <= j < s2.tickers.len() ==> (#[trigger] s2.tickers[j]).tick == s.tickers[j].tick);
            assert forall|i: int, j: int|
                0 <= i < s2.tickers.len() && 0 <= j < s2.tickers.len()
                    && #[trigger] s2.tickers[i].tick == #[trigger] s2.tickers[j].tick implies i
                == j by {
                assert(s.tickers[i].tick == s.tickers[j].tick);
            }
            assert forall|i: int| 0 <= i < s2.tickers.len() implies crate::state::ticker_wf(
                #[trigger] s2.tickers[i],
            ) by {
                assert(crate::state::ticker_wf(s.tickers[i]));
            }
            // the balance update
            if has_bal(s.balances, addr, key) {
                let bi = bal_idx(s.balances, addr, key);
                assert(bal_at(s.balances, addr, key, bi));
                let ob = s.balances[bi];
                let nb = s2.balances[bi];
                assert(s2.balances == s.balances.update(bi, nb));
                assert(nb.address == ob.address && nb.tick == ob.tick);
                assert(nb.available == ob.available + c && nb.transferable == ob.transferable
                    && nb.overall == ob.overall + c);
                lemma_bal_pair_found(s.balances, bi);
                assert forall|i: int, j: int|
                    0 <= i < s2.balances.len() && 0 <= j < s2.balances.len()
                        && #[trigger] s2.balances[i].address == #[trigger] s2.balances[j].address
                        && s2.balances[i].tick == s2.balances[j].tick implies i == j by {
                    assert(s.balances[i].address == s.balances[j].address && s.balances[i].tick
                        == s.balances[j].tick);
                }
                assert forall|i: int| 0 <= i < s2.balances.len() implies {
                    let b = #[trigger] s2.balances[i];
                    &&& b.available >= 0
                    &&& b.transferable >= 0
                    &&& b.overall == b.available + b.transferable
                    &&& has_ticker(s2.tickers, b.tick)
                } by {
                    let ob2 = s.balances[i];
                    assert(ob2.available >= 0 && ob2.transferable >= 0 && ob2.overall
                        == ob2.available + ob2.transferable);
                    assert(has_ticker(s.tickers, ob2.tick));
                    lemma_has_ticker_same_ticks(s.tickers, s2.tickers, ob2.tick);
                    assert(s2.balances[i].tick == ob2.tick);
                }
                // conservation
                assert forall|i: int| 0 <= i < s2.tickers.len() implies sum_overall(
                    s2.balances,
                    (#[trigger] s2.tickers[i]).tick,
                ) == s2.tickers[i].total_minted by {
                    lemma_sum_overall_update(s.balances, bi, nb, s.tickers[i].tick);
                    assert(sum_overall(s.balances, s.tickers[i].tick) == s.tickers[i].total_minted);
                    if i != ti {
                        assert(ob.tick == key);
                        if s.tickers[i].tick == key {
                            assert(s.tickers[i].tick == s.tickers[ti].tick);
                        }
                    }
                }
                // history fold
                assert(s2.wf_fold()) by {
                    assert forall|a2: Seq<u8>, t2: Seq<u8>|
                        #[trigger] fold_entries(s2.entries, a2, t2) == bal_pair(
                            s2.balances,
                            a2,
                            t2,
                        ) by {
                        lemma_fold_entries_push(s.entries, ne, a2, t2);
                        lemma_bal_pair_update(s.balances, bi, nb, a2, t2);
                        assert(fold_entries(s.entries, a2, t2) == bal_pair(s.balances, a2, t2));
                    }
                }
                // reserved amounts
                assert(s2.wf_reserved()) by {
                    assert forall|a2: Seq<u8>, t2: Seq<u8>|
                        #[trigger] sum_active(s2.active, a2, t2) == bal_pair(
                            s2.balances,
                            a2,
                            t2,
                        ).1 by {
                        lemma_bal_pair_update(s.balances, bi, nb, a2, t2);
                        assert(sum_active(s.active, a2, t2) == bal_pair(s.balances, a2, t2).1);
                    }
                }
            } else {
                let nb = s2.balances.last();
                assert(s2.balances == s.balances.push(nb));
                assert(nb.address == addr && nb.tick == key && nb.available == c
                    && nb.transferable == 0 && nb.overall == c);
                lemma_bal_pair_absent(s.balances, addr, key);
                assert forall|i: int, j: int|
                    0 <= i < s2.balances.len() && 0 <= j < s2.balances.len()
                        && #[trigger] s2.balances[i].address == #[trigger] s2.balances[j].address
                        && s2.balances[i].tick == s2.balances[j].tick implies i == j by {
                    if i < s.balances.len() && j < s.balances.len() {
                        assert(s.balances[i].address == s.balances[j].address && s.balances[i].tick
                            == s.balances[j].tick);
                    } else if i < s.balances.len() && j == s.balances.len() {
                        assert(bal_at(s.balances, addr, key, i));
                    } else if j < s.balances.len() && i == s.balances.len() {
                        assert(bal_at(s.balances, addr, key, j));
                    }
                }
                assert forall|i: int| 0 <= i < s2.balances.len() implies {
                    let b = #[trigger] s2.balances[i];
                    &&& b.available >= 0
                    &&& b.transferable >= 0
                    &&& b.overall == b.available + b.transferable
                    &&& has_ticker(s2.tickers, b.tick)
                } by {
                    if i < s.balances.len() {
                        let ob2 = s.balances[i];
                        assert(ob2.available >= 0 && ob2.transferable >= 0 && ob2.overall
                            == ob2.available + ob2.transferable);
                        assert(has_ticker(s.tickers, ob2.tick));
                        lemma_has_ticker_same_ticks(s.tickers, s2.tickers, ob2.tick);
                    } else {
                        assert(ticker_at(s2.tickers, key, ti));
                    }
                }
                assert forall|i: int| 0 <= i < s2.tickers.len() implies sum_overall(
                    s2.balances,
                    (#[trigger] s2.tickers[i]).tick,
                ) == s2.tickers[i].total_minted by {
                    lemma_sum_overall_push(s.balances, nb, s.tickers[i].tick);
                    assert(sum_overall(s.balances, s.tickers[i].tick) == s.tickers[i].total_minted);
                    if i != ti && s.tickers[i].tick == key {
                        assert(s.tickers[i].tick == s.tickers[ti].tick);
                    }
                }
                assert(s2.wf_fold()) by {
                    assert forall|a2: Seq<u8>, t2: Seq<u8>|
                        #[trigger] fold_entries(s2.entries, a2, t2) == bal_pair(
                            s2.balances,
                            a2,
                            t2,
                        ) by {
                        lemma_fold_entries_push(s.entries, ne, a2, t2);
                        lemma_bal_pair_push(s.balances, nb, a2, t2);
                        assert(fold_entries(s.entries, a2, t2) == bal_pair(s.balances, a2, t2));
                    }
                }
                assert(s2.wf_reserved()) by {
                    assert forall|a2: Seq<u8>, t2: Seq<u8>|
                        #[trigger] sum_active(s2.active, a2, t2) == bal_pair(
                            s2.balances,
                            a2,
                            t2,
                        ).1 by {
                        lemma_bal_pair_push(s.balances, nb, a2, t2);
                        assert(sum_active(s.active, a2, t2) == bal_pair(s.balances, a2, t2).1);
                        if a2 == addr && t2 == key {
                            lemma_bal_pair_absent(s.balances, addr, key);
                        }
                    }
                }
            }
            // mint audit sums
            assert forall|i: int| 0 <= i < s2.tickers.len() implies sum_mints(
                s2.mints,
                (#[trigger] s2.tickers[i]).tick,
            ) == s2.tickers[i].total_minted by {
                lemma_sum_mints_push(s.mints, nm, s.tickers[i].tick);
                assert(sum_mints(s.mints, s.tickers[i].tick) == s.tickers[i].total_minted);
                if i != ti && s.tickers[i].tick == key {
                    assert(s.tickers[i].tick == s.tickers[ti].tick);
                }
            }
            assert forall|i: int| 0 <= i < s2.mints.len() implies has_ticker(
                s2.tickers,
                (#[trigger] s2.mints[i]).tick,
            ) by {
                if i < s.mints.len() {
                    assert(has_ticker(s.tickers, s.mints[i].tick));
                    lemma_has_ticker_same_ticks(s.tickers, s2.tickers, s.mints[i].tick);
                } else {
                    assert(ticker_at(s2.tickers, key, ti));
                }
            }
            assert forall|i: int| 0 <= i < s2.active.len() implies has_ticker(
                s2.tickers,
                (#[trigger] s2.active[i]).tick,
            ) by {
                assert(has_ticker(s.tickers, s.active[i].tick));
                lemma_has_ticker_same_ticks(s.tickers, s2.tickers, s.active[i].tick);
            }
            assert(s2.wf_registry());
        },
    }
}

// ---------------------------------------------------------------------
// Preservation: transfer-inscribe
// ---------------------------------------------------------------------

pub proof fn lemma_wf_inscribe(
    s: IndexV,
    insc: crate::state::InscriptionV,
    txid: Seq<u8>,
    height: int,
    out0: Option<Seq<u8>>,
)
    requires
        s.wf(),
    ensures
        crate::model::spec_inscribe(s, insc, txid, height, out0).wf(),
{
    let s2 = crate::model::spec_inscribe(s, insc, txid, height, out0);
    if has_transfer_rec(s.transfers, txid) {
        assert(s2 == s);
    } else {
        match crate::model::inscribe_verdict(s, insc, out0) {
            Some(r) => {
                lemma_wf_push_invalid(s, insc, txid, r, height);
            },
            None => {
                let key = crate::bytes::lower_bytes(insc.tick);
                let ti = ticker_idx(s.tickers, key);
                let t = s.tickers[ti];
                let v = crate::amount::decimal_value(insc.amt->Some_0, t.decimals);
                let addr = out0->Some_0;
                assert(ticker_at(s.tickers, key, ti));
                crate::amount::lemma_decimal_value_nonneg(insc.amt->Some_0, t.decimals);
                assert(v >= 1);
                assert(has_bal(s.balances, addr, key));
                let bi = bal_idx(s.balances, addr, key);
                assert(bal_at(s.balances, addr, key, bi));
                let ob = s.balances[bi];
                lemma_bal_pair_found(s.balances, bi);
                assert(ob.available >= v);
                let nb = s2.balances[bi];
                assert(s2.balances == s.balances.update(bi, nb));
                assert(nb.address == ob.address && nb.tick == ob.tick);
                assert(nb.available == ob.available - v && nb.transferable == ob.transferable + v
                    && nb.overall == ob.overall);
                let ne = s2.entries.last();
                assert(s2.entries == s.entries.push(ne));
                let na = s2.active.last();
                assert(s2.active == s.active.push(na));
                let nr = s2.transfers.last();
                assert(s2.transfers == s.transfers.push(nr));
                assert(s2.tickers == s.tickers);
                assert(s2.mints == s.mints);
                // balances stay well formed and unique
                assert forall|i: int, j: int|
                    0 <= i < s2.balances.len() && 0 <= j < s2.balances.len()
                        && #[trigger] s2.balances[i].address == #[trigger] s2.balances[j].address
                        && s2.balances[i].tick == s2.balances[j].tick implies i == j by {
                    assert(s.balances[i].address == s.balances[j].address && s.balances[i].tick
                        == s.balances[j].tick);
                }
                assert forall|i: int| 0 <= i < s2.balances.len() implies {
                    let b = #[trigger] s2.balances[i];
                    &&& b.available >= 0
                    &&& b.transferable >= 0
                    &&& b.overall == b.available + b.transferable
                    &&& has_ticker(s2.tickers, b.tick)
                } by {
                    let b0 = s.balances[i];
                    assert(b0.available >= 0 && b0.transferable >= 0 && b0.overall == b0.available
                        + b0.transferable);
                    assert(has_ticker(s.tickers, b0.tick));
                    assert(s2.balances[i].tick == b0.tick);
                }
                // conservation: overall balances unchanged
                assert forall|i: int| 0 <= i < s2.tickers.len() implies sum_overall(
                    s2.balances,
                    (#[trigger] s2.tickers[i]).tick,
                ) == s2.tickers[i].total_minted by {
                    lemma_sum_overall_update(s.balances, bi, nb, s.tickers[i].tick);
                    assert(sum_overall(s.balances, s.tickers[i].tick) == s.tickers[i].total_minted);
                }
                // history fold
                assert(s2.wf_fold()) by {
                    assert forall|a2: Seq<u8>, t2: Seq<u8>|
                        #[trigger] fold_entries(s2.entries, a2, t2) == bal_pair(
                            s2.balances,
                            a2,
                            t2,
                        ) by {
                        lemma_fold_entries_push(s.entries, ne, a2, t2);
                        lemma_bal_pair_update(s.balances, bi, nb, a2, t2);
                        assert(fold_entries(s.entries, a2, t2) == bal_pair(s.balances, a2, t2));
                    }
                }
                // reserved amounts
                assert(s2.wf_reserved()) by {
                    assert forall|a2: Seq<u8>, t2: Seq<u8>|
                        #[trigger] sum_active(s2.active, a2, t2) == bal_pair(
                            s2.balances,
                            a2,
                            t2,
                        ).1 by {
                        lemma_sum_active_push(s.active, na, a2, t2);
                        lemma_bal_pair_update(s.balances, bi, nb, a2, t2);
                        assert(sum_active(s.active, a2, t2) == bal_pair(s.balances, a2, t2).1);
                    }
                }
                // the new active row: its outpoint is fresh, because an
                // active row always has a transfer record and none exists
                assert forall|i: int, j: int|
                    0 <= i < s2.active.len() && 0 <= j < s2.active.len()
                        && #[trigger] s2.active[i].tx_id == #[trigger] s2.active[j].tx_id
                        && s2.active[i].vout == s2.active[j].vout implies i == j by {
                    if i < s.active.len() && j < s.active.len() {
                        assert(s.active[i].tx_id == s.active[j].tx_id && s.active[i].vout
                            == s.active[j].vout);
                    } else if i < s.active.len() && j == s.active.len() {
                        assert(has_transfer_rec(s.transfers, s.active[i].tx_id));
                    } else if j < s.active.len() && i == s.active.len() {
                        assert(has_transfer_rec(s.transfers, s.active[j].tx_id));
                    }
                }
                assert forall|i: int| 0 <= i < s2.active.len() implies {
                    let a = #[trigger] s2.active[i];
                    &&& a.amt >= 1
                    &&& a.vout == 0
                    &&& has_ticker(s2.tickers, a.tick)
                } by {
                    if i < s.active.len() {
                        assert(s.active[i].amt >= 1 && s.active[i].vout == 0);
                        assert(has_ticker(s.tickers, s.active[i].tick));
                    } else {
                        assert(ticker_at(s.tickers, key, ti));
                    }
                }
                // registry agreement
                assert forall|i: int, j: int|
                    0 <= i < s2.transfers.len() && 0 <= j < s2.transfers.len()
                        && #[trigger] s2.transfers[i].tx_id == #[trigger] s2.transfers[j].tx_id
                        implies i == j by {
                    if i < s.transfers.len() && j < s.transfers.len() {
                        assert(s.transfers[i].tx_id == s.transfers[j].tx_id);
                    } else if i < s.transfers.len() && j == s.transfers.len() {
                        assert(transfer_rec_at(s.transfers, txid, i));
                    } else if j < s.transfers.len() && i == s.transfers.len() {
                        assert(transfer_rec_at(s.transfers, txid, j));
                    }
                }
                assert(transfers_unique(s2.transfers));
                assert forall|i: int| 0 <= i < s2.active.len() implies {
                    let a = #[trigger] s2.active[i];
                    &&& has_transfer_rec(s2.transfers, a.tx_id)
                    &&& s2.transfers[transfer_rec_idx(s2.transfers, a.tx_id)].status
                        == crate::state::TransferStatusV::Pending
                } by {
                    if i < s.active.len() {
                        let k = transfer_rec_idx(s.transfers, s.active[i].tx_id);
                        assert(transfer_rec_at(s.transfers, s.active[i].tx_id, k));
                        assert(transfer_rec_at(s2.transfers, s.active[i].tx_id, k));
                        lemma_transfer_rec_idx_is(s2.transfers, s.active[i].tx_id, k);
                    } else {
                        assert(transfer_rec_at(s2.transfers, txid, s.transfers.len() as int));
                        lemma_transfer_rec_idx_is(s2.transfers, txid, s.transfers.len() as int);
                    }
                }
                assert forall|i: int| 0 <= i < s2.transfers.len() implies {
                    let tr = #[trigger] s2.transfers[i];
                    &&& tr.status == crate::state::TransferStatusV::Pending ==> has_active(
                        s2.active,
                        tr.tx_id,
                        0,
                    )
                    &&& tr.amt >= 1
                } by {
                    if i < s.transfers.len() {
                        assert(s.transfers[i].amt >= 1);
                        if s.transfers[i].status == crate::state::TransferStatusV::Pending {
                            let k = choose|k: int|
                                active_at(s.active, s.transfers[i].tx_id, 0, k);
                            assert(active_at(s2.active, s.transfers[i].tx_id, 0, k));
                        }
                    } else {
                        assert(active_at(s2.active, txid, 0, s.active.len() as int));
                    }
                }
            },
        }
    }
}

// ---------------------------------------------------------------------
// Preservation: transfer-send
// ---------------------------------------------------------------------

pub proof fn lemma_wf_send(s: IndexV, txid: Seq<u8>, vout: int, height: int, out0: Option<Seq<u8>>)
    requires
        s.wf(),
    ensures
        crate::model::spec_send(s, txid, vout, height, out0).wf(),
{
    let s2 = crate::model::spec_send(s, txid, vout, height, out0);
    if !has_active(s.active, txid, vout) {
        assert(s2 == s);
    } else {
        let ai = active_idx(s.active, txid, vout);
        assert(active_at(s.active, txid, vout, ai));
        let a = s.active[ai];
        assert(a.amt >= 1 && a.vout == 0 && has_ticker(s.tickers, a.tick));
        assert(has_transfer_rec(s.transfers, a.tx_id));
        let ri = transfer_rec_idx(s.transfers, a.tx_id);
        assert(transfer_rec_at(s.transfers, a.tx_id, ri));
        assert(s.transfers[ri].status == crate::state::TransferStatusV::Pending);
        let to = match out0 {
            Some(r) => r,
            None => a.from,
        };
        let st = match out0 {
            Some(r) => crate::state::TransferStatusV::Sent(r),
            None => crate::state::TransferStatusV::Refunded,
        };
        assert(st != crate::state::TransferStatusV::Pending);
        // the inscriber's row exists and holds at least the reserved amount
        assert(sum_active(s.active, a.from, a.tick) == bal_pair(s.balances, a.from, a.tick).1);
        lemma_active_le_sum(s.active, ai);
        assert(bal_pair(s.balances, a.from, a.tick).1 >= a.amt);
        assert(has_bal(s.balances, a.from, a.tick)) by {
            if !has_bal(s.balances, a.from, a.tick) {
                lemma_bal_pair_absent(s.balances, a.from, a.tick);
            }
        }
        let bi = bal_idx(s.balances, a.from, a.tick);
        assert(bal_at(s.balances, a.from, a.tick, bi));
        let ob = s.balances[bi];
        lemma_bal_pair_found(s.balances, bi);
        assert(ob.transferable >= a.amt);
        let b1 = crate::model::debit_transferable(s.balances, a.from, a.tick, a.amt, height);
        let nb1 = b1[bi];
        assert(b1 == s.balances.update(bi, nb1));
        assert(nb1.address == ob.address && nb1.tick == ob.tick && nb1.available == ob.available
            && nb1.transferable == ob.transferable - a.amt && nb1.overall == ob.overall - a.amt);
        assert(balances_unique(b1)) by {
            assert forall|p: int, q: int|
                0 <= p < b1.len() && 0 <= q < b1.len() && #[trigger] b1[p].address
                    == #[trigger] b1[q].address && b1[p].tick == b1[q].tick implies p == q by {
                assert(s.balances[p].address == s.balances[q].address && s.balances[p].tick
                    == s.balances[q].tick);
            }
        }
        let b2 = crate::model::credit_available(b1, to, a.tick, a.amt, height);
        assert(s2.balances == b2);
        let ne1 = EntryV {
            address: a.from,
            tick: a.tick,
            block_height: height,
            amt: -a.amt,
            entry_type: crate::state::UserBalanceEntryType::Send,
        };
        let ne2 = EntryV {
            address: to,
            tick: a.tick,
            block_height: height,
            amt: a.amt,
            entry_type: crate::state::UserBalanceEntryType::Receive,
        };
        assert(s2.entries == s.entries.push(ne1).push(ne2));
        assert(s2.active == s.active.remove(ai));
        assert(s2.transfers == s.transfers.update(
            ri,
            TransferV { status: st, ..s.transfers[ri] },
        ));
        assert(s2.tickers == s.tickers);
        assert(s2.mints == s.mints);
        // indexing through the removal
        assert(s2.active.len() == s.active.len() - 1);
        assert forall|j: int| 0 <= j < s2.active.len() implies #[trigger] s2.active[j] == (if j
            < ai {
            s.active[j]
        } else {
            s.active[j + 1]
        }) by {}
        // the balance rows after both updates
        if has_bal(b1, to, a.tick) {
            let ci = bal_idx(b1, to, a.tick);
            assert(bal_at(b1, to, a.tick, ci));
            let oc = b1[ci];
            let nb2 = b2[ci];
            assert(b2 == b1.update(ci, nb2));
            assert(nb2.address == oc.address && nb2.tick == oc.tick && nb2.available
                == oc.available + a.amt && nb2.transferable == oc.transferable && nb2.overall
                == oc.overall + a.amt);
            if to == a.from {
                lemma_bal_idx_is(b1, a.from, a.tick, bi);
                assert(ci == bi);
            }
            // well-formed rows and uniqueness
            assert forall|p: int, q: int|
                0 <= p < b2.len() && 0 <= q < b2.len() && #[trigger] b2[p].address
                    == #[trigger] b2[q].address && b2[p].tick == b2[q].tick implies p == q by {
                assert(s.balances[p].address == s.balances[q].address && s.balances[p].tick
                    == s.balances[q].tick);
            }
            assert forall|i: int| 0 <= i < b2.len() implies {
                let b = #[trigger] b2[i];
                &&& b.available >= 0
                &&& b.transferable >= 0
                &&& b.overall == b.available + b.transferable
                &&& has_ticker(s2.tickers, b.tick)
            } by {
                let b0 = s.balances[i];
                assert(b0.available >= 0 && b0.transferable >= 0 && b0.overall == b0.available
                    + b0.transferable);
                assert(has_ticker(s.tickers, b0.tick));
                assert(b2[i].tick == b0.tick);
            }
            // conservation
            assert forall|i: int| 0 <= i < s2.tickers.len() implies sum_overall(
                b2,
                (#[trigger] s2.tickers[i]).tick,
            ) == s2.tickers[i].total_minted by {
                lemma_sum_overall_update(s.balances, bi, nb1, s.tickers[i].tick);
                lemma_sum_overall_update(b1, ci, nb2, s.tickers[i].tick);
                assert(sum_overall(s.balances, s.tickers[i].tick) == s.tickers[i].total_minted);
            }
            // fold
            assert(s2.wf_fold()) by {
                assert forall|a2: Seq<u8>, t2: Seq<u8>|
                    #[trigger] fold_entries(s2.entries, a2, t2) == bal_pair(b2, a2, t2) by {
                    lemma_fold_entries_push(s.entries, ne1, a2, t2);
                    lemma_fold_entries_push(s.entries.push(ne1), ne2, a2, t2);
                    lemma_bal_pair_update(s.balances, bi, nb1, a2, t2);
                    lemma_bal_pair_update(b1, ci, nb2, a2, t2);
                    lemma_bal_pair_found(b1, ci);
                    lemma_bal_pair_update(s.balances, bi, nb1, oc.address, oc.tick);
                    assert(fold_entries(s.entries, a2, t2) == bal_pair(s.balances, a2, t2));
                }
            }
            // reserved
            assert(s2.wf_reserved()) by {
                assert forall|a2: Seq<u8>, t2: Seq<u8>|
                    #[trigger] sum_active(s2.active, a2, t2) == bal_pair(b2, a2, t2).1 by {
                    lemma_sum_active_remove(s.active, ai, a2, t2);
                    lemma_bal_pair_update(s.balances, bi, nb1, a2, t2);
                    lemma_bal_pair_update(b1, ci, nb2, a2, t2);
                    lemma_bal_pair_found(b1, ci);
                    lemma_bal_pair_update(s.balances, bi, nb1, oc.address, oc.tick);
                    assert(sum_active(s.active, a2, t2) == bal_pair(s.balances, a2, t2).1);
                }
            }
        } else {
            // the receiver had no row: a fresh one is created
            assert(to != a.from) by {
                assert(bal_at(b1, a.from, a.tick, bi));
            }
            let nb2 = b2.last();
            assert(b2 == b1.push(nb2));
            assert(nb2.address == to && nb2.tick == a.tick && nb2.available == a.amt
                && nb2.transferable == 0 && nb2.overall == a.amt);
            lemma_bal_pair_absent(b1, to, a.tick);
            assert forall|p: int, q: int|
                0 <= p < b2.len() && 0 <= q < b2.len() && #[trigger] b2[p].address
                    == #[trigger] b2[q].address && b2[p].tick == b2[q].tick implies p == q by {
                if p < b1.len() && q < b1.len() {
                    assert(s.balances[p].address == s.balances[q].address && s.balances[p].tick
                        == s.balances[q].tick);
                } else if p < b1.len() && q == b1.len() {
                    assert(bal_at(b1, to, a.tick, p));
                } else if q < b1.len() && p == b1.len() {
                    assert(bal_at(b1, to, a.tick, q));
                }
            }
            assert forall|i: int| 0 <= i < b2.len() implies {
                let b = #[trigger] b2[i];
                &&& b.available >= 0
                &&& b.transferable >= 0
                &&& b.overall == b.available + b.transferable
                &&& has_ticker(s2.tickers, b.tick)
            } by {
                if i < b1.len() {
                    let b0 = s.balances[i];
                    assert(b0.available >= 0 && b0.transferable >= 0 && b0.overall == b0.available
                        + b0.transferable);
                    assert(has_ticker(s.tickers, b0.tick));
                    assert(b2[i].tick == b0.tick);
                } else {
                    assert(has_ticker(s.tickers, a.tick));
                }
            }
            assert forall|i: int| 0 <= i < s2.tickers.len() implies sum_overall(
                b2,
                (#[trigger] s2.tickers[i]).tick,
            ) == s2.tickers[i].total_minted by {
                lemma_sum_overall_update(s.balances, bi, nb1, s.tickers[i].tick);
                lemma_sum_overall_push(b1, nb2, s.tickers[i].tick);
                assert(sum_overall(s.balances, s.tickers[i].tick) == s.tickers[i].total_minted);
            }
            assert(s2.wf_fold()) by {
                assert forall|a2: Seq<u8>, t2: Seq<u8>|
                    #[trigger] fold_entries(s2.entries, a2, t2) == bal_pair(b2, a2, t2) by {
                    lemma_fold_entries_push(s.entries, ne1, a2, t2);
                    lemma_fold_entries_push(s.entries.push(ne1), ne2, a2, t2);
                    lemma_bal_pair_update(s.balances, bi, nb1, a2, t2);
                    lemma_bal_pair_push(b1, nb2, a2, t2);
                    assert(fold_entries(s.entries, a2, t2) == bal_pair(s.balances, a2, t2));
                }
            }
            assert(s2.wf_reserved()) by {
                assert forall|a2: Seq<u8>, t2: Seq<u8>|
                    #[trigger] sum_active(s2.active, a2, t2) == bal_pair(b2, a2, t2).1 by {
                    lemma_sum_active_remove(s.active, ai, a2, t2);
                    lemma_bal_pair_update(s.balances, bi, nb1, a2, t2);
                    lemma_bal_pair_push(b1, nb2, a2, t2);
                    assert(sum_active(s.active, a2, t2) == bal_pair(s.balances, a2, t2).1);
                    if a2 == to && t2 == a.tick {
                        assert(!has_bal(s.balances, to, a.tick)) by {
                            if has_bal(s.balances, to, a.tick) {
                                let w = choose|w: int| bal_at(s.balances, to, a.tick, w);
                                assert(b1[w].address == s.balances[w].address && b1[w].tick
                                    == s.balances[w].tick);
                                assert(bal_at(b1, to, a.tick, w));
                            }
                        }
                        lemma_bal_pair_absent(s.balances, to, a.tick);
                    }
                }
            }
        }
        // active rows after the removal
        assert forall|i: int, j: int|
            0 <= i < s2.active.len() && 0 <= j < s2.active.len() && #[trigger] s2.active[i].tx_id
                == #[trigger] s2.active[j].tx_id && s2.active[i].vout == s2.active[j].vout
            implies i == j by {
            let i0: int = if i < ai {
                i
            } else {
                i + 1
            };
            let j0: int = if j < ai {
                j
            } else {
                j + 1
            };
            assert(s.active[i0].tx_id == s.active[j0].tx_id && s.active[i0].vout
                == s.active[j0].vout);
        }
        assert forall|i: int| 0 <= i < s2.active.len() implies {
            let r = #[trigger] s2.active[i];
            &&& r.amt >= 1
            &&& r.vout == 0
            &&& has_ticker(s2.tickers, r.tick)
        } by {
            let i0: int = if i < ai {
                i
            } else {
                i + 1
            };
            assert(s.active[i0].amt >= 1 && s.active[i0].vout == 0);
            assert(has_ticker(s.tickers, s.active[i0].tick));
        }
        // registry agreement
        assert(transfers_unique(s2.transfers)) by {
            assert forall|p: int, q: int|
                0 <= p < s2.transfers.len() && 0 <= q < s2.transfers.len()
                    && #[trigger] s2.transfers[p].tx_id == #[trigger] s2.transfers[q].tx_id
                implies p == q by {
                assert(s.transfers[p].tx_id == s.transfers[q].tx_id);
            }
        }
        assert forall|i: int| 0 <= i < s2.active.len() implies {
            let r = #[trigger] s2.active[i];
            &&& has_transfer_rec(s2.transfers, r.tx_id)
            &&& s2.transfers[transfer_rec_idx(s2.transfers, r.tx_id)].status
                == crate::state::TransferStatusV::Pending
        } by {
            let i0: int = if i < ai {
                i
            } else {
                i + 1
            };
            let r = s.active[i0];
            assert(has_transfer_rec(s.transfers, r.tx_id));
            let k = transfer_rec_idx(s.transfers, r.tx_id);
            assert(transfer_rec_at(s.transfers, r.tx_id, k));
            assert(transfer_rec_at(s2.transfers, r.tx_id, k));
            lemma_transfer_rec_idx_is(s2.transfers, r.tx_id, k);
            if k == ri {
                // then this active row shares the consumed outpoint
                assert(r.tx_id == a.tx_id);
                assert(active_at(s.active, txid, vout, i0));
                lemma_active_idx_is(s.active, txid, vout, i0);
                assert(i0 == ai);
                assert(false);
            }
            assert(s2.transfers[k].status == s.transfers[k].status);
        }
        assert forall|i: int| 0 <= i < s2.transfers.len() implies {
            let tr = #[trigger] s2.transfers[i];
            &&& tr.status == crate::state::TransferStatusV::Pending ==> has_active(
                s2.active,
                tr.tx_id,
                0,
            )
            &&& tr.amt >= 1
        } by {
            assert(s.transfers[i].amt >= 1);
            assert(s2.transfers[i].amt == s.transfers[i].amt);
            if s2.transfers[i].status == crate::state::TransferStatusV::Pending {
                assert(i != ri);
                assert(s.transfers[i].status == crate::state::TransferStatusV::Pending);
                let k = choose|k: int| active_at(s.active, s.transfers[i].tx_id, 0, k);
                assert(active_at(s.active, s.transfers[i].tx_id, 0, k));
                if k == ai {
                    // the consumed row would be this record's outpoint
                    assert(s.active[ai].tx_id == s.transfers[i].tx_id);
                    assert(transfer_rec_at(s.transfers, a.tx_id, i));
                    lemma_transfer_rec_idx_is(s.transfers, a.tx_id, i);
                    assert(false);
                }
                let k2: int = if k < ai {
                    k
                } else {
                    k - 1
                };
                assert(active_at(s2.active, s.transfers[i].tx_id, 0, k2));
            }
        }
    }
}

// ---------------------------------------------------------------------
// Preservation: dispatch and block folding
// ---------------------------------------------------------------------

pub proof fn lemma_wf_apply_inscription(
    s: IndexV,
    insc: crate::state::InscriptionV,
    txid: Seq<u8>,
    height: int,
    out0: Option<Seq<u8>>,
)
    requires
        s.wf(),
    ensures
        crate::model::spec_apply_inscription(s, insc, txid, height, out0).wf(),
{
    if insc.p == crate::model::protocol_tag() {
        if insc.op == crate::model::op_deploy() {
            lemma_wf_deploy(s, insc, txid, height);
        } else if insc.op == crate::model::op_mint() {
            lemma_wf_mint(s, insc, txid, height, out0);
        } else if insc.op == crate::model::op_transfer() {
            lemma_wf_inscribe(s, insc, txid, height, out0);
        }
    }
}

pub proof fn lemma_wf_sends(
    s: IndexV,
    inputs: Seq<crate::model::OutpointV>,
    height: int,
    out0: Option<Seq<u8>>,
)
    requires
        s.wf(),
    ensures
        crate::model::spec_sends(s, inputs, height, out0).wf(),
    decreases inputs.len(),
{
    if inputs.len() > 0 {
        lemma_wf_sends(s, inputs.drop_last(), height, out0);
        lemma_wf_send(
            crate::model::spec_sends(s, inputs.drop_last(), height, out0),
            inputs.last().tx_id,
            inputs.last().vout,
            height,
            out0,
        );
    }
}

pub proof fn lemma_wf_ops(
    s: IndexV,
    ops: Seq<crate::state::InscriptionV>,
    txid: Seq<u8>,
    height: int,
    out0: Option<Seq<u8>>,
)
    requires
        s.wf(),
    ensures
        crate::model::spec_ops(s, ops, txid, height, out0).wf(),
    decreases ops.len(),
{
    if ops.len() > 0 {
        lemma_wf_ops(s, ops.drop_last(), txid, height, out0);
        lemma_wf_apply_inscription(
            crate::model::spec_ops(s, ops.drop_last(), txid, height, out0),
            ops.last(),
            txid,
            height,
            out0,
        );
    }
}

pub proof fn lemma_wf_tx(s: IndexV, tx: crate::model::TxEventV, height: int)
    requires
        s.wf(),
    ensures
        crate::model::spec_tx(s, tx, height).wf(),
{
    lemma_wf_sends(s, tx.inputs, height, tx.out0);
    lemma_wf_ops(
        crate::model::spec_sends(s, tx.inputs, height, tx.out0),
        tx.ops,
        tx.tx_id,
        height,
        tx.out0,
    );
}

pub proof fn lemma_wf_txs(s: IndexV, txs: Seq<crate::model::TxEventV>, height: int)
    requires
        s.wf(),
    ensures
        crate::model::spec_txs(s, txs, height).wf(),
    decreases txs.len(),
{
    if txs.len() > 0 {
        lemma_wf_txs(s, txs.drop_last(), height);
        lemma_wf_tx(crate::model::spec_txs(s, txs.drop_last(), height), txs.last(), height);
    }
}

pub proof fn lemma_wf_block(s: IndexV, b: crate::model::BlockV)
    requires
        s.wf(),
    ensures
        crate::model::spec_block(s, b).wf(),
{
    lemma_wf_txs(s, b.txs, b.height);
}

pub proof fn lemma_wf_blocks(s: IndexV, bs: Seq<crate::model::BlockV>)
    requires
        s.wf(),
    ensures
        crate::model::spec_blocks(s, bs).wf(),
    decreases bs.len(),
{
    if bs.len() > 0 {
        lemma_wf_blocks(s, bs.drop_last());
        lemma_wf_block(crate::model::spec_blocks(s, bs.drop_last()), bs.last());
    }
}

} // verus!
