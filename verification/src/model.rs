//! The protocol state machine as mathematics.
//!
//! Every rule of the ruleset — deploy, mint with cap clamping,
//! transfer-inscribe, transfer-send with refund-on-burn — is a pure
//! function from a state view and an operation to the next state view.
//! The executable functions in [`crate::validator`] and [`crate::block`]
//! are proved to compute exactly these functions, so two runs over the
//! same chain can only produce the same state.

use crate::amount::{amount_err, amount_ok, decimal_value, AmountError};
use crate::bytes::lower_bytes;
use crate::state::{
    active_idx, bal_idx, bal_pair, has_active, has_bal, has_ticker, has_transfer_rec, ticker_idx,
    transfer_rec_idx, ActiveV, BalanceV, EntryV, IndexV, InscriptionV, InvalidReason, InvalidV,
    MintV, TickerV, TransferStatusV, TransferV, UserBalanceEntryType,
};
use vstd::prelude::*;

verus! {

/// The protocol tag `"brc-20"` as bytes; matched case-sensitively.
pub open spec fn protocol_tag() -> Seq<u8> {
    seq![98u8, 114u8, 99u8, 45u8, 50u8, 48u8]
}

/// `"deploy"` as bytes.
pub open spec fn op_deploy() -> Seq<u8> {
    seq![100u8, 101u8, 112u8, 108u8, 111u8, 121u8]
}

/// `"mint"` as bytes.
pub open spec fn op_mint() -> Seq<u8> {
    seq![109u8, 105u8, 110u8, 116u8]
}

/// `"transfer"` as bytes.
pub open spec fn op_transfer() -> Seq<u8> {
    seq![116u8, 114u8, 97u8, 110u8, 115u8, 102u8, 101u8, 114u8]
}

/// The invalid-operation reason a rejected amount string maps to.
pub open spec fn amount_reason(e: AmountError) -> InvalidReason {
    match e {
        AmountError::Malformed => InvalidReason::MalformedInscription,
        AmountError::BadPrecision => InvalidReason::BadDecimalPrecision,
    }
}

/// Executable twin of [`amount_reason`].
pub fn amount_reason_exec(e: AmountError) -> (r: InvalidReason)
    ensures
        r == amount_reason(e),
{
    match e {
        AmountError::Malformed => InvalidReason::MalformedInscription,
        AmountError::BadPrecision => InvalidReason::BadDecimalPrecision,
    }
}

/// Appends a rejected-operation record and changes nothing else.
pub open spec fn push_invalid(
    s: IndexV,
    insc: InscriptionV,
    txid: Seq<u8>,
    reason: InvalidReason,
    height: int,
) -> IndexV {
    IndexV {
        invalids: s.invalids.push(
            InvalidV { tx_id: txid, inscription: insc, reason: reason, block_height: height },
        ),
        ..s
    }
}

// ---------------------------------------------------------------------
// Balance updates
// ---------------------------------------------------------------------

/// Credits `amt` to the available (and overall) balance of
/// `(addr, tick)`, creating the row if it does not exist.
pub open spec fn credit_available(
    bs: Seq<BalanceV>,
    addr: Seq<u8>,
    tick: Seq<u8>,
    amt: int,
    height: int,
) -> Seq<BalanceV> {
    if has_bal(bs, addr, tick) {
        let i = bal_idx(bs, addr, tick);
        let b = bs[i];
        bs.update(
            i,
            BalanceV {
                available: b.available + amt,
                overall: b.overall + amt,
                block_height: height,
                ..b
            },
        )
    } else {
        bs.push(
            BalanceV {
                address: addr,
                tick: tick,
                available: amt,
                transferable: 0,
                overall: amt,
                block_height: height,
            },
        )
    }
}

/// Moves `amt` from the available to the transferable sub-balance of an
/// existing row; a missing row is left untouched (callers exclude that).
pub open spec fn reserve_amount(
    bs: Seq<BalanceV>,
    addr: Seq<u8>,
    tick: Seq<u8>,
    amt: int,
    height: int,
) -> Seq<BalanceV> {
    if has_bal(bs, addr, tick) {
        let i = bal_idx(bs, addr, tick);
        let b = bs[i];
        bs.update(
            i,
            BalanceV {
                available: b.available - amt,
                transferable: b.transferable + amt,
                block_height: height,
                ..b
            },
        )
    } else {
        bs
    }
}

/// Debits `amt` from the transferable (and overall) sub-balance of an
/// existing row; a missing row is left untouched (callers exclude that).
pub open spec fn debit_transferable(
    bs: Seq<BalanceV>,
    addr: Seq<u8>,
    tick: Seq<u8>,
    amt: int,
    height: int,
) -> Seq<BalanceV> {
    if has_bal(bs, addr, tick) {
        let i = bal_idx(bs, addr, tick);
        let b = bs[i];
        bs.update(
            i,
            BalanceV {
                transferable: b.transferable - amt,
                overall: b.overall - amt,
                block_height: height,
                ..b
            },
        )
    } else {
        bs
    }
}

// ---------------------------------------------------------------------
// Deploy
// ---------------------------------------------------------------------

/// The precision a deploy declares: the parsed `dec` field, or 18.
/// Meaningful only where `deploy_verdict` accepts.
pub open spec fn deploy_decimals(insc: InscriptionV) -> int {
    match insc.dec {
        Some(d) => decimal_value(d, 0),
        None => 18,
    }
}

/// Why a deploy is rejected, or `None` where it is accepted.
///
/// Checks run in a fixed order: tick length, `dec` range, `max` parse
/// (positive, within 127 bits), `lim` parse (positive, at most `max`),
/// then first-deploy-wins. Precision faults report `BadDecimalPrecision`;
/// every other parameter fault is a malformed inscription.
pub open spec fn deploy_verdict(s: IndexV, insc: InscriptionV) -> Option<InvalidReason> {
    if insc.tick.len() != 4 {
        Some(InvalidReason::MalformedInscription)
    } else if insc.max is None {
        Some(InvalidReason::MalformedInscription)
    } else if insc.dec is Some && !amount_ok(insc.dec->Some_0, 0) {
        Some(amount_reason(amount_err(insc.dec->Some_0, 0)))
    } else if insc.dec is Some && decimal_value(insc.dec->Some_0, 0) > 18 {
        Some(InvalidReason::MalformedInscription)
    } else {
        let dec = deploy_decimals(insc);
        let m = insc.max->Some_0;
        if !amount_ok(m, dec) {
            Some(amount_reason(amount_err(m, dec)))
        } else {
            let maxv = decimal_value(m, dec);
            if maxv == 0 || maxv > i128::MAX {
                Some(InvalidReason::MalformedInscription)
            } else if insc.lim is Some && !amount_ok(insc.lim->Some_0, dec) {
                Some(amount_reason(amount_err(insc.lim->Some_0, dec)))
            } else {
                let limv = match insc.lim {
                    Some(l) => decimal_value(l, dec),
                    None => maxv,
                };
                if limv == 0 || limv > maxv {
                    Some(InvalidReason::MalformedInscription)
                } else if has_ticker(s.tickers, lower_bytes(insc.tick)) {
                    Some(InvalidReason::TickerAlreadyDeployed)
                } else {
                    None
                }
            }
        }
    }
}

/// The per-mint limit an accepted deploy records.
pub open spec fn deploy_limit(insc: InscriptionV) -> int {
    match insc.lim {
        Some(l) => decimal_value(l, deploy_decimals(insc)),
        None => decimal_value(insc.max->Some_0, deploy_decimals(insc)),
    }
}

/// A deploy applied to the state: either a new ticker row with zero
/// minted, or a rejected-operation record.
pub open spec fn spec_deploy(s: IndexV, insc: InscriptionV, txid: Seq<u8>, height: int) -> IndexV {
    match deploy_verdict(s, insc) {
        Some(r) => push_invalid(s, insc, txid, r, height),
        None => IndexV {
            tickers: s.tickers.push(
                TickerV {
                    tick: lower_bytes(insc.tick),
                    max_supply: decimal_value(insc.max->Some_0, deploy_decimals(insc)),
                    limit: deploy_limit(insc),
                    decimals: deploy_decimals(insc),
                    total_minted: 0,
                    deploy_block_height: height,
                    deploy_tx_id: txid,
                },
            ),
            ..s
        },
    }
}

// ---------------------------------------------------------------------
// Mint
// ---------------------------------------------------------------------

/// Why a mint is rejected, or `None` where it is accepted (possibly
/// clamped). The minter is the controlling address of the reveal
/// transaction's first output.
pub open spec fn mint_verdict(
    s: IndexV,
    insc: InscriptionV,
    out0: Option<Seq<u8>>,
) -> Option<InvalidReason> {
    let key = lower_bytes(insc.tick);
    if !has_ticker(s.tickers, key) {
        Some(InvalidReason::TickerNotFound)
    } else {
        let t = s.tickers[ticker_idx(s.tickers, key)];
        match insc.amt {
            None => Some(InvalidReason::MalformedInscription),
            Some(a) => {
                if !amount_ok(a, t.decimals) {
                    Some(amount_reason(amount_err(a, t.decimals)))
                } else {
                    let v = decimal_value(a, t.decimals);
                    if v == 0 {
                        Some(InvalidReason::MalformedInscription)
                    } else if v > t.limit {
                        Some(InvalidReason::AmountExceedsLimit)
                    } else {
                        match out0 {
                            None => Some(InvalidReason::UnresolvableAddress),
                            Some(addr) => {
                                if t.max_supply - t.total_minted == 0 {
                                    Some(InvalidReason::TickerFullyMinted)
                                } else {
                                    None
                                }
                            },
                        }
                    }
                }
            },
        }
    }
}

/// The amount an accepted mint credits: the requested amount, clamped to
/// what remains under the cap.
pub open spec fn mint_credited(s: IndexV, insc: InscriptionV) -> int {
    let key = lower_bytes(insc.tick);
    let t = s.tickers[ticker_idx(s.tickers, key)];
    let v = decimal_value(insc.amt->Some_0, t.decimals);
    let remaining = t.max_supply - t.total_minted;
    if v > remaining {
        remaining
    } else {
        v
    }
}

/// A mint applied to the state.
pub open spec fn spec_mint(
    s: IndexV,
    insc: InscriptionV,
    txid: Seq<u8>,
    height: int,
    out0: Option<Seq<u8>>,
) -> IndexV {
    match mint_verdict(s, insc, out0) {
        Some(r) => push_invalid(s, insc, txid, r, height),
        None => {
            let key = lower_bytes(insc.tick);
            let ti = ticker_idx(s.tickers, key);
            let t = s.tickers[ti];
            let v = decimal_value(insc.amt->Some_0, t.decimals);
            let credited = mint_credited(s, insc);
            let addr = out0->Some_0;
            IndexV {
                tickers: s.tickers.update(
                    ti,
                    TickerV { total_minted: t.total_minted + credited, ..t },
                ),
                mints: s.mints.push(
                    MintV {
                        tick: key,
                        address: addr,
                        amount: credited,
                        clamped: v > credited,
                        block_height: height,
                        tx_id: txid,
                    },
                ),
                balances: credit_available(s.balances, addr, key, credited, height),
                entries: s.entries.push(
                    EntryV {
                        address: addr,
                        tick: key,
                        block_height: height,
                        amt: credited,
                        entry_type: UserBalanceEntryType::Inscription,
                    },
                ),
                ..s
            }
        },
    }
}

// ---------------------------------------------------------------------
// Transfer-inscribe
// ---------------------------------------------------------------------

/// Why a transfer-inscribe is rejected, or `None` where it is accepted.
pub open spec fn inscribe_verdict(
    s: IndexV,
    insc: InscriptionV,
    out0: Option<Seq<u8>>,
) -> Option<InvalidReason> {
    let key = lower_bytes(insc.tick);
    if !has_ticker(s.tickers, key) {
        Some(InvalidReason::TickerNotFound)
    } else {
        let t = s.tickers[ticker_idx(s.tickers, key)];
        match insc.amt {
            None => Some(InvalidReason::MalformedInscription),
            Some(a) => {
                if !amount_ok(a, t.decimals) {
                    Some(amount_reason(amount_err(a, t.decimals)))
                } else {
                    let v = decimal_value(a, t.decimals);
                    if v == 0 {
                        Some(InvalidReason::MalformedInscription)
                    } else {
                        match out0 {
                            None => Some(InvalidReason::UnresolvableAddress),
                            Some(addr) => {
                                if !has_bal(s.balances, addr, key) {
                                    Some(InvalidReason::UserBalanceNotFound)
                                } else if bal_pair(s.balances, addr, key).0 < v {
                                    Some(InvalidReason::InsufficientAvailableBalance)
                                } else {
                                    None
                                }
                            },
                        }
                    }
                }
            },
        }
    }
}

/// A transfer-inscribe applied to the state: reserve the amount, append
/// the history leg, register the active transfer and its record.
///
/// An inscription in a transaction whose id already carries a transfer
/// record is ignored outright: its outpoint `(txid, 0)` is already
/// tracked, which a chain with unique transaction ids cannot produce.
pub open spec fn spec_inscribe(
    s: IndexV,
    insc: InscriptionV,
    txid: Seq<u8>,
    height: int,
    out0: Option<Seq<u8>>,
) -> IndexV {
    if has_transfer_rec(s.transfers, txid) {
        s
    } else {
        match inscribe_verdict(s, insc, out0) {
            Some(r) => push_invalid(s, insc, txid, r, height),
            None => {
                let key = lower_bytes(insc.tick);
                let t = s.tickers[ticker_idx(s.tickers, key)];
                let v = decimal_value(insc.amt->Some_0, t.decimals);
                let addr = out0->Some_0;
                IndexV {
                    balances: reserve_amount(s.balances, addr, key, v, height),
                    entries: s.entries.push(
                        EntryV {
                            address: addr,
                            tick: key,
                            block_height: height,
                            amt: -v,
                            entry_type: UserBalanceEntryType::Inscription,
                        },
                    ),
                    active: s.active.push(
                        ActiveV {
                            tx_id: txid,
                            vout: 0,
                            tick: key,
                            block_height: height,
                            from: addr,
                            amt: v,
                        },
                    ),
                    transfers: s.transfers.push(
                        TransferV {
                            tx_id: txid,
                            tick: key,
                            from: addr,
                            amt: v,
                            block_height: height,
                            status: TransferStatusV::Pending,
                        },
                    ),
                    ..s
                }
            },
        }
    }
}

// ---------------------------------------------------------------------
// Transfer-send
// ---------------------------------------------------------------------

/// The spend of an active transfer's outpoint. A spent outpoint that is
/// not in the registry is no send at all; otherwise the reserved amount
/// moves to the receiver — or back to the inscriber's available balance
/// where the spending output has no derivable address.
pub open spec fn spec_send(
    s: IndexV,
    txid: Seq<u8>,
    vout: int,
    height: int,
    out0: Option<Seq<u8>>,
) -> IndexV {
    if !has_active(s.active, txid, vout) {
        s
    } else {
        let ai = active_idx(s.active, txid, vout);
        let a = s.active[ai];
        let to = match out0 {
            Some(r) => r,
            None => a.from,
        };
        let st = match out0 {
            Some(r) => TransferStatusV::Sent(r),
            None => TransferStatusV::Refunded,
        };
        let transfers2 = if has_transfer_rec(s.transfers, a.tx_id) {
            let ri = transfer_rec_idx(s.transfers, a.tx_id);
            s.transfers.update(ri, TransferV { status: st, ..s.transfers[ri] })
        } else {
            s.transfers
        };
        IndexV {
            active: s.active.remove(ai),
            transfers: transfers2,
            balances: credit_available(
                debit_transferable(s.balances, a.from, a.tick, a.amt, height),
                to,
                a.tick,
                a.amt,
                height,
            ),
            entries: s.entries.push(
                EntryV {
                    address: a.from,
                    tick: a.tick,
                    block_height: height,
                    amt: -a.amt,
                    entry_type: UserBalanceEntryType::Send,
                },
            ).push(
                EntryV {
                    address: to,
                    tick: a.tick,
                    block_height: height,
                    amt: a.amt,
                    entry_type: UserBalanceEntryType::Receive,
                },
            ),
            ..s
        }
    }
}

// ---------------------------------------------------------------------
// Dispatch and block folding
// ---------------------------------------------------------------------

/// One parsed inscription dispatched by its `p` and `op` fields. An
/// unknown operation, or a payload whose tag is not `brc-20`, is skipped
/// without a record.
pub open spec fn spec_apply_inscription(
    s: IndexV,
    insc: InscriptionV,
    txid: Seq<u8>,
    height: int,
    out0: Option<Seq<u8>>,
) -> IndexV {
    if insc.p != protocol_tag() {
        s
    } else if insc.op == op_deploy() {
        spec_deploy(s, insc, txid, height)
    } else if insc.op == op_mint() {
        spec_mint(s, insc, txid, height, out0)
    } else if insc.op == op_transfer() {
        spec_inscribe(s, insc, txid, height, out0)
    } else {
        s
    }
}

/// One previous output of a transaction input.
pub struct OutpointV {
    pub tx_id: Seq<u8>,
    pub vout: int,
}

/// Everything the state machine reads of one transaction: its id, the
/// outpoints its inputs spend (input order), the controlling address of
/// its first output, and its parsed inscriptions (input order).
pub struct TxEventV {
    pub tx_id: Seq<u8>,
    pub inputs: Seq<OutpointV>,
    pub out0: Option<Seq<u8>>,
    pub ops: Seq<InscriptionV>,
}

/// A block: its height and its transactions in canonical order.
pub struct BlockV {
    pub height: int,
    pub txs: Seq<TxEventV>,
}

/// Sends triggered by a transaction's inputs, in input order.
pub open spec fn spec_sends(
    s: IndexV,
    inputs: Seq<OutpointV>,
    height: int,
    out0: Option<Seq<u8>>,
) -> IndexV
    decreases inputs.len(),
{
    if inputs.len() == 0 {
        s
    } else {
        spec_send(
            spec_sends(s, inputs.drop_last(), height, out0),
            inputs.last().tx_id,
            inputs.last().vout,
            height,
            out0,
        )
    }
}

/// A transaction's inscriptions dispatched in input order.
pub open spec fn spec_ops(
    s: IndexV,
    ops: Seq<InscriptionV>,
    txid: Seq<u8>,
    height: int,
    out0: Option<Seq<u8>>,
) -> IndexV
    decreases ops.len(),
{
    if ops.len() == 0 {
        s
    } else {
        spec_apply_inscription(
            spec_ops(s, ops.drop_last(), txid, height, out0),
            ops.last(),
            txid,
            height,
            out0,
        )
    }
}

/// One transaction: sends first, then fresh inscriptions.
pub open spec fn spec_tx(s: IndexV, tx: TxEventV, height: int) -> IndexV {
    spec_ops(spec_sends(s, tx.inputs, height, tx.out0), tx.ops, tx.tx_id, height, tx.out0)
}

/// A block's transactions folded in canonical order.
pub open spec fn spec_txs(s: IndexV, txs: Seq<TxEventV>, height: int) -> IndexV
    decreases txs.len(),
{
    if txs.len() == 0 {
        s
    } else {
        spec_tx(spec_txs(s, txs.drop_last(), height), txs.last(), height)
    }
}

/// A whole block.
pub open spec fn spec_block(s: IndexV, b: BlockV) -> IndexV {
    spec_txs(s, b.txs, b.height)
}

/// A run of blocks in order.
pub open spec fn spec_blocks(s: IndexV, bs: Seq<BlockV>) -> IndexV
    decreases bs.len(),
{
    if bs.len() == 0 {
        s
    } else {
        spec_block(spec_blocks(s, bs.drop_last()), bs.last())
    }
}

} // verus!
