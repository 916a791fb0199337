//! The library's laws, stated and proved against the model.
//!
//! Each proof function here is a public statement about every committed
//! state or every run; the executable functions maintain `IndexV::wf`,
//! so each law holds of whatever a caller can reach.

use crate::block::{proc_rollback, proc_step, proc_steps, replay, ProcessorV};
use crate::model::{
    spec_apply_inscription, spec_block, spec_blocks, spec_deploy, spec_ops, spec_send, spec_sends,
    spec_tx, spec_txs, BlockV, OutpointV, TxEventV,
};
use crate::state::{
    active_at, bal_pair, fold_entries, has_active, sum_mints, sum_overall, IndexV, InscriptionV,
    TransferStatusV,
};
use vstd::prelude::*;

verus! {

/// `b`'s history extends `a`'s: nothing already recorded changes, and
/// every new record carries block height `h`.
pub open spec fn entries_extended(a: IndexV, b: IndexV, h: int) -> bool {
    &&& b.entries.len() >= a.entries.len()
    &&& b.entries.subrange(0, a.entries.len() as int) == a.entries
    &&& forall|i: int|
        a.entries.len() <= i < b.entries.len() ==> (#[trigger] b.entries[i]).block_height == h
}

proof fn lemma_entries_extended_refl(a: IndexV, h: int)
    ensures
        entries_extended(a, a, h),
{
    assert(a.entries.subrange(0, a.entries.len() as int) =~= a.entries);
}

proof fn lemma_entries_extended_trans(a: IndexV, b: IndexV, c: IndexV, h: int)
    requires
        entries_extended(a, b, h),
        entries_extended(b, c, h),
    ensures
        entries_extended(a, c, h),
{
    assert forall|i: int| 0 <= i < a.entries.len() implies #[trigger] c.entries[i]
        == a.entries[i] by {
        assert(b.entries.subrange(0, a.entries.len() as int)[i] == a.entries[i]);
        assert(c.entries.subrange(0, b.entries.len() as int)[i] == b.entries[i]);
    }
    assert(c.entries.subrange(0, a.entries.len() as int) =~= a.entries);
    assert forall|i: int|
        a.entries.len() <= i < c.entries.len() implies (#[trigger] c.entries[i]).block_height
        == h by {
        if i < b.entries.len() {
            assert(c.entries.subrange(0, b.entries.len() as int)[i] == b.entries[i]);
            assert(b.entries[i].block_height == h);
        }
    }
}

proof fn lemma_send_extends(s: IndexV, txid: Seq<u8>, vout: int, h: int, o: Option<Seq<u8>>)
    ensures
        entries_extended(s, spec_send(s, txid, vout, h, o), h),
{
    let s2 = spec_send(s, txid, vout, h, o);
    lemma_entries_extended_refl(s, h);
    if has_active(s.active, txid, vout) {
        assert(s2.entries.subrange(0, s.entries.len() as int) =~= s.entries);
    }
}

proof fn lemma_apply_inscription_extends(
    s: IndexV,
    insc: InscriptionV,
    txid: Seq<u8>,
    h: int,
    o: Option<Seq<u8>>,
)
    ensures
        entries_extended(s, spec_apply_inscription(s, insc, txid, h, o), h),
{
    let s2 = spec_apply_inscription(s, insc, txid, h, o);
    lemma_entries_extended_refl(s, h);
    if s2.entries != s.entries {
        assert(s2.entries.subrange(0, s.entries.len() as int) =~= s.entries) by {
            if insc.op == crate::model::op_deploy() {
                assert(spec_deploy(s, insc, txid, h).entries == s.entries);
            }
        }
    }
}

proof fn lemma_sends_extend(s: IndexV, inputs: Seq<OutpointV>, h: int, o: Option<Seq<u8>>)
    ensures
        entries_extended(s, spec_sends(s, inputs, h, o), h),
    decreases inputs.len(),
{
    lemma_entries_extended_refl(s, h);
    if inputs.len() > 0 {
        let mid = spec_sends(s, inputs.drop_last(), h, o);
        lemma_sends_extend(s, inputs.drop_last(), h, o);
        lemma_send_extends(mid, inputs.last().tx_id, inputs.last().vout, h, o);
        lemma_entries_extended_trans(
            s,
            mid,
            spec_send(mid, inputs.last().tx_id, inputs.last().vout, h, o),
            h,
        );
    }
}

proof fn lemma_ops_extend(
    s: IndexV,
    ops: Seq<InscriptionV>,
    txid: Seq<u8>,
    h: int,
    o: Option<Seq<u8>>,
)
    ensures
        entries_extended(s, spec_ops(s, ops, txid, h, o), h),
    decreases ops.len(),
{
    lemma_entries_extended_refl(s, h);
    if ops.len() > 0 {
        let mid = spec_ops(s, ops.drop_last(), txid, h, o);
        lemma_ops_extend(s, ops.drop_last(), txid, h, o);
        lemma_apply_inscription_extends(mid, ops.last(), txid, h, o);
        lemma_entries_extended_trans(
            s,
            mid,
            spec_apply_inscription(mid, ops.last(), txid, h, o),
            h,
        );
    }
}

proof fn lemma_tx_extends(s: IndexV, tx: TxEventV, h: int)
    ensures
        entries_extended(s, spec_tx(s, tx, h), h),
{
    let mid = spec_sends(s, tx.inputs, h, tx.out0);
    lemma_sends_extend(s, tx.inputs, h, tx.out0);
    lemma_ops_extend(mid, tx.ops, tx.tx_id, h, tx.out0);
    lemma_entries_extended_trans(s, mid, spec_tx(s, tx, h), h);
}

proof fn lemma_txs_extend(s: IndexV, txs: Seq<TxEventV>, h: int)
    ensures
        entries_extended(s, spec_txs(s, txs, h), h),
    decreases txs.len(),
{
    lemma_entries_extended_refl(s, h);
    if txs.len() > 0 {
        let mid = spec_txs(s, txs.drop_last(), h);
        lemma_txs_extend(s, txs.drop_last(), h);
        lemma_tx_extends(mid, txs.last(), h);
        lemma_entries_extended_trans(s, mid, spec_tx(mid, txs.last(), h), h);
    }
}

/// Law: the history is append-only, and ordered by block. A block never
/// alters or reorders the records already written; every record it
/// appends carries the block's own height. Within the block, records are
/// appended in transaction order, then input order — so the ledger that
/// [`lemma_ledger_is_history_fold`] equates to the history fold is the
/// fold taken in `(block height, transaction order, input order)`.
pub proof fn lemma_history_append_only(s: IndexV, b: BlockV)
    ensures
        entries_extended(s, spec_block(s, b), b.height),
{
    lemma_txs_extend(s, b.txs, b.height);
}

/// Law: for every ticker of a committed state, the minted total never
/// exceeds the cap, and equals the sum of the credited amounts of its
/// accepted mint records.
pub proof fn lemma_supply_cap(s: IndexV)
    requires
        s.wf(),
    ensures
        forall|i: int|
            0 <= i < s.tickers.len() ==> {
                let t = #[trigger] s.tickers[i];
                &&& t.total_minted <= t.max_supply
                &&& t.total_minted == sum_mints(s.mints, t.tick)
            },
{
}

/// Law: every balance row of a committed state has non-negative
/// sub-balances, and its overall balance is exactly their sum.
pub proof fn lemma_balance_coupling(s: IndexV)
    requires
        s.wf(),
    ensures
        forall|i: int|
            0 <= i < s.balances.len() ==> {
                let b = #[trigger] s.balances[i];
                &&& b.available >= 0
                &&& b.transferable >= 0
                &&& b.overall == b.available + b.transferable
            },
{
}

/// Law: conservation. For every ticker, the overall balances over all
/// addresses sum to exactly the minted total. Nothing is ever burned
/// under this ruleset — a send to an unresolvable output refunds the
/// inscriber — so the subtracted burn term is identically zero.
pub proof fn lemma_conservation(s: IndexV)
    requires
        s.wf(),
    ensures
        forall|i: int|
            0 <= i < s.tickers.len() ==> sum_overall(s.balances, (#[trigger] s.tickers[i]).tick)
                == s.tickers[i].total_minted,
{
}

/// Law: the active-transfer registry holds exactly the outpoints of the
/// transfer-inscribes whose record is still pending — inscribed, not yet
/// spent.
pub proof fn lemma_registry_exact(s: IndexV)
    requires
        s.wf(),
    ensures
        forall|txid: Seq<u8>|
            #[trigger] has_active(s.active, txid, 0) <==> exists|i: int|
                0 <= i < s.transfers.len() && (#[trigger] s.transfers[i]).tx_id == txid
                    && s.transfers[i].status == TransferStatusV::Pending,
{
    assert forall|txid: Seq<u8>| #[trigger] has_active(s.active, txid, 0) implies exists|i: int|
        0 <= i < s.transfers.len() && (#[trigger] s.transfers[i]).tx_id == txid
            && s.transfers[i].status == TransferStatusV::Pending by {
        let k = choose|k: int| active_at(s.active, txid, 0, k);
        assert(active_at(s.active, txid, 0, k));
        let ri = crate::state::transfer_rec_idx(s.transfers, txid);
        assert(crate::state::transfer_rec_at(s.transfers, txid, ri));
        assert(s.transfers[ri].tx_id == txid && s.transfers[ri].status
            == TransferStatusV::Pending);
    }
    assert forall|txid: Seq<u8>|
        (exists|i: int|
            0 <= i < s.transfers.len() && (#[trigger] s.transfers[i]).tx_id == txid
                && s.transfers[i].status == TransferStatusV::Pending) implies #[trigger] has_active(
        s.active,
        txid,
        0,
    ) by {
        let i = choose|i: int|
            0 <= i < s.transfers.len() && (#[trigger] s.transfers[i]).tx_id == txid
                && s.transfers[i].status == TransferStatusV::Pending;
        assert(has_active(s.active, s.transfers[i].tx_id, 0));
    }
}

/// Law: the ledger is the fold of its history. For every `(address,
/// tick)` key, folding the entries in order from the empty ledger yields
/// the stored sub-balance pair.
pub proof fn lemma_ledger_is_history_fold(s: IndexV)
    requires
        s.wf(),
    ensures
        forall|addr: Seq<u8>, tick: Seq<u8>|
            #[trigger] fold_entries(s.entries, addr, tick) == bal_pair(s.balances, addr, tick),
{
}

/// Law: replay determinism. The next state is a mathematical function of
/// the previous state and the block — the executable processor is proved
/// equal to it — so runs from equal states over equal chains are equal.
pub proof fn lemma_replay_deterministic(s1: IndexV, s2: IndexV, bs1: Seq<BlockV>, bs2: Seq<BlockV>)
    requires
        s1 == s2,
        bs1 == bs2,
    ensures
        spec_blocks(s1, bs1) == spec_blocks(s2, bs2),
{
}

/// Law: restart. Processing a chain prefix, stopping, and continuing
/// with the remainder reaches exactly the state of one uninterrupted
/// run over the whole chain.
pub proof fn lemma_restart_equals_fresh_run(s: IndexV, bs1: Seq<BlockV>, bs2: Seq<BlockV>)
    ensures
        spec_blocks(s, bs1 + bs2) == spec_blocks(spec_blocks(s, bs1), bs2),
    decreases bs2.len(),
{
    if bs2.len() == 0 {
        assert(bs1 + bs2 =~= bs1);
    } else {
        lemma_restart_equals_fresh_run(s, bs1, bs2.drop_last());
        assert((bs1 + bs2).drop_last() =~= bs1 + bs2.drop_last());
        assert((bs1 + bs2).last() == bs2.last());
    }
}

/// The chain a processor retains after a run of committed blocks.
pub proof fn lemma_proc_steps_shape(p: ProcessorV, bs: Seq<BlockV>)
    ensures
        proc_steps(p, bs).blocks == p.blocks + bs,
        proc_steps(p, bs).index == spec_blocks(p.index, bs),
        proc_steps(p, bs).activation_height == p.activation_height,
        proc_steps(p, bs).last_completed_height == p.last_completed_height + bs.len(),
    decreases bs.len(),
{
    if bs.len() == 0 {
        assert(p.blocks + bs =~= p.blocks);
    } else {
        lemma_proc_steps_shape(p, bs.drop_last());
        assert((p.blocks + bs.drop_last()).push(bs.last()) =~= p.blocks + bs);
        assert(spec_blocks(p.index, bs) == spec_block(
            spec_blocks(p.index, bs.drop_last()),
            bs.last(),
        )) by {
            assert(bs.drop_last() =~= bs.drop_last());
        }
    }
}

/// Law: rollback round-trip. Committing `k` blocks and then rolling
/// `k` blocks back returns the processor to exactly the state it had —
/// the state of a fresh run to the rollback height.
pub proof fn lemma_rollback_round_trip(p: ProcessorV, bs: Seq<BlockV>)
    requires
        p.wf(),
    ensures
        proc_rollback(proc_steps(p, bs), bs.len() as int) == p,
{
    let q = proc_steps(p, bs);
    lemma_proc_steps_shape(p, bs);
    assert(q.blocks.subrange(0, q.blocks.len() - bs.len()) =~= p.blocks);
}

/// Law: send exclusivity. A send consumes its outpoint exactly once:
/// afterwards the outpoint is no longer active, and a further spend of
/// it changes nothing. (An outpoint that was never active triggers no
/// send at all: `spec_send` is the identity on it.)
pub proof fn lemma_send_exclusive(
    s: IndexV,
    txid: Seq<u8>,
    vout: int,
    h1: int,
    o1: Option<Seq<u8>>,
    h2: int,
    o2: Option<Seq<u8>>,
)
    requires
        s.wf(),
        has_active(s.active, txid, vout),
    ensures
        !has_active(spec_send(s, txid, vout, h1, o1).active, txid, vout),
        spec_send(spec_send(s, txid, vout, h1, o1), txid, vout, h2, o2) == spec_send(
            s,
            txid,
            vout,
            h1,
            o1,
        ),
{
    let s2 = spec_send(s, txid, vout, h1, o1);
    let ai = crate::state::active_idx(s.active, txid, vout);
    assert(active_at(s.active, txid, vout, ai));
    assert(s2.active == s.active.remove(ai));
    assert(!has_active(s2.active, txid, vout)) by {
        if has_active(s2.active, txid, vout) {
            let k = choose|k: int| active_at(s2.active, txid, vout, k);
            assert(active_at(s2.active, txid, vout, k));
            let k0: int = if k < ai {
                k
            } else {
                k + 1
            };
            assert(s2.active[k] == s.active[k0]);
            assert(active_at(s.active, txid, vout, k0));
            crate::invariants::lemma_active_idx_is(s.active, txid, vout, k0);
        }
    }
}

} // verus!
