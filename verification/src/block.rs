//! Block processing: transactions in canonical order, sends before fresh
//! inscriptions, and a processor that keeps the high-water mark and can
//! roll back a reorg by replaying the retained chain prefix.

use crate::bytes::bytes_eq;
use crate::model::{
    op_deploy, op_mint, op_transfer, protocol_tag, spec_apply_inscription, spec_block, spec_blocks,
    spec_ops, spec_sends, spec_tx, spec_txs, BlockV, OutpointV, TxEventV,
};
use crate::state::{opt_bytes_view, Brc20Index, Brc20Inscription, IndexV};
use vstd::prelude::*;

verus! {

/// One previous output spent by a transaction input.
#[derive(Clone, Debug, PartialEq, Eq)]
pub struct Outpoint {
    pub tx_id: Vec<u8>,
    pub vout: u32,
}

impl View for Outpoint {
    type V = OutpointV;

    open spec fn view(&self) -> OutpointV {
        OutpointV { tx_id: self.tx_id@, vout: self.vout as int }
    }
}

/// Everything the state machine reads of one transaction: its id, the
/// outpoints its inputs spend (input order), the controlling address of
/// its first output (`None` where none can be derived), and its parsed
/// inscriptions (input order).
#[derive(Clone, Debug, PartialEq, Eq)]
pub struct TxEvent {
    pub tx_id: Vec<u8>,
    pub inputs: Vec<Outpoint>,
    pub out0_address: Option<Vec<u8>>,
    pub inscriptions: Vec<Brc20Inscription>,
}

impl View for TxEvent {
    type V = TxEventV;

    open spec fn view(&self) -> TxEventV {
        TxEventV {
            tx_id: self.tx_id@,
            inputs: self.inputs@.map_values(|o: Outpoint| o@),
            out0: opt_bytes_view(self.out0_address),
            ops: self.inscriptions@.map_values(|i: Brc20Inscription| i@),
        }
    }
}

/// A block: its height and its transactions in canonical order.
#[derive(Clone, Debug, PartialEq, Eq)]
pub struct Block {
    pub height: u64,
    pub txs: Vec<TxEvent>,
}

impl View for Block {
    type V = BlockV;

    open spec fn view(&self) -> BlockV {
        BlockV { height: self.height as int, txs: self.txs@.map_values(|t: TxEvent| t@) }
    }
}

/// The block height at which the protocol activates on mainnet.
pub const MAINNET_ACTIVATION_HEIGHT: u64 = 767430;

/// The block height at which the protocol activates on testnet.
pub const TESTNET_ACTIVATION_HEIGHT: u64 = 2423500;

impl crate::state::Brc20Transfer {
    /// The outpoint the transfer-inscribe lives at: output zero of its
    /// reveal transaction.
    pub fn get_inscription_outpoint(&self) -> (r: Outpoint)
        ensures
            r@.tx_id == self@.tx_id,
            r@.vout == 0,
    {
        Outpoint { tx_id: crate::bytes::clone_bytes(&self.tx_id), vout: 0 }
    }
}

/// `"brc-20"` as a byte string.
pub fn tag_brc20() -> (r: Vec<u8>)
    ensures
        r@ == protocol_tag(),
{
    let mut v: Vec<u8> = Vec::new();
    v.push(98);
    v.push(114);
    v.push(99);
    v.push(45);
    v.push(50);
    v.push(48);
    proof {
        assert(v@ =~= protocol_tag());
    }
    v
}

/// `"deploy"` as a byte string.
pub fn op_deploy_bytes() -> (r: Vec<u8>)
    ensures
        r@ == op_deploy(),
{
    let mut v: Vec<u8> = Vec::new();
    v.push(100);
    v.push(101);
    v.push(112);
    v.push(108);
    v.push(111);
    v.push(121);
    proof {
        assert(v@ =~= op_deploy());
    }
    v
}

/// `"mint"` as a byte string.
pub fn op_mint_bytes() -> (r: Vec<u8>)
    ensures
        r@ == op_mint(),
{
    let mut v: Vec<u8> = Vec::new();
    v.push(109);
    v.push(105);
    v.push(110);
    v.push(116);
    proof {
        assert(v@ =~= op_mint());
    }
    v
}

/// `"transfer"` as a byte string.
pub fn op_transfer_bytes() -> (r: Vec<u8>)
    ensures
        r@ == op_transfer(),
{
    let mut v: Vec<u8> = Vec::new();
    v.push(116);
    v.push(114);
    v.push(97);
    v.push(110);
    v.push(115);
    v.push(102);
    v.push(101);
    v.push(114);
    proof {
        assert(v@ =~= op_transfer());
    }
    v
}

impl Brc20Index {
    /// One parsed inscription dispatched by its `p` and `op` fields; a
    /// payload that is not `brc-20`, or an unknown operation, is skipped
    /// without a record.
    pub fn apply_inscription(
        &mut self,
        insc: &Brc20Inscription,
        txid: &Vec<u8>,
        height: u64,
        out0: &Option<Vec<u8>>,
    )
        requires
            old(self)@.wf(),
        ensures
            final(self)@ == spec_apply_inscription(
                old(self)@,
                insc@,
                txid@,
                height as int,
                opt_bytes_view(*out0),
            ),
            final(self)@.wf(),
    {
        let tag = tag_brc20();
        if !bytes_eq(&insc.p, &tag) {
            return ;
        }
        let dep = op_deploy_bytes();
        if bytes_eq(&insc.op, &dep) {
            let _ = self.apply_deploy(insc, txid, height);
            return ;
        }
        let mnt = op_mint_bytes();
        if bytes_eq(&insc.op, &mnt) {
            let _ = self.apply_mint(insc, txid, height, out0);
            return ;
        }
        let tr = op_transfer_bytes();
        if bytes_eq(&insc.op, &tr) {
            let _ = self.apply_transfer_inscribe(insc, txid, height, out0);
            return ;
        }
    }

    /// One transaction: transfer-sends triggered by its inputs first (in
    /// input order), then its inscriptions (in input order).
    pub fn process_tx(&mut self, tx: &TxEvent, height: u64)
        requires
            old(self)@.wf(),
        ensures
            final(self)@ == spec_tx(old(self)@, tx@, height as int),
            final(self)@.wf(),
    {
        let mut i: usize = 0;
        while i < tx.inputs.len()
            invariant
                0 <= i <= tx.inputs.len(),
                self@ == spec_sends(
                    old(self)@,
                    tx@.inputs.subrange(0, i as int),
                    height as int,
                    tx@.out0,
                ),
                self@.wf(),
            decreases tx.inputs.len() - i,
        {
            let ghost pre = tx@.inputs.subrange(0, i as int);
            let inp = &tx.inputs[i];
            let _ = self.apply_transfer_send(&inp.tx_id, inp.vout, height, &tx.out0_address);
            i = i + 1;
            proof {
                assert(tx@.inputs.subrange(0, i as int).drop_last() =~= pre);
                assert(tx@.inputs.subrange(0, i as int).last() == tx@.inputs[i - 1]);
            }
        }
        proof {
            assert(tx@.inputs.subrange(0, tx@.inputs.len() as int) =~= tx@.inputs);
        }
        let mut j: usize = 0;
        let ghost mid = self@;
        while j < tx.inscriptions.len()
            invariant
                0 <= j <= tx.inscriptions.len(),
                mid == spec_sends(old(self)@, tx@.inputs, height as int, tx@.out0),
                self@ == spec_ops(
                    mid,
                    tx@.ops.subrange(0, j as int),
                    tx@.tx_id,
                    height as int,
                    tx@.out0,
                ),
                self@.wf(),
            decreases tx.inscriptions.len() - j,
        {
            let ghost pre = tx@.ops.subrange(0, j as int);
            let insc = &tx.inscriptions[j];
            self.apply_inscription(insc, &tx.tx_id, height, &tx.out0_address);
            j = j + 1;
            proof {
                assert(tx@.ops.subrange(0, j as int).drop_last() =~= pre);
                assert(tx@.ops.subrange(0, j as int).last() == tx@.ops[j - 1]);
            }
        }
        proof {
            assert(tx@.ops.subrange(0, tx@.ops.len() as int) =~= tx@.ops);
        }
    }

    /// A whole block in canonical transaction order.
    pub fn process_block(&mut self, b: &Block)
        requires
            old(self)@.wf(),
        ensures
            final(self)@ == spec_block(old(self)@, b@),
            final(self)@.wf(),
    {
        let mut i: usize = 0;
        while i < b.txs.len()
            invariant
                0 <= i <= b.txs.len(),
                self@ == spec_txs(old(self)@, b@.txs.subrange(0, i as int), b@.height),
                self@.wf(),
            decreases b.txs.len() - i,
        {
            let ghost pre = b@.txs.subrange(0, i as int);
            let tx = &b.txs[i];
            self.process_tx(tx, b.height);
            i = i + 1;
            proof {
                assert(b@.txs.subrange(0, i as int).drop_last() =~= pre);
                assert(b@.txs.subrange(0, i as int).last() == b@.txs[i - 1]);
            }
        }
        proof {
            assert(b@.txs.subrange(0, b@.txs.len() as int) =~= b@.txs);
        }
    }
}

/// The state a fresh run reaches after the given blocks, starting from
/// the empty index at the activation height.
pub open spec fn replay(blocks: Seq<BlockV>) -> IndexV {
    spec_blocks(IndexV::empty(), blocks)
}

/// The view of a [`BlockProcessor`].
pub struct ProcessorV {
    pub index: IndexV,
    pub blocks: Seq<BlockV>,
    pub activation_height: int,
    pub last_completed_height: int,
}

impl ProcessorV {
    /// The processor's invariant: the in-memory index is exactly the
    /// replay of the retained chain, and the high-water mark counts it.
    pub open spec fn wf(self) -> bool {
        &&& self.index == replay(self.blocks)
        &&& self.index.wf()
        &&& self.activation_height >= 1
        &&& self.last_completed_height == self.activation_height - 1 + self.blocks.len()
        &&& self.last_completed_height <= u64::MAX
    }
}

/// One committed block at the processor level.
pub open spec fn proc_step(p: ProcessorV, b: BlockV) -> ProcessorV {
    ProcessorV {
        index: spec_block(p.index, b),
        blocks: p.blocks.push(b),
        activation_height: p.activation_height,
        last_completed_height: p.last_completed_height + 1,
    }
}

/// A run of committed blocks at the processor level.
pub open spec fn proc_steps(p: ProcessorV, bs: Seq<BlockV>) -> ProcessorV
    decreases bs.len(),
{
    if bs.len() == 0 {
        p
    } else {
        proc_step(proc_steps(p, bs.drop_last()), bs.last())
    }
}

/// A rollback of `k` blocks: the retained chain loses its last `k`
/// blocks and the state becomes the replay of what remains.
pub open spec fn proc_rollback(p: ProcessorV, k: int) -> ProcessorV {
    if 0 <= k <= p.blocks.len() {
        ProcessorV {
            index: replay(p.blocks.subrange(0, p.blocks.len() - k)),
            blocks: p.blocks.subrange(0, p.blocks.len() - k),
            activation_height: p.activation_height,
            last_completed_height: p.last_completed_height - k,
        }
    } else {
        p
    }
}

/// Drives the index block by block, records the high-water mark, and
/// rolls reorgs back by replaying the retained chain prefix — the
/// checkpoint-resync discipline, with the activation height as the
/// checkpoint.
pub struct BlockProcessor {
    pub index: Brc20Index,
    pub blocks: Vec<Block>,
    pub activation_height: u64,
    pub last_completed_height: u64,
}

impl View for BlockProcessor {
    type V = ProcessorV;

    open spec fn view(&self) -> ProcessorV {
        ProcessorV {
            index: self.index@,
            blocks: self.blocks@.map_values(|b: Block| b@),
            activation_height: self.activation_height as int,
            last_completed_height: self.last_completed_height as int,
        }
    }
}

impl BlockProcessor {
    /// A fresh processor that will start at `activation_height`.
    pub fn new(activation_height: u64) -> (r: BlockProcessor)
        requires
            activation_height >= 1,
        ensures
            r@.wf(),
            r@.index == IndexV::empty(),
            r@.blocks == Seq::<BlockV>::empty(),
            r@.activation_height == activation_height as int,
            r@.last_completed_height == activation_height - 1,
    {
        let r = BlockProcessor {
            index: Brc20Index::new(),
            blocks: Vec::new(),
            activation_height,
            last_completed_height: activation_height - 1,
        };
        proof {
            assert(r@.blocks =~= Seq::<BlockV>::empty());
            crate::state::lemma_empty_wf();
        }
        r
    }

    /// The height the processor expects next.
    pub fn next_height(&self) -> (r: u64)
        requires
            self@.last_completed_height < u64::MAX,
        ensures
            r as int == self@.last_completed_height + 1,
    {
        self.last_completed_height + 1
    }

    /// Commits one block: it must be the next in sequence.
    pub fn process_next_block(&mut self, b: Block)
        requires
            old(self)@.wf(),
            b@.height == old(self)@.last_completed_height + 1,
            old(self)@.last_completed_height < u64::MAX,
        ensures
            final(self)@ == proc_step(old(self)@, b@),
            final(self)@.wf(),
    {
        self.index.process_block(&b);
        self.blocks.push(b);
        self.last_completed_height = self.last_completed_height + 1;
        proof {
            assert(self@.blocks =~= old(self)@.blocks.push(self.blocks@.last()@));
            assert(old(self)@.blocks.push(self.blocks@.last()@).drop_last() =~= old(self)@.blocks);
            assert(self@.index == replay(self@.blocks));
        }
    }

    /// Rolls back the last `k` blocks by replaying the retained prefix
    /// from the activation height.
    pub fn rollback(&mut self, k: usize)
        requires
            old(self)@.wf(),
            k <= old(self)@.blocks.len(),
        ensures
            final(self)@ == proc_rollback(old(self)@, k as int),
            final(self)@.wf(),
    {
        proof {
            assert(old(self)@.blocks.subrange(0, old(self)@.blocks.len() as int) =~= old(
                self,
            )@.blocks);
        }
        let mut j: usize = 0;
        while j < k
            invariant
                0 <= j <= k,
                k <= old(self)@.blocks.len(),
                self@.blocks == old(self)@.blocks.subrange(
                    0,
                    old(self)@.blocks.len() - j as int,
                ),
                self.index == old(self).index,
                self.activation_height == old(self).activation_height,
                self.last_completed_height == old(self).last_completed_height,
            decreases k - j,
        {
            proof {
                assert(self@.blocks.len() == old(self)@.blocks.len() - j as int);
                assert(self.blocks@.len() == self@.blocks.len());
                assert(self.blocks@.len() > 0);
            }
            let _ = self.blocks.pop();
            j = j + 1;
            proof {
                assert(self@.blocks =~= old(self)@.blocks.subrange(
                    0,
                    old(self)@.blocks.len() - j as int,
                ));
            }
        }
        proof {
            assert(old(self)@.last_completed_height == old(self)@.activation_height - 1 + old(
                self,
            )@.blocks.len());
        }
        self.last_completed_height = self.last_completed_height - (k as u64);
        let mut idx = Brc20Index::new();
        proof {
            assert(self@.blocks.subrange(0, 0) =~= Seq::<BlockV>::empty());
        }
        let mut i: usize = 0;
        while i < self.blocks.len()
            invariant
                0 <= i <= self.blocks.len(),
                idx@ == spec_blocks(IndexV::empty(), self@.blocks.subrange(0, i as int)),
                idx@.wf(),
                self@.blocks == old(self)@.blocks.subrange(
                    0,
                    old(self)@.blocks.len() - k as int,
                ),
                self.activation_height == old(self).activation_height,
                self.last_completed_height as int == old(self)@.last_completed_height - k as int,
            decreases self.blocks.len() - i,
        {
            let ghost pre = self@.blocks.subrange(0, i as int);
            idx.process_block(&self.blocks[i]);
            i = i + 1;
            proof {
                assert(self@.blocks.subrange(0, i as int).drop_last() =~= pre);
                assert(self@.blocks.subrange(0, i as int).last() == self@.blocks[i - 1]);
            }
        }
        proof {
            assert(self@.blocks.subrange(0, self@.blocks.len() as int) =~= self@.blocks);
        }
        self.index = idx;
    }
}

} // verus!
