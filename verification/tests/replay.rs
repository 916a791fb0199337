use brc20_index::block::{Block, BlockProcessor, Outpoint, TxEvent};
use brc20_index::state::{Brc20Inscription, TransferStatus};

fn by(s: &str) -> Vec<u8> {
    s.as_bytes().to_vec()
}

fn deploy(tick: &str, max: &str, lim: &str, dec: &str) -> Brc20Inscription {
    Brc20Inscription {
        p: by("brc-20"),
        op: by("deploy"),
        tick: by(tick),
        max: Some(by(max)),
        lim: Some(by(lim)),
        dec: Some(by(dec)),
        amt: None,
    }
}

fn mint(tick: &str, amt: &str) -> Brc20Inscription {
    Brc20Inscription {
        p: by("brc-20"),
        op: by("mint"),
        tick: by(tick),
        max: None,
        lim: None,
        dec: None,
        amt: Some(by(amt)),
    }
}

fn transfer(tick: &str, amt: &str) -> Brc20Inscription {
    Brc20Inscription {
        p: by("brc-20"),
        op: by("transfer"),
        tick: by(tick),
        max: None,
        lim: None,
        dec: None,
        amt: Some(by(amt)),
    }
}

fn tx(txid: &str, spends: &[(&str, u32)], out0: Option<&str>, ops: Vec<Brc20Inscription>) -> TxEvent {
    TxEvent {
        tx_id: by(txid),
        inputs: spends
            .iter()
            .map(|(t, v)| Outpoint { tx_id: by(t), vout: *v })
            .collect(),
        out0_address: out0.map(by),
        inscriptions: ops,
    }
}

/// A small three-block chain: deploy and mints, then a transfer
/// inscribe, then its send plus another mint.
fn chain(activation: u64) -> Vec<Block> {
    vec![
        Block {
            height: activation,
            txs: vec![
                tx("d0", &[], Some("A"), vec![deploy("ordi", "1000", "500", "0")]),
                tx("m1", &[], Some("A"), vec![mint("ordi", "300")]),
                tx("m2", &[], Some("B"), vec![mint("ordi", "200")]),
            ],
        },
        Block {
            height: activation + 1,
            txs: vec![tx("i3", &[], Some("A"), vec![transfer("ordi", "120")])],
        },
        Block {
            height: activation + 2,
            txs: vec![
                tx("s4", &[("i3", 0)], Some("B"), vec![]),
                tx("m5", &[], Some("B"), vec![mint("ordi", "100")]),
            ],
        },
    ]
}

#[test]
fn restart_equals_fresh_run() {
    let act = 767430u64;
    // one uninterrupted run
    let mut p_full = BlockProcessor::new(act);
    for b in chain(act) {
        p_full.process_next_block(b);
    }
    // the same chain with a stop after the second block
    let mut p_split = BlockProcessor::new(act);
    let mut blocks = chain(act).into_iter();
    p_split.process_next_block(blocks.next().unwrap());
    p_split.process_next_block(blocks.next().unwrap());
    // "restart": processing simply continues from the high-water mark
    assert_eq!(p_split.next_height(), act + 2);
    p_split.process_next_block(blocks.next().unwrap());
    assert_eq!(p_full.index, p_split.index);
    assert_eq!(p_full.last_completed_height, p_split.last_completed_height);
}

#[test]
fn two_fresh_runs_agree() {
    let act = 767430u64;
    let mut p1 = BlockProcessor::new(act);
    let mut p2 = BlockProcessor::new(act);
    for b in chain(act) {
        p1.process_next_block(b);
    }
    for b in chain(act) {
        p2.process_next_block(b);
    }
    assert_eq!(p1.index, p2.index);
}

#[test]
fn rollback_round_trip() {
    let act = 100u64;
    let mut p = BlockProcessor::new(act);
    for b in chain(act) {
        p.process_next_block(b);
    }
    assert_eq!(p.last_completed_height, act + 2);
    // roll the last two blocks back
    p.rollback(2);
    assert_eq!(p.last_completed_height, act);
    // a fresh run over the first block only
    let mut q = BlockProcessor::new(act);
    q.process_next_block(chain(act).into_iter().next().unwrap());
    assert_eq!(p.index, q.index);
    // processing forward again reaches the full-run state
    let mut rest = chain(act).into_iter();
    rest.next();
    for b in rest {
        p.process_next_block(b);
    }
    let mut full = BlockProcessor::new(act);
    for b in chain(act) {
        full.process_next_block(b);
    }
    assert_eq!(p.index, full.index);
}

#[test]
fn block_level_transfer_settles() {
    let act = 100u64;
    let mut p = BlockProcessor::new(act);
    for b in chain(act) {
        p.process_next_block(b);
    }
    let ix = &p.index;
    let a_row = ix.find_balance(&by("A"), &by("ordi")).unwrap();
    let b_row = ix.find_balance(&by("B"), &by("ordi")).unwrap();
    assert_eq!(ix.balances[a_row].available_balance, 180);
    assert_eq!(ix.balances[a_row].transferable_balance, 0);
    assert_eq!(ix.balances[b_row].available_balance, 420);
    assert!(ix.find_active(&by("i3"), 0).is_none());
    let ri = ix.find_transfer_rec(&by("i3")).unwrap();
    assert_eq!(ix.transfers[ri].status, TransferStatus::Sent(by("B")));
}

#[test]
fn same_block_inscribe_then_send() {
    let act = 100u64;
    let mut p = BlockProcessor::new(act);
    p.process_next_block(Block {
        height: act,
        txs: vec![
            tx("d0", &[], Some("A"), vec![deploy("ordi", "1000", "500", "0")]),
            tx("m1", &[], Some("A"), vec![mint("ordi", "50")]),
            // the inscribe and its spend in the same block, in tx order
            tx("i2", &[], Some("A"), vec![transfer("ordi", "30")]),
            tx("s3", &[("i2", 0)], Some("B"), vec![]),
        ],
    });
    let ix = &p.index;
    let a_row = ix.find_balance(&by("A"), &by("ordi")).unwrap();
    let b_row = ix.find_balance(&by("B"), &by("ordi")).unwrap();
    assert_eq!(ix.balances[a_row].available_balance, 20);
    assert_eq!(ix.balances[a_row].transferable_balance, 0);
    assert_eq!(ix.balances[b_row].available_balance, 30);
    assert!(ix.find_active(&by("i2"), 0).is_none());
}

#[test]
fn unknown_operations_are_skipped_silently() {
    let act = 100u64;
    let mut p = BlockProcessor::new(act);
    let odd_op = Brc20Inscription {
        p: by("brc-20"),
        op: by("burn"),
        tick: by("ordi"),
        max: None,
        lim: None,
        dec: None,
        amt: Some(by("5")),
    };
    let wrong_tag = Brc20Inscription {
        p: by("brc-21"),
        op: by("mint"),
        tick: by("ordi"),
        max: None,
        lim: None,
        dec: None,
        amt: Some(by("5")),
    };
    p.process_next_block(Block {
        height: act,
        txs: vec![tx("x0", &[], Some("A"), vec![odd_op, wrong_tag])],
    });
    assert!(p.index.tickers.is_empty());
    assert!(p.index.invalids.is_empty());
    assert!(p.index.entries.is_empty());
}
