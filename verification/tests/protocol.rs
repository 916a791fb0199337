use brc20_index::state::{
    Brc20Index, Brc20Inscription, InvalidReason, TransferStatus, UserBalanceEntry,
    UserBalanceEntryType,
};

fn by(s: &str) -> Vec<u8> {
    s.as_bytes().to_vec()
}

fn deploy(tick: &str, max: &str, lim: Option<&str>, dec: Option<&str>) -> Brc20Inscription {
    Brc20Inscription {
        p: by("brc-20"),
        op: by("deploy"),
        tick: by(tick),
        max: Some(by(max)),
        lim: lim.map(by),
        dec: dec.map(by),
        amt: None,
    }
}

fn mint(tick: &str, amt: &str) -> Brc20Inscription {
    Brc20Inscription {
        p: by("brc-20"),
        op: by("mint"),
        tick: by(tick),
        max: None,
        lim: None,
        dec: None,
        amt: Some(by(amt)),
    }
}

fn transfer(tick: &str, amt: &str) -> Brc20Inscription {
    Brc20Inscription {
        p: by("brc-20"),
        op: by("transfer"),
        tick: by(tick),
        max: None,
        lim: None,
        dec: None,
        amt: Some(by(amt)),
    }
}

fn balance_of(ix: &Brc20Index, addr: &str, tick: &str) -> (u128, u128, u128) {
    match ix.find_balance(&by(addr), &by(tick)) {
        Some(i) => {
            let b = &ix.balances[i];
            (b.available_balance, b.transferable_balance, b.overall_balance)
        }
        None => (0, 0, 0),
    }
}

const E18: u128 = 1_000_000_000_000_000_000;

#[test]
fn deploy_and_full_mint() {
    let mut ix = Brc20Index::new();
    let a = Some(by("addr_A"));
    assert_eq!(
        ix.apply_deploy(&deploy("ORDI", "21000000", Some("1000"), Some("18")), &by("t0"), 767430),
        Ok(())
    );
    assert_eq!(ix.apply_mint(&mint("ORDI", "1000"), &by("t1"), 767431, &a), Ok(()));
    let ti = ix.find_ticker(&by("ordi")).expect("ticker");
    assert_eq!(ix.tickers[ti].total_minted, 1000 * E18);
    assert_eq!(ix.tickers[ti].max_supply, 21_000_000 * E18);
    assert_eq!(ix.tickers[ti].limit, 1000 * E18);
    assert_eq!(ix.tickers[ti].decimals, 18);
    assert_eq!(balance_of(&ix, "addr_A", "ordi"), (1000 * E18, 0, 1000 * E18));
    assert_eq!(ix.mints.len(), 1);
    assert!(!ix.mints[0].clamped);
}

#[test]
fn clamped_mint_closes_the_ticker() {
    let mut ix = Brc20Index::new();
    let a = Some(by("addr_A"));
    ix.apply_deploy(&deploy("TEST", "21000000", Some("20999500"), Some("0")), &by("t0"), 10)
        .unwrap();
    ix.apply_mint(&mint("TEST", "20999500"), &by("t1"), 10, &a).unwrap();
    // request 1000 with only 500 remaining: partial accept of 500
    assert_eq!(ix.apply_mint(&mint("TEST", "1000"), &by("t2"), 11, &a), Ok(()));
    let ti = ix.find_ticker(&by("test")).unwrap();
    assert_eq!(ix.tickers[ti].total_minted, 21_000_000);
    assert_eq!(balance_of(&ix, "addr_A", "test").0, 21_000_000);
    assert!(ix.mints[1].clamped);
    assert_eq!(ix.mints[1].amount, 500);
    // further mints are invalid: the ticker is fully minted
    assert_eq!(
        ix.apply_mint(&mint("TEST", "1"), &by("t3"), 12, &a),
        Err(InvalidReason::TickerFullyMinted)
    );
    assert_eq!(ix.invalids.last().unwrap().reason, InvalidReason::TickerFullyMinted);
}

#[test]
fn transfer_happy_path() {
    let mut ix = Brc20Index::new();
    let a = Some(by("addr_A"));
    let b = Some(by("addr_B"));
    ix.apply_deploy(&deploy("ordi", "1000", Some("100"), Some("0")), &by("t0"), 10).unwrap();
    ix.apply_mint(&mint("ordi", "100"), &by("t1"), 10, &a).unwrap();
    assert_eq!(
        ix.apply_transfer_inscribe(&transfer("ordi", "40"), &by("t2"), 11, &a),
        Ok(())
    );
    assert_eq!(balance_of(&ix, "addr_A", "ordi"), (60, 40, 100));
    assert!(ix.find_active(&by("t2"), 0).is_some());
    // the spend of (t2, 0) pays out to B
    let sent = ix.apply_transfer_send(&by("t2"), 0, 12, &b);
    assert!(sent);
    assert_eq!(balance_of(&ix, "addr_A", "ordi"), (60, 0, 60));
    assert_eq!(balance_of(&ix, "addr_B", "ordi"), (40, 0, 40));
    assert!(ix.find_active(&by("t2"), 0).is_none());
    let ri = ix.find_transfer_rec(&by("t2")).unwrap();
    assert_eq!(ix.transfers[ri].status, TransferStatus::Sent(by("addr_B")));
    // one Send leg for A and one Receive leg for B
    let last2: Vec<&UserBalanceEntry> = ix.entries.iter().rev().take(2).collect();
    assert!(last2.iter().any(|e| e.address == by("addr_A")
        && matches!(e.entry_type, UserBalanceEntryType::Send)
        && e.amt == -40));
    assert!(last2.iter().any(|e| e.address == by("addr_B")
        && matches!(e.entry_type, UserBalanceEntryType::Receive)
        && e.amt == 40));
}

#[test]
fn transfer_insufficient_balance() {
    let mut ix = Brc20Index::new();
    let a = Some(by("addr_A"));
    ix.apply_deploy(&deploy("ordi", "1000", Some("100"), Some("0")), &by("t0"), 10).unwrap();
    ix.apply_mint(&mint("ordi", "10"), &by("t1"), 10, &a).unwrap();
    assert_eq!(
        ix.apply_transfer_inscribe(&transfer("ordi", "40"), &by("t2"), 11, &a),
        Err(InvalidReason::InsufficientAvailableBalance)
    );
    assert_eq!(balance_of(&ix, "addr_A", "ordi"), (10, 0, 10));
    assert_eq!(
        ix.invalids.last().unwrap().reason,
        InvalidReason::InsufficientAvailableBalance
    );
    assert!(ix.find_active(&by("t2"), 0).is_none());
}

#[test]
fn double_deploy_rejected() {
    let mut ix = Brc20Index::new();
    assert_eq!(ix.apply_deploy(&deploy("TEST", "1000", None, None), &by("t0"), 10), Ok(()));
    assert_eq!(
        ix.apply_deploy(&deploy("TEST", "5000", None, None), &by("t1"), 10),
        Err(InvalidReason::TickerAlreadyDeployed)
    );
    assert_eq!(ix.tickers.len(), 1);
    assert_eq!(ix.tickers[0].max_supply, 1000 * E18);
    assert_eq!(ix.invalids.last().unwrap().reason, InvalidReason::TickerAlreadyDeployed);
}

#[test]
fn deploy_tick_length_rejected() {
    let mut ix = Brc20Index::new();
    assert_eq!(
        ix.apply_deploy(&deploy("TESTS", "1000", None, None), &by("t0"), 10),
        Err(InvalidReason::MalformedInscription)
    );
    assert_eq!(
        ix.apply_deploy(&deploy("abc", "1000", None, None), &by("t1"), 10),
        Err(InvalidReason::MalformedInscription)
    );
    assert!(ix.tickers.is_empty());
}

#[test]
fn transfer_precision_rejected() {
    let mut ix = Brc20Index::new();
    let a = Some(by("addr_A"));
    ix.apply_deploy(&deploy("ordi", "1000", Some("100"), Some("2")), &by("t0"), 10).unwrap();
    ix.apply_mint(&mint("ordi", "10"), &by("t1"), 10, &a).unwrap();
    assert_eq!(
        ix.apply_transfer_inscribe(&transfer("ordi", "1.234"), &by("t2"), 11, &a),
        Err(InvalidReason::BadDecimalPrecision)
    );
    assert_eq!(ix.invalids.last().unwrap().reason, InvalidReason::BadDecimalPrecision);
}

#[test]
fn burn_refunds_inscriber() {
    let mut ix = Brc20Index::new();
    let a = Some(by("addr_A"));
    ix.apply_deploy(&deploy("ordi", "1000", Some("100"), Some("0")), &by("t0"), 10).unwrap();
    ix.apply_mint(&mint("ordi", "100"), &by("t1"), 10, &a).unwrap();
    ix.apply_transfer_inscribe(&transfer("ordi", "40"), &by("t2"), 11, &a).unwrap();
    assert_eq!(balance_of(&ix, "addr_A", "ordi"), (60, 40, 100));
    // the spending output has no derivable address: refund to sender
    let sent = ix.apply_transfer_send(&by("t2"), 0, 12, &None);
    assert!(sent);
    assert_eq!(balance_of(&ix, "addr_A", "ordi"), (100, 0, 100));
    assert!(ix.find_active(&by("t2"), 0).is_none());
    let ri = ix.find_transfer_rec(&by("t2")).unwrap();
    assert_eq!(ix.transfers[ri].status, TransferStatus::Refunded);
}

#[test]
fn second_spend_is_no_send() {
    let mut ix = Brc20Index::new();
    let a = Some(by("addr_A"));
    let b = Some(by("addr_B"));
    ix.apply_deploy(&deploy("ordi", "1000", Some("100"), Some("0")), &by("t0"), 10).unwrap();
    ix.apply_mint(&mint("ordi", "100"), &by("t1"), 10, &a).unwrap();
    ix.apply_transfer_inscribe(&transfer("ordi", "40"), &by("t2"), 11, &a).unwrap();
    assert!(ix.apply_transfer_send(&by("t2"), 0, 12, &b));
    let entries_after = ix.entries.len();
    // the outpoint is consumed: a second spend triggers nothing
    assert!(!ix.apply_transfer_send(&by("t2"), 0, 13, &b));
    assert_eq!(ix.entries.len(), entries_after);
    assert_eq!(balance_of(&ix, "addr_B", "ordi"), (40, 0, 40));
}

#[test]
fn mint_error_reasons() {
    let mut ix = Brc20Index::new();
    let a = Some(by("addr_A"));
    assert_eq!(
        ix.apply_mint(&mint("none", "5"), &by("t0"), 10, &a),
        Err(InvalidReason::TickerNotFound)
    );
    ix.apply_deploy(&deploy("ordi", "1000", Some("100"), Some("0")), &by("t1"), 10).unwrap();
    assert_eq!(
        ix.apply_mint(&mint("ordi", "101"), &by("t2"), 10, &a),
        Err(InvalidReason::AmountExceedsLimit)
    );
    assert_eq!(
        ix.apply_mint(&mint("ordi", "5"), &by("t3"), 10, &None),
        Err(InvalidReason::UnresolvableAddress)
    );
    let no_amt = Brc20Inscription {
        p: by("brc-20"),
        op: by("mint"),
        tick: by("ordi"),
        max: None,
        lim: None,
        dec: None,
        amt: None,
    };
    assert_eq!(
        ix.apply_mint(&no_amt, &by("t4"), 10, &a),
        Err(InvalidReason::MalformedInscription)
    );
    assert_eq!(
        ix.apply_mint(&mint("ordi", "0"), &by("t5"), 10, &a),
        Err(InvalidReason::MalformedInscription)
    );
}

#[test]
fn transfer_without_balance_row_rejected() {
    let mut ix = Brc20Index::new();
    let c = Some(by("addr_C"));
    ix.apply_deploy(&deploy("ordi", "1000", Some("100"), Some("0")), &by("t0"), 10).unwrap();
    assert_eq!(
        ix.apply_transfer_inscribe(&transfer("ordi", "5"), &by("t1"), 10, &c),
        Err(InvalidReason::UserBalanceNotFound)
    );
}

#[test]
fn tick_lookup_is_case_insensitive() {
    let mut ix = Brc20Index::new();
    let a = Some(by("addr_A"));
    ix.apply_deploy(&deploy("OrDi", "1000", Some("100"), Some("0")), &by("t0"), 10).unwrap();
    assert!(ix.find_ticker(&by("ordi")).is_some());
    assert_eq!(ix.apply_mint(&mint("oRdI", "5"), &by("t1"), 10, &a), Ok(()));
    assert_eq!(balance_of(&ix, "addr_A", "ordi"), (5, 0, 5));
}

#[test]
fn deploy_parameter_rules() {
    let mut ix = Brc20Index::new();
    // zero max
    assert_eq!(
        ix.apply_deploy(&deploy("aaaa", "0", None, None), &by("t0"), 10),
        Err(InvalidReason::MalformedInscription)
    );
    // lim above max
    assert_eq!(
        ix.apply_deploy(&deploy("aaab", "100", Some("101"), None), &by("t1"), 10),
        Err(InvalidReason::MalformedInscription)
    );
    // dec out of range
    assert_eq!(
        ix.apply_deploy(&deploy("aaac", "100", None, Some("19")), &by("t2"), 10),
        Err(InvalidReason::MalformedInscription)
    );
    // max with too many fractional digits for the declared precision
    assert_eq!(
        ix.apply_deploy(&deploy("aaad", "1.23", None, Some("1")), &by("t3"), 10),
        Err(InvalidReason::BadDecimalPrecision)
    );
    // missing max
    let no_max = Brc20Inscription {
        p: by("brc-20"),
        op: by("deploy"),
        tick: by("aaae"),
        max: None,
        lim: None,
        dec: None,
        amt: None,
    };
    assert_eq!(
        ix.apply_deploy(&no_max, &by("t4"), 10),
        Err(InvalidReason::MalformedInscription)
    );
    // lim defaults to max
    ix.apply_deploy(&deploy("aaaf", "100", None, Some("0")), &by("t5"), 10).unwrap();
    let ti = ix.find_ticker(&by("aaaf")).unwrap();
    assert_eq!(ix.tickers[ti].limit, 100);
}

#[test]
fn conservation_holds_in_scenario() {
    let mut ix = Brc20Index::new();
    let a = Some(by("addr_A"));
    let b = Some(by("addr_B"));
    ix.apply_deploy(&deploy("ordi", "1000", Some("500"), Some("0")), &by("t0"), 10).unwrap();
    ix.apply_mint(&mint("ordi", "300"), &by("t1"), 10, &a).unwrap();
    ix.apply_mint(&mint("ordi", "200"), &by("t2"), 10, &b).unwrap();
    ix.apply_transfer_inscribe(&transfer("ordi", "120"), &by("t3"), 11, &a).unwrap();
    ix.apply_transfer_send(&by("t3"), 0, 12, &b);
    // every row couples its sub-balances; the rows sum to the minted total
    let mut sum: u128 = 0;
    for row in &ix.balances {
        assert_eq!(row.overall_balance, row.available_balance + row.transferable_balance);
        sum += row.overall_balance;
    }
    let ti = ix.find_ticker(&by("ordi")).unwrap();
    assert_eq!(sum, ix.tickers[ti].total_minted);
    assert_eq!(balance_of(&ix, "addr_A", "ordi"), (180, 0, 180));
    assert_eq!(balance_of(&ix, "addr_B", "ordi"), (320, 0, 320));
}

#[test]
fn history_fold_matches_balances() {
    let mut ix = Brc20Index::new();
    let a = Some(by("addr_A"));
    let b = Some(by("addr_B"));
    ix.apply_deploy(&deploy("ordi", "1000", Some("500"), Some("0")), &by("t0"), 10).unwrap();
    ix.apply_mint(&mint("ordi", "300"), &by("t1"), 10, &a).unwrap();
    ix.apply_transfer_inscribe(&transfer("ordi", "120"), &by("t2"), 11, &a).unwrap();
    ix.apply_transfer_send(&by("t2"), 0, 12, &b);
    // fold the history for each key exactly as the ledger defines it
    for (addr, tick) in [("addr_A", "ordi"), ("addr_B", "ordi")] {
        let mut avail: i128 = 0;
        let mut xfer: i128 = 0;
        for e in &ix.entries {
            if e.address == by(addr) && e.tick == by(tick) {
                match e.entry_type {
                    UserBalanceEntryType::Inscription => {
                        avail += e.amt;
                        if e.amt < 0 {
                            xfer -= e.amt;
                        }
                    }
                    UserBalanceEntryType::Send => xfer += e.amt,
                    UserBalanceEntryType::Receive => avail += e.amt,
                }
            }
        }
        let (av, tv, _) = balance_of(&ix, addr, tick);
        assert_eq!(avail, av as i128);
        assert_eq!(xfer, tv as i128);
    }
}

#[test]
fn registry_matches_pending_records() {
    let mut ix = Brc20Index::new();
    let a = Some(by("addr_A"));
    ix.apply_deploy(&deploy("ordi", "1000", Some("500"), Some("0")), &by("t0"), 10).unwrap();
    ix.apply_mint(&mint("ordi", "300"), &by("t1"), 10, &a).unwrap();
    ix.apply_transfer_inscribe(&transfer("ordi", "10"), &by("t2"), 11, &a).unwrap();
    ix.apply_transfer_inscribe(&transfer("ordi", "20"), &by("t3"), 11, &a).unwrap();
    // the registry holds exactly the outpoints of pending records
    assert_eq!(ix.active_transfers.len(), 2);
    for rec in &ix.transfers {
        let live = ix.find_active(&rec.tx_id, 0).is_some();
        assert_eq!(live, rec.status == TransferStatus::Pending);
    }
    ix.apply_transfer_send(&by("t2"), 0, 12, &None);
    assert_eq!(ix.active_transfers.len(), 1);
    for rec in &ix.transfers {
        let live = ix.find_active(&rec.tx_id, 0).is_some();
        assert_eq!(live, rec.status == TransferStatus::Pending);
    }
}

#[test]
fn ticker_record_constructor() {
    let t = brc20_index::state::Brc20Ticker::new(by("ordi"), 1000, 100, 0, 10, by("t0"));
    assert_eq!(t.get_ticker(), &by("ordi"));
    assert_eq!(t.total_minted, 0);
    assert_eq!(t.max_supply, 1000);
    assert_eq!(t.limit, 100);
}

#[test]
fn transfer_record_outpoint() {
    let mut ix = Brc20Index::new();
    let a = Some(by("addr_A"));
    ix.apply_deploy(&deploy("ordi", "1000", Some("100"), Some("0")), &by("t0"), 10).unwrap();
    ix.apply_mint(&mint("ordi", "100"), &by("t1"), 10, &a).unwrap();
    ix.apply_transfer_inscribe(&transfer("ordi", "40"), &by("t2"), 11, &a).unwrap();
    let ri = ix.find_transfer_rec(&by("t2")).unwrap();
    let op = ix.transfers[ri].get_inscription_outpoint();
    assert_eq!(op.tx_id, by("t2"));
    assert_eq!(op.vout, 0);
    assert!(ix.find_active(&op.tx_id, op.vout).is_some());
}

#[test]
fn entry_kind_labels() {
    assert_eq!(UserBalanceEntryType::Inscription.label_bytes(), by("inscription"));
    assert_eq!(UserBalanceEntryType::Send.label_bytes(), by("send"));
    assert_eq!(UserBalanceEntryType::Receive.label_bytes(), by("receive"));
    let d = UserBalanceEntry::default();
    assert_eq!(d.amt, 0);
    assert!(matches!(d.entry_type, UserBalanceEntryType::Inscription));
}
