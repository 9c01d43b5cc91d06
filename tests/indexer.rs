use inscription_indexer::config::Random;
use inscription_indexer::database::{DeployDecision, MintDecision};
use inscription_indexer::decimal::decimal_sign;
use inscription_indexer::indexer::{
    Address, Filter, IndexedRecord, IndexedType, Indexer, Tick, TxInfo, DEFAULT_START_TXI,
};
use inscription_indexer::inscription::{operation_of, parse_calldata, Inscription, Operation};
use inscription_indexer::keys::{u64_text, Keys};
use inscription_indexer::utils::remove_leadering_zeros;
use inscription_indexer::walker::{select_transactions, WalkStep, WalkerState};
use std::cmp::Ordering;

const SENDER: Address = Address { high: 0x1234_5678, low: 0x9abc_def0_1122_3344_5566_7788_99aa_bbcc };
const SENDER_WORD: &str = "0x00000000000000000000000012345678_9abcdef0112233445566778899aabbcc";

fn sender_word() -> String {
    SENDER_WORD.replace('_', "")
}

fn indexer() -> Indexer {
    Indexer::new(56, "BSC".to_string(), IndexedType::TextPlain, None)
}

fn tx(block: u64, txi: u64, calldata: &str) -> TxInfo {
    TxInfo {
        hash: format!("0x{:064x}", block * 1000 + txi),
        block_number: block,
        transaction_index: txi,
        from: SENDER,
        from_word: sender_word(),
        to: Some(SENDER),
        input: calldata.as_bytes().to_vec(),
    }
}

const DEPLOY_ABCD: &str =
    r#"data:,{"p":"brc-20","op":"deploy","tick":"abcd","max":"21000000","lim":"1000"}"#;
const MINT_ABCD_500: &str = r#"data:,{"p":"brc-20","op":"mint","tick":"abcd","amt":"500"}"#;

fn deploy(idx: &Indexer, block: u64, txi: u64, calldata: &str) -> Tick {
    let t = tx(block, txi, calldata);
    let inp = idx.inscription_of(&t).expect("an inscription");
    match idx.plan_deploy(false, 1_700_000_000, &t, &inp) {
        DeployDecision::Deploy(tick) => tick,
        _ => panic!("the deploy was not taken"),
    }
}

fn mint(idx: &Indexer, tick: Tick, block: u64, txi: u64, calldata: &str) -> MintDecision {
    let t = tx(block, txi, calldata);
    let inp = idx.inscription_of(&t).expect("an inscription");
    idx.plan_mint(Some(tick), 1_700_000_100, &t, &inp)
}

fn tick_with(max: &str, lim: &str, minted: &str) -> Tick {
    let idx = indexer();
    let calldata = format!(
        r#"data:,{{"p":"brc-20","op":"deploy","tick":"abcd","max":"{}","lim":"{}"}}"#,
        max, lim
    );
    let mut t = deploy(&idx, 90, 0, &calldata);
    t.minted = minted.to_string();
    t
}

#[test]
fn simple_deploy() {
    let idx = indexer();
    let t = deploy(&idx, 100, 0, DEPLOY_ABCD);
    assert_eq!(t.minted, "0");
    assert!(t.mintable);
    assert_eq!(t.start_block, 100);
    assert_eq!(t.end_block, None);
    assert_eq!(t.max, "21000000");
    assert_eq!(t.lim, "1000");
    assert_eq!(t.chain_id, 56);
    assert_eq!(t.chain, "BSC");
    assert_eq!(t.p, "brc-20");
    assert_eq!(t.tick, "abcd");
    assert_eq!(t.op, "deploy");
    assert_eq!(t.deployer, "0x123456789abcdef0112233445566778899aabbcc");
    assert_eq!(t.timestamp, 1_700_000_000);
    let state = WalkerState { block_to_process: 100, indexed_txi: DEFAULT_START_TXI };
    let plan = idx.plan_block(&state, Some(vec![tx(100, 0, DEPLOY_ABCD)]));
    assert_eq!(plan.apply.len(), 1);
    assert_eq!(plan.apply[0].cursor, (100, 0));
    assert_eq!(plan.cursor, (100, 0));
}

#[test]
fn mint_within_limit() {
    let idx = indexer();
    let t = deploy(&idx, 100, 0, DEPLOY_ABCD);
    match mint(&idx, t, 101, 3, MINT_ABCD_500) {
        MintDecision::Mint(tick, record) => {
            assert_eq!(tick.minted, "500");
            assert!(tick.mintable);
            assert_eq!(tick.end_block, None);
            assert_eq!(record.amt, Some("500".to_string()));
            assert_eq!(record.block, 101);
            assert_eq!(record.owner, "0x123456789abcdef0112233445566778899aabbcc");
            assert_eq!(record.op, "mint");
            assert_eq!(record.timestamp, 1_700_000_100);
        }
        _ => panic!("the mint was not taken"),
    }
    let state = WalkerState { block_to_process: 101, indexed_txi: DEFAULT_START_TXI };
    let plan = idx.plan_block(&state, Some(vec![tx(101, 3, MINT_ABCD_500)]));
    assert_eq!(plan.cursor, (101, 3));
}

#[test]
fn mint_that_exhausts_supply() {
    let idx = indexer();
    let t = tick_with("1000", "1000", "500");
    let t = match mint(&idx, t, 102, 0, MINT_ABCD_500) {
        MintDecision::Mint(tick, _) => tick,
        _ => panic!("the mint was not taken"),
    };
    assert_eq!(t.minted, "1000");
    assert!(!t.mintable);
    assert_eq!(t.end_block, Some(102));
    assert!(matches!(mint(&idx, t, 103, 0, MINT_ABCD_500), MintDecision::SupplyExceeded));
    let state = WalkerState { block_to_process: 103, indexed_txi: DEFAULT_START_TXI };
    let plan = idx.plan_block(&state, Some(vec![tx(103, 0, MINT_ABCD_500)]));
    assert_eq!(plan.cursor, (103, 0));
    assert_eq!(plan.next, WalkerState { block_to_process: 104, indexed_txi: -1 });
}

#[test]
fn overflow_mint_rejected() {
    let idx = indexer();
    let t = tick_with("1000", "1000", "600");
    assert!(matches!(mint(&idx, t, 104, 1, MINT_ABCD_500), MintDecision::SupplyExceeded));
}

#[test]
fn malformed_calldata_ignored() {
    let idx = indexer();
    assert!(parse_calldata(b"data:,{not json").is_none());
    let bad = tx(105, 0, "data:,{not json");
    assert!(idx.inscription_of(&bad).is_none());
    let good = tx(105, 1, DEPLOY_ABCD);
    let selected = select_transactions(vec![good, bad], DEFAULT_START_TXI);
    let found: Vec<bool> = selected.iter().map(|t| idx.inscription_of(t).is_some()).collect();
    assert_eq!(found, vec![false, true]);
}

#[test]
fn deploy_with_zero_max_skipped() {
    let idx = indexer();
    let zero = r#"data:,{"p":"brc-20","op":"deploy","tick":"abcd","max":"0","lim":"1"}"#;
    let t = tx(106, 0, zero);
    let inp = idx.inscription_of(&t).unwrap();
    assert!(matches!(idx.plan_deploy(false, 1, &t, &inp), DeployDecision::InvalidSupply));
    let tick = deploy(&idx, 107, 0, DEPLOY_ABCD);
    assert_eq!(tick.start_block, 107);
}

#[test]
fn second_deploy_changes_nothing() {
    let idx = indexer();
    let t = tx(108, 0, DEPLOY_ABCD);
    let inp = idx.inscription_of(&t).unwrap();
    assert!(matches!(idx.plan_deploy(true, 1, &t, &inp), DeployDecision::AlreadyDeployed));
}

#[test]
fn invalid_lim_or_unparsable_supply_skipped() {
    let idx = indexer();
    for calldata in [
        r#"data:,{"p":"brc-20","op":"deploy","tick":"abcd","max":"10","lim":"-1"}"#,
        r#"data:,{"p":"brc-20","op":"deploy","tick":"abcd","max":"ten","lim":"1"}"#,
    ] {
        let t = tx(109, 0, calldata);
        let inp = idx.inscription_of(&t).unwrap();
        assert!(matches!(idx.plan_deploy(false, 1, &t, &inp), DeployDecision::InvalidSupply));
    }
}

#[test]
fn mint_without_tick_skipped() {
    let idx = indexer();
    let t = tx(110, 0, MINT_ABCD_500);
    let inp = idx.inscription_of(&t).unwrap();
    assert!(matches!(idx.plan_mint(None, 1, &t, &inp), MintDecision::TickMissing));
}

#[test]
fn mint_amount_out_of_range_skipped() {
    let idx = indexer();
    for amt in ["0", "-5", "1001", "lots"] {
        let calldata =
            format!(r#"data:,{{"p":"brc-20","op":"mint","tick":"abcd","amt":"{}"}}"#, amt);
        let t = tick_with("21000000", "1000", "0");
        assert!(matches!(mint(&idx, t, 111, 0, &calldata), MintDecision::AmountOutOfRange));
    }
}

#[test]
fn mint_at_exactly_lim_taken() {
    let idx = indexer();
    let t = tick_with("21000000", "1000", "0");
    let calldata = r#"data:,{"p":"brc-20","op":"mint","tick":"abcd","amt":"1000"}"#;
    match mint(&idx, t, 112, 0, calldata) {
        MintDecision::Mint(tick, record) => {
            assert_eq!(tick.minted, "1000");
            assert_eq!(record.amt.as_deref(), Some("1000"));
        }
        _ => panic!("the mint was not taken"),
    }
}

#[test]
fn mint_on_unreadable_tick_skipped() {
    let idx = indexer();
    let t = tick_with("21000000", "1000", "many");
    assert!(matches!(mint(&idx, t, 113, 0, MINT_ABCD_500), MintDecision::InvalidTick));
}

#[test]
fn decimal_mints_sum_exactly() {
    let idx = indexer();
    let t = tick_with("1", "0.5", "0");
    let half = r#"data:,{"p":"brc-20","op":"mint","tick":"abcd","amt":"0.5"}"#;
    let t = match mint(&idx, t, 114, 0, half) {
        MintDecision::Mint(tick, _) => tick,
        _ => panic!("first half not taken"),
    };
    assert!(t.mintable);
    let t = match mint(&idx, t, 114, 1, half) {
        MintDecision::Mint(tick, _) => tick,
        _ => panic!("second half not taken"),
    };
    assert_eq!(t.minted, "1.0");
    assert!(!t.mintable);
    assert_eq!(t.end_block, Some(114));
}

#[test]
fn supply_reconciles_over_mints() {
    let idx = indexer();
    let mut t = tick_with("1000", "300", "0");
    let mut total = 0u64;
    for (i, amt) in ["300", "250", "300", "150"].iter().enumerate() {
        let calldata =
            format!(r#"data:,{{"p":"brc-20","op":"mint","tick":"abcd","amt":"{}"}}"#, amt);
        t = match mint(&idx, t, 115, i as u64, &calldata) {
            MintDecision::Mint(tick, record) => {
                total += record.amt.unwrap().parse::<u64>().unwrap();
                tick
            }
            _ => panic!("mint {} not taken", i),
        };
        assert_eq!(t.minted, total.to_string());
    }
    assert_eq!(t.minted, "1000");
    assert!(!t.mintable);
}

#[test]
fn parser_requires_fields_by_operation() {
    let cases: [(&[u8], bool); 12] = [
        (br#"data:,{"p":"brc-20","op":"mint","tick":"abcd","amt":"1"}"#, true),
        (br#"data:,{"p":"brc-20","op":"mint","tick":"abcd"}"#, false),
        (br#"data:,{"p":"brc-20","op":"mint","tick":"abcd","amt":1}"#, false),
        (br#"data:,{"p":"brc-20","op":"deploy","tick":"abcd","max":"1"}"#, false),
        (br#"data:,{"p":"brc-20","op":"transfer","tick":"abcd","amt":"1"}"#, false),
        (br#"data:,{"op":"mint","tick":"abcd","amt":"1"}"#, false),
        (br#"data:,{"p":"brc-20","op":"mint","tick":7,"amt":"1"}"#, false),
        (br#"data:,["p","op"]"#, false),
        (br#"data:;{"p":"brc-20","op":"mint","tick":"abcd","amt":"1"}"#, false),
        (b"", false),
        (b"data:,", false),
        (b"data:,{\"p\":\"\xff\",\"op\":\"mint\",\"tick\":\"a\",\"amt\":\"1\"}", false),
    ];
    for (calldata, valid) in cases.iter() {
        assert_eq!(parse_calldata(calldata).is_some(), *valid, "{:?}", calldata);
    }
}

#[test]
fn parser_reads_fields() {
    let inp: Inscription = parse_calldata(DEPLOY_ABCD.as_bytes()).unwrap();
    assert_eq!(inp.p, "brc-20");
    assert_eq!(inp.op, "deploy");
    assert_eq!(inp.tick, "abcd");
    assert_eq!(inp.max.as_deref(), Some("21000000"));
    assert_eq!(inp.lim.as_deref(), Some("1000"));
    assert_eq!(inp.amt, None);
}

#[test]
fn filter_predicates() {
    let mut filter = Filter::default();
    filter.p = Some("brc-20".to_string());
    filter.tick = Some("wxyz".to_string());
    let idx = Indexer::new(56, "BSC".to_string(), IndexedType::TextPlain, Some(filter));
    assert!(idx.inscription_of(&tx(1, 0, DEPLOY_ABCD)).is_none());
    let wxyz = r#"data:,{"p":"brc-20","op":"mint","tick":"wxyz","amt":"1"}"#;
    assert!(idx.inscription_of(&tx(1, 1, wxyz)).is_some());
    let mut other = tx(1, 2, wxyz);
    other.to = Some(Address { high: 0, low: 1 });
    assert!(idx.inscription_of(&other).is_none());
    let mut creation = tx(1, 3, wxyz);
    creation.to = None;
    assert!(idx.inscription_of(&creation).is_none());

    let mut to_recipient = Filter::default();
    to_recipient.is_self_transaction = false;
    to_recipient.recipient = Some(Address { high: 0, low: 1 });
    let idx = Indexer::new(56, "BSC".to_string(), IndexedType::TextPlain, Some(to_recipient));
    assert!(idx.inscription_of(&other).is_some());
    assert!(idx.inscription_of(&tx(1, 4, wxyz)).is_none());
}

#[test]
fn selection_sorts_and_skips_considered() {
    let mut creation = tx(5, 1, MINT_ABCD_500);
    creation.to = None;
    let txs = vec![tx(5, 4, ""), tx(5, 0, ""), creation, tx(5, 2, ""), tx(5, 3, "")];
    let picked: Vec<u64> =
        select_transactions(txs, 1).iter().map(|t| t.transaction_index).collect();
    assert_eq!(picked, vec![2, 3, 4]);
    let all: Vec<u64> = select_transactions(vec![tx(5, 1, ""), tx(5, 0, "")], DEFAULT_START_TXI)
        .iter()
        .map(|t| t.transaction_index)
        .collect();
    assert_eq!(all, vec![0, 1]);
    assert!(select_transactions(vec![], DEFAULT_START_TXI).is_empty());
}

#[test]
fn resumption_sees_the_rest() {
    let block = || vec![tx(7, 3, ""), tx(7, 0, ""), tx(7, 2, ""), tx(7, 1, "")];
    let full: Vec<u64> =
        select_transactions(block(), -1).iter().map(|t| t.transaction_index).collect();
    let resumed: Vec<u64> =
        select_transactions(block(), 1).iter().map(|t| t.transaction_index).collect();
    assert_eq!(full, vec![0, 1, 2, 3]);
    assert_eq!(resumed, vec![2, 3]);
}

#[test]
fn cursor_moves_forward() {
    let idx = indexer();
    let s = WalkerState { block_to_process: 9, indexed_txi: 2 };
    let txs = vec![
        tx(9, 7, MINT_ABCD_500),
        tx(9, 1, MINT_ABCD_500),
        tx(9, 5, DEPLOY_ABCD),
        tx(9, 6, "data:,{not json"),
        tx(9, 2, DEPLOY_ABCD),
    ];
    let plan = idx.plan_block(&s, Some(txs));
    let cursors: Vec<(u64, i64)> = plan.apply.iter().map(|a| a.cursor).collect();
    assert_eq!(cursors, vec![(9, 5), (9, 7)]);
    assert_eq!(plan.apply[0].inscription.op, "deploy");
    assert_eq!(plan.apply[1].inscription.op, "mint");
    assert_eq!(plan.cursor, (9, 7));
    assert!(cursors.iter().all(|c| *c > (9, 2) && *c <= plan.cursor));
    assert_eq!(plan.next, WalkerState { block_to_process: 10, indexed_txi: -1 });
    assert!((plan.next.block_to_process, plan.next.indexed_txi) > plan.cursor);
}

#[test]
fn block_without_inscriptions_keeps_entry_index() {
    let idx = indexer();
    let s = WalkerState { block_to_process: 11, indexed_txi: 4 };
    let plan = idx.plan_block(&s, Some(vec![tx(11, 5, ""), tx(11, 6, "data:,[]")]));
    assert!(plan.apply.is_empty());
    assert_eq!(plan.cursor, (11, 4));
    let missing = idx.plan_block(&s, None);
    assert!(missing.apply.is_empty());
    assert_eq!(missing.cursor, (11, 4));
    assert_eq!(missing.next, WalkerState { block_to_process: 12, indexed_txi: -1 });
}

#[test]
fn restart_applies_the_rest_of_the_block() {
    let idx = indexer();
    let block = || {
        vec![tx(12, 3, MINT_ABCD_500), tx(12, 0, DEPLOY_ABCD), tx(12, 2, ""), tx(12, 1, MINT_ABCD_500)]
    };
    let full: Vec<u64> = idx
        .plan_block(&WalkerState { block_to_process: 12, indexed_txi: -1 }, Some(block()))
        .apply
        .iter()
        .map(|a| a.tx.transaction_index)
        .collect();
    let resumed: Vec<u64> = idx
        .plan_block(&WalkerState { block_to_process: 12, indexed_txi: 1 }, Some(block()))
        .apply
        .iter()
        .map(|a| a.tx.transaction_index)
        .collect();
    assert_eq!(full, vec![0, 1, 3]);
    assert_eq!(resumed, vec![3]);
}

#[test]
fn walk_steps() {
    let idx = indexer();
    let s = WalkerState { block_to_process: 50, indexed_txi: -1 };
    assert!(matches!(idx.next_step(&s, 60), WalkStep::Process(50)));
    assert!(matches!(idx.next_step(&s, 50), WalkStep::Process(50)));
    assert!(matches!(idx.next_step(&s, 49), WalkStep::Wait));
    let mut window = Filter::default();
    window.end_block = Some(49);
    let ending = Indexer::new(56, "BSC".to_string(), IndexedType::TextPlain, Some(window));
    assert!(matches!(ending.next_step(&s, 60), WalkStep::Stop));
    assert!(matches!(ending.next_step(&s, 10), WalkStep::Stop));
}

#[test]
fn operations_told_apart() {
    let deploy = parse_calldata(DEPLOY_ABCD.as_bytes()).unwrap();
    let mint = parse_calldata(MINT_ABCD_500.as_bytes()).unwrap();
    assert_eq!(operation_of(&deploy), Operation::Deploy);
    assert_eq!(operation_of(&mint), Operation::Mint);
    let mut other = mint;
    other.op = "transfer".to_string();
    assert_eq!(operation_of(&other), Operation::Other);
}

#[test]
fn seed_and_start_positions() {
    let idx = indexer();
    assert_eq!(
        idx.seed_cursor(777),
        IndexedRecord { chain_id: 56, indexed_block: 777, indexed_txi: -1 }
    );
    let stored = IndexedRecord { chain_id: 56, indexed_block: 800, indexed_txi: 4 };
    let s = idx.start_state(&stored);
    assert_eq!((s.block_to_process, s.indexed_txi), (800, 4));
    assert!(!idx.past_end(u64::MAX));

    let mut window = Filter::default();
    window.start_block = Some(500);
    window.end_block = Some(600);
    let idx = Indexer::new(56, "BSC".to_string(), IndexedType::TextPlain, Some(window));
    assert_eq!(idx.seed_cursor(777).indexed_block, 500);
    assert_eq!(idx.start_state(&stored).block_to_process, 500);
    assert!(!idx.past_end(600));
    assert!(idx.past_end(601));
    assert_eq!(
        idx.cursor_record(601, 3),
        IndexedRecord { chain_id: 56, indexed_block: 601, indexed_txi: 3 }
    );
}

#[test]
fn keys_follow_the_schema() {
    let idx = indexer();
    assert_eq!(idx.key_indexed_record(), "indexed#56#*#*");
    assert_eq!(idx.key_tick_deploy("brc-20", "abcd"), "deploy#56#brc-20#abcd");
    assert_eq!(
        idx.key_tick_mint("brc-20", "abcd", "0xab", "0xcd", 1_700_000_000),
        "mint#56#brc-20#abcd#0xab#0xcd#1700000000"
    );
    let mut filter = Filter::default();
    filter.p = Some("brc-20".to_string());
    let scoped = Indexer::new(1, "Ethereum".to_string(), IndexedType::TextPlain, Some(filter));
    assert_eq!(scoped.key_indexed_record(), "indexed#1#brc-20#*");
}

#[test]
fn decimal_text_of_integers() {
    assert_eq!(u64_text(0), "0");
    assert_eq!(u64_text(7), "7");
    assert_eq!(u64_text(10), "10");
    assert_eq!(u64_text(u64::MAX), "18446744073709551615");
}

#[test]
fn address_padding_stripped() {
    assert_eq!(
        remove_leadering_zeros(sender_word()),
        "0x123456789abcdef0112233445566778899aabbcc"
    );
    assert_eq!(remove_leadering_zeros("0x0001".to_string()), "0x0001");
    let unpadded = format!("0x1{}", "0".repeat(63));
    assert_eq!(remove_leadering_zeros(unpadded.clone()), unpadded);
    assert_eq!(remove_leadering_zeros(String::new()), "");
}

#[test]
fn decimal_signs() {
    assert_eq!(decimal_sign("12.5"), Some(Ordering::Greater));
    assert_eq!(decimal_sign("0.000"), Some(Ordering::Equal));
    assert_eq!(decimal_sign("-3"), Some(Ordering::Less));
    assert_eq!(decimal_sign("1e3"), Some(Ordering::Greater));
    assert_eq!(decimal_sign("abc"), None);
}

#[test]
fn random_endpoint_is_a_member() {
    let pool = vec!["http://a".to_string(), "http://b".to_string(), "http://c".to_string()];
    for _ in 0..20 {
        let picked = pool.random().unwrap();
        assert!(pool.contains(&picked));
    }
    let empty: Vec<String> = Vec::new();
    assert_eq!(empty.random(), None);
}

#[test]
fn default_filter() {
    let f = Filter::default();
    assert!(f.is_self_transaction);
    assert!(f.recipient.is_none() && f.start_block.is_none() && f.end_block.is_none());
    assert!(f.p.is_none() && f.tick.is_none());
}
