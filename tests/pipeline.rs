use ethscan::gateway::{
    block_key, check_address, check_hash, get_balance, get_block, get_transaction, store_fetched, BlockCache, BlockRef,
    FetchError, NodeClient, Upstream,
};
use std::cell::{Cell, RefCell};
use ethscan::hexnum::{clean, parse_quantity, quantity_to_decimal, to_decimal};
use ethscan::index::{AddressIndex, IndexOutcome, SimpleAddress};
use ethscan::indexer::{crawler, CrawlStep};
use ethscan::indexer::index_block;
use ethscan::payload::{
    normalize_block, normalize_transaction, response_to_human_readable, BlockPayload,
    ComplexTransaction, PayloadError, ResponseData, SimpleBlock, SimpleTransaction,
};
use ethscan::poller::{get_latest_blocks, latest_block_numbers, poll_once, poll_round, Poller};
use ethscan::indexer::{crawl_range, retrieve_transactions};

struct MockNode {
    head: u64,
    blocks: RefCell<Vec<BlockPayload>>,
    txs: RefCell<Vec<ComplexTransaction>>,
    block_calls: Cell<usize>,
    tx_calls: Cell<usize>,
    head_calls: Cell<usize>,
    fail_blocks: Cell<bool>,
}

impl MockNode {
    fn new(head: u64) -> Upstream<MockNode> {
        Upstream::new(MockNode {
            head,
            blocks: RefCell::new(vec![]),
            txs: RefCell::new(vec![]),
            block_calls: Cell::new(0),
            tx_calls: Cell::new(0),
            head_calls: Cell::new(0),
            fail_blocks: Cell::new(false),
        })
    }
}

fn numbers(v: Vec<CrawlStep>) -> Vec<u64> {
    v.iter().map(|s| s.number).collect()
}

fn hex(n: u64) -> String {
    format!("0x{:x}", n)
}

fn block(n: u64, txs: &[&str]) -> BlockPayload {
    BlockPayload {
        number: hex(n),
        hash: format!("0xb{}", n),
        parent_hash: format!("0xb{}", n.saturating_sub(1)),
        gas_used: "0x5208".to_string(),
        gas_limit: "0x1c9c380".to_string(),
        timestamp: "0x6000".to_string(),
        transactions: txs.iter().map(|t| t.to_string()).collect(),
        base_fee_per_gas: "0x7".to_string(),
        difficulty: "0x0".to_string(),
        extra_data: "0x".to_string(),
        logs_bloom: "0x00".to_string(),
        miner: "0x95222290dd7278aa3ddd389cc1e1d165cc4bafe5".to_string(),
        mix_hash: "0x01".to_string(),
        nonce: "0x0000000000000000".to_string(),
        receipts_root: "0x02".to_string(),
        sha3_uncles: "0x03".to_string(),
        size: "0x220".to_string(),
        state_root: "0x04".to_string(),
        total_difficulty: String::new(),
        transactions_root: "0x05".to_string(),
        uncles: vec![],
    }
}

fn tx(hash: &str, from: &str, to: &str, value: &str, block_hash: &str) -> ComplexTransaction {
    ComplexTransaction {
        block_hash: block_hash.to_string(),
        block_number: "0x3e8".to_string(),
        from: from.to_string(),
        gas: "0x5208".to_string(),
        gas_price: "0x3b9aca00".to_string(),
        hash: hash.to_string(),
        input: "0x".to_string(),
        max_fee_per_gas: String::new(),
        max_priority_fee_per_gas: String::new(),
        nonce: "0x0".to_string(),
        r: "0x1".to_string(),
        s: "0x2".to_string(),
        to: to.to_string(),
        transaction_index: "0x0".to_string(),
        type_field: "0x2".to_string(),
        v: "0x1".to_string(),
        value: value.to_string(),
    }
}

impl NodeClient for MockNode {
    fn block_number(&mut self) -> Result<u64, FetchError> {
        self.head_calls.set(self.head_calls.get() + 1);
        Ok(self.head)
    }

    fn block_by_number(&mut self, n: u64) -> Result<BlockPayload, FetchError> {
        self.block_calls.set(self.block_calls.get() + 1);
        if self.fail_blocks.get() {
            return Err(FetchError::UpstreamUnavailable);
        }
        match self.blocks.borrow().iter().find(|b| b.number == hex(n)) {
            Some(b) => Ok(b.clone()),
            None => Ok(block(n, &[])),
        }
    }

    fn block_by_hash(&mut self, h: &String) -> Result<BlockPayload, FetchError> {
        self.block_calls.set(self.block_calls.get() + 1);
        match self.blocks.borrow().iter().find(|b| &b.hash == h) {
            Some(b) => Ok(b.clone()),
            None => Err(FetchError::UpstreamUnavailable),
        }
    }

    fn transaction(&mut self, h: &String) -> Result<ComplexTransaction, FetchError> {
        self.tx_calls.set(self.tx_calls.get() + 1);
        match self.txs.borrow().iter().find(|t| &t.hash == h) {
            Some(t) => Ok(t.clone()),
            None => Err(FetchError::UpstreamUnavailable),
        }
    }

    fn balance(&mut self, _address: &String) -> Result<String, FetchError> {
        Ok("42".to_string())
    }
}

fn record_hashes(index: &AddressIndex, a: &str) -> Vec<String> {
    match index.record(&a.to_string()) {
        Some(r) => r.transactions.iter().map(|t| t.hash.clone()).collect(),
        None => vec![],
    }
}

fn snapshot(index: &AddressIndex) -> (Vec<SimpleAddress>, Vec<String>, Vec<String>) {
    (index.records().clone(), index.indexed_transactions().clone(), index.indexed_blocks().clone())
}

#[test]
fn parses_quantities() {
    assert_eq!(parse_quantity("0x5208"), Some(21000));
    assert_eq!(parse_quantity("5208"), Some(0x5208));
    assert_eq!(parse_quantity("0xFF"), Some(255));
    assert_eq!(parse_quantity("0x0"), Some(0));
    assert_eq!(parse_quantity("0x"), None);
    assert_eq!(parse_quantity(""), None);
    assert_eq!(parse_quantity("0xzz"), None);
    assert_eq!(parse_quantity("0xffffffffffffffffffffffffffffffff"), Some(u128::MAX));
    assert_eq!(parse_quantity("0x100000000000000000000000000000000"), None);
}

#[test]
fn wide_quantities_keep_every_digit() {
    assert_eq!(
        quantity_to_decimal("0x100000000000000000000000000000000"),
        Some("340282366920938463463374607431768211456".to_string())
    );
    let max = format!("0x{}", "f".repeat(64));
    assert_eq!(
        quantity_to_decimal(&max),
        Some("115792089237316195423570985008687907853269984665640564039457584007913129639935".to_string())
    );
    assert_eq!(quantity_to_decimal("0x000"), Some("0".to_string()));
    assert_eq!(quantity_to_decimal("0xDE0B6B3A7640000"), Some("1000000000000000000".to_string()));
}

#[test]
fn empty_fields_pass_through() {
    assert_eq!(quantity_to_decimal(""), Some(String::new()));
    let mut t = tx("0xabc", "0x111", "0x222", "0x64", "0xb1000");
    t.gas_price = String::new();
    t.transaction_index = String::new();
    let n = normalize_transaction(t).unwrap();
    assert_eq!(n.gas_price, "");
    assert_eq!(n.value, "100");
}

#[test]
fn malformed_hashes_are_refused() {
    assert!(check_hash("0xabc"));
    assert!(check_hash(&format!("0x{}", "a".repeat(64))));
    assert!(!check_hash(&format!("0x{}", "a".repeat(65))));
    assert!(!check_hash("0x"));
    assert!(!check_hash("abc"));
    assert!(!check_hash("0xzz"));
    let mut node = scenario_node();
    let mut cache = BlockCache::new();
    assert_eq!(get_block(&mut cache, &mut node, &BlockRef::Hash("nothex".to_string())), Err(FetchError::InvalidInput));
    assert_eq!(get_transaction(&mut node, &"0xqq".to_string()), Err(FetchError::InvalidInput));
    assert_eq!(node.client().block_calls.get(), 0);
    assert_eq!(node.client().tx_calls.get(), 0);
}

#[test]
fn store_fetched_writes_every_key() {
    let mut cache = BlockCache::new();
    assert_eq!(store_fetched(&mut cache, "block_5".to_string(), Err(FetchError::UpstreamUnavailable)), Err(FetchError::UpstreamUnavailable));
    assert_eq!(cache.keys().len(), 0);
    let b = store_fetched(&mut cache, "block_0xb5".to_string(), Ok(block(5, &[]))).unwrap();
    assert_eq!(b.number, "5");
    assert_eq!(cache.keys().len(), 2);
    assert!(cache.get(&"block_5".to_string()).is_some());
}

#[test]
fn crawl_range_uses_given_head() {
    let mut node = MockNode::new(999);
    let mut cache = BlockCache::new();
    let mut index = AddressIndex::new();
    assert_eq!(numbers(crawl_range(&mut index, &mut cache, &mut node, 0, 203, 300)), vec![200, 201, 202]);
    assert_eq!(node.client().head_calls.get(), 0);
}

#[test]
fn poll_round_at_given_head() {
    let mut node = scenario_node();
    let mut cache = BlockCache::new();
    let mut index = AddressIndex::new();
    let report = poll_round(&mut index, &mut cache, &mut node, 1000, true).unwrap();
    assert_eq!(report.head, 1000);
    assert_eq!(report.indexed, Some(Ok(IndexOutcome::Indexed)));
    let blocks = report.blocks;
    assert_eq!(blocks.len(), 20);
    assert_eq!(blocks[0].tx_amount, 1);
    assert_eq!(record_hashes(&index, "0x222"), vec!["0xabc"]);
}

#[test]
fn renders_decimal() {
    assert_eq!(to_decimal(0), "0");
    assert_eq!(to_decimal(21000), "21000");
    assert_eq!(to_decimal(u128::MAX), "340282366920938463463374607431768211455");
    assert_eq!(quantity_to_decimal("0x5208"), Some("21000".to_string()));
    assert_eq!(quantity_to_decimal("0x64"), Some("100".to_string()));
    assert_eq!(quantity_to_decimal("0xg"), None);
}

#[test]
fn clean_takes_out_quotes() {
    assert_eq!(clean("\"0xabc\"".to_string()), "0xabc");
    assert_eq!(clean("a\"b\"c".to_string()), "abc");
    assert_eq!(clean(String::new()), "");
    assert_eq!(clean("plain".to_string()), "plain");
}

#[test]
fn normalizes_block_quantities() {
    let mut wide = block(100, &[]);
    wide.gas_limit = String::new();
    assert_eq!(normalize_block(wide).unwrap().gas_limit, "");
    let n = normalize_block(block(100, &["0x1"])).unwrap();
    assert_eq!(n.gas_used, "21000");
    assert_eq!(n.gas_limit, "30000000");
    assert_eq!(n.number, "100");
    assert_eq!(n.hash, "0xb100");
    assert_eq!(n.timestamp, "0x6000");
    assert_eq!(n.transactions, vec!["0x1".to_string()]);
    assert_eq!(n.miner, "0x95222290dd7278aa3ddd389cc1e1d165cc4bafe5");
    assert_eq!(n.size, "0x220");
    assert_eq!(n.total_difficulty, "");
    let mut bad = block(100, &[]);
    bad.gas_used = "21000x".to_string();
    assert_eq!(normalize_block(bad), Err(PayloadError::MalformedQuantity));
}

#[test]
fn normalizes_transaction_quantities() {
    let n = normalize_transaction(tx("0xabc", "0x111", "0x222", "0x64", "0xb1000")).unwrap();
    assert_eq!(n.value, "100");
    assert_eq!(n.block_number, "1000");
    assert_eq!(n.gas, "21000");
    assert_eq!(n.gas_price, "1000000000");
    assert_eq!(n.nonce, "0");
    assert_eq!(n.transaction_index, "0");
    assert_eq!(n.input, "0x");
    assert_eq!(n.hash, "0xabc");
    let mut bad = tx("0xabc", "0x111", "0x222", "0x64", "0xb1000");
    bad.nonce = "nope".to_string();
    assert_eq!(normalize_transaction(bad), Err(PayloadError::MalformedQuantity));
}

#[test]
fn response_normalization_by_shape() {
    match response_to_human_readable(ResponseData::Block(block(7, &[]))) {
        Ok(ResponseData::Block(b)) => assert_eq!(b.gas_used, "21000"),
        _ => panic!("expected a block"),
    }
    match response_to_human_readable(ResponseData::Transaction(tx("0x1", "0xa", "0xb", "0x64", "0xb7"))) {
        Ok(ResponseData::Transaction(t)) => assert_eq!(t.value, "100"),
        _ => panic!("expected a transaction"),
    }
    assert_eq!(response_to_human_readable(ResponseData::Empty), Ok(ResponseData::Empty));
}

#[test]
fn normalization_on_hit_and_miss() {
    let mut node = MockNode::new(200);
    let mut cache = BlockCache::new();
    let miss = get_block(&mut cache, &mut node, &BlockRef::Number(100)).unwrap();
    assert_eq!(miss.gas_used, "21000");
    let hit = get_block(&mut cache, &mut node, &BlockRef::Number(100)).unwrap();
    assert_eq!(hit.gas_used, "21000");
    assert_eq!(node.client().block_calls.get(), 1);
}

#[test]
fn cache_aside_one_upstream_call() {
    let mut node = MockNode::new(200);
    let mut cache = BlockCache::new();
    let first = get_block(&mut cache, &mut node, &BlockRef::Number(100)).unwrap();
    let second = get_block(&mut cache, &mut node, &BlockRef::Number(100)).unwrap();
    assert_eq!(node.client().block_calls.get(), 1);
    assert_eq!(first, second);
    assert_eq!(cache.get(&"block_100".to_string()), Some(block(100, &[])));
    assert_eq!(cache.get(&"block_0xb100".to_string()), Some(block(100, &[])));
    let by_hash = get_block(&mut cache, &mut node, &BlockRef::Hash("0xb100".to_string())).unwrap();
    assert_eq!(by_hash, first);
    assert_eq!(node.client().block_calls.get(), 1);
}

#[test]
fn cache_entries_are_write_once() {
    let mut cache = BlockCache::new();
    cache.put("block_1".to_string(), block(1, &[]));
    cache.put("block_1".to_string(), block(2, &[]));
    assert_eq!(cache.get(&"block_1".to_string()), Some(block(1, &[])));
    assert_eq!(cache.keys().len(), 1);
}

#[test]
fn block_fetched_by_hash_is_keyed_by_number_too() {
    let mut node = MockNode::new(200);
    node.client().blocks.borrow_mut().push(block(55, &[]));
    let mut cache = BlockCache::new();
    let b = get_block(&mut cache, &mut node, &BlockRef::Hash("0xb55".to_string())).unwrap();
    assert_eq!(b.number, "55");
    assert!(cache.get(&"block_55".to_string()).is_some());
    let again = get_block(&mut cache, &mut node, &BlockRef::Number(55)).unwrap();
    assert_eq!(again, b);
    assert_eq!(node.client().block_calls.get(), 1);
}

#[test]
fn upstream_failure_leaves_cache_empty() {
    let mut node = MockNode::new(200);
    node.client().fail_blocks.set(true);
    let mut cache = BlockCache::new();
    assert_eq!(get_block(&mut cache, &mut node, &BlockRef::Number(3)), Err(FetchError::UpstreamUnavailable));
    assert_eq!(cache.keys().len(), 0);
}

#[test]
fn malformed_cached_block_is_reported() {
    let mut node = MockNode::new(200);
    let mut bad = block(9, &[]);
    bad.gas_limit = "0xq".to_string();
    node.client().blocks.borrow_mut().push(bad);
    let mut cache = BlockCache::new();
    assert_eq!(get_block(&mut cache, &mut node, &BlockRef::Number(9)), Err(FetchError::MalformedPayload));
    assert_eq!(get_block(&mut cache, &mut node, &BlockRef::Number(9)), Err(FetchError::MalformedPayload));
    assert_eq!(node.client().block_calls.get(), 1);
}

#[test]
fn block_keys() {
    assert_eq!(block_key(&BlockRef::Number(100)), "block_100");
    assert_eq!(block_key(&BlockRef::Hash("0xabc".to_string())), "block_0xabc");
}

fn scenario_node() -> Upstream<MockNode> {
    let mut node = MockNode::new(1000);
    node.client().blocks.borrow_mut().push(block(1000, &["0xabc"]));
    node.client().txs.borrow_mut().push(tx("0xabc", "0x111", "0x222", "0x64", "0xb1000"));
    node
}

#[test]
fn end_to_end_block_1000() {
    let mut node = scenario_node();
    let mut cache = BlockCache::new();
    let mut index = AddressIndex::new();
    assert_eq!(index_block(&mut index, &mut cache, &mut node, 1000), Ok(IndexOutcome::Indexed));
    for a in ["0x111", "0x222"] {
        let rec = index.record(&a.to_string()).unwrap();
        assert_eq!(rec.address, a);
        assert_eq!(rec.balance, "0");
        assert_eq!(rec.transactions.len(), 1);
        assert_eq!(rec.transactions[0].value, "100");
        assert_eq!(rec.transactions[0].hash, "0xabc");
        assert_eq!(rec.transactions[0].block_hash, "0xb1000");
    }
    assert!(index.is_block_indexed(&"0xb1000".to_string()));
    assert!(index.is_tx_indexed(&"0xabc".to_string()));
    let before = snapshot(&index);
    assert_eq!(index_block(&mut index, &mut cache, &mut node, 1000), Ok(IndexOutcome::Skipped));
    assert_eq!(snapshot(&index), before);
}

#[test]
fn indexing_twice_is_a_skip() {
    let mut node = scenario_node();
    let mut cache = BlockCache::new();
    let mut index = AddressIndex::new();
    index_block(&mut index, &mut cache, &mut node, 1000).unwrap();
    let once = snapshot(&index);
    let calls = node.client().tx_calls.get();
    assert_eq!(index_block(&mut index, &mut cache, &mut node, 1000), Ok(IndexOutcome::Skipped));
    assert_eq!(snapshot(&index), once);
    assert_eq!(node.client().tx_calls.get(), calls);
    assert_eq!(node.client().block_calls.get(), 1);
}

#[test]
fn self_transfer_gives_one_entry() {
    let mut node = MockNode::new(10);
    node.client().blocks.borrow_mut().push(block(10, &["0x51"]));
    node.client().txs.borrow_mut().push(tx("0x51", "0x333", "0x333", "0x1", "0xb10"));
    let mut cache = BlockCache::new();
    let mut index = AddressIndex::new();
    index_block(&mut index, &mut cache, &mut node, 10).unwrap();
    assert_eq!(record_hashes(&index, "0x333"), vec!["0x51".to_string()]);
    assert_eq!(index.records().len(), 1);
}

#[test]
fn no_duplicates_across_overlapping_runs() {
    let mut node = MockNode::new(1002);
    node.client().blocks.borrow_mut().push(block(1000, &["0xa1", "0xa2"]));
    node.client().blocks.borrow_mut().push(block(1001, &["0xa2", "0xa3", "0xa3"]));
    node.client().txs.borrow_mut().push(tx("0xa1", "0xa", "0xb", "0x1", "0xb1000"));
    node.client().txs.borrow_mut().push(tx("0xa2", "0xb", "0xa", "0x2", "0xb1000"));
    node.client().txs.borrow_mut().push(tx("0xa3", "0xa", "0xc", "0x3", "0xb1001"));
    let mut cache = BlockCache::new();
    let mut index = AddressIndex::new();
    let first = crawler(&mut index, &mut cache, &mut node, 1000, 1002).unwrap();
    assert!(first.iter().all(|s| s.outcome == Ok(IndexOutcome::Indexed)));
    let again = crawler(&mut index, &mut cache, &mut node, 999, 1002).unwrap();
    assert_eq!(again[0].outcome, Ok(IndexOutcome::Indexed));
    assert_eq!(again[1].outcome, Ok(IndexOutcome::Skipped));
    assert_eq!(again[2].outcome, Ok(IndexOutcome::Skipped));
    index_block(&mut index, &mut cache, &mut node, 1001).unwrap();
    assert_eq!(record_hashes(&index, "0xa"), vec!["0xa1", "0xa2", "0xa3"]);
    assert_eq!(record_hashes(&index, "0xb"), vec!["0xa1", "0xa2"]);
    assert_eq!(record_hashes(&index, "0xc"), vec!["0xa3"]);
    assert_eq!(node.client().tx_calls.get(), 4);
}

#[test]
fn crawl_from_head_range() {
    let mut node = MockNode::new(500);
    let mut cache = BlockCache::new();
    let mut index = AddressIndex::new();
    let steps = crawler(&mut index, &mut cache, &mut node, 0, 405).unwrap();
    assert!(steps.iter().all(|s| s.outcome == Ok(IndexOutcome::Indexed)));
    assert_eq!(numbers(steps), (400..405).collect::<Vec<u64>>());
    assert_eq!(node.client().block_calls.get(), 5);
    assert_eq!(index.indexed_blocks().len(), 5);
}

#[test]
fn crawl_with_empty_range_does_nothing() {
    let mut node = MockNode::new(500);
    let mut cache = BlockCache::new();
    let mut index = AddressIndex::new();
    assert_eq!(numbers(crawler(&mut index, &mut cache, &mut node, 20, 20).unwrap()), Vec::<u64>::new());
    assert_eq!(numbers(crawler(&mut index, &mut cache, &mut node, 30, 10).unwrap()), Vec::<u64>::new());
    assert_eq!(numbers(crawler(&mut index, &mut cache, &mut node, 0, 0).unwrap()), Vec::<u64>::new());
    assert_eq!(node.client().block_calls.get(), 0);
    assert_eq!(node.client().head_calls.get(), 0);
}

#[test]
fn crawl_with_start_visits_start_to_end() {
    let mut node = MockNode::new(500);
    let mut cache = BlockCache::new();
    let mut index = AddressIndex::new();
    assert_eq!(numbers(crawler(&mut index, &mut cache, &mut node, 7, 10).unwrap()), vec![7, 8, 9]);
    assert_eq!(node.client().head_calls.get(), 0);
}

#[test]
fn crawl_near_genesis_starts_at_zero() {
    let mut node = MockNode::new(30);
    let mut cache = BlockCache::new();
    let mut index = AddressIndex::new();
    assert_eq!(numbers(crawler(&mut index, &mut cache, &mut node, 0, 3).unwrap()), vec![0, 1, 2]);
}

#[test]
fn failed_block_is_not_marked() {
    let mut node = MockNode::new(10);
    node.client().blocks.borrow_mut().push(block(10, &["0x0c", "0x0d"]));
    node.client().txs.borrow_mut().push(tx("0x0c", "0xa", "0xb", "0x1", "0xb10"));
    let mut cache = BlockCache::new();
    let mut index = AddressIndex::new();
    assert_eq!(index_block(&mut index, &mut cache, &mut node, 10), Err(FetchError::UpstreamUnavailable));
    assert!(!index.is_block_indexed(&"0xb10".to_string()));
    assert!(!index.is_tx_indexed(&"0x0c".to_string()));
    assert!(index.records().is_empty());
    node.client().txs.borrow_mut().push(tx("0x0d", "0xa", "0xc", "0x2", "0xb10"));
    assert_eq!(index_block(&mut index, &mut cache, &mut node, 10), Ok(IndexOutcome::Indexed));
    assert_eq!(record_hashes(&index, "0xa"), vec!["0x0c", "0x0d"]);
}

#[test]
fn loaded_state_is_respected() {
    let mut index = AddressIndex::new();
    index.load_record(SimpleAddress {
        address: "0xa".to_string(),
        balance: "7".to_string(),
        transactions: vec![],
    });
    index.load_tx_marker("0xd0".to_string());
    index.apply_transaction(&SimpleTransaction {
        hash: "0xd0".to_string(),
        from: "0xa".to_string(),
        to: "0xb".to_string(),
        value: "1".to_string(),
        block_hash: "0xb1".to_string(),
    });
    assert_eq!(record_hashes(&index, "0xa"), Vec::<String>::new());
    index.apply_transaction(&SimpleTransaction {
        hash: "0xe0".to_string(),
        from: "0xa".to_string(),
        to: "0xb".to_string(),
        value: "1".to_string(),
        block_hash: "0xb1".to_string(),
    });
    assert_eq!(index.record(&"0xa".to_string()).unwrap().balance, "7");
    assert_eq!(record_hashes(&index, "0xa"), vec!["0xe0"]);
    assert_eq!(record_hashes(&index, "0xb"), vec!["0xe0"]);
    index.load_block_marker("0xb9".to_string());
    assert_eq!(index.index_transactions(&"0xb9".to_string(), &vec![]), IndexOutcome::Skipped);
}

#[test]
fn poller_starts_once() {
    let mut p = Poller::new();
    assert!(!p.is_running());
    assert!(p.try_start());
    assert!(!p.try_start());
    assert!(p.is_running());
    p.stop();
    assert!(!p.is_running());
    assert!(p.try_start());
}

#[test]
fn latest_numbers() {
    assert_eq!(latest_block_numbers(100), (81..=100).rev().collect::<Vec<u64>>());
    assert_eq!(latest_block_numbers(3), vec![3, 2, 1, 0]);
    assert_eq!(latest_block_numbers(0), vec![0]);
}

#[test]
fn latest_block_summaries() {
    let mut node = MockNode::new(50);
    node.client().blocks.borrow_mut().push(block(50, &["0x1", "0x2"]));
    let mut cache = BlockCache::new();
    let blocks = get_latest_blocks(&mut cache, &mut node, 50).unwrap();
    assert_eq!(blocks.len(), 20);
    assert_eq!(blocks[0], SimpleBlock { hash: "0xb50".to_string(), number: 50, tx_amount: 2, human_date: 0x6000 });
    assert_eq!(blocks[19].number, 31);
}

#[test]
fn poll_round_indexes_head() {
    let mut node = scenario_node();
    let mut cache = BlockCache::new();
    let mut index = AddressIndex::new();
    let report = poll_once(&mut index, &mut cache, &mut node, true).unwrap();
    let (head, blocks) = (report.head, report.blocks);
    assert_eq!(report.indexed, Some(Ok(IndexOutcome::Indexed)));
    assert_eq!(head, 1000);
    assert_eq!(blocks[0].number, 1000);
    assert!(index.is_block_indexed(&"0xb1000".to_string()));
    let mut quiet = AddressIndex::new();
    assert_eq!(poll_once(&mut quiet, &mut cache, &mut node, false).unwrap().indexed, None);
    assert!(quiet.records().is_empty());
}

#[test]
fn summary_needs_a_timestamp() {
    let mut b = block(4, &[]);
    b.timestamp = "soon".to_string();
    assert_eq!(SimpleBlock::from_block(4, &b), None);
    b.timestamp = "0x10".to_string();
    assert_eq!(SimpleBlock::from_block(4, &b).unwrap().human_date, 16);
}

#[test]
fn retrieves_transactions_in_order() {
    let mut node = scenario_node();
    node.client().txs.borrow_mut().push(tx("0xdef", "0x333", "0x444", "0x1", "0xb1000"));
    let got = retrieve_transactions(&mut node, &vec!["0xdef".to_string(), "0xabc".to_string()]).unwrap();
    assert_eq!(got.len(), 2);
    assert_eq!(got[0].hash, "0xdef");
    assert_eq!(got[1].value, "100");
    assert_eq!(
        retrieve_transactions(&mut node, &vec!["0xf0".to_string()]),
        Err(FetchError::UpstreamUnavailable)
    );
}

#[test]
fn address_inputs() {
    assert!(check_address("0x00000000219ab540356cBB839Cbe05303d7705Fa"));
    assert!(check_address("vitalik.eth"));
    assert!(!check_address("0x1234"));
    assert!(!check_address(".eth"));
    assert!(!check_address("0x00000000219ab540356cBB839Cbe05303d7705Fz"));
    let mut node = MockNode::new(1);
    assert_eq!(get_balance(&mut node, &"nope".to_string()), Err(FetchError::InvalidInput));
    assert_eq!(get_balance(&mut node, &"vitalik.eth".to_string()), Ok("42".to_string()));
}

#[test]
fn crawl_goes_on_after_a_failed_block() {
    let mut node = MockNode::new(100);
    node.client().blocks.borrow_mut().push(block(11, &["0x0bad"]));
    node.client().blocks.borrow_mut().push(block(12, &["0x0e"]));
    node.client().txs.borrow_mut().push(tx("0x0e", "0xa", "0xb", "0x1", "0xb12"));
    let mut cache = BlockCache::new();
    let mut index = AddressIndex::new();
    let steps = crawler(&mut index, &mut cache, &mut node, 10, 13).unwrap();
    assert_eq!(numbers(steps.clone()), vec![10, 11, 12]);
    assert_eq!(steps[0].outcome, Ok(IndexOutcome::Indexed));
    assert_eq!(steps[1].outcome, Err(FetchError::UpstreamUnavailable));
    assert_eq!(steps[2].outcome, Ok(IndexOutcome::Indexed));
    assert!(!index.is_block_indexed(&"0xb11".to_string()));
    assert!(index.is_block_indexed(&"0xb12".to_string()));
}

#[test]
fn cache_hit_asks_nothing() {
    let mut node = MockNode::new(5);
    let mut cache = BlockCache::new();
    get_block(&mut cache, &mut node, &BlockRef::Number(5)).unwrap();
    let mut index = AddressIndex::new();
    assert_eq!(get_latest_blocks(&mut cache, &mut node, 5).unwrap().len(), 6);
    let calls = node.client().block_calls.get();
    assert_eq!(get_latest_blocks(&mut cache, &mut node, 5).unwrap().len(), 6);
    assert_eq!(node.client().block_calls.get(), calls);
    assert_eq!(poll_round(&mut index, &mut cache, &mut node, 5, true).unwrap().indexed, Some(Ok(IndexOutcome::Indexed)));
    assert_eq!(poll_round(&mut index, &mut cache, &mut node, 5, true).unwrap().indexed, Some(Ok(IndexOutcome::Skipped)));
    assert_eq!(node.client().block_calls.get(), calls);
}

#[test]
fn bad_timestamp_fails_the_summaries() {
    let mut node = MockNode::new(1);
    let mut bad = block(0, &[]);
    bad.timestamp = "late".to_string();
    node.client().blocks.borrow_mut().push(bad);
    let mut cache = BlockCache::new();
    assert_eq!(get_latest_blocks(&mut cache, &mut node, 1), Err(FetchError::MalformedPayload));
}
