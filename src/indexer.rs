//! Driving the index from the node: one block at a time, and over a range of
//! past blocks (the crawler).
use vstd::prelude::*;
use crate::gateway::{
    is_hash_input, fetched_entries, get_block, get_transaction, keeps_entries, lemma_keeps_entries_trans, number_key, BlockCache,
    BlockRef, FetchError, NodeCall, NodeClient, Upstream,
};
use crate::index::{
    index_block_spec, lemma_apply_all_marks, lemma_index_block_no_duplicates, lemma_listed_marked_or_pending,
    no_duplicates, pending_spec, AddressIndex, IndexOutcome, IndexView,
};
use crate::hexnum::{normalized, without_quotes};
use crate::payload::{block_normalizes, tx_normalizes, ComplexTransaction, BlockView, is_fetched_record, is_normalized_tx, record_of, SimpleTransaction, TxView};

verus! {

/// The record of transaction `h` made from the node's raw answer `raw`.
pub open spec fn raw_record(h: Seq<char>, raw: ComplexTransaction) -> TxView {
    TxView {
        hash: h,
        from: without_quotes(raw.from@),
        to: without_quotes(raw.to@),
        value: without_quotes(normalized(raw.value@)->Some_0),
        block_hash: without_quotes(raw.block_hash@),
    }
}

/// `c` is the lookup of transaction `h`, answered with a transaction that
/// normalizes and whose record is `st`.
pub open spec fn answers_record(c: NodeCall, h: Seq<char>, st: TxView) -> bool {
    match c {
        NodeCall::Transaction(h2, Ok(raw)) => h2 == h && tx_normalizes(raw) && st == raw_record(h, raw),
        _ => false,
    }
}

/// Fetches the listed transactions in order and returns their records, each
/// under the hash it was asked for by. Fails with the first lookup that fails
/// (`InvalidInput` for a hash that is not well formed), or with
/// `MalformedPayload` for a transaction whose quantities are not well formed.
pub fn retrieve_transactions<N: NodeClient>(node: &mut Upstream<N>, hashes: &Vec<String>) -> (r: Result<Vec<SimpleTransaction>, FetchError>)
    ensures
        hashes@.len() == 0 ==> (r matches Ok(v) && v@.len() == 0),
        r matches Ok(v) ==> v@.len() == hashes@.len()
            && forall|i: int| 0 <= i < v@.len() ==> is_fetched_record(#[trigger] v@[i]@, hashes@[i]@),
        r is Ok ==> forall|i: int| 0 <= i < hashes@.len() ==> is_hash_input(#[trigger] hashes@[i]@),
        r matches Ok(v) ==> {
            let n0 = old(node).calls().len();
            &&& final(node).calls().len() == n0 + hashes@.len()
            &&& final(node).calls().subrange(0, n0 as int) == old(node).calls()
            &&& forall|i: int| 0 <= i < v@.len() ==> answers_record(#[trigger] final(node).calls()[n0 + i], hashes@[i]@, v@[i]@)
        },
{
    let mut out: Vec<SimpleTransaction> = Vec::new();
    let mut i: usize = 0;
    while i < hashes.len()
        invariant
            i <= hashes@.len(),
            out@.len() == i,
            forall|k: int| 0 <= k < i ==> is_fetched_record(#[trigger] out@[k]@, hashes@[k]@),
            forall|k: int| 0 <= k < i ==> is_hash_input(#[trigger] hashes@[k]@),
            node.calls().len() == old(node).calls().len() + i,
            node.calls().subrange(0, old(node).calls().len() as int) == old(node).calls(),
            forall|k: int| 0 <= k < i ==> answers_record(#[trigger] node.calls()[old(node).calls().len() + k], hashes@[k]@, out@[k]@),
        decreases hashes@.len() - i,
    {
        let ghost calls0 = node.calls();
        let n = match get_transaction(node, &hashes[i]) {
            Ok(n) => n,
            Err(e) => { return Err(e); },
        };
        let st = SimpleTransaction::from_fetched(&hashes[i], &n);
        proof {
            let raw = choose|raw: ComplexTransaction| is_normalized_tx(raw, n);
            assert(is_normalized_tx(raw, n) && st@ == record_of(hashes@[i as int]@, n));
            let c = node.calls().last();
            assert(node.calls().drop_last() == calls0);
            match c {
                NodeCall::Transaction(_, Ok(raw2)) => {
                    assert(st@ == raw_record(hashes@[i as int]@, raw2));
                },
                _ => {},
            }
            assert(answers_record(node.calls()[old(node).calls().len() + i], hashes@[i as int]@, st@));
            assert forall|k: int| 0 <= k < i implies answers_record(#[trigger] node.calls()[old(node).calls().len() + k], hashes@[k]@, out@[k]@) by {
                assert(node.calls()[old(node).calls().len() + k] == calls0[old(node).calls().len() + k]);
            }
            assert(node.calls().subrange(0, old(node).calls().len() as int) =~= calls0.subrange(0, old(node).calls().len() as int));
        }
        out.push(st);
        i = i + 1;
    }
    Ok(out)
}

/// Indexes block `number`. The block is looked up, cache first. When its hash
/// is marked the block is skipped and nothing changes. Otherwise the listed
/// transactions that are not marked are fetched in list order and applied,
/// and the block is marked last. A failure changes nothing in the index.
pub fn index_block<N: NodeClient>(
    index: &mut AddressIndex,
    cache: &mut BlockCache,
    node: &mut Upstream<N>,
    number: u64,
) -> (r: Result<IndexOutcome, FetchError>)
    requires
        old(index).wf(),
        old(cache).wf(),
    ensures
        final(index).wf(),
        final(cache).wf(),
        keeps_entries(old(cache)@, final(cache)@),
        old(cache)@.contains_key(number_key(number as nat)) ==> final(cache)@ == old(cache)@,
        !old(cache)@.contains_key(number_key(number as nat)) ==> final(cache)@ == old(cache)@
            || final(cache)@ == fetched_entries(old(cache)@, number_key(number as nat), final(cache)@[number_key(number as nat)]),
        no_duplicates(old(index)@) ==> no_duplicates(final(index)@),
        r is Err ==> final(index)@ == old(index)@,
        r is Ok ==> final(cache)@.contains_key(number_key(number as nat))
            && block_normalizes(final(cache)@[number_key(number as nat)])
            && final(index)@.indexed_blocks.contains(final(cache)@[number_key(number as nat)].hash),
        old(index)@.indexed_blocks.subset_of(final(index)@.indexed_blocks),
        ({
            let b = final(cache)@[number_key(number as nat)];
            let listed = b.transactions;
            let pending = pending_spec(old(index)@.indexed_txs, listed);
            &&& r == Ok::<IndexOutcome, FetchError>(IndexOutcome::Skipped) <==> (r is Ok
                && old(index)@.indexed_blocks.contains(b.hash))
            &&& r == Ok::<IndexOutcome, FetchError>(IndexOutcome::Skipped) ==> final(index)@ == old(index)@
            &&& r == Ok::<IndexOutcome, FetchError>(IndexOutcome::Indexed) ==> {
                &&& (exists|ts: Seq<TxView>| {
                    &&& final(index)@ == #[trigger] index_block_spec(old(index)@, b.hash, ts)
                    &&& ts.len() == pending.len()
                    &&& forall|i: int| 0 <= i < ts.len() ==> is_fetched_record(#[trigger] ts[i], pending[i])
                })
                &&& final(index)@.indexed_blocks.contains(b.hash)
                &&& forall|i: int| 0 <= i < listed.len() ==> final(index)@.indexed_txs.contains(#[trigger] listed[i])
            }
        }),
        ({
            let k = number_key(number as nat);
            let b = old(cache)@[k];
            old(cache)@.contains_key(k) && block_normalizes(b) ==> {
                &&& old(index)@.indexed_blocks.contains(b.hash) ==> r == Ok::<IndexOutcome, FetchError>(IndexOutcome::Skipped)
                    && final(node).calls() == old(node).calls()
                &&& !old(index)@.indexed_blocks.contains(b.hash)
                    && pending_spec(old(index)@.indexed_txs, b.transactions).len() == 0
                    ==> r == Ok::<IndexOutcome, FetchError>(IndexOutcome::Indexed)
                        && final(index)@ == index_block_spec(old(index)@, b.hash, Seq::empty())
            }
        }),
{
    let br = BlockRef::Number(number);
    assert(crate::gateway::ref_key(br) == number_key(number as nat));
    let b = match get_block(cache, node, &br) {
        Ok(b) => b,
        Err(e) => { return Err(e); },
    };
    if index.is_block_indexed(&b.hash) {
        return Ok(IndexOutcome::Skipped);
    }
    let pending = index.unindexed(&b.transactions);
    let ghost pv = pending@.map_values(|h: String| h@);
    let recs = match retrieve_transactions(node, &pending) {
        Ok(v) => v,
        Err(e) => { return Err(e); },
    };
    let ghost v0 = index@;
    let ghost ts = recs@.map_values(|t: SimpleTransaction| t@);
    let o = index.index_transactions(&b.hash, &recs);
    proof {
        assert forall|i: int| 0 <= i < ts.len() implies is_fetched_record(#[trigger] ts[i], pv[i]) by {
            assert(is_fetched_record(recs@[i]@, pending@[i]@));
        }
        assert(ts.len() == pv.len());
        if no_duplicates(v0) { lemma_index_block_no_duplicates(v0, b.hash@, ts); }
        lemma_apply_all_marks(v0, ts);
        crate::index::lemma_apply_all_keeps_blocks(v0, ts);
        let listed = b.transactions@.map_values(|h: String| h@);
        assert forall|i: int| 0 <= i < listed.len() implies index@.indexed_txs.contains(#[trigger] listed[i]) by {
            lemma_listed_marked_or_pending(v0.indexed_txs, listed, i);
            if !v0.indexed_txs.contains(listed[i]) {
                let j = choose|j: int| 0 <= j < pv.len() && pv[j] == listed[i];
                assert(ts[j].hash == listed[i]);
            }
        }
    }
    Ok(o)
}

/// How far below the chain head a crawl starts when no start is given.
pub const CRAWL_DEPTH: u64 = 100;

/// The first block a crawl visits: `start`, or when that is 0, the chain head
/// less the crawl depth (not below block 0).
pub open spec fn crawl_first(start: u64, head: u64) -> nat {
    if start == 0 {
        if head >= CRAWL_DEPTH { (head - CRAWL_DEPTH) as nat } else { 0 }
    } else {
        start as nat
    }
}

/// The blocks a crawl visits, in order: none when `end <= start`, else every
/// number from the first block up to `end`, `end` excluded.
pub open spec fn crawl_blocks(start: u64, end: u64, head: u64) -> Seq<u64> {
    let first = crawl_first(start, head);
    if end <= start || end <= first {
        Seq::empty()
    } else {
        Seq::new((end - first) as nat, |i: int| (first + i) as u64)
    }
}

/// What a crawl did with one block.
#[derive(Debug, Clone, Copy, PartialEq, Eq)]
pub struct CrawlStep {
    pub number: u64,
    pub outcome: Result<IndexOutcome, FetchError>,
}

/// The block numbers of a crawl report, in order.
pub open spec fn step_numbers(v: Seq<CrawlStep>) -> Seq<u64> {
    v.map_values(|s: CrawlStep| s.number)
}

/// Every step that succeeded left its block, as `m` holds it, marked in `ix`.
pub open spec fn steps_marked(v: Seq<CrawlStep>, ix: IndexView, m: Map<Seq<char>, BlockView>) -> bool {
    forall|i: int| 0 <= i < v.len() && (#[trigger] v[i]).outcome is Ok ==> {
        let k = number_key(v[i].number as nat);
        m.contains_key(k) && ix.indexed_blocks.contains(m[k].hash)
    }
}

/// Every step whose block `m0` held, well formed and already marked in `ix0`, was a skip.
pub open spec fn steps_skip_marked(v: Seq<CrawlStep>, ix0: IndexView, m0: Map<Seq<char>, BlockView>) -> bool {
    forall|i: int| 0 <= i < v.len() ==> {
        let k = number_key((#[trigger] v[i]).number as nat);
        m0.contains_key(k) && block_normalizes(m0[k]) && ix0.indexed_blocks.contains(m0[k].hash)
            ==> v[i].outcome == Ok::<IndexOutcome, FetchError>(IndexOutcome::Skipped)
    }
}

/// Indexes every block of the crawl from `s_b` to `e_b` with chain head
/// `head`, in ascending order, and reports each block's outcome. A block that
/// fails is passed over and the crawl goes on; the next crawl takes it up again.
pub fn crawl_range<N: NodeClient>(
    index: &mut AddressIndex,
    cache: &mut BlockCache,
    node: &mut Upstream<N>,
    s_b: u64,
    e_b: u64,
    head: u64,
) -> (r: Vec<CrawlStep>)
    requires
        old(index).wf(),
        old(cache).wf(),
    ensures
        final(index).wf(),
        final(cache).wf(),
        keeps_entries(old(cache)@, final(cache)@),
        no_duplicates(old(index)@) ==> no_duplicates(final(index)@),
        old(index)@.indexed_blocks.subset_of(final(index)@.indexed_blocks),
        step_numbers(r@) == crawl_blocks(s_b, e_b, head),
        steps_marked(r@, final(index)@, final(cache)@),
        steps_skip_marked(r@, old(index)@, old(cache)@),
        r@.len() == 0 ==> final(index)@ == old(index)@ && final(cache)@ == old(cache)@,
{
    let first: u64 = if s_b == 0 {
        if head >= CRAWL_DEPTH { head - CRAWL_DEPTH } else { 0 }
    } else {
        s_b
    };
    let mut steps: Vec<CrawlStep> = Vec::new();
    if e_b <= s_b || first >= e_b {
        assert(step_numbers(steps@) =~= crawl_blocks(s_b, e_b, head));
        return steps;
    }
    let mut i: u64 = first;
    while i < e_b
        invariant
            first <= i <= e_b,
            first == crawl_first(s_b, head),
            e_b > s_b,
            first < e_b,
            index.wf(),
            cache.wf(),
            keeps_entries(old(cache)@, cache@),
            no_duplicates(old(index)@) ==> no_duplicates(index@),
            old(index)@.indexed_blocks.subset_of(index@.indexed_blocks),
            step_numbers(steps@) =~= Seq::new((i - first) as nat, |k: int| (first + k) as u64),
            steps_marked(steps@, index@, cache@),
            steps_skip_marked(steps@, old(index)@, old(cache)@),
        decreases e_b - i,
    {
        let ghost c0 = cache@;
        let ghost v0 = index@;
        let ghost s0 = steps@;
        let outcome = index_block(index, cache, node, i);
        proof {
            lemma_keeps_entries_trans(old(cache)@, c0, cache@);
            let k = number_key(i as nat);
            if old(cache)@.contains_key(k) {
                assert(c0.contains_key(k));
            }
        }
        steps.push(CrawlStep { number: i, outcome });
        proof {
            assert(steps@.drop_last() == s0);
            assert(step_numbers(steps@) =~= step_numbers(s0).push(i));
            assert forall|j: int| 0 <= j < steps@.len() && (#[trigger] steps@[j]).outcome is Ok implies {
                let k = number_key(steps@[j].number as nat);
                cache@.contains_key(k) && index@.indexed_blocks.contains(cache@[k].hash)
            } by {
                if j < s0.len() {
                    assert(steps@[j] == s0[j]);
                    let k = number_key(s0[j].number as nat);
                    assert(c0.contains_key(k));
                    assert(cache@.contains_key(k));
                }
            }
            assert forall|j: int| 0 <= j < steps@.len() implies {
                let k = number_key((#[trigger] steps@[j]).number as nat);
                old(cache)@.contains_key(k) && block_normalizes(old(cache)@[k]) && old(index)@.indexed_blocks.contains(old(cache)@[k].hash)
                    ==> steps@[j].outcome == Ok::<IndexOutcome, FetchError>(IndexOutcome::Skipped)
            } by {
                if j < s0.len() {
                    assert(steps@[j] == s0[j]);
                }
            }
        }
        i = i + 1;
    }
    assert(step_numbers(steps@) =~= crawl_blocks(s_b, e_b, head));
    steps
}

/// Backfills the index over a range of past blocks and reports each block's
/// outcome. When `e_b <= s_b` nothing runs. When `s_b` is 0 the chain head is
/// asked for, a failure to get it is returned, and the crawl runs from that
/// head; otherwise the crawl runs from `s_b` and the head is not asked for.
pub fn crawler<N: NodeClient>(
    index: &mut AddressIndex,
    cache: &mut BlockCache,
    node: &mut Upstream<N>,
    s_b: u64,
    e_b: u64,
) -> (r: Result<Vec<CrawlStep>, FetchError>)
    requires
        old(index).wf(),
        old(cache).wf(),
    ensures
        final(index).wf(),
        final(cache).wf(),
        keeps_entries(old(cache)@, final(cache)@),
        no_duplicates(old(index)@) ==> no_duplicates(final(index)@),
        old(index)@.indexed_blocks.subset_of(final(index)@.indexed_blocks),
        e_b <= s_b ==> (r matches Ok(v) && v@.len() == 0) && final(index)@ == old(index)@ && final(cache)@ == old(cache)@,
        s_b != 0 ==> (r matches Ok(v) && step_numbers(v@) == crawl_blocks(s_b, e_b, 0)),
        r matches Ok(v) ==> (exists|h: u64| step_numbers(v@) == #[trigger] crawl_blocks(s_b, e_b, h))
            && steps_marked(v@, final(index)@, final(cache)@)
            && steps_skip_marked(v@, old(index)@, old(cache)@),
        r is Err ==> s_b == 0 && e_b > 0 && final(index)@ == old(index)@ && final(cache)@ == old(cache)@,
{
    if e_b <= s_b {
        let v: Vec<CrawlStep> = Vec::new();
        assert(step_numbers(v@) =~= crawl_blocks(s_b, e_b, 0));
        return Ok(v);
    }
    let head: u64 = if s_b == 0 {
        match node.block_number() {
            Ok(h) => h,
            Err(e) => { return Err(e); },
        }
    } else {
        0
    };
    let v = crawl_range(index, cache, node, s_b, e_b, head);
    assert(step_numbers(v@) == crawl_blocks(s_b, e_b, head));
    Ok(v)
}

} // verus!
