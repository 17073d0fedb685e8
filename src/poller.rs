//! The live poller's decisions: a start guard that lets one poller run, the
//! block numbers a batch of summaries covers, their summaries, and one
//! polling round.
use vstd::prelude::*;
use crate::gateway::{
    get_block, keeps_entries, lemma_keeps_entries_trans, number_key, BlockCache, BlockRef, FetchError, NodeClient, Upstream,
};
use crate::hexnum::{is_quantity, quantity_value, without_quotes};
use crate::index::{index_block_spec, no_duplicates, pending_spec, AddressIndex, IndexOutcome, IndexView};
use crate::indexer::index_block;
use crate::payload::{block_normalizes, is_fetched_record, BlockView, SimpleBlock, TxView};

verus! {

/// How many of the latest blocks a batch of summaries covers.
pub const LATEST_BLOCKS_AMOUNT: u64 = 20;

/// Whether a poller runs. Starting is refused while one runs.
pub struct Poller {
    running: bool,
}

impl Poller {
    pub closed spec fn is_running_spec(&self) -> bool {
        self.running
    }

    /// A poller that is not running.
    pub fn new() -> (r: Poller)
        ensures
            !r.is_running_spec(),
    {
        Poller { running: false }
    }

    /// Starts the poller unless it runs already; true when this call started it.
    pub fn try_start(&mut self) -> (r: bool)
        ensures
            r == !old(self).is_running_spec(),
            final(self).is_running_spec(),
    {
        if self.running {
            false
        } else {
            self.running = true;
            true
        }
    }

    pub fn stop(&mut self)
        ensures
            !final(self).is_running_spec(),
    {
        self.running = false;
    }

    pub fn is_running(&self) -> (r: bool)
        ensures
            r == self.is_running_spec(),
    {
        self.running
    }
}

/// The numbers of the latest blocks from `head` down, newest first, as many as
/// the batch holds and none below block 0.
pub open spec fn latest_numbers(head: u64) -> Seq<u64> {
    let n = if head as nat + 1 < LATEST_BLOCKS_AMOUNT { head as nat + 1 } else { LATEST_BLOCKS_AMOUNT as nat };
    Seq::new(n, |i: int| (head - i) as u64)
}

pub fn latest_block_numbers(head: u64) -> (r: Vec<u64>)
    ensures
        r@ == latest_numbers(head),
{
    let mut r: Vec<u64> = Vec::new();
    let mut i: u64 = 0;
    while i < LATEST_BLOCKS_AMOUNT && i <= head
        invariant
            i <= LATEST_BLOCKS_AMOUNT,
            i <= head + 1,
            r@ =~= Seq::new(i as nat, |k: int| (head - k) as u64),
        decreases LATEST_BLOCKS_AMOUNT - i,
    {
        r.push(head - i);
        i = i + 1;
    }
    assert(r@ =~= latest_numbers(head));
    r
}

/// `v` summarizes the latest blocks from `head` down, each from its entry in `m`.
pub open spec fn summaries_match(v: Seq<SimpleBlock>, m: Map<Seq<char>, BlockView>, head: u64) -> bool {
    &&& v.len() == latest_numbers(head).len()
    &&& forall|i: int| 0 <= i < v.len() ==> #[trigger] summary_of(v[i], m, latest_numbers(head)[i])
}

/// `s` summarizes block `n` as `m` holds it.
pub open spec fn summary_of(s: SimpleBlock, m: Map<Seq<char>, BlockView>, n: u64) -> bool {
    let k = number_key(n as nat);
    &&& m.contains_key(k)
    &&& block_normalizes(m[k])
    &&& s.number == n
    &&& s.hash@ == without_quotes(m[k].hash)
    &&& s.tx_amount == m[k].transactions.len()
    &&& is_quantity(m[k].timestamp)
    &&& s.human_date == quantity_value(m[k].timestamp)
}

/// Every one of the latest blocks from `head` down is in `m` and well formed.
pub open spec fn latest_all_normalized(m: Map<Seq<char>, BlockView>, head: u64) -> bool {
    forall|i: int| 0 <= i < latest_numbers(head).len() ==> {
        let k = #[trigger] number_key(latest_numbers(head)[i] as nat);
        m.contains_key(k) && block_normalizes(m[k])
    }
}

/// Every one of the latest blocks from `head` down is in `m`, well formed, with
/// a timestamp that fits in 64 bits.
pub open spec fn latest_all_cached(m: Map<Seq<char>, BlockView>, head: u64) -> bool {
    &&& latest_all_normalized(m, head)
    &&& forall|i: int| 0 <= i < latest_numbers(head).len() ==> {
        let k = #[trigger] number_key(latest_numbers(head)[i] as nat);
        is_quantity(m[k].timestamp) && quantity_value(m[k].timestamp) <= u64::MAX
    }
}

/// Summaries of the latest blocks from `head` down, newest first. Fails with
/// the first lookup that fails, or with `MalformedPayload` for a block whose
/// timestamp is not a 64-bit quantity.
pub fn get_latest_blocks<N: NodeClient>(cache: &mut BlockCache, node: &mut Upstream<N>, head: u64) -> (r: Result<Vec<SimpleBlock>, FetchError>)
    requires
        old(cache).wf(),
    ensures
        final(cache).wf(),
        keeps_entries(old(cache)@, final(cache)@),
        r matches Ok(v) ==> summaries_match(v@, final(cache)@, head),
        latest_all_normalized(old(cache)@, head) ==> final(cache)@ == old(cache)@
            && final(node).calls() == old(node).calls()
            && (r is Ok <==> latest_all_cached(old(cache)@, head))
            && (r is Err ==> r == Err::<Vec<SimpleBlock>, FetchError>(FetchError::MalformedPayload)),
{
    let numbers = latest_block_numbers(head);
    let mut out: Vec<SimpleBlock> = Vec::new();
    let mut i: usize = 0;
    while i < numbers.len()
        invariant
            i <= numbers@.len(),
            numbers@ == latest_numbers(head),
            out@.len() == i,
            forall|k: int| 0 <= k < i ==> #[trigger] summary_of(out@[k], cache@, numbers@[k]),
            cache.wf(),
            keeps_entries(old(cache)@, cache@),
            latest_all_normalized(old(cache)@, head) ==> cache@ == old(cache)@ && node.calls() == old(node).calls(),
        decreases numbers@.len() - i,
    {
        let ghost c0 = cache@;
        let br = BlockRef::Number(numbers[i]);
        let ghost k = number_key(numbers@[i as int] as nat);
        assert(crate::gateway::ref_key(br) == k);
        let res = get_block(cache, node, &br);
        proof {
            lemma_keeps_entries_trans(old(cache)@, c0, cache@);
            assert forall|j: int| 0 <= j < i implies #[trigger] summary_of(out@[j], cache@, numbers@[j]) by {
                let kj = number_key(numbers@[j] as nat);
                assert(summary_of(out@[j], c0, numbers@[j]));
                assert(c0.contains_key(kj));
                assert(cache@.contains_key(kj));
            }
            if latest_all_normalized(old(cache)@, head) {
                assert(c0.contains_key(number_key(latest_numbers(head)[i as int] as nat)));
            }
        }
        let b = match res {
            Ok(b) => b,
            Err(e) => { return Err(e); },
        };
        match SimpleBlock::from_block(numbers[i], &b) {
            Some(s) => out.push(s),
            None => {
                proof {
                    if latest_all_normalized(old(cache)@, head) {
                        let k = number_key(latest_numbers(head)[i as int] as nat);
                        assert(!(is_quantity(old(cache)@[k].timestamp) && quantity_value(old(cache)@[k].timestamp) <= u64::MAX));
                        assert(!latest_all_cached(old(cache)@, head));
                    }
                }
                return Err(FetchError::MalformedPayload);
            },
        }
        i = i + 1;
    }
    proof {
        if latest_all_normalized(old(cache)@, head) {
            assert forall|j: int| 0 <= j < latest_numbers(head).len() implies {
                let k = #[trigger] number_key(latest_numbers(head)[j] as nat);
                is_quantity(old(cache)@[k].timestamp) && quantity_value(old(cache)@[k].timestamp) <= u64::MAX
            } by {
                assert(summary_of(out@[j], cache@, numbers@[j]));
            }
        }
    }
    Ok(out)
}

/// What one polling round did: the head it ran at, the summaries of the
/// latest blocks, and, when indexing was on, the outcome of indexing the head block.
#[derive(Debug, PartialEq)]
pub struct PollReport {
    pub head: u64,
    pub blocks: Vec<SimpleBlock>,
    pub indexed: Option<Result<IndexOutcome, FetchError>>,
}

/// What a round's report says of the index (from `ix0` to `ix1`) and of the
/// block cache `m` it left.
pub open spec fn report_holds(p: PollReport, ix0: IndexView, ix1: IndexView, m: Map<Seq<char>, BlockView>, indexing: bool) -> bool {
    let k = number_key(p.head as nat);
    let b = m[k];
    &&& summaries_match(p.blocks@, m, p.head)
    &&& p.indexed is Some <==> indexing
    &&& m.contains_key(k) && block_normalizes(b)
    &&& p.indexed is None ==> ix1 == ix0
    &&& p.indexed matches Some(Err(_)) ==> ix1 == ix0
    &&& p.indexed matches Some(Ok(_)) ==> ix1.indexed_blocks.contains(b.hash)
    &&& p.indexed == Some(Ok::<IndexOutcome, FetchError>(IndexOutcome::Skipped)) ==> ix1 == ix0
    &&& p.indexed == Some(Ok::<IndexOutcome, FetchError>(IndexOutcome::Indexed)) ==> exists|ts: Seq<TxView>| {
        &&& ix1 == #[trigger] index_block_spec(ix0, b.hash, ts)
        &&& ts.len() == pending_spec(ix0.indexed_txs, b.transactions).len()
        &&& forall|i: int| 0 <= i < ts.len() ==> is_fetched_record(#[trigger] ts[i], pending_spec(ix0.indexed_txs, b.transactions)[i])
    }
    &&& indexing && ix0.indexed_blocks.contains(b.hash) ==> p.indexed == Some(Ok::<IndexOutcome, FetchError>(IndexOutcome::Skipped))
    &&& indexing && !ix0.indexed_blocks.contains(b.hash) && pending_spec(ix0.indexed_txs, b.transactions).len() == 0
        ==> p.indexed == Some(Ok::<IndexOutcome, FetchError>(IndexOutcome::Indexed))
            && ix1 == index_block_spec(ix0, b.hash, Seq::empty())
}

/// One polling round at chain head `head`: the latest blocks are summarized;
/// when indexing is on, the head block is indexed too and its outcome
/// reported (a failure there does not fail the round, and leaves the index as
/// it was).
pub fn poll_round<N: NodeClient>(
    index: &mut AddressIndex,
    cache: &mut BlockCache,
    node: &mut Upstream<N>,
    head: u64,
    indexing: bool,
) -> (r: Result<PollReport, FetchError>)
    requires
        old(index).wf(),
        old(cache).wf(),
    ensures
        final(index).wf(),
        final(cache).wf(),
        keeps_entries(old(cache)@, final(cache)@),
        no_duplicates(old(index)@) ==> no_duplicates(final(index)@),
        !indexing || r is Err ==> final(index)@ == old(index)@,
        r matches Ok(p) ==> p.head == head && report_holds(p, old(index)@, final(index)@, final(cache)@, indexing),
        latest_all_cached(old(cache)@, head) ==> r is Ok && final(cache)@ == old(cache)@,
{
    let blocks = match get_latest_blocks(cache, node, head) {
        Ok(v) => v,
        Err(e) => { return Err(e); },
    };
    let ghost c0 = cache@;
    proof {
        assert(latest_numbers(head)[0] == head);
        assert(summary_of(blocks@[0], c0, latest_numbers(head)[0]));
    }
    if !indexing {
        return Ok(PollReport { head, blocks, indexed: None });
    }
    let ghost v0 = index@;
    let outcome = index_block(index, cache, node, head);
    proof {
        lemma_keeps_entries_trans(old(cache)@, c0, cache@);
        assert(cache@ == c0);
        let b = cache@[number_key(head as nat)];
        assert(block_normalizes(c0[number_key(head as nat)]));
        match outcome {
            Ok(IndexOutcome::Skipped) => { assert(index@ == v0); },
            Ok(IndexOutcome::Indexed) => {},
            Err(_) => { assert(index@ == v0); },
        }
    }
    Ok(PollReport { head, blocks, indexed: Some(outcome) })
}

/// One polling round: the chain head is asked for, then `poll_round` runs at
/// that head; the report carries the head.
pub fn poll_once<N: NodeClient>(
    index: &mut AddressIndex,
    cache: &mut BlockCache,
    node: &mut Upstream<N>,
    indexing: bool,
) -> (r: Result<PollReport, FetchError>)
    requires
        old(index).wf(),
        old(cache).wf(),
    ensures
        final(index).wf(),
        final(cache).wf(),
        keeps_entries(old(cache)@, final(cache)@),
        no_duplicates(old(index)@) ==> no_duplicates(final(index)@),
        !indexing || r is Err ==> final(index)@ == old(index)@,
        r matches Ok(p) ==> report_holds(p, old(index)@, final(index)@, final(cache)@, indexing),
{
    let head = match node.block_number() {
        Ok(h) => h,
        Err(e) => { return Err(e); },
    };
    poll_round(index, cache, node, head, indexing)
}

} // verus!
