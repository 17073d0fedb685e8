//! Block and transaction lookups against the node, with a write-once block
//! cache consulted before the node (cache-aside).
use vstd::prelude::*;
use crate::hexnum::{decimal_of, is_quantity, parse_quantity, quantity_value, to_decimal};
use crate::payload::{
    block_normalizes, is_normalized_block, is_normalized_tx, tx_normalizes, normalize_block, normalize_transaction, BlockPayload,
    BlockView, ComplexTransaction,
};

verus! {

/// Why a lookup failed.
#[derive(Debug, Clone, Copy, PartialEq, Eq)]
pub enum FetchError {
    /// The input is not a valid address, hash or number; the node was not asked.
    InvalidInput,
    /// The node could not be reached or answered with an error.
    UpstreamUnavailable,
    /// The node's answer holds a quantity that is not well formed.
    MalformedPayload,
}

/// The node, as the indexing logic sees it. Nothing is assumed of its
/// answers: every caller is correct whatever they are.
pub trait NodeClient {
    /// The number of the chain head.
    fn block_number(&mut self) -> Result<u64, FetchError>;

    fn block_by_number(&mut self, n: u64) -> Result<BlockPayload, FetchError>;

    fn block_by_hash(&mut self, h: &String) -> Result<BlockPayload, FetchError>;

    fn transaction(&mut self, h: &String) -> Result<ComplexTransaction, FetchError>;

    /// The balance of an address (or of a name-service name) in decimal wei.
    fn balance(&mut self, address: &String) -> Result<String, FetchError>;
}

/// One call made to the node, as the log of an `Upstream` records it.
pub enum NodeCall {
    Head,
    BlockByNumber(u64),
    BlockByHash(Seq<char>),
    /// A transaction lookup with the node's answer.
    Transaction(Seq<char>, Result<ComplexTransaction, FetchError>),
    Balance(Seq<char>),
}

/// The node, with a log of every call made to it through this handle, so
/// that contracts can say which calls a function makes.
pub struct Upstream<N: NodeClient> {
    client: N,
    log: Ghost<Seq<NodeCall>>,
}

impl<N: NodeClient> Upstream<N> {
    /// The calls made so far, oldest first.
    pub closed spec fn calls(&self) -> Seq<NodeCall> {
        self.log@
    }

    pub fn new(client: N) -> (r: Upstream<N>)
        ensures
            r.calls() == Seq::<NodeCall>::empty(),
    {
        Upstream { client, log: Ghost(Seq::empty()) }
    }

    /// The node itself.
    pub fn client(&self) -> &N {
        &self.client
    }

    pub fn block_number(&mut self) -> (r: Result<u64, FetchError>)
        ensures
            final(self).calls() == old(self).calls().push(NodeCall::Head),
    {
        proof { self.log@ = self.log@.push(NodeCall::Head); }
        self.client.block_number()
    }

    pub fn block_by_number(&mut self, n: u64) -> (r: Result<BlockPayload, FetchError>)
        ensures
            final(self).calls() == old(self).calls().push(NodeCall::BlockByNumber(n)),
    {
        proof { self.log@ = self.log@.push(NodeCall::BlockByNumber(n)); }
        self.client.block_by_number(n)
    }

    pub fn block_by_hash(&mut self, h: &String) -> (r: Result<BlockPayload, FetchError>)
        ensures
            final(self).calls() == old(self).calls().push(NodeCall::BlockByHash(h@)),
    {
        proof { self.log@ = self.log@.push(NodeCall::BlockByHash(h@)); }
        self.client.block_by_hash(h)
    }

    pub fn transaction(&mut self, h: &String) -> (r: Result<ComplexTransaction, FetchError>)
        ensures
            final(self).calls() == old(self).calls().push(NodeCall::Transaction(h@, r)),
    {
        let r = self.client.transaction(h);
        proof { self.log@ = self.log@.push(NodeCall::Transaction(h@, r)); }
        r
    }

    pub fn balance(&mut self, address: &String) -> (r: Result<String, FetchError>)
        ensures
            final(self).calls() == old(self).calls().push(NodeCall::Balance(address@)),
    {
        proof { self.log@ = self.log@.push(NodeCall::Balance(address@)); }
        self.client.balance(address)
    }
}

/// A block, named by number or by hash.
#[derive(Debug, Clone, PartialEq)]
pub enum BlockRef {
    Number(u64),
    Hash(String),
}

pub open spec fn key_prefix() -> Seq<char> {
    seq!['b', 'l', 'o', 'c', 'k', '_']
}

pub open spec fn number_key(n: nat) -> Seq<char> {
    key_prefix() + decimal_of(n)
}

pub open spec fn hash_key(h: Seq<char>) -> Seq<char> {
    key_prefix() + h
}

pub open spec fn ref_key(r: BlockRef) -> Seq<char> {
    match r {
        BlockRef::Number(n) => number_key(n as nat),
        BlockRef::Hash(h) => hash_key(h@),
    }
}

fn prefixed(s: &str) -> (r: String)
    ensures
        r@ == key_prefix() + s@,
{
    proof { reveal_strlit("block_"); }
    let mut k = String::from_str("block_");
    k.append(s);
    k
}

/// The cache key of a block looked up by number.
pub fn block_number_key(n: u64) -> (r: String)
    ensures
        r@ == number_key(n as nat),
{
    let d = to_decimal(n as u128);
    prefixed(d.as_str())
}

/// The cache key of a block looked up by hash.
pub fn block_hash_key(h: &String) -> (r: String)
    ensures
        r@ == hash_key(h@),
{
    prefixed(h.as_str())
}

/// The cache key of a block reference.
pub fn block_key(r: &BlockRef) -> (k: String)
    ensures
        k@ == ref_key(*r),
{
    match r {
        BlockRef::Number(n) => block_number_key(*n),
        BlockRef::Hash(h) => block_hash_key(h),
    }
}

fn copy_strings(v: &Vec<String>) -> (r: Vec<String>)
    ensures
        r@.map_values(|s: String| s@) == v@.map_values(|s: String| s@),
{
    let mut r: Vec<String> = Vec::new();
    let mut i: usize = 0;
    while i < v.len()
        invariant
            i <= v@.len(),
            r@.len() == i,
            forall|k: int| 0 <= k < i ==> #[trigger] r@[k]@ == v@[k]@,
        decreases v@.len() - i,
    {
        r.push(v[i].clone());
        i = i + 1;
    }
    assert(r@.map_values(|s: String| s@) =~= v@.map_values(|s: String| s@));
    r
}

/// A copy of a block with the same fields.
pub fn copy_block(b: &BlockPayload) -> (r: BlockPayload)
    ensures
        r@ == b@,
{
    BlockPayload {
        number: b.number.clone(),
        hash: b.hash.clone(),
        parent_hash: b.parent_hash.clone(),
        gas_used: b.gas_used.clone(),
        gas_limit: b.gas_limit.clone(),
        timestamp: b.timestamp.clone(),
        transactions: copy_strings(&b.transactions),
        base_fee_per_gas: b.base_fee_per_gas.clone(),
        difficulty: b.difficulty.clone(),
        extra_data: b.extra_data.clone(),
        logs_bloom: b.logs_bloom.clone(),
        miner: b.miner.clone(),
        mix_hash: b.mix_hash.clone(),
        nonce: b.nonce.clone(),
        receipts_root: b.receipts_root.clone(),
        sha3_uncles: b.sha3_uncles.clone(),
        size: b.size.clone(),
        state_root: b.state_root.clone(),
        total_difficulty: b.total_difficulty.clone(),
        transactions_root: b.transactions_root.clone(),
        uncles: copy_strings(&b.uncles),
    }
}

/// Raw block payloads by key. An entry, once written, is never replaced.
pub struct BlockCache {
    keys: Vec<String>,
    blocks: Vec<BlockPayload>,
    model: Ghost<Map<Seq<char>, BlockView>>,
}

impl View for BlockCache {
    type V = Map<Seq<char>, BlockView>;

    closed spec fn view(&self) -> Map<Seq<char>, BlockView> {
        self.model@
    }
}

/// `new` holds every entry of `old`, unchanged.
pub open spec fn keeps_entries(old: Map<Seq<char>, BlockView>, new: Map<Seq<char>, BlockView>) -> bool {
    forall|k: Seq<char>| old.contains_key(k) ==> #[trigger] new.contains_key(k) && new[k] == old[k]
}

/// `m` with `b` written under `k` unless `k` holds an entry already.
pub open spec fn put_once(m: Map<Seq<char>, BlockView>, k: Seq<char>, b: BlockView) -> Map<Seq<char>, BlockView> {
    if m.contains_key(k) { m } else { m.insert(k, b) }
}

impl BlockCache {
    pub closed spec fn wf(&self) -> bool {
        &&& self.keys@.len() == self.blocks@.len()
        &&& forall|i: int| 0 <= i < self.keys@.len() ==>
            #[trigger] self.model@.contains_key(self.keys@[i]@) && self.model@[self.keys@[i]@] == self.blocks@[i]@
        &&& forall|k: Seq<char>| self.model@.contains_key(k) ==>
            exists|i: int| 0 <= i < self.keys@.len() && #[trigger] self.keys@[i]@ == k
    }

    /// An empty cache.
    pub fn new() -> (r: BlockCache)
        ensures
            r.wf(),
            r@ == Map::<Seq<char>, BlockView>::empty(),
    {
        BlockCache { keys: Vec::new(), blocks: Vec::new(), model: Ghost(Map::empty()) }
    }

    fn find(&self, k: &String) -> (r: Option<usize>)
        requires
            self.wf(),
        ensures
            r matches Some(i) ==> i < self.keys@.len() && self.keys@[i as int]@ == k@
                && self@.contains_key(k@) && self@[k@] == self.blocks@[i as int]@,
            r is None ==> !self@.contains_key(k@),
    {
        let mut i: usize = 0;
        while i < self.keys.len()
            invariant
                i <= self.keys@.len(),
                self.wf(),
                forall|j: int| 0 <= j < i ==> self.keys@[j]@ != k@,
            decreases self.keys@.len() - i,
        {
            if self.keys[i] == *k {
                assert(self.model@.contains_key(self.keys@[i as int]@));
                return Some(i);
            }
            i = i + 1;
        }
        None
    }

    /// A copy of the entry under `k`, if there is one.
    pub fn get(&self, k: &String) -> (r: Option<BlockPayload>)
        requires
            self.wf(),
        ensures
            r is Some <==> self@.contains_key(k@),
            r matches Some(b) ==> b@ == self@[k@],
    {
        match self.find(k) {
            Some(i) => Some(copy_block(&self.blocks[i])),
            None => None,
        }
    }

    /// Writes `b` under `k` unless `k` holds an entry already.
    pub fn put(&mut self, k: String, b: BlockPayload)
        requires
            old(self).wf(),
        ensures
            final(self).wf(),
            final(self)@ == put_once(old(self)@, k@, b@),
    {
        if self.find(&k).is_some() {
            return;
        }
        let ghost kv = k@;
        let ghost bv = b@;
        self.keys.push(k);
        self.blocks.push(b);
        proof {
            self.model@ = self.model@.insert(kv, bv);
            let n = self.keys@.len();
            assert forall|i: int| 0 <= i < n implies
                #[trigger] self.model@.contains_key(self.keys@[i]@) && self.model@[self.keys@[i]@] == self.blocks@[i]@ by {
                if i < n - 1 {
                    assert(old(self).model@.contains_key(old(self).keys@[i]@));
                }
            }
            assert forall|k2: Seq<char>| self.model@.contains_key(k2) implies
                exists|i: int| 0 <= i < n && #[trigger] self.keys@[i]@ == k2 by {
                if k2 != kv {
                    let j = choose|j: int| 0 <= j < old(self).keys@.len() && #[trigger] old(self).keys@[j]@ == k2;
                    assert(self.keys@[j]@ == k2);
                } else {
                    assert(self.keys@[n - 1]@ == k2);
                }
            }
        }
    }

    /// The keys of all entries.
    pub fn keys(&self) -> (r: &Vec<String>)
        requires
            self.wf(),
        ensures
            forall|i: int| 0 <= i < r@.len() ==> #[trigger] self@.contains_key(r@[i]@),
            forall|k: Seq<char>| self@.contains_key(k) ==> exists|i: int| 0 <= i < r@.len() && #[trigger] r@[i]@ == k,
    {
        assert forall|i: int| 0 <= i < self.keys@.len() implies #[trigger] self@.contains_key(self.keys@[i]@) by {
            assert(self.model@.contains_key(self.keys@[i]@));
        }
        &self.keys
    }
}

/// The keys a freshly fetched block is written under: the key it was looked up
/// by, its hash's key, and its number's key when the number is well formed.
pub open spec fn fetched_entries(m: Map<Seq<char>, BlockView>, k: Seq<char>, b: BlockView) -> Map<Seq<char>, BlockView> {
    let m1 = put_once(m, k, b);
    let m2 = put_once(m1, hash_key(b.hash), b);
    if is_quantity(b.number) && quantity_value(b.number) <= u64::MAX {
        put_once(m2, number_key(quantity_value(b.number)), b)
    } else {
        m2
    }
}

/// `keeps_entries` composes.
pub proof fn lemma_keeps_entries_trans(
    a: Map<Seq<char>, BlockView>,
    b: Map<Seq<char>, BlockView>,
    c: Map<Seq<char>, BlockView>,
)
    requires
        keeps_entries(a, b),
        keeps_entries(b, c),
    ensures
        keeps_entries(a, c),
{
    assert forall|k: Seq<char>| #[trigger] a.contains_key(k) implies c.contains_key(k) && c[k] == a[k] by {
        assert(b.contains_key(k));
        assert(c.contains_key(k));
    }
    assert(keeps_entries(a, c));
}

/// A well-formed hash input: `0x` and one to sixty-four hex digits.
pub open spec fn is_hash_input(s: Seq<char>) -> bool {
    &&& 3 <= s.len() <= 66
    &&& s[0] == '0' && s[1] == 'x'
    &&& forall|i: int| 2 <= i < s.len() ==> crate::hexnum::is_hex_digit(#[trigger] s[i])
}

/// Tells whether `s` is a well-formed hash input.
pub fn check_hash(s: &str) -> (r: bool)
    ensures
        r == is_hash_input(s@),
{
    let len = s.unicode_len();
    if len < 3 || len > 66 || s.get_char(0) != '0' || s.get_char(1) != 'x' {
        return false;
    }
    let mut i: usize = 2;
    while i < len
        invariant
            2 <= i <= len,
            len == s@.len(),
            3 <= len <= 66,
            s@[0] == '0' && s@[1] == 'x',
            forall|k: int| 2 <= k < i ==> crate::hexnum::is_hex_digit(#[trigger] s@[k]),
        decreases len - i,
    {
        let c = s.get_char(i);
        if !(('0' <= c && c <= '9') || ('a' <= c && c <= 'f') || ('A' <= c && c <= 'F')) {
            assert(!crate::hexnum::is_hex_digit(s@[i as int]));
            return false;
        }
        i = i + 1;
    }
    true
}

/// Takes the node's answer to a lookup that missed the cache. A failure is
/// returned as it came and leaves the cache as it is. A block is written
/// under the lookup key, its hash's key and its number's key (an existing
/// entry is never replaced), then normalized and returned.
pub fn store_fetched(cache: &mut BlockCache, key: String, fetched: Result<BlockPayload, FetchError>) -> (res: Result<BlockPayload, FetchError>)
    requires
        old(cache).wf(),
    ensures
        final(cache).wf(),
        fetched is Err ==> res == fetched && final(cache)@ == old(cache)@,
        fetched matches Ok(b) ==> {
            &&& final(cache)@ == fetched_entries(old(cache)@, key@, b@)
            &&& res is Ok <==> block_normalizes(b@)
            &&& res matches Ok(n) ==> is_normalized_block(b@, n@)
            &&& res is Err ==> res == Err::<BlockPayload, FetchError>(FetchError::MalformedPayload)
        },
{
    let b = match fetched {
        Ok(b) => b,
        Err(e) => { return Err(e); },
    };
    let ghost m0 = cache@;
    cache.put(key, copy_block(&b));
    cache.put(block_hash_key(&b.hash), copy_block(&b));
    match parse_quantity(b.number.as_str()) {
        Some(v) => {
            if v <= u64::MAX as u128 {
                cache.put(block_number_key(v as u64), copy_block(&b));
            }
        },
        None => {},
    }
    assert(cache@ == fetched_entries(m0, key@, b@));
    match normalize_block(b) {
        Ok(n) => Ok(n),
        Err(_) => Err(FetchError::MalformedPayload),
    }
}

proof fn lemma_fetched_keeps(m: Map<Seq<char>, BlockView>, k: Seq<char>, b: BlockView)
    ensures
        keeps_entries(m, fetched_entries(m, k, b)),
        fetched_entries(m, k, b).contains_key(k),
        !m.contains_key(k) ==> fetched_entries(m, k, b)[k] == b,
{
}

/// Looks a block up, cache first. A hash that is not well formed is refused
/// before anything is asked. On a hit the cached payload is normalized and
/// returned and the cache is left as it is. On a miss the node's answer goes
/// to `store_fetched`: a failure comes back as it came with the cache
/// untouched; a block is written under every key it is known by, then
/// normalized and returned.
pub fn get_block<N: NodeClient>(cache: &mut BlockCache, node: &mut Upstream<N>, r: &BlockRef) -> (res: Result<BlockPayload, FetchError>)
    requires
        old(cache).wf(),
    ensures
        final(cache).wf(),
        keeps_entries(old(cache)@, final(cache)@),
        (r matches BlockRef::Hash(h) && !is_hash_input(h@)) ==> res == Err::<BlockPayload, FetchError>(FetchError::InvalidInput)
            && final(cache)@ == old(cache)@ && final(node).calls() == old(node).calls(),
        old(cache)@.contains_key(ref_key(*r)) ==> final(cache)@ == old(cache)@ && final(node).calls() == old(node).calls(),
        !(r matches BlockRef::Hash(h) && !is_hash_input(h@)) && !old(cache)@.contains_key(ref_key(*r)) ==>
            final(node).calls() == old(node).calls().push(match *r {
                BlockRef::Number(n) => NodeCall::BlockByNumber(n),
                BlockRef::Hash(h) => NodeCall::BlockByHash(h@),
            }),
        !old(cache)@.contains_key(ref_key(*r)) ==> final(cache)@ == old(cache)@
            || final(cache)@ == fetched_entries(old(cache)@, ref_key(*r), final(cache)@[ref_key(*r)]),
        res is Err && res != Err::<BlockPayload, FetchError>(FetchError::MalformedPayload) ==> final(cache)@ == old(cache)@,
        !final(cache)@.contains_key(ref_key(*r)) ==> res is Err && final(cache)@ == old(cache)@,
        final(cache)@.contains_key(ref_key(*r)) && !(r matches BlockRef::Hash(h) && !is_hash_input(h@)) ==> {
            let b = final(cache)@[ref_key(*r)];
            &&& res is Ok <==> block_normalizes(b)
            &&& res matches Ok(n) ==> is_normalized_block(b, n@)
            &&& res is Err ==> res == Err::<BlockPayload, FetchError>(FetchError::MalformedPayload)
        },
{
    match r {
        BlockRef::Hash(h) => {
            if !check_hash(h.as_str()) {
                return Err(FetchError::InvalidInput);
            }
        },
        BlockRef::Number(_) => {},
    }
    let key = block_key(r);
    match cache.get(&key) {
        Some(b) => match normalize_block(b) {
            Ok(n) => Ok(n),
            Err(_) => Err(FetchError::MalformedPayload),
        },
        None => {
            let fetched = match r {
                BlockRef::Number(n) => node.block_by_number(*n),
                BlockRef::Hash(h) => node.block_by_hash(h),
            };
            let ghost m0 = cache@;
            let ghost f = fetched;
            let res = store_fetched(cache, key, fetched);
            proof {
                if f is Ok {
                    lemma_fetched_keeps(m0, ref_key(*r), f->Ok_0@);
                }
            }
            res
        },
    }
}

/// A valid address input: `0x` and forty hex digits, or a name-service name
/// (text before an `.eth` suffix).
pub open spec fn is_address_input(s: Seq<char>) -> bool {
    ||| (s.len() == 42 && s[0] == '0' && s[1] == 'x'
        && forall|i: int| 2 <= i < 42 ==> crate::hexnum::is_hex_digit(#[trigger] s[i]))
    ||| (s.len() > 4 && s.subrange(s.len() - 4, s.len() as int) == seq!['.', 'e', 't', 'h'])
}

/// Tells whether `s` is a valid address input.
pub fn check_address(s: &str) -> (r: bool)
    ensures
        r == is_address_input(s@),
{
    let len = s.unicode_len();
    if len > 4 && s.get_char(len - 4) == '.' && s.get_char(len - 3) == 'e' && s.get_char(len - 2) == 't'
        && s.get_char(len - 1) == 'h' {
        assert(s@.subrange(len - 4, len as int) =~= seq!['.', 'e', 't', 'h']);
        return true;
    }
    if len > 4 {
        assert(s@.subrange(len - 4, len as int)[0] == s@[len - 4]);
        assert(s@.subrange(len - 4, len as int)[1] == s@[len - 3]);
        assert(s@.subrange(len - 4, len as int)[2] == s@[len - 2]);
        assert(s@.subrange(len - 4, len as int)[3] == s@[len - 1]);
    }
    if len != 42 || s.get_char(0) != '0' || s.get_char(1) != 'x' {
        return false;
    }
    let mut i: usize = 2;
    while i < 42
        invariant
            2 <= i <= 42,
            len == 42,
            s@.len() == 42,
            forall|k: int| 2 <= k < i ==> crate::hexnum::is_hex_digit(#[trigger] s@[k]),
            s@.subrange(38, 42) != seq!['.', 'e', 't', 'h'],
        decreases 42 - i,
    {
        let c = s.get_char(i);
        if !(('0' <= c && c <= '9') || ('a' <= c && c <= 'f') || ('A' <= c && c <= 'F')) {
            assert(!crate::hexnum::is_hex_digit(s@[i as int]));
            return false;
        }
        i = i + 1;
    }
    true
}

/// The balance of an address, from the node. An input that is not a valid
/// address is refused before the node is asked.
pub fn get_balance<N: NodeClient>(node: &mut Upstream<N>, address: &String) -> (r: Result<String, FetchError>)
    ensures
        !is_address_input(address@) ==> r == Err::<String, FetchError>(FetchError::InvalidInput)
            && final(node).calls() == old(node).calls(),
        is_address_input(address@) ==> final(node).calls() == old(node).calls().push(NodeCall::Balance(address@)),
{
    if !check_address(address.as_str()) {
        return Err(FetchError::InvalidInput);
    }
    node.balance(address)
}

/// `c` is the lookup of transaction `h`, and `res` is what its answer comes to:
/// a failure as it came, or the answer normalized (`MalformedPayload` when its
/// quantities are not well formed).
pub open spec fn answers_tx(c: NodeCall, h: Seq<char>, res: Result<ComplexTransaction, FetchError>) -> bool {
    match c {
        NodeCall::Transaction(h2, answer) => h2 == h && match answer {
            Err(e) => res == Err::<ComplexTransaction, FetchError>(e),
            Ok(raw) => (res is Ok <==> tx_normalizes(raw))
                && (res matches Ok(n) ==> is_normalized_tx(raw, n))
                && (res is Err ==> res == Err::<ComplexTransaction, FetchError>(FetchError::MalformedPayload)),
        },
        _ => false,
    }
}

/// A transaction from the node, normalized. A hash that is not well formed is
/// refused before the node is asked. A failure of the node is returned
/// as it came; an answer whose quantities are not well formed gives `MalformedPayload`.
pub fn get_transaction<N: NodeClient>(node: &mut Upstream<N>, h: &String) -> (res: Result<ComplexTransaction, FetchError>)
    ensures
        !is_hash_input(h@) ==> res == Err::<ComplexTransaction, FetchError>(FetchError::InvalidInput)
            && final(node).calls() == old(node).calls(),
        is_hash_input(h@) ==> final(node).calls().len() == old(node).calls().len() + 1
            && final(node).calls().drop_last() == old(node).calls()
            && answers_tx(final(node).calls().last(), h@, res),
        res is Ok ==> exists|raw: ComplexTransaction| is_normalized_tx(raw, res->Ok_0),
{
    if !check_hash(h.as_str()) {
        return Err(FetchError::InvalidInput);
    }
    let answer = node.transaction(h);
    let ghost a = answer;
    assert(node.calls() == old(node).calls().push(NodeCall::Transaction(h@, a)));
    let t = match answer {
        Ok(t) => t,
        Err(e) => { return Err(e); },
    };
    let ghost raw = t;
    let n = match normalize_transaction(t) {
        Ok(n) => n,
        Err(_) => { return Err(FetchError::MalformedPayload); },
    };
    assert(is_normalized_tx(raw, n));
    let res: Result<ComplexTransaction, FetchError> = Ok(n);
    assert(res->Ok_0 == n);
    res
}

} // verus!
