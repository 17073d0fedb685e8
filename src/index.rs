//! The per-address transaction index and its idempotency markers.
//!
//! A transaction is applied once: it is appended to its sender's record and,
//! when the receiver is another address, to the receiver's record, then its
//! hash is marked. A self-transfer therefore gives its address one entry.
//! A block is marked after all its transactions have been applied, and a
//! marked block is skipped.
use vstd::prelude::*;
use crate::payload::{SimpleTransaction, TxView};

verus! {

/// An address with the transactions that touch it, in the order they were indexed.
/// The balance is a snapshot taken when the record was made and is not kept current.
#[derive(Debug, Clone, PartialEq)]
pub struct SimpleAddress {
    pub address: String,
    pub balance: String,
    pub transactions: Vec<SimpleTransaction>,
}

pub struct AddressView {
    pub address: Seq<char>,
    pub balance: Seq<char>,
    pub transactions: Seq<TxView>,
}

impl View for SimpleAddress {
    type V = AddressView;

    open spec fn view(&self) -> AddressView {
        AddressView {
            address: self.address@,
            balance: self.balance@,
            transactions: self.transactions@.map_values(|t: SimpleTransaction| t@),
        }
    }
}

/// The index as a mathematical value: records by address, and the two kinds of markers.
pub struct IndexView {
    pub records: Map<Seq<char>, AddressView>,
    pub indexed_txs: Set<Seq<char>>,
    pub indexed_blocks: Set<Seq<char>>,
}

/// The balance a new record is given.
pub open spec fn placeholder_balance() -> Seq<char> {
    seq!['0']
}

/// `v` with `t` appended to the record of `a`, made first if there is none.
pub open spec fn append_spec(v: IndexView, a: Seq<char>, t: TxView) -> IndexView {
    let rec = if v.records.contains_key(a) {
        AddressView { transactions: v.records[a].transactions.push(t), ..v.records[a] }
    } else {
        AddressView { address: a, balance: placeholder_balance(), transactions: seq![t] }
    };
    IndexView { records: v.records.insert(a, rec), ..v }
}

/// Applying one transaction: nothing when its hash is marked; otherwise it is
/// appended for its sender, for its receiver when that is another address, and marked.
pub open spec fn apply_tx_spec(v: IndexView, t: TxView) -> IndexView {
    if v.indexed_txs.contains(t.hash) {
        v
    } else {
        let v1 = append_spec(v, t.from, t);
        let v2 = if t.to != t.from { append_spec(v1, t.to, t) } else { v1 };
        IndexView { indexed_txs: v2.indexed_txs.insert(t.hash), ..v2 }
    }
}

/// Applying a list of transactions in order.
pub open spec fn apply_all_spec(v: IndexView, ts: Seq<TxView>) -> IndexView
    decreases ts.len(),
{
    if ts.len() == 0 {
        v
    } else {
        apply_tx_spec(apply_all_spec(v, ts.drop_last()), ts.last())
    }
}

/// Indexing one block: nothing when the block is marked; otherwise its
/// transactions are applied in order and the block is marked last.
pub open spec fn index_block_spec(v: IndexView, block_hash: Seq<char>, ts: Seq<TxView>) -> IndexView {
    if v.indexed_blocks.contains(block_hash) {
        v
    } else {
        let w = apply_all_spec(v, ts);
        IndexView { indexed_blocks: w.indexed_blocks.insert(block_hash), ..w }
    }
}

/// No record lists a transaction twice, and every transaction listed is marked.
pub open spec fn no_duplicates(v: IndexView) -> bool {
    &&& forall|a: Seq<char>, i: int, j: int|
        #![trigger v.records[a].transactions[i], v.records[a].transactions[j]]
        v.records.contains_key(a) && 0 <= i < j < v.records[a].transactions.len()
            ==> v.records[a].transactions[i].hash != v.records[a].transactions[j].hash
    &&& forall|a: Seq<char>, i: int|
        v.records.contains_key(a) && 0 <= i < v.records[a].transactions.len()
            ==> v.indexed_txs.contains(#[trigger] v.records[a].transactions[i].hash)
}

pub open spec fn str_set(v: Seq<String>) -> Set<Seq<char>> {
    Set::new(|h: Seq<char>| exists|i: int| 0 <= i < v.len() && v[i]@ == h)
}

proof fn lemma_append_keeps(v: IndexView, a: Seq<char>, t: TxView)
    requires
        no_duplicates(v),
        !v.indexed_txs.contains(t.hash),
    ensures
        ({
            let w = append_spec(v, a, t);
            &&& forall|b: Seq<char>, i: int, j: int|
                #![trigger w.records[b].transactions[i], w.records[b].transactions[j]]
                w.records.contains_key(b) && 0 <= i < j < w.records[b].transactions.len()
                    ==> w.records[b].transactions[i].hash != w.records[b].transactions[j].hash
            &&& forall|b: Seq<char>, i: int|
                w.records.contains_key(b) && 0 <= i < w.records[b].transactions.len()
                    ==> (#[trigger] w.records[b].transactions[i]).hash == t.hash
                        || v.indexed_txs.contains(w.records[b].transactions[i].hash)
            &&& w.indexed_txs == v.indexed_txs
            &&& w.indexed_blocks == v.indexed_blocks
        }),
{
}

proof fn lemma_apply_tx_no_duplicates(v: IndexView, t: TxView)
    requires
        no_duplicates(v),
    ensures
        no_duplicates(apply_tx_spec(v, t)),
        apply_tx_spec(v, t).indexed_blocks == v.indexed_blocks,
{
    if !v.indexed_txs.contains(t.hash) {
        let v1 = append_spec(v, t.from, t);
        lemma_append_keeps(v, t.from, t);
        if t.to != t.from {
            let v2 = append_spec(v1, t.to, t);
            assert(v2.records[t.to].transactions.last() == t);
            assert forall|b: Seq<char>, i: int, j: int|
                v2.records.contains_key(b) && 0 <= i < j < v2.records[b].transactions.len()
                implies #[trigger] v2.records[b].transactions[i].hash != #[trigger] v2.records[b].transactions[j].hash by {
                if b == t.to && j == v2.records[b].transactions.len() - 1 {
                    assert(v1.records.contains_key(b) ==> v2.records[b].transactions[i] == v1.records[b].transactions[i]);
                    if v1.records.contains_key(b) {
                        assert(b != t.from);
                        assert(v1.records[b] == v.records[b]);
                        assert(v.indexed_txs.contains(v.records[b].transactions[i].hash));
                    }
                } else if b == t.to {
                    assert(v2.records[b].transactions[i] == v1.records[b].transactions[i]);
                    assert(v2.records[b].transactions[j] == v1.records[b].transactions[j]);
                }
            }
            assert forall|b: Seq<char>, i: int|
                v2.records.contains_key(b) && 0 <= i < v2.records[b].transactions.len()
                implies v2.indexed_txs.insert(t.hash).contains(#[trigger] v2.records[b].transactions[i].hash) by {
                if b == t.to && i < v2.records[b].transactions.len() - 1 {
                    assert(v2.records[b].transactions[i] == v1.records[b].transactions[i]);
                }
            }
        }
    }
}

/// Applying transactions keeps every record free of repeated transactions.
pub proof fn lemma_apply_all_no_duplicates(v: IndexView, ts: Seq<TxView>)
    requires
        no_duplicates(v),
    ensures
        no_duplicates(apply_all_spec(v, ts)),
        apply_all_spec(v, ts).indexed_blocks == v.indexed_blocks,
    decreases ts.len(),
{
    if ts.len() > 0 {
        lemma_apply_all_no_duplicates(v, ts.drop_last());
        lemma_apply_tx_no_duplicates(apply_all_spec(v, ts.drop_last()), ts.last());
    }
}

/// Indexing a block keeps every record free of repeated transactions, however
/// often and in whatever order blocks are indexed.
pub proof fn lemma_index_block_no_duplicates(v: IndexView, block_hash: Seq<char>, ts: Seq<TxView>)
    requires
        no_duplicates(v),
    ensures
        no_duplicates(index_block_spec(v, block_hash, ts)),
{
    lemma_apply_all_no_duplicates(v, ts);
}

/// Indexing a block a second time changes nothing, whatever transactions the
/// second pass is handed: the block is marked by the first pass.
pub proof fn lemma_index_block_idempotent(
    v: IndexView,
    block_hash: Seq<char>,
    ts: Seq<TxView>,
    again: Seq<TxView>,
)
    ensures
        index_block_spec(index_block_spec(v, block_hash, ts), block_hash, again)
            == index_block_spec(v, block_hash, ts),
{
}

/// A transaction whose hash is marked leaves the index as it is.
pub proof fn lemma_marked_tx_is_skipped(v: IndexView, t: TxView)
    requires
        v.indexed_txs.contains(t.hash),
    ensures
        apply_tx_spec(v, t) == v,
{
}

/// The listed hashes that are not marked, in list order.
pub open spec fn pending_spec(marked: Set<Seq<char>>, listed: Seq<Seq<char>>) -> Seq<Seq<char>>
    decreases listed.len(),
{
    if listed.len() == 0 {
        Seq::empty()
    } else {
        let p = pending_spec(marked, listed.drop_last());
        if marked.contains(listed.last()) { p } else { p.push(listed.last()) }
    }
}

/// Every listed hash is marked or pending.
pub proof fn lemma_listed_marked_or_pending(marked: Set<Seq<char>>, listed: Seq<Seq<char>>, i: int)
    requires
        0 <= i < listed.len(),
    ensures
        marked.contains(listed[i]) || pending_spec(marked, listed).contains(listed[i]),
    decreases listed.len(),
{
    if i < listed.len() - 1 {
        lemma_listed_marked_or_pending(marked, listed.drop_last(), i);
        assert(listed.drop_last()[i] == listed[i]);
        let p = pending_spec(marked, listed.drop_last());
        if p.contains(listed[i]) {
            let j = choose|j: int| 0 <= j < p.len() && p[j] == listed[i];
            if !marked.contains(listed.last()) {
                assert(p.push(listed.last())[j] == listed[i]);
            }
        }
    } else if !marked.contains(listed.last()) {
        let p = pending_spec(marked, listed.drop_last());
        assert(p.push(listed.last())[p.len() as int] == listed[i]);
    }
}

/// Applying transactions marks each of them and keeps every earlier marker.
pub proof fn lemma_apply_all_marks(v: IndexView, ts: Seq<TxView>)
    ensures
        v.indexed_txs.subset_of(apply_all_spec(v, ts).indexed_txs),
        forall|i: int| 0 <= i < ts.len() ==> apply_all_spec(v, ts).indexed_txs.contains(#[trigger] ts[i].hash),
    decreases ts.len(),
{
    if ts.len() > 0 {
        lemma_apply_all_marks(v, ts.drop_last());
        let w = apply_all_spec(v, ts.drop_last());
        assert forall|i: int| 0 <= i < ts.len() implies apply_all_spec(v, ts).indexed_txs.contains(#[trigger] ts[i].hash) by {
            if i < ts.len() - 1 {
                assert(ts.drop_last()[i] == ts[i]);
            }
        }
    }
}

/// What indexing a block came to.
#[derive(Debug, Clone, Copy, PartialEq, Eq)]
pub enum IndexOutcome {
    /// The block was marked already; nothing changed.
    Skipped,
    /// The block's transactions were applied and the block marked.
    Indexed,
}

/// The index: address records, and the markers of the transactions and blocks applied.
pub struct AddressIndex {
    records: Vec<SimpleAddress>,
    indexed_txs: Vec<String>,
    indexed_blocks: Vec<String>,
    model: Ghost<Map<Seq<char>, AddressView>>,
}

fn find_str(v: &Vec<String>, s: &String) -> (r: bool)
    ensures
        r == str_set(v@).contains(s@),
{
    let mut i: usize = 0;
    while i < v.len()
        invariant
            i <= v@.len(),
            forall|k: int| 0 <= k < i ==> v@[k]@ != s@,
        decreases v@.len() - i,
    {
        if v[i] == *s {
            return true;
        }
        i = i + 1;
    }
    false
}

proof fn lemma_str_set_push(v: Seq<String>, s: String)
    ensures
        str_set(v.push(s)) == str_set(v).insert(s@),
{
    let w = v.push(s);
    assert forall|h: Seq<char>| str_set(w).contains(h) <==> str_set(v).insert(s@).contains(h) by {
        if str_set(v).contains(h) {
            let i = choose|i: int| 0 <= i < v.len() && v[i]@ == h;
            assert(w[i]@ == h);
        }
        if h == s@ {
            assert(w[v.len() as int]@ == h);
        }
        if str_set(w).contains(h) && h != s@ {
            let i = choose|i: int| 0 <= i < w.len() && w[i]@ == h;
            assert(v[i]@ == h);
        }
    }
    assert(str_set(w) =~= str_set(v).insert(s@));
}

fn placeholder() -> (r: String)
    ensures
        r@ == placeholder_balance(),
{
    proof { reveal_strlit("0"); }
    String::from_str("0")
}

impl View for AddressIndex {
    type V = IndexView;

    closed spec fn view(&self) -> IndexView {
        IndexView {
            records: self.model@,
            indexed_txs: str_set(self.indexed_txs@),
            indexed_blocks: str_set(self.indexed_blocks@),
        }
    }
}

impl AddressIndex {
    /// The records agree with the model, one per address.
    pub closed spec fn wf(&self) -> bool {
        &&& forall|i: int| 0 <= i < self.records@.len() ==>
            #[trigger] self.model@.contains_key(self.records@[i].address@)
                && self.model@[self.records@[i].address@] == self.records@[i]@
        &&& forall|a: Seq<char>| self.model@.contains_key(a) ==>
            exists|i: int| 0 <= i < self.records@.len() && #[trigger] self.records@[i].address@ == a
        &&& forall|i: int, j: int| 0 <= i < j < self.records@.len() ==>
            #[trigger] self.records@[i].address@ != #[trigger] self.records@[j].address@
    }

    /// An empty index.
    pub fn new() -> (r: AddressIndex)
        ensures
            r.wf(),
            r@.records == Map::<Seq<char>, AddressView>::empty(),
            r@.indexed_txs == Set::<Seq<char>>::empty(),
            r@.indexed_blocks == Set::<Seq<char>>::empty(),
            no_duplicates(r@),
    {
        let r = AddressIndex {
            records: Vec::new(),
            indexed_txs: Vec::new(),
            indexed_blocks: Vec::new(),
            model: Ghost(Map::empty()),
        };
        assert(str_set(r.indexed_txs@) =~= Set::empty());
        assert(str_set(r.indexed_blocks@) =~= Set::empty());
        r
    }

    fn find(&self, a: &String) -> (r: Option<usize>)
        requires
            self.wf(),
        ensures
            r matches Some(i) ==> i < self.records@.len() && self.records@[i as int].address@ == a@,
            r is None ==> !self@.records.contains_key(a@),
    {
        let mut i: usize = 0;
        while i < self.records.len()
            invariant
                i <= self.records@.len(),
                forall|k: int| 0 <= k < i ==> self.records@[k].address@ != a@,
            decreases self.records@.len() - i,
        {
            if self.records[i].address == *a {
                return Some(i);
            }
            i = i + 1;
        }
        None
    }

    /// The record of `a`, if there is one.
    pub fn record(&self, a: &String) -> (r: Option<&SimpleAddress>)
        requires
            self.wf(),
        ensures
            r is Some <==> self@.records.contains_key(a@),
            r matches Some(rec) ==> rec@ == self@.records[a@],
    {
        match self.find(a) {
            Some(i) => {
                assert(self.model@.contains_key(self.records@[i as int].address@));
                Some(&self.records[i])
            },
            None => None,
        }
    }

    /// Every record, one per address.
    pub fn records(&self) -> (r: &Vec<SimpleAddress>)
        requires
            self.wf(),
        ensures
            forall|i: int| 0 <= i < r@.len() ==> #[trigger] self@.records.contains_key(r@[i].address@)
                && self@.records[r@[i].address@] == r@[i]@,
            forall|a: Seq<char>| self@.records.contains_key(a) ==>
                exists|i: int| 0 <= i < r@.len() && #[trigger] r@[i].address@ == a,
    {
        assert forall|i: int| 0 <= i < self.records@.len() implies #[trigger] self@.records.contains_key(self.records@[i].address@)
            && self@.records[self.records@[i].address@] == self.records@[i]@ by {
            assert(self.model@.contains_key(self.records@[i].address@));
        }
        &self.records
    }

    /// The hashes of the transactions marked as applied.
    pub fn indexed_transactions(&self) -> (r: &Vec<String>)
        ensures
            str_set(r@) == self@.indexed_txs,
    {
        &self.indexed_txs
    }

    /// The hashes of the blocks marked as indexed.
    pub fn indexed_blocks(&self) -> (r: &Vec<String>)
        ensures
            str_set(r@) == self@.indexed_blocks,
    {
        &self.indexed_blocks
    }

    pub fn is_tx_indexed(&self, h: &String) -> (r: bool)
        ensures
            r == self@.indexed_txs.contains(h@),
    {
        find_str(&self.indexed_txs, h)
    }

    pub fn is_block_indexed(&self, h: &String) -> (r: bool)
        ensures
            r == self@.indexed_blocks.contains(h@),
    {
        find_str(&self.indexed_blocks, h)
    }

    /// Puts a record that the store holds into the index, in place of any record of its address.
    pub fn load_record(&mut self, rec: SimpleAddress)
        requires
            old(self).wf(),
        ensures
            final(self).wf(),
            final(self)@ == (IndexView { records: old(self)@.records.insert(rec.address@, rec@), ..old(self)@ }),
    {
        let ghost a = rec.address@;
        let ghost rv = rec@;
        match self.find(&rec.address) {
            Some(i) => {
                let _ = self.records.remove(i);
                self.records.insert(i, rec);
                proof {
                    self.model@ = self.model@.insert(a, rv);
                    assert(self.records@ =~= old(self).records@.update(i as int, self.records@[i as int]));
                    assert forall|b: Seq<char>| self.model@.contains_key(b) implies
                        exists|k: int| 0 <= k < self.records@.len() && #[trigger] self.records@[k].address@ == b by {
                        if b != a {
                            let j = choose|j: int| 0 <= j < old(self).records@.len() && #[trigger] old(self).records@[j].address@ == b;
                            assert(self.records@[j].address@ == b);
                        } else {
                            assert(self.records@[i as int].address@ == b);
                        }
                    }
                }
            },
            None => {
                self.records.push(rec);
                proof {
                    self.model@ = self.model@.insert(a, rv);
                    let n = self.records@.len();
                    assert forall|b: Seq<char>| self.model@.contains_key(b) implies
                        exists|k: int| 0 <= k < n && #[trigger] self.records@[k].address@ == b by {
                        if b != a {
                            let j = choose|j: int| 0 <= j < old(self).records@.len() && #[trigger] old(self).records@[j].address@ == b;
                            assert(self.records@[j].address@ == b);
                        } else {
                            assert(self.records@[n - 1].address@ == b);
                        }
                    }
                }
            },
        }
    }

    /// Marks a transaction that the store holds as applied.
    pub fn load_tx_marker(&mut self, h: String)
        requires
            old(self).wf(),
        ensures
            final(self).wf(),
            final(self)@ == (IndexView { indexed_txs: old(self)@.indexed_txs.insert(h@), ..old(self)@ }),
    {
        proof { lemma_str_set_push(self.indexed_txs@, h); }
        self.indexed_txs.push(h);
        assert(self.records@ == old(self).records@);
        assert(self.model@ == old(self).model@);
        assert forall|i: int| 0 <= i < self.records@.len() implies
            #[trigger] self.model@.contains_key(self.records@[i].address@)
                && self.model@[self.records@[i].address@] == self.records@[i]@ by {
            assert(old(self).model@.contains_key(old(self).records@[i].address@));
        }
    }

    /// Marks a block that the store holds as indexed.
    pub fn load_block_marker(&mut self, h: String)
        requires
            old(self).wf(),
        ensures
            final(self).wf(),
            final(self)@ == (IndexView { indexed_blocks: old(self)@.indexed_blocks.insert(h@), ..old(self)@ }),
    {
        proof { lemma_str_set_push(self.indexed_blocks@, h); }
        self.indexed_blocks.push(h);
        assert(self.records@ == old(self).records@);
        assert(self.model@ == old(self).model@);
        assert forall|i: int| 0 <= i < self.records@.len() implies
            #[trigger] self.model@.contains_key(self.records@[i].address@)
                && self.model@[self.records@[i].address@] == self.records@[i]@ by {
            assert(old(self).model@.contains_key(old(self).records@[i].address@));
        }
    }

    fn append(&mut self, a: &String, t: &SimpleTransaction)
        requires
            old(self).wf(),
        ensures
            final(self).wf(),
            final(self)@ == append_spec(old(self)@, a@, t@),
    {
        match self.find(a) {
            Some(i) => {
                let mut rec = self.records.remove(i);
                let ghost before = rec@;
                rec.transactions.push(t.copied());
                assert(rec@.transactions =~= before.transactions.push(t@));
                let ghost rv = rec@;
                self.records.insert(i, rec);
                proof {
                    self.model@ = self.model@.insert(a@, rv);
                    assert(self.records@ =~= old(self).records@.update(i as int, self.records@[i as int]));
                    assert forall|k: int| 0 <= k < self.records@.len() implies
                        #[trigger] self.model@.contains_key(self.records@[k].address@)
                            && self.model@[self.records@[k].address@] == self.records@[k]@ by {
                        if k != i {
                            assert(old(self).model@.contains_key(old(self).records@[k].address@));
                        }
                    }
                    assert forall|b: Seq<char>| self.model@.contains_key(b) implies
                        exists|k: int| 0 <= k < self.records@.len() && #[trigger] self.records@[k].address@ == b by {
                        let j = choose|j: int| 0 <= j < old(self).records@.len() && #[trigger] old(self).records@[j].address@ == b;
                        assert(self.records@[j].address@ == b);
                    }
                }
            },
            None => {
                let rec = SimpleAddress { address: a.clone(), balance: placeholder(), transactions: vec![t.copied()] };
                assert(rec@.transactions =~= seq![t@]);
                let ghost rv = rec@;
                self.records.push(rec);
                proof {
                    self.model@ = self.model@.insert(a@, rv);
                    let n = self.records@.len();
                    assert forall|k: int| 0 <= k < n implies
                        #[trigger] self.model@.contains_key(self.records@[k].address@)
                            && self.model@[self.records@[k].address@] == self.records@[k]@ by {
                        if k < n - 1 {
                            assert(old(self).model@.contains_key(old(self).records@[k].address@));
                        }
                    }
                    assert forall|k: int, l: int| 0 <= k < l < n implies
                        #[trigger] self.records@[k].address@ != #[trigger] self.records@[l].address@ by {
                        if l == n - 1 {
                            assert(old(self).model@.contains_key(old(self).records@[k].address@));
                        }
                    }
                    assert forall|b: Seq<char>| self.model@.contains_key(b) implies
                        exists|k: int| 0 <= k < n && #[trigger] self.records@[k].address@ == b by {
                        if b != a@ {
                            let j = choose|j: int| 0 <= j < old(self).records@.len() && #[trigger] old(self).records@[j].address@ == b;
                            assert(self.records@[j].address@ == b);
                        } else {
                            assert(self.records@[n - 1].address@ == b);
                        }
                    }
                }
            },
        }
        assert(self@.records =~= append_spec(old(self)@, a@, t@).records);
    }

    /// Applies one transaction: unless its hash is marked, it is appended for its
    /// sender and, when the receiver is another address, for its receiver; then it is marked.
    pub fn apply_transaction(&mut self, t: &SimpleTransaction)
        requires
            old(self).wf(),
        ensures
            final(self).wf(),
            final(self)@ == apply_tx_spec(old(self)@, t@),
    {
        if self.is_tx_indexed(&t.hash) {
            return;
        }
        self.append(&t.from, t);
        if t.to != t.from {
            self.append(&t.to, t);
        }
        self.load_tx_marker(t.hash.clone());
    }

    /// Indexes a block from its hash and its transactions: skipped when the
    /// block is marked; otherwise each transaction is applied in order and the
    /// block is marked last.
    pub fn index_transactions(&mut self, block_hash: &String, txs: &Vec<SimpleTransaction>) -> (r: IndexOutcome)
        requires
            old(self).wf(),
        ensures
            final(self).wf(),
            final(self)@ == index_block_spec(old(self)@, block_hash@, txs@.map_values(|t: SimpleTransaction| t@)),
            (r == IndexOutcome::Skipped) <==> old(self)@.indexed_blocks.contains(block_hash@),
    {
        if self.is_block_indexed(block_hash) {
            return IndexOutcome::Skipped;
        }
        let ghost ts = txs@.map_values(|t: SimpleTransaction| t@);
        let mut i: usize = 0;
        while i < txs.len()
            invariant
                i <= txs@.len(),
                ts == txs@.map_values(|t: SimpleTransaction| t@),
                self.wf(),
                self@ == apply_all_spec(old(self)@, ts.subrange(0, i as int)),
            decreases txs@.len() - i,
        {
            assert(ts.subrange(0, i + 1).drop_last() =~= ts.subrange(0, i as int));
            self.apply_transaction(&txs[i]);
            i = i + 1;
        }
        assert(ts.subrange(0, txs@.len() as int) =~= ts);
        proof { lemma_apply_all_keeps_blocks(old(self)@, ts); }
        self.load_block_marker(block_hash.clone());
        IndexOutcome::Indexed
    }
}

/// Applying transactions leaves the block markers as they are.
pub proof fn lemma_apply_all_keeps_blocks(v: IndexView, ts: Seq<TxView>)
    ensures
        apply_all_spec(v, ts).indexed_blocks == v.indexed_blocks,
    decreases ts.len(),
{
    if ts.len() > 0 {
        lemma_apply_all_keeps_blocks(v, ts.drop_last());
    }
}

impl AddressIndex {
    /// The listed hashes that are not marked yet, in list order.
    pub fn unindexed(&self, listed: &Vec<String>) -> (r: Vec<String>)
        ensures
            r@.map_values(|h: String| h@) == pending_spec(self@.indexed_txs, listed@.map_values(|h: String| h@)),
    {
        let ghost lv = listed@.map_values(|h: String| h@);
        let mut r: Vec<String> = Vec::new();
        let mut i: usize = 0;
        while i < listed.len()
            invariant
                i <= listed@.len(),
                lv == listed@.map_values(|h: String| h@),
                r@.map_values(|h: String| h@) == pending_spec(self@.indexed_txs, lv.subrange(0, i as int)),
            decreases listed@.len() - i,
        {
            assert(lv.subrange(0, i + 1).drop_last() =~= lv.subrange(0, i as int));
            if !self.is_tx_indexed(&listed[i]) {
                let ghost before = r@;
                r.push(listed[i].clone());
                assert(r@.map_values(|h: String| h@) =~= before.map_values(|h: String| h@).push(lv[i as int]));
            }
            i = i + 1;
        }
        assert(lv.subrange(0, listed@.len() as int) =~= lv);
        r
    }
}

} // verus!
