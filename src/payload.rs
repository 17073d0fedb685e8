//! Typed block and transaction payloads as the node hands them out, and the
//! normalization pass that rewrites their hex quantities as decimal text.
use vstd::prelude::*;
use crate::hexnum::{clean, normalized, parse_quantity, quantity_to_decimal, is_quantity, quantity_value, without_quotes};

verus! {

/// A block as the node returns it, with every field of the node's answer as
/// text; quantity fields hold hex text (`0x5208`) until normalized, and
/// `transactions` and `uncles` list hashes. A field the node left out is empty.
#[derive(Debug, Clone, PartialEq)]
pub struct BlockPayload {
    pub number: String,
    pub hash: String,
    pub parent_hash: String,
    pub gas_used: String,
    pub gas_limit: String,
    pub timestamp: String,
    pub transactions: Vec<String>,
    pub base_fee_per_gas: String,
    pub difficulty: String,
    pub extra_data: String,
    pub logs_bloom: String,
    pub miner: String,
    pub mix_hash: String,
    pub nonce: String,
    pub receipts_root: String,
    pub sha3_uncles: String,
    pub size: String,
    pub state_root: String,
    pub total_difficulty: String,
    pub transactions_root: String,
    pub uncles: Vec<String>,
}

pub struct BlockView {
    pub number: Seq<char>,
    pub hash: Seq<char>,
    pub parent_hash: Seq<char>,
    pub gas_used: Seq<char>,
    pub gas_limit: Seq<char>,
    pub timestamp: Seq<char>,
    pub transactions: Seq<Seq<char>>,
    pub base_fee_per_gas: Seq<char>,
    pub difficulty: Seq<char>,
    pub extra_data: Seq<char>,
    pub logs_bloom: Seq<char>,
    pub miner: Seq<char>,
    pub mix_hash: Seq<char>,
    pub nonce: Seq<char>,
    pub receipts_root: Seq<char>,
    pub sha3_uncles: Seq<char>,
    pub size: Seq<char>,
    pub state_root: Seq<char>,
    pub total_difficulty: Seq<char>,
    pub transactions_root: Seq<char>,
    pub uncles: Seq<Seq<char>>,
}

impl View for BlockPayload {
    type V = BlockView;

    open spec fn view(&self) -> BlockView {
        BlockView {
            number: self.number@,
            hash: self.hash@,
            parent_hash: self.parent_hash@,
            gas_used: self.gas_used@,
            gas_limit: self.gas_limit@,
            timestamp: self.timestamp@,
            transactions: self.transactions@.map_values(|t: String| t@),
            base_fee_per_gas: self.base_fee_per_gas@,
            difficulty: self.difficulty@,
            extra_data: self.extra_data@,
            logs_bloom: self.logs_bloom@,
            miner: self.miner@,
            mix_hash: self.mix_hash@,
            nonce: self.nonce@,
            receipts_root: self.receipts_root@,
            sha3_uncles: self.sha3_uncles@,
            size: self.size@,
            state_root: self.state_root@,
            total_difficulty: self.total_difficulty@,
            transactions_root: self.transactions_root@,
            uncles: self.uncles@.map_values(|t: String| t@),
        }
    }
}

/// A transaction as the node returns it; quantity fields hold hex text until normalized.
/// `to` is empty for a contract creation.
#[derive(Debug, Clone, PartialEq)]
pub struct ComplexTransaction {
    pub block_hash: String,
    pub block_number: String,
    pub from: String,
    pub gas: String,
    pub gas_price: String,
    pub hash: String,
    pub input: String,
    pub max_fee_per_gas: String,
    pub max_priority_fee_per_gas: String,
    pub nonce: String,
    pub r: String,
    pub s: String,
    pub to: String,
    pub transaction_index: String,
    pub type_field: String,
    pub v: String,
    pub value: String,
}

/// A node response of one of the shapes that normalization knows.
#[derive(Debug, Clone, PartialEq)]
pub enum ResponseData {
    Block(BlockPayload),
    Transaction(ComplexTransaction),
    Empty,
}

/// Why a payload could not be normalized.
#[derive(Debug, Clone, Copy, PartialEq, Eq)]
pub enum PayloadError {
    /// A quantity field is not hex text that fits in 128 bits.
    MalformedQuantity,
}

/// `n` is `b` with its quantity fields (number, gas used, gas limit) in decimal.
pub open spec fn is_normalized_block(b: BlockView, n: BlockView) -> bool {
    &&& normalized(b.number) == Some(n.number)
    &&& normalized(b.gas_used) == Some(n.gas_used)
    &&& normalized(b.gas_limit) == Some(n.gas_limit)
    &&& n.hash == b.hash
    &&& n.parent_hash == b.parent_hash
    &&& n.timestamp == b.timestamp
    &&& n.transactions == b.transactions
    &&& n.base_fee_per_gas == b.base_fee_per_gas
    &&& n.difficulty == b.difficulty
    &&& n.extra_data == b.extra_data
    &&& n.logs_bloom == b.logs_bloom
    &&& n.miner == b.miner
    &&& n.mix_hash == b.mix_hash
    &&& n.nonce == b.nonce
    &&& n.receipts_root == b.receipts_root
    &&& n.sha3_uncles == b.sha3_uncles
    &&& n.size == b.size
    &&& n.state_root == b.state_root
    &&& n.total_difficulty == b.total_difficulty
    &&& n.transactions_root == b.transactions_root
    &&& n.uncles == b.uncles
}

pub open spec fn block_normalizes(b: BlockView) -> bool {
    normalized(b.number) is Some && normalized(b.gas_used) is Some && normalized(b.gas_limit) is Some
}

/// `n` is `t` with its quantity fields (value, block number, gas, gas price,
/// transaction index, nonce) in decimal.
pub open spec fn is_normalized_tx(t: ComplexTransaction, n: ComplexTransaction) -> bool {
    &&& normalized(t.value@) == Some(n.value@)
    &&& normalized(t.block_number@) == Some(n.block_number@)
    &&& normalized(t.gas@) == Some(n.gas@)
    &&& normalized(t.gas_price@) == Some(n.gas_price@)
    &&& normalized(t.transaction_index@) == Some(n.transaction_index@)
    &&& normalized(t.nonce@) == Some(n.nonce@)
    &&& n.hash@ == t.hash@
    &&& n.from@ == t.from@
    &&& n.to@ == t.to@
    &&& n.block_hash@ == t.block_hash@
    &&& n.input@ == t.input@
    &&& n.max_fee_per_gas@ == t.max_fee_per_gas@
    &&& n.max_priority_fee_per_gas@ == t.max_priority_fee_per_gas@
    &&& n.r@ == t.r@
    &&& n.s@ == t.s@
    &&& n.type_field@ == t.type_field@
    &&& n.v@ == t.v@
}

pub open spec fn tx_normalizes(t: ComplexTransaction) -> bool {
    &&& normalized(t.value@) is Some
    &&& normalized(t.block_number@) is Some
    &&& normalized(t.gas@) is Some
    &&& normalized(t.gas_price@) is Some
    &&& normalized(t.transaction_index@) is Some
    &&& normalized(t.nonce@) is Some
}

/// Rewrites the block's quantity fields in decimal.
pub fn normalize_block(b: BlockPayload) -> (r: Result<BlockPayload, PayloadError>)
    ensures
        r is Ok <==> block_normalizes(b@),
        r matches Ok(n) ==> is_normalized_block(b@, n@),
{
    let number = match quantity_to_decimal(b.number.as_str()) {
        Some(x) => x,
        None => { return Err(PayloadError::MalformedQuantity); },
    };
    let gas_used = match quantity_to_decimal(b.gas_used.as_str()) {
        Some(x) => x,
        None => { return Err(PayloadError::MalformedQuantity); },
    };
    let gas_limit = match quantity_to_decimal(b.gas_limit.as_str()) {
        Some(x) => x,
        None => { return Err(PayloadError::MalformedQuantity); },
    };
    Ok(BlockPayload {
        number,
        hash: b.hash,
        parent_hash: b.parent_hash,
        gas_used,
        gas_limit,
        timestamp: b.timestamp,
        transactions: b.transactions,
        base_fee_per_gas: b.base_fee_per_gas,
        difficulty: b.difficulty,
        extra_data: b.extra_data,
        logs_bloom: b.logs_bloom,
        miner: b.miner,
        mix_hash: b.mix_hash,
        nonce: b.nonce,
        receipts_root: b.receipts_root,
        sha3_uncles: b.sha3_uncles,
        size: b.size,
        state_root: b.state_root,
        total_difficulty: b.total_difficulty,
        transactions_root: b.transactions_root,
        uncles: b.uncles,
    })
}

/// Rewrites the transaction's quantity fields in decimal.
pub fn normalize_transaction(t: ComplexTransaction) -> (r: Result<ComplexTransaction, PayloadError>)
    ensures
        r is Ok <==> tx_normalizes(t),
        r matches Ok(n) ==> is_normalized_tx(t, n),
{
    let value = match quantity_to_decimal(t.value.as_str()) {
        Some(x) => x,
        None => { return Err(PayloadError::MalformedQuantity); },
    };
    let block_number = match quantity_to_decimal(t.block_number.as_str()) {
        Some(x) => x,
        None => { return Err(PayloadError::MalformedQuantity); },
    };
    let gas = match quantity_to_decimal(t.gas.as_str()) {
        Some(x) => x,
        None => { return Err(PayloadError::MalformedQuantity); },
    };
    let gas_price = match quantity_to_decimal(t.gas_price.as_str()) {
        Some(x) => x,
        None => { return Err(PayloadError::MalformedQuantity); },
    };
    let transaction_index = match quantity_to_decimal(t.transaction_index.as_str()) {
        Some(x) => x,
        None => { return Err(PayloadError::MalformedQuantity); },
    };
    let nonce = match quantity_to_decimal(t.nonce.as_str()) {
        Some(x) => x,
        None => { return Err(PayloadError::MalformedQuantity); },
    };
    Ok(ComplexTransaction {
        block_hash: t.block_hash,
        block_number,
        from: t.from,
        gas,
        gas_price,
        hash: t.hash,
        input: t.input,
        max_fee_per_gas: t.max_fee_per_gas,
        max_priority_fee_per_gas: t.max_priority_fee_per_gas,
        nonce,
        r: t.r,
        s: t.s,
        to: t.to,
        transaction_index,
        type_field: t.type_field,
        v: t.v,
        value,
    })
}

/// Normalizes a response by its shape: a block or a transaction has its
/// quantity fields rewritten in decimal, any other response is returned as it is.
pub fn response_to_human_readable(res: ResponseData) -> (r: Result<ResponseData, PayloadError>)
    ensures
        match res {
            ResponseData::Block(b) => match r {
                Ok(ResponseData::Block(n)) => is_normalized_block(b@, n@),
                Ok(_) => false,
                Err(_) => !block_normalizes(b@),
            },
            ResponseData::Transaction(t) => match r {
                Ok(ResponseData::Transaction(n)) => is_normalized_tx(t, n),
                Ok(_) => false,
                Err(_) => !tx_normalizes(t),
            },
            ResponseData::Empty => r == Ok::<ResponseData, PayloadError>(ResponseData::Empty),
        },
{
    match res {
        ResponseData::Block(b) => match normalize_block(b) {
            Ok(n) => Ok(ResponseData::Block(n)),
            Err(e) => Err(e),
        },
        ResponseData::Transaction(t) => match normalize_transaction(t) {
            Ok(n) => Ok(ResponseData::Transaction(n)),
            Err(e) => Err(e),
        },
        ResponseData::Empty => Ok(ResponseData::Empty),
    }
}

/// A transaction as an address record lists it, with quotes taken out of every field.
#[derive(Debug, Clone, PartialEq)]
pub struct SimpleTransaction {
    pub hash: String,
    pub from: String,
    pub to: String,
    pub value: String,
    pub block_hash: String,
}

pub struct TxView {
    pub hash: Seq<char>,
    pub from: Seq<char>,
    pub to: Seq<char>,
    pub value: Seq<char>,
    pub block_hash: Seq<char>,
}

impl View for SimpleTransaction {
    type V = TxView;

    open spec fn view(&self) -> TxView {
        TxView {
            hash: self.hash@,
            from: self.from@,
            to: self.to@,
            value: self.value@,
            block_hash: self.block_hash@,
        }
    }
}

/// The record of transaction `h`, fetched as `n`: quotes are taken out of
/// every field but the hash, which is the one it was asked for by.
pub open spec fn record_of(h: Seq<char>, n: ComplexTransaction) -> TxView {
    TxView {
        hash: h,
        from: without_quotes(n.from@),
        to: without_quotes(n.to@),
        value: without_quotes(n.value@),
        block_hash: without_quotes(n.block_hash@),
    }
}

/// `st` is the record of `h` built from some normalized answer of the node.
pub open spec fn is_fetched_record(st: TxView, h: Seq<char>) -> bool {
    exists|raw: ComplexTransaction, n: ComplexTransaction| is_normalized_tx(raw, n) && st == record_of(h, n)
}

impl SimpleTransaction {
    /// The record of transaction `h`, from its (normalized) payload.
    pub fn from_fetched(h: &String, t: &ComplexTransaction) -> (r: SimpleTransaction)
        ensures
            r@ == record_of(h@, *t),
    {
        SimpleTransaction {
            hash: h.clone(),
            from: clean(t.from.clone()),
            to: clean(t.to.clone()),
            value: clean(t.value.clone()),
            block_hash: clean(t.block_hash.clone()),
        }
    }

    /// A copy with the same fields.
    pub fn copied(&self) -> (r: SimpleTransaction)
        ensures
            r@ == self@,
    {
        SimpleTransaction {
            hash: self.hash.clone(),
            from: self.from.clone(),
            to: self.to.clone(),
            value: self.value.clone(),
            block_hash: self.block_hash.clone(),
        }
    }
}

/// A short summary of a block for the live feed.
#[derive(Debug, Clone, PartialEq, Eq)]
pub struct SimpleBlock {
    pub hash: String,
    pub number: u64,
    pub tx_amount: u64,
    pub human_date: u64,
}

impl SimpleBlock {
    /// The summary of block `number`; `None` when its timestamp is not a
    /// quantity that fits in 64 bits.
    pub fn from_block(number: u64, b: &BlockPayload) -> (r: Option<SimpleBlock>)
        ensures
            r is Some <==> (is_quantity(b.timestamp@) && quantity_value(b.timestamp@) <= u64::MAX),
            r matches Some(s) ==> {
                &&& s.hash@ == without_quotes(b.hash@)
                &&& s.number == number
                &&& s.tx_amount == b.transactions@.len()
                &&& s.human_date == quantity_value(b.timestamp@)
            },
    {
        match parse_quantity(b.timestamp.as_str()) {
            Some(ts) => {
                if ts > u64::MAX as u128 {
                    None
                } else {
                    Some(SimpleBlock {
                        hash: clean(b.hash.clone()),
                        number,
                        tx_amount: b.transactions.len() as u64,
                        human_date: ts as u64,
                    })
                }
            },
            None => None,
        }
    }
}

/// Normalization is a function of the payload: a block normalizes to one
/// result only, so a cached payload and a fresh fetch of it read the same.
pub proof fn lemma_block_normalization_unique(b: BlockView, n1: BlockView, n2: BlockView)
    requires
        is_normalized_block(b, n1),
        is_normalized_block(b, n2),
    ensures
        n1 == n2,
{
}

} // verus!
