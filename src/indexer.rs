use vstd::prelude::*;

verus! {

/// The cursor's transaction index before any transaction of its block.
pub const DEFAULT_START_TXI: i64 = -1;

/// The directory of the store where none is given.
pub const DEFAULT_DB_PATH: &'static str = "./data";

/// A 20-byte account address: its first four bytes and its last sixteen, each
/// read big-endian.
#[derive(PartialEq, Eq, Structural, Clone, Copy, Debug)]
pub struct Address {
    pub high: u32,
    pub low: u128,
}

/// What the walker reads of a transaction.
pub struct TxInfo {
    /// The hash, as the hex text of a 32-byte word.
    pub hash: String,
    pub block_number: u64,
    pub transaction_index: u64,
    pub from: Address,
    /// The sender, as the hex text of a 32-byte word (`0x` and 64 nibbles).
    pub from_word: String,
    /// The recipient; `None` for a contract creation.
    pub to: Option<Address>,
    /// The calldata.
    pub input: Vec<u8>,
}

/// The kind of content that an indexer reads.
#[derive(PartialEq, Eq, Structural, Clone, Copy, Debug)]
pub enum IndexedType {
    TextPlain,
    ApplicationJson,
}

/// The persisted cursor: every transaction before `indexed_block`, and those of
/// `indexed_block` up to `indexed_txi`, have been considered.
#[derive(PartialEq, Eq, Structural, Clone, Copy, Debug)]
pub struct IndexedRecord {
    pub chain_id: u64,
    pub indexed_block: u64,
    pub indexed_txi: i64,
}

/// A deployed tick with its supply accounting. `max`, `lim` and `minted` are
/// decimal texts.
pub struct Tick {
    /// The hash of the deploy transaction.
    pub id: String,
    pub chain_id: u64,
    /// The chain's display name.
    pub chain: String,
    pub p: String,
    pub op: String,
    pub tick: String,
    pub max: String,
    pub lim: String,
    pub minted: String,
    pub mintable: bool,
    pub start_block: u64,
    pub end_block: Option<u64>,
    pub deployer: String,
    pub timestamp: u64,
}

/// One successful mint.
pub struct DBInscription {
    /// The hash of the mint transaction.
    pub id: String,
    pub chain_id: u64,
    pub chain: String,
    pub p: String,
    pub op: String,
    pub tick: String,
    pub max: Option<String>,
    pub lim: Option<String>,
    pub amt: Option<String>,
    pub block: u64,
    pub owner: String,
    pub timestamp: u64,
}

/// The predicates of one run, all of which a transaction must meet.
pub struct Filter {
    /// Only transactions that an account sends to itself.
    pub is_self_transaction: bool,
    /// Only transactions to this address.
    pub recipient: Option<Address>,
    pub start_block: Option<u64>,
    pub end_block: Option<u64>,
    /// Only inscriptions of this protocol.
    pub p: Option<String>,
    /// Only inscriptions of this tick.
    pub tick: Option<String>,
}

impl Filter {
    /// Self transactions only, and nothing else asked.
    pub fn default() -> (r: Filter)
        ensures
            r.is_self_transaction,
            r.recipient is None,
            r.start_block is None,
            r.end_block is None,
            r.p is None,
            r.tick is None,
    {
        Filter {
            is_self_transaction: true,
            recipient: None,
            start_block: None,
            end_block: None,
            p: None,
            tick: None,
        }
    }
}

/// The indexer of one chain under one filter.
pub struct Indexer {
    pub chain_id: u64,
    /// The chain's display name, written into the records.
    pub chain: String,
    pub indexed_type: IndexedType,
    pub filter: Filter,
}

impl Indexer {
    /// An indexer of the chain; without a filter it takes `Filter::default()`.
    pub fn new(chain_id: u64, chain: String, indexed_type: IndexedType, filter: Option<Filter>) -> (r:
        Indexer)
        ensures
            r.chain_id == chain_id,
            r.chain == chain,
            r.indexed_type == indexed_type,
            filter is Some ==> r.filter == filter.unwrap(),
            filter is None ==> {
                &&& r.filter.is_self_transaction
                &&& r.filter.recipient is None
                &&& r.filter.start_block is None
                &&& r.filter.end_block is None
                &&& r.filter.p is None
                &&& r.filter.tick is None
            },
    {
        let filter = match filter {
            Some(f) => f,
            None => Filter::default(),
        };
        Indexer { chain_id, chain, indexed_type, filter }
    }
}

} // verus!
