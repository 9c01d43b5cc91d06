use core::cmp::Ordering;
use vstd::prelude::*;

use crate::decimal::{
    dec_add, dec_eq, dec_le, dec_lt, dec_zero, decimal_add, decimal_compare, decimal_sign,
    decimal_value, decimal_zero, is_positive_decimal, lemma_dec_add_congruent, lemma_dec_add_grows, lemma_dec_eq_trans,
    lemma_dec_add_positive, lemma_dec_eq_sign, lemma_dec_eq_substitute, lemma_dec_lt_le_trans,
    lemma_sign_order,
};
use crate::indexer::{DBInscription, Indexer, Tick, TxInfo};
use crate::inscription::Inscription;
use crate::utils::{remove_leadering_zeros, strip_word_padding};

verus! {

/// The numbers of a tick's supply.
pub open spec fn max_of(t: Tick) -> (int, nat) {
    decimal_value(t.max@).unwrap()
}

pub open spec fn lim_of(t: Tick) -> (int, nat) {
    decimal_value(t.lim@).unwrap()
}

pub open spec fn minted_of(t: Tick) -> (int, nat) {
    decimal_value(t.minted@).unwrap()
}

/// The invariants of a tick: `max` and `lim` are decimals above zero, and
/// `0 <= minted <= max`; the tick is mintable exactly while it has no end block,
/// and exactly while `minted < max`.
pub open spec fn tick_wf(t: Tick) -> bool {
    &&& is_positive_decimal(t.max@)
    &&& is_positive_decimal(t.lim@)
    &&& decimal_value(t.minted@) is Some
    &&& minted_of(t).0 >= 0
    &&& dec_le(minted_of(t), max_of(t))
    &&& t.mintable <==> t.end_block is None
    &&& t.mintable <==> dec_lt(minted_of(t), max_of(t))
}

/// A deploy asks for a supply: `max` and `lim` are both decimals above zero.
pub open spec fn deploy_supply_valid(inp: Inscription) -> bool {
    &&& inp.max is Some
    &&& inp.lim is Some
    &&& is_positive_decimal(inp.max.unwrap()@)
    &&& is_positive_decimal(inp.lim.unwrap()@)
}

/// `t` is the tick that `inp`, sent in `tx` of a block stamped `ts`, deploys.
pub open spec fn is_deployed_tick(
    idx: Indexer,
    ts: u64,
    tx: TxInfo,
    inp: Inscription,
    t: Tick,
) -> bool {
    &&& t.id == tx.hash
    &&& t.chain_id == idx.chain_id
    &&& t.chain == idx.chain
    &&& t.p == inp.p
    &&& t.op == inp.op
    &&& t.tick == inp.tick
    &&& t.max == inp.max.unwrap()
    &&& t.lim == inp.lim.unwrap()
    &&& minted_of(t).0 == 0
    &&& t.mintable
    &&& t.start_block == tx.block_number
    &&& t.end_block is None
    &&& t.deployer@ == strip_word_padding(tx.from_word@)
    &&& t.timestamp == ts
}

/// The amount that a mint asks for, read as a decimal.
pub open spec fn amt_of(inp: Inscription) -> (int, nat) {
    decimal_value(inp.amt.unwrap()@).unwrap()
}

/// The mint asks for an amount with `0 < amt <= lim` of the tick.
pub open spec fn amount_in_range(t: Tick, inp: Inscription) -> bool {
    &&& inp.amt is Some
    &&& is_positive_decimal(inp.amt.unwrap()@)
    &&& decimal_value(t.lim@) is Some
    &&& dec_le(amt_of(inp), lim_of(t))
}

/// The tick's `minted` and `max` are decimals.
pub open spec fn tick_readable(t: Tick) -> bool {
    decimal_value(t.minted@) is Some && decimal_value(t.max@) is Some
}

/// The new supply stays within `max`.
pub open spec fn supply_fits(t: Tick, inp: Inscription) -> bool {
    dec_le(dec_add(minted_of(t), amt_of(inp)), max_of(t))
}

/// `new` is `old` after a mint of `amt` in block `block`: `minted` grows by
/// `amt`, and where it reaches `max` the tick ends at that block.
pub open spec fn is_minted_tick(old: Tick, new: Tick, amt: (int, nat), block: u64) -> bool {
    &&& new.id == old.id
    &&& new.chain_id == old.chain_id
    &&& new.chain == old.chain
    &&& new.p == old.p
    &&& new.op == old.op
    &&& new.tick == old.tick
    &&& new.max == old.max
    &&& new.lim == old.lim
    &&& new.start_block == old.start_block
    &&& new.deployer == old.deployer
    &&& new.timestamp == old.timestamp
    &&& decimal_value(new.minted@) is Some
    &&& dec_eq(minted_of(new), dec_add(minted_of(old), amt))
    &&& if dec_eq(minted_of(new), max_of(old)) {
        new.end_block == Some(block) && !new.mintable
    } else {
        new.end_block == old.end_block && new.mintable == old.mintable
    }
}

/// `rec` records the mint `inp`, sent in `tx` of a block stamped `ts`.
pub open spec fn is_mint_record(
    idx: Indexer,
    ts: u64,
    tx: TxInfo,
    inp: Inscription,
    rec: DBInscription,
) -> bool {
    &&& rec.id == tx.hash
    &&& rec.chain_id == idx.chain_id
    &&& rec.chain == idx.chain
    &&& rec.p == inp.p
    &&& rec.op == inp.op
    &&& rec.tick == inp.tick
    &&& rec.max == inp.max
    &&& rec.lim == inp.lim
    &&& rec.amt == inp.amt
    &&& rec.block == tx.block_number
    &&& rec.owner@ == strip_word_padding(tx.from_word@)
    &&& rec.timestamp == ts
}

/// What a deploy does to the store.
pub enum DeployDecision {
    /// The tick exists already: nothing changes.
    AlreadyDeployed,
    /// `max` or `lim` is no decimal above zero: nothing changes.
    InvalidSupply,
    /// Write this tick.
    Deploy(Tick),
}

/// What a mint does to the store.
pub enum MintDecision {
    /// No tick of that name was deployed: nothing changes.
    TickMissing,
    /// The amount is no decimal, not above zero, or above the tick's `lim`:
    /// nothing changes.
    AmountOutOfRange,
    /// The stored tick's `minted` or `max` is no decimal: nothing changes.
    InvalidTick,
    /// The mint would take `minted` above `max`: nothing changes.
    SupplyExceeded,
    /// Write the updated tick and the new mint record.
    Mint(Tick, DBInscription),
}

fn clone_text(v: &Option<String>) -> (r: Option<String>)
    ensures
        r == *v,
{
    match v {
        Some(s) => Some(s.clone()),
        None => None,
    }
}

impl Indexer {
    /// Decides a deploy of `inp`, sent in `tx` of a block stamped
    /// `block_timestamp`; `tick_exists` says whether its tick is in the store.
    /// A deployed tick is never deployed again, and a new tick starts with
    /// nothing minted. A `lim` above `max` is taken as it stands: no mint can
    /// then exceed `max` anyway.
    pub fn plan_deploy(&self, tick_exists: bool, block_timestamp: u64, tx: &TxInfo, inp: &Inscription)
        -> (r: DeployDecision)
        ensures
            tick_exists ==> r is AlreadyDeployed,
            !tick_exists && !deploy_supply_valid(*inp) ==> r is InvalidSupply,
            !tick_exists && deploy_supply_valid(*inp) ==> r is Deploy,
            r is Deploy ==> is_deployed_tick(*self, block_timestamp, *tx, *inp, r->Deploy_0),
            r is Deploy ==> tick_wf(r->Deploy_0),
    {
        if tick_exists {
            return DeployDecision::AlreadyDeployed;
        }
        let (max, lim) = match (&inp.max, &inp.lim) {
            (Some(max), Some(lim)) => (max, lim),
            _ => return DeployDecision::InvalidSupply,
        };
        match (decimal_sign(max.as_str()), decimal_sign(lim.as_str())) {
            (Some(Ordering::Greater), Some(Ordering::Greater)) => {},
            _ => return DeployDecision::InvalidSupply,
        }
        let minted = decimal_zero();
        let t = Tick {
            id: tx.hash.clone(),
            chain_id: self.chain_id,
            chain: self.chain.clone(),
            p: inp.p.clone(),
            op: inp.op.clone(),
            tick: inp.tick.clone(),
            max: max.clone(),
            lim: lim.clone(),
            minted,
            mintable: true,
            start_block: tx.block_number,
            end_block: None,
            deployer: remove_leadering_zeros(tx.from_word.clone()),
            timestamp: block_timestamp,
        };
        proof {
            lemma_sign_order(max_of(t), minted_of(t));
            lemma_sign_order(minted_of(t), minted_of(t));
        }
        DeployDecision::Deploy(t)
    }

    /// Decides a mint of `inp`, sent in `tx` of a block stamped
    /// `block_timestamp`, against the stored tick `tick` (`None` where none was
    /// deployed). A mint moves `minted` up by `amt` with `0 < amt <= lim` and
    /// never past `max`; the mint that reaches `max` ends the tick.
    pub fn plan_mint(&self, tick: Option<Tick>, block_timestamp: u64, tx: &TxInfo, inp: &Inscription)
        -> (r: MintDecision)
        ensures
            tick is None ==> r is TickMissing,
            tick is Some && !amount_in_range(tick.unwrap(), *inp) ==> r is AmountOutOfRange,
            tick is Some && amount_in_range(tick.unwrap(), *inp) && !tick_readable(tick.unwrap())
                ==> r is InvalidTick,
            tick is Some && amount_in_range(tick.unwrap(), *inp) && tick_readable(tick.unwrap())
                && !supply_fits(tick.unwrap(), *inp) ==> r is SupplyExceeded,
            tick is Some && amount_in_range(tick.unwrap(), *inp) && tick_readable(tick.unwrap())
                && supply_fits(tick.unwrap(), *inp) ==> r is Mint,
            r is Mint ==> is_minted_tick(tick.unwrap(), r->Mint_0, amt_of(*inp), tx.block_number),
            r is Mint ==> is_mint_record(*self, block_timestamp, *tx, *inp, r->Mint_1),
            r is Mint && tick_wf(tick.unwrap()) ==> tick_wf(r->Mint_0),
            r is Mint ==> dec_lt(dec_zero(), amt_of(*inp)) && dec_le(
                amt_of(*inp),
                lim_of(r->Mint_0),
            ),
    {
        let t = match tick {
            Some(t) => t,
            None => return MintDecision::TickMissing,
        };
        let amt = match &inp.amt {
            Some(a) => a,
            None => return MintDecision::AmountOutOfRange,
        };
        match decimal_sign(amt.as_str()) {
            Some(Ordering::Greater) => {},
            _ => return MintDecision::AmountOutOfRange,
        }
        match decimal_compare(amt.as_str(), t.lim.as_str()) {
            Some(Ordering::Less) | Some(Ordering::Equal) => {},
            Some(Ordering::Greater) => return MintDecision::AmountOutOfRange,
            None => return MintDecision::AmountOutOfRange,
        }
        let updated = match decimal_add(t.minted.as_str(), amt.as_str()) {
            Some(u) => u,
            None => {
                return MintDecision::InvalidTick;
            },
        };
        let ord = decimal_compare(updated.as_str(), t.max.as_str());
        let ghost a = amt_of(*inp);
        let ghost m = minted_of(t);
        let ghost s = decimal_value(updated@).unwrap();
        let ghost sum = dec_add(m, a);
        let reached = match ord {
            Some(Ordering::Less) => false,
            Some(Ordering::Equal) => true,
            Some(Ordering::Greater) => {
                proof {
                    lemma_dec_eq_substitute(s, sum, max_of(t));
                }
                return MintDecision::SupplyExceeded;
            },
            None => return MintDecision::InvalidTick,
        };
        proof {
            lemma_dec_eq_substitute(s, sum, max_of(t));
        }
        let end_block = if reached {
            Some(tx.block_number)
        } else {
            t.end_block
        };
        let mintable = if reached {
            false
        } else {
            t.mintable
        };
        let owner = remove_leadering_zeros(tx.from_word.clone());
        let record = DBInscription {
            id: tx.hash.clone(),
            chain_id: self.chain_id,
            chain: self.chain.clone(),
            p: inp.p.clone(),
            op: inp.op.clone(),
            tick: inp.tick.clone(),
            max: clone_text(&inp.max),
            lim: clone_text(&inp.lim),
            amt: clone_text(&inp.amt),
            block: tx.block_number,
            owner,
            timestamp: block_timestamp,
        };
        let new_tick = Tick {
            id: t.id,
            chain_id: t.chain_id,
            chain: t.chain,
            p: t.p,
            op: t.op,
            tick: t.tick,
            max: t.max,
            lim: t.lim,
            minted: updated,
            mintable,
            start_block: t.start_block,
            end_block,
            deployer: t.deployer,
            timestamp: t.timestamp,
        };
        proof {
            lemma_sign_order(a, dec_zero());
            if tick_wf(t) {
                lemma_dec_add_positive(m, a);
                lemma_dec_eq_sign(s, sum);
                if !reached {
                    lemma_dec_add_grows(m, a);
                    lemma_dec_lt_le_trans(m, sum, max_of(t));
                }
            }
        }
        MintDecision::Mint(new_tick, record)
    }
}

/// The amount that a mint record holds, read as a decimal.
pub open spec fn record_amount(rec: DBInscription) -> (int, nat) {
    decimal_value(rec.amt.unwrap()@).unwrap()
}

/// The sum of the amounts of the records.
pub open spec fn amounts_total(records: Seq<DBInscription>) -> (int, nat)
    decreases records.len(),
{
    if records.len() == 0 {
        dec_zero()
    } else {
        dec_add(amounts_total(records.drop_last()), record_amount(records.last()))
    }
}

/// Supply reconciliation: a tick that starts with nothing minted, and then
/// takes the mints of `records` one after another (`ticks[k + 1]` is
/// `ticks[k]` after the mint of `records[k]`), has minted the sum of the
/// records' amounts.
pub proof fn lemma_supply_reconciliation(ticks: Seq<Tick>, records: Seq<DBInscription>)
    requires
        ticks.len() == records.len() + 1,
        decimal_value(ticks[0].minted@) is Some,
        minted_of(ticks[0]).0 == 0,
        forall|k: int|
            0 <= k < records.len() ==> is_minted_tick(
                #[trigger] ticks[k],
                ticks[k + 1],
                record_amount(records[k]),
                records[k].block,
            ),
    ensures
        dec_eq(minted_of(ticks.last()), amounts_total(records)),
    decreases records.len(),
{
    if records.len() == 0 {
        lemma_sign_order(minted_of(ticks[0]), dec_zero());
    } else {
        let n = records.len() - 1;
        let earlier = ticks.drop_last();
        assert forall|k: int| 0 <= k < records.drop_last().len() implies is_minted_tick(
            #[trigger] earlier[k],
            earlier[k + 1],
            record_amount(records.drop_last()[k]),
            records.drop_last()[k].block,
        ) by {
            assert(is_minted_tick(ticks[k], ticks[k + 1], record_amount(records[k]), records[k].block));
        }
        lemma_supply_reconciliation(earlier, records.drop_last());
        assert(is_minted_tick(ticks[n], ticks[n + 1], record_amount(records[n]), records[n].block));
        let a = record_amount(records[n]);
        let before = minted_of(ticks[n]);
        let total = amounts_total(records.drop_last());
        lemma_dec_add_congruent(before, total, a);
        lemma_dec_eq_trans(minted_of(ticks.last()), dec_add(before, a), dec_add(total, a));
    }
}

} // verus!
