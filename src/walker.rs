use vstd::multiset::*;
use vstd::prelude::*;
use vstd::seq_lib::*;

use crate::indexer::{Filter, IndexedRecord, Indexer, TxInfo, DEFAULT_START_TXI};
use crate::inscription::{
    calldata_members, is_valid_inscription, member_text, name_p, name_tick, parse_calldata,
    Inscription, Members,
};

verus! {

broadcast use {group_multiset_axioms, group_to_multiset_ensures};

/// `a` comes before `b` in the order of (block, transaction index).
pub open spec fn cursor_lt(a: (int, int), b: (int, int)) -> bool {
    a.0 < b.0 || (a.0 == b.0 && a.1 < b.1)
}

pub open spec fn cursor_le(a: (int, int), b: (int, int)) -> bool {
    cursor_lt(a, b) || a == b
}

/// A transaction of the block that the cursor's index `c` has not yet passed,
/// and that has a recipient.
pub open spec fn is_pending(c: int) -> spec_fn(TxInfo) -> bool {
    |t: TxInfo| t.transaction_index > c && t.to is Some
}

/// The transactions of a block that the walker still has to consider from the
/// cursor's index `c`.
pub open spec fn pending(txs: Seq<TxInfo>, c: int) -> Seq<TxInfo> {
    txs.filter(is_pending(c))
}

pub open spec fn sorted_by_index(s: Seq<TxInfo>) -> bool {
    forall|i: int, j: int|
        0 <= i < j < s.len() ==> s[i].transaction_index <= s[j].transaction_index
}

/// The recipient and sender meet the filter's address predicates.
pub open spec fn admits_transaction(f: Filter, tx: TxInfo) -> bool {
    &&& tx.to is Some
    &&& f.is_self_transaction ==> tx.to.unwrap() == tx.from
    &&& f.recipient is Some ==> tx.to.unwrap() == f.recipient.unwrap()
}

/// The inscription that the members carry meets the filter's protocol and
/// tick predicates.
pub open spec fn admits_members(f: Filter, ms: Members) -> bool {
    &&& f.p is Some ==> member_text(ms, name_p()) == Some(f.p.unwrap()@)
    &&& f.tick is Some ==> member_text(ms, name_tick()) == Some(f.tick.unwrap()@)
}

/// Where the walker stands: the next block to process, and the index of the
/// last transaction of it that has been considered (-1 for none).
#[derive(PartialEq, Eq, Structural, Clone, Copy, Debug)]
pub struct WalkerState {
    pub block_to_process: u64,
    pub indexed_txi: i64,
}

impl WalkerState {
    pub open spec fn position(self) -> (int, int) {
        (self.block_to_process as int, self.indexed_txi as int)
    }
}

/// Relies on std's `slice::sort_by_key`: the items come out in ascending order
/// of the key, as a permutation of what went in.
#[verifier::external_body]
fn sort_by_transaction_index(v: &mut Vec<TxInfo>)
    ensures
        final(v)@.to_multiset() == old(v)@.to_multiset(),
        sorted_by_index(final(v)@),
{
    v.sort_by_key(|t| t.transaction_index)
}

/// The transactions of a block that the walker considers from the cursor's
/// index `indexed_txi`: those past it that have a recipient, in ascending
/// order of their index.
pub fn select_transactions(txs: Vec<TxInfo>, indexed_txi: i64) -> (r: Vec<TxInfo>)
    ensures
        r@.to_multiset() == pending(txs@, indexed_txi as int).to_multiset(),
        sorted_by_index(r@),
{
    let ghost all = txs@;
    let ghost pred = is_pending(indexed_txi as int);
    let mut rest = txs;
    let mut r: Vec<TxInfo> = Vec::new();
    while rest.len() > 0
        invariant
            pred == is_pending(indexed_txi as int),
            r@.to_multiset().add(rest@.filter(pred).to_multiset()) == all.filter(
                pred,
            ).to_multiset(),
        decreases rest.len(),
    {
        let ghost before = rest@;
        let tx = rest.pop().unwrap();
        proof {
            assert(before =~= rest@.push(tx));
            rest@.lemma_filter_push(tx, pred);
        }
        let keep = match &tx.to {
            Some(_) => (tx.transaction_index as i128) > (indexed_txi as i128),
            None => false,
        };
        assert(keep == pred(tx));
        if keep {
            r.push(tx);
        }
        assert(r@.to_multiset().add(rest@.filter(pred).to_multiset()) =~= all.filter(
            pred,
        ).to_multiset());
    }
    assert(rest@.filter(pred) =~= Seq::<TxInfo>::empty());
    assert(r@.to_multiset() =~= all.filter(pred).to_multiset());
    sort_by_transaction_index(&mut r);
    r
}

/// What the walker does next.
pub enum WalkStep {
    /// The filter's end block is passed: the walk is over.
    Stop,
    /// The next block is past the chain's tip: wait for the next one.
    Wait,
    /// Process this block.
    Process(u64),
}

/// A transaction that the walker applies, with its inscription and the cursor
/// written in the same commit.
pub struct AppliedTx {
    pub tx: TxInfo,
    pub inscription: Inscription,
    pub cursor: (u64, i64),
}

/// What the walker does with one block: apply the transactions of `apply` in
/// order, then write `cursor` and go on from `next`.
pub struct BlockPlan {
    pub apply: Vec<AppliedTx>,
    pub cursor: (u64, i64),
    pub next: WalkerState,
}

pub open spec fn applied_txs(a: Seq<AppliedTx>) -> Seq<TxInfo> {
    a.map_values(|x: AppliedTx| x.tx)
}

pub open spec fn cursor_pos(c: (u64, i64)) -> (int, int) {
    (c.0 as int, c.1 as int)
}

/// How many times `x` occurs in `s` once filtered by `p`.
pub proof fn lemma_filter_count<A>(s: Seq<A>, p: spec_fn(A) -> bool, x: A)
    ensures
        s.filter(p).to_multiset().count(x) == if p(x) {
            s.to_multiset().count(x)
        } else {
            0
        },
    decreases s.len(),
{
    if s.len() == 0 {
        assert(s.filter(p) =~= Seq::<A>::empty());
        assert(s.to_multiset() =~= Multiset::<A>::empty());
        assert(s.filter(p).to_multiset() =~= Multiset::<A>::empty());
    } else {
        let front = s.drop_last();
        let y = s.last();
        assert(s =~= front.push(y));
        lemma_filter_count(front, p, x);
        front.lemma_filter_push(y, p);
        to_multiset_build(front, y);
        if p(y) {
            to_multiset_build(front.filter(p), y);
        }
    }
}

/// Sequences that hold the same items still do once filtered.
pub proof fn lemma_filter_same_items<A>(a: Seq<A>, b: Seq<A>, p: spec_fn(A) -> bool)
    requires
        a.to_multiset() == b.to_multiset(),
    ensures
        a.filter(p).to_multiset() == b.filter(p).to_multiset(),
{
    assert forall|x: A| a.filter(p).to_multiset().count(x) == b.filter(p).to_multiset().count(x) by {
        lemma_filter_count(a, p, x);
        lemma_filter_count(b, p, x);
    }
    assert(a.filter(p).to_multiset() =~= b.filter(p).to_multiset());
}

impl Indexer {
    /// The transaction meets the filter and carries a valid inscription that
    /// meets it too: `inscription_of` gives it.
    pub open spec fn carries_inscription(self, tx: TxInfo) -> bool {
        &&& admits_transaction(self.filter, tx)
        &&& calldata_members(tx.input@) is Some
        &&& is_valid_inscription(calldata_members(tx.input@).unwrap())
        &&& admits_members(self.filter, calldata_members(tx.input@).unwrap())
    }

    pub open spec fn accepts(self) -> spec_fn(TxInfo) -> bool {
        |t: TxInfo| self.carries_inscription(t)
    }

    /// The transactions of a block that the walker applies from the cursor's
    /// index `c`.
    pub open spec fn accepted_pending(self, txs: Seq<TxInfo>, c: int) -> Seq<TxInfo> {
        pending(txs, c).filter(self.accepts())
    }

    /// The walker's next step from `s`, with the chain's tip at `latest`.
    pub fn next_step(&self, s: &WalkerState, latest: u64) -> (r: WalkStep)
        ensures
            r is Stop <==> (self.filter.end_block is Some && s.block_to_process
                > self.filter.end_block.unwrap()),
            r is Wait <==> (!(r is Stop) && s.block_to_process > latest),
            r is Process ==> r->Process_0 == s.block_to_process,
    {
        if self.past_end(s.block_to_process) {
            WalkStep::Stop
        } else if s.block_to_process > latest {
            WalkStep::Wait
        } else {
            WalkStep::Process(s.block_to_process)
        }
    }

    /// What the walker does with the block `s.block_to_process`, whose
    /// transactions are `txs` (`None` where the endpoint did not have the
    /// block). It applies the pending transactions that carry an inscription,
    /// in ascending order of index, each with the cursor at its index; then it
    /// writes the cursor at the last of them (or where it entered, if none) and
    /// moves to the next block. The cursors written never go back: each one
    /// lies past the position the walker entered with, and all lie before the
    /// next block's.
    pub fn plan_block(&self, s: &WalkerState, txs: Option<Vec<TxInfo>>) -> (r: BlockPlan)
        requires
            s.block_to_process < u64::MAX,
            txs is Some ==> forall|k: int|
                0 <= k < txs.unwrap()@.len() ==> #[trigger] txs.unwrap()@[k].transaction_index
                    <= i64::MAX,
        ensures
            txs is None ==> r.apply@.len() == 0,
            txs is Some ==> applied_txs(r.apply@).to_multiset() == self.accepted_pending(
                txs.unwrap()@,
                s.indexed_txi as int,
            ).to_multiset(),
            sorted_by_index(applied_txs(r.apply@)),
            forall|k: int|
                0 <= k < r.apply@.len() ==> self.carries_inscription((#[trigger] r.apply@[k]).tx)
                    && r.apply@[k].inscription.read_from(
                    calldata_members(r.apply@[k].tx.input@).unwrap(),
                ),
            forall|k: int|
                0 <= k < r.apply@.len() ==> (#[trigger] r.apply@[k]).cursor == (
                    s.block_to_process,
                    r.apply@[k].tx.transaction_index as i64,
                ),
            r.cursor == (
                s.block_to_process,
                if r.apply@.len() == 0 {
                    s.indexed_txi
                } else {
                    r.apply@.last().cursor.1
                },
            ),
            r.next == (WalkerState {
                block_to_process: (s.block_to_process + 1) as u64,
                indexed_txi: DEFAULT_START_TXI,
            }),
            forall|k: int|
                0 <= k < r.apply@.len() ==> cursor_lt(
                    s.position(),
                    cursor_pos((#[trigger] r.apply@[k]).cursor),
                ),
            forall|i: int, j: int|
                0 <= i < j < r.apply@.len() ==> cursor_le(
                    cursor_pos((#[trigger] r.apply@[i]).cursor),
                    cursor_pos((#[trigger] r.apply@[j]).cursor),
                ),
            forall|k: int|
                0 <= k < r.apply@.len() ==> cursor_le(
                    cursor_pos((#[trigger] r.apply@[k]).cursor),
                    cursor_pos(r.cursor),
                ),
            cursor_le(s.position(), cursor_pos(r.cursor)),
            cursor_lt(cursor_pos(r.cursor), r.next.position()),
    {
        let block = s.block_to_process;
        let mut apply: Vec<AppliedTx> = Vec::new();
        let mut last = s.indexed_txi;
        match txs {
            None => {},
            Some(txs) => {
                let ghost c = s.indexed_txi as int;
                let ghost all = txs@;
                let ghost acc = self.accepts();
                let mut rest = select_transactions(txs, s.indexed_txi);
                let ghost sel = rest@;
                assert forall|j: int| 0 <= j < sel.len() implies #[trigger] sel[j].transaction_index
                    > c && sel[j].transaction_index <= i64::MAX by {
                    assert(sel.contains(sel[j]));
                    assert(sel.to_multiset().count(sel[j]) > 0);
                    assert(pending(all, c).to_multiset().count(sel[j]) > 0);
                    assert(pending(all, c).contains(sel[j]));
                    all.lemma_filter_contains_rev(is_pending(c), sel[j]);
                    let k = choose|k: int| 0 <= k < all.len() && all[k] == sel[j];
                    assert(all[k].transaction_index <= i64::MAX);
                }
                assert(applied_txs(apply@) =~= Seq::<TxInfo>::empty());
                while rest.len() > 0
                    invariant
                        acc == self.accepts(),
                        c == s.indexed_txi as int,
                        block == s.block_to_process,
                        applied_txs(apply@) + rest@.filter(acc) == sel.filter(acc),
                        sorted_by_index(rest@),
                        sorted_by_index(applied_txs(apply@)),
                        forall|j: int|
                            0 <= j < rest@.len() ==> #[trigger] rest@[j].transaction_index > c
                                && rest@[j].transaction_index <= i64::MAX,
                        forall|a: int, j: int|
                            0 <= a < apply@.len() && 0 <= j < rest@.len() ==> (
                            #[trigger] apply@[a]).tx.transaction_index
                                <= (#[trigger] rest@[j]).transaction_index,
                        forall|k: int|
                            0 <= k < apply@.len() ==> self.carries_inscription(
                                (#[trigger] apply@[k]).tx,
                            ) && apply@[k].inscription.read_from(
                                calldata_members(apply@[k].tx.input@).unwrap(),
                            ),
                        forall|k: int|
                            0 <= k < apply@.len() ==> (#[trigger] apply@[k]).cursor == (
                                block,
                                apply@[k].tx.transaction_index as i64,
                            ),
                        forall|k: int|
                            0 <= k < apply@.len() ==> (#[trigger] apply@[k]).tx.transaction_index
                                > c,
                        forall|k: int|
                            0 <= k < apply@.len() ==> (#[trigger] apply@[k]).tx.transaction_index
                                <= i64::MAX,
                        last == if apply@.len() == 0 {
                            s.indexed_txi
                        } else {
                            apply@.last().cursor.1
                        },
                    decreases rest.len(),
                {
                    let ghost before = rest@;
                    let tx = rest.remove(0);
                    proof {
                        assert(before =~= seq![tx] + rest@);
                        rest@.lemma_filter_prepend(tx, acc);
                        assert forall|j: int| 0 <= j < rest@.len() implies before[0].transaction_index
                            <= #[trigger] rest@[j].transaction_index by {
                            assert(rest@[j] == before[j + 1]);
                        }
                    }
                    let index = tx.transaction_index;
                    match self.inscription_of(&tx) {
                        Some(inscription) => {
                            let ghost old_apply = apply@;
                            let cursor = (block, index as i64);
                            apply.push(AppliedTx { tx, inscription, cursor });
                            last = index as i64;
                            proof {
                                assert(applied_txs(apply@) =~= applied_txs(old_apply).push(
                                    before[0],
                                ));
                                assert(acc(before[0]));
                                assert(applied_txs(apply@) + rest@.filter(acc) =~= applied_txs(
                                    old_apply,
                                ) + before.filter(acc));
                            }
                        },
                        None => {
                            proof {
                                assert(!acc(before[0]));
                                assert(rest@.filter(acc) =~= before.filter(acc));
                            }
                        },
                    }
                }
                proof {
                    assert(rest@.filter(acc) =~= Seq::<TxInfo>::empty());
                    assert(applied_txs(apply@) =~= sel.filter(acc));
                    lemma_filter_same_items(sel, pending(all, c), acc);
                }
            },
        }
        proof {
            assert forall|i: int, j: int| 0 <= i < j < apply@.len() implies cursor_le(
                cursor_pos((#[trigger] apply@[i]).cursor),
                cursor_pos((#[trigger] apply@[j]).cursor),
            ) by {
                assert(applied_txs(apply@)[i] == apply@[i].tx);
                assert(applied_txs(apply@)[j] == apply@[j].tx);
            }
            assert forall|k: int| 0 <= k < apply@.len() implies cursor_le(
                cursor_pos((#[trigger] apply@[k]).cursor),
                cursor_pos((block, last)),
            ) by {
                let n = apply@.len() - 1;
                assert(applied_txs(apply@)[k] == apply@[k].tx);
                assert(applied_txs(apply@)[n] == apply@[n].tx);
            }
        }
        BlockPlan {
            apply,
            cursor: (block, last),
            next: WalkerState { block_to_process: block + 1, indexed_txi: DEFAULT_START_TXI },
        }
    }

    /// The cursor to store where none is stored yet: at the filter's start block
    /// if it has one, else at the chain's tip `tip`, before any transaction.
    pub fn seed_cursor(&self, tip: u64) -> (r: IndexedRecord)
        ensures
            r.chain_id == self.chain_id,
            r.indexed_block == match self.filter.start_block {
                Some(b) => b,
                None => tip,
            },
            r.indexed_txi == DEFAULT_START_TXI,
    {
        let indexed_block = match self.filter.start_block {
            Some(b) => b,
            None => tip,
        };
        IndexedRecord { chain_id: self.chain_id, indexed_block, indexed_txi: DEFAULT_START_TXI }
    }

    /// The cursor record for a position.
    pub fn cursor_record(&self, indexed_block: u64, indexed_txi: i64) -> (r: IndexedRecord)
        ensures
            r == (IndexedRecord { chain_id: self.chain_id, indexed_block, indexed_txi }),
    {
        IndexedRecord { chain_id: self.chain_id, indexed_block, indexed_txi }
    }

    /// Where the walker starts from the stored cursor: the filter's start block
    /// takes the place of the cursor's block where it is set.
    pub fn start_state(&self, cursor: &IndexedRecord) -> (r: WalkerState)
        ensures
            r.block_to_process == match self.filter.start_block {
                Some(b) => b,
                None => cursor.indexed_block,
            },
            r.indexed_txi == cursor.indexed_txi,
    {
        let block_to_process = match self.filter.start_block {
            Some(b) => b,
            None => cursor.indexed_block,
        };
        WalkerState { block_to_process, indexed_txi: cursor.indexed_txi }
    }

    /// The walker is done: the block lies past the filter's end block.
    pub fn past_end(&self, block: u64) -> (r: bool)
        ensures
            r == (self.filter.end_block is Some && block > self.filter.end_block.unwrap()),
    {
        match self.filter.end_block {
            Some(end) => block > end,
            None => false,
        }
    }

    /// The inscription that a transaction carries and that this indexer
    /// applies: the transaction meets the filter, its calldata holds a valid
    /// inscription, and that inscription meets the filter too. `None` for any
    /// other transaction.
    pub fn inscription_of(&self, tx: &TxInfo) -> (r: Option<Inscription>)
        ensures
            r is Some <==> self.carries_inscription(*tx),
            r is Some ==> r.unwrap().read_from(calldata_members(tx.input@).unwrap()),
    {
        let to = match tx.to {
            Some(a) => a,
            None => return None,
        };
        if self.filter.is_self_transaction && to != tx.from {
            return None;
        }
        match self.filter.recipient {
            Some(rcpt) => {
                if to != rcpt {
                    return None;
                }
            },
            None => {},
        }
        let inp = match parse_calldata(tx.input.as_slice()) {
            Some(i) => i,
            None => return None,
        };
        match &self.filter.p {
            Some(p) => {
                if *p != inp.p {
                    return None;
                }
            },
            None => {},
        }
        match &self.filter.tick {
            Some(t) => {
                if *t != inp.tick {
                    return None;
                }
            },
            None => {},
        }
        Some(inp)
    }
}

/// Round-trip resumption: a stop after the walker has passed the index `i`
/// of a block that it entered at index `c` loses nothing and repeats nothing.
/// What a restart from `i` applies of the block (`plan_block` from `i`) is
/// what the uninterrupted run (`plan_block` from `c`) applies past `i`, and
/// with what that run applies up to `i` it makes up all of it.
pub proof fn lemma_resume_split(idx: Indexer, txs: Seq<TxInfo>, c: int, i: int)
    requires
        c <= i,
    ensures
        idx.accepted_pending(txs, c).filter(is_pending(i)) == idx.accepted_pending(txs, i),
        idx.accepted_pending(txs, c).to_multiset() == idx.accepted_pending(txs, c).filter(
            |t: TxInfo| t.transaction_index <= i,
        ).to_multiset().add(idx.accepted_pending(txs, i).to_multiset()),
    decreases txs.len(),
{
    let upto = |t: TxInfo| t.transaction_index <= i;
    let acc = idx.accepts();
    if txs.len() == 0 {
        assert(pending(txs, c) =~= Seq::<TxInfo>::empty());
        assert(pending(txs, i) =~= Seq::<TxInfo>::empty());
        assert(idx.accepted_pending(txs, c) =~= Seq::<TxInfo>::empty());
        assert(idx.accepted_pending(txs, i) =~= Seq::<TxInfo>::empty());
        assert(idx.accepted_pending(txs, c).filter(is_pending(i)) =~= Seq::<TxInfo>::empty());
        assert(idx.accepted_pending(txs, c).filter(upto) =~= Seq::<TxInfo>::empty());
    } else {
        let front = txs.drop_last();
        let t = txs.last();
        assert(txs =~= front.push(t));
        lemma_resume_split(idx, front, c, i);
        front.lemma_filter_push(t, is_pending(c));
        front.lemma_filter_push(t, is_pending(i));
        pending(front, c).lemma_filter_push(t, acc);
        pending(front, i).lemma_filter_push(t, acc);
        idx.accepted_pending(front, c).lemma_filter_push(t, is_pending(i));
        idx.accepted_pending(front, c).lemma_filter_push(t, upto);
        assert(idx.accepted_pending(txs, c).filter(upto) =~= idx.accepted_pending(txs, c).filter(
            |t: TxInfo| t.transaction_index <= i,
        ));
        if is_pending(c)(t) && acc(t) {
            assert(idx.accepted_pending(txs, c).to_multiset() =~= idx.accepted_pending(
                txs,
                c,
            ).filter(upto).to_multiset().add(idx.accepted_pending(txs, i).to_multiset()));
        } else {
            assert(!(is_pending(i)(t) && acc(t)));
        }
    }
}

} // verus!
