use vstd::prelude::*;
use vstd::string::*;

use crate::indexer::Indexer;

verus! {

/// The character of a decimal digit.
pub open spec fn digit_char(d: nat) -> char {
    seq!['0', '1', '2', '3', '4', '5', '6', '7', '8', '9'][d as int]
}

/// The decimal form of `n`, without leading zeros.
pub open spec fn decimal_text(n: nat) -> Seq<char>
    decreases n,
{
    if n < 10 {
        seq![digit_char(n)]
    } else {
        decimal_text(n / 10).push(digit_char(n % 10))
    }
}

/// Writes `n` in decimal.
pub fn u64_text(n: u64) -> (r: String)
    ensures
        r@ == decimal_text(n as nat),
    decreases n,
{
    proof {
        reveal_strlit("0123456789");
    }
    let d: usize = (n % 10) as usize;
    let digit = "0123456789".substring_char(d, d + 1);
    assert(digit@ =~= seq![digit_char(d as nat)]);
    if n < 10 {
        String::from_str(digit)
    } else {
        let mut s = u64_text(n / 10);
        s.append(digit);
        assert(s@ =~= decimal_text(n as nat));
        s
    }
}

/// What a key writes where the filter leaves the protocol or the tick open.
pub open spec fn wildcard_text() -> Seq<char> {
    seq!['*']
}

pub open spec fn or_wildcard(v: Option<String>) -> Seq<char> {
    match v {
        Some(s) => s@,
        None => wildcard_text(),
    }
}

/// `indexed#{chain_id}#{p or *}#{tick or *}`.
pub open spec fn cursor_key(chain_id: u64, p: Seq<char>, tick: Seq<char>) -> Seq<char> {
    seq!['i', 'n', 'd', 'e', 'x', 'e', 'd', '#'] + decimal_text(chain_id as nat) + seq!['#'] + p
        + seq!['#'] + tick
}

/// `deploy#{chain_id}#{p}#{tick}`.
pub open spec fn deploy_key(chain_id: u64, p: Seq<char>, tick: Seq<char>) -> Seq<char> {
    seq!['d', 'e', 'p', 'l', 'o', 'y', '#'] + decimal_text(chain_id as nat) + seq!['#'] + p + seq![
        '#',
    ] + tick
}

/// `mint#{chain_id}#{p}#{tick}#{holder}#{hash}#{ts}`.
pub open spec fn mint_key(
    chain_id: u64,
    p: Seq<char>,
    tick: Seq<char>,
    holder: Seq<char>,
    hash: Seq<char>,
    ts: u64,
) -> Seq<char> {
    seq!['m', 'i', 'n', 't', '#'] + decimal_text(chain_id as nat) + seq!['#'] + p + seq!['#']
        + tick + seq!['#'] + holder + seq!['#'] + hash + seq!['#'] + decimal_text(ts as nat)
}

/// The keys of the store, scoped by the chain and by the indexer's filter.
pub trait Keys {
    spec fn chain_scope(&self) -> u64;

    spec fn filter_p(&self) -> Option<String>;

    spec fn filter_tick(&self) -> Option<String>;

    /// The key of the cursor.
    fn key_indexed_record(&self) -> (r: String)
        ensures
            r@ == cursor_key(
                self.chain_scope(),
                or_wildcard(self.filter_p()),
                or_wildcard(self.filter_tick()),
            ),
    ;

    /// The key of one mint record.
    fn key_tick_mint(&self, p: &str, tick: &str, holder: &str, hash: &str, ts: u64) -> (r: String)
        ensures
            r@ == mint_key(self.chain_scope(), p@, tick@, holder@, hash@, ts),
    ;

    /// The key of a deployed tick.
    fn key_tick_deploy(&self, p: &str, tick: &str) -> (r: String)
        ensures
            r@ == deploy_key(self.chain_scope(), p@, tick@),
    ;
}

impl Keys for Indexer {
    open spec fn chain_scope(&self) -> u64 {
        self.chain_id
    }

    open spec fn filter_p(&self) -> Option<String> {
        self.filter.p
    }

    open spec fn filter_tick(&self) -> Option<String> {
        self.filter.tick
    }

    fn key_indexed_record(&self) -> (r: String) {
        proof {
            reveal_strlit("indexed#");
            reveal_strlit("#");
            reveal_strlit("*");
        }
        let p: &str = match &self.filter.p {
            Some(v) => v.as_str(),
            None => "*",
        };
        let tick: &str = match &self.filter.tick {
            Some(v) => v.as_str(),
            None => "*",
        };
        assert(p@ == or_wildcard(self.filter.p));
        assert(tick@ == or_wildcard(self.filter.tick));
        let mut r = String::from_str("indexed#");
        let chain = u64_text(self.chain_id);
        r.append(chain.as_str());
        r.append("#");
        r.append(p);
        r.append("#");
        r.append(tick);
        assert(r@ =~= cursor_key(self.chain_id, p@, tick@));
        r
    }

    fn key_tick_mint(&self, p: &str, tick: &str, holder: &str, hash: &str, ts: u64) -> (r: String) {
        proof {
            reveal_strlit("mint#");
            reveal_strlit("#");
        }
        let mut r = String::from_str("mint#");
        let chain = u64_text(self.chain_id);
        let time = u64_text(ts);
        r.append(chain.as_str());
        r.append("#");
        r.append(p);
        r.append("#");
        r.append(tick);
        r.append("#");
        r.append(holder);
        r.append("#");
        r.append(hash);
        r.append("#");
        r.append(time.as_str());
        assert(r@ =~= mint_key(self.chain_id, p@, tick@, holder@, hash@, ts));
        r
    }

    fn key_tick_deploy(&self, p: &str, tick: &str) -> (r: String) {
        proof {
            reveal_strlit("deploy#");
            reveal_strlit("#");
        }
        let mut r = String::from_str("deploy#");
        let chain = u64_text(self.chain_id);
        r.append(chain.as_str());
        r.append("#");
        r.append(p);
        r.append("#");
        r.append(tick);
        assert(r@ =~= deploy_key(self.chain_id, p@, tick@));
        r
    }
}

} // verus!
