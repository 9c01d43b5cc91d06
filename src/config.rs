use rand::seq::SliceRandom;
use vstd::prelude::*;

verus! {

/// The endpoints of one chain.
pub struct ChainConfig {
    /// The display name.
    pub name: String,
    /// The websocket endpoint that signals new blocks.
    pub wss: String,
    /// The HTTP endpoints for every block and transaction fetch.
    pub https: Vec<String>,
}

/// A pick of one member of a pool.
pub trait Random<T> {
    spec fn members(&self) -> Seq<T>;

    /// One member, picked at random; `None` where the pool is empty.
    fn random(&self) -> (r: Option<T>)
        ensures
            r is Some <==> self.members().len() > 0,
            r is Some ==> self.members().contains(r.unwrap()),
    ;
}

/// Relies on rand's `SliceRandom::choose` with `thread_rng`: a member of the
/// pool drawn at random, `None` only for an empty pool.
#[verifier::external_body]
fn choose_member(pool: &Vec<String>) -> (r: Option<&String>)
    ensures
        r is Some <==> pool@.len() > 0,
        r is Some ==> pool@.contains(*r.unwrap()),
{
    pool.choose(&mut rand::thread_rng())
}

impl Random<String> for Vec<String> {
    open spec fn members(&self) -> Seq<String> {
        self@
    }

    fn random(&self) -> (r: Option<String>) {
        match choose_member(self) {
            Some(member) => Some(member.clone()),
            None => None,
        }
    }
}

} // verus!
