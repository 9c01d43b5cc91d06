use vstd::prelude::*;
use vstd::slice::*;
use vstd::string::*;
use vstd::utf8::*;

verus! {

/// The operation that creates a tick.
pub const OP_DEPLOY: &'static str = "deploy";

/// The operation that mints an amount of a deployed tick.
pub const OP_MINT: &'static str = "mint";

/// The members of a JSON object in the order of its map: each name, with the
/// member's text where the member is a JSON string.
pub type Members = Seq<(Seq<char>, Option<Seq<char>>)>;

/// What serde_json reads from a text: `Some` with the members where the text is
/// one JSON object, `None` where it is malformed or another kind of value.
pub uninterp spec fn json_object_members(text: Seq<char>) -> Option<Members>;

/// The parsed form of an inscription: all its fields are texts.
pub struct Inscription {
    pub p: String,
    pub op: String,
    pub tick: String,
    pub max: Option<String>,
    pub lim: Option<String>,
    pub amt: Option<String>,
}

/// The bytes of `data:,`.
pub open spec fn prefix_bytes() -> Seq<u8> {
    seq![0x64u8, 0x61u8, 0x74u8, 0x61u8, 0x3au8, 0x2cu8]
}

pub open spec fn op_deploy() -> Seq<char> {
    seq!['d', 'e', 'p', 'l', 'o', 'y']
}

pub open spec fn op_mint() -> Seq<char> {
    seq!['m', 'i', 'n', 't']
}

pub open spec fn name_p() -> Seq<char> {
    seq!['p']
}

pub open spec fn name_op() -> Seq<char> {
    seq!['o', 'p']
}

pub open spec fn name_tick() -> Seq<char> {
    seq!['t', 'i', 'c', 'k']
}

pub open spec fn name_max() -> Seq<char> {
    seq!['m', 'a', 'x']
}

pub open spec fn name_lim() -> Seq<char> {
    seq!['l', 'i', 'm']
}

pub open spec fn name_amt() -> Seq<char> {
    seq!['a', 'm', 't']
}

/// The string text of the first member called `name`; `None` where there is no
/// such member or it is not a JSON string.
pub open spec fn member_text(ms: Members, name: Seq<char>) -> Option<Seq<char>>
    decreases ms.len(),
{
    if ms.len() == 0 {
        None
    } else if ms[0].0 == name {
        ms[0].1
    } else {
        member_text(ms.drop_first(), name)
    }
}

/// The members carry an inscription: string fields `op`, `p` and `tick`; a
/// `deploy` also has string fields `max` and `lim`, a `mint` a string field
/// `amt`, and no other operation is one.
pub open spec fn is_valid_inscription(ms: Members) -> bool {
    &&& member_text(ms, name_op()) is Some
    &&& member_text(ms, name_p()) is Some
    &&& member_text(ms, name_tick()) is Some
    &&& {
        let op = member_text(ms, name_op()).unwrap();
        if op == op_mint() {
            member_text(ms, name_amt()) is Some
        } else if op == op_deploy() {
            member_text(ms, name_max()) is Some && member_text(ms, name_lim()) is Some
        } else {
            false
        }
    }
}

/// The JSON members that a calldata carries after the prefix `data:,`: `None`
/// where it lacks the prefix, the rest is not UTF-8, or it is no JSON object.
pub open spec fn calldata_members(data: Seq<u8>) -> Option<Members> {
    if data.len() >= 6 && data.subrange(0, 6) == prefix_bytes() && valid_utf8(
        data.subrange(6, data.len() as int),
    ) {
        json_object_members(decode_utf8(data.subrange(6, data.len() as int)))
    } else {
        None
    }
}

impl Inscription {
    /// Each field holds the string member of that name.
    pub open spec fn read_from(self, ms: Members) -> bool {
        &&& Some(self.p@) == member_text(ms, name_p())
        &&& Some(self.op@) == member_text(ms, name_op())
        &&& Some(self.tick@) == member_text(ms, name_tick())
        &&& self.max.deep_view() == member_text(ms, name_max())
        &&& self.lim.deep_view() == member_text(ms, name_lim())
        &&& self.amt.deep_view() == member_text(ms, name_amt())
    }
}

/// The operation that an inscription asks for.
#[derive(PartialEq, Eq, Structural, Clone, Copy, Debug)]
pub enum Operation {
    Deploy,
    Mint,
    Other,
}

/// Tells the operation of an inscription by its `op` field.
pub fn operation_of(inp: &Inscription) -> (r: Operation)
    ensures
        r is Mint <==> inp.op@ == op_mint(),
        r is Deploy <==> inp.op@ == op_deploy(),
{
    proof {
        reveal_strlit("mint");
        reveal_strlit("deploy");
        assert("mint"@ =~= op_mint());
        assert("deploy"@ =~= op_deploy());
    }
    if inp.op == String::from_str(OP_MINT) {
        Operation::Mint
    } else if inp.op == String::from_str(OP_DEPLOY) {
        Operation::Deploy
    } else {
        Operation::Other
    }
}

/// Relies on `core::str::from_utf8`: the bytes are read as text exactly when
/// they are valid UTF-8.
#[verifier::external_body]
fn utf8_text(bytes: &[u8]) -> (r: Option<&str>)
    ensures
        r is Some <==> valid_utf8(bytes@),
        r is Some ==> r.unwrap()@ == decode_utf8(bytes@),
{
    core::str::from_utf8(bytes).ok()
}

/// Relies on `serde_json::from_str` into a `serde_json::Value`: where the text
/// is a JSON object, its members in the map's order, each with its text where
/// the member is a JSON string.
#[verifier::external_body]
fn read_json_object(text: &str) -> (r: Option<Vec<(String, Option<String>)>>)
    ensures
        r.deep_view() == json_object_members(text@),
{
    match serde_json::from_str::<serde_json::Value>(text) {
        Ok(serde_json::Value::Object(map)) => Some(
            map.into_iter().map(
                |(name, value)|
                    match value {
                        serde_json::Value::String(s) => (name, Some(s)),
                        _ => (name, None),
                    },
            ).collect(),
        ),
        _ => None,
    }
}

/// The string text of the first member called `name`, as `member_text` says.
pub fn find_member(ms: &Vec<(String, Option<String>)>, name: &String) -> (r: Option<String>)
    ensures
        r.deep_view() == member_text(ms.deep_view(), name@),
{
    let mut i: usize = 0;
    assert(ms.deep_view().skip(0) =~= ms.deep_view());
    while i < ms.len()
        invariant
            i <= ms.len(),
            member_text(ms.deep_view(), name@) == member_text(
                ms.deep_view().skip(i as int),
                name@,
            ),
        decreases ms.len() - i,
    {
        let ghost rest = ms.deep_view().skip(i as int);
        assert(rest.drop_first() =~= ms.deep_view().skip(i + 1));
        if ms[i].0 == *name {
            return match &ms[i].1 {
                Some(t) => Some(t.clone()),
                None => None,
            };
        }
        i += 1;
    }
    assert(ms.deep_view().skip(i as int).len() == 0);
    None
}

/// Reads an inscription from a transaction's calldata. The calldata must start
/// with `data:,`, the rest must be UTF-8 text holding one JSON object, and the
/// object must carry the fields that its operation asks for. Anything else is
/// no inscription and gives `None`: no calldata makes this fail.
pub fn parse_calldata(data: &[u8]) -> (r: Option<Inscription>)
    ensures
        r is Some <==> (calldata_members(data@) is Some && is_valid_inscription(
            calldata_members(data@).unwrap(),
        )),
        r is Some ==> r.unwrap().read_from(calldata_members(data@).unwrap()),
{
    if data.len() < 6 {
        return None;
    }
    if data[0] != 0x64u8 || data[1] != 0x61u8 || data[2] != 0x74u8 || data[3] != 0x61u8
        || data[4] != 0x3au8 || data[5] != 0x2cu8 {
        proof {
            assert(data@.subrange(0, 6)[0] == data@[0]);
            assert(data@.subrange(0, 6)[1] == data@[1]);
            assert(data@.subrange(0, 6)[2] == data@[2]);
            assert(data@.subrange(0, 6)[3] == data@[3]);
            assert(data@.subrange(0, 6)[4] == data@[4]);
            assert(data@.subrange(0, 6)[5] == data@[5]);
        }
        return None;
    }
    assert(data@.subrange(0, 6) =~= prefix_bytes());
    let body = slice_subrange(data, 6, data.len());
    let text = match utf8_text(body) {
        Some(t) => t,
        None => return None,
    };
    let members = match read_json_object(text) {
        Some(ms) => ms,
        None => return None,
    };
    parse_members(&members)
}

/// Reads an inscription from the members of a JSON object, as
/// `is_valid_inscription` and `read_from` say.
pub fn parse_members(members: &Vec<(String, Option<String>)>) -> (r: Option<Inscription>)
    ensures
        r is Some <==> is_valid_inscription(members.deep_view()),
        r is Some ==> r.unwrap().read_from(members.deep_view()),
{
    let ms = Ghost(members.deep_view());
    proof {
        reveal_strlit("op");
        reveal_strlit("p");
        reveal_strlit("tick");
        reveal_strlit("max");
        reveal_strlit("lim");
        reveal_strlit("amt");
        reveal_strlit("mint");
        reveal_strlit("deploy");
        assert("op"@ =~= name_op());
        assert("p"@ =~= name_p());
        assert("tick"@ =~= name_tick());
        assert("max"@ =~= name_max());
        assert("lim"@ =~= name_lim());
        assert("amt"@ =~= name_amt());
        assert("mint"@ =~= op_mint());
        assert("deploy"@ =~= op_deploy());
    }
    let op = match find_member(members, &String::from_str("op")) {
        Some(v) => v,
        None => return None,
    };
    let p = match find_member(members, &String::from_str("p")) {
        Some(v) => v,
        None => return None,
    };
    let tick = match find_member(members, &String::from_str("tick")) {
        Some(v) => v,
        None => return None,
    };
    let max = find_member(members, &String::from_str("max"));
    let lim = find_member(members, &String::from_str("lim"));
    let amt = find_member(members, &String::from_str("amt"));
    let is_mint = op == String::from_str(OP_MINT);
    let is_deploy = op == String::from_str(OP_DEPLOY);
    assert(is_mint == (op@ == op_mint()));
    assert(is_deploy == (op@ == op_deploy()));
    if is_mint {
        if amt.is_none() {
            return None;
        }
    } else if is_deploy {
        if max.is_none() || lim.is_none() {
            return None;
        }
    } else {
        return None;
    }
    Some(Inscription { p, op, tick, max, lim, amt })
}

} // verus!
