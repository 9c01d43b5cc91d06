use vstd::prelude::*;
use vstd::string::*;

verus! {

/// Number of characters in `0x` followed by the 24 zero nibbles that pad a
/// 20-byte address to a 32-byte word.
pub const PADDED_PREFIX_LEN: usize = 26;

/// `s` starts with `0x` and then 24 zero nibbles.
pub open spec fn has_word_padding(s: Seq<char>) -> bool {
    &&& s.len() >= 26
    &&& s[0] == '0'
    &&& s[1] == 'x'
    &&& forall|i: int| 2 <= i < 26 ==> s[i] == '0'
}

/// The hex text with the padding of a 32-byte word taken out, leaving `0x`
/// and the rest; texts without that padding are left as they are.
pub open spec fn strip_word_padding(s: Seq<char>) -> Seq<char> {
    if has_word_padding(s) {
        seq!['0', 'x'] + s.subrange(26, s.len() as int)
    } else {
        s
    }
}

/// Turns the hex form of a 32-byte word that holds an address (`0x` and 64
/// nibbles) into the conventional 20-byte form by dropping the 24 leading zero
/// nibbles after `0x`.
pub fn remove_leadering_zeros(hex: String) -> (r: String)
    ensures
        r@ == strip_word_padding(hex@),
{
    let s = hex.as_str();
    let n = s.unicode_len();
    if n < PADDED_PREFIX_LEN {
        return hex;
    }
    if s.get_char(0) != '0' || s.get_char(1) != 'x' {
        return hex;
    }
    let mut i: usize = 2;
    while i < PADDED_PREFIX_LEN
        invariant
            2 <= i <= 26,
            n as int == s@.len(),
            n >= 26,
            s@ == hex@,
            s@[0] == '0',
            s@[1] == 'x',
            forall|j: int| 2 <= j < i ==> s@[j] == '0',
        decreases 26 - i,
    {
        if s.get_char(i) != '0' {
            return hex;
        }
        i += 1;
    }
    let rest = s.substring_char(PADDED_PREFIX_LEN, n);
    let mut out = String::from_str("0x");
    proof {
        reveal_strlit("0x");
    }
    out.append(rest);
    assert(out@ =~= seq!['0', 'x'] + hex@.subrange(26, hex@.len() as int));
    out
}

} // verus!
