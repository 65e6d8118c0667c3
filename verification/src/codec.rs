//! Bijective codec between non-negative integer identifiers and short
//! URL-safe tokens, interpreted in a positional numeral system of base 51.
//!
//! The alphabet holds 51 symbols: digits and letters with the visually
//! ambiguous characters (`0`, `1`, `i`, `l`, `I`, `o`, `O`) removed, plus
//! `-` and `_`.
//!
//! Zero handling: the empty token is the canonical representation of the
//! identifier `0`; `encode(0)` returns the empty string and the empty
//! string decodes to `0`, so the round trip holds for every identifier.

use vstd::prelude::*;

verus! {

/// The number of symbols in the token alphabet.
pub const BASE: u64 = 51;

/// The token alphabet, as a sequence of characters: position `i` is the
/// digit of value `i`.
pub open spec fn alphabet() -> Seq<char> {
    "23456789bcdfghjkmnpqrstvwxyzBCDFGHJKLMNPQRSTVWXYZ-_"@
}

/// The token alphabet as an executable string slice.
pub fn alphabet_str() -> (s: &'static str)
    ensures
        s@ == alphabet(),
{
    "23456789bcdfghjkmnpqrstvwxyzBCDFGHJKLMNPQRSTVWXYZ-_"
}

/// The alphabet has 51 symbols, no two of them equal.
pub proof fn lemma_alphabet()
    ensures
        alphabet().len() == BASE,
        forall|i: int, j: int|
            0 <= i < j < alphabet().len() ==> alphabet()[i] != alphabet()[j],
{
    reveal_strlit("23456789bcdfghjkmnpqrstvwxyzBCDFGHJKLMNPQRSTVWXYZ-_");
}

/// The token that stands for identifier `n`: its base-51 digits, most
/// significant first, mapped through the alphabet; empty for `n == 0`.
pub open spec fn encode_spec(n: nat) -> Seq<char>
    decreases n,
{
    if n == 0 {
        Seq::empty()
    } else {
        encode_spec(n / 51).push(alphabet()[(n % 51) as int])
    }
}

/// A token is well formed when every one of its characters is an alphabet
/// symbol.
pub open spec fn token_valid(s: Seq<char>) -> bool {
    forall|i: int| 0 <= i < s.len() ==> alphabet().contains(#[trigger] s[i])
}

/// The digit value of an alphabet symbol: its position in the alphabet.
pub open spec fn char_val(c: char) -> int {
    alphabet().index_of(c)
}

/// The identifier denoted by a well-formed token, read most significant
/// digit first.
pub open spec fn decode_val(s: Seq<char>) -> int
    decreases s.len(),
{
    if s.len() == 0 {
        0
    } else {
        decode_val(s.drop_last()) * 51 + char_val(s.last())
    }
}

/// An alphabet symbol's digit value is the position it stands at.
pub proof fn lemma_char_val_at(d: int)
    requires
        0 <= d < alphabet().len(),
    ensures
        char_val(alphabet()[d]) == d,
        alphabet().contains(alphabet()[d]),
{
    lemma_alphabet();
    let c = alphabet()[d];
    assert(alphabet().contains(c)) by {
        assert(0 <= d < alphabet().len() && alphabet()[d] == c);
    }
    let j = alphabet().index_of(c);
    assert(0 <= j < alphabet().len() && alphabet()[j] == c);
    if j < d {
        assert(alphabet()[j] != alphabet()[d]);
    } else if d < j {
        assert(alphabet()[d] != alphabet()[j]);
    }
}

/// The digit value of any alphabet member lies in `[0, 51)`.
pub proof fn lemma_char_val_range(c: char)
    requires
        alphabet().contains(c),
    ensures
        0 <= char_val(c) < 51,
        alphabet()[char_val(c)] == c,
{
    lemma_alphabet();
    let j = alphabet().index_of(c);
    assert(0 <= j < alphabet().len() && alphabet()[j] == c);
}

/// A well-formed token denotes a non-negative identifier.
pub proof fn lemma_decode_val_nonneg(s: Seq<char>)
    requires
        token_valid(s),
    ensures
        decode_val(s) >= 0,
    decreases s.len(),
{
    if s.len() > 0 {
        assert(token_valid(s.drop_last()));
        lemma_decode_val_nonneg(s.drop_last());
        lemma_char_val_range(s.last());
    }
}

/// A prefix of a well-formed token denotes no more than the whole token.
pub proof fn lemma_decode_val_prefix(s: Seq<char>, i: int)
    requires
        token_valid(s),
        0 <= i <= s.len(),
    ensures
        decode_val(s.subrange(0, i)) <= decode_val(s),
    decreases s.len(),
{
    if i == s.len() {
        assert(s.subrange(0, i) =~= s);
    } else {
        let t = s.drop_last();
        assert(token_valid(t));
        assert(s.subrange(0, i) =~= t.subrange(0, i));
        lemma_decode_val_prefix(t, i);
        lemma_decode_val_nonneg(t);
        lemma_char_val_range(s.last());
    }
}

/// Encodes a non-negative identifier as a token.
pub fn encode(id: u64) -> (token: String)
    ensures
        token@ == encode_spec(id as nat),
    decreases id,
{
    if id == 0 {
        String::new()
    } else {
        proof {
            vstd::arithmetic::div_mod::lemma_div_decreases(id as int, BASE as int);
            lemma_alphabet();
        }
        let mut token = encode(id / BASE);
        let digit = (id % BASE) as usize;
        let a = alphabet_str();
        token.append(a.substring_char(digit, digit + 1));
        proof {
            assert(token@ =~= encode_spec(id as nat));
        }
        token
    }
}

/// Why a token failed to decode.
#[derive(Clone, Copy, PartialEq, Eq, Debug)]
pub enum DecodeError {
    /// The token holds a character outside the alphabet; carries the
    /// offending character and its position in the token.
    InvalidCharacter { character: char, position: usize },
    /// The token is well formed but denotes an identifier beyond the
    /// machine range of identifiers.
    ValueTooLarge,
}

/// The position in the alphabet of `c`, or `None` when `c` is not an
/// alphabet symbol.
fn alpha_index_of(c: char) -> (r: Option<usize>)
    ensures
        match r {
            Some(d) => 0 <= d < alphabet().len() && alphabet()[d as int] == c,
            None => !alphabet().contains(c),
        },
{
    proof {
        lemma_alphabet();
    }
    let a = alphabet_str();
    let mut i: usize = 0;
    while i < 51
        invariant
            i <= 51,
            a@ == alphabet(),
            alphabet().len() == 51,
            forall|j: int| 0 <= j < i ==> alphabet()[j] != c,
        decreases 51 - i,
    {
        if a.get_char(i) == c {
            return Some(i);
        }
        i = i + 1;
    }
    proof {
        assert(!alphabet().contains(c));
    }
    None
}

/// Decodes a token back to the identifier it denotes.
///
/// Fails with `InvalidCharacter` exactly when some character of the token
/// lies outside the alphabet, reporting the first such character; fails
/// with `ValueTooLarge` exactly when the token is well formed but denotes
/// a value beyond `u64::MAX`.
pub fn decode(token: &str) -> (r: Result<u64, DecodeError>)
    ensures
        !token_valid(token@) ==> (match r {
            Err(DecodeError::InvalidCharacter { character, position }) => {
                &&& position < token@.len()
                &&& token@[position as int] == character
                &&& !alphabet().contains(character)
                &&& forall|j: int|
                    0 <= j < position ==> alphabet().contains(#[trigger] token@[j])
            },
            _ => false,
        }),
        token_valid(token@) && decode_val(token@) > u64::MAX ==> r == Err::<u64, DecodeError>(
            DecodeError::ValueTooLarge,
        ),
        token_valid(token@) && decode_val(token@) <= u64::MAX ==> (match r {
            Ok(v) => v == decode_val(token@),
            _ => false,
        }),
{
    let len = token.unicode_len();
    let mut i: usize = 0;
    while i < len
        invariant
            i <= len,
            len == token@.len(),
            forall|j: int| 0 <= j < i ==> alphabet().contains(#[trigger] token@[j]),
        decreases len - i,
    {
        let c = token.get_char(i);
        if alpha_index_of(c).is_none() {
            return Err(DecodeError::InvalidCharacter { character: c, position: i });
        }
        i = i + 1;
    }
    let mut value: u64 = 0;
    let mut i: usize = 0;
    while i < len
        invariant
            i <= len,
            len == token@.len(),
            token_valid(token@),
            value == decode_val(token@.subrange(0, i as int)),
        decreases len - i,
    {
        let c = token.get_char(i);
        let d = alpha_index_of(c).unwrap();
        proof {
            lemma_char_val_at(d as int);
            assert(token@.subrange(0, i + 1).drop_last() =~= token@.subrange(0, i as int));
            assert(token@.subrange(0, i + 1).last() == token@[i as int]);
        }
        let scaled = match value.checked_mul(BASE) {
            Some(v) => v,
            None => {
                proof {
                    lemma_decode_val_prefix(token@, i + 1);
                }
                return Err(DecodeError::ValueTooLarge);
            },
        };
        value = match scaled.checked_add(d as u64) {
            Some(v) => v,
            None => {
                proof {
                    lemma_decode_val_prefix(token@, i + 1);
                }
                return Err(DecodeError::ValueTooLarge);
            },
        };
        i = i + 1;
    }
    proof {
        assert(token@.subrange(0, len as int) =~= token@);
    }
    Ok(value)
}

/// Round-trip law: the token that encodes `n` is well formed and decodes
/// back to `n`, for every non-negative identifier `n`; with it, the
/// alphabet-closure law: every character of the token is an alphabet
/// symbol.
pub proof fn lemma_round_trip(n: nat)
    ensures
        token_valid(encode_spec(n)),
        decode_val(encode_spec(n)) == n,
    decreases n,
{
    lemma_alphabet();
    if n != 0 {
        vstd::arithmetic::div_mod::lemma_div_decreases(n as int, 51);
        lemma_round_trip(n / 51);
        let s = encode_spec(n);
        let d = (n % 51) as int;
        assert(s.drop_last() =~= encode_spec(n / 51));
        assert(s.last() == alphabet()[d]);
        lemma_char_val_at(d);
        vstd::arithmetic::div_mod::lemma_fundamental_div_mod(n as int, 51);
        assert forall|i: int| 0 <= i < s.len() implies alphabet().contains(#[trigger] s[i]) by {
            if i < s.len() - 1 {
                assert(s[i] == encode_spec(n / 51)[i]);
            }
        }
    }
}

/// Alphabet-closure law: every character of an encoded token is an
/// alphabet symbol, for every identifier.
pub proof fn lemma_alphabet_closure(n: nat)
    ensures
        token_valid(encode_spec(n)),
{
    lemma_round_trip(n);
}

/// The encoding is injective: distinct identifiers never share a token,
/// so the codec is a bijection between identifiers and their tokens.
pub proof fn lemma_encode_injective(m: nat, n: nat)
    requires
        encode_spec(m) == encode_spec(n),
    ensures
        m == n,
{
    lemma_round_trip(m);
    lemma_round_trip(n);
}

/// Token lengths at the first digit boundaries: one symbol for the first
/// base-51 digit range, two for the second.
pub proof fn lemma_token_length_at_boundaries(n: nat)
    ensures
        1 <= n < 51 ==> encode_spec(n).len() == 1,
        51 <= n < 51 * 51 ==> encode_spec(n).len() == 2,
{
    reveal_with_fuel(encode_spec, 3);
    if 1 <= n && n < 51 {
        assert(n / 51 == 0);
    }
    if 51 <= n && n < 51 * 51 {
        assert(1 <= n / 51 < 51) by {
            vstd::arithmetic::div_mod::lemma_div_non_zero(n as int, 51);
            vstd::arithmetic::div_mod::lemma_multiply_divide_lt(n as int, 51, 51);
        }
        assert((n / 51) / 51 == 0);
    }
}

/// Monotone-length law: a larger identifier never gets a shorter token.
pub proof fn lemma_token_length_monotone(m: nat, n: nat)
    requires
        m <= n,
    ensures
        encode_spec(m).len() <= encode_spec(n).len(),
    decreases n,
{
    if m != 0 {
        vstd::arithmetic::div_mod::lemma_div_decreases(n as int, 51);
        vstd::arithmetic::div_mod::lemma_div_is_ordered(m as int, n as int, 51);
        lemma_token_length_monotone(m / 51, n / 51);
    }
}

} // verus!
