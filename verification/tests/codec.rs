use url_shortener::codec::{decode, encode, DecodeError};

const ALPHABET: &str = "23456789bcdfghjkmnpqrstvwxyzBCDFGHJKLMNPQRSTVWXYZ-_";

#[test]
fn encode_zero_is_empty() {
    assert_eq!(encode(0), "");
}

#[test]
fn decode_empty_is_zero() {
    assert_eq!(decode(""), Ok(0));
}

#[test]
fn encode_concrete_values() {
    assert_eq!(encode(1), "3");
    assert_eq!(encode(2), "4");
    assert_eq!(encode(50), "_");
    assert_eq!(encode(51), "32");
    assert_eq!(encode(52), "33");
    assert_eq!(encode(2600), "__");
    assert_eq!(encode(2601), "322");
}

#[test]
fn round_trip_small_values() {
    for n in 0u64..5000 {
        assert_eq!(decode(&encode(n)), Ok(n), "round trip failed at {}", n);
    }
}

#[test]
fn round_trip_large_values() {
    for &n in &[
        999_999u64,
        1 << 32,
        (1 << 60) + 12345,
        u64::MAX - 1,
        u64::MAX,
    ] {
        assert_eq!(decode(&encode(n)), Ok(n), "round trip failed at {}", n);
    }
}

#[test]
fn alphabet_closure() {
    for n in (0u64..100_000).step_by(337) {
        let token = encode(n);
        for c in token.chars() {
            assert!(ALPHABET.contains(c), "foreign char {:?} in encode({})", c, n);
        }
    }
}

#[test]
fn token_length_monotone() {
    let mut prev = encode(0).len();
    for n in 1u64..6000 {
        let len = encode(n).len();
        assert!(len >= prev, "length dropped at {}", n);
        prev = len;
    }
}

#[test]
fn token_length_at_digit_boundaries() {
    assert_eq!(encode(0).len(), 0);
    assert_eq!(encode(1).len(), 1);
    assert_eq!(encode(50).len(), 1);
    assert_eq!(encode(51).len(), 2);
    assert_eq!(encode(51 * 51 - 1).len(), 2);
    assert_eq!(encode(51 * 51).len(), 3);
}

#[test]
fn decode_rejects_foreign_characters() {
    assert_eq!(
        decode("a!b"),
        Err(DecodeError::InvalidCharacter { character: 'a', position: 0 })
    );
    assert_eq!(
        decode("2!b"),
        Err(DecodeError::InvalidCharacter { character: '!', position: 1 })
    );
    assert_eq!(
        decode("!!!"),
        Err(DecodeError::InvalidCharacter { character: '!', position: 0 })
    );
    assert_eq!(
        decode("23é"),
        Err(DecodeError::InvalidCharacter { character: 'é', position: 2 })
    );
}

#[test]
fn decode_rejects_oversized_tokens() {
    assert_eq!(decode("ZZZZZZZZZZZZ"), Err(DecodeError::ValueTooLarge));
    assert_eq!(decode("_____________"), Err(DecodeError::ValueTooLarge));
}

#[test]
fn decode_near_the_identifier_limit() {
    // u64::MAX encodes to a token that still decodes, while a token one
    // character longer already overflows.
    let max_token = encode(u64::MAX);
    assert_eq!(decode(&max_token), Ok(u64::MAX));
    let mut too_big = max_token.clone();
    too_big.push('_');
    assert_eq!(decode(&too_big), Err(DecodeError::ValueTooLarge));
}
