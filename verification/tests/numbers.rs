//! The integer tower: promotion, overflow, and decimal text round trips.

use dbgen_core::bytes::{format_i128, format_u128, hex_lower, parse_hex, parse_i128};
use dbgen_core::number::{Number, NumberError};

#[test]
fn addition_commutes_on_samples() {
    let samples = [
        Number::Int(3),
        Number::Int(-3),
        Number::Int(i128::MAX),
        Number::Int(i128::MIN),
        Number::UInt(u128::MAX),
        Number::UInt(1u128 << 127),
    ];
    for a in samples {
        for b in samples {
            assert_eq!(a.add(b), b.add(a));
            assert_eq!(a.mul(b), b.mul(a));
        }
    }
}

#[test]
fn addition_promotes_and_overflows() {
    assert_eq!(
        Number::Int(i128::MAX).add(Number::Int(1)),
        Ok(Number::UInt(1u128 << 127))
    );
    assert_eq!(
        Number::UInt(u128::MAX).add(Number::Int(1)),
        Err(NumberError::Overflow)
    );
    assert_eq!(
        Number::UInt(u128::MAX).add(Number::Int(-1)),
        Ok(Number::UInt(u128::MAX - 1))
    );
    assert_eq!(
        Number::Int(i128::MIN).add(Number::Int(-1)),
        Err(NumberError::Overflow)
    );
    // a large unsigned value comes back into signed range
    assert_eq!(
        Number::UInt(1u128 << 127).add(Number::Int(-1)),
        Ok(Number::Int(i128::MAX))
    );
}

#[test]
fn subtraction_crosses_the_variants() {
    assert_eq!(
        Number::UInt(u128::MAX).sub(Number::UInt(u128::MAX)),
        Ok(Number::Int(0))
    );
    assert_eq!(
        Number::Int(0).sub(Number::UInt(1u128 << 127)),
        Ok(Number::Int(i128::MIN))
    );
    assert_eq!(
        Number::Int(-2).sub(Number::UInt(1u128 << 127)),
        Err(NumberError::Overflow)
    );
    assert_eq!(
        Number::Int(0).sub(Number::Int(i128::MIN)),
        Ok(Number::UInt(1u128 << 127))
    );
}

#[test]
fn multiplication_promotes_and_overflows() {
    assert_eq!(Number::Int(6).mul(Number::Int(7)), Ok(Number::Int(42)));
    assert_eq!(
        Number::Int(i128::MAX).mul(Number::Int(2)),
        Ok(Number::UInt((i128::MAX as u128) * 2))
    );
    assert_eq!(
        Number::UInt(u128::MAX).mul(Number::Int(-1)),
        Err(NumberError::Overflow)
    );
    assert_eq!(
        Number::Int(-1).mul(Number::UInt(1u128 << 127)),
        Ok(Number::Int(i128::MIN))
    );
}

#[test]
fn division_and_remainder() {
    assert_eq!(Number::Int(7).div(Number::Int(-2)), Ok(Number::Int(-3)));
    assert_eq!(Number::Int(7).div(Number::Int(0)), Err(NumberError::NaN));
    assert_eq!(
        Number::Int(i128::MIN).div(Number::Int(-1)),
        Ok(Number::UInt(1u128 << 127))
    );
    assert_eq!(Number::Int(7).rem(Number::Int(-2)), Ok(Number::Int(1)));
    assert_eq!(
        Number::Int(i128::MIN).rem(Number::Int(-1)),
        Ok(Number::Int(0))
    );
    assert_eq!(
        Number::UInt(u128::MAX).div(Number::Int(-1)),
        Err(NumberError::Overflow)
    );
    assert_eq!(
        Number::UInt(1u128 << 127).div(Number::UInt(u128::MAX)),
        Ok(Number::Int(0))
    );
}

#[test]
fn negation() {
    assert_eq!(Number::Int(5).neg(), Ok(Number::Int(-5)));
    assert_eq!(Number::Int(i128::MIN).neg(), Ok(Number::UInt(1u128 << 127)));
    assert_eq!(Number::UInt(1u128 << 127).neg(), Ok(Number::Int(i128::MIN)));
    assert_eq!(Number::UInt(u128::MAX).neg(), Err(NumberError::Overflow));
}

#[test]
fn decimal_text_of_integers() {
    assert_eq!(format_u128(0), b"0".to_vec());
    assert_eq!(format_u128(1234567890), b"1234567890".to_vec());
    assert_eq!(format_i128(-1), b"-1".to_vec());
    assert_eq!(
        format_i128(i128::MIN),
        b"-170141183460469231731687303715884105728".to_vec()
    );
}

#[test]
fn parse_round_trips_every_sample() {
    for v in [0i128, 7, -7, 42_000_000_000, i128::MAX, i128::MIN] {
        let textual = format_i128(v);
        assert_eq!(parse_i128(&textual), Some(v));
    }
}

#[test]
fn parse_rejects_junk_and_overflow() {
    assert_eq!(parse_i128(b""), None);
    assert_eq!(parse_i128(b"-"), None);
    assert_eq!(parse_i128(b"12a3"), None);
    assert_eq!(parse_i128(b"170141183460469231731687303715884105727"), Some(i128::MAX));
    assert_eq!(parse_i128(b"170141183460469231731687303715884105728"), None);
    assert_eq!(
        parse_i128(b"-170141183460469231731687303715884105728"),
        Some(i128::MIN)
    );
    assert_eq!(parse_i128(b"-170141183460469231731687303715884105729"), None);
}

#[test]
fn hex_text_round_trips() {
    assert_eq!(hex_lower(&[0x00, 0xff, 0x1a]), b"00ff1a".to_vec());
    assert_eq!(parse_hex(b"00ff1a"), Some(vec![0x00, 0xff, 0x1a]));
    assert_eq!(parse_hex(b"00FF1A"), Some(vec![0x00, 0xff, 0x1a]));
    assert_eq!(parse_hex(b"abc"), None);
    assert_eq!(parse_hex(b"zz"), None);
    let seed = [7u8; 32];
    assert_eq!(parse_hex(&hex_lower(&seed)), Some(seed.to_vec()));
}
