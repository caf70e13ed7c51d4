use stocks::entities::agents::{combine, get_first, get_second};

#[test]
fn key_holds_first_identifier_in_upper_half() {
    assert_eq!(combine(1, 2), (1u128 << 64) + 2);
    assert_eq!(combine(0, 0), 0);
    assert_eq!(combine(0, 7), 7);
    assert_eq!(combine(u64::MAX, u64::MAX), u128::MAX);
}

#[test]
fn key_round_trip_small() {
    for a in 0..20u64 {
        for b in 0..20u64 {
            let key = combine(a, b);
            assert_eq!(get_first(key), a);
            assert_eq!(get_second(key), b);
        }
    }
}

#[test]
fn key_round_trip_extremes() {
    let values = [0, 1, u64::MAX - 1, u64::MAX, 1 << 63, (1 << 32) - 1, 1 << 32];
    for a in values {
        for b in values {
            let key = combine(a, b);
            assert_eq!(get_first(key), a);
            assert_eq!(get_second(key), b);
        }
    }
}

#[test]
fn key_is_rebuilt_from_its_halves() {
    let keys =
        [0u128, 1, u128::MAX, 1 << 64, (1 << 64) - 1, 0xDEAD_BEEF_0000_0001_0000_0000_0000_0042];
    for key in keys {
        assert_eq!(combine(get_first(key), get_second(key)), key);
    }
}

#[test]
fn different_pairs_have_different_keys() {
    assert_ne!(combine(1, 2), combine(2, 1));
    assert_ne!(combine(0, 1), combine(1, 0));
}
