use chatproto::workproof::{gen_workproof, get_leading, verify_workproof};

#[test]
fn leading_zeroes() {
    assert_eq!(get_leading(&[]), 0);
    assert_eq!(get_leading(&[0]), 8);
    assert_eq!(get_leading(&[1]), 7);
    assert_eq!(get_leading(&[128]), 0);
    assert_eq!(get_leading(&[64]), 1);
    assert_eq!(get_leading(&[0, 0, 64, 12]), 17);
}

#[test]
fn find_workproof_easy() {
    assert_eq!(gen_workproof(161566988, 8, u128::MAX), Some(186));
}

#[test]
fn find_workproof_impossible() {
    assert_eq!(gen_workproof(161566988, 8, 100), None);
}

#[test]
fn leading_zeroes_of_each_bit() {
    assert_eq!(get_leading(&[255]), 0);
    assert_eq!(get_leading(&[32]), 2);
    assert_eq!(get_leading(&[16]), 3);
    assert_eq!(get_leading(&[8]), 4);
    assert_eq!(get_leading(&[4]), 5);
    assert_eq!(get_leading(&[2]), 6);
    assert_eq!(get_leading(&[0, 0]), 16);
    assert_eq!(get_leading(&[0, 3, 0]), 14);
}

#[test]
fn generated_workproof_verifies() {
    for nonce in [0u128, 1, 161566988, u128::MAX] {
        for strength in [0u32, 1, 4, 8] {
            let start = gen_workproof(nonce, strength, u128::MAX).unwrap();
            assert!(verify_workproof(nonce, start, strength));
            for below in 0..start {
                assert!(!verify_workproof(nonce, below, strength));
            }
        }
    }
}

#[test]
fn workproof_of_known_nonce() {
    assert!(verify_workproof(161566988, 186, 8));
    assert!(!verify_workproof(161566988, 185, 8));
    assert!(verify_workproof(161566988, 185, 0));
    assert_eq!(gen_workproof(161566988, 8, 187), Some(186));
    assert_eq!(gen_workproof(161566988, 8, 186), None);
    assert_eq!(gen_workproof(161566988, 0, 1), Some(0));
    assert_eq!(gen_workproof(161566988, 0, 0), None);
}
