use server_tan::access_token::AccessToken;
use server_tan::order::str_le;
use server_tan::signature::{check_signature, signature_input, signature_matches};

#[test]
fn signature_of_sorted_parts() {
    assert_eq!(signature_input("SECRET", "1234567890", "abcdef"), "1234567890SECRETabcdef");
    assert!(check_signature("SECRET", "e63c9cc0089ad6a12993619b8d281268361f8a49", "1234567890", "abcdef"));
    assert!(!check_signature("SECRET", "e63c9cc0089ad6a12993619b8d281268361f8a48", "1234567890", "abcdef"));
    assert!(check_signature("token", "6d7149e287208afb17c14861c125053fd80c0f86", "1", "2"));
}

#[test]
fn input_order_covers_every_permutation() {
    let parts = ["b", "a", "c"];
    for (x, y, z) in [(0, 1, 2), (0, 2, 1), (1, 0, 2), (1, 2, 0), (2, 0, 1), (2, 1, 0)] {
        assert_eq!(signature_input(parts[x], parts[y], parts[z]), "abc");
    }
    assert_eq!(signature_input("ab", "a", "b"), "aabb");
}

#[test]
fn string_order_matches_str() {
    for (a, b) in [("", ""), ("a", ""), ("", "a"), ("ab", "a"), ("a", "ab"), ("B", "a"), ("é", "z"), ("abc", "abd")] {
        assert_eq!(str_le(a, b), a <= b, "{:?} {:?}", a, b);
    }
    assert!(signature_matches("x1", "x1"));
    assert!(!signature_matches("x1", "x2"));
}

#[test]
fn token_expiry() {
    let t = AccessToken { access_token: "t".to_string(), expires: 1000 };
    assert!(!t.is_expired(999));
    assert!(t.is_expired(1000));
    assert!(t.is_expired(1001));
}
