use selector::{selector_from_digest, Selector, SelectorError};

#[test]
fn test_non_empty_function_name() {
    let selector = Selector::new("transfer(address,uint256)".to_string());
    let result = selector.turn_function_name_to_bytes().unwrap();
    assert_eq!("a9059cbb", result);
}

#[test]
fn new_stores_normalized_signature() {
    let selector = Selector::new("function transfer(address recipient, uint256 amount)".to_string());
    assert_eq!(selector.function_name, "transfer(address,uint256)");
    assert_eq!(selector.turn_function_name_to_bytes().unwrap(), "a9059cbb");
}

#[test]
fn new_stores_sentinel_for_invalid_input() {
    let selector = Selector::new(String::new());
    assert_eq!(selector.function_name, "Error: Invalid function signature.");
}

#[test]
fn empty_signature_is_invalid_input() {
    let selector = Selector { function_name: String::new() };
    match selector.turn_function_name_to_bytes() {
        Err(SelectorError::InvalidInput(m)) => assert_eq!(m, "Function name is empty."),
        other => panic!("unexpected {:?}", other),
    }
}

#[test]
fn known_selectors() {
    let cases = [
        ("approve(address,uint256)", "095ea7b3"),
        ("balanceOf(address)", "70a08231"),
        ("transferFrom(address,address,uint256)", "23b872dd"),
        ("totalSupply()", "18160ddd"),
    ];
    for (sig, hex) in cases {
        let selector = Selector { function_name: sig.to_string() };
        assert_eq!(selector.turn_function_name_to_bytes().unwrap(), hex);
    }
}

#[test]
fn hashing_is_deterministic() {
    let a = Selector::new("function approve(address spender, uint256 value)".to_string());
    let b = Selector::new("function approve(address spender, uint256 value)".to_string());
    let ra = a.turn_function_name_to_bytes().unwrap();
    let rb = b.turn_function_name_to_bytes().unwrap();
    assert_eq!(ra, rb);
    assert_eq!(ra, a.turn_function_name_to_bytes().unwrap());
}

#[test]
fn selector_is_eight_lowercase_hex_digits() {
    for raw in ["foo()", "", "x(y", "Transfer(ADDRESS)", "\u{e9}t\u{e9}(uint8)"] {
        let hex = Selector::new(raw.to_string()).turn_function_name_to_bytes().unwrap();
        assert_eq!(hex.len(), 8);
        assert!(hex.chars().all(|c| c.is_ascii_digit() || ('a'..='f').contains(&c)));
    }
}

#[test]
fn selector_matches_keccak_prefix() {
    let digest = alloy::primitives::keccak256("balanceOf(address)");
    let hex = selector_from_digest(&digest.0.to_vec());
    assert_eq!(hex, "70a08231");
}

#[test]
fn selector_from_digest_takes_first_four_bytes() {
    let digest = vec![0x00, 0x01, 0xfe, 0x10, 0xff, 0xaa];
    assert_eq!(selector_from_digest(&digest), "0001fe10");
    let digest = vec![0xa9, 0x05, 0x9c, 0xbb];
    assert_eq!(selector_from_digest(&digest), "a9059cbb");
}

#[test]
fn error_texts() {
    let e = SelectorError::InvalidInput("Function name is empty.".to_string());
    assert_eq!(e.to_string(), "Invalid input: Function name is empty.");
    let e = SelectorError::Utf8Error("bad byte".to_string());
    assert_eq!(e.to_string(), "UTF-8 conversion error: bad byte");
}
