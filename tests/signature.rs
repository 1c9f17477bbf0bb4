use selector::parse_the_function;

#[test]
fn test_valid_input_with_function_keyword() {
    let signature = "function transfer(address recipient, uint256 amount)";
    let expected = "transfer(address,uint256)";
    let output = parse_the_function(signature);
    assert_eq!(output, expected);
}

#[test]
fn canonical_signature_is_unchanged() {
    assert_eq!(parse_the_function("transfer(address,uint256)"), "transfer(address,uint256)");
}

#[test]
fn normalize_is_idempotent_on_examples() {
    for raw in [
        "transfer(address,uint256)",
        "foo()",
        "",
        "function approve( address spender , uint256 value ) external returns (bool)",
        "  balanceOf(address)  ",
        "f((uint256,address))",
    ] {
        let once = parse_the_function(raw);
        assert_eq!(parse_the_function(&once), once);
    }
}

#[test]
fn empty_input_is_invalid() {
    assert_eq!(parse_the_function(""), "Error: Invalid function signature.");
}

#[test]
fn input_without_parenthesis_is_invalid() {
    assert_eq!(parse_the_function("   transfer   "), "Error: Invalid function signature.");
}

#[test]
fn empty_parameter_list_gives_unknown() {
    assert_eq!(parse_the_function("foo()"), "foo(unknown)");
}

#[test]
fn missing_closing_parenthesis_is_parsed_as_parameters() {
    assert_eq!(
        parse_the_function("foo(address a"),
        "foo(Error:)"
    );
}

#[test]
fn name_is_last_token_before_parenthesis() {
    assert_eq!(
        parse_the_function("function uint256 totalSupply ()"),
        "totalSupply(unknown)"
    );
}

#[test]
fn blank_parameters_become_unknown() {
    assert_eq!(parse_the_function("f(a, ,b,)"), "f(a,unknown,b,unknown)");
}

#[test]
fn unicode_white_space_is_trimmed() {
    assert_eq!(
        parse_the_function("\u{3000}function\u{a0}g(\tuint8\u{2003}x\n)\u{85}"),
        "g(uint8)"
    );
}

#[test]
fn no_name_before_parenthesis() {
    assert_eq!(parse_the_function("(uint8 a)"), "(uint8)");
}
