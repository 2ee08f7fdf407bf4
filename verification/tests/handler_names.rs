use yogurt::contract::{parse_handler_name, snake_to_camel};

#[test]
fn test_snake_to_camel() {
    assert_eq!(snake_to_camel("handle_transfer"), "handleTransfer");
    assert_eq!(snake_to_camel("handle_pair_created"), "handlePairCreated");
    assert_eq!(snake_to_camel("on_block"), "onBlock");
    assert_eq!(snake_to_camel("simple"), "simple");
}

#[test]
fn test_parse_handler_name() {
    assert_eq!(
        parse_handler_name("", "handle_transfer"),
        "handleTransfer"
    );
    assert_eq!(
        parse_handler_name("name = \"customHandler\"", "handle_transfer"),
        "customHandler"
    );
}

#[test]
fn snake_to_camel_edge_cases() {
    assert_eq!(snake_to_camel(""), "");
    assert_eq!(snake_to_camel("_"), "");
    assert_eq!(snake_to_camel("_leading"), "Leading");
    assert_eq!(snake_to_camel("trailing_"), "trailing");
    assert_eq!(snake_to_camel("double__underscore"), "doubleUnderscore");
    assert_eq!(snake_to_camel("with_1_digit"), "with1Digit");
    assert_eq!(snake_to_camel("already_Upper"), "alreadyUpper");
    assert_eq!(snake_to_camel("é_é"), "éé");
    assert_eq!(snake_to_camel("a_z"), "aZ");
}

#[test]
fn parse_handler_name_falls_back() {
    assert_eq!(parse_handler_name("name", "on_block"), "onBlock");
    assert_eq!(parse_handler_name("name = ", "on_block"), "onBlock");
    assert_eq!(parse_handler_name("name = \"open", "on_block"), "onBlock");
    assert_eq!(parse_handler_name("other = \"x\"", "on_block"), "onBlock");
    assert_eq!(parse_handler_name("= \"x\" name", "on_block"), "onBlock");
}

#[test]
fn parse_handler_name_takes_first_quoted() {
    assert_eq!(parse_handler_name("name=\"\"", "on_block"), "");
    assert_eq!(parse_handler_name("rename = \"a\", x = \"b\"", "on_block"), "a");
    assert_eq!(parse_handler_name("x, name  =  \"é v\" , \"w\"", "on_block"), "é v");
    assert_eq!(parse_handler_name("name \"q\" = \"r\"", "on_block"), "r");
}
