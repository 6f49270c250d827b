use bnf_parser::grammar::{Expression, ParseError, Rule, BNF};

fn literal(text: &str) -> Expression {
    Expression::Literal(text.to_string())
}

fn rule(name: &str, expressions: Vec<Expression>) -> Rule {
    Rule { name: name.to_string(), expressions }
}

fn digit() -> Rule {
    rule("<digit>", vec![literal("\"0\""), literal("\"1\"")])
}

#[test]
fn empty_document_is_the_empty_grammar() {
    assert_eq!(BNF::parse(String::new()), Ok(BNF { rules: vec![] }));
}

#[test]
fn blank_document_is_the_empty_grammar() {
    assert_eq!(BNF::parse(" \n\n \t\n\n\n ".to_string()), Ok(BNF { rules: vec![] }));
}

#[test]
fn one_rule_with_two_literals() {
    let parsed = BNF::parse("<digit> ::= \"0\" | \"1\"".to_string());
    assert_eq!(parsed, Ok(BNF { rules: vec![digit()] }));
}

#[test]
fn rule_block_with_two_literals() {
    let parsed = Rule::parse_rule("<digit> ::= \"0\" | \"1\"", &vec![]);
    assert_eq!(parsed, Ok(digit()));
}

#[test]
fn reference_holds_the_earlier_rule() {
    let parsed = BNF::parse("<digit> ::= \"0\" | \"1\"\n\n<digits> ::= <digit>".to_string());
    let digits = rule("<digits>", vec![Expression::Reference(digit())]);
    assert_eq!(parsed, Ok(BNF { rules: vec![digit(), digits] }));
}

#[test]
fn rules_keep_document_order() {
    let parsed = BNF::parse(
        "<a> ::= \"x\"\n\n<b> ::= <a>\n\n<c> ::= <a> | <b> | \"z\"".to_string(),
    ).unwrap();
    let names: Vec<&str> = parsed.rules.iter().map(|r| r.name.as_str()).collect();
    assert_eq!(names, vec!["<a>", "<b>", "<c>"]);
    let a = rule("<a>", vec![literal("\"x\"")]);
    let b = rule("<b>", vec![Expression::Reference(a.clone())]);
    assert_eq!(parsed.rules[1], b);
    assert_eq!(
        parsed.rules[2].expressions,
        vec![Expression::Reference(a), Expression::Reference(b), literal("\"z\"")]
    );
}

#[test]
fn undefined_reference_names_the_missing_rule() {
    assert_eq!(
        BNF::parse("<a> ::= <b>".to_string()),
        Err(ParseError::UndefinedReference("<b>".to_string()))
    );
}

#[test]
fn forward_reference_fails() {
    assert_eq!(
        BNF::parse("<a> ::= <b>\n\n<b> ::= \"x\"".to_string()),
        Err(ParseError::UndefinedReference("<b>".to_string()))
    );
}

#[test]
fn self_reference_fails() {
    assert_eq!(
        BNF::parse("<a> ::= \"x\" | <a>".to_string()),
        Err(ParseError::UndefinedReference("<a>".to_string()))
    );
}

#[test]
fn block_without_operator_is_malformed() {
    assert_eq!(BNF::parse("not a rule".to_string()), Err(ParseError::MalformedRule));
    assert_eq!(Rule::parse_rule("not a rule", &vec![]), Err(ParseError::MalformedRule));
}

#[test]
fn empty_block_between_rules_is_malformed() {
    assert_eq!(
        BNF::parse("<a> ::= \"x\"\n\n\n\n<b> ::= \"y\"".to_string()),
        Err(ParseError::MalformedRule)
    );
    assert_eq!(Rule::parse_rule("", &vec![]), Err(ParseError::MalformedRule));
}

#[test]
fn first_failing_block_decides() {
    assert_eq!(
        BNF::parse("oops\n\n<a> ::= <b>".to_string()),
        Err(ParseError::MalformedRule)
    );
    assert_eq!(
        BNF::parse("<a> ::= <b>\n\noops".to_string()),
        Err(ParseError::UndefinedReference("<b>".to_string()))
    );
}

#[test]
fn first_failing_alternative_decides() {
    assert_eq!(
        Rule::parse_rule("<a> ::= \"x\" | | <b>", &vec![]),
        Err(ParseError::EmptyInput)
    );
    assert_eq!(
        Rule::parse_rule("<a> ::= <b> | x", &vec![]),
        Err(ParseError::UndefinedReference("<b>".to_string()))
    );
}

#[test]
fn empty_alternative_is_empty_input() {
    assert_eq!(Rule::parse_rule("<a> ::=", &vec![]), Err(ParseError::EmptyInput));
    assert_eq!(Rule::parse_rule("<a> ::= \"x\" |  ", &vec![]), Err(ParseError::EmptyInput));
    assert_eq!(Expression::parse_expression("", &vec![]), Err(ParseError::EmptyInput));
    assert_eq!(Expression::parse_expression(" \t\n", &vec![]), Err(ParseError::EmptyInput));
}

#[test]
fn unknown_opening_character_matches_no_pattern() {
    assert_eq!(Expression::parse_expression("digit", &vec![]), Err(ParseError::NoPatternMatch));
    assert_eq!(Expression::parse_expression("'0'", &vec![]), Err(ParseError::NoPatternMatch));
    assert_eq!(Rule::parse_rule("<a> ::= 0", &vec![]), Err(ParseError::NoPatternMatch));
}

#[test]
fn literal_is_kept_with_its_quotes() {
    assert_eq!(Expression::parse_expression("  \"0\" ", &vec![]), Ok(literal("\"0\"")));
    assert_eq!(Expression::parse_expression("\"unclosed", &vec![]), Ok(literal("\"unclosed")));
    assert_eq!(Expression::parse_expression("\"", &vec![]), Ok(literal("\"")));
}

#[test]
fn literal_is_never_looked_up() {
    let named_like_a_literal = rule("\"0\"", vec![literal("\"9\"")]);
    assert_eq!(
        Expression::parse_expression("\"0\"", &vec![named_like_a_literal]),
        Ok(literal("\"0\""))
    );
    assert_eq!(Expression::parse_expression("\"<digit>\"", &vec![digit()]), Ok(literal("\"<digit>\"")));
}

#[test]
fn whitespace_inside_a_literal_collapses() {
    assert_eq!(
        Expression::parse_expression("\"a \t\n  b\"", &vec![]),
        Ok(literal("\"a b\""))
    );
}

#[test]
fn single_symbol_is_a_reference() {
    assert_eq!(
        Expression::parse_expression(" <digit>\n", &vec![digit()]),
        Ok(Expression::Reference(digit()))
    );
}

#[test]
fn several_symbols_are_a_sequence() {
    let sign = rule("<sign>", vec![literal("\"-\"")]);
    let rules = vec![digit(), sign.clone()];
    assert_eq!(
        Expression::parse_expression("<sign>   <digit> <digit>", &rules),
        Ok(Expression::Sequence(vec![
            Expression::Reference(sign),
            Expression::Reference(digit()),
            Expression::Reference(digit()),
        ]))
    );
}

#[test]
fn sequence_may_hold_a_literal() {
    assert_eq!(
        Expression::parse_expression("<digit> \".\" <digit>", &vec![digit()]),
        Ok(Expression::Sequence(vec![
            Expression::Reference(digit()),
            literal("\".\""),
            Expression::Reference(digit()),
        ]))
    );
}

#[test]
fn sequence_fails_with_its_first_failing_symbol() {
    assert_eq!(
        Expression::parse_expression("<digit> <x> y", &vec![digit()]),
        Err(ParseError::UndefinedReference("<x>".to_string()))
    );
    assert_eq!(
        Expression::parse_expression("<digit> y <x>", &vec![digit()]),
        Err(ParseError::NoPatternMatch)
    );
}

#[test]
fn one_closing_bracket_makes_one_name() {
    let spaced = rule("<my rule>", vec![literal("\"x\"")]);
    assert_eq!(
        Expression::parse_expression("<my    rule>", &vec![spaced.clone()]),
        Ok(Expression::Reference(spaced))
    );
    assert_eq!(
        Expression::parse_expression("<a <b>", &vec![digit()]),
        Err(ParseError::UndefinedReference("<a <b>".to_string()))
    );
}

#[test]
fn one_word_is_one_name_whatever_its_brackets() {
    assert_eq!(
        Expression::parse_expression("<digit", &vec![digit()]),
        Err(ParseError::UndefinedReference("<digit".to_string()))
    );
    assert_eq!(
        Expression::parse_expression("<a><b>", &vec![digit()]),
        Err(ParseError::UndefinedReference("<a><b>".to_string()))
    );
    let odd = rule("<a>>", vec![literal("\"x\"")]);
    assert_eq!(
        Expression::parse_expression("<a>>", &vec![odd.clone()]),
        Ok(Expression::Reference(odd))
    );
}

#[test]
fn no_closing_bracket_and_two_words_is_a_sequence() {
    assert_eq!(
        Expression::parse_expression("<a \"x\"", &vec![]),
        Err(ParseError::UndefinedReference("<a".to_string()))
    );
}

#[test]
fn rule_name_is_normalized() {
    let parsed = Rule::parse_rule(" \t<my \n  rule>  ::= \"x\"", &vec![]).unwrap();
    assert_eq!(parsed.name, "<my rule>");
    assert_eq!(Rule::parse_name(" \t<my \n  rule>  ::= \"x\""), Ok("<my rule>".to_string()));
}

#[test]
fn name_of_a_block_without_operator_is_the_block() {
    assert_eq!(Rule::parse_name("  not a   rule "), Ok("not a rule".to_string()));
    assert_eq!(Rule::parse_name(""), Ok(String::new()));
}

#[test]
fn text_after_a_second_operator_is_dropped() {
    assert_eq!(
        Rule::parse_rule("<a> ::= \"x\" ::= <b>", &vec![]),
        Ok(rule("<a>", vec![literal("\"x\"")]))
    );
    assert_eq!(Rule::parse_name("<a> ::= \"x\" ::= <b>"), Ok("<a>".to_string()));
}

#[test]
fn empty_name_is_accepted() {
    assert_eq!(Rule::parse_rule("::= \"x\"", &vec![]), Ok(rule("", vec![literal("\"x\"")])));
}

#[test]
fn lookup_takes_the_first_rule_of_a_name() {
    let first = rule("<a>", vec![literal("\"1\"")]);
    let second = rule("<a>", vec![literal("\"2\"")]);
    let rules = vec![digit(), first.clone(), second];
    assert_eq!(Expression::get_rule("<a>", &rules), Ok(first.clone()));
    assert_eq!(Expression::parse_expression("<a>", &rules), Ok(Expression::Reference(first)));
}

#[test]
fn lookup_compares_the_name_as_given() {
    let rules = vec![digit()];
    assert_eq!(Expression::get_rule("<digit>", &rules), Ok(digit()));
    assert_eq!(
        Expression::get_rule(" <digit>", &rules),
        Err(ParseError::UndefinedReference(" <digit>".to_string()))
    );
    assert_eq!(
        Expression::get_rule("digit", &rules),
        Err(ParseError::UndefinedReference("digit".to_string()))
    );
    assert_eq!(
        Expression::get_rule("<digit>", &vec![]),
        Err(ParseError::UndefinedReference("<digit>".to_string()))
    );
}

#[test]
fn duplicate_names_are_kept_and_the_first_is_referred_to() {
    let parsed = BNF::parse(
        "<a> ::= \"1\"\n\n<a> ::= \"2\"\n\n<b> ::= <a>".to_string(),
    ).unwrap();
    assert_eq!(parsed.rules.len(), 3);
    let first = rule("<a>", vec![literal("\"1\"")]);
    assert_eq!(parsed.rules[2].expressions, vec![Expression::Reference(first)]);
}

#[test]
fn single_line_break_does_not_end_a_block() {
    let parsed = BNF::parse("<a> ::= \"x\"\n  | \"y\"".to_string()).unwrap();
    assert_eq!(parsed.rules, vec![rule("<a>", vec![literal("\"x\""), literal("\"y\"")])]);
}

#[test]
fn three_line_breaks_leave_one_in_the_next_block() {
    let parsed = BNF::parse("<a> ::= \"x\"\n\n\n<b> ::= <a>".to_string()).unwrap();
    assert_eq!(parsed.rules[1].name, "<b>");
}

#[test]
fn copies_equal_what_they_copy() {
    let nested = Expression::Sequence(vec![Expression::Reference(digit()), literal("\"x\"")]);
    assert_eq!(nested.clone(), nested);
    let outer = rule("<outer>", vec![nested, Expression::Reference(digit())]);
    assert_eq!(outer.clone(), outer);
}

#[test]
fn messages_describe_the_errors() {
    assert_eq!(ParseError::EmptyInput.message(), "Empty string\n");
    assert_eq!(ParseError::NoPatternMatch.message(), "No pattern match\n");
    assert_eq!(
        ParseError::UndefinedReference("<b>".to_string()).message(),
        "Rule '<b>' not found\n"
    );
    assert_eq!(ParseError::MalformedRule.message(), "Malformed rule\n");
}
