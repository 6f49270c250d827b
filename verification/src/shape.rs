//! The shape of what a parse hands back.

use crate::grammar::{ExpressionView, ParseErrorView, RuleView};
use crate::references::{lemma_lookup, lemma_rules_in_order};
use crate::results::{collect, lemma_collect_ok};
use crate::syntax::{
    alternation, alternatives_of, blocks_of, define_operator, expression_of,
    expressions_of, grammar_of, is_chain, is_literal, is_reference, lookup, name_of, rule_of,
    rules_of, symbol_of, symbols_of,
};
use crate::pattern::{lemma_split_has_piece, split};
use crate::text::{is_blank, normalize, words};
use vstd::prelude::*;

verus! {

/// A single symbol as a parse leaves it: a literal that opens with a quote,
/// or a reference that holds the first of `rules` under a name that opens
/// with an angle bracket.
pub open spec fn symbol_shaped(e: ExpressionView, rules: Seq<RuleView>) -> bool {
    match e {
        ExpressionView::Literal(text) => is_literal(text),
        ExpressionView::Reference(rule) => is_reference(rule.name) && lookup(rule.name, rules)
            == Some(rule),
        ExpressionView::Sequence(_) => false,
    }
}

/// An alternative as a parse leaves it: a single symbol, or a sequence of
/// two or more single symbols.
pub open spec fn expression_shaped(e: ExpressionView, rules: Seq<RuleView>) -> bool {
    match e {
        ExpressionView::Sequence(parts) => parts.len() >= 2 && forall|i: int|
            0 <= i < parts.len() ==> symbol_shaped(#[trigger] parts[i], rules),
        _ => symbol_shaped(e, rules),
    }
}

/// A rule as a parse leaves it: at least one alternative, and each of them
/// shaped as above.
pub open spec fn rule_shaped(rule: RuleView, rules: Seq<RuleView>) -> bool {
    rule.expressions.len() >= 1 && forall|a: int|
        0 <= a < rule.expressions.len() ==> expression_shaped(#[trigger] rule.expressions[a], rules)
}

/// A grammar as a parse leaves it: every reference in a rule holds a rule
/// that stands before it.
pub open spec fn grammar_shaped(rules: Seq<RuleView>) -> bool {
    forall|k: int| 0 <= k < rules.len() ==> rule_shaped(#[trigger] rules[k], rules.take(k))
}

/// A symbol that was read has the shape of a symbol.
pub proof fn lemma_symbol_shaped(t: Seq<char>, rules: Seq<RuleView>)
    requires
        symbol_of(t, rules) is Ok,
    ensures
        symbol_shaped(symbol_of(t, rules)->Ok_0, rules),
{
    lemma_lookup(t, rules);
}

/// An alternative that was read has the shape of an alternative.
pub proof fn lemma_expression_shaped(text: Seq<char>, rules: Seq<RuleView>)
    requires
        expression_of(text, rules) is Ok,
    ensures
        expression_shaped(expression_of(text, rules)->Ok_0, rules),
{
    let t = normalize(text);
    if is_chain(t) {
        let results = symbols_of(words(t), rules);
        lemma_collect_ok(results);
        let parts = collect(results)->Ok_0;
        assert forall|i: int| 0 <= i < parts.len() implies symbol_shaped(
            #[trigger] parts[i],
            rules,
        ) by {
            assert(results[i] == symbol_of(words(t)[i], rules));
            lemma_symbol_shaped(words(t)[i], rules);
        }
    } else {
        lemma_symbol_shaped(t, rules);
    }
}

/// A rule that was read has the name of its block and the shape of a rule.
pub proof fn lemma_rule_shaped(block: Seq<char>, rules: Seq<RuleView>)
    requires
        rule_of(block, rules) is Ok,
    ensures
        rule_of(block, rules)->Ok_0.name == name_of(block),
        rule_of(block, rules)->Ok_0.expressions.len() == alternatives_of(block).len(),
        rule_shaped(rule_of(block, rules)->Ok_0, rules),
{
    let alternatives = alternatives_of(block);
    let results = expressions_of(alternatives, rules);
    lemma_split_has_piece(split(block, define_operator())[1], alternation());
    lemma_collect_ok(results);
    let expressions = collect(results)->Ok_0;
    assert forall|a: int| 0 <= a < expressions.len() implies expression_shaped(
        #[trigger] expressions[a],
        rules,
    ) by {
        assert(results[a] == expression_of(alternatives[a], rules));
        lemma_expression_shaped(alternatives[a], rules);
    }
}

/// Rules that were read from a list of blocks have the shape of a grammar.
pub proof fn lemma_rules_shaped(blocks: Seq<Seq<char>>)
    requires
        rules_of(blocks) is Ok,
    ensures
        grammar_shaped(rules_of(blocks)->Ok_0),
{
    let rules = rules_of(blocks)->Ok_0;
    lemma_rules_in_order(blocks);
    assert forall|k: int| 0 <= k < rules.len() implies rule_shaped(
        #[trigger] rules[k],
        rules.take(k),
    ) by {
        assert(rule_of(blocks[k], rules.take(k)) == Ok::<RuleView, ParseErrorView>(rules[k]));
        lemma_rule_shaped(blocks[k], rules.take(k));
    }
}

/// The grammar that a document describes has the shape of a grammar: every
/// rule has an alternative, every literal opens with a quote, every
/// reference holds a rule that stands before the rule it is in, and the
/// parts of a sequence are single symbols.
pub proof fn law_grammar_shaped(document: Seq<char>)
    requires
        grammar_of(document) is Ok,
    ensures
        grammar_shaped(grammar_of(document)->Ok_0),
{
    if !is_blank(document) {
        lemma_rules_shaped(blocks_of(document));
    }
}

} // verus!
