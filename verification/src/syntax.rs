//! The notation, as functions from text to the value it stands for.

use crate::grammar::{ExpressionView, ParseErrorView, RuleView};
use crate::pattern::{count, split};
use crate::results::collect;
use crate::text::{is_blank, normalize, words};
use vstd::prelude::*;

verus! {

/// The operator between a rule's name and its alternatives: `::=`.
pub open spec fn define_operator() -> Seq<char> {
    seq![':', ':', '=']
}

/// The operator between two alternatives: `|`.
pub open spec fn alternation() -> Seq<char> {
    seq!['|']
}

/// The separator between two rule blocks: an empty line.
pub open spec fn blank_line() -> Seq<char> {
    seq!['\n', '\n']
}

/// The first of `rules` that is named `name`, if there is one.
pub open spec fn lookup(name: Seq<char>, rules: Seq<RuleView>) -> Option<RuleView>
    decreases rules.len(),
{
    if rules.len() == 0 {
        None
    } else if rules[0].name == name {
        Some(rules[0])
    } else {
        lookup(name, rules.drop_first())
    }
}

/// The rule that `name` refers to, or the error that names what is missing.
pub open spec fn resolve(name: Seq<char>, rules: Seq<RuleView>) -> Result<
    RuleView,
    ParseErrorView,
> {
    match lookup(name, rules) {
        Some(rule) => Ok(rule),
        None => Err(ParseErrorView::UndefinedReference(name)),
    }
}

/// A symbol that opens with a quote.
pub open spec fn is_literal(t: Seq<char>) -> bool {
    t.len() > 0 && t[0] == '"'
}

/// A symbol that opens with an angle bracket.
pub open spec fn is_reference(t: Seq<char>) -> bool {
    t.len() > 0 && t[0] == '<'
}

/// What one symbol stands for. `t` is taken as it is: a quote opens a
/// literal, which is kept whole, quotes included; an angle bracket opens a
/// reference, and the whole of `t` is the name that is looked up.
pub open spec fn symbol_of(t: Seq<char>, rules: Seq<RuleView>) -> Result<
    ExpressionView,
    ParseErrorView,
> {
    if t.len() == 0 {
        Err(ParseErrorView::EmptyInput)
    } else if is_literal(t) {
        Ok(ExpressionView::Literal(t))
    } else if is_reference(t) {
        match resolve(t, rules) {
            Ok(rule) => Ok(ExpressionView::Reference(rule)),
            Err(e) => Err(e),
        }
    } else {
        Err(ParseErrorView::NoPatternMatch)
    }
}

/// Whether the normalized text `t` is a chain of symbols: it opens with an
/// angle bracket, does not hold exactly one closing bracket, and has two
/// words or more.
pub open spec fn is_chain(t: Seq<char>) -> bool {
    is_reference(t) && count(t, '>') != 1 && words(t).len() >= 2
}

/// What each of `parts` stands for as a symbol.
pub open spec fn symbols_of(parts: Seq<Seq<char>>, rules: Seq<RuleView>) -> Seq<
    Result<ExpressionView, ParseErrorView>,
> {
    parts.map_values(|w: Seq<char>| symbol_of(w, rules))
}

/// What one alternative stands for: a chain of symbols gives a sequence with
/// one part for each word, anything else is one symbol.
pub open spec fn expression_of(text: Seq<char>, rules: Seq<RuleView>) -> Result<
    ExpressionView,
    ParseErrorView,
> {
    let t = normalize(text);
    if is_chain(t) {
        match collect(symbols_of(words(t), rules)) {
            Ok(parts) => Ok(ExpressionView::Sequence(parts)),
            Err(e) => Err(e),
        }
    } else {
        symbol_of(t, rules)
    }
}

/// What each of `alternatives` stands for.
pub open spec fn expressions_of(alternatives: Seq<Seq<char>>, rules: Seq<RuleView>) -> Seq<
    Result<ExpressionView, ParseErrorView>,
> {
    alternatives.map_values(|a: Seq<char>| expression_of(a, rules))
}

/// The name that a rule block defines: what stands before the first defining
/// operator, normalized.
pub open spec fn name_of(block: Seq<char>) -> Seq<char> {
    normalize(split(block, define_operator())[0])
}

/// The alternatives of a rule block: the pieces between the first defining
/// operator and the next one (or the end), cut at the alternation operator.
pub open spec fn alternatives_of(block: Seq<char>) -> Seq<Seq<char>> {
    split(split(block, define_operator())[1], alternation())
}

/// Whether a rule block holds the defining operator.
pub open spec fn has_definition(block: Seq<char>) -> bool {
    split(block, define_operator()).len() >= 2
}

/// The rule that a block defines, given the rules before it.
pub open spec fn rule_of(block: Seq<char>, rules: Seq<RuleView>) -> Result<
    RuleView,
    ParseErrorView,
> {
    if !has_definition(block) {
        Err(ParseErrorView::MalformedRule)
    } else {
        match collect(expressions_of(alternatives_of(block), rules)) {
            Ok(expressions) => Ok(RuleView { name: name_of(block), expressions }),
            Err(e) => Err(e),
        }
    }
}

/// The rules that `blocks` define, each read with the rules of the blocks
/// before it; the first block that fails gives the error.
pub open spec fn rules_of(blocks: Seq<Seq<char>>) -> Result<Seq<RuleView>, ParseErrorView>
    decreases blocks.len(),
{
    if blocks.len() == 0 {
        Ok(Seq::empty())
    } else {
        match rules_of(blocks.drop_last()) {
            Err(e) => Err(e),
            Ok(rules) => match rule_of(blocks.last(), rules) {
                Ok(rule) => Ok(rules.push(rule)),
                Err(e) => Err(e),
            },
        }
    }
}

/// The rule blocks of a document: its pieces between blank lines.
pub open spec fn blocks_of(document: Seq<char>) -> Seq<Seq<char>> {
    split(document, blank_line())
}

/// The grammar that a document describes. A document of nothing but
/// whitespace describes the grammar without rules.
pub open spec fn grammar_of(document: Seq<char>) -> Result<Seq<RuleView>, ParseErrorView> {
    if is_blank(document) {
        Ok(Seq::empty())
    } else {
        rules_of(blocks_of(document))
    }
}

} // verus!
