//! The readers: for a document, for a rule block and for an alternative.

use crate::chars::{to_chars, to_string};
use crate::grammar::{
    expression_views, lemma_rule_view, lemma_rule_views_push, lemma_sequence_view,
    lemma_views_push, rule_views, Expression, ExpressionView, ParseError, ParseErrorView, Rule,
    RuleView, BNF,
};
use crate::references::lemma_rules_error;
use crate::results::{collect, lemma_collect_error, lemma_collect_step, result_view};
use crate::pattern::{count_char, lemma_split_has_piece, split_at_pattern};
use crate::shape::{
    expression_shaped, grammar_shaped, law_grammar_shaped, lemma_expression_shaped,
    lemma_rule_shaped, lemma_symbol_shaped, rule_shaped, symbol_shaped,
};
use crate::syntax::{
    alternation, alternatives_of, blank_line, blocks_of, define_operator, expression_of,
    expressions_of, grammar_of, has_definition, is_chain, lookup, name_of, resolve, rule_of,
    rules_of, symbol_of, symbols_of,
};
use crate::text::{is_blank, is_blank_chars, normalize, normalize_chars, rows, split_words, words};
use vstd::prelude::*;

verus! {

impl Expression {
    /// Looks `name` up among `rules` and hands back a copy of the first rule
    /// of that name. `name` is compared as it is given.
    pub fn get_rule(name: &str, rules: &Vec<Rule>) -> (r: Result<Rule, ParseError>)
        ensures
            result_view(r) == resolve(name@, rule_views(rules@)),
    {
        let key = name.to_owned();
        let ghost all = rule_views(rules@);
        let mut i: usize = 0;
        assert(all.skip(0) =~= all);
        while i < rules.len()
            invariant
                i <= rules.len(),
                key@ == name@,
                all == rule_views(rules@),
                lookup(name@, all) == lookup(name@, all.skip(i as int)),
            decreases rules.len() - i,
        {
            proof {
                lemma_rule_view(rules[i as int]);
                assert(all.skip(i as int)[0] == rules[i as int]@);
                assert(all.skip(i as int).drop_first() =~= all.skip(i + 1));
            }
            if rules[i].name == key {
                return Ok(rules[i].clone());
            }
            i += 1;
        }
        Err(ParseError::UndefinedReference(key))
    }

    /// Reads one symbol: a literal or a reference. `t` is taken as it is.
    pub fn parse_symbol(t: &[char], rules: &Vec<Rule>) -> (r: Result<Expression, ParseError>)
        ensures
            result_view(r) == symbol_of(t@, rule_views(rules@)),
            r matches Ok(e) ==> symbol_shaped(e@, rule_views(rules@)),
    {
        proof {
            if symbol_of(t@, rule_views(rules@)) is Ok {
                lemma_symbol_shaped(t@, rule_views(rules@));
            }
        }
        if t.len() == 0 {
            Err(ParseError::EmptyInput)
        } else if t[0] == '"' {
            Ok(Expression::Literal(to_string(t)))
        } else if t[0] == '<' {
            let name = to_string(t);
            match Self::get_rule(name.as_str(), rules) {
                Ok(rule) => Ok(Expression::Reference(rule)),
                Err(e) => Err(e),
            }
        } else {
            Err(ParseError::NoPatternMatch)
        }
    }

    /// Reads one alternative from its characters.
    ///
    /// The text is normalized first. Nothing left is `EmptyInput`. A quote at
    /// the start makes the whole text a literal. An angle bracket at the
    /// start makes it a reference, and the whole text is the name looked up,
    /// if the text holds exactly one closing bracket or is a single word;
    /// otherwise every word is read as a symbol of its own and the result is
    /// a sequence, which fails as its first failing symbol does. Any other
    /// start is `NoPatternMatch`.
    pub fn parse_chars(text: &[char], rules: &Vec<Rule>) -> (r: Result<Expression, ParseError>)
        ensures
            result_view(r) == expression_of(text@, rule_views(rules@)),
            r matches Ok(e) ==> expression_shaped(e@, rule_views(rules@)),
    {
        proof {
            if expression_of(text@, rule_views(rules@)) is Ok {
                lemma_expression_shaped(text@, rule_views(rules@));
            }
        }
        let t = normalize_chars(text);
        if t.len() > 0 && t[0] == '<' && count_char(t.as_slice(), '>') != 1 {
            let ws = split_words(t.as_slice());
            if ws.len() >= 2 {
                let ghost results = symbols_of(rows(ws@), rule_views(rules@));
                let mut parts: Vec<Expression> = Vec::new();
                let mut k: usize = 0;
                proof {
                    assert(results.take(0) =~= Seq::empty());
                    assert(expression_views(parts@) =~= Seq::empty());
                }
                while k < ws.len()
                    invariant
                        k <= ws.len(),
                        is_chain(normalize(text@)),
                        rows(ws@) == words(normalize(text@)),
                        results == symbols_of(rows(ws@), rule_views(rules@)),
                        collect(results.take(k as int)) == Ok::<
                            Seq<ExpressionView>,
                            ParseErrorView,
                        >(expression_views(parts@)),
                    decreases ws.len() - k,
                {
                    proof {
                        lemma_collect_step(results, k as int);
                        assert(results[k as int] == symbol_of(ws[k as int]@, rule_views(rules@)));
                    }
                    match Self::parse_symbol(ws[k].as_slice(), rules) {
                        Ok(e) => {
                            proof {
                                lemma_views_push(parts@, e);
                            }
                            parts.push(e);
                        },
                        Err(e) => {
                            proof {
                                lemma_collect_error(results, k + 1);
                            }
                            return Err(e);
                        },
                    }
                    k += 1;
                }
                proof {
                    assert(results.take(k as int) =~= results);
                    lemma_sequence_view(parts);
                }
                return Ok(Expression::Sequence(parts));
            }
        }
        Self::parse_symbol(t.as_slice(), rules)
    }

    /// Reads one alternative of a rule's right-hand side, as `parse_chars`
    /// does. `rules` are the rules that a reference may name; a name that is
    /// not among them is `UndefinedReference`.
    pub fn parse_expression(value: &str, rules: &Vec<Rule>) -> (r: Result<Expression, ParseError>)
        ensures
            result_view(r) == expression_of(value@, rule_views(rules@)),
            r matches Ok(e) ==> expression_shaped(e@, rule_views(rules@)),
    {
        let text = to_chars(value);
        Self::parse_chars(text.as_slice(), rules)
    }
}

impl Rule {
    /// The name that a rule block defines: what stands before its first
    /// defining operator, normalized. A block without the operator is taken
    /// whole. This never fails.
    pub fn parse_name(value: &str) -> (r: Result<String, ParseError>)
        ensures
            r is Ok,
            r->Ok_0@ == name_of(value@),
    {
        let block = to_chars(value);
        let operator: Vec<char> = vec![':', ':', '='];
        assert(operator@ =~= define_operator());
        let parts = split_at_pattern(block.as_slice(), operator.as_slice());
        proof {
            lemma_split_has_piece(block@, operator@);
        }
        let name = normalize_chars(parts[0].as_slice());
        Ok(to_string(name.as_slice()))
    }

    /// Reads one rule block from its characters.
    ///
    /// A block without the defining operator is `MalformedRule`. The name is
    /// what stands before the first operator, normalized, brackets included.
    /// What stands between the first operator and the next one, or the end,
    /// is cut at every `|`, and each piece is read as an alternative with
    /// `rules` at hand; the first that fails gives the error.
    pub fn parse_chars(block: &[char], rules: &Vec<Rule>) -> (r: Result<Rule, ParseError>)
        ensures
            result_view(r) == rule_of(block@, rule_views(rules@)),
            r matches Ok(rule) ==> rule_shaped(rule@, rule_views(rules@)),
    {
        proof {
            if rule_of(block@, rule_views(rules@)) is Ok {
                lemma_rule_shaped(block@, rule_views(rules@));
            }
        }
        let operator: Vec<char> = vec![':', ':', '='];
        assert(operator@ =~= define_operator());
        let parts = split_at_pattern(block, operator.as_slice());
        if parts.len() < 2 {
            return Err(ParseError::MalformedRule);
        }
        let name = to_string(normalize_chars(parts[0].as_slice()).as_slice());
        let bar: Vec<char> = vec!['|'];
        assert(bar@ =~= alternation());
        let alternatives = split_at_pattern(parts[1].as_slice(), bar.as_slice());
        let ghost results = expressions_of(rows(alternatives@), rule_views(rules@));
        let mut expressions: Vec<Expression> = Vec::new();
        let mut k: usize = 0;
        proof {
            assert(results.take(0) =~= Seq::empty());
            assert(expression_views(expressions@) =~= Seq::empty());
        }
        while k < alternatives.len()
            invariant
                k <= alternatives.len(),
                has_definition(block@),
                name@ == name_of(block@),
                rows(alternatives@) == alternatives_of(block@),
                results == expressions_of(rows(alternatives@), rule_views(rules@)),
                collect(results.take(k as int)) == Ok::<Seq<ExpressionView>, ParseErrorView>(
                    expression_views(expressions@),
                ),
            decreases alternatives.len() - k,
        {
            proof {
                lemma_collect_step(results, k as int);
                assert(results[k as int] == expression_of(
                    alternatives[k as int]@,
                    rule_views(rules@),
                ));
            }
            match Expression::parse_chars(alternatives[k].as_slice(), rules) {
                Ok(e) => {
                    proof {
                        lemma_views_push(expressions@, e);
                    }
                    expressions.push(e);
                },
                Err(e) => {
                    proof {
                        lemma_collect_error(results, k + 1);
                    }
                    return Err(e);
                },
            }
            k += 1;
        }
        let rule = Rule { name, expressions };
        proof {
            assert(results.take(k as int) =~= results);
            lemma_rule_view(rule);
        }
        Ok(rule)
    }

    /// Reads one rule block, as `parse_chars` does: a name, the defining
    /// operator and the alternatives. `rules` are the rules that a reference
    /// may name.
    pub fn parse_rule(value: &str, rules: &Vec<Rule>) -> (r: Result<Rule, ParseError>)
        ensures
            result_view(r) == rule_of(value@, rule_views(rules@)),
            r matches Ok(rule) ==> rule_shaped(rule@, rule_views(rules@)),
    {
        let block = to_chars(value);
        Self::parse_chars(block.as_slice(), rules)
    }
}

impl BNF {
    /// Reads a grammar from the characters of a document.
    ///
    /// A document of nothing but whitespace gives the grammar without rules.
    /// Any other document is cut at every empty line, and each block is read
    /// as a rule with the rules before it at hand, so that a rule can refer
    /// only to rules defined earlier. The first block that fails gives the
    /// error, and no rules are handed back.
    pub fn parse_chars(document: &[char]) -> (r: Result<BNF, ParseError>)
        ensures
            result_view(r) == grammar_of(document@),
            r matches Ok(grammar) ==> grammar_shaped(grammar@),
    {
        proof {
            if grammar_of(document@) is Ok {
                law_grammar_shaped(document@);
            }
        }
        if is_blank_chars(document) {
            let empty = BNF { rules: Vec::new() };
            assert(empty@ =~= Seq::empty());
            return Ok(empty);
        }
        let separator: Vec<char> = vec!['\n', '\n'];
        assert(separator@ =~= blank_line());
        let blocks = split_at_pattern(document, separator.as_slice());
        let mut rules: Vec<Rule> = Vec::new();
        let mut k: usize = 0;
        proof {
            assert(rows(blocks@).take(0) =~= Seq::empty());
            assert(rule_views(rules@) =~= Seq::empty());
        }
        while k < blocks.len()
            invariant
                k <= blocks.len(),
                !is_blank(document@),
                rows(blocks@) == blocks_of(document@),
                rules_of(rows(blocks@).take(k as int)) == Ok::<Seq<RuleView>, ParseErrorView>(
                    rule_views(rules@),
                ),
            decreases blocks.len() - k,
        {
            proof {
                assert(rows(blocks@).take(k + 1).drop_last() =~= rows(blocks@).take(k as int));
                assert(rows(blocks@).take(k + 1).last() == blocks[k as int]@);
            }
            match Rule::parse_chars(blocks[k].as_slice(), &rules) {
                Ok(rule) => {
                    proof {
                        lemma_rule_views_push(rules@, rule);
                    }
                    rules.push(rule);
                },
                Err(e) => {
                    proof {
                        lemma_rules_error(rows(blocks@), k + 1);
                    }
                    return Err(e);
                },
            }
            k += 1;
        }
        proof {
            assert(rows(blocks@).take(k as int) =~= rows(blocks@));
        }
        Ok(BNF { rules })
    }

    /// Reads a grammar from a document, as `parse_chars` does: rule blocks
    /// with an empty line between them, each of which may refer to the rules
    /// before it.
    pub fn parse(value: String) -> (r: Result<BNF, ParseError>)
        ensures
            result_view(r) == grammar_of(value@),
            r matches Ok(grammar) ==> grammar_shaped(grammar@),
    {
        let document = to_chars(value.as_str());
        Self::parse_chars(document.as_slice())
    }
}

} // verus!
