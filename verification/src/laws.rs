//! What holds of every document, rule block and alternative: when each is
//! blank, empty or malformed, and what becomes of literals and single words.

use crate::grammar::{ExpressionView, ParseErrorView, RuleView};
use crate::pattern::{first_match, lemma_first_match, split_from};
use crate::results::lemma_collect_err;
use crate::syntax::{
    alternatives_of, blank_line, blocks_of, define_operator, expression_of, expressions_of,
    grammar_of, has_definition, is_chain, is_literal, rule_of, symbol_of, symbols_of,
};
use crate::text::{
    is_blank, is_space, is_word, lemma_blank, lemma_words_append_word, lemma_words_are_words,
    normalize, words,
};
use vstd::prelude::*;

verus! {

/// The pieces of a text of nothing but whitespace hold nothing but
/// whitespace.
pub proof fn lemma_blank_pieces(s: Seq<char>, pat: Seq<char>, from: int)
    requires
        is_blank(s),
        0 <= from <= s.len(),
    ensures
        forall|k: int|
            0 <= k < split_from(s, pat, from).len() ==> is_blank(
                #[trigger] split_from(s, pat, from)[k],
            ),
    decreases s.len() - from,
{
    let pieces = split_from(s, pat, from);
    match first_match(s, pat, from) {
        Some(i) if pat.len() > 0 && from <= i && i + pat.len() <= s.len() => {
            let rest = split_from(s, pat, i + pat.len());
            lemma_blank_pieces(s, pat, i + pat.len());
            assert forall|k: int| 0 <= k < pieces.len() implies is_blank(#[trigger] pieces[k]) by {
                if k == 0 {
                    assert(pieces[0] == s.subrange(from, i));
                } else {
                    assert(pieces[k] == rest[k - 1]);
                }
            }
        },
        _ => {
            assert(pieces[0] == s.subrange(from, s.len() as int));
        },
    }
}

/// A rule block of nothing but whitespace lacks the defining operator.
pub proof fn lemma_blank_block(block: Seq<char>)
    requires
        is_blank(block),
    ensures
        !has_definition(block),
{
    lemma_first_match(block, define_operator(), 0);
    if first_match(block, define_operator(), 0) is Some {
        let i = first_match(block, define_operator(), 0)->Some_0;
        assert(block.subrange(i, i + 3)[0] == ':');
        assert(is_space(block[i]));
    }
}

/// A document of nothing but whitespace holds no rule: it describes the
/// grammar without rules.
pub proof fn law_blank_document(document: Seq<char>)
    requires
        is_blank(document),
    ensures
        grammar_of(document) == Ok::<Seq<RuleView>, ParseErrorView>(Seq::empty()),
        forall|k: int|
            0 <= k < blocks_of(document).len() ==> !has_definition(
                #[trigger] blocks_of(document)[k],
            ),
{
    lemma_blank_pieces(document, blank_line(), 0);
    assert forall|k: int| 0 <= k < blocks_of(document).len() implies !has_definition(
        #[trigger] blocks_of(document)[k],
    ) by {
        lemma_blank_block(blocks_of(document)[k]);
    }
}

/// An alternative is empty input exactly if it holds nothing but whitespace.
pub proof fn law_empty_input(text: Seq<char>, rules: Seq<RuleView>)
    ensures
        expression_of(text, rules) == Err::<ExpressionView, ParseErrorView>(
            ParseErrorView::EmptyInput,
        ) <==> is_blank(text),
{
    let t = normalize(text);
    lemma_blank(text);
    if is_chain(t) && expression_of(text, rules) is Err {
        let results = symbols_of(words(t), rules);
        let n = lemma_collect_err(results);
        lemma_words_are_words(t);
        assert(is_word(words(t)[n]));
    }
}

/// A rule block is malformed exactly if it lacks the defining operator.
pub proof fn law_malformed_rule(block: Seq<char>, rules: Seq<RuleView>)
    ensures
        rule_of(block, rules) == Err::<RuleView, ParseErrorView>(ParseErrorView::MalformedRule)
            <==> !has_definition(block),
{
    if has_definition(block) && rule_of(block, rules) is Err {
        let alternatives = alternatives_of(block);
        let results = expressions_of(alternatives, rules);
        let a = lemma_collect_err(results);
        let t = normalize(alternatives[a]);
        if is_chain(t) {
            let n = lemma_collect_err(symbols_of(words(t), rules));
        }
    }
}

/// An alternative that opens with a quote is a literal, whatever rules there
/// are: it is kept whole, quotes included, as normalization leaves it, and
/// nothing is looked up.
pub proof fn law_literal(text: Seq<char>, rules: Seq<RuleView>)
    requires
        is_literal(normalize(text)),
    ensures
        expression_of(text, rules) == Ok::<ExpressionView, ParseErrorView>(
            ExpressionView::Literal(normalize(text)),
        ),
        normalize(text) == text ==> expression_of(text, rules) == Ok::<
            ExpressionView,
            ParseErrorView,
        >(ExpressionView::Literal(text)),
{
}

/// A single word, read as an alternative, is read as one symbol: the parts
/// of a sequence are what their words give when read alone.
pub proof fn law_single_word(word: Seq<char>, rules: Seq<RuleView>)
    requires
        is_word(word),
    ensures
        normalize(word) == word,
        expression_of(word, rules) == symbol_of(word, rules),
{
    let e = Seq::<char>::empty();
    lemma_words_append_word(e, word);
    assert(e + word =~= word);
    assert(words(word) =~= seq![word]);
    assert(words(normalize(word)) =~= seq![word]);
}

} // verus!
