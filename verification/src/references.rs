//! When the references of a document can be resolved: a document is read
//! exactly if every rule refers only to rules defined before it, and fails
//! with the name of the first reference that no earlier rule answers.

use crate::grammar::{ExpressionView, ParseErrorView, RuleView};
use crate::laws::law_blank_document;
use crate::pattern::lemma_split_has_piece;
use crate::results::{lemma_collect_all_ok, lemma_collect_first_error, lemma_collect_ok};
use crate::syntax::{
    alternatives_of, blank_line, blocks_of, expression_of, expressions_of, grammar_of,
    has_definition, is_chain, is_literal, is_reference, lookup, name_of, rule_of, rules_of,
    symbol_of, symbols_of,
};
use crate::text::{is_blank, normalize, words};
use vstd::prelude::*;

verus! {

/// The names of a list of rules, in order.
pub open spec fn names_of(rules: Seq<RuleView>) -> Seq<Seq<char>> {
    rules.map_values(|r: RuleView| r.name)
}

/// The names that a list of rule blocks defines, in order.
pub open spec fn block_names(blocks: Seq<Seq<char>>) -> Seq<Seq<char>> {
    blocks.map_values(|b: Seq<char>| name_of(b))
}

/// The symbols of an alternative, in reading order: the words of a chain, or
/// the whole normalized text.
pub open spec fn symbols(text: Seq<char>) -> Seq<Seq<char>> {
    let t = normalize(text);
    if is_chain(t) {
        words(t)
    } else {
        seq![t]
    }
}

/// A symbol that can be read when the rules named `known` are at hand: a
/// literal, or a reference to one of them.
pub open spec fn sound(symbol: Seq<char>, known: Seq<Seq<char>>) -> bool {
    is_literal(symbol) || (is_reference(symbol) && known.contains(symbol))
}

/// A reference to a rule that is not among `known`.
pub open spec fn dangling(symbol: Seq<char>, known: Seq<Seq<char>>) -> bool {
    is_reference(symbol) && !known.contains(symbol)
}

/// An alternative whose symbols are all sound.
pub open spec fn sound_alternative(text: Seq<char>, known: Seq<Seq<char>>) -> bool {
    forall|i: int| 0 <= i < symbols(text).len() ==> sound(#[trigger] symbols(text)[i], known)
}

/// A rule block with the defining operator whose alternatives are all sound.
pub open spec fn sound_block(block: Seq<char>, known: Seq<Seq<char>>) -> bool {
    has_definition(block) && forall|a: int|
        0 <= a < alternatives_of(block).len() ==> sound_alternative(
            #[trigger] alternatives_of(block)[a],
            known,
        )
}

/// Rule blocks of which each is sound given the names of those before it:
/// every rule refers only to rules defined earlier.
pub open spec fn sound_blocks(blocks: Seq<Seq<char>>) -> bool {
    forall|k: int|
        0 <= k < blocks.len() ==> sound_block(#[trigger] blocks[k], block_names(blocks.take(k)))
}

/// The place of a symbol in a list of rule blocks: symbol `i` of alternative
/// `a` of block `k`.
pub open spec fn is_place(blocks: Seq<Seq<char>>, k: int, a: int, i: int) -> bool {
    &&& 0 <= k < blocks.len()
    &&& has_definition(blocks[k])
    &&& 0 <= a < alternatives_of(blocks[k]).len()
    &&& 0 <= i < symbols(alternatives_of(blocks[k])[a]).len()
}

/// The symbol at a place.
pub open spec fn symbol_at(blocks: Seq<Seq<char>>, k: int, a: int, i: int) -> Seq<char> {
    symbols(alternatives_of(blocks[k])[a])[i]
}

/// Everything that is read before the place `(k, a, i)` is sound: the blocks
/// before block `k`, the alternatives of block `k` before alternative `a`,
/// and the symbols of alternative `a` before symbol `i`.
pub open spec fn sound_before(blocks: Seq<Seq<char>>, k: int, a: int, i: int) -> bool {
    let known = block_names(blocks.take(k));
    &&& sound_blocks(blocks.take(k))
    &&& forall|b: int|
        0 <= b < a ==> sound_alternative(#[trigger] alternatives_of(blocks[k])[b], known)
    &&& forall|j: int|
        0 <= j < i ==> sound(#[trigger] symbols(alternatives_of(blocks[k])[a])[j], known)
}

/// `lookup` finds the first rule of the name, and finds one exactly if the
/// name is among the rules' names.
pub proof fn lemma_lookup(name: Seq<char>, rules: Seq<RuleView>)
    ensures
        lookup(name, rules) is Some <==> names_of(rules).contains(name),
        lookup(name, rules) matches Some(rule) ==> exists|j: int|
            0 <= j < rules.len() && rules[j] == rule && rule.name == name && forall|i: int|
                0 <= i < j ==> (#[trigger] rules[i]).name != name,
    decreases rules.len(),
{
    if rules.len() == 0 {
    } else if rules[0].name == name {
        assert(names_of(rules)[0] == name);
        assert(rules[0] == rules[0] && forall|i: int|
            0 <= i < 0 ==> (#[trigger] rules[i]).name != name);
    } else {
        let rest = rules.drop_first();
        lemma_lookup(name, rest);
        if names_of(rules).contains(name) {
            let j = choose|j: int| 0 <= j < rules.len() && names_of(rules)[j] == name;
            assert(names_of(rest)[j - 1] == name);
        }
        if names_of(rest).contains(name) {
            let j = choose|j: int| 0 <= j < rest.len() && names_of(rest)[j] == name;
            assert(names_of(rules)[j + 1] == name);
        }
        if lookup(name, rules) is Some {
            let rule = lookup(name, rest)->Some_0;
            let j = choose|j: int|
                0 <= j < rest.len() && rest[j] == rule && rule.name == name && forall|i: int|
                    0 <= i < j ==> (#[trigger] rest[i]).name != name;
            assert(rules[j + 1] == rule);
            assert forall|i: int| 0 <= i < j + 1 implies (#[trigger] rules[i]).name != name by {
                if i > 0 {
                    assert(rest[i - 1] == rules[i]);
                }
            }
        }
    }
}

/// A symbol can be read exactly if it is sound; a dangling reference fails
/// with the name that it looked up.
pub proof fn lemma_symbol(t: Seq<char>, rules: Seq<RuleView>)
    ensures
        symbol_of(t, rules) is Ok <==> sound(t, names_of(rules)),
        dangling(t, names_of(rules)) ==> symbol_of(t, rules) == Err::<
            ExpressionView,
            ParseErrorView,
        >(ParseErrorView::UndefinedReference(t)),
{
    lemma_lookup(t, rules);
}

/// An alternative whose symbols are all sound can be read.
pub proof fn lemma_sound_alternative(text: Seq<char>, rules: Seq<RuleView>)
    requires
        sound_alternative(text, names_of(rules)),
    ensures
        expression_of(text, rules) is Ok,
{
    let t = normalize(text);
    if is_chain(t) {
        let results = symbols_of(words(t), rules);
        assert forall|i: int| 0 <= i < results.len() implies (#[trigger] results[i]) is Ok by {
            lemma_symbol(words(t)[i], rules);
            assert(sound(symbols(text)[i], names_of(rules)));
        }
        lemma_collect_all_ok(results);
    } else {
        assert(sound(symbols(text)[0], names_of(rules)));
        lemma_symbol(t, rules);
    }
}

/// An alternative that can be read is sound.
pub proof fn lemma_alternative_is_sound(text: Seq<char>, rules: Seq<RuleView>)
    requires
        expression_of(text, rules) is Ok,
    ensures
        sound_alternative(text, names_of(rules)),
{
    let t = normalize(text);
    if is_chain(t) {
        let results = symbols_of(words(t), rules);
        lemma_collect_ok(results);
        assert forall|i: int| 0 <= i < symbols(text).len() implies sound(
            #[trigger] symbols(text)[i],
            names_of(rules),
        ) by {
            assert(results[i] is Ok);
            lemma_symbol(words(t)[i], rules);
        }
    } else {
        lemma_symbol(t, rules);
    }
}

/// An alternative whose first symbol that is not sound is a dangling
/// reference fails with the name of that reference.
pub proof fn lemma_dangling_in_alternative(text: Seq<char>, rules: Seq<RuleView>, i: int)
    requires
        0 <= i < symbols(text).len(),
        forall|j: int| 0 <= j < i ==> sound(#[trigger] symbols(text)[j], names_of(rules)),
        dangling(symbols(text)[i], names_of(rules)),
    ensures
        expression_of(text, rules) == Err::<ExpressionView, ParseErrorView>(
            ParseErrorView::UndefinedReference(symbols(text)[i]),
        ),
{
    let t = normalize(text);
    lemma_symbol(symbols(text)[i], rules);
    if is_chain(t) {
        let results = symbols_of(words(t), rules);
        assert forall|j: int| 0 <= j < i implies (#[trigger] results[j]) is Ok by {
            lemma_symbol(words(t)[j], rules);
            assert(sound(symbols(text)[j], names_of(rules)));
        }
        lemma_collect_first_error(results, i);
    }
}

/// A sound rule block can be read, and the rule has the block's name.
pub proof fn lemma_sound_block(block: Seq<char>, rules: Seq<RuleView>)
    requires
        sound_block(block, names_of(rules)),
    ensures
        rule_of(block, rules) is Ok,
        rule_of(block, rules)->Ok_0.name == name_of(block),
{
    let alternatives = alternatives_of(block);
    let results = expressions_of(alternatives, rules);
    assert forall|a: int| 0 <= a < results.len() implies (#[trigger] results[a]) is Ok by {
        assert(sound_alternative(alternatives[a], names_of(rules)));
        lemma_sound_alternative(alternatives[a], rules);
    }
    lemma_collect_all_ok(results);
}

/// A rule block that can be read is sound.
pub proof fn lemma_block_is_sound(block: Seq<char>, rules: Seq<RuleView>)
    requires
        rule_of(block, rules) is Ok,
    ensures
        sound_block(block, names_of(rules)),
{
    let alternatives = alternatives_of(block);
    let results = expressions_of(alternatives, rules);
    lemma_collect_ok(results);
    assert forall|a: int| 0 <= a < alternatives.len() implies sound_alternative(
        #[trigger] alternatives[a],
        names_of(rules),
    ) by {
        assert(results[a] is Ok);
        lemma_alternative_is_sound(alternatives[a], rules);
    }
}

/// A rule block whose first symbol that is not sound is a dangling reference
/// fails with the name of that reference.
pub proof fn lemma_dangling_in_block(block: Seq<char>, rules: Seq<RuleView>, a: int, i: int)
    requires
        has_definition(block),
        0 <= a < alternatives_of(block).len(),
        forall|b: int|
            0 <= b < a ==> sound_alternative(#[trigger] alternatives_of(block)[b], names_of(rules)),
        0 <= i < symbols(alternatives_of(block)[a]).len(),
        forall|j: int|
            0 <= j < i ==> sound(
                #[trigger] symbols(alternatives_of(block)[a])[j],
                names_of(rules),
            ),
        dangling(symbols(alternatives_of(block)[a])[i], names_of(rules)),
    ensures
        rule_of(block, rules) == Err::<RuleView, ParseErrorView>(
            ParseErrorView::UndefinedReference(symbols(alternatives_of(block)[a])[i]),
        ),
{
    let alternatives = alternatives_of(block);
    let results = expressions_of(alternatives, rules);
    assert forall|b: int| 0 <= b < a implies (#[trigger] results[b]) is Ok by {
        assert(sound_alternative(alternatives[b], names_of(rules)));
        lemma_sound_alternative(alternatives[b], rules);
    }
    lemma_dangling_in_alternative(alternatives[a], rules, i);
    lemma_collect_first_error(results, a);
}

/// A block that fails makes every longer list of blocks fail alike.
pub proof fn lemma_rules_error(blocks: Seq<Seq<char>>, n: int)
    requires
        0 <= n <= blocks.len(),
        rules_of(blocks.take(n)) is Err,
    ensures
        rules_of(blocks) == rules_of(blocks.take(n)),
    decreases blocks.len(),
{
    if n == blocks.len() {
        assert(blocks.take(n) =~= blocks);
    } else {
        assert(blocks.drop_last().take(n) =~= blocks.take(n));
        lemma_rules_error(blocks.drop_last(), n);
    }
}

/// Where a list of rule blocks can be read, there is one rule for each
/// block, in the order of the blocks and under the block's name, and each
/// was read with the rules before it at hand.
pub proof fn lemma_rules_in_order(blocks: Seq<Seq<char>>)
    requires
        rules_of(blocks) is Ok,
    ensures
        rules_of(blocks)->Ok_0.len() == blocks.len(),
        names_of(rules_of(blocks)->Ok_0) == block_names(blocks),
        forall|k: int|
            0 <= k < blocks.len() ==> rule_of(
                #[trigger] blocks[k],
                rules_of(blocks)->Ok_0.take(k),
            ) == Ok::<RuleView, ParseErrorView>(rules_of(blocks)->Ok_0[k]),
    decreases blocks.len(),
{
    let rules = rules_of(blocks)->Ok_0;
    if blocks.len() == 0 {
        assert(names_of(rules) =~= block_names(blocks));
    } else {
        let init = blocks.drop_last();
        lemma_rules_in_order(init);
        let before = rules_of(init)->Ok_0;
        assert(rules.take(blocks.len() - 1) =~= before);
        assert(names_of(rules) =~= block_names(blocks)) by {
            assert forall|k: int| 0 <= k < blocks.len() implies names_of(rules)[k]
                == block_names(blocks)[k] by {
                if k < init.len() {
                    assert(names_of(before)[k] == block_names(init)[k]);
                }
            }
        }
        assert forall|k: int| 0 <= k < blocks.len() implies rule_of(
            #[trigger] blocks[k],
            rules.take(k),
        ) == Ok::<RuleView, ParseErrorView>(rules[k]) by {
            if k < init.len() {
                assert(init[k] == blocks[k]);
                assert(rules.take(k) =~= before.take(k));
            }
        }
    }
}

/// Rule blocks of which each refers only to rules defined before it can be
/// read.
pub proof fn lemma_sound_blocks(blocks: Seq<Seq<char>>)
    requires
        sound_blocks(blocks),
    ensures
        rules_of(blocks) is Ok,
    decreases blocks.len(),
{
    if blocks.len() > 0 {
        let init = blocks.drop_last();
        assert(sound_blocks(init)) by {
            assert forall|k: int| 0 <= k < init.len() implies sound_block(
                #[trigger] init[k],
                block_names(init.take(k)),
            ) by {
                assert(init[k] == blocks[k]);
                assert(init.take(k) =~= blocks.take(k));
            }
        }
        lemma_sound_blocks(init);
        lemma_rules_in_order(init);
        assert(blocks.take(blocks.len() - 1) =~= init);
        assert(sound_block(blocks[blocks.len() - 1], block_names(init)));
        lemma_sound_block(blocks.last(), rules_of(init)->Ok_0);
    }
}

/// Rule blocks that can be read are sound: each refers only to rules that
/// blocks before it define.
pub proof fn lemma_blocks_are_sound(blocks: Seq<Seq<char>>)
    requires
        rules_of(blocks) is Ok,
    ensures
        sound_blocks(blocks),
{
    let rules = rules_of(blocks)->Ok_0;
    lemma_rules_in_order(blocks);
    assert forall|k: int| 0 <= k < blocks.len() implies sound_block(
        #[trigger] blocks[k],
        block_names(blocks.take(k)),
    ) by {
        assert(rule_of(blocks[k], rules.take(k)) is Ok);
        lemma_block_is_sound(blocks[k], rules.take(k));
        assert(names_of(rules.take(k)) =~= names_of(rules).take(k));
        assert(block_names(blocks.take(k)) =~= block_names(blocks).take(k));
    }
}

/// Rule blocks of which each refers only to rules that blocks before it
/// define give one rule for each block, in the order of the blocks and under
/// the names that the blocks give; each rule is what its block says with the
/// rules before it at hand.
pub proof fn lemma_backward_references(blocks: Seq<Seq<char>>)
    requires
        sound_blocks(blocks),
    ensures
        rules_of(blocks) is Ok,
        rules_of(blocks)->Ok_0.len() == blocks.len(),
        names_of(rules_of(blocks)->Ok_0) == block_names(blocks),
        forall|k: int|
            0 <= k < blocks.len() ==> rule_of(
                #[trigger] blocks[k],
                rules_of(blocks)->Ok_0.take(k),
            ) == Ok::<RuleView, ParseErrorView>(rules_of(blocks)->Ok_0[k]),
{
    lemma_sound_blocks(blocks);
    lemma_rules_in_order(blocks);
}

/// Where the first thing in reading order that is not sound is a reference
/// to a rule that no block before it defines, reading the blocks fails with
/// the name of that reference.
pub proof fn lemma_dangling_reference(blocks: Seq<Seq<char>>, k: int, a: int, i: int)
    requires
        is_place(blocks, k, a, i),
        sound_before(blocks, k, a, i),
        dangling(symbol_at(blocks, k, a, i), block_names(blocks.take(k))),
    ensures
        rules_of(blocks) == Err::<Seq<RuleView>, ParseErrorView>(
            ParseErrorView::UndefinedReference(symbol_at(blocks, k, a, i)),
        ),
{
    let before = blocks.take(k);
    lemma_sound_blocks(before);
    lemma_rules_in_order(before);
    lemma_dangling_in_block(blocks[k], rules_of(before)->Ok_0, a, i);
    assert(blocks.take(k + 1).drop_last() =~= before);
    assert(blocks.take(k + 1).last() == blocks[k]);
    lemma_rules_error(blocks, k + 1);
}

/// A document in which every rule refers only to rules defined before it
/// describes a grammar: one rule for each block, in the order of the
/// document and under the names that the blocks give, each rule being what
/// its block says with the rules before it at hand.
pub proof fn law_backward_references(document: Seq<char>)
    requires
        sound_blocks(blocks_of(document)),
    ensures
        grammar_of(document) is Ok,
        grammar_of(document)->Ok_0.len() == blocks_of(document).len(),
        names_of(grammar_of(document)->Ok_0) == block_names(blocks_of(document)),
        forall|k: int|
            0 <= k < blocks_of(document).len() ==> rule_of(
                #[trigger] blocks_of(document)[k],
                grammar_of(document)->Ok_0.take(k),
            ) == Ok::<RuleView, ParseErrorView>(grammar_of(document)->Ok_0[k]),
{
    let blocks = blocks_of(document);
    lemma_split_has_piece(document, blank_line());
    if is_blank(document) {
        law_blank_document(document);
        assert(sound_block(blocks[0], block_names(blocks.take(0))));
    }
    lemma_backward_references(blocks);
}

/// A document describes a grammar exactly if it holds nothing but
/// whitespace, or every rule in it is well formed and refers only to rules
/// defined before it.
pub proof fn law_success(document: Seq<char>)
    ensures
        grammar_of(document) is Ok <==> is_blank(document) || sound_blocks(blocks_of(document)),
{
    if !is_blank(document) {
        if sound_blocks(blocks_of(document)) {
            lemma_sound_blocks(blocks_of(document));
        }
        if rules_of(blocks_of(document)) is Ok {
            lemma_blocks_are_sound(blocks_of(document));
        }
    }
}

/// A document in which the first thing in reading order that cannot be read
/// is a reference to a rule that is defined later or nowhere describes no
/// grammar: it fails with the name of that reference.
pub proof fn law_dangling_reference(document: Seq<char>, k: int, a: int, i: int)
    requires
        is_place(blocks_of(document), k, a, i),
        sound_before(blocks_of(document), k, a, i),
        dangling(
            symbol_at(blocks_of(document), k, a, i),
            block_names(blocks_of(document).take(k)),
        ),
    ensures
        grammar_of(document) == Err::<Seq<RuleView>, ParseErrorView>(
            ParseErrorView::UndefinedReference(symbol_at(blocks_of(document), k, a, i)),
        ),
{
    if is_blank(document) {
        law_blank_document(document);
    }
    lemma_dangling_reference(blocks_of(document), k, a, i);
}

} // verus!
