//! The rules of a grammar and the errors of reading one, each with the
//! mathematical value that the contracts speak of.

use vstd::prelude::*;
use vstd::string::StringExecFns;

verus! {

/// Why a text could not be parsed.
#[derive(Debug, PartialEq, Eq)]
pub enum ParseError {
    /// An expression is empty once its whitespace is normalized away.
    EmptyInput,
    /// An expression starts with a character that opens no known form.
    NoPatternMatch,
    /// A reference names a rule that is not among the rules parsed so far.
    UndefinedReference(String),
    /// A rule block has no defining operator.
    MalformedRule,
}

/// The mathematical value of a `ParseError`.
pub enum ParseErrorView {
    EmptyInput,
    NoPatternMatch,
    UndefinedReference(Seq<char>),
    MalformedRule,
}

impl View for ParseError {
    type V = ParseErrorView;

    open spec fn view(&self) -> ParseErrorView {
        match self {
            ParseError::EmptyInput => ParseErrorView::EmptyInput,
            ParseError::NoPatternMatch => ParseErrorView::NoPatternMatch,
            ParseError::UndefinedReference(name) => ParseErrorView::UndefinedReference(name@),
            ParseError::MalformedRule => ParseErrorView::MalformedRule,
        }
    }
}

/// The text that describes an error, with a line break at its end.
pub open spec fn message_of(e: ParseErrorView) -> Seq<char> {
    match e {
        ParseErrorView::EmptyInput => "Empty string\n"@,
        ParseErrorView::NoPatternMatch => "No pattern match\n"@,
        ParseErrorView::UndefinedReference(name) => "Rule '"@ + name + "' not found\n"@,
        ParseErrorView::MalformedRule => "Malformed rule\n"@,
    }
}

impl ParseError {
    /// A description of the error for a reader; for a missing rule it holds
    /// the name that was looked up.
    pub fn message(&self) -> (out: String)
        ensures
            out@ == message_of(self@),
    {
        match self {
            ParseError::EmptyInput => "Empty string\n".to_owned(),
            ParseError::NoPatternMatch => "No pattern match\n".to_owned(),
            ParseError::UndefinedReference(name) => {
                let mut out = "Rule '".to_owned();
                out.append(name.as_str());
                out.append("' not found\n");
                out
            },
            ParseError::MalformedRule => "Malformed rule\n".to_owned(),
        }
    }
}

/// A named production: the alternatives that its right-hand side lists.
#[derive(Debug, PartialEq, Eq)]
pub struct Rule {
    pub name: String,
    pub expressions: Vec<Expression>,
}

/// One alternative of a rule.
#[derive(Debug, PartialEq, Eq)]
pub enum Expression {
    /// Symbols that must match one after another.
    Sequence(Vec<Expression>),
    /// A copy of the rule that the alternative names.
    Reference(Rule),
    /// A quoted string, kept with its quote characters.
    Literal(String),
}

/// A grammar: its rules in the order of their definition.
#[derive(Debug, PartialEq, Eq)]
pub struct BNF {
    pub rules: Vec<Rule>,
}

/// The mathematical value of a `Rule`.
pub struct RuleView {
    pub name: Seq<char>,
    pub expressions: Seq<ExpressionView>,
}

/// The mathematical value of an `Expression`.
pub enum ExpressionView {
    Sequence(Seq<ExpressionView>),
    Reference(RuleView),
    Literal(Seq<char>),
}

/// The value of a rule: its name and the values of its alternatives.
pub open spec fn rule_value(rule: Rule) -> RuleView
    decreases rule,
{
    RuleView {
        name: rule.name@,
        expressions: Seq::new(
            rule.expressions@.len(),
            |i: int|
                if 0 <= i < rule.expressions@.len() {
                    expression_value(rule.expressions@[i])
                } else {
                    arbitrary()
                },
        ),
    }
}

/// The value of an expression.
pub open spec fn expression_value(e: Expression) -> ExpressionView
    decreases e,
{
    match e {
        Expression::Sequence(parts) => ExpressionView::Sequence(
            Seq::new(
                parts@.len(),
                |i: int|
                    if 0 <= i < parts@.len() {
                        expression_value(parts@[i])
                    } else {
                        arbitrary()
                    },
            ),
        ),
        Expression::Reference(rule) => ExpressionView::Reference(rule_value(rule)),
        Expression::Literal(text) => ExpressionView::Literal(text@),
    }
}

impl View for Rule {
    type V = RuleView;

    open spec fn view(&self) -> RuleView {
        rule_value(*self)
    }
}

impl View for Expression {
    type V = ExpressionView;

    open spec fn view(&self) -> ExpressionView {
        expression_value(*self)
    }
}

impl View for BNF {
    type V = Seq<RuleView>;

    open spec fn view(&self) -> Seq<RuleView> {
        rule_views(self.rules@)
    }
}

/// The values of a list of rules.
pub open spec fn rule_views(rules: Seq<Rule>) -> Seq<RuleView> {
    rules.map_values(|r: Rule| r@)
}

/// The values of a list of expressions.
pub open spec fn expression_views(exprs: Seq<Expression>) -> Seq<ExpressionView> {
    exprs.map_values(|e: Expression| e@)
}

/// The value of a rule holds the values of its alternatives, in order.
pub proof fn lemma_rule_view(rule: Rule)
    ensures
        rule@.name == rule.name@,
        rule@.expressions == expression_views(rule.expressions@),
{
    assert(rule@.expressions =~= expression_views(rule.expressions@));
}

/// The value of a sequence holds the values of its parts, in order.
pub proof fn lemma_sequence_view(parts: Vec<Expression>)
    ensures
        Expression::Sequence(parts)@ == ExpressionView::Sequence(expression_views(parts@)),
{
    let e = Expression::Sequence(parts);
    assert(e is Sequence);
    assert(e->Sequence_0 == parts);
    assert(e.view() is Sequence);
    assert(e@ is Sequence);
    assert(e.view() matches ExpressionView::Sequence(s) && s.len() == parts@.len());
    let s1 = e.view()->Sequence_0;
    assert(s1.len() == parts@.len());
    assert(e@->Sequence_0.len() == parts@.len());
    assert forall|i: int| 0 <= i < parts@.len() implies e@->Sequence_0[i] == expression_views(
        parts@,
    )[i] by {}
    assert(e@->Sequence_0 =~= expression_views(parts@));
}

/// The values of a list that grew by one expression.
pub proof fn lemma_views_push(exprs: Seq<Expression>, e: Expression)
    ensures
        expression_views(exprs.push(e)) == expression_views(exprs).push(e@),
{
    assert(expression_views(exprs.push(e)) =~= expression_views(exprs).push(e@));
}

/// The values of a list that grew by one rule.
pub proof fn lemma_rule_views_push(rules: Seq<Rule>, rule: Rule)
    ensures
        rule_views(rules.push(rule)) == rule_views(rules).push(rule@),
{
    assert(rule_views(rules.push(rule)) =~= rule_views(rules).push(rule@));
}

/// The values of the first `i + 1` expressions of a list.
pub proof fn lemma_views_take(exprs: Seq<Expression>, i: int)
    requires
        0 <= i < exprs.len(),
    ensures
        expression_views(exprs).take(i + 1) == expression_views(exprs).take(i).push(exprs[i]@),
{
    assert(expression_views(exprs).take(i + 1) =~= expression_views(exprs).take(i).push(
        exprs[i]@,
    ));
}

impl Clone for Rule {
    /// A copy with the same value.
    fn clone(&self) -> (out: Self)
        ensures
            out@ == self@,
        decreases self,
    {
        let mut expressions: Vec<Expression> = Vec::new();
        let mut i: usize = 0;
        while i < self.expressions.len()
            invariant
                i <= self.expressions.len(),
                expression_views(expressions@) == expression_views(self.expressions@).take(
                    i as int,
                ),
            decreases self.expressions.len() - i,
        {
            let ghost before = expressions@;
            let e = self.expressions[i].clone();
            expressions.push(e);
            proof {
                lemma_views_push(before, e);
                lemma_views_take(self.expressions@, i as int);
            }
            i += 1;
        }
        let out = Rule { name: self.name.clone(), expressions };
        proof {
            lemma_rule_view(out);
            lemma_rule_view(*self);
            assert(expression_views(self.expressions@).take(i as int) =~= expression_views(
                self.expressions@,
            ));
        }
        out
    }
}

impl Clone for Expression {
    /// A copy with the same value.
    fn clone(&self) -> (out: Self)
        ensures
            out@ == self@,
        decreases self,
    {
        match self {
            Expression::Sequence(parts) => {
                let mut copies: Vec<Expression> = Vec::new();
                let mut i: usize = 0;
                while i < parts.len()
                    invariant
                        i <= parts.len(),
                        *self == Expression::Sequence(*parts),
                        expression_views(copies@) == expression_views(parts@).take(i as int),
                    decreases parts.len() - i,
                {
                    let ghost before = copies@;
                    assert(self->Sequence_0 == *parts);
                    let e = parts[i].clone();
                    copies.push(e);
                    proof {
                        lemma_views_push(before, e);
                        lemma_views_take(parts@, i as int);
                    }
                    i += 1;
                }
                proof {
                    lemma_sequence_view(copies);
                    lemma_sequence_view(*parts);
                    assert(expression_views(parts@).take(i as int) =~= expression_views(parts@));
                }
                Expression::Sequence(copies)
            },
            Expression::Reference(rule) => Expression::Reference(rule.clone()),
            Expression::Literal(text) => Expression::Literal(text.clone()),
        }
    }
}

} // verus!
