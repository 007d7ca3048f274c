use peg_middle::diagnostics::{DiagnosticKind, DiagnosticSink, Level};
use peg_middle::expression::Expression;
use peg_middle::grammar::Grammar;
use peg_middle::model::{AttributeValue, ATTR_INLINE, ATTR_PRINT_CODE, ATTR_PRINT_TYPING};
use peg_middle::raw::{RawAttribute, RawGrammar, RawRule};
use peg_middle::source::{Span, SpannedIdent};

fn span(lo: usize, hi: usize) -> Span {
    Span { lo, hi }
}

fn rule(name: u64, lo: usize, attrs: Vec<RawAttribute>, def: Expression) -> RawRule {
    RawRule {
        name: SpannedIdent { node: name, span: span(lo, lo + 1) },
        attributes: attrs,
        def: Box::new(def),
    }
}

#[test]
fn empty_grammar_builds() {
    // No rules, no attribute defects: an empty rule mapping, silently.
    let raw = RawGrammar { name: 10, rules: vec![], attributes: vec![] };
    let mut sink = DiagnosticSink::new();
    let grammar = Grammar::new(&mut sink, raw).unwrap();
    assert_eq!(grammar.name, 10);
    assert_eq!(grammar.rules.len(), 0);
    assert_eq!(sink.len(), 0);
    // Grammar-scope defaults are filled in.
    assert_eq!(grammar.attributes.get(ATTR_PRINT_CODE), Some(AttributeValue::Boolean(false)));
    assert_eq!(grammar.attributes.get(ATTR_PRINT_TYPING), Some(AttributeValue::Boolean(false)));
}

#[test]
fn empty_grammar_with_attribute_defect_still_builds() {
    // Grammar-scope attribute defects are reported but do not fail the build.
    let raw = RawGrammar {
        name: 10,
        rules: vec![],
        attributes: vec![RawAttribute { name: 77, value: AttributeValue::Unit, span: span(0, 1) }],
    };
    let mut sink = DiagnosticSink::new();
    let grammar = Grammar::new(&mut sink, raw);
    assert!(grammar.is_some());
    assert_eq!(sink.len(), 1);
    assert_eq!(sink.get(0).kind, DiagnosticKind::UnknownAttribute);
}

#[test]
fn distinct_rules_all_retained() {
    // Pairwise-distinct names: the build succeeds with one entry per rule,
    // each keeping its expression tree unchanged.
    let raw = RawGrammar {
        name: 20,
        rules: vec![
            rule(1, 0, vec![], Expression::StrLiteral(String::from("ab"))),
            rule(
                2,
                4,
                vec![RawAttribute {
                    name: ATTR_INLINE,
                    value: AttributeValue::Boolean(true),
                    span: span(5, 6),
                }],
                Expression::AnySingleChar,
            ),
            rule(3, 8, vec![], Expression::NonTerminalSymbol(1)),
        ],
        attributes: vec![],
    };
    let mut sink = DiagnosticSink::new();
    let grammar = Grammar::new(&mut sink, raw).unwrap();
    assert_eq!(sink.len(), 0);
    assert_eq!(grammar.rules.len(), 3);

    let first = grammar.rules.get(&1).unwrap();
    assert_eq!(first.name, SpannedIdent { node: 1, span: span(0, 1) });
    assert_eq!(*first.def, Expression::StrLiteral(String::from("ab")));
    assert_eq!(first.attributes.get(ATTR_INLINE), Some(AttributeValue::Boolean(false)));

    let second = grammar.rules.get(&2).unwrap();
    assert_eq!(*second.def, Expression::AnySingleChar);
    assert_eq!(second.attributes.get(ATTR_INLINE), Some(AttributeValue::Boolean(true)));

    let third = grammar.rules.get(&3).unwrap();
    assert_eq!(*third.def, Expression::NonTerminalSymbol(1));
}

#[test]
fn nested_expression_tree_preserved() {
    let def = Expression::Choice(vec![
        Expression::Sequence(vec![
            Expression::OneOrMore(Box::new(Expression::AnySingleChar)),
            Expression::NotPredicate(Box::new(Expression::StrLiteral(String::from("end")))),
        ]),
        Expression::Optional(Box::new(Expression::NonTerminalSymbol(9))),
    ]);
    let expected = Expression::Choice(vec![
        Expression::Sequence(vec![
            Expression::OneOrMore(Box::new(Expression::AnySingleChar)),
            Expression::NotPredicate(Box::new(Expression::StrLiteral(String::from("end")))),
        ]),
        Expression::Optional(Box::new(Expression::NonTerminalSymbol(9))),
    ]);
    let raw = RawGrammar { name: 3, rules: vec![rule(5, 0, vec![], def)], attributes: vec![] };
    let mut sink = DiagnosticSink::new();
    let grammar = Grammar::new(&mut sink, raw).unwrap();
    assert_eq!(*grammar.rules.get(&5).unwrap().def, expected);
}

#[test]
fn duplicate_rule_fails_with_both_locations() {
    // Rules named a, b, a: the build fails; exactly one duplicate diagnostic,
    // the error at the third rule, the note at the first.
    let raw = RawGrammar {
        name: 30,
        rules: vec![
            rule(1, 0, vec![], Expression::AnySingleChar),
            rule(2, 2, vec![], Expression::AnySingleChar),
            rule(1, 4, vec![], Expression::AnySingleChar),
        ],
        attributes: vec![],
    };
    let mut sink = DiagnosticSink::new();
    let grammar = Grammar::new(&mut sink, raw);
    assert!(grammar.is_none());
    assert_eq!(sink.len(), 2);
    let err = sink.get(0);
    assert_eq!(err.level, Level::Error);
    assert_eq!(err.kind, DiagnosticKind::DuplicateRule);
    assert_eq!(err.span, span(4, 5));
    let note = sink.get(1);
    assert_eq!(note.level, Level::Note);
    assert_eq!(note.kind, DiagnosticKind::PreviousRuleDeclaration);
    assert_eq!(note.span, span(0, 1));
}

#[test]
fn first_occurrence_wins() {
    // Rules named x, x: the first is retained, the second reported — never
    // the reverse.
    let raw = RawGrammar {
        name: 40,
        rules: vec![
            rule(7, 0, vec![], Expression::AnySingleChar),
            rule(7, 6, vec![], Expression::AnySingleChar),
        ],
        attributes: vec![],
    };
    let mut sink = DiagnosticSink::new();
    assert!(Grammar::new(&mut sink, raw).is_none());
    assert_eq!(sink.len(), 2);
    assert_eq!(sink.get(0).kind, DiagnosticKind::DuplicateRule);
    assert_eq!(sink.get(0).span, span(6, 7));
    assert_eq!(sink.get(1).kind, DiagnosticKind::PreviousRuleDeclaration);
    assert_eq!(sink.get(1).span, span(0, 1));
}

#[test]
fn every_duplicate_reported_against_first() {
    // Three rules of one name: the pass continues past the first collision
    // and each later occurrence is reported against the first declaration.
    let raw = RawGrammar {
        name: 41,
        rules: vec![
            rule(7, 0, vec![], Expression::AnySingleChar),
            rule(7, 6, vec![], Expression::AnySingleChar),
            rule(7, 9, vec![], Expression::AnySingleChar),
        ],
        attributes: vec![],
    };
    let mut sink = DiagnosticSink::new();
    assert!(Grammar::new(&mut sink, raw).is_none());
    assert_eq!(sink.len(), 4);
    assert_eq!(sink.get(0).span, span(6, 7));
    assert_eq!(sink.get(1).span, span(0, 1));
    assert_eq!(sink.get(2).span, span(9, 10));
    assert_eq!(sink.get(3).span, span(0, 1));
}

fn sample_grammar() -> RawGrammar {
    RawGrammar {
        name: 50,
        rules: vec![
            rule(
                1,
                0,
                vec![RawAttribute {
                    name: ATTR_INLINE,
                    value: AttributeValue::Boolean(true),
                    span: span(1, 2),
                }],
                Expression::Sequence(vec![
                    Expression::StrLiteral(String::from("k")),
                    Expression::ZeroOrMore(Box::new(Expression::AnySingleChar)),
                ]),
            ),
            rule(2, 4, vec![], Expression::AndPredicate(Box::new(Expression::AnySingleChar))),
        ],
        attributes: vec![
            RawAttribute { name: ATTR_PRINT_CODE, value: AttributeValue::Boolean(true), span: span(8, 9) },
            RawAttribute { name: 99, value: AttributeValue::Unit, span: span(10, 11) },
        ],
    }
}

#[test]
fn build_is_deterministic() {
    // The same raw grammar, built twice: structurally identical grammars and
    // identical diagnostic sequences.
    let mut sink1 = DiagnosticSink::new();
    let mut sink2 = DiagnosticSink::new();
    let g1 = Grammar::new(&mut sink1, sample_grammar()).unwrap();
    let g2 = Grammar::new(&mut sink2, sample_grammar()).unwrap();

    assert_eq!(sink1.len(), sink2.len());
    for i in 0..sink1.len() {
        assert_eq!(sink1.get(i), sink2.get(i));
    }

    assert_eq!(g1.name, g2.name);
    assert_eq!(g1.attributes.len(), g2.attributes.len());
    for i in 0..g1.attributes.len() {
        assert_eq!(g1.attributes.entry(i), g2.attributes.entry(i));
    }
    assert_eq!(g1.rules.len(), g2.rules.len());
    for (name, r1) in g1.rules.iter() {
        let r2 = g2.rules.get(name).unwrap();
        assert_eq!(r1.name, r2.name);
        assert_eq!(r1.def, r2.def);
        assert_eq!(r1.attributes.len(), r2.attributes.len());
        for i in 0..r1.attributes.len() {
            assert_eq!(r1.attributes.entry(i), r2.attributes.entry(i));
        }
    }
}

#[test]
fn attribute_defects_do_not_fail_the_build() {
    let mut sink = DiagnosticSink::new();
    let grammar = Grammar::new(&mut sink, sample_grammar()).unwrap();
    // One unknown grammar attribute was reported; the build still succeeded.
    assert_eq!(sink.len(), 1);
    assert_eq!(sink.get(0).kind, DiagnosticKind::UnknownAttribute);
    assert_eq!(grammar.attributes.get(ATTR_PRINT_CODE), Some(AttributeValue::Boolean(true)));
    assert_eq!(grammar.rules.len(), 2);
}

#[test]
fn duplicate_rule_attributes_still_checked() {
    // Even a rule that turns out to be a duplicate has its attributes
    // checked first: the pass maximizes diagnostic yield.
    let raw = RawGrammar {
        name: 60,
        rules: vec![
            rule(1, 0, vec![], Expression::AnySingleChar),
            rule(
                1,
                4,
                vec![RawAttribute { name: 88, value: AttributeValue::Unit, span: span(5, 6) }],
                Expression::AnySingleChar,
            ),
        ],
        attributes: vec![],
    };
    let mut sink = DiagnosticSink::new();
    assert!(Grammar::new(&mut sink, raw).is_none());
    assert_eq!(sink.len(), 3);
    assert_eq!(sink.get(0).kind, DiagnosticKind::UnknownAttribute);
    assert_eq!(sink.get(0).span, span(5, 6));
    assert_eq!(sink.get(1).kind, DiagnosticKind::DuplicateRule);
    assert_eq!(sink.get(2).kind, DiagnosticKind::PreviousRuleDeclaration);
}
