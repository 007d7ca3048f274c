//! The grammar builder: the orchestrating pass that turns a raw grammar into
//! a validated model. It resolves the grammar-scope attributes, then walks the
//! rules in source order, resolving each rule's attributes and inserting the
//! rule into the mapping unless its name collides with an already-inserted
//! rule — a duplicate is reported with both locations and discarded, never
//! overwriting the first occurrence. The pass never stops early: after it,
//! the count of inserted rules is compared with the count supplied, and only
//! equality yields a grammar. All diagnostics found on the way are emitted
//! whatever the final decision.

use vstd::prelude::*;
use std::collections::HashMap;
use crate::source::{Ident, Span, SpannedIdent};
use crate::diagnostics::{DiagnosticKind, DiagnosticSink, Diagnostic, error_at, note_at};
use crate::model::{AttributeModel, AttributeScope, spec_model_decls};
use crate::checker::{check_all, check_diags, check_resolved, ResolvedAttributes};
use crate::raw::{RawGrammar, RawRule};
use crate::expression::Expression;

verus! {

broadcast use vstd::std_specs::hash::group_hash_axioms;

/// A validated rule: its name, its resolved rule-scope attributes, and the
/// expression tree carried over unchanged from the raw rule.
pub struct Rule {
    pub name: SpannedIdent,
    pub attributes: ResolvedAttributes,
    pub def: Box<Expression>,
}

impl Rule {
    /// Assemble a rule. Anticipated to be fallible (a rule whose own
    /// construction fails is counted like a duplicate by the builder), though
    /// no such defect exists yet: construction always succeeds.
    fn new(name: SpannedIdent, def: Box<Expression>, attributes: ResolvedAttributes) -> (r: Option<
        Rule,
    >)
        ensures
            r matches Some(rule) && rule.name == name && rule.def == def && rule.attributes
                == attributes,
    {
        Some(Rule { name, attributes, def })
    }
}

/// The fully validated grammar: the terminal artifact handed to the code
/// generator. It exists only if no two rules share a name.
pub struct Grammar {
    pub name: Ident,
    pub rules: HashMap<Ident, Rule>,
    pub attributes: ResolvedAttributes,
}

/// The rule names, in source order.
pub open spec fn rule_names(rules: Seq<RawRule>) -> Seq<Ident> {
    rules.map_values(|r: RawRule| r.name.node)
}

/// Whether building from these rules yields a grammar: no name is defined
/// twice. Attribute defects never fail the build; they only produce
/// diagnostics.
pub open spec fn build_succeeds(rules: Seq<RawRule>) -> bool {
    rule_names(rules).no_duplicates()
}

/// The position of the first occurrence of `n` in `names`.
pub open spec fn first_index_of(names: Seq<Ident>, n: Ident) -> int
    decreases names.len(),
{
    if names.len() == 0 {
        0
    } else if names[0] == n {
        0
    } else {
        1 + first_index_of(names.drop_first(), n)
    }
}

/// Where the builder has seen each rule name first: name to the location of
/// the retained declaration.
pub open spec fn seen_of(m: Map<Ident, Rule>) -> Map<Ident, Span> {
    Map::new(|k: Ident| m.dom().contains(k), |k: Ident| m[k].name.span)
}

/// The diagnostics the rule pass emits, walking `rules` with the first-seen
/// declarations in `seen`: each rule's attribute diagnostics, then, for a
/// name already seen, the duplicate error at this occurrence and a note at
/// the retained one.
pub open spec fn rules_diags(rules: Seq<RawRule>, seen: Map<Ident, Span>) -> Seq<Diagnostic>
    decreases rules.len(),
{
    if rules.len() == 0 {
        Seq::empty()
    } else {
        let r = rules[0];
        let attr_diags = check_diags(spec_model_decls(AttributeScope::Rule), r.attributes@);
        if seen.contains_key(r.name.node) {
            attr_diags + seq![
                error_at(r.name.span, DiagnosticKind::DuplicateRule),
                note_at(seen[r.name.node], DiagnosticKind::PreviousRuleDeclaration),
            ] + rules_diags(rules.drop_first(), seen)
        } else {
            attr_diags + rules_diags(
                rules.drop_first(),
                seen.insert(r.name.node, r.name.span),
            )
        }
    }
}

/// Every diagnostic one build call emits, in order: the grammar-scope
/// attribute check, then the rule pass.
pub open spec fn grammar_build_diags(g: RawGrammar) -> Seq<Diagnostic> {
    check_diags(spec_model_decls(AttributeScope::Grammar), g.attributes@) + rules_diags(
        g.rules@,
        Map::empty(),
    )
}

/// The rule stored under `n` comes from the first raw rule named `n`: same
/// name and location, the expression tree unchanged, and the attributes
/// resolved from that rule's raw list against the rule-scope model.
pub open spec fn rule_matches_source(m: Map<Ident, Rule>, rules: Seq<RawRule>, n: Ident) -> bool {
    let i = first_index_of(rule_names(rules), n);
    &&& m[n].name == rules[i].name
    &&& m[n].def == rules[i].def
    &&& m[n].attributes@ == check_resolved(
        spec_model_decls(AttributeScope::Rule),
        rules[i].attributes@,
    )
}

/// What a successfully built grammar holds, given the raw grammar it was
/// built from: the name is kept, the grammar attributes are the resolved
/// grammar-scope set, the rule mapping's keys are exactly the rule names, and
/// each entry comes from the first raw rule bearing its name.
pub open spec fn grammar_matches(g: Grammar, raw: RawGrammar) -> bool {
    &&& g.name == raw.name
    &&& g.attributes@ == check_resolved(spec_model_decls(AttributeScope::Grammar), raw.attributes@)
    &&& g.rules@.dom() == rule_names(raw.rules@).to_set()
    &&& forall|n: Ident|
        #[trigger] g.rules@.dom().contains(n) ==> rule_matches_source(g.rules@, raw.rules@, n)
}

impl Grammar {
    /// Build the validated grammar model from a parsed raw grammar, or report
    /// failure. The raw grammar is consumed. Grammar-scope attributes are
    /// resolved first; their defects do not stop the pass. Every rule is then
    /// processed in order — attributes checked, duplicates reported with both
    /// locations and discarded — and only after the whole pass is the rule
    /// count compared: a grammar is returned exactly when no duplicate (nor
    /// any other per-rule construction defect) occurred. All diagnostics are
    /// emitted to `sink` either way.
    pub fn new(sink: &mut DiagnosticSink, raw: RawGrammar) -> (result: Option<Grammar>)
        ensures
            final(sink)@ == old(sink)@ + grammar_build_diags(raw),
            result is Some <==> build_succeeds(raw.rules@),
            result matches Some(g) ==> grammar_matches(g, raw),
    {
        let RawGrammar { name, rules: mut raw_rules, attributes: raw_attrs } = raw;
        let ghost orig = raw_rules@;
        let ghost names = rule_names(orig);

        let grammar_model = AttributeModel::for_scope(AttributeScope::Grammar);
        let grammar_attributes = check_all(&grammar_model, raw_attrs, sink);
        let ghost base = sink@;

        let rules_len = raw_rules.len();
        let mut rules: HashMap<Ident, Rule> = HashMap::with_capacity(rules_len);
        let ghost mut i: int = 0;
        proof {
            assert(orig.skip(0) =~= orig);
            assert(sink@.skip(base.len() as int) =~= Seq::<Diagnostic>::empty());
            assert(sink@.take(base.len() as int) =~= base);
            assert(rule_names(orig.take(0)).to_set() =~= Set::<Ident>::empty());
            assert(rules@.dom() =~= Set::<Ident>::empty());
            assert(seen_of(rules@) =~= Map::<Ident, Span>::empty());
            assert(Seq::<Diagnostic>::empty() + rules_diags(orig, Map::empty()) =~= rules_diags(
                orig,
                Map::empty(),
            ));
        }
        while raw_rules.len() > 0
            invariant
                0 <= i <= orig.len(),
                raw_rules@ == orig.skip(i),
                base.len() <= sink@.len(),
                sink@.take(base.len() as int) == base,
                rules_diags(orig, Map::empty()) == sink@.skip(base.len() as int) + rules_diags(
                    orig.skip(i),
                    seen_of(rules@),
                ),
                rules@.dom() == rule_names(orig.take(i)).to_set(),
                forall|n: Ident|
                    #[trigger] rules@.dom().contains(n) ==> rule_matches_source(rules@, orig, n)
                        && first_index_of(rule_names(orig), n) < i,
            decreases raw_rules@.len(),
        {
            proof {
                assert(orig.skip(i)[0] == orig[i]);
                assert(orig.skip(i).drop_first() =~= orig.skip(i + 1));
            }
            let rule = raw_rules.remove(0);
            proof {
                assert(raw_rules@ =~= orig.skip(i + 1));
            }
            let RawRule { name: rule_name_sp, attributes: rule_attrs, def } = rule;
            let ghost seen_pre = seen_of(rules@);
            let ghost emitted_pre = sink@.skip(base.len() as int);
            let ghost attr_diags = check_diags(
                spec_model_decls(AttributeScope::Rule),
                rule_attrs@,
            );

            let rule_model = AttributeModel::for_scope(AttributeScope::Rule);
            let rule_attributes = check_all(&rule_model, rule_attrs, sink);

            let rule_name = rule_name_sp.node;
            let prev_span: Option<Span> = match rules.get(&rule_name) {
                Some(prev) => Some(prev.name.span),
                None => None,
            };
            match prev_span {
                Some(pre) => {
                    proof {
                        assert(rules@.contains_key(rule_name));
                        assert(pre == seen_pre[rule_name]);
                    }
                    Grammar::duplicate_rules(sink, pre, rule_name_sp.span);
                    proof {
                        assert(sink@.take(base.len() as int) =~= base);
                        assert(sink@.skip(base.len() as int) =~= emitted_pre + (attr_diags
                            + seq![
                            error_at(rule_name_sp.span, DiagnosticKind::DuplicateRule),
                            note_at(pre, DiagnosticKind::PreviousRuleDeclaration),
                        ]));
                        assert(rules_diags(orig.skip(i), seen_pre) == attr_diags + seq![
                            error_at(rule_name_sp.span, DiagnosticKind::DuplicateRule),
                            note_at(pre, DiagnosticKind::PreviousRuleDeclaration),
                        ] + rules_diags(orig.skip(i + 1), seen_pre));
                        assert(emitted_pre + (attr_diags + seq![
                            error_at(rule_name_sp.span, DiagnosticKind::DuplicateRule),
                            note_at(pre, DiagnosticKind::PreviousRuleDeclaration),
                        ]) + rules_diags(orig.skip(i + 1), seen_pre) =~= emitted_pre + (attr_diags
                            + seq![
                            error_at(rule_name_sp.span, DiagnosticKind::DuplicateRule),
                            note_at(pre, DiagnosticKind::PreviousRuleDeclaration),
                        ] + rules_diags(orig.skip(i + 1), seen_pre)));
                        // The name stays in the mapping: the prefix name set is unchanged.
                        assert(rule_names(orig.take(i + 1)) =~= rule_names(orig.take(i)).push(
                            orig[i].name.node,
                        ));
                        lemma_to_set_push(rule_names(orig.take(i)), orig[i].name.node);
                        assert(rule_names(orig.take(i)).to_set().insert(rule_name) =~= rule_names(
                            orig.take(i),
                        ).to_set());
                    }
                },
                None => {
                    proof {
                        assert(!rules@.contains_key(rule_name));
                    }
                    let new_rule = Rule::new(rule_name_sp, def, rule_attributes);
                    match new_rule {
                        Some(r) => {
                            let ghost pre_map = rules@;
                            rules.insert(rule_name, r);
                            proof {
                                assert(rules@ == pre_map.insert(rule_name, r));
                                assert(seen_of(rules@) =~= seen_pre.insert(
                                    rule_name,
                                    rule_name_sp.span,
                                ));
                                assert(rule_names(orig.take(i + 1)) =~= rule_names(
                                    orig.take(i),
                                ).push(orig[i].name.node));
                                lemma_to_set_push(rule_names(orig.take(i)), orig[i].name.node);
                                assert(rules@.dom() =~= rule_names(orig.take(i + 1)).to_set());
                                // This is the first occurrence of the name.
                                assert(forall|j: int|
                                    0 <= j < i ==> rule_names(orig)[j] != rule_name) by {
                                    assert(forall|j: int|
                                        0 <= j < i ==> rule_names(orig.take(i))[j] == rule_names(
                                            orig,
                                        )[j]);
                                    assert(forall|j: int|
                                        0 <= j < i && rule_names(orig)[j] == rule_name
                                            ==> rule_names(orig.take(i)).to_set().contains(
                                            rule_name,
                                        ));
                                }
                                lemma_first_index_at(rule_names(orig), rule_name, i);
                                assert(rule_matches_source(rules@, orig, rule_name));
                            }
                        },
                        None => {
                            proof {
                                assert(false);
                            }
                        },
                    }
                    proof {
                        assert(sink@.take(base.len() as int) =~= base);
                        assert(sink@.skip(base.len() as int) =~= emitted_pre + attr_diags);
                        assert(rules_diags(orig.skip(i), seen_pre) == attr_diags + rules_diags(
                            orig.skip(i + 1),
                            seen_pre.insert(rule_name, rule_name_sp.span),
                        ));
                        assert(emitted_pre + attr_diags + rules_diags(
                            orig.skip(i + 1),
                            seen_of(rules@),
                        ) =~= emitted_pre + (attr_diags + rules_diags(
                            orig.skip(i + 1),
                            seen_of(rules@),
                        )));
                    }
                },
            }
            proof {
                i = i + 1;
            }
        }
        proof {
            assert(i == orig.len());
            assert(orig.skip(i).len() == 0);
            assert(orig.take(i) =~= orig);
            assert(sink@ =~= base + sink@.skip(base.len() as int));
            assert(sink@.skip(base.len() as int) + rules_diags(orig.skip(i), seen_of(rules@))
                =~= sink@.skip(base.len() as int));
            assert(final(sink)@ == old(sink)@ + grammar_build_diags(raw)) by {
                assert(old(sink)@ + (check_diags(
                    spec_model_decls(AttributeScope::Grammar),
                    raw.attributes@,
                ) + rules_diags(orig, Map::empty())) =~= base + sink@.skip(base.len() as int));
            }
        }
        if rules.len() == rules_len {
            proof {
                assert(rules@.dom() == names.to_set());
                assert(rules@.len() == names.to_set().len());
                assert(names.to_set().len() == names.len());
                names.lemma_no_dup_set_cardinality();
                assert(build_succeeds(orig));
            }
            let grammar = Grammar { name, rules, attributes: grammar_attributes };
            Some(grammar)
        } else {
            proof {
                assert(!build_succeeds(orig)) by {
                    if names.no_duplicates() {
                        names.unique_seq_to_set();
                        assert(rules@.len() == names.len());
                    }
                }
            }
            None
        }
    }

    /// Report a duplicate rule: the colliding occurrence as the error, the
    /// retained declaration as a note, so tooling can render both together.
    fn duplicate_rules(sink: &mut DiagnosticSink, pre: Span, current: Span)
        ensures
            final(sink)@ == old(sink)@.push(error_at(current, DiagnosticKind::DuplicateRule)).push(
                note_at(pre, DiagnosticKind::PreviousRuleDeclaration),
            ),
    {
        sink.span_err(current, DiagnosticKind::DuplicateRule);
        sink.span_note(pre, DiagnosticKind::PreviousRuleDeclaration);
    }
}

/// The set of a sequence extended by one element.
proof fn lemma_to_set_push(s: Seq<Ident>, x: Ident)
    ensures
        s.push(x).to_set() =~= s.to_set().insert(x),
{
    assert forall|y: Ident| s.push(x).to_set().contains(y) implies s.to_set().insert(x).contains(
        y,
    ) by {
        let j = choose|j: int| 0 <= j < s.push(x).len() && s.push(x)[j] == y;
        if j < s.len() {
            assert(s[j] == y);
        }
    }
    assert forall|y: Ident| s.to_set().insert(x).contains(y) implies s.push(x).to_set().contains(
        y,
    ) by {
        if y == x {
            assert(s.push(x)[s.len() as int] == y);
        } else {
            let j = choose|j: int| 0 <= j < s.len() && s[j] == y;
            assert(s.push(x)[j] == y);
        }
    }
}

/// A grammar with no rules always builds, and its rule mapping is empty:
/// an empty rule list cannot contain a duplicate. (Defective grammar-scope
/// attributes are reported but never prevent the build.)
pub proof fn lemma_empty_rules_build(rules: Seq<RawRule>)
    requires
        rules.len() == 0,
    ensures
        build_succeeds(rules),
        rule_names(rules).to_set() =~= Set::<Ident>::empty(),
{
}

/// A grammar whose rules bear pairwise-distinct names always builds, with
/// exactly one mapping entry per input rule: each rule is the first — and
/// only — occurrence of its own name, so by the builder's contract its name,
/// resolved attributes and unchanged expression tree are retained under its
/// name.
pub proof fn lemma_distinct_rules_build(rules: Seq<RawRule>)
    requires
        rule_names(rules).no_duplicates(),
    ensures
        build_succeeds(rules),
        rule_names(rules).to_set().len() == rules.len(),
        forall|i: int|
            0 <= i < rules.len() ==> rule_names(rules).to_set().contains(
                #[trigger] rule_names(rules)[i],
            ) && first_index_of(rule_names(rules), rule_names(rules)[i]) == i,
{
    let names = rule_names(rules);
    names.unique_seq_to_set();
    assert forall|i: int| 0 <= i < rules.len() implies names.to_set().contains(
        #[trigger] names[i],
    ) && first_index_of(names, names[i]) == i by {
        assert(names.to_set().contains(names[i]));
        lemma_first_index_at(names, names[i], i);
    }
}

/// Building is deterministic: two grammars built from the same raw grammar
/// agree on the grammar name, on the resolved grammar attributes, on the rule
/// names, and on every retained rule's name, attributes and expression tree.
/// (The diagnostic sequences coincide by the builder's contract alone, which
/// pins them as a function of the input.)
pub proof fn lemma_build_deterministic(g1: Grammar, g2: Grammar, raw: RawGrammar)
    requires
        grammar_matches(g1, raw),
        grammar_matches(g2, raw),
    ensures
        g1.name == g2.name,
        g1.attributes@ == g2.attributes@,
        g1.rules@.dom() == g2.rules@.dom(),
        forall|n: Ident|
            #[trigger] g1.rules@.dom().contains(n) ==> g1.rules@[n].name == g2.rules@[n].name
                && g1.rules@[n].def == g2.rules@[n].def && g1.rules@[n].attributes@
                == g2.rules@[n].attributes@,
{
}

/// A position holding `n`, before which `n` never occurs, is the first
/// occurrence of `n`.
pub proof fn lemma_first_index_at(names: Seq<Ident>, n: Ident, i: int)
    requires
        0 <= i < names.len(),
        names[i] == n,
        forall|j: int| 0 <= j < i ==> names[j] != n,
    ensures
        first_index_of(names, n) == i,
    decreases i,
{
    if i > 0 {
        assert(names[0] != n);
        assert(forall|j: int| 0 <= j < i - 1 ==> names.drop_first()[j] == names[j + 1]);
        assert(names.drop_first()[i - 1] == names[i]);
        lemma_first_index_at(names.drop_first(), n, i - 1);
    }
}

} // verus!
