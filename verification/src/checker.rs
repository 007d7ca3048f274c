//! The attribute checker: validates one raw attribute list against one
//! scope's model, never stopping at the first defect. Every entry is
//! classified as accepted or rejected; each rejection is reported through the
//! diagnostic sink while the pass continues, and afterwards every declared
//! attribute that was omitted is filled with its default, if it has one. The
//! checker always returns a resolved set; the caller decides whether the
//! accumulated diagnostics are fatal.

use vstd::prelude::*;
use crate::source::Ident;
use crate::diagnostics::{Diagnostic, DiagnosticKind, DiagnosticSink, error_at};
use crate::model::{
    AttributeDecl, AttributeModel, AttributeValue, distinct_decl_names, find_decl, shape_of,
    value_shape,
};
use crate::raw::RawAttribute;

verus! {

/// One validated attribute: a recognized name and its accepted value.
#[derive(Clone, Copy, PartialEq, Eq, Structural, Debug)]
pub struct AttributeEntry {
    pub name: Ident,
    pub value: AttributeValue,
}

/// Whether some entry carries `name`.
pub open spec fn has_entry(s: Seq<AttributeEntry>, name: Ident) -> bool {
    exists|i: int| 0 <= i < s.len() && #[trigger] s[i].name == name
}

/// The value of the first entry carrying `name`, if any.
pub open spec fn entry_value(s: Seq<AttributeEntry>, name: Ident) -> Option<AttributeValue>
    decreases s.len(),
{
    if s.len() == 0 {
        None
    } else if s[0].name == name {
        Some(s[0].value)
    } else {
        entry_value(s.drop_first(), name)
    }
}

/// No two entries carry the same name: the resolved set is a mapping.
pub open spec fn unique_entry_names(s: Seq<AttributeEntry>) -> bool {
    forall|i: int, j: int| 0 <= i < j < s.len() ==> #[trigger] s[i].name != #[trigger] s[j].name
}

/// Every entry's name is one the model declares.
pub open spec fn entries_recognized(decls: Seq<AttributeDecl>, s: Seq<AttributeEntry>) -> bool {
    forall|i: int| 0 <= i < s.len() ==> find_decl(decls, #[trigger] s[i].name) is Some
}

/// How one raw entry is classified against the model, given what has been
/// accepted so far: either it extends the accepted entries, or it is dropped
/// and a diagnostic is appended.
pub open spec fn check_step(
    decls: Seq<AttributeDecl>,
    a: RawAttribute,
    acc: Seq<AttributeEntry>,
    diags: Seq<Diagnostic>,
) -> (Seq<AttributeEntry>, Seq<Diagnostic>) {
    match find_decl(decls, a.name) {
        None => (acc, diags.push(error_at(a.span, DiagnosticKind::UnknownAttribute))),
        Some(d) => if has_entry(acc, a.name) {
            (acc, diags.push(error_at(a.span, DiagnosticKind::DuplicateAttribute)))
        } else if shape_of(a.value) != d.shape {
            (acc, diags.push(error_at(a.span, DiagnosticKind::MalformedAttributeValue)))
        } else {
            (acc.push(AttributeEntry { name: a.name, value: a.value }), diags)
        },
    }
}

/// The full left-to-right pass over a raw list: accepted entries and emitted
/// diagnostics, starting from what earlier entries accumulated.
pub open spec fn check_raws(
    decls: Seq<AttributeDecl>,
    raws: Seq<RawAttribute>,
    acc: Seq<AttributeEntry>,
    diags: Seq<Diagnostic>,
) -> (Seq<AttributeEntry>, Seq<Diagnostic>)
    decreases raws.len(),
{
    if raws.len() == 0 {
        (acc, diags)
    } else {
        let (acc2, diags2) = check_step(decls, raws[0], acc, diags);
        check_raws(decls, raws.drop_first(), acc2, diags2)
    }
}

/// After the pass: each declared attribute that is still absent and has a
/// default is appended with that default, in declaration order.
pub open spec fn fill_defaults(
    decls: Seq<AttributeDecl>,
    acc: Seq<AttributeEntry>,
) -> Seq<AttributeEntry>
    decreases decls.len(),
{
    if decls.len() == 0 {
        acc
    } else {
        let acc2 = match decls[0].default {
            Some(v) => if !has_entry(acc, decls[0].name) {
                acc.push(AttributeEntry { name: decls[0].name, value: v })
            } else {
                acc
            },
            None => acc,
        };
        fill_defaults(decls.drop_first(), acc2)
    }
}

/// What checking a raw list against a model resolves to.
pub open spec fn check_resolved(
    decls: Seq<AttributeDecl>,
    raws: Seq<RawAttribute>,
) -> Seq<AttributeEntry> {
    fill_defaults(decls, check_raws(decls, raws, Seq::empty(), Seq::empty()).0)
}

/// The diagnostics checking a raw list against a model emits, in order.
pub open spec fn check_diags(decls: Seq<AttributeDecl>, raws: Seq<RawAttribute>) -> Seq<
    Diagnostic,
> {
    check_raws(decls, raws, Seq::empty(), Seq::empty()).1
}

/// The outcome of checking: a mapping from recognized attribute name to its
/// validated (or defaulted) value.
pub struct ResolvedAttributes {
    entries: Vec<AttributeEntry>,
}

impl View for ResolvedAttributes {
    type V = Seq<AttributeEntry>;

    closed spec fn view(&self) -> Seq<AttributeEntry> {
        self.entries@
    }
}

impl ResolvedAttributes {
    /// How many attributes were resolved.
    pub fn len(&self) -> (n: usize)
        ensures
            n == self@.len(),
    {
        self.entries.len()
    }

    /// The entry at position `i`.
    pub fn entry(&self, i: usize) -> (e: AttributeEntry)
        requires
            i < self@.len(),
        ensures
            e == self@[i as int],
    {
        self.entries[i]
    }

    /// The resolved value of `name`, if the set contains it.
    pub fn get(&self, name: Ident) -> (r: Option<AttributeValue>)
        ensures
            r == entry_value(self@, name),
            r is Some <==> has_entry(self@, name),
    {
        let mut i: usize = 0;
        proof {
            assert(self@.skip(0) =~= self@);
        }
        while i < self.entries.len()
            invariant
                i <= self.entries.len(),
                entry_value(self@, name) == entry_value(self@.skip(i as int), name),
                forall|j: int| 0 <= j < i ==> #[trigger] self@[j].name != name,
            decreases self.entries.len() - i,
        {
            proof {
                assert(self@.skip(i as int)[0] == self@[i as int]);
                assert(self@.skip(i as int).drop_first() =~= self@.skip(i as int + 1));
            }
            if self.entries[i].name == name {
                return Some(self.entries[i].value);
            }
            i = i + 1;
        }
        proof {
            assert(self@.skip(i as int).len() == 0);
        }
        None
    }
}

/// Validate a raw attribute list against a scope's model. The whole list is
/// processed whatever defects turn up: each unknown name, duplicated name or
/// wrong-shaped value is reported through `sink` and dropped, every accepted
/// entry is kept, and omitted declared attributes with a default are filled
/// in. The result always exists; it never contains an undeclared name and
/// never carries a name twice.
pub fn check_all(
    model: &AttributeModel,
    raws: Vec<RawAttribute>,
    sink: &mut DiagnosticSink,
) -> (r: ResolvedAttributes)
    ensures
        r@ == check_resolved(model@, raws@),
        final(sink)@ == old(sink)@ + check_diags(model@, raws@),
        unique_entry_names(r@),
        entries_recognized(model@, r@),
{
    let ghost decls = model@;
    let ghost orig = raws@;
    let ghost sink0 = sink@;
    let mut entries: Vec<AttributeEntry> = Vec::new();
    let mut i: usize = 0;
    proof {
        assert(orig.skip(0) =~= orig);
        assert(sink@.skip(sink0.len() as int) =~= Seq::<Diagnostic>::empty());
        assert(sink@.take(sink0.len() as int) =~= sink0);
    }
    while i < raws.len()
        invariant
            i <= raws.len(),
            raws@ == orig,
            decls == model@,
            sink0.len() <= sink@.len(),
            sink@.take(sink0.len() as int) == sink0,
            check_raws(decls, orig, Seq::empty(), Seq::empty()) == check_raws(
                decls,
                orig.skip(i as int),
                entries@,
                sink@.skip(sink0.len() as int),
            ),
            unique_entry_names(entries@),
            entries_recognized(decls, entries@),
        decreases raws.len() - i,
    {
        let a = raws[i];
        proof {
            assert(orig.skip(i as int)[0] == orig[i as int]);
            assert(orig.skip(i as int).drop_first() =~= orig.skip(i as int + 1));
        }
        let ghost pre_entries = entries@;
        let ghost pre_emitted = sink@.skip(sink0.len() as int);
        let ghost stepres = check_step(decls, orig[i as int], pre_entries, pre_emitted);
        match model.find(a.name) {
            None => {
                sink.span_err(a.span, DiagnosticKind::UnknownAttribute);
            },
            Some(d) => {
                let already = entries_get(&entries, a.name).is_some();
                if already {
                    sink.span_err(a.span, DiagnosticKind::DuplicateAttribute);
                } else if value_shape(&a.value) != d.shape {
                    sink.span_err(a.span, DiagnosticKind::MalformedAttributeValue);
                } else {
                    entries.push(AttributeEntry { name: a.name, value: a.value });
                }
            },
        }
        proof {
            assert(sink@.take(sink0.len() as int) =~= sink0);
            assert(sink@.skip(sink0.len() as int) =~= stepres.1);
            assert(entries@ =~= stepres.0);
            assert(check_raws(decls, orig.skip(i as int), pre_entries, pre_emitted)
                == check_raws(decls, orig.skip(i as int + 1), stepres.0, stepres.1));
        }
        i = i + 1;
    }
    proof {
        assert(orig.skip(i as int).len() == 0);
        assert(sink@ =~= sink0 + sink@.skip(sink0.len() as int));
    }
    // The pass is over; fill in the defaults of the omitted declarations.
    let ghost after_raws = entries@;
    let mut j: usize = 0;
    proof {
        assert(decls.skip(0) =~= decls);
    }
    while j < model.len()
        invariant
            j <= model@.len(),
            decls == model@,
            fill_defaults(decls, after_raws) == fill_defaults(decls.skip(j as int), entries@),
            unique_entry_names(entries@),
            entries_recognized(decls, entries@),
        decreases model@.len() - j,
    {
        proof {
            assert(decls.skip(j as int)[0] == decls[j as int]);
            assert(decls.skip(j as int).drop_first() =~= decls.skip(j as int + 1));
        }
        let d = model.decl_at(j);
        match d.default {
            Some(v) => {
                let present = entries_get(&entries, d.name).is_some();
                if !present {
                    entries.push(AttributeEntry { name: d.name, value: v });
                    proof {
                        lemma_find_decl_at(decls, j as int);
                    }
                }
            },
            None => {},
        }
        j = j + 1;
    }
    proof {
        assert(decls.skip(j as int).len() == 0);
    }
    ResolvedAttributes { entries }
}

/// Whether `entries` already carries `name`, and with which value.
fn entries_get(entries: &Vec<AttributeEntry>, name: Ident) -> (r: Option<AttributeValue>)
    ensures
        r is Some <==> has_entry(entries@, name),
{
    let mut i: usize = 0;
    while i < entries.len()
        invariant
            i <= entries.len(),
            forall|j: int| 0 <= j < i ==> #[trigger] entries@[j].name != name,
        decreases entries.len() - i,
    {
        if entries[i].name == name {
            return Some(entries[i].value);
        }
        i = i + 1;
    }
    None
}

/// The first declaration of the name at position `i` is at or before `i`;
/// in particular the name is declared.
pub proof fn lemma_find_decl_at(decls: Seq<AttributeDecl>, i: int)
    requires
        0 <= i < decls.len(),
    ensures
        find_decl(decls, decls[i].name) is Some,
    decreases i,
{
    if decls[0].name != decls[i].name {
        lemma_find_decl_at(decls.drop_first(), i - 1);
        assert(decls.drop_first()[i - 1] == decls[i]);
    }
}

/// Appending an entry does not disturb the value an earlier entry gave a name.
proof fn lemma_entry_value_push(s: Seq<AttributeEntry>, e: AttributeEntry, name: Ident)
    ensures
        entry_value(s.push(e), name) == if has_entry(s, name) {
            entry_value(s, name)
        } else if e.name == name {
            Some(e.value)
        } else {
            None::<AttributeValue>
        },
    decreases s.len(),
{
    if s.len() == 0 {
        assert(s.push(e)[0] == e);
        assert(s.push(e).drop_first() =~= Seq::<AttributeEntry>::empty());
        assert(!has_entry(s, name));
        assert(entry_value(Seq::<AttributeEntry>::empty(), name) is None);
        if e.name == name {
            assert(entry_value(s.push(e), name) == Some(e.value));
        } else {
            assert(entry_value(s.push(e), name) is None);
        }
    } else {
        assert(s.push(e)[0] == s[0]);
        assert(s.push(e).drop_first() =~= s.drop_first().push(e));
        lemma_entry_value_push(s.drop_first(), e, name);
        if s[0].name == name {
            assert(has_entry(s, name));
            assert(entry_value(s.push(e), name) == Some(s[0].value));
            assert(entry_value(s, name) == Some(s[0].value));
        } else {
            assert(entry_value(s, name) == entry_value(s.drop_first(), name));
            assert(entry_value(s.push(e), name) == entry_value(s.drop_first().push(e), name));
            assert(has_entry(s, name) <==> has_entry(s.drop_first(), name)) by {
                if has_entry(s, name) {
                    let witness = choose|i: int| 0 <= i < s.len() && #[trigger] s[i].name == name;
                    assert(s.drop_first()[witness - 1].name == name);
                }
                if has_entry(s.drop_first(), name) {
                    let witness = choose|i: int|
                        0 <= i < s.drop_first().len() && #[trigger] s.drop_first()[i].name == name;
                    assert(s[witness + 1].name == name);
                }
            }
        }
    }
}

/// A name no raw entry carries is never accepted by the raw pass.
proof fn lemma_check_raws_no_name(
    decls: Seq<AttributeDecl>,
    raws: Seq<RawAttribute>,
    acc: Seq<AttributeEntry>,
    diags: Seq<Diagnostic>,
    name: Ident,
)
    requires
        !has_entry(acc, name),
        forall|i: int| 0 <= i < raws.len() ==> #[trigger] raws[i].name != name,
    ensures
        !has_entry(check_raws(decls, raws, acc, diags).0, name),
    decreases raws.len(),
{
    if raws.len() > 0 {
        let (acc2, diags2) = check_step(decls, raws[0], acc, diags);
        assert(!has_entry(acc2, name)) by {
            if acc2 != acc {
                assert(acc2 =~= acc.push(AttributeEntry { name: raws[0].name, value: raws[0].value }));
                assert(forall|i: int|
                    0 <= i < acc2.len() ==> #[trigger] acc2[i].name == if i < acc.len() {
                        acc[i].name
                    } else {
                        raws[0].name
                    });
            }
        }
        assert(forall|i: int|
            0 <= i < raws.drop_first().len() ==> #[trigger] raws.drop_first()[i].name
                == raws[i + 1].name);
        lemma_check_raws_no_name(decls, raws.drop_first(), acc2, diags2, name);
    }
}

/// Filling defaults never disturbs a name already resolved.
proof fn lemma_fill_defaults_preserves(
    decls: Seq<AttributeDecl>,
    acc: Seq<AttributeEntry>,
    name: Ident,
)
    requires
        has_entry(acc, name),
    ensures
        entry_value(fill_defaults(decls, acc), name) == entry_value(acc, name),
        has_entry(fill_defaults(decls, acc), name),
    decreases decls.len(),
{
    if decls.len() > 0 {
        let acc2 = match decls[0].default {
            Some(v) => if !has_entry(acc, decls[0].name) {
                acc.push(AttributeEntry { name: decls[0].name, value: v })
            } else {
                acc
            },
            None => acc,
        };
        if acc2 != acc {
            let e = AttributeEntry { name: decls[0].name, value: decls[0].default.unwrap() };
            lemma_entry_value_push(acc, e, name);
            let witness = choose|i: int| 0 <= i < acc.len() && #[trigger] acc[i].name == name;
            assert(acc.push(e)[witness].name == name);
        }
        lemma_fill_defaults_preserves(decls.drop_first(), acc2, name);
    }
}

/// Filling defaults gives a declared-but-absent name its default value.
proof fn lemma_fill_defaults_fills(decls: Seq<AttributeDecl>, acc: Seq<AttributeEntry>, j: int)
    requires
        distinct_decl_names(decls),
        0 <= j < decls.len(),
        decls[j].default is Some,
        !has_entry(acc, decls[j].name),
    ensures
        entry_value(fill_defaults(decls, acc), decls[j].name) == decls[j].default,
        has_entry(fill_defaults(decls, acc), decls[j].name),
    decreases decls.len(),
{
    let name = decls[j].name;
    if j == 0 {
        let e = AttributeEntry { name, value: decls[0].default.unwrap() };
        let acc2 = acc.push(e);
        lemma_entry_value_push(acc, e, name);
        assert(acc2[acc.len() as int].name == name);
        lemma_fill_defaults_preserves(decls.drop_first(), acc2, name);
    } else {
        assert(decls.drop_first()[j - 1] == decls[j]);
        assert(decls[0].name != name);
        let acc2 = match decls[0].default {
            Some(v) => if !has_entry(acc, decls[0].name) {
                acc.push(AttributeEntry { name: decls[0].name, value: v })
            } else {
                acc
            },
            None => acc,
        };
        assert(!has_entry(acc2, name)) by {
            if acc2 != acc {
                assert(acc2 =~= acc.push(
                    AttributeEntry { name: decls[0].name, value: decls[0].default.unwrap() },
                ));
                assert(forall|i: int|
                    0 <= i < acc2.len() ==> #[trigger] acc2[i].name == if i < acc.len() {
                        acc[i].name
                    } else {
                        decls[0].name
                    });
            }
        }
        assert(distinct_decl_names(decls.drop_first())) by {
            assert(forall|a: int, b: int|
                0 <= a < b < decls.drop_first().len() ==> #[trigger] decls.drop_first()[a].name
                    != #[trigger] decls.drop_first()[b].name) by {
                assert(forall|a: int|
                    0 <= a < decls.drop_first().len() ==> #[trigger] decls.drop_first()[a]
                        == decls[a + 1]);
            }
        }
        lemma_fill_defaults_fills(decls.drop_first(), acc2, j - 1);
    }
}

/// Default-filling, stated as a law: an attribute the model declares with a
/// default, and which the raw list omits, resolves to exactly that default.
pub proof fn lemma_omitted_default_resolves(
    decls: Seq<AttributeDecl>,
    raws: Seq<RawAttribute>,
    j: int,
)
    requires
        distinct_decl_names(decls),
        0 <= j < decls.len(),
        decls[j].default is Some,
        forall|i: int| 0 <= i < raws.len() ==> #[trigger] raws[i].name != decls[j].name,
    ensures
        has_entry(check_resolved(decls, raws), decls[j].name),
        entry_value(check_resolved(decls, raws), decls[j].name) == decls[j].default,
{
    let accepted = check_raws(decls, raws, Seq::empty(), Seq::empty()).0;
    lemma_check_raws_no_name(decls, raws, Seq::empty(), Seq::empty(), decls[j].name);
    lemma_fill_defaults_fills(decls, accepted, j);
}

/// An empty raw attribute list emits no diagnostic: in particular, filling an
/// omitted default is silent.
pub proof fn lemma_no_raw_attributes_no_diagnostics(decls: Seq<AttributeDecl>)
    ensures
        check_diags(decls, Seq::empty()) == Seq::<Diagnostic>::empty(),
{
}

} // verus!
