//! The attribute model registry: declarative, per-scope configuration saying
//! which attributes are recognized, what shape of value each expects, and
//! which default, if any, fills in for an omitted attribute. Constructed
//! fresh per check call and never mutated, so grammar-level and rule-level
//! attributes cannot be confused.

use vstd::prelude::*;
use crate::source::Ident;

verus! {

/// The shape a supplied attribute value can take.
#[derive(Clone, Copy, PartialEq, Eq, Structural, Debug)]
pub enum ValueShape {
    /// A bare marker with no value.
    Unit,
    /// A boolean flag.
    Boolean,
    /// An identifier naming something else in the grammar.
    Symbol,
}

/// A concrete attribute value as the front end parsed it.
#[derive(Clone, Copy, PartialEq, Eq, Structural, Debug)]
pub enum AttributeValue {
    Unit,
    Boolean(bool),
    Symbol(Ident),
}

/// The shape of a concrete value.
pub open spec fn shape_of(v: AttributeValue) -> ValueShape {
    match v {
        AttributeValue::Unit => ValueShape::Unit,
        AttributeValue::Boolean(_) => ValueShape::Boolean,
        AttributeValue::Symbol(_) => ValueShape::Symbol,
    }
}

/// Compute the shape of a concrete value.
pub fn value_shape(v: &AttributeValue) -> (s: ValueShape)
    ensures
        s == shape_of(*v),
{
    match v {
        AttributeValue::Unit => ValueShape::Unit,
        AttributeValue::Boolean(_) => ValueShape::Boolean,
        AttributeValue::Symbol(_) => ValueShape::Symbol,
    }
}

/// One declared attribute: its name, the shape a supplied value must have,
/// and the default used when the attribute is omitted (`None`: simply absent).
#[derive(Clone, Copy, PartialEq, Eq, Debug)]
pub struct AttributeDecl {
    pub name: Ident,
    pub shape: ValueShape,
    pub default: Option<AttributeValue>,
}

/// The scope a raw attribute list belongs to.
#[derive(Clone, Copy, PartialEq, Eq, Structural, Debug)]
pub enum AttributeScope {
    Grammar,
    Rule,
}

/// The first declaration of `name` in `decls`, if any.
pub open spec fn find_decl(decls: Seq<AttributeDecl>, name: Ident) -> Option<AttributeDecl>
    decreases decls.len(),
{
    if decls.len() == 0 {
        None
    } else if decls[0].name == name {
        Some(decls[0])
    } else {
        find_decl(decls.drop_first(), name)
    }
}

/// Pairwise-distinct declaration names: the model is a mapping.
pub open spec fn distinct_decl_names(decls: Seq<AttributeDecl>) -> bool {
    forall|i: int, j: int|
        0 <= i < j < decls.len() ==> #[trigger] decls[i].name != #[trigger] decls[j].name
}

/// Grammar-scope attribute, boolean: print the generated recognizer code.
pub const ATTR_PRINT_CODE: Ident = 1;

/// Grammar-scope attribute, boolean: print the inferred typing of each rule.
pub const ATTR_PRINT_TYPING: Ident = 2;

/// Rule-scope attribute, bare marker: this rule is the grammar's entry point.
pub const ATTR_START: Ident = 3;

/// Rule-scope attribute, boolean: inline this rule into its call sites.
pub const ATTR_INLINE: Ident = 4;

/// The canonical declarations for a scope: the single place where the legal
/// attribute names, shapes and defaults are defined.
pub open spec fn spec_model_decls(scope: AttributeScope) -> Seq<AttributeDecl> {
    match scope {
        AttributeScope::Grammar => seq![
            AttributeDecl {
                name: ATTR_PRINT_CODE,
                shape: ValueShape::Boolean,
                default: Some(AttributeValue::Boolean(false)),
            },
            AttributeDecl {
                name: ATTR_PRINT_TYPING,
                shape: ValueShape::Boolean,
                default: Some(AttributeValue::Boolean(false)),
            },
        ],
        AttributeScope::Rule => seq![
            AttributeDecl { name: ATTR_START, shape: ValueShape::Unit, default: None },
            AttributeDecl {
                name: ATTR_INLINE,
                shape: ValueShape::Boolean,
                default: Some(AttributeValue::Boolean(false)),
            },
        ],
    }
}

/// The declarative attribute schema for one scope.
pub struct AttributeModel {
    decls: Vec<AttributeDecl>,
}

impl View for AttributeModel {
    type V = Seq<AttributeDecl>;

    closed spec fn view(&self) -> Seq<AttributeDecl> {
        self.decls@
    }
}

impl AttributeModel {
    /// The model declares each attribute name at most once.
    pub open spec fn wf(&self) -> bool {
        distinct_decl_names(self@)
    }

    /// The registry: the canonical model for a scope. Pure function of scope
    /// identity; the model always exists for a scope the compiler knows.
    pub fn for_scope(scope: AttributeScope) -> (m: AttributeModel)
        ensures
            m@ == spec_model_decls(scope),
            m.wf(),
    {
        let mut decls: Vec<AttributeDecl> = Vec::new();
        match scope {
            AttributeScope::Grammar => {
                decls.push(AttributeDecl {
                    name: ATTR_PRINT_CODE,
                    shape: ValueShape::Boolean,
                    default: Some(AttributeValue::Boolean(false)),
                });
                decls.push(AttributeDecl {
                    name: ATTR_PRINT_TYPING,
                    shape: ValueShape::Boolean,
                    default: Some(AttributeValue::Boolean(false)),
                });
            },
            AttributeScope::Rule => {
                decls.push(AttributeDecl { name: ATTR_START, shape: ValueShape::Unit, default: None });
                decls.push(AttributeDecl {
                    name: ATTR_INLINE,
                    shape: ValueShape::Boolean,
                    default: Some(AttributeValue::Boolean(false)),
                });
            },
        }
        proof {
            assert(decls@ =~= spec_model_decls(scope));
        }
        AttributeModel { decls }
    }

    /// How many attributes the model declares.
    pub fn len(&self) -> (n: usize)
        ensures
            n == self@.len(),
    {
        self.decls.len()
    }

    /// The declaration at position `i`.
    pub fn decl_at(&self, i: usize) -> (d: AttributeDecl)
        requires
            i < self@.len(),
        ensures
            d == self@[i as int],
    {
        self.decls[i]
    }

    /// Look up the declaration of `name`, if the model recognizes it.
    pub fn find(&self, name: Ident) -> (r: Option<AttributeDecl>)
        ensures
            r == find_decl(self@, name),
    {
        let mut i: usize = 0;
        proof {
            assert(self@.skip(0) =~= self@);
        }
        while i < self.decls.len()
            invariant
                i <= self.decls.len(),
                find_decl(self@, name) == find_decl(self@.skip(i as int), name),
            decreases self.decls.len() - i,
        {
            proof {
                assert(self@.skip(i as int)[0] == self@[i as int]);
                assert(self@.skip(i as int).drop_first() =~= self@.skip(i as int + 1));
            }
            if self.decls[i].name == name {
                return Some(self.decls[i]);
            }
            i = i + 1;
        }
        proof {
            assert(self@.skip(i as int).len() == 0);
        }
        None
    }
}

} // verus!
