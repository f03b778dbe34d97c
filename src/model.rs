//! The structural description of a type's layout and its mathematical view.
use vstd::prelude::*;

verus! {

/// The type that we use to represent the declaration of the Borsh type.
pub type Declaration = String;

/// The type that we use for the name of the variant.
pub type VariantName = String;

/// The name of the field in a struct.
pub type FieldName = String;

/// The collection representing the fields of a struct.
#[derive(Debug)]
pub enum Fields {
    /// The struct with named fields.
    NamedFields(Vec<(FieldName, Declaration)>),
    /// The struct with unnamed fields, structurally identical to a tuple.
    UnnamedFields(Vec<Declaration>),
    /// The struct with no fields.
    Empty,
}

/// The definition of a Borsh type: how to read and write a value of it.
#[derive(Debug)]
pub enum Definition {
    /// A fixed-size array with the length known at compile time and same-type elements.
    Array { length: u32, elements: Declaration },
    /// A sequence whose length is known only at run time, of same-type elements.
    Sequence { elements: Declaration },
    /// A fixed-size tuple of elements of different types.
    Tuple { elements: Vec<Declaration> },
    /// A tagged union: variants, each with the declaration of its payload.
    Enum { variants: Vec<(VariantName, Declaration)> },
    /// A structure.
    Struct { fields: Fields },
}

/// Why a schema could not be built.
#[derive(Debug, Clone, Copy, PartialEq, Eq, Structural)]
pub enum SchemaError {
    /// Two different definitions were given under one declaration.
    SchemaConflict,
}

/// What a `Fields` value says, with every string seen as its characters.
pub enum FieldsView {
    NamedFields(Seq<(Seq<char>, Seq<char>)>),
    UnnamedFields(Seq<Seq<char>>),
    Empty,
}

/// What a `Definition` value says, with every string seen as its characters.
pub enum DefinitionView {
    Array { length: u32, elements: Seq<char> },
    Sequence { elements: Seq<char> },
    Tuple { elements: Seq<Seq<char>> },
    Enum { variants: Seq<(Seq<char>, Seq<char>)> },
    Struct { fields: FieldsView },
}

pub open spec fn names_view(s: Seq<String>) -> Seq<Seq<char>> {
    s.map_values(|x: String| x@)
}

pub open spec fn pairs_view(s: Seq<(String, String)>) -> Seq<(Seq<char>, Seq<char>)> {
    s.map_values(|p: (String, String)| (p.0@, p.1@))
}

impl View for Fields {
    type V = FieldsView;

    open spec fn view(&self) -> FieldsView {
        match self {
            Fields::NamedFields(v) => FieldsView::NamedFields(pairs_view(v@)),
            Fields::UnnamedFields(v) => FieldsView::UnnamedFields(names_view(v@)),
            Fields::Empty => FieldsView::Empty,
        }
    }
}

impl View for Definition {
    type V = DefinitionView;

    open spec fn view(&self) -> DefinitionView {
        match self {
            Definition::Array { length, elements } => DefinitionView::Array {
                length: *length,
                elements: elements@,
            },
            Definition::Sequence { elements } => DefinitionView::Sequence { elements: elements@ },
            Definition::Tuple { elements } => DefinitionView::Tuple { elements: names_view(elements@) },
            Definition::Enum { variants } => DefinitionView::Enum { variants: pairs_view(variants@) },
            Definition::Struct { fields } => DefinitionView::Struct { fields: fields@ },
        }
    }
}

fn names_eq(a: &Vec<String>, b: &Vec<String>) -> (r: bool)
    ensures
        r == (names_view(a@) == names_view(b@)),
{
    if a.len() != b.len() {
        assert(names_view(a@).len() != names_view(b@).len());
        return false;
    }
    let mut i: usize = 0;
    while i < a.len()
        invariant
            a.len() == b.len(),
            0 <= i <= a.len(),
            forall|j: int| 0 <= j < i ==> a@[j]@ == b@[j]@,
        decreases a.len() - i,
    {
        if a[i] != b[i] {
            assert(names_view(a@)[i as int] != names_view(b@)[i as int]);
            return false;
        }
        i += 1;
    }
    assert(names_view(a@) =~= names_view(b@));
    true
}

fn pairs_eq(a: &Vec<(String, String)>, b: &Vec<(String, String)>) -> (r: bool)
    ensures
        r == (pairs_view(a@) == pairs_view(b@)),
{
    if a.len() != b.len() {
        assert(pairs_view(a@).len() != pairs_view(b@).len());
        return false;
    }
    let mut i: usize = 0;
    while i < a.len()
        invariant
            a.len() == b.len(),
            0 <= i <= a.len(),
            forall|j: int| 0 <= j < i ==> a@[j].0@ == b@[j].0@ && a@[j].1@ == b@[j].1@,
        decreases a.len() - i,
    {
        if a[i].0 != b[i].0 || a[i].1 != b[i].1 {
            assert(pairs_view(a@)[i as int] != pairs_view(b@)[i as int]);
            return false;
        }
        i += 1;
    }
    assert(pairs_view(a@) =~= pairs_view(b@));
    true
}

/// Whether two field lists say the same.
pub fn same_fields(this: &Fields, other: &Fields) -> (r: bool)
    ensures
        r == (this@ == other@),
{
        match this {
            Fields::NamedFields(a) => match other {
                Fields::NamedFields(b) => pairs_eq(a, b),
                _ => {
                    assert(this@ != other@);
                    false
                },
            },
            Fields::UnnamedFields(a) => match other {
                Fields::UnnamedFields(b) => names_eq(a, b),
                _ => {
                    assert(this@ != other@);
                    false
                },
            },
            Fields::Empty => match other {
                Fields::Empty => true,
                _ => {
                    assert(this@ != other@);
                    false
                },
            },
        }
}

impl PartialEq for Fields {
    fn eq(&self, other: &Fields) -> (r: bool) {
        same_fields(self, other)
    }
}

impl vstd::std_specs::cmp::PartialEqSpecImpl for Fields {
    open spec fn obeys_eq_spec() -> bool {
        true
    }

    open spec fn eq_spec(&self, other: &Fields) -> bool {
        self@ == other@
    }
}

impl Eq for Fields {
}

/// Whether two definitions say the same.
pub fn same_definition(this: &Definition, other: &Definition) -> (r: bool)
    ensures
        r == (this@ == other@),
{
        match this {
            Definition::Array { length: la, elements: ea } => match other {
                Definition::Array { length: lb, elements: eb } => {
                    *la == *lb && *ea == *eb
                },
                _ => {
                    assert(this@ != other@);
                    false
                },
            },
            Definition::Sequence { elements: a } => match other {
                Definition::Sequence { elements: b } => *a == *b,
                _ => {
                    assert(this@ != other@);
                    false
                },
            },
            Definition::Tuple { elements: a } => match other {
                Definition::Tuple { elements: b } => names_eq(a, b),
                _ => {
                    assert(this@ != other@);
                    false
                },
            },
            Definition::Enum { variants: a } => match other {
                Definition::Enum { variants: b } => pairs_eq(a, b),
                _ => {
                    assert(this@ != other@);
                    false
                },
            },
            Definition::Struct { fields: a } => match other {
                Definition::Struct { fields: b } => same_fields(a, b),
                _ => {
                    assert(this@ != other@);
                    false
                },
            },
        }
}

impl PartialEq for Definition {
    fn eq(&self, other: &Definition) -> (r: bool) {
        same_definition(self, other)
    }
}

impl vstd::std_specs::cmp::PartialEqSpecImpl for Definition {
    open spec fn obeys_eq_spec() -> bool {
        true
    }

    open spec fn eq_spec(&self, other: &Definition) -> bool {
        self@ == other@
    }
}

impl Eq for Definition {
}

} // verus!
