//! The schema registry: each type names itself and contributes its definitions,
//! depth first, into one shared, conflict-checked map.
use crate::definitions::Definitions;
use crate::model::{same_definition, Declaration, Definition, DefinitionView, FieldsView, SchemaError};
use vstd::prelude::*;

verus! {

/// The map holding `definition` under `declaration` and nothing else.
pub open spec fn single(declaration: Seq<char>, definition: DefinitionView) -> Map<
    Seq<char>,
    DefinitionView,
> {
    Map::empty().insert(declaration, definition)
}

/// The two maps agree on every declaration they both hold.
pub open spec fn compatible(
    a: Map<Seq<char>, DefinitionView>,
    b: Map<Seq<char>, DefinitionView>,
) -> bool {
    forall|k: Seq<char>| a.contains_key(k) && b.contains_key(k) ==> a[k] == b[k]
}

/// `d` is one of the declarations that `definition` is built from.
pub open spec fn refers_to(definition: DefinitionView, d: Seq<char>) -> bool {
    match definition {
        DefinitionView::Array { elements, .. } => elements == d,
        DefinitionView::Sequence { elements } => elements == d,
        DefinitionView::Tuple { elements } => exists|i: int|
            0 <= i < elements.len() && elements[i] == d,
        DefinitionView::Enum { variants } => exists|i: int|
            0 <= i < variants.len() && variants[i].1 == d,
        DefinitionView::Struct { fields } => match fields {
            FieldsView::NamedFields(v) => exists|i: int| 0 <= i < v.len() && v[i].1 == d,
            FieldsView::UnnamedFields(v) => exists|i: int| 0 <= i < v.len() && v[i] == d,
            FieldsView::Empty => false,
        },
    }
}

/// The declarations whose meaning is fixed by the format itself and which need no
/// definition.
pub open spec fn primitive_declaration(d: Seq<char>) -> bool {
    d == "bool"@ || d == "f32"@ || d == "f64"@ || d == "i8"@ || d == "i16"@ || d == "i32"@ || d
        == "i64"@ || d == "i128"@ || d == "u8"@ || d == "u16"@ || d == "u32"@ || d == "u64"@ || d
        == "u128"@ || d == "string"@ || d == "nil"@
}

/// Every declaration that a definition of the map is built from is either defined in
/// the map or primitive.
pub open spec fn closed(m: Map<Seq<char>, DefinitionView>) -> bool {
    forall|k: Seq<char>, d: Seq<char>|
        m.contains_key(k) && #[trigger] refers_to(m[k], d) ==> m.contains_key(d)
            || primitive_declaration(d)
}

/// The union of two closed maps is closed.
pub proof fn lemma_closed_union(a: Map<Seq<char>, DefinitionView>, b: Map<Seq<char>, DefinitionView>)
    requires
        closed(a),
        closed(b),
    ensures
        closed(a.union_prefer_right(b)),
{
    let u = a.union_prefer_right(b);
    assert forall|k: Seq<char>, d: Seq<char>|
        u.contains_key(k) && #[trigger] refers_to(u[k], d) implies u.contains_key(d)
            || primitive_declaration(d) by {
        if b.contains_key(k) {
            assert(refers_to(b[k], d));
        } else {
            assert(refers_to(a[k], d));
        }
    }
}

/// Adding a definition built only from declarations that a closed map defines, or
/// from primitives, keeps it closed.
pub proof fn lemma_closed_add(
    declaration: Seq<char>,
    definition: DefinitionView,
    s: Map<Seq<char>, DefinitionView>,
)
    requires
        closed(s),
        forall|d: Seq<char>|
            #[trigger] refers_to(definition, d) ==> s.contains_key(d) || primitive_declaration(d),
    ensures
        closed(single(declaration, definition).union_prefer_right(s)),
{
    let u = single(declaration, definition).union_prefer_right(s);
    assert forall|k: Seq<char>, d: Seq<char>|
        u.contains_key(k) && #[trigger] refers_to(u[k], d) implies u.contains_key(d)
            || primitive_declaration(d) by {
        if s.contains_key(k) {
            assert(refers_to(s[k], d));
        } else {
            assert(refers_to(definition, d));
        }
    }
}

/// All schema information needed to deserialize a single type.
#[derive(Debug)]
pub struct BorshSchemaContainer {
    /// Declaration of the type.
    pub declaration: Declaration,
    /// All definitions needed to deserialize the given type.
    pub definitions: Definitions,
}

/// The declaration of an own entry.
pub open spec fn own_key(own: Option<(Seq<char>, DefinitionView)>) -> Seq<char> {
    match own {
        Some(p) => p.0,
        None => Seq::empty(),
    }
}

/// The definition of an own entry.
pub open spec fn own_def(own: Option<(Seq<char>, DefinitionView)>) -> DefinitionView {
    match own {
        Some(p) => p.1,
        None => DefinitionView::Struct { fields: FieldsView::Empty },
    }
}

/// No declaration defined in the map is primitive.
pub open spec fn no_primitive_keys(m: Map<Seq<char>, DefinitionView>) -> bool {
    forall|k: Seq<char>| m.contains_key(k) ==> !primitive_declaration(k)
}

/// Every entry of `m` that `defs` also defines is already there with the same definition
/// and fully expanded: each declaration it is built from is in `m`, or primitive.
pub open spec fn settled(m: Map<Seq<char>, DefinitionView>, defs: Map<Seq<char>, DefinitionView>) -> bool {
    forall|k: Seq<char>|
        #![trigger defs.contains_key(k), m.contains_key(k)]
        defs.contains_key(k) && m.contains_key(k) ==> m[k] == defs[k] && forall|d: Seq<char>|
            #[trigger] refers_to(m[k], d) ==> m.contains_key(d) || primitive_declaration(d)
}

/// A declaration that starts with a capital letter is not primitive.
pub proof fn lemma_capital_not_primitive(prefix: Seq<char>, rest: Seq<char>)
    requires
        prefix.len() > 0,
        'A' <= prefix[0] <= 'Z',
    ensures
        !primitive_declaration(prefix + rest),
{
    reveal_strlit("bool");
    reveal_strlit("f32");
    reveal_strlit("f64");
    reveal_strlit("i8");
    reveal_strlit("i16");
    reveal_strlit("i32");
    reveal_strlit("i64");
    reveal_strlit("i128");
    reveal_strlit("u8");
    reveal_strlit("u16");
    reveal_strlit("u32");
    reveal_strlit("u64");
    reveal_strlit("u128");
    reveal_strlit("string");
    reveal_strlit("nil");
    assert((prefix + rest)[0] == prefix[0]);
}

/// Settledness with respect to a map carries over to any part of it.
pub proof fn lemma_settled_part(
    m: Map<Seq<char>, DefinitionView>,
    defs: Map<Seq<char>, DefinitionView>,
    part: Map<Seq<char>, DefinitionView>,
)
    requires
        settled(m, defs),
        part.submap_of(defs),
    ensures
        settled(m, part),
{
    assert forall|k: Seq<char>|
        #![trigger part.contains_key(k), m.contains_key(k)]
        part.contains_key(k) && m.contains_key(k) implies m[k] == part[k] && forall|d: Seq<char>|
            #[trigger] refers_to(m[k], d) ==> m.contains_key(d) || primitive_declaration(d) by {
        assert(defs.contains_key(k));
    }
}

/// Adding a new entry under a declaration that `part` does not define keeps `m` settled
/// with respect to `part`.
pub proof fn lemma_settled_insert(
    m: Map<Seq<char>, DefinitionView>,
    part: Map<Seq<char>, DefinitionView>,
    k: Seq<char>,
    def: DefinitionView,
)
    requires
        settled(m, part),
        !part.contains_key(k),
    ensures
        settled(m.insert(k, def), part),
{
    let m1 = m.insert(k, def);
    assert forall|x: Seq<char>|
        #![trigger part.contains_key(x), m1.contains_key(x)]
        part.contains_key(x) && m1.contains_key(x) implies m1[x] == part[x] && forall|d: Seq<char>|
            #[trigger] refers_to(m1[x], d) ==> m1.contains_key(d) || primitive_declaration(d) by {
        assert(x != k);
        assert(m.contains_key(x));
        assert forall|d: Seq<char>| #[trigger] refers_to(m1[x], d) implies m1.contains_key(d)
            || primitive_declaration(d) by {
            assert(refers_to(m[x], d));
        }
    }
}

/// Merging a closed map `a` that agrees with `part` keeps `m` settled with respect to
/// `part`.
pub proof fn lemma_settled_merge(
    m: Map<Seq<char>, DefinitionView>,
    a: Map<Seq<char>, DefinitionView>,
    part: Map<Seq<char>, DefinitionView>,
)
    requires
        settled(m, part),
        closed(a),
        compatible(a, part),
    ensures
        settled(m.union_prefer_right(a), part),
{
    let m2 = m.union_prefer_right(a);
    assert forall|x: Seq<char>|
        #![trigger part.contains_key(x), m2.contains_key(x)]
        part.contains_key(x) && m2.contains_key(x) implies m2[x] == part[x] && forall|d: Seq<char>|
            #[trigger] refers_to(m2[x], d) ==> m2.contains_key(d) || primitive_declaration(d) by {
        if a.contains_key(x) {
            assert forall|d: Seq<char>| #[trigger] refers_to(m2[x], d) implies m2.contains_key(d)
                || primitive_declaration(d) by {
                assert(refers_to(a[x], d));
            }
        } else {
            assert forall|d: Seq<char>| #[trigger] refers_to(m2[x], d) implies m2.contains_key(d)
                || primitive_declaration(d) by {
                assert(refers_to(m[x], d));
            }
        }
    }
}

/// The declaration and the definition of a type, from which its Borsh encoding can be
/// read and written without the type itself.
pub trait BorshSchema {
    /// The name of the type in the format.
    spec fn spec_declaration() -> Seq<char>;

    /// Every definition that this type needs, its own and those of the types it is
    /// built from, transitively.
    spec fn spec_definitions() -> Map<Seq<char>, DefinitionView>;

    /// The entry this type adds under its own declaration, if it adds one: primitives
    /// and zero-sized markers add none.
    spec fn spec_own() -> Option<(Seq<char>, DefinitionView)>;

    /// The types this type is built from agree on every declaration they share, and none
    /// of them defines this type's own declaration.
    spec fn spec_consistent() -> bool;

    /// The definitions are closed, define no primitive, and hold the type's own entry
    /// under its declaration; a type without an own entry is primitive and needs nothing.
    proof fn lemma_described()
        ensures
            closed(Self::spec_definitions()),
            no_primitive_keys(Self::spec_definitions()),
            Self::spec_own() is None ==> Self::spec_definitions() == Map::<
                Seq<char>,
                DefinitionView,
            >::empty() && primitive_declaration(Self::spec_declaration()),
            Self::spec_own() is Some ==> own_key(Self::spec_own()) == Self::spec_declaration()
                && Self::spec_definitions().contains_key(Self::spec_declaration()) && (
            Self::spec_consistent() ==> Self::spec_definitions()[Self::spec_declaration()]
                == own_def(Self::spec_own())),
    ;

    /// Every definition is reached from the type's own: a map that holds the type's own
    /// declaration, and in which every entry of the type's set is expanded, holds the
    /// whole set.
    proof fn lemma_absorbed(m: Map<Seq<char>, DefinitionView>)
        requires
            settled(m, Self::spec_definitions()),
            Self::spec_consistent(),
            Self::spec_own() is Some ==> m.contains_key(Self::spec_declaration()),
        ensures
            Self::spec_definitions().submap_of(m),
    ;

    /// Recursively, depth first, add the definitions this type needs to the map. For
    /// primitive types this adds nothing. When the map already holds the type's own
    /// declaration with the same definition, the walk stops there and leaves the map as
    /// it was; with a different definition it fails. Otherwise it adds the own entry and
    /// then walks each type this one is built from.
    fn add_definitions_recursively(definitions: &mut Definitions) -> (r: Result<(), SchemaError>)
        requires
            old(definitions).wf(),
        ensures
            final(definitions).wf(),
            (Self::spec_own() is Some && old(definitions)@.contains_key(
                own_key(Self::spec_own()),
            ) && old(definitions)@[own_key(Self::spec_own())] == own_def(Self::spec_own())) ==> (
            r is Ok && final(definitions)@ == old(definitions)@),
            (Self::spec_own() is Some && old(definitions)@.contains_key(
                own_key(Self::spec_own()),
            ) && old(definitions)@[own_key(Self::spec_own())] != own_def(Self::spec_own())) ==> (r
                == Err::<(), SchemaError>(SchemaError::SchemaConflict)),
            (settled(old(definitions)@, Self::spec_definitions()) && Self::spec_consistent())
                ==> (r is Ok && final(definitions)@ == old(definitions)@.union_prefer_right(
                Self::spec_definitions(),
            )),
            r is Err ==> r == Err::<(), SchemaError>(SchemaError::SchemaConflict),
    ;

    /// Add a single definition to the map, or confirm that it is already there; a
    /// different definition under the same declaration is a conflict.
    fn add_definition(
        declaration: Declaration,
        definition: Definition,
        definitions: &mut Definitions,
    ) -> (r: Result<(), SchemaError>)
        requires
            old(definitions).wf(),
        ensures
            final(definitions).wf(),
            r is Ok <==> (!old(definitions)@.contains_key(declaration@)
                || old(definitions)@[declaration@] == definition@),
            r is Ok ==> final(definitions)@ == old(definitions)@.insert(
                declaration@,
                definition@,
            ),
            old(definitions)@.contains_key(declaration@) && old(definitions)@[declaration@]
                == definition@ ==> r is Ok && final(definitions)@ == old(definitions)@,
            r is Err ==> r == Err::<(), SchemaError>(SchemaError::SchemaConflict),
            r is Err ==> final(definitions)@ == old(definitions)@,
    {
        let ghost before = definitions@;
        let r = definitions.add(declaration, definition);
        proof {
            if before.contains_key(declaration@) && before[declaration@] == definition@ {
                crate::laws::lemma_add_idempotent(before, declaration@, definition@);
            }
        }
        r
    }

    /// The name of the type in the format.
    fn declaration() -> (r: Declaration)
        ensures
            r@ == Self::spec_declaration(),
    ;

    /// The declaration of the type together with every definition it needs, collected
    /// from an empty map.
    fn schema_container() -> (r: Result<BorshSchemaContainer, SchemaError>)
        ensures
            Self::spec_consistent() ==> (r matches Ok(c) && c.definitions@
                == Self::spec_definitions()),
            r matches Ok(c) ==> c.declaration@ == Self::spec_declaration() && c.definitions.wf(),
            r is Err ==> r matches Err(SchemaError::SchemaConflict),
    {
        let mut definitions = Definitions::new();
        let ghost empty = definitions@;
        let r = Self::add_definitions_recursively(&mut definitions);
        proof {
            assert(settled(empty, Self::spec_definitions()));
            assert(Map::<Seq<char>, DefinitionView>::empty().union_prefer_right(
                Self::spec_definitions(),
            ) =~= Self::spec_definitions());
        }
        match r {
            Ok(()) => Ok(BorshSchemaContainer { declaration: Self::declaration(), definitions }),
            Err(e) => Err(e),
        }
    }
}


/// The definitions of a type whose own entry `d` under `k` is built from T.
pub open spec fn defs_one<T: BorshSchema>(k: Seq<char>, d: DefinitionView) -> Map<Seq<char>, DefinitionView> {
    single(k, d).union_prefer_right(T::spec_definitions())
}

/// The types T are consistent and agree with each other, and none of them defines `k`.
pub open spec fn consistent_one<T: BorshSchema>(k: Seq<char>) -> bool {
    T::spec_consistent() && !T::spec_definitions().contains_key(k)
}

proof fn lemma_parts_one<T: BorshSchema>(k: Seq<char>, d: DefinitionView)
    requires
        consistent_one::<T>(k),
    ensures
        T::spec_definitions().submap_of(defs_one::<T>(k, d)),
        defs_one::<T>(k, d).contains_key(k),
        defs_one::<T>(k, d)[k] == d,
{
    assert forall|x: Seq<char>| #[trigger] T::spec_definitions().contains_key(x) implies defs_one::<T>(k, d).contains_key(x)
        && defs_one::<T>(k, d)[x] == T::spec_definitions()[x] by {
    }
}

/// What a type whose own entry `d` under `k` is built from T states of its definitions.
pub proof fn lemma_describe_one<T: BorshSchema>(k: Seq<char>, d: DefinitionView)
    requires
        !primitive_declaration(k),
        forall|x: Seq<char>| #[trigger] refers_to(d, x) ==> x == T::spec_declaration() || primitive_declaration(x),
    ensures
        closed(defs_one::<T>(k, d)),
        no_primitive_keys(defs_one::<T>(k, d)),
        defs_one::<T>(k, d).contains_key(k),
        consistent_one::<T>(k) ==> defs_one::<T>(k, d)[k] == d,
{
    T::lemma_described();
    let parts = T::spec_definitions();
    assert forall|x: Seq<char>| #[trigger] refers_to(d, x) implies parts.contains_key(x)
        || primitive_declaration(x) by {
        if x == T::spec_declaration() && T::spec_own() is Some {
            assert(T::spec_definitions().contains_key(x));
        }
    }
    lemma_closed_add(k, d, parts);
    assert(single(k, d).union_prefer_right(parts) =~= defs_one::<T>(k, d));
    if consistent_one::<T>(k) {
        lemma_parts_one::<T>(k, d);
    }
}

/// A map that holds `k`, and in which the entries of the set are expanded, holds the whole
/// set of a type whose own entry `d` under `k` is built from T.
pub proof fn lemma_absorb_one<T: BorshSchema>(m: Map<Seq<char>, DefinitionView>, k: Seq<char>, d: DefinitionView)
    requires
        settled(m, defs_one::<T>(k, d)),
        consistent_one::<T>(k),
        m.contains_key(k),
        refers_to(d, T::spec_declaration()),
    ensures
        defs_one::<T>(k, d).submap_of(m),
{
    lemma_parts_one::<T>(k, d);
    T::lemma_described();
    lemma_settled_part(m, defs_one::<T>(k, d), T::spec_definitions());
    if T::spec_own() is Some {
        assert(refers_to(m[k], T::spec_declaration()));
    }
    T::lemma_absorbed(m);
    assert forall|x: Seq<char>| #[trigger] defs_one::<T>(k, d).contains_key(x) implies m.contains_key(x)
        && m[x] == defs_one::<T>(k, d)[x] by {
        if T::spec_definitions().contains_key(x) {
            assert(T::spec_definitions().submap_of(m));
        }
        if x == k {
            assert(m.contains_key(k));
        }
        assert(m.contains_key(x));
        assert(defs_one::<T>(k, d).contains_key(x));
    }
}

/// The walk of a type whose own entry `definition` under `declaration` is built from T:
/// stop at an equal entry already there, fail at a different one, and otherwise add the
/// entry and walk each constituent in order.
pub fn walk_one<T: BorshSchema>(
    declaration: Declaration,
    definition: Definition,
    definitions: &mut Definitions,
) -> (r: Result<(), SchemaError>)
    requires
        old(definitions).wf(),
        refers_to(definition@, T::spec_declaration()),
    ensures
        final(definitions).wf(),
        (old(definitions)@.contains_key(declaration@) && old(definitions)@[declaration@]
            == definition@) ==> (r is Ok && final(definitions)@ == old(definitions)@),
        (old(definitions)@.contains_key(declaration@) && old(definitions)@[declaration@]
            != definition@) ==> (r == Err::<(), SchemaError>(SchemaError::SchemaConflict)),
        (settled(old(definitions)@, defs_one::<T>(declaration@, definition@))
            && consistent_one::<T>(declaration@)) ==> (r is Ok && final(definitions)@
            == old(definitions)@.union_prefer_right(defs_one::<T>(declaration@, definition@))),
        r is Err ==> r == Err::<(), SchemaError>(SchemaError::SchemaConflict),
{
    let ghost m = definitions@;
    let ghost k = declaration@;
    let ghost d = definition@;
    let ghost all = defs_one::<T>(k, d);
    let ghost good = settled(m, all) && consistent_one::<T>(k);
    let found = match definitions.get(&declaration) {
        Some(existing) => Some(same_definition(existing, &definition)),
        None => None,
    };
    match found {
        Some(true) => {
            proof {
                if good {
                    lemma_absorb_one::<T>(m, k, d);
                    assert(m.union_prefer_right(all) =~= m);
                }
            }
            Ok(())
        },
        Some(false) => {
            proof {
                if good {
                    lemma_parts_one::<T>(k, d);
                    assert(all.contains_key(k) && m.contains_key(k));
                }
            }
            Err(SchemaError::SchemaConflict)
        },
        None => {
            definitions.insert(declaration, definition);
            proof {
                if good {
                    lemma_parts_one::<T>(k, d);
                    T::lemma_described();
                    lemma_settled_part(m, all, T::spec_definitions());
                    lemma_settled_insert(m, T::spec_definitions(), k, d);
                }
            }
            let ghost before0 = definitions@;
            let r0 = T::add_definitions_recursively(definitions);
            proof {
                if good {
                    assert(m.insert(k, d).union_prefer_right(T::spec_definitions()) =~= m.union_prefer_right(all));
                }
            }
            r0
        },
    }
}

/// The definitions of a type whose own entry `d` under `k` is built from A, B.
pub open spec fn defs_two<A: BorshSchema, B: BorshSchema>(k: Seq<char>, d: DefinitionView) -> Map<Seq<char>, DefinitionView> {
    single(k, d).union_prefer_right(A::spec_definitions()).union_prefer_right(B::spec_definitions())
}

/// The types A, B are consistent and agree with each other, and none of them defines `k`.
pub open spec fn consistent_two<A: BorshSchema, B: BorshSchema>(k: Seq<char>) -> bool {
    A::spec_consistent() && B::spec_consistent() && !A::spec_definitions().contains_key(k) && !B::spec_definitions().contains_key(k) && compatible(A::spec_definitions(), B::spec_definitions())
}

proof fn lemma_parts_two<A: BorshSchema, B: BorshSchema>(k: Seq<char>, d: DefinitionView)
    requires
        consistent_two::<A, B>(k),
    ensures
        A::spec_definitions().submap_of(defs_two::<A, B>(k, d)),
        B::spec_definitions().submap_of(defs_two::<A, B>(k, d)),
        defs_two::<A, B>(k, d).contains_key(k),
        defs_two::<A, B>(k, d)[k] == d,
{
    assert forall|x: Seq<char>| #[trigger] A::spec_definitions().contains_key(x) implies defs_two::<A, B>(k, d).contains_key(x)
        && defs_two::<A, B>(k, d)[x] == A::spec_definitions()[x] by {
            if B::spec_definitions().contains_key(x) {
                assert(B::spec_definitions()[x] == A::spec_definitions()[x]);
            }
    }
    assert forall|x: Seq<char>| #[trigger] B::spec_definitions().contains_key(x) implies defs_two::<A, B>(k, d).contains_key(x)
        && defs_two::<A, B>(k, d)[x] == B::spec_definitions()[x] by {
    }
}

/// What a type whose own entry `d` under `k` is built from A, B states of its definitions.
pub proof fn lemma_describe_two<A: BorshSchema, B: BorshSchema>(k: Seq<char>, d: DefinitionView)
    requires
        !primitive_declaration(k),
        forall|x: Seq<char>| #[trigger] refers_to(d, x) ==> x == A::spec_declaration() || x == B::spec_declaration() || primitive_declaration(x),
    ensures
        closed(defs_two::<A, B>(k, d)),
        no_primitive_keys(defs_two::<A, B>(k, d)),
        defs_two::<A, B>(k, d).contains_key(k),
        consistent_two::<A, B>(k) ==> defs_two::<A, B>(k, d)[k] == d,
{
    A::lemma_described(); B::lemma_described();
    lemma_closed_union(A::spec_definitions(), B::spec_definitions());
    let parts = A::spec_definitions().union_prefer_right(B::spec_definitions());
    assert forall|x: Seq<char>| #[trigger] refers_to(d, x) implies parts.contains_key(x)
        || primitive_declaration(x) by {
        if x == A::spec_declaration() && A::spec_own() is Some {
            assert(A::spec_definitions().contains_key(x));
        }
        if x == B::spec_declaration() && B::spec_own() is Some {
            assert(B::spec_definitions().contains_key(x));
        }
    }
    lemma_closed_add(k, d, parts);
    assert(single(k, d).union_prefer_right(parts) =~= defs_two::<A, B>(k, d));
    if consistent_two::<A, B>(k) {
        lemma_parts_two::<A, B>(k, d);
    }
}

/// A map that holds `k`, and in which the entries of the set are expanded, holds the whole
/// set of a type whose own entry `d` under `k` is built from A, B.
pub proof fn lemma_absorb_two<A: BorshSchema, B: BorshSchema>(m: Map<Seq<char>, DefinitionView>, k: Seq<char>, d: DefinitionView)
    requires
        settled(m, defs_two::<A, B>(k, d)),
        consistent_two::<A, B>(k),
        m.contains_key(k),
        refers_to(d, A::spec_declaration()),
        refers_to(d, B::spec_declaration()),
    ensures
        defs_two::<A, B>(k, d).submap_of(m),
{
    lemma_parts_two::<A, B>(k, d);
    A::lemma_described(); B::lemma_described();
    lemma_settled_part(m, defs_two::<A, B>(k, d), A::spec_definitions());
    if A::spec_own() is Some {
        assert(refers_to(m[k], A::spec_declaration()));
    }
    A::lemma_absorbed(m);
    lemma_settled_part(m, defs_two::<A, B>(k, d), B::spec_definitions());
    if B::spec_own() is Some {
        assert(refers_to(m[k], B::spec_declaration()));
    }
    B::lemma_absorbed(m);
    assert forall|x: Seq<char>| #[trigger] defs_two::<A, B>(k, d).contains_key(x) implies m.contains_key(x)
        && m[x] == defs_two::<A, B>(k, d)[x] by {
        if A::spec_definitions().contains_key(x) {
            assert(A::spec_definitions().submap_of(m));
        }
        if B::spec_definitions().contains_key(x) {
            assert(B::spec_definitions().submap_of(m));
        }
        if x == k {
            assert(m.contains_key(k));
        }
        assert(m.contains_key(x));
        assert(defs_two::<A, B>(k, d).contains_key(x));
    }
}

/// The walk of a type whose own entry `definition` under `declaration` is built from A, B:
/// stop at an equal entry already there, fail at a different one, and otherwise add the
/// entry and walk each constituent in order.
pub fn walk_two<A: BorshSchema, B: BorshSchema>(
    declaration: Declaration,
    definition: Definition,
    definitions: &mut Definitions,
) -> (r: Result<(), SchemaError>)
    requires
        old(definitions).wf(),
        refers_to(definition@, A::spec_declaration()),
        refers_to(definition@, B::spec_declaration()),
    ensures
        final(definitions).wf(),
        (old(definitions)@.contains_key(declaration@) && old(definitions)@[declaration@]
            == definition@) ==> (r is Ok && final(definitions)@ == old(definitions)@),
        (old(definitions)@.contains_key(declaration@) && old(definitions)@[declaration@]
            != definition@) ==> (r == Err::<(), SchemaError>(SchemaError::SchemaConflict)),
        (settled(old(definitions)@, defs_two::<A, B>(declaration@, definition@))
            && consistent_two::<A, B>(declaration@)) ==> (r is Ok && final(definitions)@
            == old(definitions)@.union_prefer_right(defs_two::<A, B>(declaration@, definition@))),
        r is Err ==> r == Err::<(), SchemaError>(SchemaError::SchemaConflict),
{
    let ghost m = definitions@;
    let ghost k = declaration@;
    let ghost d = definition@;
    let ghost all = defs_two::<A, B>(k, d);
    let ghost good = settled(m, all) && consistent_two::<A, B>(k);
    let found = match definitions.get(&declaration) {
        Some(existing) => Some(same_definition(existing, &definition)),
        None => None,
    };
    match found {
        Some(true) => {
            proof {
                if good {
                    lemma_absorb_two::<A, B>(m, k, d);
                    assert(m.union_prefer_right(all) =~= m);
                }
            }
            Ok(())
        },
        Some(false) => {
            proof {
                if good {
                    lemma_parts_two::<A, B>(k, d);
                    assert(all.contains_key(k) && m.contains_key(k));
                }
            }
            Err(SchemaError::SchemaConflict)
        },
        None => {
            definitions.insert(declaration, definition);
            proof {
                if good {
                    lemma_parts_two::<A, B>(k, d);
                    A::lemma_described(); B::lemma_described();
                    lemma_settled_part(m, all, A::spec_definitions());
                    lemma_settled_insert(m, A::spec_definitions(), k, d);
                    lemma_settled_part(m, all, B::spec_definitions());
                    lemma_settled_insert(m, B::spec_definitions(), k, d);
                }
            }
            let ghost before0 = definitions@;
            let r0 = A::add_definitions_recursively(definitions);
            if r0.is_err() {
                return r0;
            }
            proof {
                if good {
                    lemma_settled_merge(before0, A::spec_definitions(), B::spec_definitions());
                }
            }
            let ghost before1 = definitions@;
            let r1 = B::add_definitions_recursively(definitions);
            proof {
                if good {
                    assert(m.insert(k, d).union_prefer_right(A::spec_definitions()).union_prefer_right(B::spec_definitions()) =~= m.union_prefer_right(all));
                }
            }
            r1
        },
    }
}

/// The definitions of a type whose own entry `d` under `k` is built from A, B, C.
pub open spec fn defs_three<A: BorshSchema, B: BorshSchema, C: BorshSchema>(k: Seq<char>, d: DefinitionView) -> Map<Seq<char>, DefinitionView> {
    single(k, d).union_prefer_right(A::spec_definitions()).union_prefer_right(B::spec_definitions()).union_prefer_right(C::spec_definitions())
}

/// The types A, B, C are consistent and agree with each other, and none of them defines `k`.
pub open spec fn consistent_three<A: BorshSchema, B: BorshSchema, C: BorshSchema>(k: Seq<char>) -> bool {
    A::spec_consistent() && B::spec_consistent() && C::spec_consistent() && !A::spec_definitions().contains_key(k) && !B::spec_definitions().contains_key(k) && !C::spec_definitions().contains_key(k) && compatible(A::spec_definitions(), B::spec_definitions()) && compatible(A::spec_definitions(), C::spec_definitions()) && compatible(B::spec_definitions(), C::spec_definitions())
}

proof fn lemma_parts_three<A: BorshSchema, B: BorshSchema, C: BorshSchema>(k: Seq<char>, d: DefinitionView)
    requires
        consistent_three::<A, B, C>(k),
    ensures
        A::spec_definitions().submap_of(defs_three::<A, B, C>(k, d)),
        B::spec_definitions().submap_of(defs_three::<A, B, C>(k, d)),
        C::spec_definitions().submap_of(defs_three::<A, B, C>(k, d)),
        defs_three::<A, B, C>(k, d).contains_key(k),
        defs_three::<A, B, C>(k, d)[k] == d,
{
    assert forall|x: Seq<char>| #[trigger] A::spec_definitions().contains_key(x) implies defs_three::<A, B, C>(k, d).contains_key(x)
        && defs_three::<A, B, C>(k, d)[x] == A::spec_definitions()[x] by {
            if B::spec_definitions().contains_key(x) {
                assert(B::spec_definitions()[x] == A::spec_definitions()[x]);
            }
            if C::spec_definitions().contains_key(x) {
                assert(C::spec_definitions()[x] == A::spec_definitions()[x]);
            }
    }
    assert forall|x: Seq<char>| #[trigger] B::spec_definitions().contains_key(x) implies defs_three::<A, B, C>(k, d).contains_key(x)
        && defs_three::<A, B, C>(k, d)[x] == B::spec_definitions()[x] by {
            if C::spec_definitions().contains_key(x) {
                assert(C::spec_definitions()[x] == B::spec_definitions()[x]);
            }
    }
    assert forall|x: Seq<char>| #[trigger] C::spec_definitions().contains_key(x) implies defs_three::<A, B, C>(k, d).contains_key(x)
        && defs_three::<A, B, C>(k, d)[x] == C::spec_definitions()[x] by {
    }
}

/// What a type whose own entry `d` under `k` is built from A, B, C states of its definitions.
pub proof fn lemma_describe_three<A: BorshSchema, B: BorshSchema, C: BorshSchema>(k: Seq<char>, d: DefinitionView)
    requires
        !primitive_declaration(k),
        forall|x: Seq<char>| #[trigger] refers_to(d, x) ==> x == A::spec_declaration() || x == B::spec_declaration() || x == C::spec_declaration() || primitive_declaration(x),
    ensures
        closed(defs_three::<A, B, C>(k, d)),
        no_primitive_keys(defs_three::<A, B, C>(k, d)),
        defs_three::<A, B, C>(k, d).contains_key(k),
        consistent_three::<A, B, C>(k) ==> defs_three::<A, B, C>(k, d)[k] == d,
{
    A::lemma_described(); B::lemma_described(); C::lemma_described();
    lemma_closed_union(A::spec_definitions(), B::spec_definitions());
    lemma_closed_union(A::spec_definitions().union_prefer_right(B::spec_definitions()), C::spec_definitions());
    let parts = A::spec_definitions().union_prefer_right(B::spec_definitions()).union_prefer_right(C::spec_definitions());
    assert forall|x: Seq<char>| #[trigger] refers_to(d, x) implies parts.contains_key(x)
        || primitive_declaration(x) by {
        if x == A::spec_declaration() && A::spec_own() is Some {
            assert(A::spec_definitions().contains_key(x));
        }
        if x == B::spec_declaration() && B::spec_own() is Some {
            assert(B::spec_definitions().contains_key(x));
        }
        if x == C::spec_declaration() && C::spec_own() is Some {
            assert(C::spec_definitions().contains_key(x));
        }
    }
    lemma_closed_add(k, d, parts);
    assert(single(k, d).union_prefer_right(parts) =~= defs_three::<A, B, C>(k, d));
    if consistent_three::<A, B, C>(k) {
        lemma_parts_three::<A, B, C>(k, d);
    }
}

/// A map that holds `k`, and in which the entries of the set are expanded, holds the whole
/// set of a type whose own entry `d` under `k` is built from A, B, C.
pub proof fn lemma_absorb_three<A: BorshSchema, B: BorshSchema, C: BorshSchema>(m: Map<Seq<char>, DefinitionView>, k: Seq<char>, d: DefinitionView)
    requires
        settled(m, defs_three::<A, B, C>(k, d)),
        consistent_three::<A, B, C>(k),
        m.contains_key(k),
        refers_to(d, A::spec_declaration()),
        refers_to(d, B::spec_declaration()),
        refers_to(d, C::spec_declaration()),
    ensures
        defs_three::<A, B, C>(k, d).submap_of(m),
{
    lemma_parts_three::<A, B, C>(k, d);
    A::lemma_described(); B::lemma_described(); C::lemma_described();
    lemma_settled_part(m, defs_three::<A, B, C>(k, d), A::spec_definitions());
    if A::spec_own() is Some {
        assert(refers_to(m[k], A::spec_declaration()));
    }
    A::lemma_absorbed(m);
    lemma_settled_part(m, defs_three::<A, B, C>(k, d), B::spec_definitions());
    if B::spec_own() is Some {
        assert(refers_to(m[k], B::spec_declaration()));
    }
    B::lemma_absorbed(m);
    lemma_settled_part(m, defs_three::<A, B, C>(k, d), C::spec_definitions());
    if C::spec_own() is Some {
        assert(refers_to(m[k], C::spec_declaration()));
    }
    C::lemma_absorbed(m);
    assert forall|x: Seq<char>| #[trigger] defs_three::<A, B, C>(k, d).contains_key(x) implies m.contains_key(x)
        && m[x] == defs_three::<A, B, C>(k, d)[x] by {
        if A::spec_definitions().contains_key(x) {
            assert(A::spec_definitions().submap_of(m));
        }
        if B::spec_definitions().contains_key(x) {
            assert(B::spec_definitions().submap_of(m));
        }
        if C::spec_definitions().contains_key(x) {
            assert(C::spec_definitions().submap_of(m));
        }
        if x == k {
            assert(m.contains_key(k));
        }
        assert(m.contains_key(x));
        assert(defs_three::<A, B, C>(k, d).contains_key(x));
    }
}

/// The walk of a type whose own entry `definition` under `declaration` is built from A, B, C:
/// stop at an equal entry already there, fail at a different one, and otherwise add the
/// entry and walk each constituent in order.
pub fn walk_three<A: BorshSchema, B: BorshSchema, C: BorshSchema>(
    declaration: Declaration,
    definition: Definition,
    definitions: &mut Definitions,
) -> (r: Result<(), SchemaError>)
    requires
        old(definitions).wf(),
        refers_to(definition@, A::spec_declaration()),
        refers_to(definition@, B::spec_declaration()),
        refers_to(definition@, C::spec_declaration()),
    ensures
        final(definitions).wf(),
        (old(definitions)@.contains_key(declaration@) && old(definitions)@[declaration@]
            == definition@) ==> (r is Ok && final(definitions)@ == old(definitions)@),
        (old(definitions)@.contains_key(declaration@) && old(definitions)@[declaration@]
            != definition@) ==> (r == Err::<(), SchemaError>(SchemaError::SchemaConflict)),
        (settled(old(definitions)@, defs_three::<A, B, C>(declaration@, definition@))
            && consistent_three::<A, B, C>(declaration@)) ==> (r is Ok && final(definitions)@
            == old(definitions)@.union_prefer_right(defs_three::<A, B, C>(declaration@, definition@))),
        r is Err ==> r == Err::<(), SchemaError>(SchemaError::SchemaConflict),
{
    let ghost m = definitions@;
    let ghost k = declaration@;
    let ghost d = definition@;
    let ghost all = defs_three::<A, B, C>(k, d);
    let ghost good = settled(m, all) && consistent_three::<A, B, C>(k);
    let found = match definitions.get(&declaration) {
        Some(existing) => Some(same_definition(existing, &definition)),
        None => None,
    };
    match found {
        Some(true) => {
            proof {
                if good {
                    lemma_absorb_three::<A, B, C>(m, k, d);
                    assert(m.union_prefer_right(all) =~= m);
                }
            }
            Ok(())
        },
        Some(false) => {
            proof {
                if good {
                    lemma_parts_three::<A, B, C>(k, d);
                    assert(all.contains_key(k) && m.contains_key(k));
                }
            }
            Err(SchemaError::SchemaConflict)
        },
        None => {
            definitions.insert(declaration, definition);
            proof {
                if good {
                    lemma_parts_three::<A, B, C>(k, d);
                    A::lemma_described(); B::lemma_described(); C::lemma_described();
                    lemma_settled_part(m, all, A::spec_definitions());
                    lemma_settled_insert(m, A::spec_definitions(), k, d);
                    lemma_settled_part(m, all, B::spec_definitions());
                    lemma_settled_insert(m, B::spec_definitions(), k, d);
                    lemma_settled_part(m, all, C::spec_definitions());
                    lemma_settled_insert(m, C::spec_definitions(), k, d);
                }
            }
            let ghost before0 = definitions@;
            let r0 = A::add_definitions_recursively(definitions);
            if r0.is_err() {
                return r0;
            }
            proof {
                if good {
                    lemma_settled_merge(before0, A::spec_definitions(), B::spec_definitions());
                    lemma_settled_merge(before0, A::spec_definitions(), C::spec_definitions());
                }
            }
            let ghost before1 = definitions@;
            let r1 = B::add_definitions_recursively(definitions);
            if r1.is_err() {
                return r1;
            }
            proof {
                if good {
                    lemma_settled_merge(before1, B::spec_definitions(), C::spec_definitions());
                }
            }
            let ghost before2 = definitions@;
            let r2 = C::add_definitions_recursively(definitions);
            proof {
                if good {
                    assert(m.insert(k, d).union_prefer_right(A::spec_definitions()).union_prefer_right(B::spec_definitions()).union_prefer_right(C::spec_definitions()) =~= m.union_prefer_right(all));
                }
            }
            r2
        },
    }
}

/// The definitions of a type whose own entry `d` under `k` is built from T0, T1, T2, T3.
pub open spec fn defs_4<T0: BorshSchema, T1: BorshSchema, T2: BorshSchema, T3: BorshSchema>(k: Seq<char>, d: DefinitionView) -> Map<Seq<char>, DefinitionView> {
    single(k, d).union_prefer_right(T0::spec_definitions()).union_prefer_right(T1::spec_definitions()).union_prefer_right(T2::spec_definitions()).union_prefer_right(T3::spec_definitions())
}

/// The types T0, T1, T2, T3 are consistent and agree with each other, and none of them defines `k`.
pub open spec fn consistent_4<T0: BorshSchema, T1: BorshSchema, T2: BorshSchema, T3: BorshSchema>(k: Seq<char>) -> bool {
    T0::spec_consistent() && T1::spec_consistent() && T2::spec_consistent() && T3::spec_consistent() && !T0::spec_definitions().contains_key(k) && !T1::spec_definitions().contains_key(k) && !T2::spec_definitions().contains_key(k) && !T3::spec_definitions().contains_key(k) && compatible(T0::spec_definitions(), T1::spec_definitions()) && compatible(T0::spec_definitions(), T2::spec_definitions()) && compatible(T0::spec_definitions(), T3::spec_definitions()) && compatible(T1::spec_definitions(), T2::spec_definitions()) && compatible(T1::spec_definitions(), T3::spec_definitions()) && compatible(T2::spec_definitions(), T3::spec_definitions())
}

proof fn lemma_parts_4<T0: BorshSchema, T1: BorshSchema, T2: BorshSchema, T3: BorshSchema>(k: Seq<char>, d: DefinitionView)
    requires
        consistent_4::<T0, T1, T2, T3>(k),
    ensures
        T0::spec_definitions().submap_of(defs_4::<T0, T1, T2, T3>(k, d)),
        T1::spec_definitions().submap_of(defs_4::<T0, T1, T2, T3>(k, d)),
        T2::spec_definitions().submap_of(defs_4::<T0, T1, T2, T3>(k, d)),
        T3::spec_definitions().submap_of(defs_4::<T0, T1, T2, T3>(k, d)),
        defs_4::<T0, T1, T2, T3>(k, d).contains_key(k),
        defs_4::<T0, T1, T2, T3>(k, d)[k] == d,
{
    assert forall|x: Seq<char>| #[trigger] T0::spec_definitions().contains_key(x) implies defs_4::<T0, T1, T2, T3>(k, d).contains_key(x)
        && defs_4::<T0, T1, T2, T3>(k, d)[x] == T0::spec_definitions()[x] by {
            if T1::spec_definitions().contains_key(x) {
                assert(T1::spec_definitions()[x] == T0::spec_definitions()[x]);
            }
            if T2::spec_definitions().contains_key(x) {
                assert(T2::spec_definitions()[x] == T0::spec_definitions()[x]);
            }
            if T3::spec_definitions().contains_key(x) {
                assert(T3::spec_definitions()[x] == T0::spec_definitions()[x]);
            }
    }
    assert forall|x: Seq<char>| #[trigger] T1::spec_definitions().contains_key(x) implies defs_4::<T0, T1, T2, T3>(k, d).contains_key(x)
        && defs_4::<T0, T1, T2, T3>(k, d)[x] == T1::spec_definitions()[x] by {
            if T2::spec_definitions().contains_key(x) {
                assert(T2::spec_definitions()[x] == T1::spec_definitions()[x]);
            }
            if T3::spec_definitions().contains_key(x) {
                assert(T3::spec_definitions()[x] == T1::spec_definitions()[x]);
            }
    }
    assert forall|x: Seq<char>| #[trigger] T2::spec_definitions().contains_key(x) implies defs_4::<T0, T1, T2, T3>(k, d).contains_key(x)
        && defs_4::<T0, T1, T2, T3>(k, d)[x] == T2::spec_definitions()[x] by {
            if T3::spec_definitions().contains_key(x) {
                assert(T3::spec_definitions()[x] == T2::spec_definitions()[x]);
            }
    }
    assert forall|x: Seq<char>| #[trigger] T3::spec_definitions().contains_key(x) implies defs_4::<T0, T1, T2, T3>(k, d).contains_key(x)
        && defs_4::<T0, T1, T2, T3>(k, d)[x] == T3::spec_definitions()[x] by {
    }
}

/// What a type whose own entry `d` under `k` is built from T0, T1, T2, T3 states of its definitions.
pub proof fn lemma_describe_4<T0: BorshSchema, T1: BorshSchema, T2: BorshSchema, T3: BorshSchema>(k: Seq<char>, d: DefinitionView)
    requires
        !primitive_declaration(k),
        forall|x: Seq<char>| #[trigger] refers_to(d, x) ==> x == T0::spec_declaration() || x == T1::spec_declaration() || x == T2::spec_declaration() || x == T3::spec_declaration() || primitive_declaration(x),
    ensures
        closed(defs_4::<T0, T1, T2, T3>(k, d)),
        no_primitive_keys(defs_4::<T0, T1, T2, T3>(k, d)),
        defs_4::<T0, T1, T2, T3>(k, d).contains_key(k),
        consistent_4::<T0, T1, T2, T3>(k) ==> defs_4::<T0, T1, T2, T3>(k, d)[k] == d,
{
    T0::lemma_described(); T1::lemma_described(); T2::lemma_described(); T3::lemma_described();
    lemma_closed_union(T0::spec_definitions(), T1::spec_definitions());
    lemma_closed_union(T0::spec_definitions().union_prefer_right(T1::spec_definitions()), T2::spec_definitions());
    lemma_closed_union(T0::spec_definitions().union_prefer_right(T1::spec_definitions()).union_prefer_right(T2::spec_definitions()), T3::spec_definitions());
    let parts = T0::spec_definitions().union_prefer_right(T1::spec_definitions()).union_prefer_right(T2::spec_definitions()).union_prefer_right(T3::spec_definitions());
    assert forall|x: Seq<char>| #[trigger] refers_to(d, x) implies parts.contains_key(x)
        || primitive_declaration(x) by {
        if x == T0::spec_declaration() && T0::spec_own() is Some {
            assert(T0::spec_definitions().contains_key(x));
        }
        if x == T1::spec_declaration() && T1::spec_own() is Some {
            assert(T1::spec_definitions().contains_key(x));
        }
        if x == T2::spec_declaration() && T2::spec_own() is Some {
            assert(T2::spec_definitions().contains_key(x));
        }
        if x == T3::spec_declaration() && T3::spec_own() is Some {
            assert(T3::spec_definitions().contains_key(x));
        }
    }
    lemma_closed_add(k, d, parts);
    assert(single(k, d).union_prefer_right(parts) =~= defs_4::<T0, T1, T2, T3>(k, d));
    if consistent_4::<T0, T1, T2, T3>(k) {
        lemma_parts_4::<T0, T1, T2, T3>(k, d);
    }
}

/// A map that holds `k`, and in which the entries of the set are expanded, holds the whole
/// set of a type whose own entry `d` under `k` is built from T0, T1, T2, T3.
pub proof fn lemma_absorb_4<T0: BorshSchema, T1: BorshSchema, T2: BorshSchema, T3: BorshSchema>(m: Map<Seq<char>, DefinitionView>, k: Seq<char>, d: DefinitionView)
    requires
        settled(m, defs_4::<T0, T1, T2, T3>(k, d)),
        consistent_4::<T0, T1, T2, T3>(k),
        m.contains_key(k),
        refers_to(d, T0::spec_declaration()),
        refers_to(d, T1::spec_declaration()),
        refers_to(d, T2::spec_declaration()),
        refers_to(d, T3::spec_declaration()),
    ensures
        defs_4::<T0, T1, T2, T3>(k, d).submap_of(m),
{
    lemma_parts_4::<T0, T1, T2, T3>(k, d);
    T0::lemma_described(); T1::lemma_described(); T2::lemma_described(); T3::lemma_described();
    lemma_settled_part(m, defs_4::<T0, T1, T2, T3>(k, d), T0::spec_definitions());
    if T0::spec_own() is Some {
        assert(refers_to(m[k], T0::spec_declaration()));
    }
    T0::lemma_absorbed(m);
    lemma_settled_part(m, defs_4::<T0, T1, T2, T3>(k, d), T1::spec_definitions());
    if T1::spec_own() is Some {
        assert(refers_to(m[k], T1::spec_declaration()));
    }
    T1::lemma_absorbed(m);
    lemma_settled_part(m, defs_4::<T0, T1, T2, T3>(k, d), T2::spec_definitions());
    if T2::spec_own() is Some {
        assert(refers_to(m[k], T2::spec_declaration()));
    }
    T2::lemma_absorbed(m);
    lemma_settled_part(m, defs_4::<T0, T1, T2, T3>(k, d), T3::spec_definitions());
    if T3::spec_own() is Some {
        assert(refers_to(m[k], T3::spec_declaration()));
    }
    T3::lemma_absorbed(m);
    assert forall|x: Seq<char>| #[trigger] defs_4::<T0, T1, T2, T3>(k, d).contains_key(x) implies m.contains_key(x)
        && m[x] == defs_4::<T0, T1, T2, T3>(k, d)[x] by {
        if T0::spec_definitions().contains_key(x) {
            assert(T0::spec_definitions().submap_of(m));
        }
        if T1::spec_definitions().contains_key(x) {
            assert(T1::spec_definitions().submap_of(m));
        }
        if T2::spec_definitions().contains_key(x) {
            assert(T2::spec_definitions().submap_of(m));
        }
        if T3::spec_definitions().contains_key(x) {
            assert(T3::spec_definitions().submap_of(m));
        }
        if x == k {
            assert(m.contains_key(k));
        }
        assert(m.contains_key(x));
        assert(defs_4::<T0, T1, T2, T3>(k, d).contains_key(x));
    }
}

/// The walk of a type whose own entry `definition` under `declaration` is built from T0, T1, T2, T3:
/// stop at an equal entry already there, fail at a different one, and otherwise add the
/// entry and walk each constituent in order.
pub fn walk_4<T0: BorshSchema, T1: BorshSchema, T2: BorshSchema, T3: BorshSchema>(
    declaration: Declaration,
    definition: Definition,
    definitions: &mut Definitions,
) -> (r: Result<(), SchemaError>)
    requires
        old(definitions).wf(),
        refers_to(definition@, T0::spec_declaration()),
        refers_to(definition@, T1::spec_declaration()),
        refers_to(definition@, T2::spec_declaration()),
        refers_to(definition@, T3::spec_declaration()),
    ensures
        final(definitions).wf(),
        (old(definitions)@.contains_key(declaration@) && old(definitions)@[declaration@]
            == definition@) ==> (r is Ok && final(definitions)@ == old(definitions)@),
        (old(definitions)@.contains_key(declaration@) && old(definitions)@[declaration@]
            != definition@) ==> (r == Err::<(), SchemaError>(SchemaError::SchemaConflict)),
        (settled(old(definitions)@, defs_4::<T0, T1, T2, T3>(declaration@, definition@))
            && consistent_4::<T0, T1, T2, T3>(declaration@)) ==> (r is Ok && final(definitions)@
            == old(definitions)@.union_prefer_right(defs_4::<T0, T1, T2, T3>(declaration@, definition@))),
        r is Err ==> r == Err::<(), SchemaError>(SchemaError::SchemaConflict),
{
    let ghost m = definitions@;
    let ghost k = declaration@;
    let ghost d = definition@;
    let ghost all = defs_4::<T0, T1, T2, T3>(k, d);
    let ghost good = settled(m, all) && consistent_4::<T0, T1, T2, T3>(k);
    let found = match definitions.get(&declaration) {
        Some(existing) => Some(same_definition(existing, &definition)),
        None => None,
    };
    match found {
        Some(true) => {
            proof {
                if good {
                    lemma_absorb_4::<T0, T1, T2, T3>(m, k, d);
                    assert(m.union_prefer_right(all) =~= m);
                }
            }
            Ok(())
        },
        Some(false) => {
            proof {
                if good {
                    lemma_parts_4::<T0, T1, T2, T3>(k, d);
                    assert(all.contains_key(k) && m.contains_key(k));
                }
            }
            Err(SchemaError::SchemaConflict)
        },
        None => {
            definitions.insert(declaration, definition);
            proof {
                if good {
                    lemma_parts_4::<T0, T1, T2, T3>(k, d);
                    T0::lemma_described(); T1::lemma_described(); T2::lemma_described(); T3::lemma_described();
                    lemma_settled_part(m, all, T0::spec_definitions());
                    lemma_settled_insert(m, T0::spec_definitions(), k, d);
                    lemma_settled_part(m, all, T1::spec_definitions());
                    lemma_settled_insert(m, T1::spec_definitions(), k, d);
                    lemma_settled_part(m, all, T2::spec_definitions());
                    lemma_settled_insert(m, T2::spec_definitions(), k, d);
                    lemma_settled_part(m, all, T3::spec_definitions());
                    lemma_settled_insert(m, T3::spec_definitions(), k, d);
                }
            }
            let ghost before0 = definitions@;
            let r0 = T0::add_definitions_recursively(definitions);
            if r0.is_err() {
                return r0;
            }
            proof {
                if good {
                    lemma_settled_merge(before0, T0::spec_definitions(), T1::spec_definitions());
                    lemma_settled_merge(before0, T0::spec_definitions(), T2::spec_definitions());
                    lemma_settled_merge(before0, T0::spec_definitions(), T3::spec_definitions());
                }
            }
            let ghost before1 = definitions@;
            let r1 = T1::add_definitions_recursively(definitions);
            if r1.is_err() {
                return r1;
            }
            proof {
                if good {
                    lemma_settled_merge(before1, T1::spec_definitions(), T2::spec_definitions());
                    lemma_settled_merge(before1, T1::spec_definitions(), T3::spec_definitions());
                }
            }
            let ghost before2 = definitions@;
            let r2 = T2::add_definitions_recursively(definitions);
            if r2.is_err() {
                return r2;
            }
            proof {
                if good {
                    lemma_settled_merge(before2, T2::spec_definitions(), T3::spec_definitions());
                }
            }
            let ghost before3 = definitions@;
            let r3 = T3::add_definitions_recursively(definitions);
            proof {
                if good {
                    assert(m.insert(k, d).union_prefer_right(T0::spec_definitions()).union_prefer_right(T1::spec_definitions()).union_prefer_right(T2::spec_definitions()).union_prefer_right(T3::spec_definitions()) =~= m.union_prefer_right(all));
                }
            }
            r3
        },
    }
}

/// The definitions of a type whose own entry `d` under `k` is built from T0, T1, T2, T3, T4.
pub open spec fn defs_5<T0: BorshSchema, T1: BorshSchema, T2: BorshSchema, T3: BorshSchema, T4: BorshSchema>(k: Seq<char>, d: DefinitionView) -> Map<Seq<char>, DefinitionView> {
    single(k, d).union_prefer_right(T0::spec_definitions()).union_prefer_right(T1::spec_definitions()).union_prefer_right(T2::spec_definitions()).union_prefer_right(T3::spec_definitions()).union_prefer_right(T4::spec_definitions())
}

/// The types T0, T1, T2, T3, T4 are consistent and agree with each other, and none of them defines `k`.
pub open spec fn consistent_5<T0: BorshSchema, T1: BorshSchema, T2: BorshSchema, T3: BorshSchema, T4: BorshSchema>(k: Seq<char>) -> bool {
    T0::spec_consistent() && T1::spec_consistent() && T2::spec_consistent() && T3::spec_consistent() && T4::spec_consistent() && !T0::spec_definitions().contains_key(k) && !T1::spec_definitions().contains_key(k) && !T2::spec_definitions().contains_key(k) && !T3::spec_definitions().contains_key(k) && !T4::spec_definitions().contains_key(k) && compatible(T0::spec_definitions(), T1::spec_definitions()) && compatible(T0::spec_definitions(), T2::spec_definitions()) && compatible(T0::spec_definitions(), T3::spec_definitions()) && compatible(T0::spec_definitions(), T4::spec_definitions()) && compatible(T1::spec_definitions(), T2::spec_definitions()) && compatible(T1::spec_definitions(), T3::spec_definitions()) && compatible(T1::spec_definitions(), T4::spec_definitions()) && compatible(T2::spec_definitions(), T3::spec_definitions()) && compatible(T2::spec_definitions(), T4::spec_definitions()) && compatible(T3::spec_definitions(), T4::spec_definitions())
}

proof fn lemma_parts_5<T0: BorshSchema, T1: BorshSchema, T2: BorshSchema, T3: BorshSchema, T4: BorshSchema>(k: Seq<char>, d: DefinitionView)
    requires
        consistent_5::<T0, T1, T2, T3, T4>(k),
    ensures
        T0::spec_definitions().submap_of(defs_5::<T0, T1, T2, T3, T4>(k, d)),
        T1::spec_definitions().submap_of(defs_5::<T0, T1, T2, T3, T4>(k, d)),
        T2::spec_definitions().submap_of(defs_5::<T0, T1, T2, T3, T4>(k, d)),
        T3::spec_definitions().submap_of(defs_5::<T0, T1, T2, T3, T4>(k, d)),
        T4::spec_definitions().submap_of(defs_5::<T0, T1, T2, T3, T4>(k, d)),
        defs_5::<T0, T1, T2, T3, T4>(k, d).contains_key(k),
        defs_5::<T0, T1, T2, T3, T4>(k, d)[k] == d,
{
    assert forall|x: Seq<char>| #[trigger] T0::spec_definitions().contains_key(x) implies defs_5::<T0, T1, T2, T3, T4>(k, d).contains_key(x)
        && defs_5::<T0, T1, T2, T3, T4>(k, d)[x] == T0::spec_definitions()[x] by {
            if T1::spec_definitions().contains_key(x) {
                assert(T1::spec_definitions()[x] == T0::spec_definitions()[x]);
            }
            if T2::spec_definitions().contains_key(x) {
                assert(T2::spec_definitions()[x] == T0::spec_definitions()[x]);
            }
            if T3::spec_definitions().contains_key(x) {
                assert(T3::spec_definitions()[x] == T0::spec_definitions()[x]);
            }
            if T4::spec_definitions().contains_key(x) {
                assert(T4::spec_definitions()[x] == T0::spec_definitions()[x]);
            }
    }
    assert forall|x: Seq<char>| #[trigger] T1::spec_definitions().contains_key(x) implies defs_5::<T0, T1, T2, T3, T4>(k, d).contains_key(x)
        && defs_5::<T0, T1, T2, T3, T4>(k, d)[x] == T1::spec_definitions()[x] by {
            if T2::spec_definitions().contains_key(x) {
                assert(T2::spec_definitions()[x] == T1::spec_definitions()[x]);
            }
            if T3::spec_definitions().contains_key(x) {
                assert(T3::spec_definitions()[x] == T1::spec_definitions()[x]);
            }
            if T4::spec_definitions().contains_key(x) {
                assert(T4::spec_definitions()[x] == T1::spec_definitions()[x]);
            }
    }
    assert forall|x: Seq<char>| #[trigger] T2::spec_definitions().contains_key(x) implies defs_5::<T0, T1, T2, T3, T4>(k, d).contains_key(x)
        && defs_5::<T0, T1, T2, T3, T4>(k, d)[x] == T2::spec_definitions()[x] by {
            if T3::spec_definitions().contains_key(x) {
                assert(T3::spec_definitions()[x] == T2::spec_definitions()[x]);
            }
            if T4::spec_definitions().contains_key(x) {
                assert(T4::spec_definitions()[x] == T2::spec_definitions()[x]);
            }
    }
    assert forall|x: Seq<char>| #[trigger] T3::spec_definitions().contains_key(x) implies defs_5::<T0, T1, T2, T3, T4>(k, d).contains_key(x)
        && defs_5::<T0, T1, T2, T3, T4>(k, d)[x] == T3::spec_definitions()[x] by {
            if T4::spec_definitions().contains_key(x) {
                assert(T4::spec_definitions()[x] == T3::spec_definitions()[x]);
            }
    }
    assert forall|x: Seq<char>| #[trigger] T4::spec_definitions().contains_key(x) implies defs_5::<T0, T1, T2, T3, T4>(k, d).contains_key(x)
        && defs_5::<T0, T1, T2, T3, T4>(k, d)[x] == T4::spec_definitions()[x] by {
    }
}

/// What a type whose own entry `d` under `k` is built from T0, T1, T2, T3, T4 states of its definitions.
pub proof fn lemma_describe_5<T0: BorshSchema, T1: BorshSchema, T2: BorshSchema, T3: BorshSchema, T4: BorshSchema>(k: Seq<char>, d: DefinitionView)
    requires
        !primitive_declaration(k),
        forall|x: Seq<char>| #[trigger] refers_to(d, x) ==> x == T0::spec_declaration() || x == T1::spec_declaration() || x == T2::spec_declaration() || x == T3::spec_declaration() || x == T4::spec_declaration() || primitive_declaration(x),
    ensures
        closed(defs_5::<T0, T1, T2, T3, T4>(k, d)),
        no_primitive_keys(defs_5::<T0, T1, T2, T3, T4>(k, d)),
        defs_5::<T0, T1, T2, T3, T4>(k, d).contains_key(k),
        consistent_5::<T0, T1, T2, T3, T4>(k) ==> defs_5::<T0, T1, T2, T3, T4>(k, d)[k] == d,
{
    T0::lemma_described(); T1::lemma_described(); T2::lemma_described(); T3::lemma_described(); T4::lemma_described();
    lemma_closed_union(T0::spec_definitions(), T1::spec_definitions());
    lemma_closed_union(T0::spec_definitions().union_prefer_right(T1::spec_definitions()), T2::spec_definitions());
    lemma_closed_union(T0::spec_definitions().union_prefer_right(T1::spec_definitions()).union_prefer_right(T2::spec_definitions()), T3::spec_definitions());
    lemma_closed_union(T0::spec_definitions().union_prefer_right(T1::spec_definitions()).union_prefer_right(T2::spec_definitions()).union_prefer_right(T3::spec_definitions()), T4::spec_definitions());
    let parts = T0::spec_definitions().union_prefer_right(T1::spec_definitions()).union_prefer_right(T2::spec_definitions()).union_prefer_right(T3::spec_definitions()).union_prefer_right(T4::spec_definitions());
    assert forall|x: Seq<char>| #[trigger] refers_to(d, x) implies parts.contains_key(x)
        || primitive_declaration(x) by {
        if x == T0::spec_declaration() && T0::spec_own() is Some {
            assert(T0::spec_definitions().contains_key(x));
        }
        if x == T1::spec_declaration() && T1::spec_own() is Some {
            assert(T1::spec_definitions().contains_key(x));
        }
        if x == T2::spec_declaration() && T2::spec_own() is Some {
            assert(T2::spec_definitions().contains_key(x));
        }
        if x == T3::spec_declaration() && T3::spec_own() is Some {
            assert(T3::spec_definitions().contains_key(x));
        }
        if x == T4::spec_declaration() && T4::spec_own() is Some {
            assert(T4::spec_definitions().contains_key(x));
        }
    }
    lemma_closed_add(k, d, parts);
    assert(single(k, d).union_prefer_right(parts) =~= defs_5::<T0, T1, T2, T3, T4>(k, d));
    if consistent_5::<T0, T1, T2, T3, T4>(k) {
        lemma_parts_5::<T0, T1, T2, T3, T4>(k, d);
    }
}

/// A map that holds `k`, and in which the entries of the set are expanded, holds the whole
/// set of a type whose own entry `d` under `k` is built from T0, T1, T2, T3, T4.
pub proof fn lemma_absorb_5<T0: BorshSchema, T1: BorshSchema, T2: BorshSchema, T3: BorshSchema, T4: BorshSchema>(m: Map<Seq<char>, DefinitionView>, k: Seq<char>, d: DefinitionView)
    requires
        settled(m, defs_5::<T0, T1, T2, T3, T4>(k, d)),
        consistent_5::<T0, T1, T2, T3, T4>(k),
        m.contains_key(k),
        refers_to(d, T0::spec_declaration()),
        refers_to(d, T1::spec_declaration()),
        refers_to(d, T2::spec_declaration()),
        refers_to(d, T3::spec_declaration()),
        refers_to(d, T4::spec_declaration()),
    ensures
        defs_5::<T0, T1, T2, T3, T4>(k, d).submap_of(m),
{
    lemma_parts_5::<T0, T1, T2, T3, T4>(k, d);
    T0::lemma_described(); T1::lemma_described(); T2::lemma_described(); T3::lemma_described(); T4::lemma_described();
    lemma_settled_part(m, defs_5::<T0, T1, T2, T3, T4>(k, d), T0::spec_definitions());
    if T0::spec_own() is Some {
        assert(refers_to(m[k], T0::spec_declaration()));
    }
    T0::lemma_absorbed(m);
    lemma_settled_part(m, defs_5::<T0, T1, T2, T3, T4>(k, d), T1::spec_definitions());
    if T1::spec_own() is Some {
        assert(refers_to(m[k], T1::spec_declaration()));
    }
    T1::lemma_absorbed(m);
    lemma_settled_part(m, defs_5::<T0, T1, T2, T3, T4>(k, d), T2::spec_definitions());
    if T2::spec_own() is Some {
        assert(refers_to(m[k], T2::spec_declaration()));
    }
    T2::lemma_absorbed(m);
    lemma_settled_part(m, defs_5::<T0, T1, T2, T3, T4>(k, d), T3::spec_definitions());
    if T3::spec_own() is Some {
        assert(refers_to(m[k], T3::spec_declaration()));
    }
    T3::lemma_absorbed(m);
    lemma_settled_part(m, defs_5::<T0, T1, T2, T3, T4>(k, d), T4::spec_definitions());
    if T4::spec_own() is Some {
        assert(refers_to(m[k], T4::spec_declaration()));
    }
    T4::lemma_absorbed(m);
    assert forall|x: Seq<char>| #[trigger] defs_5::<T0, T1, T2, T3, T4>(k, d).contains_key(x) implies m.contains_key(x)
        && m[x] == defs_5::<T0, T1, T2, T3, T4>(k, d)[x] by {
        if T0::spec_definitions().contains_key(x) {
            assert(T0::spec_definitions().submap_of(m));
        }
        if T1::spec_definitions().contains_key(x) {
            assert(T1::spec_definitions().submap_of(m));
        }
        if T2::spec_definitions().contains_key(x) {
            assert(T2::spec_definitions().submap_of(m));
        }
        if T3::spec_definitions().contains_key(x) {
            assert(T3::spec_definitions().submap_of(m));
        }
        if T4::spec_definitions().contains_key(x) {
            assert(T4::spec_definitions().submap_of(m));
        }
        if x == k {
            assert(m.contains_key(k));
        }
        assert(m.contains_key(x));
        assert(defs_5::<T0, T1, T2, T3, T4>(k, d).contains_key(x));
    }
}

/// The walk of a type whose own entry `definition` under `declaration` is built from T0, T1, T2, T3, T4:
/// stop at an equal entry already there, fail at a different one, and otherwise add the
/// entry and walk each constituent in order.
pub fn walk_5<T0: BorshSchema, T1: BorshSchema, T2: BorshSchema, T3: BorshSchema, T4: BorshSchema>(
    declaration: Declaration,
    definition: Definition,
    definitions: &mut Definitions,
) -> (r: Result<(), SchemaError>)
    requires
        old(definitions).wf(),
        refers_to(definition@, T0::spec_declaration()),
        refers_to(definition@, T1::spec_declaration()),
        refers_to(definition@, T2::spec_declaration()),
        refers_to(definition@, T3::spec_declaration()),
        refers_to(definition@, T4::spec_declaration()),
    ensures
        final(definitions).wf(),
        (old(definitions)@.contains_key(declaration@) && old(definitions)@[declaration@]
            == definition@) ==> (r is Ok && final(definitions)@ == old(definitions)@),
        (old(definitions)@.contains_key(declaration@) && old(definitions)@[declaration@]
            != definition@) ==> (r == Err::<(), SchemaError>(SchemaError::SchemaConflict)),
        (settled(old(definitions)@, defs_5::<T0, T1, T2, T3, T4>(declaration@, definition@))
            && consistent_5::<T0, T1, T2, T3, T4>(declaration@)) ==> (r is Ok && final(definitions)@
            == old(definitions)@.union_prefer_right(defs_5::<T0, T1, T2, T3, T4>(declaration@, definition@))),
        r is Err ==> r == Err::<(), SchemaError>(SchemaError::SchemaConflict),
{
    let ghost m = definitions@;
    let ghost k = declaration@;
    let ghost d = definition@;
    let ghost all = defs_5::<T0, T1, T2, T3, T4>(k, d);
    let ghost good = settled(m, all) && consistent_5::<T0, T1, T2, T3, T4>(k);
    let found = match definitions.get(&declaration) {
        Some(existing) => Some(same_definition(existing, &definition)),
        None => None,
    };
    match found {
        Some(true) => {
            proof {
                if good {
                    lemma_absorb_5::<T0, T1, T2, T3, T4>(m, k, d);
                    assert(m.union_prefer_right(all) =~= m);
                }
            }
            Ok(())
        },
        Some(false) => {
            proof {
                if good {
                    lemma_parts_5::<T0, T1, T2, T3, T4>(k, d);
                    assert(all.contains_key(k) && m.contains_key(k));
                }
            }
            Err(SchemaError::SchemaConflict)
        },
        None => {
            definitions.insert(declaration, definition);
            proof {
                if good {
                    lemma_parts_5::<T0, T1, T2, T3, T4>(k, d);
                    T0::lemma_described(); T1::lemma_described(); T2::lemma_described(); T3::lemma_described(); T4::lemma_described();
                    lemma_settled_part(m, all, T0::spec_definitions());
                    lemma_settled_insert(m, T0::spec_definitions(), k, d);
                    lemma_settled_part(m, all, T1::spec_definitions());
                    lemma_settled_insert(m, T1::spec_definitions(), k, d);
                    lemma_settled_part(m, all, T2::spec_definitions());
                    lemma_settled_insert(m, T2::spec_definitions(), k, d);
                    lemma_settled_part(m, all, T3::spec_definitions());
                    lemma_settled_insert(m, T3::spec_definitions(), k, d);
                    lemma_settled_part(m, all, T4::spec_definitions());
                    lemma_settled_insert(m, T4::spec_definitions(), k, d);
                }
            }
            let ghost before0 = definitions@;
            let r0 = T0::add_definitions_recursively(definitions);
            if r0.is_err() {
                return r0;
            }
            proof {
                if good {
                    lemma_settled_merge(before0, T0::spec_definitions(), T1::spec_definitions());
                    lemma_settled_merge(before0, T0::spec_definitions(), T2::spec_definitions());
                    lemma_settled_merge(before0, T0::spec_definitions(), T3::spec_definitions());
                    lemma_settled_merge(before0, T0::spec_definitions(), T4::spec_definitions());
                }
            }
            let ghost before1 = definitions@;
            let r1 = T1::add_definitions_recursively(definitions);
            if r1.is_err() {
                return r1;
            }
            proof {
                if good {
                    lemma_settled_merge(before1, T1::spec_definitions(), T2::spec_definitions());
                    lemma_settled_merge(before1, T1::spec_definitions(), T3::spec_definitions());
                    lemma_settled_merge(before1, T1::spec_definitions(), T4::spec_definitions());
                }
            }
            let ghost before2 = definitions@;
            let r2 = T2::add_definitions_recursively(definitions);
            if r2.is_err() {
                return r2;
            }
            proof {
                if good {
                    lemma_settled_merge(before2, T2::spec_definitions(), T3::spec_definitions());
                    lemma_settled_merge(before2, T2::spec_definitions(), T4::spec_definitions());
                }
            }
            let ghost before3 = definitions@;
            let r3 = T3::add_definitions_recursively(definitions);
            if r3.is_err() {
                return r3;
            }
            proof {
                if good {
                    lemma_settled_merge(before3, T3::spec_definitions(), T4::spec_definitions());
                }
            }
            let ghost before4 = definitions@;
            let r4 = T4::add_definitions_recursively(definitions);
            proof {
                if good {
                    assert(m.insert(k, d).union_prefer_right(T0::spec_definitions()).union_prefer_right(T1::spec_definitions()).union_prefer_right(T2::spec_definitions()).union_prefer_right(T3::spec_definitions()).union_prefer_right(T4::spec_definitions()) =~= m.union_prefer_right(all));
                }
            }
            r4
        },
    }
}

/// The definitions of a type whose own entry `d` under `k` is built from T0, T1, T2, T3, T4, T5.
pub open spec fn defs_6<T0: BorshSchema, T1: BorshSchema, T2: BorshSchema, T3: BorshSchema, T4: BorshSchema, T5: BorshSchema>(k: Seq<char>, d: DefinitionView) -> Map<Seq<char>, DefinitionView> {
    single(k, d).union_prefer_right(T0::spec_definitions()).union_prefer_right(T1::spec_definitions()).union_prefer_right(T2::spec_definitions()).union_prefer_right(T3::spec_definitions()).union_prefer_right(T4::spec_definitions()).union_prefer_right(T5::spec_definitions())
}

/// The types T0, T1, T2, T3, T4, T5 are consistent and agree with each other, and none of them defines `k`.
pub open spec fn consistent_6<T0: BorshSchema, T1: BorshSchema, T2: BorshSchema, T3: BorshSchema, T4: BorshSchema, T5: BorshSchema>(k: Seq<char>) -> bool {
    T0::spec_consistent() && T1::spec_consistent() && T2::spec_consistent() && T3::spec_consistent() && T4::spec_consistent() && T5::spec_consistent() && !T0::spec_definitions().contains_key(k) && !T1::spec_definitions().contains_key(k) && !T2::spec_definitions().contains_key(k) && !T3::spec_definitions().contains_key(k) && !T4::spec_definitions().contains_key(k) && !T5::spec_definitions().contains_key(k) && compatible(T0::spec_definitions(), T1::spec_definitions()) && compatible(T0::spec_definitions(), T2::spec_definitions()) && compatible(T0::spec_definitions(), T3::spec_definitions()) && compatible(T0::spec_definitions(), T4::spec_definitions()) && compatible(T0::spec_definitions(), T5::spec_definitions()) && compatible(T1::spec_definitions(), T2::spec_definitions()) && compatible(T1::spec_definitions(), T3::spec_definitions()) && compatible(T1::spec_definitions(), T4::spec_definitions()) && compatible(T1::spec_definitions(), T5::spec_definitions()) && compatible(T2::spec_definitions(), T3::spec_definitions()) && compatible(T2::spec_definitions(), T4::spec_definitions()) && compatible(T2::spec_definitions(), T5::spec_definitions()) && compatible(T3::spec_definitions(), T4::spec_definitions()) && compatible(T3::spec_definitions(), T5::spec_definitions()) && compatible(T4::spec_definitions(), T5::spec_definitions())
}

proof fn lemma_parts_6<T0: BorshSchema, T1: BorshSchema, T2: BorshSchema, T3: BorshSchema, T4: BorshSchema, T5: BorshSchema>(k: Seq<char>, d: DefinitionView)
    requires
        consistent_6::<T0, T1, T2, T3, T4, T5>(k),
    ensures
        T0::spec_definitions().submap_of(defs_6::<T0, T1, T2, T3, T4, T5>(k, d)),
        T1::spec_definitions().submap_of(defs_6::<T0, T1, T2, T3, T4, T5>(k, d)),
        T2::spec_definitions().submap_of(defs_6::<T0, T1, T2, T3, T4, T5>(k, d)),
        T3::spec_definitions().submap_of(defs_6::<T0, T1, T2, T3, T4, T5>(k, d)),
        T4::spec_definitions().submap_of(defs_6::<T0, T1, T2, T3, T4, T5>(k, d)),
        T5::spec_definitions().submap_of(defs_6::<T0, T1, T2, T3, T4, T5>(k, d)),
        defs_6::<T0, T1, T2, T3, T4, T5>(k, d).contains_key(k),
        defs_6::<T0, T1, T2, T3, T4, T5>(k, d)[k] == d,
{
    assert forall|x: Seq<char>| #[trigger] T0::spec_definitions().contains_key(x) implies defs_6::<T0, T1, T2, T3, T4, T5>(k, d).contains_key(x)
        && defs_6::<T0, T1, T2, T3, T4, T5>(k, d)[x] == T0::spec_definitions()[x] by {
            if T1::spec_definitions().contains_key(x) {
                assert(T1::spec_definitions()[x] == T0::spec_definitions()[x]);
            }
            if T2::spec_definitions().contains_key(x) {
                assert(T2::spec_definitions()[x] == T0::spec_definitions()[x]);
            }
            if T3::spec_definitions().contains_key(x) {
                assert(T3::spec_definitions()[x] == T0::spec_definitions()[x]);
            }
            if T4::spec_definitions().contains_key(x) {
                assert(T4::spec_definitions()[x] == T0::spec_definitions()[x]);
            }
            if T5::spec_definitions().contains_key(x) {
                assert(T5::spec_definitions()[x] == T0::spec_definitions()[x]);
            }
    }
    assert forall|x: Seq<char>| #[trigger] T1::spec_definitions().contains_key(x) implies defs_6::<T0, T1, T2, T3, T4, T5>(k, d).contains_key(x)
        && defs_6::<T0, T1, T2, T3, T4, T5>(k, d)[x] == T1::spec_definitions()[x] by {
            if T2::spec_definitions().contains_key(x) {
                assert(T2::spec_definitions()[x] == T1::spec_definitions()[x]);
            }
            if T3::spec_definitions().contains_key(x) {
                assert(T3::spec_definitions()[x] == T1::spec_definitions()[x]);
            }
            if T4::spec_definitions().contains_key(x) {
                assert(T4::spec_definitions()[x] == T1::spec_definitions()[x]);
            }
            if T5::spec_definitions().contains_key(x) {
                assert(T5::spec_definitions()[x] == T1::spec_definitions()[x]);
            }
    }
    assert forall|x: Seq<char>| #[trigger] T2::spec_definitions().contains_key(x) implies defs_6::<T0, T1, T2, T3, T4, T5>(k, d).contains_key(x)
        && defs_6::<T0, T1, T2, T3, T4, T5>(k, d)[x] == T2::spec_definitions()[x] by {
            if T3::spec_definitions().contains_key(x) {
                assert(T3::spec_definitions()[x] == T2::spec_definitions()[x]);
            }
            if T4::spec_definitions().contains_key(x) {
                assert(T4::spec_definitions()[x] == T2::spec_definitions()[x]);
            }
            if T5::spec_definitions().contains_key(x) {
                assert(T5::spec_definitions()[x] == T2::spec_definitions()[x]);
            }
    }
    assert forall|x: Seq<char>| #[trigger] T3::spec_definitions().contains_key(x) implies defs_6::<T0, T1, T2, T3, T4, T5>(k, d).contains_key(x)
        && defs_6::<T0, T1, T2, T3, T4, T5>(k, d)[x] == T3::spec_definitions()[x] by {
            if T4::spec_definitions().contains_key(x) {
                assert(T4::spec_definitions()[x] == T3::spec_definitions()[x]);
            }
            if T5::spec_definitions().contains_key(x) {
                assert(T5::spec_definitions()[x] == T3::spec_definitions()[x]);
            }
    }
    assert forall|x: Seq<char>| #[trigger] T4::spec_definitions().contains_key(x) implies defs_6::<T0, T1, T2, T3, T4, T5>(k, d).contains_key(x)
        && defs_6::<T0, T1, T2, T3, T4, T5>(k, d)[x] == T4::spec_definitions()[x] by {
            if T5::spec_definitions().contains_key(x) {
                assert(T5::spec_definitions()[x] == T4::spec_definitions()[x]);
            }
    }
    assert forall|x: Seq<char>| #[trigger] T5::spec_definitions().contains_key(x) implies defs_6::<T0, T1, T2, T3, T4, T5>(k, d).contains_key(x)
        && defs_6::<T0, T1, T2, T3, T4, T5>(k, d)[x] == T5::spec_definitions()[x] by {
    }
}

/// What a type whose own entry `d` under `k` is built from T0, T1, T2, T3, T4, T5 states of its definitions.
pub proof fn lemma_describe_6<T0: BorshSchema, T1: BorshSchema, T2: BorshSchema, T3: BorshSchema, T4: BorshSchema, T5: BorshSchema>(k: Seq<char>, d: DefinitionView)
    requires
        !primitive_declaration(k),
        forall|x: Seq<char>| #[trigger] refers_to(d, x) ==> x == T0::spec_declaration() || x == T1::spec_declaration() || x == T2::spec_declaration() || x == T3::spec_declaration() || x == T4::spec_declaration() || x == T5::spec_declaration() || primitive_declaration(x),
    ensures
        closed(defs_6::<T0, T1, T2, T3, T4, T5>(k, d)),
        no_primitive_keys(defs_6::<T0, T1, T2, T3, T4, T5>(k, d)),
        defs_6::<T0, T1, T2, T3, T4, T5>(k, d).contains_key(k),
        consistent_6::<T0, T1, T2, T3, T4, T5>(k) ==> defs_6::<T0, T1, T2, T3, T4, T5>(k, d)[k] == d,
{
    T0::lemma_described(); T1::lemma_described(); T2::lemma_described(); T3::lemma_described(); T4::lemma_described(); T5::lemma_described();
    lemma_closed_union(T0::spec_definitions(), T1::spec_definitions());
    lemma_closed_union(T0::spec_definitions().union_prefer_right(T1::spec_definitions()), T2::spec_definitions());
    lemma_closed_union(T0::spec_definitions().union_prefer_right(T1::spec_definitions()).union_prefer_right(T2::spec_definitions()), T3::spec_definitions());
    lemma_closed_union(T0::spec_definitions().union_prefer_right(T1::spec_definitions()).union_prefer_right(T2::spec_definitions()).union_prefer_right(T3::spec_definitions()), T4::spec_definitions());
    lemma_closed_union(T0::spec_definitions().union_prefer_right(T1::spec_definitions()).union_prefer_right(T2::spec_definitions()).union_prefer_right(T3::spec_definitions()).union_prefer_right(T4::spec_definitions()), T5::spec_definitions());
    let parts = T0::spec_definitions().union_prefer_right(T1::spec_definitions()).union_prefer_right(T2::spec_definitions()).union_prefer_right(T3::spec_definitions()).union_prefer_right(T4::spec_definitions()).union_prefer_right(T5::spec_definitions());
    assert forall|x: Seq<char>| #[trigger] refers_to(d, x) implies parts.contains_key(x)
        || primitive_declaration(x) by {
        if x == T0::spec_declaration() && T0::spec_own() is Some {
            assert(T0::spec_definitions().contains_key(x));
        }
        if x == T1::spec_declaration() && T1::spec_own() is Some {
            assert(T1::spec_definitions().contains_key(x));
        }
        if x == T2::spec_declaration() && T2::spec_own() is Some {
            assert(T2::spec_definitions().contains_key(x));
        }
        if x == T3::spec_declaration() && T3::spec_own() is Some {
            assert(T3::spec_definitions().contains_key(x));
        }
        if x == T4::spec_declaration() && T4::spec_own() is Some {
            assert(T4::spec_definitions().contains_key(x));
        }
        if x == T5::spec_declaration() && T5::spec_own() is Some {
            assert(T5::spec_definitions().contains_key(x));
        }
    }
    lemma_closed_add(k, d, parts);
    assert(single(k, d).union_prefer_right(parts) =~= defs_6::<T0, T1, T2, T3, T4, T5>(k, d));
    if consistent_6::<T0, T1, T2, T3, T4, T5>(k) {
        lemma_parts_6::<T0, T1, T2, T3, T4, T5>(k, d);
    }
}

/// A map that holds `k`, and in which the entries of the set are expanded, holds the whole
/// set of a type whose own entry `d` under `k` is built from T0, T1, T2, T3, T4, T5.
pub proof fn lemma_absorb_6<T0: BorshSchema, T1: BorshSchema, T2: BorshSchema, T3: BorshSchema, T4: BorshSchema, T5: BorshSchema>(m: Map<Seq<char>, DefinitionView>, k: Seq<char>, d: DefinitionView)
    requires
        settled(m, defs_6::<T0, T1, T2, T3, T4, T5>(k, d)),
        consistent_6::<T0, T1, T2, T3, T4, T5>(k),
        m.contains_key(k),
        refers_to(d, T0::spec_declaration()),
        refers_to(d, T1::spec_declaration()),
        refers_to(d, T2::spec_declaration()),
        refers_to(d, T3::spec_declaration()),
        refers_to(d, T4::spec_declaration()),
        refers_to(d, T5::spec_declaration()),
    ensures
        defs_6::<T0, T1, T2, T3, T4, T5>(k, d).submap_of(m),
{
    lemma_parts_6::<T0, T1, T2, T3, T4, T5>(k, d);
    T0::lemma_described(); T1::lemma_described(); T2::lemma_described(); T3::lemma_described(); T4::lemma_described(); T5::lemma_described();
    lemma_settled_part(m, defs_6::<T0, T1, T2, T3, T4, T5>(k, d), T0::spec_definitions());
    if T0::spec_own() is Some {
        assert(refers_to(m[k], T0::spec_declaration()));
    }
    T0::lemma_absorbed(m);
    lemma_settled_part(m, defs_6::<T0, T1, T2, T3, T4, T5>(k, d), T1::spec_definitions());
    if T1::spec_own() is Some {
        assert(refers_to(m[k], T1::spec_declaration()));
    }
    T1::lemma_absorbed(m);
    lemma_settled_part(m, defs_6::<T0, T1, T2, T3, T4, T5>(k, d), T2::spec_definitions());
    if T2::spec_own() is Some {
        assert(refers_to(m[k], T2::spec_declaration()));
    }
    T2::lemma_absorbed(m);
    lemma_settled_part(m, defs_6::<T0, T1, T2, T3, T4, T5>(k, d), T3::spec_definitions());
    if T3::spec_own() is Some {
        assert(refers_to(m[k], T3::spec_declaration()));
    }
    T3::lemma_absorbed(m);
    lemma_settled_part(m, defs_6::<T0, T1, T2, T3, T4, T5>(k, d), T4::spec_definitions());
    if T4::spec_own() is Some {
        assert(refers_to(m[k], T4::spec_declaration()));
    }
    T4::lemma_absorbed(m);
    lemma_settled_part(m, defs_6::<T0, T1, T2, T3, T4, T5>(k, d), T5::spec_definitions());
    if T5::spec_own() is Some {
        assert(refers_to(m[k], T5::spec_declaration()));
    }
    T5::lemma_absorbed(m);
    assert forall|x: Seq<char>| #[trigger] defs_6::<T0, T1, T2, T3, T4, T5>(k, d).contains_key(x) implies m.contains_key(x)
        && m[x] == defs_6::<T0, T1, T2, T3, T4, T5>(k, d)[x] by {
        if T0::spec_definitions().contains_key(x) {
            assert(T0::spec_definitions().submap_of(m));
        }
        if T1::spec_definitions().contains_key(x) {
            assert(T1::spec_definitions().submap_of(m));
        }
        if T2::spec_definitions().contains_key(x) {
            assert(T2::spec_definitions().submap_of(m));
        }
        if T3::spec_definitions().contains_key(x) {
            assert(T3::spec_definitions().submap_of(m));
        }
        if T4::spec_definitions().contains_key(x) {
            assert(T4::spec_definitions().submap_of(m));
        }
        if T5::spec_definitions().contains_key(x) {
            assert(T5::spec_definitions().submap_of(m));
        }
        if x == k {
            assert(m.contains_key(k));
        }
        assert(m.contains_key(x));
        assert(defs_6::<T0, T1, T2, T3, T4, T5>(k, d).contains_key(x));
    }
}

/// The walk of a type whose own entry `definition` under `declaration` is built from T0, T1, T2, T3, T4, T5:
/// stop at an equal entry already there, fail at a different one, and otherwise add the
/// entry and walk each constituent in order.
pub fn walk_6<T0: BorshSchema, T1: BorshSchema, T2: BorshSchema, T3: BorshSchema, T4: BorshSchema, T5: BorshSchema>(
    declaration: Declaration,
    definition: Definition,
    definitions: &mut Definitions,
) -> (r: Result<(), SchemaError>)
    requires
        old(definitions).wf(),
        refers_to(definition@, T0::spec_declaration()),
        refers_to(definition@, T1::spec_declaration()),
        refers_to(definition@, T2::spec_declaration()),
        refers_to(definition@, T3::spec_declaration()),
        refers_to(definition@, T4::spec_declaration()),
        refers_to(definition@, T5::spec_declaration()),
    ensures
        final(definitions).wf(),
        (old(definitions)@.contains_key(declaration@) && old(definitions)@[declaration@]
            == definition@) ==> (r is Ok && final(definitions)@ == old(definitions)@),
        (old(definitions)@.contains_key(declaration@) && old(definitions)@[declaration@]
            != definition@) ==> (r == Err::<(), SchemaError>(SchemaError::SchemaConflict)),
        (settled(old(definitions)@, defs_6::<T0, T1, T2, T3, T4, T5>(declaration@, definition@))
            && consistent_6::<T0, T1, T2, T3, T4, T5>(declaration@)) ==> (r is Ok && final(definitions)@
            == old(definitions)@.union_prefer_right(defs_6::<T0, T1, T2, T3, T4, T5>(declaration@, definition@))),
        r is Err ==> r == Err::<(), SchemaError>(SchemaError::SchemaConflict),
{
    let ghost m = definitions@;
    let ghost k = declaration@;
    let ghost d = definition@;
    let ghost all = defs_6::<T0, T1, T2, T3, T4, T5>(k, d);
    let ghost good = settled(m, all) && consistent_6::<T0, T1, T2, T3, T4, T5>(k);
    let found = match definitions.get(&declaration) {
        Some(existing) => Some(same_definition(existing, &definition)),
        None => None,
    };
    match found {
        Some(true) => {
            proof {
                if good {
                    lemma_absorb_6::<T0, T1, T2, T3, T4, T5>(m, k, d);
                    assert(m.union_prefer_right(all) =~= m);
                }
            }
            Ok(())
        },
        Some(false) => {
            proof {
                if good {
                    lemma_parts_6::<T0, T1, T2, T3, T4, T5>(k, d);
                    assert(all.contains_key(k) && m.contains_key(k));
                }
            }
            Err(SchemaError::SchemaConflict)
        },
        None => {
            definitions.insert(declaration, definition);
            proof {
                if good {
                    lemma_parts_6::<T0, T1, T2, T3, T4, T5>(k, d);
                    T0::lemma_described(); T1::lemma_described(); T2::lemma_described(); T3::lemma_described(); T4::lemma_described(); T5::lemma_described();
                    lemma_settled_part(m, all, T0::spec_definitions());
                    lemma_settled_insert(m, T0::spec_definitions(), k, d);
                    lemma_settled_part(m, all, T1::spec_definitions());
                    lemma_settled_insert(m, T1::spec_definitions(), k, d);
                    lemma_settled_part(m, all, T2::spec_definitions());
                    lemma_settled_insert(m, T2::spec_definitions(), k, d);
                    lemma_settled_part(m, all, T3::spec_definitions());
                    lemma_settled_insert(m, T3::spec_definitions(), k, d);
                    lemma_settled_part(m, all, T4::spec_definitions());
                    lemma_settled_insert(m, T4::spec_definitions(), k, d);
                    lemma_settled_part(m, all, T5::spec_definitions());
                    lemma_settled_insert(m, T5::spec_definitions(), k, d);
                }
            }
            let ghost before0 = definitions@;
            let r0 = T0::add_definitions_recursively(definitions);
            if r0.is_err() {
                return r0;
            }
            proof {
                if good {
                    lemma_settled_merge(before0, T0::spec_definitions(), T1::spec_definitions());
                    lemma_settled_merge(before0, T0::spec_definitions(), T2::spec_definitions());
                    lemma_settled_merge(before0, T0::spec_definitions(), T3::spec_definitions());
                    lemma_settled_merge(before0, T0::spec_definitions(), T4::spec_definitions());
                    lemma_settled_merge(before0, T0::spec_definitions(), T5::spec_definitions());
                }
            }
            let ghost before1 = definitions@;
            let r1 = T1::add_definitions_recursively(definitions);
            if r1.is_err() {
                return r1;
            }
            proof {
                if good {
                    lemma_settled_merge(before1, T1::spec_definitions(), T2::spec_definitions());
                    lemma_settled_merge(before1, T1::spec_definitions(), T3::spec_definitions());
                    lemma_settled_merge(before1, T1::spec_definitions(), T4::spec_definitions());
                    lemma_settled_merge(before1, T1::spec_definitions(), T5::spec_definitions());
                }
            }
            let ghost before2 = definitions@;
            let r2 = T2::add_definitions_recursively(definitions);
            if r2.is_err() {
                return r2;
            }
            proof {
                if good {
                    lemma_settled_merge(before2, T2::spec_definitions(), T3::spec_definitions());
                    lemma_settled_merge(before2, T2::spec_definitions(), T4::spec_definitions());
                    lemma_settled_merge(before2, T2::spec_definitions(), T5::spec_definitions());
                }
            }
            let ghost before3 = definitions@;
            let r3 = T3::add_definitions_recursively(definitions);
            if r3.is_err() {
                return r3;
            }
            proof {
                if good {
                    lemma_settled_merge(before3, T3::spec_definitions(), T4::spec_definitions());
                    lemma_settled_merge(before3, T3::spec_definitions(), T5::spec_definitions());
                }
            }
            let ghost before4 = definitions@;
            let r4 = T4::add_definitions_recursively(definitions);
            if r4.is_err() {
                return r4;
            }
            proof {
                if good {
                    lemma_settled_merge(before4, T4::spec_definitions(), T5::spec_definitions());
                }
            }
            let ghost before5 = definitions@;
            let r5 = T5::add_definitions_recursively(definitions);
            proof {
                if good {
                    assert(m.insert(k, d).union_prefer_right(T0::spec_definitions()).union_prefer_right(T1::spec_definitions()).union_prefer_right(T2::spec_definitions()).union_prefer_right(T3::spec_definitions()).union_prefer_right(T4::spec_definitions()).union_prefer_right(T5::spec_definitions()) =~= m.union_prefer_right(all));
                }
            }
            r5
        },
    }
}

/// The definitions of a type whose own entry `d` under `k` is built from T0, T1, T2, T3, T4, T5, T6.
pub open spec fn defs_7<T0: BorshSchema, T1: BorshSchema, T2: BorshSchema, T3: BorshSchema, T4: BorshSchema, T5: BorshSchema, T6: BorshSchema>(k: Seq<char>, d: DefinitionView) -> Map<Seq<char>, DefinitionView> {
    single(k, d).union_prefer_right(T0::spec_definitions()).union_prefer_right(T1::spec_definitions()).union_prefer_right(T2::spec_definitions()).union_prefer_right(T3::spec_definitions()).union_prefer_right(T4::spec_definitions()).union_prefer_right(T5::spec_definitions()).union_prefer_right(T6::spec_definitions())
}

/// The types T0, T1, T2, T3, T4, T5, T6 are consistent and agree with each other, and none of them defines `k`.
pub open spec fn consistent_7<T0: BorshSchema, T1: BorshSchema, T2: BorshSchema, T3: BorshSchema, T4: BorshSchema, T5: BorshSchema, T6: BorshSchema>(k: Seq<char>) -> bool {
    T0::spec_consistent() && T1::spec_consistent() && T2::spec_consistent() && T3::spec_consistent() && T4::spec_consistent() && T5::spec_consistent() && T6::spec_consistent() && !T0::spec_definitions().contains_key(k) && !T1::spec_definitions().contains_key(k) && !T2::spec_definitions().contains_key(k) && !T3::spec_definitions().contains_key(k) && !T4::spec_definitions().contains_key(k) && !T5::spec_definitions().contains_key(k) && !T6::spec_definitions().contains_key(k) && compatible(T0::spec_definitions(), T1::spec_definitions()) && compatible(T0::spec_definitions(), T2::spec_definitions()) && compatible(T0::spec_definitions(), T3::spec_definitions()) && compatible(T0::spec_definitions(), T4::spec_definitions()) && compatible(T0::spec_definitions(), T5::spec_definitions()) && compatible(T0::spec_definitions(), T6::spec_definitions()) && compatible(T1::spec_definitions(), T2::spec_definitions()) && compatible(T1::spec_definitions(), T3::spec_definitions()) && compatible(T1::spec_definitions(), T4::spec_definitions()) && compatible(T1::spec_definitions(), T5::spec_definitions()) && compatible(T1::spec_definitions(), T6::spec_definitions()) && compatible(T2::spec_definitions(), T3::spec_definitions()) && compatible(T2::spec_definitions(), T4::spec_definitions()) && compatible(T2::spec_definitions(), T5::spec_definitions()) && compatible(T2::spec_definitions(), T6::spec_definitions()) && compatible(T3::spec_definitions(), T4::spec_definitions()) && compatible(T3::spec_definitions(), T5::spec_definitions()) && compatible(T3::spec_definitions(), T6::spec_definitions()) && compatible(T4::spec_definitions(), T5::spec_definitions()) && compatible(T4::spec_definitions(), T6::spec_definitions()) && compatible(T5::spec_definitions(), T6::spec_definitions())
}

proof fn lemma_parts_7<T0: BorshSchema, T1: BorshSchema, T2: BorshSchema, T3: BorshSchema, T4: BorshSchema, T5: BorshSchema, T6: BorshSchema>(k: Seq<char>, d: DefinitionView)
    requires
        consistent_7::<T0, T1, T2, T3, T4, T5, T6>(k),
    ensures
        T0::spec_definitions().submap_of(defs_7::<T0, T1, T2, T3, T4, T5, T6>(k, d)),
        T1::spec_definitions().submap_of(defs_7::<T0, T1, T2, T3, T4, T5, T6>(k, d)),
        T2::spec_definitions().submap_of(defs_7::<T0, T1, T2, T3, T4, T5, T6>(k, d)),
        T3::spec_definitions().submap_of(defs_7::<T0, T1, T2, T3, T4, T5, T6>(k, d)),
        T4::spec_definitions().submap_of(defs_7::<T0, T1, T2, T3, T4, T5, T6>(k, d)),
        T5::spec_definitions().submap_of(defs_7::<T0, T1, T2, T3, T4, T5, T6>(k, d)),
        T6::spec_definitions().submap_of(defs_7::<T0, T1, T2, T3, T4, T5, T6>(k, d)),
        defs_7::<T0, T1, T2, T3, T4, T5, T6>(k, d).contains_key(k),
        defs_7::<T0, T1, T2, T3, T4, T5, T6>(k, d)[k] == d,
{
    assert forall|x: Seq<char>| #[trigger] T0::spec_definitions().contains_key(x) implies defs_7::<T0, T1, T2, T3, T4, T5, T6>(k, d).contains_key(x)
        && defs_7::<T0, T1, T2, T3, T4, T5, T6>(k, d)[x] == T0::spec_definitions()[x] by {
            if T1::spec_definitions().contains_key(x) {
                assert(T1::spec_definitions()[x] == T0::spec_definitions()[x]);
            }
            if T2::spec_definitions().contains_key(x) {
                assert(T2::spec_definitions()[x] == T0::spec_definitions()[x]);
            }
            if T3::spec_definitions().contains_key(x) {
                assert(T3::spec_definitions()[x] == T0::spec_definitions()[x]);
            }
            if T4::spec_definitions().contains_key(x) {
                assert(T4::spec_definitions()[x] == T0::spec_definitions()[x]);
            }
            if T5::spec_definitions().contains_key(x) {
                assert(T5::spec_definitions()[x] == T0::spec_definitions()[x]);
            }
            if T6::spec_definitions().contains_key(x) {
                assert(T6::spec_definitions()[x] == T0::spec_definitions()[x]);
            }
    }
    assert forall|x: Seq<char>| #[trigger] T1::spec_definitions().contains_key(x) implies defs_7::<T0, T1, T2, T3, T4, T5, T6>(k, d).contains_key(x)
        && defs_7::<T0, T1, T2, T3, T4, T5, T6>(k, d)[x] == T1::spec_definitions()[x] by {
            if T2::spec_definitions().contains_key(x) {
                assert(T2::spec_definitions()[x] == T1::spec_definitions()[x]);
            }
            if T3::spec_definitions().contains_key(x) {
                assert(T3::spec_definitions()[x] == T1::spec_definitions()[x]);
            }
            if T4::spec_definitions().contains_key(x) {
                assert(T4::spec_definitions()[x] == T1::spec_definitions()[x]);
            }
            if T5::spec_definitions().contains_key(x) {
                assert(T5::spec_definitions()[x] == T1::spec_definitions()[x]);
            }
            if T6::spec_definitions().contains_key(x) {
                assert(T6::spec_definitions()[x] == T1::spec_definitions()[x]);
            }
    }
    assert forall|x: Seq<char>| #[trigger] T2::spec_definitions().contains_key(x) implies defs_7::<T0, T1, T2, T3, T4, T5, T6>(k, d).contains_key(x)
        && defs_7::<T0, T1, T2, T3, T4, T5, T6>(k, d)[x] == T2::spec_definitions()[x] by {
            if T3::spec_definitions().contains_key(x) {
                assert(T3::spec_definitions()[x] == T2::spec_definitions()[x]);
            }
            if T4::spec_definitions().contains_key(x) {
                assert(T4::spec_definitions()[x] == T2::spec_definitions()[x]);
            }
            if T5::spec_definitions().contains_key(x) {
                assert(T5::spec_definitions()[x] == T2::spec_definitions()[x]);
            }
            if T6::spec_definitions().contains_key(x) {
                assert(T6::spec_definitions()[x] == T2::spec_definitions()[x]);
            }
    }
    assert forall|x: Seq<char>| #[trigger] T3::spec_definitions().contains_key(x) implies defs_7::<T0, T1, T2, T3, T4, T5, T6>(k, d).contains_key(x)
        && defs_7::<T0, T1, T2, T3, T4, T5, T6>(k, d)[x] == T3::spec_definitions()[x] by {
            if T4::spec_definitions().contains_key(x) {
                assert(T4::spec_definitions()[x] == T3::spec_definitions()[x]);
            }
            if T5::spec_definitions().contains_key(x) {
                assert(T5::spec_definitions()[x] == T3::spec_definitions()[x]);
            }
            if T6::spec_definitions().contains_key(x) {
                assert(T6::spec_definitions()[x] == T3::spec_definitions()[x]);
            }
    }
    assert forall|x: Seq<char>| #[trigger] T4::spec_definitions().contains_key(x) implies defs_7::<T0, T1, T2, T3, T4, T5, T6>(k, d).contains_key(x)
        && defs_7::<T0, T1, T2, T3, T4, T5, T6>(k, d)[x] == T4::spec_definitions()[x] by {
            if T5::spec_definitions().contains_key(x) {
                assert(T5::spec_definitions()[x] == T4::spec_definitions()[x]);
            }
            if T6::spec_definitions().contains_key(x) {
                assert(T6::spec_definitions()[x] == T4::spec_definitions()[x]);
            }
    }
    assert forall|x: Seq<char>| #[trigger] T5::spec_definitions().contains_key(x) implies defs_7::<T0, T1, T2, T3, T4, T5, T6>(k, d).contains_key(x)
        && defs_7::<T0, T1, T2, T3, T4, T5, T6>(k, d)[x] == T5::spec_definitions()[x] by {
            if T6::spec_definitions().contains_key(x) {
                assert(T6::spec_definitions()[x] == T5::spec_definitions()[x]);
            }
    }
    assert forall|x: Seq<char>| #[trigger] T6::spec_definitions().contains_key(x) implies defs_7::<T0, T1, T2, T3, T4, T5, T6>(k, d).contains_key(x)
        && defs_7::<T0, T1, T2, T3, T4, T5, T6>(k, d)[x] == T6::spec_definitions()[x] by {
    }
}

/// What a type whose own entry `d` under `k` is built from T0, T1, T2, T3, T4, T5, T6 states of its definitions.
pub proof fn lemma_describe_7<T0: BorshSchema, T1: BorshSchema, T2: BorshSchema, T3: BorshSchema, T4: BorshSchema, T5: BorshSchema, T6: BorshSchema>(k: Seq<char>, d: DefinitionView)
    requires
        !primitive_declaration(k),
        forall|x: Seq<char>| #[trigger] refers_to(d, x) ==> x == T0::spec_declaration() || x == T1::spec_declaration() || x == T2::spec_declaration() || x == T3::spec_declaration() || x == T4::spec_declaration() || x == T5::spec_declaration() || x == T6::spec_declaration() || primitive_declaration(x),
    ensures
        closed(defs_7::<T0, T1, T2, T3, T4, T5, T6>(k, d)),
        no_primitive_keys(defs_7::<T0, T1, T2, T3, T4, T5, T6>(k, d)),
        defs_7::<T0, T1, T2, T3, T4, T5, T6>(k, d).contains_key(k),
        consistent_7::<T0, T1, T2, T3, T4, T5, T6>(k) ==> defs_7::<T0, T1, T2, T3, T4, T5, T6>(k, d)[k] == d,
{
    T0::lemma_described(); T1::lemma_described(); T2::lemma_described(); T3::lemma_described(); T4::lemma_described(); T5::lemma_described(); T6::lemma_described();
    lemma_closed_union(T0::spec_definitions(), T1::spec_definitions());
    lemma_closed_union(T0::spec_definitions().union_prefer_right(T1::spec_definitions()), T2::spec_definitions());
    lemma_closed_union(T0::spec_definitions().union_prefer_right(T1::spec_definitions()).union_prefer_right(T2::spec_definitions()), T3::spec_definitions());
    lemma_closed_union(T0::spec_definitions().union_prefer_right(T1::spec_definitions()).union_prefer_right(T2::spec_definitions()).union_prefer_right(T3::spec_definitions()), T4::spec_definitions());
    lemma_closed_union(T0::spec_definitions().union_prefer_right(T1::spec_definitions()).union_prefer_right(T2::spec_definitions()).union_prefer_right(T3::spec_definitions()).union_prefer_right(T4::spec_definitions()), T5::spec_definitions());
    lemma_closed_union(T0::spec_definitions().union_prefer_right(T1::spec_definitions()).union_prefer_right(T2::spec_definitions()).union_prefer_right(T3::spec_definitions()).union_prefer_right(T4::spec_definitions()).union_prefer_right(T5::spec_definitions()), T6::spec_definitions());
    let parts = T0::spec_definitions().union_prefer_right(T1::spec_definitions()).union_prefer_right(T2::spec_definitions()).union_prefer_right(T3::spec_definitions()).union_prefer_right(T4::spec_definitions()).union_prefer_right(T5::spec_definitions()).union_prefer_right(T6::spec_definitions());
    assert forall|x: Seq<char>| #[trigger] refers_to(d, x) implies parts.contains_key(x)
        || primitive_declaration(x) by {
        if x == T0::spec_declaration() && T0::spec_own() is Some {
            assert(T0::spec_definitions().contains_key(x));
        }
        if x == T1::spec_declaration() && T1::spec_own() is Some {
            assert(T1::spec_definitions().contains_key(x));
        }
        if x == T2::spec_declaration() && T2::spec_own() is Some {
            assert(T2::spec_definitions().contains_key(x));
        }
        if x == T3::spec_declaration() && T3::spec_own() is Some {
            assert(T3::spec_definitions().contains_key(x));
        }
        if x == T4::spec_declaration() && T4::spec_own() is Some {
            assert(T4::spec_definitions().contains_key(x));
        }
        if x == T5::spec_declaration() && T5::spec_own() is Some {
            assert(T5::spec_definitions().contains_key(x));
        }
        if x == T6::spec_declaration() && T6::spec_own() is Some {
            assert(T6::spec_definitions().contains_key(x));
        }
    }
    lemma_closed_add(k, d, parts);
    assert(single(k, d).union_prefer_right(parts) =~= defs_7::<T0, T1, T2, T3, T4, T5, T6>(k, d));
    if consistent_7::<T0, T1, T2, T3, T4, T5, T6>(k) {
        lemma_parts_7::<T0, T1, T2, T3, T4, T5, T6>(k, d);
    }
}

/// A map that holds `k`, and in which the entries of the set are expanded, holds the whole
/// set of a type whose own entry `d` under `k` is built from T0, T1, T2, T3, T4, T5, T6.
pub proof fn lemma_absorb_7<T0: BorshSchema, T1: BorshSchema, T2: BorshSchema, T3: BorshSchema, T4: BorshSchema, T5: BorshSchema, T6: BorshSchema>(m: Map<Seq<char>, DefinitionView>, k: Seq<char>, d: DefinitionView)
    requires
        settled(m, defs_7::<T0, T1, T2, T3, T4, T5, T6>(k, d)),
        consistent_7::<T0, T1, T2, T3, T4, T5, T6>(k),
        m.contains_key(k),
        refers_to(d, T0::spec_declaration()),
        refers_to(d, T1::spec_declaration()),
        refers_to(d, T2::spec_declaration()),
        refers_to(d, T3::spec_declaration()),
        refers_to(d, T4::spec_declaration()),
        refers_to(d, T5::spec_declaration()),
        refers_to(d, T6::spec_declaration()),
    ensures
        defs_7::<T0, T1, T2, T3, T4, T5, T6>(k, d).submap_of(m),
{
    lemma_parts_7::<T0, T1, T2, T3, T4, T5, T6>(k, d);
    T0::lemma_described(); T1::lemma_described(); T2::lemma_described(); T3::lemma_described(); T4::lemma_described(); T5::lemma_described(); T6::lemma_described();
    lemma_settled_part(m, defs_7::<T0, T1, T2, T3, T4, T5, T6>(k, d), T0::spec_definitions());
    if T0::spec_own() is Some {
        assert(refers_to(m[k], T0::spec_declaration()));
    }
    T0::lemma_absorbed(m);
    lemma_settled_part(m, defs_7::<T0, T1, T2, T3, T4, T5, T6>(k, d), T1::spec_definitions());
    if T1::spec_own() is Some {
        assert(refers_to(m[k], T1::spec_declaration()));
    }
    T1::lemma_absorbed(m);
    lemma_settled_part(m, defs_7::<T0, T1, T2, T3, T4, T5, T6>(k, d), T2::spec_definitions());
    if T2::spec_own() is Some {
        assert(refers_to(m[k], T2::spec_declaration()));
    }
    T2::lemma_absorbed(m);
    lemma_settled_part(m, defs_7::<T0, T1, T2, T3, T4, T5, T6>(k, d), T3::spec_definitions());
    if T3::spec_own() is Some {
        assert(refers_to(m[k], T3::spec_declaration()));
    }
    T3::lemma_absorbed(m);
    lemma_settled_part(m, defs_7::<T0, T1, T2, T3, T4, T5, T6>(k, d), T4::spec_definitions());
    if T4::spec_own() is Some {
        assert(refers_to(m[k], T4::spec_declaration()));
    }
    T4::lemma_absorbed(m);
    lemma_settled_part(m, defs_7::<T0, T1, T2, T3, T4, T5, T6>(k, d), T5::spec_definitions());
    if T5::spec_own() is Some {
        assert(refers_to(m[k], T5::spec_declaration()));
    }
    T5::lemma_absorbed(m);
    lemma_settled_part(m, defs_7::<T0, T1, T2, T3, T4, T5, T6>(k, d), T6::spec_definitions());
    if T6::spec_own() is Some {
        assert(refers_to(m[k], T6::spec_declaration()));
    }
    T6::lemma_absorbed(m);
    assert forall|x: Seq<char>| #[trigger] defs_7::<T0, T1, T2, T3, T4, T5, T6>(k, d).contains_key(x) implies m.contains_key(x)
        && m[x] == defs_7::<T0, T1, T2, T3, T4, T5, T6>(k, d)[x] by {
        if T0::spec_definitions().contains_key(x) {
            assert(T0::spec_definitions().submap_of(m));
        }
        if T1::spec_definitions().contains_key(x) {
            assert(T1::spec_definitions().submap_of(m));
        }
        if T2::spec_definitions().contains_key(x) {
            assert(T2::spec_definitions().submap_of(m));
        }
        if T3::spec_definitions().contains_key(x) {
            assert(T3::spec_definitions().submap_of(m));
        }
        if T4::spec_definitions().contains_key(x) {
            assert(T4::spec_definitions().submap_of(m));
        }
        if T5::spec_definitions().contains_key(x) {
            assert(T5::spec_definitions().submap_of(m));
        }
        if T6::spec_definitions().contains_key(x) {
            assert(T6::spec_definitions().submap_of(m));
        }
        if x == k {
            assert(m.contains_key(k));
        }
        assert(m.contains_key(x));
        assert(defs_7::<T0, T1, T2, T3, T4, T5, T6>(k, d).contains_key(x));
    }
}

/// The walk of a type whose own entry `definition` under `declaration` is built from T0, T1, T2, T3, T4, T5, T6:
/// stop at an equal entry already there, fail at a different one, and otherwise add the
/// entry and walk each constituent in order.
pub fn walk_7<T0: BorshSchema, T1: BorshSchema, T2: BorshSchema, T3: BorshSchema, T4: BorshSchema, T5: BorshSchema, T6: BorshSchema>(
    declaration: Declaration,
    definition: Definition,
    definitions: &mut Definitions,
) -> (r: Result<(), SchemaError>)
    requires
        old(definitions).wf(),
        refers_to(definition@, T0::spec_declaration()),
        refers_to(definition@, T1::spec_declaration()),
        refers_to(definition@, T2::spec_declaration()),
        refers_to(definition@, T3::spec_declaration()),
        refers_to(definition@, T4::spec_declaration()),
        refers_to(definition@, T5::spec_declaration()),
        refers_to(definition@, T6::spec_declaration()),
    ensures
        final(definitions).wf(),
        (old(definitions)@.contains_key(declaration@) && old(definitions)@[declaration@]
            == definition@) ==> (r is Ok && final(definitions)@ == old(definitions)@),
        (old(definitions)@.contains_key(declaration@) && old(definitions)@[declaration@]
            != definition@) ==> (r == Err::<(), SchemaError>(SchemaError::SchemaConflict)),
        (settled(old(definitions)@, defs_7::<T0, T1, T2, T3, T4, T5, T6>(declaration@, definition@))
            && consistent_7::<T0, T1, T2, T3, T4, T5, T6>(declaration@)) ==> (r is Ok && final(definitions)@
            == old(definitions)@.union_prefer_right(defs_7::<T0, T1, T2, T3, T4, T5, T6>(declaration@, definition@))),
        r is Err ==> r == Err::<(), SchemaError>(SchemaError::SchemaConflict),
{
    let ghost m = definitions@;
    let ghost k = declaration@;
    let ghost d = definition@;
    let ghost all = defs_7::<T0, T1, T2, T3, T4, T5, T6>(k, d);
    let ghost good = settled(m, all) && consistent_7::<T0, T1, T2, T3, T4, T5, T6>(k);
    let found = match definitions.get(&declaration) {
        Some(existing) => Some(same_definition(existing, &definition)),
        None => None,
    };
    match found {
        Some(true) => {
            proof {
                if good {
                    lemma_absorb_7::<T0, T1, T2, T3, T4, T5, T6>(m, k, d);
                    assert(m.union_prefer_right(all) =~= m);
                }
            }
            Ok(())
        },
        Some(false) => {
            proof {
                if good {
                    lemma_parts_7::<T0, T1, T2, T3, T4, T5, T6>(k, d);
                    assert(all.contains_key(k) && m.contains_key(k));
                }
            }
            Err(SchemaError::SchemaConflict)
        },
        None => {
            definitions.insert(declaration, definition);
            proof {
                if good {
                    lemma_parts_7::<T0, T1, T2, T3, T4, T5, T6>(k, d);
                    T0::lemma_described(); T1::lemma_described(); T2::lemma_described(); T3::lemma_described(); T4::lemma_described(); T5::lemma_described(); T6::lemma_described();
                    lemma_settled_part(m, all, T0::spec_definitions());
                    lemma_settled_insert(m, T0::spec_definitions(), k, d);
                    lemma_settled_part(m, all, T1::spec_definitions());
                    lemma_settled_insert(m, T1::spec_definitions(), k, d);
                    lemma_settled_part(m, all, T2::spec_definitions());
                    lemma_settled_insert(m, T2::spec_definitions(), k, d);
                    lemma_settled_part(m, all, T3::spec_definitions());
                    lemma_settled_insert(m, T3::spec_definitions(), k, d);
                    lemma_settled_part(m, all, T4::spec_definitions());
                    lemma_settled_insert(m, T4::spec_definitions(), k, d);
                    lemma_settled_part(m, all, T5::spec_definitions());
                    lemma_settled_insert(m, T5::spec_definitions(), k, d);
                    lemma_settled_part(m, all, T6::spec_definitions());
                    lemma_settled_insert(m, T6::spec_definitions(), k, d);
                }
            }
            let ghost before0 = definitions@;
            let r0 = T0::add_definitions_recursively(definitions);
            if r0.is_err() {
                return r0;
            }
            proof {
                if good {
                    lemma_settled_merge(before0, T0::spec_definitions(), T1::spec_definitions());
                    lemma_settled_merge(before0, T0::spec_definitions(), T2::spec_definitions());
                    lemma_settled_merge(before0, T0::spec_definitions(), T3::spec_definitions());
                    lemma_settled_merge(before0, T0::spec_definitions(), T4::spec_definitions());
                    lemma_settled_merge(before0, T0::spec_definitions(), T5::spec_definitions());
                    lemma_settled_merge(before0, T0::spec_definitions(), T6::spec_definitions());
                }
            }
            let ghost before1 = definitions@;
            let r1 = T1::add_definitions_recursively(definitions);
            if r1.is_err() {
                return r1;
            }
            proof {
                if good {
                    lemma_settled_merge(before1, T1::spec_definitions(), T2::spec_definitions());
                    lemma_settled_merge(before1, T1::spec_definitions(), T3::spec_definitions());
                    lemma_settled_merge(before1, T1::spec_definitions(), T4::spec_definitions());
                    lemma_settled_merge(before1, T1::spec_definitions(), T5::spec_definitions());
                    lemma_settled_merge(before1, T1::spec_definitions(), T6::spec_definitions());
                }
            }
            let ghost before2 = definitions@;
            let r2 = T2::add_definitions_recursively(definitions);
            if r2.is_err() {
                return r2;
            }
            proof {
                if good {
                    lemma_settled_merge(before2, T2::spec_definitions(), T3::spec_definitions());
                    lemma_settled_merge(before2, T2::spec_definitions(), T4::spec_definitions());
                    lemma_settled_merge(before2, T2::spec_definitions(), T5::spec_definitions());
                    lemma_settled_merge(before2, T2::spec_definitions(), T6::spec_definitions());
                }
            }
            let ghost before3 = definitions@;
            let r3 = T3::add_definitions_recursively(definitions);
            if r3.is_err() {
                return r3;
            }
            proof {
                if good {
                    lemma_settled_merge(before3, T3::spec_definitions(), T4::spec_definitions());
                    lemma_settled_merge(before3, T3::spec_definitions(), T5::spec_definitions());
                    lemma_settled_merge(before3, T3::spec_definitions(), T6::spec_definitions());
                }
            }
            let ghost before4 = definitions@;
            let r4 = T4::add_definitions_recursively(definitions);
            if r4.is_err() {
                return r4;
            }
            proof {
                if good {
                    lemma_settled_merge(before4, T4::spec_definitions(), T5::spec_definitions());
                    lemma_settled_merge(before4, T4::spec_definitions(), T6::spec_definitions());
                }
            }
            let ghost before5 = definitions@;
            let r5 = T5::add_definitions_recursively(definitions);
            if r5.is_err() {
                return r5;
            }
            proof {
                if good {
                    lemma_settled_merge(before5, T5::spec_definitions(), T6::spec_definitions());
                }
            }
            let ghost before6 = definitions@;
            let r6 = T6::add_definitions_recursively(definitions);
            proof {
                if good {
                    assert(m.insert(k, d).union_prefer_right(T0::spec_definitions()).union_prefer_right(T1::spec_definitions()).union_prefer_right(T2::spec_definitions()).union_prefer_right(T3::spec_definitions()).union_prefer_right(T4::spec_definitions()).union_prefer_right(T5::spec_definitions()).union_prefer_right(T6::spec_definitions()) =~= m.union_prefer_right(all));
                }
            }
            r6
        },
    }
}

/// The definitions of a type whose own entry `d` under `k` is built from T0, T1, T2, T3, T4, T5, T6, T7.
pub open spec fn defs_8<T0: BorshSchema, T1: BorshSchema, T2: BorshSchema, T3: BorshSchema, T4: BorshSchema, T5: BorshSchema, T6: BorshSchema, T7: BorshSchema>(k: Seq<char>, d: DefinitionView) -> Map<Seq<char>, DefinitionView> {
    single(k, d).union_prefer_right(T0::spec_definitions()).union_prefer_right(T1::spec_definitions()).union_prefer_right(T2::spec_definitions()).union_prefer_right(T3::spec_definitions()).union_prefer_right(T4::spec_definitions()).union_prefer_right(T5::spec_definitions()).union_prefer_right(T6::spec_definitions()).union_prefer_right(T7::spec_definitions())
}

/// The types T0, T1, T2, T3, T4, T5, T6, T7 are consistent and agree with each other, and none of them defines `k`.
pub open spec fn consistent_8<T0: BorshSchema, T1: BorshSchema, T2: BorshSchema, T3: BorshSchema, T4: BorshSchema, T5: BorshSchema, T6: BorshSchema, T7: BorshSchema>(k: Seq<char>) -> bool {
    T0::spec_consistent() && T1::spec_consistent() && T2::spec_consistent() && T3::spec_consistent() && T4::spec_consistent() && T5::spec_consistent() && T6::spec_consistent() && T7::spec_consistent() && !T0::spec_definitions().contains_key(k) && !T1::spec_definitions().contains_key(k) && !T2::spec_definitions().contains_key(k) && !T3::spec_definitions().contains_key(k) && !T4::spec_definitions().contains_key(k) && !T5::spec_definitions().contains_key(k) && !T6::spec_definitions().contains_key(k) && !T7::spec_definitions().contains_key(k) && compatible(T0::spec_definitions(), T1::spec_definitions()) && compatible(T0::spec_definitions(), T2::spec_definitions()) && compatible(T0::spec_definitions(), T3::spec_definitions()) && compatible(T0::spec_definitions(), T4::spec_definitions()) && compatible(T0::spec_definitions(), T5::spec_definitions()) && compatible(T0::spec_definitions(), T6::spec_definitions()) && compatible(T0::spec_definitions(), T7::spec_definitions()) && compatible(T1::spec_definitions(), T2::spec_definitions()) && compatible(T1::spec_definitions(), T3::spec_definitions()) && compatible(T1::spec_definitions(), T4::spec_definitions()) && compatible(T1::spec_definitions(), T5::spec_definitions()) && compatible(T1::spec_definitions(), T6::spec_definitions()) && compatible(T1::spec_definitions(), T7::spec_definitions()) && compatible(T2::spec_definitions(), T3::spec_definitions()) && compatible(T2::spec_definitions(), T4::spec_definitions()) && compatible(T2::spec_definitions(), T5::spec_definitions()) && compatible(T2::spec_definitions(), T6::spec_definitions()) && compatible(T2::spec_definitions(), T7::spec_definitions()) && compatible(T3::spec_definitions(), T4::spec_definitions()) && compatible(T3::spec_definitions(), T5::spec_definitions()) && compatible(T3::spec_definitions(), T6::spec_definitions()) && compatible(T3::spec_definitions(), T7::spec_definitions()) && compatible(T4::spec_definitions(), T5::spec_definitions()) && compatible(T4::spec_definitions(), T6::spec_definitions()) && compatible(T4::spec_definitions(), T7::spec_definitions()) && compatible(T5::spec_definitions(), T6::spec_definitions()) && compatible(T5::spec_definitions(), T7::spec_definitions()) && compatible(T6::spec_definitions(), T7::spec_definitions())
}

proof fn lemma_parts_8<T0: BorshSchema, T1: BorshSchema, T2: BorshSchema, T3: BorshSchema, T4: BorshSchema, T5: BorshSchema, T6: BorshSchema, T7: BorshSchema>(k: Seq<char>, d: DefinitionView)
    requires
        consistent_8::<T0, T1, T2, T3, T4, T5, T6, T7>(k),
    ensures
        T0::spec_definitions().submap_of(defs_8::<T0, T1, T2, T3, T4, T5, T6, T7>(k, d)),
        T1::spec_definitions().submap_of(defs_8::<T0, T1, T2, T3, T4, T5, T6, T7>(k, d)),
        T2::spec_definitions().submap_of(defs_8::<T0, T1, T2, T3, T4, T5, T6, T7>(k, d)),
        T3::spec_definitions().submap_of(defs_8::<T0, T1, T2, T3, T4, T5, T6, T7>(k, d)),
        T4::spec_definitions().submap_of(defs_8::<T0, T1, T2, T3, T4, T5, T6, T7>(k, d)),
        T5::spec_definitions().submap_of(defs_8::<T0, T1, T2, T3, T4, T5, T6, T7>(k, d)),
        T6::spec_definitions().submap_of(defs_8::<T0, T1, T2, T3, T4, T5, T6, T7>(k, d)),
        T7::spec_definitions().submap_of(defs_8::<T0, T1, T2, T3, T4, T5, T6, T7>(k, d)),
        defs_8::<T0, T1, T2, T3, T4, T5, T6, T7>(k, d).contains_key(k),
        defs_8::<T0, T1, T2, T3, T4, T5, T6, T7>(k, d)[k] == d,
{
    assert forall|x: Seq<char>| #[trigger] T0::spec_definitions().contains_key(x) implies defs_8::<T0, T1, T2, T3, T4, T5, T6, T7>(k, d).contains_key(x)
        && defs_8::<T0, T1, T2, T3, T4, T5, T6, T7>(k, d)[x] == T0::spec_definitions()[x] by {
            if T1::spec_definitions().contains_key(x) {
                assert(T1::spec_definitions()[x] == T0::spec_definitions()[x]);
            }
            if T2::spec_definitions().contains_key(x) {
                assert(T2::spec_definitions()[x] == T0::spec_definitions()[x]);
            }
            if T3::spec_definitions().contains_key(x) {
                assert(T3::spec_definitions()[x] == T0::spec_definitions()[x]);
            }
            if T4::spec_definitions().contains_key(x) {
                assert(T4::spec_definitions()[x] == T0::spec_definitions()[x]);
            }
            if T5::spec_definitions().contains_key(x) {
                assert(T5::spec_definitions()[x] == T0::spec_definitions()[x]);
            }
            if T6::spec_definitions().contains_key(x) {
                assert(T6::spec_definitions()[x] == T0::spec_definitions()[x]);
            }
            if T7::spec_definitions().contains_key(x) {
                assert(T7::spec_definitions()[x] == T0::spec_definitions()[x]);
            }
    }
    assert forall|x: Seq<char>| #[trigger] T1::spec_definitions().contains_key(x) implies defs_8::<T0, T1, T2, T3, T4, T5, T6, T7>(k, d).contains_key(x)
        && defs_8::<T0, T1, T2, T3, T4, T5, T6, T7>(k, d)[x] == T1::spec_definitions()[x] by {
            if T2::spec_definitions().contains_key(x) {
                assert(T2::spec_definitions()[x] == T1::spec_definitions()[x]);
            }
            if T3::spec_definitions().contains_key(x) {
                assert(T3::spec_definitions()[x] == T1::spec_definitions()[x]);
            }
            if T4::spec_definitions().contains_key(x) {
                assert(T4::spec_definitions()[x] == T1::spec_definitions()[x]);
            }
            if T5::spec_definitions().contains_key(x) {
                assert(T5::spec_definitions()[x] == T1::spec_definitions()[x]);
            }
            if T6::spec_definitions().contains_key(x) {
                assert(T6::spec_definitions()[x] == T1::spec_definitions()[x]);
            }
            if T7::spec_definitions().contains_key(x) {
                assert(T7::spec_definitions()[x] == T1::spec_definitions()[x]);
            }
    }
    assert forall|x: Seq<char>| #[trigger] T2::spec_definitions().contains_key(x) implies defs_8::<T0, T1, T2, T3, T4, T5, T6, T7>(k, d).contains_key(x)
        && defs_8::<T0, T1, T2, T3, T4, T5, T6, T7>(k, d)[x] == T2::spec_definitions()[x] by {
            if T3::spec_definitions().contains_key(x) {
                assert(T3::spec_definitions()[x] == T2::spec_definitions()[x]);
            }
            if T4::spec_definitions().contains_key(x) {
                assert(T4::spec_definitions()[x] == T2::spec_definitions()[x]);
            }
            if T5::spec_definitions().contains_key(x) {
                assert(T5::spec_definitions()[x] == T2::spec_definitions()[x]);
            }
            if T6::spec_definitions().contains_key(x) {
                assert(T6::spec_definitions()[x] == T2::spec_definitions()[x]);
            }
            if T7::spec_definitions().contains_key(x) {
                assert(T7::spec_definitions()[x] == T2::spec_definitions()[x]);
            }
    }
    assert forall|x: Seq<char>| #[trigger] T3::spec_definitions().contains_key(x) implies defs_8::<T0, T1, T2, T3, T4, T5, T6, T7>(k, d).contains_key(x)
        && defs_8::<T0, T1, T2, T3, T4, T5, T6, T7>(k, d)[x] == T3::spec_definitions()[x] by {
            if T4::spec_definitions().contains_key(x) {
                assert(T4::spec_definitions()[x] == T3::spec_definitions()[x]);
            }
            if T5::spec_definitions().contains_key(x) {
                assert(T5::spec_definitions()[x] == T3::spec_definitions()[x]);
            }
            if T6::spec_definitions().contains_key(x) {
                assert(T6::spec_definitions()[x] == T3::spec_definitions()[x]);
            }
            if T7::spec_definitions().contains_key(x) {
                assert(T7::spec_definitions()[x] == T3::spec_definitions()[x]);
            }
    }
    assert forall|x: Seq<char>| #[trigger] T4::spec_definitions().contains_key(x) implies defs_8::<T0, T1, T2, T3, T4, T5, T6, T7>(k, d).contains_key(x)
        && defs_8::<T0, T1, T2, T3, T4, T5, T6, T7>(k, d)[x] == T4::spec_definitions()[x] by {
            if T5::spec_definitions().contains_key(x) {
                assert(T5::spec_definitions()[x] == T4::spec_definitions()[x]);
            }
            if T6::spec_definitions().contains_key(x) {
                assert(T6::spec_definitions()[x] == T4::spec_definitions()[x]);
            }
            if T7::spec_definitions().contains_key(x) {
                assert(T7::spec_definitions()[x] == T4::spec_definitions()[x]);
            }
    }
    assert forall|x: Seq<char>| #[trigger] T5::spec_definitions().contains_key(x) implies defs_8::<T0, T1, T2, T3, T4, T5, T6, T7>(k, d).contains_key(x)
        && defs_8::<T0, T1, T2, T3, T4, T5, T6, T7>(k, d)[x] == T5::spec_definitions()[x] by {
            if T6::spec_definitions().contains_key(x) {
                assert(T6::spec_definitions()[x] == T5::spec_definitions()[x]);
            }
            if T7::spec_definitions().contains_key(x) {
                assert(T7::spec_definitions()[x] == T5::spec_definitions()[x]);
            }
    }
    assert forall|x: Seq<char>| #[trigger] T6::spec_definitions().contains_key(x) implies defs_8::<T0, T1, T2, T3, T4, T5, T6, T7>(k, d).contains_key(x)
        && defs_8::<T0, T1, T2, T3, T4, T5, T6, T7>(k, d)[x] == T6::spec_definitions()[x] by {
            if T7::spec_definitions().contains_key(x) {
                assert(T7::spec_definitions()[x] == T6::spec_definitions()[x]);
            }
    }
    assert forall|x: Seq<char>| #[trigger] T7::spec_definitions().contains_key(x) implies defs_8::<T0, T1, T2, T3, T4, T5, T6, T7>(k, d).contains_key(x)
        && defs_8::<T0, T1, T2, T3, T4, T5, T6, T7>(k, d)[x] == T7::spec_definitions()[x] by {
    }
}

/// What a type whose own entry `d` under `k` is built from T0, T1, T2, T3, T4, T5, T6, T7 states of its definitions.
pub proof fn lemma_describe_8<T0: BorshSchema, T1: BorshSchema, T2: BorshSchema, T3: BorshSchema, T4: BorshSchema, T5: BorshSchema, T6: BorshSchema, T7: BorshSchema>(k: Seq<char>, d: DefinitionView)
    requires
        !primitive_declaration(k),
        forall|x: Seq<char>| #[trigger] refers_to(d, x) ==> x == T0::spec_declaration() || x == T1::spec_declaration() || x == T2::spec_declaration() || x == T3::spec_declaration() || x == T4::spec_declaration() || x == T5::spec_declaration() || x == T6::spec_declaration() || x == T7::spec_declaration() || primitive_declaration(x),
    ensures
        closed(defs_8::<T0, T1, T2, T3, T4, T5, T6, T7>(k, d)),
        no_primitive_keys(defs_8::<T0, T1, T2, T3, T4, T5, T6, T7>(k, d)),
        defs_8::<T0, T1, T2, T3, T4, T5, T6, T7>(k, d).contains_key(k),
        consistent_8::<T0, T1, T2, T3, T4, T5, T6, T7>(k) ==> defs_8::<T0, T1, T2, T3, T4, T5, T6, T7>(k, d)[k] == d,
{
    T0::lemma_described(); T1::lemma_described(); T2::lemma_described(); T3::lemma_described(); T4::lemma_described(); T5::lemma_described(); T6::lemma_described(); T7::lemma_described();
    lemma_closed_union(T0::spec_definitions(), T1::spec_definitions());
    lemma_closed_union(T0::spec_definitions().union_prefer_right(T1::spec_definitions()), T2::spec_definitions());
    lemma_closed_union(T0::spec_definitions().union_prefer_right(T1::spec_definitions()).union_prefer_right(T2::spec_definitions()), T3::spec_definitions());
    lemma_closed_union(T0::spec_definitions().union_prefer_right(T1::spec_definitions()).union_prefer_right(T2::spec_definitions()).union_prefer_right(T3::spec_definitions()), T4::spec_definitions());
    lemma_closed_union(T0::spec_definitions().union_prefer_right(T1::spec_definitions()).union_prefer_right(T2::spec_definitions()).union_prefer_right(T3::spec_definitions()).union_prefer_right(T4::spec_definitions()), T5::spec_definitions());
    lemma_closed_union(T0::spec_definitions().union_prefer_right(T1::spec_definitions()).union_prefer_right(T2::spec_definitions()).union_prefer_right(T3::spec_definitions()).union_prefer_right(T4::spec_definitions()).union_prefer_right(T5::spec_definitions()), T6::spec_definitions());
    lemma_closed_union(T0::spec_definitions().union_prefer_right(T1::spec_definitions()).union_prefer_right(T2::spec_definitions()).union_prefer_right(T3::spec_definitions()).union_prefer_right(T4::spec_definitions()).union_prefer_right(T5::spec_definitions()).union_prefer_right(T6::spec_definitions()), T7::spec_definitions());
    let parts = T0::spec_definitions().union_prefer_right(T1::spec_definitions()).union_prefer_right(T2::spec_definitions()).union_prefer_right(T3::spec_definitions()).union_prefer_right(T4::spec_definitions()).union_prefer_right(T5::spec_definitions()).union_prefer_right(T6::spec_definitions()).union_prefer_right(T7::spec_definitions());
    assert forall|x: Seq<char>| #[trigger] refers_to(d, x) implies parts.contains_key(x)
        || primitive_declaration(x) by {
        if x == T0::spec_declaration() && T0::spec_own() is Some {
            assert(T0::spec_definitions().contains_key(x));
        }
        if x == T1::spec_declaration() && T1::spec_own() is Some {
            assert(T1::spec_definitions().contains_key(x));
        }
        if x == T2::spec_declaration() && T2::spec_own() is Some {
            assert(T2::spec_definitions().contains_key(x));
        }
        if x == T3::spec_declaration() && T3::spec_own() is Some {
            assert(T3::spec_definitions().contains_key(x));
        }
        if x == T4::spec_declaration() && T4::spec_own() is Some {
            assert(T4::spec_definitions().contains_key(x));
        }
        if x == T5::spec_declaration() && T5::spec_own() is Some {
            assert(T5::spec_definitions().contains_key(x));
        }
        if x == T6::spec_declaration() && T6::spec_own() is Some {
            assert(T6::spec_definitions().contains_key(x));
        }
        if x == T7::spec_declaration() && T7::spec_own() is Some {
            assert(T7::spec_definitions().contains_key(x));
        }
    }
    lemma_closed_add(k, d, parts);
    assert(single(k, d).union_prefer_right(parts) =~= defs_8::<T0, T1, T2, T3, T4, T5, T6, T7>(k, d));
    if consistent_8::<T0, T1, T2, T3, T4, T5, T6, T7>(k) {
        lemma_parts_8::<T0, T1, T2, T3, T4, T5, T6, T7>(k, d);
    }
}

/// A map that holds `k`, and in which the entries of the set are expanded, holds the whole
/// set of a type whose own entry `d` under `k` is built from T0, T1, T2, T3, T4, T5, T6, T7.
pub proof fn lemma_absorb_8<T0: BorshSchema, T1: BorshSchema, T2: BorshSchema, T3: BorshSchema, T4: BorshSchema, T5: BorshSchema, T6: BorshSchema, T7: BorshSchema>(m: Map<Seq<char>, DefinitionView>, k: Seq<char>, d: DefinitionView)
    requires
        settled(m, defs_8::<T0, T1, T2, T3, T4, T5, T6, T7>(k, d)),
        consistent_8::<T0, T1, T2, T3, T4, T5, T6, T7>(k),
        m.contains_key(k),
        refers_to(d, T0::spec_declaration()),
        refers_to(d, T1::spec_declaration()),
        refers_to(d, T2::spec_declaration()),
        refers_to(d, T3::spec_declaration()),
        refers_to(d, T4::spec_declaration()),
        refers_to(d, T5::spec_declaration()),
        refers_to(d, T6::spec_declaration()),
        refers_to(d, T7::spec_declaration()),
    ensures
        defs_8::<T0, T1, T2, T3, T4, T5, T6, T7>(k, d).submap_of(m),
{
    lemma_parts_8::<T0, T1, T2, T3, T4, T5, T6, T7>(k, d);
    T0::lemma_described(); T1::lemma_described(); T2::lemma_described(); T3::lemma_described(); T4::lemma_described(); T5::lemma_described(); T6::lemma_described(); T7::lemma_described();
    lemma_settled_part(m, defs_8::<T0, T1, T2, T3, T4, T5, T6, T7>(k, d), T0::spec_definitions());
    if T0::spec_own() is Some {
        assert(refers_to(m[k], T0::spec_declaration()));
    }
    T0::lemma_absorbed(m);
    lemma_settled_part(m, defs_8::<T0, T1, T2, T3, T4, T5, T6, T7>(k, d), T1::spec_definitions());
    if T1::spec_own() is Some {
        assert(refers_to(m[k], T1::spec_declaration()));
    }
    T1::lemma_absorbed(m);
    lemma_settled_part(m, defs_8::<T0, T1, T2, T3, T4, T5, T6, T7>(k, d), T2::spec_definitions());
    if T2::spec_own() is Some {
        assert(refers_to(m[k], T2::spec_declaration()));
    }
    T2::lemma_absorbed(m);
    lemma_settled_part(m, defs_8::<T0, T1, T2, T3, T4, T5, T6, T7>(k, d), T3::spec_definitions());
    if T3::spec_own() is Some {
        assert(refers_to(m[k], T3::spec_declaration()));
    }
    T3::lemma_absorbed(m);
    lemma_settled_part(m, defs_8::<T0, T1, T2, T3, T4, T5, T6, T7>(k, d), T4::spec_definitions());
    if T4::spec_own() is Some {
        assert(refers_to(m[k], T4::spec_declaration()));
    }
    T4::lemma_absorbed(m);
    lemma_settled_part(m, defs_8::<T0, T1, T2, T3, T4, T5, T6, T7>(k, d), T5::spec_definitions());
    if T5::spec_own() is Some {
        assert(refers_to(m[k], T5::spec_declaration()));
    }
    T5::lemma_absorbed(m);
    lemma_settled_part(m, defs_8::<T0, T1, T2, T3, T4, T5, T6, T7>(k, d), T6::spec_definitions());
    if T6::spec_own() is Some {
        assert(refers_to(m[k], T6::spec_declaration()));
    }
    T6::lemma_absorbed(m);
    lemma_settled_part(m, defs_8::<T0, T1, T2, T3, T4, T5, T6, T7>(k, d), T7::spec_definitions());
    if T7::spec_own() is Some {
        assert(refers_to(m[k], T7::spec_declaration()));
    }
    T7::lemma_absorbed(m);
    assert forall|x: Seq<char>| #[trigger] defs_8::<T0, T1, T2, T3, T4, T5, T6, T7>(k, d).contains_key(x) implies m.contains_key(x)
        && m[x] == defs_8::<T0, T1, T2, T3, T4, T5, T6, T7>(k, d)[x] by {
        if T0::spec_definitions().contains_key(x) {
            assert(T0::spec_definitions().submap_of(m));
        }
        if T1::spec_definitions().contains_key(x) {
            assert(T1::spec_definitions().submap_of(m));
        }
        if T2::spec_definitions().contains_key(x) {
            assert(T2::spec_definitions().submap_of(m));
        }
        if T3::spec_definitions().contains_key(x) {
            assert(T3::spec_definitions().submap_of(m));
        }
        if T4::spec_definitions().contains_key(x) {
            assert(T4::spec_definitions().submap_of(m));
        }
        if T5::spec_definitions().contains_key(x) {
            assert(T5::spec_definitions().submap_of(m));
        }
        if T6::spec_definitions().contains_key(x) {
            assert(T6::spec_definitions().submap_of(m));
        }
        if T7::spec_definitions().contains_key(x) {
            assert(T7::spec_definitions().submap_of(m));
        }
        if x == k {
            assert(m.contains_key(k));
        }
        assert(m.contains_key(x));
        assert(defs_8::<T0, T1, T2, T3, T4, T5, T6, T7>(k, d).contains_key(x));
    }
}

/// The walk of a type whose own entry `definition` under `declaration` is built from T0, T1, T2, T3, T4, T5, T6, T7:
/// stop at an equal entry already there, fail at a different one, and otherwise add the
/// entry and walk each constituent in order.
pub fn walk_8<T0: BorshSchema, T1: BorshSchema, T2: BorshSchema, T3: BorshSchema, T4: BorshSchema, T5: BorshSchema, T6: BorshSchema, T7: BorshSchema>(
    declaration: Declaration,
    definition: Definition,
    definitions: &mut Definitions,
) -> (r: Result<(), SchemaError>)
    requires
        old(definitions).wf(),
        refers_to(definition@, T0::spec_declaration()),
        refers_to(definition@, T1::spec_declaration()),
        refers_to(definition@, T2::spec_declaration()),
        refers_to(definition@, T3::spec_declaration()),
        refers_to(definition@, T4::spec_declaration()),
        refers_to(definition@, T5::spec_declaration()),
        refers_to(definition@, T6::spec_declaration()),
        refers_to(definition@, T7::spec_declaration()),
    ensures
        final(definitions).wf(),
        (old(definitions)@.contains_key(declaration@) && old(definitions)@[declaration@]
            == definition@) ==> (r is Ok && final(definitions)@ == old(definitions)@),
        (old(definitions)@.contains_key(declaration@) && old(definitions)@[declaration@]
            != definition@) ==> (r == Err::<(), SchemaError>(SchemaError::SchemaConflict)),
        (settled(old(definitions)@, defs_8::<T0, T1, T2, T3, T4, T5, T6, T7>(declaration@, definition@))
            && consistent_8::<T0, T1, T2, T3, T4, T5, T6, T7>(declaration@)) ==> (r is Ok && final(definitions)@
            == old(definitions)@.union_prefer_right(defs_8::<T0, T1, T2, T3, T4, T5, T6, T7>(declaration@, definition@))),
        r is Err ==> r == Err::<(), SchemaError>(SchemaError::SchemaConflict),
{
    let ghost m = definitions@;
    let ghost k = declaration@;
    let ghost d = definition@;
    let ghost all = defs_8::<T0, T1, T2, T3, T4, T5, T6, T7>(k, d);
    let ghost good = settled(m, all) && consistent_8::<T0, T1, T2, T3, T4, T5, T6, T7>(k);
    let found = match definitions.get(&declaration) {
        Some(existing) => Some(same_definition(existing, &definition)),
        None => None,
    };
    match found {
        Some(true) => {
            proof {
                if good {
                    lemma_absorb_8::<T0, T1, T2, T3, T4, T5, T6, T7>(m, k, d);
                    assert(m.union_prefer_right(all) =~= m);
                }
            }
            Ok(())
        },
        Some(false) => {
            proof {
                if good {
                    lemma_parts_8::<T0, T1, T2, T3, T4, T5, T6, T7>(k, d);
                    assert(all.contains_key(k) && m.contains_key(k));
                }
            }
            Err(SchemaError::SchemaConflict)
        },
        None => {
            definitions.insert(declaration, definition);
            proof {
                if good {
                    lemma_parts_8::<T0, T1, T2, T3, T4, T5, T6, T7>(k, d);
                    T0::lemma_described(); T1::lemma_described(); T2::lemma_described(); T3::lemma_described(); T4::lemma_described(); T5::lemma_described(); T6::lemma_described(); T7::lemma_described();
                    lemma_settled_part(m, all, T0::spec_definitions());
                    lemma_settled_insert(m, T0::spec_definitions(), k, d);
                    lemma_settled_part(m, all, T1::spec_definitions());
                    lemma_settled_insert(m, T1::spec_definitions(), k, d);
                    lemma_settled_part(m, all, T2::spec_definitions());
                    lemma_settled_insert(m, T2::spec_definitions(), k, d);
                    lemma_settled_part(m, all, T3::spec_definitions());
                    lemma_settled_insert(m, T3::spec_definitions(), k, d);
                    lemma_settled_part(m, all, T4::spec_definitions());
                    lemma_settled_insert(m, T4::spec_definitions(), k, d);
                    lemma_settled_part(m, all, T5::spec_definitions());
                    lemma_settled_insert(m, T5::spec_definitions(), k, d);
                    lemma_settled_part(m, all, T6::spec_definitions());
                    lemma_settled_insert(m, T6::spec_definitions(), k, d);
                    lemma_settled_part(m, all, T7::spec_definitions());
                    lemma_settled_insert(m, T7::spec_definitions(), k, d);
                }
            }
            let ghost before0 = definitions@;
            let r0 = T0::add_definitions_recursively(definitions);
            if r0.is_err() {
                return r0;
            }
            proof {
                if good {
                    lemma_settled_merge(before0, T0::spec_definitions(), T1::spec_definitions());
                    lemma_settled_merge(before0, T0::spec_definitions(), T2::spec_definitions());
                    lemma_settled_merge(before0, T0::spec_definitions(), T3::spec_definitions());
                    lemma_settled_merge(before0, T0::spec_definitions(), T4::spec_definitions());
                    lemma_settled_merge(before0, T0::spec_definitions(), T5::spec_definitions());
                    lemma_settled_merge(before0, T0::spec_definitions(), T6::spec_definitions());
                    lemma_settled_merge(before0, T0::spec_definitions(), T7::spec_definitions());
                }
            }
            let ghost before1 = definitions@;
            let r1 = T1::add_definitions_recursively(definitions);
            if r1.is_err() {
                return r1;
            }
            proof {
                if good {
                    lemma_settled_merge(before1, T1::spec_definitions(), T2::spec_definitions());
                    lemma_settled_merge(before1, T1::spec_definitions(), T3::spec_definitions());
                    lemma_settled_merge(before1, T1::spec_definitions(), T4::spec_definitions());
                    lemma_settled_merge(before1, T1::spec_definitions(), T5::spec_definitions());
                    lemma_settled_merge(before1, T1::spec_definitions(), T6::spec_definitions());
                    lemma_settled_merge(before1, T1::spec_definitions(), T7::spec_definitions());
                }
            }
            let ghost before2 = definitions@;
            let r2 = T2::add_definitions_recursively(definitions);
            if r2.is_err() {
                return r2;
            }
            proof {
                if good {
                    lemma_settled_merge(before2, T2::spec_definitions(), T3::spec_definitions());
                    lemma_settled_merge(before2, T2::spec_definitions(), T4::spec_definitions());
                    lemma_settled_merge(before2, T2::spec_definitions(), T5::spec_definitions());
                    lemma_settled_merge(before2, T2::spec_definitions(), T6::spec_definitions());
                    lemma_settled_merge(before2, T2::spec_definitions(), T7::spec_definitions());
                }
            }
            let ghost before3 = definitions@;
            let r3 = T3::add_definitions_recursively(definitions);
            if r3.is_err() {
                return r3;
            }
            proof {
                if good {
                    lemma_settled_merge(before3, T3::spec_definitions(), T4::spec_definitions());
                    lemma_settled_merge(before3, T3::spec_definitions(), T5::spec_definitions());
                    lemma_settled_merge(before3, T3::spec_definitions(), T6::spec_definitions());
                    lemma_settled_merge(before3, T3::spec_definitions(), T7::spec_definitions());
                }
            }
            let ghost before4 = definitions@;
            let r4 = T4::add_definitions_recursively(definitions);
            if r4.is_err() {
                return r4;
            }
            proof {
                if good {
                    lemma_settled_merge(before4, T4::spec_definitions(), T5::spec_definitions());
                    lemma_settled_merge(before4, T4::spec_definitions(), T6::spec_definitions());
                    lemma_settled_merge(before4, T4::spec_definitions(), T7::spec_definitions());
                }
            }
            let ghost before5 = definitions@;
            let r5 = T5::add_definitions_recursively(definitions);
            if r5.is_err() {
                return r5;
            }
            proof {
                if good {
                    lemma_settled_merge(before5, T5::spec_definitions(), T6::spec_definitions());
                    lemma_settled_merge(before5, T5::spec_definitions(), T7::spec_definitions());
                }
            }
            let ghost before6 = definitions@;
            let r6 = T6::add_definitions_recursively(definitions);
            if r6.is_err() {
                return r6;
            }
            proof {
                if good {
                    lemma_settled_merge(before6, T6::spec_definitions(), T7::spec_definitions());
                }
            }
            let ghost before7 = definitions@;
            let r7 = T7::add_definitions_recursively(definitions);
            proof {
                if good {
                    assert(m.insert(k, d).union_prefer_right(T0::spec_definitions()).union_prefer_right(T1::spec_definitions()).union_prefer_right(T2::spec_definitions()).union_prefer_right(T3::spec_definitions()).union_prefer_right(T4::spec_definitions()).union_prefer_right(T5::spec_definitions()).union_prefer_right(T6::spec_definitions()).union_prefer_right(T7::spec_definitions()) =~= m.union_prefer_right(all));
                }
            }
            r7
        },
    }
}

} // verus!
