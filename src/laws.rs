//! General facts about declarations and collected schemas.
use crate::model::DefinitionView;
use crate::schema::{closed, primitive_declaration, settled, BorshSchema};
use vstd::prelude::*;

verus! {

/// The declaration of a type is a function of the type alone: any two declarations
/// computed for it, whatever was computed before or between them, are the same string.
pub proof fn lemma_declaration_deterministic<T: BorshSchema + ?Sized>(
    first: Seq<char>,
    second: Seq<char>,
)
    requires
        first == T::spec_declaration(),
        second == T::spec_declaration(),
    ensures
        first == second,
{
}

/// The schema of any type is complete: its own declaration is defined in it unless it is
/// primitive, and every declaration that one of its definitions is built from is defined
/// in it as well, or is primitive.
pub proof fn lemma_schema_complete<T: BorshSchema + ?Sized>()
    ensures
        T::spec_definitions().contains_key(T::spec_declaration()) || primitive_declaration(
            T::spec_declaration(),
        ),
        forall|k: Seq<char>, d: Seq<char>|
            T::spec_definitions().contains_key(k) && #[trigger] crate::schema::refers_to(
                T::spec_definitions()[k],
                d,
            ) ==> T::spec_definitions().contains_key(d) || primitive_declaration(d),
{
    T::lemma_described();
}

/// Every definition collected for a type is reached from its root: a map that holds the
/// type's own declaration, and in which each entry of the type's set that it holds is
/// expanded, holds the whole set. So the set has no entry unrelated to the root.
pub proof fn lemma_schema_reachable<T: BorshSchema + ?Sized>(m: Map<Seq<char>, DefinitionView>)
    requires
        settled(m, T::spec_definitions()),
        T::spec_consistent(),
        T::spec_own() is Some ==> m.contains_key(T::spec_declaration()),
    ensures
        T::spec_definitions().submap_of(m),
{
    T::lemma_absorbed(m);
}

/// Adding a definition that is already stored under its declaration changes nothing;
/// adding a different one under the same declaration is refused.
pub proof fn lemma_add_idempotent(
    m: Map<Seq<char>, DefinitionView>,
    declaration: Seq<char>,
    definition: DefinitionView,
)
    requires
        m.contains_key(declaration),
        m[declaration] == definition,
    ensures
        m.insert(declaration, definition) == m,
{
    assert(m.insert(declaration, definition) =~= m);
}

} // verus!
