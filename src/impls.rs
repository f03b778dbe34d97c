//! How the types of the language describe themselves.
use crate::definitions::Definitions;
use crate::model::pairs_view;
use crate::model::{Declaration, Definition, DefinitionView, SchemaError};
use crate::schema::{
    own_def, own_key, consistent_one, consistent_three, consistent_two, defs_one, defs_three, defs_two,
    lemma_absorb_one, lemma_absorb_three, lemma_absorb_two, lemma_capital_not_primitive,
    lemma_describe_one, lemma_describe_three, lemma_describe_two, primitive_declaration,
    refers_to, settled, walk_one, walk_three, walk_two, BorshSchema,
};
use crate::schema::{consistent_4, defs_4, lemma_absorb_4, lemma_describe_4, walk_4};
use crate::schema::{consistent_5, defs_5, lemma_absorb_5, lemma_describe_5, walk_5};
use crate::schema::{consistent_6, defs_6, lemma_absorb_6, lemma_describe_6, walk_6};
use crate::schema::{consistent_7, defs_7, lemma_absorb_7, lemma_describe_7, walk_7};
use crate::schema::{consistent_8, defs_8, lemma_absorb_8, lemma_describe_8, walk_8};

use crate::text::{decimal, decimal_string, joined, tuple_declaration, wrap, wrap_pair};
use std::collections::{BTreeMap, BTreeSet, HashMap, HashSet};
use std::marker::PhantomData;
use vstd::prelude::*;
use vstd::string::StringExecFns;

verus! {

/// Merging nothing leaves a map as it was.
proof fn lemma_union_empty(m: Map<Seq<char>, DefinitionView>)
    ensures
        m.union_prefer_right(Map::empty()) == m,
{
    assert(m.union_prefer_right(Map::empty()) =~= m);
}

/// The definition of a dynamic sequence of `elements`.
pub open spec fn sequence_of(elements: Seq<char>) -> DefinitionView {
    DefinitionView::Sequence { elements }
}

/// The definition of a fixed array of `length` values declared `elements`.
pub open spec fn array_of(length: u32, elements: Seq<char>) -> DefinitionView {
    DefinitionView::Array { length, elements }
}

/// The definition of a two-variant enum with the given variant names and payloads.
pub open spec fn two_variants(
    first: Seq<char>,
    first_payload: Seq<char>,
    second: Seq<char>,
    second_payload: Seq<char>,
) -> DefinitionView {
    DefinitionView::Enum { variants: seq![(first, first_payload), (second, second_payload)] }
}

fn two_variant_definition(
    first: &str,
    first_payload: Declaration,
    second: &str,
    second_payload: Declaration,
) -> (r: Definition)
    ensures
        r@ == two_variants(first@, first_payload@, second@, second_payload@),
{
    let variants = vec![
        (String::from_str(first), first_payload),
        (String::from_str(second), second_payload),
    ];
    let r = Definition::Enum { variants };
    proof {
        assert(pairs_view(variants@) =~= seq![
            (first@, first_payload@),
            (second@, second_payload@),
        ]);
    }
    r
}

impl BorshSchema for bool {
    open spec fn spec_declaration() -> Seq<char> {
        "bool"@
    }

    open spec fn spec_definitions() -> Map<Seq<char>, DefinitionView> {
        Map::empty()
    }

    open spec fn spec_own() -> Option<(Seq<char>, DefinitionView)> {
        None
    }

    open spec fn spec_consistent() -> bool {
        true
    }

    proof fn lemma_described() {
    }

    proof fn lemma_absorbed(m: Map<Seq<char>, DefinitionView>) {
    }

    fn add_definitions_recursively(definitions: &mut Definitions) -> (r: Result<(), SchemaError>) {
        proof {
            lemma_union_empty(definitions@);
            assert(Self::spec_own() is None);
        }
        Ok(())
    }

    fn declaration() -> (r: Declaration) {
        String::from_str("bool")
    }
}

impl BorshSchema for i8 {
    open spec fn spec_declaration() -> Seq<char> {
        "i8"@
    }

    open spec fn spec_definitions() -> Map<Seq<char>, DefinitionView> {
        Map::empty()
    }

    open spec fn spec_own() -> Option<(Seq<char>, DefinitionView)> {
        None
    }

    open spec fn spec_consistent() -> bool {
        true
    }

    proof fn lemma_described() {
    }

    proof fn lemma_absorbed(m: Map<Seq<char>, DefinitionView>) {
    }

    fn add_definitions_recursively(definitions: &mut Definitions) -> (r: Result<(), SchemaError>) {
        proof {
            lemma_union_empty(definitions@);
            assert(Self::spec_own() is None);
        }
        Ok(())
    }

    fn declaration() -> (r: Declaration) {
        String::from_str("i8")
    }
}

impl BorshSchema for i16 {
    open spec fn spec_declaration() -> Seq<char> {
        "i16"@
    }

    open spec fn spec_definitions() -> Map<Seq<char>, DefinitionView> {
        Map::empty()
    }

    open spec fn spec_own() -> Option<(Seq<char>, DefinitionView)> {
        None
    }

    open spec fn spec_consistent() -> bool {
        true
    }

    proof fn lemma_described() {
    }

    proof fn lemma_absorbed(m: Map<Seq<char>, DefinitionView>) {
    }

    fn add_definitions_recursively(definitions: &mut Definitions) -> (r: Result<(), SchemaError>) {
        proof {
            lemma_union_empty(definitions@);
            assert(Self::spec_own() is None);
        }
        Ok(())
    }

    fn declaration() -> (r: Declaration) {
        String::from_str("i16")
    }
}

impl BorshSchema for i32 {
    open spec fn spec_declaration() -> Seq<char> {
        "i32"@
    }

    open spec fn spec_definitions() -> Map<Seq<char>, DefinitionView> {
        Map::empty()
    }

    open spec fn spec_own() -> Option<(Seq<char>, DefinitionView)> {
        None
    }

    open spec fn spec_consistent() -> bool {
        true
    }

    proof fn lemma_described() {
    }

    proof fn lemma_absorbed(m: Map<Seq<char>, DefinitionView>) {
    }

    fn add_definitions_recursively(definitions: &mut Definitions) -> (r: Result<(), SchemaError>) {
        proof {
            lemma_union_empty(definitions@);
            assert(Self::spec_own() is None);
        }
        Ok(())
    }

    fn declaration() -> (r: Declaration) {
        String::from_str("i32")
    }
}

impl BorshSchema for i64 {
    open spec fn spec_declaration() -> Seq<char> {
        "i64"@
    }

    open spec fn spec_definitions() -> Map<Seq<char>, DefinitionView> {
        Map::empty()
    }

    open spec fn spec_own() -> Option<(Seq<char>, DefinitionView)> {
        None
    }

    open spec fn spec_consistent() -> bool {
        true
    }

    proof fn lemma_described() {
    }

    proof fn lemma_absorbed(m: Map<Seq<char>, DefinitionView>) {
    }

    fn add_definitions_recursively(definitions: &mut Definitions) -> (r: Result<(), SchemaError>) {
        proof {
            lemma_union_empty(definitions@);
            assert(Self::spec_own() is None);
        }
        Ok(())
    }

    fn declaration() -> (r: Declaration) {
        String::from_str("i64")
    }
}

impl BorshSchema for i128 {
    open spec fn spec_declaration() -> Seq<char> {
        "i128"@
    }

    open spec fn spec_definitions() -> Map<Seq<char>, DefinitionView> {
        Map::empty()
    }

    open spec fn spec_own() -> Option<(Seq<char>, DefinitionView)> {
        None
    }

    open spec fn spec_consistent() -> bool {
        true
    }

    proof fn lemma_described() {
    }

    proof fn lemma_absorbed(m: Map<Seq<char>, DefinitionView>) {
    }

    fn add_definitions_recursively(definitions: &mut Definitions) -> (r: Result<(), SchemaError>) {
        proof {
            lemma_union_empty(definitions@);
            assert(Self::spec_own() is None);
        }
        Ok(())
    }

    fn declaration() -> (r: Declaration) {
        String::from_str("i128")
    }
}

impl BorshSchema for u8 {
    open spec fn spec_declaration() -> Seq<char> {
        "u8"@
    }

    open spec fn spec_definitions() -> Map<Seq<char>, DefinitionView> {
        Map::empty()
    }

    open spec fn spec_own() -> Option<(Seq<char>, DefinitionView)> {
        None
    }

    open spec fn spec_consistent() -> bool {
        true
    }

    proof fn lemma_described() {
    }

    proof fn lemma_absorbed(m: Map<Seq<char>, DefinitionView>) {
    }

    fn add_definitions_recursively(definitions: &mut Definitions) -> (r: Result<(), SchemaError>) {
        proof {
            lemma_union_empty(definitions@);
            assert(Self::spec_own() is None);
        }
        Ok(())
    }

    fn declaration() -> (r: Declaration) {
        String::from_str("u8")
    }
}

impl BorshSchema for u16 {
    open spec fn spec_declaration() -> Seq<char> {
        "u16"@
    }

    open spec fn spec_definitions() -> Map<Seq<char>, DefinitionView> {
        Map::empty()
    }

    open spec fn spec_own() -> Option<(Seq<char>, DefinitionView)> {
        None
    }

    open spec fn spec_consistent() -> bool {
        true
    }

    proof fn lemma_described() {
    }

    proof fn lemma_absorbed(m: Map<Seq<char>, DefinitionView>) {
    }

    fn add_definitions_recursively(definitions: &mut Definitions) -> (r: Result<(), SchemaError>) {
        proof {
            lemma_union_empty(definitions@);
            assert(Self::spec_own() is None);
        }
        Ok(())
    }

    fn declaration() -> (r: Declaration) {
        String::from_str("u16")
    }
}

impl BorshSchema for u32 {
    open spec fn spec_declaration() -> Seq<char> {
        "u32"@
    }

    open spec fn spec_definitions() -> Map<Seq<char>, DefinitionView> {
        Map::empty()
    }

    open spec fn spec_own() -> Option<(Seq<char>, DefinitionView)> {
        None
    }

    open spec fn spec_consistent() -> bool {
        true
    }

    proof fn lemma_described() {
    }

    proof fn lemma_absorbed(m: Map<Seq<char>, DefinitionView>) {
    }

    fn add_definitions_recursively(definitions: &mut Definitions) -> (r: Result<(), SchemaError>) {
        proof {
            lemma_union_empty(definitions@);
            assert(Self::spec_own() is None);
        }
        Ok(())
    }

    fn declaration() -> (r: Declaration) {
        String::from_str("u32")
    }
}

impl BorshSchema for u64 {
    open spec fn spec_declaration() -> Seq<char> {
        "u64"@
    }

    open spec fn spec_definitions() -> Map<Seq<char>, DefinitionView> {
        Map::empty()
    }

    open spec fn spec_own() -> Option<(Seq<char>, DefinitionView)> {
        None
    }

    open spec fn spec_consistent() -> bool {
        true
    }

    proof fn lemma_described() {
    }

    proof fn lemma_absorbed(m: Map<Seq<char>, DefinitionView>) {
    }

    fn add_definitions_recursively(definitions: &mut Definitions) -> (r: Result<(), SchemaError>) {
        proof {
            lemma_union_empty(definitions@);
            assert(Self::spec_own() is None);
        }
        Ok(())
    }

    fn declaration() -> (r: Declaration) {
        String::from_str("u64")
    }
}

impl BorshSchema for u128 {
    open spec fn spec_declaration() -> Seq<char> {
        "u128"@
    }

    open spec fn spec_definitions() -> Map<Seq<char>, DefinitionView> {
        Map::empty()
    }

    open spec fn spec_own() -> Option<(Seq<char>, DefinitionView)> {
        None
    }

    open spec fn spec_consistent() -> bool {
        true
    }

    proof fn lemma_described() {
    }

    proof fn lemma_absorbed(m: Map<Seq<char>, DefinitionView>) {
    }

    fn add_definitions_recursively(definitions: &mut Definitions) -> (r: Result<(), SchemaError>) {
        proof {
            lemma_union_empty(definitions@);
            assert(Self::spec_own() is None);
        }
        Ok(())
    }

    fn declaration() -> (r: Declaration) {
        String::from_str("u128")
    }
}

impl BorshSchema for isize {
    open spec fn spec_declaration() -> Seq<char> {
        "i64"@
    }

    open spec fn spec_definitions() -> Map<Seq<char>, DefinitionView> {
        Map::empty()
    }

    open spec fn spec_own() -> Option<(Seq<char>, DefinitionView)> {
        None
    }

    open spec fn spec_consistent() -> bool {
        true
    }

    proof fn lemma_described() {
    }

    proof fn lemma_absorbed(m: Map<Seq<char>, DefinitionView>) {
    }

    fn add_definitions_recursively(definitions: &mut Definitions) -> (r: Result<(), SchemaError>) {
        proof {
            lemma_union_empty(definitions@);
            assert(Self::spec_own() is None);
        }
        Ok(())
    }

    fn declaration() -> (r: Declaration) {
        String::from_str("i64")
    }
}

impl BorshSchema for usize {
    open spec fn spec_declaration() -> Seq<char> {
        "u64"@
    }

    open spec fn spec_definitions() -> Map<Seq<char>, DefinitionView> {
        Map::empty()
    }

    open spec fn spec_own() -> Option<(Seq<char>, DefinitionView)> {
        None
    }

    open spec fn spec_consistent() -> bool {
        true
    }

    proof fn lemma_described() {
    }

    proof fn lemma_absorbed(m: Map<Seq<char>, DefinitionView>) {
    }

    fn add_definitions_recursively(definitions: &mut Definitions) -> (r: Result<(), SchemaError>) {
        proof {
            lemma_union_empty(definitions@);
            assert(Self::spec_own() is None);
        }
        Ok(())
    }

    fn declaration() -> (r: Declaration) {
        String::from_str("u64")
    }
}

impl BorshSchema for String {
    open spec fn spec_declaration() -> Seq<char> {
        "string"@
    }

    open spec fn spec_definitions() -> Map<Seq<char>, DefinitionView> {
        Map::empty()
    }

    open spec fn spec_own() -> Option<(Seq<char>, DefinitionView)> {
        None
    }

    open spec fn spec_consistent() -> bool {
        true
    }

    proof fn lemma_described() {
    }

    proof fn lemma_absorbed(m: Map<Seq<char>, DefinitionView>) {
    }

    fn add_definitions_recursively(definitions: &mut Definitions) -> (r: Result<(), SchemaError>) {
        proof {
            lemma_union_empty(definitions@);
            assert(Self::spec_own() is None);
        }
        Ok(())
    }

    fn declaration() -> (r: Declaration) {
        String::from_str("string")
    }
}

impl BorshSchema for str {
    open spec fn spec_declaration() -> Seq<char> {
        "string"@
    }

    open spec fn spec_definitions() -> Map<Seq<char>, DefinitionView> {
        Map::empty()
    }

    open spec fn spec_own() -> Option<(Seq<char>, DefinitionView)> {
        None
    }

    open spec fn spec_consistent() -> bool {
        true
    }

    proof fn lemma_described() {
    }

    proof fn lemma_absorbed(m: Map<Seq<char>, DefinitionView>) {
    }

    fn add_definitions_recursively(definitions: &mut Definitions) -> (r: Result<(), SchemaError>) {
        proof {
            lemma_union_empty(definitions@);
            assert(Self::spec_own() is None);
        }
        Ok(())
    }

    fn declaration() -> (r: Declaration) {
        String::from_str("string")
    }
}

impl BorshSchema for () {
    open spec fn spec_declaration() -> Seq<char> {
        "nil"@
    }

    open spec fn spec_definitions() -> Map<Seq<char>, DefinitionView> {
        Map::empty()
    }

    open spec fn spec_own() -> Option<(Seq<char>, DefinitionView)> {
        None
    }

    open spec fn spec_consistent() -> bool {
        true
    }

    proof fn lemma_described() {
    }

    proof fn lemma_absorbed(m: Map<Seq<char>, DefinitionView>) {
    }

    fn add_definitions_recursively(definitions: &mut Definitions) -> (r: Result<(), SchemaError>) {
        proof {
            lemma_union_empty(definitions@);
            assert(Self::spec_own() is None);
        }
        Ok(())
    }

    fn declaration() -> (r: Declaration) {
        String::from_str("nil")
    }
}

/// A zero-sized marker occupies no bytes; its parameter plays no part in the schema.
impl<T> BorshSchema for PhantomData<T> {
    open spec fn spec_declaration() -> Seq<char> {
        "nil"@
    }

    open spec fn spec_definitions() -> Map<Seq<char>, DefinitionView> {
        Map::empty()
    }

    open spec fn spec_own() -> Option<(Seq<char>, DefinitionView)> {
        None
    }

    open spec fn spec_consistent() -> bool {
        true
    }

    proof fn lemma_described() {
    }

    proof fn lemma_absorbed(m: Map<Seq<char>, DefinitionView>) {
    }

    fn add_definitions_recursively(definitions: &mut Definitions) -> (r: Result<(), SchemaError>) {
        proof {
            lemma_union_empty(definitions@);
            assert(Self::spec_own() is None);
        }
        Ok(())
    }

    fn declaration() -> (r: Declaration) {
        <()>::declaration()
    }
}

/// An owning pointer has the wire shape of what it points to.
impl<T: BorshSchema + ?Sized> BorshSchema for Box<T> {
    open spec fn spec_declaration() -> Seq<char> {
        T::spec_declaration()
    }

    open spec fn spec_definitions() -> Map<Seq<char>, DefinitionView> {
        T::spec_definitions()
    }

    open spec fn spec_own() -> Option<(Seq<char>, DefinitionView)> {
        T::spec_own()
    }

    open spec fn spec_consistent() -> bool {
        T::spec_consistent()
    }

    proof fn lemma_described() {
        T::lemma_described();
    }

    proof fn lemma_absorbed(m: Map<Seq<char>, DefinitionView>) {
        T::lemma_absorbed(m);
    }

    fn add_definitions_recursively(definitions: &mut Definitions) -> (r: Result<(), SchemaError>) {
        proof {
            assert(own_key(Self::spec_own()) == own_key(T::spec_own()));
            assert(own_def(Self::spec_own()) == own_def(T::spec_own()));
        }
        T::add_definitions_recursively(definitions)
    }

    fn declaration() -> (r: Declaration) {
        T::declaration()
    }
}

impl<T: BorshSchema> BorshSchema for Vec<T> {
    open spec fn spec_declaration() -> Seq<char> {
        "Vec<"@ + T::spec_declaration() + ">"@
    }

    open spec fn spec_definitions() -> Map<Seq<char>, DefinitionView> {
        defs_one::<T>(Self::spec_declaration(), sequence_of(T::spec_declaration()))
    }

    open spec fn spec_own() -> Option<(Seq<char>, DefinitionView)> {
        Some((Self::spec_declaration(), sequence_of(T::spec_declaration())))
    }

    open spec fn spec_consistent() -> bool {
        consistent_one::<T>(Self::spec_declaration())
    }

    proof fn lemma_described() {
        reveal_strlit("Vec<");
        lemma_capital_not_primitive("Vec<"@, T::spec_declaration() + ">"@);
        assert(Self::spec_declaration() =~= "Vec<"@ + (T::spec_declaration() + ">"@));
        let d = sequence_of(T::spec_declaration());
        lemma_describe_one::<T>(Self::spec_declaration(), d);
    }

    proof fn lemma_absorbed(m: Map<Seq<char>, DefinitionView>) {
        let d = sequence_of(T::spec_declaration());
        lemma_absorb_one::<T>(m, Self::spec_declaration(), d);
    }

    fn add_definitions_recursively(definitions: &mut Definitions) -> (r: Result<(), SchemaError>) {
        let definition = Definition::Sequence { elements: T::declaration() };
        proof {
            let d = sequence_of(T::spec_declaration());
        }
        let declaration = Self::declaration();
        proof {
            assert(own_key(Self::spec_own()) == declaration@);
            assert(own_def(Self::spec_own()) == definition@);
        }
        walk_one::<T>(declaration, definition, definitions)
    }

    fn declaration() -> (r: Declaration) {
        wrap("Vec<", T::declaration(), ">")
    }
}

impl<T: BorshSchema> BorshSchema for [T] {
    open spec fn spec_declaration() -> Seq<char> {
        "Vec<"@ + T::spec_declaration() + ">"@
    }

    open spec fn spec_definitions() -> Map<Seq<char>, DefinitionView> {
        defs_one::<T>(Self::spec_declaration(), sequence_of(T::spec_declaration()))
    }

    open spec fn spec_own() -> Option<(Seq<char>, DefinitionView)> {
        Some((Self::spec_declaration(), sequence_of(T::spec_declaration())))
    }

    open spec fn spec_consistent() -> bool {
        consistent_one::<T>(Self::spec_declaration())
    }

    proof fn lemma_described() {
        reveal_strlit("Vec<");
        lemma_capital_not_primitive("Vec<"@, T::spec_declaration() + ">"@);
        assert(Self::spec_declaration() =~= "Vec<"@ + (T::spec_declaration() + ">"@));
        let d = sequence_of(T::spec_declaration());
        lemma_describe_one::<T>(Self::spec_declaration(), d);
    }

    proof fn lemma_absorbed(m: Map<Seq<char>, DefinitionView>) {
        let d = sequence_of(T::spec_declaration());
        lemma_absorb_one::<T>(m, Self::spec_declaration(), d);
    }

    fn add_definitions_recursively(definitions: &mut Definitions) -> (r: Result<(), SchemaError>) {
        let definition = Definition::Sequence { elements: T::declaration() };
        proof {
            let d = sequence_of(T::spec_declaration());
        }
        let declaration = Self::declaration();
        proof {
            assert(own_key(Self::spec_own()) == declaration@);
            assert(own_def(Self::spec_own()) == definition@);
        }
        walk_one::<T>(declaration, definition, definitions)
    }

    fn declaration() -> (r: Declaration) {
        wrap("Vec<", T::declaration(), ">")
    }
}

impl<T: BorshSchema> BorshSchema for HashSet<T> {
    open spec fn spec_declaration() -> Seq<char> {
        "HashSet<"@ + T::spec_declaration() + ">"@
    }

    open spec fn spec_definitions() -> Map<Seq<char>, DefinitionView> {
        defs_one::<T>(Self::spec_declaration(), sequence_of(T::spec_declaration()))
    }

    open spec fn spec_own() -> Option<(Seq<char>, DefinitionView)> {
        Some((Self::spec_declaration(), sequence_of(T::spec_declaration())))
    }

    open spec fn spec_consistent() -> bool {
        consistent_one::<T>(Self::spec_declaration())
    }

    proof fn lemma_described() {
        reveal_strlit("HashSet<");
        lemma_capital_not_primitive("HashSet<"@, T::spec_declaration() + ">"@);
        assert(Self::spec_declaration() =~= "HashSet<"@ + (T::spec_declaration() + ">"@));
        let d = sequence_of(T::spec_declaration());
        lemma_describe_one::<T>(Self::spec_declaration(), d);
    }

    proof fn lemma_absorbed(m: Map<Seq<char>, DefinitionView>) {
        let d = sequence_of(T::spec_declaration());
        lemma_absorb_one::<T>(m, Self::spec_declaration(), d);
    }

    fn add_definitions_recursively(definitions: &mut Definitions) -> (r: Result<(), SchemaError>) {
        let definition = Definition::Sequence { elements: T::declaration() };
        proof {
            let d = sequence_of(T::spec_declaration());
        }
        let declaration = Self::declaration();
        proof {
            assert(own_key(Self::spec_own()) == declaration@);
            assert(own_def(Self::spec_own()) == definition@);
        }
        walk_one::<T>(declaration, definition, definitions)
    }

    fn declaration() -> (r: Declaration) {
        wrap("HashSet<", T::declaration(), ">")
    }
}

impl<T: BorshSchema> BorshSchema for BTreeSet<T> {
    open spec fn spec_declaration() -> Seq<char> {
        "BTreeSet<"@ + T::spec_declaration() + ">"@
    }

    open spec fn spec_definitions() -> Map<Seq<char>, DefinitionView> {
        defs_one::<T>(Self::spec_declaration(), sequence_of(T::spec_declaration()))
    }

    open spec fn spec_own() -> Option<(Seq<char>, DefinitionView)> {
        Some((Self::spec_declaration(), sequence_of(T::spec_declaration())))
    }

    open spec fn spec_consistent() -> bool {
        consistent_one::<T>(Self::spec_declaration())
    }

    proof fn lemma_described() {
        reveal_strlit("BTreeSet<");
        lemma_capital_not_primitive("BTreeSet<"@, T::spec_declaration() + ">"@);
        assert(Self::spec_declaration() =~= "BTreeSet<"@ + (T::spec_declaration() + ">"@));
        let d = sequence_of(T::spec_declaration());
        lemma_describe_one::<T>(Self::spec_declaration(), d);
    }

    proof fn lemma_absorbed(m: Map<Seq<char>, DefinitionView>) {
        let d = sequence_of(T::spec_declaration());
        lemma_absorb_one::<T>(m, Self::spec_declaration(), d);
    }

    fn add_definitions_recursively(definitions: &mut Definitions) -> (r: Result<(), SchemaError>) {
        let definition = Definition::Sequence { elements: T::declaration() };
        proof {
            let d = sequence_of(T::spec_declaration());
        }
        let declaration = Self::declaration();
        proof {
            assert(own_key(Self::spec_own()) == declaration@);
            assert(own_def(Self::spec_own()) == definition@);
        }
        walk_one::<T>(declaration, definition, definitions)
    }

    fn declaration() -> (r: Declaration) {
        wrap("BTreeSet<", T::declaration(), ">")
    }
}

impl<K: BorshSchema, V: BorshSchema> BorshSchema for HashMap<K, V> {
    open spec fn spec_declaration() -> Seq<char> {
        "HashMap<"@ + K::spec_declaration() + ", "@ + V::spec_declaration() + ">"@
    }

    open spec fn spec_definitions() -> Map<Seq<char>, DefinitionView> {
        defs_one::<(K, V)>(Self::spec_declaration(), sequence_of(<(K, V)>::spec_declaration()))
    }

    open spec fn spec_own() -> Option<(Seq<char>, DefinitionView)> {
        Some((Self::spec_declaration(), sequence_of(<(K, V)>::spec_declaration())))
    }

    open spec fn spec_consistent() -> bool {
        consistent_one::<(K, V)>(Self::spec_declaration())
    }

    proof fn lemma_described() {
        reveal_strlit("HashMap<");
        lemma_capital_not_primitive("HashMap<"@, K::spec_declaration() + ", "@ + V::spec_declaration() + ">"@);
        assert(Self::spec_declaration() =~= "HashMap<"@ + (K::spec_declaration() + ", "@ + V::spec_declaration() + ">"@));
        let d = sequence_of(<(K, V)>::spec_declaration());
        lemma_describe_one::<(K, V)>(Self::spec_declaration(), d);
    }

    proof fn lemma_absorbed(m: Map<Seq<char>, DefinitionView>) {
        let d = sequence_of(<(K, V)>::spec_declaration());
        lemma_absorb_one::<(K, V)>(m, Self::spec_declaration(), d);
    }

    fn add_definitions_recursively(definitions: &mut Definitions) -> (r: Result<(), SchemaError>) {
        let definition = Definition::Sequence { elements: <(K, V)>::declaration() };
        proof {
            let d = sequence_of(<(K, V)>::spec_declaration());
        }
        let declaration = Self::declaration();
        proof {
            assert(own_key(Self::spec_own()) == declaration@);
            assert(own_def(Self::spec_own()) == definition@);
        }
        walk_one::<(K, V)>(declaration, definition, definitions)
    }

    fn declaration() -> (r: Declaration) {
        wrap_pair("HashMap<", K::declaration(), V::declaration(), ">")
    }
}

impl<K: BorshSchema, V: BorshSchema> BorshSchema for BTreeMap<K, V> {
    open spec fn spec_declaration() -> Seq<char> {
        "BTreeMap<"@ + K::spec_declaration() + ", "@ + V::spec_declaration() + ">"@
    }

    open spec fn spec_definitions() -> Map<Seq<char>, DefinitionView> {
        defs_one::<(K, V)>(Self::spec_declaration(), sequence_of(<(K, V)>::spec_declaration()))
    }

    open spec fn spec_own() -> Option<(Seq<char>, DefinitionView)> {
        Some((Self::spec_declaration(), sequence_of(<(K, V)>::spec_declaration())))
    }

    open spec fn spec_consistent() -> bool {
        consistent_one::<(K, V)>(Self::spec_declaration())
    }

    proof fn lemma_described() {
        reveal_strlit("BTreeMap<");
        lemma_capital_not_primitive("BTreeMap<"@, K::spec_declaration() + ", "@ + V::spec_declaration() + ">"@);
        assert(Self::spec_declaration() =~= "BTreeMap<"@ + (K::spec_declaration() + ", "@ + V::spec_declaration() + ">"@));
        let d = sequence_of(<(K, V)>::spec_declaration());
        lemma_describe_one::<(K, V)>(Self::spec_declaration(), d);
    }

    proof fn lemma_absorbed(m: Map<Seq<char>, DefinitionView>) {
        let d = sequence_of(<(K, V)>::spec_declaration());
        lemma_absorb_one::<(K, V)>(m, Self::spec_declaration(), d);
    }

    fn add_definitions_recursively(definitions: &mut Definitions) -> (r: Result<(), SchemaError>) {
        let definition = Definition::Sequence { elements: <(K, V)>::declaration() };
        proof {
            let d = sequence_of(<(K, V)>::spec_declaration());
        }
        let declaration = Self::declaration();
        proof {
            assert(own_key(Self::spec_own()) == declaration@);
            assert(own_def(Self::spec_own()) == definition@);
        }
        walk_one::<(K, V)>(declaration, definition, definitions)
    }

    fn declaration() -> (r: Declaration) {
        wrap_pair("BTreeMap<", K::declaration(), V::declaration(), ">")
    }
}

impl<T: BorshSchema, const N: usize> BorshSchema for [T; N] {
    open spec fn spec_declaration() -> Seq<char> {
        "Array<"@ + T::spec_declaration() + ", "@ + decimal(N as nat) + ">"@
    }

    open spec fn spec_definitions() -> Map<Seq<char>, DefinitionView> {
        defs_one::<T>(Self::spec_declaration(), array_of(N as u32, T::spec_declaration()))
    }

    open spec fn spec_own() -> Option<(Seq<char>, DefinitionView)> {
        Some((Self::spec_declaration(), array_of(N as u32, T::spec_declaration())))
    }

    open spec fn spec_consistent() -> bool {
        consistent_one::<T>(Self::spec_declaration())
    }

    proof fn lemma_described() {
        reveal_strlit("Array<");
        lemma_capital_not_primitive("Array<"@, T::spec_declaration() + ", "@ + decimal(N as nat) + ">"@);
        assert(Self::spec_declaration() =~= "Array<"@ + (T::spec_declaration() + ", "@ + decimal(N as nat) + ">"@));
        let d = array_of(N as u32, T::spec_declaration());
        lemma_describe_one::<T>(Self::spec_declaration(), d);
    }

    proof fn lemma_absorbed(m: Map<Seq<char>, DefinitionView>) {
        let d = array_of(N as u32, T::spec_declaration());
        lemma_absorb_one::<T>(m, Self::spec_declaration(), d);
    }

    fn add_definitions_recursively(definitions: &mut Definitions) -> (r: Result<(), SchemaError>) {
        let definition = Definition::Array { length: #[verifier::truncate] (N as u32), elements: T::declaration() };
        proof {
            let d = array_of(N as u32, T::spec_declaration());
        }
        let declaration = Self::declaration();
        proof {
            assert(own_key(Self::spec_own()) == declaration@);
            assert(own_def(Self::spec_own()) == definition@);
        }
        walk_one::<T>(declaration, definition, definitions)
    }

    fn declaration() -> (r: Declaration) {
        wrap_pair("Array<", T::declaration(), decimal_string(N), ">")
    }
}

impl<T: BorshSchema> BorshSchema for Option<T> {
    open spec fn spec_declaration() -> Seq<char> {
        "Option<"@ + T::spec_declaration() + ">"@
    }

    open spec fn spec_definitions() -> Map<Seq<char>, DefinitionView> {
        defs_one::<T>(Self::spec_declaration(), two_variants("None"@, "nil"@, "Some"@, T::spec_declaration()))
    }

    open spec fn spec_own() -> Option<(Seq<char>, DefinitionView)> {
        Some((Self::spec_declaration(), two_variants("None"@, "nil"@, "Some"@, T::spec_declaration())))
    }

    open spec fn spec_consistent() -> bool {
        consistent_one::<T>(Self::spec_declaration())
    }

    proof fn lemma_described() {
        reveal_strlit("Option<");
        lemma_capital_not_primitive("Option<"@, T::spec_declaration() + ">"@);
        assert(Self::spec_declaration() =~= "Option<"@ + (T::spec_declaration() + ">"@));
        let d = two_variants("None"@, "nil"@, "Some"@, T::spec_declaration());
        assert(d->variants[1].1 == T::spec_declaration());
        assert forall|x: Seq<char>| #[trigger] refers_to(d, x) implies x == T::spec_declaration()
            || primitive_declaration(x) by {
            let i = choose|i: int| 0 <= i < 2 && d->variants[i].1 == x;
        }
        lemma_describe_one::<T>(Self::spec_declaration(), d);
    }

    proof fn lemma_absorbed(m: Map<Seq<char>, DefinitionView>) {
        let d = two_variants("None"@, "nil"@, "Some"@, T::spec_declaration());
        assert(d->variants[1].1 == T::spec_declaration());
        assert forall|x: Seq<char>| #[trigger] refers_to(d, x) implies x == T::spec_declaration()
            || primitive_declaration(x) by {
            let i = choose|i: int| 0 <= i < 2 && d->variants[i].1 == x;
        }
        lemma_absorb_one::<T>(m, Self::spec_declaration(), d);
    }

    fn add_definitions_recursively(definitions: &mut Definitions) -> (r: Result<(), SchemaError>) {
        let definition = two_variant_definition("None", <()>::declaration(), "Some", T::declaration());
        proof {
            let d = two_variants("None"@, "nil"@, "Some"@, T::spec_declaration());
        assert(d->variants[1].1 == T::spec_declaration());
        assert forall|x: Seq<char>| #[trigger] refers_to(d, x) implies x == T::spec_declaration()
            || primitive_declaration(x) by {
            let i = choose|i: int| 0 <= i < 2 && d->variants[i].1 == x;
        }
        }
        let declaration = Self::declaration();
        proof {
            assert(own_key(Self::spec_own()) == declaration@);
            assert(own_def(Self::spec_own()) == definition@);
        }
        walk_one::<T>(declaration, definition, definitions)
    }

    fn declaration() -> (r: Declaration) {
        wrap("Option<", T::declaration(), ">")
    }
}

impl<T: BorshSchema, E: BorshSchema> BorshSchema for Result<T, E> {
    open spec fn spec_declaration() -> Seq<char> {
        "Result<"@ + T::spec_declaration() + ", "@ + E::spec_declaration() + ">"@
    }

    open spec fn spec_definitions() -> Map<Seq<char>, DefinitionView> {
        defs_two::<T, E>(Self::spec_declaration(), two_variants("Ok"@, T::spec_declaration(), "Err"@, E::spec_declaration()))
    }

    open spec fn spec_own() -> Option<(Seq<char>, DefinitionView)> {
        Some((Self::spec_declaration(), two_variants("Ok"@, T::spec_declaration(), "Err"@, E::spec_declaration())))
    }

    open spec fn spec_consistent() -> bool {
        consistent_two::<T, E>(Self::spec_declaration())
    }

    proof fn lemma_described() {
        reveal_strlit("Result<");
        lemma_capital_not_primitive("Result<"@, T::spec_declaration() + ", "@ + E::spec_declaration() + ">"@);
        assert(Self::spec_declaration() =~= "Result<"@ + (T::spec_declaration() + ", "@ + E::spec_declaration() + ">"@));
        let d = two_variants("Ok"@, T::spec_declaration(), "Err"@, E::spec_declaration());
        assert(d->variants[0].1 == T::spec_declaration());
        assert(d->variants[1].1 == E::spec_declaration());
        assert forall|x: Seq<char>| #[trigger] refers_to(d, x) implies x == T::spec_declaration()
            || x == E::spec_declaration() || primitive_declaration(x) by {
            let i = choose|i: int| 0 <= i < 2 && d->variants[i].1 == x;
        }
        lemma_describe_two::<T, E>(Self::spec_declaration(), d);
    }

    proof fn lemma_absorbed(m: Map<Seq<char>, DefinitionView>) {
        let d = two_variants("Ok"@, T::spec_declaration(), "Err"@, E::spec_declaration());
        assert(d->variants[0].1 == T::spec_declaration());
        assert(d->variants[1].1 == E::spec_declaration());
        assert forall|x: Seq<char>| #[trigger] refers_to(d, x) implies x == T::spec_declaration()
            || x == E::spec_declaration() || primitive_declaration(x) by {
            let i = choose|i: int| 0 <= i < 2 && d->variants[i].1 == x;
        }
        lemma_absorb_two::<T, E>(m, Self::spec_declaration(), d);
    }

    fn add_definitions_recursively(definitions: &mut Definitions) -> (r: Result<(), SchemaError>) {
        let definition = two_variant_definition("Ok", T::declaration(), "Err", E::declaration());
        proof {
            let d = two_variants("Ok"@, T::spec_declaration(), "Err"@, E::spec_declaration());
        assert(d->variants[0].1 == T::spec_declaration());
        assert(d->variants[1].1 == E::spec_declaration());
        assert forall|x: Seq<char>| #[trigger] refers_to(d, x) implies x == T::spec_declaration()
            || x == E::spec_declaration() || primitive_declaration(x) by {
            let i = choose|i: int| 0 <= i < 2 && d->variants[i].1 == x;
        }
        }
        let declaration = Self::declaration();
        proof {
            assert(own_key(Self::spec_own()) == declaration@);
            assert(own_def(Self::spec_own()) == definition@);
        }
        walk_two::<T, E>(declaration, definition, definitions)
    }

    fn declaration() -> (r: Declaration) {
        wrap_pair("Result<", T::declaration(), E::declaration(), ">")
    }
}

impl<T0: BorshSchema> BorshSchema for (T0,) {
    open spec fn spec_declaration() -> Seq<char> {
        "Tuple<"@ + joined(seq![T0::spec_declaration()]) + ">"@
    }

    open spec fn spec_definitions() -> Map<Seq<char>, DefinitionView> {
        defs_one::<T0>(Self::spec_declaration(), DefinitionView::Tuple { elements: seq![T0::spec_declaration()] })
    }

    open spec fn spec_own() -> Option<(Seq<char>, DefinitionView)> {
        Some((Self::spec_declaration(), DefinitionView::Tuple { elements: seq![T0::spec_declaration()] }))
    }

    open spec fn spec_consistent() -> bool {
        consistent_one::<T0>(Self::spec_declaration())
    }

    proof fn lemma_described() {
        reveal_strlit("Tuple<");
        lemma_capital_not_primitive("Tuple<"@, joined(seq![T0::spec_declaration()]) + ">"@);
        assert(Self::spec_declaration() =~= "Tuple<"@ + (joined(seq![T0::spec_declaration()]) + ">"@));
        let d = DefinitionView::Tuple { elements: seq![T0::spec_declaration()] };
        assert(d->Tuple_elements[0] == T0::spec_declaration());
        assert forall|x: Seq<char>| #[trigger] refers_to(d, x) implies x == T0::spec_declaration() || primitive_declaration(x) by {
            let i = choose|i: int| 0 <= i < 1 && d->Tuple_elements[i] == x;
        }
        lemma_describe_one::<T0>(Self::spec_declaration(), d);
    }

    proof fn lemma_absorbed(m: Map<Seq<char>, DefinitionView>) {
        let d = DefinitionView::Tuple { elements: seq![T0::spec_declaration()] };
        assert(d->Tuple_elements[0] == T0::spec_declaration());
        assert forall|x: Seq<char>| #[trigger] refers_to(d, x) implies x == T0::spec_declaration() || primitive_declaration(x) by {
            let i = choose|i: int| 0 <= i < 1 && d->Tuple_elements[i] == x;
        }
        lemma_absorb_one::<T0>(m, Self::spec_declaration(), d);
    }

    fn add_definitions_recursively(definitions: &mut Definitions) -> (r: Result<(), SchemaError>) {
        let definition = {
            let elements = vec![T0::declaration()];
            proof {
                assert(crate::model::names_view(elements@) =~= seq![T0::spec_declaration()]);
            }
            Definition::Tuple { elements }
        };
        proof {
            let d = DefinitionView::Tuple { elements: seq![T0::spec_declaration()] };
        assert(d->Tuple_elements[0] == T0::spec_declaration());
        assert forall|x: Seq<char>| #[trigger] refers_to(d, x) implies x == T0::spec_declaration() || primitive_declaration(x) by {
            let i = choose|i: int| 0 <= i < 1 && d->Tuple_elements[i] == x;
        }
        }
        let declaration = Self::declaration();
        proof {
            assert(own_key(Self::spec_own()) == declaration@);
            assert(own_def(Self::spec_own()) == definition@);
        }
        walk_one::<T0>(declaration, definition, definitions)
    }

    fn declaration() -> (r: Declaration) {
        let elements = vec![T0::declaration()];
        proof {
            assert(elements@.map_values(|e: String| e@) =~= seq![T0::spec_declaration()]);
        }
        tuple_declaration(elements)
    }
}

impl<T0: BorshSchema, T1: BorshSchema> BorshSchema for (T0, T1) {
    open spec fn spec_declaration() -> Seq<char> {
        "Tuple<"@ + joined(seq![T0::spec_declaration(), T1::spec_declaration()]) + ">"@
    }

    open spec fn spec_definitions() -> Map<Seq<char>, DefinitionView> {
        defs_two::<T0, T1>(Self::spec_declaration(), DefinitionView::Tuple { elements: seq![T0::spec_declaration(), T1::spec_declaration()] })
    }

    open spec fn spec_own() -> Option<(Seq<char>, DefinitionView)> {
        Some((Self::spec_declaration(), DefinitionView::Tuple { elements: seq![T0::spec_declaration(), T1::spec_declaration()] }))
    }

    open spec fn spec_consistent() -> bool {
        consistent_two::<T0, T1>(Self::spec_declaration())
    }

    proof fn lemma_described() {
        reveal_strlit("Tuple<");
        lemma_capital_not_primitive("Tuple<"@, joined(seq![T0::spec_declaration(), T1::spec_declaration()]) + ">"@);
        assert(Self::spec_declaration() =~= "Tuple<"@ + (joined(seq![T0::spec_declaration(), T1::spec_declaration()]) + ">"@));
        let d = DefinitionView::Tuple { elements: seq![T0::spec_declaration(), T1::spec_declaration()] };
        assert(d->Tuple_elements[0] == T0::spec_declaration());
        assert(d->Tuple_elements[1] == T1::spec_declaration());
        assert forall|x: Seq<char>| #[trigger] refers_to(d, x) implies x == T0::spec_declaration() || x == T1::spec_declaration() || primitive_declaration(x) by {
            let i = choose|i: int| 0 <= i < 2 && d->Tuple_elements[i] == x;
        }
        lemma_describe_two::<T0, T1>(Self::spec_declaration(), d);
    }

    proof fn lemma_absorbed(m: Map<Seq<char>, DefinitionView>) {
        let d = DefinitionView::Tuple { elements: seq![T0::spec_declaration(), T1::spec_declaration()] };
        assert(d->Tuple_elements[0] == T0::spec_declaration());
        assert(d->Tuple_elements[1] == T1::spec_declaration());
        assert forall|x: Seq<char>| #[trigger] refers_to(d, x) implies x == T0::spec_declaration() || x == T1::spec_declaration() || primitive_declaration(x) by {
            let i = choose|i: int| 0 <= i < 2 && d->Tuple_elements[i] == x;
        }
        lemma_absorb_two::<T0, T1>(m, Self::spec_declaration(), d);
    }

    fn add_definitions_recursively(definitions: &mut Definitions) -> (r: Result<(), SchemaError>) {
        let definition = {
            let elements = vec![T0::declaration(), T1::declaration()];
            proof {
                assert(crate::model::names_view(elements@) =~= seq![T0::spec_declaration(), T1::spec_declaration()]);
            }
            Definition::Tuple { elements }
        };
        proof {
            let d = DefinitionView::Tuple { elements: seq![T0::spec_declaration(), T1::spec_declaration()] };
        assert(d->Tuple_elements[0] == T0::spec_declaration());
        assert(d->Tuple_elements[1] == T1::spec_declaration());
        assert forall|x: Seq<char>| #[trigger] refers_to(d, x) implies x == T0::spec_declaration() || x == T1::spec_declaration() || primitive_declaration(x) by {
            let i = choose|i: int| 0 <= i < 2 && d->Tuple_elements[i] == x;
        }
        }
        let declaration = Self::declaration();
        proof {
            assert(own_key(Self::spec_own()) == declaration@);
            assert(own_def(Self::spec_own()) == definition@);
        }
        walk_two::<T0, T1>(declaration, definition, definitions)
    }

    fn declaration() -> (r: Declaration) {
        let elements = vec![T0::declaration(), T1::declaration()];
        proof {
            assert(elements@.map_values(|e: String| e@) =~= seq![T0::spec_declaration(), T1::spec_declaration()]);
        }
        tuple_declaration(elements)
    }
}

impl<T0: BorshSchema, T1: BorshSchema, T2: BorshSchema> BorshSchema for (T0, T1, T2) {
    open spec fn spec_declaration() -> Seq<char> {
        "Tuple<"@ + joined(seq![T0::spec_declaration(), T1::spec_declaration(), T2::spec_declaration()]) + ">"@
    }

    open spec fn spec_definitions() -> Map<Seq<char>, DefinitionView> {
        defs_three::<T0, T1, T2>(Self::spec_declaration(), DefinitionView::Tuple { elements: seq![T0::spec_declaration(), T1::spec_declaration(), T2::spec_declaration()] })
    }

    open spec fn spec_own() -> Option<(Seq<char>, DefinitionView)> {
        Some((Self::spec_declaration(), DefinitionView::Tuple { elements: seq![T0::spec_declaration(), T1::spec_declaration(), T2::spec_declaration()] }))
    }

    open spec fn spec_consistent() -> bool {
        consistent_three::<T0, T1, T2>(Self::spec_declaration())
    }

    proof fn lemma_described() {
        reveal_strlit("Tuple<");
        lemma_capital_not_primitive("Tuple<"@, joined(seq![T0::spec_declaration(), T1::spec_declaration(), T2::spec_declaration()]) + ">"@);
        assert(Self::spec_declaration() =~= "Tuple<"@ + (joined(seq![T0::spec_declaration(), T1::spec_declaration(), T2::spec_declaration()]) + ">"@));
        let d = DefinitionView::Tuple { elements: seq![T0::spec_declaration(), T1::spec_declaration(), T2::spec_declaration()] };
        assert(d->Tuple_elements[0] == T0::spec_declaration());
        assert(d->Tuple_elements[1] == T1::spec_declaration());
        assert(d->Tuple_elements[2] == T2::spec_declaration());
        assert forall|x: Seq<char>| #[trigger] refers_to(d, x) implies x == T0::spec_declaration() || x == T1::spec_declaration() || x == T2::spec_declaration() || primitive_declaration(x) by {
            let i = choose|i: int| 0 <= i < 3 && d->Tuple_elements[i] == x;
        }
        lemma_describe_three::<T0, T1, T2>(Self::spec_declaration(), d);
    }

    proof fn lemma_absorbed(m: Map<Seq<char>, DefinitionView>) {
        let d = DefinitionView::Tuple { elements: seq![T0::spec_declaration(), T1::spec_declaration(), T2::spec_declaration()] };
        assert(d->Tuple_elements[0] == T0::spec_declaration());
        assert(d->Tuple_elements[1] == T1::spec_declaration());
        assert(d->Tuple_elements[2] == T2::spec_declaration());
        assert forall|x: Seq<char>| #[trigger] refers_to(d, x) implies x == T0::spec_declaration() || x == T1::spec_declaration() || x == T2::spec_declaration() || primitive_declaration(x) by {
            let i = choose|i: int| 0 <= i < 3 && d->Tuple_elements[i] == x;
        }
        lemma_absorb_three::<T0, T1, T2>(m, Self::spec_declaration(), d);
    }

    fn add_definitions_recursively(definitions: &mut Definitions) -> (r: Result<(), SchemaError>) {
        let definition = {
            let elements = vec![T0::declaration(), T1::declaration(), T2::declaration()];
            proof {
                assert(crate::model::names_view(elements@) =~= seq![T0::spec_declaration(), T1::spec_declaration(), T2::spec_declaration()]);
            }
            Definition::Tuple { elements }
        };
        proof {
            let d = DefinitionView::Tuple { elements: seq![T0::spec_declaration(), T1::spec_declaration(), T2::spec_declaration()] };
        assert(d->Tuple_elements[0] == T0::spec_declaration());
        assert(d->Tuple_elements[1] == T1::spec_declaration());
        assert(d->Tuple_elements[2] == T2::spec_declaration());
        assert forall|x: Seq<char>| #[trigger] refers_to(d, x) implies x == T0::spec_declaration() || x == T1::spec_declaration() || x == T2::spec_declaration() || primitive_declaration(x) by {
            let i = choose|i: int| 0 <= i < 3 && d->Tuple_elements[i] == x;
        }
        }
        let declaration = Self::declaration();
        proof {
            assert(own_key(Self::spec_own()) == declaration@);
            assert(own_def(Self::spec_own()) == definition@);
        }
        walk_three::<T0, T1, T2>(declaration, definition, definitions)
    }

    fn declaration() -> (r: Declaration) {
        let elements = vec![T0::declaration(), T1::declaration(), T2::declaration()];
        proof {
            assert(elements@.map_values(|e: String| e@) =~= seq![T0::spec_declaration(), T1::spec_declaration(), T2::spec_declaration()]);
        }
        tuple_declaration(elements)
    }
}

impl<T0: BorshSchema, T1: BorshSchema, T2: BorshSchema, T3: BorshSchema> BorshSchema for (T0, T1, T2, T3) {
    open spec fn spec_declaration() -> Seq<char> {
        "Tuple<"@ + joined(seq![T0::spec_declaration(), T1::spec_declaration(), T2::spec_declaration(), T3::spec_declaration()]) + ">"@
    }

    open spec fn spec_definitions() -> Map<Seq<char>, DefinitionView> {
        defs_4::<T0, T1, T2, T3>(Self::spec_declaration(), DefinitionView::Tuple { elements: seq![T0::spec_declaration(), T1::spec_declaration(), T2::spec_declaration(), T3::spec_declaration()] })
    }

    open spec fn spec_own() -> Option<(Seq<char>, DefinitionView)> {
        Some((Self::spec_declaration(), DefinitionView::Tuple { elements: seq![T0::spec_declaration(), T1::spec_declaration(), T2::spec_declaration(), T3::spec_declaration()] }))
    }

    open spec fn spec_consistent() -> bool {
        consistent_4::<T0, T1, T2, T3>(Self::spec_declaration())
    }

    proof fn lemma_described() {
        reveal_strlit("Tuple<");
        lemma_capital_not_primitive("Tuple<"@, joined(seq![T0::spec_declaration(), T1::spec_declaration(), T2::spec_declaration(), T3::spec_declaration()]) + ">"@);
        assert(Self::spec_declaration() =~= "Tuple<"@ + (joined(seq![T0::spec_declaration(), T1::spec_declaration(), T2::spec_declaration(), T3::spec_declaration()]) + ">"@));
        let d = DefinitionView::Tuple { elements: seq![T0::spec_declaration(), T1::spec_declaration(), T2::spec_declaration(), T3::spec_declaration()] };
        assert(d->Tuple_elements[0] == T0::spec_declaration());
        assert(d->Tuple_elements[1] == T1::spec_declaration());
        assert(d->Tuple_elements[2] == T2::spec_declaration());
        assert(d->Tuple_elements[3] == T3::spec_declaration());
        assert forall|x: Seq<char>| #[trigger] refers_to(d, x) implies x == T0::spec_declaration() || x == T1::spec_declaration() || x == T2::spec_declaration() || x == T3::spec_declaration() || primitive_declaration(x) by {
            let i = choose|i: int| 0 <= i < 4 && d->Tuple_elements[i] == x;
        }
        lemma_describe_4::<T0, T1, T2, T3>(Self::spec_declaration(), d);
    }

    proof fn lemma_absorbed(m: Map<Seq<char>, DefinitionView>) {
        let d = DefinitionView::Tuple { elements: seq![T0::spec_declaration(), T1::spec_declaration(), T2::spec_declaration(), T3::spec_declaration()] };
        assert(d->Tuple_elements[0] == T0::spec_declaration());
        assert(d->Tuple_elements[1] == T1::spec_declaration());
        assert(d->Tuple_elements[2] == T2::spec_declaration());
        assert(d->Tuple_elements[3] == T3::spec_declaration());
        assert forall|x: Seq<char>| #[trigger] refers_to(d, x) implies x == T0::spec_declaration() || x == T1::spec_declaration() || x == T2::spec_declaration() || x == T3::spec_declaration() || primitive_declaration(x) by {
            let i = choose|i: int| 0 <= i < 4 && d->Tuple_elements[i] == x;
        }
        lemma_absorb_4::<T0, T1, T2, T3>(m, Self::spec_declaration(), d);
    }

    fn add_definitions_recursively(definitions: &mut Definitions) -> (r: Result<(), SchemaError>) {
        let definition = {
            let elements = vec![T0::declaration(), T1::declaration(), T2::declaration(), T3::declaration()];
            proof {
                assert(crate::model::names_view(elements@) =~= seq![T0::spec_declaration(), T1::spec_declaration(), T2::spec_declaration(), T3::spec_declaration()]);
            }
            Definition::Tuple { elements }
        };
        proof {
            let d = DefinitionView::Tuple { elements: seq![T0::spec_declaration(), T1::spec_declaration(), T2::spec_declaration(), T3::spec_declaration()] };
        assert(d->Tuple_elements[0] == T0::spec_declaration());
        assert(d->Tuple_elements[1] == T1::spec_declaration());
        assert(d->Tuple_elements[2] == T2::spec_declaration());
        assert(d->Tuple_elements[3] == T3::spec_declaration());
        assert forall|x: Seq<char>| #[trigger] refers_to(d, x) implies x == T0::spec_declaration() || x == T1::spec_declaration() || x == T2::spec_declaration() || x == T3::spec_declaration() || primitive_declaration(x) by {
            let i = choose|i: int| 0 <= i < 4 && d->Tuple_elements[i] == x;
        }
        }
        let declaration = Self::declaration();
        proof {
            assert(own_key(Self::spec_own()) == declaration@);
            assert(own_def(Self::spec_own()) == definition@);
        }
        walk_4::<T0, T1, T2, T3>(declaration, definition, definitions)
    }

    fn declaration() -> (r: Declaration) {
        let elements = vec![T0::declaration(), T1::declaration(), T2::declaration(), T3::declaration()];
        proof {
            assert(elements@.map_values(|e: String| e@) =~= seq![T0::spec_declaration(), T1::spec_declaration(), T2::spec_declaration(), T3::spec_declaration()]);
        }
        tuple_declaration(elements)
    }
}

impl<T0: BorshSchema, T1: BorshSchema, T2: BorshSchema, T3: BorshSchema, T4: BorshSchema> BorshSchema for (T0, T1, T2, T3, T4) {
    open spec fn spec_declaration() -> Seq<char> {
        "Tuple<"@ + joined(seq![T0::spec_declaration(), T1::spec_declaration(), T2::spec_declaration(), T3::spec_declaration(), T4::spec_declaration()]) + ">"@
    }

    open spec fn spec_definitions() -> Map<Seq<char>, DefinitionView> {
        defs_5::<T0, T1, T2, T3, T4>(Self::spec_declaration(), DefinitionView::Tuple { elements: seq![T0::spec_declaration(), T1::spec_declaration(), T2::spec_declaration(), T3::spec_declaration(), T4::spec_declaration()] })
    }

    open spec fn spec_own() -> Option<(Seq<char>, DefinitionView)> {
        Some((Self::spec_declaration(), DefinitionView::Tuple { elements: seq![T0::spec_declaration(), T1::spec_declaration(), T2::spec_declaration(), T3::spec_declaration(), T4::spec_declaration()] }))
    }

    open spec fn spec_consistent() -> bool {
        consistent_5::<T0, T1, T2, T3, T4>(Self::spec_declaration())
    }

    proof fn lemma_described() {
        reveal_strlit("Tuple<");
        lemma_capital_not_primitive("Tuple<"@, joined(seq![T0::spec_declaration(), T1::spec_declaration(), T2::spec_declaration(), T3::spec_declaration(), T4::spec_declaration()]) + ">"@);
        assert(Self::spec_declaration() =~= "Tuple<"@ + (joined(seq![T0::spec_declaration(), T1::spec_declaration(), T2::spec_declaration(), T3::spec_declaration(), T4::spec_declaration()]) + ">"@));
        let d = DefinitionView::Tuple { elements: seq![T0::spec_declaration(), T1::spec_declaration(), T2::spec_declaration(), T3::spec_declaration(), T4::spec_declaration()] };
        assert(d->Tuple_elements[0] == T0::spec_declaration());
        assert(d->Tuple_elements[1] == T1::spec_declaration());
        assert(d->Tuple_elements[2] == T2::spec_declaration());
        assert(d->Tuple_elements[3] == T3::spec_declaration());
        assert(d->Tuple_elements[4] == T4::spec_declaration());
        assert forall|x: Seq<char>| #[trigger] refers_to(d, x) implies x == T0::spec_declaration() || x == T1::spec_declaration() || x == T2::spec_declaration() || x == T3::spec_declaration() || x == T4::spec_declaration() || primitive_declaration(x) by {
            let i = choose|i: int| 0 <= i < 5 && d->Tuple_elements[i] == x;
        }
        lemma_describe_5::<T0, T1, T2, T3, T4>(Self::spec_declaration(), d);
    }

    proof fn lemma_absorbed(m: Map<Seq<char>, DefinitionView>) {
        let d = DefinitionView::Tuple { elements: seq![T0::spec_declaration(), T1::spec_declaration(), T2::spec_declaration(), T3::spec_declaration(), T4::spec_declaration()] };
        assert(d->Tuple_elements[0] == T0::spec_declaration());
        assert(d->Tuple_elements[1] == T1::spec_declaration());
        assert(d->Tuple_elements[2] == T2::spec_declaration());
        assert(d->Tuple_elements[3] == T3::spec_declaration());
        assert(d->Tuple_elements[4] == T4::spec_declaration());
        assert forall|x: Seq<char>| #[trigger] refers_to(d, x) implies x == T0::spec_declaration() || x == T1::spec_declaration() || x == T2::spec_declaration() || x == T3::spec_declaration() || x == T4::spec_declaration() || primitive_declaration(x) by {
            let i = choose|i: int| 0 <= i < 5 && d->Tuple_elements[i] == x;
        }
        lemma_absorb_5::<T0, T1, T2, T3, T4>(m, Self::spec_declaration(), d);
    }

    fn add_definitions_recursively(definitions: &mut Definitions) -> (r: Result<(), SchemaError>) {
        let definition = {
            let elements = vec![T0::declaration(), T1::declaration(), T2::declaration(), T3::declaration(), T4::declaration()];
            proof {
                assert(crate::model::names_view(elements@) =~= seq![T0::spec_declaration(), T1::spec_declaration(), T2::spec_declaration(), T3::spec_declaration(), T4::spec_declaration()]);
            }
            Definition::Tuple { elements }
        };
        proof {
            let d = DefinitionView::Tuple { elements: seq![T0::spec_declaration(), T1::spec_declaration(), T2::spec_declaration(), T3::spec_declaration(), T4::spec_declaration()] };
        assert(d->Tuple_elements[0] == T0::spec_declaration());
        assert(d->Tuple_elements[1] == T1::spec_declaration());
        assert(d->Tuple_elements[2] == T2::spec_declaration());
        assert(d->Tuple_elements[3] == T3::spec_declaration());
        assert(d->Tuple_elements[4] == T4::spec_declaration());
        assert forall|x: Seq<char>| #[trigger] refers_to(d, x) implies x == T0::spec_declaration() || x == T1::spec_declaration() || x == T2::spec_declaration() || x == T3::spec_declaration() || x == T4::spec_declaration() || primitive_declaration(x) by {
            let i = choose|i: int| 0 <= i < 5 && d->Tuple_elements[i] == x;
        }
        }
        let declaration = Self::declaration();
        proof {
            assert(own_key(Self::spec_own()) == declaration@);
            assert(own_def(Self::spec_own()) == definition@);
        }
        walk_5::<T0, T1, T2, T3, T4>(declaration, definition, definitions)
    }

    fn declaration() -> (r: Declaration) {
        let elements = vec![T0::declaration(), T1::declaration(), T2::declaration(), T3::declaration(), T4::declaration()];
        proof {
            assert(elements@.map_values(|e: String| e@) =~= seq![T0::spec_declaration(), T1::spec_declaration(), T2::spec_declaration(), T3::spec_declaration(), T4::spec_declaration()]);
        }
        tuple_declaration(elements)
    }
}

impl<T0: BorshSchema, T1: BorshSchema, T2: BorshSchema, T3: BorshSchema, T4: BorshSchema, T5: BorshSchema> BorshSchema for (T0, T1, T2, T3, T4, T5) {
    open spec fn spec_declaration() -> Seq<char> {
        "Tuple<"@ + joined(seq![T0::spec_declaration(), T1::spec_declaration(), T2::spec_declaration(), T3::spec_declaration(), T4::spec_declaration(), T5::spec_declaration()]) + ">"@
    }

    open spec fn spec_definitions() -> Map<Seq<char>, DefinitionView> {
        defs_6::<T0, T1, T2, T3, T4, T5>(Self::spec_declaration(), DefinitionView::Tuple { elements: seq![T0::spec_declaration(), T1::spec_declaration(), T2::spec_declaration(), T3::spec_declaration(), T4::spec_declaration(), T5::spec_declaration()] })
    }

    open spec fn spec_own() -> Option<(Seq<char>, DefinitionView)> {
        Some((Self::spec_declaration(), DefinitionView::Tuple { elements: seq![T0::spec_declaration(), T1::spec_declaration(), T2::spec_declaration(), T3::spec_declaration(), T4::spec_declaration(), T5::spec_declaration()] }))
    }

    open spec fn spec_consistent() -> bool {
        consistent_6::<T0, T1, T2, T3, T4, T5>(Self::spec_declaration())
    }

    proof fn lemma_described() {
        reveal_strlit("Tuple<");
        lemma_capital_not_primitive("Tuple<"@, joined(seq![T0::spec_declaration(), T1::spec_declaration(), T2::spec_declaration(), T3::spec_declaration(), T4::spec_declaration(), T5::spec_declaration()]) + ">"@);
        assert(Self::spec_declaration() =~= "Tuple<"@ + (joined(seq![T0::spec_declaration(), T1::spec_declaration(), T2::spec_declaration(), T3::spec_declaration(), T4::spec_declaration(), T5::spec_declaration()]) + ">"@));
        let d = DefinitionView::Tuple { elements: seq![T0::spec_declaration(), T1::spec_declaration(), T2::spec_declaration(), T3::spec_declaration(), T4::spec_declaration(), T5::spec_declaration()] };
        assert(d->Tuple_elements[0] == T0::spec_declaration());
        assert(d->Tuple_elements[1] == T1::spec_declaration());
        assert(d->Tuple_elements[2] == T2::spec_declaration());
        assert(d->Tuple_elements[3] == T3::spec_declaration());
        assert(d->Tuple_elements[4] == T4::spec_declaration());
        assert(d->Tuple_elements[5] == T5::spec_declaration());
        assert forall|x: Seq<char>| #[trigger] refers_to(d, x) implies x == T0::spec_declaration() || x == T1::spec_declaration() || x == T2::spec_declaration() || x == T3::spec_declaration() || x == T4::spec_declaration() || x == T5::spec_declaration() || primitive_declaration(x) by {
            let i = choose|i: int| 0 <= i < 6 && d->Tuple_elements[i] == x;
        }
        lemma_describe_6::<T0, T1, T2, T3, T4, T5>(Self::spec_declaration(), d);
    }

    proof fn lemma_absorbed(m: Map<Seq<char>, DefinitionView>) {
        let d = DefinitionView::Tuple { elements: seq![T0::spec_declaration(), T1::spec_declaration(), T2::spec_declaration(), T3::spec_declaration(), T4::spec_declaration(), T5::spec_declaration()] };
        assert(d->Tuple_elements[0] == T0::spec_declaration());
        assert(d->Tuple_elements[1] == T1::spec_declaration());
        assert(d->Tuple_elements[2] == T2::spec_declaration());
        assert(d->Tuple_elements[3] == T3::spec_declaration());
        assert(d->Tuple_elements[4] == T4::spec_declaration());
        assert(d->Tuple_elements[5] == T5::spec_declaration());
        assert forall|x: Seq<char>| #[trigger] refers_to(d, x) implies x == T0::spec_declaration() || x == T1::spec_declaration() || x == T2::spec_declaration() || x == T3::spec_declaration() || x == T4::spec_declaration() || x == T5::spec_declaration() || primitive_declaration(x) by {
            let i = choose|i: int| 0 <= i < 6 && d->Tuple_elements[i] == x;
        }
        lemma_absorb_6::<T0, T1, T2, T3, T4, T5>(m, Self::spec_declaration(), d);
    }

    fn add_definitions_recursively(definitions: &mut Definitions) -> (r: Result<(), SchemaError>) {
        let definition = {
            let elements = vec![T0::declaration(), T1::declaration(), T2::declaration(), T3::declaration(), T4::declaration(), T5::declaration()];
            proof {
                assert(crate::model::names_view(elements@) =~= seq![T0::spec_declaration(), T1::spec_declaration(), T2::spec_declaration(), T3::spec_declaration(), T4::spec_declaration(), T5::spec_declaration()]);
            }
            Definition::Tuple { elements }
        };
        proof {
            let d = DefinitionView::Tuple { elements: seq![T0::spec_declaration(), T1::spec_declaration(), T2::spec_declaration(), T3::spec_declaration(), T4::spec_declaration(), T5::spec_declaration()] };
        assert(d->Tuple_elements[0] == T0::spec_declaration());
        assert(d->Tuple_elements[1] == T1::spec_declaration());
        assert(d->Tuple_elements[2] == T2::spec_declaration());
        assert(d->Tuple_elements[3] == T3::spec_declaration());
        assert(d->Tuple_elements[4] == T4::spec_declaration());
        assert(d->Tuple_elements[5] == T5::spec_declaration());
        assert forall|x: Seq<char>| #[trigger] refers_to(d, x) implies x == T0::spec_declaration() || x == T1::spec_declaration() || x == T2::spec_declaration() || x == T3::spec_declaration() || x == T4::spec_declaration() || x == T5::spec_declaration() || primitive_declaration(x) by {
            let i = choose|i: int| 0 <= i < 6 && d->Tuple_elements[i] == x;
        }
        }
        let declaration = Self::declaration();
        proof {
            assert(own_key(Self::spec_own()) == declaration@);
            assert(own_def(Self::spec_own()) == definition@);
        }
        walk_6::<T0, T1, T2, T3, T4, T5>(declaration, definition, definitions)
    }

    fn declaration() -> (r: Declaration) {
        let elements = vec![T0::declaration(), T1::declaration(), T2::declaration(), T3::declaration(), T4::declaration(), T5::declaration()];
        proof {
            assert(elements@.map_values(|e: String| e@) =~= seq![T0::spec_declaration(), T1::spec_declaration(), T2::spec_declaration(), T3::spec_declaration(), T4::spec_declaration(), T5::spec_declaration()]);
        }
        tuple_declaration(elements)
    }
}

impl<T0: BorshSchema, T1: BorshSchema, T2: BorshSchema, T3: BorshSchema, T4: BorshSchema, T5: BorshSchema, T6: BorshSchema> BorshSchema for (T0, T1, T2, T3, T4, T5, T6) {
    open spec fn spec_declaration() -> Seq<char> {
        "Tuple<"@ + joined(seq![T0::spec_declaration(), T1::spec_declaration(), T2::spec_declaration(), T3::spec_declaration(), T4::spec_declaration(), T5::spec_declaration(), T6::spec_declaration()]) + ">"@
    }

    open spec fn spec_definitions() -> Map<Seq<char>, DefinitionView> {
        defs_7::<T0, T1, T2, T3, T4, T5, T6>(Self::spec_declaration(), DefinitionView::Tuple { elements: seq![T0::spec_declaration(), T1::spec_declaration(), T2::spec_declaration(), T3::spec_declaration(), T4::spec_declaration(), T5::spec_declaration(), T6::spec_declaration()] })
    }

    open spec fn spec_own() -> Option<(Seq<char>, DefinitionView)> {
        Some((Self::spec_declaration(), DefinitionView::Tuple { elements: seq![T0::spec_declaration(), T1::spec_declaration(), T2::spec_declaration(), T3::spec_declaration(), T4::spec_declaration(), T5::spec_declaration(), T6::spec_declaration()] }))
    }

    open spec fn spec_consistent() -> bool {
        consistent_7::<T0, T1, T2, T3, T4, T5, T6>(Self::spec_declaration())
    }

    proof fn lemma_described() {
        reveal_strlit("Tuple<");
        lemma_capital_not_primitive("Tuple<"@, joined(seq![T0::spec_declaration(), T1::spec_declaration(), T2::spec_declaration(), T3::spec_declaration(), T4::spec_declaration(), T5::spec_declaration(), T6::spec_declaration()]) + ">"@);
        assert(Self::spec_declaration() =~= "Tuple<"@ + (joined(seq![T0::spec_declaration(), T1::spec_declaration(), T2::spec_declaration(), T3::spec_declaration(), T4::spec_declaration(), T5::spec_declaration(), T6::spec_declaration()]) + ">"@));
        let d = DefinitionView::Tuple { elements: seq![T0::spec_declaration(), T1::spec_declaration(), T2::spec_declaration(), T3::spec_declaration(), T4::spec_declaration(), T5::spec_declaration(), T6::spec_declaration()] };
        assert(d->Tuple_elements[0] == T0::spec_declaration());
        assert(d->Tuple_elements[1] == T1::spec_declaration());
        assert(d->Tuple_elements[2] == T2::spec_declaration());
        assert(d->Tuple_elements[3] == T3::spec_declaration());
        assert(d->Tuple_elements[4] == T4::spec_declaration());
        assert(d->Tuple_elements[5] == T5::spec_declaration());
        assert(d->Tuple_elements[6] == T6::spec_declaration());
        assert forall|x: Seq<char>| #[trigger] refers_to(d, x) implies x == T0::spec_declaration() || x == T1::spec_declaration() || x == T2::spec_declaration() || x == T3::spec_declaration() || x == T4::spec_declaration() || x == T5::spec_declaration() || x == T6::spec_declaration() || primitive_declaration(x) by {
            let i = choose|i: int| 0 <= i < 7 && d->Tuple_elements[i] == x;
        }
        lemma_describe_7::<T0, T1, T2, T3, T4, T5, T6>(Self::spec_declaration(), d);
    }

    proof fn lemma_absorbed(m: Map<Seq<char>, DefinitionView>) {
        let d = DefinitionView::Tuple { elements: seq![T0::spec_declaration(), T1::spec_declaration(), T2::spec_declaration(), T3::spec_declaration(), T4::spec_declaration(), T5::spec_declaration(), T6::spec_declaration()] };
        assert(d->Tuple_elements[0] == T0::spec_declaration());
        assert(d->Tuple_elements[1] == T1::spec_declaration());
        assert(d->Tuple_elements[2] == T2::spec_declaration());
        assert(d->Tuple_elements[3] == T3::spec_declaration());
        assert(d->Tuple_elements[4] == T4::spec_declaration());
        assert(d->Tuple_elements[5] == T5::spec_declaration());
        assert(d->Tuple_elements[6] == T6::spec_declaration());
        assert forall|x: Seq<char>| #[trigger] refers_to(d, x) implies x == T0::spec_declaration() || x == T1::spec_declaration() || x == T2::spec_declaration() || x == T3::spec_declaration() || x == T4::spec_declaration() || x == T5::spec_declaration() || x == T6::spec_declaration() || primitive_declaration(x) by {
            let i = choose|i: int| 0 <= i < 7 && d->Tuple_elements[i] == x;
        }
        lemma_absorb_7::<T0, T1, T2, T3, T4, T5, T6>(m, Self::spec_declaration(), d);
    }

    fn add_definitions_recursively(definitions: &mut Definitions) -> (r: Result<(), SchemaError>) {
        let definition = {
            let elements = vec![T0::declaration(), T1::declaration(), T2::declaration(), T3::declaration(), T4::declaration(), T5::declaration(), T6::declaration()];
            proof {
                assert(crate::model::names_view(elements@) =~= seq![T0::spec_declaration(), T1::spec_declaration(), T2::spec_declaration(), T3::spec_declaration(), T4::spec_declaration(), T5::spec_declaration(), T6::spec_declaration()]);
            }
            Definition::Tuple { elements }
        };
        proof {
            let d = DefinitionView::Tuple { elements: seq![T0::spec_declaration(), T1::spec_declaration(), T2::spec_declaration(), T3::spec_declaration(), T4::spec_declaration(), T5::spec_declaration(), T6::spec_declaration()] };
        assert(d->Tuple_elements[0] == T0::spec_declaration());
        assert(d->Tuple_elements[1] == T1::spec_declaration());
        assert(d->Tuple_elements[2] == T2::spec_declaration());
        assert(d->Tuple_elements[3] == T3::spec_declaration());
        assert(d->Tuple_elements[4] == T4::spec_declaration());
        assert(d->Tuple_elements[5] == T5::spec_declaration());
        assert(d->Tuple_elements[6] == T6::spec_declaration());
        assert forall|x: Seq<char>| #[trigger] refers_to(d, x) implies x == T0::spec_declaration() || x == T1::spec_declaration() || x == T2::spec_declaration() || x == T3::spec_declaration() || x == T4::spec_declaration() || x == T5::spec_declaration() || x == T6::spec_declaration() || primitive_declaration(x) by {
            let i = choose|i: int| 0 <= i < 7 && d->Tuple_elements[i] == x;
        }
        }
        let declaration = Self::declaration();
        proof {
            assert(own_key(Self::spec_own()) == declaration@);
            assert(own_def(Self::spec_own()) == definition@);
        }
        walk_7::<T0, T1, T2, T3, T4, T5, T6>(declaration, definition, definitions)
    }

    fn declaration() -> (r: Declaration) {
        let elements = vec![T0::declaration(), T1::declaration(), T2::declaration(), T3::declaration(), T4::declaration(), T5::declaration(), T6::declaration()];
        proof {
            assert(elements@.map_values(|e: String| e@) =~= seq![T0::spec_declaration(), T1::spec_declaration(), T2::spec_declaration(), T3::spec_declaration(), T4::spec_declaration(), T5::spec_declaration(), T6::spec_declaration()]);
        }
        tuple_declaration(elements)
    }
}

impl<T0: BorshSchema, T1: BorshSchema, T2: BorshSchema, T3: BorshSchema, T4: BorshSchema, T5: BorshSchema, T6: BorshSchema, T7: BorshSchema> BorshSchema for (T0, T1, T2, T3, T4, T5, T6, T7) {
    open spec fn spec_declaration() -> Seq<char> {
        "Tuple<"@ + joined(seq![T0::spec_declaration(), T1::spec_declaration(), T2::spec_declaration(), T3::spec_declaration(), T4::spec_declaration(), T5::spec_declaration(), T6::spec_declaration(), T7::spec_declaration()]) + ">"@
    }

    open spec fn spec_definitions() -> Map<Seq<char>, DefinitionView> {
        defs_8::<T0, T1, T2, T3, T4, T5, T6, T7>(Self::spec_declaration(), DefinitionView::Tuple { elements: seq![T0::spec_declaration(), T1::spec_declaration(), T2::spec_declaration(), T3::spec_declaration(), T4::spec_declaration(), T5::spec_declaration(), T6::spec_declaration(), T7::spec_declaration()] })
    }

    open spec fn spec_own() -> Option<(Seq<char>, DefinitionView)> {
        Some((Self::spec_declaration(), DefinitionView::Tuple { elements: seq![T0::spec_declaration(), T1::spec_declaration(), T2::spec_declaration(), T3::spec_declaration(), T4::spec_declaration(), T5::spec_declaration(), T6::spec_declaration(), T7::spec_declaration()] }))
    }

    open spec fn spec_consistent() -> bool {
        consistent_8::<T0, T1, T2, T3, T4, T5, T6, T7>(Self::spec_declaration())
    }

    proof fn lemma_described() {
        reveal_strlit("Tuple<");
        lemma_capital_not_primitive("Tuple<"@, joined(seq![T0::spec_declaration(), T1::spec_declaration(), T2::spec_declaration(), T3::spec_declaration(), T4::spec_declaration(), T5::spec_declaration(), T6::spec_declaration(), T7::spec_declaration()]) + ">"@);
        assert(Self::spec_declaration() =~= "Tuple<"@ + (joined(seq![T0::spec_declaration(), T1::spec_declaration(), T2::spec_declaration(), T3::spec_declaration(), T4::spec_declaration(), T5::spec_declaration(), T6::spec_declaration(), T7::spec_declaration()]) + ">"@));
        let d = DefinitionView::Tuple { elements: seq![T0::spec_declaration(), T1::spec_declaration(), T2::spec_declaration(), T3::spec_declaration(), T4::spec_declaration(), T5::spec_declaration(), T6::spec_declaration(), T7::spec_declaration()] };
        assert(d->Tuple_elements[0] == T0::spec_declaration());
        assert(d->Tuple_elements[1] == T1::spec_declaration());
        assert(d->Tuple_elements[2] == T2::spec_declaration());
        assert(d->Tuple_elements[3] == T3::spec_declaration());
        assert(d->Tuple_elements[4] == T4::spec_declaration());
        assert(d->Tuple_elements[5] == T5::spec_declaration());
        assert(d->Tuple_elements[6] == T6::spec_declaration());
        assert(d->Tuple_elements[7] == T7::spec_declaration());
        assert forall|x: Seq<char>| #[trigger] refers_to(d, x) implies x == T0::spec_declaration() || x == T1::spec_declaration() || x == T2::spec_declaration() || x == T3::spec_declaration() || x == T4::spec_declaration() || x == T5::spec_declaration() || x == T6::spec_declaration() || x == T7::spec_declaration() || primitive_declaration(x) by {
            let i = choose|i: int| 0 <= i < 8 && d->Tuple_elements[i] == x;
        }
        lemma_describe_8::<T0, T1, T2, T3, T4, T5, T6, T7>(Self::spec_declaration(), d);
    }

    proof fn lemma_absorbed(m: Map<Seq<char>, DefinitionView>) {
        let d = DefinitionView::Tuple { elements: seq![T0::spec_declaration(), T1::spec_declaration(), T2::spec_declaration(), T3::spec_declaration(), T4::spec_declaration(), T5::spec_declaration(), T6::spec_declaration(), T7::spec_declaration()] };
        assert(d->Tuple_elements[0] == T0::spec_declaration());
        assert(d->Tuple_elements[1] == T1::spec_declaration());
        assert(d->Tuple_elements[2] == T2::spec_declaration());
        assert(d->Tuple_elements[3] == T3::spec_declaration());
        assert(d->Tuple_elements[4] == T4::spec_declaration());
        assert(d->Tuple_elements[5] == T5::spec_declaration());
        assert(d->Tuple_elements[6] == T6::spec_declaration());
        assert(d->Tuple_elements[7] == T7::spec_declaration());
        assert forall|x: Seq<char>| #[trigger] refers_to(d, x) implies x == T0::spec_declaration() || x == T1::spec_declaration() || x == T2::spec_declaration() || x == T3::spec_declaration() || x == T4::spec_declaration() || x == T5::spec_declaration() || x == T6::spec_declaration() || x == T7::spec_declaration() || primitive_declaration(x) by {
            let i = choose|i: int| 0 <= i < 8 && d->Tuple_elements[i] == x;
        }
        lemma_absorb_8::<T0, T1, T2, T3, T4, T5, T6, T7>(m, Self::spec_declaration(), d);
    }

    fn add_definitions_recursively(definitions: &mut Definitions) -> (r: Result<(), SchemaError>) {
        let definition = {
            let elements = vec![T0::declaration(), T1::declaration(), T2::declaration(), T3::declaration(), T4::declaration(), T5::declaration(), T6::declaration(), T7::declaration()];
            proof {
                assert(crate::model::names_view(elements@) =~= seq![T0::spec_declaration(), T1::spec_declaration(), T2::spec_declaration(), T3::spec_declaration(), T4::spec_declaration(), T5::spec_declaration(), T6::spec_declaration(), T7::spec_declaration()]);
            }
            Definition::Tuple { elements }
        };
        proof {
            let d = DefinitionView::Tuple { elements: seq![T0::spec_declaration(), T1::spec_declaration(), T2::spec_declaration(), T3::spec_declaration(), T4::spec_declaration(), T5::spec_declaration(), T6::spec_declaration(), T7::spec_declaration()] };
        assert(d->Tuple_elements[0] == T0::spec_declaration());
        assert(d->Tuple_elements[1] == T1::spec_declaration());
        assert(d->Tuple_elements[2] == T2::spec_declaration());
        assert(d->Tuple_elements[3] == T3::spec_declaration());
        assert(d->Tuple_elements[4] == T4::spec_declaration());
        assert(d->Tuple_elements[5] == T5::spec_declaration());
        assert(d->Tuple_elements[6] == T6::spec_declaration());
        assert(d->Tuple_elements[7] == T7::spec_declaration());
        assert forall|x: Seq<char>| #[trigger] refers_to(d, x) implies x == T0::spec_declaration() || x == T1::spec_declaration() || x == T2::spec_declaration() || x == T3::spec_declaration() || x == T4::spec_declaration() || x == T5::spec_declaration() || x == T6::spec_declaration() || x == T7::spec_declaration() || primitive_declaration(x) by {
            let i = choose|i: int| 0 <= i < 8 && d->Tuple_elements[i] == x;
        }
        }
        let declaration = Self::declaration();
        proof {
            assert(own_key(Self::spec_own()) == declaration@);
            assert(own_def(Self::spec_own()) == definition@);
        }
        walk_8::<T0, T1, T2, T3, T4, T5, T6, T7>(declaration, definition, definitions)
    }

    fn declaration() -> (r: Declaration) {
        let elements = vec![T0::declaration(), T1::declaration(), T2::declaration(), T3::declaration(), T4::declaration(), T5::declaration(), T6::declaration(), T7::declaration()];
        proof {
            assert(elements@.map_values(|e: String| e@) =~= seq![T0::spec_declaration(), T1::spec_declaration(), T2::spec_declaration(), T3::spec_declaration(), T4::spec_declaration(), T5::spec_declaration(), T6::spec_declaration(), T7::spec_declaration()]);
        }
        tuple_declaration(elements)
    }
}

} // verus!
