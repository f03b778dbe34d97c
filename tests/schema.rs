use borsh::{BorshSchema, Definition, Definitions};
use std::collections::{BTreeMap, BTreeSet, HashMap, HashSet};
use std::marker::PhantomData;

fn map_of(entries: Vec<(&str, Definition)>) -> Definitions {
    let mut m = Definitions::new();
    for (k, v) in entries {
        <()>::add_definition(k.to_string(), v, &mut m).unwrap();
    }
    m
}

#[test]
fn simple_option() {
    let actual_name = Option::<u64>::declaration();
    let mut actual_defs = Definitions::new();
    Option::<u64>::add_definitions_recursively(&mut actual_defs).unwrap();
    assert_eq!("Option<u64>", actual_name);
    assert_eq!(
        map_of(vec![(
            "Option<u64>",
            Definition::Enum {
                variants: vec![
                    ("None".to_string(), "nil".to_string()),
                    ("Some".to_string(), "u64".to_string()),
                ]
            }
        )]),
        actual_defs
    );
}

#[test]
fn nested_option() {
    let actual_name = Option::<Option<u64>>::declaration();
    let mut actual_defs = Definitions::new();
    Option::<Option<u64>>::add_definitions_recursively(&mut actual_defs).unwrap();
    assert_eq!("Option<Option<u64>>", actual_name);
    assert_eq!(
        map_of(vec![
            (
                "Option<u64>",
                Definition::Enum {
                    variants: vec![
                        ("None".to_string(), "nil".to_string()),
                        ("Some".to_string(), "u64".to_string()),
                    ]
                }
            ),
            (
                "Option<Option<u64>>",
                Definition::Enum {
                    variants: vec![
                        ("None".to_string(), "nil".to_string()),
                        ("Some".to_string(), "Option<u64>".to_string()),
                    ]
                }
            ),
        ]),
        actual_defs
    );
}

#[test]
fn simple_vec() {
    let actual_name = Vec::<u64>::declaration();
    let mut actual_defs = Definitions::new();
    Vec::<u64>::add_definitions_recursively(&mut actual_defs).unwrap();
    assert_eq!("Vec<u64>", actual_name);
    assert_eq!(
        map_of(vec![("Vec<u64>", Definition::Sequence { elements: "u64".to_string() })]),
        actual_defs
    );
}

#[test]
fn nested_vec() {
    let actual_name = Vec::<Vec<u64>>::declaration();
    let mut actual_defs = Definitions::new();
    Vec::<Vec<u64>>::add_definitions_recursively(&mut actual_defs).unwrap();
    assert_eq!("Vec<Vec<u64>>", actual_name);
    assert_eq!(
        map_of(vec![
            ("Vec<u64>", Definition::Sequence { elements: "u64".to_string() }),
            ("Vec<Vec<u64>>", Definition::Sequence { elements: "Vec<u64>".to_string() }),
        ]),
        actual_defs
    );
}

#[test]
fn simple_tuple() {
    let actual_name = <(u64, String)>::declaration();
    let mut actual_defs = Definitions::new();
    <(u64, String)>::add_definitions_recursively(&mut actual_defs).unwrap();
    assert_eq!("Tuple<u64, string>", actual_name);
    assert_eq!(
        map_of(vec![(
            "Tuple<u64, string>",
            Definition::Tuple { elements: vec!["u64".to_string(), "string".to_string()] }
        )]),
        actual_defs
    );
}

#[test]
fn nested_tuple() {
    let actual_name = <(u64, (u8, bool), String)>::declaration();
    let mut actual_defs = Definitions::new();
    <(u64, (u8, bool), String)>::add_definitions_recursively(&mut actual_defs).unwrap();
    assert_eq!("Tuple<u64, Tuple<u8, bool>, string>", actual_name);
    assert_eq!(
        map_of(vec![
            (
                "Tuple<u64, Tuple<u8, bool>, string>",
                Definition::Tuple {
                    elements: vec![
                        "u64".to_string(),
                        "Tuple<u8, bool>".to_string(),
                        "string".to_string(),
                    ]
                }
            ),
            (
                "Tuple<u8, bool>",
                Definition::Tuple { elements: vec!["u8".to_string(), "bool".to_string()] }
            ),
        ]),
        actual_defs
    );
}

#[test]
fn simple_map() {
    let actual_name = HashMap::<u64, String>::declaration();
    let mut actual_defs = Definitions::new();
    HashMap::<u64, String>::add_definitions_recursively(&mut actual_defs).unwrap();
    assert_eq!("HashMap<u64, string>", actual_name);
    assert_eq!(
        map_of(vec![
            (
                "HashMap<u64, string>",
                Definition::Sequence { elements: "Tuple<u64, string>".to_string() }
            ),
            (
                "Tuple<u64, string>",
                Definition::Tuple { elements: vec!["u64".to_string(), "string".to_string()] }
            ),
        ]),
        actual_defs
    );
}

#[test]
fn simple_set() {
    let actual_name = HashSet::<String>::declaration();
    let mut actual_defs = Definitions::new();
    HashSet::<String>::add_definitions_recursively(&mut actual_defs).unwrap();
    assert_eq!("HashSet<string>", actual_name);
    assert_eq!(
        map_of(vec![("HashSet<string>", Definition::Sequence { elements: "string".to_string() })]),
        actual_defs
    );
}

#[test]
fn b_tree_map() {
    let actual_name = BTreeMap::<u64, String>::declaration();
    let mut actual_defs = Definitions::new();
    BTreeMap::<u64, String>::add_definitions_recursively(&mut actual_defs).unwrap();
    assert_eq!("BTreeMap<u64, string>", actual_name);
    assert_eq!(
        map_of(vec![
            (
                "BTreeMap<u64, string>",
                Definition::Sequence { elements: "Tuple<u64, string>".to_string() }
            ),
            (
                "Tuple<u64, string>",
                Definition::Tuple { elements: vec!["u64".to_string(), "string".to_string()] }
            ),
        ]),
        actual_defs
    );
}

#[test]
fn b_tree_set() {
    let actual_name = BTreeSet::<String>::declaration();
    let mut actual_defs = Definitions::new();
    BTreeSet::<String>::add_definitions_recursively(&mut actual_defs).unwrap();
    assert_eq!("BTreeSet<string>", actual_name);
    assert_eq!(
        map_of(vec![("BTreeSet<string>", Definition::Sequence { elements: "string".to_string() })]),
        actual_defs
    );
}

#[test]
fn simple_array() {
    let actual_name = <[u64; 32]>::declaration();
    let mut actual_defs = Definitions::new();
    <[u64; 32]>::add_definitions_recursively(&mut actual_defs).unwrap();
    assert_eq!("Array<u64, 32>", actual_name);
    assert_eq!(
        map_of(vec![(
            "Array<u64, 32>",
            Definition::Array { length: 32, elements: "u64".to_string() }
        )]),
        actual_defs
    );
}

#[test]
fn nested_array() {
    let actual_name = <[[[u64; 9]; 10]; 32]>::declaration();
    let mut actual_defs = Definitions::new();
    <[[[u64; 9]; 10]; 32]>::add_definitions_recursively(&mut actual_defs).unwrap();
    assert_eq!("Array<Array<Array<u64, 9>, 10>, 32>", actual_name);
    assert_eq!(
        map_of(vec![
            ("Array<u64, 9>", Definition::Array { length: 9, elements: "u64".to_string() }),
            (
                "Array<Array<u64, 9>, 10>",
                Definition::Array { length: 10, elements: "Array<u64, 9>".to_string() }
            ),
            (
                "Array<Array<Array<u64, 9>, 10>, 32>",
                Definition::Array { length: 32, elements: "Array<Array<u64, 9>, 10>".to_string() }
            ),
        ]),
        actual_defs
    );
}

#[test]
fn string() {
    let actual_name = str::declaration();
    assert_eq!("string", actual_name);
    let actual_name = String::declaration();
    assert_eq!("string", actual_name);
    let mut actual_defs = Definitions::new();
    String::add_definitions_recursively(&mut actual_defs).unwrap();
    assert_eq!(map_of(vec![]), actual_defs);
}

#[test]
fn boxed_schema() {
    let boxed_declaration = Box::<str>::declaration();
    assert_eq!("string", boxed_declaration);
    let boxed_declaration = Box::<[u8]>::declaration();
    assert_eq!("Vec<u8>", boxed_declaration);
}

#[test]
fn phantom_data_schema() {
    let phantom_declaration = PhantomData::<String>::declaration();
    assert_eq!("nil", phantom_declaration);
    let phantom_declaration = PhantomData::<Vec<u8>>::declaration();
    assert_eq!("nil", phantom_declaration);
}

#[test]
fn conflicting_definition_is_refused() {
    let mut defs = Definitions::new();
    let first = <()>::add_definition(
        "Thing".to_string(),
        Definition::Sequence { elements: "u8".to_string() },
        &mut defs,
    );
    assert_eq!(first, Ok(()));
    let same = <()>::add_definition(
        "Thing".to_string(),
        Definition::Sequence { elements: "u8".to_string() },
        &mut defs,
    );
    assert_eq!(same, Ok(()));
    assert_eq!(defs.len(), 1);
    let other = <()>::add_definition(
        "Thing".to_string(),
        Definition::Sequence { elements: "u16".to_string() },
        &mut defs,
    );
    assert_eq!(other, Err(borsh::SchemaError::SchemaConflict));
    assert_eq!(
        defs.get(&"Thing".to_string()),
        Some(&Definition::Sequence { elements: "u8".to_string() })
    );
}

#[test]
fn walk_into_conflicting_map_fails() {
    let mut defs = map_of(vec![("Vec<u64>", Definition::Sequence { elements: "u32".to_string() })]);
    assert_eq!(
        Vec::<Vec<u64>>::add_definitions_recursively(&mut defs),
        Err(borsh::SchemaError::SchemaConflict)
    );
}

#[test]
fn schema_container_of_result() {
    let c = Result::<u8, Vec<u16>>::schema_container().unwrap();
    assert_eq!(c.declaration, "Result<u8, Vec<u16>>");
    assert_eq!(
        c.definitions,
        map_of(vec![
            (
                "Result<u8, Vec<u16>>",
                Definition::Enum {
                    variants: vec![
                        ("Ok".to_string(), "u8".to_string()),
                        ("Err".to_string(), "Vec<u16>".to_string()),
                    ]
                }
            ),
            ("Vec<u16>", Definition::Sequence { elements: "u16".to_string() }),
        ])
    );
}

#[test]
fn declaration_is_repeatable() {
    let first = HashMap::<u64, Vec<String>>::declaration();
    let _ = Option::<u8>::schema_container();
    let second = HashMap::<u64, Vec<String>>::declaration();
    assert_eq!(first, second);
    assert_eq!(first, "HashMap<u64, Vec<string>>");
}

#[test]
fn schema_container_is_complete() {
    let c = Vec::<(u8, Option<[u16; 3]>)>::schema_container().unwrap();
    assert_eq!(c.declaration, "Vec<Tuple<u8, Option<Array<u16, 3>>>>");
    for d in ["Tuple<u8, Option<Array<u16, 3>>>", "Option<Array<u16, 3>>", "Array<u16, 3>"] {
        assert!(c.definitions.contains_key(&d.to_string()));
    }
    assert_eq!(c.definitions.len(), 4);
}

#[test]
fn single_element_tuple_declaration() {
    assert_eq!(<(u32,)>::declaration(), "Tuple<u32>");
    assert_eq!(<[u8; 1000]>::declaration(), "Array<u8, 1000>");
    assert_eq!(<usize>::declaration(), "u64");
    assert_eq!(<isize>::declaration(), "i64");
    assert_eq!(<()>::declaration(), "nil");
}

#[test]
fn walk_stops_at_an_equal_entry() {
    let mut defs =
        map_of(vec![("Vec<Vec<u64>>", Definition::Sequence { elements: "Vec<u64>".to_string() })]);
    assert_eq!(Vec::<Vec<u64>>::add_definitions_recursively(&mut defs), Ok(()));
    assert_eq!(
        defs,
        map_of(vec![("Vec<Vec<u64>>", Definition::Sequence { elements: "Vec<u64>".to_string() })])
    );
    assert_eq!(defs.len(), 1);
}

#[test]
fn walk_of_shared_constituent_adds_it_once() {
    let c = <(Vec<u8>, Option<Vec<u8>>)>::schema_container().unwrap();
    assert_eq!(c.definitions.len(), 3);
    assert!(c.definitions.contains_key(&"Vec<u8>".to_string()));
}

#[test]
fn wide_tuple_schema() {
    let c = <(u8, u16, u32, u64, Vec<u8>)>::schema_container().unwrap();
    assert_eq!(c.declaration, "Tuple<u8, u16, u32, u64, Vec<u8>>");
    assert_eq!(
        c.definitions,
        map_of(vec![
            (
                "Tuple<u8, u16, u32, u64, Vec<u8>>",
                Definition::Tuple {
                    elements: vec![
                        "u8".to_string(),
                        "u16".to_string(),
                        "u32".to_string(),
                        "u64".to_string(),
                        "Vec<u8>".to_string(),
                    ]
                }
            ),
            ("Vec<u8>", Definition::Sequence { elements: "u8".to_string() }),
        ])
    );
    assert_eq!(
        <(u8, u8, u8, u8, u8, u8, u8, bool)>::declaration(),
        "Tuple<u8, u8, u8, u8, u8, u8, u8, bool>"
    );
}
