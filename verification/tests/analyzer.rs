use elm_analyzer::ast::{AdtExposing, Exposing, Type};
use elm_analyzer::errors::TypeError;
use elm_analyzer::loader::Declaration;
use elm_analyzer::module_analyser::{
    analyze_adt, analyze_port, analyze_type_alias, get_exposed_decls, get_type_variables,
};

fn var(name: &str) -> Type {
    Type::Var(name.to_string())
}

fn tag(name: &str) -> Type {
    Type::Tag(name.to_string(), vec![])
}

#[test]
fn check_type_alias_base() {
    let ty = Type::Unit;
    assert_eq!(
        analyze_type_alias("A", &vec![], &ty),
        Ok(vec![Declaration::Alias("A".to_string(), Type::Unit)])
    );
}

#[test]
fn check_type_alias_1_var() {
    let ty = var("a");
    assert_eq!(
        analyze_type_alias("A", &vec!["a".to_string()], &ty),
        Ok(vec![Declaration::Alias("A".to_string(), var("a"))])
    );
}

#[test]
fn check_type_alias_missing_var() {
    let ty = var("a");
    assert_eq!(
        analyze_type_alias("A", &vec![], &ty),
        Err(TypeError::UndeclaredTypeVariables(vec!["a".to_string()]))
    );
}

#[test]
fn check_type_alias_extra_var() {
    let ty = var("a");
    assert_eq!(
        analyze_type_alias("A", &vec!["a".to_string(), "b".to_string()], &ty),
        Err(TypeError::UnusedTypeVariables(vec!["b".to_string()]))
    );
}

#[test]
fn record_alias_emits_constructor() {
    // type alias P = { x : Int, y : Int } also yields P : Int -> Int -> P-record.
    let ty = Type::Record(vec![
        ("x".to_string(), tag("Int")),
        ("y".to_string(), tag("Int")),
    ]);
    let decls = analyze_type_alias("P", &vec![], &ty).expect("alias should analyze");
    assert_eq!(decls.len(), 2);
    match &decls[1] {
        Declaration::Def(name, ctor) => {
            assert_eq!(name, "P");
            match ctor {
                Type::Fun(a, rest) => {
                    assert_eq!(**a, tag("Int"));
                    match &**rest {
                        Type::Fun(b, r) => {
                            assert_eq!(**b, tag("Int"));
                            assert_eq!(
                                **r,
                                Type::Record(vec![
                                    ("x".to_string(), tag("Int")),
                                    ("y".to_string(), tag("Int")),
                                ])
                            );
                        }
                        other => panic!("expected curried constructor, got {:?}", other),
                    }
                }
                other => panic!("expected function type, got {:?}", other),
            }
        }
        other => panic!("expected constructor Def, got {:?}", other),
    }
}

#[test]
fn check_adt_declarations() {
    // type Adt = A | B
    let decls = analyze_adt("Adt", &vec![], &vec![
        ("A".to_string(), vec![]),
        ("B".to_string(), vec![]),
    ])
    .expect("adt should analyze");
    assert_eq!(decls.len(), 3);
    match &decls[0] {
        Declaration::Adt(name, adt) => {
            assert_eq!(name, "Adt");
            assert_eq!(adt.variants.len(), 2);
            assert_eq!(adt.variants[0].name, "A");
            assert_eq!(adt.variants[1].name, "B");
        }
        other => panic!("expected Adt declaration, got {:?}", other),
    }
    assert_eq!(
        decls[1],
        Declaration::Def("A".to_string(), Type::Tag("Adt".to_string(), vec![]))
    );
    assert_eq!(
        decls[2],
        Declaration::Def("B".to_string(), Type::Tag("Adt".to_string(), vec![]))
    );
}

#[test]
fn check_port_declaration() {
    let decls = analyze_port("p", &tag("Int")).expect("port should analyze");
    assert_eq!(decls, vec![Declaration::Def("p".to_string(), tag("Int"))]);
}

#[test]
fn adt_all_exposing_selects_descriptor_and_constructors() {
    let all = analyze_adt("Maybe", &vec!["a".to_string()], &vec![
        ("Just".to_string(), vec![var("a")]),
        ("Nothing".to_string(), vec![]),
    ])
    .expect("adt should analyze");
    let exposed = get_exposed_decls(
        &all,
        &vec![Exposing::Adt("Maybe".to_string(), AdtExposing::All)],
    )
    .expect("exposing should resolve");
    // Both constructors, then the descriptor itself.
    assert_eq!(exposed.len(), 3);
    assert!(matches!(&exposed[0], Declaration::Def(n, _) if n == "Just"));
    assert!(matches!(&exposed[1], Declaration::Def(n, _) if n == "Nothing"));
    assert!(matches!(&exposed[2], Declaration::Adt(n, _) if n == "Maybe"));
}

#[test]
fn missing_exposing_is_reported() {
    let all = vec![Declaration::Def("x".to_string(), tag("Int"))];
    assert_eq!(
        get_exposed_decls(&all, &vec![Exposing::Definition("y".to_string())]),
        Err(TypeError::MissingExposing("y".to_string()))
    );
}

#[test]
fn free_variables_in_first_occurrence_order() {
    let ty = Type::Fun(Box::new(var("b")), Box::new(Type::Fun(Box::new(var("a")), Box::new(var("b")))));
    assert_eq!(get_type_variables(&ty), vec!["b".to_string(), "a".to_string()]);
}
