use elm_analyzer::ast::{
    Definition, Expr, Literal, Statement, Type, build_fun_type, arg_count, get_fun_return,
    get_stm_name,
};
use elm_analyzer::static_env::StaticEnv;
use elm_analyzer::dependency_sorter::{get_type_dependencies, sort_core, qualified_name};

fn tag(name: &str) -> Type {
    Type::Tag(name.to_string(), vec![])
}

#[test]
fn build_fun_type_nests_to_the_right() {
    let ty = build_fun_type(&vec![tag("Int"), tag("Int"), tag("Int")]);
    match ty {
        Type::Fun(a, rest) => {
            assert_eq!(*a, tag("Int"));
            match *rest {
                Type::Fun(b, c) => {
                    assert_eq!(*b, tag("Int"));
                    assert_eq!(*c, tag("Int"));
                }
                other => panic!("expected nested function type, got {:?}", other),
            }
        }
        other => panic!("expected function type, got {:?}", other),
    }
}

#[test]
fn arg_count_counts_curried_arguments() {
    let ty = build_fun_type(&vec![tag("Int"), tag("Int"), tag("Int")]);
    assert_eq!(arg_count(&ty), 2);
    assert_eq!(arg_count(&tag("Int")), 0);
    assert_eq!(get_fun_return(&ty), tag("Int"));
}

#[test]
fn static_env_scoping_and_shadowing() {
    let mut env = StaticEnv::new();
    env.add_definition("x", tag("Int"));
    assert_eq!(env.find_definition("x"), Some(tag("Int")));
    assert_eq!(env.find_definition("y"), None);
    env.enter_block();
    env.add_definition("x", tag("Float"));
    assert_eq!(env.find_definition("x"), Some(tag("Float")));
    env.exit_block();
    assert_eq!(env.find_definition("x"), Some(tag("Int")));
}

#[test]
fn type_dependencies_collects_tag_heads() {
    let ty = Type::Fun(
        Box::new(tag("Int")),
        Box::new(Type::Tag("List".to_string(), vec![tag("Float")])),
    );
    let deps = get_type_dependencies(&ty);
    assert!(deps.contains(&"Int".to_string()));
    assert!(deps.contains(&"List".to_string()));
    assert!(deps.contains(&"Float".to_string()));
}

#[test]
fn sort_core_orders_local_dependencies() {
    // y depends on x through its alias body; z depends on y.
    let stms = vec![
        Statement::Alias("y".to_string(), vec![], tag("x")),
        Statement::Alias("x".to_string(), vec![], Type::Unit),
        Statement::Alias("z".to_string(), vec![], tag("y")),
    ];
    let (sorted, cycle) = sort_core(&stms);
    assert!(cycle.is_none());
    let names: Vec<&String> = sorted.iter().map(|s| get_stm_name(s)).collect();
    assert_eq!(names, vec!["x", "y", "z"]);
}

#[test]
fn sort_core_reports_cycles() {
    let stms = vec![
        Statement::Alias("a".to_string(), vec![], tag("b")),
        Statement::Alias("b".to_string(), vec![], tag("a")),
    ];
    let (sorted, cycle) = sort_core(&stms);
    assert_eq!(sorted.len(), 2);
    let names = cycle.expect("a cycle should be reported");
    assert!(names.contains(&"a".to_string()));
    assert!(names.contains(&"b".to_string()));
}

#[test]
fn qualified_name_joins_with_dots() {
    let path = vec!["List".to_string(), "Extra".to_string()];
    let q = qualified_name(&path, &"map".to_string());
    assert_eq!(q, "List.Extra.map");
}

#[test]
fn sort_core_orders_expression_dependencies() {
    // The statements of "\ny = x + 1\n\nx = 0\n\nz = y", built directly:
    // the parser itself is an external collaborator.
    let def = |name: &str, expr: Expr| {
        Statement::Def(Definition {
            name: name.to_string(),
            patterns: vec![],
            expr,
            signature: None,
        })
    };
    let y = def(
        "y",
        Expr::OpChain(
            vec![Expr::Ref("x".to_string()), Expr::Literal(Literal::Int(1))],
            vec!["+".to_string()],
        ),
    );
    let x = def("x", Expr::Literal(Literal::Int(0)));
    let z = def("z", Expr::Ref("y".to_string()));
    let stms = vec![y, x, z];
    let (sorted, cycle) = sort_core(&stms);
    assert!(cycle.is_none());
    let names: Vec<&String> = sorted.iter().map(|s| get_stm_name(s)).collect();
    assert_eq!(names, vec!["x", "y", "z"]);
}
