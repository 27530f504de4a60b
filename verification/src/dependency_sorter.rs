//! Dependency extraction and topological ordering of top-level
//! statements.
//!
//! A statement depends on another statement of the same module when it
//! references the other's name: a type alias, a port or an ADT depends on
//! the nominal type names in its type terms; a value definition depends
//! on the free names of its body, where names bound by argument
//! patterns, lambda patterns and `let` declarations are not free.

use vstd::prelude::*;
use crate::ast::{
    Definition, Expr, LetDeclaration, Pattern, Statement, Type, clone_string, spec_stm_name,
    get_stm_name,
};
use crate::name_map::string_eq;

verus! {

broadcast use
    vstd::std_specs::vec::axiom_vec_index_decreases,
    vstd::seq::axiom_seq_index_decreases;

/// The set of name views of a vector of strings.
pub open spec fn names_set(s: Seq<String>) -> Set<Seq<char>> {
    Set::new(|d: Seq<char>| exists|i: int| 0 <= i < s.len() && s[i]@ == d)
}

/// Appending a string adds its view to the set.
pub proof fn lemma_names_set_push(s: Seq<String>, x: String)
    ensures
        names_set(s.push(x)) =~= names_set(s).insert(x@),
{
    assert forall|d: Seq<char>| names_set(s.push(x)).contains(d) implies names_set(s).insert(
        x@,
    ).contains(d) by {
        let i = choose|i: int| 0 <= i < s.push(x).len() && s.push(x)[i]@ == d;
        if i < s.len() {
            assert(s[i]@ == d);
        }
    }
    assert forall|d: Seq<char>| names_set(s).insert(x@).contains(d) implies names_set(
        s.push(x),
    ).contains(d) by {
        if d == x@ {
            assert(s.push(x)[s.len() as int]@ == d);
        } else {
            let i = choose|i: int| 0 <= i < s.len() && s[i]@ == d;
            assert(s.push(x)[i]@ == d);
        }
    }
}

/// The empty vector of strings names nothing.
pub proof fn lemma_names_set_empty()
    ensures
        names_set(Seq::<String>::empty()) =~= Set::<Seq<char>>::empty(),
{
}

/// A dotted qualified name: the path segments, then the name, joined
/// with `.`.
pub open spec fn qualified_v(path: Seq<Seq<char>>, name: Seq<char>) -> Seq<char>
    decreases path.len(),
{
    if path.len() == 0 {
        name
    } else {
        path[0] + seq!['.'] + qualified_v(path.drop_first(), name)
    }
}

fn qualified_from(path: &Vec<String>, i: usize, name: &String) -> (res: String)
    requires
        i <= path.len(),
    ensures
        res@ == qualified_v(Seq::new((path@.len() - i as nat) as nat, |k: int| path@[i as int + k]@), name@),
    decreases path.len() - i,
{
    if i == path.len() {
        proof {
            assert(Seq::new((path@.len() - i as nat) as nat, |k: int| path@[i as int + k]@).len() == 0);
        }
        clone_string(name)
    } else {
        let rest = qualified_from(path, i + 1, name);
        let mut res = clone_string(&path[i]);
        res.append(".");
        res.append(rest.as_str());
        proof {
            let cur = Seq::new((path@.len() - i as nat) as nat, |k: int| path@[i as int + k]@);
            assert(cur[0] == path@[i as int]@);
            assert(cur.drop_first() =~= Seq::new((path@.len() - (i + 1) as nat) as nat, |k: int| path@[i as int + 1 + k]@));
            reveal_strlit(".");
            assert(res@ =~= qualified_v(cur, name@));
        }
        res
    }
}

/// Joins a module path and a name into the dotted full name.
pub fn qualified_name(path: &Vec<String>, name: &String) -> (res: String)
    ensures
        res@ == qualified_v(crate::ast::strings_dv(path@), name@),
{
    let res = qualified_from(path, 0, name);
    proof {
        let i: usize = 0;
        assert(Seq::new((path@.len() - i as nat) as nat, |k: int| path@[i as int + k]@)
            =~= crate::ast::strings_dv(path@));
    }
    res
}

// ---------------------------------------------------------------------
// Nominal type names referenced by a type term.
// ---------------------------------------------------------------------
/// Names added to `acc` by a walk of `t`: the heads of `Tag` and
/// `RecExt` nodes at every depth.
pub open spec fn type_deps_acc(t: Type, acc: Set<Seq<char>>) -> Set<Seq<char>>
    decreases t,
{
    match t {
        Type::Var(_) => acc,
        Type::Tag(n, args) => types_deps_acc(args@, acc.insert(n@)),
        Type::Fun(a, b) => type_deps_acc(*b, type_deps_acc(*a, acc)),
        Type::Unit => acc,
        Type::Tuple(items) => types_deps_acc(items@, acc),
        Type::Record(fields) => field_types_deps_acc(fields@, acc),
        Type::RecExt(n, fields) => field_types_deps_acc(fields@, acc.insert(n@)),
    }
}

/// Fold of `type_deps_acc` over a sequence of types.
pub open spec fn types_deps_acc(s: Seq<Type>, acc: Set<Seq<char>>) -> Set<Seq<char>>
    decreases s,
{
    if s.len() == 0 {
        acc
    } else {
        types_deps_acc(s.drop_first(), type_deps_acc(s[0], acc))
    }
}

/// Fold of `type_deps_acc` over the types of named fields.
pub open spec fn field_types_deps_acc(s: Seq<(String, Type)>, acc: Set<Seq<char>>) -> Set<Seq<char>>
    decreases s,
{
    if s.len() == 0 {
        acc
    } else {
        field_types_deps_acc(s.drop_first(), type_deps_acc(s[0].1, acc))
    }
}

/// The nominal type names referenced anywhere in `t`.
pub open spec fn type_deps(t: Type) -> Set<Seq<char>> {
    type_deps_acc(t, Set::empty())
}

fn collect_type_deps(t: &Type, acc: &mut Vec<String>)
    ensures
        names_set(final(acc)@) == type_deps_acc(*t, names_set(old(acc)@)),
    decreases t,
{
    match t {
        Type::Var(_) => {},
        Type::Tag(n, args) => {
            acc.push(clone_string(n));
            proof {
                lemma_names_set_push(old(acc)@, acc@.last());
                assert(acc@ == old(acc)@.push(acc@.last()));
                assert(names_set(acc@) =~= names_set(old(acc)@).insert(n@));
            }
            collect_types_deps(args, acc);
        },
        Type::Fun(a, b) => {
            collect_type_deps(a, acc);
            collect_type_deps(b, acc);
        },
        Type::Unit => {},
        Type::Tuple(items) => {
            collect_types_deps(items, acc);
        },
        Type::Record(fields) => {
            collect_field_types_deps(fields, acc);
        },
        Type::RecExt(n, fields) => {
            acc.push(clone_string(n));
            proof {
                lemma_names_set_push(old(acc)@, acc@.last());
                assert(acc@ == old(acc)@.push(acc@.last()));
                assert(names_set(acc@) =~= names_set(old(acc)@).insert(n@));
            }
            collect_field_types_deps(fields, acc);
        },
    }
}

fn collect_types_deps(s: &Vec<Type>, acc: &mut Vec<String>)
    ensures
        names_set(final(acc)@) == types_deps_acc(s@, names_set(old(acc)@)),
    decreases s,
{
    let n = s.len();
    proof {
        assert(s@.skip(0) =~= s@);
    }
    for i in 0..n
        invariant
            n == s.len(),
            types_deps_acc(s@, names_set(old(acc)@)) == types_deps_acc(
                s@.skip(i as int),
                names_set(acc@),
            ),
        decreases n - i,
    {
        proof {
            assert(s@.skip(i as int)[0] == s@[i as int]);
            assert(s@.skip(i as int).drop_first() =~= s@.skip(i + 1));
        }
        collect_type_deps(&s[i], acc);
    }
    proof {
        assert(s@.skip(n as int).len() == 0);
    }
}

fn collect_field_types_deps(s: &Vec<(String, Type)>, acc: &mut Vec<String>)
    ensures
        names_set(final(acc)@) == field_types_deps_acc(s@, names_set(old(acc)@)),
    decreases s,
{
    let n = s.len();
    proof {
        assert(s@.skip(0) =~= s@);
    }
    for i in 0..n
        invariant
            n == s.len(),
            field_types_deps_acc(s@, names_set(old(acc)@)) == field_types_deps_acc(
                s@.skip(i as int),
                names_set(acc@),
            ),
        decreases n - i,
    {
        proof {
            assert(s@.skip(i as int)[0] == s@[i as int]);
            assert(s@.skip(i as int).drop_first() =~= s@.skip(i + 1));
        }
        collect_type_deps(&s[i].1, acc);
    }
    proof {
        assert(s@.skip(n as int).len() == 0);
    }
}

/// Collects the nominal type names referenced anywhere in `t`.
///
/// The contract fixes the result as a set only: a name whose `Tag` or
/// `RecExt` occurs several times may be listed several times.
pub fn get_type_dependencies(t: &Type) -> (res: Vec<String>)
    ensures
        names_set(res@) == type_deps(*t),
{
    let mut acc: Vec<String> = Vec::new();
    proof {
        lemma_names_set_empty();
    }
    collect_type_deps(t, &mut acc);
    acc
}


// ---------------------------------------------------------------------
// Names bound by patterns.
// ---------------------------------------------------------------------
/// Names `p` binds, added to `acc`.
pub open spec fn pat_names_acc(p: Pattern, acc: Set<Seq<char>>) -> Set<Seq<char>>
    decreases p,
{
    match p {
        Pattern::Var(n) => acc.insert(n@),
        Pattern::Wildcard => acc,
        Pattern::Unit => acc,
        Pattern::Literal(_) => acc,
        Pattern::Tuple(ps) => pats_names_acc(ps@, acc),
        Pattern::List(ps) => pats_names_acc(ps@, acc),
        Pattern::Cons(h, t) => pat_names_acc(*t, pat_names_acc(*h, acc)),
        Pattern::Record(names) => record_names_acc(names@, acc),
        Pattern::TagArgs(_, ps) => pats_names_acc(ps@, acc),
        Pattern::Alias(inner, n) => pat_names_acc(*inner, acc).insert(n@),
    }
}

/// Fold of `pat_names_acc` over a sequence of patterns.
pub open spec fn pats_names_acc(s: Seq<Pattern>, acc: Set<Seq<char>>) -> Set<Seq<char>>
    decreases s,
{
    if s.len() == 0 {
        acc
    } else {
        pats_names_acc(s.drop_first(), pat_names_acc(s[0], acc))
    }
}

/// Fold inserting each field name of a record pattern.
pub open spec fn record_names_acc(s: Seq<String>, acc: Set<Seq<char>>) -> Set<Seq<char>>
    decreases s,
{
    if s.len() == 0 {
        acc
    } else {
        record_names_acc(s.drop_first(), acc.insert(s[0]@))
    }
}

fn collect_pat_names(p: &Pattern, acc: &mut Vec<String>)
    ensures
        names_set(final(acc)@) == pat_names_acc(*p, names_set(old(acc)@)),
    decreases p,
{
    match p {
        Pattern::Var(n) => {
            acc.push(clone_string(n));
            proof {
                lemma_names_set_push(old(acc)@, acc@.last());
            }
        },
        Pattern::Wildcard => {},
        Pattern::Unit => {},
        Pattern::Literal(_) => {},
        Pattern::Tuple(ps) => {
            collect_pats_names(ps, acc);
        },
        Pattern::List(ps) => {
            collect_pats_names(ps, acc);
        },
        Pattern::Cons(h, t) => {
            collect_pat_names(h, acc);
            collect_pat_names(t, acc);
        },
        Pattern::Record(names) => {
            let n = names.len();
            proof {
                assert(names@.skip(0) =~= names@);
            }
            for i in 0..n
                invariant
                    n == names.len(),
                    record_names_acc(names@, names_set(old(acc)@)) == record_names_acc(
                        names@.skip(i as int),
                        names_set(acc@),
                    ),
                decreases n - i,
            {
                proof {
                    assert(names@.skip(i as int)[0] == names@[i as int]);
                    assert(names@.skip(i as int).drop_first() =~= names@.skip(i + 1));
                }
                let ghost pre = acc@;
                acc.push(clone_string(&names[i]));
                proof {
                    lemma_names_set_push(pre, acc@.last());
                }
            }
            proof {
                assert(names@.skip(n as int).len() == 0);
            }
        },
        Pattern::TagArgs(_, ps) => {
            collect_pats_names(ps, acc);
        },
        Pattern::Alias(inner, n) => {
            collect_pat_names(inner, acc);
            let ghost pre = acc@;
            acc.push(clone_string(n));
            proof {
                lemma_names_set_push(pre, acc@.last());
            }
        },
    }
}

fn collect_pats_names(s: &Vec<Pattern>, acc: &mut Vec<String>)
    ensures
        names_set(final(acc)@) == pats_names_acc(s@, names_set(old(acc)@)),
    decreases s,
{
    let n = s.len();
    proof {
        assert(s@.skip(0) =~= s@);
    }
    for i in 0..n
        invariant
            n == s.len(),
            pats_names_acc(s@, names_set(old(acc)@)) == pats_names_acc(
                s@.skip(i as int),
                names_set(acc@),
            ),
        decreases n - i,
    {
        proof {
            assert(s@.skip(i as int)[0] == s@[i as int]);
            assert(s@.skip(i as int).drop_first() =~= s@.skip(i + 1));
        }
        collect_pat_names(&s[i], acc);
    }
    proof {
        assert(s@.skip(n as int).len() == 0);
    }
}

// ---------------------------------------------------------------------
// The scope stack used while walking an expression.
// ---------------------------------------------------------------------
/// The sets of names bound by each scope, outermost first.
pub open spec fn scopes_v(s: Seq<Vec<String>>) -> Seq<Set<Seq<char>>> {
    Seq::new(s.len(), |i: int| names_set(s[i]@))
}

/// Whether some scope binds `name`.
pub open spec fn shadowed(scopes: Seq<Set<Seq<char>>>, name: Seq<char>) -> bool {
    exists|i: int| 0 <= i < scopes.len() && scopes[i].contains(name)
}

fn vec_contains_name(v: &Vec<String>, name: &str) -> (r: bool)
    ensures
        r == names_set(v@).contains(name@),
{
    let n = v.len();
    for i in 0..n
        invariant
            n == v.len(),
            forall|j: int| 0 <= j < i ==> v@[j]@ != name@,
        decreases n - i,
    {
        if string_eq(&v[i], name) {
            return true;
        }
    }
    false
}

fn is_shadowed(scopes: &Vec<Vec<String>>, name: &str) -> (r: bool)
    ensures
        r == shadowed(scopes_v(scopes@), name@),
{
    let n = scopes.len();
    for i in 0..n
        invariant
            n == scopes.len(),
            forall|j: int| 0 <= j < i ==> !scopes_v(scopes@)[j].contains(name@),
        decreases n - i,
    {
        if vec_contains_name(&scopes[i], name) {
            proof {
                assert(scopes_v(scopes@)[i as int].contains(name@));
            }
            return true;
        }
    }
    proof {
        assert forall|j: int| 0 <= j < scopes_v(scopes@).len() implies !scopes_v(scopes@)[
            j
        ].contains(name@) by {}
    }
    false
}

// ---------------------------------------------------------------------
// Free names of an expression.
// ---------------------------------------------------------------------
/// The names `e` references that no scope shadows, added to `acc`.
///
/// A `Lambda` or a `Let` opens a scope for its bound names around its
/// body; all other nodes only gather from their children. An `OpChain`
/// also references each of its operators; a `RecordUpdate` references
/// the updated name; a `QualifiedRef` references its dotted full name.
pub open spec fn expr_deps_acc(e: Expr, scopes: Seq<Set<Seq<char>>>, acc: Set<Seq<char>>) -> Set<
    Seq<char>,
>
    decreases e,
{
    match e {
        Expr::Unit => acc,
        Expr::Literal(_) => acc,
        Expr::RecordAccess(_) => acc,
        Expr::Ref(n) => if shadowed(scopes, n@) {
            acc
        } else {
            acc.insert(n@)
        },
        Expr::QualifiedRef(path, n) => {
            let q = qualified_v(crate::ast::strings_dv(path@), n@);
            if shadowed(scopes, q) {
                acc
            } else {
                acc.insert(q)
            }
        },
        Expr::RecordField(b, _) => expr_deps_acc(*b, scopes, acc),
        Expr::RecordUpdate(n, fields) => {
            let acc2 = if shadowed(scopes, n@) {
                acc
            } else {
                acc.insert(n@)
            };
            named_exprs_deps_acc(fields@, scopes, acc2)
        },
        Expr::If(a, b, c) => expr_deps_acc(
            *c,
            scopes,
            expr_deps_acc(*b, scopes, expr_deps_acc(*a, scopes, acc)),
        ),
        Expr::Case(scrut, arms) => arms_deps_acc(arms@, scopes, expr_deps_acc(*scrut, scopes, acc)),
        Expr::Application(f, a) => expr_deps_acc(*a, scopes, expr_deps_acc(*f, scopes, acc)),
        Expr::Lambda(pats, body) => expr_deps_acc(
            *body,
            scopes.push(pats_names_acc(pats@, Set::empty())),
            acc,
        ),
        Expr::Let(decls, body) => {
            let scopes2 = scopes.push(letdecls_bound_acc(decls@, Set::empty()));
            expr_deps_acc(*body, scopes2, letdecls_deps_acc(decls@, scopes2, acc))
        },
        Expr::OpChain(exprs, ops) => exprs_deps_acc(
            exprs@,
            scopes,
            ops_deps_acc(ops@, scopes, acc),
        ),
        Expr::Tuple(items) => exprs_deps_acc(items@, scopes, acc),
        Expr::List(items) => exprs_deps_acc(items@, scopes, acc),
        Expr::Record(fields) => named_exprs_deps_acc(fields@, scopes, acc),
    }
}

/// Fold of `expr_deps_acc` over a sequence of expressions.
pub open spec fn exprs_deps_acc(
    s: Seq<Expr>,
    scopes: Seq<Set<Seq<char>>>,
    acc: Set<Seq<char>>,
) -> Set<Seq<char>>
    decreases s,
{
    if s.len() == 0 {
        acc
    } else {
        exprs_deps_acc(s.drop_first(), scopes, expr_deps_acc(s[0], scopes, acc))
    }
}

/// Fold of `expr_deps_acc` over the branches of a `case`.
pub open spec fn arms_deps_acc(
    s: Seq<(Pattern, Expr)>,
    scopes: Seq<Set<Seq<char>>>,
    acc: Set<Seq<char>>,
) -> Set<Seq<char>>
    decreases s,
{
    if s.len() == 0 {
        acc
    } else {
        arms_deps_acc(s.drop_first(), scopes, expr_deps_acc(s[0].1, scopes, acc))
    }
}

/// Fold of `expr_deps_acc` over named field expressions.
pub open spec fn named_exprs_deps_acc(
    s: Seq<(String, Expr)>,
    scopes: Seq<Set<Seq<char>>>,
    acc: Set<Seq<char>>,
) -> Set<Seq<char>>
    decreases s,
{
    if s.len() == 0 {
        acc
    } else {
        named_exprs_deps_acc(s.drop_first(), scopes, expr_deps_acc(s[0].1, scopes, acc))
    }
}

/// Fold inserting each operator of a chain that no scope shadows.
pub open spec fn ops_deps_acc(
    s: Seq<String>,
    scopes: Seq<Set<Seq<char>>>,
    acc: Set<Seq<char>>,
) -> Set<Seq<char>>
    decreases s,
{
    if s.len() == 0 {
        acc
    } else {
        ops_deps_acc(
            s.drop_first(),
            scopes,
            if shadowed(scopes, s[0]@) {
                acc
            } else {
                acc.insert(s[0]@)
            },
        )
    }
}

/// The names one `let` declaration binds: a definition contributes its
/// argument patterns' names; a destructuring declaration its pattern's.
pub open spec fn letdecl_bound_acc(d: LetDeclaration, acc: Set<Seq<char>>) -> Set<Seq<char>> {
    match d {
        LetDeclaration::Def(def) => pats_names_acc(def.patterns@, acc),
        LetDeclaration::Pattern(p, _) => pat_names_acc(p, acc),
    }
}

/// The names bound by the declarations of a `let`, added to `acc`.
pub open spec fn letdecls_bound_acc(s: Seq<LetDeclaration>, acc: Set<Seq<char>>) -> Set<Seq<char>>
    decreases s,
{
    if s.len() == 0 {
        acc
    } else {
        letdecls_bound_acc(s.drop_first(), letdecl_bound_acc(s[0], acc))
    }
}

/// The free names of the body of one `let` declaration.
pub open spec fn letdecl_deps_acc(
    d: LetDeclaration,
    scopes: Seq<Set<Seq<char>>>,
    acc: Set<Seq<char>>,
) -> Set<Seq<char>>
    decreases d,
{
    match d {
        LetDeclaration::Def(def) => expr_deps_acc(def.expr, scopes, acc),
        LetDeclaration::Pattern(_, e) => expr_deps_acc(e, scopes, acc),
    }
}

/// Fold of `letdecl_deps_acc` over the declarations of a `let`.
pub open spec fn letdecls_deps_acc(
    s: Seq<LetDeclaration>,
    scopes: Seq<Set<Seq<char>>>,
    acc: Set<Seq<char>>,
) -> Set<Seq<char>>
    decreases s,
{
    if s.len() == 0 {
        acc
    } else {
        letdecls_deps_acc(s.drop_first(), scopes, letdecl_deps_acc(s[0], scopes, acc))
    }
}

fn collect_expr_deps(e: &Expr, scopes: &mut Vec<Vec<String>>, acc: &mut Vec<String>)
    ensures
        final(scopes)@ == old(scopes)@,
        names_set(final(acc)@) == expr_deps_acc(
            *e,
            scopes_v(old(scopes)@),
            names_set(old(acc)@),
        ),
    decreases e,
{
    match e {
        Expr::Unit => {},
        Expr::Literal(_) => {},
        Expr::RecordAccess(_) => {},
        Expr::Ref(n) => {
            if !is_shadowed(scopes, n.as_str()) {
                let ghost pre = acc@;
                acc.push(clone_string(n));
                proof {
                    lemma_names_set_push(pre, acc@.last());
                }
            }
        },
        Expr::QualifiedRef(path, n) => {
            let q = qualified_name(path, n);
            if !is_shadowed(scopes, q.as_str()) {
                let ghost pre = acc@;
                acc.push(q);
                proof {
                    lemma_names_set_push(pre, acc@.last());
                }
            }
        },
        Expr::RecordField(b, _) => {
            collect_expr_deps(b, scopes, acc);
        },
        Expr::RecordUpdate(n, fields) => {
            if !is_shadowed(scopes, n.as_str()) {
                let ghost pre = acc@;
                acc.push(clone_string(n));
                proof {
                    lemma_names_set_push(pre, acc@.last());
                }
            }
            collect_named_exprs_deps(fields, scopes, acc);
        },
        Expr::If(a, b, c) => {
            collect_expr_deps(a, scopes, acc);
            collect_expr_deps(b, scopes, acc);
            collect_expr_deps(c, scopes, acc);
        },
        Expr::Case(scrut, arms) => {
            collect_expr_deps(scrut, scopes, acc);
            collect_arms_deps(arms, scopes, acc);
        },
        Expr::Application(f, a) => {
            collect_expr_deps(f, scopes, acc);
            collect_expr_deps(a, scopes, acc);
        },
        Expr::Lambda(pats, body) => {
            let mut bound: Vec<String> = Vec::new();
            proof {
                lemma_names_set_empty();
            }
            collect_pats_names(pats, &mut bound);
            scopes.push(bound);
            proof {
                assert(scopes_v(scopes@) =~= scopes_v(old(scopes)@).push(
                    pats_names_acc(pats@, Set::empty()),
                ));
            }
            collect_expr_deps(body, scopes, acc);
            scopes.pop().unwrap();
            proof {
                assert(scopes@ =~= old(scopes)@);
            }
        },
        Expr::Let(decls, body) => {
            let mut bound: Vec<String> = Vec::new();
            proof {
                lemma_names_set_empty();
            }
            collect_letdecls_bound(decls, &mut bound);
            scopes.push(bound);
            proof {
                assert(scopes_v(scopes@) =~= scopes_v(old(scopes)@).push(
                    letdecls_bound_acc(decls@, Set::empty()),
                ));
            }
            collect_letdecls_deps(decls, scopes, acc);
            collect_expr_deps(body, scopes, acc);
            scopes.pop().unwrap();
            proof {
                assert(scopes@ =~= old(scopes)@);
            }
        },
        Expr::OpChain(exprs, ops) => {
            let n = ops.len();
            proof {
                assert(ops@.skip(0) =~= ops@);
            }
            for i in 0..n
                invariant
                    n == ops.len(),
                    scopes@ == old(scopes)@,
                    ops_deps_acc(ops@, scopes_v(old(scopes)@), names_set(old(acc)@))
                        == ops_deps_acc(
                        ops@.skip(i as int),
                        scopes_v(old(scopes)@),
                        names_set(acc@),
                    ),
                decreases n - i,
            {
                proof {
                    assert(ops@.skip(i as int)[0] == ops@[i as int]);
                    assert(ops@.skip(i as int).drop_first() =~= ops@.skip(i + 1));
                }
                if !is_shadowed(scopes, ops[i].as_str()) {
                    let ghost pre = acc@;
                    acc.push(clone_string(&ops[i]));
                    proof {
                        lemma_names_set_push(pre, acc@.last());
                    }
                }
            }
            proof {
                assert(ops@.skip(n as int).len() == 0);
            }
            collect_exprs_deps(exprs, scopes, acc);
        },
        Expr::Tuple(items) => {
            collect_exprs_deps(items, scopes, acc);
        },
        Expr::List(items) => {
            collect_exprs_deps(items, scopes, acc);
        },
        Expr::Record(fields) => {
            collect_named_exprs_deps(fields, scopes, acc);
        },
    }
}

fn collect_exprs_deps(s: &Vec<Expr>, scopes: &mut Vec<Vec<String>>, acc: &mut Vec<String>)
    ensures
        final(scopes)@ == old(scopes)@,
        names_set(final(acc)@) == exprs_deps_acc(
            s@,
            scopes_v(old(scopes)@),
            names_set(old(acc)@),
        ),
    decreases s,
{
    let n = s.len();
    proof {
        assert(s@.skip(0) =~= s@);
    }
    for i in 0..n
        invariant
            n == s.len(),
            scopes@ == old(scopes)@,
            exprs_deps_acc(s@, scopes_v(old(scopes)@), names_set(old(acc)@)) == exprs_deps_acc(
                s@.skip(i as int),
                scopes_v(old(scopes)@),
                names_set(acc@),
            ),
        decreases n - i,
    {
        proof {
            assert(s@.skip(i as int)[0] == s@[i as int]);
            assert(s@.skip(i as int).drop_first() =~= s@.skip(i + 1));
        }
        collect_expr_deps(&s[i], scopes, acc);
    }
    proof {
        assert(s@.skip(n as int).len() == 0);
    }
}

fn collect_arms_deps(s: &Vec<(Pattern, Expr)>, scopes: &mut Vec<Vec<String>>, acc: &mut Vec<String>)
    ensures
        final(scopes)@ == old(scopes)@,
        names_set(final(acc)@) == arms_deps_acc(
            s@,
            scopes_v(old(scopes)@),
            names_set(old(acc)@),
        ),
    decreases s,
{
    let n = s.len();
    proof {
        assert(s@.skip(0) =~= s@);
    }
    for i in 0..n
        invariant
            n == s.len(),
            scopes@ == old(scopes)@,
            arms_deps_acc(s@, scopes_v(old(scopes)@), names_set(old(acc)@)) == arms_deps_acc(
                s@.skip(i as int),
                scopes_v(old(scopes)@),
                names_set(acc@),
            ),
        decreases n - i,
    {
        proof {
            assert(s@.skip(i as int)[0] == s@[i as int]);
            assert(s@.skip(i as int).drop_first() =~= s@.skip(i + 1));
        }
        collect_expr_deps(&s[i].1, scopes, acc);
    }
    proof {
        assert(s@.skip(n as int).len() == 0);
    }
}

fn collect_named_exprs_deps(
    s: &Vec<(String, Expr)>,
    scopes: &mut Vec<Vec<String>>,
    acc: &mut Vec<String>,
)
    ensures
        final(scopes)@ == old(scopes)@,
        names_set(final(acc)@) == named_exprs_deps_acc(
            s@,
            scopes_v(old(scopes)@),
            names_set(old(acc)@),
        ),
    decreases s,
{
    let n = s.len();
    proof {
        assert(s@.skip(0) =~= s@);
    }
    for i in 0..n
        invariant
            n == s.len(),
            scopes@ == old(scopes)@,
            named_exprs_deps_acc(s@, scopes_v(old(scopes)@), names_set(old(acc)@))
                == named_exprs_deps_acc(
                s@.skip(i as int),
                scopes_v(old(scopes)@),
                names_set(acc@),
            ),
        decreases n - i,
    {
        proof {
            assert(s@.skip(i as int)[0] == s@[i as int]);
            assert(s@.skip(i as int).drop_first() =~= s@.skip(i + 1));
        }
        collect_expr_deps(&s[i].1, scopes, acc);
    }
    proof {
        assert(s@.skip(n as int).len() == 0);
    }
}

fn collect_letdecl_bound(d: &LetDeclaration, bound: &mut Vec<String>)
    ensures
        names_set(final(bound)@) == letdecl_bound_acc(*d, names_set(old(bound)@)),
    decreases d,
{
    match d {
        LetDeclaration::Def(def) => {
            collect_pats_names(&def.patterns, bound);
        },
        LetDeclaration::Pattern(p, _) => {
            collect_pat_names(p, bound);
        },
    }
}

fn collect_letdecls_bound(s: &Vec<LetDeclaration>, bound: &mut Vec<String>)
    ensures
        names_set(final(bound)@) == letdecls_bound_acc(s@, names_set(old(bound)@)),
    decreases s,
{
    let n = s.len();
    proof {
        assert(s@.skip(0) =~= s@);
    }
    for i in 0..n
        invariant
            n == s.len(),
            letdecls_bound_acc(s@, names_set(old(bound)@)) == letdecls_bound_acc(
                s@.skip(i as int),
                names_set(bound@),
            ),
        decreases n - i,
    {
        proof {
            assert(s@.skip(i as int)[0] == s@[i as int]);
            assert(s@.skip(i as int).drop_first() =~= s@.skip(i + 1));
        }
        collect_letdecl_bound(&s[i], bound);
    }
    proof {
        assert(s@.skip(n as int).len() == 0);
    }
}

fn collect_letdecl_deps(d: &LetDeclaration, scopes: &mut Vec<Vec<String>>, acc: &mut Vec<String>)
    ensures
        final(scopes)@ == old(scopes)@,
        names_set(final(acc)@) == letdecl_deps_acc(
            *d,
            scopes_v(old(scopes)@),
            names_set(old(acc)@),
        ),
    decreases d,
{
    match d {
        LetDeclaration::Def(def) => {
            collect_expr_deps(&def.expr, scopes, acc);
        },
        LetDeclaration::Pattern(_, ex) => {
            collect_expr_deps(ex, scopes, acc);
        },
    }
}

fn collect_letdecls_deps(s: &Vec<LetDeclaration>, scopes: &mut Vec<Vec<String>>, acc: &mut Vec<String>)
    ensures
        final(scopes)@ == old(scopes)@,
        names_set(final(acc)@) == letdecls_deps_acc(
            s@,
            scopes_v(old(scopes)@),
            names_set(old(acc)@),
        ),
    decreases s,
{
    let n = s.len();
    proof {
        assert(s@.skip(0) =~= s@);
    }
    for i in 0..n
        invariant
            n == s.len(),
            scopes@ == old(scopes)@,
            letdecls_deps_acc(s@, scopes_v(old(scopes)@), names_set(old(acc)@))
                == letdecls_deps_acc(
                s@.skip(i as int),
                scopes_v(old(scopes)@),
                names_set(acc@),
            ),
        decreases n - i,
    {
        proof {
            assert(s@.skip(i as int)[0] == s@[i as int]);
            assert(s@.skip(i as int).drop_first() =~= s@.skip(i + 1));
        }
        collect_letdecl_deps(&s[i], scopes, acc);
    }
    proof {
        assert(s@.skip(n as int).len() == 0);
    }
}

// ---------------------------------------------------------------------
// Dependencies of a statement.
// ---------------------------------------------------------------------
/// Fold of the type dependencies of every variant's argument types.
pub open spec fn variants_deps_acc(s: Seq<(String, Vec<Type>)>, acc: Set<Seq<char>>) -> Set<
    Seq<char>,
>
    decreases s,
{
    if s.len() == 0 {
        acc
    } else {
        variants_deps_acc(s.drop_first(), types_deps_acc(s[0].1@, acc))
    }
}

/// The names a statement references: nominal type names for an alias,
/// a port or an ADT; free expression names for a value definition,
/// with the argument patterns' names bound; nothing for an infix
/// registration.
pub open spec fn stm_deps(s: Statement) -> Set<Seq<char>> {
    match s {
        Statement::Alias(_, _, t) => type_deps(t),
        Statement::Port(_, t) => type_deps(t),
        Statement::Adt(_, _, variants) => variants_deps_acc(variants@, Set::empty()),
        Statement::Def(def) => expr_deps_acc(
            def.expr,
            seq![pats_names_acc(def.patterns@, Set::empty())],
            Set::empty(),
        ),
        Statement::Infix(_, _, _, _) => Set::empty(),
    }
}

/// Collects the names a statement references.
pub fn get_stm_dependencies(stm: &Statement) -> (res: Vec<String>)
    ensures
        names_set(res@) == stm_deps(*stm),
{
    match stm {
        Statement::Alias(_, _, t) => get_type_dependencies(t),
        Statement::Port(_, t) => get_type_dependencies(t),
        Statement::Adt(_, _, variants) => {
            let mut acc: Vec<String> = Vec::new();
            proof {
                lemma_names_set_empty();
            }
            let n = variants.len();
            proof {
                assert(variants@.skip(0) =~= variants@);
            }
            for i in 0..n
                invariant
                    n == variants.len(),
                    variants_deps_acc(variants@, Set::empty()) == variants_deps_acc(
                        variants@.skip(i as int),
                        names_set(acc@),
                    ),
                decreases n - i,
            {
                proof {
                    assert(variants@.skip(i as int)[0] == variants@[i as int]);
                    assert(variants@.skip(i as int).drop_first() =~= variants@.skip(i + 1));
                }
                collect_types_deps(&variants[i].1, &mut acc);
            }
            proof {
                assert(variants@.skip(n as int).len() == 0);
            }
            acc
        },
        Statement::Def(def) => {
            let mut bound: Vec<String> = Vec::new();
            proof {
                lemma_names_set_empty();
            }
            collect_pats_names(&def.patterns, &mut bound);
            let mut scopes: Vec<Vec<String>> = Vec::new();
            scopes.push(bound);
            let mut acc: Vec<String> = Vec::new();
            proof {
                assert(scopes_v(scopes@) =~= seq![pats_names_acc(def.patterns@, Set::empty())]);
            }
            collect_expr_deps(&def.expr, &mut scopes, &mut acc);
            acc
        },
        Statement::Infix(_, _, _, _) => {
            let acc: Vec<String> = Vec::new();
            proof {
                lemma_names_set_empty();
            }
            acc
        },
    }
}


// ---------------------------------------------------------------------
// Topological ordering.
// ---------------------------------------------------------------------
/// The set of names the statements of a module define.
pub open spec fn local_names(stms: Seq<Statement>) -> Set<Seq<char>> {
    Set::new(|d: Seq<char>| exists|i: int| 0 <= i < stms.len() && spec_stm_name(&stms[i]) == d)
}

/// No two statements define the same name.
pub open spec fn distinct_stm_names(stms: Seq<Statement>) -> bool {
    forall|i: int, j: int|
        0 <= i < j < stms.len() ==> spec_stm_name(&stms[i]) != spec_stm_name(&stms[j])
}

/// `c` lists indices of statements that form a dependency cycle: each
/// one references the name of the next, and the last references the
/// first.
pub open spec fn is_cycle(stms: Seq<Statement>, c: Seq<int>) -> bool {
    &&& c.len() >= 1
    &&& forall|k: int| 0 <= k < c.len() ==> 0 <= #[trigger] c[k] < stms.len()
    &&& forall|k: int|
        0 <= k < c.len() ==> stm_deps(stms[#[trigger] c[k]]).contains(
            spec_stm_name(&stms[c[(k + 1) % (c.len() as int)]]),
        )
}

/// Every local dependency of an output statement is defined by an
/// earlier output statement.
pub open spec fn deps_come_before(stms: Seq<Statement>, sorted: Seq<&Statement>) -> bool {
    forall|i: int, d: Seq<char>|
        0 <= i < sorted.len() && #[trigger] stm_deps(*sorted[i]).contains(d) && local_names(
            stms,
        ).contains(d) ==> exists|j: int| 0 <= j < i && spec_stm_name(sorted[j]) == d
}

/// The names of the output statements are pairwise distinct.
pub open spec fn sorted_names_distinct(sorted: Seq<&Statement>) -> bool {
    forall|p: int, q: int|
        0 <= p < q < sorted.len() ==> spec_stm_name(sorted[p]) != spec_stm_name(sorted[q])
}

/// Number of `true` entries from `j` on.
spec fn count_true_from(s: Seq<bool>, j: int) -> nat
    decreases s.len() - j,
{
    if j < 0 || j >= s.len() {
        0
    } else {
        count_true_from(s, j + 1) + (if s[j] {
            1nat
        } else {
            0nat
        })
    }
}

/// Number of `true` entries.
spec fn count_true(s: Seq<bool>) -> nat {
    count_true_from(s, 0)
}

proof fn lemma_count_from_agree(s1: Seq<bool>, s2: Seq<bool>, j: int)
    requires
        s1.len() == s2.len(),
        forall|k: int| j <= k < s1.len() ==> s1[k] == s2[k],
        0 <= j,
    ensures
        count_true_from(s1, j) == count_true_from(s2, j),
    decreases s1.len() - j,
{
    if j < s1.len() {
        lemma_count_from_agree(s1, s2, j + 1);
    }
}

proof fn lemma_count_from_update(s: Seq<bool>, i: int, j: int)
    requires
        0 <= j <= i < s.len(),
        s[i],
    ensures
        count_true_from(s.update(i, false), j) == count_true_from(s, j) - 1,
    decreases i - j,
{
    if j < i {
        lemma_count_from_update(s, i, j + 1);
    } else {
        lemma_count_from_agree(s.update(i, false), s, i + 1);
    }
}

proof fn lemma_count_true_update(s: Seq<bool>, i: int)
    requires
        0 <= i < s.len(),
        s[i],
    ensures
        count_true(s.update(i, false)) == count_true(s) - 1,
{
    lemma_count_from_update(s, i, 0);
}

proof fn lemma_count_from_zero(s: Seq<bool>, j: int)
    requires
        0 <= j,
        count_true_from(s, j) == 0,
    ensures
        forall|k: int| j <= k < s.len() ==> !s[k],
    decreases s.len() - j,
{
    if 0 <= j < s.len() {
        lemma_count_from_zero(s, j + 1);
    }
}

proof fn lemma_count_true_zero(s: Seq<bool>)
    requires
        count_true(s) == 0,
    ensures
        forall|j: int| 0 <= j < s.len() ==> !s[j],
{
    lemma_count_from_zero(s, 0);
}

proof fn lemma_count_from_pos(s: Seq<bool>, j: int)
    requires
        0 <= j,
        count_true_from(s, j) > 0,
    ensures
        exists|k: int| j <= k < s.len() && s[k],
    decreases s.len() - j,
{
    if 0 <= j < s.len() && !s[j] {
        lemma_count_from_pos(s, j + 1);
    } else {
        assert(0 <= j < s.len() && s[j]);
    }
}

proof fn lemma_count_true_pos(s: Seq<bool>)
    requires
        count_true(s) > 0,
    ensures
        exists|j: int| 0 <= j < s.len() && s[j],
{
    lemma_count_from_pos(s, 0);
}

proof fn lemma_count_from_all_true(s: Seq<bool>, j: int)
    requires
        0 <= j <= s.len(),
        forall|k: int| 0 <= k < s.len() ==> s[k],
    ensures
        count_true_from(s, j) == s.len() - j,
    decreases s.len() - j,
{
    if j < s.len() {
        lemma_count_from_all_true(s, j + 1);
    }
}

proof fn lemma_count_all_true(s: Seq<bool>)
    requires
        forall|j: int| 0 <= j < s.len() ==> s[j],
    ensures
        count_true(s) == s.len(),
{
    lemma_count_from_all_true(s, 0);
}

/// With distinct statement names, a name determines its statement.
pub proof fn lemma_same_name_same_index(stms: Seq<Statement>, a: int, b: int)
    requires
        distinct_stm_names(stms),
        0 <= a < stms.len(),
        0 <= b < stms.len(),
        spec_stm_name(&stms[a]) == spec_stm_name(&stms[b]),
    ensures
        a == b,
{
}

/// No statement on a dependency cycle is ever emitted: the first one
/// emitted would need another member of the cycle emitted before it.
proof fn lemma_cycle_stays(
    stms: Seq<Statement>,
    emitted: Seq<int>,
    enames: Seq<String>,
    c: Seq<int>,
    p: int,
)
    requires
        distinct_stm_names(stms),
        is_cycle(stms, c),
        emitted.len() == enames.len(),
        forall|q: int| 0 <= q < emitted.len() ==> 0 <= #[trigger] emitted[q] < stms.len(),
        forall|q: int|
            0 <= q < emitted.len() ==> #[trigger] enames[q]@ == spec_stm_name(&stms[emitted[q]]),
        forall|q: int, d: Seq<char>|
            0 <= q < emitted.len() && #[trigger] stm_deps(stms[emitted[q]]).contains(d)
                && local_names(stms).contains(d) ==> exists|r: int|
                0 <= r < q && enames[r]@ == d,
        0 <= p < emitted.len(),
    ensures
        forall|k: int| 0 <= k < c.len() ==> emitted[p] != c[k],
    decreases p,
{
    assert forall|k: int| 0 <= k < c.len() implies emitted[p] != c[k] by {
        if emitted[p] == c[k] {
            let next = c[(k + 1) % (c.len() as int)];
            let d = spec_stm_name(&stms[next]);
            assert(stm_deps(stms[c[k]]).contains(d));
            assert(local_names(stms).contains(d));
            assert(exists|r: int| 0 <= r < p && enames[r]@ == d);
            let r = choose|r: int| 0 <= r < p && enames[r]@ == d;
            lemma_same_name_same_index(stms, emitted[r], next);
            assert(emitted[r] == next);
            lemma_cycle_stays(stms, emitted, enames, c, r);
            assert(emitted[r] != c[(k + 1) % (c.len() as int)]);
            assert(false);
        }
    }
}

fn deps_all_emitted(d: &Vec<String>, emitted: &Vec<String>) -> (r: bool)
    ensures
        r == (forall|m: int| 0 <= m < d@.len() ==> names_set(emitted@).contains(#[trigger] d@[m]@)),
{
    let n = d.len();
    for i in 0..n
        invariant
            n == d.len(),
            forall|m: int| 0 <= m < i ==> names_set(emitted@).contains(#[trigger] d@[m]@),
        decreases n - i,
    {
        if !vec_contains_name(emitted, d[i].as_str()) {
            proof {
                assert(!names_set(emitted@).contains(d@[i as int]@));
            }
            return false;
        }
    }
    true
}

/// Orders the statements so that every statement comes after the
/// statements of the module whose names it references. When that is
/// impossible, the emitted prefix is followed by the statements that
/// could not be placed, in source order, and their names are returned
/// beside the order.
///
/// The second result is `None` when every statement was placed; the
/// returned order then brings every local dependency before its user.
/// It is `Some(names)` when the remaining statements block each other:
/// each named statement then has a local dependency that is also named,
/// and, for distinct statement names, every dependency cycle of the
/// module lies entirely inside `names`.
#[verifier::rlimit(100)]
#[verifier::spinoff_prover]
pub fn sort_core<'a>(stms: &'a Vec<Statement>) -> (res: (Vec<&'a Statement>, Option<Vec<String>>))
    ensures
        exists|perm: Seq<int>| is_reordering(perm, stms@, res.0@),
        res.1 is None ==> deps_come_before(stms@, res.0@),
        res.1 is None && distinct_stm_names(stms@) ==> sorted_names_distinct(res.0@),
        match res.1 {
            None => true,
            Some(names) => {
                &&& names@.len() >= 1
                &&& exists|perm: Seq<int>, k: int| blocked_shape(perm, k, stms@, res.0@, names@)
                &&& forall|kk: int|
                    0 <= kk < names@.len() ==> exists|j: int|
                        0 <= j < stms@.len() && spec_stm_name(&stms@[j]) == #[trigger] names@[kk]@
                &&& distinct_stm_names(stms@) ==> forall|c: Seq<int>, kc: int|
                    is_cycle(stms@, c) && 0 <= kc < c.len() ==> names_set(names@).contains(
                        spec_stm_name(&stms@[#[trigger] c[kc]]),
                    )
                &&& distinct_stm_names(stms@) ==> exists|c: Seq<int>| is_cycle(stms@, c)
            },
        },
{
    let n = stms.len();

    // The name each statement defines.
    let mut names: Vec<String> = Vec::new();
    for i in 0..n
        invariant
            n == stms.len(),
            names@.len() == i as nat,
            forall|j: int| 0 <= j < i ==> #[trigger] names@[j]@ == spec_stm_name(&stms@[j]),
        decreases n - i,
    {
        names.push(clone_string(get_stm_name(&stms[i])));
    }
    proof {
        assert forall|d: Seq<char>| names_set(names@).contains(d) implies local_names(
            stms@,
        ).contains(d) by {
            let j = choose|j: int| 0 <= j < names@.len() && names@[j]@ == d;
            assert(spec_stm_name(&stms@[j]) == d);
        }
        assert forall|d: Seq<char>| local_names(stms@).contains(d) implies names_set(
            names@,
        ).contains(d) by {
            let j = choose|j: int| 0 <= j < stms@.len() && spec_stm_name(&stms@[j]) == d;
            assert(names@[j]@ == d);
        }
        assert(names_set(names@) =~= local_names(stms@));
    }

    // The local dependencies of each statement.
    let mut deps: Vec<Vec<String>> = Vec::new();
    for i in 0..n
        invariant
            n == stms.len(),
            names@.len() == n as nat,
            names_set(names@) == local_names(stms@),
            deps@.len() == i as nat,
            forall|j: int|
                0 <= j < i ==> names_set(#[trigger] deps@[j]@) == stm_deps(stms@[j]).intersect(
                    local_names(stms@),
                ),
        decreases n - i,
    {
        let all = get_stm_dependencies(&stms[i]);
        let mut filtered: Vec<String> = Vec::new();
        let m = all.len();
        for k in 0..m
            invariant
                m == all.len(),
                names@.len() == n as nat,
                names_set(names@) == local_names(stms@),
                forall|x: int|
                    0 <= x < k && local_names(stms@).contains(#[trigger] all@[x]@) ==> names_set(
                        filtered@,
                    ).contains(all@[x]@),
                forall|y: int|
                    0 <= y < filtered@.len() ==> names_set(all@).contains(#[trigger] filtered@[y]@)
                        && local_names(stms@).contains(filtered@[y]@),
            decreases m - k,
        {
            if vec_contains_name(&names, all[k].as_str()) {
                let ghost pre = filtered@;
                filtered.push(clone_string(&all[k]));
                proof {
                    lemma_names_set_push(pre, filtered@.last());
                    assert(names_set(all@).contains(all@[k as int]@));
                }
            }
        }
        proof {
            assert forall|d: Seq<char>| names_set(filtered@).contains(d) implies stm_deps(
                stms@[i as int],
            ).intersect(local_names(stms@)).contains(d) by {
                let y = choose|y: int| 0 <= y < filtered@.len() && filtered@[y]@ == d;
            }
            assert forall|d: Seq<char>|
                stm_deps(stms@[i as int]).intersect(local_names(stms@)).contains(
                    d,
                ) implies names_set(filtered@).contains(d) by {
                let x = choose|x: int| 0 <= x < all@.len() && all@[x]@ == d;
            }
            assert(names_set(filtered@) =~= stm_deps(stms@[i as int]).intersect(
                local_names(stms@),
            ));
        }
        deps.push(filtered);
    }

    // Emit leaves round by round.
    let mut alive: Vec<bool> = Vec::new();
    for i in 0..n
        invariant
            alive@.len() == i as nat,
            forall|j: int| 0 <= j < i ==> alive@[j],
        decreases n - i,
    {
        alive.push(true);
    }
    proof {
        lemma_count_all_true(alive@);
    }

    let mut res: Vec<&'a Statement> = Vec::new();
    let mut emitted_names: Vec<String> = Vec::new();
    let ghost mut emitted_idx: Seq<int> = Seq::empty();

    while res.len() < n
        invariant
            n == stms.len(),
            names@.len() == n as nat,
            forall|j: int| 0 <= j < n ==> #[trigger] names@[j]@ == spec_stm_name(&stms@[j]),
            names_set(names@) == local_names(stms@),
            deps@.len() == n as nat,
            forall|j: int|
                0 <= j < n ==> names_set(#[trigger] deps@[j]@) == stm_deps(stms@[j]).intersect(
                    local_names(stms@),
                ),
            alive@.len() == n as nat,
            res@.len() == emitted_idx.len(),
            res@.len() == emitted_names@.len(),
            res@.len() <= n,
            count_true(alive@) + res@.len() == n,
            forall|p: int|
                0 <= p < emitted_idx.len() ==> 0 <= #[trigger] emitted_idx[p] < n,
            forall|p: int|
                0 <= p < emitted_idx.len() ==> *res@[p] == stms@[#[trigger] emitted_idx[p]],
            forall|p: int|
                0 <= p < emitted_idx.len() ==> #[trigger] emitted_names@[p]@ == spec_stm_name(
                    &stms@[emitted_idx[p]],
                ),
            forall|p: int| 0 <= p < emitted_idx.len() ==> !alive@[#[trigger] emitted_idx[p]],
            forall|j: int|
                0 <= j < n && !alive@[j] ==> exists|p: int|
                    0 <= p < emitted_idx.len() && emitted_idx[p] == j,
            forall|p: int, q: int|
                0 <= p < q < emitted_idx.len() ==> emitted_idx[p] != emitted_idx[q],
            forall|q: int, d: Seq<char>|
                0 <= q < emitted_idx.len() && #[trigger] stm_deps(stms@[emitted_idx[q]]).contains(d)
                    && local_names(stms@).contains(d) ==> exists|r: int|
                    0 <= r < q && emitted_names@[r]@ == d,
        decreases n - res.len(),
    {
        // One round: find the leaves against the already emitted names.
        let mut leaves: Vec<usize> = Vec::new();
        for i in 0..n
            invariant
                n == stms.len(),
                deps@.len() == n as nat,
                alive@.len() == n as nat,
                forall|a: int, b: int| 0 <= a < b < leaves@.len() ==> leaves@[a] < leaves@[b],
                forall|a: int| 0 <= a < leaves@.len() ==> (#[trigger] leaves@[a]) < i,
                forall|a: int| 0 <= a < leaves@.len() ==> alive@[leaves@[a] as int],
                forall|a: int, m: int|
                    0 <= a < leaves@.len() && 0 <= m < deps@[leaves@[a] as int]@.len()
                        ==> names_set(emitted_names@).contains(
                        #[trigger] deps@[leaves@[a] as int]@[m]@,
                    ),
                forall|j: int|
                    0 <= j < i && alive@[j] ==> (exists|a: int|
                        0 <= a < leaves@.len() && leaves@[a] == j) || (exists|m: int|
                        0 <= m < deps@[j]@.len() && !names_set(emitted_names@).contains(
                            deps@[j]@[m]@,
                        )),
            decreases n - i,
        {
            if alive[i] {
                let ghost pre_leaves = leaves@;
                if deps_all_emitted(&deps[i], &emitted_names) {
                    leaves.push(i);
                    proof {
                        assert(leaves@.last() == i);
                        assert forall|a: int, m: int|
                            0 <= a < leaves@.len() && 0 <= m < deps@[leaves@[a] as int]@.len()
                                implies names_set(emitted_names@).contains(
                            deps@[leaves@[a] as int]@[m]@,
                        ) by {
                            if a < pre_leaves.len() {
                                assert(leaves@[a] == pre_leaves[a]);
                            } else {
                                assert(leaves@[a] == i);
                            }
                        }
                        assert forall|j: int|
                            0 <= j < i + 1 && alive@[j] implies ((exists|a: int|
                            0 <= a < leaves@.len() && leaves@[a] == j) || (exists|m: int|
                            0 <= m < deps@[j]@.len() && !names_set(emitted_names@).contains(
                                deps@[j]@[m]@,
                            ))) by {
                            if j == i as int {
                                assert(leaves@[leaves@.len() - 1] == j);
                            } else {
                                if exists|a: int| 0 <= a < pre_leaves.len() && pre_leaves[a] == j {
                                    let a = choose|a: int|
                                        0 <= a < pre_leaves.len() && pre_leaves[a] == j;
                                    assert(leaves@[a] == j);
                                }
                            }
                        }
                    }
                } else {
                    proof {
                        assert(exists|m: int|
                            0 <= m < deps@[i as int]@.len() && !names_set(
                                emitted_names@,
                            ).contains(deps@[i as int]@[m]@));
                    }
                }
            }
        }

        if leaves.len() == 0 {
            proof {
                assert(count_true(alive@) > 0);
                lemma_count_true_pos(alive@);
                assert forall|j: int| 0 <= j < n && alive@[j] implies exists|m: int|
                    0 <= m < deps@[j]@.len() && !names_set(emitted_names@).contains(
                        deps@[j]@[m]@,
                    ) by {
                    assert(!(exists|a: int| 0 <= a < leaves@.len() && leaves@[a] == j));
                }
            }
            let fb = finish_blocked(
                stms,
                &names,
                res,
                &alive,
                Ghost(deps@),
                Ghost(emitted_idx),
                Ghost(emitted_names@),
            );
            let ghost ov = fb.0@;
            let ghost bv = fb.1@;
            let r = (fb.0, Some(fb.1));
            proof {
                let perm0 = choose|perm: Seq<int>| is_reordering(perm, stms@, ov);
                assert(is_reordering(perm0, stms@, r.0@));
                let (perm1, k1) = choose|perm: Seq<int>, k: int|
                    blocked_shape(perm, k, stms@, ov, bv);
                assert(blocked_shape(perm1, k1, stms@, r.0@, bv));
                assert(r.1 matches Some(ns) && ns@ == bv);
                assert forall|kk: int| 0 <= kk < bv.len() implies exists|j: int|
                    0 <= j < stms@.len() && spec_stm_name(&stms@[j]) == #[trigger] bv[kk]@ by {
                    let j = choose|j: int|
                        0 <= j < stms@.len() && spec_stm_name(&stms@[j]) == bv[kk]@;
                    assert(spec_stm_name(&stms@[j]) == bv[kk]@);
                }
                if distinct_stm_names(stms@) {
                    assert forall|c: Seq<int>, kc: int|
                        is_cycle(stms@, c) && 0 <= kc < c.len() implies names_set(bv).contains(
                        spec_stm_name(&stms@[#[trigger] c[kc]]),
                    ) by {}
                }
            }
            return r;
        }

        // Emit this round's leaves, in source order.
        let ghost scan_emitted = emitted_names@;
        let ln = leaves.len();
        let ghost pre_round_idx = emitted_idx;
        for k in 0..ln
            invariant
                n == stms.len(),
                names@.len() == n as nat,
                forall|j: int| 0 <= j < n ==> #[trigger] names@[j]@ == spec_stm_name(&stms@[j]),
                names_set(names@) == local_names(stms@),
                deps@.len() == n as nat,
                forall|j: int|
                    0 <= j < n ==> names_set(#[trigger] deps@[j]@) == stm_deps(stms@[j]).intersect(
                        local_names(stms@),
                    ),
                alive@.len() == n as nat,
                ln == leaves@.len(),
                forall|a: int, b: int| 0 <= a < b < leaves@.len() ==> leaves@[a] < leaves@[b],
                forall|a: int| 0 <= a < leaves@.len() ==> (#[trigger] leaves@[a]) < n,
                forall|a: int| k <= a < leaves@.len() ==> alive@[#[trigger] leaves@[a] as int],
                forall|a: int, m: int|
                    0 <= a < leaves@.len() && 0 <= m < deps@[leaves@[a] as int]@.len()
                        ==> names_set(scan_emitted).contains(
                        #[trigger] deps@[leaves@[a] as int]@[m]@,
                    ),
                forall|d: Seq<char>|
                    names_set(scan_emitted).contains(d) ==> names_set(emitted_names@).contains(d),
                res@.len() == emitted_idx.len(),
                res@.len() == emitted_names@.len(),
                res@.len() + count_true(alive@) == n,
                emitted_idx.len() == pre_round_idx.len() + k,
                forall|p: int|
                    0 <= p < emitted_idx.len() ==> 0 <= #[trigger] emitted_idx[p] < n,
                forall|p: int|
                    0 <= p < emitted_idx.len() ==> *res@[p] == stms@[#[trigger] emitted_idx[p]],
                forall|p: int|
                    0 <= p < emitted_idx.len() ==> #[trigger] emitted_names@[p]@ == spec_stm_name(
                        &stms@[emitted_idx[p]],
                    ),
                forall|p: int| 0 <= p < emitted_idx.len() ==> !alive@[#[trigger] emitted_idx[p]],
                forall|j: int|
                    0 <= j < n && !alive@[j] ==> exists|p: int|
                        0 <= p < emitted_idx.len() && emitted_idx[p] == j,
                forall|p: int, q: int|
                    0 <= p < q < emitted_idx.len() ==> emitted_idx[p] != emitted_idx[q],
                forall|q: int, d: Seq<char>|
                    0 <= q < emitted_idx.len() && #[trigger] stm_deps(
                        stms@[emitted_idx[q]],
                    ).contains(d) && local_names(stms@).contains(d) ==> exists|r: int|
                        0 <= r < q && emitted_names@[r]@ == d,
            decreases ln - k,
        {
            let i = leaves[k];
            let ghost pre_idx = emitted_idx;
            proof {
                assert(alive@[i as int]);
                assert forall|p: int| 0 <= p < pre_idx.len() implies pre_idx[p] != i as int by {
                    assert(!alive@[pre_idx[p]]);
                }
            }
            res.push(&stms[i]);
            let ghost pre_en = emitted_names@;
            emitted_names.push(clone_string(&names[i]));
            proof {
                lemma_names_set_push(pre_en, emitted_names@.last());
                lemma_count_true_update(alive@, i as int);
                emitted_idx = emitted_idx.push(i as int);
            }
            alive.set(i, false);
            proof {
                let q = emitted_idx.len() - 1;
                assert(emitted_idx[q] == i as int);
                assert(emitted_names@[q]@ == spec_stm_name(&stms@[i as int]));
                assert forall|j: int|
                    0 <= j < n && !alive@[j] implies exists|p: int|
                    0 <= p < emitted_idx.len() && emitted_idx[p] == j by {
                    if j == i as int {
                        assert(emitted_idx[q] == j);
                    } else {
                        let p = choose|p: int| 0 <= p < pre_idx.len() && pre_idx[p] == j;
                        assert(emitted_idx[p] == j);
                    }
                }
                assert forall|p: int, q2: int|
                    0 <= p < q2 < emitted_idx.len() implies emitted_idx[p] != emitted_idx[q2] by {
                    if q2 == q {
                        assert(emitted_idx[p] == pre_idx[p]);
                    }
                }
                assert forall|d: Seq<char>|
                    names_set(scan_emitted).contains(d) implies names_set(
                    emitted_names@,
                ).contains(d) by {
                    assert(names_set(pre_en).contains(d));
                    let r = choose|r: int| 0 <= r < pre_en.len() && pre_en[r]@ == d;
                    assert(emitted_names@[r]@ == d);
                }
                assert forall|d: Seq<char>|
                    stm_deps(stms@[i as int]).contains(d) && local_names(stms@).contains(
                        d,
                    ) implies exists|r: int| 0 <= r < q && emitted_names@[r]@ == d by {
                    assert(names_set(deps@[i as int]@).contains(d));
                    assert(names_set(scan_emitted).contains(d)) by {
                        let m = choose|m: int|
                            0 <= m < deps@[i as int]@.len() && deps@[i as int]@[m]@ == d;
                        assert(names_set(scan_emitted).contains(deps@[i as int]@[m]@));
                    }
                    assert(names_set(pre_en).contains(d));
                    let r = choose|r: int| 0 <= r < pre_en.len() && pre_en[r]@ == d;
                    assert(emitted_names@[r]@ == d);
                }
                assert forall|q2: int, d: Seq<char>|
                    0 <= q2 < emitted_idx.len() && #[trigger] stm_deps(
                        stms@[emitted_idx[q2]],
                    ).contains(d) && local_names(stms@).contains(d) implies exists|r: int|
                    0 <= r < q2 && emitted_names@[r]@ == d by {
                    if q2 < q {
                        assert(emitted_idx[q2] == pre_idx[q2]);
                        assert(stm_deps(stms@[pre_idx[q2]]).contains(d));
                        let r = choose|r: int| 0 <= r < q2 && pre_en[r]@ == d;
                        assert(emitted_names@[r]@ == d);
                    }
                }
            }
        }
    }
    proof {
        assert(count_true(alive@) == 0);
        lemma_count_true_zero(alive@);
        assert forall|i: int, d: Seq<char>|
            0 <= i < res@.len() && #[trigger] stm_deps(*res@[i]).contains(d) && local_names(
                stms@,
            ).contains(d) implies exists|j: int| 0 <= j < i && spec_stm_name(res@[j]) == d by {
            assert(*res@[i] == stms@[emitted_idx[i]]);
            let r = choose|r: int| 0 <= r < i && emitted_names@[r]@ == d;
            assert(spec_stm_name(res@[r]) == d);
        }
        if distinct_stm_names(stms@) {
            assert forall|p: int, q: int|
                0 <= p < q < res@.len() implies spec_stm_name(res@[p]) != spec_stm_name(
                res@[q],
            ) by {
                assert(*res@[p] == stms@[emitted_idx[p]]);
                assert(*res@[q] == stms@[emitted_idx[q]]);
                if spec_stm_name(res@[p]) == spec_stm_name(res@[q]) {
                    lemma_same_name_same_index(stms@, emitted_idx[p], emitted_idx[q]);
                    assert(false);
                }
            }
            if exists|c: Seq<int>| is_cycle(stms@, c) {
                let c = choose|c: Seq<int>| is_cycle(stms@, c);
                assert(0 <= c[0] < stms@.len());
                assert(!alive@[c[0]]);
                let p = choose|p: int| 0 <= p < emitted_idx.len() && emitted_idx[p] == c[0];
                lemma_cycle_stays(stms@, emitted_idx, emitted_names@, c, p);
                assert(false);
            }
            assert(!(exists|c: Seq<int>| is_cycle(stms@, c)));
        }
        assert(distinct_stm_names(stms@) ==> !(exists|c: Seq<int>| is_cycle(stms@, c)));
    }
    let ghost rv = res@;
    let r = (res, Option::<Vec<String>>::None);
    proof {
        assert(r.0@ == rv);
        assert(is_reordering(emitted_idx, stms@, r.0@));
        assert forall|i: int, d: Seq<char>|
            0 <= i < r.0@.len() && #[trigger] stm_deps(*r.0@[i]).contains(d) && local_names(
                stms@,
            ).contains(d) implies exists|j: int| 0 <= j < i && spec_stm_name(r.0@[j]) == d by {
            assert(stm_deps(*rv[i]).contains(d));
            let j = choose|j: int| 0 <= j < i && spec_stm_name(rv[j]) == d;
            assert(spec_stm_name(r.0@[j]) == d);
        }
        if distinct_stm_names(stms@) {
            assert forall|p: int, q: int|
                0 <= p < q < r.0@.len() implies spec_stm_name(r.0@[p]) != spec_stm_name(
                r.0@[q],
            ) by {
                assert(r.0@[p] == rv[p] && r.0@[q] == rv[q]);
            }
        }
    }
    r
}


/// Appends the statements that could not be placed, in source order,
/// and collects their names.
#[verifier::rlimit(100)]
#[verifier::spinoff_prover]
fn finish_blocked<'a>(
    stms: &'a Vec<Statement>,
    names: &Vec<String>,
    res_in: Vec<&'a Statement>,
    alive_in: &Vec<bool>,
    deps_g: Ghost<Seq<Vec<String>>>,
    emitted_idx_g: Ghost<Seq<int>>,
    emitted_names_g: Ghost<Seq<String>>,
)
 -> (r: (Vec<&'a Statement>, Vec<String>))
    requires
        names@.len() == stms@.len(),
        forall|j: int| 0 <= j < stms@.len() ==> #[trigger] names@[j]@ == spec_stm_name(&stms@[j]),
        deps_g@.len() == stms@.len(),
        forall|j: int|
            0 <= j < stms@.len() ==> names_set(#[trigger] deps_g@[j]@) == stm_deps(
                stms@[j],
            ).intersect(local_names(stms@)),
        alive_in@.len() == stms@.len(),
        res_in@.len() == emitted_idx_g@.len(),
        res_in@.len() == emitted_names_g@.len(),
        count_true(alive_in@) + res_in@.len() == stms@.len(),
        count_true(alive_in@) > 0,
        forall|p: int|
            0 <= p < emitted_idx_g@.len() ==> 0 <= #[trigger] emitted_idx_g@[p] < stms@.len(),
        forall|p: int|
            0 <= p < emitted_idx_g@.len() ==> *res_in@[p] == stms@[#[trigger] emitted_idx_g@[p]],
        forall|p: int|
            0 <= p < emitted_idx_g@.len() ==> #[trigger] emitted_names_g@[p]@ == spec_stm_name(
                &stms@[emitted_idx_g@[p]],
            ),
        forall|p: int| 0 <= p < emitted_idx_g@.len() ==> !alive_in@[#[trigger] emitted_idx_g@[p]],
        forall|p: int, q: int|
            0 <= p < q < emitted_idx_g@.len() ==> emitted_idx_g@[p] != emitted_idx_g@[q],
        forall|j: int|
            0 <= j < stms@.len() && !alive_in@[j] ==> exists|p: int|
                0 <= p < emitted_idx_g@.len() && emitted_idx_g@[p] == j,
        forall|q: int, d: Seq<char>|
            0 <= q < emitted_idx_g@.len() && #[trigger] stm_deps(
                stms@[emitted_idx_g@[q]],
            ).contains(d) && local_names(stms@).contains(d) ==> exists|r: int|
                0 <= r < q && emitted_names_g@[r]@ == d,
        forall|j: int|
            0 <= j < stms@.len() && alive_in@[j] ==> exists|m: int|
                0 <= m < deps_g@[j]@.len() && !names_set(emitted_names_g@).contains(
                    deps_g@[j]@[m]@,
                ),
    ensures
        exists|perm: Seq<int>| is_reordering(perm, stms@, r.0@),
        r.1@.len() >= 1,
        exists|perm: Seq<int>, k: int| blocked_shape(perm, k, stms@, r.0@, r.1@),
        forall|kk: int|
            0 <= kk < r.1@.len() ==> exists|j: int|
                0 <= j < stms@.len() && spec_stm_name(&stms@[j]) == #[trigger] r.1@[kk]@,
        distinct_stm_names(stms@) ==> forall|c: Seq<int>, kc: int|
            is_cycle(stms@, c) && 0 <= kc < c.len() ==> names_set(r.1@).contains(
                spec_stm_name(&stms@[#[trigger] c[kc]]),
            ),
        distinct_stm_names(stms@) ==> exists|c: Seq<int>| is_cycle(stms@, c),
{
    let ghost deps = deps_g@;
    let ghost emitted_idx = emitted_idx_g@;
    let ghost emitted_names = emitted_names_g@;
    let ghost k0 = emitted_idx.len() as int;
    let n = stms.len();
    let alive = alive_in;
    let mut out = res_in;
    let mut blocked: Vec<String> = Vec::new();
    let ghost mut out_idx: Seq<int> = emitted_idx;
    let ghost mut posmap: Map<int, int> = Map::empty();
    let mut j: usize = 0;
    while j < n
        invariant
            j <= n,
            n == stms.len(),
            names@.len() == n as nat,
            forall|jj: int| 0 <= jj < n ==> #[trigger] names@[jj]@ == spec_stm_name(&stms@[jj]),
            alive@.len() == n as nat,
            k0 == emitted_idx.len(),
            out_idx.len() == out@.len(),
            out@.len() >= k0,
            blocked@.len() + k0 == out@.len(),
            forall|p: int| 0 <= p < k0 ==> #[trigger] out_idx[p] == emitted_idx[p],
            forall|p: int|
                0 <= p < out@.len() ==> 0 <= #[trigger] out_idx[p] < n && *out@[p]
                    == stms@[out_idx[p]],
            forall|p: int|
                k0 <= p < out_idx.len() ==> alive@[#[trigger] out_idx[p]] && out_idx[p] < j,
            forall|p: int, q: int| k0 <= p < q < out_idx.len() ==> out_idx[p] < out_idx[q],
            forall|p: int|
                k0 <= p < out_idx.len() ==> #[trigger] blocked@[p - k0]@ == names@[out_idx[p]]@,
            forall|jj: int|
                0 <= jj < j && alive@[jj] ==> names_set(blocked@).contains(#[trigger] names@[jj]@),
            out@.len() + count_true_from(alive@, j as int) == k0 + count_true(alive@),
            forall|jj: int| 0 <= jj < j && alive@[jj] ==> #[trigger] posmap.contains_key(jj),
            forall|jj: int|
                0 <= jj < j && alive@[jj] && #[trigger] posmap.contains_key(jj) ==> 0 <= posmap[jj]
                    < out@.len(),
            forall|jj: int|
                0 <= jj < j && alive@[jj] && #[trigger] posmap.contains_key(jj)
                    ==> out_idx[posmap[jj]] == jj,
        decreases n - j,
    {
        proof {
            assert(count_true_from(alive@, j as int) == count_true_from(alive@, j as int + 1) + (
            if alive@[j as int] {
                1nat
            } else {
                0nat
            }));
        }
        let ghost pre_posmap = posmap;
        let ghost pre_out_idx = out_idx;
        let ghost pre_out = out@;
        let ghost pre_blocked = blocked@;
        if alive[j] {
            out.push(&stms[j]);
            blocked.push(clone_string(&names[j]));
            proof {
                lemma_names_set_push(pre_blocked, blocked@.last());
                out_idx = out_idx.push(j as int);
                posmap = posmap.insert(j as int, out@.len() - 1);
                assert(out_idx[out@.len() - 1] == j as int);
                assert(posmap[j as int] == out@.len() - 1);
                assert(*out@[out@.len() - 1] == stms@[j as int]);
                assert(blocked@[out@.len() - 1 - k0]@ == names@[j as int]@);
                assert forall|p: int| 0 <= p < pre_out.len() implies out@[p] == pre_out[p]
                    && #[trigger] out_idx[p] == pre_out_idx[p] by {}
                assert forall|p: int| 0 <= p < pre_blocked.len() implies blocked@[p]
                    == pre_blocked[p] by {}
                assert forall|jj: int|
                    0 <= jj < j + 1 && alive@[jj] implies #[trigger] posmap.contains_key(jj) by {
                    if jj != j as int {
                        assert(pre_posmap.contains_key(jj));
                    }
                }
                assert forall|jj: int|
                    0 <= jj < j + 1 && alive@[jj] && #[trigger] posmap.contains_key(jj) implies 0
                    <= posmap[jj] < out@.len() && out_idx[posmap[jj]] == jj by {
                    if jj != j as int {
                        assert(pre_posmap.contains_key(jj));
                        assert(posmap[jj] == pre_posmap[jj]);
                        assert(pre_out_idx[pre_posmap[jj]] == jj);
                        assert(out_idx[posmap[jj]] == jj);
                    }
                }
            }
        } else {
            proof {
                assert(!alive@[j as int]);
                assert forall|jj: int|
                    0 <= jj < j + 1 && alive@[jj] implies #[trigger] posmap.contains_key(jj) by {
                    assert(jj != j as int);
                }
            }
        }
        j = j + 1;
    }
    proof {
        assert(count_true_from(alive@, n as int) == 0);
        lemma_finish_shape(
            stms@,
            names@,
            emitted_idx,
            emitted_names,
            alive@,
            out@,
            out_idx,
            posmap,
            blocked@,
            k0,
        );
        lemma_count_true_pos(alive@);
        let ghost blocked_idx = Seq::new(blocked@.len(), |p: int| out_idx[k0 + p]);
        assert forall|kk: int|
            0 <= kk < blocked_idx.len() implies 0 <= #[trigger] blocked_idx[kk] < stms@.len()
            && alive@[blocked_idx[kk]] && blocked@[kk]@ == names@[blocked_idx[kk]]@ by {
            assert(blocked_idx[kk] == out_idx[k0 + kk]);
            assert(blocked@[(k0 + kk) - k0]@ == names@[out_idx[k0 + kk]]@);
        }
        lemma_err_reports(
            stms@,
            names@,
            deps,
            emitted_idx,
            emitted_names,
            alive@,
            blocked@,
            blocked_idx,
        );
        if distinct_stm_names(stms@) {
            lemma_blocked_cycle_exists(
                stms@,
                names@,
                deps,
                emitted_idx,
                emitted_names,
                alive@,
                blocked@,
                blocked_idx,
            );
        }
    }
    let ghost bv = blocked@;
    let r = (out, blocked);
    proof {
        assert(r.1@ == bv);
        assert(names_set(r.1@) == names_set(bv));
        assert(is_reordering(out_idx, stms@, r.0@));
        assert(blocked_shape(out_idx, k0, stms@, r.0@, r.1@));
        assert forall|kk: int| 0 <= kk < r.1@.len() implies exists|j: int|
            0 <= j < stms@.len() && spec_stm_name(&stms@[j]) == #[trigger] r.1@[kk]@ by {
            assert(r.1@[kk]@ == bv[kk]@);
            let j = choose|j: int| 0 <= j < stms@.len() && spec_stm_name(&stms@[j]) == bv[kk]@;
            assert(spec_stm_name(&stms@[j]) == r.1@[kk]@);
        }
    }
    r
}

/// At the end of the append pass: the output reorders the statements,
/// its emitted prefix keeps the ordering, and the remainder follows in
/// source order carrying the blocked names.
#[verifier::rlimit(100)]
#[verifier::spinoff_prover]
proof fn lemma_finish_shape(
    stms: Seq<Statement>,
    names: Seq<String>,
    emitted_idx: Seq<int>,
    emitted_names: Seq<String>,
    alive: Seq<bool>,
    out: Seq<&Statement>,
    out_idx: Seq<int>,
    posmap: Map<int, int>,
    blocked: Seq<String>,
    k0: int,
)
    requires
        names.len() == stms.len(),
        forall|j: int| 0 <= j < stms.len() ==> #[trigger] names[j]@ == spec_stm_name(&stms[j]),
        alive.len() == stms.len(),
        k0 == emitted_idx.len(),
        emitted_idx.len() == emitted_names.len(),
        forall|p: int| 0 <= p < emitted_idx.len() ==> 0 <= #[trigger] emitted_idx[p] < stms.len(),
        forall|p: int|
            0 <= p < emitted_idx.len() ==> #[trigger] emitted_names[p]@ == spec_stm_name(
                &stms[emitted_idx[p]],
            ),
        forall|p: int| 0 <= p < emitted_idx.len() ==> !alive[#[trigger] emitted_idx[p]],
        forall|p: int, q: int|
            0 <= p < q < emitted_idx.len() ==> emitted_idx[p] != emitted_idx[q],
        forall|j: int|
            0 <= j < stms.len() && !alive[j] ==> exists|p: int|
                0 <= p < emitted_idx.len() && emitted_idx[p] == j,
        forall|q: int, d: Seq<char>|
            0 <= q < emitted_idx.len() && #[trigger] stm_deps(stms[emitted_idx[q]]).contains(d)
                && local_names(stms).contains(d) ==> exists|r: int|
                0 <= r < q && emitted_names[r]@ == d,
        out_idx.len() == out.len(),
        out.len() == stms.len(),
        blocked.len() + k0 == out.len(),
        blocked.len() >= 1,
        forall|p: int| 0 <= p < k0 ==> #[trigger] out_idx[p] == emitted_idx[p],
        forall|p: int|
            0 <= p < out.len() ==> 0 <= #[trigger] out_idx[p] < stms.len() && *out[p]
                == stms[out_idx[p]],
        forall|p: int| k0 <= p < out_idx.len() ==> alive[#[trigger] out_idx[p]],
        forall|p: int, q: int| k0 <= p < q < out_idx.len() ==> out_idx[p] < out_idx[q],
        forall|p: int|
            k0 <= p < out_idx.len() ==> #[trigger] blocked[p - k0]@ == names[out_idx[p]]@,
        forall|jj: int|
            0 <= jj < stms.len() && alive[jj] ==> #[trigger] posmap.contains_key(jj),
        forall|jj: int|
            0 <= jj < stms.len() && alive[jj] && #[trigger] posmap.contains_key(jj) ==> 0
                <= posmap[jj] < out.len(),
        forall|jj: int|
            0 <= jj < stms.len() && alive[jj] && #[trigger] posmap.contains_key(jj)
                ==> out_idx[posmap[jj]] == jj,
    ensures
        blocked_shape(out_idx, k0, stms, out, blocked),
        exists|perm: Seq<int>, k: int| blocked_shape(perm, k, stms, out, blocked),
{
    assert forall|p: int, q: int| 0 <= p < q < out_idx.len() implies out_idx[p] != out_idx[q] by {
        if q < k0 {
        } else if p < k0 {
            assert(!alive[emitted_idx[p]]);
            assert(alive[out_idx[q]]);
        }
    }
    assert(is_reordering(out_idx, stms, out));
    assert forall|i: int, d: Seq<char>|
        0 <= i < k0 && i < out.len() && #[trigger] stm_deps(*out[i]).contains(d) && local_names(
            stms,
        ).contains(d) implies exists|jx: int| 0 <= jx < i && spec_stm_name(out[jx]) == d by {
        assert(*out[i] == stms[emitted_idx[i]]);
        let r = choose|r: int| 0 <= r < i && emitted_names[r]@ == d;
        assert(*out[r] == stms[emitted_idx[r]]);
        assert(spec_stm_name(out[r]) == d);
    }
    assert forall|p: int|
        k0 <= p < out.len() implies #[trigger] blocked[p - k0]@ == spec_stm_name(out[p]) by {
        assert(*out[p] == stms[out_idx[p]]);
        assert(blocked[p - k0]@ == names[out_idx[p]]@);
    }
    assert(blocked_shape(out_idx, k0, stms, out, blocked));
}

/// The facts reported with the names of the statements that could not
/// be placed: the list is not empty, every listed name is a statement's
/// name, every listed statement has a local dependency that is also
/// listed, and, for distinct statement names, every dependency cycle
/// lies entirely inside the list.
#[verifier::rlimit(100)]
#[verifier::spinoff_prover]
proof fn lemma_err_reports(
    stms: Seq<Statement>,
    names: Seq<String>,
    deps: Seq<Vec<String>>,
    emitted_idx: Seq<int>,
    emitted_names: Seq<String>,
    alive: Seq<bool>,
    blocked: Seq<String>,
    blocked_idx: Seq<int>,
)
    requires
        names.len() == stms.len(),
        forall|j: int| 0 <= j < stms.len() ==> #[trigger] names[j]@ == spec_stm_name(&stms[j]),
        deps.len() == stms.len(),
        forall|j: int|
            0 <= j < stms.len() ==> names_set(#[trigger] deps[j]@) == stm_deps(stms[j]).intersect(
                local_names(stms),
            ),
        alive.len() == stms.len(),
        emitted_idx.len() == emitted_names.len(),
        forall|p: int| 0 <= p < emitted_idx.len() ==> 0 <= #[trigger] emitted_idx[p] < stms.len(),
        forall|p: int|
            0 <= p < emitted_idx.len() ==> #[trigger] emitted_names[p]@ == spec_stm_name(
                &stms[emitted_idx[p]],
            ),
        forall|j: int|
            0 <= j < stms.len() && !alive[j] ==> exists|p: int|
                0 <= p < emitted_idx.len() && emitted_idx[p] == j,
        forall|q: int, d: Seq<char>|
            0 <= q < emitted_idx.len() && #[trigger] stm_deps(stms[emitted_idx[q]]).contains(d)
                && local_names(stms).contains(d) ==> exists|r: int|
                0 <= r < q && emitted_names[r]@ == d,
        blocked_idx.len() == blocked.len(),
        forall|k: int|
            0 <= k < blocked_idx.len() ==> 0 <= #[trigger] blocked_idx[k] < stms.len()
                && alive[blocked_idx[k]] && blocked[k]@ == names[blocked_idx[k]]@,
        forall|jj: int|
            0 <= jj < stms.len() && alive[jj] ==> names_set(blocked).contains(
                #[trigger] names[jj]@,
            ),
        forall|j: int|
            0 <= j < stms.len() && alive[j] ==> exists|m: int|
                0 <= m < deps[j]@.len() && !names_set(emitted_names).contains(deps[j]@[m]@),
        exists|j: int| 0 <= j < alive.len() && alive[j],
    ensures
        blocked.len() >= 1,
        forall|k: int|
            0 <= k < blocked.len() ==> exists|j: int|
                0 <= j < stms.len() && spec_stm_name(&stms[j]) == #[trigger] blocked[k]@,
        forall|k: int|
            0 <= k < blocked.len() ==> exists|j: int, d: Seq<char>|
                0 <= j < stms.len() && spec_stm_name(&stms[j]) == #[trigger] blocked[k]@
                    && stm_deps(stms[j]).contains(d) && local_names(stms).contains(d)
                    && names_set(blocked).contains(d),
        distinct_stm_names(stms) ==> forall|c: Seq<int>, k: int|
            is_cycle(stms, c) && 0 <= k < c.len() ==> names_set(blocked).contains(
                spec_stm_name(&stms[#[trigger] c[k]]),
            ),
{
    let jw = choose|jw: int| 0 <= jw < alive.len() && alive[jw];
    assert(names_set(blocked).contains(names[jw]@));
    assert(blocked.len() >= 1);
    assert forall|k: int| 0 <= k < blocked.len() implies exists|j: int|
        0 <= j < stms.len() && spec_stm_name(&stms[j]) == #[trigger] blocked[k]@ by {
        let jj = blocked_idx[k];
        assert(spec_stm_name(&stms[jj]) == blocked[k]@);
    }
    assert forall|k: int| 0 <= k < blocked.len() implies exists|j: int, d: Seq<char>|
        0 <= j < stms.len() && spec_stm_name(&stms[j]) == #[trigger] blocked[k]@ && stm_deps(
            stms[j],
        ).contains(d) && local_names(stms).contains(d) && names_set(blocked).contains(d) by {
        let jj = blocked_idx[k];
        assert(alive[jj]);
        let m = choose|m: int|
            0 <= m < deps[jj]@.len() && !names_set(emitted_names).contains(deps[jj]@[m]@);
        let d = deps[jj]@[m]@;
        assert(names_set(deps[jj]@).contains(d));
        assert(stm_deps(stms[jj]).contains(d) && local_names(stms).contains(d));
        let j2 = choose|j2: int| 0 <= j2 < stms.len() && spec_stm_name(&stms[j2]) == d;
        if !alive[j2] {
            let pp = choose|pp: int| 0 <= pp < emitted_idx.len() && emitted_idx[pp] == j2;
            assert(emitted_names[pp]@ == d);
            assert(names_set(emitted_names).contains(d));
            assert(false);
        }
        assert(names_set(blocked).contains(names[j2]@));
        assert(names[j2]@ == d);
        assert(spec_stm_name(&stms[jj]) == blocked[k]@);
    }
    if distinct_stm_names(stms) {
        assert forall|c: Seq<int>, k: int|
            is_cycle(stms, c) && 0 <= k < c.len() implies names_set(blocked).contains(
            spec_stm_name(&stms[#[trigger] c[k]]),
        ) by {
            let j = c[k];
            assert(0 <= j < stms.len());
            if !alive[j] {
                let pp = choose|pp: int| 0 <= pp < emitted_idx.len() && emitted_idx[pp] == j;
                lemma_cycle_stays(stms, emitted_idx, emitted_names, c, pp);
                assert(false);
            }
            assert(names_set(blocked).contains(names[j]@));
        }
    }
}

/// The blocked statements of a failed round depend on each other, so,
/// for distinct statement names, a dependency cycle exists among them.
#[verifier::rlimit(100)]
#[verifier::spinoff_prover]
proof fn lemma_blocked_cycle_exists(
    stms: Seq<Statement>,
    names: Seq<String>,
    deps: Seq<Vec<String>>,
    emitted_idx: Seq<int>,
    emitted_names: Seq<String>,
    alive: Seq<bool>,
    blocked: Seq<String>,
    blocked_idx: Seq<int>,
)
    requires
        distinct_stm_names(stms),
        names.len() == stms.len(),
        forall|j: int| 0 <= j < stms.len() ==> #[trigger] names[j]@ == spec_stm_name(&stms[j]),
        deps.len() == stms.len(),
        forall|j: int|
            0 <= j < stms.len() ==> names_set(#[trigger] deps[j]@) == stm_deps(stms[j]).intersect(
                local_names(stms),
            ),
        alive.len() == stms.len(),
        emitted_idx.len() == emitted_names.len(),
        forall|p: int| 0 <= p < emitted_idx.len() ==> 0 <= #[trigger] emitted_idx[p] < stms.len(),
        forall|p: int|
            0 <= p < emitted_idx.len() ==> #[trigger] emitted_names[p]@ == spec_stm_name(
                &stms[emitted_idx[p]],
            ),
        forall|j: int|
            0 <= j < stms.len() && !alive[j] ==> exists|p: int|
                0 <= p < emitted_idx.len() && emitted_idx[p] == j,
        blocked_idx.len() == blocked.len(),
        forall|k: int|
            0 <= k < blocked_idx.len() ==> 0 <= #[trigger] blocked_idx[k] < stms.len()
                && alive[blocked_idx[k]] && blocked[k]@ == names[blocked_idx[k]]@,
        forall|jj: int|
            0 <= jj < stms.len() && alive[jj] ==> names_set(blocked).contains(
                #[trigger] names[jj]@,
            ),
        forall|j: int|
            0 <= j < stms.len() && alive[j] ==> exists|m: int|
                0 <= m < deps[j]@.len() && !names_set(emitted_names).contains(deps[j]@[m]@),
        exists|j: int| 0 <= j < alive.len() && alive[j],
    ensures
        exists|c: Seq<int>| is_cycle(stms, c),
{
    let bset = names_set(blocked);
    assert forall|j: int|
        0 <= j < stms.len() && bset.contains(spec_stm_name(&stms[j])) implies exists|j2: int|
        0 <= j2 < stms.len() && bset.contains(spec_stm_name(&stms[j2])) && #[trigger] stm_deps(
            stms[j],
        ).contains(spec_stm_name(&stms[j2])) by {
        let kk = choose|kk: int| 0 <= kk < blocked.len() && blocked[kk]@ == spec_stm_name(&stms[j]);
        let jj = blocked_idx[kk];
        lemma_same_name_same_index(stms, jj, j);
        assert(alive[j]);
        let m = choose|m: int|
            0 <= m < deps[j]@.len() && !names_set(emitted_names).contains(deps[j]@[m]@);
        let d = deps[j]@[m]@;
        assert(names_set(deps[j]@).contains(d));
        assert(stm_deps(stms[j]).contains(d) && local_names(stms).contains(d));
        let j2 = choose|j2: int| 0 <= j2 < stms.len() && spec_stm_name(&stms[j2]) == d;
        if !alive[j2] {
            let pp = choose|pp: int| 0 <= pp < emitted_idx.len() && emitted_idx[pp] == j2;
            assert(emitted_names[pp]@ == d);
            assert(names_set(emitted_names).contains(d));
            assert(false);
        }
        assert(names_set(blocked).contains(names[j2]@));
        assert(bset.contains(spec_stm_name(&stms[j2])));
        assert(stm_deps(stms[j]).contains(spec_stm_name(&stms[j2])));
    }
    let j0 = choose|j0: int| 0 <= j0 < alive.len() && alive[j0];
    assert(names_set(blocked).contains(names[j0]@));
    assert(bset.contains(spec_stm_name(&stms[j0])));
    crate::sorting_laws::lemma_blocked_has_cycle(stms, bset, j0);
}


/// `perm` certifies that `sorted` lists exactly the statements of
/// `stms`, each source position used once: `sorted[p]` is the statement
/// at source position `perm[p]`, and the positions are distinct.
pub open spec fn is_reordering(perm: Seq<int>, stms: Seq<Statement>, sorted: Seq<&Statement>) -> bool {
    &&& perm.len() == stms.len()
    &&& sorted.len() == stms.len()
    &&& forall|p: int| 0 <= p < perm.len() ==> 0 <= #[trigger] perm[p] < stms.len()
    &&& forall|p: int, q: int| 0 <= p < q < perm.len() ==> perm[p] != perm[q]
    &&& forall|p: int| 0 <= p < perm.len() ==> *(#[trigger] sorted[p]) == stms[perm[p]]
}

/// The ordering property restricted to the first `k` output positions.
pub open spec fn prefix_ordered(stms: Seq<Statement>, sorted: Seq<&Statement>, k: int) -> bool {
    forall|i: int, d: Seq<char>|
        0 <= i < k && i < sorted.len() && #[trigger] stm_deps(*sorted[i]).contains(d)
            && local_names(stms).contains(d) ==> exists|j: int|
            0 <= j < i && spec_stm_name(sorted[j]) == d
}

/// The shape of a blocked outcome: `sorted` reorders the statements so
/// that the first `k` are fully ordered and the rest follow in source
/// order; `names` lists the names of the rest, in that order.
pub open spec fn blocked_shape(
    perm: Seq<int>,
    k: int,
    stms: Seq<Statement>,
    sorted: Seq<&Statement>,
    names: Seq<String>,
) -> bool {
    &&& is_reordering(perm, stms, sorted)
    &&& 0 <= k <= sorted.len()
    &&& prefix_ordered(stms, sorted, k)
    &&& forall|p: int, q: int| k <= p < q < perm.len() ==> perm[p] < perm[q]
    &&& names.len() + k == sorted.len()
    &&& forall|p: int|
        k <= p < sorted.len() ==> #[trigger] names[p - k]@ == spec_stm_name(sorted[p])
}

} // verus!
