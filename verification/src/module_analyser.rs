//! The declaration analyzer and import linker: expands each top-level
//! statement into the declarations it exposes, validates type aliases,
//! generates ADT constructor functions, resolves imports against
//! previously analyzed modules, and glues the pieces together over the
//! dependency sorter.

use vstd::prelude::*;
use crate::ast::{
    Adt, AdtV, AdtVariant, AdtVariantV, Statement, Type, TypeV, clone_string, clone_string_vec,
    clone_type, fun_type_of, types_dv, lemma_types_dv, strings_dv, build_fun_type,
};
use crate::errors::{TypeError, TypeErrorV, clone_type_error};
use crate::loader::{Declaration, DeclarationV, decls_dv};
use crate::name_map::string_eq;

verus! {

broadcast use
    vstd::std_specs::vec::axiom_vec_index_decreases,
    vstd::seq::axiom_seq_index_decreases;

// ---------------------------------------------------------------------
// Free type variables of a type term.
// ---------------------------------------------------------------------
/// The names of the `Var` nodes of `t`, appended to `acc` in first-
/// occurrence order, without duplicates. The head of a `RecExt` is a
/// nominal reference, not a variable, and is not collected.
pub open spec fn var_list_acc(t: Type, acc: Seq<Seq<char>>) -> Seq<Seq<char>>
    decreases t,
{
    match t {
        Type::Var(n) => if acc.contains(n@) {
            acc
        } else {
            acc.push(n@)
        },
        Type::Tag(_, args) => vars_list_acc(args@, acc),
        Type::Fun(a, b) => var_list_acc(*b, var_list_acc(*a, acc)),
        Type::Unit => acc,
        Type::Tuple(items) => vars_list_acc(items@, acc),
        Type::Record(fields) => field_vars_list_acc(fields@, acc),
        Type::RecExt(_, fields) => field_vars_list_acc(fields@, acc),
    }
}

/// Fold of `var_list_acc` over a sequence of types.
pub open spec fn vars_list_acc(s: Seq<Type>, acc: Seq<Seq<char>>) -> Seq<Seq<char>>
    decreases s,
{
    if s.len() == 0 {
        acc
    } else {
        vars_list_acc(s.drop_first(), var_list_acc(s[0], acc))
    }
}

/// Fold of `var_list_acc` over the types of named fields.
pub open spec fn field_vars_list_acc(s: Seq<(String, Type)>, acc: Seq<Seq<char>>) -> Seq<Seq<char>>
    decreases s,
{
    if s.len() == 0 {
        acc
    } else {
        field_vars_list_acc(s.drop_first(), var_list_acc(s[0].1, acc))
    }
}

/// The free type variables of `t`, in first-occurrence order.
pub open spec fn free_var_list(t: Type) -> Seq<Seq<char>> {
    var_list_acc(t, Seq::empty())
}

fn contains_view(v: &Vec<String>, name: &str) -> (r: bool)
    ensures
        r == strings_dv(v@).contains(name@),
{
    let n = v.len();
    for i in 0..n
        invariant
            n == v.len(),
            forall|j: int| 0 <= j < i ==> strings_dv(v@)[j] != name@,
        decreases n - i,
    {
        if string_eq(&v[i], name) {
            proof {
                assert(strings_dv(v@)[i as int] == name@);
            }
            return true;
        }
    }
    proof {
        assert forall|j: int| 0 <= j < strings_dv(v@).len() implies strings_dv(v@)[j]
            != name@ by {}
    }
    false
}

fn collect_type_vars(t: &Type, acc: &mut Vec<String>)
    ensures
        strings_dv(final(acc)@) == var_list_acc(*t, strings_dv(old(acc)@)),
    decreases t,
{
    match t {
        Type::Var(n) => {
            if !contains_view(acc, n.as_str()) {
                acc.push(clone_string(n));
                proof {
                    assert(strings_dv(acc@) =~= strings_dv(old(acc)@).push(n@));
                }
            }
        },
        Type::Tag(_, args) => {
            collect_types_vars(args, acc);
        },
        Type::Fun(a, b) => {
            collect_type_vars(a, acc);
            collect_type_vars(b, acc);
        },
        Type::Unit => {},
        Type::Tuple(items) => {
            collect_types_vars(items, acc);
        },
        Type::Record(fields) => {
            collect_field_types_vars(fields, acc);
        },
        Type::RecExt(_, fields) => {
            collect_field_types_vars(fields, acc);
        },
    }
}

fn collect_types_vars(s: &Vec<Type>, acc: &mut Vec<String>)
    ensures
        strings_dv(final(acc)@) == vars_list_acc(s@, strings_dv(old(acc)@)),
    decreases s,
{
    let n = s.len();
    proof {
        assert(s@.skip(0) =~= s@);
    }
    for i in 0..n
        invariant
            n == s.len(),
            vars_list_acc(s@, strings_dv(old(acc)@)) == vars_list_acc(
                s@.skip(i as int),
                strings_dv(acc@),
            ),
        decreases n - i,
    {
        proof {
            assert(s@.skip(i as int)[0] == s@[i as int]);
            assert(s@.skip(i as int).drop_first() =~= s@.skip(i + 1));
        }
        collect_type_vars(&s[i], acc);
    }
    proof {
        assert(s@.skip(n as int).len() == 0);
    }
}

fn collect_field_types_vars(s: &Vec<(String, Type)>, acc: &mut Vec<String>)
    ensures
        strings_dv(final(acc)@) == field_vars_list_acc(s@, strings_dv(old(acc)@)),
    decreases s,
{
    let n = s.len();
    proof {
        assert(s@.skip(0) =~= s@);
    }
    for i in 0..n
        invariant
            n == s.len(),
            field_vars_list_acc(s@, strings_dv(old(acc)@)) == field_vars_list_acc(
                s@.skip(i as int),
                strings_dv(acc@),
            ),
        decreases n - i,
    {
        proof {
            assert(s@.skip(i as int)[0] == s@[i as int]);
            assert(s@.skip(i as int).drop_first() =~= s@.skip(i + 1));
        }
        collect_type_vars(&s[i].1, acc);
    }
    proof {
        assert(s@.skip(n as int).len() == 0);
    }
}

/// Collects the free type variables of `t`, in first-occurrence order,
/// without duplicates.
pub fn get_type_variables(t: &Type) -> (res: Vec<String>)
    ensures
        strings_dv(res@) == free_var_list(*t),
{
    let mut acc: Vec<String> = Vec::new();
    proof {
        assert(strings_dv(Seq::<String>::empty()) =~= Seq::<Seq<char>>::empty());
    }
    collect_type_vars(t, &mut acc);
    acc
}

// ---------------------------------------------------------------------
// Alias validation.
// ---------------------------------------------------------------------
/// The entries of `xs` that `ys` does not contain, in order.
pub open spec fn filter_not_in(xs: Seq<Seq<char>>, ys: Seq<Seq<char>>) -> Seq<Seq<char>>
    decreases xs,
{
    if xs.len() == 0 {
        Seq::empty()
    } else if ys.contains(xs[0]) {
        filter_not_in(xs.drop_first(), ys)
    } else {
        seq![xs[0]] + filter_not_in(xs.drop_first(), ys)
    }
}

/// The filter is empty exactly when every entry of `xs` occurs in `ys`.
pub proof fn lemma_filter_not_in_empty(xs: Seq<Seq<char>>, ys: Seq<Seq<char>>)
    ensures
        (filter_not_in(xs, ys).len() == 0) <==> (forall|i: int|
            0 <= i < xs.len() ==> ys.contains(#[trigger] xs[i])),
    decreases xs,
{
    if xs.len() > 0 {
        lemma_filter_not_in_empty(xs.drop_first(), ys);
        if filter_not_in(xs, ys).len() == 0 {
            assert forall|i: int| 0 <= i < xs.len() implies ys.contains(#[trigger] xs[i]) by {
                if i > 0 {
                    assert(xs.drop_first()[i - 1] == xs[i]);
                }
            }
        } else {
            if forall|i: int| 0 <= i < xs.len() ==> ys.contains(#[trigger] xs[i]) {
                assert forall|i: int|
                    0 <= i < xs.drop_first().len() implies ys.contains(
                    #[trigger] xs.drop_first()[i],
                ) by {
                    assert(xs.drop_first()[i] == xs[i + 1]);
                }
                assert(false);
            }
        }
    }
}

fn filter_not_in_exec(xs: &Vec<String>, ys: &Vec<String>) -> (res: Vec<String>)
    ensures
        strings_dv(res@) == filter_not_in(strings_dv(xs@), strings_dv(ys@)),
{
    let mut res: Vec<String> = Vec::new();
    let n = xs.len();
    proof {
        assert(strings_dv(xs@).skip(0) =~= strings_dv(xs@));
        assert(strings_dv(res@) =~= Seq::<Seq<char>>::empty());
    }
    for i in 0..n
        invariant
            n == xs.len(),
            filter_not_in(strings_dv(xs@), strings_dv(ys@)) =~= strings_dv(res@) + filter_not_in(
                strings_dv(xs@).skip(i as int),
                strings_dv(ys@),
            ),
        decreases n - i,
    {
        proof {
            assert(strings_dv(xs@).skip(i as int)[0] == strings_dv(xs@)[i as int]);
            assert(strings_dv(xs@).skip(i as int).drop_first() =~= strings_dv(xs@).skip(i + 1));
        }
        if !contains_view(ys, xs[i].as_str()) {
            let ghost pre = res@;
            res.push(clone_string(&xs[i]));
            proof {
                assert(strings_dv(res@) =~= strings_dv(pre).push(strings_dv(xs@)[i as int]));
                assert(strings_dv(pre) + (seq![strings_dv(xs@)[i as int]] + filter_not_in(
                    strings_dv(xs@).skip(i + 1),
                    strings_dv(ys@),
                )) =~= strings_dv(res@) + filter_not_in(
                    strings_dv(xs@).skip(i + 1),
                    strings_dv(ys@),
                ));
            }
        }
    }
    proof {
        assert(strings_dv(xs@).skip(n as int).len() == 0);
        assert(strings_dv(res@) + Seq::<Seq<char>>::empty() =~= strings_dv(res@));
    }
    res
}

/// The declarations an alias statement `name vars = ty` expands to:
/// the alias itself and, when the body is a record, a constructor
/// function from the field types, in source field order, to the record.
pub open spec fn alias_decls_v(name: Seq<char>, ty: Type) -> Seq<DeclarationV> {
    match ty {
        Type::Record(fields) => seq![
            DeclarationV::Alias(name, ty.dv()),
            DeclarationV::Def(name, record_ctor_type_v(fields@, ty.dv())),
        ],
        _ => seq![DeclarationV::Alias(name, ty.dv())],
    }
}

/// The type of a record constructor: the field types, in order, curried
/// to the record type itself.
pub open spec fn record_ctor_type_v(fields: Seq<(String, Type)>, record: TypeV) -> TypeV {
    fun_type_of(field_types_dv(fields) + seq![record])
}

/// The models of the field types, in order.
pub open spec fn field_types_dv(fields: Seq<(String, Type)>) -> Seq<TypeV> {
    Seq::new(fields.len(), |i: int| fields[i].1.dv())
}

/// Validates a type alias `name decl_vars = ty` and expands it.
///
/// Succeeds exactly when the declared variables are the free variables
/// of the body, as sets. Variables declared but unused are reported as
/// `UnusedTypeVariables`, in declaration order; failing that, variables
/// used but undeclared are reported as `UndeclaredTypeVariables`, in
/// first-occurrence order. On success the alias declaration is emitted,
/// followed, for a record body, by the record constructor function.
pub fn analyze_type_alias(name: &str, decl_vars: &Vec<String>, ty: &Type) -> (res: Result<
    Vec<Declaration>,
    TypeError,
>)
    ensures
        ({
            let free = free_var_list(*ty);
            let declared = strings_dv(decl_vars@);
            let unused = filter_not_in(declared, free);
            let undeclared = filter_not_in(free, declared);
            &&& (res is Ok <==> unused.len() == 0 && undeclared.len() == 0)
            &&& (unused.len() > 0 ==> (res matches Err(e) && e.dv()
                == TypeErrorV::UnusedTypeVariables(unused)))
            &&& (unused.len() == 0 && undeclared.len() > 0 ==> (res matches Err(e) && e.dv()
                == TypeErrorV::UndeclaredTypeVariables(undeclared)))
            &&& (res matches Ok(decls) ==> decls_dv(decls@) =~= alias_decls_v(name@, *ty))
        }),
{
    let free = get_type_variables(ty);
    let unused = filter_not_in_exec(decl_vars, &free);
    if unused.len() > 0 {
        return Err(TypeError::UnusedTypeVariables(unused));
    }
    let undeclared = filter_not_in_exec(&free, decl_vars);
    if undeclared.len() > 0 {
        return Err(TypeError::UndeclaredTypeVariables(undeclared));
    }
    let mut decls: Vec<Declaration> = Vec::new();
    decls.push(Declaration::Alias(String::from_str(name), clone_type(ty)));
    match ty {
        Type::Record(fields) => {
            let mut args: Vec<Type> = Vec::new();
            let n = fields.len();
            for i in 0..n
                invariant
                    n == fields.len(),
                    args@.len() == i as nat,
                    forall|j: int| 0 <= j < i ==> args@[j].dv() == fields@[j].1.dv(),
                decreases n - i,
            {
                args.push(clone_type(&fields[i].1));
            }
            let ctor = if args.len() == 0 {
                clone_type(ty)
            } else {
                args.push(clone_type(ty));
                build_fun_type(&args)
            };
            proof {
                lemma_types_dv(args@);
                if fields@.len() == 0 {
                    assert(field_types_dv(fields@) + seq![ty.dv()] =~= seq![ty.dv()]);
                } else {
                    assert(types_dv(args@) =~= field_types_dv(fields@) + seq![ty.dv()]);
                }
            }
            decls.push(Declaration::Def(String::from_str(name), ctor));
            proof {
                assert(decls_dv(decls@) =~= alias_decls_v(name@, *ty));
            }
        },
        _ => {
            proof {
                assert(decls_dv(decls@) =~= alias_decls_v(name@, *ty));
            }
        },
    }
    Ok(decls)
}

/// With distinct declared variables, the alias succeeds exactly when
/// the set of free variables of the body equals the set of declared
/// variables: the balance law for alias declarations.
pub proof fn lemma_alias_variable_balance(free: Seq<Seq<char>>, declared: Seq<Seq<char>>)
    ensures
        (filter_not_in(declared, free).len() == 0 && filter_not_in(free, declared).len() == 0)
            <==> (free.to_set() =~= declared.to_set()),
{
    lemma_filter_not_in_empty(declared, free);
    lemma_filter_not_in_empty(free, declared);
    if filter_not_in(declared, free).len() == 0 && filter_not_in(free, declared).len() == 0 {
        assert forall|x: Seq<char>| free.to_set().contains(x) implies declared.to_set().contains(
            x,
        ) by {
            let i = choose|i: int| 0 <= i < free.len() && free[i] == x;
            assert(declared.contains(x));
            let j = choose|j: int| 0 <= j < declared.len() && declared[j] == x;
        }
        assert forall|x: Seq<char>| declared.to_set().contains(x) implies free.to_set().contains(
            x,
        ) by {
            let i = choose|i: int| 0 <= i < declared.len() && declared[i] == x;
            assert(free.contains(x));
            let j = choose|j: int| 0 <= j < free.len() && free[j] == x;
        }
    }
    if free.to_set() =~= declared.to_set() {
        assert forall|i: int| 0 <= i < declared.len() implies free.contains(
            #[trigger] declared[i],
        ) by {
            assert(declared.to_set().contains(declared[i]));
        }
        assert forall|i: int| 0 <= i < free.len() implies declared.contains(#[trigger] free[i]) by {
            assert(free.to_set().contains(free[i]));
        }
    }
}

// ---------------------------------------------------------------------
// ADT expansion.
// ---------------------------------------------------------------------
/// The descriptor of an ADT statement.
pub open spec fn adt_descriptor_v(
    name: Seq<char>,
    vars: Seq<Seq<char>>,
    variants: Seq<(String, Vec<Type>)>,
) -> AdtV {
    AdtV {
        name: name,
        type_vars: vars,
        variants: Seq::new(
            variants.len(),
            |i: int| AdtVariantV { name: variants[i].0@, types: types_dv(variants[i].1@) },
        ),
    }
}

/// The type `Tag(name, vars)` the constructors of an ADT return.
pub open spec fn adt_return_type_v(name: Seq<char>, vars: Seq<Seq<char>>) -> TypeV {
    TypeV::Tag(name, Seq::new(vars.len(), |i: int| TypeV::Var(vars[i])))
}

/// The type of one constructor: its argument types curried to the ADT.
pub open spec fn ctor_type_v(params: Seq<Type>, ret: TypeV) -> TypeV {
    fun_type_of(types_dv(params) + seq![ret])
}

/// Expands an ADT statement `type name vars = C1 tys | ...` into one
/// `Adt` declaration holding the descriptor, followed by exactly one
/// constructor `Def` per variant whose type curries the variant's
/// argument types to `Tag(name, vars)`.
pub fn analyze_adt(name: &str, decl_vars: &Vec<String>, variants: &Vec<(String, Vec<Type>)>) -> (res:
    Result<Vec<Declaration>, TypeError>)
    ensures
        res matches Ok(decls) && ({
            let ret = adt_return_type_v(name@, strings_dv(decl_vars@));
            &&& decls@.len() == 1 + variants@.len()
            &&& decls@[0].dv() == DeclarationV::Adt(
                name@,
                adt_descriptor_v(name@, strings_dv(decl_vars@), variants@),
            )
            &&& forall|i: int|
                0 <= i < variants@.len() ==> (#[trigger] decls@[i + 1].dv())
                    == DeclarationV::Def(variants@[i].0@, ctor_type_v(variants@[i].1@, ret))
        }),
{
    // The `Tag(name, vars)` type every constructor returns.
    let mut var_types: Vec<Type> = Vec::new();
    let vn = decl_vars.len();
    for i in 0..vn
        invariant
            vn == decl_vars.len(),
            var_types@.len() == i as nat,
            forall|j: int| 0 <= j < i ==> var_types@[j].dv() == TypeV::Var(decl_vars@[j]@),
        decreases vn - i,
    {
        var_types.push(Type::Var(clone_string(&decl_vars[i])));
    }
    let ghost vt = var_types@;
    let adt_type = Type::Tag(String::from_str(name), var_types);
    proof {
        lemma_types_dv(vt);
        assert(types_dv(vt) =~= Seq::new(
            strings_dv(decl_vars@).len(),
            |i: int| TypeV::Var(strings_dv(decl_vars@)[i]),
        ));
        assert(adt_type.dv() =~= adt_return_type_v(name@, strings_dv(decl_vars@)));
    }

    // The shared descriptor.
    let mut adt_variants: Vec<AdtVariant> = Vec::new();
    let n = variants.len();
    for i in 0..n
        invariant
            n == variants.len(),
            adt_variants@.len() == i as nat,
            forall|j: int|
                0 <= j < i ==> (#[trigger] adt_variants@[j].dv()) == (AdtVariantV {
                    name: variants@[j].0@,
                    types: types_dv(variants@[j].1@),
                }),
        decreases n - i,
    {
        let src = &variants[i].1;
        let ghost ps = src@;
        let mut tys: Vec<Type> = Vec::new();
        let tn = src.len();
        for k in 0..tn
            invariant
                tn == ps.len(),
                ps == src@,
                tys@.len() == k as nat,
                forall|j: int| 0 <= j < k ==> tys@[j].dv() == ps[j].dv(),
            decreases tn - k,
        {
            tys.push(clone_type(&src[k]));
        }
        proof {
            lemma_types_dv(tys@);
            lemma_types_dv(ps);
            assert(types_dv(tys@) =~= types_dv(ps));
        }
        adt_variants.push(AdtVariant { name: clone_string(&variants[i].0), types: tys });
    }
    let adt = Adt {
        name: String::from_str(name),
        types: clone_string_vec(decl_vars),
        variants: adt_variants,
    };
    proof {
        assert(adt.dv().type_vars =~= strings_dv(decl_vars@));
        assert(adt.dv().variants =~= adt_descriptor_v(
            name@,
            strings_dv(decl_vars@),
            variants@,
        ).variants);
        assert(adt.dv() =~= adt_descriptor_v(name@, strings_dv(decl_vars@), variants@));
    }

    let mut decls: Vec<Declaration> = Vec::new();
    decls.push(Declaration::Adt(String::from_str(name), adt));

    // One constructor per variant.
    for i in 0..n
        invariant
            n == variants.len(),
            decls@.len() == 1 + i as nat,
            decls@[0].dv() == DeclarationV::Adt(
                name@,
                adt_descriptor_v(name@, strings_dv(decl_vars@), variants@),
            ),
            adt_type.dv() == adt_return_type_v(name@, strings_dv(decl_vars@)),
            forall|j: int|
                0 <= j < i ==> (#[trigger] decls@[j + 1].dv()) == DeclarationV::Def(
                    variants@[j].0@,
                    ctor_type_v(variants@[j].1@, adt_return_type_v(name@, strings_dv(decl_vars@))),
                ),
        decreases n - i,
    {
        let params = &variants[i].1;
        let ghost ps = params@;
        let ctor_ty = if params.len() == 0 {
            let c = clone_type(&adt_type);
            proof {
                assert(types_dv(ps) + seq![adt_type.dv()] =~= seq![adt_type.dv()]);
                assert(c.dv() == fun_type_of(types_dv(ps) + seq![adt_type.dv()]));
            }
            c
        } else {
            let mut args: Vec<Type> = Vec::new();
            let pn = params.len();
            for k in 0..pn
                invariant
                    pn == ps.len(),
                    ps == params@,
                    args@.len() == k as nat,
                    forall|j: int| 0 <= j < k ==> args@[j].dv() == ps[j].dv(),
                decreases pn - k,
            {
                args.push(clone_type(&params[k]));
            }
            args.push(clone_type(&adt_type));
            proof {
                lemma_types_dv(args@);
                lemma_types_dv(ps);
                assert(types_dv(args@) =~= types_dv(ps) + seq![adt_type.dv()]);
            }
            let c = build_fun_type(&args);
            proof {
                assert(c.dv() == fun_type_of(types_dv(ps) + seq![adt_type.dv()]));
            }
            c
        };
        proof {
            assert(ctor_ty.dv() == ctor_type_v(
                ps,
                adt_return_type_v(name@, strings_dv(decl_vars@)),
            ));
        }
        decls.push(Declaration::Def(clone_string(&variants[i].0), ctor_ty));
    }
    Ok(decls)
}

/// Expands a port statement `port name : ty` into the single
/// declaration `Def(name, ty)`.
pub fn analyze_port(name: &str, ty: &Type) -> (res: Result<Vec<Declaration>, TypeError>)
    ensures
        res matches Ok(decls) && decls_dv(decls@) =~= seq![DeclarationV::Def(name@, ty.dv())],
{
    let mut decls: Vec<Declaration> = Vec::new();
    decls.push(Declaration::Def(String::from_str(name), clone_type(ty)));
    Ok(decls)
}


// ---------------------------------------------------------------------
// Exposing selection.
// ---------------------------------------------------------------------
/// Whether a declaration is a `Def` whose final return type is the
/// nominal type `name` — the shape of a constructor of that type.
pub open spec fn decl_returns_tag(d: DeclarationV, name: Seq<char>) -> bool {
    match d {
        DeclarationV::Def(_, t) => match crate::ast::spec_fun_return(t) {
            TypeV::Tag(tn, _) => tn == name,
            _ => false,
        },
        _ => false,
    }
}

/// The name a `Def` declaration binds, or nothing.
pub open spec fn def_decl_name(d: DeclarationV) -> Option<Seq<char>> {
    match d {
        DeclarationV::Def(n, _) => Some(n),
        _ => None,
    }
}

/// The `Def` declarations of `all`, in order, whose return type is
/// `Tag(name, ...)` and, when `vs` is given, whose own name is listed
/// in `vs`: the constructors an ADT exposing selects.
pub open spec fn filter_ctors(
    all: Seq<DeclarationV>,
    name: Seq<char>,
    vs: Option<Seq<Seq<char>>>,
) -> Seq<DeclarationV>
    decreases all.len(),
{
    if all.len() == 0 {
        Seq::empty()
    } else {
        let keep = decl_returns_tag(all[0], name) && (match vs {
            Some(names) => match def_decl_name(all[0]) {
                Some(dn) => names.contains(dn),
                None => false,
            },
            None => true,
        });
        if keep {
            seq![all[0]] + filter_ctors(all.drop_first(), name, vs)
        } else {
            filter_ctors(all.drop_first(), name, vs)
        }
    }
}

/// The first `Adt` declaration named `name`.
pub open spec fn find_adt_decl(all: Seq<DeclarationV>, name: Seq<char>) -> Option<DeclarationV>
    decreases all.len(),
{
    if all.len() == 0 {
        None
    } else if all[0] matches DeclarationV::Adt(n, _) && n == name {
        Some(all[0])
    } else {
        find_adt_decl(all.drop_first(), name)
    }
}

/// The first `Alias` or `Adt` declaration named `name`.
pub open spec fn find_type_decl(all: Seq<DeclarationV>, name: Seq<char>) -> Option<DeclarationV>
    decreases all.len(),
{
    if all.len() == 0 {
        None
    } else if (all[0] matches DeclarationV::Alias(n, _) && n == name) || (all[0]
        matches DeclarationV::Adt(n, _) && n == name) {
        Some(all[0])
    } else {
        find_type_decl(all.drop_first(), name)
    }
}

/// The first `Def` declaration named `name`.
pub open spec fn find_def_decl(all: Seq<DeclarationV>, name: Seq<char>) -> Option<DeclarationV>
    decreases all.len(),
{
    if all.len() == 0 {
        None
    } else if all[0] matches DeclarationV::Def(n, _) && n == name {
        Some(all[0])
    } else {
        find_def_decl(all.drop_first(), name)
    }
}

/// What one exposing item selects from a module's declarations.
///
/// A definition or operator exposing selects the `Def` of that name; a
/// type exposing selects the `Alias` or `Adt` of that name; an ADT
/// exposing selects the listed (or, for `All`, every) constructor `Def`
/// whose return type is the ADT, followed by the descriptor itself. A
/// name that selects nothing is `MissingExposing`.
pub open spec fn exposing_selection(all: Seq<DeclarationV>, exp: &crate::ast::Exposing) -> Result<
    Seq<DeclarationV>,
    TypeErrorV,
> {
    match exp {
        crate::ast::Exposing::Definition(n) => match find_def_decl(all, n@) {
            Some(d) => Ok(seq![d]),
            None => Err(TypeErrorV::MissingExposing(n@)),
        },
        crate::ast::Exposing::BinaryOperator(n) => match find_def_decl(all, n@) {
            Some(d) => Ok(seq![d]),
            None => Err(TypeErrorV::MissingExposing(n@)),
        },
        crate::ast::Exposing::Type(n) => match find_type_decl(all, n@) {
            Some(d) => Ok(seq![d]),
            None => Err(TypeErrorV::MissingExposing(n@)),
        },
        crate::ast::Exposing::Adt(n, adt_exp) => {
            let vs = match adt_exp {
                crate::ast::AdtExposing::All => None,
                crate::ast::AdtExposing::Variants(names) => Some(strings_dv(names@)),
            };
            match find_adt_decl(all, n@) {
                Some(desc) => Ok(filter_ctors(all, n@, vs).push(desc)),
                None => Err(TypeErrorV::MissingExposing(n@)),
            }
        },
    }
}

/// What a whole exposing list selects: the selections of its items,
/// concatenated in order; the first missing name is the error.
pub open spec fn exposed_decls_spec(all: Seq<DeclarationV>, exps: Seq<crate::ast::Exposing>) -> Result<
    Seq<DeclarationV>,
    TypeErrorV,
>
    decreases exps,
{
    if exps.len() == 0 {
        Ok(Seq::empty())
    } else {
        match exposing_selection(all, &exps[0]) {
            Err(e) => Err(e),
            Ok(sel) => match exposed_decls_spec(all, exps.drop_first()) {
                Err(e) => Err(e),
                Ok(rest) => Ok(sel + rest),
            },
        }
    }
}

/// The model of a declarations-or-error result.
pub open spec fn decls_result_m(res: Result<Vec<Declaration>, TypeError>) -> Result<
    Seq<DeclarationV>,
    TypeErrorV,
> {
    match res {
        Ok(ds) => Ok(decls_dv(ds@)),
        Err(e) => Err(e.dv()),
    }
}

fn find_def_index(all: &Vec<Declaration>, name: &str) -> (r: Option<usize>)
    ensures
        match r {
            Some(i) => i < all@.len() && find_def_decl(decls_dv(all@), name@) == Some(
                all@[i as int].dv(),
            ),
            None => find_def_decl(decls_dv(all@), name@) is None,
        },
{
    let n = all.len();
    proof {
        assert(decls_dv(all@).skip(0) =~= decls_dv(all@));
    }
    for i in 0..n
        invariant
            n == all.len(),
            find_def_decl(decls_dv(all@), name@) == find_def_decl(decls_dv(all@).skip(i as int), name@),
        decreases n - i,
    {
        proof {
            assert(decls_dv(all@).skip(i as int)[0] == all@[i as int].dv());
            assert(decls_dv(all@).skip(i as int).drop_first() =~= decls_dv(all@).skip(i + 1));
        }
        match &all[i] {
            Declaration::Def(dn, _) => {
                if string_eq(dn, name) {
                    return Some(i);
                }
            },
            _ => {},
        }
    }
    proof {
        assert(decls_dv(all@).skip(n as int).len() == 0);
    }
    None
}

fn find_type_index(all: &Vec<Declaration>, name: &str) -> (r: Option<usize>)
    ensures
        match r {
            Some(i) => i < all@.len() && find_type_decl(decls_dv(all@), name@) == Some(
                all@[i as int].dv(),
            ),
            None => find_type_decl(decls_dv(all@), name@) is None,
        },
{
    let n = all.len();
    proof {
        assert(decls_dv(all@).skip(0) =~= decls_dv(all@));
    }
    for i in 0..n
        invariant
            n == all.len(),
            find_type_decl(decls_dv(all@), name@) == find_type_decl(decls_dv(all@).skip(i as int), name@),
        decreases n - i,
    {
        proof {
            assert(decls_dv(all@).skip(i as int)[0] == all@[i as int].dv());
            assert(decls_dv(all@).skip(i as int).drop_first() =~= decls_dv(all@).skip(i + 1));
        }
        match &all[i] {
            Declaration::Alias(dn, _) => {
                if string_eq(dn, name) {
                    return Some(i);
                }
            },
            Declaration::Adt(dn, _) => {
                if string_eq(dn, name) {
                    return Some(i);
                }
            },
            _ => {},
        }
    }
    proof {
        assert(decls_dv(all@).skip(n as int).len() == 0);
    }
    None
}

fn find_adt_index(all: &Vec<Declaration>, name: &str) -> (r: Option<usize>)
    ensures
        match r {
            Some(i) => i < all@.len() && find_adt_decl(decls_dv(all@), name@) == Some(
                all@[i as int].dv(),
            ),
            None => find_adt_decl(decls_dv(all@), name@) is None,
        },
{
    let n = all.len();
    proof {
        assert(decls_dv(all@).skip(0) =~= decls_dv(all@));
    }
    for i in 0..n
        invariant
            n == all.len(),
            find_adt_decl(decls_dv(all@), name@) == find_adt_decl(decls_dv(all@).skip(i as int), name@),
        decreases n - i,
    {
        proof {
            assert(decls_dv(all@).skip(i as int)[0] == all@[i as int].dv());
            assert(decls_dv(all@).skip(i as int).drop_first() =~= decls_dv(all@).skip(i + 1));
        }
        match &all[i] {
            Declaration::Adt(dn, _) => {
                if string_eq(dn, name) {
                    return Some(i);
                }
            },
            _ => {},
        }
    }
    proof {
        assert(decls_dv(all@).skip(n as int).len() == 0);
    }
    None
}

fn collect_ctors(all: &Vec<Declaration>, name: &str, vs: Option<&Vec<String>>) -> (res: Vec<
    Declaration,
>)
    ensures
        decls_dv(res@) =~= filter_ctors(
            decls_dv(all@),
            name@,
            match vs {
                Some(names) => Some(strings_dv(names@)),
                None => None,
            },
        ),
{
    let ghost vsv: Option<Seq<Seq<char>>> = match vs {
        Some(names) => Some(strings_dv(names@)),
        None => None,
    };
    let mut res: Vec<Declaration> = Vec::new();
    let n = all.len();
    proof {
        assert(decls_dv(all@).skip(0) =~= decls_dv(all@));
        assert(decls_dv(res@) =~= Seq::<DeclarationV>::empty());
    }
    for i in 0..n
        invariant
            n == all.len(),
            vsv == (match vs {
                Some(names) => Some(strings_dv(names@)),
                None => None,
            }),
            filter_ctors(decls_dv(all@), name@, vsv) =~= decls_dv(res@) + filter_ctors(
                decls_dv(all@).skip(i as int),
                name@,
                vsv,
            ),
        decreases n - i,
    {
        proof {
            assert(decls_dv(all@).skip(i as int)[0] == all@[i as int].dv());
            assert(decls_dv(all@).skip(i as int).drop_first() =~= decls_dv(all@).skip(i + 1));
        }
        let keep = match &all[i] {
            Declaration::Def(dn, ty) => {
                let listed = match vs {
                    Some(names) => contains_view(names, dn.as_str()),
                    None => true,
                };
                if listed {
                    let ret = crate::ast::get_fun_return(ty);
                    match &ret {
                        Type::Tag(tn, _) => string_eq(tn, name),
                        _ => false,
                    }
                } else {
                    false
                }
            },
            _ => false,
        };
        if keep {
            let ghost pre = res@;
            res.push(crate::loader::clone_declaration(&all[i]));
            proof {
                assert(decls_dv(res@) =~= decls_dv(pre).push(all@[i as int].dv()));
                assert(decls_dv(pre) + (seq![all@[i as int].dv()] + filter_ctors(
                    decls_dv(all@).skip(i + 1),
                    name@,
                    vsv,
                )) =~= decls_dv(res@) + filter_ctors(decls_dv(all@).skip(i + 1), name@, vsv));
            }
        }
    }
    proof {
        assert(decls_dv(all@).skip(n as int).len() == 0);
        assert(decls_dv(res@) + Seq::<DeclarationV>::empty() =~= decls_dv(res@));
    }
    res
}

fn select_exposing(all: &Vec<Declaration>, exp: &crate::ast::Exposing) -> (res: Result<
    Vec<Declaration>,
    TypeError,
>)
    ensures
        decls_result_m(res) == exposing_selection(decls_dv(all@), exp),
{
    match exp {
        crate::ast::Exposing::Definition(n) => match find_def_index(all, n.as_str()) {
            Some(i) => {
                let mut out: Vec<Declaration> = Vec::new();
                out.push(crate::loader::clone_declaration(&all[i]));
                proof {
                    assert(decls_dv(out@) =~= seq![all@[i as int].dv()]);
                }
                Ok(out)
            },
            None => Err(TypeError::MissingExposing(clone_string(n))),
        },
        crate::ast::Exposing::BinaryOperator(n) => match find_def_index(all, n.as_str()) {
            Some(i) => {
                let mut out: Vec<Declaration> = Vec::new();
                out.push(crate::loader::clone_declaration(&all[i]));
                proof {
                    assert(decls_dv(out@) =~= seq![all@[i as int].dv()]);
                }
                Ok(out)
            },
            None => Err(TypeError::MissingExposing(clone_string(n))),
        },
        crate::ast::Exposing::Type(n) => match find_type_index(all, n.as_str()) {
            Some(i) => {
                let mut out: Vec<Declaration> = Vec::new();
                out.push(crate::loader::clone_declaration(&all[i]));
                proof {
                    assert(decls_dv(out@) =~= seq![all@[i as int].dv()]);
                }
                Ok(out)
            },
            None => Err(TypeError::MissingExposing(clone_string(n))),
        },
        crate::ast::Exposing::Adt(n, adt_exp) => {
            match find_adt_index(all, n.as_str()) {
                Some(i) => {
                    let mut out = match adt_exp {
                        crate::ast::AdtExposing::All => collect_ctors(all, n.as_str(), None),
                        crate::ast::AdtExposing::Variants(names) => collect_ctors(
                            all,
                            n.as_str(),
                            Some(names),
                        ),
                    };
                    let ghost pre = out@;
                    out.push(crate::loader::clone_declaration(&all[i]));
                    proof {
                        assert(decls_dv(out@) =~= decls_dv(pre).push(all@[i as int].dv()));
                    }
                    Ok(out)
                },
                None => Err(TypeError::MissingExposing(clone_string(n))),
            }
        },
    }
}

/// Selects from `all_decls` what the exposing list names, in list
/// order, per the selection rules of each exposing kind; the first
/// name that selects nothing is reported as `MissingExposing`.
pub fn get_exposed_decls(all_decls: &Vec<Declaration>, exposed: &Vec<crate::ast::Exposing>) -> (res:
    Result<Vec<Declaration>, TypeError>)
    ensures
        decls_result_m(res) == exposed_decls_spec(decls_dv(all_decls@), exposed@),
{
    let mut acc: Vec<Declaration> = Vec::new();
    let n = exposed.len();
    proof {
        assert(exposed@.skip(0) =~= exposed@);
        assert(decls_dv(acc@) =~= Seq::<DeclarationV>::empty());
    }
    for i in 0..n
        invariant
            n == exposed.len(),
            match exposed_decls_spec(decls_dv(all_decls@), exposed@.skip(i as int)) {
                Ok(rest) => exposed_decls_spec(decls_dv(all_decls@), exposed@) == Ok::<
                    _,
                    TypeErrorV,
                >(decls_dv(acc@) + rest),
                Err(e) => exposed_decls_spec(decls_dv(all_decls@), exposed@) == Err::<
                    Seq<DeclarationV>,
                    _,
                >(e),
            },
        decreases n - i,
    {
        proof {
            assert(exposed@.skip(i as int)[0] == exposed@[i as int]);
            assert(exposed@.skip(i as int).drop_first() =~= exposed@.skip(i + 1));
        }
        match select_exposing(all_decls, &exposed[i]) {
            Err(e) => {
                return Err(e);
            },
            Ok(sel) => {
                let ghost pre = acc@;
                let m = sel.len();
                for k in 0..m
                    invariant
                        m == sel.len(),
                        acc@.len() == pre.len() + k,
                        forall|j: int| 0 <= j < pre.len() ==> acc@[j].dv() == pre[j].dv(),
                        forall|j: int|
                            0 <= j < k ==> acc@[pre.len() + j].dv() == sel@[j].dv(),
                    decreases m - k,
                {
                    acc.push(crate::loader::clone_declaration(&sel[k]));
                }
                proof {
                    assert(decls_dv(acc@) =~= decls_dv(pre) + decls_dv(sel@));
                    match exposed_decls_spec(decls_dv(all_decls@), exposed@.skip(i + 1)) {
                        Ok(rest) => {
                            assert((decls_dv(pre) + decls_dv(sel@)) + rest =~= decls_dv(pre) + (
                            decls_dv(sel@) + rest));
                        },
                        Err(e) => {},
                    }
                }
            },
        }
    }
    proof {
        assert(exposed@.skip(n as int).len() == 0);
        assert(decls_dv(acc@) + Seq::<DeclarationV>::empty() =~= decls_dv(acc@));
    }
    Ok(acc)
}

} // verus!
