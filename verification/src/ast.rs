//! Abstract syntax of the language: type terms, patterns, expressions,
//! statements, imports and modules, together with their spec-level models.
//!
//! Every executable syntax node has a ghost mirror (the `..V` types) whose
//! strings are `Seq<char>` and whose collections are `Seq`; `deep_view`
//! maps the former to the latter, and all contracts in this crate speak
//! of the mirrors.

use vstd::prelude::*;

verus! {

broadcast use
    vstd::std_specs::vec::axiom_vec_index_decreases,
    vstd::seq::axiom_seq_index_decreases;

/// A type term of the language.
#[derive(Debug, PartialEq)]
pub enum Type {
    /// A type variable, e.g. `a` or the numeric variable `number`.
    Var(String),
    /// A nominal type applied to arguments, e.g. `List Int`.
    Tag(String, Vec<Type>),
    /// A single-argument function type.
    Fun(Box<Type>, Box<Type>),
    /// The 0-tuple.
    Unit,
    /// An ordered tuple, length at least 2.
    Tuple(Vec<Type>),
    /// A record: field name to type.
    Record(Vec<(String, Type)>),
    /// A row-polymorphic record extension.
    RecExt(String, Vec<(String, Type)>),
}

/// Spec-level model of [`Type`].
#[verifier::ext_equal]
pub enum TypeV {
    Var(Seq<char>),
    Tag(Seq<char>, Seq<TypeV>),
    Fun(Box<TypeV>, Box<TypeV>),
    Unit,
    Tuple(Seq<TypeV>),
    Record(Seq<(Seq<char>, TypeV)>),
    RecExt(Seq<char>, Seq<(Seq<char>, TypeV)>),
}

/// Ties an executable type to its spec-level model.
pub trait SpecModel {
    /// The spec-level model type.
    type M;

    /// The model of this value.
    spec fn m(&self) -> Self::M;
}

impl Type {
    /// Spec-level model of this type term.
    pub open spec fn dv(&self) -> TypeV
        decreases self,
    {
        match self {
            Type::Var(n) => TypeV::Var(n@),
            Type::Tag(n, args) => TypeV::Tag(n@, types_dv(args@)),
            Type::Fun(a, b) => TypeV::Fun(Box::new(a.dv()), Box::new(b.dv())),
            Type::Unit => TypeV::Unit,
            Type::Tuple(items) => TypeV::Tuple(types_dv(items@)),
            Type::Record(fields) => TypeV::Record(fields_dv(fields@)),
            Type::RecExt(n, fields) => TypeV::RecExt(n@, fields_dv(fields@)),
        }
    }
}

impl SpecModel for Type {
    type M = TypeV;

    open spec fn m(&self) -> TypeV {
        self.dv()
    }
}

/// Models of a sequence of type terms, elementwise.
pub open spec fn types_dv(v: Seq<Type>) -> Seq<TypeV>
    decreases v,
{
    if v.len() == 0 {
        Seq::empty()
    } else {
        seq![v[0].dv()] + types_dv(v.drop_first())
    }
}

/// Models of a sequence of named fields, elementwise.
pub open spec fn fields_dv(v: Seq<(String, Type)>) -> Seq<(Seq<char>, TypeV)>
    decreases v,
{
    if v.len() == 0 {
        Seq::empty()
    } else {
        seq![(v[0].0@, v[0].1.dv())] + fields_dv(v.drop_first())
    }
}

/// `types_dv` maps the sequence elementwise.
pub broadcast proof fn lemma_types_dv(v: Seq<Type>)
    ensures
        #[trigger] types_dv(v).len() == v.len(),
        forall|i: int| 0 <= i < v.len() ==> types_dv(v)[i] == v[i].dv(),
    decreases v,
{
    if v.len() > 0 {
        lemma_types_dv(v.drop_first());
    }
}

/// `fields_dv` maps the sequence elementwise.
pub broadcast proof fn lemma_fields_dv(v: Seq<(String, Type)>)
    ensures
        #[trigger] fields_dv(v).len() == v.len(),
        forall|i: int| 0 <= i < v.len() ==> fields_dv(v)[i] == (v[i].0@, v[i].1.dv()),
    decreases v,
{
    if v.len() > 0 {
        lemma_fields_dv(v.drop_first());
    }
}

impl Clone for Type {
    fn clone(&self) -> (res: Self)
        ensures
            res.dv() == self.dv(),
    {
        clone_type(self)
    }
}

/// Structural copy of a type term.
pub fn clone_type(t: &Type) -> (res: Type)
    ensures
        res.dv() == t.dv(),
    decreases t,
{
    match t {
        Type::Var(n) => Type::Var(clone_string(n)),
        Type::Tag(n, args) => Type::Tag(clone_string(n), clone_type_vec(args)),
        Type::Fun(a, b) => Type::Fun(Box::new(clone_type(a)), Box::new(clone_type(b))),
        Type::Unit => Type::Unit,
        Type::Tuple(items) => Type::Tuple(clone_type_vec(items)),
        Type::Record(fields) => Type::Record(clone_field_vec(fields)),
        Type::RecExt(n, fields) => Type::RecExt(clone_string(n), clone_field_vec(fields)),
    }
}

/// Copy of a string that keeps the value itself, not only the view.
pub fn clone_string(s: &String) -> (res: String)
    ensures
        res == s,
{
    s.clone()
}

fn clone_type_vec(v: &Vec<Type>) -> (res: Vec<Type>)
    ensures
        types_dv(res@) =~= types_dv(v@),
    decreases v,
{
    let mut res: Vec<Type> = Vec::new();
    let n = v.len();
    for i in 0..n
        invariant
            n == v.len(),
            res@.len() == i as nat,
            forall|j: int| 0 <= j < i ==> res@[j].dv() == v@[j].dv(),
        decreases n - i,
    {
        res.push(clone_type(&v[i]));
    }
    proof {
        lemma_types_dv(res@);
        lemma_types_dv(v@);
    }
    res
}

fn clone_field_vec(v: &Vec<(String, Type)>) -> (res: Vec<(String, Type)>)
    ensures
        fields_dv(res@) =~= fields_dv(v@),
    decreases v,
{
    let mut res: Vec<(String, Type)> = Vec::new();
    let n = v.len();
    for i in 0..n
        invariant
            n == v.len(),
            res@.len() == i as nat,
            forall|j: int| 0 <= j < i ==> res@[j].0@ == v@[j].0@ && res@[j].1.dv() == v@[j].1.dv(),
        decreases n - i,
    {
        let pair = &v[i];
        res.push((clone_string(&pair.0), clone_type(&pair.1)));
    }
    proof {
        lemma_fields_dv(res@);
        lemma_fields_dv(v@);
    }
    res
}

/// Number of arguments a curried function type accepts.
pub open spec fn spec_arg_count(t: TypeV) -> nat
    decreases t,
{
    match t {
        TypeV::Fun(_, out) => 1 + spec_arg_count(*out),
        _ => 0,
    }
}

/// Counts the arguments of a curried function type.
pub fn arg_count(ty: &Type) -> (n: u32)
    requires
        spec_arg_count(ty.dv()) <= u32::MAX,
    ensures
        n == spec_arg_count(ty.dv()),
    decreases ty,
{
    match ty {
        Type::Fun(_, out) => 1 + arg_count(out),
        _ => 0,
    }
}

/// The right-nested function type over the given sequence of types:
/// `fun_type_of([a, b, c])` is `a -> (b -> c)`.
pub open spec fn fun_type_of(ts: Seq<TypeV>) -> TypeV
    recommends
        ts.len() >= 1,
    decreases ts.len(),
{
    if ts.len() <= 1 {
        ts[0]
    } else {
        TypeV::Fun(Box::new(ts[0]), Box::new(fun_type_of(ts.drop_first())))
    }
}

/// Builds the curried function type over `types`, which must hold at
/// least an argument and a result.
pub fn build_fun_type(types: &Vec<Type>) -> (res: Type)
    requires
        types.len() >= 2,
    ensures
        res.dv() == fun_type_of(types_dv(types@)),
{
    let n = types.len();
    let mut res = clone_type(&types[n - 1]);
    proof {
        lemma_types_dv(types@);
        assert(types_dv(types@).subrange(n - 1, n as int) =~= seq![types@[n - 1].dv()]);
    }
    let mut i = n - 1;
    while i > 0
        invariant
            n == types.len(),
            n >= 2,
            i < n,
            res.dv() == fun_type_of(types_dv(types@).subrange(i as int, n as int)),
        decreases i,
    {
        i = i - 1;
        res = Type::Fun(Box::new(clone_type(&types[i])), Box::new(res));
        proof {
            lemma_types_dv(types@);
            assert(types_dv(types@).subrange(i as int, n as int).drop_first() =~= types_dv(
                types@,
            ).subrange(i + 1, n as int));
        }
    }
    proof {
        assert(types_dv(types@).subrange(0, n as int) =~= types_dv(types@));
    }
    res
}

/// The final return type of a curried function type.
pub open spec fn spec_fun_return(t: TypeV) -> TypeV
    decreases t,
{
    match t {
        TypeV::Fun(_, out) => spec_fun_return(*out),
        _ => t,
    }
}

/// Walks a curried function type to its final return type.
pub fn get_fun_return(ty: &Type) -> (res: Type)
    ensures
        res.dv() == spec_fun_return(ty.dv()),
    decreases ty,
{
    match ty {
        Type::Fun(_, out) => get_fun_return(out),
        _ => clone_type(ty),
    }
}


/// A literal value appearing in an expression or pattern.
///
/// A floating literal carries its source text; the analyzer only needs to
/// distinguish the literal kinds, never to compute with the value.
#[derive(Debug, PartialEq, Clone)]
pub enum Literal {
    Int(i64),
    Float(String),
    Str(String),
    Char(char),
}

/// A pattern, as appears in function arguments, lambdas, `let` and `case`.
#[derive(Debug, PartialEq)]
pub enum Pattern {
    /// Binds a name.
    Var(String),
    /// Matches anything, binds nothing.
    Wildcard,
    /// Matches the unit value.
    Unit,
    /// Matches a literal.
    Literal(Literal),
    /// Matches a tuple elementwise.
    Tuple(Vec<Pattern>),
    /// Matches a list elementwise.
    List(Vec<Pattern>),
    /// Matches a non-empty list by head and tail.
    Cons(Box<Pattern>, Box<Pattern>),
    /// Binds the named fields of a record.
    Record(Vec<String>),
    /// Matches a data constructor applied to argument patterns.
    TagArgs(String, Vec<Pattern>),
    /// Matches an inner pattern and also binds the whole value to a name.
    Alias(Box<Pattern>, String),
}

/// An expression.
#[derive(Debug, PartialEq)]
pub enum Expr {
    Unit,
    Literal(Literal),
    /// A reference to a name.
    Ref(String),
    /// A reference to a name qualified by a module path.
    QualifiedRef(Vec<String>, String),
    /// Access of a field of a record expression.
    RecordField(Box<Expr>, String),
    /// A field-access function, `.field`.
    RecordAccess(String),
    /// Update of named fields of the record bound to a name.
    RecordUpdate(String, Vec<(String, Expr)>),
    If(Box<Expr>, Box<Expr>, Box<Expr>),
    Case(Box<Expr>, Vec<(Pattern, Expr)>),
    /// Application of a function to one argument.
    Application(Box<Expr>, Box<Expr>),
    Lambda(Vec<Pattern>, Box<Expr>),
    Let(Vec<LetDeclaration>, Box<Expr>),
    /// A flat chain of operands and operator names, before precedence
    /// resolution.
    OpChain(Vec<Expr>, Vec<String>),
    Tuple(Vec<Expr>),
    List(Vec<Expr>),
    Record(Vec<(String, Expr)>),
}

/// A declaration inside a `let` expression.
#[derive(Debug, PartialEq)]
pub enum LetDeclaration {
    Def(Definition),
    Pattern(Pattern, Expr),
}

/// A value definition: `name pattern... = expr`, with an optional
/// declared signature.
#[derive(Debug, PartialEq)]
pub struct Definition {
    pub name: String,
    pub patterns: Vec<Pattern>,
    pub expr: Expr,
    pub signature: Option<Type>,
}

/// Operator associativity.
#[derive(Debug, PartialEq, Clone, Copy)]
pub enum Assoc {
    Left,
    Right,
    Non,
}

/// A top-level statement of a module.
#[derive(Debug, PartialEq)]
pub enum Statement {
    /// `type alias Name vars = ty`
    Alias(String, Vec<String>, Type),
    /// `type Name vars = C1 tys | C2 tys | ...`
    Adt(String, Vec<String>, Vec<(String, Vec<Type>)>),
    /// `port name : ty`
    Port(String, Type),
    /// A value definition.
    Def(Definition),
    /// `infix assoc prec op = name`: registers an operator as an alias
    /// for a defined value.
    Infix(Assoc, u32, String, String),
}

/// The name a statement defines.
pub open spec fn spec_stm_name(stm: &Statement) -> Seq<char> {
    match stm {
        Statement::Alias(name, _, _) => name@,
        Statement::Adt(name, _, _) => name@,
        Statement::Port(name, _) => name@,
        Statement::Def(def) => def.name@,
        Statement::Infix(_, _, op, _) => op@,
    }
}

/// Returns the name a statement defines.
pub fn get_stm_name<'a>(stm: &'a Statement) -> (res: &'a String)
    ensures
        res@ == spec_stm_name(stm),
{
    match stm {
        Statement::Alias(name, _, _) => name,
        Statement::Adt(name, _, _) => name,
        Statement::Port(name, _) => name,
        Statement::Def(def) => &def.name,
        Statement::Infix(_, _, op, _) => op,
    }
}

/// Which declarations of a module an import or a header exposes.
#[derive(Debug, PartialEq, Clone)]
pub enum ModuleExposing {
    All,
    Just(Vec<Exposing>),
}

/// A single item of an exposing list.
#[derive(Debug, PartialEq, Clone)]
pub enum Exposing {
    Definition(String),
    BinaryOperator(String),
    Type(String),
    Adt(String, AdtExposing),
}

/// Which constructors of an exposed ADT cross the module boundary.
#[derive(Debug, PartialEq, Clone)]
pub enum AdtExposing {
    All,
    Variants(Vec<String>),
}

/// An import directive.
#[derive(Debug, PartialEq, Clone)]
pub struct Import {
    pub path: Vec<String>,
    pub alias: Option<String>,
    pub exposing: Option<ModuleExposing>,
}

/// A module header: the module name and its exposing clause.
#[derive(Debug, PartialEq)]
pub struct ModuleHeader {
    pub name: String,
    pub exposing: ModuleExposing,
}

/// A parsed module.
#[derive(Debug, PartialEq)]
pub struct Module {
    pub header: Option<ModuleHeader>,
    pub imports: Vec<Import>,
    pub statements: Vec<Statement>,
}

/// One variant of an algebraic data type.
#[derive(Debug, PartialEq)]
pub struct AdtVariant {
    pub name: String,
    pub types: Vec<Type>,
}

/// Descriptor of an algebraic data type: its name, its type variables
/// and its variants. Descriptors are immutable after construction and
/// shared by value.
#[derive(Debug, PartialEq)]
pub struct Adt {
    pub name: String,
    pub types: Vec<String>,
    pub variants: Vec<AdtVariant>,
}

/// Spec-level model of one [`AdtVariant`].
#[verifier::ext_equal]
pub struct AdtVariantV {
    pub name: Seq<char>,
    pub types: Seq<TypeV>,
}

/// Spec-level model of an [`Adt`] descriptor.
#[verifier::ext_equal]
pub struct AdtV {
    pub name: Seq<char>,
    pub type_vars: Seq<Seq<char>>,
    pub variants: Seq<AdtVariantV>,
}

/// Views of a sequence of strings, elementwise.
pub open spec fn strings_dv(v: Seq<String>) -> Seq<Seq<char>> {
    Seq::new(v.len(), |i: int| v[i]@)
}

impl AdtVariant {
    /// Spec-level model of this variant.
    pub open spec fn dv(&self) -> AdtVariantV {
        AdtVariantV { name: self.name@, types: types_dv(self.types@) }
    }
}

impl Adt {
    /// Spec-level model of this descriptor.
    pub open spec fn dv(&self) -> AdtV {
        AdtV {
            name: self.name@,
            type_vars: strings_dv(self.types@),
            variants: Seq::new(self.variants@.len(), |i: int| self.variants@[i].dv()),
        }
    }
}

impl SpecModel for Adt {
    type M = AdtV;

    open spec fn m(&self) -> AdtV {
        self.dv()
    }
}

/// Copies a vector of strings, keeping the values.
pub fn clone_string_vec(v: &Vec<String>) -> (res: Vec<String>)
    ensures
        res@ =~= v@,
{
    let mut res: Vec<String> = Vec::new();
    let n = v.len();
    for i in 0..n
        invariant
            n == v.len(),
            res@.len() == i as nat,
            forall|j: int| 0 <= j < i ==> res@[j] == v@[j],
        decreases n - i,
    {
        res.push(clone_string(&v[i]));
    }
    res
}

/// Structural copy of an ADT variant.
pub fn clone_adt_variant(v: &AdtVariant) -> (res: AdtVariant)
    ensures
        res.dv() == v.dv(),
{
    let types = clone_type_vec_pub(&v.types);
    AdtVariant { name: clone_string(&v.name), types }
}

/// Structural copy of a vector of type terms.
pub fn clone_type_vec_pub(v: &Vec<Type>) -> (res: Vec<Type>)
    ensures
        types_dv(res@) =~= types_dv(v@),
{
    let mut res: Vec<Type> = Vec::new();
    let n = v.len();
    for i in 0..n
        invariant
            n == v.len(),
            res@.len() == i as nat,
            forall|j: int| 0 <= j < i ==> res@[j].dv() == v@[j].dv(),
        decreases n - i,
    {
        res.push(clone_type(&v[i]));
    }
    proof {
        lemma_types_dv(res@);
        lemma_types_dv(v@);
    }
    res
}

/// Structural copy of an ADT descriptor.
pub fn clone_adt(a: &Adt) -> (res: Adt)
    ensures
        res.dv() == a.dv(),
{
    let mut variants: Vec<AdtVariant> = Vec::new();
    let n = a.variants.len();
    for i in 0..n
        invariant
            n == a.variants.len(),
            variants@.len() == i as nat,
            forall|j: int| 0 <= j < i ==> variants@[j].dv() == a.variants@[j].dv(),
        decreases n - i,
    {
        variants.push(clone_adt_variant(&a.variants[i]));
    }
    let res = Adt { name: clone_string(&a.name), types: clone_string_vec(&a.types), variants };
    proof {
        assert(res.dv().type_vars =~= a.dv().type_vars);
        assert(res.dv().variants =~= a.dv().variants);
        assert(res.dv() =~= a.dv());
    }
    res
}

impl Clone for Adt {
    fn clone(&self) -> (res: Self)
        ensures
            res.dv() == self.dv(),
    {
        clone_adt(self)
    }
}

impl Clone for AdtVariant {
    fn clone(&self) -> (res: Self)
        ensures
            res.dv() == self.dv(),
    {
        clone_adt_variant(self)
    }
}

} // verus!
