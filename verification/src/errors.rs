//! The error taxonomy of the analyzer.

use vstd::prelude::*;
use crate::ast::{SpecModel, clone_string, clone_string_vec};

verus! {

broadcast use vstd::std_specs::vec::axiom_vec_index_decreases;

/// An error found while analyzing a module.
#[derive(Debug, PartialEq)]
pub enum TypeError {
    /// Names of statements that block each other through their local
    /// dependencies.
    CyclicStatementDependency(Vec<String>),
    /// Type variables declared by an alias but absent from its body.
    UnusedTypeVariables(Vec<String>),
    /// Type variables used in an alias body but not declared.
    UndeclaredTypeVariables(Vec<String>),
    /// An import names a module that was never analyzed.
    MissingModule(Vec<String>),
    /// An exposing list names a declaration the module does not expose.
    MissingExposing(String),
    /// An invariant of the analyzer itself was violated.
    InternalError,
    /// Errors of independent statements of one module, collected.
    List(Vec<TypeError>),
}

/// Spec-level model of a [`TypeError`].
#[verifier::ext_equal]
pub enum TypeErrorV {
    CyclicStatementDependency(Seq<Seq<char>>),
    UnusedTypeVariables(Seq<Seq<char>>),
    UndeclaredTypeVariables(Seq<Seq<char>>),
    MissingModule(Seq<Seq<char>>),
    MissingExposing(Seq<char>),
    InternalError,
    List(Seq<TypeErrorV>),
}

impl TypeError {
    /// Spec-level model of this error.
    pub open spec fn dv(&self) -> TypeErrorV
        decreases self,
    {
        match self {
            TypeError::CyclicStatementDependency(ns) => TypeErrorV::CyclicStatementDependency(
                crate::ast::strings_dv(ns@),
            ),
            TypeError::UnusedTypeVariables(ns) => TypeErrorV::UnusedTypeVariables(
                crate::ast::strings_dv(ns@),
            ),
            TypeError::UndeclaredTypeVariables(ns) => TypeErrorV::UndeclaredTypeVariables(
                crate::ast::strings_dv(ns@),
            ),
            TypeError::MissingModule(path) => TypeErrorV::MissingModule(
                crate::ast::strings_dv(path@),
            ),
            TypeError::MissingExposing(n) => TypeErrorV::MissingExposing(n@),
            TypeError::InternalError => TypeErrorV::InternalError,
            TypeError::List(es) => TypeErrorV::List(errors_dv(es@)),
        }
    }
}

impl SpecModel for TypeError {
    type M = TypeErrorV;

    open spec fn m(&self) -> TypeErrorV {
        self.dv()
    }
}

/// Models of a sequence of errors, elementwise.
pub open spec fn errors_dv(v: Seq<TypeError>) -> Seq<TypeErrorV>
    decreases v,
{
    if v.len() == 0 {
        Seq::empty()
    } else {
        seq![v[0].dv()] + errors_dv(v.drop_first())
    }
}

/// `errors_dv` maps the sequence elementwise.
pub proof fn lemma_errors_dv(v: Seq<TypeError>)
    ensures
        errors_dv(v).len() == v.len(),
        forall|i: int| 0 <= i < v.len() ==> errors_dv(v)[i] == v[i].dv(),
    decreases v,
{
    if v.len() > 0 {
        lemma_errors_dv(v.drop_first());
    }
}

/// Structural copy of an error.
pub fn clone_type_error(e: &TypeError) -> (res: TypeError)
    ensures
        res.dv() == e.dv(),
    decreases e,
{
    match e {
        TypeError::CyclicStatementDependency(ns) => TypeError::CyclicStatementDependency(
            clone_string_vec(ns),
        ),
        TypeError::UnusedTypeVariables(ns) => TypeError::UnusedTypeVariables(clone_string_vec(ns)),
        TypeError::UndeclaredTypeVariables(ns) => TypeError::UndeclaredTypeVariables(
            clone_string_vec(ns),
        ),
        TypeError::MissingModule(path) => TypeError::MissingModule(clone_string_vec(path)),
        TypeError::MissingExposing(n) => TypeError::MissingExposing(clone_string(n)),
        TypeError::InternalError => TypeError::InternalError,
        TypeError::List(es) => TypeError::List(clone_error_vec(es)),
    }
}

fn clone_error_vec(es: &Vec<TypeError>) -> (res: Vec<TypeError>)
    ensures
        errors_dv(res@) =~= errors_dv(es@),
    decreases es,
{
    let mut copy: Vec<TypeError> = Vec::new();
    let n = es.len();
    for i in 0..n
        invariant
            n == es.len(),
            copy@.len() == i as nat,
            forall|j: int| 0 <= j < i ==> copy@[j].dv() == es@[j].dv(),
        decreases n - i,
    {
        copy.push(clone_type_error(&es[i]));
    }
    proof {
        lemma_errors_dv(copy@);
        lemma_errors_dv(es@);
        assert(errors_dv(copy@) =~= errors_dv(es@));
    }
    copy
}

} // verus!
