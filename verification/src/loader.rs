//! Declarations exposed by an analyzed module, and the record of a
//! previously analyzed module that imports resolve against.

use vstd::prelude::*;
use crate::ast::{Adt, AdtV, SpecModel, Type, TypeV, clone_adt, clone_string, clone_type};
use crate::errors::{TypeError, TypeErrorV, clone_type_error};

verus! {

/// A declaration a module exposes after analysis: a named binding, a
/// type alias, or an ADT descriptor.
#[derive(Debug, PartialEq)]
pub enum Declaration {
    Def(String, Type),
    Alias(String, Type),
    Adt(String, Adt),
}

/// Spec-level model of a [`Declaration`].
#[verifier::ext_equal]
pub enum DeclarationV {
    Def(Seq<char>, TypeV),
    Alias(Seq<char>, TypeV),
    Adt(Seq<char>, AdtV),
}

impl Declaration {
    /// Spec-level model of this declaration.
    pub open spec fn dv(&self) -> DeclarationV {
        match self {
            Declaration::Def(n, t) => DeclarationV::Def(n@, t.dv()),
            Declaration::Alias(n, t) => DeclarationV::Alias(n@, t.dv()),
            Declaration::Adt(n, a) => DeclarationV::Adt(n@, a.dv()),
        }
    }

    /// The name a declaration binds.
    pub open spec fn spec_name(&self) -> Seq<char> {
        match self {
            Declaration::Def(n, _) => n@,
            Declaration::Alias(n, _) => n@,
            Declaration::Adt(n, _) => n@,
        }
    }
}

impl SpecModel for Declaration {
    type M = DeclarationV;

    open spec fn m(&self) -> DeclarationV {
        self.dv()
    }
}

/// The name of a declaration's model.
pub open spec fn decl_name_v(d: DeclarationV) -> Seq<char> {
    match d {
        DeclarationV::Def(n, _) => n,
        DeclarationV::Alias(n, _) => n,
        DeclarationV::Adt(n, _) => n,
    }
}

/// Models of a sequence of declarations, elementwise.
pub open spec fn decls_dv(v: Seq<Declaration>) -> Seq<DeclarationV> {
    Seq::new(v.len(), |i: int| v[i].dv())
}

/// Returns the name a declaration binds.
pub fn declaration_name<'a>(d: &'a Declaration) -> (res: &'a String)
    ensures
        res@ == d.spec_name(),
{
    match d {
        Declaration::Def(n, _) => n,
        Declaration::Alias(n, _) => n,
        Declaration::Adt(n, _) => n,
    }
}

/// Structural copy of a declaration.
pub fn clone_declaration(d: &Declaration) -> (res: Declaration)
    ensures
        res.dv() == d.dv(),
{
    match d {
        Declaration::Def(n, t) => Declaration::Def(clone_string(n), clone_type(t)),
        Declaration::Alias(n, t) => Declaration::Alias(clone_string(n), clone_type(t)),
        Declaration::Adt(n, a) => Declaration::Adt(clone_string(n), clone_adt(a)),
    }
}

/// A previously analyzed module: the declarations it exposes.
pub struct LoadedModule {
    pub declarations: Vec<Declaration>,
}

impl SpecModel for LoadedModule {
    type M = Seq<DeclarationV>;

    open spec fn m(&self) -> Seq<DeclarationV> {
        decls_dv(self.declarations@)
    }
}

/// What the out-of-scope function analyzer reported for one value
/// definition: its inferred type, or the error it found.
#[derive(Debug, PartialEq)]
pub enum InferenceResult {
    Typed(Type),
    Failed(TypeError),
}

/// Spec-level model of an [`InferenceResult`].
#[verifier::ext_equal]
pub enum InferenceResultV {
    Typed(TypeV),
    Failed(TypeErrorV),
}

impl SpecModel for InferenceResult {
    type M = InferenceResultV;

    open spec fn m(&self) -> InferenceResultV {
        match self {
            InferenceResult::Typed(t) => InferenceResultV::Typed(t.dv()),
            InferenceResult::Failed(e) => InferenceResultV::Failed(e.dv()),
        }
    }
}

/// Structural copy of an inference outcome.
pub fn clone_inference_result(r: &InferenceResult) -> (res: InferenceResult)
    ensures
        res.m() == r.m(),
{
    match r {
        InferenceResult::Typed(t) => InferenceResult::Typed(clone_type(t)),
        InferenceResult::Failed(e) => InferenceResult::Failed(clone_type_error(e)),
    }
}

} // verus!
