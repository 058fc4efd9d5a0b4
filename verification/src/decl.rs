//! Declarations as the directives carry them: records with their fields and
//! functions with their parameters, every type in its display form.

use vstd::prelude::*;

verus! {

/// One field of a record.
#[derive(Debug, PartialEq, Eq)]
pub struct FieldDecl {
    pub name: String,
    pub ty: String,
}

/// A record: its name and its fields, in order.
#[derive(Debug, PartialEq, Eq)]
pub struct StructDecl {
    pub name: String,
    pub fields: Vec<FieldDecl>,
}

/// One parameter of a function.
#[derive(Debug, PartialEq, Eq)]
pub struct ParamDecl {
    pub name: String,
    pub ty: String,
}

/// A function: its name, its return type and its parameters, in call order.
#[derive(Debug, PartialEq, Eq)]
pub struct FuncDecl {
    pub name: String,
    pub return_ty: String,
    pub params: Vec<ParamDecl>,
}

/// A field as contracts see it.
pub struct FieldView {
    pub name: Seq<char>,
    pub ty: Seq<char>,
}

/// A record as contracts see it.
pub struct StructView {
    pub name: Seq<char>,
    pub fields: Seq<FieldView>,
}

/// A parameter as contracts see it.
pub struct ParamView {
    pub name: Seq<char>,
    pub ty: Seq<char>,
}

/// A function as contracts see it.
pub struct FuncView {
    pub name: Seq<char>,
    pub return_ty: Seq<char>,
    pub params: Seq<ParamView>,
}

impl DeepView for FieldDecl {
    type V = FieldView;

    open spec fn deep_view(&self) -> FieldView {
        FieldView { name: self.name@, ty: self.ty@ }
    }
}

impl DeepView for StructDecl {
    type V = StructView;

    open spec fn deep_view(&self) -> StructView {
        StructView { name: self.name@, fields: self.fields.deep_view() }
    }
}

impl DeepView for ParamDecl {
    type V = ParamView;

    open spec fn deep_view(&self) -> ParamView {
        ParamView { name: self.name@, ty: self.ty@ }
    }
}

impl DeepView for FuncDecl {
    type V = FuncView;

    open spec fn deep_view(&self) -> FuncView {
        FuncView { name: self.name@, return_ty: self.return_ty@, params: self.params.deep_view() }
    }
}

impl Clone for ParamDecl {
    fn clone(&self) -> (copy: Self)
        ensures
            copy.deep_view() == self.deep_view(),
    {
        ParamDecl { name: self.name.clone(), ty: self.ty.clone() }
    }
}

impl Clone for FuncDecl {
    fn clone(&self) -> (copy: Self)
        ensures
            copy.deep_view() == self.deep_view(),
    {
        let mut params: Vec<ParamDecl> = Vec::new();
        let mut i: usize = 0;
        while i < self.params.len()
            invariant
                i <= self.params.len(),
                params.len() == i,
                forall|k: int| 0 <= k < i ==> params@[k].deep_view() == self.params@[k].deep_view(),
            decreases self.params.len() - i,
        {
            params.push(self.params[i].clone());
            i += 1;
        }
        assert(params.deep_view() =~= self.params.deep_view());
        FuncDecl { name: self.name.clone(), return_ty: self.return_ty.clone(), params }
    }
}

} // verus!
