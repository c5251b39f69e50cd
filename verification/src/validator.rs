//! Errors that the validation of a data model reports against a field.

use crate::search::{first_where, lemma_first_where_found, lemma_first_where_none};
use crate::text::text_eq;
use vstd::prelude::*;
use vstd::string::*;

verus! {

/// A stretch of the source text, by the offsets of its first character and
/// of the character after its last.
#[derive(Clone, Copy, Debug, PartialEq, Eq, Structural)]
pub struct Span {
    pub start: usize,
    pub end: usize,
}

/// A field of a model.
#[derive(Debug, PartialEq, Eq)]
pub struct Field {
    pub name: String,
}

/// A model: a name and fields.
#[derive(Debug, PartialEq, Eq)]
pub struct Model {
    pub name: String,
    pub fields: Vec<Field>,
}

/// A field as it stands in the source text.
#[derive(Debug, PartialEq, Eq)]
pub struct AstField {
    pub name: String,
    pub span: Span,
}

/// A model as it stands in the source text.
#[derive(Debug, PartialEq, Eq)]
pub struct AstModel {
    pub name: String,
    pub fields: Vec<AstField>,
}

/// The parsed source text of a data model.
#[derive(Debug, PartialEq, Eq)]
pub struct SchemaAst {
    pub models: Vec<AstModel>,
}

/// What is wrong with a data model.
#[derive(Debug, PartialEq, Eq)]
pub enum DatamodelError {
    ModelValidationError { message: String, model_name: String, span: Span },
}

/// A field of the source text as the contracts see it.
pub struct AstFieldView {
    pub name: Seq<char>,
    pub span: Span,
}

/// A model of the source text as the contracts see it.
pub struct AstModelView {
    pub name: Seq<char>,
    pub fields: Seq<AstFieldView>,
}

/// The parsed source text as the contracts see it.
pub struct SchemaAstView {
    pub models: Seq<AstModelView>,
}

/// An error as the contracts see it.
pub enum DatamodelErrorView {
    ModelValidationError { message: Seq<char>, model_name: Seq<char>, span: Span },
}

impl View for AstField {
    type V = AstFieldView;

    open spec fn view(&self) -> AstFieldView {
        AstFieldView { name: self.name@, span: self.span }
    }
}

impl DeepView for AstField {
    type V = AstFieldView;

    open spec fn deep_view(&self) -> AstFieldView {
        self@
    }
}

impl View for AstModel {
    type V = AstModelView;

    open spec fn view(&self) -> AstModelView {
        AstModelView { name: self.name@, fields: self.fields.deep_view() }
    }
}

impl DeepView for AstModel {
    type V = AstModelView;

    open spec fn deep_view(&self) -> AstModelView {
        self@
    }
}

impl View for SchemaAst {
    type V = SchemaAstView;

    open spec fn view(&self) -> SchemaAstView {
        SchemaAstView { models: self.models.deep_view() }
    }
}

impl View for DatamodelError {
    type V = DatamodelErrorView;

    open spec fn view(&self) -> DatamodelErrorView {
        match self {
            DatamodelError::ModelValidationError { message, model_name, span } => {
                DatamodelErrorView::ModelValidationError {
                    message: message@,
                    model_name: model_name@,
                    span: *span,
                }
            },
        }
    }
}

impl AstModelView {
    /// The first field called `name`.
    pub open spec fn find_field(self, name: Seq<char>) -> Option<AstFieldView> {
        match first_where(self.fields, |f: AstFieldView| f.name == name) {
            Some(i) => Some(self.fields[i]),
            None => None,
        }
    }
}

impl SchemaAstView {
    /// The first model called `name`.
    pub open spec fn find_model(self, name: Seq<char>) -> Option<AstModelView> {
        match first_where(self.models, |m: AstModelView| m.name == name) {
            Some(i) => Some(self.models[i]),
            None => None,
        }
    }

    /// The first field called `field` of the first model called `model`.
    pub open spec fn find_field(self, model: Seq<char>, field: Seq<char>) -> Option<AstFieldView> {
        match self.find_model(model) {
            Some(m) => m.find_field(field),
            None => None,
        }
    }
}

impl AstModel {
    /// The first field called `name`.
    pub fn find_field(&self, name: &str) -> (found: Option<&AstField>)
        ensures
            found.deep_view() == self@.find_field(name@),
    {
        let ghost p = |f: AstFieldView| f.name == name@;
        let mut i: usize = 0;
        while i < self.fields.len()
            invariant
                i <= self.fields.len(),
                p == (|f: AstFieldView| f.name == name@),
                forall|j: int| 0 <= j < i ==> !p(#[trigger] self@.fields[j]),
            decreases self.fields.len() - i,
        {
            if text_eq(self.fields[i].name.as_str(), name) {
                proof {
                    lemma_first_where_found(self@.fields, p, i as int);
                }
                return Some(&self.fields[i]);
            }
            i += 1;
        }
        proof {
            lemma_first_where_none(self@.fields, p);
        }
        None
    }
}

impl SchemaAst {
    /// The first model called `name`.
    pub fn find_model(&self, name: &str) -> (found: Option<&AstModel>)
        ensures
            found.deep_view() == self@.find_model(name@),
    {
        let ghost p = |m: AstModelView| m.name == name@;
        let mut i: usize = 0;
        while i < self.models.len()
            invariant
                i <= self.models.len(),
                p == (|m: AstModelView| m.name == name@),
                forall|j: int| 0 <= j < i ==> !p(#[trigger] self@.models[j]),
            decreases self.models.len() - i,
        {
            if text_eq(self.models[i].name.as_str(), name) {
                proof {
                    lemma_first_where_found(self@.models, p, i as int);
                }
                return Some(&self.models[i]);
            }
            i += 1;
        }
        proof {
            lemma_first_where_none(self@.models, p);
        }
        None
    }

    /// The first field called `field` of the first model called `model`.
    pub fn find_field(&self, model: &str, field: &str) -> (found: Option<&AstField>)
        ensures
            found.deep_view() == self@.find_field(model@, field@),
    {
        match self.find_model(model) {
            Some(m) => m.find_field(field),
            None => None,
        }
    }
}

impl DatamodelError {
    /// The error that a model fails validation with the given message at the
    /// given place.
    pub fn new_model_validation_error(message: &str, model_name: &str, span: Span) -> (error:
        DatamodelError)
        ensures
            error@ == (DatamodelErrorView::ModelValidationError {
                message: message@,
                model_name: model_name@,
                span,
            }),
    {
        DatamodelError::ModelValidationError {
            message: message.to_owned(),
            model_name: model_name.to_owned(),
            span,
        }
    }
}

/// The validation error with the given message against a field of a model,
/// at the place where the source text declares the field. The source text
/// must declare the field.
pub fn field_validation_error(message: &str, model: &Model, field: &Field, ast: &SchemaAst) -> (error:
    DatamodelError)
    requires
        ast@.find_field(model.name@, field.name@) is Some,
    ensures
        error@ == (DatamodelErrorView::ModelValidationError {
            message: message@,
            model_name: model.name@,
            span: ast@.find_field(model.name@, field.name@).unwrap().span,
        }),
{
    let declared = ast.find_field(model.name.as_str(), field.name.as_str());
    DatamodelError::new_model_validation_error(message, model.name.as_str(), declared.unwrap().span)
}

} // verus!
