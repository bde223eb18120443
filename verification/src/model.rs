//! The document records that a resolved tag is turned into, and their
//! mathematical views.

use vstd::prelude::*;

verus! {

/// The view of a list of strings: the list of their character sequences.
pub open spec fn texts(v: Seq<String>) -> Seq<Seq<char>> {
    Seq::new(v.len(), |i: int| v[i]@)
}

/// One parameter of an endpoint.
#[derive(Debug, Clone, PartialEq, Eq)]
pub struct Parameter {
    pub name: String,
    pub location: String,
    pub required: bool,
    pub type_: String,
    pub description: String,
}

/// The view of a [`Parameter`].
pub struct ParameterView {
    pub name: Seq<char>,
    pub location: Seq<char>,
    pub required: bool,
    pub type_: Seq<char>,
    pub description: Seq<char>,
}

impl View for Parameter {
    type V = ParameterView;

    open spec fn view(&self) -> ParameterView {
        ParameterView {
            name: self.name@,
            location: self.location@,
            required: self.required,
            type_: self.type_@,
            description: self.description@,
        }
    }
}

/// One response of an endpoint.
#[derive(Debug, Clone, PartialEq, Eq)]
pub struct Response {
    pub code: String,
    pub description: String,
    pub schema: String,
}

/// The view of a [`Response`].
pub struct ResponseView {
    pub code: Seq<char>,
    pub description: Seq<char>,
    pub schema: Seq<char>,
}

impl View for Response {
    type V = ResponseView;

    open spec fn view(&self) -> ResponseView {
        ResponseView { code: self.code@, description: self.description@, schema: self.schema@ }
    }
}

/// The documentation of one API endpoint.
#[derive(Debug, Clone, PartialEq, Eq)]
pub struct EndpointDoc {
    pub path: String,
    pub base_url: String,
    pub method: String,
    pub format: String,
    pub body: String,
    pub description: String,
    pub parameters: Vec<Parameter>,
    pub responses: Vec<Response>,
    pub tags: Vec<String>,
    pub security: Vec<String>,
    pub consumes: Vec<String>,
    pub produces: Vec<String>,
    pub deprecated: bool,
}

/// The view of an [`EndpointDoc`].
pub struct EndpointDocView {
    pub path: Seq<char>,
    pub base_url: Seq<char>,
    pub method: Seq<char>,
    pub format: Seq<char>,
    pub body: Seq<char>,
    pub description: Seq<char>,
    pub parameters: Seq<ParameterView>,
    pub responses: Seq<ResponseView>,
    pub tags: Seq<Seq<char>>,
    pub security: Seq<Seq<char>>,
    pub consumes: Seq<Seq<char>>,
    pub produces: Seq<Seq<char>>,
    pub deprecated: bool,
}

impl View for EndpointDoc {
    type V = EndpointDocView;

    open spec fn view(&self) -> EndpointDocView {
        EndpointDocView {
            path: self.path@,
            base_url: self.base_url@,
            method: self.method@,
            format: self.format@,
            body: self.body@,
            description: self.description@,
            parameters: Seq::new(self.parameters@.len(), |i: int| self.parameters@[i]@),
            responses: Seq::new(self.responses@.len(), |i: int| self.responses@[i]@),
            tags: texts(self.tags@),
            security: texts(self.security@),
            consumes: texts(self.consumes@),
            produces: texts(self.produces@),
            deprecated: self.deprecated,
        }
    }
}

/// The documentation of one function.
#[derive(Debug, Clone, PartialEq, Eq)]
pub struct FunctionDoc {
    pub title: String,
    pub description: String,
    pub developed_by: String,
}

/// The view of a [`FunctionDoc`].
pub struct FunctionDocView {
    pub title: Seq<char>,
    pub description: Seq<char>,
    pub developed_by: Seq<char>,
}

impl View for FunctionDoc {
    type V = FunctionDocView;

    open spec fn view(&self) -> FunctionDocView {
        FunctionDocView {
            title: self.title@,
            description: self.description@,
            developed_by: self.developed_by@,
        }
    }
}

} // verus!
