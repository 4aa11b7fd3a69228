//! Results of static member lookup, as shown by the metatable inspector.

use vstd::prelude::*;

verus! {

/// How a member lookup ended.
#[derive(Debug, PartialEq, Eq)]
pub enum LookupResult {
    /// Found, with a human-readable description of where.
    Found(String),
    /// The known shapes rule the member out.
    NotFound,
    /// A dynamic link stopped the lookup, with the reason.
    Unknown(String),
}

pub enum LookupResultView {
    Found(Seq<char>),
    NotFound,
    Unknown(Seq<char>),
}

impl View for LookupResult {
    type V = LookupResultView;

    open spec fn view(&self) -> LookupResultView {
        match self {
            LookupResult::Found(s) => LookupResultView::Found(s@),
            LookupResult::NotFound => LookupResultView::NotFound,
            LookupResult::Unknown(s) => LookupResultView::Unknown(s@),
        }
    }
}

/// One explained member access.
#[derive(Debug, PartialEq, Eq)]
pub struct LookupExplanation {
    pub expression: String,
    pub line: usize,
    pub column: usize,
    pub start_column: usize,
    pub end_column: usize,
    pub steps: Vec<String>,
    pub result: LookupResult,
}

pub struct ExplanationView {
    pub expression: Seq<char>,
    pub line: usize,
    pub column: usize,
    pub start_column: usize,
    pub end_column: usize,
    pub steps: Seq<Seq<char>>,
    pub result: LookupResultView,
}

impl View for LookupExplanation {
    type V = ExplanationView;

    open spec fn view(&self) -> ExplanationView {
        ExplanationView {
            expression: self.expression@,
            line: self.line,
            column: self.column,
            start_column: self.start_column,
            end_column: self.end_column,
            steps: self.steps@.map_values(|s: String| s@),
            result: self.result@,
        }
    }
}

} // verus!
