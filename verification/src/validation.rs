//! Validation errors and the trait of validatable response types.

use vstd::prelude::*;

verus! {

/// One schema violation: the dotted/indexed path of the offending field and a
/// human-readable message.
#[derive(Debug, Clone, PartialEq, Eq)]
pub struct ValidationError {
    pub field: String,
    pub message: String,
}

pub ghost struct ErrView {
    pub field: Seq<char>,
    pub message: Seq<char>,
}

impl View for ValidationError {
    type V = ErrView;

    open spec fn view(&self) -> ErrView {
        ErrView { field: self.field@, message: self.message@ }
    }
}

/// The views of a sequence of validation errors.
pub open spec fn err_views(v: Seq<ValidationError>) -> Seq<ErrView> {
    v.map_values(|e: ValidationError| e@)
}

impl ValidationError {
    pub fn new(field: &str, message: &str) -> (r: Self)
        ensures
            r@ == (ErrView { field: field@, message: message@ }),
    {
        ValidationError { field: String::from_str(field), message: String::from_str(message) }
    }

    /// The human-readable rendering of this error.
    pub fn describe(&self) -> (r: String)
        ensures
            r@ == "Validation failed for field '"@ + self.field@ + "': "@ + self.message@,
    {
        let mut s = String::from_str("Validation failed for field '");
        s.append(self.field.as_str());
        s.append("': ");
        s.append(self.message.as_str());
        s
    }
}

/// A response type whose schema can be checked; the checker never fails fast
/// but returns every violation, in a fixed order, and succeeds exactly when
/// there is none.
pub trait Validatable {
    /// The full ordered sequence of violations of this value.
    spec fn validation_spec(&self) -> Seq<ErrView>;

    fn validate(&self) -> (r: Result<(), Vec<ValidationError>>)
        ensures
            match r {
                Ok(()) => self.validation_spec().len() == 0,
                Err(errs) => errs@.len() > 0 && err_views(errs@) == self.validation_spec(),
            },
    ;
}

} // verus!
