//! Errors of the typed attribute parsers.

use crate::text::{lit, push_decimal, push_str, push_string, string_of};
use vstd::prelude::*;

verus! {

/// Attribute error with specific details
#[derive(Debug, PartialEq, Eq)]
pub enum AttributeError {
    /// If an Attribute is not found in a media or the session
    NotFound(String),
    /// If a parameter is missing in an attribute
    ParamNotFound { param: String, attr: String },
    /// If a parameter value is not valid type or not in range
    InvalidParamValue { param: String, val: String, attr: String },
    /// If an attribute is not in not in expected format
    UnsupportedFormat { val: String, attr: String },
    /// If there are more than expected items trailing in the attribute parameters
    UnexpectedTrailingItem { val: String, attr: String },
    /// Unspecified error
    Other { error: String, attr: String },
}

/// The texts that an [`AttributeError`] carries.
pub enum AttributeErrorModel {
    NotFound(Seq<char>),
    ParamNotFound { param: Seq<char>, attr: Seq<char> },
    InvalidParamValue { param: Seq<char>, val: Seq<char>, attr: Seq<char> },
    UnsupportedFormat { val: Seq<char>, attr: Seq<char> },
    UnexpectedTrailingItem { val: Seq<char>, attr: Seq<char> },
    Other { error: Seq<char>, attr: Seq<char> },
}

impl DeepView for AttributeError {
    type V = AttributeErrorModel;

    open spec fn deep_view(&self) -> AttributeErrorModel {
        match self {
            AttributeError::NotFound(s) => AttributeErrorModel::NotFound(s@),
            AttributeError::ParamNotFound { param, attr } => AttributeErrorModel::ParamNotFound {
                param: param@,
                attr: attr@,
            },
            AttributeError::InvalidParamValue { param, val, attr } =>
                AttributeErrorModel::InvalidParamValue { param: param@, val: val@, attr: attr@ },
            AttributeError::UnsupportedFormat { val, attr } =>
                AttributeErrorModel::UnsupportedFormat { val: val@, attr: attr@ },
            AttributeError::UnexpectedTrailingItem { val, attr } =>
                AttributeErrorModel::UnexpectedTrailingItem { val: val@, attr: attr@ },
            AttributeError::Other { error, attr } => AttributeErrorModel::Other {
                error: error@,
                attr: attr@,
            },
        }
    }
}

/// The outcome of a parser, with every text taken by its characters.
pub open spec fn result_model<T: DeepView>(r: &Result<T, AttributeError>) -> Result<
    T::V,
    AttributeErrorModel,
> {
    match r {
        Ok(v) => Ok(v.deep_view()),
        Err(e) => Err(e.deep_view()),
    }
}

/// The message of an attribute error.
pub open spec fn error_message(e: AttributeErrorModel) -> Seq<char> {
    match e {
        AttributeErrorModel::NotFound(s) => "Attribute "@ + s + " not found"@,
        AttributeErrorModel::ParamNotFound { param, attr } => "Param "@ + param + " not found in "@
            + attr,
        AttributeErrorModel::InvalidParamValue { param, val, attr } => "Invalid value "@ + val
            + " for Param "@ + param + " in "@ + attr,
        AttributeErrorModel::UnsupportedFormat { val, attr } => "Unsupported attribute format: "@
            + val + " for "@ + attr,
        AttributeErrorModel::UnexpectedTrailingItem { val, attr } => "Unexpected trailing item "@
            + val + " for in "@ + attr,
        AttributeErrorModel::Other { error, attr } => attr + ": "@ + error,
    }
}

impl AttributeError {
    /// The message of the error.
    pub fn to_string(&self) -> (r: String)
        ensures
            r@ == error_message(self.deep_view()),
    {
        let mut out: Vec<char> = Vec::new();
        match self {
            AttributeError::NotFound(s) => {
                push_str(&mut out, "Attribute ");
                push_string(&mut out, s);
                push_str(&mut out, " not found");
            },
            AttributeError::ParamNotFound { param, attr } => {
                push_str(&mut out, "Param ");
                push_string(&mut out, param);
                push_str(&mut out, " not found in ");
                push_string(&mut out, attr);
            },
            AttributeError::InvalidParamValue { param, val, attr } => {
                push_str(&mut out, "Invalid value ");
                push_string(&mut out, val);
                push_str(&mut out, " for Param ");
                push_string(&mut out, param);
                push_str(&mut out, " in ");
                push_string(&mut out, attr);
            },
            AttributeError::UnsupportedFormat { val, attr } => {
                push_str(&mut out, "Unsupported attribute format: ");
                push_string(&mut out, val);
                push_str(&mut out, " for ");
                push_string(&mut out, attr);
            },
            AttributeError::UnexpectedTrailingItem { val, attr } => {
                push_str(&mut out, "Unexpected trailing item ");
                push_string(&mut out, val);
                push_str(&mut out, " for in ");
                push_string(&mut out, attr);
            },
            AttributeError::Other { error, attr } => {
                push_string(&mut out, attr);
                push_str(&mut out, ": ");
                push_string(&mut out, error);
            },
        }
        string_of(&out)
    }
}

pub fn param_not_found(param: &str, attr: &str) -> (e: AttributeError)
    ensures
        e.deep_view() == (AttributeErrorModel::ParamNotFound { param: param@, attr: attr@ }),
{
    AttributeError::ParamNotFound { param: lit(param), attr: lit(attr) }
}

pub fn invalid_value(param: &str, val: &Vec<char>, attr: &str) -> (e: AttributeError)
    ensures
        e.deep_view() == (AttributeErrorModel::InvalidParamValue {
            param: param@,
            val: val@,
            attr: attr@,
        }),
{
    AttributeError::InvalidParamValue { param: lit(param), val: string_of(val), attr: lit(attr) }
}

/// An out-of-range value: its decimal form followed by a note on the range.
pub fn out_of_range(param: &str, val: u64, note: &str, attr: &str) -> (e: AttributeError)
    ensures
        e.deep_view() == (AttributeErrorModel::InvalidParamValue {
            param: param@,
            val: crate::text::decimal(val as nat) + note@,
            attr: attr@,
        }),
{
    let mut v: Vec<char> = Vec::new();
    push_decimal(&mut v, val);
    push_str(&mut v, note);
    invalid_value(param, &v, attr)
}

pub fn unsupported_format(val: &Vec<char>, attr: &str) -> (e: AttributeError)
    ensures
        e.deep_view() == (AttributeErrorModel::UnsupportedFormat { val: val@, attr: attr@ }),
{
    AttributeError::UnsupportedFormat { val: string_of(val), attr: lit(attr) }
}

pub fn trailing_item(val: &Vec<char>, attr: &str) -> (e: AttributeError)
    ensures
        e.deep_view() == (AttributeErrorModel::UnexpectedTrailingItem { val: val@, attr: attr@ }),
{
    AttributeError::UnexpectedTrailingItem { val: string_of(val), attr: lit(attr) }
}

pub fn other_error(error: &Vec<char>, attr: &str) -> (e: AttributeError)
    ensures
        e.deep_view() == (AttributeErrorModel::Other { error: error@, attr: attr@ }),
{
    AttributeError::Other { error: string_of(error), attr: lit(attr) }
}

/// Each error is written with its own message.
pub proof fn lemma_error_messages(a: Seq<char>, b: Seq<char>, c: Seq<char>)
    ensures
        error_message(AttributeErrorModel::NotFound(a)) == "Attribute "@ + a + " not found"@,
        error_message(AttributeErrorModel::ParamNotFound { param: a, attr: b }) == "Param "@ + a
            + " not found in "@ + b,
        error_message(AttributeErrorModel::InvalidParamValue { param: a, val: b, attr: c })
            == "Invalid value "@ + b + " for Param "@ + a + " in "@ + c,
        error_message(AttributeErrorModel::UnsupportedFormat { val: a, attr: b })
            == "Unsupported attribute format: "@ + a + " for "@ + b,
        error_message(AttributeErrorModel::UnexpectedTrailingItem { val: a, attr: b })
            == "Unexpected trailing item "@ + a + " for in "@ + b,
        error_message(AttributeErrorModel::Other { error: a, attr: b }) == b + ": "@ + a,
{
}

} // verus!
