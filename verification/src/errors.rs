//! The errors that the service answers with.

use vstd::prelude::*;

use crate::text::{decimal, decimal_text, i32_value, law_decimal_reads_back};

verus! {

/// Why a request cannot be met.
#[derive(Debug)]
pub enum AppError {
    /// A credit is to be changed by nothing.
    ZeroQuantity,
    /// There is no organisation of that id.
    OrgNotFound { id: i32 },
    /// Something that the service depends on does not answer.
    CheckFailed { reason: String },
    /// Billing has come to a halt.
    BillingStalled,
    /// An answer of the metrics service, given as its JSON text, holds no value.
    MissingValue { result: String },
}

/// What an error holds.
pub enum AppErrorView {
    ZeroQuantity,
    OrgNotFound { id: i32 },
    CheckFailed { reason: Seq<char> },
    BillingStalled,
    MissingValue { result: Seq<char> },
}

impl View for AppError {
    type V = AppErrorView;

    open spec fn view(&self) -> AppErrorView {
        match self {
            AppError::ZeroQuantity => AppErrorView::ZeroQuantity,
            AppError::OrgNotFound { id } => AppErrorView::OrgNotFound { id: *id },
            AppError::CheckFailed { reason } => AppErrorView::CheckFailed { reason: reason@ },
            AppError::BillingStalled => AppErrorView::BillingStalled,
            AppError::MissingValue { result } => AppErrorView::MissingValue { result: result@ },
        }
    }
}

impl AppErrorView {
    /// The error in words.
    pub open spec fn message(self) -> Seq<char> {
        match self {
            AppErrorView::ZeroQuantity => "quantity must not be zero"@,
            AppErrorView::OrgNotFound { id } => "org id: "@ + decimal(id as int)
                + " could not be found"@,
            AppErrorView::CheckFailed { reason } => "readiness check failed: "@ + reason,
            AppErrorView::BillingStalled => "last billing cycle is too long ago"@,
            AppErrorView::MissingValue { result } => "failed to parse prometheus response: "@
                + result,
        }
    }
}

impl AppError {
    /// The error in words.
    pub fn message(&self) -> (text: String)
        ensures
            text@ == self@.message(),
    {
        match self {
            AppError::ZeroQuantity => "quantity must not be zero".to_owned(),
            AppError::OrgNotFound { id } => {
                let id = decimal_text(*id as i64);
                "org id: ".to_owned().concat(id.as_str()).concat(" could not be found")
            },
            AppError::CheckFailed { reason } => "readiness check failed: ".to_owned().concat(
                reason.as_str(),
            ),
            AppError::BillingStalled => "last billing cycle is too long ago".to_owned(),
            AppError::MissingValue { result } => "failed to parse prometheus response: ".to_owned()
                .concat(result.as_str()),
        }
    }
}

/// The error in words tells what it is about: the id of the organisation reads back from
/// it, and the reason of a failed check and the answer without a value stand at its end.
pub proof fn law_messages_tell_what_is_wrong(id: i32, text: Seq<char>)
    ensures
        ({
            let (before, behind) = ("org id: "@, " could not be found"@);
            let message = (AppErrorView::OrgNotFound { id }).message();
            let number = message.subrange(
                before.len() as int,
                message.len() - behind.len(),
            );
            &&& message == before + number + behind
            &&& i32_value(number) == Some(id)
        }),
        (AppErrorView::CheckFailed { reason: text }).message() == "readiness check failed: "@ + text,
        (AppErrorView::MissingValue { result: text }).message()
            == "failed to parse prometheus response: "@ + text,
        AppErrorView::ZeroQuantity.message() == "quantity must not be zero"@,
        AppErrorView::BillingStalled.message() == "last billing cycle is too long ago"@,
{
    let (before, behind) = ("org id: "@, " could not be found"@);
    let message = (AppErrorView::OrgNotFound { id }).message();
    let number = message.subrange(before.len() as int, message.len() - behind.len());
    assert(number == decimal(id as int));
    law_decimal_reads_back(id);
}

/// What is stated of an error is stated of it as it is answered.
pub proof fn law_errors_are_taken_as_they_are(error: AppError)
    ensures
        match error {
            AppError::ZeroQuantity => error@ is ZeroQuantity,
            AppError::OrgNotFound { id } => error@ is OrgNotFound && error@->id == id,
            AppError::CheckFailed { reason } => error@ is CheckFailed && error@->reason == reason@,
            AppError::BillingStalled => error@ is BillingStalled,
            AppError::MissingValue { result } => error@ is MissingValue && error@->result == result@,
        },
{
}

} // verus!
