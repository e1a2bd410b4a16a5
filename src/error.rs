//! The ways an operation on the ledger can fail.

use vstd::prelude::*;
use crate::text::{push_signed_decimal, signed_decimal};

verus! {

/// A failed ledger operation.
#[derive(Debug)]
pub enum Error {
    /// The record looked up, updated or deleted does not exist.
    ObjectNotFound,
    /// A debit of the first amount was asked of a balance holding only the second.
    NotEnoughUserValue(i64, i64),
    /// A monetary amount that is not allowed here (not positive, or out of range).
    InvalidValue,
    /// The store failed; the text says why.
    Other(String),
    /// The file store failed; the text says why.
    Io(String),
}

/// The text shown for an error.
pub open spec fn error_text(e: Error) -> Seq<char> {
    match e {
        Error::ObjectNotFound => "لم يتم العثور علي هدف"@,
        Error::NotEnoughUserValue(asked, held) => "لا يوجد قيمة كافية: \""@ + signed_decimal(asked as int) + " > "@
            + signed_decimal(held as int) + "\""@,
        Error::InvalidValue => "قيمة غير صحيحة:  >= 0"@,
        Error::Other(cause) => "حدث خطأ في قاعدة البيانات:\n "@ + cause@,
        Error::Io(cause) => "حدث خطأ في حفظ الملفات:\n "@ + cause@,
    }
}

impl Error {
    /// The text shown for this error.
    pub fn message(&self) -> (r: String)
        ensures
            r@ == error_text(*self),
    {
        match self {
            Error::ObjectNotFound => String::from_str("لم يتم العثور علي هدف"),
            Error::NotEnoughUserValue(asked, held) => {
                let mut r = String::from_str("لا يوجد قيمة كافية: \"");
                push_signed_decimal(&mut r, *asked);
                r.append(" > ");
                push_signed_decimal(&mut r, *held);
                r.append("\"");
                r
            },
            Error::InvalidValue => String::from_str("قيمة غير صحيحة:  >= 0"),
            Error::Other(cause) => {
                let mut r = String::from_str("حدث خطأ في قاعدة البيانات:\n ");
                r.append(cause.as_str());
                r
            },
            Error::Io(cause) => {
                let mut r = String::from_str("حدث خطأ في حفظ الملفات:\n ");
                r.append(cause.as_str());
                r
            },
        }
    }
}

} // verus!
