//! The envelope that answers carry: a status flag, a message and the data.

use vstd::prelude::*;
use crate::error::Error;

verus! {

/// An answer with its data, if any.
#[derive(Debug)]
pub struct Response<T> {
    pub status: bool,
    pub message: String,
    pub data: Option<T>,
}

/// The body of an answer.
#[derive(Debug)]
pub struct Content<T> {
    pub status: bool,
    pub message: String,
    pub data: Option<T>,
}

/// An answer, by its kind.
#[derive(Debug)]
pub enum ResponseEnum<T> {
    Success(Content<T>),
    Created(Content<T>),
    NotFound(Content<T>),
    NoContent(Content<T>),
    Unauthorized(Content<T>),
    Internal(Content<T>),
}

impl<T> ResponseEnum<T> {
    /// A successful answer with data.
    pub fn ok(data: T, message: String) -> (r: Self)
        ensures
            r == ResponseEnum::Success(Content { status: true, message, data: Some(data) }),
    {
        ResponseEnum::Success(Content { status: true, message, data: Some(data) })
    }

    /// An answer for something created, with what was created.
    pub fn created(data: T, message: String) -> (r: Self)
        ensures
            r == ResponseEnum::Created(Content { status: true, message, data: Some(data) }),
    {
        ResponseEnum::Created(Content { status: true, message, data: Some(data) })
    }

    /// A failed answer: nothing was found.
    pub fn not_found(message: String) -> (r: Self)
        ensures
            r == ResponseEnum::NotFound(Content::<T> { status: false, message, data: None }),
    {
        ResponseEnum::NotFound(Content { status: false, message, data: None })
    }

    /// A failed answer without content.
    pub fn no_content(message: String) -> (r: Self)
        ensures
            r == ResponseEnum::NoContent(Content::<T> { status: false, message, data: None }),
    {
        ResponseEnum::NoContent(Content { status: false, message, data: None })
    }

    /// A failed answer: the caller may not do this.
    pub fn unauthorized(message: String) -> (r: Self)
        ensures
            r == ResponseEnum::Unauthorized(Content::<T> { status: false, message, data: None }),
    {
        ResponseEnum::Unauthorized(Content { status: false, message, data: None })
    }

    /// A failed answer: the server could not do it.
    pub fn internal(message: String) -> (r: Self)
        ensures
            r == ResponseEnum::Internal(Content::<T> { status: false, message, data: None }),
    {
        ResponseEnum::Internal(Content { status: false, message, data: None })
    }

    /// The answer for a failed operation: `NotFound` for a missing record,
    /// `Internal` for any other failure, with the error's text.
    pub fn from_error(e: &Error) -> (r: Self)
        ensures
            e is ObjectNotFound ==> (r matches ResponseEnum::NotFound(c) && !c.status && c.message@ == crate::error::error_text(*e) && c.data is None),
            !(e is ObjectNotFound) ==> (r matches ResponseEnum::Internal(c) && !c.status && c.message@ == crate::error::error_text(*e) && c.data is None),
    {
        let message = e.message();
        match e {
            Error::ObjectNotFound => Self::not_found(message),
            _ => Self::internal(message),
        }
    }
}

} // verus!
