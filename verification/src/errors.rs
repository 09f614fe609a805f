//! Error values used across the library.

use vstd::prelude::*;

verus! {

/// A plain error carrying a human-readable message.
#[derive(Debug)]
pub struct MiscError {
    text: String,
}

impl View for MiscError {
    type V = Seq<char>;

    closed spec fn view(&self) -> Seq<char> {
        self.text@
    }
}

impl MiscError {
    pub fn new(text: &str) -> (r: Self)
        ensures
            r@ == text@,
    {
        MiscError { text: text.to_owned() }
    }

    /// The error's message.
    pub fn message(&self) -> (r: &str)
        ensures
            r@ == self@,
    {
        self.text.as_str()
    }

    /// An `Err` carrying `text`, in any result type.
    pub fn boxed<T>(text: &str) -> (r: Result<T, MiscError>)
        ensures
            r matches Err(e) && e@ == text@,
    {
        Err(Self::new(text))
    }

    /// Replaces the error of `r`, if any, with one carrying `text`.
    pub fn convert<T, U>(r: Result<T, U>, text: &str) -> (res: Result<T, MiscError>)
        ensures
            match r {
                Ok(_) => res matches Ok(x) && r matches Ok(y) && x == y,
                Err(_) => res matches Err(e) && e@ == text@,
            },
    {
        match r {
            Ok(x) => Ok(x),
            Err(_) => Err(Self::new(text)),
        }
    }

    /// Turns `None` into an error carrying `text`.
    pub fn from_option<T>(o: Option<T>, text: &str) -> (res: Result<T, MiscError>)
        ensures
            match o {
                Some(x) => res matches Ok(y) && y == x,
                None => res matches Err(e) && e@ == text@,
            },
    {
        match o {
            Some(x) => Ok(x),
            None => Err(Self::new(text)),
        }
    }
}

} // verus!
