//! The conditions on which the engine stops a program run.

use vstd::prelude::*;

verus! {

/// Why a program run was stopped. Every condition is terminal: the engine has
/// no construct to recover from one.
#[derive(Debug)]
pub enum VmError {
    /// A name was read before it was declared, or declared twice in one frame.
    Lookup(String),
    /// A value lacks the member that an operator or a call needs, or an
    /// operand has the wrong kind. Carries the member or operator name.
    Dispatch(String),
    /// An instruction found too few entries on the operand stack.
    ArityOrStack,
    /// A typed parameter received a value of another type: the declared type,
    /// then the type that arrived.
    TypeMismatch(String, String),
    /// A piece of the tape or a numeric text could not be decoded.
    Encoding(String),
}

/// The mathematical content of a [`VmError`].
#[verifier::ext_equal]
pub enum ErrorView {
    Lookup(Seq<char>),
    Dispatch(Seq<char>),
    ArityOrStack,
    TypeMismatch(Seq<char>, Seq<char>),
    Encoding(Seq<char>),
}

impl View for VmError {
    type V = ErrorView;

    open spec fn view(&self) -> ErrorView {
        match *self {
            VmError::Lookup(name) => ErrorView::Lookup(name@),
            VmError::Dispatch(name) => ErrorView::Dispatch(name@),
            VmError::ArityOrStack => ErrorView::ArityOrStack,
            VmError::TypeMismatch(expected, found) => ErrorView::TypeMismatch(expected@, found@),
            VmError::Encoding(text) => ErrorView::Encoding(text@),
        }
    }
}

impl Clone for VmError {
    /// A copy with the same content.
    fn clone(&self) -> (r: Self)
        ensures
            r@ == self@,
    {
        match self {
            VmError::Lookup(name) => VmError::Lookup(name.clone()),
            VmError::Dispatch(name) => VmError::Dispatch(name.clone()),
            VmError::ArityOrStack => VmError::ArityOrStack,
            VmError::TypeMismatch(expected, found) => VmError::TypeMismatch(
                expected.clone(),
                found.clone(),
            ),
            VmError::Encoding(text) => VmError::Encoding(text.clone()),
        }
    }
}

} // verus!
