//! What the two call gateways share: the signatures that a guest asks for
//! when it imports a host function, and the check that the host's function
//! has the signature that was asked for.

use crate::error::Error;
use vstd::prelude::*;

verus! {

/// `str`'s `==`: two strings are equal when they hold the same characters.
pub assume_specification[ <str as PartialEq>::eq ](a: &str, b: &str) -> (same: bool)
    ensures
        same == (a@ == b@),
;

/// The type of a value that crosses the boundary directly.
#[derive(Clone, Copy, Debug, PartialEq, Eq, Structural)]
pub enum ValueType {
    I32,
    I64,
    F32,
    F64,
}

/// The signature of a function: the types of its parameters, and of its
/// result if it has one.
#[derive(Clone, Debug, PartialEq, Eq)]
pub struct Signature {
    params: Vec<ValueType>,
    return_type: Option<ValueType>,
}

/// The signature of a host function: `params` 32-bit integers in, and one out
/// if it `has_result`. Every host function has a signature of this shape.
pub open spec fn i32_signature(params: nat, has_result: bool) -> (
    Seq<ValueType>,
    Option<ValueType>,
) {
    (
        Seq::new(params, |i: int| ValueType::I32),
        if has_result {
            Some(ValueType::I32)
        } else {
            None
        },
    )
}

impl View for Signature {
    type V = (Seq<ValueType>, Option<ValueType>);

    closed spec fn view(&self) -> (Seq<ValueType>, Option<ValueType>) {
        (self.params@, self.return_type)
    }
}

impl Signature {
    pub fn new(params: Vec<ValueType>, return_type: Option<ValueType>) -> (signature: Self)
        ensures
            signature@ == (params@, return_type),
    {
        Signature { params, return_type }
    }

    /// The types of the parameters.
    pub fn params(&self) -> (params: &[ValueType])
        ensures
            params@ == self@.0,
    {
        self.params.as_slice()
    }

    /// The type of the result.
    pub fn return_type(&self) -> (return_type: Option<ValueType>)
        ensures
            return_type == self@.1,
    {
        self.return_type
    }

    /// Whether this is the signature with `params` 32-bit integers in, and
    /// one out if `has_result`.
    pub fn is_i32s(&self, params: usize, has_result: bool) -> (same: bool)
        ensures
            same == (self@ == i32_signature(params as nat, has_result)),
    {
        let result_matches = match self.return_type {
            Some(ValueType::I32) => has_result,
            Some(_) => false,
            None => !has_result,
        };
        if !result_matches || self.params.len() != params {
            return false;
        }
        let mut i: usize = 0;
        while i < params
            invariant
                i <= params,
                params == self.params@.len(),
                forall|j: int| 0 <= j < i ==> self.params@[j] == ValueType::I32,
            decreases params - i,
        {
            if self.params[i] != ValueType::I32 {
                return false;
            }
            i += 1;
        }
        assert(self@.0 =~= i32_signature(params as nat, has_result).0);
        true
    }
}

/// What resolving the import `name` gives, when the host's function of that
/// name, if it has one, is `found`: its index, `params` and `has_result`.
pub open spec fn resolved(
    name: Seq<char>,
    requested: (Seq<ValueType>, Option<ValueType>),
    found: Option<(usize, nat, bool)>,
    r: Result<usize, Error>,
) -> bool {
    match found {
        None => r matches Err(Error::UnknownFunction(n)) && n@ == name,
        Some((index, params, has_result)) => if requested == i32_signature(params, has_result) {
            r == Ok::<usize, Error>(index)
        } else {
            r matches Err(Error::WrongSignature(n)) && n@ == name
        },
    }
}

/// Resolves an import of a function that the host has under `index`, with
/// `params` 32-bit integers in and one out if `has_result`.
pub fn resolve_known(
    field_name: &str,
    req_signature: &Signature,
    index: usize,
    params: usize,
    has_result: bool,
) -> (r: Result<usize, Error>)
    ensures
        resolved(field_name@, req_signature@, Some((index, params as nat, has_result)), r),
{
    if req_signature.is_i32s(params, has_result) {
        Ok(index)
    } else {
        Err(Error::WrongSignature(field_name.to_owned()))
    }
}

} // verus!
