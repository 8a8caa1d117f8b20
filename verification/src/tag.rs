//! Branch keys and their semantic tags.
//!
//! A branch template names each arm with a raw key: one of four fixed
//! symbolic idents, a decimal integer literal, or a wildcard. The resolver
//! maps each key to a semantic [`Tag`] and rejects everything else.

use vstd::prelude::*;
use vstd::string::*;
use crate::errors::{Error, ErrorModel};
use crate::numtext::{spec_strip, is_int_text, int_text_val, parse_stripped};

verus! {

/// The closed set of semantic tags a branch key can denote.
#[derive(Debug, Clone, Copy, PartialEq, Eq, Structural)]
pub enum Tag {
    /// Matches every negative domain value (signed family).
    Negative,
    /// Matches every positive domain value, signed family.
    PositiveSigned,
    /// Matches every positive domain value, unsigned family.
    PositiveUnsigned,
    /// Matches the domain value zero.
    Zero,
    /// Matches exactly the carried value, overriding the classes above.
    Literal(i64),
    /// The user-supplied catch-all arm.
    Wildcard,
}

/// A raw branch key, as the template hands it over.
#[derive(Debug, Clone)]
pub enum ArmKey {
    /// A bare identifier key.
    Ident(String),
    /// A (possibly signed) numeric literal key, still as text.
    Number(String),
    /// The wildcard key.
    Wild,
}

/// The mathematical reading of an [`ArmKey`].
pub enum KeyModel {
    Ident(Seq<char>),
    Number(Seq<char>),
    Wild,
}

impl View for ArmKey {
    type V = KeyModel;

    open spec fn view(&self) -> KeyModel {
        match self {
            ArmKey::Ident(s) => KeyModel::Ident(s@),
            ArmKey::Number(s) => KeyModel::Number(s@),
            ArmKey::Wild => KeyModel::Wild,
        }
    }
}

/// One supplied arm: a raw key and its opaque body fragment.
#[derive(Debug, Clone)]
pub struct Arm {
    pub key: ArmKey,
    pub body: String,
}

/// The mathematical reading of an [`Arm`].
pub struct ArmModel {
    pub key: KeyModel,
    pub body: Seq<char>,
}

impl View for Arm {
    type V = ArmModel;

    open spec fn view(&self) -> ArmModel {
        ArmModel { key: self.key@, body: self.body@ }
    }
}

/// What tag a raw key denotes, or which error rejects it.
pub open spec fn resolve_key_spec(k: KeyModel) -> Result<Tag, ErrorModel> {
    match k {
        KeyModel::Ident(name) => {
            if name == "N"@ {
                Ok(Tag::Negative)
            } else if name == "P"@ {
                Ok(Tag::PositiveSigned)
            } else if name == "U"@ {
                Ok(Tag::PositiveUnsigned)
            } else if name == "False"@ {
                Ok(Tag::Zero)
            } else {
                Err(ErrorModel::UnrecognizedKey(name))
            }
        },
        KeyModel::Number(text) => {
            let t = spec_strip(text, true);
            if is_int_text(t) && i64::MIN <= int_text_val(t) <= i64::MAX {
                Ok(Tag::Literal(int_text_val(t) as i64))
            } else {
                Err(ErrorModel::MalformedLiteral(text))
            }
        },
        KeyModel::Wild => Ok(Tag::Wildcard),
    }
}

/// Map a raw branch key to its semantic tag.
///
/// Accepts the four fixed symbolic idents, decimal literal text (underscores
/// and spaces tolerated), and the wildcard; rejects anything else.
pub fn resolve_key(k: &ArmKey) -> (r: Result<Tag, Error>)
    ensures
        match r {
            Ok(t) => resolve_key_spec(k@) == Ok::<Tag, ErrorModel>(t),
            Err(e) => resolve_key_spec(k@) == Err::<Tag, ErrorModel>(e@),
        },
{
    match k {
        ArmKey::Ident(name) => {
            let key_n: String = String::from_str("N");
            let key_p: String = String::from_str("P");
            let key_u: String = String::from_str("U");
            let key_false: String = String::from_str("False");
            if *name == key_n {
                Ok(Tag::Negative)
            } else if *name == key_p {
                Ok(Tag::PositiveSigned)
            } else if *name == key_u {
                Ok(Tag::PositiveUnsigned)
            } else if *name == key_false {
                Ok(Tag::Zero)
            } else {
                Err(Error::UnrecognizedKey(name.clone()))
            }
        },
        ArmKey::Number(text) => {
            match parse_stripped(text.as_str(), true) {
                Some(v) => Ok(Tag::Literal(v)),
                None => Err(Error::MalformedLiteral(text.clone())),
            }
        },
        ArmKey::Wild => Ok(Tag::Wildcard),
    }
}

} // verus!
