//! Validated data model and bidirectional codec for a hierarchical
//! hardware-description format (devices, peripherals, registers, fields and
//! enumerated values).
//!
//! The crate offers:
//! - a typed entity model built through builders and checked by tiered
//!   validation (`Disabled`, `Weak`, `Strict`),
//! - primitive text parsers for the numeral and boolean spellings the format
//!   allows,
//! - a plain element-tree type with the query interface the parse layer needs
//!   and the build interface the encode layer needs,
//! - dimensioned-array expansion and compaction, and derivation merging.

pub mod dim;
pub mod encode;
pub mod enumeratedvalue;
pub mod num;
pub mod parse;
pub mod register;
pub mod text;
pub mod tree;

use vstd::prelude::*;

verus! {

/// Strictness tier applied by `build`, `modify_from` and `validate`.
#[derive(Clone, Copy, Debug, PartialEq, Eq, Structural)]
pub enum ValidateLevel {
    /// Skip all semantic checks; accept any structurally buildable entity.
    Disabled,
    /// Required-field presence checks only.
    Weak,
    /// All checks: presence, name format, and mutual-exclusivity rules.
    Strict,
}

impl ValidateLevel {
    /// True when no semantic checks run at this level.
    pub fn is_disabled(self) -> (r: bool)
        ensures
            r == (self == ValidateLevel::Disabled),
    {
        matches!(self, ValidateLevel::Disabled)
    }

    /// True when required-field checks run at this level.
    pub fn is_weak(self) -> (r: bool)
        ensures
            r == (self == ValidateLevel::Weak || self == ValidateLevel::Strict),
    {
        matches!(self, ValidateLevel::Weak | ValidateLevel::Strict)
    }

    /// True when every check runs at this level.
    pub fn is_strict(self) -> (r: bool)
        ensures
            r == (self == ValidateLevel::Strict),
    {
        matches!(self, ValidateLevel::Strict)
    }
}

/// Error raised while assembling an entity from a builder.
#[derive(Clone, Debug)]
pub enum BuildError {
    /// A required field was never set; carries the field's name.
    Uninitialized(String),
}

/// Abstract value of a [`BuildError`].
pub ghost enum BuildErrorView {
    Uninitialized(Seq<char>),
}

impl View for BuildError {
    type V = BuildErrorView;

    open spec fn view(&self) -> BuildErrorView {
        match self {
            BuildError::Uninitialized(f) => BuildErrorView::Uninitialized(f@),
        }
    }
}

/// Error raised by the strict name-format check; carries the offending name
/// and the tag of the field it was read from.
#[derive(Clone, Debug)]
pub enum NameError {
    Invalid(String, String),
}

/// Abstract value of a [`NameError`].
pub ghost enum NameErrorView {
    Invalid(Seq<char>, Seq<char>),
}

impl View for NameError {
    type V = NameErrorView;

    open spec fn view(&self) -> NameErrorView {
        match self {
            NameError::Invalid(n, t) => NameErrorView::Invalid(n@, t@),
        }
    }
}

/// Any error the entity model can raise while building, modifying or
/// validating an entity.
#[derive(Clone, Debug)]
pub enum SvdError {
    /// A builder was missing a required field.
    Build(BuildError),
    /// A name broke the strict format rules.
    Name(NameError),
    /// An enumerated value broke one of its invariants.
    EnumeratedValue(enumeratedvalue::Error),
    /// A derivation path resolved to nothing under strict validation;
    /// carries the path.
    UnresolvedDerivedFrom(String),
}

/// Abstract value of a [`SvdError`].
pub ghost enum SvdErrorView {
    Build(BuildErrorView),
    Name(NameErrorView),
    EnumeratedValue(enumeratedvalue::Error),
    UnresolvedDerivedFrom(Seq<char>),
}

impl View for SvdError {
    type V = SvdErrorView;

    open spec fn view(&self) -> SvdErrorView {
        match self {
            SvdError::Build(e) => SvdErrorView::Build(e@),
            SvdError::Name(e) => SvdErrorView::Name(e@),
            SvdError::EnumeratedValue(e) => SvdErrorView::EnumeratedValue(*e),
            SvdError::UnresolvedDerivedFrom(p) => SvdErrorView::UnresolvedDerivedFrom(p@),
        }
    }
}

/// Characters the strict name-format rules allow: ASCII letters, digits,
/// underscore, and the `%` of an array placeholder.
pub open spec fn valid_name_char(c: char) -> bool {
    ||| ('A' as u32) <= (c as u32) <= ('Z' as u32)
    ||| ('a' as u32) <= (c as u32) <= ('z' as u32)
    ||| ('0' as u32) <= (c as u32) <= ('9' as u32)
    ||| c == '_'
    ||| c == '%'
}

/// A name acceptable under strict validation: nonempty, made of
/// identifier-like characters.
pub open spec fn valid_name(s: Seq<char>) -> bool {
    s.len() > 0 && forall|i: int| 0 <= i < s.len() ==> valid_name_char(#[trigger] s[i])
}

/// Enforce the strict name-format rule on `name`, read from the field `tag`.
pub fn check_name(name: &str, tag: &str) -> (r: Result<(), SvdError>)
    ensures
        r is Ok <==> valid_name(name@),
        r matches Err(e) ==> e@ == SvdErrorView::Name(NameErrorView::Invalid(name@, tag@)),
{
    let n = name.unicode_len();
    if n == 0 {
        return Err(SvdError::Name(NameError::Invalid(name.to_owned(), tag.to_owned())));
    }
    let mut i: usize = 0;
    while i < n
        invariant
            n == name@.len(),
            i <= n,
            forall|k: int| 0 <= k < i ==> valid_name_char(#[trigger] name@[k]),
        decreases n - i,
    {
        let c = name.get_char(i);
        let u = c as u32;
        let ok = (65 <= u && u <= 90) || (97 <= u && u <= 122) || (48 <= u && u <= 57) || c == '_'
            || c == '%';
        if !ok {
            assert(!valid_name_char(name@[i as int]));
            return Err(SvdError::Name(NameError::Invalid(name.to_owned(), tag.to_owned())));
        }
        i += 1;
    }
    Ok(())
}

/// Abstract value of an optional owned string.
pub open spec fn opt_str_view(d: Option<String>) -> Option<Seq<char>> {
    match d {
        Some(s) => Some(s@),
        None => None,
    }
}

/// An explicitly-set but empty optional text normalizes to "not set".
pub open spec fn spec_empty_to_none(d: Option<Seq<char>>) -> Option<Seq<char>> {
    match d {
        Some(s) => if s.len() == 0 {
            None
        } else {
            Some(s)
        },
        None => None,
    }
}

/// Normalize an optional text: an empty string becomes `None`.
pub fn empty_to_none(d: Option<String>) -> (r: Option<String>)
    ensures
        opt_str_view(r) == spec_empty_to_none(opt_str_view(d)),
{
    match d {
        Some(s) => {
            if s.as_str().is_empty() {
                None
            } else {
                Some(s)
            }
        },
        None => None,
    }
}

} // verus!
