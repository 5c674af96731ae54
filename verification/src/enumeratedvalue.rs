//! A single entry of an enumeration attached to a register field: a named
//! constant, or the default that matches every value not listed explicitly.

use crate::{
    check_name, empty_to_none, opt_str_view, spec_empty_to_none, valid_name, BuildError,
    BuildErrorView, SvdError, SvdErrorView, ValidateLevel,
};
use vstd::prelude::*;

verus! {

/// Describes a single entry in the enumeration.
#[derive(Clone, Debug)]
pub struct EnumeratedValue {
    /// String describing the semantics of the value. Can be displayed instead
    /// of the value.
    pub name: String,
    /// Extended string describing the value.
    pub description: Option<String>,
    /// The constant this entry stands for.
    pub value: Option<u64>,
    /// Whether this entry stands for all values not listed explicitly.
    pub is_default: Option<bool>,
}

/// Abstract value of an [`EnumeratedValue`].
pub ghost struct EnumeratedValueView {
    pub name: Seq<char>,
    pub description: Option<Seq<char>>,
    pub value: Option<u64>,
    pub is_default: Option<bool>,
}

impl View for EnumeratedValue {
    type V = EnumeratedValueView;

    open spec fn view(&self) -> EnumeratedValueView {
        EnumeratedValueView {
            name: self.name@,
            description: opt_str_view(self.description),
            value: self.value,
            is_default: self.is_default,
        }
    }
}

impl PartialEq for EnumeratedValue {
    /// Two entries are equal when all four properties agree.
    fn eq(&self, other: &Self) -> (r: bool) {
        let name_eq = crate::text::str_eq(self.name.as_str(), other.name.as_str());
        let desc_eq = match (&self.description, &other.description) {
            (None, None) => true,
            (Some(a), Some(b)) => crate::text::str_eq(a.as_str(), b.as_str()),
            _ => false,
        };
        let val_eq = match (self.value, other.value) {
            (None, None) => true,
            (Some(a), Some(b)) => a == b,
            _ => false,
        };
        let def_eq = match (self.is_default, other.is_default) {
            (None, None) => true,
            (Some(a), Some(b)) => a == b,
            _ => false,
        };
        name_eq && desc_eq && val_eq && def_eq
    }
}

impl vstd::std_specs::cmp::PartialEqSpecImpl for EnumeratedValue {
    open spec fn obeys_eq_spec() -> bool {
        true
    }

    open spec fn eq_spec(&self, other: &Self) -> bool {
        self@ == other@
    }
}

/// Half-open range of representable values, used by the range check.
#[derive(Clone, Copy, Debug, PartialEq, Eq, Structural)]
pub struct ValueRange {
    /// First value of the range.
    pub start: u64,
    /// First value past the range.
    pub end: u64,
}

/// Errors for [`EnumeratedValue::validate`].
#[derive(Clone, Copy, Debug, PartialEq, Eq, Structural)]
pub enum Error {
    /// Neither `value` nor `is_default` was specified.
    AbsentValue,
    /// Both `value` and `is_default` were passed; only rejected in strict mode.
    ValueAndDefault(Option<u64>),
    /// The value does not fit the field's range.
    OutOfRange(u64, ValueRange),
}

/// Builder for [`EnumeratedValue`].
#[derive(Clone, Debug)]
pub struct EnumeratedValueBuilder {
    pub name: Option<String>,
    pub description: Option<String>,
    pub value: Option<u64>,
    pub is_default: Option<bool>,
}

/// Abstract value of an [`EnumeratedValueBuilder`].
pub ghost struct EnumeratedValueBuilderView {
    pub name: Option<Seq<char>>,
    pub description: Option<Seq<char>>,
    pub value: Option<u64>,
    pub is_default: Option<bool>,
}

impl View for EnumeratedValueBuilder {
    type V = EnumeratedValueBuilderView;

    open spec fn view(&self) -> EnumeratedValueBuilderView {
        EnumeratedValueBuilderView {
            name: opt_str_view(self.name),
            description: opt_str_view(self.description),
            value: self.value,
            is_default: self.is_default,
        }
    }
}

impl Default for EnumeratedValueBuilder {
    /// The empty builder: nothing set.
    fn default() -> (r: Self)
        ensures
            r@.name is None,
            r@.description is None,
            r@.value is None,
            r@.is_default is None,
    {
        EnumeratedValueBuilder { name: None, description: None, value: None, is_default: None }
    }
}

impl From<EnumeratedValue> for EnumeratedValueBuilder {
    /// A builder preloaded with every field of an existing value, for
    /// round-trip editing.
    fn from(e: EnumeratedValue) -> (r: Self) {
        EnumeratedValueBuilder {
            name: Some(e.name),
            description: e.description,
            value: e.value,
            is_default: e.is_default,
        }
    }
}

impl vstd::std_specs::convert::FromSpecImpl<EnumeratedValue> for EnumeratedValueBuilder {
    open spec fn obeys_from_spec() -> bool {
        true
    }

    open spec fn from_spec(e: EnumeratedValue) -> Self {
        EnumeratedValueBuilder {
            name: Some(e.name),
            description: e.description,
            value: e.value,
            is_default: e.is_default,
        }
    }
}

/// What `validate` decides for an entity with abstract value `ev` at level
/// `lvl`: the checks run in a fixed order, and the first failed check names
/// the error.
pub open spec fn spec_validate(ev: EnumeratedValueView, lvl: ValidateLevel) -> Result<
    (),
    SvdErrorView,
> {
    if lvl == ValidateLevel::Disabled {
        Ok(())
    } else if lvl == ValidateLevel::Strict && !valid_name(ev.name) {
        Err(
            SvdErrorView::Name(
                crate::NameErrorView::Invalid(ev.name, "name"@),
            ),
        )
    } else if ev.value is None && ev.is_default != Some(true) {
        Err(SvdErrorView::EnumeratedValue(Error::AbsentValue))
    } else if ev.value is Some && ev.is_default == Some(true) && lvl == ValidateLevel::Strict {
        Err(SvdErrorView::EnumeratedValue(Error::ValueAndDefault(ev.value)))
    } else {
        Ok(())
    }
}

/// What `build` yields from a builder with abstract value `b`: the assembled
/// entity after normalization, or the first error.
pub open spec fn spec_build(b: EnumeratedValueBuilderView, lvl: ValidateLevel) -> Result<
    EnumeratedValueView,
    SvdErrorView,
> {
    match b.name {
        None => Err(SvdErrorView::Build(BuildErrorView::Uninitialized("name"@))),
        Some(n) => {
            let ev = EnumeratedValueView {
                name: n,
                description: spec_empty_to_none(b.description),
                value: b.value,
                is_default: b.is_default,
            };
            match spec_validate(ev, lvl) {
                Ok(_) => Ok(ev),
                Err(e) => Err(e),
            }
        },
    }
}

/// The overlay `modify_from` applies: every field the builder set explicitly
/// wins; every unset field keeps the entity's present value.
pub open spec fn spec_overlay(
    ev: EnumeratedValueView,
    b: EnumeratedValueBuilderView,
) -> EnumeratedValueView {
    EnumeratedValueView {
        name: match b.name {
            Some(n) => n,
            None => ev.name,
        },
        description: match b.description {
            Some(_) => spec_empty_to_none(b.description),
            None => ev.description,
        },
        value: match b.value {
            Some(_) => b.value,
            None => ev.value,
        },
        is_default: match b.is_default {
            Some(_) => b.is_default,
            None => ev.is_default,
        },
    }
}

impl EnumeratedValueBuilder {
    /// Set the name of the enumerated value.
    pub fn name(self, value: String) -> (r: Self)
        ensures
            r@ == (EnumeratedValueBuilderView { name: Some(value@), ..self@ }),
    {
        EnumeratedValueBuilder { name: Some(value), ..self }
    }

    /// Set the description of the enumerated value.
    pub fn description(self, value: Option<String>) -> (r: Self)
        ensures
            r@ == (EnumeratedValueBuilderView { description: opt_str_view(value), ..self@ }),
    {
        EnumeratedValueBuilder { description: value, ..self }
    }

    /// Set the value of the enumerated value.
    pub fn value(self, value: Option<u64>) -> (r: Self)
        ensures
            r@ == (EnumeratedValueBuilderView { value: value, ..self@ }),
    {
        EnumeratedValueBuilder { value, ..self }
    }

    /// Set if the enumerated value is defaulted for non-explicit values.
    pub fn is_default(self, value: Option<bool>) -> (r: Self)
        ensures
            r@ == (EnumeratedValueBuilderView { is_default: value, ..self@ }),
    {
        EnumeratedValueBuilder { is_default: value, ..self }
    }

    /// Validate and build an [`EnumeratedValue`].
    pub fn build(self, lvl: ValidateLevel) -> (r: Result<EnumeratedValue, SvdError>)
        ensures
            match r {
                Ok(ev) => spec_build(self@, lvl) == Ok::<EnumeratedValueView, SvdErrorView>(ev@),
                Err(e) => spec_build(self@, lvl) == Err::<EnumeratedValueView, SvdErrorView>(e@),
            },
    {
        let name = match self.name {
            Some(n) => n,
            None => {
                return Err(
                    SvdError::Build(BuildError::Uninitialized(String::from_str("name"))),
                );
            },
        };
        let ev = EnumeratedValue {
            name,
            description: empty_to_none(self.description),
            value: self.value,
            is_default: self.is_default,
        };
        match ev.validate(lvl) {
            Ok(_) => Ok(ev),
            Err(e) => Err(e),
        }
    }
}

impl EnumeratedValue {
    /// Enumerated value is defaulted for non-explicit values.
    pub fn is_default(&self) -> (r: bool)
        ensures
            r == (self.is_default == Some(true)),
    {
        matches!(self.is_default, Some(true))
    }

    /// Make a builder for [`EnumeratedValue`].
    pub fn builder() -> (r: EnumeratedValueBuilder)
        ensures
            r@.name is None,
            r@.description is None,
            r@.value is None,
            r@.is_default is None,
    {
        EnumeratedValueBuilder::default()
    }

    /// Modify an existing [`EnumeratedValue`] based on a
    /// [builder](EnumeratedValueBuilder). The overlay is applied first and
    /// stays applied even when re-validation then fails.
    pub fn modify_from(&mut self, builder: EnumeratedValueBuilder, lvl: ValidateLevel) -> (r:
        Result<(), SvdError>)
        ensures
            final(self)@ == spec_overlay(old(self)@, builder@),
            match r {
                Ok(_) => spec_validate(final(self)@, lvl) == Ok::<(), SvdErrorView>(()),
                Err(e) => spec_validate(final(self)@, lvl) == Err::<(), SvdErrorView>(e@),
            },
    {
        if let Some(name) = builder.name {
            self.name = name;
        }
        if builder.description.is_some() {
            self.description = empty_to_none(builder.description);
        }
        if builder.value.is_some() {
            self.value = builder.value;
        }
        if builder.is_default.is_some() {
            self.is_default = builder.is_default;
        }
        self.validate(lvl)
    }

    /// Validate the [`EnumeratedValue`] at the given strictness tier.
    pub fn validate(&self, lvl: ValidateLevel) -> (r: Result<(), SvdError>)
        ensures
            match r {
                Ok(_) => spec_validate(self@, lvl) == Ok::<(), SvdErrorView>(()),
                Err(e) => spec_validate(self@, lvl) == Err::<(), SvdErrorView>(e@),
            },
    {
        if !lvl.is_disabled() {
            if lvl.is_strict() {
                if let Err(e) = check_name(self.name.as_str(), "name") {
                    return Err(e);
                }
            }
            match (self.value.is_some(), self.is_default()) {
                (false, false) => Err(SvdError::EnumeratedValue(Error::AbsentValue)),
                (true, true) => {
                    if lvl.is_strict() {
                        Err(SvdError::EnumeratedValue(Error::ValueAndDefault(self.value)))
                    } else {
                        Ok(())
                    }
                },
                _ => Ok(()),
            }
        } else {
            Ok(())
        }
    }

    /// Check that the value, when explicit, lies inside `range`.
    pub fn check_range(&self, range: &ValueRange) -> (r: Result<(), SvdError>)
        ensures
            r is Ok <==> match self.value {
                Some(v) => range.start <= v < range.end,
                None => true,
            },
            r matches Err(e) ==> self.value matches Some(v) && e@ == SvdErrorView::EnumeratedValue(
                Error::OutOfRange(v, *range),
            ),
    {
        match self.value {
            Some(v) => {
                if range.start <= v && v < range.end {
                    Ok(())
                } else {
                    Err(SvdError::EnumeratedValue(Error::OutOfRange(v, *range)))
                }
            },
            None => Ok(()),
        }
    }

    /// The entry's name.
    pub fn name(&self) -> (r: &str)
        ensures
            r@ == self.name@,
    {
        self.name.as_str()
    }

    /// The entry's description, when present.
    pub fn description(&self) -> (r: Option<&str>)
        ensures
            opt_str_view(self.description) == match r {
                Some(s) => Some(s@),
                None => None::<Seq<char>>,
            },
    {
        match &self.description {
            Some(s) => Some(s.as_str()),
            None => None,
        }
    }
}

/// Validation monotonicity: the checks of a weaker tier are a subset of the
/// stricter tier's, so an entity that validates at `Strict` also validates at
/// `Weak` and at `Disabled`, and one that validates at `Weak` also validates
/// at `Disabled`.
pub proof fn lemma_validate_monotonic(ev: EnumeratedValueView)
    ensures
        spec_validate(ev, ValidateLevel::Strict) is Ok ==> spec_validate(ev, ValidateLevel::Weak)
            is Ok,
        spec_validate(ev, ValidateLevel::Weak) is Ok ==> spec_validate(
            ev,
            ValidateLevel::Disabled,
        ) is Ok,
{
}

} // verus!
