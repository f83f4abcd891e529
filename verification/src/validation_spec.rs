//! Validations of targets.
use vstd::prelude::*;
use vstd::string::*;

use crate::text;

verus! {

/// Why a validation was refused.
#[derive(Debug)]
pub enum ValidationSpecError {
    EmptyName,
    ValidationResultIsSourceArtifact,
    /// The artifact is not bound, for this reason.
    ValidationResultIsNotBound(String),
}

/// The message of an error.
pub open spec fn validation_error_text(e: ValidationSpecError) -> Seq<char> {
    match e {
        ValidationSpecError::EmptyName => "Name of validation spec should not be empty"@,
        ValidationSpecError::ValidationResultIsSourceArtifact =>
            "Validation result artifact should be a build artifact, not a source one."@,
        ValidationSpecError::ValidationResultIsNotBound(_) =>
            "Validation result artifact should be bound."@,
    }
}

impl ValidationSpecError {
    /// The message shown for the error.
    pub fn message(&self) -> (r: String)
        ensures
            r@ == validation_error_text(*self),
    {
        match self {
            ValidationSpecError::EmptyName =>
                "Name of validation spec should not be empty".to_owned(),
            ValidationSpecError::ValidationResultIsSourceArtifact =>
                "Validation result artifact should be a build artifact, not a source one.".to_owned(),
            ValidationSpecError::ValidationResultIsNotBound(_) =>
                "Validation result artifact should be bound.".to_owned(),
        }
    }
}

/// A string value: what it holds, and how it is shown, which is as a quoted literal.
#[derive(Debug)]
pub struct StarlarkString {
    pub text: String,
    pub repr: String,
}

/// An artifact: how it is shown, and what it is bound to.
#[derive(Debug)]
pub struct ValidationArtifact {
    pub display: String,
    /// Whether it is a source, or why it is not bound.
    pub is_source: Result<bool, String>,
}

/// One validation of a target. It is described by a build artifact, the contents of which say
/// whether it succeeded.
#[derive(Debug)]
pub struct StarlarkValidationSpecGen {
    /// Tells the validations of one target apart.
    pub name: StarlarkString,
    pub validation_result: ValidationArtifact,
}

/// The validation may stand.
pub open spec fn is_valid_spec(s: StarlarkValidationSpecGen) -> bool {
    s.name.text@.len() > 0 && s.validation_result.is_source == Ok::<bool, String>(false)
}

/// Why the validation may not stand: its name counts first.
pub open spec fn spec_error(s: StarlarkValidationSpecGen) -> ValidationSpecError {
    if s.name.text@.len() == 0 {
        ValidationSpecError::EmptyName
    } else {
        match s.validation_result.is_source {
            Err(e) => ValidationSpecError::ValidationResultIsNotBound(e),
            Ok(_) => ValidationSpecError::ValidationResultIsSourceArtifact,
        }
    }
}

/// Checks a validation.
pub fn validate_validation_spec(s: &StarlarkValidationSpecGen) -> (r: Result<
    (),
    ValidationSpecError,
>)
    ensures
        match r {
            Ok(_) => is_valid_spec(*s),
            Err(e) => !is_valid_spec(*s) && e == spec_error(*s),
        },
{
    if s.name.text.as_str().unicode_len() == 0 {
        return Err(ValidationSpecError::EmptyName);
    }
    match &s.validation_result.is_source {
        Err(e) => Err(ValidationSpecError::ValidationResultIsNotBound(e.clone())),
        Ok(true) => Err(ValidationSpecError::ValidationResultIsSourceArtifact),
        Ok(false) => Ok(()),
    }
}

impl StarlarkValidationSpecGen {
    pub fn name(&self) -> (r: &str)
        ensures
            r@ == self.name.text@,
    {
        self.name.text.as_str()
    }

    pub fn validation_result(&self) -> (r: &ValidationArtifact)
        ensures
            *r == self.validation_result,
    {
        &self.validation_result
    }

    /// The validation as it is shown: its name is quoted.
    pub fn display(&self) -> (r: String)
        ensures
            r@ == "ValidationSpec(name="@ + self.name.repr@ + ", validation_result="@
                + self.validation_result.display@ + ")"@,
    {
        text::concat5(
            "ValidationSpec(name=",
            self.name.repr.as_str(),
            ", validation_result=",
            self.validation_result.display.as_str(),
            ")",
        )
    }
}

/// A validation under a name, if it may stand.
pub fn register_validation_spec(
    name: StarlarkString,
    validation_result: ValidationArtifact,
) -> (r: Result<StarlarkValidationSpecGen, ValidationSpecError>)
    ensures
        ({
            let made = StarlarkValidationSpecGen { name, validation_result };
            if is_valid_spec(made) {
                r == Ok::<StarlarkValidationSpecGen, ValidationSpecError>(made)
            } else {
                r == Err::<StarlarkValidationSpecGen, ValidationSpecError>(spec_error(made))
            }
        }),
{
    let result = StarlarkValidationSpecGen { name, validation_result };
    match validate_validation_spec(&result) {
        Ok(_) => Ok(result),
        Err(e) => Err(e),
    }
}

/// A validation has a name and a result that is built: without a name that is what is wrong, and
/// else a result that is a source or not bound at all.
pub proof fn law_what_a_validation_needs(
    s: StarlarkValidationSpecGen,
    reason: String,
)
    ensures
        s.name.text@.len() > 0 && s.validation_result.is_source == Ok::<bool, String>(false)
            <==> is_valid_spec(s),
        s.name.text@.len() == 0 ==> !is_valid_spec(s) && spec_error(s)
            == ValidationSpecError::EmptyName,
        s.name.text@.len() > 0 && s.validation_result.is_source == Ok::<bool, String>(true)
            ==> !is_valid_spec(s) && spec_error(s)
            == ValidationSpecError::ValidationResultIsSourceArtifact,
        s.name.text@.len() > 0 && s.validation_result.is_source == Err::<bool, String>(reason)
            ==> !is_valid_spec(s) && spec_error(s)
            == ValidationSpecError::ValidationResultIsNotBound(reason),
{
}

} // verus!
