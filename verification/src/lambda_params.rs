//! What a dynamic action is called with.
//!
//! Values of the interpreter are of type `V` while they can change, and of type `F` once they are
//! frozen.
use vstd::prelude::*;
use vstd::string::*;

verus! {

/// What a dynamic action is called with.
#[derive(Debug)]
pub struct DynamicLambdaParams<V> {
    pub attributes: Option<V>,
    pub plugins: Option<V>,
    pub lambda: V,
    pub arg: Option<V>,
}

/// A frozen value for plugins, and whether it is one.
#[derive(Debug)]
pub enum FrozenPlugins<F> {
    Plugins(F),
    /// A value of another kind.
    Other(F),
}

/// What a dynamic action is called with, once nothing of it can change.
#[derive(Debug)]
pub struct FrozenDynamicLambdaParams<F> {
    pub attributes: Option<F>,
    pub plugins: Option<FrozenPlugins<F>>,
    pub lambda: F,
    pub arg: Option<F>,
}

impl<F> FrozenDynamicLambdaParams<F> {
    pub fn attributes(&self) -> (r: Option<&F>)
        ensures
            r == (match self.attributes {
                Some(a) => Some(&a),
                None => None,
            }),
    {
        match &self.attributes {
            Some(a) => Some(a),
            None => None,
        }
    }

    pub fn plugins(&self) -> (r: Result<Option<&F>, &'static str>)
        ensures
            match self.plugins {
                None => r == Ok::<Option<&F>, &'static str>(None),
                Some(FrozenPlugins::Plugins(p)) => r == Ok::<Option<&F>, &'static str>(Some(&p)),
                Some(FrozenPlugins::Other(_)) => r matches Err(m) && m@
                    == "plugins must be AnalysisPlugins"@,
            },
    {
        match &self.plugins {
            None => Ok(None),
            Some(FrozenPlugins::Plugins(p)) => Ok(Some(p)),
            Some(FrozenPlugins::Other(_)) => Err("plugins must be AnalysisPlugins"),
        }
    }

    pub fn lambda(&self) -> (r: &F)
        ensures
            *r == self.lambda,
    {
        &self.lambda
    }

    pub fn arg(&self) -> (r: Option<&F>)
        ensures
            r == (match self.arg {
                Some(a) => Some(&a),
                None => None,
            }),
    {
        match &self.arg {
            Some(a) => Some(a),
            None => None,
        }
    }
}

/// What freezing a value came to, for each value that is there.
pub struct FreezeOutcomes<F> {
    pub attributes: Option<Result<F, String>>,
    pub plugins: Option<Result<FrozenPlugins<F>, String>>,
    pub lambda: Result<F, String>,
    pub arg: Option<Result<F, String>>,
}

/// What was frozen is what is there.
pub open spec fn freezes<V, F>(params: DynamicLambdaParams<V>, outcomes: FreezeOutcomes<F>) -> bool {
    &&& outcomes.attributes is Some <==> params.attributes is Some
    &&& outcomes.plugins is Some <==> params.plugins is Some
    &&& outcomes.arg is Some <==> params.arg is Some
}

/// A value that may be missing, where it was frozen without error.
pub open spec fn frozen<T>(outcome: Option<Result<T, String>>) -> Option<T> {
    match outcome {
        Some(Ok(v)) => Some(v),
        _ => None,
    }
}

/// The first error, if there is one.
pub open spec fn freeze_error<F>(outcomes: FreezeOutcomes<F>) -> Option<String> {
    match (outcomes.attributes, outcomes.plugins, outcomes.lambda, outcomes.arg) {
        (Some(Err(e)), _, _, _) => Some(e),
        (_, Some(Err(e)), _, _) => Some(e),
        (_, _, Err(e), _) => Some(e),
        (_, _, _, Some(Err(e))) => Some(e),
        _ => None,
    }
}

fn frozen_or_error<T>(outcome: Option<Result<T, String>>) -> (r: Result<Option<T>, String>)
    ensures
        match outcome {
            Some(Err(e)) => r == Err::<Option<T>, String>(e),
            _ => r == Ok::<Option<T>, String>(frozen(outcome)),
        },
{
    match outcome {
        Some(Ok(v)) => Ok(Some(v)),
        Some(Err(e)) => Err(e),
        None => Ok(None),
    }
}

impl<V> DynamicLambdaParams<V> {
    /// All values frozen, in the order of the fields; the first error ends it.
    pub fn freeze<F>(&self, outcomes: FreezeOutcomes<F>) -> (r: Result<
        FrozenDynamicLambdaParams<F>,
        String,
    >)
        requires
            freezes(*self, outcomes),
        ensures
            match freeze_error(outcomes) {
                Some(e) => r == Err::<FrozenDynamicLambdaParams<F>, String>(e),
                None => r == Ok::<FrozenDynamicLambdaParams<F>, String>(
                    FrozenDynamicLambdaParams {
                        attributes: frozen(outcomes.attributes),
                        plugins: frozen(outcomes.plugins),
                        lambda: outcomes.lambda->Ok_0,
                        arg: frozen(outcomes.arg),
                    },
                ),
            },
    {
        let attributes = match frozen_or_error(outcomes.attributes) {
            Ok(v) => v,
            Err(e) => {
                return Err(e);
            },
        };
        let plugins = match frozen_or_error(outcomes.plugins) {
            Ok(v) => v,
            Err(e) => {
                return Err(e);
            },
        };
        let lambda = match outcomes.lambda {
            Ok(v) => v,
            Err(e) => {
                return Err(e);
            },
        };
        let arg = match frozen_or_error(outcomes.arg) {
            Ok(v) => v,
            Err(e) => {
                return Err(e);
            },
        };
        Ok(FrozenDynamicLambdaParams { attributes, plugins, lambda, arg })
    }
}

/// Parameters freeze if each of them does, and the first that does not says why.
pub proof fn law_all_parameters_have_to_freeze<F>(outcomes: FreezeOutcomes<F>, reason: String)
    ensures
        outcomes.attributes == Some(Err::<F, String>(reason)) ==> freeze_error(outcomes) == Some(
            reason,
        ),
        freeze_error(outcomes) is None ==> outcomes.lambda is Ok && (outcomes.attributes is Some
            ==> outcomes.attributes->0 is Ok) && (outcomes.plugins is Some
            ==> outcomes.plugins->0 is Ok) && (outcomes.arg is Some ==> outcomes.arg->0 is Ok),
        outcomes.lambda is Ok && (outcomes.attributes is Some ==> outcomes.attributes->0 is Ok) && (
        outcomes.plugins is Some ==> outcomes.plugins->0 is Ok) && (outcomes.arg is Some
            ==> outcomes.arg->0 is Ok) ==> freeze_error(outcomes) is None,
        freeze_error(outcomes) == Some(reason) ==> outcomes.attributes == Some(
            Err::<F, String>(reason),
        ) || outcomes.plugins == Some(Err::<FrozenPlugins<F>, String>(reason)) || outcomes.lambda
            == Err::<F, String>(reason) || outcomes.arg == Some(Err::<F, String>(reason)),
{
}

/// A parameter that was given is kept as it froze, and one that was not stays away.
pub proof fn law_every_parameter_is_kept<T>(v: T)
    ensures
        frozen(Some(Ok::<T, String>(v))) == Some(v),
        frozen(None::<Result<T, String>>) is None,
{
}

} // verus!
