//! Platforms as providers.
use std::sync::Arc;
use vstd::prelude::*;
use vstd::string::*;

verus! {

/// What holds of a platform. It is `C` that says it.
#[derive(Debug)]
pub struct PlatformInfoGen<C> {
    pub label: String,
    pub configuration: Arc<C>,
}

/// What holds of a platform.
pub type PlatformInfo<C> = PlatformInfoGen<C>;

/// A configuration in which targets are built.
#[derive(Debug)]
pub enum PlatformConfiguration<C> {
    /// That of a platform.
    Bound { label: String, data: Arc<C> },
    /// A special one, which has no platform; here is why nothing is known of it.
    Special(String),
}

/// The configuration of a platform: that of its label and `data`, unless one of the two has an
/// error.
pub open spec fn configuration_of<C>(
    label: String,
    data: Result<Arc<C>, String>,
    label_error: Option<String>,
) -> Result<PlatformConfiguration<C>, String> {
    match (data, label_error) {
        (Err(e), _) => Err(e),
        (Ok(_), Some(e)) => Err(e),
        (Ok(data), None) => Ok(PlatformConfiguration::Bound { label, data }),
    }
}

/// The platform that has a configuration.
pub open spec fn platform_of<C>(cfg: PlatformConfiguration<C>) -> Result<PlatformInfo<C>, String> {
    match cfg {
        PlatformConfiguration::Bound { label, data } => Ok(
            PlatformInfoGen { label, configuration: data },
        ),
        PlatformConfiguration::Special(e) => Err(e),
    }
}

impl<C> PlatformInfoGen<C> {
    /// The configuration of the platform. `label_error` says what is wrong with its label as that
    /// of a configuration, and `data` what holds of it, if that can be said.
    pub fn to_configuration(
        &self,
        data: Result<Arc<C>, String>,
        label_error: Option<String>,
    ) -> (r: Result<PlatformConfiguration<C>, String>)
        ensures
            r == configuration_of(self.label, data, label_error),
    {
        match (data, label_error) {
            (Err(e), _) => Err(e),
            (Ok(_), Some(e)) => Err(e),
            (Ok(data), None) => Ok(
                PlatformConfiguration::Bound { label: self.label.clone(), data },
            ),
        }
    }
}

impl<C> PlatformInfo<C> {
    /// The platform that has a configuration.
    pub fn from_configuration(cfg: &PlatformConfiguration<C>) -> (r: Result<PlatformInfo<C>, String>)
        ensures
            r == platform_of(*cfg),
    {
        match cfg {
            PlatformConfiguration::Bound { label, data } => Ok(
                PlatformInfoGen { label: label.clone(), configuration: data.clone() },
            ),
            PlatformConfiguration::Special(e) => Err(e.clone()),
        }
    }
}

/// A platform survives being turned into a configuration and back, where that can be done.
pub proof fn law_platform_survives_configuration<C>(
    p: PlatformInfo<C>,
    label_error: Option<String>,
)
    requires
        configuration_of(p.label, Ok(p.configuration), label_error) is Ok,
    ensures
        platform_of(configuration_of(p.label, Ok(p.configuration), label_error)->Ok_0) == Ok::<
            PlatformInfo<C>,
            String,
        >(p),
{
}

/// A platform is a configuration by its label and data, unless either cannot be had; a
/// configuration that is no platform says why.
pub proof fn law_what_a_platform_is<C>(
    label: String,
    data: Arc<C>,
    reason: String,
    other: Option<String>,
)
    ensures
        configuration_of(label, Ok(data), None) == Ok::<PlatformConfiguration<C>, String>(
            PlatformConfiguration::Bound { label, data },
        ),
        configuration_of(label, Ok(data), Some(reason)) == Err::<PlatformConfiguration<C>, String>(
            reason,
        ),
        configuration_of(label, Err::<Arc<C>, String>(reason), other) == Err::<
            PlatformConfiguration<C>,
            String,
        >(reason),
        platform_of(PlatformConfiguration::Bound { label, data }) == Ok::<PlatformInfo<C>, String>(
            PlatformInfoGen { label, configuration: data },
        ),
        platform_of(PlatformConfiguration::<C>::Special(reason)) == Err::<PlatformInfo<C>, String>(
            reason,
        ),
{
}

} // verus!
