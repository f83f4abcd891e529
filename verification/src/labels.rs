//! Labels of targets and the configurations they are built in.
use vstd::prelude::*;
use vstd::string::*;

use crate::text;
use crate::text::str_eq;

verus! {

/// The label of a target: its cell, the path of its package, and its name.
#[derive(Debug)]
pub struct TargetLabel {
    pub cell: String,
    pub package: String,
    pub name: String,
}

/// The mathematical form of a target label.
pub struct TargetLabelView {
    pub cell: Seq<char>,
    pub package: Seq<char>,
    pub name: Seq<char>,
}

impl View for TargetLabel {
    type V = TargetLabelView;

    open spec fn view(&self) -> TargetLabelView {
        TargetLabelView { cell: self.cell@, package: self.package@, name: self.name@ }
    }
}

/// How a target label is written.
pub open spec fn target_label_text(l: TargetLabelView) -> Seq<char> {
    l.cell + "//"@ + l.package + ":"@ + l.name
}

impl TargetLabel {
    pub fn same_as(&self, other: &Self) -> (r: bool)
        ensures
            r == (self@ == other@),
    {
        str_eq(self.cell.as_str(), other.cell.as_str()) && str_eq(
            self.package.as_str(),
            other.package.as_str(),
        ) && str_eq(self.name.as_str(), other.name.as_str())
    }

    /// Another handle on the same label.
    pub fn dupe(&self) -> (r: Self)
        ensures
            r == *self,
    {
        TargetLabel {
            cell: self.cell.clone(),
            package: self.package.clone(),
            name: self.name.clone(),
        }
    }

    /// The label as text.
    pub fn display(&self) -> (r: String)
        ensures
            r@ == target_label_text(self@),
    {
        text::concat5(
            self.cell.as_str(),
            "//",
            self.package.as_str(),
            ":",
            self.name.as_str(),
        )
    }
}

/// A configuration in which a target is built.
#[derive(Debug)]
pub enum ConfigurationData {
    /// The configuration of a platform, by its full name.
    Bound(String),
    /// No platform; used to evaluate configuration rules.
    Unbound,
    /// The execution configuration before it is known.
    UnboundExec,
    /// A configuration that nothing may depend on.
    Unspecified,
}

/// The mathematical form of a configuration.
pub enum ConfigurationView {
    Bound(Seq<char>),
    Unbound,
    UnboundExec,
    Unspecified,
}

impl View for ConfigurationData {
    type V = ConfigurationView;

    open spec fn view(&self) -> ConfigurationView {
        match *self {
            ConfigurationData::Bound(name) => ConfigurationView::Bound(name@),
            ConfigurationData::Unbound => ConfigurationView::Unbound,
            ConfigurationData::UnboundExec => ConfigurationView::UnboundExec,
            ConfigurationData::Unspecified => ConfigurationView::Unspecified,
        }
    }
}

/// How a configuration is written.
pub open spec fn configuration_text(c: ConfigurationView) -> Seq<char> {
    match c {
        ConfigurationView::Bound(name) => name,
        ConfigurationView::Unbound => "<unbound>"@,
        ConfigurationView::UnboundExec => "<unbound_exec>"@,
        ConfigurationView::Unspecified => "<unspecified>"@,
    }
}

impl ConfigurationData {
    pub fn same_as(&self, other: &Self) -> (r: bool)
        ensures
            r == (self@ == other@),
    {
        match (self, other) {
            (ConfigurationData::Bound(a), ConfigurationData::Bound(b)) => str_eq(
                a.as_str(),
                b.as_str(),
            ),
            (ConfigurationData::Unbound, ConfigurationData::Unbound) => true,
            (ConfigurationData::UnboundExec, ConfigurationData::UnboundExec) => true,
            (ConfigurationData::Unspecified, ConfigurationData::Unspecified) => true,
            _ => false,
        }
    }

    /// Another handle on the same configuration.
    pub fn dupe(&self) -> (r: Self)
        ensures
            r == *self,
    {
        match self {
            ConfigurationData::Bound(name) => ConfigurationData::Bound(name.clone()),
            ConfigurationData::Unbound => ConfigurationData::Unbound,
            ConfigurationData::UnboundExec => ConfigurationData::UnboundExec,
            ConfigurationData::Unspecified => ConfigurationData::Unspecified,
        }
    }

    /// Whether this is the configuration without a platform.
    pub fn is_unbound(&self) -> (r: bool)
        ensures
            r == (self is Unbound),
    {
        matches!(self, ConfigurationData::Unbound)
    }

    /// The configuration as text.
    pub fn display(&self) -> (r: String)
        ensures
            r@ == configuration_text(self@),
    {
        match self {
            ConfigurationData::Bound(name) => name.clone(),
            ConfigurationData::Unbound => "<unbound>".to_owned(),
            ConfigurationData::UnboundExec => "<unbound_exec>".to_owned(),
            ConfigurationData::Unspecified => "<unspecified>".to_owned(),
        }
    }
}

/// A target in a configuration; one that is used as a toolchain has the execution configuration
/// of its user too.
#[derive(Debug)]
pub struct ConfiguredTargetLabel {
    pub target: TargetLabel,
    pub cfg: ConfigurationData,
    pub exec_cfg: Option<ConfigurationData>,
}

/// The mathematical form of a configured target label.
pub struct ConfiguredLabelView {
    pub target: TargetLabelView,
    pub cfg: ConfigurationView,
    pub exec_cfg: Option<ConfigurationView>,
}

/// The mathematical form of an optional configuration.
pub open spec fn opt_cfg_view(c: Option<ConfigurationData>) -> Option<ConfigurationView> {
    match c {
        Some(c) => Some(c@),
        None => None,
    }
}

impl View for ConfiguredTargetLabel {
    type V = ConfiguredLabelView;

    open spec fn view(&self) -> ConfiguredLabelView {
        ConfiguredLabelView {
            target: self.target@,
            cfg: self.cfg@,
            exec_cfg: opt_cfg_view(self.exec_cfg),
        }
    }
}

/// How a configured target label is written.
pub open spec fn configured_label_text(l: ConfiguredLabelView) -> Seq<char> {
    target_label_text(l.target) + " ("@ + configuration_text(l.cfg) + ")"@
}

fn dupe_opt_cfg(c: &Option<ConfigurationData>) -> (r: Option<ConfigurationData>)
    ensures
        r == *c,
{
    match c {
        Some(c) => Some(c.dupe()),
        None => None,
    }
}

impl ConfiguredTargetLabel {
    pub fn same_as(&self, other: &Self) -> (r: bool)
        ensures
            r == (self@ == other@),
    {
        let same_exec = match (&self.exec_cfg, &other.exec_cfg) {
            (Some(a), Some(b)) => a.same_as(b),
            (None, None) => true,
            _ => false,
        };
        same_exec && self.target.same_as(&other.target) && self.cfg.same_as(&other.cfg)
    }

    /// Another handle on the same label.
    pub fn dupe(&self) -> (r: Self)
        ensures
            r == *self,
    {
        ConfiguredTargetLabel {
            target: self.target.dupe(),
            cfg: self.cfg.dupe(),
            exec_cfg: dupe_opt_cfg(&self.exec_cfg),
        }
    }

    /// The label as text.
    pub fn display(&self) -> (r: String)
        ensures
            r@ == configured_label_text(self@),
    {
        let target = self.target.display();
        let cfg = self.cfg.display();
        text::concat4(target.as_str(), " (", cfg.as_str(), ")")
    }

    /// The target in the given configuration.
    pub fn configure(target: &TargetLabel, cfg: ConfigurationData) -> (r: Self)
        ensures
            r == (ConfiguredTargetLabel { target: *target, cfg, exec_cfg: None }),
    {
        ConfiguredTargetLabel { target: target.dupe(), cfg, exec_cfg: None }
    }

    /// This label with the given execution configuration.
    pub fn with_exec_cfg(&self, exec_cfg: ConfigurationData) -> (r: Self)
        ensures
            r == (ConfiguredTargetLabel {
                target: self.target,
                cfg: self.cfg,
                exec_cfg: Some(exec_cfg),
            }),
    {
        ConfiguredTargetLabel {
            target: self.target.dupe(),
            cfg: self.cfg.dupe(),
            exec_cfg: Some(exec_cfg),
        }
    }

    /// This label without an execution configuration.
    pub fn without_exec_cfg(&self) -> (r: Self)
        ensures
            r == (ConfiguredTargetLabel {
                target: self.target,
                cfg: self.cfg,
                exec_cfg: None,
            }),
    {
        ConfiguredTargetLabel {
            target: self.target.dupe(),
            cfg: self.cfg.dupe(),
            exec_cfg: None,
        }
    }
}

/// A configured target, and which of its providers is meant: empty for the default ones.
#[derive(Debug)]
pub struct ConfiguredProvidersLabel {
    pub target: ConfiguredTargetLabel,
    pub providers: String,
}

/// The mathematical form of a configured providers label.
pub struct ProvidersLabelView {
    pub target: ConfiguredLabelView,
    pub providers: Seq<char>,
}

impl View for ConfiguredProvidersLabel {
    type V = ProvidersLabelView;

    open spec fn view(&self) -> ProvidersLabelView {
        ProvidersLabelView { target: self.target@, providers: self.providers@ }
    }
}

impl ConfiguredProvidersLabel {
    pub fn same_as(&self, other: &Self) -> (r: bool)
        ensures
            r == (self@ == other@),
    {
        self.target.same_as(&other.target) && str_eq(
            self.providers.as_str(),
            other.providers.as_str(),
        )
    }

    /// Another handle on the same label.
    pub fn dupe(&self) -> (r: Self)
        ensures
            r == *self,
    {
        ConfiguredProvidersLabel {
            target: self.target.dupe(),
            providers: self.providers.clone(),
        }
    }
}

/// The position of the first target label that is `label`.
pub fn position_of_target(labels: &Vec<TargetLabel>, label: &TargetLabel) -> (r: Option<usize>)
    ensures
        match r {
            Some(i) => i < labels@.len() && labels@[i as int]@ == label@ && forall|k: int|
                0 <= k < i ==> (#[trigger] labels@[k])@ != label@,
            None => forall|k: int| 0 <= k < labels@.len() ==> (#[trigger] labels@[k])@ != label@,
        },
{
    let mut i: usize = 0;
    while i < labels.len()
        invariant
            i <= labels@.len(),
            forall|k: int| 0 <= k < i ==> (#[trigger] labels@[k])@ != label@,
        decreases labels@.len() - i,
    {
        if labels[i].same_as(label) {
            return Some(i);
        }
        i = i + 1;
    }
    None
}

/// Labels are the same only where all their parts are.
pub proof fn law_labels_are_told_apart(
    a: TargetLabel,
    b: TargetLabel,
    c: ConfiguredTargetLabel,
    d: ConfiguredTargetLabel,
    e: ConfiguredProvidersLabel,
    f: ConfiguredProvidersLabel,
)
    ensures
        a@ == b@ <==> a.cell@ == b.cell@ && a.package@ == b.package@ && a.name@ == b.name@,
        c@ == d@ <==> c.target@ == d.target@ && c.cfg@ == d.cfg@ && (c.exec_cfg is Some
            <==> d.exec_cfg is Some) && (c.exec_cfg is Some ==> c.exec_cfg->0@ == d.exec_cfg->0@),
        e@ == f@ <==> e.target@ == f.target@ && e.providers@ == f.providers@,
{
}

/// Configurations are the same only where they are of one kind and, if they are bound, have the
/// same name.
pub proof fn law_configurations_are_told_apart(a: ConfigurationData, b: ConfigurationData)
    ensures
        a@ == b@ ==> (a is Bound <==> b is Bound) && (a is Unbound <==> b is Unbound)
            && (a is UnboundExec <==> b is UnboundExec) && (a is Unspecified <==> b is Unspecified),
        a is Bound && b is Bound ==> (a@ == b@ <==> a->Bound_0@ == b->Bound_0@),
{
}

/// A label is shown with all its parts: the cell, the package, the name, and the configuration in
/// brackets.
pub proof fn law_labels_are_shown_whole(l: ConfiguredLabelView)
    ensures
        configured_label_text(l) == l.target.cell + "//"@ + l.target.package + ":"@
            + l.target.name + " ("@ + configuration_text(l.cfg) + ")"@,
        l.cfg is Bound ==> configuration_text(l.cfg) == l.cfg->Bound_0,
{
}

} // verus!
