//! Anonymous targets: targets that a rule declares while it is analysed.
use std::sync::Arc;
use vstd::prelude::*;
use vstd::string::*;

use crate::action_key::BaseDeferredKey;
use crate::analysis::PromiseArtifactId;
use crate::analysis;
use crate::labels::ConfigurationData;
use crate::labels::TargetLabel;
use crate::labels::TargetLabelView;
use crate::text;

verus! {

/// Why an anonymous target was refused.
#[derive(Debug)]
pub enum AnonTargetsError {
    AssertNoPromisesFailed,
    InvalidNameType { typ: String, value: String },
    NotTargetLabel(String),
    UnknownAttribute(String),
    InternalAttribute(String),
    MissingAttribute(String),
    QueryMacroNotSupported,
}

/// The message of an error.
pub open spec fn anon_error_text(e: AnonTargetsError) -> Seq<char> {
    match e {
        AnonTargetsError::AssertNoPromisesFailed =>
            "Not allowed to call `anon_targets` in this context"@,
        AnonTargetsError::InvalidNameType { typ, value } =>
            "Invalid `name` attribute, must be a label or a string, got `"@ + value@
            + "` of type `"@ + typ@ + "`"@,
        AnonTargetsError::NotTargetLabel(s) =>
            "`name` attribute must be a valid target label, got `"@ + s@ + "`"@,
        AnonTargetsError::UnknownAttribute(s) => "Unknown attribute `"@ + s@ + "`"@,
        AnonTargetsError::InternalAttribute(s) => "Internal attribute `"@ + s@
            + "` not allowed as argument to `anon_targets`"@,
        AnonTargetsError::MissingAttribute(s) => "Missing attribute `"@ + s@ + "`"@,
        AnonTargetsError::QueryMacroNotSupported => "Query macros are not supported"@,
    }
}

impl AnonTargetsError {
    /// The message shown for the error.
    pub fn message(&self) -> (r: String)
        ensures
            r@ == anon_error_text(*self),
    {
        match self {
            AnonTargetsError::AssertNoPromisesFailed =>
                "Not allowed to call `anon_targets` in this context".to_owned(),
            AnonTargetsError::InvalidNameType { typ, value } => text::concat5(
                "Invalid `name` attribute, must be a label or a string, got `",
                value.as_str(),
                "` of type `",
                typ.as_str(),
                "`",
            ),
            AnonTargetsError::NotTargetLabel(s) => text::concat3(
                "`name` attribute must be a valid target label, got `",
                s.as_str(),
                "`",
            ),
            AnonTargetsError::UnknownAttribute(s) => text::concat3(
                "Unknown attribute `",
                s.as_str(),
                "`",
            ),
            AnonTargetsError::InternalAttribute(s) => text::concat3(
                "Internal attribute `",
                s.as_str(),
                "` not allowed as argument to `anon_targets`",
            ),
            AnonTargetsError::MissingAttribute(s) => text::concat3(
                "Missing attribute `",
                s.as_str(),
                "`",
            ),
            AnonTargetsError::QueryMacroNotSupported => "Query macros are not supported".to_owned(),
        }
    }
}

/// Why there is no key for an anonymous target.
#[derive(Debug)]
pub enum AnonKeyError {
    Targets(AnonTargetsError),
    /// A pattern that may be a package or a target.
    AmbiguousPattern(String),
    /// A name that no target may have.
    InvalidTargetName(String),
    /// The value of an attribute does not have its type.
    Coercion { attribute: String, error: String },
    /// The default of an attribute cannot be had by an anonymous target.
    Default(String),
}

/// `c` may stand in the name of a target.
pub open spec fn is_name_char(c: char) -> bool {
    ||| 'a' <= c <= 'z'
    ||| 'A' <= c <= 'Z'
    ||| '0' <= c <= '9'
    ||| c == ','
    ||| c == '.'
    ||| c == '='
    ||| c == '-'
    ||| c == '/'
    ||| c == '~'
    ||| c == '@'
    ||| c == '!'
    ||| c == '+'
    ||| c == '$'
    ||| c == '_'
}

/// A target may have the name `s`.
pub open spec fn is_target_name(s: Seq<char>) -> bool {
    s.len() > 0 && forall|i: int| 0 <= i < s.len() ==> is_name_char(#[trigger] s[i])
}

/// A package may have the path `s`: no part of it is empty, `.` or `..`.
pub open spec fn is_package_path(s: Seq<char>) -> bool {
    s.len() == 0 || {
        let framed = "/"@ + s + "/"@;
        &&& !text::occurs(framed, "//"@)
        &&& !text::occurs(framed, "/./"@)
        &&& !text::occurs(framed, "/../"@)
    }
}

/// The path of a package without one slash at its end.
pub open spec fn package_path(s: Seq<char>) -> Seq<char> {
    if text::has_suffix(s, "/"@) {
        s.subrange(0, s.len() - 1)
    } else {
        s
    }
}

/// The cell that a pattern names, and the rest of it. A cell that is not named is `anon`.
pub open spec fn cell_and_rest(x: Seq<char>) -> (Seq<char>, Seq<char>) {
    match text::split(x, "//"@) {
        Some((alias, rest)) => {
            let name = if text::has_prefix(alias, "@"@) {
                alias.subrange(1, alias.len() as int)
            } else {
                alias
            };
            (
                if name.len() == 0 {
                    "anon"@
                } else {
                    name
                },
                rest,
            )
        },
        None => ("anon"@, x),
    }
}

/// What a string says as the label of a target.
pub enum LabelParse {
    Label(TargetLabelView),
    Ambiguous,
    NotALabel,
}

/// What `x` says as the label of a target.
pub open spec fn label_parse(x: Seq<char>) -> LabelParse {
    let (cell, rest) = cell_and_rest(x);
    match text::split(rest, ":"@) {
        Some((package, name)) => if is_target_name(name) && is_package_path(
            package_path(package),
        ) {
            LabelParse::Label(TargetLabelView { cell, package: package_path(package), name })
        } else {
            LabelParse::NotALabel
        },
        None => if rest.len() == 0 || rest == "..."@ || text::has_suffix(rest, "/..."@) {
            LabelParse::NotALabel
        } else {
            LabelParse::Ambiguous
        },
    }
}

fn name_char(c: char) -> (r: bool)
    ensures
        r == is_name_char(c),
{
    ('a' <= c && c <= 'z') || ('A' <= c && c <= 'Z') || ('0' <= c && c <= '9') || c == ',' || c
        == '.' || c == '=' || c == '-' || c == '/' || c == '~' || c == '@' || c == '!' || c == '+'
        || c == '$' || c == '_'
}

/// Whether a target may have a name.
fn valid_target_name(s: &str) -> (r: bool)
    ensures
        r == is_target_name(s@),
{
    let n: usize = s.unicode_len();
    let mut i: usize = 0;
    while i < n
        invariant
            n == s@.len(),
            i <= n,
            forall|k: int| 0 <= k < i ==> is_name_char(#[trigger] s@[k]),
        decreases n - i,
    {
        if !name_char(s.get_char(i)) {
            return false;
        }
        i = i + 1;
    }
    n > 0
}

/// Whether a package may have a path.
fn valid_package_path(s: &str) -> (r: bool)
    ensures
        r == is_package_path(s@),
{
    if s.unicode_len() == 0 {
        return true;
    }
    let framed = text::concat3("/", s, "/");
    !text::contains(framed.as_str(), "//") && !text::contains(framed.as_str(), "/./")
        && !text::contains(framed.as_str(), "/../")
}

/// A value given for the attribute `name`.
#[derive(Debug)]
pub enum NameValue {
    /// A label; only the target counts.
    Label(TargetLabel),
    Str(String),
    /// Anything else, by its type and how it is shown.
    Other { typ: String, value: String },
}

/// A name that was given for a target.
pub open spec fn name_outcome(v: NameValue) -> Result<TargetLabelView, AnonKeyError> {
    match v {
        NameValue::Label(l) => Ok(l@),
        NameValue::Str(x) => match label_parse(x@) {
            LabelParse::Label(l) => Ok(l),
            LabelParse::Ambiguous => Err(AnonKeyError::AmbiguousPattern(x)),
            LabelParse::NotALabel => Err(
                AnonKeyError::Targets(AnonTargetsError::NotTargetLabel(x)),
            ),
        },
        NameValue::Other { typ, value } => Err(
            AnonKeyError::Targets(AnonTargetsError::InvalidNameType { typ, value }),
        ),
    }
}

/// The outcome of a computation is the one stated, the label taken by its view.
pub open spec fn label_matches(
    r: Result<TargetLabel, AnonKeyError>,
    spec_r: Result<TargetLabelView, AnonKeyError>,
) -> bool {
    match (r, spec_r) {
        (Ok(l), Ok(v)) => l@ == v,
        (Err(e), Err(f)) => e == f,
        _ => false,
    }
}

/// The label made up for a target of a rule.
pub open spec fn made_up_name(rule_name: String) -> Result<TargetLabelView, AnonKeyError> {
    if is_target_name(rule_name@) {
        Ok(TargetLabelView { cell: "anon"@, package: Seq::empty(), name: rule_name@ })
    } else {
        Err(AnonKeyError::InvalidTargetName(rule_name))
    }
}

/// A value given for an attribute: what it says as a name, and what becomes of it as a value of
/// the attribute's type.
pub struct AnonArgument<A> {
    pub key: String,
    pub as_name: NameValue,
    pub coerced: Result<A, String>,
}

/// An attribute of a rule, with its default.
pub struct AttributeSpec<A> {
    pub name: String,
    pub default: Option<Result<A, String>>,
}

/// Some attribute is called `name`.
pub open spec fn declares<A>(specs: Seq<AttributeSpec<A>>, name: Seq<char>) -> bool {
    exists|i: int| 0 <= i < specs.len() && (#[trigger] specs[i]).name@ == name
}

/// The attributes and their values, in order; each name stands there once.
pub open spec fn attr_pairs<A>(attrs: Seq<(String, A)>) -> Seq<(Seq<char>, A)> {
    Seq::new(attrs.len(), |i: int| (attrs[i].0@, attrs[i].1))
}

/// Where `name` stands in `attrs`, or -1.
pub open spec fn attr_position<A>(attrs: Seq<(Seq<char>, A)>, name: Seq<char>) -> int
    decreases attrs.len(),
{
    if attrs.len() == 0 {
        -1
    } else if attrs.last().0 == name {
        attrs.len() - 1
    } else {
        attr_position(attrs.drop_last(), name)
    }
}

/// `attrs` with a value for `name`: in place of the one that it has, or at the end.
pub open spec fn with_attr<A>(attrs: Seq<(Seq<char>, A)>, name: Seq<char>, value: A) -> Seq<
    (Seq<char>, A),
> {
    let at = attr_position(attrs, name);
    if at < 0 {
        attrs.push((name, value))
    } else {
        attrs.update(at, (name, value))
    }
}

/// The mathematical form of a label that may be missing.
pub open spec fn opt_label_view(l: Option<TargetLabel>) -> Option<TargetLabelView> {
    match l {
        Some(l) => Some(l@),
        None => None,
    }
}

/// What is known of a target once some arguments have been read: its name and attributes.
pub struct ReadArguments<A> {
    pub name: Option<TargetLabelView>,
    pub attrs: Seq<(Seq<char>, A)>,
}

/// What the arguments say.
pub open spec fn read_arguments<A>(
    arguments: Seq<AnonArgument<A>>,
    specs: Seq<AttributeSpec<A>>,
    internal: Seq<Seq<char>>,
) -> Result<ReadArguments<A>, AnonKeyError>
    decreases arguments.len(),
{
    if arguments.len() == 0 {
        Ok(ReadArguments { name: None, attrs: Seq::empty() })
    } else {
        let a = arguments.last();
        match read_arguments(arguments.drop_last(), specs, internal) {
            Err(e) => Err(e),
            Ok(before) => if a.key@ == "name"@ {
                match name_outcome(a.as_name) {
                    Ok(l) => Ok(ReadArguments { name: Some(l), attrs: before.attrs }),
                    Err(e) => Err(e),
                }
            } else if internal.contains(a.key@) {
                Err(AnonKeyError::Targets(AnonTargetsError::InternalAttribute(a.key)))
            } else if !declares(specs, a.key@) {
                Err(AnonKeyError::Targets(AnonTargetsError::UnknownAttribute(a.key)))
            } else {
                match a.coerced {
                    Ok(v) => Ok(
                        ReadArguments {
                            name: before.name,
                            attrs: with_attr(before.attrs, a.key@, v),
                        },
                    ),
                    Err(error) => Err(AnonKeyError::Coercion { attribute: a.key, error }),
                }
            },
        }
    }
}

/// `attrs` with the defaults of the attributes that have no value.
pub open spec fn with_defaults<A>(
    attrs: Seq<(Seq<char>, A)>,
    specs: Seq<AttributeSpec<A>>,
    internal: Seq<Seq<char>>,
) -> Result<Seq<(Seq<char>, A)>, AnonKeyError>
    decreases specs.len(),
{
    if specs.len() == 0 {
        Ok(attrs)
    } else {
        let s = specs.last();
        match with_defaults(attrs, specs.drop_last(), internal) {
            Err(e) => Err(e),
            Ok(before) => if attr_position(before, s.name@) >= 0 || internal.contains(s.name@) {
                Ok(before)
            } else {
                match s.default {
                    Some(Ok(v)) => Ok(with_attr(before, s.name@, v)),
                    Some(Err(e)) => Err(AnonKeyError::Default(e)),
                    None => Err(AnonKeyError::Targets(AnonTargetsError::MissingAttribute(s.name))),
                }
            },
        }
    }
}

/// The mathematical form of an anonymous target.
pub struct AnonTargetView<A> {
    pub rule_type: Seq<char>,
    pub name: TargetLabelView,
    pub attrs: Seq<(Seq<char>, A)>,
    pub exec_cfg: ConfigurationData,
}

/// The target that the arguments ask for.
pub open spec fn anon_target<A>(
    exec_cfg: ConfigurationData,
    rule_name: String,
    specs: Seq<AttributeSpec<A>>,
    internal: Seq<Seq<char>>,
    arguments: Seq<AnonArgument<A>>,
) -> Result<AnonTargetView<A>, AnonKeyError> {
    match read_arguments(arguments, specs, internal) {
        Err(e) => Err(e),
        Ok(read) => match with_defaults(read.attrs, specs, internal) {
            Err(e) => Err(e),
            Ok(attrs) => {
                let name = match read.name {
                    Some(l) => Ok(l),
                    None => made_up_name(rule_name),
                };
                match name {
                    Err(e) => Err(e),
                    Ok(name) => Ok(
                        AnonTargetView { rule_type: rule_name@, name, attrs, exec_cfg },
                    ),
                }
            },
        },
    }
}

/// An anonymous target.
pub struct AnonTarget<A> {
    pub rule_type: String,
    pub name: TargetLabel,
    pub attrs: Vec<(String, A)>,
    pub exec_cfg: ConfigurationData,
}

/// Known by all that makes an anonymous target.
pub struct AnonTargetKey<A>(pub AnonTarget<A>);

impl<A> View for AnonTargetKey<A> {
    type V = AnonTargetView<A>;

    open spec fn view(&self) -> AnonTargetView<A> {
        AnonTargetView {
            rule_type: self.0.rule_type@,
            name: self.0.name@,
            attrs: attr_pairs(self.0.attrs@),
            exec_cfg: self.0.exec_cfg,
        }
    }
}

proof fn lemma_attr_position<A>(attrs: Seq<(Seq<char>, A)>, name: Seq<char>)
    ensures
        attr_position(attrs, name) < 0 ==> forall|k: int|
            0 <= k < attrs.len() ==> (#[trigger] attrs[k]).0 != name,
        attr_position(attrs, name) >= 0 ==> 0 <= attr_position(attrs, name) < attrs.len() && attrs[
            attr_position(attrs, name)
        ].0 == name,
        forall|k: int|
            attr_position(attrs, name) < k < attrs.len() ==> 0 <= k ==> (
            #[trigger] attrs[k]).0 != name,
    decreases attrs.len(),
{
    if attrs.len() > 0 && attrs.last().0 != name {
        lemma_attr_position(attrs.drop_last(), name);
        assert forall|k: int| 0 <= k < attrs.len() && attr_position(attrs, name) < k implies (
        #[trigger] attrs[k]).0 != name by {
            if k < attrs.len() - 1 {
                assert(attrs.drop_last()[k] == attrs[k]);
            }
        }
    }
}

/// Where a name stands among attributes.
fn position_of_attr<A>(attrs: &Vec<(String, A)>, name: &str) -> (r: Option<usize>)
    ensures
        match r {
            Some(i) => attr_position(attr_pairs(attrs@), name@) == i && i < attrs@.len(),
            None => attr_position(attr_pairs(attrs@), name@) < 0,
        },
{
    let ghost all = attr_pairs(attrs@);
    let mut i: usize = attrs.len();
    while i > 0
        invariant
            i <= attrs@.len(),
            all == attr_pairs(attrs@),
            forall|k: int| i <= k < attrs@.len() ==> (#[trigger] all[k]).0 != name@,
        decreases i,
    {
        if text::str_eq(attrs[i - 1].0.as_str(), name) {
            proof {
                lemma_attr_position(all, name@);
                assert(all[i - 1].0 == name@);
            }
            return Some(i - 1);
        }
        assert(all[i - 1].0 != name@);
        i = i - 1;
    }
    proof {
        lemma_attr_position(all, name@);
    }
    None
}

/// Gives an attribute a value.
fn set_attr<A>(attrs: &mut Vec<(String, A)>, name: String, value: A)
    ensures
        attr_pairs(final(attrs)@) == with_attr(attr_pairs(old(attrs)@), name@, value),
{
    let ghost before = attr_pairs(attrs@);
    match position_of_attr(attrs, name.as_str()) {
        Some(i) => {
            attrs.set(i, (name, value));
            assert(attr_pairs(attrs@) =~= before.update(i as int, (name@, value)));
        },
        None => {
            attrs.push((name, value));
            assert(attr_pairs(attrs@) =~= before.push((name@, value)));
        },
    }
}

/// Whether a rule has an attribute.
fn has_attribute<A>(specs: &Vec<AttributeSpec<A>>, name: &str) -> (r: bool)
    ensures
        r == declares(specs@, name@),
{
    let mut i: usize = 0;
    while i < specs.len()
        invariant
            i <= specs@.len(),
            forall|k: int| 0 <= k < i ==> (#[trigger] specs@[k]).name@ != name@,
        decreases specs@.len() - i,
    {
        if text::str_eq(specs[i].name.as_str(), name) {
            return true;
        }
        i = i + 1;
    }
    false
}

proof fn lemma_read_error_stays<A>(
    arguments: Seq<AnonArgument<A>>,
    specs: Seq<AttributeSpec<A>>,
    internal: Seq<Seq<char>>,
    n: int,
)
    requires
        0 <= n <= arguments.len(),
        read_arguments(arguments.take(n), specs, internal) is Err,
    ensures
        read_arguments(arguments, specs, internal) == read_arguments(
            arguments.take(n),
            specs,
            internal,
        ),
    decreases arguments.len(),
{
    if n == arguments.len() {
        assert(arguments.take(n) =~= arguments);
    } else {
        assert(arguments.drop_last().take(n) =~= arguments.take(n));
        lemma_read_error_stays(arguments.drop_last(), specs, internal, n);
    }
}

proof fn lemma_default_error_stays<A>(
    attrs: Seq<(Seq<char>, A)>,
    specs: Seq<AttributeSpec<A>>,
    internal: Seq<Seq<char>>,
    n: int,
)
    requires
        0 <= n <= specs.len(),
        with_defaults(attrs, specs.take(n), internal) is Err,
    ensures
        with_defaults(attrs, specs, internal) == with_defaults(attrs, specs.take(n), internal),
    decreases specs.len(),
{
    if n == specs.len() {
        assert(specs.take(n) =~= specs);
    } else {
        assert(specs.drop_last().take(n) =~= specs.take(n));
        lemma_default_error_stays(attrs, specs.drop_last(), internal, n);
    }
}

impl<A> AnonTargetKey<A> {
    /// The label that a string names. It does not matter whether there is such a target, only
    /// that the string can be read as the label of one.
    pub fn parse_target_label(x: &String) -> (r: Result<TargetLabel, AnonKeyError>)
        ensures
            label_matches(r, name_outcome(NameValue::Str(*x))),
    {
        let s = x.as_str();
        let mut cell: &str = "anon";
        let mut rest: &str = s;
        match text::split_once(s, "//") {
            Some((alias, after)) => {
                let name = match text::strip_prefix(alias, "@") {
                    Some(n) => n,
                    None => alias,
                };
                proof {
                    reveal_strlit("@");
                }
                if name.unicode_len() > 0 {
                    cell = name;
                }
                rest = after;
            },
            None => {},
        }
        assert(cell@ == cell_and_rest(x@).0);
        assert(rest@ == cell_and_rest(x@).1);
        match text::split_once(rest, ":") {
            Some((package, name)) => {
                let path = match text::strip_suffix(package, "/") {
                    Some(p) => p,
                    None => package,
                };
                proof {
                    reveal_strlit("/");
                }
                if valid_target_name(name) && valid_package_path(path) {
                    Ok(
                        TargetLabel {
                            cell: cell.to_owned(),
                            package: path.to_owned(),
                            name: name.to_owned(),
                        },
                    )
                } else {
                    Err(AnonKeyError::Targets(AnonTargetsError::NotTargetLabel(x.clone())))
                }
            },
            None => if rest.unicode_len() == 0 || text::str_eq(rest, "...") || text::ends_with(
                rest,
                "/...",
            ) {
                Err(AnonKeyError::Targets(AnonTargetsError::NotTargetLabel(x.clone())))
            } else {
                Err(AnonKeyError::AmbiguousPattern(x.clone()))
            },
        }
    }

    /// A label made up from the name of a rule.
    pub fn create_name(rule_name: &String) -> (r: Result<TargetLabel, AnonKeyError>)
        ensures
            label_matches(r, made_up_name(*rule_name)),
    {
        if valid_target_name(rule_name.as_str()) {
            let package = String::new();
            assert(package@ =~= Seq::empty());
            Ok(TargetLabel { cell: "anon".to_owned(), package, name: rule_name.clone() })
        } else {
            Err(AnonKeyError::InvalidTargetName(rule_name.clone()))
        }
    }

    /// The label that a value of the attribute `name` stands for.
    pub fn coerce_name(x: NameValue) -> (r: Result<TargetLabel, AnonKeyError>)
        ensures
            label_matches(r, name_outcome(x)),
    {
        match x {
            NameValue::Label(l) => Ok(l),
            NameValue::Str(s) => Self::parse_target_label(&s),
            NameValue::Other { typ, value } => Err(
                AnonKeyError::Targets(AnonTargetsError::InvalidNameType { typ, value }),
            ),
        }
    }

    /// The key of the target that a rule is asked for.
    pub fn new(
        exec_cfg: ConfigurationData,
        rule_name: &String,
        specs: Vec<AttributeSpec<A>>,
        internal: &Vec<String>,
        arguments: Vec<AnonArgument<A>>,
    ) -> (r: Result<Self, AnonKeyError>)
        ensures
            match (
                r,
                anon_target(exec_cfg, *rule_name, specs@, text::views(internal@), arguments@),
            ) {
                (Ok(key), Ok(v)) => key@ == v,
                (Err(e), Err(f)) => e == f,
                _ => false,
            },
    {
        let ghost all = arguments@;
        let ghost hidden = text::views(internal@);
        let ghost all_specs = specs@;
        let mut name: Option<TargetLabel> = None;
        let mut attrs: Vec<(String, A)> = Vec::new();
        proof {
            assert(all.take(0) =~= Seq::empty());
            assert(attr_pairs(attrs@) =~= Seq::empty());
        }
        for argument in it: arguments
            invariant
                it.seq() == all,
                all == arguments@,
                hidden == text::views(internal@),
                all_specs == specs@,
                read_arguments(all.take(it.index() as int), specs@, hidden) == Ok::<
                    ReadArguments<A>,
                    AnonKeyError,
                >(
                    ReadArguments {
                        name: opt_label_view(name),
                        attrs: attr_pairs(attrs@),
                    },
                ),
        {
            proof {
                let next = all.take(it.index() + 1);
                assert(next.drop_last() =~= all.take(it.index() as int));
                assert(next.last() == argument);
                if read_arguments(next, specs@, hidden) is Err {
                    lemma_read_error_stays(all, specs@, hidden, it.index() + 1);
                }
            }
            if text::str_eq(argument.key.as_str(), "name") {
                match Self::coerce_name(argument.as_name) {
                    Ok(l) => {
                        name = Some(l);
                    },
                    Err(e) => {
                        return Err(e);
                    },
                }
            } else if text::contains_str(internal, argument.key.as_str()) {
                return Err(
                    AnonKeyError::Targets(AnonTargetsError::InternalAttribute(argument.key)),
                );
            } else if !has_attribute(&specs, argument.key.as_str()) {
                return Err(
                    AnonKeyError::Targets(AnonTargetsError::UnknownAttribute(argument.key)),
                );
            } else {
                match argument.coerced {
                    Ok(v) => set_attr(&mut attrs, argument.key, v),
                    Err(error) => {
                        return Err(AnonKeyError::Coercion { attribute: argument.key, error });
                    },
                }
            }
        }
        assert(all.take(all.len() as int) =~= all);
        let ghost read = attr_pairs(attrs@);
        let ghost read_name = opt_label_view(name);
        proof {
            assert(all_specs.take(0) =~= Seq::empty());
        }
        for attribute in it: specs
            invariant
                it.seq() == all_specs,
                all_specs == specs@,
                all == arguments@,
                hidden == text::views(internal@),
                read_arguments(all, all_specs, hidden) == Ok::<ReadArguments<A>, AnonKeyError>(
                    ReadArguments { name: read_name, attrs: read },
                ),
                with_defaults(read, all_specs.take(it.index() as int), hidden) == Ok::<
                    Seq<(Seq<char>, A)>,
                    AnonKeyError,
                >(attr_pairs(attrs@)),
        {
            proof {
                let next = all_specs.take(it.index() + 1);
                assert(next.drop_last() =~= all_specs.take(it.index() as int));
                assert(next.last() == attribute);
                if with_defaults(read, next, hidden) is Err {
                    lemma_default_error_stays(read, all_specs, hidden, it.index() + 1);
                }
            }
            if position_of_attr(&attrs, attribute.name.as_str()).is_none() && !text::contains_str(
                internal,
                attribute.name.as_str(),
            ) {
                match attribute.default {
                    Some(Ok(v)) => set_attr(&mut attrs, attribute.name, v),
                    Some(Err(e)) => {
                        return Err(AnonKeyError::Default(e));
                    },
                    None => {
                        return Err(
                            AnonKeyError::Targets(AnonTargetsError::MissingAttribute(attribute.name)),
                        );
                    },
                }
            }
        }
        assert(all_specs.take(all_specs.len() as int) =~= all_specs);
        let name = match name {
            Some(l) => l,
            None => match Self::create_name(rule_name) {
                Ok(l) => l,
                Err(e) => {
                    return Err(e);
                },
            },
        };
        Ok(AnonTargetKey(AnonTarget { rule_type: rule_name.clone(), name, attrs, exec_cfg }))
    }
}

impl AnonKeyError {
    /// What was being done when the error came up, where that is said.
    pub fn context(&self) -> (r: Option<String>)
        ensures
            match (*self, r) {
                (AnonKeyError::Coercion { attribute, .. }, Some(s)) => s@
                    == "Error coercing attribute `"@ + attribute@ + "`"@,
                (AnonKeyError::Coercion { .. }, None) => false,
                (_, s) => s is None,
            },
    {
        match self {
            AnonKeyError::Coercion { attribute, .. } => Some(
                text::concat3("Error coercing attribute `", attribute.as_str(), "`"),
            ),
            _ => None,
        }
    }
}

proof fn lemma_with_attr_keeps<A>(
    attrs: Seq<(Seq<char>, A)>,
    name: Seq<char>,
    value: A,
    other: Seq<char>,
)
    requires
        attr_position(attrs, other) >= 0 || other == name,
    ensures
        attr_position(with_attr(attrs, name, value), other) >= 0,
{
    let after = with_attr(attrs, name, value);
    lemma_attr_position(attrs, name);
    lemma_attr_position(attrs, other);
    lemma_attr_position(after, other);
    if attr_position(after, other) < 0 {
        if other == name {
            let at = attr_position(attrs, name);
            if at < 0 {
                assert(after[attrs.len() as int].0 == name);
            } else {
                assert(after[at].0 == name);
            }
        } else {
            assert(after[attr_position(attrs, other)].0 == other);
        }
    }
}

proof fn lemma_defaults_keep<A>(
    attrs: Seq<(Seq<char>, A)>,
    specs: Seq<AttributeSpec<A>>,
    internal: Seq<Seq<char>>,
    i: int,
)
    requires
        with_defaults(attrs, specs, internal) is Ok,
        0 <= i < specs.len(),
        !internal.contains(specs[i].name@),
    ensures
        attr_position(with_defaults(attrs, specs, internal)->Ok_0, specs[i].name@) >= 0,
    decreases specs.len(),
{
    let rest = specs.drop_last();
    let before = with_defaults(attrs, rest, internal)->Ok_0;
    let s = specs.last();
    if i < specs.len() - 1 {
        lemma_defaults_keep(attrs, rest, internal, i);
        if attr_position(before, s.name@) < 0 && !internal.contains(s.name@) {
            lemma_with_attr_keeps(before, s.name@, s.default->0->Ok_0, specs[i].name@);
        }
    } else if attr_position(before, s.name@) < 0 {
        lemma_with_attr_keeps(before, s.name@, s.default->0->Ok_0, s.name@);
    }
}

/// In a key that was made, every attribute of the rule that is not internal has a value.
pub proof fn law_every_attribute_has_a_value<A>(
    exec_cfg: ConfigurationData,
    rule_name: String,
    specs: Seq<AttributeSpec<A>>,
    internal: Seq<Seq<char>>,
    arguments: Seq<AnonArgument<A>>,
    i: int,
)
    requires
        anon_target(exec_cfg, rule_name, specs, internal, arguments) is Ok,
        0 <= i < specs.len(),
        !internal.contains(specs[i].name@),
    ensures
        attr_position(
            anon_target(exec_cfg, rule_name, specs, internal, arguments)->Ok_0.attrs,
            specs[i].name@,
        ) >= 0,
{
    let read = read_arguments(arguments, specs, internal)->Ok_0;
    lemma_defaults_keep(read.attrs, specs, internal, i);
}

/// Why a promised artifact is not there.
#[derive(Debug)]
pub enum PromiseArtifactResolveError {
    /// The value that a function gave for the artifact, which is not one.
    NotAnArtifact(String),
    /// What failed while a function was evaluated, or while its artifact was looked at.
    Evaluation(String),
    OwnerIsNotAnonTarget(PromiseArtifactId, BaseDeferredKey),
    NotFoundInAnalysis(PromiseArtifactId),
}

/// What a function of a promised artifact gave.
pub enum PromiseOutcome<T> {
    /// A bound artifact.
    Artifact(Arc<T>),
    /// An artifact that is not bound, or a function that failed.
    Failed(String),
    /// Another value, as it is shown.
    NotAnArtifact(String),
}

/// Outcome number `i` is the first that is no artifact.
pub open spec fn first_unfulfilled<T>(outcomes: Seq<PromiseOutcome<T>>, i: int) -> bool {
    &&& 0 <= i < outcomes.len()
    &&& !(outcomes[i] is Artifact)
    &&& forall|k: int| 0 <= k < i ==> (#[trigger] outcomes[k]) is Artifact
}

/// The error of an outcome that is no artifact.
pub open spec fn outcome_error<T>(outcome: PromiseOutcome<T>) -> PromiseArtifactResolveError {
    match outcome {
        PromiseOutcome::Failed(e) => PromiseArtifactResolveError::Evaluation(e),
        PromiseOutcome::NotAnArtifact(repr) => PromiseArtifactResolveError::NotAnArtifact(repr),
        PromiseOutcome::Artifact(_) => arbitrary(),
    }
}

/// The artifacts that a target promised, numbered in order, once its functions were evaluated.
pub fn get_fulfilled_promise_artifacts<T>(
    target: &String,
    outcomes: Vec<PromiseOutcome<T>>,
) -> (r: Result<Vec<(PromiseArtifactId, Arc<T>)>, PromiseArtifactResolveError>)
    ensures
        match r {
            Ok(map) => {
                &&& map@.len() == outcomes@.len()
                &&& forall|i: int|
                    0 <= i < map@.len() ==> {
                        &&& (#[trigger] map@[i]).0 == (PromiseArtifactId {
                            owner: BaseDeferredKey::AnonTarget(*target),
                            id: i as usize,
                        })
                        &&& outcomes@[i] == PromiseOutcome::Artifact(map@[i].1)
                    }
            },
            Err(e) => exists|i: int| #[trigger]
                first_unfulfilled(outcomes@, i) && e == outcome_error(outcomes@[i]),
        },
{
    let ghost all = outcomes@;
    let count: usize = outcomes.len();
    let mut map: Vec<(PromiseArtifactId, Arc<T>)> = Vec::new();
    let mut id: usize = 0;
    for outcome in it: outcomes
        invariant
            it.seq() == all,
            all == outcomes@,
            count == all.len(),
            id == it.index(),
            map@.len() == id,
            forall|i: int|
                0 <= i < map@.len() ==> {
                    &&& (#[trigger] map@[i]).0 == (PromiseArtifactId {
                        owner: BaseDeferredKey::AnonTarget(*target),
                        id: i as usize,
                    })
                    &&& all[i] == PromiseOutcome::Artifact(map@[i].1)
                },
            forall|k: int| 0 <= k < id ==> (#[trigger] all[k]) is Artifact,
    {
        match outcome {
            PromiseOutcome::Artifact(artifact) => {
                map.push(
                    (
                        PromiseArtifactId::new(BaseDeferredKey::AnonTarget(target.clone()), id),
                        artifact,
                    ),
                );
            },
            PromiseOutcome::Failed(e) => {
                assert(first_unfulfilled(all, id as int));
                return Err(PromiseArtifactResolveError::Evaluation(e));
            },
            PromiseOutcome::NotAnArtifact(repr) => {
                assert(first_unfulfilled(all, id as int));
                return Err(PromiseArtifactResolveError::NotAnArtifact(repr));
            },
        }
        id = id + 1;
    }
    Ok(map)
}

/// The anonymous target whose analysis holds a promised artifact.
pub fn promise_owner(promise_id: &PromiseArtifactId) -> (r: Result<
    &String,
    PromiseArtifactResolveError,
>)
    ensures
        match promise_id.owner {
            BaseDeferredKey::AnonTarget(target) => r == Ok::<&String, PromiseArtifactResolveError>(
                &target,
            ),
            _ => r == Err::<&String, PromiseArtifactResolveError>(
                PromiseArtifactResolveError::OwnerIsNotAnonTarget(*promise_id, promise_id.owner),
            ),
        },
{
    match &promise_id.owner {
        BaseDeferredKey::AnonTarget(target) => Ok(target),
        _ => Err(
            PromiseArtifactResolveError::OwnerIsNotAnonTarget(
                promise_id.dupe(),
                promise_id.owner.dupe(),
            ),
        ),
    }
}

/// Entry number `i` is the first for a promised artifact.
pub open spec fn promise_at<T>(
    map: Seq<(PromiseArtifactId, Arc<T>)>,
    id: PromiseArtifactId,
    i: int,
) -> bool {
    &&& 0 <= i < map.len()
    &&& analysis::same_promise(map[i].0, id)
    &&& forall|k: int| 0 <= k < i ==> !analysis::same_promise((#[trigger] map[k]).0, id)
}

/// The artifact that the analysis of its owner holds for a promise.
pub fn get_artifact_from_anon_target_analysis<T>(
    promise_id: &PromiseArtifactId,
    promise_artifact_map: &Vec<(PromiseArtifactId, Arc<T>)>,
) -> (r: Result<Arc<T>, PromiseArtifactResolveError>)
    ensures
        match r {
            Ok(artifact) => exists|i: int| #[trigger]
                promise_at(promise_artifact_map@, *promise_id, i) && artifact
                    == promise_artifact_map@[i].1,
            Err(e) => {
                &&& e == PromiseArtifactResolveError::NotFoundInAnalysis(*promise_id)
                &&& forall|k: int|
                    0 <= k < promise_artifact_map@.len() ==> !analysis::same_promise(
                        (#[trigger] promise_artifact_map@[k]).0,
                        *promise_id,
                    )
            },
        },
{
    let mut i: usize = 0;
    while i < promise_artifact_map.len()
        invariant
            i <= promise_artifact_map@.len(),
            forall|k: int|
                0 <= k < i ==> !analysis::same_promise(
                    (#[trigger] promise_artifact_map@[k]).0,
                    *promise_id,
                ),
        decreases promise_artifact_map@.len() - i,
    {
        if promise_artifact_map[i].0.same_as(promise_id) {
            assert(promise_at(promise_artifact_map@, *promise_id, i as int));
            return Ok(promise_artifact_map[i].1.clone());
        }
        i = i + 1;
    }
    Err(PromiseArtifactResolveError::NotFoundInAnalysis(promise_id.dupe()))
}

/// What the functions of a target gave for its promises is found under their numbers.
pub proof fn law_fulfilled_promise_is_found<T>(
    target: String,
    map: Seq<(PromiseArtifactId, Arc<T>)>,
    i: int,
)
    requires
        map.len() <= usize::MAX,
        forall|k: int|
            0 <= k < map.len() ==> (#[trigger] map[k]).0 == (PromiseArtifactId {
                owner: BaseDeferredKey::AnonTarget(target),
                id: k as usize,
            }),
        0 <= i < map.len(),
    ensures
        promise_at(
            map,
            PromiseArtifactId { owner: BaseDeferredKey::AnonTarget(target), id: i as usize },
            i,
        ),
{
}

/// An artifact that an anonymous target promised: its number and where it was asked for.
#[derive(Debug)]
pub struct PromiseArtifact {
    pub id: PromiseArtifactId,
    pub location: Option<String>,
}

impl PromiseArtifact {
    /// Another handle on the same promise.
    pub fn dupe(&self) -> (r: Self)
        ensures
            r == *self,
    {
        PromiseArtifact {
            id: self.id.dupe(),
            location: match &self.location {
                Some(s) => Some(s.clone()),
                None => None,
            },
        }
    }
}

/// The anonymous targets that an analysis has asked for. Promises are known by numbers.
pub struct AnonTargetsRegistry<K, E> {
    /// The execution platform of the parent, which all of them have.
    pub execution_platform: E,
    pub promises: Vec<(u64, K)>,
    pub promise_artifacts: Vec<PromiseArtifact>,
}

impl<K, E> AnonTargetsRegistry<K, E> {
    /// Nothing has been asked for.
    pub fn new(execution_platform: E) -> (r: Self)
        ensures
            r.execution_platform == execution_platform,
            r.promises@ == Seq::<(u64, K)>::empty(),
            r.promise_artifacts@ == Seq::<PromiseArtifact>::empty(),
    {
        AnonTargetsRegistry {
            execution_platform,
            promises: Vec::new(),
            promise_artifacts: Vec::new(),
        }
    }

    /// Notes a promise of a target.
    pub fn register_one(&mut self, promise: u64, key: K)
        ensures
            final(self).promises@ == old(self).promises@.push((promise, key)),
            final(self).execution_platform == old(self).execution_platform,
            final(self).promise_artifacts == old(self).promise_artifacts,
    {
        self.promises.push((promise, key));
    }

    /// Notes a promised artifact of a target.
    pub fn register_artifact(&mut self, location: Option<String>, target: &String, id: usize) -> (r:
        PromiseArtifact)
        ensures
            r == (PromiseArtifact {
                id: PromiseArtifactId { owner: BaseDeferredKey::AnonTarget(*target), id },
                location,
            }),
            final(self).promise_artifacts@ == old(self).promise_artifacts@.push(r),
            final(self).execution_platform == old(self).execution_platform,
            final(self).promises == old(self).promises,
    {
        let artifact = PromiseArtifact {
            id: PromiseArtifactId::new(BaseDeferredKey::AnonTarget(target.clone()), id),
            location,
        };
        self.promise_artifacts.push(artifact.dupe());
        artifact
    }

    /// All promised artifacts, in the order in which they were asked for.
    pub fn consumer_analysis_artifacts(&self) -> (r: Vec<PromiseArtifact>)
        ensures
            r@ == self.promise_artifacts@,
    {
        let mut out: Vec<PromiseArtifact> = Vec::new();
        let mut i: usize = 0;
        while i < self.promise_artifacts.len()
            invariant
                i <= self.promise_artifacts@.len(),
                out@ == self.promise_artifacts@.take(i as int),
            decreases self.promise_artifacts@.len() - i,
        {
            out.push(self.promise_artifacts[i].dupe());
            assert(self.promise_artifacts@.take(i + 1) =~= self.promise_artifacts@.take(
                i as int,
            ).push(self.promise_artifacts@[i as int]));
            i = i + 1;
        }
        assert(self.promise_artifacts@.take(i as int) =~= self.promise_artifacts@);
        out
    }

    /// Takes the promises out, so that new ones can be collected. There may be none.
    pub fn take_promises(&mut self) -> (r: Option<Vec<(u64, K)>>)
        ensures
            final(self).promises@ == Seq::<(u64, K)>::empty(),
            final(self).execution_platform == old(self).execution_platform,
            final(self).promise_artifacts == old(self).promise_artifacts,
            match r {
                Some(taken) => taken@ == old(self).promises@ && taken@.len() > 0,
                None => old(self).promises@.len() == 0,
            },
    {
        let mut taken: Vec<(u64, K)> = Vec::new();
        std::mem::swap(&mut taken, &mut self.promises);
        if taken.len() == 0 {
            None
        } else {
            Some(taken)
        }
    }

    pub fn assert_no_promises(&self) -> (r: Result<(), AnonTargetsError>)
        ensures
            r == (if self.promises@.len() == 0 {
                Ok::<(), AnonTargetsError>(())
            } else {
                Err(AnonTargetsError::AssertNoPromisesFailed)
            }),
    {
        if self.promises.len() == 0 {
            Ok(())
        } else {
            Err(AnonTargetsError::AssertNoPromisesFailed)
        }
    }
}

/// Argument number `i` is the last one for its attribute. The name is no attribute.
pub open spec fn is_last_argument<A>(arguments: Seq<AnonArgument<A>>, i: int) -> bool {
    &&& 0 <= i < arguments.len()
    &&& arguments[i].key@ != "name"@
    &&& forall|j: int| i < j < arguments.len() ==> (#[trigger] arguments[j]).key@ != arguments[i].key@
}

/// Some argument is for the attribute `name`.
pub open spec fn is_given<A>(arguments: Seq<AnonArgument<A>>, name: Seq<char>) -> bool {
    name != "name"@ && exists|i: int|
        0 <= i < arguments.len() && (#[trigger] arguments[i]).key@ == name
}

/// No name stands twice in `attrs`.
pub open spec fn names_once<A>(attrs: Seq<(Seq<char>, A)>) -> bool {
    forall|i: int, j: int|
        0 <= i < j < attrs.len() ==> (#[trigger] attrs[i]).0 != (#[trigger] attrs[j]).0
}

proof fn lemma_with_attr<A>(attrs: Seq<(Seq<char>, A)>, name: Seq<char>, value: A)
    requires
        names_once(attrs),
    ensures
        ({
            let after = with_attr(attrs, name, value);
            &&& names_once(after)
            &&& after.contains((name, value))
            &&& forall|p: (Seq<char>, A)|
                p.0 != name ==> (#[trigger] after.contains(p) <==> attrs.contains(p))
            &&& forall|p: (Seq<char>, A)|
                p.0 == name && #[trigger] after.contains(p) ==> p == (name, value)
        }),
{
    let after = with_attr(attrs, name, value);
    let at = attr_position(attrs, name);
    lemma_attr_position(attrs, name);
    if at < 0 {
        assert(after[attrs.len() as int] == (name, value));
    } else {
        assert(after[at] == (name, value));
    }
    assert forall|p: (Seq<char>, A)| p.0 != name implies (#[trigger] after.contains(p)
        <==> attrs.contains(p)) by {
        if attrs.contains(p) {
            let i = choose|i: int| 0 <= i < attrs.len() && attrs[i] == p;
            assert(after[i] == p);
        }
        if after.contains(p) {
            let i = choose|i: int| 0 <= i < after.len() && after[i] == p;
            assert(attrs[i] == p);
        }
    }
    assert forall|p: (Seq<char>, A)| p.0 == name && #[trigger] after.contains(p) implies p == (
        name,
        value,
    ) by {
        let i = choose|i: int| 0 <= i < after.len() && after[i] == p;
        if at < 0 {
            assert(i < attrs.len() ==> attrs[i].0 != name);
        } else if i != at {
            assert(attrs[i] == p);
            assert(attrs[at].0 == name);
        }
    }
}

proof fn lemma_read_arguments<A>(
    arguments: Seq<AnonArgument<A>>,
    specs: Seq<AttributeSpec<A>>,
    internal: Seq<Seq<char>>,
)
    requires
        read_arguments(arguments, specs, internal) is Ok,
    ensures
        ({
            let attrs = read_arguments(arguments, specs, internal)->Ok_0.attrs;
            &&& names_once(attrs)
            &&& forall|i: int| #[trigger]
                is_last_argument(arguments, i) ==> arguments[i].coerced is Ok && attrs.contains(
                    (arguments[i].key@, arguments[i].coerced->Ok_0),
                )
            &&& forall|p: (Seq<char>, A)| #[trigger]
                attrs.contains(p) ==> is_given(arguments, p.0) && exists|i: int| #[trigger]
                    is_last_argument(arguments, i) && p == (
                        arguments[i].key@,
                        arguments[i].coerced->Ok_0,
                    )
            &&& forall|i: int|
                0 <= i < arguments.len() && (#[trigger] arguments[i]).key@ != "name"@ ==> {
                    &&& !internal.contains(arguments[i].key@)
                    &&& declares(specs, arguments[i].key@)
                    &&& arguments[i].coerced is Ok
                }
        }),
    decreases arguments.len(),
{
    let attrs = read_arguments(arguments, specs, internal)->Ok_0.attrs;
    if arguments.len() > 0 {
        let init = arguments.drop_last();
        let last = arguments.len() - 1;
        let a = arguments.last();
        let before = read_arguments(init, specs, internal)->Ok_0.attrs;
        lemma_read_arguments(init, specs, internal);
        assert(arguments[last] == a);
        if a.key@ != "name"@ {
            lemma_with_attr(before, a.key@, a.coerced->Ok_0);
        }
        assert forall|i: int| #[trigger] is_last_argument(arguments, i) implies arguments[i].coerced
            is Ok && attrs.contains((arguments[i].key@, arguments[i].coerced->Ok_0)) by {
            if i < last {
                assert(init[i] == arguments[i]);
                assert forall|j: int| i < j < init.len() implies (#[trigger] init[j]).key@
                    != init[i].key@ by {
                    assert(init[j] == arguments[j]);
                }
                assert(is_last_argument(init, i));
                assert(arguments[last].key@ != arguments[i].key@);
            }
        }
        assert forall|p: (Seq<char>, A)| #[trigger] attrs.contains(p) implies is_given(
            arguments,
            p.0,
        ) && exists|i: int| #[trigger]
            is_last_argument(arguments, i) && p == (
                arguments[i].key@,
                arguments[i].coerced->Ok_0,
            ) by {
            if a.key@ != "name"@ && p.0 == a.key@ {
                assert(is_last_argument(arguments, last));
            } else {
                assert(before.contains(p));
                let i = choose|i: int| #[trigger]
                    is_last_argument(init, i) && p == (init[i].key@, init[i].coerced->Ok_0);
                assert(init[i] == arguments[i]);
                assert forall|j: int| i < j < arguments.len() implies (
                #[trigger] arguments[j]).key@ != arguments[i].key@ by {
                    if j < last {
                        assert(init[j] == arguments[j]);
                    }
                }
                assert(is_last_argument(arguments, i));
            }
        }
        assert forall|i: int|
            0 <= i < arguments.len() && (#[trigger] arguments[i]).key@ != "name"@ implies {
            &&& !internal.contains(arguments[i].key@)
            &&& declares(specs, arguments[i].key@)
            &&& arguments[i].coerced is Ok
        } by {
            if i < last {
                assert(init[i] == arguments[i]);
            }
        }
    }
}

/// Attribute number `i` of a rule is the first of its name, and is not internal.
pub open spec fn is_first_spec<A>(
    specs: Seq<AttributeSpec<A>>,
    internal: Seq<Seq<char>>,
    i: int,
) -> bool {
    &&& 0 <= i < specs.len()
    &&& !internal.contains(specs[i].name@)
    &&& forall|j: int| 0 <= j < i ==> (#[trigger] specs[j]).name@ != specs[i].name@
}

/// A value stands in `attrs` for `name`.
pub open spec fn has_name<A>(attrs: Seq<(Seq<char>, A)>, name: Seq<char>) -> bool {
    exists|i: int| 0 <= i < attrs.len() && (#[trigger] attrs[i]).0 == name
}

proof fn lemma_with_defaults<A>(
    attrs: Seq<(Seq<char>, A)>,
    specs: Seq<AttributeSpec<A>>,
    internal: Seq<Seq<char>>,
)
    requires
        names_once(attrs),
        with_defaults(attrs, specs, internal) is Ok,
    ensures
        ({
            let after = with_defaults(attrs, specs, internal)->Ok_0;
            &&& names_once(after)
            &&& forall|p: (Seq<char>, A)|
                has_name(attrs, p.0) ==> (#[trigger] after.contains(p) <==> attrs.contains(p))
            &&& forall|i: int| #[trigger]
                is_first_spec(specs, internal, i) && !has_name(attrs, specs[i].name@)
                    ==> specs[i].default is Some && specs[i].default->0 is Ok && after.contains(
                    (specs[i].name@, specs[i].default->0->Ok_0),
                )
            &&& forall|p: (Seq<char>, A)| #[trigger]
                after.contains(p) ==> attrs.contains(p) || exists|i: int| #[trigger]
                    is_first_spec(specs, internal, i) && p.0 == specs[i].name@
                        && specs[i].default == Some(Ok::<A, String>(p.1))
        }),
    decreases specs.len(),
{
    let after = with_defaults(attrs, specs, internal)->Ok_0;
    if specs.len() > 0 {
        let init = specs.drop_last();
        let last = specs.len() - 1;
        let s = specs.last();
        let before = with_defaults(attrs, init, internal)->Ok_0;
        lemma_with_defaults(attrs, init, internal);
        assert(specs[last] == s);
        lemma_attr_position(before, s.name@);
        let fresh = attr_position(before, s.name@) < 0 && !internal.contains(s.name@);
        if fresh {
            lemma_with_attr(before, s.name@, s.default->0->Ok_0);
        }
        assert forall|i: int| is_first_spec(specs, internal, i) && i < last implies #[trigger]
            is_first_spec(init, internal, i) by {
            assert(init[i] == specs[i]);
            assert forall|j: int| 0 <= j < i implies (#[trigger] init[j]).name@ != init[i].name@ by {
                assert(init[j] == specs[j]);
            }
        }
        assert forall|i: int| is_first_spec(init, internal, i) implies #[trigger] is_first_spec(
            specs,
            internal,
            i,
        ) by {
            assert(init[i] == specs[i]);
            assert forall|j: int| 0 <= j < i implies (#[trigger] specs[j]).name@
                != specs[i].name@ by {
                assert(init[j] == specs[j]);
            }
        }
        assert forall|p: (Seq<char>, A)| has_name(attrs, p.0) implies (#[trigger] after.contains(p)
            <==> attrs.contains(p)) by {
            if fresh && p.0 == s.name@ {
                let i = choose|i: int| 0 <= i < attrs.len() && (#[trigger] attrs[i]).0 == p.0;
                assert(attrs.contains(attrs[i]));
                assert(before.contains(attrs[i]));
                let k = choose|k: int| 0 <= k < before.len() && before[k] == attrs[i];
                assert(before[k].0 == s.name@);
            }
            assert(before.contains(p) <==> attrs.contains(p));
        }
        assert forall|i: int| #[trigger]
            is_first_spec(specs, internal, i) && !has_name(attrs, specs[i].name@) implies specs[i].default
            is Some && specs[i].default->0 is Ok && after.contains(
            (specs[i].name@, specs[i].default->0->Ok_0),
        ) by {
            let p = (specs[i].name@, specs[i].default->0->Ok_0);
            if i < last {
                assert(is_first_spec(init, internal, i));
                assert(init[i] == specs[i]);
                assert(before.contains(p));
                if fresh && s.name@ == p.0 {
                    let k = choose|k: int| 0 <= k < before.len() && before[k] == p;
                    assert(before[k].0 == s.name@);
                }
            } else if !fresh {
                let k = attr_position(before, s.name@);
                assert(before.contains(before[k]));
                if attrs.contains(before[k]) {
                    let m = choose|m: int| 0 <= m < attrs.len() && attrs[m] == before[k];
                    assert(attrs[m].0 == s.name@);
                } else {
                    let j = choose|j: int| #[trigger]
                        is_first_spec(init, internal, j) && before[k].0 == init[j].name@
                            && init[j].default == Some(Ok::<A, String>(before[k].1));
                    assert(specs[j] == init[j]);
                }
                assert(false);
            }
        }
        assert forall|p: (Seq<char>, A)| #[trigger] after.contains(p) implies attrs.contains(p)
            || exists|i: int| #[trigger]
            is_first_spec(specs, internal, i) && p.0 == specs[i].name@ && specs[i].default == Some(
                Ok::<A, String>(p.1),
            ) by {
            if fresh && p.0 == s.name@ {
                assert forall|j: int| 0 <= j < last implies (#[trigger] specs[j]).name@
                    != s.name@ by {
                    if specs[j].name@ == s.name@ {
                        assert(init[j] == specs[j]);
                        lemma_defaults_keep(attrs, init, internal, j);
                    }
                }
                assert(is_first_spec(specs, internal, last));
            } else {
                assert(before.contains(p));
                if !attrs.contains(p) {
                    let i = choose|i: int| #[trigger]
                        is_first_spec(init, internal, i) && p.0 == init[i].name@
                            && init[i].default == Some(Ok::<A, String>(p.1));
                    assert(init[i] == specs[i]);
                    assert(is_first_spec(specs, internal, i));
                }
            }
        }
    }
}

/// The values in a key that was made. An attribute that was given has the value of the last
/// argument for it; an attribute that was not given has its default; there is nothing else, and
/// no name stands twice.
pub proof fn law_given_values_come_before_defaults<A>(
    exec_cfg: ConfigurationData,
    rule_name: String,
    specs: Seq<AttributeSpec<A>>,
    internal: Seq<Seq<char>>,
    arguments: Seq<AnonArgument<A>>,
    key: AnonTargetKey<A>,
)
    requires
        anon_target(exec_cfg, rule_name, specs, internal, arguments) == Ok::<
            AnonTargetView<A>,
            AnonKeyError,
        >(key@),
    ensures
        forall|p: int, q: int|
            0 <= p < q < key.0.attrs@.len() ==> (#[trigger] key.0.attrs@[p]).0@ != (
            #[trigger] key.0.attrs@[q]).0@,
        forall|i: int| #[trigger]
            is_last_argument(arguments, i) ==> exists|p: int|
                0 <= p < key.0.attrs@.len() && (#[trigger] key.0.attrs@[p]).0@ == arguments[i].key@
                    && arguments[i].coerced == Ok::<A, String>(key.0.attrs@[p].1),
        forall|i: int| #[trigger]
            is_first_spec(specs, internal, i) && !is_given(arguments, specs[i].name@) ==> exists|
                p: int,
            |
                0 <= p < key.0.attrs@.len() && (#[trigger] key.0.attrs@[p]).0@ == specs[i].name@
                    && specs[i].default == Some(Ok::<A, String>(key.0.attrs@[p].1)),
        forall|p: int|
            0 <= p < key.0.attrs@.len() ==> {
                ||| exists|i: int| #[trigger]
                    is_last_argument(arguments, i) && arguments[i].key@ == (
                    #[trigger] key.0.attrs@[p]).0@
                ||| !is_given(arguments, key.0.attrs@[p].0@) && exists|i: int| #[trigger]
                    is_first_spec(specs, internal, i) && specs[i].name@ == key.0.attrs@[p].0@
            },
        forall|i: int|
            0 <= i < arguments.len() && (#[trigger] arguments[i]).key@ != "name"@ ==> {
                &&& !internal.contains(arguments[i].key@)
                &&& declares(specs, arguments[i].key@)
                &&& arguments[i].coerced is Ok
            },
        key.0.rule_type@ == rule_name@,
        key.0.exec_cfg == exec_cfg,
{
    let raw = key.0.attrs@;
    let after = attr_pairs(raw);
    let read = read_arguments(arguments, specs, internal)->Ok_0.attrs;
    lemma_read_arguments(arguments, specs, internal);
    lemma_with_defaults(read, specs, internal);
    assert(after == with_defaults(read, specs, internal)->Ok_0);
    assert forall|p: int, q: int| 0 <= p < q < raw.len() implies (#[trigger] raw[p]).0@ != (
    #[trigger] raw[q]).0@ by {
        assert(after[p].0 != after[q].0);
    }
    assert forall|i: int| #[trigger] is_last_argument(arguments, i) implies exists|p: int|
        0 <= p < raw.len() && (#[trigger] raw[p]).0@ == arguments[i].key@ && arguments[i].coerced
            == Ok::<A, String>(raw[p].1) by {
        let pair = (arguments[i].key@, arguments[i].coerced->Ok_0);
        assert(read.contains(pair));
        let n = choose|n: int| 0 <= n < read.len() && read[n] == pair;
        assert(read[n].0 == pair.0);
        assert(after.contains(pair));
        let p = choose|p: int| 0 <= p < after.len() && after[p] == pair;
        assert(raw[p].0@ == pair.0);
    }
    assert forall|name: Seq<char>| !is_given(arguments, name) implies !(#[trigger] has_name(
        read,
        name,
    )) by {
        if has_name(read, name) {
            let n = choose|n: int| 0 <= n < read.len() && (#[trigger] read[n]).0 == name;
            assert(read.contains(read[n]));
        }
    }
    assert forall|i: int| #[trigger]
        is_first_spec(specs, internal, i) && !is_given(arguments, specs[i].name@) implies exists|
        p: int,
    |
        0 <= p < raw.len() && (#[trigger] raw[p]).0@ == specs[i].name@ && specs[i].default == Some(
            Ok::<A, String>(raw[p].1),
        ) by {
        assert(!has_name(read, specs[i].name@));
        let pair = (specs[i].name@, specs[i].default->0->Ok_0);
        assert(after.contains(pair));
        let p = choose|p: int| 0 <= p < after.len() && after[p] == pair;
        assert(raw[p].0@ == pair.0);
    }
    assert forall|p: int| 0 <= p < raw.len() implies {
        ||| exists|i: int| #[trigger]
            is_last_argument(arguments, i) && arguments[i].key@ == (#[trigger] raw[p]).0@
        ||| !is_given(arguments, raw[p].0@) && exists|i: int| #[trigger]
            is_first_spec(specs, internal, i) && specs[i].name@ == raw[p].0@
    } by {
        let pair = after[p];
        assert(after.contains(pair));
        assert(pair.0 == raw[p].0@);
        if read.contains(pair) {
            let i = choose|i: int| #[trigger]
                is_last_argument(arguments, i) && pair == (
                    arguments[i].key@,
                    arguments[i].coerced->Ok_0,
                );
            assert(arguments[i].key@ == raw[p].0@);
        } else {
            let i = choose|i: int| #[trigger]
                is_first_spec(specs, internal, i) && pair.0 == specs[i].name@ && specs[i].default
                    == Some(Ok::<A, String>(pair.1));
            assert(specs[i].name@ == raw[p].0@);
            if is_given(arguments, pair.0) {
                lemma_last_argument(arguments, pair.0);
                let j = choose|j: int| #[trigger]
                    is_last_argument(arguments, j) && arguments[j].key@ == pair.0;
                assert(arguments[j].key@ == raw[p].0@);
            }
        }
    }
}

proof fn lemma_last_argument<A>(arguments: Seq<AnonArgument<A>>, name: Seq<char>)
    requires
        is_given(arguments, name),
    ensures
        exists|j: int| #[trigger] is_last_argument(arguments, j) && arguments[j].key@ == name,
    decreases arguments.len(),
{
    let last = arguments.len() - 1;
    if arguments[last].key@ == name {
        assert(is_last_argument(arguments, last));
    } else {
        let init = arguments.drop_last();
        let i = choose|i: int| 0 <= i < arguments.len() && (#[trigger] arguments[i]).key@ == name;
        assert(init[i].key@ == name);
        lemma_last_argument(init, name);
        let j = choose|j: int| #[trigger] is_last_argument(init, j) && init[j].key@ == name;
        assert(arguments[j] == init[j]);
        assert forall|k: int| j < k < arguments.len() implies (#[trigger] arguments[k]).key@
            != arguments[j].key@ by {
            if k < last {
                assert(init[k] == arguments[k]);
            }
        }
        assert(is_last_argument(arguments, j));
    }
}

/// An argument that can be taken: a name that is one, or an attribute of the rule with a value.
pub open spec fn is_accepted<A>(
    a: AnonArgument<A>,
    specs: Seq<AttributeSpec<A>>,
    internal: Seq<Seq<char>>,
) -> bool {
    if a.key@ == "name"@ {
        name_outcome(a.as_name) is Ok
    } else {
        !internal.contains(a.key@) && declares(specs, a.key@) && a.coerced is Ok
    }
}

/// The last of the arguments that give a name, if any does, gives the name of the target; without
/// one it is named after its rule.
pub proof fn law_name_of_an_anon_target<A>(
    exec_cfg: ConfigurationData,
    rule_name: String,
    specs: Seq<AttributeSpec<A>>,
    internal: Seq<Seq<char>>,
    arguments: Seq<AnonArgument<A>>,
    key: AnonTargetKey<A>,
    i: int,
)
    requires
        anon_target(exec_cfg, rule_name, specs, internal, arguments) == Ok::<
            AnonTargetView<A>,
            AnonKeyError,
        >(key@),
    ensures
        0 <= i < arguments.len() && arguments[i].key@ == "name"@ && (forall|j: int|
            i < j < arguments.len() ==> (#[trigger] arguments[j]).key@ != "name"@) ==> {
            &&& arguments[i].as_name is Label ==> key.0.name@ == arguments[i].as_name->Label_0@
            &&& arguments[i].as_name is Str ==> label_parse(arguments[i].as_name->Str_0@)
                == LabelParse::Label(key.0.name@)
            &&& !(arguments[i].as_name is Other)
        },
        (forall|j: int| 0 <= j < arguments.len() ==> (#[trigger] arguments[j]).key@ != "name"@)
            ==> {
            &&& key.0.name@.cell == "anon"@
            &&& key.0.name@.package.len() == 0
            &&& key.0.name@.name == rule_name@
        },
{
    lemma_name_read(arguments, specs, internal, i);
}

proof fn lemma_name_read<A>(
    arguments: Seq<AnonArgument<A>>,
    specs: Seq<AttributeSpec<A>>,
    internal: Seq<Seq<char>>,
    i: int,
)
    requires
        read_arguments(arguments, specs, internal) is Ok,
    ensures
        0 <= i < arguments.len() && arguments[i].key@ == "name"@ && (forall|j: int|
            i < j < arguments.len() ==> (#[trigger] arguments[j]).key@ != "name"@)
            ==> name_outcome(arguments[i].as_name) is Ok && read_arguments(
            arguments,
            specs,
            internal,
        )->Ok_0.name == Some(name_outcome(arguments[i].as_name)->Ok_0),
        (forall|j: int| 0 <= j < arguments.len() ==> (#[trigger] arguments[j]).key@ != "name"@)
            ==> read_arguments(arguments, specs, internal)->Ok_0.name is None,
    decreases arguments.len(),
{
    if arguments.len() > 0 {
        let init = arguments.drop_last();
        let last = arguments.len() - 1;
        assert(arguments[last] == arguments.last());
        lemma_name_read(init, specs, internal, i);
        assert(forall|j: int| 0 <= j < last ==> #[trigger] init[j] == arguments[j]);
    }
}

/// A key is made if every argument can be taken, every attribute that is not given has a default, and
/// there is a name.
pub proof fn law_when_a_key_is_made<A>(
    exec_cfg: ConfigurationData,
    rule_name: String,
    specs: Seq<AttributeSpec<A>>,
    internal: Seq<Seq<char>>,
    arguments: Seq<AnonArgument<A>>,
)
    requires
        forall|i: int|
            0 <= i < arguments.len() ==> is_accepted(#[trigger] arguments[i], specs, internal),
        forall|i: int| #[trigger]
            is_first_spec(specs, internal, i) && !is_given(arguments, specs[i].name@)
                ==> specs[i].default is Some && specs[i].default->0 is Ok,
        is_target_name(rule_name@) || exists|i: int|
            0 <= i < arguments.len() && (#[trigger] arguments[i]).key@ == "name"@,
    ensures
        anon_target(exec_cfg, rule_name, specs, internal, arguments) is Ok,
{
    lemma_accepted_are_read(arguments, specs, internal);
    lemma_read_arguments(arguments, specs, internal);
    let read = read_arguments(arguments, specs, internal)->Ok_0;
    assert forall|i: int| #[trigger]
        is_first_spec(specs, internal, i) && !has_name(read.attrs, specs[i].name@) implies
        specs[i].default is Some && specs[i].default->0 is Ok by {
        if is_given(arguments, specs[i].name@) {
            lemma_last_argument(arguments, specs[i].name@);
            let n = choose|n: int| #[trigger]
                is_last_argument(arguments, n) && arguments[n].key@ == specs[i].name@;
            let pair = (arguments[n].key@, arguments[n].coerced->Ok_0);
            assert(read.attrs.contains(pair));
            let k = choose|k: int| 0 <= k < read.attrs.len() && read.attrs[k] == pair;
            assert(read.attrs[k].0 == specs[i].name@);
            assert(has_name(read.attrs, specs[i].name@));
        }
    }
    lemma_defaults_are_taken(read.attrs, specs, internal);
    if !is_target_name(rule_name@) {
        let i = choose|i: int|
            0 <= i < arguments.len() && (#[trigger] arguments[i]).key@ == "name"@;
        lemma_some_name_is_read(arguments, specs, internal, i);
    }
}

proof fn lemma_some_name_is_read<A>(
    arguments: Seq<AnonArgument<A>>,
    specs: Seq<AttributeSpec<A>>,
    internal: Seq<Seq<char>>,
    i: int,
)
    requires
        read_arguments(arguments, specs, internal) is Ok,
        0 <= i < arguments.len(),
        arguments[i].key@ == "name"@,
    ensures
        read_arguments(arguments, specs, internal)->Ok_0.name is Some,
    decreases arguments.len(),
{
    if i < arguments.len() - 1 {
        assert(arguments.drop_last()[i] == arguments[i]);
        lemma_some_name_is_read(arguments.drop_last(), specs, internal, i);
    }
}

proof fn lemma_accepted_are_read<A>(
    arguments: Seq<AnonArgument<A>>,
    specs: Seq<AttributeSpec<A>>,
    internal: Seq<Seq<char>>,
)
    requires
        forall|i: int|
            0 <= i < arguments.len() ==> is_accepted(#[trigger] arguments[i], specs, internal),
    ensures
        read_arguments(arguments, specs, internal) is Ok,
    decreases arguments.len(),
{
    if arguments.len() > 0 {
        let init = arguments.drop_last();
        assert(is_accepted(arguments[arguments.len() - 1], specs, internal));
        assert forall|i: int| 0 <= i < init.len() implies is_accepted(
            #[trigger] init[i],
            specs,
            internal,
        ) by {
            assert(init[i] == arguments[i]);
        }
        lemma_accepted_are_read(init, specs, internal);
    }
}

proof fn lemma_defaults_are_taken<A>(
    attrs: Seq<(Seq<char>, A)>,
    specs: Seq<AttributeSpec<A>>,
    internal: Seq<Seq<char>>,
)
    requires
        names_once(attrs),
        forall|i: int| #[trigger]
            is_first_spec(specs, internal, i) && !has_name(attrs, specs[i].name@)
                ==> specs[i].default is Some && specs[i].default->0 is Ok,
    ensures
        with_defaults(attrs, specs, internal) is Ok,
    decreases specs.len(),
{
    if specs.len() > 0 {
        let init = specs.drop_last();
        let last = specs.len() - 1;
        let s = specs.last();
        assert(specs[last] == s);
        assert forall|i: int| #[trigger]
            is_first_spec(init, internal, i) && !has_name(attrs, init[i].name@) implies
            init[i].default is Some && init[i].default->0 is Ok by {
            assert(init[i] == specs[i]);
            assert forall|j: int| 0 <= j < i implies (#[trigger] specs[j]).name@
                != specs[i].name@ by {
                assert(init[j] == specs[j]);
            }
            assert(is_first_spec(specs, internal, i));
        }
        lemma_defaults_are_taken(attrs, init, internal);
        let before = with_defaults(attrs, init, internal)->Ok_0;
        lemma_with_defaults(attrs, init, internal);
        lemma_attr_position(before, s.name@);
        if attr_position(before, s.name@) < 0 && !internal.contains(s.name@) {
            assert forall|j: int| 0 <= j < last implies (#[trigger] specs[j]).name@
                != specs[last].name@ by {
                assert(init[j] == specs[j]);
                if specs[j].name@ == s.name@ {
                    lemma_defaults_keep(attrs, init, internal, j);
                }
            }
            assert(is_first_spec(specs, internal, last));
            if has_name(attrs, s.name@) {
                let k = choose|k: int| 0 <= k < attrs.len() && (#[trigger] attrs[k]).0 == s.name@;
                assert(attrs.contains(attrs[k]));
                assert(before.contains(attrs[k]));
                let n = choose|n: int| 0 <= n < before.len() && before[n] == attrs[k];
                assert(before[n].0 == s.name@);
            }
        }
    }
}

/// The first argument that cannot be taken is what a key fails for, with what is wrong with it.
pub proof fn law_first_bad_argument_is_reported<A>(
    exec_cfg: ConfigurationData,
    rule_name: String,
    specs: Seq<AttributeSpec<A>>,
    internal: Seq<Seq<char>>,
    arguments: Seq<AnonArgument<A>>,
    i: int,
)
    requires
        0 <= i < arguments.len(),
        forall|k: int| 0 <= k < i ==> is_accepted(#[trigger] arguments[k], specs, internal),
        !is_accepted(arguments[i], specs, internal),
    ensures
        ({
            let a = arguments[i];
            let r = anon_target(exec_cfg, rule_name, specs, internal, arguments);
            &&& r is Err
            &&& a.key@ == "name"@ && a.as_name is Other ==> r->Err_0 == AnonKeyError::Targets(
                AnonTargetsError::InvalidNameType { typ: a.as_name->typ, value: a.as_name->value },
            )
            &&& a.key@ == "name"@ && a.as_name is Str ==> r->Err_0 == AnonKeyError::Targets(
                AnonTargetsError::NotTargetLabel(a.as_name->Str_0),
            ) || r->Err_0 == AnonKeyError::AmbiguousPattern(a.as_name->Str_0)
            &&& a.key@ != "name"@ && internal.contains(a.key@) ==> r->Err_0
                == AnonKeyError::Targets(AnonTargetsError::InternalAttribute(a.key))
            &&& a.key@ != "name"@ && !internal.contains(a.key@) && !declares(specs, a.key@)
                ==> r->Err_0 == AnonKeyError::Targets(AnonTargetsError::UnknownAttribute(a.key))
            &&& a.key@ != "name"@ && !internal.contains(a.key@) && declares(specs, a.key@)
                ==> a.coerced is Err && r->Err_0 == (AnonKeyError::Coercion {
                attribute: a.key,
                error: a.coerced->Err_0,
            })
        }),
{
    let init = arguments.take(i);
    let upto = arguments.take(i + 1);
    assert forall|k: int| 0 <= k < init.len() implies is_accepted(
        #[trigger] init[k],
        specs,
        internal,
    ) by {
        assert(init[k] == arguments[k]);
    }
    lemma_accepted_are_read(init, specs, internal);
    assert(upto.drop_last() =~= init);
    assert(upto.last() == arguments[i]);
    lemma_read_error_stays(arguments, specs, internal, i + 1);
}

/// The characters that names are made of.
pub proof fn law_characters_of_names(c: char)
    ensures
        'a' <= c <= 'z' || 'A' <= c <= 'Z' || '0' <= c <= '9' ==> is_name_char(c),
        !('a' <= c <= 'z' || 'A' <= c <= 'Z' || '0' <= c <= '9') ==> (is_name_char(c) <==> seq![
            ',',
            '.',
            '=',
            '-',
            '/',
            '~',
            '@',
            '!',
            '+',
            '$',
            '_',
        ].contains(c)),
{
    let marks = seq![',', '.', '=', '-', '/', '~', '@', '!', '+', '$', '_'];
    assert(marks[0] == ',' && marks[1] == '.' && marks[2] == '=' && marks[3] == '-' && marks[4]
        == '/' && marks[5] == '~' && marks[6] == '@' && marks[7] == '!' && marks[8] == '+'
        && marks[9] == '$' && marks[10] == '_');
}

/// A name is made of such characters, one at least.
pub proof fn law_what_a_name_is(s: Seq<char>, c: char)
    ensures
        !is_target_name(Seq::empty()),
        is_target_name(seq![c]) <==> is_name_char(c),
        s.len() > 0 ==> (is_target_name(s.push(c)) <==> is_target_name(s) && is_name_char(c)),
{
    let t = s.push(c);
    if s.len() > 0 {
        if is_target_name(t) {
            assert forall|i: int| 0 <= i < s.len() implies is_name_char(#[trigger] s[i]) by {
                assert(t[i] == s[i]);
            }
            assert(t[s.len() as int] == c);
        }
    }
    if is_target_name(seq![c]) {
        assert(seq![c][0] == c);
    }
}

/// A label is the cell, the package and the name of a target; the cell may be marked, and is `anon`
/// where none is named.
pub proof fn law_parts_of_a_label(cell: Seq<char>, package: Seq<char>, name: Seq<char>)
    requires
        forall|i: int| 0 <= i < cell.len() ==> #[trigger] cell[i] != '/',
        cell.len() > 0 ==> cell[0] != '@',
        is_package_path(package),
        forall|i: int| 0 <= i < package.len() ==> #[trigger] package[i] != ':',
        is_target_name(name),
    ensures
        ({
            let label = LabelParse::Label(
                TargetLabelView {
                    cell: if cell.len() == 0 {
                        "anon"@
                    } else {
                        cell
                    },
                    package,
                    name,
                },
            );
            &&& label_parse(cell + seq!['/', '/'] + package + seq![':'] + name) == label
            &&& label_parse(seq!['@'] + cell + seq!['/', '/'] + package + seq![':'] + name) == label
        }),
{
    reveal_strlit("@");
    assert("@"@ =~= seq!['@']);
    let rest = package + seq![':'] + name;
    lemma_name_is_split_off(package, name);
    lemma_package_path_stays(package);
    let marked = seq!['@'] + cell;
    lemma_cell_is_split_off(cell, rest);
    lemma_cell_is_split_off(marked, rest);
    assert(cell + seq!['/', '/'] + package + seq![':'] + name =~= cell + seq!['/', '/'] + rest);
    assert(marked + seq!['/', '/'] + package + seq![':'] + name =~= marked + seq!['/', '/'] + rest);
    assert(!text::has_prefix(cell, "@"@)) by {
        if text::has_prefix(cell, "@"@) {
            assert(cell.subrange(0, 1)[0] == cell[0]);
        }
    }
    text::law_beginnings_and_ends(marked, "@"@, cell);
    assert(marked.subrange(1, marked.len() as int) =~= cell);
}

proof fn lemma_cell_is_split_off(cell: Seq<char>, rest: Seq<char>)
    requires
        forall|i: int| 0 <= i < cell.len() ==> #[trigger] cell[i] != '/',
    ensures
        text::split(cell + seq!['/', '/'] + rest, "//"@) == Some((cell, rest)),
{
    reveal_strlit("//");
    let sep = seq!['/', '/'];
    assert("//"@ =~= sep);
    let x = cell + sep + rest;
    text::law_where_a_text_occurs(cell, sep, rest, x, 0);
    text::law_splitting_cuts_at_the_first(x, sep, cell.len() as int);
    let (a, b) = text::split(x, sep)->0;
    if a.len() < cell.len() {
        assert((a + sep + b)[a.len() as int] == '/');
        assert(x[a.len() as int] == cell[a.len() as int]);
    }
    assert(a.len() == cell.len());
    assert(a =~= x.take(cell.len() as int));
    assert(cell =~= x.take(cell.len() as int));
    assert(b =~= x.skip(cell.len() as int + 2));
    assert(rest =~= x.skip(cell.len() as int + 2));
}

proof fn lemma_name_is_split_off(package: Seq<char>, name: Seq<char>)
    requires
        forall|i: int| 0 <= i < package.len() ==> #[trigger] package[i] != ':',
    ensures
        text::split(package + seq![':'] + name, ":"@) == Some((package, name)),
{
    reveal_strlit(":");
    let sep = seq![':'];
    assert(":"@ =~= sep);
    let x = package + sep + name;
    text::law_where_a_text_occurs(package, sep, name, x, 0);
    text::law_splitting_cuts_at_the_first(x, sep, package.len() as int);
    let (a, b) = text::split(x, sep)->0;
    if a.len() < package.len() {
        assert((a + sep + b)[a.len() as int] == ':');
        assert(x[a.len() as int] == package[a.len() as int]);
    }
    assert(a =~= x.take(package.len() as int));
    assert(package =~= x.take(package.len() as int));
    assert(b =~= x.skip(package.len() as int + 1));
    assert(name =~= x.skip(package.len() as int + 1));
}

proof fn lemma_package_path_stays(package: Seq<char>)
    requires
        is_package_path(package),
    ensures
        package_path(package) == package,
{
    reveal_strlit("/");
    reveal_strlit("//");
    if text::has_suffix(package, "/"@) {
        let n = package.len() as int;
        assert(package.subrange(n - 1, n)[0] == package[n - 1]);
        let framed = "/"@ + package + "/"@;
        assert(framed.subrange(n, n + 2) =~= "//"@);
        assert(text::occurs_at(framed, "//"@, n));
    }
}

/// A package is a path of names: one name, or a package and a name below it. Neither an empty part
/// nor a step in place or upwards is a name.
pub proof fn law_what_a_package_is(package: Seq<char>, name: Seq<char>)
    requires
        name.len() > 0,
        forall|i: int| 0 <= i < name.len() ==> #[trigger] name[i] != '/',
    ensures
        is_package_path(Seq::empty()),
        name != seq!['.'] && name != seq!['.', '.'] ==> is_package_path(name),
        name == seq!['.'] || name == seq!['.', '.'] ==> !is_package_path(name)
            && !is_package_path(package + seq!['/'] + name),
        package.len() > 0 && is_package_path(package) && name != seq!['.'] && name != seq!['.', '.']
            ==> is_package_path(package + seq!['/'] + name),
        !is_package_path(seq!['/'] + package),
        !is_package_path(package + seq!['/']),
{
    lemma_one_name(name);
    lemma_no_separator_at_the_ends(package);
    if package.len() > 0 {
        lemma_name_below(package, name);
    } else {
        lemma_no_separator_at_the_ends(name);
        assert(package + seq!['/'] + name =~= seq!['/'] + name);
    }
}

/// At `k` in `framed`, which is a path between separators, stands a part that is no name.
spec fn is_no_name_at(framed: Seq<char>, k: int) -> bool {
    &&& 0 <= k < framed.len()
    &&& framed[k] == '/'
    &&& {
        ||| k + 1 < framed.len() && framed[k + 1] == '/'
        ||| k + 2 < framed.len() && framed[k + 1] == '.' && framed[k + 2] == '/'
        ||| k + 3 < framed.len() && framed[k + 1] == '.' && framed[k + 2] == '.' && framed[k + 3]
            == '/'
    }
}

proof fn lemma_parts_of_a_package(s: Seq<char>)
    requires
        s.len() > 0,
    ensures
        is_package_path(s) <==> forall|k: int| !#[trigger]
            is_no_name_at(seq!['/'] + s + seq!['/'], k),
{
    reveal_strlit("/");
    reveal_strlit("//");
    reveal_strlit("/./");
    reveal_strlit("/../");
    assert("/"@ =~= seq!['/']);
    let framed = seq!['/'] + s + seq!['/'];
    let a = "//"@;
    let b = "/./"@;
    let c = "/../"@;
    if is_package_path(s) {
        assert forall|k: int| !#[trigger] is_no_name_at(framed, k) by {
            if is_no_name_at(framed, k) {
                if framed[k + 1] == '/' {
                    assert(framed.subrange(k, k + 2) =~= a);
                    assert(text::occurs_at(framed, a, k));
                } else if framed[k + 2] == '/' {
                    assert(framed.subrange(k, k + 3) =~= b);
                    assert(text::occurs_at(framed, b, k));
                } else {
                    assert(framed.subrange(k, k + 4) =~= c);
                    assert(text::occurs_at(framed, c, k));
                }
            }
        }
    }
    if forall|k: int| !#[trigger] is_no_name_at(framed, k) {
        assert forall|k: int| !#[trigger] text::occurs_at(framed, a, k) by {
            if text::occurs_at(framed, a, k) {
                let t = framed.subrange(k, k + 2);
                assert(t[0] == framed[k] && t[1] == framed[k + 1]);
                assert(is_no_name_at(framed, k));
            }
        }
        assert forall|k: int| !#[trigger] text::occurs_at(framed, b, k) by {
            if text::occurs_at(framed, b, k) {
                let t = framed.subrange(k, k + 3);
                assert(t[0] == framed[k] && t[1] == framed[k + 1] && t[2] == framed[k + 2]);
                assert(is_no_name_at(framed, k));
            }
        }
        assert forall|k: int| !#[trigger] text::occurs_at(framed, c, k) by {
            if text::occurs_at(framed, c, k) {
                let t = framed.subrange(k, k + 4);
                assert(t[0] == framed[k] && t[1] == framed[k + 1] && t[2] == framed[k + 2] && t[3]
                    == framed[k + 3]);
                assert(is_no_name_at(framed, k));
            }
        }
    }
}

proof fn lemma_one_name(name: Seq<char>)
    requires
        name.len() > 0,
        forall|i: int| 0 <= i < name.len() ==> #[trigger] name[i] != '/',
    ensures
        is_package_path(name) <==> name != seq!['.'] && name != seq!['.', '.'],
{
    let framed = seq!['/'] + name + seq!['/'];
    lemma_parts_of_a_package(name);
    assert(forall|i: int| 0 < i <= name.len() ==> #[trigger] framed[i] == name[i - 1]);
    if name == seq!['.'] || name == seq!['.', '.'] {
        assert(framed[0] == '/' && framed[1] == '.');
        assert(is_no_name_at(framed, 0));
    } else {
        assert forall|k: int| !#[trigger] is_no_name_at(framed, k) by {
            if is_no_name_at(framed, k) {
                if k > 0 && k <= name.len() {
                    assert(framed[k] == name[k - 1]);
                }
                assert(k == 0);
                if framed[2] == '/' && framed[1] == '.' {
                    assert(name.len() == 1) by {
                        if name.len() > 1 {
                            assert(framed[2] == name[1]);
                        }
                    }
                    assert(name =~= seq!['.']);
                } else if framed[1] == '/' {
                    assert(framed[1] == name[0]);
                } else {
                    assert(framed[3] == '/');
                    assert(name.len() == 2) by {
                        if name.len() > 2 {
                            assert(framed[3] == name[2]);
                        }
                    }
                    assert(name =~= seq!['.', '.']);
                }
            }
        }
    }
}

proof fn lemma_name_below(package: Seq<char>, name: Seq<char>)
    requires
        package.len() > 0,
        name.len() > 0,
        forall|i: int| 0 <= i < name.len() ==> #[trigger] name[i] != '/',
    ensures
        is_package_path(package) && is_package_path(name) ==> is_package_path(
            package + seq!['/'] + name,
        ),
        !is_package_path(name) ==> !is_package_path(package + seq!['/'] + name),
{
    let n = package.len() as int;
    let whole = package + seq!['/'] + name;
    let framed = seq!['/'] + whole + seq!['/'];
    let above = seq!['/'] + package + seq!['/'];
    let below = seq!['/'] + name + seq!['/'];
    lemma_parts_of_a_package(package);
    lemma_parts_of_a_package(name);
    lemma_parts_of_a_package(whole);
    assert(framed =~= above + name + seq!['/']);
    assert(framed =~= seq!['/'] + package + below);
    assert(forall|k: int| 0 <= k < n + 2 ==> #[trigger] framed[k] == above[k]);
    assert forall|k: int| n + 1 <= k < framed.len() implies #[trigger] framed[k] == below[k - n
        - 1] by {}
    if is_package_path(package) && is_package_path(name) {
        assert forall|k: int| !#[trigger] is_no_name_at(framed, k) by {
            if is_no_name_at(framed, k) {
                assert(framed[n + 1] == '/');
                if k < n + 1 {
                    assert(is_no_name_at(above, k));
                } else {
                    assert(is_no_name_at(below, k - n - 1));
                }
            }
        }
    }
    if !is_package_path(name) {
        let k = choose|k: int| #[trigger] is_no_name_at(below, k);
        assert(framed[k + n + 1] == below[k]);
        if k + 1 < below.len() {
            assert(framed[k + n + 2] == below[k + 1]);
        }
        if k + 2 < below.len() {
            assert(framed[k + n + 3] == below[k + 2]);
        }
        if k + 3 < below.len() {
            assert(framed[k + n + 4] == below[k + 3]);
        }
        assert(is_no_name_at(framed, k + n + 1));
    }
}

proof fn lemma_no_separator_at_the_ends(package: Seq<char>)
    ensures
        !is_package_path(seq!['/'] + package),
        !is_package_path(package + seq!['/']),
{
    let a = seq!['/'] + package;
    let b = package + seq!['/'];
    lemma_parts_of_a_package(a);
    lemma_parts_of_a_package(b);
    let fa = seq!['/'] + a + seq!['/'];
    let fb = seq!['/'] + b + seq!['/'];
    assert(fa[0] == '/' && fa[1] == '/');
    assert(is_no_name_at(fa, 0));
    let n = package.len() as int;
    assert(fb[n + 1] == '/' && fb[n + 2] == '/');
    assert(is_no_name_at(fb, n + 1));
}

/// A text that names no target is a pattern where it is empty or ends in dots, and otherwise one
/// that could be either.
pub proof fn law_what_is_no_label(rest: Seq<char>)
    requires
        forall|i: int| 0 <= i < rest.len() ==> #[trigger] rest[i] != '/' && rest[i] != ':',
    ensures
        rest.len() > 0 && rest != seq!['.', '.', '.'] ==> label_parse(rest) is Ambiguous,
        rest.len() == 0 || rest == seq!['.', '.', '.'] ==> label_parse(rest) is NotALabel,
        label_parse(seq!['/', '/'] + rest) == label_parse(rest),
        label_parse(seq!['/', '/'] + rest + seq!['/', '.', '.', '.']) is NotALabel,
{
    reveal_strlit("//");
    reveal_strlit(":");
    reveal_strlit("...");
    reveal_strlit("/...");
    reveal_strlit("@");
    let dots = seq!['/', '.', '.', '.'];
    assert("..."@ =~= seq!['.', '.', '.']);
    assert("/..."@ =~= dots);
    lemma_cell_is_split_off(Seq::empty(), rest);
    lemma_cell_is_split_off(Seq::empty(), rest + dots);
    assert(Seq::<char>::empty() + seq!['/', '/'] + rest =~= seq!['/', '/'] + rest);
    assert(Seq::<char>::empty() + seq!['/', '/'] + (rest + dots) =~= seq!['/', '/'] + rest + dots);
    text::law_splitting_cuts_at_the_first(rest, "//"@, 0);
    text::law_splitting_cuts_at_the_first(rest, ":"@, 0);
    text::law_splitting_cuts_at_the_first(rest + dots, ":"@, 0);
    assert forall|k: int| !#[trigger] text::occurs_at(rest, "//"@, k) by {
        if text::occurs_at(rest, "//"@, k) {
            assert(rest.subrange(k, k + 2)[0] == rest[k]);
        }
    }
    assert forall|k: int| !#[trigger] text::occurs_at(rest, ":"@, k) by {
        if text::occurs_at(rest, ":"@, k) {
            assert(rest.subrange(k, k + 1)[0] == rest[k]);
        }
    }
    assert forall|k: int| !#[trigger] text::occurs_at(rest + dots, ":"@, k) by {
        if text::occurs_at(rest + dots, ":"@, k) {
            assert((rest + dots).subrange(k, k + 1)[0] == (rest + dots)[k]);
            if k < rest.len() {
                assert((rest + dots)[k] == rest[k]);
            }
        }
    }
    text::law_beginnings_and_ends(rest, dots, rest);
    assert(!text::has_suffix(rest, dots)) by {
        if text::has_suffix(rest, dots) {
            let n = rest.len() as int;
            assert(rest.subrange(n - 4, n)[0] == rest[n - 4]);
        }
    }
}

/// A promise that is not fulfilled fails for what became of it.
pub proof fn law_why_a_promise_fails<T>(
    outcomes: Seq<PromiseOutcome<T>>,
    reason: String,
    i: int,
    j: int,
)
    ensures
        outcome_error(PromiseOutcome::<T>::Failed(reason))
            == PromiseArtifactResolveError::Evaluation(reason),
        outcome_error(PromiseOutcome::<T>::NotAnArtifact(reason))
            == PromiseArtifactResolveError::NotAnArtifact(reason),
        first_unfulfilled(outcomes, i) ==> 0 <= i < outcomes.len() && !(outcomes[i] is Artifact),
        first_unfulfilled(outcomes, i) && 0 <= j < i ==> outcomes[j] is Artifact,
{
}

/// What was promised is found under the promise, and under no other.
pub proof fn law_artifact_of_a_promise<T>(
    map: Seq<(PromiseArtifactId, Arc<T>)>,
    id: PromiseArtifactId,
    i: int,
    j: int,
)
    requires
        promise_at(map, id, i),
    ensures
        0 <= i < map.len(),
        map[i].0.id == id.id,
        crate::action_key::same_owner(map[i].0.owner, id.owner),
        promise_at(map, id, j) ==> i == j,
{
}

/// The attributes that are given stand before those that are not, in the order in which the arguments
/// first name them.
pub proof fn law_order_of_attributes<A>(
    exec_cfg: ConfigurationData,
    rule_name: String,
    specs: Seq<AttributeSpec<A>>,
    internal: Seq<Seq<char>>,
    arguments: Seq<AnonArgument<A>>,
    key: AnonTargetKey<A>,
    i: int,
    j: int,
    p: int,
    q: int,
)
    requires
        anon_target(exec_cfg, rule_name, specs, internal, arguments) == Ok::<
            AnonTargetView<A>,
            AnonKeyError,
        >(key@),
        0 <= p < key.0.attrs@.len(),
        0 <= q < key.0.attrs@.len(),
    ensures
        p < q && is_given(arguments, key.0.attrs@[q].0@) ==> is_given(
            arguments,
            key.0.attrs@[p].0@,
        ),
        0 <= i < j < arguments.len() && (forall|k: int|
            0 <= k < j ==> (#[trigger] arguments[k]).key@ != arguments[j].key@)
            && key.0.attrs@[p].0@ == arguments[i].key@ && key.0.attrs@[q].0@ == arguments[j].key@
            && arguments[i].key@ != "name"@ && arguments[j].key@ != "name"@ ==> p < q,
{
    let read = read_arguments(arguments, specs, internal)->Ok_0.attrs;
    let after = with_defaults(read, specs, internal)->Ok_0;
    lemma_read_arguments(arguments, specs, internal);
    lemma_with_defaults(read, specs, internal);
    lemma_defaults_stand_last(read, specs, internal);
    assert(after == attr_pairs(key.0.attrs@));
    assert(after[p].0 == key.0.attrs@[p].0@ && after[q].0 == key.0.attrs@[q].0@);
    assert forall|n: int| 0 <= n < after.len() implies (is_given(
        arguments,
        (#[trigger] after[n]).0,
    ) <==> n < read.len()) by {
        let name = after[n].0;
        if n < read.len() {
            assert(after.take(read.len() as int)[n] == read[n]);
            assert(read.contains(read[n]));
        } else if is_given(arguments, name) {
            lemma_last_argument(arguments, name);
            let l = choose|l: int| #[trigger]
                is_last_argument(arguments, l) && arguments[l].key@ == name;
            let pair = (arguments[l].key@, arguments[l].coerced->Ok_0);
            assert(read.contains(pair));
            let k = choose|k: int| 0 <= k < read.len() && read[k] == pair;
            assert(after.take(read.len() as int)[k] == read[k]);
            assert(after[k].0 == after[n].0);
        }
    }
    if 0 <= i < j < arguments.len() && (forall|k: int|
        0 <= k < j ==> (#[trigger] arguments[k]).key@ != arguments[j].key@) && after[p].0
        == arguments[i].key@ && after[q].0 == arguments[j].key@ && arguments[i].key@ != "name"@
        && arguments[j].key@ != "name"@ {
        assert(is_given(arguments, after[p].0));
        assert(is_given(arguments, after[q].0));
        assert(after.take(read.len() as int)[p] == read[p]);
        assert(after.take(read.len() as int)[q] == read[q]);
        lemma_order_read(arguments, specs, internal, i, j, p, q);
    }
}

proof fn lemma_defaults_stand_last<A>(
    attrs: Seq<(Seq<char>, A)>,
    specs: Seq<AttributeSpec<A>>,
    internal: Seq<Seq<char>>,
)
    requires
        with_defaults(attrs, specs, internal) is Ok,
    ensures
        attrs.len() <= with_defaults(attrs, specs, internal)->Ok_0.len(),
        with_defaults(attrs, specs, internal)->Ok_0.take(attrs.len() as int) == attrs,
    decreases specs.len(),
{
    let after = with_defaults(attrs, specs, internal)->Ok_0;
    if specs.len() > 0 {
        lemma_defaults_stand_last(attrs, specs.drop_last(), internal);
        let before = with_defaults(attrs, specs.drop_last(), internal)->Ok_0;
        assert(after.take(attrs.len() as int) =~= before.take(attrs.len() as int));
    } else {
        assert(after.take(attrs.len() as int) =~= attrs);
    }
}

proof fn lemma_order_read<A>(
    arguments: Seq<AnonArgument<A>>,
    specs: Seq<AttributeSpec<A>>,
    internal: Seq<Seq<char>>,
    i: int,
    j: int,
    p: int,
    q: int,
)
    requires
        read_arguments(arguments, specs, internal) is Ok,
        0 <= i < j < arguments.len(),
        arguments[i].key@ != "name"@,
        arguments[j].key@ != "name"@,
        forall|k: int| 0 <= k < j ==> (#[trigger] arguments[k]).key@ != arguments[j].key@,
        0 <= p < read_arguments(arguments, specs, internal)->Ok_0.attrs.len(),
        0 <= q < read_arguments(arguments, specs, internal)->Ok_0.attrs.len(),
        read_arguments(arguments, specs, internal)->Ok_0.attrs[p].0 == arguments[i].key@,
        read_arguments(arguments, specs, internal)->Ok_0.attrs[q].0 == arguments[j].key@,
    ensures
        p < q,
    decreases arguments.len(),
{
    let init = arguments.drop_last();
    let last = arguments.len() - 1;
    let a = arguments.last();
    assert(arguments[last] == a);
    let before = read_arguments(init, specs, internal)->Ok_0.attrs;
    let after = read_arguments(arguments, specs, internal)->Ok_0.attrs;
    lemma_read_arguments(arguments, specs, internal);
    lemma_read_arguments(init, specs, internal);
    lemma_attr_position(before, a.key@);
    let at = attr_position(before, a.key@);
    assert(forall|k: int| 0 <= k < last ==> #[trigger] init[k] == arguments[k]);
    if j < last {
        if a.key@ == "name"@ {
            assert(after == before);
        } else if at < 0 {
            assert(after == before.push((a.key@, a.coerced->Ok_0)));
            if p == before.len() || q == before.len() {
                let n = if p == before.len() {
                    i
                } else {
                    j
                };
                assert(a.key@ == arguments[n].key@);
                assert(init[n] == arguments[n]);
                assert(is_given(init, a.key@));
                lemma_last_argument(init, a.key@);
                let l = choose|l: int| #[trigger]
                    is_last_argument(init, l) && init[l].key@ == a.key@;
                let pair = (init[l].key@, init[l].coerced->Ok_0);
                assert(before.contains(pair));
                let k = choose|k: int| 0 <= k < before.len() && before[k] == pair;
                assert(before[k].0 == a.key@);
            }
            assert(before[p] == after[p] && before[q] == after[q]);
        } else {
            assert(before[p].0 == after[p].0);
            assert(before[q].0 == after[q].0);
        }
        lemma_order_read(init, specs, internal, i, j, p, q);
    } else {
        if at >= 0 {
            assert(before.contains(before[at]));
            assert(is_given(init, a.key@));
            let k = choose|k: int| 0 <= k < init.len() && (#[trigger] init[k]).key@ == a.key@;
            assert(arguments[k].key@ == a.key@);
        }
        assert(after == before.push((a.key@, a.coerced->Ok_0)));
        if q < before.len() {
            assert(after[q] == before[q]);
        }
        assert(arguments[i].key@ != a.key@);
    }
}

/// What is wrong with the arguments of an anonymous target is said of the argument.
pub proof fn law_messages_name_their_arguments(s: String, typ: String, value: String)
    ensures
        anon_error_text(AnonTargetsError::InvalidNameType { typ, value })
            == "Invalid `name` attribute, must be a label or a string, got `"@ + value@
            + "` of type `"@ + typ@ + "`"@,
        anon_error_text(AnonTargetsError::NotTargetLabel(s))
            == "`name` attribute must be a valid target label, got `"@ + s@ + "`"@,
        anon_error_text(AnonTargetsError::UnknownAttribute(s)) == "Unknown attribute `"@ + s@
            + "`"@,
        anon_error_text(AnonTargetsError::InternalAttribute(s)) == "Internal attribute `"@ + s@
            + "` not allowed as argument to `anon_targets`"@,
        anon_error_text(AnonTargetsError::MissingAttribute(s)) == "Missing attribute `"@ + s@
            + "`"@,
{
}

} // verus!
