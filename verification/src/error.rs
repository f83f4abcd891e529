//! Errors: a root, the context that was added on the way up, and what can be recovered of both
//! from a chain of ordinary errors.
use std::sync::Arc;
use vstd::prelude::*;
use vstd::string::*;

use crate::text;

verus! {

/// Whether an error is an infrastructure or a user error.
#[derive(Clone, Copy, Debug, PartialEq, Eq, Structural)]
pub enum Tier {
    /// Expected error in inputs explicitly tracked by the build.
    Input,
    /// Issue in the build system itself.
    Tier0,
}

/// A mark on an error.
#[derive(Clone, Copy, Debug, PartialEq, Eq, Structural)]
pub enum ErrorTag {
    StarlarkFail,
    WatchmanTimeout,
    ServerStackOverflow,
}

/// The number by which tags are ordered.
pub open spec fn tag_number(tag: ErrorTag) -> nat {
    match tag {
        ErrorTag::StarlarkFail => 1,
        ErrorTag::WatchmanTimeout => 2,
        ErrorTag::ServerStackOverflow => 3,
    }
}

impl ErrorTag {
    /// The number by which tags are ordered.
    pub fn number(&self) -> (r: u32)
        ensures
            r == tag_number(*self),
    {
        match self {
            ErrorTag::StarlarkFail => 1,
            ErrorTag::WatchmanTimeout => 2,
            ErrorTag::ServerStackOverflow => 3,
        }
    }
}

/// Approximately where an error came from.
#[derive(Clone, Copy, Debug, PartialEq, Eq, Structural)]
pub enum ErrorType {
    Watchman,
    ActionCommandFailure,
    Other,
}

/// The report on a failed action, encoded.
#[derive(Debug)]
pub struct ActionError(pub String);

/// What an error tells of itself.
///
/// For `typ`, `action_error`, and the source information, only the value that appears last in the
/// source chain is used.
#[derive(Debug)]
pub struct ProvidableMetadata {
    pub category: Option<Tier>,
    pub tags: Vec<ErrorTag>,
    pub source_file: String,
    /// Extra information to add to the end of the source location - typically a type or variant
    /// name.
    pub source_location_extra: Option<String>,
    pub typ: Option<ErrorType>,
    /// The report on an action, if the root was an action error.
    pub action_error: Option<Arc<ActionError>>,
}

/// A request to an error for its metadata. Only the first answer counts.
#[derive(Debug)]
pub struct Request {
    pub provided: Option<ProvidableMetadata>,
}

/// Provides metadata about an error.
///
/// If the `typ` argument is provided, then the error is treated as the root: errors further down in
/// its chain of sources are not checked for context, and only their messages are shown. Which type,
/// report and place the error gets is still settled by what the chain names last.
pub fn provide_metadata(
    request: &mut Request,
    category: Option<Tier>,
    typ: Option<ErrorType>,
    tags: Vec<ErrorTag>,
    source_file: String,
    source_location_extra: Option<String>,
    action_error: Option<Arc<ActionError>>,
)
    ensures
        old(request).provided is Some ==> final(request).provided == old(request).provided,
        old(request).provided is None ==> final(request).provided == Some(
            ProvidableMetadata {
                category,
                tags,
                source_file,
                source_location_extra,
                typ,
                action_error,
            },
        ),
{
    if request.provided.is_none() {
        request.provided = Some(
            ProvidableMetadata {
                category,
                tags,
                source_file,
                source_location_extra,
                typ,
                action_error,
            },
        );
    }
}

/// The root of an error.
#[derive(Debug)]
pub struct ErrorRoot {
    pub description: String,
    pub error_type: Option<ErrorType>,
    pub source_location: Option<String>,
    pub action_error: Option<Arc<ActionError>>,
}

/// Something that was added to an error.
#[derive(Debug)]
pub enum ContextValue {
    /// A message.
    Dyn(String),
    /// A value of a type that can be recognised, as it is shown.
    Typed { kind: String, display: String },
    Tier(Tier),
    Tags(Vec<ErrorTag>),
}

#[derive(Debug)]
pub enum ErrorKind {
    Root(ErrorRoot),
    /// For now we use untyped context to maximize compatibility with ordinary errors.
    WithContext(ContextValue, Error),
    /// The error has been shown already, in this form.
    Emitted(String, Error),
}

/// An error. Copies of it are cheap.
#[derive(Debug)]
pub struct Error(pub Arc<ErrorKind>);

/// The result of something that can fail.
pub type Result<T> = std::result::Result<T, Error>;

/// Allows simpler construction of the good case when the result type can't be inferred.
pub fn ok<T>(t: T) -> (r: Result<T>)
    ensures
        r == std::result::Result::<T, Error>::Ok(t),
{
    std::result::Result::Ok(t)
}

/// The root of an error.
pub open spec fn root_of(e: Error) -> ErrorRoot
    decreases e,
{
    match *e.0 {
        ErrorKind::Root(root) => root,
        ErrorKind::WithContext(_, inner) => root_of(inner),
        ErrorKind::Emitted(_, inner) => root_of(inner),
    }
}

/// The context of an error, the outermost first.
pub open spec fn contexts(e: Error) -> Seq<ContextValue>
    decreases e,
{
    match *e.0 {
        ErrorKind::Root(_) => Seq::empty(),
        ErrorKind::WithContext(c, inner) => seq![c] + contexts(inner),
        ErrorKind::Emitted(_, inner) => contexts(inner),
    }
}

/// The tier of an error with the given context: an infrastructure error wherever any part of it
/// is one.
pub open spec fn tier_of(cs: Seq<ContextValue>) -> Option<Tier> {
    if exists|i: int| 0 <= i < cs.len() && #[trigger] cs[i] == ContextValue::Tier(Tier::Tier0) {
        Some(Tier::Tier0)
    } else if exists|i: int|
        0 <= i < cs.len() && #[trigger] cs[i] == ContextValue::Tier(Tier::Input) {
        Some(Tier::Input)
    } else {
        None
    }
}

/// The tag is part of the context.
pub open spec fn has_tag(cs: Seq<ContextValue>, tag: ErrorTag) -> bool {
    exists|i: int|
        0 <= i < cs.len() && (#[trigger] cs[i]) is Tags && cs[i]->Tags_0@.contains(tag)
}

/// `tags` are in order, and none occurs twice.
pub open spec fn ordered_tags(tags: Seq<ErrorTag>) -> bool {
    forall|i: int, j: int|
        0 <= i < j < tags.len() ==> tag_number(#[trigger] tags[i]) < tag_number(#[trigger] tags[j])
}

fn insert_tag(tags: &mut Vec<ErrorTag>, tag: ErrorTag)
    requires
        ordered_tags(old(tags)@),
    ensures
        ordered_tags(final(tags)@),
        forall|t: ErrorTag| #[trigger]
            final(tags)@.contains(t) <==> old(tags)@.contains(t) || t == tag,
{
    let ghost before = tags@;
    let mut at: usize = 0;
    while at < tags.len() && tags[at].number() < tag.number()
        invariant
            tags@ == before,
            at <= tags@.len(),
            forall|k: int| 0 <= k < at ==> tag_number(#[trigger] before[k]) < tag_number(tag),
        decreases tags@.len() - at,
    {
        at = at + 1;
    }
    if at < tags.len() && tags[at].number() == tag.number() {
        proof {
            assert(before[at as int] == tag);
            assert(before.contains(tag));
        }
        return ;
    }
    tags.insert(at, tag);
    proof {
        let after = tags@;
        assert(after =~= before.insert(at as int, tag));
        assert forall|i: int, j: int| 0 <= i < j < after.len() implies tag_number(
            #[trigger] after[i],
        ) < tag_number(#[trigger] after[j]) by {
            if i < at {
                assert(after[i] == before[i]);
                if j > at {
                    assert(after[j] == before[j - 1]);
                }
            } else {
                assert(after[j] == before[j - 1]);
                if i > at {
                    assert(after[i] == before[i - 1]);
                } else {
                    assert(tag_number(before[at as int]) <= tag_number(before[j - 1]));
                }
            }
        }
        assert forall|t: ErrorTag| #[trigger]
            after.contains(t) <==> before.contains(t) || t == tag by {
            if after.contains(t) {
                let k = choose|k: int| 0 <= k < after.len() && after[k] == t;
                if k < at {
                    assert(before[k] == t);
                } else if k > at {
                    assert(before[k - 1] == t);
                }
            }
            if before.contains(t) {
                let k = choose|k: int| 0 <= k < before.len() && before[k] == t;
                if k < at {
                    assert(after[k] == t);
                } else {
                    assert(after[k + 1] == t);
                }
            }
            if t == tag {
                assert(after[at as int] == t);
            }
        }
    }
}

/// What an error with this outermost context adds to its messages.
pub open spec fn context_message(c: ContextValue) -> Option<Seq<char>> {
    match c {
        ContextValue::Dyn(m) => Some(m@),
        ContextValue::Typed { display, .. } => Some(display@),
        _ => None,
    }
}

/// The messages of an error, the outermost first.
pub open spec fn messages_of(e: Error) -> Seq<Seq<char>>
    decreases e,
{
    match *e.0 {
        ErrorKind::Root(root) => seq![root.description@],
        ErrorKind::WithContext(c, inner) => match context_message(c) {
            Some(m) => seq![m] + messages_of(inner),
            None => messages_of(inner),
        },
        ErrorKind::Emitted(_, inner) => messages_of(inner),
    }
}

fn clone_tags(tags: &Vec<ErrorTag>) -> (r: Vec<ErrorTag>)
    ensures
        r@ == tags@,
{
    let mut r: Vec<ErrorTag> = Vec::new();
    let mut i: usize = 0;
    while i < tags.len()
        invariant
            i <= tags@.len(),
            r@ == tags@.take(i as int),
        decreases tags@.len() - i,
    {
        r.push(tags[i]);
        i = i + 1;
        assert(r@ =~= tags@.take(i as int));
    }
    assert(r@ =~= tags@);
    r
}

/// `e` with a message added.
pub open spec fn with_message(e: Error, m: Seq<char>, r: Error) -> bool {
    *r.0 matches ErrorKind::WithContext(ContextValue::Dyn(text), inner) && text@ == m && inner == e
}

impl Error {
    /// Another handle on the same error.
    pub fn dupe(&self) -> (r: Self)
        ensures
            r == *self,
    {
        Error(self.0.clone())
    }

    /// Adds something to the error.
    pub fn context(self, context: ContextValue) -> (r: Self)
        ensures
            *r.0 == ErrorKind::WithContext(context, self),
    {
        Error(Arc::new(ErrorKind::WithContext(context, self)))
    }

    /// Adds a message to the error.
    pub fn context_message(self, message: &str) -> (r: Self)
        ensures
            with_message(self, message@, r),
    {
        Error(Arc::new(ErrorKind::WithContext(ContextValue::Dyn(message.to_owned()), self)))
    }

    /// Marks the error.
    pub fn tag(self, tags: Vec<ErrorTag>) -> (r: Self)
        ensures
            *r.0 == ErrorKind::WithContext(ContextValue::Tags(tags), self),
    {
        Error(Arc::new(ErrorKind::WithContext(ContextValue::Tags(tags), self)))
    }

    /// Notes that the error has been shown.
    pub fn mark_emitted(self, late_format: String) -> (r: Self)
        ensures
            *r.0 == ErrorKind::Emitted(late_format, self),
    {
        Error(Arc::new(ErrorKind::Emitted(late_format, self)))
    }

    /// The root of the error.
    pub fn root(&self) -> (r: &ErrorRoot)
        ensures
            *r == root_of(*self),
        decreases *self,
    {
        match &*self.0 {
            ErrorKind::Root(root) => root,
            ErrorKind::WithContext(_, inner) => inner.root(),
            ErrorKind::Emitted(_, inner) => inner.root(),
        }
    }

    /// The type of the error.
    pub fn get_error_type(&self) -> (r: Option<ErrorType>)
        ensures
            r == root_of(*self).error_type,
    {
        self.root().error_type
    }

    /// Where the error was made.
    pub fn source_location(&self) -> (r: Option<&str>)
        ensures
            match (r, root_of(*self).source_location) {
                (Some(a), Some(b)) => a@ == b@,
                (None, None) => true,
                _ => false,
            },
    {
        match &self.root().source_location {
            Some(l) => Some(l.as_str()),
            None => None,
        }
    }

    /// Whether the error is an infrastructure or a user error, where that is known.
    pub fn get_tier(&self) -> (r: Option<Tier>)
        ensures
            r == tier_of(contexts(*self)),
        decreases *self,
    {
        match &*self.0 {
            ErrorKind::Root(_) => None,
            ErrorKind::Emitted(_, inner) => inner.get_tier(),
            ErrorKind::WithContext(c, inner) => {
                let below = inner.get_tier();
                proof {
                    lemma_tier_of(*c, contexts(*inner));
                }
                match c {
                    ContextValue::Tier(Tier::Tier0) => Some(Tier::Tier0),
                    ContextValue::Tier(Tier::Input) => match below {
                        Some(t) => Some(t),
                        None => Some(Tier::Input),
                    },
                    _ => below,
                }
            },
        }
    }

    /// The tags of the error, in order and each once.
    pub fn tags(&self) -> (r: Vec<ErrorTag>)
        ensures
            ordered_tags(r@),
            forall|t: ErrorTag| #[trigger] r@.contains(t) <==> has_tag(contexts(*self), t),
        decreases *self,
    {
        match &*self.0 {
            ErrorKind::Root(_) => Vec::new(),
            ErrorKind::Emitted(_, inner) => inner.tags(),
            ErrorKind::WithContext(c, inner) => {
                let mut r = inner.tags();
                let ghost below = r@;
                match c {
                    ContextValue::Tags(tags) => {
                        let mut i: usize = 0;
                        while i < tags.len()
                            invariant
                                i <= tags@.len(),
                                ordered_tags(r@),
                                forall|t: ErrorTag| #[trigger]
                                    r@.contains(t) <==> below.contains(t) || tags@.take(
                                        i as int,
                                    ).contains(t),
                            decreases tags@.len() - i,
                        {
                            let ghost prev = r@;
                            insert_tag(&mut r, tags[i]);
                            proof {
                                assert forall|t: ErrorTag| #[trigger]
                                    r@.contains(t) <==> below.contains(t) || tags@.take(
                                        i + 1,
                                    ).contains(t) by {
                                    let a = tags@.take(i as int);
                                    let b = tags@.take(i + 1);
                                    if a.contains(t) {
                                        let k = choose|k: int| 0 <= k < a.len() && a[k] == t;
                                        assert(b[k] == t);
                                    }
                                    if b.contains(t) {
                                        let k = choose|k: int| 0 <= k < b.len() && b[k] == t;
                                        if k < i {
                                            assert(a[k] == t);
                                        }
                                    }
                                    if t == tags@[i as int] {
                                        assert(b[i as int] == t);
                                    }
                                    assert(r@.contains(t) <==> prev.contains(t) || t
                                        == tags@[i as int]);
                                }
                            }
                            i = i + 1;
                        }
                        assert(tags@.take(tags@.len() as int) =~= tags@);
                    },
                    _ => {},
                }
                proof {
                    assert forall|t: ErrorTag| #[trigger]
                        r@.contains(t) <==> has_tag(contexts(*self), t) by {
                        lemma_has_tag(*c, contexts(*inner), t);
                    }
                }
                r
            },
        }
    }

    /// The messages of the error, the outermost first.
    pub fn messages(&self) -> (r: Vec<String>)
        ensures
            text::views(r@) == messages_of(*self),
        decreases *self,
    {
        match &*self.0 {
            ErrorKind::Root(root) => {
                let mut r: Vec<String> = Vec::new();
                r.push(root.description.clone());
                assert(text::views(r@) =~= messages_of(*self));
                r
            },
            ErrorKind::Emitted(_, inner) => inner.messages(),
            ErrorKind::WithContext(c, inner) => {
                let mut r = inner.messages();
                let ghost below = text::views(r@);
                match c {
                    ContextValue::Dyn(m) => {
                        r.insert(0, m.clone());
                        assert(text::views(r@) =~= seq![m@] + below);
                    },
                    ContextValue::Typed { display, .. } => {
                        r.insert(0, display.clone());
                        assert(text::views(r@) =~= seq![display@] + below);
                    },
                    _ => {},
                }
                r
            },
        }
    }

    /// The error with everything that led to it.
    pub fn debug(&self) -> (r: String)
        ensures
            r@ == text::joined(messages_of(*self), "\n\nCaused by:\n    "@),
    {
        let m = self.messages();
        text::join(&m, "\n\nCaused by:\n    ")
    }
}

proof fn lemma_tier_of(c: ContextValue, rest: Seq<ContextValue>)
    ensures
        tier_of(seq![c] + rest) == (if c == ContextValue::Tier(Tier::Tier0) || tier_of(rest)
            == Some(Tier::Tier0) {
            Some(Tier::Tier0)
        } else if c == ContextValue::Tier(Tier::Input) || tier_of(rest) == Some(Tier::Input) {
            Some(Tier::Input)
        } else {
            None
        }),
{
    let all = seq![c] + rest;
    assert(all[0] == c);
    assert forall|i: int| 0 <= i < rest.len() implies #[trigger] rest[i] == all[i + 1] by {}
    assert forall|t: Tier|
        (exists|i: int| 0 <= i < all.len() && #[trigger] all[i] == ContextValue::Tier(t)) <==> (c
            == ContextValue::Tier(t) || exists|i: int|
            0 <= i < rest.len() && #[trigger] rest[i] == ContextValue::Tier(t)) by {
        if exists|i: int| 0 <= i < all.len() && #[trigger] all[i] == ContextValue::Tier(t) {
            let i = choose|i: int| 0 <= i < all.len() && #[trigger] all[i] == ContextValue::Tier(t);
            if i > 0 {
                assert(rest[i - 1] == ContextValue::Tier(t));
            }
        }
        if exists|i: int| 0 <= i < rest.len() && #[trigger] rest[i] == ContextValue::Tier(t) {
            let i = choose|i: int|
                0 <= i < rest.len() && #[trigger] rest[i] == ContextValue::Tier(t);
            assert(all[i + 1] == ContextValue::Tier(t));
        }
    }
}

proof fn lemma_has_tag(c: ContextValue, rest: Seq<ContextValue>, tag: ErrorTag)
    ensures
        has_tag(seq![c] + rest, tag) <==> (c is Tags && c->Tags_0@.contains(tag)) || has_tag(
            rest,
            tag,
        ),
{
    let all = seq![c] + rest;
    assert(all[0] == c);
    if has_tag(all, tag) {
        let i = choose|i: int|
            0 <= i < all.len() && (#[trigger] all[i]) is Tags && all[i]->Tags_0@.contains(tag);
        if i > 0 {
            assert(rest[i - 1] == all[i]);
        }
    }
    if has_tag(rest, tag) {
        let i = choose|i: int|
            0 <= i < rest.len() && (#[trigger] rest[i]) is Tags && rest[i]->Tags_0@.contains(tag);
        assert(all[i + 1] == rest[i]);
    }
}

/// One error in a chain of ordinary errors: how it is shown, and what it tells of itself.
#[derive(Debug)]
pub struct StdErrorLink {
    pub display: String,
    pub metadata: Option<ProvidableMetadata>,
}

/// An ordinary error and its sources, the outermost first. The chain may end in an error of this
/// module.
#[derive(Debug)]
pub struct StdErrorChain {
    pub links: Vec<StdErrorLink>,
    pub base: Option<Error>,
}

impl StdErrorChain {
    /// There is an error at all.
    pub open spec fn wf(&self) -> bool {
        self.links@.len() > 0 || self.base is Some
    }
}

/// Something that can be looked at as an ordinary error.
pub trait AsDynError {
    /// The chain of errors.
    spec fn error_chain(&self) -> StdErrorChain;

    fn as_dyn_error(&self) -> (r: &StdErrorChain)
        ensures
            *r == self.error_chain(),
    ;
}

impl AsDynError for StdErrorChain {
    open spec fn error_chain(&self) -> StdErrorChain {
        *self
    }

    fn as_dyn_error(&self) -> (r: &StdErrorChain) {
        self
    }
}

/// The position after the first directory `app` in `path`.
pub open spec fn after_app(path: Seq<char>) -> Option<int> {
    if text::has_prefix(path, "app/"@) {
        Some(4)
    } else if text::occurs(path, "/app/"@) {
        Some(first_occurrence(path, "/app/"@) + 5)
    } else {
        None
    }
}

/// The first position of `needle` in `s`.
pub open spec fn first_occurrence(s: Seq<char>, needle: Seq<char>) -> int {
    choose|at: int|
        text::occurs_at(s, needle, at) && forall|k: int|
            0 <= k < at ==> !text::occurs_at(s, needle, k)
}

/// Where an error was made: the part of the path of its source file below `app`, and what is
/// added to that.
pub open spec fn location_text(path: Seq<char>, extra: Option<Seq<char>>) -> Option<Seq<char>> {
    match after_app(path) {
        None => None,
        Some(n) => {
            let file = path.skip(n);
            match extra {
                Some(x) => Some(file + "::"@ + x),
                None => Some(file),
            }
        },
    }
}

/// The characters of an optional string.
pub open spec fn opt_view(s: Option<String>) -> Option<Seq<char>> {
    match s {
        Some(s) => Some(s@),
        None => None,
    }
}

/// Where an error was made.
pub fn source_location_from_file(path: &str, extra: &Option<String>) -> (r: Option<String>)
    ensures
        opt_view(r) == location_text(path@, opt_view(*extra)),
{
    proof {
        reveal_strlit("app/");
        reveal_strlit("/app/");
    }
    let end: usize = path.unicode_len();
    let start: usize = if text::starts_with(path, "app/") {
        4
    } else {
        match text::find(path, "/app/") {
            Some(at) => {
                proof {
                    let k = first_occurrence(path@, "/app/"@);
                    assert(text::occurs_at(path@, "/app/"@, at as int));
                    assert(k == at) by {
                        if k < at {
                            assert(!text::occurs_at(path@, "/app/"@, k));
                        }
                        if at < k {
                            assert(!text::occurs_at(path@, "/app/"@, at as int));
                        }
                    }
                }
                at + 5
            },
            None => {
                return None;
            },
        }
    };
    let file = path.substring_char(start, end);
    assert(file@ =~= path@.skip(start as int));
    match extra {
        Some(x) => Some(text::concat3(file, "::", x.as_str())),
        None => Some(file.to_owned()),
    }
}

/// What the chain tells of the root of an error.
pub struct RootInfo {
    pub source_location: Option<Seq<char>>,
    pub typ: Option<ErrorType>,
    pub action_error: Option<Arc<ActionError>>,
}

/// What the chain tells of the root: of each item the last value in the chain.
pub open spec fn root_info(links: Seq<StdErrorLink>, location: Option<Seq<char>>) -> RootInfo
    decreases links.len(),
{
    if links.len() == 0 {
        RootInfo { source_location: location, typ: None, action_error: None }
    } else {
        let before = root_info(links.drop_last(), location);
        match links.last().metadata {
            None => before,
            Some(m) => RootInfo {
                source_location: location_text(m.source_file@, opt_view(m.source_location_extra)),
                typ: if m.typ is Some {
                    m.typ
                } else {
                    before.typ
                },
                action_error: if m.action_error is Some {
                    m.action_error
                } else {
                    before.action_error
                },
            },
        }
    }
}

/// The error to which the message `m` was added to give `r`.
pub open spec fn under_message(m: Seq<char>, r: Error) -> Option<Error> {
    match *r.0 {
        ErrorKind::WithContext(ContextValue::Dyn(shown), inner) if shown@ == m => Some(inner),
        _ => None,
    }
}

/// The error to which `tags` were added to give `r`; no tags add nothing.
pub open spec fn under_tags(tags: Seq<ErrorTag>, r: Error) -> Option<Error> {
    if tags.len() == 0 {
        Some(r)
    } else {
        match *r.0 {
            ErrorKind::WithContext(ContextValue::Tags(t), inner) if t@ == tags => Some(inner),
            _ => None,
        }
    }
}

/// The error to which a category was added to give `r`.
pub open spec fn under_category(category: Option<Tier>, r: Error) -> Option<Error> {
    match category {
        None => Some(r),
        Some(tier) => match *r.0 {
            ErrorKind::WithContext(ContextValue::Tier(t), inner) if t == tier => Some(inner),
            _ => None,
        },
    }
}

/// The error to which metadata was added to give `r`: first its category, and then its tags.
pub open spec fn under_metadata(metadata: Option<ProvidableMetadata>, r: Error) -> Option<Error> {
    match metadata {
        None => Some(r),
        Some(m) => match under_tags(m.tags@, r) {
            Some(inner) => under_category(m.category, inner),
            None => None,
        },
    }
}

/// Adds to the error what the metadata of `context` says.
pub fn maybe_add_context_from_metadata(e: Error, context: &StdErrorLink) -> (r: Error)
    ensures
        under_metadata(context.metadata, r) == Some(e),
{
    match &context.metadata {
        None => e,
        Some(metadata) => {
            let e = match metadata.category {
                Some(category) => e.context(ContextValue::Tier(category)),
                None => e,
            };
            if metadata.tags.len() > 0 {
                e.tag(clone_tags(&metadata.tags))
            } else {
                e
            }
        },
    }
}

/// The error names a type, so it is treated as the root.
pub open spec fn is_root_like(link: StdErrorLink) -> bool {
    link.metadata matches Some(m) && m.typ is Some
}

/// Link number `n` is checked for context: no error above it is treated as the root.
pub open spec fn is_checked(links: Seq<StdErrorLink>, n: int) -> bool {
    forall|k: int| 0 <= k < n ==> !is_root_like(#[trigger] links[k])
}

/// The metadata of link number `n` that becomes context.
pub open spec fn context_metadata(links: Seq<StdErrorLink>, n: int) -> Option<ProvidableMetadata> {
    if is_checked(links, n) {
        links[n].metadata
    } else {
        None
    }
}

/// The error to which `links`, from number `n` on, were added to give `r`: the last of them first,
/// each its message and then, if it is checked for context, what its metadata says.
pub open spec fn under_links(links: Seq<StdErrorLink>, n: int, r: Error) -> Option<Error>
    decreases links.len() - n,
{
    if n >= links.len() {
        Some(r)
    } else {
        match under_metadata(context_metadata(links, n), r) {
            None => None,
            Some(shown) => match under_message(links[n].display@, shown) {
                None => None,
                Some(below) => under_links(links, n + 1, below),
            },
        }
    }
}

/// `r` is what is recovered of the chain, where the place of the conversion was `location`.
pub open spec fn recovers(chain: StdErrorChain, location: Option<Seq<char>>, r: Error) -> bool {
    match chain.base {
        Some(base) => under_links(chain.links@, 0, r) == Some(base),
        None => {
            let links = chain.links@;
            let info = root_info(links, location);
            &&& under_links(links.drop_last(), 0, r) matches Some(base)
            &&& under_metadata(context_metadata(links, links.len() - 1), base) matches Some(root)
            &&& *root.0 matches ErrorKind::Root(data)
            &&& data.description@ == links.last().display@
            &&& data.error_type == info.typ
            &&& opt_view(data.source_location) == info.source_location
            &&& data.action_error == info.action_error
        },
    }
}

/// The error that a chain of ordinary errors stands for. Where the chain ends in an error of this
/// module, that is the base; otherwise the last error of the chain becomes the root. Below an error
/// that names a type no link is checked for context.
pub fn recover_crate_error(value: &StdErrorChain, source_location: Option<String>) -> (r: Error)
    requires
        value.wf(),
    ensures
        recovers(*value, opt_view(source_location), r),
{
    let ghost location = opt_view(source_location);
    let checked = checked_links(&value.links);
    match &value.base {
        Some(base) => {
            assert(value.links@.take(value.links@.len() as int) =~= value.links@);
            add_links(base.dupe(), &value.links, value.links.len(), checked)
        },
        None => {
            let ghost all = value.links@;
            let mut source_location = source_location;
            let mut typ: Option<ErrorType> = None;
            let mut action_error: Option<Arc<ActionError>> = None;
            let mut i: usize = 0;
            assert(all.take(0) =~= Seq::empty());
            while i < value.links.len()
                invariant
                    all == value.links@,
                    i <= all.len(),
                    ({
                        let info = root_info(all.take(i as int), location);
                        &&& opt_view(source_location) == info.source_location
                        &&& typ == info.typ
                        &&& action_error == info.action_error
                    }),
                decreases all.len() - i,
            {
                proof {
                    let next = all.take(i + 1);
                    assert(next.drop_last() =~= all.take(i as int));
                    assert(next.last() == all[i as int]);
                }
                match &value.links[i].metadata {
                    None => {},
                    Some(m) => {
                        source_location =
                        source_location_from_file(
                            m.source_file.as_str(),
                            &m.source_location_extra,
                        );
                        if m.typ.is_some() {
                            typ = m.typ;
                        }
                        match &m.action_error {
                            Some(a) => {
                                action_error = Some(a.clone());
                            },
                            None => {},
                        }
                    },
                }
                i = i + 1;
            }
            assert(all.take(all.len() as int) =~= all);
            let last: usize = value.links.len() - 1;
            let root = Error(
                Arc::new(
                    ErrorKind::Root(
                        ErrorRoot {
                            description: value.links[last].display.clone(),
                            error_type: typ,
                            source_location,
                            action_error,
                        },
                    ),
                ),
            );
            let base = if last < checked {
                maybe_add_context_from_metadata(root, &value.links[last])
            } else {
                root
            };
            let r = add_links(base, &value.links, last, checked);
            assert(all.take(last as int) =~= all.drop_last());
            r
        },
    }
}

/// How many of `links` are checked for context: all up to the first that is treated as the root.
fn checked_links(links: &Vec<StdErrorLink>) -> (r: usize)
    ensures
        r <= links@.len(),
        forall|k: int| 0 <= k < links@.len() ==> (k < r <==> #[trigger] is_checked(links@, k)),
{
    let mut i: usize = 0;
    while i < links.len()
        invariant
            i <= links@.len(),
            is_checked(links@, i as int),
        decreases links@.len() - i,
    {
        let root_like = match &links[i].metadata {
            Some(m) => m.typ.is_some(),
            None => false,
        };
        if root_like {
            assert(is_root_like(links@[i as int]));
            return i + 1;
        }
        i = i + 1;
    }
    i
}

/// `base` with the first `n` of `links` added, the last of them first; `checked` of them are checked
/// for context.
fn add_links(base: Error, links: &Vec<StdErrorLink>, n: usize, checked: usize) -> (r: Error)
    requires
        n <= links@.len(),
        forall|k: int| 0 <= k < links@.len() ==> (k < checked <==> #[trigger] is_checked(links@, k)),
    ensures
        under_links(links@.take(n as int), 0, r) == Some(base),
{
    let ghost used = links@.take(n as int);
    let ghost base0 = base;
    let mut e = base;
    let mut i: usize = n;
    while i > 0
        invariant
            n <= links@.len(),
            used == links@.take(n as int),
            i <= n,
            forall|k: int|
                0 <= k < links@.len() ==> (k < checked <==> #[trigger] is_checked(links@, k)),
            under_links(used, i as int, e) == Some(base0),
        decreases i,
    {
        i = i - 1;
        let ghost below = e;
        let shown = e.context_message(links[i].display.as_str());
        e =
        if i < checked {
            maybe_add_context_from_metadata(shown, &links[i])
        } else {
            shown
        };
        proof {
            assert forall|k: int| 0 <= k <= i implies #[trigger] used[k] == links@[k] by {}
            lemma_checked_prefix(links@, used, i as int);
        }
        assert(under_links(used, i + 1, below) == Some(base0));
    }
    e
}

proof fn lemma_checked_prefix(a: Seq<StdErrorLink>, b: Seq<StdErrorLink>, n: int)
    requires
        0 <= n < a.len(),
        n < b.len(),
        forall|k: int| 0 <= k <= n ==> a[k] == #[trigger] b[k],
    ensures
        is_checked(a, n) == is_checked(b, n),
        context_metadata(a, n) == context_metadata(b, n),
{
    if is_checked(b, n) {
        assert forall|k: int| 0 <= k < n implies !is_root_like(#[trigger] a[k]) by {
            assert(a[k] == b[k]);
        }
    }
}

/// Turning an error into an ordinary one and back gives the same error.
pub proof fn law_roundtrip(e: Error, location: Option<Seq<char>>, chain: StdErrorChain, r: Error)
    requires
        chain.links@.len() == 0,
        chain.base == Some(e),
        recovers(chain, location, r),
    ensures
        r == e,
{
}

/// A message that was added to an error while it was an ordinary one is there after turning it
/// back, as if it had been added to the error itself.
pub proof fn law_roundtrip_with_context(
    e: Error,
    location: Option<Seq<char>>,
    chain: StdErrorChain,
    r: Error,
)
    requires
        chain.links@.len() == 1,
        chain.links@[0].metadata is None,
        chain.base == Some(e),
        recovers(chain, location, r),
    ensures
        under_message(chain.links@[0].display@, r) == Some(e),
{
    reveal_with_fuel(under_links, 2);
}

proof fn lemma_metadata_keeps_root(metadata: Option<ProvidableMetadata>, r: Error)
    requires
        under_metadata(metadata, r) is Some,
    ensures
        root_of(under_metadata(metadata, r)->0) == root_of(r),
{
    if let Some(m) = metadata {
        let inner = under_tags(m.tags@, r)->0;
        assert(root_of(inner) == root_of(r));
        let e = under_category(m.category, inner)->0;
        assert(root_of(e) == root_of(inner));
    }
}

proof fn lemma_links_keep_root(links: Seq<StdErrorLink>, n: int, r: Error)
    requires
        0 <= n,
        under_links(links, n, r) is Some,
    ensures
        root_of(under_links(links, n, r)->0) == root_of(r),
    decreases links.len() - n,
{
    if n < links.len() {
        let metadata = context_metadata(links, n);
        let shown = under_metadata(metadata, r)->0;
        lemma_metadata_keeps_root(metadata, r);
        let below = under_message(links[n].display@, shown)->0;
        assert(root_of(below) == root_of(shown));
        lemma_links_keep_root(links, n + 1, below);
    }
}

/// The root of a recovered error is that of the base of the chain where there is one; otherwise
/// it describes the last error of the chain, with the type and the place that the chain names
/// last.
pub proof fn law_recovered_root(
    chain: StdErrorChain,
    location: Option<Seq<char>>,
    r: Error,
)
    requires
        chain.wf(),
        recovers(chain, location, r),
    ensures
        match chain.base {
            Some(base) => root_of(r) == root_of(base),
            None => {
                let info = root_info(chain.links@, location);
                &&& root_of(r).description@ == chain.links@.last().display@
                &&& root_of(r).error_type == info.typ
                &&& opt_view(root_of(r).source_location) == info.source_location
                &&& root_of(r).action_error == info.action_error
            },
        },
{
    match chain.base {
        Some(_) => {
            lemma_links_keep_root(chain.links@, 0, r);
        },
        None => {
            let init = chain.links@.drop_last();
            lemma_links_keep_root(init, 0, r);
            lemma_metadata_keeps_root(
                context_metadata(chain.links@, chain.links@.len() - 1),
                under_links(init, 0, r)->0,
            );
        },
    }
}

/// A category that an error of the chain names is part of the recovered error, unless an error above
/// it is treated as the root: an infrastructure error anywhere among the errors that are checked for
/// context makes the whole an infrastructure error.
pub proof fn law_infrastructure_error_is_kept(
    chain: StdErrorChain,
    location: Option<Seq<char>>,
    r: Error,
    i: int,
)
    requires
        chain.wf(),
        recovers(chain, location, r),
        0 <= i < chain.links@.len(),
        is_checked(chain.links@, i),
        chain.links@[i].metadata is Some,
        chain.links@[i].metadata->0.category == Some(Tier::Tier0),
    ensures
        tier_of(contexts(r)) == Some(Tier::Tier0),
{
    match chain.base {
        Some(_) => {
            lemma_links_keep_tier(chain.links@, 0, i, r);
        },
        None => {
            let init = chain.links@.drop_last();
            if i < init.len() {
                lemma_checked_prefix(chain.links@, init, i);
                lemma_links_keep_tier(init, 0, i, r);
            } else {
                let base = under_links(init, 0, r)->0;
                lemma_metadata_tier(context_metadata(chain.links@, i), base);
                lemma_links_add_tier(init, 0, r);
            }
        },
    }
}

/// The error is an infrastructure error.
pub open spec fn is_tier0(e: Error) -> bool {
    tier_of(contexts(e)) == Some(Tier::Tier0)
}

proof fn lemma_inner_tier(r: Error, c: ContextValue, inner: Error)
    requires
        *r.0 == ErrorKind::WithContext(c, inner),
    ensures
        is_tier0(inner) ==> is_tier0(r),
        c == ContextValue::Tier(Tier::Tier0) ==> is_tier0(r),
{
    lemma_tier_of(c, contexts(inner));
}

proof fn lemma_metadata_tier(metadata: Option<ProvidableMetadata>, r: Error)
    requires
        under_metadata(metadata, r) is Some,
    ensures
        is_tier0(under_metadata(metadata, r)->0) ==> is_tier0(r),
        metadata matches Some(m) ==> m.category == Some(Tier::Tier0) ==> is_tier0(r),
{
    if let Some(m) = metadata {
        let inner = under_tags(m.tags@, r)->0;
        if let Some(t) = m.category {
            let e = under_category(m.category, inner)->0;
            lemma_inner_tier(inner, ContextValue::Tier(t), e);
        }
        if m.tags@.len() > 0 {
            match *r.0 {
                ErrorKind::WithContext(c, x) => {
                    lemma_inner_tier(r, c, x);
                },
                _ => {},
            }
        }
    }
}

proof fn lemma_links_add_tier(links: Seq<StdErrorLink>, n: int, r: Error)
    requires
        0 <= n,
        under_links(links, n, r) is Some,
        is_tier0(under_links(links, n, r)->0),
    ensures
        is_tier0(r),
    decreases links.len() - n,
{
    if n < links.len() {
        let shown = under_metadata(context_metadata(links, n), r)->0;
        let below = under_message(links[n].display@, shown)->0;
        lemma_links_add_tier(links, n + 1, below);
        match *shown.0 {
            ErrorKind::WithContext(c, x) => {
                lemma_inner_tier(shown, c, x);
            },
            _ => {},
        }
        lemma_metadata_tier(context_metadata(links, n), r);
    }
}

proof fn lemma_links_keep_tier(links: Seq<StdErrorLink>, n: int, i: int, r: Error)
    requires
        0 <= n <= i < links.len(),
        is_checked(links, i),
        under_links(links, n, r) is Some,
        links[i].metadata is Some,
        links[i].metadata->0.category == Some(Tier::Tier0),
    ensures
        is_tier0(r),
    decreases links.len() - n,
{
    assert(is_checked(links, n));
    let shown = under_metadata(context_metadata(links, n), r)->0;
    let below = under_message(links[n].display@, shown)->0;
    if n < i {
        lemma_links_keep_tier(links, n + 1, i, below);
        match *shown.0 {
            ErrorKind::WithContext(c, x) => {
                lemma_inner_tier(shown, c, x);
            },
            _ => {},
        }
    }
    lemma_metadata_tier(context_metadata(links, n), r);
}

/// Link number `i` is checked for context, and its metadata names the tag.
pub open spec fn gives_tag(links: Seq<StdErrorLink>, i: int, tag: ErrorTag) -> bool {
    &&& 0 <= i < links.len()
    &&& context_metadata(links, i) matches Some(m)
    &&& m.tags@.contains(tag)
}

proof fn lemma_metadata_tags(metadata: Option<ProvidableMetadata>, r: Error, tag: ErrorTag)
    requires
        under_metadata(metadata, r) is Some,
    ensures
        has_tag(contexts(r), tag) <==> has_tag(contexts(under_metadata(metadata, r)->0), tag) || (
        metadata matches Some(m) && m.tags@.contains(tag)),
{
    if let Some(m) = metadata {
        let inner = under_tags(m.tags@, r)->0;
        let e = under_category(m.category, inner)->0;
        if m.tags@.len() > 0 {
            match *r.0 {
                ErrorKind::WithContext(c, x) => {
                    lemma_has_tag(c, contexts(x), tag);
                },
                _ => {},
            }
        }
        if m.category is Some {
            match *inner.0 {
                ErrorKind::WithContext(c, x) => {
                    lemma_has_tag(c, contexts(x), tag);
                },
                _ => {},
            }
        }
    }
}

proof fn lemma_links_tags(links: Seq<StdErrorLink>, n: int, r: Error, tag: ErrorTag)
    requires
        0 <= n,
        under_links(links, n, r) is Some,
    ensures
        has_tag(contexts(r), tag) <==> has_tag(contexts(under_links(links, n, r)->0), tag) || exists|
            i: int,
        |
            n <= i && #[trigger] gives_tag(links, i, tag),
    decreases links.len() - n,
{
    if n < links.len() {
        let metadata = context_metadata(links, n);
        let shown = under_metadata(metadata, r)->0;
        lemma_metadata_tags(metadata, r, tag);
        let below = under_message(links[n].display@, shown)->0;
        match *shown.0 {
            ErrorKind::WithContext(c, x) => {
                lemma_has_tag(c, contexts(x), tag);
            },
            _ => {},
        }
        lemma_links_tags(links, n + 1, below, tag);
        if metadata matches Some(m) && m.tags@.contains(tag) {
            assert(gives_tag(links, n, tag));
        }
        if exists|i: int| n <= i && #[trigger] gives_tag(links, i, tag) {
            let i = choose|i: int| n <= i && #[trigger] gives_tag(links, i, tag);
            if i > n {
                assert(n + 1 <= i && gives_tag(links, i, tag));
            }
        }
    }
}

/// The tags of a recovered error are those of its base and those of the errors that are checked for
/// context. What stands below an error that names a type gives none.
pub proof fn law_tags_come_from_checked_errors(
    chain: StdErrorChain,
    location: Option<Seq<char>>,
    r: Error,
    tag: ErrorTag,
)
    requires
        chain.wf(),
        recovers(chain, location, r),
    ensures
        has_tag(contexts(r), tag) <==> (chain.base matches Some(base) && has_tag(
            contexts(base),
            tag,
        )) || exists|i: int| #[trigger] gives_tag(chain.links@, i, tag),
        forall|k: int, i: int|
            0 <= k < i && is_root_like(#[trigger] chain.links@[k]) ==> !#[trigger] gives_tag(
                chain.links@,
                i,
                tag,
            ),
{
    let links = chain.links@;
    match chain.base {
        Some(base) => {
            lemma_links_tags(links, 0, r, tag);
            if exists|i: int| #[trigger] gives_tag(links, i, tag) {
                let i = choose|i: int| #[trigger] gives_tag(links, i, tag);
                assert(0 <= i && gives_tag(links, i, tag));
            }
        },
        None => {
            let init = links.drop_last();
            let last = links.len() - 1;
            let base = under_links(init, 0, r)->0;
            let root = under_metadata(context_metadata(links, last), base)->0;
            lemma_links_tags(init, 0, r, tag);
            lemma_metadata_tags(context_metadata(links, last), base, tag);
            assert(!has_tag(contexts(root), tag));
            assert forall|i: int| 0 <= i < last implies gives_tag(init, i, tag) == gives_tag(
                links,
                i,
                tag,
            ) by {
                lemma_checked_prefix(links, init, i);
            }
            if exists|i: int| #[trigger] gives_tag(links, i, tag) {
                let i = choose|i: int| #[trigger] gives_tag(links, i, tag);
                if i < last {
                    assert(0 <= i && gives_tag(init, i, tag));
                }
            }
            if exists|i: int| 0 <= i && #[trigger] gives_tag(init, i, tag) {
                let i = choose|i: int| 0 <= i && #[trigger] gives_tag(init, i, tag);
                assert(gives_tag(links, i, tag));
            }
            if context_metadata(links, last) matches Some(m) && m.tags@.contains(tag) {
                assert(gives_tag(links, last, tag));
            }
        },
    }
}

/// How the errors of a chain are shown.
pub open spec fn displays(links: Seq<StdErrorLink>) -> Seq<Seq<char>> {
    Seq::new(links.len(), |i: int| links[i].display@)
}

proof fn lemma_metadata_messages(metadata: Option<ProvidableMetadata>, r: Error)
    requires
        under_metadata(metadata, r) is Some,
    ensures
        messages_of(r) == messages_of(under_metadata(metadata, r)->0),
{
    if let Some(m) = metadata {
        let inner = under_tags(m.tags@, r)->0;
        assert(messages_of(r) == messages_of(inner));
        let e = under_category(m.category, inner)->0;
        assert(messages_of(inner) == messages_of(e));
    }
}

proof fn lemma_links_messages(links: Seq<StdErrorLink>, n: int, r: Error)
    requires
        0 <= n <= links.len(),
        under_links(links, n, r) is Some,
    ensures
        messages_of(r) == displays(links).skip(n) + messages_of(under_links(links, n, r)->0),
    decreases links.len() - n,
{
    if n < links.len() {
        let metadata = context_metadata(links, n);
        let shown = under_metadata(metadata, r)->0;
        lemma_metadata_messages(metadata, r);
        let below = under_message(links[n].display@, shown)->0;
        lemma_links_messages(links, n + 1, below);
        assert(messages_of(shown) == seq![links[n].display@] + messages_of(below));
        assert(displays(links).skip(n) =~= seq![links[n].display@] + displays(links).skip(n + 1));
        assert(messages_of(r) =~= displays(links).skip(n) + messages_of(
            under_links(links, n, r)->0,
        ));
    } else {
        assert(messages_of(r) =~= displays(links).skip(n) + messages_of(r));
    }
}

/// Every error of a chain is shown in what is recovered of it, in the order of the chain, whether or
/// not it is checked for context.
pub proof fn law_every_message_is_shown(
    chain: StdErrorChain,
    location: Option<Seq<char>>,
    r: Error,
)
    requires
        chain.wf(),
        recovers(chain, location, r),
    ensures
        messages_of(r) == displays(chain.links@) + (match chain.base {
            Some(base) => messages_of(base),
            None => Seq::empty(),
        }),
{
    let links = chain.links@;
    match chain.base {
        Some(_) => {
            lemma_links_messages(links, 0, r);
            assert(displays(links).skip(0) =~= displays(links));
        },
        None => {
            let init = links.drop_last();
            let base = under_links(init, 0, r)->0;
            lemma_links_messages(init, 0, r);
            lemma_metadata_messages(context_metadata(links, links.len() - 1), base);
            assert(messages_of(base) =~= seq![links.last().display@]);
            assert(messages_of(r) =~= displays(links) + Seq::<Seq<char>>::empty());
        },
    }
}

/// The type of an error is set when the error is made: no context, and no emission, changes the root
/// of an error.
pub proof fn law_context_keeps_the_root(e: Error, context: ContextValue, late_format: String)
    ensures
        root_of(Error(Arc::new(ErrorKind::WithContext(context, e)))) == root_of(e),
        root_of(Error(Arc::new(ErrorKind::Emitted(late_format, e)))) == root_of(e),
{
}

/// A context is added around an error: all that was known of the error stays, and what the context
/// says comes first. That an error was emitted changes nothing of that.
pub proof fn law_context_is_added_around(e: Error, context: ContextValue, r: Error, late_format: String)
    requires
        *r.0 == ErrorKind::WithContext(context, e),
    ensures
        contexts(r) == seq![context] + contexts(e),
        root_of(r) == root_of(e),
        context is Dyn ==> messages_of(r) == seq![context->Dyn_0@] + messages_of(e),
        context is Typed ==> messages_of(r) == seq![context->display@] + messages_of(e),
        context is Tier || context is Tags ==> messages_of(r) == messages_of(e),
        contexts(Error(Arc::new(ErrorKind::Emitted(late_format, e)))) == contexts(e),
        messages_of(Error(Arc::new(ErrorKind::Emitted(late_format, e)))) == messages_of(e),
{
}

/// A root has no context, and its description is its only message.
pub proof fn law_root_stands_alone(root: ErrorRoot)
    ensures
        root_of(Error(Arc::new(ErrorKind::Root(root)))) == root,
        contexts(Error(Arc::new(ErrorKind::Root(root)))).len() == 0,
        messages_of(Error(Arc::new(ErrorKind::Root(root)))) == seq![root.description@],
{
}

/// Whose fault an error is: of the infrastructure if any context says so, of the input if any says
/// that and none the other, and unknown where none says anything.
pub proof fn law_whose_fault_an_error_is(cs: Seq<ContextValue>, i: int)
    ensures
        0 <= i < cs.len() && cs[i] == ContextValue::Tier(Tier::Tier0) ==> tier_of(cs) == Some(
            Tier::Tier0,
        ),
        0 <= i < cs.len() && cs[i] == ContextValue::Tier(Tier::Input) ==> tier_of(cs) is Some,
        tier_of(cs) is Some ==> exists|k: int|
            0 <= k < cs.len() && #[trigger] cs[k] == ContextValue::Tier(tier_of(cs)->0),
        (forall|k: int| 0 <= k < cs.len() ==> !((#[trigger] cs[k]) is Tier)) ==> tier_of(cs) is None,
{
}

/// An error has the tags that its contexts give it, all of them and no others.
pub proof fn law_tags_of_an_error(cs: Seq<ContextValue>, i: int, j: int, tag: ErrorTag)
    ensures
        0 <= i < cs.len() && cs[i] is Tags && 0 <= j < cs[i]->Tags_0@.len() ==> has_tag(
            cs,
            cs[i]->Tags_0@[j],
        ),
        has_tag(cs, tag) ==> exists|k: int|
            0 <= k < cs.len() && (#[trigger] cs[k]) is Tags && cs[k]->Tags_0@.contains(tag),
{
    if 0 <= i < cs.len() && cs[i] is Tags && 0 <= j < cs[i]->Tags_0@.len() {
        assert(cs[i]->Tags_0@.contains(cs[i]->Tags_0@[j]));
    }
}

/// Tags are listed once each, in the order of their numbers, which tell them apart.
pub proof fn law_tags_are_listed_once(tags: Seq<ErrorTag>, i: int, j: int)
    requires
        ordered_tags(tags),
        0 <= i < j < tags.len(),
    ensures
        tags[i] != tags[j],
        tag_number(tags[i]) < tag_number(tags[j]),
{
}

/// A recovered root has the type that the innermost error with a type names.
pub proof fn law_innermost_type_counts(
    links: Seq<StdErrorLink>,
    location: Option<Seq<char>>,
    i: int,
)
    requires
        0 <= i < links.len(),
        links[i].metadata is Some,
        links[i].metadata->0.typ is Some,
        forall|k: int|
            i < k < links.len() && (#[trigger] links[k]).metadata is Some
                ==> links[k].metadata->0.typ is None,
    ensures
        root_info(links, location).typ == links[i].metadata->0.typ,
    decreases links.len(),
{
    if i < links.len() - 1 {
        let init = links.drop_last();
        assert(links[links.len() - 1] == links.last());
        assert forall|k: int| i < k < init.len() && (#[trigger] init[k]).metadata is Some implies
            init[k].metadata->0.typ is None by {
            assert(init[k] == links[k]);
        }
        law_innermost_type_counts(init, location, i);
    }
}

/// A recovered root has the action error that the innermost error with one names.
pub proof fn law_innermost_action_error_counts(
    links: Seq<StdErrorLink>,
    location: Option<Seq<char>>,
    i: int,
)
    requires
        0 <= i < links.len(),
        links[i].metadata is Some,
        links[i].metadata->0.action_error is Some,
        forall|k: int|
            i < k < links.len() && (#[trigger] links[k]).metadata is Some
                ==> links[k].metadata->0.action_error is None,
    ensures
        root_info(links, location).action_error == links[i].metadata->0.action_error,
    decreases links.len(),
{
    if i < links.len() - 1 {
        let init = links.drop_last();
        assert(links[links.len() - 1] == links.last());
        assert forall|k: int| i < k < init.len() && (#[trigger] init[k]).metadata is Some implies
            init[k].metadata->0.action_error is None by {
            assert(init[k] == links[k]);
        }
        law_innermost_action_error_counts(init, location, i);
    }
}

/// A recovered root was made where the innermost error that says anything of itself was made.
pub proof fn law_innermost_place_counts(
    links: Seq<StdErrorLink>,
    location: Option<Seq<char>>,
    i: int,
)
    requires
        0 <= i < links.len(),
        links[i].metadata is Some,
        forall|k: int| i < k < links.len() ==> (#[trigger] links[k]).metadata is None,
    ensures
        root_info(links, location).source_location == location_text(
            links[i].metadata->0.source_file@,
            opt_view(links[i].metadata->0.source_location_extra),
        ),
    decreases links.len(),
{
    if i < links.len() - 1 {
        let init = links.drop_last();
        assert(links[links.len() - 1] == links.last());
        assert forall|k: int| i < k < init.len() implies (#[trigger] init[k]).metadata is None by {
            assert(init[k] == links[k]);
        }
        law_innermost_place_counts(init, location, i);
    }
}

/// Where no error says anything of itself, a recovered root has no type and no action error, and the
/// place that it was given.
pub proof fn law_silent_errors_say_nothing(links: Seq<StdErrorLink>, location: Option<Seq<char>>)
    requires
        forall|k: int| 0 <= k < links.len() ==> (#[trigger] links[k]).metadata is None,
    ensures
        root_info(links, location).source_location == location,
        root_info(links, location).typ is None,
        root_info(links, location).action_error is None,
    decreases links.len(),
{
    if links.len() > 0 {
        let init = links.drop_last();
        assert(links[links.len() - 1].metadata is None);
        assert forall|k: int| 0 <= k < init.len() implies (#[trigger] init[k]).metadata is None by {
            assert(init[k] == links[k]);
        }
        law_silent_errors_say_nothing(init, location);
    }
}

/// The place where an error was made is its file below the first directory `app`, followed by what
/// else is known of it; a file that lies in no such directory is not named.
pub proof fn law_place_of_an_error(a: Seq<char>, file: Seq<char>, extra: Seq<char>)
    ensures
        location_text("app/"@ + file, None) == Some(file),
        location_text("app/"@ + file, Some(extra)) == Some(file + "::"@ + extra),
        !text::has_prefix(a + "/app/"@ + file, "app/"@) && (forall|k: int|
            0 <= k < a.len() ==> !#[trigger] text::occurs_at(a + "/app/"@ + file, "/app/"@, k))
            ==> location_text(a + "/app/"@ + file, None) == Some(file) && location_text(
            a + "/app/"@ + file,
            Some(extra),
        ) == Some(file + "::"@ + extra),
        !text::has_prefix(a, "app/"@) && !text::occurs(a, "/app/"@) ==> location_text(a, None) is None
            && location_text(a, Some(extra)) is None,
{
    reveal_strlit("app/");
    reveal_strlit("/app/");
    let p = "app/"@ + file;
    text::law_beginnings_and_ends(p, "app/"@, file);
    assert(p.skip(4) =~= file);
    let q = a + "/app/"@ + file;
    if !text::has_prefix(q, "app/"@) && (forall|k: int|
        0 <= k < a.len() ==> !#[trigger] text::occurs_at(q, "/app/"@, k)) {
        text::law_where_a_text_occurs(a, "/app/"@, file, q, a.len() as int);
        let at = first_occurrence(q, "/app/"@);
        assert(text::occurs_at(q, "/app/"@, a.len() as int));
        assert(text::occurs_at(q, "/app/"@, at));
        assert(at == a.len());
        assert(q.skip(at + 5) =~= file);
    }
}

} // verus!
