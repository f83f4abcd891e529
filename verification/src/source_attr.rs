//! Attributes whose values are sources: labels of targets, or paths of files.
use vstd::prelude::*;
use vstd::string::*;

use crate::text;

verus! {

/// `s` without one `prefix` in front.
pub open spec fn without_prefix(s: Seq<char>, prefix: Seq<char>) -> Seq<char> {
    if text::has_prefix(s, prefix) {
        s.subrange(prefix.len() as int, s.len() as int)
    } else {
        s
    }
}

/// `s` without one `suffix` at its end.
pub open spec fn without_suffix(s: Seq<char>, suffix: Seq<char>) -> Seq<char> {
    if text::has_suffix(s, suffix) {
        s.subrange(0, s.len() - suffix.len())
    } else {
        s
    }
}

/// A path without what users often type around it and what does not matter.
pub open spec fn cleaned_path(value: Seq<char>) -> Seq<char> {
    let s = without_suffix(without_prefix(value, "./"@), "/"@);
    if s == "."@ {
        Seq::empty()
    } else {
        s
    }
}

/// A path without what users often type around it and what does not matter.
pub fn cleanup_path(value: &str) -> (r: &str)
    ensures
        r@ == cleaned_path(value@),
{
    let value = match text::strip_prefix(value, "./") {
        Some(rest) => rest,
        None => value,
    };
    let value = match text::strip_suffix(value, "/") {
        Some(rest) => rest,
        None => value,
    };
    if text::str_eq(value, ".") {
        let empty = value.substring_char(0, 0);
        assert(empty@ =~= Seq::empty());
        empty
    } else {
        value
    }
}

/// A value of the attribute. `L` is a label, `F` the path of a file.
#[derive(Debug)]
pub enum CoercedSource<L, F> {
    SourceLabel(L),
    SourceFile(F),
}

/// Why a value is no source.
#[derive(Debug)]
pub enum SourceCoercionError {
    /// The value is not a string, but of this type.
    NotAString(String),
    /// The value, and why it is neither a label nor a path.
    CoercionFailed(String, String, String),
}

/// The message of an error about a value that is neither a label nor a path.
pub open spec fn coercion_failed_text(
    value: Seq<char>,
    label_error: Seq<char>,
    path_error: Seq<char>,
) -> Seq<char> {
    "Couldn't coerce `"@ + value + "` as a source.\n  Error when treated as a target: "@
        + label_error + "\n  Error when treated as a path: "@ + path_error
}

impl SourceCoercionError {
    /// The message shown for a value that is neither a label nor a path.
    pub fn message(&self) -> (r: Option<String>)
        ensures
            match (*self, r) {
                (SourceCoercionError::CoercionFailed(v, l, p), Some(m)) => m@
                    == coercion_failed_text(v@, l@, p@),
                (SourceCoercionError::NotAString(_), None) => true,
                _ => false,
            },
    {
        match self {
            SourceCoercionError::CoercionFailed(v, l, p) => {
                let head = text::concat4(
                    "Couldn't coerce `",
                    v.as_str(),
                    "` as a source.\n  Error when treated as a target: ",
                    l.as_str(),
                );
                Some(
                    text::concat3(
                        head.as_str(),
                        "\n  Error when treated as a path: ",
                        p.as_str(),
                    ),
                )
            },
            SourceCoercionError::NotAString(_) => None,
        }
    }
}

/// The value that is to become a source.
#[derive(Debug)]
pub enum SourceValue {
    Str(String),
    /// Anything else, by its type.
    Other(String),
}

/// An attribute for sources.
#[derive(Clone, Copy, Debug, PartialEq, Eq, Structural)]
pub struct SourceAttrType {
    pub allow_directory: bool,
}

/// What is tried next.
#[derive(Debug)]
pub enum SourceStep<L, F> {
    Done(Result<CoercedSource<L, F>, SourceCoercionError>),
    /// Take this as a path, which may be a directory if so said.
    TryPath { path: String, allow_directory: bool },
}

impl SourceAttrType {
    /// A string is taken as a label first. `label` is what that came to; it is not looked at for
    /// a value that is no string.
    pub fn coerce_item<L, F>(&self, value: &SourceValue, label: Result<L, String>) -> (r: SourceStep<
        L,
        F,
    >)
        ensures
            match (*value, label) {
                (SourceValue::Other(typ), _) => r == SourceStep::<L, F>::Done(
                    Err(SourceCoercionError::NotAString(typ)),
                ),
                (SourceValue::Str(_), Ok(l)) => r == SourceStep::<L, F>::Done(
                    Ok(CoercedSource::SourceLabel(l)),
                ),
                (SourceValue::Str(s), Err(_)) => {
                    &&& r matches SourceStep::TryPath { path, allow_directory }
                    &&& path@ == cleaned_path(s@)
                    &&& allow_directory == self.allow_directory
                },
            },
    {
        match value {
            SourceValue::Other(typ) => SourceStep::Done(
                Err(SourceCoercionError::NotAString(typ.clone())),
            ),
            SourceValue::Str(s) => match label {
                Ok(l) => SourceStep::Done(Ok(CoercedSource::SourceLabel(l))),
                Err(_) => SourceStep::TryPath {
                    path: cleanup_path(s.as_str()).to_owned(),
                    allow_directory: self.allow_directory,
                },
            },
        }
    }

    /// What a string comes to that is no label, once it was taken as a path.
    pub fn coerce_path<L, F>(
        &self,
        value: &String,
        label_error: String,
        path: Result<F, String>,
    ) -> (r: Result<CoercedSource<L, F>, SourceCoercionError>)
        ensures
            r == (match path {
                Ok(p) => Ok::<CoercedSource<L, F>, SourceCoercionError>(
                    CoercedSource::SourceFile(p),
                ),
                Err(e) => Err(SourceCoercionError::CoercionFailed(*value, label_error, e)),
            }),
    {
        match path {
            Ok(p) => Ok(CoercedSource::SourceFile(p)),
            Err(e) => Err(SourceCoercionError::CoercionFailed(value.clone(), label_error, e)),
        }
    }

    /// The type of a value that is accepted.
    pub fn starlark_type(&self) -> (r: &'static str)
        ensures
            r@ == "string"@,
    {
        "string"
    }
}

/// The path of a source is cleaned of one step in place before it and one separator behind it, and
/// stays as it is without them.
pub proof fn law_paths_are_cleaned(path: Seq<char>)
    requires
        path != seq!['.'],
        path.len() > 0,
    ensures
        path.last() != '/' ==> cleaned_path(seq!['.', '/'] + path) == path,
        path.last() != '/' ==> cleaned_path(seq!['.', '/'] + path + seq!['/']) == path,
        path.len() < 2 || path[0] != '.' || path[1] != '/' ==> (path.last() != '/' ==> cleaned_path(
            path,
        ) == path) && (path + seq!['/'] != seq!['.', '/'] ==> cleaned_path(path + seq!['/'])
            == path),
{
    reveal_strlit("./");
    reveal_strlit("/");
    reveal_strlit(".");
    let pre = seq!['.', '/'];
    let post = seq!['/'];
    assert("./"@ =~= pre);
    assert("/"@ =~= post);
    assert("."@ =~= seq!['.']);
    let a = pre + path;
    let b = a + post;
    let c = path + post;
    assert(text::has_prefix(a, pre) && text::has_prefix(b, pre)) by {
        assert(a.subrange(0, 2) =~= pre);
        assert(b.subrange(0, 2) =~= pre);
    }
    assert(a.subrange(2, a.len() as int) =~= path);
    assert(b.subrange(2, b.len() as int) =~= c);
    assert(text::has_suffix(c, post)) by {
        assert(c.subrange(c.len() - 1, c.len() as int) =~= post);
    }
    assert(c.subrange(0, c.len() - 1) =~= path);
    if path.last() != '/' {
        assert(!text::has_suffix(path, post)) by {
            if text::has_suffix(path, post) {
                assert(path.subrange(path.len() - 1, path.len() as int)[0] == path.last());
            }
        }
    }
    if path.len() < 2 || path[0] != '.' || path[1] != '/' {
        assert(!text::has_prefix(path, pre)) by {
            if text::has_prefix(path, pre) {
                assert(path.subrange(0, 2)[0] == path[0]);
                assert(path.subrange(0, 2)[1] == path[1]);
            }
        }
        if c != pre {
            assert(!text::has_prefix(c, pre)) by {
                if text::has_prefix(c, pre) {
                    assert(c.subrange(0, 2)[0] == c[0]);
                    assert(c.subrange(0, 2)[1] == c[1]);
                    if path.len() == 1 {
                        assert(c =~= pre);
                    }
                }
            }
        }
    }
}

/// The place itself is the empty path.
pub proof fn law_place_itself_is_empty()
    ensures
        cleaned_path(seq!['.']) == Seq::<char>::empty(),
        cleaned_path(seq!['.', '/']) == Seq::<char>::empty(),
        cleaned_path(Seq::empty()) == Seq::<char>::empty(),
{
    reveal_strlit("./");
    reveal_strlit("/");
    reveal_strlit(".");
    let d = seq!['.', '/'];
    assert("./"@ =~= d);
    assert("."@ =~= seq!['.']);
    assert(text::has_prefix(d, "./"@)) by {
        assert(d.subrange(0, 2) =~= d);
    }
    assert(d.subrange(2, 2) =~= Seq::<char>::empty());
}

/// What cannot be a source is reported with why it is neither a target nor a path.
pub proof fn law_message_of_a_bad_source(
    value: Seq<char>,
    label_error: Seq<char>,
    path_error: Seq<char>,
)
    ensures
        coercion_failed_text(value, label_error, path_error) == "Couldn't coerce `"@ + value
            + "` as a source.\n  Error when treated as a target: "@ + label_error
            + "\n  Error when treated as a path: "@ + path_error,
{
}

} // verus!
