//! Configured targets as a FlatBuffers buffer, for explaining a build.
use vstd::prelude::*;
use vstd::string::*;

use crate::labels::ConfiguredTargetLabel;
use crate::labels::TargetLabel;
use crate::labels;
use crate::text;

verus! {

/// An item of a list, a tuple or a dictionary: its value where it is a string, and how it is
/// shown.
#[derive(Debug)]
pub struct AttrItem {
    pub string: Option<String>,
    pub display: String,
}

/// A list of visibility patterns.
#[derive(Debug)]
pub enum VisibilityPatternList {
    Public,
    List(Vec<String>),
}

/// The value of an attribute of a configured target. What is shown as text only is held as that
/// text.
#[derive(Debug)]
pub enum ConfiguredAttr {
    Bool(bool),
    String(String),
    List(Vec<AttrItem>),
    /// The value `None`.
    Nothing,
    Visibility(VisibilityPatternList),
    Int(i64),
    EnumVariant(String),
    Tuple(Vec<AttrItem>),
    Dict(Vec<(AttrItem, AttrItem)>),
    /// A value, and which of the accepted types it has.
    OneOf(Box<ConfiguredAttr>, u32),
    WithinView(VisibilityPatternList),
    ExplicitConfiguredDep(String),
    SplitTransitionDep(String),
    ConfigurationDep(TargetLabel),
    PluginDep(TargetLabel),
    Dep(String),
    SourceLabel(String),
    Label(String),
    Arg(String),
    /// The text of a query.
    Query(String),
    /// The path of a file in the package.
    SourceFile(String),
    Metadata(String),
}

/// An attribute by the form in which it is written.
#[derive(Debug)]
pub enum AttrField {
    Bool(String, bool),
    Int(String, i64),
    String(String, String),
    StringList(String, Vec<String>),
    StringDict(String, Vec<(String, String)>),
}

/// The mathematical form of an attribute.
pub enum FieldView {
    Bool(Seq<char>, bool),
    Int(Seq<char>, i64),
    Text(Seq<char>, Seq<char>),
    List(Seq<char>, Seq<Seq<char>>),
    Dict(Seq<char>, Seq<(Seq<char>, Seq<char>)>),
}

/// The characters of each pair of strings, in order.
pub open spec fn pair_views(pairs: Seq<(String, String)>) -> Seq<(Seq<char>, Seq<char>)> {
    Seq::new(pairs.len(), |i: int| (pairs[i].0@, pairs[i].1@))
}

impl View for AttrField {
    type V = FieldView;

    open spec fn view(&self) -> FieldView {
        match *self {
            AttrField::Bool(n, v) => FieldView::Bool(n@, v),
            AttrField::Int(n, v) => FieldView::Int(n@, v),
            AttrField::String(n, v) => FieldView::Text(n@, v@),
            AttrField::StringList(n, v) => FieldView::List(n@, text::views(v@)),
            AttrField::StringDict(n, v) => FieldView::Dict(n@, pair_views(v@)),
        }
    }
}

/// `s` without the quotes at its ends.
pub open spec fn trimmed(s: Seq<char>) -> Seq<char>
    decreases s.len(),
{
    if s.len() == 0 {
        s
    } else if s[0] == '"' {
        trimmed(s.subrange(1, s.len() as int))
    } else if s.last() == '"' {
        trimmed(s.subrange(0, s.len() - 1))
    } else {
        s
    }
}

/// `s` without the quotes at its ends.
fn trim_quotes(s: &str) -> (r: String)
    ensures
        r@ == trimmed(s@),
{
    let mut from: usize = 0;
    let mut to: usize = s.unicode_len();
    proof {
        assert(s@.subrange(0, s@.len() as int) =~= s@);
    }
    while from < to
        invariant
            from <= to <= s@.len(),
            trimmed(s@.subrange(from as int, to as int)) == trimmed(s@),
        decreases to - from,
    {
        let ghost rest = s@.subrange(from as int, to as int);
        if s.get_char(from) == '"' {
            proof {
                assert(rest.subrange(1, rest.len() as int) =~= s@.subrange(from + 1, to as int));
            }
            from = from + 1;
        } else if s.get_char(to - 1) == '"' {
            proof {
                assert(rest.subrange(0, rest.len() - 1) =~= s@.subrange(from as int, to - 1));
            }
            to = to - 1;
        } else {
            return s.substring_char(from, to).to_owned();
        }
    }
    String::new()
}

/// An item as it stands in a list: a string as it is, anything else as shown, without the quotes
/// at the ends.
pub open spec fn item_text(item: AttrItem) -> Seq<char> {
    match item.string {
        Some(s) => s@,
        None => trimmed(item.display@),
    }
}

/// Items as they stand in a list.
pub open spec fn item_texts(items: Seq<AttrItem>) -> Seq<Seq<char>> {
    Seq::new(items.len(), |i: int| item_text(items[i]))
}

/// An entry of a dictionary: two strings as they are, anything else as shown, without the quotes
/// at the ends.
pub open spec fn entry_text(entry: (AttrItem, AttrItem)) -> (Seq<char>, Seq<char>) {
    match (entry.0.string, entry.1.string) {
        (Some(k), Some(v)) => (k@, v@),
        _ => (trimmed(entry.0.display@), trimmed(entry.1.display@)),
    }
}

/// Entries of a dictionary.
pub open spec fn entry_texts(entries: Seq<(AttrItem, AttrItem)>) -> Seq<(Seq<char>, Seq<char>)> {
    Seq::new(entries.len(), |i: int| entry_text(entries[i]))
}

/// A list of patterns; `PUBLIC` stands for all of them.
pub open spec fn pattern_texts(list: VisibilityPatternList) -> Seq<Seq<char>> {
    match list {
        VisibilityPatternList::Public => seq!["PUBLIC"@],
        VisibilityPatternList::List(patterns) => text::views(patterns@),
    }
}

/// In which form an attribute is written.
pub open spec fn categorized(a: ConfiguredAttr, name: Seq<char>) -> FieldView
    decreases a,
{
    match a {
        ConfiguredAttr::Bool(v) => FieldView::Bool(name, v),
        ConfiguredAttr::String(v) => FieldView::Text(name, v@),
        ConfiguredAttr::List(v) => FieldView::List(name, item_texts(v@)),
        ConfiguredAttr::Nothing => FieldView::Text(name, "null"@),
        ConfiguredAttr::Visibility(v) => FieldView::List(name, pattern_texts(v)),
        ConfiguredAttr::Int(v) => FieldView::Int(name, v),
        ConfiguredAttr::EnumVariant(v) => FieldView::Text(name, v@),
        ConfiguredAttr::Tuple(v) => FieldView::List(name, item_texts(v@)),
        ConfiguredAttr::Dict(v) => FieldView::Dict(name, entry_texts(v@)),
        ConfiguredAttr::OneOf(v, _) => categorized(*v, name),
        ConfiguredAttr::WithinView(v) => FieldView::List(name, pattern_texts(v)),
        ConfiguredAttr::ExplicitConfiguredDep(v) => FieldView::Text(name, v@),
        ConfiguredAttr::SplitTransitionDep(v) => FieldView::Text(name, v@),
        ConfiguredAttr::ConfigurationDep(v) => FieldView::Text(
            name,
            labels::target_label_text(v@),
        ),
        ConfiguredAttr::PluginDep(v) => FieldView::Text(name, labels::target_label_text(v@)),
        ConfiguredAttr::Dep(v) => FieldView::Text(name, v@),
        ConfiguredAttr::SourceLabel(v) => FieldView::Text(name, v@),
        ConfiguredAttr::Label(v) => FieldView::Text(name, v@),
        ConfiguredAttr::Arg(v) => FieldView::Text(name, v@),
        ConfiguredAttr::Query(v) => FieldView::Text(name, v@),
        ConfiguredAttr::SourceFile(v) => FieldView::Text(name, v@),
        ConfiguredAttr::Metadata(v) => FieldView::Text(name, v@),
    }
}

fn items_to_strings(items: &Vec<AttrItem>) -> (r: Vec<String>)
    ensures
        text::views(r@) == item_texts(items@),
{
    let mut list: Vec<String> = Vec::new();
    let mut i: usize = 0;
    while i < items.len()
        invariant
            i <= items@.len(),
            list@.len() == i,
            forall|k: int| 0 <= k < i ==> (#[trigger] list@[k])@ == item_text(items@[k]),
        decreases items@.len() - i,
    {
        match &items[i].string {
            Some(s) => list.push(s.clone()),
            None => list.push(trim_quotes(items[i].display.as_str())),
        }
        i = i + 1;
    }
    assert(text::views(list@) =~= item_texts(items@));
    list
}

fn entries_to_strings(entries: &Vec<(AttrItem, AttrItem)>) -> (r: Vec<(String, String)>)
    ensures
        pair_views(r@) == entry_texts(entries@),
{
    let mut list: Vec<(String, String)> = Vec::new();
    let mut i: usize = 0;
    while i < entries.len()
        invariant
            i <= entries@.len(),
            list@.len() == i,
            forall|k: int|
                0 <= k < i ==> ((#[trigger] list@[k]).0@, list@[k].1@) == entry_text(entries@[k]),
        decreases entries@.len() - i,
    {
        match (&entries[i].0.string, &entries[i].1.string) {
            (Some(k), Some(v)) => list.push((k.clone(), v.clone())),
            _ => list.push(
                (
                    trim_quotes(entries[i].0.display.as_str()),
                    trim_quotes(entries[i].1.display.as_str()),
                ),
            ),
        }
        i = i + 1;
    }
    assert(pair_views(list@) =~= entry_texts(entries@));
    list
}

fn patterns_to_strings(list: &VisibilityPatternList) -> (r: Vec<String>)
    ensures
        text::views(r@) == pattern_texts(*list),
{
    match list {
        VisibilityPatternList::Public => {
            let mut r: Vec<String> = Vec::new();
            r.push("PUBLIC".to_owned());
            assert(text::views(r@) =~= seq!["PUBLIC"@]);
            r
        },
        VisibilityPatternList::List(patterns) => text::clone_strings(patterns),
    }
}

/// In which form an attribute is written.
pub fn categorize(a: &ConfiguredAttr, name: &str) -> (r: AttrField)
    ensures
        r@ == categorized(*a, name@),
    decreases *a,
{
    let n = name.to_owned();
    match a {
        ConfiguredAttr::Bool(v) => AttrField::Bool(n, *v),
        ConfiguredAttr::String(v) => AttrField::String(n, v.clone()),
        ConfiguredAttr::List(v) => AttrField::StringList(n, items_to_strings(v)),
        ConfiguredAttr::Nothing => AttrField::String(n, "null".to_owned()),
        ConfiguredAttr::Visibility(v) => AttrField::StringList(n, patterns_to_strings(v)),
        ConfiguredAttr::Int(v) => AttrField::Int(n, *v),
        ConfiguredAttr::EnumVariant(v) => AttrField::String(n, v.clone()),
        ConfiguredAttr::Tuple(v) => AttrField::StringList(n, items_to_strings(v)),
        ConfiguredAttr::Dict(v) => AttrField::StringDict(n, entries_to_strings(v)),
        ConfiguredAttr::OneOf(v, _) => categorize(v, name),
        ConfiguredAttr::WithinView(v) => AttrField::StringList(n, patterns_to_strings(v)),
        ConfiguredAttr::ExplicitConfiguredDep(v) => AttrField::String(n, v.clone()),
        ConfiguredAttr::SplitTransitionDep(v) => AttrField::String(n, v.clone()),
        ConfiguredAttr::ConfigurationDep(v) => AttrField::String(n, v.display()),
        ConfiguredAttr::PluginDep(v) => AttrField::String(n, v.display()),
        ConfiguredAttr::Dep(v) => AttrField::String(n, v.clone()),
        ConfiguredAttr::SourceLabel(v) => AttrField::String(n, v.clone()),
        ConfiguredAttr::Label(v) => AttrField::String(n, v.clone()),
        ConfiguredAttr::Arg(v) => AttrField::String(n, v.clone()),
        ConfiguredAttr::Query(v) => AttrField::String(n, v.clone()),
        ConfiguredAttr::SourceFile(v) => AttrField::String(n, v.clone()),
        ConfiguredAttr::Metadata(v) => AttrField::String(n, v.clone()),
    }
}

/// A configured target, as far as it is explained.
#[derive(Debug)]
pub struct ExplainedNode {
    pub name: String,
    pub label: ConfiguredTargetLabel,
    pub oncall: Option<String>,
    pub rule_type: String,
    pub buildfile_path: String,
    pub target_configuration: String,
    /// The execution platform by its name, or why there is none.
    pub execution_platform: Result<String, String>,
    pub deps: Vec<ConfiguredTargetLabel>,
    /// The kinds of plugins of the target.
    pub plugin_kinds: Vec<String>,
    /// The attributes that are defined, in order.
    pub attrs: Vec<(String, ConfiguredAttr)>,
}

/// The attributes that are written: all but the name.
pub open spec fn written_attrs(attrs: Seq<(String, ConfiguredAttr)>) -> Seq<FieldView>
    decreases attrs.len(),
{
    if attrs.len() == 0 {
        Seq::empty()
    } else {
        let rest = written_attrs(attrs.drop_last());
        let a = attrs.last();
        if a.0@ == "name"@ {
            rest
        } else {
            rest.push(categorized(a.1, a.0@))
        }
    }
}

/// The mathematical forms of attributes.
pub open spec fn field_views(fields: Seq<AttrField>) -> Seq<FieldView> {
    Seq::new(fields.len(), |i: int| fields[i]@)
}

/// The labels of dependencies as they are shown.
pub open spec fn dep_texts(deps: Seq<ConfiguredTargetLabel>) -> Seq<Seq<char>> {
    Seq::new(deps.len(), |i: int| labels::configured_label_text(deps[i]@))
}

/// The attributes that are written: all but the name.
pub fn written_fields(attrs: &Vec<(String, ConfiguredAttr)>) -> (r: Vec<AttrField>)
    ensures
        field_views(r@) == written_attrs(attrs@),
{
    let mut out: Vec<AttrField> = Vec::new();
    let mut i: usize = 0;
    proof {
        assert(attrs@.take(0) =~= Seq::empty());
        assert(field_views(out@) =~= Seq::empty());
    }
    while i < attrs.len()
        invariant
            i <= attrs@.len(),
            field_views(out@) == written_attrs(attrs@.take(i as int)),
        decreases attrs@.len() - i,
    {
        let ghost before = out@;
        if !text::str_eq(attrs[i].0.as_str(), "name") {
            out.push(categorize(&attrs[i].1, attrs[i].0.as_str()));
        }
        proof {
            let next = attrs@.take(i + 1);
            assert(next.drop_last() =~= attrs@.take(i as int));
            assert(next.last() == attrs@[i as int]);
            if attrs@[i as int].0@ != "name"@ {
                assert(field_views(out@) =~= field_views(before).push(out@.last()@));
            }
        }
        i = i + 1;
    }
    assert(attrs@.take(attrs@.len() as int) =~= attrs@);
    out
}

/// The labels of dependencies as they are shown.
pub fn dep_strings(deps: &Vec<ConfiguredTargetLabel>) -> (r: Vec<String>)
    ensures
        text::views(r@) == dep_texts(deps@),
{
    let mut out: Vec<String> = Vec::new();
    let mut i: usize = 0;
    while i < deps.len()
        invariant
            i <= deps@.len(),
            out@.len() == i,
            forall|k: int|
                0 <= k < i ==> (#[trigger] out@[k])@ == labels::configured_label_text(deps@[k]@),
        decreases deps@.len() - i,
    {
        out.push(deps[i].display());
        i = i + 1;
    }
    assert(text::views(out@) =~= dep_texts(deps@));
    out
}

/// A list, a tuple and a dictionary are written with all their items, in order: each that is a
/// string as it is. A value of one of several types is written as that value is.
pub proof fn law_no_item_is_lost(a: ConfiguredAttr, name: Seq<char>, i: int)
    ensures
        a is List ==> {
            let items = a->List_0@;
            let f = categorized(a, name);
            &&& f is List && f->List_0 == name && f->List_1.len() == items.len()
            &&& 0 <= i < items.len() && items[i].string is Some ==> f->List_1[i]
                == items[i].string->0@
        },
        a is Tuple ==> {
            let items = a->Tuple_0@;
            let f = categorized(a, name);
            &&& f is List && f->List_0 == name && f->List_1.len() == items.len()
            &&& 0 <= i < items.len() && items[i].string is Some ==> f->List_1[i]
                == items[i].string->0@
        },
        a is Dict ==> {
            let entries = a->Dict_0@;
            let f = categorized(a, name);
            &&& f is Dict && f->Dict_0 == name && f->Dict_1.len() == entries.len()
            &&& 0 <= i < entries.len() && entries[i].0.string is Some
                && entries[i].1.string is Some ==> f->Dict_1[i] == (
                entries[i].0.string->0@,
                entries[i].1.string->0@,
            )
        },
        a is OneOf ==> categorized(a, name) == categorized(*a->OneOf_0, name),
{
}

proof fn lemma_trimmed(s: Seq<char>, t: Seq<char>)
    requires
        t == trimmed(s),
    ensures
        t.len() > 0 ==> t[0] != '"' && t.last() != '"',
        exists|from: int, to: int| #[trigger] is_middle(s, t, from, to),
    decreases s.len(),
{
    if s.len() == 0 {
        assert(s.subrange(0, 0) =~= s);
        assert(is_middle(s, t, 0, 0));
    } else if s[0] == '"' {
        let rest = s.subrange(1, s.len() as int);
        lemma_trimmed(rest, t);
        let (from, to) = choose|from: int, to: int| #[trigger] is_middle(rest, t, from, to);
        assert(rest.subrange(from, to) =~= s.subrange(from + 1, to + 1));
        assert forall|k: int| 0 <= k < from + 1 implies s[k] == '"' by {
            if k > 0 {
                assert(rest[k - 1] == s[k]);
            }
        }
        assert forall|k: int| to + 1 <= k < s.len() implies s[k] == '"' by {
            assert(rest[k - 1] == s[k]);
        }
        assert(is_middle(s, t, from + 1, to + 1));
    } else if s.last() == '"' {
        let rest = s.subrange(0, s.len() - 1);
        lemma_trimmed(rest, t);
        let (from, to) = choose|from: int, to: int| #[trigger] is_middle(rest, t, from, to);
        assert(rest.subrange(from, to) =~= s.subrange(from, to));
        assert forall|k: int| 0 <= k < from implies s[k] == '"' by {
            assert(rest[k] == s[k]);
        }
        assert forall|k: int| to <= k < s.len() implies s[k] == '"' by {
            if k < s.len() - 1 {
                assert(rest[k] == s[k]);
            }
        }
        assert(is_middle(s, t, from, to));
    } else {
        assert(s.subrange(0, s.len() as int) =~= s);
        assert(is_middle(s, t, 0, s.len() as int));
    }
}

/// `t` is what stands in `s` from `from` up to `to`, and around it are quotes alone.
pub open spec fn is_middle(s: Seq<char>, t: Seq<char>, from: int, to: int) -> bool {
    &&& 0 <= from <= to <= s.len()
    &&& t == s.subrange(from, to)
    &&& forall|k: int| 0 <= k < from ==> #[trigger] s[k] == '"'
    &&& forall|k: int| to <= k < s.len() ==> #[trigger] s[k] == '"'
}

/// An item that is no string is written as it is shown, but for the quotes at its ends, which all
/// go.
pub proof fn law_other_items_are_written_as_shown(
    a: ConfiguredAttr,
    name: Seq<char>,
    i: int,
)
    requires
        a is List && 0 <= i < a->List_0@.len() && a->List_0@[i].string is None,
    ensures
        ({
            let shown = a->List_0@[i].display@;
            let t = categorized(a, name)->List_1[i];
            &&& t.len() > 0 ==> t[0] != '"' && t.last() != '"'
            &&& exists|from: int, to: int| #[trigger] is_middle(shown, t, from, to)
        }),
{
    lemma_trimmed(a->List_0@[i].display@, categorized(a, name)->List_1[i]);
}

/// The same of an entry of a dictionary in which not both sides are strings.
pub proof fn law_other_entries_are_written_as_shown(
    a: ConfiguredAttr,
    name: Seq<char>,
    i: int,
)
    requires
        a is Dict && 0 <= i < a->Dict_0@.len(),
        a->Dict_0@[i].0.string is None || a->Dict_0@[i].1.string is None,
    ensures
        ({
            let entry = a->Dict_0@[i];
            let t = categorized(a, name)->Dict_1[i];
            &&& t.0.len() > 0 ==> t.0[0] != '"' && t.0.last() != '"'
            &&& t.1.len() > 0 ==> t.1[0] != '"' && t.1.last() != '"'
            &&& exists|from: int, to: int| #[trigger] is_middle(entry.0.display@, t.0, from, to)
            &&& exists|from: int, to: int| #[trigger] is_middle(entry.1.display@, t.1, from, to)
        }),
{
    let t = categorized(a, name)->Dict_1[i];
    lemma_trimmed(a->Dict_0@[i].0.display@, t.0);
    lemma_trimmed(a->Dict_0@[i].1.display@, t.1);
}

/// Numbers, truth values and strings are written as they are, under the name of the attribute, and
/// so is everything that is held as the text by which it is shown.
pub proof fn law_plain_values_are_written_as_they_are(a: ConfiguredAttr, name: Seq<char>)
    ensures
        a is Bool ==> categorized(a, name) == FieldView::Bool(name, a->Bool_0),
        a is Int ==> categorized(a, name) == FieldView::Int(name, a->Int_0),
        a is String ==> categorized(a, name) == FieldView::Text(name, a->String_0@),
        a is EnumVariant ==> categorized(a, name) == FieldView::Text(name, a->EnumVariant_0@),
        a is ExplicitConfiguredDep ==> categorized(a, name) == FieldView::Text(
            name,
            a->ExplicitConfiguredDep_0@,
        ),
        a is SplitTransitionDep ==> categorized(a, name) == FieldView::Text(
            name,
            a->SplitTransitionDep_0@,
        ),
        a is Dep ==> categorized(a, name) == FieldView::Text(name, a->Dep_0@),
        a is SourceLabel ==> categorized(a, name) == FieldView::Text(name, a->SourceLabel_0@),
        a is Label ==> categorized(a, name) == FieldView::Text(name, a->Label_0@),
        a is Arg ==> categorized(a, name) == FieldView::Text(name, a->Arg_0@),
        a is Query ==> categorized(a, name) == FieldView::Text(name, a->Query_0@),
        a is SourceFile ==> categorized(a, name) == FieldView::Text(name, a->SourceFile_0@),
        a is Metadata ==> categorized(a, name) == FieldView::Text(name, a->Metadata_0@),
        a is ConfigurationDep ==> categorized(a, name) == FieldView::Text(
            name,
            labels::target_label_text(a->ConfigurationDep_0@),
        ),
        a is PluginDep ==> categorized(a, name) == FieldView::Text(
            name,
            labels::target_label_text(a->PluginDep_0@),
        ),
        a is Nothing ==> categorized(a, name) == FieldView::Text(name, "null"@),
{
}

/// A list of visibility patterns is written with all its patterns, in order; that everything may
/// see a target is written as one pattern.
pub proof fn law_no_pattern_is_lost(list: VisibilityPatternList, name: Seq<char>, i: int)
    ensures
        categorized(ConfiguredAttr::Visibility(list), name) == categorized(
            ConfiguredAttr::WithinView(list),
            name,
        ),
        ({
            let f = categorized(ConfiguredAttr::Visibility(list), name);
            &&& f is List && f->List_0 == name
            &&& list is Public ==> f->List_1 =~= seq!["PUBLIC"@]
            &&& list is List ==> f->List_1.len() == list->List_0@.len() && (0 <= i
                < f->List_1.len() ==> f->List_1[i] == list->List_0@[i]@)
        }),
{
}

/// Every attribute but the name is written, none twice, and in order: what is written of more
/// attributes begins with what is written of fewer.
pub proof fn law_every_attribute_but_the_name_is_written(
    attrs: Seq<(String, ConfiguredAttr)>,
    i: int,
)
    requires
        0 <= i < attrs.len(),
    ensures
        attrs[i].0@ != "name"@ ==> {
            let n = written_attrs(attrs.take(i)).len();
            &&& n < written_attrs(attrs).len()
            &&& written_attrs(attrs)[n as int] == categorized(attrs[i].1, attrs[i].0@)
            &&& written_attrs(attrs.take(i + 1)).len() == n + 1
        },
        attrs[i].0@ == "name"@ ==> written_attrs(attrs.take(i + 1)) == written_attrs(
            attrs.take(i),
        ),
        written_attrs(Seq::<(String, ConfiguredAttr)>::empty()).len() == 0,
        written_attrs(attrs).len() <= attrs.len(),
    decreases attrs.len(),
{
    let init = attrs.drop_last();
    if i == attrs.len() - 1 {
        assert(attrs.take(i) =~= init);
        assert(attrs.take(i + 1) =~= attrs);
        if init.len() > 0 {
            law_every_attribute_but_the_name_is_written(init, 0);
        }
    } else {
        law_every_attribute_but_the_name_is_written(init, i);
        assert(init.take(i) =~= attrs.take(i));
        assert(init.take(i + 1) =~= attrs.take(i + 1));
        assert(init[i] == attrs[i]);
    }
}

/// Every dependency is written, in order.
pub proof fn law_no_dependency_is_lost(deps: Seq<ConfiguredTargetLabel>, i: int)
    ensures
        dep_texts(deps).len() == deps.len(),
        0 <= i < deps.len() ==> dep_texts(deps)[i] == labels::configured_label_text(deps[i]@),
{
}

} // verus!
