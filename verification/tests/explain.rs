use buck2::explain::categorize;
use buck2::explain::AttrField;
use buck2::explain::AttrItem;
use buck2::explain::ConfiguredAttr;
use buck2::explain::ExplainedNode;
use buck2::explain::VisibilityPatternList;
use buck2::explain_fbs::fits_in_buffer;
use buck2::explain_fbs::gen_fbs;
use buck2::fbs_builder::FbsBuilder;
use buck2::labels::ConfigurationData;
use buck2::labels::ConfiguredTargetLabel;
use buck2::labels::TargetLabel;

/// A table in a finished buffer.
#[derive(Clone, Copy)]
struct Table<'a> {
    buf: &'a [u8],
    at: usize,
}

fn u16_at(buf: &[u8], at: usize) -> usize {
    u16::from_le_bytes([buf[at], buf[at + 1]]) as usize
}

fn u32_at(buf: &[u8], at: usize) -> usize {
    u32::from_le_bytes([buf[at], buf[at + 1], buf[at + 2], buf[at + 3]]) as usize
}

impl<'a> Table<'a> {
    fn root(buf: &'a [u8]) -> Self {
        Table { buf, at: u32_at(buf, 0) }
    }

    /// Where the field number `n` stands, if it is there.
    fn field(&self, n: usize) -> Option<usize> {
        let back = u32_at(self.buf, self.at) as u32 as i32;
        let vtable = (self.at as i64 - back as i64) as usize;
        let slot = 4 + 2 * n;
        if slot >= u16_at(self.buf, vtable) {
            return None;
        }
        match u16_at(self.buf, vtable + slot) {
            0 => None,
            offset => Some(self.at + offset),
        }
    }

    fn target(&self, n: usize) -> Option<usize> {
        self.field(n).map(|at| at + u32_at(self.buf, at))
    }

    fn string(&self, n: usize) -> Option<String> {
        self.target(n).map(|at| string_at(self.buf, at))
    }

    fn offsets(&self, n: usize) -> Option<Vec<usize>> {
        self.target(n).map(|at| {
            (0..u32_at(self.buf, at))
                .map(|i| {
                    let slot = at + 4 + 4 * i;
                    slot + u32_at(self.buf, slot)
                })
                .collect()
        })
    }

    fn strings(&self, n: usize) -> Option<Vec<String>> {
        self.offsets(n).map(|v| v.into_iter().map(|at| string_at(self.buf, at)).collect())
    }

    fn tables(&self, n: usize) -> Option<Vec<Table<'a>>> {
        let buf = self.buf;
        self.offsets(n).map(|v| v.into_iter().map(|at| Table { buf, at }).collect())
    }

    fn boolean(&self, n: usize) -> bool {
        self.field(n).map_or(false, |at| self.buf[at] != 0)
    }

    fn integer(&self, n: usize) -> i64 {
        self.field(n).map_or(0, |at| {
            let mut bytes = [0u8; 8];
            bytes.copy_from_slice(&self.buf[at..at + 8]);
            i64::from_le_bytes(bytes)
        })
    }
}

fn string_at(buf: &[u8], at: usize) -> String {
    let len = u32_at(buf, at);
    String::from_utf8(buf[at + 4..at + 4 + len].to_vec()).unwrap()
}

const NAME: usize = 0;
const LABEL: usize = 1;
const TYPE: usize = 2;
const DEPS: usize = 3;
const PACKAGE: usize = 4;
const ONCALL: usize = 5;
const TARGET_CONFIGURATION: usize = 6;
const EXECUTION_PLATFORM: usize = 7;
const PLUGINS: usize = 8;
const BOOL_ATTRS: usize = 9;
const INT_ATTRS: usize = 10;
const STRING_ATTRS: usize = 11;
const LIST_OF_STRINGS_ATTRS: usize = 12;
const DICT_OF_STRINGS_ATTRS: usize = 13;

fn label(package: &str, name: &str) -> TargetLabel {
    TargetLabel {
        cell: "cell".to_owned(),
        package: package.to_owned(),
        name: name.to_owned(),
    }
}

fn testing_configuration() -> ConfigurationData {
    ConfigurationData::Bound("<testing>#3b1c7e3b1c7e3b1c".to_owned())
}

fn configured(package: &str, name: &str) -> ConfiguredTargetLabel {
    ConfiguredTargetLabel::configure(&label(package, name), testing_configuration())
}

fn node(name: &str, attrs: Vec<(&str, ConfiguredAttr)>) -> ExplainedNode {
    ExplainedNode {
        name: name.to_owned(),
        label: configured("pkg", name),
        oncall: None,
        rule_type: "foo_lib".to_owned(),
        buildfile_path: "cell//pkg:BUCK".to_owned(),
        target_configuration: testing_configuration().display(),
        execution_platform: Ok("cell//pkg:bar".to_owned()),
        deps: vec![],
        plugin_kinds: vec![],
        attrs: attrs.into_iter().map(|(n, a)| (n.to_owned(), a)).collect(),
    }
}

fn gen_data(attrs: Vec<(&str, ConfiguredAttr)>) -> Vec<ExplainedNode> {
    vec![node("foo", attrs), node("baz", vec![])]
}

fn bytes_of(data: &Vec<ExplainedNode>) -> Vec<u8> {
    assert!(fits_in_buffer(data));
    gen_fbs(data).unwrap().finished_data()
}

fn assert_things(build: Table) -> Table {
    let targets = build.tables(0).unwrap();
    let target = targets[0];
    assert!(target.string(LABEL).unwrap().contains("cell//pkg:foo (<testing>#"));
    assert_eq!(target.string(NAME), Some("foo".to_owned()));
    assert_eq!(target.string(TYPE), Some("foo_lib".to_owned()));
    assert_eq!(target.string(PACKAGE), Some("cell//pkg:BUCK".to_owned()));
    assert_eq!(target.string(ONCALL), None);
    assert_eq!(target.string(EXECUTION_PLATFORM), Some("cell//pkg:bar".to_owned()));
    assert_eq!(target.strings(DEPS).unwrap().is_empty(), true);
    assert_eq!(target.strings(PLUGINS).unwrap().is_empty(), true);
    assert!(target.string(TARGET_CONFIGURATION).unwrap().contains("<testing>#"));

    let target2 = targets[1];
    assert!(target2.string(LABEL).unwrap().contains("cell//pkg:baz (<testing>#"));
    target
}

fn string(s: &str) -> AttrItem {
    AttrItem { string: Some(s.to_owned()), display: format!("\"{}\"", s) }
}

fn shown(s: &str) -> AttrItem {
    AttrItem { string: None, display: s.to_owned() }
}

#[test]
fn test_bool_attr() {
    let fbs = bytes_of(&gen_data(vec![("bool_field", ConfiguredAttr::Bool(false))]));
    let target = assert_things(Table::root(&fbs));
    assert_eq!(
        target.tables(BOOL_ATTRS).unwrap()[0].string(0),
        Some("bool_field".to_owned())
    );
}

#[test]
fn test_int_attr() {
    let fbs = bytes_of(&gen_data(vec![("int_field", ConfiguredAttr::Int(1))]));
    let target = assert_things(Table::root(&fbs));
    let attr = target.tables(INT_ATTRS).unwrap()[0];
    assert_eq!(attr.string(0), Some("int_field".to_owned()));
    assert_eq!(attr.integer(1), 1);
}

fn string_attr(name: &str, attr: ConfiguredAttr) -> (Option<String>, Option<String>) {
    let fbs = bytes_of(&gen_data(vec![(name, attr)]));
    let target = assert_things(Table::root(&fbs));
    let attr = target.tables(STRING_ATTRS).unwrap()[0];
    (attr.string(0), attr.string(1))
}

#[test]
fn test_string_attr() {
    let (key, value) = string_attr("bar", ConfiguredAttr::String("foo".to_owned()));
    assert_eq!(key, Some("bar".to_owned()));
    assert_eq!(value, Some("foo".to_owned()));
}

#[test]
fn test_enum_attr() {
    let (key, value) =
        string_attr("enum_field", ConfiguredAttr::EnumVariant("some_string".to_owned()));
    assert_eq!(key, Some("enum_field".to_owned()));
    assert_eq!(value, Some("some_string".to_owned()));
}

#[test]
fn test_arg_attr() {
    let (key, value) = string_attr(
        "bar",
        ConfiguredAttr::Arg("$(location :relative_path_test_file)".to_owned()),
    );
    assert_eq!(key, Some("bar".to_owned()));
    assert_eq!(value, Some("$(location :relative_path_test_file)".to_owned()));
}

#[test]
fn test_source_path_attr() {
    let (key, value) = string_attr("bar", ConfiguredAttr::SourceFile("foo/bar".to_owned()));
    assert_eq!(key, Some("bar".to_owned()));
    assert_eq!(value, Some("foo/bar".to_owned()));
}

#[test]
fn test_query_attr() {
    let (key, value) =
        string_attr("bar", ConfiguredAttr::Query("$(query_targets deps(:foo))".to_owned()));
    assert_eq!(key, Some("bar".to_owned()));
    assert_eq!(value, Some("$(query_targets deps(:foo))".to_owned()));
}

#[test]
fn test_plugin_dep() {
    let (key, value) =
        string_attr("plugin_dep_field", ConfiguredAttr::PluginDep(label("foo/bar", "t2")));
    assert_eq!(key, Some("plugin_dep_field".to_owned()));
    assert_eq!(value, Some("cell//foo/bar:t2".to_owned()));
}

fn check_label(f: impl Fn(String) -> (&'static str, ConfiguredAttr)) {
    let (name, attr) = f(configured("foo/bar", "t2").display());
    let (_, value) = string_attr(name, attr);
    assert!(value.unwrap().contains("cell//foo/bar:t2 (<testing>#"));
}

#[test]
fn test_deps_attr() {
    check_label(|label| ("label_field", ConfiguredAttr::Dep(label)));
}

#[test]
fn test_label_attr() {
    check_label(|label| ("label_field", ConfiguredAttr::Label(label)));
}

#[test]
fn test_source_label_attr() {
    check_label(|label| ("label_field", ConfiguredAttr::SourceLabel(label)));
}

#[test]
fn test_configured_dep_attr() {
    check_label(|label| ("label_field", ConfiguredAttr::ExplicitConfiguredDep(label)));
}

#[test]
fn test_tuple_attr() {
    let fbs = bytes_of(&gen_data(vec![(
        "some_tuple",
        ConfiguredAttr::Tuple(vec![string("some_string1"), string("some_string2")]),
    )]));
    let target = assert_things(Table::root(&fbs));
    let attr = target.tables(LIST_OF_STRINGS_ATTRS).unwrap()[0];
    assert_eq!(attr.strings(1).unwrap()[0], "some_string1");
    assert_eq!(attr.strings(1).unwrap()[1], "some_string2");
}

#[test]
fn test_list_of_strings() {
    let dep = configured("foo/bar", "t2").display();
    let fbs = bytes_of(&gen_data(vec![(
        "some_deps",
        ConfiguredAttr::List(vec![shown(&format!("\"{}\"", dep))]),
    )]));
    let target = assert_things(Table::root(&fbs));
    let attr = target.tables(LIST_OF_STRINGS_ATTRS).unwrap()[0];
    assert_eq!(attr.string(0), Some("some_deps".to_owned()));
    assert_eq!(attr.strings(1).unwrap(), vec![dep]);
}

#[test]
fn test_visibility() {
    let fbs = bytes_of(&gen_data(vec![(
        "visibility",
        ConfiguredAttr::Visibility(VisibilityPatternList::Public),
    )]));
    let target = assert_things(Table::root(&fbs));
    let attr = target.tables(LIST_OF_STRINGS_ATTRS).unwrap()[0];
    assert_eq!(attr.string(0), Some("visibility".to_owned()));
    assert_eq!(attr.strings(1).unwrap()[0], "PUBLIC");
}

#[test]
fn test_one_of_attr() {
    let fbs = bytes_of(&gen_data(vec![(
        "one_of_field",
        ConfiguredAttr::OneOf(Box::new(ConfiguredAttr::Int(7)), 0),
    )]));
    let target = assert_things(Table::root(&fbs));
    let attr = target.tables(INT_ATTRS).unwrap()[0];
    assert_eq!(attr.string(0), Some("one_of_field".to_owned()));
    assert_eq!(attr.integer(1), 7);
}

#[test]
fn test_within_view() {
    let fbs = bytes_of(&gen_data(vec![(
        "within_view",
        ConfiguredAttr::WithinView(VisibilityPatternList::Public),
    )]));
    let target = assert_things(Table::root(&fbs));
    let attr = target.tables(LIST_OF_STRINGS_ATTRS).unwrap()[0];
    assert_eq!(attr.string(0), Some("within_view".to_owned()));
    assert_eq!(attr.strings(1).unwrap()[0], "PUBLIC");
}

#[test]
fn test_dict_of_strings() {
    let fbs = bytes_of(&gen_data(vec![(
        "dict_field",
        ConfiguredAttr::Dict(vec![(string("foo"), string("bar"))]),
    )]));
    let target = assert_things(Table::root(&fbs));
    let attr = target.tables(DICT_OF_STRINGS_ATTRS).unwrap()[0];
    assert_eq!(attr.string(0), Some("dict_field".to_owned()));
    assert_eq!(attr.tables(1).unwrap()[0].string(0), Some("foo".to_owned()));
    assert_eq!(attr.tables(1).unwrap()[0].string(1), Some("bar".to_owned()));
}

#[test]
fn test_metadata_attr() {
    let (_, value) = string_attr(
        "metadata",
        ConfiguredAttr::Metadata("{\"key.something\":\"foo\"}".to_owned()),
    );
    assert_eq!(value, Some("{\"key.something\":\"foo\"}".to_owned()));
}

#[test]
fn name_is_no_attribute_and_every_kind_has_its_list() {
    let fbs = bytes_of(&gen_data(vec![
        ("name", ConfiguredAttr::String("foo".to_owned())),
        ("a", ConfiguredAttr::Bool(true)),
        ("b", ConfiguredAttr::Nothing),
        ("c", ConfiguredAttr::Bool(false)),
        ("d", ConfiguredAttr::Int(-5)),
        ("e", ConfiguredAttr::Int(0)),
        ("f", ConfiguredAttr::List(vec![])),
    ]));
    let target = assert_things(Table::root(&fbs));
    let bools = target.tables(BOOL_ATTRS).unwrap();
    assert_eq!(bools.len(), 2);
    assert_eq!((bools[0].string(0), bools[0].boolean(1)), (Some("a".to_owned()), true));
    assert_eq!((bools[1].string(0), bools[1].boolean(1)), (Some("c".to_owned()), false));
    let texts = target.tables(STRING_ATTRS).unwrap();
    assert_eq!(texts.len(), 1);
    assert_eq!(texts[0].string(1), Some("null".to_owned()));
    let ints = target.tables(INT_ATTRS).unwrap();
    assert_eq!((ints[0].integer(1), ints[1].integer(1)), (-5, 0));
    assert_eq!(target.tables(LIST_OF_STRINGS_ATTRS).unwrap()[0].strings(1), Some(vec![]));
    assert_eq!(target.tables(DICT_OF_STRINGS_ATTRS).unwrap().len(), 0);
}

#[test]
fn deps_plugins_and_oncall_are_written() {
    let mut n = node("foo", vec![]);
    n.oncall = Some("me".to_owned());
    n.deps = vec![configured("pkg", "a"), configured("pkg", "b")];
    n.plugin_kinds = vec!["cell//k:kind".to_owned()];
    let fbs = bytes_of(&vec![n]);
    let target = Table::root(&fbs).tables(0).unwrap()[0];
    assert_eq!(target.string(ONCALL), Some("me".to_owned()));
    assert_eq!(
        target.strings(DEPS),
        Some(vec![configured("pkg", "a").display(), configured("pkg", "b").display()])
    );
    assert_eq!(target.strings(PLUGINS), Some(vec!["cell//k:kind".to_owned()]));
}

#[test]
fn first_missing_platform_is_the_error() {
    let mut data = vec![node("a", vec![]), node("b", vec![]), node("c", vec![])];
    data[1].execution_platform = Err("none for b".to_owned());
    data[2].execution_platform = Err("none for c".to_owned());
    assert_eq!(gen_fbs(&data).err(), Some("none for b".to_owned()));
}

#[test]
fn shown_items_lose_their_quotes() {
    let list = |item: AttrItem| match categorize(&ConfiguredAttr::List(vec![item]), "x") {
        AttrField::StringList(name, list) => {
            assert_eq!(name, "x");
            list[0].clone()
        }
        _ => panic!("a list"),
    };
    assert_eq!(list(shown("\"\"a\"b\"")), "a\"b");
    assert_eq!(list(shown("\"\"\"")), "");
    assert_eq!(list(shown("[1, 2]")), "[1, 2]");
    assert_eq!(list(string("\"kept\"")), "\"kept\"");
    match categorize(&ConfiguredAttr::Dict(vec![(string("k"), shown("1"))]), "x") {
        AttrField::StringDict(_, dict) => {
            assert_eq!(dict, vec![("k".to_owned(), "1".to_owned())])
        }
        _ => panic!("a dictionary"),
    }
    match categorize(
        &ConfiguredAttr::Visibility(VisibilityPatternList::List(vec!["//a/...".to_owned()])),
        "x",
    ) {
        AttrField::StringList(_, list) => assert_eq!(list, vec!["//a/...".to_owned()]),
        _ => panic!("a list"),
    }
    match categorize(&ConfiguredAttr::SplitTransitionDep("d".to_owned()), "x") {
        AttrField::String(_, s) => assert_eq!(s, "d"),
        _ => panic!("a string"),
    }
    match categorize(&ConfiguredAttr::ConfigurationDep(label("p", "c")), "x") {
        AttrField::String(_, s) => assert_eq!(s, "cell//p:c"),
        _ => panic!("a string"),
    }
}

#[test]
fn a_text_is_written_once() {
    let mut b = FbsBuilder::new();
    let first = b.create_shared_string("x");
    let other = b.create_shared_string("y");
    assert_eq!(b.create_shared_string("x"), first);
    assert_ne!(first, other);
    let v = b.create_vector(&vec![first, other, first]);
    let start = b.start_table();
    b.push_ref(4, v);
    b.push_optional_ref(6, None);
    b.push_optional_ref(8, Some(other));
    b.push_bool(10, true);
    b.push_int(12, 9);
    let t = b.end_table(start);
    b.finish(t);
    let fbs = b.finished_data();
    let root = Table::root(&fbs);
    assert_eq!(
        root.strings(0),
        Some(vec!["x".to_owned(), "y".to_owned(), "x".to_owned()])
    );
    assert_eq!(root.string(1), None);
    assert_eq!(root.string(2), Some("y".to_owned()));
    assert!(root.boolean(3));
    assert_eq!(root.integer(4), 9);
}
