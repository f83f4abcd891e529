//! Writing configured targets to a FlatBuffers buffer.
use vstd::prelude::*;
use vstd::string::*;

use crate::explain::AttrField;
use crate::explain::ExplainedNode;
use crate::explain::FieldView;
use crate::explain;
use crate::fbs_builder::FbsBuilder;
use crate::fbs_builder::Object;
use crate::fbs_builder::Slot;
use crate::fbs_builder::MAX_BUFFER;
use crate::fbs_builder;
use crate::labels;
use crate::text;

verus! {

/// In which of the lists of a target an attribute is written.
#[derive(Clone, Copy, Debug, PartialEq, Eq, Structural)]
pub enum Kind {
    Bool,
    Int,
    Text,
    List,
    Dict,
}

/// In which list an attribute belongs.
pub open spec fn kind_of(f: FieldView) -> Kind {
    match f {
        FieldView::Bool(_, _) => Kind::Bool,
        FieldView::Int(_, _) => Kind::Int,
        FieldView::Text(_, _) => Kind::Text,
        FieldView::List(_, _) => Kind::List,
        FieldView::Dict(_, _) => Kind::Dict,
    }
}

/// The attributes that belong in one list, in order.
pub open spec fn of_kind(fields: Seq<FieldView>, kind: Kind) -> Seq<FieldView>
    decreases fields.len(),
{
    if fields.len() == 0 {
        Seq::empty()
    } else if kind_of(fields.last()) == kind {
        of_kind(fields.drop_last(), kind).push(fields.last())
    } else {
        of_kind(fields.drop_last(), kind)
    }
}

/// The field `slot` points to the text `s`.
pub open spec fn text_field(
    objects: Map<u32, Object>,
    fields: Map<u16, Slot>,
    slot: u16,
    s: Seq<char>,
) -> bool {
    fields.dom().contains(slot) && match fields[slot] {
        Slot::Ref(at) => fbs_builder::text_at(objects, at, s),
        _ => false,
    }
}

/// The texts of `list` are written, in order, in a vector at `at`.
pub open spec fn texts_at(objects: Map<u32, Object>, at: u32, list: Seq<Seq<char>>) -> bool {
    objects.dom().contains(at) && match objects[at] {
        Object::Vector(items) => {
            &&& items.len() == list.len()
            &&& forall|i: int|
                0 <= i < items.len() ==> fbs_builder::text_at(
                    objects,
                    #[trigger] items[i],
                    list[i],
                )
        },
        _ => false,
    }
}

/// The field `slot` points to a vector of the texts of `list`.
pub open spec fn texts_field(
    objects: Map<u32, Object>,
    fields: Map<u16, Slot>,
    slot: u16,
    list: Seq<Seq<char>>,
) -> bool {
    fields.dom().contains(slot) && match fields[slot] {
        Slot::Ref(at) => texts_at(objects, at, list),
        _ => false,
    }
}

/// A table at `at` holds a key and a text.
pub open spec fn pair_at(
    objects: Map<u32, Object>,
    at: u32,
    pair: (Seq<char>, Seq<char>),
) -> bool {
    objects.dom().contains(at) && match objects[at] {
        Object::Table(fields) => {
            &&& text_field(objects, fields, 4, pair.0)
            &&& text_field(objects, fields, 6, pair.1)
        },
        _ => false,
    }
}

/// The entries of `dict` are written, in order, as tables in a vector at `at`.
pub open spec fn pairs_at(
    objects: Map<u32, Object>,
    at: u32,
    dict: Seq<(Seq<char>, Seq<char>)>,
) -> bool {
    objects.dom().contains(at) && match objects[at] {
        Object::Vector(items) => {
            &&& items.len() == dict.len()
            &&& forall|i: int|
                0 <= i < items.len() ==> pair_at(objects, #[trigger] items[i], dict[i])
        },
        _ => false,
    }
}

/// A truth value; one that is not there is `false`.
pub open spec fn bool_field(fields: Map<u16, Slot>, slot: u16, value: bool) -> bool {
    if fields.dom().contains(slot) {
        fields[slot] == Slot::Bool(value)
    } else {
        !value
    }
}

/// A number; one that is not there is zero.
pub open spec fn int_field(fields: Map<u16, Slot>, slot: u16, value: i64) -> bool {
    if fields.dom().contains(slot) {
        fields[slot] == Slot::Int(value)
    } else {
        value == 0
    }
}

/// A table at `at` holds the name of an attribute and its value.
pub open spec fn attr_at(objects: Map<u32, Object>, at: u32, f: FieldView) -> bool {
    objects.dom().contains(at) && match objects[at] {
        Object::Table(fields) => match f {
            FieldView::Bool(key, value) => text_field(objects, fields, 4, key) && bool_field(
                fields,
                6,
                value,
            ),
            FieldView::Int(key, value) => text_field(objects, fields, 4, key) && int_field(
                fields,
                6,
                value,
            ),
            FieldView::Text(key, value) => text_field(objects, fields, 4, key) && text_field(
                objects,
                fields,
                6,
                value,
            ),
            FieldView::List(key, list) => text_field(objects, fields, 4, key) && texts_field(
                objects,
                fields,
                6,
                list,
            ),
            FieldView::Dict(key, dict) => {
                &&& text_field(objects, fields, 4, key)
                &&& fields.dom().contains(6)
                &&& match fields[6] {
                    Slot::Ref(v) => pairs_at(objects, v, dict),
                    _ => false,
                }
            },
        },
        _ => false,
    }
}

/// The attributes `list` are written, in order, as tables in a vector at `at`.
pub open spec fn attrs_at(objects: Map<u32, Object>, at: u32, list: Seq<FieldView>) -> bool {
    objects.dom().contains(at) && match objects[at] {
        Object::Vector(items) => {
            &&& items.len() == list.len()
            &&& forall|i: int|
                0 <= i < items.len() ==> attr_at(objects, #[trigger] items[i], list[i])
        },
        _ => false,
    }
}

/// The field `slot` points to a vector of the attributes `list`.
pub open spec fn attrs_field(
    objects: Map<u32, Object>,
    fields: Map<u16, Slot>,
    slot: u16,
    list: Seq<FieldView>,
) -> bool {
    fields.dom().contains(slot) && match fields[slot] {
        Slot::Ref(at) => attrs_at(objects, at, list),
        _ => false,
    }
}

/// A table at `at` describes `node`, which has the execution platform `platform`.
pub open spec fn target_at(
    objects: Map<u32, Object>,
    at: u32,
    node: ExplainedNode,
    platform: Seq<char>,
) -> bool {
    objects.dom().contains(at) && match objects[at] {
        Object::Table(f) => {
            let attrs = explain::written_attrs(node.attrs@);
            &&& text_field(objects, f, 4, node.name@)
            &&& text_field(objects, f, 6, labels::configured_label_text(node.label@))
            &&& text_field(objects, f, 8, node.rule_type@)
            &&& texts_field(objects, f, 10, explain::dep_texts(node.deps@))
            &&& text_field(objects, f, 12, node.buildfile_path@)
            &&& match node.oncall {
                Some(s) => text_field(objects, f, 14, s@),
                None => !f.dom().contains(14),
            }
            &&& text_field(objects, f, 16, node.target_configuration@)
            &&& text_field(objects, f, 18, platform)
            &&& texts_field(objects, f, 20, text::views(node.plugin_kinds@))
            &&& attrs_field(objects, f, 22, of_kind(attrs, Kind::Bool))
            &&& attrs_field(objects, f, 24, of_kind(attrs, Kind::Int))
            &&& attrs_field(objects, f, 26, of_kind(attrs, Kind::Text))
            &&& attrs_field(objects, f, 28, of_kind(attrs, Kind::List))
            &&& attrs_field(objects, f, 30, of_kind(attrs, Kind::Dict))
        },
        _ => false,
    }
}

/// The most that a table with two fields takes.
pub open spec fn pair_table_cost() -> nat {
    2 * fbs_builder::slot_cost() + fbs_builder::table_cost()
}

/// The most that some texts take.
pub open spec fn texts_cost(list: Seq<Seq<char>>) -> nat
    decreases list.len(),
{
    if list.len() == 0 {
        0
    } else {
        texts_cost(list.drop_last()) + fbs_builder::text_cost(list.last())
    }
}

/// The most that a vector of texts takes, with the texts.
pub open spec fn text_list_cost(list: Seq<Seq<char>>) -> nat {
    texts_cost(list) + fbs_builder::vector_cost(list.len())
}

/// The most that some entries take.
pub open spec fn pairs_cost(dict: Seq<(Seq<char>, Seq<char>)>) -> nat
    decreases dict.len(),
{
    if dict.len() == 0 {
        0
    } else {
        pairs_cost(dict.drop_last()) + fbs_builder::text_cost(dict.last().0)
            + fbs_builder::text_cost(dict.last().1) + pair_table_cost()
    }
}

/// The most that an attribute takes.
pub open spec fn field_cost(f: FieldView) -> nat {
    match f {
        FieldView::Bool(key, _) => fbs_builder::text_cost(key) + pair_table_cost(),
        FieldView::Int(key, _) => fbs_builder::text_cost(key) + pair_table_cost(),
        FieldView::Text(key, v) => fbs_builder::text_cost(key) + fbs_builder::text_cost(v)
            + pair_table_cost(),
        FieldView::List(key, list) => fbs_builder::text_cost(key) + text_list_cost(list)
            + pair_table_cost(),
        FieldView::Dict(key, dict) => fbs_builder::text_cost(key) + pairs_cost(dict)
            + fbs_builder::vector_cost(dict.len()) + pair_table_cost(),
    }
}

/// The most that some attributes take, with their places in a vector.
pub open spec fn fields_cost(fields: Seq<FieldView>) -> nat
    decreases fields.len(),
{
    if fields.len() == 0 {
        0
    } else {
        fields_cost(fields.drop_last()) + field_cost(fields.last()) + 4
    }
}

/// The most that the description of a target takes.
pub open spec fn target_cost(node: ExplainedNode) -> nat {
    fbs_builder::text_cost(node.name@) + fbs_builder::text_cost(
        labels::configured_label_text(node.label@),
    ) + (match node.oncall {
        Some(s) => fbs_builder::text_cost(s@),
        None => 0,
    }) + fbs_builder::text_cost(node.rule_type@) + fbs_builder::text_cost(node.buildfile_path@)
        + fbs_builder::text_cost(node.target_configuration@) + (match node.execution_platform {
        Ok(s) => fbs_builder::text_cost(s@),
        Err(_) => 0,
    }) + text_list_cost(explain::dep_texts(node.deps@)) + text_list_cost(
        text::views(node.plugin_kinds@),
    ) + fields_cost(explain::written_attrs(node.attrs@)) + 5 * fbs_builder::vector_cost(0) + 14
        * fbs_builder::slot_cost() + fbs_builder::table_cost()
}

/// The most that the descriptions of some targets take, with their places in a vector.
pub open spec fn targets_cost(nodes: Seq<ExplainedNode>) -> nat
    decreases nodes.len(),
{
    if nodes.len() == 0 {
        0
    } else {
        targets_cost(nodes.drop_last()) + target_cost(nodes.last()) + 4
    }
}

/// The most that a whole buffer takes.
pub open spec fn build_cost(nodes: Seq<ExplainedNode>) -> nat {
    targets_cost(nodes) + fbs_builder::vector_cost(0) + fbs_builder::slot_cost() + 2
        * fbs_builder::table_cost()
}

proof fn lemma_texts_cost_grows(list: Seq<Seq<char>>, n: int)
    requires
        0 <= n <= list.len(),
    ensures
        texts_cost(list.take(n)) <= texts_cost(list),
    decreases list.len(),
{
    if n == list.len() {
        assert(list.take(n) =~= list);
    } else {
        lemma_texts_cost_grows(list.drop_last(), n);
        assert(list.drop_last().take(n) =~= list.take(n));
    }
}

proof fn lemma_pairs_cost_grows(dict: Seq<(Seq<char>, Seq<char>)>, n: int)
    requires
        0 <= n <= dict.len(),
    ensures
        pairs_cost(dict.take(n)) <= pairs_cost(dict),
    decreases dict.len(),
{
    if n == dict.len() {
        assert(dict.take(n) =~= dict);
    } else {
        lemma_pairs_cost_grows(dict.drop_last(), n);
        assert(dict.drop_last().take(n) =~= dict.take(n));
    }
}

proof fn lemma_kind_grows(fields: Seq<FieldView>, kind: Kind, n: int)
    requires
        0 <= n <= fields.len(),
    ensures
        fields_cost(of_kind(fields.take(n), kind)) <= fields_cost(of_kind(fields, kind)),
        of_kind(fields.take(n), kind).len() <= of_kind(fields, kind).len(),
    decreases fields.len(),
{
    if n == fields.len() {
        assert(fields.take(n) =~= fields);
    } else {
        let rest = fields.drop_last();
        lemma_kind_grows(rest, kind, n);
        assert(rest.take(n) =~= fields.take(n));
        let smaller = of_kind(rest, kind);
        assert(smaller.push(fields.last()).drop_last() =~= smaller);
    }
}

proof fn lemma_targets_cost_grows(nodes: Seq<ExplainedNode>, n: int)
    requires
        0 <= n <= nodes.len(),
    ensures
        targets_cost(nodes.take(n)) <= targets_cost(nodes),
    decreases nodes.len(),
{
    if n == nodes.len() {
        assert(nodes.take(n) =~= nodes);
    } else {
        lemma_targets_cost_grows(nodes.drop_last(), n);
        assert(nodes.drop_last().take(n) =~= nodes.take(n));
    }
}

/// Every attribute is in one list.
proof fn lemma_kinds_split_cost(fields: Seq<FieldView>)
    ensures
        fields_cost(of_kind(fields, Kind::Bool)) + fields_cost(of_kind(fields, Kind::Int))
            + fields_cost(of_kind(fields, Kind::Text)) + fields_cost(of_kind(fields, Kind::List))
            + fields_cost(of_kind(fields, Kind::Dict)) == fields_cost(fields),
    decreases fields.len(),
{
    if fields.len() > 0 {
        let rest = fields.drop_last();
        lemma_kinds_split_cost(rest);
        let kind = kind_of(fields.last());
        assert(of_kind(rest, kind).push(fields.last()).drop_last() =~= of_kind(rest, kind));
    }
}

proof fn lemma_texts_kept(a: Map<u32, Object>, b: Map<u32, Object>, at: u32, list: Seq<Seq<char>>)
    requires
        fbs_builder::keeps(a, b),
        texts_at(a, at, list),
    ensures
        texts_at(b, at, list),
{
    let items = a[at]->Vector_0;
    assert forall|i: int| 0 <= i < items.len() implies fbs_builder::text_at(
        b,
        #[trigger] items[i],
        list[i],
    ) by {
        assert(fbs_builder::text_at(a, items[i], list[i]));
    }
}

proof fn lemma_pairs_kept(
    a: Map<u32, Object>,
    b: Map<u32, Object>,
    at: u32,
    dict: Seq<(Seq<char>, Seq<char>)>,
)
    requires
        fbs_builder::keeps(a, b),
        pairs_at(a, at, dict),
    ensures
        pairs_at(b, at, dict),
{
    let items = a[at]->Vector_0;
    assert forall|i: int| 0 <= i < items.len() implies pair_at(b, #[trigger] items[i], dict[i]) by {
        assert(pair_at(a, items[i], dict[i]));
    }
}

proof fn lemma_attr_kept(a: Map<u32, Object>, b: Map<u32, Object>, at: u32, f: FieldView)
    requires
        fbs_builder::keeps(a, b),
        attr_at(a, at, f),
    ensures
        attr_at(b, at, f),
{
    let fields = a[at]->Table_0;
    match f {
        FieldView::List(_, list) => {
            lemma_texts_kept(a, b, fields[6]->Ref_0, list);
        },
        FieldView::Dict(_, dict) => {
            lemma_pairs_kept(a, b, fields[6]->Ref_0, dict);
        },
        _ => {},
    }
}

proof fn lemma_attrs_kept(a: Map<u32, Object>, b: Map<u32, Object>, at: u32, list: Seq<FieldView>)
    requires
        fbs_builder::keeps(a, b),
        attrs_at(a, at, list),
    ensures
        attrs_at(b, at, list),
{
    let items = a[at]->Vector_0;
    assert forall|i: int| 0 <= i < items.len() implies attr_at(b, #[trigger] items[i], list[i]) by {
        lemma_attr_kept(a, b, items[i], list[i]);
    }
}

proof fn lemma_target_kept(
    a: Map<u32, Object>,
    b: Map<u32, Object>,
    at: u32,
    node: ExplainedNode,
    platform: Seq<char>,
)
    requires
        fbs_builder::keeps(a, b),
        target_at(a, at, node, platform),
    ensures
        target_at(b, at, node, platform),
{
    let f = a[at]->Table_0;
    let attrs = explain::written_attrs(node.attrs@);
    lemma_texts_kept(a, b, f[10]->Ref_0, explain::dep_texts(node.deps@));
    lemma_texts_kept(a, b, f[20]->Ref_0, text::views(node.plugin_kinds@));
    lemma_attrs_kept(a, b, f[22]->Ref_0, of_kind(attrs, Kind::Bool));
    lemma_attrs_kept(a, b, f[24]->Ref_0, of_kind(attrs, Kind::Int));
    lemma_attrs_kept(a, b, f[26]->Ref_0, of_kind(attrs, Kind::Text));
    lemma_attrs_kept(a, b, f[28]->Ref_0, of_kind(attrs, Kind::List));
    lemma_attrs_kept(a, b, f[30]->Ref_0, of_kind(attrs, Kind::Dict));
}

/// Writes texts and a vector of them.
pub fn list_of_strings_to_fbs(builder: &mut FbsBuilder, list: &Vec<String>) -> (r: u32)
    requires
        fbs_builder::is_ready(*old(builder)),
        fbs_builder::fbs_used(*old(builder)) + text_list_cost(text::views(list@)) <= MAX_BUFFER,
    ensures
        texts_at(fbs_builder::fbs_objects(*final(builder)), r, text::views(list@)),
        fbs_builder::wrote(*old(builder), *final(builder), text_list_cost(text::views(list@))),
{
    let ghost all = text::views(list@);
    let mut items: Vec<u32> = Vec::new();
    let mut i: usize = 0;
    proof {
        assert(all.take(0) =~= Seq::empty());
    }
    while i < list.len()
        invariant
            i <= list@.len(),
            items@.len() == i,
            all == text::views(list@),
            fbs_builder::wrote(*old(builder), *builder, texts_cost(all.take(i as int))),
            fbs_builder::fbs_used(*old(builder)) + text_list_cost(all) <= MAX_BUFFER,
            forall|k: int|
                0 <= k < i ==> fbs_builder::text_at(
                    fbs_builder::fbs_objects(*builder),
                    #[trigger] items@[k],
                    all[k],
                ),
        decreases list@.len() - i,
    {
        let ghost before = fbs_builder::fbs_objects(*builder);
        proof {
            let next = all.take(i + 1);
            assert(next.drop_last() =~= all.take(i as int));
            assert(next.last() == list@[i as int]@);
            lemma_texts_cost_grows(all, i + 1);
        }
        let at = builder.create_shared_string(list[i].as_str());
        items.push(at);
        assert forall|k: int| 0 <= k < i + 1 implies fbs_builder::text_at(
            fbs_builder::fbs_objects(*builder),
            #[trigger] items@[k],
            all[k],
        ) by {
            if k < i {
                assert(fbs_builder::text_at(before, items@[k], all[k]));
            }
        }
        i = i + 1;
    }
    assert(all.take(all.len() as int) =~= all);
    let ghost before = fbs_builder::fbs_objects(*builder);
    let at = builder.create_vector(&items);
    assert forall|k: int| 0 <= k < items@.len() implies fbs_builder::text_at(
        fbs_builder::fbs_objects(*builder),
        #[trigger] items@[k],
        all[k],
    ) by {
        assert(fbs_builder::text_at(before, items@[k], all[k]));
    }
    at
}

/// Writes a table with a key and something that was written before.
fn keyed_table(builder: &mut FbsBuilder, key: u32, value: u32) -> (r: u32)
    requires
        fbs_builder::is_ready(*old(builder)),
        fbs_builder::fbs_objects(*old(builder)).dom().contains(key),
        fbs_builder::fbs_objects(*old(builder)).dom().contains(value),
        fbs_builder::fbs_used(*old(builder)) + pair_table_cost() <= MAX_BUFFER,
    ensures
        fbs_builder::table_at(
            fbs_builder::fbs_objects(*final(builder)),
            r,
            fbs_builder::no_fields().insert(4, Slot::Ref(key)).insert(6, Slot::Ref(value)),
        ),
        fbs_builder::wrote(*old(builder), *final(builder), pair_table_cost()),
{
    let start = builder.start_table();
    builder.push_ref(4, key);
    builder.push_ref(6, value);
    builder.end_table(start)
}

/// Writes entries as tables, and a vector of them.
pub fn dict_of_strings_to_fbs(builder: &mut FbsBuilder, dict: &Vec<(String, String)>) -> (r: u32)
    requires
        fbs_builder::is_ready(*old(builder)),
        fbs_builder::fbs_used(*old(builder)) + pairs_cost(explain::pair_views(dict@))
            + fbs_builder::vector_cost(dict@.len()) <= MAX_BUFFER,
    ensures
        pairs_at(fbs_builder::fbs_objects(*final(builder)), r, explain::pair_views(dict@)),
        fbs_builder::wrote(
            *old(builder),
            *final(builder),
            pairs_cost(explain::pair_views(dict@)) + fbs_builder::vector_cost(dict@.len()),
        ),
{
    let ghost all = explain::pair_views(dict@);
    let mut items: Vec<u32> = Vec::new();
    let mut i: usize = 0;
    proof {
        assert(all.take(0) =~= Seq::empty());
    }
    while i < dict.len()
        invariant
            i <= dict@.len(),
            items@.len() == i,
            all == explain::pair_views(dict@),
            fbs_builder::wrote(*old(builder), *builder, pairs_cost(all.take(i as int))),
            fbs_builder::fbs_used(*old(builder)) + pairs_cost(all) + fbs_builder::vector_cost(
                dict@.len(),
            ) <= MAX_BUFFER,
            forall|k: int|
                0 <= k < i ==> pair_at(
                    fbs_builder::fbs_objects(*builder),
                    #[trigger] items@[k],
                    all[k],
                ),
        decreases dict@.len() - i,
    {
        let ghost before = fbs_builder::fbs_objects(*builder);
        proof {
            let next = all.take(i + 1);
            assert(next.drop_last() =~= all.take(i as int));
            assert(next.last() == all[i as int]);
            lemma_pairs_cost_grows(all, i + 1);
        }
        let key = builder.create_shared_string(dict[i].0.as_str());
        let value = builder.create_shared_string(dict[i].1.as_str());
        let at = keyed_table(builder, key, value);
        items.push(at);
        assert forall|k: int| 0 <= k < i + 1 implies pair_at(
            fbs_builder::fbs_objects(*builder),
            #[trigger] items@[k],
            all[k],
        ) by {
            if k < i {
                assert(pair_at(before, items@[k], all[k]));
            }
        }
        i = i + 1;
    }
    assert(all.take(all.len() as int) =~= all);
    let ghost before = fbs_builder::fbs_objects(*builder);
    let at = builder.create_vector(&items);
    assert forall|k: int| 0 <= k < items@.len() implies pair_at(
        fbs_builder::fbs_objects(*builder),
        #[trigger] items@[k],
        all[k],
    ) by {
        assert(pair_at(before, items@[k], all[k]));
    }
    at
}

/// Writes an attribute.
fn attr_to_fbs(builder: &mut FbsBuilder, field: &AttrField) -> (r: u32)
    requires
        fbs_builder::is_ready(*old(builder)),
        fbs_builder::fbs_used(*old(builder)) + field_cost(field@) <= MAX_BUFFER,
    ensures
        attr_at(fbs_builder::fbs_objects(*final(builder)), r, field@),
        fbs_builder::wrote(*old(builder), *final(builder), field_cost(field@)),
{
    match field {
        AttrField::Bool(name, value) => {
            let key = builder.create_shared_string(name.as_str());
            let start = builder.start_table();
            builder.push_ref(4, key);
            builder.push_bool(6, *value);
            builder.end_table(start)
        },
        AttrField::Int(name, value) => {
            let key = builder.create_shared_string(name.as_str());
            let start = builder.start_table();
            builder.push_ref(4, key);
            builder.push_int(6, *value);
            builder.end_table(start)
        },
        AttrField::String(name, value) => {
            let key = builder.create_shared_string(name.as_str());
            let at = builder.create_shared_string(value.as_str());
            keyed_table(builder, key, at)
        },
        AttrField::StringList(name, list) => {
            let key = builder.create_shared_string(name.as_str());
            let at = list_of_strings_to_fbs(builder, list);
            let ghost before = fbs_builder::fbs_objects(*builder);
            let r = keyed_table(builder, key, at);
            proof {
                lemma_texts_kept(
                    before,
                    fbs_builder::fbs_objects(*builder),
                    at,
                    text::views(list@),
                );
            }
            r
        },
        AttrField::StringDict(name, dict) => {
            let key = builder.create_shared_string(name.as_str());
            let at = dict_of_strings_to_fbs(builder, dict);
            let ghost before = fbs_builder::fbs_objects(*builder);
            let r = keyed_table(builder, key, at);
            proof {
                lemma_pairs_kept(
                    before,
                    fbs_builder::fbs_objects(*builder),
                    at,
                    explain::pair_views(dict@),
                );
            }
            r
        },
    }
}

/// In which list an attribute belongs.
fn field_kind(field: &AttrField) -> (r: Kind)
    ensures
        r == kind_of(field@),
{
    match field {
        AttrField::Bool(_, _) => Kind::Bool,
        AttrField::Int(_, _) => Kind::Int,
        AttrField::String(_, _) => Kind::Text,
        AttrField::StringList(_, _) => Kind::List,
        AttrField::StringDict(_, _) => Kind::Dict,
    }
}

/// Writes the attributes that belong in one list, and a vector of them.
fn attrs_to_fbs(builder: &mut FbsBuilder, fields: &Vec<AttrField>, kind: Kind) -> (r: u32)
    requires
        fbs_builder::is_ready(*old(builder)),
        fbs_builder::fbs_used(*old(builder)) + fields_cost(
            of_kind(explain::field_views(fields@), kind),
        ) + fbs_builder::vector_cost(0) <= MAX_BUFFER,
    ensures
        attrs_at(
            fbs_builder::fbs_objects(*final(builder)),
            r,
            of_kind(explain::field_views(fields@), kind),
        ),
        fbs_builder::wrote(
            *old(builder),
            *final(builder),
            fields_cost(of_kind(explain::field_views(fields@), kind)) + fbs_builder::vector_cost(0),
        ),
{
    let ghost all = explain::field_views(fields@);
    let ghost used = fbs_builder::fbs_used(*builder);
    let mut items: Vec<u32> = Vec::new();
    let mut i: usize = 0;
    proof {
        assert(all.take(0) =~= Seq::empty());
    }
    while i < fields.len()
        invariant
            i <= fields@.len(),
            all == explain::field_views(fields@),
            used == fbs_builder::fbs_used(*old(builder)),
            items@.len() == of_kind(all.take(i as int), kind).len(),
            fbs_builder::keeps(
                fbs_builder::fbs_objects(*old(builder)),
                fbs_builder::fbs_objects(*builder),
            ),
            fbs_builder::is_ready(*builder),
            fbs_builder::fbs_used(*builder) + 4 * items@.len() <= used + fields_cost(
                of_kind(all.take(i as int), kind),
            ),
            used + fields_cost(of_kind(all, kind)) + fbs_builder::vector_cost(0) <= MAX_BUFFER,
            forall|k: int|
                0 <= k < items@.len() ==> attr_at(
                    fbs_builder::fbs_objects(*builder),
                    #[trigger] items@[k],
                    of_kind(all.take(i as int), kind)[k],
                ),
        decreases fields@.len() - i,
    {
        let ghost before = fbs_builder::fbs_objects(*builder);
        let ghost done = of_kind(all.take(i as int), kind);
        let ghost next = all.take(i + 1);
        proof {
            assert(next.drop_last() =~= all.take(i as int));
            assert(next.last() == fields@[i as int]@);
            lemma_kind_grows(all, kind, i + 1);
            assert(done.push(next.last()).drop_last() =~= done);
        }
        if field_kind(&fields[i]) == kind {
            let at = attr_to_fbs(builder, &fields[i]);
            items.push(at);
            assert(of_kind(next, kind) == done.push(next.last()));
            assert forall|k: int| 0 <= k < items@.len() implies attr_at(
                fbs_builder::fbs_objects(*builder),
                #[trigger] items@[k],
                of_kind(next, kind)[k],
            ) by {
                if k < items@.len() - 1 {
                    lemma_attr_kept(before, fbs_builder::fbs_objects(*builder), items@[k], done[k]);
                }
            }
        }
        i = i + 1;
    }
    assert(all.take(all.len() as int) =~= all);
    let ghost before = fbs_builder::fbs_objects(*builder);
    let at = builder.create_vector(&items);
    assert forall|k: int| 0 <= k < items@.len() implies attr_at(
        fbs_builder::fbs_objects(*builder),
        #[trigger] items@[k],
        of_kind(all, kind)[k],
    ) by {
        lemma_attr_kept(
            before,
            fbs_builder::fbs_objects(*builder),
            items@[k],
            of_kind(all, kind)[k],
        );
    }
    at
}

/// Describes a configured target. There is no description without an execution platform.
pub fn target_to_fbs(builder: &mut FbsBuilder, node: &ExplainedNode) -> (r: Result<u32, String>)
    requires
        fbs_builder::is_ready(*old(builder)),
        fbs_builder::fbs_used(*old(builder)) + target_cost(*node) <= MAX_BUFFER,
    ensures
        fbs_builder::wrote(*old(builder), *final(builder), target_cost(*node)),
        match node.execution_platform {
            Ok(platform) => r matches Ok(at) && target_at(
                fbs_builder::fbs_objects(*final(builder)),
                at,
                *node,
                platform@,
            ),
            Err(e) => r == Err::<u32, String>(e),
        },
{
    let name = builder.create_shared_string(node.name.as_str());
    let label_text = node.label.display();
    let label = builder.create_shared_string(label_text.as_str());
    let oncall: Option<u32> = match &node.oncall {
        Some(s) => Some(builder.create_shared_string(s.as_str())),
        None => None,
    };
    let rule_type = builder.create_shared_string(node.rule_type.as_str());
    let package = builder.create_shared_string(node.buildfile_path.as_str());
    let target_configuration = builder.create_shared_string(node.target_configuration.as_str());
    let execution_platform = match &node.execution_platform {
        Ok(id) => builder.create_shared_string(id.as_str()),
        Err(e) => {
            return Err(e.clone());
        },
    };
    let dep_labels = explain::dep_strings(&node.deps);
    let deps = list_of_strings_to_fbs(builder, &dep_labels);
    let ghost after_deps = fbs_builder::fbs_objects(*builder);
    let plugins = list_of_strings_to_fbs(builder, &node.plugin_kinds);
    let ghost after_plugins = fbs_builder::fbs_objects(*builder);

    let attrs = explain::written_fields(&node.attrs);
    let ghost all = explain::written_attrs(node.attrs@);
    proof {
        lemma_kinds_split_cost(all);
    }
    let bool_attrs = attrs_to_fbs(builder, &attrs, Kind::Bool);
    let ghost after_bools = fbs_builder::fbs_objects(*builder);
    let int_attrs = attrs_to_fbs(builder, &attrs, Kind::Int);
    let ghost after_ints = fbs_builder::fbs_objects(*builder);
    let string_attrs = attrs_to_fbs(builder, &attrs, Kind::Text);
    let ghost after_texts = fbs_builder::fbs_objects(*builder);
    let list_of_strings_attrs = attrs_to_fbs(builder, &attrs, Kind::List);
    let ghost after_lists = fbs_builder::fbs_objects(*builder);
    let dict_of_strings_attrs = attrs_to_fbs(builder, &attrs, Kind::Dict);
    let ghost after_dicts = fbs_builder::fbs_objects(*builder);

    let start = builder.start_table();
    builder.push_ref(4, name);
    builder.push_ref(6, label);
    builder.push_ref(8, rule_type);
    builder.push_ref(10, deps);
    builder.push_ref(12, package);
    builder.push_optional_ref(14, oncall);
    builder.push_ref(16, target_configuration);
    builder.push_ref(18, execution_platform);
    builder.push_ref(20, plugins);
    builder.push_ref(22, bool_attrs);
    builder.push_ref(24, int_attrs);
    builder.push_ref(26, string_attrs);
    builder.push_ref(28, list_of_strings_attrs);
    builder.push_ref(30, dict_of_strings_attrs);
    let target = builder.end_table(start);
    proof {
        let end = fbs_builder::fbs_objects(*builder);
        lemma_texts_kept(after_deps, end, deps, explain::dep_texts(node.deps@));
        lemma_texts_kept(after_plugins, end, plugins, text::views(node.plugin_kinds@));
        lemma_attrs_kept(after_bools, end, bool_attrs, of_kind(all, Kind::Bool));
        lemma_attrs_kept(after_ints, end, int_attrs, of_kind(all, Kind::Int));
        lemma_attrs_kept(after_texts, end, string_attrs, of_kind(all, Kind::Text));
        lemma_attrs_kept(after_lists, end, list_of_strings_attrs, of_kind(all, Kind::List));
        lemma_attrs_kept(after_dicts, end, dict_of_strings_attrs, of_kind(all, Kind::Dict));
    }
    Ok(target)
}

/// Every target has an execution platform.
pub open spec fn all_have_platforms(nodes: Seq<ExplainedNode>) -> bool {
    forall|i: int| 0 <= i < nodes.len() ==> (#[trigger] nodes[i]).execution_platform is Ok
}

/// Target number `i` is the first without an execution platform.
pub open spec fn first_without_platform(nodes: Seq<ExplainedNode>, i: int) -> bool {
    &&& 0 <= i < nodes.len()
    &&& nodes[i].execution_platform is Err
    &&& all_have_platforms(nodes.take(i))
}

/// At `items` stand the descriptions of the first targets, one for each item.
pub open spec fn targets_at(
    objects: Map<u32, Object>,
    items: Seq<u32>,
    nodes: Seq<ExplainedNode>,
) -> bool {
    &&& items.len() <= nodes.len()
    &&& forall|i: int|
        0 <= i < items.len() ==> target_at(
            objects,
            #[trigger] items[i],
            nodes[i],
            nodes[i].execution_platform->Ok_0@,
        )
}

/// A table at `at` holds the descriptions of all targets, in order.
pub open spec fn build_at(objects: Map<u32, Object>, at: u32, nodes: Seq<ExplainedNode>) -> bool {
    objects.dom().contains(at) && match objects[at] {
        Object::Table(f) => f.dom().contains(4) && match f[4] {
            Slot::Ref(v) => objects.dom().contains(v) && match objects[v] {
                Object::Vector(items) => items.len() == nodes.len() && targets_at(
                    objects,
                    items,
                    nodes,
                ),
                _ => false,
            },
            _ => false,
        },
        _ => false,
    }
}

proof fn lemma_targets_kept(
    a: Map<u32, Object>,
    b: Map<u32, Object>,
    items: Seq<u32>,
    nodes: Seq<ExplainedNode>,
)
    requires
        fbs_builder::keeps(a, b),
        targets_at(a, items, nodes),
    ensures
        targets_at(b, items, nodes),
{
    assert forall|k: int| 0 <= k < items.len() implies target_at(
        b,
        #[trigger] items[k],
        nodes[k],
        nodes[k].execution_platform->Ok_0@,
    ) by {
        lemma_target_kept(a, b, items[k], nodes[k], nodes[k].execution_platform->Ok_0@);
    }
}

/// One more target has a platform.
proof fn lemma_one_more_platform(nodes: Seq<ExplainedNode>, n: int)
    requires
        0 <= n < nodes.len(),
        all_have_platforms(nodes.take(n)),
        nodes[n].execution_platform is Ok,
    ensures
        all_have_platforms(nodes.take(n + 1)),
{
    let next = nodes.take(n + 1);
    assert forall|k: int| 0 <= k < next.len() implies (
    #[trigger] next[k]).execution_platform is Ok by {
        if k < n {
            assert(nodes.take(n)[k].execution_platform is Ok);
        }
    }
}

/// What one more target may take is within what all of them may take.
proof fn lemma_one_more_target(nodes: Seq<ExplainedNode>, n: int)
    requires
        0 <= n < nodes.len(),
    ensures
        targets_cost(nodes.take(n + 1)) == targets_cost(nodes.take(n)) + target_cost(nodes[n]) + 4,
        targets_cost(nodes.take(n + 1)) <= targets_cost(nodes),
{
    let next = nodes.take(n + 1);
    assert(next.drop_last() =~= nodes.take(n));
    assert(next.last() == nodes[n]);
    lemma_targets_cost_grows(nodes, n + 1);
}

/// Describes configured targets one after another.
#[verifier::spinoff_prover]
fn targets_to_fbs(builder: &mut FbsBuilder, data: &Vec<ExplainedNode>) -> (r: Result<
    Vec<u32>,
    String,
>)
    requires
        fbs_builder::is_ready(*old(builder)),
        fbs_builder::fbs_used(*old(builder)) == 0,
        targets_cost(data@) <= MAX_BUFFER,
    ensures
        match r {
            Ok(targets) => {
                &&& all_have_platforms(data@)
                &&& targets@.len() == data@.len()
                &&& fbs_builder::is_ready(*final(builder))
                &&& fbs_builder::fbs_used(*final(builder)) + 4 * data@.len() <= targets_cost(data@)
                &&& targets_at(fbs_builder::fbs_objects(*final(builder)), targets@, data@)
            },
            Err(e) => exists|i: int| #[trigger]
                first_without_platform(data@, i) && data@[i].execution_platform == Err::<
                    String,
                    String,
                >(e),
        },
{
    let mut targets: Vec<u32> = Vec::new();
    let mut i: usize = 0;
    proof {
        assert(data@.take(0) =~= Seq::empty());
    }
    while i < data.len()
        invariant
            i <= data@.len(),
            targets@.len() == i,
            targets_cost(data@) <= MAX_BUFFER,
            fbs_builder::is_ready(*builder),
            fbs_builder::fbs_used(*builder) + 4 * i <= targets_cost(data@.take(i as int)),
            all_have_platforms(data@.take(i as int)),
            targets_at(fbs_builder::fbs_objects(*builder), targets@, data@),
        decreases data@.len() - i,
    {
        let ghost before = fbs_builder::fbs_objects(*builder);
        let ghost known = targets@;
        proof {
            lemma_one_more_target(data@, i as int);
        }
        match target_to_fbs(builder, &data[i]) {
            Ok(target) => {
                targets.push(target);
            },
            Err(e) => {
                assert(first_without_platform(data@, i as int));
                return Err(e);
            },
        }
        proof {
            lemma_one_more_platform(data@, i as int);
            lemma_targets_kept(before, fbs_builder::fbs_objects(*builder), known, data@);
            assert forall|k: int| 0 <= k < targets@.len() implies target_at(
                fbs_builder::fbs_objects(*builder),
                #[trigger] targets@[k],
                data@[k],
                data@[k].execution_platform->Ok_0@,
            ) by {
                if k < i {
                    assert(targets@[k] == known[k]);
                }
            }
        }
        i = i + 1;
    }
    assert(data@.take(data@.len() as int) =~= data@);
    Ok(targets)
}

/// Describes configured targets in one finished buffer.
pub fn gen_fbs(data: &Vec<ExplainedNode>) -> (r: Result<FbsBuilder, String>)
    requires
        build_cost(data@) <= MAX_BUFFER,
    ensures
        match r {
            Ok(b) => {
                &&& all_have_platforms(data@)
                &&& fbs_builder::fbs_roots(b).len() == 1
                &&& build_at(
                    fbs_builder::fbs_objects(b),
                    fbs_builder::fbs_roots(b)[0],
                    data@,
                )
            },
            Err(e) => exists|i: int| #[trigger]
                first_without_platform(data@, i) && data@[i].execution_platform == Err::<
                    String,
                    String,
                >(e),
        },
{
    let mut builder = FbsBuilder::new();
    let targets = match targets_to_fbs(&mut builder, data) {
        Ok(targets) => targets,
        Err(e) => {
            return Err(e);
        },
    };
    let ghost before = fbs_builder::fbs_objects(builder);
    let vector = builder.create_vector(&targets);
    let start = builder.start_table();
    builder.push_ref(4, vector);
    let build = builder.end_table(start);
    builder.finish(build);
    proof {
        lemma_targets_kept(before, fbs_builder::fbs_objects(builder), targets@, data@);
    }
    Ok(builder)
}

/// `after` is what is left of `before` once `cost` is taken from it. Nothing is left of a budget
/// that was overdrawn.
#[verifier::opaque]
pub open spec fn charged(before: Option<u64>, after: Option<u64>, cost: nat) -> bool {
    match before {
        Some(left) => if cost <= left {
            after == Some((left - cost) as u64)
        } else {
            after is None
        },
        None => after is None,
    }
}

/// A budget for one buffer, or what is left of it.
pub open spec fn within_buffer(budget: Option<u64>) -> bool {
    budget matches Some(left) ==> left <= MAX_BUFFER
}

proof fn lemma_charged_adds(a: Option<u64>, b: Option<u64>, c: Option<u64>, x: nat, y: nat)
    requires
        within_buffer(a),
        charged(a, b, x),
        charged(b, c, y),
    ensures
        within_buffer(c),
        charged(a, c, x + y),
{
    reveal(charged);
}

proof fn lemma_nothing_charged(a: Option<u64>)
    requires
        within_buffer(a),
    ensures
        charged(a, a, 0),
{
    reveal(charged);
}

/// Takes `n` from a budget.
fn charge(budget: Option<u64>, n: u64) -> (r: Option<u64>)
    ensures
        charged(budget, r, n as nat),
{
    proof {
        reveal(charged);
    }
    match budget {
        Some(left) => if n <= left {
            Some(left - n)
        } else {
            None
        },
        None => None,
    }
}

fn charge_text(budget: Option<u64>, s: &str) -> (r: Option<u64>)
    requires
        within_buffer(budget),
    ensures
        charged(budget, r, fbs_builder::text_cost(s@)),
{
    proof {
        reveal(charged);
    }
    let n: u64 = s.as_bytes().len() as u64;
    if n > MAX_BUFFER {
        None
    } else {
        charge(budget, n + 8)
    }
}

fn charge_vector(budget: Option<u64>, len: usize) -> (r: Option<u64>)
    requires
        within_buffer(budget),
    ensures
        charged(budget, r, fbs_builder::vector_cost(len as nat)),
{
    proof {
        reveal(charged);
    }
    let n: u64 = len as u64;
    if n > MAX_BUFFER {
        None
    } else {
        charge(budget, 4 * n + 8)
    }
}

fn charge_text_list(budget: Option<u64>, list: &Vec<String>) -> (r: Option<u64>)
    requires
        within_buffer(budget),
    ensures
        charged(budget, r, text_list_cost(text::views(list@))),
{
    let ghost all = text::views(list@);
    let mut left = budget;
    let mut i: usize = 0;
    proof {
        reveal(charged);
        assert(all.take(0) =~= Seq::empty());
    }
    while i < list.len()
        invariant
            i <= list@.len(),
            all == text::views(list@),
            within_buffer(budget),
            charged(budget, left, texts_cost(all.take(i as int))),
        decreases list@.len() - i,
    {
        proof {
            reveal(charged);
            let next = all.take(i + 1);
            assert(next.drop_last() =~= all.take(i as int));
            assert(next.last() == list@[i as int]@);
        }
        left = charge_text(left, list[i].as_str());
        i = i + 1;
    }
    assert(all.take(all.len() as int) =~= all);
    charge_vector(left, list.len())
}

fn charge_dict(budget: Option<u64>, dict: &Vec<(String, String)>) -> (r: Option<u64>)
    requires
        within_buffer(budget),
    ensures
        charged(
            budget,
            r,
            pairs_cost(explain::pair_views(dict@)) + fbs_builder::vector_cost(dict@.len()),
        ),
{
    let ghost all = explain::pair_views(dict@);
    let mut left = budget;
    let mut i: usize = 0;
    proof {
        reveal(charged);
        assert(all.take(0) =~= Seq::empty());
    }
    while i < dict.len()
        invariant
            i <= dict@.len(),
            all == explain::pair_views(dict@),
            within_buffer(budget),
            charged(budget, left, pairs_cost(all.take(i as int))),
        decreases dict@.len() - i,
    {
        proof {
            reveal(charged);
            let next = all.take(i + 1);
            assert(next.drop_last() =~= all.take(i as int));
            assert(next.last() == all[i as int]);
        }
        left = charge_text(left, dict[i].0.as_str());
        left = charge_text(left, dict[i].1.as_str());
        left = charge(left, 96);
        i = i + 1;
    }
    assert(all.take(all.len() as int) =~= all);
    charge_vector(left, dict.len())
}

fn charge_field(budget: Option<u64>, field: &AttrField) -> (r: Option<u64>)
    requires
        within_buffer(budget),
    ensures
        charged(budget, r, field_cost(field@)),
{
    proof {
        reveal(charged);
    }
    let left = charge(budget, 96);
    match field {
        AttrField::Bool(name, _) => charge_text(left, name.as_str()),
        AttrField::Int(name, _) => charge_text(left, name.as_str()),
        AttrField::String(name, value) => charge_text(
            charge_text(left, name.as_str()),
            value.as_str(),
        ),
        AttrField::StringList(name, list) => charge_text_list(
            charge_text(left, name.as_str()),
            list,
        ),
        AttrField::StringDict(name, dict) => charge_dict(charge_text(left, name.as_str()), dict),
    }
}

fn charge_fields(budget: Option<u64>, fields: &Vec<AttrField>) -> (r: Option<u64>)
    requires
        within_buffer(budget),
    ensures
        charged(budget, r, fields_cost(explain::field_views(fields@))),
{
    let ghost all = explain::field_views(fields@);
    let mut left = budget;
    let mut i: usize = 0;
    proof {
        reveal(charged);
        assert(all.take(0) =~= Seq::empty());
    }
    while i < fields.len()
        invariant
            i <= fields@.len(),
            all == explain::field_views(fields@),
            within_buffer(budget),
            charged(budget, left, fields_cost(all.take(i as int))),
        decreases fields@.len() - i,
    {
        proof {
            reveal(charged);
            let next = all.take(i + 1);
            assert(next.drop_last() =~= all.take(i as int));
            assert(next.last() == fields@[i as int]@);
        }
        left = charge_field(left, &fields[i]);
        left = charge(left, 4);
        i = i + 1;
    }
    assert(all.take(all.len() as int) =~= all);
    left
}

fn charge_target(budget: Option<u64>, node: &ExplainedNode) -> (r: Option<u64>)
    requires
        within_buffer(budget),
    ensures
        charged(budget, r, target_cost(*node)),
{
    let label = node.label.display();
    let deps = explain::dep_strings(&node.deps);
    let fields = explain::written_fields(&node.attrs);
    let mut left = budget;
    let ghost mut before = budget;
    let ghost mut spent: nat = 0;
    proof {
        lemma_nothing_charged(budget);
    }
    left = charge_text(left, node.name.as_str());
    proof {
        let cost = fbs_builder::text_cost(node.name@);
        lemma_charged_adds(budget, before, left, spent, cost);
        spent = spent + cost;
        before = left;
    }
    left = charge_text(left, label.as_str());
    proof {
        let cost = fbs_builder::text_cost(label@);
        lemma_charged_adds(budget, before, left, spent, cost);
        spent = spent + cost;
        before = left;
    }
    match &node.oncall {
        Some(s) => {
            left = charge_text(left, s.as_str());
            proof {
                let cost = fbs_builder::text_cost(s@);
                lemma_charged_adds(budget, before, left, spent, cost);
                spent = spent + cost;
                before = left;
            }
        },
        None => {},
    }
    left = charge_text(left, node.rule_type.as_str());
    proof {
        let cost = fbs_builder::text_cost(node.rule_type@);
        lemma_charged_adds(budget, before, left, spent, cost);
        spent = spent + cost;
        before = left;
    }
    left = charge_text(left, node.buildfile_path.as_str());
    proof {
        let cost = fbs_builder::text_cost(node.buildfile_path@);
        lemma_charged_adds(budget, before, left, spent, cost);
        spent = spent + cost;
        before = left;
    }
    left = charge_text(left, node.target_configuration.as_str());
    proof {
        let cost = fbs_builder::text_cost(node.target_configuration@);
        lemma_charged_adds(budget, before, left, spent, cost);
        spent = spent + cost;
        before = left;
    }
    match &node.execution_platform {
        Ok(s) => {
            left = charge_text(left, s.as_str());
            proof {
                let cost = fbs_builder::text_cost(s@);
                lemma_charged_adds(budget, before, left, spent, cost);
                spent = spent + cost;
                before = left;
            }
        },
        Err(_) => {},
    }
    left = charge_text_list(left, &deps);
    proof {
        let cost = text_list_cost(text::views(deps@));
        lemma_charged_adds(budget, before, left, spent, cost);
        spent = spent + cost;
        before = left;
    }
    left = charge_text_list(left, &node.plugin_kinds);
    proof {
        let cost = text_list_cost(text::views(node.plugin_kinds@));
        lemma_charged_adds(budget, before, left, spent, cost);
        spent = spent + cost;
        before = left;
    }
    left = charge_fields(left, &fields);
    proof {
        let cost = fields_cost(explain::field_views(fields@));
        lemma_charged_adds(budget, before, left, spent, cost);
        spent = spent + cost;
        before = left;
    }
    left = charge(left, 328);
    proof {
        lemma_charged_adds(budget, before, left, spent, 328);
    }
    left
}

/// Whether the descriptions of some targets surely fit in one buffer.
pub fn fits_in_buffer(data: &Vec<ExplainedNode>) -> (r: bool)
    ensures
        r == (build_cost(data@) <= MAX_BUFFER),
{
    let budget: Option<u64> = Some(MAX_BUFFER);
    let mut left = budget;
    let mut i: usize = 0;
    proof {
        reveal(charged);
        assert(data@.take(0) =~= Seq::empty());
    }
    while i < data.len()
        invariant
            i <= data@.len(),
            budget == Some(MAX_BUFFER),
            charged(budget, left, targets_cost(data@.take(i as int))),
        decreases data@.len() - i,
    {
        proof {
            reveal(charged);
            let next = data@.take(i + 1);
            assert(next.drop_last() =~= data@.take(i as int));
            assert(next.last() == data@[i as int]);
        }
        left = charge_target(left, &data[i]);
        left = charge(left, 4);
        i = i + 1;
    }
    assert(data@.take(data@.len() as int) =~= data@);
    charge(left, 152).is_some()
}

/// Every attribute that is written stands in the list of its kind, and in no other; no list holds
/// anything else.
pub proof fn law_every_attribute_is_in_one_list(fields: Seq<FieldView>, f: FieldView, kind: Kind)
    ensures
        of_kind(fields, kind).contains(f) <==> fields.contains(f) && kind_of(f) == kind,
    decreases fields.len(),
{
    if fields.len() == 0 {
        assert(!of_kind(fields, kind).contains(f));
    } else {
        let rest = fields.drop_last();
        let last = fields.last();
        law_every_attribute_is_in_one_list(rest, f, kind);
        assert(fields =~= rest.push(last));
        assert(fields.contains(f) <==> rest.contains(f) || f == last) by {
            if rest.contains(f) {
                let k = choose|k: int| 0 <= k < rest.len() && rest[k] == f;
                assert(fields[k] == f);
            }
            if f == last {
                assert(fields[fields.len() - 1] == f);
            }
            if fields.contains(f) && f != last {
                let k = choose|k: int| 0 <= k < fields.len() && fields[k] == f;
                assert(rest[k] == f);
            }
        }
        let list = of_kind(rest, kind);
        assert(list.push(last).contains(f) <==> list.contains(f) || f == last) by {
            if list.contains(f) {
                let k = choose|k: int| 0 <= k < list.len() && list[k] == f;
                assert(list.push(last)[k] == f);
            }
            if f == last {
                assert(list.push(last)[list.len() as int] == f);
            }
            if list.push(last).contains(f) && f != last {
                let k = choose|k: int| 0 <= k < list.push(last).len() && list.push(last)[k] == f;
                assert(list[k] == f);
            }
        }
    }
}

/// What was described stays described while more is written.
pub proof fn law_descriptions_stay(
    before: FbsBuilder,
    after: FbsBuilder,
    cost: nat,
    at: u32,
    node: ExplainedNode,
    platform: Seq<char>,
)
    requires
        fbs_builder::wrote(before, after, cost),
        target_at(fbs_builder::fbs_objects(before), at, node, platform),
    ensures
        target_at(fbs_builder::fbs_objects(after), at, node, platform),
{
    lemma_target_kept(
        fbs_builder::fbs_objects(before),
        fbs_builder::fbs_objects(after),
        at,
        node,
        platform,
    );
}

/// The field `slot` points to a vector in which the table of the attribute `field` stands.
pub open spec fn is_listed(
    objects: Map<u32, Object>,
    fields: Map<u16, Slot>,
    slot: u16,
    field: FieldView,
) -> bool {
    &&& fields.dom().contains(slot) && fields[slot] is Ref
    &&& objects.dom().contains(fields[slot]->Ref_0) && objects[fields[slot]->Ref_0] is Vector
    &&& exists|j: int|
        0 <= j < objects[fields[slot]->Ref_0]->Vector_0.len() && attr_at(
            objects,
            #[trigger] objects[fields[slot]->Ref_0]->Vector_0[j],
            field,
        )
}

proof fn lemma_is_listed(
    objects: Map<u32, Object>,
    fields: Map<u16, Slot>,
    slot: u16,
    attrs: Seq<FieldView>,
    kind: Kind,
    field: FieldView,
)
    requires
        attrs_field(objects, fields, slot, of_kind(attrs, kind)),
        attrs.contains(field),
        kind_of(field) == kind,
    ensures
        is_listed(objects, fields, slot, field),
{
    law_every_attribute_is_in_one_list(attrs, field, kind);
    let list = of_kind(attrs, kind);
    let j = choose|j: int| 0 <= j < list.len() && list[j] == field;
    let items = objects[fields[slot]->Ref_0]->Vector_0;
    assert(attr_at(objects, items[j], list[j]));
}

/// Every attribute of a target but its name is described: in the vector of its kind stands a table
/// that holds its name and its value.
pub proof fn law_every_attribute_is_described(
    objects: Map<u32, Object>,
    at: u32,
    node: ExplainedNode,
    platform: Seq<char>,
    i: int,
)
    requires
        target_at(objects, at, node, platform),
        0 <= i < node.attrs@.len(),
        node.attrs@[i].0@ != "name"@,
    ensures
        objects.dom().contains(at) && objects[at] is Table,
        ({
            let f = objects[at]->Table_0;
            let field = explain::categorized(node.attrs@[i].1, node.attrs@[i].0@);
            &&& field is Bool ==> is_listed(objects, f, 22, field)
            &&& field is Int ==> is_listed(objects, f, 24, field)
            &&& field is Text ==> is_listed(objects, f, 26, field)
            &&& field is List ==> is_listed(objects, f, 28, field)
            &&& field is Dict ==> is_listed(objects, f, 30, field)
        }),
{
    let field = explain::categorized(node.attrs@[i].1, node.attrs@[i].0@);
    let attrs = explain::written_attrs(node.attrs@);
    explain::law_every_attribute_but_the_name_is_written(node.attrs@, i);
    let n = explain::written_attrs(node.attrs@.take(i)).len() as int;
    assert(attrs[n] == field);
    assert(attrs.contains(field));
    let f = objects[at]->Table_0;
    match field {
        FieldView::Bool(_, _) => lemma_is_listed(objects, f, 22, attrs, Kind::Bool, field),
        FieldView::Int(_, _) => lemma_is_listed(objects, f, 24, attrs, Kind::Int, field),
        FieldView::Text(_, _) => lemma_is_listed(objects, f, 26, attrs, Kind::Text, field),
        FieldView::List(_, _) => lemma_is_listed(objects, f, 28, attrs, Kind::List, field),
        FieldView::Dict(_, _) => lemma_is_listed(objects, f, 30, attrs, Kind::Dict, field),
    }
}

/// What stands in a field that points to a text.
pub open spec fn field_text(
    objects: Map<u32, Object>,
    fields: Map<u16, Slot>,
    slot: u16,
) -> Option<Seq<char>> {
    if fields.dom().contains(slot) && fields[slot] is Ref && objects.dom().contains(
        fields[slot]->Ref_0,
    ) && objects[fields[slot]->Ref_0] is Text {
        Some(objects[fields[slot]->Ref_0]->Text_0)
    } else {
        None
    }
}

/// The table of an attribute holds its name in the first field and its value in the second: a list
/// with all its texts, and a dictionary with all its entries, in order. A truth value that is false
/// and a number that is zero may be left out.
pub proof fn law_what_an_attribute_holds(objects: Map<u32, Object>, at: u32, f: FieldView, i: int)
    requires
        attr_at(objects, at, f),
    ensures
        objects.dom().contains(at) && objects[at] is Table,
        ({
            let fields = objects[at]->Table_0;
            &&& field_text(objects, fields, 4) == Some(
                match f {
                    FieldView::Bool(key, _) => key,
                    FieldView::Int(key, _) => key,
                    FieldView::Text(key, _) => key,
                    FieldView::List(key, _) => key,
                    FieldView::Dict(key, _) => key,
                },
            )
            &&& f is Text ==> field_text(objects, fields, 6) == Some(f->Text_1)
            &&& f is Bool && f->Bool_1 ==> fields.dom().contains(6) && fields[6] == Slot::Bool(true)
            &&& f is Bool && !f->Bool_1 ==> fields.dom().contains(6) ==> fields[6] == Slot::Bool(
                false,
            )
            &&& f is Int && f->Int_1 != 0 ==> fields.dom().contains(6) && fields[6] == Slot::Int(
                f->Int_1,
            )
            &&& f is Int && f->Int_1 == 0 ==> fields.dom().contains(6) ==> fields[6] == Slot::Int(0)
            &&& f is List || f is Dict ==> fields.dom().contains(6) && fields[6] is Ref
                && objects.dom().contains(fields[6]->Ref_0) && objects[fields[6]->Ref_0] is Vector
            &&& f is List ==> {
                let items = objects[fields[6]->Ref_0]->Vector_0;
                &&& items.len() == f->List_1.len()
                &&& 0 <= i < items.len() ==> objects.dom().contains(items[i]) && objects[items[i]]
                    == Object::Text(f->List_1[i])
            }
            &&& f is Dict ==> {
                let items = objects[fields[6]->Ref_0]->Vector_0;
                &&& items.len() == f->Dict_1.len()
                &&& 0 <= i < items.len() ==> {
                    &&& objects.dom().contains(items[i]) && objects[items[i]] is Table
                    &&& field_text(objects, objects[items[i]]->Table_0, 4) == Some(f->Dict_1[i].0)
                    &&& field_text(objects, objects[items[i]]->Table_0, 6) == Some(f->Dict_1[i].1)
                }
            }
        }),
{
    let fields = objects[at]->Table_0;
    match f {
        FieldView::List(_, list) => {
            let items = objects[fields[6]->Ref_0]->Vector_0;
            if 0 <= i < items.len() {
                assert(fbs_builder::text_at(objects, items[i], list[i]));
            }
        },
        FieldView::Dict(_, dict) => {
            let items = objects[fields[6]->Ref_0]->Vector_0;
            if 0 <= i < items.len() {
                assert(pair_at(objects, items[i], dict[i]));
            }
        },
        _ => {},
    }
}

/// The description of a target holds its name, label, rule type, build file, configuration and
/// execution platform, who is on call where that is known, and all its dependencies and kinds of
/// plugins, in order.
pub proof fn law_what_a_description_holds(
    objects: Map<u32, Object>,
    at: u32,
    node: ExplainedNode,
    platform: Seq<char>,
    i: int,
)
    requires
        target_at(objects, at, node, platform),
    ensures
        objects.dom().contains(at) && objects[at] is Table,
        ({
            let f = objects[at]->Table_0;
            &&& field_text(objects, f, 4) == Some(node.name@)
            &&& field_text(objects, f, 6) == Some(labels::configured_label_text(node.label@))
            &&& field_text(objects, f, 8) == Some(node.rule_type@)
            &&& field_text(objects, f, 12) == Some(node.buildfile_path@)
            &&& node.oncall is Some ==> field_text(objects, f, 14) == Some(node.oncall->0@)
            &&& node.oncall is None ==> !f.dom().contains(14)
            &&& field_text(objects, f, 16) == Some(node.target_configuration@)
            &&& field_text(objects, f, 18) == Some(platform)
            &&& f.dom().contains(10) && f[10] is Ref && objects.dom().contains(f[10]->Ref_0)
                && objects[f[10]->Ref_0] is Vector
            &&& f.dom().contains(20) && f[20] is Ref && objects.dom().contains(f[20]->Ref_0)
                && objects[f[20]->Ref_0] is Vector
            &&& objects[f[10]->Ref_0]->Vector_0.len() == node.deps@.len()
            &&& 0 <= i < node.deps@.len() ==> {
                let item = objects[f[10]->Ref_0]->Vector_0[i];
                objects.dom().contains(item) && objects[item] == Object::Text(
                    labels::configured_label_text(node.deps@[i]@),
                )
            }
            &&& objects[f[20]->Ref_0]->Vector_0.len() == node.plugin_kinds@.len()
            &&& 0 <= i < node.plugin_kinds@.len() ==> {
                let item = objects[f[20]->Ref_0]->Vector_0[i];
                objects.dom().contains(item) && objects[item] == Object::Text(
                    node.plugin_kinds@[i]@,
                )
            }
        }),
{
    let f = objects[at]->Table_0;
    let deps = explain::dep_texts(node.deps@);
    let kinds = text::views(node.plugin_kinds@);
    assert(texts_at(objects, f[10]->Ref_0, deps));
    assert(texts_at(objects, f[20]->Ref_0, kinds));
    if 0 <= i < deps.len() {
        assert(fbs_builder::text_at(objects, objects[f[10]->Ref_0]->Vector_0[i], deps[i]));
    }
    if 0 <= i < kinds.len() {
        assert(fbs_builder::text_at(objects, objects[f[20]->Ref_0]->Vector_0[i], kinds[i]));
    }
}

/// The root of a finished buffer lists a description for every target, in order.
pub proof fn law_every_target_is_described(
    objects: Map<u32, Object>,
    at: u32,
    nodes: Seq<ExplainedNode>,
    i: int,
)
    requires
        build_at(objects, at, nodes),
    ensures
        objects.dom().contains(at) && objects[at] is Table,
        ({
            let f = objects[at]->Table_0;
            &&& f.dom().contains(4) && f[4] is Ref
            &&& objects.dom().contains(f[4]->Ref_0) && objects[f[4]->Ref_0] is Vector
            &&& objects[f[4]->Ref_0]->Vector_0.len() == nodes.len()
            &&& 0 <= i < nodes.len() ==> target_at(
                objects,
                objects[f[4]->Ref_0]->Vector_0[i],
                nodes[i],
                nodes[i].execution_platform->Ok_0@,
            )
        }),
{
    let f = objects[at]->Table_0;
    let items = objects[f[4]->Ref_0]->Vector_0;
    assert(targets_at(objects, items, nodes));
    if 0 <= i < items.len() {
        assert(target_at(objects, items[i], nodes[i], nodes[i].execution_platform->Ok_0@));
    }
}

} // verus!
