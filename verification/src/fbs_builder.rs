//! Buffers in the FlatBuffers format, written with the `flatbuffers` crate.
//!
//! A buffer holds texts, vectors and tables. Each is known by its offset, counted from the end of
//! the buffer, so that it stays the same while more is written.
use vstd::prelude::*;
use vstd::string::*;
use vstd::utf8::*;

verus! {

/// A field of a table.
pub enum Slot {
    /// The text, vector or table at an offset.
    Ref(u32),
    Bool(bool),
    Int(i64),
}

/// What stands at an offset.
pub enum Object {
    Text(Seq<char>),
    Vector(Seq<u32>),
    Table(Map<u16, Slot>),
}

/// A buffer that is being written.
#[verifier::external_body]
pub struct FbsBuilder {
    inner: flatbuffers::FlatBufferBuilder<'static>,
}

/// What has been written to a buffer, by offset.
pub uninterp spec fn fbs_objects(b: FbsBuilder) -> Map<u32, Object>;

/// The table under construction, if there is one: where it began, and its fields so far.
pub uninterp spec fn fbs_open(b: FbsBuilder) -> Seq<(u32, Map<u16, Slot>)>;

/// The table that was made the root of the buffer, once the buffer is finished.
pub uninterp spec fn fbs_roots(b: FbsBuilder) -> Seq<u32>;

/// How many bytes have been written.
pub uninterp spec fn fbs_used(b: FbsBuilder) -> nat;

/// The bytes of a finished buffer.
pub uninterp spec fn fbs_bytes(b: FbsBuilder) -> Seq<u8>;

/// The format allows no buffer of two gibibytes or more.
pub const MAX_BUFFER: u64 = 0x7fff_ffff;

/// The most that a text takes: its bytes, a zero after them, its length before them, and up to three
/// bytes to align it.
pub open spec fn text_cost(s: Seq<char>) -> nat {
    encode_utf8(s).len() + 8
}

/// The most that a vector with `n` items takes: the items, their number, and up to three bytes to align
/// them.
pub open spec fn vector_cost(n: nat) -> nat {
    4 * n + 8
}

/// The most that a field of a table takes.
pub open spec fn slot_cost() -> nat {
    16
}

/// The most that the rest of a table takes.
pub open spec fn table_cost() -> nat {
    64
}

/// Texts, vectors and tables may be written: no table is under construction, and the buffer is
/// not finished.
pub open spec fn is_ready(b: FbsBuilder) -> bool {
    fbs_open(b).len() == 0 && fbs_roots(b).len() == 0
}

/// No objects.
pub open spec fn no_objects() -> Map<u32, Object> {
    Map::empty()
}

/// No fields.
pub open spec fn no_fields() -> Map<u16, Slot> {
    Map::empty()
}

/// `FlatBufferBuilder::new`: nothing is written yet.
#[verifier::external_body]
fn fbs_new() -> (r: FbsBuilder)
    ensures
        fbs_objects(r) == no_objects(),
        is_ready(r),
        fbs_used(r) == 0,
{
    FbsBuilder { inner: flatbuffers::FlatBufferBuilder::new() }
}

/// `FlatBufferBuilder::create_shared_string`: writes a text, or finds it where it was written
/// before.
#[verifier::external_body]
fn fbs_create_shared_string(b: &mut FbsBuilder, s: &str) -> (r: u32)
    requires
        is_ready(*old(b)),
        fbs_used(*old(b)) + text_cost(s@) <= MAX_BUFFER,
    ensures
        fbs_objects(*final(b)) == fbs_objects(*old(b)).insert(r, Object::Text(s@)),
        fbs_objects(*old(b)).dom().contains(r) ==> fbs_objects(*old(b))[r] == Object::Text(s@),
        is_ready(*final(b)),
        fbs_used(*final(b)) <= fbs_used(*old(b)) + text_cost(s@),
{
    b.inner.create_shared_string(s).value()
}

/// `FlatBufferBuilder::create_vector`, of the offsets of what was written before.
#[verifier::external_body]
fn fbs_create_vector(b: &mut FbsBuilder, items: &Vec<u32>) -> (r: u32)
    requires
        is_ready(*old(b)),
        forall|i: int|
            0 <= i < items@.len() ==> fbs_objects(*old(b)).dom().contains(#[trigger] items@[i]),
        fbs_used(*old(b)) + vector_cost(items@.len()) <= MAX_BUFFER,
    ensures
        fbs_objects(*final(b)) == fbs_objects(*old(b)).insert(r, Object::Vector(items@)),
        !fbs_objects(*old(b)).dom().contains(r),
        is_ready(*final(b)),
        fbs_used(*final(b)) <= fbs_used(*old(b)) + vector_cost(items@.len()),
{
    let offsets: Vec<flatbuffers::WIPOffset<()>> = items.iter().map(
        |o| flatbuffers::WIPOffset::new(*o),
    ).collect();
    b.inner.create_vector(&offsets).value()
}

/// `FlatBufferBuilder::start_table`: begins a table without fields.
#[verifier::external_body]
fn fbs_start_table(b: &mut FbsBuilder) -> (r: u32)
    requires
        is_ready(*old(b)),
    ensures
        fbs_objects(*final(b)) == fbs_objects(*old(b)),
        fbs_open(*final(b)) == seq![(r, no_fields())],
        fbs_roots(*final(b)).len() == 0,
        fbs_used(*final(b)) == fbs_used(*old(b)),
{
    b.inner.start_table().value()
}

/// A field may be added under number `slot`. Numbers count bytes in steps of two, from four on.
pub open spec fn takes_slot(b: FbsBuilder, slot: u16) -> bool {
    &&& fbs_open(b).len() == 1
    &&& fbs_roots(b).len() == 0
    &&& !fbs_open(b)[0].1.dom().contains(slot)
    &&& 4 <= slot <= 32
    &&& slot % 2 == 0
    &&& fbs_used(b) + slot_cost() <= MAX_BUFFER
}

/// `after` is `before` with fields `fields` in the table under construction.
pub open spec fn has_fields(before: FbsBuilder, after: FbsBuilder, fields: Map<u16, Slot>) -> bool {
    &&& fbs_objects(after) == fbs_objects(before)
    &&& fbs_open(after) == seq![(fbs_open(before)[0].0, fields)]
    &&& fbs_roots(after).len() == 0
    &&& fbs_used(after) <= fbs_used(before) + slot_cost()
}

/// `FlatBufferBuilder::push_slot_always`, with the offset of what was written before.
#[verifier::external_body]
fn fbs_push_ref(b: &mut FbsBuilder, slot: u16, target: u32)
    requires
        takes_slot(*old(b), slot),
        fbs_objects(*old(b)).dom().contains(target),
    ensures
        has_fields(
            *old(b),
            *final(b),
            fbs_open(*old(b))[0].1.insert(slot, Slot::Ref(target)),
        ),
{
    b.inner.push_slot_always(slot, flatbuffers::WIPOffset::<()>::new(target));
}

/// `FlatBufferBuilder::push_slot` with the default `false`, which is not written.
#[verifier::external_body]
fn fbs_push_bool(b: &mut FbsBuilder, slot: u16, value: bool)
    requires
        takes_slot(*old(b), slot),
    ensures
        has_fields(
            *old(b),
            *final(b),
            if value {
                fbs_open(*old(b))[0].1.insert(slot, Slot::Bool(value))
            } else {
                fbs_open(*old(b))[0].1
            },
        ),
{
    b.inner.push_slot(slot, value, false);
}

/// `FlatBufferBuilder::push_slot` with the default zero, which is not written.
#[verifier::external_body]
fn fbs_push_int(b: &mut FbsBuilder, slot: u16, value: i64)
    requires
        takes_slot(*old(b), slot),
    ensures
        has_fields(
            *old(b),
            *final(b),
            if value != 0 {
                fbs_open(*old(b))[0].1.insert(slot, Slot::Int(value))
            } else {
                fbs_open(*old(b))[0].1
            },
        ),
{
    b.inner.push_slot(slot, value, 0);
}

/// `FlatBufferBuilder::end_table`: writes the table that `start` began.
#[verifier::external_body]
fn fbs_end_table(b: &mut FbsBuilder, start: u32) -> (r: u32)
    requires
        fbs_open(*old(b)).len() == 1,
        fbs_open(*old(b))[0].0 == start,
        fbs_roots(*old(b)).len() == 0,
        fbs_used(*old(b)) + table_cost() <= MAX_BUFFER,
    ensures
        fbs_objects(*final(b)) == fbs_objects(*old(b)).insert(
            r,
            Object::Table(fbs_open(*old(b))[0].1),
        ),
        !fbs_objects(*old(b)).dom().contains(r),
        is_ready(*final(b)),
        fbs_used(*final(b)) <= fbs_used(*old(b)) + table_cost(),
{
    b.inner.end_table(flatbuffers::WIPOffset::new(start)).value()
}

/// `FlatBufferBuilder::finish`, without a file identifier.
#[verifier::external_body]
fn fbs_finish(b: &mut FbsBuilder, root: u32)
    requires
        is_ready(*old(b)),
        fbs_objects(*old(b)).dom().contains(root),
        fbs_used(*old(b)) + table_cost() <= MAX_BUFFER,
    ensures
        fbs_objects(*final(b)) == fbs_objects(*old(b)),
        fbs_open(*final(b)).len() == 0,
        fbs_roots(*final(b)) == seq![root],
{
    b.inner.finish(flatbuffers::WIPOffset::<()>::new(root), None);
}

/// `FlatBufferBuilder::finished_data`: the bytes of a finished buffer.
#[verifier::external_body]
fn fbs_finished_data(b: &FbsBuilder) -> (r: Vec<u8>)
    requires
        fbs_roots(*b).len() == 1,
    ensures
        r@ == fbs_bytes(*b),
{
    b.inner.finished_data().to_vec()
}

/// All that is in `a` is in `b`.
pub open spec fn keeps(a: Map<u32, Object>, b: Map<u32, Object>) -> bool {
    forall|k: u32|
        #![trigger a.dom().contains(k)]
        #![trigger b.dom().contains(k)]
        a.dom().contains(k) ==> b.dom().contains(k) && b[k] == a[k]
}

/// Writing went on: all that was written is still there, and at most `cost` bytes were added.
pub open spec fn wrote(before: FbsBuilder, after: FbsBuilder, cost: nat) -> bool {
    &&& keeps(fbs_objects(before), fbs_objects(after))
    &&& is_ready(after)
    &&& fbs_used(after) <= fbs_used(before) + cost
}

/// `s` is written at `at`.
pub open spec fn text_at(objects: Map<u32, Object>, at: u32, s: Seq<char>) -> bool {
    objects.dom().contains(at) && objects[at] == Object::Text(s)
}

/// A vector with `items` is written at `at`.
pub open spec fn vector_at(objects: Map<u32, Object>, at: u32, items: Seq<u32>) -> bool {
    objects.dom().contains(at) && objects[at] == Object::Vector(items)
}

/// A table with `fields` is written at `at`.
pub open spec fn table_at(objects: Map<u32, Object>, at: u32, fields: Map<u16, Slot>) -> bool {
    objects.dom().contains(at) && objects[at] == Object::Table(fields)
}

impl FbsBuilder {
    /// A buffer with nothing in it.
    pub fn new() -> (r: Self)
        ensures
            fbs_objects(r) == no_objects(),
            is_ready(r),
            fbs_used(r) == 0,
    {
        fbs_new()
    }

    /// Writes a text once, however often it is asked for.
    pub fn create_shared_string(&mut self, s: &str) -> (r: u32)
        requires
            is_ready(*old(self)),
            fbs_used(*old(self)) + text_cost(s@) <= MAX_BUFFER,
        ensures
            text_at(fbs_objects(*final(self)), r, s@),
            wrote(*old(self), *final(self), text_cost(s@)),
    {
        fbs_create_shared_string(self, s)
    }

    /// Writes a vector of what was written before.
    pub fn create_vector(&mut self, items: &Vec<u32>) -> (r: u32)
        requires
            is_ready(*old(self)),
            forall|i: int|
                0 <= i < items@.len() ==> fbs_objects(*old(self)).dom().contains(
                    #[trigger] items@[i],
                ),
            fbs_used(*old(self)) + vector_cost(items@.len()) <= MAX_BUFFER,
        ensures
            vector_at(fbs_objects(*final(self)), r, items@),
            wrote(*old(self), *final(self), vector_cost(items@.len())),
    {
        fbs_create_vector(self, items)
    }

    /// Begins a table.
    pub fn start_table(&mut self) -> (r: u32)
        requires
            is_ready(*old(self)),
        ensures
            fbs_objects(*final(self)) == fbs_objects(*old(self)),
            fbs_open(*final(self)) == seq![(r, no_fields())],
            fbs_roots(*final(self)).len() == 0,
            fbs_used(*final(self)) == fbs_used(*old(self)),
    {
        fbs_start_table(self)
    }

    /// Adds a field that points to what was written before.
    pub fn push_ref(&mut self, slot: u16, target: u32)
        requires
            takes_slot(*old(self), slot),
            fbs_objects(*old(self)).dom().contains(target),
        ensures
            has_fields(
                *old(self),
                *final(self),
                fbs_open(*old(self))[0].1.insert(slot, Slot::Ref(target)),
            ),
    {
        fbs_push_ref(self, slot, target)
    }

    /// Adds a field that points to what was written before, if anything.
    pub fn push_optional_ref(&mut self, slot: u16, target: Option<u32>)
        requires
            takes_slot(*old(self), slot),
            target matches Some(t) ==> fbs_objects(*old(self)).dom().contains(t),
        ensures
            has_fields(
                *old(self),
                *final(self),
                match target {
                    Some(t) => fbs_open(*old(self))[0].1.insert(slot, Slot::Ref(t)),
                    None => fbs_open(*old(self))[0].1,
                },
            ),
    {
        match target {
            Some(t) => fbs_push_ref(self, slot, t),
            None => {
                assert(fbs_open(*self) =~= seq![(fbs_open(*self)[0].0, fbs_open(*self)[0].1)]);
            },
        }
    }

    /// Adds a truth value; `false` is left out.
    pub fn push_bool(&mut self, slot: u16, value: bool)
        requires
            takes_slot(*old(self), slot),
        ensures
            has_fields(
                *old(self),
                *final(self),
                if value {
                    fbs_open(*old(self))[0].1.insert(slot, Slot::Bool(value))
                } else {
                    fbs_open(*old(self))[0].1
                },
            ),
    {
        fbs_push_bool(self, slot, value)
    }

    /// Adds a number; zero is left out.
    pub fn push_int(&mut self, slot: u16, value: i64)
        requires
            takes_slot(*old(self), slot),
        ensures
            has_fields(
                *old(self),
                *final(self),
                if value != 0 {
                    fbs_open(*old(self))[0].1.insert(slot, Slot::Int(value))
                } else {
                    fbs_open(*old(self))[0].1
                },
            ),
    {
        fbs_push_int(self, slot, value)
    }

    /// Writes the table that `start` began.
    pub fn end_table(&mut self, start: u32) -> (r: u32)
        requires
            fbs_open(*old(self)).len() == 1,
            fbs_open(*old(self))[0].0 == start,
            fbs_roots(*old(self)).len() == 0,
            fbs_used(*old(self)) + table_cost() <= MAX_BUFFER,
        ensures
            table_at(fbs_objects(*final(self)), r, fbs_open(*old(self))[0].1),
            wrote(*old(self), *final(self), table_cost()),
    {
        fbs_end_table(self, start)
    }

    /// Makes a table the root of the buffer.
    pub fn finish(&mut self, root: u32)
        requires
            is_ready(*old(self)),
            fbs_objects(*old(self)).dom().contains(root),
            fbs_used(*old(self)) + table_cost() <= MAX_BUFFER,
        ensures
            fbs_objects(*final(self)) == fbs_objects(*old(self)),
            fbs_open(*final(self)).len() == 0,
            fbs_roots(*final(self)) == seq![root],
    {
        fbs_finish(self, root)
    }

    /// The bytes of a finished buffer.
    pub fn finished_data(&self) -> (r: Vec<u8>)
        requires
            fbs_roots(*self).len() == 1,
        ensures
            r@ == fbs_bytes(*self),
    {
        fbs_finished_data(self)
    }
}

/// What was written stays where it is, and is what it was.
pub proof fn law_what_was_written_stays(
    before: FbsBuilder,
    after: FbsBuilder,
    cost: nat,
    at: u32,
    s: Seq<char>,
    items: Seq<u32>,
    fields: Map<u16, Slot>,
)
    requires
        wrote(before, after, cost),
    ensures
        text_at(fbs_objects(before), at, s) ==> text_at(fbs_objects(after), at, s),
        vector_at(fbs_objects(before), at, items) ==> vector_at(fbs_objects(after), at, items),
        table_at(fbs_objects(before), at, fields) ==> table_at(fbs_objects(after), at, fields),
        fbs_objects(before).dom().contains(at) ==> fbs_objects(after).dom().contains(at)
            && fbs_objects(after)[at] == fbs_objects(before)[at],
        fbs_used(after) <= fbs_used(before) + cost,
{
}

/// At one place stands one thing: a text, a vector or a table, as it was written.
pub proof fn law_one_thing_at_a_place(
    objects: Map<u32, Object>,
    at: u32,
    s: Seq<char>,
    items: Seq<u32>,
    fields: Map<u16, Slot>,
)
    ensures
        text_at(objects, at, s) ==> objects.dom().contains(at) && objects[at] == Object::Text(s),
        vector_at(objects, at, items) ==> objects.dom().contains(at) && objects[at]
            == Object::Vector(items),
        table_at(objects, at, fields) ==> objects.dom().contains(at) && objects[at]
            == Object::Table(fields),
{
}

} // verus!
