//! Owned copies of values: `into_owned` turns a `Value` tree into a
//! `ValueOwned` tree that holds numbers, strings, sequences, mappings and
//! enum variants by value.
use crate::value::{
    Structure,
    all_have_owned_form, fields_have_owned_form, has_owned_form, lists_have_owned_form, named_have_owned_form, Fields,
    Value,
};
use indexmap::IndexMap;
use std::path::PathBuf;
use vstd::prelude::*;

verus! {

/// A value held by value.
#[derive(Debug)]
pub enum ValueOwned {
    Unit,
    Number(Number),
    Bool(bool),
    Char(char),
    String(String),
    Path(PathBuf),
    /// An error, by its message.
    Error(String),
    Sequence(Sequence),
    Mapping(Mapping),
    Enum(Box<EnumValue>),
}

/// A number of one of the primitive numeric types.
///
/// `F32` and `F64` hold the IEEE-754 bit pattern of the float.
#[derive(Debug)]
pub enum Number {
    I8(i8),
    I16(i16),
    I32(i32),
    I64(i64),
    I128(i128),
    ISIZE(isize),
    U8(u8),
    U16(u16),
    U32(u32),
    U64(u64),
    U128(u128),
    USIZE(usize),
    F32(u32),
    F64(u64),
}

pub type Sequence = Vec<ValueOwned>;

/// Entries of a mapping in order: key (as characters) and value (as a model).
pub type Entries = Seq<(Seq<char>, OwnedModel)>;

/// A mapping from field names to values, in insertion order, each name once,
/// held in an `indexmap::IndexMap`. Its entries are `mapping_entries`.
#[verifier::external_body]
#[derive(Debug)]
pub struct Mapping {
    map: IndexMap<String, ValueOwned>,
}

/// A variant of an enum: its name and its content.
#[derive(Debug)]
pub struct EnumValue {
    pub variant: String,
    pub value: ValueOwned,
}

/// The mathematical content of a `ValueOwned`.
pub enum OwnedModel {
    Unit,
    Number(Number),
    Bool(bool),
    Char(char),
    String(Seq<char>),
    Path(PathBuf),
    Error(Seq<char>),
    Sequence(Seq<OwnedModel>),
    Mapping(Seq<(Seq<char>, OwnedModel)>),
    Enum(Seq<char>, Box<OwnedModel>),
}

/// The entries of the `IndexMap` inside a `Mapping`, in the map's order.
pub uninterp spec fn mapping_entries(m: Mapping) -> Seq<(Seq<char>, OwnedModel)>;

pub open spec fn owned_model(v: ValueOwned) -> OwnedModel
    decreases v, 0int,
{
    match v {
        ValueOwned::Unit => OwnedModel::Unit,
        ValueOwned::Number(n) => OwnedModel::Number(n),
        ValueOwned::Bool(b) => OwnedModel::Bool(b),
        ValueOwned::Char(c) => OwnedModel::Char(c),
        ValueOwned::String(s) => OwnedModel::String(s@),
        ValueOwned::Path(p) => OwnedModel::Path(p),
        ValueOwned::Error(e) => OwnedModel::Error(e@),
        ValueOwned::Sequence(s) => OwnedModel::Sequence(owned_models(s@)),
        ValueOwned::Mapping(m) => OwnedModel::Mapping(mapping_entries(m)),
        ValueOwned::Enum(e) => OwnedModel::Enum(e.variant@, Box::new(owned_model(e.value))),
    }
}

pub open spec fn owned_models(s: Seq<ValueOwned>) -> Seq<OwnedModel>
    decreases s, 1int,
{
    if s.len() == 0 {
        Seq::empty()
    } else {
        owned_models(s.drop_last()).push(owned_model(s.last()))
    }
}

impl View for ValueOwned {
    type V = OwnedModel;

    open spec fn view(&self) -> OwnedModel {
        owned_model(*self)
    }
}

/// Whether some entry of `e` has the key `k`.
pub open spec fn has_key(e: Entries, k: Seq<char>) -> bool {
    exists|i: int| 0 <= i < e.len() && #[trigger] e[i].0 == k
}

/// The position of the key `k` in `e` (meaningful when `has_key(e, k)`).
pub open spec fn key_position(e: Entries, k: Seq<char>) -> int {
    choose|i: int| 0 <= i < e.len() && #[trigger] e[i].0 == k
}

/// Inserting into an index map: an existing key keeps its place and takes
/// the new value; a new key goes last.
pub open spec fn insert_entry(e: Entries, k: Seq<char>, v: OwnedModel) -> Entries {
    if has_key(e, k) {
        e.update(key_position(e, k), (k, v))
    } else {
        e.push((k, v))
    }
}

/// Inserting the pairs `pairs` one after the other, first to last.
pub open spec fn insert_all(e: Entries, pairs: Entries) -> Entries
    decreases pairs.len(),
{
    if pairs.len() == 0 {
        e
    } else {
        insert_entry(insert_all(e, pairs.drop_last()), pairs.last().0, pairs.last().1)
    }
}

/// What `into_owned` makes of `v`. (`into_owned` takes no value with an
/// error where the conversion visits, `has_owned_form`; the `Error` arm only
/// keeps this function total.)
pub open spec fn owned_of(v: Value) -> OwnedModel
    decreases v, 0int,
{
    match v {
        Value::Bool(b) => OwnedModel::Bool(b),
        Value::Char(c) => OwnedModel::Char(c),
        Value::F32(x) => OwnedModel::Number(Number::F32(x)),
        Value::F64(x) => OwnedModel::Number(Number::F64(x)),
        Value::I8(x) => OwnedModel::Number(Number::I8(x)),
        Value::I16(x) => OwnedModel::Number(Number::I16(x)),
        Value::I32(x) => OwnedModel::Number(Number::I32(x)),
        Value::I64(x) => OwnedModel::Number(Number::I64(x)),
        Value::I128(x) => OwnedModel::Number(Number::I128(x)),
        Value::Isize(x) => OwnedModel::Number(Number::ISIZE(x)),
        Value::U8(x) => OwnedModel::Number(Number::U8(x)),
        Value::U16(x) => OwnedModel::Number(Number::U16(x)),
        Value::U32(x) => OwnedModel::Number(Number::U32(x)),
        Value::U64(x) => OwnedModel::Number(Number::U64(x)),
        Value::U128(x) => OwnedModel::Number(Number::U128(x)),
        Value::Usize(x) => OwnedModel::Number(Number::USIZE(x)),
        Value::String(s) => OwnedModel::String(s@),
        Value::Path(p) => OwnedModel::Path(p),
        Value::Error(e) => OwnedModel::Error(e@),
        Value::Unit => OwnedModel::Unit,
        Value::Listable(items) => OwnedModel::Sequence(owned_list(items@)),
        Value::Tuplable(items) => OwnedModel::Sequence(owned_list(items@)),
        Value::Mappable(_) => OwnedModel::Mapping(Seq::empty()),
        Value::Structable(s) => OwnedModel::Mapping(insert_all(Seq::empty(), struct_pairs(s.visits@))),
        Value::Enumerable(e) => OwnedModel::Enum(
            e.name@,
            Box::new(variant_from(OwnedModel::Unit, e.visits@)),
        ),
    }
}

/// `owned_of` of each value of `s`.
pub open spec fn owned_list(s: Seq<Value>) -> Seq<OwnedModel>
    decreases s, 1int,
{
    if s.len() == 0 {
        Seq::empty()
    } else {
        owned_list(s.drop_last()).push(owned_of(s.last()))
    }
}

/// Each named field of `s` as a pair of its name and `owned_of` its value.
pub open spec fn owned_named(s: Seq<(String, Value)>) -> Entries
    decreases s, 1int,
{
    if s.len() == 0 {
        Seq::empty()
    } else {
        owned_named(s.drop_last()).push((s.last().0@, owned_of(s.last().1)))
    }
}

/// The pairs that one field list of a struct adds to its mapping: each named
/// field as its name and `owned_of` its value; unnamed fields add nothing.
pub open spec fn list_pairs(f: Fields) -> Entries
    decreases f, 2int,
{
    match f {
        Fields::Named(named) => owned_named(named@),
        Fields::Unnamed(_) => Seq::empty(),
    }
}

/// The pairs that a struct's field lists add to its mapping, in the order of
/// the calls.
pub open spec fn struct_pairs(lists: Seq<Fields>) -> Entries
    decreases lists, 3int,
{
    if lists.len() == 0 {
        Seq::empty()
    } else {
        struct_pairs(lists.drop_last()) + list_pairs(lists.last())
    }
}

/// The content of an enum variant after one more field list `f`: an empty
/// list leaves `cur`; otherwise `cur` is replaced by a mapping of the named or
/// a sequence of the unnamed fields.
pub open spec fn variant_step(cur: OwnedModel, f: Fields) -> OwnedModel
    decreases f, 2int,
{
    match f {
        Fields::Named(named) => if named@.len() == 0 {
            cur
        } else {
            OwnedModel::Mapping(insert_all(Seq::empty(), owned_named(named@)))
        },
        Fields::Unnamed(values) => if values@.len() == 0 {
            cur
        } else {
            OwnedModel::Sequence(owned_list(values@))
        },
    }
}

/// The content of an enum variant that starts as `cur` and is handed the
/// field lists `lists` in order: the last non-empty list decides it.
pub open spec fn variant_from(cur: OwnedModel, lists: Seq<Fields>) -> OwnedModel
    decreases lists, 3int,
{
    if lists.len() == 0 {
        cur
    } else {
        variant_step(variant_from(cur, lists.drop_last()), lists.last())
    }
}

/// `IndexMap::new`: the new map is empty.
#[verifier::external_body]
fn index_map_new() -> (m: Mapping)
    ensures
        mapping_entries(m) == Seq::<(Seq<char>, OwnedModel)>::empty(),
{
    Mapping { map: IndexMap::new() }
}

/// `IndexMap::insert`: an existing equal key keeps its place and its value is
/// replaced; otherwise the pair goes last (the replaced value is dropped).
/// An index map holds each key once.
#[verifier::external_body]
fn index_map_insert(m: &mut Mapping, key: String, value: ValueOwned)
    ensures
        mapping_entries(*final(m)) == insert_entry(mapping_entries(*old(m)), key@, value@),
        keys_distinct(mapping_entries(*final(m))),
{
    m.map.insert(key, value);
}

/// `IndexMap::len`: the number of entries.
#[verifier::external_body]
fn index_map_len(m: &Mapping) -> (n: usize)
    ensures
        n == mapping_entries(*m).len(),
{
    m.map.len()
}

/// `IndexMap::get_index`: the entry at position `i`, if `i` is below the length.
#[verifier::external_body]
fn index_map_get_index(m: &Mapping, i: usize) -> (r: Option<(&String, &ValueOwned)>)
    ensures
        match r {
            Some((k, v)) => i < mapping_entries(*m).len() && k@ == mapping_entries(*m)[i as int].0
                && v@ == mapping_entries(*m)[i as int].1,
            None => i >= mapping_entries(*m).len(),
        },
{
    m.map.get_index(i)
}

impl Mapping {
    /// An empty mapping.
    pub fn new() -> (m: Mapping)
        ensures
            m@ == Seq::<(Seq<char>, OwnedModel)>::empty(),
            keys_distinct(m@),
    {
        index_map_new()
    }

    /// The entries in order.
    pub open spec fn view(self) -> Entries {
        mapping_entries(self)
    }

    /// Inserts `value` under `key`: an existing key keeps its place and takes
    /// the new value; a new key goes last.
    pub fn insert(&mut self, key: String, value: ValueOwned)
        ensures
            final(self)@ == insert_entry(old(self)@, key@, value@),
            keys_distinct(final(self)@),
    {
        index_map_insert(self, key, value)
    }

    /// The number of entries.
    pub fn len(&self) -> (n: usize)
        ensures
            n == self@.len(),
    {
        index_map_len(self)
    }

    /// The entry at position `i`, or `None` past the end.
    pub fn get_index(&self, i: usize) -> (r: Option<(&String, &ValueOwned)>)
        ensures
            match r {
                Some((k, v)) => i < self@.len() && k@ == self@[i as int].0 && v@ == self@[i as int].1,
                None => i >= self@.len(),
            },
    {
        index_map_get_index(self, i)
    }
}


proof fn lemma_owned_models_push(s: Seq<ValueOwned>, x: ValueOwned)
    ensures
        owned_models(s.push(x)) == owned_models(s).push(owned_model(x)),
{
    assert(s.push(x).drop_last() =~= s);
}

proof fn lemma_owned_list_take(s: Seq<Value>, i: int)
    requires
        0 <= i < s.len(),
    ensures
        owned_list(s.take(i + 1)) == owned_list(s.take(i)).push(owned_of(s[i])),
{
    assert(s.take(i + 1).drop_last() =~= s.take(i));
}

proof fn lemma_owned_named_take(s: Seq<(String, Value)>, i: int)
    requires
        0 <= i < s.len(),
    ensures
        owned_named(s.take(i + 1)) == owned_named(s.take(i)).push((s[i].0@, owned_of(s[i].1))),
{
    assert(s.take(i + 1).drop_last() =~= s.take(i));
}

proof fn lemma_insert_all_push(e: Entries, pairs: Entries, k: Seq<char>, v: OwnedModel)
    ensures
        insert_all(e, pairs.push((k, v))) == insert_entry(insert_all(e, pairs), k, v),
{
    assert(pairs.push((k, v)).drop_last() =~= pairs);
}

proof fn lemma_insert_all_append(e: Entries, a: Entries, b: Entries)
    ensures
        insert_all(e, a + b) == insert_all(insert_all(e, a), b),
    decreases b.len(),
{
    if b.len() == 0 {
        assert(a + b =~= a);
    } else {
        lemma_insert_all_append(e, a, b.drop_last());
        assert((a + b).drop_last() =~= a + b.drop_last());
        assert((a + b).last() == b.last());
    }
}

/// Converts `v` into its owned form.
pub fn into_owned(v: &Value) -> (r: ValueOwned)
    requires
        has_owned_form(*v),
    ensures
        r@ == owned_of(*v),
    decreases v, 1int,
{
    let mut visit = Visitor { value: ValueOwned::Unit };
    visit.visit_value(v);
    visit.value
}

/// Inserts each named field of `named_values`, in order, into `map`, under
/// its name and as its owned form.
fn insert_owned(map: &mut Mapping, named_values: &Vec<(String, Value)>)
    requires
        named_have_owned_form(named_values@),
    ensures
        final(map)@ == insert_all(old(map)@, owned_named(named_values@)),
        keys_distinct(old(map)@) || named_values@.len() > 0 ==> keys_distinct(final(map)@),
    decreases named_values, 2int,
{
    let ghost start = map@;
    let mut i: usize = 0;
    proof {
        assert(named_values@.skip(0) =~= named_values@);
    }
    while i < named_values.len()
        invariant
            i <= named_values@.len(),
            named_have_owned_form(named_values@.skip(i as int)),
            map@ == insert_all(start, owned_named(named_values@.take(i as int))),
            keys_distinct(start) || i > 0 ==> keys_distinct(map@),
        decreases named_values@.len() - i,
    {
        proof {
            assert(named_values@.skip(i as int).skip(1) =~= named_values@.skip(i as int + 1));
            assert(named_values@.skip(i as int)[0] == named_values@[i as int]);
        }
        let pair = &named_values[i];
        let owned = into_owned(&pair.1);
        proof {
            lemma_owned_named_take(named_values@, i as int);
            lemma_insert_all_push(
                start,
                owned_named(named_values@.take(i as int)),
                pair.0@,
                owned@,
            );
        }
        map.insert(pair.0.clone(), owned);
        i += 1;
    }
    proof {
        assert(named_values@.take(named_values@.len() as int) =~= named_values@);
    }
}

/// Builds the owned form of a whole value.
struct Visitor {
    value: ValueOwned,
}

/// Collects the owned forms of the items of a list or the fields of a tuple.
struct VisitList {
    list: Vec<ValueOwned>,
}

/// Collects the named fields of a struct into a mapping.
struct VisitMap {
    map: Mapping,
}

/// Builds the content of an enum variant from its fields.
struct VisitEnum {
    value: ValueOwned,
}

/// Visits the items of a list one by one.
fn visit_items(visit: &mut VisitList, items: &Vec<Value>)
    requires
        all_have_owned_form(items@),
    ensures
        owned_models(final(visit).list@) == owned_models(old(visit).list@) + owned_list(items@),
    decreases items, 3int,
{
    let ghost start = owned_models(visit.list@);
    let mut i: usize = 0;
    proof {
        assert(items@.skip(0) =~= items@);
    }
    while i < items.len()
        invariant
            i <= items@.len(),
            all_have_owned_form(items@.skip(i as int)),
            owned_models(visit.list@) == start + owned_list(items@.take(i as int)),
        decreases items@.len() - i,
    {
        proof {
            assert(items@.skip(i as int).skip(1) =~= items@.skip(i as int + 1));
            assert(items@.skip(i as int)[0] == items@[i as int]);
        }
        visit.visit_value(&items[i]);
        proof {
            lemma_owned_list_take(items@, i as int);
            assert(start + owned_list(items@.take(i as int)).push(owned_of(items@[i as int]))
                =~= (start + owned_list(items@.take(i as int))).push(owned_of(items@[i as int])));
        }
        i += 1;
    }
    proof {
        assert(items@.take(items@.len() as int) =~= items@);
    }
}

/// Hands a struct's field lists to the map collector, in the order of the
/// calls: named fields are inserted; unnamed ones go to
/// `visit_unnamed_fields`, which the collector leaves as it is.
fn visit_struct_lists(visit: &mut VisitMap, lists: &Vec<Fields>)
    requires
        lists_have_owned_form(lists@, false),
    ensures
        final(visit).map@ == insert_all(old(visit).map@, struct_pairs(lists@)),
    decreases lists, 4int,
{
    let ghost start = visit.map@;
    let mut i: usize = 0;
    proof {
        assert(lists@.skip(0) =~= lists@);
    }
    while i < lists.len()
        invariant
            i <= lists@.len(),
            lists_have_owned_form(lists@.skip(i as int), false),
            visit.map@ == insert_all(start, struct_pairs(lists@.take(i as int))),
        decreases lists@.len() - i,
    {
        let ghost before = struct_pairs(lists@.take(i as int));
        proof {
            assert(lists@.take(i as int + 1).drop_last() =~= lists@.take(i as int));
            assert(lists@.skip(i as int).skip(1) =~= lists@.skip(i as int + 1));
            assert(lists@.skip(i as int)[0] == lists@[i as int]);
            assert(fields_have_owned_form(lists@[i as int], false));
            lemma_insert_all_append(start, before, list_pairs(lists@[i as int]));
        }
        match &lists[i] {
            Fields::Named(named) => visit.visit_named_fields(named),
            Fields::Unnamed(_) => {
                proof {
                    assert(before + Seq::empty() =~= before);
                }
            },
        }
        i += 1;
    }
    proof {
        assert(lists@.take(lists@.len() as int) =~= lists@);
    }
}

/// Hands an enum variant's field lists to the variant collector, in the order
/// of the calls.
fn visit_variant_lists(visit: &mut VisitEnum, lists: &Vec<Fields>)
    requires
        lists_have_owned_form(lists@, true),
    ensures
        final(visit).value@ == variant_from(old(visit).value@, lists@),
    decreases lists, 4int,
{
    let ghost start = visit.value@;
    let mut i: usize = 0;
    proof {
        assert(lists@.skip(0) =~= lists@);
    }
    while i < lists.len()
        invariant
            i <= lists@.len(),
            lists_have_owned_form(lists@.skip(i as int), true),
            visit.value@ == variant_from(start, lists@.take(i as int)),
        decreases lists@.len() - i,
    {
        proof {
            assert(lists@.take(i as int + 1).drop_last() =~= lists@.take(i as int));
            assert(lists@.skip(i as int).skip(1) =~= lists@.skip(i as int + 1));
            assert(lists@.skip(i as int)[0] == lists@[i as int]);
            assert(fields_have_owned_form(lists@[i as int], true));
            assert(variant_from(start, lists@.take(i as int + 1)) == variant_step(
                variant_from(start, lists@.take(i as int)),
                lists@[i as int],
            ));
        }
        match &lists[i] {
            Fields::Named(named) => visit.visit_named_fields(named),
            Fields::Unnamed(values) => visit.visit_unnamed_fields(values),
        }
        i += 1;
    }
    proof {
        assert(lists@.take(lists@.len() as int) =~= lists@);
    }
}

impl Visitor {
    fn visit_value(&mut self, value: &Value)
        requires
            has_owned_form(*value),
        ensures
            final(self).value@ == owned_of(*value),
        decreases value, 0int,
    {
        match value {
            Value::I8(num) => self.value = ValueOwned::Number(Number::I8(*num)),
            Value::I16(num) => self.value = ValueOwned::Number(Number::I16(*num)),
            Value::I32(num) => self.value = ValueOwned::Number(Number::I32(*num)),
            Value::I64(num) => self.value = ValueOwned::Number(Number::I64(*num)),
            Value::I128(num) => self.value = ValueOwned::Number(Number::I128(*num)),
            Value::Isize(num) => self.value = ValueOwned::Number(Number::ISIZE(*num)),
            Value::U8(num) => self.value = ValueOwned::Number(Number::U8(*num)),
            Value::U16(num) => self.value = ValueOwned::Number(Number::U16(*num)),
            Value::U32(num) => self.value = ValueOwned::Number(Number::U32(*num)),
            Value::U64(num) => self.value = ValueOwned::Number(Number::U64(*num)),
            Value::U128(num) => self.value = ValueOwned::Number(Number::U128(*num)),
            Value::Usize(num) => self.value = ValueOwned::Number(Number::USIZE(*num)),
            Value::F32(num) => self.value = ValueOwned::Number(Number::F32(*num)),
            Value::F64(num) => self.value = ValueOwned::Number(Number::F64(*num)),
            Value::Bool(val) => self.value = ValueOwned::Bool(*val),
            Value::Char(ch) => self.value = ValueOwned::Char(*ch),
            Value::String(val) => self.value = ValueOwned::String(val.clone()),
            Value::Path(p) => self.value = ValueOwned::Path(p.clone()),
            Value::Error(_) => {
                proof {
                    assert(false);
                }
            },
            Value::Unit => self.value = ValueOwned::Unit,
            Value::Listable(listable) => {
                let mut visit = VisitList { list: Vec::new() };
                visit_items(&mut visit, listable);
                proof {
                    assert(owned_models(Seq::<ValueOwned>::empty()) + owned_list(listable@)
                        =~= owned_list(listable@));
                }
                self.value = ValueOwned::Sequence(visit.list);
            },
            Value::Tuplable(tuplable) => {
                let mut visit = VisitList { list: Vec::new() };
                visit.visit_unnamed_fields(tuplable);
                proof {
                    assert(owned_models(Seq::<ValueOwned>::empty()) + owned_list(tuplable@)
                        =~= owned_list(tuplable@));
                }
                self.value = ValueOwned::Sequence(visit.list);
            },
            Value::Mappable(_) => {
                // A map hands its entries to `visit_entry`, which keeps nothing.
                let visit = VisitMap { map: Mapping::new() };
                self.value = ValueOwned::Mapping(visit.map);
            },
            Value::Structable(structable) => {
                let mut visit = VisitMap { map: Mapping::new() };
                visit_struct_lists(&mut visit, &structable.visits);
                self.value = ValueOwned::Mapping(visit.map);
            },
            Value::Enumerable(enumerable) => {
                let variant = enumerable.name.clone();
                let mut visit = VisitEnum { value: ValueOwned::Unit };
                visit_variant_lists(&mut visit, &enumerable.visits);
                self.value = ValueOwned::Enum(Box::new(EnumValue { variant, value: visit.value }));
            },
        }
    }
}

impl VisitList {
    fn visit_unnamed_fields(&mut self, values: &Vec<Value>)
        requires
            all_have_owned_form(values@),
        ensures
            owned_models(final(self).list@) == owned_models(old(self).list@) + owned_list(values@),
        decreases values, 4int,
    {
        visit_items(self, values);
    }

    fn visit_value(&mut self, value: &Value)
        requires
            has_owned_form(*value),
        ensures
            owned_models(final(self).list@) == owned_models(old(self).list@).push(owned_of(*value)),
        decreases value, 2int,
    {
        let owned = into_owned(value);
        proof {
            lemma_owned_models_push(self.list@, owned);
        }
        self.list.push(owned);
    }
}

impl VisitMap {
    fn visit_named_fields(&mut self, named_values: &Vec<(String, Value)>)
        requires
            named_have_owned_form(named_values@),
        ensures
            final(self).map@ == insert_all(old(self).map@, owned_named(named_values@)),
            keys_distinct(old(self).map@) || named_values@.len() > 0 ==> keys_distinct(
                final(self).map@,
            ),
        decreases named_values, 3int,
    {
        insert_owned(&mut self.map, named_values);
    }
}

impl VisitEnum {
    fn visit_unnamed_fields(&mut self, values: &Vec<Value>)
        requires
            all_have_owned_form(values@),
        ensures
            final(self).value@ == (if values@.len() == 0 {
                old(self).value@
            } else {
                OwnedModel::Sequence(owned_list(values@))
            }),
        decreases values, 4int,
    {
        if values.len() != 0 {
            let mut visit = VisitList { list: Vec::new() };
            visit_items(&mut visit, values);
            proof {
                assert(owned_models(Seq::<ValueOwned>::empty()) + owned_list(values@)
                    =~= owned_list(values@));
            }
            self.value = ValueOwned::Sequence(visit.list);
        }
    }

    fn visit_named_fields(&mut self, named_values: &Vec<(String, Value)>)
        requires
            named_have_owned_form(named_values@),
        ensures
            final(self).value@ == (if named_values@.len() == 0 {
                old(self).value@
            } else {
                OwnedModel::Mapping(insert_all(Seq::empty(), owned_named(named_values@)))
            }),
        decreases named_values, 3int,
    {
        if named_values.len() != 0 {
            let mut map = Mapping::new();
            insert_owned(&mut map, named_values);
            self.value = ValueOwned::Mapping(map);
        }
    }
}

/// No key occurs twice among the entries `e`.
pub open spec fn keys_distinct(e: Entries) -> bool {
    forall|j: int, k: int| 0 <= j < k < e.len() ==> #[trigger] e[j].0 != #[trigger] e[k].0
}

/// The position of the last pair of `pairs` with the key `key`, or -1.
pub open spec fn last_index(pairs: Entries, key: Seq<char>) -> int
    decreases pairs.len(),
{
    if pairs.len() == 0 {
        -1
    } else if pairs.last().0 == key {
        pairs.len() - 1
    } else {
        last_index(pairs.drop_last(), key)
    }
}

/// The position of the first pair of `pairs` with the key `key`, or -1.
pub open spec fn first_index(pairs: Entries, key: Seq<char>) -> int
    decreases pairs.len(),
{
    if pairs.len() == 0 {
        -1
    } else if first_index(pairs.drop_last(), key) >= 0 {
        first_index(pairs.drop_last(), key)
    } else if pairs.last().0 == key {
        pairs.len() - 1
    } else {
        -1
    }
}

/// The entries `e` are what inserting `pairs` one after the other into an
/// empty mapping gives: no more entries than pairs; each key once; every key
/// of the pairs present; each entry is the last pair with its key; the keys
/// in the order of their first occurrence.
pub open spec fn made_from(e: Entries, pairs: Entries) -> bool {
    &&& e.len() <= pairs.len()
    &&& keys_distinct(e)
    &&& forall|i: int| 0 <= i < pairs.len() ==> has_key(e, #[trigger] pairs[i].0)
    &&& forall|j: int|
        0 <= j < e.len() ==> 0 <= #[trigger] last_index(pairs, e[j].0) && pairs[last_index(
            pairs,
            e[j].0,
        )] == e[j]
    &&& forall|j: int, k: int|
        0 <= j < k < e.len() ==> #[trigger] first_index(pairs, e[j].0) < #[trigger] first_index(
            pairs,
            e[k].0,
        )
}

proof fn lemma_index_push(prev: Entries, x: (Seq<char>, OwnedModel), key: Seq<char>)
    ensures
        last_index(prev.push(x), key) == (if x.0 == key {
            prev.len() as int
        } else {
            last_index(prev, key)
        }),
        first_index(prev.push(x), key) == (if first_index(prev, key) >= 0 {
            first_index(prev, key)
        } else if x.0 == key {
            prev.len() as int
        } else {
            -1
        }),
{
    assert(prev.push(x).drop_last() =~= prev);
}

proof fn lemma_index_bounds(pairs: Entries, key: Seq<char>)
    ensures
        -1 <= last_index(pairs, key) < pairs.len(),
        -1 <= first_index(pairs, key) <= last_index(pairs, key),
        last_index(pairs, key) >= 0 ==> pairs[last_index(pairs, key)].0 == key,
        first_index(pairs, key) >= 0 ==> pairs[first_index(pairs, key)].0 == key,
        (first_index(pairs, key) == -1) == (forall|i: int| 0 <= i < pairs.len() ==> #[trigger] pairs[i].0 != key),
    decreases pairs.len(),
{
    if pairs.len() > 0 {
        let prev = pairs.drop_last();
        lemma_index_bounds(prev, key);
        assert(prev.push(pairs.last()) =~= pairs);
        lemma_index_push(prev, pairs.last(), key);
        assert forall|i: int| 0 <= i < prev.len() implies #[trigger] pairs[i] == prev[i] by {}
        if first_index(prev, key) == -1 && pairs.last().0 != key {
            assert forall|i: int| 0 <= i < pairs.len() implies #[trigger] pairs[i].0 != key by {
                if i < prev.len() {
                    assert(prev[i].0 != key);
                }
            }
        }
        if first_index(pairs, key) == -1 {
            assert(pairs[pairs.len() - 1].0 != key);
        }
    }
}

proof fn lemma_made_from_push(pe: Entries, prev: Entries, k: Seq<char>, v: OwnedModel)
    requires
        made_from(pe, prev),
    ensures
        made_from(insert_entry(pe, k, v), prev.push((k, v))),
{
    let pairs = prev.push((k, v));
    let last = prev.len() as int;
    let e = insert_entry(pe, k, v);
    assert forall|i: int| 0 <= i < prev.len() implies #[trigger] pairs[i] == prev[i] by {}
    assert forall|key: Seq<char>| #[trigger] last_index(pairs, key) == (if k == key {
        last
    } else {
        last_index(prev, key)
    }) && first_index(pairs, key) == (if first_index(prev, key) >= 0 {
        first_index(prev, key)
    } else if k == key {
        last
    } else {
        -1
    }) by {
        lemma_index_push(prev, (k, v), key);
    }
    if has_key(pe, k) {
        let p = key_position(pe, k);
        assert(0 <= p < pe.len() && pe[p].0 == k);
        assert(e == pe.update(p, (k, v)));
        assert forall|j: int| 0 <= j < e.len() implies #[trigger] e[j].0 == pe[j].0 by {}
        assert forall|j: int, m: int| 0 <= j < m < e.len() implies #[trigger] e[j].0
            != #[trigger] e[m].0 by {
            assert(pe[j].0 != pe[m].0);
        }
        assert forall|i: int| 0 <= i < pairs.len() implies has_key(e, #[trigger] pairs[i].0) by {
            if i < last {
                assert(has_key(pe, prev[i].0));
                let q = choose|q: int| 0 <= q < pe.len() && #[trigger] pe[q].0 == prev[i].0;
                assert(e[q].0 == pairs[i].0);
            } else {
                assert(e[p].0 == pairs[i].0);
            }
        }
        assert forall|j: int| 0 <= j < e.len() implies 0 <= #[trigger] last_index(pairs, e[j].0)
            && pairs[last_index(pairs, e[j].0)] == e[j] by {
            if j == p {
                assert(last_index(pairs, k) == last);
                assert(pairs[last] == (k, v));
            } else {
                assert(pe[j].0 != pe[p].0);
                assert(e[j] == pe[j]);
                assert(last_index(pairs, pe[j].0) == last_index(prev, pe[j].0));
                let li = last_index(prev, pe[j].0);
                lemma_index_bounds(prev, pe[j].0);
                assert(0 <= li < prev.len());
                assert(prev[li] == pe[j]);
                assert(pairs[li] == prev[li]);
            }
        }
        assert forall|j: int, m: int| 0 <= j < m < e.len() implies #[trigger] first_index(
            pairs,
            e[j].0,
        ) < #[trigger] first_index(pairs, e[m].0) by {
            lemma_index_bounds(prev, pe[j].0);
            lemma_index_bounds(prev, pe[m].0);
            assert(first_index(prev, pe[j].0) < first_index(prev, pe[m].0));
            assert(last_index(prev, pe[j].0) >= 0);
            assert(last_index(prev, pe[m].0) >= 0);
            let lj = last_index(prev, pe[j].0);
            assert(prev[lj].0 == pe[j].0);
            assert(first_index(prev, pe[j].0) >= 0);
            let lm = last_index(prev, pe[m].0);
            assert(prev[lm].0 == pe[m].0);
            assert(first_index(prev, pe[m].0) >= 0);
            lemma_index_push(prev, (k, v), pe[j].0);
            assert(first_index(pairs, e[j].0) == first_index(prev, pe[j].0));
            lemma_index_push(prev, (k, v), pe[m].0);
            assert(first_index(pairs, e[m].0) == first_index(prev, pe[m].0));
        }
    } else {
        assert(e == pe.push((k, v)));
        assert forall|j: int| 0 <= j < pe.len() implies #[trigger] e[j] == pe[j] by {}
        assert forall|i: int| 0 <= i < prev.len() implies #[trigger] prev[i].0 != k by {
            assert(has_key(pe, prev[i].0));
        }
        lemma_index_bounds(prev, k);
        assert(first_index(prev, k) == -1);
        assert forall|j: int, m: int| 0 <= j < m < e.len() implies #[trigger] e[j].0
            != #[trigger] e[m].0 by {
            if m < pe.len() {
                assert(pe[j].0 != pe[m].0);
            } else {
                assert(e[j].0 == pe[j].0);
                assert(has_key(pe, pe[j].0));
            }
        }
        assert forall|i: int| 0 <= i < pairs.len() implies has_key(e, #[trigger] pairs[i].0) by {
            if i < last {
                assert(has_key(pe, prev[i].0));
                let q = choose|q: int| 0 <= q < pe.len() && #[trigger] pe[q].0 == prev[i].0;
                assert(e[q].0 == pairs[i].0);
            } else {
                assert(e[pe.len() as int].0 == pairs[i].0);
            }
        }
        assert forall|j: int| 0 <= j < e.len() implies 0 <= #[trigger] last_index(pairs, e[j].0)
            && pairs[last_index(pairs, e[j].0)] == e[j] by {
            if j < pe.len() {
                assert(pe[j].0 != k) by {
                    assert(has_key(pe, pe[j].0));
                }
                assert(last_index(pairs, pe[j].0) == last_index(prev, pe[j].0));
                let li = last_index(prev, pe[j].0);
                lemma_index_bounds(prev, pe[j].0);
                assert(0 <= li < prev.len());
                assert(prev[li] == pe[j]);
                assert(pairs[li] == prev[li]);
            } else {
                assert(last_index(pairs, k) == last);
                assert(pairs[last] == (k, v));
            }
        }
        assert forall|j: int, m: int| 0 <= j < m < e.len() implies #[trigger] first_index(
            pairs,
            e[j].0,
        ) < #[trigger] first_index(pairs, e[m].0) by {
            lemma_index_bounds(prev, pe[j].0);
            assert(last_index(prev, pe[j].0) >= 0);
            let lj = last_index(prev, pe[j].0);
            assert(prev[lj].0 == pe[j].0);
            assert(first_index(prev, pe[j].0) >= 0);
            assert(e[j] == pe[j]);
            lemma_index_push(prev, (k, v), pe[j].0);
            assert(first_index(pairs, e[j].0) == first_index(prev, pe[j].0));
            if m < pe.len() {
                lemma_index_bounds(prev, pe[m].0);
                assert(first_index(prev, pe[j].0) < first_index(prev, pe[m].0));
                assert(last_index(prev, pe[m].0) >= 0);
                let lm = last_index(prev, pe[m].0);
                assert(prev[lm].0 == pe[m].0);
                assert(e[m] == pe[m]);
                lemma_index_push(prev, (k, v), pe[m].0);
            assert(first_index(pairs, e[m].0) == first_index(prev, pe[m].0));
            } else {
                assert(e[m].0 == k);
                lemma_index_push(prev, (k, v), k);
                assert(first_index(pairs, k) == last);
            }
        }
    }
}

/// Inserting named pairs one after the other into an empty mapping (as a
/// struct's named fields are collected) gives entries `made_from` them: no
/// more entries than pairs; each key once; every key of the pairs present;
/// each entry is the last pair with its key; the keys in the order of their
/// first occurrence.
pub proof fn law_insert_all_from_empty(pairs: Entries)
    ensures
        made_from(insert_all(Seq::empty(), pairs), pairs),
    decreases pairs.len(),
{
    if pairs.len() > 0 {
        let prev = pairs.drop_last();
        law_insert_all_from_empty(prev);
        let pe = insert_all(Seq::empty(), prev);
        let (k, v) = pairs.last();
        assert(prev.push((k, v)) =~= pairs);
        lemma_made_from_push(pe, prev, k, v);
    }
}

/// A struct becomes a mapping made from the named fields of all its field
/// lists, taken in the order of the calls (`made_from`): each name once, in
/// the order of its first occurrence, holding the value of its last one.
pub proof fn law_struct_mapping(s: Structure)
    ensures
        owned_of(Value::Structable(s)) matches OwnedModel::Mapping(e) && made_from(
            e,
            struct_pairs(s.visits@),
        ),
{
    law_insert_all_from_empty(struct_pairs(s.visits@));
}

/// The field list `f` holds no field.
pub open spec fn fields_empty(f: Fields) -> bool {
    match f {
        Fields::Named(named) => named@.len() == 0,
        Fields::Unnamed(values) => values@.len() == 0,
    }
}

proof fn lemma_variant_step(cur: OwnedModel, f: Fields)
    ensures
        fields_empty(f) ==> variant_step(cur, f) == cur,
        !fields_empty(f) ==> variant_step(cur, f) == variant_step(OwnedModel::Unit, f),
{
}

/// The last non-empty field list handed to an enum variant decides its
/// content, whatever came before: it is what that list alone makes of
/// `Unit`. When every list is empty, the content stays as it started.
pub proof fn law_variant_last_list(cur: OwnedModel, lists: Seq<Fields>)
    ensures
        (forall|i: int| 0 <= i < lists.len() ==> #[trigger] fields_empty(lists[i])) ==> variant_from(
            cur,
            lists,
        ) == cur,
        forall|k: int|
            0 <= k < lists.len() && !fields_empty(#[trigger] lists[k]) && (forall|j: int|
                k < j < lists.len() ==> #[trigger] fields_empty(lists[j])) ==> variant_from(
                cur,
                lists,
            ) == variant_step(OwnedModel::Unit, lists[k]),
    decreases lists.len(),
{
    if lists.len() > 0 {
        let n = lists.len() - 1;
        let prev = lists.drop_last();
        law_variant_last_list(cur, prev);
        lemma_variant_step(variant_from(cur, prev), lists[n]);
        assert(variant_from(cur, lists) == variant_step(variant_from(cur, prev), lists[n]));
        assert forall|i: int| 0 <= i < prev.len() implies #[trigger] prev[i] == lists[i] by {}
        if fields_empty(lists[n]) {
            assert forall|k: int|
                0 <= k < lists.len() && !fields_empty(#[trigger] lists[k]) && (forall|j: int|
                    k < j < lists.len() ==> #[trigger] fields_empty(lists[j])) implies variant_from(
                cur,
                lists,
            ) == variant_step(OwnedModel::Unit, lists[k]) by {
                assert(prev[k] == lists[k]);
                assert forall|j: int| k < j < prev.len() implies #[trigger] fields_empty(prev[j]) by {
                    assert(prev[j] == lists[j]);
                }
            }
            if forall|i: int| 0 <= i < lists.len() ==> #[trigger] fields_empty(lists[i]) {
                assert forall|i: int| 0 <= i < prev.len() implies #[trigger] fields_empty(prev[i]) by {
                    assert(prev[i] == lists[i]);
                }
            }
        } else {
            assert forall|k: int|
                0 <= k < lists.len() && !fields_empty(#[trigger] lists[k]) && (forall|j: int|
                    k < j < lists.len() ==> #[trigger] fields_empty(lists[j])) implies k == n by {
                if k < n {
                    assert(fields_empty(lists[n]));
                }
            }
        }
    }
}

/// A list or a tuple becomes a sequence with one item per value, in order:
/// the `i`-th item is what `into_owned` makes of the `i`-th value.
pub proof fn law_owned_list(s: Seq<Value>)
    ensures
        owned_list(s).len() == s.len(),
        forall|i: int| 0 <= i < s.len() ==> #[trigger] owned_list(s)[i] == owned_of(s[i]),
    decreases s.len(),
{
    if s.len() > 0 {
        law_owned_list(s.drop_last());
        assert forall|i: int| 0 <= i < s.len() implies #[trigger] owned_list(s)[i] == owned_of(
            s[i],
        ) by {
            if i < s.len() - 1 {
                assert(s[i] == s.drop_last()[i]);
            }
        }
    }
}

/// A struct's named fields, taken in order, each as a pair of its name and
/// what `into_owned` makes of its value.
pub proof fn law_owned_named(s: Seq<(String, Value)>)
    ensures
        owned_named(s).len() == s.len(),
        forall|i: int|
            0 <= i < s.len() ==> #[trigger] owned_named(s)[i] == (s[i].0@, owned_of(s[i].1)),
    decreases s.len(),
{
    if s.len() > 0 {
        law_owned_named(s.drop_last());
        assert forall|i: int| 0 <= i < s.len() implies #[trigger] owned_named(s)[i] == (
            s[i].0@,
            owned_of(s[i].1),
        ) by {
            if i < s.len() - 1 {
                assert(s[i] == s.drop_last()[i]);
            }
        }
    }
}

/// Inserting into a mapping whose keys are distinct: the keys stay distinct;
/// the key is then present with the inserted value; the length grows by one
/// exactly when the key was new; every earlier entry keeps its place and key,
/// and an entry under another key keeps its value too.
pub proof fn law_insert_entry(e: Entries, k: Seq<char>, v: OwnedModel)
    requires
        keys_distinct(e),
    ensures
        ({
            let r = insert_entry(e, k, v);
            &&& keys_distinct(r)
            &&& has_key(r, k)
            &&& r[key_position(r, k)] == (k, v)
            &&& r.len() == (if has_key(e, k) {
                e.len()
            } else {
                e.len() + 1
            })
            &&& forall|j: int|
                0 <= j < e.len() ==> #[trigger] r[j].0 == e[j].0 && (e[j].0 != k ==> r[j] == e[j])
        }),
{
    let r = insert_entry(e, k, v);
    if has_key(e, k) {
        let p = key_position(e, k);
        assert(r == e.update(p, (k, v)));
        assert forall|j: int, m: int| 0 <= j < m < r.len() implies #[trigger] r[j].0
            != #[trigger] r[m].0 by {
            assert(e[j].0 != e[m].0);
        }
        assert(r[p].0 == k);
        assert(has_key(r, k));
        let q = key_position(r, k);
        assert(r[q].0 == k);
        assert(q == p);
    } else {
        assert(r == e.push((k, v)));
        assert forall|j: int, m: int| 0 <= j < m < r.len() implies #[trigger] r[j].0
            != #[trigger] r[m].0 by {
            if m < e.len() {
                assert(e[j].0 != e[m].0);
            } else {
                assert(r[j].0 == e[j].0);
            }
        }
        assert(r[e.len() as int].0 == k);
        assert(has_key(r, k));
        let q = key_position(r, k);
        assert(r[q].0 == k);
        if q < e.len() {
            assert(e[q].0 == k);
        }
    }
}

} // verus!
