//! The value tree: what a `Valuable` type presents of itself.
//!
//! A `Value` holds primitives directly and, for containers, exactly what a
//! visit of the container hands to a visitor: the items of a list, the
//! entries of a map, the fields of a struct or of an enum variant.
use std::path::PathBuf;
use vstd::prelude::*;

verus! {

#[verifier::external_type_specification]
#[verifier::external_body]
pub struct ExPathBuf(PathBuf);

#[verifier::external_type_specification]
#[verifier::external_body]
pub struct ExPath(std::path::Path);

/// The owned copy of a path, as `Path::to_path_buf` makes it.
pub uninterp spec fn owned_path(p: &std::path::Path) -> PathBuf;

/// `Path::to_path_buf` (std): an owned copy of the path, `owned_path`.
pub assume_specification[ std::path::Path::to_path_buf ](p: &std::path::Path) -> (r: PathBuf)
    ensures
        r == owned_path(p),
;

/// `PathBuf::clone` (std): the clone is the same path.
pub assume_specification[ <PathBuf as Clone>::clone ](p: &PathBuf) -> (r: PathBuf)
    ensures
        r == *p,
;

/// A value that can be inspected.
///
/// Floating-point numbers are carried by their IEEE-754 bit patterns
/// (`f32::to_bits`, `f64::to_bits`).
#[derive(Debug)]
pub enum Value {
    Bool(bool),
    Char(char),
    F32(u32),
    F64(u64),
    I8(i8),
    I16(i16),
    I32(i32),
    I64(i64),
    I128(i128),
    Isize(isize),
    String(String),
    U8(u8),
    U16(u16),
    U32(u32),
    U64(u64),
    U128(u128),
    Usize(usize),
    Path(PathBuf),
    /// An error, by its message.
    Error(String),
    /// A list: a visit hands each item to `Visit::visit_value`.
    Listable(Vec<Value>),
    /// A map: a visit hands each entry to `Visit::visit_entry`.
    Mappable(Vec<(Value, Value)>),
    /// A struct: its definition and the field lists its visit hands over.
    Structable(Structure),
    /// An enum: the current variant and the field lists its visit hands over.
    Enumerable(Variant),
    /// A tuple: a visit hands its items to `Visit::visit_unnamed_fields`.
    Tuplable(Vec<Value>),
    Unit,
}

/// The fields that a visit of a struct or of an enum variant hands over.
#[derive(Debug)]
pub enum Fields {
    /// Handed to `Visit::visit_named_fields`.
    Named(Vec<(String, Value)>),
    /// Handed to `Visit::visit_unnamed_fields`.
    Unnamed(Vec<Value>),
}

/// The fields a struct definition declares.
#[derive(Debug)]
pub enum FieldDefs {
    /// Named fields, by name.
    Named(Vec<String>),
    /// Unnamed fields, by count.
    Unnamed(usize),
}

/// A struct's definition: its name and its declared fields.
#[derive(Debug)]
pub struct StructDef {
    pub name: String,
    pub fields: FieldDefs,
}

/// A struct as a `Value`: its definition and the field lists its visit hands
/// over, one per call, in the order of the calls.
#[derive(Debug)]
pub struct Structure {
    pub definition: StructDef,
    pub visits: Vec<Fields>,
}

/// An enum as a `Value`: the name of the current variant and the field lists
/// its visit hands over, one per call, in the order of the calls.
#[derive(Debug)]
pub struct Variant {
    pub name: String,
    pub visits: Vec<Fields>,
}

/// `v` has an owned form: no `Value::Error` stands where the conversion into
/// an owned value visits. It visits the items of lists and tuples, the named
/// fields of structs, and all fields of enum variants; it does not visit the
/// entries of maps (they are handed to `visit_entry`, which keeps nothing) nor
/// the unnamed fields of structs.
pub open spec fn has_owned_form(v: Value) -> bool
    decreases v, 0int,
{
    match v {
        Value::Error(_) => false,
        Value::Listable(items) => all_have_owned_form(items@),
        Value::Tuplable(items) => all_have_owned_form(items@),
        Value::Structable(s) => lists_have_owned_form(s.visits@, false),
        Value::Enumerable(e) => lists_have_owned_form(e.visits@, true),
        _ => true,
    }
}

/// Every value of `s` `has_owned_form`.
pub open spec fn all_have_owned_form(s: Seq<Value>) -> bool
    decreases s, 1int,
{
    s.len() == 0 || (has_owned_form(s[0]) && all_have_owned_form(s.skip(1)))
}

/// Every value of the named fields `s` `has_owned_form`.
pub open spec fn named_have_owned_form(s: Seq<(String, Value)>) -> bool
    decreases s, 1int,
{
    s.len() == 0 || (has_owned_form(s[0].1) && named_have_owned_form(s.skip(1)))
}

/// Every value of `f` that the conversion visits `has_owned_form`: the named
/// fields always, the unnamed ones when `unnamed_visited`.
pub open spec fn fields_have_owned_form(f: Fields, unnamed_visited: bool) -> bool
    decreases f, 2int,
{
    match f {
        Fields::Named(named) => named_have_owned_form(named@),
        Fields::Unnamed(values) => !unnamed_visited || all_have_owned_form(values@),
    }
}

/// Every field list of `lists` `fields_have_owned_form`.
pub open spec fn lists_have_owned_form(lists: Seq<Fields>, unnamed_visited: bool) -> bool
    decreases lists, 3int,
{
    lists.len() == 0 || (fields_have_owned_form(lists[0], unnamed_visited)
        && lists_have_owned_form(lists.skip(1), unnamed_visited))
}

/// Whether `v` has an owned form (`has_owned_form`).
pub fn check_owned_form(v: &Value) -> (b: bool)
    ensures
        b == has_owned_form(*v),
    decreases v, 0int,
{
    match v {
        Value::Error(_) => false,
        Value::Listable(items) => all_check_owned_form(items),
        Value::Tuplable(items) => all_check_owned_form(items),
        Value::Structable(s) => lists_check_owned_form(&s.visits, false),
        Value::Enumerable(e) => lists_check_owned_form(&e.visits, true),
        _ => true,
    }
}

fn all_check_owned_form(items: &Vec<Value>) -> (b: bool)
    ensures
        b == all_have_owned_form(items@),
    decreases items, 1int,
{
    let mut ok = true;
    let mut i: usize = items.len();
    while i > 0
        invariant
            i <= items@.len(),
            ok == all_have_owned_form(items@.skip(i as int)),
        decreases i,
    {
        i -= 1;
        proof {
            assert(items@.skip(i as int).skip(1) =~= items@.skip(i as int + 1));
        }
        ok = check_owned_form(&items[i]) && ok;
    }
    proof {
        assert(items@.skip(0) =~= items@);
    }
    ok
}

fn named_check_owned_form(named: &Vec<(String, Value)>) -> (b: bool)
    ensures
        b == named_have_owned_form(named@),
    decreases named, 1int,
{
    let mut ok = true;
    let mut i: usize = named.len();
    while i > 0
        invariant
            i <= named@.len(),
            ok == named_have_owned_form(named@.skip(i as int)),
        decreases i,
    {
        i -= 1;
        proof {
            assert(named@.skip(i as int).skip(1) =~= named@.skip(i as int + 1));
        }
        ok = check_owned_form(&named[i].1) && ok;
    }
    proof {
        assert(named@.skip(0) =~= named@);
    }
    ok
}

fn fields_check_owned_form(f: &Fields, unnamed_visited: bool) -> (b: bool)
    ensures
        b == fields_have_owned_form(*f, unnamed_visited),
    decreases f, 2int,
{
    match f {
        Fields::Named(named) => named_check_owned_form(named),
        Fields::Unnamed(values) => !unnamed_visited || all_check_owned_form(values),
    }
}

fn lists_check_owned_form(lists: &Vec<Fields>, unnamed_visited: bool) -> (b: bool)
    ensures
        b == lists_have_owned_form(lists@, unnamed_visited),
    decreases lists, 3int,
{
    let mut ok = true;
    let mut i: usize = lists.len();
    while i > 0
        invariant
            i <= lists@.len(),
            ok == lists_have_owned_form(lists@.skip(i as int), unnamed_visited),
        decreases i,
    {
        i -= 1;
        proof {
            assert(lists@.skip(i as int).skip(1) =~= lists@.skip(i as int + 1));
        }
        ok = fields_check_owned_form(&lists[i], unnamed_visited) && ok;
    }
    proof {
        assert(lists@.skip(0) =~= lists@);
    }
    ok
}

} // verus!
