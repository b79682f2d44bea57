//! Laws that say what the conversions and visits do, in terms of their
//! inputs: which value a primitive presents and hands to a visitor, what a
//! duration hands over, and what the owned form of a primitive or of an enum
//! variant holds.
use crate::owned::{
    fields_empty, law_insert_all_from_empty, law_owned_list, law_variant_last_list, made_from,
    owned_named, owned_of, struct_pairs, Number, OwnedModel,
};
use crate::valuable::{duration_nanos, duration_secs, Valuable};
use crate::value::owned_path;
use crate::value::{Fields, Structure, Value, Variant};
use crate::visit::VisitCall;
use core::time::Duration;
use vstd::prelude::*;

verus! {

/// A character presents `Value::Char` of itself, and its visit makes exactly
/// one `visit_value` call, with the value it presents. Its owned form is the
/// same character.
pub proof fn law_char_value(x: char)
    ensures
        forall|v: Value| #[trigger] x.presents(v) <==> v == Value::Char(x),
        forall|calls: Seq<VisitCall>| #[trigger] x.visit_calls(calls) <==> (exists|v: Value|
            #[trigger] x.presents(v) && calls == seq![VisitCall::Value(v)]),
        owned_of(Value::Char(x)) == OwnedModel::Char(x),
{
    assert forall|calls: Seq<VisitCall>| #[trigger] x.visit_calls(calls) <==> (exists|v: Value|
        #[trigger] x.presents(v) && calls == seq![VisitCall::Value(v)]) by {
        if x.visit_calls(calls) {
            let v = Value::Char(x);
            assert(x.presents(v) && calls == seq![VisitCall::Value(v)]);
        }
    }
}

/// A primitive presents the value of its own type holding itself, and its
/// visit makes exactly one `visit_value` call, with the value it presents.
pub proof fn law_primitive_values()
    ensures
        forall|x: bool, v: Value| #[trigger] x.presents(v) <==> v == Value::Bool(x),
        forall|x: bool, calls: Seq<VisitCall>| #[trigger] x.visit_calls(calls) <==> (exists|v: Value|
            #[trigger] x.presents(v) && calls == seq![VisitCall::Value(v)]),
        forall|x: i8, v: Value| #[trigger] x.presents(v) <==> v == Value::I8(x),
        forall|x: i8, calls: Seq<VisitCall>| #[trigger] x.visit_calls(calls) <==> (exists|v: Value|
            #[trigger] x.presents(v) && calls == seq![VisitCall::Value(v)]),
        forall|x: i16, v: Value| #[trigger] x.presents(v) <==> v == Value::I16(x),
        forall|x: i16, calls: Seq<VisitCall>| #[trigger] x.visit_calls(calls) <==> (exists|v: Value|
            #[trigger] x.presents(v) && calls == seq![VisitCall::Value(v)]),
        forall|x: i32, v: Value| #[trigger] x.presents(v) <==> v == Value::I32(x),
        forall|x: i32, calls: Seq<VisitCall>| #[trigger] x.visit_calls(calls) <==> (exists|v: Value|
            #[trigger] x.presents(v) && calls == seq![VisitCall::Value(v)]),
        forall|x: i64, v: Value| #[trigger] x.presents(v) <==> v == Value::I64(x),
        forall|x: i64, calls: Seq<VisitCall>| #[trigger] x.visit_calls(calls) <==> (exists|v: Value|
            #[trigger] x.presents(v) && calls == seq![VisitCall::Value(v)]),
        forall|x: i128, v: Value| #[trigger] x.presents(v) <==> v == Value::I128(x),
        forall|x: i128, calls: Seq<VisitCall>| #[trigger] x.visit_calls(calls) <==> (exists|v: Value|
            #[trigger] x.presents(v) && calls == seq![VisitCall::Value(v)]),
        forall|x: isize, v: Value| #[trigger] x.presents(v) <==> v == Value::Isize(x),
        forall|x: isize, calls: Seq<VisitCall>| #[trigger] x.visit_calls(calls) <==> (exists|v: Value|
            #[trigger] x.presents(v) && calls == seq![VisitCall::Value(v)]),
        forall|x: u8, v: Value| #[trigger] x.presents(v) <==> v == Value::U8(x),
        forall|x: u8, calls: Seq<VisitCall>| #[trigger] x.visit_calls(calls) <==> (exists|v: Value|
            #[trigger] x.presents(v) && calls == seq![VisitCall::Value(v)]),
        forall|x: u16, v: Value| #[trigger] x.presents(v) <==> v == Value::U16(x),
        forall|x: u16, calls: Seq<VisitCall>| #[trigger] x.visit_calls(calls) <==> (exists|v: Value|
            #[trigger] x.presents(v) && calls == seq![VisitCall::Value(v)]),
        forall|x: u32, v: Value| #[trigger] x.presents(v) <==> v == Value::U32(x),
        forall|x: u32, calls: Seq<VisitCall>| #[trigger] x.visit_calls(calls) <==> (exists|v: Value|
            #[trigger] x.presents(v) && calls == seq![VisitCall::Value(v)]),
        forall|x: u64, v: Value| #[trigger] x.presents(v) <==> v == Value::U64(x),
        forall|x: u64, calls: Seq<VisitCall>| #[trigger] x.visit_calls(calls) <==> (exists|v: Value|
            #[trigger] x.presents(v) && calls == seq![VisitCall::Value(v)]),
        forall|x: u128, v: Value| #[trigger] x.presents(v) <==> v == Value::U128(x),
        forall|x: u128, calls: Seq<VisitCall>| #[trigger] x.visit_calls(calls) <==> (exists|v: Value|
            #[trigger] x.presents(v) && calls == seq![VisitCall::Value(v)]),
        forall|x: usize, v: Value| #[trigger] x.presents(v) <==> v == Value::Usize(x),
        forall|x: usize, calls: Seq<VisitCall>| #[trigger] x.visit_calls(calls) <==> (exists|v: Value|
            #[trigger] x.presents(v) && calls == seq![VisitCall::Value(v)]),
{
    assert forall|x: bool, calls: Seq<VisitCall>| #[trigger] x.visit_calls(calls) <==> (exists|v: Value|
        #[trigger] x.presents(v) && calls == seq![VisitCall::Value(v)]) by {
        if x.visit_calls(calls) {
            let v = Value::Bool(x);
            assert(x.presents(v) && calls == seq![VisitCall::Value(v)]);
        }
    }
    assert forall|x: i8, calls: Seq<VisitCall>| #[trigger] x.visit_calls(calls) <==> (exists|v: Value|
        #[trigger] x.presents(v) && calls == seq![VisitCall::Value(v)]) by {
        if x.visit_calls(calls) {
            let v = Value::I8(x);
            assert(x.presents(v) && calls == seq![VisitCall::Value(v)]);
        }
    }
    assert forall|x: i16, calls: Seq<VisitCall>| #[trigger] x.visit_calls(calls) <==> (exists|v: Value|
        #[trigger] x.presents(v) && calls == seq![VisitCall::Value(v)]) by {
        if x.visit_calls(calls) {
            let v = Value::I16(x);
            assert(x.presents(v) && calls == seq![VisitCall::Value(v)]);
        }
    }
    assert forall|x: i32, calls: Seq<VisitCall>| #[trigger] x.visit_calls(calls) <==> (exists|v: Value|
        #[trigger] x.presents(v) && calls == seq![VisitCall::Value(v)]) by {
        if x.visit_calls(calls) {
            let v = Value::I32(x);
            assert(x.presents(v) && calls == seq![VisitCall::Value(v)]);
        }
    }
    assert forall|x: i64, calls: Seq<VisitCall>| #[trigger] x.visit_calls(calls) <==> (exists|v: Value|
        #[trigger] x.presents(v) && calls == seq![VisitCall::Value(v)]) by {
        if x.visit_calls(calls) {
            let v = Value::I64(x);
            assert(x.presents(v) && calls == seq![VisitCall::Value(v)]);
        }
    }
    assert forall|x: i128, calls: Seq<VisitCall>| #[trigger] x.visit_calls(calls) <==> (exists|v: Value|
        #[trigger] x.presents(v) && calls == seq![VisitCall::Value(v)]) by {
        if x.visit_calls(calls) {
            let v = Value::I128(x);
            assert(x.presents(v) && calls == seq![VisitCall::Value(v)]);
        }
    }
    assert forall|x: isize, calls: Seq<VisitCall>| #[trigger] x.visit_calls(calls) <==> (exists|v: Value|
        #[trigger] x.presents(v) && calls == seq![VisitCall::Value(v)]) by {
        if x.visit_calls(calls) {
            let v = Value::Isize(x);
            assert(x.presents(v) && calls == seq![VisitCall::Value(v)]);
        }
    }
    assert forall|x: u8, calls: Seq<VisitCall>| #[trigger] x.visit_calls(calls) <==> (exists|v: Value|
        #[trigger] x.presents(v) && calls == seq![VisitCall::Value(v)]) by {
        if x.visit_calls(calls) {
            let v = Value::U8(x);
            assert(x.presents(v) && calls == seq![VisitCall::Value(v)]);
        }
    }
    assert forall|x: u16, calls: Seq<VisitCall>| #[trigger] x.visit_calls(calls) <==> (exists|v: Value|
        #[trigger] x.presents(v) && calls == seq![VisitCall::Value(v)]) by {
        if x.visit_calls(calls) {
            let v = Value::U16(x);
            assert(x.presents(v) && calls == seq![VisitCall::Value(v)]);
        }
    }
    assert forall|x: u32, calls: Seq<VisitCall>| #[trigger] x.visit_calls(calls) <==> (exists|v: Value|
        #[trigger] x.presents(v) && calls == seq![VisitCall::Value(v)]) by {
        if x.visit_calls(calls) {
            let v = Value::U32(x);
            assert(x.presents(v) && calls == seq![VisitCall::Value(v)]);
        }
    }
    assert forall|x: u64, calls: Seq<VisitCall>| #[trigger] x.visit_calls(calls) <==> (exists|v: Value|
        #[trigger] x.presents(v) && calls == seq![VisitCall::Value(v)]) by {
        if x.visit_calls(calls) {
            let v = Value::U64(x);
            assert(x.presents(v) && calls == seq![VisitCall::Value(v)]);
        }
    }
    assert forall|x: u128, calls: Seq<VisitCall>| #[trigger] x.visit_calls(calls) <==> (exists|v: Value|
        #[trigger] x.presents(v) && calls == seq![VisitCall::Value(v)]) by {
        if x.visit_calls(calls) {
            let v = Value::U128(x);
            assert(x.presents(v) && calls == seq![VisitCall::Value(v)]);
        }
    }
    assert forall|x: usize, calls: Seq<VisitCall>| #[trigger] x.visit_calls(calls) <==> (exists|v: Value|
        #[trigger] x.presents(v) && calls == seq![VisitCall::Value(v)]) by {
        if x.visit_calls(calls) {
            let v = Value::Usize(x);
            assert(x.presents(v) && calls == seq![VisitCall::Value(v)]);
        }
    }
}

/// A string slice or a `String` presents a `Value::String` with the same
/// characters, and its visit makes exactly one `visit_value` call, with the
/// value it presents.
pub proof fn law_string_values()
    ensures
        forall|x: &str, v: Value| #[trigger] x.presents(v) <==> (v matches Value::String(s) && s@ == x@),
        forall|x: &str, calls: Seq<VisitCall>| #[trigger] x.visit_calls(calls) <==> (exists|v: Value|
            #[trigger] x.presents(v) && calls == seq![VisitCall::Value(v)]),
        forall|x: String, v: Value| #[trigger] x.presents(v) <==> (v matches Value::String(s) && s@ == x@),
        forall|x: String, calls: Seq<VisitCall>| #[trigger] x.visit_calls(calls) <==> (exists|v: Value|
            #[trigger] x.presents(v) && calls == seq![VisitCall::Value(v)]),
{
}

/// A duration presents the struct `Duration` with one list of named fields,
/// `secs` holding its whole seconds (`as_secs`) and `nanos` the nanoseconds
/// beyond them (`subsec_nanos`); its visit hands over exactly those fields, in
/// one `visit_named_fields` call.
pub proof fn law_duration(d: Duration)
    ensures
        forall|v: Value|
            #[trigger] d.presents(v) ==> {
                &&& v matches Value::Structable(s)
                &&& s.definition.name@ == "Duration"@
                &&& s.visits@.len() == 1
                &&& s.visits@[0] matches Fields::Named(named)
                &&& named@.len() == 2
                &&& named@[0].0@ == "secs"@
                &&& named@[0].1 == Value::U64(duration_secs(d))
                &&& named@[1].0@ == "nanos"@
                &&& named@[1].1 == Value::U32(duration_nanos(d))
            },
        forall|calls: Seq<VisitCall>|
            #[trigger] d.visit_calls(calls) ==> {
                &&& calls.len() == 1
                &&& calls[0] matches VisitCall::NamedFields(named)
                &&& named.len() == 2
                &&& named[0].0@ == "secs"@
                &&& named[0].1 == Value::U64(duration_secs(d))
                &&& named[1].0@ == "nanos"@
                &&& named[1].1 == Value::U32(duration_nanos(d))
            },
{
}

/// The owned form of a primitive holds the same payload in the variant of the
/// same type: numbers (floats by their bit patterns, `F32` as `F32` and `F64`
/// as `F64`), booleans, characters, strings, paths and the unit.
pub proof fn law_owned_primitives()
    ensures
        forall|x: u32| #[trigger] owned_of(Value::F32(x)) == OwnedModel::Number(Number::F32(x)),
        forall|x: u64| #[trigger] owned_of(Value::F64(x)) == OwnedModel::Number(Number::F64(x)),
        forall|x: i8| #[trigger] owned_of(Value::I8(x)) == OwnedModel::Number(Number::I8(x)),
        forall|x: i16| #[trigger] owned_of(Value::I16(x)) == OwnedModel::Number(Number::I16(x)),
        forall|x: i32| #[trigger] owned_of(Value::I32(x)) == OwnedModel::Number(Number::I32(x)),
        forall|x: i64| #[trigger] owned_of(Value::I64(x)) == OwnedModel::Number(Number::I64(x)),
        forall|x: i128| #[trigger] owned_of(Value::I128(x)) == OwnedModel::Number(Number::I128(x)),
        forall|x: isize| #[trigger] owned_of(Value::Isize(x)) == OwnedModel::Number(Number::ISIZE(x)),
        forall|x: u8| #[trigger] owned_of(Value::U8(x)) == OwnedModel::Number(Number::U8(x)),
        forall|x: u16| #[trigger] owned_of(Value::U16(x)) == OwnedModel::Number(Number::U16(x)),
        forall|x: u32| #[trigger] owned_of(Value::U32(x)) == OwnedModel::Number(Number::U32(x)),
        forall|x: u64| #[trigger] owned_of(Value::U64(x)) == OwnedModel::Number(Number::U64(x)),
        forall|x: u128| #[trigger] owned_of(Value::U128(x)) == OwnedModel::Number(Number::U128(x)),
        forall|x: usize| #[trigger] owned_of(Value::Usize(x)) == OwnedModel::Number(Number::USIZE(x)),
        forall|x: bool| #[trigger] owned_of(Value::Bool(x)) == OwnedModel::Bool(x),
        forall|x: char| #[trigger] owned_of(Value::Char(x)) == OwnedModel::Char(x),
        forall|x: String| #[trigger] owned_of(Value::String(x)) == OwnedModel::String(x@),
        forall|x: std::path::PathBuf| #[trigger] owned_of(Value::Path(x)) == OwnedModel::Path(x),
        owned_of(Value::Unit) == OwnedModel::Unit,
{
    assert forall|x: char| #[trigger] owned_of(Value::Char(x)) == OwnedModel::Char(x) by {
        law_char_value(x);
    }
}

/// The owned form of an enum value keeps the variant's name, and its content
/// is decided by the last non-empty field list `k`: unnamed fields become a
/// sequence with one item per field, in order, each the owned form of the
/// field; named fields become a mapping made from them (each name once, in the
/// order of first occurrence, holding its last value). With no non-empty list
/// the content is the unit.
pub proof fn law_enum_owned(e: Variant, k: int)
    requires
        0 <= k < e.visits@.len(),
        !fields_empty(e.visits@[k]),
        forall|j: int| k < j < e.visits@.len() ==> #[trigger] fields_empty(e.visits@[j]),
    ensures
        owned_of(Value::Enumerable(e)) matches OwnedModel::Enum(name, content) && name == e.name@
            && match e.visits@[k] {
            Fields::Unnamed(fields) => {
                &&& *content matches OwnedModel::Sequence(items)
                &&& items.len() == fields@.len()
                &&& forall|i: int| 0 <= i < items.len() ==> #[trigger] items[i] == owned_of(fields@[i])
            },
            Fields::Named(fields) => {
                &&& *content matches OwnedModel::Mapping(entries)
                &&& made_from(entries, owned_named(fields@))
            },
        },
{
    law_variant_last_list(OwnedModel::Unit, e.visits@);
    match e.visits@[k] {
        Fields::Unnamed(fields) => {
            law_owned_list(fields@);
        },
        Fields::Named(fields) => {
            law_insert_all_from_empty(owned_named(fields@));
        },
    }
}

/// An enum value whose field lists are all empty has the unit as content.
pub proof fn law_enum_owned_empty(e: Variant)
    requires
        forall|j: int| 0 <= j < e.visits@.len() ==> #[trigger] fields_empty(e.visits@[j]),
    ensures
        owned_of(Value::Enumerable(e)) == OwnedModel::Enum(e.name@, Box::new(OwnedModel::Unit)),
{
    law_variant_last_list(OwnedModel::Unit, e.visits@);
}

/// A path presents `Value::Path` of itself (a borrowed path: of its owned
/// copy), and its visit makes exactly one `visit_value` call, with that value.
pub proof fn law_path_values(p: std::path::PathBuf, q: &std::path::Path)
    ensures
        forall|v: Value| #[trigger] p.presents(v) <==> v == Value::Path(p),
        forall|calls: Seq<VisitCall>| #[trigger] p.visit_calls(calls) <==> (exists|v: Value|
            #[trigger] p.presents(v) && calls == seq![VisitCall::Value(v)]),
        forall|v: Value| #[trigger] q.presents(v) <==> v == Value::Path(owned_path(q)),
        forall|calls: Seq<VisitCall>| #[trigger] q.visit_calls(calls) <==> (exists|v: Value|
            #[trigger] q.presents(v) && calls == seq![VisitCall::Value(v)]),
{
    assert forall|calls: Seq<VisitCall>| #[trigger] p.visit_calls(calls) <==> (exists|v: Value|
        #[trigger] p.presents(v) && calls == seq![VisitCall::Value(v)]) by {
        if p.visit_calls(calls) {
            let v = Value::Path(p);
            assert(p.presents(v) && calls == seq![VisitCall::Value(v)]);
        }
    }
    assert forall|calls: Seq<VisitCall>| #[trigger] q.visit_calls(calls) <==> (exists|v: Value|
        #[trigger] q.presents(v) && calls == seq![VisitCall::Value(v)]) by {
        if q.visit_calls(calls) {
            let v = Value::Path(owned_path(q));
            assert(q.presents(v) && calls == seq![VisitCall::Value(v)]);
        }
    }
}

/// `Some` presents what its content presents and `None` the unit value; the
/// visit of an option makes exactly one `visit_value` call, with a value it
/// presents. The unit `()` presents the empty tuple, and its visit hands over
/// no unnamed fields in one call.
pub proof fn law_option_and_unit<T: Valuable>(o: Option<T>, u: ())
    ensures
        forall|v: Value|
            #[trigger] o.presents(v) <==> match o {
                Some(x) => x.presents(v),
                None => v == Value::Unit,
            },
        forall|calls: Seq<VisitCall>| #[trigger] o.visit_calls(calls) <==> (exists|v: Value|
            #[trigger] o.presents(v) && calls == seq![VisitCall::Value(v)]),
        forall|v: Value| #[trigger] u.presents(v) <==> (v matches Value::Tuplable(items) && items@.len() == 0),
        forall|calls: Seq<VisitCall>|
            #[trigger] u.visit_calls(calls) <==> calls == seq![VisitCall::UnnamedFields(Seq::<Value>::empty())],
{
}

/// A list and a tuple become a sequence with one item per value, in order,
/// each the owned form of the value; a map becomes an empty mapping, its
/// entries being handed to `visit_entry`, which keeps nothing.
pub proof fn law_owned_containers(items: Vec<Value>, entries: Vec<(Value, Value)>)
    ensures
        owned_of(Value::Listable(items)) matches OwnedModel::Sequence(s) && s.len() == items@.len()
            && forall|i: int| 0 <= i < s.len() ==> #[trigger] s[i] == owned_of(items@[i]),
        owned_of(Value::Tuplable(items)) matches OwnedModel::Sequence(s) && s.len() == items@.len()
            && forall|i: int| 0 <= i < s.len() ==> #[trigger] s[i] == owned_of(items@[i]),
        owned_of(Value::Mappable(entries)) == OwnedModel::Mapping(Seq::empty()),
{
    law_owned_list(items@);
}

/// The pairs a struct's field lists give, taken in the order of the calls: a
/// named list gives each field as its name and owned form, in order; an
/// unnamed list gives none; and the lists of two runs of calls, one after the
/// other, give the pairs of the first run followed by those of the second.
pub proof fn law_struct_pairs(a: Seq<Fields>, b: Seq<Fields>, named: Vec<(String, Value)>, unnamed: Vec<Value>)
    ensures
        struct_pairs(a + b) == struct_pairs(a) + struct_pairs(b),
        struct_pairs(seq![Fields::Named(named)]) == owned_named(named@),
        struct_pairs(seq![Fields::Unnamed(unnamed)]) == Seq::<(Seq<char>, OwnedModel)>::empty(),
        struct_pairs(Seq::<Fields>::empty()) == Seq::<(Seq<char>, OwnedModel)>::empty(),
    decreases b.len(),
{
    let one = seq![Fields::Named(named)];
    assert(one.drop_last() =~= Seq::<Fields>::empty());
    assert(one.len() == 1 && one.last() == Fields::Named(named));
    assert(struct_pairs(Seq::<Fields>::empty()) == Seq::<(Seq<char>, OwnedModel)>::empty());
    assert(crate::owned::list_pairs(Fields::Named(named)) == owned_named(named@));
    assert(struct_pairs(one) == struct_pairs(one.drop_last()) + crate::owned::list_pairs(one.last()));
    assert(Seq::<(Seq<char>, OwnedModel)>::empty() + owned_named(named@) =~= owned_named(named@));
    let two = seq![Fields::Unnamed(unnamed)];
    assert(two.drop_last() =~= Seq::<Fields>::empty());
    assert(two.len() == 1 && two.last() == Fields::Unnamed(unnamed));
    assert(crate::owned::list_pairs(Fields::Unnamed(unnamed)) == Seq::<(Seq<char>, OwnedModel)>::empty());
    assert(struct_pairs(two) == struct_pairs(two.drop_last()) + crate::owned::list_pairs(two.last()));
    assert(Seq::<(Seq<char>, OwnedModel)>::empty() + Seq::<(Seq<char>, OwnedModel)>::empty()
        =~= Seq::<(Seq<char>, OwnedModel)>::empty());
    if b.len() == 0 {
        assert(a + b =~= a);
        assert(struct_pairs(a) + Seq::<(Seq<char>, OwnedModel)>::empty() =~= struct_pairs(a));
    } else {
        law_struct_pairs(a, b.drop_last(), named, unnamed);
        assert((a + b).drop_last() =~= a + b.drop_last());
        assert((a + b).last() == b.last());
        assert(struct_pairs(a) + struct_pairs(b.drop_last()) + crate::owned::list_pairs(b.last())
            =~= struct_pairs(a) + (struct_pairs(b.drop_last()) + crate::owned::list_pairs(b.last())));
    }
}

} // verus!
