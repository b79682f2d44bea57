//! `Valuable`: types that present themselves as a `Value` and hand their
//! contents to visitors.
use crate::value::{owned_path, FieldDefs, Fields, StructDef, Structure, Value};
use crate::visit::{
    chain, lemma_chain_empty, lemma_values_visited_push, lemma_visited_one, on_value_step,
    primitive_slice_visited, slice_item, slice_values, slice_visited,
    values_visited, visited, Slice, Visit, VisitCall,
};
use core::time::Duration;
use std::path::PathBuf;
use vstd::prelude::*;

verus! {

/// A type that can be converted to a `Value` and visited.
///
/// `presents` and `visit_calls` state what `as_value` returns and which calls
/// `visit` makes; a type that does not define them claims nothing.
pub trait Valuable {
    /// `value` is a value that `as_value` may return for `self`.
    open spec fn presents(&self, value: Value) -> bool {
        true
    }

    /// `calls` is a sequence of calls that `visit` may make for `self`.
    open spec fn visit_calls(&self, calls: Seq<VisitCall>) -> bool {
        true
    }

    /// Converts `self` into a `Value`.
    fn as_value(&self) -> (value: Value)
        ensures
            self.presents(value),
    ;

    /// Hands the contents of `self` to `visit`.
    fn visit<V: Visit>(&self, visit: &mut V)
        ensures
            exists|calls: Seq<VisitCall>|
                #[trigger] self.visit_calls(calls) && visited(*old(visit), calls, *final(visit)),
    ;

    /// Hands each item of `slice`, in order, to `visit` as a value.
    fn visit_slice<V: Visit>(slice: &[Self], visit: &mut V) where Self: Sized
        ensures
            exists|values: Seq<Value>|
                {
                    &&& values.len() == slice@.len()
                    &&& forall|i: int| 0 <= i < values.len() ==> slice@[i].presents(#[trigger] values[i])
                    &&& #[trigger] slice_visited(*old(visit), values, *final(visit))
                },
    {
        let ghost start = *visit;
        let ghost mut values: Seq<Value> = Seq::empty();
        proof {
            lemma_chain_empty(on_value_step::<V>(), start);
        }
        let mut i: usize = 0;
        while i < slice.len()
            invariant
                i <= slice@.len(),
                values.len() == i,
                forall|j: int| 0 <= j < i ==> slice@[j].presents(#[trigger] values[j]),
                values_visited(start, values, *visit),
            decreases slice@.len() - i,
        {
            let value = slice[i].as_value();
            let ghost mid = *visit;
            visit.visit_value(&value);
            proof {
                lemma_values_visited_push(start, values, mid, value, *visit);
                values = values.push(value);
            }
            i += 1;
        }
        assert(slice_visited(start, values, *visit));
    }
}

/// Hands the contents of `inner` to `visit`, naming the calls it made.
fn visit_inner<T: ?Sized + Valuable, V: Visit>(inner: &T, visit: &mut V) -> (calls: Ghost<
    Seq<VisitCall>,
>)
    ensures
        inner.visit_calls(calls@),
        visited(*old(visit), calls@, *final(visit)),
{
    let ghost start = *visit;
    inner.visit(visit);
    Ghost(
        choose|calls: Seq<VisitCall>| #[trigger] inner.visit_calls(calls) && visited(start, calls, *visit),
    )
}

impl<'a, T: ?Sized + Valuable> Valuable for &'a T {
    open spec fn presents(&self, value: Value) -> bool {
        (**self).presents(value)
    }

    open spec fn visit_calls(&self, calls: Seq<VisitCall>) -> bool {
        (**self).visit_calls(calls)
    }

    fn as_value(&self) -> (value: Value) {
        T::as_value(&**self)
    }

    fn visit<V: Visit>(&self, visit: &mut V) {
        let calls = visit_inner(&**self, visit);
        assert(self.visit_calls(calls@));
    }
}

impl<'a, T: ?Sized + Valuable> Valuable for &'a mut T {
    open spec fn presents(&self, value: Value) -> bool {
        (**self).presents(value)
    }

    open spec fn visit_calls(&self, calls: Seq<VisitCall>) -> bool {
        (**self).visit_calls(calls)
    }

    fn as_value(&self) -> (value: Value) {
        T::as_value(&**self)
    }

    fn visit<V: Visit>(&self, visit: &mut V) {
        let calls = visit_inner(&**self, visit);
        assert(self.visit_calls(calls@));
    }
}

impl<T: ?Sized + Valuable> Valuable for Box<T> {
    open spec fn presents(&self, value: Value) -> bool {
        (**self).presents(value)
    }

    open spec fn visit_calls(&self, calls: Seq<VisitCall>) -> bool {
        (**self).visit_calls(calls)
    }

    fn as_value(&self) -> (value: Value) {
        T::as_value(&**self)
    }

    fn visit<V: Visit>(&self, visit: &mut V) {
        let calls = visit_inner(&**self, visit);
        assert(self.visit_calls(calls@));
    }
}

impl<T: ?Sized + Valuable> Valuable for std::rc::Rc<T> {
    open spec fn presents(&self, value: Value) -> bool {
        (**self).presents(value)
    }

    open spec fn visit_calls(&self, calls: Seq<VisitCall>) -> bool {
        (**self).visit_calls(calls)
    }

    fn as_value(&self) -> (value: Value) {
        T::as_value(&**self)
    }

    fn visit<V: Visit>(&self, visit: &mut V) {
        let calls = visit_inner(&**self, visit);
        assert(self.visit_calls(calls@));
    }
}

impl<T: ?Sized + Valuable> Valuable for std::sync::Arc<T> {
    open spec fn presents(&self, value: Value) -> bool {
        (**self).presents(value)
    }

    open spec fn visit_calls(&self, calls: Seq<VisitCall>) -> bool {
        (**self).visit_calls(calls)
    }

    fn as_value(&self) -> (value: Value) {
        T::as_value(&**self)
    }

    fn visit<V: Visit>(&self, visit: &mut V) {
        let calls = visit_inner(&**self, visit);
        assert(self.visit_calls(calls@));
    }
}

/// Hands `value` to `visit` with `visit_value`: one call.
fn visit_one<V: Visit>(visit: &mut V, value: &Value)
    ensures
        visited(*old(visit), seq![VisitCall::Value(*value)], *final(visit)),
{
    let ghost start = *visit;
    visit.visit_value(value);
    proof {
        lemma_visited_one(start, VisitCall::Value(*value), *visit);
    }
}

/// Hands a primitive slice to `visit`, as the values of its items.
fn visit_primitives<V: Visit>(visit: &mut V, slice: Slice<'_>)
    ensures
        primitive_slice_visited(slice, *old(visit), *final(visit)),
{
    let ghost start = *visit;
    visit.visit_primitive_slice(slice);
    proof {
        let values = choose|values: Seq<Value>|
            #[trigger] slice_values(slice, values) && start.on_primitive_slice(values, *visit);
        lemma_visited_one(start, VisitCall::PrimitiveSlice(values), *visit);
    }
}


impl Valuable for bool {
    open spec fn presents(&self, value: Value) -> bool {
        value == Value::Bool(*self)
    }

    open spec fn visit_calls(&self, calls: Seq<VisitCall>) -> bool {
        calls == seq![VisitCall::Value(Value::Bool(*self))]
    }

    fn as_value(&self) -> (value: Value) {
        Value::Bool(*self)
    }

    fn visit<V: Visit>(&self, visit: &mut V) {
        let value = self.as_value();
        visit_one(visit, &value);
        assert(self.visit_calls(seq![VisitCall::Value(value)]));
    }

    fn visit_slice<V: Visit>(slice: &[Self], visit: &mut V)
        ensures
            primitive_slice_visited(Slice::Bool(slice), *old(visit), *final(visit)),
    {
        let ghost start = *visit;
        visit_primitives(visit, Slice::Bool(slice));
        proof {
            let values = choose|values: Seq<Value>|
                #[trigger] slice_values(Slice::Bool(slice), values) && visited(
                    start,
                    seq![VisitCall::PrimitiveSlice(values)],
                    *visit,
                );
            assert forall|i: int| 0 <= i < values.len() implies slice@[i].presents(#[trigger] values[i]) by {
                assert(slice_item(Slice::Bool(slice), i, values[i]));
            }
            assert(slice_visited(start, values, *visit));
        }
    }
}

impl Valuable for char {
    open spec fn presents(&self, value: Value) -> bool {
        value == Value::Char(*self)
    }

    open spec fn visit_calls(&self, calls: Seq<VisitCall>) -> bool {
        calls == seq![VisitCall::Value(Value::Char(*self))]
    }

    fn as_value(&self) -> (value: Value) {
        Value::Char(*self)
    }

    fn visit<V: Visit>(&self, visit: &mut V) {
        let value = self.as_value();
        visit_one(visit, &value);
        assert(self.visit_calls(seq![VisitCall::Value(value)]));
    }

    fn visit_slice<V: Visit>(slice: &[Self], visit: &mut V)
        ensures
            primitive_slice_visited(Slice::Char(slice), *old(visit), *final(visit)),
    {
        let ghost start = *visit;
        visit_primitives(visit, Slice::Char(slice));
        proof {
            let values = choose|values: Seq<Value>|
                #[trigger] slice_values(Slice::Char(slice), values) && visited(
                    start,
                    seq![VisitCall::PrimitiveSlice(values)],
                    *visit,
                );
            assert forall|i: int| 0 <= i < values.len() implies slice@[i].presents(#[trigger] values[i]) by {
                assert(slice_item(Slice::Char(slice), i, values[i]));
            }
            assert(slice_visited(start, values, *visit));
        }
    }
}

impl Valuable for i8 {
    open spec fn presents(&self, value: Value) -> bool {
        value == Value::I8(*self)
    }

    open spec fn visit_calls(&self, calls: Seq<VisitCall>) -> bool {
        calls == seq![VisitCall::Value(Value::I8(*self))]
    }

    fn as_value(&self) -> (value: Value) {
        Value::I8(*self)
    }

    fn visit<V: Visit>(&self, visit: &mut V) {
        let value = self.as_value();
        visit_one(visit, &value);
        assert(self.visit_calls(seq![VisitCall::Value(value)]));
    }

    fn visit_slice<V: Visit>(slice: &[Self], visit: &mut V)
        ensures
            primitive_slice_visited(Slice::I8(slice), *old(visit), *final(visit)),
    {
        let ghost start = *visit;
        visit_primitives(visit, Slice::I8(slice));
        proof {
            let values = choose|values: Seq<Value>|
                #[trigger] slice_values(Slice::I8(slice), values) && visited(
                    start,
                    seq![VisitCall::PrimitiveSlice(values)],
                    *visit,
                );
            assert forall|i: int| 0 <= i < values.len() implies slice@[i].presents(#[trigger] values[i]) by {
                assert(slice_item(Slice::I8(slice), i, values[i]));
            }
            assert(slice_visited(start, values, *visit));
        }
    }
}

impl Valuable for i16 {
    open spec fn presents(&self, value: Value) -> bool {
        value == Value::I16(*self)
    }

    open spec fn visit_calls(&self, calls: Seq<VisitCall>) -> bool {
        calls == seq![VisitCall::Value(Value::I16(*self))]
    }

    fn as_value(&self) -> (value: Value) {
        Value::I16(*self)
    }

    fn visit<V: Visit>(&self, visit: &mut V) {
        let value = self.as_value();
        visit_one(visit, &value);
        assert(self.visit_calls(seq![VisitCall::Value(value)]));
    }

    fn visit_slice<V: Visit>(slice: &[Self], visit: &mut V)
        ensures
            primitive_slice_visited(Slice::I16(slice), *old(visit), *final(visit)),
    {
        let ghost start = *visit;
        visit_primitives(visit, Slice::I16(slice));
        proof {
            let values = choose|values: Seq<Value>|
                #[trigger] slice_values(Slice::I16(slice), values) && visited(
                    start,
                    seq![VisitCall::PrimitiveSlice(values)],
                    *visit,
                );
            assert forall|i: int| 0 <= i < values.len() implies slice@[i].presents(#[trigger] values[i]) by {
                assert(slice_item(Slice::I16(slice), i, values[i]));
            }
            assert(slice_visited(start, values, *visit));
        }
    }
}

impl Valuable for i32 {
    open spec fn presents(&self, value: Value) -> bool {
        value == Value::I32(*self)
    }

    open spec fn visit_calls(&self, calls: Seq<VisitCall>) -> bool {
        calls == seq![VisitCall::Value(Value::I32(*self))]
    }

    fn as_value(&self) -> (value: Value) {
        Value::I32(*self)
    }

    fn visit<V: Visit>(&self, visit: &mut V) {
        let value = self.as_value();
        visit_one(visit, &value);
        assert(self.visit_calls(seq![VisitCall::Value(value)]));
    }

    fn visit_slice<V: Visit>(slice: &[Self], visit: &mut V)
        ensures
            primitive_slice_visited(Slice::I32(slice), *old(visit), *final(visit)),
    {
        let ghost start = *visit;
        visit_primitives(visit, Slice::I32(slice));
        proof {
            let values = choose|values: Seq<Value>|
                #[trigger] slice_values(Slice::I32(slice), values) && visited(
                    start,
                    seq![VisitCall::PrimitiveSlice(values)],
                    *visit,
                );
            assert forall|i: int| 0 <= i < values.len() implies slice@[i].presents(#[trigger] values[i]) by {
                assert(slice_item(Slice::I32(slice), i, values[i]));
            }
            assert(slice_visited(start, values, *visit));
        }
    }
}

impl Valuable for i64 {
    open spec fn presents(&self, value: Value) -> bool {
        value == Value::I64(*self)
    }

    open spec fn visit_calls(&self, calls: Seq<VisitCall>) -> bool {
        calls == seq![VisitCall::Value(Value::I64(*self))]
    }

    fn as_value(&self) -> (value: Value) {
        Value::I64(*self)
    }

    fn visit<V: Visit>(&self, visit: &mut V) {
        let value = self.as_value();
        visit_one(visit, &value);
        assert(self.visit_calls(seq![VisitCall::Value(value)]));
    }

    fn visit_slice<V: Visit>(slice: &[Self], visit: &mut V)
        ensures
            primitive_slice_visited(Slice::I64(slice), *old(visit), *final(visit)),
    {
        let ghost start = *visit;
        visit_primitives(visit, Slice::I64(slice));
        proof {
            let values = choose|values: Seq<Value>|
                #[trigger] slice_values(Slice::I64(slice), values) && visited(
                    start,
                    seq![VisitCall::PrimitiveSlice(values)],
                    *visit,
                );
            assert forall|i: int| 0 <= i < values.len() implies slice@[i].presents(#[trigger] values[i]) by {
                assert(slice_item(Slice::I64(slice), i, values[i]));
            }
            assert(slice_visited(start, values, *visit));
        }
    }
}

impl Valuable for i128 {
    open spec fn presents(&self, value: Value) -> bool {
        value == Value::I128(*self)
    }

    open spec fn visit_calls(&self, calls: Seq<VisitCall>) -> bool {
        calls == seq![VisitCall::Value(Value::I128(*self))]
    }

    fn as_value(&self) -> (value: Value) {
        Value::I128(*self)
    }

    fn visit<V: Visit>(&self, visit: &mut V) {
        let value = self.as_value();
        visit_one(visit, &value);
        assert(self.visit_calls(seq![VisitCall::Value(value)]));
    }

    fn visit_slice<V: Visit>(slice: &[Self], visit: &mut V)
        ensures
            primitive_slice_visited(Slice::I128(slice), *old(visit), *final(visit)),
    {
        let ghost start = *visit;
        visit_primitives(visit, Slice::I128(slice));
        proof {
            let values = choose|values: Seq<Value>|
                #[trigger] slice_values(Slice::I128(slice), values) && visited(
                    start,
                    seq![VisitCall::PrimitiveSlice(values)],
                    *visit,
                );
            assert forall|i: int| 0 <= i < values.len() implies slice@[i].presents(#[trigger] values[i]) by {
                assert(slice_item(Slice::I128(slice), i, values[i]));
            }
            assert(slice_visited(start, values, *visit));
        }
    }
}

impl Valuable for isize {
    open spec fn presents(&self, value: Value) -> bool {
        value == Value::Isize(*self)
    }

    open spec fn visit_calls(&self, calls: Seq<VisitCall>) -> bool {
        calls == seq![VisitCall::Value(Value::Isize(*self))]
    }

    fn as_value(&self) -> (value: Value) {
        Value::Isize(*self)
    }

    fn visit<V: Visit>(&self, visit: &mut V) {
        let value = self.as_value();
        visit_one(visit, &value);
        assert(self.visit_calls(seq![VisitCall::Value(value)]));
    }

    fn visit_slice<V: Visit>(slice: &[Self], visit: &mut V)
        ensures
            primitive_slice_visited(Slice::Isize(slice), *old(visit), *final(visit)),
    {
        let ghost start = *visit;
        visit_primitives(visit, Slice::Isize(slice));
        proof {
            let values = choose|values: Seq<Value>|
                #[trigger] slice_values(Slice::Isize(slice), values) && visited(
                    start,
                    seq![VisitCall::PrimitiveSlice(values)],
                    *visit,
                );
            assert forall|i: int| 0 <= i < values.len() implies slice@[i].presents(#[trigger] values[i]) by {
                assert(slice_item(Slice::Isize(slice), i, values[i]));
            }
            assert(slice_visited(start, values, *visit));
        }
    }
}

impl Valuable for u8 {
    open spec fn presents(&self, value: Value) -> bool {
        value == Value::U8(*self)
    }

    open spec fn visit_calls(&self, calls: Seq<VisitCall>) -> bool {
        calls == seq![VisitCall::Value(Value::U8(*self))]
    }

    fn as_value(&self) -> (value: Value) {
        Value::U8(*self)
    }

    fn visit<V: Visit>(&self, visit: &mut V) {
        let value = self.as_value();
        visit_one(visit, &value);
        assert(self.visit_calls(seq![VisitCall::Value(value)]));
    }

    fn visit_slice<V: Visit>(slice: &[Self], visit: &mut V)
        ensures
            primitive_slice_visited(Slice::U8(slice), *old(visit), *final(visit)),
    {
        let ghost start = *visit;
        visit_primitives(visit, Slice::U8(slice));
        proof {
            let values = choose|values: Seq<Value>|
                #[trigger] slice_values(Slice::U8(slice), values) && visited(
                    start,
                    seq![VisitCall::PrimitiveSlice(values)],
                    *visit,
                );
            assert forall|i: int| 0 <= i < values.len() implies slice@[i].presents(#[trigger] values[i]) by {
                assert(slice_item(Slice::U8(slice), i, values[i]));
            }
            assert(slice_visited(start, values, *visit));
        }
    }
}

impl Valuable for u16 {
    open spec fn presents(&self, value: Value) -> bool {
        value == Value::U16(*self)
    }

    open spec fn visit_calls(&self, calls: Seq<VisitCall>) -> bool {
        calls == seq![VisitCall::Value(Value::U16(*self))]
    }

    fn as_value(&self) -> (value: Value) {
        Value::U16(*self)
    }

    fn visit<V: Visit>(&self, visit: &mut V) {
        let value = self.as_value();
        visit_one(visit, &value);
        assert(self.visit_calls(seq![VisitCall::Value(value)]));
    }

    fn visit_slice<V: Visit>(slice: &[Self], visit: &mut V)
        ensures
            primitive_slice_visited(Slice::U16(slice), *old(visit), *final(visit)),
    {
        let ghost start = *visit;
        visit_primitives(visit, Slice::U16(slice));
        proof {
            let values = choose|values: Seq<Value>|
                #[trigger] slice_values(Slice::U16(slice), values) && visited(
                    start,
                    seq![VisitCall::PrimitiveSlice(values)],
                    *visit,
                );
            assert forall|i: int| 0 <= i < values.len() implies slice@[i].presents(#[trigger] values[i]) by {
                assert(slice_item(Slice::U16(slice), i, values[i]));
            }
            assert(slice_visited(start, values, *visit));
        }
    }
}

impl Valuable for u32 {
    open spec fn presents(&self, value: Value) -> bool {
        value == Value::U32(*self)
    }

    open spec fn visit_calls(&self, calls: Seq<VisitCall>) -> bool {
        calls == seq![VisitCall::Value(Value::U32(*self))]
    }

    fn as_value(&self) -> (value: Value) {
        Value::U32(*self)
    }

    fn visit<V: Visit>(&self, visit: &mut V) {
        let value = self.as_value();
        visit_one(visit, &value);
        assert(self.visit_calls(seq![VisitCall::Value(value)]));
    }

    fn visit_slice<V: Visit>(slice: &[Self], visit: &mut V)
        ensures
            primitive_slice_visited(Slice::U32(slice), *old(visit), *final(visit)),
    {
        let ghost start = *visit;
        visit_primitives(visit, Slice::U32(slice));
        proof {
            let values = choose|values: Seq<Value>|
                #[trigger] slice_values(Slice::U32(slice), values) && visited(
                    start,
                    seq![VisitCall::PrimitiveSlice(values)],
                    *visit,
                );
            assert forall|i: int| 0 <= i < values.len() implies slice@[i].presents(#[trigger] values[i]) by {
                assert(slice_item(Slice::U32(slice), i, values[i]));
            }
            assert(slice_visited(start, values, *visit));
        }
    }
}

impl Valuable for u64 {
    open spec fn presents(&self, value: Value) -> bool {
        value == Value::U64(*self)
    }

    open spec fn visit_calls(&self, calls: Seq<VisitCall>) -> bool {
        calls == seq![VisitCall::Value(Value::U64(*self))]
    }

    fn as_value(&self) -> (value: Value) {
        Value::U64(*self)
    }

    fn visit<V: Visit>(&self, visit: &mut V) {
        let value = self.as_value();
        visit_one(visit, &value);
        assert(self.visit_calls(seq![VisitCall::Value(value)]));
    }

    fn visit_slice<V: Visit>(slice: &[Self], visit: &mut V)
        ensures
            primitive_slice_visited(Slice::U64(slice), *old(visit), *final(visit)),
    {
        let ghost start = *visit;
        visit_primitives(visit, Slice::U64(slice));
        proof {
            let values = choose|values: Seq<Value>|
                #[trigger] slice_values(Slice::U64(slice), values) && visited(
                    start,
                    seq![VisitCall::PrimitiveSlice(values)],
                    *visit,
                );
            assert forall|i: int| 0 <= i < values.len() implies slice@[i].presents(#[trigger] values[i]) by {
                assert(slice_item(Slice::U64(slice), i, values[i]));
            }
            assert(slice_visited(start, values, *visit));
        }
    }
}

impl Valuable for u128 {
    open spec fn presents(&self, value: Value) -> bool {
        value == Value::U128(*self)
    }

    open spec fn visit_calls(&self, calls: Seq<VisitCall>) -> bool {
        calls == seq![VisitCall::Value(Value::U128(*self))]
    }

    fn as_value(&self) -> (value: Value) {
        Value::U128(*self)
    }

    fn visit<V: Visit>(&self, visit: &mut V) {
        let value = self.as_value();
        visit_one(visit, &value);
        assert(self.visit_calls(seq![VisitCall::Value(value)]));
    }

    fn visit_slice<V: Visit>(slice: &[Self], visit: &mut V)
        ensures
            primitive_slice_visited(Slice::U128(slice), *old(visit), *final(visit)),
    {
        let ghost start = *visit;
        visit_primitives(visit, Slice::U128(slice));
        proof {
            let values = choose|values: Seq<Value>|
                #[trigger] slice_values(Slice::U128(slice), values) && visited(
                    start,
                    seq![VisitCall::PrimitiveSlice(values)],
                    *visit,
                );
            assert forall|i: int| 0 <= i < values.len() implies slice@[i].presents(#[trigger] values[i]) by {
                assert(slice_item(Slice::U128(slice), i, values[i]));
            }
            assert(slice_visited(start, values, *visit));
        }
    }
}

impl Valuable for usize {
    open spec fn presents(&self, value: Value) -> bool {
        value == Value::Usize(*self)
    }

    open spec fn visit_calls(&self, calls: Seq<VisitCall>) -> bool {
        calls == seq![VisitCall::Value(Value::Usize(*self))]
    }

    fn as_value(&self) -> (value: Value) {
        Value::Usize(*self)
    }

    fn visit<V: Visit>(&self, visit: &mut V) {
        let value = self.as_value();
        visit_one(visit, &value);
        assert(self.visit_calls(seq![VisitCall::Value(value)]));
    }

    fn visit_slice<V: Visit>(slice: &[Self], visit: &mut V)
        ensures
            primitive_slice_visited(Slice::Usize(slice), *old(visit), *final(visit)),
    {
        let ghost start = *visit;
        visit_primitives(visit, Slice::Usize(slice));
        proof {
            let values = choose|values: Seq<Value>|
                #[trigger] slice_values(Slice::Usize(slice), values) && visited(
                    start,
                    seq![VisitCall::PrimitiveSlice(values)],
                    *visit,
                );
            assert forall|i: int| 0 <= i < values.len() implies slice@[i].presents(#[trigger] values[i]) by {
                assert(slice_item(Slice::Usize(slice), i, values[i]));
            }
            assert(slice_visited(start, values, *visit));
        }
    }
}

impl Valuable for () {
    open spec fn presents(&self, value: Value) -> bool {
        value matches Value::Tuplable(items) && items@.len() == 0
    }

    open spec fn visit_calls(&self, calls: Seq<VisitCall>) -> bool {
        calls == seq![VisitCall::UnnamedFields(Seq::<Value>::empty())]
    }

    fn as_value(&self) -> (value: Value) {
        Value::Tuplable(Vec::new())
    }

    fn visit<V: Visit>(&self, visit: &mut V) {
        let ghost start = *visit;
        let none: Vec<Value> = Vec::new();
        let fields = none.as_slice();
        visit.visit_unnamed_fields(fields);
        proof {
            assert(fields@ =~= Seq::<Value>::empty());
            lemma_visited_one(start, VisitCall::UnnamedFields(fields@), *visit);
            assert(self.visit_calls(seq![VisitCall::UnnamedFields(fields@)]));
        }
    }
}

impl<T: Valuable> Valuable for Option<T> {
    open spec fn presents(&self, value: Value) -> bool {
        match self {
            Some(v) => v.presents(value),
            None => value == Value::Unit,
        }
    }

    open spec fn visit_calls(&self, calls: Seq<VisitCall>) -> bool {
        exists|value: Value| #[trigger] self.presents(value) && calls == seq![VisitCall::Value(value)]
    }

    fn as_value(&self) -> (value: Value) {
        match self {
            Some(v) => v.as_value(),
            None => Value::Unit,
        }
    }

    fn visit<V: Visit>(&self, visit: &mut V) {
        let value = self.as_value();
        visit_one(visit, &value);
        assert(self.visit_calls(seq![VisitCall::Value(value)]));
    }
}

impl<'a> Valuable for &'a str {
    open spec fn presents(&self, value: Value) -> bool {
        value matches Value::String(s) && s@ == (*self)@
    }

    open spec fn visit_calls(&self, calls: Seq<VisitCall>) -> bool {
        exists|value: Value| #[trigger] self.presents(value) && calls == seq![VisitCall::Value(value)]
    }

    fn as_value(&self) -> (value: Value) {
        let text: &str = *self;
        Value::String(text.to_owned())
    }

    fn visit<V: Visit>(&self, visit: &mut V) {
        let value = self.as_value();
        visit_one(visit, &value);
        assert(self.visit_calls(seq![VisitCall::Value(value)]));
    }

    fn visit_slice<V: Visit>(slice: &[Self], visit: &mut V)
        ensures
            primitive_slice_visited(Slice::Str(slice), *old(visit), *final(visit)),
    {
        let ghost start = *visit;
        visit_primitives(visit, Slice::Str(slice));
        proof {
            let values = choose|values: Seq<Value>|
                #[trigger] slice_values(Slice::Str(slice), values) && visited(
                    start,
                    seq![VisitCall::PrimitiveSlice(values)],
                    *visit,
                );
            assert forall|i: int| 0 <= i < values.len() implies slice@[i].presents(#[trigger] values[i]) by {
                assert(slice_item(Slice::Str(slice), i, values[i]));
            }
            assert(slice_visited(start, values, *visit));
        }
    }
}

impl Valuable for String {
    open spec fn presents(&self, value: Value) -> bool {
        value matches Value::String(s) && s@ == self@
    }

    open spec fn visit_calls(&self, calls: Seq<VisitCall>) -> bool {
        exists|value: Value| #[trigger] self.presents(value) && calls == seq![VisitCall::Value(value)]
    }

    fn as_value(&self) -> (value: Value) {
        Value::String(self.clone())
    }

    fn visit<V: Visit>(&self, visit: &mut V) {
        let value = self.as_value();
        visit_one(visit, &value);
        assert(self.visit_calls(seq![VisitCall::Value(value)]));
    }

    fn visit_slice<V: Visit>(slice: &[Self], visit: &mut V)
        ensures
            primitive_slice_visited(Slice::String(slice), *old(visit), *final(visit)),
    {
        let ghost start = *visit;
        visit_primitives(visit, Slice::String(slice));
        proof {
            let values = choose|values: Seq<Value>|
                #[trigger] slice_values(Slice::String(slice), values) && visited(
                    start,
                    seq![VisitCall::PrimitiveSlice(values)],
                    *visit,
                );
            assert forall|i: int| 0 <= i < values.len() implies slice@[i].presents(#[trigger] values[i]) by {
                assert(slice_item(Slice::String(slice), i, values[i]));
            }
            assert(slice_visited(start, values, *visit));
        }
    }
}

impl Valuable for PathBuf {
    open spec fn presents(&self, value: Value) -> bool {
        value == Value::Path(*self)
    }

    open spec fn visit_calls(&self, calls: Seq<VisitCall>) -> bool {
        calls == seq![VisitCall::Value(Value::Path(*self))]
    }

    fn as_value(&self) -> (value: Value) {
        Value::Path(self.clone())
    }

    fn visit<V: Visit>(&self, visit: &mut V) {
        let value = self.as_value();
        visit_one(visit, &value);
        assert(self.visit_calls(seq![VisitCall::Value(value)]));
    }
}

impl<'a> Valuable for &'a std::path::Path {
    open spec fn presents(&self, value: Value) -> bool {
        value == Value::Path(owned_path(*self))
    }

    open spec fn visit_calls(&self, calls: Seq<VisitCall>) -> bool {
        calls == seq![VisitCall::Value(Value::Path(owned_path(*self)))]
    }

    fn as_value(&self) -> (value: Value) {
        Value::Path(self.to_path_buf())
    }

    fn visit<V: Visit>(&self, visit: &mut V) {
        let value = self.as_value();
        visit_one(visit, &value);
        assert(self.visit_calls(seq![VisitCall::Value(value)]));
    }
}

/// The whole seconds of a duration, as `Duration::as_secs` gives them.
pub uninterp spec fn duration_secs(d: Duration) -> u64;

/// The nanoseconds of a duration past its whole seconds, as
/// `Duration::subsec_nanos` gives them.
pub uninterp spec fn duration_nanos(d: Duration) -> u32;

/// `Duration::as_secs` (core): the whole seconds, `duration_secs`.
pub assume_specification[ Duration::as_secs ](d: &Duration) -> (secs: u64)
    ensures
        secs == duration_secs(*d),
;

/// `Duration::subsec_nanos` (core): the fractional part in nanoseconds,
/// `duration_nanos`, always below one billion.
pub assume_specification[ Duration::subsec_nanos ](d: &Duration) -> (nanos: u32)
    ensures
        nanos == duration_nanos(*d),
        nanos < 1_000_000_000,
;

/// The named fields that a visit of a duration of `secs` seconds and `nanos`
/// nanoseconds hands over: the seconds under the name `secs`, the nanoseconds
/// under the name `nanos`.
pub open spec fn duration_fields(named: Seq<(String, Value)>, secs: u64, nanos: u32) -> bool {
    &&& named.len() == 2
    &&& named[0].0@ == "secs"@
    &&& named[0].1 == Value::U64(secs)
    &&& named[1].0@ == "nanos"@
    &&& named[1].1 == Value::U32(nanos)
}

/// `value` is the struct value of a duration of `secs` seconds and `nanos`
/// nanoseconds: defined as `Duration` with the fields `secs` and `nanos`,
/// holding `duration_fields`.
pub open spec fn is_duration_value(value: Value, secs: u64, nanos: u32) -> bool {
    &&& value matches Value::Structable(s)
    &&& s.definition.name@ == "Duration"@
    &&& s.definition.fields matches FieldDefs::Named(names)
    &&& names@.len() == 2
    &&& names@[0]@ == "secs"@
    &&& names@[1]@ == "nanos"@
    &&& s.visits@.len() == 1
    &&& s.visits@[0] matches Fields::Named(named)
    &&& duration_fields(named@, secs, nanos)
}

fn duration_named(secs: u64, nanos: u32) -> (named: Vec<(String, Value)>)
    ensures
        duration_fields(named@, secs, nanos),
{
    vec![("secs".to_owned(), Value::U64(secs)), ("nanos".to_owned(), Value::U32(nanos))]
}

/// The value of a duration of `secs` seconds and `nanos` nanoseconds.
pub fn duration_value(secs: u64, nanos: u32) -> (value: Value)
    ensures
        is_duration_value(value, secs, nanos),
{
    let definition = StructDef {
        name: "Duration".to_owned(),
        fields: FieldDefs::Named(vec!["secs".to_owned(), "nanos".to_owned()]),
    };
    let visits = vec![Fields::Named(duration_named(secs, nanos))];
    Value::Structable(Structure { definition, visits })
}

impl Valuable for Duration {
    open spec fn presents(&self, value: Value) -> bool {
        is_duration_value(value, duration_secs(*self), duration_nanos(*self))
    }

    open spec fn visit_calls(&self, calls: Seq<VisitCall>) -> bool {
        exists|named: Seq<(String, Value)>|
            calls == seq![VisitCall::NamedFields(named)]
                && #[trigger] duration_fields(named, duration_secs(*self), duration_nanos(*self))
    }

    fn as_value(&self) -> (value: Value) {
        let secs = self.as_secs();
        let nanos = self.subsec_nanos();
        duration_value(secs, nanos)
    }

    fn visit<V: Visit>(&self, visit: &mut V) {
        let secs = self.as_secs();
        let nanos = self.subsec_nanos();
        let named = duration_named(secs, nanos);
        let ghost start = *visit;
        visit.visit_named_fields(named.as_slice());
        proof {
            lemma_visited_one(start, VisitCall::NamedFields(named@), *visit);
            assert(duration_fields(named@, duration_secs(*self), duration_nanos(*self)));
            assert(self.visit_calls(seq![VisitCall::NamedFields(named@)]));
        }
    }
}

/// `value` is the struct value of an address of the type named `kind`,
/// written as `text`: defined with one unnamed field, which holds the text.
pub open spec fn is_address_value(value: Value, kind: Seq<char>, text: Seq<char>) -> bool {
    &&& value matches Value::Structable(s)
    &&& s.definition.name@ == kind
    &&& s.definition.fields == FieldDefs::Unnamed(1)
    &&& s.visits@.len() == 1
    &&& s.visits@[0] matches Fields::Unnamed(values)
    &&& values@.len() == 1
    &&& values@[0] matches Value::String(t)
    &&& t@ == text
}

/// The value of an IP address of the type named `kind` (`Ipv4Addr` or `Ipv6Addr`)
/// that is written as `text`.
pub fn address_value(kind: &str, text: String) -> (value: Value)
    ensures
        is_address_value(value, kind@, text@),
{
    let definition = StructDef { name: kind.to_owned(), fields: FieldDefs::Unnamed(1) };
    let visits = vec![Fields::Unnamed(vec![Value::String(text)])];
    Value::Structable(Structure { definition, visits })
}

/// Hands the fields of an IP address written as `text` to `visit`: one call of
/// `visit_unnamed_fields` with the text as the only field.
pub fn visit_address<V: Visit>(visit: &mut V, text: String)
    ensures
        visited(
            *old(visit),
            seq![VisitCall::UnnamedFields(seq![Value::String(text)])],
            *final(visit),
        ),
{
    let ghost start = *visit;
    let ghost field = Value::String(text);
    let values = vec![Value::String(text)];
    assert(values@ =~= seq![field]);
    visit.visit_unnamed_fields(values.as_slice());
    proof {
        lemma_visited_one(start, VisitCall::UnnamedFields(values@), *visit);
    }
}

/// The named fields `named` are those of a socket address: `addr`, holding
/// `ip`, and `port`, holding `port`.
pub open spec fn socket_address_fields(named: Seq<(String, Value)>, ip: Value, port: u16) -> bool {
    &&& named.len() == 2
    &&& named[0].0@ == "addr"@
    &&& named[0].1 == ip
    &&& named[1].0@ == "port"@
    &&& named[1].1 == Value::U16(port)
}

/// Hands the fields of a socket address with the address value `ip` and the
/// port `port` to `visit`: one call of `visit_named_fields` with `addr` and
/// `port`.
pub fn visit_socket_address<V: Visit>(visit: &mut V, ip: Value, port: u16)
    ensures
        exists|named: Seq<(String, Value)>|
            #[trigger] socket_address_fields(named, ip, port) && visited(
                *old(visit),
                seq![VisitCall::NamedFields(named)],
                *final(visit),
            ),
{
    let ghost start = *visit;
    let ghost ip_value = ip;
    let named = vec![("addr".to_owned(), ip), ("port".to_owned(), Value::U16(port))];
    visit.visit_named_fields(named.as_slice());
    proof {
        lemma_visited_one(start, VisitCall::NamedFields(named@), *visit);
        assert(socket_address_fields(named@, ip_value, port));
    }
}

/// `value` is the struct value of a socket address of the type named `kind`, with the
/// address value `ip` and the port `port`: defined with the fields `addr` and
/// `port`, which hold them.
pub open spec fn is_socket_address_value(value: Value, kind: Seq<char>, ip: Value, port: u16) -> bool {
    &&& value matches Value::Structable(s)
    &&& s.definition.name@ == kind
    &&& s.definition.fields matches FieldDefs::Named(names)
    &&& names@.len() == 2
    &&& names@[0]@ == "addr"@
    &&& names@[1]@ == "port"@
    &&& s.visits@.len() == 1
    &&& s.visits@[0] matches Fields::Named(named)
    &&& socket_address_fields(named@, ip, port)
}

/// The value of a socket address of the type named `kind` (`SocketAddrV4` or
/// `SocketAddrV6`) with the address value `ip` and the port `port`.
pub fn socket_address_value(kind: &str, ip: Value, port: u16) -> (value: Value)
    ensures
        is_socket_address_value(value, kind@, ip, port),
{
    let definition = StructDef {
        name: kind.to_owned(),
        fields: FieldDefs::Named(vec!["addr".to_owned(), "port".to_owned()]),
    };
    let named = vec![("addr".to_owned(), ip), ("port".to_owned(), Value::U16(port))];
    Value::Structable(Structure { definition, visits: vec![Fields::Named(named)] })
}

} // verus!
