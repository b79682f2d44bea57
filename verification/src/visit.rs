//! Visitors: the calls by which a value hands its contents to a visitor.
//!
//! Each visitor states, by the relations `on_value`, `on_named_fields`,
//! `on_unnamed_fields`, `on_primitive_slice` and `on_entry`, how one call takes
//! it from one state to the next. A sequence of calls takes it along a chain
//! of such steps (`visited`).
use crate::value::Value;
use vstd::prelude::*;

verus! {

/// One call made on a visitor.
pub enum VisitCall {
    /// `Visit::visit_value`.
    Value(Value),
    /// `Visit::visit_named_fields`.
    NamedFields(Seq<(String, Value)>),
    /// `Visit::visit_unnamed_fields`.
    UnnamedFields(Seq<Value>),
    /// `Visit::visit_entry`.
    Entry(Value, Value),
    /// `Visit::visit_primitive_slice`, by the values of the slice's items.
    PrimitiveSlice(Seq<Value>),
}

/// A slice of primitive values.
#[derive(Clone, Copy)]
pub enum Slice<'a> {
    Bool(&'a [bool]),
    Char(&'a [char]),
    I8(&'a [i8]),
    I16(&'a [i16]),
    I32(&'a [i32]),
    I64(&'a [i64]),
    I128(&'a [i128]),
    Isize(&'a [isize]),
    U8(&'a [u8]),
    U16(&'a [u16]),
    U32(&'a [u32]),
    U64(&'a [u64]),
    U128(&'a [u128]),
    Usize(&'a [usize]),
    Str(&'a [&'a str]),
    String(&'a [String]),
}

/// The number of items of a primitive slice.
pub open spec fn slice_len(s: Slice) -> nat {
    match s {
        Slice::Bool(x) => x@.len(),
        Slice::Char(x) => x@.len(),
        Slice::I8(x) => x@.len(),
        Slice::I16(x) => x@.len(),
        Slice::I32(x) => x@.len(),
        Slice::I64(x) => x@.len(),
        Slice::I128(x) => x@.len(),
        Slice::Isize(x) => x@.len(),
        Slice::U8(x) => x@.len(),
        Slice::U16(x) => x@.len(),
        Slice::U32(x) => x@.len(),
        Slice::U64(x) => x@.len(),
        Slice::U128(x) => x@.len(),
        Slice::Usize(x) => x@.len(),
        Slice::Str(x) => x@.len(),
        Slice::String(x) => x@.len(),
    }
}

/// `v` is the value of the item at position `i` of the primitive slice `s`.
pub open spec fn slice_item(s: Slice, i: int, v: Value) -> bool {
    match s {
        Slice::Bool(x) => v == Value::Bool(x@[i]),
        Slice::Char(x) => v == Value::Char(x@[i]),
        Slice::I8(x) => v == Value::I8(x@[i]),
        Slice::I16(x) => v == Value::I16(x@[i]),
        Slice::I32(x) => v == Value::I32(x@[i]),
        Slice::I64(x) => v == Value::I64(x@[i]),
        Slice::I128(x) => v == Value::I128(x@[i]),
        Slice::Isize(x) => v == Value::Isize(x@[i]),
        Slice::U8(x) => v == Value::U8(x@[i]),
        Slice::U16(x) => v == Value::U16(x@[i]),
        Slice::U32(x) => v == Value::U32(x@[i]),
        Slice::U64(x) => v == Value::U64(x@[i]),
        Slice::U128(x) => v == Value::U128(x@[i]),
        Slice::Usize(x) => v == Value::Usize(x@[i]),
        Slice::Str(x) => v matches Value::String(t) && t@ == x@[i]@,
        Slice::String(x) => v matches Value::String(t) && t@ == x@[i]@,
    }
}

/// `values` are the values of the items of the primitive slice `s`, in order.
pub open spec fn slice_values(s: Slice, values: Seq<Value>) -> bool {
    &&& values.len() == slice_len(s)
    &&& forall|i: int| 0 <= i < values.len() ==> slice_item(s, i, #[trigger] values[i])
}

impl<'a> Slice<'a> {
    /// The number of items.
    pub fn len(&self) -> (n: usize)
        ensures
            n == slice_len(*self),
    {
        match *self {
            Slice::Bool(x) => x.len(),
            Slice::Char(x) => x.len(),
            Slice::I8(x) => x.len(),
            Slice::I16(x) => x.len(),
            Slice::I32(x) => x.len(),
            Slice::I64(x) => x.len(),
            Slice::I128(x) => x.len(),
            Slice::Isize(x) => x.len(),
            Slice::U8(x) => x.len(),
            Slice::U16(x) => x.len(),
            Slice::U32(x) => x.len(),
            Slice::U64(x) => x.len(),
            Slice::U128(x) => x.len(),
            Slice::Usize(x) => x.len(),
            Slice::Str(x) => x.len(),
            Slice::String(x) => x.len(),
        }
    }

    /// The value of the item at position `i`.
    pub fn get(&self, i: usize) -> (v: Value)
        requires
            i < slice_len(*self),
        ensures
            slice_item(*self, i as int, v),
    {
        match *self {
            Slice::Bool(x) => Value::Bool(x[i]),
            Slice::Char(x) => Value::Char(x[i]),
            Slice::I8(x) => Value::I8(x[i]),
            Slice::I16(x) => Value::I16(x[i]),
            Slice::I32(x) => Value::I32(x[i]),
            Slice::I64(x) => Value::I64(x[i]),
            Slice::I128(x) => Value::I128(x[i]),
            Slice::Isize(x) => Value::Isize(x[i]),
            Slice::U8(x) => Value::U8(x[i]),
            Slice::U16(x) => Value::U16(x[i]),
            Slice::U32(x) => Value::U32(x[i]),
            Slice::U64(x) => Value::U64(x[i]),
            Slice::U128(x) => Value::U128(x[i]),
            Slice::Usize(x) => Value::Usize(x[i]),
            Slice::Str(x) => Value::String(x[i].to_owned()),
            Slice::String(x) => Value::String(x[i].clone()),
        }
    }
}

/// Traverses the contents of values.
///
/// The relations `on_value`, `on_named_fields`, `on_unnamed_fields`,
/// `on_primitive_slice` and `on_entry` state what each method does to the
/// visitor; a visitor that does not define them claims nothing (they hold of
/// any two states; `on_primitive_slice` is then a chain of `on_value`).
pub trait Visit: Sized {
    /// `next` is a state this visitor may take after being handed `value` in state `self`.
    open spec fn on_value(self, value: Value, next: Self) -> bool {
        true
    }

    /// `next` is a state this visitor may take after being handed named fields.
    open spec fn on_named_fields(self, named_values: Seq<(String, Value)>, next: Self) -> bool {
        true
    }

    /// `next` is a state this visitor may take after being handed unnamed fields.
    open spec fn on_unnamed_fields(self, values: Seq<Value>, next: Self) -> bool {
        true
    }

    /// `next` is a state this visitor may take after being handed the values
    /// of a primitive slice in one call. Unless a visitor says otherwise, it
    /// is the same as being handed them one by one with `visit_value`.
    open spec fn on_primitive_slice(self, values: Seq<Value>, next: Self) -> bool {
        chain(|s: Self, v: Value, n: Self| s.on_value(v, n), self, values, next)
    }

    /// `next` is a state this visitor may take after being handed a map entry.
    open spec fn on_entry(self, key: Value, value: Value, next: Self) -> bool {
        true
    }

    /// Visits a value.
    fn visit_value(&mut self, value: &Value)
        ensures
            old(self).on_value(*value, *final(self)),
    ;

    /// Visits the named fields of a struct or of an enum variant.
    fn visit_named_fields(&mut self, named_values: &[(String, Value)])
        ensures
            old(self).on_named_fields(named_values@, *final(self)),
    ;

    /// Visits the unnamed fields of a struct, a tuple or an enum variant.
    fn visit_unnamed_fields(&mut self, values: &[Value])
        ensures
            old(self).on_unnamed_fields(values@, *final(self)),
    ;

    /// Visits a slice of primitives, by the values of its items, in one call.
    /// A visitor with no way of its own can hand each value to `visit_value`
    /// with `visit_slice_values`.
    fn visit_primitive_slice(&mut self, slice: Slice<'_>)
        ensures
            exists|values: Seq<Value>|
                #[trigger] slice_values(slice, values) && old(self).on_primitive_slice(
                    values,
                    *final(self),
                ),
    ;

    /// Visits an entry of a map.
    fn visit_entry(&mut self, key: &Value, value: &Value)
        ensures
            old(self).on_entry(*key, *value, *final(self)),
    ;
}

/// `states` is a walk along `steps` by the relation `step`: each step leads
/// from one state to the next.
pub open spec fn walk<S, C>(step: spec_fn(S, C, S) -> bool, states: Seq<S>, steps: Seq<C>) -> bool {
    &&& states.len() == steps.len() + 1
    &&& forall|i: int| 0 <= i < steps.len() ==> step(states[i], #[trigger] steps[i], states[i + 1])
}

/// Taking the steps `steps`, in order, by the relation `step` may lead from
/// `start` to `end`.
pub open spec fn chain<S, C>(step: spec_fn(S, C, S) -> bool, start: S, steps: Seq<C>, end: S) -> bool {
    exists|states: Seq<S>| #[trigger] walk(step, states, steps) && states[0] == start && states.last() == end
}

/// Taking no steps leads from a state to itself.
pub proof fn lemma_chain_empty<S, C>(step: spec_fn(S, C, S) -> bool, start: S)
    ensures
        chain(step, start, Seq::<C>::empty(), start),
{
    let states = seq![start];
    assert(walk(step, states, Seq::<C>::empty()));
}

/// One more step extends a chain.
pub proof fn lemma_chain_push<S, C>(
    step: spec_fn(S, C, S) -> bool,
    start: S,
    steps: Seq<C>,
    mid: S,
    last: C,
    end: S,
)
    requires
        chain(step, start, steps, mid),
        step(mid, last, end),
    ensures
        chain(step, start, steps.push(last), end),
{
    let states = choose|states: Seq<S>| #[trigger] walk(step, states, steps) && states[0] == start && states.last() == mid;
    let more = states.push(end);
    let all = steps.push(last);
    assert forall|i: int| 0 <= i < all.len() implies step(more[i], #[trigger] all[i], more[i + 1]) by {
        if i < steps.len() {
            assert(all[i] == steps[i]);
            assert(step(states[i], steps[i], states[i + 1]));
        }
    }
    assert(walk(step, more, all));
}

/// The step of handing a visitor one value.
pub open spec fn on_value_step<V: Visit>() -> spec_fn(V, Value, V) -> bool {
    |s: V, v: Value, n: V| s.on_value(v, n)
}

/// Handing the visitor in state `start` the values `values`, one by one with
/// `visit_value`, may leave it in state `end`.
pub open spec fn values_visited<V: Visit>(start: V, values: Seq<Value>, end: V) -> bool {
    chain(on_value_step::<V>(), start, values, end)
}

/// Handing one more value extends a chain of values handed over.
pub proof fn lemma_values_visited_push<V: Visit>(start: V, values: Seq<Value>, mid: V, value: Value, end: V)
    requires
        values_visited(start, values, mid),
        mid.on_value(value, end),
    ensures
        values_visited(start, values.push(value), end),
{
    lemma_chain_push(on_value_step::<V>(), start, values, mid, value, end);
}

/// Handing the visitor in state `state` the call `call` may leave it in state `next`.
pub open spec fn handles<V: Visit>(state: V, call: VisitCall, next: V) -> bool {
    match call {
        VisitCall::Value(v) => state.on_value(v, next),
        VisitCall::NamedFields(n) => state.on_named_fields(n, next),
        VisitCall::UnnamedFields(u) => state.on_unnamed_fields(u, next),
        VisitCall::Entry(k, v) => state.on_entry(k, v, next),
        VisitCall::PrimitiveSlice(values) => state.on_primitive_slice(values, next),
    }
}

/// Handing the visitor in state `start` the values `values` of a slice may
/// leave it in state `end`: either one by one with `visit_value`, or all in one
/// `visit_primitive_slice` call.
pub open spec fn slice_visited<V: Visit>(start: V, values: Seq<Value>, end: V) -> bool {
    ||| values_visited(start, values, end)
    ||| visited(start, seq![VisitCall::PrimitiveSlice(values)], end)
}

/// Hands each item of the primitive slice `slice` to `visit` with
/// `visit_value`, in order.
pub fn visit_slice_values<V: Visit>(visit: &mut V, slice: Slice<'_>)
    ensures
        exists|values: Seq<Value>|
            #[trigger] slice_values(slice, values) && values_visited(*old(visit), values, *final(visit))
                && chain(|s: V, v: Value, n: V| s.on_value(v, n), *old(visit), values, *final(visit)),
{
    let ghost start = *visit;
    let ghost mut values: Seq<Value> = Seq::empty();
    let n = slice.len();
    let mut i: usize = 0;
    proof {
        lemma_chain_empty(on_value_step::<V>(), start);
    }
    while i < n
        invariant
            n == slice_len(slice),
            i <= n,
            values.len() == i,
            forall|j: int| 0 <= j < i ==> slice_item(slice, j, #[trigger] values[j]),
            values_visited(start, values, *visit),
        decreases n - i,
    {
        let value = slice.get(i);
        let ghost mid = *visit;
        visit.visit_value(&value);
        proof {
            lemma_values_visited_push(start, values, mid, value, *visit);
            values = values.push(value);
        }
        i += 1;
    }
    proof {
        assert(slice_values(slice, values));
        assert(on_value_step::<V>() =~= (|s: V, v: Value, n: V| s.on_value(v, n)));
    }
}

/// One call handing the visitor in state `start` the primitive slice `slice`
/// may leave it in state `end`.
pub open spec fn primitive_slice_visited<V: Visit>(slice: Slice, start: V, end: V) -> bool {
    exists|values: Seq<Value>|
        #[trigger] slice_values(slice, values) && visited(
            start,
            seq![VisitCall::PrimitiveSlice(values)],
            end,
        )
}

/// The step of handing a visitor one call.
pub open spec fn call_step<V: Visit>() -> spec_fn(V, VisitCall, V) -> bool {
    |s: V, c: VisitCall, n: V| handles(s, c, n)
}

/// Handing the visitor in state `start` the calls `calls`, in order, may
/// leave it in state `end`.
pub open spec fn visited<V: Visit>(start: V, calls: Seq<VisitCall>, end: V) -> bool {
    chain(call_step::<V>(), start, calls, end)
}

/// Handing values one by one with `visit_value` is the same as the calls
/// `VisitCall::Value` of those values, in order.
pub proof fn law_values_as_calls<V: Visit>(start: V, values: Seq<Value>, end: V)
    ensures
        values_visited(start, values, end) == visited(
            start,
            values.map_values(|v: Value| VisitCall::Value(v)),
            end,
        ),
{
    let calls = values.map_values(|v: Value| VisitCall::Value(v));
    if values_visited(start, values, end) {
        let states = choose|states: Seq<V>| #[trigger]
            walk(on_value_step::<V>(), states, values) && states[0] == start && states.last() == end;
        assert forall|i: int| 0 <= i < calls.len() implies call_step::<V>()(
            states[i],
            #[trigger] calls[i],
            states[i + 1],
        ) by {
            assert(on_value_step::<V>()(states[i], values[i], states[i + 1]));
        }
        assert(walk(call_step::<V>(), states, calls));
    }
    if visited(start, calls, end) {
        let states = choose|states: Seq<V>| #[trigger]
            walk(call_step::<V>(), states, calls) && states[0] == start && states.last() == end;
        assert forall|i: int| 0 <= i < values.len() implies on_value_step::<V>()(
            states[i],
            #[trigger] values[i],
            states[i + 1],
        ) by {
            assert(call_step::<V>()(states[i], calls[i], states[i + 1]));
        }
        assert(walk(on_value_step::<V>(), states, values));
    }
}

/// One more call extends a chain of visits.
pub proof fn lemma_visited_push<V: Visit>(
    start: V,
    calls: Seq<VisitCall>,
    mid: V,
    call: VisitCall,
    end: V,
)
    requires
        visited(start, calls, mid),
        handles(mid, call, end),
    ensures
        visited(start, calls.push(call), end),
{
    lemma_chain_push(call_step::<V>(), start, calls, mid, call, end);
}

/// A single call is a chain of one visit.
pub proof fn lemma_visited_one<V: Visit>(start: V, call: VisitCall, end: V)
    requires
        handles(start, call, end),
    ensures
        visited(start, seq![call], end),
{
    lemma_chain_empty(call_step::<V>(), start);
    lemma_visited_push(start, Seq::empty(), start, call, end);
    assert(Seq::<VisitCall>::empty().push(call) =~= seq![call]);
}

} // verus!
