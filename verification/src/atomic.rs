//! `Valuable` for the atomic integer and boolean types: the value is a load
//! with sequentially consistent ordering, which may see any value the atomic
//! holds at that moment.
use crate::valuable::Valuable;
use crate::value::Value;
use crate::visit::{lemma_visited_one, Visit, VisitCall};
use core::sync::atomic::{
    AtomicBool, AtomicI16, AtomicI32, AtomicI64, AtomicI8, AtomicIsize, AtomicU16, AtomicU32,
    AtomicU64, AtomicU8, AtomicUsize, Ordering,
};
use vstd::prelude::*;

verus! {

impl Valuable for AtomicBool {
    open spec fn presents(&self, value: Value) -> bool {
        value is Bool
    }

    open spec fn visit_calls(&self, calls: Seq<VisitCall>) -> bool {
        &&& calls.len() == 1
        &&& calls[0] matches VisitCall::Value(value)
        &&& value is Bool
    }

    fn as_value(&self) -> (value: Value) {
        Value::Bool(self.load(Ordering::SeqCst))
    }

    fn visit<V: Visit>(&self, visit: &mut V) {
        let value = self.as_value();
        let ghost start = *visit;
        visit.visit_value(&value);
        proof {
            lemma_visited_one(start, VisitCall::Value(value), *visit);
            assert(self.visit_calls(seq![VisitCall::Value(value)]));
        }
    }
}

impl Valuable for AtomicI8 {
    open spec fn presents(&self, value: Value) -> bool {
        value is I8
    }

    open spec fn visit_calls(&self, calls: Seq<VisitCall>) -> bool {
        &&& calls.len() == 1
        &&& calls[0] matches VisitCall::Value(value)
        &&& value is I8
    }

    fn as_value(&self) -> (value: Value) {
        Value::I8(self.load(Ordering::SeqCst))
    }

    fn visit<V: Visit>(&self, visit: &mut V) {
        let value = self.as_value();
        let ghost start = *visit;
        visit.visit_value(&value);
        proof {
            lemma_visited_one(start, VisitCall::Value(value), *visit);
            assert(self.visit_calls(seq![VisitCall::Value(value)]));
        }
    }
}

impl Valuable for AtomicI16 {
    open spec fn presents(&self, value: Value) -> bool {
        value is I16
    }

    open spec fn visit_calls(&self, calls: Seq<VisitCall>) -> bool {
        &&& calls.len() == 1
        &&& calls[0] matches VisitCall::Value(value)
        &&& value is I16
    }

    fn as_value(&self) -> (value: Value) {
        Value::I16(self.load(Ordering::SeqCst))
    }

    fn visit<V: Visit>(&self, visit: &mut V) {
        let value = self.as_value();
        let ghost start = *visit;
        visit.visit_value(&value);
        proof {
            lemma_visited_one(start, VisitCall::Value(value), *visit);
            assert(self.visit_calls(seq![VisitCall::Value(value)]));
        }
    }
}

impl Valuable for AtomicI32 {
    open spec fn presents(&self, value: Value) -> bool {
        value is I32
    }

    open spec fn visit_calls(&self, calls: Seq<VisitCall>) -> bool {
        &&& calls.len() == 1
        &&& calls[0] matches VisitCall::Value(value)
        &&& value is I32
    }

    fn as_value(&self) -> (value: Value) {
        Value::I32(self.load(Ordering::SeqCst))
    }

    fn visit<V: Visit>(&self, visit: &mut V) {
        let value = self.as_value();
        let ghost start = *visit;
        visit.visit_value(&value);
        proof {
            lemma_visited_one(start, VisitCall::Value(value), *visit);
            assert(self.visit_calls(seq![VisitCall::Value(value)]));
        }
    }
}

impl Valuable for AtomicI64 {
    open spec fn presents(&self, value: Value) -> bool {
        value is I64
    }

    open spec fn visit_calls(&self, calls: Seq<VisitCall>) -> bool {
        &&& calls.len() == 1
        &&& calls[0] matches VisitCall::Value(value)
        &&& value is I64
    }

    fn as_value(&self) -> (value: Value) {
        Value::I64(self.load(Ordering::SeqCst))
    }

    fn visit<V: Visit>(&self, visit: &mut V) {
        let value = self.as_value();
        let ghost start = *visit;
        visit.visit_value(&value);
        proof {
            lemma_visited_one(start, VisitCall::Value(value), *visit);
            assert(self.visit_calls(seq![VisitCall::Value(value)]));
        }
    }
}

impl Valuable for AtomicIsize {
    open spec fn presents(&self, value: Value) -> bool {
        value is Isize
    }

    open spec fn visit_calls(&self, calls: Seq<VisitCall>) -> bool {
        &&& calls.len() == 1
        &&& calls[0] matches VisitCall::Value(value)
        &&& value is Isize
    }

    fn as_value(&self) -> (value: Value) {
        Value::Isize(self.load(Ordering::SeqCst))
    }

    fn visit<V: Visit>(&self, visit: &mut V) {
        let value = self.as_value();
        let ghost start = *visit;
        visit.visit_value(&value);
        proof {
            lemma_visited_one(start, VisitCall::Value(value), *visit);
            assert(self.visit_calls(seq![VisitCall::Value(value)]));
        }
    }
}

impl Valuable for AtomicU8 {
    open spec fn presents(&self, value: Value) -> bool {
        value is U8
    }

    open spec fn visit_calls(&self, calls: Seq<VisitCall>) -> bool {
        &&& calls.len() == 1
        &&& calls[0] matches VisitCall::Value(value)
        &&& value is U8
    }

    fn as_value(&self) -> (value: Value) {
        Value::U8(self.load(Ordering::SeqCst))
    }

    fn visit<V: Visit>(&self, visit: &mut V) {
        let value = self.as_value();
        let ghost start = *visit;
        visit.visit_value(&value);
        proof {
            lemma_visited_one(start, VisitCall::Value(value), *visit);
            assert(self.visit_calls(seq![VisitCall::Value(value)]));
        }
    }
}

impl Valuable for AtomicU16 {
    open spec fn presents(&self, value: Value) -> bool {
        value is U16
    }

    open spec fn visit_calls(&self, calls: Seq<VisitCall>) -> bool {
        &&& calls.len() == 1
        &&& calls[0] matches VisitCall::Value(value)
        &&& value is U16
    }

    fn as_value(&self) -> (value: Value) {
        Value::U16(self.load(Ordering::SeqCst))
    }

    fn visit<V: Visit>(&self, visit: &mut V) {
        let value = self.as_value();
        let ghost start = *visit;
        visit.visit_value(&value);
        proof {
            lemma_visited_one(start, VisitCall::Value(value), *visit);
            assert(self.visit_calls(seq![VisitCall::Value(value)]));
        }
    }
}

impl Valuable for AtomicU32 {
    open spec fn presents(&self, value: Value) -> bool {
        value is U32
    }

    open spec fn visit_calls(&self, calls: Seq<VisitCall>) -> bool {
        &&& calls.len() == 1
        &&& calls[0] matches VisitCall::Value(value)
        &&& value is U32
    }

    fn as_value(&self) -> (value: Value) {
        Value::U32(self.load(Ordering::SeqCst))
    }

    fn visit<V: Visit>(&self, visit: &mut V) {
        let value = self.as_value();
        let ghost start = *visit;
        visit.visit_value(&value);
        proof {
            lemma_visited_one(start, VisitCall::Value(value), *visit);
            assert(self.visit_calls(seq![VisitCall::Value(value)]));
        }
    }
}

impl Valuable for AtomicU64 {
    open spec fn presents(&self, value: Value) -> bool {
        value is U64
    }

    open spec fn visit_calls(&self, calls: Seq<VisitCall>) -> bool {
        &&& calls.len() == 1
        &&& calls[0] matches VisitCall::Value(value)
        &&& value is U64
    }

    fn as_value(&self) -> (value: Value) {
        Value::U64(self.load(Ordering::SeqCst))
    }

    fn visit<V: Visit>(&self, visit: &mut V) {
        let value = self.as_value();
        let ghost start = *visit;
        visit.visit_value(&value);
        proof {
            lemma_visited_one(start, VisitCall::Value(value), *visit);
            assert(self.visit_calls(seq![VisitCall::Value(value)]));
        }
    }
}

impl Valuable for AtomicUsize {
    open spec fn presents(&self, value: Value) -> bool {
        value is Usize
    }

    open spec fn visit_calls(&self, calls: Seq<VisitCall>) -> bool {
        &&& calls.len() == 1
        &&& calls[0] matches VisitCall::Value(value)
        &&& value is Usize
    }

    fn as_value(&self) -> (value: Value) {
        Value::Usize(self.load(Ordering::SeqCst))
    }

    fn visit<V: Visit>(&self, visit: &mut V) {
        let value = self.as_value();
        let ghost start = *visit;
        visit.visit_value(&value);
        proof {
            lemma_visited_one(start, VisitCall::Value(value), *visit);
            assert(self.visit_calls(seq![VisitCall::Value(value)]));
        }
    }
}

} // verus!
