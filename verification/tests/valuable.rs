use std::path::PathBuf;
use std::sync::atomic::{AtomicBool, AtomicI32, AtomicU64};
use std::time::Duration;
use valuable::owned::{into_owned, Number, ValueOwned};
use valuable::valuable::{
    address_value, duration_value, socket_address_value, visit_address, visit_socket_address,
    Valuable,
};
use valuable::value::{FieldDefs, Fields, Value};
use valuable::visit::{visit_slice_values, Slice, Visit};

/// Records every call, with the values it was handed.
#[derive(Default)]
struct Recorder {
    calls: Vec<String>,
}

impl Visit for Recorder {
    fn visit_value(&mut self, value: &Value) {
        self.calls.push(format!("value {:?}", value));
    }

    fn visit_named_fields(&mut self, named_values: &[(String, Value)]) {
        let names: Vec<&str> = named_values.iter().map(|(n, _)| n.as_str()).collect();
        self.calls.push(format!("named {:?}", names));
    }

    fn visit_unnamed_fields(&mut self, values: &[Value]) {
        self.calls.push(format!("unnamed {}", values.len()));
    }

    fn visit_primitive_slice(&mut self, slice: Slice<'_>) {
        visit_slice_values(self, slice);
    }

    fn visit_entry(&mut self, key: &Value, value: &Value) {
        self.calls.push(format!("entry {:?} {:?}", key, value));
    }
}

/// Like `Recorder`, but takes primitive slices in one call.
#[derive(Default)]
struct SliceRecorder {
    calls: Vec<String>,
}

impl Visit for SliceRecorder {
    fn visit_value(&mut self, value: &Value) {
        self.calls.push(format!("value {:?}", value));
    }

    fn visit_named_fields(&mut self, _named_values: &[(String, Value)]) {
        self.calls.push("named".to_string());
    }

    fn visit_unnamed_fields(&mut self, _values: &[Value]) {
        self.calls.push("unnamed".to_string());
    }

    fn visit_primitive_slice(&mut self, slice: Slice<'_>) {
        self.calls.push(format!("slice {}", slice.len()));
    }

    fn visit_entry(&mut self, _key: &Value, _value: &Value) {
        self.calls.push("entry".to_string());
    }
}

#[test]
fn primitives_as_value() {
    assert!(matches!(true.as_value(), Value::Bool(true)));
    assert!(matches!('z'.as_value(), Value::Char('z')));
    assert!(matches!(5u8.as_value(), Value::U8(5)));
    assert!(matches!((-7i16).as_value(), Value::I16(-7)));
    assert!(matches!(u64::MAX.as_value(), Value::U64(u64::MAX)));
    assert!(matches!(i128::MIN.as_value(), Value::I128(i128::MIN)));
    assert!(matches!(3usize.as_value(), Value::Usize(3)));
    assert!(matches!((-3isize).as_value(), Value::Isize(-3)));
}

#[test]
fn primitive_visit_is_one_value_call() {
    let mut r = Recorder::default();
    42u32.visit(&mut r);
    assert_eq!(r.calls, vec!["value U32(42)".to_string()]);
}

#[test]
fn slice_visit_default_and_primitive() {
    let mut r = Recorder::default();
    u8::visit_slice(&[1, 2, 3], &mut r);
    assert_eq!(r.calls, vec!["value U8(1)", "value U8(2)", "value U8(3)"]);
    let mut s = SliceRecorder::default();
    u8::visit_slice(&[1, 2, 3], &mut s);
    assert_eq!(s.calls, vec!["slice 3".to_string()]);
    let mut c = SliceRecorder::default();
    char::visit_slice(&['a', 'b'], &mut c);
    assert_eq!(c.calls, vec!["slice 2".to_string()]);
    let mut d = SliceRecorder::default();
    <&str>::visit_slice(&["p", "q", "r"], &mut d);
    assert_eq!(d.calls, vec!["slice 3".to_string()]);
    let mut e = SliceRecorder::default();
    String::visit_slice(&["s".to_string()], &mut e);
    assert_eq!(e.calls, vec!["slice 1".to_string()]);
    let mut f = Recorder::default();
    char::visit_slice(&['a', 'b'], &mut f);
    assert_eq!(f.calls, vec!["value Char('a')", "value Char('b')"]);
    let mut t = Recorder::default();
    <&str>::visit_slice(&["x", "y"], &mut t);
    assert_eq!(t.calls, vec!["value String(\"x\")", "value String(\"y\")"]);
}

#[test]
fn option_and_unit() {
    assert!(matches!(Some(9i32).as_value(), Value::I32(9)));
    assert!(matches!(None::<i32>.as_value(), Value::Unit));
    assert!(matches!(().as_value(), Value::Tuplable(v) if v.is_empty()));
    let mut r = Recorder::default();
    ().visit(&mut r);
    assert_eq!(r.calls, vec!["unnamed 0".to_string()]);
    let mut o = Recorder::default();
    None::<u8>.visit(&mut o);
    assert_eq!(o.calls, vec!["value Unit".to_string()]);
}

#[test]
fn strings_and_paths() {
    assert!(matches!("hi".as_value(), Value::String(s) if s == "hi"));
    assert!(matches!(String::from("yo").as_value(), Value::String(s) if s == "yo"));
    let p = PathBuf::from("/a/b");
    assert!(matches!(p.as_value(), Value::Path(q) if q == PathBuf::from("/a/b")));
    let path: &std::path::Path = std::path::Path::new("/c/d");
    assert!(matches!(path.as_value(), Value::Path(q) if q == PathBuf::from("/c/d")));
    let mut r = Recorder::default();
    "hi".visit(&mut r);
    assert_eq!(r.calls, vec!["value String(\"hi\")".to_string()]);
}

#[test]
fn smart_pointers_delegate() {
    let b = Box::new(3u16);
    assert!(matches!(b.as_value(), Value::U16(3)));
    let r = std::rc::Rc::new(-2i8);
    assert!(matches!(r.as_value(), Value::I8(-2)));
    let a = std::sync::Arc::new(false);
    assert!(matches!(a.as_value(), Value::Bool(false)));
    let x = 11u8;
    assert!(matches!((&x).as_value(), Value::U8(11)));
    let mut y = 12u8;
    assert!(matches!((&mut y).as_value(), Value::U8(12)));
}

#[test]
fn atomics_load() {
    assert!(matches!(AtomicI32::new(-4).as_value(), Value::I32(-4)));
    assert!(matches!(AtomicU64::new(8).as_value(), Value::U64(8)));
    let mut r = Recorder::default();
    AtomicBool::new(true).visit(&mut r);
    assert_eq!(r.calls, vec!["value Bool(true)".to_string()]);
}

#[test]
fn duration_fields_are_secs_and_nanos() {
    let d = Duration::new(5, 250);
    let mut r = Recorder::default();
    d.visit(&mut r);
    assert_eq!(r.calls, vec!["named [\"secs\", \"nanos\"]".to_string()]);
    match d.as_value() {
        Value::Structable(s) => {
            assert_eq!(s.definition.name, "Duration");
            assert_eq!(s.visits.len(), 1);
            assert!(
                matches!(&s.definition.fields, FieldDefs::Named(n) if n == &vec!["secs".to_string(), "nanos".to_string()])
            );
            match &s.visits[0] {
                Fields::Named(f) => {
                    assert_eq!(f.len(), 2);
                    assert_eq!(f[0].0, "secs");
                    assert!(matches!(f[0].1, Value::U64(5)));
                    assert_eq!(f[1].0, "nanos");
                    assert!(matches!(f[1].1, Value::U32(250)));
                }
                other => panic!("unexpected {:?}", other),
            }
        }
        other => panic!("unexpected {:?}", other),
    }
    assert!(matches!(duration_value(1, 2), Value::Structable(_)));
    match into_owned(&d.as_value()) {
        ValueOwned::Mapping(m) => {
            assert_eq!(m.len(), 2);
            let (k, v) = m.get_index(0).unwrap();
            assert_eq!(k, "secs");
            assert!(matches!(v, ValueOwned::Number(Number::U64(5))));
        }
        other => panic!("unexpected {:?}", other),
    }
}

#[test]
fn address_values() {
    match address_value("Ipv4Addr", "127.0.0.1".to_string()) {
        Value::Structable(s) => {
            assert_eq!(s.definition.name, "Ipv4Addr");
            assert!(matches!(s.definition.fields, FieldDefs::Unnamed(1)));
            match &s.visits[0] {
                Fields::Unnamed(v) => {
                    assert_eq!(v.len(), 1);
                    assert!(matches!(&v[0], Value::String(t) if t == "127.0.0.1"));
                }
                other => panic!("unexpected {:?}", other),
            }
        }
        other => panic!("unexpected {:?}", other),
    }
    let ip = address_value("Ipv4Addr", "10.0.0.1".to_string());
    match socket_address_value("SocketAddrV4", ip, 8080) {
        Value::Structable(s) => {
            assert_eq!(s.definition.name, "SocketAddrV4");
            match &s.visits[0] {
                Fields::Named(f) => {
                    assert_eq!(f.len(), 2);
                    assert_eq!(f[0].0, "addr");
                    assert!(matches!(f[0].1, Value::Structable(_)));
                    assert_eq!(f[1].0, "port");
                    assert!(matches!(f[1].1, Value::U16(8080)));
                }
                other => panic!("unexpected {:?}", other),
            }
        }
        other => panic!("unexpected {:?}", other),
    }
}

#[test]
fn address_visits() {
    let mut r = Recorder::default();
    visit_address(&mut r, "::1".to_string());
    assert_eq!(r.calls, vec!["unnamed 1".to_string()]);
    let mut r = Recorder::default();
    visit_socket_address(&mut r, address_value("Ipv6Addr", "::1".to_string()), 443);
    assert_eq!(r.calls, vec!["named [\"addr\", \"port\"]".to_string()]);
}
