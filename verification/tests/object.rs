//! Objects and their presentation order.
use std::collections::hash_map::DefaultHasher;
use std::collections::BTreeMap;
use std::hash::{Hash, Hasher};

use surreal_branch::collections::vec_map::VecMap;
use surreal_branch::types::object::Object as PublicObject;
use surreal_branch::val::headers::HeaderError;
use surreal_branch::val::object::{Object, ObjectMap};
use surreal_branch::val::sql::ObjectLayout;
use surreal_branch::val::value::{RecordId, Value};

fn obj_written(pairs: &[(&str, i64)], written: &[&str]) -> Object<Value> {
    let mut o = Object::default();
    for (k, v) in pairs {
        o.insert(*k, Value::from(*v));
    }
    o.set_written_order(written.iter().copied());
    o
}

fn keys_shown<V>(o: &Object<V>) -> Vec<&str> {
    o.iter_display().into_iter().map(|(k, _)| k.as_str()).collect()
}

/// The map as storekey encodes one.
fn encode_map(map: &ObjectMap<Value>) -> Result<Vec<u8>, String> {
    let tree: BTreeMap<String, i64> = map
        .iter()
        .into_iter()
        .map(|(k, v)| match v {
            Value::Number(n) => (k.clone(), *n),
            other => panic!("unexpected {other:?}"),
        })
        .collect();
    storekey::encode_vec(&tree).map_err(|e| e.to_string())
}

fn decode_map(bytes: &[u8]) -> Result<ObjectMap<Value>, String> {
    let tree: BTreeMap<String, i64> =
        storekey::decode_borrow(bytes).map_err(|e| format!("{e:?}"))?;
    let entries: Vec<(String, Value)> =
        tree.into_iter().map(|(k, v)| (k, Value::from(v))).collect();
    Ok(ObjectMap(VecMap::from_iter(entries.into_iter())))
}

#[test]
fn order_excluded_from_eq_and_hash() {
    // Same fields, different written order → must stay equal + hash-equal.
    let a = obj_written(&[("a", 1), ("b", 2), ("c", 3)], &["c", "a", "b"]);
    let b = obj_written(&[("a", 1), ("b", 2), ("c", 3)], &["a", "b", "c"]);
    assert_eq!(a, b, "objects differing only in display order must be equal");

    let mut ha = DefaultHasher::new();
    let mut hb = DefaultHasher::new();
    a.hash(&mut ha);
    b.hash(&mut hb);
    assert_eq!(ha.finish(), hb.finish(), "hashes must match regardless of order");
    assert_eq!(a.cmp(&b), std::cmp::Ordering::Equal, "Ord must ignore order");
}

#[test]
fn display_order_is_preserved() {
    let a = obj_written(&[("a", 1), ("b", 2), ("c", 3)], &["c", "a", "b"]);
    let keys: Vec<&str> = a.iter_display().into_iter().map(|(k, _)| k.as_str()).collect();
    assert_eq!(keys, vec!["c", "a", "b"], "iter_display must follow written order");

    // Logical iteration stays sorted.
    let sorted: Vec<&str> = a.keys().into_iter().map(|k| k.as_str()).collect();
    assert_eq!(sorted, vec!["a", "b", "c"], "logical iteration stays sorted");
}

#[test]
fn storekey_encoding_is_byte_identical() {
    // An object with a display-order side-car must encode to exactly the
    // same bytes as the same object without one.
    let ordered = obj_written(&[("a", 1), ("b", 2), ("c", 3)], &["c", "a", "b"]);
    let mut plain = Object::default();
    for (k, v) in [("a", 1), ("b", 2), ("c", 3)] {
        plain.insert(k, Value::from(v));
    }
    assert!(ordered.1.is_some() && plain.1.is_none());

    let enc_ordered = ordered.encode(encode_map).expect("encode ordered");
    let enc_plain = plain.encode(encode_map).expect("encode plain");
    assert_eq!(enc_ordered, enc_plain, "side-car must not change encoded bytes");
    assert!(!enc_ordered.is_empty());

    // And it round-trips back to the canonical (sorted, order-less) value.
    let decoded: Object<Value> = Object::borrow_decode(enc_ordered.as_slice(), decode_map).expect("decode");
    assert_eq!(decoded, ordered);
    assert!(decoded.1.is_none(), "decoded value carries no display order");
}

#[test]
fn decoding_errors_pass_through() {
    let failed: Result<Object<Value>, String> =
        Object::borrow_decode("x".as_bytes(), |_: &[u8]| Err("broken".to_string()));
    assert_eq!(failed.unwrap_err(), "broken");
}

#[test]
fn unequal_objects_differ() {
    let a = obj_written(&[("a", 1), ("b", 2)], &[]);
    assert_ne!(a, obj_written(&[("a", 1)], &[]));
    assert_ne!(a, obj_written(&[("a", 1), ("b", 3)], &[]));
    assert_ne!(a, obj_written(&[("a", 1), ("c", 2)], &[]));
    assert_eq!(a.cmp(&obj_written(&[("a", 1)], &[])), std::cmp::Ordering::Greater);
    assert_eq!(a.cmp(&obj_written(&[("a", 2)], &[])), std::cmp::Ordering::Less);
    assert_eq!(a.cmp(&obj_written(&[("b", 0)], &[])), std::cmp::Ordering::Less);
    assert_eq!(
        a.partial_cmp(&obj_written(&[("a", 1), ("b", 2), ("c", 0)], &[])),
        Some(std::cmp::Ordering::Less)
    );
    assert!(a < obj_written(&[("a", 1), ("b", 3)], &[]));
}

#[test]
fn written_order_skips_absent_keys() {
    let o = obj_written(&[("a", 1), ("b", 2)], &["z", "b", "q", "a"]);
    assert_eq!(o.1.positions, Some(vec![1, 0]));
    assert_eq!(keys_shown(&o), vec!["b", "a"]);
    // Keys not written follow in sorted order.
    let some = obj_written(&[("a", 1), ("b", 2), ("c", 3), ("d", 4)], &["c", "q"]);
    assert_eq!(some.1.positions, Some(vec![2, 0, 1, 3]));
    assert_eq!(keys_shown(&some), vec!["c", "a", "b", "d"]);
    // A key written again keeps the place of its first mention.
    let twice = obj_written(&[("a", 1), ("b", 2)], &["b", "a", "b"]);
    assert_eq!(twice.1.positions, Some(vec![1, 0]));
    assert_eq!(keys_shown(&twice), vec!["b", "a"]);
    // Nothing written that is there: no order, and the sorted one is shown.
    let none = obj_written(&[("a", 1), ("b", 2)], &["x", "y"]);
    assert!(none.1.is_none());
    assert_eq!(keys_shown(&none), vec!["a", "b"]);
}

#[test]
fn removal_keeps_the_order_of_the_rest() {
    let mut o = obj_written(&[("a", 1), ("b", 2), ("c", 3)], &["c", "a", "b"]);
    assert_eq!(o.remove("zz"), None);
    assert_eq!(o.1.positions, Some(vec![2, 0, 1]));
    assert_eq!(o.remove("b"), Some(Value::from(2)));
    assert_eq!(o.1.positions, Some(vec![1, 0]));
    assert_eq!(keys_shown(&o), vec!["c", "a"]);
    assert_eq!(o.remove("a"), Some(Value::from(1)));
    assert_eq!(o.remove("c"), Some(Value::from(3)));
    assert!(keys_shown(&o).is_empty());
}

#[test]
fn new_entries_are_shown_last() {
    let mut o = obj_written(&[("b", 1), ("d", 2), ("f", 3)], &["f", "b", "d"]);
    assert_eq!(o.1.positions, Some(vec![2, 0, 1]));
    o.insert("c", Value::from(4));
    assert_eq!(o.1.positions, Some(vec![3, 0, 2, 1]));
    // Taken out again, the order is what it was.
    let mut again = o.clone();
    assert_eq!(again.remove("c"), Some(Value::from(4)));
    assert_eq!(again.1.positions, Some(vec![2, 0, 1]));
    assert_eq!(keys_shown(&o), vec!["f", "b", "d", "c"]);
    o.insert("a", Value::from(5));
    o.insert("z", Value::from(6));
    assert_eq!(keys_shown(&o), vec!["f", "b", "d", "c", "a", "z"]);
    // A key that is there keeps its place.
    o.insert("b", Value::from(7));
    assert_eq!(o.1.positions, Some(vec![4, 1, 3, 2, 0, 5]));
    assert_eq!(keys_shown(&o), vec!["f", "b", "d", "c", "a", "z"]);
    // So it is with entries.
    *o.entry("d").or_insert(Value::from(0)) = Value::from(8);
    *o.entry("e").or_insert(Value::from(0)) = Value::from(9);
    assert_eq!(o.get("d"), Some(&Value::from(8)));
    assert_eq!(o.get("e"), Some(&Value::from(9)));
    assert_eq!(keys_shown(&o), vec!["f", "b", "d", "c", "a", "z", "e"]);
    // Without an order, entries stay sorted.
    let mut plain = obj_written(&[("b", 1)], &[]);
    plain.insert("a", Value::from(2));
    assert!(plain.1.is_none());
    assert_eq!(keys_shown(&plain), vec!["a", "b"]);
}

#[test]
fn looking_at_the_sorted_map_keeps_the_order() {
    let mut o = obj_written(&[("a", 1), ("b", 2)], &["b", "a"]);
    let map: &mut VecMap<Value> = &mut o;
    assert_eq!(map.len(), 2);
    map.insert("a".to_string(), Value::from(5));
    *map.get_mut("b").unwrap() = Value::from(6);
    assert_eq!(keys_shown(&o), vec!["b", "a"]);
    assert_eq!(o.get("a"), Some(&Value::from(5)));
    assert_eq!(o.get("b"), Some(&Value::from(6)));
    *o.get_mut("b").unwrap() = Value::from(7);
    assert_eq!(keys_shown(&o), vec!["b", "a"]);

    let mut p: PublicObject<i64> = PublicObject::from(vec![("a".to_string(), 1), ("b".to_string(), 2)]);
    p.set_display_order(Some(vec![1, 0]));
    *p.get_mut("a").unwrap() += 10;
    assert!(p.get_mut("zz").is_none());
    let map: &mut VecMap<i64> = &mut p;
    *map.get_mut("b").unwrap() += 10;
    assert_eq!(p.into_iter_display(), vec![("b".to_string(), 12), ("a".to_string(), 11)]);
}

#[test]
fn order_counts_for_as_many_entries_as_it_was_set_for() {
    let mut o = obj_written(&[("a", 1), ("b", 2)], &["b", "a"]);
    let map: &mut VecMap<Value> = &mut o;
    map.insert("0".to_string(), Value::from(0));
    // No entry is missing, and none is shown twice.
    assert_eq!(keys_shown(&o), vec!["0", "a", "b"]);
    // One that was put in properly comes to an object without an order.
    o.insert("A", Value::from(3));
    assert!(o.1.is_none());
    assert_eq!(keys_shown(&o), vec!["0", "A", "a", "b"]);

    let mut p: PublicObject<i64> = PublicObject::from(vec![("a".to_string(), 1), ("b".to_string(), 2)]);
    p.set_display_order(Some(vec![1, 0]));
    let map: &mut VecMap<i64> = &mut p;
    assert_eq!(map.remove("a"), Some(1));
    assert_eq!(p.clone().into_iter_display(), vec![("b".to_string(), 2)]);
    let map: &mut VecMap<i64> = &mut p;
    map.insert("c".to_string(), 3);
    assert_eq!(p.into_iter_display(), vec![("c".to_string(), 3), ("b".to_string(), 2)]);
}

#[test]
fn public_objects_are_iterated_by_reference() {
    let mut p: PublicObject<i64> = PublicObject::from(vec![("b".to_string(), 2), ("a".to_string(), 1)]);
    p.set_display_order(Some(vec![1, 0]));
    let seen: Vec<(&str, i64)> = (&p).into_iter().map(|(k, v)| (k.as_str(), *v)).collect();
    assert_eq!(seen, vec![("a", 1), ("b", 2)]);
    for (k, v) in &mut p {
        if k == "b" {
            *v *= 100;
        } else {
            *v += 1;
        }
    }
    // Values change, keys and order do not.
    assert_eq!(p.into_iter_display(), vec![("b".to_string(), 200), ("a".to_string(), 2)]);
    let mut empty: PublicObject<i64> = PublicObject::new();
    assert!((&empty).into_iter().next().is_none());
    assert!((&mut empty).into_iter().next().is_none());
}

#[test]
fn fields_are_inserted_read_and_removed() {
    let mut o: Object<i64> = Object::default();
    assert!(o.is_empty());
    assert_eq!(o.insert("b", 2), None);
    assert_eq!(o.insert("a", 1), None);
    assert_eq!(o.insert("b", 3), Some(2));
    assert_eq!(o.len(), 2);
    assert_eq!(o.get("b"), Some(&3));
    assert_eq!(o.get("c"), None);
    assert!(o.contains_key("a"));
    assert!(!o.contains_key("A"));
    if let Some(v) = o.get_mut("a") {
        *v = 10;
    }
    assert_eq!(o.get("a"), Some(&10));
    assert!(o.get_mut("zz").is_none());
    *o.entry("a").or_insert(0) += 1;
    *o.entry("n").or_insert(5) += 1;
    assert_eq!(o.get("a"), Some(&11));
    assert_eq!(o.get("n"), Some(&6));
    assert_eq!(o.remove("b"), Some(3));
    assert_eq!(o.remove("b"), None);
    let entries: Vec<(String, i64)> = o.into_iter().collect();
    assert_eq!(entries, vec![("a".to_string(), 11), ("n".to_string(), 6)]);
}

#[test]
fn deref_gives_the_sorted_map() {
    let mut o: Object<i64> = Object::default();
    o.insert("x", 1);
    let map: &mut VecMap<i64> = &mut o;
    map.insert("w".to_string(), 0);
    assert_eq!(o.keys(), vec!["w", "x"]);
    let inner: &VecMap<i64> = &o.0;
    assert_eq!(inner.len(), 2);
    let mut copy = o.0.clone();
    copy.insert("v".to_string(), 9);
    assert_eq!(copy.into_iter().count(), 3);
    assert_eq!(o.len(), 2);
}

#[test]
fn union_prefers_the_right() {
    let a: Object<i64> =
        Object::from(vec![("a".to_string(), 1), ("b".to_string(), 2), ("d".to_string(), 4)]);
    let b: Object<i64> = Object::from(vec![("c".to_string(), 30), ("b".to_string(), 20)]);
    let mut written = a.clone();
    written.set_written_order(vec!["d", "a", "b"].into_iter());
    let sum = written + b.clone();
    assert!(sum.1.is_none());
    let entries: Vec<(String, i64)> = sum.into_iter().collect();
    assert_eq!(entries, vec![
        ("a".to_string(), 1),
        ("b".to_string(), 20),
        ("c".to_string(), 30),
        ("d".to_string(), 4)
    ]);
    // Unions group as they like, and an empty object adds nothing.
    let c: Object<i64> = Object::from(vec![("b".to_string(), 200), ("e".to_string(), 5)]);
    assert_eq!((a.clone() + b.clone()) + c.clone(), a.clone() + (b.clone() + c.clone()));
    assert_eq!(a.clone() + Object::default(), a);
    assert_eq!(Object::default() + a.clone(), a);
    assert_eq!(a.clone() + a.clone(), a);
}

#[test]
fn constructors_sort_and_drop_order() {
    // Of several entries for one key the last stands.
    let o: Object<i64> = Object::from(vec![
        ("b".to_string(), 1),
        ("a".to_string(), 2),
        ("b".to_string(), 3),
    ]);
    assert_eq!(o.keys(), vec!["a", "b"]);
    assert_eq!(o.get("b"), Some(&3));
    assert!(o.1.is_none());
    let pairs = vec![("a".to_string(), 2), ("b".to_string(), 3)];
    assert_eq!(Object::from_iter(pairs.clone().into_iter()), o);
    assert_eq!(PublicObject::from_iter(pairs.clone().into_iter()), PublicObject::from(pairs));
    let from_map: Object<i64> = Object::from(o.0.clone());
    assert_eq!(from_map, o);
    let from_vec_map: Object<i64> = Object::from(o.0.0.clone());
    assert_eq!(from_vec_map, o);
    assert_eq!(Object::from(Some(o.clone())), o);
    assert_eq!(Object::from(None::<Object<i64>>), Object::default());
    let strings = VecMap::from_sorted_vec_unchecked(vec![("k".to_string(), "v".to_string())]);
    let of_strings: Object<Value> = Object::from(strings);
    assert_eq!(of_strings.get("k"), Some(&Value::Strand("v".to_string())));
    let sorted = VecMap::from_sorted_vec_unchecked(vec![("a".to_string(), 1), ("b".to_string(), 2)]);
    assert_eq!(sorted.get("b"), Some(&2));
    assert_eq!(sorted.position("b"), Some(1));
    assert_eq!(sorted.position("c"), None);
}

#[test]
fn keys_sort_by_their_bytes() {
    let o: Object<i64> = Object::from(vec![
        ("ä".to_string(), 1),
        ("z".to_string(), 2),
        ("Z".to_string(), 3),
        ("".to_string(), 4),
        ("zz".to_string(), 5),
        ("\u{10348}".to_string(), 6),
        ("\u{ffff}".to_string(), 7),
    ]);
    let shown: Vec<&str> = keys_shown(&o);
    let mut expected = vec!["ä", "z", "Z", "", "zz", "\u{10348}", "\u{ffff}"];
    expected.sort();
    assert_eq!(shown, expected);
}

#[test]
fn record_id_is_found_under_id() {
    let rid = RecordId { table: "product".to_string(), key: "laptop".to_string() };
    let mut o: Object<Value> = Object::default();
    assert_eq!(o.rid(), None);
    o.insert("id", Value::RecordId(rid.clone()));
    assert_eq!(o.rid(), Some(rid));
    o.insert("id", Value::Strand("laptop".to_string()));
    assert_eq!(o.rid(), None);
}

#[test]
fn literal_fields_are_sorted() {
    let mut o: Object<i64> = Object::default();
    o.insert("b", 2);
    o.insert("a", 1);
    o.set_written_order(vec!["b", "a"].into_iter());
    let fields = o.into_literal::<Value>();
    assert_eq!(fields.len(), 2);
    assert_eq!((fields[0].key.as_str(), &fields[0].value), ("a", &Value::Number(1)));
    assert_eq!((fields[1].key.as_str(), &fields[1].value), ("b", &Value::Number(2)));
}

#[test]
fn public_object_keeps_display_order() {
    let mut o: Object<i64> = Object::default();
    for (k, v) in [("a", 1), ("b", 2), ("c", 3)] {
        o.insert(k, v);
    }
    o.set_written_order(vec!["c", "a", "b"].into_iter());
    let public: PublicObject<i32> = PublicObject::try_from(o.clone()).unwrap();
    let shown: Vec<(&str, i32)> =
        public.iter_display().into_iter().map(|(k, v)| (k.as_str(), *v)).collect();
    assert_eq!(shown, vec![("c", 3), ("a", 1), ("b", 2)]);
    let owned: Vec<(String, i32)> = public.clone().into_iter_display();
    assert_eq!(owned, vec![
        ("c".to_string(), 3),
        ("a".to_string(), 1),
        ("b".to_string(), 2)
    ]);
    // Back again, the order is gone.
    let back: Object<i64> = Object::from(public);
    assert_eq!(back, o);
    assert!(back.1.is_none());
    // The first value that does not convert ends it.
    o.insert("b", i64::MAX);
    assert!(PublicObject::<i32>::try_from(o).is_err());
}

#[test]
fn public_object_fields_and_order() {
    let mut o: PublicObject<i64> = PublicObject::new();
    assert!(o.is_empty());
    assert_eq!(o.insert("b", 2), None);
    assert_eq!(o.insert("a", 1), None);
    assert_eq!(o.insert("a", 7), Some(1));
    let plain = o.clone();
    // Without an order both ways of looking are sorted.
    assert_eq!(plain.clone().into_iter_display(), vec![
        ("a".to_string(), 7),
        ("b".to_string(), 2)
    ]);
    // Positions past the end are passed over; an entry given away is not given twice.
    o.set_display_order(Some(vec![1, 9, 1, 0]));
    assert_eq!(o, plain);
    assert_eq!(o.cmp(&plain), std::cmp::Ordering::Equal);
    let mut ho = DefaultHasher::new();
    let mut hp = DefaultHasher::new();
    o.hash(&mut ho);
    plain.hash(&mut hp);
    assert_eq!(ho.finish(), hp.finish());
    let shown: Vec<&str> = o.iter_display().into_iter().map(|(k, _)| k.as_str()).collect();
    assert_eq!(shown, vec!["b", "b", "a"]);
    assert_eq!(o.clone().into_iter_display(), vec![
        ("b".to_string(), 2),
        ("a".to_string(), 7)
    ]);
    // A new entry is shown last; one that is there keeps its place.
    o.set_display_order(Some(vec![1, 0]));
    let mut more = o.clone();
    assert_eq!(more.insert("aa", 5), None);
    assert_eq!(more.insert("b", 6), Some(2));
    assert_eq!(more.into_iter_display(), vec![
        ("b".to_string(), 6),
        ("a".to_string(), 7),
        ("aa".to_string(), 5)
    ]);
    o.set_display_order(None);
    assert_eq!(o.iter_display().len(), 2);
    let from: PublicObject<i64> = PublicObject::from(vec![("b".to_string(), 2), ("a".to_string(), 7)]);
    assert_eq!(from, o);
    assert_eq!(o.into_inner().len(), 2);
    assert!(PublicObject::<i64>::default().into_iter().next().is_none());
}

fn layout(pretty: bool) -> ObjectLayout {
    if pretty {
        ObjectLayout {
            pretty,
            indent: "\t".to_string(),
            inner_indent: "\t\t".to_string(),
            separator: ",\n\t\t".to_string(),
        }
    } else {
        ObjectLayout {
            pretty,
            indent: String::new(),
            inner_indent: String::new(),
            separator: ", ".to_string(),
        }
    }
}

#[test]
fn objects_are_written_as_query_text() {
    let mut o: Object<i64> = Object::default();
    let key = |k: &String| format!("`{k}`");
    let value = |v: &i64| format!("<{v}>");
    let mut f = "x=".to_string();
    o.fmt_sql(&mut f, &layout(false), key, value);
    assert_eq!(f, "x={  }");
    o.insert("a", 1);
    o.insert("b", 2);
    o.set_written_order(vec!["b", "a"].into_iter());
    let mut f = "x=".to_string();
    o.fmt_sql(&mut f, &layout(false), key, value);
    assert_eq!(f, "x={ `b`: <2>, `a`: <1> }");
    let mut f = String::new();
    o.fmt_sql(&mut f, &layout(true), key, value);
    assert_eq!(f, "{\n\t\t`b`: <2>,\n\t\t`a`: <1>\n\t}");
}

#[test]
fn public_objects_are_written_as_query_text() {
    let mut o: PublicObject<i64> = PublicObject::new();
    let entries = |entries: Vec<(&String, &i64)>| {
        let texts: Vec<String> = entries.iter().map(|(k, v)| format!("{k}: {v}")).collect();
        texts.join(", ")
    };
    let mut f = String::new();
    o.fmt_sql(&mut f, false, entries);
    assert_eq!(f, "{  }");
    o.insert("a", 1);
    o.insert("b", 2);
    o.set_display_order(Some(vec![1, 0]));
    let mut f = "y=".to_string();
    o.fmt_sql(&mut f, false, entries);
    assert_eq!(f, "y={ b: 2, a: 1 }");
    let mut f = String::new();
    o.fmt_sql(&mut f, true, entries);
    assert_eq!(f, "{b: 2, a: 1}");
}

/// A value of which only some are strings.
#[derive(Clone, Debug)]
enum Field {
    Text(&'static str),
    Number,
}

impl TryFrom<Field> for String {
    type Error = &'static str;

    fn try_from(v: Field) -> Result<String, &'static str> {
        match v {
            Field::Text(t) => Ok(t.to_string()),
            Field::Number => Err("not a string"),
        }
    }
}

fn fields(pairs: &[(&str, Field)]) -> Object<Field> {
    let mut o = Object::default();
    for (k, v) in pairs {
        o.insert(k, v.clone());
    }
    o
}

#[test]
fn string_maps_take_strings_only() {
    let o = fields(&[("b", Field::Text("2")), ("a", Field::Text("1"))]);
    let map: VecMap<String> = VecMap::try_from(o).unwrap();
    assert_eq!(map.into_entries(), vec![
        ("a".to_string(), "1".to_string()),
        ("b".to_string(), "2".to_string())
    ]);
    let bad = fields(&[("b", Field::Number), ("a", Field::Text("1"))]);
    assert_eq!(VecMap::<String>::try_from(bad).unwrap_err(), "not a string");
}

#[test]
fn header_maps_take_lower_case_names() {
    let o = fields(&[
        ("Content-Type", Field::Text("text/plain")),
        ("X-Tab", Field::Text("a\tb")),
        ("x-utf8", Field::Text("é")),
    ]);
    let map = o.try_into_headers().ok().expect("headers");
    assert_eq!(map.len(), 3);
    assert_eq!(map.get("content-type").unwrap(), "text/plain");
    assert_eq!(map.get("x-tab").unwrap().as_bytes(), b"a\tb");
    assert_eq!(map.get("x-utf8").unwrap().as_bytes(), "é".as_bytes());
    // Keys that differ in case are one name; the later of them stands.
    let twice = fields(&[("accept", Field::Text("lower")), ("Accept", Field::Text("upper"))]);
    let map = twice.try_into_headers().ok().expect("headers");
    assert_eq!(map.len(), 1);
    assert_eq!(map.get("accept").unwrap(), "lower");
    assert_eq!(fields(&[]).try_into_headers().ok().expect("headers").len(), 0);
}

#[test]
fn header_maps_reject_what_is_no_header() {
    for name in ["", "a b", "a:b", "naïve", "x\n"] {
        let o = fields(&[(name, Field::Text("v"))]);
        assert!(matches!(o.try_into_headers(), Err(HeaderError::InvalidName)), "{name:?}");
    }
    // The name is looked at before the value.
    let both = fields(&[("a b", Field::Number)]);
    assert!(matches!(both.try_into_headers(), Err(HeaderError::InvalidName)));
    let number = fields(&[("a", Field::Number), ("b c", Field::Text("v"))]);
    assert!(matches!(
        number.try_into_headers(),
        Err(HeaderError::NotString("not a string"))
    ));
    for value in ["a\nb", "\u{7f}", "\0"] {
        let o = fields(&[("a", Field::Text(value))]);
        assert!(matches!(o.try_into_headers(), Err(HeaderError::InvalidValue)), "{value:?}");
    }
    // Every allowed punctuation mark, and a name of the longest length.
    let marks = fields(&[("!#$%&'*+-.^_`|~", Field::Text("v"))]);
    assert!(marks.try_into_headers().is_ok());
    let longest = "a".repeat(65535);
    assert!(fields(&[(&longest, Field::Text("v"))]).try_into_headers().is_ok());
    let too_long = "a".repeat(65536);
    assert!(matches!(
        fields(&[(&too_long, Field::Text("v"))]).try_into_headers(),
        Err(HeaderError::InvalidName)
    ));
}

#[test]
fn header_maps_can_be_full() {
    let entries: Vec<(String, Field)> =
        (0..6554).map(|i| (format!("h{i}"), Field::Text("v"))).collect();
    let map = Object::from(entries).try_into_headers().ok().expect("headers");
    assert_eq!(map.len(), 6554);
    let entries: Vec<(String, Field)> =
        (0..30000).map(|i| (format!("h{i}"), Field::Text("v"))).collect();
    assert!(matches!(
        Object::from(entries).try_into_headers(),
        Err(HeaderError::TooMany)
    ));
}
