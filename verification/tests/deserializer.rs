use nixdrv::de::{Deserializer, Elements};
use nixdrv::Atom;

#[test]
fn cursor_reads_by_shape() {
    let s = Atom::String(b"x".to_vec());
    let d = Deserializer::new(&s);
    assert_eq!(d.char_byte(), Some(b'x'));
    assert_eq!(d.text(), Some("x"));
    assert_eq!(d.bytes(), Some(&b"x"[..]));
    assert!(d.seq_elements().is_none());
    assert!(d.identifier().is_none());

    let long = Atom::String(b"xy".to_vec());
    assert_eq!(Deserializer::new(&long).char_byte(), None);

    let id = Atom::Ident("Derive".to_string());
    assert_eq!(Deserializer::new(&id).identifier(), Some("Derive"));
    assert!(Deserializer::new(&id).text().is_none());

    let t = Atom::Tuple(vec![Atom::Ident("a".to_string()), Atom::Ident("b".to_string())]);
    let dt = Deserializer::new(&t);
    assert_eq!(dt.tuple_elements(2).map(|xs| xs.len()), Some(2));
    assert!(dt.tuple_elements(3).is_none());
    assert_eq!(dt.struct_elements(2).map(|xs| xs.len()), Some(2));
    assert!(dt.seq_elements().is_none());

    let l = Atom::List(vec![Atom::Ident("a".to_string())]);
    assert_eq!(Deserializer::new(&l).seq_elements().map(|xs| xs.len()), Some(1));
    assert!(Deserializer::new(&l).struct_elements(1).is_none());

    let app = Atom::Apply(Box::new(id.clone()), Box::new(t.clone()));
    let (k, v) = Deserializer::new(&app).enum_parts().unwrap();
    assert_eq!(k.identifier(), Some("Derive"));
    assert!(v.tuple_elements(2).is_some());
    assert!(Deserializer::new(&t).enum_parts().is_none());
}

#[test]
fn invalid_utf8_is_not_text() {
    let s = Atom::String(vec![0xc3]);
    assert!(Deserializer::new(&s).text().is_none());
    let ok = Atom::String(vec![0xc3, 0xa9]);
    assert_eq!(Deserializer::new(&ok).text(), Some("\u{e9}"));
}

#[test]
fn elements_are_read_in_order() {
    let xs = vec![Atom::Ident("a".to_string()), Atom::Ident("b".to_string())];
    let mut e = Elements::new(&xs);
    assert_eq!(e.size_hint(), 2);
    assert!(matches!(e.next_element(), Some(Atom::Ident(s)) if s == "a"));
    assert_eq!(e.size_hint(), 1);
    assert!(matches!(e.next_element(), Some(Atom::Ident(s)) if s == "b"));
    assert_eq!(e.size_hint(), 0);
    assert!(e.next_element().is_none());
    assert_eq!(e.size_hint(), 0);
}
