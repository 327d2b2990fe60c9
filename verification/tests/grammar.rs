use nixdrv::parser::{
    atom1, atom_complete, atom_streaming, atom_tag, escape, is_ident, is_ident_start, list_inner,
    parse_ident, parse_list, parse_string, parse_tuple, string_inner, tag,
};
use nixdrv::{Atom, ErrorKind, Failure};

fn err(offset: usize, code: ErrorKind) -> Failure {
    Failure::Error(nixdrv::Error { offset, code })
}

#[test]
fn letters_are_identifier_bytes() {
    assert!(is_ident(b'a'));
    assert!(is_ident(b'Z'));
    assert!(!is_ident(b'0'));
    assert!(!is_ident(b'_'));
}

#[test]
fn single_bytes() {
    assert_eq!(tag(b"(x", 0, b'(').unwrap().0, 1);
    assert_eq!(tag(b"(x", 1, b'(').unwrap_err(), err(1, ErrorKind::Tag));
    assert_eq!(tag(b"(x", 2, b'(').unwrap_err(), Failure::Incomplete);
    assert_eq!(atom_tag(b"[", 0).unwrap(), (1, b'['));
    assert_eq!(atom_tag(b"q", 0).unwrap(), (1, b'q'));
    assert_eq!(atom_tag(b")", 0).unwrap_err(), err(0, ErrorKind::TakeWhileMN));
    assert_eq!(is_ident_start(b"1", 0).unwrap_err(), err(0, ErrorKind::TakeWhileMN));
}

#[test]
fn identifiers() {
    let (j, id) = parse_ident(b"Derive(", 0).unwrap();
    assert_eq!(j, 6);
    assert_eq!(id, "Derive");
    assert_eq!(parse_ident(b"Derive", 0).unwrap_err(), Failure::Incomplete);
    assert_eq!(parse_ident(b"(", 0).unwrap_err(), err(0, ErrorKind::TakeWhile1));
}

#[test]
fn strings() {
    let (j, b) = parse_string(b"\"ab\\\"c\",", 0).unwrap();
    assert_eq!(j, 7);
    assert_eq!(b, b"ab\\\"c".to_vec());
    assert_eq!(parse_string(b"\"\"", 0).unwrap(), (2, Vec::new()));
    assert_eq!(parse_string(b"\"ab", 0).unwrap_err(), Failure::Incomplete);
    assert_eq!(parse_string(b"\"a\\", 0).unwrap_err(), Failure::Incomplete);
    assert_eq!(parse_string(b"\"a\\x\"", 0).unwrap_err(), err(3, ErrorKind::Tag));
    assert_eq!(escape(b"\\\"", 0).unwrap().0, 2);
    assert_eq!(string_inner(b"abc\"", 0).unwrap().0, 3);
}

#[test]
fn sequences() {
    let (j, xs) = list_inner(b"a,\"b\")", 0).unwrap();
    assert_eq!(j, 5);
    assert_eq!(xs.len(), 2);
    let (j, xs) = parse_tuple(b"(a,b)", 0).unwrap();
    assert_eq!((j, xs.len()), (5, 2));
    let (j, xs) = parse_list(b"[a]", 0).unwrap();
    assert_eq!((j, xs.len()), (3, 1));
    assert_eq!(parse_list(b"[a,]", 0).unwrap_err(), err(3, ErrorKind::TakeWhileMN));
    assert_eq!(parse_list(b"[a", 0).unwrap_err(), Failure::Incomplete);
}

#[test]
fn juxtaposed_atoms_nest_to_the_right() {
    let (j, a) = atom_streaming(b"\"x\"(y)[z])", 0).unwrap();
    assert_eq!(j, 9);
    match a {
        Atom::Apply(l, r) => {
            assert!(matches!(*l, Atom::String(_)));
            assert!(matches!(*r, Atom::Apply(ref m, ref n)
                if matches!(**m, Atom::Tuple(_)) && matches!(**n, Atom::List(_))));
        }
        other => panic!("{:?}", other),
    }
    assert_eq!(atom_streaming(b"\"x\"", 0).unwrap_err(), Failure::Incomplete);
}

#[test]
fn one_atom_reads_at_least_one_byte() {
    for data in [&b"\"\")"[..], b"ab,", b"(a)", b"[\"x\"]"] {
        let (j, _) = atom1(data, 0).unwrap();
        assert!(j > 0 && j <= data.len());
    }
}

#[test]
fn decided_outcomes_do_not_change_when_bytes_follow() {
    let s = b"(a,\"b\")";
    let (j1, _) = atom_streaming(b"(a,\"b\")]", 0).unwrap();
    let mut longer = s.to_vec();
    longer.extend_from_slice(b"]]]]");
    let (j2, _) = atom_streaming(&longer, 0).unwrap();
    assert_eq!(j1, j2);
    assert_eq!(atom1(b"(a,]", 0).unwrap_err(), atom1(b"(a,]xyz", 0).unwrap_err());
}

#[test]
fn atoms_up_to_the_end() {
    let (j, a) = atom_complete(b"ab\"c\"", 0).unwrap();
    assert_eq!(j, 5);
    assert!(matches!(a, Atom::Apply(_, _)));
    let (j, a) = atom_complete(b"\"c\"", 0).unwrap();
    assert_eq!(j, 3);
    assert!(matches!(a, Atom::String(_)));
}

#[test]
fn atoms_clone_to_equal_values() {
    let (_, a) = atom1(b"(a,[\"b\"],c\"d\")", 0).unwrap();
    let b = a.clone();
    assert_eq!(format!("{:?}", a), format!("{:?}", b));
}

#[test]
fn parsing_at_an_offset_is_parsing_the_rest() {
    let data = b"xx,(a,\"b\")[c])";
    let (j, a) = atom_streaming(data, 3).unwrap();
    let (k, b) = atom_streaming(&data[3..], 0).unwrap();
    assert_eq!(j, k + 3);
    assert_eq!(format!("{:?}", a), format!("{:?}", b));
    assert_eq!(atom1(b"..[,", 2).unwrap_err(), err(3, ErrorKind::TakeWhileMN));
    assert_eq!(atom1(b"[,", 0).unwrap_err(), err(1, ErrorKind::TakeWhileMN));
}

#[test]
fn a_finished_derivation_refuses_more_bytes() {
    let data = b"A(b)";
    assert!(nixdrv::parser::drv_atom(data).is_ok());
    assert_eq!(
        nixdrv::parser::drv_atom(b"A(b)(c)").unwrap_err(),
        err(4, ErrorKind::Eof)
    );
    assert_eq!(nixdrv::parser::drv_atom(b"A(,)").unwrap_err(), nixdrv::parser::drv_atom(b"A(,)zzz").unwrap_err());
}
