use nixdrv::de::Error as DeError;
use nixdrv::{parse_drv_atom_bytes, parse_drv_bytes, Atom, ErrorKind};
use nixdrv::{Derivation, Failure};
use nixdrv::derivation::derivation_of;
use nixdrv::parser::drv_atom;
use nixdrv::try_parse_drv_bytes;

const HELLO: &str = "Derive(\
[(\"out\",\"/nix/store/abc-hello\",\"\",\"\")],\
[(\"/nix/store/def-bash.drv\",[\"out\"]),(\"/nix/store/xyz-gcc.drv\",[\"lib\",\"out\"])],\
[\"/nix/store/ghi-builder.sh\"],\
\"x86_64-linux\",\
\"/nix/store/jkl-bash/bin/bash\",\
[\"-e\",\"/nix/store/ghi-builder.sh\"],\
[(\"name\",\"hello\"),(\"out\",\"/nix/store/abc-hello\")]\
)";

#[test]
fn parses_a_whole_derivation() {
    let d = parse_drv_bytes(HELLO.as_bytes()).unwrap();
    assert_eq!(d.outputs.len(), 1);
    assert_eq!(d.outputs[0].name, "out");
    assert_eq!(d.outputs[0].path, "/nix/store/abc-hello");
    assert_eq!(d.outputs[0].hash_algo, "");
    assert_eq!(d.outputs[0].hash, "");
    assert_eq!(d.input_drvs.len(), 2);
    assert_eq!(d.input_drvs[0].path, "/nix/store/def-bash.drv");
    assert_eq!(d.input_drvs[0].outputs, vec!["out".to_string()]);
    assert_eq!(d.input_drvs[1].outputs, vec!["lib".to_string(), "out".to_string()]);
    assert_eq!(d.input_srcs, vec!["/nix/store/ghi-builder.sh".to_string()]);
    assert_eq!(d.platform, "x86_64-linux");
    assert_eq!(d.builder, "/nix/store/jkl-bash/bin/bash");
    assert_eq!(d.args, vec!["-e".to_string(), "/nix/store/ghi-builder.sh".to_string()]);
    assert_eq!(
        d.env,
        vec![
            ("name".to_string(), "hello".to_string()),
            ("out".to_string(), "/nix/store/abc-hello".to_string()),
        ]
    );
}

#[test]
fn atoms_of_a_derivation() {
    let a = parse_drv_atom_bytes(HELLO.as_bytes()).unwrap();
    match a {
        Atom::Apply(k, v) => {
            assert!(matches!(&*k, Atom::Ident(id) if id == "Derive"));
            match &*v {
                Atom::Tuple(fields) => {
                    assert_eq!(fields.len(), 7);
                    assert!(matches!(&fields[3], Atom::String(b) if b == b"x86_64-linux"));
                    assert!(matches!(&fields[0], Atom::List(xs) if xs.len() == 1));
                }
                other => panic!("not a tuple: {:?}", other),
            }
        }
        other => panic!("not an application: {:?}", other),
    }
}

#[test]
fn trailing_bytes_are_refused_at_their_offset() {
    let mut data = HELLO.as_bytes().to_vec();
    data.push(b'\n');
    let e = parse_drv_atom_bytes(&data).unwrap_err();
    assert_eq!(e.offset, HELLO.len());
    assert_eq!(e.code, ErrorKind::Eof);
    match parse_drv_bytes(&data) {
        Err(DeError::Parse(e)) => {
            assert_eq!(e.offset, HELLO.len());
            assert_eq!(e.code, ErrorKind::Eof);
        }
        other => panic!("unexpected: {:?}", other),
    }
}

#[test]
fn empty_list_is_refused() {
    let data = b"Derive([],\"x\")";
    let e = parse_drv_atom_bytes(data).unwrap_err();
    assert_eq!(e.offset, 8);
    assert_eq!(e.code, ErrorKind::TakeWhileMN);
}

#[test]
fn only_escaped_quotes_are_accepted() {
    let data = b"A(\"a\\nb\")";
    let e = parse_drv_atom_bytes(data).unwrap_err();
    assert_eq!(e.offset, 5);
    assert_eq!(e.code, ErrorKind::Tag);
}

#[test]
fn escaped_quote_keeps_its_backslash() {
    let data = b"A(\"a\\\"b\")";
    let a = parse_drv_atom_bytes(data).unwrap();
    match a {
        Atom::Apply(_, v) => match &*v {
            Atom::Tuple(xs) => assert!(matches!(&xs[0], Atom::String(b) if b == b"a\\\"b")),
            other => panic!("{:?}", other),
        },
        other => panic!("{:?}", other),
    }
}

#[test]
fn missing_close_is_a_tag_error() {
    let data = b"A(\"x\"]";
    let e = parse_drv_atom_bytes(data).unwrap_err();
    assert_eq!(e.offset, 5);
    assert_eq!(e.code, ErrorKind::Tag);
}

#[test]
fn truncated_input_is_undecided() {
    let data = &HELLO.as_bytes()[..HELLO.len() - 1];
    assert!(matches!(drv_atom(data), Err(Failure::Incomplete)));
    assert!(try_parse_drv_bytes(data).is_none());
    assert!(matches!(drv_atom(b"Derive"), Err(Failure::Incomplete)));
    assert!(matches!(drv_atom(b""), Err(Failure::Incomplete)));
}

#[test]
fn wrong_name_is_not_a_derivation() {
    let data = HELLO.replacen("Derive", "Derivx", 1);
    assert!(parse_drv_atom_bytes(data.as_bytes()).is_ok());
    assert!(try_parse_drv_bytes(data.as_bytes()).is_none());
}

#[test]
fn wrong_field_count_is_not_a_derivation() {
    let data = b"Derive([(\"out\",\"p\",\"\",\"\")],\"x\")";
    assert!(parse_drv_atom_bytes(data).is_ok());
    assert!(try_parse_drv_bytes(data).is_none());
}

#[test]
fn invalid_utf8_text_is_not_a_derivation() {
    let data = HELLO.replacen("x86_64-linux", "x86_64-\u{1}linux", 1);
    let mut bytes = data.into_bytes();
    let pos = bytes.iter().position(|&b| b == 1).unwrap();
    bytes[pos] = 0xff;
    assert!(parse_drv_atom_bytes(&bytes).is_ok());
    assert!(try_parse_drv_bytes(&bytes).is_none());
}

#[test]
fn utf8_text_is_decoded() {
    let data = HELLO.replacen("hello\")", "h\u{e9}llo\")", 1);
    let d = parse_drv_bytes(data.as_bytes()).unwrap();
    assert_eq!(d.env[0].1, "h\u{e9}llo");
    assert_eq!(d.env[0].1.chars().count(), 5);
}

#[test]
fn derivation_of_an_atom() {
    let a = parse_drv_atom_bytes(HELLO.as_bytes()).unwrap();
    match derivation_of(&a) {
        Some(Derivation::Derive(d)) => assert_eq!(d.platform, "x86_64-linux"),
        None => panic!("expected a derivation"),
    }
}

#[test]
fn io_errors_convert() {
    let e: DeError = std::io::Error::new(std::io::ErrorKind::Other, "x").into();
    assert!(matches!(e, DeError::Io(_)));
    let p: DeError = nixdrv::Error { offset: 3, code: ErrorKind::Tag }.into();
    assert!(matches!(p, DeError::Parse(e) if e.offset == 3));
}
