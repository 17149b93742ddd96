use tl_codec::schema::{Constructor, Param, Schema};
use tl_codec::{Ast, Error, Reader, ResolvedType, TLType, Value, Writer};

const WALL_PAPER: i32 = -860866985;
const PHOTO_SIZE_EMPTY: i32 = 236446268;
const PHOTO_CACHED_SIZE: i32 = -374917894;
const FILE_LOCATION: i32 = 1406570614;
const UPLOAD_FILE: i32 = 157948117;
const FILE_GIF: i32 = -891180321;

fn param(name: &str, kind: &str) -> Param {
    Param { name: name.to_string(), kind: kind.to_string() }
}

fn decl(id: i32, predicate: &str, params: Vec<Param>, kind: &str) -> Constructor {
    Constructor { id, predicate: predicate.to_string(), params, kind: kind.to_string() }
}

fn telegram() -> Ast {
    let constructors = vec![
        decl(FILE_GIF, "storage.fileGif", vec![], "storage.FileType"),
        decl(
            UPLOAD_FILE,
            "upload.file",
            vec![param("type", "storage.FileType"), param("mtime", "int"), param("bytes", "bytes")],
            "upload.File",
        ),
        decl(
            FILE_LOCATION,
            "fileLocation",
            vec![
                param("dc_id", "int"),
                param("volume_id", "long"),
                param("local_id", "int"),
                param("secret", "long"),
            ],
            "FileLocation",
        ),
        decl(PHOTO_SIZE_EMPTY, "photoSizeEmpty", vec![param("type", "string")], "PhotoSize"),
        decl(
            PHOTO_CACHED_SIZE,
            "photoCachedSize",
            vec![
                param("type", "string"),
                param("location", "FileLocation"),
                param("w", "int"),
                param("h", "int"),
                param("bytes", "bytes"),
            ],
            "PhotoSize",
        ),
        decl(
            WALL_PAPER,
            "wallPaper",
            vec![
                param("id", "int"),
                param("title", "string"),
                param("sizes", "Vector<PhotoSize>"),
                param("color", "int"),
            ],
            "WallPaper",
        ),
        decl(1, "rates", vec![param("values", "Vector<double>")], "Rates"),
    ];
    Ast::new(&Schema { constructors, methods: Vec::new() }).unwrap()
}

fn reference(namespace: &str, name: &str) -> ResolvedType {
    ResolvedType::Reference { namespace: namespace.to_string(), name: name.to_string() }
}

#[test]
fn test_upload_file() {
    let ast = telegram();
    let f = Value::Compound {
        id: UPLOAD_FILE,
        fields: vec![
            Value::Compound { id: FILE_GIF, fields: vec![] },
            Value::Int(-100),
            Value::Bytes(vec![1, 2, 3, 4, 5]),
        ],
    };
    let mut cur = Writer::new();
    f.serialize(&mut cur).unwrap();
    let mut input = Reader::new(cur.as_slice());
    let ff = Value::deserialize(&ast, &reference("upload", "File"), &mut input).unwrap();
    assert_eq!(f, ff);
}

#[test]
fn wallpaper_as_a_value() {
    let ast = telegram();
    let w = Value::Compound {
        id: WALL_PAPER,
        fields: vec![
            Value::Int(-133),
            Value::Text("title".into()),
            Value::Vector(vec![
                Value::Compound { id: PHOTO_SIZE_EMPTY, fields: vec![Value::Text("empty".into())] },
                Value::Compound {
                    id: PHOTO_CACHED_SIZE,
                    fields: vec![
                        Value::Text("cached".into()),
                        Value::Compound {
                            id: FILE_LOCATION,
                            fields: vec![
                                Value::Int(2),
                                Value::Long(-1),
                                Value::Int(1),
                                Value::Long(10000000000),
                            ],
                        },
                        Value::Int(10),
                        Value::Int(100),
                        Value::Bytes(vec![1, 2, 3, 4]),
                    ],
                },
            ]),
            Value::Int(10),
        ],
    };
    let mut cur = Writer::new();
    w.serialize(&mut cur).unwrap();
    let mut input = Reader::new(cur.as_slice());
    let ww = Value::deserialize(&ast, &reference("", "WallPaper"), &mut input).unwrap();
    assert_eq!(w, ww);
    assert_eq!(input.position(), cur.len());
}

#[test]
fn a_constructor_without_fields_is_its_discriminator() {
    let ast = telegram();
    let gif = Value::Compound { id: FILE_GIF, fields: vec![] };
    let mut out = Writer::new();
    gif.serialize(&mut out).unwrap();
    assert_eq!(out.as_slice(), vec![0xdfu8, 0xaa, 0xe1, 0xca]);
    let mut input = Reader::new(out.as_slice());
    assert_eq!(Value::deserialize(&ast, &reference("storage", "FileType"), &mut input), Ok(gif));
    let empty: [u8; 0] = [];
    let mut input = Reader::new(&empty);
    assert_eq!(
        Value::deserialize(&ast, &reference("storage", "FileType"), &mut input),
        Err(Error::Deserialize("i32".to_string()))
    );
}

#[test]
fn a_compound_is_discriminator_and_fields_in_order() {
    let f = Value::Compound {
        id: UPLOAD_FILE,
        fields: vec![
            Value::Compound { id: FILE_GIF, fields: vec![] },
            Value::Int(-100),
            Value::Bytes(vec![1, 2, 3, 4, 5]),
        ],
    };
    let mut out = Writer::new();
    f.serialize(&mut out).unwrap();
    assert_eq!(
        out.as_slice(),
        vec![
            0xd5u8, 0x18, 0x6a, 0x09, 0xdf, 0xaa, 0xe1, 0xca, 0x9c, 0xff, 0xff, 0xff, 5, 0, 0, 0, 1,
            2, 3, 4, 5
        ]
    );
}

#[test]
fn an_unknown_discriminator_names_the_type() {
    let ast = telegram();
    let data = [1u8, 2, 3, 4, 5, 6, 7, 8];
    let mut input = Reader::new(&data);
    assert_eq!(
        Value::deserialize(&ast, &reference("upload", "File"), &mut input),
        Err(Error::Deserialize("File".to_string()))
    );
    assert_eq!(input.position(), 4);
    let mut out = Writer::new();
    Value::Compound { id: FILE_GIF, fields: vec![] }.serialize(&mut out).unwrap();
    let mut input = Reader::new(out.as_slice());
    assert_eq!(
        Value::deserialize(&ast, &reference("", "WallPaper"), &mut input),
        Err(Error::Deserialize("WallPaper".to_string()))
    );
    assert_eq!(input.position(), 4);
}

#[test]
fn an_unknown_type_names_itself() {
    let ast = telegram();
    let data = [1u8, 2, 3, 4];
    let mut input = Reader::new(&data);
    assert_eq!(
        Value::deserialize(&ast, &reference("upload", "Nothing"), &mut input),
        Err(Error::Deserialize("Nothing".to_string()))
    );
    assert_eq!(input.position(), 0);
}

#[test]
fn a_field_that_fails_ends_the_decoding() {
    let ast = telegram();
    let mut out = Writer::new();
    Value::Compound {
        id: UPLOAD_FILE,
        fields: vec![Value::Compound { id: UPLOAD_FILE, fields: vec![] }, Value::Int(1)],
    }
    .serialize(&mut out)
    .unwrap();
    let mut input = Reader::new(out.as_slice());
    assert_eq!(
        Value::deserialize(&ast, &reference("upload", "File"), &mut input),
        Err(Error::Deserialize("FileType".to_string()))
    );
    assert_eq!(input.position(), 8);
    let mut out = Writer::new();
    Value::Compound {
        id: UPLOAD_FILE,
        fields: vec![Value::Compound { id: FILE_GIF, fields: vec![] }, Value::Int(1)],
    }
    .serialize(&mut out)
    .unwrap();
    let mut input = Reader::new(out.as_slice());
    assert_eq!(
        Value::deserialize(&ast, &reference("upload", "File"), &mut input),
        Err(Error::Deserialize("i32".to_string()))
    );
    assert_eq!(input.position(), 12);
}

#[test]
fn primitive_values_round_trip() {
    let ast = telegram();
    let cases = vec![
        ("int", Value::Int(-49302394)),
        ("long", Value::Long(-493023949029)),
        ("double", Value::Double((-493023.949029f64).to_bits())),
        ("bytes", Value::Bytes(vec![1, 2, 3, 4, 5])),
        ("string", Value::Text("puppa".into())),
        ("Vector<Vector<int>>", Value::Vector(vec![Value::Vector(vec![Value::Int(3)])])),
        ("Vector<string>", Value::Vector(vec![])),
    ];
    for (descriptor, v) in cases {
        let kind = tl_codec::types::resolve(descriptor).unwrap();
        let mut out = Writer::new();
        v.serialize(&mut out).unwrap();
        let mut input = Reader::new(out.as_slice());
        assert_eq!(Value::deserialize(&ast, &kind, &mut input), Ok(v));
        assert_eq!(input.available(), 0);
    }
}

#[test]
fn a_value_has_the_bytes_of_the_typed_codec() {
    let mut a = Writer::new();
    Value::Vector(vec![Value::Text("a".into()), Value::Text("bc".into())])
        .serialize(&mut a)
        .unwrap();
    let mut b = Writer::new();
    vec![String::from("a"), String::from("bc")].serialize(&mut b).unwrap();
    assert_eq!(a.as_slice(), b.as_slice());
    let mut a = Writer::new();
    Value::Double(7).serialize(&mut a).unwrap();
    assert_eq!(a.as_slice(), vec![7u8, 0, 0, 0, 0, 0, 0, 0]);
}

#[test]
fn a_sequence_of_values_needs_its_magic() {
    let ast = telegram();
    let kind = tl_codec::types::resolve("Vector<int>").unwrap();
    let data = [0u8, 0, 0, 0, 1, 0, 0, 0, 5, 0, 0, 0];
    let mut input = Reader::new(&data);
    assert_eq!(
        Value::deserialize(&ast, &kind, &mut input),
        Err(Error::Deserialize("vector".to_string()))
    );
    assert_eq!(input.position(), 4);
    let data = [0x15u8, 0xc4, 0xb5, 0x1c, 0xfe, 0xff, 0xff, 0xff];
    let mut input = Reader::new(&data);
    assert_eq!(
        Value::deserialize(&ast, &kind, &mut input),
        Err(Error::Deserialize("vector".to_string()))
    );
    assert_eq!(input.position(), 8);
    let data = [0x15u8, 0xc4, 0xb5, 0x1c, 2, 0, 0, 0, 5, 0, 0, 0];
    let mut input = Reader::new(&data);
    assert_eq!(
        Value::deserialize(&ast, &kind, &mut input),
        Err(Error::Deserialize("i32".to_string()))
    );
    assert_eq!(input.position(), 12);
}

#[test]
fn a_value_that_does_not_fit_names_the_part_that_fails() {
    let f = Value::Compound {
        id: UPLOAD_FILE,
        fields: vec![
            Value::Compound { id: FILE_GIF, fields: vec![] },
            Value::Long(-100),
            Value::Vector(vec![Value::Text("ab".into()), Value::Double(1)]),
        ],
    };
    let mut all = Writer::new();
    f.serialize(&mut all).unwrap();
    let whole = all.into_bytes();
    assert_eq!(whole.len(), 38);
    let kinds = [
        (0usize, "i32"),
        (3, "i32"),
        (4, "i32"),
        (7, "i32"),
        (8, "i64"),
        (15, "i64"),
        (16, "i32"),
        (20, "i32"),
        (24, "string"),
        (29, "string"),
        (30, "f64"),
        (37, "f64"),
    ];
    for (limit, kind) in kinds {
        let mut out = Writer::with_limit(limit);
        assert_eq!(f.serialize(&mut out), Err(Error::Serialize(kind.to_string())));
        assert_eq!(out.as_slice(), &whole[..limit]);
    }
    let mut out = Writer::with_limit(38);
    assert_eq!(f.serialize(&mut out), Ok(()));
    assert_eq!(out.into_bytes(), whole);
}

#[test]
fn a_value_that_ends_early_says_how_many_bytes_it_lacks() {
    let ast = telegram();
    let f = Value::Compound {
        id: UPLOAD_FILE,
        fields: vec![
            Value::Compound { id: FILE_GIF, fields: vec![] },
            Value::Int(-100),
            Value::Bytes(vec![1, 2, 3, 4, 5]),
        ],
    };
    let mut out = Writer::new();
    f.serialize(&mut out).unwrap();
    let whole = out.into_bytes();
    let lacking = [(0usize, 4usize), (3, 1), (4, 4), (8, 4), (11, 1), (12, 4), (16, 5), (20, 1)];
    for (have, lacks) in lacking {
        let mut input = Reader::new(&whole[..have]);
        assert!(Value::deserialize(&ast, &reference("upload", "File"), &mut input).is_err());
        assert_eq!(input.missing(), lacks);
    }
    let mut input = Reader::new(&whole);
    assert_eq!(Value::deserialize(&ast, &reference("upload", "File"), &mut input), Ok(f));
    assert_eq!(input.missing(), 0);
    let mut input = Reader::new(&whole[..3]);
    assert!(input.take(4).is_none());
    assert!(Value::deserialize(&ast, &reference("upload", "Nothing"), &mut input).is_err());
    assert_eq!(input.missing(), 0);
    let mut input = Reader::new(&whole[4..]);
    assert!(Value::deserialize(&ast, &reference("upload", "File"), &mut input).is_err());
    assert_eq!(input.missing(), 0);
}
