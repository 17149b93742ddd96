use tl_codec::emit::type_str;
use tl_codec::schema::{Constructor, Param, Schema};
use tl_codec::types::resolve;
use tl_codec::Ast;

fn param(name: &str, kind: &str) -> Param {
    Param { name: name.to_string(), kind: kind.to_string() }
}

fn decl(id: i32, predicate: &str, params: Vec<Param>, kind: &str) -> Constructor {
    Constructor { id, predicate: predicate.to_string(), params, kind: kind.to_string() }
}

fn rust_type(descriptor: &str) -> String {
    let mut out = String::new();
    type_str(&mut out, &resolve(descriptor).unwrap(), false);
    out
}

fn nested_type(descriptor: &str) -> String {
    let mut out = String::new();
    type_str(&mut out, &resolve(descriptor).unwrap(), true);
    out
}

#[test]
fn types_are_written_as_rust_types() {
    assert_eq!(rust_type("int"), "i32");
    assert_eq!(rust_type("long"), "i64");
    assert_eq!(rust_type("double"), "Double");
    assert_eq!(rust_type("bytes"), "Vec<u8>");
    assert_eq!(rust_type("string"), "String");
    assert_eq!(rust_type("Vector<int>"), "Vec<i32>");
    assert_eq!(rust_type("Vector<Vector<string>>"), "Vec<Vec<String>>");
    assert_eq!(rust_type("photoSize"), "Box<PhotoSize>");
    assert_eq!(rust_type("storage.fileType"), "Box<storage::FileType>");
    assert_eq!(rust_type("Vector<storage.FileType>"), "Vec<Box<storage::FileType>>");
}

#[test]
fn inside_a_module_types_are_named_from_outside_it() {
    assert_eq!(nested_type("int"), "i32");
    assert_eq!(nested_type("Vector<bytes>"), "Vec<Vec<u8>>");
    assert_eq!(nested_type("photoSize"), "Box<super::PhotoSize>");
    assert_eq!(nested_type("storage.fileType"), "Box<super::storage::FileType>");
    assert_eq!(nested_type("Vector<storage.FileType>"), "Vec<Box<super::storage::FileType>>");
}

#[test]
fn an_empty_schema_has_no_source() {
    let ast = Ast::new(&Schema { constructors: Vec::new(), methods: Vec::new() }).unwrap();
    assert_eq!(ast.compile(), "");
}

#[test]
fn a_type_becomes_an_enum_and_its_codec() {
    let ast = Ast::new(&Schema {
        constructors: vec![
            decl(5, "foo", vec![param("type", "int"), param("items", "Vector<string>")], "Foo"),
            decl(-7, "bar", vec![], "Foo"),
        ],
        methods: Vec::new(),
    })
    .unwrap();
    let expected = "\
#[allow(dead_code)]
#[derive(Clone, Debug, PartialEq)]
pub enum Foo {
    Bar { },
    Foo { kind: i32, items: Vec<String>, },
}
impl TLType for Foo {
    type V = Self;
    fn serialize(&self, out: &mut Writer) -> Result<(), Error> {
        match self {
            Foo::Bar { } => {
                (-7i32).serialize(out)?;
            },
            Foo::Foo { kind, items, } => {
                (5i32).serialize(out)?;
                kind.serialize(out)?;
                items.serialize(out)?;
            },
        }
        Ok(())
    }
    fn deserialize(input: &mut Reader) -> Result<Self, Error> {
        let id = i32::deserialize(input)?;
        match id {
            -7i32 => Ok(Foo::Bar {
            }),
            5i32 => Ok(Foo::Foo {
                kind: TLType::deserialize(input)?,
                items: TLType::deserialize(input)?,
            }),
            _ => Err(Error::Deserialize(String::from(\"Foo\"))),
        }
    }
}
";
    assert_eq!(ast.compile(), expected);
}

#[test]
fn a_named_namespace_becomes_a_module() {
    let ast = Ast::new(&Schema {
        constructors: vec![decl(1, "storage.fileGif", vec![], "storage.FileType")],
        methods: Vec::new(),
    })
    .unwrap();
    let text = ast.compile();
    assert!(text.starts_with("pub mod storage {\nuse super::*;\n#[allow(dead_code)]\n"));
    assert!(text.ends_with("    }\n}\n}\n"));
    assert!(text.contains("pub enum FileType {\n    FileGif { },\n}\n"));
}

#[test]
fn the_field_type_is_kind_wherever_it_is_written() {
    let ast = Ast::new(&Schema {
        constructors: vec![decl(1, "a", vec![param("type", "storage.FileType")], "A")],
        methods: Vec::new(),
    })
    .unwrap();
    let text = ast.compile();
    assert!(text.contains("    A { kind: Box<storage::FileType>, },\n"));
    assert!(text.contains("            A::A { kind, } => {\n"));
    assert!(text.contains("                kind.serialize(out)?;\n"));
    assert!(text.contains("                kind: TLType::deserialize(input)?,\n"));
    assert!(!text.contains("type:"));
    assert!(!text.contains("type,"));
    assert!(!text.contains("type."));
}

#[test]
fn namespaces_types_and_constructors_come_in_the_order_of_their_names() {
    let ast = Ast::new(&Schema {
        constructors: vec![
            decl(-891180321, "storage.fileGif", vec![], "storage.FileType"),
            decl(157948117, "upload.file", vec![param("type", "storage.FileType"), param("mtime", "int"), param("bytes", "bytes")], "upload.File"),
            decl(1406570614, "fileLocation", vec![param("dc_id", "int"), param("volume_id", "long"), param("local_id", "int"), param("secret", "long")], "FileLocation"),
            decl(236446268, "photoSizeEmpty", vec![param("type", "string")], "PhotoSize"),
            decl(-374917894, "photoCachedSize", vec![param("type", "string"), param("location", "FileLocation"), param("w", "int"), param("h", "int"), param("bytes", "bytes")], "PhotoSize"),
            decl(-860866985, "wallPaper", vec![param("id", "int"), param("title", "string"), param("sizes", "Vector<PhotoSize>"), param("color", "int")], "WallPaper"),
            decl(1, "rates", vec![param("values", "Vector<double>")], "Rates"),
        ],
        methods: Vec::new(),
    })
    .unwrap();
    let expected = "\
#[allow(dead_code)]
#[derive(Clone, Debug, PartialEq)]
pub enum FileLocation {
    FileLocation { dc_id: i32, volume_id: i64, local_id: i32, secret: i64, },
}
impl TLType for FileLocation {
    type V = Self;
    fn serialize(&self, out: &mut Writer) -> Result<(), Error> {
        match self {
            FileLocation::FileLocation { dc_id, volume_id, local_id, secret, } => {
                (1406570614i32).serialize(out)?;
                dc_id.serialize(out)?;
                volume_id.serialize(out)?;
                local_id.serialize(out)?;
                secret.serialize(out)?;
            },
        }
        Ok(())
    }
    fn deserialize(input: &mut Reader) -> Result<Self, Error> {
        let id = i32::deserialize(input)?;
        match id {
            1406570614i32 => Ok(FileLocation::FileLocation {
                dc_id: TLType::deserialize(input)?,
                volume_id: TLType::deserialize(input)?,
                local_id: TLType::deserialize(input)?,
                secret: TLType::deserialize(input)?,
            }),
            _ => Err(Error::Deserialize(String::from(\"FileLocation\"))),
        }
    }
}
#[allow(dead_code)]
#[derive(Clone, Debug, PartialEq)]
pub enum PhotoSize {
    PhotoCachedSize { kind: String, location: Box<FileLocation>, w: i32, h: i32, bytes: Vec<u8>, },
    PhotoSizeEmpty { kind: String, },
}
impl TLType for PhotoSize {
    type V = Self;
    fn serialize(&self, out: &mut Writer) -> Result<(), Error> {
        match self {
            PhotoSize::PhotoCachedSize { kind, location, w, h, bytes, } => {
                (-374917894i32).serialize(out)?;
                kind.serialize(out)?;
                location.serialize(out)?;
                w.serialize(out)?;
                h.serialize(out)?;
                bytes.serialize(out)?;
            },
            PhotoSize::PhotoSizeEmpty { kind, } => {
                (236446268i32).serialize(out)?;
                kind.serialize(out)?;
            },
        }
        Ok(())
    }
    fn deserialize(input: &mut Reader) -> Result<Self, Error> {
        let id = i32::deserialize(input)?;
        match id {
            -374917894i32 => Ok(PhotoSize::PhotoCachedSize {
                kind: TLType::deserialize(input)?,
                location: TLType::deserialize(input)?,
                w: TLType::deserialize(input)?,
                h: TLType::deserialize(input)?,
                bytes: TLType::deserialize(input)?,
            }),
            236446268i32 => Ok(PhotoSize::PhotoSizeEmpty {
                kind: TLType::deserialize(input)?,
            }),
            _ => Err(Error::Deserialize(String::from(\"PhotoSize\"))),
        }
    }
}
#[allow(dead_code)]
#[derive(Clone, Debug, PartialEq)]
pub enum Rates {
    Rates { values: Vec<Double>, },
}
impl TLType for Rates {
    type V = Self;
    fn serialize(&self, out: &mut Writer) -> Result<(), Error> {
        match self {
            Rates::Rates { values, } => {
                (1i32).serialize(out)?;
                values.serialize(out)?;
            },
        }
        Ok(())
    }
    fn deserialize(input: &mut Reader) -> Result<Self, Error> {
        let id = i32::deserialize(input)?;
        match id {
            1i32 => Ok(Rates::Rates {
                values: TLType::deserialize(input)?,
            }),
            _ => Err(Error::Deserialize(String::from(\"Rates\"))),
        }
    }
}
#[allow(dead_code)]
#[derive(Clone, Debug, PartialEq)]
pub enum WallPaper {
    WallPaper { id: i32, title: String, sizes: Vec<Box<PhotoSize>>, color: i32, },
}
impl TLType for WallPaper {
    type V = Self;
    fn serialize(&self, out: &mut Writer) -> Result<(), Error> {
        match self {
            WallPaper::WallPaper { id, title, sizes, color, } => {
                (-860866985i32).serialize(out)?;
                id.serialize(out)?;
                title.serialize(out)?;
                sizes.serialize(out)?;
                color.serialize(out)?;
            },
        }
        Ok(())
    }
    fn deserialize(input: &mut Reader) -> Result<Self, Error> {
        let id = i32::deserialize(input)?;
        match id {
            -860866985i32 => Ok(WallPaper::WallPaper {
                id: TLType::deserialize(input)?,
                title: TLType::deserialize(input)?,
                sizes: TLType::deserialize(input)?,
                color: TLType::deserialize(input)?,
            }),
            _ => Err(Error::Deserialize(String::from(\"WallPaper\"))),
        }
    }
}
pub mod storage {
use super::*;
#[allow(dead_code)]
#[derive(Clone, Debug, PartialEq)]
pub enum FileType {
    FileGif { },
}
impl TLType for FileType {
    type V = Self;
    fn serialize(&self, out: &mut Writer) -> Result<(), Error> {
        match self {
            FileType::FileGif { } => {
                (-891180321i32).serialize(out)?;
            },
        }
        Ok(())
    }
    fn deserialize(input: &mut Reader) -> Result<Self, Error> {
        let id = i32::deserialize(input)?;
        match id {
            -891180321i32 => Ok(FileType::FileGif {
            }),
            _ => Err(Error::Deserialize(String::from(\"FileType\"))),
        }
    }
}
}
pub mod upload {
use super::*;
#[allow(dead_code)]
#[derive(Clone, Debug, PartialEq)]
pub enum File {
    File { kind: Box<super::storage::FileType>, mtime: i32, bytes: Vec<u8>, },
}
impl TLType for File {
    type V = Self;
    fn serialize(&self, out: &mut Writer) -> Result<(), Error> {
        match self {
            File::File { kind, mtime, bytes, } => {
                (157948117i32).serialize(out)?;
                kind.serialize(out)?;
                mtime.serialize(out)?;
                bytes.serialize(out)?;
            },
        }
        Ok(())
    }
    fn deserialize(input: &mut Reader) -> Result<Self, Error> {
        let id = i32::deserialize(input)?;
        match id {
            157948117i32 => Ok(File::File {
                kind: TLType::deserialize(input)?,
                mtime: TLType::deserialize(input)?,
                bytes: TLType::deserialize(input)?,
            }),
            _ => Err(Error::Deserialize(String::from(\"File\"))),
        }
    }
}
}
";
    assert_eq!(ast.compile(), expected);
}
