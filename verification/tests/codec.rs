use opcua_session::basic_types::{NodeId, QualifiedName, UAString};
use opcua_session::browse_path::BrowsePath;
use opcua_session::encoding::{
    read_bool, read_string, read_u16, read_u32, write_bool, write_string, write_u16, write_u32,
};
use opcua_session::node_ids::ObjectId;
use opcua_session::relative_path::RelativePath;
use opcua_session::relative_path_element::RelativePathElement;

fn element(ns: u16, id: u32, name: &[u8]) -> RelativePathElement {
    RelativePathElement {
        reference_type_id: NodeId::new(ns, id),
        is_inverse: false,
        include_subtypes: true,
        target_name: QualifiedName {
            namespace_index: ns,
            name: UAString::from_bytes(name.to_vec()),
        },
    }
}

#[test]
fn u16_little_endian_bytes() {
    let mut out: Vec<u8> = Vec::new();
    write_u16(&mut out, 0xBEEF);
    assert_eq!(out, vec![0xEF, 0xBE]);
    let (v, p) = read_u16(&out, 0).unwrap();
    assert_eq!(v, 0xBEEF);
    assert_eq!(p, 2);
}

#[test]
fn u32_little_endian_bytes() {
    let mut out: Vec<u8> = Vec::new();
    write_u32(&mut out, 0x1234_5678);
    assert_eq!(out, vec![0x78, 0x56, 0x34, 0x12]);
    let (v, p) = read_u32(&out, 0).unwrap();
    assert_eq!(v, 0x1234_5678);
    assert_eq!(p, 4);
}

#[test]
fn truncated_integer_read_fails() {
    let out: Vec<u8> = vec![0x01];
    assert!(read_u16(&out, 0).is_err());
    assert!(read_u32(&out, 0).is_err());
}

#[test]
fn bool_encoding() {
    let mut out: Vec<u8> = Vec::new();
    write_bool(&mut out, true);
    write_bool(&mut out, false);
    assert_eq!(out, vec![1, 0]);
    let (v1, p1) = read_bool(&out, 0).unwrap();
    let (v2, _) = read_bool(&out, p1).unwrap();
    assert!(v1);
    assert!(!v2);
}

#[test]
fn null_string_round_trip() {
    let mut out: Vec<u8> = Vec::new();
    write_string(&mut out, &UAString::null());
    assert_eq!(out, vec![0xFF, 0xFF, 0xFF, 0xFF]);
    let (s, p) = read_string(&out, 0).unwrap();
    assert!(s.is_null());
    assert_eq!(p, 4);
}

#[test]
fn string_round_trip() {
    let mut out: Vec<u8> = Vec::new();
    let s = UAString::from_bytes(b"boo".to_vec());
    write_string(&mut out, &s);
    assert_eq!(out, vec![3, 0, 0, 0, b'b', b'o', b'o']);
    let (t, p) = read_string(&out, 0).unwrap();
    assert_eq!(t, s);
    assert_eq!(p, 7);
}

#[test]
fn string_read_past_end_fails() {
    // length prefix promises more bytes than the buffer holds
    let out: Vec<u8> = vec![5, 0, 0, 0, b'a'];
    assert!(read_string(&out, 0).is_err());
}

#[test]
fn element_round_trip() {
    let e = element(1, 33, b"foo");
    let mut out: Vec<u8> = Vec::new();
    let written = e.encode(&mut out).unwrap();
    assert_eq!(written, out.len());
    assert_eq!(written, e.byte_len());
    let (decoded, p) = RelativePathElement::decode(&out, 0).unwrap();
    assert_eq!(decoded, e);
    assert_eq!(p, out.len());
}

#[test]
fn element_with_null_name_round_trip() {
    let e = RelativePathElement {
        reference_type_id: NodeId::new(0, 31),
        is_inverse: true,
        include_subtypes: false,
        target_name: QualifiedName::null(),
    };
    let mut out: Vec<u8> = Vec::new();
    let written = e.encode(&mut out).unwrap();
    assert_eq!(written, e.byte_len());
    let (decoded, _) = RelativePathElement::decode(&out, 0).unwrap();
    assert_eq!(decoded, e);
}

#[test]
fn relative_path_round_trip() {
    let path = RelativePath { elements: vec![element(0, 40, b"foo"), element(2, 41, b"boo")] };
    let mut out: Vec<u8> = Vec::new();
    let written = path.encode(&mut out).unwrap();
    assert_eq!(written, out.len());
    assert_eq!(written, path.byte_len());
    let (decoded, p) = RelativePath::decode(&out, 0).unwrap();
    assert_eq!(decoded, path);
    assert_eq!(p, out.len());
}

#[test]
fn empty_relative_path_round_trip() {
    let path = RelativePath { elements: Vec::new() };
    let mut out: Vec<u8> = Vec::new();
    let written = path.encode(&mut out).unwrap();
    assert_eq!(written, 4);
    let (decoded, p) = RelativePath::decode(&out, 0).unwrap();
    assert_eq!(decoded.elements.len(), 0);
    assert_eq!(p, 4);
}

#[test]
fn relative_path_bad_count_fails() {
    // a count in the negative range of the 32-bit prefix
    let out: Vec<u8> = vec![0xFF, 0xFF, 0xFF, 0xFF];
    assert!(RelativePath::decode(&out, 0).is_err());
}

#[test]
fn browse_path_round_trip() {
    let bp = BrowsePath {
        starting_node: NodeId::new(0, 85),
        relative_path: RelativePath { elements: vec![element(1, 47, b"foo")] },
    };
    let mut out: Vec<u8> = Vec::new();
    let written = bp.encode(&mut out).unwrap();
    assert_eq!(written, out.len());
    assert_eq!(written, bp.byte_len());
    let (decoded, p) = BrowsePath::decode(&out, 0).unwrap();
    assert_eq!(decoded, bp);
    assert_eq!(p, out.len());
}

#[test]
fn browse_path_truncated_fails() {
    let bp = BrowsePath {
        starting_node: NodeId::new(0, 85),
        relative_path: RelativePath { elements: vec![element(1, 47, b"foo")] },
    };
    let mut out: Vec<u8> = Vec::new();
    let _ = bp.encode(&mut out).unwrap();
    out.truncate(out.len() - 1);
    assert!(BrowsePath::decode(&out, 0).is_err());
}

#[test]
fn object_ids_name_the_encodings() {
    let e = element(0, 1, b"x");
    assert_eq!(e.object_id(), ObjectId::RelativePathElement_Encoding_DefaultBinary);
    let bp = BrowsePath {
        starting_node: NodeId::null(),
        relative_path: RelativePath { elements: Vec::new() },
    };
    assert_eq!(bp.object_id(), ObjectId::BrowsePath_Encoding_DefaultBinary);
}
