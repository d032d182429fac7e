use moq::coding::{decode_string, DecodeError};
use moq::group::{
    decode_object_header, encode_object_header, GroupFlags, GroupHeader, ObjectHeader,
};
use moq::parameters::Parameters;
use moq::setup::{ClientSetup, ServerSetup};
use moq::varint::{decode_varint, encode_varint};

fn varint(v: u64) -> Vec<u8> {
    let mut w = Vec::new();
    encode_varint(v, &mut w);
    w
}

#[test]
fn varint_examples() {
    assert_eq!(varint(37), vec![0x25]);
    assert_eq!(varint(15293), vec![0x7b, 0xbd]);
    assert_eq!(varint(494878333), vec![0x9d, 0x7f, 0x3e, 0x7d]);
    assert_eq!(
        varint(151288809941952652),
        vec![0xc2, 0x19, 0x7c, 0x5e, 0xff, 0x14, 0xe8, 0x8c]
    );
    assert_eq!(decode_varint(&[0x40, 0x25], 0).unwrap(), (37, 2));
    assert_eq!(decode_varint(&[0x9d, 0x7f, 0x3e], 0).unwrap_err(), DecodeError::Short);
    assert_eq!(decode_varint(&[], 0).unwrap_err(), DecodeError::Short);
}

#[test]
fn largest_varint() {
    let v = (1u64 << 62) - 1;
    let w = varint(v);
    assert_eq!(w.len(), 8);
    assert_eq!(decode_varint(&w, 0).unwrap(), (v, 8));
}

#[test]
fn string_decoding() {
    let bytes = vec![0x02, b'h', b'i', 0xff];
    let (s, end) = decode_string(&bytes, 0).unwrap();
    assert_eq!(s, "hi");
    assert_eq!(end, 3);
}

#[test]
fn group_flag_ids() {
    let flags = GroupFlags::default();
    assert_eq!(flags.encode(), 0x18);
    assert_eq!(GroupFlags::decode(0x18).unwrap(), flags);
    assert_eq!(GroupFlags::decode(0x16).unwrap_err(), DecodeError::InvalidValue);
    assert_eq!(GroupFlags::decode(0x0f).unwrap_err(), DecodeError::InvalidValue);
    assert_eq!(GroupFlags::decode(0x1e).unwrap_err(), DecodeError::InvalidValue);
    assert_eq!(GroupFlags::decode(0x05).unwrap_err(), DecodeError::InvalidValue);
    let all = GroupFlags::decode(0x1b).unwrap();
    assert!(all.has_extensions && all.has_subgroup && !all.has_subgroup_object && all.has_end);
}

#[test]
fn group_header_round_trip() {
    let header = GroupHeader {
        track_alias: 2,
        group_id: 300,
        flags: GroupFlags::decode(0x1a).unwrap(),
    };
    let mut w = Vec::new();
    header.encode(&mut w);
    assert_eq!(w, vec![0x1a, 0x02, 0x41, 0x2c, 0x00, 0x00]);
    assert_eq!(GroupHeader::decode(&w, 0).unwrap(), (header, 6));
}

#[test]
fn group_header_with_unknown_subgroup_is_unsupported() {
    let w = vec![0x1a, 0x02, 0x05, 0x01, 0x00];
    assert_eq!(GroupHeader::decode(&w, 0).unwrap_err(), DecodeError::Unsupported);
}

#[test]
fn frames_of_a_group_read_back_in_order() {
    let flags = GroupFlags::default();
    let frames: Vec<Vec<u8>> = vec![vec![1, 2, 3], vec![], vec![9; 200]];
    let mut w = Vec::new();
    for f in &frames {
        encode_object_header(flags, f.len() as u64, &mut w);
        w.extend_from_slice(f);
    }
    let mut pos = 0;
    let mut read = Vec::new();
    while pos < w.len() {
        let (h, p) = decode_object_header(flags, &w, pos).unwrap();
        match h {
            ObjectHeader::Frame(n) => {
                read.push(w[p..p + n as usize].to_vec());
                pos = p + n as usize;
            }
            ObjectHeader::Empty => {
                read.push(vec![]);
                pos = p;
            }
            ObjectHeader::EndOfGroup => panic!("unexpected end"),
        }
    }
    assert_eq!(read, frames);
}

#[test]
fn end_of_group_status_needs_an_implicit_end() {
    let implicit = GroupFlags::decode(0x10).unwrap();
    let w = vec![0x00, 0x00, 0x03];
    assert_eq!(decode_object_header(implicit, &w, 0).unwrap(), (ObjectHeader::EndOfGroup, 3));
    let explicit = GroupFlags::default();
    assert_eq!(decode_object_header(explicit, &w, 0).unwrap_err(), DecodeError::Unsupported);
    assert_eq!(decode_object_header(explicit, &[0x01, 0x00], 0).unwrap_err(), DecodeError::Unsupported);
}

#[test]
fn parameters_get_and_set() {
    let mut p = Parameters::new();
    assert!(p.get(1).is_none());
    p.set(1, vec![7]);
    p.set(2, vec![8, 9]);
    p.set(1, vec![6]);
    assert_eq!(p.get(1).unwrap(), &vec![6]);
    assert_eq!(p.get(2).unwrap(), &vec![8, 9]);
    let mut w = Vec::new();
    p.encode(&mut w);
    assert_eq!(w, vec![0x02, 0x01, 0x01, 0x06, 0x02, 0x02, 0x08, 0x09]);
    let (q, end) = Parameters::decode(&w, 0).unwrap();
    assert_eq!(end, w.len());
    assert_eq!(q.get(2).unwrap(), &vec![8, 9]);
}

#[test]
fn too_many_parameters() {
    let w = vec![0x40, 0x41];
    assert_eq!(Parameters::decode(&w, 0).unwrap_err(), DecodeError::TooMany);
    let mut ok = vec![0x40, 0x40];
    for k in 0..64u8 {
        ok.extend_from_slice(&[k, 0x00]);
    }
    assert!(Parameters::decode(&ok, 0).is_ok());
}

#[test]
fn duplicate_parameter() {
    let w = vec![0x02, 0x05, 0x00, 0x05, 0x00];
    assert_eq!(Parameters::decode(&w, 0).unwrap_err(), DecodeError::Duplicate);
}

#[test]
fn setup_round_trip() {
    let mut parameters = Parameters::new();
    parameters.set(2, vec![0x40, 0x64]);
    let client = ClientSetup {
        versions: vec![0xff00000e, 0xff00000d],
        parameters,
    };
    let mut w = Vec::new();
    client.encode(&mut w);
    let (decoded, end) = ClientSetup::decode(&w, 0).unwrap();
    assert_eq!(end, w.len());
    assert_eq!(decoded.versions, vec![0xff00000e, 0xff00000d]);
    assert_eq!(decoded.parameters.get(2).unwrap(), &vec![0x40, 0x64]);

    let server = ServerSetup {
        version: 0xff00000e,
        parameters: Parameters::new(),
    };
    let mut w = Vec::new();
    server.encode(&mut w);
    let (decoded, _) = ServerSetup::decode(&w, 0).unwrap();
    assert_eq!(decoded.version, 0xff00000e);
}

#[test]
fn set_then_get_keeps_other_keys() {
    let mut p = Parameters::new();
    p.set(4, vec![1]);
    p.set(9, vec![2]);
    p.set(4, vec![3, 3]);
    assert_eq!(p.get(4).unwrap(), &vec![3, 3]);
    assert_eq!(p.get(9).unwrap(), &vec![2]);
    assert!(p.get(5).is_none());
}
