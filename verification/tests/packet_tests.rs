use ecs_wire::arena::GenerationalIndex;
use ecs_wire::packet::Packet;
use ecs_wire::wire::{round_trip, DecodeError, Deserialize, Serialize, Wire};

fn assert_packet_round_trip(p: Packet) {
    let bytes = p.serialize();
    let (consumed, back) = Packet::deserialize(&bytes).unwrap();
    assert_eq!(consumed, bytes.len());
    // the model-level guarantee is byte-exactness; check it concretely
    assert_eq!(back.serialize(), bytes);
}

#[test]
fn packet_hello_round_trip() {
    assert_packet_round_trip(Packet::Hello { name: String::from("player one") });
}

#[test]
fn packet_hello_ack_round_trip() {
    assert_packet_round_trip(Packet::HelloAck);
    assert_eq!(Packet::HelloAck.serialize(), vec![1u8]);
}

#[test]
fn packet_create_entity_round_trip() {
    let entity = GenerationalIndex { idx: 7, gen: 3 };
    assert_packet_round_trip(Packet::CreateEntity { entity });
    let (n, back) = Packet::deserialize(&Packet::CreateEntity { entity }.serialize()).unwrap();
    assert_eq!(n, 17);
    assert!(matches!(back, Packet::CreateEntity { entity: e } if e == entity));
}

#[test]
fn packet_set_component_round_trip() {
    let entity = GenerationalIndex { idx: 0, gen: 1 };
    let p = Packet::SetComponent { entity, comp_id: 2, data: vec![9, 8, 7] };
    assert_packet_round_trip(p);
}

#[test]
fn packet_generic_round_trip() {
    let p = Packet::Hello { name: String::from("ok") };
    let (bytes, decoded) = round_trip(&p);
    let (n, back) = decoded.unwrap();
    assert_eq!(n, bytes.len());
    assert!(matches!(back, Packet::Hello { name } if name == "ok"));
}

#[test]
fn packet_tags_and_variant_count() {
    let entity = GenerationalIndex { idx: 0, gen: 0 };
    assert_eq!(Packet::Hello { name: String::new() }.id(), 0);
    assert_eq!(Packet::HelloAck.id(), 1);
    assert_eq!(Packet::CreateEntity { entity }.enum_tag(), 2);
    assert_eq!(
        Packet::SetComponent { entity, comp_id: 0, data: vec![] }.enum_tag(),
        3
    );
    assert_eq!(Packet::num_variants(), 4);
}

#[test]
fn packet_bad_discriminant_is_reported() {
    let r = Packet::deserialize(&[9u8, 0, 0]);
    assert_eq!(r, Err(DecodeError::BadDiscriminant { offset: 0, value: 9 }));
}

#[test]
fn packet_truncated_input_is_reported() {
    assert_eq!(Packet::deserialize(&[]), Err(DecodeError::Truncated { offset: 0 }));
    // a Hello packet whose text is cut short
    let mut bytes = Packet::Hello { name: String::from("abcdef") }.serialize();
    bytes.pop();
    assert!(matches!(Packet::deserialize(&bytes), Err(DecodeError::Truncated { .. })));
}

#[test]
fn string_invalid_utf8_is_reported() {
    // length prefix 1, then a lone continuation byte
    let bytes = vec![0u8, 0, 0, 0, 0, 0, 0, 1, 0xFF];
    assert_eq!(
        String::deserialize(&bytes),
        Err(DecodeError::InvalidUtf8 { offset: 8 })
    );
}

// A three-variant sum type: its second variant (index 1) encodes as the
// single tag byte 1 followed by the variant's field encoding.
#[derive(Debug, PartialEq)]
enum TriMsg {
    A(u8),
    B(u32),
    C,
}

impl Wire for TriMsg {
    type Model = ();
}

impl Serialize for TriMsg {
    fn serialize(&self) -> Vec<u8> {
        match self {
            TriMsg::A(v) => {
                let mut result = 0u8.serialize();
                result.append(&mut v.serialize());
                result
            }
            TriMsg::B(v) => {
                let mut result = 1u8.serialize();
                result.append(&mut v.serialize());
                result
            }
            TriMsg::C => 2u8.serialize(),
        }
    }
}

impl Deserialize for TriMsg {
    fn deserialize(data: &[u8]) -> Result<(usize, Self), DecodeError> {
        let (n, tag) = u8::deserialize(data)?;
        match tag {
            0 => {
                let (n1, v) = u8::deserialize(&data[n..])?;
                Ok((n + n1, TriMsg::A(v)))
            }
            1 => {
                let (n1, v) = u32::deserialize(&data[n..])?;
                Ok((n + n1, TriMsg::B(v)))
            }
            2 => Ok((n, TriMsg::C)),
            _ => Err(DecodeError::BadDiscriminant { offset: 0, value: tag as u64 }),
        }
    }
}

#[test]
fn second_variant_encodes_one_tag_byte_of_one() {
    let msg = TriMsg::B(420);
    assert_eq!(msg.serialize(), vec![1u8, 0, 0, 1, 164]);
    assert_eq!(TriMsg::deserialize(&msg.serialize()).unwrap(), (5, TriMsg::B(420)));
}

#[test]
fn u32_scenario_encodes_and_decodes_exactly() {
    assert_eq!(69u32.serialize(), vec![0u8, 0, 0, 69]);
    assert_eq!(u32::deserialize(&[0u8, 0, 0, 69]).unwrap(), (4, 69));
}

#[test]
fn handle_wire_is_two_big_endian_words() {
    let h = GenerationalIndex { idx: 1, gen: 2 };
    let bytes = h.serialize();
    assert_eq!(
        bytes,
        vec![0u8, 0, 0, 0, 0, 0, 0, 1, 0, 0, 0, 0, 0, 0, 0, 2]
    );
    assert_eq!(GenerationalIndex::deserialize(&bytes).unwrap(), (16, h));
}

#[test]
fn bool_wire_is_one_checked_byte() {
    assert_eq!(true.serialize(), vec![1u8]);
    assert_eq!(false.serialize(), vec![0u8]);
    assert_eq!(bool::deserialize(&[1u8]).unwrap(), (1, true));
    assert_eq!(
        bool::deserialize(&[2u8]),
        Err(DecodeError::BadDiscriminant { offset: 0, value: 2 })
    );
}

#[test]
fn vec_truncated_body_is_reported() {
    let bytes = vec![0u8, 0, 0, 0, 0, 0, 0, 2, 1, 2, 3, 4]; // claims 2 u32s, holds 1
    assert!(matches!(
        <Vec<u32>>::deserialize(&bytes),
        Err(DecodeError::Truncated { .. })
    ));
}

#[test]
fn empty_string_round_trips() {
    let s = String::new();
    let bytes = s.serialize();
    assert_eq!(bytes, vec![0u8; 8]);
    assert_eq!(String::deserialize(&bytes).unwrap(), (8, String::new()));
}

#[test]
fn nested_list_of_text_round_trips() {
    let v = vec![String::from("ayy"), String::new(), String::from("lmao")];
    let (n, back) = <Vec<String>>::deserialize(&v.serialize()).unwrap();
    assert_eq!(n, v.serialize().len());
    assert_eq!(back, v);
}
