//! The protocol's datagram payloads: a sum type with a one-byte
//! discriminant (the zero-based declaration index of the variant), followed
//! by the active variant's fields in declared order.

use vstd::prelude::*;

use crate::arena::GenerationalIndex;
use crate::ecs::Entity;
use crate::wire::list::{models_of, shift_offset, slice_tail};
use crate::wire::{DecodeError, Deserialize, Serialize, Wire, WireLaws};

verus! {

/// A datagram payload. On the wire: one tag byte (the variant's declaration
/// index), then the variant's fields, each in its own wire format.
#[derive(Debug, PartialEq)]
pub enum Packet {
    Hello { name: String },
    HelloAck,
    CreateEntity { entity: Entity },
    SetComponent { entity: Entity, comp_id: u32, data: Vec<u8> },
}

/// The mathematical model of a `Packet`: each field replaced by its model.
pub enum PacketModel {
    Hello { name: Seq<char> },
    HelloAck,
    CreateEntity { entity: GenerationalIndex },
    SetComponent { entity: GenerationalIndex, comp_id: u32, data: Seq<u8> },
}

impl Packet {
    /// The variant's zero-based declaration index: the wire discriminant.
    pub open spec fn spec_tag(m: PacketModel) -> u8 {
        match m {
            PacketModel::Hello { .. } => 0,
            PacketModel::HelloAck => 1,
            PacketModel::CreateEntity { .. } => 2,
            PacketModel::SetComponent { .. } => 3,
        }
    }

    /// The wire discriminant of this packet's variant.
    pub fn enum_tag(&self) -> (r: u8)
        ensures
            r == Self::spec_tag(self.model()),
    {
        match *self {
            Packet::Hello { .. } => 0,
            Packet::HelloAck => 1,
            Packet::CreateEntity { .. } => 2,
            Packet::SetComponent { .. } => 3,
        }
    }

    /// The wire discriminant of this packet's variant (its historical name).
    pub fn id(&self) -> (r: u8)
        ensures
            r == Self::spec_tag(self.model()),
    {
        self.enum_tag()
    }

    /// How many variants the type declares.
    pub fn num_variants() -> (r: usize)
        ensures
            r == 4,
    {
        4
    }
}

/// Law: every packet encoding opens with its one-byte discriminant.
pub proof fn lemma_wire_starts_with_tag(m: PacketModel)
    ensures
        <Packet as Wire>::wire_of(m).len() >= 1,
        <Packet as Wire>::wire_of(m)[0] == Packet::spec_tag(m),
{
}

impl Wire for Packet {
    type Model = PacketModel;

    open spec fn model(&self) -> PacketModel {
        match *self {
            Packet::Hello { ref name } => PacketModel::Hello { name: name@ },
            Packet::HelloAck => PacketModel::HelloAck,
            Packet::CreateEntity { entity } => PacketModel::CreateEntity { entity },
            Packet::SetComponent { entity, comp_id, ref data } => PacketModel::SetComponent {
                entity,
                comp_id,
                data: data@,
            },
        }
    }

    open spec fn wf(m: PacketModel) -> bool {
        match m {
            PacketModel::Hello { name } => <String as Wire>::wf(name),
            PacketModel::HelloAck => true,
            PacketModel::CreateEntity { .. } => true,
            PacketModel::SetComponent { data, .. } => <Vec<u8> as Wire>::wf(data),
        }
    }

    open spec fn wire_of(m: PacketModel) -> Seq<u8> {
        match m {
            PacketModel::Hello { name } => seq![0u8] + <String as Wire>::wire_of(name),
            PacketModel::HelloAck => seq![1u8],
            PacketModel::CreateEntity { entity } => seq![2u8] + <GenerationalIndex as Wire>::wire_of(
                entity,
            ),
            PacketModel::SetComponent { entity, comp_id, data } => seq![3u8]
                + <GenerationalIndex as Wire>::wire_of(entity) + <u32 as Wire>::wire_of(comp_id)
                + <Vec<u8> as Wire>::wire_of(data),
        }
    }

    open spec fn parse_of(data: Seq<u8>) -> Option<(int, PacketModel)> {
        if data.len() < 1 {
            None
        } else if data[0] == 0u8 {
            match <String as Wire>::parse_of(data.skip(1)) {
                Some((k, name)) => Some((1 + k, PacketModel::Hello { name })),
                None => None,
            }
        } else if data[0] == 1u8 {
            Some((1, PacketModel::HelloAck))
        } else if data[0] == 2u8 {
            match <GenerationalIndex as Wire>::parse_of(data.skip(1)) {
                Some((k, entity)) => Some((1 + k, PacketModel::CreateEntity { entity })),
                None => None,
            }
        } else if data[0] == 3u8 {
            match <GenerationalIndex as Wire>::parse_of(data.skip(1)) {
                Some((k1, entity)) => match <u32 as Wire>::parse_of(data.skip(1 + k1)) {
                    Some((k2, comp_id)) => match <Vec<u8> as Wire>::parse_of(
                        data.skip(1 + k1 + k2),
                    ) {
                        Some((k3, payload)) => Some(
                            (
                                1 + k1 + k2 + k3,
                                PacketModel::SetComponent { entity, comp_id, data: payload },
                            ),
                        ),
                        None => None,
                    },
                    None => None,
                },
                None => None,
            }
        } else {
            None
        }
    }
}

impl WireLaws for Packet {
    proof fn lemma_parse_wire(data: Seq<u8>) {
        if data.len() >= 1 {
            if data[0] == 0u8 {
                <String as WireLaws>::lemma_parse_wire(data.skip(1));
                if let Some((k, name)) = <String as Wire>::parse_of(data.skip(1)) {
                    assert(data.take(1 + k) =~= seq![data[0]] + data.skip(1).take(k));
                }
            } else if data[0] == 1u8 {
                assert(data.take(1) =~= seq![data[0]]);
            } else if data[0] == 2u8 {
                <GenerationalIndex as WireLaws>::lemma_parse_wire(data.skip(1));
                if let Some((k, entity)) = <GenerationalIndex as Wire>::parse_of(data.skip(1)) {
                    assert(data.take(1 + k) =~= seq![data[0]] + data.skip(1).take(k));
                }
            } else if data[0] == 3u8 {
                <GenerationalIndex as WireLaws>::lemma_parse_wire(data.skip(1));
                if let Some((k1, entity)) = <GenerationalIndex as Wire>::parse_of(data.skip(1)) {
                    <u32 as WireLaws>::lemma_parse_wire(data.skip(1 + k1));
                    if let Some((k2, comp_id)) = <u32 as Wire>::parse_of(data.skip(1 + k1)) {
                        <Vec<u8> as WireLaws>::lemma_parse_wire(data.skip(1 + k1 + k2));
                        if let Some((k3, payload)) = <Vec<u8> as Wire>::parse_of(
                            data.skip(1 + k1 + k2),
                        ) {
                            assert(data.skip(1).take(k1) == <GenerationalIndex as Wire>::wire_of(
                                entity,
                            ));
                            assert(data.skip(1 + k1).take(k2) == <u32 as Wire>::wire_of(comp_id));
                            assert(data.skip(1 + k1 + k2).take(k3) == <Vec<u8> as Wire>::wire_of(
                                payload,
                            ));
                            assert(data.take(1 + k1 + k2 + k3) =~= seq![data[0]] + data.skip(
                                1,
                            ).take(k1) + data.skip(1 + k1).take(k2) + data.skip(1 + k1 + k2).take(
                                k3,
                            ));
                        }
                    }
                }
            }
        }
    }

    proof fn lemma_wire_parse(m: PacketModel, rest: Seq<u8>) {
        let data = Self::wire_of(m) + rest;
        match m {
            PacketModel::Hello { name } => {
                let w = <String as Wire>::wire_of(name);
                assert(data[0] == 0u8);
                assert(data.skip(1) =~= w + rest);
                <String as WireLaws>::lemma_wire_parse(name, rest);
            },
            PacketModel::HelloAck => {
                assert(data[0] == 1u8);
            },
            PacketModel::CreateEntity { entity } => {
                let w = <GenerationalIndex as Wire>::wire_of(entity);
                assert(data[0] == 2u8);
                assert(data.skip(1) =~= w + rest);
                <GenerationalIndex as WireLaws>::lemma_wire_parse(entity, rest);
            },
            PacketModel::SetComponent { entity, comp_id, data: payload } => {
                let w1 = <GenerationalIndex as Wire>::wire_of(entity);
                let w2 = <u32 as Wire>::wire_of(comp_id);
                let w3 = <Vec<u8> as Wire>::wire_of(payload);
                assert(data[0] == 3u8);
                assert(data.skip(1) =~= w1 + (w2 + (w3 + rest)));
                <GenerationalIndex as WireLaws>::lemma_wire_parse(entity, w2 + (w3 + rest));
                assert(data.skip(1 + w1.len() as int) =~= w2 + (w3 + rest));
                <u32 as WireLaws>::lemma_wire_parse(comp_id, w3 + rest);
                assert(data.skip(1 + w1.len() + w2.len() as int) =~= w3 + rest);
                <Vec<u8> as WireLaws>::lemma_wire_parse(payload, rest);
            },
        }
    }
}

impl Serialize for Packet {
    fn serialize(&self) -> (r: Vec<u8>) {
        let mut result: Vec<u8> = Vec::new();
        result.push(self.enum_tag());
        match self {
            Packet::Hello { name } => {
                let mut body = name.serialize();
                result.append(&mut body);
            },
            Packet::HelloAck => {},
            Packet::CreateEntity { entity } => {
                let mut body = entity.serialize();
                result.append(&mut body);
            },
            Packet::SetComponent { entity, comp_id, data } => {
                let mut f1 = entity.serialize();
                result.append(&mut f1);
                let mut f2 = comp_id.serialize();
                result.append(&mut f2);
                let mut f3 = data.serialize();
                result.append(&mut f3);
                proof {
                    // a byte is its own model, so the list's model is its view
                    assert(models_of::<u8>(data@) =~= data@);
                }
            },
        }
        proof {
            assert(result@ =~= Self::wire_of(self.model()));
        }
        result
    }
}

impl Deserialize for Packet {
    fn deserialize(data: &[u8]) -> (r: Result<(usize, Packet), DecodeError>)
        ensures
            r is Err && data@.len() < 1 ==> r == Err::<(usize, Packet), DecodeError>(
                DecodeError::Truncated { offset: 0 },
            ),
            r is Err && data@.len() >= 1 && data@[0] > 3 ==> r == Err::<
                (usize, Packet),
                DecodeError,
            >(DecodeError::BadDiscriminant { offset: 0, value: data@[0] as u64 }),
    {
        if data.len() < 1 {
            return Err(DecodeError::Truncated { offset: 0 });
        }
        let tag = data[0];
        if tag == 0 {
            match String::deserialize(slice_tail(data, 1)) {
                Ok((k, name)) => Ok((1 + k, Packet::Hello { name })),
                Err(e) => Err(shift_offset(e, 1)),
            }
        } else if tag == 1 {
            Ok((1, Packet::HelloAck))
        } else if tag == 2 {
            match GenerationalIndex::deserialize(slice_tail(data, 1)) {
                Ok((k, entity)) => Ok((1 + k, Packet::CreateEntity { entity })),
                Err(e) => Err(shift_offset(e, 1)),
            }
        } else if tag == 3 {
            let entity = match GenerationalIndex::deserialize(slice_tail(data, 1)) {
                Ok(p) => p,
                Err(e) => {
                    return Err(shift_offset(e, 1));
                },
            };
            let k1 = entity.0;
            proof {
                <GenerationalIndex as WireLaws>::lemma_parse_wire(data@.skip(1));
                assert(data@.skip(1).skip(k1 as int) =~= data@.skip(1 + k1));
            }
            let comp_id = match u32::deserialize(slice_tail(data, 1 + k1)) {
                Ok(p) => p,
                Err(e) => {
                    return Err(shift_offset(e, 1 + k1));
                },
            };
            let k2 = comp_id.0;
            proof {
                <u32 as WireLaws>::lemma_parse_wire(data@.skip(1 + k1));
                assert(data@.skip(1 + k1).skip(k2 as int) =~= data@.skip(1 + k1 + k2));
            }
            let payload = match <Vec<u8>>::deserialize(slice_tail(data, 1 + k1 + k2)) {
                Ok(p) => p,
                Err(e) => {
                    return Err(shift_offset(e, 1 + k1 + k2));
                },
            };
            let k3 = payload.0;
            proof {
                <Vec<u8> as WireLaws>::lemma_parse_wire(data@.skip(1 + k1 + k2));
                assert(models_of::<u8>(payload.1@) =~= payload.1@);
            }
            Ok(
                (
                    1 + k1 + k2 + k3,
                    Packet::SetComponent {
                        entity: entity.1,
                        comp_id: comp_id.1,
                        data: payload.1,
                    },
                ),
            )
        } else {
            Err(DecodeError::BadDiscriminant { offset: 0, value: tag as u64 })
        }
    }
}

} // verus!
