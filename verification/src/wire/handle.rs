//! Wire format for arena handles: the slot index as 8 bytes, then the
//! generation as 8 bytes.

use vstd::prelude::*;

use crate::arena::GenerationalIndex;
use crate::wire::bytes::{
    be_bytes, be_value, decode_be, encode_be, lemma_be_bytes_len, lemma_be_bytes_of_value,
    lemma_be_value_bound, lemma_be_value_of_bytes, pow256,
};
use crate::wire::{DecodeError, Deserialize, Serialize, Wire, WireLaws};

verus! {

impl Wire for GenerationalIndex {
    type Model = GenerationalIndex;

    open spec fn model(&self) -> GenerationalIndex {
        *self
    }

    open spec fn wf(m: GenerationalIndex) -> bool {
        true
    }

    open spec fn wire_of(m: GenerationalIndex) -> Seq<u8> {
        be_bytes(m.idx as int, 8) + be_bytes(m.gen as int, 8)
    }

    open spec fn parse_of(data: Seq<u8>) -> Option<(int, GenerationalIndex)> {
        if data.len() < 16 {
            None
        } else {
            let idx_v = be_value(data.take(8));
            let gen_v = be_value(data.subrange(8, 16));
            if idx_v <= usize::MAX {
                Some((16, GenerationalIndex { idx: idx_v as usize, gen: gen_v as u64 }))
            } else {
                None
            }
        }
    }
}

impl WireLaws for GenerationalIndex {
    proof fn lemma_parse_wire(data: Seq<u8>) {
        if data.len() >= 16 {
            let head = data.take(8);
            let tail = data.subrange(8, 16);
            lemma_be_value_bound(head);
            lemma_be_value_bound(tail);
            lemma_be_bytes_of_value(head);
            lemma_be_bytes_of_value(tail);
            assert(pow256(8) == 0x10000000000000000) by {
                reveal_with_fuel(pow256, 9);
            }
            assert(data.take(16) =~= head + tail);
        }
    }

    proof fn lemma_wire_parse(m: GenerationalIndex, rest: Seq<u8>) {
        let w1 = be_bytes(m.idx as int, 8);
        let w2 = be_bytes(m.gen as int, 8);
        lemma_be_bytes_len(m.idx as int, 8);
        lemma_be_bytes_len(m.gen as int, 8);
        let data = Self::wire_of(m) + rest;
        assert(data.take(8) =~= w1);
        assert(data.subrange(8, 16) =~= w2);
        assert(pow256(8) == 0x10000000000000000) by {
            reveal_with_fuel(pow256, 9);
        }
        lemma_be_value_of_bytes(m.idx as int, 8);
        lemma_be_value_of_bytes(m.gen as int, 8);
    }
}

impl Serialize for GenerationalIndex {
    fn serialize(&self) -> (r: Vec<u8>) {
        let mut result = encode_be(self.idx as u64, 8);
        let mut tail = encode_be(self.gen, 8);
        result.append(&mut tail);
        result
    }
}

impl Deserialize for GenerationalIndex {
    fn deserialize(data: &[u8]) -> (r: Result<(usize, GenerationalIndex), DecodeError>)
        ensures
            r is Err && data@.len() < 16 ==> r == Err::<(usize, GenerationalIndex), DecodeError>(
                DecodeError::Truncated { offset: 0 },
            ),
            r is Err && data@.len() >= 16 ==> r == Err::<(usize, GenerationalIndex), DecodeError>(
                DecodeError::LengthOverflow { offset: 0 },
            ),
    {
        if data.len() < 16 {
            return Err(DecodeError::Truncated { offset: 0 });
        }
        let idx_v = decode_be(data, 0, 8);
        let gen_v = decode_be(data, 8, 8);
        proof {
            assert(data@.subrange(0, 8) == data@.take(8));
        }
        if idx_v > usize::MAX as u64 {
            return Err(DecodeError::LengthOverflow { offset: 0 });
        }
        Ok((16, GenerationalIndex { idx: idx_v as usize, gen: gen_v }))
    }
}

} // verus!
