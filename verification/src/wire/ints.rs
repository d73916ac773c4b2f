//! Wire formats for the fixed-width integers and `bool`: big-endian, fixed
//! width equal to the type's width; `usize` travels as 8 bytes; `bool` as
//! one byte holding 0 or 1.

use vstd::prelude::*;

use crate::wire::bytes::{
    be_bytes, be_value, decode_be, encode_be, lemma_be_bytes_len, lemma_be_bytes_of_value,
    lemma_be_value_bound, lemma_be_value_of_bytes, pow256,
};
use crate::wire::{DecodeError, Deserialize, Serialize, Wire, WireLaws};

verus! {

impl Wire for u8 {
    type Model = u8;

    open spec fn model(&self) -> u8 {
        *self
    }

    open spec fn wf(m: u8) -> bool {
        true
    }

    open spec fn wire_of(m: u8) -> Seq<u8> {
        be_bytes(m as int, 1)
    }

    open spec fn parse_of(data: Seq<u8>) -> Option<(int, u8)> {
        if data.len() >= 1 {
            Some((1, be_value(data.take(1)) as u8))
        } else {
            None
        }
    }
}

impl WireLaws for u8 {
    proof fn lemma_parse_wire(data: Seq<u8>) {
        if data.len() >= 1 {
            let s = data.take(1);
            lemma_be_value_bound(s);
            lemma_be_bytes_of_value(s);
            assert(pow256(1) == 0x100) by {
                reveal_with_fuel(pow256, 2);
            }
        }
    }

    proof fn lemma_wire_parse(m: u8, rest: Seq<u8>) {
        lemma_be_bytes_len(m as int, 1);
        let w = be_bytes(m as int, 1);
        assert((w + rest).take(1) == w);
        assert(pow256(1) == 0x100) by {
            reveal_with_fuel(pow256, 2);
        }
        lemma_be_value_of_bytes(m as int, 1);
    }
}

impl Serialize for u8 {
    fn serialize(&self) -> (r: Vec<u8>) {
        encode_be(*self as u64, 1)
    }
}

impl Deserialize for u8 {
    fn deserialize(data: &[u8]) -> (r: Result<(usize, u8), DecodeError>)
        ensures
            r is Err ==> r == Err::<(usize, u8), DecodeError>(
                DecodeError::Truncated { offset: 0 },
            ),
    {
        if data.len() < 1 {
            return Err(DecodeError::Truncated { offset: 0 });
        }
        let v = decode_be(data, 0, 1);
        proof {
            assert(data@.subrange(0, 1) == data@.take(1));
            assert(pow256(1) == 0x100) by {
                reveal_with_fuel(pow256, 2);
            }
        }
        Ok((1, v as u8))
    }
}

impl Wire for u16 {
    type Model = u16;

    open spec fn model(&self) -> u16 {
        *self
    }

    open spec fn wf(m: u16) -> bool {
        true
    }

    open spec fn wire_of(m: u16) -> Seq<u8> {
        be_bytes(m as int, 2)
    }

    open spec fn parse_of(data: Seq<u8>) -> Option<(int, u16)> {
        if data.len() >= 2 {
            Some((2, be_value(data.take(2)) as u16))
        } else {
            None
        }
    }
}

impl WireLaws for u16 {
    proof fn lemma_parse_wire(data: Seq<u8>) {
        if data.len() >= 2 {
            let s = data.take(2);
            lemma_be_value_bound(s);
            lemma_be_bytes_of_value(s);
            assert(pow256(2) == 0x10000) by {
                reveal_with_fuel(pow256, 3);
            }
        }
    }

    proof fn lemma_wire_parse(m: u16, rest: Seq<u8>) {
        lemma_be_bytes_len(m as int, 2);
        let w = be_bytes(m as int, 2);
        assert((w + rest).take(2) == w);
        assert(pow256(2) == 0x10000) by {
            reveal_with_fuel(pow256, 3);
        }
        lemma_be_value_of_bytes(m as int, 2);
    }
}

impl Serialize for u16 {
    fn serialize(&self) -> (r: Vec<u8>) {
        encode_be(*self as u64, 2)
    }
}

impl Deserialize for u16 {
    fn deserialize(data: &[u8]) -> (r: Result<(usize, u16), DecodeError>)
        ensures
            r is Err ==> r == Err::<(usize, u16), DecodeError>(
                DecodeError::Truncated { offset: 0 },
            ),
    {
        if data.len() < 2 {
            return Err(DecodeError::Truncated { offset: 0 });
        }
        let v = decode_be(data, 0, 2);
        proof {
            assert(data@.subrange(0, 2) == data@.take(2));
            assert(pow256(2) == 0x10000) by {
                reveal_with_fuel(pow256, 3);
            }
        }
        Ok((2, v as u16))
    }
}

impl Wire for u32 {
    type Model = u32;

    open spec fn model(&self) -> u32 {
        *self
    }

    open spec fn wf(m: u32) -> bool {
        true
    }

    open spec fn wire_of(m: u32) -> Seq<u8> {
        be_bytes(m as int, 4)
    }

    open spec fn parse_of(data: Seq<u8>) -> Option<(int, u32)> {
        if data.len() >= 4 {
            Some((4, be_value(data.take(4)) as u32))
        } else {
            None
        }
    }
}

impl WireLaws for u32 {
    proof fn lemma_parse_wire(data: Seq<u8>) {
        if data.len() >= 4 {
            let s = data.take(4);
            lemma_be_value_bound(s);
            lemma_be_bytes_of_value(s);
            assert(pow256(4) == 0x100000000) by {
                reveal_with_fuel(pow256, 5);
            }
        }
    }

    proof fn lemma_wire_parse(m: u32, rest: Seq<u8>) {
        lemma_be_bytes_len(m as int, 4);
        let w = be_bytes(m as int, 4);
        assert((w + rest).take(4) == w);
        assert(pow256(4) == 0x100000000) by {
            reveal_with_fuel(pow256, 5);
        }
        lemma_be_value_of_bytes(m as int, 4);
    }
}

impl Serialize for u32 {
    fn serialize(&self) -> (r: Vec<u8>) {
        encode_be(*self as u64, 4)
    }
}

impl Deserialize for u32 {
    fn deserialize(data: &[u8]) -> (r: Result<(usize, u32), DecodeError>)
        ensures
            r is Err ==> r == Err::<(usize, u32), DecodeError>(
                DecodeError::Truncated { offset: 0 },
            ),
    {
        if data.len() < 4 {
            return Err(DecodeError::Truncated { offset: 0 });
        }
        let v = decode_be(data, 0, 4);
        proof {
            assert(data@.subrange(0, 4) == data@.take(4));
            assert(pow256(4) == 0x100000000) by {
                reveal_with_fuel(pow256, 5);
            }
        }
        Ok((4, v as u32))
    }
}

impl Wire for u64 {
    type Model = u64;

    open spec fn model(&self) -> u64 {
        *self
    }

    open spec fn wf(m: u64) -> bool {
        true
    }

    open spec fn wire_of(m: u64) -> Seq<u8> {
        be_bytes(m as int, 8)
    }

    open spec fn parse_of(data: Seq<u8>) -> Option<(int, u64)> {
        if data.len() >= 8 {
            Some((8, be_value(data.take(8)) as u64))
        } else {
            None
        }
    }
}

impl WireLaws for u64 {
    proof fn lemma_parse_wire(data: Seq<u8>) {
        if data.len() >= 8 {
            let s = data.take(8);
            lemma_be_value_bound(s);
            lemma_be_bytes_of_value(s);
            assert(pow256(8) == 0x10000000000000000) by {
                reveal_with_fuel(pow256, 9);
            }
        }
    }

    proof fn lemma_wire_parse(m: u64, rest: Seq<u8>) {
        lemma_be_bytes_len(m as int, 8);
        let w = be_bytes(m as int, 8);
        assert((w + rest).take(8) == w);
        assert(pow256(8) == 0x10000000000000000) by {
            reveal_with_fuel(pow256, 9);
        }
        lemma_be_value_of_bytes(m as int, 8);
    }
}

impl Serialize for u64 {
    fn serialize(&self) -> (r: Vec<u8>) {
        encode_be(*self, 8)
    }
}

impl Deserialize for u64 {
    fn deserialize(data: &[u8]) -> (r: Result<(usize, u64), DecodeError>)
        ensures
            r is Err ==> r == Err::<(usize, u64), DecodeError>(
                DecodeError::Truncated { offset: 0 },
            ),
    {
        if data.len() < 8 {
            return Err(DecodeError::Truncated { offset: 0 });
        }
        let v = decode_be(data, 0, 8);
        proof {
            assert(data@.subrange(0, 8) == data@.take(8));
        }
        Ok((8, v))
    }
}

impl Wire for usize {
    type Model = usize;

    open spec fn model(&self) -> usize {
        *self
    }

    open spec fn wf(m: usize) -> bool {
        true
    }

    open spec fn wire_of(m: usize) -> Seq<u8> {
        be_bytes(m as int, 8)
    }

    open spec fn parse_of(data: Seq<u8>) -> Option<(int, usize)> {
        if data.len() >= 8 {
            let v = be_value(data.take(8));
            if v <= usize::MAX {
                Some((8, v as usize))
            } else {
                None
            }
        } else {
            None
        }
    }
}

impl WireLaws for usize {
    proof fn lemma_parse_wire(data: Seq<u8>) {
        if data.len() >= 8 {
            let s = data.take(8);
            lemma_be_value_bound(s);
            lemma_be_bytes_of_value(s);
        }
    }

    proof fn lemma_wire_parse(m: usize, rest: Seq<u8>) {
        lemma_be_bytes_len(m as int, 8);
        let w = be_bytes(m as int, 8);
        assert((w + rest).take(8) == w);
        assert(pow256(8) == 0x10000000000000000) by {
            reveal_with_fuel(pow256, 9);
        }
        lemma_be_value_of_bytes(m as int, 8);
    }
}

impl Serialize for usize {
    fn serialize(&self) -> (r: Vec<u8>) {
        encode_be(*self as u64, 8)
    }
}

impl Deserialize for usize {
    fn deserialize(data: &[u8]) -> (r: Result<(usize, usize), DecodeError>)
        ensures
            r is Err && data@.len() < 8 ==> r == Err::<(usize, usize), DecodeError>(
                DecodeError::Truncated { offset: 0 },
            ),
            r is Err && data@.len() >= 8 ==> r == Err::<(usize, usize), DecodeError>(
                DecodeError::LengthOverflow { offset: 0 },
            ),
    {
        if data.len() < 8 {
            return Err(DecodeError::Truncated { offset: 0 });
        }
        let v = decode_be(data, 0, 8);
        proof {
            assert(data@.subrange(0, 8) == data@.take(8));
        }
        if v > usize::MAX as u64 {
            return Err(DecodeError::LengthOverflow { offset: 0 });
        }
        Ok((8, v as usize))
    }
}

impl Wire for bool {
    type Model = bool;

    open spec fn model(&self) -> bool {
        *self
    }

    open spec fn wf(m: bool) -> bool {
        true
    }

    open spec fn wire_of(m: bool) -> Seq<u8> {
        seq![if m { 1u8 } else { 0u8 }]
    }

    open spec fn parse_of(data: Seq<u8>) -> Option<(int, bool)> {
        if data.len() >= 1 {
            if data[0] == 0u8 {
                Some((1, false))
            } else if data[0] == 1u8 {
                Some((1, true))
            } else {
                None
            }
        } else {
            None
        }
    }
}

impl WireLaws for bool {
    proof fn lemma_parse_wire(data: Seq<u8>) {
        if data.len() >= 1 && (data[0] == 0u8 || data[0] == 1u8) {
            assert(data.take(1) == seq![data[0]]);
        }
    }

    proof fn lemma_wire_parse(m: bool, rest: Seq<u8>) {
        let w = Self::wire_of(m);
        assert((w + rest)[0] == w[0]);
    }
}

impl Serialize for bool {
    fn serialize(&self) -> (r: Vec<u8>) {
        let mut r: Vec<u8> = Vec::new();
        if *self {
            r.push(1);
        } else {
            r.push(0);
        }
        proof {
            assert(r@ == Self::wire_of(*self));
        }
        r
    }
}

impl Deserialize for bool {
    fn deserialize(data: &[u8]) -> (r: Result<(usize, bool), DecodeError>)
        ensures
            r is Err && data@.len() < 1 ==> r == Err::<(usize, bool), DecodeError>(
                DecodeError::Truncated { offset: 0 },
            ),
            r is Err && data@.len() >= 1 ==> r == Err::<(usize, bool), DecodeError>(
                DecodeError::BadDiscriminant { offset: 0, value: data@[0] as u64 },
            ),
    {
        if data.len() < 1 {
            return Err(DecodeError::Truncated { offset: 0 });
        }
        let b = data[0];
        if b == 0 {
            Ok((1, false))
        } else if b == 1 {
            Ok((1, true))
        } else {
            Err(DecodeError::BadDiscriminant { offset: 0, value: b as u64 })
        }
    }
}

impl Wire for i8 {
    type Model = i8;

    open spec fn model(&self) -> i8 {
        *self
    }

    open spec fn wf(m: i8) -> bool {
        true
    }

    open spec fn wire_of(m: i8) -> Seq<u8> {
        be_bytes(if m >= 0 { m as int } else { m + 0x100 }, 1)
    }

    open spec fn parse_of(data: Seq<u8>) -> Option<(int, i8)> {
        if data.len() >= 1 {
            let v = be_value(data.take(1));
            Some((1, (if v < 0x80 { v } else { v - 0x100 }) as i8))
        } else {
            None
        }
    }
}

impl WireLaws for i8 {
    proof fn lemma_parse_wire(data: Seq<u8>) {
        if data.len() >= 1 {
            let s = data.take(1);
            lemma_be_value_bound(s);
            lemma_be_bytes_of_value(s);
            assert(pow256(1) == 0x100) by {
                reveal_with_fuel(pow256, 2);
            }
        }
    }

    proof fn lemma_wire_parse(m: i8, rest: Seq<u8>) {
        let u: int = if m >= 0 { m as int } else { m + 0x100 };
        lemma_be_bytes_len(u, 1);
        let w = be_bytes(u, 1);
        assert((w + rest).take(1) == w);
        assert(pow256(1) == 0x100) by {
            reveal_with_fuel(pow256, 2);
        }
        lemma_be_value_of_bytes(u, 1);
    }
}

impl Serialize for i8 {
    fn serialize(&self) -> (r: Vec<u8>) {
        if *self >= 0 {
            encode_be(*self as u64, 1)
        } else {
            encode_be(((*self as i128) + 0x100) as u64, 1)
        }
    }
}

impl Deserialize for i8 {
    fn deserialize(data: &[u8]) -> (r: Result<(usize, i8), DecodeError>)
        ensures
            r is Err ==> r == Err::<(usize, i8), DecodeError>(
                DecodeError::Truncated { offset: 0 },
            ),
    {
        if data.len() < 1 {
            return Err(DecodeError::Truncated { offset: 0 });
        }
        let v = decode_be(data, 0, 1);
        proof {
            assert(data@.subrange(0, 1) == data@.take(1));
            assert(pow256(1) == 0x100) by {
                reveal_with_fuel(pow256, 2);
            }
        }
        if v < 0x80 {
            Ok((1, v as i8))
        } else {
            Ok((1, ((v as i128) - 0x100) as i8))
        }
    }
}

impl Wire for i16 {
    type Model = i16;

    open spec fn model(&self) -> i16 {
        *self
    }

    open spec fn wf(m: i16) -> bool {
        true
    }

    open spec fn wire_of(m: i16) -> Seq<u8> {
        be_bytes(if m >= 0 { m as int } else { m + 0x10000 }, 2)
    }

    open spec fn parse_of(data: Seq<u8>) -> Option<(int, i16)> {
        if data.len() >= 2 {
            let v = be_value(data.take(2));
            Some((2, (if v < 0x8000 { v } else { v - 0x10000 }) as i16))
        } else {
            None
        }
    }
}

impl WireLaws for i16 {
    proof fn lemma_parse_wire(data: Seq<u8>) {
        if data.len() >= 2 {
            let s = data.take(2);
            lemma_be_value_bound(s);
            lemma_be_bytes_of_value(s);
            assert(pow256(2) == 0x10000) by {
                reveal_with_fuel(pow256, 3);
            }
        }
    }

    proof fn lemma_wire_parse(m: i16, rest: Seq<u8>) {
        let u: int = if m >= 0 { m as int } else { m + 0x10000 };
        lemma_be_bytes_len(u, 2);
        let w = be_bytes(u, 2);
        assert((w + rest).take(2) == w);
        assert(pow256(2) == 0x10000) by {
            reveal_with_fuel(pow256, 3);
        }
        lemma_be_value_of_bytes(u, 2);
    }
}

impl Serialize for i16 {
    fn serialize(&self) -> (r: Vec<u8>) {
        if *self >= 0 {
            encode_be(*self as u64, 2)
        } else {
            encode_be(((*self as i128) + 0x10000) as u64, 2)
        }
    }
}

impl Deserialize for i16 {
    fn deserialize(data: &[u8]) -> (r: Result<(usize, i16), DecodeError>)
        ensures
            r is Err ==> r == Err::<(usize, i16), DecodeError>(
                DecodeError::Truncated { offset: 0 },
            ),
    {
        if data.len() < 2 {
            return Err(DecodeError::Truncated { offset: 0 });
        }
        let v = decode_be(data, 0, 2);
        proof {
            assert(data@.subrange(0, 2) == data@.take(2));
            assert(pow256(2) == 0x10000) by {
                reveal_with_fuel(pow256, 3);
            }
        }
        if v < 0x8000 {
            Ok((2, v as i16))
        } else {
            Ok((2, ((v as i128) - 0x10000) as i16))
        }
    }
}

impl Wire for i32 {
    type Model = i32;

    open spec fn model(&self) -> i32 {
        *self
    }

    open spec fn wf(m: i32) -> bool {
        true
    }

    open spec fn wire_of(m: i32) -> Seq<u8> {
        be_bytes(if m >= 0 { m as int } else { m + 0x100000000 }, 4)
    }

    open spec fn parse_of(data: Seq<u8>) -> Option<(int, i32)> {
        if data.len() >= 4 {
            let v = be_value(data.take(4));
            Some((4, (if v < 0x80000000 { v } else { v - 0x100000000 }) as i32))
        } else {
            None
        }
    }
}

impl WireLaws for i32 {
    proof fn lemma_parse_wire(data: Seq<u8>) {
        if data.len() >= 4 {
            let s = data.take(4);
            lemma_be_value_bound(s);
            lemma_be_bytes_of_value(s);
            assert(pow256(4) == 0x100000000) by {
                reveal_with_fuel(pow256, 5);
            }
        }
    }

    proof fn lemma_wire_parse(m: i32, rest: Seq<u8>) {
        let u: int = if m >= 0 { m as int } else { m + 0x100000000 };
        lemma_be_bytes_len(u, 4);
        let w = be_bytes(u, 4);
        assert((w + rest).take(4) == w);
        assert(pow256(4) == 0x100000000) by {
            reveal_with_fuel(pow256, 5);
        }
        lemma_be_value_of_bytes(u, 4);
    }
}

impl Serialize for i32 {
    fn serialize(&self) -> (r: Vec<u8>) {
        if *self >= 0 {
            encode_be(*self as u64, 4)
        } else {
            encode_be(((*self as i128) + 0x100000000) as u64, 4)
        }
    }
}

impl Deserialize for i32 {
    fn deserialize(data: &[u8]) -> (r: Result<(usize, i32), DecodeError>)
        ensures
            r is Err ==> r == Err::<(usize, i32), DecodeError>(
                DecodeError::Truncated { offset: 0 },
            ),
    {
        if data.len() < 4 {
            return Err(DecodeError::Truncated { offset: 0 });
        }
        let v = decode_be(data, 0, 4);
        proof {
            assert(data@.subrange(0, 4) == data@.take(4));
            assert(pow256(4) == 0x100000000) by {
                reveal_with_fuel(pow256, 5);
            }
        }
        if v < 0x80000000 {
            Ok((4, v as i32))
        } else {
            Ok((4, ((v as i128) - 0x100000000) as i32))
        }
    }
}

impl Wire for i64 {
    type Model = i64;

    open spec fn model(&self) -> i64 {
        *self
    }

    open spec fn wf(m: i64) -> bool {
        true
    }

    open spec fn wire_of(m: i64) -> Seq<u8> {
        be_bytes(if m >= 0 { m as int } else { m + 0x10000000000000000 }, 8)
    }

    open spec fn parse_of(data: Seq<u8>) -> Option<(int, i64)> {
        if data.len() >= 8 {
            let v = be_value(data.take(8));
            Some((8, (if v < 0x8000000000000000 { v } else { v - 0x10000000000000000 }) as i64))
        } else {
            None
        }
    }
}

impl WireLaws for i64 {
    proof fn lemma_parse_wire(data: Seq<u8>) {
        if data.len() >= 8 {
            let s = data.take(8);
            lemma_be_value_bound(s);
            lemma_be_bytes_of_value(s);
            assert(pow256(8) == 0x10000000000000000) by {
                reveal_with_fuel(pow256, 9);
            }
        }
    }

    proof fn lemma_wire_parse(m: i64, rest: Seq<u8>) {
        let u: int = if m >= 0 { m as int } else { m + 0x10000000000000000 };
        lemma_be_bytes_len(u, 8);
        let w = be_bytes(u, 8);
        assert((w + rest).take(8) == w);
        assert(pow256(8) == 0x10000000000000000) by {
            reveal_with_fuel(pow256, 9);
        }
        lemma_be_value_of_bytes(u, 8);
    }
}

impl Serialize for i64 {
    fn serialize(&self) -> (r: Vec<u8>) {
        if *self >= 0 {
            encode_be(*self as u64, 8)
        } else {
            encode_be(((*self as i128) + 0x10000000000000000) as u64, 8)
        }
    }
}

impl Deserialize for i64 {
    fn deserialize(data: &[u8]) -> (r: Result<(usize, i64), DecodeError>)
        ensures
            r is Err ==> r == Err::<(usize, i64), DecodeError>(
                DecodeError::Truncated { offset: 0 },
            ),
    {
        if data.len() < 8 {
            return Err(DecodeError::Truncated { offset: 0 });
        }
        let v = decode_be(data, 0, 8);
        proof {
            assert(data@.subrange(0, 8) == data@.take(8));
            assert(pow256(8) == 0x10000000000000000) by {
                reveal_with_fuel(pow256, 9);
            }
        }
        if v < 0x8000000000000000 {
            Ok((8, v as i64))
        } else {
            Ok((8, ((v as i128) - 0x10000000000000000) as i64))
        }
    }
}

} // verus!
