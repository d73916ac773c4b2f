//! Wire format for text: an 8-byte length prefix counting bytes, then the
//! UTF-8 bytes; decoding validates the UTF-8 and fails recoverably on bad
//! bytes.

use vstd::prelude::*;

use vstd::slice::{slice_subrange, slice_to_vec};
use vstd::utf8::{
    decode_utf8, decode_utf8_encode_utf8, encode_utf8, encode_utf8_decode_utf8,
    encode_utf8_valid_utf8, valid_utf8,
};

use crate::wire::bytes::{
    be_bytes, be_value, decode_be, encode_be, lemma_be_bytes_len, lemma_be_bytes_of_value,
    lemma_be_value_bound, lemma_be_value_of_bytes, pow256,
};
use crate::wire::{DecodeError, Deserialize, Serialize, Wire, WireLaws};

verus! {

/// Relies on std::str::from_utf8: it returns `Ok` exactly when the bytes
/// are valid UTF-8, and the resulting text decodes those bytes; the heap
/// copy is made with str::to_owned.
#[verifier::external_body]
fn utf8_to_string(v: &[u8]) -> (r: Option<String>)
    ensures
        r is Some <==> valid_utf8(v@),
        r matches Some(s) ==> s@ == decode_utf8(v@),
{
    std::str::from_utf8(v).ok().map(|s| s.to_owned())
}

impl Wire for String {
    type Model = Seq<char>;

    open spec fn model(&self) -> Seq<char> {
        self@
    }

    open spec fn wf(m: Seq<char>) -> bool {
        encode_utf8(m).len() < pow256(8)
    }

    open spec fn wire_of(m: Seq<char>) -> Seq<u8> {
        be_bytes(encode_utf8(m).len() as int, 8) + encode_utf8(m)
    }

    open spec fn parse_of(data: Seq<u8>) -> Option<(int, Seq<char>)> {
        if data.len() < 8 {
            None
        } else {
            let n = be_value(data.take(8));
            if data.len() < 8 + n {
                None
            } else {
                let b = data.subrange(8, 8 + n);
                if valid_utf8(b) {
                    Some((8 + n, decode_utf8(b)))
                } else {
                    None
                }
            }
        }
    }
}

impl WireLaws for String {
    proof fn lemma_parse_wire(data: Seq<u8>) {
        if data.len() >= 8 {
            let n = be_value(data.take(8));
            lemma_be_value_bound(data.take(8));
            if data.len() >= 8 + n {
                let b = data.subrange(8, 8 + n);
                if valid_utf8(b) {
                    let m = decode_utf8(b);
                    decode_utf8_encode_utf8(b);
                    lemma_be_bytes_of_value(data.take(8));
                    assert(data.take(8 + n) == data.take(8) + b);
                    assert(Self::wire_of(m) == be_bytes(n, 8) + b);
                }
            }
        }
    }

    proof fn lemma_wire_parse(m: Seq<char>, rest: Seq<u8>) {
        let b = encode_utf8(m);
        let l = b.len() as int;
        lemma_be_bytes_len(l, 8);
        let data = Self::wire_of(m) + rest;
        assert(data.take(8) == be_bytes(l, 8));
        lemma_be_value_of_bytes(l, 8);
        assert(data.subrange(8, 8 + l) == b);
        encode_utf8_valid_utf8(m);
        encode_utf8_decode_utf8(m);
    }
}

impl Serialize for String {
    fn serialize(&self) -> (r: Vec<u8>) {
        let bytes = self.as_str().as_bytes();
        proof {
            assert(pow256(8) == 0x10000000000000000) by {
                reveal_with_fuel(pow256, 9);
            }
        }
        let mut result = encode_be(bytes.len() as u64, 8);
        let mut tail = slice_to_vec(bytes);
        result.append(&mut tail);
        result
    }
}

impl Deserialize for String {
    fn deserialize(data: &[u8]) -> (r: Result<(usize, String), DecodeError>)
        ensures
            r is Err && data@.len() < 8 ==> r == Err::<(usize, String), DecodeError>(
                DecodeError::Truncated { offset: 0 },
            ),
            r is Err && data@.len() >= 8 && data@.len() < 8 + be_value(data@.take(8)) ==> r
                == Err::<(usize, String), DecodeError>(DecodeError::Truncated { offset: 8 }),
            r is Err && data@.len() >= 8 && data@.len() >= 8 + be_value(data@.take(8)) ==> r
                == Err::<(usize, String), DecodeError>(DecodeError::InvalidUtf8 { offset: 8 }),
    {
        let dlen = data.len();
        if dlen < 8 {
            return Err(DecodeError::Truncated { offset: 0 });
        }
        let n64 = decode_be(data, 0, 8);
        proof {
            assert(data@.subrange(0, 8) == data@.take(8));
        }
        if n64 > (usize::MAX - 8) as u64 {
            // The text would end past any addressable buffer, this one
            // included.
            return Err(DecodeError::Truncated { offset: 8 });
        }
        let n = n64 as usize;
        if dlen < 8 + n {
            return Err(DecodeError::Truncated { offset: 8 });
        }
        let bytes = slice_subrange(data, 8, 8 + n);
        match utf8_to_string(bytes) {
            Some(s) => Ok((8 + n, s)),
            None => Err(DecodeError::InvalidUtf8 { offset: 8 }),
        }
    }
}

} // verus!
