//! Wire formats for element sequences: a dynamic-length list travels as an
//! 8-byte length prefix followed by each element's encoding; a fixed-size
//! array as the bare concatenation, its length being part of the type.

use vstd::prelude::*;

use crate::wire::bytes::{
    be_bytes, be_value, decode_be, encode_be, lemma_be_bytes_len, lemma_be_bytes_of_value,
    lemma_be_value_bound, lemma_be_value_of_bytes, pow256,
};
use crate::wire::{DecodeError, Deserialize, Serialize, Wire, WireLaws};

verus! {

/// The models of a sequence of values.
pub open spec fn models_of<T: Wire>(vs: Seq<T>) -> Seq<T::Model> {
    vs.map_values(|v: T| v.model())
}

/// Whether every model in a sequence is encodable.
pub open spec fn elems_wf<T: Wire>(ms: Seq<T::Model>) -> bool {
    forall|i: int| 0 <= i < ms.len() ==> T::wf(#[trigger] ms[i])
}

/// The concatenation of the encodings of a sequence of models.
pub open spec fn elems_wire<T: Wire>(ms: Seq<T::Model>) -> Seq<u8>
    decreases ms.len(),
{
    if ms.len() == 0 {
        Seq::empty()
    } else {
        T::wire_of(ms[0]) + elems_wire::<T>(ms.drop_first())
    }
}

/// Exactly `n` consecutive encodings read off the front of `data`.
pub open spec fn parse_elems<T: Wire>(data: Seq<u8>, n: nat) -> Option<(int, Seq<T::Model>)>
    decreases n,
{
    if n == 0 {
        Some((0, Seq::empty()))
    } else {
        match T::parse_of(data) {
            Some((k, m)) => match parse_elems::<T>(data.skip(k), (n - 1) as nat) {
                Some((k2, ms)) => Some((k + k2, seq![m] + ms)),
                None => None,
            },
            None => None,
        }
    }
}

/// Appending one model appends its encoding.
pub proof fn lemma_elems_wire_push<T: Wire>(ms: Seq<T::Model>, m: T::Model)
    ensures
        elems_wire::<T>(ms.push(m)) == elems_wire::<T>(ms) + T::wire_of(m),
    decreases ms.len(),
{
    if ms.len() == 0 {
        assert(ms.push(m)[0] == m);
        assert(ms.push(m).drop_first() =~= Seq::<T::Model>::empty());
        assert(elems_wire::<T>(ms.push(m)) == T::wire_of(m) + elems_wire::<T>(
            Seq::<T::Model>::empty(),
        ));
        assert(elems_wire::<T>(Seq::<T::Model>::empty()) =~= Seq::<u8>::empty());
        assert(T::wire_of(m) + Seq::<u8>::empty() =~= T::wire_of(m));
        assert(elems_wire::<T>(ms) =~= Seq::<u8>::empty());
        assert(elems_wire::<T>(ms) + T::wire_of(m) =~= T::wire_of(m));
        assert(elems_wire::<T>(ms.push(m)) =~= elems_wire::<T>(ms) + T::wire_of(m));
    } else {
        assert(ms.push(m)[0] == ms[0]);
        assert(ms.push(m).drop_first() =~= ms.drop_first().push(m));
        lemma_elems_wire_push::<T>(ms.drop_first(), m);
        assert(T::wire_of(ms[0]) + (elems_wire::<T>(ms.drop_first()) + T::wire_of(m)) =~= (
        T::wire_of(ms[0]) + elems_wire::<T>(ms.drop_first())) + T::wire_of(m));
        assert(elems_wire::<T>(ms.push(m)) =~= elems_wire::<T>(ms) + T::wire_of(m));
    }
}

/// Law half for sequences: what `parse_elems` reads is exactly the parsed
/// models' concatenated encoding, and those models are well formed.
pub proof fn lemma_parse_elems_wire<T: WireLaws>(data: Seq<u8>, n: nat)
    ensures
        parse_elems::<T>(data, n) matches Some((k, ms)) ==> {
            &&& 0 <= k <= data.len()
            &&& ms.len() == n
            &&& elems_wf::<T>(ms)
            &&& data.take(k) == elems_wire::<T>(ms)
        },
    decreases n,
{
    if n > 0 {
        T::lemma_parse_wire(data);
        if let Some((k1, m)) = T::parse_of(data) {
            lemma_parse_elems_wire::<T>(data.skip(k1), (n - 1) as nat);
            if let Some((k2, ms2)) = parse_elems::<T>(data.skip(k1), (n - 1) as nat) {
                let ms = seq![m] + ms2;
                assert(ms[0] == m);
                assert(ms.drop_first() =~= ms2);
                assert(data.take(k1 + k2) =~= data.take(k1) + data.skip(k1).take(k2));
                assert(elems_wire::<T>(ms) == T::wire_of(m) + elems_wire::<T>(ms2));
                assert forall|i: int| 0 <= i < ms.len() implies T::wf(#[trigger] ms[i]) by {
                    if i > 0 {
                        assert(ms[i] == ms2[i - 1]);
                    }
                }
            }
        }
    }
}

/// Law half for sequences: a concatenation of encodings, whatever follows
/// it, parses back to its models.
pub proof fn lemma_elems_wire_parse<T: WireLaws>(ms: Seq<T::Model>, rest: Seq<u8>)
    requires
        elems_wf::<T>(ms),
    ensures
        parse_elems::<T>(elems_wire::<T>(ms) + rest, ms.len()) == Some(
            (elems_wire::<T>(ms).len() as int, ms),
        ),
    decreases ms.len(),
{
    if ms.len() == 0 {
        assert(elems_wire::<T>(ms) + rest =~= rest);
        assert(ms =~= Seq::<T::Model>::empty());
    } else {
        let m0 = ms[0];
        let w0 = T::wire_of(m0);
        let tail = ms.drop_first();
        let tailw = elems_wire::<T>(tail);
        let data = elems_wire::<T>(ms) + rest;
        assert(T::wf(m0));
        assert(data =~= w0 + (tailw + rest));
        T::lemma_wire_parse(m0, tailw + rest);
        assert(data.skip(w0.len() as int) =~= tailw + rest);
        assert forall|i: int| 0 <= i < tail.len() implies T::wf(#[trigger] tail[i]) by {
            assert(tail[i] == ms[i + 1]);
        }
        lemma_elems_wire_parse::<T>(tail, rest);
        assert(seq![m0] + tail =~= ms);
    }
}

impl<T: Wire> Wire for Vec<T> {
    type Model = Seq<T::Model>;

    open spec fn model(&self) -> Seq<T::Model> {
        models_of::<T>(self@)
    }

    open spec fn wf(m: Seq<T::Model>) -> bool {
        m.len() < pow256(8) && elems_wf::<T>(m)
    }

    open spec fn wire_of(m: Seq<T::Model>) -> Seq<u8> {
        be_bytes(m.len() as int, 8) + elems_wire::<T>(m)
    }

    open spec fn parse_of(data: Seq<u8>) -> Option<(int, Seq<T::Model>)> {
        if data.len() < 8 {
            None
        } else {
            let n = be_value(data.take(8));
            match parse_elems::<T>(data.skip(8), n as nat) {
                Some((k, ms)) => Some((8 + k, ms)),
                None => None,
            }
        }
    }

}

impl<T: WireLaws> WireLaws for Vec<T> {
    proof fn lemma_parse_wire(data: Seq<u8>) {
        if data.len() >= 8 {
            let n = be_value(data.take(8));
            lemma_be_value_bound(data.take(8));
            lemma_parse_elems_wire::<T>(data.skip(8), n as nat);
            if let Some((k, ms)) = parse_elems::<T>(data.skip(8), n as nat) {
                lemma_be_bytes_of_value(data.take(8));
                assert(data.take(8 + k) =~= data.take(8) + data.skip(8).take(k));
            }
        }
    }

    proof fn lemma_wire_parse(m: Seq<T::Model>, rest: Seq<u8>) {
        let l = m.len() as int;
        let ew = elems_wire::<T>(m);
        lemma_be_bytes_len(l, 8);
        let data = Self::wire_of(m) + rest;
        assert(data.take(8) =~= be_bytes(l, 8));
        lemma_be_value_of_bytes(l, 8);
        assert(data.skip(8) =~= ew + rest);
        lemma_elems_wire_parse::<T>(m, rest);
    }
}

impl<T: Serialize> Serialize for Vec<T> {
    fn serialize(&self) -> (r: Vec<u8>) {
        proof {
            assert(pow256(8) == 0x10000000000000000) by {
                reveal_with_fuel(pow256, 9);
            }
        }
        let n = self.len();
        let mut result = encode_be(n as u64, 8);
        let ghost prefix = result@;
        let ghost ms = models_of::<T>(self@);
        let mut i: usize = 0;
        while i < n
            invariant
                n == self@.len(),
                i <= n,
                ms == models_of::<T>(self@),
                prefix == be_bytes(n as int, 8),
                result@ == prefix + elems_wire::<T>(ms.take(i as int)),
                forall|j: int| 0 <= j < i ==> T::wf(#[trigger] ms[j]),
            decreases n - i,
        {
            let mut ev = self[i].serialize();
            proof {
                assert(ms[i as int] == self@[i as int].model());
                lemma_elems_wire_push::<T>(ms.take(i as int), ms[i as int]);
                assert(ms.take(i as int).push(ms[i as int]) =~= ms.take(i + 1));
            }
            result.append(&mut ev);
            i = i + 1;
        }
        proof {
            assert(ms.take(n as int) =~= ms);
        }
        result
    }
}

impl<T: Deserialize + WireLaws> Deserialize for Vec<T> {
    fn deserialize(data: &[u8]) -> (r: Result<(usize, Vec<T>), DecodeError>) {
        let dlen = data.len();
        if dlen < 8 {
            return Err(DecodeError::Truncated { offset: 0 });
        }
        let n64 = decode_be(data, 0, 8);
        proof {
            assert(data@.subrange(0, 8) == data@.take(8));
        }
        let mut result: Vec<T> = Vec::new();
        let mut off: usize = 8;
        let mut i: u64 = 0;
        while i < n64
            invariant
                data@.len() == dlen <= usize::MAX,
                dlen >= 8,
                (n64 as int) == be_value(data@.take(8)),
                8 <= off <= dlen,
                i <= n64,
                result@.len() == i,
                elems_wf::<T>(models_of::<T>(result@)),
                match parse_elems::<T>(data@.skip(off as int), (n64 - i) as nat) {
                    Some((k2, ms2)) => parse_elems::<T>(data@.skip(8), n64 as nat) == Some(
                        ((off - 8) + k2, models_of::<T>(result@) + ms2),
                    ),
                    None => parse_elems::<T>(data@.skip(8), n64 as nat) is None,
                },
            decreases n64 - i,
        {
            let sub = slice_tail(data, off);
            match T::deserialize(sub) {
                Ok((k, v)) => {
                    proof {
                        T::lemma_parse_wire(sub@);
                        assert(data@.skip(off as int).skip(k as int) =~= data@.skip(
                            off + k,
                        ));
                        assert(models_of::<T>(result@.push(v)) =~= models_of::<T>(
                            result@,
                        ).push(v.model()));
                        assert((models_of::<T>(result@) + seq![v.model()]) =~= models_of::<T>(
                            result@,
                        ).push(v.model()));
                        assert forall|k2: int, ms2: Seq<T::Model>|
                            parse_elems::<T>(data@.skip(off + k), ((n64 - i) - 1) as nat)
                                == Some((k2, ms2)) implies (models_of::<T>(result@) + (
                        seq![v.model()] + ms2)) == (models_of::<T>(result@.push(v)) + ms2) by {
                            assert((models_of::<T>(result@) + (seq![v.model()] + ms2))
                                =~= (models_of::<T>(result@.push(v)) + ms2));
                        }
                    }
                    result.push(v);
                    off = off + k;
                    i = i + 1;
                }
                Err(e) => {
                    return Err(shift_offset(e, off));
                },
            }
        }
        proof {
            assert(models_of::<T>(result@) + Seq::<T::Model>::empty() =~= models_of::<T>(
                result@,
            ));
        }
        Ok((off, result))
    }
}

/// The tail of a slice from `off` on.
pub(crate) fn slice_tail<'a>(data: &'a [u8], off: usize) -> (r: &'a [u8])
    requires
        off <= data@.len(),
    ensures
        r@ == data@.skip(off as int),
{
    let r = vstd::slice::slice_subrange(data, off, data.len());
    proof {
        assert(data@.subrange(off as int, data@.len() as int) == data@.skip(off as int));
    }
    r
}

/// Rebases a decode failure reported against a suffix of the input onto the
/// whole input, saturating rather than wrapping.
pub(crate) fn shift_offset(e: DecodeError, base: usize) -> (r: DecodeError)
    ensures
        r is Truncated <==> e is Truncated,
        r is InvalidUtf8 <==> e is InvalidUtf8,
        r is BadDiscriminant <==> e is BadDiscriminant,
        r is LengthOverflow <==> e is LengthOverflow,
{
    match e {
        DecodeError::Truncated { offset } => DecodeError::Truncated {
            offset: saturating_add(base, offset),
        },
        DecodeError::InvalidUtf8 { offset } => DecodeError::InvalidUtf8 {
            offset: saturating_add(base, offset),
        },
        DecodeError::BadDiscriminant { offset, value } => DecodeError::BadDiscriminant {
            offset: saturating_add(base, offset),
            value,
        },
        DecodeError::LengthOverflow { offset } => DecodeError::LengthOverflow {
            offset: saturating_add(base, offset),
        },
    }
}

fn saturating_add(a: usize, b: usize) -> (r: usize)
    ensures
        r == if a + b <= usize::MAX {
            a + b
        } else {
            usize::MAX as int
        },
{
    if a <= usize::MAX - b {
        a + b
    } else {
        usize::MAX
    }
}

impl<T: Wire, const N: usize> Wire for [T; N] {
    type Model = Seq<T::Model>;

    open spec fn model(&self) -> Seq<T::Model> {
        models_of::<T>(self@)
    }

    open spec fn wf(m: Seq<T::Model>) -> bool {
        m.len() == N && elems_wf::<T>(m)
    }

    open spec fn wire_of(m: Seq<T::Model>) -> Seq<u8> {
        elems_wire::<T>(m)
    }

    open spec fn parse_of(data: Seq<u8>) -> Option<(int, Seq<T::Model>)> {
        parse_elems::<T>(data, N as nat)
    }

}

impl<T: WireLaws, const N: usize> WireLaws for [T; N] {
    proof fn lemma_parse_wire(data: Seq<u8>) {
        lemma_parse_elems_wire::<T>(data, N as nat);
    }

    proof fn lemma_wire_parse(m: Seq<T::Model>, rest: Seq<u8>) {
        lemma_elems_wire_parse::<T>(m, rest);
    }
}

impl<T: Serialize, const N: usize> Serialize for [T; N] {
    fn serialize(&self) -> (r: Vec<u8>) {
        let mut result: Vec<u8> = Vec::new();
        let ghost ms = models_of::<T>(self@);
        let mut i: usize = 0;
        while i < N
            invariant
                i <= N,
                ms == models_of::<T>(self@),
                ms.len() == N,
                result@ == elems_wire::<T>(ms.take(i as int)),
                forall|j: int| 0 <= j < i ==> T::wf(#[trigger] ms[j]),
            decreases N - i,
        {
            let mut ev = vstd::array::array_index_get(self, i).serialize();
            proof {
                assert(ms[i as int] == self@[i as int].model());
                lemma_elems_wire_push::<T>(ms.take(i as int), ms[i as int]);
                assert(ms.take(i as int).push(ms[i as int]) =~= ms.take(i + 1));
            }
            result.append(&mut ev);
            i = i + 1;
        }
        proof {
            assert(ms.take(N as int) =~= ms);
        }
        result
    }
}

/// Relies on Vec's conversion to a fixed-size array (TryFrom): a vector of
/// exactly N elements becomes the array of those elements.
#[verifier::external_body]
fn vec_to_array<T, const N: usize>(v: Vec<T>) -> (r: [T; N])
    requires
        v@.len() == N,
    ensures
        r@ == v@,
{
    v.try_into().ok().unwrap()
}

impl<T: Deserialize + WireLaws, const N: usize> Deserialize for [T; N] {
    fn deserialize(data: &[u8]) -> (r: Result<(usize, [T; N]), DecodeError>) {
        let dlen = data.len();
        let mut result: Vec<T> = Vec::new();
        let mut off: usize = 0;
        let mut i: usize = 0;
        proof {
            assert(data@.skip(0) =~= data@);
        }
        while i < N
            invariant
                data@.len() == dlen <= usize::MAX,
                off <= dlen,
                i <= N,
                result@.len() == i,
                match parse_elems::<T>(data@.skip(off as int), (N - i) as nat) {
                    Some((k2, ms2)) => parse_elems::<T>(data@, N as nat) == Some(
                        (off + k2, models_of::<T>(result@) + ms2),
                    ),
                    None => parse_elems::<T>(data@, N as nat) is None,
                },
            decreases N - i,
        {
            let sub = slice_tail(data, off);
            match T::deserialize(sub) {
                Ok((k, v)) => {
                    proof {
                        T::lemma_parse_wire(sub@);
                        assert(data@.skip(off as int).skip(k as int) =~= data@.skip(
                            off + k,
                        ));
                        assert forall|k2: int, ms2: Seq<T::Model>|
                            parse_elems::<T>(data@.skip(off + k), ((N - i) - 1) as nat)
                                == Some((k2, ms2)) implies (models_of::<T>(result@) + (
                        seq![v.model()] + ms2)) == (models_of::<T>(result@.push(v)) + ms2) by {
                            assert((models_of::<T>(result@) + (seq![v.model()] + ms2))
                                =~= (models_of::<T>(result@.push(v)) + ms2));
                        }
                    }
                    result.push(v);
                    off = off + k;
                    i = i + 1;
                }
                Err(e) => {
                    return Err(shift_offset(e, off));
                },
            }
        }
        proof {
            assert(models_of::<T>(result@) + Seq::<T::Model>::empty() =~= models_of::<T>(
                result@,
            ));
        }
        let arr: [T; N] = vec_to_array(result);
        Ok((off, arr))
    }
}

} // verus!
