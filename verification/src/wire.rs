//! The wire codec: a deterministic, byte-exact binary format derivable from
//! a type's structure, with a proved encode/decode round trip.

pub mod bytes;
pub mod handle;
pub mod ints;
pub mod list;
pub mod text;

use vstd::prelude::*;

verus! {

/// A recoverable decoding failure, with enough detail to log: the byte
/// offset at which decoding failed and, for a bad discriminant, the
/// offending value.
#[derive(Clone, Copy, Debug, PartialEq, Eq, Structural)]
pub enum DecodeError {
    /// The input ended before the field starting at `offset` was complete.
    Truncated { offset: usize },
    /// The length-prefixed text starting at `offset` is not valid UTF-8.
    InvalidUtf8 { offset: usize },
    /// The discriminant at `offset` names no variant of the decoded type.
    BadDiscriminant { offset: usize, value: u64 },
    /// A decoded length does not fit this machine's address width.
    LengthOverflow { offset: usize },
}

/// A type with a wire format. The format is described mathematically:
/// `wire_of` gives the encoding of a value's model, `parse_of` reads one
/// value's model off the front of a byte string, and the two proof
/// obligations tie them together, so that every implementation carries the
/// round-trip law.
pub trait Wire {
    /// The mathematical model of a value (its view).
    type Model;

    /// The model of this value.
    open spec fn model(&self) -> Self::Model {
        arbitrary()
    }

    /// Which models are encodable (a dynamic length must fit its 8-byte
    /// length prefix; every executable value's model is well-formed). The
    /// default declares no model encodable: a type that does not spell out
    /// its format has none.
    open spec fn wf(m: Self::Model) -> bool {
        false
    }

    /// The byte string a model encodes to.
    open spec fn wire_of(m: Self::Model) -> Seq<u8> {
        arbitrary()
    }

    /// The model read off the front of `data`, with the number of bytes it
    /// took, or `None` if no well-formed encoding starts `data`. The
    /// default parses nothing.
    open spec fn parse_of(data: Seq<u8>) -> Option<(int, Self::Model)> {
        None
    }
}

/// The two laws that tie a type's `wire_of` and `parse_of` together. Every
/// format the library defines carries a proof of both; together they give
/// the encode/decode round trip (`round_trip`).
pub trait WireLaws: Wire {
    /// Law: whatever parses was the parsed model's exact encoding.
    proof fn lemma_parse_wire(data: Seq<u8>)
        ensures
            Self::parse_of(data) matches Some((n, m)) ==> 0 <= n <= data.len() && Self::wf(m)
                && data.take(n) == Self::wire_of(m),
    ;

    /// Law: an encoding, whatever follows it, parses back to its model.
    proof fn lemma_wire_parse(m: Self::Model, rest: Seq<u8>)
        requires
            Self::wf(m),
        ensures
            Self::parse_of(Self::wire_of(m) + rest) == Some(
                (Self::wire_of(m).len() as int, m),
            ),
    ;
}

/// Serializes the type into a vector of bytes: exactly the wire form of the
/// value's model.
pub trait Serialize: Wire {
    fn serialize(&self) -> (r: Vec<u8>)
        ensures
            Self::wf(self.model()),
            r@ == Self::wire_of(self.model()),
    ;
}

/// Attempts to deserialize an instance of `Self` from the front of a byte
/// slice: the number of bytes read and the value, exactly as the spec-level
/// parse has them, or a decode failure exactly when nothing parses.
pub trait Deserialize: Wire + Sized {
    fn deserialize(data: &[u8]) -> (r: Result<(usize, Self), DecodeError>)
        ensures
            match r {
                Ok((n, v)) => Self::parse_of(data@) == Some((n as int, v.model())),
                Err(_) => Self::parse_of(data@) is None,
            },
    ;
}

/// Law (the codec round trip): for every value of a type with a wire format,
/// decoding its encoding succeeds, consumes the whole encoding, and recovers
/// the value's model.
pub fn round_trip<T: Serialize + Deserialize + WireLaws>(v: &T) -> (r: (
    Vec<u8>,
    Result<(usize, T), DecodeError>,
))
    ensures
        r.0@ == T::wire_of(v.model()),
        r.1 matches Ok((n, w)) && n == r.0@.len() && w.model() == v.model(),
{
    let encoded = v.serialize();
    proof {
        T::lemma_wire_parse(v.model(), Seq::empty());
        assert(T::wire_of(v.model()) + Seq::<u8>::empty() == T::wire_of(v.model()));
    }
    let decoded = T::deserialize(encoded.as_slice());
    (encoded, decoded)
}

} // verus!
