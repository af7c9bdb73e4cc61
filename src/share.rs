//! A single share and its flat byte form.
//!
//! Layout: byte 0 holds `x`, bytes `1..=k` hold `y[0..k)` in order.
//! There is no length prefix, checksum or version byte.

use vstd::prelude::*;

use crate::field::GF256;

verus! {

/// One evaluation point `(x, y[0..k))` of the sharing polynomials.
///
/// `x` identifies the share; `y` holds one field element per byte of the
/// secret, in the secret's byte order. Neither the non-zero `x` nor equal
/// `y` lengths across a set of shares is checked here.
#[derive(Clone, Debug)]
pub struct Share {
    pub x: GF256,
    pub y: Vec<GF256>,
}

/// Why a byte sequence does not decode to a share.
#[derive(Clone, Copy, Debug, PartialEq, Eq, Structural)]
pub enum ShareError {
    /// The input has no byte for `x`.
    InvalidShareLength,
}

/// A share as a mathematical value: its point and its sequence of values.
pub struct ShareModel {
    pub x: GF256,
    pub y: Seq<GF256>,
}

impl View for Share {
    type V = ShareModel;

    open spec fn view(&self) -> ShareModel {
        ShareModel { x: self.x, y: self.y@ }
    }
}

/// The raw bytes of a sequence of field elements, in order.
pub open spec fn bytes_of(es: Seq<GF256>) -> Seq<u8> {
    es.map_values(|e: GF256| e.byte())
}

/// The field elements carried by a sequence of bytes, in order.
pub open spec fn elements_of(bs: Seq<u8>) -> Seq<GF256> {
    bs.map_values(|b: u8| GF256(b))
}

/// The byte form of a share: `x`, then each element of `y`.
pub open spec fn encoding(s: ShareModel) -> Seq<u8> {
    seq![s.x.byte()] + bytes_of(s.y)
}

/// The share that a byte sequence holds, or `None` when it is empty.
pub open spec fn decoding(bs: Seq<u8>) -> Option<ShareModel> {
    if bs.len() == 0 {
        None
    } else {
        Some(ShareModel { x: GF256(bs[0]), y: elements_of(bs.drop_first()) })
    }
}

impl Share {
    /// The byte form of this share: its length is `y.len() + 1`, byte 0 is
    /// `x`, and byte `i + 1` is `y[i]`.
    pub fn encode(&self) -> (r: Vec<u8>)
        ensures
            r@ == encoding(self@),
    {
        let mut bytes: Vec<u8> = Vec::with_capacity(self.y.len().saturating_add(1));
        bytes.push(self.x.0);
        let mut i: usize = 0;
        while i < self.y.len()
            invariant
                i <= self.y.len(),
                bytes@ == seq![self.x.byte()] + bytes_of(self.y@.take(i as int)),
            decreases self.y.len() - i,
        {
            bytes.push(self.y[i].0);
            proof {
                assert(self.y@.take(i + 1) == self.y@.take(i as int).push(self.y@[i as int]));
            }
            i = i + 1;
            proof {
                assert(bytes_of(self.y@.take(i as int)) =~= bytes_of(self.y@.take(i - 1)).push(
                    self.y@[i - 1].byte(),
                ));
            }
        }
        proof {
            assert(self.y@.take(i as int) == self.y@);
        }
        bytes
    }

    /// The share that `bytes` holds: `x` from byte 0, `y` from the bytes
    /// after it, in order. Fails with `InvalidShareLength` exactly when
    /// `bytes` is empty.
    pub fn decode(bytes: &[u8]) -> (r: Result<Share, ShareError>)
        ensures
            r is Ok <==> bytes@.len() > 0,
            r is Err ==> r == Err::<Share, ShareError>(ShareError::InvalidShareLength),
            r matches Ok(s) ==> decoding(bytes@) == Some(s@),
    {
        if bytes.len() == 0 {
            return Err(ShareError::InvalidShareLength);
        }
        let x = GF256(bytes[0]);
        let mut y: Vec<GF256> = Vec::with_capacity(bytes.len() - 1);
        let mut i: usize = 1;
        while i < bytes.len()
            invariant
                1 <= i <= bytes@.len(),
                y@ =~= elements_of(bytes@.subrange(1, i as int)),
            decreases bytes.len() - i,
        {
            y.push(GF256(bytes[i]));
            i = i + 1;
            proof {
                assert(elements_of(bytes@.subrange(1, i as int)) =~= elements_of(
                    bytes@.subrange(1, i - 1),
                ).push(GF256(bytes@[i - 1])));
            }
        }
        proof {
            assert(bytes@.subrange(1, i as int) =~= bytes@.drop_first());
        }
        Ok(Share { x, y })
    }
}

/// Byte form of a share, as `encode` gives it.
impl From<&Share> for Vec<u8> {
    fn from(s: &Share) -> (r: Vec<u8>)
        ensures
            r@ == encoding(s@),
    {
        s.encode()
    }
}

// A `Vec` cannot be built in a spec function, so the conversion is
// described by the `ensures` of `from` above rather than by `from_spec`.
impl vstd::std_specs::convert::FromSpecImpl<&Share> for Vec<u8> {
    open spec fn obeys_from_spec() -> bool {
        false
    }

    open spec fn from_spec(s: &Share) -> Vec<u8> {
        arbitrary()
    }
}

/// Share held by a byte sequence, as `decode` gives it.
impl TryFrom<&[u8]> for Share {
    type Error = ShareError;

    fn try_from(bytes: &[u8]) -> (r: Result<Share, ShareError>)
        ensures
            r is Ok <==> bytes@.len() > 0,
            r is Err ==> r == Err::<Share, ShareError>(ShareError::InvalidShareLength),
            r matches Ok(s) ==> decoding(bytes@) == Some(s@),
    {
        Share::decode(bytes)
    }
}

// As for `From` above: the `ensures` of `try_from` describe the result.
impl vstd::std_specs::convert::TryFromSpecImpl<&[u8]> for Share {
    open spec fn obeys_try_from_spec() -> bool {
        false
    }

    open spec fn try_from_spec(bytes: &[u8]) -> Result<Share, ShareError> {
        arbitrary()
    }
}

/// Decoding the byte form of any share gives that share back: the same
/// `x`, and the same `y` with the same length, element by element. This
/// holds for an empty `y` too.
pub proof fn lemma_decode_encode(s: ShareModel)
    ensures
        decoding(encoding(s)) == Some(s),
{
    let bs = encoding(s);
    assert(bs.drop_first() =~= bytes_of(s.y));
    assert(elements_of(bytes_of(s.y)) =~= s.y);
}

/// Encoding the share that a non-empty byte sequence holds gives that byte
/// sequence back.
pub proof fn lemma_encode_decode(bs: Seq<u8>)
    requires
        bs.len() > 0,
    ensures
        decoding(bs) matches Some(s) && encoding(s) == bs,
{
    let s = decoding(bs).unwrap();
    assert(bytes_of(elements_of(bs.drop_first())) =~= bs.drop_first());
    assert(encoding(s) =~= bs);
}

/// A round trip keeps each element of `y` at its own position: element
/// `i` is byte `i + 1` of the byte form, and comes back as element `i`.
pub proof fn lemma_round_trip_keeps_positions(s: ShareModel, i: int)
    requires
        0 <= i < s.y.len(),
    ensures
        encoding(s)[i + 1] == s.y[i].byte(),
        decoding(encoding(s)) matches Some(t) && t.y[i] == s.y[i],
{
    lemma_decode_encode(s);
}

} // verus!
