//! The discrete-logarithm group: points of the secp256k1 curve, written
//! multiplicatively, and the scalars that act on them.
//!
//! A group element is held by its wire encoding: `GROUP_SIZE` bytes that are
//! all zero for the identity and the compressed point otherwise. A scalar is
//! held by its canonical big-endian bytes. The curve arithmetic itself is the
//! `k256` crate's.

use vstd::prelude::*;
use k256::elliptic_curve::sec1::ToEncodedPoint;
use k256::elliptic_curve::ops::Reduce;
use crate::bytes::{append_bytes, copy_range, same_bytes, zeroes};
use crate::serialization::SerializationError;

verus! {

/// Number of bytes of an encoded group element.
pub const GROUP_SIZE: usize = 33;

/// Number of bytes of an encoded scalar.
pub const SCALAR_SIZE: usize = 32;

/// The value of a byte string read as a big-endian number.
pub open spec fn be_value(s: Seq<u8>) -> nat
    decreases s.len(),
{
    if s.len() == 0 {
        0
    } else {
        be_value(s.drop_last()) * 256 + s.last() as nat
    }
}

/// The order of the group: the number of its elements.
pub open spec fn group_order() -> nat {
    0xFFFFFFFFFFFFFFFFFFFFFFFFFFFFFFFEnat * 0x1_0000_0000_0000_0000nat * 0x1_0000_0000_0000_0000nat
        + 0xBAAEDCE6AF48A03BBFD25E8CD0364141nat
}

/// The compressed encoding of the point that the curve library decodes
/// `bytes` to, or `None` where it rejects them.
pub uninterp spec fn sec1_decoded(bytes: Seq<u8>) -> Option<Seq<u8>>;

/// The encoding of the sum of the two points encoded by `a` and `b`.
pub uninterp spec fn curve_sum(a: Seq<u8>, b: Seq<u8>) -> Seq<u8>;

/// The encoding of the negation of the point encoded by `a`.
pub uninterp spec fn curve_negation(a: Seq<u8>) -> Seq<u8>;

/// The encoding of the point encoded by `a`, multiplied by the scalar whose
/// big-endian bytes are `k`.
pub uninterp spec fn curve_power(a: Seq<u8>, k: Seq<u8>) -> Seq<u8>;

/// The value of a Base16 digit, of either case; `None` for any other
/// character.
pub open spec fn hex_digit(c: char) -> Option<int> {
    if '0' <= c <= '9' {
        Some(c as int - '0' as int)
    } else if 'a' <= c <= 'f' {
        Some(c as int - 'a' as int + 10)
    } else if 'A' <= c <= 'F' {
        Some(c as int - 'A' as int + 10)
    } else {
        None
    }
}

/// The bytes that the Base16 text `s` holds, two digits to a byte, or `None`
/// where the text has an odd length or a character that is no digit.
pub open spec fn base16_decoded(s: Seq<char>) -> Option<Seq<u8>> {
    if s.len() % 2 != 0 || exists|i: int| 0 <= i < s.len() && hex_digit(#[trigger] s[i]) is None {
        None
    } else {
        Some(
            Seq::new(
                s.len() / 2,
                |i: int|
                    (hex_digit(s[2 * i]).unwrap() * 16 + hex_digit(s[2 * i + 1]).unwrap()) as u8,
            ),
        )
    }
}

/// The wire form of the identity: `GROUP_SIZE` zero bytes.
pub open spec fn identity_bytes() -> Seq<u8> {
    Seq::new(33, |i: int| 0u8)
}

/// The compressed encoding of the generator.
pub open spec fn generator_bytes() -> Seq<u8> {
    seq![
        0x02u8, 0x79, 0xBE, 0x66, 0x7E, 0xF9, 0xDC, 0xBB, 0xAC, 0x55, 0xA0, 0x62, 0x95, 0xCE, 0x87,
        0x0B, 0x07, 0x02, 0x9B, 0xFC, 0xDB, 0x2D, 0xCE, 0x28, 0xD9, 0x59, 0xF2, 0x81, 0x5B, 0x16,
        0xF8, 0x17, 0x98,
    ]
}

/// `e` is the compressed encoding of a point of the curve other than the
/// identity: a sign byte, then the x-coordinate, and it decodes to itself.
pub open spec fn is_point_encoding(e: Seq<u8>) -> bool {
    &&& e.len() == 33
    &&& (e[0] == 2 || e[0] == 3)
    &&& sec1_decoded(e) == Some(e)
}

/// `e` is the wire form of a group element.
pub open spec fn is_group_element(e: Seq<u8>) -> bool {
    e == identity_bytes() || is_point_encoding(e)
}

/// What the curve library's encoder gives for the identity stands for the
/// all-zero wire form; every other encoding stands for itself.
pub open spec fn wire_form(e: Seq<u8>) -> Seq<u8> {
    if e.len() == 33 {
        e
    } else {
        identity_bytes()
    }
}

/// The product of two group elements, over their wire forms.
pub open spec fn spec_mul(a: Seq<u8>, b: Seq<u8>) -> Seq<u8> {
    if a[0] == 0 {
        b
    } else if b[0] == 0 {
        a
    } else {
        wire_form(curve_sum(a, b))
    }
}

/// The inverse of a group element, over its wire form.
pub open spec fn spec_inverse(a: Seq<u8>) -> Seq<u8> {
    if a[0] == 0 {
        a
    } else {
        wire_form(curve_negation(a))
    }
}

/// A group element raised to a scalar, over their encodings. The identity
/// raised to any power is the identity.
pub open spec fn spec_exponentiate(base: Seq<u8>, exponent: Seq<u8>) -> Seq<u8> {
    if base[0] == 0 {
        base
    } else {
        wire_form(curve_power(base, exponent))
    }
}

/// What parsing a group element from `bytes` at `pos` gives: the element's
/// wire form, or `None` where the bytes there are no curve point. Meant for
/// `pos + 33 <= bytes.len()`.
pub open spec fn spec_parse_point(bytes: Seq<u8>, pos: int) -> Option<Seq<u8>> {
    let buf = bytes.subrange(pos, pos + 33);
    if buf[0] == 0 {
        Some(identity_bytes())
    } else {
        sec1_decoded(buf)
    }
}

/// `PublicKey::from_sec1_bytes`, then `to_encoded_point` with compression:
/// the decoder's verdict on `buf`. An accepted point is never the identity,
/// its compressed form has 33 bytes led by 2 or 3, and decoding that form
/// gives the same point again.
#[verifier::external_body]
fn sec1_decode(buf: &Vec<u8>) -> (r: Option<Vec<u8>>)
    ensures
        match r {
            Some(e) => sec1_decoded(buf@) == Some(e@) && is_point_encoding(e@),
            None => sec1_decoded(buf@) is None,
        },
{
    match k256::PublicKey::from_sec1_bytes(buf.as_slice()) {
        Ok(pk) => Some(pk.to_encoded_point(true).as_bytes().to_vec()),
        Err(_) => None,
    }
}

/// `ProjectivePoint`'s `+` on the two decoded points, encoded with
/// compression. The sum of two points is a point of the curve, encoded as
/// `sec1_decode` says, or the identity, which the encoder writes as one zero
/// byte.
#[verifier::external_body]
fn sec1_add(a: &Vec<u8>, b: &Vec<u8>) -> (r: Vec<u8>)
    requires
        is_point_encoding(a@),
        is_point_encoding(b@),
    ensures
        r@ == curve_sum(a@, b@),
        is_point_encoding(r@) || r@ == seq![0u8],
{
    match (k256::PublicKey::from_sec1_bytes(a.as_slice()), k256::PublicKey::from_sec1_bytes(b.as_slice())) {
        (Ok(pa), Ok(pb)) => (pa.to_projective() + pb.to_projective()).to_affine().to_encoded_point(true).as_bytes().to_vec(),
        _ => Vec::new(),
    }
}

/// `ProjectivePoint`'s unary `-` on the decoded point, encoded with
/// compression. The negation of a point other than the identity is such a
/// point too.
#[verifier::external_body]
fn sec1_neg(a: &Vec<u8>) -> (r: Vec<u8>)
    requires
        is_point_encoding(a@),
    ensures
        r@ == curve_negation(a@),
        is_point_encoding(r@),
{
    match k256::PublicKey::from_sec1_bytes(a.as_slice()) {
        Ok(pa) => (-pa.to_projective()).to_affine().to_encoded_point(true).as_bytes().to_vec(),
        Err(_) => Vec::new(),
    }
}

/// `ProjectivePoint`'s `*` with a `Scalar` on the decoded point, encoded
/// with compression. The product is a point of the curve or, for a scalar
/// that is zero, the identity, written as one zero byte.
#[verifier::external_body]
fn sec1_scalar_mul(a: &Vec<u8>, k: &Vec<u8>) -> (r: Vec<u8>)
    requires
        is_point_encoding(a@),
        k@.len() == 32,
    ensures
        r@ == curve_power(a@, k@),
        is_point_encoding(r@) || r@ == seq![0u8],
{
    let s = <k256::Scalar as Reduce<k256::U256>>::reduce_bytes(k256::FieldBytes::from_slice(k.as_slice()));
    match k256::PublicKey::from_sec1_bytes(a.as_slice()) {
        Ok(pa) => (pa.to_projective() * s).to_affine().to_encoded_point(true).as_bytes().to_vec(),
        Err(_) => Vec::new(),
    }
}

/// `ProjectivePoint::GENERATOR`, encoded with compression: the curve's
/// standard base point.
#[verifier::external_body]
fn sec1_generator() -> (r: Vec<u8>)
    ensures
        r@ == generator_bytes(),
        is_point_encoding(r@),
{
    k256::ProjectivePoint::GENERATOR.to_affine().to_encoded_point(true).as_bytes().to_vec()
}

/// `Scalar::reduce_bytes`, then `to_bytes`: the 32 big-endian bytes of the
/// number that `buf` holds, reduced modulo the group order.
#[verifier::external_body]
fn reduce_scalar_bytes(buf: &Vec<u8>) -> (r: Vec<u8>)
    requires
        buf@.len() == 32,
    ensures
        r@.len() == 32,
        be_value(r@) == be_value(buf@) % group_order(),
{
    <k256::Scalar as Reduce<k256::U256>>::reduce_bytes(k256::FieldBytes::from_slice(buf.as_slice())).to_bytes().to_vec()
}

/// `Scalar::generate_vartime` on the operating system's random source, then
/// `to_bytes`: the 32 big-endian bytes of some number below the group order.
/// Which number is not said: two calls may differ.
#[verifier::external_body]
fn os_random_scalar_bytes() -> (r: Vec<u8>)
    ensures
        r@.len() == 32,
        be_value(r@) < group_order(),
{
    k256::Scalar::generate_vartime(&mut rand::rngs::OsRng).to_bytes().to_vec()
}

/// `base16::decode` on the text's bytes: the bytes that the digits hold, or
/// `None` for a text of odd length or with a byte that is no digit of either
/// case. A character outside ASCII is encoded in bytes that are no digits.
#[verifier::external_body]
fn base16_decode(s: &String) -> (r: Option<Vec<u8>>)
    ensures
        match r {
            Some(b) => base16_decoded(s@) == Some(b@),
            None => base16_decoded(s@) is None,
        },
{
    match base16::decode(s.as_bytes()) {
        Ok(b) => Some(b),
        Err(_) => None,
    }
}

/// An integer modulo the group order, held by its 32 big-endian bytes.
#[derive(Clone, Debug, PartialEq, Eq)]
pub struct Scalar {
    bytes: Vec<u8>,
}

impl View for Scalar {
    type V = Seq<u8>;

    closed spec fn view(&self) -> Seq<u8> {
        self.bytes@
    }
}

/// `b` is the canonical encoding of a scalar.
pub open spec fn is_scalar_encoding(b: Seq<u8>) -> bool {
    b.len() == 32 && be_value(b) < group_order()
}

/// The `len` big-endian bytes of the number `v`, cut to what they can hold.
pub open spec fn be_bytes(v: nat, len: nat) -> Seq<u8>
    decreases len,
{
    if len == 0 {
        Seq::<u8>::empty()
    } else {
        be_bytes(v / 256, (len - 1) as nat).push((v % 256) as u8)
    }
}

/// The number of values that `len` bytes can hold.
pub open spec fn pow256(len: nat) -> nat
    decreases len,
{
    if len == 0 {
        1
    } else {
        256 * pow256((len - 1) as nat)
    }
}

/// The canonical encoding of the number that the bytes `b` hold, reduced
/// modulo the group order.
pub open spec fn reduced(b: Seq<u8>) -> Seq<u8> {
    be_bytes(be_value(b) % group_order(), 32)
}

/// The bytes of the number that a byte string holds are that byte string.
pub proof fn lemma_be_bytes_of_value(s: Seq<u8>)
    ensures
        be_bytes(be_value(s), s.len()) == s,
    decreases s.len(),
{
    if s.len() > 0 {
        let head = be_value(s.drop_last());
        let v = be_value(s);
        assert(v / 256 == head && v % 256 == s.last() as nat) by (nonlinear_arith)
            requires
                v == head * 256 + s.last() as nat,
                s.last() < 256,
        ;
        lemma_be_bytes_of_value(s.drop_last());
        assert(be_bytes(v, s.len()) =~= s);
    } else {
        assert(be_bytes(be_value(s), 0) =~= s);
    }
}

/// The bytes of a number hold that number, where they are enough for it.
pub proof fn lemma_be_value_of_bytes(v: nat, len: nat)
    requires
        v < pow256(len),
    ensures
        be_bytes(v, len).len() == len,
        be_value(be_bytes(v, len)) == v,
    decreases len,
{
    if len > 0 {
        let rest = pow256((len - 1) as nat);
        assert(v / 256 < rest) by (nonlinear_arith)
            requires
                v < 256 * rest,
        ;
        lemma_be_value_of_bytes(v / 256, (len - 1) as nat);
        let s = be_bytes(v, len);
        assert(s.drop_last() =~= be_bytes(v / 256, (len - 1) as nat));
        assert(v == (v / 256) * 256 + v % 256) by (nonlinear_arith);
    }
}

/// The group order fits in 32 bytes.
pub proof fn lemma_order_fits()
    ensures
        0 < group_order() < pow256(32),
{
    reveal_with_fuel(pow256, 33);
}

/// What reduction gives is a canonical encoding.
pub proof fn lemma_reduced_is_canonical(b: Seq<u8>)
    ensures
        is_scalar_encoding(reduced(b)),
{
    lemma_order_fits();
    let v = be_value(b) % group_order();
    assert(v < group_order()) by (nonlinear_arith)
        requires
            v == be_value(b) % group_order(),
            group_order() > 0,
    ;
    lemma_be_value_of_bytes(v, 32);
}

/// A canonical encoding reduces to itself.
pub proof fn lemma_reduced_canonical(b: Seq<u8>)
    requires
        is_scalar_encoding(b),
    ensures
        reduced(b) == b,
{
    assert(be_value(b) % group_order() == be_value(b)) by (nonlinear_arith)
        requires
            be_value(b) < group_order(),
    ;
    lemma_be_bytes_of_value(b);
}

impl Scalar {
    /// The scalar's bytes are canonical: 32 of them, below the group order.
    pub open spec fn wf(&self) -> bool {
        is_scalar_encoding(self@)
    }

    /// The scalar that the 32 big-endian bytes at `bytes` hold, reduced
    /// modulo the group order; `None` for any other length.
    pub fn from_bytes(bytes: &Vec<u8>) -> (r: Option<Scalar>)
        ensures
            r is Some <==> bytes@.len() == 32,
            r matches Some(s) ==> s.wf() && s@ == reduced(bytes@),
    {
        if bytes.len() != SCALAR_SIZE {
            return None;
        }
        let out = reduce_scalar_bytes(bytes);
        proof {
            lemma_be_bytes_of_value(out@);
            lemma_reduced_is_canonical(bytes@);
        }
        Some(Scalar { bytes: out })
    }

    /// The scalar's canonical big-endian bytes.
    pub fn to_bytes(&self) -> (r: Vec<u8>)
        ensures
            r@ == self@,
    {
        copy_range(&self.bytes, 0, self.bytes.len())
    }

    /// Whether the two scalars are the same number.
    pub fn same(&self, other: &Scalar) -> (r: bool)
        ensures
            r == (self@ == other@),
    {
        same_bytes(&self.bytes, &other.bytes)
    }
}

/// A scalar drawn from the operating system's random source: some number in
/// `[0, n)`, where `n` is the group order.
pub fn random_scalar_in_group_range() -> (r: Scalar)
    ensures
        r.wf(),
{
    Scalar { bytes: os_random_scalar_bytes() }
}

/// A point of the curve, held by its wire form.
#[derive(Clone, Debug, PartialEq, Eq)]
pub struct EcPoint {
    bytes: Vec<u8>,
}

impl View for EcPoint {
    type V = Seq<u8>;

    closed spec fn view(&self) -> Seq<u8> {
        self.bytes@
    }
}

impl EcPoint {
    /// Number of bytes of any group element on the wire.
    pub const GROUP_SIZE: usize = 33;

    /// The point's bytes are the wire form of a group element.
    pub open spec fn wf(&self) -> bool {
        is_group_element(self@)
    }

    /// The group operation: the product of the two elements.
    pub fn mul(self, other: &EcPoint) -> (r: EcPoint)
        requires
            self.wf(),
            other.wf(),
        ensures
            r.wf(),
            r@ == spec_mul(self@, other@),
    {
        if self.bytes[0] == 0 {
            other.copy()
        } else if other.bytes[0] == 0 {
            self
        } else {
            EcPoint { bytes: to_wire_form(sec1_add(&self.bytes, &other.bytes)) }
        }
    }

    /// The inverse of the element.
    pub fn neg(self) -> (r: EcPoint)
        requires
            self.wf(),
        ensures
            r.wf(),
            r@ == spec_inverse(self@),
    {
        if self.bytes[0] == 0 {
            self
        } else {
            EcPoint { bytes: to_wire_form(sec1_neg(&self.bytes)) }
        }
    }

    /// Whether the two elements are the same point.
    pub fn same(&self, other: &EcPoint) -> (r: bool)
        ensures
            r == (self@ == other@),
    {
        same_bytes(&self.bytes, &other.bytes)
    }

    /// A copy of the element.
    pub fn copy(&self) -> (r: EcPoint)
        ensures
            r@ == self@,
    {
        EcPoint { bytes: copy_range(&self.bytes, 0, self.bytes.len()) }
    }

    /// Appends the element's wire form to `w`: `GROUP_SIZE` bytes, all zero
    /// for the identity, the compressed point otherwise.
    pub fn sigma_serialize(&self, w: &mut Vec<u8>)
        ensures
            final(w)@ == old(w)@ + self@,
    {
        append_bytes(w, &self.bytes);
    }

    /// The element's wire form: `GROUP_SIZE` bytes, which read back as the
    /// same element.
    pub fn sigma_serialize_bytes(&self) -> (r: Vec<u8>)
        ensures
            r@ == self@,
            self.wf() ==> r@.len() == 33 && spec_parse_point(r@, 0) == Some(self@),
    {
        proof {
            if self.wf() {
                lemma_point_round_trip(*self, Seq::<u8>::empty(), Seq::<u8>::empty());
                assert(Seq::<u8>::empty() + self@ + Seq::<u8>::empty() =~= self@);
            }
        }
        copy_range(&self.bytes, 0, self.bytes.len())
    }

    /// Reads a group element from `bytes` at `pos` and gives it with the
    /// position behind it. A first byte of zero is the identity, whatever
    /// follows it; anything else has to be a compressed point of the curve.
    pub fn sigma_parse(bytes: &Vec<u8>, pos: usize) -> (r: Result<(EcPoint, usize), SerializationError>)
        requires
            pos <= bytes.len(),
        ensures
            bytes.len() - pos < 33 ==> r == Err::<(EcPoint, usize), _>(
                SerializationError::UnexpectedEof,
            ),
            bytes.len() - pos >= 33 ==> match spec_parse_point(bytes@, pos as int) {
                Some(e) => r matches Ok((p, next)) && p@ == e && p.wf() && next == pos + 33,
                None => r == Err::<(EcPoint, usize), _>(SerializationError::DecodingError),
            },
    {
        if bytes.len() - pos < GROUP_SIZE {
            return Err(SerializationError::UnexpectedEof);
        }
        let buf = copy_range(bytes, pos, GROUP_SIZE);
        if buf[0] != 0 {
            match sec1_decode(&buf) {
                Some(e) => Ok((EcPoint { bytes: e }, pos + GROUP_SIZE)),
                None => Err(SerializationError::DecodingError),
            }
        } else {
            Ok((identity(), pos + GROUP_SIZE))
        }
    }

    /// Reads a group element from Base16 text: `None` where the text is no
    /// Base16 or the bytes it holds are no group element.
    pub fn from_base16_str(str: String) -> (r: Option<EcPoint>)
        ensures
            match base16_decoded(str@) {
                None => r is None,
                Some(b) => if b.len() < 33 {
                    r is None
                } else {
                    match spec_parse_point(b, 0) {
                        Some(e) => r matches Some(p) && p@ == e && p.wf(),
                        None => r is None,
                    }
                },
            },
    {
        match base16_decode(&str) {
            Some(bytes) => match EcPoint::sigma_parse_bytes(&bytes) {
                Ok(p) => Some(p),
                Err(_) => None,
            },
            None => None,
        }
    }

    /// Reads a group element from the whole of `bytes`; what follows the
    /// element is ignored.
    pub fn sigma_parse_bytes(bytes: &Vec<u8>) -> (r: Result<EcPoint, SerializationError>)
        ensures
            bytes.len() < 33 ==> r == Err::<EcPoint, _>(SerializationError::UnexpectedEof),
            bytes.len() >= 33 ==> match spec_parse_point(bytes@, 0) {
                Some(e) => r matches Ok(p) && p@ == e && p.wf(),
                None => r == Err::<EcPoint, _>(SerializationError::DecodingError),
            },
            is_group_element(bytes@) ==> (r matches Ok(p) && p@ == bytes@),
    {
        proof {
            if is_group_element(bytes@) {
                assert(identity_bytes().len() == 33);
                assert(bytes@.subrange(0, 33) =~= bytes@);
                if bytes@[0] == 0 {
                    assert(bytes@ =~= identity_bytes());
                }
            }
        }
        match EcPoint::sigma_parse(bytes, 0) {
            Ok((p, _)) => Ok(p),
            Err(e) => Err(e),
        }
    }
}

/// The encoder's one-byte identity becomes the all-zero wire form.
fn to_wire_form(e: Vec<u8>) -> (r: Vec<u8>)
    ensures
        r@ == wire_form(e@),
{
    if e.len() == GROUP_SIZE {
        e
    } else {
        zeroes(GROUP_SIZE)
    }
}

/// The generator of the group: every element is a power of it.
pub fn generator() -> (r: EcPoint)
    ensures
        r.wf(),
        r@ == generator_bytes(),
        r@.len() == 33,
        r@[0] == 2 || r@[0] == 3,
{
    EcPoint { bytes: sec1_generator() }
}

/// The identity (the point at infinity).
pub fn identity() -> (r: EcPoint)
    ensures
        r.wf(),
        r@ == identity_bytes(),
{
    EcPoint { bytes: zeroes(GROUP_SIZE) }
}

/// Whether the element is the identity.
pub fn is_identity(ge: &EcPoint) -> (r: bool)
    requires
        ge.wf(),
    ensures
        r == (ge@ == identity_bytes()),
{
    ge.bytes[0] == 0
}

/// The inverse of the given group element.
pub fn inverse(ec: &EcPoint) -> (r: EcPoint)
    requires
        ec.wf(),
    ensures
        r.wf(),
        r@ == spec_inverse(ec@),
{
    ec.copy().neg()
}

/// Raises the base to the exponent. The identity stays the identity; for any
/// other base the curve library multiplies the point by the scalar.
pub fn exponentiate(base: &EcPoint, exponent: &Scalar) -> (r: EcPoint)
    requires
        base.wf(),
        exponent.wf(),
    ensures
        r.wf(),
        r@ == spec_exponentiate(base@, exponent@),
{
    if !is_identity(base) {
        EcPoint { bytes: to_wire_form(sec1_scalar_mul(&base.bytes, &exponent.bytes)) }
    } else {
        base.copy()
    }
}

/// A group element written and read back is the same element.
pub proof fn lemma_point_round_trip(p: EcPoint, before: Seq<u8>, after: Seq<u8>)
    requires
        p.wf(),
    ensures
        spec_parse_point(before + p@ + after, before.len() as int) == Some(p@),
        p@.len() == 33,
{
    let all = before + p@ + after;
    assert(all.subrange(before.len() as int, before.len() as int + 33) =~= p@);
}

} // verus!
