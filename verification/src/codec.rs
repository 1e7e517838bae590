//! Byte-level codecs: the little-endian primitives every persisted format
//! is built from.
//!
//! Each value kind has three faces: a specification encoder (`enc_*`), a
//! specification decoder (`sdec_*`), and executable functions proved
//! against them.  The decoder round-trip lemmas (`lemma_sdec_enc_*`) state
//! that decoding at an offset where an encoding lies yields exactly the
//! encoded value, so every composite format inherits lossless round trips.

use vstd::prelude::*;

use vstd::bytes::{spec_u16_to_le_bytes, spec_u16_from_le_bytes, spec_u32_to_le_bytes,
    spec_u32_from_le_bytes, spec_u64_to_le_bytes, spec_u64_from_le_bytes,
    lemma_auto_spec_u16_to_from_le_bytes, lemma_auto_spec_u32_to_from_le_bytes,
    lemma_auto_spec_u64_to_from_le_bytes, u16_from_le_bytes, u16_to_le_bytes, u32_from_le_bytes,
    u32_to_le_bytes, u64_from_le_bytes, u64_to_le_bytes};
use vstd::slice::{slice_subrange, slice_to_vec};
use vstd::utf8::{decode_utf8, encode_utf8, valid_utf8};

use crate::commands::{EntityProperties, PropsView};
use crate::events::{DespawnReason, PropertyValue, PropertyValueView};
use crate::types::{EntityKind, EntityState, Position, WorldPos, ZoneId};

verus! {

// ============================================================================
// Specification encoders
// ============================================================================

/// One byte.
pub open spec fn enc_u8(x: u8) -> Seq<u8> {
    seq![x]
}

/// Two bytes, little endian.
pub open spec fn enc_u16(x: u16) -> Seq<u8> {
    spec_u16_to_le_bytes(x)
}

/// Four bytes, little endian.
pub open spec fn enc_u32(x: u32) -> Seq<u8> {
    spec_u32_to_le_bytes(x)
}

/// Eight bytes, little endian.
pub open spec fn enc_u64(x: u64) -> Seq<u8> {
    spec_u64_to_le_bytes(x)
}

/// A signed 32-bit value, carried in its unsigned bit pattern.
pub open spec fn enc_i32(x: i32) -> Seq<u8> {
    spec_u32_to_le_bytes(x as u32)
}

/// A byte string: an eight-byte length, then the bytes.
pub open spec fn enc_bytes(b: Seq<u8>) -> Seq<u8> {
    enc_u64(b.len() as u64) + b
}

/// A text string: its UTF-8 bytes as a byte string.
pub open spec fn enc_str(s: Seq<char>) -> Seq<u8> {
    enc_bytes(encode_utf8(s))
}

/// An optional text string: a presence byte, then the string if present.
pub open spec fn enc_opt_str(o: Option<Seq<char>>) -> Seq<u8> {
    match o {
        None => seq![0u8],
        Some(s) => seq![1u8] + enc_str(s),
    }
}

/// An optional 32-bit value: a presence byte, then the value if present.
pub open spec fn enc_opt_u32(o: Option<u32>) -> Seq<u8> {
    match o {
        None => seq![0u8],
        Some(v) => seq![1u8] + enc_u32(v),
    }
}

// ============================================================================
// Specification decoders
// ============================================================================

/// Decode one byte; yields the value and the next offset.
pub open spec fn sdec_u8(b: Seq<u8>, off: int) -> Option<(u8, int)> {
    if 0 <= off && off + 1 <= b.len() {
        Some((b[off], off + 1))
    } else {
        None
    }
}

/// Decode two little-endian bytes.
pub open spec fn sdec_u16(b: Seq<u8>, off: int) -> Option<(u16, int)> {
    if 0 <= off && off + 2 <= b.len() {
        Some((spec_u16_from_le_bytes(b.subrange(off, off + 2)), off + 2))
    } else {
        None
    }
}

/// Decode four little-endian bytes.
pub open spec fn sdec_u32(b: Seq<u8>, off: int) -> Option<(u32, int)> {
    if 0 <= off && off + 4 <= b.len() {
        Some((spec_u32_from_le_bytes(b.subrange(off, off + 4)), off + 4))
    } else {
        None
    }
}

/// Decode eight little-endian bytes.
pub open spec fn sdec_u64(b: Seq<u8>, off: int) -> Option<(u64, int)> {
    if 0 <= off && off + 8 <= b.len() {
        Some((spec_u64_from_le_bytes(b.subrange(off, off + 8)), off + 8))
    } else {
        None
    }
}

/// Decode a signed 32-bit value from its unsigned bit pattern.
pub open spec fn sdec_i32(b: Seq<u8>, off: int) -> Option<(i32, int)> {
    match sdec_u32(b, off) {
        Some((x, o2)) => Some((x as i32, o2)),
        None => None,
    }
}

/// Decode a length-prefixed byte string.
pub open spec fn sdec_bytes(b: Seq<u8>, off: int) -> Option<(Seq<u8>, int)> {
    match sdec_u64(b, off) {
        Some((n, o2)) => if o2 + n <= b.len() {
            Some((b.subrange(o2, o2 + n), o2 + n))
        } else {
            None
        },
        None => None,
    }
}

/// Decode a length-prefixed text string; fails on bytes that are not a
/// UTF-8 encoding.
pub open spec fn sdec_str(b: Seq<u8>, off: int) -> Option<(Seq<char>, int)> {
    match sdec_bytes(b, off) {
        Some((bs, o2)) => if valid_utf8(bs) {
            Some((decode_utf8(bs), o2))
        } else {
            None
        },
        None => None,
    }
}

/// Decode an optional text string.
pub open spec fn sdec_opt_str(b: Seq<u8>, off: int) -> Option<(Option<Seq<char>>, int)> {
    match sdec_u8(b, off) {
        Some((tag, o2)) => if tag == 0 {
            Some((None, o2))
        } else if tag == 1 {
            match sdec_str(b, o2) {
                Some((s, o3)) => Some((Some(s), o3)),
                None => None,
            }
        } else {
            None
        },
        None => None,
    }
}

/// Decode an optional 32-bit value.
pub open spec fn sdec_opt_u32(b: Seq<u8>, off: int) -> Option<(Option<u32>, int)> {
    match sdec_u8(b, off) {
        Some((tag, o2)) => if tag == 0 {
            Some((None, o2))
        } else if tag == 1 {
            match sdec_u32(b, o2) {
                Some((v, o3)) => Some((Some(v), o3)),
                None => None,
            }
        } else {
            None
        },
        None => None,
    }
}

// ============================================================================
// Round-trip lemmas: decoding at an offset where an encoding lies yields
// the encoded value
// ============================================================================

/// Casting an `i32` through its unsigned bit pattern loses nothing.
pub proof fn lemma_i32_cast_roundtrip(x: i32)
    ensures
        (x as u32) as i32 == x,
{
    assert((x as u32) as i32 == x) by (bit_vector);
}

pub proof fn lemma_sdec_enc_u8(b: Seq<u8>, off: int, x: u8)
    requires
        0 <= off,
        off + 1 <= b.len(),
        b.subrange(off, off + 1) == enc_u8(x),
    ensures
        sdec_u8(b, off) == Some((x, off + 1)),
{
    assert(b[off] == b.subrange(off, off + 1)[0]);
}

pub proof fn lemma_sdec_enc_u16(b: Seq<u8>, off: int, x: u16)
    requires
        0 <= off,
        off + 2 <= b.len(),
        b.subrange(off, off + 2) == enc_u16(x),
    ensures
        sdec_u16(b, off) == Some((x, off + 2)),
{
    lemma_auto_spec_u16_to_from_le_bytes();
    assert(spec_u16_to_le_bytes(x).len() == 2);
    assert(spec_u16_from_le_bytes(spec_u16_to_le_bytes(x)) == x);
}

pub proof fn lemma_sdec_enc_u32(b: Seq<u8>, off: int, x: u32)
    requires
        0 <= off,
        off + 4 <= b.len(),
        b.subrange(off, off + 4) == enc_u32(x),
    ensures
        sdec_u32(b, off) == Some((x, off + 4)),
{
    lemma_auto_spec_u32_to_from_le_bytes();
    assert(spec_u32_to_le_bytes(x).len() == 4);
    assert(spec_u32_from_le_bytes(spec_u32_to_le_bytes(x)) == x);
}

pub proof fn lemma_sdec_enc_u64(b: Seq<u8>, off: int, x: u64)
    requires
        0 <= off,
        off + 8 <= b.len(),
        b.subrange(off, off + 8) == enc_u64(x),
    ensures
        sdec_u64(b, off) == Some((x, off + 8)),
{
    lemma_auto_spec_u64_to_from_le_bytes();
    assert(spec_u64_to_le_bytes(x).len() == 8);
    assert(spec_u64_from_le_bytes(spec_u64_to_le_bytes(x)) == x);
}

pub proof fn lemma_sdec_enc_i32(b: Seq<u8>, off: int, x: i32)
    requires
        0 <= off,
        off + 4 <= b.len(),
        b.subrange(off, off + 4) == enc_i32(x),
    ensures
        sdec_i32(b, off) == Some((x, off + 4)),
{
    lemma_sdec_enc_u32(b, off, x as u32);
    lemma_i32_cast_roundtrip(x);
}

pub proof fn lemma_sdec_enc_bytes(b: Seq<u8>, off: int, p: Seq<u8>)
    requires
        0 <= off,
        p.len() <= u64::MAX,
        off + enc_bytes(p).len() <= b.len(),
        b.subrange(off, off + enc_bytes(p).len() as int) == enc_bytes(p),
    ensures
        sdec_bytes(b, off) == Some((p, off + enc_bytes(p).len())),
{
    let e = enc_bytes(p);
    lemma_auto_spec_u64_to_from_le_bytes();
    assert(enc_u64(p.len() as u64).len() == 8);
    assert(b.subrange(off, off + 8) =~= e.subrange(0, 8));
    assert(e.subrange(0, 8) =~= enc_u64(p.len() as u64)) by {
        lemma_auto_spec_u64_to_from_le_bytes();
    }
    lemma_sdec_enc_u64(b, off, p.len() as u64);
    assert(b.subrange(off + 8, off + 8 + p.len() as int) =~= e.subrange(8, e.len() as int));
    assert(e.subrange(8, e.len() as int) =~= p);
}

pub proof fn lemma_sdec_enc_str(b: Seq<u8>, off: int, s: Seq<char>)
    requires
        0 <= off,
        encode_utf8(s).len() <= u64::MAX,
        off + enc_str(s).len() <= b.len(),
        b.subrange(off, off + enc_str(s).len() as int) == enc_str(s),
    ensures
        sdec_str(b, off) == Some((s, off + enc_str(s).len())),
{
    lemma_sdec_enc_bytes(b, off, encode_utf8(s));
    vstd::utf8::encode_utf8_valid_utf8(s);
    vstd::utf8::encode_utf8_decode_utf8(s);
}

pub proof fn lemma_sdec_enc_opt_str(b: Seq<u8>, off: int, o: Option<Seq<char>>)
    requires
        0 <= off,
        match o {
            Some(s) => encode_utf8(s).len() <= u64::MAX,
            None => true,
        },
        off + enc_opt_str(o).len() <= b.len(),
        b.subrange(off, off + enc_opt_str(o).len() as int) == enc_opt_str(o),
    ensures
        sdec_opt_str(b, off) == Some((o, off + enc_opt_str(o).len())),
{
    let e = enc_opt_str(o);
    match o {
        None => {
            assert(b.subrange(off, off + 1) =~= e.subrange(0, 1));
            lemma_sdec_enc_u8(b, off, 0);
        },
        Some(s) => {
            assert(b.subrange(off, off + 1) =~= e.subrange(0, 1));
            assert(e.subrange(0, 1) =~= enc_u8(1));
            lemma_sdec_enc_u8(b, off, 1);
            lemma_auto_spec_u64_to_from_le_bytes();
            assert(enc_u64(encode_utf8(s).len() as u64).len() == 8);
            assert(b.subrange(off + 1, off + 1 + enc_str(s).len() as int) =~= e.subrange(
                1,
                e.len() as int,
            ));
            assert(e.subrange(1, e.len() as int) =~= enc_str(s));
            lemma_sdec_enc_str(b, off + 1, s);
        },
    }
}

pub proof fn lemma_sdec_enc_opt_u32(b: Seq<u8>, off: int, o: Option<u32>)
    requires
        0 <= off,
        off + enc_opt_u32(o).len() <= b.len(),
        b.subrange(off, off + enc_opt_u32(o).len() as int) == enc_opt_u32(o),
    ensures
        sdec_opt_u32(b, off) == Some((o, off + enc_opt_u32(o).len())),
{
    let e = enc_opt_u32(o);
    match o {
        None => {
            assert(b.subrange(off, off + 1) =~= e.subrange(0, 1));
            lemma_sdec_enc_u8(b, off, 0);
        },
        Some(v) => {
            assert(b.subrange(off, off + 1) =~= e.subrange(0, 1));
            assert(e.subrange(0, 1) =~= enc_u8(1));
            lemma_sdec_enc_u8(b, off, 1);
            lemma_auto_spec_u32_to_from_le_bytes();
            assert(enc_u32(v).len() == 4);
            assert(b.subrange(off + 1, off + 5) =~= e.subrange(1, 5));
            assert(e.subrange(1, 5) =~= enc_u32(v));
            lemma_sdec_enc_u32(b, off + 1, v);
        },
    }
}

// ============================================================================
// Executable encoders
// ============================================================================

pub fn put_u8(out: &mut Vec<u8>, x: u8)
    ensures
        final(out)@ == old(out)@ + enc_u8(x),
{
    out.push(x);
    proof {
        assert(final(out)@ =~= old(out)@ + enc_u8(x));
    }
}

pub fn put_u16(out: &mut Vec<u8>, x: u16)
    ensures
        final(out)@ == old(out)@ + enc_u16(x),
{
    let mut b = u16_to_le_bytes(x);
    out.append(&mut b);
}

pub fn put_u32(out: &mut Vec<u8>, x: u32)
    ensures
        final(out)@ == old(out)@ + enc_u32(x),
{
    let mut b = u32_to_le_bytes(x);
    out.append(&mut b);
}

pub fn put_u64(out: &mut Vec<u8>, x: u64)
    ensures
        final(out)@ == old(out)@ + enc_u64(x),
{
    let mut b = u64_to_le_bytes(x);
    out.append(&mut b);
}

pub fn put_i32(out: &mut Vec<u8>, x: i32)
    ensures
        final(out)@ == old(out)@ + enc_i32(x),
{
    put_u32(out, x as u32);
}

pub fn put_bytes(out: &mut Vec<u8>, b: &[u8])
    ensures
        final(out)@ == old(out)@ + enc_bytes(b@),
{
    put_u64(out, b.len() as u64);
    out.extend_from_slice(b);
    proof {
        assert(final(out)@ =~= old(out)@ + enc_bytes(b@));
    }
}

pub fn put_str(out: &mut Vec<u8>, s: &str)
    ensures
        final(out)@ == old(out)@ + enc_str(s@),
{
    put_bytes(out, s.as_bytes());
}

pub fn put_opt_str(out: &mut Vec<u8>, o: &Option<String>)
    ensures
        final(out)@ == old(out)@ + enc_opt_str(
            match o {
                Some(s) => Some(s@),
                None => None,
            },
        ),
    // the presence byte then the string
{
    match o {
        None => {
            put_u8(out, 0);
        },
        Some(s) => {
            put_u8(out, 1);
            put_str(out, s.as_str());
            proof {
                assert(final(out)@ =~= old(out)@ + enc_opt_str(Some(s@)));
            }
        },
    }
}

pub fn put_opt_u32(out: &mut Vec<u8>, o: &Option<u32>)
    ensures
        final(out)@ == old(out)@ + enc_opt_u32(*o),
{
    match o {
        None => {
            put_u8(out, 0);
        },
        Some(v) => {
            put_u8(out, 1);
            put_u32(out, *v);
            proof {
                assert(final(out)@ =~= old(out)@ + enc_opt_u32(Some(*v)));
            }
        },
    }
}

// ============================================================================
// Executable decoders
// ============================================================================

/// Relies on `String::from_utf8`: it succeeds exactly on well-formed UTF-8
/// byte sequences, and then returns the string those bytes spell.
#[verifier::external_body]
fn string_from_utf8(bytes: Vec<u8>) -> (r: Option<String>)
    ensures
        (r is Some) == valid_utf8(bytes@),
        match r {
            Some(s) => s@ == decode_utf8(bytes@),
            None => true,
        },
{
    match String::from_utf8(bytes) {
        Ok(s) => Some(s),
        Err(_) => None,
    }
}

pub fn dec_u8(buf: &[u8], off: usize) -> (r: Option<(u8, usize)>)
    ensures
        match r {
            Some((x, o2)) => sdec_u8(buf@, off as int) == Some((x, o2 as int)),
            None => sdec_u8(buf@, off as int) is None,
        },
{
    if off < buf.len() {
        Some((*slice_subrange(buf, off, off + 1).first().unwrap(), off + 1))
    } else {
        None
    }
}

pub fn dec_u16(buf: &[u8], off: usize) -> (r: Option<(u16, usize)>)
    ensures
        match r {
            Some((x, o2)) => sdec_u16(buf@, off as int) == Some((x, o2 as int)),
            None => sdec_u16(buf@, off as int) is None,
        },
{
    if buf.len() >= 2 && off <= buf.len() - 2 {
        let x = u16_from_le_bytes(slice_subrange(buf, off, off + 2));
        Some((x, off + 2))
    } else {
        None
    }
}

pub fn dec_u32(buf: &[u8], off: usize) -> (r: Option<(u32, usize)>)
    ensures
        match r {
            Some((x, o2)) => sdec_u32(buf@, off as int) == Some((x, o2 as int)),
            None => sdec_u32(buf@, off as int) is None,
        },
{
    if buf.len() >= 4 && off <= buf.len() - 4 {
        let x = u32_from_le_bytes(slice_subrange(buf, off, off + 4));
        Some((x, off + 4))
    } else {
        None
    }
}

pub fn dec_u64(buf: &[u8], off: usize) -> (r: Option<(u64, usize)>)
    ensures
        match r {
            Some((x, o2)) => sdec_u64(buf@, off as int) == Some((x, o2 as int)),
            None => sdec_u64(buf@, off as int) is None,
        },
{
    if buf.len() >= 8 && off <= buf.len() - 8 {
        let x = u64_from_le_bytes(slice_subrange(buf, off, off + 8));
        Some((x, off + 8))
    } else {
        None
    }
}

pub fn dec_i32(buf: &[u8], off: usize) -> (r: Option<(i32, usize)>)
    ensures
        match r {
            Some((x, o2)) => sdec_i32(buf@, off as int) == Some((x, o2 as int)),
            None => sdec_i32(buf@, off as int) is None,
        },
{
    match dec_u32(buf, off) {
        Some((x, o2)) => Some((x as i32, o2)),
        None => None,
    }
}

pub fn dec_bytes(buf: &[u8], off: usize) -> (r: Option<(Vec<u8>, usize)>)
    ensures
        match r {
            Some((v, o2)) => sdec_bytes(buf@, off as int) == Some((v@, o2 as int)),
            None => sdec_bytes(buf@, off as int) is None,
        },
{
    match dec_u64(buf, off) {
        Some((n, o2)) => {
            if n <= (buf.len() - o2) as u64 {
                let end = o2 + (n as usize);
                let v = slice_to_vec(slice_subrange(buf, o2, end));
                Some((v, end))
            } else {
                None
            }
        },
        None => None,
    }
}

pub fn dec_str(buf: &[u8], off: usize) -> (r: Option<(String, usize)>)
    ensures
        match r {
            Some((s, o2)) => sdec_str(buf@, off as int) == Some((s@, o2 as int)),
            None => sdec_str(buf@, off as int) is None,
        },
{
    match dec_bytes(buf, off) {
        Some((bs, o2)) => match string_from_utf8(bs) {
            Some(s) => Some((s, o2)),
            None => None,
        },
        None => None,
    }
}

pub fn dec_opt_str(buf: &[u8], off: usize) -> (r: Option<(Option<String>, usize)>)
    ensures
        match r {
            Some((o, o2)) => sdec_opt_str(buf@, off as int) == Some(
                (
                    match o {
                        Some(s) => Some(s@),
                        None => None,
                    },
                    o2 as int,
                ),
            ),
            None => sdec_opt_str(buf@, off as int) is None,
        },
{
    match dec_u8(buf, off) {
        Some((tag, o2)) => {
            if tag == 0 {
                Some((None, o2))
            } else if tag == 1 {
                match dec_str(buf, o2) {
                    Some((s, o3)) => Some((Some(s), o3)),
                    None => None,
                }
            } else {
                None
            }
        },
        None => None,
    }
}

pub fn dec_opt_u32(buf: &[u8], off: usize) -> (r: Option<(Option<u32>, usize)>)
    ensures
        match r {
            Some((o, o2)) => sdec_opt_u32(buf@, off as int) == Some((o, o2 as int)),
            None => sdec_opt_u32(buf@, off as int) is None,
        },
{
    match dec_u8(buf, off) {
        Some((tag, o2)) => {
            if tag == 0 {
                Some((None, o2))
            } else if tag == 1 {
                match dec_u32(buf, o2) {
                    Some((v, o3)) => Some((Some(v), o3)),
                    None => None,
                }
            } else {
                None
            }
        },
        None => None,
    }
}

// ============================================================================
// Encoded lengths, gathered for the composite lemmas
// ============================================================================

/// The lengths of the primitive encodings.
pub proof fn lemma_enc_lens()
    ensures
        forall|x: u16| (#[trigger] enc_u16(x)).len() == 2,
        forall|x: u32| (#[trigger] enc_u32(x)).len() == 4,
        forall|x: u64| (#[trigger] enc_u64(x)).len() == 8,
        forall|x: i32| (#[trigger] enc_i32(x)).len() == 4,
        forall|b: Seq<u8>| (#[trigger] enc_bytes(b)).len() == 8 + b.len(),
        forall|s: Seq<char>| (#[trigger] enc_str(s)).len() == 8 + encode_utf8(s).len(),
{
    lemma_auto_spec_u16_to_from_le_bytes();
    lemma_auto_spec_u32_to_from_le_bytes();
    lemma_auto_spec_u64_to_from_le_bytes();
}

// ============================================================================
// Domain value codecs: entity kind, state, despawn reason, positions,
// properties and property values
// ============================================================================

/// The byte code of an entity kind.
pub open spec fn kind_byte(k: EntityKind) -> u8 {
    match k {
        EntityKind::Resource => 0,
        EntityKind::Creature => 1,
        EntityKind::Item => 2,
        EntityKind::Structure => 3,
    }
}

/// An entity kind as one byte.
pub open spec fn enc_kind(k: EntityKind) -> Seq<u8> {
    seq![kind_byte(k)]
}

/// Decode an entity kind byte; an unknown code fails.
pub open spec fn sdec_kind(b: Seq<u8>, off: int) -> Option<(EntityKind, int)> {
    match sdec_u8(b, off) {
        Some((t, o2)) => if t == 0 {
            Some((EntityKind::Resource, o2))
        } else if t == 1 {
            Some((EntityKind::Creature, o2))
        } else if t == 2 {
            Some((EntityKind::Item, o2))
        } else if t == 3 {
            Some((EntityKind::Structure, o2))
        } else {
            None
        },
        None => None,
    }
}

pub proof fn lemma_sdec_enc_kind(b: Seq<u8>, off: int, k: EntityKind)
    requires
        0 <= off,
        off + 1 <= b.len(),
        b.subrange(off, off + 1) == enc_kind(k),
    ensures
        sdec_kind(b, off) == Some((k, off + 1)),
{
    lemma_sdec_enc_u8(b, off, kind_byte(k));
}

/// The byte code of an entity state.
pub open spec fn state_byte(s: EntityState) -> u8 {
    match s {
        EntityState::Active => 0,
        EntityState::Dormant => 1,
        EntityState::Dead => 2,
    }
}

/// An entity state as one byte.
pub open spec fn enc_state(s: EntityState) -> Seq<u8> {
    seq![state_byte(s)]
}

/// Decode an entity state byte; an unknown code fails.
pub open spec fn sdec_state(b: Seq<u8>, off: int) -> Option<(EntityState, int)> {
    match sdec_u8(b, off) {
        Some((t, o2)) => if t == 0 {
            Some((EntityState::Active, o2))
        } else if t == 1 {
            Some((EntityState::Dormant, o2))
        } else if t == 2 {
            Some((EntityState::Dead, o2))
        } else {
            None
        },
        None => None,
    }
}

pub proof fn lemma_sdec_enc_state(b: Seq<u8>, off: int, s: EntityState)
    requires
        0 <= off,
        off + 1 <= b.len(),
        b.subrange(off, off + 1) == enc_state(s),
    ensures
        sdec_state(b, off) == Some((s, off + 1)),
{
    lemma_sdec_enc_u8(b, off, state_byte(s));
}

/// The byte code of a despawn reason.
pub open spec fn reason_byte(r: DespawnReason) -> u8 {
    match r {
        DespawnReason::Command => 0,
        DespawnReason::Death => 1,
        DespawnReason::Depleted => 2,
        DespawnReason::Expired => 3,
    }
}

/// A despawn reason as one byte.
pub open spec fn enc_reason(r: DespawnReason) -> Seq<u8> {
    seq![reason_byte(r)]
}

/// Decode a despawn reason byte; an unknown code fails.
pub open spec fn sdec_reason(b: Seq<u8>, off: int) -> Option<(DespawnReason, int)> {
    match sdec_u8(b, off) {
        Some((t, o2)) => if t == 0 {
            Some((DespawnReason::Command, o2))
        } else if t == 1 {
            Some((DespawnReason::Death, o2))
        } else if t == 2 {
            Some((DespawnReason::Depleted, o2))
        } else if t == 3 {
            Some((DespawnReason::Expired, o2))
        } else {
            None
        },
        None => None,
    }
}

pub proof fn lemma_sdec_enc_reason(b: Seq<u8>, off: int, r: DespawnReason)
    requires
        0 <= off,
        off + 1 <= b.len(),
        b.subrange(off, off + 1) == enc_reason(r),
    ensures
        sdec_reason(b, off) == Some((r, off + 1)),
{
    lemma_sdec_enc_u8(b, off, reason_byte(r));
}

/// A world position: zone id, then the three coordinates.
pub open spec fn enc_world_pos(p: WorldPos) -> Seq<u8> {
    enc_u32(p.zone.0) + enc_i32(p.pos.x) + enc_i32(p.pos.y) + enc_i32(p.pos.z)
}

/// Decode a world position.
pub open spec fn sdec_world_pos(b: Seq<u8>, off: int) -> Option<(WorldPos, int)> {
    match sdec_u32(b, off) {
        Some((z, o1)) => match sdec_i32(b, o1) {
            Some((x, o2)) => match sdec_i32(b, o2) {
                Some((y, o3)) => match sdec_i32(b, o3) {
                    Some((zc, o4)) => Some(
                        (WorldPos { zone: ZoneId(z), pos: Position { x, y, z: zc } }, o4),
                    ),
                    None => None,
                },
                None => None,
            },
            None => None,
        },
        None => None,
    }
}

pub proof fn lemma_sdec_enc_world_pos(b: Seq<u8>, off: int, p: WorldPos)
    requires
        0 <= off,
        off + enc_world_pos(p).len() <= b.len(),
        b.subrange(off, off + enc_world_pos(p).len() as int) == enc_world_pos(p),
    ensures
        enc_world_pos(p).len() == 16,
        sdec_world_pos(b, off) == Some((p, off + 16)),
{
    lemma_enc_lens();
    let e = enc_world_pos(p);
    assert(b.subrange(off, off + 4) =~= e.subrange(0, 4));
    assert(e.subrange(0, 4) =~= enc_u32(p.zone.0));
    lemma_sdec_enc_u32(b, off, p.zone.0);
    assert(b.subrange(off + 4, off + 8) =~= e.subrange(4, 8));
    assert(e.subrange(4, 8) =~= enc_i32(p.pos.x));
    lemma_sdec_enc_i32(b, off + 4, p.pos.x);
    assert(b.subrange(off + 8, off + 12) =~= e.subrange(8, 12));
    assert(e.subrange(8, 12) =~= enc_i32(p.pos.y));
    lemma_sdec_enc_i32(b, off + 8, p.pos.y);
    assert(b.subrange(off + 12, off + 16) =~= e.subrange(12, 16));
    assert(e.subrange(12, 16) =~= enc_i32(p.pos.z));
    lemma_sdec_enc_i32(b, off + 12, p.pos.z);
}

/// Entity properties: the optional name, amount and health.
pub open spec fn enc_props(p: PropsView) -> Seq<u8> {
    enc_opt_str(p.name) + enc_opt_u32(p.amount) + enc_opt_u32(p.health)
}

/// Decode entity properties.
pub open spec fn sdec_props(b: Seq<u8>, off: int) -> Option<(PropsView, int)> {
    match sdec_opt_str(b, off) {
        Some((name, o1)) => match sdec_opt_u32(b, o1) {
            Some((amount, o2)) => match sdec_opt_u32(b, o2) {
                Some((health, o3)) => Some((PropsView { name, amount, health }, o3)),
                None => None,
            },
            None => None,
        },
        None => None,
    }
}

/// Whether an optional string is small enough to carry its byte length in
/// the encoding; every string held in memory is.
pub open spec fn opt_str_ok(o: Option<Seq<char>>) -> bool {
    match o {
        Some(s) => encode_utf8(s).len() <= u64::MAX,
        None => true,
    }
}

pub proof fn lemma_sdec_enc_props(b: Seq<u8>, off: int, p: PropsView)
    requires
        0 <= off,
        opt_str_ok(p.name),
        off + enc_props(p).len() <= b.len(),
        b.subrange(off, off + enc_props(p).len() as int) == enc_props(p),
    ensures
        sdec_props(b, off) == Some((p, off + enc_props(p).len())),
{
    lemma_enc_lens();
    let e = enc_props(p);
    let n1 = enc_opt_str(p.name).len() as int;
    let n2 = enc_opt_u32(p.amount).len() as int;
    let n3 = enc_opt_u32(p.health).len() as int;
    assert(b.subrange(off, off + n1) =~= e.subrange(0, n1));
    assert(e.subrange(0, n1) =~= enc_opt_str(p.name));
    lemma_sdec_enc_opt_str(b, off, p.name);
    assert(b.subrange(off + n1, off + n1 + n2) =~= e.subrange(n1, n1 + n2));
    assert(e.subrange(n1, n1 + n2) =~= enc_opt_u32(p.amount));
    lemma_sdec_enc_opt_u32(b, off + n1, p.amount);
    assert(b.subrange(off + n1 + n2, off + n1 + n2 + n3) =~= e.subrange(n1 + n2, n1 + n2 + n3));
    assert(e.subrange(n1 + n2, n1 + n2 + n3) =~= enc_opt_u32(p.health));
    lemma_sdec_enc_opt_u32(b, off + n1 + n2, p.health);
}

/// Casting an `i64` through its unsigned bit pattern loses nothing.
pub proof fn lemma_i64_cast_roundtrip(x: i64)
    ensures
        (x as u64) as i64 == x,
{
    assert((x as u64) as i64 == x) by (bit_vector);
}

/// A property value: a tag byte, then the payload of the variant.
pub open spec fn enc_property_value(v: PropertyValueView) -> Seq<u8> {
    match v {
        PropertyValueView::Null => seq![0u8],
        PropertyValueView::Int(x) => seq![1u8] + enc_u64(x as u64),
        PropertyValueView::UInt(x) => seq![2u8] + enc_u64(x),
        PropertyValueView::Bool(x) => seq![3u8] + seq![if x { 1u8 } else { 0u8 }],
        PropertyValueView::String(s) => seq![4u8] + enc_str(s),
    }
}

/// Decode a property value.
pub open spec fn sdec_property_value(b: Seq<u8>, off: int) -> Option<(PropertyValueView, int)> {
    match sdec_u8(b, off) {
        Some((tag, o1)) => if tag == 0 {
            Some((PropertyValueView::Null, o1))
        } else if tag == 1 {
            match sdec_u64(b, o1) {
                Some((x, o2)) => Some((PropertyValueView::Int(x as i64), o2)),
                None => None,
            }
        } else if tag == 2 {
            match sdec_u64(b, o1) {
                Some((x, o2)) => Some((PropertyValueView::UInt(x), o2)),
                None => None,
            }
        } else if tag == 3 {
            match sdec_u8(b, o1) {
                Some((x, o2)) => if x == 0 {
                    Some((PropertyValueView::Bool(false), o2))
                } else if x == 1 {
                    Some((PropertyValueView::Bool(true), o2))
                } else {
                    None
                },
                None => None,
            }
        } else if tag == 4 {
            match sdec_str(b, o1) {
                Some((s, o2)) => Some((PropertyValueView::String(s), o2)),
                None => None,
            }
        } else {
            None
        },
        None => None,
    }
}

/// Whether a property value's string, if any, fits its length prefix.
pub open spec fn property_value_ok(v: PropertyValueView) -> bool {
    match v {
        PropertyValueView::String(s) => encode_utf8(s).len() <= u64::MAX,
        _ => true,
    }
}

pub proof fn lemma_sdec_enc_property_value(b: Seq<u8>, off: int, v: PropertyValueView)
    requires
        0 <= off,
        property_value_ok(v),
        off + enc_property_value(v).len() <= b.len(),
        b.subrange(off, off + enc_property_value(v).len() as int) == enc_property_value(v),
    ensures
        sdec_property_value(b, off) == Some((v, off + enc_property_value(v).len())),
{
    lemma_enc_lens();
    let e = enc_property_value(v);
    assert(b.subrange(off, off + 1) =~= e.subrange(0, 1));
    match v {
        PropertyValueView::Null => {
            assert(e.subrange(0, 1) =~= enc_u8(0));
            lemma_sdec_enc_u8(b, off, 0);
        },
        PropertyValueView::Int(x) => {
            assert(e.subrange(0, 1) =~= enc_u8(1));
            lemma_sdec_enc_u8(b, off, 1);
            assert(b.subrange(off + 1, off + 9) =~= e.subrange(1, 9));
            assert(e.subrange(1, 9) =~= enc_u64(x as u64));
            lemma_sdec_enc_u64(b, off + 1, x as u64);
            lemma_i64_cast_roundtrip(x);
        },
        PropertyValueView::UInt(x) => {
            assert(e.subrange(0, 1) =~= enc_u8(2));
            lemma_sdec_enc_u8(b, off, 2);
            assert(b.subrange(off + 1, off + 9) =~= e.subrange(1, 9));
            assert(e.subrange(1, 9) =~= enc_u64(x));
            lemma_sdec_enc_u64(b, off + 1, x);
        },
        PropertyValueView::Bool(x) => {
            assert(e.subrange(0, 1) =~= enc_u8(3));
            lemma_sdec_enc_u8(b, off, 3);
            assert(b.subrange(off + 1, off + 2) =~= e.subrange(1, 2));
            assert(e.subrange(1, 2) =~= enc_u8(if x { 1u8 } else { 0u8 }));
            lemma_sdec_enc_u8(b, off + 1, if x { 1u8 } else { 0u8 });
        },
        PropertyValueView::String(s) => {
            assert(e.subrange(0, 1) =~= enc_u8(4));
            lemma_sdec_enc_u8(b, off, 4);
            assert(b.subrange(off + 1, off + 1 + enc_str(s).len() as int) =~= e.subrange(
                1,
                e.len() as int,
            ));
            assert(e.subrange(1, e.len() as int) =~= enc_str(s));
            lemma_sdec_enc_str(b, off + 1, s);
        },
    }
}

// ============================================================================
// Executable domain encoders
// ============================================================================

pub fn put_kind(out: &mut Vec<u8>, k: EntityKind)
    ensures
        final(out)@ == old(out)@ + enc_kind(k),
{
    let b: u8 = match k {
        EntityKind::Resource => 0,
        EntityKind::Creature => 1,
        EntityKind::Item => 2,
        EntityKind::Structure => 3,
    };
    put_u8(out, b);
}

pub fn put_state(out: &mut Vec<u8>, s: EntityState)
    ensures
        final(out)@ == old(out)@ + enc_state(s),
{
    let b: u8 = match s {
        EntityState::Active => 0,
        EntityState::Dormant => 1,
        EntityState::Dead => 2,
    };
    put_u8(out, b);
}

pub fn put_reason(out: &mut Vec<u8>, r: DespawnReason)
    ensures
        final(out)@ == old(out)@ + enc_reason(r),
{
    let b: u8 = match r {
        DespawnReason::Command => 0,
        DespawnReason::Death => 1,
        DespawnReason::Depleted => 2,
        DespawnReason::Expired => 3,
    };
    put_u8(out, b);
}

pub fn put_world_pos(out: &mut Vec<u8>, p: &WorldPos)
    ensures
        final(out)@ == old(out)@ + enc_world_pos(*p),
{
    put_u32(out, p.zone.0);
    put_i32(out, p.pos.x);
    put_i32(out, p.pos.y);
    put_i32(out, p.pos.z);
    proof {
        assert(final(out)@ =~= old(out)@ + enc_world_pos(*p));
    }
}

pub fn put_props(out: &mut Vec<u8>, p: &EntityProperties)
    ensures
        final(out)@ == old(out)@ + enc_props(p@),
{
    put_opt_str(out, &p.name);
    put_opt_u32(out, &p.amount);
    put_opt_u32(out, &p.health);
    proof {
        assert(final(out)@ =~= old(out)@ + enc_props(p@));
    }
}

pub fn put_property_value(out: &mut Vec<u8>, v: &PropertyValue)
    ensures
        final(out)@ == old(out)@ + enc_property_value(v@),
{
    match v {
        PropertyValue::Null => {
            put_u8(out, 0);
        },
        PropertyValue::Int(x) => {
            put_u8(out, 1);
            put_u64(out, *x as u64);
        },
        PropertyValue::UInt(x) => {
            put_u8(out, 2);
            put_u64(out, *x);
        },
        PropertyValue::Bool(x) => {
            put_u8(out, 3);
            put_u8(out, if *x { 1 } else { 0 });
        },
        PropertyValue::String(s) => {
            put_u8(out, 4);
            put_str(out, s.as_str());
        },
    }
    proof {
        assert(final(out)@ =~= old(out)@ + enc_property_value(v@));
    }
}

// ============================================================================
// Executable domain decoders
// ============================================================================

pub fn dec_kind(buf: &[u8], off: usize) -> (r: Option<(EntityKind, usize)>)
    ensures
        match r {
            Some((k, o2)) => sdec_kind(buf@, off as int) == Some((k, o2 as int)),
            None => sdec_kind(buf@, off as int) is None,
        },
{
    match dec_u8(buf, off) {
        Some((t, o2)) => {
            if t == 0 {
                Some((EntityKind::Resource, o2))
            } else if t == 1 {
                Some((EntityKind::Creature, o2))
            } else if t == 2 {
                Some((EntityKind::Item, o2))
            } else if t == 3 {
                Some((EntityKind::Structure, o2))
            } else {
                None
            }
        },
        None => None,
    }
}

pub fn dec_state(buf: &[u8], off: usize) -> (r: Option<(EntityState, usize)>)
    ensures
        match r {
            Some((s, o2)) => sdec_state(buf@, off as int) == Some((s, o2 as int)),
            None => sdec_state(buf@, off as int) is None,
        },
{
    match dec_u8(buf, off) {
        Some((t, o2)) => {
            if t == 0 {
                Some((EntityState::Active, o2))
            } else if t == 1 {
                Some((EntityState::Dormant, o2))
            } else if t == 2 {
                Some((EntityState::Dead, o2))
            } else {
                None
            }
        },
        None => None,
    }
}

pub fn dec_reason(buf: &[u8], off: usize) -> (r: Option<(DespawnReason, usize)>)
    ensures
        match r {
            Some((x, o2)) => sdec_reason(buf@, off as int) == Some((x, o2 as int)),
            None => sdec_reason(buf@, off as int) is None,
        },
{
    match dec_u8(buf, off) {
        Some((t, o2)) => {
            if t == 0 {
                Some((DespawnReason::Command, o2))
            } else if t == 1 {
                Some((DespawnReason::Death, o2))
            } else if t == 2 {
                Some((DespawnReason::Depleted, o2))
            } else if t == 3 {
                Some((DespawnReason::Expired, o2))
            } else {
                None
            }
        },
        None => None,
    }
}

pub fn dec_world_pos(buf: &[u8], off: usize) -> (r: Option<(WorldPos, usize)>)
    ensures
        match r {
            Some((p, o2)) => sdec_world_pos(buf@, off as int) == Some((p, o2 as int)),
            None => sdec_world_pos(buf@, off as int) is None,
        },
{
    match dec_u32(buf, off) {
        Some((z, o1)) => match dec_i32(buf, o1) {
            Some((x, o2)) => match dec_i32(buf, o2) {
                Some((y, o3)) => match dec_i32(buf, o3) {
                    Some((zc, o4)) => Some(
                        (WorldPos { zone: ZoneId(z), pos: Position { x, y, z: zc } }, o4),
                    ),
                    None => None,
                },
                None => None,
            },
            None => None,
        },
        None => None,
    }
}

pub fn dec_props(buf: &[u8], off: usize) -> (r: Option<(EntityProperties, usize)>)
    ensures
        match r {
            Some((p, o2)) => sdec_props(buf@, off as int) == Some((p@, o2 as int)),
            None => sdec_props(buf@, off as int) is None,
        },
{
    match dec_opt_str(buf, off) {
        Some((name, o1)) => match dec_opt_u32(buf, o1) {
            Some((amount, o2)) => match dec_opt_u32(buf, o2) {
                Some((health, o3)) => Some((EntityProperties { name, amount, health }, o3)),
                None => None,
            },
            None => None,
        },
        None => None,
    }
}

pub fn dec_property_value(buf: &[u8], off: usize) -> (r: Option<(PropertyValue, usize)>)
    ensures
        match r {
            Some((v, o2)) => sdec_property_value(buf@, off as int) == Some((v@, o2 as int)),
            None => sdec_property_value(buf@, off as int) is None,
        },
{
    match dec_u8(buf, off) {
        Some((tag, o1)) => {
            if tag == 0 {
                Some((PropertyValue::Null, o1))
            } else if tag == 1 {
                match dec_u64(buf, o1) {
                    Some((x, o2)) => Some((PropertyValue::Int(x as i64), o2)),
                    None => None,
                }
            } else if tag == 2 {
                match dec_u64(buf, o1) {
                    Some((x, o2)) => Some((PropertyValue::UInt(x), o2)),
                    None => None,
                }
            } else if tag == 3 {
                match dec_u8(buf, o1) {
                    Some((x, o2)) => {
                        if x == 0 {
                            Some((PropertyValue::Bool(false), o2))
                        } else if x == 1 {
                            Some((PropertyValue::Bool(true), o2))
                        } else {
                            None
                        }
                    },
                    None => None,
                }
            } else if tag == 4 {
                match dec_str(buf, o1) {
                    Some((s, o2)) => Some((PropertyValue::String(s), o2)),
                    None => None,
                }
            } else {
                None
            }
        },
        None => None,
    }
}

} // verus!
