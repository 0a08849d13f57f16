use vstd::prelude::*;

verus! {

// hpack's decoder, encoder and decode-error types, declared so the library
// can hold and pass them. Their contents stay opaque to verification: a
// header block's decoding depends on the dynamic table each of them carries.
#[verifier::external_type_specification]
#[verifier::external_body]
pub struct ExDecoder<'a>(hpack::Decoder<'a>);

#[verifier::external_type_specification]
#[verifier::external_body]
pub struct ExEncoder<'a>(hpack::Encoder<'a>);

#[verifier::external_type_specification]
#[verifier::external_body]
pub struct ExDecoderError(hpack::decoder::DecoderError);

// An HPACK integer with a `mask`-bit prefix starting at `s[pos]`: its value
// and the octets it occupies, or nothing where the encoding is truncated,
// runs past the block, or (per the protocol's excessively-long-encoding
// rule) still continues in its fifth octet.
pub open spec fn spec_hpack_int(s: Seq<u8>, pos: int, mask: u8) -> Option<(int, int)> {
    if !(0 <= pos < s.len()) {
        None
    } else if ((s[pos] & mask) as int) < (mask as int) {
        Some(((s[pos] & mask) as int, 1))
    } else if pos + 1 >= s.len() {
        None
    } else if s[pos + 1] & 0x80 == 0 {
        Some((mask as int + (s[pos + 1] & 0x7f) as int, 2))
    } else if pos + 2 >= s.len() {
        None
    } else if s[pos + 2] & 0x80 == 0 {
        Some((mask as int + (s[pos + 1] & 0x7f) as int + (s[pos + 2] & 0x7f) as int * 0x80, 3))
    } else if pos + 3 >= s.len() {
        None
    } else if s[pos + 3] & 0x80 == 0 {
        Some(
            (
                mask as int + (s[pos + 1] & 0x7f) as int + (s[pos + 2] & 0x7f) as int * 0x80 + (
                s[pos + 3] & 0x7f) as int * 0x4000,
                4,
            ),
        )
    } else if pos + 4 >= s.len() {
        None
    } else if s[pos + 4] & 0x80 == 0 {
        Some(
            (
                mask as int + (s[pos + 1] & 0x7f) as int + (s[pos + 2] & 0x7f) as int * 0x80 + (
                s[pos + 3] & 0x7f) as int * 0x4000 + (s[pos + 4] & 0x7f) as int * 0x200000,
                5,
            ),
        )
    } else {
        None
    }
}

/// The position after a length-prefixed string starting at `s[pos]`, or
/// nothing where the length prefix is malformed or the string runs past the
/// block.
pub open spec fn spec_skip_string(s: Seq<u8>, pos: int) -> Option<int> {
    match spec_hpack_int(s, pos, 0x7f) {
        None => None,
        Some(lc) => if pos + lc.1 + lc.0 > s.len() {
            None
        } else {
            Some(pos + lc.1 + lc.0)
        },
    }
}

/// The position after a literal header representation starting at `s[pos]`
/// (`mask` selects its prefix width): the table index, a name string where
/// the index is zero, and the value string. Nothing where any part is
/// malformed.
pub open spec fn spec_skip_literal(s: Seq<u8>, pos: int, mask: u8) -> Option<int> {
    match spec_hpack_int(s, pos, mask) {
        None => None,
        Some(ic) => {
            let after_name = if ic.0 == 0 {
                spec_skip_string(s, pos + ic.1)
            } else {
                Some(pos + ic.1)
            };
            match after_name {
                None => None,
                Some(p) => spec_skip_string(s, p),
            }
        },
    }
}

proof fn lemma_hpack_int_bounds(s: Seq<u8>, pos: int, mask: u8)
    ensures
        spec_hpack_int(s, pos, mask) matches Some(vc) ==> 0 <= vc.0 && 1 <= vc.1 && pos + vc.1
            <= s.len(),
{
}

proof fn lemma_skip_string_bounds(s: Seq<u8>, pos: int)
    ensures
        spec_skip_string(s, pos) matches Some(p) ==> pos < p <= s.len(),
{
    lemma_hpack_int_bounds(s, pos, 0x7f);
}

proof fn lemma_skip_literal_bounds(s: Seq<u8>, pos: int, mask: u8)
    ensures
        spec_skip_literal(s, pos, mask) matches Some(p) ==> pos < p <= s.len(),
{
    lemma_hpack_int_bounds(s, pos, mask);
    match spec_hpack_int(s, pos, mask) {
        None => {
        },
        Some(ic) => {
            lemma_skip_string_bounds(s, pos + ic.1);
            match spec_skip_string(s, pos + ic.1) {
                None => {
                },
                Some(p) => {
                    lemma_skip_string_bounds(s, p);
                },
            }
        },
    }
}

/// True of a header block that hpack's decoder handles without panicking
/// from `s[pos]` on. The decoder returns every malformed byte as an error,
/// with one exception: a dynamic-table size update (a representation whose
/// first byte has bit pattern `001`) whose length prefix is truncated or
/// overlong is unwrapped, not checked, in `Decoder::update_max_dynamic_size`.
/// This scan walks the representation framing — which is determined by the
/// bytes alone — and refuses exactly the blocks that reach such a size
/// update. Where some other representation is malformed the scan stops and
/// accepts: the decoder errors out there and never reaches a later size
/// update.
pub open spec fn spec_block_safe_from(s: Seq<u8>, pos: int) -> bool
    decreases s.len() - pos,
    via spec_block_safe_from_decreases
{
    if !(0 <= pos < s.len()) {
        true
    } else if s[pos] & 0x80 == 0x80 {
        // Indexed header: one integer, 7-bit prefix.
        match spec_hpack_int(s, pos, 0x7f) {
            None => true,
            Some(vc) => spec_block_safe_from(s, pos + vc.1),
        }
    } else if s[pos] & 0x40 == 0x40 {
        // Literal with incremental indexing: 6-bit prefix.
        match spec_skip_literal(s, pos, 0x3f) {
            None => true,
            Some(p) => spec_block_safe_from(s, p),
        }
    } else if s[pos] & 0x20 == 0x20 {
        // Size update: the decoder asserts, rather than checks, this integer.
        match spec_hpack_int(s, pos, 0x1f) {
            None => false,
            Some(vc) => spec_block_safe_from(s, pos + vc.1),
        }
    } else {
        // Literal without indexing / never indexed: 4-bit prefix.
        match spec_skip_literal(s, pos, 0x0f) {
            None => true,
            Some(p) => spec_block_safe_from(s, p),
        }
    }
}

#[via_fn]
proof fn spec_block_safe_from_decreases(s: Seq<u8>, pos: int) {
    lemma_hpack_int_bounds(s, pos, 0x7f);
    lemma_hpack_int_bounds(s, pos, 0x1f);
    lemma_skip_literal_bounds(s, pos, 0x3f);
    lemma_skip_literal_bounds(s, pos, 0x0f);
}

/// True of a whole header block that hpack's decoder handles without
/// panicking; `decode_block` requires it.
pub open spec fn spec_block_safe(s: Seq<u8>) -> bool {
    spec_block_safe_from(s, 0)
}

fn hpack_int(buf: &Vec<u8>, pos: usize, mask: u8) -> (r: Option<(u32, usize)>)
    ensures
        r is Some <==> spec_hpack_int(buf@, pos as int, mask) is Some,
        r matches Some(vc) ==> spec_hpack_int(buf@, pos as int, mask) == Some(
            (vc.0 as int, vc.1 as int),
        ),
{
    let n = buf.len();
    if pos >= n {
        return None;
    }
    let v0 = buf[pos] & mask;
    if v0 < mask {
        return Some((v0 as u32, 1));
    }
    if pos + 1 >= n {
        return None;
    }
    let b1 = buf[pos + 1];
    if b1 & 0x80 == 0 {
        return Some((mask as u32 + (b1 & 0x7f) as u32, 2));
    }
    if pos + 2 >= n {
        return None;
    }
    let b2 = buf[pos + 2];
    if b2 & 0x80 == 0 {
        return Some((mask as u32 + (b1 & 0x7f) as u32 + (b2 & 0x7f) as u32 * 0x80, 3));
    }
    if pos + 3 >= n {
        return None;
    }
    let b3 = buf[pos + 3];
    if b3 & 0x80 == 0 {
        return Some(
            (
                mask as u32 + (b1 & 0x7f) as u32 + (b2 & 0x7f) as u32 * 0x80 + (b3 & 0x7f) as u32
                    * 0x4000,
                4,
            ),
        );
    }
    if pos + 4 >= n {
        return None;
    }
    let b4 = buf[pos + 4];
    if b4 & 0x80 == 0 {
        return Some(
            (
                mask as u32 + (b1 & 0x7f) as u32 + (b2 & 0x7f) as u32 * 0x80 + (b3 & 0x7f) as u32
                    * 0x4000 + (b4 & 0x7f) as u32 * 0x200000,
                5,
            ),
        );
    }
    None
}

fn skip_string(buf: &Vec<u8>, pos: usize) -> (r: Option<usize>)
    ensures
        r is Some <==> spec_skip_string(buf@, pos as int) is Some,
        r matches Some(p) ==> spec_skip_string(buf@, pos as int) == Some(p as int),
{
    proof {
        lemma_hpack_int_bounds(buf@, pos as int, 0x7f);
    }
    match hpack_int(buf, pos, 0x7f) {
        None => None,
        Some((len, consumed)) => {
            let remaining = buf.len() - pos - consumed;
            if len as usize > remaining {
                return None;
            }
            Some(pos + consumed + len as usize)
        },
    }
}

fn skip_literal(buf: &Vec<u8>, pos: usize, mask: u8) -> (r: Option<usize>)
    ensures
        r is Some <==> spec_skip_literal(buf@, pos as int, mask) is Some,
        r matches Some(p) ==> spec_skip_literal(buf@, pos as int, mask) == Some(p as int),
{
    let _n = buf.len();
    proof {
        lemma_hpack_int_bounds(buf@, pos as int, mask);
    }
    match hpack_int(buf, pos, mask) {
        None => None,
        Some((index, consumed)) => {
            proof {
                assert(spec_hpack_int(buf@, pos as int, mask) == Some(
                    (index as int, consumed as int),
                ));
                assert(pos + consumed <= buf@.len());
            }
            let after_index = pos + consumed;
            let after_name = if index == 0 {
                match skip_string(buf, after_index) {
                    None => {
                        return None;
                    },
                    Some(p) => p,
                }
            } else {
                after_index
            };
            skip_string(buf, after_name)
        },
    }
}

/// Scan a header block's representation framing, accepting exactly the
/// blocks `spec_block_safe` accepts: the check that stands between a frame's
/// body and `decode_block`.
pub(crate) fn block_safe(buf: &Vec<u8>) -> (r: bool)
    ensures
        r == spec_block_safe(buf@),
{
    let n = buf.len();
    let mut pos: usize = 0;
    loop
        invariant
            pos <= n,
            n == buf@.len(),
            spec_block_safe(buf@) == spec_block_safe_from(buf@, pos as int),
        decreases n - pos,
    {
        if pos >= n {
            return true;
        }
        let b = buf[pos];
        if b & 0x80 == 0x80 {
            match hpack_int(buf, pos, 0x7f) {
                None => {
                    return true;
                },
                Some((_, consumed)) => {
                    proof {
                        lemma_hpack_int_bounds(buf@, pos as int, 0x7f);
                    }
                    pos = pos + consumed;
                },
            }
        } else if b & 0x40 == 0x40 {
            match skip_literal(buf, pos, 0x3f) {
                None => {
                    return true;
                },
                Some(p) => {
                    proof {
                        lemma_skip_literal_bounds(buf@, pos as int, 0x3f);
                    }
                    pos = p;
                },
            }
        } else if b & 0x20 == 0x20 {
            match hpack_int(buf, pos, 0x1f) {
                None => {
                    return false;
                },
                Some((_, consumed)) => {
                    proof {
                        lemma_hpack_int_bounds(buf@, pos as int, 0x1f);
                    }
                    pos = pos + consumed;
                },
            }
        } else {
            match skip_literal(buf, pos, 0x0f) {
                None => {
                    return true;
                },
                Some(p) => {
                    proof {
                        lemma_skip_literal_bounds(buf@, pos as int, 0x0f);
                    }
                    pos = p;
                },
            }
        }
    }
}

/// Relies on hpack::Decoder::new: a fresh decoder with an empty dynamic table.
#[verifier::external_body]
pub(crate) fn new_decoder() -> hpack::Decoder<'static> {
    hpack::Decoder::new()
}

/// Relies on hpack::Encoder::new: a fresh encoder with an empty dynamic table.
#[verifier::external_body]
pub(crate) fn new_encoder() -> hpack::Encoder<'static> {
    hpack::Encoder::new()
}

/// Relies on hpack::Decoder::decode: the block's key/value pairs, in order,
/// or a decode error. What comes back depends on the decoder's dynamic-table
/// state as well as the bytes, so nothing is stated of it; callers must
/// handle every possible header list, and `Request::from_h2_headers` is
/// verified for all of them. The decoder returns malformed input as an
/// error except for one path — a dynamic-table size update with a truncated
/// or overlong length prefix panics on an internal `unwrap` — so blocks
/// that would reach it are excluded by `requires`; callers establish it with
/// the verified `block_safe` scan.
#[verifier::external_body]
pub(crate) fn decode_block<'a>(decoder: &mut hpack::Decoder<'a>, buf: &Vec<u8>) -> Result<
    Vec<crate::http::Header>,
    hpack::decoder::DecoderError,
>
    requires
        spec_block_safe(buf@),
{
    let pairs = decoder.decode(buf)?;
    let mut headers = Vec::new();
    for (key, value) in pairs {
        headers.push(
            crate::http::Header {
                key: String::from_utf8_lossy(&key).into_owned(),
                value: String::from_utf8_lossy(&value).into_owned(),
            },
        );
    }
    Ok(headers)
}

/// Relies on hpack::Encoder::encode: a block encoding exactly the given
/// key/value pairs. The bytes depend on the encoder's dynamic-table state,
/// so nothing is stated of them.
#[verifier::external_body]
pub(crate) fn encode_block<'a>(
    encoder: &mut hpack::Encoder<'a>,
    headers: &Vec<crate::http::Header>,
) -> Vec<u8> {
    let pairs: Vec<(&[u8], &[u8])> = headers.iter().map(
        |h| (h.key.as_bytes(), h.value.as_bytes()),
    ).collect();
    encoder.encode(pairs)
}

} // verus!
