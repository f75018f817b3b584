//! How a stream's chunks are encoded.

use std::io::{Read, Write};

use vstd::prelude::*;

use crate::bytes;
use crate::error::{malformed, unsupported, Error, ErrorView, Locus, LocusView};
use crate::text;

verus! {

/// A chunk encoding.
#[derive(Debug, Clone, Copy, PartialEq, Eq, Structural)]
pub enum Codec {
    /// Raw Snappy blocks.
    Snappy,
    /// LZ4 blocks.
    Lz4,
    /// zlib streams.
    Zlib,
    /// No encoding.
    Stored,
    /// Raw Deflate streams: recognised, not decoded.
    Deflate,
    /// The framing that Rekall gave Snappy: recognised, not decoded.
    SnappyRekall,
}

/// A codec's short name.
pub open spec fn codec_name(c: Codec) -> Seq<char> {
    match c {
        Codec::Snappy => "snappy"@,
        Codec::Lz4 => "lz4"@,
        Codec::Zlib => "zlib"@,
        Codec::Stored => "stored"@,
        Codec::Deflate => "deflate"@,
        Codec::SnappyRekall => "snappy (Rekall)"@,
    }
}

/// The IRI that a stream declares a codec by.
pub open spec fn codec_iri(c: Codec) -> Seq<char> {
    match c {
        Codec::Snappy => "http://code.google.com/p/snappy/"@,
        Codec::Lz4 => "https://code.google.com/p/lz4/"@,
        Codec::Zlib => "https://www.ietf.org/rfc/rfc1950.txt"@,
        Codec::Stored => "http://aff4.org/Schema#NullCompressor"@,
        Codec::Deflate => "https://tools.ietf.org/html/rfc1951"@,
        Codec::SnappyRekall => "https://github.com/google/snappy"@,
    }
}

/// Whether chunks in this encoding are decoded and encoded here.
pub open spec fn handled(c: Codec) -> bool {
    c != Codec::Deflate && c != Codec::SnappyRekall
}

/// What raw Snappy decoding makes of a byte string, if anything.
pub uninterp spec fn snappy_decoded(data: Seq<u8>) -> Option<Seq<u8>>;

/// What raw Snappy encoding makes of a byte string, if anything.
pub uninterp spec fn snappy_encoded(data: Seq<u8>) -> Option<Seq<u8>>;

/// What LZ4 block decoding makes of a byte string, given room for `room` bytes.
pub uninterp spec fn lz4_decoded(data: Seq<u8>, room: nat) -> Option<Seq<u8>>;

/// What LZ4 block encoding makes of a byte string.
pub uninterp spec fn lz4_encoded(data: Seq<u8>) -> Seq<u8>;

/// What zlib decoding makes of a byte string, if anything.
pub uninterp spec fn zlib_decoded(data: Seq<u8>) -> Option<Seq<u8>>;

/// What zlib encoding at the default level makes of a byte string.
pub uninterp spec fn zlib_encoded(data: Seq<u8>) -> Seq<u8>;

/// The bytes of an optional byte vector.
pub open spec fn optional_bytes(r: Option<Vec<u8>>) -> Option<Seq<u8>> {
    match r {
        Some(v) => Some(v@),
        None => None,
    }
}

/// The most bytes whose length times 110 is still a number.
pub const MOST_COMPRESSIBLE: usize = usize::MAX / 110;

/// What the bytes of a length field in an LZ4 block add up to: those of value 255, and
/// the first that is not.
pub open spec fn length_sum(block: Seq<u8>, at: nat) -> nat
    decreases block.len() - at,
{
    if at >= block.len() {
        0
    } else if block[at as int] == 255 {
        255 + length_sum(block, at + 1)
    } else {
        block[at as int] as nat
    }
}

/// How many bytes a length field in an LZ4 block has.
pub open spec fn length_width(block: Seq<u8>, at: nat) -> nat
    decreases block.len() - at,
{
    if at >= block.len() {
        0
    } else if block[at as int] == 255 {
        1 + length_width(block, at + 1)
    } else {
        1
    }
}

/// Whether a length is a number of 32 bits and, with what its token adds to it, no
/// longer than the room there is.
pub open spec fn length_fits(sum: nat, more: nat, room: nat) -> bool {
    sum <= u32::MAX && sum + more <= room
}

/// Whether every length field of an LZ4 block, from a token on, fits. A block in which
/// one does not holds more bytes than there is room for.
///
/// A token gives the length of the bytes behind it, and of the match behind those; a
/// field follows where either is 15, and two bytes before a match say where it is.
pub open spec fn lengths_fit(block: Seq<u8>, at: nat, room: nat) -> bool
    decreases
            (if at < block.len() {
                block.len() - at
            } else {
                0
            }),
{
    if at >= block.len() {
        true
    } else {
        let token = block[at as int] as nat;
        let long = token / 16 == 15;
        let plain = if long {
            length_width(block, at + 1) + 15 + length_sum(block, at + 1)
        } else {
            token / 16
        };
        let next = at + 1 + plain + 2;
        if long && !length_fits(length_sum(block, at + 1), 15, room) {
            false
        } else if next > block.len() {
            true
        } else if token % 16 != 15 {
            lengths_fit(block, next, room)
        } else {
            length_fits(length_sum(block, next), 19, room) && lengths_fit(
                block,
                next + length_width(block, next),
                room,
            )
        }
    }
}

/// Whether bytes of a length can be compressed by LZ4: the room that may be needed for
/// them is a number, and so is the length of any match within them.
pub open spec fn lz4_takes(len: nat) -> bool {
    len <= MOST_COMPRESSIBLE && len <= u32::MAX
}

/// The room made for a chunk: its size, at most what a vector can have.
pub open spec fn room_for(chunk_size: nat) -> nat {
    if chunk_size > isize::MAX {
        isize::MAX as nat
    } else {
        chunk_size
    }
}

/// `snap::raw::Decoder::decompress_vec` on a fresh decoder: a function of the
/// bytes alone, which fails on anything that is not a Snappy block.
#[verifier::external_body]
fn snappy_decompress(data: &[u8]) -> (r: Option<Vec<u8>>)
    ensures
        optional_bytes(r) == snappy_decoded(data@),
{
    snap::raw::Decoder::new().decompress_vec(data).ok()
}

/// `snap::raw::Encoder::compress_vec` on a fresh encoder: a function of the
/// bytes alone, which fails only where the longest result they could have passes
/// `u32::MAX` bytes, and whose result is not empty and decodes to the bytes encoded.
#[verifier::external_body]
pub(crate) fn snappy_compress(data: &[u8]) -> (r: Option<Vec<u8>>)
    ensures
        optional_bytes(r) == snappy_encoded(data@),
        r matches Some(v) ==> snappy_decoded(v@) == Some(data@) && v@.len() > 0,
{
    snap::raw::Encoder::new().compress_vec(data).ok()
}

/// `lz4_flex::block::decompress`: a function of the bytes and of the room given,
/// which fails on anything that is not an LZ4 block or does not fit. It makes the
/// room beforehand, so there must not be more of it than a vector can have, and adds
/// up each length in 32 bits before it looks at the room, so each has to fit.
#[verifier::external_body]
fn lz4_decompress(data: &[u8], room: usize) -> (r: Option<Vec<u8>>)
    requires
        lengths_fit(data@, 0, room as nat),
        room <= isize::MAX,
    ensures
        optional_bytes(r) == lz4_decoded(data@, room as nat),
{
    lz4_flex::block::decompress(data, room).ok()
}

/// `lz4_flex::block::compress`: a function of the bytes alone, whose result is
/// not empty and decodes to the bytes encoded wherever there is room for them. No length
/// in it passes that of the bytes. It computes the room that it may need as 110
/// hundredths of the length, and the decoder adds up lengths in 32 bits.
#[verifier::external_body]
pub(crate) fn lz4_compress(data: &[u8]) -> (r: Vec<u8>)
    requires
        lz4_takes(data@.len()),
    ensures
        r@ == lz4_encoded(data@),
        forall|room: nat|
            data@.len() <= room <= isize::MAX ==> #[trigger] lz4_decoded(r@, room) == Some(data@)
                && lengths_fit(r@, 0, room),
        r@.len() > 0,
{
    lz4_flex::block::compress(data)
}

/// `flate2::read::ZlibDecoder` read to its end: a function of the bytes alone,
/// which fails on bytes that do not begin with a whole zlib stream.
#[verifier::external_body]
fn zlib_decompress(data: &[u8]) -> (r: Option<Vec<u8>>)
    ensures
        optional_bytes(r) == zlib_decoded(data@),
{
    let mut out = Vec::new();
    let read = flate2::read::ZlibDecoder::new(data).read_to_end(&mut out);
    read.ok().map(|_n| out)
}

/// `flate2::write::ZlibEncoder` at the default level, fed once and finished: a
/// function of the bytes alone, whose result is not empty and decodes to the bytes
/// encoded. Writing into memory does not fail.
#[verifier::external_body]
pub(crate) fn zlib_compress(data: &[u8]) -> (r: Vec<u8>)
    ensures
        r@ == zlib_encoded(data@),
        zlib_decoded(r@) == Some(data@),
        r@.len() > 0,
{
    let mut encoder = flate2::write::ZlibEncoder::new(Vec::new(), flate2::Compression::default());
    encoder.write_all(data).expect("memory accepts every write");
    encoder.finish().expect("memory accepts every write")
}

/// What a length field adds up to, and where it ends.
fn read_length(block: &[u8], at: usize) -> (r: (u128, usize))
    requires
        at <= block@.len(),
    ensures
        r.0 == length_sum(block@, at as nat),
        r.0 <= 255 * usize::MAX,
        r.1 == at + length_width(block@, at as nat),
        r.1 <= block@.len(),
{
    let length: usize = block.len();
    let mut sum: u128 = 0;
    let mut i: usize = at;
    while i < length && block[i] == 255
        invariant
            length == block@.len(),
            at <= i <= length,
            sum == 255 * (i - at),
            length_sum(block@, at as nat) == sum + length_sum(block@, i as nat),
            length_width(block@, at as nat) == (i - at) + length_width(block@, i as nat),
        decreases length - i,
    {
        sum = sum + 255;
        i = i + 1;
    }
    if i < length {
        sum = sum + block[i] as u128;
        i = i + 1;
    }
    (sum, i)
}

/// Whether every length field of an LZ4 block fits.
fn check_lengths(block: &[u8], room: usize) -> (r: bool)
    ensures
        r == lengths_fit(block@, 0, room as nat),
{
    let length: usize = block.len();
    let mut at: usize = 0;
    while at < length
        invariant
            length == block@.len(),
            at <= length,
            lengths_fit(block@, 0, room as nat) == lengths_fit(block@, at as nat, room as nat),
        decreases length - at,
    {
        let token: u8 = block[at];
        let mut from: usize = at + 1;
        let mut plain: u128 = (token / 16) as u128;
        if token / 16 == 15 {
            let (sum, end) = read_length(block, at + 1);
            if sum > u32::MAX as u128 || sum + 15 > room as u128 {
                return false;
            }
            plain = 15 + sum;
            from = end;
        }
        if plain + 2 > (length - from) as u128 {
            return true;
        }
        let next: usize = from + plain as usize + 2;
        if token % 16 == 15 {
            let (sum, end) = read_length(block, next);
            if sum > u32::MAX as u128 || sum + 19 > room as u128 {
                return false;
            }
            at = end;
        } else {
            at = next;
        }
    }
    true
}

/// Which codec a declared IRI names, if any.
pub open spec fn codec_of_iri(iri: Seq<char>) -> Option<Codec> {
    if iri == codec_iri(Codec::Snappy) {
        Some(Codec::Snappy)
    } else if iri == codec_iri(Codec::Lz4) {
        Some(Codec::Lz4)
    } else if iri == codec_iri(Codec::Zlib) {
        Some(Codec::Zlib)
    } else if iri == codec_iri(Codec::Stored) {
        Some(Codec::Stored)
    } else if iri == codec_iri(Codec::Deflate) {
        Some(Codec::Deflate)
    } else if iri == codec_iri(Codec::SnappyRekall) {
        Some(Codec::SnappyRekall)
    } else {
        None
    }
}

impl Codec {
    /// The codec's short name.
    pub fn name(self) -> (r: &'static str)
        ensures
            r@ == codec_name(self),
    {
        match self {
            Codec::Snappy => "snappy",
            Codec::Lz4 => "lz4",
            Codec::Zlib => "zlib",
            Codec::Stored => "stored",
            Codec::Deflate => "deflate",
            Codec::SnappyRekall => "snappy (Rekall)",
        }
    }

    /// The IRI that a stream declares this codec by.
    pub fn iri(self) -> (r: &'static str)
        ensures
            r@ == codec_iri(self),
    {
        match self {
            Codec::Snappy => "http://code.google.com/p/snappy/",
            Codec::Lz4 => "https://code.google.com/p/lz4/",
            Codec::Zlib => "https://www.ietf.org/rfc/rfc1950.txt",
            Codec::Stored => "http://aff4.org/Schema#NullCompressor",
            Codec::Deflate => "https://tools.ietf.org/html/rfc1951",
            Codec::SnappyRekall => "https://github.com/google/snappy",
        }
    }

    /// Which codec a declared IRI names, if any.
    pub fn from_iri(iri: &str) -> (r: Option<Codec>)
        ensures
            r == codec_of_iri(iri@),
    {
        if text::same(iri, Codec::Snappy.iri()) {
            Some(Codec::Snappy)
        } else if text::same(iri, Codec::Lz4.iri()) {
            Some(Codec::Lz4)
        } else if text::same(iri, Codec::Zlib.iri()) {
            Some(Codec::Zlib)
        } else if text::same(iri, Codec::Stored.iri()) {
            Some(Codec::Stored)
        } else if text::same(iri, Codec::Deflate.iri()) {
            Some(Codec::Deflate)
        } else if text::same(iri, Codec::SnappyRekall.iri()) {
            Some(Codec::SnappyRekall)
        } else {
            None
        }
    }

    /// Whether chunks in this encoding are decoded and encoded here.
    pub fn is_handled(self) -> (r: bool)
        ensures
            r == handled(self),
    {
        match self {
            Codec::Deflate => false,
            Codec::SnappyRekall => false,
            _ => true,
        }
    }
}

/// What is said of a codec that is recognised but not handled.
pub open spec fn unhandled_text(codec: Codec) -> Seq<char> {
    "chunks encoded with "@ + codec_name(codec) + " ("@ + codec_iri(codec)
        + ") are not handled"@
}

/// What is said of a chunk that its codec does not decode.
pub open spec fn undecodable_text(codec: Codec, stored: nat) -> Seq<char> {
    "a chunk of "@ + text::decimal(stored) + " stored bytes does not decode as "@ + codec_name(codec)
}

/// What is said of a chunk that decodes to more than a chunk holds.
pub open spec fn oversized_text(decoded: nat, chunk_size: nat) -> Seq<char> {
    "a chunk decodes to "@ + text::decimal(decoded) + " bytes, more than the "@ + text::decimal(
        chunk_size,
    ) + " bytes a chunk holds"@
}

/// What a codec's own decoder makes of a stored chunk, if anything.
pub open spec fn raw_decoded(codec: Codec, stored: Seq<u8>, chunk_size: nat) -> Option<Seq<u8>> {
    match codec {
        Codec::Snappy => snappy_decoded(stored),
        Codec::Lz4 => if lengths_fit(stored, 0, room_for(chunk_size)) {
            lz4_decoded(stored, room_for(chunk_size))
        } else {
            None
        },
        Codec::Zlib => zlib_decoded(stored),
        _ => Some(stored),
    }
}

/// The plain bytes of a stored chunk, or why there are none.
///
/// A chunk whose stored length is the chunk size is verbatim.
pub open spec fn chunk_decoded(
    codec: Codec,
    stored: Seq<u8>,
    chunk_size: nat,
    locus: LocusView,
) -> Result<Seq<u8>, ErrorView> {
    if !handled(codec) {
        Err(unsupported(locus, unhandled_text(codec)))
    } else if stored.len() == chunk_size {
        Ok(stored)
    } else {
        match raw_decoded(codec, stored, chunk_size) {
            None => Err(malformed(locus, undecodable_text(codec, stored.len()))),
            Some(plain) => if plain.len() > chunk_size {
                Err(malformed(locus, oversized_text(plain.len(), chunk_size)))
            } else {
                Ok(plain)
            },
        }
    }
}

/// The plain bytes of a stored chunk.
pub fn decompress_chunk(codec: Codec, stored: &[u8], chunk_size: usize, locus: &Locus) -> (r: Result<
    Vec<u8>,
    Error,
>)
    ensures
        (match r {
            Ok(plain) => chunk_decoded(codec, stored@, chunk_size as nat, locus@) == Ok::<
                Seq<u8>,
                ErrorView,
            >(plain@),
            Err(e) => chunk_decoded(codec, stored@, chunk_size as nat, locus@) == Err::<
                Seq<u8>,
                ErrorView,
            >(e@),
        }),
{
    if !codec.is_handled() {
        return Err(
            Error::unsupported(
                locus.clone(),
                text::cat5(
                    "chunks encoded with ",
                    codec.name(),
                    " (",
                    codec.iri(),
                    ") are not handled",
                ),
            ),
        );
    }
    if stored.len() == chunk_size {
        return Ok(bytes::copied(stored));
    }
    let decoded = match codec {
        Codec::Snappy => snappy_decompress(stored),
        Codec::Lz4 => {
            let room: usize = if chunk_size > isize::MAX as usize {
                isize::MAX as usize
            } else {
                chunk_size
            };
            if check_lengths(stored, room) {
                lz4_decompress(stored, room)
            } else {
                None
            }
        },
        Codec::Zlib => zlib_decompress(stored),
        _ => Some(bytes::copied(stored)),
    };
    match decoded {
        None => Err(
            Error::malformed(
                locus.clone(),
                text::cat4(
                    "a chunk of ",
                    text::dec_usize(stored.len()).as_str(),
                    " stored bytes does not decode as ",
                    codec.name(),
                ),
            ),
        ),
        Some(plain) => if plain.len() > chunk_size {
            Err(
                Error::malformed(
                    locus.clone(),
                    text::cat5(
                        "a chunk decodes to ",
                        text::dec_usize(plain.len()).as_str(),
                        " bytes, more than the ",
                        text::dec_usize(chunk_size).as_str(),
                        " bytes a chunk holds",
                    ),
                ),
            )
        } else {
            Ok(plain)
        },
    }
}

/// The encoded form of a chunk under a handled codec; the chunk itself where the
/// encoder declines it.
pub open spec fn chunk_encoded(codec: Codec, chunk: Seq<u8>) -> Seq<u8> {
    match codec {
        Codec::Snappy => match snappy_encoded(chunk) {
            Some(out) => out,
            None => chunk,
        },
        Codec::Lz4 => lz4_encoded(chunk),
        Codec::Zlib => zlib_encoded(chunk),
        _ => chunk,
    }
}

} // verus!
