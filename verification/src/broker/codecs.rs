//! The compression codecs of the outside crates, as the broker calls them.
//!
//! Each compressed form is named by a function of the input (and level),
//! and each decoder by a function of its input. Where a crate documents that
//! its decoder gives back what its encoder made, the decoder's contract says
//! so.

use vstd::prelude::*;
use std::io::{Read, Write};
use std::time::{Duration, Instant};

verus! {

/// The standard library's monotonic clock reading.
#[verifier::external_type_specification]
#[verifier::external_body]
pub struct ExInstant(Instant);

/// Reads the monotonic clock (`Instant::now`).
#[verifier::external_body]
pub fn instant_now() -> Instant {
    Instant::now()
}

/// The time since `start` (`Instant::elapsed`); it depends on the clock, so
/// nothing is promised of it.
#[verifier::external_body]
pub fn elapsed_since(start: &Instant) -> Duration {
    start.elapsed()
}

/// The number of logical CPUs (`num_cpus::get`), which its documentation
/// says is at least one.
#[verifier::external_body]
pub fn cpu_count() -> (n: usize)
    ensures
        n >= 1,
{
    num_cpus::get()
}

/// What `lz4_flex::compress_prepend_size` makes of `data`: its length as a
/// four-byte little-endian number, then the LZ4 block.
pub uninterp spec fn lz4_sized_block(data: Seq<u8>) -> Seq<u8>;

/// What `lz4_flex::decompress_size_prepended` makes of `data` when it
/// succeeds.
pub uninterp spec fn lz4_sized_decoded(data: Seq<u8>) -> Seq<u8>;

/// Calls `lz4_flex::compress_prepend_size`.
#[verifier::external_body]
pub fn lz4_compress(data: &[u8]) -> (r: Vec<u8>)
    ensures
        r@ == lz4_sized_block(data@),
{
    lz4_flex::compress_prepend_size(data)
}

/// Calls `lz4_flex::decompress_size_prepended`, giving its error as text;
/// it reads back the input of what `compress_prepend_size` made, as the
/// crate documents the two to be used together. The size prefix is the
/// input's length as a `u32`, so the round trip is stated for inputs of
/// fewer than 2^32 bytes; of longer ones the prefix is cut short and the
/// decoder fails.
#[verifier::external_body]
pub fn lz4_decompress_sized(data: &[u8]) -> (r: std::result::Result<Vec<u8>, String>)
    ensures
        r matches Ok(v) ==> v@ == lz4_sized_decoded(data@) && (forall|x: Seq<u8>| x.len() <= u32::MAX && data@ == lz4_sized_block(x) ==> v@ == x),
        (exists|x: Seq<u8>| x.len() <= u32::MAX && data@ == lz4_sized_block(x)) ==> r is Ok,
{
    lz4_flex::decompress_size_prepended(data).map_err(|e| e.to_string())
}

/// The frame `zstd::encode_all` makes of `data` at `level`.
pub uninterp spec fn zstd_encoded(data: Seq<u8>, level: i32) -> Seq<u8>;

/// What `zstd::decode_all` makes of `data` when it succeeds.
pub uninterp spec fn zstd_decoded(data: Seq<u8>) -> Seq<u8>;

/// Calls `zstd::encode_all` on the bytes. Its errors are those of reading
/// the input and writing the output, which a slice and a vector do not
/// raise (zstd clamps a level out of its range), so it succeeds.
#[verifier::external_body]
pub fn zstd_encode(data: &[u8], level: i32) -> (r: std::io::Result<Vec<u8>>)
    ensures
        r is Ok,
        r matches Ok(v) ==> v@ == zstd_encoded(data@, level),
{
    zstd::encode_all(data, level)
}

/// Calls `zstd::decode_all` on the bytes, which gives back the input of
/// any frame `encode_all` made.
#[verifier::external_body]
pub fn zstd_decode(data: &[u8]) -> (r: std::io::Result<Vec<u8>>)
    ensures
        r matches Ok(v) ==> v@ == zstd_decoded(data@) && (forall|x: Seq<u8>, l: i32| data@ == zstd_encoded(x, l) ==> v@ == x),
        (exists|x: Seq<u8>, l: i32| data@ == zstd_encoded(x, l)) ==> r is Ok,
{
    zstd::decode_all(data)
}

/// The stream a `brotli::CompressorWriter` (4096-byte buffer, window 22)
/// writes for `data` at `quality`.
pub uninterp spec fn brotli_encoded(data: Seq<u8>, quality: u32) -> Seq<u8>;

/// What a `brotli::Decompressor` reads out of `data` when it succeeds.
pub uninterp spec fn brotli_decoded(data: Seq<u8>) -> Seq<u8>;

/// Writes `data` through a `brotli::CompressorWriter` into a vector and
/// flushes it. The encoder refuses only metadata operations and calls out
/// of order, which the writer does not make, and it clamps the quality; a
/// vector takes every write, so it succeeds.
#[verifier::external_body]
pub fn brotli_compress(data: &[u8], quality: u32) -> (r: std::io::Result<Vec<u8>>)
    ensures
        r is Ok,
        r matches Ok(v) ==> v@ == brotli_encoded(data@, quality),
{
    let mut compressed = Vec::new();
    {
        let mut encoder = brotli::CompressorWriter::new(&mut compressed, 4096, quality, 22);
        encoder.write_all(data)?;
        encoder.flush()?;
    }
    Ok(compressed)
}

/// Reads `data` to its end through a `brotli::Decompressor`, which gives
/// back what a compressor wrote.
#[verifier::external_body]
pub fn brotli_decompress(data: &[u8]) -> (r: std::io::Result<Vec<u8>>)
    ensures
        r matches Ok(v) ==> v@ == brotli_decoded(data@) && (forall|x: Seq<u8>, q: u32| data@ == brotli_encoded(x, q) ==> v@ == x),
        (exists|x: Seq<u8>, q: u32| data@ == brotli_encoded(x, q)) ==> r is Ok,
{
    let mut decompressed = Vec::new();
    brotli::Decompressor::new(data, 4096).read_to_end(&mut decompressed)?;
    Ok(decompressed)
}

/// The raw Snappy block `snap::raw::Encoder::compress_vec` makes of `data`.
pub uninterp spec fn snappy_encoded(data: Seq<u8>) -> Seq<u8>;

/// What `snap::raw::Decoder::decompress_vec` makes of `data` when it
/// succeeds.
pub uninterp spec fn snappy_decoded(data: Seq<u8>) -> Seq<u8>;

/// Snap takes an input of `n` bytes: its largest possible block, 32 + n +
/// n/6 bytes, fits in a `u32` (the format's limit).
pub open spec fn snappy_compressible(n: nat) -> bool {
    32 + n + n / 6 <= u32::MAX
}

/// Calls `snap::raw::Encoder::compress_vec`, giving its error as text. It
/// fails exactly when the input is too long for the format
/// (`max_compress_len` is zero): the buffer it allocates is always large
/// enough.
#[verifier::external_body]
pub fn snappy_compress(data: &[u8]) -> (r: std::result::Result<Vec<u8>, String>)
    ensures
        r is Ok <==> snappy_compressible(data@.len()),
        r matches Ok(v) ==> v@ == snappy_encoded(data@),
{
    snap::raw::Encoder::new().compress_vec(data).map_err(|e| e.to_string())
}

/// Calls `snap::raw::Decoder::decompress_vec`, which gives back the input
/// of any block the encoder made (of an input it took); its error is given
/// as text.
#[verifier::external_body]
pub fn snappy_decompress(data: &[u8]) -> (r: std::result::Result<Vec<u8>, String>)
    ensures
        r matches Ok(v) ==> v@ == snappy_decoded(data@) && (forall|x: Seq<u8>| snappy_compressible(x.len()) && data@ == snappy_encoded(x) ==> v@ == x),
        (exists|x: Seq<u8>| snappy_compressible(x.len()) && data@ == snappy_encoded(x)) ==> r is Ok,
{
    snap::raw::Decoder::new().decompress_vec(data).map_err(|e| e.to_string())
}

/// The XZ stream `lzma_rs::xz_compress` writes for `data`.
pub uninterp spec fn xz_encoded(data: Seq<u8>) -> Seq<u8>;

/// What `lzma_rs::xz_decompress` writes for `data` when it succeeds.
pub uninterp spec fn xz_decoded(data: Seq<u8>) -> Seq<u8>;

/// Calls `lzma_rs::xz_compress` from a slice into a vector. The encoder
/// raises no error of its own: its errors are those of reading its input
/// and writing its output, and neither a slice nor a vector fails there,
/// so it succeeds.
#[verifier::external_body]
pub fn xz_compress(data: &[u8]) -> (r: std::io::Result<Vec<u8>>)
    ensures
        r is Ok,
        r matches Ok(v) ==> v@ == xz_encoded(data@),
{
    let mut compressed = Vec::new();
    let mut input = data;
    lzma_rs::xz_compress(&mut input, &mut compressed)?;
    Ok(compressed)
}

/// Calls `lzma_rs::xz_decompress` into a vector, which gives back the input
/// of any stream `xz_compress` wrote; its error is given as text.
#[verifier::external_body]
pub fn xz_decompress(data: &[u8]) -> (r: std::result::Result<Vec<u8>, String>)
    ensures
        r matches Ok(v) ==> v@ == xz_decoded(data@) && (forall|x: Seq<u8>| data@ == xz_encoded(x) ==> v@ == x),
        (exists|x: Seq<u8>| data@ == xz_encoded(x)) ==> r is Ok,
{
    let mut decompressed = Vec::new();
    let mut input = data;
    match lzma_rs::xz_decompress(&mut input, &mut decompressed) {
        Ok(()) => Ok(decompressed),
        Err(e) => Err(e.to_string()),
    }
}

/// The raw Deflate stream a `flate2::write::DeflateEncoder` at `level`
/// writes for `data`.
pub uninterp spec fn deflate_encoded(data: Seq<u8>, level: u32) -> Seq<u8>;

/// What a `flate2::read::DeflateDecoder` reads out of `data` when it
/// succeeds.
pub uninterp spec fn deflate_decoded(data: Seq<u8>) -> Seq<u8>;

/// Writes `data` through a `flate2::write::DeflateEncoder` and finishes it;
/// it succeeds: a vector takes every write, and the miniz backend fails
/// only on a bad parameter or a failed output callback, which this use
/// does not give it. The level is at most 10, the highest that flate2's
/// miniz backend takes (it asserts so in debug builds).
#[verifier::external_body]
pub fn deflate_compress(data: &[u8], level: u32) -> (r: std::io::Result<Vec<u8>>)
    requires
        level <= 10,
    ensures
        r is Ok,
        r matches Ok(v) ==> v@ == deflate_encoded(data@, level),
{
    let mut encoder = flate2::write::DeflateEncoder::new(Vec::new(), flate2::Compression::new(level));
    encoder.write_all(data)?;
    encoder.finish()
}

/// Reads `data` to its end through a `flate2::read::DeflateDecoder`, which
/// gives back what the encoder wrote.
#[verifier::external_body]
pub fn deflate_decompress(data: &[u8]) -> (r: std::io::Result<Vec<u8>>)
    ensures
        r matches Ok(v) ==> v@ == deflate_decoded(data@) && (forall|x: Seq<u8>, l: u32| data@ == deflate_encoded(x, l) ==> v@ == x),
        (exists|x: Seq<u8>, l: u32| data@ == deflate_encoded(x, l)) ==> r is Ok,
{
    let mut decompressed = Vec::new();
    flate2::read::DeflateDecoder::new(data).read_to_end(&mut decompressed)?;
    Ok(decompressed)
}

/// The gzip stream a `flate2::write::GzEncoder` at `level` writes for
/// `data`.
pub uninterp spec fn gzip_encoded(data: Seq<u8>, level: u32) -> Seq<u8>;

/// What a `flate2::read::GzDecoder` reads out of `data` when it succeeds.
pub uninterp spec fn gzip_decoded(data: Seq<u8>) -> Seq<u8>;

/// Writes `data` through a `flate2::write::GzEncoder` and finishes it;
/// it succeeds: a vector takes every write, and the miniz backend fails
/// only on a bad parameter or a failed output callback, which this use
/// does not give it. The level is at most 10, the highest that flate2's
/// miniz backend takes (it asserts so in debug builds).
#[verifier::external_body]
pub fn gzip_compress(data: &[u8], level: u32) -> (r: std::io::Result<Vec<u8>>)
    requires
        level <= 10,
    ensures
        r is Ok,
        r matches Ok(v) ==> v@ == gzip_encoded(data@, level),
{
    let mut encoder = flate2::write::GzEncoder::new(Vec::new(), flate2::Compression::new(level));
    encoder.write_all(data)?;
    encoder.finish()
}

/// Reads `data` to its end through a `flate2::read::GzDecoder`, which
/// gives back what the encoder wrote.
#[verifier::external_body]
pub fn gzip_decompress(data: &[u8]) -> (r: std::io::Result<Vec<u8>>)
    ensures
        r matches Ok(v) ==> v@ == gzip_decoded(data@) && (forall|x: Seq<u8>, l: u32| data@ == gzip_encoded(x, l) ==> v@ == x),
        (exists|x: Seq<u8>, l: u32| data@ == gzip_encoded(x, l)) ==> r is Ok,
{
    let mut decompressed = Vec::new();
    flate2::read::GzDecoder::new(data).read_to_end(&mut decompressed)?;
    Ok(decompressed)
}

} // verus!
