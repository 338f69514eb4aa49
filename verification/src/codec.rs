//! Decoding of possibly-compressed response bodies into a running SHA-256
//! digest. Decompression is pulled through a fixed-size chunk buffer and
//! bounded by a chunk ceiling (10,240 chunks of 1,024 bytes, about 10 MB),
//! so a decompression-bomb body yields a decode failure instead of unbounded
//! memory growth; the decompressed stream is hashed as it is pulled and
//! never materialised whole.

use vstd::prelude::*;

use crate::digest::{hasher_fed, sha256_of, Sha256Hasher};

verus! {

/// Size of one decompression chunk.
pub const MAX_CHUNK_LEN: usize = 1024;

/// How many chunks may be pulled before the body is refused.
pub const MAX_CHUNKS: u64 = 10240;

/// The decompression ceiling in bytes: `MAX_CHUNKS` chunks of
/// `MAX_CHUNK_LEN` bytes.
pub const MAX_DECODED_LEN: u64 = 10485760;

/// A content encoding a response body may announce.
#[derive(Clone, Copy, Debug, PartialEq, Eq, Structural)]
pub enum BodyEncoding {
    Identity,
    Gzip,
    Deflate,
}

/// What a gzip body inflates to under flate2's `GzDecoder`, or `None` when
/// the stream is malformed.
pub uninterp spec fn gunzip_of(data: Seq<u8>) -> Option<Seq<u8>>;

/// What a raw-deflate body inflates to under flate2's `DeflateDecoder`, or
/// `None` when the stream is malformed.
pub uninterp spec fn inflate_raw_of(data: Seq<u8>) -> Option<Seq<u8>>;

/// The decompressed stream a body holds under an encoding: `None` when the
/// stream is malformed.
pub open spec fn inflated_content(body: Seq<u8>, enc: BodyEncoding) -> Option<Seq<u8>> {
    match enc {
        BodyEncoding::Identity => Some(body),
        BodyEncoding::Gzip => gunzip_of(body),
        BodyEncoding::Deflate => inflate_raw_of(body),
    }
}

/// The decoded content of a body: for a compressed encoding its
/// decompressed stream, provided the body decodes and the stream fits under
/// the decompression ceiling; an unencoded body is taken as it is.
pub open spec fn decoded_content(body: Seq<u8>, enc: BodyEncoding) -> Option<Seq<u8>> {
    match enc {
        BodyEncoding::Identity => Some(body),
        _ => match inflated_content(body, enc) {
            Some(s) => if s.len() <= MAX_DECODED_LEN {
                Some(s)
            } else {
                None
            },
            None => None,
        },
    }
}

/// A streaming decompressor over an in-memory body (flate2's `GzDecoder` or
/// `DeflateDecoder` over the body's bytes).
#[verifier::external_body]
pub struct BodyDecoder {
    gz: Option<flate2::read::GzDecoder<std::io::Cursor<Vec<u8>>>>,
    deflate: Option<flate2::read::DeflateDecoder<std::io::Cursor<Vec<u8>>>>,
}

/// The full decompressed stream of the decoder's input, fixed at
/// construction; `None` when the input is malformed.
pub uninterp spec fn decoder_stream(d: BodyDecoder) -> Option<Seq<u8>>;

/// How many bytes of the decompressed stream the decoder has handed out.
pub uninterp spec fn decoder_pos(d: BodyDecoder) -> nat;

/// The decoder has not yet reported an error. flate2's gzip decoder
/// consumes its error: a read that fails moves it to an end state whose
/// later reads return empty success, so the read contract below holds only
/// of a decoder that is still healthy.
pub uninterp spec fn decoder_ok(d: BodyDecoder) -> bool;

impl BodyDecoder {
    /// Relies on flate2's `GzDecoder::new` / `DeflateDecoder::new`: a fresh
    /// decoder over the body's bytes has produced nothing and reported
    /// nothing yet.
    #[verifier::external_body]
    pub fn new(body: Vec<u8>, gzip: bool) -> (r: BodyDecoder)
        ensures
            decoder_stream(r) == (if gzip {
                gunzip_of(body@)
            } else {
                inflate_raw_of(body@)
            }),
            decoder_pos(r) == 0,
            decoder_ok(r),
    {
        if gzip {
            BodyDecoder {
                gz: Some(flate2::read::GzDecoder::new(std::io::Cursor::new(body))),
                deflate: None,
            }
        } else {
            BodyDecoder {
                gz: None,
                deflate: Some(flate2::read::DeflateDecoder::new(std::io::Cursor::new(body))),
            }
        }
    }

    /// Relies on flate2's `Read` implementations, pulled through std's
    /// `Take` adapter with `read_to_end`: over an in-memory body a healthy
    /// decoder's read errs only on a malformed stream, returns exactly
    /// `max` bytes while that many remain, and returns fewer only once the
    /// stream has ended cleanly. A failed read consumes the decoder's
    /// health: no further read is specified.
    #[verifier::external_body]
    pub fn read_chunk(&mut self, max: usize) -> (r: Option<Vec<u8>>)
        requires
            decoder_ok(*old(self)),
        ensures
            decoder_stream(*final(self)) == decoder_stream(*old(self)),
            match r {
                Some(v) => {
                    &&& decoder_ok(*final(self))
                    &&& v@.len() <= max
                    &&& decoder_pos(*final(self)) == decoder_pos(*old(self)) + v@.len()
                    &&& match decoder_stream(*old(self)) {
                        Some(s) => decoder_pos(*old(self)) <= s.len() ==> v@ == s.subrange(
                            decoder_pos(*old(self)) as int,
                            vstd::math::min(
                                decoder_pos(*old(self)) + max,
                                s.len() as int,
                            ),
                        ),
                        None => true,
                    }
                    &&& v@.len() < max ==> (decoder_stream(*old(self)) is Some && decoder_pos(
                        *old(self),
                    ) + v@.len() == decoder_stream(*old(self)).unwrap().len())
                },
                None => decoder_stream(*old(self)) is None,
            },
    {
        let mut buf: Vec<u8> = Vec::new();
        let res = match self.gz.as_mut() {
            Some(d) => std::io::Read::read_to_end(
                &mut std::io::Read::take(&mut *d, max as u64),
                &mut buf,
            ),
            None => std::io::Read::read_to_end(
                &mut std::io::Read::take(self.deflate.as_mut().unwrap(), max as u64),
                &mut buf,
            ),
        };
        match res {
            Ok(_) => Some(buf),
            Err(_) => None,
        }
    }
}

/// Relies on flate2's `GzEncoder`: its output inflates, under flate2's own
/// decoder, back to the input.
#[verifier::external_body]
pub fn gzip_compress(data: &[u8]) -> (r: Vec<u8>)
    ensures
        gunzip_of(r@) == Some(data@),
{
    let mut enc = flate2::read::GzEncoder::new(data, flate2::Compression::default());
    let mut out: Vec<u8> = Vec::new();
    std::io::Read::read_to_end(&mut enc, &mut out).unwrap();
    out
}

/// Relies on flate2's `DeflateEncoder`: its output inflates, under flate2's
/// own decoder, back to the input.
#[verifier::external_body]
pub fn deflate_compress(data: &[u8]) -> (r: Vec<u8>)
    ensures
        inflate_raw_of(r@) == Some(data@),
{
    let mut enc = flate2::read::DeflateEncoder::new(data, flate2::Compression::default());
    let mut out: Vec<u8> = Vec::new();
    std::io::Read::read_to_end(&mut enc, &mut out).unwrap();
    out
}

/// Pull a decoder dry through the chunk buffer, hashing as it goes. Fails
/// on a malformed stream and on one that overruns the chunk ceiling.
#[verifier::loop_isolation(false)]
fn digest_decoder(dec: &mut BodyDecoder) -> (r: Option<Vec<u8>>)
    requires
        decoder_pos(*old(dec)) == 0,
        decoder_ok(*old(dec)),
    ensures
        match r {
            Some(d) => {
                &&& decoder_stream(*old(dec)) is Some
                &&& decoder_stream(*old(dec)).unwrap().len() <= MAX_DECODED_LEN
                &&& d@ == sha256_of(decoder_stream(*old(dec)).unwrap())
                &&& d@.len() == 32
            },
            None => match decoder_stream(*old(dec)) {
                Some(s) => s.len() > MAX_DECODED_LEN,
                None => true,
            },
        },
{
    let ghost stream = decoder_stream(*dec);
    let mut h = Sha256Hasher::new();
    let mut count: u64 = 0;
    proof {
        if stream is Some {
            assert(stream.unwrap().subrange(0, 0) =~= Seq::<u8>::empty());
        }
    }
    while count < MAX_CHUNKS
        invariant
            decoder_stream(*dec) == stream,
            decoder_ok(*dec),
            0 <= count <= MAX_CHUNKS,
            decoder_pos(*dec) <= count * (MAX_CHUNK_LEN as u64),
            stream is Some ==> decoder_pos(*dec) == count * (MAX_CHUNK_LEN as u64),
            stream is Some ==> decoder_pos(*dec) <= stream.unwrap().len(),
            stream is Some ==> hasher_fed(h) == stream.unwrap().subrange(
                0,
                decoder_pos(*dec) as int,
            ),
        decreases MAX_CHUNKS - count,
    {
        let ghost pos0 = decoder_pos(*dec);
        match dec.read_chunk(MAX_CHUNK_LEN) {
            None => {
                return None;
            },
            Some(v) => {
                let len: usize = v.len();
                h.update(v.as_slice());
                proof {
                    if stream is Some {
                        let s = stream.unwrap();
                        assert(hasher_fed(h) =~= s.subrange(0, decoder_pos(*dec) as int));
                    }
                }
                if len < MAX_CHUNK_LEN {
                    proof {
                        let s = stream.unwrap();
                        assert(decoder_pos(*dec) == s.len());
                        assert(hasher_fed(h) =~= s);
                        assert(s.len() <= (count + 1) * (MAX_CHUNK_LEN as u64)) by (nonlinear_arith)
                            requires
                                s.len() == pos0 + len,
                                pos0 <= count * (MAX_CHUNK_LEN as u64),
                                len < MAX_CHUNK_LEN,
                                count < MAX_CHUNKS,
                        ;
                        assert((count + 1) * (MAX_CHUNK_LEN as u64) <= MAX_CHUNKS * (
                        MAX_CHUNK_LEN as u64)) by (nonlinear_arith)
                            requires
                                count + 1 <= MAX_CHUNKS,
                        ;
                    }
                    return Some(h.finalize());
                }
                proof {
                    assert(decoder_pos(*dec) == pos0 + MAX_CHUNK_LEN);
                    assert(pos0 + MAX_CHUNK_LEN <= (count + 1) * (MAX_CHUNK_LEN as u64))
                        by (nonlinear_arith)
                        requires
                            pos0 <= count * (MAX_CHUNK_LEN as u64),
                    ;
                }
                count = count + 1;
            },
        }
    }
    // The ceiling was reached: probe one more byte to tell an exactly full
    // stream from an oversized one.
    let ghost pos0 = decoder_pos(*dec);
    proof {
        assert(count * (MAX_CHUNK_LEN as u64) == MAX_DECODED_LEN) by (nonlinear_arith)
            requires
                count == MAX_CHUNKS,
        ;
    }
    match dec.read_chunk(1) {
        None => None,
        Some(v) => {
            if v.len() == 0 {
                proof {
                    let s = stream.unwrap();
                    assert(decoder_pos(*dec) == s.len());
                    assert(hasher_fed(h) =~= s);
                }
                Some(h.finalize())
            } else {
                proof {
                    if stream is Some {
                        let s = stream.unwrap();
                        assert(pos0 == MAX_DECODED_LEN);
                        assert(decoder_pos(*dec) == pos0 + 1);
                        assert(pos0 + 1 <= s.len());
                    }
                }
                None
            }
        },
    }
}

/// Decode a response body under its announced encoding into the SHA-256
/// digest of the decoded content; a malformed stream and one that overruns
/// the decompression ceiling are decode failures.
pub fn decode_body_to_sha256(body: &[u8], enc: BodyEncoding) -> (r: Option<Vec<u8>>)
    ensures
        match r {
            Some(d) => {
                &&& decoded_content(body@, enc) is Some
                &&& d@ == sha256_of(decoded_content(body@, enc).unwrap())
                &&& d@.len() == 32
            },
            None => decoded_content(body@, enc) is None,
        },
{
    match enc {
        BodyEncoding::Identity => {
            let mut h = Sha256Hasher::new();
            h.update(body);
            proof {
                assert(hasher_fed(h) =~= body@);
            }
            Some(h.finalize())
        },
        BodyEncoding::Gzip => {
            let owned = crate::bytes_util::bytes_subrange(body, 0, body.len());
            proof {
                assert(owned@ =~= body@);
            }
            let mut dec = BodyDecoder::new(owned, true);
            digest_decoder(&mut dec)
        },
        BodyEncoding::Deflate => {
            let owned = crate::bytes_util::bytes_subrange(body, 0, body.len());
            proof {
                assert(owned@ =~= body@);
            }
            let mut dec = BodyDecoder::new(owned, false);
            digest_decoder(&mut dec)
        },
    }
}

/// Law (round trip): compressing any content and decoding it under the
/// matching encoding recovers the content: the decoded digest is the digest
/// of the original bytes, provided the content fits under the ceiling.
pub fn digest_of_compressed(data: &[u8], enc: BodyEncoding) -> (r: Option<Vec<u8>>)
    requires
        data@.len() <= MAX_DECODED_LEN,
    ensures
        r is Some,
        r.unwrap()@ == sha256_of(data@),
{
    match enc {
        BodyEncoding::Identity => decode_body_to_sha256(data, BodyEncoding::Identity),
        BodyEncoding::Gzip => {
            let compressed = gzip_compress(data);
            decode_body_to_sha256(compressed.as_slice(), BodyEncoding::Gzip)
        },
        BodyEncoding::Deflate => {
            let compressed = deflate_compress(data);
            decode_body_to_sha256(compressed.as_slice(), BodyEncoding::Deflate)
        },
    }
}

/// Law (digest stability): decoding is deterministic; two successful
/// decodings of one body agree byte for byte.
pub proof fn lemma_decode_deterministic(
    body: Seq<u8>,
    enc: BodyEncoding,
    d1: Seq<u8>,
    d2: Seq<u8>,
)
    requires
        decoded_content(body, enc) is Some,
        d1 == sha256_of(decoded_content(body, enc).unwrap()),
        d2 == sha256_of(decoded_content(body, enc).unwrap()),
    ensures
        d1 == d2,
{
}

/// Law (ceiling): a compressed body whose decompressed stream overruns the
/// ceiling is a decode failure, whatever its digest would have been.
pub proof fn lemma_ceiling_refuses(body: Seq<u8>, enc: BodyEncoding)
    requires
        !(enc is Identity),
        inflated_content(body, enc) is Some,
        inflated_content(body, enc).unwrap().len() > MAX_DECODED_LEN,
    ensures
        decoded_content(body, enc) is None,
{
}

} // verus!
