//! Compression negotiation. The stream header names a codec out of a small
//! closed set; the part payload that follows the header is compressed with
//! it. Decompression itself is done by outside libraries; the decoders in
//! this crate work on the decompressed bytes.

use vstd::prelude::*;

use std::io::Read;
use std::io::Write;

verus! {

/// A supported payload codec.
#[derive(Clone, Copy, PartialEq, Eq, Structural, Debug)]
pub enum Codec {
    /// No compression.
    Identity,
    /// The gzip family.
    Gzip,
    /// bzip2.
    Bzip2,
}

/// What gzip-decompressing a byte sequence yields: the decompressed bytes,
/// or nothing if the input is not a well-formed gzip stream. The result
/// depends on the input bytes alone.
pub uninterp spec fn gunzip_of(data: Seq<u8>) -> Option<Seq<u8>>;

/// What bzip2-decompressing a byte sequence yields, as `gunzip_of`.
pub uninterp spec fn bunzip_of(data: Seq<u8>) -> Option<Seq<u8>>;

/// Relies on flate2's GzEncoder: its output is a gzip stream that
/// GzDecoder decompresses back to exactly the input bytes.
#[verifier::external_body]
pub fn gzip_compress(data: &Vec<u8>) -> (r: Vec<u8>)
    ensures
        gunzip_of(r@) == Some(data@),
{
    let mut encoder = flate2::write::GzEncoder::new(Vec::new(), flate2::Compression::default());
    encoder.write_all(data.as_slice()).expect("writing to a Vec cannot fail");
    encoder.finish().expect("writing to a Vec cannot fail")
}

/// Relies on flate2's GzDecoder: decompression is a function of the input
/// bytes alone, and fails exactly on inputs that are not a gzip stream.
#[verifier::external_body]
pub fn gzip_decompress(data: &Vec<u8>) -> (r: Result<Vec<u8>, ()>)
    ensures
        match gunzip_of(data@) {
            Some(s) => r matches Ok(v) && v@ == s,
            None => r is Err,
        },
{
    let mut decoder = flate2::read::GzDecoder::new(data.as_slice());
    let mut out = Vec::new();
    match decoder.read_to_end(&mut out) {
        Ok(_) => Ok(out),
        Err(_) => Err(()),
    }
}

/// Relies on bzip2's BzEncoder: its output is a bzip2 stream that
/// BzDecoder decompresses back to exactly the input bytes.
#[verifier::external_body]
pub fn bzip2_compress(data: &Vec<u8>) -> (r: Vec<u8>)
    ensures
        bunzip_of(r@) == Some(data@),
{
    let mut encoder = bzip2::write::BzEncoder::new(Vec::new(), bzip2::Compression::default());
    encoder.write_all(data.as_slice()).expect("writing to a Vec cannot fail");
    encoder.finish().expect("writing to a Vec cannot fail")
}

/// Relies on bzip2's BzDecoder: decompression is a function of the input
/// bytes alone, and fails exactly on inputs that are not a bzip2 stream.
#[verifier::external_body]
pub fn bzip2_decompress(data: &Vec<u8>) -> (r: Result<Vec<u8>, ()>)
    ensures
        match bunzip_of(data@) {
            Some(s) => r matches Ok(v) && v@ == s,
            None => r is Err,
        },
{
    let mut decoder = bzip2::read::BzDecoder::new(data.as_slice());
    let mut out = Vec::new();
    match decoder.read_to_end(&mut out) {
        Ok(_) => Ok(out),
        Err(_) => Err(()),
    }
}

/// The wire tag of each codec.
pub open spec fn spec_codec_tag(codec: Codec) -> Seq<u8> {
    match codec {
        Codec::Identity => seq![85u8, 78u8],  // "UN"
        Codec::Gzip => seq![71u8, 90u8],  // "GZ"
        Codec::Bzip2 => seq![66u8, 90u8],  // "BZ"
    }
}

/// The codec a declared tag names, if any; an absent tag means identity.
pub open spec fn spec_codec_of_tag(tag: Option<Seq<u8>>) -> Option<Codec> {
    match tag {
        None => Some(Codec::Identity),
        Some(name) => {
            if name == spec_codec_tag(Codec::Identity) {
                Some(Codec::Identity)
            } else if name == spec_codec_tag(Codec::Gzip) {
                Some(Codec::Gzip)
            } else if name == spec_codec_tag(Codec::Bzip2) {
                Some(Codec::Bzip2)
            } else {
                None
            }
        },
    }
}

/// The decompressed payload bytes, or nothing when decompression fails.
pub open spec fn spec_payload_of(codec: Codec, body: Seq<u8>) -> Option<Seq<u8>> {
    match codec {
        Codec::Identity => Some(body),
        Codec::Gzip => gunzip_of(body),
        Codec::Bzip2 => bunzip_of(body),
    }
}

/// The wire tag of each codec.
pub fn codec_tag(codec: Codec) -> (r: Vec<u8>)
    ensures
        r@ == spec_codec_tag(codec),
{
    let mut r: Vec<u8> = Vec::new();
    match codec {
        Codec::Identity => {
            r.push(85u8);
            r.push(78u8);
        },
        Codec::Gzip => {
            r.push(71u8);
            r.push(90u8);
        },
        Codec::Bzip2 => {
            r.push(66u8);
            r.push(90u8);
        },
    }
    proof {
        assert(r@ =~= spec_codec_tag(codec));
    }
    r
}

/// Negotiates the codec a declared tag names; an absent declaration means
/// identity, an unrecognized one is refused.
pub fn negotiate_codec(tag: Option<&Vec<u8>>) -> (r: Result<Codec, ()>)
    ensures
        match r {
            Ok(c) => spec_codec_of_tag(match tag {
                Some(t) => Some(t@),
                None => None,
            }) == Some(c),
            Err(()) => spec_codec_of_tag(match tag {
                Some(t) => Some(t@),
                None => None,
            }) is None,
        },
{
    match tag {
        None => Ok(Codec::Identity),
        Some(name) => {
            if name.len() == 2 {
                let b0 = name[0];
                let b1 = name[1];
                let r = if b0 == 85u8 && b1 == 78u8 {
                    Ok(Codec::Identity)
                } else if b0 == 71u8 && b1 == 90u8 {
                    Ok(Codec::Gzip)
                } else if b0 == 66u8 && b1 == 90u8 {
                    Ok(Codec::Bzip2)
                } else {
                    Err(())
                };
                proof {
                    assert(name@.len() == 2);
                    if name@ == spec_codec_tag(Codec::Identity) {
                        assert(name@[0] == 85u8 && name@[1] == 78u8);
                    }
                    if name@ == spec_codec_tag(Codec::Gzip) {
                        assert(name@[0] == 71u8 && name@[1] == 90u8);
                    }
                    if name@ == spec_codec_tag(Codec::Bzip2) {
                        assert(name@[0] == 66u8 && name@[1] == 90u8);
                    }
                    if b0 == 85u8 && b1 == 78u8 {
                        assert(name@ =~= spec_codec_tag(Codec::Identity));
                    } else if b0 == 71u8 && b1 == 90u8 {
                        assert(name@ =~= spec_codec_tag(Codec::Gzip));
                    } else if b0 == 66u8 && b1 == 90u8 {
                        assert(name@ =~= spec_codec_tag(Codec::Bzip2));
                    }
                }
                r
            } else {
                proof {
                    assert(spec_codec_tag(Codec::Identity).len() == 2);
                    assert(spec_codec_tag(Codec::Gzip).len() == 2);
                    assert(spec_codec_tag(Codec::Bzip2).len() == 2);
                }
                Err(())
            }
        },
    }
}

/// Compresses a payload with the given codec.
pub fn compress_payload(codec: Codec, data: &Vec<u8>) -> (r: Vec<u8>)
    ensures
        spec_payload_of(codec, r@) == Some(data@),
{
    match codec {
        Codec::Identity => {
            let r = crate::bytes_util::subvec(data, 0, data.len());
            proof {
                assert(r@ =~= data@);
            }
            r
        },
        Codec::Gzip => gzip_compress(data),
        Codec::Bzip2 => bzip2_compress(data),
    }
}

/// Decompresses a payload with the given codec.
pub fn decompress_payload(codec: Codec, data: &Vec<u8>) -> (r: Result<Vec<u8>, ()>)
    ensures
        match spec_payload_of(codec, data@) {
            Some(s) => r matches Ok(v) && v@ == s,
            None => r is Err,
        },
{
    match codec {
        Codec::Identity => {
            let r = crate::bytes_util::subvec(data, 0, data.len());
            proof {
                assert(r@ =~= data@);
            }
            Ok(r)
        },
        Codec::Gzip => gzip_decompress(data),
        Codec::Bzip2 => bzip2_decompress(data),
    }
}

} // verus!
