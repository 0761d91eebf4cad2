//! Tests of the outer bundle2 stream: encoding, decoding, compression
//! negotiation, unknown parts, and fragmentation invariance.

use mercurial_bundles::bundle2::{
    Bundle2EncodeBuilder, Bundle2Item, Bundle2Output, Bundle2Stream, EncodablePart, StreamEvent,
    StreamHeader,
};
use mercurial_bundles::codec::{codec_tag, compress_payload, decompress_payload, Codec};
use mercurial_bundles::errors::{DecodeError, ErrorKind};

type Params = Vec<(Vec<u8>, Vec<u8>)>;

fn params_eq(a: &Params, b: &[(&[u8], &[u8])]) -> bool {
    a.len() == b.len()
        && a.iter()
            .zip(b.iter())
            .all(|(x, y)| x.0.as_slice() == y.0 && x.1.as_slice() == y.1)
}

fn header_matches(h: &StreamHeader, m: &[(&[u8], &[u8])], a: &[(&[u8], &[u8])]) -> bool {
    params_eq(&h.m_stream_params, m) && params_eq(&h.a_stream_params, a)
}

fn decode_all(bytes: &[u8]) -> Result<Bundle2Output, ErrorKind> {
    let mut stream = Bundle2Stream::new();
    stream.feed(&bytes.to_vec());
    stream.finish()
}

fn empty_bundle_roundtrip(ct: Option<Codec>) {
    // Encode an empty bundle.
    let mut builder = Bundle2EncodeBuilder::new();
    builder.set_compressor_type(ct);
    builder
        .add_stream_param(b"Foo".to_vec(), b"123".to_vec())
        .unwrap();
    builder
        .add_stream_param(b"bar".to_vec(), b"456".to_vec())
        .unwrap();
    let buf = builder.build();

    // Now decode it.
    let codec = ct.unwrap_or(Codec::Identity);
    let tag = codec_tag(codec);
    let out = decode_all(&buf).unwrap();

    assert_eq!(out.events.len(), 2);
    match &out.events[0] {
        StreamEvent::Next(Bundle2Item::Start(header)) => {
            assert!(header_matches(
                header,
                &[(b"foo", b"123"), (b"compression", tag.as_slice())],
                &[(b"bar", b"456")],
            ));
        }
        _ => panic!("expected the stream header event first"),
    }
    assert!(matches!(out.events[1], StreamEvent::Done));
    assert!(out.app_errors.is_empty());
}

#[test]
fn test_empty_bundle_roundtrip_bzip() {
    empty_bundle_roundtrip(Some(Codec::Bzip2));
}

#[test]
fn test_empty_bundle_roundtrip_gzip() {
    empty_bundle_roundtrip(Some(Codec::Gzip));
}

#[test]
fn test_empty_bundle_roundtrip_uncompressed() {
    empty_bundle_roundtrip(None);
}

fn listkeys_part(mandatory: bool) -> EncodablePart {
    EncodablePart {
        part_type: b"listkeys".to_vec(),
        mandatory,
        m_params: Vec::new(),
        a_params: Vec::new(),
        payload: Vec::new(),
    }
}

fn unknown_part(ct: Option<Codec>) {
    // A mandatory part of a type the decoder has no handler for aborts
    // the whole stream.
    let mut builder = Bundle2EncodeBuilder::new();
    builder.set_compressor_type(ct);
    builder.add_part(listkeys_part(true));
    let buf = builder.build();

    match decode_all(&buf) {
        Err(ErrorKind::BundleUnknownPart(header)) => {
            assert_eq!(header.part_type(), &b"listkeys".to_vec());
            assert!(header.mandatory());
        }
        _ => panic!("expected BundleUnknownPart"),
    }
}

#[test]
fn test_unknown_part_bzip() {
    unknown_part(Some(Codec::Bzip2));
}

#[test]
fn test_unknown_part_gzip() {
    unknown_part(Some(Codec::Gzip));
}

#[test]
fn test_unknown_part_uncompressed() {
    unknown_part(None);
}

#[test]
fn test_unknown_part_advisory_is_recorded_once() {
    // The same part marked advisory is skipped, recorded exactly once,
    // and decoding runs to completion.
    let mut builder = Bundle2EncodeBuilder::new();
    builder.add_part(listkeys_part(false));
    let buf = builder.build();

    let out = decode_all(&buf).unwrap();
    assert_eq!(out.events.len(), 2);
    assert!(matches!(
        out.events[0],
        StreamEvent::Next(Bundle2Item::Start(_))
    ));
    assert!(matches!(out.events[1], StreamEvent::Done));
    assert_eq!(out.app_errors.len(), 1);
    match &out.app_errors[0] {
        ErrorKind::BundleUnknownPart(header) => {
            assert_eq!(header.part_type(), &b"listkeys".to_vec());
            assert!(!header.mandatory());
        }
        _ => panic!("expected BundleUnknownPart in the accumulated errors"),
    }
}

fn le(n: u32) -> Vec<u8> {
    n.to_le_bytes().to_vec()
}

fn header_with_compression(tag: &[u8]) -> Vec<u8> {
    let mut buf = Vec::new();
    buf.extend_from_slice(&le(1)); // one mandatory pair
    buf.extend_from_slice(&le(11));
    buf.extend_from_slice(b"compression");
    buf.extend_from_slice(&le(tag.len() as u32));
    buf.extend_from_slice(tag);
    buf.extend_from_slice(&le(0)); // no advisory pairs
    buf
}

#[test]
fn test_parse_unknown_compression() {
    let mut buf = header_with_compression(b"IL");
    buf.extend_from_slice(&le(0)); // end-of-parts sentinel
    match decode_all(&buf) {
        Err(ErrorKind::Bundle2Decode(DecodeError::UnknownCompression(name))) => {
            assert_eq!(String::from_utf8(name).unwrap(), "IL");
        }
        _ => panic!("expected unknown compression 'IL' to be refused"),
    }
}

#[test]
fn test_duplicate_compression_param() {
    let mut buf = Vec::new();
    buf.extend_from_slice(&le(2));
    for _ in 0..2 {
        buf.extend_from_slice(&le(11));
        buf.extend_from_slice(b"compression");
        buf.extend_from_slice(&le(2));
        buf.extend_from_slice(b"UN");
    }
    buf.extend_from_slice(&le(0));
    buf.extend_from_slice(&le(0));
    match decode_all(&buf) {
        Err(ErrorKind::Bundle2Decode(DecodeError::DuplicateCompression)) => {}
        _ => panic!("expected the duplicate compression parameter to be refused"),
    }
}

#[test]
fn test_truncated_stream() {
    match decode_all(&[0u8, 0u8]) {
        Err(ErrorKind::Bundle2Decode(DecodeError::Truncated)) => {}
        _ => panic!("expected a truncated stream to be refused"),
    }
}

#[test]
fn test_corrupt_compressed_body() {
    let mut buf = header_with_compression(b"GZ");
    buf.extend_from_slice(b"certainly not gzip");
    match decode_all(&buf) {
        Err(ErrorKind::Bundle2Decode(DecodeError::Decompress)) => {}
        _ => panic!("expected the corrupt body to be refused"),
    }
}

fn events_eq(a: &[StreamEvent], b: &[StreamEvent]) -> bool {
    a.len() == b.len()
        && a.iter().zip(b.iter()).all(|(x, y)| match (x, y) {
            (StreamEvent::Done, StreamEvent::Done) => true,
            (StreamEvent::Next(ix), StreamEvent::Next(iy)) => match (ix, iy) {
                (Bundle2Item::Start(hx), Bundle2Item::Start(hy)) => {
                    hx.m_stream_params == hy.m_stream_params
                        && hx.a_stream_params == hy.a_stream_params
                }
                (Bundle2Item::Changegroup(hx, px), Bundle2Item::Changegroup(hy, py))
                | (Bundle2Item::B2xTreegroup2(hx, px), Bundle2Item::B2xTreegroup2(hy, py)) => {
                    hx.part_type == hy.part_type
                        && hx.mandatory == hy.mandatory
                        && hx.part_id == hy.part_id
                        && hx.m_params == hy.m_params
                        && hx.a_params == hy.a_params
                        && px == py
                }
                _ => false,
            },
            _ => false,
        })
}

#[test]
fn test_fragmentation_invariance() {
    // However the same bytes are split into chunks, including empty
    // would-block chunks, decoding yields identical results.
    for ct in [None, Some(Codec::Gzip), Some(Codec::Bzip2)] {
        let mut builder = Bundle2EncodeBuilder::new();
        builder.set_compressor_type(ct);
        builder
            .add_stream_param(b"Key".to_vec(), b"value".to_vec())
            .unwrap();
        builder.add_part(EncodablePart {
            part_type: b"changegroup".to_vec(),
            mandatory: true,
            m_params: vec![(b"version".to_vec(), b"02".to_vec())],
            a_params: Vec::new(),
            payload: b"some changegroup payload".to_vec(),
        });
        let buf = builder.build();

        let whole = decode_all(&buf).unwrap();

        let mut bytewise = Bundle2Stream::new();
        bytewise.feed(&Vec::new()); // a would-block retry delivers nothing
        for b in &buf {
            bytewise.feed(&vec![*b]);
            bytewise.feed(&Vec::new());
        }
        let bytewise = bytewise.finish().unwrap();

        let mut halves = Bundle2Stream::new();
        halves.feed(&buf[..buf.len() / 2].to_vec());
        halves.feed(&buf[buf.len() / 2..].to_vec());
        let halves = halves.finish().unwrap();

        assert!(events_eq(&whole.events, &bytewise.events));
        assert!(events_eq(&whole.events, &halves.events));
        assert!(whole.app_errors.is_empty());
        assert!(bytewise.app_errors.is_empty());
        assert!(halves.app_errors.is_empty());
    }
}

#[test]
fn test_known_parts_are_delimited() {
    // A changegroup and a tree-group part come back typed, in order,
    // with their payload bytes delimited exactly.
    let mut builder = Bundle2EncodeBuilder::new();
    builder.add_part(EncodablePart {
        part_type: b"changegroup".to_vec(),
        mandatory: true,
        m_params: vec![(b"version".to_vec(), b"02".to_vec())],
        a_params: vec![(b"nbchanges".to_vec(), b"2".to_vec())],
        payload: b"cg payload".to_vec(),
    });
    builder.add_part(EncodablePart {
        part_type: b"b2x:treegroup2".to_vec(),
        mandatory: true,
        m_params: vec![(b"version".to_vec(), b"1".to_vec())],
        a_params: Vec::new(),
        payload: b"wirepack tokens".to_vec(),
    });
    let buf = builder.build();
    let out = decode_all(&buf).unwrap();
    assert_eq!(out.events.len(), 4);
    match &out.events[1] {
        StreamEvent::Next(Bundle2Item::Changegroup(h, payload)) => {
            assert_eq!(h.part_id, 0);
            assert!(h.mandatory());
            assert!(params_eq(&h.m_params, &[(b"version", b"02")]));
            assert!(params_eq(&h.a_params, &[(b"nbchanges", b"2")]));
            assert_eq!(payload.as_slice(), b"cg payload");
        }
        _ => panic!("expected a changegroup item"),
    }
    match &out.events[2] {
        StreamEvent::Next(Bundle2Item::B2xTreegroup2(h, payload)) => {
            assert_eq!(h.part_id, 1);
            assert_eq!(payload.as_slice(), b"wirepack tokens");
        }
        _ => panic!("expected a tree-group item"),
    }
    assert!(matches!(out.events[3], StreamEvent::Done));
    assert!(out.app_errors.is_empty());
}

#[test]
fn test_stream_param_key_rules() {
    let mut builder = Bundle2EncodeBuilder::new();
    // The compression key is reserved, whatever its case; empty keys are
    // refused; anything else is accepted.
    assert!(builder
        .add_stream_param(b"compression".to_vec(), b"GZ".to_vec())
        .is_err());
    assert!(builder
        .add_stream_param(b"Compression".to_vec(), b"GZ".to_vec())
        .is_err());
    assert!(builder
        .add_stream_param(Vec::new(), b"x".to_vec())
        .is_err());
    assert!(builder
        .add_stream_param(b"Other".to_vec(), b"x".to_vec())
        .is_ok());
}

#[test]
fn test_codec_payload_roundtrip() {
    // Compressing and decompressing gives back the payload; the raw
    // compressed bytes differ from the input for the real codecs.
    let data = b"a payload that a codec should carry through unchanged".to_vec();
    for ct in [Codec::Identity, Codec::Gzip, Codec::Bzip2] {
        let packed = compress_payload(ct, &data);
        if ct != Codec::Identity {
            assert_ne!(packed, data);
        }
        let unpacked = decompress_payload(ct, &packed).unwrap();
        assert_eq!(unpacked, data);
    }
    // Raw bytes are not a valid compressed stream.
    assert!(decompress_payload(Codec::Gzip, &data).is_err());
    assert!(decompress_payload(Codec::Bzip2, &data).is_err());
}
