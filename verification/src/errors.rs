//! Error taxonomy of the decoding layer: fatal structural decode errors,
//! unknown-part errors (fatal only for mandatory parts), and tree-manifest
//! assembly-invariant errors.

use vstd::prelude::*;

use crate::bundle2::{PartHeader, PartHeaderView};

verus! {

/// Reasons a stream is structurally undecodable.
#[derive(Debug)]
pub enum DecodeError {
    /// A length prefix or record ran past the end of the input.
    Truncated,
    /// The declared compression codec is not in the supported set.
    UnknownCompression(Vec<u8>),
    /// The compression parameter appears more than once.
    DuplicateCompression,
    /// The compressed payload could not be decompressed.
    Decompress,
}

/// Mathematical model of `DecodeError`.
#[verifier::ext_equal]
pub ghost enum DecodeErrorView {
    Truncated,
    UnknownCompression(Seq<u8>),
    DuplicateCompression,
    Decompress,
}

impl View for DecodeError {
    type V = DecodeErrorView;

    open spec fn view(&self) -> DecodeErrorView {
        match self {
            DecodeError::Truncated => DecodeErrorView::Truncated,
            DecodeError::UnknownCompression(name) => DecodeErrorView::UnknownCompression(name@),
            DecodeError::DuplicateCompression => DecodeErrorView::DuplicateCompression,
            DecodeError::Decompress => DecodeErrorView::Decompress,
        }
    }
}

/// Reasons tree-manifest assembly rejects a token sequence.
#[derive(Clone, Copy, PartialEq, Eq, Structural, Debug)]
pub enum TreeError {
    /// A history-meta token arrived while a path was still set.
    PathAlreadySet,
    /// A second history token for the same path.
    NodeAlreadySet,
    P1AlreadySet,
    P2AlreadySet,
    /// The history-meta entry count is not exactly one.
    WrongHistoryCount(u32),
    /// The data-meta entry count is not exactly one.
    WrongDataCount(u32),
    /// The data-meta path differs from the recorded history-meta path.
    PathMismatch,
    /// A data entry whose delta base is not the null hash.
    WrongDeltaBase,
    MissingNode,
    MissingP1,
    MissingP2,
    MissingPath,
    /// The end token arrived inside an unfinished path-cycle.
    IncompleteCycle,
}

/// An error of the decoding layer.
#[derive(Debug)]
pub enum ErrorKind {
    /// Fatal structural malformation of the outer stream.
    Bundle2Decode(DecodeError),
    /// A part of a type the decoder has no handler for.
    BundleUnknownPart(PartHeader),
    /// A violated tree-manifest assembly invariant.
    MalformedTreemanifestPart(TreeError),
    /// The manifest content parser rejected the reconstructed bytes.
    ContentParse,
}

/// Mathematical model of `ErrorKind`.
#[verifier::ext_equal]
pub ghost enum ErrorKindView {
    Bundle2Decode(DecodeErrorView),
    BundleUnknownPart(PartHeaderView),
    MalformedTreemanifestPart(TreeError),
    ContentParse,
}

impl View for ErrorKind {
    type V = ErrorKindView;

    open spec fn view(&self) -> ErrorKindView {
        match self {
            ErrorKind::Bundle2Decode(e) => ErrorKindView::Bundle2Decode(e@),
            ErrorKind::BundleUnknownPart(h) => ErrorKindView::BundleUnknownPart(h@),
            ErrorKind::MalformedTreemanifestPart(e) => ErrorKindView::MalformedTreemanifestPart(*e),
            ErrorKind::ContentParse => ErrorKindView::ContentParse,
        }
    }
}

} // verus!
