//! Decompression of gzip data.

use std::io::BufReader;

use flate2::read::MultiGzDecoder;
use vstd::prelude::*;

verus! {

/// Why gzip data could not be read to its end.
#[derive(Debug)]
pub struct GzipFailure {
    /// Whether the data ends too early.
    pub unexpected_end: bool,
    pub message: String,
}

/// A decompression failure as mathematical values.
pub struct GzipFailureView {
    pub unexpected_end: bool,
    pub message: Seq<char>,
}

impl View for GzipFailure {
    type V = GzipFailureView;

    open spec fn view(&self) -> GzipFailureView {
        GzipFailureView { unexpected_end: self.unexpected_end, message: self.message@ }
    }
}

/// The failure that ended decompression, if one did.
pub open spec fn failure_view(failure: Option<GzipFailure>) -> Option<GzipFailureView> {
    match failure {
        Some(failure) => Some(failure@),
        None => None,
    }
}

/// What `flate2::read::MultiGzDecoder` makes of gzip data: the bytes of its
/// members one after the other, and the failure that reading ended with.
pub uninterp spec fn gunzipped(bytes: Seq<u8>) -> (Seq<u8>, Option<GzipFailureView>);

/// What is read of bytes: they are decompressed first where they are gzipped.
pub open spec fn contents(bytes: Seq<u8>, gzipped: bool) -> (Seq<u8>, Option<GzipFailureView>) {
    if gzipped {
        gunzipped(bytes)
    } else {
        (bytes, None)
    }
}

/// Reads `bytes` to the end through `flate2::read::MultiGzDecoder`, one buffer
/// after the other. The buffers that were read before a failure are kept. What
/// comes out depends on `bytes` alone; nothing more is claimed of it.
#[verifier::external_body]
pub(crate) fn gunzip(bytes: &[u8]) -> (decoded: (Vec<u8>, Option<GzipFailure>))
    ensures
        (decoded.0@, failure_view(decoded.1)) == gunzipped(bytes@),
{
    let mut decoded = Vec::new();
    let mut reader = BufReader::new(MultiGzDecoder::new(bytes));
    match std::io::copy(&mut reader, &mut decoded) {
        Ok(_) => (decoded, None),
        Err(error) => {
            let failure = GzipFailure {
                unexpected_end: error.kind() == std::io::ErrorKind::UnexpectedEof,
                message: error.to_string(),
            };
            (decoded, Some(failure))
        },
    }
}

}
