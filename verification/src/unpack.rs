//! The embedded runtime: a tar archive in a zstd frame.

use vstd::prelude::*;

verus! {

/// What becomes of the header of the zstd frame at the start of `blob`: it is taken,
/// or it is refused with a text that says why.
pub uninterp spec fn zstd_header(blob: Seq<u8>) -> Result<(), Seq<char>>;

/// The bytes that the zstd frame at the start of `blob` gives out, and how it goes on
/// after them: it is at its end, or it breaks off with a text that says why.
pub uninterp spec fn zstd_stream(blob: Seq<u8>) -> (Seq<u8>, Result<(), Seq<char>>);

/// What the zstd frame at the start of `blob` decodes to, `None` where it does not come
/// to its end.
pub open spec fn zstd_content(blob: Seq<u8>) -> Option<Seq<u8>> {
    if zstd_stream(blob).1 is Ok {
        Some(zstd_stream(blob).0)
    } else {
        None
    }
}

/// The four bytes that every zstd frame begins with.
pub open spec fn zstd_magic() -> Seq<u8> {
    seq![0x28, 0xb5, 0x2f, 0xfd]
}

/// Reads the header of the first frame of `blob` with
/// `ruzstd::decoding::StreamingDecoder::new`.
///
/// Taken on trust is that the outcome, with the text of the error, depends on the bytes
/// of `blob` alone, and that a blob which does not begin with the magic number is
/// refused. Where a blob is too short the text quotes the standard library's words for
/// that.
#[verifier::external_body]
fn read_zstd_header(blob: &[u8]) -> (header: Result<(), String>)
    ensures
        match header {
            Ok(_) => zstd_header(blob@) is Ok,
            Err(text) => zstd_header(blob@) == Err::<(), Seq<char>>(text@),
        },
        header is Ok ==> zstd_magic().is_prefix_of(blob@),
{
    match ruzstd::decoding::StreamingDecoder::new(blob) {
        Ok(_) => Ok(()),
        Err(error) => Err(error.to_string()),
    }
}

/// Reads the first frame of `blob` to its end with the `Read` of
/// `ruzstd::decoding::StreamingDecoder`. Where the frame breaks off, the error holds the
/// bytes given out before that, and a text that says why.
///
/// Taken on trust is that the bytes given out, whether the frame comes to its end, and
/// the text depend on the bytes of `blob` alone: the decoder turns to the next block only
/// when it has given out all that it can, so the sizes in which it is read do not matter.
/// What the bytes are goes by the zstd format and is left to the name. Running out of
/// memory is left aside.
#[verifier::external_body]
fn read_zstd_frame(blob: &[u8]) -> (content: Result<Vec<u8>, (Vec<u8>, String)>)
    requires
        zstd_header(blob@) is Ok,
    ensures
        match content {
            Ok(bytes) => zstd_stream(blob@) == (bytes@, Ok::<(), Seq<char>>(())),
            Err((bytes, text)) => zstd_stream(blob@) == (bytes@, Err::<(), Seq<char>>(text@)),
        },
{
    let mut bytes: Vec<u8> = Vec::new();
    let mut decoder = match ruzstd::decoding::StreamingDecoder::new(blob) {
        Ok(decoder) => decoder,
        Err(error) => return Err((bytes, error.to_string())),
    };
    match std::io::Read::read_to_end(&mut decoder, &mut bytes) {
        Ok(_) => Ok(bytes),
        Err(error) => Err((bytes, error.to_string())),
    }
}

/// Why a blob does not inflate.
#[derive(Debug, PartialEq, Eq)]
pub enum UnpackError {
    /// The blob does not begin with the header of a frame: its data is invalid.
    Header { text: String },
    /// The frame breaks off after `prefix`.
    Content { text: String, prefix: Vec<u8> },
}

/// Inflates the embedded runtime to the tar archive in it, whose entries are to be
/// unpacked at the root of the directory under construction.
///
/// A frame that breaks off may still hold a whole archive, for an archive ends at its
/// own end marker. So the error hands on what came before the break, for the caller to
/// unpack up to it.
pub fn unpack_blob(blob: &[u8]) -> (archive: Result<Vec<u8>, UnpackError>)
    ensures
        match archive {
            Ok(bytes) => {
                &&& zstd_header(blob@) is Ok
                &&& zstd_content(blob@) == Some(bytes@)
                &&& zstd_stream(blob@) == (bytes@, Ok::<(), Seq<char>>(()))
            },
            Err(UnpackError::Header { text }) => zstd_header(blob@) == Err::<(), Seq<char>>(text@),
            Err(UnpackError::Content { text, prefix }) => {
                &&& zstd_header(blob@) is Ok
                &&& zstd_content(blob@) is None
                &&& zstd_stream(blob@) == (prefix@, Err::<(), Seq<char>>(text@))
            },
        },
        !zstd_magic().is_prefix_of(blob@) ==> (archive matches Err(UnpackError::Header { .. })),
        blob@.len() < 4 || blob@.take(4) != seq![0x28u8, 0xb5, 0x2f, 0xfd] ==> (
        archive matches Err(UnpackError::Header { .. })),
        archive is Ok <==> zstd_header(blob@) is Ok && zstd_stream(blob@).1 is Ok,
        archive matches Err(UnpackError::Header { .. }) <==> zstd_header(blob@) is Err,
{
    proof {
        magic_is_the_first_four_bytes(blob@);
    }
    match read_zstd_header(blob) {
        Ok(_) => match read_zstd_frame(blob) {
            Ok(bytes) => Ok(bytes),
            Err((prefix, text)) => Err(UnpackError::Content { text, prefix }),
        },
        Err(text) => Err(UnpackError::Header { text }),
    }
}

/// A blob begins with the magic number exactly where its first four bytes are `28 b5 2f
/// fd`.
pub proof fn magic_is_the_first_four_bytes(blob: Seq<u8>)
    ensures
        zstd_magic().is_prefix_of(blob) <==> blob.len() >= 4 && blob.take(4) == seq![
            0x28u8, 0xb5, 0x2f, 0xfd,
        ],
{
    if blob.len() >= 4 {
        assert(blob.take(4) =~= blob.subrange(0, 4));
        assert(zstd_magic() =~= seq![0x28u8, 0xb5, 0x2f, 0xfd]);
    }
}

/// A frame decodes to all the bytes that it gives out, and does so exactly where it
/// comes to its end.
pub proof fn content_is_the_whole_stream(blob: Seq<u8>, bytes: Seq<u8>)
    ensures
        zstd_content(blob) == Some(bytes) <==> zstd_stream(blob).0 == bytes && zstd_stream(
            blob,
        ).1 is Ok,
        zstd_content(blob) is None <==> zstd_stream(blob).1 is Err,
{
}

} // verus!
