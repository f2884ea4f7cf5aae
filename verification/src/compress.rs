use vstd::prelude::*;

verus! {

/// The zstd frame that `zstd` makes of `data` at a compression level.
pub uninterp spec fn zstd_frame(data: Seq<u8>, level: int) -> Seq<u8>;

/// `zstd::stream::encode_all` on a slice: the whole of `data` as one zstd
/// frame at `level`, or nothing where the encoder reports an error.
#[verifier::external_body]
pub(crate) fn zstd_encode(data: &[u8], level: i32) -> (frame: Option<Vec<u8>>)
    ensures
        frame matches Some(bytes) ==> bytes@ == zstd_frame(data@, level as int),
{
    zstd::stream::encode_all(data, level).ok()
}

} // verus!
