use crate::length::MetadataFault;
use crate::length::content_length;
use crate::length::decimal_value;
use crate::length::usable_content_length;
use crate::planner::ByteRange;
use crate::planner::plan_chunks;
use crate::planner::plan_spec;
use vstd::prelude::*;

verus! {

/// The orchestrator's pre-flight: decide the total content length from the
/// probe's raw content-length header and partition it into chunk ranges. A
/// missing or unusable length is terminal — no ranges exist, so no chunk work
/// is ever attempted and nothing touches the destination file.
pub fn plan_download(header: Option<&Vec<u8>>, chunk_size: usize) -> (r: Result<
    Vec<ByteRange>,
    MetadataFault,
>)
    requires
        1 <= chunk_size,
    ensures
        header is None ==> r == Result::<Vec<ByteRange>, MetadataFault>::Err(
            MetadataFault::MissingHeader,
        ),
        header matches Some(v) ==> ({
            &&& usable_content_length(v@) ==> (r matches Ok(ranges) && ranges@ == plan_spec(
                decimal_value(v@),
                chunk_size as int,
            ))
            &&& !usable_content_length(v@) ==> r == Result::<Vec<ByteRange>, MetadataFault>::Err(
                MetadataFault::UnusableValue,
            )
        }),
{
    proof {
        if let Option::Some(v) = header {
            if usable_content_length(v@) {
                crate::length::lemma_decimal_value_nonneg(v@);
            }
        }
    }
    match content_length(header) {
        Result::Ok(length) => Ok(plan_chunks(length, chunk_size)),
        Result::Err(fault) => Err(fault),
    }
}

} // verus!
