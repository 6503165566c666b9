//! The resolver library's record-type value.

use vstd::prelude::*;
use hickory_resolver::proto::rr::RecordType as HickoryType;

verus! {

/// The resolver library's record type, carried opaquely.
#[verifier::external_type_specification]
#[verifier::external_body]
pub struct ExHickoryRecordType(hickory_resolver::proto::rr::RecordType);

/// The resolver library's record type for a numeric code.
pub uninterp spec fn hickory_record_type(code: u16) -> HickoryType;

/// `From<u16>` of hickory-proto's `RecordType`: a fixed table from numeric
/// type codes to the resolver's record types (`Unknown(code)` for codes it does
/// not name). The type is opaque here, so its variants cannot be written in a
/// contract; the contract only names the result as a function of the code.
#[verifier::external_body]
pub(crate) fn hickory_from_code(code: u16) -> (r: HickoryType)
    ensures
        r == hickory_record_type(code),
{
    HickoryType::from(code)
}

} // verus!
