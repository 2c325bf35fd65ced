//! Identity resolution for the device monitor: classify a raw device name as
//! a supported controller by its embedded vendor and product identifiers.
//!
//! A supported name has the fixed 19-byte layout
//! `bbbb:vvvv:pppp.nnnn`, with the vendor digits at bytes 5 to 8 and the
//! product digits at bytes 10 to 13.

use vstd::prelude::*;
use vstd::string::StringSliceAdditionalSpecFns;

verus! {

/// One supported controller: the DualSense, vendor `054C` product `0CE6`.
pub open spec fn supported_ids(vendor: Seq<u8>, product: Seq<u8>) -> bool {
    &&& vendor =~= seq![0x30u8, 0x35u8, 0x34u8, 0x43u8]  // "054C"
    &&& product =~= seq![0x30u8, 0x43u8, 0x45u8, 0x36u8]  // "0CE6"
}

/// A device name of the expected length whose vendor and product digits
/// match a supported controller.
pub open spec fn sysname_supported(bytes: Seq<u8>) -> bool {
    &&& bytes.len() == 19
    &&& supported_ids(bytes.subrange(5, 9), bytes.subrange(10, 14))
}

/// Checks the 'sysname' for the correct vendor and product ID.
pub fn check_sysname(name: &str) -> (r: bool)
    ensures
        r == sysname_supported(name.spec_bytes()),
{
    let bytes = name.as_bytes();

    if bytes.len() != 19 {
        return false;
    }

    let vendor_ok = bytes[5] == 0x30 && bytes[6] == 0x35 && bytes[7] == 0x34 && bytes[8] == 0x43;
    let product_ok = bytes[10] == 0x30 && bytes[11] == 0x43 && bytes[12] == 0x45 && bytes[13]
        == 0x36;
    proof {
        if vendor_ok && product_ok {
            assert(bytes@.subrange(5, 9) =~= seq![0x30u8, 0x35u8, 0x34u8, 0x43u8]);
            assert(bytes@.subrange(10, 14) =~= seq![0x30u8, 0x43u8, 0x45u8, 0x36u8]);
        } else {
            assert(!sysname_supported(name.spec_bytes())) by {
                if sysname_supported(name.spec_bytes()) {
                    assert(bytes@.subrange(5, 9)[0] == bytes@[5]);
                    assert(bytes@.subrange(5, 9)[1] == bytes@[6]);
                    assert(bytes@.subrange(5, 9)[2] == bytes@[7]);
                    assert(bytes@.subrange(5, 9)[3] == bytes@[8]);
                    assert(bytes@.subrange(10, 14)[0] == bytes@[10]);
                    assert(bytes@.subrange(10, 14)[1] == bytes@[11]);
                    assert(bytes@.subrange(10, 14)[2] == bytes@[12]);
                    assert(bytes@.subrange(10, 14)[3] == bytes@[13]);
                }
            }
        }
    }
    vendor_ok && product_ok
}

} // verus!
