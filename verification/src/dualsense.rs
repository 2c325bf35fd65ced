//! Constants describing the DualSense controller, and a name check against
//! its full `vvvv:pppp` identifier window (bytes 5 to 13 of the name).

use vstd::prelude::*;
use vstd::string::StringSliceAdditionalSpecFns;

verus! {

/// Sony
pub const VENDOR_ID: u16 = 0x054C;

/// DualSense
pub const PRODUCT_ID: u16 = 0x0CE6;

/// A device name of the expected length whose identifier window equals
/// `054C:0CE6`.
pub open spec fn sysname_matches(bytes: Seq<u8>) -> bool {
    &&& bytes.len() == 19
    &&& bytes.subrange(5, 14) =~= seq![
        0x30u8,
        0x35u8,
        0x34u8,
        0x43u8,
        0x3au8,
        0x30u8,
        0x43u8,
        0x45u8,
        0x36u8,
    ]  // "054C:0CE6"
}

/// Checks the 'sysname' for the correct vendor and product ID.
pub fn check_sysname(name: &str) -> (r: bool)
    ensures
        r == sysname_matches(name.spec_bytes()),
{
    let bytes = name.as_bytes();

    if bytes.len() != 19 {
        return false;
    }

    let window_ok = bytes[5] == 0x30 && bytes[6] == 0x35 && bytes[7] == 0x34 && bytes[8] == 0x43
        && bytes[9] == 0x3a && bytes[10] == 0x30 && bytes[11] == 0x43 && bytes[12] == 0x45
        && bytes[13] == 0x36;
    proof {
        let w = bytes@.subrange(5, 14);
        assert(w[0] == bytes@[5] && w[1] == bytes@[6] && w[2] == bytes@[7] && w[3] == bytes@[8]
            && w[4] == bytes@[9] && w[5] == bytes@[10] && w[6] == bytes@[11] && w[7] == bytes@[12]
            && w[8] == bytes@[13]);
        if window_ok {
            assert(w =~= seq![
                0x30u8,
                0x35u8,
                0x34u8,
                0x43u8,
                0x3au8,
                0x30u8,
                0x43u8,
                0x45u8,
                0x36u8,
            ]);
        }
    }
    window_ok
}

} // verus!
