//! TCP header flag bits and a helper to render a flag byte as text.
use vstd::prelude::*;

verus! {

pub const CWR: u8 = 128;
pub const ECE: u8 = 64;
pub const URG: u8 = 32;
pub const ACK: u8 = 16;
pub const PSH: u8 = 8;
pub const RST: u8 = 4;
pub const SYN: u8 = 2;
pub const FIN: u8 = 1;

/// The text that names each bit set in `flag`, in a fixed order.
pub open spec fn spec_flag_string(flag: u8) -> Seq<char> {
    (if flag & SYN > 0 { "SYN "@ } else { Seq::<char>::empty() })
    + (if flag & ACK > 0 { "ACK "@ } else { Seq::<char>::empty() })
    + (if flag & FIN > 0 { "FIN "@ } else { Seq::<char>::empty() })
    + (if flag & RST > 0 { "RST "@ } else { Seq::<char>::empty() })
    + (if flag & CWR > 0 { "CWR "@ } else { Seq::<char>::empty() })
    + (if flag & ECE > 0 { "ECE "@ } else { Seq::<char>::empty() })
    + (if flag & PSH > 0 { "PSH "@ } else { Seq::<char>::empty() })
    + (if flag & URG > 0 { "URG "@ } else { Seq::<char>::empty() })
}

/// Renders a TCP flag byte as the names of the bits that are set.
pub fn flag_to_string(flag: u8) -> (r: String)
    ensures
        r@ == spec_flag_string(flag),
{
    let mut flag_str = String::new();
    if flag & SYN > 0 {
        flag_str.append("SYN ");
    }
    if flag & ACK > 0 {
        flag_str.append("ACK ");
    }
    if flag & FIN > 0 {
        flag_str.append("FIN ");
    }
    if flag & RST > 0 {
        flag_str.append("RST ");
    }
    if flag & CWR > 0 {
        flag_str.append("CWR ");
    }
    if flag & ECE > 0 {
        flag_str.append("ECE ");
    }
    if flag & PSH > 0 {
        flag_str.append("PSH ");
    }
    if flag & URG > 0 {
        flag_str.append("URG ");
    }
    proof {
        assert(flag_str@ =~= spec_flag_string(flag));
    }
    flag_str
}

} // verus!
