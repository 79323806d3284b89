//! The rate decisions of sample-rate conversion. The conversion itself
//! works on floating-point samples and stays with the caller.
use vstd::prelude::*;
use crate::text::{decimal, push_decimal};

verus! {

/// Checks a rate pair: refused when either rate is zero; otherwise whether
/// the rates match, so that the audio passes through unconverted.
pub fn check_rates(from_rate: u32, to_rate: u32) -> (r: Result<bool, String>)
    ensures
        from_rate == 0 || to_rate == 0 ==> (r matches Err(m) && m@ == "invalid sample rates: "@
            + decimal(from_rate as nat) + " -> "@ + decimal(to_rate as nat)),
        from_rate != 0 && to_rate != 0 ==> r == Ok::<bool, String>(from_rate == to_rate),
{
    if from_rate == 0 || to_rate == 0 {
        let mut m = String::from_str("invalid sample rates: ");
        push_decimal(&mut m, from_rate as u64);
        m.append(" -> ");
        push_decimal(&mut m, to_rate as u64);
        return Err(m);
    }
    Ok(from_rate == to_rate)
}

} // verus!
