//! How a client reaches the bridge.
use vstd::prelude::*;
use crate::text::{chars_of, eq_str, lower, lower_vec, trim, trim_vec};

verus! {

/// Transport of the bridge connection.
#[derive(PartialEq, Eq, Structural, Clone, Copy, Debug)]
pub enum BridgeMode {
    Tcp,
    Kcp,
}

impl BridgeMode {
    /// `kcp` (case and surrounding spaces ignored) selects KCP; anything
    /// else TCP.
    pub fn from_text(value: &str) -> (r: Self)
        ensures
            r == (if lower(trim(value@)) == "kcp"@ {
                BridgeMode::Kcp
            } else {
                BridgeMode::Tcp
            }),
    {
        let v = lower_vec(&trim_vec(&chars_of(value)));
        if eq_str(&v, "kcp") {
            BridgeMode::Kcp
        } else {
            BridgeMode::Tcp
        }
    }
}

} // verus!
