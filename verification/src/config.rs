//! The relaying modes.

use vstd::prelude::*;

verus! {

use vstd::string::StrSliceExecFns;
use vstd::string::StringSliceAdditionalSpecFns;

/// The various possible modes for relaying.
#[derive(PartialEq, Eq, Structural, Debug, Copy, Clone)]
pub enum RelayerMode {
    /// Always relay batches, profitable or not.
    AlwaysRelay,
    /// Ask a remote oracle whether a batch is worth relaying.
    Api,
    /// Judge profitability against a token-price table loaded from a file.
    File,
}

/// Which mode a name denotes, tried in a fixed order.
pub open spec fn spec_mode_of(s: Seq<u8>) -> Result<RelayerMode, ()> {
    if s == "AlwaysRelay".spec_bytes() {
        Ok(RelayerMode::AlwaysRelay)
    } else if s == "Api".spec_bytes() {
        Ok(RelayerMode::Api)
    } else if s == "File".spec_bytes() {
        Ok(RelayerMode::File)
    } else {
        Err(())
    }
}

impl RelayerMode {
    /// Reads a mode from its name. Rejects anything but the three names.
    pub fn from_str(input: &str) -> (r: Result<RelayerMode, ()>)
        ensures
            r == spec_mode_of(input.spec_bytes()),
    {
        if str_eq(input, "AlwaysRelay") {
            Ok(RelayerMode::AlwaysRelay)
        } else if str_eq(input, "Api") {
            Ok(RelayerMode::Api)
        } else if str_eq(input, "File") {
            Ok(RelayerMode::File)
        } else {
            Err(())
        }
    }
}

/// Whether two strings hold the same bytes.
pub fn str_eq(a: &str, b: &str) -> (r: bool)
    ensures
        r == (a.spec_bytes() == b.spec_bytes()),
{
    let av = a.as_bytes_vec();
    let bv = b.as_bytes_vec();
    if av.len() != bv.len() {
        return false;
    }
    let mut i: usize = 0;
    while i < av.len()
        invariant
            av@ == a.spec_bytes(),
            bv@ == b.spec_bytes(),
            av.len() == bv.len(),
            0 <= i <= av.len(),
            forall|j: int| 0 <= j < i ==> av@[j] == bv@[j],
        decreases av.len() - i,
    {
        if av[i] != bv[i] {
            return false;
        }
        i = i + 1;
    }
    proof {
        assert(av@ =~= bv@);
    }
    true
}

} // verus!
