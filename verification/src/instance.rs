//! The shared instance-identity rule.
//!
//! One optional string is shared between the scrape loop (its writer) and
//! the remediation loop (its reader).  The rule for updating it after a
//! scrape is pure and verified here; the unverified rim holds the cell
//! behind a lock and applies the rule under it.

use vstd::prelude::*;

use crate::bytestr::bytes_eq;
use crate::sample::opt_bytes;

verus! {

/// The stored identity after a scrape that discovered `discovered`:
/// a discovery always wins, anything else leaves the cell alone.
pub open spec fn updated_instance(
    current: Option<Seq<u8>>,
    discovered: Option<Seq<u8>>,
) -> Option<Seq<u8>> {
    match discovered {
        Some(v) => Some(v),
        None => current,
    }
}

/// Whether the update is a change worth reporting: a discovery that the
/// cell did not already hold.
pub open spec fn instance_changed(current: Option<Seq<u8>>, discovered: Option<Seq<u8>>) -> bool {
    match discovered {
        Some(v) => current != Some(v),
        None => false,
    }
}

/// Applies one scrape's discovery to the current cell value.
///
/// Returns the new cell value and whether it differs from the old one
/// (the caller logs exactly when it does).
pub fn update_instance(current: Option<Vec<u8>>, discovered: Option<Vec<u8>>) -> (r: (
    Option<Vec<u8>>,
    bool,
))
    ensures
        opt_bytes(r.0) == updated_instance(opt_bytes(current), opt_bytes(discovered)),
        r.1 == instance_changed(opt_bytes(current), opt_bytes(discovered)),
{
    match discovered {
        Some(v) => {
            let changed = match &current {
                Some(c) => !bytes_eq(c.as_slice(), v.as_slice()),
                None => true,
            };
            proof {
                if current matches Some(c) && c@ == v@ {
                    assert(opt_bytes(current) == Some(v@));
                }
            }
            (Some(v), changed)
        },
        None => (current, false),
    }
}

/// Once the cell is set it never becomes empty again, whatever later
/// scrapes discover.
pub proof fn lemma_instance_monotonic(v: Seq<u8>, discovered: Option<Seq<u8>>)
    ensures
        updated_instance(Some(v), discovered) is Some,
{
}

} // verus!
