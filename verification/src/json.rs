use vstd::prelude::*;

use crate::locator::OffsetLocator;

verus! {

/// The declarative form of a lookup, as read from a configuration file:
/// the same fields as `OffsetLocator`, in an owned record whose flags
/// default to off when a configuration leaves them out.
pub struct OffsetLocatorJson {
    pub name: String,
    pub partial_match: Vec<String>,
    pub full_match: String,
    pub skip_offset_print: bool,
    pub allow_multiple_matches: bool,
}

impl From<OffsetLocatorJson> for OffsetLocator {
    fn from(j: OffsetLocatorJson) -> (r: OffsetLocator) {
        OffsetLocator {
            name: j.name,
            partial_match: j.partial_match,
            full_match: j.full_match,
            skip_offset_print: j.skip_offset_print,
            allow_multiple_matches: j.allow_multiple_matches,
        }
    }
}

impl vstd::std_specs::convert::FromSpecImpl<OffsetLocatorJson> for OffsetLocator {
    open spec fn obeys_from_spec() -> bool {
        true
    }

    open spec fn from_spec(j: OffsetLocatorJson) -> OffsetLocator {
        OffsetLocator {
            name: j.name,
            partial_match: j.partial_match,
            full_match: j.full_match,
            skip_offset_print: j.skip_offset_print,
            allow_multiple_matches: j.allow_multiple_matches,
        }
    }
}

} // verus!
