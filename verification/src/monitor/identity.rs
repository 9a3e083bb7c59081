//! A build, and a remembered build, is identified by its UUID: two of them are equal
//! when their UUIDs are.
use super::{Build, KnownBuild};
use vstd::prelude::*;
use vstd::std_specs::cmp::PartialEqSpecImpl;

verus! {

impl PartialEq for Build {
    fn eq(&self, other: &Build) -> (r: bool) {
        self.uuid == other.uuid
    }
}

impl PartialEqSpecImpl for Build {
    open spec fn obeys_eq_spec() -> bool {
        true
    }

    open spec fn eq_spec(&self, other: &Build) -> bool {
        self.uuid == other.uuid
    }
}

impl Eq for Build {}

impl PartialEq for KnownBuild {
    fn eq(&self, other: &KnownBuild) -> (r: bool) {
        self.uuid == other.uuid
    }
}

impl PartialEqSpecImpl for KnownBuild {
    open spec fn obeys_eq_spec() -> bool {
        true
    }

    open spec fn eq_spec(&self, other: &KnownBuild) -> bool {
        self.uuid == other.uuid
    }
}

impl Eq for KnownBuild {}

} // verus!
