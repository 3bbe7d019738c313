//! The closed two-valued selector of the hashing algorithm.

use vstd::prelude::*;

verus! {

/// Which fingerprint a scan computes: the gradient-based difference hash or
/// the DCT-based perceptual hash. Hashes of the two algorithms must never be
/// compared with each other.
#[derive(Debug, Clone, Copy, PartialEq, Eq, Structural)]
pub enum HashingType {
    DHash,
    PHash,
}

impl HashingType {
    /// Selector from a zero-based choice index, as a chooser dialog with the
    /// two algorithms in a fixed order produces it.
    pub fn from_index(i: usize) -> (result: Option<HashingType>)
        ensures
            i == 0 ==> result == Some(HashingType::DHash),
            i == 1 ==> result == Some(HashingType::PHash),
            i >= 2 ==> result is None,
    {
        match i {
            0 => Some(Self::DHash),
            1 => Some(Self::PHash),
            _ => None,
        }
    }

    /// Display name of the algorithm.
    pub fn label(&self) -> (name: String)
        ensures
            self is DHash ==> name@ == "dHash"@,
            self is PHash ==> name@ == "pHash"@,
    {
        match self {
            HashingType::DHash => "dHash".to_owned(),
            HashingType::PHash => "pHash".to_owned(),
        }
    }
}

} // verus!
