//! Identifiers of the well-known nodes that name each structure's default
//! binary encoding, as far as this crate carries such structures.

use vstd::prelude::*;

verus! {

/// The object node that names a structure's default binary encoding.
#[allow(non_camel_case_types)]
#[derive(Clone, Copy, PartialEq, Eq, Structural, Debug)]
pub enum ObjectId {
    BrowsePath_Encoding_DefaultBinary,
    RelativePathElement_Encoding_DefaultBinary,
}

} // verus!
