//! A request to translate a browse path into a node id: a starting node
//! and the relative path to follow from it, with their binary form.

use vstd::prelude::*;
use crate::basic_types::NodeId;
use crate::basic_types::StatusCode;
use crate::encoding::EncodingResult;
use crate::encoding::MAX_ENCODED_LENGTH;
use crate::encoding::lemma_node_id_round_trip;
use crate::encoding::lemma_subrange_of_subrange;
use crate::encoding::read_node_id;
use crate::encoding::spec_node_id_enc;
use crate::encoding::spec_read_node_id;
use crate::encoding::write_node_id;
use crate::node_ids::ObjectId;
use crate::relative_path::RelativePath;
use crate::relative_path::elements_wf;
use crate::relative_path::lemma_path_round_trip;
use crate::relative_path::path_wf;
use crate::relative_path::spec_path_enc;
use crate::relative_path::spec_read_path;
use crate::relative_path_element::RelativePathElementView;

verus! {

/// A browse path as the contracts read it.
pub struct BrowsePathView {
    pub starting_node: NodeId,
    pub relative_path: Seq<RelativePathElementView>,
}

/// A request to translate a path into a node id.
#[derive(Clone, PartialEq, Debug)]
pub struct BrowsePath {
    pub starting_node: NodeId,
    pub relative_path: RelativePath,
}

impl View for BrowsePath {
    type V = BrowsePathView;

    open spec fn view(&self) -> BrowsePathView {
        BrowsePathView {
            starting_node: self.starting_node,
            relative_path: self.relative_path@,
        }
    }
}

/// A browse path as its starting node, then its relative path.
pub open spec fn spec_browse_path_enc(b: BrowsePathView) -> Seq<u8> {
    spec_node_id_enc(b.starting_node) + spec_path_enc(b.relative_path)
}

/// A browse path can be carried only if its relative path can.
pub open spec fn browse_path_wf(b: BrowsePathView) -> bool {
    path_wf(b.relative_path)
}

/// Reading a browse path: the starting node, then the relative path.
pub open spec fn spec_read_browse_path(d: Seq<u8>, pos: int) -> Option<(BrowsePathView, int)> {
    match spec_read_node_id(d, pos) {
        None => None,
        Some((starting_node, p1)) => match spec_read_path(d, p1) {
            None => None,
            Some((relative_path, p2)) => Some((
                BrowsePathView { starting_node, relative_path },
                p2,
            )),
        },
    }
}

/// Reading back what `spec_browse_path_enc` wrote yields the browse path
/// written and stops right after it.
pub proof fn lemma_browse_path_round_trip(d: Seq<u8>, pos: int, b: BrowsePathView)
    requires
        0 <= pos,
        browse_path_wf(b),
        pos + spec_browse_path_enc(b).len() <= d.len(),
        d.subrange(pos, pos + spec_browse_path_enc(b).len() as int) == spec_browse_path_enc(b),
    ensures
        spec_read_browse_path(d, pos) == Some((b, pos + spec_browse_path_enc(b).len() as int)),
{
    let total = spec_browse_path_enc(b).len() as int;
    let whole = d.subrange(pos, pos + total);
    lemma_subrange_of_subrange(d, pos, total, 0, 6);
    assert(whole.subrange(0, 6) =~= spec_node_id_enc(b.starting_node));
    lemma_node_id_round_trip(d, pos, b.starting_node);
    lemma_subrange_of_subrange(d, pos, total, 6, total);
    assert(whole.subrange(6, total) =~= spec_path_enc(b.relative_path));
    lemma_path_round_trip(d, pos + 6, b.relative_path);
    assert(b == (BrowsePathView {
        starting_node: b.starting_node,
        relative_path: b.relative_path,
    }));
}

impl BrowsePath {
    /// The node naming this structure's default binary encoding.
    pub fn object_id(&self) -> (r: ObjectId)
        ensures
            r == ObjectId::BrowsePath_Encoding_DefaultBinary,
    {
        ObjectId::BrowsePath_Encoding_DefaultBinary
    }

    /// The size of this browse path's binary form.
    pub fn byte_len(&self) -> (r: usize)
        requires
            browse_path_wf(self@),
        ensures
            r == spec_browse_path_enc(self@).len(),
    {
        let mut size: usize = 0;
        size += 6;
        proof {
            assert(spec_node_id_enc(self@.starting_node).len() == 6);
        }
        size += self.relative_path.byte_len();
        size
    }

    /// Appends this browse path's binary form and returns how many bytes
    /// it appended.
    pub fn encode(&self, out: &mut Vec<u8>) -> (r: EncodingResult<usize>)
        requires
            browse_path_wf(self@),
        ensures
            final(out)@ == old(out)@ + spec_browse_path_enc(self@),
            r == Ok::<usize, StatusCode>(spec_browse_path_enc(self@).len() as usize),
    {
        let ghost base = out@;
        let start = out.len();
        write_node_id(out, &self.starting_node);
        let _ = self.relative_path.encode(out);
        proof {
            assert(out@ =~= base + spec_browse_path_enc(self@));
        }
        Ok(out.len() - start)
    }

    /// Reads one browse path, exactly as the specification reads it.
    pub fn decode(data: &[u8], pos: usize) -> (r: EncodingResult<(BrowsePath, usize)>)
        ensures
            match r {
                Ok((v, p)) => spec_read_browse_path(data@, pos as int) == Some((v@, p as int))
                    && elements_wf(v@.relative_path)
                    && v@.relative_path.len() <= MAX_ENCODED_LENGTH,
                Err(_) => spec_read_browse_path(data@, pos as int) is None,
            },
    {
        let (starting_node, p1) = read_node_id(data, pos)?;
        let (relative_path, p2) = RelativePath::decode(data, p1)?;
        Ok((BrowsePath { starting_node, relative_path }, p2))
    }
}

} // verus!
