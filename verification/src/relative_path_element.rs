//! An element of a relative browse path, the path made of such elements,
//! and their binary form: each encoder appends exactly the bytes its
//! specification names, each decoder agrees with its specification, and
//! decoding what was encoded yields the value encoded.

use vstd::prelude::*;
use crate::basic_types::NodeId;
use crate::basic_types::QualifiedName;
use crate::basic_types::StatusCode;
use crate::encoding::EncodingResult;
use crate::encoding::lemma_node_id_round_trip;
use crate::encoding::lemma_bool_round_trip;
use crate::encoding::lemma_string_round_trip;
use crate::encoding::lemma_subrange_of_subrange;
use crate::encoding::lemma_u16_round_trip;
use crate::encoding::read_bool;
use crate::encoding::read_node_id;
use crate::encoding::read_string;
use crate::encoding::read_u16;
use crate::encoding::spec_bool_enc;
use crate::encoding::spec_node_id_enc;
use crate::encoding::spec_read_bool;
use crate::encoding::spec_read_node_id;
use crate::encoding::spec_read_string;
use crate::encoding::spec_read_u16;
use crate::encoding::spec_string_enc;
use crate::encoding::spec_u16_le;
use crate::encoding::string_wf;
use crate::encoding::write_bool;
use crate::encoding::write_node_id;
use crate::encoding::write_string;
use crate::encoding::write_u16;
use crate::node_ids::ObjectId;

verus! {

/// A qualified name as the contracts read it: the namespace index and the
/// name's view.
pub type QualifiedNameView = (u16, Option<Seq<u8>>);

/// An element of a relative path as the contracts read it.
pub struct RelativePathElementView {
    pub reference_type_id: NodeId,
    pub is_inverse: bool,
    pub include_subtypes: bool,
    pub target_name: QualifiedNameView,
}

/// An element in a relative path.
#[derive(Clone, PartialEq, Debug)]
pub struct RelativePathElement {
    pub reference_type_id: NodeId,
    pub is_inverse: bool,
    pub include_subtypes: bool,
    pub target_name: QualifiedName,
}

impl View for RelativePathElement {
    type V = RelativePathElementView;

    open spec fn view(&self) -> RelativePathElementView {
        RelativePathElementView {
            reference_type_id: self.reference_type_id,
            is_inverse: self.is_inverse,
            include_subtypes: self.include_subtypes,
            target_name: (self.target_name.namespace_index, self.target_name.name@),
        }
    }
}

/// A qualified name as its namespace index, then its name.
pub open spec fn spec_qualified_name_enc(q: QualifiedNameView) -> Seq<u8> {
    spec_u16_le(q.0) + spec_string_enc(q.1)
}

/// An element as its reference type, its two flags, then its target name.
pub open spec fn spec_element_enc(e: RelativePathElementView) -> Seq<u8> {
    spec_node_id_enc(e.reference_type_id) + spec_bool_enc(e.is_inverse) + spec_bool_enc(
        e.include_subtypes,
    ) + spec_qualified_name_enc(e.target_name)
}

/// An element can be carried only if its target name can.
pub open spec fn element_wf(e: RelativePathElementView) -> bool {
    string_wf(e.target_name.1)
}

/// Reading a qualified name: namespace index, then name.
pub open spec fn spec_read_qualified_name(d: Seq<u8>, pos: int) -> Option<(
    QualifiedNameView,
    int,
)> {
    match spec_read_u16(d, pos) {
        None => None,
        Some((ns, p1)) => match spec_read_string(d, p1) {
            None => None,
            Some((name, p2)) => Some(((ns, name), p2)),
        },
    }
}

/// Reading an element: reference type, two flags, target name.
pub open spec fn spec_read_element(d: Seq<u8>, pos: int) -> Option<(
    RelativePathElementView,
    int,
)> {
    match spec_read_node_id(d, pos) {
        None => None,
        Some((reference_type_id, p1)) => match spec_read_bool(d, p1) {
            None => None,
            Some((is_inverse, p2)) => match spec_read_bool(d, p2) {
                None => None,
                Some((include_subtypes, p3)) => match spec_read_qualified_name(d, p3) {
                    None => None,
                    Some((target_name, p4)) => Some((
                        RelativePathElementView {
                            reference_type_id,
                            is_inverse,
                            include_subtypes,
                            target_name,
                        },
                        p4,
                    )),
                },
            },
        },
    }
}

/// Reading back what `spec_qualified_name_enc` wrote yields the name
/// written and stops right after it.
pub proof fn lemma_qualified_name_round_trip(d: Seq<u8>, pos: int, q: QualifiedNameView)
    requires
        0 <= pos,
        string_wf(q.1),
        pos + spec_qualified_name_enc(q).len() <= d.len(),
        d.subrange(pos, pos + spec_qualified_name_enc(q).len() as int)
            == spec_qualified_name_enc(q),
    ensures
        spec_read_qualified_name(d, pos) == Some((
            q,
            pos + spec_qualified_name_enc(q).len() as int,
        )),
{
    let total = spec_qualified_name_enc(q).len() as int;
    let whole = d.subrange(pos, pos + total);
    lemma_subrange_of_subrange(d, pos, total, 0, 2);
    assert(whole.subrange(0, 2) =~= spec_u16_le(q.0));
    lemma_u16_round_trip(d, pos, q.0);
    lemma_subrange_of_subrange(d, pos, total, 2, total);
    assert(whole.subrange(2, total) =~= spec_string_enc(q.1));
    lemma_string_round_trip(d, pos + 2, q.1);
    assert(q == (q.0, q.1));
}

/// Reading back what `spec_element_enc` wrote yields the element written
/// and stops right after it.
pub proof fn lemma_element_round_trip(d: Seq<u8>, pos: int, e: RelativePathElementView)
    requires
        0 <= pos,
        element_wf(e),
        pos + spec_element_enc(e).len() <= d.len(),
        d.subrange(pos, pos + spec_element_enc(e).len() as int) == spec_element_enc(e),
    ensures
        spec_read_element(d, pos) == Some((e, pos + spec_element_enc(e).len() as int)),
{
    let total = spec_element_enc(e).len() as int;
    let qlen = spec_qualified_name_enc(e.target_name).len() as int;
    assert(total == 8 + qlen);
    let whole = d.subrange(pos, pos + total);
    lemma_subrange_of_subrange(d, pos, total, 0, 6);
    assert(whole.subrange(0, 6) =~= spec_node_id_enc(e.reference_type_id));
    lemma_node_id_round_trip(d, pos, e.reference_type_id);
    lemma_subrange_of_subrange(d, pos, total, 6, 7);
    assert(whole.subrange(6, 7) =~= spec_bool_enc(e.is_inverse));
    lemma_bool_round_trip(d, pos + 6, e.is_inverse);
    lemma_subrange_of_subrange(d, pos, total, 7, 8);
    assert(whole.subrange(7, 8) =~= spec_bool_enc(e.include_subtypes));
    lemma_bool_round_trip(d, pos + 7, e.include_subtypes);
    lemma_subrange_of_subrange(d, pos, total, 8, total);
    assert(whole.subrange(8, total) =~= spec_qualified_name_enc(e.target_name));
    lemma_qualified_name_round_trip(d, pos + 8, e.target_name);
    assert(e == (RelativePathElementView {
        reference_type_id: e.reference_type_id,
        is_inverse: e.is_inverse,
        include_subtypes: e.include_subtypes,
        target_name: e.target_name,
    }));
}

impl RelativePathElement {
    /// The node naming this structure's default binary encoding.
    pub fn object_id(&self) -> (r: ObjectId)
        ensures
            r == ObjectId::RelativePathElement_Encoding_DefaultBinary,
    {
        ObjectId::RelativePathElement_Encoding_DefaultBinary
    }

    /// The size of this element's binary form.
    pub fn byte_len(&self) -> (r: usize)
        requires
            element_wf(self@),
        ensures
            r == spec_element_enc(self@).len(),
    {
        let mut size: usize = 0;
        size += 6;
        size += 1;
        size += 1;
        size += 2;
        match &self.target_name.name.value {
            None => {
                size += 4;
            },
            Some(b) => {
                size += 4;
                size += b.len();
            },
        }
        size
    }

    /// Appends this element's binary form and returns how many bytes it
    /// appended.
    pub fn encode(&self, out: &mut Vec<u8>) -> (r: EncodingResult<usize>)
        requires
            element_wf(self@),
        ensures
            final(out)@ == old(out)@ + spec_element_enc(self@),
            r == Ok::<usize, StatusCode>(spec_element_enc(self@).len() as usize),
    {
        let ghost base = out@;
        let start = out.len();
        write_node_id(out, &self.reference_type_id);
        write_bool(out, self.is_inverse);
        write_bool(out, self.include_subtypes);
        write_u16(out, self.target_name.namespace_index);
        write_string(out, &self.target_name.name);
        proof {
            assert(out@ =~= base + spec_element_enc(self@));
        }
        Ok(out.len() - start)
    }

    /// Reads one element, exactly as the specification reads it.
    pub fn decode(data: &[u8], pos: usize) -> (r: EncodingResult<(RelativePathElement, usize)>)
        ensures
            match r {
                Ok((v, p)) => spec_read_element(data@, pos as int) == Some((v@, p as int))
                    && element_wf(v@),
                Err(_) => spec_read_element(data@, pos as int) is None,
            },
    {
        let (reference_type_id, p1) = read_node_id(data, pos)?;
        let (is_inverse, p2) = read_bool(data, p1)?;
        let (include_subtypes, p3) = read_bool(data, p2)?;
        let (namespace_index, p4) = read_u16(data, p3)?;
        let (name, p5) = read_string(data, p4)?;
        Ok((
            RelativePathElement {
                reference_type_id,
                is_inverse,
                include_subtypes,
                target_name: QualifiedName { namespace_index, name },
            },
            p5,
        ))
    }
}

} // verus!
