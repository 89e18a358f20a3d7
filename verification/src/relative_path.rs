//! A relative browse path: a sequence of path elements, carried on the
//! wire as a 32-bit element count followed by each element in order.

use vstd::prelude::*;
use crate::basic_types::StatusCode;
use crate::encoding::EncodingResult;
use crate::encoding::MAX_ENCODED_LENGTH;
use crate::encoding::lemma_subrange_of_subrange;
use crate::encoding::lemma_u32_round_trip;
use crate::encoding::read_u32;
use crate::encoding::spec_read_u32;
use crate::encoding::spec_u32_le;
use crate::encoding::write_u32;
use crate::relative_path_element::RelativePathElement;
use crate::relative_path_element::RelativePathElementView;
use crate::relative_path_element::element_wf;
use crate::relative_path_element::lemma_element_round_trip;
use crate::relative_path_element::spec_element_enc;
use crate::relative_path_element::spec_read_element;

verus! {

/// The views of a sequence of elements.
pub open spec fn views_of_elements(s: Seq<RelativePathElement>) -> Seq<
    RelativePathElementView,
> {
    s.map_values(|e: RelativePathElement| e@)
}

/// Elements in order, each in its binary form.
pub open spec fn spec_elements_enc(s: Seq<RelativePathElementView>) -> Seq<u8>
    decreases s.len(),
{
    if s.len() == 0 {
        Seq::<u8>::empty()
    } else {
        spec_element_enc(s[0]) + spec_elements_enc(s.drop_first())
    }
}

/// Every element of the sequence can be carried.
pub open spec fn elements_wf(s: Seq<RelativePathElementView>) -> bool {
    forall|i: int| 0 <= i < s.len() ==> element_wf(#[trigger] s[i])
}

/// A path as its element count, then its elements.
pub open spec fn spec_path_enc(s: Seq<RelativePathElementView>) -> Seq<u8> {
    spec_u32_le(s.len() as u32) + spec_elements_enc(s)
}

/// A path can be carried only if its element count and its whole binary
/// form fit the positive range of a 32-bit length.
pub open spec fn path_wf(s: Seq<RelativePathElementView>) -> bool {
    &&& s.len() <= MAX_ENCODED_LENGTH
    &&& elements_wf(s)
    &&& spec_path_enc(s).len() <= MAX_ENCODED_LENGTH
}

/// Reading `n` elements in order.
pub open spec fn spec_read_elements(d: Seq<u8>, pos: int, n: nat) -> Option<(
    Seq<RelativePathElementView>,
    int,
)>
    decreases n,
{
    if n == 0 {
        Some((Seq::<RelativePathElementView>::empty(), pos))
    } else {
        match spec_read_element(d, pos) {
            None => None,
            Some((e, p1)) => match spec_read_elements(d, p1, (n - 1) as nat) {
                None => None,
                Some((rest, p2)) => Some((seq![e] + rest, p2)),
            },
        }
    }
}

/// Reading a path: the element count, then that many elements; a count
/// beyond the positive 32-bit range reads as nothing.
pub open spec fn spec_read_path(d: Seq<u8>, pos: int) -> Option<(
    Seq<RelativePathElementView>,
    int,
)> {
    match spec_read_u32(d, pos) {
        None => None,
        Some((count, p1)) => if count > MAX_ENCODED_LENGTH {
            None
        } else {
            spec_read_elements(d, p1, count as nat)
        },
    }
}

/// Encoding distributes over concatenation of element sequences.
pub proof fn lemma_elements_enc_concat(a: Seq<RelativePathElementView>, b: Seq<
    RelativePathElementView,
>)
    ensures
        spec_elements_enc(a + b) == spec_elements_enc(a) + spec_elements_enc(b),
    decreases a.len(),
{
    if a.len() == 0 {
        assert(a + b =~= b);
        assert(spec_elements_enc(a) + spec_elements_enc(b) =~= spec_elements_enc(b));
    } else {
        assert((a + b)[0] == a[0]);
        assert((a + b).drop_first() =~= a.drop_first() + b);
        lemma_elements_enc_concat(a.drop_first(), b);
        assert(spec_element_enc(a[0]) + (spec_elements_enc(a.drop_first())
            + spec_elements_enc(b)) =~= (spec_element_enc(a[0]) + spec_elements_enc(
            a.drop_first(),
        )) + spec_elements_enc(b));
    }
}

/// The encoding of one more element is the encoding so far plus that
/// element's.
pub proof fn lemma_elements_enc_push(s: Seq<RelativePathElementView>, e: RelativePathElementView)
    ensures
        spec_elements_enc(s.push(e)) == spec_elements_enc(s) + spec_element_enc(e),
{
    lemma_elements_enc_concat(s, seq![e]);
    assert(s.push(e) =~= s + seq![e]);
    lemma_elements_enc_single(e);
}

/// The encoding of a one-element sequence is that element's encoding.
pub proof fn lemma_elements_enc_single(e: RelativePathElementView)
    ensures
        spec_elements_enc(seq![e]) == spec_element_enc(e),
{
    let one = seq![e];
    assert(one[0] == e);
    assert(one.drop_first() =~= Seq::<RelativePathElementView>::empty());
    assert(spec_elements_enc(Seq::<RelativePathElementView>::empty())
        == Seq::<u8>::empty());
    assert(spec_elements_enc(one) == spec_element_enc(e) + spec_elements_enc(
        one.drop_first(),
    ));
    assert(spec_element_enc(e) + Seq::<u8>::empty() =~= spec_element_enc(e));
}

/// Reading back what `spec_elements_enc` wrote yields the elements written
/// and stops right after them.
pub proof fn lemma_elements_round_trip(d: Seq<u8>, pos: int, s: Seq<RelativePathElementView>)
    requires
        0 <= pos,
        elements_wf(s),
        pos + spec_elements_enc(s).len() <= d.len(),
        d.subrange(pos, pos + spec_elements_enc(s).len() as int) == spec_elements_enc(s),
    ensures
        spec_read_elements(d, pos, s.len()) == Some((s, pos + spec_elements_enc(s).len() as int)),
    decreases s.len(),
{
    if s.len() == 0 {
        assert(s =~= Seq::<RelativePathElementView>::empty());
    } else {
        let e0 = s[0];
        let rest = s.drop_first();
        let l0 = spec_element_enc(e0).len() as int;
        let total = spec_elements_enc(s).len() as int;
        let whole = d.subrange(pos, pos + total);
        assert(element_wf(e0));
        assert forall|i: int| 0 <= i < rest.len() implies element_wf(#[trigger] rest[i]) by {
            assert(rest[i] == s[i + 1]);
        }
        lemma_subrange_of_subrange(d, pos, total, 0, l0);
        assert(whole.subrange(0, l0) =~= spec_element_enc(e0));
        lemma_element_round_trip(d, pos, e0);
        lemma_subrange_of_subrange(d, pos, total, l0, total);
        assert(whole.subrange(l0, total) =~= spec_elements_enc(rest));
        lemma_elements_round_trip(d, pos + l0, rest);
        assert(seq![e0] + rest =~= s);
    }
}

/// Reading back what `spec_path_enc` wrote yields the path written and
/// stops right after it.
pub proof fn lemma_path_round_trip(d: Seq<u8>, pos: int, s: Seq<RelativePathElementView>)
    requires
        0 <= pos,
        path_wf(s),
        pos + spec_path_enc(s).len() <= d.len(),
        d.subrange(pos, pos + spec_path_enc(s).len() as int) == spec_path_enc(s),
    ensures
        spec_read_path(d, pos) == Some((s, pos + spec_path_enc(s).len() as int)),
{
    let count = s.len() as u32;
    let total = spec_path_enc(s).len() as int;
    let whole = d.subrange(pos, pos + total);
    lemma_subrange_of_subrange(d, pos, total, 0, 4);
    assert(whole.subrange(0, 4) =~= spec_u32_le(count));
    lemma_u32_round_trip(d, pos, count);
    lemma_subrange_of_subrange(d, pos, total, 4, total);
    assert(whole.subrange(4, total) =~= spec_elements_enc(s));
    lemma_elements_round_trip(d, pos + 4, s);
}

/// A relative path: the elements to follow, in order.
#[derive(Clone, PartialEq, Debug)]
pub struct RelativePath {
    pub elements: Vec<RelativePathElement>,
}

impl View for RelativePath {
    type V = Seq<RelativePathElementView>;

    open spec fn view(&self) -> Seq<RelativePathElementView> {
        views_of_elements(self.elements@)
    }
}

impl RelativePath {
    /// The size of this path's binary form.
    pub fn byte_len(&self) -> (r: usize)
        requires
            path_wf(self@),
        ensures
            r == spec_path_enc(self@).len(),
    {
        let n = self.elements.len();
        let mut size: usize = 4;
        let mut i: usize = 0;
        while i < n
            invariant
                path_wf(self@),
                n == self.elements.len(),
                i <= n,
                size == 4 + spec_elements_enc(self@.take(i as int)).len(),
            decreases n - i,
        {
            proof {
                assert(self@.take(i as int + 1) =~= self@.take(i as int) + seq![self@[i as int]]);
                lemma_elements_enc_concat(self@.take(i as int), seq![self@[i as int]]);
                lemma_elements_enc_single(self@[i as int]);
                assert(self@ =~= self@.take(i as int + 1) + self@.skip(i as int + 1));
                lemma_elements_enc_concat(self@.take(i as int + 1), self@.skip(i as int + 1));
                assert(self@[i as int] == self.elements@[i as int]@);
            }
            let el = self.elements[i].byte_len();
            size = size + el;
            i = i + 1;
        }
        proof {
            assert(self@.take(n as int) =~= self@);
        }
        size
    }

    /// Appends this path's binary form — the element count, then each
    /// element in order — and returns how many bytes it appended.
    pub fn encode(&self, out: &mut Vec<u8>) -> (r: EncodingResult<usize>)
        requires
            path_wf(self@),
        ensures
            final(out)@ == old(out)@ + spec_path_enc(self@),
            r == Ok::<usize, StatusCode>(spec_path_enc(self@).len() as usize),
    {
        let ghost base = out@;
        let start = out.len();
        let n = self.elements.len();
        write_u32(out, n as u32);
        let mut i: usize = 0;
        while i < n
            invariant
                path_wf(self@),
                n == self.elements.len(),
                i <= n,
                out@ == base + spec_u32_le(n as u32) + spec_elements_enc(self@.take(i as int)),
            decreases n - i,
        {
            proof {
                assert(self@[i as int] == self.elements@[i as int]@);
            }
            let _ = self.elements[i].encode(out);
            proof {
                lemma_elements_enc_push(self@.take(i as int), self@[i as int]);
                assert(self@.take(i as int).push(self@[i as int]) =~= self@.take(i as int + 1));
                assert(out@ =~= base + spec_u32_le(n as u32) + spec_elements_enc(
                    self@.take(i as int + 1),
                ));
            }
            i = i + 1;
        }
        proof {
            assert(self@.take(n as int) =~= self@);
            assert(out@ =~= base + spec_path_enc(self@));
        }
        Ok(out.len() - start)
    }

    /// Reads one path, exactly as the specification reads it.
    pub fn decode(data: &[u8], pos: usize) -> (r: EncodingResult<(RelativePath, usize)>)
        ensures
            match r {
                Ok((v, p)) => spec_read_path(data@, pos as int) == Some((v@, p as int))
                    && elements_wf(v@) && v@.len() <= MAX_ENCODED_LENGTH,
                Err(_) => spec_read_path(data@, pos as int) is None,
            },
    {
        let (count, p1) = read_u32(data, pos)?;
        if count > MAX_ENCODED_LENGTH {
            return Err(StatusCode::BadDecodingError);
        }
        let count = count as usize;
        let mut elements: Vec<RelativePathElement> = Vec::new();
        let mut cur = p1;
        let mut i: usize = 0;
        while i < count
            invariant
                i <= count,
                count <= MAX_ENCODED_LENGTH,
                spec_read_u32(data@, pos as int) == Some(((count as u32), p1 as int)),
                elements@.len() == i,
                elements_wf(views_of_elements(elements@)),
                match spec_read_elements(data@, cur as int, (count - i) as nat) {
                    Some((rest, p)) => spec_read_elements(data@, p1 as int, count as nat)
                        == Some((views_of_elements(elements@) + rest, p)),
                    None => spec_read_elements(data@, p1 as int, count as nat) is None,
                },
            decreases count - i,
        {
            let decoded = RelativePathElement::decode(data, cur);
            match decoded {
                Err(code) => {
                    return Err(code);
                },
                Ok((e, p2)) => {
                    proof {
                        let vs = views_of_elements(elements@);
                        let vs2 = views_of_elements(elements@.push(e));
                        assert(vs2 =~= vs.push(e@));
                        match spec_read_elements(data@, p2 as int, (count - i - 1) as nat) {
                            Some((rest2, p)) => {
                                assert(vs + (seq![e@] + rest2) =~= vs.push(e@) + rest2);
                            },
                            None => {},
                        }
                        assert forall|k: int| 0 <= k < vs2.len() implies element_wf(
                            #[trigger] vs2[k],
                        ) by {
                            if k < vs.len() {
                                assert(vs2[k] == vs[k]);
                            } else {
                                assert(vs2[k] == e@);
                            }
                        }
                    }
                    elements.push(e);
                    cur = p2;
                },
            }
            i = i + 1;
        }
        proof {
            let vs = views_of_elements(elements@);
            assert(spec_read_elements(data@, cur as int, 0) == Some((
                Seq::<RelativePathElementView>::empty(),
                cur as int,
            )));
            assert(vs + Seq::<RelativePathElementView>::empty() =~= vs);
            assert(spec_read_elements(data@, p1 as int, count as nat) == Some((vs, cur as int)));
        }
        Ok((RelativePath { elements }, cur))
    }
}

} // verus!
