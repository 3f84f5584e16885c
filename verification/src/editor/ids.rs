//! Resource identifiers: documents (`/buf/<id>`), cursors (`/cur/<id>`)
//! and frames. Ids are minted from a monotonic counter and never reused:
//! a closed-and-reopened document gets a fresh id.

use vstd::prelude::*;

use crate::paths::{join_path, join_segments, number_under, root_and_number, seg_chars};
use crate::text::{decimal, spec_parse_u64};

verus! {

/// Monotonic id source. Every minted id is strictly greater than every
/// id minted before it from the same counter.
pub struct IdCounter {
    next: u64,
}

impl IdCounter {
    /// The value the next `mint` returns.
    pub closed spec fn spec_next(&self) -> u64 {
        self.next
    }

    /// A counter whose first id is 1.
    pub fn new() -> (c: Self)
        ensures
            c.spec_next() == 1,
    {
        Self { next: 1 }
    }

    /// Take the next id.
    pub fn mint(&mut self) -> (id: u64)
        requires
            old(self).spec_next() < u64::MAX,
        ensures
            id == old(self).spec_next(),
            final(self).spec_next() == old(self).spec_next() + 1,
    {
        let id = self.next;
        self.next = self.next + 1;
        id
    }
}

/// Id of a cursor (one per open tab). Wire form `/cur/<id>`.
#[derive(Copy, Clone, Eq, PartialEq, Ord, PartialOrd, Hash, Debug, Structural)]
pub struct CursorId(pub u64);

/// Id of a document. Wire form `/buf/<id>`.
#[derive(Copy, Clone, Eq, PartialEq, Ord, PartialOrd, Hash, Debug, Structural)]
pub struct DocId(pub u64);

/// Id of an editor frame (a layout-tree leaf holding tabs).
#[derive(Copy, Clone, Eq, PartialEq, Ord, PartialOrd, Hash, Debug, Structural)]
pub struct FrameId(pub u64);

/// `cur`
pub open spec fn cur_root() -> Seq<char> {
    seq!['c', 'u', 'r']
}

/// `buf`
pub open spec fn buf_root() -> Seq<char> {
    seq!['b', 'u', 'f']
}

impl CursorId {
    /// Mint a fresh id from `counter`.
    pub fn mint(counter: &mut IdCounter) -> (id: Self)
        requires
            old(counter).spec_next() < u64::MAX,
        ensures
            id.0 == old(counter).spec_next(),
            final(counter).spec_next() == old(counter).spec_next() + 1,
    {
        CursorId(counter.mint())
    }

    pub fn as_u64(self) -> (n: u64)
        ensures
            n == self.0,
    {
        self.0
    }

    /// Segments of the canonical path: `cur`, then the decimal id.
    pub fn to_segments(self) -> (segs: Vec<String>)
        ensures
            seg_chars(segs@) == seq![cur_root(), decimal(self.0 as nat)],
    {
        proof {
            reveal_strlit("cur");
            assert("cur"@ =~= cur_root());
        }
        root_and_number("cur", self.0)
    }

    /// Canonical path `/cur/<id>`.
    pub fn to_path(self) -> (p: String)
        ensures
            p@ == join_path(seq![cur_root(), decimal(self.0 as nat)]),
    {
        let segs = self.to_segments();
        join_segments(segs.as_slice())
    }

    /// Decode `/cur/<u64>` (given as its segments) back into an id.
    /// `None` for any other shape.
    pub fn id_from_path(segs: &[String]) -> (r: Option<Self>)
        ensures
            r == (if segs@.len() == 2 && segs@[0]@ == cur_root() {
                match spec_parse_u64(segs@[1]@) {
                    Some(n) => Some(CursorId(n)),
                    None => None,
                }
            } else {
                None
            }),
    {
        proof {
            reveal_strlit("cur");
            assert("cur"@ =~= cur_root());
        }
        match number_under(segs, "cur") {
            Some(n) => Some(CursorId(n)),
            None => None,
        }
    }
}

impl DocId {
    /// Mint a fresh id from `counter`.
    pub fn mint(counter: &mut IdCounter) -> (id: Self)
        requires
            old(counter).spec_next() < u64::MAX,
        ensures
            id.0 == old(counter).spec_next(),
            final(counter).spec_next() == old(counter).spec_next() + 1,
    {
        DocId(counter.mint())
    }

    pub fn as_u64(self) -> (n: u64)
        ensures
            n == self.0,
    {
        self.0
    }

    /// Segments of the canonical path: `buf`, then the decimal id.
    pub fn to_segments(self) -> (segs: Vec<String>)
        ensures
            seg_chars(segs@) == seq![buf_root(), decimal(self.0 as nat)],
    {
        proof {
            reveal_strlit("buf");
            assert("buf"@ =~= buf_root());
        }
        root_and_number("buf", self.0)
    }

    /// Canonical path `/buf/<id>`.
    pub fn to_path(self) -> (p: String)
        ensures
            p@ == join_path(seq![buf_root(), decimal(self.0 as nat)]),
    {
        let segs = self.to_segments();
        join_segments(segs.as_slice())
    }

    /// Decode `/buf/<u64>` (given as its segments) back into an id.
    /// `None` for any other shape.
    pub fn id_from_path(segs: &[String]) -> (r: Option<Self>)
        ensures
            r == (if segs@.len() == 2 && segs@[0]@ == buf_root() {
                match spec_parse_u64(segs@[1]@) {
                    Some(n) => Some(DocId(n)),
                    None => None,
                }
            } else {
                None
            }),
    {
        proof {
            reveal_strlit("buf");
            assert("buf"@ =~= buf_root());
        }
        match number_under(segs, "buf") {
            Some(n) => Some(DocId(n)),
            None => None,
        }
    }
}

/// Encoding a cursor id into its path segments and decoding them gives
/// the id back.
pub proof fn lemma_cursor_id_round_trip(id: CursorId, segs: Seq<String>)
    requires
        seg_chars(segs) == seq![cur_root(), decimal(id.0 as nat)],
    ensures
        segs.len() == 2 && segs[0]@ == cur_root() && spec_parse_u64(segs[1]@) == Some(id.0),
{
    assert(seg_chars(segs).len() == segs.len());
    assert(seg_chars(segs)[0] == segs[0]@);
    assert(seg_chars(segs)[1] == segs[1]@);
    crate::paths::lemma_parse_decimal(id.0);
}

/// Encoding a document id into its path segments and decoding them gives
/// the id back.
pub proof fn lemma_doc_id_round_trip(id: DocId, segs: Seq<String>)
    requires
        seg_chars(segs) == seq![buf_root(), decimal(id.0 as nat)],
    ensures
        segs.len() == 2 && segs[0]@ == buf_root() && spec_parse_u64(segs[1]@) == Some(id.0),
{
    assert(seg_chars(segs).len() == segs.len());
    assert(seg_chars(segs)[0] == segs[0]@);
    assert(seg_chars(segs)[1] == segs[1]@);
    crate::paths::lemma_parse_decimal(id.0);
}

} // verus!
