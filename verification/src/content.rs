//! The content comparator.
//!
//! Two files have the same content when they hold the same bytes. Reading
//! the files belongs to the caller; what is compared is compared here.

use vstd::prelude::*;

verus! {

/// Whether two files of these sizes can hold the same bytes. Files of
/// different size never do, so their bytes need not be read.
pub fn sizes_allow_same(size_a: u64, size_b: u64) -> (r: bool)
    ensures
        r == (size_a == size_b),
{
    size_a == size_b
}

/// Whether `a` and `b` hold the same bytes.
pub fn same_bytes(a: &[u8], b: &[u8]) -> (r: bool)
    ensures
        r == (a@ == b@),
{
    if a.len() != b.len() {
        proof {
            assert(a@.len() != b@.len());
        }
        return false;
    }
    let mut i: usize = 0;
    while i < a.len()
        invariant
            i <= a.len(),
            a.len() == b.len(),
            forall|j: int| 0 <= j < i ==> a@[j] == b@[j],
        decreases a.len() - i,
    {
        if a[i] != b[i] {
            return false;
        }
        i += 1;
    }
    proof {
        assert(a@ =~= b@);
    }
    true
}

/// How the comparison of two files read piece by piece stands.
#[derive(Debug, Clone, Copy, PartialEq, Eq, Structural)]
pub enum PieceVerdict {
    /// The pieces differ: the files differ.
    Differ,
    /// The pieces are equal and not empty: the next pieces decide.
    EqualSoFar,
    /// Both pieces are empty: the files have ended and are equal.
    EqualToTheEnd,
}

/// What a pair of pieces read at the same position of two files says of the files.
pub open spec fn piece_verdict(a: Seq<u8>, b: Seq<u8>) -> PieceVerdict {
    if a != b {
        PieceVerdict::Differ
    } else if a.len() == 0 {
        PieceVerdict::EqualToTheEnd
    } else {
        PieceVerdict::EqualSoFar
    }
}

/// Compares the pieces read at the same position of two files.
pub fn compare_piece(a: &[u8], b: &[u8]) -> (r: PieceVerdict)
    ensures
        r == piece_verdict(a@, b@),
{
    if !same_bytes(a, b) {
        PieceVerdict::Differ
    } else if a.len() == 0 {
        PieceVerdict::EqualToTheEnd
    } else {
        PieceVerdict::EqualSoFar
    }
}

/// The bytes of a file read in `pieces`.
pub open spec fn joined(pieces: Seq<Seq<u8>>) -> Seq<u8>
    decreases pieces.len(),
{
    if pieces.len() == 0 {
        Seq::empty()
    } else {
        joined(pieces.drop_last()) + pieces.last()
    }
}

/// Comparing piece by piece decides the comparison of the whole: two files
/// cut at the same positions hold the same bytes exactly when every pair of
/// pieces holds the same bytes.
pub proof fn law_pieces_decide(a: Seq<Seq<u8>>, b: Seq<Seq<u8>>)
    requires
        a.len() == b.len(),
        forall|i: int| 0 <= i < a.len() ==> a[i].len() == b[i].len(),
    ensures
        joined(a) == joined(b) <==> forall|i: int| 0 <= i < a.len() ==> a[i] == b[i],
        joined(a).len() == joined(b).len(),
    decreases a.len(),
{
    if a.len() > 0 {
        let fa = a.drop_last();
        let fb = b.drop_last();
        law_pieces_decide(fa, fb);
        let n = joined(fa).len() as int;
        if joined(a) == joined(b) {
            assert(joined(fa) =~= joined(a).subrange(0, n));
            assert(joined(fb) =~= joined(b).subrange(0, n));
            assert(a.last() =~= joined(a).subrange(n, joined(a).len() as int));
            assert(b.last() =~= joined(b).subrange(n, joined(b).len() as int));
            assert forall|i: int| 0 <= i < a.len() implies a[i] == b[i] by {
                if i < a.len() - 1 {
                    assert(fa[i] == a[i]);
                    assert(fb[i] == b[i]);
                }
            }
        }
        if forall|i: int| 0 <= i < a.len() ==> a[i] == b[i] {
            assert forall|i: int| 0 <= i < fa.len() implies fa[i] == fb[i] by {
                assert(fa[i] == a[i]);
                assert(fb[i] == b[i]);
            }
            assert(a.last() == b.last());
        }
    }
}

} // verus!
