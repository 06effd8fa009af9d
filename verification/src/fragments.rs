//! What holds of the fragments of a term.

use vstd::prelude::*;
use crate::term::{fragments, is_star, kept, scanned};
use crate::text::{is_space, trim_end, trim_start, trimmed};

verus! {

/// A fragment as the scan leaves it: not empty, without white space at
/// either end and without a multiplication sign.
pub open spec fn is_fragment(f: Seq<char>) -> bool {
    &&& f.len() > 0
    &&& !is_space(f[0])
    &&& !is_space(f.last())
    &&& forall|i: int| 0 <= i < f.len() ==> !is_star(#[trigger] f[i])
}

/// What is left of a text without leading white space is the rest of the
/// text from some position, and does not begin with white space.
proof fn lemma_trim_start(s: Seq<char>) -> (k: int)
    ensures
        0 <= k <= s.len(),
        trim_start(s) == s.skip(k),
        trim_start(s).len() > 0 ==> !is_space(trim_start(s)[0]),
    decreases s.len(),
{
    if s.len() > 0 && is_space(s[0]) {
        let k = lemma_trim_start(s.skip(1));
        assert(s.skip(1).skip(k) == s.skip(k + 1));
        k + 1
    } else {
        assert(s.skip(0) == s);
        0
    }
}

/// What is left of a text without trailing white space is the text up to
/// some position, and does not end with white space.
proof fn lemma_trim_end(s: Seq<char>) -> (k: int)
    ensures
        0 <= k <= s.len(),
        trim_end(s) == s.take(k),
        trim_end(s).len() > 0 ==> !is_space(trim_end(s).last()),
    decreases s.len(),
{
    if s.len() > 0 && is_space(s.last()) {
        let k = lemma_trim_end(s.drop_last());
        assert(s.drop_last().take(k) == s.take(k));
        k
    } else {
        assert(s.take(s.len() as int) == s);
        s.len() as int
    }
}

/// A piece without multiplication signs that is not blank is a fragment
/// once trimmed.
proof fn lemma_trimmed_fragment(piece: Seq<char>)
    requires
        forall|i: int| 0 <= i < piece.len() ==> !is_star(#[trigger] piece[i]),
        trimmed(piece).len() > 0,
    ensures
        is_fragment(trimmed(piece)),
{
    let a = lemma_trim_start(piece);
    let rest = trim_start(piece);
    let b = lemma_trim_end(rest);
    let t = trimmed(piece);
    assert(t == rest.take(b));
    assert(t[0] == rest[0]);
    assert forall|i: int| 0 <= i < t.len() implies !is_star(#[trigger] t[i]) by {
        assert(t[i] == piece[a + i]);
    }
}

proof fn lemma_scanned_fragments(s: Seq<char>)
    ensures
        forall|k: int| 0 <= k < scanned(s).0.len() ==> is_fragment(#[trigger] scanned(s).0[k]),
        forall|i: int| 0 <= i < scanned(s).1.len() ==> !is_star(#[trigger] scanned(s).1[i]),
    decreases s.len(),
{
    if s.len() > 0 {
        let before = scanned(s.drop_last());
        lemma_scanned_fragments(s.drop_last());
        if is_star(s.last()) {
            lemma_kept_fragments(before.0, before.1);
        } else {
            assert forall|i: int| 0 <= i < scanned(s).1.len() implies !is_star(
                #[trigger] scanned(s).1[i],
            ) by {
                if i < before.1.len() {
                    assert(scanned(s).1[i] == before.1[i]);
                }
            }
        }
    }
}

proof fn lemma_kept_fragments(fs: Seq<Seq<char>>, piece: Seq<char>)
    requires
        forall|k: int| 0 <= k < fs.len() ==> is_fragment(#[trigger] fs[k]),
        forall|i: int| 0 <= i < piece.len() ==> !is_star(#[trigger] piece[i]),
    ensures
        forall|k: int| 0 <= k < kept(fs, piece).len() ==> is_fragment(#[trigger] kept(fs, piece)[k]),
{
    if trimmed(piece).len() > 0 {
        lemma_trimmed_fragment(piece);
        assert forall|k: int| 0 <= k < kept(fs, piece).len() implies is_fragment(
            #[trigger] kept(fs, piece)[k],
        ) by {
            if k < fs.len() {
                assert(kept(fs, piece)[k] == fs[k]);
            }
        }
    }
}

/// Every fragment of a term is not empty, has no white space at either
/// end and holds no multiplication sign.
pub proof fn lemma_fragments(s: Seq<char>)
    ensures
        forall|k: int| 0 <= k < fragments(s).len() ==> is_fragment(#[trigger] fragments(s)[k]),
{
    lemma_scanned_fragments(s);
    lemma_kept_fragments(scanned(s).0, scanned(s).1);
}

} // verus!
