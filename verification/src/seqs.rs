//! Facts about filtered and flattened sequences that the proofs share.

use vstd::prelude::*;

verus! {

/// Filtering one item more keeps what was kept, and the item where it
/// passes.
pub(crate) proof fn lemma_filter_next<A>(s: Seq<A>, keep: spec_fn(A) -> bool, i: int)
    requires
        0 <= i < s.len(),
    ensures
        s.take(i + 1).filter(keep) == (if keep(s[i]) {
            s.take(i).filter(keep).push(s[i])
        } else {
            s.take(i).filter(keep)
        }),
{
    let longer = s.take(i + 1);
    assert(longer.drop_last() =~= s.take(i));
    assert(longer.last() == s[i]);
    reveal(Seq::filter);
}

/// Whatever a filter keeps stood in the sequence, at a place where it
/// passes.
pub(crate) proof fn lemma_filter_origin<A>(s: Seq<A>, keep: spec_fn(A) -> bool, k: int)
    requires
        0 <= k < s.filter(keep).len(),
    ensures
        exists|i: int| 0 <= i < s.len() && keep(s[i]) && #[trigger] s[i] == s.filter(keep)[k],
    decreases s.len(),
{
    reveal(Seq::filter);
    if s.len() > 0 {
        let front = s.drop_last();
        if k < front.filter(keep).len() {
            lemma_filter_origin(front, keep, k);
            let i = choose|i: int|
                0 <= i < front.len() && keep(front[i]) && #[trigger] front[i] == front.filter(
                    keep,
                )[k];
            assert(s[i] == front[i]);
        } else {
            assert(s[s.len() - 1] == s.filter(keep)[k]);
        }
    }
}

/// Nothing is kept of a sequence in which nothing passes, and something is
/// kept where something passes.
pub(crate) proof fn lemma_filter_empty<A>(s: Seq<A>, keep: spec_fn(A) -> bool)
    ensures
        s.filter(keep).len() > 0 <==> exists|i: int| 0 <= i < s.len() && keep(#[trigger] s[i]),
    decreases s.len(),
{
    reveal(Seq::filter);
    if s.len() > 0 {
        let front = s.drop_last();
        lemma_filter_empty(front, keep);
        if front.filter(keep).len() > 0 {
            let i = choose|i: int| 0 <= i < front.len() && keep(#[trigger] front[i]);
            assert(keep(s[i]));
        }
        if exists|i: int| 0 <= i < s.len() && keep(#[trigger] s[i]) {
            let i = choose|i: int| 0 <= i < s.len() && keep(#[trigger] s[i]);
            if i < s.len() - 1 {
                assert(keep(front[i]));
            }
        }
    }
}

/// Where all parts have the length `width`, the flattened sequence holds
/// `parts[i][j]` at `i * width + j`.
pub(crate) proof fn lemma_flatten_uniform<A>(parts: Seq<Seq<A>>, width: nat, i: int, j: int)
    requires
        forall|k: int| 0 <= k < parts.len() ==> (#[trigger] parts[k]).len() == width,
        0 <= i < parts.len(),
        0 <= j < width,
    ensures
        parts.flatten().len() == parts.len() * width,
        0 <= i * width + j < parts.flatten().len(),
        parts.flatten()[i * width + j] == parts[i][j],
    decreases parts.len(),
{
    let rest = parts.drop_first();
    assert(parts.flatten() == parts.first() + rest.flatten());
    assert(parts.len() * width == width + rest.len() * width) by (nonlinear_arith)
        requires
            parts.len() == rest.len() + 1,
    ;
    if rest.len() == 0 {
        assert(rest.flatten() =~= Seq::empty());
        assert(i * width + j == j) by (nonlinear_arith)
            requires
                i == 0,
        ;
    } else if i == 0 {
        lemma_flatten_uniform(rest, width, 0, j);
        assert(i * width + j == j) by (nonlinear_arith)
            requires
                i == 0,
        ;
    } else {
        lemma_flatten_uniform(rest, width, i - 1, j);
        assert(i * width + j == width + ((i - 1) * width + j)) by (nonlinear_arith);
        assert(rest[i - 1] == parts[i]);
    }
}

/// A filter keeps the order: of two items that it keeps, the one that comes
/// first stood first in the sequence.
pub(crate) proof fn lemma_filter_order<A>(s: Seq<A>, keep: spec_fn(A) -> bool, i: int, j: int)
    requires
        0 <= i < j < s.filter(keep).len(),
    ensures
        exists|a: int, b: int|
            #![trigger s[a], s[b]]
            0 <= a < b < s.len() && s[a] == s.filter(keep)[i] && s[b] == s.filter(keep)[j],
    decreases s.len(),
{
    reveal(Seq::filter);
    if s.len() > 0 {
        let front = s.drop_last();
        if j < front.filter(keep).len() {
            lemma_filter_order(front, keep, i, j);
            let (a, b) = choose|a: int, b: int|
                #![trigger front[a], front[b]]
                0 <= a < b < front.len() && front[a] == front.filter(keep)[i] && front[b]
                    == front.filter(keep)[j];
            assert(s[a] == front[a] && s[b] == front[b]);
        } else {
            lemma_filter_origin(front, keep, i);
            let a = choose|a: int|
                0 <= a < front.len() && keep(front[a]) && #[trigger] front[a] == front.filter(
                    keep,
                )[i];
            let b = s.len() - 1;
            assert(s[a] == front[a]);
            assert(s[b] == s.filter(keep)[j]);
        }
    }
}

/// Each element of a flattened sequence stands in one of its parts.
pub(crate) proof fn lemma_flatten_origin<A>(parts: Seq<Seq<A>>, k: int)
    requires
        0 <= k < parts.flatten().len(),
    ensures
        exists|i: int, j: int|
            0 <= i < parts.len() && 0 <= j < parts[i].len() && #[trigger] parts[i][j]
                == parts.flatten()[k],
    decreases parts.len(),
{
    if parts.len() > 0 {
        if k < parts.first().len() {
            assert(parts[0][k] == parts.flatten()[k]);
        } else {
            let rest = parts.drop_first();
            lemma_flatten_origin(rest, k - parts.first().len());
            let (i, j) = choose|i: int, j: int|
                0 <= i < rest.len() && 0 <= j < rest[i].len() && #[trigger] rest[i][j]
                    == rest.flatten()[k - parts.first().len()];
            assert(parts[i + 1][j] == parts.flatten()[k]);
        }
    }
}

} // verus!
