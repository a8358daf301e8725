use vstd::prelude::*;

verus! {

/// The length of a longest common subsequence of the first `i` items of `a` and the first
/// `j` items of `b`.
pub open spec fn lcs_len(a: Seq<Seq<char>>, b: Seq<Seq<char>>, i: int, j: int) -> nat
    decreases i + j,
{
    if i <= 0 || j <= 0 {
        0
    } else if a[i - 1] == b[j - 1] {
        1 + lcs_len(a, b, i - 1, j - 1)
    } else {
        let l = lcs_len(a, b, i - 1, j);
        let r = lcs_len(a, b, i, j - 1);
        if l >= r {
            l
        } else {
            r
        }
    }
}

/// The fewest insertions and deletions that turn the first `i` items of `a` into the first
/// `j` items of `b`.
pub open spec fn edit_dist(a: Seq<Seq<char>>, b: Seq<Seq<char>>, i: int, j: int) -> int {
    i + j - 2 * lcs_len(a, b, i, j)
}

/// The items among the first `i` of `texts` that `keep` marks, in order.
pub open spec fn kept_before(texts: Seq<Seq<char>>, keep: Seq<bool>, i: int) -> Seq<Seq<char>>
    decreases i,
{
    if i <= 0 {
        Seq::empty()
    } else {
        kept_before(texts, keep, i - 1) + if keep[i - 1] {
            seq![texts[i - 1]]
        } else {
            Seq::empty()
        }
    }
}

/// Dropping the last item of either side shortens a longest common subsequence by at most
/// one.
pub proof fn lemma_lcs_steps(a: Seq<Seq<char>>, b: Seq<Seq<char>>, i: int, j: int)
    requires
        0 <= i,
        0 <= j,
    ensures
        lcs_len(a, b, i, j) <= i,
        lcs_len(a, b, i, j) <= j,
        i >= 1 ==> lcs_len(a, b, i - 1, j) <= lcs_len(a, b, i, j) <= lcs_len(a, b, i - 1, j) + 1,
        j >= 1 ==> lcs_len(a, b, i, j - 1) <= lcs_len(a, b, i, j) <= lcs_len(a, b, i, j - 1) + 1,
    decreases i + j,
{
    if i >= 1 && j >= 1 {
        lemma_lcs_steps(a, b, i - 1, j);
        lemma_lcs_steps(a, b, i, j - 1);
        lemma_lcs_steps(a, b, i - 1, j - 1);
    }
}

/// No marking of common items keeps more than a longest common subsequence.
pub proof fn lemma_common_marks_bounded(
    a: Seq<Seq<char>>,
    ka: Seq<bool>,
    b: Seq<Seq<char>>,
    kb: Seq<bool>,
    i: int,
    j: int,
)
    requires
        0 <= i <= a.len(),
        0 <= j <= b.len(),
        ka.len() == a.len(),
        kb.len() == b.len(),
        kept_before(a, ka, i) == kept_before(b, kb, j),
    ensures
        kept_before(a, ka, i).len() <= lcs_len(a, b, i, j),
    decreases i + j,
{
    lemma_lcs_steps(a, b, i, j);
    if i == 0 || j == 0 {
    } else if !ka[i - 1] {
        assert(kept_before(a, ka, i) == kept_before(a, ka, i - 1));
        lemma_common_marks_bounded(a, ka, b, kb, i - 1, j);
    } else if !kb[j - 1] {
        assert(kept_before(b, kb, j) == kept_before(b, kb, j - 1));
        lemma_common_marks_bounded(a, ka, b, kb, i, j - 1);
    } else {
        let sa = kept_before(a, ka, i);
        let pa = kept_before(a, ka, i - 1);
        let pb = kept_before(b, kb, j - 1);
        assert(sa == pa.push(a[i - 1]));
        assert(sa == pb.push(b[j - 1]));
        assert(pa =~= sa.drop_last());
        assert(pb =~= sa.drop_last());
        assert(a[i - 1] == sa.last());
        assert(b[j - 1] == sa.last());
        lemma_common_marks_bounded(a, ka, b, kb, i - 1, j - 1);
    }
}

} // verus!
