//! How alike two titles are, as an exact fraction, and the choice of the best
//! among several candidates.

use vstd::prelude::*;
use vstd::string::*;
use vstd::utf8::encode_utf8;

verus! {

/// The sizes of the matching blocks that `difflib` finds between `first` and
/// `second`, both taken as UTF-8 bytes, in the order in which it lists them.
pub uninterp spec fn matching_blocks(first: Seq<char>, second: Seq<char>) -> Seq<usize>;

/// Calls `difflib::sequencematcher::SequenceMatcher::get_matching_blocks` on a
/// matcher that `SequenceMatcher::new` made for the bytes of `first` and `second`,
/// and takes the `size` of each block. The blocks are a function of the two
/// texts alone; `matching_blocks` names their sizes.
#[verifier::external_body]
fn block_sizes(first: &str, second: &str) -> (sizes: Vec<usize>)
    ensures
        sizes@ == matching_blocks(first@, second@),
{
    let mut matcher = difflib::sequencematcher::SequenceMatcher::<u8>::new(first, second);
    matcher.get_matching_blocks().iter().map(|block| block.size).collect()
}

/// How alike two texts are: the bytes that their matching blocks cover, against
/// the bytes of both texts together. The score is `2 * matched / total`, and 1
/// where both texts are empty.
#[derive(Clone, Copy, Debug, PartialEq, Eq, Structural)]
pub struct Similarity {
    pub matched: usize,
    pub total: usize,
}

impl Similarity {
    /// The numerator of the score.
    pub open spec fn num(self) -> int {
        if self.total == 0 {
            1
        } else {
            2 * self.matched
        }
    }

    /// The denominator of the score; it is positive.
    pub open spec fn den(self) -> int {
        if self.total == 0 {
            1
        } else {
            self.total as int
        }
    }

    /// The score is 0.8 or more.
    pub open spec fn is_close(self) -> bool {
        5 * self.num() >= 4 * self.den()
    }

    /// The score is strictly above that of `other`.
    pub open spec fn exceeds(self, other: Similarity) -> bool {
        self.num() * other.den() > other.num() * self.den()
    }

    /// Whether the score reaches the threshold of 0.8.
    pub fn close(&self) -> (c: bool)
        ensures
            c == self.is_close(),
    {
        if self.total == 0 {
            true
        } else {
            10 * (self.matched as u128) >= 4 * (self.total as u128)
        }
    }

    /// Whether this score is strictly above that of `other`.
    pub fn above(&self, other: &Similarity) -> (a: bool)
        ensures
            a == self.exceeds(*other),
    {
        if self.total == 0 {
            if other.total == 0 {
                false
            } else {
                other.total as u128 > 2 * (other.matched as u128)
            }
        } else if other.total == 0 {
            2 * (self.matched as u128) > self.total as u128
        } else {
            let m = self.matched;
            let t = self.total;
            let om = other.matched;
            let ot = other.total;
            proof {
                let ours = m as int * ot as int;
                let theirs = om as int * t as int;
                assert(0 <= ours <= 0xffff_ffff_ffff_ffff * 0xffff_ffff_ffff_ffff)
                    by (nonlinear_arith)
                    requires
                        ours == m as int * ot as int,
                        0 <= m <= 0xffff_ffff_ffff_ffff,
                        0 <= ot <= 0xffff_ffff_ffff_ffff,
                ;
                assert(0 <= theirs <= 0xffff_ffff_ffff_ffff * 0xffff_ffff_ffff_ffff)
                    by (nonlinear_arith)
                    requires
                        theirs == om as int * t as int,
                        0 <= om <= 0xffff_ffff_ffff_ffff,
                        0 <= t <= 0xffff_ffff_ffff_ffff,
                ;
                assert((2 * m) * ot == 2 * ours) by (nonlinear_arith)
                    requires
                        ours == m as int * ot as int,
                ;
                assert((2 * om) * t == 2 * theirs) by (nonlinear_arith)
                    requires
                        theirs == om as int * t as int,
                ;
            }
            (m as u128) * (ot as u128) > (om as u128) * (t as u128)
        }
    }
}

/// The sum of the sizes.
pub open spec fn sum_sizes(sizes: Seq<usize>) -> nat
    decreases sizes.len(),
{
    if sizes.len() == 0 {
        0
    } else {
        sum_sizes(sizes.drop_last()) + sizes.last() as nat
    }
}

/// The similarity that a list of matching blocks gives two texts of the given
/// lengths. There is none where the covered bytes or the two lengths together
/// are more than a machine word holds.
pub open spec fn similarity_of(sizes: Seq<usize>, first_len: nat, second_len: nat) -> Option<
    Similarity,
> {
    if sum_sizes(sizes) <= usize::MAX && first_len + second_len <= usize::MAX {
        Some(
            Similarity {
                matched: sum_sizes(sizes) as usize,
                total: (first_len + second_len) as usize,
            },
        )
    } else {
        None
    }
}

/// The similarity of two texts whose matching blocks have these sizes.
pub fn similarity_from_blocks(sizes: &Vec<usize>, first_len: usize, second_len: usize) -> (s:
    Option<Similarity>)
    ensures
        s == similarity_of(sizes@, first_len as nat, second_len as nat),
{
    let mut sum: u128 = 0;
    let mut i: usize = 0;
    assert(sizes@.take(0) =~= Seq::<usize>::empty());
    while i < sizes.len()
        invariant
            i <= sizes.len(),
            sum == sum_sizes(sizes@.take(i as int)),
            sum <= i * 0xffff_ffff_ffff_ffff,
        decreases sizes.len() - i,
    {
        proof {
            assert(sizes@.take(i + 1).drop_last() =~= sizes@.take(i as int));
            assert(sizes@.take(i + 1).last() == sizes@[i as int]);
        }
        sum = sum + sizes[i] as u128;
        i += 1;
    }
    assert(sizes@.take(sizes.len() as int) =~= sizes@);
    let total: u128 = first_len as u128 + second_len as u128;
    if sum <= usize::MAX as u128 && total <= usize::MAX as u128 {
        Some(Similarity { matched: sum as usize, total: total as usize })
    } else {
        None
    }
}

/// The length of a text in UTF-8 bytes, as `str::len` gives it.
pub open spec fn byte_len(s: Seq<char>) -> usize {
    encode_utf8(s).len() as usize
}

/// How alike `candidate` and `word` are, as `difflib` matches them.
pub open spec fn similarity(candidate: Seq<char>, word: Seq<char>) -> Option<Similarity> {
    similarity_of(
        matching_blocks(candidate, word),
        byte_len(candidate) as nat,
        byte_len(word) as nat,
    )
}

/// How alike `candidate` and `word` are.
pub fn compare(candidate: &str, word: &str) -> (s: Option<Similarity>)
    ensures
        s == similarity(candidate@, word@),
{
    let sizes = block_sizes(candidate, word);
    similarity_from_blocks(&sizes, candidate.len(), word.len())
}

/// Whether a candidate counts: it has a score and the score is 0.8 or more.
pub open spec fn qualifies(score: Option<Similarity>) -> bool {
    score matches Some(s) && s.is_close()
}

/// `i` is the best candidate: it counts, none that counts has a higher score,
/// and every earlier one that counts has a lower score.
pub open spec fn is_best(scores: Seq<Option<Similarity>>, i: int) -> bool {
    &&& 0 <= i < scores.len()
    &&& qualifies(scores[i])
    &&& forall|j: int|
        0 <= j < scores.len() && qualifies(#[trigger] scores[j]) ==> !scores[j]->0.exceeds(
            scores[i]->0,
        )
    &&& forall|j: int|
        0 <= j < i && qualifies(#[trigger] scores[j]) ==> scores[i]->0.exceeds(scores[j]->0)
}

/// The best candidate, if any counts.
pub open spec fn best_index(scores: Seq<Option<Similarity>>) -> Option<int> {
    if exists|i: int| is_best(scores, i) {
        Some(choose|i: int| is_best(scores, i))
    } else {
        None
    }
}

/// A score above one that is not below a third is above the third.
pub proof fn lemma_exceeds_chain(a: Similarity, b: Similarity, c: Similarity)
    requires
        a.exceeds(b),
        !c.exceeds(b),
    ensures
        a.exceeds(c),
{
    let (an, ad) = (a.num(), a.den());
    let (bn, bd) = (b.num(), b.den());
    let (cn, cd) = (c.num(), c.den());
    assert(an * cd > cn * ad) by (nonlinear_arith)
        requires
            an * bd > bn * ad,
            cn * bd <= bn * cd,
            ad > 0,
            bd > 0,
            cd > 0,
            an >= 0,
            bn >= 0,
            cn >= 0,
    {
        assert(an * bd * cd > bn * ad * cd);
        assert(cn * bd * ad <= bn * cd * ad);
        assert(bn * ad * cd == bn * cd * ad);
        assert(an * cd * bd > cn * ad * bd);
    }
}

/// There is at most one best candidate.
pub proof fn lemma_best_is_unique(scores: Seq<Option<Similarity>>, i: int, k: int)
    requires
        is_best(scores, i),
        is_best(scores, k),
    ensures
        i == k,
{
    if i < k {
        assert(qualifies(scores[i]));
        assert(scores[k]->0.exceeds(scores[i]->0));
        assert(qualifies(scores[k]));
        assert(!scores[k]->0.exceeds(scores[i]->0));
    }
    if k < i {
        assert(qualifies(scores[k]));
        assert(scores[i]->0.exceeds(scores[k]->0));
        assert(qualifies(scores[i]));
        assert(!scores[i]->0.exceeds(scores[k]->0));
    }
}

/// The best candidate: of those whose score is 0.8 or more the one with the
/// highest score, and of several with that score the first.
pub fn best_match(scores: &Vec<Option<Similarity>>) -> (best: Option<usize>)
    ensures
        match best {
            Some(i) => is_best(scores@, i as int) && best_index(scores@) == Some(i as int),
            None => best_index(scores@) is None && forall|j: int|
                0 <= j < scores.len() ==> !qualifies(#[trigger] scores@[j]),
        },
{
    let mut best: Option<usize> = None;
    let mut j: usize = 0;
    while j < scores.len()
        invariant
            j <= scores.len(),
            match best {
                Some(i) => is_best(scores@.take(j as int), i as int),
                None => forall|k: int| 0 <= k < j ==> !qualifies(#[trigger] scores@[k]),
            },
        decreases scores.len() - j,
    {
        let ghost seen = scores@.take(j as int);
        let ghost next = scores@.take(j + 1);
        assert(forall|k: int| 0 <= k < j ==> next[k] == seen[k]);
        assert(next[j as int] == scores@[j as int]);
        match scores[j] {
            None => {
                proof {
                    if let Some(i) = best {
                        assert(is_best(next, i as int));
                    }
                }
            },
            Some(s) => {
                if s.close() {
                    match best {
                        None => {
                            assert(is_best(next, j as int));
                            best = Some(j);
                        },
                        Some(i) => {
                            let held = scores[i].unwrap();
                            assert(seen[i as int] == scores@[i as int]);
                            if s.above(&held) {
                                proof {
                                    assert forall|k: int|
                                        0 <= k < j && qualifies(
                                            #[trigger] next[k],
                                        ) implies s.exceeds(next[k]->0) by {
                                        assert(qualifies(seen[k]));
                                        lemma_exceeds_chain(s, held, seen[k]->0);
                                    }
                                    assert(is_best(next, j as int));
                                }
                                best = Some(j);
                            } else {
                                assert(is_best(next, i as int));
                            }
                        },
                    }
                } else {
                    proof {
                        if let Some(i) = best {
                            assert(is_best(next, i as int));
                        }
                    }
                }
            },
        }
        j += 1;
    }
    assert(scores@.take(scores.len() as int) =~= scores@);
    proof {
        match best {
            Some(i) => {
                let c = choose|c: int| is_best(scores@, c);
                lemma_best_is_unique(scores@, i as int, c);
            },
            None => {
                assert forall|c: int| !is_best(scores@, c) by {
                    if 0 <= c < scores.len() {
                        assert(!qualifies(scores@[c]));
                    }
                }
            },
        }
    }
    best
}

} // verus!
