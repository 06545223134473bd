//! Attaching a rating to a title: the table of ratings read from the outside
//! source, how alike two titles are, and the choice of the one best candidate.

use vstd::prelude::*;
use crate::similarity::{best_index, best_match, compare, similarity, Similarity};
use crate::text::{opt_text, same_text};

verus! {

/// One title of the rating source with its rating.
#[derive(Debug)]
pub struct RatingEntry {
    pub title: String,
    pub rating: String,
}

/// The ratings of one run, in the order in which their titles first came in.
#[derive(Debug)]
pub struct Ratings {
    entries: Vec<RatingEntry>,
}

/// No title stands twice.
pub open spec fn titles_unique(entries: Seq<(Seq<char>, Seq<char>)>) -> bool {
    forall|i: int, j: int|
        0 <= i < j < entries.len() ==> (#[trigger] entries[i]).0 != (#[trigger] entries[j]).0
}

/// The table after `title` got `rating`: a title that stands in it keeps its place
/// and takes the new rating, another one goes to the end.
pub open spec fn with_rating(
    entries: Seq<(Seq<char>, Seq<char>)>,
    title: Seq<char>,
    rating: Seq<char>,
) -> Seq<(Seq<char>, Seq<char>)>
    decreases entries.len(),
{
    if entries.len() == 0 {
        seq![(title, rating)]
    } else if entries[0].0 == title {
        seq![(title, rating)] + entries.drop_first()
    } else {
        seq![entries[0]] + with_rating(entries.drop_first(), title, rating)
    }
}

/// The rating that stands with `title`, taken from the first entry that has it.
pub open spec fn rating_of(entries: Seq<(Seq<char>, Seq<char>)>, title: Seq<char>) -> Option<
    Seq<char>,
>
    decreases entries.len(),
{
    if entries.len() == 0 {
        None
    } else if entries[0].0 == title {
        Some(entries[0].1)
    } else {
        rating_of(entries.drop_first(), title)
    }
}

/// Where the first `at` titles differ from `title`, giving it a rating leaves
/// them as they are and works on the rest.
pub proof fn lemma_with_rating_skips(
    entries: Seq<(Seq<char>, Seq<char>)>,
    title: Seq<char>,
    rating: Seq<char>,
    at: int,
)
    requires
        0 <= at <= entries.len(),
        forall|k: int| 0 <= k < at ==> (#[trigger] entries[k]).0 != title,
    ensures
        with_rating(entries, title, rating) == entries.take(at) + with_rating(
            entries.skip(at),
            title,
            rating,
        ),
        rating_of(entries, title) == rating_of(entries.skip(at), title),
    decreases at,
{
    if at == 0 {
        assert(entries.skip(0) =~= entries);
        assert(entries.take(0) + with_rating(entries, title, rating) =~= with_rating(
            entries,
            title,
            rating,
        ));
    } else {
        let rest = entries.drop_first();
        assert(entries[0].0 != title);
        assert forall|k: int| 0 <= k < at - 1 implies (#[trigger] rest[k]).0 != title by {
            assert(rest[k] == entries[k + 1]);
        }
        lemma_with_rating_skips(rest, title, rating, at - 1);
        assert(rest.skip(at - 1) =~= entries.skip(at));
        assert(seq![entries[0]] + rest.take(at - 1) =~= entries.take(at));
        assert(seq![entries[0]] + (rest.take(at - 1) + with_rating(
            entries.skip(at),
            title,
            rating,
        )) =~= entries.take(at) + with_rating(entries.skip(at), title, rating));
    }
}

impl View for Ratings {
    type V = Seq<(Seq<char>, Seq<char>)>;

    closed spec fn view(&self) -> Seq<(Seq<char>, Seq<char>)> {
        Seq::new(self.entries@.len(), |i: int| (self.entries@[i].title@, self.entries@[i].rating@))
    }
}

impl Ratings {
    /// A table without entries.
    pub fn new() -> (table: Ratings)
        ensures
            table@ == Seq::<(Seq<char>, Seq<char>)>::empty(),
    {
        let table = Ratings { entries: Vec::new() };
        assert(table@ =~= Seq::<(Seq<char>, Seq<char>)>::empty());
        table
    }

    /// The number of titles.
    pub fn len(&self) -> (n: usize)
        ensures
            n == self@.len(),
    {
        self.entries.len()
    }

    /// The title at position `i`.
    pub fn title(&self, i: usize) -> (title: &str)
        requires
            i < self@.len(),
        ensures
            title@ == self@[i as int].0,
    {
        self.entries[i].title.as_str()
    }

    /// The rating at position `i`.
    pub fn rating(&self, i: usize) -> (rating: &str)
        requires
            i < self@.len(),
        ensures
            rating@ == self@[i as int].1,
    {
        self.entries[i].rating.as_str()
    }

    /// Gives `title` the rating `rating`. Of two ratings for one title the later stays.
    pub fn insert(&mut self, title: String, rating: String)
        ensures
            final(self)@ == with_rating(old(self)@, title@, rating@),
    {
        let ghost before = self@;
        let mut i: usize = 0;
        while i < self.entries.len()
            invariant
                i <= self.entries.len(),
                self@ == before,
                before == old(self)@,
                forall|k: int| 0 <= k < i ==> (#[trigger] before[k]).0 != title@,
            decreases self.entries.len() - i,
        {
            if same_text(self.entries[i].title.as_str(), title.as_str()) {
                proof {
                    lemma_with_rating_skips(before, title@, rating@, i as int);
                    assert(before[i as int].0 == title@);
                    assert(before.skip(i as int)[0] == before[i as int]);
                    assert(with_rating(before.skip(i as int), title@, rating@) == seq![
                        (title@, rating@),
                    ] + before.skip(i as int).drop_first());
                }
                let ghost title_text = title@;
                let ghost rating_text = rating@;
                self.entries.set(i, RatingEntry { title, rating });
                assert(self@ =~= before.take(i as int) + (seq![(title_text, rating_text)]
                    + before.skip(i as int).drop_first()));
                return ;
            }
            i += 1;
        }
        proof {
            lemma_with_rating_skips(before, title@, rating@, i as int);
            assert(before.skip(i as int).len() == 0);
        }
        let ghost title_text = title@;
        let ghost rating_text = rating@;
        self.entries.push(RatingEntry { title, rating });
        assert(self@ =~= before.take(i as int) + seq![(title_text, rating_text)]);
    }

    /// The rating that stands with exactly this title.
    pub fn get(&self, title: &str) -> (rating: Option<&str>)
        ensures
            match rating {
                Some(r) => rating_of(self@, title@) == Some(r@),
                None => rating_of(self@, title@) is None,
            },
    {
        let mut i: usize = 0;
        while i < self.entries.len()
            invariant
                i <= self.entries.len(),
                forall|k: int| 0 <= k < i ==> (#[trigger] self@[k]).0 != title@,
            decreases self.entries.len() - i,
        {
            if same_text(self.entries[i].title.as_str(), title) {
                proof {
                    lemma_with_rating_skips(self@, title@, Seq::empty(), i as int);
                    assert(self@.skip(i as int)[0] == self@[i as int]);
                }
                return Some(self.entries[i].rating.as_str());
            }
            i += 1;
        }
        proof {
            lemma_with_rating_skips(self@, title@, Seq::empty(), i as int);
            assert(self@.skip(i as int).len() == 0);
        }
        None
    }
}

/// The score of each title of the table against `title`, in the table's order.
pub open spec fn scores_of(title: Seq<char>, entries: Seq<(Seq<char>, Seq<char>)>) -> Seq<
    Option<Similarity>,
> {
    Seq::new(entries.len(), |i: int| similarity(entries[i].0, title))
}

/// The rating for `title`: that of the best candidate among the table's titles,
/// and none where no candidate counts.
pub open spec fn rating_for(title: Seq<char>, entries: Seq<(Seq<char>, Seq<char>)>) -> Option<
    Seq<char>,
> {
    match best_index(scores_of(title, entries)) {
        Some(i) => Some(entries[i].1),
        None => None,
    }
}

/// The rating of the title of the table that is most like `title`, where one
/// is at least 0.8 alike. The title need not stand in the table as it is.
pub fn get_rating(title: &str, ratings: &Ratings) -> (rating: Option<String>)
    ensures
        opt_text(rating) == rating_for(title@, ratings@),
{
    let mut scores: Vec<Option<Similarity>> = Vec::new();
    let mut i: usize = 0;
    while i < ratings.len()
        invariant
            i <= ratings@.len(),
            scores@ == scores_of(title@, ratings@).take(i as int),
        decreases ratings@.len() - i,
    {
        scores.push(compare(ratings.title(i), title));
        assert(scores@ =~= scores_of(title@, ratings@).take(i + 1));
        i += 1;
    }
    assert(scores@ =~= scores_of(title@, ratings@));
    match best_match(&scores) {
        Some(i) => Some(ratings.rating(i).to_owned()),
        None => None,
    }
}

} // verus!
