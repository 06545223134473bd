//! The records of the catalog.

use vstd::prelude::*;
use crate::text::{opt_text, same_text};

verus! {

/// One video file as the catalog holds it. The fingerprint in `hash` is what a
/// record is found by; title and path play no part in it.
#[derive(Debug)]
pub struct Movie {
    pub title: String,
    pub year: i16,
    /// Absent where no title of the rating source was alike enough.
    pub rating: Option<String>,
    /// The size scaled to its unit, in hundredths: 437 stands for 4.37.
    pub size: u64,
    pub duration: String,
    pub res: i16,
    pub bit_depth: String,
    pub v_codec: String,
    pub a_codec: String,
    pub subs: Option<String>,
    pub channels: String,
    pub encoder: Option<String>,
    pub remux: bool,
    pub hash: String,
}

/// What a record says, with texts in place of strings.
pub struct MovieData {
    pub title: Seq<char>,
    pub year: i16,
    pub rating: Option<Seq<char>>,
    pub size: u64,
    pub duration: Seq<char>,
    pub res: i16,
    pub bit_depth: Seq<char>,
    pub v_codec: Seq<char>,
    pub a_codec: Seq<char>,
    pub subs: Option<Seq<char>>,
    pub channels: Seq<char>,
    pub encoder: Option<Seq<char>>,
    pub remux: bool,
    pub hash: Seq<char>,
}

impl View for Movie {
    type V = MovieData;

    open spec fn view(&self) -> MovieData {
        MovieData {
            title: self.title@,
            year: self.year,
            rating: opt_text(self.rating),
            size: self.size,
            duration: self.duration@,
            res: self.res,
            bit_depth: self.bit_depth@,
            v_codec: self.v_codec@,
            a_codec: self.a_codec@,
            subs: opt_text(self.subs),
            channels: self.channels@,
            encoder: opt_text(self.encoder),
            remux: self.remux,
            hash: self.hash@,
        }
    }
}

/// A copy of a string that may be absent.
pub fn copy_text(s: &Option<String>) -> (copy: Option<String>)
    ensures
        copy == *s,
{
    match s {
        Some(t) => Some(t.clone()),
        None => None,
    }
}

impl Clone for Movie {
    /// The same record once more.
    fn clone(&self) -> (copy: Movie)
        ensures
            copy == *self,
    {
        Movie {
            title: self.title.clone(),
            year: self.year,
            rating: copy_text(&self.rating),
            size: self.size,
            duration: self.duration.clone(),
            res: self.res,
            bit_depth: self.bit_depth.clone(),
            v_codec: self.v_codec.clone(),
            a_codec: self.a_codec.clone(),
            subs: copy_text(&self.subs),
            channels: self.channels.clone(),
            encoder: copy_text(&self.encoder),
            remux: self.remux,
            hash: self.hash.clone(),
        }
    }
}

/// What the records of a catalog say, in its order.
pub open spec fn records(movies: Seq<Movie>) -> Seq<MovieData> {
    movies.map_values(|m: Movie| m@)
}

/// No fingerprint stands twice.
pub open spec fn fingerprints_unique(catalog: Seq<MovieData>) -> bool {
    forall|i: int, j: int|
        0 <= i < j < catalog.len() ==> (#[trigger] catalog[i]).hash != (#[trigger] catalog[j]).hash
}

/// Whether a record of the catalog has this fingerprint.
pub open spec fn has_hash(catalog: Seq<MovieData>, hash: Seq<char>) -> bool {
    exists|k: int| 0 <= k < catalog.len() && (#[trigger] catalog[k]).hash == hash
}

/// The position of the record with this fingerprint. Where several have it, the
/// last one counts: a later record replaces an earlier one.
pub open spec fn find_record(catalog: Seq<MovieData>, hash: Seq<char>) -> Option<int>
    decreases catalog.len(),
{
    if catalog.len() == 0 {
        None
    } else if catalog.last().hash == hash {
        Some(catalog.len() - 1)
    } else {
        find_record(catalog.drop_last(), hash)
    }
}

/// What `find_record` finds has the fingerprint, and it finds something exactly
/// where a record has it.
pub proof fn lemma_find_record(catalog: Seq<MovieData>, hash: Seq<char>)
    ensures
        match find_record(catalog, hash) {
            Some(i) => 0 <= i < catalog.len() && catalog[i].hash == hash && forall|j: int|
                i < j < catalog.len() ==> (#[trigger] catalog[j]).hash != hash,
            None => !has_hash(catalog, hash),
        },
    decreases catalog.len(),
{
    if catalog.len() > 0 && catalog.last().hash != hash {
        let rest = catalog.drop_last();
        lemma_find_record(rest, hash);
        match find_record(rest, hash) {
            Some(i) => {
                assert(rest[i] == catalog[i]);
                assert forall|j: int| i < j < catalog.len() implies (#[trigger] catalog[j]).hash
                    != hash by {
                    if j < rest.len() {
                        assert(rest[j] == catalog[j]);
                    }
                }
            },
            None => {
                assert forall|k: int| 0 <= k < catalog.len() implies (#[trigger] catalog[k]).hash
                    != hash by {
                    if k < rest.len() {
                        assert(rest[k] == catalog[k]);
                    }
                }
            },
        }
    }
}

/// The position of the record with this fingerprint in a catalog.
pub fn find_movie(catalog: &Vec<Movie>, hash: &str) -> (found: Option<usize>)
    ensures
        match found {
            Some(i) => find_record(records(catalog@), hash@) == Some(i as int) && i < catalog.len(),
            None => find_record(records(catalog@), hash@) is None,
        },
{
    let ghost all = records(catalog@);
    let mut i: usize = catalog.len();
    assert(all.take(i as int) =~= all);
    while i > 0
        invariant
            i <= catalog.len(),
            all == records(catalog@),
            find_record(all, hash@) == find_record(all.take(i as int), hash@),
        decreases i,
    {
        let ghost upto = all.take(i as int);
        assert(upto.last() == catalog@[i - 1]@);
        assert(upto.drop_last() =~= all.take(i - 1));
        i -= 1;
        if same_text(catalog[i].hash.as_str(), hash) {
            return Some(i);
        }
    }
    None
}

/// Whether a record of the catalog has this fingerprint.
pub fn contains_hash(catalog: &Vec<Movie>, hash: &str) -> (found: bool)
    ensures
        found == has_hash(records(catalog@), hash@),
{
    proof {
        lemma_find_record(records(catalog@), hash@);
    }
    match find_movie(catalog, hash) {
        Some(i) => {
            assert(records(catalog@)[i as int].hash == hash@);
            true
        },
        None => false,
    }
}

} // verus!
