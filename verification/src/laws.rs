//! What holds of every run: laws of fingerprints, of the choice of a rating,
//! and of reconciliation.

use vstd::prelude::*;
use vstd::bytes::spec_u128_to_le_bytes;
use crate::catalog::{find_record, fingerprints_unique, has_hash, lemma_find_record, MovieData};
use crate::error::CatalogError;
use crate::fingerprint::{crc32c, fingerprint, lemma_hex8_injective, stamp_key, FileStamp};
use crate::reconcile::{
    added_titles, catalog_of, entries_of, entry_of, removed_positions, removed_titles,
    unchanged_count, EntryData, MediaFile,
};
use crate::rating::{rating_for, rating_of, scores_of, titles_unique, with_rating};
use crate::record::record_of;
use crate::similarity::{
    best_index, is_best, lemma_best_is_unique, lemma_exceeds_chain, qualifies, similarity,
    Similarity,
};

verus! {

/// The fingerprint of a file is fixed by its size and modification time, whatever
/// its name: two files that agree in both have the same fingerprint. So have
/// two files whose keys, time plus size, are the same.
pub proof fn law_fingerprint_is_fixed(a: FileStamp, b: FileStamp)
    ensures
        a.size_bytes == b.size_bytes && a.modified_secs == b.modified_secs && a.modified_nanos
            == b.modified_nanos ==> fingerprint(a) == fingerprint(b),
        stamp_key(a) == stamp_key(b) ==> fingerprint(a) == fingerprint(b),
{
}

/// Two files have the same fingerprint exactly where the checksums of their
/// keys are the same: writing the checksum out loses nothing.
pub proof fn law_fingerprint_is_checksum(a: FileStamp, b: FileStamp)
    ensures
        fingerprint(a) == fingerprint(b) <==> crc32c(spec_u128_to_le_bytes(stamp_key(a) as u128))
            == crc32c(spec_u128_to_le_bytes(stamp_key(b) as u128)),
{
    if fingerprint(a) == fingerprint(b) {
        lemma_hex8_injective(
            crc32c(spec_u128_to_le_bytes(stamp_key(a) as u128)),
            crc32c(spec_u128_to_le_bytes(stamp_key(b) as u128)),
        );
    }
}

/// A candidate whose score is exactly 0.8 counts: alone, it is the match.
pub proof fn law_threshold_is_met_at_four_fifths(s: Similarity)
    requires
        5 * s.num() == 4 * s.den(),
    ensures
        qualifies(Some(s)),
        best_index(seq![Some(s)]) == Some(0int),
{
    let scores = seq![Some(s)];
    assert(qualifies(scores[0]));
    assert(is_best(scores, 0));
    let c = choose|c: int| is_best(scores, c);
    lemma_best_is_unique(scores, 0, c);
}

/// Where every candidate scores below 0.8, or has no score, there is no match.
pub proof fn law_no_match_below_threshold(scores: Seq<Option<Similarity>>)
    requires
        forall|i: int|
            0 <= i < scores.len() ==> ((#[trigger] scores[i]) matches Some(s) ==> 5 * s.num() < 4
                * s.den()),
    ensures
        best_index(scores) is None,
{
    assert forall|c: int| !is_best(scores, c) by {
        if 0 <= c < scores.len() {
            assert(!qualifies(scores[c]));
        }
    }
}

/// The match is the candidate with the highest score among those that count:
/// no other one that counts scores above it, and none before it scores as high.
pub proof fn law_match_is_highest(scores: Seq<Option<Similarity>>, best: int, other: int)
    requires
        best_index(scores) == Some(best),
        0 <= other < scores.len(),
        qualifies(scores[other]),
    ensures
        0 <= best < scores.len(),
        qualifies(scores[best]),
        !scores[other]->0.exceeds(scores[best]->0),
        other < best ==> scores[best]->0.exceeds(scores[other]->0),
{
    assert(is_best(scores, best));
}

/// Where one candidate counts, there is a match.
pub proof fn law_match_exists(scores: Seq<Option<Similarity>>, i: int)
    requires
        0 <= i < scores.len(),
        qualifies(scores[i]),
    ensures
        best_index(scores) is Some,
    decreases scores.len(),
{
    let rest = scores.drop_last();
    let last = scores.len() - 1;
    if exists|k: int| 0 <= k < last && qualifies(#[trigger] scores[k]) {
        let k = choose|k: int| 0 <= k < last && qualifies(#[trigger] scores[k]);
        assert(rest[k] == scores[k]);
        law_match_exists(rest, k);
        let b = best_index(rest)->0;
        assert(is_best(rest, b));
        assert(rest[b] == scores[b]);
        if qualifies(scores[last]) && scores[last]->0.exceeds(scores[b]->0) {
            assert forall|j: int|
                0 <= j < last && qualifies(
                    #[trigger] scores[j],
                ) implies scores[last]->0.exceeds(scores[j]->0) by {
                assert(rest[j] == scores[j]);
                lemma_exceeds_chain(scores[last]->0, scores[b]->0, scores[j]->0);
            }
            assert(is_best(scores, last));
        } else {
            assert forall|j: int|
                0 <= j < scores.len() && qualifies(
                    #[trigger] scores[j],
                ) implies !scores[j]->0.exceeds(scores[b]->0) by {
                if j < last {
                    assert(rest[j] == scores[j]);
                }
            }
            assert forall|j: int|
                0 <= j < b && qualifies(#[trigger] scores[j]) implies scores[b]->0.exceeds(
                scores[j]->0,
            ) by {
                assert(rest[j] == scores[j]);
            }
            assert(is_best(scores, b));
        }
    } else {
        assert(i == last);
        assert(is_best(scores, last));
    }
}

/// A title gets a rating exactly where a title of the table is at least 0.8
/// like it, and then it is the rating of the best such title.
pub proof fn law_rating_follows_threshold(title: Seq<char>, entries: Seq<(Seq<char>, Seq<char>)>)
    ensures
        rating_for(title, entries) is Some <==> exists|i: int|
            0 <= i < entries.len() && qualifies(#[trigger] similarity(entries[i].0, title)),
        rating_for(title, entries) is Some ==> {
            let best = best_index(scores_of(title, entries))->0;
            &&& is_best(scores_of(title, entries), best)
            &&& rating_for(title, entries) == Some(entries[best].1)
        },
{
    let scores = scores_of(title, entries);
    if exists|i: int| 0 <= i < entries.len() && qualifies(#[trigger] similarity(entries[i].0, title)) {
        let i = choose|i: int|
            0 <= i < entries.len() && qualifies(#[trigger] similarity(entries[i].0, title));
        assert(scores[i] == similarity(entries[i].0, title));
        law_match_exists(scores, i);
    }
    if rating_for(title, entries) is Some {
        let best = best_index(scores)->0;
        assert(is_best(scores, best));
        assert(scores[best] == similarity(entries[best].0, title));
    }
}

/// The entries of a run stand file by file: as many as files, each the entry
/// of the file at its place.
pub proof fn lemma_entries_by_file(
    previous: Seq<MovieData>,
    files: Seq<MediaFile>,
    ratings: Seq<(Seq<char>, Seq<char>)>,
    tags: Seq<Seq<char>>,
    entries: Seq<EntryData>,
)
    requires
        entries_of(previous, files, ratings, tags) == Ok::<_, CatalogError>(entries),
    ensures
        entries.len() == files.len(),
        forall|i: int|
            0 <= i < files.len() ==> #[trigger] entry_of(previous, files[i], ratings, tags) == Ok::<
                _,
                CatalogError,
            >(entries[i]),
    decreases files.len(),
{
    if files.len() > 0 {
        let rest = entries_of(previous, files.drop_last(), ratings, tags);
        match rest {
            Ok(before) => {
                lemma_entries_by_file(previous, files.drop_last(), ratings, tags, before);
                assert forall|i: int| 0 <= i < files.len() implies #[trigger] entry_of(
                    previous,
                    files[i],
                    ratings,
                    tags,
                ) == Ok::<_, CatalogError>(entries[i]) by {
                    if i < files.len() - 1 {
                        assert(files.drop_last()[i] == files[i]);
                        assert(before[i] == entries[i]);
                    }
                }
            },
            Err(_) => {},
        }
    }
}

/// What an entry says of its file: the file's attributes were read, the record
/// carries the file's fingerprint, and the entry is new exactly where the
/// previous catalog does not have that fingerprint. An entry that is not new
/// holds a record of the previous catalog.
pub proof fn lemma_entry_of_file(
    previous: Seq<MovieData>,
    file: MediaFile,
    ratings: Seq<(Seq<char>, Seq<char>)>,
    tags: Seq<Seq<char>>,
    entry: EntryData,
)
    requires
        entry_of(previous, file, ratings, tags) == Ok::<_, CatalogError>(entry),
    ensures
        file.stamp is Some,
        entry.record.hash == fingerprint(file.stamp->0),
        entry.is_new <==> !has_hash(previous, entry.record.hash),
        !entry.is_new ==> exists|k: int| 0 <= k < previous.len() && previous[k] == entry.record,
{
    reveal(entry_of);
    reveal(record_of);
    let stamp = file.stamp->0;
    lemma_find_record(previous, fingerprint(stamp));
    if let Some(k) = find_record(previous, fingerprint(stamp)) {
        assert(previous[k] == entry.record);
        assert(has_hash(previous, entry.record.hash));
    }
}

/// Each entry is counted once: as unchanged or as added.
pub proof fn lemma_every_entry_is_tagged(entries: Seq<EntryData>)
    ensures
        unchanged_count(entries) + added_titles(entries).len() == entries.len(),
    decreases entries.len(),
{
    if entries.len() > 0 {
        lemma_every_entry_is_tagged(entries.drop_last());
    }
}

/// The removed titles are those of the removed positions; the positions rise,
/// so none stands twice; and a position is among them exactly where no record
/// of the new catalog has the fingerprint of the previous record there.
pub proof fn lemma_removed_once(previous: Seq<MovieData>, catalog: Seq<MovieData>)
    ensures
        removed_titles(previous, catalog).len() == removed_positions(previous, catalog).len(),
        forall|n: int|
            0 <= n < removed_positions(previous, catalog).len() ==> {
                let j = #[trigger] removed_positions(previous, catalog)[n];
                &&& 0 <= j < previous.len()
                &&& !has_hash(catalog, previous[j].hash)
                &&& removed_titles(previous, catalog)[n] == previous[j].title
            },
        forall|m: int, n: int|
            0 <= m < n < removed_positions(previous, catalog).len() ==> removed_positions(
                previous,
                catalog,
            )[m] < removed_positions(previous, catalog)[n],
        forall|j: int|
            0 <= j < previous.len() && !has_hash(catalog, (#[trigger] previous[j]).hash)
                ==> removed_positions(previous, catalog).contains(j),
    decreases previous.len(),
{
    if previous.len() > 0 {
        let rest = previous.drop_last();
        let last = previous.len() - 1;
        lemma_removed_once(rest, catalog);
        let positions = removed_positions(previous, catalog);
        let before = removed_positions(rest, catalog);
        assert forall|n: int| 0 <= n < positions.len() implies {
            let j = #[trigger] positions[n];
            &&& 0 <= j < previous.len()
            &&& !has_hash(catalog, previous[j].hash)
            &&& removed_titles(previous, catalog)[n] == previous[j].title
        } by {
            if n < before.len() {
                let j = before[n];
                assert(rest[j] == previous[j]);
            }
        }
        assert forall|j: int|
            0 <= j < previous.len() && !has_hash(
                catalog,
                (#[trigger] previous[j]).hash,
            ) implies positions.contains(j) by {
            if j < last {
                assert(rest[j] == previous[j]);
                assert(before.contains(j));
                let n = choose|n: int| 0 <= n < before.len() && before[n] == j;
                assert(positions[n] == j);
            } else {
                assert(positions[positions.len() - 1] == j);
            }
        }
    }
}

/// Reconciliation is complete.
///
/// Every file has one record in the new catalog, at its place and with its
/// fingerprint, and is counted once, as unchanged or as added. Every previous
/// record whose fingerprint the new catalog lacks is reported once as removed,
/// and no other. By fingerprint, what was added, what was removed and what is
/// unchanged have nothing in common.
pub proof fn law_reconciliation_is_complete(
    previous: Seq<MovieData>,
    files: Seq<MediaFile>,
    ratings: Seq<(Seq<char>, Seq<char>)>,
    tags: Seq<Seq<char>>,
    entries: Seq<EntryData>,
)
    requires
        entries_of(previous, files, ratings, tags) == Ok::<_, CatalogError>(entries),
    ensures
        ({
            let catalog = catalog_of(entries);
            let removed = removed_titles(previous, catalog);
            let positions = removed_positions(previous, catalog);
            // every file has its record, at its place and with its fingerprint
            &&& catalog.len() == files.len()
            &&& forall|i: int|
                0 <= i < files.len() ==> (#[trigger] files[i]).stamp is Some && catalog[i].hash
                    == fingerprint(files[i].stamp->0)
            // and is counted once
            &&& unchanged_count(entries) + added_titles(entries).len() == files.len()
            // the removed titles are those of the previous records that the new
            // catalog lacks, each once
            &&& removed.len() == positions.len()
            &&& forall|n: int|
                0 <= n < positions.len() ==> 0 <= #[trigger] positions[n] < previous.len()
                    && removed[n] == previous[positions[n]].title
            &&& forall|m: int, n: int|
                0 <= m < n < positions.len() ==> #[trigger] positions[m] < #[trigger] positions[n]
            &&& forall|j: int|
                0 <= j < previous.len() ==> (positions.contains(j) <==> !has_hash(
                    catalog,
                    (#[trigger] previous[j]).hash,
                ))
            // a new fingerprint is none of the previous catalog: what was added
            // shares none with what was removed
            &&& forall|i: int, j: int|
                0 <= i < entries.len() && 0 <= j < previous.len() && (#[trigger] entries[i]).is_new
                    ==> entries[i].record.hash != (#[trigger] previous[j]).hash
            // nor with what is unchanged
            &&& forall|i: int, k: int|
                0 <= i < entries.len() && 0 <= k < entries.len() && (#[trigger] entries[i]).is_new
                    && !(#[trigger] entries[k]).is_new ==> entries[i].record.hash
                    != entries[k].record.hash
            // an unchanged fingerprint is in the new catalog: what is unchanged
            // shares none with what was removed
            &&& forall|k: int, n: int|
                0 <= k < entries.len() && !(#[trigger] entries[k]).is_new && 0 <= n
                    < positions.len() ==> entries[k].record.hash
                    != previous[#[trigger] positions[n]].hash
        }),
{
    let catalog = catalog_of(entries);
    let positions = removed_positions(previous, catalog);
    lemma_entries_by_file(previous, files, ratings, tags, entries);
    lemma_every_entry_is_tagged(entries);
    lemma_removed_once(previous, catalog);
    assert forall|i: int| 0 <= i < files.len() implies (#[trigger] files[i]).stamp is Some
        && catalog[i].hash == fingerprint(files[i].stamp->0) by {
        lemma_entry_of_file(previous, files[i], ratings, tags, entries[i]);
    }
    assert forall|j: int| 0 <= j < previous.len() implies (positions.contains(j) <==> !has_hash(
        catalog,
        (#[trigger] previous[j]).hash,
    )) by {
        if positions.contains(j) {
            let n = choose|n: int| 0 <= n < positions.len() && positions[n] == j;
            assert(positions[n] == j);
        }
    }
    assert forall|i: int, j: int|
        0 <= i < entries.len() && 0 <= j < previous.len() && (
        #[trigger] entries[i]).is_new implies entries[i].record.hash != (
    #[trigger] previous[j]).hash by {
        lemma_entry_of_file(previous, files[i], ratings, tags, entries[i]);
    }
    assert forall|i: int, k: int|
        0 <= i < entries.len() && 0 <= k < entries.len() && (#[trigger] entries[i]).is_new && !(
        #[trigger] entries[k]).is_new implies entries[i].record.hash
        != entries[k].record.hash by {
        lemma_entry_of_file(previous, files[i], ratings, tags, entries[i]);
        lemma_entry_of_file(previous, files[k], ratings, tags, entries[k]);
    }
    assert forall|k: int, n: int|
        0 <= k < entries.len() && !(#[trigger] entries[k]).is_new && 0 <= n
            < positions.len() implies entries[k].record.hash
        != previous[#[trigger] positions[n]].hash by {
        assert(catalog[k].hash == entries[k].record.hash);
    }
}

/// Where every entry was taken over, nothing was added and all are unchanged.
pub proof fn lemma_nothing_added(entries: Seq<EntryData>)
    requires
        forall|i: int| 0 <= i < entries.len() ==> !(#[trigger] entries[i]).is_new,
    ensures
        added_titles(entries) == Seq::<Seq<char>>::empty(),
        unchanged_count(entries) == entries.len(),
    decreases entries.len(),
{
    if entries.len() > 0 {
        let rest = entries.drop_last();
        assert forall|i: int| 0 <= i < rest.len() implies !(#[trigger] rest[i]).is_new by {
            assert(rest[i] == entries[i]);
        }
        lemma_nothing_added(rest);
    }
}

/// Where the new catalog has every fingerprint of the previous one, nothing
/// was removed.
pub proof fn lemma_nothing_removed(previous: Seq<MovieData>, catalog: Seq<MovieData>)
    requires
        forall|j: int| 0 <= j < previous.len() ==> has_hash(catalog, (#[trigger] previous[j]).hash),
    ensures
        removed_titles(previous, catalog) == Seq::<Seq<char>>::empty(),
    decreases previous.len(),
{
    if previous.len() > 0 {
        let rest = previous.drop_last();
        assert forall|j: int| 0 <= j < rest.len() implies has_hash(
            catalog,
            (#[trigger] rest[j]).hash,
        ) by {
            assert(rest[j] == previous[j]);
        }
        lemma_nothing_removed(rest, catalog);
        assert(previous.last() == previous[previous.len() - 1]);
    }
}

/// A run goes through where every file has an entry, and then gives these
/// entries.
pub proof fn lemma_entries_from_files(
    previous: Seq<MovieData>,
    files: Seq<MediaFile>,
    ratings: Seq<(Seq<char>, Seq<char>)>,
    tags: Seq<Seq<char>>,
    entries: Seq<EntryData>,
)
    requires
        entries.len() == files.len(),
        forall|i: int|
            0 <= i < files.len() ==> #[trigger] entry_of(previous, files[i], ratings, tags) == Ok::<
                _,
                CatalogError,
            >(entries[i]),
    ensures
        entries_of(previous, files, ratings, tags) == Ok::<_, CatalogError>(entries),
    decreases files.len(),
{
    if files.len() == 0 {
        assert(entries =~= Seq::<EntryData>::empty());
    } else {
        let rest = files.drop_last();
        let before = entries.drop_last();
        assert forall|i: int| 0 <= i < rest.len() implies #[trigger] entry_of(
            previous,
            rest[i],
            ratings,
            tags,
        ) == Ok::<_, CatalogError>(before[i]) by {
            assert(rest[i] == files[i]);
            assert(before[i] == entries[i]);
        }
        lemma_entries_from_files(previous, rest, ratings, tags, before);
        assert(files.last() == files[files.len() - 1]);
        assert(before.push(entries[entries.len() - 1]) =~= entries);
    }
}

/// Reconciliation is idempotent.
///
/// Where a run went through, a second run over the same files against the
/// catalog of the first adds nothing, removes nothing, and finds every file
/// unchanged. The ratings and tags of the second run play no part.
pub proof fn law_reconciliation_is_idempotent(
    previous: Seq<MovieData>,
    files: Seq<MediaFile>,
    ratings: Seq<(Seq<char>, Seq<char>)>,
    tags: Seq<Seq<char>>,
    entries: Seq<EntryData>,
    ratings_again: Seq<(Seq<char>, Seq<char>)>,
    tags_again: Seq<Seq<char>>,
)
    requires
        entries_of(previous, files, ratings, tags) == Ok::<_, CatalogError>(entries),
    ensures
        entries_of(catalog_of(entries), files, ratings_again, tags_again) matches Ok(again) && {
            &&& added_titles(again) == Seq::<Seq<char>>::empty()
            &&& removed_titles(catalog_of(entries), catalog_of(again)) == Seq::<Seq<char>>::empty()
            &&& unchanged_count(again) == files.len()
            &&& catalog_of(again).len() == files.len()
        },
{
    let catalog = catalog_of(entries);
    lemma_entries_by_file(previous, files, ratings, tags, entries);
    let again = Seq::new(
        files.len(),
        |i: int|
            EntryData {
                record: catalog[find_record(catalog, fingerprint(files[i].stamp->0))->0],
                is_new: false,
            },
    );
    assert forall|i: int| 0 <= i < files.len() implies #[trigger] entry_of(
        catalog,
        files[i],
        ratings_again,
        tags_again,
    ) == Ok::<_, CatalogError>(again[i]) by {
        lemma_entry_of_file(previous, files[i], ratings, tags, entries[i]);
        let print = fingerprint(files[i].stamp->0);
        assert(catalog[i].hash == print);
        assert(has_hash(catalog, print));
        lemma_find_record(catalog, print);
        reveal(entry_of);
    }
    lemma_entries_from_files(catalog, files, ratings_again, tags_again, again);
    lemma_nothing_added(again);
    assert forall|j: int| 0 <= j < catalog.len() implies has_hash(
        catalog_of(again),
        (#[trigger] catalog[j]).hash,
    ) by {
        lemma_entry_of_file(previous, files[j], ratings, tags, entries[j]);
        let print = fingerprint(files[j].stamp->0);
        assert(catalog[j].hash == print);
        assert(has_hash(catalog, print));
        lemma_find_record(catalog, print);
        assert(catalog_of(again)[j].hash == print);
    }
    lemma_nothing_removed(catalog, catalog_of(again));
}

/// The new catalog keeps fingerprints unique: where no two files of the scan
/// have the same fingerprint, no two records of the new catalog have.
pub proof fn law_catalog_keeps_fingerprints_unique(
    previous: Seq<MovieData>,
    files: Seq<MediaFile>,
    ratings: Seq<(Seq<char>, Seq<char>)>,
    tags: Seq<Seq<char>>,
    entries: Seq<EntryData>,
)
    requires
        entries_of(previous, files, ratings, tags) == Ok::<_, CatalogError>(entries),
        forall|i: int, k: int|
            0 <= i < k < files.len() && (#[trigger] files[i]).stamp is Some && (
            #[trigger] files[k]).stamp is Some ==> fingerprint(files[i].stamp->0) != fingerprint(
                files[k].stamp->0,
            ),
    ensures
        fingerprints_unique(catalog_of(entries)),
{
    let catalog = catalog_of(entries);
    lemma_entries_by_file(previous, files, ratings, tags, entries);
    assert forall|i: int, k: int| 0 <= i < k < catalog.len() implies (#[trigger] catalog[i]).hash != (
    #[trigger] catalog[k]).hash by {
        lemma_entry_of_file(previous, files[i], ratings, tags, entries[i]);
        lemma_entry_of_file(previous, files[k], ratings, tags, entries[k]);
    }
}

/// What giving a title a rating does to the table, place by place: a table
/// that has the title keeps its length and changes the first place with that
/// title; a table without it grows by the new entry at its end.
pub proof fn lemma_with_rating_by_place(
    entries: Seq<(Seq<char>, Seq<char>)>,
    title: Seq<char>,
    rating: Seq<char>,
)
    ensures
        rating_of(entries, title) is Some ==> {
            &&& with_rating(entries, title, rating).len() == entries.len()
            &&& forall|i: int|
                0 <= i < entries.len() ==> (#[trigger] with_rating(entries, title, rating)[i]).0
                    == entries[i].0
            &&& forall|i: int|
                0 <= i < entries.len() && entries[i].0 != title ==> #[trigger] with_rating(
                    entries,
                    title,
                    rating,
                )[i] == entries[i]
        },
        rating_of(entries, title) is None ==> {
            &&& with_rating(entries, title, rating) == entries.push((title, rating))
            &&& forall|i: int| 0 <= i < entries.len() ==> (#[trigger] entries[i]).0 != title
        },
    decreases entries.len(),
{
    if entries.len() > 0 && entries[0].0 != title {
        let rest = entries.drop_first();
        lemma_with_rating_by_place(rest, title, rating);
        let after = with_rating(entries, title, rating);
        if rating_of(entries, title) is Some {
            assert forall|i: int| 0 <= i < entries.len() implies (#[trigger] after[i]).0
                == entries[i].0 by {
                if i > 0 {
                    assert(after[i] == with_rating(rest, title, rating)[i - 1]);
                    assert(rest[i - 1] == entries[i]);
                }
            }
            assert forall|i: int|
                0 <= i < entries.len() && entries[i].0 != title implies #[trigger] after[i]
                == entries[i] by {
                if i > 0 {
                    assert(after[i] == with_rating(rest, title, rating)[i - 1]);
                    assert(rest[i - 1] == entries[i]);
                }
            }
        } else {
            assert(after =~= entries.push((title, rating)));
            assert forall|i: int| 0 <= i < entries.len() implies (#[trigger] entries[i]).0
                != title by {
                if i > 0 {
                    assert(rest[i - 1] == entries[i]);
                }
            }
        }
    } else if entries.len() > 0 {
        let after = with_rating(entries, title, rating);
        assert forall|i: int| 0 <= i < entries.len() implies (#[trigger] after[i]).0
            == entries[i].0 by {
            if i > 0 {
                assert(after[i] == entries.drop_first()[i - 1]);
            }
        }
        assert forall|i: int|
            0 <= i < entries.len() && entries[i].0 != title implies #[trigger] after[i]
            == entries[i] by {
            if i > 0 {
                assert(after[i] == entries.drop_first()[i - 1]);
            }
        }
    }
}

/// A table in which no title stands twice stays so when a title gets a rating.
pub proof fn law_ratings_keep_titles_unique(
    entries: Seq<(Seq<char>, Seq<char>)>,
    title: Seq<char>,
    rating: Seq<char>,
)
    requires
        titles_unique(entries),
    ensures
        titles_unique(with_rating(entries, title, rating)),
{
    lemma_with_rating_by_place(entries, title, rating);
    let after = with_rating(entries, title, rating);
    assert forall|i: int, j: int| 0 <= i < j < after.len() implies (#[trigger] after[i]).0 != (
    #[trigger] after[j]).0 by {
        if rating_of(entries, title) is Some {
            assert(after[i].0 == entries[i].0);
            assert(after[j].0 == entries[j].0);
        } else {
            if j < entries.len() {
                assert(after[i] == entries[i]);
                assert(after[j] == entries[j]);
            } else {
                assert(after[i] == entries[i]);
                assert(entries[i].0 != title);
            }
        }
    }
}

/// Of two ratings for one title the later stays: after a title got a rating,
/// the table answers with it, and every other title keeps its answer.
pub proof fn law_later_rating_stays(
    entries: Seq<(Seq<char>, Seq<char>)>,
    title: Seq<char>,
    rating: Seq<char>,
    other: Seq<char>,
)
    ensures
        rating_of(with_rating(entries, title, rating), title) == Some(rating),
        other != title ==> rating_of(with_rating(entries, title, rating), other) == rating_of(
            entries,
            other,
        ),
    decreases entries.len(),
{
    let after = with_rating(entries, title, rating);
    if entries.len() == 0 {
        assert(after.drop_first() =~= entries);
    } else if entries[0].0 == title {
        assert(after[0] == (title, rating));
        assert(after.drop_first() =~= entries.drop_first());
    } else {
        law_later_rating_stays(entries.drop_first(), title, rating, other);
        assert(after[0] == entries[0]);
        assert(after.drop_first() =~= with_rating(entries.drop_first(), title, rating));
    }
}

/// How many records of `a` have a fingerprint that a record of `b` has.
spec fn shared(a: Seq<MovieData>, b: Seq<MovieData>) -> nat
    decreases a.len(),
{
    if a.len() == 0 {
        0
    } else if has_hash(b, a.last().hash) {
        shared(a.drop_last(), b) + 1
    } else {
        shared(a.drop_last(), b)
    }
}

/// A catalog with one more record has the fingerprints it had, and that of the
/// new record.
proof fn lemma_has_hash_push(a: Seq<MovieData>, x: MovieData, hash: Seq<char>)
    ensures
        has_hash(a.push(x), hash) <==> has_hash(a, hash) || x.hash == hash,
{
    let more = a.push(x);
    if has_hash(a, hash) {
        let k = choose|k: int| 0 <= k < a.len() && (#[trigger] a[k]).hash == hash;
        assert(more[k].hash == hash);
    }
    if x.hash == hash {
        assert(more[a.len() as int].hash == hash);
    }
    if has_hash(more, hash) {
        let k = choose|k: int| 0 <= k < more.len() && (#[trigger] more[k]).hash == hash;
        if k < a.len() {
            assert(a[k].hash == hash);
        }
    }
}

/// A part of a catalog with unique fingerprints has unique fingerprints, and
/// lacks the fingerprint of the record that was left out.
proof fn lemma_unique_without_last(a: Seq<MovieData>)
    requires
        fingerprints_unique(a),
        a.len() > 0,
    ensures
        fingerprints_unique(a.drop_last()),
        !has_hash(a.drop_last(), a.last().hash),
{
    let rest = a.drop_last();
    assert forall|i: int, j: int| 0 <= i < j < rest.len() implies (#[trigger] rest[i]).hash != (
    #[trigger] rest[j]).hash by {
        assert(rest[i] == a[i]);
        assert(rest[j] == a[j]);
    }
    assert forall|k: int| 0 <= k < rest.len() implies (#[trigger] rest[k]).hash
        != a.last().hash by {
        assert(rest[k] == a[k]);
        assert(a.last() == a[a.len() - 1]);
    }
}

/// One more record in `a`, with a fingerprint that `a` lacks, is one more
/// shared record exactly where `b` has that fingerprint.
proof fn lemma_shared_with_one_more(b: Seq<MovieData>, a: Seq<MovieData>, x: MovieData)
    requires
        fingerprints_unique(b),
        !has_hash(a, x.hash),
    ensures
        shared(b, a.push(x)) == shared(b, a) + if has_hash(b, x.hash) {
            1nat
        } else {
            0nat
        },
    decreases b.len(),
{
    if b.len() > 0 {
        let rest = b.drop_last();
        let y = b.last();
        lemma_unique_without_last(b);
        lemma_shared_with_one_more(rest, a, x);
        lemma_has_hash_push(a, x, y.hash);
        assert(rest.push(y) =~= b);
        lemma_has_hash_push(rest, y, x.hash);
    } else {
        assert forall|k: int| !(0 <= k < b.len() && (#[trigger] b[k]).hash == x.hash) by {}
    }
}

/// No record is shared with an empty catalog.
proof fn lemma_shared_with_none(b: Seq<MovieData>)
    ensures
        shared(b, Seq::<MovieData>::empty()) == 0,
    decreases b.len(),
{
    if b.len() > 0 {
        lemma_shared_with_none(b.drop_last());
    }
}

/// Between two catalogs with unique fingerprints as many records of the one
/// are shared as of the other.
proof fn lemma_shared_is_symmetric(a: Seq<MovieData>, b: Seq<MovieData>)
    requires
        fingerprints_unique(a),
        fingerprints_unique(b),
    ensures
        shared(a, b) == shared(b, a),
    decreases a.len(),
{
    if a.len() == 0 {
        assert(a =~= Seq::<MovieData>::empty());
        lemma_shared_with_none(b);
    } else {
        let rest = a.drop_last();
        lemma_unique_without_last(a);
        lemma_shared_is_symmetric(rest, b);
        lemma_shared_with_one_more(b, rest, a.last());
        assert(rest.push(a.last()) =~= a);
    }
}

/// Each previous record is either removed or shared with the new catalog.
proof fn lemma_removed_or_shared(previous: Seq<MovieData>, catalog: Seq<MovieData>)
    ensures
        removed_titles(previous, catalog).len() + shared(previous, catalog) == previous.len(),
    decreases previous.len(),
{
    if previous.len() > 0 {
        lemma_removed_or_shared(previous.drop_last(), catalog);
    }
}

/// The unchanged entries are the records of the new catalog that are shared
/// with the previous one.
proof fn lemma_unchanged_are_shared(entries: Seq<EntryData>, previous: Seq<MovieData>)
    requires
        forall|i: int|
            0 <= i < entries.len() ==> ((#[trigger] entries[i]).is_new <==> !has_hash(
                previous,
                entries[i].record.hash,
            )),
    ensures
        unchanged_count(entries) == shared(catalog_of(entries), previous),
    decreases entries.len(),
{
    if entries.len() > 0 {
        let rest = entries.drop_last();
        assert forall|i: int| 0 <= i < rest.len() implies ((#[trigger] rest[i]).is_new <==> !has_hash(
            previous,
            rest[i].record.hash,
        )) by {
            assert(rest[i] == entries[i]);
        }
        lemma_unchanged_are_shared(rest, previous);
        assert(catalog_of(entries).drop_last() =~= catalog_of(rest));
        assert(catalog_of(entries).last() == entries[entries.len() - 1].record);
    }
}

/// Every previous record is accounted for.
///
/// Where the previous catalog has unique fingerprints and no two files of the
/// scan have the same, the unchanged files and the removed records together
/// are as many as the previous catalog has records.
pub proof fn law_every_record_is_kept_or_removed(
    previous: Seq<MovieData>,
    files: Seq<MediaFile>,
    ratings: Seq<(Seq<char>, Seq<char>)>,
    tags: Seq<Seq<char>>,
    entries: Seq<EntryData>,
)
    requires
        entries_of(previous, files, ratings, tags) == Ok::<_, CatalogError>(entries),
        fingerprints_unique(previous),
        forall|i: int, k: int|
            0 <= i < k < files.len() && (#[trigger] files[i]).stamp is Some && (
            #[trigger] files[k]).stamp is Some ==> fingerprint(files[i].stamp->0) != fingerprint(
                files[k].stamp->0,
            ),
    ensures
        unchanged_count(entries) + removed_titles(previous, catalog_of(entries)).len()
            == previous.len(),
{
    let catalog = catalog_of(entries);
    law_catalog_keeps_fingerprints_unique(previous, files, ratings, tags, entries);
    lemma_entries_by_file(previous, files, ratings, tags, entries);
    assert forall|i: int| 0 <= i < entries.len() implies ((#[trigger] entries[i]).is_new <==> !has_hash(
        previous,
        entries[i].record.hash,
    )) by {
        lemma_entry_of_file(previous, files[i], ratings, tags, entries[i]);
    }
    lemma_unchanged_are_shared(entries, previous);
    lemma_shared_is_symmetric(catalog, previous);
    lemma_removed_or_shared(previous, catalog);
}

} // verus!
