//! Reconciling the previous catalog with the files of a scan: which files are
//! unchanged, which are new, and which records have lost their file.

use vstd::prelude::*;
use crate::catalog::{contains_hash, find_movie, find_record, has_hash, records, Movie, MovieData};
use crate::classify::Track;
use crate::config::Config;
use crate::error::CatalogError;
use crate::fingerprint::{fingerprint, get_hash, scaled_hundredths, FileStamp};
use crate::rating::Ratings;
use crate::record::{build_record, record_of};

verus! {

/// One file of a scan with all that is read from it.
#[derive(Debug)]
pub struct MediaFile {
    /// The name that title, year, release group and remux mark are read from.
    pub name: String,
    /// Size and modification time; absent where they could not be read.
    pub stamp: Option<FileStamp>,
    /// Running time in whole seconds.
    pub duration_secs: u64,
    /// The decoded tracks of the container, in its order.
    pub tracks: Vec<Track>,
}

/// A record of the new catalog, with how it came there.
#[derive(Debug)]
pub struct Entry {
    pub record: Movie,
    /// Built in this run, and not taken over from the previous catalog.
    pub is_new: bool,
}

/// What an entry says.
pub struct EntryData {
    pub record: MovieData,
    pub is_new: bool,
}

impl View for Entry {
    type V = EntryData;

    open spec fn view(&self) -> EntryData {
        EntryData { record: self.record@, is_new: self.is_new }
    }
}

/// What the entries say, in their order.
pub open spec fn entry_views(entries: Seq<Entry>) -> Seq<EntryData> {
    entries.map_values(|e: Entry| e@)
}

/// The texts of a list of strings.
pub open spec fn texts(strings: Seq<String>) -> Seq<Seq<char>> {
    strings.map_values(|s: String| s@)
}

/// What came of looking at a file.
#[derive(Debug)]
pub enum Seen {
    /// The previous catalog knows the fingerprint; its record was taken over.
    Unchanged,
    /// The fingerprint is new: the container has to be decoded and a record built.
    New { size: u64, hash: String },
}

/// The result of a run.
#[derive(Debug)]
pub struct Report {
    /// The new catalog, in the order of the scan.
    pub catalog: Vec<Movie>,
    /// The titles of the records built in this run, in the order of the scan.
    pub added: Vec<String>,
    /// The titles of the previous records that no file of the scan matches, in
    /// the order of the previous catalog.
    pub removed: Vec<String>,
    /// How many files kept their record.
    pub unchanged: usize,
}

/// What a report says.
pub struct ReportData {
    pub catalog: Seq<MovieData>,
    pub added: Seq<Seq<char>>,
    pub removed: Seq<Seq<char>>,
    pub unchanged: nat,
}

impl View for Report {
    type V = ReportData;

    open spec fn view(&self) -> ReportData {
        ReportData {
            catalog: records(self.catalog@),
            added: texts(self.added@),
            removed: texts(self.removed@),
            unchanged: self.unchanged as nat,
        }
    }
}

/// The entry that a file gets. Its fingerprint decides: where the previous
/// catalog has it, the stored record is taken as it is, and name and tracks
/// are not looked at; else a record is built.
#[verifier::opaque]
pub open spec fn entry_of(
    previous: Seq<MovieData>,
    file: MediaFile,
    ratings: Seq<(Seq<char>, Seq<char>)>,
    tags: Seq<Seq<char>>,
) -> Result<EntryData, CatalogError> {
    match file.stamp {
        None => Err(CatalogError::MetadataUnavailable),
        Some(stamp) => match find_record(previous, fingerprint(stamp)) {
            Some(i) => Ok(EntryData { record: previous[i], is_new: false }),
            None => match record_of(
                file.name@,
                scaled_hundredths(stamp.size_bytes as nat) as u64,
                fingerprint(stamp),
                file.duration_secs,
                file.tracks@,
                ratings,
                tags,
            ) {
                Ok(record) => Ok(EntryData { record, is_new: true }),
                Err(e) => Err(e),
            },
        },
    }
}

/// The entries of all files, in their order, or the error of the first file
/// that fails.
pub open spec fn entries_of(
    previous: Seq<MovieData>,
    files: Seq<MediaFile>,
    ratings: Seq<(Seq<char>, Seq<char>)>,
    tags: Seq<Seq<char>>,
) -> Result<Seq<EntryData>, CatalogError>
    decreases files.len(),
{
    if files.len() == 0 {
        Ok(Seq::empty())
    } else {
        match entries_of(previous, files.drop_last(), ratings, tags) {
            Err(e) => Err(e),
            Ok(entries) => match entry_of(previous, files.last(), ratings, tags) {
                Err(e) => Err(e),
                Ok(entry) => Ok(entries.push(entry)),
            },
        }
    }
}

/// The records of the entries.
pub open spec fn catalog_of(entries: Seq<EntryData>) -> Seq<MovieData> {
    entries.map_values(|e: EntryData| e.record)
}

/// The titles of the new entries, in their order.
pub open spec fn added_titles(entries: Seq<EntryData>) -> Seq<Seq<char>>
    decreases entries.len(),
{
    if entries.len() == 0 {
        Seq::empty()
    } else if entries.last().is_new {
        added_titles(entries.drop_last()).push(entries.last().record.title)
    } else {
        added_titles(entries.drop_last())
    }
}

/// The number of entries that were taken over.
pub open spec fn unchanged_count(entries: Seq<EntryData>) -> nat
    decreases entries.len(),
{
    if entries.len() == 0 {
        0
    } else if entries.last().is_new {
        unchanged_count(entries.drop_last())
    } else {
        unchanged_count(entries.drop_last()) + 1
    }
}

/// The titles of the previous records whose fingerprint no record of the new
/// catalog has, in the order of the previous catalog.
pub open spec fn removed_titles(previous: Seq<MovieData>, catalog: Seq<MovieData>) -> Seq<
    Seq<char>,
>
    decreases previous.len(),
{
    if previous.len() == 0 {
        Seq::empty()
    } else if has_hash(catalog, previous.last().hash) {
        removed_titles(previous.drop_last(), catalog)
    } else {
        removed_titles(previous.drop_last(), catalog).push(previous.last().title)
    }
}

/// The positions of the previous records whose fingerprint no record of the new
/// catalog has, in rising order.
pub open spec fn removed_positions(previous: Seq<MovieData>, catalog: Seq<MovieData>) -> Seq<int>
    decreases previous.len(),
{
    if previous.len() == 0 {
        Seq::empty()
    } else if has_hash(catalog, previous.last().hash) {
        removed_positions(previous.drop_last(), catalog)
    } else {
        removed_positions(previous.drop_last(), catalog).push(previous.len() - 1)
    }
}

/// The report on a run that gave these entries.
pub open spec fn report_of(previous: Seq<MovieData>, entries: Seq<EntryData>) -> ReportData {
    ReportData {
        catalog: catalog_of(entries),
        added: added_titles(entries),
        removed: removed_titles(previous, catalog_of(entries)),
        unchanged: unchanged_count(entries),
    }
}

/// A run in progress: the previous catalog and the entries made so far.
///
/// Each file is first shown to `see`. Where that answers `Seen::New`, the file's
/// container is decoded and `add` builds its record. `finish` gives the report.
#[derive(Debug)]
pub struct Reconciler {
    pub previous: Vec<Movie>,
    pub entries: Vec<Entry>,
}

impl Reconciler {
    /// A run against `previous`, with no file seen yet.
    pub fn new(previous: Vec<Movie>) -> (run: Reconciler)
        ensures
            run.previous == previous,
            run.entries@ == Seq::<Entry>::empty(),
    {
        Reconciler { previous, entries: Vec::new() }
    }

    /// Looks at the attributes of the next file.
    ///
    /// Attributes that could not be read fail the file. A fingerprint that the
    /// previous catalog knows takes the stored record over as an entry. A new
    /// one changes nothing and hands out scaled size and fingerprint.
    pub fn see(&mut self, stamp: &Option<FileStamp>) -> (r: Result<Seen, CatalogError>)
        ensures
            final(self).previous == old(self).previous,
            match *stamp {
                None => {
                    &&& r == Err::<Seen, _>(CatalogError::MetadataUnavailable)
                    &&& final(self).entries == old(self).entries
                },
                Some(s) => match find_record(records(old(self).previous@), fingerprint(s)) {
                    Some(i) => {
                        &&& r matches Ok(Seen::Unchanged)
                        &&& entry_views(final(self).entries@) == entry_views(
                            old(self).entries@,
                        ).push(
                            EntryData { record: records(old(self).previous@)[i], is_new: false },
                        )
                    },
                    None => {
                        &&& r matches Ok(Seen::New { size, hash })
                        &&& size == scaled_hundredths(s.size_bytes as nat)
                        &&& hash@ == fingerprint(s)
                        &&& final(self).entries == old(self).entries
                    },
                },
            },
    {
        let stamp = match stamp {
            Some(s) => s,
            None => {
                return Err(CatalogError::MetadataUnavailable);
            },
        };
        let (size, hash) = get_hash(stamp);
        match find_movie(&self.previous, hash.as_str()) {
            Some(i) => {
                let record = self.previous[i].clone();
                self.entries.push(Entry { record, is_new: false });
                assert(entry_views(self.entries@) =~= entry_views(old(self).entries@).push(
                    EntryData { record: records(old(self).previous@)[i as int], is_new: false },
                ));
                Ok(Seen::Unchanged)
            },
            None => Ok(Seen::New { size, hash }),
        }
    }

    /// Builds the record of a new file and makes it an entry. A file that fails
    /// leaves the run as it was.
    pub fn add(
        &mut self,
        file_title: &str,
        size: u64,
        hash: String,
        duration_secs: u64,
        tracks: &Vec<Track>,
        ratings: &Ratings,
        cfg: &Config,
    ) -> (r: Result<(), CatalogError>)
        ensures
            final(self).previous == old(self).previous,
            match record_of(
                file_title@,
                size,
                hash@,
                duration_secs,
                tracks@,
                ratings@,
                cfg.tags(),
            ) {
                Ok(record) => {
                    &&& r is Ok
                    &&& entry_views(final(self).entries@) == entry_views(old(self).entries@).push(
                        EntryData { record, is_new: true },
                    )
                },
                Err(e) => {
                    &&& r == Err::<(), _>(e)
                    &&& final(self).entries == old(self).entries
                },
            },
    {
        match build_record(file_title, size, hash, duration_secs, tracks, ratings, cfg) {
            Ok(record) => {
                let ghost data = record@;
                self.entries.push(Entry { record, is_new: true });
                assert(entry_views(self.entries@) =~= entry_views(old(self).entries@).push(
                    EntryData { record: data, is_new: true },
                ));
                Ok(())
            },
            Err(e) => Err(e),
        }
    }

    /// Takes the next file of a scan: looks at its attributes and, where its
    /// fingerprint is new, builds its record. A file that fails leaves the run as
    /// it was.
    pub fn take_file(&mut self, file: &MediaFile, ratings: &Ratings, cfg: &Config) -> (r: Result<
        (),
        CatalogError,
    >)
        ensures
            final(self).previous == old(self).previous,
            match entry_of(records(old(self).previous@), *file, ratings@, cfg.tags()) {
                Ok(entry) => {
                    &&& r is Ok
                    &&& entry_views(final(self).entries@) == entry_views(old(self).entries@).push(
                        entry,
                    )
                },
                Err(e) => {
                    &&& r == Err::<(), _>(e)
                    &&& final(self).entries == old(self).entries
                },
            },
    {
        reveal(entry_of);
        match self.see(&file.stamp) {
            Err(e) => Err(e),
            Ok(Seen::Unchanged) => Ok(()),
            Ok(Seen::New { size, hash }) => self.add(
                file.name.as_str(),
                size,
                hash,
                file.duration_secs,
                &file.tracks,
                ratings,
                cfg,
            ),
        }
    }

    /// The report on the run: the new catalog, the titles added and removed, and
    /// the number of files that kept their record.
    pub fn finish(self) -> (report: Report)
        ensures
            report@ == report_of(records(self.previous@), entry_views(self.entries@)),
    {
        let ghost entries = entry_views(self.entries@);
        let ghost previous = records(self.previous@);
        let mut catalog: Vec<Movie> = Vec::new();
        let mut added: Vec<String> = Vec::new();
        let mut unchanged: usize = 0;
        let mut i: usize = 0;
        assert(entries.take(0) =~= Seq::<EntryData>::empty());
        while i < self.entries.len()
            invariant
                i <= self.entries.len(),
                entries == entry_views(self.entries@),
                records(catalog@) == catalog_of(entries.take(i as int)),
                texts(added@) == added_titles(entries.take(i as int)),
                unchanged == unchanged_count(entries.take(i as int)),
                unchanged <= i,
            decreases self.entries.len() - i,
        {
            proof {
                assert(entries.take(i + 1).drop_last() =~= entries.take(i as int));
                assert(entries.take(i + 1).last() == self.entries@[i as int]@);
            }
            let entry = &self.entries[i];
            let ghost catalog_before = catalog@;
            let ghost added_before = added@;
            catalog.push(entry.record.clone());
            if entry.is_new {
                added.push(entry.record.title.clone());
                assert(texts(added@) =~= texts(added_before).push(entry.record.title@));
            } else {
                unchanged += 1;
            }
            proof {
                assert(records(catalog@) =~= records(catalog_before).push(entry.record@));
                assert(catalog_of(entries.take(i + 1)) =~= catalog_of(entries.take(i as int)).push(
                    entry.record@,
                ));
            }
            i += 1;
        }
        assert(entries.take(self.entries.len() as int) =~= entries);
        let mut removed: Vec<String> = Vec::new();
        let mut k: usize = 0;
        assert(previous.take(0) =~= Seq::<MovieData>::empty());
        while k < self.previous.len()
            invariant
                k <= self.previous.len(),
                previous == records(self.previous@),
                records(catalog@) == catalog_of(entries),
                texts(removed@) == removed_titles(previous.take(k as int), catalog_of(entries)),
            decreases self.previous.len() - k,
        {
            proof {
                assert(previous.take(k + 1).drop_last() =~= previous.take(k as int));
                assert(previous.take(k + 1).last() == self.previous@[k as int]@);
            }
            let old_record = &self.previous[k];
            let ghost removed_before = removed@;
            if !contains_hash(&catalog, old_record.hash.as_str()) {
                removed.push(old_record.title.clone());
                assert(texts(removed@) =~= texts(removed_before).push(old_record.title@));
            }
            k += 1;
        }
        assert(previous.take(self.previous.len() as int) =~= previous);
        Report { catalog, added, removed, unchanged }
    }
}

/// Reconciles the previous catalog with the files of a scan.
///
/// Every file gets one record in the new catalog, in the order of the scan:
/// the stored one where the previous catalog knows its fingerprint, else a new
/// one. The first file that fails ends the run with its error, and there is no
/// report then.
pub fn reconcile(previous: Vec<Movie>, files: &Vec<MediaFile>, ratings: &Ratings, cfg: &Config) -> (r:
    Result<Report, CatalogError>)
    ensures
        match r {
            Ok(report) => entries_of(records(previous@), files@, ratings@, cfg.tags()) matches Ok(
                entries,
            ) && report@ == report_of(records(previous@), entries),
            Err(e) => entries_of(records(previous@), files@, ratings@, cfg.tags()) == Err::<
                Seq<EntryData>,
                _,
            >(e),
        },
{
    let ghost before = records(previous@);
    let mut run = Reconciler::new(previous);
    let mut i: usize = 0;
    proof {
        assert(files@.take(0) =~= Seq::<MediaFile>::empty());
        assert(entry_views(run.entries@) =~= Seq::<EntryData>::empty());
    }
    while i < files.len()
        invariant
            i <= files.len(),
            before == records(previous@),
            records(run.previous@) == before,
            entries_of(before, files@.take(i as int), ratings@, cfg.tags()) == Ok::<
                _,
                CatalogError,
            >(entry_views(run.entries@)),
        decreases files.len() - i,
    {
        proof {
            assert(files@.take(i + 1).drop_last() =~= files@.take(i as int));
            assert(files@.take(i + 1).last() == files@[i as int]);
        }
        match run.take_file(&files[i], ratings, cfg) {
            Err(e) => {
                proof {
                    assert(entries_of(before, files@.take(i + 1), ratings@, cfg.tags()) == Err::<
                        Seq<EntryData>,
                        _,
                    >(e));
                    lemma_failure_stays(before, files@, ratings@, cfg.tags(), i + 1);
                }
                return Err(e);
            },
            Ok(()) => {},
        }
        i += 1;
    }
    assert(files@.take(files.len() as int) =~= files@);
    Ok(run.finish())
}

/// Once the first `upto` files fail, all the files fail, and with the same error.
pub proof fn lemma_failure_stays(
    previous: Seq<MovieData>,
    files: Seq<MediaFile>,
    ratings: Seq<(Seq<char>, Seq<char>)>,
    tags: Seq<Seq<char>>,
    upto: int,
)
    requires
        0 <= upto <= files.len(),
        entries_of(previous, files.take(upto), ratings, tags) is Err,
    ensures
        entries_of(previous, files, ratings, tags) == entries_of(
            previous,
            files.take(upto),
            ratings,
            tags,
        ),
    decreases files.len() - upto,
{
    if upto == files.len() {
        assert(files.take(upto) =~= files);
    } else {
        assert(files.take(upto + 1).drop_last() =~= files.take(upto));
        lemma_failure_stays(previous, files, ratings, tags, upto + 1);
    }
}

} // verus!
