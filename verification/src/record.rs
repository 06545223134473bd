//! Building the record of a file that the catalog has not seen before.

use vstd::prelude::*;
use crate::catalog::{Movie, MovieData};
use crate::classify::{media_info, parse_tracks, Track};
use crate::config::Config;
use crate::error::CatalogError;
use crate::name::{
    duration_text, first_tag, get_dur, get_encoder, get_title_year, is_remux, names_remux,
    title_year,
};
use crate::rating::{get_rating, rating_for, Ratings};

verus! {

/// The release group that a name carries, as a text.
pub open spec fn encoder_of(name: Seq<char>, tags: Seq<Seq<char>>) -> Option<Seq<char>> {
    match first_tag(name, tags) {
        Some(i) => Some(tags[i]),
        None => None,
    }
}

/// The record of a new file. A name without title and year is reported before
/// anything that the tracks lack.
#[verifier::opaque]
pub open spec fn record_of(
    name: Seq<char>,
    size: u64,
    hash: Seq<char>,
    duration_secs: u64,
    tracks: Seq<Track>,
    ratings: Seq<(Seq<char>, Seq<char>)>,
    tags: Seq<Seq<char>>,
) -> Result<MovieData, CatalogError> {
    match title_year(name) {
        None => Err(CatalogError::MalformedName),
        Some(named) => match media_info(tracks) {
            Err(e) => Err(e),
            Ok(info) => Ok(
                MovieData {
                    title: named.0,
                    year: named.1,
                    rating: rating_for(named.0, ratings),
                    size,
                    duration: duration_text(duration_secs as nat),
                    res: info.res,
                    bit_depth: info.bit_depth,
                    v_codec: info.v_codec,
                    a_codec: info.a_codec,
                    subs: info.subs,
                    channels: info.channels,
                    encoder: encoder_of(name, tags),
                    remux: names_remux(name),
                    hash,
                },
            ),
        },
    }
}

/// Builds the record of a new file from its name, its scaled size and
/// fingerprint, its running time in seconds and its tracks.
pub fn build_record(
    file_title: &str,
    size: u64,
    hash: String,
    duration_secs: u64,
    tracks: &Vec<Track>,
    ratings: &Ratings,
    cfg: &Config,
) -> (r: Result<Movie, CatalogError>)
    ensures
        match r {
            Ok(movie) => record_of(
                file_title@,
                size,
                hash@,
                duration_secs,
                tracks@,
                ratings@,
                cfg.tags(),
            ) == Ok::<_, CatalogError>(movie@),
            Err(e) => record_of(
                file_title@,
                size,
                hash@,
                duration_secs,
                tracks@,
                ratings@,
                cfg.tags(),
            ) == Err::<MovieData, _>(e),
        },
{
    reveal(record_of);
    let (title, year) = match get_title_year(file_title) {
        Ok(named) => named,
        Err(e) => {
            return Err(e);
        },
    };
    let encoder = get_encoder(file_title, cfg);
    let remux = is_remux(file_title);
    let duration = get_dur(duration_secs);
    let rating = get_rating(title.as_str(), ratings);
    let (res, v_codec, bit_depth, a_codec, channels, subs) = match parse_tracks(tracks) {
        Ok(info) => info,
        Err(e) => {
            return Err(e);
        },
    };
    Ok(
        Movie {
            title,
            year,
            rating,
            size,
            duration,
            res,
            bit_depth,
            v_codec,
            a_codec,
            subs,
            channels,
            encoder,
            remux,
            hash,
        },
    )
}

} // verus!
