//! From the decoded tracks of a container to the attributes the catalog keeps:
//! resolution tier, codecs, bit depth, channel layout and subtitle format.

use vstd::prelude::*;
use crate::error::CatalogError;
use crate::text::same_text;

verus! {

/// What a track carries.
#[derive(Clone, Copy, Debug, PartialEq, Eq, Structural)]
pub enum TrackKind {
    Video,
    Audio,
    Subtitle,
    /// Anything else: logo, buttons, control, complex, unknown.
    Other,
}

/// The settings that come with a track, by its type.
#[derive(Clone, Copy, Debug, PartialEq, Eq, Structural)]
pub enum TrackSettings {
    /// A track that is neither video nor audio has none.
    Absent,
    Video { pixel_width: u64 },
    Audio { channels: u64 },
}

/// One decoded track of a container.
#[derive(Debug)]
pub struct Track {
    pub kind: TrackKind,
    pub codec_id: String,
    pub settings: TrackSettings,
}

/// The resolution tier of a video track: 2160 above 1920 pixels of width, else 1080.
pub open spec fn resolution_tier(settings: TrackSettings) -> Option<i16> {
    match settings {
        TrackSettings::Video { pixel_width } => Some(
            if pixel_width > 1920 {
                2160i16
            } else {
                1080i16
            },
        ),
        _ => None,
    }
}

/// Codec label and bit depth label of a video codec id.
pub open spec fn video_codec(id: Seq<char>) -> Option<(Seq<char>, Seq<char>)> {
    if id == "V_MPEGH/ISO/HEVC"@ {
        Some(("x265"@, "10bit"@))
    } else if id == "V_MPEG4/ISO/AVC"@ {
        Some(("x264"@, "8bit"@))
    } else {
        None
    }
}

/// The label of an audio codec id; "XXX" marks one that is not recognised.
pub open spec fn audio_codec(id: Seq<char>) -> Seq<char> {
    if id == "A_AAC"@ {
        "AAC"@
    } else if id == "A_AC3"@ {
        "AC3"@
    } else if id == "A_EAC3"@ {
        "EAC3"@
    } else if id == "A_DTS"@ {
        "DTS"@
    } else if id == "A_TRUEHD"@ {
        "TrueHD Atmos"@
    } else {
        "XXX"@
    }
}

/// The layout label of a channel count.
pub open spec fn channel_layout(channels: u64) -> Option<Seq<char>> {
    if channels == 8 {
        Some("7.1"@)
    } else if channels == 7 {
        Some("6.1"@)
    } else if channels == 6 {
        Some("5.1"@)
    } else if channels == 4 {
        Some("4.0"@)
    } else if channels == 2 {
        Some("2.0"@)
    } else if channels == 0 {
        Some("1.0"@)
    } else {
        None
    }
}

/// The label of a subtitle codec id.
pub open spec fn subtitle_format(id: Seq<char>) -> Option<Seq<char>> {
    if id == "S_VOBSUB"@ {
        Some("VOB"@)
    } else if id == "S_TEXT/UTF8"@ {
        Some("SRT"@)
    } else if id == "S_HDMV/PGS"@ {
        Some("PGS"@)
    } else if id == "S_TEXT/ASS"@ {
        Some("SSA"@)
    } else {
        None
    }
}

/// What the video track yields: tier, codec label, bit depth label.
/// Missing video settings are reported before an unknown codec.
pub open spec fn video_info(track: Track) -> Result<(i16, Seq<char>, Seq<char>), CatalogError> {
    match resolution_tier(track.settings) {
        None => Err(CatalogError::UnresolvableResolution),
        Some(res) => match video_codec(track.codec_id@) {
            None => Err(CatalogError::UnknownVideoCodec),
            Some(labels) => Ok((res, labels.0, labels.1)),
        },
    }
}

/// What the audio track yields: codec label and channel layout label.
pub open spec fn audio_info(track: Track) -> Result<(Seq<char>, Seq<char>), CatalogError> {
    match track.settings {
        TrackSettings::Audio { channels } => match channel_layout(channels) {
            Some(layout) => Ok((audio_codec(track.codec_id@), layout)),
            None => Err(CatalogError::UnknownChannelLayout),
        },
        _ => Err(CatalogError::UnknownChannelLayout),
    }
}

/// The position of the first subtitle track, or the number of tracks if there is none.
pub open spec fn first_subtitle(tracks: Seq<Track>) -> int
    decreases tracks.len(),
{
    if tracks.len() == 0 {
        0
    } else if tracks[0].kind == TrackKind::Subtitle {
        0
    } else {
        1 + first_subtitle(tracks.drop_first())
    }
}

/// The format label of the first subtitle track. Later subtitle tracks are not
/// looked at, also where the first one is not recognised.
pub open spec fn subtitle_info(tracks: Seq<Track>) -> Option<Seq<char>> {
    let at = first_subtitle(tracks);
    if at < tracks.len() {
        subtitle_format(tracks[at].codec_id@)
    } else {
        None
    }
}

/// The attributes of a container, as its tracks give them.
pub struct MediaInfo {
    pub res: i16,
    pub v_codec: Seq<char>,
    pub bit_depth: Seq<char>,
    pub a_codec: Seq<char>,
    pub channels: Seq<char>,
    pub subs: Option<Seq<char>>,
}

/// Track 0 is read as the video track and track 1 as the audio track. A container
/// without one of them fails as one whose track lacks its settings.
pub open spec fn media_info(tracks: Seq<Track>) -> Result<MediaInfo, CatalogError> {
    if tracks.len() < 1 {
        Err(CatalogError::UnresolvableResolution)
    } else {
        match video_info(tracks[0]) {
            Err(e) => Err(e),
            Ok(video) => if tracks.len() < 2 {
                Err(CatalogError::UnknownChannelLayout)
            } else {
                match audio_info(tracks[1]) {
                    Err(e) => Err(e),
                    Ok(audio) => Ok(
                        MediaInfo {
                            res: video.0,
                            v_codec: video.1,
                            bit_depth: video.2,
                            a_codec: audio.0,
                            channels: audio.1,
                            subs: subtitle_info(tracks),
                        },
                    ),
                }
            },
        }
    }
}

/// Resolution tier, codec label and bit depth label of the video track.
pub fn parse_vid_info(vid_meta: &Track) -> (r: Result<(i16, String, String), CatalogError>)
    ensures
        match r {
            Ok(v) => video_info(*vid_meta) == Ok::<_, CatalogError>((v.0, v.1@, v.2@)),
            Err(e) => video_info(*vid_meta) == Err::<(i16, Seq<char>, Seq<char>), _>(e),
        },
{
    let res: i16 = match vid_meta.settings {
        TrackSettings::Video { pixel_width } => if pixel_width > 1920 {
            2160
        } else {
            1080
        },
        _ => {
            return Err(CatalogError::UnresolvableResolution);
        },
    };
    let id = vid_meta.codec_id.as_str();
    if same_text(id, "V_MPEGH/ISO/HEVC") {
        Ok((res, "x265".to_owned(), "10bit".to_owned()))
    } else if same_text(id, "V_MPEG4/ISO/AVC") {
        Ok((res, "x264".to_owned(), "8bit".to_owned()))
    } else {
        Err(CatalogError::UnknownVideoCodec)
    }
}

/// Codec label and channel layout label of the audio track.
pub fn parse_aud_info(aud_meta: &Track) -> (r: Result<(String, String), CatalogError>)
    ensures
        match r {
            Ok(a) => audio_info(*aud_meta) == Ok::<_, CatalogError>((a.0@, a.1@)),
            Err(e) => audio_info(*aud_meta) == Err::<(Seq<char>, Seq<char>), _>(e),
        },
{
    let id = aud_meta.codec_id.as_str();
    let a_codec = if same_text(id, "A_AAC") {
        "AAC"
    } else if same_text(id, "A_AC3") {
        "AC3"
    } else if same_text(id, "A_EAC3") {
        "EAC3"
    } else if same_text(id, "A_DTS") {
        "DTS"
    } else if same_text(id, "A_TRUEHD") {
        "TrueHD Atmos"
    } else {
        "XXX"
    };
    let channels = match aud_meta.settings {
        TrackSettings::Audio { channels } => if channels == 8 {
            "7.1"
        } else if channels == 7 {
            "6.1"
        } else if channels == 6 {
            "5.1"
        } else if channels == 4 {
            "4.0"
        } else if channels == 2 {
            "2.0"
        } else if channels == 0 {
            "1.0"
        } else {
            return Err(CatalogError::UnknownChannelLayout);
        },
        _ => {
            return Err(CatalogError::UnknownChannelLayout);
        },
    };
    Ok((a_codec.to_owned(), channels.to_owned()))
}

/// The format label of the first subtitle track, if it is a recognised one.
pub fn parse_first_sub(tracks: &Vec<Track>) -> (subs: Option<String>)
    ensures
        match subs {
            Some(label) => subtitle_info(tracks@) == Some(label@),
            None => subtitle_info(tracks@) is None,
        },
{
    let mut i: usize = 0;
    assert(tracks@.skip(0) =~= tracks@);
    while i < tracks.len()
        invariant
            i <= tracks.len(),
            first_subtitle(tracks@) == i + first_subtitle(tracks@.skip(i as int)),
        decreases tracks.len() - i,
    {
        if tracks[i].kind == TrackKind::Subtitle {
            assert(tracks@.skip(i as int)[0] == tracks@[i as int]);
            let id = tracks[i].codec_id.as_str();
            return if same_text(id, "S_VOBSUB") {
                Some("VOB".to_owned())
            } else if same_text(id, "S_TEXT/UTF8") {
                Some("SRT".to_owned())
            } else if same_text(id, "S_HDMV/PGS") {
                Some("PGS".to_owned())
            } else if same_text(id, "S_TEXT/ASS") {
                Some("SSA".to_owned())
            } else {
                None
            };
        }
        proof {
            let rest = tracks@.skip(i as int);
            assert(rest[0] == tracks@[i as int]);
            assert(rest.drop_first() =~= tracks@.skip(i + 1));
        }
        i += 1;
    }
    assert(tracks@.skip(i as int).len() == 0);
    None
}

/// The attributes of a container: resolution tier, video codec, bit depth, audio
/// codec, channel layout and subtitle format, in this order.
pub fn parse_tracks(tracks: &Vec<Track>) -> (r: Result<
    (i16, String, String, String, String, Option<String>),
    CatalogError,
>)
    ensures
        match r {
            Ok(t) => media_info(tracks@) == Ok::<_, CatalogError>(
                MediaInfo {
                    res: t.0,
                    v_codec: t.1@,
                    bit_depth: t.2@,
                    a_codec: t.3@,
                    channels: t.4@,
                    subs: match t.5 {
                        Some(label) => Some(label@),
                        None => None,
                    },
                },
            ),
            Err(e) => media_info(tracks@) == Err::<MediaInfo, _>(e),
        },
{
    if tracks.len() < 1 {
        return Err(CatalogError::UnresolvableResolution);
    }
    let (res, v_codec, bit_depth) = match parse_vid_info(&tracks[0]) {
        Ok(v) => v,
        Err(e) => {
            return Err(e);
        },
    };
    if tracks.len() < 2 {
        return Err(CatalogError::UnknownChannelLayout);
    }
    let (a_codec, channels) = match parse_aud_info(&tracks[1]) {
        Ok(a) => a,
        Err(e) => {
            return Err(e);
        },
    };
    let subs = parse_first_sub(tracks);
    Ok((res, v_codec, bit_depth, a_codec, channels, subs))
}

} // verus!
