use movie_log::classify::{
    parse_aud_info, parse_first_sub, parse_tracks, parse_vid_info, Track, TrackKind, TrackSettings,
};
use movie_log::error::CatalogError;

fn video(codec: &str, width: u64) -> Track {
    Track {
        kind: TrackKind::Video,
        codec_id: String::from(codec),
        settings: TrackSettings::Video { pixel_width: width },
    }
}

fn audio(codec: &str, channels: u64) -> Track {
    Track {
        kind: TrackKind::Audio,
        codec_id: String::from(codec),
        settings: TrackSettings::Audio { channels },
    }
}

fn subtitle(codec: &str) -> Track {
    Track { kind: TrackKind::Subtitle, codec_id: String::from(codec), settings: TrackSettings::Absent }
}

#[test]
fn avc_at_1920_is_1080_x264_8bit() {
    let (res, codec, depth) = parse_vid_info(&video("V_MPEG4/ISO/AVC", 1920)).unwrap();
    assert_eq!(res, 1080);
    assert_eq!(codec, "x264");
    assert_eq!(depth, "8bit");
}

#[test]
fn hevc_above_1920_is_2160_x265_10bit() {
    let (res, codec, depth) = parse_vid_info(&video("V_MPEGH/ISO/HEVC", 1921)).unwrap();
    assert_eq!(res, 2160);
    assert_eq!(codec, "x265");
    assert_eq!(depth, "10bit");
    assert_eq!(parse_vid_info(&video("V_MPEGH/ISO/HEVC", 3840)).unwrap().0, 2160);
    assert_eq!(parse_vid_info(&video("V_MPEGH/ISO/HEVC", 0)).unwrap().0, 1080);
}

#[test]
fn unknown_video_codec_is_an_error() {
    assert_eq!(parse_vid_info(&video("V_VP9", 1920)), Err(CatalogError::UnknownVideoCodec));
    assert_eq!(parse_vid_info(&video("", 1920)), Err(CatalogError::UnknownVideoCodec));
    assert_eq!(parse_vid_info(&video("v_mpeg4/iso/avc", 1920)), Err(CatalogError::UnknownVideoCodec));
}

#[test]
fn missing_video_settings_come_before_the_codec() {
    let no_settings = Track {
        kind: TrackKind::Video,
        codec_id: String::from("V_VP9"),
        settings: TrackSettings::Absent,
    };
    assert_eq!(parse_vid_info(&no_settings), Err(CatalogError::UnresolvableResolution));
    assert_eq!(parse_vid_info(&audio("V_MPEG4/ISO/AVC", 2)), Err(CatalogError::UnresolvableResolution));
}

#[test]
fn every_audio_codec_has_its_label() {
    let table = [
        ("A_AAC", "AAC"),
        ("A_AC3", "AC3"),
        ("A_EAC3", "EAC3"),
        ("A_DTS", "DTS"),
        ("A_TRUEHD", "TrueHD Atmos"),
    ];
    for (id, label) in table {
        assert_eq!(parse_aud_info(&audio(id, 2)).unwrap().0, label);
    }
}

#[test]
fn unknown_audio_codec_is_marked_not_refused() {
    assert_eq!(parse_aud_info(&audio("A_OPUS", 2)).unwrap().0, "XXX");
    assert_eq!(parse_aud_info(&audio("", 6)).unwrap(), (String::from("XXX"), String::from("5.1")));
}

#[test]
fn every_channel_count_has_its_layout() {
    let table = [(8, "7.1"), (7, "6.1"), (6, "5.1"), (4, "4.0"), (2, "2.0"), (0, "1.0")];
    for (count, layout) in table {
        assert_eq!(parse_aud_info(&audio("A_AAC", count)).unwrap().1, layout);
    }
}

#[test]
fn other_channel_counts_are_an_error() {
    for count in [1u64, 3, 5, 9, 16, u64::MAX] {
        assert_eq!(parse_aud_info(&audio("A_AAC", count)), Err(CatalogError::UnknownChannelLayout));
    }
    assert_eq!(parse_aud_info(&video("A_AAC", 2)), Err(CatalogError::UnknownChannelLayout));
    assert_eq!(parse_aud_info(&subtitle("A_AAC")), Err(CatalogError::UnknownChannelLayout));
}

#[test]
fn every_subtitle_codec_has_its_label() {
    let table = [
        ("S_VOBSUB", "VOB"),
        ("S_TEXT/UTF8", "SRT"),
        ("S_HDMV/PGS", "PGS"),
        ("S_TEXT/ASS", "SSA"),
    ];
    for (id, label) in table {
        let tracks = vec![video("V_MPEG4/ISO/AVC", 1920), audio("A_AAC", 2), subtitle(id)];
        assert_eq!(parse_first_sub(&tracks), Some(String::from(label)));
    }
}

#[test]
fn only_the_first_subtitle_track_counts() {
    let tracks = vec![
        video("V_MPEG4/ISO/AVC", 1920),
        subtitle("S_HDMV/PGS"),
        subtitle("S_TEXT/UTF8"),
    ];
    assert_eq!(parse_first_sub(&tracks), Some(String::from("PGS")));
    let unknown_first = vec![subtitle("S_DVBSUB"), subtitle("S_TEXT/UTF8")];
    assert_eq!(parse_first_sub(&unknown_first), None);
}

#[test]
fn no_subtitle_track_is_no_error() {
    assert_eq!(parse_first_sub(&vec![]), None);
    assert_eq!(parse_first_sub(&vec![video("V_MPEG4/ISO/AVC", 1920), audio("A_AAC", 2)]), None);
    // a track that only carries a subtitle codec id is no subtitle track
    assert_eq!(parse_first_sub(&vec![audio("S_TEXT/UTF8", 2)]), None);
}

#[test]
fn tracks_are_read_by_position() {
    let tracks = vec![
        video("V_MPEGH/ISO/HEVC", 3840),
        audio("A_TRUEHD", 8),
        audio("A_AC3", 6),
        subtitle("S_TEXT/ASS"),
    ];
    let (res, v_codec, bit_depth, a_codec, channels, subs) = parse_tracks(&tracks).unwrap();
    assert_eq!(res, 2160);
    assert_eq!(v_codec, "x265");
    assert_eq!(bit_depth, "10bit");
    assert_eq!(a_codec, "TrueHD Atmos");
    assert_eq!(channels, "7.1");
    assert_eq!(subs, Some(String::from("SSA")));
}

#[test]
fn a_container_without_video_or_audio_fails() {
    assert_eq!(parse_tracks(&vec![]), Err(CatalogError::UnresolvableResolution));
    assert_eq!(
        parse_tracks(&vec![video("V_MPEG4/ISO/AVC", 1280)]),
        Err(CatalogError::UnknownChannelLayout)
    );
    // audio first: track 0 is read as video
    assert_eq!(
        parse_tracks(&vec![audio("A_AAC", 2), video("V_MPEG4/ISO/AVC", 1280)]),
        Err(CatalogError::UnresolvableResolution)
    );
    assert_eq!(
        parse_tracks(&vec![video("V_AV1", 1280), audio("A_AAC", 3)]),
        Err(CatalogError::UnknownVideoCodec)
    );
    assert_eq!(
        parse_tracks(&vec![video("V_MPEG4/ISO/AVC", 1280), audio("A_AAC", 3)]),
        Err(CatalogError::UnknownChannelLayout)
    );
}

#[test]
fn each_error_has_its_message() {
    assert_eq!(CatalogError::MetadataUnavailable.message(), "Unable to retrieve metadata.");
    assert_eq!(CatalogError::UnresolvableResolution.message(), "Could not find resolution!");
    assert_eq!(CatalogError::UnknownVideoCodec.message(), "Could not find video codec!");
    assert_eq!(CatalogError::UnknownChannelLayout.message(), "Failed to find channel info.");
    assert_eq!(
        CatalogError::MalformedName.message(),
        "Could not read title and year from file name."
    );
}
