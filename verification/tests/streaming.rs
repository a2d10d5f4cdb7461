use lyra::playlist::{
    master_playlist, segment_count, stream_variant_playlist, variant_playlist, PlaylistError,
};
use lyra::profiles::{
    context_for_position, get_stream_duration, AacAudioProfile, CopyVideoProfile, ProbedStream,
    StreamKind, StreamType,
};
use lyra::session::{
    note_request, on_segment_produced, plan_segment_request, segment_dir, segment_extension,
    segment_file_name, session_key, spawned_state, ConverterState, SegmentPlan, BUFFER_SIZE,
};
use lyra::tmdb::TokenBucket;

fn video_stream(index: u64, codec: &str) -> ProbedStream {
    ProbedStream {
        index,
        kind: StreamKind::Video,
        codec_name: codec.to_string(),
        duration_ms: None,
        tag_duration_ms: None,
    }
}

fn audio_stream(index: u64) -> ProbedStream {
    ProbedStream {
        index,
        kind: StreamKind::Audio,
        codec_name: "aac".to_string(),
        duration_ms: None,
        tag_duration_ms: None,
    }
}

#[test]
fn fresh_file_request_starts_a_session() {
    // segment 0 on a freshly opened file: no converter yet, one is spawned
    // positioned at the segment
    let plan = plan_segment_request(&None, false, 0);
    assert!(plan == SegmentPlan::Start);
    let s = spawned_state(0);
    assert_eq!(s.current_segment, 0);
    assert_eq!(s.wanted_segment, 0);
    assert!(!s.paused);
    let ctx = context_for_position("/media/in.mkv", "/cache/1/video/copy/0", 0, 0);
    assert_eq!(ctx.start_time_offset_secs, 0);
    assert_eq!(ctx.segment_idx, 0);
}

#[test]
fn near_requests_reuse_the_converter() {
    // two requests for segment 10 while the producer is at 7: both reuse,
    // no restart
    let state = ConverterState { current_segment: 7, wanted_segment: 7, paused: false };
    let p1 = plan_segment_request(&Some(state), false, 10);
    assert!(p1 == SegmentPlan::Reuse);
    let state = ConverterState { current_segment: 7, wanted_segment: 10, paused: false };
    let p2 = plan_segment_request(&Some(state), false, 10);
    assert!(p2 == SegmentPlan::Reuse);
}

#[test]
fn far_requests_replace_the_converter() {
    // a jump from 7 to 100: the converter is replaced, seeked to 500 s,
    // numbering from 100
    let state = ConverterState { current_segment: 7, wanted_segment: 7, paused: false };
    let plan = plan_segment_request(&Some(state), false, 100);
    assert!(plan == SegmentPlan::Restart);
    let ctx = context_for_position("/media/in.mkv", "/cache/1/video/copy/0", 0, 100);
    assert_eq!(ctx.start_time_offset_secs, 500);
    assert_eq!(ctx.segment_idx, 100);
    let profile = CopyVideoProfile;
    let args = profile.get_args(&ctx);
    let ss = args.iter().position(|a| a == "-ss").unwrap();
    assert_eq!(args[ss + 1], "500");
    let sn = args.iter().position(|a| a == "-start_number").unwrap();
    assert_eq!(args[sn + 1], "100");
}

#[test]
fn requests_behind_the_producer_also_restart() {
    let state = ConverterState { current_segment: 7, wanted_segment: 7, paused: false };
    let plan = plan_segment_request(&Some(state), false, 3);
    assert!(plan == SegmentPlan::Restart);
}

#[test]
fn segments_on_disk_are_served_directly() {
    let plan = plan_segment_request(&None, true, 5);
    assert!(plan == SegmentPlan::UseExisting);
}

#[test]
fn producer_pauses_when_far_ahead() {
    let mut s = ConverterState { current_segment: 0, wanted_segment: 3, paused: false };
    assert!(!on_segment_produced(&mut s, 3 + BUFFER_SIZE));
    assert!(!s.paused);
    assert!(on_segment_produced(&mut s, 3 + BUFFER_SIZE + 1));
    assert!(s.paused);
    assert_eq!(s.current_segment, 3 + BUFFER_SIZE + 1);
    // the next request lifts the pause
    let was_paused = note_request(&mut s, 9);
    assert!(was_paused);
    assert!(!s.paused);
    assert_eq!(s.wanted_segment, 9);
}

#[test]
fn segment_paths_are_stable() {
    assert_eq!(segment_file_name(3, segment_extension(false)), "seg-3.ts");
    assert_eq!(segment_file_name(12, segment_extension(true)), "seg-12.vtt");
    assert_eq!(
        segment_dir("/cache", 7, "video", "copy", 0),
        "/cache/7/video/copy/0"
    );
    assert_eq!(session_key(7, "video", "copy", 0), "7:video:copy:0");
}

#[test]
fn master_playlist_lists_one_rendition_per_profile() {
    let streams = vec![video_stream(0, "h264"), audio_stream(1)];
    let playlist = master_playlist(&streams);
    assert_eq!(
        playlist,
        "#EXTM3U\n#EXT-X-VERSION:7\n\n\
         #EXT-X-STREAM-INF:AUDIO=\"group_audio\"\nvideo/0/copy/index.m3u8\n\n\
         #EXT-X-MEDIA:TYPE=AUDIO,GROUP-ID=\"group_audio\",NAME=\"audio_1\",DEFAULT=YES,URI=\"audio/1/aac/index.m3u8\"\n\n"
    );
}

#[test]
fn only_the_first_audio_is_default() {
    let streams = vec![audio_stream(1), audio_stream(2)];
    let playlist = master_playlist(&streams);
    assert!(playlist.contains("NAME=\"audio_1\",DEFAULT=YES"));
    assert!(playlist.contains("NAME=\"audio_2\",DEFAULT=NO"));
}

#[test]
fn unsupported_video_codecs_are_skipped() {
    let streams = vec![video_stream(0, "mpeg2video")];
    let playlist = master_playlist(&streams);
    assert_eq!(playlist, "#EXTM3U\n#EXT-X-VERSION:7\n\n");
    let profile = CopyVideoProfile;
    assert!(!profile.enable_for(&video_stream(0, "mpeg2video")));
    assert!(profile.enable_for(&video_stream(0, "hevc")));
    let audio = AacAudioProfile;
    assert!(audio.enable_for(&audio_stream(1)));
}

#[test]
fn variant_playlist_cuts_twelve_seconds_into_three_segments() {
    let playlist = variant_playlist(12_000);
    assert_eq!(
        playlist,
        "#EXTM3U\n#EXT-X-VERSION:7\n#EXT-X-TARGETDURATION:5\n\
         #EXT-X-MEDIA-SEQUENCE:0\n#EXT-X-PLAYLIST-TYPE:VOD\n\n\
         #EXTINF:5.00\n0.ts\n\n#EXTINF:5.00\n1.ts\n\n#EXTINF:2.00\n2.ts\n\n\
         #EXT-X-ENDLIST\n"
    );
}

#[test]
fn last_listed_segment_is_the_last_deliverable_one() {
    assert_eq!(segment_count(12_000), 3);
    let playlist = variant_playlist(12_000);
    assert!(playlist.contains("\n2.ts\n"));
    assert!(!playlist.contains("\n3.ts\n"));
    assert_eq!(segment_count(10_000), 2);
    assert_eq!(segment_count(0), 0);
    assert_eq!(variant_playlist(0), "#EXTM3U\n#EXT-X-VERSION:7\n#EXT-X-TARGETDURATION:5\n#EXT-X-MEDIA-SEQUENCE:0\n#EXT-X-PLAYLIST-TYPE:VOD\n\n#EXT-X-ENDLIST\n");
}

#[test]
fn stream_duration_prefers_the_stream_then_container_then_tags() {
    let mut s = video_stream(0, "h264");
    s.duration_ms = Some(1000);
    s.tag_duration_ms = Some(2000);
    assert_eq!(get_stream_duration(&s, Some(3000)), Some(1000));
    s.duration_ms = None;
    assert_eq!(get_stream_duration(&s, Some(3000)), Some(3000));
    assert_eq!(get_stream_duration(&s, None), Some(2000));
    s.tag_duration_ms = None;
    assert_eq!(get_stream_duration(&s, None), None);
}

#[test]
fn playlist_requests_fail_without_a_duration() {
    let mut s = video_stream(0, "h264");
    assert!(matches!(
        stream_variant_playlist(&s, None),
        Err(PlaylistError::NoDuration)
    ));
    s.duration_ms = Some(12_000);
    let playlist = match stream_variant_playlist(&s, None) {
        Ok(p) => p,
        Err(_) => panic!("expected a playlist"),
    };
    assert_eq!(playlist, variant_playlist(12_000));
}

#[test]
fn stream_type_names_round_trip() {
    assert_eq!(StreamType::Video.as_str(), "video");
    assert_eq!(StreamType::Audio.as_str(), "audio");
    assert_eq!(StreamType::Subtitle.as_str(), "subtitle");
    assert!(matches!(StreamType::from_str("video"), Some(StreamType::Video)));
    assert!(matches!(StreamType::from_str("audio"), Some(StreamType::Audio)));
    assert!(matches!(StreamType::from_str("subtitle"), Some(StreamType::Subtitle)));
    assert!(StreamType::from_str("data").is_none());
}

#[test]
fn token_bucket_paces_requests() {
    let mut b = TokenBucket::new(0);
    let mut granted = 0;
    for _ in 0..25 {
        if b.try_acquire(0) {
            granted += 1;
        }
    }
    // the burst, and not one more
    assert_eq!(granted, 20);
    // one token per 200 ms
    assert!(!b.try_acquire(199));
    assert!(b.try_acquire(200));
    assert!(!b.try_acquire(399));
    assert!(b.try_acquire(400));
    assert!(!b.try_acquire(400));
}
