//! Transcoding profiles: which streams they apply to, and the exact
//! argument list each hands the converter.
//!
//! A profile is a small policy: a stream kind, a name, an applicability
//! test, and the converter arguments for one position. Probed streams
//! arrive as plain values; durations are carried in milliseconds.

use crate::text::{dec_of, str_eq, u64_to_dec};
use vstd::prelude::*;

verus! {

/// The kind of stream a profile serves.
pub enum StreamType {
    Video,
    Audio,
    Subtitle,
}

impl StreamType {
    /// The path component this kind appears as in stream URLs.
    pub fn as_str(&self) -> (r: &'static str)
        ensures
            r@ == match *self {
                StreamType::Video => "video"@,
                StreamType::Audio => "audio"@,
                StreamType::Subtitle => "subtitle"@,
            },
    {
        match self {
            StreamType::Video => "video",
            StreamType::Audio => "audio",
            StreamType::Subtitle => "subtitle",
        }
    }

    /// The kind a stream URL's path component names, if any.
    pub fn from_str(s: &str) -> (r: Option<StreamType>)
        ensures
            r == if s@ == "video"@ {
                Some(StreamType::Video)
            } else if s@ == "audio"@ {
                Some(StreamType::Audio)
            } else if s@ == "subtitle"@ {
                Some(StreamType::Subtitle)
            } else {
                None::<StreamType>
            },
    {
        if str_eq(s, "video") {
            Some(StreamType::Video)
        } else if str_eq(s, "audio") {
            Some(StreamType::Audio)
        } else if str_eq(s, "subtitle") {
            Some(StreamType::Subtitle)
        } else {
            None
        }
    }
}

/// The kind of an elementary stream a probe reported.
pub enum StreamKind {
    Video,
    Audio,
    Subtitle,
    Other,
}

/// One stream of a probed source file, as plain values: its index, kind
/// and codec, and the durations the probe reported for it.
pub struct ProbedStream {
    pub index: u64,
    pub kind: StreamKind,
    pub codec_name: String,
    /// The stream's own duration, if the container stores one.
    pub duration_ms: Option<u64>,
    /// A duration tag inside the stream, if present.
    pub tag_duration_ms: Option<u64>,
}

/// A probed source file: its streams and the container's duration.
pub struct ProbeData {
    pub streams: Vec<ProbedStream>,
    pub container_duration_ms: Option<u64>,
}

/// The duration used for a stream's playlist: the stream's own duration,
/// else the container's, else a duration tag inside the stream.
pub open spec fn stream_duration_spec(s: ProbedStream, container_ms: Option<u64>) -> Option<u64> {
    if s.duration_ms is Some {
        s.duration_ms
    } else if container_ms is Some {
        container_ms
    } else {
        s.tag_duration_ms
    }
}

/// Picks the duration for one stream, in milliseconds; `None` means no
/// source knows one, and the playlist request fails.
pub fn get_stream_duration(s: &ProbedStream, container_ms: Option<u64>) -> (r: Option<u64>)
    ensures
        r == stream_duration_spec(*s, container_ms),
{
    match s.duration_ms {
        Some(d) => Some(d),
        None => match container_ms {
            Some(d) => Some(d),
            None => s.tag_duration_ms,
        },
    }
}

/// What a profile needs to know to position the converter: the source, the
/// output directory, the first segment to produce, and the time to seek to.
pub struct ProfileContext {
    pub input_path: String,
    pub outdir: String,
    pub stream_idx: u64,
    pub segment_idx: u64,
    pub segment_duration_secs: u64,
    pub start_time_offset_secs: u64,
}

/// The characters of every argument in `v`, in order.
pub open spec fn args_view(v: Vec<String>) -> Seq<Seq<char>> {
    v@.map(|i: int, s: String| s@)
}

/// The stream selector `0:<idx>`.
pub open spec fn map_arg(idx: u64) -> Seq<char> {
    "0:"@ + dec_of(idx as nat)
}

fn build_map_arg(idx: u64) -> (r: String)
    ensures
        r@ == map_arg(idx),
{
    String::from_str("0:").concat(u64_to_dec(idx).as_str())
}

/// The segment file template `<outdir>/seg-%d.<ext>`.
pub open spec fn seg_template(outdir: Seq<char>, ext: Seq<char>) -> Seq<char> {
    outdir + "/seg-%d."@ + ext
}

fn build_seg_template(outdir: &str, ext: &str) -> (r: String)
    ensures
        r@ == seg_template(outdir@, ext@),
{
    let r = String::from_str(outdir);
    let r = r.concat("/seg-%d.");
    r.concat(ext)
}

/// The converter playlist path `<outdir>/playlist.m3u8`; the converter
/// wants one, the sessions never read it.
pub open spec fn playlist_path(outdir: Seq<char>) -> Seq<char> {
    outdir + "/playlist.m3u8"@
}

fn build_playlist_path(outdir: &str) -> (r: String)
    ensures
        r@ == playlist_path(outdir@),
{
    String::from_str(outdir).concat("/playlist.m3u8")
}

/// Passes an elementary video stream through untouched, split on time
/// boundaries into numbered transport-stream segments.
pub struct CopyVideoProfile;

/// The arguments the copy profile hands the converter: seek to the
/// offset, keep the stream's bytes, segment by time with atomic renames,
/// and number segments from the requested index.
pub open spec fn copy_video_args(c: ProfileContext) -> Seq<Seq<char>> {
    seq![
        "-y"@,
        "-ss"@,
        dec_of(c.start_time_offset_secs as nat),
        "-i"@,
        c.input_path@,
        "-copyts"@,
        "-map"@,
        map_arg(c.stream_idx),
        "-c:0"@,
        "copy"@,
        "-start_at_zero"@,
        "-avoid_negative_ts"@,
        "disabled"@,
        "-f"@,
        "hls"@,
        "-start_number"@,
        dec_of(c.segment_idx as nat),
        "-hls_flags"@,
        "split_by_time+temp_file"@,
        "-hls_time"@,
        dec_of(c.segment_duration_secs as nat),
        "-hls_segment_filename"@,
        seg_template(c.outdir@, "ts"@),
        playlist_path(c.outdir@),
    ]
}

impl CopyVideoProfile {
    pub fn stream_type(&self) -> (r: StreamType)
        ensures
            r is Video,
    {
        StreamType::Video
    }

    pub fn name(&self) -> (r: &'static str)
        ensures
            r@ == "copy"@,
    {
        "copy"
    }

    /// Applies to video streams whose codec players take as-is.
    pub fn enable_for(&self, s: &ProbedStream) -> (r: bool)
        ensures
            r == (s.kind is Video && (s.codec_name@ == "h264"@ || s.codec_name@ == "hevc"@)),
    {
        match s.kind {
            StreamKind::Video => str_eq(s.codec_name.as_str(), "h264") || str_eq(
                s.codec_name.as_str(),
                "hevc",
            ),
            _ => false,
        }
    }

    pub fn get_args(&self, c: &ProfileContext) -> (r: Vec<String>)
        ensures
            args_view(r) == copy_video_args(*c),
    {
        let mut v: Vec<String> = Vec::new();
        v.push(String::from_str("-y"));
        v.push(String::from_str("-ss"));
        v.push(u64_to_dec(c.start_time_offset_secs));
        v.push(String::from_str("-i"));
        v.push(c.input_path.clone());
        v.push(String::from_str("-copyts"));
        v.push(String::from_str("-map"));
        v.push(build_map_arg(c.stream_idx));
        v.push(String::from_str("-c:0"));
        v.push(String::from_str("copy"));
        v.push(String::from_str("-start_at_zero"));
        v.push(String::from_str("-avoid_negative_ts"));
        v.push(String::from_str("disabled"));
        v.push(String::from_str("-f"));
        v.push(String::from_str("hls"));
        v.push(String::from_str("-start_number"));
        v.push(u64_to_dec(c.segment_idx));
        v.push(String::from_str("-hls_flags"));
        v.push(String::from_str("split_by_time+temp_file"));
        v.push(String::from_str("-hls_time"));
        v.push(u64_to_dec(c.segment_duration_secs));
        v.push(String::from_str("-hls_segment_filename"));
        v.push(build_seg_template(c.outdir.as_str(), "ts"));
        v.push(build_playlist_path(c.outdir.as_str()));
        proof {
            assert(args_view(v) =~= copy_video_args(*c));
        }
        v
    }
}

/// Re-encodes any video stream to H.264, segmented the same way.
pub struct H264VideoProfile;

/// The arguments of the H.264 transcode: like the copy profile, but
/// through `libx264` with key frames forced onto segment boundaries.
pub open spec fn h264_video_args(c: ProfileContext) -> Seq<Seq<char>> {
    seq![
        "-y"@,
        "-ss"@,
        dec_of(c.start_time_offset_secs as nat),
        "-i"@,
        c.input_path@,
        "-copyts"@,
        "-map"@,
        map_arg(c.stream_idx),
        "-c:0"@,
        "libx264"@,
        "-preset"@,
        "veryfast"@,
        "-start_at_zero"@,
        "-avoid_negative_ts"@,
        "make_non_negative"@,
        "-f"@,
        "hls"@,
        "-start_number"@,
        dec_of(c.segment_idx as nat),
        "-hls_flags"@,
        "temp_file"@,
        "-hls_time"@,
        dec_of(c.segment_duration_secs as nat),
        "-hls_segment_filename"@,
        seg_template(c.outdir@, "ts"@),
        "-force_key_frames"@,
        "expr:gte(t,n_forced*"@ + dec_of(c.segment_duration_secs as nat) + ")"@,
        playlist_path(c.outdir@),
    ]
}

impl H264VideoProfile {
    pub fn stream_type(&self) -> (r: StreamType)
        ensures
            r is Video,
    {
        StreamType::Video
    }

    pub fn name(&self) -> (r: &'static str)
        ensures
            r@ == "h264"@,
    {
        "h264"
    }

    /// Applies to every video stream.
    pub fn enable_for(&self, s: &ProbedStream) -> (r: bool)
        ensures
            r == (s.kind is Video),
    {
        match s.kind {
            StreamKind::Video => true,
            _ => false,
        }
    }

    pub fn get_args(&self, c: &ProfileContext) -> (r: Vec<String>)
        ensures
            args_view(r) == h264_video_args(*c),
    {
        let mut v: Vec<String> = Vec::new();
        v.push(String::from_str("-y"));
        v.push(String::from_str("-ss"));
        v.push(u64_to_dec(c.start_time_offset_secs));
        v.push(String::from_str("-i"));
        v.push(c.input_path.clone());
        v.push(String::from_str("-copyts"));
        v.push(String::from_str("-map"));
        v.push(build_map_arg(c.stream_idx));
        v.push(String::from_str("-c:0"));
        v.push(String::from_str("libx264"));
        v.push(String::from_str("-preset"));
        v.push(String::from_str("veryfast"));
        v.push(String::from_str("-start_at_zero"));
        v.push(String::from_str("-avoid_negative_ts"));
        v.push(String::from_str("make_non_negative"));
        v.push(String::from_str("-f"));
        v.push(String::from_str("hls"));
        v.push(String::from_str("-start_number"));
        v.push(u64_to_dec(c.segment_idx));
        v.push(String::from_str("-hls_flags"));
        v.push(String::from_str("temp_file"));
        v.push(String::from_str("-hls_time"));
        v.push(u64_to_dec(c.segment_duration_secs));
        v.push(String::from_str("-hls_segment_filename"));
        v.push(build_seg_template(c.outdir.as_str(), "ts"));
        v.push(String::from_str("-force_key_frames"));
        let kf = String::from_str("expr:gte(t,n_forced*").concat(
            u64_to_dec(c.segment_duration_secs).as_str(),
        );
        v.push(kf.concat(")"));
        v.push(build_playlist_path(c.outdir.as_str()));
        proof {
            assert(args_view(v) =~= h264_video_args(*c));
        }
        v
    }
}

/// Re-encodes any audio stream to stereo AAC at 128 kbit/s, segmented the
/// same way.
pub struct AacAudioProfile;

/// The arguments of the AAC transcode.
pub open spec fn aac_audio_args(c: ProfileContext) -> Seq<Seq<char>> {
    seq![
        "-y"@,
        "-ss"@,
        dec_of(c.start_time_offset_secs as nat),
        "-i"@,
        c.input_path@,
        "-copyts"@,
        "-map"@,
        map_arg(c.stream_idx),
        "-c:0"@,
        "aac"@,
        "-ac"@,
        "2"@,
        "-ab"@,
        "128k"@,
        "-start_at_zero"@,
        "-avoid_negative_ts"@,
        "make_non_negative"@,
        "-f"@,
        "hls"@,
        "-start_number"@,
        dec_of(c.segment_idx as nat),
        "-hls_flags"@,
        "temp_file"@,
        "-hls_time"@,
        dec_of(c.segment_duration_secs as nat),
        "-hls_segment_filename"@,
        seg_template(c.outdir@, "ts"@),
        playlist_path(c.outdir@),
    ]
}

impl AacAudioProfile {
    pub fn stream_type(&self) -> (r: StreamType)
        ensures
            r is Audio,
    {
        StreamType::Audio
    }

    pub fn name(&self) -> (r: &'static str)
        ensures
            r@ == "aac"@,
    {
        "aac"
    }

    /// Applies to every audio stream.
    pub fn enable_for(&self, s: &ProbedStream) -> (r: bool)
        ensures
            r == (s.kind is Audio),
    {
        match s.kind {
            StreamKind::Audio => true,
            _ => false,
        }
    }

    pub fn get_args(&self, c: &ProfileContext) -> (r: Vec<String>)
        ensures
            args_view(r) == aac_audio_args(*c),
    {
        let mut v: Vec<String> = Vec::new();
        v.push(String::from_str("-y"));
        v.push(String::from_str("-ss"));
        v.push(u64_to_dec(c.start_time_offset_secs));
        v.push(String::from_str("-i"));
        v.push(c.input_path.clone());
        v.push(String::from_str("-copyts"));
        v.push(String::from_str("-map"));
        v.push(build_map_arg(c.stream_idx));
        v.push(String::from_str("-c:0"));
        v.push(String::from_str("aac"));
        v.push(String::from_str("-ac"));
        v.push(String::from_str("2"));
        v.push(String::from_str("-ab"));
        v.push(String::from_str("128k"));
        v.push(String::from_str("-start_at_zero"));
        v.push(String::from_str("-avoid_negative_ts"));
        v.push(String::from_str("make_non_negative"));
        v.push(String::from_str("-f"));
        v.push(String::from_str("hls"));
        v.push(String::from_str("-start_number"));
        v.push(u64_to_dec(c.segment_idx));
        v.push(String::from_str("-hls_flags"));
        v.push(String::from_str("temp_file"));
        v.push(String::from_str("-hls_time"));
        v.push(u64_to_dec(c.segment_duration_secs));
        v.push(String::from_str("-hls_segment_filename"));
        v.push(build_seg_template(c.outdir.as_str(), "ts"));
        v.push(build_playlist_path(c.outdir.as_str()));
        proof {
            assert(args_view(v) =~= aac_audio_args(*c));
        }
        v
    }
}

/// Converts text subtitle streams to WebVTT, split on time into numbered
/// `.vtt` segments announced on the converter's standard output.
pub struct WebVttSubtitleProfile;

/// The arguments of the WebVTT conversion.
pub open spec fn webvtt_subtitle_args(c: ProfileContext) -> Seq<Seq<char>> {
    seq![
        "-y"@,
        "-ss"@,
        dec_of(c.start_time_offset_secs as nat),
        "-i"@,
        c.input_path@,
        "-copyts"@,
        "-map"@,
        map_arg(c.stream_idx),
        "-c:0"@,
        "webvtt"@,
        "-f"@,
        "segment"@,
        "-segment_time"@,
        dec_of(c.segment_duration_secs as nat),
        "-segment_list"@,
        "pipe:1"@,
        "-segment_list_type"@,
        "m3u8"@,
        "-segment_start_number"@,
        dec_of(c.segment_idx as nat),
        seg_template(c.outdir@, "vtt"@),
    ]
}

impl WebVttSubtitleProfile {
    pub fn stream_type(&self) -> (r: StreamType)
        ensures
            r is Subtitle,
    {
        StreamType::Subtitle
    }

    pub fn name(&self) -> (r: &'static str)
        ensures
            r@ == "webvtt"@,
    {
        "webvtt"
    }

    /// Applies to the text subtitle codecs WebVTT can be produced from.
    pub fn enable_for(&self, s: &ProbedStream) -> (r: bool)
        ensures
            r == (s.kind is Subtitle && (s.codec_name@ == "webvtt"@ || s.codec_name@ == "subrip"@
                || s.codec_name@ == "ass"@ || s.codec_name@ == "ssa"@)),
    {
        match s.kind {
            StreamKind::Subtitle => str_eq(s.codec_name.as_str(), "webvtt") || str_eq(
                s.codec_name.as_str(),
                "subrip",
            ) || str_eq(s.codec_name.as_str(), "ass") || str_eq(s.codec_name.as_str(), "ssa"),
            _ => false,
        }
    }

    pub fn get_args(&self, c: &ProfileContext) -> (r: Vec<String>)
        ensures
            args_view(r) == webvtt_subtitle_args(*c),
    {
        let mut v: Vec<String> = Vec::new();
        v.push(String::from_str("-y"));
        v.push(String::from_str("-ss"));
        v.push(u64_to_dec(c.start_time_offset_secs));
        v.push(String::from_str("-i"));
        v.push(c.input_path.clone());
        v.push(String::from_str("-copyts"));
        v.push(String::from_str("-map"));
        v.push(build_map_arg(c.stream_idx));
        v.push(String::from_str("-c:0"));
        v.push(String::from_str("webvtt"));
        v.push(String::from_str("-f"));
        v.push(String::from_str("segment"));
        v.push(String::from_str("-segment_time"));
        v.push(u64_to_dec(c.segment_duration_secs));
        v.push(String::from_str("-segment_list"));
        v.push(String::from_str("pipe:1"));
        v.push(String::from_str("-segment_list_type"));
        v.push(String::from_str("m3u8"));
        v.push(String::from_str("-segment_start_number"));
        v.push(u64_to_dec(c.segment_idx));
        v.push(build_seg_template(c.outdir.as_str(), "vtt"));
        proof {
            assert(args_view(v) =~= webvtt_subtitle_args(*c));
        }
        v
    }
}

/// The context for a converter positioned at segment `segment_id`: the
/// input seek offset is the segment's start time, and segment numbering
/// starts at the segment itself, so output names line up with playlist
/// numbering wherever the producer starts.
pub fn context_for_position(
    input_path: &str,
    outdir: &str,
    stream_idx: u64,
    segment_id: u64,
) -> (c: ProfileContext)
    requires
        segment_id <= u64::MAX / crate::session::TARGET_DURATION_SECS,
    ensures
        c.input_path@ == input_path@,
        c.outdir@ == outdir@,
        c.stream_idx == stream_idx,
        c.segment_idx == segment_id,
        c.segment_duration_secs == crate::session::TARGET_DURATION_SECS,
        c.start_time_offset_secs == segment_id * crate::session::TARGET_DURATION_SECS,
{
    ProfileContext {
        input_path: String::from_str(input_path),
        outdir: String::from_str(outdir),
        stream_idx,
        segment_idx: segment_id,
        segment_duration_secs: crate::session::TARGET_DURATION_SECS,
        start_time_offset_secs: segment_id * crate::session::TARGET_DURATION_SECS,
    }
}

} // verus!
