//! The playlist synthesizer: a master playlist listing one rendition per
//! applicable profile, and per-stream VOD playlists whose segment
//! boundaries match what the sessions produce.

use crate::profiles::ProbedStream;
use crate::session::TARGET_DURATION_SECS;
use crate::text::{dec2_of, dec_of, u64_to_dec, u64_to_dec2};
use vstd::prelude::*;

verus! {

/// Nominal segment length, in milliseconds.
pub const TARGET_DURATION_MS: u64 = 5000;

/// How many segments a stream of the given duration is cut into: the
/// last one may be shorter than the rest.
pub fn segment_count(duration_ms: u64) -> (r: u64)
    ensures
        r == duration_ms / TARGET_DURATION_MS + if duration_ms % TARGET_DURATION_MS == 0 {
            0int
        } else {
            1int
        },
{
    if duration_ms % TARGET_DURATION_MS == 0 {
        duration_ms / TARGET_DURATION_MS
    } else {
        duration_ms / TARGET_DURATION_MS + 1
    }
}

/// The `#EXTINF` line of a segment lasting `ms` milliseconds: seconds with
/// two decimals, rounded half-up to centiseconds.
pub open spec fn extinf_line(ms: nat) -> Seq<char> {
    let cs = (ms + 5) / 10;
    "#EXTINF:"@ + dec_of(cs / 100) + "."@ + dec2_of(cs % 100) + "\n"@
}

/// The segment lines from position `i` for `remaining` milliseconds of
/// stream, each segment the nominal length but the last, then the end
/// marker.
pub open spec fn variant_tail(remaining: nat, i: nat) -> Seq<char>
    decreases remaining,
{
    if remaining == 0 {
        "#EXT-X-ENDLIST\n"@
    } else {
        let seg: nat = if remaining < TARGET_DURATION_MS {
            remaining
        } else {
            TARGET_DURATION_MS as nat
        };
        extinf_line(seg) + dec_of(i) + ".ts\n\n"@ + variant_tail((remaining - seg) as nat, i + 1)
    }
}

/// A whole VOD playlist for one stream of the given duration.
pub open spec fn variant_playlist_chars(duration_ms: nat) -> Seq<char> {
    "#EXTM3U\n"@ + "#EXT-X-VERSION:7\n"@ + "#EXT-X-TARGETDURATION:"@ + dec_of(
        TARGET_DURATION_SECS as nat,
    ) + "\n"@ + "#EXT-X-MEDIA-SEQUENCE:0\n"@ + "#EXT-X-PLAYLIST-TYPE:VOD\n\n"@ + variant_tail(
        duration_ms,
        0,
    )
}

/// Writes the VOD playlist for one stream: segments numbered from zero,
/// each the nominal length, the last truncated to what remains.
pub fn variant_playlist(duration_ms: u64) -> (r: String)
    ensures
        r@ == variant_playlist_chars(duration_ms as nat),
{
    let mut acc = String::from_str("#EXTM3U\n");
    acc.append("#EXT-X-VERSION:7\n");
    acc.append("#EXT-X-TARGETDURATION:");
    acc.append(u64_to_dec(TARGET_DURATION_SECS).as_str());
    acc.append("\n");
    acc.append("#EXT-X-MEDIA-SEQUENCE:0\n");
    acc.append("#EXT-X-PLAYLIST-TYPE:VOD\n\n");
    let ghost header = acc@;
    let mut remaining: u64 = duration_ms;
    let mut i: u64 = 0;
    while remaining > 0
        invariant
            header + variant_tail(duration_ms as nat, 0) == acc@ + variant_tail(
                remaining as nat,
                i as nat,
            ),
            i <= duration_ms - remaining,
            remaining <= duration_ms,
        decreases remaining,
    {
        let seg: u64 = if remaining < TARGET_DURATION_MS {
            remaining
        } else {
            TARGET_DURATION_MS
        };
        let cs: u64 = (seg + 5) / 10;
        acc.append("#EXTINF:");
        acc.append(u64_to_dec(cs / 100).as_str());
        acc.append(".");
        acc.append(u64_to_dec2(cs % 100).as_str());
        acc.append("\n");
        acc.append(u64_to_dec(i).as_str());
        acc.append(".ts\n\n");
        remaining = remaining - seg;
        i = i + 1;
    }
    acc.append("#EXT-X-ENDLIST\n");
    proof {
        assert(acc@ =~= header + variant_tail(duration_ms as nat, 0));
    }
    acc
}

/// Why no playlist can be written for a stream.
pub enum PlaylistError {
    /// Neither the stream, nor the container, nor a tag knows a duration.
    NoDuration,
}

/// Writes the VOD playlist for one probed stream: succeeds exactly when
/// some source knows the stream's duration, and fails with
/// [`PlaylistError::NoDuration`] when none does.
pub fn stream_variant_playlist(s: &ProbedStream, container_ms: Option<u64>) -> (r: Result<
    String,
    PlaylistError,
>)
    ensures
        match r {
            Ok(p) => crate::profiles::stream_duration_spec(*s, container_ms) matches Some(d)
                && p@ == variant_playlist_chars(d as nat),
            Err(e) => crate::profiles::stream_duration_spec(*s, container_ms) is None && e
                is NoDuration,
        },
{
    match crate::profiles::get_stream_duration(s, container_ms) {
        Some(d) => Ok(variant_playlist(d)),
        None => Err(PlaylistError::NoDuration),
    }
}

/// Whether the passthrough video profile serves this stream.
pub open spec fn copy_enabled(s: ProbedStream) -> bool {
    s.kind is Video && (s.codec_name@ == "h264"@ || s.codec_name@ == "hevc"@)
}

/// Whether the AAC audio profile serves this stream.
pub open spec fn aac_enabled(s: ProbedStream) -> bool {
    s.kind is Audio
}

/// The master playlist entry of one video rendition.
pub open spec fn master_video_entry(idx: nat) -> Seq<char> {
    "#EXT-X-STREAM-INF:AUDIO=\"group_audio\"\n"@ + "video/"@ + dec_of(idx) + "/copy/index.m3u8\n\n"@
}

/// The master playlist entry of one audio rendition; the first audio is
/// the default one.
pub open spec fn master_audio_entry(idx: nat, dflt: bool) -> Seq<char> {
    "#EXT-X-MEDIA:TYPE=AUDIO,GROUP-ID=\"group_audio\",NAME=\"audio_"@ + dec_of(idx) + "\",DEFAULT="@
        + (if dflt {
        "YES"@
    } else {
        "NO"@
    }) + ",URI=\"audio/"@ + dec_of(idx) + "/aac/index.m3u8\"\n\n"@
}

/// The master playlist entries for the streams `ss`, one per applicable
/// profile; `audio_seen` records whether an earlier audio rendition
/// already took the default slot.
pub open spec fn master_tail(ss: Seq<ProbedStream>, audio_seen: bool) -> Seq<char>
    decreases ss.len(),
{
    if ss.len() == 0 {
        Seq::<char>::empty()
    } else {
        let s = ss[0];
        if copy_enabled(s) {
            master_video_entry(s.index as nat) + master_tail(ss.drop_first(), audio_seen)
        } else if aac_enabled(s) {
            master_audio_entry(s.index as nat, !audio_seen) + master_tail(ss.drop_first(), true)
        } else {
            master_tail(ss.drop_first(), audio_seen)
        }
    }
}

/// A whole master playlist for a probed file.
pub open spec fn master_playlist_chars(ss: Seq<ProbedStream>) -> Seq<char> {
    "#EXTM3U\n"@ + "#EXT-X-VERSION:7\n\n"@ + master_tail(ss, false)
}

/// Writes the master playlist: one passthrough rendition per compatible
/// video stream, one AAC rendition per audio stream, the first audio
/// marked default, audio grouped under `group_audio`.
pub fn master_playlist(streams: &Vec<ProbedStream>) -> (r: String)
    ensures
        r@ == master_playlist_chars(streams@),
{
    let mut acc = String::from_str("#EXTM3U\n");
    acc.append("#EXT-X-VERSION:7\n\n");
    let ghost header = acc@;
    let ghost ss = streams@;
    let mut audio_seen = false;
    proof {
        assert(ss.skip(0) =~= ss);
    }
    let n = streams.len();
    for i in 0..n
        invariant
            n == streams@.len(),
            ss == streams@,
            header + master_tail(ss, false) == acc@ + master_tail(
                ss.skip(i as int),
                audio_seen,
            ),
    {
        proof {
            assert(ss.skip(i as int)[0] == ss[i as int]);
            assert(ss.skip(i as int).drop_first() =~= ss.skip(i as int + 1));
        }
        let s = &streams[i];
        let video = crate::profiles::CopyVideoProfile;
        let audio = crate::profiles::AacAudioProfile;
        if video.enable_for(s) {
            acc.append("#EXT-X-STREAM-INF:AUDIO=\"group_audio\"\n");
            acc.append("video/");
            acc.append(u64_to_dec(s.index).as_str());
            acc.append("/copy/index.m3u8\n\n");
        } else if audio.enable_for(s) {
            acc.append("#EXT-X-MEDIA:TYPE=AUDIO,GROUP-ID=\"group_audio\",NAME=\"audio_");
            acc.append(u64_to_dec(s.index).as_str());
            acc.append("\",DEFAULT=");
            if audio_seen {
                acc.append("NO");
            } else {
                acc.append("YES");
            }
            acc.append(",URI=\"audio/");
            acc.append(u64_to_dec(s.index).as_str());
            acc.append("/aac/index.m3u8\"\n\n");
            audio_seen = true;
        }
    }
    proof {
        assert(ss.skip(n as int) =~= Seq::<ProbedStream>::empty());
        assert(acc@ =~= header + master_tail(ss, false));
    }
    acc
}

} // verus!
