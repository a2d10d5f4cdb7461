//! The on-demand transcode session: one converter process per session,
//! driven by segment requests.
//!
//! The decisions live here, verified: whether a request reuses, restarts or
//! starts the converter, when the producer is paused and resumed, and where
//! segment files live. The process control around them — spawn, kill,
//! signal, wait — performs exactly the actions planned here.

use crate::parser::{digit_run, digit_run_len, digits_value, read_digits_u64};
use crate::text::{dec_of, u64_to_dec};
use vstd::prelude::*;

verus! {

/// How far ahead of the producer a request may point before the converter
/// is restarted at the requested segment.
pub const JUMP_SIZE: u64 = 5;

/// How many segments the producer may run ahead of the last request before
/// it is suspended.
pub const BUFFER_SIZE: u64 = 4;

/// Nominal segment length, in seconds.
pub const TARGET_DURATION_SECS: u64 = 5;

/// How long a request waits for its segment before reporting a timeout, in
/// seconds.
pub const SEGMENT_WAIT_TIMEOUT_SECS: u64 = 10;

/// What a session knows of its converter between events.
pub struct ConverterState {
    /// Index of the last segment the converter announced.
    pub current_segment: u64,
    /// Index of the last segment a client asked for.
    pub wanted_segment: u64,
    /// Whether the converter is currently suspended.
    pub paused: bool,
}

/// What a segment request does to the session's converter.
#[derive(PartialEq, Eq, Structural)]
pub enum SegmentPlan {
    /// The segment is already on disk: serve it, touch nothing.
    UseExisting,
    /// The running converter will reach the segment shortly: keep it.
    Reuse,
    /// Kill the running converter and spawn one positioned at the segment.
    Restart,
    /// No converter runs: spawn one positioned at the segment.
    Start,
}

/// The reuse window: the producer is behind the request, by no more than
/// [`JUMP_SIZE`] segments.
pub open spec fn within_jump(current: u64, n: u64) -> bool {
    n > current && n - current <= JUMP_SIZE
}

/// Decides what a request for segment `n` does, exactly as the session
/// manager behaves: a segment already on disk is served directly; without
/// a converter one is started; a converter within the reuse window is kept;
/// any other converter is replaced.
pub fn plan_segment_request(state: &Option<ConverterState>, segment_on_disk: bool, n: u64) -> (p:
    SegmentPlan)
    ensures
        segment_on_disk ==> p == SegmentPlan::UseExisting,
        !segment_on_disk && state is None ==> p == SegmentPlan::Start,
        !segment_on_disk && (state matches Some(s) && within_jump(s.current_segment, n)) ==> p
            == SegmentPlan::Reuse,
        !segment_on_disk && (state matches Some(s) && !within_jump(s.current_segment, n)) ==> p
            == SegmentPlan::Restart,
{
    if segment_on_disk {
        SegmentPlan::UseExisting
    } else {
        match state {
            None => SegmentPlan::Start,
            Some(s) => {
                if n > s.current_segment && n - s.current_segment <= JUMP_SIZE {
                    SegmentPlan::Reuse
                } else {
                    SegmentPlan::Restart
                }
            },
        }
    }
}

/// The state of a converter freshly spawned for segment `n`: it has
/// produced nothing yet, the request for `n` is on record, and it runs.
pub fn spawned_state(n: u64) -> (s: ConverterState)
    ensures
        s.current_segment == 0,
        s.wanted_segment == n,
        !s.paused,
{
    ConverterState { current_segment: 0, wanted_segment: n, paused: false }
}

/// Records the request for segment `n` and lifts any pause: the caller
/// sends the resume signal whenever this reports that the converter was
/// paused.
pub fn note_request(state: &mut ConverterState, n: u64) -> (was_paused: bool)
    ensures
        final(state).wanted_segment == n,
        final(state).current_segment == old(state).current_segment,
        !final(state).paused,
        was_paused == old(state).paused,
{
    let was_paused = state.paused;
    state.wanted_segment = n;
    state.paused = false;
    was_paused
}

/// Digests the converter's announcement of a finished segment `m`: the
/// producer's position moves to `m`, and the caller suspends the converter
/// exactly when this reports so — when the producer runs more than
/// [`BUFFER_SIZE`] segments ahead of the last request.
pub fn on_segment_produced(state: &mut ConverterState, m: u64) -> (pause: bool)
    ensures
        final(state).current_segment == m,
        final(state).wanted_segment == old(state).wanted_segment,
        pause == (m > old(state).wanted_segment + BUFFER_SIZE),
        final(state).paused == (pause || old(state).paused),
{
    state.current_segment = m;
    let pause = m > BUFFER_SIZE && m - BUFFER_SIZE > state.wanted_segment;
    if pause {
        state.paused = true;
    }
    pause
}

/// What the manager does to a session's converter process, seen from the
/// process ledger: each step leaves at most one process alive, because a
/// restart kills the old process before the new one is spawned, and a
/// session is only started when none runs.
pub enum SessionAction {
    /// Spawn, when no converter runs.
    Start,
    /// Kill whatever runs, then spawn.
    Restart,
    /// The converter exited on its own.
    ConverterExit,
    /// The session is dropped: its converter is killed.
    Teardown,
}

/// How many converter processes a session holds after an action.
pub open spec fn procs_after(live: nat, a: SessionAction) -> nat {
    match a {
        SessionAction::Start => 1,
        SessionAction::Restart => 1,
        SessionAction::ConverterExit => 0,
        SessionAction::Teardown => 0,
    }
}

/// The process count after a whole history of session actions.
pub open spec fn procs_after_trace(live: nat, trace: Seq<SessionAction>) -> nat
    decreases trace.len(),
{
    if trace.len() == 0 {
        live
    } else {
        procs_after_trace(procs_after(live, trace[0]), trace.drop_first())
    }
}

/// At most one converter child process is alive per session, at every
/// instant of any history: a session begins with none, a start or restart
/// leaves exactly one (the restart's kill is synchronous with the spawn),
/// and an exit or teardown leaves none.
pub proof fn lemma_single_converter(live: nat, trace: Seq<SessionAction>)
    requires
        live <= 1,
    ensures
        procs_after_trace(live, trace) <= 1,
    decreases trace.len(),
{
    if trace.len() > 0 {
        lemma_single_converter(procs_after(live, trace[0]), trace.drop_first());
    }
}

/// The extension a stream kind's segments carry.
pub fn segment_extension(subtitle: bool) -> (r: &'static str)
    ensures
        subtitle ==> r@ == "vtt"@,
        !subtitle ==> r@ == "ts"@,
{
    if subtitle {
        "vtt"
    } else {
        "ts"
    }
}

/// The file name of segment `n`: `seg-<n>.<ext>`.
pub fn segment_file_name(n: u64, ext: &str) -> (r: String)
    ensures
        r@ == "seg-"@ + dec_of(n as nat) + "."@ + ext@,
{
    let r = String::from_str("seg-").concat(u64_to_dec(n).as_str());
    let r = r.concat(".");
    r.concat(ext)
}

/// The directory one session writes its segments to, under the transcode
/// cache root: `<root>/<file_id>/<kind>/<profile>/<stream_idx>`.
pub fn segment_dir(root: &str, file_id: u64, kind: &str, profile: &str, stream_idx: u64) -> (r:
    String)
    ensures
        r@ == root@ + "/"@ + dec_of(file_id as nat) + "/"@ + kind@ + "/"@ + profile@ + "/"@
            + dec_of(stream_idx as nat),
{
    let r = String::from_str(root);
    let r = r.concat("/");
    let r = r.concat(u64_to_dec(file_id).as_str());
    let r = r.concat("/");
    let r = r.concat(kind);
    let r = r.concat("/");
    let r = r.concat(profile);
    let r = r.concat("/");
    r.concat(u64_to_dec(stream_idx).as_str())
}

/// ASCII lower-case letter.
pub open spec fn is_lower(c: char) -> bool {
    97 <= c as u32 <= 122
}

/// How many consecutive lower-case letters stand at position `i`.
pub open spec fn lower_run_len(s: Seq<char>, i: int) -> nat
    decreases s.len() - i when 0 <= i <= s.len()
{
    if 0 <= i < s.len() && is_lower(s[i]) {
        1 + lower_run_len(s, i + 1)
    } else {
        0
    }
}

/// Counts the lower-case letters standing at position `i`.
fn lower_run(s: &str, i: usize) -> (r: usize)
    requires
        i <= s@.len(),
    ensures
        r == lower_run_len(s@, i as int),
        i + r <= s@.len(),
{
    let n = s.unicode_len();
    let mut j = i;
    while j < n
        invariant
            i <= j <= n,
            n == s@.len(),
            lower_run_len(s@, i as int) == j - i + lower_run_len(s@, j as int),
        ensures
            i <= j <= n,
            lower_run_len(s@, i as int) == j - i,
        decreases n - j,
    {
        let c = s.get_char(j) as u32;
        if !(97 <= c && c <= 122) {
            proof {
                assert(lower_run_len(s@, j as int) == 0);
            }
            break;
        }
        proof {
            assert(is_lower(s@[j as int]));
            assert(lower_run_len(s@, j as int) == 1 + lower_run_len(s@, j + 1));
        }
        j = j + 1;
    }
    j - i
}

/// A completed-segment announcement stands at `i`: `seg-`, the segment
/// number, a dot, and the extension.
pub open spec fn seg_line_at(s: Seq<char>, i: int) -> bool {
    &&& 0 <= i
    &&& i + 4 <= s.len()
    &&& s[i] as u32 == 115
    &&& s[i + 1] as u32 == 101
    &&& s[i + 2] as u32 == 103
    &&& s[i + 3] as u32 == 45
    &&& digit_run_len(s, i + 4) >= 1
    &&& i + 4 + digit_run_len(s, i + 4) < s.len()
    &&& s[i + 4 + digit_run_len(s, i + 4)] as u32 == 46
    &&& lower_run_len(s, i + 5 + digit_run_len(s, i + 4)) >= 1
}

/// The segment number announced at `i`.
pub open spec fn seg_line_value(s: Seq<char>, i: int) -> nat {
    digits_value(s, i + 4, digit_run_len(s, i + 4))
}

/// The extension announced at `i`.
pub open spec fn seg_line_ext(s: Seq<char>, i: int) -> Seq<char> {
    let d = i + 5 + digit_run_len(s, i + 4);
    s.subrange(d, d + lower_run_len(s, d))
}

/// The first announcement on the line, if any.
pub open spec fn first_seg_line(s: Seq<char>) -> Option<(nat, Seq<char>)> {
    if exists|i: int| seg_line_at(s, i) {
        let i = choose|i: int| seg_line_at(s, i) && forall|j: int| 0 <= j < i ==> !seg_line_at(s, j);
        Some((seg_line_value(s, i), seg_line_ext(s, i)))
    } else {
        None
    }
}

/// Whether an announcement starts at `i`.
fn seg_line_at_exec(s: &str, i: usize) -> (r: bool)
    requires
        i < s@.len(),
    ensures
        r == seg_line_at(s@, i as int),
{
    let n = s.unicode_len();
    if n - i < 4 {
        return false;
    }
    if s.get_char(i) as u32 != 115 || s.get_char(i + 1) as u32 != 101 || s.get_char(i + 2) as u32
        != 103 || s.get_char(i + 3) as u32 != 45 {
        return false;
    }
    let run = digit_run(s, i + 4);
    if run < 1 {
        return false;
    }
    if i + 4 + run >= n {
        return false;
    }
    if s.get_char(i + 4 + run) as u32 != 46 {
        return false;
    }
    lower_run(s, i + 5 + run) >= 1
}

/// Reads a converter stdout line: the first `seg-<n>.<ext>` announcement
/// on it, when the number fits. This is how the session watches its
/// producer's progress.
pub fn parse_segment_line(line: &str) -> (r: Option<(u64, String)>)
    ensures
        match first_seg_line(line@) {
            Some(p) => if p.0 <= u64::MAX {
                r matches Some(v) && v.0 as nat == p.0 && v.1@ == p.1
            } else {
                r is None
            },
            None => r is None,
        },
{
    let n = line.unicode_len();
    for i in 0..n
        invariant
            n == line@.len(),
            forall|j: int| 0 <= j < i ==> !seg_line_at(line@, j),
    {
        if seg_line_at_exec(line, i) {
            proof {
                assert(seg_line_at(line@, i as int));
                let w = choose|w: int|
                    seg_line_at(line@, w) && forall|j: int| 0 <= j < w ==> !seg_line_at(line@, j);
                assert(seg_line_at(line@, w) && forall|j: int|
                    0 <= j < w ==> !seg_line_at(line@, j));
                if w < i as int {
                    assert(!seg_line_at(line@, w));
                }
                if w > i as int {
                    assert(!seg_line_at(line@, i as int));
                }
                assert(w == i as int);
            }
            let run = digit_run(line, i + 4);
            proof {
                crate::parser::lemma_digit_run(line@, i + 4);
            }
            let num = read_digits_u64(line, i + 4, run);
            match num {
                Some(v) => {
                    let e0 = i + 5 + run;
                    let erun = lower_run(line, e0);
                    let ext = String::from_str(line.substring_char(e0, e0 + erun));
                    proof {
                        assert(ext@ == seg_line_ext(line@, i as int));
                    }
                    return Some((v, ext));
                },
                None => {
                    return None;
                },
            }
        }
    }
    proof {
        if exists|j: int| seg_line_at(line@, j) {
            let j = choose|j: int| seg_line_at(line@, j);
            assert(0 <= j && j + 4 <= line@.len());
            assert(!seg_line_at(line@, j));
        }
    }
    None
}

/// The key a session is filed under in the manager's map:
/// `<file_id>:<kind>:<profile>:<stream_idx>`.
pub fn session_key(file_id: u64, kind: &str, profile: &str, stream_idx: u64) -> (r: String)
    ensures
        r@ == dec_of(file_id as nat) + ":"@ + kind@ + ":"@ + profile@ + ":"@ + dec_of(
            stream_idx as nat,
        ),
{
    let r = u64_to_dec(file_id);
    let r = r.concat(":");
    let r = r.concat(kind);
    let r = r.concat(":");
    let r = r.concat(profile);
    let r = r.concat(":");
    r.concat(u64_to_dec(stream_idx).as_str())
}

} // verus!
