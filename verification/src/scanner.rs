//! The scanner's catalog of discovered files.
//!
//! A [`FileTable`] models the `file` table of the catalog store: rows are
//! unique per `(backend_name, key)`, carry the size and the time of the last
//! sighting, and are flagged unavailable when a pass no longer sees them.
//! A scan pass is `upsert_scanned` for every eligible file found on disk,
//! followed by `mark_missing` for the same backend.

use vstd::prelude::*;
use vstd::pervasive::VecAdditionalExecFns;

verus! {

/// A discovered video file, one row of the catalog.
pub struct File {
    pub id: i64,
    pub backend_name: String,
    pub key: String,
    pub pending_auto_match: bool,
    pub unavailable_since: Option<i64>,
    pub edition_name: Option<String>,
    pub size_bytes: Option<i64>,
    pub scanned_at: i64,
}

/// The mathematical image of one file row.
pub struct RowModel {
    pub id: int,
    pub backend: Seq<char>,
    pub key: Seq<char>,
    pub pending: bool,
    pub unavailable: Option<int>,
    pub edition: Option<Seq<char>>,
    pub size: Option<int>,
    pub scanned_at: int,
}

impl File {
    pub open spec fn model(self) -> RowModel {
        RowModel {
            id: self.id as int,
            backend: self.backend_name@,
            key: self.key@,
            pending: self.pending_auto_match,
            unavailable: match self.unavailable_since {
                Some(t) => Some(t as int),
                None => None,
            },
            edition: match self.edition_name {
                Some(e) => Some(e@),
                None => None,
            },
            size: match self.size_bytes {
                Some(s) => Some(s as int),
                None => None,
            },
            scanned_at: self.scanned_at as int,
        }
    }
}

/// Row `i` of `t` carries the identity `(b, k)`.
pub open spec fn key_at(t: Seq<RowModel>, i: int, b: Seq<char>, k: Seq<char>) -> bool {
    &&& 0 <= i < t.len()
    &&& t[i].backend == b
    &&& t[i].key == k
}

/// Some row of `t` carries the identity `(b, k)`.
pub open spec fn has_key(t: Seq<RowModel>, b: Seq<char>, k: Seq<char>) -> bool {
    exists|i: int| key_at(t, i, b, k)
}

/// The row index carrying `(b, k)`; meaningful when `has_key` holds and the
/// table is well formed, which makes the index unique.
pub open spec fn key_idx(t: Seq<RowModel>, b: Seq<char>, k: Seq<char>) -> int {
    choose|i: int| key_at(t, i, b, k)
}

/// Identities are unique, ids are unique and below `next_id`.
pub open spec fn table_wf(t: Seq<RowModel>, next_id: int) -> bool {
    &&& 0 <= next_id
    &&& forall|i: int, j: int|
        0 <= i < j < t.len() ==> !(#[trigger] t[i].backend == #[trigger] t[j].backend
            && t[i].key == t[j].key)
    &&& forall|i: int, j: int| 0 <= i < j < t.len() ==> t[i].id != t[j].id
    &&& forall|i: int| 0 <= i < t.len() ==> 0 <= #[trigger] t[i].id < next_id
}

/// The row after a sighting at `start` with size `size`: the size and the
/// sighting time are updated and the unavailable mark is cleared; identity
/// and the match flag are kept.
pub open spec fn resighted(r: RowModel, size: int, start: int) -> RowModel {
    RowModel { size: Some(size), scanned_at: start, unavailable: None, ..r }
}

/// A fresh row for a file first seen at `start`.
pub open spec fn fresh_row(id: int, b: Seq<char>, k: Seq<char>, size: int, start: int) -> RowModel {
    RowModel {
        id: id,
        backend: b,
        key: k,
        pending: true,
        unavailable: None,
        edition: None,
        size: Some(size),
        scanned_at: start,
    }
}

/// The table after upserting a sighting of `(b, k)`.
pub open spec fn upsert_model(
    t: Seq<RowModel>,
    next_id: int,
    b: Seq<char>,
    k: Seq<char>,
    size: int,
    start: int,
) -> Seq<RowModel> {
    if has_key(t, b, k) {
        let i = key_idx(t, b, k);
        t.update(i, resighted(t[i], size, start))
    } else {
        t.push(fresh_row(next_id, b, k, size, start))
    }
}

/// The id counter after the same upsert.
pub open spec fn upsert_next_model(
    t: Seq<RowModel>,
    next_id: int,
    b: Seq<char>,
    k: Seq<char>,
) -> int {
    if has_key(t, b, k) {
        next_id
    } else {
        next_id + 1
    }
}

/// The table after the end of a pass over backend `b` that started at
/// `start`: every row of that backend not sighted during the pass and not
/// already marked becomes unavailable as of `start`.
pub open spec fn mark_missing_model(t: Seq<RowModel>, b: Seq<char>, start: int) -> Seq<RowModel> {
    t.map(
        |i: int, r: RowModel|
            if r.backend == b && r.scanned_at < start && r.unavailable is None {
                RowModel { unavailable: Some(start), ..r }
            } else {
                r
            },
    )
}

/// Smallest file the scanner imports, in bytes (50 MiB).
pub const MIN_FILE_SIZE: u64 = 50 * 1024 * 1024;

/// How often a running pass reports progress, in milliseconds.
pub const PROGRESS_LOG_INTERVAL_MS: u64 = 5000;

/// Counters of one running scan pass.
pub struct ScanProgress {
    pub files_imported: u64,
    pub bytes_imported: u64,
    pub files_seen: u64,
    pub directories_seen: u64,
    pub last_log_time_ms: u64,
}

impl ScanProgress {
    /// Fresh counters for a pass starting at `now_ms`.
    pub fn new(now_ms: u64) -> (r: ScanProgress)
        ensures
            r.files_imported == 0,
            r.bytes_imported == 0,
            r.files_seen == 0,
            r.directories_seen == 0,
            r.last_log_time_ms == now_ms,
    {
        ScanProgress {
            files_imported: 0,
            bytes_imported: 0,
            files_seen: 0,
            directories_seen: 0,
            last_log_time_ms: now_ms,
        }
    }

    /// Whether a progress line is due: the caller logs exactly when this
    /// reports so, at most once per interval.
    pub fn should_log(&mut self, now_ms: u64) -> (r: bool)
        requires
            old(self).last_log_time_ms <= now_ms,
        ensures
            r == (now_ms - old(self).last_log_time_ms >= PROGRESS_LOG_INTERVAL_MS),
            final(self).last_log_time_ms == if r {
                now_ms
            } else {
                old(self).last_log_time_ms
            },
            final(self).files_imported == old(self).files_imported,
            final(self).bytes_imported == old(self).bytes_imported,
            final(self).files_seen == old(self).files_seen,
            final(self).directories_seen == old(self).directories_seen,
    {
        if now_ms - self.last_log_time_ms >= PROGRESS_LOG_INTERVAL_MS {
            self.last_log_time_ms = now_ms;
            true
        } else {
            false
        }
    }
}

/// The scalar of `c`, with ASCII capitals folded to lower case.
pub open spec fn fold_scalar(c: char) -> u32 {
    if 65 <= c as u32 <= 90 {
        ((c as u32) + 32) as u32
    } else {
        c as u32
    }
}

/// The case-folded scalars of a character sequence.
pub open spec fn fold_seq(s: Seq<char>) -> Seq<u32> {
    s.map_values(|c: char| fold_scalar(c))
}

/// Whether two strings are equal up to ASCII case.
fn eq_fold(a: &str, b: &str) -> (r: bool)
    ensures
        r == (fold_seq(a@) == fold_seq(b@)),
{
    let an = a.unicode_len();
    let bn = b.unicode_len();
    if an != bn {
        proof {
            assert(fold_seq(a@).len() != fold_seq(b@).len());
        }
        return false;
    }
    for i in 0..an
        invariant
            an == a@.len(),
            an == b@.len(),
            forall|j: int| 0 <= j < i ==> fold_seq(a@)[j] == fold_seq(b@)[j],
    {
        let ca = a.get_char(i) as u32;
        let cb = b.get_char(i) as u32;
        let fa = if 65 <= ca && ca <= 90 {
            ca + 32
        } else {
            ca
        };
        let fb = if 65 <= cb && cb <= 90 {
            cb + 32
        } else {
            cb
        };
        if fa != fb {
            proof {
                assert(fold_seq(a@)[i as int] != fold_seq(b@)[i as int]);
            }
            return false;
        }
        proof {
            assert(fold_seq(a@)[i as int] == fold_seq(b@)[i as int]);
        }
    }
    proof {
        assert(fold_seq(a@) =~= fold_seq(b@));
    }
    true
}

/// The extensions the scanner accepts, compared case-insensitively.
pub open spec fn is_video_ext_chars(e: Seq<char>) -> bool {
    ||| fold_seq(e) == fold_seq("mp4"@)
    ||| fold_seq(e) == fold_seq("mkv"@)
    ||| fold_seq(e) == fold_seq("avi"@)
    ||| fold_seq(e) == fold_seq("mov"@)
    ||| fold_seq(e) == fold_seq("wmv"@)
    ||| fold_seq(e) == fold_seq("flv"@)
    ||| fold_seq(e) == fold_seq("webm"@)
    ||| fold_seq(e) == fold_seq("m4v"@)
    ||| fold_seq(e) == fold_seq("mpg"@)
    ||| fold_seq(e) == fold_seq("mpeg"@)
    ||| fold_seq(e) == fold_seq("3gp"@)
    ||| fold_seq(e) == fold_seq("ts"@)
    ||| fold_seq(e) == fold_seq("m2ts"@)
}

/// Whether `e` is one of the video extensions.
pub fn is_video_ext(e: &str) -> (r: bool)
    ensures
        r == is_video_ext_chars(e@),
{
    eq_fold(e, "mp4") || eq_fold(e, "mkv") || eq_fold(e, "avi") || eq_fold(e, "mov") || eq_fold(
        e,
        "wmv",
    ) || eq_fold(e, "flv") || eq_fold(e, "webm") || eq_fold(e, "m4v") || eq_fold(e, "mpg")
        || eq_fold(e, "mpeg") || eq_fold(e, "3gp") || eq_fold(e, "ts") || eq_fold(e, "m2ts")
}

/// The position right after the last occurrence of `c` in `s`, or 0.
pub open spec fn after_last(s: Seq<char>, c: char) -> int {
    if exists|i: int| 0 <= i < s.len() && s[i] == c {
        (choose|i: int|
            0 <= i < s.len() && s[i] == c && forall|j: int| i < j < s.len() ==> s[j] != c) + 1
    } else {
        0
    }
}

/// The extension of a scan key: what follows the last dot of its final path
/// component, provided the dot is neither the component's first character
/// nor its last.
pub open spec fn ext_of(key: Seq<char>) -> Option<Seq<char>> {
    let comp = after_last(key, '/');
    let dot = after_last(key, '.');
    if dot > comp + 1 && dot < key.len() {
        Some(key.subrange(dot, key.len() as int))
    } else {
        None
    }
}

/// The position right after the last occurrence of `c`, or 0 when `c` does
/// not occur.
fn find_after_last(s: &str, c: char) -> (r: usize)
    ensures
        r == after_last(s@, c),
{
    let n = s.unicode_len();
    let mut i = n;
    while i > 0
        invariant
            n == s@.len(),
            0 <= i <= n,
            forall|j: int| i <= j < n ==> s@[j] != c,
        decreases i,
    {
        i = i - 1;
        if s.get_char(i) == c {
            proof {
                assert(0 <= i < s@.len() && s@[i as int] == c && forall|j: int|
                    i < j < s@.len() ==> s@[j] != c);
                let w = choose|w: int|
                    0 <= w < s@.len() && s@[w] == c && forall|j: int|
                        w < j < s@.len() ==> s@[j] != c;
                assert(w == i as int) by {
                    if w < i as int {
                        assert(s@[i as int] != c);
                    } else if w > i as int {
                        assert(s@[w] != c);
                    }
                }
            }
            return i + 1;
        }
    }
    proof {
        if exists|j: int| 0 <= j < s@.len() && s@[j] == c {
            let w = choose|j: int| 0 <= j < s@.len() && s@[j] == c;
            assert(s@[w] != c);
        }
    }
    0
}

/// The extension of a scan key, if it has one.
pub fn key_extension(key: &str) -> (r: Option<String>)
    ensures
        match r {
            Some(e) => ext_of(key@) == Some(e@),
            None => ext_of(key@) is None,
        },
{
    let n = key.unicode_len();
    let comp = find_after_last(key, '/');
    let dot = find_after_last(key, '.');
    if dot < n && dot >= 1 && dot - 1 > comp {
        let e = key.substring_char(dot, n);
        Some(String::from_str(e))
    } else {
        None
    }
}

/// Whether the scanner imports a file with key `key` and size `size`:
/// a known video extension and at least [`MIN_FILE_SIZE`] bytes.
pub open spec fn entry_eligible(key: Seq<char>, size: int) -> bool {
    &&& size >= MIN_FILE_SIZE
    &&& match ext_of(key) {
        Some(e) => is_video_ext_chars(e),
        None => false,
    }
}

/// Decides eligibility of one directory entry.
pub fn should_import(key: &str, size_bytes: u64) -> (r: bool)
    ensures
        r == entry_eligible(key@, size_bytes as int),
{
    if size_bytes < MIN_FILE_SIZE {
        return false;
    }
    match key_extension(key) {
        Some(e) => is_video_ext(e.as_str()),
        None => false,
    }
}

/// One file met during a walk of a backend's root directory: its path
/// relative to the root, and its size.
pub struct ScanEntry {
    pub key: String,
    pub size_bytes: u64,
}

/// The mathematical image of a scan entry.
pub struct EntryModel {
    pub key: Seq<char>,
    pub size: int,
}

impl ScanEntry {
    pub open spec fn model(self) -> EntryModel {
        EntryModel { key: self.key@, size: self.size_bytes as int }
    }
}

/// Some eligible entry of `es` carries the key `k`.
pub open spec fn touched(es: Seq<EntryModel>, k: Seq<char>) -> bool
    decreases es.len(),
{
    es.len() > 0 && ((entry_eligible(es[0].key, es[0].size) && es[0].key == k) || touched(
        es.drop_first(),
        k,
    ))
}

/// The size of the last eligible entry of `es` carrying the key `k`.
pub open spec fn last_size(es: Seq<EntryModel>, k: Seq<char>) -> int
    decreases es.len(),
{
    if es.len() == 0 {
        0
    } else if touched(es.drop_first(), k) || !(entry_eligible(es[0].key, es[0].size) && es[0].key
        == k) {
        last_size(es.drop_first(), k)
    } else {
        es[0].size
    }
}

/// What importing the entries `es` at time `start` makes of a row already
/// in the table: a sighted row is refreshed, any other row is untouched.
pub open spec fn expected_update(
    r: RowModel,
    b: Seq<char>,
    start: int,
    es: Seq<EntryModel>,
) -> RowModel {
    if r.backend == b && touched(es, r.key) {
        RowModel { size: Some(last_size(es, r.key)), scanned_at: start, unavailable: None, ..r }
    } else {
        r
    }
}

/// The table after importing every eligible entry of `es`, in order.
pub open spec fn import_all(
    t: Seq<RowModel>,
    next_id: int,
    b: Seq<char>,
    start: int,
    es: Seq<EntryModel>,
) -> (Seq<RowModel>, int)
    decreases es.len(),
{
    if es.len() == 0 {
        (t, next_id)
    } else {
        let e = es[0];
        if entry_eligible(e.key, e.size) {
            import_all(
                upsert_model(t, next_id, b, e.key, e.size, start),
                upsert_next_model(t, next_id, b, e.key),
                b,
                start,
                es.drop_first(),
            )
        } else {
            import_all(t, next_id, b, start, es.drop_first())
        }
    }
}

/// The table after a whole pass over backend `b` starting at `start` that
/// saw exactly the entries `es`.
pub open spec fn pass_model(
    t: Seq<RowModel>,
    next_id: int,
    b: Seq<char>,
    start: int,
    es: Seq<EntryModel>,
) -> (Seq<RowModel>, int) {
    let (t1, n1) = import_all(t, next_id, b, start, es);
    (mark_missing_model(t1, b, start), n1)
}

/// The catalog's file table.
pub struct FileTable {
    pub rows: Vec<File>,
    pub next_id: i64,
}

impl FileTable {
    pub open spec fn model(self) -> Seq<RowModel> {
        self.rows@.map(|i: int, f: File| f.model())
    }

    pub open spec fn wf(self) -> bool {
        table_wf(self.model(), self.next_id as int)
    }

    pub fn new() -> (r: FileTable)
        ensures
            r.model() =~= Seq::<RowModel>::empty(),
            r.wf(),
            r.next_id == 1,
    {
        FileTable { rows: Vec::new(), next_id: 1 }
    }

    /// The index of the row carrying `(backend, key)`, if any.
    fn find(&self, backend: &String, key: &String) -> (r: Option<usize>)
        ensures
            match r {
                Some(i) => key_at(self.model(), i as int, backend@, key@),
                None => !has_key(self.model(), backend@, key@),
            },
    {
        let ghost m = self.model();
        let n = self.rows.len();
        for i in 0..n
            invariant
                n == self.rows.len(),
                m == self.model(),
                forall|j: int| 0 <= j < i ==> !key_at(m, j, backend@, key@),
        {
            if self.rows[i].backend_name == *backend && self.rows[i].key == *key {
                assert(key_at(m, i as int, backend@, key@));
                return Some(i);
            }
            assert(!key_at(m, i as int, backend@, key@));
        }
        return None;
    }

    /// Records a sighting of `(backend, key)` with the given size at time
    /// `scan_start`: updates the row in place, or inserts a fresh row flagged
    /// for matching.
    pub fn upsert_scanned(
        &mut self,
        backend: &String,
        key: &String,
        size_bytes: i64,
        scan_start: i64,
    )
        requires
            old(self).wf(),
            old(self).next_id < i64::MAX,
        ensures
            final(self).model() == upsert_model(
                old(self).model(),
                old(self).next_id as int,
                backend@,
                key@,
                size_bytes as int,
                scan_start as int,
            ),
            final(self).next_id as int == upsert_next_model(
                old(self).model(),
                old(self).next_id as int,
                backend@,
                key@,
            ),
            final(self).wf(),
    {
        let ghost t = self.model();
        let ghost next0 = self.next_id as int;
        match self.find(backend, key) {
            Some(i) => {
                proof {
                    // the found index is the unique one the model speaks of
                    let j = key_idx(t, backend@, key@);
                    assert(key_at(t, j, backend@, key@));
                    assert(j == i as int) by {
                        if j != i as int {
                            if j < i as int {
                                assert(!(t[j].backend == t[i as int].backend && t[j].key
                                    == t[i as int].key));
                            } else {
                                assert(!(t[i as int].backend == t[j].backend && t[i as int].key
                                    == t[j].key));
                            }
                        }
                    }
                }
                let mut row = File {
                    id: 0,
                    backend_name: String::new(),
                    key: String::new(),
                    pending_auto_match: false,
                    unavailable_since: None,
                    edition_name: None,
                    size_bytes: None,
                    scanned_at: 0,
                };
                self.rows.set_and_swap(i, &mut row);
                row.size_bytes = Some(size_bytes);
                row.scanned_at = scan_start;
                row.unavailable_since = None;
                self.rows.set_and_swap(i, &mut row);
                proof {
                    assert(self.model() =~= upsert_model(
                        t,
                        next0,
                        backend@,
                        key@,
                        size_bytes as int,
                        scan_start as int,
                    ));
                    assert(table_wf(self.model(), self.next_id as int)) by {
                        let m = self.model();
                        assert(forall|x: int|
                            0 <= x < m.len() ==> #[trigger] m[x].backend == t[x].backend && m[x].key
                                == t[x].key && m[x].id == t[x].id);
                    }
                }
            },
            None => {
                self.rows.push(
                    File {
                        id: self.next_id,
                        backend_name: backend.clone(),
                        key: key.clone(),
                        pending_auto_match: true,
                        unavailable_since: None,
                        edition_name: None,
                        size_bytes: Some(size_bytes),
                        scanned_at: scan_start,
                    },
                );
                self.next_id = self.next_id + 1;
                proof {
                    assert(self.model() =~= upsert_model(
                        t,
                        next0,
                        backend@,
                        key@,
                        size_bytes as int,
                        scan_start as int,
                    ));
                    assert(table_wf(self.model(), self.next_id as int)) by {
                        let m = self.model();
                        assert(forall|x: int|
                            0 <= x < t.len() ==> #[trigger] m[x] == t[x]);
                        assert(m[t.len() as int] == fresh_row(
                            next0,
                            backend@,
                            key@,
                            size_bytes as int,
                            scan_start as int,
                        ));
                        assert forall|x: int| 0 <= x < t.len() implies !(#[trigger] t[x].backend
                            == backend@ && t[x].key == key@) by {
                            assert(!key_at(t, x, backend@, key@));
                        }
                        assert forall|i: int, j: int| 0 <= i < j < m.len() implies !(
                        #[trigger] m[i].backend == #[trigger] m[j].backend && m[i].key
                            == m[j].key) by {
                            if j < t.len() {
                                assert(m[i] == t[i] && m[j] == t[j]);
                            } else {
                                assert(m[i] == t[i]);
                                assert(!(t[i].backend == backend@ && t[i].key == key@));
                            }
                        }
                        assert forall|i: int, j: int| 0 <= i < j < m.len() implies m[i].id
                            != m[j].id by {
                            if j < t.len() {
                                assert(m[i] == t[i] && m[j] == t[j]);
                            } else {
                                assert(m[i] == t[i]);
                            }
                        }
                        assert forall|i: int| 0 <= i < m.len() implies 0 <= #[trigger] m[i].id
                            < self.next_id as int by {
                            if i < t.len() {
                                assert(m[i] == t[i]);
                                assert(0 <= t[i].id < next0);
                            } else {
                                assert(m[i].id == next0);
                                assert(self.next_id as int == next0 + 1);
                            }
                        }
                    }
                }
            },
        }
    }

    /// Ends a pass over `backend` that started at `scan_start`: every row of
    /// that backend whose last sighting is older than the pass and that is
    /// not already marked becomes unavailable as of `scan_start`.
    pub fn mark_missing(&mut self, backend: &String, scan_start: i64)
        requires
            old(self).wf(),
        ensures
            final(self).model() == mark_missing_model(
                old(self).model(),
                backend@,
                scan_start as int,
            ),
            final(self).next_id == old(self).next_id,
            final(self).wf(),
    {
        let ghost t = self.model();
        let n = self.rows.len();
        for i in 0..n
            invariant
                n == self.rows.len(),
                t.len() == n,
                t == old(self).model(),
                self.next_id == old(self).next_id,
                forall|j: int|
                    i <= j < n ==> #[trigger] self.model()[j] == t[j],
                forall|j: int|
                    0 <= j < i ==> #[trigger] self.model()[j] == mark_missing_model(
                        t,
                        backend@,
                        scan_start as int,
                    )[j],
        {
            let ghost mpre = self.model();
            let touch = self.rows[i].backend_name == *backend && self.rows[i].scanned_at
                < scan_start && self.rows[i].unavailable_since.is_none();
            if touch {
                let mut row = File {
                    id: 0,
                    backend_name: String::new(),
                    key: String::new(),
                    pending_auto_match: false,
                    unavailable_since: None,
                    edition_name: None,
                    size_bytes: None,
                    scanned_at: 0,
                };
                self.rows.set_and_swap(i, &mut row);
                row.unavailable_since = Some(scan_start);
                self.rows.set_and_swap(i, &mut row);
            }
            proof {
                let mm = mark_missing_model(t, backend@, scan_start as int);
                assert forall|j: int| i + 1 <= j < n implies #[trigger] self.model()[j]
                    == t[j] by {
                    assert(mpre[j] == t[j]);
                    assert(self.model()[j] == mpre[j]);
                }
                assert forall|j: int| 0 <= j < i + 1 implies #[trigger] self.model()[j]
                    == mm[j] by {
                    if j < i {
                        assert(mpre[j] == mm[j]);
                        assert(self.model()[j] == mpre[j]);
                    } else {
                        assert(mpre[i as int] == t[i as int]);
                        if touch {
                            assert(self.model()[j] == RowModel {
                                unavailable: Some(scan_start as int),
                                ..t[j]
                            });
                        } else {
                            assert(self.model()[j] == mpre[j]);
                        }
                    }
                }
            }
        }
        proof {
            assert(self.model() =~= mark_missing_model(t, backend@, scan_start as int));
            assert(table_wf(self.model(), self.next_id as int)) by {
                let m = self.model();
                assert(forall|x: int|
                    0 <= x < m.len() ==> #[trigger] m[x].backend == t[x].backend && m[x].key
                        == t[x].key && m[x].id == t[x].id);
            }
        }
    }

    /// One whole scan pass over `backend`, started at `scan_start`, that saw
    /// exactly `entries` on disk: upserts every eligible entry, then marks
    /// the rows the pass did not sight.
    #[verifier::rlimit(60)]
    pub fn scan_pass(&mut self, backend: &String, scan_start: i64, entries: &Vec<ScanEntry>)
        requires
            old(self).wf(),
            old(self).next_id + entries@.len() <= i64::MAX,
            forall|i: int|
                0 <= i < entries@.len() ==> #[trigger] entries@[i].size_bytes <= i64::MAX as u64,
        ensures
            final(self).model() == pass_model(
                old(self).model(),
                old(self).next_id as int,
                backend@,
                scan_start as int,
                entries@.map_values(|e: ScanEntry| e.model()),
            ).0,
            final(self).next_id as int == pass_model(
                old(self).model(),
                old(self).next_id as int,
                backend@,
                scan_start as int,
                entries@.map_values(|e: ScanEntry| e.model()),
            ).1,
            final(self).wf(),
    {
        let ghost t0 = self.model();
        let ghost n0 = self.next_id as int;
        let ghost es = entries@.map_values(|e: ScanEntry| e.model());
        proof {
            assert(es.skip(0) =~= es);
        }
        let n = entries.len();
        for i in 0..n
            invariant
                n == entries@.len(),
                es == entries@.map_values(|e: ScanEntry| e.model()),
                es.len() == n,
                self.wf(),
                n0 + n <= i64::MAX,
                forall|j: int|
                    0 <= j < n ==> #[trigger] entries@[j].size_bytes <= i64::MAX as u64,
                self.next_id as int <= n0 + i,
                import_all(t0, n0, backend@, scan_start as int, es) == import_all(
                    self.model(),
                    self.next_id as int,
                    backend@,
                    scan_start as int,
                    es.skip(i as int),
                ),
        {
            let ghost tcur = self.model();
            let ghost ncur = self.next_id as int;
            proof {
                assert(es.skip(i as int)[0] == es[i as int]);
                assert(es.skip(i as int).drop_first() =~= es.skip(i as int + 1));
                assert(es[i as int] == entries@[i as int].model());
            }
            if should_import(entries[i].key.as_str(), entries[i].size_bytes) {
                self.upsert_scanned(backend, &entries[i].key, entries[i].size_bytes as i64, scan_start);
                proof {
                    assert(entry_eligible(es[i as int].key, es[i as int].size));
                    assert(self.model() == upsert_model(
                        tcur,
                        ncur,
                        backend@,
                        es[i as int].key,
                        es[i as int].size,
                        scan_start as int,
                    ));
                }
            } else {
                proof {
                    assert(!entry_eligible(es[i as int].key, es[i as int].size));
                }
            }
        }
        proof {
            assert(es.skip(n as int) =~= Seq::<EntryModel>::empty());
        }
        self.mark_missing(backend, scan_start);
    }

    /// The id of the next file waiting for a match: the flagged row with
    /// the smallest id, as the matcher works oldest first.
    pub fn next_pending(&self) -> (r: Option<i64>)
        ensures
            match r {
                Some(id) => (exists|i: int|
                    0 <= i < self.model().len() && #[trigger] self.model()[i].pending
                        && self.model()[i].id == id as int) && forall|i: int|
                    0 <= i < self.model().len() && #[trigger] self.model()[i].pending ==> id as int
                        <= self.model()[i].id,
                None => forall|i: int|
                    0 <= i < self.model().len() ==> !(#[trigger] self.model()[i].pending),
            },
    {
        let ghost m = self.model();
        let mut best: Option<i64> = None;
        let n = self.rows.len();
        for i in 0..n
            invariant
                n == self.rows.len(),
                m == self.model(),
                match best {
                    Some(id) => (exists|j: int|
                        0 <= j < i && #[trigger] m[j].pending && m[j].id == id as int) && forall|
                        j: int,
                    |
                        0 <= j < i && #[trigger] m[j].pending ==> id as int <= m[j].id,
                    None => forall|j: int| 0 <= j < i ==> !(#[trigger] m[j].pending),
                },
        {
            if self.rows[i].pending_auto_match {
                proof {
                    assert(m[i as int].pending);
                }
                match best {
                    Some(id) => {
                        if self.rows[i].id < id {
                            best = Some(self.rows[i].id);
                        }
                    },
                    None => {
                        best = Some(self.rows[i].id);
                    },
                }
            }
        }
        best
    }

    /// Marks the file matched: clears its `pending_auto_match` flag.
    pub fn clear_pending(&mut self, file_id: i64)
        requires
            old(self).wf(),
        ensures
            final(self).model().len() == old(self).model().len(),
            forall|i: int|
                0 <= i < old(self).model().len() ==> #[trigger] final(self).model()[i] == (
                if old(self).model()[i].id == file_id as int {
                    RowModel { pending: false, ..old(self).model()[i] }
                } else {
                    old(self).model()[i]
                }),
            final(self).next_id == old(self).next_id,
            final(self).wf(),
    {
        let ghost t = self.model();
        let n = self.rows.len();
        for i in 0..n
            invariant
                n == self.rows.len(),
                t.len() == n,
                t == old(self).model(),
                self.next_id == old(self).next_id,
                forall|j: int| i <= j < n ==> #[trigger] self.model()[j] == t[j],
                forall|j: int|
                    0 <= j < i ==> #[trigger] self.model()[j] == (if t[j].id == file_id as int {
                        RowModel { pending: false, ..t[j] }
                    } else {
                        t[j]
                    }),
        {
            let ghost mpre = self.model();
            if self.rows[i].id == file_id {
                let mut row = File {
                    id: 0,
                    backend_name: String::new(),
                    key: String::new(),
                    pending_auto_match: false,
                    unavailable_since: None,
                    edition_name: None,
                    size_bytes: None,
                    scanned_at: 0,
                };
                self.rows.set_and_swap(i, &mut row);
                row.pending_auto_match = false;
                self.rows.set_and_swap(i, &mut row);
            }
            proof {
                assert forall|j: int| i + 1 <= j < n implies #[trigger] self.model()[j]
                    == t[j] by {
                    assert(mpre[j] == t[j]);
                    assert(self.model()[j] == mpre[j]);
                }
                assert forall|j: int| 0 <= j < i + 1 implies #[trigger] self.model()[j] == (
                if t[j].id == file_id as int {
                    RowModel { pending: false, ..t[j] }
                } else {
                    t[j]
                }) by {
                    if j < i {
                        assert(self.model()[j] == mpre[j]);
                        assert(mpre[j] == (if t[j].id == file_id as int {
                            RowModel { pending: false, ..t[j] }
                        } else {
                            t[j]
                        }));
                    } else {
                        assert(mpre[i as int] == t[i as int]);
                    }
                }
            }
        }
        proof {
            assert(table_wf(self.model(), self.next_id as int)) by {
                let m = self.model();
                assert(forall|x: int|
                    0 <= x < m.len() ==> #[trigger] m[x].backend == t[x].backend && m[x].key
                        == t[x].key && m[x].id == t[x].id);
            }
        }
    }
}

/// A row with the time of its last sighting blanked: the part of a row the
/// scanner's idempotence speaks of.
pub open spec fn row_logical(r: RowModel) -> RowModel {
    RowModel { scanned_at: 0, ..r }
}

/// The unique index carrying `(b, k)` in a well-formed table.
proof fn lemma_key_idx_is(t: Seq<RowModel>, n: int, b: Seq<char>, k: Seq<char>, i: int)
    requires
        table_wf(t, n),
        key_at(t, i, b, k),
    ensures
        key_idx(t, b, k) == i,
{
    let j = key_idx(t, b, k);
    assert(key_at(t, j, b, k));
    if j < i {
        assert(!(t[j].backend == t[i].backend && t[j].key == t[i].key));
    } else if j > i {
        assert(!(t[i].backend == t[j].backend && t[i].key == t[j].key));
    }
}

/// What one upsert makes of a well-formed table, row by row.
proof fn lemma_upsert_model(
    t: Seq<RowModel>,
    n: int,
    b: Seq<char>,
    k: Seq<char>,
    size: int,
    start: int,
)
    requires
        table_wf(t, n),
    ensures
        ({
            let t1 = upsert_model(t, n, b, k, size, start);
            let n1 = upsert_next_model(t, n, b, k);
            &&& table_wf(t1, n1)
            &&& n <= n1
            &&& t.len() <= t1.len()
            &&& (has_key(t, b, k) ==> t1.len() == t.len() && n1 == n)
            &&& (!has_key(t, b, k) ==> t1.len() == t.len() + 1 && n1 == n + 1 && t1[t.len() as int]
                == fresh_row(n, b, k, size, start))
            &&& forall|i: int|
                0 <= i < t.len() ==> #[trigger] t1[i] == (if key_at(t, i, b, k) {
                    resighted(t[i], size, start)
                } else {
                    t[i]
                })
            &&& has_key(t1, b, k)
        }),
{
    let t1 = upsert_model(t, n, b, k, size, start);
    let n1 = upsert_next_model(t, n, b, k);
    if has_key(t, b, k) {
        let idx = key_idx(t, b, k);
        assert(key_at(t, idx, b, k));
        assert forall|i: int| 0 <= i < t.len() implies #[trigger] t1[i] == (if key_at(t, i, b, k) {
            resighted(t[i], size, start)
        } else {
            t[i]
        }) by {
            if key_at(t, i, b, k) {
                lemma_key_idx_is(t, n, b, k, i);
            }
        }
        assert(key_at(t1, idx, b, k));
        assert(table_wf(t1, n1)) by {
            assert(forall|x: int|
                0 <= x < t1.len() ==> #[trigger] t1[x].backend == t[x].backend && t1[x].key
                    == t[x].key && t1[x].id == t[x].id);
        }
    } else {
        assert forall|i: int| 0 <= i < t.len() implies #[trigger] t1[i] == (if key_at(t, i, b, k) {
            resighted(t[i], size, start)
        } else {
            t[i]
        }) by {
            assert(!key_at(t, i, b, k));
        }
        assert(t1[t.len() as int] == fresh_row(n, b, k, size, start));
        assert(key_at(t1, t.len() as int, b, k));
        assert(table_wf(t1, n1)) by {
            assert forall|x: int| 0 <= x < t.len() implies !(#[trigger] t[x].backend == b
                && t[x].key == k) by {
                assert(!key_at(t, x, b, k));
            }
            assert forall|i: int, j: int| 0 <= i < j < t1.len() implies !(#[trigger] t1[i].backend
                == #[trigger] t1[j].backend && t1[i].key == t1[j].key) by {
                if j < t.len() {
                    assert(t1[i] == t[i] && t1[j] == t[j]);
                } else {
                    assert(t1[i] == t[i]);
                }
            }
            assert forall|i: int, j: int| 0 <= i < j < t1.len() implies t1[i].id != t1[j].id by {
                if j < t.len() {
                    assert(t1[i] == t[i] && t1[j] == t[j]);
                } else {
                    assert(t1[i] == t[i]);
                }
            }
            assert forall|i: int| 0 <= i < t1.len() implies 0 <= #[trigger] t1[i].id < n1 by {
                if i < t.len() {
                    assert(t1[i] == t[i]);
                }
            }
        }
    }
}

/// What importing a whole entry list makes of a well-formed table: sighted
/// rows are refreshed, unseen rows are untouched, and new keys are appended
/// as fresh rows. When every sighted key is already present, nothing is
/// appended.
#[verifier::rlimit(100)]
#[verifier::spinoff_prover]
proof fn lemma_import_all_effect(
    t: Seq<RowModel>,
    n: int,
    b: Seq<char>,
    start: int,
    es: Seq<EntryModel>,
)
    requires
        table_wf(t, n),
    ensures
        ({
            let (t1, n1) = import_all(t, n, b, start, es);
            &&& table_wf(t1, n1)
            &&& t.len() <= t1.len()
            &&& n <= n1
            &&& forall|i: int|
                0 <= i < t.len() ==> #[trigger] t1[i] == expected_update(t[i], b, start, es)
            &&& forall|i: int|
                t.len() <= i < t1.len() ==> #[trigger] t1[i].backend == b && t1[i].pending
                    && t1[i].unavailable is None && t1[i].edition is None && t1[i].scanned_at
                    == start && touched(es, t1[i].key) && t1[i].size == Some(
                    last_size(es, t1[i].key),
                )
            &&& forall|kk: Seq<char>| #[trigger] touched(es, kk) ==> has_key(t1, b, kk)
            &&& ((forall|kk: Seq<char>| #[trigger] touched(es, kk) ==> has_key(t, b, kk)) ==> (
            t1.len() == t.len() && n1 == n))
        }),
    decreases es.len(),
{
    let (t1, n1) = import_all(t, n, b, start, es);
    if es.len() == 0 {
        assert forall|i: int| 0 <= i < t.len() implies #[trigger] t1[i] == expected_update(
            t[i],
            b,
            start,
            es,
        ) by {
            assert(!touched(es, t[i].key));
        }
    } else {
        let e = es[0];
        let rest = es.drop_first();
        if entry_eligible(e.key, e.size) {
            let ta = upsert_model(t, n, b, e.key, e.size, start);
            let na = upsert_next_model(t, n, b, e.key);
            lemma_upsert_model(t, n, b, e.key, e.size, start);
            lemma_import_all_effect(ta, na, b, start, rest);
            assert((t1, n1) == import_all(ta, na, b, start, rest));
            assert(touched(es, e.key));

            // old rows of `t`
            assert forall|i: int| 0 <= i < t.len() implies #[trigger] t1[i] == expected_update(
                t[i],
                b,
                start,
                es,
            ) by {
                assert(t1[i] == expected_update(ta[i], b, start, rest));
                if key_at(t, i, b, e.key) {
                    assert(ta[i] == resighted(t[i], e.size, start));
                    if touched(rest, e.key) {
                        assert(last_size(es, e.key) == last_size(rest, e.key));
                    } else {
                        assert(expected_update(ta[i], b, start, rest) == ta[i]);
                        assert(last_size(es, e.key) == e.size);
                    }
                } else {
                    assert(ta[i] == t[i]);
                    if t[i].backend == b {
                        if t[i].key == e.key {
                            assert(key_at(t, i, b, e.key));
                            assert(false);
                        }
                        assert(touched(es, t[i].key) == touched(rest, t[i].key));
                        if touched(rest, t[i].key) {
                            assert(last_size(es, t[i].key) == last_size(rest, t[i].key));
                        }
                    } else {
                        assert(expected_update(t[i], b, start, rest) == t[i]);
                        assert(expected_update(t[i], b, start, es) == t[i]);
                    }
                }
            }

            // appended rows
            assert forall|i: int| t.len() <= i < t1.len() implies #[trigger] t1[i].backend == b
                && t1[i].pending && t1[i].unavailable is None && t1[i].edition is None
                && t1[i].scanned_at == start && touched(es, t1[i].key) && t1[i].size == Some(
                last_size(es, t1[i].key),
            ) by {
                if i < ta.len() {
                    // only in the push case: the row pushed for `e` itself
                    assert(!has_key(t, b, e.key));
                    assert(ta[i] == fresh_row(n, b, e.key, e.size, start));
                    assert(t1[i] == expected_update(ta[i], b, start, rest));
                    if touched(rest, e.key) {
                        assert(last_size(es, e.key) == last_size(rest, e.key));
                    } else {
                        assert(last_size(es, e.key) == e.size);
                    }
                } else {
                    // appended during the recursive call
                    assert(ta.len() <= i < import_all(ta, na, b, start, rest).0.len());
                    assert(import_all(ta, na, b, start, rest).0[i].backend == b);
                    assert(t1[i].backend == b && t1[i].pending && t1[i].unavailable is None
                        && t1[i].edition is None && t1[i].scanned_at == start && touched(
                        rest,
                        t1[i].key,
                    ) && t1[i].size == Some(last_size(rest, t1[i].key)));
                    if t1[i].key == e.key {
                        // impossible: `e.key` is already in `ta`, and `t1`
                        // stays well formed
                        let w = choose|w: int| key_at(ta, w, b, e.key);
                        assert(key_at(ta, w, b, e.key));
                        assert(t1[w] == expected_update(ta[w], b, start, rest));
                        assert(key_at(t1, w, b, e.key));
                        assert(w < ta.len() <= i);
                        assert(!(t1[w].backend == t1[i].backend && t1[w].key == t1[i].key));
                        assert(false);
                    }
                    assert(touched(es, t1[i].key));
                    assert(last_size(es, t1[i].key) == last_size(rest, t1[i].key));
                }
            }

            // every sighted key ends up present
            assert forall|kk: Seq<char>| #[trigger] touched(es, kk) implies has_key(t1, b, kk) by {
                if kk == e.key {
                    let w = choose|w: int| key_at(ta, w, b, e.key);
                    assert(key_at(ta, w, b, e.key));
                    assert(t1[w] == expected_update(ta[w], b, start, rest));
                    assert(key_at(t1, w, b, kk));
                } else {
                    assert(touched(rest, kk));
                }
            }

            // nothing appended when every sighted key is already present
            if forall|kk: Seq<char>| #[trigger] touched(es, kk) ==> has_key(t, b, kk) {
                assert(has_key(t, b, e.key));
                assert forall|kk: Seq<char>| #[trigger] touched(rest, kk) implies has_key(
                    ta,
                    b,
                    kk,
                ) by {
                    assert(touched(es, kk));
                    assert(has_key(t, b, kk));
                    let w = choose|w: int| key_at(t, w, b, kk);
                    assert(key_at(t, w, b, kk));
                    assert(ta[w] == (if key_at(t, w, b, e.key) {
                        resighted(t[w], e.size, start)
                    } else {
                        t[w]
                    }));
                    assert(key_at(ta, w, b, kk));
                }
            }
        } else {
            lemma_import_all_effect(t, n, b, start, rest);
            assert((t1, n1) == import_all(t, n, b, start, rest));
            assert forall|kk: Seq<char>| touched(es, kk) == touched(rest, kk) by {}
            assert forall|i: int| 0 <= i < t.len() implies #[trigger] t1[i] == expected_update(
                t[i],
                b,
                start,
                es,
            ) by {
                assert(t1[i] == expected_update(t[i], b, start, rest));
                if touched(rest, t[i].key) {
                    assert(last_size(es, t[i].key) == last_size(rest, t[i].key));
                }
            }
            assert forall|i: int| t.len() <= i < t1.len() implies #[trigger] t1[i].backend == b
                && t1[i].pending && t1[i].unavailable is None && t1[i].edition is None
                && t1[i].scanned_at == start && touched(es, t1[i].key) && t1[i].size == Some(
                last_size(es, t1[i].key),
            ) by {
                assert(t1[i].backend == b && t1[i].pending && t1[i].unavailable is None
                    && t1[i].edition is None && t1[i].scanned_at == start && touched(
                    rest,
                    t1[i].key,
                ) && t1[i].size == Some(last_size(rest, t1[i].key)));
                assert(last_size(es, t1[i].key) == last_size(rest, t1[i].key));
            }
        }
    }
}

/// Marking preserves well-formedness.
proof fn lemma_mark_missing_wf(t: Seq<RowModel>, n: int, b: Seq<char>, start: int)
    requires
        table_wf(t, n),
    ensures
        table_wf(mark_missing_model(t, b, start), n),
        mark_missing_model(t, b, start).len() == t.len(),
{
    let m = mark_missing_model(t, b, start);
    assert(forall|x: int|
        0 <= x < m.len() ==> #[trigger] m[x].backend == t[x].backend && m[x].key == t[x].key
            && m[x].id == t[x].id);
}

/// The shared core of the two rescan laws: a second pass over unchanged
/// content touches nothing but sighting times.
#[verifier::rlimit(100)]
#[verifier::spinoff_prover]
proof fn lemma_rescan_core(
    t: Seq<RowModel>,
    n: int,
    b: Seq<char>,
    s1: int,
    s2: int,
    es: Seq<EntryModel>,
)
    requires
        table_wf(t, n),
        forall|i: int| 0 <= i < t.len() ==> #[trigger] t[i].scanned_at < s1,
        s1 < s2,
    ensures
        ({
            let (t1, n1) = pass_model(t, n, b, s1, es);
            let (t2, n2) = pass_model(t1, n1, b, s2, es);
            &&& n2 == n1
            &&& t2.len() == t1.len()
            &&& forall|i: int|
                0 <= i < t1.len() ==> #[trigger] row_logical(t2[i]) == row_logical(t1[i])
        }),
{
    let (t1i, n1) = import_all(t, n, b, s1, es);
    let t1 = mark_missing_model(t1i, b, s1);
    lemma_import_all_effect(t, n, b, s1, es);
    lemma_mark_missing_wf(t1i, n1, b, s1);
    let (t2i, n2) = import_all(t1, n1, b, s2, es);
    let t2 = mark_missing_model(t2i, b, s2);
    lemma_import_all_effect(t1, n1, b, s2, es);

    // every key the pass sights is already present after the first pass
    assert forall|kk: Seq<char>| #[trigger] touched(es, kk) implies has_key(t1, b, kk) by {
        assert(has_key(t1i, b, kk));
        let w = choose|w: int| key_at(t1i, w, b, kk);
        assert(key_at(t1i, w, b, kk));
        assert(t1[w].backend == t1i[w].backend && t1[w].key == t1i[w].key);
        assert(key_at(t1, w, b, kk));
    }
    assert(t2i.len() == t1.len() && n2 == n1);

    assert forall|i: int| 0 <= i < t1.len() implies #[trigger] row_logical(t2[i]) == row_logical(
        t1[i],
    ) by {
        assert(t2i[i] == expected_update(t1[i], b, s2, es));
        assert(t2[i] == (if t2i[i].backend == b && t2i[i].scanned_at < s2 && t2i[i].unavailable
            is None {
            RowModel { unavailable: Some(s2), ..t2i[i] }
        } else {
            t2i[i]
        }));
        assert(t1[i] == (if t1i[i].backend == b && t1i[i].scanned_at < s1 && t1i[i].unavailable
            is None {
            RowModel { unavailable: Some(s1), ..t1i[i] }
        } else {
            t1i[i]
        }));
        if i < t.len() {
            assert(t1i[i] == expected_update(t[i], b, s1, es));
            assert(t[i].scanned_at < s1);
            if t[i].backend == b && touched(es, t[i].key) {
                // sighted by both passes: only the sighting time moves
                assert(t1[i] == t1i[i]);
                assert(t2i[i] == RowModel {
                    size: Some(last_size(es, t1[i].key)),
                    scanned_at: s2,
                    unavailable: None,
                    ..t1[i]
                });
                assert(t2[i] == t2i[i]);
            } else {
                // unseen by both passes: marked once, then left alone
                assert(t1i[i] == t[i]);
                assert(t2i[i] == t1[i]);
                if t1[i].backend == b && t1[i].scanned_at < s2 && t1[i].unavailable is None {
                    assert(false);
                }
                assert(t2[i] == t1[i]);
            }
        } else {
            // appended by the first pass: sighted again by the second
            assert(t1i[i].backend == b && t1i[i].pending && t1i[i].unavailable is None
                && t1i[i].edition is None && t1i[i].scanned_at == s1 && touched(es, t1i[i].key)
                && t1i[i].size == Some(last_size(es, t1i[i].key)));
            assert(t1[i] == t1i[i]);
            assert(t2i[i] == RowModel {
                size: Some(last_size(es, t1[i].key)),
                scanned_at: s2,
                unavailable: None,
                ..t1[i]
            });
            assert(t2[i] == t2i[i]);
        }
    }
}

/// Two consecutive passes over unchanged content list the same rows: the
/// second pass keeps every identity, id and flag of the first — in
/// particular, no row's `pending_auto_match` flips back on.
pub proof fn lemma_rescan_same_rows(
    t: Seq<RowModel>,
    n: int,
    b: Seq<char>,
    s1: int,
    s2: int,
    es: Seq<EntryModel>,
)
    requires
        table_wf(t, n),
        forall|i: int| 0 <= i < t.len() ==> #[trigger] t[i].scanned_at < s1,
        s1 < s2,
    ensures
        ({
            let (t1, n1) = pass_model(t, n, b, s1, es);
            let (t2, n2) = pass_model(t1, n1, b, s2, es);
            &&& t2.len() == t1.len()
            &&& forall|i: int|
                0 <= i < t1.len() ==> #[trigger] t2[i].backend == t1[i].backend && t2[i].key
                    == t1[i].key && t2[i].id == t1[i].id && t2[i].pending == t1[i].pending
        }),
{
    lemma_rescan_core(t, n, b, s1, s2, es);
    let (t1, n1) = pass_model(t, n, b, s1, es);
    let (t2, n2) = pass_model(t1, n1, b, s2, es);
    assert forall|i: int| 0 <= i < t1.len() implies #[trigger] t2[i].backend == t1[i].backend
        && t2[i].key == t1[i].key && t2[i].id == t1[i].id && t2[i].pending == t1[i].pending by {
        assert(row_logical(t2[i]) == row_logical(t1[i]));
        assert(row_logical(t2[i]).backend == t2[i].backend);
    }
}

/// Rescanning unchanged content is a logical no-op: apart from the fresh
/// sighting times, the second pass returns the catalog it was given, and
/// allocates no id.
pub proof fn lemma_rescan_idempotent(
    t: Seq<RowModel>,
    n: int,
    b: Seq<char>,
    s1: int,
    s2: int,
    es: Seq<EntryModel>,
)
    requires
        table_wf(t, n),
        forall|i: int| 0 <= i < t.len() ==> #[trigger] t[i].scanned_at < s1,
        s1 < s2,
    ensures
        ({
            let (t1, n1) = pass_model(t, n, b, s1, es);
            let (t2, n2) = pass_model(t1, n1, b, s2, es);
            &&& n2 == n1
            &&& t2.map_values(|r: RowModel| row_logical(r)) == t1.map_values(
                |r: RowModel| row_logical(r),
            )
        }),
{
    lemma_rescan_core(t, n, b, s1, s2, es);
    let (t1, n1) = pass_model(t, n, b, s1, es);
    let (t2, n2) = pass_model(t1, n1, b, s2, es);
    assert(t2.map_values(|r: RowModel| row_logical(r)) =~= t1.map_values(
        |r: RowModel| row_logical(r),
    ));
}

/// What one pass leaves behind, key by key: every sighted key has a row,
/// freshly stamped and available, inserted flagged for matching where the
/// key is new; and every old row of the backend whose key went unsighted
/// is marked unavailable as of the pass. A file renamed on disk thus
/// shows up as a new pending row while its old name's row goes
/// unavailable.
pub proof fn lemma_pass_sightings(
    t: Seq<RowModel>,
    n: int,
    b: Seq<char>,
    start: int,
    es: Seq<EntryModel>,
)
    requires
        table_wf(t, n),
        forall|i: int| 0 <= i < t.len() ==> #[trigger] t[i].scanned_at < start,
    ensures
        ({
            let (t2, n2) = pass_model(t, n, b, start, es);
            &&& t.len() <= t2.len()
            &&& forall|k: Seq<char>| #[trigger] touched(es, k) ==> has_key(t2, b, k)
            &&& forall|k: Seq<char>|
                #[trigger] touched(es, k) ==> {
                    let i = key_idx(t2, b, k);
                    &&& t2[i].scanned_at == start
                    &&& t2[i].unavailable is None
                    &&& (!has_key(t, b, k) ==> t2[i].pending)
                }
            &&& forall|i: int|
                0 <= i < t.len() && (#[trigger] t[i].backend) == b && !touched(es, t[i].key)
                    ==> t2[i] == (if t[i].unavailable is None {
                    RowModel { unavailable: Some(start), ..t[i] }
                } else {
                    t[i]
                })
        }),
{
    let (t1, n1) = import_all(t, n, b, start, es);
    let (t2, n2) = pass_model(t, n, b, start, es);
    lemma_import_all_effect(t, n, b, start, es);
    lemma_mark_missing_wf(t1, n1, b, start);
    assert(t2 == mark_missing_model(t1, b, start));

    assert forall|k: Seq<char>| #[trigger] touched(es, k) implies has_key(t2, b, k) && {
        let i = key_idx(t2, b, k);
        &&& t2[i].scanned_at == start
        &&& t2[i].unavailable is None
        &&& (!has_key(t, b, k) ==> t2[i].pending)
    } by {
        assert(has_key(t1, b, k));
        let w = choose|w: int| key_at(t1, w, b, k);
        assert(key_at(t1, w, b, k));
        if w < t.len() {
            assert(t1[w] == expected_update(t[w], b, start, es));
            assert(t1[w].backend == t[w].backend && t1[w].key == t[w].key);
            assert(t[w].backend == b && t[w].key == k);
            assert(t1[w] == RowModel {
                size: Some(last_size(es, k)),
                scanned_at: start,
                unavailable: None,
                ..t[w]
            });
            if !has_key(t, b, k) {
                assert(key_at(t, w, b, k));
                assert(false);
            }
        } else {
            assert(t1[w].backend == b && t1[w].pending && t1[w].unavailable is None
                && t1[w].scanned_at == start);
        }
        assert(t2[w] == t1[w]);
        assert(key_at(t2, w, b, k));
        lemma_key_idx_is(t2, n1, b, k, w);
    }

    assert forall|i: int|
        0 <= i < t.len() && (#[trigger] t[i].backend) == b && !touched(es, t[i].key) implies t2[i]
        == (if t[i].unavailable is None {
        RowModel { unavailable: Some(start), ..t[i] }
    } else {
        t[i]
    }) by {
        assert(t1[i] == expected_update(t[i], b, start, es));
        assert(t1[i] == t[i]);
        assert(t[i].scanned_at < start);
    }
}

/// A row is only ever marked unavailable by a pass that no longer sighted
/// it: after any pass, a row carrying `unavailable_since = u` either was
/// already carrying it, or was marked by this very pass, whose start time
/// `u` is newer than the row's last sighting.
pub proof fn lemma_unavailable_only_when_missed(
    t: Seq<RowModel>,
    n: int,
    b: Seq<char>,
    start: int,
    es: Seq<EntryModel>,
)
    requires
        table_wf(t, n),
    ensures
        ({
            let (t2, n2) = pass_model(t, n, b, start, es);
            forall|i: int|
                0 <= i < t2.len() ==> match #[trigger] t2[i].unavailable {
                    Some(u) => (u == start && t2[i].scanned_at < start) || (0 <= i < t.len()
                        && t[i].unavailable == Some(u)),
                    None => true,
                }
        }),
{
    let (t1, n1) = import_all(t, n, b, start, es);
    let (t2, n2) = pass_model(t, n, b, start, es);
    lemma_import_all_effect(t, n, b, start, es);
    assert forall|i: int| 0 <= i < t2.len() implies match #[trigger] t2[i].unavailable {
        Some(u) => (u == start && t2[i].scanned_at < start) || (0 <= i < t.len()
            && t[i].unavailable == Some(u)),
        None => true,
    } by {
        assert(t2[i] == (if t1[i].backend == b && t1[i].scanned_at < start && t1[i].unavailable
            is None {
            RowModel { unavailable: Some(start), ..t1[i] }
        } else {
            t1[i]
        }));
        if t2[i].unavailable is Some {
            if !(t1[i].backend == b && t1[i].scanned_at < start && t1[i].unavailable is None) {
                if i < t.len() {
                    assert(t1[i] == expected_update(t[i], b, start, es));
                }
            }
        }
    }
}

} // verus!
