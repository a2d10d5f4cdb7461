//! The catalog's media rows and their links to files.
//!
//! A [`MediaCatalog`] models the `media` and `media_connection` tables:
//! media rows are unique per natural key `(tmdb_parent_id, tmdb_item_id)`,
//! links are unique per `(media_id, file_id)` and only ever name rows that
//! exist. The matcher writes through [`MediaCatalog::upsert_media`] and
//! [`MediaCatalog::connect`].

use crate::dates::{date_epoch, date_info};
use crate::scanner::{FileTable, RowModel};
use crate::tmdb::{image_url, MovieDetails, TvEpisode, TvShowDetails, TvSeasonDetails,
    TMDB_IMAGE_BASE_URL};
use vstd::pervasive::VecAdditionalExecFns;
use vstd::prelude::*;

verus! {

/// The variant of a media row.
#[derive(Clone, Copy, PartialEq, Eq, Structural)]
pub enum MediaType {
    Movie,
    Show,
    Episode,
}

/// One media row. The rating is carried in thousandths of a vote point.
pub struct MediaRow {
    pub id: i64,
    pub name: String,
    pub description: Option<String>,
    pub poster_url: Option<String>,
    pub background_url: Option<String>,
    pub thumbnail_url: Option<String>,
    pub parent_id: Option<i64>,
    pub media_type: MediaType,
    pub tmdb_parent_id: i64,
    pub tmdb_item_id: i64,
    pub imdb_parent_id: Option<String>,
    pub rating_milli: Option<i64>,
    pub start_date: Option<i64>,
    pub end_date: Option<i64>,
    pub runtime_minutes: Option<i64>,
    pub season_number: Option<i64>,
    pub episode_number: Option<i64>,
}

/// One link between a media row and a file row.
pub struct MediaConnection {
    pub media_id: i64,
    pub file_id: i64,
}

/// The mathematical image of one media row.
pub struct MediaModel {
    pub id: int,
    pub name: Seq<char>,
    pub description: Option<Seq<char>>,
    pub poster: Option<Seq<char>>,
    pub background: Option<Seq<char>>,
    pub thumbnail: Option<Seq<char>>,
    pub parent: Option<int>,
    pub media_type: MediaType,
    pub tmdb_parent: int,
    pub tmdb_item: int,
    pub imdb_parent: Option<Seq<char>>,
    pub rating: Option<int>,
    pub start_date: Option<int>,
    pub end_date: Option<int>,
    pub runtime: Option<int>,
    pub season: Option<int>,
    pub episode: Option<int>,
}

pub open spec fn opt_view(o: Option<String>) -> Option<Seq<char>> {
    match o {
        Some(s) => Some(s@),
        None => None,
    }
}

pub open spec fn opt_int(o: Option<i64>) -> Option<int> {
    match o {
        Some(v) => Some(v as int),
        None => None,
    }
}

impl MediaRow {
    pub open spec fn model(self) -> MediaModel {
        MediaModel {
            id: self.id as int,
            name: self.name@,
            description: opt_view(self.description),
            poster: opt_view(self.poster_url),
            background: opt_view(self.background_url),
            thumbnail: opt_view(self.thumbnail_url),
            parent: opt_int(self.parent_id),
            media_type: self.media_type,
            tmdb_parent: self.tmdb_parent_id as int,
            tmdb_item: self.tmdb_item_id as int,
            imdb_parent: opt_view(self.imdb_parent_id),
            rating: opt_int(self.rating_milli),
            start_date: opt_int(self.start_date),
            end_date: opt_int(self.end_date),
            runtime: opt_int(self.runtime_minutes),
            season: opt_int(self.season_number),
            episode: opt_int(self.episode_number),
        }
    }
}

/// Row `i` of `t` carries the natural key `(pid, iid)`.
pub open spec fn media_key_at(t: Seq<MediaModel>, i: int, pid: int, iid: int) -> bool {
    &&& 0 <= i < t.len()
    &&& t[i].tmdb_parent == pid
    &&& t[i].tmdb_item == iid
}

pub open spec fn media_has_key(t: Seq<MediaModel>, pid: int, iid: int) -> bool {
    exists|i: int| media_key_at(t, i, pid, iid)
}

pub open spec fn media_key_idx(t: Seq<MediaModel>, pid: int, iid: int) -> int {
    choose|i: int| media_key_at(t, i, pid, iid)
}

/// Episodes carry their numbering; movies and shows do not.
pub open spec fn numbering_ok(r: MediaModel) -> bool {
    match r.media_type {
        MediaType::Episode => r.season is Some && r.episode is Some,
        _ => r.season is None && r.episode is None,
    }
}

/// Natural keys unique, ids unique and below `next_id`, numbering sound.
pub open spec fn media_wf(t: Seq<MediaModel>, next_id: int) -> bool {
    &&& 0 <= next_id
    &&& forall|i: int, j: int|
        0 <= i < j < t.len() ==> !(#[trigger] t[i].tmdb_parent == #[trigger] t[j].tmdb_parent
            && t[i].tmdb_item == t[j].tmdb_item)
    &&& forall|i: int, j: int| 0 <= i < j < t.len() ==> t[i].id != t[j].id
    &&& forall|i: int| 0 <= i < t.len() ==> 0 <= #[trigger] t[i].id < next_id
    &&& forall|i: int| 0 <= i < t.len() ==> numbering_ok(#[trigger] t[i])
}

/// A row refreshed by an upsert keeps its id, variant, parentage and
/// numbering; only the descriptive columns take the draft's values.
pub open spec fn refreshed(r: MediaModel, d: MediaModel) -> MediaModel {
    MediaModel {
        name: d.name,
        description: d.description,
        rating: d.rating,
        start_date: d.start_date,
        runtime: d.runtime,
        poster: d.poster,
        background: d.background,
        ..r
    }
}

/// The media table after upserting the draft `d` (whose `id` is ignored).
pub open spec fn upsert_media_model(t: Seq<MediaModel>, next_id: int, d: MediaModel) -> Seq<
    MediaModel,
> {
    if media_has_key(t, d.tmdb_parent, d.tmdb_item) {
        let i = media_key_idx(t, d.tmdb_parent, d.tmdb_item);
        t.update(i, refreshed(t[i], d))
    } else {
        t.push(MediaModel { id: next_id, ..d })
    }
}

pub open spec fn upsert_media_next(t: Seq<MediaModel>, next_id: int, d: MediaModel) -> int {
    if media_has_key(t, d.tmdb_parent, d.tmdb_item) {
        next_id
    } else {
        next_id + 1
    }
}

/// The id the upsert reports: the existing row's, or the fresh one.
pub open spec fn upsert_media_id(t: Seq<MediaModel>, next_id: int, d: MediaModel) -> int {
    if media_has_key(t, d.tmdb_parent, d.tmdb_item) {
        t[media_key_idx(t, d.tmdb_parent, d.tmdb_item)].id
    } else {
        next_id
    }
}

/// The link list after an idempotent insert of `(m, f)`.
pub open spec fn connect_model(c: Seq<(int, int)>, m: int, f: int) -> Seq<(int, int)> {
    if c.contains((m, f)) {
        c
    } else {
        c.push((m, f))
    }
}

/// The link `p` names a media row and a file row that exist.
pub open spec fn link_ok(p: (int, int), media: Seq<MediaModel>, files: Seq<RowModel>) -> bool {
    &&& exists|j: int| 0 <= j < media.len() && #[trigger] media[j].id == p.0
    &&& exists|j: int| 0 <= j < files.len() && #[trigger] files[j].id == p.1
}

/// Every link names a media row and a file row that exist.
pub open spec fn links_wf(c: Seq<(int, int)>, media: Seq<MediaModel>, files: Seq<RowModel>) -> bool {
    forall|i: int| 0 <= i < c.len() ==> link_ok(#[trigger] c[i], media, files)
}

/// The media side of the catalog store.
pub struct MediaCatalog {
    pub media_rows: Vec<MediaRow>,
    pub connections: Vec<MediaConnection>,
    pub next_media_id: i64,
}

impl MediaCatalog {
    pub open spec fn media_model(self) -> Seq<MediaModel> {
        self.media_rows@.map(|i: int, r: MediaRow| r.model())
    }

    pub open spec fn conns_model(self) -> Seq<(int, int)> {
        self.connections@.map(|i: int, c: MediaConnection| (c.media_id as int, c.file_id as int))
    }

    pub open spec fn wf(self) -> bool {
        media_wf(self.media_model(), self.next_media_id as int)
    }

    /// Every link of this catalog names rows that exist, with files drawn
    /// from `files`.
    pub open spec fn links_ok(self, files: Seq<RowModel>) -> bool {
        links_wf(self.conns_model(), self.media_model(), files)
    }

    pub fn new() -> (r: MediaCatalog)
        ensures
            r.media_model() =~= Seq::<MediaModel>::empty(),
            r.conns_model() =~= Seq::<(int, int)>::empty(),
            r.wf(),
            forall|files: Seq<RowModel>| r.links_ok(files),
            r.next_media_id == 1,
    {
        let r = MediaCatalog { media_rows: Vec::new(), connections: Vec::new(), next_media_id: 1 };
        proof {
            assert(r.media_model() =~= Seq::<MediaModel>::empty());
            assert(r.conns_model() =~= Seq::<(int, int)>::empty());
            assert forall|files: Seq<RowModel>| r.links_ok(files) by {
                assert(r.conns_model().len() == 0);
            }
        }
        r
    }

    fn find_media(&self, tmdb_parent_id: i64, tmdb_item_id: i64) -> (r: Option<usize>)
        ensures
            match r {
                Some(i) => media_key_at(
                    self.media_model(),
                    i as int,
                    tmdb_parent_id as int,
                    tmdb_item_id as int,
                ),
                None => !media_has_key(
                    self.media_model(),
                    tmdb_parent_id as int,
                    tmdb_item_id as int,
                ),
            },
    {
        let ghost m = self.media_model();
        let n = self.media_rows.len();
        for i in 0..n
            invariant
                n == self.media_rows.len(),
                m == self.media_model(),
                forall|j: int|
                    0 <= j < i ==> !media_key_at(m, j, tmdb_parent_id as int, tmdb_item_id as int),
        {
            if self.media_rows[i].tmdb_parent_id == tmdb_parent_id && self.media_rows[i].tmdb_item_id
                == tmdb_item_id {
                assert(media_key_at(m, i as int, tmdb_parent_id as int, tmdb_item_id as int));
                return Some(i);
            }
            assert(!media_key_at(m, i as int, tmdb_parent_id as int, tmdb_item_id as int));
        }
        return None;
    }

    /// Writes the draft `d` (its `id` is ignored): refreshes the columns of
    /// the row carrying `d`'s natural key, or inserts `d` as a fresh row.
    /// Reports the id of the row written.
    pub fn upsert_media(&mut self, d: MediaRow) -> (id: i64)
        requires
            old(self).wf(),
            old(self).next_media_id < i64::MAX,
            numbering_ok(d.model()),
        ensures
            final(self).media_model() == upsert_media_model(
                old(self).media_model(),
                old(self).next_media_id as int,
                d.model(),
            ),
            final(self).next_media_id as int == upsert_media_next(
                old(self).media_model(),
                old(self).next_media_id as int,
                d.model(),
            ),
            id as int == upsert_media_id(
                old(self).media_model(),
                old(self).next_media_id as int,
                d.model(),
            ),
            final(self).conns_model() == old(self).conns_model(),
            final(self).wf(),
            media_has_key(final(self).media_model(), d.model().tmdb_parent, d.model().tmdb_item),
            exists|j: int|
                0 <= j < final(self).media_model().len() && #[trigger] final(self).media_model()[j].id == id as int,
            forall|files: Seq<RowModel>|
                old(self).links_ok(files) ==> #[trigger] final(self).links_ok(files),
    {
        let ghost t = self.media_model();
        let ghost next0 = self.next_media_id as int;
        match self.find_media(d.tmdb_parent_id, d.tmdb_item_id) {
            Some(i) => {
                proof {
                    let j = media_key_idx(t, d.tmdb_parent_id as int, d.tmdb_item_id as int);
                    assert(media_key_at(t, j, d.tmdb_parent_id as int, d.tmdb_item_id as int));
                    if j != i as int {
                        if j < i as int {
                            assert(!(t[j].tmdb_parent == t[i as int].tmdb_parent && t[j].tmdb_item
                                == t[i as int].tmdb_item));
                        } else {
                            assert(!(t[i as int].tmdb_parent == t[j].tmdb_parent
                                && t[i as int].tmdb_item == t[j].tmdb_item));
                        }
                    }
                }
                let mut hold = MediaRow {
                    id: 0,
                    name: String::new(),
                    description: None,
                    poster_url: None,
                    background_url: None,
                    thumbnail_url: None,
                    parent_id: None,
                    media_type: MediaType::Movie,
                    tmdb_parent_id: 0,
                    tmdb_item_id: 0,
                    imdb_parent_id: None,
                    rating_milli: None,
                    start_date: None,
                    end_date: None,
                    runtime_minutes: None,
                    season_number: None,
                    episode_number: None,
                };
                self.media_rows.set_and_swap(i, &mut hold);
                let old_row = hold;
                let id = old_row.id;
                // the descriptive columns take the draft's values; the rest
                // stays with the row
                let mut put = d;
                put.id = old_row.id;
                put.thumbnail_url = old_row.thumbnail_url;
                put.parent_id = old_row.parent_id;
                put.media_type = old_row.media_type;
                put.imdb_parent_id = old_row.imdb_parent_id;
                put.end_date = old_row.end_date;
                put.season_number = old_row.season_number;
                put.episode_number = old_row.episode_number;
                put.tmdb_parent_id = old_row.tmdb_parent_id;
                put.tmdb_item_id = old_row.tmdb_item_id;
                let mut put2 = put;
                self.media_rows.set_and_swap(i, &mut put2);
                proof {
                    assert(self.media_model() =~= upsert_media_model(t, next0, d.model()));
                    assert(media_key_at(
                        self.media_model(),
                        i as int,
                        d.model().tmdb_parent,
                        d.model().tmdb_item,
                    ));
                    assert(self.media_model()[i as int].id == id as int);
                    assert(media_wf(self.media_model(), self.next_media_id as int)) by {
                        let m = self.media_model();
                        assert(forall|x: int|
                            0 <= x < m.len() ==> #[trigger] m[x].tmdb_parent == t[x].tmdb_parent
                                && m[x].tmdb_item == t[x].tmdb_item && m[x].id == t[x].id);
                        assert(numbering_ok(m[i as int]));
                        assert(forall|x: int|
                            0 <= x < m.len() && x != i as int ==> #[trigger] m[x] == t[x]);
                    }
                    assert(self.conns_model() =~= old(self).conns_model());
                    assert forall|files: Seq<RowModel>| old(self).links_ok(files)
                        implies #[trigger] self.links_ok(files) by {
                        assert(forall|x: int|
                            0 <= x < t.len() ==> #[trigger] self.media_model()[x].id == t[x].id);
                        lemma_links_preserved(
                            old(self).conns_model(),
                            t,
                            self.media_model(),
                            files,
                        );
                    }
                }
                id
            },
            None => {
                let id = self.next_media_id;
                let mut row = d;
                row.id = id;
                self.media_rows.push(row);
                self.next_media_id = self.next_media_id + 1;
                proof {
                    assert(self.media_model() =~= upsert_media_model(t, next0, d.model()));
                    assert(media_key_at(
                        self.media_model(),
                        t.len() as int,
                        d.model().tmdb_parent,
                        d.model().tmdb_item,
                    ));
                    assert(self.media_model()[t.len() as int].id == id as int);
                    assert(media_wf(self.media_model(), self.next_media_id as int)) by {
                        let m = self.media_model();
                        assert(forall|x: int| 0 <= x < t.len() ==> #[trigger] m[x] == t[x]);
                        assert forall|x: int| 0 <= x < t.len() implies !(#[trigger] t[x].tmdb_parent
                            == d.model().tmdb_parent && t[x].tmdb_item == d.model().tmdb_item) by {
                            assert(!media_key_at(t, x, d.model().tmdb_parent, d.model().tmdb_item));
                        }
                        assert(numbering_ok(m[t.len() as int]));
                    }
                    assert(self.conns_model() =~= old(self).conns_model());
                    assert forall|files: Seq<RowModel>| old(self).links_ok(files)
                        implies #[trigger] self.links_ok(files) by {
                        assert(forall|x: int|
                            0 <= x < t.len() ==> #[trigger] self.media_model()[x].id == t[x].id);
                        lemma_links_preserved(
                            old(self).conns_model(),
                            t,
                            self.media_model(),
                            files,
                        );
                    }
                }
                id
            },
        }
    }

    /// Links a media row to a file row; doing it twice is the same as once.
    pub fn connect(&mut self, media_id: i64, file_id: i64, files: &FileTable)
        requires
            old(self).wf(),
            old(self).links_ok(files.model()),
            exists|j: int|
                0 <= j < old(self).media_model().len() && #[trigger] old(self).media_model()[j].id == media_id as int,
            exists|j: int|
                0 <= j < files.model().len() && #[trigger] files.model()[j].id == file_id as int,
        ensures
            final(self).conns_model() == connect_model(
                old(self).conns_model(),
                media_id as int,
                file_id as int,
            ),
            final(self).media_model() == old(self).media_model(),
            final(self).next_media_id == old(self).next_media_id,
            final(self).wf(),
            final(self).links_ok(files.model()),
    {
        let ghost c = self.conns_model();
        let n = self.connections.len();
        for i in 0..n
            invariant
                self == old(self),
                old(self).wf(),
                old(self).links_ok(files.model()),
                n == self.connections.len(),
                c == self.conns_model(),
                forall|j: int| 0 <= j < i ==> c[j] != (media_id as int, file_id as int),
        {
            if self.connections[i].media_id == media_id && self.connections[i].file_id == file_id {
                proof {
                    assert(c[i as int] == (media_id as int, file_id as int));
                    assert(c.contains((media_id as int, file_id as int)));
                    assert(connect_model(c, media_id as int, file_id as int) == c);
                }
                return ;
            }
            assert(c[i as int] != (media_id as int, file_id as int));
        }
        proof {
            if c.contains((media_id as int, file_id as int)) {
                let w = choose|w: int| 0 <= w < c.len() && c[w] == (media_id as int, file_id as int);
                assert(c[w] != (media_id as int, file_id as int));
            }
        }
        self.connections.push(MediaConnection { media_id, file_id });
        proof {
            assert(self.conns_model() =~= c.push((media_id as int, file_id as int)));
            assert(links_wf(self.conns_model(), self.media_model(), files.model())) by {
                let cc = self.conns_model();
                assert forall|x: int| 0 <= x < cc.len() implies link_ok(
                    #[trigger] cc[x],
                    self.media_model(),
                    files.model(),
                ) by {
                    if x < c.len() {
                        assert(cc[x] == c[x]);
                        assert(link_ok(c[x], self.media_model(), files.model()));
                    } else {
                        assert(cc[x] == (media_id as int, file_id as int));
                    }
                }
            }
        }
    }
}

/// The links of `c` whose file side is `f`, in order.
pub open spec fn links_of_file(c: Seq<(int, int)>, f: int) -> Seq<(int, int)>
    decreases c.len(),
{
    if c.len() == 0 {
        Seq::<(int, int)>::empty()
    } else {
        links_of_file(c.drop_last(), f) + if c.last().1 == f {
            seq![c.last()]
        } else {
            Seq::<(int, int)>::empty()
        }
    }
}

/// The links of `c` whose media side is `m`, in order.
pub open spec fn links_of_media(c: Seq<(int, int)>, m: int) -> Seq<(int, int)>
    decreases c.len(),
{
    if c.len() == 0 {
        Seq::<(int, int)>::empty()
    } else {
        links_of_media(c.drop_last(), m) + if c.last().0 == m {
            seq![c.last()]
        } else {
            Seq::<(int, int)>::empty()
        }
    }
}

impl MediaCatalog {
    /// The links of one file, in insertion order.
    pub fn find_by_file_id(&self, file_id: i64) -> (r: Vec<MediaConnection>)
        ensures
            r@.map(|i: int, c: MediaConnection| (c.media_id as int, c.file_id as int))
                == links_of_file(self.conns_model(), file_id as int),
    {
        let ghost cm = self.conns_model();
        let mut r: Vec<MediaConnection> = Vec::new();
        let n = self.connections.len();
        for i in 0..n
            invariant
                n == self.connections@.len(),
                cm == self.conns_model(),
                r@.map(|k: int, c: MediaConnection| (c.media_id as int, c.file_id as int))
                    == links_of_file(cm.take(i as int), file_id as int),
        {
            proof {
                assert(cm.take(i as int + 1).drop_last() =~= cm.take(i as int));
                assert(cm.take(i as int + 1).last() == cm[i as int]);
            }
            if self.connections[i].file_id == file_id {
                r.push(
                    MediaConnection {
                        media_id: self.connections[i].media_id,
                        file_id: self.connections[i].file_id,
                    },
                );
            }
            proof {
                assert(r@.map(
                    |k: int, c: MediaConnection| (c.media_id as int, c.file_id as int),
                ) =~= links_of_file(cm.take(i as int + 1), file_id as int));
            }
        }
        proof {
            assert(cm.take(n as int) =~= cm);
        }
        r
    }

    /// The links of one media row, in insertion order.
    pub fn find_by_media_id(&self, media_id: i64) -> (r: Vec<MediaConnection>)
        ensures
            r@.map(|i: int, c: MediaConnection| (c.media_id as int, c.file_id as int))
                == links_of_media(self.conns_model(), media_id as int),
    {
        let ghost cm = self.conns_model();
        let mut r: Vec<MediaConnection> = Vec::new();
        let n = self.connections.len();
        for i in 0..n
            invariant
                n == self.connections@.len(),
                cm == self.conns_model(),
                r@.map(|k: int, c: MediaConnection| (c.media_id as int, c.file_id as int))
                    == links_of_media(cm.take(i as int), media_id as int),
        {
            proof {
                assert(cm.take(i as int + 1).drop_last() =~= cm.take(i as int));
                assert(cm.take(i as int + 1).last() == cm[i as int]);
            }
            if self.connections[i].media_id == media_id {
                r.push(
                    MediaConnection {
                        media_id: self.connections[i].media_id,
                        file_id: self.connections[i].file_id,
                    },
                );
            }
            proof {
                assert(r@.map(
                    |k: int, c: MediaConnection| (c.media_id as int, c.file_id as int),
                ) =~= links_of_media(cm.take(i as int + 1), media_id as int));
            }
        }
        proof {
            assert(cm.take(n as int) =~= cm);
        }
        r
    }
}

/// Clones an optional string, keeping its characters.
pub fn clone_opt_string(o: &Option<String>) -> (r: Option<String>)
    ensures
        opt_view(r) == opt_view(*o),
{
    match o {
        Some(s) => Some(s.clone()),
        None => None,
    }
}

/// Copies an optional integer.
pub fn copy_opt_i64(o: &Option<i64>) -> (r: Option<i64>)
    ensures
        r == *o,
{
    match o {
        Some(v) => Some(*v),
        None => None,
    }
}

/// The full image URL for an optional catalog image path.
pub fn opt_image_url(p: &Option<String>) -> (r: Option<String>)
    ensures
        opt_view(r) == opt_image(*p),
{
    match p {
        Some(s) => Some(image_url(s.as_str())),
        None => None,
    }
}

/// The epoch second of an optional catalog date.
pub fn opt_date_epoch(s: &Option<String>) -> (r: Option<i64>)
    ensures
        opt_int(r) == opt_epoch(*s),
{
    match s {
        Some(d) => date_epoch(d.as_str()),
        None => None,
    }
}

/// The image URL a catalog path maps to, if any.
pub open spec fn opt_image(p: Option<String>) -> Option<Seq<char>> {
    match p {
        Some(s) => Some(TMDB_IMAGE_BASE_URL@ + s@),
        None => None,
    }
}

/// The epoch second a catalog date string maps to, if it parses.
pub open spec fn opt_epoch(s: Option<String>) -> Option<int> {
    match s {
        Some(d) => match date_info(d@) {
            Some(p) => Some(p.1 as int),
            None => None,
        },
        None => None,
    }
}

/// The media row a matched movie is written as.
pub open spec fn movie_draft(m: MovieDetails) -> MediaModel {
    MediaModel {
        id: 0,
        name: m.title@,
        description: opt_view(m.overview),
        poster: opt_image(m.poster_path),
        background: opt_image(m.backdrop_path),
        thumbnail: None,
        parent: None,
        media_type: MediaType::Movie,
        tmdb_parent: m.id as int,
        tmdb_item: m.id as int,
        imdb_parent: None,
        rating: opt_int(m.vote_average_milli),
        start_date: opt_epoch(m.release_date),
        end_date: None,
        runtime: opt_int(m.runtime),
        season: None,
        episode: None,
    }
}

/// The media row a matched show is written as. A show that is still in
/// production carries no end date.
pub open spec fn show_draft(s: TvShowDetails) -> MediaModel {
    MediaModel {
        id: 0,
        name: s.name@,
        description: opt_view(s.overview),
        poster: opt_image(s.poster_path),
        background: opt_image(s.backdrop_path),
        thumbnail: None,
        parent: None,
        media_type: MediaType::Show,
        tmdb_parent: s.id as int,
        tmdb_item: s.id as int,
        imdb_parent: None,
        rating: opt_int(s.vote_average_milli),
        start_date: opt_epoch(s.first_air_date),
        end_date: if s.in_production {
            None
        } else {
            opt_epoch(s.last_air_date)
        },
        runtime: None,
        season: None,
        episode: None,
    }
}

/// The media row one episode of a matched show is written as.
pub open spec fn episode_draft(
    show_tmdb: int,
    parent_row: int,
    season_number: int,
    e: TvEpisode,
) -> MediaModel {
    MediaModel {
        id: 0,
        name: e.name@,
        description: opt_view(e.overview),
        poster: None,
        background: None,
        thumbnail: opt_image(e.still_path),
        parent: Some(parent_row),
        media_type: MediaType::Episode,
        tmdb_parent: show_tmdb,
        tmdb_item: e.id as int,
        imdb_parent: None,
        rating: opt_int(e.vote_average_milli),
        start_date: opt_epoch(e.air_date),
        end_date: None,
        runtime: opt_int(e.runtime),
        season: Some(season_number),
        episode: Some(e.episode_number as int),
    }
}

/// Whether the parsed file name claims episode number `n`.
pub open spec fn wanted_episode(wanted: Seq<i32>, n: int) -> bool {
    exists|k: int| 0 <= k < wanted.len() && wanted[k] == n
}

/// Whether `v` holds an episode number equal to `n`.
fn wanted_contains(v: &Vec<i32>, n: i64) -> (r: bool)
    ensures
        r == wanted_episode(v@, n as int),
{
    let m = v.len();
    for i in 0..m
        invariant
            m == v@.len(),
            forall|j: int| 0 <= j < i ==> v@[j] != n as int,
    {
        if v[i] as i64 == n {
            proof {
                assert(v@[i as int] == n as int);
            }
            return true;
        }
        assert(v@[i as int] != n as int);
    }
    proof {
        if wanted_episode(v@, n as int) {
            let w = choose|k: int| 0 <= k < v@.len() && v@[k] == n as int;
            assert(v@[w] != n as int);
        }
    }
    false
}

fn build_movie_draft(m: &MovieDetails) -> (d: MediaRow)
    ensures
        d.model() == movie_draft(*m),
{
    MediaRow {
        id: 0,
        name: m.title.clone(),
        description: clone_opt_string(&m.overview),
        poster_url: opt_image_url(&m.poster_path),
        background_url: opt_image_url(&m.backdrop_path),
        thumbnail_url: None,
        parent_id: None,
        media_type: MediaType::Movie,
        tmdb_parent_id: m.id,
        tmdb_item_id: m.id,
        imdb_parent_id: None,
        rating_milli: copy_opt_i64(&m.vote_average_milli),
        start_date: opt_date_epoch(&m.release_date),
        end_date: None,
        runtime_minutes: copy_opt_i64(&m.runtime),
        season_number: None,
        episode_number: None,
    }
}

fn build_show_draft(s: &TvShowDetails) -> (d: MediaRow)
    ensures
        d.model() == show_draft(*s),
{
    MediaRow {
        id: 0,
        name: s.name.clone(),
        description: clone_opt_string(&s.overview),
        poster_url: opt_image_url(&s.poster_path),
        background_url: opt_image_url(&s.backdrop_path),
        thumbnail_url: None,
        parent_id: None,
        media_type: MediaType::Show,
        tmdb_parent_id: s.id,
        tmdb_item_id: s.id,
        imdb_parent_id: None,
        rating_milli: copy_opt_i64(&s.vote_average_milli),
        start_date: opt_date_epoch(&s.first_air_date),
        end_date: if s.in_production {
            None
        } else {
            opt_date_epoch(&s.last_air_date)
        },
        runtime_minutes: None,
        season_number: None,
        episode_number: None,
    }
}

fn build_episode_draft(show_tmdb: i64, parent_row: i64, season_number: i64, e: &TvEpisode) -> (d:
    MediaRow)
    ensures
        d.model() == episode_draft(show_tmdb as int, parent_row as int, season_number as int, *e),
{
    MediaRow {
        id: 0,
        name: e.name.clone(),
        description: clone_opt_string(&e.overview),
        poster_url: None,
        background_url: None,
        thumbnail_url: opt_image_url(&e.still_path),
        parent_id: Some(parent_row),
        media_type: MediaType::Episode,
        tmdb_parent_id: show_tmdb,
        tmdb_item_id: e.id,
        imdb_parent_id: None,
        rating_milli: copy_opt_i64(&e.vote_average_milli),
        start_date: opt_date_epoch(&e.air_date),
        end_date: None,
        runtime_minutes: copy_opt_i64(&e.runtime),
        season_number: Some(season_number),
        episode_number: Some(e.episode_number),
    }
}

/// The catalog after writing one season of a matched show, episode by
/// episode: every episode of the season is upserted, and the file is linked
/// to exactly the episodes its name claims.
pub open spec fn eps_apply(
    media: Seq<MediaModel>,
    next: int,
    conns: Seq<(int, int)>,
    show_tmdb: int,
    parent_row: int,
    season_number: int,
    eps: Seq<TvEpisode>,
    wanted: Seq<i32>,
    f: int,
) -> (Seq<MediaModel>, int, Seq<(int, int)>)
    decreases eps.len(),
{
    if eps.len() == 0 {
        (media, next, conns)
    } else {
        let d = episode_draft(show_tmdb, parent_row, season_number, eps[0]);
        let m1 = upsert_media_model(media, next, d);
        let n1 = upsert_media_next(media, next, d);
        let id = upsert_media_id(media, next, d);
        let c1 = if wanted_episode(wanted, eps[0].episode_number as int) {
            connect_model(conns, id, f)
        } else {
            conns
        };
        eps_apply(m1, n1, c1, show_tmdb, parent_row, season_number, eps.drop_first(), wanted, f)
    }
}

/// The catalog after writing a whole show match: the show row first, then
/// the season's episodes.
pub open spec fn show_apply(
    media: Seq<MediaModel>,
    next: int,
    conns: Seq<(int, int)>,
    show: TvShowDetails,
    season_number: int,
    eps: Seq<TvEpisode>,
    wanted: Seq<i32>,
    f: int,
) -> (Seq<MediaModel>, int, Seq<(int, int)>) {
    let sd = show_draft(show);
    let m1 = upsert_media_model(media, next, sd);
    let n1 = upsert_media_next(media, next, sd);
    let sid = upsert_media_id(media, next, sd);
    eps_apply(m1, n1, conns, show.id as int, sid, season_number, eps, wanted, f)
}

impl MediaCatalog {
    /// Writes a movie match for `file_id`: upserts the movie row and links
    /// the file to it.
    pub fn apply_movie_match(&mut self, files: &FileTable, file_id: i64, m: &MovieDetails)
        requires
            old(self).wf(),
            old(self).links_ok(files.model()),
            old(self).next_media_id < i64::MAX,
            exists|j: int|
                0 <= j < files.model().len() && #[trigger] files.model()[j].id == file_id as int,
        ensures
            final(self).media_model() == upsert_media_model(
                old(self).media_model(),
                old(self).next_media_id as int,
                movie_draft(*m),
            ),
            final(self).conns_model() == connect_model(
                old(self).conns_model(),
                upsert_media_id(
                    old(self).media_model(),
                    old(self).next_media_id as int,
                    movie_draft(*m),
                ),
                file_id as int,
            ),
            final(self).next_media_id as int == upsert_media_next(
                old(self).media_model(),
                old(self).next_media_id as int,
                movie_draft(*m),
            ),
            final(self).wf(),
            final(self).links_ok(files.model()),
    {
        let d = build_movie_draft(m);
        let id = self.upsert_media(d);
        self.connect(id, file_id, files);
    }

    /// Writes a show match for `file_id`: upserts the show row, then every
    /// episode of the matched season, linking the file to exactly the
    /// episodes its name claims.
    pub fn apply_show_match(
        &mut self,
        files: &FileTable,
        file_id: i64,
        show: &TvShowDetails,
        season_number: i64,
        wanted: &Vec<i32>,
        season: &TvSeasonDetails,
    )
        requires
            old(self).wf(),
            old(self).links_ok(files.model()),
            old(self).next_media_id + 1 + season.episodes@.len() <= i64::MAX,
            exists|j: int|
                0 <= j < files.model().len() && #[trigger] files.model()[j].id == file_id as int,
        ensures
            ({
                let (m2, n2, c2) = show_apply(
                    old(self).media_model(),
                    old(self).next_media_id as int,
                    old(self).conns_model(),
                    *show,
                    season_number as int,
                    season.episodes@,
                    wanted@,
                    file_id as int,
                );
                &&& final(self).media_model() == m2
                &&& final(self).next_media_id as int == n2
                &&& final(self).conns_model() == c2
            }),
            final(self).wf(),
            final(self).links_ok(files.model()),
    {
        let ghost m0 = self.media_model();
        let ghost n0 = self.next_media_id as int;
        let ghost c0 = self.conns_model();
        let ghost eps = season.episodes@;
        let sd = build_show_draft(show);
        let sid = self.upsert_media(sd);
        let n = season.episodes.len();
        let ghost target = show_apply(
            m0,
            n0,
            c0,
            *show,
            season_number as int,
            eps,
            wanted@,
            file_id as int,
        );
        proof {
            assert(eps.skip(0) =~= eps);
        }
        for i in 0..n
            invariant
                n == season.episodes@.len(),
                eps == season.episodes@,
                self.wf(),
                self.links_ok(files.model()),
                exists|j: int|
                    0 <= j < files.model().len() && #[trigger] files.model()[j].id
                        == file_id as int,
                self.next_media_id as int <= n0 + 1 + i,
                n0 + 1 + n <= i64::MAX,
                target == eps_apply(
                    self.media_model(),
                    self.next_media_id as int,
                    self.conns_model(),
                    show.id as int,
                    sid as int,
                    season_number as int,
                    eps.skip(i as int),
                    wanted@,
                    file_id as int,
                ),
        {
            let ghost mcur = self.media_model();
            let ghost ncur = self.next_media_id as int;
            let ghost ccur = self.conns_model();
            proof {
                assert(eps.skip(i as int)[0] == eps[i as int]);
                assert(eps.skip(i as int).drop_first() =~= eps.skip(i as int + 1));
            }
            let d = build_episode_draft(show.id, sid, season_number, &season.episodes[i]);
            let id = self.upsert_media(d);
            if wanted_contains(wanted, season.episodes[i].episode_number) {
                self.connect(id, file_id, files);
            }
        }
        proof {
            assert(eps.skip(n as int) =~= Seq::<TvEpisode>::empty());
        }
    }
}

/// Matching the same file twice writes the same media row (same natural
/// key, same id) and the same link: one more upsert of the same draft and
/// one more link insert leave the catalog exactly as they found it.
pub proof fn lemma_match_write_idempotent(
    media: Seq<MediaModel>,
    next: int,
    conns: Seq<(int, int)>,
    d: MediaModel,
    f: int,
)
    requires
        media_wf(media, next),
        numbering_ok(d),
    ensures
        ({
            let m1 = upsert_media_model(media, next, d);
            let n1 = upsert_media_next(media, next, d);
            let id1 = upsert_media_id(media, next, d);
            let c1 = connect_model(conns, id1, f);
            &&& upsert_media_model(m1, n1, d) == m1
            &&& upsert_media_next(m1, n1, d) == n1
            &&& upsert_media_id(m1, n1, d) == id1
            &&& connect_model(c1, id1, f) == c1
        }),
{
    let m1 = upsert_media_model(media, next, d);
    let n1 = upsert_media_next(media, next, d);
    let id1 = upsert_media_id(media, next, d);
    let c1 = connect_model(conns, id1, f);
    lemma_upsert_media_wf(media, next, d);
    if media_has_key(media, d.tmdb_parent, d.tmdb_item) {
        let i = media_key_idx(media, d.tmdb_parent, d.tmdb_item);
        assert(media_key_at(media, i, d.tmdb_parent, d.tmdb_item));
        assert(media_key_at(m1, i, d.tmdb_parent, d.tmdb_item));
        lemma_media_key_idx_is(m1, n1, d.tmdb_parent, d.tmdb_item, i);
        assert(m1[i] == refreshed(media[i], d));
        assert(refreshed(m1[i], d) == m1[i]);
        assert(upsert_media_model(m1, n1, d) =~= m1);
    } else {
        let i = media.len() as int;
        assert(m1[i] == MediaModel { id: next, ..d });
        assert(media_key_at(m1, i, d.tmdb_parent, d.tmdb_item));
        lemma_media_key_idx_is(m1, n1, d.tmdb_parent, d.tmdb_item, i);
        assert(refreshed(m1[i], d) == m1[i]);
        assert(upsert_media_model(m1, n1, d) =~= m1);
    }
    assert(c1.contains((id1, f))) by {
        if conns.contains((id1, f)) {
            assert(c1 == conns);
        } else {
            assert(c1[conns.len() as int] == (id1, f));
        }
    }
}

/// The unique index carrying a natural key in a well-formed media table.
proof fn lemma_media_key_idx_is(t: Seq<MediaModel>, n: int, pid: int, iid: int, i: int)
    requires
        media_wf(t, n),
        media_key_at(t, i, pid, iid),
    ensures
        media_key_idx(t, pid, iid) == i,
{
    let j = media_key_idx(t, pid, iid);
    assert(media_key_at(t, j, pid, iid));
    if j < i {
        assert(!(t[j].tmdb_parent == t[i].tmdb_parent && t[j].tmdb_item == t[i].tmdb_item));
    } else if j > i {
        assert(!(t[i].tmdb_parent == t[j].tmdb_parent && t[i].tmdb_item == t[j].tmdb_item));
    }
}

/// One upsert keeps a media table well formed, keeps every row's identity
/// where it stands, touches no other row, and leaves the draft settled:
/// its row carries the draft's columns and the reported id.
proof fn lemma_upsert_media_wf(t: Seq<MediaModel>, n: int, d: MediaModel)
    requires
        media_wf(t, n),
        numbering_ok(d) || media_has_key(t, d.tmdb_parent, d.tmdb_item),
    ensures
        ({
            let t1 = upsert_media_model(t, n, d);
            let n1 = upsert_media_next(t, n, d);
            let i1 = media_key_idx(t1, d.tmdb_parent, d.tmdb_item);
            &&& media_wf(t1, n1)
            &&& t.len() <= t1.len()
            &&& forall|i: int|
                0 <= i < t.len() ==> #[trigger] t1[i].id == t[i].id && t1[i].tmdb_parent
                    == t[i].tmdb_parent && t1[i].tmdb_item == t[i].tmdb_item
            &&& forall|i: int|
                0 <= i < t.len() && !(t[i].tmdb_parent == d.tmdb_parent && t[i].tmdb_item
                    == d.tmdb_item) ==> #[trigger] t1[i] == t[i]
            &&& media_key_at(t1, i1, d.tmdb_parent, d.tmdb_item)
            &&& t1[i1].id == upsert_media_id(t, n, d)
            &&& t1[i1] == refreshed(t1[i1], d)
        }),
{
    let t1 = upsert_media_model(t, n, d);
    let n1 = upsert_media_next(t, n, d);
    lemma_upsert_media_wf_base(t, n, d);
    if media_has_key(t, d.tmdb_parent, d.tmdb_item) {
        let i = media_key_idx(t, d.tmdb_parent, d.tmdb_item);
        assert(media_key_at(t, i, d.tmdb_parent, d.tmdb_item));
        assert(media_key_at(t1, i, d.tmdb_parent, d.tmdb_item));
        lemma_media_key_idx_is(t1, n1, d.tmdb_parent, d.tmdb_item, i);
        assert(t1[i] == refreshed(t[i], d));
        assert forall|x: int| 0 <= x < t.len() && !(t[x].tmdb_parent == d.tmdb_parent
            && t[x].tmdb_item == d.tmdb_item) implies #[trigger] t1[x] == t[x] by {
            assert(x != i);
        }
    } else {
        let i = t.len() as int;
        assert(t1[i] == MediaModel { id: n, ..d });
        assert(media_key_at(t1, i, d.tmdb_parent, d.tmdb_item));
        lemma_media_key_idx_is(t1, n1, d.tmdb_parent, d.tmdb_item, i);
        assert(forall|x: int| 0 <= x < t.len() ==> #[trigger] t1[x] == t[x]);
    }
}

/// The well-formedness and identity-stability core of one upsert.
proof fn lemma_upsert_media_wf_base(t: Seq<MediaModel>, n: int, d: MediaModel)
    requires
        media_wf(t, n),
        numbering_ok(d) || media_has_key(t, d.tmdb_parent, d.tmdb_item),
    ensures
        ({
            let t1 = upsert_media_model(t, n, d);
            let n1 = upsert_media_next(t, n, d);
            &&& media_wf(t1, n1)
            &&& t.len() <= t1.len()
            &&& forall|i: int|
                0 <= i < t.len() ==> #[trigger] t1[i].id == t[i].id && t1[i].tmdb_parent
                    == t[i].tmdb_parent && t1[i].tmdb_item == t[i].tmdb_item
        }),
{
    let t1 = upsert_media_model(t, n, d);
    let n1 = upsert_media_next(t, n, d);
    if media_has_key(t, d.tmdb_parent, d.tmdb_item) {
        let i = media_key_idx(t, d.tmdb_parent, d.tmdb_item);
        assert(media_key_at(t, i, d.tmdb_parent, d.tmdb_item));
        assert(media_wf(t1, n1)) by {
            assert(forall|x: int|
                0 <= x < t1.len() ==> #[trigger] t1[x].tmdb_parent == t[x].tmdb_parent
                    && t1[x].tmdb_item == t[x].tmdb_item && t1[x].id == t[x].id);
            assert(numbering_ok(t1[i]));
            assert(forall|x: int| 0 <= x < t1.len() && x != i ==> #[trigger] t1[x] == t[x]);
        }
    } else {
        assert(media_wf(t1, n1)) by {
            assert(forall|x: int| 0 <= x < t.len() ==> #[trigger] t1[x] == t[x]);
            assert forall|x: int| 0 <= x < t.len() implies !(#[trigger] t[x].tmdb_parent
                == d.tmdb_parent && t[x].tmdb_item == d.tmdb_item) by {
                assert(!media_key_at(t, x, d.tmdb_parent, d.tmdb_item));
            }
            assert(numbering_ok(t1[t.len() as int]));
        }
    }
}

/// The draft `d` is already settled at row `i`: one more upsert of it
/// changes nothing and reports that row's id.
proof fn lemma_upsert_settled(t: Seq<MediaModel>, n: int, d: MediaModel, i: int)
    requires
        media_wf(t, n),
        media_key_at(t, i, d.tmdb_parent, d.tmdb_item),
        t[i] == refreshed(t[i], d),
    ensures
        upsert_media_model(t, n, d) == t,
        upsert_media_next(t, n, d) == n,
        upsert_media_id(t, n, d) == t[i].id,
{
    assert(media_has_key(t, d.tmdb_parent, d.tmdb_item));
    lemma_media_key_idx_is(t, n, d.tmdb_parent, d.tmdb_item, i);
    assert(upsert_media_model(t, n, d) =~= t);
}

/// The row `r` carries the natural key of one of the episodes.
pub open spec fn ep_key(show_tmdb: int, eps: Seq<TvEpisode>, r: MediaModel) -> bool {
    r.tmdb_parent == show_tmdb && exists|k: int| 0 <= k < eps.len() && #[trigger] eps[k].id as int
        == r.tmdb_item
}

/// The episode `e` is settled in the catalog: its row carries its draft's
/// columns, and where the file name claims it, its link is present.
pub open spec fn ep_settled(
    media: Seq<MediaModel>,
    conns: Seq<(int, int)>,
    show_tmdb: int,
    parent_row: int,
    season_number: int,
    e: TvEpisode,
    wanted: Seq<i32>,
    f: int,
) -> bool {
    let d = episode_draft(show_tmdb, parent_row, season_number, e);
    let i = media_key_idx(media, show_tmdb, e.id as int);
    &&& media_has_key(media, show_tmdb, e.id as int)
    &&& media_key_at(media, i, show_tmdb, e.id as int)
    &&& media[i] == refreshed(media[i], d)
    &&& (wanted_episode(wanted, e.episode_number as int) ==> conns.contains((media[i].id, f)))
}

/// What writing one season's episodes does: the catalog stays well
/// formed, every row keeps its identity, rows of other keys are untouched,
/// links only accumulate, and afterwards every episode is settled.
proof fn lemma_eps_apply_frame(
    media: Seq<MediaModel>,
    next: int,
    conns: Seq<(int, int)>,
    show_tmdb: int,
    parent_row: int,
    season_number: int,
    eps: Seq<TvEpisode>,
    wanted: Seq<i32>,
    f: int,
)
    requires
        media_wf(media, next),
        forall|a: int, b: int| 0 <= a < b < eps.len() ==> eps[a].id != eps[b].id,
    ensures
        ({
            let (m1, n1, c1) = eps_apply(
                media,
                next,
                conns,
                show_tmdb,
                parent_row,
                season_number,
                eps,
                wanted,
                f,
            );
            &&& media_wf(m1, n1)
            &&& media.len() <= m1.len()
            &&& forall|i: int|
                0 <= i < media.len() ==> #[trigger] m1[i].id == media[i].id && m1[i].tmdb_parent
                    == media[i].tmdb_parent && m1[i].tmdb_item == media[i].tmdb_item
            &&& forall|i: int|
                0 <= i < media.len() && !ep_key(show_tmdb, eps, media[i]) ==> #[trigger] m1[i]
                    == media[i]
            &&& forall|p: (int, int)| #[trigger] conns.contains(p) ==> c1.contains(p)
            &&& forall|k: int|
                0 <= k < eps.len() ==> #[trigger] ep_settled(
                    m1,
                    c1,
                    show_tmdb,
                    parent_row,
                    season_number,
                    eps[k],
                    wanted,
                    f,
                )
        }),
    decreases eps.len(),
{
    if eps.len() == 0 {
    } else {
        let e0 = eps[0];
        let d0 = episode_draft(show_tmdb, parent_row, season_number, e0);
        let ma = upsert_media_model(media, next, d0);
        let na = upsert_media_next(media, next, d0);
        let ida = upsert_media_id(media, next, d0);
        let ca = if wanted_episode(wanted, e0.episode_number as int) {
            connect_model(conns, ida, f)
        } else {
            conns
        };
        let rest = eps.drop_first();
        assert(numbering_ok(d0));
        lemma_upsert_media_wf(media, next, d0);
        assert(forall|a: int, b: int| 0 <= a < b < rest.len() ==> rest[a].id != rest[b].id) by {
            assert(forall|a: int| 0 <= a < rest.len() ==> #[trigger] rest[a] == eps[a + 1]);
        }
        lemma_eps_apply_frame(ma, na, ca, show_tmdb, parent_row, season_number, rest, wanted, f);
        let (m1, n1, c1) = eps_apply(
            media,
            next,
            conns,
            show_tmdb,
            parent_row,
            season_number,
            eps,
            wanted,
            f,
        );
        assert((m1, n1, c1) == eps_apply(
            ma,
            na,
            ca,
            show_tmdb,
            parent_row,
            season_number,
            rest,
            wanted,
            f,
        ));

        // untouched rows pass through both the first upsert and the rest
        assert forall|i: int|
            0 <= i < media.len() && !ep_key(show_tmdb, eps, media[i]) implies #[trigger] m1[i]
            == media[i] by {
            assert(!(media[i].tmdb_parent == show_tmdb && media[i].tmdb_item == e0.id as int))
                by {
                if media[i].tmdb_parent == show_tmdb && media[i].tmdb_item == e0.id as int {
                    assert(eps[0].id as int == media[i].tmdb_item);
                }
            }
            assert(ma[i] == media[i]);
            assert(!ep_key(show_tmdb, rest, ma[i])) by {
                if ep_key(show_tmdb, rest, ma[i]) {
                    let k = choose|k: int|
                        0 <= k < rest.len() && #[trigger] rest[k].id as int == ma[i].tmdb_item;
                    assert(eps[k + 1].id as int == media[i].tmdb_item);
                }
            }
        }

        // links only accumulate
        assert forall|p: (int, int)| #[trigger] conns.contains(p) implies c1.contains(p) by {
            assert(ca.contains(p)) by {
                if !conns.contains((ida, f)) && wanted_episode(wanted, e0.episode_number as int) {
                    let w = choose|w: int| 0 <= w < conns.len() && conns[w] == p;
                    assert(ca[w] == p);
                }
            }
        }

        // the first episode is settled right after its own step, and the
        // rest of the pass leaves its row and link alone
        assert(ep_settled(m1, c1, show_tmdb, parent_row, season_number, e0, wanted, f)) by {
            let ia = media_key_idx(ma, show_tmdb, e0.id as int);
            assert(media_key_at(ma, ia, show_tmdb, e0.id as int));
            assert(ma[ia] == refreshed(ma[ia], d0));
            assert(ma[ia].id == ida);
            assert(!ep_key(show_tmdb, rest, ma[ia])) by {
                if ep_key(show_tmdb, rest, ma[ia]) {
                    let k = choose|k: int|
                        0 <= k < rest.len() && #[trigger] rest[k].id as int == ma[ia].tmdb_item;
                    assert(eps[k + 1].id == eps[0].id);
                }
            }
            assert(m1[ia] == ma[ia]);
            assert(media_key_at(m1, ia, show_tmdb, e0.id as int));
            lemma_media_key_idx_is(m1, n1, show_tmdb, e0.id as int, ia);
            if wanted_episode(wanted, e0.episode_number as int) {
                assert(ca.contains((ida, f))) by {
                    if !conns.contains((ida, f)) {
                        assert(ca[conns.len() as int] == (ida, f));
                    }
                }
                assert(c1.contains((ida, f)));
            }
        }
        assert forall|k: int| 0 <= k < eps.len() implies #[trigger] ep_settled(
            m1,
            c1,
            show_tmdb,
            parent_row,
            season_number,
            eps[k],
            wanted,
            f,
        ) by {
            if k > 0 {
                assert(rest[k - 1] == eps[k]);
                assert(ep_settled(
                    m1,
                    c1,
                    show_tmdb,
                    parent_row,
                    season_number,
                    rest[k - 1],
                    wanted,
                    f,
                ));
            }
        }
    }
}

/// Writing a season whose episodes are all settled changes nothing.
proof fn lemma_eps_apply_noop(
    media: Seq<MediaModel>,
    next: int,
    conns: Seq<(int, int)>,
    show_tmdb: int,
    parent_row: int,
    season_number: int,
    eps: Seq<TvEpisode>,
    wanted: Seq<i32>,
    f: int,
)
    requires
        media_wf(media, next),
        forall|k: int|
            0 <= k < eps.len() ==> #[trigger] ep_settled(
                media,
                conns,
                show_tmdb,
                parent_row,
                season_number,
                eps[k],
                wanted,
                f,
            ),
    ensures
        eps_apply(media, next, conns, show_tmdb, parent_row, season_number, eps, wanted, f) == (
        media,
        next,
        conns,
        ),
    decreases eps.len(),
{
    if eps.len() > 0 {
        let e0 = eps[0];
        let d0 = episode_draft(show_tmdb, parent_row, season_number, e0);
        assert(ep_settled(media, conns, show_tmdb, parent_row, season_number, e0, wanted, f));
        let i = media_key_idx(media, show_tmdb, e0.id as int);
        lemma_upsert_settled(media, next, d0, i);
        if wanted_episode(wanted, e0.episode_number as int) {
            assert(connect_model(conns, media[i].id, f) == conns);
        }
        let rest = eps.drop_first();
        assert(forall|k: int|
            0 <= k < rest.len() ==> #[trigger] ep_settled(
                media,
                conns,
                show_tmdb,
                parent_row,
                season_number,
                rest[k],
                wanted,
                f,
            )) by {
            assert(forall|k: int| 0 <= k < rest.len() ==> #[trigger] rest[k] == eps[k + 1]);
        }
        lemma_eps_apply_noop(
            media,
            next,
            conns,
            show_tmdb,
            parent_row,
            season_number,
            rest,
            wanted,
            f,
        );
    }
}

/// Matching the same file to the same show twice writes the same rows and
/// links: the second pass finds the show row, every episode row and every
/// claimed link already in place, and leaves the catalog exactly as the
/// first pass left it.
pub proof fn lemma_show_match_idempotent(
    media: Seq<MediaModel>,
    next: int,
    conns: Seq<(int, int)>,
    show: TvShowDetails,
    season_number: int,
    eps: Seq<TvEpisode>,
    wanted: Seq<i32>,
    f: int,
)
    requires
        media_wf(media, next),
        forall|a: int, b: int| 0 <= a < b < eps.len() ==> eps[a].id != eps[b].id,
        forall|k: int| 0 <= k < eps.len() ==> #[trigger] eps[k].id != show.id,
    ensures
        ({
            let (m1, n1, c1) = show_apply(
                media,
                next,
                conns,
                show,
                season_number,
                eps,
                wanted,
                f,
            );
            show_apply(m1, n1, c1, show, season_number, eps, wanted, f) == (m1, n1, c1)
        }),
{
    let sd = show_draft(show);
    let ms = upsert_media_model(media, next, sd);
    let ns = upsert_media_next(media, next, sd);
    let sid = upsert_media_id(media, next, sd);
    assert(numbering_ok(sd));
    lemma_upsert_media_wf(media, next, sd);
    let is0 = media_key_idx(ms, show.id as int, show.id as int);
    assert(media_key_at(ms, is0, show.id as int, show.id as int));
    assert(ms[is0].id == sid);
    assert(ms[is0] == refreshed(ms[is0], sd));
    lemma_eps_apply_frame(ms, ns, conns, show.id as int, sid, season_number, eps, wanted, f);
    let (m1, n1, c1) = show_apply(media, next, conns, show, season_number, eps, wanted, f);
    assert((m1, n1, c1) == eps_apply(
        ms,
        ns,
        conns,
        show.id as int,
        sid,
        season_number,
        eps,
        wanted,
        f,
    ));

    // the show row is not an episode row, so the episode pass left it alone
    assert(!ep_key(show.id as int, eps, ms[is0])) by {
        if ep_key(show.id as int, eps, ms[is0]) {
            let k = choose|k: int|
                0 <= k < eps.len() && #[trigger] eps[k].id as int == ms[is0].tmdb_item;
            assert(eps[k].id != show.id);
        }
    }
    assert(m1[is0] == ms[is0]);
    assert(media_key_at(m1, is0, show.id as int, show.id as int));
    lemma_media_key_idx_is(m1, n1, show.id as int, show.id as int, is0);

    // the second pass's show upsert is a no-op reporting the same row id
    lemma_upsert_settled(m1, n1, sd, is0);
    assert(upsert_media_id(m1, n1, sd) == sid);

    // and its episode pass finds everything settled
    lemma_eps_apply_noop(m1, n1, c1, show.id as int, sid, season_number, eps, wanted, f);
}

/// Links stay sound when media rows keep their ids.
proof fn lemma_links_preserved(
    c: Seq<(int, int)>,
    m0: Seq<MediaModel>,
    m1: Seq<MediaModel>,
    files: Seq<RowModel>,
)
    requires
        links_wf(c, m0, files),
        m0.len() <= m1.len(),
        forall|i: int| 0 <= i < m0.len() ==> #[trigger] m1[i].id == m0[i].id,
    ensures
        links_wf(c, m1, files),
{
    assert forall|i: int| 0 <= i < c.len() implies link_ok(#[trigger] c[i], m1, files) by {
        assert(link_ok(c[i], m0, files));
        let w = choose|j: int| 0 <= j < m0.len() && #[trigger] m0[j].id == c[i].0;
        assert(m1[w].id == c[i].0);
    }
}

} // verus!
