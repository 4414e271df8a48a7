//! Playlist generation: which strategy a request takes, the mood pool,
//! the random and diverse selections, and the greedy expansion from seed
//! tracks, whose scoring of candidates is left to the caller.

use vstd::prelude::*;

use crate::models::{has_tag, key_view, TrackLabels};
use crate::rng::{choose_multiple_ids, choose_position, shuffle_ids};

verus! {

broadcast use vstd::seq_lib::group_seq_properties, vstd::multiset::group_multiset_properties;

/// The smaller of `count` and `len`.
pub open spec fn take_count(count: nat, len: nat) -> nat {
    if count < len { count } else { len }
}

/// The ids of the library tracks, in library order.
pub open spec fn library_ids(library: Seq<TrackLabels>) -> Seq<String>
    decreases library.len(),
{
    if library.len() == 0 {
        Seq::empty()
    } else {
        library_ids(library.drop_last()).push(library.last().id)
    }
}

/// Which tag list of a track a request matches against.
pub enum TagField {
    /// The mood tags.
    Mood,
    /// The activity tags.
    Activity,
}

/// The tags of `track` in the given list.
pub open spec fn field_tags(track: TrackLabels, field: TagField) -> Seq<Seq<char>> {
    match field {
        TagField::Mood => track.mood_tags.deep_view(),
        TagField::Activity => track.activity_tags.deep_view(),
    }
}

/// Whether a track carries `tag` in the given list.
pub open spec fn carries(track: TrackLabels, field: TagField, tag: Seq<char>) -> bool {
    field_tags(track, field).contains(tag)
}

/// The ids of the library tracks that carry the tag, in library order.
pub open spec fn tag_pool(library: Seq<TrackLabels>, field: TagField, tag: Seq<char>) -> Seq<String>
    decreases library.len(),
{
    if library.len() == 0 {
        Seq::empty()
    } else if carries(library.last(), field, tag) {
        tag_pool(library.drop_last(), field, tag).push(library.last().id)
    } else {
        tag_pool(library.drop_last(), field, tag)
    }
}

/// The ids of all library tracks.
pub fn track_ids(library: &Vec<TrackLabels>) -> (r: Vec<String>)
    ensures
        r@ == library_ids(library@),
{
    let mut r: Vec<String> = Vec::new();
    let mut i: usize = 0;
    while i < library.len()
        invariant
            i <= library.len(),
            r@ == library_ids(library@.take(i as int)),
        decreases library.len() - i,
    {
        assert(library@.take(i + 1).drop_last() =~= library@.take(i as int));
        r.push(library[i].id.clone());
        i = i + 1;
    }
    assert(library@.take(library.len() as int) =~= library@);
    r
}

/// The ids of the tracks that carry `tag` in the given list.
pub fn tracks_with_tag(library: &Vec<TrackLabels>, field: TagField, tag: &String) -> (r: Vec<String>)
    ensures
        r@ == tag_pool(library@, field, tag@),
        forall|i: int| 0 <= i < library@.len() && (match field {
            TagField::Mood => (#[trigger] library@[i]).mood_tags.deep_view().contains(tag@),
            TagField::Activity => library@[i].activity_tags.deep_view().contains(tag@),
        }) ==> r@.contains(library@[i].id),
        forall|id: String| #[trigger] r@.contains(id) ==> exists|i: int|
            0 <= i < library@.len() && #[trigger] library@[i].id == id && (match field {
                TagField::Mood => library@[i].mood_tags.deep_view().contains(tag@),
                TagField::Activity => library@[i].activity_tags.deep_view().contains(tag@),
            }),
{
    proof {
        lemma_tag_pool_exact(library@, field, tag@);
    }
    let mut r: Vec<String> = Vec::new();
    let mut i: usize = 0;
    while i < library.len()
        invariant
            i <= library.len(),
            r@ == tag_pool(library@.take(i as int), field, tag@),
        decreases library.len() - i,
    {
        assert(library@.take(i + 1).drop_last() =~= library@.take(i as int));
        let tags = match field {
            TagField::Mood => &library[i].mood_tags,
            TagField::Activity => &library[i].activity_tags,
        };
        if has_tag(tags, tag) {
            r.push(library[i].id.clone());
        }
        i = i + 1;
    }
    assert(library@.take(library.len() as int) =~= library@);
    r
}

/// Picks `min(count, pool.len())` ids from the pool at random, no pool
/// entry more often than it occurs in the pool.
pub fn select_random_tracks(ids: &Vec<String>, count: usize) -> (r: Vec<String>)
    ensures
        r@.len() == take_count(count as nat, ids@.len()),
        r@.to_multiset().subset_of(ids@.to_multiset()),
{
    let amount = if count < ids.len() { count } else { ids.len() };
    choose_multiple_ids(ids, amount)
}

/// Shuffles the pool and keeps its first `count` ids: `min(count,
/// pool.len())` ids, no pool entry more often than it occurs in the pool.
pub fn select_diverse_tracks(pool: &Vec<String>, count: usize) -> (r: Vec<String>)
    ensures
        r@.len() == take_count(count as nat, pool@.len()),
        r@.to_multiset().subset_of(pool@.to_multiset()),
{
    let mut shuffled = pool.clone();
    shuffle_ids(&mut shuffled);
    assert(shuffled@.len() == pool@.len()) by {
        vstd::seq_lib::to_multiset_len(shuffled@);
        vstd::seq_lib::to_multiset_len(pool@);
    }
    let n = if count < shuffled.len() { count } else { shuffled.len() };
    let mut r: Vec<String> = Vec::new();
    let mut i: usize = 0;
    while i < n
        invariant
            n <= shuffled@.len(),
            i <= n,
            r@ == shuffled@.take(i as int),
        decreases n - i,
    {
        r.push(shuffled[i].clone());
        assert(r@ =~= shuffled@.take(i + 1));
        i = i + 1;
    }
    proof {
        let rest = shuffled@.skip(n as int);
        assert(shuffled@ =~= r@ + rest);
        vstd::seq_lib::lemma_multiset_commutative(r@, rest);
    }
    r
}

/// Which way a playlist request is filled.
pub enum PlaylistStrategy {
    /// No seed track was found and a mood was asked for: fill from the
    /// tracks with that mood.
    ByMood,
    /// No seed track was found, no mood but an activity was asked for:
    /// fill from the tracks with that activity.
    ByActivity,
    /// Grow the playlist from the seed tracks that were found.
    FromSeeds,
    /// Pick tracks from the whole library at random.
    Random,
}

/// Chooses how a request is filled from the number of seed tracks found
/// and the requested mood and activity. A requested mood takes precedence
/// over a requested activity.
pub fn choose_strategy(seed_count: usize, mood: &Option<String>, activity: &Option<String>) -> (r: PlaylistStrategy)
    ensures
        seed_count > 0 ==> r is FromSeeds,
        seed_count == 0 && mood is Some ==> r is ByMood,
        seed_count == 0 && mood is None && activity is Some ==> r is ByActivity,
        seed_count == 0 && mood is None && activity is None ==> r is Random,
{
    if seed_count > 0 {
        PlaylistStrategy::FromSeeds
    } else if mood.is_some() {
        PlaylistStrategy::ByMood
    } else if activity.is_some() {
        PlaylistStrategy::ByActivity
    } else {
        PlaylistStrategy::Random
    }
}

/// Fills a playlist of `count` tracks for a mood or activity tag: when
/// some track carries the tag, a diverse pick among those tracks;
/// otherwise a random pick from the whole library.
pub fn playlist_by_tag(library: &Vec<TrackLabels>, field: TagField, tag: &String, count: usize) -> (r: Vec<String>)
    ensures
        tag_pool(library@, field, tag@).len() > 0 ==> {
            &&& r@.len() == take_count(count as nat, tag_pool(library@, field, tag@).len())
            &&& r@.to_multiset().subset_of(tag_pool(library@, field, tag@).to_multiset())
        },
        tag_pool(library@, field, tag@).len() == 0 ==> {
            &&& r@.len() == take_count(count as nat, library@.len())
            &&& r@.to_multiset().subset_of(library_ids(library@).to_multiset())
        },
{
    let matching = tracks_with_tag(library, field, tag);
    if matching.len() > 0 {
        select_diverse_tracks(&matching, count)
    } else {
        let ids = track_ids(library);
        proof {
            lemma_library_ids_len(library@);
        }
        select_random_tracks(&ids, count)
    }
}

/// The id list holds one id per library track.
pub proof fn lemma_library_ids_len(library: Seq<TrackLabels>)
    ensures
        library_ids(library).len() == library.len(),
    decreases library.len(),
{
    if library.len() > 0 {
        lemma_library_ids_len(library.drop_last());
    }
}

/// Whether `id` is the id of a library track that carries the tag.
pub open spec fn is_tagged_track(library: Seq<TrackLabels>, field: TagField, tag: Seq<char>, id: String) -> bool {
    exists|i: int| 0 <= i < library.len() && #[trigger] library[i].id == id && carries(library[i], field, tag)
}

/// Every id in a tag pool belongs to a library track that carries the tag.
pub proof fn lemma_tag_pool_members(library: Seq<TrackLabels>, field: TagField, tag: Seq<char>, id: String)
    requires
        tag_pool(library, field, tag).contains(id),
    ensures
        is_tagged_track(library, field, tag, id),
    decreases library.len(),
{
    let prev = library.drop_last();
    if carries(library.last(), field, tag) && id == library.last().id {
        assert(library[library.len() - 1].id == id);
    } else {
        if carries(library.last(), field, tag) {
            assert(tag_pool(prev, field, tag).contains(id)) by {
                let k = choose|k: int|
                    0 <= k < tag_pool(library, field, tag).len() && tag_pool(library, field, tag)[k] == id;
                assert(k < tag_pool(prev, field, tag).len());
                assert(tag_pool(prev, field, tag)[k] == id);
            }
        }
        lemma_tag_pool_members(prev, field, tag, id);
        let i = choose|i: int| 0 <= i < prev.len() && #[trigger] prev[i].id == id && carries(prev[i], field, tag);
        assert(library[i] == prev[i]);
    }
}

/// A playlist made for a mood or activity, when some track carries it,
/// holds only tracks that carry it.
pub proof fn lemma_tag_playlist_only_matching(
    library: Seq<TrackLabels>,
    field: TagField,
    tag: Seq<char>,
    playlist: Seq<String>,
)
    requires
        playlist.to_multiset().subset_of(tag_pool(library, field, tag).to_multiset()),
    ensures
        forall|k: int| 0 <= k < playlist.len() ==> is_tagged_track(library, field, tag, #[trigger] playlist[k]),
{
    assert forall|k: int| 0 <= k < playlist.len() implies is_tagged_track(library, field, tag, #[trigger] playlist[k]) by {
        let id = playlist[k];
        assert(playlist.contains(id));
        assert(playlist.to_multiset().count(id) > 0);
        assert(tag_pool(library, field, tag).to_multiset().count(id) > 0);
        lemma_tag_pool_members(library, field, tag, id);
    }
}

/// A library track's id is in the tag pool exactly when the tag occurs
/// anywhere in that track's list for the field: every track that holds
/// the tag is in the pool, and every id in the pool is that of a track
/// that holds it.
pub proof fn lemma_tag_pool_exact(library: Seq<TrackLabels>, field: TagField, tag: Seq<char>)
    ensures
        forall|i: int| 0 <= i < library.len() && (match field {
            TagField::Mood => (#[trigger] library[i]).mood_tags.deep_view().contains(tag),
            TagField::Activity => library[i].activity_tags.deep_view().contains(tag),
        }) ==> tag_pool(library, field, tag).contains(library[i].id),
        forall|id: String| #[trigger] tag_pool(library, field, tag).contains(id) ==> exists|i: int|
            0 <= i < library.len() && #[trigger] library[i].id == id && (match field {
                TagField::Mood => library[i].mood_tags.deep_view().contains(tag),
                TagField::Activity => library[i].activity_tags.deep_view().contains(tag),
            }),
{
    assert forall|i: int| 0 <= i < library.len() && (match field {
        TagField::Mood => (#[trigger] library[i]).mood_tags.deep_view().contains(tag),
        TagField::Activity => library[i].activity_tags.deep_view().contains(tag),
    }) implies tag_pool(library, field, tag).contains(library[i].id) by {
        lemma_tag_pool_holds_tagged(library, field, tag, i);
    }
    assert forall|id: String| #[trigger] tag_pool(library, field, tag).contains(id) implies exists|i: int|
        0 <= i < library.len() && #[trigger] library[i].id == id && (match field {
            TagField::Mood => library[i].mood_tags.deep_view().contains(tag),
            TagField::Activity => library[i].activity_tags.deep_view().contains(tag),
        }) by {
        lemma_tag_pool_members(library, field, tag, id);
        let i = choose|i: int| 0 <= i < library.len() && #[trigger] library[i].id == id && carries(library[i], field, tag);
        assert(library[i].id == id);
    }
}

/// Every library track that carries the tag is in its tag pool, so the
/// pool is not empty when some track carries the tag.
pub proof fn lemma_tag_pool_holds_tagged(library: Seq<TrackLabels>, field: TagField, tag: Seq<char>, i: int)
    requires
        0 <= i < library.len(),
        carries(library[i], field, tag),
    ensures
        tag_pool(library, field, tag).contains(library[i].id),
        tag_pool(library, field, tag).len() > 0,
    decreases library.len(),
{
    let prev = library.drop_last();
    if i == library.len() - 1 {
        let pool = tag_pool(library, field, tag);
        assert(pool[pool.len() - 1] == library[i].id);
    } else {
        assert(prev[i] == library[i]);
        lemma_tag_pool_holds_tagged(prev, field, tag, i);
        let k = choose|k: int| 0 <= k < tag_pool(prev, field, tag).len() && tag_pool(prev, field, tag)[k] == library[i].id;
        if carries(library.last(), field, tag) {
            assert(tag_pool(library, field, tag)[k] == library[i].id);
        }
    }
}

/// No two library tracks share an id.
pub open spec fn distinct_track_ids(library: Seq<TrackLabels>) -> bool {
    forall|i: int, j: int| 0 <= i < j < library.len() ==> #[trigger] library[i].id != #[trigger] library[j].id
}

/// With distinct ids, a tag pool names each track at most once.
pub proof fn lemma_tag_pool_no_duplicates(library: Seq<TrackLabels>, field: TagField, tag: Seq<char>)
    requires
        distinct_track_ids(library),
    ensures
        tag_pool(library, field, tag).no_duplicates(),
    decreases library.len(),
{
    if library.len() > 0 {
        let prev = library.drop_last();
        assert(distinct_track_ids(prev)) by {
            assert forall|i: int, j: int| 0 <= i < j < prev.len() implies #[trigger] prev[i].id != #[trigger] prev[j].id by {
                assert(prev[i] == library[i] && prev[j] == library[j]);
            }
        }
        lemma_tag_pool_no_duplicates(prev, field, tag);
        if carries(library.last(), field, tag) {
            let last = library.last().id;
            if tag_pool(prev, field, tag).contains(last) {
                lemma_tag_pool_members(prev, field, tag, last);
                let i = choose|i: int| 0 <= i < prev.len() && #[trigger] prev[i].id == last && carries(prev[i], field, tag);
                assert(library[i].id == library[library.len() - 1].id);
            }
            let pool = tag_pool(library, field, tag);
            assert forall|a: int, b: int| 0 <= a < pool.len() && 0 <= b < pool.len() && a != b implies pool[a] != pool[b] by {
                let pp = tag_pool(prev, field, tag);
                if a == pool.len() - 1 {
                    assert(pp[b] == pool[b]);
                } else if b == pool.len() - 1 {
                    assert(pp[a] == pool[a]);
                } else {
                    assert(pp[a] == pool[a] && pp[b] == pool[b]);
                }
            }
        }
    }
}

/// With distinct ids, a playlist made for a mood or activity, when some
/// track carries it, names no track twice.
pub proof fn lemma_tag_playlist_no_repeats(
    library: Seq<TrackLabels>,
    field: TagField,
    tag: Seq<char>,
    playlist: Seq<String>,
)
    requires
        distinct_track_ids(library),
        playlist.to_multiset().subset_of(tag_pool(library, field, tag).to_multiset()),
    ensures
        playlist.no_duplicates(),
{
    let pool = tag_pool(library, field, tag);
    lemma_tag_pool_no_duplicates(library, field, tag);
    pool.lemma_multiset_has_no_duplicates();
    assert forall|x: String| playlist.to_multiset().contains(x) implies playlist.to_multiset().count(x) == 1 by {
        assert(playlist.to_multiset().count(x) <= pool.to_multiset().count(x));
        assert(pool.to_multiset().contains(x));
    }
    playlist.lemma_multiset_has_no_duplicates_conv();
}

/// Whether a track with key `track_key` passes the requested key: a track
/// with no key always passes.
pub open spec fn key_allows(track_key: Option<Seq<char>>, wanted: Option<Seq<char>>) -> bool {
    match wanted {
        Some(k) => match track_key {
            Some(tk) => tk == k,
            None => true,
        },
        None => true,
    }
}

/// Whether a track with genres `track_genres` passes the requested genres:
/// with none requested every track passes, else it must share one.
pub open spec fn genres_allow(track_genres: Seq<Seq<char>>, wanted: Seq<Seq<char>>) -> bool {
    wanted.len() == 0 || exists|i: int| 0 <= i < track_genres.len() && wanted.contains(#[trigger] track_genres[i])
}

/// The label filters of a generation request: its key and its genres.
pub open spec fn label_filters_allow(
    track: TrackLabels,
    target_key: Option<Seq<char>>,
    genres: Seq<Seq<char>>,
) -> bool {
    key_allows(key_view(track.key), target_key) && genres_allow(track.genres.deep_view(), genres)
}

/// The label filters pass a track exactly when its key is absent, not
/// requested or the requested one, and, with genres requested, some genre
/// of the track, at any position of its genre list, is among them.
pub proof fn lemma_label_filters_exact(track: TrackLabels, target_key: Option<Seq<char>>, genres: Seq<Seq<char>>)
    ensures
        label_filters_allow(track, target_key, genres) <==> {
            &&& (target_key is None || track.key is None || track.key.unwrap()@ == target_key.unwrap())
            &&& (genres.len() == 0 || exists|j: int, g: int|
                0 <= j < track.genres@.len() && 0 <= g < genres.len()
                    && #[trigger] track.genres@[j]@ == #[trigger] genres[g])
        },
{
    let tg = track.genres.deep_view();
    if genres.len() > 0 {
        if genres_allow(tg, genres) {
            let j = choose|j: int| 0 <= j < tg.len() && genres.contains(#[trigger] tg[j]);
            let g = choose|g: int| 0 <= g < genres.len() && genres[g] == tg[j];
            assert(track.genres@[j]@ == genres[g]);
        }
        if exists|j: int, g: int|
            0 <= j < track.genres@.len() && 0 <= g < genres.len()
                && #[trigger] track.genres@[j]@ == #[trigger] genres[g] {
            let (j, g) = choose|j: int, g: int|
                0 <= j < track.genres@.len() && 0 <= g < genres.len()
                    && #[trigger] track.genres@[j]@ == #[trigger] genres[g];
            assert(tg[j] == genres[g]);
            assert(genres.contains(tg[j]));
        }
    }
}

/// With genres requested, a track whose key passes is let through by any
/// one of its genres that was requested, wherever that genre stands in its
/// list.
pub proof fn lemma_any_genre_admits(track: TrackLabels, target_key: Option<Seq<char>>, genres: Seq<Seq<char>>, j: int)
    requires
        target_key is None || track.key is None || track.key.unwrap()@ == target_key.unwrap(),
        0 <= j < track.genres@.len(),
        genres.contains(track.genres@[j]@),
    ensures
        label_filters_allow(track, target_key, genres),
{
    let g = choose|g: int| 0 <= g < genres.len() && genres[g] == track.genres@[j]@;
    lemma_label_filters_exact(track, target_key, genres);
}

/// Whether the track passes the key and genre filters of a request.
pub fn passes_label_filters(track: &TrackLabels, target_key: &Option<String>, genres: &Vec<String>) -> (r: bool)
    ensures
        r == label_filters_allow(*track, key_view(*target_key), genres.deep_view()),
        r <==> {
            &&& (target_key is None || track.key is None || track.key.unwrap()@ == target_key.unwrap()@)
            &&& (genres@.len() == 0 || exists|j: int, g: int|
                0 <= j < track.genres@.len() && 0 <= g < genres@.len()
                    && #[trigger] track.genres@[j]@ == #[trigger] genres.deep_view()[g])
        },
{
    proof {
        lemma_label_filters_exact(*track, key_view(*target_key), genres.deep_view());
    }
    let key_ok = match target_key {
        Some(k) => match &track.key {
            Some(tk) => *tk == *k,
            None => true,
        },
        None => true,
    };
    assert(key_ok == key_allows(key_view(track.key), key_view(*target_key)));
    if !key_ok {
        return false;
    }
    if genres.len() == 0 {
        return true;
    }
    let n = track.genres.len();
    let mut i: usize = 0;
    while i < n
        invariant
            n == track.genres.len(),
            i <= n,
            genres.len() > 0,
            key_ok == key_allows(key_view(track.key), key_view(*target_key)),
            key_ok,
            forall|j: int| 0 <= j < i ==> !genres.deep_view().contains(#[trigger] track.genres.deep_view()[j]),
        decreases n - i,
    {
        if has_tag(genres, &track.genres[i]) {
            assert(track.genres.deep_view()[i as int] == track.genres[i as int]@);
            return true;
        }
        i = i + 1;
    }
    false
}

/// The ids of the library tracks, as character sequences.
pub open spec fn id_views(library: Seq<TrackLabels>) -> Seq<Seq<char>> {
    Seq::new(library.len(), |i: int| library[i].id@)
}

/// Whether library track `i` may be added when growing from `seeds`: the
/// caller found it within the numeric limits, it is not a seed, and it
/// passes the label filters.
pub open spec fn eligible(
    library: Seq<TrackLabels>,
    within_limits: Seq<bool>,
    seeds: Seq<Seq<char>>,
    target_key: Option<Seq<char>>,
    genres: Seq<Seq<char>>,
    i: int,
) -> bool {
    &&& within_limits[i]
    &&& !seeds.contains(library[i].id@)
    &&& label_filters_allow(library[i], target_key, genres)
}

/// The state of a playlist being grown from seed tracks, as ids and
/// library positions.
pub struct ExpansionView {
    /// How many of the first selected ids are the seeds.
    pub seed_count: nat,
    /// The ids of the seed tracks, in the order they were given.
    pub seeds: Seq<Seq<char>>,
    /// The id of each library track.
    pub library: Seq<Seq<char>>,
    /// Library positions of the tracks that may still be added, ascending.
    pub candidates: Seq<usize>,
    /// The playlist so far: the seeds, then the added tracks.
    pub selected: Seq<Seq<char>>,
    /// The requested playlist length.
    pub target: nat,
    /// The ids of the tracks that were eligible when growing started.
    pub pool: Set<Seq<char>>,
    /// How many candidates there were when growing started.
    pub eligible_count: nat,
}

impl ExpansionView {
    /// What every state of the expansion satisfies.
    pub open spec fn consistent(self) -> bool {
        &&& self.seed_count <= self.selected.len()
        &&& self.seeds.len() == self.seed_count
        &&& forall|k: int| 0 <= k < self.seed_count ==> #[trigger] self.selected[k] == self.seeds[k]
        &&& self.selected.len() <= if self.seed_count < self.target { self.target } else { self.seed_count }
        &&& forall|k: int| 0 <= k < self.candidates.len() ==> #[trigger] self.candidates[k] < self.library.len()
        &&& forall|k: int, l: int|
            0 <= k < l < self.candidates.len() ==> #[trigger] self.candidates[k] < #[trigger] self.candidates[l]
        &&& forall|k: int|
            0 <= k < self.candidates.len() ==> !self.selected.contains(self.library[#[trigger] self.candidates[k] as int])
        &&& forall|k: int|
            0 <= k < self.candidates.len() ==> self.pool.contains(self.library[#[trigger] self.candidates[k] as int])
        &&& forall|k: int| self.seed_count <= k < self.selected.len() ==> self.pool.contains(#[trigger] self.selected[k])
        &&& forall|j: int, k: int|
            0 <= j < k < self.selected.len() && self.seed_count <= k ==> #[trigger] self.selected[j] != #[trigger] self.selected[k]
        &&& distinct_ids(self.library) ==> self.selected.len() + self.candidates.len() == self.seed_count
            + self.eligible_count
    }

    /// Whether growing is over: no seed, the playlist is long enough, or
    /// no candidate is left.
    pub open spec fn finished(self) -> bool {
        self.seed_count == 0 || self.selected.len() >= self.target || self.candidates.len() == 0
    }

    /// The library position added for the caller's answer `best`: the
    /// named candidate, or the last one when none scored high enough.
    pub open spec fn chosen(self, best: Option<usize>) -> usize {
        match best {
            Some(p) => self.candidates[p as int],
            None => self.candidates.last(),
        }
    }
}

/// What the caller is asked to do next while a playlist grows from seeds.
pub enum ExpansionStep {
    /// Score every candidate against the seed at this position, and answer
    /// with the best one that scores high enough.
    Score { seed: usize },
    /// Growing is over.
    Done,
}

/// A playlist growing greedily from seed tracks. Each round the caller
/// scores the remaining candidates against a randomly chosen seed and
/// answers with the best of them; the library position it names is added
/// and every candidate with the same id is dropped.
pub struct SeedExpansion {
    seed_count: usize,
    seed_positions: Vec<usize>,
    library_ids: Vec<String>,
    candidates: Vec<usize>,
    selected: Vec<String>,
    target: usize,
    seeds: Ghost<Seq<Seq<char>>>,
    pool: Ghost<Set<Seq<char>>>,
    eligible_count: Ghost<nat>,
}

impl View for SeedExpansion {
    type V = ExpansionView;

    closed spec fn view(&self) -> ExpansionView {
        ExpansionView {
            seed_count: self.seed_count as nat,
            seeds: self.seeds@,
            library: self.library_ids.deep_view(),
            candidates: self.candidates@,
            selected: self.selected.deep_view(),
            target: self.target as nat,
            pool: self.pool@,
            eligible_count: self.eligible_count@,
        }
    }
}

impl SeedExpansion {
    /// The expansion's internal consistency.
    pub closed spec fn wf(&self) -> bool {
        &&& self@.consistent()
        &&& self.seed_positions@.len() == self.seed_count
        &&& forall|k: int| 0 <= k < self.seed_count ==> #[trigger] self.seed_positions@[k] == k
    }

    /// Starts growing from `seeds` over `library`, with the candidates being
    /// the eligible tracks in library order. `within_limits[i]` is the
    /// caller's verdict on the numeric limits (tempo, duration) for track `i`.
    pub fn new(
        seeds: &Vec<String>,
        library: &Vec<TrackLabels>,
        within_limits: &Vec<bool>,
        target_key: &Option<String>,
        genres: &Vec<String>,
        target_length: usize,
    ) -> (r: Self)
        requires
            within_limits@.len() == library@.len(),
        ensures
            r.wf(),
            r@.consistent(),
            r@.seed_count == seeds@.len(),
            r@.seeds == seeds.deep_view(),
            r@.selected == seeds.deep_view(),
            r@.library == id_views(library@),
            r@.target == target_length,
            r@.eligible_count == r@.candidates.len(),
            forall|i: int|
                0 <= i < library@.len() ==> (r@.candidates.contains(i as usize) <==> eligible(
                    library@,
                    within_limits@,
                    seeds.deep_view(),
                    key_view(*target_key),
                    genres.deep_view(),
                    i,
                )),
            forall|id: Seq<char>|
                r@.pool.contains(id) <==> exists|i: int|
                    0 <= i < library@.len() && #[trigger] library@[i].id@ == id && eligible(
                        library@,
                        within_limits@,
                        seeds.deep_view(),
                        key_view(*target_key),
                        genres.deep_view(),
                        i,
                    ),
    {
        let ghost seed_ids = seeds.deep_view();
        let ghost key = key_view(*target_key);
        let ghost wanted = genres.deep_view();
        let ghost pool = Set::new(
            |id: Seq<char>|
                exists|i: int|
                    0 <= i < library@.len() && #[trigger] library@[i].id@ == id && eligible(
                        library@,
                        within_limits@,
                        seed_ids,
                        key,
                        wanted,
                        i,
                    ),
        );
        let mut library_ids: Vec<String> = Vec::new();
        let mut candidates: Vec<usize> = Vec::new();
        let mut i: usize = 0;
        while i < library.len()
            invariant
                within_limits@.len() == library@.len(),
                seed_ids == seeds.deep_view(),
                key == key_view(*target_key),
                wanted == genres.deep_view(),
                i <= library.len(),
                library_ids.deep_view() == id_views(library@.take(i as int)),
                forall|k: int| 0 <= k < candidates@.len() ==> #[trigger] candidates@[k] < i,
                forall|k: int, l: int|
                    0 <= k < l < candidates@.len() ==> #[trigger] candidates@[k] < #[trigger] candidates@[l],
                forall|j: int|
                    0 <= j < i ==> (candidates@.contains(j as usize) <==> eligible(
                        library@,
                        within_limits@,
                        seed_ids,
                        key,
                        wanted,
                        j,
                    )),
            decreases library.len() - i,
        {
            let track = &library[i];
            let id = track.id.clone();
            assert(id@ == library@[i as int].id@);
            let ghost before = library_ids.deep_view();
            library_ids.push(id);
            assert(library_ids.deep_view() =~= before.push(library@[i as int].id@));
            assert(id_views(library@.take(i + 1)) =~= id_views(library@.take(i as int)).push(library@[i as int].id@));
            let ghost before = candidates@;
            let take = within_limits[i] && !has_tag(seeds, &track.id) && passes_label_filters(
                track,
                target_key,
                genres,
            );
            assert(take == eligible(library@, within_limits@, seed_ids, key, wanted, i as int));
            if take {
                candidates.push(i);
            }
            assert forall|j: int|
                0 <= j < i + 1 implies (candidates@.contains(j as usize) <==> eligible(
                    library@,
                    within_limits@,
                    seed_ids,
                    key,
                    wanted,
                    j,
                )) by {
                if j < i {
                    if candidates@.contains(j as usize) {
                        let k = choose|k: int| 0 <= k < candidates@.len() && candidates@[k] == j as usize;
                        if k == before.len() {
                            assert(candidates@[k] == i);
                        }
                        assert(before[k] == j as usize);
                    }
                    if before.contains(j as usize) {
                        let k = choose|k: int| 0 <= k < before.len() && before[k] == j as usize;
                        assert(candidates@[k] == j as usize);
                    }
                } else if !take {
                    if candidates@.contains(j as usize) {
                        let k = choose|k: int| 0 <= k < candidates@.len() && candidates@[k] == j as usize;
                        assert(before[k] < i);
                    }
                } else {
                    assert(candidates@[before.len() as int] == i);
                }
            }
            i = i + 1;
        }
        assert(library@.take(library@.len() as int) =~= library@);
        let n = seeds.len();
        let mut seed_positions: Vec<usize> = Vec::new();
        let mut p: usize = 0;
        while p < n
            invariant
                n == seeds.len(),
                p <= n,
                seed_positions@.len() == p,
                forall|k: int| 0 <= k < p ==> #[trigger] seed_positions@[k] == k,
            decreases n - p,
        {
            seed_positions.push(p);
            p = p + 1;
        }
        let ghost eligible_count = candidates@.len();
        let r = SeedExpansion {
            seed_count: n,
            seed_positions,
            library_ids,
            candidates,
            selected: seeds.clone(),
            target: target_length,
            seeds: Ghost(seed_ids),
            pool: Ghost(pool),
            eligible_count: Ghost(eligible_count),
        };
        proof {
            assert(r.selected.deep_view() =~= seed_ids);
            assert forall|k: int| 0 <= k < r@.candidates.len() implies r@.pool.contains(
                r@.library[#[trigger] r@.candidates[k] as int],
            ) by {
                let c = r@.candidates[k] as int;
                assert(r@.candidates.contains(c as usize));
                assert(library@[c].id@ == r@.library[c]);
            }
            assert forall|k: int| 0 <= k < r@.candidates.len() implies !r@.selected.contains(
                r@.library[#[trigger] r@.candidates[k] as int],
            ) by {
                let c = r@.candidates[k] as int;
                assert(r@.candidates.contains(c as usize));
                assert(library@[c].id@ == r@.library[c]);
            }
        }
        r
    }

    /// Decides the next round: `Done` when growing is over, otherwise a
    /// seed position picked at random among the seeds.
    pub fn next_action(&self) -> (r: ExpansionStep)
        requires
            self.wf(),
        ensures
            r is Done <==> self@.finished(),
            r matches ExpansionStep::Score { seed } ==> seed < self@.seed_count,
    {
        if self.seed_count == 0 || self.selected.len() >= self.target || self.candidates.len() == 0 {
            return ExpansionStep::Done;
        }
        match choose_position(&self.seed_positions) {
            Some(p) => {
                proof {
                    let k = choose|k: int| 0 <= k < self.seed_positions@.len() && self.seed_positions@[k] == p;
                }
                ExpansionStep::Score { seed: p }
            },
            None => ExpansionStep::Done,
        }
    }

    /// Adds the caller's answer for the round: the candidate at position
    /// `p` of the candidate list for `Some(p)`, or the last candidate when
    /// no candidate scored high enough. Every candidate with the added id
    /// leaves the candidate list.
    pub fn record_choice(&mut self, best: Option<usize>)
        requires
            old(self).wf(),
            !old(self)@.finished(),
            best matches Some(p) ==> p < old(self)@.candidates.len(),
        ensures
            final(self).wf(),
            final(self)@.consistent(),
            final(self)@.selected == old(self)@.selected.push(
                old(self)@.library[old(self)@.chosen(best) as int],
            ),
            forall|c: usize|
                final(self)@.candidates.contains(c) <==> (old(self)@.candidates.contains(c)
                    && old(self)@.library[c as int] != old(self)@.library[old(self)@.chosen(best) as int]),
            final(self)@.candidates.len() < old(self)@.candidates.len(),
            distinct_ids(old(self)@.library) ==> final(self)@.candidates.len() + 1
                == old(self)@.candidates.len(),
            final(self)@.seed_count == old(self)@.seed_count,
            final(self)@.seeds == old(self)@.seeds,
            final(self)@.library == old(self)@.library,
            final(self)@.target == old(self)@.target,
            final(self)@.pool == old(self)@.pool,
            final(self)@.eligible_count == old(self)@.eligible_count,
    {
        let ghost old_view = self@;
        let chosen: usize = match best {
            Some(p) => self.candidates[p],
            None => self.candidates[self.candidates.len() - 1],
        };
        assert(chosen == old_view.chosen(best));
        let ghost chosen_pos: int = match best {
            Some(p) => p as int,
            None => old_view.candidates.len() - 1,
        };
        let id = self.library_ids[chosen].clone();
        let ghost id_view = old_view.library[chosen as int];
        assert(id@ == id_view);
        let n = self.candidates.len();
        let mut kept: Vec<usize> = Vec::new();
        let mut i: usize = 0;
        while i < n
            invariant
                n == self.candidates@.len(),
                self@ == old_view,
                old_view.consistent(),
                0 <= chosen_pos < n,
                old_view.candidates[chosen_pos] == chosen,
                id@ == id_view,
                id_view == old_view.library[chosen as int],
                i <= n,
                forall|k: int| 0 <= k < kept@.len() ==> exists|j: int| 0 <= j < i && #[trigger] kept@[k] == old_view.candidates[j],
                forall|k: int, l: int| 0 <= k < l < kept@.len() ==> #[trigger] kept@[k] < #[trigger] kept@[l],
                forall|k: int| 0 <= k < kept@.len() ==> old_view.library[#[trigger] kept@[k] as int] != id_view,
                forall|j: int|
                    0 <= j < i && old_view.library[old_view.candidates[j] as int] != id_view ==> kept@.contains(
                        #[trigger] old_view.candidates[j],
                    ),
                kept@.len() <= i,
                chosen_pos < i ==> kept@.len() < i,
            decreases n - i,
        {
            let c = self.candidates[i];
            let ghost before = kept@;
            if !(self.library_ids[c] == id) {
                kept.push(c);
                assert forall|k: int, l: int| 0 <= k < l < kept@.len() implies #[trigger] kept@[k] < #[trigger] kept@[l] by {
                    if l == kept@.len() - 1 && k < before.len() {
                        let j = choose|j: int| 0 <= j < i && #[trigger] before[k] == old_view.candidates[j];
                        assert(old_view.candidates[j] < old_view.candidates[i as int]);
                    }
                }
                assert forall|k: int| 0 <= k < kept@.len() implies exists|j: int| 0 <= j < i + 1 && #[trigger] kept@[k] == old_view.candidates[j] by {
                    if k < before.len() {
                        let j = choose|j: int| 0 <= j < i && #[trigger] before[k] == old_view.candidates[j];
                        assert(kept@[k] == old_view.candidates[j]);
                    } else {
                        assert(kept@[k] == old_view.candidates[i as int]);
                    }
                }
                assert forall|j: int|
                    0 <= j < i + 1 && old_view.library[old_view.candidates[j] as int] != id_view implies kept@.contains(
                        #[trigger] old_view.candidates[j],
                    ) by {
                    if j < i {
                        let k = choose|k: int| 0 <= k < before.len() && before[k] == old_view.candidates[j];
                        assert(kept@[k] == old_view.candidates[j]);
                    } else {
                        assert(kept@[before.len() as int] == old_view.candidates[j]);
                    }
                }
            } else {
                assert forall|k: int| 0 <= k < kept@.len() implies exists|j: int| 0 <= j < i + 1 && #[trigger] kept@[k] == old_view.candidates[j] by {
                    let j = choose|j: int| 0 <= j < i && #[trigger] before[k] == old_view.candidates[j];
                    assert(kept@[k] == old_view.candidates[j]);
                }
            }
            i = i + 1;
        }
        proof {
            assert forall|c: usize|
                kept@.contains(c) <==> (old_view.candidates.contains(c) && old_view.library[c as int] != id_view) by {
                if kept@.contains(c) {
                    let k = choose|k: int| 0 <= k < kept@.len() && kept@[k] == c;
                    let j = choose|j: int| 0 <= j < n && #[trigger] kept@[k] == old_view.candidates[j];
                    assert(old_view.candidates[j] == c);
                }
                if old_view.candidates.contains(c) && old_view.library[c as int] != id_view {
                    let j = choose|j: int| 0 <= j < n && old_view.candidates[j] == c;
                    assert(kept@.contains(old_view.candidates[j]));
                }
            }
        }
        proof {
            if distinct_ids(old_view.library) {
                lemma_one_candidate_removed(old_view.candidates, kept@, old_view.library, chosen);
            }
        }
        self.selected.push(id);
        self.candidates = kept;
        proof {
            let v = self@;
            assert(v.selected =~= old_view.selected.push(id_view));
            assert(v.library == old_view.library);
            assert forall|k: int| 0 <= k < v.candidates.len() implies #[trigger] v.candidates[k] < v.library.len() by {
                let j = choose|j: int| 0 <= j < n && #[trigger] kept@[k] == old_view.candidates[j];
            }
            assert forall|k: int| 0 <= k < v.candidates.len() implies v.pool.contains(
                v.library[#[trigger] v.candidates[k] as int],
            ) by {
                let j = choose|j: int| 0 <= j < n && #[trigger] kept@[k] == old_view.candidates[j];
            }
            assert forall|k: int| 0 <= k < v.candidates.len() implies !v.selected.contains(
                v.library[#[trigger] v.candidates[k] as int],
            ) by {
                let j = choose|j: int| 0 <= j < n && #[trigger] kept@[k] == old_view.candidates[j];
                let x = v.library[v.candidates[k] as int];
                assert(!old_view.selected.contains(x));
                assert(x != id_view);
                if v.selected.contains(x) {
                    let m = choose|m: int| 0 <= m < v.selected.len() && v.selected[m] == x;
                    if m < old_view.selected.len() {
                        assert(old_view.selected[m] == x);
                    }
                }
            }
            assert(old_view.pool.contains(id_view)) by {
                assert(old_view.pool.contains(old_view.library[old_view.candidates[chosen_pos] as int]));
            }
            assert forall|k: int| v.seed_count <= k < v.selected.len() implies v.pool.contains(#[trigger] v.selected[k]) by {
                if k < old_view.selected.len() {
                    assert(v.selected[k] == old_view.selected[k]);
                }
            }
            assert(!old_view.selected.contains(id_view)) by {
                assert(!old_view.selected.contains(old_view.library[old_view.candidates[chosen_pos] as int]));
            }
            assert forall|j: int, k: int|
                0 <= j < k < v.selected.len() && v.seed_count <= k implies #[trigger] v.selected[j] != #[trigger] v.selected[k] by {
                if k == v.selected.len() - 1 {
                    assert(v.selected[j] == old_view.selected[j]);
                    assert(old_view.selected.contains(old_view.selected[j]));
                } else {
                    assert(v.selected[j] == old_view.selected[j]);
                    assert(v.selected[k] == old_view.selected[k]);
                }
            }
        }
    }

    /// Library positions of the tracks that may still be added.
    pub fn candidates(&self) -> (r: &Vec<usize>)
        ensures
            r@ == self@.candidates,
    {
        &self.candidates
    }

    /// The playlist so far: the seed ids, then the added ids.
    pub fn selected(&self) -> (r: &Vec<String>)
        ensures
            r.deep_view() == self@.selected,
    {
        &self.selected
    }

    /// Ends growing and hands out the playlist.
    pub fn into_selected(self) -> (r: Vec<String>)
        ensures
            r.deep_view() == self@.selected,
    {
        self.selected
    }
}

/// No two library tracks share an id.
pub open spec fn distinct_ids(ids: Seq<Seq<char>>) -> bool {
    forall|i: int, j: int| 0 <= i < j < ids.len() ==> #[trigger] ids[i] != #[trigger] ids[j]
}

/// Dropping the candidates that share the chosen candidate's id drops
/// exactly one candidate when ids are distinct.
proof fn lemma_one_candidate_removed(
    before: Seq<usize>,
    after: Seq<usize>,
    library: Seq<Seq<char>>,
    chosen: usize,
)
    requires
        distinct_ids(library),
        before.contains(chosen),
        forall|k: int| 0 <= k < before.len() ==> #[trigger] before[k] < library.len(),
        forall|k: int, l: int| 0 <= k < l < before.len() ==> #[trigger] before[k] < #[trigger] before[l],
        forall|k: int, l: int| 0 <= k < l < after.len() ==> #[trigger] after[k] < #[trigger] after[l],
        forall|c: usize| after.contains(c) <==> (before.contains(c) && library[c as int] != library[chosen as int]),
    ensures
        after.len() + 1 == before.len(),
{
    broadcast use vstd::set::group_set_axioms;

    assert(before.no_duplicates()) by {
        assert forall|i: int, j: int| 0 <= i < before.len() && 0 <= j < before.len() && i != j implies before[i] != before[j] by {
            if i < j {
                assert(before[i] < before[j]);
            } else {
                assert(before[j] < before[i]);
            }
        }
    }
    assert(after.no_duplicates()) by {
        assert forall|i: int, j: int| 0 <= i < after.len() && 0 <= j < after.len() && i != j implies after[i] != after[j] by {
            if i < j {
                assert(after[i] < after[j]);
            } else {
                assert(after[j] < after[i]);
            }
        }
    }
    before.unique_seq_to_set();
    after.unique_seq_to_set();
    assert(after.to_set() =~= before.to_set().remove(chosen)) by {
        assert forall|c: usize| after.to_set().contains(c) <==> before.to_set().remove(chosen).contains(c) by {
            if before.contains(c) && c != chosen {
                let k = choose|k: int| 0 <= k < before.len() && before[k] == c;
                let m = choose|m: int| 0 <= m < before.len() && before[m] == chosen;
                if c < chosen {
                    assert(library[c as int] != library[chosen as int]);
                } else {
                    assert(library[chosen as int] != library[c as int]);
                }
            }
        }
    }
    vstd::seq_lib::seq_to_set_is_finite(before);
}

/// When growing from at least one seed, and no more seeds than the
/// requested length, is over and library ids are distinct, the playlist
/// holds the requested number of tracks, or every eligible track when
/// there are too few.
pub proof fn lemma_finished_length(v: ExpansionView)
    requires
        v.consistent(),
        v.finished(),
        0 < v.seed_count <= v.target,
        distinct_ids(v.library),
    ensures
        v.selected.len() == take_count(v.target, v.seed_count + v.eligible_count),
{
}

} // verus!
