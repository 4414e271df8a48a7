//! The labels of a track that playlist generation reads: its id, its key,
//! its mood and activity tags and its genres. The numeric features of a track are not
//! held here.

use vstd::prelude::*;

verus! {

/// The textual labels of a library track.
pub struct TrackLabels {
    pub id: String,
    pub key: Option<String>,
    pub mood_tags: Vec<String>,
    pub activity_tags: Vec<String>,
    pub genres: Vec<String>,
}

/// The key of a track as a character sequence, when it has one.
pub open spec fn key_view(key: Option<String>) -> Option<Seq<char>> {
    match key {
        Some(k) => Some(k@),
        None => None,
    }
}

/// Whether `tags` holds a tag equal to `tag`.
pub fn has_tag(tags: &Vec<String>, tag: &String) -> (r: bool)
    ensures
        r == tags.deep_view().contains(tag@),
{
    let n = tags.len();
    let mut i: usize = 0;
    while i < n
        invariant
            n == tags.len(),
            i <= n,
            forall|k: int| 0 <= k < i ==> tags@[k]@ != tag@,
        decreases n - i,
    {
        if tags[i] == *tag {
            assert(tags.deep_view()[i as int] == tag@);
            return true;
        }
        i = i + 1;
    }
    assert forall|k: int| 0 <= k < tags.deep_view().len() implies tags.deep_view()[k] != tag@ by {
        assert(tags.deep_view()[k] == tags@[k]@);
    }
    false
}

} // verus!
