use dynamic_playlist_generator::audio::{count_shared_tags, key_name, AudioAnalyzer};
use dynamic_playlist_generator::db::{
    decode_tags, decode_timestamp, decode_track_text, encode_tags, encode_timestamp,
    StoredTrackText, ADDED_AT_COLUMN, CREATED_AT_COLUMN, UPDATED_AT_COLUMN,
};
use dynamic_playlist_generator::handlers::{
    plan_upload, similarity_pairs, PlaylistListQuery, TrackListQuery, UploadPlan,
};
use dynamic_playlist_generator::models::{has_tag, TrackLabels};
use dynamic_playlist_generator::services::{
    choose_strategy, passes_label_filters, playlist_by_tag, select_diverse_tracks,
    select_random_tracks, track_ids, tracks_with_tag, ExpansionStep, PlaylistStrategy,
    SeedExpansion, TagField,
};

fn s(x: &str) -> String {
    x.to_string()
}

fn tags(xs: &[&str]) -> Vec<String> {
    xs.iter().map(|x| x.to_string()).collect()
}

fn track(id: &str, key: Option<&str>, moods: &[&str], genres: &[&str]) -> TrackLabels {
    TrackLabels {
        id: s(id),
        key: key.map(s),
        mood_tags: tags(moods),
        activity_tags: vec![],
        genres: tags(genres),
    }
}

#[test]
fn analyzer_configuration() {
    let a = AudioAnalyzer::new(44100);
    let b = a.clone();
    assert_eq!(b.hop_size(), 512);
    assert_eq!(a.sample_rate(), 44100);
    assert_eq!(a.fft_size(), 2048);
    assert_eq!(a.hop_size(), 512);
}

#[test]
fn spectral_windows_start_every_hop() {
    let a = AudioAnalyzer::new(44100);
    assert_eq!(a.spectral_frame_count(0), 0);
    assert_eq!(a.spectral_frame_count(2047), 0);
    assert_eq!(a.spectral_frame_count(2048), 1);
    assert_eq!(a.spectral_frame_count(2559), 1);
    assert_eq!(a.spectral_frame_count(2560), 2);
    assert_eq!(a.spectral_frame_count(4096), 5);
    assert_eq!(a.spectral_frame_count(44100), 83);
}

#[test]
fn key_names_follow_the_chromatic_scale() {
    assert_eq!(key_name(0), "C");
    assert_eq!(key_name(1), "C#");
    assert_eq!(key_name(6), "F#");
    assert_eq!(key_name(9), "A");
    assert_eq!(key_name(11), "B");
}

#[test]
fn shared_tags_are_counted_from_the_first_list() {
    assert_eq!(count_shared_tags(&tags(&["energetic"]), &tags(&["energetic"])), 1);
    assert_eq!(count_shared_tags(&tags(&["energetic"]), &tags(&["calm"])), 0);
    assert_eq!(count_shared_tags(&tags(&["a", "b", "a"]), &tags(&["a"])), 2);
    assert_eq!(count_shared_tags(&tags(&[]), &tags(&["a"])), 0);
    let own = tags(&["workout", "party", "focus"]);
    assert_eq!(count_shared_tags(&own, &own), 3);
}

#[test]
fn has_tag_finds_exact_matches() {
    let t = tags(&["pop", "rock"]);
    assert!(has_tag(&t, &s("rock")));
    assert!(!has_tag(&t, &s("Rock")));
    assert!(!has_tag(&tags(&[]), &s("rock")));
}

#[test]
fn track_listing_limits() {
    assert_eq!(TrackListQuery { limit: None }.effective_limit(), 100);
    assert_eq!(TrackListQuery { limit: Some(5) }.effective_limit(), 5);
    assert_eq!(TrackListQuery { limit: Some(1000) }.effective_limit(), 1000);
    assert_eq!(TrackListQuery { limit: Some(5000) }.effective_limit(), 1000);
}

#[test]
fn playlist_listing_limits() {
    assert_eq!(PlaylistListQuery { limit: None }.effective_limit(), 50);
    assert_eq!(PlaylistListQuery { limit: Some(0) }.effective_limit(), 0);
    assert_eq!(PlaylistListQuery { limit: Some(499) }.effective_limit(), 499);
    assert_eq!(PlaylistListQuery { limit: Some(600) }.effective_limit(), 500);
}

#[test]
fn similarity_pairs_cover_each_pair_once() {
    assert!(similarity_pairs(0).is_empty());
    assert!(similarity_pairs(1).is_empty());
    assert_eq!(similarity_pairs(3), vec![(0, 1), (0, 2), (1, 2)]);
    assert_eq!(similarity_pairs(4).len(), 6);
    let p = similarity_pairs(50);
    assert_eq!(p.len(), 1225);
    for w in p.windows(2) {
        assert!(w[0] < w[1]);
    }
    assert!(p.iter().all(|&(i, j)| i < j && j < 50));
}

#[test]
fn upload_plans() {
    assert!(matches!(plan_upload(&None, true), UploadPlan::UseSuppliedFeatures));
    assert!(matches!(plan_upload(&None, false), UploadPlan::UseSuppliedFeatures));
    assert!(matches!(plan_upload(&Some(s("a.wav")), true), UploadPlan::AnalyzeFile));
    assert!(matches!(
        plan_upload(&Some(s("a.wav")), false),
        UploadPlan::UseSuppliedFeatures
    ));
}

#[test]
fn strategy_choice() {
    assert!(matches!(choose_strategy(0, &Some(s("calm")), &None), PlaylistStrategy::ByMood));
    assert!(matches!(choose_strategy(0, &Some(s("calm")), &Some(s("study"))), PlaylistStrategy::ByMood));
    assert!(matches!(choose_strategy(0, &None, &Some(s("study"))), PlaylistStrategy::ByActivity));
    assert!(matches!(choose_strategy(2, &Some(s("calm")), &None), PlaylistStrategy::FromSeeds));
    assert!(matches!(choose_strategy(1, &None, &Some(s("study"))), PlaylistStrategy::FromSeeds));
    assert!(matches!(choose_strategy(0, &None, &None), PlaylistStrategy::Random));
}

#[test]
fn mood_pool_keeps_library_order() {
    let lib = vec![
        track("a", None, &["energetic"], &[]),
        track("b", None, &["calm"], &[]),
        track("c", None, &["calm", "energetic"], &[]),
    ];
    assert_eq!(tracks_with_tag(&lib, TagField::Mood, &s("energetic")), tags(&["a", "c"]));
    assert_eq!(tracks_with_tag(&lib, TagField::Mood, &s("dark")), tags(&[]));
    assert_eq!(tracks_with_tag(&lib, TagField::Activity, &s("energetic")), tags(&[]));
    assert_eq!(track_ids(&lib), tags(&["a", "b", "c"]));
}

#[test]
fn test_playlist_generation_by_mood() {
    let lib = vec![
        track("party-song", None, &["energetic"], &[]),
        track("study-song", None, &["calm"], &[]),
    ];
    assert!(matches!(choose_strategy(0, &Some(s("energetic")), &None), PlaylistStrategy::ByMood));
    let p = playlist_by_tag(&lib, TagField::Mood, &s("energetic"), 2);
    assert!(p.contains(&s("party-song")));
    assert!(!p.contains(&s("study-song")));
    assert_eq!(p, tags(&["party-song"]));
}

#[test]
fn mood_playlist_falls_back_to_random_tracks() {
    let lib = vec![
        track("a", None, &["calm"], &[]),
        track("b", None, &["calm"], &[]),
        track("c", None, &["calm"], &[]),
    ];
    let p = playlist_by_tag(&lib, TagField::Mood, &s("energetic"), 2);
    assert_eq!(p.len(), 2);
    assert!(p.iter().all(|id| ["a", "b", "c"].contains(&id.as_str())));
    assert_ne!(p[0], p[1]);
    let all = playlist_by_tag(&lib, TagField::Mood, &s("energetic"), 10);
    assert_eq!(all.len(), 3);
}

#[test]
fn random_selection_draws_distinct_tracks() {
    let ids = tags(&["a", "b", "c", "d", "e"]);
    let r = select_random_tracks(&ids, 3);
    assert_eq!(r.len(), 3);
    let mut sorted = r.clone();
    sorted.sort();
    sorted.dedup();
    assert_eq!(sorted.len(), 3);
    assert!(r.iter().all(|x| ids.contains(x)));
    assert_eq!(select_random_tracks(&ids, 9).len(), 5);
    assert!(select_random_tracks(&ids, 0).is_empty());
}

#[test]
fn diverse_selection_is_a_shuffled_prefix() {
    let ids = tags(&["a", "b", "c", "d"]);
    let r = select_diverse_tracks(&ids, 2);
    assert_eq!(r.len(), 2);
    assert_ne!(r[0], r[1]);
    assert!(r.iter().all(|x| ids.contains(x)));
    let mut all = select_diverse_tracks(&ids, 10);
    all.sort();
    assert_eq!(all, ids);
}

#[test]
fn label_filters() {
    let keyed = track("t", Some("A"), &[], &["pop"]);
    let keyless = track("u", None, &[], &[]);
    assert!(passes_label_filters(&keyed, &None, &vec![]));
    assert!(passes_label_filters(&keyed, &Some(s("A")), &vec![]));
    assert!(!passes_label_filters(&keyed, &Some(s("B")), &vec![]));
    assert!(passes_label_filters(&keyless, &Some(s("B")), &vec![]));
    assert!(passes_label_filters(&keyed, &None, &tags(&["rock", "pop"])));
    assert!(!passes_label_filters(&keyed, &None, &tags(&["rock"])));
    assert!(!passes_label_filters(&keyless, &None, &tags(&["rock"])));
}

#[test]
fn test_playlist_generation_with_seed_tracks() {
    let lib = vec![
        track("energetic-track", None, &["energetic"], &[]),
        track("calm-track", None, &["calm"], &[]),
        track("medium-track", None, &["bright"], &[]),
    ];
    assert!(matches!(choose_strategy(1, &None, &None), PlaylistStrategy::FromSeeds));
    for answer in [None, Some(0)] {
        let mut e = SeedExpansion::new(&tags(&["energetic-track"]), &lib, &vec![true; 3], &None, &vec![], 3);
        while let ExpansionStep::Score { .. } = e.next_action() {
            e.record_choice(answer);
        }
        let playlist = e.into_selected();
        assert_eq!(playlist.len(), 3);
        assert!(playlist.contains(&s("energetic-track")));
    }
}

#[test]
fn expansion_grows_from_the_seed_to_the_requested_length() {
    let lib = vec![
        track("energetic", None, &["energetic"], &[]),
        track("calm", None, &["calm"], &[]),
        track("medium", None, &["bright"], &[]),
    ];
    let mut e = SeedExpansion::new(&tags(&["energetic"]), &lib, &vec![true; 3], &None, &vec![], 3);
    assert_eq!(e.candidates(), &vec![1, 2]);
    let mut rounds = 0;
    loop {
        match e.next_action() {
            ExpansionStep::Done => break,
            ExpansionStep::Score { seed } => {
                assert_eq!(seed, 0);
                e.record_choice(Some(0));
                rounds += 1;
            }
        }
    }
    assert_eq!(rounds, 2);
    assert_eq!(e.into_selected(), tags(&["energetic", "calm", "medium"]));
}

#[test]
fn expansion_takes_the_last_candidate_when_nothing_scores() {
    let lib = vec![
        track("s", None, &[], &[]),
        track("x", None, &[], &[]),
        track("y", None, &[], &[]),
        track("z", None, &[], &[]),
    ];
    let mut e = SeedExpansion::new(&tags(&["s"]), &lib, &vec![true; 4], &None, &vec![], 3);
    assert!(matches!(e.next_action(), ExpansionStep::Score { .. }));
    e.record_choice(None);
    assert_eq!(e.selected(), &tags(&["s", "z"]));
    assert_eq!(e.candidates(), &vec![1, 2]);
    e.record_choice(Some(1));
    assert_eq!(e.selected(), &tags(&["s", "z", "y"]));
    assert!(matches!(e.next_action(), ExpansionStep::Done));
}

#[test]
fn expansion_respects_filters_and_drops_shared_ids() {
    let lib = vec![
        track("dup", Some("A"), &[], &["pop"]),
        track("k", Some("B"), &[], &["pop"]),
        track("dup", None, &[], &["pop"]),
        track("g", None, &[], &["jazz"]),
        track("far", None, &[], &["pop"]),
    ];
    let within = vec![true, true, true, true, false];
    let mut e = SeedExpansion::new(&tags(&["seed"]), &lib, &within, &Some(s("A")), &tags(&["pop"]), 10);
    assert_eq!(e.candidates(), &vec![0, 2]);
    e.record_choice(Some(0));
    assert_eq!(e.selected(), &tags(&["seed", "dup"]));
    assert!(e.candidates().is_empty());
    assert!(matches!(e.next_action(), ExpansionStep::Done));
}

#[test]
fn expansion_without_seeds_selects_nothing() {
    let lib = vec![track("a", None, &[], &[])];
    let e = SeedExpansion::new(&vec![], &lib, &vec![true], &None, &vec![], 5);
    assert!(matches!(e.next_action(), ExpansionStep::Done));
    assert!(e.into_selected().is_empty());
}

#[test]
fn expansion_keeps_seeds_beyond_the_requested_length() {
    let lib = vec![track("a", None, &[], &[]), track("b", None, &[], &[])];
    let e = SeedExpansion::new(&tags(&["p", "q", "r"]), &lib, &vec![true, true], &None, &vec![], 2);
    assert!(matches!(e.next_action(), ExpansionStep::Done));
    assert_eq!(e.into_selected(), tags(&["p", "q", "r"]));
}

#[test]
fn activity_playlist_holds_only_matching_tracks() {
    let mut run = track("run", None, &["energetic"], &[]);
    run.activity_tags = tags(&["workout", "party"]);
    let mut read = track("read", None, &["calm"], &[]);
    read.activity_tags = tags(&["study"]);
    let mut lift = track("lift", None, &[], &[]);
    lift.activity_tags = tags(&["workout"]);
    let lib = vec![run, read, lift];
    assert_eq!(tracks_with_tag(&lib, TagField::Activity, &s("workout")), tags(&["run", "lift"]));
    let p = playlist_by_tag(&lib, TagField::Activity, &s("workout"), 5);
    assert_eq!(p.len(), 2);
    assert!(p.contains(&s("run")) && p.contains(&s("lift")));
    assert!(!p.contains(&s("read")));
    let one = playlist_by_tag(&lib, TagField::Activity, &s("study"), 3);
    assert_eq!(one, tags(&["read"]));
}

#[test]
fn stored_tag_lists() {
    assert_eq!(decode_tags("[\"a\",\"b\"]"), tags(&["a", "b"]));
    assert_eq!(decode_tags("[]"), tags(&[]));
    assert_eq!(decode_tags("not json"), tags(&[]));
    assert_eq!(decode_tags(""), tags(&[]));
    assert_eq!(decode_tags("[1, 2]"), tags(&[]));
    assert_eq!(encode_tags(&tags(&[])), "[]");
    assert_eq!(encode_tags(&tags(&["energetic", "calm"])), "[\"energetic\",\"calm\"]");
    let odd = tags(&["quote \" and \\ slash", "ünïcödé", "line\nbreak"]);
    assert_eq!(decode_tags(&encode_tags(&odd)), odd);
}

#[test]
fn stored_timestamps() {
    assert_eq!(decode_timestamp("2024-01-02T03:04:05Z", 9).ok(), Some((1704164645, 0)));
    assert_eq!(decode_timestamp("2024-01-02T03:04:05.5+01:00", 9).ok(), Some((1704161045, 500_000_000)));
    let e = decode_timestamp("yesterday", 9).err().unwrap();
    assert_eq!(e.column, 9);
}

#[test]
fn stored_track_text() {
    let stored = StoredTrackText {
        mood_tags: s("[\"energetic\"]"),
        activity_tags: s("[\"workout\",\"party\"]"),
        genres: s("garbage"),
        added_at: s("2024-01-02T03:04:05Z"),
    };
    let f = decode_track_text(&stored).ok().unwrap();
    assert_eq!(f.mood_tags, tags(&["energetic"]));
    assert_eq!(f.activity_tags, tags(&["workout", "party"]));
    assert_eq!(f.genres, tags(&[]));
    assert_eq!(f.added_at, (1704164645, 0));
    let bad = StoredTrackText { added_at: s("not a time"), ..stored };
    assert_eq!(decode_track_text(&bad).err().unwrap().column, ADDED_AT_COLUMN);
    assert_eq!(ADDED_AT_COLUMN, 17);
}

#[test]
fn stored_playlist_times() {
    assert_eq!(decode_timestamp("2024-01-02T03:04:05Z", CREATED_AT_COLUMN).ok(), Some((1704164645, 0)));
    assert_eq!(decode_timestamp("x", CREATED_AT_COLUMN).err().unwrap().column, 4);
    assert_eq!(decode_timestamp("y", UPDATED_AT_COLUMN).err().unwrap().column, 5);
}

#[test]
fn tag_json_escapes() {
    assert_eq!(encode_tags(&tags(&["a\u{1}b"])), "[\"a\\u0001b\"]");
    assert_eq!(encode_tags(&tags(&["\u{1f}"])), "[\"\\u001f\"]");
    assert_eq!(encode_tags(&tags(&["t\tn\nr\rb\u{8}f\u{c}"])), "[\"t\\tn\\nr\\rb\\bf\\f\"]");
    assert_eq!(encode_tags(&tags(&["\"\\", "/\u{7f}é"])), "[\"\\\"\\\\\",\"/\u{7f}é\"]");
    let odd = tags(&["a\u{1}b", "\u{1f}", "t\tn"]);
    assert_eq!(decode_tags(&encode_tags(&odd)), odd);
}

#[test]
fn stored_timestamps_read_back() {
    assert_eq!(encode_timestamp(1704164645, 0), "2024-01-02T03:04:05+00:00");
    assert_eq!(encode_timestamp(1704164645, 500_000_000), "2024-01-02T03:04:05.500+00:00");
    assert_eq!(encode_timestamp(1704164645, 123_456_789), "2024-01-02T03:04:05.123456789+00:00");
    assert_eq!(encode_timestamp(-62167219200, 0), "0000-01-01T00:00:00+00:00");
    assert_eq!(encode_timestamp(i64::MAX, 0), "");
    for (secs, nanos) in [(0, 0), (1704164645, 1_000), (-62167219200, 0), (253402300799, 999_999_999)] {
        let text = encode_timestamp(secs, nanos);
        assert_eq!(decode_timestamp(&text, 17).ok(), Some((secs, nanos)));
    }
}

#[test]
fn tag_playlists_name_each_track_once() {
    let lib = vec![
        track("a", None, &["calm"], &[]),
        track("b", None, &["calm", "dark"], &[]),
        track("c", None, &["energetic"], &[]),
        track("d", None, &["calm"], &[]),
    ];
    for count in 0..6 {
        let mut p = playlist_by_tag(&lib, TagField::Mood, &s("calm"), count);
        assert_eq!(p.len(), count.min(3));
        p.sort();
        p.dedup();
        assert_eq!(p.len(), count.min(3));
        assert!(p.iter().all(|id| ["a", "b", "d"].contains(&id.as_str())));
    }
}
