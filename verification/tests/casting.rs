use dub_server::casting::avatar;
use dub_server::casting::avatar::{FaceBox, Part, Rating};
use dub_server::casting::clusters::Clusters;
use dub_server::casting::notes;
use dub_server::casting::notes::{
    casting_voice_map, merge_voice_csv, speech_notes_to_style, voice_in, Casting, Character, Known,
    Profile, Stage,
};
use dub_server::casting::ranking::{speakers_by_talktime, Talker};
use dub_server::casting::relabel;
use dub_server::f0;
use dub_server::f0::{gender_of, Gender};
use dub_server::json;
use dub_server::project::Segment;

fn ch(name: &str, note: &str, voice: &str, spk: &[&str]) -> Character {
    Character {
        id: "x".into(),
        name: name.into(),
        speech_note: note.into(),
        dub_voice: voice.into(),
        speaker_ids: spk.iter().map(|s| s.to_string()).collect(),
        ..Default::default()
    }
}

fn seg(spk: &str, a: f64, b: f64) -> Segment {
    Segment {
        start: (a * 1e6) as i64,
        end: (b * 1e6) as i64,
        speaker: Some(spk.to_string()),
        ..Default::default()
    }
}

fn texts(list: &[&str]) -> Vec<String> {
    list.iter().map(|s| s.to_string()).collect()
}

#[test]
fn speech_notes_joined_with_names() {
    let mut c = Casting::default();
    c.characters.push(ch("Босс", "грубый бас", "clone", &["0"]));
    c.characters.push(ch("", "", "clone", &["1"]));
    c.characters.push(ch("Няня", "мягко", "clone", &["2"]));
    let s = speech_notes_to_style(&c);
    assert_eq!(s, "Босс: грубый бас; Няня: мягко");
}

#[test]
fn voice_map_clone_is_none() {
    let mut c = Casting::default();
    c.characters.push(ch("A", "", "clone", &["0"]));
    c.characters.push(ch("B", "", "Мужской1", &["1"]));
    let m = casting_voice_map(&c);
    assert_eq!(voice_in(&m, "0"), Some(None));
    assert_eq!(voice_in(&m, "1"), Some(Some("Мужской1".to_string())));
    assert_eq!(voice_in(&m, "2"), None);
}

#[test]
fn merge_preserves_speakers_not_in_casting() {
    let sorted = vec!["0".to_string(), "1".to_string(), "2".to_string()];
    let vmap = vec![("1".to_string(), Some("W1".to_string()))];
    let csv = merge_voice_csv(&sorted, &vmap, Some("V0,V1,V2"), true);
    assert_eq!(csv, "V0,W1,V2");
}

#[test]
fn merge_clone_only_for_explicit_clone_in_casting() {
    let sorted = vec!["0".to_string(), "1".to_string(), "2".to_string()];
    let vmap = vec![("1".to_string(), None)];
    let csv = merge_voice_csv(&sorted, &vmap, Some("V0,V1"), true);
    assert_eq!(csv, "V0,-,-");
}

#[test]
fn merge_ignores_old_csv_when_not_voice_mode() {
    let sorted = vec!["0".to_string(), "1".to_string()];
    let vmap = vec![("0".to_string(), Some("W0".to_string()))];
    let csv = merge_voice_csv(&sorted, &vmap, Some("junk,junk"), false);
    assert_eq!(csv, "W0,-");
}

#[test]
fn talktime_ranks_by_duration_desc() {
    let segments = vec![
        seg("1", 0.0, 1.0),
        seg("0", 1.0, 6.0),
        seg("0", 6.0, 8.0),
        seg("1", 8.0, 8.5),
    ];
    let r = speakers_by_talktime(&segments);
    assert_eq!(r[0].speaker, "0");
    assert_eq!(r[0].lines, 2);
    assert_eq!(r[1].speaker, "1");
    assert_eq!(r[0].talk, 7_000_000);
    assert_eq!(r[1].talk, 1_500_000);
}

#[test]
fn gender_from_f0() {
    assert_eq!(gender_of(110_000_000), Gender::Male);
    assert_eq!(gender_of(220_000_000), Gender::Female);
    assert_eq!(gender_of(150_000_000), Gender::Male);
    assert_eq!(gender_of(200_000_000), Gender::Female);
    assert_eq!(gender_of(156_000_000), Gender::Male);
    assert_eq!(gender_of(164_000_000), Gender::Female);
}

#[test]
fn voices_join_the_nearest_pair_first() {
    let mut c = Clusters::start(3);
    assert_eq!(c.count(), 3);
    assert_eq!(c.pairs(), vec![(0, 1), (0, 2), (1, 2)]);
    let joined = c.step(&vec![Some(10), Some(90), Some(20)], 50);
    assert!(joined.is_some());
    assert_eq!(c.count(), 2);
    assert_eq!(c.labels(), vec![0, 1, 0]);
    assert!(c.step(&vec![Some(10)], 50).is_none());
    assert_eq!(c.count(), 2);
}

#[test]
fn groups_are_numbered_as_they_appear() {
    let mut c = Clusters::start(4);
    assert_eq!(c.step(&vec![None, None, None, None, Some(80), None], 50), Some(1));
    assert_eq!(c.labels(), vec![0, 1, 2, 1]);
    assert_eq!(c.step(&vec![None, Some(70), Some(60)], 50), Some(0));
    assert_eq!(c.labels(), vec![0, 1, 0, 1]);
}

#[test]
fn lines_get_the_voice_of_their_group() {
    let mut segs = vec![seg("9", 0.0, 1.0), seg("9", 1.0, 2.0), seg("9", 2.0, 3.0)];
    relabel::rename_speakers(&mut segs, &vec![0, 2], &vec![0, 1]);
    let who: Vec<String> = segs.iter().map(|s| s.speaker_key()).collect();
    assert_eq!(who, vec!["v0", "v0", "v1"]);
    assert_eq!(relabel::count_speakers(&segs), 2);
}

#[test]
fn fingerprint_follows_the_lines() {
    let a = vec![seg("0", 0.0, 1.0)];
    let b = vec![seg("0", 0.0, 1.5)];
    assert_eq!(relabel::segments_fingerprint(&a), relabel::segments_fingerprint(&a));
    assert_ne!(relabel::segments_fingerprint(&a), relabel::segments_fingerprint(&b));
}

#[test]
fn short_lines_are_not_measured() {
    assert_eq!(relabel::measured_part(&seg("0", 0.0, 0.5)), None);
    assert_eq!(relabel::measured_part(&seg("0", 1.0, 3.0)), Some((1_000_000, 3_000_000)));
    assert_eq!(relabel::measured_part(&seg("0", 1.0, 30.0)), Some((1_000_000, 7_000_000)));
}

#[test]
fn pictures_come_from_the_lines_of_the_speaker() {
    let segs = vec![seg("0", 0.0, 1.2), seg("1", 1.2, 9.0)];
    let times = avatar::avatar_times(&segs, "0");
    assert_eq!(times.len(), 2);
    for t in times {
        assert!(t > 0 && t < 1_200_000);
    }
    assert!(avatar::avatar_times(&segs, "7").is_empty());
}

#[test]
fn better_face_wins() {
    let plain = Rating { quality: Some(10), large: true };
    let fine = Rating { quality: Some(20), large: true };
    assert!(avatar::is_better(None, plain));
    assert!(avatar::is_better(Some(plain), fine));
    assert!(!avatar::is_better(Some(fine), plain));
}

#[test]
fn voice_samples_have_a_length() {
    assert_eq!(avatar::voice_sample(&seg("0", 0.0, 0.5)), None);
    assert_eq!(avatar::voice_sample(&seg("0", 1.0, 3.0)), Some((1_000_000, 3_000_000)));
    assert_eq!(avatar::voice_sample(&seg("0", 1.0, 30.0)), Some((1_000_000, 7_000_000)));
    assert_eq!(avatar::longest_line(&vec![seg("0", 0.0, 1.0), seg("0", 1.0, 4.0)], "0"), Some(1));
    assert_eq!(avatar::longest_line(&vec![seg("0", 0.0, 1.0)], "1"), None);
    assert_eq!(avatar::gender_label(110_000_000), Some("male"));
    assert_eq!(avatar::gender_label(0), None);
}

#[test]
fn face_part_stays_in_the_picture() {
    let face = FaceBox { x1: 100_000, y1: 100_000, x2: 200_000, y2: 180_000 };
    assert_eq!(avatar::square_face_crop(&face, 350, 640, 480), Part { x: 82, y: 72, w: 135, h: 135 });
    let corner = FaceBox { x1: 0, y1: 0, x2: 100_000, y2: 100_000 };
    let p = avatar::square_face_crop(&corner, 350, 110, 480);
    assert_eq!((p.x, p.w), (0, 110));
    assert_eq!((p.y, p.h), (0, 117));
}

#[test]
fn earlier_casting_is_taken_up() {
    assert!(notes::is_anime("anime"));
    assert!(!notes::is_anime("film"));
    let ranked = vec![Talker { speaker: "3".into(), talk: 5, lines: 2 }];
    let known = vec![Known { gender: "female".into(), sample_frame: "a.jpg".into() }];
    let cs = notes::build_characters(&ranked, &known);
    assert_eq!(cs.len(), 1);
    assert_eq!(cs[0].speaker_ids, texts(&["3"]));
    assert_eq!(cs[0].gender, "female");
    assert_eq!(cs[0].sample_frame, "a.jpg");
    assert_eq!(notes::count_named(&cs), 0);
    assert!(matches!(notes::stage(false, 3), Stage::Off));
    assert!(matches!(notes::stage(true, 0), Stage::NoLines));
    assert!(matches!(notes::stage(true, 3), Stage::Run));
    assert!(matches!(notes::profile(""), Profile::Nothing));
    assert!(matches!(notes::profile("../etc"), Profile::Refused(_)));
    assert!(matches!(notes::profile("season-1"), Profile::Named(_)));
}

#[test]
fn kept_measurements_are_taken_up_only_for_the_same_lines() {
    let kept = json::read("{\"n\":2,\"fp\":7}").unwrap();
    assert!(!relabel::cache_holds(&kept, 3, 7));
}

#[test]
fn pitch_is_looked_for_in_frames() {
    assert!(f0::grid(10, 16_000).is_none());
    assert!(f0::grid(16_000, 0).is_none());
    let g = f0::grid(16_000, 16_000).unwrap();
    assert!(g.hop >= 1 && g.min_lag < g.max_lag && g.max_lag < g.frame);
    let starts = f0::frame_starts(&g, 16_000);
    assert_eq!(starts[0], 0);
    assert!(starts.iter().all(|s| s + g.frame <= 16_000));
    assert_eq!(f0::middle_lags(&vec![]), None);
    assert_eq!(f0::middle_lags(&vec![9, 3, 5]), Some((5, 5)));
    assert_eq!(f0::middle_lags(&vec![9, 3, 5, 7]), Some((7, 5)));
}

#[test]
fn groups_are_made_until_there_are_few_enough() {
    assert_eq!(relabel::lower(9, 8, 300_000), Some(280_000));
    assert_eq!(relabel::lower(8, 8, 300_000), None);
    assert_eq!(relabel::lower(9, 8, 180_000), None);
    assert_eq!(relabel::lower(9, 8, 190_000), Some(170_000));
    assert_eq!(relabel::first_likeness(None), Some(300_000));
    assert_eq!(relabel::first_likeness(Some(" 0.45 ")), Some(450_000));
    assert_eq!(relabel::first_likeness(Some("much")), Some(300_000));
    assert_eq!(relabel::first_likeness(Some("0")), None);
    assert_eq!(relabel::first_likeness(Some("0.0")), None);
    assert!(relabel::regroups(None, 2));
    assert!(relabel::regroups(Some("1"), 2));
    assert!(!relabel::regroups(Some("0"), 2));
    assert!(!relabel::regroups(None, 1));
    assert_eq!(relabel::measured_sound(true, true), Some("vocals16_clean.wav"));
    assert_eq!(relabel::measured_sound(false, true), Some("vocals16.wav"));
    assert_eq!(relabel::measured_sound(false, false), None);
    assert!(relabel::worth_it(3, 2));
    assert!(!relabel::worth_it(2, 2));
    assert!(!relabel::worth_it(1, 0));
    assert_eq!(relabel::max_characters(Some("5")), 5);
    assert_eq!(relabel::max_characters(None), 8);
    assert_eq!(relabel::max_characters(Some("x")), relabel::max_characters(None));
    assert_eq!(relabel::end_of_cut(0, 10, 6_000_000), 50_000);
}

#[test]
fn pictures_of_one_kind_are_compared() {
    assert!(notes::comparable("", false));
    assert!(!notes::comparable("", true));
    assert!(notes::comparable(notes::kind(true), true));
    assert_eq!(notes::sanitize("a/b c"), notes::sanitize("a/b c"));
    assert!(!notes::sanitize("a/b").contains('/'));
    assert_eq!(avatar::pitch_sample(&seg("0", 1.0, 60.0)), (1_000_000, 31_000_000));
}

#[test]
fn first_hill_gives_the_period() {
    assert_eq!(f0::lobe_peak(&vec![1, 2, 3], 5), None);
    assert_eq!(f0::lobe_peak(&vec![1, 6, 8, 7, 2, 9], 5), Some(2));
}

#[test]
fn large_face_is_clear() {
    let face = avatar::FaceBox { x1: 10_000, y1: 20_000, x2: 110_000, y2: 116_000 };
    assert_eq!(avatar::face_side(&face), 96_000);
    assert_eq!(avatar::least_face(None), 96_000_000);
    assert!(avatar::is_large(&face, avatar::least_face(None)));
    assert!(!avatar::is_large(&face, avatar::least_face(Some("96.5"))));
    let turned = avatar::FaceBox { x1: 10, y1: 0, x2: 0, y2: 50 };
    assert_eq!(avatar::face_side(&turned), 0);
}
