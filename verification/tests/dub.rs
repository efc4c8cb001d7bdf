use dub_server::dub::ladder::{
    attempt_timeout, count_line, options, pace, retry_budget, token_cap, Ladder, Pace, Step, Take, Trouble,
};
use dub_server::dub::lines::{count_synthesis, heard_lines, is_heard, needs_synthesis, take_id};
use dub_server::dub::mixing;
use dub_server::dub::mixing::{Mix, Sound, Stems};
use dub_server::dub::samples::{
    candidates, choose_samples, own_sample_of, pick_ref_window, seg_is_clean, transcript_text,
};
use dub_server::dub::similarity::{is_bad, is_good, qc_similarity, Share};
use dub_server::dub::slots::{
    build_speech_blocks, fit, overruns, scale_blocks, slot_for, stretch_factor, track_factor, Slot, Span,
};
use dub_server::dub::takes;
use dub_server::dub::timeline;
use dub_server::dub::timeline::{Defect, Piece};
use dub_server::dub::track::{summary, Track};
use dub_server::dub::voices::{
    cloud_voices, pack_plan, read_names, reference_for, reference_text_for, speakers_of, Reference,
    VoiceChoice,
};
use dub_server::project::Segment;

fn line(start: f64, end: f64, speaker: &str, src: &str, tgt: &str) -> Segment {
    Segment {
        id: "s".into(),
        start: (start * 1e6).round() as i64,
        end: (end * 1e6).round() as i64,
        speaker: Some(speaker.to_string()),
        src_text: src.into(),
        tgt_text: tgt.into(),
        ..Default::default()
    }
}

fn texts(list: &[&str]) -> Vec<String> {
    list.iter().map(|s| s.to_string()).collect()
}

#[test]
fn only_lines_with_words_are_heard() {
    let mut segs = vec![line(0.0, 1.0, "0", "a", "b"), line(1.0, 2.0, "0", "a", "  "), line(2.0, 3.0, "0", "a", "b")];
    segs[2].hidden = true;
    assert_eq!(heard_lines(&segs), vec![0]);
    segs[1].keep_original = true;
    assert_eq!(heard_lines(&segs), vec![0, 1]);
    assert!(!is_heard(&segs[2]));
    assert_eq!(count_synthesis(&segs, &vec![false, false, false], false), 1);
    assert_eq!(count_synthesis(&segs, &vec![true, false, false], false), 0);
    assert!(needs_synthesis(true, true, true));
    assert!(!needs_synthesis(false, true, true));
}

#[test]
fn takes_are_named_after_their_line() {
    assert_eq!(take_id("s_0-a", 4), "s_0a");
    assert_eq!(take_id("--", 4), "i4");
}

#[test]
fn tokens_follow_the_length() {
    assert_eq!(token_cap(0, 600_000), 100);
    assert_eq!(token_cap(0, 100_000), 100);
    assert_eq!(token_cap(0, 1_000_000), 145);
    assert_eq!(token_cap(0, 100_000_000), 2048);
    assert_eq!(attempt_timeout(0, 1_000_000), 45);
    assert_eq!(attempt_timeout(0, 10_000_000), 80);
}

#[test]
fn pace_follows_the_density() {
    assert_eq!(pace(true, 14, 0, 1_000_000), Pace::Normal);
    assert_eq!(pace(true, 28, 0, 1_000_000), Pace::Dense);
    assert_eq!(pace(true, 7, 0, 1_000_000), Pace::Sparse);
    assert_eq!(pace(false, 28, 0, 1_000_000), Pace::Normal);
}

#[test]
fn settings_change_with_the_attempt() {
    assert_eq!(
        options(0, 3, Pace::Normal, 100),
        "{\"temperature\":0.30,\"top_p\":0.95,\"top_k\":50,\"max_new_tokens\":100,\"ras_win_len\":7,\"return_audio_in_tokens\":true}"
    );
    assert_eq!(
        options(2, 3, Pace::Dense, 100),
        "{\"temperature\":0.10,\"top_p\":0.90,\"top_k\":50,\"max_new_tokens\":100,\"ras_win_len\":7,\"return_audio_in_tokens\":true,\"seed\":3002}"
    );
    assert!(options(3, 3, Pace::Dense, 100).contains("\"temperature\":0.18"));
    assert!(options(3, 3, Pace::Dense, 100).contains("ras_win_max_num_repeat"));
}

#[test]
fn best_faulty_take_is_used_at_last() {
    let mut l = Ladder::new();
    assert_eq!(l.advance(Take::Faulty { score: 3 }), Step::Again);
    assert_eq!(l.advance(Take::Faulty { score: 9 }), Step::Again);
    assert_eq!(l.advance(Take::Failed), Step::Again);
    assert!(l.uses_alternative(true));
    assert!(!l.uses_alternative(false));
    assert_eq!(l.advance(Take::Faulty { score: 5 }), Step::Again);
    assert_eq!(l.advance(Take::Failed), Step::UseBest { attempt: 1 });
    let mut l = Ladder::new();
    for _ in 0..4 {
        assert_eq!(l.advance(Take::Failed), Step::Again);
    }
    assert_eq!(l.advance(Take::Failed), Step::KeepOriginal);
    assert_eq!(Ladder::new().advance(Take::Clean), Step::Accept);
    assert_eq!(Ladder::new().advance(Take::Stuck), Step::Abort);
}

#[test]
fn too_much_trouble_ends_the_work() {
    assert_eq!(retry_budget(10_000_000), 20);
    assert_eq!(retry_budget(1_000_000_000), 100);
    let mut t = Trouble { in_a_row: 0, retries: 0 };
    for _ in 0..8 {
        assert!(count_line(&mut t, 1, 100));
    }
    assert!(!count_line(&mut t, 1, 100));
    let mut t = Trouble { in_a_row: 0, retries: 0 };
    assert!(count_line(&mut t, 5, 8));
    assert!(!count_line(&mut t, 4, 8));
    assert!(count_line(&mut t, 0, 8));
    assert_eq!(t.in_a_row, 0);
}

#[test]
fn slots_reach_to_the_next_line() {
    let segs = vec![line(0.0, 1.0, "0", "", "a"), line(3.0, 4.0, "0", "", "b")];
    let s = slot_for(&segs, 0, 10_000_000, 0, false);
    assert_eq!(s, Slot { at: 0, target: 3_000_000, drift: 0 });
    let s = slot_for(&segs, 0, 10_000_000, 500_000, true);
    assert_eq!(s, Slot { at: 500_000, target: 1_000_000, drift: 500_000 });
    let s = slot_for(&segs, 1, 3_100_000, 0, false);
    assert_eq!(s.target, 300_000);
}

#[test]
fn late_lines_are_hurried() {
    let late = Slot { at: 1_000_000, target: 2_000_000, drift: 700_000 };
    let f = fit(&late, 3_000_000, true, false, 1_250_000);
    assert_eq!((f.needed, f.cap), (1_500_000, 1_500_000));
    assert!(f.escalated && !f.over);
    let calm = Slot { at: 1_000_000, target: 2_000_000, drift: 0 };
    let f = fit(&calm, 3_000_000, true, false, 1_250_000);
    assert_eq!(f.cap, 1_250_000);
    assert!(f.over && !f.escalated);
    assert_eq!(fit(&calm, 3_000_000, false, false, 1_250_000).cap, 10_000_000);
    assert_eq!(stretch_factor(3_000_000, 2_000_000, 1_250_000), Some(1_250_000));
    assert_eq!(stretch_factor(2_000_000, 2_000_000, 1_250_000), None);
    assert_eq!(stretch_factor(1_000_000, 2_000_000, 1_250_000), Some(850_000));
}

#[test]
fn close_lines_make_one_block() {
    let spans = vec![
        Span { start: 5_000_000, end: 6_000_000 },
        Span { start: 0, end: 1_000_000 },
        Span { start: 2_000_000, end: 3_000_000 },
    ];
    let blocks = build_speech_blocks(&spans);
    assert_eq!(blocks, vec![Span { start: 0, end: 3_000_000 }, Span { start: 5_000_000, end: 6_000_000 }]);
    assert_eq!(
        scale_blocks(&blocks, 2_000_000, 1_000_000),
        vec![Span { start: 0, end: 1_500_000 }, Span { start: 2_500_000, end: 3_000_000 }]
    );
    assert!(overruns(1_200_000, 1_000_000));
    assert!(!overruns(1_100_000, 1_000_000));
    assert_eq!(track_factor(1_200_000, 1_000_000), Some(1_200_000));
    assert_eq!(track_factor(1_000_000, 700_000), Some(1_428_572));
    assert_eq!(track_factor(1_100_000, 1_000_000), None);
}

#[test]
fn heard_words_are_compared() {
    assert!(!is_bad(qc_similarity("привет мой друг", "Привет, мой друг!")));
    assert!(is_bad(qc_similarity("привет мой друг", "совсем другие слова здесь")));
    assert!(is_bad(qc_similarity("привет", "")));
    assert!(is_good(Share { hit: 1, of: 2 }));
    assert!(!is_good(Share { hit: 1, of: 3 }));
    assert!(!is_bad(Share { hit: 7, of: 20 }));
    assert!(is_bad(Share { hit: 6, of: 20 }));
}

#[test]
fn samples_come_from_clean_lines() {
    let segs = vec![
        line(0.0, 9.0, "0", "одна длинная чистая реплика", "x"),
        line(8.0, 12.0, "1", "поверх", "x"),
        line(20.0, 28.0, "0", "другая длинная чистая реплика", "x"),
    ];
    let ix = vec![0, 1, 2];
    assert!(!seg_is_clean(&segs, &ix, 0));
    assert!(seg_is_clean(&segs, &ix, 2));
    let w = pick_ref_window(&segs, &ix, "0", 12_000_000).unwrap();
    assert_eq!(w.line, 2);
    assert!(w.start >= 20_000_000 && w.end <= 28_000_000);
    assert!(pick_ref_window(&segs, &ix, "5", 12_000_000).is_none());
    let own = own_sample_of(&segs, &ix, 2, true, false, 12_000_000).unwrap();
    assert_eq!((own.start, own.end), (20_000_000, 28_000_000));
    assert_eq!(own.text.as_deref(), Some("другая длинная чистая реплика"));
    assert!(own_sample_of(&segs, &ix, 2, true, true, 12_000_000).is_none());
    assert!(own_sample_of(&segs, &ix, 0, true, false, 12_000_000).is_none());
    let c = candidates(&segs, &ix, "0", 12_000_000);
    assert!(c.iter().all(|k| segs[*k].speaker_key() == "0"));
    assert!(!c.is_empty());
}

#[test]
fn sample_that_says_its_line_is_chosen() {
    let lines = texts(&["один два три", "четыре пять шесть"]);
    let c = choose_samples(&lines, &vec![Some("ничего похожего".to_string()), Some("четыре пять шесть".to_string())]);
    assert_eq!(c.main, 1);
    assert!(c.verified);
    let c = choose_samples(&lines, &vec![Some("а".to_string()), Some("б".to_string())]);
    assert_eq!(c.main, 0);
    assert!(!c.verified);
    assert_eq!(transcript_text(&texts(&[" a ", "", "b"])).as_deref(), Some("a b"));
    assert_eq!(transcript_text(&texts(&["  "])), None);
}

#[test]
fn further_take_is_used_where_it_is_closer() {
    assert_eq!(takes::closest_take(3_000_000, &vec![Some(2_100_000), Some(2_500_000)], 2_000_000), (Some(0), 100_000));
    assert_eq!(takes::closest_take(2_000_000, &vec![Some(2_000_000), None], 2_000_000), (None, 0));
    assert_eq!(
        takes::take_options(2, 3, 64),
        "{\"temperature\":0.35,\"top_p\":0.95,\"top_k\":50,\"max_new_tokens\":64,\"ras_win_len\":7,\"return_audio_in_tokens\":true,\"seed\":30277}"
    );
    assert!(takes::wants_more_takes(true, true, false, false));
    assert!(!takes::wants_more_takes(true, true, false, true));
    assert!(takes::speaks_ahead(2, 2));
    assert!(!takes::speaks_ahead(2, 1));
}

#[test]
fn misheard_lines_are_spoken_again() {
    let lines = texts(&["привет мой друг", "до скорой встречи"]);
    let heard = vec![Some("привет мой друг".to_string())];
    assert_eq!(takes::misheard_lines(&lines, &heard), vec![1]);
    let plan = takes::again_plan(2, 64, true);
    assert_eq!(plan.len(), 3);
    assert!(plan[0].alternative && plan[1].alternative && !plan[2].alternative);
    assert_eq!(
        plan[2].options,
        "{\"temperature\":0.10,\"top_p\":0.90,\"top_k\":50,\"max_new_tokens\":64,\"ras_win_len\":7,\"return_audio_in_tokens\":true,\"seed\":2088}"
    );
    assert_eq!(takes::again_plan(2, 64, false).len(), 1);
    assert_eq!(takes::again_report(3, 1), "QC summary: fixed 2/3, still flagged 1");
    assert!(takes::is_compared(false, true, false, "a"));
    assert!(!takes::is_compared(false, true, false, " "));
}

#[test]
fn lines_follow_one_another_on_the_track() {
    let segs = vec![line(0.0, 2.0, "0", "", "a"), line(1.0, 3.0, "0", "", "b"), line(9.0, 9.5, "0", "", "c")];
    let mut t = Track::new();
    assert_eq!(summary(&t), None);
    for i in 0..2 {
        let s = t.slot(&segs, i, 10_000_000, false);
        let f = fit(&s, 4_000_000, true, false, 1_250_000);
        t.lay(i, &s, &f, 4_000_000, 3_000_000);
    }
    t.keep(2, segs[2].start, 500_000);
    let at: Vec<i64> = t.placed.iter().map(|p| p.at).collect();
    assert_eq!(at, vec![0, 3_000_000, 9_000_000]);
    assert_eq!(t.cursor, 9_500_000);
    assert_eq!((t.fitted, t.over, t.escalated), (2, 1, 0));
    assert_eq!(summary(&t).unwrap(), "fitting: 1/2 segment(s) above cap (50%)");
    t.escalated = 1;
    assert_eq!(summary(&t).unwrap(), "fitting: 1/2 segment(s) above cap (50%), sync catch-up on 1");
    t.replace(1, 7);
    assert_eq!(t.placed[1].length, 7);
}

#[test]
fn lines_are_laid_without_overlap() {
    let ps = vec![
        Piece { start: 1_000_000, samples: 24_000 },
        Piece { start: 0, samples: 36_000 },
        Piece { start: 3_500_000, samples: 100 },
    ];
    let t = timeline::timeline(&ps, 4_000_000, 24_000, true);
    assert_eq!(t.order, vec![1, 0, 2]);
    let first: Vec<u128> = t.extents.iter().map(|e| timeline::begins_at(e.at)).collect();
    assert_eq!(first, vec![0, 36_000, 84_000]);
    assert_eq!(t.length, 108_000);
    assert_eq!(t.breaths.len(), 1);
    assert_eq!(t.breaths[0].seed, 2);
    assert_eq!(t.breaths[0].samples, 5_280);
    assert_eq!(timeline::begins_at(t.breaths[0].at), 84_000 - 5_280 - 960);
    assert_eq!(timeline::to_micros(t.extents[1].at, 24_000), 1_500_000);
    assert!(timeline::timeline(&ps, 4_000_000, 24_000, false).breaths.is_empty());
    assert_eq!(timeline::timeline(&vec![], 1_000_000, timeline::SILENT_RATE, true).length, 24_000);
}

#[test]
fn faulty_takes_are_found() {
    assert_eq!(timeline::length_defect(24_000 * 7, 24_000, 10), Some(Defect::Runaway));
    assert_eq!(timeline::length_defect(24_000 * 6, 24_000, 10), None);
    assert_eq!(timeline::length_defect(2_400, 24_000, 10), Some(Defect::Cutoff));
    assert_eq!(timeline::length_defect(2_400, 24_000, 0), None);
    assert_eq!(timeline::length_defect(0, 24_000, 10), None);
    assert_eq!(timeline::length_defect(10, 0, 10), None);
    assert_eq!(timeline::loudness_windows(24_000, 24_000), Some((600, 40)));
    assert_eq!(timeline::loudness_windows(2_000, 24_000), None);
    assert_eq!(timeline::defect(None, true, true, false, false), Some(Defect::Silence));
    assert_eq!(timeline::defect(None, true, false, true, true), Some(Defect::Hum));
    assert_eq!(timeline::defect(None, true, false, true, false), None);
    assert_eq!(timeline::defect(Some(Defect::Cutoff), true, true, true, true), Some(Defect::Cutoff));
}

#[test]
fn mixing_falls_back() {
    assert_eq!(mixing::stems(true, false, true, false), Stems::Cached);
    assert_eq!(mixing::stems(true, false, false, true), Stems::Part);
    assert_eq!(mixing::stems(true, false, false, false), Stems::Missing);
    assert_eq!(mixing::stems(true, true, true, true), Stems::Whole);
    assert!(mixing::has_music(Stems::Part) && !mixing::has_music(Stems::Missing));
    assert_eq!(mixing::voiceover_duck(-50_000), -40_000);
    assert_eq!(mixing::voiceover_duck(5), 0);
    assert_eq!(mixing::voiceover_duck(-12_000), -12_000);
    assert_eq!(mixing::duck_setting(Some(" -6.5 ")), Some(-6_500_000));
    assert_eq!(mixing::duck_setting(Some("soft")), None);
    assert_eq!(mixing::duck_setting(None), None);
    assert!(mixing::flattens(-50) && !mixing::flattens(-49));
    assert!(mixing::wants_gain(51) && !mixing::wants_gain(50));
    assert_eq!(mixing::first_mix(false, true, true), Mix::Envelope);
    assert_eq!(mixing::next_mix(Mix::Envelope, false), Some(Mix::Sidechain));
    assert_eq!(mixing::next_mix(Mix::Sidechain, false), Some(Mix::Direct));
    assert_eq!(mixing::next_mix(Mix::Direct, false), None);
    assert_eq!(mixing::next_mix(Mix::Envelope, true), Some(Mix::Flat));
    assert_eq!(mixing::first_mix(false, false, true), Mix::Alone);
    assert_eq!(mixing::first_mix(false, true, false), Mix::Direct);
    assert_eq!(mixing::final_sound(true, 100, true), Sound::Gained);
    assert_eq!(mixing::final_sound(true, 100, false), Sound::Normalized);
    assert_eq!(mixing::final_sound(false, 0, false), Sound::Mixed);
}

#[test]
fn voices_are_given_out_by_place() {
    let segs = vec![line(0.0, 1.0, "b", "", "x"), line(1.0, 2.0, "a", "", "y")];
    let who = speakers_of(&segs);
    assert_eq!(who, texts(&["a", "b"]));
    assert_eq!(read_names(" A , -,"), texts(&["A", "-", ""]));
    let plan = pack_plan("A,-,", 3);
    assert!(matches!(&plan[0], VoiceChoice::Named(n) if n == "A"));
    assert!(matches!(&plan[1], VoiceChoice::Clone));
    assert!(matches!(&plan[2], VoiceChoice::Named(n) if n == "A"));
    let cast = vec![("a".to_string(), "Puck".to_string()), ("b".to_string(), "Kore".to_string())];
    let v = cloud_voices("voice", "-,Mine", &who, &cast);
    assert_eq!(v, vec![Some("Puck".to_string()), Some("Mine".to_string())]);
    let v = cloud_voices("clone", "-,Mine", &who, &vec![]);
    assert_eq!(v, vec![None, None]);
}

#[test]
fn lines_follow_the_sample_of_their_speaker() {
    let s = line(0.0, 1.0, "a", "", "x");
    assert_eq!(reference_for(&texts(&["a"]), &vec![], &s), Reference::Pack);
    assert_eq!(reference_for(&texts(&["b"]), &texts(&["a"]), &s), Reference::Own);
    assert_eq!(reference_for(&vec![], &texts(&["b"]), &s), Reference::First);
    let said = vec![("a".to_string(), "words".to_string()), ("b".to_string(), "others".to_string())];
    assert_eq!(reference_text_for(&vec![], &texts(&["a"]), &said, &s).as_deref(), Some("words"));
    let other = line(0.0, 1.0, "c", "", "x");
    assert_eq!(reference_text_for(&vec![], &texts(&["c"]), &said, &other), None);
    assert_eq!(reference_text_for(&vec![], &texts(&["a"]), &said, &other).as_deref(), Some("words"));
}

#[test]
fn blocks_of_speech_join_short_pauses_in_any_order() {
    let span = |start: i64, end: i64| Span { start, end };
    let spans = vec![span(9_000_000, 9_500_000), span(0, 1_000_000), span(2_599_999, 3_000_000), span(0, 200_000)];
    let want = vec![span(0, 3_000_000), span(9_000_000, 9_500_000)];
    assert_eq!(build_speech_blocks(&spans), want);
    let mut other = spans.clone();
    other.reverse();
    assert_eq!(build_speech_blocks(&other), want);
    other.swap(0, 2);
    assert_eq!(build_speech_blocks(&other), want);
    assert_eq!(
        build_speech_blocks(&vec![span(0, 1_000_000), span(2_600_000, 3_000_000)]),
        vec![span(0, 1_000_000), span(2_600_000, 3_000_000)]
    );
}
