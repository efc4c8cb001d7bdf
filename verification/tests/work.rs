use dub_server::analyze;
use dub_server::analyze::{AnalyzeArgs, Fate, HeardLine};
use dub_server::bench;
use dub_server::bench::Sample;
use dub_server::frame;
use dub_server::json;
use dub_server::ocr;
use dub_server::order;
use dub_server::project::{Project, Segment};
use dub_server::rank;
use dub_server::render;
use dub_server::render::{Container, SingleTrack, SoundPlan};
use dub_server::text;
use dub_server::translate;
use dub_server::translate::{Line, Request, Step};
use dub_server::words;

fn texts(list: &[&str]) -> Vec<String> {
    list.iter().map(|s| s.to_string()).collect()
}

fn args(mode: &str, subs: &str) -> AnalyzeArgs {
    AnalyzeArgs {
        tgt_lang: "ru".into(),
        mode: mode.into(),
        src_lang: "auto".into(),
        subs: subs.into(),
        rewrite: String::new(),
        burn: true,
    }
}

fn line(start: i64, end: i64, src: &str, tgt: &str) -> Segment {
    Segment { start, end, src_text: src.into(), tgt_text: tgt.into(), ..Default::default() }
}

#[test]
fn explicit_modes_are_kept() {
    let (mode, subs) = analyze::resolve_modes(&args("voiceover", "none"));
    assert_eq!((mode.as_str(), subs.as_str()), ("voiceover", "none"));
    let (mode, _) = analyze::resolve_modes(&args("auto", "auto"));
    assert_ne!(mode, "auto");
}

#[test]
fn speech_has_words() {
    assert!(!analyze::has_speech(&vec![], 10_000_000));
    assert!(!analyze::has_speech(&vec![line(0, 100_000, "...", "")], 10_000_000));
    let talk = vec![line(0, 900_000, "one two", ""), line(2_000_000, 2_900_000, "three four five", "")];
    assert!(analyze::has_speech(&talk, 10_000_000));
    assert!(!analyze::has_speech(&talk, 100_000_000));
    let same: Vec<Segment> =
        (0..10).map(|i| line(i * 1_000_000, i * 1_000_000 + 900_000, "la la la la", "")).collect();
    assert!(!analyze::has_speech(&same, 10_000_000));
    assert_eq!(analyze::letter_runs("a1bc, d"), texts(&["a", "bc", "d"]));
}

#[test]
fn heard_lines_become_segments() {
    let hs = vec![
        HeardLine { start: 0, end: 1_000_000, speaker: Some(1), text: " hello ".into() },
        HeardLine { start: 1_000_000, end: 2_000_000, speaker: None, text: "there".into() },
    ];
    let segs = analyze::make_segments(&hs, false);
    assert_eq!(segs.len(), 2);
    assert_eq!(segs[0].src_text.trim(), "hello");
    assert_ne!(segs[0].id, segs[1].id);
}

#[test]
fn silent_films_are_told_apart() {
    let a = args("auto", "auto");
    assert!(matches!(analyze::fate(&a, 0, false), Fate::Silent));
    assert!(matches!(analyze::fate(&a, 3, false), Fate::NoSpeech));
    assert!(matches!(analyze::fate(&args("dub", "auto"), 0, false), Fate::Open));
    assert!(matches!(analyze::fate(&a, 5, true), Fate::Open));
    assert!(analyze::fate_report(Fate::Open).is_none());
    assert!(analyze::fate_report(Fate::NoSpeech).is_some());
    let p = analyze::assemble(&a, vec![line(0, 1, "a", "")], Fate::Open);
    assert_eq!(p.tgt_lang, "ru");
    assert_eq!(p.segments.len(), 1);
}

#[test]
fn stages_fill_the_time() {
    let marks = vec![
        ("asr".to_string(), 0),
        ("tts".to_string(), 2_000_000),
        ("__end__".to_string(), 5_000_000),
    ];
    let lengths = bench::stage_lengths(&marks);
    assert_eq!(lengths, vec![("asr".to_string(), 2_000_000), ("tts".to_string(), 3_000_000)]);
    let s = |gpu: u64| Sample { stage: "tts".into(), gpu, cpu: 1, vram: 5 << 20, ram: 6 << 20 };
    let r = bench::stage_report(&vec![s(10_000), s(30_000)], "tts");
    assert_eq!((r.gpu_avg, r.gpu_max, r.vram_max, r.ram_max), (20, 30, 5, 6));
    assert!(r.gpu_bound);
    assert_eq!(bench::stage_report(&vec![], "tts").gpu_max, 0);
}

#[test]
fn previews_are_small() {
    assert_eq!(frame::scale_width(1920, 1080, true), Some(960));
    assert_eq!(frame::scale_width(1920, 1080, false), None);
    assert_eq!(frame::scale_width(640, 480, true), None);
    assert_ne!(frame::preview_name(true), frame::preview_name(false));
    assert_eq!(frame::report_tail(&"x".repeat(1000)).len(), 600);
}

#[test]
fn locked_subtitles_stay() {
    let mut p = Project::default();
    p.captions.sub_y = Some(700);
    p.captions.sub_y_locked = true;
    assert_eq!(ocr::subtitle_height(&p.captions, Some(100)), Some(700));
    p.captions.sub_y_locked = false;
    assert_eq!(ocr::subtitle_height(&p.captions, Some(100)), Some(100));
    assert!(ocr::sampling(0) >= 1);
}

#[test]
fn rendering_follows_the_mode() {
    assert!(matches!(render::sound_plan("dub"), SoundPlan::Dub));
    assert!(matches!(render::sound_plan("voiceover"), SoundPlan::Voiceover));
    assert!(matches!(render::sound_plan("subs"), SoundPlan::Original));
    let mut p = Project::default();
    p.mode = "dub".into();
    let plan = render::render_plan(&p, 0, 0, 0, true);
    assert!(plan.sound_only && matches!(plan.container, Container::Wav));
    let plan = render::render_plan(&p, 640, 480, 0, true);
    assert!(!plan.sound_only);
    let done = render::finish(&plan, false);
    assert!(matches!(done.single, Some(SingleTrack::Replace)));
    p.mode = "subs".into();
    let plan = render::render_plan(&p, 640, 480, 0, true);
    assert!(matches!(render::finish(&plan, false).single, Some(SingleTrack::Copy)));
    assert_eq!(render::known(5, 7), 5);
    assert_eq!(render::known(0, 7), 7);
}

#[test]
fn sounds_are_named_by_language() {
    let table = vec![("ru".to_string(), "Русский".to_string())];
    assert_eq!(render::lang_display(&table, "ru"), "Русский");
    assert_eq!(render::lang_display(&table, "xx"), "XX");
    assert_eq!(render::lang_display(&table, "auto"), "AUTO");
    assert_eq!(render::lang_display(&table, " "), "Original");
    let n = render::track_names(&table, "ru", "en");
    assert_eq!((n.dub_lang, n.original_lang), ("rus", "eng"));
}

#[test]
fn untranslated_lines_are_found() {
    assert!(translate::looks_untranslated("Hello", "", "ru"));
    assert!(translate::looks_untranslated("Hello", "hello", "ru"));
    assert!(translate::looks_untranslated("Hello", "Good day", "ru"));
    assert!(!translate::looks_untranslated("Hello", "Привет", "ru"));
    assert!(!translate::looks_untranslated("Hello", "Hallo", "de"));
    assert!(translate::tgt_expects_non_latin("ru"));
    assert!(!translate::tgt_expects_non_latin("de"));
    let mut lines = vec![
        Line { text: "Hello".into(), tgt: "Hello".into() },
        Line { text: "Bye".into(), tgt: "Пока".into() },
    ];
    assert_eq!(translate::find_untranslated(&lines, "ru"), vec![0]);
    assert_eq!(translate::take_attempts(&mut lines, &vec![0], &texts(&["Good day"]), "ru"), 1);
    assert_eq!(lines[0].tgt, "Hello");
    assert_eq!(translate::take_attempts(&mut lines, &vec![0], &texts(&["Привет"]), "ru"), 0);
    assert_eq!(lines[0].tgt, "Привет");
    assert_eq!(translate::take_attempts(&mut lines, &vec![0], &texts(&["Hello"]), "ru"), 0);
    assert_eq!(lines[0].tgt, "Привет");
    assert_eq!(translate::take_attempts(&mut lines, &vec![0], &texts(&["Здравствуй"]), "ru"), 0);
    assert_eq!(lines[0].tgt, "Привет");
    assert!(translate::try_again(0, true, 1));
    assert!(!translate::try_again(2, true, 1));
    assert!(!translate::try_again(0, true, 0));
}

#[test]
fn translation_is_planned() {
    let mut p = Project::default();
    p.mode = "dub".into();
    p.tgt_lang = "ru".into();
    let mut q = Request { import_translated: false, rewrite: "", src_lang: "en", server_there: true, model_there: true };
    assert!(matches!(translate::plan(&p, &q), Step::Nothing));
    p.segments = vec![line(0, 1, "a", "")];
    assert!(matches!(translate::plan(&p, &q), Step::Translate));
    q.model_there = false;
    assert!(matches!(translate::plan(&p, &q), Step::NoModel));
    assert!(translate::report(Step::NoModel, "s", "m").unwrap().contains("(m)"));
    q.server_there = false;
    assert!(matches!(translate::plan(&p, &q), Step::NoServer));
    q.src_lang = "ru";
    assert!(matches!(translate::plan(&p, &q), Step::SameLanguage));
    q.import_translated = true;
    assert!(matches!(translate::plan(&p, &q), Step::Imported));
    translate::copy_src_to_tgt(&mut p.segments);
    assert_eq!(p.segments[0].tgt_text, "a");
}

#[test]
fn translation_is_carried_over() {
    let mut segs = vec![line(0, 1, "a", ""), line(1, 2, "b", "")];
    let lines = vec![
        Line { text: "a".into(), tgt: "А".into() },
        Line { text: "b".into(), tgt: "Б".into() },
    ];
    assert_eq!(translate::carry_over(&mut segs, &lines), 2);
    assert_eq!((segs[0].tgt_text.as_str(), segs[1].tgt_text.as_str()), ("А", "Б"));
    let e = translate::read_extra(&json::read("{\"sub_y\":500}").unwrap());
    assert_eq!((e.has_style, e.sub_y, e.brands), (false, Some(500), None));
    let e = translate::read_extra(&json::read("{\"sub_style\":{},\"brands\":[1,{},{}]}").unwrap());
    assert_eq!((e.has_style, e.sub_y, e.brands), (true, None, Some(vec![1, 2])));
}

#[test]
fn words_are_split_and_joined() {
    assert_eq!(words::split_words("  a  b "), texts(&["a", "b"]));
    assert_eq!(words::join(&texts(&["a", "b"]), ", "), "a, b");
    assert_eq!(words::split_once("a --> b", " --> "), Some(("a".to_string(), "b".to_string())));
    assert_eq!(words::split_once("a", "x"), None);
    assert_eq!(words::split_by("a--b", "--"), texts(&["a", "b"]));
    assert_eq!(words::split_up_to("a,b,c", ',', 2), texts(&["a", "b,c"]));
    assert!(words::contains("abc", "bc"));
    assert_eq!(text::split_at_each("a,,b", ','), texts(&["a", "", "b"]));
    assert_eq!(text::trim(" \u{a0}x\t"), "x");
    assert_eq!(text::parse_unsigned("0042"), Some(42));
    assert_eq!(text::parse_unsigned("18446744073709551616"), None);
    assert_eq!(text::to_decimal(1_205), "1205");
    assert_eq!(text::last_chars("привет", 3), "вет");
    assert_eq!(text::first_chars("привет", 3), "при");
}

#[test]
fn orders_are_stable() {
    assert_eq!(rank::stable_sort(&vec![3, 1, 3, 1]), vec![1, 3, 0, 2]);
    assert_eq!(order::sorted_set(texts(&["b", "a", "b"])), texts(&["a", "b"]));
    assert!(order::comes_before("a", "ab"));
    assert!(!order::comes_before("b", "ab"));
}

#[test]
fn speakers_are_wanted_for_a_dub() {
    assert!(analyze::wants_speakers(&args("dub", "auto")));
    assert!(!analyze::wants_speakers(&args("nodub", "auto")));
    assert!(analyze::by_turns(2, 1));
    assert!(!analyze::by_turns(1, 1));
}

#[test]
fn layout_is_looked_at_where_it_is_drawn() {
    let mut p = Project::default();
    p.subs.burn = true;
    p.subs.mode = "translate".into();
    assert!(translate::layout_wanted(&p));
    let c = ocr::compose_ctx(&p, 640, 480, 5);
    assert!(c.do_translate && !c.fresh_subs);
    assert_eq!((c.vw, c.vh, c.total), (640, 480, 5));
    p.subs.mode = "none".into();
    assert!(!translate::layout_wanted(&p));
    assert!(translate::classify_wanted(true, "auto", true));
    assert!(!translate::classify_wanted(true, "film", true));
}
