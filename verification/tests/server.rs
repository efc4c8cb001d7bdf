use dub_server::jobs::{new_job_id, progress_event, short_id, JobTable, Tell, Turn};
use dub_server::json;
use dub_server::json::Json;
use dub_server::project::Segment;
use dub_server::record;
use dub_server::record::{Device, Meter};
use dub_server::server;
use dub_server::server::{Files, Play};
use dub_server::spa;
use dub_server::spa::{Answer, Found};

fn texts(list: &[&str]) -> Vec<String> {
    list.iter().map(|s| s.to_string()).collect()
}

fn line(id: &str, start: i64, end: i64, speaker: &str, src: &str) -> Segment {
    Segment {
        id: id.into(),
        start,
        end,
        speaker: Some(speaker.to_string()),
        src_text: src.into(),
        ..Default::default()
    }
}

#[test]
fn project_names_stay_in_their_place() {
    assert!(server::is_project_id("0123456789ab"));
    assert!(!server::is_project_id(""));
    assert!(!server::is_project_id("../x"));
    assert!(!server::is_project_id("a/b"));
}

#[test]
fn voice_names_are_cleaned() {
    assert_eq!(server::sanitize_voice_name("  Мой/голос:1  "), "Мойголос1");
    assert_eq!(server::sanitize_voice_name("///"), "Мой голос");
    assert_eq!(server::sanitize_voice_name(&"я".repeat(60)).chars().count(), 48);
    assert_eq!(server::safe_file_name("a/b.srt", "x"), "ab.srt");
    assert_eq!(server::safe_file_name("/", "x"), "x");
}

#[test]
fn names_are_split_at_the_last_point() {
    assert_eq!(server::split_name("a.b.mp4"), ("a.b".to_string(), Some("mp4".to_string())));
    assert_eq!(server::split_name(".hidden"), (".hidden".to_string(), None));
    assert_eq!(server::source_name(Some("film.MKV")), "source.MKV");
    assert_eq!(server::source_name(None), "source.mp4");
    assert_eq!(server::list_voice_names(&texts(&["b.WAV", "a.mp3", "a.wav", "c.txt"])), texts(&["a", "b"]));
    assert_eq!(server::relative_path("//a/b"), "a/b");
}

#[test]
fn programs_are_searched_in_more_places() {
    assert_eq!(server::augment_path("/bin:/usr/bin", ':', &texts(&["/opt", "/bin"])).as_deref(), Some("/opt:/bin:/usr/bin"));
    assert_eq!(server::augment_path("/bin", ':', &texts(&["/bin"])), None);
    assert_eq!(server::setting_or(Some("/x"), "/r", "models"), "/x");
    assert_eq!(server::setting_or(None, "/r", "models"), "/r/models");
}

#[test]
fn analysis_takes_the_usual_values() {
    let a = server::analyze_args(&vec![("mode".to_string(), "dub".to_string()), ("burn".to_string(), "0".to_string())]);
    assert_eq!((a.tgt_lang.as_str(), a.mode.as_str(), a.subs.as_str()), ("en", "dub", "auto"));
    assert!(!a.burn);
    assert!(server::analyze_args(&vec![]).burn);
}

#[test]
fn finished_film_is_played_first() {
    let mut f = Files { output: true, dub_audio: true, analyzed: true, named_source: true, uploaded_source: true };
    assert_eq!(server::playback(&f), Some(Play::Output));
    f.output = false;
    assert_eq!(server::playback(&f), Some(Play::DubAudio));
    f.dub_audio = false;
    assert_eq!(server::playback(&f), Some(Play::Analyzed));
    f.analyzed = false;
    assert_eq!(server::playback(&f), Some(Play::NamedSource));
    f.named_source = false;
    assert_eq!(server::playback(&f), Some(Play::UploadedSource));
    f.uploaded_source = false;
    assert_eq!(server::playback(&f), None);
}

#[test]
fn rendered_lines_are_clean_again() {
    let mut a = line("s0", 0, 1, "0", "a");
    a.dirty = true;
    a.tgt_text = "same".into();
    let mut b = line("s1", 1, 2, "0", "b");
    b.dirty = true;
    b.tgt_text = "old".into();
    let baked = vec![a.clone(), b.clone()];
    b.tgt_text = "new".into();
    let mut cur = vec![a, b];
    assert!(server::needs_regen(&cur));
    server::clear_baked(&mut cur, &baked);
    assert!(!cur[0].dirty);
    assert!(cur[1].dirty);
    assert!(server::needs_regen(&cur));
}

#[test]
fn voice_of_a_speaker_is_cut_from_the_longest_line() {
    let segs = vec![line("a", 0, 2_000_000, "0", "short"), line("b", 5_000_000, 30_000_000, "0", "long")];
    let c = server::voice_cut(&segs, "0").unwrap();
    assert_eq!(c.start, 5_000_000);
    assert!(c.end <= 17_000_000);
    assert!(server::voice_cut(&segs, "3").is_none());
}

#[test]
fn streams_end_with_the_work() {
    assert!(server::ends_stream(Some("done")));
    assert!(server::ends_stream(Some("error")));
    assert!(!server::ends_stream(Some("progress")));
    assert!(!server::ends_stream(None));
}

#[test]
fn work_ends_once() {
    let mut t: JobTable<u32> = JobTable::new();
    t.enqueue("a", false);
    assert!(t.knows("a") && !t.knows("b"));
    assert!(!t.is_terminal("a"));
    assert!(matches!(t.follow("a").unwrap().tell(), Tell::Wait));
    assert!(matches!(t.take("a"), Turn::Run));
    assert!(t.finish("a", Ok(7)).is_some());
    assert!(t.is_terminal("a"));
    let j = t.follow("a").unwrap();
    assert!(matches!(j.tell(), Tell::Done));
    assert_eq!(j.result, Some(7));
    t.remove("a");
    assert!(!t.knows("a"));
    assert!(t.follow("a").is_none());
}

#[test]
fn failed_work_tells_why() {
    let mut t: JobTable<u32> = JobTable::new();
    t.enqueue("a", false);
    t.take("a");
    t.finish("a", Err("broken".to_string()));
    let j = t.follow("a").unwrap();
    assert!(matches!(j.tell(), Tell::Error));
    assert!(j.error_text().contains("broken"));
}

#[test]
fn abandoned_work_is_not_begun() {
    let mut t: JobTable<u32> = JobTable::new();
    t.enqueue("a", true);
    t.mark_abandoned("a");
    assert!(matches!(t.take("a"), Turn::Skip));
}

#[test]
fn steps_of_the_work_are_told() {
    let e = progress_event(json::read("{\"stage\":\"tts\"}").unwrap());
    assert_eq!(e.text_at("type").map(|s| s.as_str()), Some("progress"));
    assert_eq!(short_id("0123456789abcdef0123456789abcdef"), "0123456789ab");
}

#[test]
fn pages_are_served_from_their_directory() {
    let root = texts(&["srv", "web"]);
    let inside = Found { parts: texts(&["srv", "web", "a.js"]), is_file: true };
    let outside = Found { parts: texts(&["srv", "secret"]), is_file: true };
    assert!(matches!(spa::serve_spa(None, "a.js", Some(&inside)), Answer::NotBuilt));
    assert!(matches!(spa::serve_spa(Some(&root), "a.js", Some(&inside)), Answer::File));
    assert!(matches!(spa::serve_spa(Some(&root), "../secret", Some(&outside)), Answer::Index));
    assert!(matches!(spa::serve_spa(Some(&root), "", Some(&inside)), Answer::Index));
    assert!(matches!(spa::serve_spa(Some(&root), "x", None), Answer::Index));
    assert_eq!(spa::content_type("a/b.css"), "text/css");
    assert_eq!(spa::content_type("a.png"), "image/png");
    assert_eq!(spa::content_type("a.unknownending"), "application/octet-stream");
    assert!(spa::find_web_root("/r", true).is_some());
    assert!(spa::find_web_root("/r", false).is_none());
    assert!(spa::index_page("/r").ends_with("index.html"));
}

#[test]
fn recordings_do_not_overlap() {
    assert!(record::may_start(false).is_ok());
    assert!(record::may_start(true).is_err());
    assert!(record::may_stop(true).is_ok());
    assert!(record::may_stop(false).is_err());
    let usual = "B".to_string();
    assert_eq!(record::input_devices(Some(&usual), &texts(&["A", "B"])), texts(&["B", "A"]));
    assert_eq!(record::input_devices(None, &texts(&["A"])), texts(&["A"]));
}

#[test]
fn offered_voices_are_files() {
    let reply = json::read(
        "[{\"type\":\"file\",\"path\":\"Russian_Female_1.mp3\"},{\"type\":\"file\",\"path\":\"readme.md\"},\
         {\"type\":\"directory\",\"path\":\"x.mp3\"}]",
    )
    .unwrap();
    let vs = record::catalog(&reply);
    assert!(vs.iter().any(|v| v.name == "Russian_Female_1" && v.gender == "female"));
    assert!(vs.iter().all(|v| v.url.starts_with("https://")));
    assert!(vs.iter().all(|v| v.name != "readme"));
    assert!(record::fetch_plan("../x").is_none());
    assert!(record::fetch_plan("").is_none());
    let (sound, words) = record::fetch_plan("A").unwrap();
    assert!(sound.ends_with("A.mp3") && words.ends_with("A.txt"));
}

#[test]
fn documents_are_read() {
    assert!(json::read("{").is_none());
    let j = json::read("{\"a\":1,\"b\":\"x\",\"c\":[true,null,2.5]}").unwrap();
    assert_eq!(j.whole_at("a"), Some(1));
    assert_eq!(j.text_at("b").map(|s| s.as_str()), Some("x"));
    assert!(j.get("z").is_none());
    match j.get("c") {
        Some(Json::List(v)) => {
            assert!(matches!(v[0], Json::Bool(true)));
            assert!(matches!(v[1], Json::Null));
            assert!(matches!(&v[2], Json::Number(n) if n.whole.is_none() && n.written == "2.5"));
        }
        _ => panic!("a list"),
    }
}

#[test]
fn new_names_are_random_digits() {
    let a = new_job_id();
    let b = server::new_project_id();
    assert_eq!((a.len(), b.len()), (12, 12));
    assert_ne!(a, b);
    assert!(a.chars().chain(b.chars()).all(|c| c.is_ascii_hexdigit() && !c.is_ascii_uppercase()));
    assert!(server::is_project_id(&b));
}

#[test]
fn recordings_take_the_wanted_device() {
    let names = texts(&["A", "B", "B"]);
    assert_eq!(record::pick_device(Some("B"), &names, true), Some(Device::Listed(1)));
    assert_eq!(record::pick_device(Some("C"), &names, true), Some(Device::Usual));
    assert_eq!(record::pick_device(None, &names, true), Some(Device::Usual));
    assert_eq!(record::pick_device(Some("C"), &names, false), None);
}

#[test]
fn loudness_is_shown_twenty_times_a_second() {
    let mut m = Meter::new(16_000);
    assert_eq!(m.every, 800);
    assert_eq!(m.hear(500, 7), None);
    assert_eq!(m.hear(300, 3), Some(7));
    assert_eq!((m.frames, m.peak), (0, 0));
    assert_eq!(Meter::new(10).every, 1);
}
