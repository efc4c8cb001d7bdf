use dub_server::commands;
use dub_server::commands::Tracks;
use dub_server::dub::slots::Span;
use dub_server::json;
use dub_server::media::{
    atempo_chain, duck_volume_expr, iso639_1_to_2, parse_fps, probe_report, read_moment, ProbeError,
    DUCK_FADE_UP, DUCK_HOLD, DUCK_PREROLL,
};

const DUCK_GAIN: f64 = 0.708;
const DUCK_FADE_DOWN: f64 = 0.10;

/// What is missing to the full volume, in ten thousandths.
const DEPTH: u32 = 2920;

fn block(start: f64, end: f64) -> Span {
    Span { start: (start * 1e6).round() as i64, end: (end * 1e6).round() as i64 }
}

/// The number between two texts, and what is behind it.
fn number<'a>(s: &'a str, from: &str, to: &str) -> (f64, &'a str) {
    let i = s.find(from).unwrap() + from.len();
    let j = s[i..].find(to).unwrap() + i;
    (s[i..j].parse::<f64>().unwrap(), &s[j + to.len()..])
}

/// The volume at a moment, as the expression says it.
fn gain_at(t: f64, blocks: &Vec<Span>) -> f64 {
    let e = duck_volume_expr(blocks, DEPTH);
    if e == "1" {
        return 1.0;
    }
    let (depth, mut rest) = number(&e, "1-", "*clip(");
    let mut sum = 0.0f64;
    while rest.contains("clip(min((t-") {
        let (ds, r) = number(rest, "clip(min((t-", ")/");
        let (fd, r) = number(r, "", ",(");
        let (ue, r) = number(r, "", "-t)/");
        let (fu, r) = number(r, "", "),0,1)");
        sum += ((t - ds) / fd).min((ue - t) / fu).clamp(0.0, 1.0);
        rest = r;
    }
    1.0 - depth * sum.clamp(0.0, 1.0)
}

#[test]
fn envelope_key_points() {
    let preroll = DUCK_PREROLL as f64 / 1e6;
    let hold = DUCK_HOLD as f64 / 1e6;
    let blocks = vec![block(5.0, 8.0), block(20.0, 22.0)];
    assert!((gain_at(0.0, &blocks) - 1.0).abs() < 1e-9);
    assert!((gain_at(15.0, &blocks) - 1.0).abs() < 1e-9);
    assert!((gain_at(6.5, &blocks) - DUCK_GAIN).abs() < 1e-9);
    assert!((gain_at(5.0 - preroll - 0.01, &blocks) - 1.0).abs() < 1e-9);
    let mid_down = gain_at(5.0 - preroll + DUCK_FADE_DOWN / 2.0, &blocks);
    assert!(mid_down < 1.0 && mid_down > DUCK_GAIN);
    assert!((gain_at(8.0 + hold - 0.01, &blocks) - DUCK_GAIN).abs() < 1e-9);
    assert!((gain_at(8.0 + hold + DUCK_FADE_UP as f64 / 1e6, &blocks) - 1.0).abs() < 1e-9);
}

#[test]
fn empty_blocks_is_flat_one() {
    assert_eq!(duck_volume_expr(&vec![], DEPTH), "1");
}

#[test]
fn expr_mentions_each_block_boundaries() {
    let blocks = vec![block(1.0, 2.0)];
    let e = duck_volume_expr(&blocks, DEPTH);
    assert!(e.contains("0.920"), "{e}");
    assert!(e.contains(&format!("{:.4}", 1.0 - DUCK_GAIN)), "{e}");
    assert_eq!(e, "1-0.2920*clip(clip(min((t-0.920)/0.100,(2.700-t)/0.400),0,1),0,1)");
}

#[test]
fn expr_length_linear_in_blocks() {
    let blocks: Vec<Span> = (0..300).map(|i| block(i as f64 * 10.0, i as f64 * 10.0 + 5.0)).collect();
    let e = duck_volume_expr(&blocks, DEPTH);
    assert!(e.len() < 60 * 300 + 64, "len={}", e.len());
}

#[test]
fn expr_has_clip_wrapper() {
    assert!(duck_volume_expr(&vec![block(1.0, 2.0)], DEPTH).contains("clip("));
}

#[test]
fn overlapping_blocks_gain_never_below_g() {
    let blocks = vec![block(1.0, 2.0), block(2.05, 3.0)];
    let mut t = 0.0;
    while t < 4.0 {
        let gv = gain_at(t, &blocks);
        assert!(gv >= DUCK_GAIN - 1e-9 && gv <= 1.0 + 1e-9, "t={t} gain={gv}");
        t += 0.01;
    }
    assert!((gain_at(2.02, &blocks) - DUCK_GAIN).abs() < 1e-9);
}

#[test]
fn known_codes_map_to_iso639_2() {
    assert_eq!(iso639_1_to_2("ru"), "rus");
    assert_eq!(iso639_1_to_2("en"), "eng");
    assert_eq!(iso639_1_to_2("de"), "deu");
    assert_eq!(iso639_1_to_2("ja"), "jpn");
    assert_eq!(iso639_1_to_2("zh"), "zho");
    assert_eq!(iso639_1_to_2("uk"), "ukr");
    assert_eq!(iso639_1_to_2("haw"), "haw");
    assert_eq!(iso639_1_to_2("yue"), "yue");
}

#[test]
fn case_and_whitespace_insensitive() {
    assert_eq!(iso639_1_to_2("RU"), "rus");
    assert_eq!(iso639_1_to_2("  Fr  "), "fra");
}

#[test]
fn unknown_or_auto_is_und() {
    assert_eq!(iso639_1_to_2("auto"), "und");
    assert_eq!(iso639_1_to_2(""), "und");
    assert_eq!(iso639_1_to_2("xx"), "und");
}

#[test]
fn rates_and_times_are_read() {
    assert_eq!(parse_fps("30/1"), 30_000_000);
    assert_eq!(parse_fps("0/0"), 0);
    assert_eq!(parse_fps("x"), 0);
    assert_eq!(read_moment("12.5"), Some(12_500_000));
    assert_eq!(read_moment("-0.5"), Some(-500_000));
    assert_eq!(read_moment("+.5"), Some(500_000));
    assert_eq!(read_moment("7."), Some(7_000_000));
    assert_eq!(read_moment("1e1"), Some(10_000_000));
    assert_eq!(read_moment("1.25E-2"), Some(12_500));
    assert_eq!(read_moment("0.00000000001e+12"), Some(10_000_000));
    assert_eq!(read_moment("3e-99999999999999999999999999999999999999999"), Some(0));
    assert_eq!(read_moment("0e99999999999999999999999999999999999999999"), Some(0));
    assert_eq!(read_moment("1e9"), Some(1_000_000_000_000_000));
    assert_eq!(read_moment("1e99999999999999999999999999999999999999999"), Some(i64::MAX));
    assert_eq!(read_moment("-1e20"), Some(-i64::MAX));
    assert_eq!(read_moment("Inf"), Some(i64::MAX));
    assert_eq!(read_moment("-infinity"), Some(-i64::MAX));
    assert_eq!(read_moment("-"), None);
    assert_eq!(read_moment("in"), None);
    assert_eq!(read_moment("abc"), None);
    assert_eq!(read_moment("."), None);
    assert_eq!(read_moment("1e"), None);
    assert_eq!(read_moment("1.2.3"), None);
    assert_eq!(read_moment(""), None);
}

#[test]
fn tempo_is_changed_in_steps() {
    assert_eq!(atempo_chain(1_500_000), "atempo=1.500000");
    assert_eq!(atempo_chain(3_000_000), "atempo=2.0,atempo=1.500000");
    assert_eq!(atempo_chain(250_000), "atempo=0.5,atempo=0.500000");
    assert_eq!(atempo_chain(9_000_006), "atempo=2.0,atempo=2.0,atempo=2.0,atempo=1.125001");
    assert_eq!(atempo_chain(2_000_000), "atempo=2.000000");
    assert_eq!(atempo_chain(500_000), "atempo=0.500000");
    assert_eq!(atempo_chain(100_001), "atempo=0.5,atempo=0.5,atempo=0.5,atempo=0.800008");
}

#[test]
fn film_is_probed() {
    let j = json::read(
        "{\"streams\":[{\"codec_type\":\"video\",\"codec_name\":\"h264\",\"width\":640,\"height\":480,\
         \"r_frame_rate\":\"25/1\",\"avg_frame_rate\":\"25/1\"}],\"format\":{\"duration\":\"12.5\"}}",
    )
    .unwrap();
    let m = probe_report(&j).unwrap();
    assert_eq!((m.duration, m.width, m.height), (12_500_000, 640, 480));
    assert_eq!(m.fps, 25_000_000);
    assert_eq!(m.src_codec, "h264");
}

#[test]
fn probing_fails_with_a_reason() {
    assert!(matches!(probe_report(&json::read("{}").unwrap()), Err(ProbeError::NoStreams)));
    let none = json::read("{\"streams\":[],\"format\":{\"duration\":\"1.0\"}}").unwrap();
    assert!(matches!(probe_report(&none), Err(ProbeError::NoMedia)));
    let endless = json::read("{\"streams\":[{\"codec_type\":\"video\"}],\"format\":{}}").unwrap();
    assert!(matches!(probe_report(&endless), Err(ProbeError::NoDuration)));
}

#[test]
fn commands_name_their_files() {
    assert_eq!(
        commands::trim("a.wav", "b.wav", 1_500_000, 2_000_500, 16_000),
        vec!["-y", "-ss", "1.500", "-to", "2.001", "-i", "a.wav", "-ac", "1", "-ar", "16000", "b.wav"]
    );
    assert_eq!(
        commands::extract_audio("v.mp4", "a.wav", 44_100, 2),
        vec!["-y", "-i", "v.mp4", "-vn", "-ac", "2", "-ar", "44100", "a.wav"]
    );
    assert_eq!(
        commands::gain("a", "b", -2_500),
        vec!["-y", "-i", "a", "-af", "volume=-2.5dB", "-c:a", "aac", "-b:a", "192k", "b"]
    );
    assert_eq!(commands::loudnorm("a", "b", -14_000, -1_000, 11_000)[4], "loudnorm=I=-14:TP=-1:LRA=11");
    assert_eq!(commands::time_stretch("a", "b", 1_250_000)[4], "atempo=1.250000");
    assert_eq!(commands::segment_wav("a", "o_%03d.wav", 0, 16_000)[14], "0.100");
    assert_eq!(commands::say_thousandths(-1_250), "-1.25");
    assert_eq!(commands::say_thousandths(7), "0.007");
    assert_eq!(commands::say_thousandths(0), "0");
}

#[test]
fn two_sounds_have_names() {
    let names = Tracks { dub_lang: "rus", orig_lang: "eng", dub_title: "Дубляж", orig_title: "Original" };
    let mp4 = commands::mux_multitrack("v", "d", "o", "out.mp4", &names, Some("MP4"));
    let mkv = commands::mux_multitrack("v", "d", "o", "out.mkv", &names, Some("mkv"));
    assert_eq!(mp4.len(), mkv.len() + 2);
    assert!(mp4.contains(&"+faststart".to_string()));
    assert!(!mkv.contains(&"+faststart".to_string()));
    assert!(mkv.contains(&"language=rus".to_string()));
    assert!(mkv.contains(&"title=Дубляж".to_string()));
    assert_eq!(mkv.last().unwrap(), "out.mkv");
    assert!(commands::plays_at_once(None));
}

#[test]
fn mixing_has_its_time() {
    assert_eq!(commands::mix_patience(0), 600);
    assert_eq!(commands::mix_patience(300_000_000), 600);
    assert_eq!(commands::mix_patience(1_000_500_000), 2001);
    let f = commands::env_filter(&vec![], 2920);
    assert!(f.contains("volume='1':eval=frame[bg]"));
    assert_eq!(commands::report_tail(&"x".repeat(2000)).len(), 1500);
}

#[test]
fn sounds_keep_their_form() {
    assert_eq!(
        commands::extract_wav_16k_mono("v", "o"),
        vec!["-y", "-i", "v", "-vn", "-ac", "1", "-ar", "16000", "-c:a", "pcm_s16le", "-f", "wav", "o"]
    );
    assert_eq!(commands::to_16k_mono("s", "d"), vec!["-y", "-i", "s", "-vn", "-ac", "1", "-ar", "16000", "d"]);
    assert_eq!(
        commands::mux_keep_audio("v", "s", "o"),
        vec!["-y", "-i", "v", "-i", "s", "-map", "0:v:0", "-map", "1:a:0?", "-c:v", "copy", "-c:a", "copy", "-movflags", "+faststart", "o"]
    );
    assert!(commands::mux("v", "a", "o").contains(&"256k".to_string()));
    assert!(commands::remux_playable_mp4("v", "o").contains(&"0:a:0".to_string()));
    assert!(commands::to_wav("s", "d").contains(&"pcm_s16le".to_string()));
    assert!(commands::mix_ducked("v", "m", "o")[6].contains("sidechaincompress=threshold=0.02:ratio=8"));
    assert!(commands::mix("v", "m", "o")[6].ends_with("normalize=0[a]"));
    assert_eq!(commands::mix_env("v", "m", "s", "o")[5], "-filter_complex_script");
    assert_eq!(commands::slice_window("s", "d", -500_000, 1_000_000, 8_000)[6], "-0.500");
    assert_eq!(commands::duration("p").last().unwrap(), "p");
    assert_eq!(commands::has_audio("p").last().unwrap(), "p");
}

#[test]
fn known_codes_keep_their_tag_in_small_letters() {
    assert_eq!(iso639_1_to_2("\u{212a}K"), "kaz");
    assert_eq!(iso639_1_to_2(&"\u{212a}K".to_lowercase()), "kaz");
    assert_eq!(iso639_1_to_2(" YUE\n"), iso639_1_to_2("yue"));
}

#[test]
fn tags_are_three_letters_and_distinct() {
    let codes = [
        "en", "zh", "de", "es", "ru", "ko", "fr", "ja", "pt", "tr", "pl", "ca", "nl", "ar", "sv", "it", "id", "hi",
        "fi", "vi", "he", "uk", "el", "ms", "cs", "ro", "da", "hu", "ta", "no", "th", "ur", "hr", "bg", "lt", "la",
        "mi", "ml", "cy", "sk", "te", "fa", "lv", "bn", "sr", "az", "sl", "kn", "et", "mk", "br", "eu", "is", "hy",
        "ne", "mn", "bs", "kk", "sq", "sw", "gl", "mr", "pa", "si", "km", "sn", "yo", "so", "af", "oc", "ka", "be",
        "tg", "sd", "gu", "am", "yi", "lo", "uz", "fo", "ht", "ps", "tk", "nn", "mt", "sa", "lb", "my", "bo", "tl",
        "mg", "as", "tt", "haw", "ln", "ha", "ba", "jw", "su", "yue",
    ];
    let mut tags: Vec<&str> = codes.iter().map(|c| iso639_1_to_2(c)).collect();
    assert!(tags.iter().all(|t| *t != "und" && t.len() == 3 && t.bytes().all(|b| b.is_ascii_lowercase())));
    for c in codes {
        assert_eq!(iso639_1_to_2(&format!(" {} ", c.to_uppercase())), iso639_1_to_2(c));
    }
    tags.sort();
    tags.dedup();
    assert_eq!(tags.len(), codes.len());
}

#[test]
fn rates_take_what_a_number_may_be() {
    assert_eq!(parse_fps("29.97/1"), 29_970_000);
    assert_eq!(parse_fps("3e4/1001"), 29_970_029);
    assert_eq!(parse_fps("x/1"), 0);
    assert_eq!(parse_fps("1/-1"), -1_000_000);
    assert_eq!(parse_fps("-30/1"), -30_000_000);
    assert_eq!(parse_fps("-1/-4"), 250_000);
    assert_eq!(parse_fps("-1/3"), -333_333);
    assert_eq!(parse_fps("1/1e-7"), 10_000_000_000_000);
    assert_eq!(parse_fps("1/x"), 0);
}
