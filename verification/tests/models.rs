use dub_server::cloud_asr;
use dub_server::cloud_tts;
use dub_server::cloud_tts::SpeechFault;
use dub_server::json;
use dub_server::llm_provider::{open, stage_name, LlmMode, LlmOpen, Provider};
use dub_server::models;
use dub_server::models::AsrChoice;
use dub_server::openrouter_cli;
use dub_server::presets;
use dub_server::setup::catalog::manifest;
use dub_server::setup::Delivery;

fn texts(list: &[&str]) -> Vec<String> {
    list.iter().map(|s| s.to_string()).collect()
}

#[test]
fn choices_are_kept() {
    let sel = models::load_selection(None);
    assert_eq!(models::pick(&sel, "tts"), None);
    let sel = models::set_selection(sel, "tts", "q6_k");
    assert_eq!(models::pick(&sel, "tts").as_deref(), Some("q6_k"));
    let sel = models::set_selection(sel, "asr", "fp32");
    assert_eq!(models::pick(&sel, "tts").as_deref(), Some("q6_k"));
    assert!(models::picks(&sel, "asr", "fp32"));
    assert!(models::pick(&models::load_selection(Some("not a document")), "tts").is_none());
    let file = models::load_selection(Some("{\"bench\":\"1\",\"qc_duration\":\"0\"}"));
    assert!(!models::on_unless_zero(&file, "qc_duration"));
    assert!(models::on_unless_zero(&file, "emo_ref_on"));
    assert!(!models::off_unless_one(&file, "multitake"));
    assert!(models::off_unless_one(&models::load_selection(Some("{\"multitake\":\"1\"}")), "multitake"));
}

#[test]
fn sample_length_has_a_usual_value() {
    assert_eq!(models::higgs_ref_secs(&models::load_selection(None)), 12_000_000);
    let sel = models::load_selection(Some("{\"higgs_ref_secs\":\"8\"}"));
    assert_eq!(models::higgs_ref_secs(&sel), 8_000_000);
    let sel = models::load_selection(Some("{\"higgs_ref_secs\":\"600\"}"));
    assert_eq!(models::higgs_ref_secs(&sel), 12_000_000);
}

#[test]
fn speech_model_is_one_that_is_there() {
    let files = texts(&["higgs-q6_k/q6_k.gguf"]);
    let none = models::load_selection(None);
    let (_, q) = models::resolve_tts(None, "/m", &none, &files);
    assert_eq!(q, "q6_k");
    let wanted = models::set_selection(none, "tts", "q4_k_m");
    let (dir, q) = models::resolve_tts(None, "/m", &wanted, &files);
    assert_eq!((dir.as_str(), q.as_str()), ("/m/higgs-q6_k", "q6_k"));
    let set = |d: &str| models::resolve_tts(Some(d), "/m", &wanted, &files);
    assert_eq!(set("/x/higgs-q4_k_m"), ("/x/higgs-q4_k_m".to_string(), "q4_k_m".to_string()));
    assert_eq!(set("/x/voice"), ("/x/voice".to_string(), "q8_0".to_string()));
}

#[test]
fn recognition_is_resolved() {
    let files = texts(&["whisper/faster-whisper-small/model.bin", "tdt/encoder-model.int8.onnx"]);
    let none = models::load_selection(None);
    assert!(matches!(models::resolve_asr_choice(&none, &files, "/m", "/w", true, false, None), AsrChoice::Parakeet(_)));
    let sel = models::set_selection(none, "asr_engine", "whisper");
    match models::resolve_asr_choice(&sel, &files, "/m", "/w", true, false, None) {
        AsrChoice::Whisper { model, device, compute, .. } => {
            assert_eq!(model, "small");
            assert_eq!((device.as_str(), compute.as_str()), ("cpu", "int8"));
        }
        AsrChoice::Parakeet(_) => panic!("Whisper was chosen"),
    }
    assert!(matches!(models::resolve_asr_choice(&sel, &files, "/m", "/w", false, false, None), AsrChoice::Parakeet(_)));
    assert!(models::whisper_model_installed(&files, "small"));
    assert!(!models::whisper_model_installed(&files, "tiny"));
    assert!(models::whisper_cuda_libs_present("Faster-Whisper-XXL.exe", &vec![]));
    assert!(models::whisper_cuda_libs_present("w", &texts(&["cublas64_12.dll", "CUDNN_ops.DLL"])));
    assert!(!models::whisper_cuda_libs_present("w", &texts(&["cublas64_12.dll"])));
}

#[test]
fn recognition_program_has_its_place() {
    assert_eq!(models::whisper_bin(Some("/x/w"), "/r", true, true), "/x/w");
    assert_eq!(models::whisper_bin(None, "/r", false, true), "/r/tools/whisper/whisper-faster");
    assert_eq!(models::whisper_bin(None, "/r", true, false), "/r/tools/whisper/whisper-faster.exe");
    assert_eq!(models::whisper_bin(None, "/r", true, true), "/r/tools/whisper/Faster-Whisper-XXL/faster-whisper-xxl.exe");
}

#[test]
fn numbers_are_read_from_their_slots() {
    let set = |v: &str| models::set_selection(models::load_selection(None), "llama_ubatch", v);
    assert_eq!(models::sel_num(&set(" 256 "), "llama_ubatch"), Some(256_000_000));
    assert_eq!(models::sel_num(&set("-2.5"), "llama_ubatch"), Some(-2_500_000));
    assert_eq!(models::sel_num(&set("1e1"), "llama_ubatch"), Some(10_000_000));
    assert_eq!(models::sel_num(&set("many"), "llama_ubatch"), None);
    let short = models::set_selection(models::load_selection(None), "higgs_ref_secs", "-3");
    assert_eq!(models::higgs_ref_secs(&short), 12_000_000);
}

#[test]
fn components_choose_themselves() {
    assert_eq!(models::component_selection("higgs-q6_k"), vec![("tts", "q6_k".to_string())]);
    for w in ["tiny", "base", "small", "medium", "large-v3", "large-v3-turbo"] {
        assert_eq!(
            models::component_selection(&format!("whisper-{w}")),
            vec![("asr_engine", "whisper".to_string()), ("whisper_model", w.to_string())]
        );
    }
    assert_eq!(
        models::component_selection("parakeet"),
        vec![("asr_engine", "parakeet".to_string()), ("asr", "int8".to_string())]
    );
    let all = manifest();
    for c in &all {
        let slots = models::component_selection(c.id);
        assert!(slots.iter().all(|s| models::is_selection_key(s.0)));
        assert!(slots.is_empty() || c.delivery == Delivery::Download);
    }
    assert!(models::component_selection("ffmpeg").is_empty());
    assert!(models::is_selection_key("tts"));
    assert!(!models::is_selection_key("../x"));
}

#[test]
fn translation_model_comes_with_its_eyes() {
    let sel = models::load_selection(None);
    let files = texts(&["mt-q6_k/gemma.gguf", "mt-q6_k/mmproj-gemma.gguf"]);
    let (model, eyes) = models::resolve_mt("/m", &sel, &files);
    assert_eq!((model.as_str(), eyes.as_str()), ("/m/mt-q6_k/gemma.gguf", "/m/mt-q6_k/mmproj-gemma.gguf"));
}

#[test]
fn machine_gets_a_preset() {
    let gb: u64 = 1024 * 1024 * 1024;
    assert_eq!(presets::recommend("", 0, 16 * gb).recommended, "cloud");
    assert_eq!(presets::recommend("NVIDIA GeForce RTX 4090", 24 * gb, 0).recommended, "rtx4090");
    assert_eq!(presets::recommend("NVIDIA GeForce RTX 3060", 12 * gb, 0).recommended, "gpu12");
    assert!(presets::by_id("gpu8").is_some());
    assert!(presets::by_id("gpu9").is_none());
    let ps = presets::presets();
    assert!(ps.iter().all(|p| presets::by_id(p.id).is_some()));
    let (sel, keys) = presets::apply(models::load_selection(None), "gpu12").unwrap();
    assert!(!keys.is_empty());
    assert_eq!(models::pick(&sel, "tts").as_deref(), Some("q6_k"));
    assert!(presets::apply(models::load_selection(None), "gpu9").is_err());
}

#[test]
fn cloud_lines_have_words() {
    let reply = json::read(
        "{\"segments\":[{\"start\":0.5,\"end\":1.5,\"text\":\" hi \"},{\"start\":2,\"end\":3,\"text\":\"  \"}]}",
    )
    .unwrap();
    let lines = cloud_asr::read_reply(&reply).unwrap();
    assert_eq!(lines.len(), 1);
    assert_eq!((lines[0].start, lines[0].end, lines[0].text.as_str()), (500_000, 1_500_000, "hi"));
    assert!(cloud_asr::request_language("auto").is_none());
    assert_eq!(cloud_asr::request_language("ru").as_deref(), Some("ru"));
}

#[test]
fn cloud_speech_needs_a_key_a_model_and_a_voice() {
    assert!(matches!(cloud_tts::request(None, "m", "v", ""), Err(SpeechFault::NoKey)));
    assert!(matches!(cloud_tts::request(Some("k"), "", "v", ""), Err(SpeechFault::NoModel)));
    assert!(matches!(cloud_tts::request(Some("k"), "m", "", ""), Err(SpeechFault::NoVoice)));
    let r = cloud_tts::request(Some("k"), "m", "", "usual").unwrap_or_else(|_| panic!("a request"));
    assert_eq!(r.voice, "usual");
    assert!(!cloud_tts::fault_text(SpeechFault::NoKey).is_empty());
    assert!(cloud_tts::check_sound(10).is_some());
    assert!(cloud_tts::check_sound(10_000).is_none());
    assert_eq!(cloud_tts::workers(3, 8), 3);
    assert_eq!(cloud_tts::workers(30, 8), 8);
}

fn opened<'a>(cloud_on: bool, key: Option<&'a str>, cloud_model: &'a str, there: bool) -> LlmOpen<'a> {
    LlmOpen {
        llama_bin: "/l",
        mt_model: "/m",
        mmproj: "/p",
        llama_bin_there: there,
        mt_model_there: there,
        mmproj_there: there,
        cloud_on,
        key,
        cloud_model,
    }
}

#[test]
fn language_model_is_opened() {
    assert!(matches!(open(&opened(true, None, "x", true), LlmMode::Text), Ok(Provider::Local { eyes: false })));
    assert!(matches!(open(&opened(true, Some(""), "x", true), LlmMode::Text), Ok(Provider::Local { eyes: false })));
    assert!(matches!(open(&opened(true, Some("k"), " ", true), LlmMode::Text), Ok(Provider::Local { eyes: false })));
    assert!(matches!(open(&opened(true, Some("k"), "x", false), LlmMode::Text), Ok(Provider::Remote)));
    assert_eq!(open(&opened(false, None, "", false), LlmMode::Text), Err("llama-server не найден (/l)".to_string()));
    let mut o = opened(false, None, "", false);
    o.llama_bin_there = true;
    assert_eq!(open(&o, LlmMode::Text), Err("GGUF Gemma не найден (/m)".to_string()));
    assert!(matches!(open(&opened(false, None, "", true), LlmMode::Vision), Ok(Provider::Local { eyes: true })));
    assert!(matches!(open(&opened(false, None, "", true), LlmMode::Text), Ok(Provider::Local { eyes: false })));
    assert!(Provider::Remote.is_remote());
    assert_ne!(stage_name(LlmMode::Text), stage_name(LlmMode::Vision));
}

#[test]
fn helper_program_has_its_place() {
    assert_eq!(openrouter_cli::helper_bin(None, "/r", false), "/r/tools/openrouter-helper/openrouter-helper");
    assert_eq!(openrouter_cli::helper_bin(Some("/h"), "/r", false), "/h");
    assert_eq!(openrouter_cli::repo_from_models("/r/models"), "/r");
    assert!(openrouter_cli::failure("tts", &"x".repeat(1000)).contains("tts"));
    let reply = json::read("{\"credits\":{\"data\":{\"total_usage\":1.5}}}").unwrap();
    assert_eq!(openrouter_cli::total_usage(&reply), Some(1_500_000));
    let reply = json::read("{\"total_usage\":1.5}").unwrap();
    assert_eq!(openrouter_cli::total_usage(&reply), None);
}

#[test]
fn separation_model_is_one_that_is_there() {
    let none = models::load_selection(None);
    let files = texts(&["bsroformer/voc_fv6-Q4_0.gguf"]);
    assert_eq!(models::resolve_sep(None, "/m", &none, &files), "/m/bsroformer/voc_fv6-Q4_0.gguf");
    assert_eq!(models::resolve_sep(None, "/m", &none, &vec![]), "/m/bsroformer/voc_fv6-Q8_0.gguf");
    assert_eq!(models::resolve_sep(Some("/s.gguf"), "/m", &none, &files), "/s.gguf");
    let files = texts(&["tdt-fp32/encoder-model.onnx"]);
    assert_eq!(models::resolve_asr(None, "/m", &none, &files), "/m/tdt-fp32");
    assert_eq!(models::resolve_asr(Some("/t"), "/m", &none, &files), "/t");
    assert_eq!(AsrChoice::Parakeet("/m/tdt".to_string()).describe(), "Parakeet (tdt)");
    assert!(!models::bench_enabled(None));
}
