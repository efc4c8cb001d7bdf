use dub_server::casting_library::{
    character_files, is_safe_slug, library_root, list_profiles, new_slug, profile_dir, slugify, unique_slug,
    ProfileEntry, ProfileMeta,
};
use dub_server::cloud_voices::{assign, list, load, model_supports_russian, voice_meta, ModelVoices};

#[test]
fn slugify_translit_and_kebab() {
    assert_eq!(slugify("Ходячие мертвецы"), "hodyachie-mertvetsy");
    assert_eq!(slugify("Season 1 / Ep. 2"), "season-1-ep-2");
    assert_eq!(slugify("  Босс!!!  "), "boss");
    assert_eq!(slugify(""), "casting");
    assert_eq!(slugify("---"), "casting");
}

#[test]
fn safe_slug_rejects_traversal() {
    assert!(is_safe_slug("hodyachie-mertvetsy"));
    assert!(is_safe_slug("season-1"));
    assert!(!is_safe_slug(""));
    assert!(!is_safe_slug("../etc"));
    assert!(!is_safe_slug("Foo/Bar"));
    assert!(!is_safe_slug("UPPER"));
    assert!(!is_safe_slug("a b"));
}

#[test]
fn unique_slug_increments() {
    let mut there = vec!["hero".to_string()];
    assert_eq!(unique_slug(&there, "hero"), "hero-2");
    there.push("hero-2".to_string());
    assert_eq!(unique_slug(&there, "hero"), "hero-3");
    assert_eq!(unique_slug(&there, "fresh"), "fresh");
}

fn entry(slug: &str, is_dir: bool, has_casting: bool) -> ProfileEntry {
    ProfileEntry {
        slug: slug.to_string(),
        is_dir,
        has_casting,
        meta: Some(ProfileMeta {
            name: "Мой сериал".to_string(),
            created: "2026-07-18".to_string(),
            char_count: 1,
        }),
        characters: 1,
    }
}

#[test]
fn saved_profile_is_listed() {
    let slug = unique_slug(&vec![], &slugify("Мой сериал"));
    let profiles = list_profiles(&vec![entry(&slug, true, true)]);
    assert_eq!(profiles.len(), 1);
    assert_eq!(profiles[0].0, "moy-serial");
    assert_eq!(profiles[0].1.name, "Мой сериал");
    assert_eq!(profiles[0].1.char_count, 1);
    assert!(list_profiles(&vec![]).is_empty());
    assert!(list_profiles(&vec![entry("a", false, true)]).is_empty());
}

#[test]
fn profiles_are_listed_in_order() {
    let profiles = list_profiles(&vec![entry("b", true, true), entry("a", true, true)]);
    assert_eq!(profiles.len(), 2);
    assert!(profiles[0].0 == "a" && profiles[1].0 == "b");
}

#[test]
fn profiles_have_their_places() {
    assert!(profile_dir("/r", "hero").starts_with(&library_root("/r")));
    assert!(profile_dir("/r", "hero").ends_with("hero"));
    let f = character_files("char_0", "frame.jpg", "");
    assert!(f.avatar.is_some());
    assert!(f.voice.is_none());
}

const DIRECTORY: &str = r#"{
    "google/gemini-3.1-flash-tts-preview": {
        "supports_russian": true,
        "voices": [
            { "name": "Kore", "gender": "female", "age": "adult", "ru": true },
            { "name": "Puck", "gender": "male", "age": "adult", "ru": true }
        ]
    },
    "mistralai/voxtral-mini-tts-2603": { "voices": [{ "name": "Paul", "gender": "male", "age": "adult" }] },
    "minimax/speech-2.8-hd": { "supports_russian": true, "voices": [] }
}"#;

fn voices_db() -> Vec<(String, ModelVoices)> {
    load(DIRECTORY)
}

#[test]
fn a_directory_is_read_whole_or_not_at_all() {
    let db = voices_db();
    assert_eq!(db.len(), 3);
    assert_eq!(list(&db, "mistralai/voxtral-mini-tts-2603").unwrap().len(), 1);
    assert!(!voice_meta(&db, "mistralai/voxtral-mini-tts-2603", "paul").unwrap().ru);
    assert!(load("{").is_empty());
    assert!(load("[]").is_empty());
    assert!(load(&DIRECTORY.replace("\"age\": \"adult\" }", "\"old\": \"adult\" }")).is_empty());
    assert!(load(&DIRECTORY.replace("\"ru\": true", "\"ru\": 1")).is_empty());
    assert!(load(&DIRECTORY.replace("\"voices\": []", "\"none\": []")).is_empty());
}

#[test]
fn db_loads_and_has_known_models() {
    let db = voices_db();
    assert!(voice_meta(&db, "google/gemini-3.1-flash-tts-preview", "Kore").is_some());
    assert_eq!(voice_meta(&db, "google/gemini-3.1-flash-tts-preview", "Kore").unwrap().gender, "female");
    assert_eq!(voice_meta(&db, "google/gemini-3.1-flash-tts-preview", "Puck").unwrap().gender, "male");
    assert_eq!(model_supports_russian(&db, "mistralai/voxtral-mini-tts-2603"), Some(false));
    assert_eq!(model_supports_russian(&db, "google/gemini-3.1-flash-tts-preview"), Some(true));
    assert_eq!(model_supports_russian(&db, "minimax/speech-2.8-hd"), Some(true));
    assert_eq!(model_supports_russian(&db, "unknown"), None);
    assert!(list(&db, "unknown").is_none());
}

#[test]
fn speakers_get_voices_of_their_gender() {
    let db = voices_db();
    let genders = vec![("0".to_string(), "male".to_string()), ("1".to_string(), "female".to_string())];
    let dealt = assign(&db, "google/gemini-3.1-flash-tts-preview", &genders, "ru");
    assert_eq!(
        dealt,
        vec![("0".to_string(), "Puck".to_string()), ("1".to_string(), "Kore".to_string())]
    );
    assert!(assign(&db, "unknown", &genders, "ru").is_empty());
}

#[test]
fn slug_of_a_slug_is_itself() {
    for name in ["Ходячие мертвецы", "Season 1 / Ep. 2", "  Босс!!!  ", "", "--a--B--", "Объезд"] {
        let slug = slugify(name);
        assert_eq!(slugify(&slug), slug);
        assert!(is_safe_slug(&slug));
        assert!(!slug.starts_with('-') && !slug.ends_with('-') && !slug.contains("--"));
    }
    assert_eq!(slugify("Объезд"), "obezd");
}

#[test]
fn new_profile_passes_directories_alone() {
    let there = vec![entry("boss", true, false), entry("boss-2", false, true)];
    assert_eq!(new_slug(&there, "Босс"), "boss-2");
    assert_eq!(new_slug(&there, "Hero"), "hero");
}
