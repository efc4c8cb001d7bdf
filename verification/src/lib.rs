//! The decisions of a video dubbing server, apart from its input and output.

pub mod analyze;
pub mod bench;
pub mod captions;
pub mod casting;
pub mod casting_library;
pub mod cloud_asr;
pub mod cloud_tts;
pub mod cloud_voices;
pub mod commands;
pub mod compose;
pub mod decimal;
pub mod dub;
pub mod f0;
pub mod frame;
pub mod jobs;
pub mod json;
pub mod llm_provider;
pub mod media;
pub mod models;
pub mod ocr;
pub mod openrouter_cli;
pub mod order;
pub mod patch;
pub mod pick;
pub mod presets;
pub mod project;
pub mod rank;
pub mod record;
pub mod render;
pub mod server;
pub mod setup;
pub mod spa;
pub mod subimport;
pub mod text;
pub mod translate;
pub mod words;
