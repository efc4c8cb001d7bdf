//! Where the components lie, and by which of their files they are recognised.

use super::catalog;
use super::ComponentModel;
use super::Delivery;
use super::Extract;
use super::FileModel;
use super::MarkerModel;
use vstd::prelude::*;

verus! {

/// Whether a path stays below the directory that it starts from: it begins with a name, has neither a
/// backslash nor a colon in it, and nowhere two points in a row.
pub open spec fn below(p: Seq<char>) -> bool {
    &&& p.len() > 0
    &&& p[0] != '/'
    &&& forall|i: int|
        0 <= i < p.len() ==> #[trigger] p[i] != '\\' && p[i] != ':' && (p[i] == '.' && i + 1 < p.len()
            ==> p[i + 1] != '.')
}

/// All files of a component go, and all its markers lie, below the root.
pub open spec fn lies_below(c: ComponentModel) -> bool {
    &&& forall|k: int| 0 <= k < c.files.len() ==> below((#[trigger] c.files[k]).dest_rel)
    &&& forall|k: int| 0 <= k < c.markers.len() ==> below((#[trigger] c.markers[k]).rel)
}

/// Whether a marker is one of the files, which is kept as it is fetched, with that file's size.
pub open spec fn is_file(fs: Seq<FileModel>, m: MarkerModel) -> bool {
    exists|k: int|
        0 <= k < fs.len() && (#[trigger] fs[k]).dest_rel == m.rel && fs[k].size == m.expect
            && fs[k].extract == Extract::Keep
}

/// Each marker of a downloaded component that tells a size is one of its files.
pub open spec fn marked_by_files(c: ComponentModel) -> bool {
    c.delivery == Delivery::Download ==> forall|k: int|
        0 <= k < c.markers.len() && (#[trigger] c.markers[k]).expect != 0 ==> is_file(
            c.files,
            c.markers[k],
        )
}

proof fn lemma_higgs()
    ensures
        lies_below(catalog::higgs_model()),
        marked_by_files(catalog::higgs_model()),
{
    let c = catalog::higgs_model();
    assert(below(c.files[0].dest_rel)) by {
        reveal_strlit("models/higgs-q8_0/q8_0.gguf");
    }
    assert(below(c.files[1].dest_rel)) by {
        reveal_strlit("models/higgs-q8_0/config.json");
    }
    assert(below(c.files[2].dest_rel)) by {
        reveal_strlit("models/higgs-q8_0/chat_template.jinja");
    }
    assert(below(c.files[3].dest_rel)) by {
        reveal_strlit("models/higgs-q8_0/tokenizer.json");
    }
    assert(below(c.files[4].dest_rel)) by {
        reveal_strlit("models/higgs-q8_0/tokenizer_config.json");
    }
    assert(below(c.files[5].dest_rel)) by {
        reveal_strlit("models/higgs-q8_0/higgs_audio_v2_tokenizer_config.json");
    }
    assert(below(c.markers[0].rel)) by {
        reveal_strlit("models/higgs-q8_0/q8_0.gguf");
    }
    assert(below(c.markers[1].rel)) by {
        reveal_strlit("models/higgs-q8_0/config.json");
    }
    assert(below(c.markers[2].rel)) by {
        reveal_strlit("models/higgs-q8_0/tokenizer.json");
    }
    assert(c.files[0].dest_rel == c.markers[0].rel);
    assert(c.files[1].dest_rel == c.markers[1].rel);
    assert(c.files[3].dest_rel == c.markers[2].rel);
}

proof fn lemma_higgs_engine()
    ensures
        lies_below(catalog::higgs_engine_model()),
        marked_by_files(catalog::higgs_engine_model()),
{
    let c = catalog::higgs_engine_model();
    assert(below(c.files[0].dest_rel)) by {
        reveal_strlit("models/higgs-engine/audiocpp_engine.dll");
    }
    assert(below(c.markers[0].rel)) by {
        reveal_strlit("models/higgs-engine/audiocpp_engine.dll");
    }
    assert(c.files[0].dest_rel == c.markers[0].rel);
}

proof fn lemma_gemma()
    ensures
        lies_below(catalog::gemma_model()),
        marked_by_files(catalog::gemma_model()),
{
    let c = catalog::gemma_model();
    assert(below(c.files[0].dest_rel)) by {
        reveal_strlit("models/mt/gemma-4-12b-it-qat-q4_0.gguf");
    }
    assert(below(c.files[1].dest_rel)) by {
        reveal_strlit("models/mt/mmproj-gemma-4-12b-it-qat-q4_0.gguf");
    }
    assert(below(c.markers[0].rel)) by {
        reveal_strlit("models/mt/gemma-4-12b-it-qat-q4_0.gguf");
    }
    assert(below(c.markers[1].rel)) by {
        reveal_strlit("models/mt/mmproj-gemma-4-12b-it-qat-q4_0.gguf");
    }
    assert(c.files[0].dest_rel == c.markers[0].rel);
    assert(c.files[1].dest_rel == c.markers[1].rel);
}

proof fn lemma_gemma_q5_0()
    ensures
        lies_below(catalog::gemma_q5_0_model()),
        marked_by_files(catalog::gemma_q5_0_model()),
{
    let c = catalog::gemma_q5_0_model();
    assert(below(c.files[0].dest_rel)) by {
        reveal_strlit("models/mt-q5_0/gemma-4-12b-it-Q5_K_M.gguf");
    }
    assert(below(c.files[1].dest_rel)) by {
        reveal_strlit("models/mt-q5_0/mmproj-F16.gguf");
    }
    assert(below(c.markers[0].rel)) by {
        reveal_strlit("models/mt-q5_0/gemma-4-12b-it-Q5_K_M.gguf");
    }
    assert(below(c.markers[1].rel)) by {
        reveal_strlit("models/mt-q5_0/mmproj-F16.gguf");
    }
    assert(c.files[0].dest_rel == c.markers[0].rel);
    assert(c.files[1].dest_rel == c.markers[1].rel);
}

proof fn lemma_gemma_q6_k()
    ensures
        lies_below(catalog::gemma_q6_k_model()),
        marked_by_files(catalog::gemma_q6_k_model()),
{
    let c = catalog::gemma_q6_k_model();
    assert(below(c.files[0].dest_rel)) by {
        reveal_strlit("models/mt-q6_k/gemma-4-12b-it-Q6_K.gguf");
    }
    assert(below(c.files[1].dest_rel)) by {
        reveal_strlit("models/mt-q6_k/mmproj-F16.gguf");
    }
    assert(below(c.markers[0].rel)) by {
        reveal_strlit("models/mt-q6_k/gemma-4-12b-it-Q6_K.gguf");
    }
    assert(below(c.markers[1].rel)) by {
        reveal_strlit("models/mt-q6_k/mmproj-F16.gguf");
    }
    assert(c.files[0].dest_rel == c.markers[0].rel);
    assert(c.files[1].dest_rel == c.markers[1].rel);
}

proof fn lemma_gemma_q8_0()
    ensures
        lies_below(catalog::gemma_q8_0_model()),
        marked_by_files(catalog::gemma_q8_0_model()),
{
    let c = catalog::gemma_q8_0_model();
    assert(below(c.files[0].dest_rel)) by {
        reveal_strlit("models/mt-q8_0/gemma-4-12b-it-Q8_0.gguf");
    }
    assert(below(c.files[1].dest_rel)) by {
        reveal_strlit("models/mt-q8_0/mmproj-F16.gguf");
    }
    assert(below(c.markers[0].rel)) by {
        reveal_strlit("models/mt-q8_0/gemma-4-12b-it-Q8_0.gguf");
    }
    assert(below(c.markers[1].rel)) by {
        reveal_strlit("models/mt-q8_0/mmproj-F16.gguf");
    }
    assert(c.files[0].dest_rel == c.markers[0].rel);
    assert(c.files[1].dest_rel == c.markers[1].rel);
}

proof fn lemma_parakeet()
    ensures
        lies_below(catalog::parakeet_model()),
        marked_by_files(catalog::parakeet_model()),
{
    let c = catalog::parakeet_model();
    assert(below(c.files[0].dest_rel)) by {
        reveal_strlit("models/tdt/encoder-model.int8.onnx");
    }
    assert(below(c.files[1].dest_rel)) by {
        reveal_strlit("models/tdt/decoder_joint-model.int8.onnx");
    }
    assert(below(c.files[2].dest_rel)) by {
        reveal_strlit("models/tdt/nemo128.onnx");
    }
    assert(below(c.files[3].dest_rel)) by {
        reveal_strlit("models/tdt/vocab.txt");
    }
    assert(below(c.files[4].dest_rel)) by {
        reveal_strlit("models/tdt/config.json");
    }
    assert(below(c.markers[0].rel)) by {
        reveal_strlit("models/tdt/encoder-model.int8.onnx");
    }
    assert(below(c.markers[1].rel)) by {
        reveal_strlit("models/tdt/decoder_joint-model.int8.onnx");
    }
    assert(below(c.markers[2].rel)) by {
        reveal_strlit("models/tdt/vocab.txt");
    }
    assert(c.files[0].dest_rel == c.markers[0].rel);
    assert(c.files[1].dest_rel == c.markers[1].rel);
    assert(c.files[3].dest_rel == c.markers[2].rel);
}

proof fn lemma_higgs_q6_k()
    ensures
        lies_below(catalog::higgs_q6_k_model()),
        marked_by_files(catalog::higgs_q6_k_model()),
{
    let c = catalog::higgs_q6_k_model();
    assert(below(c.files[0].dest_rel)) by {
        reveal_strlit("models/higgs-q6_k/q6_k.gguf");
    }
    assert(below(c.files[1].dest_rel)) by {
        reveal_strlit("models/higgs-q6_k/config.json");
    }
    assert(below(c.files[2].dest_rel)) by {
        reveal_strlit("models/higgs-q6_k/chat_template.jinja");
    }
    assert(below(c.files[3].dest_rel)) by {
        reveal_strlit("models/higgs-q6_k/tokenizer.json");
    }
    assert(below(c.files[4].dest_rel)) by {
        reveal_strlit("models/higgs-q6_k/tokenizer_config.json");
    }
    assert(below(c.files[5].dest_rel)) by {
        reveal_strlit("models/higgs-q6_k/higgs_audio_v2_tokenizer_config.json");
    }
    assert(below(c.markers[0].rel)) by {
        reveal_strlit("models/higgs-q6_k/q6_k.gguf");
    }
    assert(below(c.markers[1].rel)) by {
        reveal_strlit("models/higgs-q6_k/tokenizer.json");
    }
    assert(c.files[0].dest_rel == c.markers[0].rel);
}

proof fn lemma_higgs_q4_k_m()
    ensures
        lies_below(catalog::higgs_q4_k_m_model()),
        marked_by_files(catalog::higgs_q4_k_m_model()),
{
    let c = catalog::higgs_q4_k_m_model();
    assert(below(c.files[0].dest_rel)) by {
        reveal_strlit("models/higgs-q4_k_m/q4_k_m.gguf");
    }
    assert(below(c.files[1].dest_rel)) by {
        reveal_strlit("models/higgs-q4_k_m/config.json");
    }
    assert(below(c.files[2].dest_rel)) by {
        reveal_strlit("models/higgs-q4_k_m/chat_template.jinja");
    }
    assert(below(c.files[3].dest_rel)) by {
        reveal_strlit("models/higgs-q4_k_m/tokenizer.json");
    }
    assert(below(c.files[4].dest_rel)) by {
        reveal_strlit("models/higgs-q4_k_m/tokenizer_config.json");
    }
    assert(below(c.files[5].dest_rel)) by {
        reveal_strlit("models/higgs-q4_k_m/higgs_audio_v2_tokenizer_config.json");
    }
    assert(below(c.markers[0].rel)) by {
        reveal_strlit("models/higgs-q4_k_m/q4_k_m.gguf");
    }
    assert(below(c.markers[1].rel)) by {
        reveal_strlit("models/higgs-q4_k_m/tokenizer.json");
    }
    assert(c.files[0].dest_rel == c.markers[0].rel);
}

proof fn lemma_parakeet_fp32()
    ensures
        lies_below(catalog::parakeet_fp32_model()),
        marked_by_files(catalog::parakeet_fp32_model()),
{
    let c = catalog::parakeet_fp32_model();
    assert(below(c.files[0].dest_rel)) by {
        reveal_strlit("models/tdt-fp32/encoder-model.onnx");
    }
    assert(below(c.files[1].dest_rel)) by {
        reveal_strlit("models/tdt-fp32/encoder-model.onnx.data");
    }
    assert(below(c.files[2].dest_rel)) by {
        reveal_strlit("models/tdt-fp32/decoder_joint-model.onnx");
    }
    assert(below(c.files[3].dest_rel)) by {
        reveal_strlit("models/tdt-fp32/nemo128.onnx");
    }
    assert(below(c.files[4].dest_rel)) by {
        reveal_strlit("models/tdt-fp32/vocab.txt");
    }
    assert(below(c.files[5].dest_rel)) by {
        reveal_strlit("models/tdt-fp32/config.json");
    }
    assert(below(c.markers[0].rel)) by {
        reveal_strlit("models/tdt-fp32/encoder-model.onnx");
    }
    assert(below(c.markers[1].rel)) by {
        reveal_strlit("models/tdt-fp32/encoder-model.onnx.data");
    }
    assert(below(c.markers[2].rel)) by {
        reveal_strlit("models/tdt-fp32/vocab.txt");
    }
    assert(c.files[0].dest_rel == c.markers[0].rel);
    assert(c.files[1].dest_rel == c.markers[1].rel);
    assert(c.files[4].dest_rel == c.markers[2].rel);
}

proof fn lemma_whisper_engine()
    ensures
        lies_below(catalog::whisper_engine_model()),
        marked_by_files(catalog::whisper_engine_model()),
{
    let c = catalog::whisper_engine_model();
    assert(below(c.files[0].dest_rel)) by {
        reveal_strlit("tools/whisper/_whisper.zip");
    }
    assert(below(c.markers[0].rel)) by {
        reveal_strlit("tools/whisper/whisper-faster.exe");
    }
}

proof fn lemma_whisper_tiny()
    ensures
        lies_below(catalog::whisper_tiny_model()),
        marked_by_files(catalog::whisper_tiny_model()),
{
    let c = catalog::whisper_tiny_model();
    assert(below(c.files[0].dest_rel)) by {
        reveal_strlit("models/whisper/faster-whisper-tiny/model.bin");
    }
    assert(below(c.files[1].dest_rel)) by {
        reveal_strlit("models/whisper/faster-whisper-tiny/config.json");
    }
    assert(below(c.files[2].dest_rel)) by {
        reveal_strlit("models/whisper/faster-whisper-tiny/tokenizer.json");
    }
    assert(below(c.files[3].dest_rel)) by {
        reveal_strlit("models/whisper/faster-whisper-tiny/vocabulary.txt");
    }
    assert(below(c.markers[0].rel)) by {
        reveal_strlit("models/whisper/faster-whisper-tiny/model.bin");
    }
    assert(below(c.markers[1].rel)) by {
        reveal_strlit("models/whisper/faster-whisper-tiny/tokenizer.json");
    }
    assert(c.files[0].dest_rel == c.markers[0].rel);
    assert(c.files[2].dest_rel == c.markers[1].rel);
}

proof fn lemma_whisper_base()
    ensures
        lies_below(catalog::whisper_base_model()),
        marked_by_files(catalog::whisper_base_model()),
{
    let c = catalog::whisper_base_model();
    assert(below(c.files[0].dest_rel)) by {
        reveal_strlit("models/whisper/faster-whisper-base/model.bin");
    }
    assert(below(c.files[1].dest_rel)) by {
        reveal_strlit("models/whisper/faster-whisper-base/config.json");
    }
    assert(below(c.files[2].dest_rel)) by {
        reveal_strlit("models/whisper/faster-whisper-base/tokenizer.json");
    }
    assert(below(c.files[3].dest_rel)) by {
        reveal_strlit("models/whisper/faster-whisper-base/vocabulary.txt");
    }
    assert(below(c.markers[0].rel)) by {
        reveal_strlit("models/whisper/faster-whisper-base/model.bin");
    }
    assert(below(c.markers[1].rel)) by {
        reveal_strlit("models/whisper/faster-whisper-base/tokenizer.json");
    }
    assert(c.files[0].dest_rel == c.markers[0].rel);
    assert(c.files[2].dest_rel == c.markers[1].rel);
}

proof fn lemma_whisper_small()
    ensures
        lies_below(catalog::whisper_small_model()),
        marked_by_files(catalog::whisper_small_model()),
{
    let c = catalog::whisper_small_model();
    assert(below(c.files[0].dest_rel)) by {
        reveal_strlit("models/whisper/faster-whisper-small/model.bin");
    }
    assert(below(c.files[1].dest_rel)) by {
        reveal_strlit("models/whisper/faster-whisper-small/config.json");
    }
    assert(below(c.files[2].dest_rel)) by {
        reveal_strlit("models/whisper/faster-whisper-small/tokenizer.json");
    }
    assert(below(c.files[3].dest_rel)) by {
        reveal_strlit("models/whisper/faster-whisper-small/vocabulary.txt");
    }
    assert(below(c.markers[0].rel)) by {
        reveal_strlit("models/whisper/faster-whisper-small/model.bin");
    }
    assert(below(c.markers[1].rel)) by {
        reveal_strlit("models/whisper/faster-whisper-small/tokenizer.json");
    }
    assert(c.files[0].dest_rel == c.markers[0].rel);
    assert(c.files[2].dest_rel == c.markers[1].rel);
}

proof fn lemma_whisper_medium()
    ensures
        lies_below(catalog::whisper_medium_model()),
        marked_by_files(catalog::whisper_medium_model()),
{
    let c = catalog::whisper_medium_model();
    assert(below(c.files[0].dest_rel)) by {
        reveal_strlit("models/whisper/faster-whisper-medium/model.bin");
    }
    assert(below(c.files[1].dest_rel)) by {
        reveal_strlit("models/whisper/faster-whisper-medium/config.json");
    }
    assert(below(c.files[2].dest_rel)) by {
        reveal_strlit("models/whisper/faster-whisper-medium/tokenizer.json");
    }
    assert(below(c.files[3].dest_rel)) by {
        reveal_strlit("models/whisper/faster-whisper-medium/vocabulary.txt");
    }
    assert(below(c.markers[0].rel)) by {
        reveal_strlit("models/whisper/faster-whisper-medium/model.bin");
    }
    assert(below(c.markers[1].rel)) by {
        reveal_strlit("models/whisper/faster-whisper-medium/tokenizer.json");
    }
    assert(c.files[0].dest_rel == c.markers[0].rel);
    assert(c.files[2].dest_rel == c.markers[1].rel);
}

proof fn lemma_whisper_large_v3()
    ensures
        lies_below(catalog::whisper_large_v3_model()),
        marked_by_files(catalog::whisper_large_v3_model()),
{
    let c = catalog::whisper_large_v3_model();
    assert(below(c.files[0].dest_rel)) by {
        reveal_strlit("models/whisper/faster-whisper-large-v3/model.bin");
    }
    assert(below(c.files[1].dest_rel)) by {
        reveal_strlit("models/whisper/faster-whisper-large-v3/config.json");
    }
    assert(below(c.files[2].dest_rel)) by {
        reveal_strlit("models/whisper/faster-whisper-large-v3/preprocessor_config.json");
    }
    assert(below(c.files[3].dest_rel)) by {
        reveal_strlit("models/whisper/faster-whisper-large-v3/tokenizer.json");
    }
    assert(below(c.files[4].dest_rel)) by {
        reveal_strlit("models/whisper/faster-whisper-large-v3/vocabulary.json");
    }
    assert(below(c.markers[0].rel)) by {
        reveal_strlit("models/whisper/faster-whisper-large-v3/model.bin");
    }
    assert(below(c.markers[1].rel)) by {
        reveal_strlit("models/whisper/faster-whisper-large-v3/tokenizer.json");
    }
    assert(c.files[0].dest_rel == c.markers[0].rel);
    assert(c.files[3].dest_rel == c.markers[1].rel);
}

proof fn lemma_whisper_large_v3_turbo()
    ensures
        lies_below(catalog::whisper_large_v3_turbo_model()),
        marked_by_files(catalog::whisper_large_v3_turbo_model()),
{
    let c = catalog::whisper_large_v3_turbo_model();
    assert(below(c.files[0].dest_rel)) by {
        reveal_strlit("models/whisper/faster-whisper-large-v3-turbo/model.bin");
    }
    assert(below(c.files[1].dest_rel)) by {
        reveal_strlit("models/whisper/faster-whisper-large-v3-turbo/config.json");
    }
    assert(below(c.files[2].dest_rel)) by {
        reveal_strlit("models/whisper/faster-whisper-large-v3-turbo/preprocessor_config.json");
    }
    assert(below(c.files[3].dest_rel)) by {
        reveal_strlit("models/whisper/faster-whisper-large-v3-turbo/tokenizer.json");
    }
    assert(below(c.files[4].dest_rel)) by {
        reveal_strlit("models/whisper/faster-whisper-large-v3-turbo/vocabulary.json");
    }
    assert(below(c.markers[0].rel)) by {
        reveal_strlit("models/whisper/faster-whisper-large-v3-turbo/model.bin");
    }
    assert(below(c.markers[1].rel)) by {
        reveal_strlit("models/whisper/faster-whisper-large-v3-turbo/tokenizer.json");
    }
    assert(c.files[0].dest_rel == c.markers[0].rel);
    assert(c.files[3].dest_rel == c.markers[1].rel);
}

proof fn lemma_sortformer()
    ensures
        lies_below(catalog::sortformer_model()),
        marked_by_files(catalog::sortformer_model()),
{
    let c = catalog::sortformer_model();
    assert(below(c.files[0].dest_rel)) by {
        reveal_strlit("models/sortformer/diar_streaming_sortformer_4spk-v2.onnx");
    }
    assert(below(c.markers[0].rel)) by {
        reveal_strlit("models/sortformer/diar_streaming_sortformer_4spk-v2.onnx");
    }
    assert(c.files[0].dest_rel == c.markers[0].rel);
}

proof fn lemma_roformer()
    ensures
        lies_below(catalog::roformer_model()),
        marked_by_files(catalog::roformer_model()),
{
    let c = catalog::roformer_model();
    assert(below(c.files[0].dest_rel)) by {
        reveal_strlit("models/bsroformer/voc_fv6-Q8_0.gguf");
    }
    assert(below(c.markers[0].rel)) by {
        reveal_strlit("models/bsroformer/voc_fv6-Q8_0.gguf");
    }
    assert(c.files[0].dest_rel == c.markers[0].rel);
}

proof fn lemma_roformer_q5()
    ensures
        lies_below(catalog::roformer_q5_model()),
        marked_by_files(catalog::roformer_q5_model()),
{
    let c = catalog::roformer_q5_model();
    assert(below(c.files[0].dest_rel)) by {
        reveal_strlit("models/bsroformer/voc_fv6-Q5_0.gguf");
    }
    assert(below(c.markers[0].rel)) by {
        reveal_strlit("models/bsroformer/voc_fv6-Q5_0.gguf");
    }
    assert(c.files[0].dest_rel == c.markers[0].rel);
}

proof fn lemma_roformer_q4()
    ensures
        lies_below(catalog::roformer_q4_model()),
        marked_by_files(catalog::roformer_q4_model()),
{
    let c = catalog::roformer_q4_model();
    assert(below(c.files[0].dest_rel)) by {
        reveal_strlit("models/bsroformer/voc_fv6-Q4_0.gguf");
    }
    assert(below(c.markers[0].rel)) by {
        reveal_strlit("models/bsroformer/voc_fv6-Q4_0.gguf");
    }
    assert(c.files[0].dest_rel == c.markers[0].rel);
}

proof fn lemma_wespeaker()
    ensures
        lies_below(catalog::wespeaker_model()),
        marked_by_files(catalog::wespeaker_model()),
{
    let c = catalog::wespeaker_model();
    assert(below(c.files[0].dest_rel)) by {
        reveal_strlit("models/faces/wespeaker/voxceleb_resnet34_LM.onnx");
    }
    assert(below(c.markers[0].rel)) by {
        reveal_strlit("models/faces/wespeaker/voxceleb_resnet34_LM.onnx");
    }
    assert(c.files[0].dest_rel == c.markers[0].rel);
}

proof fn lemma_bsroformer_engine()
    ensures
        lies_below(catalog::bsroformer_engine_model()),
        marked_by_files(catalog::bsroformer_engine_model()),
{
    let c = catalog::bsroformer_engine_model();
    assert(below(c.files[0].dest_rel)) by {
        reveal_strlit("tools/bsroformer/_engine.zip");
    }
    assert(below(c.markers[0].rel)) by {
        reveal_strlit("tools/bsroformer/bs_roformer-cli.exe");
    }
}

proof fn lemma_bsroformer_engine_cpu()
    ensures
        lies_below(catalog::bsroformer_engine_cpu_model()),
        marked_by_files(catalog::bsroformer_engine_cpu_model()),
{
    let c = catalog::bsroformer_engine_cpu_model();
    assert(below(c.files[0].dest_rel)) by {
        reveal_strlit("tools/bsroformer-cpu/_engine.zip");
    }
    assert(below(c.markers[0].rel)) by {
        reveal_strlit("tools/bsroformer-cpu/bs_roformer-cli.exe");
    }
}

proof fn lemma_llama()
    ensures
        lies_below(catalog::llama_model()),
        marked_by_files(catalog::llama_model()),
{
    let c = catalog::llama_model();
    assert(below(c.files[0].dest_rel)) by {
        reveal_strlit("tools/llama/_llama.zip");
    }
    assert(below(c.markers[0].rel)) by {
        reveal_strlit("tools/llama/llama-server.exe");
    }
}

proof fn lemma_onnxruntime()
    ensures
        lies_below(catalog::onnxruntime_model()),
        marked_by_files(catalog::onnxruntime_model()),
{
    let c = catalog::onnxruntime_model();
    assert(below(c.files[0].dest_rel)) by {
        reveal_strlit("models/runtime/_ort.zip");
    }
    assert(below(c.markers[0].rel)) by {
        reveal_strlit("models/runtime/onnxruntime-win-x64-1.24.2/lib/onnxruntime.dll");
    }
}

proof fn lemma_onnxruntime_gpu()
    ensures
        lies_below(catalog::onnxruntime_gpu_model()),
        marked_by_files(catalog::onnxruntime_gpu_model()),
{
    let c = catalog::onnxruntime_gpu_model();
    assert(below(c.files[0].dest_rel)) by {
        reveal_strlit("models/runtime/_ort_gpu.zip");
    }
    assert(below(c.markers[0].rel)) by {
        reveal_strlit("models/runtime/onnxruntime-win-x64-gpu-1.24.2/lib/onnxruntime.dll");
    }
}

proof fn lemma_ffmpeg()
    ensures
        lies_below(catalog::ffmpeg_model()),
        marked_by_files(catalog::ffmpeg_model()),
{
    let c = catalog::ffmpeg_model();
    assert(below(c.files[0].dest_rel)) by {
        reveal_strlit("tools/ffmpeg/_ffmpeg.zip");
    }
    assert(below(c.markers[0].rel)) by {
        reveal_strlit("tools/ffmpeg/ffmpeg.exe");
    }
}

proof fn lemma_cuda_runtime()
    ensures
        lies_below(catalog::cuda_runtime_model()),
        marked_by_files(catalog::cuda_runtime_model()),
{
    let c = catalog::cuda_runtime_model();
    assert(below(c.files[0].dest_rel)) by {
        reveal_strlit("models/higgs-engine/_cudart.whl");
    }
    assert(below(c.files[1].dest_rel)) by {
        reveal_strlit("models/higgs-engine/_cublas.whl");
    }
    assert(below(c.markers[0].rel)) by {
        reveal_strlit("models/higgs-engine/cudart64_13.dll");
    }
    assert(below(c.markers[1].rel)) by {
        reveal_strlit("models/higgs-engine/cublas64_13.dll");
    }
    assert(below(c.markers[2].rel)) by {
        reveal_strlit("models/higgs-engine/cublasLt64_13.dll");
    }
}

proof fn lemma_cudnn()
    ensures
        lies_below(catalog::cudnn_model()),
        marked_by_files(catalog::cudnn_model()),
{
    let c = catalog::cudnn_model();
    assert(below(c.files[0].dest_rel)) by {
        reveal_strlit("models/higgs-engine/_cudnn.whl");
    }
    assert(below(c.markers[0].rel)) by {
        reveal_strlit("models/higgs-engine/cudnn64_9.dll");
    }
}

proof fn lemma_vcruntime()
    ensures
        lies_below(catalog::vcruntime_model()),
        marked_by_files(catalog::vcruntime_model()),
{
    let c = catalog::vcruntime_model();
    assert(below(c.markers[0].rel)) by {
        reveal_strlit("models/higgs-engine/MSVCP140.dll");
    }
    assert(below(c.markers[1].rel)) by {
        reveal_strlit("models/higgs-engine/VCRUNTIME140.dll");
    }
    assert(below(c.markers[2].rel)) by {
        reveal_strlit("models/higgs-engine/VCRUNTIME140_1.dll");
    }
    assert(below(c.markers[3].rel)) by {
        reveal_strlit("models/higgs-engine/VCOMP140.DLL");
    }
}

proof fn lemma_ocr()
    ensures
        lies_below(catalog::ocr_model()),
        marked_by_files(catalog::ocr_model()),
{
    let c = catalog::ocr_model();
    assert(below(c.markers[0].rel)) by {
        reveal_strlit("models/ocr/det.onnx");
    }
    assert(below(c.markers[1].rel)) by {
        reveal_strlit("models/ocr/cls.onnx");
    }
    assert(below(c.markers[2].rel)) by {
        reveal_strlit("models/ocr/rec_cyrillic.onnx");
    }
    assert(below(c.markers[3].rel)) by {
        reveal_strlit("models/ocr/rec_cyrillic.dict.txt");
    }
}

/// Nothing of a component lies outside of the root: every path is relative and has no step up.
pub proof fn law_components_lie_below_the_root(i: int)
    requires
        0 <= i < catalog::manifest_model().len(),
    ensures
        lies_below(catalog::manifest_model()[i]),
{
    lemma_higgs();
    lemma_higgs_engine();
    lemma_gemma();
    lemma_gemma_q5_0();
    lemma_gemma_q6_k();
    lemma_gemma_q8_0();
    lemma_parakeet();
    lemma_higgs_q6_k();
    lemma_higgs_q4_k_m();
    lemma_parakeet_fp32();
    lemma_whisper_engine();
    lemma_whisper_tiny();
    lemma_whisper_base();
    lemma_whisper_small();
    lemma_whisper_medium();
    lemma_whisper_large_v3();
    lemma_whisper_large_v3_turbo();
    lemma_sortformer();
    lemma_roformer();
    lemma_roformer_q5();
    lemma_roformer_q4();
    lemma_wespeaker();
    lemma_bsroformer_engine();
    lemma_bsroformer_engine_cpu();
    lemma_llama();
    lemma_onnxruntime();
    lemma_onnxruntime_gpu();
    lemma_ffmpeg();
    lemma_cuda_runtime();
    lemma_cudnn();
    lemma_vcruntime();
    lemma_ocr();
}

/// A marker of a downloaded component that tells a size is one of the component's own files, kept as it is
/// fetched, and tells that file's size: what is fetched whole is recognised.
pub proof fn law_markers_are_files(i: int)
    requires
        0 <= i < catalog::manifest_model().len(),
    ensures
        marked_by_files(catalog::manifest_model()[i]),
{
    lemma_higgs();
    lemma_higgs_engine();
    lemma_gemma();
    lemma_gemma_q5_0();
    lemma_gemma_q6_k();
    lemma_gemma_q8_0();
    lemma_parakeet();
    lemma_higgs_q6_k();
    lemma_higgs_q4_k_m();
    lemma_parakeet_fp32();
    lemma_whisper_engine();
    lemma_whisper_tiny();
    lemma_whisper_base();
    lemma_whisper_small();
    lemma_whisper_medium();
    lemma_whisper_large_v3();
    lemma_whisper_large_v3_turbo();
    lemma_sortformer();
    lemma_roformer();
    lemma_roformer_q5();
    lemma_roformer_q4();
    lemma_wespeaker();
    lemma_bsroformer_engine();
    lemma_bsroformer_engine_cpu();
    lemma_llama();
    lemma_onnxruntime();
    lemma_onnxruntime_gpu();
    lemma_ffmpeg();
    lemma_cuda_runtime();
    lemma_cudnn();
    lemma_vcruntime();
    lemma_ocr();
}

} // verus!
