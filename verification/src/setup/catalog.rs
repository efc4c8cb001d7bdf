//! The list of components.

use super::Component;
use super::ComponentModel;
use super::Delivery;
use super::Extract;
use super::FileModel;
use super::FileSpec;
use super::Marker;
use super::MarkerModel;
use super::Requirement;
use crate::text;
use vstd::prelude::*;

verus! {

/// The speaker diarisation model.
pub const HF_SORTFORMER: &'static str =
    "https://huggingface.co/altunenes/parakeet-rs/resolve/main/diar_streaming_sortformer_4spk-v2.onnx";

/// The vocal separation model.
pub const HF_ROFORMER: &'static str =
    "https://huggingface.co/chenmozhijin/BSRoformer-GGUF/resolve/main/GaboxR67/MelBandRoformers/melbandroformers/vocals/voc_fv6-Q8_0.gguf";

/// The separation engine for CUDA.
pub const GH_BSROFORMER_ENGINE: &'static str =
    "https://github.com/chenmozhijin/BSRoformer.cpp/releases/download/v0.1.0/BSRoformer-windows-cuda-13.1.0.zip";

/// The separation engine for the processor alone.
pub const GH_BSROFORMER_ENGINE_CPU: &'static str =
    "https://github.com/chenmozhijin/BSRoformer.cpp/releases/download/v0.1.0/BSRoformer-windows-x64-msvc.zip";

/// The build of llama.cpp that is fetched.
pub const GH_LLAMA_BUILD: &'static str =
    "b9966";

/// The llama.cpp server.
pub const GH_LLAMA: &'static str =
    "https://github.com/ggml-org/llama.cpp/releases/download/b9966/llama-b9966-bin-win-cuda-13.3-x64.zip";

/// ONNX Runtime, in the one version whose interface fits.
pub const GH_ORT: &'static str =
    "https://github.com/microsoft/onnxruntime/releases/download/v1.24.2/onnxruntime-win-x64-1.24.2.zip";

/// ONNX Runtime with its CUDA provider.
pub const GH_ORT_GPU: &'static str =
    "https://github.com/microsoft/onnxruntime/releases/download/v1.24.2/onnxruntime-win-x64-gpu_cuda13-1.24.2.zip";

/// FFmpeg, statically linked.
pub const GH_FFMPEG: &'static str =
    "https://github.com/BtbN/FFmpeg-Builds/releases/download/latest/ffmpeg-master-latest-win64-gpl.zip";

/// The CUDA runtime.
pub const WHEEL_CUDART: &'static str =
    "https://files.pythonhosted.org/packages/d2/27/b53a5e0397842a5c11f0e1a39d4e5b2f22638a4126e83b3c4e196f62c969/nvidia_cuda_runtime-13.3.29-py3-none-win_amd64.whl";

/// cuBLAS.
pub const WHEEL_CUBLAS: &'static str =
    "https://files.pythonhosted.org/packages/08/8f/890a96ea1ff615100296977cce23296052dcb8c114d4e451201ec39df9bf/nvidia_cublas-13.6.0.2-py3-none-win_amd64.whl";

/// cuDNN.
pub const WHEEL_CUDNN: &'static str =
    "https://files.pythonhosted.org/packages/18/d4/c09b11336981836c3183f28a6ca309e08ad080311edb6ff6c28cecdb5f24/nvidia_cudnn_cu13-9.25.0.15-py3-none-win_amd64.whl";

/// The page of the display drivers.
pub const NVIDIA_DRIVER_URL: &'static str =
    "https://www.nvidia.com/Download/index.aspx";

pub open spec fn higgs_model() -> ComponentModel {
    ComponentModel {
        id: "higgs"@,
        name: "Higgs Audio v3 (Q8_0)"@,
        purpose: "Синтез дубляжа и клон голоса (TTS)"@,
        requirement: Requirement::Required,
        delivery: Delivery::Download,
        size: 5_530_678_590,
        files: seq![
            FileModel { url: "https://huggingface.co/drbaph/Higgs-Audio-v3-Studio/resolve/main/models/higgs-q8_0/q8_0.gguf"@, dest_rel: "models/higgs-q8_0/q8_0.gguf"@, size: 5_519_235_296, extract: Extract::Keep },
            FileModel { url: "https://huggingface.co/drbaph/Higgs-Audio-v3-Studio/resolve/main/models/higgs-q8_0/config.json"@, dest_rel: "models/higgs-q8_0/config.json"@, size: 2_755, extract: Extract::Keep },
            FileModel { url: "https://huggingface.co/drbaph/Higgs-Audio-v3-Studio/resolve/main/models/higgs-q8_0/chat_template.jinja"@, dest_rel: "models/higgs-q8_0/chat_template.jinja"@, size: 2_427, extract: Extract::Keep },
            FileModel { url: "https://huggingface.co/drbaph/Higgs-Audio-v3-Studio/resolve/main/models/higgs-q8_0/tokenizer.json"@, dest_rel: "models/higgs-q8_0/tokenizer.json"@, size: 11_433_924, extract: Extract::Keep },
            FileModel { url: "https://huggingface.co/drbaph/Higgs-Audio-v3-Studio/resolve/main/models/higgs-q8_0/tokenizer_config.json"@, dest_rel: "models/higgs-q8_0/tokenizer_config.json"@, size: 1_937, extract: Extract::Keep },
            FileModel { url: "https://huggingface.co/drbaph/Higgs-Audio-v3-Studio/resolve/main/models/higgs-q8_0/higgs_audio_v2_tokenizer_config.json"@, dest_rel: "models/higgs-q8_0/higgs_audio_v2_tokenizer_config.json"@, size: 2_251, extract: Extract::Keep },
        ],
        markers: seq![
            MarkerModel { rel: "models/higgs-q8_0/q8_0.gguf"@, expect: 5_519_235_296 },
            MarkerModel { rel: "models/higgs-q8_0/config.json"@, expect: 2_755 },
            MarkerModel { rel: "models/higgs-q8_0/tokenizer.json"@, expect: 11_433_924 },
        ],
        external_url: None,
    }
}

fn higgs() -> (c: Component)
    ensures
        c@ == higgs_model(),
{
    let c = Component {
        id: "higgs",
        name: "Higgs Audio v3 (Q8_0)",
        purpose: "Синтез дубляжа и клон голоса (TTS)",
        requirement: Requirement::Required,
        delivery: Delivery::Download,
        size: 5_530_678_590,
        files: vec![
            FileSpec { url: "https://huggingface.co/drbaph/Higgs-Audio-v3-Studio/resolve/main/models/higgs-q8_0/q8_0.gguf", dest_rel: "models/higgs-q8_0/q8_0.gguf", size: 5_519_235_296, extract: Extract::Keep },
            FileSpec { url: "https://huggingface.co/drbaph/Higgs-Audio-v3-Studio/resolve/main/models/higgs-q8_0/config.json", dest_rel: "models/higgs-q8_0/config.json", size: 2_755, extract: Extract::Keep },
            FileSpec { url: "https://huggingface.co/drbaph/Higgs-Audio-v3-Studio/resolve/main/models/higgs-q8_0/chat_template.jinja", dest_rel: "models/higgs-q8_0/chat_template.jinja", size: 2_427, extract: Extract::Keep },
            FileSpec { url: "https://huggingface.co/drbaph/Higgs-Audio-v3-Studio/resolve/main/models/higgs-q8_0/tokenizer.json", dest_rel: "models/higgs-q8_0/tokenizer.json", size: 11_433_924, extract: Extract::Keep },
            FileSpec { url: "https://huggingface.co/drbaph/Higgs-Audio-v3-Studio/resolve/main/models/higgs-q8_0/tokenizer_config.json", dest_rel: "models/higgs-q8_0/tokenizer_config.json", size: 1_937, extract: Extract::Keep },
            FileSpec { url: "https://huggingface.co/drbaph/Higgs-Audio-v3-Studio/resolve/main/models/higgs-q8_0/higgs_audio_v2_tokenizer_config.json", dest_rel: "models/higgs-q8_0/higgs_audio_v2_tokenizer_config.json", size: 2_251, extract: Extract::Keep },
        ],
        markers: vec![
            Marker { rel: "models/higgs-q8_0/q8_0.gguf", expect: 5_519_235_296 },
            Marker { rel: "models/higgs-q8_0/config.json", expect: 2_755 },
            Marker { rel: "models/higgs-q8_0/tokenizer.json", expect: 11_433_924 },
        ],
        external_url: None,
    };
    proof {
        assert(c@.files =~= higgs_model().files);
        assert(c@.markers =~= higgs_model().markers);
    }
    c
}

pub open spec fn higgs_engine_model() -> ComponentModel {
    ComponentModel {
        id: "higgs-engine"@,
        name: "Higgs движок (audiocpp_engine.dll)"@,
        purpose: "Нативный TTS-движок Higgs (C-ABI)"@,
        requirement: Requirement::Required,
        delivery: Delivery::Download,
        size: 71_727_104,
        files: seq![
            FileModel { url: "https://huggingface.co/drbaph/Higgs-Audio-v3-Studio/resolve/main/engines/audiocpp_engine.dll"@, dest_rel: "models/higgs-engine/audiocpp_engine.dll"@, size: 71_727_104, extract: Extract::Keep },
        ],
        markers: seq![
            MarkerModel { rel: "models/higgs-engine/audiocpp_engine.dll"@, expect: 71_727_104 },
        ],
        external_url: None,
    }
}

fn higgs_engine() -> (c: Component)
    ensures
        c@ == higgs_engine_model(),
{
    let c = Component {
        id: "higgs-engine",
        name: "Higgs движок (audiocpp_engine.dll)",
        purpose: "Нативный TTS-движок Higgs (C-ABI)",
        requirement: Requirement::Required,
        delivery: Delivery::Download,
        size: 71_727_104,
        files: vec![
            FileSpec { url: "https://huggingface.co/drbaph/Higgs-Audio-v3-Studio/resolve/main/engines/audiocpp_engine.dll", dest_rel: "models/higgs-engine/audiocpp_engine.dll", size: 71_727_104, extract: Extract::Keep },
        ],
        markers: vec![
            Marker { rel: "models/higgs-engine/audiocpp_engine.dll", expect: 71_727_104 },
        ],
        external_url: None,
    };
    proof {
        assert(c@.files =~= higgs_engine_model().files);
        assert(c@.markers =~= higgs_engine_model().markers);
    }
    c
}

pub open spec fn gemma_model() -> ComponentModel {
    ComponentModel {
        id: "gemma"@,
        name: "Gemma-4 12B QAT q4_0 + vision"@,
        purpose: "Перевод и vision-оркестратор субтитров/титров"@,
        requirement: Requirement::Required,
        delivery: Delivery::Download,
        size: 7_150_992_992,
        files: seq![
            FileModel { url: "https://huggingface.co/google/gemma-4-12b-it-qat-q4_0-gguf/resolve/main/gemma-4-12b-it-qat-q4_0.gguf"@, dest_rel: "models/mt/gemma-4-12b-it-qat-q4_0.gguf"@, size: 6_975_877_728, extract: Extract::Keep },
            FileModel { url: "https://huggingface.co/google/gemma-4-12b-it-qat-q4_0-gguf/resolve/main/mmproj-gemma-4-12b-it-qat-q4_0.gguf"@, dest_rel: "models/mt/mmproj-gemma-4-12b-it-qat-q4_0.gguf"@, size: 175_115_264, extract: Extract::Keep },
        ],
        markers: seq![
            MarkerModel { rel: "models/mt/gemma-4-12b-it-qat-q4_0.gguf"@, expect: 6_975_877_728 },
            MarkerModel { rel: "models/mt/mmproj-gemma-4-12b-it-qat-q4_0.gguf"@, expect: 175_115_264 },
        ],
        external_url: None,
    }
}

fn gemma() -> (c: Component)
    ensures
        c@ == gemma_model(),
{
    let c = Component {
        id: "gemma",
        name: "Gemma-4 12B QAT q4_0 + vision",
        purpose: "Перевод и vision-оркестратор субтитров/титров",
        requirement: Requirement::Required,
        delivery: Delivery::Download,
        size: 7_150_992_992,
        files: vec![
            FileSpec { url: "https://huggingface.co/google/gemma-4-12b-it-qat-q4_0-gguf/resolve/main/gemma-4-12b-it-qat-q4_0.gguf", dest_rel: "models/mt/gemma-4-12b-it-qat-q4_0.gguf", size: 6_975_877_728, extract: Extract::Keep },
            FileSpec { url: "https://huggingface.co/google/gemma-4-12b-it-qat-q4_0-gguf/resolve/main/mmproj-gemma-4-12b-it-qat-q4_0.gguf", dest_rel: "models/mt/mmproj-gemma-4-12b-it-qat-q4_0.gguf", size: 175_115_264, extract: Extract::Keep },
        ],
        markers: vec![
            Marker { rel: "models/mt/gemma-4-12b-it-qat-q4_0.gguf", expect: 6_975_877_728 },
            Marker { rel: "models/mt/mmproj-gemma-4-12b-it-qat-q4_0.gguf", expect: 175_115_264 },
        ],
        external_url: None,
    };
    proof {
        assert(c@.files =~= gemma_model().files);
        assert(c@.markers =~= gemma_model().markers);
    }
    c
}

pub open spec fn gemma_q5_0_model() -> ComponentModel {
    ComponentModel {
        id: "gemma-q5_0"@,
        name: "Gemma-4 12B (Q5_K_M) + vision"@,
        purpose: "Перевод и vision — точнее q4_0"@,
        requirement: Requirement::Optional,
        delivery: Delivery::Download,
        size: 8_588_690_400,
        files: seq![
            FileModel { url: "https://huggingface.co/unsloth/gemma-4-12b-it-GGUF/resolve/main/gemma-4-12b-it-Q5_K_M.gguf"@, dest_rel: "models/mt-q5_0/gemma-4-12b-it-Q5_K_M.gguf"@, size: 8_413_574_560, extract: Extract::Keep },
            FileModel { url: "https://huggingface.co/unsloth/gemma-4-12b-it-GGUF/resolve/main/mmproj-F16.gguf"@, dest_rel: "models/mt-q5_0/mmproj-F16.gguf"@, size: 175_115_840, extract: Extract::Keep },
        ],
        markers: seq![
            MarkerModel { rel: "models/mt-q5_0/gemma-4-12b-it-Q5_K_M.gguf"@, expect: 8_413_574_560 },
            MarkerModel { rel: "models/mt-q5_0/mmproj-F16.gguf"@, expect: 175_115_840 },
        ],
        external_url: None,
    }
}

fn gemma_q5_0() -> (c: Component)
    ensures
        c@ == gemma_q5_0_model(),
{
    let c = Component {
        id: "gemma-q5_0",
        name: "Gemma-4 12B (Q5_K_M) + vision",
        purpose: "Перевод и vision — точнее q4_0",
        requirement: Requirement::Optional,
        delivery: Delivery::Download,
        size: 8_588_690_400,
        files: vec![
            FileSpec { url: "https://huggingface.co/unsloth/gemma-4-12b-it-GGUF/resolve/main/gemma-4-12b-it-Q5_K_M.gguf", dest_rel: "models/mt-q5_0/gemma-4-12b-it-Q5_K_M.gguf", size: 8_413_574_560, extract: Extract::Keep },
            FileSpec { url: "https://huggingface.co/unsloth/gemma-4-12b-it-GGUF/resolve/main/mmproj-F16.gguf", dest_rel: "models/mt-q5_0/mmproj-F16.gguf", size: 175_115_840, extract: Extract::Keep },
        ],
        markers: vec![
            Marker { rel: "models/mt-q5_0/gemma-4-12b-it-Q5_K_M.gguf", expect: 8_413_574_560 },
            Marker { rel: "models/mt-q5_0/mmproj-F16.gguf", expect: 175_115_840 },
        ],
        external_url: None,
    };
    proof {
        assert(c@.files =~= gemma_q5_0_model().files);
        assert(c@.markers =~= gemma_q5_0_model().markers);
    }
    c
}

pub open spec fn gemma_q6_k_model() -> ComponentModel {
    ComponentModel {
        id: "gemma-q6_k"@,
        name: "Gemma-4 12B (Q6_K) + vision"@,
        purpose: "Перевод и vision — ещё точнее"@,
        requirement: Requirement::Optional,
        delivery: Delivery::Download,
        size: 9_961_137_120,
        files: seq![
            FileModel { url: "https://huggingface.co/unsloth/gemma-4-12b-it-GGUF/resolve/main/gemma-4-12b-it-Q6_K.gguf"@, dest_rel: "models/mt-q6_k/gemma-4-12b-it-Q6_K.gguf"@, size: 9_786_021_280, extract: Extract::Keep },
            FileModel { url: "https://huggingface.co/unsloth/gemma-4-12b-it-GGUF/resolve/main/mmproj-F16.gguf"@, dest_rel: "models/mt-q6_k/mmproj-F16.gguf"@, size: 175_115_840, extract: Extract::Keep },
        ],
        markers: seq![
            MarkerModel { rel: "models/mt-q6_k/gemma-4-12b-it-Q6_K.gguf"@, expect: 9_786_021_280 },
            MarkerModel { rel: "models/mt-q6_k/mmproj-F16.gguf"@, expect: 175_115_840 },
        ],
        external_url: None,
    }
}

fn gemma_q6_k() -> (c: Component)
    ensures
        c@ == gemma_q6_k_model(),
{
    let c = Component {
        id: "gemma-q6_k",
        name: "Gemma-4 12B (Q6_K) + vision",
        purpose: "Перевод и vision — ещё точнее",
        requirement: Requirement::Optional,
        delivery: Delivery::Download,
        size: 9_961_137_120,
        files: vec![
            FileSpec { url: "https://huggingface.co/unsloth/gemma-4-12b-it-GGUF/resolve/main/gemma-4-12b-it-Q6_K.gguf", dest_rel: "models/mt-q6_k/gemma-4-12b-it-Q6_K.gguf", size: 9_786_021_280, extract: Extract::Keep },
            FileSpec { url: "https://huggingface.co/unsloth/gemma-4-12b-it-GGUF/resolve/main/mmproj-F16.gguf", dest_rel: "models/mt-q6_k/mmproj-F16.gguf", size: 175_115_840, extract: Extract::Keep },
        ],
        markers: vec![
            Marker { rel: "models/mt-q6_k/gemma-4-12b-it-Q6_K.gguf", expect: 9_786_021_280 },
            Marker { rel: "models/mt-q6_k/mmproj-F16.gguf", expect: 175_115_840 },
        ],
        external_url: None,
    };
    proof {
        assert(c@.files =~= gemma_q6_k_model().files);
        assert(c@.markers =~= gemma_q6_k_model().markers);
    }
    c
}

pub open spec fn gemma_q8_0_model() -> ComponentModel {
    ComponentModel {
        id: "gemma-q8_0"@,
        name: "Gemma-4 12B (Q8_0) + vision"@,
        purpose: "Перевод и vision — максимальная точность"@,
        requirement: Requirement::Optional,
        delivery: Delivery::Download,
        size: 12_844_762_080,
        files: seq![
            FileModel { url: "https://huggingface.co/unsloth/gemma-4-12b-it-GGUF/resolve/main/gemma-4-12b-it-Q8_0.gguf"@, dest_rel: "models/mt-q8_0/gemma-4-12b-it-Q8_0.gguf"@, size: 12_669_646_240, extract: Extract::Keep },
            FileModel { url: "https://huggingface.co/unsloth/gemma-4-12b-it-GGUF/resolve/main/mmproj-F16.gguf"@, dest_rel: "models/mt-q8_0/mmproj-F16.gguf"@, size: 175_115_840, extract: Extract::Keep },
        ],
        markers: seq![
            MarkerModel { rel: "models/mt-q8_0/gemma-4-12b-it-Q8_0.gguf"@, expect: 12_669_646_240 },
            MarkerModel { rel: "models/mt-q8_0/mmproj-F16.gguf"@, expect: 175_115_840 },
        ],
        external_url: None,
    }
}

fn gemma_q8_0() -> (c: Component)
    ensures
        c@ == gemma_q8_0_model(),
{
    let c = Component {
        id: "gemma-q8_0",
        name: "Gemma-4 12B (Q8_0) + vision",
        purpose: "Перевод и vision — максимальная точность",
        requirement: Requirement::Optional,
        delivery: Delivery::Download,
        size: 12_844_762_080,
        files: vec![
            FileSpec { url: "https://huggingface.co/unsloth/gemma-4-12b-it-GGUF/resolve/main/gemma-4-12b-it-Q8_0.gguf", dest_rel: "models/mt-q8_0/gemma-4-12b-it-Q8_0.gguf", size: 12_669_646_240, extract: Extract::Keep },
            FileSpec { url: "https://huggingface.co/unsloth/gemma-4-12b-it-GGUF/resolve/main/mmproj-F16.gguf", dest_rel: "models/mt-q8_0/mmproj-F16.gguf", size: 175_115_840, extract: Extract::Keep },
        ],
        markers: vec![
            Marker { rel: "models/mt-q8_0/gemma-4-12b-it-Q8_0.gguf", expect: 12_669_646_240 },
            Marker { rel: "models/mt-q8_0/mmproj-F16.gguf", expect: 175_115_840 },
        ],
        external_url: None,
    };
    proof {
        assert(c@.files =~= gemma_q8_0_model().files);
        assert(c@.markers =~= gemma_q8_0_model().markers);
    }
    c
}

pub open spec fn parakeet_model() -> ComponentModel {
    ComponentModel {
        id: "parakeet"@,
        name: "Parakeet-TDT 0.6B v3 (int8)"@,
        purpose: "Распознавание речи со словными таймстемпами (ASR)"@,
        requirement: Requirement::Required,
        delivery: Delivery::Download,
        size: 670_619_803,
        files: seq![
            FileModel { url: "https://huggingface.co/istupakov/parakeet-tdt-0.6b-v3-onnx/resolve/main/encoder-model.int8.onnx"@, dest_rel: "models/tdt/encoder-model.int8.onnx"@, size: 652_183_999, extract: Extract::Keep },
            FileModel { url: "https://huggingface.co/istupakov/parakeet-tdt-0.6b-v3-onnx/resolve/main/decoder_joint-model.int8.onnx"@, dest_rel: "models/tdt/decoder_joint-model.int8.onnx"@, size: 18_202_004, extract: Extract::Keep },
            FileModel { url: "https://huggingface.co/istupakov/parakeet-tdt-0.6b-v3-onnx/resolve/main/nemo128.onnx"@, dest_rel: "models/tdt/nemo128.onnx"@, size: 139_764, extract: Extract::Keep },
            FileModel { url: "https://huggingface.co/istupakov/parakeet-tdt-0.6b-v3-onnx/resolve/main/vocab.txt"@, dest_rel: "models/tdt/vocab.txt"@, size: 93_939, extract: Extract::Keep },
            FileModel { url: "https://huggingface.co/istupakov/parakeet-tdt-0.6b-v3-onnx/resolve/main/config.json"@, dest_rel: "models/tdt/config.json"@, size: 97, extract: Extract::Keep },
        ],
        markers: seq![
            MarkerModel { rel: "models/tdt/encoder-model.int8.onnx"@, expect: 652_183_999 },
            MarkerModel { rel: "models/tdt/decoder_joint-model.int8.onnx"@, expect: 18_202_004 },
            MarkerModel { rel: "models/tdt/vocab.txt"@, expect: 93_939 },
        ],
        external_url: None,
    }
}

fn parakeet() -> (c: Component)
    ensures
        c@ == parakeet_model(),
{
    let c = Component {
        id: "parakeet",
        name: "Parakeet-TDT 0.6B v3 (int8)",
        purpose: "Распознавание речи со словными таймстемпами (ASR)",
        requirement: Requirement::Required,
        delivery: Delivery::Download,
        size: 670_619_803,
        files: vec![
            FileSpec { url: "https://huggingface.co/istupakov/parakeet-tdt-0.6b-v3-onnx/resolve/main/encoder-model.int8.onnx", dest_rel: "models/tdt/encoder-model.int8.onnx", size: 652_183_999, extract: Extract::Keep },
            FileSpec { url: "https://huggingface.co/istupakov/parakeet-tdt-0.6b-v3-onnx/resolve/main/decoder_joint-model.int8.onnx", dest_rel: "models/tdt/decoder_joint-model.int8.onnx", size: 18_202_004, extract: Extract::Keep },
            FileSpec { url: "https://huggingface.co/istupakov/parakeet-tdt-0.6b-v3-onnx/resolve/main/nemo128.onnx", dest_rel: "models/tdt/nemo128.onnx", size: 139_764, extract: Extract::Keep },
            FileSpec { url: "https://huggingface.co/istupakov/parakeet-tdt-0.6b-v3-onnx/resolve/main/vocab.txt", dest_rel: "models/tdt/vocab.txt", size: 93_939, extract: Extract::Keep },
            FileSpec { url: "https://huggingface.co/istupakov/parakeet-tdt-0.6b-v3-onnx/resolve/main/config.json", dest_rel: "models/tdt/config.json", size: 97, extract: Extract::Keep },
        ],
        markers: vec![
            Marker { rel: "models/tdt/encoder-model.int8.onnx", expect: 652_183_999 },
            Marker { rel: "models/tdt/decoder_joint-model.int8.onnx", expect: 18_202_004 },
            Marker { rel: "models/tdt/vocab.txt", expect: 93_939 },
        ],
        external_url: None,
    };
    proof {
        assert(c@.files =~= parakeet_model().files);
        assert(c@.markers =~= parakeet_model().markers);
    }
    c
}

pub open spec fn higgs_q6_k_model() -> ComponentModel {
    ComponentModel {
        id: "higgs-q6_k"@,
        name: "Higgs Audio v3 (Q6_K)"@,
        purpose: "Синтез дубляжа и клон голоса (TTS) — вариант полегче Q8_0"@,
        requirement: Requirement::Optional,
        delivery: Delivery::Download,
        size: 5_035_000_000,
        files: seq![
            FileModel { url: "https://huggingface.co/drbaph/Higgs-Audio-v3-Studio/resolve/main/models/higgs-q6_k/q6_k.gguf"@, dest_rel: "models/higgs-q6_k/q6_k.gguf"@, size: 5_023_637_248, extract: Extract::Keep },
            FileModel { url: "https://huggingface.co/drbaph/Higgs-Audio-v3-Studio/resolve/main/models/higgs-q6_k/config.json"@, dest_rel: "models/higgs-q6_k/config.json"@, size: 0, extract: Extract::Keep },
            FileModel { url: "https://huggingface.co/drbaph/Higgs-Audio-v3-Studio/resolve/main/models/higgs-q6_k/chat_template.jinja"@, dest_rel: "models/higgs-q6_k/chat_template.jinja"@, size: 0, extract: Extract::Keep },
            FileModel { url: "https://huggingface.co/drbaph/Higgs-Audio-v3-Studio/resolve/main/models/higgs-q6_k/tokenizer.json"@, dest_rel: "models/higgs-q6_k/tokenizer.json"@, size: 11_433_924, extract: Extract::Keep },
            FileModel { url: "https://huggingface.co/drbaph/Higgs-Audio-v3-Studio/resolve/main/models/higgs-q6_k/tokenizer_config.json"@, dest_rel: "models/higgs-q6_k/tokenizer_config.json"@, size: 0, extract: Extract::Keep },
            FileModel { url: "https://huggingface.co/drbaph/Higgs-Audio-v3-Studio/resolve/main/models/higgs-q6_k/higgs_audio_v2_tokenizer_config.json"@, dest_rel: "models/higgs-q6_k/higgs_audio_v2_tokenizer_config.json"@, size: 0, extract: Extract::Keep },
        ],
        markers: seq![
            MarkerModel { rel: "models/higgs-q6_k/q6_k.gguf"@, expect: 5_023_637_248 },
            MarkerModel { rel: "models/higgs-q6_k/tokenizer.json"@, expect: 0 },
        ],
        external_url: None,
    }
}

fn higgs_q6_k() -> (c: Component)
    ensures
        c@ == higgs_q6_k_model(),
{
    let c = Component {
        id: "higgs-q6_k",
        name: "Higgs Audio v3 (Q6_K)",
        purpose: "Синтез дубляжа и клон голоса (TTS) — вариант полегче Q8_0",
        requirement: Requirement::Optional,
        delivery: Delivery::Download,
        size: 5_035_000_000,
        files: vec![
            FileSpec { url: "https://huggingface.co/drbaph/Higgs-Audio-v3-Studio/resolve/main/models/higgs-q6_k/q6_k.gguf", dest_rel: "models/higgs-q6_k/q6_k.gguf", size: 5_023_637_248, extract: Extract::Keep },
            FileSpec { url: "https://huggingface.co/drbaph/Higgs-Audio-v3-Studio/resolve/main/models/higgs-q6_k/config.json", dest_rel: "models/higgs-q6_k/config.json", size: 0, extract: Extract::Keep },
            FileSpec { url: "https://huggingface.co/drbaph/Higgs-Audio-v3-Studio/resolve/main/models/higgs-q6_k/chat_template.jinja", dest_rel: "models/higgs-q6_k/chat_template.jinja", size: 0, extract: Extract::Keep },
            FileSpec { url: "https://huggingface.co/drbaph/Higgs-Audio-v3-Studio/resolve/main/models/higgs-q6_k/tokenizer.json", dest_rel: "models/higgs-q6_k/tokenizer.json", size: 11_433_924, extract: Extract::Keep },
            FileSpec { url: "https://huggingface.co/drbaph/Higgs-Audio-v3-Studio/resolve/main/models/higgs-q6_k/tokenizer_config.json", dest_rel: "models/higgs-q6_k/tokenizer_config.json", size: 0, extract: Extract::Keep },
            FileSpec { url: "https://huggingface.co/drbaph/Higgs-Audio-v3-Studio/resolve/main/models/higgs-q6_k/higgs_audio_v2_tokenizer_config.json", dest_rel: "models/higgs-q6_k/higgs_audio_v2_tokenizer_config.json", size: 0, extract: Extract::Keep },
        ],
        markers: vec![
            Marker { rel: "models/higgs-q6_k/q6_k.gguf", expect: 5_023_637_248 },
            Marker { rel: "models/higgs-q6_k/tokenizer.json", expect: 0 },
        ],
        external_url: None,
    };
    proof {
        assert(c@.files =~= higgs_q6_k_model().files);
        assert(c@.markers =~= higgs_q6_k_model().markers);
    }
    c
}

pub open spec fn higgs_q4_k_m_model() -> ComponentModel {
    ComponentModel {
        id: "higgs-q4_k_m"@,
        name: "Higgs Audio v3 (Q4_K_M)"@,
        purpose: "Синтез дубляжа и клон голоса (TTS) — самый лёгкий вариант"@,
        requirement: Requirement::Optional,
        delivery: Delivery::Download,
        size: 4_098_000_000,
        files: seq![
            FileModel { url: "https://huggingface.co/drbaph/Higgs-Audio-v3-Studio/resolve/main/models/higgs-q4_k_m/q4_k_m.gguf"@, dest_rel: "models/higgs-q4_k_m/q4_k_m.gguf"@, size: 4_086_922_976, extract: Extract::Keep },
            FileModel { url: "https://huggingface.co/drbaph/Higgs-Audio-v3-Studio/resolve/main/models/higgs-q4_k_m/config.json"@, dest_rel: "models/higgs-q4_k_m/config.json"@, size: 0, extract: Extract::Keep },
            FileModel { url: "https://huggingface.co/drbaph/Higgs-Audio-v3-Studio/resolve/main/models/higgs-q4_k_m/chat_template.jinja"@, dest_rel: "models/higgs-q4_k_m/chat_template.jinja"@, size: 0, extract: Extract::Keep },
            FileModel { url: "https://huggingface.co/drbaph/Higgs-Audio-v3-Studio/resolve/main/models/higgs-q4_k_m/tokenizer.json"@, dest_rel: "models/higgs-q4_k_m/tokenizer.json"@, size: 11_433_924, extract: Extract::Keep },
            FileModel { url: "https://huggingface.co/drbaph/Higgs-Audio-v3-Studio/resolve/main/models/higgs-q4_k_m/tokenizer_config.json"@, dest_rel: "models/higgs-q4_k_m/tokenizer_config.json"@, size: 0, extract: Extract::Keep },
            FileModel { url: "https://huggingface.co/drbaph/Higgs-Audio-v3-Studio/resolve/main/models/higgs-q4_k_m/higgs_audio_v2_tokenizer_config.json"@, dest_rel: "models/higgs-q4_k_m/higgs_audio_v2_tokenizer_config.json"@, size: 0, extract: Extract::Keep },
        ],
        markers: seq![
            MarkerModel { rel: "models/higgs-q4_k_m/q4_k_m.gguf"@, expect: 4_086_922_976 },
            MarkerModel { rel: "models/higgs-q4_k_m/tokenizer.json"@, expect: 0 },
        ],
        external_url: None,
    }
}

fn higgs_q4_k_m() -> (c: Component)
    ensures
        c@ == higgs_q4_k_m_model(),
{
    let c = Component {
        id: "higgs-q4_k_m",
        name: "Higgs Audio v3 (Q4_K_M)",
        purpose: "Синтез дубляжа и клон голоса (TTS) — самый лёгкий вариант",
        requirement: Requirement::Optional,
        delivery: Delivery::Download,
        size: 4_098_000_000,
        files: vec![
            FileSpec { url: "https://huggingface.co/drbaph/Higgs-Audio-v3-Studio/resolve/main/models/higgs-q4_k_m/q4_k_m.gguf", dest_rel: "models/higgs-q4_k_m/q4_k_m.gguf", size: 4_086_922_976, extract: Extract::Keep },
            FileSpec { url: "https://huggingface.co/drbaph/Higgs-Audio-v3-Studio/resolve/main/models/higgs-q4_k_m/config.json", dest_rel: "models/higgs-q4_k_m/config.json", size: 0, extract: Extract::Keep },
            FileSpec { url: "https://huggingface.co/drbaph/Higgs-Audio-v3-Studio/resolve/main/models/higgs-q4_k_m/chat_template.jinja", dest_rel: "models/higgs-q4_k_m/chat_template.jinja", size: 0, extract: Extract::Keep },
            FileSpec { url: "https://huggingface.co/drbaph/Higgs-Audio-v3-Studio/resolve/main/models/higgs-q4_k_m/tokenizer.json", dest_rel: "models/higgs-q4_k_m/tokenizer.json", size: 11_433_924, extract: Extract::Keep },
            FileSpec { url: "https://huggingface.co/drbaph/Higgs-Audio-v3-Studio/resolve/main/models/higgs-q4_k_m/tokenizer_config.json", dest_rel: "models/higgs-q4_k_m/tokenizer_config.json", size: 0, extract: Extract::Keep },
            FileSpec { url: "https://huggingface.co/drbaph/Higgs-Audio-v3-Studio/resolve/main/models/higgs-q4_k_m/higgs_audio_v2_tokenizer_config.json", dest_rel: "models/higgs-q4_k_m/higgs_audio_v2_tokenizer_config.json", size: 0, extract: Extract::Keep },
        ],
        markers: vec![
            Marker { rel: "models/higgs-q4_k_m/q4_k_m.gguf", expect: 4_086_922_976 },
            Marker { rel: "models/higgs-q4_k_m/tokenizer.json", expect: 0 },
        ],
        external_url: None,
    };
    proof {
        assert(c@.files =~= higgs_q4_k_m_model().files);
        assert(c@.markers =~= higgs_q4_k_m_model().markers);
    }
    c
}

pub open spec fn parakeet_fp32_model() -> ComponentModel {
    ComponentModel {
        id: "parakeet-fp32"@,
        name: "Parakeet-TDT 0.6B v3 (fp32)"@,
        purpose: "Распознавание речи (ASR) — полная точность fp32"@,
        requirement: Requirement::Optional,
        delivery: Delivery::Download,
        size: 2_560_000_000,
        files: seq![
            FileModel { url: "https://huggingface.co/istupakov/parakeet-tdt-0.6b-v3-onnx/resolve/main/encoder-model.onnx"@, dest_rel: "models/tdt-fp32/encoder-model.onnx"@, size: 41_770_866, extract: Extract::Keep },
            FileModel { url: "https://huggingface.co/istupakov/parakeet-tdt-0.6b-v3-onnx/resolve/main/encoder-model.onnx.data"@, dest_rel: "models/tdt-fp32/encoder-model.onnx.data"@, size: 2_435_420_160, extract: Extract::Keep },
            FileModel { url: "https://huggingface.co/istupakov/parakeet-tdt-0.6b-v3-onnx/resolve/main/decoder_joint-model.onnx"@, dest_rel: "models/tdt-fp32/decoder_joint-model.onnx"@, size: 72_520_893, extract: Extract::Keep },
            FileModel { url: "https://huggingface.co/istupakov/parakeet-tdt-0.6b-v3-onnx/resolve/main/nemo128.onnx"@, dest_rel: "models/tdt-fp32/nemo128.onnx"@, size: 139_764, extract: Extract::Keep },
            FileModel { url: "https://huggingface.co/istupakov/parakeet-tdt-0.6b-v3-onnx/resolve/main/vocab.txt"@, dest_rel: "models/tdt-fp32/vocab.txt"@, size: 93_939, extract: Extract::Keep },
            FileModel { url: "https://huggingface.co/istupakov/parakeet-tdt-0.6b-v3-onnx/resolve/main/config.json"@, dest_rel: "models/tdt-fp32/config.json"@, size: 0, extract: Extract::Keep },
        ],
        markers: seq![
            MarkerModel { rel: "models/tdt-fp32/encoder-model.onnx"@, expect: 41_770_866 },
            MarkerModel { rel: "models/tdt-fp32/encoder-model.onnx.data"@, expect: 2_435_420_160 },
            MarkerModel { rel: "models/tdt-fp32/vocab.txt"@, expect: 93_939 },
        ],
        external_url: None,
    }
}

fn parakeet_fp32() -> (c: Component)
    ensures
        c@ == parakeet_fp32_model(),
{
    let c = Component {
        id: "parakeet-fp32",
        name: "Parakeet-TDT 0.6B v3 (fp32)",
        purpose: "Распознавание речи (ASR) — полная точность fp32",
        requirement: Requirement::Optional,
        delivery: Delivery::Download,
        size: 2_560_000_000,
        files: vec![
            FileSpec { url: "https://huggingface.co/istupakov/parakeet-tdt-0.6b-v3-onnx/resolve/main/encoder-model.onnx", dest_rel: "models/tdt-fp32/encoder-model.onnx", size: 41_770_866, extract: Extract::Keep },
            FileSpec { url: "https://huggingface.co/istupakov/parakeet-tdt-0.6b-v3-onnx/resolve/main/encoder-model.onnx.data", dest_rel: "models/tdt-fp32/encoder-model.onnx.data", size: 2_435_420_160, extract: Extract::Keep },
            FileSpec { url: "https://huggingface.co/istupakov/parakeet-tdt-0.6b-v3-onnx/resolve/main/decoder_joint-model.onnx", dest_rel: "models/tdt-fp32/decoder_joint-model.onnx", size: 72_520_893, extract: Extract::Keep },
            FileSpec { url: "https://huggingface.co/istupakov/parakeet-tdt-0.6b-v3-onnx/resolve/main/nemo128.onnx", dest_rel: "models/tdt-fp32/nemo128.onnx", size: 139_764, extract: Extract::Keep },
            FileSpec { url: "https://huggingface.co/istupakov/parakeet-tdt-0.6b-v3-onnx/resolve/main/vocab.txt", dest_rel: "models/tdt-fp32/vocab.txt", size: 93_939, extract: Extract::Keep },
            FileSpec { url: "https://huggingface.co/istupakov/parakeet-tdt-0.6b-v3-onnx/resolve/main/config.json", dest_rel: "models/tdt-fp32/config.json", size: 0, extract: Extract::Keep },
        ],
        markers: vec![
            Marker { rel: "models/tdt-fp32/encoder-model.onnx", expect: 41_770_866 },
            Marker { rel: "models/tdt-fp32/encoder-model.onnx.data", expect: 2_435_420_160 },
            Marker { rel: "models/tdt-fp32/vocab.txt", expect: 93_939 },
        ],
        external_url: None,
    };
    proof {
        assert(c@.files =~= parakeet_fp32_model().files);
        assert(c@.markers =~= parakeet_fp32_model().markers);
    }
    c
}

pub open spec fn whisper_engine_model() -> ComponentModel {
    ComponentModel {
        id: "whisper-engine"@,
        name: "Whisper-Faster (движок ASR)"@,
        purpose: "Альтернативный движок распознавания речи (faster-whisper) вместо Parakeet"@,
        requirement: Requirement::Optional,
        delivery: Delivery::Download,
        size: 87_654_143,
        files: seq![
            FileModel { url: "https://github.com/Purfview/whisper-standalone-win/releases/download/faster-whisper/Whisper-Faster_r192.3_windows.zip"@, dest_rel: "tools/whisper/_whisper.zip"@, size: 0, extract: Extract::ZipFlat },
        ],
        markers: seq![
            MarkerModel { rel: "tools/whisper/whisper-faster.exe"@, expect: 0 },
        ],
        external_url: None,
    }
}

fn whisper_engine() -> (c: Component)
    ensures
        c@ == whisper_engine_model(),
{
    let c = Component {
        id: "whisper-engine",
        name: "Whisper-Faster (движок ASR)",
        purpose: "Альтернативный движок распознавания речи (faster-whisper) вместо Parakeet",
        requirement: Requirement::Optional,
        delivery: Delivery::Download,
        size: 87_654_143,
        files: vec![
            FileSpec { url: "https://github.com/Purfview/whisper-standalone-win/releases/download/faster-whisper/Whisper-Faster_r192.3_windows.zip", dest_rel: "tools/whisper/_whisper.zip", size: 0, extract: Extract::ZipFlat },
        ],
        markers: vec![
            Marker { rel: "tools/whisper/whisper-faster.exe", expect: 0 },
        ],
        external_url: None,
    };
    proof {
        assert(c@.files =~= whisper_engine_model().files);
        assert(c@.markers =~= whisper_engine_model().markers);
    }
    c
}

pub open spec fn whisper_tiny_model() -> ComponentModel {
    ComponentModel {
        id: "whisper-tiny"@,
        name: "Whisper tiny (модель ASR)"@,
        purpose: "ASR Whisper — самая лёгкая и быстрая модель"@,
        requirement: Requirement::Optional,
        delivery: Delivery::Download,
        size: 78_203_619,
        files: seq![
            FileModel { url: "https://huggingface.co/Systran/faster-whisper-tiny/resolve/main/model.bin"@, dest_rel: "models/whisper/faster-whisper-tiny/model.bin"@, size: 75_538_270, extract: Extract::Keep },
            FileModel { url: "https://huggingface.co/Systran/faster-whisper-tiny/resolve/main/config.json"@, dest_rel: "models/whisper/faster-whisper-tiny/config.json"@, size: 2_249, extract: Extract::Keep },
            FileModel { url: "https://huggingface.co/Systran/faster-whisper-tiny/resolve/main/tokenizer.json"@, dest_rel: "models/whisper/faster-whisper-tiny/tokenizer.json"@, size: 2_203_239, extract: Extract::Keep },
            FileModel { url: "https://huggingface.co/Systran/faster-whisper-tiny/resolve/main/vocabulary.txt"@, dest_rel: "models/whisper/faster-whisper-tiny/vocabulary.txt"@, size: 459_861, extract: Extract::Keep },
        ],
        markers: seq![
            MarkerModel { rel: "models/whisper/faster-whisper-tiny/model.bin"@, expect: 75_538_270 },
            MarkerModel { rel: "models/whisper/faster-whisper-tiny/tokenizer.json"@, expect: 2_203_239 },
        ],
        external_url: None,
    }
}

fn whisper_tiny() -> (c: Component)
    ensures
        c@ == whisper_tiny_model(),
{
    let c = Component {
        id: "whisper-tiny",
        name: "Whisper tiny (модель ASR)",
        purpose: "ASR Whisper — самая лёгкая и быстрая модель",
        requirement: Requirement::Optional,
        delivery: Delivery::Download,
        size: 78_203_619,
        files: vec![
            FileSpec { url: "https://huggingface.co/Systran/faster-whisper-tiny/resolve/main/model.bin", dest_rel: "models/whisper/faster-whisper-tiny/model.bin", size: 75_538_270, extract: Extract::Keep },
            FileSpec { url: "https://huggingface.co/Systran/faster-whisper-tiny/resolve/main/config.json", dest_rel: "models/whisper/faster-whisper-tiny/config.json", size: 2_249, extract: Extract::Keep },
            FileSpec { url: "https://huggingface.co/Systran/faster-whisper-tiny/resolve/main/tokenizer.json", dest_rel: "models/whisper/faster-whisper-tiny/tokenizer.json", size: 2_203_239, extract: Extract::Keep },
            FileSpec { url: "https://huggingface.co/Systran/faster-whisper-tiny/resolve/main/vocabulary.txt", dest_rel: "models/whisper/faster-whisper-tiny/vocabulary.txt", size: 459_861, extract: Extract::Keep },
        ],
        markers: vec![
            Marker { rel: "models/whisper/faster-whisper-tiny/model.bin", expect: 75_538_270 },
            Marker { rel: "models/whisper/faster-whisper-tiny/tokenizer.json", expect: 2_203_239 },
        ],
        external_url: None,
    };
    proof {
        assert(c@.files =~= whisper_tiny_model().files);
        assert(c@.markers =~= whisper_tiny_model().markers);
    }
    c
}

pub open spec fn whisper_base_model() -> ComponentModel {
    ComponentModel {
        id: "whisper-base"@,
        name: "Whisper base (модель ASR)"@,
        purpose: "ASR Whisper — лёгкая модель, точнее tiny"@,
        requirement: Requirement::Optional,
        delivery: Delivery::Download,
        size: 147_882_941,
        files: seq![
            FileModel { url: "https://huggingface.co/Systran/faster-whisper-base/resolve/main/model.bin"@, dest_rel: "models/whisper/faster-whisper-base/model.bin"@, size: 145_217_532, extract: Extract::Keep },
            FileModel { url: "https://huggingface.co/Systran/faster-whisper-base/resolve/main/config.json"@, dest_rel: "models/whisper/faster-whisper-base/config.json"@, size: 2_309, extract: Extract::Keep },
            FileModel { url: "https://huggingface.co/Systran/faster-whisper-base/resolve/main/tokenizer.json"@, dest_rel: "models/whisper/faster-whisper-base/tokenizer.json"@, size: 2_203_239, extract: Extract::Keep },
            FileModel { url: "https://huggingface.co/Systran/faster-whisper-base/resolve/main/vocabulary.txt"@, dest_rel: "models/whisper/faster-whisper-base/vocabulary.txt"@, size: 459_861, extract: Extract::Keep },
        ],
        markers: seq![
            MarkerModel { rel: "models/whisper/faster-whisper-base/model.bin"@, expect: 145_217_532 },
            MarkerModel { rel: "models/whisper/faster-whisper-base/tokenizer.json"@, expect: 2_203_239 },
        ],
        external_url: None,
    }
}

fn whisper_base() -> (c: Component)
    ensures
        c@ == whisper_base_model(),
{
    let c = Component {
        id: "whisper-base",
        name: "Whisper base (модель ASR)",
        purpose: "ASR Whisper — лёгкая модель, точнее tiny",
        requirement: Requirement::Optional,
        delivery: Delivery::Download,
        size: 147_882_941,
        files: vec![
            FileSpec { url: "https://huggingface.co/Systran/faster-whisper-base/resolve/main/model.bin", dest_rel: "models/whisper/faster-whisper-base/model.bin", size: 145_217_532, extract: Extract::Keep },
            FileSpec { url: "https://huggingface.co/Systran/faster-whisper-base/resolve/main/config.json", dest_rel: "models/whisper/faster-whisper-base/config.json", size: 2_309, extract: Extract::Keep },
            FileSpec { url: "https://huggingface.co/Systran/faster-whisper-base/resolve/main/tokenizer.json", dest_rel: "models/whisper/faster-whisper-base/tokenizer.json", size: 2_203_239, extract: Extract::Keep },
            FileSpec { url: "https://huggingface.co/Systran/faster-whisper-base/resolve/main/vocabulary.txt", dest_rel: "models/whisper/faster-whisper-base/vocabulary.txt", size: 459_861, extract: Extract::Keep },
        ],
        markers: vec![
            Marker { rel: "models/whisper/faster-whisper-base/model.bin", expect: 145_217_532 },
            Marker { rel: "models/whisper/faster-whisper-base/tokenizer.json", expect: 2_203_239 },
        ],
        external_url: None,
    };
    proof {
        assert(c@.files =~= whisper_base_model().files);
        assert(c@.markers =~= whisper_base_model().markers);
    }
    c
}

pub open spec fn whisper_small_model() -> ComponentModel {
    ComponentModel {
        id: "whisper-small"@,
        name: "Whisper small (модель ASR)"@,
        purpose: "ASR Whisper — сбалансированная модель"@,
        requirement: Requirement::Optional,
        delivery: Delivery::Download,
        size: 486_212_372,
        files: seq![
            FileModel { url: "https://huggingface.co/Systran/faster-whisper-small/resolve/main/model.bin"@, dest_rel: "models/whisper/faster-whisper-small/model.bin"@, size: 483_546_902, extract: Extract::Keep },
            FileModel { url: "https://huggingface.co/Systran/faster-whisper-small/resolve/main/config.json"@, dest_rel: "models/whisper/faster-whisper-small/config.json"@, size: 2_370, extract: Extract::Keep },
            FileModel { url: "https://huggingface.co/Systran/faster-whisper-small/resolve/main/tokenizer.json"@, dest_rel: "models/whisper/faster-whisper-small/tokenizer.json"@, size: 2_203_239, extract: Extract::Keep },
            FileModel { url: "https://huggingface.co/Systran/faster-whisper-small/resolve/main/vocabulary.txt"@, dest_rel: "models/whisper/faster-whisper-small/vocabulary.txt"@, size: 459_861, extract: Extract::Keep },
        ],
        markers: seq![
            MarkerModel { rel: "models/whisper/faster-whisper-small/model.bin"@, expect: 483_546_902 },
            MarkerModel { rel: "models/whisper/faster-whisper-small/tokenizer.json"@, expect: 2_203_239 },
        ],
        external_url: None,
    }
}

fn whisper_small() -> (c: Component)
    ensures
        c@ == whisper_small_model(),
{
    let c = Component {
        id: "whisper-small",
        name: "Whisper small (модель ASR)",
        purpose: "ASR Whisper — сбалансированная модель",
        requirement: Requirement::Optional,
        delivery: Delivery::Download,
        size: 486_212_372,
        files: vec![
            FileSpec { url: "https://huggingface.co/Systran/faster-whisper-small/resolve/main/model.bin", dest_rel: "models/whisper/faster-whisper-small/model.bin", size: 483_546_902, extract: Extract::Keep },
            FileSpec { url: "https://huggingface.co/Systran/faster-whisper-small/resolve/main/config.json", dest_rel: "models/whisper/faster-whisper-small/config.json", size: 2_370, extract: Extract::Keep },
            FileSpec { url: "https://huggingface.co/Systran/faster-whisper-small/resolve/main/tokenizer.json", dest_rel: "models/whisper/faster-whisper-small/tokenizer.json", size: 2_203_239, extract: Extract::Keep },
            FileSpec { url: "https://huggingface.co/Systran/faster-whisper-small/resolve/main/vocabulary.txt", dest_rel: "models/whisper/faster-whisper-small/vocabulary.txt", size: 459_861, extract: Extract::Keep },
        ],
        markers: vec![
            Marker { rel: "models/whisper/faster-whisper-small/model.bin", expect: 483_546_902 },
            Marker { rel: "models/whisper/faster-whisper-small/tokenizer.json", expect: 2_203_239 },
        ],
        external_url: None,
    };
    proof {
        assert(c@.files =~= whisper_small_model().files);
        assert(c@.markers =~= whisper_small_model().markers);
    }
    c
}

pub open spec fn whisper_medium_model() -> ComponentModel {
    ComponentModel {
        id: "whisper-medium"@,
        name: "Whisper medium (модель ASR)"@,
        purpose: "ASR Whisper — высокая точность"@,
        requirement: Requirement::Optional,
        delivery: Delivery::Download,
        size: 1_530_571_735,
        files: seq![
            FileModel { url: "https://huggingface.co/Systran/faster-whisper-medium/resolve/main/model.bin"@, dest_rel: "models/whisper/faster-whisper-medium/model.bin"@, size: 1_527_906_378, extract: Extract::Keep },
            FileModel { url: "https://huggingface.co/Systran/faster-whisper-medium/resolve/main/config.json"@, dest_rel: "models/whisper/faster-whisper-medium/config.json"@, size: 2_257, extract: Extract::Keep },
            FileModel { url: "https://huggingface.co/Systran/faster-whisper-medium/resolve/main/tokenizer.json"@, dest_rel: "models/whisper/faster-whisper-medium/tokenizer.json"@, size: 2_203_239, extract: Extract::Keep },
            FileModel { url: "https://huggingface.co/Systran/faster-whisper-medium/resolve/main/vocabulary.txt"@, dest_rel: "models/whisper/faster-whisper-medium/vocabulary.txt"@, size: 459_861, extract: Extract::Keep },
        ],
        markers: seq![
            MarkerModel { rel: "models/whisper/faster-whisper-medium/model.bin"@, expect: 1_527_906_378 },
            MarkerModel { rel: "models/whisper/faster-whisper-medium/tokenizer.json"@, expect: 2_203_239 },
        ],
        external_url: None,
    }
}

fn whisper_medium() -> (c: Component)
    ensures
        c@ == whisper_medium_model(),
{
    let c = Component {
        id: "whisper-medium",
        name: "Whisper medium (модель ASR)",
        purpose: "ASR Whisper — высокая точность",
        requirement: Requirement::Optional,
        delivery: Delivery::Download,
        size: 1_530_571_735,
        files: vec![
            FileSpec { url: "https://huggingface.co/Systran/faster-whisper-medium/resolve/main/model.bin", dest_rel: "models/whisper/faster-whisper-medium/model.bin", size: 1_527_906_378, extract: Extract::Keep },
            FileSpec { url: "https://huggingface.co/Systran/faster-whisper-medium/resolve/main/config.json", dest_rel: "models/whisper/faster-whisper-medium/config.json", size: 2_257, extract: Extract::Keep },
            FileSpec { url: "https://huggingface.co/Systran/faster-whisper-medium/resolve/main/tokenizer.json", dest_rel: "models/whisper/faster-whisper-medium/tokenizer.json", size: 2_203_239, extract: Extract::Keep },
            FileSpec { url: "https://huggingface.co/Systran/faster-whisper-medium/resolve/main/vocabulary.txt", dest_rel: "models/whisper/faster-whisper-medium/vocabulary.txt", size: 459_861, extract: Extract::Keep },
        ],
        markers: vec![
            Marker { rel: "models/whisper/faster-whisper-medium/model.bin", expect: 1_527_906_378 },
            Marker { rel: "models/whisper/faster-whisper-medium/tokenizer.json", expect: 2_203_239 },
        ],
        external_url: None,
    };
    proof {
        assert(c@.files =~= whisper_medium_model().files);
        assert(c@.markers =~= whisper_medium_model().markers);
    }
    c
}

pub open spec fn whisper_large_v3_model() -> ComponentModel {
    ComponentModel {
        id: "whisper-large-v3"@,
        name: "Whisper large-v3 (модель ASR)"@,
        purpose: "ASR Whisper — максимальная точность (large-v3)"@,
        requirement: Requirement::Optional,
        delivery: Delivery::Download,
        size: 3_090_835_702,
        files: seq![
            FileModel { url: "https://huggingface.co/Systran/faster-whisper-large-v3/resolve/main/model.bin"@, dest_rel: "models/whisper/faster-whisper-large-v3/model.bin"@, size: 3_087_284_237, extract: Extract::Keep },
            FileModel { url: "https://huggingface.co/Systran/faster-whisper-large-v3/resolve/main/config.json"@, dest_rel: "models/whisper/faster-whisper-large-v3/config.json"@, size: 2_394, extract: Extract::Keep },
            FileModel { url: "https://huggingface.co/Systran/faster-whisper-large-v3/resolve/main/preprocessor_config.json"@, dest_rel: "models/whisper/faster-whisper-large-v3/preprocessor_config.json"@, size: 340, extract: Extract::Keep },
            FileModel { url: "https://huggingface.co/Systran/faster-whisper-large-v3/resolve/main/tokenizer.json"@, dest_rel: "models/whisper/faster-whisper-large-v3/tokenizer.json"@, size: 2_480_617, extract: Extract::Keep },
            FileModel { url: "https://huggingface.co/Systran/faster-whisper-large-v3/resolve/main/vocabulary.json"@, dest_rel: "models/whisper/faster-whisper-large-v3/vocabulary.json"@, size: 1_068_114, extract: Extract::Keep },
        ],
        markers: seq![
            MarkerModel { rel: "models/whisper/faster-whisper-large-v3/model.bin"@, expect: 3_087_284_237 },
            MarkerModel { rel: "models/whisper/faster-whisper-large-v3/tokenizer.json"@, expect: 2_480_617 },
        ],
        external_url: None,
    }
}

fn whisper_large_v3() -> (c: Component)
    ensures
        c@ == whisper_large_v3_model(),
{
    let c = Component {
        id: "whisper-large-v3",
        name: "Whisper large-v3 (модель ASR)",
        purpose: "ASR Whisper — максимальная точность (large-v3)",
        requirement: Requirement::Optional,
        delivery: Delivery::Download,
        size: 3_090_835_702,
        files: vec![
            FileSpec { url: "https://huggingface.co/Systran/faster-whisper-large-v3/resolve/main/model.bin", dest_rel: "models/whisper/faster-whisper-large-v3/model.bin", size: 3_087_284_237, extract: Extract::Keep },
            FileSpec { url: "https://huggingface.co/Systran/faster-whisper-large-v3/resolve/main/config.json", dest_rel: "models/whisper/faster-whisper-large-v3/config.json", size: 2_394, extract: Extract::Keep },
            FileSpec { url: "https://huggingface.co/Systran/faster-whisper-large-v3/resolve/main/preprocessor_config.json", dest_rel: "models/whisper/faster-whisper-large-v3/preprocessor_config.json", size: 340, extract: Extract::Keep },
            FileSpec { url: "https://huggingface.co/Systran/faster-whisper-large-v3/resolve/main/tokenizer.json", dest_rel: "models/whisper/faster-whisper-large-v3/tokenizer.json", size: 2_480_617, extract: Extract::Keep },
            FileSpec { url: "https://huggingface.co/Systran/faster-whisper-large-v3/resolve/main/vocabulary.json", dest_rel: "models/whisper/faster-whisper-large-v3/vocabulary.json", size: 1_068_114, extract: Extract::Keep },
        ],
        markers: vec![
            Marker { rel: "models/whisper/faster-whisper-large-v3/model.bin", expect: 3_087_284_237 },
            Marker { rel: "models/whisper/faster-whisper-large-v3/tokenizer.json", expect: 2_480_617 },
        ],
        external_url: None,
    };
    proof {
        assert(c@.files =~= whisper_large_v3_model().files);
        assert(c@.markers =~= whisper_large_v3_model().markers);
    }
    c
}

pub open spec fn whisper_large_v3_turbo_model() -> ComponentModel {
    ComponentModel {
        id: "whisper-large-v3-turbo"@,
        name: "Whisper large-v3-turbo (модель ASR)"@,
        purpose: "ASR Whisper — почти large-v3, но заметно быстрее (turbo)"@,
        requirement: Requirement::Optional,
        delivery: Delivery::Download,
        size: 1_621_665_983,
        files: seq![
            FileModel { url: "https://huggingface.co/deepdml/faster-whisper-large-v3-turbo-ct2/resolve/main/model.bin"@, dest_rel: "models/whisper/faster-whisper-large-v3-turbo/model.bin"@, size: 1_617_884_929, extract: Extract::Keep },
            FileModel { url: "https://huggingface.co/deepdml/faster-whisper-large-v3-turbo-ct2/resolve/main/config.json"@, dest_rel: "models/whisper/faster-whisper-large-v3-turbo/config.json"@, size: 2_263, extract: Extract::Keep },
            FileModel { url: "https://huggingface.co/deepdml/faster-whisper-large-v3-turbo-ct2/resolve/main/preprocessor_config.json"@, dest_rel: "models/whisper/faster-whisper-large-v3-turbo/preprocessor_config.json"@, size: 340, extract: Extract::Keep },
            FileModel { url: "https://huggingface.co/deepdml/faster-whisper-large-v3-turbo-ct2/resolve/main/tokenizer.json"@, dest_rel: "models/whisper/faster-whisper-large-v3-turbo/tokenizer.json"@, size: 2_710_337, extract: Extract::Keep },
            FileModel { url: "https://huggingface.co/deepdml/faster-whisper-large-v3-turbo-ct2/resolve/main/vocabulary.json"@, dest_rel: "models/whisper/faster-whisper-large-v3-turbo/vocabulary.json"@, size: 1_068_114, extract: Extract::Keep },
        ],
        markers: seq![
            MarkerModel { rel: "models/whisper/faster-whisper-large-v3-turbo/model.bin"@, expect: 1_617_884_929 },
            MarkerModel { rel: "models/whisper/faster-whisper-large-v3-turbo/tokenizer.json"@, expect: 2_710_337 },
        ],
        external_url: None,
    }
}

fn whisper_large_v3_turbo() -> (c: Component)
    ensures
        c@ == whisper_large_v3_turbo_model(),
{
    let c = Component {
        id: "whisper-large-v3-turbo",
        name: "Whisper large-v3-turbo (модель ASR)",
        purpose: "ASR Whisper — почти large-v3, но заметно быстрее (turbo)",
        requirement: Requirement::Optional,
        delivery: Delivery::Download,
        size: 1_621_665_983,
        files: vec![
            FileSpec { url: "https://huggingface.co/deepdml/faster-whisper-large-v3-turbo-ct2/resolve/main/model.bin", dest_rel: "models/whisper/faster-whisper-large-v3-turbo/model.bin", size: 1_617_884_929, extract: Extract::Keep },
            FileSpec { url: "https://huggingface.co/deepdml/faster-whisper-large-v3-turbo-ct2/resolve/main/config.json", dest_rel: "models/whisper/faster-whisper-large-v3-turbo/config.json", size: 2_263, extract: Extract::Keep },
            FileSpec { url: "https://huggingface.co/deepdml/faster-whisper-large-v3-turbo-ct2/resolve/main/preprocessor_config.json", dest_rel: "models/whisper/faster-whisper-large-v3-turbo/preprocessor_config.json", size: 340, extract: Extract::Keep },
            FileSpec { url: "https://huggingface.co/deepdml/faster-whisper-large-v3-turbo-ct2/resolve/main/tokenizer.json", dest_rel: "models/whisper/faster-whisper-large-v3-turbo/tokenizer.json", size: 2_710_337, extract: Extract::Keep },
            FileSpec { url: "https://huggingface.co/deepdml/faster-whisper-large-v3-turbo-ct2/resolve/main/vocabulary.json", dest_rel: "models/whisper/faster-whisper-large-v3-turbo/vocabulary.json", size: 1_068_114, extract: Extract::Keep },
        ],
        markers: vec![
            Marker { rel: "models/whisper/faster-whisper-large-v3-turbo/model.bin", expect: 1_617_884_929 },
            Marker { rel: "models/whisper/faster-whisper-large-v3-turbo/tokenizer.json", expect: 2_710_337 },
        ],
        external_url: None,
    };
    proof {
        assert(c@.files =~= whisper_large_v3_turbo_model().files);
        assert(c@.markers =~= whisper_large_v3_turbo_model().markers);
    }
    c
}

pub open spec fn sortformer_model() -> ComponentModel {
    ComponentModel {
        id: "sortformer"@,
        name: "Sortformer v2 (диаризация)"@,
        purpose: "Разделение спикеров (кто когда говорит)"@,
        requirement: Requirement::Recommended,
        delivery: Delivery::Download,
        size: 492_243_002,
        files: seq![
            FileModel { url: HF_SORTFORMER@, dest_rel: "models/sortformer/diar_streaming_sortformer_4spk-v2.onnx"@, size: 492_243_002, extract: Extract::Keep },
        ],
        markers: seq![
            MarkerModel { rel: "models/sortformer/diar_streaming_sortformer_4spk-v2.onnx"@, expect: 492_243_002 },
        ],
        external_url: None,
    }
}

fn sortformer() -> (c: Component)
    ensures
        c@ == sortformer_model(),
{
    let c = Component {
        id: "sortformer",
        name: "Sortformer v2 (диаризация)",
        purpose: "Разделение спикеров (кто когда говорит)",
        requirement: Requirement::Recommended,
        delivery: Delivery::Download,
        size: 492_243_002,
        files: vec![
            FileSpec { url: HF_SORTFORMER, dest_rel: "models/sortformer/diar_streaming_sortformer_4spk-v2.onnx", size: 492_243_002, extract: Extract::Keep },
        ],
        markers: vec![
            Marker { rel: "models/sortformer/diar_streaming_sortformer_4spk-v2.onnx", expect: 492_243_002 },
        ],
        external_url: None,
    };
    proof {
        assert(c@.files =~= sortformer_model().files);
        assert(c@.markers =~= sortformer_model().markers);
    }
    c
}

pub open spec fn roformer_model() -> ComponentModel {
    ComponentModel {
        id: "roformer"@,
        name: "Mel-Band Roformer voc_fv6 (Q8_0)"@,
        purpose: "Модель вокал/инструментал сепарации"@,
        requirement: Requirement::Recommended,
        delivery: Delivery::Download,
        size: 251_707_744,
        files: seq![
            FileModel { url: HF_ROFORMER@, dest_rel: "models/bsroformer/voc_fv6-Q8_0.gguf"@, size: 251_707_744, extract: Extract::Keep },
        ],
        markers: seq![
            MarkerModel { rel: "models/bsroformer/voc_fv6-Q8_0.gguf"@, expect: 251_707_744 },
        ],
        external_url: None,
    }
}

fn roformer() -> (c: Component)
    ensures
        c@ == roformer_model(),
{
    let c = Component {
        id: "roformer",
        name: "Mel-Band Roformer voc_fv6 (Q8_0)",
        purpose: "Модель вокал/инструментал сепарации",
        requirement: Requirement::Recommended,
        delivery: Delivery::Download,
        size: 251_707_744,
        files: vec![
            FileSpec { url: HF_ROFORMER, dest_rel: "models/bsroformer/voc_fv6-Q8_0.gguf", size: 251_707_744, extract: Extract::Keep },
        ],
        markers: vec![
            Marker { rel: "models/bsroformer/voc_fv6-Q8_0.gguf", expect: 251_707_744 },
        ],
        external_url: None,
    };
    proof {
        assert(c@.files =~= roformer_model().files);
        assert(c@.markers =~= roformer_model().markers);
    }
    c
}

pub open spec fn roformer_q5_model() -> ComponentModel {
    ComponentModel {
        id: "roformer-q5"@,
        name: "Mel-Band Roformer voc_fv6 (Q5_0)"@,
        purpose: "Сепарация — вариант полегче Q8_0"@,
        requirement: Requirement::Optional,
        delivery: Delivery::Download,
        size: 167_303_008,
        files: seq![
            FileModel { url: "https://huggingface.co/chenmozhijin/BSRoformer-GGUF/resolve/main/GaboxR67/MelBandRoformers/melbandroformers/vocals/voc_fv6-Q5_0.gguf"@, dest_rel: "models/bsroformer/voc_fv6-Q5_0.gguf"@, size: 167_303_008, extract: Extract::Keep },
        ],
        markers: seq![
            MarkerModel { rel: "models/bsroformer/voc_fv6-Q5_0.gguf"@, expect: 167_303_008 },
        ],
        external_url: None,
    }
}

fn roformer_q5() -> (c: Component)
    ensures
        c@ == roformer_q5_model(),
{
    let c = Component {
        id: "roformer-q5",
        name: "Mel-Band Roformer voc_fv6 (Q5_0)",
        purpose: "Сепарация — вариант полегче Q8_0",
        requirement: Requirement::Optional,
        delivery: Delivery::Download,
        size: 167_303_008,
        files: vec![
            FileSpec { url: "https://huggingface.co/chenmozhijin/BSRoformer-GGUF/resolve/main/GaboxR67/MelBandRoformers/melbandroformers/vocals/voc_fv6-Q5_0.gguf", dest_rel: "models/bsroformer/voc_fv6-Q5_0.gguf", size: 167_303_008, extract: Extract::Keep },
        ],
        markers: vec![
            Marker { rel: "models/bsroformer/voc_fv6-Q5_0.gguf", expect: 167_303_008 },
        ],
        external_url: None,
    };
    proof {
        assert(c@.files =~= roformer_q5_model().files);
        assert(c@.markers =~= roformer_q5_model().markers);
    }
    c
}

pub open spec fn roformer_q4_model() -> ComponentModel {
    ComponentModel {
        id: "roformer-q4"@,
        name: "Mel-Band Roformer voc_fv6 (Q4_0)"@,
        purpose: "Сепарация — самый лёгкий вариант"@,
        requirement: Requirement::Optional,
        delivery: Delivery::Download,
        size: 139_168_096,
        files: seq![
            FileModel { url: "https://huggingface.co/chenmozhijin/BSRoformer-GGUF/resolve/main/GaboxR67/MelBandRoformers/melbandroformers/vocals/voc_fv6-Q4_0.gguf"@, dest_rel: "models/bsroformer/voc_fv6-Q4_0.gguf"@, size: 139_168_096, extract: Extract::Keep },
        ],
        markers: seq![
            MarkerModel { rel: "models/bsroformer/voc_fv6-Q4_0.gguf"@, expect: 139_168_096 },
        ],
        external_url: None,
    }
}

fn roformer_q4() -> (c: Component)
    ensures
        c@ == roformer_q4_model(),
{
    let c = Component {
        id: "roformer-q4",
        name: "Mel-Band Roformer voc_fv6 (Q4_0)",
        purpose: "Сепарация — самый лёгкий вариант",
        requirement: Requirement::Optional,
        delivery: Delivery::Download,
        size: 139_168_096,
        files: vec![
            FileSpec { url: "https://huggingface.co/chenmozhijin/BSRoformer-GGUF/resolve/main/GaboxR67/MelBandRoformers/melbandroformers/vocals/voc_fv6-Q4_0.gguf", dest_rel: "models/bsroformer/voc_fv6-Q4_0.gguf", size: 139_168_096, extract: Extract::Keep },
        ],
        markers: vec![
            Marker { rel: "models/bsroformer/voc_fv6-Q4_0.gguf", expect: 139_168_096 },
        ],
        external_url: None,
    };
    proof {
        assert(c@.files =~= roformer_q4_model().files);
        assert(c@.markers =~= roformer_q4_model().markers);
    }
    c
}

pub open spec fn wespeaker_model() -> ComponentModel {
    ComponentModel {
        id: "wespeaker"@,
        name: "WeSpeaker ResNet34-LM (голос кастинга)"@,
        purpose: "Голосовой эмбеддинг персонажа (кастинг #115): матч спикеров между эпизодами"@,
        requirement: Requirement::Optional,
        delivery: Delivery::Download,
        size: 26_530_309,
        files: seq![
            FileModel { url: "https://huggingface.co/Wespeaker/wespeaker-voxceleb-resnet34-LM/resolve/main/voxceleb_resnet34_LM.onnx"@, dest_rel: "models/faces/wespeaker/voxceleb_resnet34_LM.onnx"@, size: 26_530_309, extract: Extract::Keep },
        ],
        markers: seq![
            MarkerModel { rel: "models/faces/wespeaker/voxceleb_resnet34_LM.onnx"@, expect: 26_530_309 },
        ],
        external_url: None,
    }
}

fn wespeaker() -> (c: Component)
    ensures
        c@ == wespeaker_model(),
{
    let c = Component {
        id: "wespeaker",
        name: "WeSpeaker ResNet34-LM (голос кастинга)",
        purpose: "Голосовой эмбеддинг персонажа (кастинг #115): матч спикеров между эпизодами",
        requirement: Requirement::Optional,
        delivery: Delivery::Download,
        size: 26_530_309,
        files: vec![
            FileSpec { url: "https://huggingface.co/Wespeaker/wespeaker-voxceleb-resnet34-LM/resolve/main/voxceleb_resnet34_LM.onnx", dest_rel: "models/faces/wespeaker/voxceleb_resnet34_LM.onnx", size: 26_530_309, extract: Extract::Keep },
        ],
        markers: vec![
            Marker { rel: "models/faces/wespeaker/voxceleb_resnet34_LM.onnx", expect: 26_530_309 },
        ],
        external_url: None,
    };
    proof {
        assert(c@.files =~= wespeaker_model().files);
        assert(c@.markers =~= wespeaker_model().markers);
    }
    c
}

pub open spec fn bsroformer_engine_model() -> ComponentModel {
    ComponentModel {
        id: "bsroformer-engine"@,
        name: "BSRoformer.cpp движок (CUDA)"@,
        purpose: "Нативный движок сепарации (bs_roformer-cli + ggml-CUDA)"@,
        requirement: Requirement::Recommended,
        delivery: Delivery::Download,
        size: 164_990_561,
        files: seq![
            FileModel { url: GH_BSROFORMER_ENGINE@, dest_rel: "tools/bsroformer/_engine.zip"@, size: 164_990_561, extract: Extract::ZipFlat },
        ],
        markers: seq![
            MarkerModel { rel: "tools/bsroformer/bs_roformer-cli.exe"@, expect: 0 },
        ],
        external_url: None,
    }
}

fn bsroformer_engine() -> (c: Component)
    ensures
        c@ == bsroformer_engine_model(),
{
    let c = Component {
        id: "bsroformer-engine",
        name: "BSRoformer.cpp движок (CUDA)",
        purpose: "Нативный движок сепарации (bs_roformer-cli + ggml-CUDA)",
        requirement: Requirement::Recommended,
        delivery: Delivery::Download,
        size: 164_990_561,
        files: vec![
            FileSpec { url: GH_BSROFORMER_ENGINE, dest_rel: "tools/bsroformer/_engine.zip", size: 164_990_561, extract: Extract::ZipFlat },
        ],
        markers: vec![
            Marker { rel: "tools/bsroformer/bs_roformer-cli.exe", expect: 0 },
        ],
        external_url: None,
    };
    proof {
        assert(c@.files =~= bsroformer_engine_model().files);
        assert(c@.markers =~= bsroformer_engine_model().markers);
    }
    c
}

pub open spec fn bsroformer_engine_cpu_model() -> ComponentModel {
    ComponentModel {
        id: "bsroformer-engine-cpu"@,
        name: "BSRoformer.cpp движок (CPU)"@,
        purpose: "Сепарация на процессоре — режим без NVIDIA (медленнее, полная функция)"@,
        requirement: Requirement::Optional,
        delivery: Delivery::Download,
        size: 671_031,
        files: seq![
            FileModel { url: GH_BSROFORMER_ENGINE_CPU@, dest_rel: "tools/bsroformer-cpu/_engine.zip"@, size: 671_031, extract: Extract::ZipFlat },
        ],
        markers: seq![
            MarkerModel { rel: "tools/bsroformer-cpu/bs_roformer-cli.exe"@, expect: 0 },
        ],
        external_url: None,
    }
}

fn bsroformer_engine_cpu() -> (c: Component)
    ensures
        c@ == bsroformer_engine_cpu_model(),
{
    let c = Component {
        id: "bsroformer-engine-cpu",
        name: "BSRoformer.cpp движок (CPU)",
        purpose: "Сепарация на процессоре — режим без NVIDIA (медленнее, полная функция)",
        requirement: Requirement::Optional,
        delivery: Delivery::Download,
        size: 671_031,
        files: vec![
            FileSpec { url: GH_BSROFORMER_ENGINE_CPU, dest_rel: "tools/bsroformer-cpu/_engine.zip", size: 671_031, extract: Extract::ZipFlat },
        ],
        markers: vec![
            Marker { rel: "tools/bsroformer-cpu/bs_roformer-cli.exe", expect: 0 },
        ],
        external_url: None,
    };
    proof {
        assert(c@.files =~= bsroformer_engine_cpu_model().files);
        assert(c@.markers =~= bsroformer_engine_cpu_model().markers);
    }
    c
}

pub open spec fn llama_model() -> ComponentModel {
    ComponentModel {
        id: "llama"@,
        name: "llama.cpp сервер (CUDA 13.3)"@,
        purpose: "Сайдкар-сервер для Gemma (перевод/vision)"@,
        requirement: Requirement::Required,
        delivery: Delivery::Download,
        size: 162_331_298,
        files: seq![
            FileModel { url: GH_LLAMA@, dest_rel: "tools/llama/_llama.zip"@, size: 0, extract: Extract::ZipFlat },
        ],
        markers: seq![
            MarkerModel { rel: "tools/llama/llama-server.exe"@, expect: 0 },
        ],
        external_url: None,
    }
}

fn llama() -> (c: Component)
    ensures
        c@ == llama_model(),
{
    let c = Component {
        id: "llama",
        name: "llama.cpp сервер (CUDA 13.3)",
        purpose: "Сайдкар-сервер для Gemma (перевод/vision)",
        requirement: Requirement::Required,
        delivery: Delivery::Download,
        size: 162_331_298,
        files: vec![
            FileSpec { url: GH_LLAMA, dest_rel: "tools/llama/_llama.zip", size: 0, extract: Extract::ZipFlat },
        ],
        markers: vec![
            Marker { rel: "tools/llama/llama-server.exe", expect: 0 },
        ],
        external_url: None,
    };
    proof {
        assert(c@.files =~= llama_model().files);
        assert(c@.markers =~= llama_model().markers);
    }
    c
}

pub open spec fn onnxruntime_model() -> ComponentModel {
    ComponentModel {
        id: "onnxruntime"@,
        name: "ONNX Runtime 1.24.2"@,
        purpose: "Рантайм ASR/OCR/диаризации (строго 1.24.2)"@,
        requirement: Requirement::Required,
        delivery: Delivery::Download,
        size: 74_075_355,
        files: seq![
            FileModel { url: GH_ORT@, dest_rel: "models/runtime/_ort.zip"@, size: 74_075_355, extract: Extract::ZipTree },
        ],
        markers: seq![
            MarkerModel { rel: "models/runtime/onnxruntime-win-x64-1.24.2/lib/onnxruntime.dll"@, expect: 0 },
        ],
        external_url: None,
    }
}

fn onnxruntime() -> (c: Component)
    ensures
        c@ == onnxruntime_model(),
{
    let c = Component {
        id: "onnxruntime",
        name: "ONNX Runtime 1.24.2",
        purpose: "Рантайм ASR/OCR/диаризации (строго 1.24.2)",
        requirement: Requirement::Required,
        delivery: Delivery::Download,
        size: 74_075_355,
        files: vec![
            FileSpec { url: GH_ORT, dest_rel: "models/runtime/_ort.zip", size: 74_075_355, extract: Extract::ZipTree },
        ],
        markers: vec![
            Marker { rel: "models/runtime/onnxruntime-win-x64-1.24.2/lib/onnxruntime.dll", expect: 0 },
        ],
        external_url: None,
    };
    proof {
        assert(c@.files =~= onnxruntime_model().files);
        assert(c@.markers =~= onnxruntime_model().markers);
    }
    c
}

pub open spec fn onnxruntime_gpu_model() -> ComponentModel {
    ComponentModel {
        id: "onnxruntime-gpu"@,
        name: "ONNX Runtime 1.24.2 GPU (CUDA)"@,
        purpose: "CUDA-провайдер для диаризации/Parakeet на GPU (режим local_backend=gpu)"@,
        requirement: Requirement::Optional,
        delivery: Delivery::Download,
        size: 288_348_147,
        files: seq![
            FileModel { url: GH_ORT_GPU@, dest_rel: "models/runtime/_ort_gpu.zip"@, size: 288_348_147, extract: Extract::ZipTree },
        ],
        markers: seq![
            MarkerModel { rel: "models/runtime/onnxruntime-win-x64-gpu-1.24.2/lib/onnxruntime.dll"@, expect: 0 },
        ],
        external_url: None,
    }
}

fn onnxruntime_gpu() -> (c: Component)
    ensures
        c@ == onnxruntime_gpu_model(),
{
    let c = Component {
        id: "onnxruntime-gpu",
        name: "ONNX Runtime 1.24.2 GPU (CUDA)",
        purpose: "CUDA-провайдер для диаризации/Parakeet на GPU (режим local_backend=gpu)",
        requirement: Requirement::Optional,
        delivery: Delivery::Download,
        size: 288_348_147,
        files: vec![
            FileSpec { url: GH_ORT_GPU, dest_rel: "models/runtime/_ort_gpu.zip", size: 288_348_147, extract: Extract::ZipTree },
        ],
        markers: vec![
            Marker { rel: "models/runtime/onnxruntime-win-x64-gpu-1.24.2/lib/onnxruntime.dll", expect: 0 },
        ],
        external_url: None,
    };
    proof {
        assert(c@.files =~= onnxruntime_gpu_model().files);
        assert(c@.markers =~= onnxruntime_gpu_model().markers);
    }
    c
}

pub open spec fn ffmpeg_model() -> ComponentModel {
    ComponentModel {
        id: "ffmpeg"@,
        name: "FFmpeg (static win64)"@,
        purpose: "Декод/энкод видео и аудио (NVENC)"@,
        requirement: Requirement::Required,
        delivery: Delivery::Download,
        size: 168_601_393,
        files: seq![
            FileModel { url: GH_FFMPEG@, dest_rel: "tools/ffmpeg/_ffmpeg.zip"@, size: 0, extract: Extract::ZipPick },
        ],
        markers: seq![
            MarkerModel { rel: "tools/ffmpeg/ffmpeg.exe"@, expect: 0 },
        ],
        external_url: None,
    }
}

fn ffmpeg() -> (c: Component)
    ensures
        c@ == ffmpeg_model(),
{
    let c = Component {
        id: "ffmpeg",
        name: "FFmpeg (static win64)",
        purpose: "Декод/энкод видео и аудио (NVENC)",
        requirement: Requirement::Required,
        delivery: Delivery::Download,
        size: 168_601_393,
        files: vec![
            FileSpec { url: GH_FFMPEG, dest_rel: "tools/ffmpeg/_ffmpeg.zip", size: 0, extract: Extract::ZipPick },
        ],
        markers: vec![
            Marker { rel: "tools/ffmpeg/ffmpeg.exe", expect: 0 },
        ],
        external_url: None,
    };
    proof {
        assert(c@.files =~= ffmpeg_model().files);
        assert(c@.markers =~= ffmpeg_model().markers);
    }
    c
}

pub open spec fn cuda_runtime_model() -> ComponentModel {
    ComponentModel {
        id: "cuda-runtime"@,
        name: "CUDA 13 runtime (cudart + cuBLAS)"@,
        purpose: "Редистрибутивные CUDA-DLL для движков (без CUDA Toolkit)"@,
        requirement: Requirement::Required,
        delivery: Delivery::Download,
        size: 416_407_552,
        files: seq![
            FileModel { url: WHEEL_CUDART@, dest_rel: "models/higgs-engine/_cudart.whl"@, size: 0, extract: Extract::WheelDlls },
            FileModel { url: WHEEL_CUBLAS@, dest_rel: "models/higgs-engine/_cublas.whl"@, size: 0, extract: Extract::WheelDlls },
        ],
        markers: seq![
            MarkerModel { rel: "models/higgs-engine/cudart64_13.dll"@, expect: 0 },
            MarkerModel { rel: "models/higgs-engine/cublas64_13.dll"@, expect: 0 },
            MarkerModel { rel: "models/higgs-engine/cublasLt64_13.dll"@, expect: 0 },
        ],
        external_url: None,
    }
}

fn cuda_runtime() -> (c: Component)
    ensures
        c@ == cuda_runtime_model(),
{
    let c = Component {
        id: "cuda-runtime",
        name: "CUDA 13 runtime (cudart + cuBLAS)",
        purpose: "Редистрибутивные CUDA-DLL для движков (без CUDA Toolkit)",
        requirement: Requirement::Required,
        delivery: Delivery::Download,
        size: 416_407_552,
        files: vec![
            FileSpec { url: WHEEL_CUDART, dest_rel: "models/higgs-engine/_cudart.whl", size: 0, extract: Extract::WheelDlls },
            FileSpec { url: WHEEL_CUBLAS, dest_rel: "models/higgs-engine/_cublas.whl", size: 0, extract: Extract::WheelDlls },
        ],
        markers: vec![
            Marker { rel: "models/higgs-engine/cudart64_13.dll", expect: 0 },
            Marker { rel: "models/higgs-engine/cublas64_13.dll", expect: 0 },
            Marker { rel: "models/higgs-engine/cublasLt64_13.dll", expect: 0 },
        ],
        external_url: None,
    };
    proof {
        assert(c@.files =~= cuda_runtime_model().files);
        assert(c@.markers =~= cuda_runtime_model().markers);
    }
    c
}

pub open spec fn cudnn_model() -> ComponentModel {
    ComponentModel {
        id: "cudnn"@,
        name: "cuDNN 9 (CUDA 13)"@,
        purpose: "Нужен CUDA-провайдеру onnxruntime для диаризации/Parakeet на GPU"@,
        requirement: Requirement::Optional,
        delivery: Delivery::Download,
        size: 408_000_000,
        files: seq![
            FileModel { url: WHEEL_CUDNN@, dest_rel: "models/higgs-engine/_cudnn.whl"@, size: 0, extract: Extract::WheelDlls },
        ],
        markers: seq![
            MarkerModel { rel: "models/higgs-engine/cudnn64_9.dll"@, expect: 0 },
        ],
        external_url: None,
    }
}

fn cudnn() -> (c: Component)
    ensures
        c@ == cudnn_model(),
{
    let c = Component {
        id: "cudnn",
        name: "cuDNN 9 (CUDA 13)",
        purpose: "Нужен CUDA-провайдеру onnxruntime для диаризации/Parakeet на GPU",
        requirement: Requirement::Optional,
        delivery: Delivery::Download,
        size: 408_000_000,
        files: vec![
            FileSpec { url: WHEEL_CUDNN, dest_rel: "models/higgs-engine/_cudnn.whl", size: 0, extract: Extract::WheelDlls },
        ],
        markers: vec![
            Marker { rel: "models/higgs-engine/cudnn64_9.dll", expect: 0 },
        ],
        external_url: None,
    };
    proof {
        assert(c@.files =~= cudnn_model().files);
        assert(c@.markers =~= cudnn_model().markers);
    }
    c
}

pub open spec fn vcruntime_model() -> ComponentModel {
    ComponentModel {
        id: "vcruntime"@,
        name: "Visual C++ Runtime (2015–2022)"@,
        purpose: "Системные DLL движков (идут в комплекте)"@,
        requirement: Requirement::Required,
        delivery: Delivery::Bundled,
        size: 1_084_896,
        files: seq![
        ],
        markers: seq![
            MarkerModel { rel: "models/higgs-engine/MSVCP140.dll"@, expect: 0 },
            MarkerModel { rel: "models/higgs-engine/VCRUNTIME140.dll"@, expect: 0 },
            MarkerModel { rel: "models/higgs-engine/VCRUNTIME140_1.dll"@, expect: 0 },
            MarkerModel { rel: "models/higgs-engine/VCOMP140.DLL"@, expect: 0 },
        ],
        external_url: None,
    }
}

fn vcruntime() -> (c: Component)
    ensures
        c@ == vcruntime_model(),
{
    let c = Component {
        id: "vcruntime",
        name: "Visual C++ Runtime (2015–2022)",
        purpose: "Системные DLL движков (идут в комплекте)",
        requirement: Requirement::Required,
        delivery: Delivery::Bundled,
        size: 1_084_896,
        files: Vec::new(),
        markers: vec![
            Marker { rel: "models/higgs-engine/MSVCP140.dll", expect: 0 },
            Marker { rel: "models/higgs-engine/VCRUNTIME140.dll", expect: 0 },
            Marker { rel: "models/higgs-engine/VCRUNTIME140_1.dll", expect: 0 },
            Marker { rel: "models/higgs-engine/VCOMP140.DLL", expect: 0 },
        ],
        external_url: None,
    };
    proof {
        assert(c@.files =~= vcruntime_model().files);
        assert(c@.markers =~= vcruntime_model().markers);
    }
    c
}

pub open spec fn ocr_model() -> ComponentModel {
    ComponentModel {
        id: "ocr"@,
        name: "OCR-модели (PP-OCR ONNX)"@,
        purpose: "Детекция вшитого текста → блюр (идут в комплекте)"@,
        requirement: Requirement::Recommended,
        delivery: Delivery::Bundled,
        size: 31_726_193,
        files: seq![
        ],
        markers: seq![
            MarkerModel { rel: "models/ocr/det.onnx"@, expect: 0 },
            MarkerModel { rel: "models/ocr/cls.onnx"@, expect: 0 },
            MarkerModel { rel: "models/ocr/rec_cyrillic.onnx"@, expect: 0 },
            MarkerModel { rel: "models/ocr/rec_cyrillic.dict.txt"@, expect: 0 },
        ],
        external_url: None,
    }
}

fn ocr() -> (c: Component)
    ensures
        c@ == ocr_model(),
{
    let c = Component {
        id: "ocr",
        name: "OCR-модели (PP-OCR ONNX)",
        purpose: "Детекция вшитого текста → блюр (идут в комплекте)",
        requirement: Requirement::Recommended,
        delivery: Delivery::Bundled,
        size: 31_726_193,
        files: Vec::new(),
        markers: vec![
            Marker { rel: "models/ocr/det.onnx", expect: 0 },
            Marker { rel: "models/ocr/cls.onnx", expect: 0 },
            Marker { rel: "models/ocr/rec_cyrillic.onnx", expect: 0 },
            Marker { rel: "models/ocr/rec_cyrillic.dict.txt", expect: 0 },
        ],
        external_url: None,
    };
    proof {
        assert(c@.files =~= ocr_model().files);
        assert(c@.markers =~= ocr_model().markers);
    }
    c
}

pub open spec fn nvidia_driver_model() -> ComponentModel {
    ComponentModel {
        id: "nvidia-driver"@,
        name: "Драйвер NVIDIA"@,
        purpose: "GPU-ускорение (ставится отдельно, не приложением)"@,
        requirement: Requirement::Required,
        delivery: Delivery::External,
        size: 0,
        files: seq![
        ],
        markers: seq![
        ],
        external_url: Some(NVIDIA_DRIVER_URL@),
    }
}

fn nvidia_driver() -> (c: Component)
    ensures
        c@ == nvidia_driver_model(),
{
    let c = Component {
        id: "nvidia-driver",
        name: "Драйвер NVIDIA",
        purpose: "GPU-ускорение (ставится отдельно, не приложением)",
        requirement: Requirement::Required,
        delivery: Delivery::External,
        size: 0,
        files: Vec::new(),
        markers: Vec::new(),
        external_url: Some(NVIDIA_DRIVER_URL),
    };
    proof {
        assert(c@.files =~= nvidia_driver_model().files);
        assert(c@.markers =~= nvidia_driver_model().markers);
    }
    c
}

/// The components, in the order in which they are shown.
pub open spec fn manifest_model() -> Seq<ComponentModel> {
    seq![
        higgs_model(),
        higgs_engine_model(),
        gemma_model(),
        gemma_q5_0_model(),
        gemma_q6_k_model(),
        gemma_q8_0_model(),
        parakeet_model(),
        higgs_q6_k_model(),
        higgs_q4_k_m_model(),
        parakeet_fp32_model(),
        whisper_engine_model(),
        whisper_tiny_model(),
        whisper_base_model(),
        whisper_small_model(),
        whisper_medium_model(),
        whisper_large_v3_model(),
        whisper_large_v3_turbo_model(),
        sortformer_model(),
        roformer_model(),
        roformer_q5_model(),
        roformer_q4_model(),
        wespeaker_model(),
        bsroformer_engine_model(),
        bsroformer_engine_cpu_model(),
        llama_model(),
        onnxruntime_model(),
        onnxruntime_gpu_model(),
        ffmpeg_model(),
        cuda_runtime_model(),
        cudnn_model(),
        vcruntime_model(),
        ocr_model(),
        nvidia_driver_model(),
    ]
}

/// The components, in the order in which they are shown.
pub fn manifest() -> (r: Vec<Component>)
    ensures
        r@.map_values(|c: Component| c@) == manifest_model(),
        r@.len() == 33,
{
    let r = vec![
        higgs(),
        higgs_engine(),
        gemma(),
        gemma_q5_0(),
        gemma_q6_k(),
        gemma_q8_0(),
        parakeet(),
        higgs_q6_k(),
        higgs_q4_k_m(),
        parakeet_fp32(),
        whisper_engine(),
        whisper_tiny(),
        whisper_base(),
        whisper_small(),
        whisper_medium(),
        whisper_large_v3(),
        whisper_large_v3_turbo(),
        sortformer(),
        roformer(),
        roformer_q5(),
        roformer_q4(),
        wespeaker(),
        bsroformer_engine(),
        bsroformer_engine_cpu(),
        llama(),
        onnxruntime(),
        onnxruntime_gpu(),
        ffmpeg(),
        cuda_runtime(),
        cudnn(),
        vcruntime(),
        ocr(),
        nvidia_driver(),
    ];
    assert(r@.map_values(|c: Component| c@) =~= manifest_model());
    r
}

/// The place of an identifier in the list.
spec fn rank(id: Seq<char>) -> int {
    if id == "higgs"@ {
        0
    } else if id == "higgs-engine"@ {
        1
    } else if id == "gemma"@ {
        2
    } else if id == "gemma-q5_0"@ {
        3
    } else if id == "gemma-q6_k"@ {
        4
    } else if id == "gemma-q8_0"@ {
        5
    } else if id == "parakeet"@ {
        6
    } else if id == "higgs-q6_k"@ {
        7
    } else if id == "higgs-q4_k_m"@ {
        8
    } else if id == "parakeet-fp32"@ {
        9
    } else if id == "whisper-engine"@ {
        10
    } else if id == "whisper-tiny"@ {
        11
    } else if id == "whisper-base"@ {
        12
    } else if id == "whisper-small"@ {
        13
    } else if id == "whisper-medium"@ {
        14
    } else if id == "whisper-large-v3"@ {
        15
    } else if id == "whisper-large-v3-turbo"@ {
        16
    } else if id == "sortformer"@ {
        17
    } else if id == "roformer"@ {
        18
    } else if id == "roformer-q5"@ {
        19
    } else if id == "roformer-q4"@ {
        20
    } else if id == "wespeaker"@ {
        21
    } else if id == "bsroformer-engine"@ {
        22
    } else if id == "bsroformer-engine-cpu"@ {
        23
    } else if id == "llama"@ {
        24
    } else if id == "onnxruntime"@ {
        25
    } else if id == "onnxruntime-gpu"@ {
        26
    } else if id == "ffmpeg"@ {
        27
    } else if id == "cuda-runtime"@ {
        28
    } else if id == "cudnn"@ {
        29
    } else if id == "vcruntime"@ {
        30
    } else if id == "ocr"@ {
        31
    } else if id == "nvidia-driver"@ {
        32
    } else {
        -1
    }
}

proof fn lemma_ranks()
    ensures
        forall|i: int| 0 <= i < 33 ==> rank(#[trigger] manifest_model()[i].id) == i,
{
    reveal_strlit("higgs");
    reveal_strlit("higgs-engine");
    reveal_strlit("gemma");
    reveal_strlit("gemma-q5_0");
    reveal_strlit("gemma-q6_k");
    reveal_strlit("gemma-q8_0");
    reveal_strlit("parakeet");
    reveal_strlit("higgs-q6_k");
    reveal_strlit("higgs-q4_k_m");
    reveal_strlit("parakeet-fp32");
    reveal_strlit("whisper-engine");
    reveal_strlit("whisper-tiny");
    reveal_strlit("whisper-base");
    reveal_strlit("whisper-small");
    reveal_strlit("whisper-medium");
    reveal_strlit("whisper-large-v3");
    reveal_strlit("whisper-large-v3-turbo");
    reveal_strlit("sortformer");
    reveal_strlit("roformer");
    reveal_strlit("roformer-q5");
    reveal_strlit("roformer-q4");
    reveal_strlit("wespeaker");
    reveal_strlit("bsroformer-engine");
    reveal_strlit("bsroformer-engine-cpu");
    reveal_strlit("llama");
    reveal_strlit("onnxruntime");
    reveal_strlit("onnxruntime-gpu");
    reveal_strlit("ffmpeg");
    reveal_strlit("cuda-runtime");
    reveal_strlit("cudnn");
    reveal_strlit("vcruntime");
    reveal_strlit("ocr");
    reveal_strlit("nvidia-driver");
    let s0 = "higgs"@;
    assert(s0.len() == 5);
    let s1 = "higgs-engine"@;
    assert(s1.len() == 12);
    let s2 = "gemma"@;
    assert(s2.len() == 5);
    let s3 = "gemma-q5_0"@;
    assert(s3.len() == 10);
    let s4 = "gemma-q6_k"@;
    assert(s4.len() == 10);
    let s5 = "gemma-q8_0"@;
    assert(s5.len() == 10);
    let s6 = "parakeet"@;
    assert(s6.len() == 8);
    let s7 = "higgs-q6_k"@;
    assert(s7.len() == 10);
    let s8 = "higgs-q4_k_m"@;
    assert(s8.len() == 12);
    let s9 = "parakeet-fp32"@;
    assert(s9.len() == 13);
    let s10 = "whisper-engine"@;
    assert(s10.len() == 14);
    let s11 = "whisper-tiny"@;
    assert(s11.len() == 12);
    let s12 = "whisper-base"@;
    assert(s12.len() == 12);
    let s13 = "whisper-small"@;
    assert(s13.len() == 13);
    let s14 = "whisper-medium"@;
    assert(s14.len() == 14);
    let s15 = "whisper-large-v3"@;
    assert(s15.len() == 16);
    let s16 = "whisper-large-v3-turbo"@;
    assert(s16.len() == 22);
    let s17 = "sortformer"@;
    assert(s17.len() == 10);
    let s18 = "roformer"@;
    assert(s18.len() == 8);
    let s19 = "roformer-q5"@;
    assert(s19.len() == 11);
    let s20 = "roformer-q4"@;
    assert(s20.len() == 11);
    let s21 = "wespeaker"@;
    assert(s21.len() == 9);
    let s22 = "bsroformer-engine"@;
    assert(s22.len() == 17);
    let s23 = "bsroformer-engine-cpu"@;
    assert(s23.len() == 21);
    let s24 = "llama"@;
    assert(s24.len() == 5);
    let s25 = "onnxruntime"@;
    assert(s25.len() == 11);
    let s26 = "onnxruntime-gpu"@;
    assert(s26.len() == 15);
    let s27 = "ffmpeg"@;
    assert(s27.len() == 6);
    let s28 = "cuda-runtime"@;
    assert(s28.len() == 12);
    let s29 = "cudnn"@;
    assert(s29.len() == 5);
    let s30 = "vcruntime"@;
    assert(s30.len() == 9);
    let s31 = "ocr"@;
    assert(s31.len() == 3);
    let s32 = "nvidia-driver"@;
    assert(s32.len() == 13);
    assert(s0[0] != s2[0]);
    assert(s3[7] != s4[7]);
    assert(s3[7] != s5[7]);
    assert(s4[7] != s5[7]);
    assert(s3[0] != s7[0]);
    assert(s4[0] != s7[0]);
    assert(s5[0] != s7[0]);
    assert(s1[6] != s8[6]);
    assert(s1[0] != s11[0]);
    assert(s8[0] != s11[0]);
    assert(s1[0] != s12[0]);
    assert(s8[0] != s12[0]);
    assert(s11[8] != s12[8]);
    assert(s9[0] != s13[0]);
    assert(s10[8] != s14[8]);
    assert(s3[0] != s17[0]);
    assert(s4[0] != s17[0]);
    assert(s5[0] != s17[0]);
    assert(s7[0] != s17[0]);
    assert(s6[0] != s18[0]);
    assert(s19[10] != s20[10]);
    assert(s0[0] != s24[0]);
    assert(s2[0] != s24[0]);
    assert(s19[0] != s25[0]);
    assert(s20[0] != s25[0]);
    assert(s1[0] != s28[0]);
    assert(s8[0] != s28[0]);
    assert(s11[0] != s28[0]);
    assert(s12[0] != s28[0]);
    assert(s0[0] != s29[0]);
    assert(s2[0] != s29[0]);
    assert(s24[0] != s29[0]);
    assert(s21[0] != s30[0]);
    assert(s9[0] != s32[0]);
    assert(s13[0] != s32[0]);
    let m = manifest_model();
    assert(m[0].id == s0 && rank(s0) == 0);
    assert(m[1].id == s1 && rank(s1) == 1);
    assert(m[2].id == s2 && rank(s2) == 2);
    assert(m[3].id == s3 && rank(s3) == 3);
    assert(m[4].id == s4 && rank(s4) == 4);
    assert(m[5].id == s5 && rank(s5) == 5);
    assert(m[6].id == s6 && rank(s6) == 6);
    assert(m[7].id == s7 && rank(s7) == 7);
    assert(m[8].id == s8 && rank(s8) == 8);
    assert(m[9].id == s9 && rank(s9) == 9);
    assert(m[10].id == s10 && rank(s10) == 10);
    assert(m[11].id == s11 && rank(s11) == 11);
    assert(m[12].id == s12 && rank(s12) == 12);
    assert(m[13].id == s13 && rank(s13) == 13);
    assert(m[14].id == s14 && rank(s14) == 14);
    assert(m[15].id == s15 && rank(s15) == 15);
    assert(m[16].id == s16 && rank(s16) == 16);
    assert(m[17].id == s17 && rank(s17) == 17);
    assert(m[18].id == s18 && rank(s18) == 18);
    assert(m[19].id == s19 && rank(s19) == 19);
    assert(m[20].id == s20 && rank(s20) == 20);
    assert(m[21].id == s21 && rank(s21) == 21);
    assert(m[22].id == s22 && rank(s22) == 22);
    assert(m[23].id == s23 && rank(s23) == 23);
    assert(m[24].id == s24 && rank(s24) == 24);
    assert(m[25].id == s25 && rank(s25) == 25);
    assert(m[26].id == s26 && rank(s26) == 26);
    assert(m[27].id == s27 && rank(s27) == 27);
    assert(m[28].id == s28 && rank(s28) == 28);
    assert(m[29].id == s29 && rank(s29) == 29);
    assert(m[30].id == s30 && rank(s30) == 30);
    assert(m[31].id == s31 && rank(s31) == 31);
    assert(m[32].id == s32 && rank(s32) == 32);
    assert forall|i: int| 0 <= i < 33 implies rank(#[trigger] manifest_model()[i].id) == i by {}
}

/// No two components have the same identifier.
pub proof fn law_ids_are_unique(i: int, j: int)
    requires
        0 <= i < manifest_model().len(),
        0 <= j < manifest_model().len(),
        manifest_model()[i].id == manifest_model()[j].id,
    ensures
        i == j,
{
    lemma_ranks();
    assert(rank(manifest_model()[i].id) == i);
    assert(rank(manifest_model()[j].id) == j);
}

/// What a component must have to be delivered the way it is: a downloaded one has files, all of
/// them served over https, and markers; a bundled one has markers and nothing to fetch; one that is
/// installed elsewhere has a page.
pub open spec fn deliverable(c: ComponentModel) -> bool {
    match c.delivery {
        Delivery::Download => {
            &&& c.files.len() > 0
            &&& c.markers.len() > 0
            &&& forall|k: int| 0 <= k < c.files.len() ==> text::starts((#[trigger] c.files[k]).url, "https://"@)
        },
        Delivery::Bundled => c.files.len() == 0 && c.markers.len() > 0,
        Delivery::External => c.external_url is Some,
    }
}

proof fn lemma_higgs_deliverable()
    ensures
        deliverable(higgs_model()),
{
    reveal_strlit("https://");
    let c = higgs_model();
    assert(text::starts(c.files[0].url, "https://"@)) by {
        reveal_strlit("https://huggingface.co/drbaph/Higgs-Audio-v3-Studio/resolve/main/models/higgs-q8_0/q8_0.gguf");
        assert(c.files[0].url.take(8) =~= "https://"@);
    }
    assert(text::starts(c.files[1].url, "https://"@)) by {
        reveal_strlit("https://huggingface.co/drbaph/Higgs-Audio-v3-Studio/resolve/main/models/higgs-q8_0/config.json");
        assert(c.files[1].url.take(8) =~= "https://"@);
    }
    assert(text::starts(c.files[2].url, "https://"@)) by {
        reveal_strlit("https://huggingface.co/drbaph/Higgs-Audio-v3-Studio/resolve/main/models/higgs-q8_0/chat_template.jinja");
        assert(c.files[2].url.take(8) =~= "https://"@);
    }
    assert(text::starts(c.files[3].url, "https://"@)) by {
        reveal_strlit("https://huggingface.co/drbaph/Higgs-Audio-v3-Studio/resolve/main/models/higgs-q8_0/tokenizer.json");
        assert(c.files[3].url.take(8) =~= "https://"@);
    }
    assert(text::starts(c.files[4].url, "https://"@)) by {
        reveal_strlit("https://huggingface.co/drbaph/Higgs-Audio-v3-Studio/resolve/main/models/higgs-q8_0/tokenizer_config.json");
        assert(c.files[4].url.take(8) =~= "https://"@);
    }
    assert(text::starts(c.files[5].url, "https://"@)) by {
        reveal_strlit("https://huggingface.co/drbaph/Higgs-Audio-v3-Studio/resolve/main/models/higgs-q8_0/higgs_audio_v2_tokenizer_config.json");
        assert(c.files[5].url.take(8) =~= "https://"@);
    }
}

proof fn lemma_higgs_engine_deliverable()
    ensures
        deliverable(higgs_engine_model()),
{
    reveal_strlit("https://");
    let c = higgs_engine_model();
    assert(text::starts(c.files[0].url, "https://"@)) by {
        reveal_strlit("https://huggingface.co/drbaph/Higgs-Audio-v3-Studio/resolve/main/engines/audiocpp_engine.dll");
        assert(c.files[0].url.take(8) =~= "https://"@);
    }
}

proof fn lemma_gemma_deliverable()
    ensures
        deliverable(gemma_model()),
{
    reveal_strlit("https://");
    let c = gemma_model();
    assert(text::starts(c.files[0].url, "https://"@)) by {
        reveal_strlit("https://huggingface.co/google/gemma-4-12b-it-qat-q4_0-gguf/resolve/main/gemma-4-12b-it-qat-q4_0.gguf");
        assert(c.files[0].url.take(8) =~= "https://"@);
    }
    assert(text::starts(c.files[1].url, "https://"@)) by {
        reveal_strlit("https://huggingface.co/google/gemma-4-12b-it-qat-q4_0-gguf/resolve/main/mmproj-gemma-4-12b-it-qat-q4_0.gguf");
        assert(c.files[1].url.take(8) =~= "https://"@);
    }
}

proof fn lemma_gemma_q5_0_deliverable()
    ensures
        deliverable(gemma_q5_0_model()),
{
    reveal_strlit("https://");
    let c = gemma_q5_0_model();
    assert(text::starts(c.files[0].url, "https://"@)) by {
        reveal_strlit("https://huggingface.co/unsloth/gemma-4-12b-it-GGUF/resolve/main/gemma-4-12b-it-Q5_K_M.gguf");
        assert(c.files[0].url.take(8) =~= "https://"@);
    }
    assert(text::starts(c.files[1].url, "https://"@)) by {
        reveal_strlit("https://huggingface.co/unsloth/gemma-4-12b-it-GGUF/resolve/main/mmproj-F16.gguf");
        assert(c.files[1].url.take(8) =~= "https://"@);
    }
}

proof fn lemma_gemma_q6_k_deliverable()
    ensures
        deliverable(gemma_q6_k_model()),
{
    reveal_strlit("https://");
    let c = gemma_q6_k_model();
    assert(text::starts(c.files[0].url, "https://"@)) by {
        reveal_strlit("https://huggingface.co/unsloth/gemma-4-12b-it-GGUF/resolve/main/gemma-4-12b-it-Q6_K.gguf");
        assert(c.files[0].url.take(8) =~= "https://"@);
    }
    assert(text::starts(c.files[1].url, "https://"@)) by {
        reveal_strlit("https://huggingface.co/unsloth/gemma-4-12b-it-GGUF/resolve/main/mmproj-F16.gguf");
        assert(c.files[1].url.take(8) =~= "https://"@);
    }
}

proof fn lemma_gemma_q8_0_deliverable()
    ensures
        deliverable(gemma_q8_0_model()),
{
    reveal_strlit("https://");
    let c = gemma_q8_0_model();
    assert(text::starts(c.files[0].url, "https://"@)) by {
        reveal_strlit("https://huggingface.co/unsloth/gemma-4-12b-it-GGUF/resolve/main/gemma-4-12b-it-Q8_0.gguf");
        assert(c.files[0].url.take(8) =~= "https://"@);
    }
    assert(text::starts(c.files[1].url, "https://"@)) by {
        reveal_strlit("https://huggingface.co/unsloth/gemma-4-12b-it-GGUF/resolve/main/mmproj-F16.gguf");
        assert(c.files[1].url.take(8) =~= "https://"@);
    }
}

proof fn lemma_parakeet_deliverable()
    ensures
        deliverable(parakeet_model()),
{
    reveal_strlit("https://");
    let c = parakeet_model();
    assert(text::starts(c.files[0].url, "https://"@)) by {
        reveal_strlit("https://huggingface.co/istupakov/parakeet-tdt-0.6b-v3-onnx/resolve/main/encoder-model.int8.onnx");
        assert(c.files[0].url.take(8) =~= "https://"@);
    }
    assert(text::starts(c.files[1].url, "https://"@)) by {
        reveal_strlit("https://huggingface.co/istupakov/parakeet-tdt-0.6b-v3-onnx/resolve/main/decoder_joint-model.int8.onnx");
        assert(c.files[1].url.take(8) =~= "https://"@);
    }
    assert(text::starts(c.files[2].url, "https://"@)) by {
        reveal_strlit("https://huggingface.co/istupakov/parakeet-tdt-0.6b-v3-onnx/resolve/main/nemo128.onnx");
        assert(c.files[2].url.take(8) =~= "https://"@);
    }
    assert(text::starts(c.files[3].url, "https://"@)) by {
        reveal_strlit("https://huggingface.co/istupakov/parakeet-tdt-0.6b-v3-onnx/resolve/main/vocab.txt");
        assert(c.files[3].url.take(8) =~= "https://"@);
    }
    assert(text::starts(c.files[4].url, "https://"@)) by {
        reveal_strlit("https://huggingface.co/istupakov/parakeet-tdt-0.6b-v3-onnx/resolve/main/config.json");
        assert(c.files[4].url.take(8) =~= "https://"@);
    }
}

proof fn lemma_higgs_q6_k_deliverable()
    ensures
        deliverable(higgs_q6_k_model()),
{
    reveal_strlit("https://");
    let c = higgs_q6_k_model();
    assert(text::starts(c.files[0].url, "https://"@)) by {
        reveal_strlit("https://huggingface.co/drbaph/Higgs-Audio-v3-Studio/resolve/main/models/higgs-q6_k/q6_k.gguf");
        assert(c.files[0].url.take(8) =~= "https://"@);
    }
    assert(text::starts(c.files[1].url, "https://"@)) by {
        reveal_strlit("https://huggingface.co/drbaph/Higgs-Audio-v3-Studio/resolve/main/models/higgs-q6_k/config.json");
        assert(c.files[1].url.take(8) =~= "https://"@);
    }
    assert(text::starts(c.files[2].url, "https://"@)) by {
        reveal_strlit("https://huggingface.co/drbaph/Higgs-Audio-v3-Studio/resolve/main/models/higgs-q6_k/chat_template.jinja");
        assert(c.files[2].url.take(8) =~= "https://"@);
    }
    assert(text::starts(c.files[3].url, "https://"@)) by {
        reveal_strlit("https://huggingface.co/drbaph/Higgs-Audio-v3-Studio/resolve/main/models/higgs-q6_k/tokenizer.json");
        assert(c.files[3].url.take(8) =~= "https://"@);
    }
    assert(text::starts(c.files[4].url, "https://"@)) by {
        reveal_strlit("https://huggingface.co/drbaph/Higgs-Audio-v3-Studio/resolve/main/models/higgs-q6_k/tokenizer_config.json");
        assert(c.files[4].url.take(8) =~= "https://"@);
    }
    assert(text::starts(c.files[5].url, "https://"@)) by {
        reveal_strlit("https://huggingface.co/drbaph/Higgs-Audio-v3-Studio/resolve/main/models/higgs-q6_k/higgs_audio_v2_tokenizer_config.json");
        assert(c.files[5].url.take(8) =~= "https://"@);
    }
}

proof fn lemma_higgs_q4_k_m_deliverable()
    ensures
        deliverable(higgs_q4_k_m_model()),
{
    reveal_strlit("https://");
    let c = higgs_q4_k_m_model();
    assert(text::starts(c.files[0].url, "https://"@)) by {
        reveal_strlit("https://huggingface.co/drbaph/Higgs-Audio-v3-Studio/resolve/main/models/higgs-q4_k_m/q4_k_m.gguf");
        assert(c.files[0].url.take(8) =~= "https://"@);
    }
    assert(text::starts(c.files[1].url, "https://"@)) by {
        reveal_strlit("https://huggingface.co/drbaph/Higgs-Audio-v3-Studio/resolve/main/models/higgs-q4_k_m/config.json");
        assert(c.files[1].url.take(8) =~= "https://"@);
    }
    assert(text::starts(c.files[2].url, "https://"@)) by {
        reveal_strlit("https://huggingface.co/drbaph/Higgs-Audio-v3-Studio/resolve/main/models/higgs-q4_k_m/chat_template.jinja");
        assert(c.files[2].url.take(8) =~= "https://"@);
    }
    assert(text::starts(c.files[3].url, "https://"@)) by {
        reveal_strlit("https://huggingface.co/drbaph/Higgs-Audio-v3-Studio/resolve/main/models/higgs-q4_k_m/tokenizer.json");
        assert(c.files[3].url.take(8) =~= "https://"@);
    }
    assert(text::starts(c.files[4].url, "https://"@)) by {
        reveal_strlit("https://huggingface.co/drbaph/Higgs-Audio-v3-Studio/resolve/main/models/higgs-q4_k_m/tokenizer_config.json");
        assert(c.files[4].url.take(8) =~= "https://"@);
    }
    assert(text::starts(c.files[5].url, "https://"@)) by {
        reveal_strlit("https://huggingface.co/drbaph/Higgs-Audio-v3-Studio/resolve/main/models/higgs-q4_k_m/higgs_audio_v2_tokenizer_config.json");
        assert(c.files[5].url.take(8) =~= "https://"@);
    }
}

proof fn lemma_parakeet_fp32_deliverable()
    ensures
        deliverable(parakeet_fp32_model()),
{
    reveal_strlit("https://");
    let c = parakeet_fp32_model();
    assert(text::starts(c.files[0].url, "https://"@)) by {
        reveal_strlit("https://huggingface.co/istupakov/parakeet-tdt-0.6b-v3-onnx/resolve/main/encoder-model.onnx");
        assert(c.files[0].url.take(8) =~= "https://"@);
    }
    assert(text::starts(c.files[1].url, "https://"@)) by {
        reveal_strlit("https://huggingface.co/istupakov/parakeet-tdt-0.6b-v3-onnx/resolve/main/encoder-model.onnx.data");
        assert(c.files[1].url.take(8) =~= "https://"@);
    }
    assert(text::starts(c.files[2].url, "https://"@)) by {
        reveal_strlit("https://huggingface.co/istupakov/parakeet-tdt-0.6b-v3-onnx/resolve/main/decoder_joint-model.onnx");
        assert(c.files[2].url.take(8) =~= "https://"@);
    }
    assert(text::starts(c.files[3].url, "https://"@)) by {
        reveal_strlit("https://huggingface.co/istupakov/parakeet-tdt-0.6b-v3-onnx/resolve/main/nemo128.onnx");
        assert(c.files[3].url.take(8) =~= "https://"@);
    }
    assert(text::starts(c.files[4].url, "https://"@)) by {
        reveal_strlit("https://huggingface.co/istupakov/parakeet-tdt-0.6b-v3-onnx/resolve/main/vocab.txt");
        assert(c.files[4].url.take(8) =~= "https://"@);
    }
    assert(text::starts(c.files[5].url, "https://"@)) by {
        reveal_strlit("https://huggingface.co/istupakov/parakeet-tdt-0.6b-v3-onnx/resolve/main/config.json");
        assert(c.files[5].url.take(8) =~= "https://"@);
    }
}

proof fn lemma_whisper_engine_deliverable()
    ensures
        deliverable(whisper_engine_model()),
{
    reveal_strlit("https://");
    let c = whisper_engine_model();
    assert(text::starts(c.files[0].url, "https://"@)) by {
        reveal_strlit("https://github.com/Purfview/whisper-standalone-win/releases/download/faster-whisper/Whisper-Faster_r192.3_windows.zip");
        assert(c.files[0].url.take(8) =~= "https://"@);
    }
}

proof fn lemma_whisper_tiny_deliverable()
    ensures
        deliverable(whisper_tiny_model()),
{
    reveal_strlit("https://");
    let c = whisper_tiny_model();
    assert(text::starts(c.files[0].url, "https://"@)) by {
        reveal_strlit("https://huggingface.co/Systran/faster-whisper-tiny/resolve/main/model.bin");
        assert(c.files[0].url.take(8) =~= "https://"@);
    }
    assert(text::starts(c.files[1].url, "https://"@)) by {
        reveal_strlit("https://huggingface.co/Systran/faster-whisper-tiny/resolve/main/config.json");
        assert(c.files[1].url.take(8) =~= "https://"@);
    }
    assert(text::starts(c.files[2].url, "https://"@)) by {
        reveal_strlit("https://huggingface.co/Systran/faster-whisper-tiny/resolve/main/tokenizer.json");
        assert(c.files[2].url.take(8) =~= "https://"@);
    }
    assert(text::starts(c.files[3].url, "https://"@)) by {
        reveal_strlit("https://huggingface.co/Systran/faster-whisper-tiny/resolve/main/vocabulary.txt");
        assert(c.files[3].url.take(8) =~= "https://"@);
    }
}

proof fn lemma_whisper_base_deliverable()
    ensures
        deliverable(whisper_base_model()),
{
    reveal_strlit("https://");
    let c = whisper_base_model();
    assert(text::starts(c.files[0].url, "https://"@)) by {
        reveal_strlit("https://huggingface.co/Systran/faster-whisper-base/resolve/main/model.bin");
        assert(c.files[0].url.take(8) =~= "https://"@);
    }
    assert(text::starts(c.files[1].url, "https://"@)) by {
        reveal_strlit("https://huggingface.co/Systran/faster-whisper-base/resolve/main/config.json");
        assert(c.files[1].url.take(8) =~= "https://"@);
    }
    assert(text::starts(c.files[2].url, "https://"@)) by {
        reveal_strlit("https://huggingface.co/Systran/faster-whisper-base/resolve/main/tokenizer.json");
        assert(c.files[2].url.take(8) =~= "https://"@);
    }
    assert(text::starts(c.files[3].url, "https://"@)) by {
        reveal_strlit("https://huggingface.co/Systran/faster-whisper-base/resolve/main/vocabulary.txt");
        assert(c.files[3].url.take(8) =~= "https://"@);
    }
}

proof fn lemma_whisper_small_deliverable()
    ensures
        deliverable(whisper_small_model()),
{
    reveal_strlit("https://");
    let c = whisper_small_model();
    assert(text::starts(c.files[0].url, "https://"@)) by {
        reveal_strlit("https://huggingface.co/Systran/faster-whisper-small/resolve/main/model.bin");
        assert(c.files[0].url.take(8) =~= "https://"@);
    }
    assert(text::starts(c.files[1].url, "https://"@)) by {
        reveal_strlit("https://huggingface.co/Systran/faster-whisper-small/resolve/main/config.json");
        assert(c.files[1].url.take(8) =~= "https://"@);
    }
    assert(text::starts(c.files[2].url, "https://"@)) by {
        reveal_strlit("https://huggingface.co/Systran/faster-whisper-small/resolve/main/tokenizer.json");
        assert(c.files[2].url.take(8) =~= "https://"@);
    }
    assert(text::starts(c.files[3].url, "https://"@)) by {
        reveal_strlit("https://huggingface.co/Systran/faster-whisper-small/resolve/main/vocabulary.txt");
        assert(c.files[3].url.take(8) =~= "https://"@);
    }
}

proof fn lemma_whisper_medium_deliverable()
    ensures
        deliverable(whisper_medium_model()),
{
    reveal_strlit("https://");
    let c = whisper_medium_model();
    assert(text::starts(c.files[0].url, "https://"@)) by {
        reveal_strlit("https://huggingface.co/Systran/faster-whisper-medium/resolve/main/model.bin");
        assert(c.files[0].url.take(8) =~= "https://"@);
    }
    assert(text::starts(c.files[1].url, "https://"@)) by {
        reveal_strlit("https://huggingface.co/Systran/faster-whisper-medium/resolve/main/config.json");
        assert(c.files[1].url.take(8) =~= "https://"@);
    }
    assert(text::starts(c.files[2].url, "https://"@)) by {
        reveal_strlit("https://huggingface.co/Systran/faster-whisper-medium/resolve/main/tokenizer.json");
        assert(c.files[2].url.take(8) =~= "https://"@);
    }
    assert(text::starts(c.files[3].url, "https://"@)) by {
        reveal_strlit("https://huggingface.co/Systran/faster-whisper-medium/resolve/main/vocabulary.txt");
        assert(c.files[3].url.take(8) =~= "https://"@);
    }
}

proof fn lemma_whisper_large_v3_deliverable()
    ensures
        deliverable(whisper_large_v3_model()),
{
    reveal_strlit("https://");
    let c = whisper_large_v3_model();
    assert(text::starts(c.files[0].url, "https://"@)) by {
        reveal_strlit("https://huggingface.co/Systran/faster-whisper-large-v3/resolve/main/model.bin");
        assert(c.files[0].url.take(8) =~= "https://"@);
    }
    assert(text::starts(c.files[1].url, "https://"@)) by {
        reveal_strlit("https://huggingface.co/Systran/faster-whisper-large-v3/resolve/main/config.json");
        assert(c.files[1].url.take(8) =~= "https://"@);
    }
    assert(text::starts(c.files[2].url, "https://"@)) by {
        reveal_strlit("https://huggingface.co/Systran/faster-whisper-large-v3/resolve/main/preprocessor_config.json");
        assert(c.files[2].url.take(8) =~= "https://"@);
    }
    assert(text::starts(c.files[3].url, "https://"@)) by {
        reveal_strlit("https://huggingface.co/Systran/faster-whisper-large-v3/resolve/main/tokenizer.json");
        assert(c.files[3].url.take(8) =~= "https://"@);
    }
    assert(text::starts(c.files[4].url, "https://"@)) by {
        reveal_strlit("https://huggingface.co/Systran/faster-whisper-large-v3/resolve/main/vocabulary.json");
        assert(c.files[4].url.take(8) =~= "https://"@);
    }
}

proof fn lemma_whisper_large_v3_turbo_deliverable()
    ensures
        deliverable(whisper_large_v3_turbo_model()),
{
    reveal_strlit("https://");
    let c = whisper_large_v3_turbo_model();
    assert(text::starts(c.files[0].url, "https://"@)) by {
        reveal_strlit("https://huggingface.co/deepdml/faster-whisper-large-v3-turbo-ct2/resolve/main/model.bin");
        assert(c.files[0].url.take(8) =~= "https://"@);
    }
    assert(text::starts(c.files[1].url, "https://"@)) by {
        reveal_strlit("https://huggingface.co/deepdml/faster-whisper-large-v3-turbo-ct2/resolve/main/config.json");
        assert(c.files[1].url.take(8) =~= "https://"@);
    }
    assert(text::starts(c.files[2].url, "https://"@)) by {
        reveal_strlit("https://huggingface.co/deepdml/faster-whisper-large-v3-turbo-ct2/resolve/main/preprocessor_config.json");
        assert(c.files[2].url.take(8) =~= "https://"@);
    }
    assert(text::starts(c.files[3].url, "https://"@)) by {
        reveal_strlit("https://huggingface.co/deepdml/faster-whisper-large-v3-turbo-ct2/resolve/main/tokenizer.json");
        assert(c.files[3].url.take(8) =~= "https://"@);
    }
    assert(text::starts(c.files[4].url, "https://"@)) by {
        reveal_strlit("https://huggingface.co/deepdml/faster-whisper-large-v3-turbo-ct2/resolve/main/vocabulary.json");
        assert(c.files[4].url.take(8) =~= "https://"@);
    }
}

proof fn lemma_sortformer_deliverable()
    ensures
        deliverable(sortformer_model()),
{
    reveal_strlit("https://");
    let c = sortformer_model();
    assert(text::starts(c.files[0].url, "https://"@)) by {
        reveal_strlit("https://huggingface.co/altunenes/parakeet-rs/resolve/main/diar_streaming_sortformer_4spk-v2.onnx");
        assert(c.files[0].url.take(8) =~= "https://"@);
    }
}

proof fn lemma_roformer_deliverable()
    ensures
        deliverable(roformer_model()),
{
    reveal_strlit("https://");
    let c = roformer_model();
    assert(text::starts(c.files[0].url, "https://"@)) by {
        reveal_strlit("https://huggingface.co/chenmozhijin/BSRoformer-GGUF/resolve/main/GaboxR67/MelBandRoformers/melbandroformers/vocals/voc_fv6-Q8_0.gguf");
        assert(c.files[0].url.take(8) =~= "https://"@);
    }
}

proof fn lemma_roformer_q5_deliverable()
    ensures
        deliverable(roformer_q5_model()),
{
    reveal_strlit("https://");
    let c = roformer_q5_model();
    assert(text::starts(c.files[0].url, "https://"@)) by {
        reveal_strlit("https://huggingface.co/chenmozhijin/BSRoformer-GGUF/resolve/main/GaboxR67/MelBandRoformers/melbandroformers/vocals/voc_fv6-Q5_0.gguf");
        assert(c.files[0].url.take(8) =~= "https://"@);
    }
}

proof fn lemma_roformer_q4_deliverable()
    ensures
        deliverable(roformer_q4_model()),
{
    reveal_strlit("https://");
    let c = roformer_q4_model();
    assert(text::starts(c.files[0].url, "https://"@)) by {
        reveal_strlit("https://huggingface.co/chenmozhijin/BSRoformer-GGUF/resolve/main/GaboxR67/MelBandRoformers/melbandroformers/vocals/voc_fv6-Q4_0.gguf");
        assert(c.files[0].url.take(8) =~= "https://"@);
    }
}

proof fn lemma_wespeaker_deliverable()
    ensures
        deliverable(wespeaker_model()),
{
    reveal_strlit("https://");
    let c = wespeaker_model();
    assert(text::starts(c.files[0].url, "https://"@)) by {
        reveal_strlit("https://huggingface.co/Wespeaker/wespeaker-voxceleb-resnet34-LM/resolve/main/voxceleb_resnet34_LM.onnx");
        assert(c.files[0].url.take(8) =~= "https://"@);
    }
}

proof fn lemma_bsroformer_engine_deliverable()
    ensures
        deliverable(bsroformer_engine_model()),
{
    reveal_strlit("https://");
    let c = bsroformer_engine_model();
    assert(text::starts(c.files[0].url, "https://"@)) by {
        reveal_strlit("https://github.com/chenmozhijin/BSRoformer.cpp/releases/download/v0.1.0/BSRoformer-windows-cuda-13.1.0.zip");
        assert(c.files[0].url.take(8) =~= "https://"@);
    }
}

proof fn lemma_bsroformer_engine_cpu_deliverable()
    ensures
        deliverable(bsroformer_engine_cpu_model()),
{
    reveal_strlit("https://");
    let c = bsroformer_engine_cpu_model();
    assert(text::starts(c.files[0].url, "https://"@)) by {
        reveal_strlit("https://github.com/chenmozhijin/BSRoformer.cpp/releases/download/v0.1.0/BSRoformer-windows-x64-msvc.zip");
        assert(c.files[0].url.take(8) =~= "https://"@);
    }
}

proof fn lemma_llama_deliverable()
    ensures
        deliverable(llama_model()),
{
    reveal_strlit("https://");
    let c = llama_model();
    assert(text::starts(c.files[0].url, "https://"@)) by {
        reveal_strlit("https://github.com/ggml-org/llama.cpp/releases/download/b9966/llama-b9966-bin-win-cuda-13.3-x64.zip");
        assert(c.files[0].url.take(8) =~= "https://"@);
    }
}

proof fn lemma_onnxruntime_deliverable()
    ensures
        deliverable(onnxruntime_model()),
{
    reveal_strlit("https://");
    let c = onnxruntime_model();
    assert(text::starts(c.files[0].url, "https://"@)) by {
        reveal_strlit("https://github.com/microsoft/onnxruntime/releases/download/v1.24.2/onnxruntime-win-x64-1.24.2.zip");
        assert(c.files[0].url.take(8) =~= "https://"@);
    }
}

proof fn lemma_onnxruntime_gpu_deliverable()
    ensures
        deliverable(onnxruntime_gpu_model()),
{
    reveal_strlit("https://");
    let c = onnxruntime_gpu_model();
    assert(text::starts(c.files[0].url, "https://"@)) by {
        reveal_strlit("https://github.com/microsoft/onnxruntime/releases/download/v1.24.2/onnxruntime-win-x64-gpu_cuda13-1.24.2.zip");
        assert(c.files[0].url.take(8) =~= "https://"@);
    }
}

proof fn lemma_ffmpeg_deliverable()
    ensures
        deliverable(ffmpeg_model()),
{
    reveal_strlit("https://");
    let c = ffmpeg_model();
    assert(text::starts(c.files[0].url, "https://"@)) by {
        reveal_strlit("https://github.com/BtbN/FFmpeg-Builds/releases/download/latest/ffmpeg-master-latest-win64-gpl.zip");
        assert(c.files[0].url.take(8) =~= "https://"@);
    }
}

proof fn lemma_cuda_runtime_deliverable()
    ensures
        deliverable(cuda_runtime_model()),
{
    reveal_strlit("https://");
    let c = cuda_runtime_model();
    assert(text::starts(c.files[0].url, "https://"@)) by {
        reveal_strlit("https://files.pythonhosted.org/packages/d2/27/b53a5e0397842a5c11f0e1a39d4e5b2f22638a4126e83b3c4e196f62c969/nvidia_cuda_runtime-13.3.29-py3-none-win_amd64.whl");
        assert(c.files[0].url.take(8) =~= "https://"@);
    }
    assert(text::starts(c.files[1].url, "https://"@)) by {
        reveal_strlit("https://files.pythonhosted.org/packages/08/8f/890a96ea1ff615100296977cce23296052dcb8c114d4e451201ec39df9bf/nvidia_cublas-13.6.0.2-py3-none-win_amd64.whl");
        assert(c.files[1].url.take(8) =~= "https://"@);
    }
}

proof fn lemma_cudnn_deliverable()
    ensures
        deliverable(cudnn_model()),
{
    reveal_strlit("https://");
    let c = cudnn_model();
    assert(text::starts(c.files[0].url, "https://"@)) by {
        reveal_strlit("https://files.pythonhosted.org/packages/18/d4/c09b11336981836c3183f28a6ca309e08ad080311edb6ff6c28cecdb5f24/nvidia_cudnn_cu13-9.25.0.15-py3-none-win_amd64.whl");
        assert(c.files[0].url.take(8) =~= "https://"@);
    }
}

/// Every component has what its way of delivery needs.
pub proof fn law_components_are_deliverable(i: int)
    requires
        0 <= i < manifest_model().len(),
    ensures
        deliverable(manifest_model()[i]),
{
    lemma_higgs_deliverable();
    lemma_higgs_engine_deliverable();
    lemma_gemma_deliverable();
    lemma_gemma_q5_0_deliverable();
    lemma_gemma_q6_k_deliverable();
    lemma_gemma_q8_0_deliverable();
    lemma_parakeet_deliverable();
    lemma_higgs_q6_k_deliverable();
    lemma_higgs_q4_k_m_deliverable();
    lemma_parakeet_fp32_deliverable();
    lemma_whisper_engine_deliverable();
    lemma_whisper_tiny_deliverable();
    lemma_whisper_base_deliverable();
    lemma_whisper_small_deliverable();
    lemma_whisper_medium_deliverable();
    lemma_whisper_large_v3_deliverable();
    lemma_whisper_large_v3_turbo_deliverable();
    lemma_sortformer_deliverable();
    lemma_roformer_deliverable();
    lemma_roformer_q5_deliverable();
    lemma_roformer_q4_deliverable();
    lemma_wespeaker_deliverable();
    lemma_bsroformer_engine_deliverable();
    lemma_bsroformer_engine_cpu_deliverable();
    lemma_llama_deliverable();
    lemma_onnxruntime_deliverable();
    lemma_onnxruntime_gpu_deliverable();
    lemma_ffmpeg_deliverable();
    lemma_cuda_runtime_deliverable();
    lemma_cudnn_deliverable();
}

/// The size of the first `n` files together.
pub open spec fn files_size(fs: Seq<FileModel>, n: int) -> int
    decreases n,
{
    if n <= 0 {
        0
    } else {
        files_size(fs, n - 1) + fs[n - 1].size
    }
}

/// The size of each file is known: none comes from a release that rolls on.
pub open spec fn sizes_known(fs: Seq<FileModel>) -> bool {
    forall|k: int| 0 <= k < fs.len() ==> (#[trigger] fs[k]).size != 0
}

/// A downloaded component is as large as its files together, where the size of each is known.
pub proof fn law_size_is_that_of_the_files(i: int)
    requires
        0 <= i < manifest_model().len(),
        manifest_model()[i].delivery == Delivery::Download,
        sizes_known(manifest_model()[i].files),
    ensures
        manifest_model()[i].size == files_size(
            manifest_model()[i].files,
            manifest_model()[i].files.len() as int,
        ),
{
    reveal_with_fuel(files_size, 7);
    let fs = manifest_model()[i].files;
    assert(fs.len() > 0 ==> fs[0].size != 0);
    assert(fs.len() > 1 ==> fs[1].size != 0);
    assert(fs.len() > 2 ==> fs[2].size != 0);
    assert(fs.len() > 3 ==> fs[3].size != 0);
    assert(fs.len() > 4 ==> fs[4].size != 0);
    assert(fs.len() > 5 ==> fs[5].size != 0);
}

/// No component is larger than this.
pub const SIZE_LIMIT: u64 = 20_000_000_000;

pub proof fn lemma_sizes(i: int)
    requires
        0 <= i < manifest_model().len(),
    ensures
        manifest_model()[i].size <= SIZE_LIMIT,
{
}

} // verus!
