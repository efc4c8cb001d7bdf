//! Who answers a request to a language model: a program on the machine or the cloud.

use crate::text;
use vstd::prelude::*;

verus! {

/// What is asked: words alone, or pictures too.
#[derive(Clone, Copy, Debug, PartialEq, Eq, Structural)]
pub enum LlmMode {
    Text,
    Vision,
}

/// What is known of the machine and the settings.
pub struct LlmOpen<'a> {
    pub llama_bin: &'a str,
    pub mt_model: &'a str,
    pub mmproj: &'a str,
    pub llama_bin_there: bool,
    pub mt_model_there: bool,
    pub mmproj_there: bool,
    /// The cloud is switched on for this kind of request.
    pub cloud_on: bool,
    pub key: Option<&'a str>,
    /// The model of the cloud, empty where none was chosen.
    pub cloud_model: &'a str,
}

/// Who answers.
#[derive(Clone, Copy, Debug, PartialEq, Eq, Structural)]
pub enum Provider {
    /// The cloud.
    Remote,
    /// The program on the machine, with the part that sees or without.
    Local { eyes: bool },
}

/// The name of the settings for this kind of request.
pub fn stage_name(mode: LlmMode) -> (r: &'static str)
    ensures
        r@ == if mode == LlmMode::Vision {
            "vision"@
        } else {
            "llm"@
        },
{
    match mode {
        LlmMode::Vision => "vision",
        LlmMode::Text => "llm",
    }
}

/// Whether the cloud can be asked: it is switched on, there is a key, and a model was chosen.
pub open spec fn cloud_ready(o: LlmOpen) -> bool {
    o.cloud_on && (o.key matches Some(k) && k@.len() > 0) && text::trimmed(o.cloud_model@).len() > 0
}

/// Who answers, or why nobody can: the cloud where it can be asked, else the machine.
pub open spec fn provider_of(o: LlmOpen, mode: LlmMode) -> Result<Provider, Seq<char>> {
    if cloud_ready(o) {
        Ok(Provider::Remote)
    } else if !o.llama_bin_there {
        Err("llama-server не найден ("@ + o.llama_bin@ + ")"@)
    } else if !o.mt_model_there {
        Err("GGUF Gemma не найден ("@ + o.mt_model@ + ")"@)
    } else {
        Ok(Provider::Local { eyes: mode == LlmMode::Vision && o.mmproj_there })
    }
}

/// Who answers, or why nobody can.
pub fn open(o: &LlmOpen, mode: LlmMode) -> (r: Result<Provider, String>)
    ensures
        (match r {
            Ok(p) => Ok(p),
            Err(e) => Err(e@),
        }) == provider_of(*o, mode),
{
    let keyed = match o.key {
        Some(k) => !k.is_empty(),
        None => false,
    };
    if o.cloud_on && keyed && !text::blank(o.cloud_model) {
        return Ok(Provider::Remote);
    }
    if !o.llama_bin_there {
        let mut m = "llama-server не найден (".to_owned();
        m.append(o.llama_bin);
        m.append(")");
        return Err(m);
    }
    if !o.mt_model_there {
        let mut m = "GGUF Gemma не найден (".to_owned();
        m.append(o.mt_model);
        m.append(")");
        return Err(m);
    }
    let vision = matches!(mode, LlmMode::Vision);
    Ok(Provider::Local { eyes: vision && o.mmproj_there })
}

impl Provider {
    /// Whether the cloud answers.
    pub fn is_remote(&self) -> (r: bool)
        ensures
            r == (*self == Provider::Remote),
    {
        matches!(self, Provider::Remote)
    }
}

/// The cloud answers only with a key and a model.
pub proof fn law_cloud_needs_key_and_model(o: LlmOpen, mode: LlmMode)
    ensures
        provider_of(o, mode) == Ok::<Provider, Seq<char>>(Provider::Remote) ==> o.cloud_on && (o.key matches Some(
            k,
        ) && k@.len() > 0) && text::trimmed(o.cloud_model@).len() > 0,
{
}

/// Where the cloud cannot be asked, the machine answers if its program and its model are there.
pub proof fn law_local_without_cloud(o: LlmOpen, mode: LlmMode)
    requires
        !cloud_ready(o),
        o.llama_bin_there,
        o.mt_model_there,
    ensures
        provider_of(o, mode) == Ok::<Provider, Seq<char>>(
            Provider::Local { eyes: mode == LlmMode::Vision && o.mmproj_there },
        ),
{
}

/// Who answers. The cloud does where it is switched on with a key and a model. Else the machine does, with its eyes for
/// pictures where the projector is there, and where its program or its model is missing nobody can.
pub proof fn law_who_answers(o: LlmOpen, mode: LlmMode)
    ensures
        ({
            let cloud = o.cloud_on && o.key is Some && o.key->0@.len() > 0 && text::trimmed(o.cloud_model@).len() > 0;
            &&& cloud ==> provider_of(o, mode) == Ok::<Provider, Seq<char>>(Provider::Remote)
            &&& !cloud ==> (provider_of(o, mode) is Ok <==> o.llama_bin_there && o.mt_model_there)
            &&& !cloud && o.llama_bin_there && o.mt_model_there ==> provider_of(o, mode) == Ok::<Provider, Seq<char>>(
                Provider::Local { eyes: mode == LlmMode::Vision && o.mmproj_there },
            )
            &&& !cloud && !o.llama_bin_there ==> provider_of(o, mode) == Err::<Provider, Seq<char>>(
                "llama-server не найден ("@ + o.llama_bin@ + ")"@,
            )
            &&& !cloud && o.llama_bin_there && !o.mt_model_there ==> provider_of(o, mode) == Err::<Provider, Seq<char>>(
                "GGUF Gemma не найден ("@ + o.mt_model@ + ")"@,
            )
        }),
{
}

} // verus!
