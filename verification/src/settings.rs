//! Saving the model settings: the settings a save request stands for, the key
//! to keep in the keyring, and the device-bound passphrase of the encrypted
//! fallback store.

use vstd::prelude::*;

use crate::config::{provider_of_text, LlmConfig, Provider};
use crate::entities::opt_chars;
use crate::text::{chars_of, push_text, string_of};

verus! {

/// A save request for the model settings. The API key only passes through on
/// its way to the keyring.
#[derive(Debug, Clone)]
pub struct SaveLlmConfigInput {
    /// "ollama" or "openai_compat".
    pub provider: String,
    pub base_url: String,
    pub embed_model: Option<String>,
    pub gen_model: Option<String>,
    pub api_key: Option<String>,
    pub enabled: bool,
}

/// The settings a save request stands for (the key flag is decided once the
/// key is stored); an unknown provider is refused.
pub fn config_from_input(input: SaveLlmConfigInput) -> (r: Result<LlmConfig, String>)
    ensures
        match provider_of_text(input.provider@) {
            None => r matches Err(m) && m@ == "未知 provider: "@ + input.provider@,
            Some(p) => r matches Ok(c) && c.provider == Some(p) && opt_chars(c.base_url) == Some(input.base_url@)
                && c.embed_model == input.embed_model && c.gen_model == input.gen_model && c.enabled == input.enabled
                && !c.has_api_key,
        },
{
    match Provider::from_str(input.provider.as_str()) {
        None => {
            let mut m = chars_of("未知 provider: ");
            push_text(&mut m, input.provider.as_str());
            Err(string_of(m.as_slice()))
        },
        Some(p) => Ok(
            LlmConfig {
                provider: Some(p),
                base_url: Some(input.base_url),
                embed_model: input.embed_model,
                gen_model: input.gen_model,
                enabled: input.enabled,
                has_api_key: false,
            },
        ),
    }
}

/// The key to store: a given, non-empty key; none otherwise (the stored key
/// is then left as it is).
pub fn key_to_store(api_key: &Option<String>) -> (r: Option<String>)
    ensures
        match api_key {
            Some(k) => if k@.len() > 0 {
                r matches Some(s) && s@ == k@
            } else {
                r is None
            },
            None => r is None,
        },
{
    match api_key {
        Some(k) => {
            let cs = chars_of(k.as_str());
            if cs.len() > 0 {
                Some(k.clone())
            } else {
                None
            }
        },
        None => None,
    }
}

/// The device-bound passphrase: a fixed prefix and the host name ("unknown"
/// when the system gives none).
pub open spec fn passphrase_of(host: Option<Seq<char>>) -> Seq<char> {
    "aidms-local-v1|"@ + match host {
        Some(h) => h,
        None => "unknown"@,
    }
}

pub fn device_passphrase(host: Option<String>) -> (r: String)
    ensures
        r@ == passphrase_of(opt_chars(host)),
{
    let mut v = chars_of("aidms-local-v1|");
    match host {
        Some(h) => push_text(&mut v, h.as_str()),
        None => push_text(&mut v, "unknown"),
    }
    string_of(v.as_slice())
}

/// Why a key could be kept neither in the keyring nor in the fallback store.
pub open spec fn key_store_failure(fallback_error: Seq<char>) -> Seq<char> {
    "密钥存储失败：系统 keychain 不可用且本地加密兜底失败（请安装 gnome-keyring 或 libsecret），"@ + fallback_error
}

pub fn key_store_failure_message(fallback_error: &str) -> (r: String)
    ensures
        r@ == key_store_failure(fallback_error@),
{
    let mut v = chars_of("密钥存储失败：系统 keychain 不可用且本地加密兜底失败（请安装 gnome-keyring 或 libsecret），");
    push_text(&mut v, fallback_error);
    string_of(v.as_slice())
}

} // verus!
