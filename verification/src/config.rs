//! Settings and the API key.

use crate::paths;
use crate::text;
use vstd::prelude::*;
use vstd::string::*;

verus! {

/// Non-secret settings.
#[derive(Debug, Clone, PartialEq)]
pub struct Settings {
    /// Which API the agent speaks; anything unknown means Z.AI.
    pub provider: String,
    pub base_url: String,
    pub model: String,
    /// When false (default), the model cannot run raw shell or AppleScript: only
    /// enabled workflows and safe built-ins. When true, the raw execution tools
    /// are offered to power users who accept the risk.
    pub developer_mode: bool,
    /// The active transcription model.
    pub stt_model: String,
}

/// Are these the settings of someone who has saved none?
pub open spec fn is_default(s: Settings) -> bool {
    &&& s.provider@ == Seq::<char>::empty()
    &&& s.base_url@ == "https://api.z.ai/api/anthropic"@
    &&& s.model@ == "glm-5.2"@
    &&& !s.developer_mode
    &&& s.stt_model@ == "parakeet-v2"@
}

impl Default for Settings {
    fn default() -> (r: Self)
        ensures
            is_default(r),
    {
        Settings {
            provider: String::new(),
            base_url: "https://api.z.ai/api/anthropic".to_owned(),
            model: "glm-5.2".to_owned(),
            developer_mode: false,
            stt_model: "parakeet-v2".to_owned(),
        }
    }
}

/// Everything the agent needs to make a request.
#[derive(Debug, Clone, PartialEq)]
pub struct AgentConfig {
    pub provider: String,
    pub base_url: String,
    pub model: String,
    pub api_key: String,
}

/// Where the settings are kept.
pub fn settings_path(config_dir: &str) -> (r: String)
    ensures
        r@ == paths::below(config_dir@, "settings.json"@),
{
    paths::join(config_dir, "settings.json")
}

/// Where the API key is kept.
pub fn key_path(config_dir: &str) -> (r: String)
    ensures
        r@ == paths::below(config_dir@, "api_key"@),
{
    paths::join(config_dir, "api_key")
}

/// The settings to work with: those that could be read, or else the defaults.
pub fn load_settings(stored: Option<Settings>) -> (r: Settings)
    ensures
        match stored {
            Some(s) => r == s,
            None => is_default(r),
        },
{
    match stored {
        Some(s) => s,
        None => Settings::default(),
    }
}

/// The key that a stored key file holds: its text without the whitespace around
/// it, and none where nothing is left.
pub open spec fn key_in(stored: Option<Seq<char>>) -> Option<Seq<char>> {
    match stored {
        Some(s) => if text::trimmed(s).len() > 0 {
            Some(text::trimmed(s))
        } else {
            None
        },
        None => None,
    }
}

pub fn get_key(stored: Option<String>) -> (r: Option<String>)
    ensures
        text::opt_view(r) == key_in(text::opt_view(stored)),
{
    match stored {
        Some(s) => {
            let t = text::trim(s.as_str());
            if t.as_str().is_empty() {
                None
            } else {
                Some(t)
            }
        },
        None => None,
    }
}

/// What is written to the key file for a key.
pub fn set_key(key: &str) -> (r: String)
    ensures
        r@ == text::trimmed(key@),
{
    text::trim(key)
}

/// The key that comes with saved settings and is to be stored.
pub open spec fn entered_key(api_key: Option<String>) -> Option<String> {
    match api_key {
        Some(k) => if k@.len() > 0 {
            Some(k)
        } else {
            None
        },
        None => None,
    }
}

/// The key that comes with saved settings and is to be stored: none where the
/// field was left empty.
pub fn key_to_store(api_key: Option<String>) -> (r: Option<String>)
    ensures
        r == entered_key(api_key),
{
    match api_key {
        Some(k) => if k.as_str().is_empty() {
            None
        } else {
            Some(k)
        },
        None => None,
    }
}

/// The settings as they are shown: with whether there is a key, and without it.
#[derive(Debug)]
pub struct SettingsView {
    pub provider: String,
    pub base_url: String,
    pub model: String,
    pub has_key: bool,
    pub developer_mode: bool,
}

/// How the settings are shown.
pub open spec fn shown_settings(s: Settings, stored_key: Option<String>) -> SettingsView {
    SettingsView {
        provider: s.provider,
        base_url: s.base_url,
        model: s.model,
        has_key: key_in(text::opt_view(stored_key)) is Some,
        developer_mode: s.developer_mode,
    }
}

pub fn get_settings(s: Settings, stored_key: Option<String>) -> (r: SettingsView)
    ensures
        r == shown_settings(s, stored_key),
{
    SettingsView {
        provider: s.provider,
        base_url: s.base_url,
        model: s.model,
        has_key: get_key(stored_key).is_some(),
        developer_mode: s.developer_mode,
    }
}

/// What the agent works with.
pub open spec fn agent_config(s: Settings, key: Option<String>) -> Option<AgentConfig> {
    match key {
        Some(k) => Some(
            AgentConfig {
                provider: s.provider,
                base_url: s.base_url,
                model: s.model,
                api_key: k,
            },
        ),
        None => None,
    }
}

/// What the agent works with; none where no key is configured.
pub fn load_agent_config(s: Settings, key: Option<String>) -> (r: Option<AgentConfig>)
    ensures
        r == agent_config(s, key),
{
    match key {
        Some(api_key) => Some(
            AgentConfig { provider: s.provider, base_url: s.base_url, model: s.model, api_key },
        ),
        None => None,
    }
}

/// Reading back a stored key gives the key without the whitespace around it, and
/// none exactly where there is nothing else in it.
pub proof fn law_key_round_trip(key: Seq<char>)
    ensures
        key_in(Some(text::trimmed(key))) == key_in(Some(key)),
{
    text::lemma_trimmed_idempotent(key);
}

/// A stored key is the text between the whitespace; a file with nothing else in it holds
/// none, and so does a file that is not there.
pub proof fn law_keys_are_found(before: Seq<char>, key: Seq<char>, behind: Seq<char>)
    requires
        forall|i: int| 0 <= i < before.len() ==> text::whitespace(#[trigger] before[i]),
        forall|i: int| 0 <= i < behind.len() ==> text::whitespace(#[trigger] behind[i]),
        key.len() > 0 ==> !text::whitespace(key[0]) && !text::whitespace(key.last()),
    ensures
        key.len() > 0 ==> key_in(Some(before + key + behind)) == Some(key),
        key.len() == 0 ==> key_in(Some(before + key + behind)) is None,
        key_in(None) is None,
        text::trimmed(before + key + behind) == key,
{
    text::law_trimming_ignores_whitespace(before, key, behind);
    if key.len() == 0 {
        assert(text::trimmed(key) =~= key);
    }
}

/// The agent works with the provider, the address and the model of the settings and with
/// the key, exactly where there is one.
pub proof fn law_agent_works_with_the_settings(s: Settings, key: Option<String>)
    ensures
        agent_config(s, key) is Some <==> key is Some,
        agent_config(s, key) matches Some(c) ==> {
            &&& c.provider == s.provider
            &&& c.base_url == s.base_url
            &&& c.model == s.model
            &&& Some(c.api_key) == key
        },
{
}

/// The settings are shown as they are, and a key as there exactly where the stored text
/// holds anything but whitespace. Of the key itself nothing more is shown.
pub proof fn law_settings_are_shown(s: Settings, stored_key: Option<String>, other: Option<String>)
    ensures
        ({
            let v = shown_settings(s, stored_key);
            &&& v.provider == s.provider && v.base_url == s.base_url && v.model == s.model
            &&& v.developer_mode == s.developer_mode
            &&& stored_key is None ==> !v.has_key
            &&& stored_key matches Some(k) ==> (v.has_key <==> exists|i: int|
                0 <= i < k@.len() && !text::whitespace(#[trigger] k@[i]))
            &&& shown_settings(s, other).has_key == v.has_key ==> shown_settings(s, other) == v
        }),
{
    if let Some(k) = stored_key {
        text::law_blank(k@);
    }
}

/// A key that was entered is stored as it was entered; a field that was left empty, or
/// was not there, stores none.
pub proof fn law_entered_keys_are_stored(api_key: Option<String>)
    ensures
        entered_key(api_key) is Some <==> api_key is Some && api_key->0@.len() > 0,
        entered_key(api_key) is Some ==> entered_key(api_key) == api_key,
{
}

} // verus!
