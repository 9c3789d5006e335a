//! The settings kept in the settings file, and what loading them yields.
use vstd::prelude::*;

verus! {

/// SMTP port used when the settings name none (submission with STARTTLS).
pub const DEFAULT_SMTP_PORT: u16 = 587;

/// Everything the settings page stores.
#[derive(Debug, Clone)]
pub struct StoredSettings {
    pub llm_base_url: String,
    pub llm_api_key: String,
    pub llm_model: String,
    pub system_prompt: String,
    pub smtp_host: String,
    pub smtp_port: u16,
    pub smtp_username: String,
    pub smtp_password: String,
    pub from_email: String,
    pub resume_profile: String,
    /// Appended at the end of the user message (nothing when empty).
    pub email_user_suffix_prompt: String,
    /// Whether requests carry `web_search_options` (web search through the gateway).
    pub enable_gemini_google_search: bool,
    /// `low`, `medium` or `high`.
    pub gemini_web_search_context_size: String,
}

/// Every text setting of `s` except the web search context size is empty, and web
/// search is off.
pub open spec fn blank_except_port_and_context(s: StoredSettings) -> bool {
    &&& s.llm_base_url@.len() == 0
    &&& s.llm_api_key@.len() == 0
    &&& s.llm_model@.len() == 0
    &&& s.system_prompt@.len() == 0
    &&& s.smtp_host@.len() == 0
    &&& s.smtp_username@.len() == 0
    &&& s.smtp_password@.len() == 0
    &&& s.from_email@.len() == 0
    &&& s.resume_profile@.len() == 0
    &&& s.email_user_suffix_prompt@.len() == 0
    &&& !s.enable_gemini_google_search
}

/// `r` holds the settings `s`, every field but the port equal.
pub open spec fn same_settings_but_port(r: StoredSettings, s: StoredSettings) -> bool {
    &&& r.llm_base_url@ == s.llm_base_url@
    &&& r.llm_api_key@ == s.llm_api_key@
    &&& r.llm_model@ == s.llm_model@
    &&& r.system_prompt@ == s.system_prompt@
    &&& r.smtp_host@ == s.smtp_host@
    &&& r.smtp_username@ == s.smtp_username@
    &&& r.smtp_password@ == s.smtp_password@
    &&& r.from_email@ == s.from_email@
    &&& r.resume_profile@ == s.resume_profile@
    &&& r.email_user_suffix_prompt@ == s.email_user_suffix_prompt@
    &&& r.enable_gemini_google_search == s.enable_gemini_google_search
    &&& r.gemini_web_search_context_size@ == s.gemini_web_search_context_size@
}

/// The settings yielded by loading: the defaults when there is no settings file, else
/// the stored settings with a port of 0 replaced by the default port.
pub open spec fn loaded_settings(r: StoredSettings, stored: Option<StoredSettings>) -> bool {
    match stored {
        None => {
            &&& blank_except_port_and_context(r)
            &&& r.smtp_port == DEFAULT_SMTP_PORT
            &&& r.gemini_web_search_context_size@ == "medium"@
        },
        Some(s) => {
            &&& same_settings_but_port(r, s)
            &&& r.smtp_port == (if s.smtp_port == 0 {
                DEFAULT_SMTP_PORT
            } else {
                s.smtp_port
            })
        },
    }
}

/// The web search context size a settings file without one gets.
pub fn default_gemini_web_search_context_size() -> (r: String)
    ensures
        r@ == "medium"@,
{
    String::from_str("medium")
}

impl Default for StoredSettings {
    /// Empty texts, port 0, web search off.
    fn default() -> (r: StoredSettings)
        ensures
            blank_except_port_and_context(r),
            r.smtp_port == 0,
            r.gemini_web_search_context_size@.len() == 0,
    {
        StoredSettings {
            llm_base_url: String::new(),
            llm_api_key: String::new(),
            llm_model: String::new(),
            system_prompt: String::new(),
            smtp_host: String::new(),
            smtp_port: 0,
            smtp_username: String::new(),
            smtp_password: String::new(),
            from_email: String::new(),
            resume_profile: String::new(),
            email_user_suffix_prompt: String::new(),
            enable_gemini_google_search: false,
            gemini_web_search_context_size: String::new(),
        }
    }
}

/// The settings yielded by loading: `stored` is what the settings file holds, `None`
/// when there is no such file.
pub fn settings_from_file(stored: Option<StoredSettings>) -> (r: StoredSettings)
    ensures
        loaded_settings(r, stored),
        r.smtp_port != 0,
{
    match stored {
        None => {
            let mut s = StoredSettings::default();
            s.smtp_port = DEFAULT_SMTP_PORT;
            s.gemini_web_search_context_size = default_gemini_web_search_context_size();
            s
        },
        Some(mut s) => {
            if s.smtp_port == 0 {
                s.smtp_port = DEFAULT_SMTP_PORT;
            }
            s
        },
    }
}


/// Loading keeps what the settings file holds: every text and flag is the stored one,
/// and the port is the stored one unless that is 0, which becomes the default port.
/// Without a file, the port is the default port and web search is off.
pub proof fn loading_keeps_stored_settings(r: StoredSettings, stored: Option<StoredSettings>)
    requires
        loaded_settings(r, stored),
    ensures
        r.smtp_port != 0,
        stored is None ==> r.smtp_port == DEFAULT_SMTP_PORT && !r.enable_gemini_google_search,
        stored matches Some(s) ==> {
            &&& r.llm_base_url@ == s.llm_base_url@
            &&& r.llm_api_key@ == s.llm_api_key@
            &&& r.llm_model@ == s.llm_model@
            &&& r.system_prompt@ == s.system_prompt@
            &&& r.smtp_host@ == s.smtp_host@
            &&& r.smtp_username@ == s.smtp_username@
            &&& r.smtp_password@ == s.smtp_password@
            &&& r.from_email@ == s.from_email@
            &&& r.resume_profile@ == s.resume_profile@
            &&& r.email_user_suffix_prompt@ == s.email_user_suffix_prompt@
            &&& r.enable_gemini_google_search == s.enable_gemini_google_search
            &&& r.gemini_web_search_context_size@ == s.gemini_web_search_context_size@
            &&& s.smtp_port != 0 ==> r.smtp_port == s.smtp_port
        },
{
}

/// Loading what a load yielded yields it again.
pub proof fn loading_is_stable(r: StoredSettings, stored: Option<StoredSettings>, r2: StoredSettings)
    requires
        loaded_settings(r, stored),
        loaded_settings(r2, Some(r)),
    ensures
        same_settings_but_port(r2, r),
        r2.smtp_port == r.smtp_port,
{
}

} // verus!
