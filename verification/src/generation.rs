//! The chat completion request that asks the model for an email, and what is read
//! back from the reply.
use vstd::prelude::*;

use crate::text::{
    ascii_lower, chars_of, ends_with, folds_to, folds_to_in, starts_with, lemma_suffix_len_while_facts, lemma_trim_fixed,
    same_as, suffix_len_while, trim, trim_end_char, trim_end_char_str, trim_str, truncate_chars,
    truncate_str,
};

verus! {

/// Characters of the personal profile sent with a request.
pub const MAX_RESUME_PROFILE_CHARS: usize = 8000;

/// Characters of the user's closing instructions sent with a request.
pub const MAX_EMAIL_USER_SUFFIX_PROMPT_CHARS: usize = 120000;

/// Heading of the personal profile in the user message.
pub const PROFILE_HEADING: &'static str = "【个人简介】\n";

/// Heading of the job description in the user message.
pub const JD_HEADING: &'static str = "【岗位描述 / 团队信息】\n";

/// Heading of the strategy Markdown in the user message, with the blank line before it.
pub const STRATEGY_HEADING: &'static str = "\n\n【投递策略资产（Markdown）】\n";

/// The blank line between blocks of the user message.
pub const BLOCK_BREAK: &'static str = "\n\n";

/// Path appended to the base URL of an OpenAI-compatible API.
pub const CHAT_COMPLETIONS_PATH: &'static str = "/chat/completions";

/// Error when the reply holds no choice.
pub const NO_CHOICES_ERROR: &'static str = "响应无 choices";

/// Connection and prompt settings of the model API.
#[derive(Debug, Clone)]
pub struct LlmConfig {
    pub base_url: String,
    pub api_key: String,
    pub model: String,
    pub system_prompt: String,
}

/// One message of a chat completion request.
#[derive(Debug, Clone)]
pub struct ChatMessage {
    pub role: String,
    pub content: String,
}

/// The `web_search_options` of a request (web search through the gateway).
#[derive(Debug, Clone)]
pub struct WebSearchOptionsBody {
    pub search_context_size: String,
}

/// The JSON body of a chat completion request; the sampling temperature, a fixed
/// number, is added where the body is serialised.
#[derive(Debug)]
pub struct ChatCompletionRequest {
    pub model: String,
    pub messages: Vec<ChatMessage>,
    pub max_tokens: Option<u32>,
    pub web_search_options: Option<WebSearchOptionsBody>,
}

/// Everything needed to send the generation request.
#[derive(Debug)]
pub struct GenerationRequest {
    /// The chat completions endpoint.
    pub url: String,
    /// The value of the `Authorization` header.
    pub authorization: String,
    pub body: ChatCompletionRequest,
}

/// The message of a choice in a chat completion reply.
#[derive(Debug)]
pub struct ChatMsg {
    pub content: String,
}

/// One choice of a chat completion reply.
#[derive(Debug)]
pub struct ChatChoice {
    pub message: ChatMsg,
}

/// A chat completion reply.
#[derive(Debug)]
pub struct ChatCompletionResponse {
    pub choices: Vec<ChatChoice>,
}

/// The web search context size for a setting: "low" or "high" when the trimmed
/// setting is that word in any letter case, else "medium".
///
/// The setting is compared after `str::to_lowercase`; the only characters whose lower
/// case is one of the letters of "low" and "high" are those ASCII letters in either case,
/// so folding ASCII letters decides the same.
pub open spec fn context_size_for(raw: Seq<char>) -> Seq<char> {
    let t = trim(raw);
    if folds_to(t, "low"@) {
        "low"@
    } else if folds_to(t, "high"@) {
        "high"@
    } else {
        "medium"@
    }
}

/// The base URL without surrounding white space and without trailing slashes.
pub open spec fn normalized_base_url(base: Seq<char>) -> Seq<char> {
    trim_end_char(trim(base), '/')
}

/// The chat completions endpoint under a base URL.
pub open spec fn chat_completions_url(base: Seq<char>) -> Seq<char> {
    normalized_base_url(base) + CHAT_COMPLETIONS_PATH@
}

/// The user message: the personal profile when there is one, then the job description
/// and the strategy, each under its heading, then the user's closing instructions after a
/// blank line when there are any. The profile and the instructions are trimmed and cut to
/// their limits; the job description and the strategy are trimmed.
pub open spec fn user_message(
    jd_text: Seq<char>,
    strategy_markdown: Seq<char>,
    resume_profile: Seq<char>,
    email_user_suffix_prompt: Seq<char>,
) -> Seq<char> {
    let tail = truncate_chars(
        trim(email_user_suffix_prompt),
        MAX_EMAIL_USER_SUFFIX_PROMPT_CHARS as nat,
    );
    let suffix_part = if tail.len() == 0 {
        Seq::<char>::empty()
    } else {
        BLOCK_BREAK@ + tail
    };
    let resume = truncate_chars(trim(resume_profile), MAX_RESUME_PROFILE_CHARS as nat);
    let main = JD_HEADING@ + trim(jd_text) + STRATEGY_HEADING@ + trim(strategy_markdown)
        + suffix_part;
    if resume.len() == 0 {
        main
    } else {
        PROFILE_HEADING@ + resume + BLOCK_BREAK@ + main
    }
}

/// `m` has the role `role` and the content `content`.
pub open spec fn message_is(m: ChatMessage, role: Seq<char>, content: Seq<char>) -> bool {
    m.role@ == role && m.content@ == content
}

/// `messages` are the system prompt, when it is not blank, then the user message.
pub open spec fn messages_for(
    messages: Seq<ChatMessage>,
    system_prompt: Seq<char>,
    user_content: Seq<char>,
) -> bool {
    if trim(system_prompt).len() > 0 {
        &&& messages.len() == 2
        &&& message_is(messages[0], "system"@, system_prompt)
        &&& message_is(messages[1], "user"@, user_content)
    } else {
        &&& messages.len() == 1
        &&& message_is(messages[0], "user"@, user_content)
    }
}

/// The web search options sent for the two settings: none when disabled.
pub open spec fn web_search_for(
    opts: Option<WebSearchOptionsBody>,
    enabled: bool,
    context_size: Seq<char>,
) -> bool {
    match opts {
        Some(o) => enabled && o.search_context_size@ == context_size_for(context_size),
        None => !enabled,
    }
}

/// `req` is the generation request for these inputs.
pub open spec fn generation_request_for(
    req: GenerationRequest,
    llm: LlmConfig,
    jd_text: Seq<char>,
    strategy_markdown: Seq<char>,
    resume_profile: Seq<char>,
    email_user_suffix_prompt: Seq<char>,
    enable_gemini_google_search: bool,
    gemini_web_search_context_size: Seq<char>,
) -> bool {
    &&& req.url@ == chat_completions_url(llm.base_url@)
    &&& req.authorization@ == "Bearer "@ + trim(llm.api_key@)
    &&& req.body.model@ == llm.model@
    &&& messages_for(
        req.body.messages@,
        llm.system_prompt@,
        user_message(jd_text, strategy_markdown, resume_profile, email_user_suffix_prompt),
    )
    &&& req.body.max_tokens is None
    &&& web_search_for(
        req.body.web_search_options,
        enable_gemini_google_search,
        gemini_web_search_context_size,
    )
}

/// The web search context size for a setting (see `context_size_for`).
pub fn normalize_web_search_context_size(raw: &str) -> (r: String)
    ensures
        r@ == context_size_for(raw@),
{
    let v = chars_of(trim_str(raw));
    if folds_to_in(&v, &chars_of("low")) {
        String::from_str("low")
    } else if folds_to_in(&v, &chars_of("high")) {
        String::from_str("high")
    } else {
        String::from_str("medium")
    }
}

/// The web search options to send: none when web search is disabled.
pub fn web_search_options_if_enabled(enabled: bool, context_size: &str) -> (r: Option<
    WebSearchOptionsBody,
>)
    ensures
        web_search_for(r, enabled, context_size@),
{
    if !enabled {
        return None;
    }
    Some(WebSearchOptionsBody { search_context_size: normalize_web_search_context_size(context_size) })
}

/// The base URL without surrounding white space and without trailing slashes.
pub fn normalize_base_url(base: &str) -> (r: String)
    ensures
        r@ == normalized_base_url(base@),
{
    String::from_str(trim_end_char_str(trim_str(base), '/'))
}

/// The user message (see `user_message`).
pub fn build_user_content(
    jd_text: &str,
    strategy_markdown: &str,
    resume_profile: &str,
    email_user_suffix_prompt: &str,
) -> (r: String)
    ensures
        r@ == user_message(jd_text@, strategy_markdown@, resume_profile@, email_user_suffix_prompt@),
{
    let tail_block = truncate_str(trim_str(email_user_suffix_prompt), MAX_EMAIL_USER_SUFFIX_PROMPT_CHARS);
    let suffix_part = if tail_block.as_str().unicode_len() == 0 {
        String::new()
    } else {
        String::from_str(BLOCK_BREAK).concat(tail_block.as_str())
    };
    let resume = truncate_str(trim_str(resume_profile), MAX_RESUME_PROFILE_CHARS);
    let main = String::from_str(JD_HEADING).concat(trim_str(jd_text)).concat(STRATEGY_HEADING).concat(
        trim_str(strategy_markdown),
    ).concat(suffix_part.as_str());
    if resume.as_str().unicode_len() == 0 {
        main
    } else {
        String::from_str(PROFILE_HEADING).concat(resume.as_str()).concat(BLOCK_BREAK).concat(
            main.as_str(),
        )
    }
}

/// The messages of the request: the system prompt, when it is not blank, then the
/// user message.
pub fn build_messages(system_prompt: String, user_content: String) -> (r: Vec<ChatMessage>)
    ensures
        messages_for(r@, system_prompt@, user_content@),
{
    let mut messages: Vec<ChatMessage> = Vec::new();
    if trim_str(system_prompt.as_str()).unicode_len() > 0 {
        messages.push(ChatMessage { role: String::from_str("system"), content: system_prompt });
    }
    messages.push(ChatMessage { role: String::from_str("user"), content: user_content });
    messages
}

/// The generation request for the settings and inputs of the generate command.
pub fn prepare_generation_request(
    llm: LlmConfig,
    jd_text: &str,
    strategy_markdown: &str,
    resume_profile: &str,
    email_user_suffix_prompt: &str,
    enable_gemini_google_search: bool,
    gemini_web_search_context_size: &str,
) -> (req: GenerationRequest)
    ensures
        generation_request_for(
            req,
            llm,
            jd_text@,
            strategy_markdown@,
            resume_profile@,
            email_user_suffix_prompt@,
            enable_gemini_google_search,
            gemini_web_search_context_size@,
        ),
{
    let url = normalize_base_url(llm.base_url.as_str()).concat(CHAT_COMPLETIONS_PATH);
    let key = trim_str(trim_str(llm.api_key.as_str()));
    proof {
        crate::text::trim_is_idempotent(llm.api_key@);
    }
    let authorization = String::from_str("Bearer ").concat(key);
    let web_search_options = web_search_options_if_enabled(
        enable_gemini_google_search,
        gemini_web_search_context_size,
    );
    let user_content = build_user_content(
        jd_text,
        strategy_markdown,
        resume_profile,
        email_user_suffix_prompt,
    );
    let messages = build_messages(llm.system_prompt, user_content);
    GenerationRequest {
        url,
        authorization,
        body: ChatCompletionRequest {
            model: llm.model,
            messages,
            max_tokens: None,
            web_search_options,
        },
    }
}

/// The content of the first choice of a reply; an error when there is none.
pub fn first_choice_content(response: ChatCompletionResponse) -> (r: Result<String, String>)
    ensures
        match r {
            Ok(c) => response.choices@.len() > 0 && c@ == response.choices@[0].message.content@,
            Err(e) => response.choices@.len() == 0 && e@ == NO_CHOICES_ERROR@,
        },
{
    let mut choices = response.choices;
    if choices.len() == 0 {
        return Err(String::from_str(NO_CHOICES_ERROR));
    }
    let first = choices.remove(0);
    Ok(first.message.content)
}

/// The outcome of the HTTP status of a reply: an error naming the status and the reply
/// text when the status is not a success.
pub fn completion_status_result(success: bool, status: &str, text: &str) -> (r: Result<(), String>)
    ensures
        match r {
            Ok(_) => success,
            Err(e) => !success && e@ == "API 错误 "@ + status@ + ": "@ + text@,
        },
{
    if success {
        Ok(())
    } else {
        Err(String::from_str("API 错误 ").concat(status).concat(": ").concat(text))
    }
}


/// A lower-case ASCII word folds to itself.
proof fn lemma_folds_to_self(w: Seq<char>)
    requires
        forall|i: int| 0 <= i < w.len() ==> 'a' <= #[trigger] w[i] <= 'z',
    ensures
        folds_to(w, w),
{
    assert forall|i: int| 0 <= i < w.len() implies ascii_lower(#[trigger] w[i]) == w[i] by {}
}

/// The context size sent is always "low", "medium" or "high", and normalizing it again
/// changes nothing.
pub proof fn context_size_is_canonical(raw: Seq<char>)
    ensures
        context_size_for(raw) == "low"@ || context_size_for(raw) == "medium"@
            || context_size_for(raw) == "high"@,
        context_size_for(context_size_for(raw)) == context_size_for(raw),
{
    reveal_strlit("low");
    reveal_strlit("medium");
    reveal_strlit("high");
    let r = context_size_for(raw);
    lemma_trim_fixed(r);
    lemma_folds_to_self("low"@);
    lemma_folds_to_self("high"@);
    if r == "high"@ {
        assert(!folds_to(r, "low"@));
    } else if r == "medium"@ {
        assert(!folds_to(r, "low"@));
        assert(!folds_to(r, "high"@));
    }
}

/// The normalized base URL never ends with a slash, so the endpoint never holds "//"
/// before its path.
pub proof fn base_url_has_no_trailing_slash(base: Seq<char>)
    ensures
        normalized_base_url(base).len() > 0 ==> normalized_base_url(base).last() != '/',
        chat_completions_url(base) == normalized_base_url(base) + CHAT_COMPLETIONS_PATH@,
{
    let t = trim(base);
    lemma_suffix_len_while_facts(t, same_as('/'));
    let r = normalized_base_url(base);
    if r.len() > 0 {
        assert(r.last() == t[t.len() - 1 - suffix_len_while(t, same_as('/'))]);
    }
}


/// The layout of the user message, over all inputs: the closing instructions, when they
/// are not blank once trimmed and cut, end the message after a blank line whatever the
/// profile; otherwise the message ends with the trimmed strategy. A profile only puts its
/// block in front of the message that is built without one.
pub proof fn user_message_layout(
    jd_text: Seq<char>,
    strategy_markdown: Seq<char>,
    resume_profile: Seq<char>,
    email_user_suffix_prompt: Seq<char>,
)
    ensures
        truncate_chars(trim(email_user_suffix_prompt), MAX_EMAIL_USER_SUFFIX_PROMPT_CHARS as nat).len()
            > 0 ==> ends_with(
            user_message(jd_text, strategy_markdown, resume_profile, email_user_suffix_prompt),
            BLOCK_BREAK@ + truncate_chars(
                trim(email_user_suffix_prompt),
                MAX_EMAIL_USER_SUFFIX_PROMPT_CHARS as nat,
            ),
        ),
        truncate_chars(trim(email_user_suffix_prompt), MAX_EMAIL_USER_SUFFIX_PROMPT_CHARS as nat).len()
            == 0 ==> ends_with(
            user_message(jd_text, strategy_markdown, resume_profile, email_user_suffix_prompt),
            STRATEGY_HEADING@ + trim(strategy_markdown),
        ),
        user_message(jd_text, strategy_markdown, resume_profile, email_user_suffix_prompt) == (if truncate_chars(
            trim(resume_profile),
            MAX_RESUME_PROFILE_CHARS as nat,
        ).len() == 0 {
            Seq::<char>::empty()
        } else {
            PROFILE_HEADING@ + truncate_chars(trim(resume_profile), MAX_RESUME_PROFILE_CHARS as nat)
                + BLOCK_BREAK@
        }) + user_message(jd_text, strategy_markdown, Seq::<char>::empty(), email_user_suffix_prompt),
        starts_with(
            user_message(jd_text, strategy_markdown, Seq::<char>::empty(), email_user_suffix_prompt),
            JD_HEADING@ + trim(jd_text) + STRATEGY_HEADING@ + trim(strategy_markdown),
        ),
{
    let e = Seq::<char>::empty();
    lemma_trim_fixed(e);
    let tail = truncate_chars(trim(email_user_suffix_prompt), MAX_EMAIL_USER_SUFFIX_PROMPT_CHARS as nat);
    let resume = truncate_chars(trim(resume_profile), MAX_RESUME_PROFILE_CHARS as nat);
    let head = JD_HEADING@ + trim(jd_text) + STRATEGY_HEADING@ + trim(strategy_markdown);
    let suffix_part = if tail.len() == 0 {
        e
    } else {
        BLOCK_BREAK@ + tail
    };
    let bare = user_message(jd_text, strategy_markdown, e, email_user_suffix_prompt);
    assert(bare == head + suffix_part);
    let m = user_message(jd_text, strategy_markdown, resume_profile, email_user_suffix_prompt);
    if resume.len() == 0 {
        assert(m == e + bare);
    } else {
        assert(m == (PROFILE_HEADING@ + resume + BLOCK_BREAK@) + bare);
    }
    assert(m.skip(m.len() - suffix_part.len()) == suffix_part);
    assert(bare.take(head.len() as int) == head);
    if tail.len() == 0 {
        let last = STRATEGY_HEADING@ + trim(strategy_markdown);
        assert(head == (JD_HEADING@ + trim(jd_text)) + last);
        assert(m.skip(m.len() - last.len()) == last);
    }
}

} // verus!
