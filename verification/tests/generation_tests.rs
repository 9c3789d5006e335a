use job_mailer::generation::{
    build_messages, build_user_content, completion_status_result, first_choice_content,
    normalize_base_url, normalize_web_search_context_size, prepare_generation_request,
    web_search_options_if_enabled, ChatChoice, ChatCompletionResponse, ChatMsg, LlmConfig,
};

fn reference_context_size(raw: &str) -> &'static str {
    match raw.trim().to_lowercase().as_str() {
        "low" => "low",
        "high" => "high",
        _ => "medium",
    }
}

#[test]
fn context_size_words() {
    assert_eq!(normalize_web_search_context_size("low"), "low");
    assert_eq!(normalize_web_search_context_size("  HIGH \n"), "high");
    assert_eq!(normalize_web_search_context_size("Medium"), "medium");
    assert_eq!(normalize_web_search_context_size(""), "medium");
    assert_eq!(normalize_web_search_context_size("lowest"), "medium");
    assert_eq!(normalize_web_search_context_size("ＬＯＷ"), "medium");
}

#[test]
fn context_size_is_stable() {
    for raw in ["low", " High", "x", "", "MEDIUM"] {
        let once = normalize_web_search_context_size(raw);
        assert!(once == "low" || once == "medium" || once == "high");
        assert_eq!(normalize_web_search_context_size(&once), once);
    }
}

#[test]
fn only_ascii_letters_lower_to_the_context_words() {
    for c in (0u32..=0x10FFFF).filter_map(char::from_u32) {
        let lower: String = c.to_lowercase().collect();
        let n = lower.chars().count();
        if n == 1 && "lowhig".contains(lower.as_str()) {
            assert!(c.is_ascii_alphabetic(), "{:?}", c);
        }
        if n > 1 {
            assert!(!"low".contains(lower.as_str()) && !"high".contains(lower.as_str()), "{:?}", c);
        }
    }
    for raw in ["LoW", "hIgH", " low ", "loW\t", "Kow", "hİgh", "\u{212A}"] {
        assert_eq!(normalize_web_search_context_size(raw), reference_context_size(raw), "{:?}", raw);
    }
}

#[test]
fn web_search_only_when_enabled() {
    assert!(web_search_options_if_enabled(false, "high").is_none());
    let opts = web_search_options_if_enabled(true, " HIGH ").unwrap();
    assert_eq!(opts.search_context_size, "high");
    let opts = web_search_options_if_enabled(true, "bogus").unwrap();
    assert_eq!(opts.search_context_size, "medium");
}

#[test]
fn base_url_is_trimmed() {
    assert_eq!(normalize_base_url("  http://127.0.0.1:4000/v1/  "), "http://127.0.0.1:4000/v1");
    assert_eq!(normalize_base_url("https://api.example.com/v1//"), "https://api.example.com/v1");
    assert_eq!(normalize_base_url("/"), "");
    let once = normalize_base_url(" a/ /");
    assert_eq!(once, "a/ ");
    assert!(!once.ends_with('/'));
}

#[test]
fn user_content_without_profile() {
    let content = build_user_content("  JD text \n", "\n# Plan\n", "   ", "");
    assert_eq!(content, "【岗位描述 / 团队信息】\nJD text\n\n【投递策略资产（Markdown）】\n# Plan");
}

#[test]
fn user_content_with_profile_and_instructions() {
    let content = build_user_content("JD", "S", " 法学本科 ", " 不超过三百字 ");
    assert_eq!(
        content,
        "【个人简介】\n法学本科\n\n【岗位描述 / 团队信息】\nJD\n\n【投递策略资产（Markdown）】\nS\n\n不超过三百字"
    );
}

#[test]
fn profile_is_cut_to_its_limit() {
    let profile = "字".repeat(9000);
    let content = build_user_content("JD", "S", &profile, "");
    let expected_profile = format!("{}…", "字".repeat(7999));
    assert!(content.starts_with(&format!("【个人简介】\n{}\n\n", expected_profile)));
}

#[test]
fn messages_skip_blank_system_prompt() {
    let m = build_messages("  \n".to_string(), "hello".to_string());
    assert_eq!(m.len(), 1);
    assert_eq!(m[0].role, "user");
    assert_eq!(m[0].content, "hello");
    let m = build_messages(" be brief ".to_string(), "hello".to_string());
    assert_eq!(m.len(), 2);
    assert_eq!(m[0].role, "system");
    assert_eq!(m[0].content, " be brief ");
    assert_eq!(m[1].role, "user");
}

#[test]
fn generation_request() {
    let llm = LlmConfig {
        base_url: "http://127.0.0.1:4000/v1/".to_string(),
        api_key: "  sk-job-mailer-local ".to_string(),
        model: "kimi-k2-5".to_string(),
        system_prompt: String::new(),
    };
    let req = prepare_generation_request(llm, "JD", "S", "", "", true, "LOW");
    assert_eq!(req.url, "http://127.0.0.1:4000/v1/chat/completions");
    assert_eq!(req.authorization, "Bearer sk-job-mailer-local");
    assert_eq!(req.body.model, "kimi-k2-5");
    assert_eq!(req.body.messages.len(), 1);
    assert_eq!(
        req.body.messages[0].content,
        "【岗位描述 / 团队信息】\nJD\n\n【投递策略资产（Markdown）】\nS"
    );
    assert!(req.body.max_tokens.is_none());
    assert_eq!(req.body.web_search_options.unwrap().search_context_size, "low");
}

#[test]
fn first_choice_is_taken() {
    let reply = ChatCompletionResponse {
        choices: vec![
            ChatChoice { message: ChatMsg { content: "first".to_string() } },
            ChatChoice { message: ChatMsg { content: "second".to_string() } },
        ],
    };
    assert_eq!(first_choice_content(reply).unwrap(), "first");
    let empty = ChatCompletionResponse { choices: vec![] };
    assert_eq!(first_choice_content(empty).unwrap_err(), "响应无 choices");
}

#[test]
fn status_errors_name_status_and_text() {
    assert!(completion_status_result(true, "200 OK", "{}").is_ok());
    assert_eq!(
        completion_status_result(false, "401 Unauthorized", "bad key").unwrap_err(),
        "API 错误 401 Unauthorized: bad key"
    );
}
