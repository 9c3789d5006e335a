use job_mailer::reply::{
    ensure_body_salutation, extract_json_object, finish_generated_email,
    first_line_looks_like_salutation, strip_traditional_letter_closing, GenJson,
};

#[test]
fn salutation_lines() {
    assert!(first_line_looks_like_salutation("您好，"));
    assert!(first_line_looks_like_salutation("  尊敬的招聘负责人 "));
    assert!(first_line_looks_like_salutation("王老师好"));
    assert!(first_line_looks_like_salutation("Dear Hiring Team,"));
    assert!(first_line_looks_like_salutation("李律师"));
    assert!(first_line_looks_like_salutation("Hi:"));
    assert!(first_line_looks_like_salutation("致人事部："));
    assert!(!first_line_looks_like_salutation(""));
    assert!(!first_line_looks_like_salutation("   "));
    assert!(!first_line_looks_like_salutation("我是一名法学本科生"));
    assert!(!first_line_looks_like_salutation("dear all"));
}

#[test]
fn lawyer_line_must_be_short() {
    // 16 CJK characters: 48 bytes.
    let at_limit = "某某某某某某某某某某某某某某律师";
    assert_eq!(at_limit.len(), 48);
    assert!(first_line_looks_like_salutation(at_limit));
    let over = "某某某某某某某某某某某某某某某律师";
    assert_eq!(over.len(), 51);
    assert!(!first_line_looks_like_salutation(over));
}

#[test]
fn salutation_is_added_when_missing() {
    assert_eq!(ensure_body_salutation("   "), (String::new(), false));
    assert_eq!(
        ensure_body_salutation("  您好，\n我想申请实习。\n"),
        ("您好，\n我想申请实习。".to_string(), false)
    );
    assert_eq!(
        ensure_body_salutation("我想申请实习。"),
        ("您好，\n\n我想申请实习。".to_string(), true)
    );
    assert_eq!(
        ensure_body_salutation("Dear Team,\r\nbody"),
        ("Dear Team,\r\nbody".to_string(), false)
    );
}

#[test]
fn salutation_second_pass_adds_nothing() {
    for body in ["我想申请实习。", " 您好：\n正文", "", "x\ny"] {
        let (once, _) = ensure_body_salutation(body);
        assert_eq!(ensure_body_salutation(&once), (once.clone(), false));
    }
}

#[test]
fn letter_closings_are_cut() {
    assert_eq!(strip_traditional_letter_closing("正文\n\n此致\n敬礼  \n"), "正文");
    assert_eq!(strip_traditional_letter_closing("正文。 \n此致\n敬礼"), "正文。");
    assert_eq!(strip_traditional_letter_closing("正文\n\n此致\n\n敬礼"), "正文");
    assert_eq!(strip_traditional_letter_closing("正文\n\n此致 \n敬礼"), "正文");
    assert_eq!(strip_traditional_letter_closing("正文\n此致敬礼"), "正文\n此致敬礼");
    assert_eq!(strip_traditional_letter_closing("正文  \n\n"), "正文");
}

#[test]
fn json_object_is_extracted() {
    assert_eq!(
        extract_json_object("好的：\n```json\n{\"subject\":\"s\",\"body\":\"b\"}\n```"),
        "{\"subject\":\"s\",\"body\":\"b\"}"
    );
    assert_eq!(extract_json_object("  {a}{b}  "), "{a}{b}");
    assert_eq!(extract_json_object(" }{ "), "}{");
    assert_eq!(extract_json_object(" no braces "), "no braces");
    assert_eq!(extract_json_object("{only open"), "{only open");
}

#[test]
fn generated_email_is_finished() {
    let email = finish_generated_email(GenJson {
        subject: "  申请实习 ".to_string(),
        body: "\n我是法学本科生。\n\n此致\n敬礼\n".to_string(),
    });
    assert_eq!(email.subject, "申请实习");
    assert_eq!(email.body, "您好，\n\n我是法学本科生。");
}

#[test]
fn finished_body_keeps_its_salutation() {
    let email = finish_generated_email(GenJson {
        subject: String::new(),
        body: "Dear Sir,   \n\n\n此致\n敬礼".to_string(),
    });
    assert_eq!(email.body, "Dear Sir,");
    assert!(first_line_looks_like_salutation(email.body.lines().next().unwrap()));
    let blank = finish_generated_email(GenJson { subject: String::new(), body: " \n ".to_string() });
    assert_eq!(blank.body, "");
}

#[test]
fn closing_cut_leaves_no_trailing_space() {
    for body in ["正文 \n\n此致\n敬礼", "正文\t\n此致\n敬礼 ", "只有正文   ", ""] {
        let cut = strip_traditional_letter_closing(body);
        assert_eq!(cut.trim_end(), cut);
    }
}

#[test]
fn extracted_object_runs_between_braces() {
    let raw = "前言 {\"subject\":\"a\"} 后记 } 尾";
    let object = extract_json_object(raw);
    assert!(object.starts_with('{') && object.ends_with('}'));
    assert_eq!(object, "{\"subject\":\"a\"} 后记 }");
}
