use job_mailer::smtp::{
    attachment_with_name, plan_attachment, plan_smtp_send, prepare_smtp_send, smtp_security_for_port, MailboxAddress,
    SmtpConfig, SmtpSecurity,
};

fn config(from: &str, port: u16) -> SmtpConfig {
    SmtpConfig {
        host: "  smtp.gmail.com ".to_string(),
        port,
        username: "me@gmail.com".to_string(),
        password: "app-password".to_string(),
        from_email: from.to_string(),
    }
}

#[test]
fn security_follows_port() {
    assert!(matches!(smtp_security_for_port(465), SmtpSecurity::ImplicitTls));
    assert!(matches!(smtp_security_for_port(587), SmtpSecurity::StartTls));
    assert!(matches!(smtp_security_for_port(25), SmtpSecurity::StartTls));
}

#[test]
fn plan_for_valid_addresses() {
    let plan = prepare_smtp_send(config(" 张三 <zhangsan@example.com> ", 465), " hr@firm.cn ").unwrap();
    assert_eq!(plan.from.name.as_deref(), Some("张三"));
    assert_eq!(plan.from.email, "zhangsan@example.com");
    assert_eq!(plan.to.name, None);
    assert_eq!(plan.to.email, "hr@firm.cn");
    assert_eq!(plan.host, "smtp.gmail.com");
    assert_eq!(plan.port, 465);
    assert!(matches!(plan.security, SmtpSecurity::ImplicitTls));
    assert_eq!(plan.username, "me@gmail.com");
    assert_eq!(plan.password, "app-password");
}

#[test]
fn sender_error_comes_first() {
    let err = prepare_smtp_send(config("not an address", 587), "also bad").err().unwrap();
    assert!(err.starts_with("发件人格式无效: "), "{}", err);
    let err = prepare_smtp_send(config("me@example.com", 587), "bad").err().unwrap();
    assert!(err.starts_with("收件人格式无效: "), "{}", err);
}

#[test]
fn plan_from_parse_results() {
    let ok = |e: &str| Ok(MailboxAddress { name: None, email: e.to_string() });
    let err = plan_smtp_send(config("x", 587), Err("Invalid input".to_string()), ok("a@b.c"))
        .err()
        .unwrap();
    assert_eq!(err, "发件人格式无效: Invalid input");
    let err = plan_smtp_send(config("x", 587), ok("a@b.c"), Err("Missing domain or user".to_string()))
        .err()
        .unwrap();
    assert_eq!(err, "收件人格式无效: Missing domain or user");
    let plan = plan_smtp_send(config("x", 2525), ok("a@b.c"), ok("d@e.f")).unwrap();
    assert!(matches!(plan.security, SmtpSecurity::StartTls));
    assert_eq!(plan.to.email, "d@e.f");
}

#[test]
fn attachments() {
    assert!(plan_attachment(None).is_none());
    assert!(plan_attachment(Some("   ".to_string())).is_none());
    let a = plan_attachment(Some("  /Users/u/简历.pdf ".to_string())).unwrap();
    assert_eq!(a.path, "/Users/u/简历.pdf");
    assert_eq!(a.file_name, "简历.pdf");
    let a = plan_attachment(Some("/tmp/..".to_string())).unwrap();
    assert_eq!(a.file_name, "attachment.pdf");
}

#[test]
fn attachment_names() {
    let a = attachment_with_name("/x/cv.pdf".to_string(), Some("cv.pdf".to_string()));
    assert_eq!(a.path, "/x/cv.pdf");
    assert_eq!(a.file_name, "cv.pdf");
    let a = attachment_with_name("/x/..".to_string(), None);
    assert_eq!(a.file_name, "attachment.pdf");
}
