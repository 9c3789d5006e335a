//! Sending the approved email over SMTP: parsing the two addresses, choosing how the
//! connection is secured, and what goes into the message.
use vstd::prelude::*;

use crate::paths::text_view;
use crate::text::{chars_of, trim, trim_str};

verus! {

/// The SMTPS port, on which the connection is TLS from the start.
pub const SMTPS_PORT: u16 = 465;

/// Prefix of the error for a sender address that does not parse.
pub const SENDER_INVALID_PREFIX: &'static str = "发件人格式无效: ";

/// Prefix of the error for a recipient address that does not parse.
pub const RECIPIENT_INVALID_PREFIX: &'static str = "收件人格式无效: ";

/// Name of an attachment whose path has no file name.
pub const DEFAULT_ATTACHMENT_NAME: &'static str = "attachment.pdf";

/// Content type of the attachment (a résumé in PDF).
pub const ATTACHMENT_CONTENT_TYPE: &'static str = "application/pdf";

/// Connection settings of the SMTP server.
#[derive(Debug, Clone)]
pub struct SmtpConfig {
    pub host: String,
    pub port: u16,
    pub username: String,
    pub password: String,
    pub from_email: String,
}

/// A parsed mailbox: an optional display name and the address.
#[derive(Debug, Clone)]
pub struct MailboxAddress {
    pub name: Option<String>,
    /// The address, `user@domain`.
    pub email: String,
}

/// How the SMTP connection is secured.
#[derive(Debug, Clone, Copy, PartialEq, Eq, Structural)]
pub enum SmtpSecurity {
    /// TLS from the first byte (SMTPS).
    ImplicitTls,
    /// A plain connection upgraded with STARTTLS.
    StartTls,
}

/// Everything needed to connect and to address the message.
#[derive(Debug)]
pub struct SmtpPlan {
    pub from: MailboxAddress,
    pub to: MailboxAddress,
    pub host: String,
    pub port: u16,
    pub security: SmtpSecurity,
    pub username: String,
    pub password: String,
}

/// A file to attach: where to read it and the name it is sent under.
#[derive(Debug)]
pub struct AttachmentPlan {
    pub path: String,
    pub file_name: String,
}

/// What `<lettre::message::Mailbox as FromStr>::from_str` makes of a text: the display
/// name and the address, or the text of the error.
pub uninterp spec fn mailbox_parse(text: Seq<char>) -> Result<
    (Option<Seq<char>>, Seq<char>),
    Seq<char>,
>;

/// What `std::path::Path::file_name` returns for a path, taken as text.
pub uninterp spec fn path_file_name(path: Seq<char>) -> Option<Seq<char>>;

/// A parse result taken by its views.
pub open spec fn mailbox_view(r: Result<MailboxAddress, String>) -> Result<
    (Option<Seq<char>>, Seq<char>),
    Seq<char>,
> {
    match r {
        Ok(m) => Ok((text_view(m.name), m.email@)),
        Err(e) => Err(e@),
    }
}

/// The connection security for a port: SMTPS on 465, STARTTLS on every other port.
pub open spec fn security_for(port: u16) -> SmtpSecurity {
    if port == SMTPS_PORT {
        SmtpSecurity::ImplicitTls
    } else {
        SmtpSecurity::StartTls
    }
}

/// `m` holds the parsed mailbox `parsed`.
pub open spec fn mailbox_is(m: MailboxAddress, parsed: (Option<Seq<char>>, Seq<char>)) -> bool {
    text_view(m.name) == parsed.0 && m.email@ == parsed.1
}

/// The outcome of preparing to send, for the two parse results: the sender's error
/// first, then the recipient's, else a plan with the trimmed host, the port, the
/// security for the port and the credentials.
pub open spec fn smtp_plan_for(
    r: Result<SmtpPlan, String>,
    smtp: SmtpConfig,
    from: Result<(Option<Seq<char>>, Seq<char>), Seq<char>>,
    to: Result<(Option<Seq<char>>, Seq<char>), Seq<char>>,
) -> bool {
    match (from, to) {
        (Err(e), _) => r matches Err(m) && m@ == SENDER_INVALID_PREFIX@ + e,
        (Ok(_), Err(e)) => r matches Err(m) && m@ == RECIPIENT_INVALID_PREFIX@ + e,
        (Ok(f), Ok(t)) => match r {
            Ok(plan) => {
                &&& mailbox_is(plan.from, f)
                &&& mailbox_is(plan.to, t)
                &&& plan.host@ == trim(smtp.host@)
                &&& plan.port == smtp.port
                &&& plan.security == security_for(smtp.port)
                &&& plan.username@ == smtp.username@
                &&& plan.password@ == smtp.password@
            },
            Err(_) => false,
        },
    }
}

/// The file to attach for an optional path: none when the path is absent or blank,
/// else the trimmed path and its file name (`DEFAULT_ATTACHMENT_NAME` when it has none).
pub open spec fn attachment_for(r: Option<AttachmentPlan>, path: Option<Seq<char>>) -> bool {
    match path {
        None => r is None,
        Some(p) => if trim(p).len() == 0 {
            r is None
        } else {
            match r {
                Some(a) => {
                    &&& a.path@ == trim(p)
                    &&& a.file_name@ == match path_file_name(trim(p)) {
                        Some(n) => n,
                        None => DEFAULT_ATTACHMENT_NAME@,
                    }
                },
                None => false,
            }
        },
    }
}

/// Calls `<lettre::message::Mailbox as FromStr>::from_str` on `text` and hands back the
/// display name and the address (written out by its `Display` impl), or the `Display`
/// text of the error. The parse depends on `text` alone; the contract names its result.
#[verifier::external_body]
fn parse_mailbox(text: &str) -> (r: Result<MailboxAddress, String>)
    ensures
        mailbox_view(r) == mailbox_parse(text@),
{
    match text.parse::<lettre::message::Mailbox>() {
        Ok(m) => Ok(MailboxAddress { name: m.name, email: m.email.to_string() }),
        Err(e) => Err(e.to_string()),
    }
}

/// Calls `std::path::Path::file_name` on `path` and hands back the name as text. Its
/// documentation: the final component of the path, `None` when the path ends in `..`.
/// The contract names the result.
#[verifier::external_body]
fn file_name_of(path: &str) -> (r: Option<String>)
    ensures
        text_view(r) == path_file_name(path@),
{
    std::path::Path::new(path).file_name().and_then(|n| n.to_str()).map(|n| n.to_string())
}

/// The connection security for a port: SMTPS on 465, STARTTLS on every other port.
pub fn smtp_security_for_port(port: u16) -> (s: SmtpSecurity)
    ensures
        s == security_for(port),
{
    if port == SMTPS_PORT {
        SmtpSecurity::ImplicitTls
    } else {
        SmtpSecurity::StartTls
    }
}

/// The plan for sending once both addresses have been parsed (see `smtp_plan_for`).
pub fn plan_smtp_send(
    smtp: SmtpConfig,
    from: Result<MailboxAddress, String>,
    to: Result<MailboxAddress, String>,
) -> (r: Result<SmtpPlan, String>)
    ensures
        smtp_plan_for(r, smtp, mailbox_view(from), mailbox_view(to)),
{
    let from = match from {
        Ok(m) => m,
        Err(e) => return Err(String::from_str(SENDER_INVALID_PREFIX).concat(e.as_str())),
    };
    let to = match to {
        Ok(m) => m,
        Err(e) => return Err(String::from_str(RECIPIENT_INVALID_PREFIX).concat(e.as_str())),
    };
    let host = String::from_str(trim_str(smtp.host.as_str()));
    Ok(
        SmtpPlan {
            from,
            to,
            host,
            port: smtp.port,
            security: smtp_security_for_port(smtp.port),
            username: smtp.username,
            password: smtp.password,
        },
    )
}

/// The plan for sending from the configured sender to `to`: both addresses are
/// trimmed and parsed with lettre, the sender first.
pub fn prepare_smtp_send(smtp: SmtpConfig, to: &str) -> (r: Result<SmtpPlan, String>)
    ensures
        smtp_plan_for(r, smtp, mailbox_parse(trim(smtp.from_email@)), mailbox_parse(trim(to@))),
{
    let from = parse_mailbox(trim_str(smtp.from_email.as_str()));
    if from.is_err() {
        return plan_smtp_send(smtp, from, Err(String::new()));
    }
    let to = parse_mailbox(trim_str(to));
    plan_smtp_send(smtp, from, to)
}

/// The attachment read from `path` and sent under `file_name`, or under
/// `DEFAULT_ATTACHMENT_NAME` when the path has no file name.
pub fn attachment_with_name(path: String, file_name: Option<String>) -> (a: AttachmentPlan)
    ensures
        a.path@ == path@,
        a.file_name@ == match text_view(file_name) {
            Some(n) => n,
            None => DEFAULT_ATTACHMENT_NAME@,
        },
{
    let file_name = match file_name {
        Some(n) => n,
        None => String::from_str(DEFAULT_ATTACHMENT_NAME),
    };
    AttachmentPlan { path, file_name }
}

/// The file to attach for the optional path of the send command (see `attachment_for`).
pub fn plan_attachment(attachment_path: Option<String>) -> (r: Option<AttachmentPlan>)
    ensures
        attachment_for(r, text_view(attachment_path)),
{
    match attachment_path {
        None => None,
        Some(p) => {
            let path = trim_str(p.as_str());
            if chars_of(path).len() == 0 {
                return None;
            }
            Some(attachment_with_name(String::from_str(path), file_name_of(path)))
        },
    }
}

} // verus!
