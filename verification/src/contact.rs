//! The contact form: spam checks, field validation and the text of the
//! notification mail, kept apart from the transport that delivers it.

use vstd::prelude::*;

use crate::text::{all_blank, find_char, trim_spec};

verus! {

/// What a visitor submitted through the contact form. The `website` field
/// is a honeypot: the form never shows it, so only automation fills it.
#[derive(Debug)]
pub struct ContactFormData {
    pub name: String,
    pub email: String,
    pub subject: String,
    pub message: String,
    pub website: String,
    pub turnstile_response: String,
}

/// Which required field is missing or unusable.
#[derive(Debug, Clone, Copy, PartialEq, Eq, Structural)]
pub enum ContactFieldError {
    NameRequired,
    EmailRequired,
    MessageRequired,
}

/// Whether the honeypot field was filled: such a submission is dropped
/// while pretending success.
pub fn honeypot_triggered(form: &ContactFormData) -> (r: bool)
    ensures
        r == (form.website@.len() > 0),
{
    !form.website.as_str().is_empty()
}

/// Whether a CAPTCHA answer is required but absent.
pub fn missing_captcha(form: &ContactFormData, turnstile_configured: bool) -> (r: bool)
    ensures
        r == (turnstile_configured && form.turnstile_response@.len() == 0),
{
    turnstile_configured && form.turnstile_response.as_str().is_empty()
}

/// The first validation failure among the required fields: a blank name,
/// then a blank email or one without `@`, then a blank message; `None`
/// when all three pass.
pub open spec fn field_error_spec(form: ContactFormData) -> Option<ContactFieldError> {
    if trim_spec(form.name@).len() == 0 {
        Option::Some(ContactFieldError::NameRequired)
    } else if trim_spec(form.email@).len() == 0 || !form.email@.contains('@') {
        Option::Some(ContactFieldError::EmailRequired)
    } else if trim_spec(form.message@).len() == 0 {
        Option::Some(ContactFieldError::MessageRequired)
    } else {
        Option::None
    }
}

/// Validates the required contact fields.
pub fn validate_fields(form: &ContactFormData) -> (r: Option<ContactFieldError>)
    ensures
        r == field_error_spec(*form),
{
    if all_blank(form.name.as_str()) {
        return Option::Some(ContactFieldError::NameRequired);
    }
    let email_has_at = match find_char(form.email.as_str(), '@') {
        Option::Some(i) => {
            proof {
                assert(form.email@.contains('@')) by {
                    assert(form.email@[i as int] == '@');
                }
            }
            true
        },
        Option::None => {
            proof {
                if form.email@.contains('@') {
                    let w = choose|w: int| 0 <= w < form.email@.len() && form.email@[w] == '@';
                }
            }
            false
        },
    };
    if all_blank(form.email.as_str()) || !email_has_at {
        return Option::Some(ContactFieldError::EmailRequired);
    }
    if all_blank(form.message.as_str()) {
        return Option::Some(ContactFieldError::MessageRequired);
    }
    Option::None
}

/// The subject the mail carries: the form's subject field, unless it is
/// blank.
pub fn subject_of(form: &ContactFormData) -> (r: Option<&str>)
    ensures
        trim_spec(form.subject@).len() == 0 ==> r is None,
        trim_spec(form.subject@).len() > 0 ==> (r matches Option::Some(s) && s@ == form.subject@),
{
    if all_blank(form.subject.as_str()) {
        Option::None
    } else {
        Option::Some(form.subject.as_str())
    }
}

/// The subject line of the notification mail.
pub open spec fn contact_subject_spec(site_title: Seq<char>, subject: Option<Seq<char>>) -> Seq<
    char,
> {
    match subject {
        Option::Some(s) => "["@ + site_title + "] Contact: "@ + s,
        Option::None => "["@ + site_title + "] New contact message"@,
    }
}

/// Builds the subject line of the notification mail.
pub fn contact_subject(site_title: &str, subject: Option<&str>) -> (r: String)
    ensures
        r@ == contact_subject_spec(site_title@, crate::views::view_opt_str(subject)),
{
    let mut out = String::from_str("[");
    out.append(site_title);
    match subject {
        Option::Some(s) => {
            out.append("] Contact: ");
            out.append(s);
        },
        Option::None => {
            out.append("] New contact message");
        },
    }
    out
}

/// The body of the notification mail.
pub open spec fn contact_body_spec(
    name: Seq<char>,
    email: Seq<char>,
    subject: Option<Seq<char>>,
    message: Seq<char>,
) -> Seq<char> {
    "New contact form submission:\n\nName: "@ + name + "\nEmail: "@ + email + "\nSubject: "@ + (
    match subject {
        Option::Some(s) => s,
        Option::None => "(not specified)"@,
    }) + "\n\nMessage:\n"@ + message + "\n"@
}

/// Builds the body of the notification mail.
pub fn contact_body(name: &str, email: &str, subject: Option<&str>, message: &str) -> (r: String)
    ensures
        r@ == contact_body_spec(name@, email@, crate::views::view_opt_str(subject), message@),
{
    let mut out = String::from_str("New contact form submission:\n\nName: ");
    out.append(name);
    out.append("\nEmail: ");
    out.append(email);
    out.append("\nSubject: ");
    match subject {
        Option::Some(s) => out.append(s),
        Option::None => out.append("(not specified)"),
    }
    out.append("\n\nMessage:\n");
    out.append(message);
    out.append("\n");
    out
}

/// What the CAPTCHA service answered for a submitted token.
#[derive(Debug)]
pub struct VerifyResponse {
    pub success: bool,
    pub error_codes: Vec<String>,
    pub challenge_ts: Option<String>,
    pub hostname: Option<String>,
}

impl VerifyResponse {
    /// Whether the CAPTCHA was answered correctly.
    pub fn passed(&self) -> (r: bool)
        ensures
            r == self.success,
    {
        self.success
    }
}

} // verus!
