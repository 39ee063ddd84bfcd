//! Application configuration: the typed settings record and the rules
//! that build it from raw environment values, with their defaults.

use vstd::prelude::*;

use crate::models::clone_opt_string;
use crate::text::{parse_u16, parse_u16_spec};
use crate::views::view_opt_string;

verus! {

/// Application configuration.
#[derive(Debug)]
pub struct Config {
    pub host: String,
    pub port: u16,
    pub database_url: String,
    pub content_dir: String,
    pub site_url: String,
    pub site_title: String,
    pub site_description: String,
    pub author_name: String,
    pub author_email: String,
    pub smtp_host: Option<String>,
    pub smtp_port: u16,
    pub smtp_user: Option<String>,
    pub smtp_password: Option<String>,
    pub contact_email: String,
    pub resend_api_key: Option<String>,
    pub turnstile_site_key: Option<String>,
    pub turnstile_secret_key: Option<String>,
    pub admin_secret: Option<String>,
}

impl Clone for Config {
    fn clone(&self) -> (r: Self)
        ensures
            r == *self,
    {
        Config {
            host: self.host.clone(),
            port: self.port,
            database_url: self.database_url.clone(),
            content_dir: self.content_dir.clone(),
            site_url: self.site_url.clone(),
            site_title: self.site_title.clone(),
            site_description: self.site_description.clone(),
            author_name: self.author_name.clone(),
            author_email: self.author_email.clone(),
            smtp_host: clone_opt_string(&self.smtp_host),
            smtp_port: self.smtp_port,
            smtp_user: clone_opt_string(&self.smtp_user),
            smtp_password: clone_opt_string(&self.smtp_password),
            contact_email: self.contact_email.clone(),
            resend_api_key: clone_opt_string(&self.resend_api_key),
            turnstile_site_key: clone_opt_string(&self.turnstile_site_key),
            turnstile_secret_key: clone_opt_string(&self.turnstile_secret_key),
            admin_secret: clone_opt_string(&self.admin_secret),
        }
    }
}

/// The raw environment values configuration is read from; `None` stands
/// for an unset variable.
#[derive(Debug)]
pub struct ConfigSource {
    pub host: Option<String>,
    pub port: Option<String>,
    pub database_url: Option<String>,
    pub content_dir: Option<String>,
    pub site_url: Option<String>,
    pub site_title: Option<String>,
    pub site_description: Option<String>,
    pub author_name: Option<String>,
    pub author_email: Option<String>,
    pub smtp_host: Option<String>,
    pub smtp_port: Option<String>,
    pub smtp_user: Option<String>,
    pub smtp_password: Option<String>,
    pub contact_email: Option<String>,
    pub resend_api_key: Option<String>,
    pub turnstile_site_key: Option<String>,
    pub turnstile_secret_key: Option<String>,
    pub admin_secret: Option<String>,
}

/// Why configuration could not be built.
#[derive(Debug, Clone, Copy, PartialEq, Eq, Structural)]
pub enum ConfigError {
    /// The database address is not set at all.
    MissingDatabaseUrl,
    /// The port is set but is not a decimal port number.
    InvalidPort,
}

/// A set value, or the default for an unset one.
pub open spec fn or_default(v: Option<Seq<char>>, d: Seq<char>) -> Seq<char> {
    match v {
        Option::Some(s) => s,
        Option::None => d,
    }
}

fn or_default_exec(v: Option<String>, d: &str) -> (r: String)
    ensures
        r@ == or_default(view_opt_string(v), d@),
{
    match v {
        Option::Some(s) => s,
        Option::None => d.to_owned(),
    }
}

impl Config {
    /// Builds the configuration from raw environment values: every field
    /// takes its default when unset, the database address is required,
    /// a set but malformed port is refused, and a set but malformed SMTP
    /// port falls back to its default.
    pub fn from_env_values(src: ConfigSource) -> (r: Result<Config, ConfigError>)
        ensures
            src.database_url is None <==> r == Result::<Config, ConfigError>::Err(
                ConfigError::MissingDatabaseUrl,
            ),
            src.database_url is Some && parse_u16_spec(
                or_default(view_opt_string(src.port), "3000"@),
            ) is None ==> r == Result::<Config, ConfigError>::Err(ConfigError::InvalidPort),
            src.database_url is Some && parse_u16_spec(
                or_default(view_opt_string(src.port), "3000"@),
            ) is Some ==> r is Ok,
            r matches Result::Ok(c) ==> {
                &&& c.host@ == or_default(view_opt_string(src.host), "0.0.0.0"@)
                &&& Option::Some(c.port) == parse_u16_spec(
                    or_default(view_opt_string(src.port), "3000"@),
                )
                &&& Option::Some(c.database_url@) == view_opt_string(src.database_url)
                &&& c.content_dir@ == or_default(view_opt_string(src.content_dir), "./content"@)
                &&& c.site_url@ == or_default(
                    view_opt_string(src.site_url),
                    "http://localhost:3000"@,
                )
                &&& c.site_title@ == or_default(view_opt_string(src.site_title), "Nebula"@)
                &&& c.site_description@ == or_default(
                    view_opt_string(src.site_description),
                    "Personal blog and project showcase"@,
                )
                &&& c.author_name@ == or_default(view_opt_string(src.author_name), "Author"@)
                &&& c.author_email@ == or_default(
                    view_opt_string(src.author_email),
                    "author@example.com"@,
                )
                &&& view_opt_string(c.smtp_host) == view_opt_string(src.smtp_host)
                &&& c.smtp_port == (match parse_u16_spec(
                    or_default(view_opt_string(src.smtp_port), "587"@),
                ) {
                    Option::Some(p) => p,
                    Option::None => 587u16,
                })
                &&& view_opt_string(c.smtp_user) == view_opt_string(src.smtp_user)
                &&& view_opt_string(c.smtp_password) == view_opt_string(src.smtp_password)
                &&& c.contact_email@ == or_default(
                    view_opt_string(src.contact_email),
                    or_default(view_opt_string(src.author_email), "author@example.com"@),
                )
                &&& view_opt_string(c.resend_api_key) == view_opt_string(src.resend_api_key)
                &&& view_opt_string(c.turnstile_site_key) == view_opt_string(
                    src.turnstile_site_key,
                )
                &&& view_opt_string(c.turnstile_secret_key) == view_opt_string(
                    src.turnstile_secret_key,
                )
                &&& view_opt_string(c.admin_secret) == view_opt_string(src.admin_secret)
            },
    {
        let database_url = match src.database_url {
            Option::Some(u) => u,
            Option::None => {
                return Result::Err(ConfigError::MissingDatabaseUrl);
            },
        };
        let port_text = or_default_exec(src.port, "3000");
        let port = match parse_u16(port_text.as_str()) {
            Option::Some(p) => p,
            Option::None => {
                return Result::Err(ConfigError::InvalidPort);
            },
        };
        let smtp_port_text = or_default_exec(src.smtp_port, "587");
        let smtp_port = match parse_u16(smtp_port_text.as_str()) {
            Option::Some(p) => p,
            Option::None => 587,
        };
        let author_email_default = match &src.author_email {
            Option::Some(e) => e.clone(),
            Option::None => "author@example.com".to_owned(),
        };
        let contact_email = match src.contact_email {
            Option::Some(e) => e,
            Option::None => author_email_default,
        };
        Result::Ok(
            Config {
                host: or_default_exec(src.host, "0.0.0.0"),
                port,
                database_url,
                content_dir: or_default_exec(src.content_dir, "./content"),
                site_url: or_default_exec(src.site_url, "http://localhost:3000"),
                site_title: or_default_exec(src.site_title, "Nebula"),
                site_description: or_default_exec(
                    src.site_description,
                    "Personal blog and project showcase",
                ),
                author_name: or_default_exec(src.author_name, "Author"),
                author_email: or_default_exec(src.author_email, "author@example.com"),
                smtp_host: src.smtp_host,
                smtp_port,
                smtp_user: src.smtp_user,
                smtp_password: src.smtp_password,
                contact_email,
                resend_api_key: src.resend_api_key,
                turnstile_site_key: src.turnstile_site_key,
                turnstile_secret_key: src.turnstile_secret_key,
                admin_secret: src.admin_secret,
            },
        )
    }

    /// Whether every SMTP setting a mail connection needs is present.
    pub fn smtp_configured(&self) -> (r: bool)
        ensures
            r == (self.smtp_host is Some && self.smtp_user is Some
                && self.smtp_password is Some),
    {
        self.smtp_host.is_some() && self.smtp_user.is_some() && self.smtp_password.is_some()
    }

    /// Whether the mail delivery API is configured.
    pub fn resend_configured(&self) -> (r: bool)
        ensures
            r == (self.resend_api_key is Some),
    {
        self.resend_api_key.is_some()
    }

    /// Whether the CAPTCHA service is configured.
    pub fn turnstile_configured(&self) -> (r: bool)
        ensures
            r == (self.turnstile_site_key is Some && self.turnstile_secret_key is Some),
    {
        self.turnstile_site_key.is_some() && self.turnstile_secret_key.is_some()
    }
}

} // verus!
