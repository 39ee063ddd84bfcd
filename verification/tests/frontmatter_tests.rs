use nebula::admin::{authorize_reload, ReloadAuth, ReloadQuery};
use nebula::config::{Config, ConfigError, ConfigSource};
use nebula::contact::{
    contact_body, contact_subject, honeypot_triggered, missing_captcha, subject_of,
    validate_fields, ContactFieldError, ContactFormData,
};
use nebula::date::{date_label, format_rfc2822, parse_rfc3339, Moment};
use nebula::feeds::{rss_xml, sitemap_xml};
use nebula::frontmatter::{
    parse_post_frontmatter, parse_project_frontmatter, split_frontmatter, FrontmatterError,
};
use nebula::health::{cdn_success_count, health_response, CdnTestResult};
use nebula::models::{Post, PostMetadata, ProjectStatus};
use nebula::text::parse_u16;

#[test]
fn split_requires_and_closes_fences() {
    assert_eq!(split_frontmatter("no fences here"), Err(FrontmatterError::MissingHeader));
    assert_eq!(split_frontmatter("---\ntitle: x\nno close"), Err(FrontmatterError::UnclosedHeader));
    let ok = split_frontmatter("---\ntitle: x\n---\nBody text.").unwrap();
    assert_eq!(ok.0, "\ntitle: x\n");
    assert_eq!(ok.1, "Body text.");
}

#[test]
fn post_frontmatter_parses_typed_fields() {
    let content = "---\n\
        title: \"Hello, world\"\n\
        slug: hello-world\n\
        # a comment line\n\
        description: 'A greeting'\n\
        date: 2024-01-15T00:00:00Z\n\
        tags: [rust, \"verification\"]\n\
        draft: false\n\
        ---\n\
        The body.";
    let (meta, body) = parse_post_frontmatter(content).unwrap();
    assert_eq!(meta.title, "Hello, world");
    assert_eq!(meta.slug, "hello-world");
    assert_eq!(meta.description.as_deref(), Some("A greeting"));
    assert_eq!(meta.date, Moment { year: 2024, month: 1, day: 15, hour: 0, minute: 0, second: 0 });
    assert_eq!(meta.tags, vec!["rust", "verification"]);
    assert!(!meta.draft);
    assert_eq!(meta.cover_image, None);
    assert_eq!(body, "The body.");
}

#[test]
fn post_frontmatter_requires_fields_and_good_dates() {
    let missing_draft = "---\ntitle: a\nslug: a\ndate: 2024-01-15T00:00:00Z\ntags: [x]\n---\nb";
    assert!(matches!(parse_post_frontmatter(missing_draft), Err(FrontmatterError::InvalidMetadata)));
    let bad_date = "---\ntitle: a\nslug: a\ndate: yesterday\ntags: [x]\ndraft: false\n---\nb";
    assert!(matches!(parse_post_frontmatter(bad_date), Err(FrontmatterError::InvalidMetadata)));
}

#[test]
fn project_frontmatter_parses_status() {
    let content = "---\n\
        title: Nebula\n\
        slug: nebula\n\
        date: 2023-11-02T10:30:00Z\n\
        tags: [site]\n\
        status: completed\n\
        featured: true\n\
        github_url: https://example.com/repo\n\
        ---\n\
        About the project.";
    let (meta, _body) = parse_project_frontmatter(content).unwrap();
    assert_eq!(meta.status, ProjectStatus::Completed);
    assert!(meta.featured);
    assert_eq!(meta.github_url.as_deref(), Some("https://example.com/repo"));

    let bad = "---\ntitle: a\nslug: a\ndate: 2023-11-02T10:30:00Z\ntags: []\nstatus: shelved\nfeatured: false\n---\nb";
    assert!(matches!(parse_project_frontmatter(bad), Err(FrontmatterError::InvalidMetadata)));
}

#[test]
fn rfc3339_parsing_normalises_to_utc() {
    let m = parse_rfc3339("2024-01-15T02:30:00+02:00").unwrap();
    assert_eq!(m, Moment { year: 2024, month: 1, day: 15, hour: 0, minute: 30, second: 0 });
    assert_eq!(parse_rfc3339("not a date"), None);
    assert_eq!(date_label(&m), "2024-01-15");
}

#[test]
fn config_defaults_and_errors() {
    let empty = || ConfigSource {
        host: None,
        port: None,
        database_url: Some("postgres://db".to_string()),
        content_dir: None,
        site_url: None,
        site_title: None,
        site_description: None,
        author_name: None,
        author_email: None,
        smtp_host: None,
        smtp_port: None,
        smtp_user: None,
        smtp_password: None,
        contact_email: None,
        resend_api_key: None,
        turnstile_site_key: None,
        turnstile_secret_key: None,
        admin_secret: None,
    };

    let c = Config::from_env_values(empty()).unwrap();
    assert_eq!(c.host, "0.0.0.0");
    assert_eq!(c.port, 3000);
    assert_eq!(c.content_dir, "./content");
    assert_eq!(c.site_title, "Nebula");
    assert_eq!(c.smtp_port, 587);
    assert_eq!(c.contact_email, "author@example.com");
    assert!(!c.smtp_configured());
    assert!(!c.resend_configured());
    assert!(!c.turnstile_configured());

    let mut no_db = empty();
    no_db.database_url = None;
    assert!(matches!(Config::from_env_values(no_db), Err(ConfigError::MissingDatabaseUrl)));

    let mut bad_port = empty();
    bad_port.port = Some("eighty".to_string());
    assert!(matches!(Config::from_env_values(bad_port), Err(ConfigError::InvalidPort)));

    let mut odd_smtp = empty();
    odd_smtp.smtp_port = Some("not-a-port".to_string());
    assert_eq!(Config::from_env_values(odd_smtp).unwrap().smtp_port, 587);

    let mut author_fallback = empty();
    author_fallback.author_email = Some("author@site.test".to_string());
    assert_eq!(Config::from_env_values(author_fallback).unwrap().contact_email, "author@site.test");
}

#[test]
fn port_parsing_matches_std() {
    assert_eq!(parse_u16("3000"), "3000".parse::<u16>().ok());
    assert_eq!(parse_u16("+80"), "+80".parse::<u16>().ok());
    assert_eq!(parse_u16("65536"), "65536".parse::<u16>().ok());
    assert_eq!(parse_u16(""), "".parse::<u16>().ok());
    assert_eq!(parse_u16("80x"), "80x".parse::<u16>().ok());
}

#[test]
fn contact_validation_runs_in_order() {
    let form = |name: &str, email: &str, message: &str, website: &str| ContactFormData {
        name: name.to_string(),
        email: email.to_string(),
        subject: String::new(),
        message: message.to_string(),
        website: website.to_string(),
        turnstile_response: String::new(),
    };

    assert!(honeypot_triggered(&form("a", "a@b", "hi", "filled")));
    assert!(!honeypot_triggered(&form("a", "a@b", "hi", "")));
    assert!(missing_captcha(&form("a", "a@b", "hi", ""), true));
    assert!(!missing_captcha(&form("a", "a@b", "hi", ""), false));

    assert_eq!(validate_fields(&form("  ", "a@b", "hi", "")), Some(ContactFieldError::NameRequired));
    assert_eq!(validate_fields(&form("a", "  ", "hi", "")), Some(ContactFieldError::EmailRequired));
    assert_eq!(
        validate_fields(&form("a", "no-at-sign", "hi", "")),
        Some(ContactFieldError::EmailRequired)
    );
    assert_eq!(
        validate_fields(&form("a", "a@b", " ", "")),
        Some(ContactFieldError::MessageRequired)
    );
    assert_eq!(validate_fields(&form("a", "a@b", "hi", "")), None);
}

#[test]
fn contact_mail_text_is_exact() {
    let mut form = ContactFormData {
        name: "Ada".to_string(),
        email: "ada@example.com".to_string(),
        subject: "  ".to_string(),
        message: "Hello there".to_string(),
        website: String::new(),
        turnstile_response: String::new(),
    };
    assert_eq!(subject_of(&form), None);
    form.subject = "Question".to_string();
    assert_eq!(subject_of(&form), Some("Question"));

    assert_eq!(contact_subject("Nebula", Some("Question")), "[Nebula] Contact: Question");
    assert_eq!(contact_subject("Nebula", None), "[Nebula] New contact message");
    assert_eq!(
        contact_body("Ada", "ada@example.com", None, "Hello there"),
        "New contact form submission:\n\nName: Ada\nEmail: ada@example.com\nSubject: (not specified)\n\nMessage:\nHello there\n"
    );
}

#[test]
fn reload_requires_matching_secret() {
    let q = |s: &str| ReloadQuery { secret: s.to_string() };
    assert_eq!(authorize_reload(None, &q("anything")), ReloadAuth::NotConfigured);
    let secret = "opensesame".to_string();
    assert_eq!(authorize_reload(Some(&secret), &q("wrong")), ReloadAuth::BadSecret);
    assert_eq!(authorize_reload(Some(&secret), &q("opensesame")), ReloadAuth::Authorized);
}

#[test]
fn health_and_cdn_summary() {
    let ok = health_response(true, 3, 2);
    assert_eq!(ok.status, "ok");
    assert_eq!(ok.database, "ok");
    assert_eq!(ok.posts_count, 3);
    let bad = health_response(false, 0, 0);
    assert_eq!(bad.database, "error");

    let results = vec![
        CdnTestResult {
            name: "one".to_string(),
            url: "https://cdn.test/a".to_string(),
            success: true,
            timing_ms: 12,
            error: None,
        },
        CdnTestResult {
            name: "two".to_string(),
            url: "https://cdn.test/b".to_string(),
            success: false,
            timing_ms: 900,
            error: Some("timeout".to_string()),
        },
        CdnTestResult {
            name: "three".to_string(),
            url: "https://cdn.test/c".to_string(),
            success: true,
            timing_ms: 40,
            error: None,
        },
    ];
    assert_eq!(cdn_success_count(&results), 2);
}

fn sample_post() -> Post {
    Post {
        metadata: PostMetadata {
            title: "Tags & tricks".to_string(),
            slug: "tags-and-tricks".to_string(),
            description: Some("A <short> note".to_string()),
            date: Moment { year: 2024, month: 1, day: 15, hour: 0, minute: 0, second: 0 },
            updated: None,
            tags: vec!["rust".to_string()],
            draft: false,
            cover_image: None,
        },
        content_raw: "Hello".to_string(),
        content_html: "<p>Hello</p>".to_string(),
        reading_time_minutes: 1,
    }
}

#[test]
fn sitemap_lists_pages_posts_and_projects() {
    let posts = vec![sample_post()];
    let projects = vec![];
    let xml = sitemap_xml("https://site.test", &posts, &projects);
    assert!(xml.starts_with("<?xml version=\"1.0\" encoding=\"UTF-8\"?>"));
    assert!(xml.contains("<url><loc>https://site.test/blog</loc>"));
    assert!(xml.contains(
        "<url><loc>https://site.test/blog/tags-and-tricks</loc><lastmod>2024-01-15</lastmod>"
    ));
    assert!(xml.ends_with("</urlset>"));
}

#[test]
fn rss_escapes_text_and_dates_posts() {
    let posts = vec![sample_post()];
    let xml = rss_xml("Nebula", "https://site.test", "Notes & more", &posts);
    assert!(xml.contains("<description>Notes &amp; more</description>"));
    assert!(xml.contains("<title>Tags &amp; tricks</title>"));
    assert!(xml.contains("<description>A &lt;short&gt; note</description>"));
    assert!(xml.contains("<pubDate>Mon, 15 Jan 2024 00:00:00 +0000</pubDate>"));
    assert!(xml.contains("<content:encoded>&lt;p&gt;Hello&lt;/p&gt;</content:encoded>"));
    // A date chrono refuses is rendered as an absent value, not a panic.
    let odd = format_rfc2822(&Moment { year: 2024, month: 2, day: 30, hour: 0, minute: 0, second: 0 });
    assert_eq!(odd, "");
}
