//! The content model: blog posts and projects with their metadata, viewed
//! as plain mathematical records for specification.

use vstd::prelude::*;

use crate::date::Moment;
use crate::text::word_count;
use crate::views::view_opt_string;

verus! {

/// Blog post metadata parsed from a content file's header.
#[derive(Debug)]
pub struct PostMetadata {
    pub title: String,
    pub slug: String,
    pub description: Option<String>,
    pub date: Moment,
    pub updated: Option<Moment>,
    pub tags: Vec<String>,
    pub draft: bool,
    pub cover_image: Option<String>,
}

/// The mathematical value of a `PostMetadata`.
#[verifier::ext_equal]
pub ghost struct PostMetadataView {
    pub title: Seq<char>,
    pub slug: Seq<char>,
    pub description: Option<Seq<char>>,
    pub date: Moment,
    pub updated: Option<Moment>,
    pub tags: Seq<Seq<char>>,
    pub draft: bool,
    pub cover_image: Option<Seq<char>>,
}

impl View for PostMetadata {
    type V = PostMetadataView;

    open spec fn view(&self) -> PostMetadataView {
        PostMetadataView {
            title: self.title@,
            slug: self.slug@,
            description: view_opt_string(self.description),
            date: self.date,
            updated: self.updated,
            tags: self.tags@.map_values(|t: String| t@),
            draft: self.draft,
            cover_image: view_opt_string(self.cover_image),
        }
    }
}

/// A complete blog post: metadata plus raw and rendered body.
#[derive(Debug)]
pub struct Post {
    pub metadata: PostMetadata,
    pub content_raw: String,
    pub content_html: String,
    pub reading_time_minutes: u32,
}

/// The mathematical value of a `Post`.
#[verifier::ext_equal]
pub ghost struct PostView {
    pub metadata: PostMetadataView,
    pub content_raw: Seq<char>,
    pub content_html: Seq<char>,
    pub reading_time_minutes: u32,
}

impl View for Post {
    type V = PostView;

    open spec fn view(&self) -> PostView {
        PostView {
            metadata: self.metadata@,
            content_raw: self.content_raw@,
            content_html: self.content_html@,
            reading_time_minutes: self.reading_time_minutes,
        }
    }
}

/// Project development status.
#[derive(Debug, Clone, Copy, PartialEq, Eq, Structural)]
pub enum ProjectStatus {
    Active,
    Completed,
    Archived,
    Planned,
}

/// The display label of a project status.
pub open spec fn status_label_spec(status: ProjectStatus) -> Seq<char> {
    match status {
        ProjectStatus::Active => "Active"@,
        ProjectStatus::Completed => "Completed"@,
        ProjectStatus::Archived => "Archived"@,
        ProjectStatus::Planned => "Planned"@,
    }
}

/// Renders a project status for display.
pub fn status_label(status: &ProjectStatus) -> (r: &'static str)
    ensures
        r@ == status_label_spec(*status),
{
    match status {
        ProjectStatus::Active => "Active",
        ProjectStatus::Completed => "Completed",
        ProjectStatus::Archived => "Archived",
        ProjectStatus::Planned => "Planned",
    }
}

/// Project metadata parsed from a content file's header.
#[derive(Debug)]
pub struct ProjectMetadata {
    pub title: String,
    pub slug: String,
    pub description: Option<String>,
    pub date: Moment,
    pub updated: Option<Moment>,
    pub tags: Vec<String>,
    pub status: ProjectStatus,
    pub github_url: Option<String>,
    pub demo_url: Option<String>,
    pub featured: bool,
}

/// The mathematical value of a `ProjectMetadata`.
#[verifier::ext_equal]
pub ghost struct ProjectMetadataView {
    pub title: Seq<char>,
    pub slug: Seq<char>,
    pub description: Option<Seq<char>>,
    pub date: Moment,
    pub updated: Option<Moment>,
    pub tags: Seq<Seq<char>>,
    pub status: ProjectStatus,
    pub github_url: Option<Seq<char>>,
    pub demo_url: Option<Seq<char>>,
    pub featured: bool,
}

impl View for ProjectMetadata {
    type V = ProjectMetadataView;

    open spec fn view(&self) -> ProjectMetadataView {
        ProjectMetadataView {
            title: self.title@,
            slug: self.slug@,
            description: view_opt_string(self.description),
            date: self.date,
            updated: self.updated,
            tags: self.tags@.map_values(|t: String| t@),
            status: self.status,
            github_url: view_opt_string(self.github_url),
            demo_url: view_opt_string(self.demo_url),
            featured: self.featured,
        }
    }
}

/// A complete project page: metadata plus raw and rendered body.
#[derive(Debug)]
pub struct Project {
    pub metadata: ProjectMetadata,
    pub content_raw: String,
    pub content_html: String,
}

/// The mathematical value of a `Project`.
#[verifier::ext_equal]
pub ghost struct ProjectView {
    pub metadata: ProjectMetadataView,
    pub content_raw: Seq<char>,
    pub content_html: Seq<char>,
}

impl View for Project {
    type V = ProjectView;

    open spec fn view(&self) -> ProjectView {
        ProjectView {
            metadata: self.metadata@,
            content_raw: self.content_raw@,
            content_html: self.content_html@,
        }
    }
}

/// Copies a vector of strings, keeping every element's characters.
pub(crate) fn clone_string_vec(v: &Vec<String>) -> (r: Vec<String>)
    ensures
        r@ == v@,
{
    let n = v.len();
    let mut r: Vec<String> = Vec::new();
    let mut i: usize = 0;
    while i < n
        invariant
            n == v@.len(),
            i <= n,
            r@ == v@.subrange(0, i as int),
        decreases n - i,
    {
        r.push(v[i].clone());
        assert(r@ =~= v@.subrange(0, i + 1));
        i = i + 1;
    }
    assert(r@ =~= v@);
    r
}

/// Copies an optional string, keeping its characters.
pub(crate) fn clone_opt_string(o: &Option<String>) -> (r: Option<String>)
    ensures
        r == *o,
{
    match o {
        Option::Some(s) => Option::Some(s.clone()),
        Option::None => Option::None,
    }
}

impl Clone for PostMetadata {
    fn clone(&self) -> (r: Self)
        ensures
            r@ == self@,
    {
        let r = PostMetadata {
            title: self.title.clone(),
            slug: self.slug.clone(),
            description: clone_opt_string(&self.description),
            date: self.date,
            updated: self.updated,
            tags: clone_string_vec(&self.tags),
            draft: self.draft,
            cover_image: clone_opt_string(&self.cover_image),
        };
        assert(r@ =~= self@);
        r
    }
}

impl Clone for Post {
    fn clone(&self) -> (r: Self)
        ensures
            r@ == self@,
    {
        let r = Post {
            metadata: self.metadata.clone(),
            content_raw: self.content_raw.clone(),
            content_html: self.content_html.clone(),
            reading_time_minutes: self.reading_time_minutes,
        };
        assert(r@ =~= self@);
        r
    }
}

impl Clone for ProjectMetadata {
    fn clone(&self) -> (r: Self)
        ensures
            r@ == self@,
    {
        let r = ProjectMetadata {
            title: self.title.clone(),
            slug: self.slug.clone(),
            description: clone_opt_string(&self.description),
            date: self.date,
            updated: self.updated,
            tags: clone_string_vec(&self.tags),
            status: self.status,
            github_url: clone_opt_string(&self.github_url),
            demo_url: clone_opt_string(&self.demo_url),
            featured: self.featured,
        };
        assert(r@ =~= self@);
        r
    }
}

impl Clone for Project {
    fn clone(&self) -> (r: Self)
        ensures
            r@ == self@,
    {
        let r = Project {
            metadata: self.metadata.clone(),
            content_raw: self.content_raw.clone(),
            content_html: self.content_html.clone(),
        };
        assert(r@ =~= self@);
        r
    }
}

/// The reading-time estimate for a body: its word count at two hundred
/// words a minute, rounded up, capped at the widest value the field holds.
pub open spec fn reading_time_spec(s: Seq<char>) -> nat {
    let t = (word_count(s) + 199) / 200;
    if t > u32::MAX {
        u32::MAX as nat
    } else {
        t
    }
}

proof fn lemma_ceil_div(a: int, d: int)
    requires
        0 <= a,
        0 < d,
    ensures
        (a + d - 1) / d == a / d + if a % d != 0 {
            1int
        } else {
            0int
        },
{
    let q = a / d;
    let r = a % d;
    vstd::arithmetic::div_mod::lemma_fundamental_div_mod(a, d);
    if r != 0 {
        vstd::arithmetic::div_mod::lemma_div_multiples_vanish_fancy(q + 1, r - 1, d);
        assert(d * (q + 1) + (r - 1) == a + d - 1) by {
            vstd::arithmetic::mul::lemma_mul_is_distributive_add(d, q, 1);
        }
    } else {
        vstd::arithmetic::div_mod::lemma_div_multiples_vanish_fancy(q, d - 1, d);
        assert(d * q + (d - 1) == a + d - 1);
    }
}

impl Post {
    /// Estimates reading time from the word count, at two hundred words
    /// per minute, rounding up.
    pub fn estimate_reading_time(content: &str) -> (r: u32)
        ensures
            r == reading_time_spec(content@),
    {
        let w = crate::text::words_in(content);
        let q = w / 200 + if w % 200 != 0 {
            1
        } else {
            0
        };
        proof {
            lemma_ceil_div(w as int, 200);
        }
        if q > u32::MAX as usize {
            u32::MAX
        } else {
            q as u32
        }
    }
}

} // verus!
