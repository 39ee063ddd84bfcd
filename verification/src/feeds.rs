//! Feed and sitemap documents, built character-exactly: the sitemap URL
//! set and the RSS channel for the published posts.

use vstd::prelude::*;

use crate::date::{date_label, date_label_spec, format_rfc2822, rfc2822_of, Moment};
use crate::models::{Post, PostView, Project, ProjectView};
use crate::text::push_char;

verus! {

/// The day a content item last changed: its update timestamp when it has
/// one, else its publication timestamp.
pub open spec fn last_changed(date: Moment, updated: Option<Moment>) -> Moment {
    match updated {
        Option::Some(u) => u,
        Option::None => date,
    }
}

/// Text with the XML-active characters `&`, `<` and `>` replaced by
/// entities.
pub open spec fn xml_escape_spec(s: Seq<char>) -> Seq<char>
    decreases s.len(),
{
    if s.len() == 0 {
        Seq::empty()
    } else {
        xml_escape_spec(s.drop_last()) + (if s.last() == '&' {
            "&amp;"@
        } else if s.last() == '<' {
            "&lt;"@
        } else if s.last() == '>' {
            "&gt;"@
        } else {
            seq![s.last()]
        })
    }
}

/// Appends `s` to `out` with XML-active characters escaped.
fn push_escaped(out: &mut String, s: &str)
    ensures
        final(out)@ == old(out)@ + xml_escape_spec(s@),
{
    let v = crate::text::chars_of(s);
    let n = v.len();
    let mut i: usize = 0;
    proof {
        assert(old(out)@ + xml_escape_spec(s@.subrange(0, 0)) =~= old(out)@);
    }
    while i < n
        invariant
            v@ == s@,
            n == s@.len(),
            i <= n,
            out@ == old(out)@ + xml_escape_spec(s@.subrange(0, i as int)),
        decreases n - i,
    {
        let ghost pre = out@;
        let c = v[i];
        if c == '&' {
            out.append("&amp;");
        } else if c == '<' {
            out.append("&lt;");
        } else if c == '>' {
            out.append("&gt;");
        } else {
            push_char(out, c);
        }
        proof {
            assert(s@.subrange(0, i + 1).drop_last() =~= s@.subrange(0, i as int));
            assert(s@.subrange(0, i + 1).last() == s@[i as int]);
            if !(c == '&' || c == '<' || c == '>') {
                assert(pre.push(c) =~= pre + seq![c]);
            }
            assert(out@ =~= old(out)@ + xml_escape_spec(s@.subrange(0, i + 1)));
        }
        i = i + 1;
    }
    proof {
        assert(s@.subrange(0, n as int) =~= s@);
    }
}

/// One sitemap entry for a fixed page.
pub open spec fn static_page_entry(base: Seq<char>, path: Seq<char>) -> Seq<char> {
    "<url><loc>"@ + base + path + "</loc><changefreq>weekly</changefreq></url>"@
}

/// One sitemap entry for a blog post.
pub open spec fn post_sitemap_entry(base: Seq<char>, p: PostView) -> Seq<char> {
    "<url><loc>"@ + base + "/blog/"@ + p.metadata.slug + "</loc><lastmod>"@ + date_label_spec(
        last_changed(p.metadata.date, p.metadata.updated),
    ) + "</lastmod><changefreq>monthly</changefreq></url>"@
}

/// One sitemap entry for a project page.
pub open spec fn project_sitemap_entry(base: Seq<char>, p: ProjectView) -> Seq<char> {
    "<url><loc>"@ + base + "/projects/"@ + p.metadata.slug + "</loc><lastmod>"@ + date_label_spec(
        last_changed(p.metadata.date, p.metadata.updated),
    ) + "</lastmod><changefreq>monthly</changefreq></url>"@
}

/// The post entries, in the order given.
pub open spec fn post_sitemap_entries(base: Seq<char>, ps: Seq<PostView>) -> Seq<char>
    decreases ps.len(),
{
    if ps.len() == 0 {
        Seq::empty()
    } else {
        post_sitemap_entries(base, ps.drop_last()) + post_sitemap_entry(base, ps.last())
    }
}

/// The project entries, in the order given.
pub open spec fn project_sitemap_entries(base: Seq<char>, ps: Seq<ProjectView>) -> Seq<char>
    decreases ps.len(),
{
    if ps.len() == 0 {
        Seq::empty()
    } else {
        project_sitemap_entries(base, ps.drop_last()) + project_sitemap_entry(base, ps.last())
    }
}

/// The whole sitemap: the XML prologue, the URL-set opening, an entry
/// for each fixed page, one for each given post and project, and the
/// closing tag.
pub open spec fn sitemap_spec(base: Seq<char>, ps: Seq<PostView>, rs: Seq<ProjectView>) -> Seq<
    char,
> {
    "<?xml version=\"1.0\" encoding=\"UTF-8\"?>"@
        + "<urlset xmlns=\"http://www.sitemaps.org/schemas/sitemap/0.9\">"@ + static_page_entry(
        base,
        ""@,
    ) + static_page_entry(base, "/blog"@) + static_page_entry(base, "/projects"@)
        + static_page_entry(base, "/resume"@) + static_page_entry(base, "/contact"@)
        + post_sitemap_entries(base, ps) + project_sitemap_entries(base, rs) + "</urlset>"@
}

fn push_static_entry(out: &mut String, base: &str, path: &str)
    ensures
        final(out)@ == old(out)@ + static_page_entry(base@, path@),
{
    out.append("<url><loc>");
    out.append(base);
    out.append(path);
    out.append("</loc><changefreq>weekly</changefreq></url>");
}

fn push_post_entry(out: &mut String, base: &str, p: &Post)
    ensures
        final(out)@ == old(out)@ + post_sitemap_entry(base@, p@),
{
    out.append("<url><loc>");
    out.append(base);
    out.append("/blog/");
    out.append(p.metadata.slug.as_str());
    out.append("</loc><lastmod>");
    let when = match &p.metadata.updated {
        Option::Some(u) => *u,
        Option::None => p.metadata.date,
    };
    let label = date_label(&when);
    out.append(label.as_str());
    out.append("</lastmod><changefreq>monthly</changefreq></url>");
}

fn push_project_entry(out: &mut String, base: &str, p: &Project)
    ensures
        final(out)@ == old(out)@ + project_sitemap_entry(base@, p@),
{
    out.append("<url><loc>");
    out.append(base);
    out.append("/projects/");
    out.append(p.metadata.slug.as_str());
    out.append("</loc><lastmod>");
    let when = match &p.metadata.updated {
        Option::Some(u) => *u,
        Option::None => p.metadata.date,
    };
    let label = date_label(&when);
    out.append(label.as_str());
    out.append("</lastmod><changefreq>monthly</changefreq></url>");
}

/// Builds the sitemap for the given pages, posts and projects.
pub fn sitemap_xml(base_url: &str, posts: &Vec<Post>, projects: &Vec<Project>) -> (r: String)
    ensures
        r@ == sitemap_spec(
            base_url@,
            posts@.map_values(|p: Post| p@),
            projects@.map_values(|p: Project| p@),
        ),
{
    let mut out = String::from_str("<?xml version=\"1.0\" encoding=\"UTF-8\"?>");
    out.append("<urlset xmlns=\"http://www.sitemaps.org/schemas/sitemap/0.9\">");
    push_static_entry(&mut out, base_url, "");
    push_static_entry(&mut out, base_url, "/blog");
    push_static_entry(&mut out, base_url, "/projects");
    push_static_entry(&mut out, base_url, "/resume");
    push_static_entry(&mut out, base_url, "/contact");
    let ghost pm = posts@.map_values(|p: Post| p@);
    let ghost head = out@;
    let n = posts.len();
    let mut i: usize = 0;
    proof {
        assert(head + post_sitemap_entries(base_url@, pm.subrange(0, 0)) =~= head);
    }
    while i < n
        invariant
            pm == posts@.map_values(|p: Post| p@),
            n == posts@.len(),
            i <= n,
            out@ == head + post_sitemap_entries(base_url@, pm.subrange(0, i as int)),
        decreases n - i,
    {
        push_post_entry(&mut out, base_url, &posts[i]);
        proof {
            assert(pm.subrange(0, i + 1).drop_last() =~= pm.subrange(0, i as int));
            assert(pm.subrange(0, i + 1).last() == pm[i as int]);
            assert(out@ =~= head + post_sitemap_entries(base_url@, pm.subrange(0, i + 1)));
        }
        i = i + 1;
    }
    proof {
        assert(pm.subrange(0, n as int) =~= pm);
    }
    let ghost rm = projects@.map_values(|p: Project| p@);
    let ghost head2 = out@;
    let m = projects.len();
    let mut j: usize = 0;
    proof {
        assert(head2 + project_sitemap_entries(base_url@, rm.subrange(0, 0)) =~= head2);
    }
    while j < m
        invariant
            rm == projects@.map_values(|p: Project| p@),
            m == projects@.len(),
            j <= m,
            out@ == head2 + project_sitemap_entries(base_url@, rm.subrange(0, j as int)),
        decreases m - j,
    {
        push_project_entry(&mut out, base_url, &projects[j]);
        proof {
            assert(rm.subrange(0, j + 1).drop_last() =~= rm.subrange(0, j as int));
            assert(rm.subrange(0, j + 1).last() == rm[j as int]);
            assert(out@ =~= head2 + project_sitemap_entries(base_url@, rm.subrange(0, j + 1)));
        }
        j = j + 1;
    }
    proof {
        assert(rm.subrange(0, m as int) =~= rm);
    }
    out.append("</urlset>");
    proof {
        assert(out@ =~= sitemap_spec(base_url@, pm, rm));
    }
    out
}

/// The text inside an item's publication-date element: the RFC 2822 form
/// of the date for the years that format can write, nothing otherwise.
pub open spec fn pubdate_text(m: Moment) -> Seq<char> {
    if 0 <= m.year <= 9999 {
        rfc2822_of(m)
    } else {
        Seq::empty()
    }
}

/// One RSS item: title, page link, optional description, publication
/// date, and the rendered body, text escaped.
pub open spec fn rss_item_spec(base: Seq<char>, p: PostView) -> Seq<char> {
    "<item><title>"@ + xml_escape_spec(p.metadata.title) + "</title><link>"@ + base + "/blog/"@
        + p.metadata.slug + "</link>"@ + (match p.metadata.description {
        Option::Some(d) => "<description>"@ + xml_escape_spec(d) + "</description>"@,
        Option::None => Seq::empty(),
    }) + "<pubDate>"@ + pubdate_text(p.metadata.date) + "</pubDate><content:encoded>"@
        + xml_escape_spec(p.content_html) + "</content:encoded></item>"@
}

/// The items, in the order given.
pub open spec fn rss_items_spec(base: Seq<char>, ps: Seq<PostView>) -> Seq<char>
    decreases ps.len(),
{
    if ps.len() == 0 {
        Seq::empty()
    } else {
        rss_items_spec(base, ps.drop_last()) + rss_item_spec(base, ps.last())
    }
}

/// The whole RSS channel for the given posts.
pub open spec fn rss_spec(
    title: Seq<char>,
    base: Seq<char>,
    description: Seq<char>,
    ps: Seq<PostView>,
) -> Seq<char> {
    "<?xml version=\"1.0\" encoding=\"utf-8\"?>"@
        + "<rss version=\"2.0\" xmlns:content=\"http://purl.org/rss/1.0/modules/content/\">"@
        + "<channel><title>"@ + xml_escape_spec(title) + "</title><link>"@ + xml_escape_spec(base)
        + "</link><description>"@ + xml_escape_spec(description) + "</description>"@
        + rss_items_spec(base, ps) + "</channel></rss>"@
}

fn push_rss_item(out: &mut String, base: &str, p: &Post)
    ensures
        final(out)@ == old(out)@ + rss_item_spec(base@, p@),
{
    out.append("<item><title>");
    push_escaped(out, p.metadata.title.as_str());
    out.append("</title><link>");
    out.append(base);
    out.append("/blog/");
    out.append(p.metadata.slug.as_str());
    out.append("</link>");
    match &p.metadata.description {
        Option::Some(d) => {
            out.append("<description>");
            push_escaped(out, d.as_str());
            out.append("</description>");
        },
        Option::None => {},
    }
    out.append("<pubDate>");
    if 0 <= p.metadata.date.year && p.metadata.date.year <= 9999 {
        let when = format_rfc2822(&p.metadata.date);
        out.append(when.as_str());
    }
    out.append("</pubDate><content:encoded>");
    push_escaped(out, p.content_html.as_str());
    out.append("</content:encoded></item>");
}

/// Builds the RSS channel document for the given posts.
pub fn rss_xml(site_title: &str, base_url: &str, site_description: &str, posts: &Vec<Post>) -> (r:
    String)
    ensures
        r@ == rss_spec(
            site_title@,
            base_url@,
            site_description@,
            posts@.map_values(|p: Post| p@),
        ),
{
    let mut out = String::from_str("<?xml version=\"1.0\" encoding=\"utf-8\"?>");
    out.append("<rss version=\"2.0\" xmlns:content=\"http://purl.org/rss/1.0/modules/content/\">");
    out.append("<channel><title>");
    push_escaped(&mut out, site_title);
    out.append("</title><link>");
    push_escaped(&mut out, base_url);
    out.append("</link><description>");
    push_escaped(&mut out, site_description);
    out.append("</description>");
    let ghost pm = posts@.map_values(|p: Post| p@);
    let ghost head = out@;
    let n = posts.len();
    let mut i: usize = 0;
    proof {
        assert(head + rss_items_spec(base_url@, pm.subrange(0, 0)) =~= head);
    }
    while i < n
        invariant
            pm == posts@.map_values(|p: Post| p@),
            n == posts@.len(),
            i <= n,
            out@ == head + rss_items_spec(base_url@, pm.subrange(0, i as int)),
        decreases n - i,
    {
        push_rss_item(&mut out, base_url, &posts[i]);
        proof {
            assert(pm.subrange(0, i + 1).drop_last() =~= pm.subrange(0, i as int));
            assert(pm.subrange(0, i + 1).last() == pm[i as int]);
            assert(out@ =~= head + rss_items_spec(base_url@, pm.subrange(0, i + 1)));
        }
        i = i + 1;
    }
    proof {
        assert(pm.subrange(0, n as int) =~= pm);
    }
    out.append("</channel></rss>");
    proof {
        assert(out@ =~= rss_spec(site_title@, base_url@, site_description@, pm));
    }
    out
}

} // verus!
