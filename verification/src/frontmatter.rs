//! The content-file header: a `---`-delimited metadata block followed by
//! the body, parsed with a permissive line-oriented key/value reader and
//! turned into typed post or project metadata.

use vstd::prelude::*;

use crate::date::{parse_rfc3339, rfc3339_of, Moment};
use crate::models::{
    clone_string_vec, PostMetadata, PostMetadataView, ProjectMetadata, ProjectMetadataView,
    ProjectStatus,
};
use crate::text::{
    chars_of, comma_like_split_point, find_char, find_sub, find_sub_spec, lemma_split_point_at,
    split_char, split_char_spec, str_eq, trim, trim_char, trim_char_spec, trim_spec,
};

verus! {

/// Why a content file was rejected.
#[derive(Debug, Clone, Copy, PartialEq, Eq, Structural)]
pub enum FrontmatterError {
    /// The file does not open with a `---` header fence.
    MissingHeader,
    /// The opening fence has no closing `---`.
    UnclosedHeader,
    /// The header fields do not form the metadata the item needs.
    InvalidMetadata,
}

/// How a content file divides: the text between the two `---` fences and
/// the trimmed body after the second fence.
pub open spec fn split_frontmatter_spec(s: Seq<char>) -> Result<
    (Seq<char>, Seq<char>),
    FrontmatterError,
> {
    let t = trim_spec(s);
    if !(t.len() >= 3 && t.subrange(0, 3) == seq!['-', '-', '-']) {
        Result::Err(FrontmatterError::MissingHeader)
    } else {
        let rest = t.skip(3);
        match find_sub_spec(rest, seq!['-', '-', '-']) {
            Option::None => Result::Err(FrontmatterError::UnclosedHeader),
            Option::Some(i) => Result::Ok(
                (rest.subrange(0, i), trim_spec(rest.skip(i + 3))),
            ),
        }
    }
}

/// Splits a content file into its header text and its body.
pub fn split_frontmatter(content: &str) -> (r: Result<(String, String), FrontmatterError>)
    ensures
        ({
            match (r, split_frontmatter_spec(content@)) {
                (Result::Ok((h, b)), Result::Ok(hb)) => h@ == hb.0 && b@ == hb.1,
                (Result::Err(e), Result::Err(e2)) => e == e2,
                _ => false,
            }
        }),
{
    let t = trim(content);
    let n = t.unicode_len();
    let fence_start = n >= 3 && t.get_char(0) == '-' && t.get_char(1) == '-' && t.get_char(2)
        == '-';
    proof {
        if fence_start {
            assert(t@.subrange(0, 3) =~= seq!['-', '-', '-']);
        } else {
            if t@.len() >= 3 && t@.subrange(0, 3) == seq!['-', '-', '-'] {
                assert(t@[0] == t@.subrange(0, 3)[0]);
                assert(t@[1] == t@.subrange(0, 3)[1]);
                assert(t@[2] == t@.subrange(0, 3)[2]);
            }
        }
    }
    if !fence_start {
        return Result::Err(FrontmatterError::MissingHeader);
    }
    let rest = t.substring_char(3, n);
    proof {
        assert(rest@ =~= t@.skip(3));
    }
    let rv = chars_of(rest);
    let mut fence: Vec<char> = Vec::new();
    fence.push('-');
    fence.push('-');
    fence.push('-');
    proof {
        assert(fence@ =~= seq!['-', '-', '-']);
    }
    match find_sub(&rv, &fence) {
        Option::None => Result::Err(FrontmatterError::UnclosedHeader),
        Option::Some(i) => {
            let rn = rest.unicode_len();
            let header = rest.substring_char(0, i);
            let after = rest.substring_char(i + 3, rn);
            let body = trim(after);
            proof {
                assert(after@ =~= rest@.skip(i + 3));
            }
            Result::Ok((header.to_owned(), body.to_owned()))
        },
    }
}

/// One parsed header field value: quoted or bare text, a boolean flag, or
/// a bracketed list.
#[derive(Debug)]
pub enum FieldValue {
    Text(String),
    Flag(bool),
    List(Vec<String>),
}

/// The mathematical value of a `FieldValue`.
pub ghost enum FieldValueView {
    Text(Seq<char>),
    Flag(bool),
    List(Seq<Seq<char>>),
}

impl View for FieldValue {
    type V = FieldValueView;

    open spec fn view(&self) -> FieldValueView {
        match self {
            FieldValue::Text(s) => FieldValueView::Text(s@),
            FieldValue::Flag(b) => FieldValueView::Flag(*b),
            FieldValue::List(v) => FieldValueView::List(v@.map_values(|s: String| s@)),
        }
    }
}

/// What one header line contributes: nothing for blank or comment lines
/// and lines without a colon; otherwise the trimmed key and the
/// classified value. A value is stripped of outer whitespace, then double
/// quotes, then single quotes; `[..]` makes a list of comma-separated
/// entries (each trimmed and stripped of double quotes), bare `true` or
/// `false` makes a flag, and anything else stays text.
pub open spec fn parse_line_spec(line: Seq<char>) -> Option<(Seq<char>, FieldValueView)> {
    let t = trim_spec(line);
    if t.len() == 0 || t[0] == '#' {
        Option::None
    } else {
        let ci = comma_like_split_point(t, ':');
        if ci == t.len() {
            Option::None
        } else {
            let key = trim_spec(t.subrange(0, ci));
            let v = trim_char_spec(
                trim_char_spec(trim_spec(t.subrange(ci + 1, t.len() as int)), '"'),
                '\'',
            );
            if v.len() > 0 && v[0] == '[' && v.last() == ']' {
                let items = split_char_spec(v.subrange(1, v.len() - 1), ',').map_values(
                    |it: Seq<char>| trim_char_spec(trim_spec(it), '"'),
                );
                Option::Some((key, FieldValueView::List(items)))
            } else if v == seq!['t', 'r', 'u', 'e'] {
                Option::Some((key, FieldValueView::Flag(true)))
            } else if v == seq!['f', 'a', 'l', 's', 'e'] {
                Option::Some((key, FieldValueView::Flag(false)))
            } else {
                Option::Some((key, FieldValueView::Text(v)))
            }
        }
    }
}

/// Parses one header line.
fn parse_line(line: &str) -> (r: Option<(String, FieldValue)>)
    ensures
        ({
            match (r, parse_line_spec(line@)) {
                (Option::Some(kv), Option::Some(sv)) => kv.0@ == sv.0 && kv.1@ == sv.1,
                (Option::None, Option::None) => true,
                _ => false,
            }
        }),
{
    let t = trim(line);
    let n = t.unicode_len();
    if n == 0 {
        return Option::None;
    }
    if t.get_char(0) == '#' {
        return Option::None;
    }
    let ci = match find_char(t, ':') {
        Option::Some(i) => {
            proof {
                lemma_split_point_at(t@, ':', i as int);
            }
            i
        },
        Option::None => {
            proof {
                lemma_split_point_at(t@, ':', n as int);
            }
            return Option::None;
        },
    };
    let key = trim(t.substring_char(0, ci)).to_owned();
    let v0 = t.substring_char(ci + 1, n);
    proof {
        assert(v0@ =~= t@.subrange(ci + 1, t@.len() as int));
    }
    let v1 = trim(v0);
    let v2 = trim_char(v1, '"');
    let v = trim_char(v2, '\'');
    let m = v.unicode_len();
    if m > 0 && v.get_char(0) == '[' && v.get_char(m - 1) == ']' {
        let inner = v.substring_char(1, m - 1);
        proof {
            assert(inner@ =~= v@.subrange(1, v@.len() - 1));
        }
        let pieces = split_char(inner, ',');
        let pn = pieces.len();
        let mut items: Vec<String> = Vec::new();
        let mut k: usize = 0;
        while k < pn
            invariant
                pn == pieces@.len(),
                k <= pn,
                items@.len() == k,
                forall|j: int|
                    0 <= j < k ==> (#[trigger] items@[j])@ == trim_char_spec(
                        trim_spec(pieces@[j]@),
                        '"',
                    ),
            decreases pn - k,
        {
            let it = trim_char(trim(pieces[k].as_str()), '"').to_owned();
            items.push(it);
            k = k + 1;
        }
        proof {
            let ghost expect = split_char_spec(v@.subrange(1, v@.len() - 1), ',').map_values(
                |it: Seq<char>| trim_char_spec(trim_spec(it), '"'),
            );
            assert(items@.map_values(|s: String| s@) =~= expect);
        }
        Option::Some((key, FieldValue::List(items)))
    } else if str_eq(v, "true") {
        proof {
            reveal_strlit("true");
            assert(v@ =~= seq!['t', 'r', 'u', 'e']);
        }
        Option::Some((key, FieldValue::Flag(true)))
    } else if str_eq(v, "false") {
        proof {
            reveal_strlit("false");
            assert(v@ =~= seq!['f', 'a', 'l', 's', 'e']);
        }
        Option::Some((key, FieldValue::Flag(false)))
    } else {
        proof {
            reveal_strlit("true");
            reveal_strlit("false");
            assert(v@ != seq!['t', 'r', 'u', 'e']) by {
                if v@ == seq!['t', 'r', 'u', 'e'] {
                    assert(v@ =~= "true"@);
                }
            }
            assert(v@ != seq!['f', 'a', 'l', 's', 'e']) by {
                if v@ == seq!['f', 'a', 'l', 's', 'e'] {
                    assert(v@ =~= "false"@);
                }
            }
        }
        Option::Some((key, FieldValue::Text(v.to_owned())))
    }
}

/// The fields contributed by a sequence of header lines, in order.
pub open spec fn fields_of(lines: Seq<Seq<char>>) -> Seq<(Seq<char>, FieldValueView)>
    decreases lines.len(),
{
    if lines.len() == 0 {
        Seq::empty()
    } else {
        fields_of(lines.drop_last()) + (match parse_line_spec(lines.last()) {
            Option::Some(kv) => seq![kv],
            Option::None => Seq::empty(),
        })
    }
}

/// The fields of a whole header text, line by line.
pub open spec fn simple_fields_spec(header: Seq<char>) -> Seq<(Seq<char>, FieldValueView)> {
    fields_of(split_char_spec(header, '\n'))
}

/// Parses the key/value lines of a header, skipping blank lines, comment
/// lines and lines without a colon.
pub fn parse_simple_fields(header: &str) -> (r: Vec<(String, FieldValue)>)
    ensures
        r@.map_values(|kv: (String, FieldValue)| (kv.0@, kv.1@)) == simple_fields_spec(header@),
{
    let lines = split_char(header, '\n');
    let ghost lv = lines@.map_values(|s: String| s@);
    let n = lines.len();
    let mut r: Vec<(String, FieldValue)> = Vec::new();
    let mut i: usize = 0;
    proof {
        assert(lv.subrange(0, 0) =~= Seq::<Seq<char>>::empty());
    }
    while i < n
        invariant
            lv == lines@.map_values(|s: String| s@),
            lv == split_char_spec(header@, '\n'),
            n == lines@.len(),
            i <= n,
            r@.map_values(|kv: (String, FieldValue)| (kv.0@, kv.1@)) == fields_of(
                lv.subrange(0, i as int),
            ),
        decreases n - i,
    {
        let ghost rb = r@;
        proof {
            assert(lv.subrange(0, i + 1).drop_last() =~= lv.subrange(0, i as int));
            assert(lv.subrange(0, i + 1).last() == lv[i as int]);
            assert(lines@[i as int]@ == lv[i as int]);
        }
        match parse_line(lines[i].as_str()) {
            Option::Some(kv) => {
                r.push(kv);
                proof {
                    assert(r@.map_values(|kv: (String, FieldValue)| (kv.0@, kv.1@)) =~= fields_of(
                        lv.subrange(0, i + 1),
                    ));
                }
            },
            Option::None => {
                proof {
                    assert(r@.map_values(|kv: (String, FieldValue)| (kv.0@, kv.1@)) =~= fields_of(
                        lv.subrange(0, i + 1),
                    ));
                }
            },
        }
        i = i + 1;
    }
    proof {
        assert(lv.subrange(0, n as int) =~= lv);
    }
    r
}

/// The value stored under `key`, the last occurrence winning, as the
/// strict decoder's map construction would keep it.
pub open spec fn field_of(fs: Seq<(Seq<char>, FieldValueView)>, key: Seq<char>) -> Option<
    FieldValueView,
>
    decreases fs.len(),
{
    if fs.len() == 0 {
        Option::None
    } else if fs.last().0 == key {
        Option::Some(fs.last().1)
    } else {
        field_of(fs.drop_last(), key)
    }
}

proof fn lemma_field_of_at(fs: Seq<(Seq<char>, FieldValueView)>, key: Seq<char>, i: int)
    requires
        0 <= i < fs.len(),
        fs[i].0 == key,
        forall|j: int| i < j < fs.len() ==> (#[trigger] fs[j]).0 != key,
    ensures
        field_of(fs, key) == Option::Some(fs[i].1),
    decreases fs.len(),
{
    if i < fs.len() - 1 {
        assert(fs.last().0 != key);
        lemma_field_of_at(fs.drop_last(), key, i);
    }
}

proof fn lemma_field_of_absent(fs: Seq<(Seq<char>, FieldValueView)>, key: Seq<char>)
    requires
        forall|j: int| 0 <= j < fs.len() ==> (#[trigger] fs[j]).0 != key,
    ensures
        field_of(fs, key) == Option::<FieldValueView>::None,
    decreases fs.len(),
{
    if fs.len() > 0 {
        lemma_field_of_absent(fs.drop_last(), key);
    }
}

/// Looks a key up among parsed fields, the last occurrence winning.
fn lookup_field<'a>(fields: &'a Vec<(String, FieldValue)>, key: &str) -> (r: Option<
    &'a FieldValue,
>)
    ensures
        ({
            let fs = fields@.map_values(|kv: (String, FieldValue)| (kv.0@, kv.1@));
            match r {
                Option::Some(v) => field_of(fs, key@) == Option::Some(v@),
                Option::None => field_of(fs, key@) == Option::<FieldValueView>::None,
            }
        }),
{
    let ghost fs = fields@.map_values(|kv: (String, FieldValue)| (kv.0@, kv.1@));
    let n = fields.len();
    let mut i: usize = n;
    while i > 0
        invariant
            fs == fields@.map_values(|kv: (String, FieldValue)| (kv.0@, kv.1@)),
            n == fields@.len(),
            i <= n,
            forall|j: int| i <= j < n ==> (#[trigger] fs[j]).0 != key@,
        decreases i,
    {
        i = i - 1;
        if str_eq(fields[i].0.as_str(), key) {
            proof {
                lemma_field_of_at(fs, key@, i as int);
            }
            return Option::Some(&fields[i].1);
        }
    }
    proof {
        lemma_field_of_absent(fs, key@);
    }
    Option::None
}

/// A required text field.
pub open spec fn req_text(fs: Seq<(Seq<char>, FieldValueView)>, key: Seq<char>) -> Option<
    Seq<char>,
> {
    match field_of(fs, key) {
        Option::Some(FieldValueView::Text(s)) => Option::Some(s),
        _ => Option::None,
    }
}

/// A required date field, holding an RFC 3339 timestamp.
pub open spec fn req_date(fs: Seq<(Seq<char>, FieldValueView)>, key: Seq<char>) -> Option<Moment> {
    match field_of(fs, key) {
        Option::Some(FieldValueView::Text(s)) => rfc3339_of(s),
        _ => Option::None,
    }
}

/// A required list field.
pub open spec fn req_list(fs: Seq<(Seq<char>, FieldValueView)>, key: Seq<char>) -> Option<
    Seq<Seq<char>>,
> {
    match field_of(fs, key) {
        Option::Some(FieldValueView::List(l)) => Option::Some(l),
        _ => Option::None,
    }
}

/// A required boolean field.
pub open spec fn req_flag(fs: Seq<(Seq<char>, FieldValueView)>, key: Seq<char>) -> Option<bool> {
    match field_of(fs, key) {
        Option::Some(FieldValueView::Flag(b)) => Option::Some(b),
        _ => Option::None,
    }
}

/// An optional text field: absent is fine, a non-text value is not.
pub open spec fn opt_text(fs: Seq<(Seq<char>, FieldValueView)>, key: Seq<char>) -> Option<
    Option<Seq<char>>,
> {
    match field_of(fs, key) {
        Option::None => Option::Some(Option::None),
        Option::Some(FieldValueView::Text(s)) => Option::Some(Option::Some(s)),
        _ => Option::None,
    }
}

/// An optional date field: absent is fine, anything but a well-formed
/// timestamp is not.
pub open spec fn opt_date(fs: Seq<(Seq<char>, FieldValueView)>, key: Seq<char>) -> Option<
    Option<Moment>,
> {
    match field_of(fs, key) {
        Option::None => Option::Some(Option::None),
        Option::Some(FieldValueView::Text(s)) => match rfc3339_of(s) {
            Option::Some(m) => Option::Some(Option::Some(m)),
            Option::None => Option::None,
        },
        _ => Option::None,
    }
}

/// The project status named by a lowercase token.
pub open spec fn status_of_token(s: Seq<char>) -> Option<ProjectStatus> {
    if s == "active"@ {
        Option::Some(ProjectStatus::Active)
    } else if s == "completed"@ {
        Option::Some(ProjectStatus::Completed)
    } else if s == "archived"@ {
        Option::Some(ProjectStatus::Archived)
    } else if s == "planned"@ {
        Option::Some(ProjectStatus::Planned)
    } else {
        Option::None
    }
}

/// The post metadata named by a field list: `title`, `slug`, `date`,
/// `tags` and `draft` are required with their types; `description`,
/// `updated` and `cover_image` may be absent.
pub open spec fn post_metadata_spec(fs: Seq<(Seq<char>, FieldValueView)>) -> Option<
    PostMetadataView,
> {
    match (req_text(fs, "title"@), req_text(fs, "slug"@), req_date(fs, "date"@), req_list(
        fs,
        "tags"@,
    ), req_flag(fs, "draft"@), opt_text(fs, "description"@), opt_date(fs, "updated"@), opt_text(
        fs,
        "cover_image"@,
    )) {
        (
            Option::Some(title),
            Option::Some(slug),
            Option::Some(date),
            Option::Some(tags),
            Option::Some(draft),
            Option::Some(description),
            Option::Some(updated),
            Option::Some(cover_image),
        ) => Option::Some(
            PostMetadataView { title, slug, description, date, updated, tags, draft, cover_image },
        ),
        _ => Option::None,
    }
}

/// The project metadata named by a field list: `title`, `slug`, `date`,
/// `tags`, `status` and `featured` are required; `description`, `updated`,
/// `github_url` and `demo_url` may be absent.
pub open spec fn project_metadata_spec(fs: Seq<(Seq<char>, FieldValueView)>) -> Option<
    ProjectMetadataView,
> {
    let status = match req_text(fs, "status"@) {
        Option::Some(s) => status_of_token(s),
        Option::None => Option::None,
    };
    match (req_text(fs, "title"@), req_text(fs, "slug"@), req_date(fs, "date"@), req_list(
        fs,
        "tags"@,
    ), status, req_flag(fs, "featured"@), opt_text(fs, "description"@), opt_date(
        fs,
        "updated"@,
    ), opt_text(fs, "github_url"@), opt_text(fs, "demo_url"@)) {
        (
            Option::Some(title),
            Option::Some(slug),
            Option::Some(date),
            Option::Some(tags),
            Option::Some(status),
            Option::Some(featured),
            Option::Some(description),
            Option::Some(updated),
            Option::Some(github_url),
            Option::Some(demo_url),
        ) => Option::Some(
            ProjectMetadataView {
                title,
                slug,
                description,
                date,
                updated,
                tags,
                status,
                github_url,
                demo_url,
                featured,
            },
        ),
        _ => Option::None,
    }
}

/// Builds typed post metadata from parsed fields.
pub fn build_post_metadata(fields: &Vec<(String, FieldValue)>) -> (r: Option<PostMetadata>)
    ensures
        ({
            let fs = fields@.map_values(|kv: (String, FieldValue)| (kv.0@, kv.1@));
            match (r, post_metadata_spec(fs)) {
                (Option::Some(m), Option::Some(v)) => m@ == v,
                (Option::None, Option::None) => true,
                _ => false,
            }
        }),
{
    let title = match lookup_field(fields, "title") {
        Option::Some(FieldValue::Text(s)) => s.clone(),
        _ => {
            return Option::None;
        },
    };
    let slug = match lookup_field(fields, "slug") {
        Option::Some(FieldValue::Text(s)) => s.clone(),
        _ => {
            return Option::None;
        },
    };
    let date = match lookup_field(fields, "date") {
        Option::Some(FieldValue::Text(s)) => match parse_rfc3339(s.as_str()) {
            Option::Some(m) => m,
            Option::None => {
                return Option::None;
            },
        },
        _ => {
            return Option::None;
        },
    };
    let tags = match lookup_field(fields, "tags") {
        Option::Some(FieldValue::List(l)) => clone_string_vec(l),
        _ => {
            return Option::None;
        },
    };
    let draft = match lookup_field(fields, "draft") {
        Option::Some(FieldValue::Flag(b)) => *b,
        _ => {
            return Option::None;
        },
    };
    let description = match lookup_field(fields, "description") {
        Option::None => Option::None,
        Option::Some(FieldValue::Text(s)) => Option::Some(s.clone()),
        _ => {
            return Option::None;
        },
    };
    let updated = match lookup_field(fields, "updated") {
        Option::None => Option::None,
        Option::Some(FieldValue::Text(s)) => match parse_rfc3339(s.as_str()) {
            Option::Some(m) => Option::Some(m),
            Option::None => {
                return Option::None;
            },
        },
        _ => {
            return Option::None;
        },
    };
    let cover_image = match lookup_field(fields, "cover_image") {
        Option::None => Option::None,
        Option::Some(FieldValue::Text(s)) => Option::Some(s.clone()),
        _ => {
            return Option::None;
        },
    };
    let m = PostMetadata { title, slug, description, date, updated, tags, draft, cover_image };
    proof {
        let fs = fields@.map_values(|kv: (String, FieldValue)| (kv.0@, kv.1@));
        assert(m@ =~= post_metadata_spec(fs).unwrap());
    }
    Option::Some(m)
}

/// Builds typed project metadata from parsed fields.
pub fn build_project_metadata(fields: &Vec<(String, FieldValue)>) -> (r: Option<ProjectMetadata>)
    ensures
        ({
            let fs = fields@.map_values(|kv: (String, FieldValue)| (kv.0@, kv.1@));
            match (r, project_metadata_spec(fs)) {
                (Option::Some(m), Option::Some(v)) => m@ == v,
                (Option::None, Option::None) => true,
                _ => false,
            }
        }),
{
    let title = match lookup_field(fields, "title") {
        Option::Some(FieldValue::Text(s)) => s.clone(),
        _ => {
            return Option::None;
        },
    };
    let slug = match lookup_field(fields, "slug") {
        Option::Some(FieldValue::Text(s)) => s.clone(),
        _ => {
            return Option::None;
        },
    };
    let date = match lookup_field(fields, "date") {
        Option::Some(FieldValue::Text(s)) => match parse_rfc3339(s.as_str()) {
            Option::Some(m) => m,
            Option::None => {
                return Option::None;
            },
        },
        _ => {
            return Option::None;
        },
    };
    let tags = match lookup_field(fields, "tags") {
        Option::Some(FieldValue::List(l)) => clone_string_vec(l),
        _ => {
            return Option::None;
        },
    };
    let status = match lookup_field(fields, "status") {
        Option::Some(FieldValue::Text(s)) => {
            let st = s.as_str();
            if str_eq(st, "active") {
                ProjectStatus::Active
            } else if str_eq(st, "completed") {
                ProjectStatus::Completed
            } else if str_eq(st, "archived") {
                ProjectStatus::Archived
            } else if str_eq(st, "planned") {
                ProjectStatus::Planned
            } else {
                return Option::None;
            }
        },
        _ => {
            return Option::None;
        },
    };
    let featured = match lookup_field(fields, "featured") {
        Option::Some(FieldValue::Flag(b)) => *b,
        _ => {
            return Option::None;
        },
    };
    let description = match lookup_field(fields, "description") {
        Option::None => Option::None,
        Option::Some(FieldValue::Text(s)) => Option::Some(s.clone()),
        _ => {
            return Option::None;
        },
    };
    let updated = match lookup_field(fields, "updated") {
        Option::None => Option::None,
        Option::Some(FieldValue::Text(s)) => match parse_rfc3339(s.as_str()) {
            Option::Some(m) => Option::Some(m),
            Option::None => {
                return Option::None;
            },
        },
        _ => {
            return Option::None;
        },
    };
    let github_url = match lookup_field(fields, "github_url") {
        Option::None => Option::None,
        Option::Some(FieldValue::Text(s)) => Option::Some(s.clone()),
        _ => {
            return Option::None;
        },
    };
    let demo_url = match lookup_field(fields, "demo_url") {
        Option::None => Option::None,
        Option::Some(FieldValue::Text(s)) => Option::Some(s.clone()),
        _ => {
            return Option::None;
        },
    };
    let m = ProjectMetadata {
        title,
        slug,
        description,
        date,
        updated,
        tags,
        status,
        github_url,
        demo_url,
        featured,
    };
    proof {
        let fs = fields@.map_values(|kv: (String, FieldValue)| (kv.0@, kv.1@));
        assert(m@ =~= project_metadata_spec(fs).unwrap());
    }
    Option::Some(m)
}

/// How a whole post file parses under the permissive header reader.
pub open spec fn post_frontmatter_spec(content: Seq<char>) -> Result<
    (PostMetadataView, Seq<char>),
    FrontmatterError,
> {
    match split_frontmatter_spec(content) {
        Result::Err(e) => Result::Err(e),
        Result::Ok(hb) => match post_metadata_spec(simple_fields_spec(hb.0)) {
            Option::Some(v) => Result::Ok((v, hb.1)),
            Option::None => Result::Err(FrontmatterError::InvalidMetadata),
        },
    }
}

/// How a whole project file parses under the permissive header reader.
pub open spec fn project_frontmatter_spec(content: Seq<char>) -> Result<
    (ProjectMetadataView, Seq<char>),
    FrontmatterError,
> {
    match split_frontmatter_spec(content) {
        Result::Err(e) => Result::Err(e),
        Result::Ok(hb) => match project_metadata_spec(simple_fields_spec(hb.0)) {
            Option::Some(v) => Result::Ok((v, hb.1)),
            Option::None => Result::Err(FrontmatterError::InvalidMetadata),
        },
    }
}

/// Parses a post file: the metadata from the header fields and the
/// trimmed body.
pub fn parse_post_frontmatter(content: &str) -> (r: Result<
    (PostMetadata, String),
    FrontmatterError,
>)
    ensures
        ({
            match (r, post_frontmatter_spec(content@)) {
                (Result::Ok((m, b)), Result::Ok(v)) => m@ == v.0 && b@ == v.1,
                (Result::Err(e), Result::Err(e2)) => e == e2,
                _ => false,
            }
        }),
{
    let (header, body) = match split_frontmatter(content) {
        Result::Ok(hb) => hb,
        Result::Err(e) => {
            return Result::Err(e);
        },
    };
    let fields = parse_simple_fields(header.as_str());
    match build_post_metadata(&fields) {
        Option::Some(m) => Result::Ok((m, body)),
        Option::None => Result::Err(FrontmatterError::InvalidMetadata),
    }
}

/// Parses a project file: the metadata from the header fields and the
/// trimmed body.
pub fn parse_project_frontmatter(content: &str) -> (r: Result<
    (ProjectMetadata, String),
    FrontmatterError,
>)
    ensures
        ({
            match (r, project_frontmatter_spec(content@)) {
                (Result::Ok((m, b)), Result::Ok(v)) => m@ == v.0 && b@ == v.1,
                (Result::Err(e), Result::Err(e2)) => e == e2,
                _ => false,
            }
        }),
{
    let (header, body) = match split_frontmatter(content) {
        Result::Ok(hb) => hb,
        Result::Err(e) => {
            return Result::Err(e);
        },
    };
    let fields = parse_simple_fields(header.as_str());
    match build_project_metadata(&fields) {
        Option::Some(m) => Result::Ok((m, body)),
        Option::None => Result::Err(FrontmatterError::InvalidMetadata),
    }
}

} // verus!
