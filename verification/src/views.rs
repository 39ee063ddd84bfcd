//! Page-view counting: bot filtering, visitor fingerprints, the in-memory
//! realisation of the key-value counting store, and count display formatting.

use vstd::prelude::*;

use sha2::Digest;

use crate::text::{
    chars_of, contains_sub, dec_of, digit_char, lower_of, lowercase, push_char, push_dec_u64,
    vec_contains_sub,
};

verus! {

/// The kind of content item a view is recorded against.
#[derive(Debug, Clone, Copy, PartialEq, Eq, Structural)]
pub enum ContentType {
    Post,
    Project,
}

impl ContentType {
    /// The token used for this content type inside store keys.
    pub open spec fn label(self) -> Seq<char> {
        match self {
            ContentType::Post => "post"@,
            ContentType::Project => "project"@,
        }
    }

    pub fn as_str(&self) -> (r: &'static str)
        ensures
            r@ == self.label(),
    {
        match self {
            ContentType::Post => "post",
            ContentType::Project => "project",
        }
    }
}

/// The compact display form of a view count:
/// exact decimal below one thousand; thousands rounded to one decimal place
/// (with a trailing `.0` suppressed) below ten thousand; whole thousands,
/// truncated, below one million; millions rounded to one decimal place above.
pub open spec fn format_count_spec(c: nat) -> Seq<char> {
    if c < 1000 {
        dec_of(c)
    } else if c < 10000 {
        let t = (c + 50) / 100;
        if t % 10 == 0 {
            dec_of(t / 10) + seq!['k']
        } else {
            dec_of(t / 10) + seq!['.'] + dec_of(t % 10) + seq!['k']
        }
    } else if c < 1000000 {
        dec_of(c / 1000) + seq!['k']
    } else {
        let t = (c + 50000) / 100000;
        dec_of(t / 10) + seq!['.'] + dec_of(t % 10) + seq!['M']
    }
}

proof fn lemma_round_half(a: int, h: int)
    requires
        0 <= a,
        0 < h,
    ensures
        (a + h) / (2 * h) == a / (2 * h) + if a % (2 * h) >= h {
            1int
        } else {
            0int
        },
{
    let d = 2 * h;
    let q = a / d;
    let r = a % d;
    vstd::arithmetic::div_mod::lemma_fundamental_div_mod(a, d);
    if r >= h {
        vstd::arithmetic::div_mod::lemma_div_multiples_vanish_fancy(q + 1, r + h - d, d);
        assert(d * (q + 1) + (r + h - d) == a + h) by {
            vstd::arithmetic::mul::lemma_mul_is_distributive_add(d, q, 1);
        }
    } else {
        vstd::arithmetic::div_mod::lemma_div_multiples_vanish_fancy(q, r + h, d);
        assert(d * q + (r + h) == a + h);
    }
}

/// Formats a view count for display.
pub fn format_count(count: u64) -> (r: String)
    ensures
        r@ == format_count_spec(count as nat),
{
    let mut out = String::new();
    if count < 1000 {
        push_dec_u64(&mut out, count);
    } else if count < 10000 {
        let t = (count + 50) / 100;
        push_dec_u64(&mut out, t / 10);
        if t % 10 == 0 {
            push_char(&mut out, 'k');
        } else {
            push_char(&mut out, '.');
            push_dec_u64(&mut out, t % 10);
            push_char(&mut out, 'k');
        }
    } else if count < 1000000 {
        push_dec_u64(&mut out, count / 1000);
        push_char(&mut out, 'k');
    } else {
        let t = if count <= u64::MAX - 50000 {
            (count + 50000) / 100000
        } else {
            let add: u64 = if count % 100000 >= 50000 {
                1
            } else {
                0
            };
            proof {
                lemma_round_half(count as int, 50000);
            }
            count / 100000 + add
        };
        assert(t == ((count + 50000) as nat) / 100000);
        push_dec_u64(&mut out, t / 10);
        push_char(&mut out, '.');
        push_dec_u64(&mut out, t % 10);
        push_char(&mut out, 'M');
    }
    assert(out@ =~= format_count_spec(count as nat));
    out
}

/// The fixed denylist of user-agent tokens that mark a request as coming
/// from a bot, crawler or scripted HTTP client.
pub open spec fn bot_pattern_list() -> Seq<Seq<char>> {
    seq![
        "bot"@,
        "crawler"@,
        "spider"@,
        "slurp"@,
        "mediapartners"@,
        "facebookexternalhit"@,
        "linkedinbot"@,
        "twitterbot"@,
        "whatsapp"@,
        "telegram"@,
        "curl"@,
        "wget"@,
        "python"@,
        "go-http-client"@,
        "java/"@,
        "apache-httpclient"@,
        "httpx"@,
        "axios"@,
        "node-fetch"@,
        "googlebot"@,
        "bingbot"@,
        "yandexbot"@,
        "duckduckbot"@,
        "baiduspider"@,
        "sogou"@,
        "exabot"@,
        "ahrefsbot"@,
        "semrushbot"@,
        "dotbot"@,
        "petalbot"@,
        "mj12bot"@,
    ]
}

/// The denylist as runtime strings, in the same order as `bot_pattern_list`.
pub fn bot_patterns() -> (ps: Vec<&'static str>)
    ensures
        ps@.len() == bot_pattern_list().len(),
        forall|i: int| 0 <= i < ps@.len() ==> #[trigger] ps@[i]@ == bot_pattern_list()[i],
{
    let ps: Vec<&'static str> = vec![
        "bot",
        "crawler",
        "spider",
        "slurp",
        "mediapartners",
        "facebookexternalhit",
        "linkedinbot",
        "twitterbot",
        "whatsapp",
        "telegram",
        "curl",
        "wget",
        "python",
        "go-http-client",
        "java/",
        "apache-httpclient",
        "httpx",
        "axios",
        "node-fetch",
        "googlebot",
        "bingbot",
        "yandexbot",
        "duckduckbot",
        "baiduspider",
        "sogou",
        "exabot",
        "ahrefsbot",
        "semrushbot",
        "dotbot",
        "petalbot",
        "mj12bot",
    ];
    assert(ps@.map_values(|p: &str| p@) =~= bot_pattern_list());
    assert forall|i: int| 0 <= i < ps@.len() implies #[trigger] ps@[i]@ == bot_pattern_list()[i] by {
        assert(ps@.map_values(|p: &str| p@)[i] == ps@[i]@);
    }
    ps
}

/// A request counts as a bot when no user agent was sent at all, or when the
/// lowercased user agent contains any denylisted token.
pub open spec fn is_bot_spec(user_agent: Option<Seq<char>>) -> bool {
    match user_agent {
        Option::None => true,
        Option::Some(ua) => exists|i: int|
            0 <= i < bot_pattern_list().len() && contains_sub(
                lower_of(ua),
                #[trigger] bot_pattern_list()[i],
            ),
    }
}

/// The salted, truncated digest that stands in for a visitor's address:
/// the first sixteen bytes of SHA-256 over the address bytes followed by a
/// fixed salt, in lowercase hex.
pub open spec fn fingerprint_of(ip: Seq<char>) -> Seq<char> {
    hex_of(
        sha256_of(
            vstd::utf8::encode_utf8(ip) + vstd::utf8::encode_utf8("nebula-views-salt-2024"@),
        ).take(16),
    )
}

/// The SHA-256 digest of a byte sequence. Left without a definition: the
/// compression function is the hash crate's business, not this crate's.
pub uninterp spec fn sha256_of(data: Seq<u8>) -> Seq<u8>;

/// Relies on sha2::Sha256: the digest depends on the input bytes alone and
/// is exactly 32 bytes long.
#[verifier::external_body]
fn sha256(data: &[u8]) -> (r: Vec<u8>)
    ensures
        r@ == sha256_of(data@),
        r@.len() == 32,
{
    sha2::Sha256::digest(data).to_vec()
}

/// The lowercase hex digit for a value in 0..=15.
pub open spec fn hex_digit(d: int) -> char {
    if d < 10 {
        digit_char(d)
    } else if d == 10 {
        'a'
    } else if d == 11 {
        'b'
    } else if d == 12 {
        'c'
    } else if d == 13 {
        'd'
    } else if d == 14 {
        'e'
    } else {
        'f'
    }
}

/// Lowercase hex encoding, two digits per byte, high nibble first.
pub open spec fn hex_of(data: Seq<u8>) -> Seq<char>
    decreases data.len(),
{
    if data.len() == 0 {
        Seq::empty()
    } else {
        seq![hex_digit(data[0] as int / 16), hex_digit(data[0] as int % 16)] + hex_of(
            data.drop_first(),
        )
    }
}

/// Hex text is twice as long as the bytes it encodes.
pub proof fn lemma_hex_of_len(data: Seq<u8>)
    ensures
        hex_of(data).len() == 2 * data.len(),
    decreases data.len(),
{
    if data.len() > 0 {
        lemma_hex_of_len(data.drop_first());
    }
}

fn hex_digit_exec(d: u8) -> (c: char)
    requires
        d < 16,
    ensures
        c == hex_digit(d as int),
{
    match d {
        0 => '0',
        1 => '1',
        2 => '2',
        3 => '3',
        4 => '4',
        5 => '5',
        6 => '6',
        7 => '7',
        8 => '8',
        9 => '9',
        10 => 'a',
        11 => 'b',
        12 => 'c',
        13 => 'd',
        14 => 'e',
        _ => 'f',
    }
}

/// Encodes bytes as lowercase hex, exactly as `hex_of` spells out.
fn hex_encode(data: &[u8]) -> (r: String)
    ensures
        r@ == hex_of(data@),
{
    let n = data.len();
    let mut out = String::new();
    let mut i: usize = 0;
    proof {
        assert(data@.skip(0) =~= data@);
    }
    while i < n
        invariant
            n == data@.len(),
            i <= n,
            out@ + hex_of(data@.skip(i as int)) == hex_of(data@),
        decreases n - i,
    {
        let ghost pre = out@;
        let b = data[i];
        push_char(&mut out, hex_digit_exec(b / 16));
        push_char(&mut out, hex_digit_exec(b % 16));
        proof {
            let rest = data@.skip(i as int);
            assert(rest[0] == data@[i as int]);
            assert(rest.drop_first() =~= data@.skip(i + 1));
            assert(out@ =~= pre + seq![
                hex_digit(data@[i as int] as int / 16),
                hex_digit(data@[i as int] as int % 16),
            ]);
            assert(out@ + hex_of(data@.skip(i + 1)) =~= pre + hex_of(rest));
        }
        i = i + 1;
    }
    proof {
        assert(data@.skip(n as int) =~= Seq::<u8>::empty());
        assert(out@ + hex_of(data@.skip(n as int)) =~= out@);
    }
    out
}

/// The store key under which the view counter for one content item lives.
pub open spec fn count_key_of(ct: ContentType, slug: Seq<char>) -> Seq<char> {
    "views:"@ + ct.label() + ":"@ + slug + ":count"@
}

/// The store key under which the visitor set for one content item lives.
pub open spec fn visitors_key_of(ct: ContentType, slug: Seq<char>) -> Seq<char> {
    "views:"@ + ct.label() + ":"@ + slug + ":visitors"@
}

/// Builds the counter key for a content item.
pub fn view_count_key(content_type: ContentType, slug: &str) -> (r: String)
    ensures
        r@ == count_key_of(content_type, slug@),
{
    let mut out = String::from_str("views:");
    out.append(content_type.as_str());
    out.append(":");
    out.append(slug);
    out.append(":count");
    out
}

/// Builds the visitor-set key for a content item.
pub fn view_visitors_key(content_type: ContentType, slug: &str) -> (r: String)
    ensures
        r@ == visitors_key_of(content_type, slug@),
{
    let mut out = String::from_str("views:");
    out.append(content_type.as_str());
    out.append(":");
    out.append(slug);
    out.append(":visitors");
    out
}

/// The view of an `Option<&str>` argument.
pub open spec fn view_opt_str(o: Option<&str>) -> Option<Seq<char>> {
    match o {
        Option::Some(s) => Option::Some(s@),
        Option::None => Option::None,
    }
}

/// The view of an `Option<String>` value.
pub open spec fn view_opt_string(o: Option<String>) -> Option<Seq<char>> {
    match o {
        Option::Some(s) => Option::Some(s@),
        Option::None => Option::None,
    }
}

/// The first forwarded-for list entry, trimmed.
pub open spec fn first_forwarded_entry(s: Seq<char>) -> Seq<char> {
    crate::text::trim_spec(s.subrange(0, crate::text::comma_like_split_point(s, ',')))
}

/// Which address a request is attributed to: the first entry of the
/// forwarded-for header when it is non-empty after trimming, else the
/// real-ip header when non-empty after trimming, else the transport peer.
pub open spec fn client_ip_spec(
    forwarded_for: Option<Seq<char>>,
    real_ip: Option<Seq<char>>,
    peer: Option<Seq<char>>,
) -> Option<Seq<char>> {
    if forwarded_for is Some && first_forwarded_entry(forwarded_for->0).len() > 0 {
        Option::Some(first_forwarded_entry(forwarded_for->0))
    } else if real_ip is Some && crate::text::trim_spec(real_ip->0).len() > 0 {
        Option::Some(crate::text::trim_spec(real_ip->0))
    } else {
        peer
    }
}

/// Picks the client address from the two proxy headers and the peer
/// address, in that priority order.
pub fn extract_client_ip(
    forwarded_for: Option<&str>,
    real_ip: Option<&str>,
    peer: Option<String>,
) -> (r: Option<String>)
    ensures
        view_opt_string(r) == client_ip_spec(
            view_opt_str(forwarded_for),
            view_opt_str(real_ip),
            view_opt_string(peer),
        ),
{
    if let Option::Some(x) = forwarded_for {
        let end = match crate::text::find_char(x, ',') {
            Option::Some(i) => i,
            Option::None => x.unicode_len(),
        };
        proof {
            crate::text::lemma_split_point_at(x@, ',', end as int);
        }
        let entry = x.substring_char(0, end);
        let t = crate::text::trim(entry);
        if !t.is_empty() {
            return Option::Some(t.to_owned());
        }
    }
    if let Option::Some(x) = real_ip {
        let t = crate::text::trim(x);
        if !t.is_empty() {
            return Option::Some(t.to_owned());
        }
    }
    peer
}

/// One content item's view records: its counter and its visitor set.
struct ViewEntry {
    content_type: ContentType,
    slug: String,
    visitors: Vec<String>,
    count: u64,
}

/// Whether `e` holds the records of the item `(ct, slug)`.
spec fn entry_matches(e: ViewEntry, ct: ContentType, slug: Seq<char>) -> bool {
    e.content_type == ct && e.slug@ == slug
}

/// The counter recorded for `(ct, slug)`, zero when absent.
spec fn count_in(entries: Seq<ViewEntry>, ct: ContentType, slug: Seq<char>) -> nat
    decreases entries.len(),
{
    if entries.len() == 0 {
        0
    } else if entry_matches(entries[0], ct, slug) {
        entries[0].count as nat
    } else {
        count_in(entries.drop_first(), ct, slug)
    }
}

/// The visitor fingerprints recorded for `(ct, slug)`, in arrival order,
/// empty when absent.
spec fn visitors_in(entries: Seq<ViewEntry>, ct: ContentType, slug: Seq<char>) -> Seq<
    Seq<char>,
>
    decreases entries.len(),
{
    if entries.len() == 0 {
        Seq::empty()
    } else if entry_matches(entries[0], ct, slug) {
        entries[0].visitors@.map_values(|v: String| v@)
    } else {
        visitors_in(entries.drop_first(), ct, slug)
    }
}

proof fn lemma_lookup_found(entries: Seq<ViewEntry>, ct: ContentType, slug: Seq<char>, i: int)
    requires
        0 <= i < entries.len(),
        forall|j: int| 0 <= j < i ==> !entry_matches(#[trigger] entries[j], ct, slug),
        entry_matches(entries[i], ct, slug),
    ensures
        count_in(entries, ct, slug) == entries[i].count,
        visitors_in(entries, ct, slug) == entries[i].visitors@.map_values(|v: String| v@),
    decreases i,
{
    if i > 0 {
        assert(forall|j: int|
            0 <= j < i - 1 ==> !entry_matches(#[trigger] entries.drop_first()[j], ct, slug));
        lemma_lookup_found(entries.drop_first(), ct, slug, i - 1);
    }
}

proof fn lemma_lookup_absent(entries: Seq<ViewEntry>, ct: ContentType, slug: Seq<char>)
    requires
        forall|j: int| 0 <= j < entries.len() ==> !entry_matches(#[trigger] entries[j], ct, slug),
    ensures
        count_in(entries, ct, slug) == 0,
        visitors_in(entries, ct, slug) == Seq::<Seq<char>>::empty(),
    decreases entries.len(),
{
    if entries.len() > 0 {
        assert(forall|j: int|
            0 <= j < entries.drop_first().len() ==> !entry_matches(
                #[trigger] entries.drop_first()[j],
                ct,
                slug,
            ));
        lemma_lookup_absent(entries.drop_first(), ct, slug);
    }
}

proof fn lemma_lookup_update_other(
    entries: Seq<ViewEntry>,
    i: int,
    e2: ViewEntry,
    ct2: ContentType,
    slug2: Seq<char>,
)
    requires
        0 <= i < entries.len(),
        entries[i].content_type == e2.content_type,
        entries[i].slug@ == e2.slug@,
        !entry_matches(e2, ct2, slug2),
    ensures
        count_in(entries.update(i, e2), ct2, slug2) == count_in(entries, ct2, slug2),
        visitors_in(entries.update(i, e2), ct2, slug2) == visitors_in(entries, ct2, slug2),
    decreases i,
{
    let upd = entries.update(i, e2);
    if i == 0 {
        assert(!entry_matches(entries[0], ct2, slug2));
        assert(upd.drop_first() =~= entries.drop_first());
    } else {
        assert(upd[0] == entries[0]);
        if !entry_matches(entries[0], ct2, slug2) {
            assert(upd.drop_first() =~= entries.drop_first().update(i - 1, e2));
            lemma_lookup_update_other(entries.drop_first(), i - 1, e2, ct2, slug2);
        }
    }
}

proof fn lemma_lookup_push_other(
    entries: Seq<ViewEntry>,
    e: ViewEntry,
    ct2: ContentType,
    slug2: Seq<char>,
)
    requires
        !entry_matches(e, ct2, slug2),
    ensures
        count_in(entries.push(e), ct2, slug2) == count_in(entries, ct2, slug2),
        visitors_in(entries.push(e), ct2, slug2) == visitors_in(entries, ct2, slug2),
    decreases entries.len(),
{
    let p = entries.push(e);
    assert(p.len() == entries.len() + 1);
    if entries.len() == 0 {
        assert(p[0] == e);
        assert(!entry_matches(p[0], ct2, slug2));
        lemma_lookup_absent(p, ct2, slug2);
        lemma_lookup_absent(entries, ct2, slug2);
    } else {
        assert(p[0] == entries[0]);
        assert(p.drop_first() =~= entries.drop_first().push(e));
        lemma_lookup_push_other(entries.drop_first(), e, ct2, slug2);
        if entry_matches(entries[0], ct2, slug2) {
            assert(count_in(p, ct2, slug2) == p[0].count);
            assert(count_in(entries, ct2, slug2) == entries[0].count);
        } else {
            assert(count_in(p, ct2, slug2) == count_in(p.drop_first(), ct2, slug2));
            assert(count_in(entries, ct2, slug2) == count_in(entries.drop_first(), ct2, slug2));
        }
    }
}

/// The index of the first record for `(ct, slug)`, if one exists.
fn find_entry(entries: &Vec<ViewEntry>, ct: ContentType, slug: &str) -> (r: Option<usize>)
    ensures
        match r {
            Option::Some(i) => i < entries@.len() && entry_matches(entries@[i as int], ct, slug@)
                && forall|j: int|
                0 <= j < i ==> !entry_matches(#[trigger] entries@[j], ct, slug@),
            Option::None => forall|j: int|
                0 <= j < entries@.len() ==> !entry_matches(#[trigger] entries@[j], ct, slug@),
        },
{
    let n = entries.len();
    let mut i: usize = 0;
    while i < n
        invariant
            n == entries@.len(),
            i <= n,
            forall|j: int| 0 <= j < i ==> !entry_matches(#[trigger] entries@[j], ct, slug@),
        decreases n - i,
    {
        if entries[i].content_type == ct && crate::text::str_eq(entries[i].slug.as_str(), slug) {
            return Option::Some(i);
        }
        i = i + 1;
    }
    Option::None
}

/// Whether `fp` is already among `visitors`.
fn has_fingerprint(visitors: &Vec<String>, fp: &str) -> (r: bool)
    ensures
        r == visitors@.map_values(|v: String| v@).contains(fp@),
{
    let ghost mapped = visitors@.map_values(|v: String| v@);
    let n = visitors.len();
    let mut i: usize = 0;
    while i < n
        invariant
            mapped == visitors@.map_values(|v: String| v@),
            n == visitors@.len(),
            i <= n,
            forall|j: int| 0 <= j < i ==> #[trigger] mapped[j] != fp@,
        decreases n - i,
    {
        if crate::text::str_eq(visitors[i].as_str(), fp) {
            proof {
                assert(mapped[i as int] == fp@);
            }
            return true;
        }
        i = i + 1;
    }
    proof {
        if mapped.contains(fp@) {
            let k = choose|k: int| 0 <= k < mapped.len() && mapped[k] == fp@;
            assert(mapped[k] != fp@);
        }
    }
    false
}

/// The in-memory realisation of the view-counting store: one record per
/// content item, holding the visitor fingerprint set and the counter the
/// protocol keeps equal to that set's size.
pub struct ViewsService {
    entries: Vec<ViewEntry>,
}

/// How one `record_view` call relates the store before it, the store after
/// it, and its result, for a non-bot request with fingerprint `fp`:
/// the result reports whether the fingerprint was new; the fingerprint set
/// of the item gains the fingerprint exactly when it was new; the counter
/// of the item rises exactly when it was new; every other item is untouched.
pub open spec fn views_step(
    pre: ViewsService,
    post: ViewsService,
    ct: ContentType,
    slug: Seq<char>,
    fp: Seq<char>,
    r: bool,
) -> bool {
    &&& r == !pre.visitors_of(ct, slug).contains(fp)
    &&& post.visitors_of(ct, slug) == if r {
        pre.visitors_of(ct, slug).push(fp)
    } else {
        pre.visitors_of(ct, slug)
    }
    &&& post.count_of(ct, slug) == pre.count_of(ct, slug) + if r {
        1nat
    } else {
        0nat
    }
    &&& forall|ct2: ContentType, slug2: Seq<char>|
        !(ct2 == ct && slug2 == slug) ==> #[trigger] post.count_of(ct2, slug2) == pre.count_of(
            ct2,
            slug2,
        )
    &&& forall|ct2: ContentType, slug2: Seq<char>|
        !(ct2 == ct && slug2 == slug) ==> #[trigger] post.visitors_of(ct2, slug2)
            == pre.visitors_of(ct2, slug2)
}

impl ViewsService {
    /// The counter this store holds for `(ct, slug)`.
    pub closed spec fn count_of(self, ct: ContentType, slug: Seq<char>) -> nat {
        count_in(self.entries@, ct, slug)
    }

    /// The visitor fingerprints this store holds for `(ct, slug)`.
    pub closed spec fn visitors_of(self, ct: ContentType, slug: Seq<char>) -> Seq<Seq<char>> {
        visitors_in(self.entries@, ct, slug)
    }

    /// Each item has one record; within a record the fingerprints are
    /// pairwise distinct and the counter equals their number.
    pub closed spec fn wf(self) -> bool {
        &&& forall|i: int, j: int|
            0 <= i < j < self.entries@.len() ==> !(#[trigger] self.entries@[i].content_type
                == #[trigger] self.entries@[j].content_type && self.entries@[i].slug@
                == self.entries@[j].slug@)
        &&& forall|i: int|
            0 <= i < self.entries@.len() ==> #[trigger] entry_wf(self.entries@[i])
    }

    /// Creates an empty store: no item has a counter or a visitor yet.
    pub fn new() -> (s: Self)
        ensures
            s.wf(),
            forall|ct: ContentType, slug: Seq<char>| #[trigger] s.count_of(ct, slug) == 0,
            forall|ct: ContentType, slug: Seq<char>|
                #[trigger] s.visitors_of(ct, slug) == Seq::<Seq<char>>::empty(),
    {
        let s = ViewsService { entries: Vec::new() };
        proof {
            assert forall|ct: ContentType, slug: Seq<char>| #[trigger] s.count_of(ct, slug) == 0
                && s.visitors_of(ct, slug) == Seq::<Seq<char>>::empty() by {
                lemma_lookup_absent(s.entries@, ct, slug);
            }
        }
        s
    }

    /// Whether the user agent marks the request as a bot.
    pub fn is_bot(user_agent: Option<&str>) -> (r: bool)
        ensures
            r == is_bot_spec(view_opt_str(user_agent)),
    {
        let ua = match user_agent {
            Option::Some(ua) => ua,
            Option::None => {
                return true;
            },
        };
        let low = lowercase(ua);
        let hay = chars_of(low.as_str());
        let pats = bot_patterns();
        let n = pats.len();
        let mut i: usize = 0;
        while i < n
            invariant
                view_opt_str(user_agent) == Option::Some(ua@),
                n == pats@.len(),
                n == bot_pattern_list().len(),
                hay@ == lower_of(ua@),
                i <= n,
                forall|j: int|
                    0 <= j < pats@.len() ==> #[trigger] pats@[j]@ == bot_pattern_list()[j],
                forall|j: int|
                    0 <= j < i ==> !contains_sub(lower_of(ua@), #[trigger] bot_pattern_list()[j]),
            decreases n - i,
        {
            let needle = chars_of(pats[i]);
            if vec_contains_sub(&hay, &needle) {
                proof {
                    assert(contains_sub(lower_of(ua@), bot_pattern_list()[i as int]));
                }
                return true;
            }
            i = i + 1;
        }
        false
    }

    /// The privacy-preserving fingerprint recorded instead of a raw
    /// client address.
    pub fn hash_ip(ip: &str) -> (r: String)
        ensures
            r@ == fingerprint_of(ip@),
            r@.len() == 32,
    {
        let mut data: Vec<u8> = vstd::slice::slice_to_vec(ip.as_bytes());
        let mut salt: Vec<u8> = vstd::slice::slice_to_vec("nebula-views-salt-2024".as_bytes());
        data.append(&mut salt);
        let mut digest = sha256(data.as_slice());
        digest.truncate(16);
        proof {
            assert(digest@ =~= sha256_of(data@).take(16));
            lemma_hex_of_len(digest@);
        }
        hex_encode(digest.as_slice())
    }

    /// Records one page view. Returns whether the counter rose: it does
    /// exactly when the request is not a bot and this fingerprint had not
    /// been seen for this item. A bot request changes nothing.
    pub fn record_view(
        &mut self,
        content_type: ContentType,
        slug: &str,
        ip: &str,
        user_agent: Option<&str>,
    ) -> (r: bool)
        requires
            old(self).wf(),
            old(self).count_of(content_type, slug@) < u64::MAX,
        ensures
            final(self).wf(),
            is_bot_spec(view_opt_str(user_agent)) ==> r == false && *final(self) == *old(self),
            !is_bot_spec(view_opt_str(user_agent)) ==> views_step(
                *old(self),
                *final(self),
                content_type,
                slug@,
                fingerprint_of(ip@),
                r,
            ),
    {
        if Self::is_bot(user_agent) {
            return false;
        }
        let fp = Self::hash_ip(ip);
        let found = find_entry(&self.entries, content_type, slug);
        if found.is_none() {
            // No record yet for this item: it gains one, with this single
            // visitor and a counter of one.
            proof {
                lemma_lookup_absent(self.entries@, content_type, slug@);
            }
            let mut visitors: Vec<String> = Vec::new();
            visitors.push(fp);
            let entry = ViewEntry {
                content_type,
                slug: slug.to_owned(),
                visitors,
                count: 1,
            };
            proof {
                let ghost pre = self.entries@;
                assert(entry_wf(entry)) by {
                    assert(entry.visitors@.map_values(|v: String| v@).len() == 1);
                }
                assert(entry_matches(entry, content_type, slug@));
            }
            let ghost pre = self.entries@;
            self.entries.push(entry);
            proof {
                assert(self.entries@ == pre.push(entry));
                lemma_lookup_found(self.entries@, content_type, slug@, pre.len() as int);
                assert(self.visitors_of(content_type, slug@) =~= Seq::<Seq<char>>::empty().push(
                    fp@,
                ));
                assert forall|ct2: ContentType, slug2: Seq<char>|
                    !(ct2 == content_type && slug2 == slug@) implies #[trigger] count_in(
                    self.entries@,
                    ct2,
                    slug2,
                ) == count_in(pre, ct2, slug2) by {
                    lemma_lookup_push_other(pre, entry, ct2, slug2);
                }
                assert forall|ct2: ContentType, slug2: Seq<char>|
                    !(ct2 == content_type && slug2 == slug@) implies #[trigger] visitors_in(
                    self.entries@,
                    ct2,
                    slug2,
                ) == visitors_in(pre, ct2, slug2) by {
                    lemma_lookup_push_other(pre, entry, ct2, slug2);
                }
            }
            return true;
        }
        // A record exists at index i; look for this fingerprint in it.
        let i = found.unwrap();
        proof {
            lemma_lookup_found(self.entries@, content_type, slug@, i as int);
        }
        if has_fingerprint(&self.entries[i].visitors, fp.as_str()) {
            // Already counted for this visitor: nothing changes.
            return false;
        }
        // A new visitor for an existing record: remember the fingerprint
        // and move the counter up with it.
        proof {
            assert(!self.visitors_of(content_type, slug@).contains(fp@));
            assert(entry_wf(self.entries@[i as int]));
        }
        let ghost pre = self.entries@;
        let mut entry = self.entries.remove(i);
        entry.count = entry.count + 1;
        entry.visitors.push(fp);
        self.entries.insert(i, entry);
        proof {
            assert(self.entries@ =~= pre.update(i as int, self.entries@[i as int]));
            let e2 = self.entries@[i as int];
            let olde = pre[i as int];
            let oldvis = olde.visitors@.map_values(|v: String| v@);
            let newvis = e2.visitors@.map_values(|v: String| v@);
            assert(oldvis == visitors_in(pre, content_type, slug@));
            assert(e2.visitors@ =~= olde.visitors@.push(fp));
            assert(newvis =~= oldvis.push(fp@));
            assert(entry_wf(e2)) by {
                assert(entry_wf(olde));
                assert(e2.count == olde.count + 1);
                assert(newvis.len() == oldvis.len() + 1);
                assert forall|p: int, q: int|
                    0 <= p < q < e2.visitors@.len() implies (#[trigger] e2.visitors@[p])@ != (
                #[trigger] e2.visitors@[q])@ by {
                    if q == e2.visitors@.len() - 1 {
                        assert(e2.visitors@[p] == olde.visitors@[p]);
                        assert(oldvis[p] == (olde.visitors@[p])@);
                        assert(!oldvis.contains(fp@));
                        assert(oldvis[p] != fp@);
                        assert((e2.visitors@[q])@ == fp@);
                    } else {
                        assert(e2.visitors@[p] == olde.visitors@[p]);
                        assert(e2.visitors@[q] == olde.visitors@[q]);
                    }
                }
            }
            lemma_lookup_found(self.entries@, content_type, slug@, i as int);
            assert(self.visitors_of(content_type, slug@) =~= visitors_in(
                pre,
                content_type,
                slug@,
            ).push(fp@));
            assert forall|ct2: ContentType, slug2: Seq<char>|
                !(ct2 == content_type && slug2 == slug@) implies #[trigger] count_in(
                self.entries@,
                ct2,
                slug2,
            ) == count_in(pre, ct2, slug2) by {
                lemma_lookup_update_other(pre, i as int, e2, ct2, slug2);
            }
            assert forall|ct2: ContentType, slug2: Seq<char>|
                !(ct2 == content_type && slug2 == slug@) implies #[trigger] visitors_in(
                self.entries@,
                ct2,
                slug2,
            ) == visitors_in(pre, ct2, slug2) by {
                lemma_lookup_update_other(pre, i as int, e2, ct2, slug2);
            }
        }
        true
    }

    /// The current counter for one item; zero when the item has none.
    pub fn get_count(&self, content_type: ContentType, slug: &str) -> (r: u64)
        requires
            self.wf(),
        ensures
            r == self.count_of(content_type, slug@),
    {
        match find_entry(&self.entries, content_type, slug) {
            Option::Some(i) => {
                proof {
                    lemma_lookup_found(self.entries@, content_type, slug@, i as int);
                }
                self.entries[i].count
            },
            Option::None => {
                proof {
                    lemma_lookup_absent(self.entries@, content_type, slug@);
                }
                0
            },
        }
    }

    /// The counters for a whole list of slugs, in the order given; an
    /// empty list yields an empty result.
    pub fn get_counts(&self, content_type: ContentType, slugs: &[&str]) -> (r: Vec<u64>)
        requires
            self.wf(),
        ensures
            r@.len() == slugs@.len(),
            forall|i: int|
                0 <= i < slugs@.len() ==> #[trigger] r@[i] == self.count_of(
                    content_type,
                    slugs@[i]@,
                ),
    {
        let n = slugs.len();
        let mut out: Vec<u64> = Vec::new();
        let mut i: usize = 0;
        while i < n
            invariant
                self.wf(),
                n == slugs@.len(),
                i <= n,
                out@.len() == i,
                forall|k: int|
                    0 <= k < i ==> #[trigger] out@[k] == self.count_of(content_type, slugs@[k]@),
            decreases n - i,
        {
            let c = self.get_count(content_type, slugs[i]);
            out.push(c);
            i = i + 1;
        }
        out
    }
}

/// Well-formedness of one record: distinct fingerprints, counter equal to
/// their number.
spec fn entry_wf(e: ViewEntry) -> bool {
    &&& e.count == e.visitors@.len()
    &&& forall|p: int, q: int|
        0 <= p < q < e.visitors@.len() ==> (#[trigger] e.visitors@[p])@ != (
        #[trigger] e.visitors@[q])@
}

/// A repeated view of the same item by the same visitor fingerprint is
/// counted at most once: after any first recording, a second recording
/// with the same fingerprint reports nothing new and leaves the item's
/// counter and visitor set exactly as they were.
pub proof fn lemma_repeat_view_counted_once(
    s0: ViewsService,
    s1: ViewsService,
    s2: ViewsService,
    ct: ContentType,
    slug: Seq<char>,
    fp: Seq<char>,
    r1: bool,
    r2: bool,
)
    requires
        views_step(s0, s1, ct, slug, fp, r1),
        views_step(s1, s2, ct, slug, fp, r2),
    ensures
        r2 == false,
        s2.count_of(ct, slug) == s0.count_of(ct, slug) + if r1 {
            1nat
        } else {
            0nat
        },
        s2.visitors_of(ct, slug) == s1.visitors_of(ct, slug),
{
    if r1 {
        assert(s1.visitors_of(ct, slug) == s0.visitors_of(ct, slug).push(fp));
        assert(s1.visitors_of(ct, slug)[s0.visitors_of(ct, slug).len() as int] == fp);
        assert(s1.visitors_of(ct, slug).contains(fp));
    }
}

/// A view from a visitor fingerprint the item has not seen is counted:
/// the recording reports a new visitor and the item's counter rises by
/// exactly one.
pub proof fn lemma_new_visitor_counts(
    s0: ViewsService,
    s1: ViewsService,
    ct: ContentType,
    slug: Seq<char>,
    fp: Seq<char>,
    r: bool,
)
    requires
        views_step(s0, s1, ct, slug, fp, r),
        !s0.visitors_of(ct, slug).contains(fp),
    ensures
        r == true,
        s1.count_of(ct, slug) == s0.count_of(ct, slug) + 1,
{
}

} // verus!
