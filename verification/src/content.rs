//! The in-memory content store: every renderable post and project, keyed
//! by slug, with atomic whole-store replacement and the read queries the
//! page handlers use.

use vstd::multiset::Multiset;
use vstd::prelude::*;

use crate::date::before_eq;
use crate::models::{Post, PostView, Project, ProjectView};
use crate::text::{lex_le, lex_lt, lower_of, lowercase, str_eq, str_lex_le};

verus! {

/// All loaded content. Slugs are unique within each collection; an insert
/// with an existing slug replaces that item (last write wins).
#[derive(Debug)]
pub struct ContentStore {
    posts: Vec<Post>,
    projects: Vec<Project>,
}

/// The position of the first post carrying `slug`, or the sequence length
/// if there is none.
pub open spec fn post_slug_index(s: Seq<PostView>, slug: Seq<char>) -> int
    decreases s.len(),
{
    if s.len() == 0 {
        0
    } else if s[0].metadata.slug == slug {
        0
    } else {
        1 + post_slug_index(s.drop_first(), slug)
    }
}

/// The position of the first project carrying `slug`, or the sequence
/// length if there is none.
pub open spec fn project_slug_index(s: Seq<ProjectView>, slug: Seq<char>) -> int
    decreases s.len(),
{
    if s.len() == 0 {
        0
    } else if s[0].metadata.slug == slug {
        0
    } else {
        1 + project_slug_index(s.drop_first(), slug)
    }
}

proof fn lemma_post_slug_index_at(s: Seq<PostView>, slug: Seq<char>, i: int)
    requires
        0 <= i <= s.len(),
        forall|j: int| 0 <= j < i ==> (#[trigger] s[j]).metadata.slug != slug,
        i == s.len() || s[i].metadata.slug == slug,
    ensures
        post_slug_index(s, slug) == i,
    decreases i,
{
    if i > 0 {
        lemma_post_slug_index_at(s.drop_first(), slug, i - 1);
    }
}

proof fn lemma_project_slug_index_at(s: Seq<ProjectView>, slug: Seq<char>, i: int)
    requires
        0 <= i <= s.len(),
        forall|j: int| 0 <= j < i ==> (#[trigger] s[j]).metadata.slug != slug,
        i == s.len() || s[i].metadata.slug == slug,
    ensures
        project_slug_index(s, slug) == i,
    decreases i,
{
    if i > 0 {
        lemma_project_slug_index_at(s.drop_first(), slug, i - 1);
    }
}

impl ContentStore {
    /// The posts this store holds, as mathematical values, in insertion
    /// order.
    pub closed spec fn posts_view(self) -> Seq<PostView> {
        post_views_of(self.posts@)
    }

    /// The projects this store holds, as mathematical values, in
    /// insertion order.
    pub closed spec fn projects_view(self) -> Seq<ProjectView> {
        self.projects@.map_values(|p: Project| p@)
    }

    /// Slugs are unique within each collection.
    pub open spec fn wf(self) -> bool {
        &&& forall|i: int, j: int|
            0 <= i < j < self.posts_view().len() ==> (#[trigger] self.posts_view()[i]).metadata.slug
                != (#[trigger] self.posts_view()[j]).metadata.slug
        &&& forall|i: int, j: int|
            0 <= i < j < self.projects_view().len() ==> (
            #[trigger] self.projects_view()[i]).metadata.slug != (
            #[trigger] self.projects_view()[j]).metadata.slug
    }

    /// Creates an empty store.
    pub fn new() -> (s: Self)
        ensures
            s.wf(),
            s.posts_view() == Seq::<PostView>::empty(),
            s.projects_view() == Seq::<ProjectView>::empty(),
    {
        let s = ContentStore { posts: Vec::new(), projects: Vec::new() };
        proof {
            assert(s.posts_view() =~= Seq::<PostView>::empty());
            assert(s.projects_view() =~= Seq::<ProjectView>::empty());
        }
        s
    }

    /// Adds a post; a post with the same slug is replaced in place, any
    /// other slug is appended.
    pub fn insert_post(&mut self, post: Post)
        requires
            old(self).wf(),
        ensures
            final(self).wf(),
            final(self).projects_view() == old(self).projects_view(),
            ({
                let s = old(self).posts_view();
                let i = post_slug_index(s, post@.metadata.slug);
                if i < s.len() {
                    final(self).posts_view() == s.update(i, post@)
                } else {
                    final(self).posts_view() == s.push(post@)
                }
            }),
    {
        let found = find_post_slug(&self.posts, post.metadata.slug.as_str());
        proof {
            let s = self.posts_view();
            match found {
                Option::Some(i) => lemma_post_slug_index_at(s, post@.metadata.slug, i as int),
                Option::None => lemma_post_slug_index_at(s, post@.metadata.slug, s.len() as int),
            }
        }
        let ghost pre = self.posts@;
        match found {
            Option::Some(i) => {
                let _ = self.posts.remove(i);
                self.posts.insert(i, post);
                proof {
                    assert(self.posts@ =~= pre.update(i as int, self.posts@[i as int]));
                    assert(self.posts_view() =~= pre.map_values(|p: Post| p@).update(
                        i as int,
                        self.posts@[i as int]@,
                    ));
                }
            },
            Option::None => {
                self.posts.push(post);
                proof {
                    assert(self.posts@ =~= pre.push(self.posts@[pre.len() as int]));
                    assert(self.posts_view() =~= pre.map_values(|p: Post| p@).push(
                        self.posts@[pre.len() as int]@,
                    ));
                }
            },
        }
    }

    /// Adds a project; a project with the same slug is replaced in place,
    /// any other slug is appended.
    pub fn insert_project(&mut self, project: Project)
        requires
            old(self).wf(),
        ensures
            final(self).wf(),
            final(self).posts_view() == old(self).posts_view(),
            ({
                let s = old(self).projects_view();
                let i = project_slug_index(s, project@.metadata.slug);
                if i < s.len() {
                    final(self).projects_view() == s.update(i, project@)
                } else {
                    final(self).projects_view() == s.push(project@)
                }
            }),
    {
        let found = find_project_slug(&self.projects, project.metadata.slug.as_str());
        proof {
            let s = self.projects_view();
            match found {
                Option::Some(i) => lemma_project_slug_index_at(s, project@.metadata.slug, i as int),
                Option::None => lemma_project_slug_index_at(
                    s,
                    project@.metadata.slug,
                    s.len() as int,
                ),
            }
        }
        let ghost pre = self.projects@;
        match found {
            Option::Some(i) => {
                let _ = self.projects.remove(i);
                self.projects.insert(i, project);
                proof {
                    assert(self.projects@ =~= pre.update(i as int, self.projects@[i as int]));
                    assert(self.projects_view() =~= pre.map_values(|p: Project| p@).update(
                        i as int,
                        self.projects@[i as int]@,
                    ));
                    let nv = self.projects_view();
                    let ov = pre.map_values(|p: Project| p@);
                    assert forall|a: int, b: int| 0 <= a < b < nv.len() implies (
                    #[trigger] nv[a]).metadata.slug != (#[trigger] nv[b]).metadata.slug by {
                        assert(ov[a].metadata.slug != ov[b].metadata.slug);
                        assert(nv[i as int].metadata.slug == ov[i as int].metadata.slug);
                        if a != i {
                            assert(nv[a] == ov[a]);
                        }
                        if b != i {
                            assert(nv[b] == ov[b]);
                        }
                    }
                }
            },
            Option::None => {
                self.projects.push(project);
                proof {
                    assert(self.projects@ =~= pre.push(self.projects@[pre.len() as int]));
                    assert(self.projects_view() =~= pre.map_values(|p: Project| p@).push(
                        self.projects@[pre.len() as int]@,
                    ));
                }
            },
        }
    }

    /// Replaces the whole store at once. A reader that runs before this
    /// call sees the old content in full and one that runs after it sees
    /// the new content in full: replacement is a single whole-value swap,
    /// never a partial mix.
    pub fn replace_with(&mut self, fresh: ContentStore)
        ensures
            *final(self) == fresh,
    {
        *self = fresh;
    }

    /// How many posts are loaded.
    pub fn posts_count(&self) -> (r: usize)
        ensures
            r == self.posts_view().len(),
    {
        self.posts.len()
    }

    /// How many projects are loaded.
    pub fn projects_count(&self) -> (r: usize)
        ensures
            r == self.projects_view().len(),
    {
        self.projects.len()
    }

    /// All non-draft posts, newest first: exactly the published posts of
    /// the store, sorted by date descending, equal dates in a pinned
    /// order, so repeated reads return the identical sequence.
    pub fn published_posts(&self) -> (r: Vec<Post>)
        ensures
            r@.map_values(|p: Post| p@) == sorted_posts_of(
                self.posts_view().filter(|p: PostView| !p.metadata.draft),
            ),
            r@.map_values(|p: Post| p@).to_multiset() == self.posts_view().filter(
                |p: PostView| !p.metadata.draft,
            ).to_multiset(),
            posts_sorted_desc(r@.map_values(|p: Post| p@)),
            forall|i: int| 0 <= i < r@.len() ==> !(#[trigger] r@[i])@.metadata.draft,
    {
        broadcast use vstd::seq_lib::group_to_multiset_ensures;

        let picked = filter_published(&self.posts);
        let r = sort_posts_desc(picked);
        proof {
            let rm = r@.map_values(|p: Post| p@);
            assert forall|i: int| 0 <= i < r@.len() implies !(#[trigger] r@[i])@.metadata.draft by {
                assert(rm.contains(rm[i]));
                assert(rm.to_multiset().count(rm[i]) > 0);
                let f = self.posts_view().filter(|p: PostView| !p.metadata.draft);
                assert(f.contains(rm[i]));
                vstd::prelude::Seq::lemma_filter_pred(
                    self.posts_view(),
                    |p: PostView| !p.metadata.draft,
                    choose|k: int| 0 <= k < f.len() && f[k] == rm[i],
                );
            }
        }
        r
    }

    /// All projects, newest first.
    pub fn all_projects(&self) -> (r: Vec<Project>)
        ensures
            r@.map_values(|p: Project| p@) == sorted_projects_of(self.projects_view()),
            r@.map_values(|p: Project| p@).to_multiset() == self.projects_view().to_multiset(),
            projects_sorted_desc(r@.map_values(|p: Project| p@)),
    {
        let picked = clone_projects(&self.projects);
        let r = sort_projects_desc(picked);
        proof {
            assert(picked@.map_values(|p: Project| p@) =~= self.projects_view());
        }
        r
    }

    /// The featured projects, newest first: exactly the projects flagged
    /// as featured, sorted by date descending.
    pub fn featured_projects(&self) -> (r: Vec<Project>)
        ensures
            r@.map_values(|p: Project| p@) == sorted_projects_of(
                self.projects_view().filter(|p: ProjectView| p.metadata.featured),
            ),
            r@.map_values(|p: Project| p@).to_multiset() == self.projects_view().filter(
                |p: ProjectView| p.metadata.featured,
            ).to_multiset(),
            projects_sorted_desc(r@.map_values(|p: Project| p@)),
            forall|i: int| 0 <= i < r@.len() ==> (#[trigger] r@[i])@.metadata.featured,
    {
        broadcast use vstd::seq_lib::group_to_multiset_ensures;

        let picked = filter_featured(&self.projects);
        let r = sort_projects_desc(picked);
        proof {
            let rm = r@.map_values(|p: Project| p@);
            assert forall|i: int| 0 <= i < r@.len() implies (#[trigger] r@[i])@.metadata.featured by {
                assert(rm.contains(rm[i]));
                assert(rm.to_multiset().count(rm[i]) > 0);
                let f = self.projects_view().filter(|p: ProjectView| p.metadata.featured);
                assert(f.contains(rm[i]));
                vstd::prelude::Seq::lemma_filter_pred(
                    self.projects_view(),
                    |p: ProjectView| p.metadata.featured,
                    choose|k: int| 0 <= k < f.len() && f[k] == rm[i],
                );
            }
        }
        r
    }

    /// The published posts carrying `tag` under case-insensitive
    /// comparison, newest first.
    pub fn posts_by_tag(&self, tag: &str) -> (r: Vec<Post>)
        ensures
            r@.map_values(|p: Post| p@) == sorted_posts_of(
                self.posts_view().filter(
                    |p: PostView| !p.metadata.draft && has_tag_ci(p, lower_of(tag@)),
                ),
            ),
            r@.map_values(|p: Post| p@).to_multiset() == self.posts_view().filter(
                |p: PostView| !p.metadata.draft && has_tag_ci(p, lower_of(tag@)),
            ).to_multiset(),
            posts_sorted_desc(r@.map_values(|p: Post| p@)),
    {
        let tl = lowercase(tag);
        let picked = filter_tagged(&self.posts, tl.as_str());
        sort_posts_desc(picked)
    }

    /// Every tag of every published post, each spelling once, in
    /// ascending lexicographic order. Tags that differ in any character
    /// (case included) stay distinct.
    pub fn all_tags(&self) -> (r: Vec<String>)
        ensures
            forall|i: int, j: int|
                0 <= i < j < r@.len() ==> lex_lt((#[trigger] r@[i])@, (#[trigger] r@[j])@),
            forall|t: Seq<char>|
                #![trigger seq_has_str(r@, t)]
                #![trigger has_published_tag(self.posts_view(), t)]
                seq_has_str(r@, t) == has_published_tag(self.posts_view(), t),
    {
        broadcast use vstd::seq_lib::group_to_multiset_ensures;

        let collected = collect_published_tags(&self.posts);
        let ghost cseq = collected@;
        let sorted = sort_strings_asc(collected);
        let ghost sseq = sorted@;
        let r = dedup_sorted_strings(sorted);
        proof {
            assert forall|t: Seq<char>|
                #![trigger seq_has_str(r@, t)]
                #![trigger has_published_tag(self.posts_view(), t)]
                seq_has_str(r@, t) == has_published_tag(self.posts_view(), t) by {
                lemma_seq_has_str_mapped(sseq, t);
                lemma_seq_has_str_mapped(cseq, t);
                vstd::seq_lib::to_multiset_contains(sseq.map_values(|s: String| s@), t);
                vstd::seq_lib::to_multiset_contains(cseq.map_values(|s: String| s@), t);
            }
        }
        r
    }

    /// The post that a public page for `slug` shows: the stored post with
    /// that slug, unless it is missing or a draft.
    pub fn visible_post(&self, slug: &str) -> (r: Option<&Post>)
        ensures
            ({
                let s = self.posts_view();
                let i = post_slug_index(s, slug@);
                match r {
                    Option::Some(p) => i < s.len() && !s[i].metadata.draft && p@ == s[i],
                    Option::None => i == s.len() || s[i].metadata.draft,
                }
            }),
    {
        let found = find_post_slug(&self.posts, slug);
        proof {
            let s = self.posts_view();
            match found {
                Option::Some(i) => lemma_post_slug_index_at(s, slug@, i as int),
                Option::None => lemma_post_slug_index_at(s, slug@, s.len() as int),
            }
        }
        match found {
            Option::Some(i) => {
                if self.posts[i].metadata.draft {
                    Option::None
                } else {
                    Option::Some(&self.posts[i])
                }
            },
            Option::None => Option::None,
        }
    }

    /// The project stored under `slug`, if any.
    pub fn project_by_slug(&self, slug: &str) -> (r: Option<&Project>)
        ensures
            ({
                let s = self.projects_view();
                let i = project_slug_index(s, slug@);
                match r {
                    Option::Some(p) => i < s.len() && p@ == s[i],
                    Option::None => i == s.len(),
                }
            }),
    {
        let found = find_project_slug(&self.projects, slug);
        proof {
            let s = self.projects_view();
            match found {
                Option::Some(i) => lemma_project_slug_index_at(s, slug@, i as int),
                Option::None => lemma_project_slug_index_at(s, slug@, s.len() as int),
            }
        }
        match found {
            Option::Some(i) => Option::Some(&self.projects[i]),
            Option::None => Option::None,
        }
    }
}

proof fn lemma_empty_seq_multiset<T>(s: Seq<T>)
    requires
        s.len() == 0,
    ensures
        s.to_multiset() == Multiset::<T>::empty(),
{
    broadcast use vstd::seq_lib::group_to_multiset_ensures;
    broadcast use vstd::multiset::group_multiset_axioms;

    assert(s.to_multiset() =~= Multiset::<T>::empty());
}

proof fn lemma_sort_step_multiset<T>(rm: Seq<T>, vm: Seq<T>, orig: Multiset<T>, k: int, x: T)
    requires
        rm.to_multiset().add(vm.to_multiset()) == orig,
        vm.len() > 0,
        vm.last() == x,
        0 <= k <= rm.len(),
    ensures
        rm.insert(k, x).to_multiset().add(vm.drop_last().to_multiset()) == orig,
{
    broadcast use vstd::seq_lib::group_to_multiset_ensures;
    broadcast use vstd::multiset::group_multiset_axioms;

    assert(vm.drop_last() =~= vm.remove(vm.len() - 1));
    assert(vm.drop_last().to_multiset() == vm.to_multiset().remove(x));
    assert(vm.contains(x));
    assert(vm.to_multiset().count(x) > 0);
    assert(rm.insert(k, x).to_multiset() == rm.to_multiset().insert(x));
    assert(rm.insert(k, x).to_multiset().add(vm.drop_last().to_multiset()) =~= orig);
}

/// Where a post lands among newest-first sorted posts: after every post
/// at least as new as it, before the rest.
pub open spec fn insert_post_desc(r: Seq<PostView>, x: PostView) -> Seq<PostView>
    decreases r.len(),
{
    if r.len() == 0 {
        seq![x]
    } else if before_eq(x.metadata.date, r.last().metadata.date) {
        r.push(x)
    } else {
        insert_post_desc(r.drop_last(), x).push(r.last())
    }
}

/// The exact newest-first order the sort produces: the given posts
/// inserted one by one, from the last given to the first. This pins the
/// order of equal dates too, so repeated calls agree.
pub open spec fn sorted_posts_of(v: Seq<PostView>) -> Seq<PostView>
    decreases v.len(),
{
    if v.len() == 0 {
        Seq::empty()
    } else {
        insert_post_desc(sorted_posts_of(v.drop_first()), v.first())
    }
}

/// Where a project lands among newest-first sorted projects.
pub open spec fn insert_project_desc(r: Seq<ProjectView>, x: ProjectView) -> Seq<ProjectView>
    decreases r.len(),
{
    if r.len() == 0 {
        seq![x]
    } else if before_eq(x.metadata.date, r.last().metadata.date) {
        r.push(x)
    } else {
        insert_project_desc(r.drop_last(), x).push(r.last())
    }
}

/// The exact newest-first order the sort produces for projects.
pub open spec fn sorted_projects_of(v: Seq<ProjectView>) -> Seq<ProjectView>
    decreases v.len(),
{
    if v.len() == 0 {
        Seq::empty()
    } else {
        insert_project_desc(sorted_projects_of(v.drop_first()), v.first())
    }
}

proof fn lemma_insert_post_desc_at(r: Seq<PostView>, x: PostView, k: int)
    requires
        0 <= k <= r.len(),
        forall|idx: int|
            k <= idx < r.len() ==> !before_eq(x.metadata.date, (#[trigger] r[idx]).metadata.date),
        k == 0 || before_eq(x.metadata.date, r[k - 1].metadata.date),
    ensures
        insert_post_desc(r, x) == r.insert(k, x),
    decreases r.len(),
{
    if k == r.len() {
        if r.len() == 0 {
            assert(seq![x] =~= r.insert(0, x));
        } else {
            assert(r.push(x) =~= r.insert(k, x));
        }
    } else {
        assert(!before_eq(x.metadata.date, r[r.len() - 1].metadata.date));
        assert forall|idx: int| k <= idx < r.drop_last().len() implies !before_eq(
            x.metadata.date,
            (#[trigger] r.drop_last()[idx]).metadata.date,
        ) by {
            assert(r.drop_last()[idx] == r[idx]);
        }
        lemma_insert_post_desc_at(r.drop_last(), x, k);
        assert(r.drop_last().insert(k, x).push(r.last()) =~= r.insert(k, x));
    }
}

proof fn lemma_insert_project_desc_at(r: Seq<ProjectView>, x: ProjectView, k: int)
    requires
        0 <= k <= r.len(),
        forall|idx: int|
            k <= idx < r.len() ==> !before_eq(x.metadata.date, (#[trigger] r[idx]).metadata.date),
        k == 0 || before_eq(x.metadata.date, r[k - 1].metadata.date),
    ensures
        insert_project_desc(r, x) == r.insert(k, x),
    decreases r.len(),
{
    if k == r.len() {
        if r.len() == 0 {
            assert(seq![x] =~= r.insert(0, x));
        } else {
            assert(r.push(x) =~= r.insert(k, x));
        }
    } else {
        assert(!before_eq(x.metadata.date, r[r.len() - 1].metadata.date));
        assert forall|idx: int| k <= idx < r.drop_last().len() implies !before_eq(
            x.metadata.date,
            (#[trigger] r.drop_last()[idx]).metadata.date,
        ) by {
            assert(r.drop_last()[idx] == r[idx]);
        }
        lemma_insert_project_desc_at(r.drop_last(), x, k);
        assert(r.drop_last().insert(k, x).push(r.last()) =~= r.insert(k, x));
    }
}

/// Dates run newest to oldest.
pub open spec fn posts_sorted_desc(s: Seq<PostView>) -> bool {
    forall|i: int, j: int|
        0 <= i < j < s.len() ==> before_eq(
            (#[trigger] s[j]).metadata.date,
            (#[trigger] s[i]).metadata.date,
        )
}

/// Dates run newest to oldest.
pub open spec fn projects_sorted_desc(s: Seq<ProjectView>) -> bool {
    forall|i: int, j: int|
        0 <= i < j < s.len() ==> before_eq(
            (#[trigger] s[j]).metadata.date,
            (#[trigger] s[i]).metadata.date,
        )
}

/// Sorts posts by date, newest first, keeping exactly the given posts.
fn sort_posts_desc(v: Vec<Post>) -> (r: Vec<Post>)
    ensures
        r@.map_values(|p: Post| p@) == sorted_posts_of(v@.map_values(|p: Post| p@)),
        r@.map_values(|p: Post| p@).to_multiset() == v@.map_values(|p: Post| p@).to_multiset(),
        posts_sorted_desc(r@.map_values(|p: Post| p@)),
{
    broadcast use vstd::seq_lib::group_to_multiset_ensures;

    let ghost orig = v@.map_values(|p: Post| p@);
    let mut v = v;
    let mut r: Vec<Post> = Vec::new();
    proof {
        assert(r@.map_values(|p: Post| p@).to_multiset().add(orig.to_multiset()) =~= orig
            .to_multiset());
        assert(v@.map_values(|p: Post| p@) =~= orig.subrange(0, v@.len() as int));
        assert(orig.skip(v@.len() as int) =~= Seq::<PostView>::empty());
        assert(r@.map_values(|p: Post| p@) =~= sorted_posts_of(orig.skip(v@.len() as int)));
    }
    loop
        invariant
            r@.map_values(|p: Post| p@).to_multiset().add(
                v@.map_values(|p: Post| p@).to_multiset(),
            ) == orig.to_multiset(),
            v@.len() <= orig.len(),
            v@.map_values(|p: Post| p@) == orig.subrange(0, v@.len() as int),
            r@.map_values(|p: Post| p@) == sorted_posts_of(orig.skip(v@.len() as int)),
            posts_sorted_desc(r@.map_values(|p: Post| p@)),
        ensures
            v@.len() == 0,
            r@.map_values(|p: Post| p@) == sorted_posts_of(orig),
            r@.map_values(|p: Post| p@).to_multiset() == orig.to_multiset(),
            posts_sorted_desc(r@.map_values(|p: Post| p@)),
        decreases v@.len(),
    {
        let ghost vm = v@.map_values(|p: Post| p@);
        let x = match v.pop() {
            Option::Some(x) => x,
            Option::None => {
                proof {
                    lemma_empty_seq_multiset(v@.map_values(|p: Post| p@));
                    assert(r@.map_values(|p: Post| p@).to_multiset().add(
                        Multiset::<PostView>::empty(),
                    ) =~= r@.map_values(|p: Post| p@).to_multiset());
                    assert(orig.skip(0) =~= orig);
                }
                break;
            },
        };
        let ghost remaining = vm.len() as int;
        proof {
            assert(v@.map_values(|p: Post| p@) =~= vm.drop_last());
            assert(vm =~= vm.drop_last().push(x@));
            assert(remaining >= 1);
            assert(vm == orig.subrange(0, remaining));
            assert(remaining <= orig.len());
            assert forall|idx: int| 0 <= idx < remaining implies vm[idx] == orig[idx] by {
                assert(vm[idx] == orig.subrange(0, remaining)[idx]);
            }
            assert(x@ == vm[remaining - 1]);
            assert(x@ == orig[remaining - 1]);
            assert forall|idx: int| 0 <= idx < remaining - 1 implies vm.drop_last()[idx] == orig
                .subrange(0, remaining - 1)[idx] by {
                assert(vm.drop_last()[idx] == vm[idx]);
            }
            assert(v@.map_values(|p: Post| p@) =~= orig.subrange(0, remaining - 1));
        }
        let xd = x.metadata.date;
        let mut k = r.len();
        while k > 0 && !crate::date::moment_le(&xd, &r[k - 1].metadata.date)
            invariant
                xd == x@.metadata.date,
                k <= r@.len(),
                posts_sorted_desc(r@.map_values(|p: Post| p@)),
                forall|idx: int|
                    k <= idx < r@.len() ==> !before_eq(xd, (#[trigger] r@[idx])@.metadata.date),
            decreases k,
        {
            k = k - 1;
        }
        let ghost rm = r@.map_values(|p: Post| p@);
        proof {
            assert forall|idx: int| k <= idx < rm.len() implies !before_eq(
                x@.metadata.date,
                (#[trigger] rm[idx]).metadata.date,
            ) by {
                assert(rm[idx] == r@[idx]@);
            }
        }
        r.insert(k, x);
        proof {
            assert(r@.map_values(|p: Post| p@) =~= rm.insert(k as int, x@));
            lemma_sort_step_multiset(rm, vm, orig.to_multiset(), k as int, x@);
            lemma_insert_post_desc_at(rm, x@, k as int);
            let tail = orig.skip(remaining - 1);
            assert(tail.len() > 0);
            assert(tail.first() == orig[remaining - 1]);
            assert(tail.drop_first() =~= orig.skip(remaining));
            assert(sorted_posts_of(tail) == insert_post_desc(rm, x@));
            assert(r@.map_values(|p: Post| p@) == sorted_posts_of(orig.skip(remaining - 1)));
            let nm = r@.map_values(|p: Post| p@);
            assert forall|i: int, j: int| 0 <= i < j < nm.len() implies before_eq(
                (#[trigger] nm[j]).metadata.date,
                (#[trigger] nm[i]).metadata.date,
            ) by {
                if i < k && j == k {
                    assert(before_eq(xd, rm[k - 1].metadata.date));
                    assert(nm[i] == rm[i]);
                } else if i == k && j > k {
                    assert(nm[j] == rm[j - 1]);
                    assert(!before_eq(xd, rm[j - 1].metadata.date));
                } else if j < k {
                    assert(nm[i] == rm[i] && nm[j] == rm[j]);
                } else if i > k {
                    assert(nm[i] == rm[i - 1] && nm[j] == rm[j - 1]);
                } else if i < k && j > k {
                    assert(nm[i] == rm[i] && nm[j] == rm[j - 1]);
                    assert(!before_eq(xd, rm[j - 1].metadata.date));
                    assert(before_eq(rm[j - 1].metadata.date, xd));
                }
            }
        }
    }
    r
}

/// Sorts projects by date, newest first, keeping exactly the given
/// projects.
fn sort_projects_desc(v: Vec<Project>) -> (r: Vec<Project>)
    ensures
        r@.map_values(|p: Project| p@) == sorted_projects_of(v@.map_values(|p: Project| p@)),
        r@.map_values(|p: Project| p@).to_multiset() == v@.map_values(
            |p: Project| p@,
        ).to_multiset(),
        projects_sorted_desc(r@.map_values(|p: Project| p@)),
{
    broadcast use vstd::seq_lib::group_to_multiset_ensures;

    let ghost orig = v@.map_values(|p: Project| p@);
    let mut v = v;
    let mut r: Vec<Project> = Vec::new();
    proof {
        assert(r@.map_values(|p: Project| p@).to_multiset().add(orig.to_multiset()) =~= orig
            .to_multiset());
        assert(v@.map_values(|p: Project| p@) =~= orig.subrange(0, v@.len() as int));
        assert(orig.skip(v@.len() as int) =~= Seq::<ProjectView>::empty());
        assert(r@.map_values(|p: Project| p@) =~= sorted_projects_of(orig.skip(v@.len() as int)));
    }
    loop
        invariant
            r@.map_values(|p: Project| p@).to_multiset().add(
                v@.map_values(|p: Project| p@).to_multiset(),
            ) == orig.to_multiset(),
            v@.len() <= orig.len(),
            v@.map_values(|p: Project| p@) == orig.subrange(0, v@.len() as int),
            r@.map_values(|p: Project| p@) == sorted_projects_of(orig.skip(v@.len() as int)),
            projects_sorted_desc(r@.map_values(|p: Project| p@)),
        ensures
            v@.len() == 0,
            r@.map_values(|p: Project| p@) == sorted_projects_of(orig),
            r@.map_values(|p: Project| p@).to_multiset() == orig.to_multiset(),
            projects_sorted_desc(r@.map_values(|p: Project| p@)),
        decreases v@.len(),
    {
        let ghost vm = v@.map_values(|p: Project| p@);
        let x = match v.pop() {
            Option::Some(x) => x,
            Option::None => {
                proof {
                    lemma_empty_seq_multiset(v@.map_values(|p: Project| p@));
                    assert(r@.map_values(|p: Project| p@).to_multiset().add(
                        Multiset::<ProjectView>::empty(),
                    ) =~= r@.map_values(|p: Project| p@).to_multiset());
                    assert(orig.skip(0) =~= orig);
                }
                break;
            },
        };
        let ghost remaining = vm.len() as int;
        proof {
            assert(v@.map_values(|p: Project| p@) =~= vm.drop_last());
            assert(vm =~= vm.drop_last().push(x@));
            assert(remaining >= 1);
            assert(vm == orig.subrange(0, remaining));
            assert(remaining <= orig.len());
            assert forall|idx: int| 0 <= idx < remaining implies vm[idx] == orig[idx] by {
                assert(vm[idx] == orig.subrange(0, remaining)[idx]);
            }
            assert(x@ == vm[remaining - 1]);
            assert(x@ == orig[remaining - 1]);
            assert forall|idx: int| 0 <= idx < remaining - 1 implies vm.drop_last()[idx] == orig
                .subrange(0, remaining - 1)[idx] by {
                assert(vm.drop_last()[idx] == vm[idx]);
            }
            assert(v@.map_values(|p: Project| p@) =~= orig.subrange(0, remaining - 1));
        }
        let xd = x.metadata.date;
        let mut k = r.len();
        while k > 0 && !crate::date::moment_le(&xd, &r[k - 1].metadata.date)
            invariant
                xd == x@.metadata.date,
                k <= r@.len(),
                projects_sorted_desc(r@.map_values(|p: Project| p@)),
                forall|idx: int|
                    k <= idx < r@.len() ==> !before_eq(xd, (#[trigger] r@[idx])@.metadata.date),
            decreases k,
        {
            k = k - 1;
        }
        let ghost rm = r@.map_values(|p: Project| p@);
        proof {
            assert forall|idx: int| k <= idx < rm.len() implies !before_eq(
                x@.metadata.date,
                (#[trigger] rm[idx]).metadata.date,
            ) by {
                assert(rm[idx] == r@[idx]@);
            }
        }
        r.insert(k, x);
        proof {
            assert(r@.map_values(|p: Project| p@) =~= rm.insert(k as int, x@));
            lemma_sort_step_multiset(rm, vm, orig.to_multiset(), k as int, x@);
            lemma_insert_project_desc_at(rm, x@, k as int);
            let tail = orig.skip(remaining - 1);
            assert(tail.len() > 0);
            assert(tail.first() == orig[remaining - 1]);
            assert(tail.drop_first() =~= orig.skip(remaining));
            assert(sorted_projects_of(tail) == insert_project_desc(rm, x@));
            assert(r@.map_values(|p: Project| p@) == sorted_projects_of(orig.skip(remaining - 1)));
            let nm = r@.map_values(|p: Project| p@);
            assert forall|i: int, j: int| 0 <= i < j < nm.len() implies before_eq(
                (#[trigger] nm[j]).metadata.date,
                (#[trigger] nm[i]).metadata.date,
            ) by {
                if i < k && j == k {
                    assert(before_eq(xd, rm[k - 1].metadata.date));
                    assert(nm[i] == rm[i]);
                } else if i == k && j > k {
                    assert(nm[j] == rm[j - 1]);
                    assert(!before_eq(xd, rm[j - 1].metadata.date));
                } else if j < k {
                    assert(nm[i] == rm[i] && nm[j] == rm[j]);
                } else if i > k {
                    assert(nm[i] == rm[i - 1] && nm[j] == rm[j - 1]);
                } else if i < k && j > k {
                    assert(nm[i] == rm[i] && nm[j] == rm[j - 1]);
                    assert(!before_eq(xd, rm[j - 1].metadata.date));
                    assert(before_eq(rm[j - 1].metadata.date, xd));
                }
            }
        }
    }
    r
}

/// The views of a sequence of posts.
pub open spec fn post_views_of(v: Seq<Post>) -> Seq<PostView> {
    v.map_values(|p: Post| p@)
}

/// Whether some string in `v` reads `t`.
pub open spec fn seq_has_str(v: Seq<String>, t: Seq<char>) -> bool {
    exists|i: int| 0 <= i < v.len() && (#[trigger] v[i])@ == t
}

/// Whether one of the first `n` posts is published and carries `t` among
/// its tags.
pub open spec fn tag_in_prefix(posts: Seq<PostView>, n: int, t: Seq<char>) -> bool {
    exists|i: int|
        0 <= i < n && !(#[trigger] posts[i]).metadata.draft && posts[i].metadata.tags.contains(t)
}

/// Whether some published post carries `t` among its tags.
pub open spec fn has_published_tag(posts: Seq<PostView>, t: Seq<char>) -> bool {
    tag_in_prefix(posts, posts.len() as int, t)
}

/// Whether one of the first `k` tags reads `t`.
pub open spec fn tags_prefix_has(tags: Seq<Seq<char>>, k: int, t: Seq<char>) -> bool {
    exists|b: int| 0 <= b < k && #[trigger] tags[b] == t
}

proof fn lemma_seq_has_str_push(v: Seq<String>, x: String, t: Seq<char>)
    ensures
        seq_has_str(v.push(x), t) == (seq_has_str(v, t) || x@ == t),
{
    if seq_has_str(v.push(x), t) {
        let i = choose|i: int| 0 <= i < v.push(x).len() && (#[trigger] v.push(x)[i])@ == t;
        if i < v.len() {
            assert(v[i]@ == t);
        } else {
            assert(x@ == t);
        }
    }
    if seq_has_str(v, t) {
        let i = choose|i: int| 0 <= i < v.len() && (#[trigger] v[i])@ == t;
        assert(v.push(x)[i]@ == t);
        assert(seq_has_str(v.push(x), t));
    }
    if x@ == t {
        assert(v.push(x)[v.len() as int]@ == t);
        assert(seq_has_str(v.push(x), t));
    }
}

proof fn lemma_tag_prefix_step(posts: Seq<PostView>, n: int, t: Seq<char>)
    requires
        0 <= n < posts.len(),
    ensures
        tag_in_prefix(posts, n + 1, t) == (tag_in_prefix(posts, n, t) || (!posts[n].metadata.draft
            && posts[n].metadata.tags.contains(t))),
{
    if tag_in_prefix(posts, n + 1, t) {
        let i = choose|i: int|
            0 <= i < n + 1 && !(#[trigger] posts[i]).metadata.draft
                && posts[i].metadata.tags.contains(t);
        if i < n {
            assert(tag_in_prefix(posts, n, t));
        }
    }
}

proof fn lemma_seq_has_str_mapped(v: Seq<String>, t: Seq<char>)
    ensures
        seq_has_str(v, t) == v.map_values(|s: String| s@).contains(t),
{
    let m = v.map_values(|s: String| s@);
    if seq_has_str(v, t) {
        let i = choose|i: int| 0 <= i < v.len() && (#[trigger] v[i])@ == t;
        assert(m[i] == t);
    }
    if m.contains(t) {
        let i = choose|i: int| 0 <= i < m.len() && m[i] == t;
        assert(v[i]@ == t);
        assert(seq_has_str(v, t));
    }
}

/// Collects every tag of every published post, in encounter order, with
/// repetitions.
fn collect_published_tags(v: &Vec<Post>) -> (r: Vec<String>)
    ensures
        forall|t: Seq<char>|
            #![trigger seq_has_str(r@, t)]
            #![trigger has_published_tag(post_views_of(v@), t)]
            seq_has_str(r@, t) == has_published_tag(post_views_of(v@), t),
{
    let ghost vm = post_views_of(v@);
    let n = v.len();
    let mut r: Vec<String> = Vec::new();
    let mut i: usize = 0;
    proof {
        assert forall|t: Seq<char>|
            #![trigger seq_has_str(r@, t)]
            #![trigger tag_in_prefix(vm, 0, t)]
            seq_has_str(r@, t) == tag_in_prefix(vm, 0, t) by {
            if seq_has_str(r@, t) {
                let w = choose|w: int| 0 <= w < r@.len() && (#[trigger] r@[w])@ == t;
                assert(false);
            }
            if tag_in_prefix(vm, 0, t) {
                let w = choose|w: int|
                    0 <= w < 0 && !(#[trigger] vm[w]).metadata.draft
                        && vm[w].metadata.tags.contains(t);
                assert(false);
            }
        }
    }
    while i < n
        invariant
            vm == post_views_of(v@),
            n == v@.len(),
            i <= n,
            forall|t: Seq<char>|
                #![trigger seq_has_str(r@, t)]
                #![trigger tag_in_prefix(vm, i as int, t)]
                seq_has_str(r@, t) == tag_in_prefix(vm, i as int, t),
        decreases n - i,
    {
        if !v[i].metadata.draft {
            let ghost before = r@;
            let tags = &v[i].metadata.tags;
            let m = tags.len();
            let mut k: usize = 0;
            while k < m
                invariant
                    vm == post_views_of(v@),
                    i < v@.len(),
                    !vm[i as int].metadata.draft,
                    tags == &v@[i as int].metadata.tags,
                    m == v@[i as int].metadata.tags@.len(),
                    k <= m,
                    forall|t: Seq<char>|
                        #![trigger seq_has_str(r@, t)]
                        seq_has_str(r@, t) == (tag_in_prefix(vm, i as int, t) || tags_prefix_has(
                            vm[i as int].metadata.tags,
                            k as int,
                            t,
                        )),
                decreases m - k,
            {
                let ghost rb = r@;
                let x = tags[k].clone();
                proof {
                    assert(vm[i as int].metadata.tags[k as int] == (v@[i as int].metadata.tags@[k as int])@);
                    assert(x@ == vm[i as int].metadata.tags[k as int]);
                }
                r.push(x);
                proof {
                    assert forall|t: Seq<char>| #![trigger seq_has_str(r@, t)]
                        seq_has_str(r@, t) == (tag_in_prefix(vm, i as int, t) || tags_prefix_has(
                            vm[i as int].metadata.tags,
                            k + 1,
                            t,
                        )) by {
                        lemma_seq_has_str_push(rb, x, t);
                        let tgs = vm[i as int].metadata.tags;
                        if tags_prefix_has(tgs, k + 1, t) {
                            let b = choose|b: int| 0 <= b < k + 1 && #[trigger] tgs[b] == t;
                            if b < k {
                                assert(tags_prefix_has(tgs, k as int, t));
                            } else {
                                assert(x@ == t);
                            }
                        }
                        if tags_prefix_has(tgs, k as int, t) {
                            let b = choose|b: int| 0 <= b < k && #[trigger] tgs[b] == t;
                            assert(tags_prefix_has(tgs, k + 1, t));
                        }
                        if x@ == t {
                            assert(tgs[k as int] == t);
                            assert(tags_prefix_has(tgs, k + 1, t));
                        }
                    }
                }
                k = k + 1;
            }
            proof {
                assert forall|t: Seq<char>| #![trigger seq_has_str(r@, t)]
                    seq_has_str(r@, t) == tag_in_prefix(vm, i + 1, t) by {
                    lemma_tag_prefix_step(vm, i as int, t);
                    let tgs = vm[i as int].metadata.tags;
                    if tags_prefix_has(tgs, m as int, t) {
                        let b = choose|b: int| 0 <= b < m && #[trigger] tgs[b] == t;
                        assert(tgs.contains(t));
                    }
                    if tgs.contains(t) {
                        let b = choose|b: int| 0 <= b < tgs.len() && tgs[b] == t;
                        assert(tags_prefix_has(tgs, m as int, t));
                    }
                }
            }
        } else {
            proof {
                assert forall|t: Seq<char>| #![trigger seq_has_str(r@, t)]
                    seq_has_str(r@, t) == tag_in_prefix(vm, i + 1, t) by {
                    lemma_tag_prefix_step(vm, i as int, t);
                }
            }
        }
        i = i + 1;
    }
    r
}

/// Sorts strings into ascending lexicographic order, keeping exactly the
/// given strings.
fn sort_strings_asc(v: Vec<String>) -> (r: Vec<String>)
    ensures
        r@.map_values(|s: String| s@).to_multiset() == v@.map_values(|s: String| s@).to_multiset(),
        forall|i: int, j: int|
            0 <= i < j < r@.len() ==> lex_le((#[trigger] r@[i])@, (#[trigger] r@[j])@),
{
    broadcast use vstd::seq_lib::group_to_multiset_ensures;

    let ghost orig = v@.map_values(|s: String| s@);
    let mut v = v;
    let mut r: Vec<String> = Vec::new();
    proof {
        assert(r@.map_values(|s: String| s@).to_multiset().add(orig.to_multiset()) =~= orig
            .to_multiset());
    }
    loop
        invariant
            r@.map_values(|s: String| s@).to_multiset().add(
                v@.map_values(|s: String| s@).to_multiset(),
            ) == orig.to_multiset(),
            forall|i: int, j: int|
                0 <= i < j < r@.len() ==> lex_le((#[trigger] r@[i])@, (#[trigger] r@[j])@),
        ensures
            v@.len() == 0,
            r@.map_values(|s: String| s@).to_multiset() == orig.to_multiset(),
            forall|i: int, j: int|
                0 <= i < j < r@.len() ==> lex_le((#[trigger] r@[i])@, (#[trigger] r@[j])@),
        decreases v@.len(),
    {
        let ghost vm = v@.map_values(|s: String| s@);
        let x = match v.pop() {
            Option::Some(x) => x,
            Option::None => {
                proof {
                    lemma_empty_seq_multiset(v@.map_values(|s: String| s@));
                    assert(r@.map_values(|s: String| s@).to_multiset().add(
                        Multiset::<Seq<char>>::empty(),
                    ) =~= r@.map_values(|s: String| s@).to_multiset());
                }
                break;
            },
        };
        proof {
            assert(v@.map_values(|s: String| s@) =~= vm.drop_last());
            assert(vm =~= vm.drop_last().push(x@));
        }
        let mut k = r.len();
        while k > 0 && !str_lex_le(r[k - 1].as_str(), x.as_str())
            invariant
                k <= r@.len(),
                forall|i: int, j: int|
                    0 <= i < j < r@.len() ==> lex_le((#[trigger] r@[i])@, (#[trigger] r@[j])@),
                forall|idx: int| k <= idx < r@.len() ==> !lex_le((#[trigger] r@[idx])@, x@),
            decreases k,
        {
            k = k - 1;
        }
        let ghost rm = r@.map_values(|s: String| s@);
        r.insert(k, x);
        proof {
            assert(r@.map_values(|s: String| s@) =~= rm.insert(k as int, x@));
            lemma_sort_step_multiset(rm, vm, orig.to_multiset(), k as int, x@);
            assert forall|i: int, j: int| 0 <= i < j < r@.len() implies lex_le(
                (#[trigger] r@[i])@,
                (#[trigger] r@[j])@,
            ) by {
                let nm = r@.map_values(|s: String| s@);
                assert(nm[i] == r@[i]@ && nm[j] == r@[j]@);
                if i < k && j == k {
                    assert(lex_le(rm[k - 1], x@));
                    if i < k - 1 {
                        crate::text::lemma_lex_le_trans(rm[i], rm[k - 1], x@);
                    }
                    assert(nm[i] == rm[i]);
                } else if i == k && j > k {
                    assert(!lex_le(rm[j - 1], x@));
                    crate::text::lemma_lex_le_total(rm[j - 1], x@);
                    assert(nm[j] == rm[j - 1]);
                } else if j < k {
                    assert(nm[i] == rm[i] && nm[j] == rm[j]);
                } else if i > k {
                    assert(nm[i] == rm[i - 1] && nm[j] == rm[j - 1]);
                } else if i < k && j > k {
                    assert(nm[i] == rm[i] && nm[j] == rm[j - 1]);
                }
            }
        }
    }
    r
}

/// Removes adjacent repeats from an ascending list, leaving each spelling
/// exactly once, in strictly ascending order.
fn dedup_sorted_strings(v: Vec<String>) -> (r: Vec<String>)
    requires
        forall|i: int, j: int|
            0 <= i < j < v@.len() ==> lex_le((#[trigger] v@[i])@, (#[trigger] v@[j])@),
    ensures
        forall|i: int, j: int|
            0 <= i < j < r@.len() ==> lex_lt((#[trigger] r@[i])@, (#[trigger] r@[j])@),
        forall|t: Seq<char>|
            #![trigger seq_has_str(r@, t)]
            #![trigger seq_has_str(v@, t)]
            seq_has_str(r@, t) == seq_has_str(v@, t),
{
    let n = v.len();
    let mut r: Vec<String> = Vec::new();
    let mut i: usize = 0;
    proof {
        assert forall|t: Seq<char>| !seq_has_str(r@, t) && !seq_has_str(v@.subrange(0, 0), t) by {
            if seq_has_str(r@, t) {
                let w = choose|w: int| 0 <= w < r@.len() && (#[trigger] r@[w])@ == t;
            }
            if seq_has_str(v@.subrange(0, 0), t) {
                let w = choose|w: int|
                    0 <= w < v@.subrange(0, 0).len() && (#[trigger] v@.subrange(0, 0)[w])@ == t;
            }
        }
    }
    while i < n
        invariant
            n == v@.len(),
            i <= n,
            forall|a: int, b: int|
                0 <= a < b < v@.len() ==> lex_le((#[trigger] v@[a])@, (#[trigger] v@[b])@),
            forall|a: int, b: int|
                0 <= a < b < r@.len() ==> lex_lt((#[trigger] r@[a])@, (#[trigger] r@[b])@),
            forall|t: Seq<char>|
                #![trigger seq_has_str(r@, t)]
                #![trigger seq_has_str(v@.subrange(0, i as int), t)]
                seq_has_str(r@, t) == seq_has_str(v@.subrange(0, i as int), t),
            r@.len() > 0 ==> i > 0 && (r@[r@.len() - 1])@ == (v@[i - 1])@,
        decreases n - i,
    {
        let ghost rb = r@;
        let dup = r.len() > 0 && str_eq(r[r.len() - 1].as_str(), v[i].as_str());
        if !dup {
            r.push(v[i].clone());
        }
        proof {
            assert(v@.subrange(0, i + 1) =~= v@.subrange(0, i as int).push(v@[i as int]));
            assert forall|t: Seq<char>|
                #![trigger seq_has_str(r@, t)]
                #![trigger seq_has_str(v@.subrange(0, i + 1), t)]
                seq_has_str(r@, t) == seq_has_str(v@.subrange(0, i + 1), t) by {
                lemma_seq_has_str_push(v@.subrange(0, i as int), v@[i as int], t);
                if !dup {
                    lemma_seq_has_str_push(rb, v@[i as int], t);
                    assert(r@ == rb.push(v@[i as int]));
                } else {
                    assert((rb[rb.len() - 1])@ == (v@[i as int])@);
                    if (v@[i as int])@ == t {
                        assert((rb[rb.len() - 1])@ == t);
                        assert(seq_has_str(rb, t));
                    }
                }
            }
            if !dup {
                assert forall|a: int, b: int| 0 <= a < b < r@.len() implies lex_lt(
                    (#[trigger] r@[a])@,
                    (#[trigger] r@[b])@,
                ) by {
                    if b == r@.len() - 1 {
                        assert(r@[b]@ == (v@[i as int])@);
                        if rb.len() > 0 {
                            assert(r@[a] == rb[a]);
                            assert(lex_le((v@[i - 1])@, (v@[i as int])@));
                            if a < rb.len() - 1 {
                                assert(lex_lt(rb[a]@, (rb[rb.len() - 1])@));
                                crate::text::lemma_lex_le_trans(
                                    rb[a]@,
                                    (v@[i - 1])@,
                                    (v@[i as int])@,
                                );
                            }
                            if rb[a]@ == (v@[i as int])@ {
                                crate::text::lemma_lex_le_antisym(
                                    (v@[i as int])@,
                                    (v@[i - 1])@,
                                );
                            }
                            assert((rb[rb.len() - 1])@ != (v@[i as int])@);
                        }
                    } else {
                        assert(r@[a] == rb[a] && r@[b] == rb[b]);
                    }
                }
            }
        }
        i = i + 1;
    }
    proof {
        assert(v@.subrange(0, n as int) =~= v@);
    }
    r
}

/// Whether a post carries a tag whose lowercase form is `tagl`.
pub open spec fn has_tag_ci(p: PostView, tagl: Seq<char>) -> bool {
    exists|k: int|
        0 <= k < p.metadata.tags.len() && lower_of(#[trigger] p.metadata.tags[k]) == tagl
}

/// Whether any of `tags`, lowercased, reads `tl`.
fn tag_match(tags: &Vec<String>, tl: &str) -> (r: bool)
    ensures
        r == (exists|k: int|
            0 <= k < tags@.len() && lower_of((#[trigger] tags@[k])@) == tl@),
{
    let n = tags.len();
    let mut i: usize = 0;
    while i < n
        invariant
            n == tags@.len(),
            i <= n,
            forall|k: int| 0 <= k < i ==> lower_of((#[trigger] tags@[k])@) != tl@,
        decreases n - i,
    {
        let low = lowercase(tags[i].as_str());
        if str_eq(low.as_str(), tl) {
            proof {
                assert(lower_of((tags@[i as int])@) == tl@);
            }
            return true;
        }
        i = i + 1;
    }
    false
}

/// Keeps the non-draft posts, in order, each copied out.
fn filter_published(v: &Vec<Post>) -> (r: Vec<Post>)
    ensures
        r@.map_values(|p: Post| p@) == v@.map_values(|p: Post| p@).filter(
            |p: PostView| !p.metadata.draft,
        ),
{
    let ghost pred = |p: PostView| !p.metadata.draft;
    let n = v.len();
    let mut r: Vec<Post> = Vec::new();
    let mut i: usize = 0;
    proof {
        reveal(Seq::filter);
        assert(v@.map_values(|p: Post| p@).subrange(0, 0) =~= Seq::<PostView>::empty());
    }
    while i < n
        invariant
            n == v@.len(),
            i <= n,
            r@.map_values(|p: Post| p@) == v@.map_values(|p: Post| p@).subrange(
                0,
                i as int,
            ).filter(pred),
            pred == (|p: PostView| !p.metadata.draft),
        decreases n - i,
    {
        let ghost vm = v@.map_values(|p: Post| p@);
        proof {
            reveal(Seq::filter);
            assert(vm.subrange(0, i + 1).drop_last() =~= vm.subrange(0, i as int));
            assert(vm.subrange(0, i + 1).last() == vm[i as int]);
        }
        if !v[i].metadata.draft {
            let ghost rm = r@.map_values(|p: Post| p@);
            r.push(v[i].clone());
            proof {
                assert(r@.map_values(|p: Post| p@) =~= rm.push(vm[i as int]));
            }
        }
        i = i + 1;
    }
    proof {
        assert(v@.map_values(|p: Post| p@).subrange(0, n as int) =~= v@.map_values(|p: Post| p@));
    }
    r
}

/// Keeps the non-draft posts carrying the lowercased tag `tl`, in order,
/// each copied out.
fn filter_tagged(v: &Vec<Post>, tl: &str) -> (r: Vec<Post>)
    ensures
        r@.map_values(|p: Post| p@) == v@.map_values(|p: Post| p@).filter(
            |p: PostView| !p.metadata.draft && has_tag_ci(p, tl@),
        ),
{
    let ghost pred = |p: PostView| !p.metadata.draft && has_tag_ci(p, tl@);
    let n = v.len();
    let mut r: Vec<Post> = Vec::new();
    let mut i: usize = 0;
    proof {
        reveal(Seq::filter);
        assert(v@.map_values(|p: Post| p@).subrange(0, 0) =~= Seq::<PostView>::empty());
    }
    while i < n
        invariant
            n == v@.len(),
            i <= n,
            r@.map_values(|p: Post| p@) == v@.map_values(|p: Post| p@).subrange(
                0,
                i as int,
            ).filter(pred),
            pred == (|p: PostView| !p.metadata.draft && has_tag_ci(p, tl@)),
        decreases n - i,
    {
        let ghost vm = v@.map_values(|p: Post| p@);
        proof {
            reveal(Seq::filter);
            assert(vm.subrange(0, i + 1).drop_last() =~= vm.subrange(0, i as int));
            assert(vm.subrange(0, i + 1).last() == vm[i as int]);
        }
        let keep = if v[i].metadata.draft {
            false
        } else {
            tag_match(&v[i].metadata.tags, tl)
        };
        proof {
            let pv = vm[i as int];
            assert(pv == v@[i as int]@);
            assert(pv.metadata.tags =~= v@[i as int].metadata.tags@.map_values(|t: String| t@));
            if keep {
                let k = choose|k: int|
                    0 <= k < v@[i as int].metadata.tags@.len() && lower_of(
                        (v@[i as int].metadata.tags@[k])@,
                    ) == tl@;
                assert(pv.metadata.tags[k] == (v@[i as int].metadata.tags@[k])@);
                assert(has_tag_ci(pv, tl@));
            } else {
                if !pv.metadata.draft {
                    assert forall|k: int| 0 <= k < pv.metadata.tags.len() implies lower_of(
                        #[trigger] pv.metadata.tags[k],
                    ) != tl@ by {
                        assert(pv.metadata.tags[k] == (v@[i as int].metadata.tags@[k])@);
                    }
                }
            }
            assert(keep == pred(pv));
        }
        if keep {
            let ghost rm = r@.map_values(|p: Post| p@);
            r.push(v[i].clone());
            proof {
                assert(r@.map_values(|p: Post| p@) =~= rm.push(vm[i as int]));
            }
        }
        i = i + 1;
    }
    proof {
        assert(v@.map_values(|p: Post| p@).subrange(0, n as int) =~= v@.map_values(|p: Post| p@));
    }
    r
}

/// Keeps the featured projects, in order, each copied out.
fn filter_featured(v: &Vec<Project>) -> (r: Vec<Project>)
    ensures
        r@.map_values(|p: Project| p@) == v@.map_values(|p: Project| p@).filter(
            |p: ProjectView| p.metadata.featured,
        ),
{
    let ghost pred = |p: ProjectView| p.metadata.featured;
    let n = v.len();
    let mut r: Vec<Project> = Vec::new();
    let mut i: usize = 0;
    proof {
        reveal(Seq::filter);
        assert(v@.map_values(|p: Project| p@).subrange(0, 0) =~= Seq::<ProjectView>::empty());
    }
    while i < n
        invariant
            n == v@.len(),
            i <= n,
            r@.map_values(|p: Project| p@) == v@.map_values(|p: Project| p@).subrange(
                0,
                i as int,
            ).filter(pred),
            pred == (|p: ProjectView| p.metadata.featured),
        decreases n - i,
    {
        let ghost vm = v@.map_values(|p: Project| p@);
        proof {
            reveal(Seq::filter);
            assert(vm.subrange(0, i + 1).drop_last() =~= vm.subrange(0, i as int));
            assert(vm.subrange(0, i + 1).last() == vm[i as int]);
        }
        if v[i].metadata.featured {
            let ghost rm = r@.map_values(|p: Project| p@);
            r.push(v[i].clone());
            proof {
                assert(r@.map_values(|p: Project| p@) =~= rm.push(vm[i as int]));
            }
        }
        i = i + 1;
    }
    proof {
        assert(v@.map_values(|p: Project| p@).subrange(0, n as int) =~= v@.map_values(
            |p: Project| p@,
        ));
    }
    r
}

/// Copies every project out of `v`, in order.
fn clone_projects(v: &Vec<Project>) -> (r: Vec<Project>)
    ensures
        r@.map_values(|p: Project| p@) == v@.map_values(|p: Project| p@),
{
    let n = v.len();
    let mut r: Vec<Project> = Vec::new();
    let mut i: usize = 0;
    while i < n
        invariant
            n == v@.len(),
            i <= n,
            r@.map_values(|p: Project| p@) == v@.map_values(|p: Project| p@).subrange(0, i as int),
        decreases n - i,
    {
        let ghost rm = r@.map_values(|p: Project| p@);
        let ghost vm = v@.map_values(|p: Project| p@);
        r.push(v[i].clone());
        proof {
            assert(r@.map_values(|p: Project| p@) =~= rm.push(vm[i as int]));
            assert(rm.push(vm[i as int]) =~= vm.subrange(0, i + 1));
        }
        i = i + 1;
    }
    proof {
        assert(v@.map_values(|p: Project| p@).subrange(0, n as int) =~= v@.map_values(
            |p: Project| p@,
        ));
    }
    r
}

/// The index of the first post in `v` whose slug reads `slug`.
fn find_post_slug(v: &Vec<Post>, slug: &str) -> (r: Option<usize>)
    ensures
        match r {
            Option::Some(i) => i < v@.len() && v@[i as int]@.metadata.slug == slug@ && forall|
                j: int,
            |
                0 <= j < i ==> (#[trigger] v@[j]@).metadata.slug != slug@,
            Option::None => forall|j: int|
                0 <= j < v@.len() ==> (#[trigger] v@[j]@).metadata.slug != slug@,
        },
{
    let n = v.len();
    let mut i: usize = 0;
    while i < n
        invariant
            n == v@.len(),
            i <= n,
            forall|j: int| 0 <= j < i ==> (#[trigger] v@[j]@).metadata.slug != slug@,
        decreases n - i,
    {
        if str_eq(v[i].metadata.slug.as_str(), slug) {
            return Option::Some(i);
        }
        i = i + 1;
    }
    Option::None
}

/// The index of the first project in `v` whose slug reads `slug`.
fn find_project_slug(v: &Vec<Project>, slug: &str) -> (r: Option<usize>)
    ensures
        match r {
            Option::Some(i) => i < v@.len() && v@[i as int]@.metadata.slug == slug@ && forall|
                j: int,
            |
                0 <= j < i ==> (#[trigger] v@[j]@).metadata.slug != slug@,
            Option::None => forall|j: int|
                0 <= j < v@.len() ==> (#[trigger] v@[j]@).metadata.slug != slug@,
        },
{
    let n = v.len();
    let mut i: usize = 0;
    while i < n
        invariant
            n == v@.len(),
            i <= n,
            forall|j: int| 0 <= j < i ==> (#[trigger] v@[j]@).metadata.slug != slug@,
        decreases n - i,
    {
        if str_eq(v[i].metadata.slug.as_str(), slug) {
            return Option::Some(i);
        }
        i = i + 1;
    }
    Option::None
}

} // verus!
