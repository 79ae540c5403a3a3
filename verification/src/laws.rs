use vstd::prelude::*;

use crate::error::StoreError;
use crate::frontmatter::encoded_post;
use crate::frontmatter::lemma_parse_encoded;
use crate::frontmatter::parse_front_matter;
use crate::model::StoreModel;
use crate::model::file_name_of;
use crate::model::find_file;
use crate::model::lemma_find_file_at;
use crate::model::lemma_find_file_characterizes;
use crate::model::lemma_lookup_after_put;
use crate::model::lemma_lookup_after_remove;
use crate::model::lemma_stems_after_put;
use crate::model::lookup_file;
use crate::model::put_file;
use crate::model::spec_create;
use crate::model::spec_delete;
use crate::model::spec_list;
use crate::model::spec_read;
use crate::model::spec_update;
use crate::model::stems_of;
use crate::model::wf_model;
use crate::post::PostView;
use crate::text::last_dot_before;
use crate::text::lemma_trim_idempotent;
use crate::text::stem_of;
use crate::text::trim_spec;

verus! {

/// The slug of a non-empty slug's backing file name is the slug itself:
/// appending `.md` and taking the stem round-trips.
pub proof fn lemma_stem_of_file_name(slug: Seq<char>)
    requires
        slug.len() > 0,
    ensures
        stem_of(file_name_of(slug)) == slug,
{
    let name = file_name_of(slug);
    let l = slug.len() as int;
    assert(name.len() == l + 3);
    assert(name[l] == '.' && name[l + 1] == 'm' && name[l + 2] == 'd');
    assert(last_dot_before(name, l + 3) == last_dot_before(name, l + 2));
    assert(last_dot_before(name, l + 2) == last_dot_before(name, l + 1));
    assert(last_dot_before(name, l + 1) == Some(l));
    assert(name.subrange(0, l) =~= slug);
}

/// Round trip: creating a post in an existing directory and reading its
/// slug back yields the post, with the content trimmed of surrounding
/// whitespace. The title must hold no newline — the header stores it
/// verbatim on a single line.
pub proof fn lemma_create_read_round_trip(m: StoreModel, p: PostView)
    requires
        m.present,
        forall|i: int| 0 <= i < p.title.len() ==> p.title[i] != '\n',
    ensures
        spec_read(spec_create(m, p).0, p.slug) == Ok::<PostView, StoreError>(
            (PostView { title: p.title, slug: p.slug, content: trim_spec(p.content) }),
        ),
{
    let name = file_name_of(p.slug);
    let enc = encoded_post(p.title, trim_spec(p.content));
    lemma_lookup_after_put(m.files, name, enc);
    lemma_parse_encoded(p.title, trim_spec(p.content));
    lemma_trim_idempotent(p.content);
}

/// Updating twice with the same payload leaves the same store, and
/// returns the same result, as updating once.
pub proof fn lemma_update_idempotent(m: StoreModel, p: PostView)
    ensures
        spec_update(spec_update(m, p).0, p).0 == spec_update(m, p).0,
        spec_update(spec_update(m, p).0, p).1 == spec_update(m, p).1,
{
    let name = file_name_of(p.slug);
    if m.present && find_file(m.files, name) is Some {
        let enc = encoded_post(p.title, trim_spec(p.content));
        let m1 = put_file(m.files, name, enc);
        lemma_find_file_characterizes(m.files, name);
        let i = find_file(m.files, name)->Some_0;
        lemma_find_file_at(m1, name, i);
        assert(put_file(m1, name, enc) =~= m1);
    }
}

/// Delete is final: once a slug's delete has succeeded, reading that slug
/// fails with `StoreIOError` — the backing file is gone, not malformed.
pub proof fn lemma_delete_then_read_fails(m: StoreModel, slug: Seq<char>)
    requires
        wf_model(m),
        spec_delete(m, slug).1 == Ok::<(), StoreError>(()),
    ensures
        spec_read(spec_delete(m, slug).0, slug) == Err::<PostView, StoreError>(
            StoreError::StoreIOError,
        ),
{
    lemma_lookup_after_remove(m.files, file_name_of(slug));
}

/// A stored file whose text holds no parseable header block reads as
/// `MissingHeader`, never as `StoreIOError`: the data-format failure is
/// kept apart from the I/O failure.
pub proof fn lemma_read_missing_header(m: StoreModel, slug: Seq<char>, contents: Seq<char>)
    requires
        m.present,
        lookup_file(m.files, file_name_of(slug)) == Some(contents),
        parse_front_matter(contents) == None::<(Seq<char>, Seq<char>)>,
    ensures
        spec_read(m, slug) == Err::<PostView, StoreError>(StoreError::MissingHeader),
{
}

/// Over an absent directory, listing fails with `StoreIOError`; building
/// such a store never fails in the first place, as the constructors'
/// contracts say.
pub proof fn lemma_absent_directory_list(m: StoreModel)
    requires
        !m.present,
    ensures
        spec_list(m) == Err::<Seq<Seq<char>>, StoreError>(StoreError::StoreIOError),
{
}

/// The slugs of a sequence of posts.
pub open spec fn slugs_of(posts: Seq<PostView>) -> Seq<Seq<char>> {
    posts.map_values(|p: PostView| p.slug)
}

/// The store after creating each post in turn.
pub open spec fn create_all(m: StoreModel, posts: Seq<PostView>) -> StoreModel
    decreases posts.len(),
{
    if posts.len() == 0 {
        m
    } else {
        create_all(spec_create(m, posts[0]).0, posts.drop_first())
    }
}

proof fn lemma_create_all_stems(m: StoreModel, posts: Seq<PostView>)
    requires
        m.present,
        forall|k: int| 0 <= k < posts.len() ==> posts[k].slug.len() > 0,
    ensures
        create_all(m, posts).present,
        stems_of(create_all(m, posts).files).to_set() == stems_of(m.files).to_set().union(
            slugs_of(posts).to_set(),
        ),
    decreases posts.len(),
{
    if posts.len() == 0 {
        assert(slugs_of(posts).to_set() =~= Set::<Seq<char>>::empty());
        assert(stems_of(m.files).to_set().union(slugs_of(posts).to_set())
            =~= stems_of(m.files).to_set());
    } else {
        let p = posts[0];
        let rest = posts.drop_first();
        let m1 = spec_create(m, p).0;
        lemma_stems_after_put(
            m.files,
            file_name_of(p.slug),
            encoded_post(p.title, trim_spec(p.content)),
        );
        lemma_stem_of_file_name(p.slug);
        lemma_create_all_stems(m1, rest);
        assert(slugs_of(rest) =~= slugs_of(posts).drop_first());
        assert forall|s: Seq<char>|
            slugs_of(posts).to_set().contains(s) implies stems_of(m.files).to_set().insert(
            p.slug,
        ).union(slugs_of(rest).to_set()).contains(s) by {
            let k = choose|k: int| 0 <= k < slugs_of(posts).len() && slugs_of(posts)[k] == s;
            if k > 0 {
                assert(slugs_of(rest)[k - 1] == s);
                assert(slugs_of(rest).contains(s));
            }
        }
        assert forall|s: Seq<char>|
            stems_of(m.files).to_set().insert(p.slug).union(
                slugs_of(rest).to_set(),
            ).contains(s) implies stems_of(m.files).to_set().union(
            slugs_of(posts).to_set(),
        ).contains(s) by {
            if s == p.slug {
                assert(slugs_of(posts)[0] == s);
                assert(slugs_of(posts).contains(s));
            } else if slugs_of(rest).to_set().contains(s) {
                let k = choose|k: int| 0 <= k < slugs_of(rest).len() && slugs_of(rest)[k] == s;
                assert(slugs_of(posts)[k + 1] == s);
                assert(slugs_of(posts).contains(s));
            }
        }
        assert(stems_of(create_all(m, posts).files).to_set() =~= stems_of(m.files).to_set().union(
            slugs_of(posts).to_set(),
        ));
    }
}

/// List completeness: after creating posts with pairwise distinct,
/// non-empty slugs in an existing directory holding nothing, listing
/// succeeds and returns exactly those slugs — as a set; the order is the
/// directory's enumeration order and is not asserted.
pub proof fn lemma_list_after_creates(m: StoreModel, posts: Seq<PostView>)
    requires
        m.present,
        m.files.len() == 0,
        forall|k: int| 0 <= k < posts.len() ==> posts[k].slug.len() > 0,
        forall|i: int, j: int| 0 <= i < j < posts.len() ==> posts[i].slug != posts[j].slug,
    ensures
        spec_list(create_all(m, posts)) == Ok::<Seq<Seq<char>>, StoreError>(
            stems_of(create_all(m, posts).files),
        ),
        stems_of(create_all(m, posts).files).to_set() == slugs_of(posts).to_set(),
{
    lemma_create_all_stems(m, posts);
    assert(stems_of(m.files).to_set() =~= Set::<Seq<char>>::empty());
    assert(stems_of(m.files).to_set().union(slugs_of(posts).to_set()) =~= slugs_of(
        posts,
    ).to_set());
}

} // verus!
