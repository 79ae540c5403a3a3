use vstd::prelude::*;

use crate::error::StoreError;
use crate::frontmatter::encoded_post;
use crate::frontmatter::spec_parse_post;
use crate::post::PostView;
use crate::text::stem_of;
use crate::text::trim_spec;

verus! {

/// One file of the post directory: its name and its text.
pub ghost struct FileEntry {
    pub name: Seq<char>,
    pub contents: Seq<char>,
}

/// The state a store works against: whether the post directory exists, and
/// the files in it, in enumeration order.
pub ghost struct StoreModel {
    pub present: bool,
    pub files: Seq<FileEntry>,
}

/// A well-formed directory holds each file name once, and an absent
/// directory holds nothing.
pub open spec fn wf_model(m: StoreModel) -> bool {
    &&& forall|i: int, j: int|
        0 <= i < j < m.files.len() ==> m.files[i].name != m.files[j].name
    &&& !m.present ==> m.files.len() == 0
}

/// The position of the first file named `name`, if any.
pub open spec fn find_file(files: Seq<FileEntry>, name: Seq<char>) -> Option<int>
    decreases files.len(),
{
    if files.len() == 0 {
        None
    } else if files[0].name == name {
        Some(0int)
    } else {
        match find_file(files.drop_first(), name) {
            None => None,
            Some(i) => Some(i + 1),
        }
    }
}

/// The contents of the first file named `name`, if any.
pub open spec fn lookup_file(files: Seq<FileEntry>, name: Seq<char>) -> Option<Seq<char>> {
    match find_file(files, name) {
        None => None,
        Some(i) => Some(files[i].contents),
    }
}

/// The directory after writing `contents` under `name`: an existing file is
/// overwritten in place, a new one is appended.
pub open spec fn put_file(files: Seq<FileEntry>, name: Seq<char>, contents: Seq<char>) -> Seq<
    FileEntry,
> {
    match find_file(files, name) {
        None => files.push(FileEntry { name, contents }),
        Some(i) => files.update(i, FileEntry { name, contents }),
    }
}

/// The directory after removing the file named `name`, if it was there.
pub open spec fn remove_file(files: Seq<FileEntry>, name: Seq<char>) -> Seq<FileEntry> {
    match find_file(files, name) {
        None => files,
        Some(i) => files.remove(i),
    }
}

/// The file name stems of the directory, in order.
pub open spec fn stems_of(files: Seq<FileEntry>) -> Seq<Seq<char>> {
    files.map_values(|e: FileEntry| stem_of(e.name))
}

/// The file name backing a slug: the slug with the fixed `.md` suffix.
pub open spec fn file_name_of(slug: Seq<char>) -> Seq<char> {
    slug + seq!['.', 'm', 'd']
}

/// What creating a post does to the store and returns: with the directory
/// absent, an I/O failure and no change; otherwise the encoded post is
/// written under the slug's file name — silently overwriting any file
/// already there — and the input is echoed back.
pub open spec fn spec_create(m: StoreModel, p: PostView) -> (StoreModel, Result<
    PostView,
    StoreError,
>) {
    if !m.present {
        (m, Err(StoreError::StoreIOError))
    } else {
        (
            StoreModel {
                present: true,
                files: put_file(
                    m.files,
                    file_name_of(p.slug),
                    encoded_post(p.title, trim_spec(p.content)),
                ),
            },
            Ok(p),
        )
    }
}

/// What reading a slug returns: an I/O failure when the directory or the
/// file is absent; otherwise the file decoded as [`spec_parse_post`] says.
pub open spec fn spec_read(m: StoreModel, slug: Seq<char>) -> Result<PostView, StoreError> {
    if !m.present {
        Err(StoreError::StoreIOError)
    } else {
        match lookup_file(m.files, file_name_of(slug)) {
            None => Err(StoreError::StoreIOError),
            Some(contents) => spec_parse_post(slug, contents),
        }
    }
}

/// What listing returns: an I/O failure when the directory is absent,
/// otherwise the file name stems in enumeration order.
pub open spec fn spec_list(m: StoreModel) -> Result<Seq<Seq<char>>, StoreError> {
    if !m.present {
        Err(StoreError::StoreIOError)
    } else {
        Ok(stems_of(m.files))
    }
}

/// What updating does: as [`spec_create`], except that the backing file must
/// already exist — updating never creates it.
pub open spec fn spec_update(m: StoreModel, p: PostView) -> (StoreModel, Result<
    PostView,
    StoreError,
>) {
    if !m.present || find_file(m.files, file_name_of(p.slug)) is None {
        (m, Err(StoreError::StoreIOError))
    } else {
        spec_create(m, p)
    }
}

/// What deleting a slug does: the backing file is removed; a missing
/// directory or file is an I/O failure and no change.
pub open spec fn spec_delete(m: StoreModel, slug: Seq<char>) -> (StoreModel, Result<
    (),
    StoreError,
>) {
    if !m.present || find_file(m.files, file_name_of(slug)) is None {
        (m, Err(StoreError::StoreIOError))
    } else {
        (
            StoreModel { present: true, files: remove_file(m.files, file_name_of(slug)) },
            Ok(()),
        )
    }
}

/// [`find_file`] finds exactly the first match: a position it returns names
/// the file and nothing earlier does; `None` means no file matches.
pub proof fn lemma_find_file_characterizes(files: Seq<FileEntry>, name: Seq<char>)
    ensures
        match find_file(files, name) {
            None => forall|j: int| 0 <= j < files.len() ==> files[j].name != name,
            Some(i) => 0 <= i < files.len() && files[i].name == name && forall|j: int|
                0 <= j < i ==> files[j].name != name,
        },
    decreases files.len(),
{
    if files.len() > 0 && files[0].name != name {
        let rest = files.drop_first();
        lemma_find_file_characterizes(rest, name);
        assert(forall|j: int| 0 <= j < rest.len() ==> rest[j] == files[j + 1]);
        match find_file(rest, name) {
            None => {
                assert forall|j: int| 0 <= j < files.len() implies files[j].name != name by {
                    if j > 0 {
                        assert(files[j] == rest[j - 1]);
                    }
                }
            },
            Some(i) => {
                assert(files[i + 1] == rest[i]);
                assert forall|j: int| 0 <= j < i + 1 implies files[j].name != name by {
                    if j > 0 {
                        assert(files[j] == rest[j - 1]);
                    }
                }
            },
        }
    }
}

/// The first match is wherever a match stands with none before it.
pub proof fn lemma_find_file_at(files: Seq<FileEntry>, name: Seq<char>, i: int)
    requires
        0 <= i < files.len(),
        files[i].name == name,
        forall|j: int| 0 <= j < i ==> files[j].name != name,
    ensures
        find_file(files, name) == Some(i),
{
    lemma_find_file_characterizes(files, name);
    if find_file(files, name) is None {
        assert(files[i].name != name);
    } else {
        let k = find_file(files, name)->Some_0;
        if k < i {
            assert(files[k].name != name);
        }
        if i < k {
            assert(files[i].name != name);
        }
    }
}

/// With no match anywhere, [`find_file`] finds nothing.
pub proof fn lemma_find_file_absent(files: Seq<FileEntry>, name: Seq<char>)
    requires
        forall|j: int| 0 <= j < files.len() ==> files[j].name != name,
    ensures
        find_file(files, name) == None::<int>,
{
    lemma_find_file_characterizes(files, name);
    if find_file(files, name) is Some {
        let i = find_file(files, name)->Some_0;
        assert(files[i].name != name);
    }
}

/// Reading a name right after writing it yields what was written.
pub proof fn lemma_lookup_after_put(files: Seq<FileEntry>, name: Seq<char>, contents: Seq<char>)
    ensures
        lookup_file(put_file(files, name, contents), name) == Some(contents),
{
    lemma_find_file_characterizes(files, name);
    let out = put_file(files, name, contents);
    match find_file(files, name) {
        None => {
            lemma_find_file_at(out, name, files.len() as int);
        },
        Some(i) => {
            lemma_find_file_at(out, name, i);
        },
    }
}

/// Writing keeps the directory well-formed: no name is duplicated.
pub proof fn lemma_put_keeps_distinct(files: Seq<FileEntry>, name: Seq<char>, contents: Seq<char>)
    requires
        forall|i: int, j: int| 0 <= i < j < files.len() ==> files[i].name != files[j].name,
    ensures
        forall|i: int, j: int|
            0 <= i < j < put_file(files, name, contents).len() ==> put_file(
                files,
                name,
                contents,
            )[i].name != put_file(files, name, contents)[j].name,
{
    lemma_find_file_characterizes(files, name);
}

/// After removing a name from a well-formed directory, no file carries it.
pub proof fn lemma_lookup_after_remove(files: Seq<FileEntry>, name: Seq<char>)
    requires
        forall|i: int, j: int| 0 <= i < j < files.len() ==> files[i].name != files[j].name,
    ensures
        lookup_file(remove_file(files, name), name) == None::<Seq<char>>,
        forall|i: int, j: int|
            0 <= i < j < remove_file(files, name).len() ==> remove_file(files, name)[i].name
                != remove_file(files, name)[j].name,
{
    lemma_find_file_characterizes(files, name);
    let out = remove_file(files, name);
    match find_file(files, name) {
        None => {
            lemma_find_file_absent(out, name);
        },
        Some(i) => {
            assert(forall|j: int| 0 <= j < out.len() ==> out[j].name != name);
            lemma_find_file_absent(out, name);
        },
    }
}

/// The stems after a write are the old stems together with the stem of the
/// written name.
pub proof fn lemma_stems_after_put(files: Seq<FileEntry>, name: Seq<char>, contents: Seq<char>)
    ensures
        stems_of(put_file(files, name, contents)).to_set() == stems_of(files).to_set().insert(
            stem_of(name),
        ),
{
    lemma_find_file_characterizes(files, name);
    let out = put_file(files, name, contents);
    let lhs = stems_of(out).to_set();
    let rhs = stems_of(files).to_set().insert(stem_of(name));
    assert forall|s: Seq<char>| lhs.contains(s) implies rhs.contains(s) by {
        let k = choose|k: int| 0 <= k < stems_of(out).len() && stems_of(out)[k] == s;
        if out[k].name == name {
        } else {
            assert(out[k] == files[k]);
            assert(stems_of(files)[k] == s);
        }
    }
    assert forall|s: Seq<char>| rhs.contains(s) implies lhs.contains(s) by {
        match find_file(files, name) {
            None => {
                if s == stem_of(name) {
                    assert(stems_of(out)[files.len() as int] == s);
                } else {
                    let k = choose|k: int|
                        0 <= k < stems_of(files).len() && stems_of(files)[k] == s;
                    assert(stems_of(out)[k] == s);
                }
            },
            Some(i) => {
                if s == stem_of(name) {
                    assert(stems_of(out)[i] == s);
                } else {
                    let k = choose|k: int|
                        0 <= k < stems_of(files).len() && stems_of(files)[k] == s;
                    assert(k != i);
                    assert(stems_of(out)[k] == s);
                }
            },
        }
    }
    assert(lhs =~= rhs);
}

} // verus!
