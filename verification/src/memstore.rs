use vstd::prelude::*;
use vstd::string::StringExecFns;

use crate::error::StoreError;
use crate::frontmatter::encode_post;
use crate::frontmatter::parse_post;
use crate::frontmatter::post_result_view;
use crate::model::FileEntry;
use crate::model::StoreModel;
use crate::model::file_name_of;
use crate::model::find_file;
use crate::model::lemma_find_file_absent;
use crate::model::lemma_find_file_at;
use crate::model::lemma_lookup_after_remove;
use crate::model::lemma_put_keeps_distinct;
use crate::model::put_file;
use crate::model::spec_create;
use crate::model::spec_delete;
use crate::model::spec_list;
use crate::model::spec_read;
use crate::model::spec_update;
use crate::model::stems_of;
use crate::model::wf_model;
use crate::post::PostData;
use crate::text::file_stem;
use crate::text::str_eq;
use crate::text::trim;

verus! {

/// The directory entries a vector of (name, contents) pairs stands for.
pub open spec fn entries_of(files: Seq<(String, String)>) -> Seq<FileEntry> {
    files.map_values(|p: (String, String)| FileEntry { name: p.0@, contents: p.1@ })
}

/// The view of a fallible listing, by the strings' character sequences.
pub open spec fn list_result_view(r: Result<Vec<String>, StoreError>) -> Result<
    Seq<Seq<char>>,
    StoreError,
> {
    match r {
        Ok(v) => Ok(v.deep_view()),
        Err(e) => Err(e),
    }
}

/// The file name backing `slug`, per [`file_name_of`].
pub fn slug_file_name(slug: &str) -> (r: String)
    ensures
        r@ == file_name_of(slug@),
{
    let mut name = String::from_str(slug);
    name.append(".md");
    proof {
        reveal_strlit(".md");
        assert(name@ =~= file_name_of(slug@));
    }
    name
}

fn find_entry(files: &Vec<(String, String)>, name: &str) -> (r: Option<usize>)
    ensures
        match r {
            Some(i) => i < files@.len() && find_file(entries_of(files@), name@) == Some(i as int),
            None => find_file(entries_of(files@), name@) == None::<int>,
        },
{
    let n = files.len();
    let mut i: usize = 0;
    while i < n
        invariant
            n == files@.len(),
            0 <= i <= n,
            forall|j: int| 0 <= j < i ==> entries_of(files@)[j].name != name@,
        decreases n - i,
    {
        if str_eq(files[i].0.as_str(), name) {
            proof {
                lemma_find_file_at(entries_of(files@), name@, i as int);
            }
            return Some(i);
        }
        i += 1;
    }
    proof {
        lemma_find_file_absent(entries_of(files@), name@);
    }
    None
}

/// A post store over an in-memory picture of the post directory: the same
/// encoding, slug mapping and operation contract as the file-backed store,
/// with a vector of (file name, file text) pairs standing in for the
/// directory. It serves as the swappable backend for callers that must not
/// touch the filesystem, and as the place where the operation contract is
/// stated and proved once over [`StoreModel`].
pub struct MemDataStore {
    dir_present: bool,
    files: Vec<(String, String)>,
}

impl View for MemDataStore {
    type V = StoreModel;

    closed spec fn view(&self) -> StoreModel {
        StoreModel { present: self.dir_present, files: entries_of(self.files@) }
    }
}

impl MemDataStore {
    /// A well-formed store: no file name occurs twice, and an absent
    /// directory holds no files.
    pub open spec fn wf(&self) -> bool {
        wf_model(self@)
    }

    /// A store over an existing, empty directory.
    pub fn new() -> (r: MemDataStore)
        ensures
            r@ == (StoreModel { present: true, files: Seq::<FileEntry>::empty() }),
            r.wf(),
    {
        let r = MemDataStore { dir_present: true, files: Vec::new() };
        proof {
            assert(entries_of(r.files@) =~= Seq::<FileEntry>::empty());
        }
        r
    }

    /// A store over a directory that does not exist. Construction itself
    /// does not fail; every operation on the result fails with
    /// `StoreIOError` instead.
    pub fn missing() -> (r: MemDataStore)
        ensures
            r@ == (StoreModel { present: false, files: Seq::<FileEntry>::empty() }),
            r.wf(),
    {
        let r = MemDataStore { dir_present: false, files: Vec::new() };
        proof {
            assert(entries_of(r.files@) =~= Seq::<FileEntry>::empty());
        }
        r
    }

    fn store_file(&mut self, name: String, contents: String)
        ensures
            final(self).dir_present == old(self).dir_present,
            entries_of(final(self).files@) == put_file(
                entries_of(old(self).files@),
                name@,
                contents@,
            ),
            final(self)@ == (StoreModel {
                present: old(self)@.present,
                files: put_file(old(self)@.files, name@, contents@),
            }),
    {
        let ghost entries = entries_of(self.files@);
        let ghost entry = FileEntry { name: name@, contents: contents@ };
        match find_entry(&self.files, name.as_str()) {
            Some(i) => {
                self.files[i] = (name, contents);
                proof {
                    assert(entries_of(self.files@) =~= entries.update(i as int, entry));
                }
            },
            None => {
                self.files.push((name, contents));
                proof {
                    assert(entries_of(self.files@) =~= entries.push(entry));
                }
            },
        }
    }

    /// Puts a file with the given name and raw text into the directory,
    /// overwriting a file of that name. This is the pre-existing-file side
    /// door: it stores the text as handed in, headerless or otherwise.
    pub fn write_file(&mut self, name: &str, contents: &str)
        requires
            old(self).wf(),
            old(self)@.present,
        ensures
            final(self)@ == (StoreModel {
                present: true,
                files: put_file(old(self)@.files, name@, contents@),
            }),
            final(self).wf(),
    {
        let n = String::from_str(name);
        let c = String::from_str(contents);
        proof {
            lemma_put_keeps_distinct(entries_of(self.files@), name@, contents@);
        }
        self.store_file(n, c);
    }

    /// Create: writes the post's encoded file, silently overwriting any
    /// file already backing the slug, and echoes the input back.
    pub fn create_post(&mut self, postdata: &PostData) -> (r: Result<PostData, StoreError>)
        requires
            old(self).wf(),
        ensures
            final(self)@ == spec_create(old(self)@, postdata@).0,
            post_result_view(r) == spec_create(old(self)@, postdata@).1,
            final(self).wf(),
    {
        if !self.dir_present {
            return Err(StoreError::StoreIOError);
        }
        let name = slug_file_name(postdata.slug.as_str());
        let trimmed = trim(postdata.content.as_str());
        let markdown = encode_post(postdata.title.as_str(), trimmed.as_str());
        proof {
            lemma_put_keeps_distinct(entries_of(self.files@), name@, markdown@);
        }
        self.store_file(name, markdown);
        Ok(postdata.duplicate())
    }

    /// Read: decodes the file backing `slug`. A missing directory or file
    /// is a `StoreIOError`; a file without a header is a `MissingHeader`.
    pub fn read_post(&self, slug: &str) -> (r: Result<PostData, StoreError>)
        ensures
            post_result_view(r) == spec_read(self@, slug@),
    {
        if !self.dir_present {
            return Err(StoreError::StoreIOError);
        }
        let name = slug_file_name(slug);
        match find_entry(&self.files, name.as_str()) {
            None => Err(StoreError::StoreIOError),
            Some(i) => parse_post(slug, self.files[i].1.as_str()),
        }
    }

    /// List: the file name stems of the directory, in enumeration order.
    pub fn list_posts(&self) -> (r: Result<Vec<String>, StoreError>)
        ensures
            list_result_view(r) == spec_list(self@),
    {
        if !self.dir_present {
            return Err(StoreError::StoreIOError);
        }
        let mut slugs: Vec<String> = Vec::new();
        let n = self.files.len();
        let mut i: usize = 0;
        while i < n
            invariant
                n == self.files@.len(),
                0 <= i <= n,
                slugs@.len() == i,
                forall|j: int|
                    0 <= j < i ==> slugs@[j]@ == stems_of(entries_of(self.files@))[j],
            decreases n - i,
        {
            let stem = file_stem(self.files[i].0.as_str());
            slugs.push(stem);
            i += 1;
        }
        proof {
            assert(slugs.deep_view() =~= stems_of(entries_of(self.files@)));
        }
        Ok(slugs)
    }

    /// Update: rewrites the post's backing file, which must already exist —
    /// updating never creates it — and echoes the input back.
    pub fn update_post(&mut self, postdata: &PostData) -> (r: Result<PostData, StoreError>)
        requires
            old(self).wf(),
        ensures
            final(self)@ == spec_update(old(self)@, postdata@).0,
            post_result_view(r) == spec_update(old(self)@, postdata@).1,
            final(self).wf(),
    {
        if !self.dir_present {
            return Err(StoreError::StoreIOError);
        }
        let name = slug_file_name(postdata.slug.as_str());
        match find_entry(&self.files, name.as_str()) {
            None => Err(StoreError::StoreIOError),
            Some(_) => {
                let trimmed = trim(postdata.content.as_str());
                let markdown = encode_post(postdata.title.as_str(), trimmed.as_str());
                proof {
                    lemma_put_keeps_distinct(entries_of(self.files@), name@, markdown@);
                }
                self.store_file(name, markdown);
                Ok(postdata.duplicate())
            },
        }
    }

    /// Delete: removes the file backing `slug`; a missing directory or file
    /// is a `StoreIOError`.
    pub fn delete_post(&mut self, slug: &str) -> (r: Result<(), StoreError>)
        requires
            old(self).wf(),
        ensures
            final(self)@ == spec_delete(old(self)@, slug@).0,
            r == spec_delete(old(self)@, slug@).1,
            final(self).wf(),
    {
        if !self.dir_present {
            return Err(StoreError::StoreIOError);
        }
        let name = slug_file_name(slug);
        match find_entry(&self.files, name.as_str()) {
            None => Err(StoreError::StoreIOError),
            Some(i) => {
                let ghost entries = entries_of(self.files@);
                self.files.remove(i);
                proof {
                    assert(entries_of(self.files@) =~= entries.remove(i as int));
                    lemma_lookup_after_remove(entries, name@);
                }
                Ok(())
            },
        }
    }
}

} // verus!
