use vstd::prelude::*;
use vstd::string::StringExecFns;

use crate::frontmatter::encode_post;
use crate::frontmatter::encoded_post;
use crate::post::PostData;
use crate::text::trim;
use crate::text::trim_spec;

verus! {

/// The path of the file backing a slug: the posts directory, a separator,
/// the slug, and the fixed `.md` suffix. A slug holding separators or
/// traversal sequences passes through unchanged; slugs are assumed to come
/// from a trusted caller.
pub open spec fn path_of(dir: Seq<char>, slug: Seq<char>) -> Seq<char> {
    dir + seq!['/'] + slug + seq!['.', 'm', 'd']
}

/// A post store backed by one directory of the filesystem. It owns the
/// mapping from slugs to file paths and the encoding of posts into file
/// text; the embedding program performs the actual filesystem calls on the
/// paths and text this type hands it. Construction never touches the
/// filesystem, so a store over a directory that does not exist is built
/// without failing — its operations fail instead.
pub struct FileDataStore {
    pub posts_dir_path: String,
}

impl FileDataStore {
    /// Constructor
    pub fn new(posts_dir: &str) -> (r: FileDataStore)
        ensures
            r.posts_dir_path@ == posts_dir@,
    {
        FileDataStore { posts_dir_path: String::from_str(posts_dir) }
    }

    /// The path of the file backing `slug`, per [`path_of`].
    pub fn slug_to_path(&self, slug: &str) -> (r: String)
        ensures
            r@ == path_of(self.posts_dir_path@, slug@),
    {
        let mut path = self.posts_dir_path.clone();
        path.append("/");
        path.append(slug);
        path.append(".md");
        proof {
            reveal_strlit("/");
            reveal_strlit(".md");
            assert(path@ =~= path_of(self.posts_dir_path@, slug@));
        }
        path
    }
}

/// The filesystem work a write needs: the path of the post's backing file
/// and the text to store there — the front-matter header followed by the
/// trimmed body.
pub fn build_write_data(filedatastore: &FileDataStore, postdata: &PostData) -> (r: (String, String))
    ensures
        r.0@ == path_of(filedatastore.posts_dir_path@, postdata.slug@),
        r.1@ == encoded_post(postdata.title@, trim_spec(postdata.content@)),
{
    let path = filedatastore.slug_to_path(postdata.slug.as_str());
    let trimmed = trim(postdata.content.as_str());
    let markdown = encode_post(postdata.title.as_str(), trimmed.as_str());
    (path, markdown)
}

} // verus!
