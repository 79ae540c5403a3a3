use vstd::prelude::*;

verus! {

/// A blog post.
///
/// The slug is the post's identity: it is the file name stem of the backing
/// file and is never stored inside the file itself. The title lives in the
/// file's front-matter header; the content is the body text below the header.
#[derive(Clone, PartialEq, Debug)]
pub struct PostData {
    pub title: String,
    pub slug: String,
    pub content: String,
}

/// The mathematical value of a [`PostData`]: its three fields as character
/// sequences.
pub ghost struct PostView {
    pub title: Seq<char>,
    pub slug: Seq<char>,
    pub content: Seq<char>,
}

impl View for PostData {
    type V = PostView;

    open spec fn view(&self) -> PostView {
        PostView { title: self.title@, slug: self.slug@, content: self.content@ }
    }
}

impl PostData {
    /// A copy of the post whose contract says the fields carry over; the
    /// derived `Clone` says nothing usable in proofs.
    pub fn duplicate(&self) -> (r: PostData)
        ensures
            r@ == self@,
    {
        PostData {
            title: self.title.clone(),
            slug: self.slug.clone(),
            content: self.content.clone(),
        }
    }
}

/// The capability set a storage backend offers to the query layer: the five
/// post operations, for callers that depend on the capabilities and never on
/// a concrete backend. Implementations live with whoever owns the actual
/// storage; the file-backed one sits in the embedding program, where the
/// filesystem calls are.
pub trait Backend {
    /// Create
    fn create_post(&self, postdata: &PostData) -> Option<PostData>;

    /// Read
    fn read_post(&self, slug: &str) -> Option<PostData>;

    /// List
    fn list_posts(&self) -> Vec<PostData>;

    /// Update
    fn update_post(&self, postdata: &PostData) -> Option<PostData>;

    /// Delete
    fn delete_post(&self, postdata: &PostData) -> Option<PostData>;
}

} // verus!
