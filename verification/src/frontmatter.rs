use vstd::prelude::*;
use vstd::string::StrSliceExecFns;
use vstd::string::StringExecFns;

use crate::error::StoreError;
use crate::post::PostData;
use crate::post::PostView;
use crate::text::trim;
use crate::text::trim_spec;

verus! {

/// The boundary line of the front-matter header: three dashes and a newline.
pub open spec fn delim() -> Seq<char> {
    seq!['-', '-', '-', '\n']
}

/// The key that opens the title line of the header.
pub open spec fn title_key() -> Seq<char> {
    seq!['t', 'i', 't', 'l', 'e', ':', ' ']
}

/// A whole post file: boundary, title line, boundary, body. The title is
/// written verbatim, so it must not contain a newline of its own for the
/// file to decode back to it.
pub open spec fn encoded_post(title: Seq<char>, body: Seq<char>) -> Seq<char> {
    delim() + title_key() + title + seq!['\n'] + delim() + body
}

/// Whether a boundary line starts at position `i` of `t`, with `i` at the
/// start of a line.
pub open spec fn delim_at(t: Seq<char>, i: int) -> bool {
    &&& 0 < i
    &&& i + 4 <= t.len()
    &&& t[i - 1] == '\n'
    &&& t.subrange(i, i + 4) == delim()
}

/// The first position at or after `i` where a boundary line starts, if any.
pub open spec fn find_delim_from(t: Seq<char>, i: int) -> Option<int>
    decreases t.len() - i,
{
    if i + 4 > t.len() {
        None
    } else if delim_at(t, i) {
        Some(i)
    } else {
        find_delim_from(t, i + 1)
    }
}

/// The first newline at or after position `i` of `s`, if any.
pub open spec fn first_newline_from(s: Seq<char>, i: int) -> Option<int>
    decreases s.len() - i,
{
    if i >= s.len() {
        None
    } else if s[i] == '\n' {
        Some(i)
    } else {
        first_newline_from(s, i + 1)
    }
}

/// The title held by the header region `h`: the header must open with the
/// title line, whose value runs to the end of that line. Further header
/// lines are ignored.
pub open spec fn parse_title_line(h: Seq<char>) -> Option<Seq<char>> {
    if h.len() < 7 || h.subrange(0, 7) != title_key() {
        None
    } else {
        match first_newline_from(h, 7) {
            None => None,
            Some(k) => Some(h.subrange(7, k)),
        }
    }
}

/// Splits a post file into its title and its raw body: the file must open
/// with a boundary line, the header runs to the next boundary line, and the
/// body is everything after it. `None` means the file has no parseable
/// header.
pub open spec fn parse_front_matter(t: Seq<char>) -> Option<(Seq<char>, Seq<char>)> {
    if t.len() < 4 || t.subrange(0, 4) != delim() {
        None
    } else {
        match find_delim_from(t, 4) {
            None => None,
            Some(e) => match parse_title_line(t.subrange(4, e)) {
                None => None,
                Some(title) => Some((title, t.subrange(e + 4, t.len() as int))),
            },
        }
    }
}

/// What decoding a stored file yields for the post with the given slug:
/// the header's title, the slug itself, and the trimmed body; or the error
/// naming what went wrong. A file with no parseable header is a
/// `MissingHeader`, never a `StoreIOError`.
pub open spec fn spec_parse_post(slug: Seq<char>, contents: Seq<char>) -> Result<
    PostView,
    StoreError,
> {
    match parse_front_matter(contents) {
        None => Err(StoreError::MissingHeader),
        Some((title, body)) => Ok(
            PostView { title: title, slug: slug, content: trim_spec(body) },
        ),
    }
}

/// The result of a fallible post operation, by the values' views.
pub open spec fn post_result_view(r: Result<PostData, StoreError>) -> Result<
    PostView,
    StoreError,
> {
    match r {
        Ok(p) => Ok(p@),
        Err(e) => Err(e),
    }
}

proof fn lemma_find_delim_from_none(t: Seq<char>, i: int)
    requires
        forall|j: int| i <= j ==> !delim_at(t, j),
    ensures
        find_delim_from(t, i) == None::<int>,
    decreases t.len() - i,
{
    if i + 4 <= t.len() {
        lemma_find_delim_from_none(t, i + 1);
    }
}

proof fn lemma_find_delim_from_some(t: Seq<char>, i: int, e: int)
    requires
        i <= e,
        delim_at(t, e),
        forall|j: int| i <= j < e ==> !delim_at(t, j),
    ensures
        find_delim_from(t, i) == Some(e),
    decreases e - i,
{
    if i < e {
        lemma_find_delim_from_some(t, i + 1, e);
    }
}

proof fn lemma_first_newline_from_some(s: Seq<char>, i: int, k: int)
    requires
        i <= k < s.len(),
        s[k] == '\n',
        forall|j: int| i <= j < k ==> s[j] != '\n',
    ensures
        first_newline_from(s, i) == Some(k),
    decreases k - i,
{
    if i < k {
        lemma_first_newline_from_some(s, i + 1, k);
    }
}

/// Decoding inverts encoding: a file built from a title without newlines
/// and any body splits back into exactly that title and that body.
pub proof fn lemma_parse_encoded(title: Seq<char>, body: Seq<char>)
    requires
        forall|i: int| 0 <= i < title.len() ==> title[i] != '\n',
    ensures
        parse_front_matter(encoded_post(title, body)) == Some((title, body)),
{
    let t = encoded_post(title, body);
    let n = title.len() as int;
    let e = 12 + n;
    assert(t.len() == 16 + n + body.len());
    assert(t.subrange(0, 4) =~= delim());
    // the closing boundary stands at e, at the start of a line
    assert(t[e - 1] == '\n');
    assert(t.subrange(e, e + 4) =~= delim());
    assert(delim_at(t, e));
    // and nowhere earlier: the only line starts before it are 4 and e itself
    assert forall|j: int| 4 <= j < e implies !delim_at(t, j) by {
        if j == 4 {
            if delim_at(t, j) {
                assert(t.subrange(4, 8)[0] == 't');
                assert(delim()[0] == '-');
            }
        } else if delim_at(t, j) {
            // t[j - 1] would be a newline inside the key or the title
            if j - 1 < 11 {
                assert(t[j - 1] == title_key()[j - 5]);
            } else {
                assert(t[j - 1] == title[j - 12]);
            }
        }
    }
    lemma_find_delim_from_some(t, 4, e);
    let h = t.subrange(4, e);
    assert(h.len() == 8 + n);
    assert(h.subrange(0, 7) =~= title_key());
    assert(h[7 + n] == '\n');
    assert(forall|j: int| 7 <= j < 7 + n ==> h[j] == title[j - 7] && h[j] != '\n');
    lemma_first_newline_from_some(h, 7, 7 + n);
    assert(h.subrange(7, 7 + n) =~= title);
    assert(t.subrange(e + 4, t.len() as int) =~= body);
}

/// The stored text of a post file with the given title and body.
pub fn encode_post(title: &str, body: &str) -> (r: String)
    ensures
        r@ == encoded_post(title@, body@),
{
    let mut s = String::from_str("---\ntitle: ");
    s.append(title);
    s.append("\n---\n");
    s.append(body);
    proof {
        reveal_strlit("---\ntitle: ");
        reveal_strlit("\n---\n");
        assert(s@ =~= encoded_post(title@, body@));
    }
    s
}

/// Decodes the contents of the post file backing `slug`: the title from the
/// header, the slug as given, and the body trimmed of surrounding
/// whitespace. Fails with `MissingHeader` when the contents hold no
/// parseable header block.
pub fn parse_post(slug: &str, contents: &str) -> (r: Result<PostData, StoreError>)
    ensures
        post_result_view(r) == spec_parse_post(slug@, contents@),
{
    let ghost t = contents@;
    let n = contents.unicode_len();
    if n < 4 {
        return Err(StoreError::MissingHeader);
    }
    if !(contents.get_char(0) == '-' && contents.get_char(1) == '-' && contents.get_char(2) == '-'
        && contents.get_char(3) == '\n') {
        proof {
            assert(t.subrange(0, 4)[0] == t[0]);
            assert(t.subrange(0, 4)[1] == t[1]);
            assert(t.subrange(0, 4)[2] == t[2]);
            assert(t.subrange(0, 4)[3] == t[3]);
            assert(t.subrange(0, 4) != delim());
        }
        return Err(StoreError::MissingHeader);
    }
    proof {
        assert(t.subrange(0, 4) =~= delim());
    }
    // look for the boundary line that closes the header
    let mut i: usize = 4;
    let mut found: bool = false;
    while !found && i <= n - 4
        invariant
            t == contents@,
            n == t.len(),
            4 <= n,
            4 <= i <= n,
            forall|j: int| 4 <= j < i ==> !delim_at(t, j),
            found ==> i + 4 <= n && delim_at(t, i as int),
        decreases n - i + (if found { 0int } else { 1int }),
    {
        if contents.get_char(i - 1) == '\n' && contents.get_char(i) == '-' && contents.get_char(
            i + 1,
        ) == '-' && contents.get_char(i + 2) == '-' && contents.get_char(i + 3) == '\n' {
            found = true;
            proof {
                assert(t.subrange(i as int, i as int + 4) =~= delim());
            }
        } else {
            proof {
                let j = i as int;
                if delim_at(t, j) {
                    assert(t.subrange(j, j + 4)[0] == t[j]);
                    assert(t.subrange(j, j + 4)[1] == t[j + 1]);
                    assert(t.subrange(j, j + 4)[2] == t[j + 2]);
                    assert(t.subrange(j, j + 4)[3] == t[j + 3]);
                }
            }
            i += 1;
        }
    }
    if !found {
        proof {
            assert(forall|j: int| 4 <= j ==> !delim_at(t, j));
            lemma_find_delim_from_none(t, 4);
        }
        return Err(StoreError::MissingHeader);
    }
    let e = i;
    proof {
        lemma_find_delim_from_some(t, 4, e as int);
    }
    let ghost h = t.subrange(4, e as int);
    // the header must open with the title line
    if e < 11 {
        return Err(StoreError::MissingHeader);
    }
    if !(contents.get_char(4) == 't' && contents.get_char(5) == 'i' && contents.get_char(6) == 't'
        && contents.get_char(7) == 'l' && contents.get_char(8) == 'e' && contents.get_char(9)
        == ':' && contents.get_char(10) == ' ') {
        proof {
            assert(forall|k: int| 0 <= k < 7 ==> h.subrange(0, 7)[k] == t[4 + k]);
            assert(h.subrange(0, 7) != title_key());
        }
        return Err(StoreError::MissingHeader);
    }
    proof {
        assert(forall|k: int| 0 <= k < 7 ==> h.subrange(0, 7)[k] == t[4 + k]);
        assert(h.subrange(0, 7) =~= title_key());
    }
    // the title runs to the end of its line
    let mut k: usize = 11;
    while k < e && contents.get_char(k) != '\n'
        invariant
            t == contents@,
            n == t.len(),
            11 <= k <= e,
            e + 4 <= n,
            delim_at(t, e as int),
            h == t.subrange(4, e as int),
            forall|j: int| 11 <= j < k ==> t[j] != '\n',
        decreases e - k,
    {
        k += 1;
    }
    if k == e {
        proof {
            // the character before the closing boundary is a newline the
            // scan would have stopped at
            assert(t[e - 1] == '\n');
            assert(e >= 12);
            assert(false);
        }
        return Err(StoreError::MissingHeader);
    }
    proof {
        assert(forall|j: int| 7 <= j < k - 4 ==> h[j] == t[j + 4] && h[j] != '\n');
        assert(h[k - 4] == t[k as int]);
        lemma_first_newline_from_some(h, 7, k - 4);
    }
    let title = String::from_str(contents.substring_char(11, k));
    let body = contents.substring_char(e + 4, n);
    let content = trim(body);
    proof {
        assert(title@ =~= h.subrange(7, k - 4));
        assert(body@ =~= t.subrange(e + 4, t.len() as int));
    }
    Ok(PostData { title, slug: String::from_str(slug), content })
}

} // verus!
