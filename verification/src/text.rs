use vstd::prelude::*;
use vstd::string::StrSliceExecFns;
use vstd::string::StringExecFns;

verus! {

/// Whether `c` counts as whitespace, exactly as `char::is_whitespace`
/// decides it. The Unicode `White_Space` property takes pages to state, so
/// the result only carries this name; it depends on the character alone.
pub uninterp spec fn is_space(c: char) -> bool;

/// Relies on `char::is_whitespace`: the result depends on the character
/// alone, and this crate gives that result the name [`is_space`].
pub assume_specification[ char::is_whitespace ](c: char) -> (r: bool)
    ensures
        r == is_space(c),
;

/// `s` with its leading whitespace removed.
pub open spec fn trim_front(s: Seq<char>) -> Seq<char>
    decreases s.len(),
{
    if s.len() == 0 {
        s
    } else if is_space(s[0]) {
        trim_front(s.drop_first())
    } else {
        s
    }
}

/// `s` with its trailing whitespace removed.
pub open spec fn trim_back(s: Seq<char>) -> Seq<char>
    decreases s.len(),
{
    if s.len() == 0 {
        s
    } else if is_space(s.last()) {
        trim_back(s.drop_last())
    } else {
        s
    }
}

/// `s` with leading and trailing whitespace removed: what `str::trim`
/// returns.
pub open spec fn trim_spec(s: Seq<char>) -> Seq<char> {
    trim_back(trim_front(s))
}

proof fn lemma_trim_front_suffix(s: Seq<char>, i: int)
    requires
        0 <= i <= s.len(),
        forall|j: int| 0 <= j < i ==> is_space(s[j]),
    ensures
        trim_front(s) == trim_front(s.subrange(i, s.len() as int)),
    decreases i,
{
    if i > 0 {
        assert(trim_front(s) == trim_front(s.drop_first()));
        assert(s.drop_first() =~= s.subrange(1, s.len() as int));
        let t = s.subrange(1, s.len() as int);
        assert(forall|j: int| 0 <= j < i - 1 ==> is_space(t[j]));
        lemma_trim_front_suffix(t, i - 1);
        assert(t.subrange(i - 1, t.len() as int) =~= s.subrange(i, s.len() as int));
    } else {
        assert(s.subrange(0, s.len() as int) =~= s);
    }
}

proof fn lemma_trim_back_shrink(s: Seq<char>, j: int)
    requires
        0 <= j <= s.len(),
        forall|k: int| j <= k < s.len() ==> is_space(s[k]),
    ensures
        trim_back(s) == trim_back(s.subrange(0, j)),
    decreases s.len() - j,
{
    if j < s.len() {
        assert(is_space(s.last()));
        assert(trim_back(s) == trim_back(s.drop_last()));
        assert(s.drop_last() =~= s.subrange(0, s.len() - 1));
        let t = s.subrange(0, s.len() - 1);
        assert(forall|k: int| j <= k < t.len() ==> is_space(t[k]));
        lemma_trim_back_shrink(t, j);
        assert(t.subrange(0, j) =~= s.subrange(0, j));
    } else {
        assert(s.subrange(0, s.len() as int) =~= s);
    }
}

/// What remains after trimming the front is a suffix whose first character,
/// if any, is not whitespace.
pub proof fn lemma_trim_front_no_leading(s: Seq<char>)
    ensures
        trim_front(s).len() > 0 ==> !is_space(trim_front(s)[0]),
    decreases s.len(),
{
    if s.len() > 0 && is_space(s[0]) {
        lemma_trim_front_no_leading(s.drop_first());
    }
}

/// What remains after trimming the back is a prefix whose last character,
/// if any, is not whitespace.
pub proof fn lemma_trim_back_no_trailing(s: Seq<char>)
    ensures
        trim_back(s).len() > 0 ==> !is_space(trim_back(s).last()),
    decreases s.len(),
{
    if s.len() > 0 && is_space(s.last()) {
        lemma_trim_back_no_trailing(s.drop_last());
    }
}

/// Trimming the back only ever drops characters from the end: the result is
/// a prefix of the input.
pub proof fn lemma_trim_back_prefix(s: Seq<char>)
    ensures
        trim_back(s).len() <= s.len(),
        trim_back(s) == s.subrange(0, trim_back(s).len() as int),
    decreases s.len(),
{
    if s.len() == 0 {
        assert(trim_back(s) =~= s.subrange(0, trim_back(s).len() as int));
    } else if is_space(s.last()) {
        lemma_trim_back_prefix(s.drop_last());
        assert(s.drop_last() =~= s.subrange(0, s.len() - 1));
        assert(s.subrange(0, s.len() - 1).subrange(0, trim_back(s).len() as int) =~= s.subrange(
            0,
            trim_back(s).len() as int,
        ));
    } else {
        assert(trim_back(s) =~= s.subrange(0, trim_back(s).len() as int));
    }
}

/// Trimming an already trimmed sequence changes nothing.
pub proof fn lemma_trim_idempotent(s: Seq<char>)
    ensures
        trim_spec(trim_spec(s)) == trim_spec(s),
{
    let f = trim_front(s);
    let t = trim_back(f);
    lemma_trim_front_no_leading(s);
    lemma_trim_back_no_trailing(f);
    lemma_trim_back_prefix(f);
    if t.len() == 0 {
        assert(trim_front(t) == t);
        assert(trim_back(t) == t);
    } else {
        assert(t[0] == f[0]);
        assert(!is_space(t[0]));
        assert(trim_front(t) == t);
        assert(trim_back(t) == t);
    }
}

/// `s` with leading and trailing whitespace removed, as `str::trim` would
/// return it.
pub fn trim(s: &str) -> (r: String)
    ensures
        r@ == trim_spec(s@),
{
    let n = s.unicode_len();
    let mut i: usize = 0;
    while i < n && s.get_char(i).is_whitespace()
        invariant
            n == s@.len(),
            0 <= i <= n,
            forall|j: int| 0 <= j < i ==> is_space(s@[j]),
        decreases n - i,
    {
        i += 1;
    }
    proof {
        lemma_trim_front_suffix(s@, i as int);
        if i < n {
            assert(s@.subrange(i as int, n as int)[0] == s@[i as int]);
        }
        assert(trim_front(s@) == s@.subrange(i as int, n as int));
    }
    let mut j: usize = n;
    while j > i && s.get_char(j - 1).is_whitespace()
        invariant
            n == s@.len(),
            0 <= i <= j <= n,
            trim_front(s@) == s@.subrange(i as int, n as int),
            forall|k: int| j <= k < n ==> is_space(s@[k]),
        decreases j,
    {
        j -= 1;
    }
    proof {
        let f = s@.subrange(i as int, n as int);
        assert(forall|k: int| j - i <= k < f.len() ==> is_space(f[k]));
        lemma_trim_back_shrink(f, j - i);
        assert(f.subrange(0, j - i) =~= s@.subrange(i as int, j as int));
        if j > i {
            assert(s@.subrange(i as int, j as int).last() == s@[j - 1]);
        }
        assert(trim_back(s@.subrange(i as int, j as int)) == s@.subrange(i as int, j as int));
    }
    String::from_str(s.substring_char(i, j))
}

/// Whether two strings hold the same characters.
pub fn str_eq(a: &str, b: &str) -> (r: bool)
    ensures
        r == (a@ == b@),
{
    let na = a.unicode_len();
    let nb = b.unicode_len();
    if na != nb {
        return false;
    }
    let mut i: usize = 0;
    while i < na
        invariant
            na == a@.len(),
            na == b@.len(),
            0 <= i <= na,
            forall|j: int| 0 <= j < i ==> a@[j] == b@[j],
        decreases na - i,
    {
        if a.get_char(i) != b.get_char(i) {
            return false;
        }
        i += 1;
    }
    proof {
        assert(a@ =~= b@);
    }
    true
}

/// The index of the last `.` in `name` at a position of one or more, if any:
/// a dot in the leading position starts a hidden file name and does not
/// separate an extension.
pub open spec fn last_dot_before(s: Seq<char>, i: int) -> Option<int>
    decreases i,
{
    if i <= 1 {
        None
    } else if s[i - 1] == '.' {
        Some(i - 1)
    } else {
        last_dot_before(s, i - 1)
    }
}

/// The stem of a file name: everything before the final `.`, except that a
/// name without an embedded dot, or a hidden-file name whose only dot leads,
/// is its own stem. This matches how the backing files' names are turned
/// back into slugs.
pub open spec fn stem_of(name: Seq<char>) -> Seq<char> {
    match last_dot_before(name, name.len() as int) {
        None => name,
        Some(j) => name.subrange(0, j),
    }
}

/// The file name stem of `name`, as [`stem_of`] describes it.
pub fn file_stem(name: &str) -> (r: String)
    ensures
        r@ == stem_of(name@),
{
    let n = name.unicode_len();
    let mut j: usize = n;
    while j > 1 && name.get_char(j - 1) != '.'
        invariant
            n == name@.len(),
            0 <= j <= n,
            last_dot_before(name@, n as int) == last_dot_before(name@, j as int),
        decreases j,
    {
        j -= 1;
    }
    if j > 1 {
        String::from_str(name.substring_char(0, j - 1))
    } else {
        String::from_str(name)
    }
}

} // verus!
