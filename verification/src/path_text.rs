//! The textual form of hierarchical paths: absolute, `/`-separated, with no
//! trailing slash except the root `/` itself.

use vstd::prelude::*;

verus! {

/// The root path, as a character sequence.
pub open spec fn root_path() -> Seq<char> {
    seq!['/']
}

/// A well-formed path: starts with `/`, has no empty segment, and does not
/// end in `/` unless it is the root.
pub open spec fn valid_path(s: Seq<char>) -> bool {
    &&& s.len() >= 1
    &&& s[0] == '/'
    &&& (s.len() == 1 || s[s.len() - 1] != '/')
    &&& forall|i: int| 1 <= i < s.len() ==> !((#[trigger] s[i]) == '/' && s[i - 1] == '/')
}

/// The position of the last `/` strictly before `j`, or `-1` when none.
pub open spec fn last_slash_before(s: Seq<char>, j: int) -> int
    decreases j,
{
    if j <= 0 {
        -1
    } else if s[j - 1] == '/' {
        j - 1
    } else {
        last_slash_before(s, j - 1)
    }
}

/// The position of the last `/` in `s`, or `-1` when none.
pub open spec fn last_slash(s: Seq<char>) -> int {
    last_slash_before(s, s.len() as int)
}

/// The parent of a path: everything before the last `/`, or the root when
/// the last `/` is the leading one.
pub open spec fn spec_parent(s: Seq<char>) -> Seq<char> {
    if last_slash(s) <= 0 {
        root_path()
    } else {
        s.take(last_slash(s))
    }
}

/// Whether `q` lies strictly below `p` in the tree.
pub open spec fn is_strict_descendant(q: Seq<char>, p: Seq<char>) -> bool {
    if p == root_path() {
        q.len() > 1 && q[0] == '/'
    } else {
        q.len() > p.len() && q.take(p.len() as int) == p && q[p.len() as int] == '/'
    }
}

/// Below `j`, the last slash is a real slash with none after it.
pub proof fn lemma_last_slash_before_props(s: Seq<char>, j: int)
    requires
        1 <= j <= s.len(),
        s[0] == '/',
    ensures
        0 <= last_slash_before(s, j) < j,
        s[last_slash_before(s, j)] == '/',
        forall|m: int| last_slash_before(s, j) < m < j ==> s[m] != '/',
    decreases j,
{
    if j == 1 {
    } else if s[j - 1] == '/' {
    } else {
        lemma_last_slash_before_props(s, j - 1);
    }
}

/// In a path, the last slash is a real slash with none after it.
pub proof fn lemma_last_slash_props(s: Seq<char>)
    requires
        s.len() >= 1,
        s[0] == '/',
    ensures
        0 <= last_slash(s) < s.len(),
        s[last_slash(s)] == '/',
        forall|m: int| last_slash(s) < m < s.len() ==> s[m] != '/',
{
    lemma_last_slash_before_props(s, s.len() as int);
}

/// Where a rename of `oldp` to `np` sends a path: the row itself moves to
/// `np`, everything below it keeps its suffix, everything else stays.
pub open spec fn rename_one(p: Seq<char>, oldp: Seq<char>, np: Seq<char>) -> Seq<char> {
    if oldp == np {
        p
    } else if p == oldp {
        np
    } else if is_strict_descendant(p, oldp) {
        np + p.skip(oldp.len() as int)
    } else {
        p
    }
}

/// In a concatenation whose right part starts with `/`, the last slash sits
/// in the right part.
pub proof fn lemma_last_slash_concat(stem: Seq<char>, rest: Seq<char>, j: int)
    requires
        rest.len() >= 1,
        rest[0] == '/',
        1 <= j <= rest.len(),
    ensures
        last_slash_before(stem + rest, stem.len() + j) == stem.len() + last_slash_before(rest, j),
    decreases j,
{
    assert((stem + rest)[stem.len() + j - 1] == rest[j - 1]);
    if j == 1 {
    } else if rest[j - 1] == '/' {
    } else {
        lemma_last_slash_concat(stem, rest, j - 1);
    }
}

/// The parent of `stem + rest` is `stem` extended by the parent part of
/// `rest`, or `stem` itself when `rest` is a single segment.
pub proof fn lemma_parent_concat(stem: Seq<char>, rest: Seq<char>)
    requires
        stem.len() >= 2,
        stem[0] == '/',
        rest.len() >= 1,
        rest[0] == '/',
    ensures
        last_slash(rest) == 0 ==> spec_parent(stem + rest) == stem,
        last_slash(rest) > 0 ==> spec_parent(stem + rest) == stem + rest.take(last_slash(rest)),
        last_slash(rest) >= 0,
{
    lemma_last_slash_before_props(rest, rest.len() as int);
    lemma_last_slash_concat(stem, rest, rest.len() as int);
    let ls = last_slash(rest);
    assert(last_slash(stem + rest) == stem.len() + ls);
    if ls == 0 {
        assert((stem + rest).take(stem.len() as int) =~= stem);
    } else {
        assert((stem + rest).take(stem.len() + ls) =~= stem + rest.take(ls));
    }
}

/// Attaching the suffix of a path below `oldp` onto a new valid stem gives
/// a valid path again.
pub proof fn lemma_concat_path_valid(np: Seq<char>, q: Seq<char>, oldp: Seq<char>)
    requires
        valid_path(np),
        np.len() >= 2,
        valid_path(q),
        valid_path(oldp),
        oldp.len() >= 2,
        is_strict_descendant(q, oldp),
    ensures
        valid_path(np + q.skip(oldp.len() as int)),
{
    let l = oldp.len() as int;
    let rest = q.skip(l);
    let r = np + rest;
    assert(q[l] == '/');
    assert(rest[0] == q[l]);
    assert(rest.len() >= 2) by {
        if rest.len() == 1 {
            assert(q[q.len() - 1] == q[l] == '/');
        }
    }
    assert(r[0] == np[0]);
    assert(r[r.len() - 1] == rest[rest.len() - 1]);
    assert(rest[rest.len() - 1] == q[q.len() - 1]);
    assert(q.len() >= 2 && q[q.len() - 1] != '/');
    assert forall|i: int| 1 <= i < r.len() implies !((#[trigger] r[i]) == '/' && r[i - 1] == '/') by {
        if i < np.len() {
            assert(r[i] == np[i] && r[i - 1] == np[i - 1]);
        } else if i == np.len() {
            assert(r[i] == rest[0]);
            assert(r[i - 1] == np[np.len() - 1]);
            assert(np[np.len() - 1] != '/');
        } else {
            assert(r[i] == q[i - np.len() + l]);
            assert(r[i - 1] == q[i - 1 - np.len() + l]);
        }
    }
}

/// Descent is transitive.
pub proof fn lemma_descendant_trans(a: Seq<char>, b: Seq<char>, c: Seq<char>)
    requires
        is_strict_descendant(a, b),
        is_strict_descendant(b, c),
        a[0] == '/',
    ensures
        is_strict_descendant(a, c),
{
    if c == root_path() {
    } else {
        assert(a.take(c.len() as int) =~= b.take(b.len() as int).take(c.len() as int)) by {
            assert(a.take(b.len() as int) == b);
        }
        assert(b.take(b.len() as int) =~= b);
        assert(a.take(c.len() as int) =~= b.take(c.len() as int));
        assert(a[c.len() as int] == b[c.len() as int]);
    }
}

/// Compares two texts character by character.
pub fn str_eq(a: &str, b: &str) -> (r: bool)
    ensures
        r == (a@ == b@),
{
    a.to_owned() == b.to_owned()
}

/// Checks that a text is a well-formed path.
pub fn is_valid_path(path: &str) -> (r: bool)
    ensures
        r == valid_path(path@),
{
    let n = path.unicode_len();
    if n == 0 {
        return false;
    }
    if path.get_char(0) != '/' {
        return false;
    }
    if n > 1 && path.get_char(n - 1) == '/' {
        return false;
    }
    let mut i: usize = 1;
    while i < n
        invariant
            1 <= i <= n,
            n == path@.len(),
            forall|m: int| 1 <= m < i ==> !((#[trigger] path@[m]) == '/' && path@[m - 1] == '/'),
        decreases n - i,
    {
        if path.get_char(i) == '/' && path.get_char(i - 1) == '/' {
            return false;
        }
        i = i + 1;
    }
    true
}

/// The parent of a non-root path.
pub fn parent_of(path: &str) -> (r: String)
    requires
        valid_path(path@),
        path@ != root_path(),
    ensures
        r@ == spec_parent(path@),
        valid_path(path@),
{
    let n = path.unicode_len();
    proof {
        assert(path@[0] == '/');
    }
    let mut j: usize = n;
    while j > 1 && path.get_char(j - 1) != '/'
        invariant
            1 <= j <= n,
            n == path@.len(),
            last_slash(path@) == last_slash_before(path@, j as int),
        decreases j,
    {
        j = j - 1;
    }
    let ls = if j > 1 {
        j - 1
    } else {
        proof {
            assert(last_slash_before(path@, 1) == 0);
        }
        0
    };
    proof {
        assert(last_slash(path@) == ls);
    }
    if ls == 0 {
        let r = String::from_str("/");
        proof {
            reveal_strlit("/");
            assert(r@ =~= root_path());
        }
        r
    } else {
        let r = path.substring_char(0, ls).to_owned();
        r
    }
}

/// Whether `q` lies strictly below `p`.
pub fn is_descendant(q: &str, p: &str) -> (r: bool)
    ensures
        r == is_strict_descendant(q@, p@),
{
    let pn = p.unicode_len();
    let qn = q.unicode_len();
    if pn == 1 && p.get_char(0) == '/' {
        proof {
            assert(p@ =~= root_path());
        }
        return qn > 1 && q.get_char(0) == '/';
    }
    proof {
        assert(p@ != root_path());
    }
    if qn <= pn {
        return false;
    }
    if q.get_char(pn) != '/' {
        return false;
    }
    let mut i: usize = 0;
    while i < pn
        invariant
            0 <= i <= pn,
            pn == p@.len(),
            qn == q@.len(),
            qn > pn,
            forall|m: int| 0 <= m < i ==> (#[trigger] q@[m]) == p@[m],
        decreases pn - i,
    {
        if q.get_char(i) != p.get_char(i) {
            proof {
                assert(q@.take(pn as int)[i as int] != p@[i as int]);
            }
            return false;
        }
        i = i + 1;
    }
    proof {
        assert(q@.take(pn as int) =~= p@);
    }
    true
}

} // verus!
