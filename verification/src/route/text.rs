//! Character classes and string scanning shared by the pattern parser and the
//! path matcher: URL-safe character runs, splitting a path on `/`, and plain
//! string equality over character views.
use vstd::prelude::*;

verus! {

pub open spec fn is_urlsafe_char(c: char) -> bool {
    ('a' <= c && c <= 'z') || ('A' <= c && c <= 'Z') || ('0' <= c && c <= '9') || c == '-' || c
        == '_'
}

pub open spec fn is_alpha_char(c: char) -> bool {
    ('a' <= c && c <= 'z') || ('A' <= c && c <= 'Z')
}

/// Length of the longest prefix of `s` made of URL-safe characters.
pub open spec fn urlsafe_len(s: Seq<char>) -> nat
    decreases s.len(),
{
    if s.len() == 0 || !is_urlsafe_char(s[0]) {
        0
    } else {
        1 + urlsafe_len(s.skip(1))
    }
}

/// Length of the longest prefix of `s` that contains no `/`.
pub open spec fn upto_slash(s: Seq<char>) -> nat
    decreases s.len(),
{
    if s.len() == 0 || s[0] == '/' {
        0
    } else {
        1 + upto_slash(s.skip(1))
    }
}

/// The components of `s`, split on `/`. Splitting the empty sequence yields a
/// single empty component, as `str::split` does.
pub open spec fn split_slash(s: Seq<char>) -> Seq<Seq<char>>
    decreases s.len(),
{
    let k = upto_slash(s);
    if k >= s.len() {
        seq![s]
    } else {
        seq![s.take(k as int)] + split_slash(s.skip(k as int + 1))
    }
}

/// A path with at most one leading `/` removed.
pub open spec fn strip_lead(p: Seq<char>) -> Seq<char> {
    if p.len() > 0 && p[0] == '/' {
        p.skip(1)
    } else {
        p
    }
}

proof fn lemma_urlsafe_len_is(s: Seq<char>, k: int)
    requires
        0 <= k <= s.len(),
        forall|i: int| 0 <= i < k ==> is_urlsafe_char(#[trigger] s[i]),
        k == s.len() || !is_urlsafe_char(s[k]),
    ensures
        urlsafe_len(s) == k,
    decreases k,
{
    if k == 0 {
    } else {
        lemma_urlsafe_len_is(s.skip(1), k - 1);
    }
}

pub(crate) proof fn lemma_upto_slash_is(s: Seq<char>, k: int)
    requires
        0 <= k <= s.len(),
        forall|i: int| 0 <= i < k ==> #[trigger] s[i] != '/',
        k == s.len() || s[k] == '/',
    ensures
        upto_slash(s) == k,
    decreases k,
{
    if k == 0 {
    } else {
        lemma_upto_slash_is(s.skip(1), k - 1);
    }
}

/// The longest URL-safe run in `s` starting at character index `from`.
pub(crate) fn urlsafe_run(s: &str, from: usize) -> (k: usize)
    requires
        from <= s@.len(),
    ensures
        from + k <= s@.len(),
        k == urlsafe_len(s@.skip(from as int)),
{
    let n = s.unicode_len();
    let mut i: usize = from;
    while i < n
        invariant
            from <= i <= n,
            n == s@.len(),
            forall|j: int| from <= j < i ==> is_urlsafe_char(#[trigger] s@[j]),
        decreases n - i,
    {
        let c = s.get_char(i);
        if !urlsafe_char_exec(c) {
            proof {
                lemma_urlsafe_len_is(s@.skip(from as int), i - from);
            }
            return i - from;
        }
        i += 1;
    }
    proof {
        lemma_urlsafe_len_is(s@.skip(from as int), n - from);
    }
    n - from
}

/// The longest `/`-free run in `s` starting at character index `from`.
pub(crate) fn slash_free_run(s: &str, from: usize) -> (k: usize)
    requires
        from <= s@.len(),
    ensures
        from + k <= s@.len(),
        k == upto_slash(s@.skip(from as int)),
        from + k == s@.len() || s@[from + k] == '/',
{
    let n = s.unicode_len();
    let mut i: usize = from;
    while i < n
        invariant
            from <= i <= n,
            n == s@.len(),
            forall|j: int| from <= j < i ==> #[trigger] s@[j] != '/',
        decreases n - i,
    {
        let c = s.get_char(i);
        if c == '/' {
            proof {
                lemma_upto_slash_is(s@.skip(from as int), i - from);
            }
            return i - from;
        }
        i += 1;
    }
    proof {
        lemma_upto_slash_is(s@.skip(from as int), n - from);
    }
    n - from
}

pub(crate) fn urlsafe_char_exec(c: char) -> (r: bool)
    ensures
        r == is_urlsafe_char(c),
{
    ('a' <= c && c <= 'z') || ('A' <= c && c <= 'Z') || ('0' <= c && c <= '9') || c == '-' || c
        == '_'
}

pub(crate) fn alpha_char_exec(c: char) -> (r: bool)
    ensures
        r == is_alpha_char(c),
{
    ('a' <= c && c <= 'z') || ('A' <= c && c <= 'Z')
}

/// Character-wise string equality, stated over the views.
pub(crate) fn str_eq(a: &str, b: &str) -> (r: bool)
    ensures
        r == (a@ == b@),
{
    let n = a.unicode_len();
    let m = b.unicode_len();
    if n != m {
        return false;
    }
    let mut i: usize = 0;
    while i < n
        invariant
            0 <= i <= n,
            n == a@.len(),
            n == b@.len(),
            forall|j: int| 0 <= j < i ==> a@[j] == b@[j],
        decreases n - i,
    {
        if a.get_char(i) != b.get_char(i) {
            return false;
        }
        i += 1;
    }
    proof {
        assert(a@ =~= b@);
    }
    true
}

/// Splits `path` on `/` after removing at most one leading `/`, as the
/// matcher sees a concrete request path.
pub(crate) fn split_components(path: &str) -> (r: Vec<String>)
    ensures
        r@.len() == split_slash(strip_lead(path@)).len(),
        forall|i: int|
            0 <= i < r@.len() ==> #[trigger] r@[i]@ == split_slash(strip_lead(path@))[i],
{
    let n = path.unicode_len();
    let start: usize = if n > 0 && path.get_char(0) == '/' {
        1
    } else {
        0
    };
    let ghost whole = strip_lead(path@);
    proof {
        assert(whole =~= path@.skip(start as int));
    }
    let mut r: Vec<String> = Vec::new();
    let mut pos: usize = start;
    proof {
        assert(r@.map_values(|c: String| c@) + split_slash(whole) =~= split_slash(whole));
    }
    loop
        invariant
            start <= pos <= n,
            n == path@.len(),
            whole == strip_lead(path@),
            split_slash(whole) =~= r@.map_values(|c: String| c@) + split_slash(
                path@.skip(pos as int),
            ),
        decreases n - pos,
    {
        let k = slash_free_run(path, pos);
        let comp = path.substring_char(pos, pos + k).to_owned();
        proof {
            assert(path@.subrange(pos as int, pos as int + k as int) =~= path@.skip(
                pos as int,
            ).take(k as int));
        }
        let ghost old_r = r@;
        r.push(comp);
        proof {
            assert(r@.map_values(|c: String| c@) =~= old_r.map_values(|c: String| c@).push(
                path@.skip(pos as int).take(k as int),
            ));
        }
        if pos + k == n {
            proof {
                assert(upto_slash(path@.skip(pos as int)) == path@.skip(pos as int).len());
                assert(split_slash(path@.skip(pos as int)) =~= seq![path@.skip(pos as int)]);
                assert(path@.skip(pos as int).take(k as int) =~= path@.skip(pos as int));
                assert(split_slash(whole) =~= r@.map_values(|c: String| c@));
            }
            return r;
        }
        proof {
            assert(path@.skip(pos as int).skip(k as int + 1) =~= path@.skip(pos + k + 1));
            assert(split_slash(path@.skip(pos as int)) =~= seq![
                path@.skip(pos as int).take(k as int),
            ] + split_slash(path@.skip(pos + k + 1)));
            assert(split_slash(whole) =~= r@.map_values(|c: String| c@) + split_slash(
                path@.skip(pos + k + 1),
            ));
        }
        pos = pos + k + 1;
    }
}

} // verus!
