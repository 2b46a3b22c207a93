//! A small debugging helper: the name of a value's type, read as the
//! first whitespace-delimited token of its debug form.

use vstd::prelude::*;

verus! {

/// Whether `c` separates tokens of a debug form.
pub open spec fn is_token_sep(c: char) -> bool {
    c == ' ' || c == '\t' || c == '\n' || c == '\r'
}

/// The first whitespace-delimited token of `s`: what remains after
/// leading separators up to the next separator.  Empty when `s` holds
/// separators alone.
pub open spec fn first_token(s: Seq<char>) -> Seq<char>
    decreases s.len(),
{
    if s.len() == 0 {
        Seq::empty()
    } else if is_token_sep(s[0]) {
        first_token(s.subrange(1, s.len() as int))
    } else {
        token_prefix(s)
    }
}

/// The longest separator-free prefix of `s`.
pub open spec fn token_prefix(s: Seq<char>) -> Seq<char>
    decreases s.len(),
{
    if s.len() == 0 {
        Seq::empty()
    } else if is_token_sep(s[0]) {
        Seq::empty()
    } else {
        seq![s[0]] + token_prefix(s.subrange(1, s.len() as int))
    }
}

proof fn lemma_first_token_skip(s: Seq<char>, i: int)
    requires
        0 <= i <= s.len(),
        forall|m: int| 0 <= m < i ==> is_token_sep(#[trigger] s[m]),
    ensures
        first_token(s) == first_token(s.subrange(i, s.len() as int)),
    decreases i,
{
    if i == 0 {
        assert(s.subrange(0, s.len() as int) =~= s);
    } else {
        let t = s.subrange(1, s.len() as int);
        assert(is_token_sep(s[0]));
        assert(first_token(s) == first_token(t));
        assert(forall|m: int| 0 <= m < i - 1 ==> is_token_sep(#[trigger] t[m]));
        lemma_first_token_skip(t, i - 1);
        assert(t.subrange(i - 1, t.len() as int) =~= s.subrange(i, s.len() as int));
    }
}

proof fn lemma_token_prefix_exact(s: Seq<char>, k: int)
    requires
        0 <= k <= s.len(),
        forall|m: int| 0 <= m < k ==> !is_token_sep(#[trigger] s[m]),
        k < s.len() ==> is_token_sep(s[k]),
    ensures
        token_prefix(s) == s.subrange(0, k),
    decreases k,
{
    if k == 0 {
        assert(token_prefix(s) =~= s.subrange(0, 0));
    } else {
        let t = s.subrange(1, s.len() as int);
        assert(forall|m: int| 0 <= m < k - 1 ==> !is_token_sep(#[trigger] t[m]));
        lemma_token_prefix_exact(t, k - 1);
        assert(token_prefix(s) == seq![s[0]] + t.subrange(0, k - 1));
        assert(seq![s[0]] + t.subrange(0, k - 1) =~= s.subrange(0, k));
    }
}

fn is_sep_char(c: char) -> (r: bool)
    ensures
        r == is_token_sep(c),
{
    c == ' ' || c == '\t' || c == '\n' || c == '\r'
}

fn sep_at(s: &str, i: usize) -> (r: bool)
    requires
        i < s@.len(),
    ensures
        r == is_token_sep(s@[i as int]),
{
    is_sep_char(s.get_char(i))
}

/// The first whitespace-delimited token of `s`, as a fresh string.
pub fn leading_token(s: &str) -> (r: String)
    ensures
        r@ == first_token(s@),
{
    let n = s.unicode_len();
    let mut i: usize = 0;
    while i < n && sep_at(s, i)
        invariant
            i <= n,
            n == s@.len(),
            forall|m: int| 0 <= m < i ==> is_token_sep(#[trigger] s@[m]),
        decreases n - i,
    {
        i = i + 1;
    }
    proof {
        lemma_first_token_skip(s@, i as int);
    }
    if i == n {
        proof {
            assert(s@.subrange(n as int, n as int) =~= Seq::<char>::empty());
        }
        return String::new();
    }
    let mut j: usize = i;
    while j < n && !sep_at(s, j)
        invariant
            i <= j <= n,
            n == s@.len(),
            forall|m: int| i <= m < j ==> !is_token_sep(#[trigger] s@[m]),
        decreases n - j,
    {
        j = j + 1;
    }
    let tok = s.substring_char(i, j);
    proof {
        let tail = s@.subrange(i as int, n as int);
        assert(forall|m: int| 0 <= m < j - i ==> !is_token_sep(#[trigger] tail[m]));
        if j < n {
            assert(tail[j - i as int] == s@[j as int]);
        }
        lemma_token_prefix_exact(tail, j - i as int);
        assert(!is_token_sep(tail[0]));
        assert(tail.subrange(0, j - i as int) =~= s@.subrange(i as int, j as int));
    }
    tok.to_owned()
}

/// Relies on the `format!` macro with the `{:?}` specifier: it yields
/// the `Debug` form of the value, as the `Debug` impl of `T` writes it.
#[verifier::external_body]
fn debug_repr<T: core::fmt::Debug>(t: &T) -> (r: String) {
    format!("{:?}", t)
}

/// The name of the type of `it_is`, read as the first token of its debug
/// form.  For a derived `Debug` impl this is the type's own name.
pub fn get_type_name<T: core::fmt::Debug>(it_is: &T) -> (r: String)
    ensures
        exists|d: Seq<char>| r@ == first_token(d),
{
    let nm = debug_repr(it_is);
    let r = leading_token(nm.as_str());
    proof {
        assert(r@ == first_token(nm@));
    }
    r
}

} // verus!
