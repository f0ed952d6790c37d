use std::cmp::Ordering;
use vstd::prelude::*;

verus! {

/// Lexicographic order on text, comparing characters by code point; a proper
/// prefix sorts first.
pub open spec fn text_cmp(a: Seq<char>, b: Seq<char>) -> Ordering
    decreases a.len(),
{
    if a.len() == 0 {
        if b.len() == 0 {
            Ordering::Equal
        } else {
            Ordering::Less
        }
    } else if b.len() == 0 {
        Ordering::Greater
    } else if a[0] < b[0] {
        Ordering::Less
    } else if a[0] > b[0] {
        Ordering::Greater
    } else {
        text_cmp(a.drop_first(), b.drop_first())
    }
}

/// The order with its two sides swapped.
pub open spec fn flip(o: Ordering) -> Ordering {
    match o {
        Ordering::Less => Ordering::Greater,
        Ordering::Equal => Ordering::Equal,
        Ordering::Greater => Ordering::Less,
    }
}

/// An absent value sorts before any present one; present values go by text.
pub open spec fn opt_text_cmp(a: Option<Seq<char>>, b: Option<Seq<char>>) -> Ordering {
    match (a, b) {
        (None, None) => Ordering::Equal,
        (None, Some(_)) => Ordering::Less,
        (Some(_), None) => Ordering::Greater,
        (Some(x), Some(y)) => text_cmp(x, y),
    }
}

/// `false` sorts before `true`.
pub open spec fn bool_cmp(a: bool, b: bool) -> Ordering {
    if a == b {
        Ordering::Equal
    } else if !a {
        Ordering::Less
    } else {
        Ordering::Greater
    }
}

/// The first of two orderings that is not `Equal`.
pub open spec fn then_cmp(first: Ordering, second: Ordering) -> Ordering {
    if first == Ordering::Equal {
        second
    } else {
        first
    }
}

/// Texts compare `Equal` exactly when they are the same.
pub proof fn lemma_text_cmp_equal(a: Seq<char>, b: Seq<char>)
    ensures
        (text_cmp(a, b) == Ordering::Equal) <==> a == b,
    decreases a.len(),
{
    if a.len() > 0 && b.len() > 0 {
        lemma_text_cmp_equal(a.drop_first(), b.drop_first());
        if a[0] == b[0] && a.drop_first() == b.drop_first() {
            assert(a =~= seq![a[0]] + a.drop_first());
            assert(b =~= seq![b[0]] + b.drop_first());
        }
        if a == b {
            assert(a.drop_first() == b.drop_first());
        }
        if !(a[0] < b[0]) && !(a[0] > b[0]) {
            assert(a[0] == b[0]);
        }
    } else if a.len() == 0 && b.len() == 0 {
        assert(a =~= b);
    }
}

/// Swapping the sides of a comparison flips its result.
pub proof fn lemma_text_cmp_flip(a: Seq<char>, b: Seq<char>)
    ensures
        text_cmp(b, a) == flip(text_cmp(a, b)),
    decreases a.len(),
{
    if a.len() > 0 && b.len() > 0 {
        lemma_text_cmp_flip(a.drop_first(), b.drop_first());
    }
}

/// The text order is transitive.
pub proof fn lemma_text_cmp_trans(a: Seq<char>, b: Seq<char>, c: Seq<char>)
    requires
        text_cmp(a, b) == Ordering::Less,
        text_cmp(b, c) == Ordering::Less,
    ensures
        text_cmp(a, c) == Ordering::Less,
    decreases a.len(),
{
    if a.len() > 0 && b.len() > 0 && c.len() > 0 {
        if a[0] == b[0] && b[0] == c[0] {
            lemma_text_cmp_trans(a.drop_first(), b.drop_first(), c.drop_first());
        }
    }
}

/// The order on optional texts is total: `Equal` exactly on equal values,
/// antisymmetric and transitive.
pub proof fn lemma_opt_text_cmp(a: Option<Seq<char>>, b: Option<Seq<char>>, c: Option<Seq<char>>)
    ensures
        (opt_text_cmp(a, b) == Ordering::Equal) <==> a == b,
        opt_text_cmp(b, a) == flip(opt_text_cmp(a, b)),
        opt_text_cmp(a, b) == Ordering::Less && opt_text_cmp(b, c) == Ordering::Less
            ==> opt_text_cmp(a, c) == Ordering::Less,
{
    if let (Some(x), Some(y)) = (a, b) {
        lemma_text_cmp_equal(x, y);
        lemma_text_cmp_flip(x, y);
        if let Some(z) = c {
            if text_cmp(x, y) == Ordering::Less && text_cmp(y, z) == Ordering::Less {
                lemma_text_cmp_trans(x, y, z);
            }
        }
    }
}

/// Relies on `Ord for str`, which orders strings lexicographically by their
/// UTF-8 bytes and so by code point.
#[verifier::external_body]
pub(crate) fn compare_text(a: &str, b: &str) -> (r: Ordering)
    ensures
        r == text_cmp(a@, b@),
{
    a.cmp(b)
}

/// Compares two optional strings: absent first, then by text.
pub fn compare_opt_text(a: &Option<String>, b: &Option<String>) -> (r: Ordering)
    ensures
        r == opt_text_cmp(opt_view(*a), opt_view(*b)),
{
    match (a, b) {
        (None, None) => Ordering::Equal,
        (None, Some(_)) => Ordering::Less,
        (Some(_), None) => Ordering::Greater,
        (Some(x), Some(y)) => compare_text(x.as_str(), y.as_str()),
    }
}

/// The text of an optional string.
pub open spec fn opt_view(o: Option<String>) -> Option<Seq<char>> {
    match o {
        Some(s) => Some(s@),
        None => None,
    }
}

/// A copy of an optional string.
pub fn clone_opt(o: &Option<String>) -> (r: Option<String>)
    ensures
        r == *o,
{
    match o {
        Some(s) => Some(s.clone()),
        None => None,
    }
}

} // verus!
