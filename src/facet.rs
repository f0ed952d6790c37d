use crate::order::{
    bool_cmp, clone_opt, compare_opt_text, flip, lemma_opt_text_cmp, opt_text_cmp, opt_view,
    then_cmp,
};
use crate::track::Track;
use std::cmp::Ordering;
use std::rc::Rc;
use vstd::prelude::*;

verus! {

/// A browsing group of the collection: an album with its artists, or the
/// group that matches everything.
#[derive(Clone, Debug, Hash, PartialEq, Eq, PartialOrd, Ord)]
pub struct Facet {
    pub album_artist_or_artist: Option<String>,
    pub album_artist: Option<String>,
    pub album: Option<String>,
    pub all: bool,
}

/// A facet as its four values.
pub type FacetView = (Option<Seq<char>>, Option<Seq<char>>, Option<Seq<char>>, bool);

impl View for Facet {
    type V = FacetView;

    open spec fn view(&self) -> FacetView {
        (opt_view(self.album_artist_or_artist), opt_view(self.album_artist), opt_view(self.album), self.all)
    }
}

/// Facets compare field by field, in declaration order.
pub open spec fn facet_cmp(a: FacetView, b: FacetView) -> Ordering {
    then_cmp(
        opt_text_cmp(a.0, b.0),
        then_cmp(opt_text_cmp(a.1, b.1), then_cmp(opt_text_cmp(a.2, b.2), bool_cmp(a.3, b.3))),
    )
}

/// The facet that matches everything.
pub open spec fn all_facet() -> FacetView {
    (None, None, None, true)
}

/// The facet that a track falls under: its album and album artist, under an
/// empty group key.
pub open spec fn candidate_of(t: Track) -> FacetView {
    (Some(Seq::empty()), opt_view(t.album_artist), opt_view(t.album), false)
}

/// Each facet sorts strictly before every later one.
pub open spec fn strictly_sorted(s: Seq<FacetView>) -> bool {
    forall|i: int, j: int| 0 <= i < j < s.len() ==> facet_cmp(s[i], s[j]) == Ordering::Less
}

/// `x` is the facet of some track of `rows`.
pub open spec fn is_candidate(rows: Seq<Rc<Track>>, x: FacetView) -> bool {
    exists|i: int| 0 <= i < rows.len() && x == candidate_of(*rows[i])
}

/// `out` is the facet list of `rows`: the all-facet first, then each distinct
/// facet of the tracks once, in ascending order.
pub open spec fn is_facet_list(rows: Seq<Rc<Track>>, out: Seq<FacetView>) -> bool {
    &&& out.len() >= 1
    &&& out[0] == all_facet()
    &&& strictly_sorted(out.drop_first())
    &&& forall|x: FacetView| out.drop_first().contains(x) <==> is_candidate(rows, x)
}

/// The views of a sequence of facets.
pub open spec fn views(s: Seq<Facet>) -> Seq<FacetView> {
    s.map_values(|f: Facet| f@)
}

/// The facet order is total: `Equal` exactly on equal facets, antisymmetric
/// and transitive.
pub proof fn lemma_facet_cmp(a: FacetView, b: FacetView, c: FacetView)
    ensures
        (facet_cmp(a, b) == Ordering::Equal) <==> a == b,
        facet_cmp(b, a) == flip(facet_cmp(a, b)),
        facet_cmp(a, b) == Ordering::Less && facet_cmp(b, c) == Ordering::Less ==> facet_cmp(
            a,
            c,
        ) == Ordering::Less,
{
    lemma_opt_text_cmp(a.0, b.0, c.0);
    lemma_opt_text_cmp(a.1, b.1, c.1);
    lemma_opt_text_cmp(a.2, b.2, c.2);
    lemma_opt_text_cmp(b.0, c.0, a.0);
    lemma_opt_text_cmp(b.1, c.1, a.1);
    lemma_opt_text_cmp(b.2, c.2, a.2);
    lemma_opt_text_cmp(a.0, c.0, b.0);
    lemma_opt_text_cmp(a.1, c.1, b.1);
    lemma_opt_text_cmp(a.2, c.2, b.2);
}

/// Compares two facets field by field.
pub fn compare_facets(a: &Facet, b: &Facet) -> (r: Ordering)
    ensures
        r == facet_cmp(a@, b@),
{
    let c = compare_opt_text(&a.album_artist_or_artist, &b.album_artist_or_artist);
    if !matches!(c, Ordering::Equal) {
        return c;
    }
    let c = compare_opt_text(&a.album_artist, &b.album_artist);
    if !matches!(c, Ordering::Equal) {
        return c;
    }
    let c = compare_opt_text(&a.album, &b.album);
    if !matches!(c, Ordering::Equal) {
        return c;
    }
    if a.all == b.all {
        Ordering::Equal
    } else if !a.all {
        Ordering::Less
    } else {
        Ordering::Greater
    }
}

/// Adds `f` to a strictly ascending list unless an equal facet is there.
fn insert_unique(v: &mut Vec<Facet>, f: Facet)
    requires
        strictly_sorted(views(old(v)@)),
    ensures
        strictly_sorted(views(final(v)@)),
        forall|x: FacetView| views(final(v)@).contains(x) <==> (views(old(v)@).contains(x) || x == f@),
{
    let ghost s = views(v@);
    let mut lo: usize = 0;
    let mut hi: usize = v.len();
    while lo < hi
        invariant
            lo <= hi <= v@.len(),
            s == views(v@),
            strictly_sorted(s),
            forall|k: int| 0 <= k < lo ==> facet_cmp(#[trigger] s[k], f@) == Ordering::Less,
            forall|k: int| hi <= k < s.len() ==> facet_cmp(#[trigger] s[k], f@) != Ordering::Less,
        decreases hi - lo,
    {
        let mid = lo + (hi - lo) / 2;
        if matches!(compare_facets(&v[mid], &f), Ordering::Less) {
            proof {
                assert forall|k: int| 0 <= k <= mid implies facet_cmp(#[trigger] s[k], f@)
                    == Ordering::Less by {
                    if k < mid {
                        lemma_facet_cmp(s[k], s[mid as int], f@);
                    }
                }
            }
            lo = mid + 1;
        } else {
            proof {
                assert forall|k: int| mid <= k < s.len() implies facet_cmp(#[trigger] s[k], f@)
                    != Ordering::Less by {
                    if k > mid {
                        lemma_facet_cmp(f@, s[mid as int], s[k]);
                        lemma_facet_cmp(s[mid as int], f@, s[k]);
                        lemma_facet_cmp(s[k], f@, s[k]);
                        lemma_facet_cmp(s[mid as int], s[k], f@);
                    }
                }
            }
            hi = mid;
        }
    }
    let i = lo;
    if i < v.len() && matches!(compare_facets(&v[i], &f), Ordering::Equal) {
        proof {
            lemma_facet_cmp(s[i as int], f@, f@);
            assert(s.contains(f@));
        }
        return;
    }
    let ghost fv = f@;
    v.insert(i, f);
    proof {
        let t = views(v@);
        assert(t =~= s.insert(i as int, fv));
        if i < s.len() {
            lemma_facet_cmp(s[i as int], fv, fv);
            assert(facet_cmp(fv, s[i as int]) == Ordering::Less);
        }
        assert forall|k: int| i < k < s.len() implies facet_cmp(fv, #[trigger] s[k])
            == Ordering::Less by {
            lemma_facet_cmp(fv, s[i as int], s[k]);
        }
        assert forall|a: int, b: int| 0 <= a < b < t.len() implies facet_cmp(t[a], t[b])
            == Ordering::Less by {
            if b < i {
            } else if b == i {
            } else if a < i {
                lemma_facet_cmp(t[a], fv, t[b]);
            } else if a == i {
            } else {
            }
        }
        assert forall|x: FacetView| t.contains(x) <==> (s.contains(x) || x == fv) by {
            if t.contains(x) {
                let k = choose|k: int| 0 <= k < t.len() && t[k] == x;
                if k < i {
                    assert(s[k] == x);
                } else if k > i {
                    assert(s[k - 1] == x);
                }
            }
            if s.contains(x) {
                let k = choose|k: int| 0 <= k < s.len() && s[k] == x;
                if k < i {
                    assert(t[k] == x);
                } else {
                    assert(t[k + 1] == x);
                }
            }
            if x == fv {
                assert(t[i as int] == x);
            }
        }
    }
}

/// The facet list of the collection: the all-facet first, then each distinct
/// album grouping of the tracks once, in ascending order.
pub fn facet_list(rows: &[Rc<Track>]) -> (r: Vec<Facet>)
    ensures
        is_facet_list(rows@, views(r@)),
{
    let mut sorted: Vec<Facet> = Vec::new();
    let mut i: usize = 0;
    while i < rows.len()
        invariant
            i <= rows@.len(),
            strictly_sorted(views(sorted@)),
            forall|x: FacetView|
                views(sorted@).contains(x) <==> is_candidate(rows@.take(i as int), x),
        decreases rows@.len() - i,
    {
        let row = &rows[i];
        let f = Facet {
            album: clone_opt(&row.album),
            album_artist: clone_opt(&row.album_artist),
            album_artist_or_artist: Some(String::new()),
            all: false,
        };
        insert_unique(&mut sorted, f);
        proof {
            assert forall|x: FacetView|
                views(sorted@).contains(x) <==> is_candidate(rows@.take(i + 1), x) by {
                let p = rows@.take(i as int);
                let q = rows@.take(i + 1);
                if is_candidate(p, x) {
                    let k = choose|k: int| 0 <= k < p.len() && x == candidate_of(*p[k]);
                    assert(q[k] == p[k]);
                }
                if is_candidate(q, x) {
                    let k = choose|k: int| 0 <= k < q.len() && x == candidate_of(*q[k]);
                    if k < i {
                        assert(q[k] == p[k]);
                    }
                }
                if x == candidate_of(*rows@[i as int]) {
                    assert(q[i as int] == rows@[i as int]);
                }
            }
        }
        i = i + 1;
    }
    assert(rows@.take(rows@.len() as int) =~= rows@);
    let mut out: Vec<Facet> = Vec::new();
    out.push(Facet { album: None, album_artist: None, album_artist_or_artist: None, all: true });
    let ghost tail = sorted@;
    out.append(&mut sorted);
    assert(views(out@).drop_first() =~= views(tail));
    out
}

/// Two strictly ascending lists that hold the same facets are the same list.
proof fn lemma_sorted_unique(a: Seq<FacetView>, b: Seq<FacetView>)
    requires
        strictly_sorted(a),
        strictly_sorted(b),
        forall|x: FacetView| a.contains(x) <==> b.contains(x),
    ensures
        a == b,
    decreases a.len(),
{
    if a.len() == 0 {
        if b.len() > 0 {
            assert(b.contains(b[0]));
        }
        assert(a =~= b);
    } else if b.len() == 0 {
        assert(a.contains(a[0]));
    } else {
        assert(a.contains(a[0]));
        assert(b.contains(b[0]));
        if a[0] != b[0] {
            let ka = choose|k: int| 0 <= k < b.len() && b[k] == a[0];
            let kb = choose|k: int| 0 <= k < a.len() && a[k] == b[0];
            assert(facet_cmp(b[0], a[0]) == Ordering::Less);
            assert(facet_cmp(a[0], b[0]) == Ordering::Less);
            lemma_facet_cmp(a[0], b[0], a[0]);
        }
        let a1 = a.drop_first();
        let b1 = b.drop_first();
        assert forall|x: FacetView| a1.contains(x) <==> b1.contains(x) by {
            if a1.contains(x) {
                let k = choose|k: int| 0 <= k < a1.len() && a1[k] == x;
                assert(a[k + 1] == x);
                assert(facet_cmp(a[0], x) == Ordering::Less);
                lemma_facet_cmp(a[0], x, x);
                assert(b.contains(x));
                let j = choose|j: int| 0 <= j < b.len() && b[j] == x;
                assert(j != 0);
                assert(b1[j - 1] == x);
            }
            if b1.contains(x) {
                let k = choose|k: int| 0 <= k < b1.len() && b1[k] == x;
                assert(b[k + 1] == x);
                assert(facet_cmp(b[0], x) == Ordering::Less);
                lemma_facet_cmp(b[0], x, x);
                assert(a.contains(x));
                let j = choose|j: int| 0 <= j < a.len() && a[j] == x;
                assert(j != 0);
                assert(a1[j - 1] == x);
            }
        }
        lemma_sorted_unique(a1, b1);
        assert(a =~= seq![a[0]] + a1);
        assert(b =~= seq![b[0]] + b1);
    }
}

/// The facet list of a collection is fully determined by it: any two lists
/// that meet its description are equal, so computing it twice gives the same
/// list, with each facet once and the all-facet alone at the front.
pub proof fn lemma_facet_list_deterministic(
    rows: Seq<Rc<Track>>,
    a: Seq<FacetView>,
    b: Seq<FacetView>,
)
    requires
        is_facet_list(rows, a),
        is_facet_list(rows, b),
    ensures
        a == b,
        forall|i: int, j: int| 1 <= i < j < a.len() ==> a[i] != a[j],
        forall|i: int| 0 <= i < a.len() ==> (a[i].3 <==> i == 0),
{
    assert forall|x: FacetView| a.drop_first().contains(x) <==> b.drop_first().contains(x) by {
        assert(a.drop_first().contains(x) <==> is_candidate(rows, x));
        assert(b.drop_first().contains(x) <==> is_candidate(rows, x));
    }
    lemma_sorted_unique(a.drop_first(), b.drop_first());
    assert(a =~= seq![a[0]] + a.drop_first());
    assert(b =~= seq![b[0]] + b.drop_first());
    assert forall|i: int, j: int| 1 <= i < j < a.len() implies a[i] != a[j] by {
        assert(a.drop_first()[i - 1] == a[i]);
        assert(a.drop_first()[j - 1] == a[j]);
        lemma_facet_cmp(a[i], a[j], a[j]);
    }
    assert forall|i: int| 0 <= i < a.len() implies (a[i].3 <==> i == 0) by {
        if i > 0 {
            assert(a.drop_first()[i - 1] == a[i]);
            assert(a.drop_first().contains(a[i]));
            assert(is_candidate(rows, a[i]));
            let k = choose|k: int| 0 <= k < rows.len() && a[i] == candidate_of(*rows[k]);
        }
    }
}

} // verus!
