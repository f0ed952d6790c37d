use crate::track::{process_file, record_from, selected_tag, ProbedFile, TagBlock, Track};
use std::rc::Rc;
use vstd::hash_set::StringHashSet;
use vstd::prelude::*;

verus! {

/// How many files a single scan considers at most.
pub const MAX_VAL: usize = 10000000;

/// How many files one store transaction covers.
pub const TRANSACTION_SIZE: usize = 20;

/// An entry met while walking a directory tree.
#[derive(Clone, Debug, PartialEq, Eq)]
pub struct DirEntry {
    pub path: String,
    pub is_file: bool,
}

/// The file names of the tracks in `rows`.
pub open spec fn known_names(rows: Seq<Rc<Track>>) -> Set<Seq<char>> {
    Set::new(|s: Seq<char>| exists|i: int| 0 <= i < rows.len() && (*rows[i]).filename@ == s)
}

/// The paths a scan hands to tag extraction, in walk order: of the first
/// `cap` files met (directories do not count), those not already known.
pub open spec fn candidates(entries: Seq<DirEntry>, known: Set<Seq<char>>, cap: nat) -> Seq<
    Seq<char>,
>
    decreases entries.len(),
{
    if entries.len() == 0 || cap == 0 {
        Seq::empty()
    } else {
        let e = entries[0];
        let rest = entries.drop_first();
        if !e.is_file {
            candidates(rest, known, cap)
        } else if known.contains(e.path@) {
            candidates(rest, known, (cap - 1) as nat)
        } else {
            seq![e.path@] + candidates(rest, known, (cap - 1) as nat)
        }
    }
}

/// The (path, tag block) pairs that the files of a batch yield records from,
/// in order: a file that failed to probe or holds no tag block yields none.
pub open spec fn extracted(files: Seq<(String, Option<ProbedFile>)>) -> Seq<(Seq<char>, TagBlock)>
    decreases files.len(),
{
    if files.len() == 0 {
        Seq::empty()
    } else {
        let before = extracted(files.drop_last());
        let (path, probe) = files.last();
        match probe {
            None => before,
            Some(p) => match selected_tag(p.tags@, p.primary_format) {
                None => before,
                Some(t) => before.push((path@, t)),
            },
        }
    }
}

/// The set of file names already in the store, for skipping known files.
pub fn hashset(data: &[Rc<Track>]) -> (r: StringHashSet)
    ensures
        r@ == known_names(data@),
{
    let mut set = StringHashSet::new();
    let mut i: usize = 0;
    while i < data.len()
        invariant
            i <= data@.len(),
            set@ == known_names(data@.take(i as int)),
        decreases data@.len() - i,
    {
        set.insert(data[i].filename.clone());
        proof {
            let p = data@.take(i as int);
            let q = data@.take(i + 1);
            assert forall|s: Seq<char>| known_names(q).contains(s) <==> #[trigger] set@.contains(
                s,
            ) by {
                if known_names(q).contains(s) {
                    let k = choose|k: int| 0 <= k < q.len() && (*q[k]).filename@ == s;
                    if k < i {
                        assert(p[k] == q[k]);
                    }
                }
                if known_names(p).contains(s) {
                    let k = choose|k: int| 0 <= k < p.len() && (*p[k]).filename@ == s;
                    assert(p[k] == q[k]);
                }
                if s == data@[i as int].filename@ {
                    assert(q[i as int] == data@[i as int]);
                }
            }
            assert(set@ =~= known_names(q));
        }
        i = i + 1;
    }
    assert(data@.take(data@.len() as int) =~= data@);
    set
}

/// Picks the paths to extract tags from: of the first `cap` files among
/// `entries`, those whose path `known` does not hold, in walk order.
pub fn select_candidates(entries: &[DirEntry], known: &StringHashSet, cap: usize) -> (r: Vec<
    String,
>)
    ensures
        r@.map_values(|s: String| s@) == candidates(entries@, known@, cap as nat),
{
    let mut out: Vec<String> = Vec::new();
    let mut left: usize = cap;
    let mut i: usize = 0;
    assert(entries@.skip(0) =~= entries@);
    while i < entries.len() && left > 0
        invariant
            i <= entries@.len(),
            left <= cap,
            out@.map_values(|s: String| s@) + candidates(entries@.skip(i as int), known@, left as nat)
                == candidates(entries@, known@, cap as nat),
        decreases entries@.len() - i,
    {
        let ghost rest = entries@.skip(i as int);
        assert(rest.drop_first() =~= entries@.skip(i + 1));
        let e = &entries[i];
        if e.is_file {
            if !known.contains(e.path.as_str()) {
                let ghost before = out@;
                out.push(e.path.clone());
                assert(out@.map_values(|s: String| s@) =~= before.map_values(|s: String| s@).push(
                    e.path@,
                ));
            }
            left = left - 1;
        }
        i = i + 1;
    }
    assert(candidates(entries@.skip(i as int), known@, left as nat) =~= Seq::empty());
    assert(out@.map_values(|s: String| s@) + Seq::<Seq<char>>::empty() =~= out@.map_values(
        |s: String| s@,
    ));
    out
}

/// Builds the records a batch of files yields, given each file's path and
/// what probing it found: one record per file with a usable tag block, in
/// order; files that failed to probe or hold no tag block contribute nothing.
pub fn build_batch(files: &[(String, Option<ProbedFile>)]) -> (r: Vec<Track>)
    ensures
        ({
            let x = extracted(files@);
            &&& r@.len() == x.len()
            &&& forall|k: int| 0 <= k < x.len() ==> record_from(#[trigger] r@[k], x[k].0, x[k].1)
        }),
{
    let mut out: Vec<Track> = Vec::new();
    let mut i: usize = 0;
    while i < files.len()
        invariant
            i <= files@.len(),
            ({
                let x = extracted(files@.take(i as int));
                &&& out@.len() == x.len()
                &&& forall|k: int| 0 <= k < x.len() ==> record_from(#[trigger] out@[k], x[k].0, x[k].1)
            }),
        decreases files@.len() - i,
    {
        assert(files@.take(i + 1).drop_last() =~= files@.take(i as int));
        assert(files@.take(i + 1).last() == files@[i as int]);
        let (path, probe) = &files[i];
        let rec = process_file(path.as_str(), probe);
        match rec {
            Some(t) => {
                out.push(t);
            },
            None => {},
        }
        i = i + 1;
    }
    assert(files@.take(files@.len() as int) =~= files@);
    out
}

/// Once a scan's candidates are all in the store, scanning the same entries
/// again picks none: the second pass inserts nothing.
pub proof fn lemma_rescan_inserts_nothing(
    entries: Seq<DirEntry>,
    known: Set<Seq<char>>,
    cap: nat,
    known_after: Set<Seq<char>>,
)
    requires
        known.subset_of(known_after),
        forall|k: int|
            0 <= k < candidates(entries, known, cap).len() ==> known_after.contains(
                #[trigger] candidates(entries, known, cap)[k],
            ),
    ensures
        candidates(entries, known_after, cap).len() == 0,
    decreases entries.len(),
{
    if entries.len() > 0 && cap > 0 {
        let e = entries[0];
        let rest = entries.drop_first();
        let c = candidates(entries, known, cap);
        if !e.is_file {
            lemma_rescan_inserts_nothing(rest, known, cap, known_after);
        } else if known.contains(e.path@) {
            lemma_rescan_inserts_nothing(rest, known, (cap - 1) as nat, known_after);
        } else {
            let tail = candidates(rest, known, (cap - 1) as nat);
            assert(c[0] == e.path@);
            assert forall|k: int| 0 <= k < tail.len() implies known_after.contains(
                #[trigger] tail[k],
            ) by {
                assert(c[k + 1] == tail[k]);
            }
            lemma_rescan_inserts_nothing(rest, known, (cap - 1) as nat, known_after);
        }
    }
}

} // verus!
