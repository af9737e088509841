//! Choosing the node to download a file from: neighbours first, then the first few other
//! providers, each group by the score it answers with; then any other provider that
//! answers at all.
use vstd::prelude::*;

use crate::graph::{bytes_eq, copy_bytes, peer_views, PeerBytes};

verus! {

/// How many providers that are not neighbours are asked for their score.
pub const TOP_K: usize = 10;

/// The providers of `s` that are in `set` (or, with `inside` false, that are not), in
/// order.
pub open spec fn keep_where(s: Seq<Seq<u8>>, set: Seq<Seq<u8>>, inside: bool) -> Seq<Seq<u8>>
    decreases s.len(),
{
    if s.len() == 0 {
        Seq::empty()
    } else {
        let rest = keep_where(s.drop_last(), set, inside);
        if set.contains(s.last()) == inside {
            rest.push(s.last())
        } else {
            rest
        }
    }
}

/// Splitting providers into neighbours and others loses none and adds none: the two
/// groups hold as many providers as there were, and each provider is in one of them.
pub proof fn lemma_partition_complete(s: Seq<Seq<u8>>, set: Seq<Seq<u8>>)
    ensures
        keep_where(s, set, true).len() + keep_where(s, set, false).len() == s.len(),
        forall|x: Seq<u8>| #[trigger] s.contains(x) <==> (keep_where(s, set, true).contains(x) || keep_where(s, set, false).contains(x)),
        forall|x: Seq<u8>| #[trigger] keep_where(s, set, true).contains(x) ==> set.contains(x),
        forall|x: Seq<u8>| #[trigger] keep_where(s, set, false).contains(x) ==> !set.contains(x),
    decreases s.len(),
{
    if s.len() > 0 {
        let d = s.drop_last();
        lemma_partition_complete(d, set);
        let a = keep_where(d, set, true);
        let b = keep_where(d, set, false);
        assert forall|x: Seq<u8>| #[trigger] s.contains(x) <==> (keep_where(s, set, true).contains(x) || keep_where(s, set, false).contains(x)) by {
            if s.contains(x) {
                let i = choose|i: int| 0 <= i < s.len() && s[i] == x;
                if i < d.len() {
                    assert(d[i] == x);
                    assert(d.contains(x));
                    if a.contains(x) {
                        let k = choose|k: int| 0 <= k < a.len() && a[k] == x;
                        assert(keep_where(s, set, true).contains(x) || keep_where(s, set, false).contains(x)) by {
                            if set.contains(s.last()) {
                                assert(a.push(s.last())[k] == x);
                            } else {
                                assert(keep_where(s, set, true) == a);
                            }
                        }
                    } else {
                        assert(b.contains(x));
                        let k = choose|k: int| 0 <= k < b.len() && b[k] == x;
                        if !set.contains(s.last()) {
                            assert(b.push(s.last())[k] == x);
                        } else {
                            assert(keep_where(s, set, false) == b);
                        }
                    }
                } else {
                    if set.contains(s.last()) {
                        assert(a.push(s.last())[a.len() as int] == x);
                    } else {
                        assert(b.push(s.last())[b.len() as int] == x);
                    }
                }
            }
            if keep_where(s, set, true).contains(x) || keep_where(s, set, false).contains(x) {
                if x == s.last() {
                    assert(s[s.len() - 1] == x);
                } else {
                    if keep_where(s, set, true).contains(x) {
                        let k = choose|k: int| 0 <= k < keep_where(s, set, true).len() && keep_where(s, set, true)[k] == x;
                        if set.contains(s.last()) {
                            assert(k < a.len());
                            assert(a[k] == x);
                        }
                        assert(a.contains(x));
                    } else {
                        let k = choose|k: int| 0 <= k < keep_where(s, set, false).len() && keep_where(s, set, false)[k] == x;
                        if !set.contains(s.last()) {
                            assert(k < b.len());
                            assert(b[k] == x);
                        }
                        assert(b.contains(x));
                    }
                    assert(d.contains(x));
                    let i = choose|i: int| 0 <= i < d.len() && d[i] == x;
                    assert(s[i] == x);
                }
            }
        }
        assert forall|x: Seq<u8>| #[trigger] keep_where(s, set, true).contains(x) implies set.contains(x) by {
            let k = choose|k: int| 0 <= k < keep_where(s, set, true).len() && keep_where(s, set, true)[k] == x;
            if set.contains(s.last()) && k == a.len() {
            } else {
                assert(a[k] == x);
                assert(a.contains(x));
            }
        }
        assert forall|x: Seq<u8>| #[trigger] keep_where(s, set, false).contains(x) implies !set.contains(x) by {
            let k = choose|k: int| 0 <= k < keep_where(s, set, false).len() && keep_where(s, set, false)[k] == x;
            if !set.contains(s.last()) && k == b.len() {
            } else {
                assert(b[k] == x);
                assert(b.contains(x));
            }
        }
    }
}

/// Each provider once, where it first appears.
pub open spec fn first_occurrences(s: Seq<Seq<u8>>) -> Seq<Seq<u8>>
    decreases s.len(),
{
    if s.len() == 0 {
        Seq::empty()
    } else if s.drop_last().contains(s.last()) {
        first_occurrences(s.drop_last())
    } else {
        first_occurrences(s.drop_last()).push(s.last())
    }
}

/// Keeping each provider once keeps every provider and repeats none.
pub proof fn lemma_first_occurrences(s: Seq<Seq<u8>>)
    ensures
        first_occurrences(s).no_duplicates(),
        forall|x: Seq<u8>| #[trigger] first_occurrences(s).contains(x) <==> s.contains(x),
    decreases s.len(),
{
    if s.len() > 0 {
        let d = s.drop_last();
        lemma_first_occurrences(d);
        let f = first_occurrences(d);
        assert forall|x: Seq<u8>| #[trigger] first_occurrences(s).contains(x) <==> s.contains(x) by {
            if s.contains(x) {
                let i = choose|i: int| 0 <= i < s.len() && s[i] == x;
                if i < d.len() {
                    assert(d[i] == x);
                    assert(d.contains(x));
                    assert(f.contains(x));
                    let k = choose|k: int| 0 <= k < f.len() && f[k] == x;
                    if !d.contains(s.last()) {
                        assert(f.push(s.last())[k] == x);
                    }
                } else if !d.contains(s.last()) {
                    assert(f.push(s.last())[f.len() as int] == x);
                } else {
                    assert(f.contains(x));
                }
            }
            if first_occurrences(s).contains(x) {
                let k = choose|k: int| 0 <= k < first_occurrences(s).len() && first_occurrences(s)[k] == x;
                if !d.contains(s.last()) && k == f.len() {
                    assert(s[s.len() - 1] == x);
                } else {
                    assert(f[k] == x);
                    assert(f.contains(x));
                    let i = choose|i: int| 0 <= i < d.len() && d[i] == x;
                    assert(s[i] == x);
                }
            }
        }
        if !d.contains(s.last()) {
            assert forall|a: int, b: int| 0 <= a < b < f.push(s.last()).len() implies f.push(s.last())[a] != f.push(s.last())[b] by {
                if b == f.len() {
                    assert(f.contains(f[a]));
                }
            }
        }
    }
}

/// Picking the providers of a group keeps them repeating none where they repeated none.
pub proof fn lemma_keep_where_no_duplicates(s: Seq<Seq<u8>>, set: Seq<Seq<u8>>, inside: bool)
    requires
        s.no_duplicates(),
    ensures
        keep_where(s, set, inside).no_duplicates(),
        forall|x: Seq<u8>| #[trigger] keep_where(s, set, inside).contains(x) ==> s.contains(x),
    decreases s.len(),
{
    if s.len() > 0 {
        let d = s.drop_last();
        assert forall|a: int, b: int| 0 <= a < b < d.len() implies d[a] != d[b] by {
            assert(s[a] == d[a] && s[b] == d[b]);
        }
        lemma_keep_where_no_duplicates(d, set, inside);
        let k = keep_where(d, set, inside);
        assert(!d.contains(s.last())) by {
            if d.contains(s.last()) {
                let i = choose|i: int| 0 <= i < d.len() && d[i] == s.last();
                assert(s[i] == s[s.len() - 1]);
            }
        }
        assert forall|x: Seq<u8>| #[trigger] keep_where(s, set, inside).contains(x) implies s.contains(x) by {
            let j = choose|j: int| 0 <= j < keep_where(s, set, inside).len() && keep_where(s, set, inside)[j] == x;
            if set.contains(s.last()) == inside && j == k.len() {
                assert(s[s.len() - 1] == x);
            } else {
                assert(k[j] == x);
                assert(k.contains(x));
                let i = choose|i: int| 0 <= i < d.len() && d[i] == x;
                assert(s[i] == x);
            }
        }
        if set.contains(s.last()) == inside {
            assert forall|a: int, b: int| 0 <= a < b < k.push(s.last()).len() implies k.push(s.last())[a] != k.push(s.last())[b] by {
                if b == k.len() {
                    assert(k.contains(k[a]));
                }
            }
        }
    }
}

/// Neither group of providers holds a provider twice, and every provider found is in
/// exactly one group: the neighbours or the others.
pub proof fn lemma_partition_unique(s: Seq<Seq<u8>>, set: Seq<Seq<u8>>)
    ensures
        keep_where(first_occurrences(s), set, true).no_duplicates(),
        keep_where(first_occurrences(s), set, false).no_duplicates(),
        forall|x: Seq<u8>| #[trigger] s.contains(x) <==> (keep_where(first_occurrences(s), set, true).contains(x)
            || keep_where(first_occurrences(s), set, false).contains(x)),
        forall|x: Seq<u8>| #[trigger] keep_where(first_occurrences(s), set, true).contains(x) ==> set.contains(x),
        forall|x: Seq<u8>| #[trigger] keep_where(first_occurrences(s), set, false).contains(x) ==> !set.contains(x),
{
    lemma_first_occurrences(s);
    let f = first_occurrences(s);
    lemma_keep_where_no_duplicates(f, set, true);
    lemma_keep_where_no_duplicates(f, set, false);
    lemma_partition_complete(f, set);
    assert forall|x: Seq<u8>| #[trigger] s.contains(x) <==> (keep_where(f, set, true).contains(x)
        || keep_where(f, set, false).contains(x)) by {
        assert(f.contains(x) <==> s.contains(x));
    }
}

fn contains_peer(list: &Vec<PeerBytes>, p: &PeerBytes) -> (r: bool)
    ensures
        r == peer_views(list@).contains(p@),
{
    let mut i: usize = 0;
    while i < list.len()
        invariant
            i <= list.len(),
            forall|k: int| 0 <= k < i ==> list@[k]@ != p@,
        decreases list.len() - i,
    {
        if bytes_eq(&list[i], p) {
            assert(peer_views(list@)[i as int] == p@);
            return true;
        }
        i = i + 1;
    }
    proof {
        if peer_views(list@).contains(p@) {
            let k = choose|k: int| 0 <= k < peer_views(list@).len() && peer_views(list@)[k] == p@;
            assert(list@[k]@ == p@);
        }
    }
    false
}

/// The providers that are neighbours, then those that are not, each once and in the
/// order in which it was first found.
pub fn partition_providers(providers: &Vec<PeerBytes>, neighbours: &Vec<PeerBytes>) -> (r: (Vec<PeerBytes>, Vec<PeerBytes>))
    ensures
        peer_views(r.0@) == keep_where(first_occurrences(peer_views(providers@)), peer_views(neighbours@), true),
        peer_views(r.1@) == keep_where(first_occurrences(peer_views(providers@)), peer_views(neighbours@), false),
        peer_views(r.0@).no_duplicates(),
        peer_views(r.1@).no_duplicates(),
{
    let ghost ps = peer_views(providers@);
    let ghost ns = peer_views(neighbours@);
    let mut near: Vec<PeerBytes> = Vec::new();
    let mut far: Vec<PeerBytes> = Vec::new();
    let mut i: usize = 0;
    while i < providers.len()
        invariant
            i <= providers.len(),
            ps == peer_views(providers@),
            ns == peer_views(neighbours@),
            peer_views(near@) == keep_where(first_occurrences(ps.take(i as int)), ns, true),
            peer_views(far@) == keep_where(first_occurrences(ps.take(i as int)), ns, false),
        decreases providers.len() - i,
    {
        let p = copy_bytes(&providers[i]);
        let ghost t0 = ps.take(i as int);
        assert(ps.take(i + 1).drop_last() =~= t0);
        assert(ps.take(i + 1).last() == p@);
        proof {
            lemma_partition_unique(t0, ns);
        }
        let ghost near0 = peer_views(near@);
        let ghost far0 = peer_views(far@);
        let ghost f0 = first_occurrences(t0);
        if contains_peer(&near, &p) || contains_peer(&far, &p) {
            assert(t0.contains(p@));
            assert(first_occurrences(ps.take(i + 1)) == f0);
        } else {
            assert(!t0.contains(p@));
            assert(first_occurrences(ps.take(i + 1)) == f0.push(p@));
            assert(f0.push(p@).drop_last() =~= f0);
            if contains_peer(neighbours, &p) {
                near.push(p);
                assert(peer_views(near@) =~= near0.push(ps[i as int]));
            } else {
                far.push(p);
                assert(peer_views(far@) =~= far0.push(ps[i as int]));
            }
        }
        i = i + 1;
    }
    assert(ps.take(i as int) =~= ps);
    proof {
        lemma_partition_unique(ps, ns);
    }
    (near, far)
}

/// The first `TOP_K` providers, and the rest.
pub fn split_top(providers: Vec<PeerBytes>) -> (r: (Vec<PeerBytes>, Vec<PeerBytes>))
    ensures
        r.0@ == providers@.take(if providers@.len() < TOP_K { providers@.len() as int } else { TOP_K as int }),
        r.1@ == providers@.skip(if providers@.len() < TOP_K { providers@.len() as int } else { TOP_K as int }),
{
    let mut top = providers;
    let n = if top.len() < TOP_K { top.len() } else { TOP_K };
    let rest = top.split_off(n);
    (top, rest)
}

/// A provider's score: the streams it serves in all plus those on the file asked for.
pub fn provider_score(total_streams: u64, streams_on_cid: u64) -> (r: u64)
    requires
        total_streams + streams_on_cid <= u64::MAX,
    ensures
        r == total_streams + streams_on_cid,
{
    total_streams + streams_on_cid
}

/// The answer at `i` is the first of the highest scores.
pub open spec fn is_best(scores: Seq<Option<u64>>, i: int) -> bool {
    &&& 0 <= i < scores.len()
    &&& scores[i] is Some
    &&& forall|j: int| 0 <= j < scores.len() && (#[trigger] scores[j]) is Some ==> scores[j]->Some_0 <= scores[i]->Some_0
    &&& forall|j: int| 0 <= j < i && (#[trigger] scores[j]) is Some ==> scores[j]->Some_0 < scores[i]->Some_0
}

/// Among the answers of the providers asked, in the order they came (`None` for one
/// that had not the file or failed), the position of the first with the highest score;
/// `None` if none had it.
pub fn best_answer(scores: &Vec<Option<u64>>) -> (r: Option<usize>)
    ensures
        match r {
            Some(i) => is_best(scores@, i as int),
            None => forall|j: int| 0 <= j < scores@.len() ==> (#[trigger] scores@[j]) is None,
        },
{
    let mut best: Option<usize> = None;
    let mut i: usize = 0;
    while i < scores.len()
        invariant
            i <= scores.len(),
            match best {
                Some(b) => is_best(scores@.take(i as int), b as int),
                None => forall|j: int| 0 <= j < i ==> (#[trigger] scores@[j]) is None,
            },
        decreases scores.len() - i,
    {
        let ghost t = scores@.take(i + 1);
        assert(forall|j: int| 0 <= j < i ==> t[j] == scores@.take(i as int)[j]);
        match scores[i] {
            Some(s) => {
                match best {
                    Some(b) => {
                        let current = match scores[b] {
                            Some(c) => c,
                            None => 0,
                        };
                        if s > current {
                            best = Some(i);
                        }
                    },
                    None => {
                        best = Some(i);
                    },
                }
            },
            None => {},
        }
        i = i + 1;
    }
    assert(scores@.take(i as int) =~= scores@);
    best
}

/// The group of providers being asked.
#[derive(Debug, Clone, Copy, PartialEq, Eq, Structural)]
pub enum ProviderStage {
    /// The providers that are neighbours, all at once, for their scores.
    Neighbours,
    /// The first `TOP_K` other providers, all at once, for their scores.
    TopOthers,
    /// The remaining providers, one after the other, until one has the file.
    RestOthers,
}

/// What to do once a group has answered.
#[derive(Debug, Clone, Copy, PartialEq, Eq, Structural)]
pub enum StageOutcome {
    /// Download from the provider that gave the answer at this position.
    Chosen(usize),
    /// Ask the next group.
    Next(ProviderStage),
    /// No provider has the file.
    NoProviders,
}

/// The decision after the providers of `stage` answered (in order; `None` for one that
/// had not the file or failed): the best score of a scored group, the first answer of
/// the last group; else the next group, and after the last one no provider.
pub fn after_stage(stage: ProviderStage, answers: &Vec<Option<u64>>) -> (r: StageOutcome)
    ensures
        stage != ProviderStage::RestOthers ==> match r {
            StageOutcome::Chosen(i) => is_best(answers@, i as int),
            StageOutcome::Next(next) => {
                &&& forall|j: int| 0 <= j < answers@.len() ==> (#[trigger] answers@[j]) is None
                &&& next == (if stage == ProviderStage::Neighbours { ProviderStage::TopOthers } else { ProviderStage::RestOthers })
            },
            StageOutcome::NoProviders => false,
        },
        stage == ProviderStage::RestOthers ==> match r {
            StageOutcome::Chosen(i) => {
                &&& i < answers@.len()
                &&& answers@[i as int] is Some
                &&& forall|j: int| 0 <= j < i ==> (#[trigger] answers@[j]) is None
            },
            StageOutcome::Next(_) => false,
            StageOutcome::NoProviders => forall|j: int| 0 <= j < answers@.len() ==> (#[trigger] answers@[j]) is None,
        },
{
    match stage {
        ProviderStage::Neighbours => match best_answer(answers) {
            Some(i) => StageOutcome::Chosen(i),
            None => StageOutcome::Next(ProviderStage::TopOthers),
        },
        ProviderStage::TopOthers => match best_answer(answers) {
            Some(i) => StageOutcome::Chosen(i),
            None => StageOutcome::Next(ProviderStage::RestOthers),
        },
        ProviderStage::RestOthers => {
            let mut i: usize = 0;
            while i < answers.len()
                invariant
                    stage == ProviderStage::RestOthers,
                    i <= answers.len(),
                    forall|j: int| 0 <= j < i ==> (#[trigger] answers@[j]) is None,
                decreases answers.len() - i,
            {
                if answers[i].is_some() {
                    return StageOutcome::Chosen(i);
                }
                i = i + 1;
            }
            StageOutcome::NoProviders
        },
    }
}

/// The progress reported after a read: the bytes in the read buffer, in hundredths of
/// the file's length.
pub fn download_progress(filled: u64, total_length: u64) -> (r: u64)
    requires
        total_length > 0,
        filled * 100 <= u64::MAX,
    ensures
        r == (filled * 100) as nat / (total_length as nat),
{
    filled * 100 / total_length
}

} // verus!
