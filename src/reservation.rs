//! The set of destination paths already claimed during a run, and the
//! search for a free name.
use vstd::prelude::*;
use crate::placement::{candidate_name_of, candidate_path, lemma_candidates_distinct};
use crate::text::join_spec;

verus! {

/// Destination paths claimed so far. A claimed path stays claimed for the
/// whole run, whether or not its copy later succeeds.
pub struct ReservationSet {
    paths: Vec<String>,
}

impl View for ReservationSet {
    type V = Set<Seq<char>>;

    closed spec fn view(&self) -> Set<Seq<char>> {
        Set::new(|p: Seq<char>| exists|i: int| 0 <= i < self.paths@.len() && self.paths@[i]@ == p)
    }
}

impl ReservationSet {
    /// No path is held twice.
    pub closed spec fn wf(&self) -> bool {
        forall|i: int, j: int|
            0 <= i < j < self.paths@.len() ==> self.paths@[i]@ != self.paths@[j]@
    }

    /// An empty set.
    pub fn new() -> (r: Self)
        ensures
            r.wf(),
            r@ == Set::<Seq<char>>::empty(),
    {
        let r = ReservationSet { paths: Vec::new() };
        assert(r@ =~= Set::<Seq<char>>::empty());
        r
    }

    /// Whether `path` has been claimed.
    pub fn is_reserved(&self, path: &str) -> (r: bool)
        ensures
            r == self@.contains(path@),
    {
        let key = path.to_string();
        let mut i: usize = 0;
        while i < self.paths.len()
            invariant
                i <= self.paths@.len(),
                key@ == path@,
                forall|j: int| 0 <= j < i ==> self.paths@[j]@ != path@,
            decreases self.paths@.len() - i,
        {
            if self.paths[i] == key {
                assert(self@.contains(path@));
                return true;
            }
            i = i + 1;
        }
        false
    }

    /// Claims `path` where it is neither claimed already nor present on
    /// disk (`on_disk`), in one step. Returns whether the claim was made.
    pub fn try_claim(&mut self, path: String, on_disk: bool) -> (r: bool)
        requires
            old(self).wf(),
        ensures
            final(self).wf(),
            r == (!old(self)@.contains(path@) && !on_disk),
            final(self)@ == (if r {
                old(self)@.insert(path@)
            } else {
                old(self)@
            }),
    {
        if on_disk || self.is_reserved(path.as_str()) {
            return false;
        }
        let ghost p = path@;
        self.paths.push(path);
        assert(self.paths@[self.paths@.len() - 1]@ == p);
        assert forall|q: Seq<char>| #[trigger] self@.contains(q) implies old(self)@.insert(p).contains(q) by {
            let j = choose|j: int| 0 <= j < self.paths@.len() && self.paths@[j]@ == q;
            if j < old(self).paths@.len() {
                assert(old(self).paths@[j]@ == q);
            }
        }
        assert forall|q: Seq<char>| #[trigger] old(self)@.insert(p).contains(q) implies self@.contains(q) by {
            if q != p {
                let j = choose|j: int| 0 <= j < old(self).paths@.len() && old(self).paths@[j]@ == q;
                assert(self.paths@[j]@ == q);
            }
        }
        assert(self@ =~= old(self)@.insert(p));
        true
    }
}

/// The paths granted to a sequence of claim requests `(path, on_disk)`
/// made one after another on a set that starts as `reserved`; each request
/// is granted exactly as `ReservationSet::try_claim` grants it.
pub open spec fn claim_run(reserved: Set<Seq<char>>, requests: Seq<(Seq<char>, bool)>) -> Seq<Seq<char>>
    decreases requests.len(),
{
    if requests.len() == 0 {
        Seq::empty()
    } else {
        let (p, on_disk) = requests[0];
        if !reserved.contains(p) && !on_disk {
            seq![p] + claim_run(reserved.insert(p), requests.drop_first())
        } else {
            claim_run(reserved, requests.drop_first())
        }
    }
}

/// Whatever claims are made and in whatever order, no path is granted
/// twice, and no path claimed before the run is granted at all.
pub proof fn lemma_claims_never_repeat(reserved: Set<Seq<char>>, requests: Seq<(Seq<char>, bool)>)
    ensures
        claim_run(reserved, requests).no_duplicates(),
        forall|i: int|
            0 <= i < claim_run(reserved, requests).len() ==> !reserved.contains(
                #[trigger] claim_run(reserved, requests)[i],
            ),
    decreases requests.len(),
{
    if requests.len() > 0 {
        let (p, on_disk) = requests[0];
        if !reserved.contains(p) && !on_disk {
            let rest = claim_run(reserved.insert(p), requests.drop_first());
            lemma_claims_never_repeat(reserved.insert(p), requests.drop_first());
            let all = seq![p] + rest;
            assert(claim_run(reserved, requests) == all);
            assert forall|i: int| 0 <= i < all.len() implies !reserved.contains(#[trigger] all[i]) by {
                if i > 0 {
                    assert(all[i] == rest[i - 1]);
                }
            }
            assert forall|i: int, j: int| 0 <= i < all.len() && 0 <= j < all.len() && i != j implies all[i] != all[j] by {
                if i > 0 && j > 0 {
                    assert(all[i] == rest[i - 1]);
                    assert(all[j] == rest[j - 1]);
                } else if i == 0 {
                    assert(all[j] == rest[j - 1]);
                    assert(!reserved.insert(p).contains(rest[j - 1]));
                } else {
                    assert(all[i] == rest[i - 1]);
                    assert(!reserved.insert(p).contains(rest[i - 1]));
                }
            }
        } else {
            lemma_claims_never_repeat(reserved, requests.drop_first());
        }
    }
}

/// Two files of the same name placed one after the other into a directory
/// where neither that name nor its first numbered variant is taken get the
/// name itself and its `_1` variant: the second tries the name, finds it
/// claimed, and takes the next.
pub proof fn lemma_second_copy_is_numbered(reserved: Set<Seq<char>>, dir: Seq<char>, name: Seq<char>)
    requires
        !reserved.contains(join_spec(dir, candidate_name_of(name, 0))),
        !reserved.contains(join_spec(dir, candidate_name_of(name, 1))),
    ensures
        ({
            let p0 = join_spec(dir, candidate_name_of(name, 0));
            let p1 = join_spec(dir, candidate_name_of(name, 1));
            claim_run(reserved, seq![(p0, false), (p0, false), (p1, false)]) == seq![p0, p1]
        }),
{
    let p0 = join_spec(dir, candidate_name_of(name, 0));
    let p1 = join_spec(dir, candidate_name_of(name, 1));
    lemma_candidates_distinct(dir, name, 0, 1);
    let reqs = seq![(p0, false), (p0, false), (p1, false)];
    let r1 = reserved.insert(p0);
    assert(reqs.drop_first() =~= seq![(p0, false), (p1, false)]);
    assert(reqs.drop_first().drop_first() =~= seq![(p1, false)]);
    assert(reqs.drop_first().drop_first().drop_first() =~= Seq::<(Seq<char>, bool)>::empty());
    assert(r1.contains(p0));
    assert(!r1.contains(p1));
    assert(claim_run(r1.insert(p1), Seq::<(Seq<char>, bool)>::empty()) == Seq::<Seq<char>>::empty());
    assert(claim_run(r1, seq![(p1, false)]) =~= seq![p1]);
    assert(claim_run(r1, seq![(p0, false), (p1, false)]) =~= seq![p1]);
    assert(claim_run(reserved, reqs) =~= seq![p0, p1]);
}

/// The path that attempt `i` tries for file `name` in directory `dir`.
pub open spec fn attempt_path(dir: Seq<char>, name: Seq<char>, i: nat) -> Seq<char> {
    join_spec(dir, candidate_name_of(name, i))
}

/// The paths of the first `k` attempts.
pub open spec fn first_attempt_paths(dir: Seq<char>, name: Seq<char>, k: nat) -> Set<Seq<char>> {
    Set::new(|p: Seq<char>| exists|i: nat| i < k && p == attempt_path(dir, name, i))
}

/// The claim requests of one search that reaches attempt `k`, with nothing
/// on disk.
pub open spec fn search_requests(dir: Seq<char>, name: Seq<char>, k: nat) -> Seq<(Seq<char>, bool)> {
    Seq::new(k + 1, |i: int| (attempt_path(dir, name, i as nat), false))
}

proof fn lemma_only_last_granted(reserved: Set<Seq<char>>, requests: Seq<(Seq<char>, bool)>)
    requires
        requests.len() >= 1,
        forall|i: int| 0 <= i < requests.len() - 1 ==> reserved.contains(#[trigger] requests[i].0),
        !reserved.contains(requests.last().0),
        !requests.last().1,
    ensures
        claim_run(reserved, requests) == seq![requests.last().0],
    decreases requests.len(),
{
    let rest = requests.drop_first();
    if requests.len() == 1 {
        assert(rest.len() == 0);
        assert(claim_run(reserved.insert(requests[0].0), rest) == Seq::<Seq<char>>::empty());
        assert(seq![requests[0].0] + Seq::<Seq<char>>::empty() =~= seq![requests[0].0]);
    } else {
        assert(reserved.contains(requests[0].0));
        assert forall|i: int| 0 <= i < rest.len() - 1 implies reserved.contains(#[trigger] rest[i].0) by {
            assert(rest[i] == requests[i + 1]);
        }
        assert(rest.last() == requests.last());
        lemma_only_last_granted(reserved, rest);
    }
}

/// Placements of one name into one directory, made one after another with
/// nothing on disk: once the first `k` attempts' paths are claimed, the
/// next placement tries them all in turn and is granted exactly attempt
/// `k`, after which the first `k + 1` are claimed. So `N` such placements
/// get the `N` distinct names `name`, `stem_1.ext`, ..., `stem_(N-1).ext`.
pub proof fn lemma_next_placement_takes_next_number(dir: Seq<char>, name: Seq<char>, k: nat)
    ensures
        claim_run(first_attempt_paths(dir, name, k), search_requests(dir, name, k)) == seq![
            attempt_path(dir, name, k),
        ],
        first_attempt_paths(dir, name, k).insert(attempt_path(dir, name, k))
            == first_attempt_paths(dir, name, k + 1),
{
    let reserved = first_attempt_paths(dir, name, k);
    let reqs = search_requests(dir, name, k);
    assert forall|i: int| 0 <= i < reqs.len() - 1 implies reserved.contains(#[trigger] reqs[i].0) by {
        assert(reqs[i].0 == attempt_path(dir, name, i as nat));
    }
    assert(!reserved.contains(attempt_path(dir, name, k))) by {
        if reserved.contains(attempt_path(dir, name, k)) {
            let i = choose|i: nat| i < k && attempt_path(dir, name, k) == attempt_path(dir, name, i);
            lemma_candidates_distinct(dir, name, i, k);
        }
    }
    assert(reqs.last() == (attempt_path(dir, name, k), false));
    lemma_only_last_granted(reserved, reqs);
    assert forall|p: Seq<char>| #[trigger] first_attempt_paths(dir, name, k + 1).contains(p) implies reserved.insert(
        attempt_path(dir, name, k),
    ).contains(p) by {
        let i = choose|i: nat| i < k + 1 && p == attempt_path(dir, name, i);
        if i < k {
            assert(reserved.contains(p));
        }
    }
    assert forall|p: Seq<char>| #[trigger] reserved.insert(attempt_path(dir, name, k)).contains(p) implies first_attempt_paths(
        dir,
        name,
        k + 1,
    ).contains(p) by {
        if p != attempt_path(dir, name, k) {
            let i = choose|i: nat| i < k && p == attempt_path(dir, name, i);
            assert(i < k + 1);
        }
    }
    assert(reserved.insert(attempt_path(dir, name, k)) =~= first_attempt_paths(dir, name, k + 1));
}

/// The state of the search for a free name for one file: the directory,
/// the file's name, and the attempt to make next.
pub struct NameSearch {
    dir: String,
    name: String,
    attempt: u64,
}

impl NameSearch {
    pub closed spec fn dir_view(&self) -> Seq<char> {
        self.dir@
    }

    pub closed spec fn name_view(&self) -> Seq<char> {
        self.name@
    }

    pub closed spec fn attempt_view(&self) -> nat {
        self.attempt as nat
    }

    /// The attempt counter stays within the range that names are made for.
    pub closed spec fn wf(&self) -> bool {
        self.attempt <= i64::MAX
    }

    /// A search for file `name` in directory `dir`, at its first attempt.
    pub fn new(dir: &str, name: &str) -> (r: Self)
        ensures
            r.wf(),
            r.dir_view() == dir@,
            r.name_view() == name@,
            r.attempt_view() == 0,
    {
        NameSearch { dir: dir.to_string(), name: name.to_string(), attempt: 0 }
    }

    /// The path to try now.
    pub fn candidate(&self) -> (r: String)
        requires
            self.wf(),
        ensures
            r@ == join_spec(self.dir_view(), candidate_name_of(self.name_view(), self.attempt_view())),
    {
        candidate_path(self.dir.as_str(), self.name.as_str(), self.attempt)
    }

    /// Moves to the next attempt; returns false, and stays, once the
    /// attempts are exhausted.
    pub fn advance(&mut self) -> (r: bool)
        requires
            old(self).wf(),
        ensures
            final(self).wf(),
            final(self).dir_view() == old(self).dir_view(),
            final(self).name_view() == old(self).name_view(),
            r == (old(self).attempt_view() < i64::MAX),
            final(self).attempt_view() == (if r {
                old(self).attempt_view() + 1
            } else {
                old(self).attempt_view()
            }),
    {
        if self.attempt < i64::MAX as u64 {
            self.attempt = self.attempt + 1;
            true
        } else {
            false
        }
    }
}

} // verus!
