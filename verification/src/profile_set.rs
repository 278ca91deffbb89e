//! The profiles that a scan found: ordered by path, each path once.

use crate::profile::{Profile, ProfileView};
use crate::text::{
    comes_before, lemma_precedes_asymmetric, lemma_precedes_irreflexive, lemma_precedes_total,
    lemma_precedes_transitive, precedes,
};
use vstd::prelude::*;

verus! {

/// What each profile of a list is.
pub open spec fn views(list: Seq<Profile>) -> Seq<ProfileView> {
    list.map_values(|p: Profile| p@)
}

/// Each path comes before the paths behind it in dictionary order, so that
/// no path occurs twice.
pub open spec fn paths_ascend(s: Seq<ProfileView>) -> bool {
    forall|i: int, j: int| 0 <= i < j < s.len() ==> precedes(s[i].path, s[j].path)
}

/// The profiles at the given places of a list.
pub open spec fn picked(list: Seq<ProfileView>, places: Seq<usize>) -> Seq<ProfileView> {
    Seq::new(places.len(), |k: int| list[places[k] as int])
}

/// Every profile of the list is well formed.
pub open spec fn all_wf(s: Seq<ProfileView>) -> bool {
    forall|i: int| 0 <= i < s.len() ==> (#[trigger] s[i]).wf()
}

/// Some profile of the list has this path.
pub open spec fn has_path(s: Seq<ProfileView>, path: Seq<char>) -> bool {
    exists|i: int| 0 <= i < s.len() && (#[trigger] s[i]).path == path
}

/// How many paths of the list come before `path`.
pub open spec fn rank(s: Seq<ProfileView>, path: Seq<char>) -> int
    decreases s.len(),
{
    if s.len() == 0 {
        0
    } else {
        rank(s.drop_last(), path) + if precedes(s.last().path, path) {
            1int
        } else {
            0int
        }
    }
}

/// The list with one more profile: unchanged if its path is there already,
/// else with the profile behind the paths that come before its own.
pub open spec fn with_profile(s: Seq<ProfileView>, p: ProfileView) -> Seq<ProfileView> {
    if has_path(s, p.path) {
        s
    } else {
        s.insert(rank(s, p.path), p)
    }
}

/// The set made of the candidates, taken one by one from the first on.
pub open spec fn collect(candidates: Seq<ProfileView>) -> Seq<ProfileView>
    decreases candidates.len(),
{
    if candidates.len() == 0 {
        Seq::empty()
    } else {
        with_profile(collect(candidates.drop_last()), candidates.last())
    }
}

/// The rank of a path lies within the list.
proof fn lemma_rank_bounds(s: Seq<ProfileView>, path: Seq<char>)
    ensures
        0 <= rank(s, path) <= s.len(),
    decreases s.len(),
{
    if s.len() > 0 {
        lemma_rank_bounds(s.drop_last(), path);
    }
}

/// Where the first `k` paths come before `path` and the others do not, the
/// rank of `path` is `k`.
proof fn lemma_rank_is_split(s: Seq<ProfileView>, path: Seq<char>, k: int)
    requires
        0 <= k <= s.len(),
        forall|i: int| 0 <= i < k ==> precedes(#[trigger] s[i].path, path),
        forall|i: int| k <= i < s.len() ==> !precedes(#[trigger] s[i].path, path),
    ensures
        rank(s, path) == k,
    decreases s.len(),
{
    if s.len() > 0 {
        let t = s.drop_last();
        if k == s.len() {
            lemma_rank_is_split(t, path, k - 1);
        } else {
            lemma_rank_is_split(t, path, k);
        }
    }
}

/// In an ascending list, the profiles in front of the rank of `path` come
/// before it, and those from the rank on do not.
proof fn lemma_rank_splits(s: Seq<ProfileView>, path: Seq<char>)
    requires
        paths_ascend(s),
    ensures
        0 <= rank(s, path) <= s.len(),
        forall|i: int| 0 <= i < rank(s, path) ==> precedes(#[trigger] s[i].path, path),
        forall|i: int| rank(s, path) <= i < s.len() ==> !precedes(#[trigger] s[i].path, path),
    decreases s.len(),
{
    if s.len() > 0 {
        let t = s.drop_last();
        assert(paths_ascend(t));
        lemma_rank_splits(t, path);
        let k = rank(t, path);
        if precedes(s.last().path, path) {
            assert forall|i: int| 0 <= i < s.len() implies precedes(
                #[trigger] s[i].path,
                path,
            ) by {
                if i < s.len() - 1 {
                    lemma_precedes_transitive(s[i].path, s.last().path, path);
                }
            }
            lemma_rank_is_split(t, path, t.len() as int);
        } else {
            assert forall|i: int| 0 <= i < k implies precedes(#[trigger] s[i].path, path) by {
                assert(s[i] == t[i]);
            }
            assert forall|i: int| k <= i < s.len() implies !precedes(
                #[trigger] s[i].path,
                path,
            ) by {
                if i < s.len() - 1 {
                    assert(s[i] == t[i]);
                }
            }
        }
    }
}

/// Adding a profile keeps an ascending list ascending and well formed.
pub proof fn lemma_with_profile_ascends(s: Seq<ProfileView>, p: ProfileView)
    requires
        paths_ascend(s),
    ensures
        paths_ascend(with_profile(s, p)),
        all_wf(s) && p.wf() ==> all_wf(with_profile(s, p)),
{
    let w = with_profile(s, p);
    if !has_path(s, p.path) {
        let k = rank(s, p.path);
        lemma_rank_splits(s, p.path);
        assert forall|i: int| k <= i < s.len() implies precedes(p.path, #[trigger] s[i].path) by {
            lemma_precedes_total(p.path, s[i].path);
        }
        assert forall|i: int, j: int| 0 <= i < j < w.len() implies precedes(
            w[i].path,
            w[j].path,
        ) by {
            let a = if i < k {
                s[i]
            } else if i == k {
                p
            } else {
                s[i - 1]
            };
            let b = if j < k {
                s[j]
            } else if j == k {
                p
            } else {
                s[j - 1]
            };
            assert(w[i] == a);
            assert(w[j] == b);
        }
        if all_wf(s) && p.wf() {
            assert forall|j: int| 0 <= j < w.len() implies (#[trigger] w[j]).wf() by {
                if j < k {
                    assert(s[j] == w[j]);
                } else if j > k {
                    assert(s[j - 1] == w[j]);
                }
            }
        }
    }
}

/// Adding a profile adds its path to the paths of the list and no other.
pub proof fn lemma_with_profile_paths(s: Seq<ProfileView>, p: ProfileView, path: Seq<char>)
    requires
        paths_ascend(s),
    ensures
        has_path(with_profile(s, p), path) <==> (has_path(s, path) || path == p.path),
{
    let w = with_profile(s, p);
    if !has_path(s, p.path) {
        let k = rank(s, p.path);
        lemma_rank_bounds(s, p.path);
        assert(w[k] == p);
        if has_path(w, path) {
            let j = choose|j: int| 0 <= j < w.len() && (#[trigger] w[j]).path == path;
            if j < k {
                assert(s[j].path == path);
            } else if j > k {
                assert(s[j - 1].path == path);
            }
        }
        if has_path(s, path) {
            let i = choose|i: int| 0 <= i < s.len() && (#[trigger] s[i]).path == path;
            if i < k {
                assert(w[i].path == path);
            } else {
                assert(w[i + 1].path == path);
            }
        }
    }
}

/// Adding a profile keeps every profile that was there, and adds nothing
/// but the profile itself.
pub proof fn lemma_with_profile_members(s: Seq<ProfileView>, p: ProfileView, q: ProfileView)
    requires
        paths_ascend(s),
    ensures
        s.contains(q) ==> with_profile(s, p).contains(q),
        with_profile(s, p).contains(q) ==> s.contains(q) || q == p,
        !has_path(s, p.path) ==> with_profile(s, p).contains(p),
{
    let w = with_profile(s, p);
    if !has_path(s, p.path) {
        let k = rank(s, p.path);
        lemma_rank_bounds(s, p.path);
        assert(w[k] == p);
        if s.contains(q) {
            let i = choose|i: int| 0 <= i < s.len() && s[i] == q;
            if i < k {
                assert(w[i] == q);
            } else {
                assert(w[i + 1] == q);
            }
        }
        if w.contains(q) {
            let j = choose|j: int| 0 <= j < w.len() && w[j] == q;
            if j < k {
                assert(s[j] == q);
            } else if j > k {
                assert(s[j - 1] == q);
            }
        }
    }
}

/// The set made of any candidates is in ascending order of paths.
pub proof fn lemma_collect_ascends(candidates: Seq<ProfileView>)
    ensures
        paths_ascend(collect(candidates)),
        all_wf(candidates) ==> all_wf(collect(candidates)),
    decreases candidates.len(),
{
    if candidates.len() > 0 {
        let front = candidates.drop_last();
        lemma_collect_ascends(front);
        lemma_with_profile_ascends(collect(front), candidates.last());
        if all_wf(candidates) {
            assert forall|i: int| 0 <= i < front.len() implies (#[trigger] front[i]).wf() by {
                assert(front[i] == candidates[i]);
            }
        }
    }
}

/// The set holds a path exactly if a candidate has it.
pub proof fn lemma_collect_paths(candidates: Seq<ProfileView>, path: Seq<char>)
    ensures
        has_path(collect(candidates), path) <==> has_path(candidates, path),
    decreases candidates.len(),
{
    if candidates.len() > 0 {
        let front = candidates.drop_last();
        let last = candidates.last();
        lemma_collect_ascends(front);
        lemma_collect_paths(front, path);
        lemma_with_profile_paths(collect(front), last, path);
        if has_path(front, path) {
            let i = choose|i: int| 0 <= i < front.len() && (#[trigger] front[i]).path == path;
            assert(candidates[i].path == path);
        }
        if has_path(candidates, path) && path != last.path {
            let i = choose|i: int|
                0 <= i < candidates.len() && (#[trigger] candidates[i]).path == path;
            assert(front[i].path == path);
        }
    }
}

/// `q` is the first of the candidates with its path.
pub open spec fn first_with_path(candidates: Seq<ProfileView>, q: ProfileView) -> bool {
    exists|i: int|
        0 <= i < candidates.len() && #[trigger] candidates[i] == q && forall|j: int|
            0 <= j < i ==> (#[trigger] candidates[j]).path != q.path
}

/// The set holds, for each path, the first candidate that has it, and
/// nothing else.
pub proof fn lemma_collect_keeps_first(candidates: Seq<ProfileView>, q: ProfileView)
    ensures
        collect(candidates).contains(q) <==> first_with_path(candidates, q),
    decreases candidates.len(),
{
    if candidates.len() > 0 {
        let front = candidates.drop_last();
        let last = candidates.last();
        let n = front.len() as int;
        lemma_collect_ascends(front);
        lemma_collect_keeps_first(front, q);
        lemma_collect_paths(front, last.path);
        lemma_collect_paths(front, q.path);
        lemma_with_profile_members(collect(front), last, q);
        if first_with_path(front, q) {
            let i = choose|i: int|
                0 <= i < front.len() && #[trigger] front[i] == q && forall|j: int|
                    0 <= j < i ==> (#[trigger] front[j]).path != q.path;
            assert(candidates[i] == q);
            assert forall|j: int| 0 <= j < i implies (#[trigger] candidates[j]).path
                != q.path by {
                assert(front[j] == candidates[j]);
            }
        }
        if first_with_path(candidates, q) {
            let i = choose|i: int|
                0 <= i < candidates.len() && #[trigger] candidates[i] == q && forall|j: int|
                    0 <= j < i ==> (#[trigger] candidates[j]).path != q.path;
            if i < n {
                assert(front[i] == q);
                assert forall|j: int| 0 <= j < i implies (#[trigger] front[j]).path
                    != q.path by {
                    assert(front[j] == candidates[j]);
                }
                assert(first_with_path(front, q));
            } else {
                assert(q == last);
                if has_path(front, last.path) {
                    let j = choose|j: int|
                        0 <= j < front.len() && (#[trigger] front[j]).path == last.path;
                    assert(candidates[j].path == q.path);
                }
            }
        }
        if collect(candidates).contains(q) && !collect(front).contains(q) {
            assert(q == last);
            assert(!has_path(collect(front), last.path));
            assert forall|j: int| 0 <= j < n implies (#[trigger] candidates[j]).path
                != q.path by {
                assert(front[j].path == candidates[j].path);
            }
            assert(candidates[n] == q);
        }
    }
}

/// The discovered profiles: in dictionary order of their paths, no path
/// twice.
#[derive(Debug)]
pub struct ProfileSet {
    items: Vec<Profile>,
}

impl View for ProfileSet {
    type V = Seq<ProfileView>;

    closed spec fn view(&self) -> Seq<ProfileView> {
        views(self.items@)
    }
}

impl ProfileSet {
    #[verifier::type_invariant]
    spec fn inv(self) -> bool {
        paths_ascend(views(self.items@)) && all_wf(views(self.items@))
    }

    /// The set without any profile.
    pub fn new() -> (set: ProfileSet)
        ensures
            set@ == Seq::<ProfileView>::empty(),
    {
        let set = ProfileSet { items: Vec::new() };
        assert(set@ =~= Seq::<ProfileView>::empty());
        set
    }

    /// The set made of the given profiles. Where several have the same path
    /// the first of them stays.
    pub fn gather(candidates: Vec<Profile>) -> (set: ProfileSet)
        ensures
            set@ == collect(views(candidates@)),
    {
        let ghost all = views(candidates@);
        let mut rest = candidates;
        let mut turned: Vec<Profile> = Vec::new();
        while rest.len() > 0
            invariant
                rest.len() + turned.len() == all.len(),
                views(rest@) == all.take(rest.len() as int),
                forall|k: int|
                    0 <= k < turned.len() ==> (#[trigger] turned@[k])@ == all[all.len() - 1 - k],
            decreases rest.len(),
        {
            let ghost before = views(rest@);
            let last = rest.pop().unwrap();
            assert(last@ == before[before.len() - 1]);
            assert(views(rest@) =~= all.take(rest.len() as int));
            turned.push(last);
        }
        let mut set = ProfileSet::new();
        assert(all.take(0) =~= Seq::<ProfileView>::empty());
        while turned.len() > 0
            invariant
                turned.len() <= all.len(),
                forall|k: int|
                    0 <= k < turned.len() ==> (#[trigger] turned@[k])@ == all[all.len() - 1 - k],
                set@ == collect(all.take(all.len() - turned.len())),
            decreases turned.len(),
        {
            let ghost done = all.len() - turned.len();
            let next = turned.pop().unwrap();
            assert(next@ == all[done]);
            assert(all.take(done + 1).drop_last() =~= all.take(done));
            assert(all.take(done + 1).last() == all[done]);
            set.insert(next);
        }
        assert(all.take(all.len() as int) =~= all);
        set
    }

    /// The number of profiles.
    pub fn len(&self) -> (n: usize)
        ensures
            n == self@.len(),
    {
        self.items.len()
    }

    /// The profiles in order.
    pub fn profiles(&self) -> (list: &Vec<Profile>)
        ensures
            views(list@) == self@,
            paths_ascend(self@),
            all_wf(self@),
    {
        proof {
            use_type_invariant(self);
        }
        &self.items
    }

    /// The profiles at the given places, in the order of the places and as
    /// often as a place is given; none if a place lies outside the set.
    pub fn pick(&self, places: &Vec<usize>) -> (list: Option<Vec<Profile>>)
        ensures
            list is Some == forall|k: int|
                0 <= k < places.len() ==> (#[trigger] places@[k]) < self@.len(),
            list matches Some(chosen) ==> views(chosen@) == picked(self@, places@),
    {
        let mut chosen: Vec<Profile> = Vec::new();
        let mut k: usize = 0;
        while k < places.len()
            invariant
                k <= places.len(),
                forall|j: int| 0 <= j < k ==> (#[trigger] places@[j]) < self@.len(),
                views(chosen@) == picked(self@, places@.take(k as int)),
            decreases places.len() - k,
        {
            let place = places[k];
            if place >= self.items.len() {
                return None;
            }
            let ghost before = views(chosen@);
            let copy = self.items[place].clone();
            chosen.push(copy);
            assert(views(chosen@) =~= before.push(copy@));
            assert(views(chosen@) =~= picked(self@, places@.take(k + 1)));
            k += 1;
        }
        assert(places@.take(places.len() as int) =~= places@);
        Some(chosen)
    }

    /// Adds a profile, unless one with its path is there already. Says
    /// whether it was added.
    pub fn insert(&mut self, profile: Profile) -> (added: bool)
        ensures
            final(self)@ == with_profile(old(self)@, profile@),
            added == !has_path(old(self)@, profile@.path),
    {
        proof {
            use_type_invariant(&*self);
        }
        let ghost s = self@;
        let ghost p = profile@;
        let n = self.items.len();
        let mut k: usize = 0;
        while k < n && comes_before(self.items[k].path().as_str(), profile.path().as_str())
            invariant
                n == self.items.len(),
                k <= n,
                s == views(self.items@),
                p == profile@,
                forall|i: int| 0 <= i < k ==> precedes(#[trigger] s[i].path, p.path),
            decreases n - k,
        {
            k += 1;
        }
        let wanted = profile.path();
        assert(p.wf());
        if k < n && *self.items[k].path() == *wanted {
            assert(s[k as int].path == p.path);
            return false;
        }
        proof {
            assert forall|i: int| k <= i < s.len() implies !precedes(
                #[trigger] s[i].path,
                p.path,
            ) && s[i].path != p.path by {
                lemma_precedes_total(s[k as int].path, p.path);
                if i > k {
                    lemma_precedes_transitive(p.path, s[k as int].path, s[i].path);
                }
                lemma_precedes_asymmetric(p.path, s[i].path);
                lemma_precedes_irreflexive(p.path);
            }
            assert forall|i: int| 0 <= i < k implies s[i].path != p.path by {
                lemma_precedes_irreflexive(p.path);
            }
            lemma_rank_is_split(s, p.path, k as int);
            lemma_with_profile_ascends(s, p);
        }
        let mut items: Vec<Profile> = Vec::new();
        assert(views(items@) =~= Seq::<ProfileView>::empty());
        core::mem::swap(&mut self.items, &mut items);
        items.insert(k, profile);
        assert(views(items@) =~= s.insert(k as int, p));
        core::mem::swap(&mut self.items, &mut items);
        true
    }
}

} // verus!
