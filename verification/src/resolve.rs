//! Resolution: from the tokens that the user gave to the profiles they name.

use crate::error::Error;
use crate::profile::{Profile, ProfileView};
use crate::profile_set::{picked, views, ProfileSet};
use crate::text::{components, split_components};
use vstd::prelude::*;

verus! {

/// The test "the token's components end the profile's path".
pub open spec fn names(token: Seq<Seq<char>>) -> spec_fn(ProfileView) -> bool {
    |p: ProfileView| p.named_by(token)
}

/// The test "the token's components are the profile's path beneath its
/// root".
pub open spec fn spells(token: Seq<Seq<char>>) -> spec_fn(ProfileView) -> bool {
    |p: ProfileView| p.exactly(token)
}

/// What a token comes to in a set of profiles.
pub enum Resolution {
    /// The token names this profile.
    Found(ProfileView),
    /// No profile's path ends with the token.
    NotFound,
    /// The paths of these profiles end with the token, and the token does
    /// not single one of them out.
    Ambiguous(Seq<ProfileView>),
}

/// Resolves a token. The candidates are the profiles whose path ends with
/// the token's components, in the order of the set. One candidate is the
/// answer. Of several, the answer is the one whose whole path beneath its
/// root the token spells out, if there is exactly one such.
pub open spec fn resolution(set: Seq<ProfileView>, token: Seq<char>) -> Resolution {
    let parts = components(token);
    let named = set.filter(names(parts));
    let exact = named.filter(spells(parts));
    if named.len() == 0 {
        Resolution::NotFound
    } else if named.len() == 1 {
        Resolution::Found(named[0])
    } else if exact.len() == 1 {
        Resolution::Found(exact[0])
    } else {
        Resolution::Ambiguous(named)
    }
}

/// The paths of the profiles of a list.
pub open spec fn paths_of(list: Seq<ProfileView>) -> Seq<Seq<char>> {
    list.map_values(|p: ProfileView| p.path)
}

/// The error says what went wrong with the token: it was not found, or it
/// is ambiguous among the candidates whose paths the error lists.
pub open spec fn reports(error: Error, set: Seq<ProfileView>, token: Seq<char>) -> bool {
    match resolution(set, token) {
        Resolution::Found(_) => false,
        Resolution::NotFound => error matches Error::ProfileNotFound(t) && t@ == token,
        Resolution::Ambiguous(candidates) => {
            &&& error matches Error::AmbiguousProfile(t, paths)
            &&& t@ == token
            &&& paths.deep_view() == paths_of(candidates)
        },
    }
}

/// The result is what the token comes to.
pub open spec fn answers(
    result: Result<Profile, Error>,
    set: Seq<ProfileView>,
    token: Seq<char>,
) -> bool {
    match result {
        Ok(profile) => resolution(set, token) == Resolution::Found(profile@),
        Err(error) => reports(error, set, token),
    }
}

/// Resolves one token against the discovered profiles.
pub fn resolve_token(set: &ProfileSet, token: &str) -> (result: Result<Profile, Error>)
    ensures
        answers(result, set@, token@),
{
    let parts = split_components(token);
    let list = set.profiles();
    let ghost all = set@;
    let ghost wanted = parts.deep_view();
    let mut named: Vec<usize> = Vec::new();
    let mut exact: Vec<usize> = Vec::new();
    let mut i: usize = 0;
    proof {
        reveal(Seq::filter);
        assert(all.take(0).filter(names(wanted)) =~= picked(all, named@));
        assert(all.take(0).filter(names(wanted)).filter(spells(wanted)) =~= picked(all, exact@));
    }
    while i < list.len()
        invariant
            i <= list.len(),
            all == views(list@),
            wanted == parts.deep_view(),
            forall|k: int| 0 <= k < named.len() ==> named@[k] < i,
            forall|k: int| 0 <= k < exact.len() ==> exact@[k] < i,
            picked(all, named@) == all.take(i as int).filter(names(wanted)),
            picked(all, exact@) == all.take(i as int).filter(names(wanted)).filter(spells(wanted)),
        decreases list.len() - i,
    {
        let ghost seen = all.take(i as int);
        let ghost here = all[i as int];
        proof {
            assert(all.take(i + 1) =~= seen.push(here));
            seen.lemma_filter_push(here, names(wanted));
            seen.filter(names(wanted)).lemma_filter_push(here, spells(wanted));
        }
        if list[i].named_by(&parts) {
            let ghost before = named@;
            named.push(i);
            assert(picked(all, named@) =~= picked(all, before).push(here));
            if list[i].exactly(&parts) {
                let ghost before = exact@;
                exact.push(i);
                assert(picked(all, exact@) =~= picked(all, before).push(here));
            }
        }
        i += 1;
    }
    assert(all.take(list.len() as int) =~= all);
    let ghost candidates = all.filter(names(wanted));
    if named.len() == 0 {
        Err(Error::ProfileNotFound(token.to_owned()))
    } else if named.len() == 1 {
        assert(candidates[0] == all[named@[0] as int]);
        Ok(list[named[0]].clone())
    } else if exact.len() == 1 {
        assert(candidates.filter(spells(wanted))[0] == all[exact@[0] as int]);
        Ok(list[exact[0]].clone())
    } else {
        let mut paths: Vec<String> = Vec::new();
        let mut k: usize = 0;
        while k < named.len()
            invariant
                k <= named.len(),
                all == views(list@),
                forall|j: int| 0 <= j < named.len() ==> named@[j] < list.len(),
                candidates == picked(all, named@),
                paths.deep_view() == paths_of(candidates.take(k as int)),
            decreases named.len() - k,
        {
            let ghost before = paths.deep_view();
            let path = list[named[k]].path().clone();
            paths.push(path);
            assert(paths.deep_view() =~= before.push(candidates[k as int].path));
            assert(paths.deep_view() =~= paths_of(candidates.take(k + 1)));
            k += 1;
        }
        assert(candidates.take(named.len() as int) =~= candidates);
        Err(Error::AmbiguousProfile(token.to_owned(), paths))
    }
}

/// Filtering keeps nothing exactly if nothing passes the test.
proof fn lemma_filter_none<A>(s: Seq<A>, test: spec_fn(A) -> bool)
    ensures
        s.filter(test).len() == 0 <==> forall|i: int| 0 <= i < s.len() ==> !test(#[trigger] s[i]),
    decreases s.len(),
{
    reveal(Seq::filter);
    if s.len() > 0 {
        let front = s.drop_last();
        lemma_filter_none(front, test);
        if forall|i: int| 0 <= i < s.len() ==> !test(#[trigger] s[i]) {
            assert forall|i: int| 0 <= i < front.len() implies !test(#[trigger] front[i]) by {
                assert(front[i] == s[i]);
            }
        }
        if s.filter(test).len() == 0 {
            assert forall|i: int| 0 <= i < s.len() implies !test(#[trigger] s[i]) by {
                if i < front.len() {
                    assert(front[i] == s[i]);
                }
            }
        }
    }
}

/// Where one place alone passes the test, filtering keeps what is there.
proof fn lemma_filter_one<A>(s: Seq<A>, test: spec_fn(A) -> bool, i: int)
    requires
        0 <= i < s.len(),
        test(s[i]),
        forall|j: int| 0 <= j < s.len() && j != i ==> !test(#[trigger] s[j]),
    ensures
        s.filter(test) == seq![s[i]],
    decreases s.len(),
{
    reveal(Seq::filter);
    let front = s.drop_last();
    if i == s.len() - 1 {
        lemma_filter_none(front, test);
        assert forall|j: int| 0 <= j < front.len() implies !test(#[trigger] front[j]) by {
            assert(front[j] == s[j]);
        }
        assert(s.filter(test) =~= seq![s[i]]);
    } else {
        assert(front[i] == s[i]);
        assert forall|j: int| 0 <= j < front.len() && j != i implies !test(
            #[trigger] front[j],
        ) by {
            assert(front[j] == s[j]);
        }
        lemma_filter_one(front, test, i);
    }
}

/// Where two places pass the test, filtering keeps at least two.
proof fn lemma_filter_two<A>(s: Seq<A>, test: spec_fn(A) -> bool, i: int, j: int)
    requires
        0 <= i < j < s.len(),
        test(s[i]),
        test(s[j]),
    ensures
        s.filter(test).len() >= 2,
    decreases s.len(),
{
    reveal(Seq::filter);
    let front = s.drop_last();
    if j == s.len() - 1 {
        lemma_filter_none(front, test);
        assert(test(front[i]));
    } else {
        assert(front[i] == s[i]);
        assert(front[j] == s[j]);
        lemma_filter_two(front, test, i, j);
    }
}

/// Filtering twice is filtering by both tests.
proof fn lemma_filter_twice<A>(
    s: Seq<A>,
    first: spec_fn(A) -> bool,
    second: spec_fn(A) -> bool,
    both: spec_fn(A) -> bool,
)
    requires
        forall|x: A| #[trigger] both(x) == (first(x) && second(x)),
    ensures
        s.filter(first).filter(second) == s.filter(both),
    decreases s.len(),
{
    reveal(Seq::filter);
    if s.len() > 0 {
        let front = s.drop_last();
        lemma_filter_twice(front, first, second, both);
        if first(s.last()) {
            front.filter(first).lemma_filter_push(s.last(), second);
        }
    } else {
        assert(s.filter(first) =~= s);
    }
}

/// A token that spells out the path of a profile beneath its root also ends
/// the profile's whole path.
pub proof fn lemma_spelled_is_named(profile: ProfileView, token: Seq<Seq<char>>)
    requires
        profile.wf(),
        profile.exactly(token),
    ensures
        profile.named_by(token),
{
    let c = profile.components();
    assert(c.skip(c.len() - profile.depth) =~= c.subrange(c.len() - token.len(), c.len() as int));
}

/// What is kept by a filter is in the list and passes the test.
proof fn lemma_filter_kept<A>(s: Seq<A>, test: spec_fn(A) -> bool, k: int)
    requires
        0 <= k < s.filter(test).len(),
    ensures
        s.contains(s.filter(test)[k]),
        test(s.filter(test)[k]),
    decreases s.len(),
{
    reveal(Seq::filter);
    if s.len() > 0 {
        let front = s.drop_last();
        if k < front.filter(test).len() {
            lemma_filter_kept(front, test, k);
            let i = choose|i: int| 0 <= i < front.len() && front[i] == front.filter(test)[k];
            assert(s[i] == front[i]);
        } else {
            assert(s[s.len() - 1] == s.last());
        }
    }
}

/// Resolution answers only with profiles of the set whose paths end with
/// the token, and calls a token ambiguous only among two or more.
pub proof fn lemma_resolution_is_sound(set: Seq<ProfileView>, token: Seq<char>)
    ensures
        match resolution(set, token) {
            Resolution::Found(p) => set.contains(p) && p.named_by(components(token)),
            Resolution::NotFound => true,
            Resolution::Ambiguous(candidates) => candidates.len() >= 2 && forall|k: int|
                0 <= k < candidates.len() ==> set.contains(#[trigger] candidates[k])
                    && candidates[k].named_by(components(token)),
        },
{
    let parts = components(token);
    let named = set.filter(names(parts));
    let exact = named.filter(spells(parts));
    assert forall|k: int| 0 <= k < named.len() implies set.contains(#[trigger] named[k])
        && named[k].named_by(parts) by {
        lemma_filter_kept(set, names(parts), k);
    }
    if exact.len() == 1 {
        lemma_filter_kept(named, spells(parts), 0);
        let i = choose|i: int| 0 <= i < named.len() && named[i] == exact[0];
        assert(set.contains(named[i]));
    }
}

/// A token with which no path ends is not found.
pub proof fn lemma_unmatched_is_not_found(set: Seq<ProfileView>, token: Seq<char>)
    requires
        forall|i: int| 0 <= i < set.len() ==> !(#[trigger] set[i]).named_by(components(token)),
    ensures
        resolution(set, token) == Resolution::NotFound,
{
    lemma_filter_none(set, names(components(token)));
}

/// A token with which the path of one profile alone ends names that
/// profile.
pub proof fn lemma_single_match_is_found(set: Seq<ProfileView>, token: Seq<char>, i: int)
    requires
        0 <= i < set.len(),
        set[i].named_by(components(token)),
        forall|j: int|
            0 <= j < set.len() && j != i ==> !(#[trigger] set[j]).named_by(components(token)),
    ensures
        resolution(set, token) == Resolution::Found(set[i]),
{
    lemma_filter_one(set, names(components(token)), i);
}

/// A token with which several paths end, and which spells out the path
/// beneath the root of one profile alone, names that profile.
pub proof fn lemma_spelled_match_is_found(set: Seq<ProfileView>, token: Seq<char>, i: int)
    requires
        0 <= i < set.len(),
        set[i].named_by(components(token)),
        set[i].exactly(components(token)),
        forall|j: int|
            0 <= j < set.len() && j != i ==> !((#[trigger] set[j]).named_by(components(token))
                && set[j].exactly(components(token))),
    ensures
        resolution(set, token) == Resolution::Found(set[i]),
{
    let parts = components(token);
    let both = |p: ProfileView| p.named_by(parts) && p.exactly(parts);
    lemma_filter_twice(set, names(parts), spells(parts), both);
    lemma_filter_one(set, both, i);
    lemma_filter_none(set, names(parts));
    let named = set.filter(names(parts));
    if named.len() == 1 {
        set.lemma_filter_contains(names(parts), i);
        let k = choose|k: int| 0 <= k < named.len() && named[k] == set[i];
        assert(named[0] == set[i]);
    }
}

/// A token with which the paths of two profiles end, and which spells out
/// the path beneath the root of none of the set, or of two, is ambiguous
/// among all the profiles whose paths end with it.
pub proof fn lemma_several_matches_are_ambiguous(
    set: Seq<ProfileView>,
    token: Seq<char>,
    i: int,
    j: int,
)
    requires
        0 <= i < j < set.len(),
        set[i].named_by(components(token)),
        set[j].named_by(components(token)),
        (set[i].exactly(components(token)) && set[j].exactly(components(token))) || forall|
            k: int,
        |
            0 <= k < set.len() ==> !((#[trigger] set[k]).named_by(components(token))
                && set[k].exactly(components(token))),
    ensures
        resolution(set, token) == Resolution::Ambiguous(set.filter(names(components(token)))),
{
    let parts = components(token);
    let both = |p: ProfileView| p.named_by(parts) && p.exactly(parts);
    lemma_filter_two(set, names(parts), i, j);
    lemma_filter_twice(set, names(parts), spells(parts), both);
    if set[i].exactly(parts) && set[j].exactly(parts) {
        lemma_filter_two(set, both, i, j);
    } else {
        lemma_filter_none(set, both);
    }
}

/// Every token up to `count` names a profile, and `list` holds them in the
/// order of the tokens.
pub open spec fn resolved(
    list: Seq<ProfileView>,
    set: Seq<ProfileView>,
    tokens: Seq<String>,
    count: int,
) -> bool {
    &&& list.len() == count
    &&& forall|k: int|
        0 <= k < count ==> resolution(set, (#[trigger] tokens[k])@) == Resolution::Found(list[k])
}

/// Resolves the tokens in the order given. A profile that several tokens
/// name occurs as often as it is named. The first token that names no
/// profile, or not one alone, ends the resolution with its error.
pub fn resolve(set: &ProfileSet, tokens: &Vec<String>) -> (result: Result<Vec<Profile>, Error>)
    ensures
        match result {
            Ok(list) => resolved(views(list@), set@, tokens@, tokens.len() as int),
            Err(error) => exists|k: int|
                0 <= k < tokens.len() && reports(error, set@, (#[trigger] tokens@[k])@)
                    && exists|front: Seq<ProfileView>| resolved(front, set@, tokens@, k),
        },
{
    let mut list: Vec<Profile> = Vec::new();
    let mut i: usize = 0;
    assert(resolved(views(list@), set@, tokens@, 0));
    while i < tokens.len()
        invariant
            i <= tokens.len(),
            resolved(views(list@), set@, tokens@, i as int),
        decreases tokens.len() - i,
    {
        match resolve_token(set, tokens[i].as_str()) {
            Ok(profile) => {
                let ghost before = views(list@);
                list.push(profile);
                assert(views(list@) =~= before.push(profile@));
            },
            Err(error) => {
                assert(reports(error, set@, tokens@[i as int]@));
                return Err(error);
            },
        }
        i += 1;
    }
    Ok(list)
}

} // verus!
