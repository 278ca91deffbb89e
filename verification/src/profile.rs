//! A login profile on disk, and the ordered set of the profiles that a scan
//! found.

use crate::text::{components, join, joined, lemma_components_joined, split_components};
use vstd::prelude::*;

verus! {

/// What a profile is: the path of its file, and how many of the path's last
/// components lie beneath the root under which it was found.
pub struct ProfileView {
    pub path: Seq<char>,
    pub depth: nat,
}

impl ProfileView {
    /// The components of the whole path.
    pub open spec fn components(self) -> Seq<Seq<char>> {
        components(self.path)
    }

    /// The path has a file name, and the part beneath the root lies within it.
    pub open spec fn wf(self) -> bool {
        1 <= self.depth <= self.components().len()
    }

    /// The components beneath the root.
    pub open spec fn relative(self) -> Seq<Seq<char>> {
        self.components().skip(self.components().len() - self.depth)
    }

    /// The file name: the last component.
    pub open spec fn name(self) -> Seq<char> {
        self.components().last()
    }

    /// The profile of the file at `below` under `root`, if `below` names one.
    pub open spec fn found(root: Seq<char>, below: Seq<char>) -> Option<ProfileView> {
        if components(below).len() == 0 {
            None
        } else {
            Some(ProfileView { path: joined(root, below), depth: components(below).len() })
        }
    }

    /// The profile of a file given by itself, if the path names one. Only
    /// its file name counts as lying beneath a root.
    pub open spec fn file(path: Seq<char>) -> Option<ProfileView> {
        if components(path).len() == 0 {
            None
        } else {
            Some(ProfileView { path, depth: 1 })
        }
    }

    /// The token has components, and they are the last components of the
    /// path, each equal to its counterpart. A token without components names
    /// nothing.
    pub open spec fn named_by(self, token: Seq<Seq<char>>) -> bool {
        token.len() > 0 && token.is_suffix_of(self.components())
    }

    /// The token's components are exactly the components beneath the root.
    pub open spec fn exactly(self, token: Seq<Seq<char>>) -> bool {
        self.relative() == token
    }
}

/// A profile found under a root is well formed, and the components beneath
/// the root are those of the path it was found at.
pub proof fn lemma_found_wf(root: Seq<char>, below: Seq<char>)
    requires
        components(below).len() > 0,
    ensures
        ProfileView::found(root, below)->0.wf(),
        ProfileView::found(root, below)->0.relative() == components(below),
        ProfileView::found(root, below)->0.components() == components(root) + components(below),
{
    lemma_components_joined(root, below);
    let p = ProfileView::found(root, below)->0;
    assert(p.relative() =~= components(below));
}

/// Copies a list of strings.
pub fn copy_strings(list: &Vec<String>) -> (out: Vec<String>)
    ensures
        out@ == list@,
{
    let mut out: Vec<String> = Vec::new();
    let mut i: usize = 0;
    while i < list.len()
        invariant
            i <= list.len(),
            out@ == list@.take(i as int),
        decreases list.len() - i,
    {
        out.push(list[i].clone());
        assert(out@ =~= list@.take(i + 1));
        i += 1;
    }
    assert(list@.take(list.len() as int) =~= list@);
    out
}

/// One login profile: a file that becomes the active login data before the
/// game is launched. It never changes once made.
#[derive(Debug, PartialEq, Eq)]
pub struct Profile {
    path: String,
    parts: Vec<String>,
    depth: usize,
}

impl View for Profile {
    type V = ProfileView;

    closed spec fn view(&self) -> ProfileView {
        ProfileView { path: self.path@, depth: self.depth as nat }
    }
}

impl Clone for Profile {
    fn clone(&self) -> (copy: Self)
        ensures
            copy@ == self@,
    {
        proof {
            use_type_invariant(self);
        }
        let parts = copy_strings(&self.parts);
        assert(parts.deep_view() =~= self.parts.deep_view());
        Profile { path: self.path.clone(), parts, depth: self.depth }
    }
}

impl Profile {
    #[verifier::type_invariant]
    spec fn inv(self) -> bool {
        &&& self.parts.deep_view() == components(self.path@)
        &&& 1 <= self.depth <= self.parts.len()
    }

    /// The profile of the file at `below` under `root`; none if `below` has
    /// no component and so names no file.
    pub fn found(root: &str, below: &str) -> (made: Option<Profile>)
        ensures
            made is Some == ProfileView::found(root@, below@) is Some,
            made matches Some(p) ==> p@ == ProfileView::found(root@, below@)->0 && p@.wf(),
    {
        let depth = split_components(below).len();
        if depth == 0 {
            return None;
        }
        let path = join(root, below);
        let parts = split_components(path.as_str());
        proof {
            lemma_found_wf(root@, below@);
        }
        Some(Profile { path, parts, depth })
    }

    /// The profile of a file given by its own path; none if the path has no
    /// component.
    pub fn file(path: &str) -> (made: Option<Profile>)
        ensures
            made is Some == ProfileView::file(path@) is Some,
            made matches Some(p) ==> p@ == ProfileView::file(path@)->0 && p@.wf(),
    {
        let parts = split_components(path);
        if parts.len() == 0 {
            return None;
        }
        Some(Profile { path: path.to_owned(), parts, depth: 1 })
    }

    /// The path of the profile's file.
    pub fn path(&self) -> (path: &String)
        ensures
            path@ == self@.path,
            self@.wf(),
    {
        proof {
            use_type_invariant(self);
        }
        &self.path
    }

    /// The display name: the file name.
    pub fn name(&self) -> (name: &String)
        ensures
            name@ == self@.name(),
    {
        proof {
            use_type_invariant(self);
        }
        let name = &self.parts[self.parts.len() - 1];
        assert(name@ == self.parts.deep_view()[self.parts.len() - 1]);
        name
    }

    /// The components of the path, from the outermost directory to the file
    /// name.
    pub fn components(&self) -> (parts: &Vec<String>)
        ensures
            parts.deep_view() == self@.components(),
    {
        proof {
            use_type_invariant(self);
        }
        &self.parts
    }

    /// The components beneath the root under which the profile was found.
    pub fn relative(&self) -> (parts: Vec<String>)
        ensures
            parts.deep_view() == self@.relative(),
    {
        proof {
            use_type_invariant(self);
        }
        let first = self.parts.len() - self.depth;
        let mut parts: Vec<String> = Vec::new();
        let mut i: usize = first;
        while i < self.parts.len()
            invariant
                first <= i <= self.parts.len(),
                parts@ == self.parts@.subrange(first as int, i as int),
            decreases self.parts.len() - i,
        {
            parts.push(self.parts[i].clone());
            assert(parts@ =~= self.parts@.subrange(first as int, i + 1));
            i += 1;
        }
        assert(parts.deep_view() =~= self.parts.deep_view().skip(first as int));
        parts
    }

    /// Whether the token has components and they are the last components of
    /// the path.
    pub fn named_by(&self, token: &Vec<String>) -> (yes: bool)
        ensures
            yes == self@.named_by(token.deep_view()),
    {
        proof {
            use_type_invariant(self);
        }
        let n = self.parts.len();
        let k = token.len();
        if k == 0 || k > n {
            return false;
        }
        let ghost tail = self.parts.deep_view().subrange(n - k, n as int);
        let mut j: usize = 0;
        while j < k
            invariant
                k <= n,
                n == self.parts.len(),
                k == token.len(),
                j <= k,
                self.parts.deep_view() == self@.components(),
                tail == self.parts.deep_view().subrange(n - k, n as int),
                forall|i: int| 0 <= i < j ==> token.deep_view()[i] == tail[i],
            decreases k - j,
        {
            if token[j] != self.parts[n - k + j] {
                assert(token.deep_view()[j as int] != tail[j as int]);
                return false;
            }
            j += 1;
        }
        assert(token.deep_view() =~= tail);
        true
    }

    /// Whether the token's components are exactly those beneath the root.
    pub fn exactly(&self, token: &Vec<String>) -> (yes: bool)
        ensures
            yes == self@.exactly(token.deep_view()),
    {
        proof {
            use_type_invariant(self);
        }
        let matched = token.len() == self.depth && self.named_by(token);
        proof {
            let c = self@.components();
            assert(c.len() == self.parts.len());
            assert(self@.relative() =~= c.subrange(c.len() - self.depth, c.len() as int));
            assert(self@.relative().len() == self.depth);
        }
        matched
    }
}

} // verus!
