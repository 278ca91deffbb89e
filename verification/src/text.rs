//! Text as sequences of characters: the order of paths, the components of a
//! path, and the joining of a root with a path beneath it.

use vstd::prelude::*;
use vstd::std_specs::iter::IteratorSpec;
use vstd::string::*;

verus! {

/// The character that separates the components of a path.
pub open spec fn is_separator(c: char) -> bool {
    c == '/'
}

/// `a` comes strictly before `b` in dictionary order, character by character,
/// a proper prefix before what extends it.
pub open spec fn precedes(a: Seq<char>, b: Seq<char>) -> bool
    decreases a.len(),
{
    if b.len() == 0 {
        false
    } else if a.len() == 0 {
        true
    } else if a[0] != b[0] {
        (a[0] as u32) < (b[0] as u32)
    } else {
        precedes(a.drop_first(), b.drop_first())
    }
}

/// Different characters have different code points.
proof fn lemma_codes_differ(c: char, d: char)
    ensures
        c != d ==> c as u32 != d as u32,
{
}

/// Nothing comes before itself.
pub proof fn lemma_precedes_irreflexive(a: Seq<char>)
    ensures
        !precedes(a, a),
    decreases a.len(),
{
    if a.len() > 0 {
        lemma_precedes_irreflexive(a.drop_first());
    }
}

/// Of two different texts one comes before the other.
pub proof fn lemma_precedes_total(a: Seq<char>, b: Seq<char>)
    ensures
        a == b || precedes(a, b) || precedes(b, a),
    decreases a.len(),
{
    if a.len() == 0 || b.len() == 0 {
        if a.len() == 0 && b.len() == 0 {
            assert(a =~= b);
        }
    } else if a[0] == b[0] {
        lemma_precedes_total(a.drop_first(), b.drop_first());
        if a.drop_first() == b.drop_first() {
            assert(a =~= seq![a[0]] + a.drop_first());
            assert(b =~= seq![b[0]] + b.drop_first());
        }
    } else {
        lemma_codes_differ(a[0], b[0]);
    }
}

/// The order is transitive.
pub proof fn lemma_precedes_transitive(a: Seq<char>, b: Seq<char>, c: Seq<char>)
    requires
        precedes(a, b),
        precedes(b, c),
    ensures
        precedes(a, c),
    decreases a.len(),
{
    if a.len() > 0 && a[0] == b[0] && b[0] == c[0] {
        lemma_precedes_transitive(a.drop_first(), b.drop_first(), c.drop_first());
    }
}

/// No text comes both before and after another.
pub proof fn lemma_precedes_asymmetric(a: Seq<char>, b: Seq<char>)
    requires
        precedes(a, b),
    ensures
        !precedes(b, a),
{
    if precedes(b, a) {
        lemma_precedes_transitive(a, b, a);
        lemma_precedes_irreflexive(a);
    }
}

/// What two texts have in common up to `k` decides nothing: their order is
/// that of what follows.
proof fn lemma_precedes_skip(a: Seq<char>, b: Seq<char>, k: int)
    requires
        0 <= k <= a.len(),
        k <= b.len(),
        a.take(k) == b.take(k),
    ensures
        precedes(a, b) == precedes(a.skip(k), b.skip(k)),
    decreases k,
{
    if k == 0 {
        assert(a.skip(0) =~= a);
        assert(b.skip(0) =~= b);
    } else {
        assert(a[0] == a.take(k)[0]);
        assert(b[0] == b.take(k)[0]);
        assert(a.drop_first().take(k - 1) =~= a.take(k).drop_first());
        assert(b.drop_first().take(k - 1) =~= b.take(k).drop_first());
        lemma_precedes_skip(a.drop_first(), b.drop_first(), k - 1);
        assert(a.drop_first().skip(k - 1) =~= a.skip(k));
        assert(b.drop_first().skip(k - 1) =~= b.skip(k));
    }
}

/// Copies the characters of `s` into a vector.
pub fn chars_of(s: &str) -> (out: Vec<char>)
    ensures
        out@ == s@,
{
    broadcast use vstd::string::group_string_axioms;

    let n = s.unicode_len();
    let mut it = s.chars();
    let mut out: Vec<char> = Vec::new();
    while out.len() < n
        invariant
            n == s@.len(),
            out@ + it.remaining() == s@,
        decreases n - out.len(),
    {
        if let Some(c) = it.next() {
            out.push(c);
        }
    }
    assert(out@ =~= s@);
    out
}

/// Whether `a` comes strictly before `b` in dictionary order.
pub fn comes_before(a: &str, b: &str) -> (before: bool)
    ensures
        before == precedes(a@, b@),
{
    let x = chars_of(a);
    let y = chars_of(b);
    let mut k: usize = 0;
    while k < x.len() && k < y.len() && x[k] == y[k]
        invariant
            k <= x.len(),
            k <= y.len(),
            x@.take(k as int) == y@.take(k as int),
        decreases x.len() - k,
    {
        assert(x@.take(k + 1) =~= x@.take(k as int).push(x@[k as int]));
        assert(y@.take(k + 1) =~= y@.take(k as int).push(y@[k as int]));
        k += 1;
    }
    proof {
        lemma_precedes_skip(x@, y@, k as int);
    }
    if k == y.len() {
        false
    } else if k == x.len() {
        true
    } else {
        (x[k] as u32) < (y[k] as u32)
    }
}

/// Reading `s` from the left: the components that have ended, and the
/// characters of the one that has not.
pub open spec fn scan(s: Seq<char>) -> (Seq<Seq<char>>, Seq<char>)
    decreases s.len(),
{
    if s.len() == 0 {
        (Seq::empty(), Seq::empty())
    } else {
        let (ended, run) = scan(s.drop_last());
        if is_separator(s.last()) {
            (
                if run.len() > 0 {
                    ended.push(run)
                } else {
                    ended
                },
                Seq::empty(),
            )
        } else {
            (ended, run.push(s.last()))
        }
    }
}

/// The components of a path: its maximal runs of characters other than the
/// separator, from left to right. Repeated, leading and trailing separators
/// make no component.
pub open spec fn components(s: Seq<char>) -> Seq<Seq<char>> {
    let (ended, run) = scan(s);
    if run.len() > 0 {
        ended.push(run)
    } else {
        ended
    }
}

/// A root followed by a path beneath it, with one separator between them
/// unless the root is empty or brings its own.
pub open spec fn joined(root: Seq<char>, below: Seq<char>) -> Seq<char> {
    if root.len() == 0 || is_separator(root.last()) {
        root + below
    } else {
        root + seq!['/'] + below
    }
}

/// The unfinished component of a text is its longest tail without separator.
proof fn lemma_scan_run(s: Seq<char>)
    ensures
        scan(s).1.len() <= s.len(),
        scan(s).1 == s.skip(s.len() - scan(s).1.len()),
        forall|i: int| 0 <= i < scan(s).1.len() ==> !is_separator(#[trigger] scan(s).1[i]),
        s.len() > 0 && is_separator(s.last()) ==> scan(s).1.len() == 0,
        scan(s).1.len() < s.len() ==> is_separator(s[s.len() - scan(s).1.len() - 1]),
    decreases s.len(),
{
    if s.len() > 0 {
        let t = s.drop_last();
        lemma_scan_run(t);
        if is_separator(s.last()) {
            assert(scan(s).1 =~= s.skip(s.len() as int));
        } else {
            let r = scan(t).1;
            assert(r.push(s.last()) =~= s.skip(s.len() - r.len() - 1));
        }
    } else {
        assert(scan(s).1 =~= s.skip(0));
    }
}

/// Every component has at least one character and no separator.
pub proof fn lemma_components_plain(s: Seq<char>)
    ensures
        forall|i: int|
            0 <= i < components(s).len() ==> (#[trigger] components(s)[i]).len() > 0,
        forall|i: int, j: int|
            0 <= i < components(s).len() && 0 <= j < components(s)[i].len() ==> !is_separator(
                #[trigger] components(s)[i][j],
            ),
{
    lemma_scan_ended_plain(s);
    lemma_scan_run(s);
}

/// Every component that has ended has at least one character and no
/// separator.
proof fn lemma_scan_ended_plain(s: Seq<char>)
    ensures
        forall|i: int| 0 <= i < scan(s).0.len() ==> (#[trigger] scan(s).0[i]).len() > 0,
        forall|i: int, j: int|
            0 <= i < scan(s).0.len() && 0 <= j < scan(s).0[i].len() ==> !is_separator(
                #[trigger] scan(s).0[i][j],
            ),
    decreases s.len(),
{
    if s.len() > 0 {
        lemma_scan_ended_plain(s.drop_last());
        lemma_scan_run(s.drop_last());
    }
}

/// Reading on behind a text whose last component has ended adds what the
/// rest holds by itself.
proof fn lemma_scan_append(a: Seq<char>, b: Seq<char>)
    requires
        scan(a).1.len() == 0,
    ensures
        scan(a + b) == (scan(a).0 + scan(b).0, scan(b).1),
    decreases b.len(),
{
    if b.len() == 0 {
        assert(a + b =~= a);
        assert(scan(a).0 + scan(b).0 =~= scan(a).0);
        assert(scan(a).1 =~= scan(b).1);
    } else {
        let t = b.drop_last();
        assert((a + b).drop_last() =~= a + t);
        assert((a + b).last() == b.last());
        lemma_scan_append(a, t);
        let (ended, run) = scan(t);
        if is_separator(b.last()) && run.len() > 0 {
            assert((scan(a).0 + ended).push(run) =~= scan(a).0 + ended.push(run));
        }
    }
}

/// The components of a joined path are those of the root followed by those
/// of the path beneath it.
pub proof fn lemma_components_joined(root: Seq<char>, below: Seq<char>)
    ensures
        components(joined(root, below)) == components(root) + components(below),
{
    let head = if root.len() == 0 || is_separator(root.last()) {
        root
    } else {
        root + seq!['/']
    };
    assert(joined(root, below) =~= head + below);
    lemma_scan_run(root);
    if !(root.len() == 0 || is_separator(root.last())) {
        assert(head.drop_last() =~= root);
        assert(head.last() == '/');
        assert(scan(root).1.len() > 0) by {
            if scan(root).1.len() == 0 {
                assert(is_separator(root[root.len() - 1]));
            }
        }
    }
    assert(scan(head) == (components(root), Seq::<char>::empty()));
    lemma_scan_append(head, below);
    let (ended, run) = scan(below);
    if run.len() > 0 {
        assert((components(root) + ended).push(run) =~= components(root) + ended.push(run));
    }
}

/// Splits a path into its components.
pub fn split_components(path: &str) -> (parts: Vec<String>)
    ensures
        parts.deep_view() == components(path@),
{
    let chars = chars_of(path);
    let mut parts: Vec<String> = Vec::new();
    let mut start: usize = 0;
    let mut i: usize = 0;
    assert(chars@.take(0).len() == 0);
    assert(parts.deep_view() =~= scan(chars@.take(0)).0);
    while i < chars.len()
        invariant
            chars@ == path@,
            start <= i <= chars.len(),
            parts.deep_view() == scan(chars@.take(i as int)).0,
            scan(chars@.take(i as int)).1 == chars@.subrange(start as int, i as int),
        decreases chars.len() - i,
    {
        let ghost before = chars@.take(i as int);
        let ghost after = chars@.take(i + 1);
        assert(after.drop_last() =~= before);
        assert(after.last() == chars@[i as int]);
        if chars[i] == '/' {
            if start < i {
                let part = path.substring_char(start, i).to_owned();
                let ghost old_parts = parts.deep_view();
                parts.push(part);
                assert(parts.deep_view() =~= old_parts.push(part@));
            }
            start = i + 1;
            assert(scan(after).1 =~= chars@.subrange(start as int, i + 1));
        } else {
            assert(scan(after).1 =~= chars@.subrange(start as int, i + 1));
        }
        i += 1;
    }
    assert(chars@.take(i as int) =~= chars@);
    if start < i {
        let part = path.substring_char(start, i).to_owned();
        let ghost old_parts = parts.deep_view();
        parts.push(part);
        assert(parts.deep_view() =~= old_parts.push(part@));
    }
    parts
}

/// Joins a root and a path beneath it.
pub fn join(root: &str, below: &str) -> (path: String)
    ensures
        path@ == joined(root@, below@),
{
    let chars = chars_of(root);
    let n = chars.len();
    if n == 0 || chars[n - 1] == '/' {
        String::from_str(root).concat(below)
    } else {
        proof {
            reveal_strlit("/");
        }
        let path = String::from_str(root).concat("/").concat(below);
        assert("/"@ =~= seq!['/']);
        path
    }
}

/// The extension of a profile file.
pub open spec fn profile_extension() -> Seq<char> {
    seq!['.', 'd', 'a', 't']
}

/// The path ends in a file name that has the profile extension behind at
/// least one other character.
pub open spec fn has_profile_extension(path: Seq<char>) -> bool {
    let n = path.len() as int;
    &&& n >= 5
    &&& path.subrange(n - 4, n) == profile_extension()
    &&& !is_separator(path[n - 5])
}

/// Whether the path names a file with the profile extension.
pub fn is_profile_file(path: &str) -> (yes: bool)
    ensures
        yes == has_profile_extension(path@),
{
    let chars = chars_of(path);
    let n = chars.len();
    if n < 5 {
        return false;
    }
    let yes = chars[n - 4] == '.' && chars[n - 3] == 'd' && chars[n - 2] == 'a' && chars[n - 1]
        == 't' && chars[n - 5] != '/';
    proof {
        let tail = path@.subrange(n - 4, n as int);
        if yes {
            assert(tail =~= profile_extension());
        } else if chars[n - 5] != '/' {
            assert(tail[0] == chars@[n - 4]);
            assert(tail[1] == chars@[n - 3]);
            assert(tail[2] == chars@[n - 2]);
            assert(tail[3] == chars@[n - 1]);
        }
    }
    yes
}

} // verus!
