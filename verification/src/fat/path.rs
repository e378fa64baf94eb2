//! Paths of directories, such as `DOCS/SRC`.

use vstd::prelude::*;
use vstd::string::StrSliceExecFns;

verus! {

/// Scanning `s` from the left: the non-empty components between slashes completed so far,
/// and the component being read.
pub open spec fn scan_components(s: Seq<char>) -> (Seq<Seq<char>>, Seq<char>)
    decreases s.len(),
{
    if s.len() == 0 {
        (Seq::empty(), Seq::empty())
    } else {
        let (done, cur) = scan_components(s.drop_last());
        if s.last() == '/' {
            (if cur.len() > 0 { done.push(cur) } else { done }, Seq::empty())
        } else {
            (done, cur.push(s.last()))
        }
    }
}

/// The non-empty components of a path split at each `/`: what `path.split('/')` yields,
/// with the empty pieces left out.
pub open spec fn path_components(s: Seq<char>) -> Seq<Seq<char>> {
    let (done, cur) = scan_components(s);
    if cur.len() > 0 {
        done.push(cur)
    } else {
        done
    }
}

/// Splits a path into its non-empty components.
pub fn components(path: &str) -> (parts: Vec<&str>)
    ensures
        parts@.len() == path_components(path@).len(),
        forall|k: int| 0 <= k < parts@.len() ==> #[trigger] parts@[k]@ == path_components(path@)[k],
{
    let n = path.unicode_len();
    let mut parts: Vec<&str> = Vec::new();
    let mut start: usize = 0;
    let mut i: usize = 0;
    while i < n
        invariant
            n == path@.len(),
            start <= i <= n,
            parts@.len() == scan_components(path@.subrange(0, i as int)).0.len(),
            forall|k: int|
                0 <= k < parts@.len() ==> #[trigger] parts@[k]@ == scan_components(
                    path@.subrange(0, i as int),
                ).0[k],
            path@.subrange(start as int, i as int) == scan_components(path@.subrange(0, i as int)).1,
        decreases n - i,
    {
        let c = path.get_char(i);
        let ghost prefix = path@.subrange(0, i as int);
        proof {
            assert(path@.subrange(0, i + 1).drop_last() =~= prefix);
            assert(path@.subrange(0, i + 1).last() == c);
        }
        if c == '/' {
            if i > start {
                let part = path.substring_char(start, i);
                parts.push(part);
            }
            start = i + 1;
            proof {
                assert(path@.subrange(start as int, i + 1) =~= Seq::<char>::empty());
            }
        } else {
            proof {
                assert(path@.subrange(start as int, i + 1) =~= path@.subrange(start as int, i as int).push(c));
            }
        }
        i = i + 1;
    }
    if n > start {
        let part = path.substring_char(start, n);
        parts.push(part);
    }
    proof {
        assert(path@.subrange(0, n as int) =~= path@);
    }
    parts
}

/// A path of slashes only (such as `/`, or the empty path) has no components: it names the
/// root directory.
pub proof fn lemma_slashes_name_root(s: Seq<char>)
    requires
        forall|i: int| 0 <= i < s.len() ==> s[i] == '/',
    ensures
        path_components(s) == Seq::<Seq<char>>::empty(),
        scan_components(s) == (Seq::<Seq<char>>::empty(), Seq::<char>::empty()),
    decreases s.len(),
{
    if s.len() > 0 {
        lemma_slashes_name_root(s.drop_last());
    }
}

/// A path without slashes, not empty, is one component: itself.
pub proof fn lemma_one_component(s: Seq<char>)
    requires
        s.len() > 0,
        forall|i: int| 0 <= i < s.len() ==> s[i] != '/',
    ensures
        path_components(s) == seq![s],
    decreases s.len(),
{
    lemma_no_slash_scan(s);
}

proof fn lemma_no_slash_scan(s: Seq<char>)
    requires
        forall|i: int| 0 <= i < s.len() ==> s[i] != '/',
    ensures
        scan_components(s) == (Seq::<Seq<char>>::empty(), s),
    decreases s.len(),
{
    if s.len() > 0 {
        lemma_no_slash_scan(s.drop_last());
        assert(s.drop_last().push(s.last()) =~= s);
    }
}

} // verus!
