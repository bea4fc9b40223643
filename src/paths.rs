//! Choosing the candidate files of a search.

use vstd::prelude::*;
use vstd::string::*;

verus! {

/// Whether a path names a Go source file: it ends with `.go`.
pub open spec fn is_go_path(p: Seq<char>) -> bool {
    p.len() >= 3 && p.subrange(p.len() - 3, p.len() as int) == seq!['.', 'g', 'o']
}

/// The paths of `s` that name Go source files, in their order.
pub open spec fn go_paths(s: Seq<Seq<char>>) -> Seq<Seq<char>>
    decreases s.len(),
{
    if s.len() == 0 {
        Seq::empty()
    } else if is_go_path(s.last()) {
        go_paths(s.drop_last()).push(s.last())
    } else {
        go_paths(s.drop_last())
    }
}

/// Whether a path names a Go source file.
pub fn has_go_suffix(p: &str) -> (r: bool)
    ensures
        r == is_go_path(p@),
{
    let n = p.unicode_len();
    if n < 3 {
        return false;
    }
    let a = p.get_char(n - 3);
    let b = p.get_char(n - 2);
    let c = p.get_char(n - 1);
    let r = a == '.' && b == 'g' && c == 'o';
    assert(r == (p@.subrange(n - 3, n as int) =~= seq!['.', 'g', 'o']));
    r
}

/// The views of a sequence of strings.
pub open spec fn path_views(v: Seq<String>) -> Seq<Seq<char>> {
    v.map_values(|s: String| s@)
}

/// Keeps, in order, the paths that name Go source files.
pub fn select_go_files(paths: &Vec<String>) -> (r: Vec<String>)
    ensures
        path_views(r@) == go_paths(path_views(paths@)),
        forall|i: int| 0 <= i < r@.len() ==> is_go_path(#[trigger] r@[i]@),
{
    let ghost all = path_views(paths@);
    let mut r: Vec<String> = Vec::new();
    let mut i: usize = 0;
    assert(path_views(r@) =~= go_paths(all.subrange(0, 0)));
    while i < paths.len()
        invariant
            i <= paths@.len(),
            all == path_views(paths@),
            path_views(r@) == go_paths(all.subrange(0, i as int)),
            forall|j: int| 0 <= j < r@.len() ==> is_go_path(#[trigger] r@[j]@),
        decreases paths@.len() - i,
    {
        assert(all.subrange(0, i + 1).drop_last() =~= all.subrange(0, i as int));
        assert(all.subrange(0, i + 1).last() == paths@[i as int]@);
        if has_go_suffix(paths[i].as_str()) {
            let ghost prev = path_views(r@);
            r.push(paths[i].clone());
            assert(path_views(r@) =~= prev.push(paths@[i as int]@));
        }
        i = i + 1;
    }
    assert(all.subrange(0, i as int) =~= all);
    r
}

} // verus!
