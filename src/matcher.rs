//! Per-file matching: which query matches are reported, and what text each
//! reported node spans.

use vstd::prelude::*;
use vstd::utf8::*;
use vstd::string::*;

verus! {

broadcast use vstd::utf8::group_utf8_lib;

/// One capture of a query match: the capture's index among the query's
/// capture names, the identity of the captured node within its tree, and the
/// node's byte range in the parsed source.
#[derive(Clone, Copy, Debug, PartialEq, Eq, Structural)]
pub struct Capture {
    pub index: u32,
    pub node: usize,
    pub start: usize,
    pub end: usize,
}

/// The first capture of a match bound to capture index `root`.
pub open spec fn root_of(caps: Seq<Capture>, root: u32) -> Option<Capture>
    decreases caps.len(),
{
    if caps.len() == 0 {
        None
    } else if caps[0].index == root {
        Some(caps[0])
    } else {
        root_of(caps.drop_first(), root)
    }
}

/// Whether some capture of `s` is bound to node `n`.
pub open spec fn has_node(s: Seq<Capture>, n: usize) -> bool {
    exists|i: int| 0 <= i < s.len() && #[trigger] s[i].node == n
}

/// The root captures that a file reports, in match order: for each match its
/// root capture, unless an earlier match already reported the same node.
pub open spec fn accepted(ms: Seq<Seq<Capture>>, root: u32) -> Seq<Capture>
    decreases ms.len(),
{
    if ms.len() == 0 {
        Seq::empty()
    } else {
        let prev = accepted(ms.drop_last(), root);
        match root_of(ms.last(), root) {
            Some(c) => if has_node(prev, c.node) { prev } else { prev.push(c) },
            None => prev,
        }
    }
}

/// Looks up the root capture of one match.
pub fn find_root(caps: &Vec<Capture>, root: u32) -> (r: Option<Capture>)
    ensures
        r == root_of(caps@, root),
{
    let mut i: usize = 0;
    assert(caps@.subrange(0, caps@.len() as int) =~= caps@);
    while i < caps.len()
        invariant
            i <= caps@.len(),
            root_of(caps@, root) == root_of(caps@.subrange(i as int, caps@.len() as int), root),
        decreases caps@.len() - i,
    {
        let ghost rest = caps@.subrange(i as int, caps@.len() as int);
        assert(rest.drop_first() =~= caps@.subrange(i + 1, caps@.len() as int));
        if caps[i].index == root {
            return Some(caps[i]);
        }
        i = i + 1;
    }
    assert(caps@.subrange(i as int, caps@.len() as int).len() == 0);
    None
}

fn contains_node(s: &Vec<Capture>, n: usize) -> (r: bool)
    ensures
        r == has_node(s@, n),
{
    let mut i: usize = 0;
    while i < s.len()
        invariant
            i <= s@.len(),
            forall|j: int| 0 <= j < i ==> s@[j].node != n,
        decreases s@.len() - i,
    {
        if s[i].node == n {
            return true;
        }
        i = i + 1;
    }
    false
}

/// Keeps, in order, the root capture of each match whose node no earlier
/// match has reported, so that a node satisfying several alternatives of a
/// pattern is reported once.
pub fn dedup_matches(ms: &Vec<Vec<Capture>>, root: u32) -> (r: Vec<Capture>)
    ensures
        r@ == accepted(match_views(ms@), root),
{
    let ghost views = match_views(ms@);
    let mut seen: Vec<Capture> = Vec::new();
    let mut i: usize = 0;
    while i < ms.len()
        invariant
            i <= ms@.len(),
            views == match_views(ms@),
            seen@ == accepted(views.subrange(0, i as int), root),
        decreases ms@.len() - i,
    {
        assert(views.subrange(0, i + 1).drop_last() =~= views.subrange(0, i as int));
        assert(views.subrange(0, i + 1).last() == ms@[i as int]@);
        match find_root(&ms[i], root) {
            Some(c) => {
                if !contains_node(&seen, c.node) {
                    seen.push(c);
                }
            },
            None => {},
        }
        i = i + 1;
    }
    assert(views.subrange(0, ms@.len() as int) =~= views);
    seen
}

/// Whether `start..end` is a byte range of the UTF-8 encoding of `src` that
/// starts and ends on character boundaries.
pub open spec fn span_ok(src: Seq<char>, start: int, end: int) -> bool {
    let b = encode_utf8(src);
    0 <= start <= end <= b.len() && is_char_boundary(b, start) && is_char_boundary(b, end)
}

/// The text that the byte range `start..end` of `src` spans.
pub open spec fn span_text(src: Seq<char>, start: int, end: int) -> Seq<char> {
    decode_utf8(encode_utf8(src).subrange(start, end))
}

/// The source text spanned by a node's byte range, if that range lies in the
/// source and on character boundaries.
pub fn node_text(src: &str, start: usize, end: usize) -> (r: Option<&str>)
    ensures
        r is Some <==> span_ok(src@, start as int, end as int),
        r matches Some(t) ==> t@ == span_text(src@, start as int, end as int),
{
    let n = src.as_bytes().len();
    if start <= end && end <= n && src.is_char_boundary(start) && src.is_char_boundary(
        end,
    ) {
        let (_, tail) = src.split_at(start);
        proof {
            let b = encode_utf8(src@);
            let tb = encode_utf8(tail@);
            let k = (end - start) as int;
            assert(tb =~= b.subrange(start as int, b.len() as int));
            if end < b.len() {
                assert(tb[k] == b[end as int]);
                is_char_boundary_iff_not_is_continuation_byte(b, end as int);
                is_char_boundary_iff_not_is_continuation_byte(tb, k);
            } else {
                is_char_boundary_start_end_of_seq(tb);
            }
        }
        let (mid, _) = tail.split_at(end - start);
        proof {
            assert(encode_utf8(mid@) =~= encode_utf8(src@).subrange(start as int, end as int));
        }
        Some(mid)
    } else {
        None
    }
}

/// The report entry for one match: a rule, the file, and the matched text.
pub open spec fn entry_view(path: Seq<char>, text: Seq<char>) -> Seq<char> {
    "=================================================================\nFound ["@ + path + "]\n"@
        + text
}

/// Formats the report entry for one match.
pub fn format_entry(path: &str, text: &str) -> (r: String)
    ensures
        r@ == entry_view(path@, text@),
{
    let mut r = String::from_str(
        "=================================================================\nFound [",
    );
    r.append(path);
    r.append("]\n");
    r.append(text);
    r
}

/// Why one file contributed no entries.
#[derive(Clone, Copy, Debug, PartialEq, Eq, Structural)]
pub enum FileError {
    /// A reported node's byte range does not delimit text of the source.
    BadSpan { start: usize, end: usize },
}

/// What a file reports for the captures `acc`: an entry per capture, or the
/// first capture whose byte range does not delimit text of `src`.
pub open spec fn outcome(path: Seq<char>, src: Seq<char>, acc: Seq<Capture>) -> Result<
    Seq<Seq<char>>,
    FileError,
>
    decreases acc.len(),
{
    if acc.len() == 0 {
        Ok(Seq::empty())
    } else {
        let c = acc.last();
        match outcome(path, src, acc.drop_last()) {
            Err(e) => Err(e),
            Ok(v) => if span_ok(src, c.start as int, c.end as int) {
                Ok(v.push(entry_view(path, span_text(src, c.start as int, c.end as int))))
            } else {
                Err(FileError::BadSpan { start: c.start, end: c.end })
            },
        }
    }
}

/// The views of a sequence of strings.
pub open spec fn views(v: Seq<String>) -> Seq<Seq<char>> {
    v.map_values(|s: String| s@)
}

/// The matches of a file as sequences of captures.
pub open spec fn match_views(ms: Seq<Vec<Capture>>) -> Seq<Seq<Capture>> {
    ms.map_values(|m: Vec<Capture>| m@)
}

impl FileError {
    /// The explanation shown in the skip notice of the file.
    pub fn message(&self) -> (r: String)
        ensures
            r@ == "a matched node lies outside the file's text"@,
    {
        match self {
            FileError::BadSpan { .. } => String::from_str(
                "a matched node lies outside the file's text",
            ),
        }
    }
}

/// Whether `r` is what a file reports when the engine found the matches `ms`
/// in the file `path`, whose text is `src`, with the root capture at `root`.
pub open spec fn reports(
    path: Seq<char>,
    src: Seq<char>,
    root: u32,
    ms: Seq<Vec<Capture>>,
    r: Result<Vec<String>, FileError>,
) -> bool {
    match r {
        Ok(v) => outcome(path, src, accepted(match_views(ms), root)) == Ok::<
            Seq<Seq<char>>,
            FileError,
        >(views(v@)),
        Err(e) => outcome(path, src, accepted(match_views(ms), root)) == Err::<
            Seq<Seq<char>>,
            FileError,
        >(e),
    }
}

/// Turns the matches that the engine found in the file `path`, whose text is
/// `src`, into the file's report entries: one per node, in match order.
pub fn file_entries(path: &str, src: &str, root: u32, ms: &Vec<Vec<Capture>>) -> (r: Result<
    Vec<String>,
    FileError,
>)
    ensures
        reports(path@, src@, root, ms@, r),
{
    let acc = dedup_matches(ms, root);
    let ghost a = accepted(match_views(ms@), root);
    let mut out: Vec<String> = Vec::new();
    let mut i: usize = 0;
    assert(views(out@) =~= Seq::empty());
    assert(a.subrange(0, 0) =~= Seq::empty());
    while i < acc.len()
        invariant
            i <= acc@.len(),
            acc@ == a,
            a == accepted(match_views(ms@), root),
            outcome(path@, src@, a.subrange(0, i as int)) == Ok::<Seq<Seq<char>>, FileError>(
                views(out@),
            ),
        decreases acc@.len() - i,
    {
        let c = acc[i];
        assert(a.subrange(0, i + 1).drop_last() =~= a.subrange(0, i as int));
        match node_text(src, c.start, c.end) {
            Some(t) => {
                let e = format_entry(path, t);
                let ghost prev = views(out@);
                out.push(e);
                assert(views(out@) =~= prev.push(e@));
            },
            None => {
                proof {
                    assert(a.subrange(0, i + 1).last() == c);
                    assert(outcome(path@, src@, a.subrange(0, i + 1)) == Err::<
                        Seq<Seq<char>>,
                        FileError,
                    >(FileError::BadSpan { start: c.start, end: c.end }));
                    lemma_outcome_err_extends(path@, src@, a, i as int + 1);
                }
                return Err(FileError::BadSpan { start: c.start, end: c.end });
            },
        }
        i = i + 1;
    }
    assert(a.subrange(0, i as int) =~= a);
    Ok(out)
}

/// No node is reported twice within one file.
pub proof fn lemma_accepted_distinct(ms: Seq<Seq<Capture>>, root: u32)
    ensures
        forall|i: int, j: int|
            0 <= i < j < accepted(ms, root).len() ==> #[trigger] accepted(ms, root)[i].node
                != #[trigger] accepted(ms, root)[j].node,
    decreases ms.len(),
{
    if ms.len() > 0 {
        lemma_accepted_distinct(ms.drop_last(), root);
        let prev = accepted(ms.drop_last(), root);
        let acc = accepted(ms, root);
        assert forall|i: int, j: int| 0 <= i < j < acc.len() implies acc[i].node != acc[j].node by {
            if j == prev.len() {
                assert(prev[i] == acc[i]);
            } else {
                assert(prev[i] == acc[i] && prev[j] == acc[j]);
            }
        }
    }
}

/// Whether the root capture of a match is bound to node `n`.
pub open spec fn rooted_at(caps: Seq<Capture>, root: u32, n: usize) -> bool {
    match root_of(caps, root) {
        Some(c) => c.node == n,
        None => false,
    }
}

/// A node that is the root of every match of a file, as when it satisfies
/// each alternative of a pattern, is reported exactly once.
pub proof fn lemma_one_node_reported_once(ms: Seq<Seq<Capture>>, root: u32, n: usize)
    requires
        ms.len() > 0,
        forall|i: int| 0 <= i < ms.len() ==> #[trigger] rooted_at(ms[i], root, n),
    ensures
        accepted(ms, root).len() == 1,
        accepted(ms, root)[0].node == n,
    decreases ms.len(),
{
    let last = ms.len() - 1;
    assert(rooted_at(ms[last], root, n));
    if ms.len() == 1 {
        assert(accepted(ms.drop_last(), root) =~= Seq::empty());
    } else {
        let front = ms.drop_last();
        assert forall|i: int| 0 <= i < front.len() implies #[trigger] rooted_at(front[i], root, n) by {
            assert(front[i] == ms[i]);
        }
        lemma_one_node_reported_once(front, root, n);
        assert(has_node(accepted(front, root), n));
    }
}

/// The nodes at the root of some match of a file.
pub open spec fn root_nodes(ms: Seq<Seq<Capture>>, root: u32) -> Set<usize> {
    Set::new(|n: usize| exists|i: int| 0 <= i < ms.len() && #[trigger] rooted_at(ms[i], root, n))
}

/// The nodes of a sequence of captures.
pub open spec fn nodes_of(acc: Seq<Capture>) -> Seq<usize> {
    acc.map_values(|c: Capture| c.node)
}

proof fn lemma_accepted_nodes(ms: Seq<Seq<Capture>>, root: u32)
    ensures
        forall|n: usize|
            #[trigger] has_node(accepted(ms, root), n) <==> exists|i: int|
                0 <= i < ms.len() && #[trigger] rooted_at(ms[i], root, n),
    decreases ms.len(),
{
    if ms.len() > 0 {
        let front = ms.drop_last();
        let last = ms.len() - 1;
        lemma_accepted_nodes(front, root);
        let prev = accepted(front, root);
        let acc = accepted(ms, root);
        assert forall|n: usize|
            has_node(acc, n) <==> exists|i: int|
                0 <= i < ms.len() && #[trigger] rooted_at(ms[i], root, n) by {
            if has_node(acc, n) {
                let j = choose|j: int| 0 <= j < acc.len() && acc[j].node == n;
                if j < prev.len() {
                    assert(prev[j] == acc[j]);
                    assert(has_node(prev, n));
                    let i = choose|i: int| 0 <= i < front.len() && #[trigger] rooted_at(front[i], root, n);
                    assert(front[i] == ms[i]);
                } else {
                    assert(rooted_at(ms[last], root, n));
                }
            }
            if exists|i: int| 0 <= i < ms.len() && #[trigger] rooted_at(ms[i], root, n) {
                let i = choose|i: int| 0 <= i < ms.len() && #[trigger] rooted_at(ms[i], root, n);
                if i < last {
                    assert(front[i] == ms[i]);
                    assert(has_node(prev, n));
                    let k = choose|k: int| 0 <= k < prev.len() && prev[k].node == n;
                    assert(acc[k] == prev[k]);
                } else if !has_node(prev, n) {
                    assert(acc[prev.len() as int].node == n);
                } else {
                    let k = choose|k: int| 0 <= k < prev.len() && prev[k].node == n;
                    assert(acc[k] == prev[k]);
                }
            }
        }
    }
}

/// Each node at the root of some match of a file is reported exactly once,
/// however many matches, such as alternatives of a pattern, it satisfies:
/// the reported nodes are the distinct root nodes, one report each.
pub proof fn lemma_reported_nodes_are_distinct_roots(ms: Seq<Seq<Capture>>, root: u32)
    ensures
        nodes_of(accepted(ms, root)).to_set() == root_nodes(ms, root),
        accepted(ms, root).len() == root_nodes(ms, root).len(),
{
    let acc = accepted(ms, root);
    let ns = nodes_of(acc);
    lemma_accepted_nodes(ms, root);
    lemma_accepted_distinct(ms, root);
    assert forall|n: usize| ns.to_set().contains(n) <==> root_nodes(ms, root).contains(n) by {
        if ns.contains(n) {
            let j = choose|j: int| 0 <= j < ns.len() && ns[j] == n;
            assert(acc[j].node == n);
            assert(has_node(acc, n));
        }
        if has_node(acc, n) {
            let j = choose|j: int| 0 <= j < acc.len() && acc[j].node == n;
            assert(ns[j] == n);
        }
    }
    assert(ns.to_set() =~= root_nodes(ms, root));
    assert(ns.no_duplicates()) by {
        assert forall|i: int, j: int| 0 <= i < ns.len() && 0 <= j < ns.len() && i != j implies ns[i] != ns[j] by {
            if i < j {
                assert(acc[i].node != acc[j].node);
            } else {
                assert(acc[j].node != acc[i].node);
            }
        }
    }
    ns.unique_seq_to_set();
}

proof fn lemma_outcome_len(path: Seq<char>, src: Seq<char>, acc: Seq<Capture>)
    ensures
        outcome(path, src, acc) matches Ok(w) ==> w.len() == acc.len(),
    decreases acc.len(),
{
    if acc.len() > 0 {
        lemma_outcome_len(path, src, acc.drop_last());
    }
}

/// A file that reports its matches contributes one entry per distinct node
/// at the root of a match, not one per match.
pub proof fn lemma_entries_count_distinct_roots(
    path: Seq<char>,
    src: Seq<char>,
    root: u32,
    ms: Seq<Vec<Capture>>,
    v: Vec<String>,
)
    requires
        reports(path, src, root, ms, Ok(v)),
    ensures
        v@.len() == root_nodes(match_views(ms), root).len(),
{
    lemma_outcome_len(path, src, accepted(match_views(ms), root));
    lemma_reported_nodes_are_distinct_roots(match_views(ms), root);
}

/// A file whose matches are all rooted at one node, as when that node
/// satisfies each alternative of a pattern, contributes exactly one entry.
pub proof fn lemma_one_node_one_entry(
    path: Seq<char>,
    src: Seq<char>,
    root: u32,
    ms: Seq<Vec<Capture>>,
    n: usize,
    v: Vec<String>,
)
    requires
        ms.len() > 0,
        forall|i: int| 0 <= i < ms.len() ==> #[trigger] rooted_at(ms[i]@, root, n),
        reports(path, src, root, ms, Ok(v)),
    ensures
        v@.len() == 1,
{
    let views = match_views(ms);
    assert forall|i: int| 0 <= i < views.len() implies #[trigger] rooted_at(views[i], root, n) by {
        assert(views[i] == ms[i]@);
    }
    lemma_one_node_reported_once(views, root, n);
    lemma_outcome_len(path, src, accepted(views, root));
}

proof fn lemma_outcome_err_extends(path: Seq<char>, src: Seq<char>, acc: Seq<Capture>, k: int)
    requires
        0 <= k <= acc.len(),
        outcome(path, src, acc.subrange(0, k)) is Err,
    ensures
        outcome(path, src, acc) == outcome(path, src, acc.subrange(0, k)),
    decreases acc.len() - k,
{
    if k < acc.len() {
        assert(acc.subrange(0, k + 1).drop_last() =~= acc.subrange(0, k));
        lemma_outcome_err_extends(path, src, acc, k + 1);
    } else {
        assert(acc.subrange(0, k) =~= acc);
    }
}

} // verus!
