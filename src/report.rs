//! Folding per-file results into one report, and rendering it.

use vstd::prelude::*;
use vstd::string::*;
use crate::matcher::views;
use crate::text::{decimal, decimal_string};

verus! {

/// The notice shown in place of entries for a file that was skipped.
pub open spec fn skip_view(path: Seq<char>, message: Seq<char>) -> Seq<char> {
    "==> Skipping ["@ + path + "] ["@ + message + "]"@
}

/// Formats the notice for a skipped file.
pub fn skip_notice(path: &str, message: &str) -> (r: String)
    ensures
        r@ == skip_view(path@, message@),
{
    let mut r = String::from_str("==> Skipping [");
    r.append(path);
    r.append("] [");
    r.append(message);
    r.append("]");
    r
}

/// What one file adds to the report's entries: its match entries, or one
/// notice when it was skipped with a message.
pub open spec fn file_entries_view(path: Seq<char>, result: Result<Vec<String>, String>) -> Seq<
    Seq<char>,
> {
    match result {
        Ok(v) => views(v@),
        Err(m) => seq![skip_view(path, m@)],
    }
}

/// What one file adds to the total: its number of matches; none when skipped.
pub open spec fn file_count(result: Result<Vec<String>, String>) -> nat {
    match result {
        Ok(v) => v@.len(),
        Err(_) => 0,
    }
}

/// The entries of a sequence of per-file results, file after file.
pub open spec fn entries_of(s: Seq<(String, Result<Vec<String>, String>)>) -> Seq<Seq<char>>
    decreases s.len(),
{
    if s.len() == 0 {
        Seq::empty()
    } else {
        entries_of(s.drop_last()) + file_entries_view(s.last().0@, s.last().1)
    }
}

/// The total match count of a sequence of per-file results.
pub open spec fn total_of(s: Seq<(String, Result<Vec<String>, String>)>) -> nat
    decreases s.len(),
{
    if s.len() == 0 {
        0
    } else {
        total_of(s.drop_last()) + file_count(s.last().1)
    }
}

/// Each entry followed by a line break.
pub open spec fn lines_view(entries: Seq<Seq<char>>) -> Seq<char>
    decreases entries.len(),
{
    if entries.len() == 0 {
        Seq::empty()
    } else {
        lines_view(entries.drop_last()) + entries.last() + "\n"@
    }
}

/// The printed report: a header with the number of files searched, every
/// entry, and a footer with the total count.
pub open spec fn report_view(files: nat, entries: Seq<Seq<char>>, total: nat) -> Seq<char> {
    "Searching "@ + decimal(files) + " files.\n\n"@ + lines_view(entries) + "\nFound "@ + decimal(
        total,
    ) + " total results.\n"@
}

/// Folding results in two batches gives the entries of the first batch
/// followed by those of the second, and the sum of their counts.
pub proof fn lemma_fold_concat(
    a: Seq<(String, Result<Vec<String>, String>)>,
    b: Seq<(String, Result<Vec<String>, String>)>,
)
    ensures
        entries_of(a + b) == entries_of(a) + entries_of(b),
        total_of(a + b) == total_of(a) + total_of(b),
    decreases b.len(),
{
    if b.len() == 0 {
        assert(a + b =~= a);
        assert(entries_of(a) + entries_of(b) =~= entries_of(a));
    } else {
        assert((a + b).drop_last() =~= a + b.drop_last());
        assert((a + b).last() == b.last());
        lemma_fold_concat(a, b.drop_last());
        assert(entries_of(a + b) =~= entries_of(a) + entries_of(b));
    }
}

proof fn lemma_fold_single(x: (String, Result<Vec<String>, String>))
    ensures
        entries_of(seq![x]) == file_entries_view(x.0@, x.1),
        total_of(seq![x]) == file_count(x.1),
{
    assert(seq![x].drop_last() =~= Seq::empty());
    assert(entries_of(seq![x].drop_last()) =~= Seq::empty());
    assert(total_of(seq![x].drop_last()) == 0);
    assert(seq![x].last() == x);
    assert(entries_of(seq![x]) =~= file_entries_view(x.0@, x.1));
}

/// The order in which the workers hand in their results does not matter:
/// any reordering of the per-file results gives the same total and the same
/// entries, counted with multiplicity.
pub proof fn lemma_fold_order_independent(
    a: Seq<(String, Result<Vec<String>, String>)>,
    b: Seq<(String, Result<Vec<String>, String>)>,
)
    requires
        a.to_multiset() == b.to_multiset(),
    ensures
        total_of(a) == total_of(b),
        entries_of(a).to_multiset() == entries_of(b).to_multiset(),
    decreases a.len(),
{
    broadcast use vstd::seq_lib::group_to_multiset_ensures;

    if a.len() == 0 {
        assert(b.to_multiset().len() == 0);
        assert(b.len() == 0);
    } else {
        let x = a.last();
        let n = a.len() - 1;
        assert(a.remove(n) =~= a.drop_last());
        assert(a.contains(x)) by {
            assert(a[n] == x);
        }
        assert(a.to_multiset().count(x) > 0);
        assert(b.to_multiset().count(x) > 0);
        assert(b.contains(x));
        let k = choose|k: int| 0 <= k < b.len() && b[k] == x;
        let b2 = b.remove(k);
        lemma_fold_order_independent(a.drop_last(), b2);
        let l = b.subrange(0, k);
        let r = b.subrange(k + 1, b.len() as int);
        let one = seq![x];
        assert(b =~= l + one + r);
        assert(b2 =~= l + r);
        lemma_fold_concat(l + one, r);
        lemma_fold_concat(l, one);
        lemma_fold_concat(l, r);
        lemma_fold_concat(a.drop_last(), one);
        assert(a.drop_last() + one =~= a);
        lemma_fold_single(x);
        let f = file_entries_view(x.0@, x.1);
        vstd::seq_lib::lemma_multiset_commutative(entries_of(a.drop_last()), f);
        vstd::seq_lib::lemma_multiset_commutative(entries_of(l), f);
        vstd::seq_lib::lemma_multiset_commutative(entries_of(l) + f, entries_of(r));
        vstd::seq_lib::lemma_multiset_commutative(entries_of(l), entries_of(r));
        assert(entries_of(a).to_multiset() =~= entries_of(b).to_multiset());
    }
}

/// A file skipped with a message adds exactly one notice, naming the file,
/// and nothing to the total; the other files are folded as without it.
pub proof fn lemma_skipped_file(
    a: Seq<(String, Result<Vec<String>, String>)>,
    path: String,
    message: String,
    b: Seq<(String, Result<Vec<String>, String>)>,
)
    ensures
        entries_of(a + seq![(path, Err::<Vec<String>, String>(message))] + b) == entries_of(a)
            + seq![skip_view(path@, message@)] + entries_of(b),
        total_of(a + seq![(path, Err::<Vec<String>, String>(message))] + b) == total_of(a)
            + total_of(b),
{
    let one = seq![(path, Err::<Vec<String>, String>(message))];
    lemma_fold_concat(a, one);
    lemma_fold_concat(a + one, b);
    assert(one.drop_last() =~= Seq::empty());
    assert(one.last() == (path, Err::<Vec<String>, String>(message)));
    assert(entries_of(one.drop_last()) =~= Seq::empty());
    assert(total_of(one.drop_last()) == 0);
    assert(entries_of(one) =~= seq![skip_view(path@, message@)]);
    assert(total_of(one) == 0);
    assert(entries_of(a + one + b) =~= entries_of(a) + seq![skip_view(path@, message@)]
        + entries_of(b));
}

/// A search over no files reports nothing but its header and footer.
pub proof fn lemma_empty_search()
    ensures
        report_view(0, Seq::empty(), 0) == "Searching 0 files.\n\n\nFound 0 total results.\n"@,
{
    reveal_strlit("Searching ");
    reveal_strlit(" files.\n\n");
    reveal_strlit("\nFound ");
    reveal_strlit(" total results.\n");
    reveal_strlit("Searching 0 files.\n\n\nFound 0 total results.\n");
    assert(decimal(0) == seq!['0']);
    assert(report_view(0, Seq::empty(), 0) =~= "Searching 0 files.\n\n\nFound 0 total results.\n"@);
}

/// The aggregated results of a search: how many files were searched, the
/// entries and notices in arrival order, and the number of matches.
pub struct Report {
    pub files: usize,
    pub entries: Vec<String>,
    pub total: usize,
}

impl Report {
    /// The count never exceeds the number of entries, which also bounds it
    /// by the machine word.
    pub open spec fn wf(&self) -> bool {
        self.total <= self.entries@.len()
    }

    /// An empty report for a search over `files` files.
    pub fn new(files: usize) -> (r: Report)
        ensures
            r.wf(),
            r.files == files,
            r.entries@.len() == 0,
            r.total == 0,
    {
        Report { files, entries: Vec::new(), total: 0 }
    }

    /// Adds the result of the file `path`: its entries and their number, or
    /// a skip notice that leaves the count as it was.
    pub fn add_file(&mut self, path: &str, result: &Result<Vec<String>, String>)
        requires
            old(self).wf(),
        ensures
            final(self).wf(),
            final(self).files == old(self).files,
            views(final(self).entries@) == views(old(self).entries@) + file_entries_view(
                path@,
                *result,
            ),
            final(self).total == old(self).total + file_count(*result),
    {
        let ghost before = views(self.entries@);
        match result {
            Ok(v) => {
                let mut i: usize = 0;
                while i < v.len()
                    invariant
                        i <= v@.len(),
                        self.wf(),
                        self.files == old(self).files,
                        self.total == old(self).total + i,
                        views(self.entries@) == before + views(v@).subrange(0, i as int),
                    decreases v@.len() - i,
                {
                    let ghost prev = views(self.entries@);
                    self.entries.push(v[i].clone());
                    assert(views(self.entries@) =~= prev.push(v@[i as int]@));
                    assert(views(v@).subrange(0, i + 1) =~= views(v@).subrange(0, i as int).push(
                        v@[i as int]@,
                    ));
                    // The count stays below the number of entries, a `usize`.
                    let entry_count = self.entries.len();
                    assert(self.total < entry_count);
                    self.total = self.total + 1;
                    i = i + 1;
                }
                assert(views(v@).subrange(0, i as int) =~= views(v@));
            },
            Err(m) => {
                let notice = skip_notice(path, m.as_str());
                self.entries.push(notice);
                assert(views(self.entries@) =~= before + seq![skip_view(path@, m@)]);
            },
        }
    }

    /// Folds the per-file results, file after file, into a report over
    /// `files` files.
    pub fn collect(files: usize, results: &Vec<(String, Result<Vec<String>, String>)>) -> (r: Report)
        ensures
            r.wf(),
            r.files == files,
            views(r.entries@) == entries_of(results@),
            r.total == total_of(results@),
    {
        let mut r = Report::new(files);
        let mut i: usize = 0;
        assert(views(r.entries@) =~= entries_of(results@.subrange(0, 0)));
        while i < results.len()
            invariant
                i <= results@.len(),
                r.wf(),
                r.files == files,
                views(r.entries@) == entries_of(results@.subrange(0, i as int)),
                r.total == total_of(results@.subrange(0, i as int)),
            decreases results@.len() - i,
        {
            assert(results@.subrange(0, i + 1).drop_last() =~= results@.subrange(0, i as int));
            assert(results@.subrange(0, i + 1).last() == results@[i as int]);
            r.add_file(results[i].0.as_str(), &results[i].1);
            i = i + 1;
        }
        assert(results@.subrange(0, i as int) =~= results@);
        r
    }

    /// Renders the report as it is printed.
    pub fn render(&self) -> (r: String)
        ensures
            r@ == report_view(self.files as nat, views(self.entries@), self.total as nat),
    {
        let mut r = String::from_str("Searching ");
        let files = decimal_string(self.files);
        r.append(files.as_str());
        r.append(" files.\n\n");
        let ghost head = r@;
        let mut i: usize = 0;
        assert(views(self.entries@).subrange(0, 0) =~= Seq::empty());
        while i < self.entries.len()
            invariant
                i <= self.entries@.len(),
                r@ == head + lines_view(views(self.entries@).subrange(0, i as int)),
            decreases self.entries@.len() - i,
        {
            r.append(self.entries[i].as_str());
            r.append("\n");
            assert(views(self.entries@).subrange(0, i + 1).drop_last() =~= views(
                self.entries@,
            ).subrange(0, i as int));
            i = i + 1;
        }
        assert(views(self.entries@).subrange(0, i as int) =~= views(self.entries@));
        r.append("\nFound ");
        let total = decimal_string(self.total);
        r.append(total.as_str());
        r.append(" total results.\n");
        r
    }
}

} // verus!
