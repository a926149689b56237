//! The contributors preprocessor's computing core: given, for each commit
//! of the repository's history, whether it touches the chapter's file and
//! who wrote it, the contributors are tallied by e-mail address, sorted by
//! their number of commits, and appended to the chapter as a footer.  The
//! caller walks the repository and hands the history in as plain records.

use crate::strings::contains_pat;
use crate::strings::contains_seq;
use vstd::prelude::*;
use vstd::string::StrSliceExecFns;
use vstd::string::StringExecFns;

verus! {

/// The contributors preprocessor.
pub struct Authors;

impl Authors {
    /// The name under which the preprocessor is configured.
    pub fn name(&self) -> (r: &'static str)
        ensures
            r@ == "authors"@,
    {
        "authors"
    }

    /// Every renderer is supported.
    pub fn supports_renderer(&self, renderer: &str) -> (r: bool)
        ensures
            r,
    {
        let _ = renderer;
        true
    }
}

/// What one commit of the walked history contributes: whether the chapter's
/// file exists in the commit's tree, and the author's address and name.
pub struct CommitInfo {
    pub touches_file: bool,
    pub email: String,
    pub name: String,
}

/// The mathematical counterpart of `CommitInfo`.
pub struct CommitInfoV {
    pub touches_file: bool,
    pub email: Seq<char>,
    pub name: Seq<char>,
}

impl View for CommitInfo {
    type V = CommitInfoV;

    open spec fn view(&self) -> CommitInfoV {
        CommitInfoV { touches_file: self.touches_file, email: self.email@, name: self.name@ }
    }
}

impl DeepView for CommitInfo {
    type V = CommitInfoV;

    open spec fn deep_view(&self) -> CommitInfoV {
        self.view()
    }
}

/// One contributor: an e-mail address, the number of counted commits, and
/// the author's name as first seen.
pub struct Entry {
    pub email: String,
    pub number: i64,
    pub name: String,
}

/// The mathematical counterpart of `Entry`.
pub struct EntryV {
    pub email: Seq<char>,
    pub number: int,
    pub name: Seq<char>,
}

impl View for Entry {
    type V = EntryV;

    open spec fn view(&self) -> EntryV {
        EntryV { email: self.email@, number: self.number as int, name: self.name@ }
    }
}

impl DeepView for Entry {
    type V = EntryV;

    open spec fn deep_view(&self) -> EntryV {
        self.view()
    }
}

/// Addresses of this shape are throwaway forge addresses and are not
/// counted.
pub open spec fn is_noreply(email: Seq<char>) -> bool {
    contains_seq(email, "users.noreply.github.com"@)
}

/// The first entry carrying `email`, or -1.
pub open spec fn email_index(entries: Seq<EntryV>, email: Seq<char>) -> int
    decreases entries.len(),
{
    if entries.len() == 0 {
        -1
    } else if entries[0].email == email {
        0
    } else {
        let r = email_index(entries.drop_first(), email);
        if r < 0 {
            -1
        } else {
            r + 1
        }
    }
}

///`email_index` finds the first matching entry, and -1 means none
/// matches.
pub proof fn lemma_email_index(entries: Seq<EntryV>, email: Seq<char>)
    ensures
        email_index(entries, email) == -1 ==> forall|k: int|
            0 <= k < entries.len() ==> (#[trigger] entries[k]).email != email,
        email_index(entries, email) != -1 ==> {
            &&& 0 <= email_index(entries, email) < entries.len()
            &&& entries[email_index(entries, email)].email == email
            &&& forall|k: int|
                0 <= k < email_index(entries, email) ==> (#[trigger] entries[k]).email != email
        },
    decreases entries.len(),
{
    if entries.len() == 0 {
    } else if entries[0].email == email {
    } else {
        lemma_email_index(entries.drop_first(), email);
        let r = email_index(entries.drop_first(), email);
        if r < 0 {
            assert forall|k: int| 0 <= k < entries.len() implies (#[trigger] entries[k]).email
                != email by {
                if k > 0 {
                    assert(entries[k] == entries.drop_first()[k - 1]);
                }
            }
        } else {
            assert(entries[r + 1] == entries.drop_first()[r]);
            assert forall|k: int| 0 <= k < r + 1 implies (#[trigger] entries[k]).email != email by {
                if k > 0 {
                    assert(entries[k] == entries.drop_first()[k - 1]);
                }
            }
        }
    }
}

/// The contributor tally of the walked history, in order of first
/// appearance: a commit that touches the file and does not carry a
/// throwaway address inserts its author with one commit, or raises the
/// author's count by one.
pub open spec fn tally(commits: Seq<CommitInfoV>) -> Seq<EntryV>
    decreases commits.len(),
{
    if commits.len() == 0 {
        Seq::empty()
    } else {
        let prev = tally(commits.drop_last());
        let c = commits.last();
        if !c.touches_file || is_noreply(c.email) {
            prev
        } else {
            let idx = email_index(prev, c.email);
            if idx < 0 {
                prev.push(EntryV { email: c.email, number: 1, name: c.name })
            } else {
                prev.update(
                    idx,
                    EntryV {
                        email: prev[idx].email,
                        number: prev[idx].number + 1,
                        name: prev[idx].name,
                    },
                )
            }
        }
    }
}

/// Every count of the tally is positive and at most the number of walked
/// commits.
pub proof fn lemma_tally_bound(commits: Seq<CommitInfoV>)
    ensures
        forall|k: int|
            0 <= k < tally(commits).len() ==> 0 < (#[trigger] tally(commits)[k]).number
                <= commits.len(),
    decreases commits.len(),
{
    if commits.len() == 0 {
    } else {
        lemma_tally_bound(commits.drop_last());
        let prev = tally(commits.drop_last());
        let c = commits.last();
        if !c.touches_file || is_noreply(c.email) {
        } else {
            lemma_email_index(prev, c.email);
        }
    }
}

/// The first entry with the greatest count.
pub open spec fn max_index(s: Seq<EntryV>) -> int
    decreases s.len(),
{
    if s.len() <= 1 {
        0
    } else {
        let m = max_index(s.drop_last());
        if s.last().number > s[m].number {
            s.len() - 1
        } else {
            m
        }
    }
}

pub proof fn lemma_max_index_bounds(s: Seq<EntryV>)
    requires
        s.len() > 0,
    ensures
        0 <= max_index(s) < s.len(),
    decreases s.len(),
{
    if s.len() > 1 {
        lemma_max_index_bounds(s.drop_last());
    }
}

/// The tally sorted by falling count: the first entry with the greatest
/// count is taken out first, so entries with equal counts keep their
/// order of first appearance.
pub open spec fn sort_desc_spec(s: Seq<EntryV>) -> Seq<EntryV>
    decreases s.len(),
{
    if s.len() == 0 {
        Seq::empty()
    } else {
        proof {
            lemma_max_index_bounds(s);
        }
        let m = max_index(s);
        seq![s[m]] + sort_desc_spec(s.remove(m))
    }
}

/// One contributor's footer line: the author's gravatar and name, linked
/// to a mail address.
pub open spec fn entry_text(e: EntryV) -> Seq<char> {
    "\n[!["@ + e.name + "](https://www.gravatar.com/avatar/"@ + e.email + "?s=32) "@ + e.email
        + "](mailto:"@ + e.email + ")"@
}

/// The footer lines of all contributors, in order.
pub open spec fn entries_text(s: Seq<EntryV>) -> Seq<char>
    decreases s.len(),
{
    if s.len() == 0 {
        Seq::empty()
    } else {
        entries_text(s.drop_last()) + entry_text(s.last())
    }
}

/// The chapter with its contributors footer: absent when nobody is
/// counted, so the chapter is then left alone.
pub open spec fn process_spec(commits: Seq<CommitInfoV>, source: Seq<char>) -> Option<Seq<char>> {
    let entries = sort_desc_spec(tally(commits));
    if entries.len() > 0 {
        Some(source + "\n# Contributors\n"@ + entries_text(entries))
    } else {
        None
    }
}

/// Tally the walked history into contributor entries, in order of first
/// appearance.
fn tally_commits(commits: &Vec<CommitInfo>) -> (r: Vec<Entry>)
    requires
        commits.len() <= i64::MAX,
    ensures
        r.deep_view() == tally(commits.deep_view()),
{
    let ghost cv = commits.deep_view();
    let mut entries: Vec<Entry> = Vec::new();
    let mut i: usize = 0;
    proof {
        assert(cv.take(0) =~= Seq::<CommitInfoV>::empty());
        assert(entries.deep_view() =~= Seq::<EntryV>::empty());
    }
    while i < commits.len()
        invariant
            0 <= i <= commits.len(),
            cv == commits.deep_view(),
            cv.len() == commits.len(),
            commits.len() <= i64::MAX,
            entries.deep_view() == tally(cv.take(i as int)),
        decreases commits.len() - i,
    {
        proof {
            assert(cv.take(i + 1).drop_last() =~= cv.take(i as int));
            assert(cv.take(i + 1).last() == cv[i as int]);
            assert(cv[i as int] == commits@[i as int].deep_view());
        }
        let ghost prev = entries.deep_view();
        let c = &commits[i];
        proof {
            reveal_strlit("users.noreply.github.com");
        }
        if c.touches_file && !contains_pat(c.email.as_str(), "users.noreply.github.com") {
            let mut idx: Option<usize> = None;
            let mut j: usize = 0;
            while j < entries.len()
                invariant
                    0 <= j <= entries.len(),
                    prev == entries.deep_view(),
                    prev.len() == entries.len(),
                    match idx {
                        Some(x) => x < j && prev[x as int].email == c.email@ && forall|k: int|
                            0 <= k < x ==> (#[trigger] prev[k]).email != c.email@,
                        None => forall|k: int|
                            0 <= k < j ==> (#[trigger] prev[k]).email != c.email@,
                    },
                decreases entries.len() - j,
            {
                if idx.is_none() {
                    let e = &entries[j];
                    if e.email == c.email {
                        idx = Some(j);
                    }
                }
                j += 1;
            }
            proof {
                lemma_email_index(prev, c.email@);
            }
            match idx {
                None => {
                    entries.push(
                        Entry { email: c.email.clone(), number: 1, name: c.name.clone() },
                    );
                    proof {
                        assert(entries.deep_view() =~= prev.push(
                            EntryV { email: c.email@, number: 1, name: c.name@ },
                        ));
                    }
                },
                Some(x) => {
                    proof {
                        lemma_tally_bound(cv.take(i as int));
                        assert(prev[x as int].number <= i);
                    }
                    let e = &entries[x];
                    let updated = Entry {
                        email: e.email.clone(),
                        number: e.number + 1,
                        name: e.name.clone(),
                    };
                    entries.set(x, updated);
                    proof {
                        assert(entries.deep_view() =~= prev.update(
                            x as int,
                            EntryV {
                                email: prev[x as int].email,
                                number: prev[x as int].number + 1,
                                name: prev[x as int].name,
                            },
                        ));
                    }
                },
            }
        }
        i += 1;
    }
    proof {
        assert(cv.take(commits.len() as int) =~= cv);
    }
    entries
}

/// Sort the contributors by falling count, the first greatest first.
fn sort_entries(entries: Vec<Entry>) -> (r: Vec<Entry>)
    ensures
        r.deep_view() == sort_desc_spec(entries.deep_view()),
{
    let ghost orig = entries.deep_view();
    let mut remaining = entries;
    let mut out: Vec<Entry> = Vec::new();
    proof {
        assert(out.deep_view() + sort_desc_spec(orig) =~= sort_desc_spec(orig));
    }
    while remaining.len() > 0
        invariant
            out.deep_view() + sort_desc_spec(remaining.deep_view()) == sort_desc_spec(orig),
        decreases remaining.len(),
    {
        let ghost rv = remaining.deep_view();
        let mut best: usize = 0;
        let mut j: usize = 1;
        proof {
            assert(rv.take(1).len() == 1);
        }
        while j < remaining.len()
            invariant
                1 <= j <= remaining.len(),
                0 <= best < j,
                rv == remaining.deep_view(),
                rv.len() == remaining.len(),
                best == max_index(rv.take(j as int)),
            decreases remaining.len() - j,
        {
            proof {
                assert(rv.take(j + 1).drop_last() =~= rv.take(j as int));
                assert(rv.take(j + 1).last() == rv[j as int]);
                lemma_max_index_bounds(rv.take(j as int));
                assert(rv.take(j + 1)[best as int] == rv[best as int]);
            }
            let a = &remaining[j];
            let b = &remaining[best];
            if a.number > b.number {
                best = j;
            }
            j += 1;
        }
        proof {
            assert(rv.take(remaining.len() as int) =~= rv);
            lemma_max_index_bounds(rv);
        }
        let ghost old_out = out.deep_view();
        let e = remaining.remove(best);
        out.push(e);
        proof {
            assert(remaining.deep_view() =~= rv.remove(best as int));
            assert(out.deep_view() =~= old_out + seq![rv[best as int]]);
            assert(sort_desc_spec(rv) == seq![rv[best as int]] + sort_desc_spec(
                rv.remove(best as int),
            ));
            assert(old_out + (seq![rv[best as int]] + sort_desc_spec(rv.remove(best as int)))
                =~= (old_out + seq![rv[best as int]]) + sort_desc_spec(rv.remove(best as int)));
        }
    }
    proof {
        assert(remaining.deep_view().len() == 0);
        assert(sort_desc_spec(remaining.deep_view()) =~= Seq::<EntryV>::empty());
        assert(out.deep_view() + Seq::<EntryV>::empty() =~= out.deep_view());
    }
    out
}

/// Append one contributor's footer line.
fn append_entry(acc: &mut String, e: &Entry)
    ensures
        final(acc)@ == old(acc)@ + entry_text(e@),
{
    acc.append("\n[![");
    acc.append(e.name.as_str());
    acc.append("](https://www.gravatar.com/avatar/");
    acc.append(e.email.as_str());
    acc.append("?s=32) ");
    acc.append(e.email.as_str());
    acc.append("](mailto:");
    acc.append(e.email.as_str());
    acc.append(")");
    proof {
        assert(acc@ =~= old(acc)@ + entry_text(e@));
    }
}

/// Append the contributors footer to the chapter: commits touching the
/// chapter's file are tallied by address, throwaway forge addresses are
/// dropped, and the contributors stand sorted by falling commit count.
/// Absent when nobody is counted.
pub fn process(commits: &Vec<CommitInfo>, source: &String) -> (r: Option<String>)
    requires
        commits.len() <= i64::MAX,
    ensures
        r.deep_view() == process_spec(commits.deep_view(), source@),
{
    let entries = sort_entries(tally_commits(commits));
    if entries.len() > 0 {
        let mut acc = String::from_str(source.as_str());
        acc.append("\n# Contributors\n");
        let ghost base = acc@;
        let ghost ev = entries.deep_view();
        let mut i: usize = 0;
        proof {
            assert(entries_text(ev.take(0)) =~= Seq::<char>::empty());
            assert(acc@ =~= base + entries_text(ev.take(0)));
        }
        while i < entries.len()
            invariant
                0 <= i <= entries.len(),
                ev == entries.deep_view(),
                ev.len() == entries.len(),
                acc@ == base + entries_text(ev.take(i as int)),
            decreases entries.len() - i,
        {
            proof {
                assert(ev.take(i + 1).drop_last() =~= ev.take(i as int));
                assert(ev.take(i + 1).last() == ev[i as int]);
            }
            append_entry(&mut acc, &entries[i]);
            proof {
                assert(acc@ =~= base + entries_text(ev.take(i + 1)));
            }
            i += 1;
        }
        proof {
            assert(ev.take(entries.len() as int) =~= ev);
        }
        Some(acc)
    } else {
        None
    }
}

} // verus!
