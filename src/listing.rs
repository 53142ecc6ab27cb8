use vstd::prelude::*;
use vstd::seq_lib::{lemma_multiset_commutative, to_multiset_remove};
use vstd::string::*;

use crate::naming::{ledger_name, ledger_name_of};

verus! {

/// One ledger as the directory listing shows it.
#[derive(Debug, Clone)]
pub struct LedgerInfo {
    /// Display name: the file's top-level `"name"` string, else its file name.
    pub name: String,
    /// Base name of the file on disk.
    pub filename: String,
    /// Full path of the file.
    pub path: String,
    /// Modification time in seconds since the epoch, 0 where unreadable.
    pub modified: u64,
    /// Size in bytes.
    pub size: u64,
}

/// What a [`LedgerInfo`] holds, as plain values.
pub struct LedgerView {
    pub name: Seq<char>,
    pub filename: Seq<char>,
    pub path: Seq<char>,
    pub modified: u64,
    pub size: u64,
}

impl View for LedgerInfo {
    type V = LedgerView;

    open spec fn view(&self) -> LedgerView {
        LedgerView {
            name: self.name@,
            filename: self.filename@,
            path: self.path@,
            modified: self.modified,
            size: self.size,
        }
    }
}

/// The views of a sequence of ledgers.
pub open spec fn views(s: Seq<LedgerInfo>) -> Seq<LedgerView> {
    s.map_values(|l: LedgerInfo| l@)
}

/// Newest first: no ledger is listed before one modified later.
pub open spec fn newest_first(s: Seq<LedgerView>) -> bool {
    forall|i: int, j: int| 0 <= i < j < s.len() ==> s[i].modified >= s[j].modified
}

/// The ledgers of `s` modified at time `t`, in the order of `s`.
pub open spec fn modified_at(s: Seq<LedgerView>, t: u64) -> Seq<LedgerView> {
    s.filter(|l: LedgerView| l.modified == t)
}

/// Inserting an element anywhere adds it to the multiset of a sequence.
proof fn lemma_insert_to_multiset<A>(s: Seq<A>, j: int, a: A)
    requires
        0 <= j <= s.len(),
    ensures
        s.insert(j, a).to_multiset() =~= s.to_multiset().insert(a),
{
    broadcast use vstd::multiset::group_multiset_axioms;
    broadcast use vstd::seq_lib::group_to_multiset_ensures;

    let left = s.subrange(0, j);
    let right = s.subrange(j, s.len() as int);
    assert(s =~= left + right);
    lemma_multiset_commutative(left, right);
    lemma_multiset_commutative(left.push(a), right);
}

/// Placing `a` at `j`, after every ledger newer than it and before every
/// other one, adds it at the front of the ledgers modified when it was.
proof fn lemma_insert_modified_at(s: Seq<LedgerView>, j: int, a: LedgerView, t: u64)
    requires
        0 <= j <= s.len(),
        forall|k: int| 0 <= k < j ==> s[k].modified > a.modified,
    ensures
        modified_at(s.insert(j, a), t) == if a.modified == t {
            seq![a] + modified_at(s, t)
        } else {
            modified_at(s, t)
        },
{
    let p = |l: LedgerView| l.modified == t;
    let left = s.subrange(0, j);
    let right = s.subrange(j, s.len() as int);
    assert(s =~= left + right);
    assert(s.insert(j, a) =~= left + (seq![a] + right));
    Seq::filter_distributes_over_add(left, right, p);
    Seq::filter_distributes_over_add(left, seq![a] + right, p);
    right.lemma_filter_prepend(a, p);
    if a.modified == t {
        assert(left.all(|x: LedgerView| !p(x)));
        left.lemma_all_neg_filter_empty(p);
        assert(left.filter(p) =~= Seq::<LedgerView>::empty());
    }
    assert(modified_at(s.insert(j, a), t) =~= if a.modified == t {
        seq![a] + modified_at(s, t)
    } else {
        modified_at(s, t)
    });
}

/// The ledgers of `v` newest first. Ledgers modified at the same time keep
/// the order they had in `v`.
pub fn sort_newest_first(v: Vec<LedgerInfo>) -> (r: Vec<LedgerInfo>)
    ensures
        views(r@).to_multiset() == views(v@).to_multiset(),
        newest_first(views(r@)),
        forall|t: u64| #[trigger] modified_at(views(r@), t) == modified_at(views(v@), t),
{
    broadcast use vstd::multiset::group_multiset_axioms;
    broadcast use vstd::seq_lib::group_to_multiset_ensures;

    let ghost all = views(v@);
    let mut rest = v;
    let mut out: Vec<LedgerInfo> = Vec::new();
    proof {
        assert(all.subrange(rest@.len() as int, all.len() as int) =~= Seq::<LedgerView>::empty());
        assert(views(out@) =~= Seq::<LedgerView>::empty());
    }
    while rest.len() > 0
        invariant
            rest@.len() <= all.len(),
            views(rest@) == all.subrange(0, rest@.len() as int),
            views(out@).to_multiset() == all.subrange(rest@.len() as int, all.len() as int).to_multiset(),
            newest_first(views(out@)),
            forall|t: u64| #[trigger] modified_at(views(out@), t) == modified_at(all.subrange(rest@.len() as int, all.len() as int), t),
        decreases rest@.len(),
    {
        let ghost before = views(out@);
        let ghost m = rest@.len() as int;
        let ghost old_rest = rest@;
        let x = rest.pop().unwrap();
        let ghost xv = x@;
        assert(views(old_rest)[m - 1] == old_rest[m - 1]@);
        assert(xv == all[m - 1]);
        let mut j: usize = 0;
        while j < out.len() && out[j].modified > x.modified
            invariant
                j <= out@.len(),
                before == views(out@),
                xv == x@,
                forall|k: int| 0 <= k < j ==> before[k].modified > xv.modified,
            decreases out@.len() - j,
        {
            j = j + 1;
        }
        out.insert(j, x);
        proof {
            let done = all.subrange(m, all.len() as int);
            let done2 = all.subrange(m - 1, all.len() as int);
            assert(done2 =~= seq![xv] + done);
            assert(views(out@) =~= before.insert(j as int, xv));
            assert(views(rest@) =~= all.subrange(0, m - 1));
            lemma_insert_to_multiset(before, j as int, xv);
            assert(done2.remove(0) =~= done);
            to_multiset_remove(done2, 0);
            assert(done2.contains(xv)) by {
                assert(done2[0] == xv);
            }
            done2.to_multiset_ensures();
            assert(done2.to_multiset().count(xv) > 0);
            assert(done.to_multiset() == done2.to_multiset().remove(xv));
            assert(views(out@).to_multiset() =~= done2.to_multiset());
            assert forall|t: u64| #[trigger] modified_at(views(out@), t) == modified_at(done2, t) by {
                lemma_insert_modified_at(before, j as int, xv, t);
                done.lemma_filter_prepend(xv, |l: LedgerView| l.modified == t);
                if xv.modified == t {
                    assert(modified_at(done2, t) =~= seq![xv] + modified_at(done, t));
                } else {
                    assert(modified_at(done2, t) =~= modified_at(done, t));
                }
            }
            assert forall|a: int, b: int| 0 <= a < b < views(out@).len() implies
                views(out@)[a].modified >= views(out@)[b].modified by {
                if j < before.len() && b > j {
                    assert(before[j as int].modified <= xv.modified);
                }
            }
        }
    }
    proof {
        assert(all.subrange(0, all.len() as int) =~= all);
    }
    out
}

/// The suffix that marks a ledger file.
pub open spec fn json_suffix() -> Seq<char> {
    seq!['.', 'j', 's', 'o', 'n']
}

/// A file name whose extension is `json`: it ends in `.json`, and that dot
/// is not the name's first character (`.json` alone is a hidden file with no
/// extension).
pub open spec fn is_json_name(n: Seq<char>) -> bool {
    &&& n.len() > json_suffix().len()
    &&& n.subrange(n.len() - json_suffix().len(), n.len() as int) == json_suffix()
}

/// Whether `name` is the file name of a ledger, that is has the extension `json`.
pub fn is_ledger_file_name(name: &str) -> (r: bool)
    ensures
        r == is_json_name(name@),
{
    let suffix: [char; 5] = ['.', 'j', 's', 'o', 'n'];
    let n = name.unicode_len();
    if n <= 5 {
        return false;
    }
    let start: usize = n - 5;
    let mut k: usize = 0;
    while k < 5
        invariant
            n == name@.len(),
            n > 5,
            start == n - 5,
            k <= 5,
            suffix@ == json_suffix(),
            forall|i: int| 0 <= i < k ==> name@[start + i] == json_suffix()[i],
        decreases 5 - k,
    {
        if name.get_char(start + k) != suffix[k] {
            proof {
                assert(name@.subrange(start as int, n as int)[k as int] != json_suffix()[k as int]);
            }
            return false;
        }
        k = k + 1;
    }
    assert(name@.subrange(start as int, n as int) =~= json_suffix());
    true
}


/// What the listing needs to know of one entry of the ledgers directory.
pub struct DirEntryInfo {
    /// Base name of the entry.
    pub filename: String,
    /// Full path of the entry.
    pub path: String,
    /// Whether the entry is a regular file.
    pub is_file: bool,
    /// Modification time in seconds since the epoch, `None` where unreadable.
    pub modified: Option<u64>,
    /// Size in bytes.
    pub size: u64,
    /// The entry's text, `None` where it could not be read.
    pub content: Option<String>,
}

/// What a [`DirEntryInfo`] holds, as plain values.
pub struct EntryView {
    pub filename: Seq<char>,
    pub path: Seq<char>,
    pub is_file: bool,
    pub modified: Option<u64>,
    pub size: u64,
    pub content: Option<Seq<char>>,
}

impl View for DirEntryInfo {
    type V = EntryView;

    open spec fn view(&self) -> EntryView {
        EntryView {
            filename: self.filename@,
            path: self.path@,
            is_file: self.is_file,
            modified: self.modified,
            size: self.size,
            content: match self.content {
                Some(c) => Some(c@),
                None => None,
            },
        }
    }
}

/// The views of a sequence of directory entries.
pub open spec fn entry_views(s: Seq<DirEntryInfo>) -> Seq<EntryView> {
    s.map_values(|e: DirEntryInfo| e@)
}

/// An entry is listed when it is a file whose extension is `json`;
/// subdirectories are not entered.
pub open spec fn is_ledger_entry(e: EntryView) -> bool {
    e.is_file && is_json_name(e.filename)
}

/// How the listing shows a ledger entry.
pub open spec fn summary_of(e: EntryView) -> LedgerView {
    LedgerView {
        name: ledger_name_of(e.filename, e.content),
        filename: e.filename,
        path: e.path,
        modified: match e.modified {
            Some(m) => m,
            None => 0,
        },
        size: e.size,
    }
}

/// One summary for each ledger entry of `s`, in the order of `s`.
pub open spec fn summaries_of(s: Seq<EntryView>) -> Seq<LedgerView> {
    s.filter(|e: EntryView| is_ledger_entry(e)).map_values(|e: EntryView| summary_of(e))
}

/// Whether the directory entry `entry` is listed as a ledger.
pub fn is_ledger_entry_info(entry: &DirEntryInfo) -> (r: bool)
    ensures
        r == is_ledger_entry(entry@),
{
    entry.is_file && is_ledger_file_name(entry.filename.as_str())
}

/// How the listing shows the ledger file `entry`: its `"name"` field or file
/// name as name, and 0 as modification time where that is unknown.
pub fn summarize(entry: &DirEntryInfo) -> (r: LedgerInfo)
    ensures
        r@ == summary_of(entry@),
{
    let content: Option<&str> = match &entry.content {
        Some(c) => Some(c.as_str()),
        None => None,
    };
    let name = ledger_name(entry.filename.as_str(), content);
    let modified: u64 = match entry.modified {
        Some(m) => m,
        None => 0,
    };
    LedgerInfo {
        name,
        filename: entry.filename.clone(),
        path: entry.path.clone(),
        modified,
        size: entry.size,
    }
}

/// The ledgers of a directory whose entries are `entries`: one summary for
/// each file with the extension `json`, newest first; ledgers modified at the
/// same time keep the order of `entries`.
pub fn list_ledgers(entries: &Vec<DirEntryInfo>) -> (r: Vec<LedgerInfo>)
    ensures
        views(r@).to_multiset() == summaries_of(entry_views(entries@)).to_multiset(),
        newest_first(views(r@)),
        forall|t: u64| #[trigger] modified_at(views(r@), t)
            == modified_at(summaries_of(entry_views(entries@)), t),
{
    let mut found: Vec<LedgerInfo> = Vec::new();
    let mut i: usize = 0;
    proof {
        assert(entry_views(entries@.subrange(0, 0)) =~= Seq::<EntryView>::empty());
        assert(summaries_of(Seq::<EntryView>::empty()) =~= Seq::<LedgerView>::empty());
        assert(views(found@) =~= Seq::<LedgerView>::empty());
    }
    while i < entries.len()
        invariant
            i <= entries@.len(),
            views(found@) == summaries_of(entry_views(entries@.subrange(0, i as int))),
        decreases entries@.len() - i,
    {
        let entry = &entries[i];
        let ghost prev = entry_views(entries@.subrange(0, i as int));
        let ghost next = entry_views(entries@.subrange(0, i + 1));
        proof {
            assert(next =~= prev.push(entry@));
            prev.lemma_filter_push(entry@, |e: EntryView| is_ledger_entry(e));
        }
        if is_ledger_entry_info(entry) {
            let ghost before = views(found@);
            found.push(summarize(entry));
            proof {
                assert(views(found@) =~= before.push(summary_of(entry@)));
                assert(summaries_of(next) =~= summaries_of(prev).push(summary_of(entry@)));
            }
        } else {
            proof {
                assert(summaries_of(next) =~= summaries_of(prev));
            }
        }
        i = i + 1;
    }
    proof {
        assert(entries@.subrange(0, entries@.len() as int) =~= entries@);
    }
    sort_newest_first(found)
}

/// A file that is not in the directory is not listed: where no entry has the
/// path `p`, no ledger of a listing of those entries has it, so a ledger that
/// was deleted is gone from the next listing.
pub proof fn lemma_absent_file_not_listed(entries: Seq<DirEntryInfo>, listed: Seq<LedgerInfo>, p: Seq<char>)
    requires
        views(listed).to_multiset() == summaries_of(entry_views(entries)).to_multiset(),
        forall|i: int| 0 <= i < entries.len() ==> entries[i].path@ != p,
    ensures
        forall|k: int| 0 <= k < listed.len() ==> listed[k].path@ != p,
{
    let ev = entry_views(entries);
    let pred = |e: EntryView| is_ledger_entry(e);
    let kept = ev.filter(pred);
    let sums = summaries_of(ev);
    assert forall|k: int| 0 <= k < listed.len() implies listed[k].path@ != p by {
        let v = views(listed)[k];
        views(listed).to_multiset_ensures();
        sums.to_multiset_ensures();
        assert(views(listed).contains(v));
        assert(views(listed).to_multiset().count(v) > 0);
        assert(sums.to_multiset().count(v) > 0);
        assert(sums.contains(v));
        let j = choose|j: int| 0 <= j < sums.len() && sums[j] == v;
        assert(sums[j] == summary_of(kept[j]));
        assert(kept.contains(kept[j]));
        ev.lemma_filter_contains_rev(pred, kept[j]);
        let i = choose|i: int| 0 <= i < ev.len() && ev[i] == kept[j];
        assert(ev[i].path == entries[i].path@);
        assert(v.path == kept[j].path);
    }
}

} // verus!
