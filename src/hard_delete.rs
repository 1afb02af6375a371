//! Irreversible removal of a blob, with a preview that reports exactly what
//! the commit touches.
use vstd::prelude::*;
use crate::blob::BlobService;
use crate::digest::{blob_key, empty_digest, hex_of, is_empty_blob_digest, is_empty_digest};
use crate::error::Error;
use crate::file::FileService;
use crate::model::{
    bytes_eq, copy_string, Database, FileEntity, FileRevision, FileState, RevisionType, UserAvatar,
};

verus! {

/// How many identifiers each category of a hard-deletion report samples.
pub const SAMPLE_COUNT: usize = 10;

/// `acc` with `x` appended unless it is already there.
pub open spec fn add_distinct(acc: Seq<i64>, x: i64) -> Seq<i64> {
    if acc.contains(x) {
        acc
    } else {
        acc.push(x)
    }
}

/// The distinct elements of `s`, in order of first occurrence.
pub open spec fn distinct(s: Seq<i64>) -> Seq<i64>
    decreases s.len(),
{
    if s.len() == 0 {
        Seq::empty()
    } else {
        add_distinct(distinct(s.drop_last()), s.last())
    }
}

/// The first `SAMPLE_COUNT` elements of `s`.
pub open spec fn first_samples(s: Seq<i64>) -> Seq<i64> {
    if s.len() <= SAMPLE_COUNT {
        s
    } else {
        s.subrange(0, SAMPLE_COUNT as int)
    }
}

/// How many elements a sample of a category with `n` elements has.
pub open spec fn sample_len(n: int) -> int {
    if n <= SAMPLE_COUNT {
        n
    } else {
        SAMPLE_COUNT as int
    }
}

/// `s` with `x` inserted before its first element that is not below `x`.
pub open spec fn insert_sorted(s: Seq<i64>, x: i64) -> Seq<i64>
    decreases s.len(),
{
    if s.len() == 0 {
        seq![x]
    } else if x <= s[0] {
        seq![x] + s
    } else {
        seq![s[0]] + insert_sorted(s.drop_first(), x)
    }
}

/// `s` sorted in ascending order (insertion sort).
pub open spec fn sort_seq(s: Seq<i64>) -> Seq<i64>
    decreases s.len(),
{
    if s.len() == 0 {
        Seq::empty()
    } else {
        insert_sorted(sort_seq(s.drop_last()), s.last())
    }
}

/// The sample reported for a category: its `SAMPLE_COUNT` smallest
/// elements, in ascending order.
pub open spec fn sample(s: Seq<i64>) -> Seq<i64> {
    first_samples(sort_seq(s))
}

/// Each element is at most the next.
pub open spec fn nondecreasing(s: Seq<i64>) -> bool {
    forall|i: int, j: int| 0 <= i < j < s.len() ==> s[i] <= s[j]
}

/// Each element is below the next.
pub open spec fn increasing(s: Seq<i64>) -> bool {
    forall|i: int, j: int| 0 <= i < j < s.len() ==> s[i] < s[j]
}

proof fn lemma_insert_sorted_at(s: Seq<i64>, x: i64, i: int)
    requires
        0 <= i <= s.len(),
        forall|j: int| 0 <= j < i ==> s[j] < x,
        i == s.len() || x <= s[i],
    ensures
        insert_sorted(s, x) == s.insert(i, x),
    decreases i,
{
    if i == 0 {
        if s.len() == 0 {
            assert(seq![x] =~= s.insert(0, x));
        } else {
            assert(seq![x] + s =~= s.insert(0, x));
        }
    } else {
        let t = s.drop_first();
        assert forall|j: int| 0 <= j < i - 1 implies t[j] < x by {
            assert(t[j] == s[j + 1]);
        }
        if i - 1 < t.len() {
            assert(t[i - 1] == s[i]);
        }
        lemma_insert_sorted_at(t, x, i - 1);
        assert(seq![s[0]] + t.insert(i - 1, x) =~= s.insert(i, x));
    }
}

proof fn lemma_insert_sorted_props(s: Seq<i64>, x: i64)
    ensures
        insert_sorted(s, x).len() == s.len() + 1,
        forall|y: i64| #[trigger] insert_sorted(s, x).contains(y) <==> (s.contains(y) || y == x),
        nondecreasing(s) ==> nondecreasing(insert_sorted(s, x)),
        increasing(s) && !s.contains(x) ==> increasing(insert_sorted(s, x)),
    decreases s.len(),
{
    let r = insert_sorted(s, x);
    if s.len() == 0 {
        assert forall|y: i64| #[trigger] r.contains(y) <==> (s.contains(y) || y == x) by {
            if r.contains(y) {
                assert(r[0] == x);
            }
            if y == x {
                assert(r[0] == x);
            }
        }
    } else if x <= s[0] {
        assert forall|y: i64| #[trigger] r.contains(y) <==> (s.contains(y) || y == x) by {
            if r.contains(y) {
                let k = choose|k: int| 0 <= k < r.len() && r[k] == y;
                if k > 0 {
                    assert(s[k - 1] == y);
                }
            }
            if s.contains(y) {
                let k = choose|k: int| 0 <= k < s.len() && s[k] == y;
                assert(r[k + 1] == y);
            }
            if y == x {
                assert(r[0] == x);
            }
        }
        if nondecreasing(s) {
            assert forall|i: int, j: int| 0 <= i < j < r.len() implies r[i] <= r[j] by {
                if i > 0 {
                    assert(r[i] == s[i - 1] && r[j] == s[j - 1]);
                } else {
                    assert(r[j] == s[j - 1]);
                    assert(s[0] <= s[j - 1] || j - 1 == 0);
                }
            }
        }
        if increasing(s) && !s.contains(x) {
            assert(x != s[0]);
            assert forall|i: int, j: int| 0 <= i < j < r.len() implies r[i] < r[j] by {
                if i > 0 {
                    assert(r[i] == s[i - 1] && r[j] == s[j - 1]);
                } else {
                    assert(r[j] == s[j - 1]);
                    assert(s[0] < s[j - 1] || j - 1 == 0);
                }
            }
        }
    } else {
        let t = s.drop_first();
        let rt = insert_sorted(t, x);
        lemma_insert_sorted_props(t, x);
        assert(r == seq![s[0]] + rt);
        assert forall|y: i64| #[trigger] r.contains(y) <==> (s.contains(y) || y == x) by {
            if r.contains(y) {
                let k = choose|k: int| 0 <= k < r.len() && r[k] == y;
                if k == 0 {
                    assert(s[0] == y);
                } else {
                    assert(rt[k - 1] == y);
                    assert(rt.contains(y));
                    if t.contains(y) {
                        let m = choose|m: int| 0 <= m < t.len() && t[m] == y;
                        assert(s[m + 1] == y);
                    }
                }
            }
            if s.contains(y) {
                let k = choose|k: int| 0 <= k < s.len() && s[k] == y;
                if k == 0 {
                    assert(r[0] == y);
                } else {
                    assert(t[k - 1] == y);
                    assert(t.contains(y));
                    assert(rt.contains(y));
                    let m = choose|m: int| 0 <= m < rt.len() && rt[m] == y;
                    assert(r[m + 1] == y);
                }
            }
            if y == x {
                assert(rt.contains(x));
                let m = choose|m: int| 0 <= m < rt.len() && rt[m] == x;
                assert(r[m + 1] == x);
            }
        }
        if nondecreasing(s) {
            assert forall|i: int, j: int| 0 <= i < j < t.len() implies t[i] <= t[j] by {
                assert(t[i] == s[i + 1] && t[j] == s[j + 1]);
            }
            assert forall|i: int, j: int| 0 <= i < j < r.len() implies r[i] <= r[j] by {
                if i > 0 {
                    assert(r[i] == rt[i - 1] && r[j] == rt[j - 1]);
                } else {
                    assert(r[j] == rt[j - 1]);
                    assert(rt.contains(rt[j - 1]));
                    if t.contains(rt[j - 1]) {
                        let m = choose|m: int| 0 <= m < t.len() && t[m] == rt[j - 1];
                        assert(s[m + 1] == rt[j - 1]);
                    }
                }
            }
        }
        if increasing(s) && !s.contains(x) {
            assert forall|i: int, j: int| 0 <= i < j < t.len() implies t[i] < t[j] by {
                assert(t[i] == s[i + 1] && t[j] == s[j + 1]);
            }
            assert(!t.contains(x)) by {
                if t.contains(x) {
                    let m = choose|m: int| 0 <= m < t.len() && t[m] == x;
                    assert(s[m + 1] == x);
                }
            }
            assert forall|i: int, j: int| 0 <= i < j < r.len() implies r[i] < r[j] by {
                if i > 0 {
                    assert(r[i] == rt[i - 1] && r[j] == rt[j - 1]);
                } else {
                    assert(r[j] == rt[j - 1]);
                    assert(rt.contains(rt[j - 1]));
                    if t.contains(rt[j - 1]) {
                        let m = choose|m: int| 0 <= m < t.len() && t[m] == rt[j - 1];
                        assert(s[m + 1] == rt[j - 1]);
                    }
                }
            }
        }
    }
}

proof fn lemma_sort_seq_props(s: Seq<i64>)
    ensures
        sort_seq(s).len() == s.len(),
        forall|y: i64| #[trigger] sort_seq(s).contains(y) <==> s.contains(y),
        nondecreasing(sort_seq(s)),
        s.no_duplicates() ==> increasing(sort_seq(s)),
    decreases s.len(),
{
    if s.len() > 0 {
        let p = s.drop_last();
        lemma_sort_seq_props(p);
        lemma_insert_sorted_props(sort_seq(p), s.last());
        assert forall|y: i64| #[trigger] sort_seq(s).contains(y) <==> s.contains(y) by {
            if p.contains(y) {
                let k = choose|k: int| 0 <= k < p.len() && p[k] == y;
                assert(s[k] == y);
            }
            if s.contains(y) && y != s.last() {
                let k = choose|k: int| 0 <= k < s.len() && s[k] == y;
                assert(p[k] == y);
            }
            if y == s.last() {
                assert(s[s.len() - 1] == y);
            }
        }
        if s.no_duplicates() {
            assert(p.no_duplicates());
            assert(!p.contains(s.last())) by {
                if p.contains(s.last()) {
                    let k = choose|k: int| 0 <= k < p.len() && p[k] == s.last();
                    assert(s[k] == s[s.len() - 1]);
                }
            }
        }
    }
}

proof fn lemma_distinct_props(s: Seq<i64>)
    ensures
        distinct(s).no_duplicates(),
        forall|y: i64| #[trigger] distinct(s).contains(y) <==> s.contains(y),
    decreases s.len(),
{
    if s.len() > 0 {
        let p = s.drop_last();
        lemma_distinct_props(p);
        let dp = distinct(p);
        assert forall|y: i64| #[trigger] distinct(s).contains(y) <==> s.contains(y) by {
            if p.contains(y) {
                let k = choose|k: int| 0 <= k < p.len() && p[k] == y;
                assert(s[k] == y);
            }
            if s.contains(y) && y != s.last() {
                let k = choose|k: int| 0 <= k < s.len() && s[k] == y;
                assert(p[k] == y);
            }
            if dp.contains(y) && !dp.contains(s.last()) {
                let k = choose|k: int| 0 <= k < dp.len() && dp[k] == y;
                assert(dp.push(s.last())[k] == y);
            }
            if y == s.last() {
                assert(s[s.len() - 1] == y);
                if !dp.contains(y) {
                    assert(dp.push(y)[dp.len() as int] == y);
                }
            }
            if !dp.contains(s.last()) && dp.push(s.last()).contains(y) {
                let k = choose|k: int| 0 <= k < dp.len() + 1 && dp.push(s.last())[k] == y;
                if k < dp.len() {
                    assert(dp[k] == y);
                }
            }
        }
    }
}

/// The samples of a report are ascending; those of revisions, files, pages
/// and sites are strictly ascending. Each is drawn from its category and has
/// `min(total, SAMPLE_COUNT)` elements.
pub proof fn lemma_samples_sorted(db: Database, d: Seq<u8>)
    ensures
        ({
            let r = hard_delete_report(db, d);
            let hits = file_hits(db.file.files@, d);
            &&& increasing(r.sample_revision_ids)
            &&& increasing(r.sample_file_ids)
            &&& increasing(r.sample_page_ids)
            &&& increasing(r.sample_site_ids)
            &&& nondecreasing(r.sample_user_ids)
            &&& r.sample_revision_ids.len() == sample_len(r.total_revisions)
            &&& r.sample_file_ids.len() == sample_len(r.total_files)
            &&& r.sample_page_ids.len() == sample_len(r.total_pages)
            &&& r.sample_site_ids.len() == sample_len(r.total_sites)
            &&& r.sample_user_ids.len() == sample_len(r.total_users)
            &&& forall|y: i64| #[trigger] r.sample_revision_ids.contains(y) ==> hits.map_values(|h: Hit| h.0).contains(y)
            &&& forall|y: i64| #[trigger] r.sample_file_ids.contains(y) ==> hits.map_values(|h: Hit| h.1).contains(y)
            &&& forall|y: i64| #[trigger] r.sample_page_ids.contains(y) ==> hits.map_values(|h: Hit| h.2).contains(y)
            &&& forall|y: i64| #[trigger] r.sample_site_ids.contains(y) ==> hits.map_values(|h: Hit| h.3).contains(y)
            &&& forall|y: i64| #[trigger] r.sample_user_ids.contains(y) ==> avatar_hits(db.users@, d).contains(y)
        }),
{
    let hits = file_hits(db.file.files@, d);
    lemma_category_sample(hits.map_values(|h: Hit| h.0));
    lemma_category_sample(hits.map_values(|h: Hit| h.1));
    lemma_category_sample(hits.map_values(|h: Hit| h.2));
    lemma_category_sample(hits.map_values(|h: Hit| h.3));
    let users = avatar_hits(db.users@, d);
    lemma_sort_seq_props(users);
    lemma_first_samples(sort_seq(users));
}

proof fn lemma_first_samples(s: Seq<i64>)
    ensures
        first_samples(s).len() == sample_len(s.len() as int),
        forall|y: i64| #[trigger] first_samples(s).contains(y) ==> s.contains(y),
        s.no_duplicates() ==> first_samples(s).no_duplicates(),
        increasing(s) ==> increasing(first_samples(s)),
        nondecreasing(s) ==> nondecreasing(first_samples(s)),
{
    let f = first_samples(s);
    assert forall|y: i64| #[trigger] f.contains(y) implies s.contains(y) by {
        let k = choose|k: int| 0 <= k < f.len() && f[k] == y;
        assert(s[k] == y);
    }
    if s.no_duplicates() {
        assert forall|i: int, j: int| 0 <= i < j < f.len() implies f[i] != f[j] by {
            assert(f[i] == s[i] && f[j] == s[j]);
        }
    }
    if increasing(s) {
        assert forall|i: int, j: int| 0 <= i < j < f.len() implies f[i] < f[j] by {
            assert(f[i] == s[i] && f[j] == s[j]);
        }
    }
    if nondecreasing(s) {
        assert forall|i: int, j: int| 0 <= i < j < f.len() implies f[i] <= f[j] by {
            assert(f[i] == s[i] && f[j] == s[j]);
        }
    }
}

/// Two strictly ascending sequences with the same elements are equal.
proof fn lemma_increasing_unique(a: Seq<i64>, b: Seq<i64>)
    requires
        increasing(a),
        increasing(b),
        forall|y: i64| #[trigger] a.contains(y) <==> b.contains(y),
    ensures
        a == b,
    decreases a.len(),
{
    if a.len() == 0 {
        if b.len() > 0 {
            assert(b[0] == b[0]);
            assert(b.contains(b[0]));
            assert(a.contains(b[0]));
        }
        assert(a =~= b);
    } else {
        assert(a[0] == a[0]);
        assert(a.contains(a[0]));
        assert(b.contains(a[0]));
        assert(b.len() > 0);
        assert(b[0] == b[0]);
        assert(b.contains(b[0]));
        assert(a.contains(b[0]));
        let k = choose|k: int| 0 <= k < b.len() && b[k] == a[0];
        let m = choose|m: int| 0 <= m < a.len() && a[m] == b[0];
        assert(0 <= k < b.len() && b[k] == a[0]);
        assert(0 <= m < a.len() && a[m] == b[0]);
        if k > 0 {
            assert(b[0] < b[k]);
        }
        if m > 0 {
            assert(a[0] < a[m]);
        }
        assert(a[0] == b[0]);
        let ta = a.drop_first();
        let tb = b.drop_first();
        assert forall|i: int, j: int| 0 <= i < j < ta.len() implies ta[i] < ta[j] by {
            assert(ta[i] == a[i + 1] && ta[j] == a[j + 1]);
        }
        assert forall|i: int, j: int| 0 <= i < j < tb.len() implies tb[i] < tb[j] by {
            assert(tb[i] == b[i + 1] && tb[j] == b[j + 1]);
        }
        assert forall|y: i64| #[trigger] ta.contains(y) <==> tb.contains(y) by {
            if ta.contains(y) {
                let p = choose|p: int| 0 <= p < ta.len() && ta[p] == y;
                assert(a[p + 1] == y);
                assert(a[0] < a[p + 1]);
                assert(a.contains(y));
                assert(b.contains(y));
                let q = choose|q: int| 0 <= q < b.len() && b[q] == y;
                assert(q != 0);
                assert(tb[q - 1] == y);
            }
            if tb.contains(y) {
                let p = choose|p: int| 0 <= p < tb.len() && tb[p] == y;
                assert(b[p + 1] == y);
                assert(b[0] < b[p + 1]);
                assert(b.contains(y));
                assert(a.contains(y));
                let q = choose|q: int| 0 <= q < a.len() && a[q] == y;
                assert(q != 0);
                assert(ta[q - 1] == y);
            }
        }
        lemma_increasing_unique(ta, tb);
        assert(a =~= seq![a[0]] + ta);
        assert(b =~= seq![b[0]] + tb);
    }
}

/// The sample of a category depends on its set of identifiers alone, not on
/// the order in which they were found.
pub proof fn lemma_sample_depends_on_set(a: Seq<i64>, b: Seq<i64>)
    requires
        a.no_duplicates(),
        b.no_duplicates(),
        forall|y: i64| #[trigger] a.contains(y) <==> b.contains(y),
    ensures
        sample(a) == sample(b),
{
    lemma_sort_seq_props(a);
    lemma_sort_seq_props(b);
    assert forall|y: i64| #[trigger] sort_seq(a).contains(y) <==> sort_seq(b).contains(y) by {
        assert(sort_seq(a).contains(y) <==> a.contains(y));
        assert(sort_seq(b).contains(y) <==> b.contains(y));
    }
    lemma_increasing_unique(sort_seq(a), sort_seq(b));
}

proof fn lemma_category_sample(s: Seq<i64>)
    ensures
        increasing(sample(distinct(s))),
        sample(distinct(s)).len() == sample_len(distinct(s).len() as int),
        forall|y: i64| #[trigger] sample(distinct(s)).contains(y) ==> s.contains(y),
{
    lemma_distinct_props(s);
    lemma_sort_seq_props(distinct(s));
    lemma_first_samples(sort_seq(distinct(s)));
}

/// One revision that references the digest being deleted:
/// `(revision_id, file_id, page_id, site_id)`.
pub type Hit = (i64, i64, i64, i64);

/// The revisions among `revs` (of file `file_id`) that reference `d`.
pub open spec fn revision_hits(revs: Seq<FileRevision>, file_id: i64, d: Seq<u8>) -> Seq<Hit>
    decreases revs.len(),
{
    if revs.len() == 0 {
        Seq::empty()
    } else {
        let r = revs.last();
        revision_hits(revs.drop_last(), file_id, d) + if r.digest@ == d {
            seq![(r.revision_id, file_id, r.page_id, r.site_id)]
        } else {
            Seq::empty()
        }
    }
}

/// The revisions of all `files` that reference `d`, file by file.
pub open spec fn file_hits(files: Seq<FileEntity>, d: Seq<u8>) -> Seq<Hit>
    decreases files.len(),
{
    if files.len() == 0 {
        Seq::empty()
    } else {
        file_hits(files.drop_last(), d) + revision_hits(files.last().revisions@, files.last().file_id, d)
    }
}

/// Whether the latest revision of file `f` references `d`: such a file,
/// live or already deleted, is tombstoned by a hard deletion.
pub open spec fn latest_hit(f: FileEntity, d: Seq<u8>) -> bool {
    f.latest().digest@ == d
}

/// How many files have a latest revision that references `d`.
pub open spec fn latest_hits(files: Seq<FileEntity>, d: Seq<u8>) -> nat
    decreases files.len(),
{
    if files.len() == 0 {
        0
    } else {
        latest_hits(files.drop_last(), d) + if latest_hit(files.last(), d) {
            1nat
        } else {
            0nat
        }
    }
}

/// The users whose profile picture is `d`, in order.
pub open spec fn avatar_hits(users: Seq<UserAvatar>, d: Seq<u8>) -> Seq<i64>
    decreases users.len(),
{
    if users.len() == 0 {
        Seq::empty()
    } else {
        avatar_hits(users.drop_last(), d) + if users.last().avatar_digest matches Some(a) && a@
            == d {
            seq![users.last().user_id]
        } else {
            Seq::empty()
        }
    }
}

/// Mathematical form of `HardDeleteOutput`.
pub struct HardDeleteReport {
    pub total_revisions: int,
    pub total_files: int,
    pub total_files_deleted: int,
    pub total_pages: int,
    pub total_sites: int,
    pub total_users: int,
    pub sample_revision_ids: Seq<i64>,
    pub sample_file_ids: Seq<i64>,
    pub sample_page_ids: Seq<i64>,
    pub sample_site_ids: Seq<i64>,
    pub sample_user_ids: Seq<i64>,
}

/// What a hard deletion of `d` touches in `db`: distinct revisions, files,
/// pages and sites referencing it, the files whose latest revision
/// references it, and the users with it as profile picture, with a sample of
/// each.
pub open spec fn hard_delete_report(db: Database, d: Seq<u8>) -> HardDeleteReport {
    let hits = file_hits(db.file.files@, d);
    let revisions = distinct(hits.map_values(|h: Hit| h.0));
    let files = distinct(hits.map_values(|h: Hit| h.1));
    let pages = distinct(hits.map_values(|h: Hit| h.2));
    let sites = distinct(hits.map_values(|h: Hit| h.3));
    let users = avatar_hits(db.users@, d);
    HardDeleteReport {
        total_revisions: revisions.len() as int,
        total_files: files.len() as int,
        total_files_deleted: latest_hits(db.file.files@, d) as int,
        total_pages: pages.len() as int,
        total_sites: sites.len() as int,
        total_users: users.len() as int,
        sample_revision_ids: sample(revisions),
        sample_file_ids: sample(files),
        sample_page_ids: sample(pages),
        sample_site_ids: sample(sites),
        sample_user_ids: sample(users),
    }
}

/// Counts and samples of what a hard deletion touches.
#[derive(Debug, PartialEq, Eq)]
pub struct HardDeleteOutput {
    pub total_revisions: usize,
    pub total_files: usize,
    pub total_files_deleted: usize,
    pub total_pages: usize,
    pub total_sites: usize,
    pub total_users: u64,
    pub sample_revision_ids: Vec<i64>,
    pub sample_file_ids: Vec<i64>,
    pub sample_page_ids: Vec<i64>,
    pub sample_site_ids: Vec<i64>,
    pub sample_user_ids: Vec<i64>,
}

impl View for HardDeleteOutput {
    type V = HardDeleteReport;

    open spec fn view(&self) -> HardDeleteReport {
        HardDeleteReport {
            total_revisions: self.total_revisions as int,
            total_files: self.total_files as int,
            total_files_deleted: self.total_files_deleted as int,
            total_pages: self.total_pages as int,
            total_sites: self.total_sites as int,
            total_users: self.total_users as int,
            sample_revision_ids: self.sample_revision_ids@,
            sample_file_ids: self.sample_file_ids@,
            sample_page_ids: self.sample_page_ids@,
            sample_site_ids: self.sample_site_ids@,
            sample_user_ids: self.sample_user_ids@,
        }
    }
}

pub open spec fn report_view(r: Result<HardDeleteOutput, Error>) -> Result<HardDeleteReport, Error> {
    match r {
        Ok(o) => Ok(o@),
        Err(e) => Err(e),
    }
}

/// What hard-deleting `d` reports, in preview and in commit alike: the
/// empty blob is refused.
pub open spec fn hard_delete_outcome(db: Database, d: Seq<u8>) -> Result<HardDeleteReport, Error> {
    if is_empty_digest(d) {
        Err(Error::BadRequest)
    } else {
        Ok(hard_delete_report(db, d))
    }
}

/// Collects distinct identifiers in order of first occurrence.
struct SamplerCounter {
    items: Vec<i64>,
}

impl SamplerCounter {
    fn new() -> (r: SamplerCounter)
        ensures
            r.items@ == Seq::<i64>::empty(),
    {
        SamplerCounter { items: Vec::new() }
    }

    fn add(&mut self, item: i64)
        ensures
            final(self).items@ == add_distinct(old(self).items@, item),
    {
        let mut i: usize = 0;
        while i < self.items.len()
            invariant
                i <= self.items@.len(),
                forall|j: int| 0 <= j < i ==> self.items@[j] != item,
            decreases self.items@.len() - i,
        {
            if self.items[i] == item {
                assert(self.items@.contains(item));
                return;
            }
            i = i + 1;
        }
        self.items.push(item);
    }

    /// The number of distinct items and the `SAMPLE_COUNT` smallest of them,
    /// in ascending order.
    fn finish(self) -> (r: (usize, Vec<i64>))
        ensures
            r.0 == self.items@.len(),
            r.1@ == sample(self.items@),
    {
        let count = self.items.len();
        let mut samples: Vec<i64> = Vec::new();
        let mut i: usize = 0;
        while i < count
            invariant
                count == self.items@.len(),
                i <= count,
                samples@ == sort_seq(self.items@.subrange(0, i as int)),
            decreases count - i,
        {
            insert_in_order(&mut samples, self.items[i]);
            proof {
                let t = self.items@.subrange(0, i + 1);
                assert(t.drop_last() =~= self.items@.subrange(0, i as int));
            }
            i = i + 1;
        }
        proof {
            assert(self.items@.subrange(0, count as int) =~= self.items@);
            lemma_sort_seq_props(self.items@);
        }
        if samples.len() > SAMPLE_COUNT {
            samples.truncate(SAMPLE_COUNT);
        }
        proof {
            assert(samples@ =~= first_samples(sort_seq(self.items@)));
        }
        (count, samples)
    }
}

/// Inserts `x` into `v` before the first element that is not below it.
fn insert_in_order(v: &mut Vec<i64>, x: i64)
    ensures
        final(v)@ == insert_sorted(old(v)@, x),
{
    let mut i: usize = 0;
    while i < v.len() && v[i] < x
        invariant
            i <= v@.len(),
            forall|j: int| 0 <= j < i ==> v@[j] < x,
        decreases v@.len() - i,
    {
        i = i + 1;
    }
    proof {
        lemma_insert_sorted_at(v@, x, i as int);
    }
    v.insert(i, x);
}

/// The revisions of `files` that reference `d`.
fn collect_hits(files: &Vec<FileEntity>, d: &[u8]) -> (r: Vec<Hit>)
    ensures
        r@ == file_hits(files@, d@),
{
    let mut hits: Vec<Hit> = Vec::new();
    let mut i: usize = 0;
    while i < files.len()
        invariant
            i <= files@.len(),
            hits@ == file_hits(files@.subrange(0, i as int), d@),
        decreases files@.len() - i,
    {
        let f = &files[i];
        let ghost before = hits@;
        let mut k: usize = 0;
        while k < f.revisions.len()
            invariant
                i < files@.len(),
                *f == files@[i as int],
                k <= f.revisions@.len(),
                hits@ == before + revision_hits(f.revisions@.subrange(0, k as int), f.file_id, d@),
            decreases f.revisions@.len() - k,
        {
            let r = &f.revisions[k];
            let ghost prev = hits@;
            if bytes_eq(r.digest.as_slice(), d) {
                hits.push((r.revision_id, f.file_id, r.page_id, r.site_id));
            }
            proof {
                let revs = f.revisions@.subrange(0, k + 1);
                assert(revs.drop_last() =~= f.revisions@.subrange(0, k as int));
                assert(revs.last() == f.revisions@[k as int]);
                if r.digest@ == d@ {
                    assert(hits@ =~= before + revision_hits(revs, f.file_id, d@));
                } else {
                    assert(hits@ =~= before + revision_hits(revs, f.file_id, d@));
                }
            }
            k = k + 1;
        }
        proof {
            let fs = files@.subrange(0, i + 1);
            assert(fs.drop_last() =~= files@.subrange(0, i as int));
            assert(f.revisions@.subrange(0, f.revisions@.len() as int) =~= f.revisions@);
        }
        i = i + 1;
    }
    assert(files@.subrange(0, files@.len() as int) =~= files@);
    hits
}

/// How many files have a latest revision that references `d`.
fn count_latest(files: &Vec<FileEntity>, d: &[u8]) -> (r: usize)
    requires
        forall|i: int| 0 <= i < files@.len() ==> (#[trigger] files@[i]).revisions@.len() >= 1,
    ensures
        r == latest_hits(files@, d@),
{
    let mut count: usize = 0;
    let mut i: usize = 0;
    while i < files.len()
        invariant
            i <= files@.len(),
            forall|j: int| 0 <= j < files@.len() ==> (#[trigger] files@[j]).revisions@.len() >= 1,
            count == latest_hits(files@.subrange(0, i as int), d@),
            count <= i,
        decreases files@.len() - i,
    {
        let f = &files[i];
        let n = f.revisions.len();
        if bytes_eq(f.revisions[n - 1].digest.as_slice(), d) {
            count = count + 1;
        }
        proof {
            let fs = files@.subrange(0, i + 1);
            assert(fs.drop_last() =~= files@.subrange(0, i as int));
        }
        i = i + 1;
    }
    assert(files@.subrange(0, files@.len() as int) =~= files@);
    count
}

/// The users whose profile picture is `d`.
fn collect_avatars(users: &Vec<UserAvatar>, d: &[u8]) -> (r: Vec<i64>)
    ensures
        r@ == avatar_hits(users@, d@),
{
    let mut out: Vec<i64> = Vec::new();
    let mut i: usize = 0;
    while i < users.len()
        invariant
            i <= users@.len(),
            out@ == avatar_hits(users@.subrange(0, i as int), d@),
        decreases users@.len() - i,
    {
        let u = &users[i];
        let hit = match &u.avatar_digest {
            Some(a) => bytes_eq(a.as_slice(), d),
            None => false,
        };
        if hit {
            out.push(u.user_id);
        }
        proof {
            let us = users@.subrange(0, i + 1);
            assert(us.drop_last() =~= users@.subrange(0, i as int));
            assert(out@ =~= avatar_hits(us, d@));
        }
        i = i + 1;
    }
    assert(users@.subrange(0, users@.len() as int) =~= users@);
    out
}

proof fn lemma_distinct_step(s: Seq<Hit>, j: int, p: spec_fn(Hit) -> i64)
    requires
        0 <= j < s.len(),
    ensures
        distinct(s.subrange(0, j + 1).map_values(p)) == add_distinct(
            distinct(s.subrange(0, j).map_values(p)),
            p(s[j]),
        ),
{
    let t = s.subrange(0, j + 1).map_values(p);
    assert(t.drop_last() =~= s.subrange(0, j).map_values(p));
}

/// Builds the report of a hard deletion of `d` from the state as it is.
fn build_report(db: &Database, d: &[u8]) -> (r: HardDeleteOutput)
    requires
        db.wf(),
    ensures
        r@ == hard_delete_report(*db, d@),
{
    let hits = collect_hits(&db.file.files, d);
    let mut revisions = SamplerCounter::new();
    let mut files = SamplerCounter::new();
    let mut pages = SamplerCounter::new();
    let mut sites = SamplerCounter::new();
    let mut j: usize = 0;
    while j < hits.len()
        invariant
            j <= hits@.len(),
            revisions.items@ == distinct(hits@.subrange(0, j as int).map_values(|h: Hit| h.0)),
            files.items@ == distinct(hits@.subrange(0, j as int).map_values(|h: Hit| h.1)),
            pages.items@ == distinct(hits@.subrange(0, j as int).map_values(|h: Hit| h.2)),
            sites.items@ == distinct(hits@.subrange(0, j as int).map_values(|h: Hit| h.3)),
        decreases hits@.len() - j,
    {
        let h = hits[j];
        revisions.add(h.0);
        files.add(h.1);
        pages.add(h.2);
        sites.add(h.3);
        proof {
            assert(hits@[j as int] == h);
            lemma_distinct_step(hits@, j as int, |h: Hit| h.0);
            lemma_distinct_step(hits@, j as int, |h: Hit| h.1);
            lemma_distinct_step(hits@, j as int, |h: Hit| h.2);
            lemma_distinct_step(hits@, j as int, |h: Hit| h.3);
        }
        j = j + 1;
    }
    proof {
        assert(hits@.subrange(0, hits@.len() as int) =~= hits@);
    }
    let total_files_deleted = count_latest(&db.file.files, d);
    let users = collect_avatars(&db.users, d);
    let total_users = users.len() as u64;
    let user_sample = SamplerCounter { items: users };
    let (_, sample_user_ids) = user_sample.finish();
    let (total_revisions, sample_revision_ids) = revisions.finish();
    let (total_files, sample_file_ids) = files.finish();
    let (total_pages, sample_page_ids) = pages.finish();
    let (total_sites, sample_site_ids) = sites.finish();
    HardDeleteOutput {
        total_revisions,
        total_files,
        total_files_deleted,
        total_pages,
        total_sites,
        total_users,
        sample_revision_ids,
        sample_file_ids,
        sample_page_ids,
        sample_site_ids,
        sample_user_ids,
    }
}

/// The blob service's hard-deletion procedure.
impl BlobService {
    /// Reports what a hard deletion of `digest` would touch, changing
    /// nothing. The empty blob is refused with `BadRequest`.
    pub fn hard_delete_list(db: &Database, digest: &[u8]) -> (r: Result<HardDeleteOutput, Error>)
        requires
            db.wf(),
        ensures
            report_view(r) == hard_delete_outcome(*db, digest@),
    {
        if is_empty_blob_digest(digest) {
            return Err(Error::BadRequest);
        }
        Ok(build_report(db, digest))
    }
}

/// Request to hard-delete a blob.
#[derive(Debug)]
pub struct HardDelete {
    pub s3_hash: Vec<u8>,
    pub user_id: i64,
}

/// The comment of the tombstones that a hard deletion of `d` writes.
pub open spec fn hard_delete_comment(d: Seq<u8>) -> Seq<char> {
    "Hard delete "@ + hex_of(d)
}

/// `a` and `b` agree on every field but the digest and its hidden mark.
pub open spec fn same_but_digest(a: FileRevision, b: FileRevision) -> bool {
    &&& a.revision_id == b.revision_id
    &&& a.revision_number == b.revision_number
    &&& a.revision_type == b.revision_type
    &&& a.created_at == b.created_at
    &&& a.created_by == b.created_by
    &&& a.site_id == b.site_id
    &&& a.page_id == b.page_id
    &&& a.name == b.name
    &&& a.mime == b.mime
    &&& a.size == b.size
    &&& a.comments == b.comments
}

/// Revision `n` is revision `o` after redacting `d`: a revision that
/// referenced `d` now holds the empty blob's digest and is marked hidden,
/// with every other field kept; any other revision is unchanged.
pub open spec fn redacted(o: FileRevision, n: FileRevision, d: Seq<u8>) -> bool {
    if o.digest@ == d {
        is_empty_digest(n.digest@) && n.digest_hidden && same_but_digest(o, n)
    } else {
        n == o
    }
}

/// `a` and `b` agree on every field of the file but its revisions and its
/// deletion time.
pub open spec fn same_file_meta(a: FileEntity, b: FileEntity) -> bool {
    &&& a.file_id == b.file_id
    &&& a.site_id == b.site_id
    &&& a.page_id == b.page_id
    &&& a.name@ == b.name@
    &&& a.created_at == b.created_at
    &&& a.updated_at == b.updated_at
}

/// `t` is the tombstone that a hard deletion appends to file `f`: by
/// `user` at `now`, with `comments`, the empty blob's digest (not marked
/// hidden), and the name, page, type and size of the file's latest
/// revision.
pub open spec fn hard_delete_tombstone(
    f: FileEntity,
    t: FileRevision,
    user: i64,
    now: i64,
    comments: Seq<char>,
) -> bool {
    &&& t.revision_type == RevisionType::Tombstone
    &&& t.revision_number == f.revisions@.len() + 1
    &&& is_empty_digest(t.digest@)
    &&& !t.digest_hidden
    &&& t.created_by == user
    &&& t.created_at == now
    &&& t.comments@ == comments
    &&& t.name@ == f.name@
    &&& t.page_id == f.page_id
    &&& t.site_id == f.site_id
    &&& t.mime@ == f.latest().mime@
    &&& t.size == f.latest().size
}

/// User `n` is user `o` after clearing `d` as profile picture.
pub open spec fn avatar_cleared(o: UserAvatar, n: UserAvatar, d: Seq<u8>) -> bool {
    if o.avatar_digest matches Some(a) && a@ == d {
        n.user_id == o.user_id && n.avatar_digest is None
    } else {
        n == o
    }
}

/// After a hard deletion of `d`, committed by `acting_user` at `now` with
/// tombstones written by `system_user`:
/// - every revision is redacted (see `redacted`);
/// - every file whose latest revision referenced `d`, live or already
///   deleted, gets exactly one tombstone (see `hard_delete_tombstone`) and
///   is deleted at `now`; every other file keeps its revisions (redacted) and its deletion time;
/// - profile pictures of `d` are cleared and other users are unchanged;
/// - `d` is blacklisted (a new entry by `acting_user` at `now` unless it
///   already was) and its stored object is deleted; pending uploads,
///   temporary objects and the rest of the blacklist and store are kept.
pub open spec fn purged(
    old: Database,
    new: Database,
    d: Seq<u8>,
    acting_user: i64,
    system_user: i64,
    now: i64,
) -> bool {
    &&& new.file.files@.len() == old.file.files@.len()
    &&& new.file.next_revision_id == old.file.next_revision_id + latest_hits(old.file.files@, d)
    &&& forall|i: int|
        0 <= i < old.file.files@.len() ==> {
            let o = old.file.files@[i];
            let n = #[trigger] new.file.files@[i];
            &&& same_file_meta(o, n)
            &&& n.revisions@.len() == o.revisions@.len() + if latest_hit(o, d) {
                1int
            } else {
                0int
            }
            &&& latest_hit(o, d) ==> n.deleted_at == Some(now) && hard_delete_tombstone(
                o,
                n.revisions@.last(),
                system_user,
                now,
                hard_delete_comment(d),
            )
            &&& !latest_hit(o, d) ==> n.deleted_at == o.deleted_at
        }
    &&& forall|i: int, k: int|
        old.file.has_revision(i, k) ==> redacted(
            old.file.files@[i].revisions@[k],
            #[trigger] new.file.files@[i].revisions@[k],
            d,
        )
    &&& forall|i: int, k: int|
        new.file.has_revision(i, k) ==> (#[trigger] new.file.files@[i].revisions@[k]).digest@ != d
    &&& new.users@.len() == old.users@.len()
    &&& forall|i: int|
        0 <= i < old.users@.len() ==> avatar_cleared(old.users@[i], #[trigger] new.users@[i], d)
    &&& new.blob.config == old.blob.config
    &&& new.blob.pending@ == old.blob.pending@
    &&& new.blob.uploads@ == old.blob.uploads@
    &&& new.blob.is_blacklisted(d)
    &&& old.blob.is_blacklisted(d) ==> new.blob.blacklist@ == old.blob.blacklist@
    &&& !old.blob.is_blacklisted(d) ==> {
        let m = old.blob.blacklist@.len();
        &&& new.blob.blacklist@.len() == m + 1
        &&& new.blob.blacklist@.subrange(0, m as int) == old.blob.blacklist@
        &&& new.blob.blacklist@[m as int].digest@ == d
        &&& new.blob.blacklist@[m as int].created_by == acting_user
        &&& new.blob.blacklist@[m as int].created_at == now
    }
    &&& !new.blob.has_blob(d)
    &&& old.blob.has_blob(d) ==> new.blob.blobs@ == old.blob.blobs@.remove(old.blob.blob_index(d))
    &&& !old.blob.has_blob(d) ==> new.blob.blobs@ == old.blob.blobs@
}

/// `a` and `b` agree on every field of the file but its revisions.
pub open spec fn same_file_fields(a: FileEntity, b: FileEntity) -> bool {
    &&& a.file_id == b.file_id
    &&& a.site_id == b.site_id
    &&& a.page_id == b.page_id
    &&& a.name == b.name
    &&& a.created_at == b.created_at
    &&& a.updated_at == b.updated_at
    &&& a.deleted_at == b.deleted_at
}

/// Replaces the digest of revision `k` of the file at position `i` with the
/// empty blob's, marking it hidden.
fn redact_revision(state: &mut FileState, i: usize, k: usize)
    requires
        old(state).wf(),
        i < old(state).files@.len(),
        k < old(state).files@[i as int].revisions@.len(),
    ensures
        final(state).wf(),
        final(state).next_revision_id == old(state).next_revision_id,
        final(state).files@.len() == old(state).files@.len(),
        forall|j: int|
            0 <= j < old(state).files@.len() && j != i ==> final(state).files@[j] == old(
                state,
            ).files@[j],
        same_file_fields(old(state).files@[i as int], final(state).files@[i as int]),
        final(state).files@[i as int].revisions@.len() == old(state).files@[i as int].revisions@.len(),
        forall|kk: int|
            0 <= kk < old(state).files@[i as int].revisions@.len() && kk != k
                ==> final(state).files@[i as int].revisions@[kk] == old(state).files@[i as int].revisions@[kk],
        is_empty_digest(final(state).files@[i as int].revisions@[k as int].digest@),
        final(state).files@[i as int].revisions@[k as int].digest_hidden,
        same_but_digest(old(state).files@[i as int].revisions@[k as int], final(state).files@[i as int].revisions@[k as int]),
{
    state.files[i].revisions[k].digest = empty_digest();
    state.files[i].revisions[k].digest_hidden = true;
    proof {
        let s = *state;
        let o = *old(state);
        assert forall|a: int, b: int|
            0 <= a < s.files@.len() && 0 <= b < s.files@[a].revisions@.len() implies {
                &&& (#[trigger] s.files@[a].revisions@[b]).revision_number == b + 1
                &&& b + 1 <= s.files@[a].revisions@[b].revision_id < s.next_revision_id
            } by {
            assert(s.files@[a].revisions@[b].revision_number == o.files@[a].revisions@[b].revision_number);
            assert(s.files@[a].revisions@[b].revision_id == o.files@[a].revisions@[b].revision_id);
        }
        assert forall|a: int| 0 <= a < s.files@.len() implies (#[trigger] s.files@[a]).file_id == a + 1
            && s.files@[a].revisions@.len() >= 1 && s.files@[a].revisions@[0].revision_type
            == RevisionType::First by {
            assert(s.files@[a].revisions@[0].revision_type == o.files@[a].revisions@[0].revision_type);
        }
        assert forall|a: int, b: int|
            0 <= a < b < s.files@.len() && (#[trigger] s.files@[a]).is_live()
                && (#[trigger] s.files@[b]).is_live() && s.files@[a].page_id
                == s.files@[b].page_id implies s.files@[a].name@ != s.files@[b].name@ by {
            assert(o.files@[a].is_live() && o.files@[b].is_live());
        }
    }
}

impl BlobService {
    /// Hard-deletes `digest`: tombstones every file whose latest revision
    /// references it, live or already deleted (with the digest erased, by
    /// `system_user_id`), redacts every revision that
    /// references it, clears it as a profile picture, blacklists it and
    /// deletes the stored object (see `purged`). Returns the same report as
    /// `hard_delete_list` on the state before the call. The empty blob is
    /// refused with `BadRequest` and nothing changes.
    pub fn hard_delete_all(
        db: &mut Database,
        input: HardDelete,
        system_user_id: i64,
        now: i64,
    ) -> (r: Result<HardDeleteOutput, Error>)
        requires
            old(db).wf(),
            old(db).file.next_revision_id + old(db).file.files@.len() < i64::MAX,
        ensures
            final(db).wf(),
            report_view(r) == hard_delete_outcome(*old(db), input.s3_hash@),
            is_empty_digest(input.s3_hash@) ==> old(db).unchanged(*final(db)),
            !is_empty_digest(input.s3_hash@) ==> purged(
                *old(db),
                *final(db),
                input.s3_hash@,
                input.user_id,
                system_user_id,
                now,
            ),
    {
        let d = input.s3_hash.as_slice();
        if is_empty_blob_digest(d) {
            return Err(Error::BadRequest);
        }
        let report = build_report(db, d);
        let mut comments = "Hard delete ".to_owned();
        comments.append(blob_key(d).as_str());
        let len = db.file.files.len();
        let mut i: usize = 0;
        while i < len
            invariant
                db.wf(),
                len == old(db).file.files@.len(),
                db.file.files@.len() == len,
                i <= len,
                comments@ == hard_delete_comment(d@),
                db.file.next_revision_id == old(db).file.next_revision_id + latest_hits(
                    old(db).file.files@.subrange(0, i as int),
                    d@,
                ),
                latest_hits(old(db).file.files@.subrange(0, i as int), d@) <= i,
                old(db).file.next_revision_id + len < i64::MAX,
                db.users == old(db).users,
                old(db).blob.unchanged(db.blob),
                forall|j: int| i <= j < len ==> db.file.files@[j] == old(db).file.files@[j],
                forall|j: int|
                    0 <= j < i && !latest_hit(old(db).file.files@[j], d@) ==> #[trigger] db.file.files@[j]
                        == old(db).file.files@[j],
                forall|j: int|
                    0 <= j < i && latest_hit(old(db).file.files@[j], d@) ==> {
                        let o = old(db).file.files@[j];
                        let n = #[trigger] db.file.files@[j];
                        &&& same_file_meta(o, n)
                        &&& n.revisions@.len() == o.revisions@.len() + 1
                        &&& n.revisions@.subrange(0, o.revisions@.len() as int) == o.revisions@
                        &&& n.deleted_at == Some(now)
                        &&& hard_delete_tombstone(o, n.revisions@.last(), system_user_id, now, comments@)
                    },
            decreases len - i,
        {
            let f = &db.file.files[i];
            let n = f.revisions.len();
            if bytes_eq(f.revisions[n - 1].digest.as_slice(), d) {
                let name = copy_string(&f.name);
                let page_id = f.page_id;
                let mime = copy_string(&f.revisions[n - 1].mime);
                let size = f.revisions[n - 1].size;
                let updated_at = f.updated_at;
                FileService::mutate(
                    &mut db.file,
                    i,
                    RevisionType::Tombstone,
                    system_user_id,
                    now,
                    copy_string(&comments),
                    name,
                    page_id,
                    empty_digest(),
                    mime,
                    size,
                    Some(now),
                    updated_at,
                );
                proof {
                    let o = old(db).file.files@[i as int];
                    let nf = db.file.files@[i as int];
                    assert(nf.revisions@.subrange(0, n as int) == o.revisions@);
                    assert(o.latest() == o.revisions@[n - 1]);
                    assert(o.revisions@[n - 1].revision_number == n);
                    assert(hard_delete_tombstone(o, nf.revisions@.last(), system_user_id, now, comments@));
                    assert(same_file_meta(o, nf));
                }
            }
            proof {
                let fs = old(db).file.files@.subrange(0, i + 1);
                assert(fs.drop_last() =~= old(db).file.files@.subrange(0, i as int));
            }
            i = i + 1;
        }
        let ghost mid = *db;
        assert(old(db).file.files@.subrange(0, len as int) =~= old(db).file.files@);
        let mut i: usize = 0;
        while i < len
            invariant
                db.wf(),
                db.file.files@.len() == len,
                i <= len,
                db.users == mid.users,
                db.blob == mid.blob,
                mid.file.files@.len() == len,
                !is_empty_digest(d@),
                db.file.next_revision_id == mid.file.next_revision_id,
                forall|j: int|
                    0 <= j < len ==> same_file_fields(mid.file.files@[j], #[trigger] db.file.files@[j])
                        && db.file.files@[j].revisions@.len() == mid.file.files@[j].revisions@.len(),
                forall|j: int, k: int|
                    mid.file.has_revision(j, k) && j < i ==> redacted(
                        mid.file.files@[j].revisions@[k],
                        #[trigger] db.file.files@[j].revisions@[k],
                        d@,
                    ),
                forall|j: int, k: int|
                    mid.file.has_revision(j, k) && j >= i ==> #[trigger] db.file.files@[j].revisions@[k]
                        == mid.file.files@[j].revisions@[k],
            decreases len - i,
        {
            let mut k: usize = 0;
            while k < db.file.files[i].revisions.len()
                invariant
                    db.wf(),
                    db.file.files@.len() == len,
                    i < len,
                    db.users == mid.users,
                    db.blob == mid.blob,
                    mid.file.files@.len() == len,
                    !is_empty_digest(d@),
                    db.file.next_revision_id == mid.file.next_revision_id,
                    k <= db.file.files@[i as int].revisions@.len(),
                    forall|j: int|
                        0 <= j < len ==> same_file_fields(mid.file.files@[j], #[trigger] db.file.files@[j])
                            && db.file.files@[j].revisions@.len() == mid.file.files@[j].revisions@.len(),
                    forall|j: int, kk: int|
                        mid.file.has_revision(j, kk) && (j < i || (j == i && kk < k)) ==> redacted(
                            mid.file.files@[j].revisions@[kk],
                            #[trigger] db.file.files@[j].revisions@[kk],
                            d@,
                        ),
                    forall|j: int, kk: int|
                        mid.file.has_revision(j, kk) && (j > i || (j == i && kk >= k))
                            ==> #[trigger] db.file.files@[j].revisions@[kk]
                            == mid.file.files@[j].revisions@[kk],
                decreases db.file.files@[i as int].revisions@.len() - k,
            {
                if bytes_eq(db.file.files[i].revisions[k].digest.as_slice(), d) {
                    redact_revision(&mut db.file, i, k);
                }
                k = k + 1;
            }
            i = i + 1;
        }
        let ghost mid2 = *db;
        let ulen = db.users.len();
        let mut u: usize = 0;
        while u < ulen
            invariant
                db.file == mid2.file,
                db.blob == mid.blob,
                db.users@.len() == ulen,
                ulen == old(db).users@.len(),
                mid.users == old(db).users,
                u <= ulen,
                forall|j: int|
                    0 <= j < u ==> avatar_cleared(old(db).users@[j], #[trigger] db.users@[j], d@),
                forall|j: int| u <= j < ulen ==> #[trigger] db.users@[j] == old(db).users@[j],
            decreases ulen - u,
        {
            let hit = match &db.users[u].avatar_digest {
                Some(a) => bytes_eq(a.as_slice(), d),
                None => false,
            };
            if hit {
                db.users[u].avatar_digest = None;
            }
            u = u + 1;
        }
        BlobService::add_blacklist(&mut db.blob, d, input.user_id, now);
        BlobService::hard_delete(&mut db.blob, d);
        proof {
            let o = old(db).file;
            let nf = db.file;
            assert forall|j: int, k: int| o.has_revision(j, k) implies redacted(
                o.files@[j].revisions@[k],
                #[trigger] nf.files@[j].revisions@[k],
                d@,
            ) by {
                assert(mid.file.has_revision(j, k));
                if latest_hit(o.files@[j], d@) {
                    assert(mid.file.files@[j].revisions@.subrange(0, o.files@[j].revisions@.len() as int) == o.files@[j].revisions@);
                    assert(mid.file.files@[j].revisions@[k] == o.files@[j].revisions@[k]);
                }
            }
            assert forall|j: int| 0 <= j < len implies {
                let of = o.files@[j];
                let n = #[trigger] nf.files@[j];
                &&& same_file_meta(of, n)
                &&& n.revisions@.len() == of.revisions@.len() + if latest_hit(of, d@) {
                    1int
                } else {
                    0int
                }
                &&& latest_hit(of, d@) ==> n.deleted_at == Some(now) && hard_delete_tombstone(
                    of,
                    n.revisions@.last(),
                    system_user_id,
                    now,
                    hard_delete_comment(d@),
                )
                &&& !latest_hit(of, d@) ==> n.deleted_at == of.deleted_at
            } by {
                let mf = mid.file.files@[j];
                assert(same_file_fields(mf, nf.files@[j]));
                if latest_hit(o.files@[j], d@) {
                    let last = mf.revisions@.len() - 1;
                    assert(mid.file.has_revision(j, last));
                    assert(mf.revisions@[last] == mf.revisions@.last());
                    assert(!(mf.revisions@[last].digest@ == d@));
                    assert(nf.files@[j].revisions@[last] == mf.revisions@[last]);
                }
            }
            assert forall|j: int, k: int| nf.has_revision(j, k) implies (#[trigger] nf.files@[j].revisions@[k]).digest@ != d@ by {
                assert(mid.file.has_revision(j, k));
            }
        }
        Ok(report)
    }
}

/// On one unmodified state, the preview and the commit of a hard deletion
/// report identical counts and samples, and the commit appends exactly as
/// many tombstones as the preview counts files to delete.
pub proof fn lemma_preview_matches_commit(
    db: Database,
    after: Database,
    input: HardDelete,
    preview: Result<HardDeleteOutput, Error>,
    commit: Result<HardDeleteOutput, Error>,
    system_user: i64,
    now: i64,
)
    requires
        db.wf(),
        report_view(preview) == hard_delete_outcome(db, input.s3_hash@),
        report_view(commit) == hard_delete_outcome(db, input.s3_hash@),
        !is_empty_digest(input.s3_hash@) ==> purged(db, after, input.s3_hash@, input.user_id, system_user, now),
    ensures
        report_view(preview) == report_view(commit),
        is_empty_digest(input.s3_hash@) ==> commit == Err::<HardDeleteOutput, Error>(Error::BadRequest),
        preview is Ok ==> after.file.next_revision_id == db.file.next_revision_id
            + preview->Ok_0.total_files_deleted,
{
}

} // verus!
