//! The render job list: ordering jobs by id and cutting out one page.
use vstd::prelude::*;

use crate::text::{same_text, to_chars};

verus! {

/// One row of the render job list.
#[derive(Clone, Debug, PartialEq, Eq)]
pub struct Job {
    pub id: String,
    pub source_blend_path: String,
    pub description: String,
    pub package: String,
    pub additional_file_count: String,
    pub key: String,
    pub scene: String,
    pub xres: String,
    pub yres: String,
    pub samples: String,
    pub percentage: String,
    pub startframe: String,
    pub endframe: String,
    pub step: String,
    pub is_uploaded: String,
    pub status: String,
    pub cloudid: String,
    pub error: String,
    pub started_at: String,
    pub stopped_at: String,
    pub use_large_disk: String,
    pub parent: String,
}

/// One page of a longer list, with the length of the whole list.
pub struct PaginatedData<T> {
    pub data: Vec<T>,
    pub total_count: usize,
}

// ---------------------------------------------------------------------------
// The order of texts
// ---------------------------------------------------------------------------
/// `a` comes no later than `b` in the order of `String`: character by
/// character by code point, a proper prefix first.
pub open spec fn text_le(a: Seq<char>, b: Seq<char>) -> bool
    decreases a.len(),
{
    if a.len() == 0 {
        true
    } else if b.len() == 0 {
        false
    } else if a[0] != b[0] {
        (a[0] as int) < (b[0] as int)
    } else {
        text_le(a.drop_first(), b.drop_first())
    }
}

/// Two texts are always in order one way or the other.
pub proof fn lemma_text_le_total(a: Seq<char>, b: Seq<char>)
    ensures
        text_le(a, b) || text_le(b, a),
    decreases a.len(),
{
    if a.len() > 0 && b.len() > 0 {
        if a[0] == b[0] {
            lemma_text_le_total(a.drop_first(), b.drop_first());
        } else {
            assert((a[0] as int) != (b[0] as int));
        }
    }
}

/// The order of texts is transitive.
pub proof fn lemma_text_le_trans(a: Seq<char>, b: Seq<char>, c: Seq<char>)
    requires
        text_le(a, b),
        text_le(b, c),
    ensures
        text_le(a, c),
    decreases a.len(),
{
    if a.len() > 0 && b.len() > 0 && c.len() > 0 && a[0] == b[0] && b[0] == c[0] {
        lemma_text_le_trans(a.drop_first(), b.drop_first(), c.drop_first());
    }
}

/// After a common prefix, the order is decided by what follows.
proof fn lemma_text_le_skip(a: Seq<char>, b: Seq<char>, i: int)
    requires
        0 <= i <= a.len(),
        i <= b.len(),
        forall|j: int| 0 <= j < i ==> a[j] == b[j],
    ensures
        text_le(a, b) == text_le(a.skip(i), b.skip(i)),
    decreases i,
{
    if i > 0 {
        let a1 = a.drop_first();
        let b1 = b.drop_first();
        assert forall|j: int| 0 <= j < i - 1 implies a1[j] == b1[j] by {
            assert(a1[j] == a[j + 1] && b1[j] == b[j + 1]);
        }
        lemma_text_le_skip(a1, b1, i - 1);
        assert(a1.skip(i - 1) =~= a.skip(i));
        assert(b1.skip(i - 1) =~= b.skip(i));
        assert(a[0] == b[0]);
    } else {
        assert(a.skip(0) =~= a);
        assert(b.skip(0) =~= b);
    }
}

/// Whether `a` comes no later than `b`.
pub fn text_le_exec(a: &String, b: &String) -> (r: bool)
    ensures
        r == text_le(a@, b@),
{
    let x = to_chars(a.as_str());
    let y = to_chars(b.as_str());
    let mut i: usize = 0;
    while i < x.len() && i < y.len() && x[i] == y[i]
        invariant
            x@ == a@,
            y@ == b@,
            i <= x.len(),
            i <= y.len(),
            forall|j: int| 0 <= j < i ==> x@[j] == y@[j],
        decreases x.len() - i,
    {
        i = i + 1;
    }
    proof {
        lemma_text_le_skip(a@, b@, i as int);
        if i < x.len() && i < y.len() {
            assert(a@.skip(i as int)[0] == x@[i as int]);
            assert(b@.skip(i as int)[0] == y@[i as int]);
        }
    }
    if i == x.len() {
        true
    } else if i == y.len() {
        false
    } else {
        x[i] < y[i]
    }
}

// ---------------------------------------------------------------------------
// Ordering jobs
// ---------------------------------------------------------------------------
/// Job `a` may stand before job `b`: ascending by id, or descending by id.
pub open spec fn in_order(a: Job, b: Job, descending: bool) -> bool {
    if descending {
        text_le(b.id@, a.id@)
    } else {
        text_le(a.id@, b.id@)
    }
}

/// `x` put into the ordered list `s` after every job it may follow.
pub open spec fn insert_in_order(s: Seq<Job>, x: Job, descending: bool) -> Seq<Job>
    decreases s.len(),
{
    if s.len() == 0 {
        seq![x]
    } else if in_order(s.last(), x, descending) {
        s.push(x)
    } else {
        insert_in_order(s.drop_last(), x, descending).push(s.last())
    }
}

/// The jobs ordered by id, jobs with the same id keeping their order (as a
/// stable sort leaves them).
pub open spec fn sort_by_id(s: Seq<Job>, descending: bool) -> Seq<Job>
    decreases s.len(),
{
    if s.len() == 0 {
        s
    } else {
        insert_in_order(sort_by_id(s.drop_last(), descending), s.last(), descending)
    }
}

/// Each job may stand before every later one.
pub open spec fn is_ordered(s: Seq<Job>, descending: bool) -> bool {
    forall|i: int, j: int| 0 <= i < j < s.len() ==> in_order(#[trigger] s[i], #[trigger] s[j], descending)
}

/// The place where `insert_in_order` puts `x`.
proof fn lemma_insert_at(s: Seq<Job>, x: Job, descending: bool, j: int)
    requires
        0 <= j <= s.len(),
        forall|k: int| j <= k < s.len() ==> !in_order(#[trigger] s[k], x, descending),
        j == 0 || in_order(s[j - 1], x, descending),
    ensures
        insert_in_order(s, x, descending) == s.insert(j, x),
    decreases s.len(),
{
    if s.len() == 0 {
        assert(s.insert(j, x) =~= seq![x]);
    } else if in_order(s.last(), x, descending) {
        assert(j == s.len()) by {
            if j < s.len() {
                assert(!in_order(s[s.len() - 1], x, descending));
            }
        }
        assert(s.insert(j, x) =~= s.push(x));
    } else {
        let t = s.drop_last();
        assert(j < s.len()) by {
            if j == s.len() {
                assert(in_order(s[j - 1], x, descending));
            }
        }
        assert forall|k: int| j <= k < t.len() implies !in_order(#[trigger] t[k], x, descending) by {
            assert(t[k] == s[k]);
        }
        if j > 0 {
            assert(t[j - 1] == s[j - 1]);
        }
        lemma_insert_at(t, x, descending, j);
        assert(t.insert(j, x).push(s.last()) =~= s.insert(j, x));
    }
}

/// Putting `x` into an ordered list keeps it ordered and adds just `x`.
proof fn lemma_insert_in_order_props(s: Seq<Job>, x: Job, descending: bool)
    requires
        is_ordered(s, descending),
    ensures
        is_ordered(insert_in_order(s, x, descending), descending),
        insert_in_order(s, x, descending).to_multiset() == s.to_multiset().insert(x),
    decreases s.len(),
{
    let r = insert_in_order(s, x, descending);
    if s.len() == 0 {
        assert(s.push(x) =~= seq![x]);
        s.to_multiset_ensures();
        Seq::<Job>::empty().to_multiset_ensures();
    } else if in_order(s.last(), x, descending) {
        s.to_multiset_ensures();
        assert forall|i: int, j: int| 0 <= i < j < r.len() implies in_order(
            #[trigger] r[i],
            #[trigger] r[j],
            descending,
        ) by {
            if j == s.len() {
                if i < s.len() - 1 {
                    assert(in_order(s[i], s[s.len() - 1], descending));
                    ordered_trans(s[i], s[s.len() - 1], x, descending);
                }
            }
        }
    } else {
        let t = s.drop_last();
        assert(is_ordered(t, descending)) by {
            assert forall|i: int, j: int| 0 <= i < j < t.len() implies in_order(
                #[trigger] t[i],
                #[trigger] t[j],
                descending,
            ) by {
                assert(t[i] == s[i] && t[j] == s[j]);
            }
        }
        lemma_insert_in_order_props(t, x, descending);
        let u = insert_in_order(t, x, descending);
        let last = s.last();
        ordered_total(last, x, descending);
        // every element of `u` may stand before `last`
        assert forall|i: int| 0 <= i < u.len() implies in_order(#[trigger] u[i], last, descending) by {
            assert(u.to_multiset().count(u[i]) > 0) by {
                u.to_multiset_ensures();
                assert(u.contains(u[i]));
            }
            assert(t.to_multiset().insert(x).count(u[i]) > 0);
            if u[i] != x {
                t.to_multiset_ensures();
                assert(t.contains(u[i]));
                let k = choose|k: int| 0 <= k < t.len() && t[k] == u[i];
                assert(in_order(s[k], s[s.len() - 1], descending));
            }
        }
        assert forall|i: int, j: int| 0 <= i < j < r.len() implies in_order(
            #[trigger] r[i],
            #[trigger] r[j],
            descending,
        ) by {
            if j == u.len() {
                assert(r[j] == last);
                assert(r[i] == u[i]);
            } else {
                assert(r[i] == u[i] && r[j] == u[j]);
            }
        }
        u.to_multiset_ensures();
        s.to_multiset_ensures();
        t.to_multiset_ensures();
        assert(s =~= t.push(last));
        assert(r.to_multiset() =~= s.to_multiset().insert(x));
    }
}

/// The order of jobs is transitive.
proof fn ordered_trans(a: Job, b: Job, c: Job, descending: bool)
    requires
        in_order(a, b, descending),
        in_order(b, c, descending),
    ensures
        in_order(a, c, descending),
{
    if descending {
        lemma_text_le_trans(c.id@, b.id@, a.id@);
    } else {
        lemma_text_le_trans(a.id@, b.id@, c.id@);
    }
}

/// Of two jobs one may always stand before the other.
proof fn ordered_total(a: Job, b: Job, descending: bool)
    ensures
        in_order(a, b, descending) || in_order(b, a, descending),
{
    lemma_text_le_total(a.id@, b.id@);
}

/// Sorting by id gives an ordered list that holds the same jobs.
pub proof fn lemma_sort_by_id(s: Seq<Job>, descending: bool)
    ensures
        is_ordered(sort_by_id(s, descending), descending),
        sort_by_id(s, descending).to_multiset() == s.to_multiset(),
    decreases s.len(),
{
    if s.len() == 0 {
    } else {
        let t = s.drop_last();
        lemma_sort_by_id(t, descending);
        lemma_insert_in_order_props(sort_by_id(t, descending), s.last(), descending);
        t.to_multiset_ensures();
        assert(s =~= t.push(s.last()));
    }
}

/// The jobs of `s` whose id is `k`, in their order in `s`.
pub open spec fn jobs_with_id(s: Seq<Job>, k: Seq<char>) -> Seq<Job>
    decreases s.len(),
{
    if s.len() == 0 {
        s
    } else if s.last().id@ == k {
        jobs_with_id(s.drop_last(), k).push(s.last())
    } else {
        jobs_with_id(s.drop_last(), k)
    }
}

/// Every text is in order with itself.
proof fn lemma_text_le_refl(a: Seq<char>)
    ensures
        text_le(a, a),
    decreases a.len(),
{
    if a.len() > 0 {
        lemma_text_le_refl(a.drop_first());
    }
}

/// Putting `x` into a list leaves the jobs of each id in their order, `x`
/// coming after those of its id.
proof fn lemma_insert_keeps_same_id(s: Seq<Job>, x: Job, descending: bool, k: Seq<char>)
    ensures
        jobs_with_id(insert_in_order(s, x, descending), k) == if x.id@ == k {
            jobs_with_id(s, k).push(x)
        } else {
            jobs_with_id(s, k)
        },
    decreases s.len(),
{
    let r = insert_in_order(s, x, descending);
    if s.len() == 0 {
        assert(r.drop_last() =~= s);
    } else if in_order(s.last(), x, descending) {
        assert(r.drop_last() =~= s);
    } else {
        let t = s.drop_last();
        let last = s.last();
        lemma_insert_keeps_same_id(t, x, descending, k);
        let u = insert_in_order(t, x, descending);
        assert(r.drop_last() =~= u && r.last() == last);
        // a job that may not stand before `x` has another id
        lemma_text_le_refl(x.id@);
        assert(last.id@ != x.id@);
    }
}

/// Sorting by id keeps the jobs of each id in their order: the sort is
/// stable.
pub proof fn lemma_sort_by_id_stable(s: Seq<Job>, descending: bool, k: Seq<char>)
    ensures
        jobs_with_id(sort_by_id(s, descending), k) == jobs_with_id(s, k),
    decreases s.len(),
{
    if s.len() > 0 {
        lemma_sort_by_id_stable(s.drop_last(), descending, k);
        lemma_insert_keeps_same_id(sort_by_id(s.drop_last(), descending), s.last(), descending, k);
    }
}

/// Sorts `jobs` by id, ascending or descending; jobs with the same id keep their order.
pub fn sort_jobs(jobs: Vec<Job>, descending: bool) -> (r: Vec<Job>)
    ensures
        r@ == sort_by_id(jobs@, descending),
{
    let ghost all = jobs@;
    let mut rest = jobs;
    let mut out: Vec<Job> = Vec::new();
    let n = rest.len();
    let mut i: usize = 0;
    while i < n
        invariant
            n == all.len(),
            i <= n,
            rest@ == all.skip(i as int),
            out@ == sort_by_id(all.take(i as int), descending),
        decreases n - i,
    {
        let x = rest.remove(0);
        proof {
            assert(x == all[i as int]);
            assert(rest@ =~= all.skip(i + 1));
            assert(all.take(i + 1).drop_last() =~= all.take(i as int));
            assert(all.take(i + 1).last() == x);
        }
        let mut j = out.len();
        while j > 0 && !job_in_order(&out[j - 1], &x, descending)
            invariant
                j <= out.len(),
                forall|k: int| j <= k < out.len() ==> !in_order(#[trigger] out@[k], x, descending),
            decreases j,
        {
            j = j - 1;
        }
        proof {
            lemma_insert_at(out@, x, descending, j as int);
        }
        out.insert(j, x);
        i = i + 1;
    }
    assert(all.take(n as int) =~= all);
    out
}

/// Whether job `a` may stand before job `b`.
fn job_in_order(a: &Job, b: &Job, descending: bool) -> (r: bool)
    ensures
        r == in_order(*a, *b, descending),
{
    if descending {
        text_le_exec(&b.id, &a.id)
    } else {
        text_le_exec(&a.id, &b.id)
    }
}

// ---------------------------------------------------------------------------
// One page
// ---------------------------------------------------------------------------
/// The jobs in the order asked for: `"asc"` and `"desc"` sort by id, any
/// other order or none keeps the list as it is.
pub open spec fn ordered_jobs(jobs: Seq<Job>, order: Option<Seq<char>>) -> Seq<Job> {
    match order {
        Some(o) => if o == "asc"@ {
            sort_by_id(jobs, false)
        } else if o == "desc"@ {
            sort_by_id(jobs, true)
        } else {
            jobs
        },
        None => jobs,
    }
}

/// The first position of page `page` (counted from 1) of `per_page` jobs.
pub open spec fn page_start(page: u32, per_page: u32) -> int {
    (page - 1) * per_page
}

/// The position after the last job of that page, in a list of `total` jobs.
pub open spec fn page_end(page: u32, per_page: u32, total: int) -> int {
    if page_start(page, per_page) + per_page > total {
        total
    } else {
        page_start(page, per_page) + per_page
    }
}

/// Whether page `page` of `per_page` jobs starts within a list of `total`
/// jobs (and its end can be counted): where it does not, no page is cut.
pub fn page_fits(page: u32, per_page: u32, total: usize) -> (r: bool)
    ensures
        r == (page >= 1 && page_start(page, per_page) <= total && page_start(page, per_page)
            + per_page <= usize::MAX),
{
    if page == 0 {
        return false;
    }
    let a: u64 = (page - 1) as u64;
    let b: u64 = per_page as u64;
    assert(a * b <= 0xffff_ffff_ffff_ffff) by (nonlinear_arith)
        requires
            a <= 0xffff_ffff,
            b <= 0xffff_ffff,
    ;
    let start: u64 = a * b;
    assert(start == page_start(page, per_page)) by (nonlinear_arith)
        requires
            start == a * b,
            a == page - 1,
            b == per_page,
            page >= 1,
    ;
    start <= total as u64 && (per_page as u64) <= (usize::MAX as u64) - start
}

/// Page `page` (counted from 1) of `per_page` jobs of the list, put in the
/// order asked for, together with the length of the whole list. The page
/// must start within the list.
pub fn paginate_jobs(jobs: Vec<Job>, order: Option<&str>, page: u32, per_page: u32) -> (r:
    PaginatedData<Job>)
    requires
        page >= 1,
        page_start(page, per_page) <= jobs.len(),
        page_start(page, per_page) + per_page <= usize::MAX,
    ensures
        r.total_count == jobs.len(),
        r.data@ == ordered_jobs(
            jobs@,
            match order {
                Some(o) => Some(o@),
                None => None,
            },
        ).subrange(page_start(page, per_page), page_end(page, per_page, jobs.len() as int)),
{
    let ghost all = jobs@;
    let mut data = match order {
        Some(o) => if same_text(o, "asc") {
            sort_jobs(jobs, false)
        } else if same_text(o, "desc") {
            sort_jobs(jobs, true)
        } else {
            jobs
        },
        None => jobs,
    };
    proof {
        // sorting keeps the jobs, so also their number
        lemma_sort_by_id(all, false);
        lemma_sort_by_id(all, true);
        all.to_multiset_ensures();
        sort_by_id(all, false).to_multiset_ensures();
        sort_by_id(all, true).to_multiset_ensures();
    }
    let total_count = data.len();
    assert(page_start(page, per_page) == (page - 1) as int * per_page as int);
    let start = ((page - 1) as usize) * (per_page as usize);
    let end = start + per_page as usize;
    let end = if end > total_count {
        total_count
    } else {
        end
    };
    let ghost sorted = data@;
    data.truncate(end);
    let page_data = data.split_off(start);
    assert(page_data@ =~= sorted.subrange(start as int, end as int));
    PaginatedData { data: page_data, total_count }
}

} // verus!
