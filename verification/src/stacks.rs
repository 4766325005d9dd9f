//! Which CloudFormation stacks belong to this application and are ready.
use vstd::prelude::*;

use crate::text::{has_prefix, same_text, starts_with_str};

verus! {

/// A status in which a stack is settled: created, updated, or rolled back.
pub open spec fn is_settled_status(status: Seq<char>) -> bool {
    status == "CREATE_COMPLETE"@ || status == "UPDATE_COMPLETE"@ || status == "ROLLBACK_COMPLETE"@
}

/// A stack of this application is one whose name begins with `rndr-stack`.
pub open spec fn is_app_stack(name: Seq<char>) -> bool {
    has_prefix(name, "rndr-stack"@)
}

/// The stack summary is kept: it has a settled status and the application's name.
pub open spec fn keeps(summary: (Seq<char>, Option<Seq<char>>)) -> bool {
    &&& summary.1 matches Some(s) && is_settled_status(s)
    &&& is_app_stack(summary.0)
}

/// The names of the kept summaries, in order.
pub open spec fn kept_names(summaries: Seq<(Seq<char>, Option<Seq<char>>)>) -> Seq<Seq<char>>
    decreases summaries.len(),
{
    if summaries.len() == 0 {
        Seq::<Seq<char>>::empty()
    } else {
        let rest = kept_names(summaries.drop_last());
        if keeps(summaries.last()) {
            rest.push(summaries.last().0)
        } else {
            rest
        }
    }
}

/// A summary of a stack of this application that is ready: its name begins
/// with `rndr-stack` and its status is `CREATE_COMPLETE`, `UPDATE_COMPLETE`
/// or `ROLLBACK_COMPLETE`.
pub open spec fn ready_app_summary(x: (Seq<char>, Option<Seq<char>>)) -> bool {
    &&& has_prefix(x.0, "rndr-stack"@)
    &&& (x.1 == Some("CREATE_COMPLETE"@) || x.1 == Some("UPDATE_COMPLETE"@) || x.1 == Some(
        "ROLLBACK_COMPLETE"@,
    ))
}

/// Exactly three statuses are settled; any other, such as `DELETE_FAILED`,
/// `CREATE_FAILED` or `UPDATE_ROLLBACK_COMPLETE`, is not.
pub proof fn lemma_settled_statuses(status: Seq<char>)
    ensures
        is_settled_status("CREATE_COMPLETE"@),
        is_settled_status("UPDATE_COMPLETE"@),
        is_settled_status("ROLLBACK_COMPLETE"@),
        status != "CREATE_COMPLETE"@ && status != "UPDATE_COMPLETE"@ && status
            != "ROLLBACK_COMPLETE"@ ==> !is_settled_status(status),
{
}

/// The names listed are those of the ready summaries of this application, in
/// order; a stack with any other status, or none, is left out.
pub proof fn lemma_kept_names_are_ready_app_stacks(summaries: Seq<(Seq<char>, Option<Seq<char>>)>)
    ensures
        kept_names(summaries) == summaries.filter(|x| ready_app_summary(x)).map_values(
            |x: (Seq<char>, Option<Seq<char>>)| x.0,
        ),
    decreases summaries.len(),
{
    reveal(Seq::filter);
    let p = |x| ready_app_summary(x);
    let f = |x: (Seq<char>, Option<Seq<char>>)| x.0;
    if summaries.len() > 0 {
        let t = summaries.drop_last();
        let last = summaries.last();
        lemma_kept_names_are_ready_app_stacks(t);
        assert(keeps(last) == ready_app_summary(last));
        assert(summaries.filter(p) == if p(last) {
            t.filter(p).push(last)
        } else {
            t.filter(p)
        });
        if p(last) {
            assert(t.filter(p).push(last).map_values(f) =~= t.filter(p).map_values(f).push(last.0));
        }
    } else {
        assert(summaries.filter(p) =~= summaries);
        assert(summaries.filter(p).map_values(f) =~= Seq::<Seq<char>>::empty());
    }
}

/// A summary as texts.
pub open spec fn summary_view(s: (String, Option<String>)) -> (Seq<char>, Option<Seq<char>>) {
    (
        s.0@,
        match s.1 {
            Some(t) => Some(t@),
            None => None,
        },
    )
}

/// Whether a stack status means the stack is settled.
pub fn settled_status(status: &str) -> (r: bool)
    ensures
        r == is_settled_status(status@),
{
    same_text(status, "CREATE_COMPLETE") || same_text(status, "UPDATE_COMPLETE") || same_text(
        status,
        "ROLLBACK_COMPLETE",
    )
}

/// Whether a stack status means the stack was created.
pub fn create_complete(status: &str) -> (r: bool)
    ensures
        r == (status@ == "CREATE_COMPLETE"@),
{
    same_text(status, "CREATE_COMPLETE")
}

/// The names of the application's settled stacks, in the order listed, from
/// summaries given as (name, status if known); a name that is not known is
/// given as the empty text.
pub fn rndr_stack_names(summaries: &Vec<(String, Option<String>)>) -> (names: Vec<String>)
    ensures
        names.deep_view() == kept_names(summaries@.map_values(
            |s: (String, Option<String>)| summary_view(s),
        )),
{
    let ghost all = summaries@.map_values(|s: (String, Option<String>)| summary_view(s));
    let mut names: Vec<String> = Vec::new();
    let mut i: usize = 0;
    while i < summaries.len()
        invariant
            i <= summaries.len(),
            all == summaries@.map_values(|s: (String, Option<String>)| summary_view(s)),
            names.deep_view() == kept_names(all.take(i as int)),
        decreases summaries.len() - i,
    {
        proof {
            assert(all.take(i + 1).drop_last() =~= all.take(i as int));
            assert(all.take(i + 1).last() == summary_view(summaries@[i as int]));
        }
        let (name, status) = &summaries[i];
        match status {
            Some(s) => {
                if settled_status(s.as_str()) && starts_with_str(name.as_str(), "rndr-stack") {
                    let ghost before = names.deep_view();
                    names.push(name.clone());
                    assert(names.deep_view() =~= before.push(name@));
                }
            },
            None => {},
        }
        i = i + 1;
    }
    assert(all.take(summaries.len() as int) =~= all);
    names
}

} // verus!
