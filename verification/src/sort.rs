//! Ordering rows by date, and a helper for building filtered sequences.

use vstd::prelude::*;

use crate::date::date_le;
use crate::model::{Busyday, Invitation, InvitationDate};

verus! {

/// One step of filtering: pushing an element extends the filtered
/// sequence exactly when the element matches.
pub proof fn lemma_filter_push<A>(s: Seq<A>, pred: spec_fn(A) -> bool, x: A)
    ensures
        s.push(x).filter(pred) == if pred(x) {
            s.filter(pred).push(x)
        } else {
            s.filter(pred)
        },
{
    reveal(Seq::filter);
    assert(s.push(x).drop_last() =~= s);
}

/// Proposed-date rows in ascending date order.
pub open spec fn date_rows_sorted(rows: Seq<InvitationDate>) -> bool {
    forall|i: int, j: int|
        0 <= i < j < rows.len() ==> (#[trigger] rows[i]).date.le((#[trigger] rows[j]).date)
}

/// Busy-day rows in ascending date order.
pub open spec fn busydays_sorted(rows: Seq<Busyday>) -> bool {
    forall|i: int, j: int|
        0 <= i < j < rows.len() ==> (#[trigger] rows[i]).date.le((#[trigger] rows[j]).date)
}

/// Invitation rows in descending creation-time order (newest first).
pub open spec fn invitations_sorted_desc(rows: Seq<Invitation>) -> bool {
    forall|i: int, j: int|
        0 <= i < j < rows.len() ==> (#[trigger] rows[i]).created_at >= (
        #[trigger] rows[j]).created_at
}

/// Inserts an invitation into a vector already sorted newest-first,
/// keeping it sorted.
fn insert_invitation_desc(out: &mut Vec<Invitation>, x: Invitation)
    requires
        invitations_sorted_desc(old(out)@),
    ensures
        invitations_sorted_desc(final(out)@),
        final(out)@.to_multiset() == old(out)@.to_multiset().insert(x),
{
    let mut j: usize = 0;
    while j < out.len() && out[j].created_at >= x.created_at
        invariant
            j <= out@.len(),
            out@ == old(out)@,
            forall|k: int| 0 <= k < j ==> (#[trigger] out@[k]).created_at >= x.created_at,
        decreases out@.len() - j,
    {
        j += 1;
    }
    proof {
        assert forall|k: int| j <= k < out@.len() implies x.created_at >= (
        #[trigger] out@[k]).created_at by {
            if j < out@.len() {
                assert(out@[j as int].created_at >= out@[k].created_at || k == j);
            }
        }
        broadcast use vstd::seq_lib::to_multiset_insert;

    }
    out.insert(j, x);
}

/// Sorts invitations by creation time, newest first.
pub fn sort_invitations_desc(rows: Vec<Invitation>) -> (out: Vec<Invitation>)
    ensures
        invitations_sorted_desc(out@),
        out@.to_multiset() == rows@.to_multiset(),
{
    let mut out: Vec<Invitation> = Vec::new();
    let mut i: usize = 0;
    proof {
        broadcast use vstd::seq_lib::group_to_multiset_ensures;

        assert(rows@.subrange(0, 0) =~= Seq::<Invitation>::empty());
    }
    while i < rows.len()
        invariant
            i <= rows@.len(),
            invitations_sorted_desc(out@),
            out@.to_multiset() == rows@.subrange(0, i as int).to_multiset(),
        decreases rows@.len() - i,
    {
        proof {
            broadcast use vstd::seq_lib::group_to_multiset_ensures;

            assert(rows@.subrange(0, i + 1) =~= rows@.subrange(0, i as int).push(rows@[i as int]));
        }
        insert_invitation_desc(&mut out, rows[i]);
        i += 1;
    }
    proof {
        assert(rows@.subrange(0, rows@.len() as int) =~= rows@);
    }
    out
}

/// Inserts a proposed-date row into an already sorted vector, keeping it
/// sorted.
fn insert_date_row(out: &mut Vec<InvitationDate>, x: InvitationDate)
    requires
        date_rows_sorted(old(out)@),
    ensures
        date_rows_sorted(final(out)@),
        final(out)@.to_multiset() == old(out)@.to_multiset().insert(x),
{
    let mut j: usize = 0;
    while j < out.len() && date_le(&out[j].date, &x.date)
        invariant
            j <= out@.len(),
            out@ == old(out)@,
            forall|k: int| 0 <= k < j ==> (#[trigger] out@[k]).date.le(x.date),
        decreases out@.len() - j,
    {
        j += 1;
    }
    proof {
        assert forall|k: int| j <= k < out@.len() implies x.date.le((#[trigger] out@[k]).date) by {
            if j < out@.len() {
                assert(out@[j as int].date.le(out@[k].date) || k == j);
            }
        }
        broadcast use vstd::seq_lib::to_multiset_insert;

    }
    out.insert(j, x);
}

/// Sorts proposed-date rows by date, ascending.
pub fn sort_date_rows(rows: Vec<InvitationDate>) -> (out: Vec<InvitationDate>)
    ensures
        date_rows_sorted(out@),
        out@.to_multiset() == rows@.to_multiset(),
{
    let mut out: Vec<InvitationDate> = Vec::new();
    let mut i: usize = 0;
    proof {
        broadcast use vstd::seq_lib::group_to_multiset_ensures;

        assert(rows@.subrange(0, 0) =~= Seq::<InvitationDate>::empty());
    }
    while i < rows.len()
        invariant
            i <= rows@.len(),
            date_rows_sorted(out@),
            out@.to_multiset() == rows@.subrange(0, i as int).to_multiset(),
        decreases rows@.len() - i,
    {
        proof {
            broadcast use vstd::seq_lib::group_to_multiset_ensures;

            assert(rows@.subrange(0, i + 1) =~= rows@.subrange(0, i as int).push(rows@[i as int]));
        }
        insert_date_row(&mut out, rows[i]);
        i += 1;
    }
    proof {
        assert(rows@.subrange(0, rows@.len() as int) =~= rows@);
    }
    out
}

/// Inserts a busy-day row into an already sorted vector, keeping it
/// sorted.
fn insert_busyday(out: &mut Vec<Busyday>, x: Busyday)
    requires
        busydays_sorted(old(out)@),
    ensures
        busydays_sorted(final(out)@),
        final(out)@.to_multiset() == old(out)@.to_multiset().insert(x),
{
    let mut j: usize = 0;
    while j < out.len() && date_le(&out[j].date, &x.date)
        invariant
            j <= out@.len(),
            out@ == old(out)@,
            forall|k: int| 0 <= k < j ==> (#[trigger] out@[k]).date.le(x.date),
        decreases out@.len() - j,
    {
        j += 1;
    }
    proof {
        assert forall|k: int| j <= k < out@.len() implies x.date.le((#[trigger] out@[k]).date) by {
            if j < out@.len() {
                assert(out@[j as int].date.le(out@[k].date) || k == j);
            }
        }
        broadcast use vstd::seq_lib::to_multiset_insert;

    }
    out.insert(j, x);
}

/// Sorts busy-day rows by date, ascending.
pub fn sort_busydays(rows: Vec<Busyday>) -> (out: Vec<Busyday>)
    ensures
        busydays_sorted(out@),
        out@.to_multiset() == rows@.to_multiset(),
{
    let mut out: Vec<Busyday> = Vec::new();
    let mut i: usize = 0;
    proof {
        broadcast use vstd::seq_lib::group_to_multiset_ensures;

        assert(rows@.subrange(0, 0) =~= Seq::<Busyday>::empty());
    }
    while i < rows.len()
        invariant
            i <= rows@.len(),
            busydays_sorted(out@),
            out@.to_multiset() == rows@.subrange(0, i as int).to_multiset(),
        decreases rows@.len() - i,
    {
        proof {
            broadcast use vstd::seq_lib::group_to_multiset_ensures;

            assert(rows@.subrange(0, i + 1) =~= rows@.subrange(0, i as int).push(rows@[i as int]));
        }
        insert_busyday(&mut out, rows[i]);
        i += 1;
    }
    proof {
        assert(rows@.subrange(0, rows@.len() as int) =~= rows@);
    }
    out
}

} // verus!
