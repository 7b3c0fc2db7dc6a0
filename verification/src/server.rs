//! Outcomes of server-side sends and broadcasts.
//!
//! A server keeps its connected clients by id.  Sending to one client and
//! broadcasting to all of them are decided here: who receives a broadcast,
//! and what a send or a broadcast reports back.
use std::collections::HashSet;
use vstd::prelude::*;

verus! {

/// A broadcast reaches its recipients in batches of at most this many.
pub const BROADCAST_BATCH_SIZE: usize = 100;

/// What can go wrong on the server side.
#[derive(Debug)]
pub enum ServerError {
    /// A broadcast failed for every recipient; one entry per failure.
    BroadcastFailed(Vec<()>),
    /// The message could not be encoded for broadcasting.
    EncodingFailed,
    /// No connected client has the given id.
    ClientNotFound(u128),
    /// Sending to the client with the given id failed.
    SendFailed(u128),
}

/// The result of sending to the client `client_id`: `delivery` is `None`
/// when no such client is connected, and otherwise what the client's send
/// returned.
pub fn send_outcome<E>(client_id: u128, delivery: Option<Result<(), E>>) -> (r: Result<(), ServerError>)
    ensures
        match delivery {
            None => r == Err::<(), ServerError>(ServerError::ClientNotFound(client_id)),
            Some(Ok(())) => r is Ok,
            Some(Err(_)) => r == Err::<(), ServerError>(ServerError::SendFailed(client_id)),
        },
{
    match delivery {
        None => Err(ServerError::ClientNotFound(client_id)),
        Some(Ok(())) => Ok(()),
        Some(Err(_)) => Err(ServerError::SendFailed(client_id)),
    }
}

/// The ids a broadcast that leaves out `excluded` reaches, in the order the
/// clients are listed.
pub open spec fn recipients(ids: Seq<u128>, excluded: Set<u128>) -> Seq<u128>
    decreases ids.len(),
{
    if ids.len() == 0 {
        Seq::empty()
    } else {
        let r = recipients(ids.drop_last(), excluded);
        if excluded.contains(ids.last()) {
            r
        } else {
            r.push(ids.last())
        }
    }
}

/// The ids a broadcast leaves out.
pub open spec fn excluded_set(exclude: Option<&HashSet<u128>>) -> Set<u128> {
    match exclude {
        Some(s) => s@,
        None => Set::empty(),
    }
}

/// The clients a broadcast reaches: those listed in `clients` that
/// `exclude` does not name.
pub fn broadcast_recipients(clients: &Vec<u128>, exclude: Option<&HashSet<u128>>) -> (r: Vec<u128>)
    ensures
        r@ == recipients(clients@, excluded_set(exclude)),
{
    broadcast use vstd::std_specs::hash::group_hash_axioms;

    let ghost ex = excluded_set(exclude);
    let mut r: Vec<u128> = Vec::new();
    let mut i: usize = 0;
    while i < clients.len()
        invariant
            i <= clients@.len(),
            ex == excluded_set(exclude),
            r@ == recipients(clients@.take(i as int), ex),
        decreases clients@.len() - i,
    {
        let id = clients[i];
        let skip = match exclude {
            Some(set) => set.contains(&id),
            None => false,
        };
        assert(skip == ex.contains(id));
        assert(clients@.take(i + 1).drop_last() =~= clients@.take(i as int));
        assert(clients@.take(i + 1).last() == id);
        if !skip {
            r.push(id);
        }
        i = i + 1;
    }
    assert(clients@.take(i as int) =~= clients@);
    r
}

/// A broadcast reaches exactly the listed clients that are not excluded.
pub proof fn lemma_recipients_members(ids: Seq<u128>, excluded: Set<u128>, x: u128)
    ensures
        recipients(ids, excluded).contains(x) <==> ids.contains(x) && !excluded.contains(x),
    decreases ids.len(),
{
    if ids.len() > 0 {
        let init = ids.drop_last();
        lemma_recipients_members(init, excluded, x);
        assert(ids =~= init.push(ids.last()));
        if ids.contains(x) && x != ids.last() {
            let k = choose|k: int| 0 <= k < ids.len() && ids[k] == x;
            assert(init[k] == x);
        }
        if init.contains(x) {
            let k = choose|k: int| 0 <= k < init.len() && init[k] == x;
            assert(ids[k] == x);
        }
        let r = recipients(init, excluded);
        if !excluded.contains(ids.last()) {
            if r.push(ids.last()).contains(x) && x != ids.last() {
                let k = choose|k: int| 0 <= k < r.push(ids.last()).len() && r.push(ids.last())[k] == x;
                assert(r[k] == x);
            }
            if r.contains(x) {
                let k = choose|k: int| 0 <= k < r.len() && r[k] == x;
                assert(r.push(ids.last())[k] == x);
            }
            assert(r.push(ids.last())[r.len() as int] == ids.last());
        }
        assert(ids[ids.len() - 1] == ids.last());
    }
}

/// A broadcast leaves out exactly the clients of the given exclusion set,
/// whatever its size, and reaches every other listed client; without an
/// exclusion set it reaches every listed client.
pub proof fn lemma_broadcast_exclusion(ids: Seq<u128>, exclude: Option<&HashSet<u128>>, x: u128)
    ensures
        exclude matches Some(s) ==> (recipients(ids, excluded_set(exclude)).contains(x) <==> ids.contains(x)
            && !s@.contains(x)),
        exclude is None ==> (recipients(ids, excluded_set(exclude)).contains(x) <==> ids.contains(x)),
{
    lemma_recipients_members(ids, excluded_set(exclude), x);
}

/// The result of a broadcast to `recipient_count` clients of which the sends
/// listed in `failures` failed: it fails only when it reached nobody, that
/// is when there were recipients and every send failed.
pub fn broadcast_outcome(recipient_count: usize, failures: Vec<()>) -> (r: Result<(), ServerError>)
    ensures
        failures@.len() > 0 && failures@.len() == recipient_count ==> r == Err::<(), ServerError>(
            ServerError::BroadcastFailed(failures),
        ),
        !(failures@.len() > 0 && failures@.len() == recipient_count) ==> r is Ok,
{
    if failures.len() > 0 && failures.len() == recipient_count {
        Err(ServerError::BroadcastFailed(failures))
    } else {
        Ok(())
    }
}

/// The ids of the recipients whose broadcast send failed, in order: a
/// result is `Err(id)` when the send to `id` failed.
pub open spec fn failed_ids(results: Seq<Result<(), u128>>) -> Seq<u128>
    decreases results.len(),
{
    if results.len() == 0 {
        Seq::empty()
    } else {
        let r = failed_ids(results.drop_last());
        match results.last() {
            Ok(()) => r,
            Err(id) => r.push(id),
        }
    }
}

/// What a batch of broadcast sends leaves behind: the ids of the clients
/// whose send failed, which the server drops, and one failure entry for each
/// of them.
pub fn broadcast_failures(results: &Vec<Result<(), u128>>) -> (r: (Vec<u128>, Vec<()>))
    ensures
        r.0@ == failed_ids(results@),
        r.1@.len() == r.0@.len(),
{
    let mut ids: Vec<u128> = Vec::new();
    let mut failures: Vec<()> = Vec::new();
    let mut i: usize = 0;
    while i < results.len()
        invariant
            i <= results@.len(),
            ids@ == failed_ids(results@.take(i as int)),
            failures@.len() == ids@.len(),
        decreases results@.len() - i,
    {
        assert(results@.take(i + 1).drop_last() =~= results@.take(i as int));
        assert(results@.take(i + 1).last() == results@[i as int]);
        match &results[i] {
            Ok(()) => {},
            Err(id) => {
                ids.push(*id);
                failures.push(());
            },
        }
        i = i + 1;
    }
    assert(results@.take(i as int) =~= results@);
    (ids, failures)
}

/// The failed ids of results one after another are those of the first,
/// then those of the second.
pub proof fn lemma_failed_ids_append(a: Seq<Result<(), u128>>, b: Seq<Result<(), u128>>)
    ensures
        failed_ids(a + b) == failed_ids(a) + failed_ids(b),
    decreases b.len(),
{
    if b.len() == 0 {
        assert(a + b =~= a);
        assert(failed_ids(a) + failed_ids(b) =~= failed_ids(a));
    } else {
        lemma_failed_ids_append(a, b.drop_last());
        assert((a + b).drop_last() =~= a + b.drop_last());
        assert((a + b).last() == b.last());
        assert(failed_ids(a + b) =~= failed_ids(a) + failed_ids(b));
    }
}

/// The failed ids are exactly the ids of the failed sends, in order: a
/// failed send of `x` contributes `x`, a successful send nothing, and
/// results one after another contribute one after another.  So every send
/// that failed is counted and its client dropped.
pub proof fn lemma_failed_ids_exact(x: u128, rs: Seq<Result<(), u128>>)
    ensures
        failed_ids(seq![Err(x)] + rs) == seq![x] + failed_ids(rs),
        failed_ids(seq![Ok(())] + rs) == failed_ids(rs),
        failed_ids(Seq::<Result<(), u128>>::empty()) == Seq::<u128>::empty(),
{
    let e = seq![Err::<(), u128>(x)];
    let o = seq![Ok::<(), u128>(())];
    assert(e.drop_last() =~= Seq::<Result<(), u128>>::empty());
    assert(o.drop_last() =~= Seq::<Result<(), u128>>::empty());
    assert(failed_ids(Seq::<Result<(), u128>>::empty()) == Seq::<u128>::empty());
    assert(e.last() == Err::<(), u128>(x));
    assert(o.last() == Ok::<(), u128>(()));
    assert(failed_ids(e) =~= seq![x]);
    assert(failed_ids(o) =~= Seq::<u128>::empty());
    lemma_failed_ids_append(e, rs);
    lemma_failed_ids_append(o, rs);
    assert(Seq::<u128>::empty() + failed_ids(rs) =~= failed_ids(rs));
}

/// When every send of a non-empty broadcast failed, every recipient is
/// among the failed ids, so the broadcast reports that it failed.
pub proof fn lemma_all_failed_counted(rs: Seq<Result<(), u128>>)
    requires
        forall|i: int| 0 <= i < rs.len() ==> (#[trigger] rs[i]) is Err,
    ensures
        failed_ids(rs).len() == rs.len(),
    decreases rs.len(),
{
    if rs.len() > 0 {
        let init = rs.drop_last();
        assert forall|i: int| 0 <= i < init.len() implies (#[trigger] init[i]) is Err by {
            assert(init[i] == rs[i]);
        }
        lemma_all_failed_counted(init);
        assert(rs.last() == rs[rs.len() - 1]);
    }
}

} // verus!
