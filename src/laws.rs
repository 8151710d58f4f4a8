//! What holds of the executor over whole runs of deliveries.
use crate::chunk::ChunkModel;
use crate::executor::{deliver_step, DeliveryModel};
use crate::task::{EchoTask, WriteModel};
use vstd::prelude::*;

verus! {

/// Delivers each `(connection, chunk)` of `ds` in order: the registry afterwards, and what came
/// of each delivery.
pub open spec fn deliver_all(reg: Map<u64, EchoTask>, ds: Seq<(u64, ChunkModel)>) -> (Map<
    u64,
    EchoTask,
>, Seq<DeliveryModel>)
    decreases ds.len(),
{
    if ds.len() == 0 {
        (reg, Seq::empty())
    } else {
        let first = deliver_step(reg, ds[0].0, ds[0].1);
        let rest = deliver_all(first.0, ds.drop_first());
        (rest.0, seq![first.1] + rest.1)
    }
}

/// The chunks `cs`, each addressed to connection `id`.
pub open spec fn to_connection(id: u64, cs: Seq<ChunkModel>) -> Seq<(u64, ChunkModel)> {
    cs.map_values(|c: ChunkModel| (id, c))
}

/// The deliveries of `ds` that are addressed to connection `x`, in their order.
pub open spec fn only(ds: Seq<(u64, ChunkModel)>, x: u64) -> Seq<(u64, ChunkModel)>
    decreases ds.len(),
{
    if ds.len() == 0 {
        Seq::empty()
    } else if ds[0].0 == x {
        seq![ds[0]] + only(ds.drop_first(), x)
    } else {
        only(ds.drop_first(), x)
    }
}

/// The chunks written to connection `x` by the outcomes `outs`, in their order.
pub open spec fn writes_to(outs: Seq<DeliveryModel>, x: u64) -> Seq<ChunkModel>
    decreases outs.len(),
{
    if outs.len() == 0 {
        Seq::empty()
    } else {
        let head = match outs[0] {
            DeliveryModel::Resumed(w) => if w.connection == x {
                seq![w.chunk]
            } else {
                Seq::empty()
            },
            DeliveryModel::Stale => Seq::empty(),
        };
        head + writes_to(outs.drop_first(), x)
    }
}

/// The registry `reg` cut down to connection `x` alone.
pub open spec fn alone(reg: Map<u64, EchoTask>, x: u64) -> Map<u64, EchoTask> {
    if reg.contains_key(x) {
        Map::empty().insert(x, reg[x])
    } else {
        Map::empty()
    }
}

proof fn lemma_to_connection_drop_first(id: u64, cs: Seq<ChunkModel>)
    requires
        cs.len() > 0,
    ensures
        to_connection(id, cs).drop_first() == to_connection(id, cs.drop_first()),
{
    assert(to_connection(id, cs).drop_first() =~= to_connection(id, cs.drop_first()));
}

/// Echo fidelity: chunks delivered in order to a registered task are each written back once,
/// unchanged, to the same connection and in the same order.
pub proof fn lemma_echo_fidelity(reg: Map<u64, EchoTask>, id: u64, cs: Seq<ChunkModel>)
    requires
        reg.contains_key(id),
    ensures
        deliver_all(reg, to_connection(id, cs)).1.len() == cs.len(),
        forall|i: int|
            0 <= i < cs.len() ==> #[trigger] deliver_all(reg, to_connection(id, cs)).1[i]
                == DeliveryModel::Resumed(WriteModel { connection: id, chunk: cs[i] }),
    decreases cs.len(),
{
    if cs.len() > 0 {
        let ds = to_connection(id, cs);
        let first = deliver_step(reg, id, cs[0]);
        lemma_to_connection_drop_first(id, cs);
        lemma_echo_fidelity(first.0, id, cs.drop_first());
        let outs = deliver_all(reg, ds).1;
        let rest = deliver_all(first.0, ds.drop_first()).1;
        assert(outs == seq![first.1] + rest);
        assert forall|i: int| 0 <= i < cs.len() implies #[trigger] outs[i]
            == DeliveryModel::Resumed(WriteModel { connection: id, chunk: cs[i] }) by {
            if i > 0 {
                assert(outs[i] == rest[i - 1]);
                assert(cs.drop_first()[i - 1] == cs[i]);
            }
        }
    }
}

/// One resumption per delivery: each delivery of a run comes out as exactly one outcome, and
/// where it resumed a task, that task asked to write exactly the delivered chunk to exactly the
/// connection it was delivered to.
pub proof fn lemma_single_resumption(reg: Map<u64, EchoTask>, ds: Seq<(u64, ChunkModel)>)
    ensures
        deliver_all(reg, ds).1.len() == ds.len(),
        forall|i: int|
            0 <= i < ds.len() ==> match #[trigger] deliver_all(reg, ds).1[i] {
                DeliveryModel::Resumed(w) => w == WriteModel { connection: ds[i].0, chunk: ds[i].1 },
                _ => true,
            },
    decreases ds.len(),
{
    if ds.len() > 0 {
        let first = deliver_step(reg, ds[0].0, ds[0].1);
        lemma_single_resumption(first.0, ds.drop_first());
        let outs = deliver_all(reg, ds).1;
        let rest = deliver_all(first.0, ds.drop_first()).1;
        assert forall|i: int| 0 < i < ds.len() implies outs[i] == rest[i - 1] && ds[i]
            == ds.drop_first()[i - 1] by {}
    }
}

/// A late delivery shows: the host promises nothing after a chunk that ends the stream, and where
/// it breaks that promise while the task is registered, the task is resumed with the late chunk
/// and writes it back, so a write follows the end-of-stream write.
pub proof fn lemma_late_delivery_detectable(reg: Map<u64, EchoTask>, id: u64, cs: Seq<ChunkModel>)
    requires
        reg.contains_key(id),
    ensures
        forall|i: int, j: int|
            0 <= i < j < cs.len() && (#[trigger] cs[i]).end_stream ==> (#[trigger] deliver_all(
                reg,
                to_connection(id, cs),
            ).1[j]) == DeliveryModel::Resumed(WriteModel { connection: id, chunk: cs[j] }),
{
    lemma_echo_fidelity(reg, id, cs);
}

/// A connection with no task is left alone by any deliveries to it.
proof fn lemma_unregistered_connection(reg: Map<u64, EchoTask>, id: u64, cs: Seq<ChunkModel>)
    requires
        !reg.contains_key(id),
    ensures
        deliver_all(reg, to_connection(id, cs)).0 == reg,
        deliver_all(reg, to_connection(id, cs)).1.len() == cs.len(),
        forall|i: int|
            0 <= i < cs.len() ==> #[trigger] deliver_all(reg, to_connection(id, cs)).1[i]
                == DeliveryModel::Stale,
    decreases cs.len(),
{
    if cs.len() > 0 {
        lemma_to_connection_drop_first(id, cs);
        lemma_unregistered_connection(reg, id, cs.drop_first());
        let outs = deliver_all(reg, to_connection(id, cs)).1;
        let rest = deliver_all(reg, to_connection(id, cs.drop_first())).1;
        assert forall|i: int| 0 < i < cs.len() implies outs[i] == rest[i - 1] by {}
    }
}

/// Cancellation is final: after the task of a connection is cancelled, further deliveries to that
/// connection change nothing and resume nothing; each is stale.
pub proof fn lemma_cancel_then_deliver(reg: Map<u64, EchoTask>, id: u64, later: Seq<ChunkModel>)
    ensures
        deliver_all(reg.remove(id), to_connection(id, later)).0 == reg.remove(id),
        forall|i: int|
            0 <= i < later.len() ==> #[trigger] deliver_all(reg.remove(id), to_connection(id, later)).1[i]
                == DeliveryModel::Stale,
{
    lemma_unregistered_connection(reg.remove(id), id, later);
}

/// Registry isolation: any run of deliveries, to any number of other connections in any
/// interleaving, leaves the task of connection `b` (or its absence) as it was, and asks for no
/// write to `b`.
pub proof fn lemma_registry_isolation(reg: Map<u64, EchoTask>, b: u64, ds: Seq<(u64, ChunkModel)>)
    requires
        forall|i: int| 0 <= i < ds.len() ==> (#[trigger] ds[i]).0 != b,
    ensures
        deliver_all(reg, ds).1.len() == ds.len(),
        deliver_all(reg, ds).0.contains_key(b) == reg.contains_key(b),
        reg.contains_key(b) ==> deliver_all(reg, ds).0[b] == reg[b],
        forall|i: int|
            0 <= i < ds.len() ==> match #[trigger] deliver_all(reg, ds).1[i] {
                DeliveryModel::Resumed(w) => w.connection != b,
                _ => true,
            },
    decreases ds.len(),
{
    if ds.len() > 0 {
        let first = deliver_step(reg, ds[0].0, ds[0].1);
        assert(ds[0].0 != b);
        assert forall|i: int| 0 <= i < ds.drop_first().len() implies (#[trigger] ds.drop_first()[i]).0
            != b by {
            assert(ds.drop_first()[i] == ds[i + 1]);
        }
        lemma_registry_isolation(first.0, b, ds.drop_first());
        let outs = deliver_all(reg, ds).1;
        let rest = deliver_all(first.0, ds.drop_first()).1;
        assert forall|i: int| 0 < i < ds.len() implies outs[i] == rest[i - 1] by {}
    }
}

proof fn lemma_writes_to_cons(o: DeliveryModel, rest: Seq<DeliveryModel>, x: u64)
    ensures
        writes_to(seq![o] + rest, x) == writes_to(seq![o], x) + writes_to(rest, x),
{
    let s = seq![o] + rest;
    assert(s.drop_first() =~= rest);
    assert(seq![o].drop_first() =~= Seq::<DeliveryModel>::empty());
    assert(writes_to(Seq::<DeliveryModel>::empty(), x) =~= Seq::<ChunkModel>::empty());
    assert(writes_to(seq![o], x) =~= writes_to(seq![o], x) + Seq::<ChunkModel>::empty());
}

proof fn lemma_independence(
    reg: Map<u64, EchoTask>,
    solo: Map<u64, EchoTask>,
    x: u64,
    ds: Seq<(u64, ChunkModel)>,
)
    requires
        reg.contains_key(x) == solo.contains_key(x),
    ensures
        deliver_all(reg, ds).0 == reg,
        deliver_all(solo, only(ds, x)).0 == solo,
        writes_to(deliver_all(reg, ds).1, x) == writes_to(deliver_all(solo, only(ds, x)).1, x),
    decreases ds.len(),
{
    if ds.len() > 0 {
        let tail = ds.drop_first();
        lemma_independence(reg, solo, x, tail);
        let o = deliver_step(reg, ds[0].0, ds[0].1).1;
        lemma_writes_to_cons(o, deliver_all(reg, tail).1, x);
        if ds[0].0 == x {
            let ys = only(ds, x);
            assert(ys == seq![ds[0]] + only(tail, x));
            assert(ys[0] == ds[0]);
            assert(ys.drop_first() =~= only(tail, x));
            let p = deliver_step(solo, x, ds[0].1).1;
            assert(p == o);
            lemma_writes_to_cons(p, deliver_all(solo, only(tail, x)).1, x);
        } else {
            assert(writes_to(seq![o], x) =~= Seq::<ChunkModel>::empty()) by {
                assert(seq![o].drop_first() =~= Seq::<DeliveryModel>::empty());
                assert(writes_to(Seq::<DeliveryModel>::empty(), x) =~= Seq::<ChunkModel>::empty());
            }
            assert(writes_to(deliver_all(reg, ds).1, x) =~= writes_to(deliver_all(reg, tail).1, x));
        }
    }
}

/// Per-connection independence: in any interleaving of deliveries across any number of
/// connections, the chunks written to connection `x` are exactly those written when only the
/// deliveries addressed to `x` are made, in their order, to a registry that holds `x` alone.
/// Deliveries never change the registry.
pub proof fn lemma_per_connection_independence(
    reg: Map<u64, EchoTask>,
    x: u64,
    ds: Seq<(u64, ChunkModel)>,
)
    ensures
        deliver_all(reg, ds).0 == reg,
        writes_to(deliver_all(reg, ds).1, x) == writes_to(
            deliver_all(alone(reg, x), only(ds, x)).1,
            x,
        ),
{
    lemma_independence(reg, alone(reg, x), x, ds);
}

} // verus!
