//! Topology retention: the end-of-run, bottom-up pruning of relations,
//! operations and services whose last evidence is older than the topology
//! window.

use vstd::prelude::*;

use crate::keys::{OperationName, ServiceKey};
use crate::state::{OperationState, OperationStateView, RelationState, ServiceState,
    ServiceStateView, State, StateView, SvcTbl, OpRelTbl};
use crate::table::{Table, TableKey};

verus! {

/// How long a service, operation or relation outlives its last evidence.
pub const TOPOLOGY_WINDOW_MICROS: i64 = 604_800_000_000;

/// The retention threshold for a run that starts at the given wall-clock
/// time: entities last seen before it are dropped.
pub fn topology_threshold(now: i64) -> (r: i64)
    requires
        crate::ingest::ts_ok(now),
    ensures
        r == now - TOPOLOGY_WINDOW_MICROS,
{
    now - TOPOLOGY_WINDOW_MICROS
}

/// Relations last seen at or after the threshold.
pub open spec fn spec_prune_rels<K>(rels: Seq<(K, RelationState)>, th: int) -> Seq<
    (K, RelationState),
>
    decreases rels.len(),
{
    if rels.len() == 0 {
        rels
    } else {
        let rest = spec_prune_rels(rels.skip(1), th);
        if rels[0].1.last_seen >= th {
            seq![rels[0]] + rest
        } else {
            rest
        }
    }
}

/// Operation-level relations pruned to the threshold, dropping caller
/// services left without relations.
pub open spec fn spec_prune_oprels(rels: OpRelTbl, th: int) -> OpRelTbl
    decreases rels.len(),
{
    if rels.len() == 0 {
        rels
    } else {
        let inner = spec_prune_rels(rels[0].1, th);
        let rest = spec_prune_oprels(rels.skip(1), th);
        if inner.len() > 0 {
            seq![(rels[0].0, inner)] + rest
        } else {
            rest
        }
    }
}

/// Operations last seen at or after the threshold, their relations pruned.
pub open spec fn spec_prune_ops(ops: Seq<(Seq<char>, OperationStateView)>, th: int) -> Seq<
    (Seq<char>, OperationStateView),
>
    decreases ops.len(),
{
    if ops.len() == 0 {
        ops
    } else {
        let op1 = OperationStateView {
            relations: spec_prune_oprels(ops[0].1.relations, th),
            ..ops[0].1
        };
        let rest = spec_prune_ops(ops.skip(1), th);
        if ops[0].1.last_seen >= th {
            seq![(ops[0].0, op1)] + rest
        } else {
            rest
        }
    }
}

/// Services pruned bottom-up: relations and operations pruned first, then
/// services left without operations dropped.
pub open spec fn spec_prune_services(svcs: SvcTbl, th: int) -> SvcTbl
    decreases svcs.len(),
{
    if svcs.len() == 0 {
        svcs
    } else {
        let svc1 = ServiceStateView {
            relations: spec_prune_rels(svcs[0].1.relations, th),
            operations: spec_prune_ops(svcs[0].1.operations, th),
            ..svcs[0].1
        };
        let rest = spec_prune_services(svcs.skip(1), th);
        if svc1.operations.len() > 0 {
            seq![(svcs[0].0, svc1)] + rest
        } else {
            rest
        }
    }
}

/// The whole topology pruned to the threshold; the trace index and the
/// high-water mark are untouched.
pub open spec fn spec_prune_topology(s: StateView, th: int) -> StateView {
    StateView { services: spec_prune_services(s.services, th), ..s }
}

/// Prunes one relation table to the threshold.
fn prune_rels<K: TableKey>(rels: &mut Table<K, RelationState>, th: i64)
    ensures
        final(rels)@ == spec_prune_rels(old(rels)@, th as int),
{
    let ghost orig = rels@;
    let mut kept: Table<K, RelationState> = Table::new();
    proof {
        assert(kept@ + spec_prune_rels(orig, th as int) =~= spec_prune_rels(orig, th as int));
    }
    while rels.len() > 0
        invariant
            spec_prune_rels(orig, th as int) == kept@ + spec_prune_rels(rels@, th as int),
        decreases rels@.len(),
    {
        let ghost pre = rels@;
        let ghost kept0 = kept@;
        let (k, v) = rels.pop_front();
        if v.last_seen >= th {
            kept.append_entry(k, v);
            proof {
                assert(kept@ =~= kept0 + seq![pre[0]]);
            }
        }
        proof {
            assert(kept@ + spec_prune_rels(rels@, th as int) =~= spec_prune_rels(orig, th as int));
        }
    }
    proof {
        assert(kept@ + spec_prune_rels(rels@, th as int) =~= kept@);
    }
    *rels = kept;
}

/// Prunes one operation's caller-keyed relation tables to the threshold.
fn prune_oprels(rels: &mut Table<ServiceKey, Table<OperationName, RelationState>>, th: i64)
    ensures
        final(rels)@ == spec_prune_oprels(old(rels)@, th as int),
{
    let ghost orig = rels@;
    let mut kept: Table<ServiceKey, Table<OperationName, RelationState>> = Table::new();
    proof {
        assert(kept@ + spec_prune_oprels(orig, th as int) =~= spec_prune_oprels(orig, th as int));
    }
    while rels.len() > 0
        invariant
            spec_prune_oprels(orig, th as int) == kept@ + spec_prune_oprels(rels@, th as int),
        decreases rels@.len(),
    {
        let ghost pre = rels@;
        let ghost kept0 = kept@;
        let (k, mut v) = rels.pop_front();
        prune_rels(&mut v, th);
        if v.len() > 0 {
            kept.append_entry(k, v);
            proof {
                assert(kept@ =~= kept0 + seq![(pre[0].0, spec_prune_rels(pre[0].1, th as int))]);
            }
        }
        proof {
            assert(kept@ + spec_prune_oprels(rels@, th as int) =~= spec_prune_oprels(
                orig,
                th as int,
            ));
        }
    }
    proof {
        assert(kept@ + spec_prune_oprels(rels@, th as int) =~= kept@);
    }
    *rels = kept;
}

/// Prunes one service's operations to the threshold.
fn prune_ops(ops: &mut Table<OperationName, OperationState>, th: i64)
    ensures
        final(ops)@ == spec_prune_ops(old(ops)@, th as int),
{
    let ghost orig = ops@;
    let mut kept: Table<OperationName, OperationState> = Table::new();
    proof {
        assert(kept@ + spec_prune_ops(orig, th as int) =~= spec_prune_ops(orig, th as int));
    }
    while ops.len() > 0
        invariant
            spec_prune_ops(orig, th as int) == kept@ + spec_prune_ops(ops@, th as int),
        decreases ops@.len(),
    {
        let ghost pre = ops@;
        let ghost kept0 = kept@;
        let (k, mut v) = ops.pop_front();
        prune_oprels(&mut v.relations, th);
        if v.last_seen >= th {
            kept.append_entry(k, v);
            proof {
                assert(kept@ =~= kept0 + seq![
                    (
                        pre[0].0,
                        OperationStateView {
                            relations: spec_prune_oprels(pre[0].1.relations, th as int),
                            ..pre[0].1
                        },
                    ),
                ]);
            }
        }
        proof {
            assert(kept@ + spec_prune_ops(ops@, th as int) =~= spec_prune_ops(orig, th as int));
        }
    }
    proof {
        assert(kept@ + spec_prune_ops(ops@, th as int) =~= kept@);
    }
    *ops = kept;
}

impl State {
    /// Applies topology retention at the given threshold: service-level
    /// relations, then operation-level relations and their emptied caller
    /// entries, then operations, then services left without operations.
    pub fn prune_topology(&mut self, threshold: i64)
        ensures
            final(self)@ == spec_prune_topology(old(self)@, threshold as int),
    {
        let ghost s0 = self@;
        let ghost orig = self.services@;
        let mut kept: Table<ServiceKey, ServiceState> = Table::new();
        proof {
            assert(kept@ + spec_prune_services(orig, threshold as int) =~= spec_prune_services(
                orig,
                threshold as int,
            ));
        }
        while self.services.len() > 0
            invariant
                self.last_span == s0.last_span,
                self.traces@ == s0.traces,
                spec_prune_services(orig, threshold as int) == kept@ + spec_prune_services(
                    self.services@,
                    threshold as int,
                ),
            decreases self.services@.len(),
        {
            let ghost pre = self.services@;
            let ghost kept0 = kept@;
            let (k, mut v) = self.services.pop_front();
            prune_rels(&mut v.relations, threshold);
            prune_ops(&mut v.operations, threshold);
            if v.operations.len() > 0 {
                kept.append_entry(k, v);
                proof {
                    assert(kept@ =~= kept0 + seq![
                        (
                            pre[0].0,
                            ServiceStateView {
                                relations: spec_prune_rels(pre[0].1.relations, threshold as int),
                                operations: spec_prune_ops(pre[0].1.operations, threshold as int),
                                ..pre[0].1
                            },
                        ),
                    ]);
                }
            }
            proof {
                assert(kept@ + spec_prune_services(self.services@, threshold as int)
                    =~= spec_prune_services(orig, threshold as int));
            }
        }
        proof {
            assert(kept@ + spec_prune_services(self.services@, threshold as int) =~= kept@);
        }
        self.services = kept;
        proof {
            assert(self@ == spec_prune_topology(s0, threshold as int));
        }
    }
}

} // verus!
