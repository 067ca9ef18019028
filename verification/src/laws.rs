//! Laws of the topology engine, each proved over the spec-level transition
//! functions: identifier stability under ingestion, retention bounds, the
//! absence of service-level self-loops, and that only `ChildOf` references
//! contribute relations.

use vstd::prelude::*;

use crate::ingest::{spec_add_relation, spec_first_child_of, spec_ingest_span,
    spec_stitch_parent, spec_stitch_pending, spec_touch_rel};
use crate::keys::{OperationKeyView, ServiceKeyView};
use crate::materialize::spec_materialize;
use crate::retain::{spec_prune_ops, spec_prune_oprels, spec_prune_rels, spec_prune_services,
    spec_prune_topology};
use crate::span::SpanView;
use crate::state::{op_wf, svc_wf, OperationStateView, RelationState, ServiceStateView, StateView,
    SvcTbl, TraceTbl};
use crate::table::{lemma_tbl_get_absent, lemma_tbl_get_is_entry, lemma_tbl_get_push,
    lemma_tbl_put_get, lemma_tbl_put_wf, lemma_tbl_remove_get, lemma_tbl_remove_subrange,
    tbl_contains, tbl_get, tbl_put, tbl_remove, tbl_wf};

verus! {

/// Unique keys at every level of the topology.
pub open spec fn svcs_wf(svcs: SvcTbl) -> bool {
    &&& tbl_wf(svcs)
    &&& forall|i: int| 0 <= i < svcs.len() ==> svc_wf(#[trigger] svcs[i].1)
}

/// The identifier of a service, when present.
pub open spec fn svc_id_of(svcs: SvcTbl, k: ServiceKeyView) -> Option<u128> {
    match tbl_get(svcs, k) {
        Some(svc) => Some(svc.id),
        None => None,
    }
}

/// The identifier of an operation, when present.
pub open spec fn op_id_of(svcs: SvcTbl, k: ServiceKeyView, o: Seq<char>) -> Option<u128> {
    match tbl_get(svcs, k) {
        Some(svc) => match tbl_get(svc.operations, o) {
            Some(op) => Some(op.id),
            None => None,
        },
        None => None,
    }
}

/// The identifier of a service-level relation, when present.
pub open spec fn svc_rel_id_of(svcs: SvcTbl, callee: ServiceKeyView, caller: ServiceKeyView) -> Option<
    u128,
> {
    match tbl_get(svcs, callee) {
        Some(svc) => match tbl_get(svc.relations, caller) {
            Some(r) => Some(r.id),
            None => None,
        },
        None => None,
    }
}

/// The identifier of an operation-level relation, when present.
pub open spec fn op_rel_id_of(svcs: SvcTbl, callee: OperationKeyView, caller: OperationKeyView) -> Option<
    u128,
> {
    match tbl_get(svcs, callee.service_key) {
        Some(svc) => match tbl_get(svc.operations, callee.operation_name) {
            Some(op) => match tbl_get(op.relations, caller.service_key) {
                Some(inner) => match tbl_get(inner, caller.operation_name) {
                    Some(r) => Some(r.id),
                    None => None,
                },
                None => None,
            },
            None => None,
        },
        None => None,
    }
}

/// Identifiers present before a step keep their value after it.
pub open spec fn ids_stable(pre: SvcTbl, post: SvcTbl) -> bool {
    &&& forall|k: ServiceKeyView|
        #[trigger] svc_id_of(pre, k) is Some ==> svc_id_of(post, k) == svc_id_of(pre, k)
    &&& forall|k: ServiceKeyView, o: Seq<char>|
        #[trigger] op_id_of(pre, k, o) is Some ==> op_id_of(post, k, o) == op_id_of(pre, k, o)
    &&& forall|k: ServiceKeyView, c: ServiceKeyView|
        #[trigger] svc_rel_id_of(pre, k, c) is Some ==> svc_rel_id_of(post, k, c) == svc_rel_id_of(
            pre,
            k,
            c,
        )
    &&& forall|k: OperationKeyView, c: OperationKeyView|
        #[trigger] op_rel_id_of(pre, k, c) is Some ==> op_rel_id_of(post, k, c) == op_rel_id_of(
            pre,
            k,
            c,
        )
}

/// An upsert leaves every other key's value unchanged, with no uniqueness
/// assumption.
proof fn lemma_tbl_put_get_other<K, V>(s: Seq<(K, V)>, k: K, v: V, k2: K)
    requires
        k2 != k,
    ensures
        tbl_get(tbl_put(s, k, v), k2) == tbl_get(s, k2),
{
    lemma_tbl_remove_get(s, k, k2);
    lemma_tbl_get_push(tbl_remove(s, k), (k, v), k2);
}

/// Every entry of an upsert result is the new pair or an entry of the
/// original table.
proof fn lemma_tbl_put_entries<K, V>(s: Seq<(K, V)>, k: K, v: V)
    ensures
        forall|j: int|
            0 <= j < tbl_put(s, k, v).len() ==> (#[trigger] tbl_put(s, k, v)[j] == (k, v)
                || exists|i: int| 0 <= i < s.len() && s[i] == tbl_put(s, k, v)[j]),
{
    lemma_tbl_remove_subrange(s, k);
    let r = tbl_remove(s, k);
    assert forall|j: int| 0 <= j < tbl_put(s, k, v).len() implies (#[trigger] tbl_put(s, k, v)[j]
        == (k, v) || exists|i: int| 0 <= i < s.len() && s[i] == tbl_put(s, k, v)[j]) by {
        if j < r.len() {
            assert(tbl_put(s, k, v)[j] == r[j]);
        } else {
            assert(tbl_put(s, k, v)[j] == (k, v));
        }
    }
}

/// Refreshing a relation keeps unique keys, keeps every present relation's
/// identifier, and touches no other key.
proof fn lemma_touch_rel_props<K>(rels: Seq<(K, RelationState)>, k: K, t: i64, id: u128)
    requires
        tbl_wf(rels),
    ensures
        tbl_wf(spec_touch_rel(rels, k, t, id)),
        forall|k2: K|
            k2 != k ==> #[trigger] tbl_get(spec_touch_rel(rels, k, t, id), k2) == tbl_get(rels, k2),
        tbl_get(spec_touch_rel(rels, k, t, id), k) is Some,
        tbl_get(rels, k) is Some ==> tbl_get(spec_touch_rel(rels, k, t, id), k)->Some_0.id
            == tbl_get(rels, k)->Some_0.id,
{
    let id2 = match tbl_get(rels, k) {
        Some(r) => r.id,
        None => id,
    };
    let v = RelationState { id: id2, last_seen: t };
    lemma_tbl_put_wf(rels, k, v);
    lemma_tbl_put_get(rels, k, v, k);
    assert forall|k2: K| k2 != k implies #[trigger] tbl_get(spec_touch_rel(rels, k, t, id), k2)
        == tbl_get(rels, k2) by {
        lemma_tbl_put_get_other(rels, k, v, k2);
    }
}

/// A found service of a well-formed topology is itself well-formed.
proof fn lemma_svcs_wf_get(svcs: SvcTbl, k: ServiceKeyView)
    requires
        svcs_wf(svcs),
        tbl_get(svcs, k) is Some,
    ensures
        svc_wf(tbl_get(svcs, k)->Some_0),
{
    lemma_tbl_get_is_entry(svcs, k);
    let i0 = choose|i: int| 0 <= i < svcs.len() && svcs[i] == (k, tbl_get(svcs, k)->Some_0);
    assert(svc_wf(svcs[i0].1));
}

/// A found operation of a well-formed service is itself well-formed.
proof fn lemma_svc_wf_op(svc: ServiceStateView, o: Seq<char>)
    requires
        svc_wf(svc),
        tbl_get(svc.operations, o) is Some,
    ensures
        op_wf(tbl_get(svc.operations, o)->Some_0),
{
    lemma_tbl_get_is_entry(svc.operations, o);
    let i0 = choose|i: int|
        0 <= i < svc.operations.len() && svc.operations[i] == (
            o,
            tbl_get(svc.operations, o)->Some_0,
        );
    assert(op_wf(svc.operations[i0].1));
}

/// Well-formedness of the topology survives an upsert of a well-formed
/// service.
proof fn lemma_svcs_wf_put(svcs: SvcTbl, k: ServiceKeyView, v: ServiceStateView)
    requires
        svcs_wf(svcs),
        svc_wf(v),
    ensures
        svcs_wf(tbl_put(svcs, k, v)),
{
    lemma_tbl_put_wf(svcs, k, v);
    lemma_tbl_put_entries(svcs, k, v);
    assert forall|i: int| 0 <= i < tbl_put(svcs, k, v).len() implies svc_wf(
        #[trigger] tbl_put(svcs, k, v)[i].1,
    ) by {
        if tbl_put(svcs, k, v)[i] == (k, v) {
        } else {
            let i0 = choose|i0: int| 0 <= i0 < svcs.len() && svcs[i0] == tbl_put(svcs, k, v)[i];
            assert(svc_wf(svcs[i0].1));
        }
    }
}

/// Recording one relation keeps the topology well-formed, keeps every
/// present identifier, and neither adds nor removes services or operations.
proof fn lemma_add_relation_props(
    svcs: SvcTbl,
    callee: OperationKeyView,
    caller: OperationKeyView,
    t: i64,
    id_svc: u128,
    id_op: u128,
)
    requires
        svcs_wf(svcs),
    ensures
        svcs_wf(spec_add_relation(svcs, callee, caller, t, id_svc, id_op)),
        ids_stable(svcs, spec_add_relation(svcs, callee, caller, t, id_svc, id_op)),
        forall|k: ServiceKeyView|
            #[trigger] svc_id_of(spec_add_relation(svcs, callee, caller, t, id_svc, id_op), k)
                == svc_id_of(svcs, k),
        forall|k: ServiceKeyView, o: Seq<char>|
            #[trigger] op_id_of(spec_add_relation(svcs, callee, caller, t, id_svc, id_op), k, o)
                == op_id_of(svcs, k, o),
{
    let res = spec_add_relation(svcs, callee, caller, t, id_svc, id_op);
    let services1 = if caller.service_key == callee.service_key {
        svcs
    } else {
        match tbl_get(svcs, callee.service_key) {
            Some(svc) => tbl_put(
                svcs,
                callee.service_key,
                ServiceStateView {
                    relations: spec_touch_rel(svc.relations, caller.service_key, t, id_svc),
                    ..svc
                },
            ),
            None => svcs,
        }
    };
    // phase one: the service-level relation
    if caller.service_key != callee.service_key && tbl_get(svcs, callee.service_key) is Some {
        let svc = tbl_get(svcs, callee.service_key)->Some_0;
        lemma_svcs_wf_get(svcs, callee.service_key);
        lemma_touch_rel_props(svc.relations, caller.service_key, t, id_svc);
        let svc1 = ServiceStateView {
            relations: spec_touch_rel(svc.relations, caller.service_key, t, id_svc),
            ..svc
        };
        lemma_svcs_wf_put(svcs, callee.service_key, svc1);
        lemma_tbl_put_get(svcs, callee.service_key, svc1, callee.service_key);
        assert forall|k: ServiceKeyView| k != callee.service_key implies #[trigger] tbl_get(
            services1,
            k,
        ) == tbl_get(svcs, k) by {
            lemma_tbl_put_get_other(svcs, callee.service_key, svc1, k);
        }
    }
    assert(svcs_wf(services1));
    assert(forall|k: ServiceKeyView| #[trigger] svc_id_of(services1, k) == svc_id_of(svcs, k));
    assert(forall|k: ServiceKeyView, o: Seq<char>|
        #[trigger] op_id_of(services1, k, o) == op_id_of(svcs, k, o));
    assert(forall|k: ServiceKeyView, c: ServiceKeyView|
        #[trigger] svc_rel_id_of(svcs, k, c) is Some ==> svc_rel_id_of(services1, k, c)
            == svc_rel_id_of(svcs, k, c));
    assert(forall|k: OperationKeyView, c: OperationKeyView|
        #[trigger] op_rel_id_of(svcs, k, c) == op_rel_id_of(services1, k, c));
    // phase two: the operation-level relation
    if tbl_get(services1, callee.service_key) is Some {
        let svc = tbl_get(services1, callee.service_key)->Some_0;
        lemma_svcs_wf_get(services1, callee.service_key);
        if tbl_get(svc.operations, callee.operation_name) is Some {
            let op = tbl_get(svc.operations, callee.operation_name)->Some_0;
            lemma_svc_wf_op(svc, callee.operation_name);
            let inner = match tbl_get(op.relations, caller.service_key) {
                Some(m) => m,
                None => Seq::empty(),
            };
            if tbl_get(op.relations, caller.service_key) is Some {
                lemma_tbl_get_is_entry(op.relations, caller.service_key);
                let i0 = choose|i: int|
                    0 <= i < op.relations.len() && op.relations[i] == (
                        caller.service_key,
                        tbl_get(op.relations, caller.service_key)->Some_0,
                    );
                assert(tbl_wf(op.relations[i0].1));
            }
            assert(tbl_wf(inner));
            lemma_touch_rel_props(inner, caller.operation_name, t, id_op);
            let inner1 = spec_touch_rel(inner, caller.operation_name, t, id_op);
            let op1 = OperationStateView {
                relations: tbl_put(op.relations, caller.service_key, inner1),
                ..op
            };
            assert(op_wf(op1)) by {
                lemma_tbl_put_wf(op.relations, caller.service_key, inner1);
                lemma_tbl_put_entries(op.relations, caller.service_key, inner1);
                assert forall|i: int| 0 <= i < op1.relations.len() implies tbl_wf(
                    #[trigger] op1.relations[i].1,
                ) by {
                    if op1.relations[i] == (caller.service_key, inner1) {
                    } else {
                        let i0 = choose|i0: int|
                            0 <= i0 < op.relations.len() && op.relations[i0] == op1.relations[i];
                        assert(tbl_wf(op.relations[i0].1));
                    }
                }
            }
            let svc1 = ServiceStateView {
                operations: tbl_put(svc.operations, callee.operation_name, op1),
                ..svc
            };
            assert(svc_wf(svc1)) by {
                lemma_tbl_put_wf(svc.operations, callee.operation_name, op1);
                lemma_tbl_put_entries(svc.operations, callee.operation_name, op1);
                assert forall|i: int| 0 <= i < svc1.operations.len() implies op_wf(
                    #[trigger] svc1.operations[i].1,
                ) by {
                    if svc1.operations[i] == (callee.operation_name, op1) {
                    } else {
                        let i0 = choose|i0: int|
                            0 <= i0 < svc.operations.len() && svc.operations[i0]
                                == svc1.operations[i];
                        assert(op_wf(svc.operations[i0].1));
                    }
                }
            }
            lemma_svcs_wf_put(services1, callee.service_key, svc1);
            lemma_tbl_put_get(services1, callee.service_key, svc1, callee.service_key);
            lemma_tbl_put_get(svc.operations, callee.operation_name, op1, callee.operation_name);
            lemma_tbl_put_get(op.relations, caller.service_key, inner1, caller.service_key);
            assert forall|k: ServiceKeyView| k != callee.service_key implies #[trigger] tbl_get(
                res,
                k,
            ) == tbl_get(services1, k) by {
                lemma_tbl_put_get_other(services1, callee.service_key, svc1, k);
            }
            assert forall|o: Seq<char>| o != callee.operation_name implies #[trigger] tbl_get(
                svc1.operations,
                o,
            ) == tbl_get(svc.operations, o) by {
                lemma_tbl_put_get_other(svc.operations, callee.operation_name, op1, o);
            }
            assert forall|c: ServiceKeyView| c != caller.service_key implies #[trigger] tbl_get(
                op1.relations,
                c,
            ) == tbl_get(op.relations, c) by {
                lemma_tbl_put_get_other(op.relations, caller.service_key, inner1, c);
            }
        } else {
            lemma_svcs_wf_put(services1, callee.service_key, svc);
            lemma_tbl_put_get(services1, callee.service_key, svc, callee.service_key);
            assert forall|k: ServiceKeyView| k != callee.service_key implies #[trigger] tbl_get(
                res,
                k,
            ) == tbl_get(services1, k) by {
                lemma_tbl_put_get_other(services1, callee.service_key, svc, k);
            }
        }
    }
}

/// Recording the waiting children keeps the topology well-formed and keeps
/// every present identifier.
proof fn lemma_stitch_pending_props(
    svcs: SvcTbl,
    caller: OperationKeyView,
    pending: Seq<OperationKeyView>,
    t: i64,
    ids: Seq<u128>,
    idx: int,
)
    requires
        svcs_wf(svcs),
    ensures
        svcs_wf(spec_stitch_pending(svcs, caller, pending, t, ids, idx)),
        ids_stable(svcs, spec_stitch_pending(svcs, caller, pending, t, ids, idx)),
        forall|k: ServiceKeyView|
            #[trigger] svc_id_of(spec_stitch_pending(svcs, caller, pending, t, ids, idx), k)
                == svc_id_of(svcs, k),
        forall|k: ServiceKeyView, o: Seq<char>|
            #[trigger] op_id_of(spec_stitch_pending(svcs, caller, pending, t, ids, idx), k, o)
                == op_id_of(svcs, k, o),
    decreases pending.len(),
{
    if pending.len() == 0 {
    } else {
        let s1 = spec_add_relation(svcs, pending[0], caller, t, ids[idx], ids[idx + 1]);
        lemma_add_relation_props(svcs, pending[0], caller, t, ids[idx], ids[idx + 1]);
        lemma_stitch_pending_props(s1, caller, pending.skip(1), t, ids, idx + 2);
    }
}

/// Identifier stability: ingesting a span never changes the identifier of a
/// service, operation or relation that is already in the state.
pub proof fn lemma_ingest_ids_stable(s: StateView, sp: SpanView, ids: Seq<u128>)
    requires
        svcs_wf(s.services),
    ensures
        svcs_wf(spec_ingest_span(s, sp, ids).services),
        ids_stable(s.services, spec_ingest_span(s, sp, ids).services),
{
    let t = sp.start_time;
    let skey = crate::span::spec_service_key(sp.process);
    let okey = OperationKeyView { service_key: skey, operation_name: sp.operation_name };
    let meta = crate::span::spec_meta_of(sp.process.tags);
    let svc0 = match tbl_get(s.services, skey) {
        Some(svc) => ServiceStateView { meta, ..svc },
        None => ServiceStateView {
            id: ids[0],
            meta,
            relations: Seq::empty(),
            operations: Seq::empty(),
        },
    };
    if tbl_get(s.services, skey) is Some {
        lemma_svcs_wf_get(s.services, skey);
    }
    let op0 = match tbl_get(svc0.operations, sp.operation_name) {
        Some(op) => OperationStateView { last_seen: t, ..op },
        None => OperationStateView { id: ids[1], relations: Seq::empty(), last_seen: t },
    };
    if tbl_get(svc0.operations, sp.operation_name) is Some {
        lemma_svc_wf_op(svc0, sp.operation_name);
    }
    let svc2 = ServiceStateView {
        operations: tbl_put(svc0.operations, sp.operation_name, op0),
        ..svc0
    };
    assert(svc_wf(svc2)) by {
        lemma_tbl_put_wf(svc0.operations, sp.operation_name, op0);
        lemma_tbl_put_entries(svc0.operations, sp.operation_name, op0);
        assert forall|i: int| 0 <= i < svc2.operations.len() implies op_wf(
            #[trigger] svc2.operations[i].1,
        ) by {
            if svc2.operations[i] == (sp.operation_name, op0) {
            } else {
                let i0 = choose|i0: int|
                    0 <= i0 < svc0.operations.len() && svc0.operations[i0] == svc2.operations[i];
                assert(op_wf(svc0.operations[i0].1));
            }
        }
    }
    let services1 = tbl_put(s.services, skey, svc2);
    lemma_svcs_wf_put(s.services, skey, svc2);
    lemma_tbl_put_get(s.services, skey, svc2, skey);
    assert forall|k: ServiceKeyView| k != skey implies #[trigger] tbl_get(services1, k) == tbl_get(
        s.services,
        k,
    ) by {
        lemma_tbl_put_get_other(s.services, skey, svc2, k);
    }
    lemma_tbl_put_get(svc0.operations, sp.operation_name, op0, sp.operation_name);
    assert forall|o: Seq<char>| o != sp.operation_name implies #[trigger] tbl_get(
        svc2.operations,
        o,
    ) == tbl_get(svc0.operations, o) by {
        lemma_tbl_put_get_other(svc0.operations, sp.operation_name, op0, o);
    }
    assert(ids_stable(s.services, services1));
    let up = spec_stitch_parent(
        spec_ingest_span(s, sp, ids).traces,
        services1,
        okey,
        spec_first_child_of(sp.references),
        t,
        ids,
    );
    // the upward stitch touches the services only through one relation
    let services2 = match spec_first_child_of(sp.references) {
        None => services1,
        Some(r) => {
            let traces1 = tbl_put(
                s.traces,
                sp.trace_id,
                crate::state::TraceInfoView {
                    last_seen: t,
                    spans: tbl_put(
                        match tbl_get(s.traces, sp.trace_id) {
                            Some(ti) => ti.spans,
                            None => Seq::empty(),
                        },
                        sp.span_id,
                        crate::state::SpanInfoView { key: Some(okey), parent_of: Seq::empty() },
                    ),
                },
            );
            let pspans = match tbl_get(traces1, r.trace_id) {
                Some(ti) => ti.spans,
                None => Seq::empty(),
            };
            let pspan = match tbl_get(pspans, r.span_id) {
                Some(si) => si,
                None => crate::state::SpanInfoView { key: None, parent_of: Seq::empty() },
            };
            match pspan.key {
                Some(pk) => spec_add_relation(services1, okey, pk, t, ids[2], ids[3]),
                None => services1,
            }
        },
    };
    if spec_first_child_of(sp.references) is Some {
        let r = spec_first_child_of(sp.references)->Some_0;
        let traces1 = tbl_put(
            s.traces,
            sp.trace_id,
            crate::state::TraceInfoView {
                last_seen: t,
                spans: tbl_put(
                    match tbl_get(s.traces, sp.trace_id) {
                        Some(ti) => ti.spans,
                        None => Seq::empty(),
                    },
                    sp.span_id,
                    crate::state::SpanInfoView { key: Some(okey), parent_of: Seq::empty() },
                ),
            },
        );
        let pspans = match tbl_get(traces1, r.trace_id) {
            Some(ti) => ti.spans,
            None => Seq::empty(),
        };
        let pspan = match tbl_get(pspans, r.span_id) {
            Some(si) => si,
            None => crate::state::SpanInfoView { key: None, parent_of: Seq::empty() },
        };
        if pspan.key is Some {
            lemma_add_relation_props(services1, okey, pspan.key->Some_0, t, ids[2], ids[3]);
        }
    }
    assert(svcs_wf(services2));
    assert(ids_stable(s.services, services2));
    let pending = match tbl_get(
        match tbl_get(s.traces, sp.trace_id) {
            Some(ti) => ti.spans,
            None => Seq::empty(),
        },
        sp.span_id,
    ) {
        Some(si) => si.parent_of,
        None => Seq::empty(),
    };
    lemma_stitch_pending_props(services2, okey, pending, t, ids, 4);
    assert(spec_ingest_span(s, sp, ids).services == spec_stitch_pending(
        services2,
        okey,
        pending,
        t,
        ids,
        4,
    ));
}


/// Relations all evidenced at or after the threshold.
pub open spec fn rels_recent<K>(rels: Seq<(K, RelationState)>, th: int) -> bool {
    forall|j: int| 0 <= j < rels.len() ==> (#[trigger] rels[j]).1.last_seen >= th
}

/// An operation evidenced at or after the threshold, with recent, non-empty
/// caller entries.
pub open spec fn op_recent(op: OperationStateView, th: int) -> bool {
    &&& op.last_seen >= th
    &&& forall|a: int|
        0 <= a < op.relations.len() ==> rels_recent((#[trigger] op.relations[a]).1, th)
            && op.relations[a].1.len() > 0
}

/// A service with recent relations and at least one recent operation.
pub open spec fn svc_recent(svc: ServiceStateView, th: int) -> bool {
    &&& rels_recent(svc.relations, th)
    &&& svc.operations.len() > 0
    &&& forall|a: int| 0 <= a < svc.operations.len() ==> op_recent((#[trigger] svc.operations[a]).1, th)
}

/// Every surviving entity was evidenced at or after the threshold.
pub open spec fn topo_recent(svcs: SvcTbl, th: int) -> bool {
    forall|i: int| 0 <= i < svcs.len() ==> svc_recent((#[trigger] svcs[i]).1, th)
}

proof fn lemma_prune_rels_recent<K>(rels: Seq<(K, RelationState)>, th: int)
    ensures
        rels_recent(spec_prune_rels(rels, th), th),
    decreases rels.len(),
{
    if rels.len() > 0 {
        lemma_prune_rels_recent(rels.skip(1), th);
        let rest = spec_prune_rels(rels.skip(1), th);
        if rels[0].1.last_seen >= th {
            let t = seq![rels[0]] + rest;
            assert forall|j: int| 0 <= j < t.len() implies (#[trigger] t[j]).1.last_seen >= th by {
                if j > 0 {
                    assert(t[j] == rest[j - 1]);
                }
            }
        }
    }
}

proof fn lemma_prune_oprels_recent(rels: crate::state::OpRelTbl, th: int)
    ensures
        forall|a: int|
            0 <= a < spec_prune_oprels(rels, th).len() ==> rels_recent(
                (#[trigger] spec_prune_oprels(rels, th)[a]).1,
                th,
            ) && spec_prune_oprels(rels, th)[a].1.len() > 0,
    decreases rels.len(),
{
    if rels.len() > 0 {
        lemma_prune_rels_recent(rels[0].1, th);
        lemma_prune_oprels_recent(rels.skip(1), th);
        let inner = spec_prune_rels(rels[0].1, th);
        let rest = spec_prune_oprels(rels.skip(1), th);
        let t = spec_prune_oprels(rels, th);
        if inner.len() > 0 {
            assert forall|a: int| 0 <= a < t.len() implies rels_recent((#[trigger] t[a]).1, th)
                && t[a].1.len() > 0 by {
                if a > 0 {
                    assert(t[a] == rest[a - 1]);
                }
            }
        }
    }
}

proof fn lemma_prune_ops_recent(ops: Seq<(Seq<char>, OperationStateView)>, th: int)
    ensures
        forall|a: int|
            0 <= a < spec_prune_ops(ops, th).len() ==> op_recent(
                (#[trigger] spec_prune_ops(ops, th)[a]).1,
                th,
            ),
    decreases ops.len(),
{
    if ops.len() > 0 {
        lemma_prune_oprels_recent(ops[0].1.relations, th);
        lemma_prune_ops_recent(ops.skip(1), th);
        let rest = spec_prune_ops(ops.skip(1), th);
        let t = spec_prune_ops(ops, th);
        if ops[0].1.last_seen >= th {
            assert forall|a: int| 0 <= a < t.len() implies op_recent((#[trigger] t[a]).1, th) by {
                if a > 0 {
                    assert(t[a] == rest[a - 1]);
                }
            }
        }
    }
}

/// Retention bound: after pruning at a threshold, every surviving service,
/// operation and relation was last seen at or after that threshold, and
/// every surviving service still has an operation.
pub proof fn lemma_retention_bounds(s: StateView, th: int)
    ensures
        topo_recent(spec_prune_topology(s, th).services, th),
{
    lemma_prune_services_recent(s.services, th);
}

proof fn lemma_prune_services_recent(svcs: SvcTbl, th: int)
    ensures
        topo_recent(spec_prune_services(svcs, th), th),
    decreases svcs.len(),
{
    if svcs.len() > 0 {
        lemma_prune_rels_recent(svcs[0].1.relations, th);
        lemma_prune_ops_recent(svcs[0].1.operations, th);
        lemma_prune_services_recent(svcs.skip(1), th);
        let svc1 = ServiceStateView {
            relations: spec_prune_rels(svcs[0].1.relations, th),
            operations: spec_prune_ops(svcs[0].1.operations, th),
            ..svcs[0].1
        };
        let rest = spec_prune_services(svcs.skip(1), th);
        let t = spec_prune_services(svcs, th);
        if svc1.operations.len() > 0 {
            assert forall|i: int| 0 <= i < t.len() implies svc_recent((#[trigger] t[i]).1, th) by {
                if i > 0 {
                    assert(t[i] == rest[i - 1]);
                }
            }
        }
    }
}

/// Retention completeness for relations: a relation evidenced at or after
/// the threshold survives the prune, under its caller key and with its
/// identifier.
pub proof fn lemma_prune_rels_complete<K>(rels: Seq<(K, RelationState)>, th: int, j: int)
    requires
        0 <= j < rels.len(),
        rels[j].1.last_seen >= th,
    ensures
        exists|jj: int|
            0 <= jj < spec_prune_rels(rels, th).len() && #[trigger] spec_prune_rels(rels, th)[jj]
                == rels[j],
    decreases j,
{
    let t = spec_prune_rels(rels, th);
    let rest = spec_prune_rels(rels.skip(1), th);
    if j == 0 {
        assert(t[0] == rels[0]);
    } else {
        assert(rels.skip(1)[j - 1] == rels[j]);
        lemma_prune_rels_complete(rels.skip(1), th, j - 1);
        let jj = choose|jj: int| 0 <= jj < rest.len() && #[trigger] rest[jj] == rels.skip(1)[j - 1];
        if rels[0].1.last_seen >= th {
            assert(t[jj + 1] == rest[jj]);
        } else {
            assert(t[jj] == rest[jj]);
        }
    }
}

/// Retention completeness for operations: an operation evidenced at or after
/// the threshold survives the prune, under its name and with its identifier.
pub proof fn lemma_prune_ops_complete(ops: Seq<(Seq<char>, OperationStateView)>, th: int, j: int)
    requires
        0 <= j < ops.len(),
        ops[j].1.last_seen >= th,
    ensures
        exists|jj: int|
            0 <= jj < spec_prune_ops(ops, th).len() && (#[trigger] spec_prune_ops(ops, th)[jj]).0
                == ops[j].0 && spec_prune_ops(ops, th)[jj].1.id == ops[j].1.id,
    decreases j,
{
    let t = spec_prune_ops(ops, th);
    let rest = spec_prune_ops(ops.skip(1), th);
    if j == 0 {
        assert(t[0] == (
            ops[0].0,
            OperationStateView {
                relations: spec_prune_oprels(ops[0].1.relations, th),
                ..ops[0].1
            },
        ));
    } else {
        assert(ops.skip(1)[j - 1] == ops[j]);
        lemma_prune_ops_complete(ops.skip(1), th, j - 1);
        let jj = choose|jj: int|
            0 <= jj < rest.len() && (#[trigger] rest[jj]).0 == ops.skip(1)[j - 1].0 && rest[jj].1.id
                == ops.skip(1)[j - 1].1.id;
        if ops[0].1.last_seen >= th {
            assert(t[jj + 1] == rest[jj]);
        } else {
            assert(t[jj] == rest[jj]);
        }
    }
}

/// Retention completeness for services: a service with an operation
/// evidenced at or after the threshold survives the prune, under its key
/// and with its identifier.
pub proof fn lemma_prune_services_complete(svcs: SvcTbl, th: int, i: int, j: int)
    requires
        0 <= i < svcs.len(),
        0 <= j < svcs[i].1.operations.len(),
        svcs[i].1.operations[j].1.last_seen >= th,
    ensures
        exists|ii: int|
            0 <= ii < spec_prune_services(svcs, th).len() && (#[trigger] spec_prune_services(
                svcs,
                th,
            )[ii]).0 == svcs[i].0 && spec_prune_services(svcs, th)[ii].1.id == svcs[i].1.id,
    decreases i,
{
    let t = spec_prune_services(svcs, th);
    let rest = spec_prune_services(svcs.skip(1), th);
    if i == 0 {
        lemma_prune_ops_complete(svcs[0].1.operations, th, j);
        let svc1 = ServiceStateView {
            relations: spec_prune_rels(svcs[0].1.relations, th),
            operations: spec_prune_ops(svcs[0].1.operations, th),
            ..svcs[0].1
        };
        assert(t[0] == (svcs[0].0, svc1));
    } else {
        assert(svcs.skip(1)[i - 1] == svcs[i]);
        lemma_prune_services_complete(svcs.skip(1), th, i - 1, j);
        let ii = choose|ii: int|
            0 <= ii < rest.len() && (#[trigger] rest[ii]).0 == svcs.skip(1)[i - 1].0 && rest[ii].1.id
                == svcs.skip(1)[i - 1].1.id;
        let svc1 = ServiceStateView {
            relations: spec_prune_rels(svcs[0].1.relations, th),
            operations: spec_prune_ops(svcs[0].1.operations, th),
            ..svcs[0].1
        };
        if svc1.operations.len() > 0 {
            assert(t[ii + 1] == rest[ii]);
        } else {
            assert(t[ii] == rest[ii]);
        }
    }
}

/// No service has a relation from itself.
pub open spec fn no_service_self_loops(svcs: SvcTbl) -> bool {
    forall|i: int|
        0 <= i < svcs.len() ==> !tbl_contains((#[trigger] svcs[i]).1.relations, svcs[i].0)
}

proof fn lemma_add_relation_no_self(
    svcs: SvcTbl,
    callee: OperationKeyView,
    caller: OperationKeyView,
    t: i64,
    id_svc: u128,
    id_op: u128,
)
    requires
        no_service_self_loops(svcs),
    ensures
        no_service_self_loops(spec_add_relation(svcs, callee, caller, t, id_svc, id_op)),
{
    let res = spec_add_relation(svcs, callee, caller, t, id_svc, id_op);
    let services1 = if caller.service_key == callee.service_key {
        svcs
    } else {
        match tbl_get(svcs, callee.service_key) {
            Some(svc) => tbl_put(
                svcs,
                callee.service_key,
                ServiceStateView {
                    relations: spec_touch_rel(svc.relations, caller.service_key, t, id_svc),
                    ..svc
                },
            ),
            None => svcs,
        }
    };
    if caller.service_key != callee.service_key && tbl_get(svcs, callee.service_key) is Some {
        let svc = tbl_get(svcs, callee.service_key)->Some_0;
        lemma_tbl_get_is_entry(svcs, callee.service_key);
        let i0 = choose|i: int|
            0 <= i < svcs.len() && svcs[i] == (callee.service_key, svc);
        assert(!tbl_contains(svc.relations, callee.service_key));
        let id2 = match tbl_get(svc.relations, caller.service_key) {
            Some(r) => r.id,
            None => id_svc,
        };
        lemma_tbl_put_get_other(
            svc.relations,
            caller.service_key,
            RelationState { id: id2, last_seen: t },
            callee.service_key,
        );
        let svc1 = ServiceStateView {
            relations: spec_touch_rel(svc.relations, caller.service_key, t, id_svc),
            ..svc
        };
        assert(!tbl_contains(svc1.relations, callee.service_key));
        lemma_tbl_put_entries(svcs, callee.service_key, svc1);
        assert forall|i: int| 0 <= i < services1.len() implies !tbl_contains(
            (#[trigger] services1[i]).1.relations,
            services1[i].0,
        ) by {
            if services1[i] != (callee.service_key, svc1) {
                let ii = choose|ii: int| 0 <= ii < svcs.len() && svcs[ii] == services1[i];
                assert(!tbl_contains(svcs[ii].1.relations, svcs[ii].0));
            }
        }
    }
    assert(no_service_self_loops(services1));
    if tbl_get(services1, callee.service_key) is Some {
        let svc = tbl_get(services1, callee.service_key)->Some_0;
        lemma_tbl_get_is_entry(services1, callee.service_key);
        let i0 = choose|i: int|
            0 <= i < services1.len() && services1[i] == (callee.service_key, svc);
        assert(!tbl_contains(svc.relations, callee.service_key));
        if tbl_get(svc.operations, callee.operation_name) is Some {
            let op = tbl_get(svc.operations, callee.operation_name)->Some_0;
            let inner = match tbl_get(op.relations, caller.service_key) {
                Some(m) => m,
                None => Seq::empty(),
            };
            let inner1 = spec_touch_rel(inner, caller.operation_name, t, id_op);
            let op1 = OperationStateView {
                relations: tbl_put(op.relations, caller.service_key, inner1),
                ..op
            };
            let svc1 = ServiceStateView {
                operations: tbl_put(svc.operations, callee.operation_name, op1),
                ..svc
            };
            lemma_tbl_put_entries(services1, callee.service_key, svc1);
            assert forall|i: int| 0 <= i < res.len() implies !tbl_contains(
                (#[trigger] res[i]).1.relations,
                res[i].0,
            ) by {
                if res[i] != (callee.service_key, svc1) {
                    let ii = choose|ii: int|
                        0 <= ii < services1.len() && services1[ii] == res[i];
                    assert(!tbl_contains(services1[ii].1.relations, services1[ii].0));
                }
            }
        } else {
            lemma_tbl_put_entries(services1, callee.service_key, svc);
            assert forall|i: int| 0 <= i < res.len() implies !tbl_contains(
                (#[trigger] res[i]).1.relations,
                res[i].0,
            ) by {
                if res[i] != (callee.service_key, svc) {
                    let ii = choose|ii: int|
                        0 <= ii < services1.len() && services1[ii] == res[i];
                    assert(!tbl_contains(services1[ii].1.relations, services1[ii].0));
                }
            }
        }
    }
}

proof fn lemma_stitch_pending_no_self(
    svcs: SvcTbl,
    caller: OperationKeyView,
    pending: Seq<OperationKeyView>,
    t: i64,
    ids: Seq<u128>,
    idx: int,
)
    requires
        no_service_self_loops(svcs),
    ensures
        no_service_self_loops(spec_stitch_pending(svcs, caller, pending, t, ids, idx)),
    decreases pending.len(),
{
    if pending.len() > 0 {
        lemma_add_relation_no_self(svcs, pending[0], caller, t, ids[idx], ids[idx + 1]);
        lemma_stitch_pending_no_self(
            spec_add_relation(svcs, pending[0], caller, t, ids[idx], ids[idx + 1]),
            caller,
            pending.skip(1),
            t,
            ids,
            idx + 2,
        );
    }
}

/// No self-loops: ingesting a span never records a service-level relation
/// whose caller is the service itself.
pub proof fn lemma_ingest_no_self_loops(s: StateView, sp: SpanView, ids: Seq<u128>)
    requires
        no_service_self_loops(s.services),
    ensures
        no_service_self_loops(spec_ingest_span(s, sp, ids).services),
{
    let t = sp.start_time;
    let skey = crate::span::spec_service_key(sp.process);
    let okey = OperationKeyView { service_key: skey, operation_name: sp.operation_name };
    let meta = crate::span::spec_meta_of(sp.process.tags);
    let svc0 = match tbl_get(s.services, skey) {
        Some(svc) => ServiceStateView { meta, ..svc },
        None => ServiceStateView {
            id: ids[0],
            meta,
            relations: Seq::empty(),
            operations: Seq::empty(),
        },
    };
    if tbl_get(s.services, skey) is Some {
        lemma_tbl_get_is_entry(s.services, skey);
        let i0 = choose|i: int|
            0 <= i < s.services.len() && s.services[i] == (skey, tbl_get(s.services, skey)->Some_0);
        assert(!tbl_contains(svc0.relations, skey));
    } else {
        lemma_tbl_get_absent(svc0.relations, skey);
    }
    let op0 = match tbl_get(svc0.operations, sp.operation_name) {
        Some(op) => OperationStateView { last_seen: t, ..op },
        None => OperationStateView { id: ids[1], relations: Seq::empty(), last_seen: t },
    };
    let svc2 = ServiceStateView {
        operations: tbl_put(svc0.operations, sp.operation_name, op0),
        ..svc0
    };
    let services1 = tbl_put(s.services, skey, svc2);
    lemma_tbl_put_entries(s.services, skey, svc2);
    assert forall|i: int| 0 <= i < services1.len() implies !tbl_contains(
        (#[trigger] services1[i]).1.relations,
        services1[i].0,
    ) by {
        if services1[i] != (skey, svc2) {
            let ii = choose|ii: int| 0 <= ii < s.services.len() && s.services[ii] == services1[i];
            assert(!tbl_contains(s.services[ii].1.relations, s.services[ii].0));
        }
    }
    let services2 = match spec_first_child_of(sp.references) {
        None => services1,
        Some(r) => {
            let traces1 = tbl_put(
                s.traces,
                sp.trace_id,
                crate::state::TraceInfoView {
                    last_seen: t,
                    spans: tbl_put(
                        match tbl_get(s.traces, sp.trace_id) {
                            Some(ti) => ti.spans,
                            None => Seq::empty(),
                        },
                        sp.span_id,
                        crate::state::SpanInfoView { key: Some(okey), parent_of: Seq::empty() },
                    ),
                },
            );
            let pspans = match tbl_get(traces1, r.trace_id) {
                Some(ti) => ti.spans,
                None => Seq::empty(),
            };
            let pspan = match tbl_get(pspans, r.span_id) {
                Some(si) => si,
                None => crate::state::SpanInfoView { key: None, parent_of: Seq::empty() },
            };
            match pspan.key {
                Some(pk) => spec_add_relation(services1, okey, pk, t, ids[2], ids[3]),
                None => services1,
            }
        },
    };
    if spec_first_child_of(sp.references) is Some {
        let r = spec_first_child_of(sp.references)->Some_0;
        let traces1 = tbl_put(
            s.traces,
            sp.trace_id,
            crate::state::TraceInfoView {
                last_seen: t,
                spans: tbl_put(
                    match tbl_get(s.traces, sp.trace_id) {
                        Some(ti) => ti.spans,
                        None => Seq::empty(),
                    },
                    sp.span_id,
                    crate::state::SpanInfoView { key: Some(okey), parent_of: Seq::empty() },
                ),
            },
        );
        let pspans = match tbl_get(traces1, r.trace_id) {
            Some(ti) => ti.spans,
            None => Seq::empty(),
        };
        let pspan = match tbl_get(pspans, r.span_id) {
            Some(si) => si,
            None => crate::state::SpanInfoView { key: None, parent_of: Seq::empty() },
        };
        if pspan.key is Some {
            lemma_add_relation_no_self(services1, okey, pspan.key->Some_0, t, ids[2], ids[3]);
        }
    }
    assert(no_service_self_loops(services2));
    let pending = match tbl_get(
        match tbl_get(s.traces, sp.trace_id) {
            Some(ti) => ti.spans,
            None => Seq::empty(),
        },
        sp.span_id,
    ) {
        Some(si) => si.parent_of,
        None => Seq::empty(),
    };
    lemma_stitch_pending_no_self(services2, okey, pending, t, ids, 4);
}

/// No operation of any service has a recorded relation.
pub open spec fn ops_no_relations(ops: Seq<(Seq<char>, OperationStateView)>) -> bool {
    forall|j: int| 0 <= j < ops.len() ==> (#[trigger] ops[j]).1.relations.len() == 0
}

/// The topology holds no relation at either granularity.
pub open spec fn no_relations(svcs: SvcTbl) -> bool {
    forall|i: int|
        0 <= i < svcs.len() ==> (#[trigger] svcs[i]).1.relations.len() == 0 && ops_no_relations(
            svcs[i].1.operations,
        )
}

/// No span in the stitching index is waiting for a parent.
pub open spec fn no_pending(traces: TraceTbl) -> bool {
    forall|i: int|
        0 <= i < traces.len() ==> forall|j: int|
            0 <= j < (#[trigger] traces[i]).1.spans.len() ==> (
            #[trigger] traces[i].1.spans[j]).1.parent_of.len() == 0
}

/// Only `ChildOf` contributes: a span without a `ChildOf` reference adds no
/// relation and leaves no waiting child, so an input whose references are
/// all of another kind yields a topology with no relations at all.
pub proof fn lemma_only_child_of_contributes(s: StateView, sp: SpanView, ids: Seq<u128>)
    requires
        no_relations(s.services),
        no_pending(s.traces),
        spec_first_child_of(sp.references) is None,
    ensures
        no_relations(spec_ingest_span(s, sp, ids).services),
        no_pending(spec_ingest_span(s, sp, ids).traces),
{
    let t = sp.start_time;
    let skey = crate::span::spec_service_key(sp.process);
    let okey = OperationKeyView { service_key: skey, operation_name: sp.operation_name };
    let meta = crate::span::spec_meta_of(sp.process.tags);
    let spans0 = match tbl_get(s.traces, sp.trace_id) {
        Some(ti) => ti.spans,
        None => Seq::empty(),
    };
    if tbl_get(s.traces, sp.trace_id) is Some {
        lemma_tbl_get_is_entry(s.traces, sp.trace_id);
        let i0 = choose|i: int|
            0 <= i < s.traces.len() && s.traces[i] == (
                sp.trace_id,
                tbl_get(s.traces, sp.trace_id)->Some_0,
            );
        assert(s.traces[i0].1.spans == spans0);
        assert forall|j: int| 0 <= j < spans0.len() implies (#[trigger] spans0[j]).1.parent_of.len()
            == 0 by {
            assert(s.traces[i0].1.spans[j] == spans0[j]);
        }
    }
    let pending = match tbl_get(spans0, sp.span_id) {
        Some(si) => si.parent_of,
        None => Seq::empty(),
    };
    if tbl_get(spans0, sp.span_id) is Some {
        lemma_tbl_get_is_entry(spans0, sp.span_id);
        let j0 = choose|j: int|
            0 <= j < spans0.len() && spans0[j] == (sp.span_id, tbl_get(spans0, sp.span_id)->Some_0);
        assert(pending.len() == 0);
    }
    assert(pending.len() == 0);
    // the trace index keeps no waiting children
    let spans1 = tbl_put(
        spans0,
        sp.span_id,
        crate::state::SpanInfoView { key: Some(okey), parent_of: Seq::empty() },
    );
    let traces1 = tbl_put(
        s.traces,
        sp.trace_id,
        crate::state::TraceInfoView { last_seen: t, spans: spans1 },
    );
    lemma_tbl_put_entries(
        spans0,
        sp.span_id,
        crate::state::SpanInfoView { key: Some(okey), parent_of: Seq::empty() },
    );
    assert(forall|j: int| 0 <= j < spans1.len() ==> (#[trigger] spans1[j]).1.parent_of.len() == 0);
    lemma_tbl_put_entries(
        s.traces,
        sp.trace_id,
        crate::state::TraceInfoView { last_seen: t, spans: spans1 },
    );
    assert forall|i: int| 0 <= i < traces1.len() implies forall|j: int|
        0 <= j < (#[trigger] traces1[i]).1.spans.len() ==> (
        #[trigger] traces1[i].1.spans[j]).1.parent_of.len() == 0 by {
        if traces1[i] != (sp.trace_id, crate::state::TraceInfoView { last_seen: t, spans: spans1 }) {
            let ii = choose|ii: int| 0 <= ii < s.traces.len() && s.traces[ii] == traces1[i];
            assert(forall|j: int|
                0 <= j < s.traces[ii].1.spans.len() ==> (
                #[trigger] s.traces[ii].1.spans[j]).1.parent_of.len() == 0);
        }
    }
    // the topology gains no relation
    let svc0 = match tbl_get(s.services, skey) {
        Some(svc) => ServiceStateView { meta, ..svc },
        None => ServiceStateView {
            id: ids[0],
            meta,
            relations: Seq::empty(),
            operations: Seq::empty(),
        },
    };
    if tbl_get(s.services, skey) is Some {
        lemma_tbl_get_is_entry(s.services, skey);
        let i0 = choose|i: int|
            0 <= i < s.services.len() && s.services[i] == (skey, tbl_get(s.services, skey)->Some_0);
        assert(s.services[i0].1.relations.len() == 0 && ops_no_relations(
            s.services[i0].1.operations,
        ));
        assert(svc0.relations == s.services[i0].1.relations);
        assert(svc0.operations == s.services[i0].1.operations);
    } else {
        assert(ops_no_relations(svc0.operations));
    }
    assert(svc0.relations.len() == 0 && ops_no_relations(svc0.operations));
    let op0 = match tbl_get(svc0.operations, sp.operation_name) {
        Some(op) => OperationStateView { last_seen: t, ..op },
        None => OperationStateView { id: ids[1], relations: Seq::empty(), last_seen: t },
    };
    if tbl_get(svc0.operations, sp.operation_name) is Some {
        lemma_tbl_get_is_entry(svc0.operations, sp.operation_name);
        let j0 = choose|j: int|
            0 <= j < svc0.operations.len() && svc0.operations[j] == (
                sp.operation_name,
                tbl_get(svc0.operations, sp.operation_name)->Some_0,
            );
        assert(svc0.operations[j0].1.relations.len() == 0);
        assert(op0.relations == svc0.operations[j0].1.relations);
    }
    assert(op0.relations.len() == 0);
    let svc2 = ServiceStateView {
        operations: tbl_put(svc0.operations, sp.operation_name, op0),
        ..svc0
    };
    lemma_tbl_put_entries(svc0.operations, sp.operation_name, op0);
    assert(ops_no_relations(svc2.operations));
    let services1 = tbl_put(s.services, skey, svc2);
    lemma_tbl_put_entries(s.services, skey, svc2);
    assert forall|i: int| 0 <= i < services1.len() implies (#[trigger] services1[i]).1.relations.len()
        == 0 && ops_no_relations(services1[i].1.operations) by {
        if services1[i] != (skey, svc2) {
            let ii = choose|ii: int| 0 <= ii < s.services.len() && s.services[ii] == services1[i];
            assert(s.services[ii].1.relations.len() == 0 && ops_no_relations(
                s.services[ii].1.operations,
            ));
        }
    }
    assert(spec_ingest_span(s, sp, ids).services == spec_stitch_pending(
        services1,
        okey,
        pending,
        t,
        ids,
        4,
    ));
    assert(spec_ingest_span(s, sp, ids).traces == traces1);
}

/// The entries of a pruned relation table are entries of the original.
proof fn lemma_prune_rels_entries<K>(rels: Seq<(K, RelationState)>, th: int)
    ensures
        forall|j: int|
            0 <= j < spec_prune_rels(rels, th).len() ==> exists|i: int|
                0 <= i < rels.len() && rels[i] == #[trigger] spec_prune_rels(rels, th)[j],
    decreases rels.len(),
{
    if rels.len() > 0 {
        lemma_prune_rels_entries(rels.skip(1), th);
        let rest = spec_prune_rels(rels.skip(1), th);
        let t = spec_prune_rels(rels, th);
        assert forall|j: int| 0 <= j < t.len() implies exists|i: int|
            0 <= i < rels.len() && rels[i] == #[trigger] t[j] by {
            if rels[0].1.last_seen >= th && j == 0 {
                assert(rels[0] == t[0]);
            } else {
                let jr = if rels[0].1.last_seen >= th {
                    j - 1
                } else {
                    j
                };
                assert(t[j] == rest[jr]);
                let i0 = choose|i: int|
                    0 <= i < rels.skip(1).len() && rels.skip(1)[i] == rest[jr];
                assert(rels[i0 + 1] == rels.skip(1)[i0]);
            }
        }
    }
}

/// An entry's key is found by the lookup.
proof fn lemma_tbl_entry_contains<K, V>(s: Seq<(K, V)>, i: int)
    requires
        0 <= i < s.len(),
    ensures
        tbl_contains(s, s[i].0),
    decreases i,
{
    if s[0].0 == s[i].0 {
    } else {
        assert(s.skip(1)[i - 1] == s[i]);
        lemma_tbl_entry_contains(s.skip(1), i - 1);
    }
}

/// A pruned relation table contains no key the original lacked.
proof fn lemma_prune_rels_no_new_key<K>(rels: Seq<(K, RelationState)>, th: int, k: K)
    requires
        !tbl_contains(rels, k),
    ensures
        !tbl_contains(spec_prune_rels(rels, th), k),
{
    let t = spec_prune_rels(rels, th);
    if tbl_contains(t, k) {
        lemma_tbl_get_is_entry(t, k);
        let j = choose|j: int| 0 <= j < t.len() && t[j] == (k, tbl_get(t, k)->Some_0);
        lemma_prune_rels_entries(rels, th);
        let i = choose|i: int| 0 <= i < rels.len() && rels[i] == t[j];
        lemma_tbl_entry_contains(rels, i);
    }
}

/// No self-loops: retention never introduces a service-level relation whose
/// caller is the service itself.
pub proof fn lemma_prune_no_self_loops(svcs: SvcTbl, th: int)
    requires
        no_service_self_loops(svcs),
    ensures
        no_service_self_loops(spec_prune_services(svcs, th)),
    decreases svcs.len(),
{
    if svcs.len() > 0 {
        assert(no_service_self_loops(svcs.skip(1))) by {
            assert forall|i: int| 0 <= i < svcs.skip(1).len() implies !tbl_contains(
                (#[trigger] svcs.skip(1)[i]).1.relations,
                svcs.skip(1)[i].0,
            ) by {
                assert(svcs.skip(1)[i] == svcs[i + 1]);
            }
        }
        lemma_prune_no_self_loops(svcs.skip(1), th);
        let svc1 = ServiceStateView {
            relations: spec_prune_rels(svcs[0].1.relations, th),
            operations: spec_prune_ops(svcs[0].1.operations, th),
            ..svcs[0].1
        };
        lemma_prune_rels_no_new_key(svcs[0].1.relations, th, svcs[0].0);
        let rest = spec_prune_services(svcs.skip(1), th);
        let t = spec_prune_services(svcs, th);
        if svc1.operations.len() > 0 {
            assert forall|i: int| 0 <= i < t.len() implies !tbl_contains(
                (#[trigger] t[i]).1.relations,
                t[i].0,
            ) by {
                if i > 0 {
                    assert(t[i] == rest[i - 1]);
                }
            }
        }
    }
}

/// Idempotent publish: materializing the same state twice yields the same
/// document.
pub proof fn lemma_publish_idempotent(
    s: StateView,
    d1: crate::materialize::ItemsView,
    d2: crate::materialize::ItemsView,
)
    requires
        d1 == spec_materialize(s),
        d2 == spec_materialize(s),
    ensures
        d1 == d2,
{
}

} // verus!
