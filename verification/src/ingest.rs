//! The span ingestor: the per-span procedure that updates the trace index,
//! the services and operations, and the caller/callee relations, stitching
//! parent/child references in either arrival order; and the per-batch
//! procedure that advances the high-water mark and prunes the trace index.

use vstd::prelude::*;

use crate::keys::{OperationKey, OperationKeyView, OperationName, ServiceKey, SpanId, TraceId};
use crate::span::{ref_views, span_views, spec_meta_of, spec_service_key, resolve_service_key,
    RefType, Reference, ReferenceView, ServiceMeta, Span, SpanView};
use crate::state::{op_key_views, OperationState, OperationStateView, RelationState, ServiceState,
    ServiceStateView, SpanInfo, SpanInfoView, State, StateView, SvcTbl, TraceInfo, TraceInfoView,
    TraceTbl};
use crate::table::{tbl_get, tbl_put, tbl_remove, lemma_tbl_remove_none, Table, TableKey};

verus! {

/// How long a trace stays in the stitching index after it was last seen.
pub const TRACE_WINDOW_MICROS: i64 = 300_000_000;

/// Smallest microsecond timestamp that chrono can represent as a date-time.
pub const TIMESTAMP_MICROS_MIN: i64 = -8334601228800000000;

/// Largest microsecond timestamp that chrono can represent as a date-time.
pub const TIMESTAMP_MICROS_MAX: i64 = 8210266876799999999;

/// A microsecond timestamp representable as a date-time.
pub open spec fn ts_ok(us: i64) -> bool {
    TIMESTAMP_MICROS_MIN <= us <= TIMESTAMP_MICROS_MAX
}

/// Error raised by ingestion.
#[derive(Clone, Copy, Debug, PartialEq, Eq, Structural)]
pub enum IngestError {
    /// A span start time or page sort value is not representable as a
    /// timestamp.
    TimestampOutOfBounds(i64),
}

/// Relies on `uuid::Uuid::new_v4`: a freshly generated random (version 4)
/// UUID, returned as its 128-bit value. The value is random, so nothing is
/// promised of it.
#[verifier::external_body]
fn fresh_id() -> u128 {
    uuid::Uuid::new_v4().as_u128()
}

/// Relies on `chrono::DateTime::<Utc>::from_timestamp_micros`, which
/// converts a microsecond timestamp exactly when it lies in chrono's
/// representable range (about 262,000 years either side of the common era).
#[verifier::external_body]
fn timestamp_in_range(us: i64) -> (r: bool)
    ensures
        r == ts_ok(us),
{
    chrono::DateTime::<chrono::Utc>::from_timestamp_micros(us).is_some()
}

/// A relation entry refreshed by new evidence at time `t`: an existing
/// relation keeps its identifier; a new one gets `id`.
pub open spec fn spec_touch_rel<K>(
    rels: Seq<(K, RelationState)>,
    k: K,
    t: i64,
    id: u128,
) -> Seq<(K, RelationState)> {
    let id2 = match tbl_get(rels, k) {
        Some(r) => r.id,
        None => id,
    };
    tbl_put(rels, k, RelationState { id: id2, last_seen: t })
}

/// A caller/callee relation recorded against the callee's entries: at
/// service granularity only across services, at operation granularity
/// whenever the callee service and operation are known.
pub open spec fn spec_add_relation(
    services: SvcTbl,
    callee: OperationKeyView,
    caller: OperationKeyView,
    t: i64,
    id_svc: u128,
    id_op: u128,
) -> SvcTbl {
    let services1 = if caller.service_key == callee.service_key {
        services
    } else {
        match tbl_get(services, callee.service_key) {
            Some(svc) => tbl_put(
                services,
                callee.service_key,
                ServiceStateView {
                    relations: spec_touch_rel(svc.relations, caller.service_key, t, id_svc),
                    ..svc
                },
            ),
            None => services,
        }
    };
    match tbl_get(services1, callee.service_key) {
        Some(svc) => match tbl_get(svc.operations, callee.operation_name) {
            Some(op) => {
                let inner = match tbl_get(op.relations, caller.service_key) {
                    Some(m) => m,
                    None => Seq::empty(),
                };
                let inner1 = spec_touch_rel(inner, caller.operation_name, t, id_op);
                let op1 = OperationStateView {
                    relations: tbl_put(op.relations, caller.service_key, inner1),
                    ..op
                };
                tbl_put(
                    services1,
                    callee.service_key,
                    ServiceStateView {
                        operations: tbl_put(svc.operations, callee.operation_name, op1),
                        ..svc
                    },
                )
            },
            None => tbl_put(services1, callee.service_key, svc),
        },
        None => services1,
    }
}

/// The first `ChildOf` reference of a span, if any.
pub open spec fn spec_first_child_of(refs: Seq<ReferenceView>) -> Option<ReferenceView>
    decreases refs.len(),
{
    if refs.len() == 0 {
        None
    } else if refs[0].ref_type is ChildOf {
        Some(refs[0])
    } else {
        spec_first_child_of(refs.skip(1))
    }
}

/// The upward stitch: when the span has a `ChildOf` reference, the parent
/// placeholder is created or refreshed; a known parent yields a relation,
/// an unknown one records this span in the parent's waiting list.
pub open spec fn spec_stitch_parent(
    traces: TraceTbl,
    services: SvcTbl,
    okey: OperationKeyView,
    cref: Option<ReferenceView>,
    t: i64,
    ids: Seq<u128>,
) -> (TraceTbl, SvcTbl) {
    match cref {
        None => (traces, services),
        Some(r) => {
            let pspans = match tbl_get(traces, r.trace_id) {
                Some(ti) => ti.spans,
                None => Seq::empty(),
            };
            let pspan = match tbl_get(pspans, r.span_id) {
                Some(si) => si,
                None => SpanInfoView { key: None, parent_of: Seq::empty() },
            };
            match pspan.key {
                Some(pk) => {
                    let traces1 = tbl_put(
                        traces,
                        r.trace_id,
                        TraceInfoView { last_seen: t, spans: tbl_put(pspans, r.span_id, pspan) },
                    );
                    (traces1, spec_add_relation(services, okey, pk, t, ids[2], ids[3]))
                },
                None => {
                    let pspan1 = SpanInfoView { parent_of: pspan.parent_of.push(okey), ..pspan };
                    let traces1 = tbl_put(
                        traces,
                        r.trace_id,
                        TraceInfoView { last_seen: t, spans: tbl_put(pspans, r.span_id, pspan1) },
                    );
                    (traces1, services)
                },
            }
        },
    }
}

/// The downward stitch: each waiting child, in order, yields a relation
/// from this span's operation to the child, consuming two identifiers.
pub open spec fn spec_stitch_pending(
    services: SvcTbl,
    caller: OperationKeyView,
    pending: Seq<OperationKeyView>,
    t: i64,
    ids: Seq<u128>,
    idx: int,
) -> SvcTbl
    decreases pending.len(),
{
    if pending.len() == 0 {
        services
    } else {
        let s1 = spec_add_relation(services, pending[0], caller, t, ids[idx], ids[idx + 1]);
        spec_stitch_pending(s1, caller, pending.skip(1), t, ids, idx + 2)
    }
}

/// The per-span procedure. `ids` supplies the identifiers assigned on
/// creation: the service at 0, the operation at 1, the upward service and
/// operation relations at 2 and 3, and two per waiting child from 4 on.
pub open spec fn spec_ingest_span(s: StateView, sp: SpanView, ids: Seq<u128>) -> StateView {
    let t = sp.start_time;
    let skey = spec_service_key(sp.process);
    let okey = OperationKeyView { service_key: skey, operation_name: sp.operation_name };
    let meta = spec_meta_of(sp.process.tags);
    let spans0 = match tbl_get(s.traces, sp.trace_id) {
        Some(ti) => ti.spans,
        None => Seq::empty(),
    };
    let pending = match tbl_get(spans0, sp.span_id) {
        Some(si) => si.parent_of,
        None => Seq::empty(),
    };
    let spans1 = tbl_put(
        spans0,
        sp.span_id,
        SpanInfoView { key: Some(okey), parent_of: Seq::empty() },
    );
    let traces1 = tbl_put(s.traces, sp.trace_id, TraceInfoView { last_seen: t, spans: spans1 });
    let svc0 = match tbl_get(s.services, skey) {
        Some(svc) => ServiceStateView { meta, ..svc },
        None => ServiceStateView {
            id: ids[0],
            meta,
            relations: Seq::empty(),
            operations: Seq::empty(),
        },
    };
    let op0 = match tbl_get(svc0.operations, sp.operation_name) {
        Some(op) => OperationStateView { last_seen: t, ..op },
        None => OperationStateView { id: ids[1], relations: Seq::empty(), last_seen: t },
    };
    let services1 = tbl_put(
        s.services,
        skey,
        ServiceStateView { operations: tbl_put(svc0.operations, sp.operation_name, op0), ..svc0 },
    );
    let up = spec_stitch_parent(
        traces1,
        services1,
        okey,
        spec_first_child_of(sp.references),
        t,
        ids,
    );
    let services3 = spec_stitch_pending(up.1, okey, pending, t, ids, 4);
    StateView { last_span: s.last_span, traces: up.0, services: services3 }
}

/// A batch of spans ingested in order, each with its identifier sequence.
pub open spec fn spec_ingest_spans(
    s: StateView,
    spans: Seq<SpanView>,
    idss: Seq<Seq<u128>>,
) -> StateView
    decreases spans.len(),
{
    if spans.len() == 0 {
        s
    } else {
        spec_ingest_spans(spec_ingest_span(s, spans[0], idss[0]), spans.skip(1), idss.skip(1))
    }
}

/// The trace index restricted to traces last seen at or after the
/// threshold.
pub open spec fn spec_retain_traces(tr: TraceTbl, th: int) -> TraceTbl
    decreases tr.len(),
{
    if tr.len() == 0 {
        tr
    } else {
        let rest = spec_retain_traces(tr.skip(1), th);
        if tr[0].1.last_seen >= th {
            seq![tr[0]] + rest
        } else {
            rest
        }
    }
}

/// The trace index pruned to the trace window below the high-water mark.
pub open spec fn spec_prune_traces(s: StateView) -> StateView {
    match s.last_span {
        None => s,
        Some(last) => StateView {
            traces: spec_retain_traces(s.traces, last - TRACE_WINDOW_MICROS),
            ..s
        },
    }
}

/// The number of leading spans whose start time is representable.
pub open spec fn spec_first_bad(spans: Seq<SpanView>) -> int
    decreases spans.len(),
{
    if spans.len() == 0 {
        0
    } else if !ts_ok(spans[0].start_time) {
        0
    } else {
        1 + spec_first_bad(spans.skip(1))
    }
}

/// Refreshes one relation entry.
fn touch_rel<K: TableKey>(rels: &mut Table<K, RelationState>, k: &K, t: i64, id: u128)
    ensures
        final(rels)@ == spec_touch_rel(old(rels)@, k@, t, id),
{
    let id2 = match rels.take(k) {
        Some(r) => r.id,
        None => id,
    };
    rels.append_entry(k.dup(), RelationState { id: id2, last_seen: t });
}

/// Records a caller/callee relation against the callee's entries.
fn add_relation(
    services: &mut Table<ServiceKey, ServiceState>,
    callee: &OperationKey,
    caller: &OperationKey,
    t: i64,
    id_svc: u128,
    id_op: u128,
)
    ensures
        final(services)@ == spec_add_relation(old(services)@, callee@, caller@, t, id_svc, id_op),
{
    let ghost pre0 = services@;
    if !caller.service_key.key_eq(&callee.service_key) {
        let ghost pre = services@;
        match services.take(&callee.service_key) {
            Some(mut svc) => {
                touch_rel(&mut svc.relations, &caller.service_key, t, id_svc);
                services.append_entry(callee.service_key.dup(), svc);
            },
            None => {
                proof {
                    lemma_tbl_remove_none(pre, callee.service_key@);
                }
            },
        }
    }
    let ghost mid = services@;
    proof {
        let services1 = if caller@.service_key == callee@.service_key {
            pre0
        } else {
            match tbl_get(pre0, callee@.service_key) {
                Some(svc) => tbl_put(
                    pre0,
                    callee@.service_key,
                    ServiceStateView {
                        relations: spec_touch_rel(svc.relations, caller@.service_key, t, id_svc),
                        ..svc
                    },
                ),
                None => pre0,
            }
        };
        assert(mid == services1);
    }
    match services.take(&callee.service_key) {
        Some(mut svc) => {
            match svc.operations.take(&callee.operation_name) {
                Some(mut op) => {
                    let mut inner: Table<OperationName, RelationState> = match op.relations.take(
                        &caller.service_key,
                    ) {
                        Some(m) => m,
                        None => Table::new(),
                    };
                    touch_rel(&mut inner, &caller.operation_name, t, id_op);
                    op.relations.append_entry(caller.service_key.dup(), inner);
                    svc.operations.append_entry(callee.operation_name.dup(), op);
                    proof {
                        let svcg = tbl_get(mid, callee@.service_key)->Some_0;
                        let opg = tbl_get(svcg.operations, callee@.operation_name)->Some_0;
                        let innerg = match tbl_get(opg.relations, caller@.service_key) {
                            Some(m) => m,
                            None => Seq::empty(),
                        };
                        let inner1g = spec_touch_rel(innerg, caller@.operation_name, t, id_op);
                        let op1g = OperationStateView {
                            relations: tbl_put(opg.relations, caller@.service_key, inner1g),
                            ..opg
                        };
                        assert(inner@ == inner1g);
                        assert(op@ == op1g);
                        assert(svc@ == ServiceStateView {
                            operations: tbl_put(svcg.operations, callee@.operation_name, op1g),
                            ..svcg
                        });
                    }
                    services.append_entry(callee.service_key.dup(), svc);
                },
                None => {
                    proof {
                        lemma_tbl_remove_none(
                            tbl_get(mid, callee@.service_key)->Some_0.operations,
                            callee@.operation_name,
                        );
                    }
                    services.append_entry(callee.service_key.dup(), svc);
                    proof {
                        assert(services@ == tbl_put(
                            mid,
                            callee@.service_key,
                            tbl_get(mid, callee@.service_key)->Some_0,
                        ));
                    }
                },
            }
        },
        None => {
            proof {
                lemma_tbl_remove_none(mid, callee.service_key@);
                assert(services@ == mid);
            }
        },
    }
    proof {
        assert(services@ == spec_add_relation(pre0, callee@, caller@, t, id_svc, id_op));
    }
}

/// The first `ChildOf` reference of a span, if any.
fn first_child_of(refs: &Vec<Reference>) -> (r: Option<&Reference>)
    ensures
        match r {
            Some(x) => spec_first_child_of(ref_views(refs@)) == Some(x@),
            None => spec_first_child_of(ref_views(refs@)) is None,
        },
{
    let ghost rv = ref_views(refs@);
    proof {
        assert(rv.skip(0) =~= rv);
    }
    let n = refs.len();
    let mut i: usize = 0;
    while i < n
        invariant
            n == refs@.len(),
            i <= n,
            rv == ref_views(refs@),
            rv.len() == n,
            spec_first_child_of(rv) == spec_first_child_of(rv.skip(i as int)),
        decreases n - i,
    {
        proof {
            assert(rv.skip(i as int)[0] == rv[i as int]);
            assert(rv.skip(i as int).skip(1) =~= rv.skip(i + 1));
        }
        match refs[i].ref_type {
            RefType::ChildOf => {
                return Some(&refs[i]);
            },
            _ => {},
        }
        i = i + 1;
    }
    proof {
        assert(rv.skip(n as int).len() == 0);
    }
    None
}

/// Appending a waiting child to the stitch consumes the next two
/// identifiers.
proof fn lemma_stitch_snoc(
    services: SvcTbl,
    caller: OperationKeyView,
    q: Seq<OperationKeyView>,
    x: OperationKeyView,
    t: i64,
    ids: Seq<u128>,
    idx: int,
)
    ensures
        spec_stitch_pending(services, caller, q.push(x), t, ids, idx) == spec_add_relation(
            spec_stitch_pending(services, caller, q, t, ids, idx),
            x,
            caller,
            t,
            ids[idx + 2 * q.len()],
            ids[idx + 2 * q.len() + 1],
        ),
    decreases q.len(),
{
    reveal_with_fuel(spec_stitch_pending, 3);
    if q.len() == 0 {
        assert(q.push(x)[0] == x);
        assert(q.push(x).skip(1) =~= Seq::<OperationKeyView>::empty());
    } else {
        assert(q.push(x)[0] == q[0]);
        assert(q.push(x).skip(1) =~= q.skip(1).push(x));
        let s1 = spec_add_relation(services, q[0], caller, t, ids[idx], ids[idx + 1]);
        lemma_stitch_snoc(s1, caller, q.skip(1), x, t, ids, idx + 2);
    }
}

impl State {
    /// Ingests one span: records it in the trace index, upserts its service
    /// and operation, and stitches relations upward to a known parent and
    /// downward to any waiting children. Returns the identifiers drawn for
    /// entities created by this span.
    pub fn ingest_span(&mut self, span: &Span) -> (ids: Ghost<Seq<u128>>)
        ensures
            final(self)@ == spec_ingest_span(old(self)@, span@, ids@),
    {
        let ghost s0 = self@;
        let ghost spv = span@;
        let t = span.start_time;
        let skey = resolve_service_key(&span.process);
        let meta = ServiceMeta::from_span(span);
        let ghost skeyv = skey@;
        let ghost metav = meta@;
        let okey = OperationKey {
            service_key: skey.dup(),
            operation_name: OperationName(span.operation_name.0.clone()),
        };
        let ghost okeyv = okey@;
        let id0 = fresh_id();
        let id1 = fresh_id();
        let id2 = fresh_id();
        let id3 = fresh_id();
        let ghost spans0 = (match tbl_get(s0.traces, spv.trace_id) {
            Some(ti) => ti.spans,
            None => Seq::empty(),
        });
        let ghost pendingv = (match tbl_get(spans0, spv.span_id) {
            Some(si) => si.parent_of,
            None => Seq::empty(),
        });

        // trace index
        let mut tinfo: TraceInfo = match self.traces.take(&span.trace_id) {
            Some(ti) => ti,
            None => TraceInfo { last_seen: t, spans: Table::new() },
        };
        let pending: Vec<OperationKey> = match tinfo.spans.take(&span.span_id) {
            Some(si) => si.parent_of,
            None => Vec::new(),
        };
        tinfo.spans.append_entry(
            SpanId(span.span_id.0.clone()),
            SpanInfo { key: Some(okey.dup()), parent_of: Vec::new() },
        );
        tinfo.last_seen = t;
        self.traces.append_entry(TraceId(span.trace_id.0.clone()), tinfo);
        proof {
            assert(op_key_views(Seq::<OperationKey>::empty()) =~= Seq::<OperationKeyView>::empty());
            assert(op_key_views(pending@) == pendingv);
            assert(self.traces@ == tbl_put(
                s0.traces,
                spv.trace_id,
                TraceInfoView {
                    last_seen: t,
                    spans: tbl_put(
                        spans0,
                        spv.span_id,
                        SpanInfoView { key: Some(okeyv), parent_of: Seq::empty() },
                    ),
                },
            ));
        }
        let ghost traces1g = self.traces@;

        // identifiers for the downward stitch, two per waiting child
        let n = pending.len();
        let mut extra: Vec<u128> = Vec::new();
        let mut i: usize = 0;
        while i < n
            invariant
                i <= n,
                extra@.len() == 2 * i,
            decreases n - i,
        {
            extra.push(fresh_id());
            extra.push(fresh_id());
            i = i + 1;
        }
        let extra_count: usize = extra.len();
        let ghost idsall = seq![id0, id1, id2, id3] + extra@;
        proof {
            assert(idsall[0] == id0);
            assert(idsall[1] == id1);
            assert(idsall[2] == id2);
            assert(idsall[3] == id3);
        }

        // service and operation upsert
        let mut svc: ServiceState = match self.services.take(&skey) {
            Some(mut svc) => {
                svc.meta = meta;
                svc
            },
            None => ServiceState {
                id: id0,
                meta,
                relations: Table::new(),
                operations: Table::new(),
            },
        };
        let op: OperationState = match svc.operations.take(&span.operation_name) {
            Some(mut op) => {
                op.last_seen = t;
                op
            },
            None => OperationState { id: id1, relations: Table::new(), last_seen: t },
        };
        svc.operations.append_entry(OperationName(span.operation_name.0.clone()), op);
        self.services.append_entry(skey.dup(), svc);
        proof {
            let svc0g = match tbl_get(s0.services, skeyv) {
                Some(svc) => ServiceStateView { meta: metav, ..svc },
                None => ServiceStateView {
                    id: idsall[0],
                    meta: metav,
                    relations: Seq::empty(),
                    operations: Seq::empty(),
                },
            };
            let op0g = match tbl_get(svc0g.operations, spv.operation_name) {
                Some(op) => OperationStateView { last_seen: t, ..op },
                None => OperationStateView {
                    id: idsall[1],
                    relations: Seq::empty(),
                    last_seen: t,
                },
            };
            assert(self.services@ == tbl_put(
                s0.services,
                skeyv,
                ServiceStateView {
                    operations: tbl_put(svc0g.operations, spv.operation_name, op0g),
                    ..svc0g
                },
            ));
        }
        let ghost services1g = self.services@;

        // upward stitch
        if let Some(r) = first_child_of(&span.references) {
            let ghost rg = r@;
            let r_trace = TraceId(r.trace_id.0.clone());
            let r_span = SpanId(r.span_id.0.clone());
            let ghost pspansg = (match tbl_get(traces1g, rg.trace_id) {
                Some(ti) => ti.spans,
                None => Seq::empty(),
            });
            let mut ptinfo: TraceInfo = match self.traces.take(&r_trace) {
                Some(ti) => ti,
                None => TraceInfo { last_seen: t, spans: Table::new() },
            };
            ptinfo.last_seen = t;
            let mut pspan: SpanInfo = match ptinfo.spans.take(&r_span) {
                Some(si) => si,
                None => SpanInfo { key: None, parent_of: Vec::new() },
            };
            let ghost pspang = pspan@;
            let parent_key: Option<OperationKey> = match &pspan.key {
                Some(pk) => Some(pk.dup()),
                None => None,
            };
            match parent_key {
                Some(pk) => {
                    ptinfo.spans.append_entry(r_span, pspan);
                    self.traces.append_entry(r_trace, ptinfo);
                    add_relation(&mut self.services, &okey, &pk, t, id2, id3);
                    proof {
                        assert(self.traces@ == tbl_put(
                            traces1g,
                            rg.trace_id,
                            TraceInfoView {
                                last_seen: t,
                                spans: tbl_put(pspansg, rg.span_id, pspang),
                            },
                        ));
                        assert(self.services@ == spec_add_relation(
                            services1g,
                            okeyv,
                            pspang.key->Some_0,
                            t,
                            idsall[2],
                            idsall[3],
                        ));
                    }
                },
                None => {
                    pspan.parent_of.push(okey.dup());
                    proof {
                        assert(op_key_views(pspan.parent_of@) =~= pspang.parent_of.push(okeyv));
                        assert(pspan@ == SpanInfoView {
                            parent_of: pspang.parent_of.push(okeyv),
                            ..pspang
                        });
                    }
                    ptinfo.spans.append_entry(r_span, pspan);
                    self.traces.append_entry(r_trace, ptinfo);
                    proof {
                        let pspan1g = SpanInfoView {
                            parent_of: pspang.parent_of.push(okeyv),
                            ..pspang
                        };
                        assert(self.traces@ == tbl_put(
                            traces1g,
                            rg.trace_id,
                            TraceInfoView {
                                last_seen: t,
                                spans: tbl_put(pspansg, rg.span_id, pspan1g),
                            },
                        ));
                        assert(self.services@ == services1g);
                    }
                },
            }
        }
        proof {
            let upg = spec_stitch_parent(
                traces1g,
                services1g,
                okeyv,
                spec_first_child_of(spv.references),
                t,
                idsall,
            );
            assert(self.traces@ == upg.0);
            assert(self.services@ == upg.1);
        }

        // downward stitch: one relation for each waiting child
        let ghost services_mid = self.services@;
        let ghost traces_mid = self.traces@;
        let ghost last_span_mid = self.last_span;
        let ghost pv = op_key_views(pending@);
        proof {
            assert(pv.take(0) =~= Seq::<OperationKeyView>::empty());
        }
        let mut i: usize = 0;
        let mut j: usize = 0;
        while i < n
            invariant
                n == pending@.len(),
                i <= n,
                j == 2 * i,
                extra@.len() == 2 * n,
                extra_count == 2 * n,
                idsall == seq![id0, id1, id2, id3] + extra@,
                pv == op_key_views(pending@),
                pv.len() == n,
                okeyv == okey@,
                self.traces@ == traces_mid,
                self.last_span == last_span_mid,
                self.services@ == spec_stitch_pending(
                    services_mid,
                    okeyv,
                    pv.take(i as int),
                    t,
                    idsall,
                    4,
                ),
            decreases n - i,
        {
            proof {
                lemma_stitch_snoc(services_mid, okeyv, pv.take(i as int), pv[i as int], t, idsall, 4);
                assert(pv.take(i as int).push(pv[i as int]) =~= pv.take(i + 1));
                assert(idsall[4 + 2 * (i as int)] == extra@[2 * (i as int)]);
                assert(idsall[4 + 2 * (i as int) + 1] == extra@[2 * (i as int) + 1]);
                assert(pv[i as int] == pending@[i as int]@);
            }
            add_relation(&mut self.services, &pending[i], &okey, t, extra[j], extra[j + 1]);
            proof {
                assert(self.services@ == spec_stitch_pending(
                    services_mid,
                    okeyv,
                    pv.take(i + 1),
                    t,
                    idsall,
                    4,
                ));
            }
            i = i + 1;
            j = j + 2;
        }
        proof {
            assert(pv.take(n as int) =~= pv);
            assert(self.services@ == spec_stitch_pending(
                services_mid,
                okeyv,
                pendingv,
                t,
                idsall,
                4,
            ));
            assert(self@ == spec_ingest_span(s0, spv, idsall));
        }
        Ghost(idsall)
    }

    /// Prunes the trace index to the trace window below the high-water
    /// mark. Without a high-water mark nothing is pruned.
    pub fn prune_traces(&mut self)
        requires
            match old(self)@.last_span {
                Some(v) => TIMESTAMP_MICROS_MIN <= v,
                None => true,
            },
        ensures
            final(self)@ == spec_prune_traces(old(self)@),
    {
        let last = match self.last_span {
            Some(v) => v,
            None => {
                return ;
            },
        };
        let threshold = last - TRACE_WINDOW_MICROS;
        let ghost s0 = self@;
        let ghost orig = self.traces@;
        let mut kept: Table<TraceId, TraceInfo> = Table::new();
        proof {
            assert(kept@ + spec_retain_traces(orig, threshold as int) =~= spec_retain_traces(
                orig,
                threshold as int,
            ));
        }
        while self.traces.len() > 0
            invariant
                threshold == last - TRACE_WINDOW_MICROS,
                self.last_span == s0.last_span,
                self.services@ == s0.services,
                spec_retain_traces(orig, threshold as int) == kept@ + spec_retain_traces(
                    self.traces@,
                    threshold as int,
                ),
            decreases self.traces@.len(),
        {
            let ghost pre = self.traces@;
            let ghost kept0 = kept@;
            let (k, v) = self.traces.pop_front();
            if v.last_seen >= threshold {
                kept.append_entry(k, v);
                proof {
                    assert(seq![pre[0]] + spec_retain_traces(pre.skip(1), threshold as int)
                        == spec_retain_traces(pre, threshold as int));
                    assert(kept@ =~= kept0 + seq![pre[0]]);
                }
            }
            proof {
                assert(kept@ + spec_retain_traces(self.traces@, threshold as int)
                    =~= spec_retain_traces(orig, threshold as int));
            }
        }
        proof {
            assert(self.traces@.len() == 0);
            assert(kept@ + spec_retain_traces(self.traces@, threshold as int) =~= kept@);
        }
        self.traces = kept;
        proof {
            assert(self.traces@ == spec_retain_traces(orig, threshold as int));
            assert(self@ == spec_prune_traces(s0));
        }
    }

    /// Ingests one batch of spans: advances the high-water mark to the
    /// batch's sort value, ingests each span in order, and prunes the trace
    /// index. A sort value or span start time outside the representable
    /// timestamp range aborts the batch, keeping the partial progress and
    /// skipping the prune.
    pub fn ingest_batch(&mut self, spans: &Vec<Span>, last_sort: Option<i64>) -> (r: (
        Result<(), IngestError>,
        Ghost<Seq<Seq<u128>>>,
    ))
        requires
            match old(self)@.last_span {
                Some(v) => ts_ok(v),
                None => true,
            },
        ensures
            ({
                let s0 = old(self)@;
                let sv = span_views(spans@);
                let idss = r.1@;
                if last_sort is Some && !ts_ok(last_sort->Some_0) {
                    &&& r.0 == Err::<(), IngestError>(
                        IngestError::TimestampOutOfBounds(last_sort->Some_0),
                    )
                    &&& final(self)@ == s0
                } else {
                    let s1 = match last_sort {
                        Some(v) => StateView { last_span: Some(v), ..s0 },
                        None => s0,
                    };
                    let b = spec_first_bad(sv);
                    if b == sv.len() {
                        &&& r.0 is Ok
                        &&& final(self)@ == spec_prune_traces(spec_ingest_spans(s1, sv, idss))
                    } else {
                        &&& r.0 == Err::<(), IngestError>(
                            IngestError::TimestampOutOfBounds(sv[b].start_time),
                        )
                        &&& final(self)@ == spec_ingest_spans(s1, sv.take(b), idss)
                    }
                }
            }),
    {
        let ghost sv = span_views(spans@);
        let mut idss: Ghost<Seq<Seq<u128>>> = Ghost(Seq::empty());
        if let Some(v) = last_sort {
            if !timestamp_in_range(v) {
                return (Err(IngestError::TimestampOutOfBounds(v)), idss);
            }
            self.last_span = Some(v);
        }
        let ghost s1 = self@;
        proof {
            assert(sv.take(0) =~= Seq::<SpanView>::empty());
        }
        let n = spans.len();
        let mut i: usize = 0;
        while i < n
            invariant
                n == spans@.len(),
                i <= n,
                sv == span_views(spans@),
                sv.len() == n,
                idss@.len() == i,
                forall|k: int| 0 <= k < i ==> ts_ok(sv[k].start_time),
                self@ == spec_ingest_spans(s1, sv.take(i as int), idss@),
                self@.last_span == s1.last_span,
                s1 == (match last_sort {
                    Some(v) => StateView { last_span: Some(v), ..old(self)@ },
                    None => old(self)@,
                }),
                match s1.last_span {
                    Some(v) => ts_ok(v),
                    None => true,
                },
            decreases n - i,
        {
            let sp = &spans[i];
            proof {
                assert(sv[i as int] == spans@[i as int]@);
            }
            if !timestamp_in_range(sp.start_time) {
                proof {
                    lemma_first_bad_at(sv, i as int);
                    assert(spec_first_bad(sv) == i as int);
                    assert(self@ == spec_ingest_spans(s1, sv.take(i as int), idss@));
                    assert(s1 == (match last_sort {
                        Some(v) => StateView { last_span: Some(v), ..old(self)@ },
                        None => old(self)@,
                    }));
                }
                return (Err(IngestError::TimestampOutOfBounds(sp.start_time)), idss);
            }
            let ghost pre = self@;
            let ids = self.ingest_span(sp);
            proof {
                lemma_ingest_spans_snoc(s1, sv.take(i as int), sv[i as int], idss@.push(ids@));
                lemma_ingest_spans_agree(s1, sv.take(i as int), idss@, idss@.push(ids@));
                assert(sv.take(i as int).push(sv[i as int]) =~= sv.take(i + 1));
                assert(idss@.push(ids@)[sv.take(i as int).len() as int] == ids@);
            }
            idss = Ghost(idss@.push(ids@));
            i = i + 1;
        }
        proof {
            assert(sv.take(n as int) =~= sv);
            lemma_first_bad_all_ok(sv);
            assert(spec_first_bad(sv) == sv.len());
            assert(self@ == spec_ingest_spans(s1, sv, idss@));
            assert(s1 == (match last_sort {
                Some(v) => StateView { last_span: Some(v), ..old(self)@ },
                None => old(self)@,
            }));
        }
        self.prune_traces();
        (Ok(()), idss)
    }
}

/// A batch whose leading spans are representable fails first at the first
/// span that is not.
proof fn lemma_first_bad_at(spans: Seq<SpanView>, i: int)
    requires
        0 <= i < spans.len(),
        forall|k: int| 0 <= k < i ==> ts_ok(spans[k].start_time),
        !ts_ok(spans[i].start_time),
    ensures
        spec_first_bad(spans) == i,
    decreases i,
{
    if i == 0 {
    } else {
        assert(forall|k: int|
            0 <= k < i - 1 ==> spans.skip(1)[k] == spans[k + 1] && ts_ok(
                spans.skip(1)[k].start_time,
            ));
        assert(spans.skip(1)[i - 1] == spans[i]);
        lemma_first_bad_at(spans.skip(1), i - 1);
    }
}

/// A batch of representable spans has no failing index.
proof fn lemma_first_bad_all_ok(spans: Seq<SpanView>)
    requires
        forall|k: int| 0 <= k < spans.len() ==> ts_ok(#[trigger] spans[k].start_time),
    ensures
        spec_first_bad(spans) == spans.len(),
    decreases spans.len(),
{
    if spans.len() > 0 {
        assert(forall|k: int|
            0 <= k < spans.skip(1).len() ==> spans.skip(1)[k] == spans[k + 1] && ts_ok(
                #[trigger] spans.skip(1)[k].start_time,
            ));
        lemma_first_bad_all_ok(spans.skip(1));
    }
}

/// Ingesting a batch only reads the identifier sequences of its spans.
proof fn lemma_ingest_spans_agree(
    s: StateView,
    spans: Seq<SpanView>,
    ids1: Seq<Seq<u128>>,
    ids2: Seq<Seq<u128>>,
)
    requires
        ids1.len() >= spans.len(),
        ids2.len() >= spans.len(),
        forall|k: int| 0 <= k < spans.len() ==> ids1[k] == ids2[k],
    ensures
        spec_ingest_spans(s, spans, ids1) == spec_ingest_spans(s, spans, ids2),
    decreases spans.len(),
{
    if spans.len() > 0 {
        assert forall|k: int| 0 <= k < spans.skip(1).len() implies ids1.skip(1)[k] == ids2.skip(
            1,
        )[k] by {
            assert(ids1.skip(1)[k] == ids1[k + 1]);
            assert(ids2.skip(1)[k] == ids2[k + 1]);
        }
        lemma_ingest_spans_agree(
            spec_ingest_span(s, spans[0], ids1[0]),
            spans.skip(1),
            ids1.skip(1),
            ids2.skip(1),
        );
    }
}

/// Appending a span to a batch ingests it last, with the identifier
/// sequence at its own position.
proof fn lemma_ingest_spans_snoc(
    s: StateView,
    spans: Seq<SpanView>,
    x: SpanView,
    idss: Seq<Seq<u128>>,
)
    requires
        idss.len() > spans.len(),
    ensures
        spec_ingest_spans(s, spans.push(x), idss) == spec_ingest_span(
            spec_ingest_spans(s, spans, idss),
            x,
            idss[spans.len() as int],
        ),
    decreases spans.len(),
{
    reveal_with_fuel(spec_ingest_spans, 3);
    if spans.len() == 0 {
        assert(spans.push(x)[0] == x);
        assert(spans.push(x).skip(1) =~= Seq::<SpanView>::empty());
    } else {
        assert(spans.push(x)[0] == spans[0]);
        assert(spans.push(x).skip(1) =~= spans.skip(1).push(x));
        assert(spans.skip(1).len() == spans.len() - 1);
        assert(idss.skip(1)[spans.len() - 1] == idss[spans.len() as int]);
        lemma_ingest_spans_snoc(
            spec_ingest_span(s, spans[0], idss[0]),
            spans.skip(1),
            x,
            idss.skip(1),
        );
    }
}

} // verus!
