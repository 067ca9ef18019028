//! The persistent state: the short-lived trace/span index used for
//! stitching, and the discovered topology of services, operations and
//! caller-keyed relations.

use vstd::prelude::*;

use crate::keys::{OperationKey, OperationKeyView, OperationName, ServiceKey, ServiceKeyView,
    SpanId, TraceId};
use crate::span::{MetaView, ServiceMeta};
use crate::table::{tbl_wf, Table};

verus! {

/// A caller/callee relation: its stable identifier and the time of the last
/// span that evidenced it.
#[derive(Clone, Copy)]
pub struct RelationState {
    pub id: u128,
    pub last_seen: i64,
}

impl View for RelationState {
    type V = RelationState;

    open spec fn view(&self) -> RelationState {
        *self
    }
}

/// Relations at service granularity, keyed by the caller service.
pub type SvcRelTbl = Seq<(ServiceKeyView, RelationState)>;

/// Relations at operation granularity, keyed by the caller service and then
/// by the caller operation name.
pub type OpRelTbl = Seq<(ServiceKeyView, Seq<(Seq<char>, RelationState)>)>;

/// One operation of a service: its stable identifier, its caller-keyed
/// relations and the time of its last span.
pub struct OperationState {
    pub id: u128,
    pub relations: Table<ServiceKey, Table<OperationName, RelationState>>,
    pub last_seen: i64,
}

/// Mathematical view of an [`OperationState`].
pub ghost struct OperationStateView {
    pub id: u128,
    pub relations: OpRelTbl,
    pub last_seen: i64,
}

impl View for OperationState {
    type V = OperationStateView;

    open spec fn view(&self) -> OperationStateView {
        OperationStateView {
            id: self.id,
            relations: self.relations@,
            last_seen: self.last_seen,
        }
    }
}

/// One discovered service: its stable identifier, the metadata of its latest
/// span, its caller-keyed relations and its operations.
pub struct ServiceState {
    pub id: u128,
    pub meta: ServiceMeta,
    pub relations: Table<ServiceKey, RelationState>,
    pub operations: Table<OperationName, OperationState>,
}

/// Mathematical view of a [`ServiceState`].
pub ghost struct ServiceStateView {
    pub id: u128,
    pub meta: MetaView,
    pub relations: SvcRelTbl,
    pub operations: Seq<(Seq<char>, OperationStateView)>,
}

impl View for ServiceState {
    type V = ServiceStateView;

    open spec fn view(&self) -> ServiceStateView {
        ServiceStateView {
            id: self.id,
            meta: self.meta@,
            relations: self.relations@,
            operations: self.operations@,
        }
    }
}

/// Scratch record for one span in the stitching index: the operation the
/// span resolved to once it has been ingested, and the children that arrived
/// before it and are waiting for it.
pub struct SpanInfo {
    pub key: Option<OperationKey>,
    pub parent_of: Vec<OperationKey>,
}

/// Mathematical view of a [`SpanInfo`].
pub ghost struct SpanInfoView {
    pub key: Option<OperationKeyView>,
    pub parent_of: Seq<OperationKeyView>,
}

/// The views of a sequence of operation keys.
pub open spec fn op_key_views(s: Seq<OperationKey>) -> Seq<OperationKeyView> {
    s.map_values(|k: OperationKey| k@)
}

impl View for SpanInfo {
    type V = SpanInfoView;

    open spec fn view(&self) -> SpanInfoView {
        SpanInfoView {
            key: match self.key {
                Some(k) => Some(k@),
                None => None,
            },
            parent_of: op_key_views(self.parent_of@),
        }
    }
}

/// The stitching index of one trace: when it was last seen and its spans.
pub struct TraceInfo {
    pub last_seen: i64,
    pub spans: Table<SpanId, SpanInfo>,
}

/// Mathematical view of a [`TraceInfo`].
pub ghost struct TraceInfoView {
    pub last_seen: i64,
    pub spans: Seq<(Seq<char>, SpanInfoView)>,
}

impl View for TraceInfo {
    type V = TraceInfoView;

    open spec fn view(&self) -> TraceInfoView {
        TraceInfoView { last_seen: self.last_seen, spans: self.spans@ }
    }
}

/// The trace index, keyed by trace identifier.
pub type TraceTbl = Seq<(Seq<char>, TraceInfoView)>;

/// The topology, keyed by service key.
pub type SvcTbl = Seq<(ServiceKeyView, ServiceStateView)>;

/// The persisted aggregate: the high-water mark of ingested span start
/// times, the trace index, and the discovered topology.
pub struct State {
    pub last_span: Option<i64>,
    pub traces: Table<TraceId, TraceInfo>,
    pub services: Table<ServiceKey, ServiceState>,
}

/// Mathematical view of the [`State`].
pub ghost struct StateView {
    pub last_span: Option<i64>,
    pub traces: TraceTbl,
    pub services: SvcTbl,
}

impl View for State {
    type V = StateView;

    open spec fn view(&self) -> StateView {
        StateView { last_span: self.last_span, traces: self.traces@, services: self.services@ }
    }
}

/// The view of the empty state.
pub open spec fn empty_state() -> StateView {
    StateView { last_span: None, traces: Seq::empty(), services: Seq::empty() }
}

/// Well-formedness of an operation: unique caller services, and unique
/// caller operations under each.
pub open spec fn op_wf(v: OperationStateView) -> bool {
    &&& tbl_wf(v.relations)
    &&& forall|i: int| 0 <= i < v.relations.len() ==> tbl_wf(#[trigger] v.relations[i].1)
}

/// Well-formedness of a service: unique caller services, unique operation
/// names, and well-formed operations.
pub open spec fn svc_wf(v: ServiceStateView) -> bool {
    &&& tbl_wf(v.relations)
    &&& tbl_wf(v.operations)
    &&& forall|i: int| 0 <= i < v.operations.len() ==> op_wf(#[trigger] v.operations[i].1)
}

/// Well-formedness of the whole state: every map has unique keys.
pub open spec fn state_wf(s: StateView) -> bool {
    &&& tbl_wf(s.traces)
    &&& forall|i: int| 0 <= i < s.traces.len() ==> tbl_wf(#[trigger] s.traces[i].1.spans)
    &&& tbl_wf(s.services)
    &&& forall|i: int| 0 <= i < s.services.len() ==> svc_wf(#[trigger] s.services[i].1)
}

impl State {
    /// The empty state: no high-water mark, no traces, no services.
    pub fn new() -> (r: State)
        ensures
            r@ == empty_state(),
            state_wf(r@),
    {
        let r = State { last_span: None, traces: Table::new(), services: Table::new() };
        proof {
            assert(r@ == empty_state());
        }
        r
    }

    /// The resume token for the next search: the high-water mark of
    /// ingested span start times, if any.
    pub fn resume_token(&self) -> (r: Option<i64>)
        ensures
            r == self@.last_span,
    {
        self.last_span
    }
}

} // verus!
