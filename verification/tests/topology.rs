use trace_topology::ingest::IngestError;
use trace_topology::keys::{parse_service_key, OperationName, ServiceInstanceId, ServiceKey,
    ServiceName, ServiceNamespace, SpanId, TraceId};
use trace_topology::materialize::{Item, Items, Relation};
use trace_topology::retain::topology_threshold;
use trace_topology::span::{Process, RefType, Reference, ServiceMeta, Span, Tag, TagValue};
use trace_topology::state::State;
use trace_topology::table::TableKey;

fn skey(name: &str) -> ServiceKey {
    ServiceKey { namespace: None, name: ServiceName(name.to_string()), instance_id: None }
}

fn mk_span(
    trace: &str,
    span_id: &str,
    svc: &str,
    op: &str,
    t: i64,
    refs: Vec<Reference>,
    tags: Vec<Tag>,
) -> Span {
    Span {
        trace_id: TraceId(trace.to_string()),
        span_id: SpanId(span_id.to_string()),
        operation_name: OperationName(op.to_string()),
        references: refs,
        start_time: t,
        start_time_millis: t / 1000,
        duration: 0,
        tags: Vec::new(),
        process: Process { service_name: ServiceName(svc.to_string()), tags },
    }
}

fn child_of(trace: &str, span_id: &str) -> Reference {
    Reference {
        ref_type: RefType::ChildOf,
        trace_id: TraceId(trace.to_string()),
        span_id: SpanId(span_id.to_string()),
    }
}

fn follows_from(trace: &str, span_id: &str) -> Reference {
    Reference {
        ref_type: RefType::FollowsFrom,
        trace_id: TraceId(trace.to_string()),
        span_id: SpanId(span_id.to_string()),
    }
}

fn count_relations(doc: &Items) -> (usize, usize) {
    let mut svc = 0;
    let mut op = 0;
    for i in 0..doc.relations.len() {
        let (_, rel) = doc.relations.entry_at(i);
        match rel {
            Relation::ServiceInvokes { .. } => svc += 1,
            Relation::OperationInvokes { .. } => op += 1,
        }
    }
    (svc, op)
}

fn find_service_invokes(doc: &Items) -> Vec<(u128, u128)> {
    let mut out = Vec::new();
    for i in 0..doc.relations.len() {
        let (_, rel) = doc.relations.entry_at(i);
        if let Relation::ServiceInvokes { source, target } = rel {
            out.push((*source, *target));
        }
    }
    out
}

fn find_operation_invokes(doc: &Items) -> Vec<(u128, u128)> {
    let mut out = Vec::new();
    for i in 0..doc.relations.len() {
        let (_, rel) = doc.relations.entry_at(i);
        if let Relation::OperationInvokes { source, target } = rel {
            out.push((*source, *target));
        }
    }
    out
}

fn op_id(st: &State, svc: &str, op: &str) -> u128 {
    st.services
        .get(&skey(svc))
        .unwrap()
        .operations
        .get(&OperationName(op.to_string()))
        .unwrap()
        .id
}

#[test]
fn s1_single_span() {
    let mut st = State::new();
    let spans = vec![mk_span("T1", "S1", "svcA", "op1", 1_000_000, vec![], vec![])];
    let (res, _) = st.ingest_batch(&spans, Some(1_000_000));
    assert!(res.is_ok());
    let doc = st.materialize();
    assert_eq!(doc.items.len(), 2);
    assert_eq!(doc.relations.len(), 0);
    let svc_id = st.services.get(&skey("svcA")).unwrap().id;
    match doc.items.get(&trace_topology::materialize::Id(svc_id)).unwrap() {
        Item::Service { properties } => {
            assert_eq!(properties.service_name.string, "svcA");
            assert!(properties.service_namespace.is_none());
        }
        _ => panic!("expected a service item"),
    }
    let o_id = op_id(&st, "svcA", "op1");
    match doc.items.get(&trace_topology::materialize::Id(o_id)).unwrap() {
        Item::Operation { parent, properties } => {
            assert_eq!(*parent, svc_id);
            assert_eq!(properties.operation_name.string, "op1");
        }
        _ => panic!("expected an operation item"),
    }
}

#[test]
fn s2_child_after_parent() {
    let mut st = State::new();
    let spans = vec![
        mk_span("T1", "P", "svcA", "op1", 1_000_000, vec![], vec![]),
        mk_span("T1", "C", "svcB", "op2", 1_000_100, vec![child_of("T1", "P")], vec![]),
    ];
    let (res, _) = st.ingest_batch(&spans, Some(1_000_100));
    assert!(res.is_ok());
    let doc = st.materialize();
    assert_eq!(doc.items.len(), 4);
    let (svc_rels, op_rels) = count_relations(&doc);
    assert_eq!(svc_rels, 1);
    assert_eq!(op_rels, 1);
    let id_a = st.services.get(&skey("svcA")).unwrap().id;
    let id_b = st.services.get(&skey("svcB")).unwrap().id;
    assert_eq!(find_service_invokes(&doc), vec![(id_a, id_b)]);
    assert_eq!(
        find_operation_invokes(&doc),
        vec![(op_id(&st, "svcA", "op1"), op_id(&st, "svcB", "op2"))]
    );
}

#[test]
fn s3_child_before_parent() {
    let mut st = State::new();
    let spans = vec![
        mk_span("T1", "C", "svcB", "op2", 1_000_000, vec![child_of("T1", "P")], vec![]),
        mk_span("T1", "P", "svcA", "op1", 1_000_100, vec![], vec![]),
    ];
    let (res, _) = st.ingest_batch(&spans, Some(1_000_100));
    assert!(res.is_ok());
    let doc = st.materialize();
    assert_eq!(doc.items.len(), 4);
    let (svc_rels, op_rels) = count_relations(&doc);
    assert_eq!(svc_rels, 1);
    assert_eq!(op_rels, 1);
    let id_a = st.services.get(&skey("svcA")).unwrap().id;
    let id_b = st.services.get(&skey("svcB")).unwrap().id;
    assert_eq!(find_service_invokes(&doc), vec![(id_a, id_b)]);
    assert_eq!(
        find_operation_invokes(&doc),
        vec![(op_id(&st, "svcA", "op1"), op_id(&st, "svcB", "op2"))]
    );
}

#[test]
fn s4_intra_service_call() {
    let mut st = State::new();
    let spans = vec![
        mk_span("T1", "P", "svcA", "op1", 1_000_000, vec![], vec![]),
        mk_span("T1", "C", "svcA", "op2", 1_000_100, vec![child_of("T1", "P")], vec![]),
    ];
    let (res, _) = st.ingest_batch(&spans, Some(1_000_100));
    assert!(res.is_ok());
    let doc = st.materialize();
    let (svc_rels, op_rels) = count_relations(&doc);
    assert_eq!(svc_rels, 0);
    assert_eq!(op_rels, 1);
    assert_eq!(
        find_operation_invokes(&doc),
        vec![(op_id(&st, "svcA", "op1"), op_id(&st, "svcA", "op2"))]
    );
}

#[test]
fn s5_retention() {
    let now: i64 = 1_700_000_000_000_000;
    let day: i64 = 86_400_000_000;
    let t8 = now - 8 * day;
    let t6 = now - 6 * day;
    let mut st = State::new();
    let spans = vec![
        mk_span("T1", "A", "svcA", "op1", t8, vec![], vec![]),
        mk_span("T1", "B", "svcB", "op2", t8, vec![child_of("T1", "A")], vec![]),
        mk_span("T2", "C", "svcC", "op3", t6, vec![], vec![]),
    ];
    let (res, _) = st.ingest_batch(&spans, Some(t6));
    assert!(res.is_ok());
    // a later run that ingests nothing new, then prunes and publishes
    let empty: Vec<Span> = Vec::new();
    let (res2, _) = st.ingest_batch(&empty, None);
    assert!(res2.is_ok());
    st.prune_topology(topology_threshold(now));
    let doc = st.materialize();
    assert!(st.services.get(&skey("svcA")).is_none());
    assert!(st.services.get(&skey("svcB")).is_none());
    assert!(st.services.get(&skey("svcC")).is_some());
    assert_eq!(doc.items.len(), 2);
    assert_eq!(doc.relations.len(), 0);
}

#[test]
fn s6_incremental_resume() {
    let t1: i64 = 1_000_000;
    let t2: i64 = 2_000_000;
    let mut st = State::new();
    let spans = vec![
        mk_span("T1", "A", "svcA", "op1", t1, vec![], vec![]),
        mk_span("T1", "B", "svcA", "op2", t2, vec![], vec![]),
    ];
    let (res, _) = st.ingest_batch(&spans, Some(t2));
    assert!(res.is_ok());
    assert_eq!(st.resume_token(), Some(t2));
}

#[test]
fn id_stability_across_ingestions() {
    let mut st = State::new();
    let sp = mk_span("T1", "S1", "svcA", "op1", 1_000_000, vec![], vec![]);
    let _ = st.ingest_span(&sp);
    let svc_id = st.services.get(&skey("svcA")).unwrap().id;
    let o_id = op_id(&st, "svcA", "op1");
    // the same span again, and a second span of the same service
    let _ = st.ingest_span(&sp);
    let sp2 = mk_span("T2", "S2", "svcA", "op1", 2_000_000, vec![], vec![]);
    let _ = st.ingest_span(&sp2);
    assert_eq!(st.services.get(&skey("svcA")).unwrap().id, svc_id);
    assert_eq!(op_id(&st, "svcA", "op1"), o_id);
}

#[test]
fn only_child_of_contributes() {
    let mut st = State::new();
    let spans = vec![
        mk_span("T1", "P", "svcA", "op1", 1_000_000, vec![], vec![]),
        mk_span("T1", "C", "svcB", "op2", 1_000_100, vec![follows_from("T1", "P")], vec![]),
    ];
    let (res, _) = st.ingest_batch(&spans, Some(1_000_100));
    assert!(res.is_ok());
    let doc = st.materialize();
    assert_eq!(doc.items.len(), 4);
    assert_eq!(doc.relations.len(), 0);
}

#[test]
fn no_service_self_loop_recorded() {
    let mut st = State::new();
    let spans = vec![
        mk_span("T1", "P", "svcA", "op1", 1_000_000, vec![], vec![]),
        mk_span("T1", "C", "svcA", "op2", 1_000_100, vec![child_of("T1", "P")], vec![]),
    ];
    let (res, _) = st.ingest_batch(&spans, Some(1_000_100));
    assert!(res.is_ok());
    let svc = st.services.get(&skey("svcA")).unwrap();
    assert!(!svc.relations.contains(&skey("svcA")));
    assert_eq!(svc.relations.len(), 0);
}

#[test]
fn publish_is_idempotent() {
    let mut st = State::new();
    let spans = vec![
        mk_span("T1", "P", "svcA", "op1", 1_000_000, vec![], vec![]),
        mk_span("T1", "C", "svcB", "op2", 1_000_100, vec![child_of("T1", "P")], vec![]),
    ];
    let (res, _) = st.ingest_batch(&spans, Some(1_000_100));
    assert!(res.is_ok());
    let d1 = st.materialize();
    let d2 = st.materialize();
    assert_eq!(d1.items.len(), d2.items.len());
    assert_eq!(d1.relations.len(), d2.relations.len());
    for i in 0..d1.items.len() {
        let (k1, v1) = d1.items.entry_at(i);
        let (k2, v2) = d2.items.entry_at(i);
        assert_eq!(k1.0, k2.0);
        match (v1, v2) {
            (Item::Service { properties: p1 }, Item::Service { properties: p2 }) => {
                assert_eq!(p1.service_name.string, p2.service_name.string);
            }
            (
                Item::Operation { parent: a1, properties: p1 },
                Item::Operation { parent: a2, properties: p2 },
            ) => {
                assert_eq!(a1, a2);
                assert_eq!(p1.operation_name.string, p2.operation_name.string);
            }
            _ => panic!("item kinds differ"),
        }
    }
    for i in 0..d1.relations.len() {
        let (k1, v1) = d1.relations.entry_at(i);
        let (k2, v2) = d2.relations.entry_at(i);
        assert_eq!(k1.0, k2.0);
        match (v1, v2) {
            (
                Relation::ServiceInvokes { source: s1, target: t1 },
                Relation::ServiceInvokes { source: s2, target: t2 },
            ) => {
                assert_eq!((s1, t1), (s2, t2));
            }
            (
                Relation::OperationInvokes { source: s1, target: t1 },
                Relation::OperationInvokes { source: s2, target: t2 },
            ) => {
                assert_eq!((s1, t1), (s2, t2));
            }
            _ => panic!("relation kinds differ"),
        }
    }
}

#[test]
fn timestamp_out_of_bounds_sort_value() {
    let mut st = State::new();
    let empty: Vec<Span> = Vec::new();
    let (res, _) = st.ingest_batch(&empty, Some(i64::MAX));
    assert_eq!(res, Err(IngestError::TimestampOutOfBounds(i64::MAX)));
    assert_eq!(st.resume_token(), None);
}

#[test]
fn timestamp_out_of_bounds_span() {
    let mut st = State::new();
    let spans = vec![
        mk_span("T1", "A", "svcA", "op1", 1_000_000, vec![], vec![]),
        mk_span("T1", "B", "svcB", "op2", i64::MIN, vec![], vec![]),
    ];
    let (res, _) = st.ingest_batch(&spans, Some(1_000_000));
    assert_eq!(res, Err(IngestError::TimestampOutOfBounds(i64::MIN)));
    // partial progress is retained
    assert!(st.services.get(&skey("svcA")).is_some());
    assert!(st.services.get(&skey("svcB")).is_none());
}

#[test]
fn trace_window_prunes_stitch_index() {
    let mut st = State::new();
    let spans = vec![mk_span("T1", "A", "svcA", "op1", 1_000_000, vec![], vec![])];
    let (res, _) = st.ingest_batch(&spans, Some(1_000_000));
    assert!(res.is_ok());
    assert_eq!(st.traces.len(), 1);
    // a batch far beyond the 300 s trace window drops the old trace
    let later = 1_000_000 + 301_000_000;
    let spans2 = vec![mk_span("T2", "B", "svcA", "op1", later, vec![], vec![])];
    let (res2, _) = st.ingest_batch(&spans2, Some(later));
    assert!(res2.is_ok());
    assert!(st.traces.get(&TraceId("T1".to_string())).is_none());
    assert!(st.traces.get(&TraceId("T2".to_string())).is_some());
}

#[test]
fn meta_extraction_last_string_wins() {
    let tags = vec![
        Tag { key: "service.version".to_string(), value: TagValue::String("1.0".to_string()) },
        Tag { key: "service.version".to_string(), value: TagValue::String("2.0".to_string()) },
        Tag { key: "k8s.pod.name".to_string(), value: TagValue::Int64(7) },
        Tag { key: "unknown.key".to_string(), value: TagValue::String("x".to_string()) },
        Tag {
            key: "deployment.environment".to_string(),
            value: TagValue::String("prod".to_string()),
        },
    ];
    let sp = mk_span("T1", "S1", "svcA", "op1", 1_000_000, vec![], tags);
    let meta = ServiceMeta::from_span(&sp);
    assert_eq!(meta.service_version.as_ref().unwrap().string, "2.0");
    assert_eq!(meta.deployment_environment.as_ref().unwrap().string, "prod");
    assert!(meta.k8s_pod_name.is_none());
    assert!(meta.k8s_cluster_name.is_none());
}

#[test]
fn service_key_resolution_first_string_wins() {
    let tags = vec![
        Tag { key: "service.namespace".to_string(), value: TagValue::Bool(true) },
        Tag { key: "service.namespace".to_string(), value: TagValue::String("ns1".to_string()) },
        Tag { key: "service.namespace".to_string(), value: TagValue::String("ns2".to_string()) },
        Tag {
            key: "service.instance.id".to_string(),
            value: TagValue::String("inst1".to_string()),
        },
    ];
    let sp = mk_span("T1", "S1", "svcA", "op1", 1_000_000, vec![], tags);
    let mut st = State::new();
    let _ = st.ingest_span(&sp);
    let key = ServiceKey {
        namespace: Some(ServiceNamespace("ns1".to_string())),
        name: ServiceName("svcA".to_string()),
        instance_id: Some(ServiceInstanceId("inst1".to_string())),
    };
    assert!(st.services.get(&key).is_some());
}

#[test]
fn service_key_string_form() {
    let key = ServiceKey {
        namespace: Some(ServiceNamespace("ns".to_string())),
        name: ServiceName("svcA".to_string()),
        instance_id: Some(ServiceInstanceId("host-1".to_string())),
    };
    assert_eq!(key.key_string(), "ns/svcA host-1");
    let parsed = parse_service_key("ns/svcA host-1");
    assert!(parsed.key_eq(&key));
    let bare = parse_service_key("svcA");
    assert!(bare.key_eq(&skey("svcA")));
    assert_eq!(skey("svcA").key_string(), "svcA");
}

#[test]
fn duplicate_span_is_idempotent_for_topology() {
    let mut st = State::new();
    let sp = mk_span("T1", "S1", "svcA", "op1", 1_000_000, vec![], vec![]);
    let _ = st.ingest_span(&sp);
    let _ = st.ingest_span(&sp);
    assert_eq!(st.services.len(), 1);
    assert_eq!(st.services.get(&skey("svcA")).unwrap().operations.len(), 1);
    let doc = st.materialize();
    assert_eq!(doc.items.len(), 2);
    assert_eq!(doc.relations.len(), 0);
}

#[test]
fn order_independence_within_trace() {
    // three spans of one trace: root, child, grandchild, ingested in two
    // different orders within the trace window
    let spans = |order: [usize; 3]| {
        let all = [
            mk_span("T1", "R", "svcA", "op1", 1_000_000, vec![], vec![]),
            mk_span("T1", "C", "svcB", "op2", 1_000_100, vec![child_of("T1", "R")], vec![]),
            mk_span("T1", "G", "svcC", "op3", 1_000_200, vec![child_of("T1", "C")], vec![]),
        ];
        let mut out = Vec::new();
        for i in order {
            out.push(mk_span(
                &all[i].trace_id.0,
                &all[i].span_id.0,
                &all[i].process.service_name.0,
                &all[i].operation_name.0,
                all[i].start_time,
                all[i]
                    .references
                    .iter()
                    .map(|r| child_of(&r.trace_id.0, &r.span_id.0))
                    .collect(),
                vec![],
            ));
        }
        out
    };
    let mut st1 = State::new();
    let (r1, _) = st1.ingest_batch(&spans([0, 1, 2]), Some(1_000_200));
    assert!(r1.is_ok());
    let mut st2 = State::new();
    let (r2, _) = st2.ingest_batch(&spans([2, 1, 0]), Some(1_000_200));
    assert!(r2.is_ok());
    for st in [&st1, &st2] {
        let doc = st.materialize();
        assert_eq!(doc.items.len(), 6);
        let (svc_rels, op_rels) = count_relations(&doc);
        assert_eq!(svc_rels, 2);
        assert_eq!(op_rels, 2);
        let id_a = st.services.get(&skey("svcA")).unwrap().id;
        let id_b = st.services.get(&skey("svcB")).unwrap().id;
        let id_c = st.services.get(&skey("svcC")).unwrap().id;
        let mut svc_edges = find_service_invokes(&doc);
        svc_edges.sort();
        let mut expected = vec![(id_a, id_b), (id_b, id_c)];
        expected.sort();
        assert_eq!(svc_edges, expected);
    }
}
