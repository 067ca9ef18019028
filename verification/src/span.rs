//! The span input model: a decoded span record with its references, process
//! block and tags, together with the resolution of a span to its service key
//! and the extraction of service metadata from process tags.

use vstd::prelude::*;

use crate::keys::{
    OperationName, ServiceInstanceId, ServiceKey, ServiceKeyView, ServiceName, ServiceNamespace,
    SpanId, TraceId,
};

verus! {

/// Reference kind carried by a span. Only `ChildOf` contributes to the
/// topology; anything else is ignored.
#[derive(Clone, Copy, PartialEq, Eq, Structural)]
pub enum RefType {
    ChildOf,
    FollowsFrom,
}

/// A reference from one span to another span, usually its parent.
pub struct Reference {
    pub ref_type: RefType,
    pub trace_id: TraceId,
    pub span_id: SpanId,
}

/// Mathematical view of a [`Reference`].
pub ghost struct ReferenceView {
    pub ref_type: RefType,
    pub trace_id: Seq<char>,
    pub span_id: Seq<char>,
}

impl View for Reference {
    type V = ReferenceView;

    open spec fn view(&self) -> ReferenceView {
        ReferenceView {
            ref_type: self.ref_type,
            trace_id: self.trace_id@,
            span_id: self.span_id@,
        }
    }
}

/// A typed tag value: string, 64-bit integer, or boolean.
pub enum TagValue {
    String(String),
    Int64(i64),
    Bool(bool),
}

/// Mathematical view of a [`TagValue`].
pub ghost enum TagValueView {
    String(Seq<char>),
    Int64(i64),
    Bool(bool),
}

impl View for TagValue {
    type V = TagValueView;

    open spec fn view(&self) -> TagValueView {
        match self {
            TagValue::String(s) => TagValueView::String(s@),
            TagValue::Int64(v) => TagValueView::Int64(*v),
            TagValue::Bool(b) => TagValueView::Bool(*b),
        }
    }
}

/// A key/value tag attached to a span or to its process block.
pub struct Tag {
    pub key: String,
    pub value: TagValue,
}

/// Mathematical view of a [`Tag`].
pub ghost struct TagView {
    pub key: Seq<char>,
    pub value: TagValueView,
}

impl View for Tag {
    type V = TagView;

    open spec fn view(&self) -> TagView {
        TagView { key: self.key@, value: self.value@ }
    }
}

/// The views of a sequence of tags.
pub open spec fn tag_views(s: Seq<Tag>) -> Seq<TagView> {
    s.map_values(|t: Tag| t@)
}

/// The views of a sequence of references.
pub open spec fn ref_views(s: Seq<Reference>) -> Seq<ReferenceView> {
    s.map_values(|r: Reference| r@)
}

/// The views of a sequence of spans.
pub open spec fn span_views(s: Seq<Span>) -> Seq<SpanView> {
    s.map_values(|sp: Span| sp@)
}

/// The process block of a span: the emitting service's name and tags.
pub struct Process {
    pub service_name: ServiceName,
    pub tags: Vec<Tag>,
}

/// Mathematical view of a [`Process`].
pub ghost struct ProcessView {
    pub service_name: Seq<char>,
    pub tags: Seq<TagView>,
}

impl View for Process {
    type V = ProcessView;

    open spec fn view(&self) -> ProcessView {
        ProcessView { service_name: self.service_name@, tags: tag_views(self.tags@) }
    }
}

/// A decoded span record.
pub struct Span {
    pub trace_id: TraceId,
    pub span_id: SpanId,
    pub operation_name: OperationName,
    pub references: Vec<Reference>,
    pub start_time: i64,
    pub start_time_millis: i64,
    pub duration: u64,
    pub tags: Vec<Tag>,
    pub process: Process,
}

/// Mathematical view of a [`Span`].
pub ghost struct SpanView {
    pub trace_id: Seq<char>,
    pub span_id: Seq<char>,
    pub operation_name: Seq<char>,
    pub references: Seq<ReferenceView>,
    pub start_time: i64,
    pub start_time_millis: i64,
    pub duration: u64,
    pub tags: Seq<TagView>,
    pub process: ProcessView,
}

impl View for Span {
    type V = SpanView;

    open spec fn view(&self) -> SpanView {
        SpanView {
            trace_id: self.trace_id@,
            span_id: self.span_id@,
            operation_name: self.operation_name@,
            references: ref_views(self.references@),
            start_time: self.start_time,
            start_time_millis: self.start_time_millis,
            duration: self.duration,
            tags: tag_views(self.tags@),
            process: self.process@,
        }
    }
}

/// The value of the first string-valued tag with the given key, if any.
pub open spec fn first_string_tag(tags: Seq<TagView>, key: Seq<char>) -> Option<Seq<char>>
    decreases tags.len(),
{
    if tags.len() == 0 {
        None
    } else {
        match tags[0].value {
            TagValueView::String(s) => if tags[0].key == key {
                Some(s)
            } else {
                first_string_tag(tags.skip(1), key)
            },
            _ => first_string_tag(tags.skip(1), key),
        }
    }
}

/// The value of the last string-valued tag with the given key, if any.
pub open spec fn last_string_tag(tags: Seq<TagView>, key: Seq<char>) -> Option<Seq<char>>
    decreases tags.len(),
{
    if tags.len() == 0 {
        None
    } else {
        match tags.last().value {
            TagValueView::String(s) => if tags.last().key == key {
                Some(s)
            } else {
                last_string_tag(tags.drop_last(), key)
            },
            _ => last_string_tag(tags.drop_last(), key),
        }
    }
}

/// Equality of a string against a literal key, at the level of views.
fn str_key_eq(a: &String, b: &str) -> (r: bool)
    ensures
        r == (a@ == b@),
{
    *a == b.to_owned()
}

/// The service key a span resolves to: the process service name, plus the
/// first string-valued `service.namespace` and `service.instance.id` tags.
pub open spec fn spec_service_key(p: ProcessView) -> ServiceKeyView {
    ServiceKeyView {
        namespace: first_string_tag(p.tags, "service.namespace"@),
        name: p.service_name,
        instance_id: first_string_tag(p.tags, "service.instance.id"@),
    }
}

/// The first string-valued tag with the given key, if any.
fn find_first_string_tag(tags: &Vec<Tag>, key: &str) -> (r: Option<String>)
    ensures
        match r {
            Some(s) => first_string_tag(tag_views(tags@), key@) == Some(s@),
            None => first_string_tag(tag_views(tags@), key@) is None,
        },
{
    let ghost tv = tag_views(tags@);
    proof {
        assert(tv.skip(0) =~= tv);
    }
    let n = tags.len();
    let mut i: usize = 0;
    while i < n
        invariant
            n == tags@.len(),
            i <= n,
            tv == tag_views(tags@),
            tv.len() == n,
            first_string_tag(tv, key@) == first_string_tag(tv.skip(i as int), key@),
        decreases n - i,
    {
        proof {
            assert(tv.skip(i as int)[0] == tv[i as int]);
            assert(tv.skip(i as int).skip(1) =~= tv.skip(i + 1));
        }
        let tag = &tags[i];
        if let TagValue::String(s) = &tag.value {
            if str_key_eq(&tag.key, key) {
                return Some(s.clone());
            }
        }
        i = i + 1;
    }
    proof {
        assert(tv.skip(n as int).len() == 0);
    }
    None
}

/// Resolves the service key of a span's process block.
pub fn resolve_service_key(process: &Process) -> (r: ServiceKey)
    ensures
        r@ == spec_service_key(process@),
{
    let namespace = match find_first_string_tag(&process.tags, "service.namespace") {
        Some(s) => Some(ServiceNamespace(s)),
        None => None,
    };
    let instance_id = match find_first_string_tag(&process.tags, "service.instance.id") {
        Some(s) => Some(ServiceInstanceId(s)),
        None => None,
    };
    ServiceKey { namespace, name: ServiceName(process.service_name.0.clone()), instance_id }
}

/// One string-valued property of the materialized document, wrapped for the
/// downstream service's `{"string": ...}` encoding.
pub struct StringProperty {
    pub string: String,
}

impl View for StringProperty {
    type V = Seq<char>;

    open spec fn view(&self) -> Seq<char> {
        self.string@
    }
}

impl StringProperty {
    /// Wraps a string value.
    pub fn new(string: String) -> (r: StringProperty)
        ensures
            r@ == string@,
    {
        StringProperty { string }
    }
}

/// Deployment metadata of a service, extracted from the recognized process
/// tags of its latest span.
pub struct ServiceMeta {
    pub service_version: Option<StringProperty>,
    pub deployment_environment: Option<StringProperty>,
    pub k8s_cluster_name: Option<StringProperty>,
    pub k8s_cluster_uid: Option<StringProperty>,
    pub k8s_node_name: Option<StringProperty>,
    pub k8s_node_uid: Option<StringProperty>,
    pub k8s_namespace_name: Option<StringProperty>,
    pub k8s_namespace_uid: Option<StringProperty>,
    pub k8s_pod_name: Option<StringProperty>,
    pub k8s_pod_uid: Option<StringProperty>,
    pub k8s_container_name: Option<StringProperty>,
    pub k8s_container_uid: Option<StringProperty>,
    pub k8s_replicaset_name: Option<StringProperty>,
    pub k8s_replicaset_uid: Option<StringProperty>,
    pub k8s_deployment_name: Option<StringProperty>,
    pub k8s_deployment_uid: Option<StringProperty>,
    pub k8s_statefulset_name: Option<StringProperty>,
    pub k8s_statefulset_uid: Option<StringProperty>,
    pub k8s_daemonset_name: Option<StringProperty>,
    pub k8s_daemonset_uid: Option<StringProperty>,
    pub k8s_job_name: Option<StringProperty>,
    pub k8s_job_uid: Option<StringProperty>,
    pub k8s_cronjob_name: Option<StringProperty>,
    pub k8s_cronjob_uid: Option<StringProperty>,
}

/// Mathematical view of a [`ServiceMeta`].
pub ghost struct MetaView {
    pub service_version: Option<Seq<char>>,
    pub deployment_environment: Option<Seq<char>>,
    pub k8s_cluster_name: Option<Seq<char>>,
    pub k8s_cluster_uid: Option<Seq<char>>,
    pub k8s_node_name: Option<Seq<char>>,
    pub k8s_node_uid: Option<Seq<char>>,
    pub k8s_namespace_name: Option<Seq<char>>,
    pub k8s_namespace_uid: Option<Seq<char>>,
    pub k8s_pod_name: Option<Seq<char>>,
    pub k8s_pod_uid: Option<Seq<char>>,
    pub k8s_container_name: Option<Seq<char>>,
    pub k8s_container_uid: Option<Seq<char>>,
    pub k8s_replicaset_name: Option<Seq<char>>,
    pub k8s_replicaset_uid: Option<Seq<char>>,
    pub k8s_deployment_name: Option<Seq<char>>,
    pub k8s_deployment_uid: Option<Seq<char>>,
    pub k8s_statefulset_name: Option<Seq<char>>,
    pub k8s_statefulset_uid: Option<Seq<char>>,
    pub k8s_daemonset_name: Option<Seq<char>>,
    pub k8s_daemonset_uid: Option<Seq<char>>,
    pub k8s_job_name: Option<Seq<char>>,
    pub k8s_job_uid: Option<Seq<char>>,
    pub k8s_cronjob_name: Option<Seq<char>>,
    pub k8s_cronjob_uid: Option<Seq<char>>,
}

/// The view of an optional wrapped string property.
pub open spec fn opt_prop_view(p: Option<StringProperty>) -> Option<Seq<char>> {
    match p {
        Some(sp) => Some(sp@),
        None => None,
    }
}

impl View for ServiceMeta {
    type V = MetaView;

    open spec fn view(&self) -> MetaView {
        MetaView {
            service_version: opt_prop_view(self.service_version),
            deployment_environment: opt_prop_view(self.deployment_environment),
            k8s_cluster_name: opt_prop_view(self.k8s_cluster_name),
            k8s_cluster_uid: opt_prop_view(self.k8s_cluster_uid),
            k8s_node_name: opt_prop_view(self.k8s_node_name),
            k8s_node_uid: opt_prop_view(self.k8s_node_uid),
            k8s_namespace_name: opt_prop_view(self.k8s_namespace_name),
            k8s_namespace_uid: opt_prop_view(self.k8s_namespace_uid),
            k8s_pod_name: opt_prop_view(self.k8s_pod_name),
            k8s_pod_uid: opt_prop_view(self.k8s_pod_uid),
            k8s_container_name: opt_prop_view(self.k8s_container_name),
            k8s_container_uid: opt_prop_view(self.k8s_container_uid),
            k8s_replicaset_name: opt_prop_view(self.k8s_replicaset_name),
            k8s_replicaset_uid: opt_prop_view(self.k8s_replicaset_uid),
            k8s_deployment_name: opt_prop_view(self.k8s_deployment_name),
            k8s_deployment_uid: opt_prop_view(self.k8s_deployment_uid),
            k8s_statefulset_name: opt_prop_view(self.k8s_statefulset_name),
            k8s_statefulset_uid: opt_prop_view(self.k8s_statefulset_uid),
            k8s_daemonset_name: opt_prop_view(self.k8s_daemonset_name),
            k8s_daemonset_uid: opt_prop_view(self.k8s_daemonset_uid),
            k8s_job_name: opt_prop_view(self.k8s_job_name),
            k8s_job_uid: opt_prop_view(self.k8s_job_uid),
            k8s_cronjob_name: opt_prop_view(self.k8s_cronjob_name),
            k8s_cronjob_uid: opt_prop_view(self.k8s_cronjob_uid),
        }
    }
}

/// The metadata extracted from a tag sequence: for each recognized key, the
/// value of its last string-valued occurrence.
pub open spec fn spec_meta_of(tags: Seq<TagView>) -> MetaView {
    MetaView {
        service_version: last_string_tag(tags, "service.version"@),
        deployment_environment: last_string_tag(tags, "deployment.environment"@),
        k8s_cluster_name: last_string_tag(tags, "k8s.cluster.name"@),
        k8s_cluster_uid: last_string_tag(tags, "k8s.cluster.uid"@),
        k8s_node_name: last_string_tag(tags, "k8s.node.name"@),
        k8s_node_uid: last_string_tag(tags, "k8s.node.uid"@),
        k8s_namespace_name: last_string_tag(tags, "k8s.namespace.name"@),
        k8s_namespace_uid: last_string_tag(tags, "k8s.namespace.uid"@),
        k8s_pod_name: last_string_tag(tags, "k8s.pod.name"@),
        k8s_pod_uid: last_string_tag(tags, "k8s.pod.uid"@),
        k8s_container_name: last_string_tag(tags, "k8s.container.name"@),
        k8s_container_uid: last_string_tag(tags, "k8s.container.uid"@),
        k8s_replicaset_name: last_string_tag(tags, "k8s.replicaset.name"@),
        k8s_replicaset_uid: last_string_tag(tags, "k8s.replicaset.uid"@),
        k8s_deployment_name: last_string_tag(tags, "k8s.deployment.name"@),
        k8s_deployment_uid: last_string_tag(tags, "k8s.deployment.uid"@),
        k8s_statefulset_name: last_string_tag(tags, "k8s.statefulset.name"@),
        k8s_statefulset_uid: last_string_tag(tags, "k8s.statefulset.uid"@),
        k8s_daemonset_name: last_string_tag(tags, "k8s.daemonset.name"@),
        k8s_daemonset_uid: last_string_tag(tags, "k8s.daemonset.uid"@),
        k8s_job_name: last_string_tag(tags, "k8s.job.name"@),
        k8s_job_uid: last_string_tag(tags, "k8s.job.uid"@),
        k8s_cronjob_name: last_string_tag(tags, "k8s.cronjob.name"@),
        k8s_cronjob_uid: last_string_tag(tags, "k8s.cronjob.uid"@),
    }
}

/// One tag applied to a metadata record: a string-valued tag with a
/// recognized key overwrites that attribute; any other tag is ignored.
pub open spec fn spec_apply_tag(m: MetaView, t: TagView) -> MetaView {
    match t.value {
        TagValueView::String(s) => MetaView {
            service_version: if t.key == "service.version"@ {
                Some(s)
            } else {
                m.service_version
            },
            deployment_environment: if t.key == "deployment.environment"@ {
                Some(s)
            } else {
                m.deployment_environment
            },
            k8s_cluster_name: if t.key == "k8s.cluster.name"@ {
                Some(s)
            } else {
                m.k8s_cluster_name
            },
            k8s_cluster_uid: if t.key == "k8s.cluster.uid"@ {
                Some(s)
            } else {
                m.k8s_cluster_uid
            },
            k8s_node_name: if t.key == "k8s.node.name"@ {
                Some(s)
            } else {
                m.k8s_node_name
            },
            k8s_node_uid: if t.key == "k8s.node.uid"@ {
                Some(s)
            } else {
                m.k8s_node_uid
            },
            k8s_namespace_name: if t.key == "k8s.namespace.name"@ {
                Some(s)
            } else {
                m.k8s_namespace_name
            },
            k8s_namespace_uid: if t.key == "k8s.namespace.uid"@ {
                Some(s)
            } else {
                m.k8s_namespace_uid
            },
            k8s_pod_name: if t.key == "k8s.pod.name"@ {
                Some(s)
            } else {
                m.k8s_pod_name
            },
            k8s_pod_uid: if t.key == "k8s.pod.uid"@ {
                Some(s)
            } else {
                m.k8s_pod_uid
            },
            k8s_container_name: if t.key == "k8s.container.name"@ {
                Some(s)
            } else {
                m.k8s_container_name
            },
            k8s_container_uid: if t.key == "k8s.container.uid"@ {
                Some(s)
            } else {
                m.k8s_container_uid
            },
            k8s_replicaset_name: if t.key == "k8s.replicaset.name"@ {
                Some(s)
            } else {
                m.k8s_replicaset_name
            },
            k8s_replicaset_uid: if t.key == "k8s.replicaset.uid"@ {
                Some(s)
            } else {
                m.k8s_replicaset_uid
            },
            k8s_deployment_name: if t.key == "k8s.deployment.name"@ {
                Some(s)
            } else {
                m.k8s_deployment_name
            },
            k8s_deployment_uid: if t.key == "k8s.deployment.uid"@ {
                Some(s)
            } else {
                m.k8s_deployment_uid
            },
            k8s_statefulset_name: if t.key == "k8s.statefulset.name"@ {
                Some(s)
            } else {
                m.k8s_statefulset_name
            },
            k8s_statefulset_uid: if t.key == "k8s.statefulset.uid"@ {
                Some(s)
            } else {
                m.k8s_statefulset_uid
            },
            k8s_daemonset_name: if t.key == "k8s.daemonset.name"@ {
                Some(s)
            } else {
                m.k8s_daemonset_name
            },
            k8s_daemonset_uid: if t.key == "k8s.daemonset.uid"@ {
                Some(s)
            } else {
                m.k8s_daemonset_uid
            },
            k8s_job_name: if t.key == "k8s.job.name"@ {
                Some(s)
            } else {
                m.k8s_job_name
            },
            k8s_job_uid: if t.key == "k8s.job.uid"@ {
                Some(s)
            } else {
                m.k8s_job_uid
            },
            k8s_cronjob_name: if t.key == "k8s.cronjob.name"@ {
                Some(s)
            } else {
                m.k8s_cronjob_name
            },
            k8s_cronjob_uid: if t.key == "k8s.cronjob.uid"@ {
                Some(s)
            } else {
                m.k8s_cronjob_uid
            },
        },
        _ => m,
    }
}

/// Extending the scanned prefix by one tag applies that tag to the
/// extracted metadata.
proof fn lemma_meta_of_step(tags: Seq<TagView>, i: int)
    requires
        0 <= i < tags.len(),
    ensures
        spec_meta_of(tags.take(i + 1)) == spec_apply_tag(spec_meta_of(tags.take(i)), tags[i]),
{
    let t = tags.take(i + 1);
    assert(t.len() == i + 1);
    assert(t.last() == tags[i]);
    assert(t.drop_last() =~= tags.take(i));
}

/// Applies one tag to the metadata under construction.
fn apply_tag(props: ServiceMeta, tag: &Tag) -> (r: ServiceMeta)
    ensures
        r@ == spec_apply_tag(props@, tag@),
{
    match &tag.value {
        TagValue::String(s) => ServiceMeta {
            service_version: if str_key_eq(&tag.key, "service.version") {
                Some(StringProperty::new(s.clone()))
            } else {
                props.service_version
            },
            deployment_environment: if str_key_eq(&tag.key, "deployment.environment") {
                Some(StringProperty::new(s.clone()))
            } else {
                props.deployment_environment
            },
            k8s_cluster_name: if str_key_eq(&tag.key, "k8s.cluster.name") {
                Some(StringProperty::new(s.clone()))
            } else {
                props.k8s_cluster_name
            },
            k8s_cluster_uid: if str_key_eq(&tag.key, "k8s.cluster.uid") {
                Some(StringProperty::new(s.clone()))
            } else {
                props.k8s_cluster_uid
            },
            k8s_node_name: if str_key_eq(&tag.key, "k8s.node.name") {
                Some(StringProperty::new(s.clone()))
            } else {
                props.k8s_node_name
            },
            k8s_node_uid: if str_key_eq(&tag.key, "k8s.node.uid") {
                Some(StringProperty::new(s.clone()))
            } else {
                props.k8s_node_uid
            },
            k8s_namespace_name: if str_key_eq(&tag.key, "k8s.namespace.name") {
                Some(StringProperty::new(s.clone()))
            } else {
                props.k8s_namespace_name
            },
            k8s_namespace_uid: if str_key_eq(&tag.key, "k8s.namespace.uid") {
                Some(StringProperty::new(s.clone()))
            } else {
                props.k8s_namespace_uid
            },
            k8s_pod_name: if str_key_eq(&tag.key, "k8s.pod.name") {
                Some(StringProperty::new(s.clone()))
            } else {
                props.k8s_pod_name
            },
            k8s_pod_uid: if str_key_eq(&tag.key, "k8s.pod.uid") {
                Some(StringProperty::new(s.clone()))
            } else {
                props.k8s_pod_uid
            },
            k8s_container_name: if str_key_eq(&tag.key, "k8s.container.name") {
                Some(StringProperty::new(s.clone()))
            } else {
                props.k8s_container_name
            },
            k8s_container_uid: if str_key_eq(&tag.key, "k8s.container.uid") {
                Some(StringProperty::new(s.clone()))
            } else {
                props.k8s_container_uid
            },
            k8s_replicaset_name: if str_key_eq(&tag.key, "k8s.replicaset.name") {
                Some(StringProperty::new(s.clone()))
            } else {
                props.k8s_replicaset_name
            },
            k8s_replicaset_uid: if str_key_eq(&tag.key, "k8s.replicaset.uid") {
                Some(StringProperty::new(s.clone()))
            } else {
                props.k8s_replicaset_uid
            },
            k8s_deployment_name: if str_key_eq(&tag.key, "k8s.deployment.name") {
                Some(StringProperty::new(s.clone()))
            } else {
                props.k8s_deployment_name
            },
            k8s_deployment_uid: if str_key_eq(&tag.key, "k8s.deployment.uid") {
                Some(StringProperty::new(s.clone()))
            } else {
                props.k8s_deployment_uid
            },
            k8s_statefulset_name: if str_key_eq(&tag.key, "k8s.statefulset.name") {
                Some(StringProperty::new(s.clone()))
            } else {
                props.k8s_statefulset_name
            },
            k8s_statefulset_uid: if str_key_eq(&tag.key, "k8s.statefulset.uid") {
                Some(StringProperty::new(s.clone()))
            } else {
                props.k8s_statefulset_uid
            },
            k8s_daemonset_name: if str_key_eq(&tag.key, "k8s.daemonset.name") {
                Some(StringProperty::new(s.clone()))
            } else {
                props.k8s_daemonset_name
            },
            k8s_daemonset_uid: if str_key_eq(&tag.key, "k8s.daemonset.uid") {
                Some(StringProperty::new(s.clone()))
            } else {
                props.k8s_daemonset_uid
            },
            k8s_job_name: if str_key_eq(&tag.key, "k8s.job.name") {
                Some(StringProperty::new(s.clone()))
            } else {
                props.k8s_job_name
            },
            k8s_job_uid: if str_key_eq(&tag.key, "k8s.job.uid") {
                Some(StringProperty::new(s.clone()))
            } else {
                props.k8s_job_uid
            },
            k8s_cronjob_name: if str_key_eq(&tag.key, "k8s.cronjob.name") {
                Some(StringProperty::new(s.clone()))
            } else {
                props.k8s_cronjob_name
            },
            k8s_cronjob_uid: if str_key_eq(&tag.key, "k8s.cronjob.uid") {
                Some(StringProperty::new(s.clone()))
            } else {
                props.k8s_cronjob_uid
            },
        },
        _ => props,
    }
}

/// A copy of an optional wrapped string property with the same view.
fn dup_opt_prop(p: &Option<StringProperty>) -> (r: Option<StringProperty>)
    ensures
        opt_prop_view(r) == opt_prop_view(*p),
{
    match p {
        Some(sp) => Some(StringProperty { string: sp.string.clone() }),
        None => None,
    }
}

impl ServiceMeta {
    /// The empty metadata record: every attribute absent.
    pub fn empty() -> (r: ServiceMeta)
        ensures
            r@ == spec_meta_of(Seq::<TagView>::empty()),
    {
        ServiceMeta {
            service_version: None,
            deployment_environment: None,
            k8s_cluster_name: None,
            k8s_cluster_uid: None,
            k8s_node_name: None,
            k8s_node_uid: None,
            k8s_namespace_name: None,
            k8s_namespace_uid: None,
            k8s_pod_name: None,
            k8s_pod_uid: None,
            k8s_container_name: None,
            k8s_container_uid: None,
            k8s_replicaset_name: None,
            k8s_replicaset_uid: None,
            k8s_deployment_name: None,
            k8s_deployment_uid: None,
            k8s_statefulset_name: None,
            k8s_statefulset_uid: None,
            k8s_daemonset_name: None,
            k8s_daemonset_uid: None,
            k8s_job_name: None,
            k8s_job_uid: None,
            k8s_cronjob_name: None,
            k8s_cronjob_uid: None,
        }
    }

    /// A copy with the same view.
    pub fn dup(&self) -> (r: ServiceMeta)
        ensures
            r@ == self@,
    {
        ServiceMeta {
            service_version: dup_opt_prop(&self.service_version),
            deployment_environment: dup_opt_prop(&self.deployment_environment),
            k8s_cluster_name: dup_opt_prop(&self.k8s_cluster_name),
            k8s_cluster_uid: dup_opt_prop(&self.k8s_cluster_uid),
            k8s_node_name: dup_opt_prop(&self.k8s_node_name),
            k8s_node_uid: dup_opt_prop(&self.k8s_node_uid),
            k8s_namespace_name: dup_opt_prop(&self.k8s_namespace_name),
            k8s_namespace_uid: dup_opt_prop(&self.k8s_namespace_uid),
            k8s_pod_name: dup_opt_prop(&self.k8s_pod_name),
            k8s_pod_uid: dup_opt_prop(&self.k8s_pod_uid),
            k8s_container_name: dup_opt_prop(&self.k8s_container_name),
            k8s_container_uid: dup_opt_prop(&self.k8s_container_uid),
            k8s_replicaset_name: dup_opt_prop(&self.k8s_replicaset_name),
            k8s_replicaset_uid: dup_opt_prop(&self.k8s_replicaset_uid),
            k8s_deployment_name: dup_opt_prop(&self.k8s_deployment_name),
            k8s_deployment_uid: dup_opt_prop(&self.k8s_deployment_uid),
            k8s_statefulset_name: dup_opt_prop(&self.k8s_statefulset_name),
            k8s_statefulset_uid: dup_opt_prop(&self.k8s_statefulset_uid),
            k8s_daemonset_name: dup_opt_prop(&self.k8s_daemonset_name),
            k8s_daemonset_uid: dup_opt_prop(&self.k8s_daemonset_uid),
            k8s_job_name: dup_opt_prop(&self.k8s_job_name),
            k8s_job_uid: dup_opt_prop(&self.k8s_job_uid),
            k8s_cronjob_name: dup_opt_prop(&self.k8s_cronjob_name),
            k8s_cronjob_uid: dup_opt_prop(&self.k8s_cronjob_uid),
        }
    }

    /// Extracts the recognized metadata from a span's process tags: for each
    /// recognized key, the last string-valued occurrence wins; everything
    /// else is ignored.
    pub fn from_span(span: &Span) -> (r: ServiceMeta)
        ensures
            r@ == spec_meta_of(span@.process.tags),
    {
        let ghost tv = span@.process.tags;
        let mut props = ServiceMeta::empty();
        proof {
            assert(tv.take(0) =~= Seq::<TagView>::empty());
        }
        let tags = &span.process.tags;
        let n = tags.len();
        let mut i: usize = 0;
        while i < n
            invariant
                n == tags@.len(),
                i <= n,
                tv == tag_views(tags@),
                tv.len() == n,
                props@ == spec_meta_of(tv.take(i as int)),
            decreases n - i,
        {
            proof {
                lemma_meta_of_step(tv, i as int);
                assert(tv[i as int] == tags@[i as int]@);
            }
            props = apply_tag(props, &tags[i]);
            i = i + 1;
        }
        proof {
            assert(tv.take(n as int) =~= tv);
        }
        props
    }
}

} // verus!
