//! The graph materializer: turns the retained topology into the
//! items-and-relations document for the downstream relation-graph service.
//! Relations whose caller entity was pruned are silently dropped, so no
//! dangling identifier is ever emitted.

use vstd::prelude::*;

use crate::keys::{ServiceKey, ServiceKeyView};
use crate::span::{MetaView, ServiceMeta, StringProperty};
use crate::state::{OpRelTbl, OperationStateView, RelationState, ServiceStateView, State,
    StateView, SvcRelTbl, SvcTbl};
use crate::table::{tbl_get, tbl_put, Table, TableKey};

verus! {

/// An entity identifier in the emitted document: the 128-bit value of the
/// entity's UUID.
#[derive(Clone, Copy)]
pub struct Id(pub u128);

impl View for Id {
    type V = u128;

    open spec fn view(&self) -> u128 {
        self.0
    }
}

impl TableKey for Id {
    fn key_eq(&self, other: &Id) -> (r: bool)
        ensures
            r == (self@ == other@),
    {
        self.0 == other.0
    }

    fn dup(&self) -> (r: Id)
        ensures
            r@ == self@,
    {
        Id(self.0)
    }
}

/// Properties of an emitted service item.
pub struct ServiceProps {
    pub service_namespace: Option<StringProperty>,
    pub service_name: StringProperty,
    pub service_instance_id: Option<StringProperty>,
    pub meta: ServiceMeta,
}

/// Mathematical view of a [`ServiceProps`].
pub ghost struct ServicePropsView {
    pub service_namespace: Option<Seq<char>>,
    pub service_name: Seq<char>,
    pub service_instance_id: Option<Seq<char>>,
    pub meta: MetaView,
}

impl View for ServiceProps {
    type V = ServicePropsView;

    open spec fn view(&self) -> ServicePropsView {
        ServicePropsView {
            service_namespace: match self.service_namespace {
                Some(sp) => Some(sp@),
                None => None,
            },
            service_name: self.service_name@,
            service_instance_id: match self.service_instance_id {
                Some(sp) => Some(sp@),
                None => None,
            },
            meta: self.meta@,
        }
    }
}

/// Properties of an emitted operation item.
pub struct OperationProps {
    pub operation_name: StringProperty,
}

impl View for OperationProps {
    type V = Seq<char>;

    open spec fn view(&self) -> Seq<char> {
        self.operation_name@
    }
}

/// An emitted item: a service, or an operation under its parent service.
pub enum Item {
    Service { properties: ServiceProps },
    Operation { parent: u128, properties: OperationProps },
}

/// Mathematical view of an [`Item`].
pub ghost enum ItemView {
    Service { properties: ServicePropsView },
    Operation { parent: u128, properties: Seq<char> },
}

impl View for Item {
    type V = ItemView;

    open spec fn view(&self) -> ItemView {
        match self {
            Item::Service { properties } => ItemView::Service { properties: properties@ },
            Item::Operation { parent, properties } => ItemView::Operation {
                parent: *parent,
                properties: properties@,
            },
        }
    }
}

/// An emitted relation: caller invokes callee, at service or operation
/// granularity.
#[derive(Clone, Copy)]
pub enum Relation {
    ServiceInvokes { source: u128, target: u128 },
    OperationInvokes { source: u128, target: u128 },
}

impl View for Relation {
    type V = Relation;

    open spec fn view(&self) -> Relation {
        *self
    }
}

/// The emitted document: items and relations, each keyed by identifier.
pub struct Items {
    pub items: Table<Id, Item>,
    pub relations: Table<Id, Relation>,
}

/// Mathematical view of an [`Items`] document.
pub ghost struct ItemsView {
    pub items: Seq<(u128, ItemView)>,
    pub relations: Seq<(u128, Relation)>,
}

impl View for Items {
    type V = ItemsView;

    open spec fn view(&self) -> ItemsView {
        ItemsView { items: self.items@, relations: self.relations@ }
    }
}

/// The service item emitted for one retained service.
pub open spec fn spec_svc_item(k: ServiceKeyView, svc: ServiceStateView) -> ItemView {
    ItemView::Service {
        properties: ServicePropsView {
            service_namespace: k.namespace,
            service_name: k.name,
            service_instance_id: k.instance_id,
            meta: svc.meta,
        },
    }
}

/// One service item per retained service.
pub open spec fn spec_add_service_items(items: Seq<(u128, ItemView)>, svcs: SvcTbl) -> Seq<
    (u128, ItemView),
>
    decreases svcs.len(),
{
    if svcs.len() == 0 {
        items
    } else {
        spec_add_service_items(
            tbl_put(items, svcs[0].1.id, spec_svc_item(svcs[0].0, svcs[0].1)),
            svcs.skip(1),
        )
    }
}

/// One operation item per retained operation, parented to its service.
pub open spec fn spec_add_op_items(
    items: Seq<(u128, ItemView)>,
    parent: u128,
    ops: Seq<(Seq<char>, OperationStateView)>,
) -> Seq<(u128, ItemView)>
    decreases ops.len(),
{
    if ops.len() == 0 {
        items
    } else {
        spec_add_op_items(
            tbl_put(
                items,
                ops[0].1.id,
                ItemView::Operation { parent, properties: ops[0].0 },
            ),
            parent,
            ops.skip(1),
        )
    }
}

/// The operation items of every retained service.
pub open spec fn spec_add_all_op_items(items: Seq<(u128, ItemView)>, svcs: SvcTbl) -> Seq<
    (u128, ItemView),
>
    decreases svcs.len(),
{
    if svcs.len() == 0 {
        items
    } else {
        spec_add_all_op_items(
            spec_add_op_items(items, svcs[0].1.id, svcs[0].1.operations),
            svcs.skip(1),
        )
    }
}

/// The emitted item map: service items first, then operation items.
pub open spec fn spec_items(svcs: SvcTbl) -> Seq<(u128, ItemView)> {
    spec_add_all_op_items(spec_add_service_items(Seq::empty(), svcs), svcs)
}

/// The service-level relations of one callee service whose caller is still
/// retained.
pub open spec fn spec_add_svc_relations(
    rels: Seq<(u128, Relation)>,
    services: SvcTbl,
    target: u128,
    svcrels: SvcRelTbl,
) -> Seq<(u128, Relation)>
    decreases svcrels.len(),
{
    if svcrels.len() == 0 {
        rels
    } else {
        let rels1 = match tbl_get(services, svcrels[0].0) {
            Some(csvc) => tbl_put(
                rels,
                svcrels[0].1.id,
                Relation::ServiceInvokes { source: csvc.id, target },
            ),
            None => rels,
        };
        spec_add_svc_relations(rels1, services, target, svcrels.skip(1))
    }
}

/// The service-level relations of every retained service.
pub open spec fn spec_add_all_svc_relations(
    rels: Seq<(u128, Relation)>,
    services: SvcTbl,
    svcs: SvcTbl,
) -> Seq<(u128, Relation)>
    decreases svcs.len(),
{
    if svcs.len() == 0 {
        rels
    } else {
        spec_add_all_svc_relations(
            spec_add_svc_relations(rels, services, svcs[0].1.id, svcs[0].1.relations),
            services,
            svcs.skip(1),
        )
    }
}

/// The operation-level relations of one caller service, keeping only those
/// whose caller operation is still retained.
pub open spec fn spec_add_op_relations_inner(
    rels: Seq<(u128, Relation)>,
    services: SvcTbl,
    target: u128,
    caller_svc: ServiceKeyView,
    inner: Seq<(Seq<char>, RelationState)>,
) -> Seq<(u128, Relation)>
    decreases inner.len(),
{
    if inner.len() == 0 {
        rels
    } else {
        let rels1 = match tbl_get(services, caller_svc) {
            Some(csvc) => match tbl_get(csvc.operations, inner[0].0) {
                Some(cop) => tbl_put(
                    rels,
                    inner[0].1.id,
                    Relation::OperationInvokes { source: cop.id, target },
                ),
                None => rels,
            },
            None => rels,
        };
        spec_add_op_relations_inner(rels1, services, target, caller_svc, inner.skip(1))
    }
}

/// The operation-level relations of one callee operation.
pub open spec fn spec_add_op_relations(
    rels: Seq<(u128, Relation)>,
    services: SvcTbl,
    target: u128,
    oprels: OpRelTbl,
) -> Seq<(u128, Relation)>
    decreases oprels.len(),
{
    if oprels.len() == 0 {
        rels
    } else {
        spec_add_op_relations(
            spec_add_op_relations_inner(rels, services, target, oprels[0].0, oprels[0].1),
            services,
            target,
            oprels.skip(1),
        )
    }
}

/// The operation-level relations of every operation of one service.
pub open spec fn spec_add_ops_relations(
    rels: Seq<(u128, Relation)>,
    services: SvcTbl,
    ops: Seq<(Seq<char>, OperationStateView)>,
) -> Seq<(u128, Relation)>
    decreases ops.len(),
{
    if ops.len() == 0 {
        rels
    } else {
        spec_add_ops_relations(
            spec_add_op_relations(rels, services, ops[0].1.id, ops[0].1.relations),
            services,
            ops.skip(1),
        )
    }
}

/// The operation-level relations of every retained service.
pub open spec fn spec_add_all_op_relations(
    rels: Seq<(u128, Relation)>,
    services: SvcTbl,
    svcs: SvcTbl,
) -> Seq<(u128, Relation)>
    decreases svcs.len(),
{
    if svcs.len() == 0 {
        rels
    } else {
        spec_add_all_op_relations(
            spec_add_ops_relations(rels, services, svcs[0].1.operations),
            services,
            svcs.skip(1),
        )
    }
}

/// The emitted relation map: service-level relations first, then
/// operation-level relations.
pub open spec fn spec_relations(svcs: SvcTbl) -> Seq<(u128, Relation)> {
    spec_add_all_op_relations(spec_add_all_svc_relations(Seq::empty(), svcs, svcs), svcs, svcs)
}

/// The document materialized from a state: its retained services and
/// operations as items, and their caller/callee edges as relations.
pub open spec fn spec_materialize(s: StateView) -> ItemsView {
    ItemsView { items: spec_items(s.services), relations: spec_relations(s.services) }
}

/// A copy of an optional string newtype as a wrapped property.
fn opt_prop_of(s: &Option<crate::keys::ServiceNamespace>) -> (r: Option<StringProperty>)
    ensures
        (match r {
            Some(sp) => Some(sp@),
            None => None,
        }) == (match *s {
            Some(ns) => Some(ns@),
            None => None,
        }),
{
    match s {
        Some(ns) => Some(StringProperty::new(ns.0.clone())),
        None => None,
    }
}

/// A copy of an optional instance id as a wrapped property.
fn opt_prop_of_instance(s: &Option<crate::keys::ServiceInstanceId>) -> (r: Option<StringProperty>)
    ensures
        (match r {
            Some(sp) => Some(sp@),
            None => None,
        }) == (match *s {
            Some(id) => Some(id@),
            None => None,
        }),
{
    match s {
        Some(id) => Some(StringProperty::new(id.0.clone())),
        None => None,
    }
}

impl State {
    /// Materializes the items-and-relations document from the retained
    /// state.
    pub fn materialize(&self) -> (doc: Items)
        ensures
            doc@ == spec_materialize(self@),
    {
        let ghost sv = self.services@;
        let n = self.services.len();

        // service items
        let mut items: Table<Id, Item> = Table::new();
        proof {
            assert(sv.skip(0) =~= sv);
        }
        let mut i: usize = 0;
        while i < n
            invariant
                n == sv.len(),
                i <= n,
                sv == self.services@,
                spec_add_service_items(items@, sv.skip(i as int)) == spec_add_service_items(
                    Seq::empty(),
                    sv,
                ),
            decreases n - i,
        {
            proof {
                assert(sv.skip(i as int)[0] == sv[i as int]);
                assert(sv.skip(i as int).skip(1) =~= sv.skip(i + 1));
            }
            let (k, svc) = self.services.entry_at(i);
            items.put(
                Id(svc.id),
                Item::Service {
                    properties: ServiceProps {
                        service_namespace: opt_prop_of(&k.namespace),
                        service_name: StringProperty::new(k.name.0.clone()),
                        service_instance_id: opt_prop_of_instance(&k.instance_id),
                        meta: svc.meta.dup(),
                    },
                },
            );
            i = i + 1;
        }
        proof {
            assert(sv.skip(n as int).len() == 0);
        }

        // operation items
        let mut i: usize = 0;
        while i < n
            invariant
                n == sv.len(),
                i <= n,
                sv == self.services@,
                spec_add_all_op_items(items@, sv.skip(i as int)) == spec_add_all_op_items(
                    spec_add_service_items(Seq::empty(), sv),
                    sv,
                ),
            decreases n - i,
        {
            proof {
                assert(sv.skip(i as int)[0] == sv[i as int]);
                assert(sv.skip(i as int).skip(1) =~= sv.skip(i + 1));
            }
            let (_, svc) = self.services.entry_at(i);
            let ghost ops = sv[i as int].1.operations;
            let ghost items0 = items@;
            proof {
                assert(ops.skip(0) =~= ops);
            }
            let m = svc.operations.len();
            let mut j: usize = 0;
            while j < m
                invariant
                    m == ops.len(),
                    j <= m,
                    i < n,
                    n == sv.len(),
                    sv == self.services@,
                    ops == sv[i as int].1.operations,
                    svc@ == sv[i as int].1,
                    spec_add_op_items(items@, sv[i as int].1.id, ops.skip(j as int))
                        == spec_add_op_items(items0, sv[i as int].1.id, ops),
                decreases m - j,
            {
                proof {
                    assert(ops.skip(j as int)[0] == ops[j as int]);
                    assert(ops.skip(j as int).skip(1) =~= ops.skip(j + 1));
                }
                let (opname, op) = svc.operations.entry_at(j);
                items.put(
                    Id(op.id),
                    Item::Operation {
                        parent: svc.id,
                        properties: OperationProps {
                            operation_name: StringProperty::new(opname.0.clone()),
                        },
                    },
                );
                j = j + 1;
            }
            proof {
                assert(ops.skip(m as int).len() == 0);
            }
            i = i + 1;
        }
        proof {
            assert(sv.skip(n as int).len() == 0);
        }

        // service-level relations
        let mut relations: Table<Id, Relation> = Table::new();
        proof {
            assert(sv.skip(0) =~= sv);
        }
        let mut i: usize = 0;
        while i < n
            invariant
                n == sv.len(),
                i <= n,
                sv == self.services@,
                spec_add_all_svc_relations(relations@, sv, sv.skip(i as int))
                    == spec_add_all_svc_relations(Seq::empty(), sv, sv),
            decreases n - i,
        {
            proof {
                assert(sv.skip(i as int)[0] == sv[i as int]);
                assert(sv.skip(i as int).skip(1) =~= sv.skip(i + 1));
            }
            let (_, svc) = self.services.entry_at(i);
            let ghost srels = sv[i as int].1.relations;
            let ghost rels0 = relations@;
            proof {
                assert(srels.skip(0) =~= srels);
            }
            let m = svc.relations.len();
            let mut j: usize = 0;
            while j < m
                invariant
                    m == srels.len(),
                    j <= m,
                    i < n,
                    n == sv.len(),
                    sv == self.services@,
                    srels == sv[i as int].1.relations,
                    svc@ == sv[i as int].1,
                    spec_add_svc_relations(relations@, sv, sv[i as int].1.id, srels.skip(j as int))
                        == spec_add_svc_relations(rels0, sv, sv[i as int].1.id, srels),
                decreases m - j,
            {
                proof {
                    assert(srels.skip(j as int)[0] == srels[j as int]);
                    assert(srels.skip(j as int).skip(1) =~= srels.skip(j + 1));
                }
                let (caller, rel) = svc.relations.entry_at(j);
                match self.services.get(caller) {
                    Some(csvc) => {
                        relations.put(
                            Id(rel.id),
                            Relation::ServiceInvokes { source: csvc.id, target: svc.id },
                        );
                    },
                    None => {},
                }
                j = j + 1;
            }
            proof {
                assert(srels.skip(m as int).len() == 0);
            }
            i = i + 1;
        }
        proof {
            assert(sv.skip(n as int).len() == 0);
        }

        // operation-level relations
        let mut i: usize = 0;
        while i < n
            invariant
                n == sv.len(),
                i <= n,
                sv == self.services@,
                spec_add_all_op_relations(relations@, sv, sv.skip(i as int))
                    == spec_add_all_op_relations(
                    spec_add_all_svc_relations(Seq::empty(), sv, sv),
                    sv,
                    sv,
                ),
            decreases n - i,
        {
            proof {
                assert(sv.skip(i as int)[0] == sv[i as int]);
                assert(sv.skip(i as int).skip(1) =~= sv.skip(i + 1));
            }
            let (_, svc) = self.services.entry_at(i);
            let ghost ops = sv[i as int].1.operations;
            let ghost rels1 = relations@;
            proof {
                assert(ops.skip(0) =~= ops);
            }
            let m = svc.operations.len();
            let mut j: usize = 0;
            while j < m
                invariant
                    m == ops.len(),
                    j <= m,
                    i < n,
                    n == sv.len(),
                    sv == self.services@,
                    ops == sv[i as int].1.operations,
                    svc@ == sv[i as int].1,
                    spec_add_ops_relations(relations@, sv, ops.skip(j as int))
                        == spec_add_ops_relations(rels1, sv, ops),
                decreases m - j,
            {
                proof {
                    assert(ops.skip(j as int)[0] == ops[j as int]);
                    assert(ops.skip(j as int).skip(1) =~= ops.skip(j + 1));
                }
                let (_, op) = svc.operations.entry_at(j);
                let ghost oprels = ops[j as int].1.relations;
                let ghost rels2 = relations@;
                proof {
                    assert(oprels.skip(0) =~= oprels);
                }
                let p = op.relations.len();
                let mut a: usize = 0;
                while a < p
                    invariant
                        p == oprels.len(),
                        a <= p,
                        j < m,
                        m == ops.len(),
                        i < n,
                        n == sv.len(),
                        sv == self.services@,
                        ops == sv[i as int].1.operations,
                        oprels == ops[j as int].1.relations,
                        op@ == ops[j as int].1,
                        spec_add_op_relations(
                            relations@,
                            sv,
                            ops[j as int].1.id,
                            oprels.skip(a as int),
                        ) == spec_add_op_relations(rels2, sv, ops[j as int].1.id, oprels),
                    decreases p - a,
                {
                    proof {
                        assert(oprels.skip(a as int)[0] == oprels[a as int]);
                        assert(oprels.skip(a as int).skip(1) =~= oprels.skip(a + 1));
                    }
                    let (caller_svc, inner) = op.relations.entry_at(a);
                    let ghost innerv = oprels[a as int].1;
                    let ghost rels3 = relations@;
                    proof {
                        assert(innerv.skip(0) =~= innerv);
                    }
                    let q = inner.len();
                    let mut b: usize = 0;
                    while b < q
                        invariant
                            q == innerv.len(),
                            b <= q,
                            a < p,
                            p == oprels.len(),
                            j < m,
                            m == ops.len(),
                            i < n,
                            n == sv.len(),
                            sv == self.services@,
                            ops == sv[i as int].1.operations,
                            oprels == ops[j as int].1.relations,
                            innerv == oprels[a as int].1,
                            op@ == ops[j as int].1,
                            inner@ == innerv,
                            caller_svc@ == oprels[a as int].0,
                            spec_add_op_relations_inner(
                                relations@,
                                sv,
                                ops[j as int].1.id,
                                oprels[a as int].0,
                                innerv.skip(b as int),
                            ) == spec_add_op_relations_inner(
                                rels3,
                                sv,
                                ops[j as int].1.id,
                                oprels[a as int].0,
                                innerv,
                            ),
                        decreases q - b,
                    {
                        proof {
                            assert(innerv.skip(b as int)[0] == innerv[b as int]);
                            assert(innerv.skip(b as int).skip(1) =~= innerv.skip(b + 1));
                        }
                        let (caller_op, rel) = inner.entry_at(b);
                        match self.services.get(caller_svc) {
                            Some(csvc) => {
                                match csvc.operations.get(caller_op) {
                                    Some(cop) => {
                                        relations.put(
                                            Id(rel.id),
                                            Relation::OperationInvokes {
                                                source: cop.id,
                                                target: op.id,
                                            },
                                        );
                                    },
                                    None => {},
                                }
                            },
                            None => {},
                        }
                        b = b + 1;
                    }
                    proof {
                        assert(innerv.skip(q as int).len() == 0);
                    }
                    a = a + 1;
                }
                proof {
                    assert(oprels.skip(p as int).len() == 0);
                }
                j = j + 1;
            }
            proof {
                assert(ops.skip(m as int).len() == 0);
            }
            i = i + 1;
        }
        proof {
            assert(sv.skip(n as int).len() == 0);
        }

        Items { items, relations }
    }
}

} // verus!
