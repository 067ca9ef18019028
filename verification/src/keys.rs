//! Identifier and key types: trace and span identifiers, service keys
//! (namespace, name, instance id) and operation keys, with their
//! mathematical views and executable structural equality.

use vstd::prelude::*;

use vstd::string::{StrSliceExecFns, StringExecFns};

use crate::table::TableKey;

verus! {

/// Identifier of a trace (the set of spans forming one causal tree).
pub struct TraceId(pub String);

/// Identifier of a single span within a trace.
pub struct SpanId(pub String);

/// Optional namespace component of a service key.
pub struct ServiceNamespace(pub String);

/// Name component of a service key.
pub struct ServiceName(pub String);

/// Optional instance-id component of a service key.
pub struct ServiceInstanceId(pub String);

/// Named unit of work within a service.
pub struct OperationName(pub String);

impl View for TraceId {
    type V = Seq<char>;

    open spec fn view(&self) -> Seq<char> {
        self.0@
    }
}

impl View for SpanId {
    type V = Seq<char>;

    open spec fn view(&self) -> Seq<char> {
        self.0@
    }
}

impl View for ServiceNamespace {
    type V = Seq<char>;

    open spec fn view(&self) -> Seq<char> {
        self.0@
    }
}

impl View for ServiceName {
    type V = Seq<char>;

    open spec fn view(&self) -> Seq<char> {
        self.0@
    }
}

impl View for ServiceInstanceId {
    type V = Seq<char>;

    open spec fn view(&self) -> Seq<char> {
        self.0@
    }
}

impl View for OperationName {
    type V = Seq<char>;

    open spec fn view(&self) -> Seq<char> {
        self.0@
    }
}

/// The unit of deployment: optional namespace, a name, and an optional
/// instance id. Equality compares all three components.
pub struct ServiceKey {
    pub namespace: Option<ServiceNamespace>,
    pub name: ServiceName,
    pub instance_id: Option<ServiceInstanceId>,
}

/// Mathematical view of a [`ServiceKey`].
pub ghost struct ServiceKeyView {
    pub namespace: Option<Seq<char>>,
    pub name: Seq<char>,
    pub instance_id: Option<Seq<char>>,
}

impl View for ServiceKey {
    type V = ServiceKeyView;

    open spec fn view(&self) -> ServiceKeyView {
        ServiceKeyView {
            namespace: match self.namespace {
                Some(ns) => Some(ns@),
                None => None,
            },
            name: self.name@,
            instance_id: match self.instance_id {
                Some(id) => Some(id@),
                None => None,
            },
        }
    }
}

/// A service key together with an operation name: the named unit of work
/// that a span resolves to.
pub struct OperationKey {
    pub service_key: ServiceKey,
    pub operation_name: OperationName,
}

/// Mathematical view of an [`OperationKey`].
pub ghost struct OperationKeyView {
    pub service_key: ServiceKeyView,
    pub operation_name: Seq<char>,
}

impl View for OperationKey {
    type V = OperationKeyView;

    open spec fn view(&self) -> OperationKeyView {
        OperationKeyView { service_key: self.service_key@, operation_name: self.operation_name@ }
    }
}

impl TableKey for TraceId {
    fn key_eq(&self, other: &TraceId) -> (r: bool)
        ensures
            r == (self@ == other@),
    {
        self.0 == other.0
    }

    fn dup(&self) -> (r: TraceId)
        ensures
            r@ == self@,
    {
        TraceId(self.0.clone())
    }
}

impl TableKey for SpanId {
    fn key_eq(&self, other: &SpanId) -> (r: bool)
        ensures
            r == (self@ == other@),
    {
        self.0 == other.0
    }

    fn dup(&self) -> (r: SpanId)
        ensures
            r@ == self@,
    {
        SpanId(self.0.clone())
    }
}

impl TableKey for OperationName {
    fn key_eq(&self, other: &OperationName) -> (r: bool)
        ensures
            r == (self@ == other@),
    {
        self.0 == other.0
    }

    fn dup(&self) -> (r: OperationName)
        ensures
            r@ == self@,
    {
        OperationName(self.0.clone())
    }
}

impl TableKey for ServiceKey {
    /// Structural equality, deciding equality of the views.
    fn key_eq(&self, other: &ServiceKey) -> (r: bool)
        ensures
            r == (self@ == other@),
    {
        let ns_eq = match (&self.namespace, &other.namespace) {
            (Some(a), Some(b)) => a.0 == b.0,
            (None, None) => true,
            _ => false,
        };
        let id_eq = match (&self.instance_id, &other.instance_id) {
            (Some(a), Some(b)) => a.0 == b.0,
            (None, None) => true,
            _ => false,
        };
        ns_eq && self.name.0 == other.name.0 && id_eq
    }

    /// A copy with the same view.
    fn dup(&self) -> (r: ServiceKey)
        ensures
            r@ == self@,
    {
        ServiceKey {
            namespace: match &self.namespace {
                Some(ns) => Some(ServiceNamespace(ns.0.clone())),
                None => None,
            },
            name: ServiceName(self.name.0.clone()),
            instance_id: match &self.instance_id {
                Some(id) => Some(ServiceInstanceId(id.0.clone())),
                None => None,
            },
        }
    }
}

/// The number of leading characters that differ from `c`: the position of
/// the first occurrence, or the length when `c` does not occur.
pub open spec fn first_index_of(s: Seq<char>, c: char) -> int
    decreases s.len(),
{
    if s.len() == 0 {
        0
    } else if s[0] == c {
        0
    } else {
        1 + first_index_of(s.skip(1), c)
    }
}

proof fn lemma_first_index_at(s: Seq<char>, c: char, i: int)
    requires
        0 <= i < s.len(),
        s[i] == c,
        forall|j: int| 0 <= j < i ==> s[j] != c,
    ensures
        first_index_of(s, c) == i,
    decreases i,
{
    if i > 0 {
        assert(forall|j: int| 0 <= j < i - 1 ==> s.skip(1)[j] == s[j + 1]);
        assert(s.skip(1)[i - 1] == s[i]);
        lemma_first_index_at(s.skip(1), c, i - 1);
    }
}

proof fn lemma_first_index_absent(s: Seq<char>, c: char)
    requires
        forall|j: int| 0 <= j < s.len() ==> s[j] != c,
    ensures
        first_index_of(s, c) == s.len(),
    decreases s.len(),
{
    if s.len() > 0 {
        assert(forall|j: int| 0 <= j < s.skip(1).len() ==> s.skip(1)[j] == s[j + 1]);
        lemma_first_index_absent(s.skip(1), c);
    }
}

/// The position of the first occurrence of `c`, or the length when absent.
fn find_char(s: &str, c: char) -> (r: usize)
    ensures
        r == first_index_of(s@, c),
        r <= s@.len(),
{
    let n = s.unicode_len();
    let mut i: usize = 0;
    while i < n
        invariant
            n == s@.len(),
            i <= n,
            forall|j: int| 0 <= j < i ==> s@[j] != c,
        decreases n - i,
    {
        if s.get_char(i) == c {
            proof {
                lemma_first_index_at(s@, c, i as int);
            }
            return i;
        }
        i = i + 1;
    }
    proof {
        lemma_first_index_absent(s@, c);
    }
    n
}

/// The one-line human form of a service key, parsed back by
/// [`parse_service_key`]: `namespace/`, if present, then the name, then a
/// space and the instance id, if present.
pub open spec fn spec_key_string(k: ServiceKeyView) -> Seq<char> {
    (match k.namespace {
        Some(ns) => ns + "/"@,
        None => Seq::empty(),
    }) + k.name + (match k.instance_id {
        Some(id) => " "@ + id,
        None => Seq::empty(),
    })
}

/// A service key parsed from its one-line human form: an optional namespace
/// before the first slash, then the name, then an optional instance id
/// after the first space.
pub open spec fn spec_parse_service_key(s: Seq<char>) -> ServiceKeyView {
    let i = first_index_of(s, '/');
    let namespace = if i < s.len() {
        Some(s.take(i))
    } else {
        None
    };
    let rest = if i < s.len() {
        s.skip(i + 1)
    } else {
        s
    };
    let j = first_index_of(rest, ' ');
    ServiceKeyView {
        namespace,
        name: if j < rest.len() {
            rest.take(j)
        } else {
            rest
        },
        instance_id: if j < rest.len() {
            Some(rest.skip(j + 1))
        } else {
            None
        },
    }
}

impl ServiceKey {
    /// Renders the one-line human form of this key.
    pub fn key_string(&self) -> (r: String)
        ensures
            r@ == spec_key_string(self@),
    {
        let mut r = String::new();
        if let Some(ns) = &self.namespace {
            r.append(ns.0.as_str());
            r.append("/");
        }
        r.append(self.name.0.as_str());
        if let Some(id) = &self.instance_id {
            r.append(" ");
            r.append(id.0.as_str());
        }
        proof {
            assert(r@ =~= spec_key_string(self@));
        }
        r
    }
}

/// Parses the one-line human form of a service key. Every input parses.
pub fn parse_service_key(s: &str) -> (r: ServiceKey)
    ensures
        r@ == spec_parse_service_key(s@),
{
    let n = s.unicode_len();
    let i = find_char(s, '/');
    let (namespace, rest) = if i < n {
        (Some(ServiceNamespace(s.substring_char(0, i).to_owned())), s.substring_char(i + 1, n))
    } else {
        (None, s.substring_char(0, n))
    };
    proof {
        assert(s@.subrange(0, s@.len() as int) =~= s@);
        if i < n {
            assert(s@.subrange(0, i as int) =~= s@.take(i as int));
            assert(s@.subrange(i + 1, s@.len() as int) =~= s@.skip(i + 1));
        }
    }
    let m = rest.unicode_len();
    let j = find_char(rest, ' ');
    let (name, instance_id) = if j < m {
        (
            ServiceName(rest.substring_char(0, j).to_owned()),
            Some(ServiceInstanceId(rest.substring_char(j + 1, m).to_owned())),
        )
    } else {
        (ServiceName(rest.to_owned()), None)
    };
    proof {
        if j < m {
            assert(rest@.subrange(0, j as int) =~= rest@.take(j as int));
            assert(rest@.subrange(j + 1, rest@.len() as int) =~= rest@.skip(j + 1));
        }
    }
    ServiceKey { namespace, name, instance_id }
}

/// Splitting the rendered name-and-instance part at the first space
/// recovers its components when the name holds no space.
proof fn lemma_split_name(name: Seq<char>, inst: Option<Seq<char>>, rest: Seq<char>)
    requires
        !name.contains(' '),
        rest == name + (match inst {
            Some(id) => " "@ + id,
            None => Seq::<char>::empty(),
        }),
    ensures
        ({
            let j = first_index_of(rest, ' ');
            match inst {
                Some(id) => j == name.len() && j < rest.len() && rest.take(j) == name && rest.skip(
                    j + 1,
                ) == id,
                None => j == rest.len() && rest == name,
            }
        }),
{
    reveal_strlit(" ");
    assert(" "@.len() == 1);
    assert(" "@[0] == ' ');
    match inst {
        Some(id) => {
            assert(rest.len() == name.len() + 1 + id.len());
            assert(rest[name.len() as int] == ' ');
            assert forall|j: int| 0 <= j < name.len() implies rest[j] != ' ' by {
                assert(rest[j] == name[j]);
                if name[j] == ' ' {
                    assert(name.contains(' '));
                }
            }
            lemma_first_index_at(rest, ' ', name.len() as int);
            assert(rest.take(name.len() as int) =~= name);
            assert(rest.skip(name.len() as int + 1) =~= id);
        },
        None => {
            assert(rest =~= name);
            assert forall|j: int| 0 <= j < rest.len() implies rest[j] != ' ' by {
                if rest[j] == ' ' {
                    assert(name[j] == ' ');
                    assert(name.contains(' '));
                }
            }
            lemma_first_index_absent(rest, ' ');
        },
    }
}

/// Round trip of the one-line form: parsing the rendered key recovers the
/// key, provided the namespace holds no slash, the name holds no space,
/// and, when the namespace is absent, neither the name nor the instance id
/// holds a slash (a slash there would be read back as a namespace).
pub proof fn lemma_key_string_round_trip(k: ServiceKeyView)
    requires
        match k.namespace {
            Some(ns) => !ns.contains('/'),
            None => !k.name.contains('/') && match k.instance_id {
                Some(id) => !id.contains('/'),
                None => true,
            },
        },
        !k.name.contains(' '),
    ensures
        spec_parse_service_key(spec_key_string(k)) == k,
{
    reveal_strlit("/");
    reveal_strlit(" ");
    assert("/"@.len() == 1);
    assert("/"@[0] == '/');
    assert(" "@.len() == 1);
    assert(" "@[0] == ' ');
    let s = spec_key_string(k);
    let tail = match k.instance_id {
        Some(id) => " "@ + id,
        None => Seq::<char>::empty(),
    };
    match k.namespace {
        Some(ns) => {
            assert(s =~= ns + "/"@ + (k.name + tail));
            assert(s[ns.len() as int] == '/');
            assert forall|j: int| 0 <= j < ns.len() implies s[j] != '/' by {
                assert(s[j] == ns[j]);
                if ns[j] == '/' {
                    assert(ns.contains('/'));
                }
            }
            lemma_first_index_at(s, '/', ns.len() as int);
            assert(s.take(ns.len() as int) =~= ns);
            let rest = s.skip(ns.len() as int + 1);
            assert(rest =~= k.name + tail);
            lemma_split_name(k.name, k.instance_id, rest);
            match k.instance_id {
                Some(id) => {
                    assert(spec_parse_service_key(s) == k);
                },
                None => {
                    assert(spec_parse_service_key(s) == k);
                },
            }
        },
        None => {
            assert(s =~= k.name + tail);
            assert forall|j: int| 0 <= j < s.len() implies s[j] != '/' by {
                if j < k.name.len() {
                    assert(s[j] == k.name[j]);
                    if k.name[j] == '/' {
                        assert(k.name.contains('/'));
                    }
                } else {
                    match k.instance_id {
                        Some(id) => {
                            if j == k.name.len() {
                                assert(s[j] == ' ');
                            } else {
                                assert(s[j] == id[j - k.name.len() - 1]);
                                if id[j - k.name.len() - 1] == '/' {
                                    assert(id.contains('/'));
                                }
                            }
                        },
                        None => {},
                    }
                }
            }
            lemma_first_index_absent(s, '/');
            lemma_split_name(k.name, k.instance_id, s);
            assert(spec_parse_service_key(s) == k);
        },
    }
}

impl TableKey for OperationKey {
    /// Structural equality, deciding equality of the views.
    fn key_eq(&self, other: &OperationKey) -> (r: bool)
        ensures
            r == (self@ == other@),
    {
        self.service_key.key_eq(&other.service_key)
            && self.operation_name.0 == other.operation_name.0
    }

    /// A copy with the same view.
    fn dup(&self) -> (r: OperationKey)
        ensures
            r@ == self@,
    {
        OperationKey {
            service_key: self.service_key.dup(),
            operation_name: OperationName(self.operation_name.0.clone()),
        }
    }
}

} // verus!
