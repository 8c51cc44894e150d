//! Endpoint descriptors and the document they are folded into.

use vstd::prelude::*;
use crate::registry::Registry;
use crate::schema::{name_set, strings_view};

verus! {

/// The HTTP methods an endpoint can be bound to.
#[derive(Clone, Copy, PartialEq, Eq, Structural, Debug, Hash)]
pub enum Method {
    Get,
    Post,
    Put,
    Delete,
    Patch,
    Options,
    Head,
}

/// One described parameter of an operation.
#[derive(Debug)]
pub struct Parameter {
    /// The parameter's name.
    pub name: String,
    /// Whether the parameter must be supplied.
    pub required: bool,
    /// The name of the parameter's schema, if one is referenced.
    pub schema: Option<String>,
}

/// One response of an operation, keyed by status code.
#[derive(Debug)]
pub struct ResponseEntry {
    /// The HTTP status code the response is sent under.
    pub status: u16,
    /// The name of the response body's schema, if the body has one.
    pub schema: Option<String>,
}

/// What the documentation shows about one endpoint: its summary, its
/// parameters, its request body and response bodies as schema references,
/// and its tags.
#[derive(Debug)]
pub struct Operation {
    /// A one-line description.
    pub summary: String,
    /// The described parameters.
    pub parameters: Vec<Parameter>,
    /// The name of the request body's schema, if the operation takes one.
    pub request_body: Option<String>,
    /// The responses, one per status code.
    pub responses: Vec<ResponseEntry>,
    /// The tags the operation is grouped under.
    pub tags: Vec<String>,
}

/// Contains information about an endpoint.
#[derive(Debug)]
pub struct OperationInfo {
    /// The path of the endpoint.
    pub path: String,
    /// The HTTP method of this endpoint.
    pub method: Method,
    /// Contains information to be shown in the documentation about this
    /// endpoint.
    pub operation: Operation,
}

/// The mathematical value of a [`Parameter`].
pub struct ParameterView {
    pub name: Seq<char>,
    pub required: bool,
    pub schema: Option<Seq<char>>,
}

/// The mathematical value of a [`ResponseEntry`].
pub struct ResponseView {
    pub status: u16,
    pub schema: Option<Seq<char>>,
}

/// The mathematical value of an [`Operation`].
pub struct OperationView {
    pub summary: Seq<char>,
    pub parameters: Seq<ParameterView>,
    pub request_body: Option<Seq<char>>,
    pub responses: Seq<ResponseView>,
    pub tags: Seq<Seq<char>>,
}

/// The mathematical value of an [`OperationInfo`].
pub struct RouteView {
    pub path: Seq<char>,
    pub method: Method,
    pub operation: OperationView,
}

/// The view of an optional string.
pub open spec fn opt_string_view(o: Option<String>) -> Option<Seq<char>> {
    match o {
        Some(s) => Some(s@),
        None => None,
    }
}

/// The mathematical value of one parameter.
pub open spec fn parameter_view(p: Parameter) -> ParameterView {
    ParameterView { name: p.name@, required: p.required, schema: opt_string_view(p.schema) }
}

/// The mathematical value of one response entry.
pub open spec fn response_view(r: ResponseEntry) -> ResponseView {
    ResponseView { status: r.status, schema: opt_string_view(r.schema) }
}

/// The mathematical value of one operation.
pub open spec fn operation_view(op: Operation) -> OperationView {
    OperationView {
        summary: op.summary@,
        parameters: op.parameters@.map_values(|p: Parameter| parameter_view(p)),
        request_body: opt_string_view(op.request_body),
        responses: op.responses@.map_values(|r: ResponseEntry| response_view(r)),
        tags: strings_view(op.tags@),
    }
}

/// The mathematical value of one endpoint descriptor.
pub open spec fn route_view(r: OperationInfo) -> RouteView {
    RouteView { path: r.path@, method: r.method, operation: operation_view(r.operation) }
}

/// The mathematical values of a sequence of descriptors, in order.
pub open spec fn routes_view(s: Seq<OperationInfo>) -> Seq<RouteView> {
    s.map_values(|r: OperationInfo| route_view(r))
}

impl View for Operation {
    type V = OperationView;

    open spec fn view(&self) -> OperationView {
        operation_view(*self)
    }
}

impl View for OperationInfo {
    type V = RouteView;

    open spec fn view(&self) -> RouteView {
        route_view(*self)
    }
}

/// The key a descriptor occupies in a document: its path and method.
pub open spec fn route_key(r: RouteView) -> (Seq<char>, Method) {
    (r.path, r.method)
}

/// The path-and-method map a sequence of descriptors denotes; later
/// entries would win, though a well-formed document never holds a key
/// twice.
pub open spec fn paths_map(s: Seq<RouteView>) -> Map<(Seq<char>, Method), OperationView>
    decreases s.len(),
{
    if s.len() == 0 {
        Map::empty()
    } else {
        paths_map(s.drop_last()).insert(route_key(s.last()), s.last().operation)
    }
}

/// Every descriptor's key is in the map's domain.
pub proof fn lemma_paths_map_contains(s: Seq<RouteView>, i: int)
    requires
        0 <= i < s.len(),
    ensures
        paths_map(s).dom().contains(route_key(s[i])),
    decreases s.len(),
{
    if i < s.len() - 1 {
        assert(s.drop_last()[i] == s[i]);
        lemma_paths_map_contains(s.drop_last(), i);
    }
}

/// A key no descriptor occupies is not in the map's domain.
pub proof fn lemma_paths_map_absent(s: Seq<RouteView>, k: (Seq<char>, Method))
    requires
        forall|i: int| 0 <= i < s.len() ==> #[trigger] route_key(s[i]) != k,
    ensures
        !paths_map(s).dom().contains(k),
    decreases s.len(),
{
    if s.len() > 0 {
        assert forall|i: int| 0 <= i < s.drop_last().len() implies #[trigger] route_key(
            s.drop_last()[i],
        ) != k by {
            assert(s.drop_last()[i] == s[i]);
        }
        lemma_paths_map_absent(s.drop_last(), k);
        assert(route_key(s[s.len() - 1]) != k);
    }
}

/// A descriptor whose key no later descriptor repeats decides the map at
/// its key.
pub proof fn lemma_paths_map_at(s: Seq<RouteView>, i: int)
    requires
        0 <= i < s.len(),
        forall|j: int| i < j < s.len() ==> route_key(s[j]) != route_key(s[i]),
    ensures
        paths_map(s).dom().contains(route_key(s[i])),
        paths_map(s)[route_key(s[i])] == s[i].operation,
    decreases s.len(),
{
    if i == s.len() - 1 {
    } else {
        assert(s.drop_last()[i] == s[i]);
        assert forall|j: int| i < j < s.drop_last().len() implies route_key(s.drop_last()[j])
            != route_key(s.drop_last()[i]) by {
            assert(s.drop_last()[j] == s[j]);
        }
        lemma_paths_map_at(s.drop_last(), i);
    }
}

/// The mathematical value of a [`Document`].
pub struct DocumentView {
    pub paths: Map<(Seq<char>, Method), OperationView>,
    pub schemas: Map<Seq<char>, crate::schema::SchemaView>,
    pub tags: Set<Seq<char>>,
}

/// One OpenAPI document: its path-and-method operations, its schema
/// registry, and its tag set.
#[derive(Debug)]
pub struct Document {
    /// The endpoint descriptors, one per path and method.
    pub paths: Vec<OperationInfo>,
    /// The schemas the operations reference.
    pub schemas: Registry,
    /// The tags the operations are grouped under.
    pub tags: Vec<String>,
}

impl View for Document {
    type V = DocumentView;

    open spec fn view(&self) -> DocumentView {
        DocumentView {
            paths: paths_map(self.route_seq()),
            schemas: self.schemas@,
            tags: name_set(self.tags@),
        }
    }
}

impl Document {
    /// The descriptors in collection order.
    pub open spec fn route_seq(&self) -> Seq<RouteView> {
        routes_view(self.paths@)
    }

    /// Well-formed: no path-and-method key is held twice, the registry is
    /// well-formed, and no tag is listed twice.
    pub open spec fn wf(&self) -> bool {
        &&& forall|i: int, j: int|
            0 <= i < j < self.route_seq().len() ==> #[trigger] route_key(self.route_seq()[i])
                != #[trigger] route_key(self.route_seq()[j])
        &&& self.schemas.wf()
        &&& forall|i: int, j: int|
            0 <= i < j < self.tags@.len() ==> #[trigger] self.tags@[i]@ != #[trigger] self.tags@[j]@
    }

    /// How many operations the document holds.
    pub fn operation_count(&self) -> (n: usize)
        ensures
            n == self.route_seq().len(),
    {
        self.paths.len()
    }

    /// Looks the operation up that a path and method are bound to.
    #[verifier::loop_isolation(false)]
    pub fn find_operation(&self, path: &String, method: Method) -> (r: Option<&Operation>)
        requires
            self.wf(),
        ensures
            match r {
                Some(op) => self@.paths.dom().contains((path@, method)) && operation_view(*op)
                    == self@.paths[(path@, method)],
                None => !self@.paths.dom().contains((path@, method)),
            },
    {
        let n = self.paths.len();
        let mut i: usize = 0;
        while i < n
            invariant
                0 <= i <= n,
                forall|j: int| 0 <= j < i ==> #[trigger] route_key(self.route_seq()[j]) != (
                    path@,
                    method,
                ),
            decreases n - i,
        {
            if self.paths[i].path == *path && self.paths[i].method == method {
                proof {
                    lemma_paths_map_at(self.route_seq(), i as int);
                }
                return Some(&self.paths[i].operation);
            }
            i += 1;
        }
        proof {
            lemma_paths_map_absent(self.route_seq(), (path@, method));
        }
        None
    }
}

/// Where the serving layer, which is outside this crate, exposes the
/// assembled document; carried through the build unchanged.
#[derive(Debug)]
pub struct OpenApiSettings {
    /// The path under which the document itself is served.
    pub json_path: String,
}

impl Default for OpenApiSettings {
    /// The conventional location of the assembled document.
    fn default() -> (r: OpenApiSettings)
        ensures
            r.json_path@ == "/openapi.json"@,
    {
        OpenApiSettings { json_path: String::from_str("/openapi.json") }
    }
}

} // verus!
