//! The MCP tools of the long-running API and the HTTP routes they call.
//!
//! The tool table fixes, for each tool, its name, description, trust ring,
//! route (method and path), path parameters, input-schema properties and
//! required fields. Each tool names one served route; its path parameters
//! are exactly the `:name` segments of that path; every path parameter is
//! a required string property; and every required field is a property of
//! the tool's input schema.

use vstd::prelude::*;

verus! {

/// One property of a tool's input schema.
#[derive(Debug, Clone)]
pub struct ToolProperty {
    pub name: String,
    /// The JSON type of the property (`string`, `integer`, `object`, ...).
    pub kind: String,
    pub description: Option<String>,
    pub required: bool,
}

/// An MCP tool: what it is called, the route it calls, its input schema and
/// the trust ring it needs.
#[derive(Debug, Clone)]
pub struct ToolSpec {
    pub name: String,
    pub description: String,
    pub method: String,
    pub path: String,
    pub properties: Vec<ToolProperty>,
    pub required: Vec<String>,
    pub min_ring: String,
    pub path_params: Vec<String>,
}

/// The (method, path) pairs the HTTP API serves, in the order the router
/// declares them.
pub open spec fn served_routes() -> Seq<(Seq<char>, Seq<char>)> {
    seq![
        ("POST"@, "/api/longrunning/heartbeat"@),
        ("POST"@, "/api/longrunning/heartbeat/beat"@),
        ("GET"@, "/api/longrunning/heartbeat/stale"@),
        ("GET"@, "/api/longrunning/checkpoint/:id"@),
        ("POST"@, "/api/longrunning/checkpoint/:id"@),
        ("DELETE"@, "/api/longrunning/checkpoint/:id/clear"@),
        ("GET"@, "/api/longrunning/progress/:id"@),
        ("GET"@, "/api/longrunning/delegation/:id"@),
        ("GET"@, "/api/longrunning/delegation/:id/children"@),
        ("GET"@, "/api/longrunning/budget/:id"@),
    ]
}

/// The view of a list of strings.
pub open spec fn texts(s: Seq<String>) -> Seq<Seq<char>> {
    s.map_values(|x: String| x@)
}

/// The routes the HTTP API serves, as (method, path).
pub fn route_table() -> (r: Vec<(String, String)>)
    ensures
        r@.len() == served_routes().len(),
        forall|k: int| 0 <= k < r@.len() ==> (#[trigger] r@[k]).0@ == served_routes()[k].0 && r@[k].1@
            == served_routes()[k].1,
{
    let mut r: Vec<(String, String)> = Vec::new();
    r.push((String::from_str("POST"), String::from_str("/api/longrunning/heartbeat")));
    r.push((String::from_str("POST"), String::from_str("/api/longrunning/heartbeat/beat")));
    r.push((String::from_str("GET"), String::from_str("/api/longrunning/heartbeat/stale")));
    r.push((String::from_str("GET"), String::from_str("/api/longrunning/checkpoint/:id")));
    r.push((String::from_str("POST"), String::from_str("/api/longrunning/checkpoint/:id")));
    r.push((String::from_str("DELETE"), String::from_str("/api/longrunning/checkpoint/:id/clear")));
    r.push((String::from_str("GET"), String::from_str("/api/longrunning/progress/:id")));
    r.push((String::from_str("GET"), String::from_str("/api/longrunning/delegation/:id")));
    r.push((String::from_str("GET"), String::from_str("/api/longrunning/delegation/:id/children")));
    r.push((String::from_str("GET"), String::from_str("/api/longrunning/budget/:id")));
    r
}

/// Reading a path up to position `i`: whether a `:name` segment is open,
/// whether the next character starts a segment, where the open parameter
/// starts, and the parameter names closed so far.
pub open spec fn scan_path(p: Seq<char>, i: nat) -> (bool, bool, int, Seq<Seq<char>>)
    decreases i,
{
    if i == 0 {
        (false, true, 0, Seq::empty())
    } else {
        let s = scan_path(p, (i - 1) as nat);
        let c = p[i - 1];
        if c == '/' {
            (
                false,
                true,
                0,
                if s.0 {
                    s.3.push(p.subrange(s.2 + 1, i - 1))
                } else {
                    s.3
                },
            )
        } else if s.1 && c == ':' {
            (true, false, i - 1, s.3)
        } else {
            (s.0, false, s.2, s.3)
        }
    }
}

/// The names of the `:name` segments of a path, in order.
pub open spec fn colon_segments(p: Seq<char>) -> Seq<Seq<char>> {
    let s = scan_path(p, p.len());
    if s.0 {
        s.3.push(p.subrange(s.2 + 1, p.len() as int))
    } else {
        s.3
    }
}

/// Over a stretch of the path without `:`, no parameter opens and no
/// name is added.
proof fn lemma_no_colon_span(p: Seq<char>, i: nat, j: nat)
    requires
        i <= j <= p.len(),
        !scan_path(p, i).0,
        forall|k: int| i <= k < j ==> p[k] != ':',
    ensures
        !scan_path(p, j).0,
        scan_path(p, j).3 == scan_path(p, i).3,
    decreases j,
{
    if j > i {
        lemma_no_colon_span(p, i, (j - 1) as nat);
    }
}

/// Inside a parameter name (no `/`), the open parameter stays open.
proof fn lemma_in_param_span(p: Seq<char>, a: nat, j: nat)
    requires
        a + 1 <= j <= p.len(),
        scan_path(p, a + 1).0,
        !scan_path(p, a + 1).1,
        forall|k: int| a + 1 <= k < j ==> p[k] != '/',
    ensures
        scan_path(p, j) == scan_path(p, a + 1),
    decreases j,
{
    if j > a + 1 {
        lemma_in_param_span(p, a, (j - 1) as nat);
    }
}

/// A path whose only `:` opens the segment `p[a + 1 .. e]` has exactly
/// that one parameter.
proof fn lemma_single_param(p: Seq<char>, a: nat, e: nat)
    requires
        0 < a,
        a + 1 < e <= p.len(),
        p[a - 1] == '/',
        p[a as int] == ':',
        forall|k: int| 0 <= k < a ==> p[k] != ':',
        forall|k: int| a < k < e ==> p[k] != '/',
        e == p.len() || (p[e as int] == '/' && forall|k: int| e < k < p.len() ==> p[k] != ':'),
    ensures
        colon_segments(p) == seq![p.subrange((a + 1) as int, e as int)],
{
    lemma_no_colon_span(p, 0, a);
    assert(scan_path(p, a).1);
    assert(scan_path(p, a + 1) == (true, false, a as int, Seq::<Seq<char>>::empty()));
    lemma_in_param_span(p, a, e);
    if e < p.len() {
        assert(scan_path(p, e + 1).3 =~= seq![p.subrange((a + 1) as int, e as int)]);
        lemma_no_colon_span(p, e + 1, p.len());
    } else {
        assert(Seq::<Seq<char>>::empty().push(p.subrange((a + 1) as int, e as int)) =~= seq![
            p.subrange((a + 1) as int, e as int),
        ]);
    }
}

/// The parameter names of each served route, in route order.
pub open spec fn route_params() -> Seq<Seq<Seq<char>>> {
    seq![
        Seq::empty(),
        Seq::empty(),
        Seq::empty(),
        seq!["id"@],
        seq!["id"@],
        seq!["id"@],
        seq!["id"@],
        seq!["id"@],
        seq!["id"@],
        seq!["id"@],
    ]
}

/// The parameters of the served routes are those of `route_params`.
pub proof fn lemma_route_params()
    ensures
        forall|k: int| 0 <= k < 10 ==> colon_segments(#[trigger] served_routes()[k].1) == route_params()[k],
{
    reveal_strlit("id");
    reveal_strlit("/api/longrunning/heartbeat");
    reveal_strlit("/api/longrunning/heartbeat/beat");
    reveal_strlit("/api/longrunning/heartbeat/stale");
    reveal_strlit("/api/longrunning/checkpoint/:id");
    reveal_strlit("/api/longrunning/checkpoint/:id/clear");
    reveal_strlit("/api/longrunning/progress/:id");
    reveal_strlit("/api/longrunning/delegation/:id");
    reveal_strlit("/api/longrunning/delegation/:id/children");
    reveal_strlit("/api/longrunning/budget/:id");
    let r = served_routes();
    assert forall|k: int| 0 <= k < 3 implies colon_segments(#[trigger] r[k].1) == route_params()[k] by {
        lemma_no_colon_span(r[k].1, 0, r[k].1.len());
    }
    lemma_single_param(r[3].1, 28, 31);
    assert(r[3].1.subrange(29, 31) =~= "id"@);
    lemma_single_param(r[4].1, 28, 31);
    assert(r[4].1.subrange(29, 31) =~= "id"@);
    lemma_single_param(r[5].1, 28, 31);
    assert(r[5].1.subrange(29, 31) =~= "id"@);
    lemma_single_param(r[6].1, 26, 29);
    assert(r[6].1.subrange(27, 29) =~= "id"@);
    lemma_single_param(r[7].1, 28, 31);
    assert(r[7].1.subrange(29, 31) =~= "id"@);
    lemma_single_param(r[8].1, 28, 31);
    assert(r[8].1.subrange(29, 31) =~= "id"@);
    lemma_single_param(r[9].1, 24, 27);
    assert(r[9].1.subrange(25, 27) =~= "id"@);
}

/// The names of the `:name` segments of `path`.
pub fn path_params_of(path: &str) -> (params: Vec<String>)
    ensures
        texts(params@) == colon_segments(path@),
{
    let n = path.unicode_len();
    let mut in_param = false;
    let mut at_start = true;
    let mut start: usize = 0;
    let mut params: Vec<String> = Vec::new();
    let mut i: usize = 0;
    while i < n
        invariant
            n == path@.len(),
            i <= n,
            start < n || !in_param,
            in_param ==> start < i,
            (in_param, at_start, start as int, texts(params@)) == scan_path(path@, i as nat),
        decreases n - i,
    {
        let c = path.get_char(i);
        let ghost before = params@;
        if c == '/' {
            if in_param {
                let name = path.substring_char(start + 1, i);
                params.push(name.to_owned());
                proof {
                    assert(texts(params@) =~= texts(before).push(path@.subrange(start + 1, i as int)));
                }
            }
            in_param = false;
            at_start = true;
            start = 0;
        } else if at_start && c == ':' {
            in_param = true;
            at_start = false;
            start = i;
        } else {
            at_start = false;
        }
        i = i + 1;
    }
    if in_param {
        let ghost before = params@;
        let name = path.substring_char(start + 1, n);
        params.push(name.to_owned());
        proof {
            assert(texts(params@) =~= texts(before).push(path@.subrange(start + 1, n as int)));
        }
    }
    params
}

/// The names of the required properties among `props`, in order.
pub open spec fn required_names(props: Seq<ToolProperty>) -> Seq<Seq<char>>
    decreases props.len(),
{
    if props.len() == 0 {
        Seq::empty()
    } else {
        let before = required_names(props.drop_last());
        if props.last().required {
            before.push(props.last().name@)
        } else {
            before
        }
    }
}

/// The names of `props`, in order.
pub open spec fn property_names(props: Seq<ToolProperty>) -> Seq<Seq<char>> {
    props.map_values(|p: ToolProperty| p.name@)
}

/// Every name in `names` is the name of one of `props`.
pub open spec fn names_covered(props: Seq<ToolProperty>, names: Seq<String>) -> bool {
    forall|r: int| 0 <= r < names.len() ==> property_names(props).contains(#[trigger] names[r]@)
}

/// A property as plain values: name, JSON type, description, required.
pub open spec fn property_view(p: ToolProperty) -> (Seq<char>, Seq<char>, Option<Seq<char>>, bool) {
    (
        p.name@,
        p.kind@,
        match p.description {
            Some(d) => Some(d@),
            None => None,
        },
        p.required,
    )
}

/// The properties of a schema as plain values, in order.
pub open spec fn properties_view(props: Seq<ToolProperty>) -> Seq<
    (Seq<char>, Seq<char>, Option<Seq<char>>, bool),
> {
    props.map_values(|p: ToolProperty| property_view(p))
}

/// The properties a tool gets for its path parameters: required strings.
pub open spec fn param_properties(names: Seq<Seq<char>>) -> Seq<
    (Seq<char>, Seq<char>, Option<Seq<char>>, bool),
> {
    names.map_values(|n: Seq<char>| (n, "string"@, None::<Seq<char>>, true))
}

/// A tool is consistent with the API: it calls a served route, its path
/// parameters are the `:name` segments of its path, its first properties are
/// its path parameters as required strings, and each required name is a
/// property.
pub open spec fn tool_consistent(t: ToolSpec) -> bool {
    &&& served_routes().contains((t.method@, t.path@))
    &&& texts(t.path_params@) == colon_segments(t.path@)
    &&& t.path_params@.len() <= t.properties@.len()
    &&& forall|k: int|
        0 <= k < t.path_params@.len() ==> (#[trigger] t.properties@[k]).name@
            == t.path_params@[k]@ && t.properties@[k].kind@ == "string"@ && t.properties@[k].required
    &&& names_covered(t.properties@, t.required@)
}

/// Builds a tool for the route `route`: its path parameters become required
/// string properties, followed by the body properties `body`.
fn make_tool(
    name: &str,
    description: &str,
    route: &(String, String),
    body: Vec<ToolProperty>,
    min_ring: &str,
) -> (t: ToolSpec)
    requires
        served_routes().contains((route.0@, route.1@)),
    ensures
        tool_consistent(t),
        t.name@ == name@,
        t.description@ == description@,
        t.method@ == route.0@,
        t.path@ == route.1@,
        t.min_ring@ == min_ring@,
        texts(t.required@) == colon_segments(route.1@) + required_names(body@),
        properties_view(t.properties@) == param_properties(colon_segments(route.1@))
            + properties_view(body@),
{
    let params = path_params_of(route.1.as_str());
    let mut properties: Vec<ToolProperty> = Vec::new();
    let mut required: Vec<String> = Vec::new();
    let mut k: usize = 0;
    while k < params.len()
        invariant
            k <= params@.len(),
            properties@.len() == k,
            texts(required@) == texts(params@.take(k as int)),
            forall|m: int|
                0 <= m < k ==> (#[trigger] properties@[m]).name@ == params@[m]@
                    && properties@[m].kind@ == "string"@ && properties@[m].required
                    && properties@[m].description is None,
        decreases params@.len() - k,
    {
        properties.push(
            ToolProperty {
                name: params[k].clone(),
                kind: String::from_str("string"),
                description: None,
                required: true,
            },
        );
        let ghost before = required@;
        required.push(params[k].clone());
        proof {
            assert(texts(required@) =~= texts(before).push(params@[k as int]@));
            assert(params@.take(k + 1) =~= params@.take(k as int).push(params@[k as int]));
            assert(texts(params@.take(k + 1)) =~= texts(params@.take(k as int)).push(
                params@[k as int]@,
            ));
        }
        k = k + 1;
    }
    proof {
        assert(params@.take(params@.len() as int) =~= params@);
        assert forall|r: int| 0 <= r < required@.len() implies required@[r]@ == params@[r]@ by {
            assert(texts(required@)[r] == required@[r]@);
            assert(texts(params@)[r] == params@[r]@);
        }
        assert forall|r: int| 0 <= r < required@.len() implies property_names(
            properties@,
        ).contains(#[trigger] required@[r]@) by {
            assert(property_names(properties@)[r] == required@[r]@);
        }
    }
    let np = params.len();
    let mut b: usize = 0;
    while b < body.len()
        invariant
            np == params@.len(),
            b <= body@.len(),
            properties@.len() == np + b,
            texts(required@) == texts(params@) + required_names(body@.take(b as int)),
            forall|m: int|
                0 <= m < np ==> (#[trigger] properties@[m]).name@ == params@[m]@
                    && properties@[m].kind@ == "string"@ && properties@[m].required
                    && properties@[m].description is None,
            forall|m: int| 0 <= m < b ==> properties@[np + m] == body@[m],
            names_covered(properties@, required@),
        decreases body@.len() - b,
    {
        let p = copy_property(&body[b]);
        let ghost before = required@;
        let ghost props_before = properties@;
        proof {
            assert(body@.take(b + 1) =~= body@.take(b as int).push(body@[b as int]));
            assert(body@.take(b + 1).drop_last() =~= body@.take(b as int));
        }
        if p.required {
            required.push(p.name.clone());
            proof {
                assert(texts(required@) =~= texts(before).push(p.name@));
            }
        }
        properties.push(p);
        proof {
            assert forall|r: int| 0 <= r < required@.len() implies property_names(
                properties@,
            ).contains(#[trigger] required@[r]@) by {
                if r < before.len() {
                    assert(property_names(props_before).contains(before[r]@));
                    let m = choose|m: int|
                        0 <= m < props_before.len() && property_names(props_before)[m]
                            == before[r]@;
                    assert(property_names(properties@)[m] == before[r]@);
                } else {
                    assert(property_names(properties@)[props_before.len() as int]
                        == required@[r]@);
                }
            }
        }
        b = b + 1;
    }
    proof {
        assert(body@.take(body@.len() as int) =~= body@);
        assert forall|m: int| 0 <= m < np implies #[trigger] texts(params@)[m] == params@[m]@ by {}
        assert(properties_view(properties@) =~= param_properties(texts(params@))
            + properties_view(body@));
    }
    let t = ToolSpec {
        name: String::from_str(name),
        description: String::from_str(description),
        method: route.0.clone(),
        path: route.1.clone(),
        properties,
        required,
        min_ring: String::from_str(min_ring),
        path_params: params,
    };
    t
}

fn copy_property(p: &ToolProperty) -> (q: ToolProperty)
    ensures
        q == *p,
{
    ToolProperty {
        name: p.name.clone(),
        kind: p.kind.clone(),
        description: match &p.description {
            Some(d) => Some(d.clone()),
            None => None,
        },
        required: p.required,
    }
}

/// A body property of the given JSON type.
fn property(name: &str, kind: &str, required: bool) -> (p: ToolProperty)
    ensures
        p.name@ == name@,
        p.kind@ == kind@,
        p.description is None,
        p.required == required,
{
    ToolProperty {
        name: String::from_str(name),
        kind: String::from_str(kind),
        description: None,
        required,
    }
}

/// The names of the tools, in order.
pub open spec fn tool_names() -> Seq<Seq<char>> {
    seq![
        "cvg_register_heartbeat"@,
        "cvg_heartbeat_beat"@,
        "cvg_stale_heartbeats"@,
        "cvg_get_checkpoint"@,
        "cvg_save_checkpoint"@,
        "cvg_clear_checkpoint"@,
        "cvg_task_progress"@,
        "cvg_get_delegation"@,
        "cvg_delegation_children"@,
        "cvg_task_budget"@,
    ]
}

/// The trust ring each tool needs, in order.
pub open spec fn tool_rings() -> Seq<Seq<char>> {
    seq![
        "trusted"@,
        "trusted"@,
        "community"@,
        "community"@,
        "trusted"@,
        "trusted"@,
        "community"@,
        "community"@,
        "community"@,
        "community"@,
    ]
}

/// The description of each tool, in order.
pub open spec fn tool_descriptions() -> Seq<Seq<char>> {
    seq![
        "Register a heartbeat for a long-running task."@,
        "Send a heartbeat beat for a long-running task."@,
        "Get stale heartbeats (tasks that stopped reporting)."@,
        "Get checkpoint data for a task."@,
        "Save a checkpoint for a long-running task."@,
        "Clear checkpoint data for a task."@,
        "Get progress of a long-running task."@,
        "Get delegation info for a long-running task."@,
        "Get child tasks of a delegation."@,
        "Get budget info for a long-running task."@,
    ]
}

/// The `id` path parameter as a property.
pub open spec fn id_property() -> (Seq<char>, Seq<char>, Option<Seq<char>>, bool) {
    ("id"@, "string"@, None, true)
}

/// The input-schema properties of each tool, in order.
pub open spec fn tool_properties() -> Seq<Seq<(Seq<char>, Seq<char>, Option<Seq<char>>, bool)>> {
    seq![
        seq![("execution_id"@, "string"@, None, true), ("interval_secs"@, "integer"@, None, true)],
        seq![("execution_id"@, "string"@, None, true)],
        Seq::empty(),
        seq![id_property()],
        seq![id_property(), ("data"@, "object"@, Some("Checkpoint data"@), false)],
        seq![id_property()],
        seq![id_property()],
        seq![id_property()],
        seq![id_property()],
        seq![id_property()],
    ]
}

/// The required fields of each tool, in order.
pub open spec fn tool_required() -> Seq<Seq<Seq<char>>> {
    seq![
        seq!["execution_id"@, "interval_secs"@],
        seq!["execution_id"@],
        Seq::empty(),
        seq!["id"@],
        seq!["id"@],
        seq!["id"@],
        seq!["id"@],
        seq!["id"@],
        seq!["id"@],
        seq!["id"@],
    ]
}

/// Tool `t` is entry `k` of the tool table.
pub open spec fn tool_matches(t: ToolSpec, k: int) -> bool {
    &&& t.name@ == tool_names()[k]
    &&& t.description@ == tool_descriptions()[k]
    &&& t.method@ == served_routes()[k].0
    &&& t.path@ == served_routes()[k].1
    &&& t.min_ring@ == tool_rings()[k]
    &&& texts(t.path_params@) == route_params()[k]
    &&& properties_view(t.properties@) == tool_properties()[k]
    &&& texts(t.required@) == tool_required()[k]
}

/// What `make_tool` promises, restated for entry `k` of the table once the
/// route's parameters are known.
proof fn lemma_made_tool_matches(t: ToolSpec, k: int, body: Seq<ToolProperty>)
    requires
        0 <= k < 10,
        t.name@ == tool_names()[k],
        t.description@ == tool_descriptions()[k],
        t.method@ == served_routes()[k].0,
        t.path@ == served_routes()[k].1,
        t.min_ring@ == tool_rings()[k],
        texts(t.path_params@) == colon_segments(t.path@),
        texts(t.required@) == colon_segments(t.path@) + required_names(body),
        properties_view(t.properties@) == param_properties(colon_segments(t.path@))
            + properties_view(body),
        param_properties(route_params()[k]) + properties_view(body) == tool_properties()[k],
        route_params()[k] + required_names(body) == tool_required()[k],
    ensures
        tool_matches(t, k),
{
    lemma_route_params();
    assert(colon_segments(served_routes()[k].1) == route_params()[k]);
}

/// Each tool calls its own route: the route at a tool's position in the
/// table is the literal method and path that tool's name stands for.
pub proof fn lemma_tools_call_their_routes()
    ensures
        forall|k: int|
            0 <= k < 10 ==> {
                let n = #[trigger] tool_names()[k];
                let r = served_routes()[k];
                &&& n == "cvg_register_heartbeat"@ ==> (r.0 == "POST"@ && r.1 == "/api/longrunning/heartbeat"@)
                &&& n == "cvg_heartbeat_beat"@ ==> (r.0 == "POST"@ && r.1 == "/api/longrunning/heartbeat/beat"@)
                &&& n == "cvg_stale_heartbeats"@ ==> (r.0 == "GET"@ && r.1 == "/api/longrunning/heartbeat/stale"@)
                &&& n == "cvg_get_checkpoint"@ ==> (r.0 == "GET"@ && r.1 == "/api/longrunning/checkpoint/:id"@)
                &&& n == "cvg_save_checkpoint"@ ==> (r.0 == "POST"@ && r.1 == "/api/longrunning/checkpoint/:id"@)
                &&& n == "cvg_clear_checkpoint"@ ==> (r.0 == "DELETE"@ && r.1 == "/api/longrunning/checkpoint/:id/clear"@)
                &&& n == "cvg_task_progress"@ ==> (r.0 == "GET"@ && r.1 == "/api/longrunning/progress/:id"@)
                &&& n == "cvg_get_delegation"@ ==> (r.0 == "GET"@ && r.1 == "/api/longrunning/delegation/:id"@)
                &&& n == "cvg_delegation_children"@ ==> (r.0 == "GET"@ && r.1 == "/api/longrunning/delegation/:id/children"@)
                &&& n == "cvg_task_budget"@ ==> (r.0 == "GET"@ && r.1 == "/api/longrunning/budget/:id"@)
            },
{
    reveal_strlit("cvg_register_heartbeat");
    reveal_strlit("cvg_heartbeat_beat");
    reveal_strlit("cvg_stale_heartbeats");
    reveal_strlit("cvg_get_checkpoint");
    reveal_strlit("cvg_save_checkpoint");
    reveal_strlit("cvg_clear_checkpoint");
    reveal_strlit("cvg_task_progress");
    reveal_strlit("cvg_get_delegation");
    reveal_strlit("cvg_delegation_children");
    reveal_strlit("cvg_task_budget");
    // names of different lengths differ
    assert("cvg_register_heartbeat"@.len() == 22);
    assert("cvg_heartbeat_beat"@.len() == 18);
    assert("cvg_stale_heartbeats"@.len() == 20);
    assert("cvg_get_checkpoint"@.len() == 18);
    assert("cvg_save_checkpoint"@.len() == 19);
    assert("cvg_clear_checkpoint"@.len() == 20);
    assert("cvg_task_progress"@.len() == 17);
    assert("cvg_get_delegation"@.len() == 18);
    assert("cvg_delegation_children"@.len() == 23);
    assert("cvg_task_budget"@.len() == 15);
    // names of equal length differ at a known position
    assert("cvg_heartbeat_beat"@[4] != "cvg_get_checkpoint"@[4]);
    assert("cvg_heartbeat_beat"@[4] != "cvg_get_delegation"@[4]);
    assert("cvg_get_checkpoint"@[8] != "cvg_get_delegation"@[8]);
    assert("cvg_stale_heartbeats"@[4] != "cvg_clear_checkpoint"@[4]);
    assert("cvg_heartbeat_beat"@ != "cvg_get_checkpoint"@);
    assert("cvg_heartbeat_beat"@ != "cvg_get_delegation"@);
    assert("cvg_get_checkpoint"@ != "cvg_get_delegation"@);
    assert("cvg_stale_heartbeats"@ != "cvg_clear_checkpoint"@);
    assert forall|k: int| 0 <= k < 10 implies {
        let n = #[trigger] tool_names()[k];
        let r = served_routes()[k];
        &&& n == "cvg_register_heartbeat"@ ==> (r.0 == "POST"@ && r.1 == "/api/longrunning/heartbeat"@)
        &&& n == "cvg_heartbeat_beat"@ ==> (r.0 == "POST"@ && r.1 == "/api/longrunning/heartbeat/beat"@)
        &&& n == "cvg_stale_heartbeats"@ ==> (r.0 == "GET"@ && r.1 == "/api/longrunning/heartbeat/stale"@)
        &&& n == "cvg_get_checkpoint"@ ==> (r.0 == "GET"@ && r.1 == "/api/longrunning/checkpoint/:id"@)
        &&& n == "cvg_save_checkpoint"@ ==> (r.0 == "POST"@ && r.1 == "/api/longrunning/checkpoint/:id"@)
        &&& n == "cvg_clear_checkpoint"@ ==> (r.0 == "DELETE"@ && r.1 == "/api/longrunning/checkpoint/:id/clear"@)
        &&& n == "cvg_task_progress"@ ==> (r.0 == "GET"@ && r.1 == "/api/longrunning/progress/:id"@)
        &&& n == "cvg_get_delegation"@ ==> (r.0 == "GET"@ && r.1 == "/api/longrunning/delegation/:id"@)
        &&& n == "cvg_delegation_children"@ ==> (r.0 == "GET"@ && r.1 == "/api/longrunning/delegation/:id/children"@)
        &&& n == "cvg_task_budget"@ ==> (r.0 == "GET"@ && r.1 == "/api/longrunning/budget/:id"@)
    } by {
        if k == 0 {
        } else if k == 1 {
        } else if k == 2 {
        } else if k == 3 {
        } else if k == 4 {
        } else if k == 5 {
        } else if k == 6 {
        } else if k == 7 {
        } else if k == 8 {
        } else {
        }
    }
}

/// The MCP tools of the long-running API: entry `k` of the tool table, which
/// calls route `k` of `served_routes`. The heartbeat registration tool takes
/// exactly the `execution_id` and `interval_secs` fields that the
/// registration route reads, and the beat tool exactly `execution_id`.
pub fn tool_specs() -> (t: Vec<ToolSpec>)
    ensures
        t@.len() == 10,
        forall|k: int| 0 <= k < t@.len() ==> tool_consistent(#[trigger] t@[k]),
        forall|k: int| 0 <= k < t@.len() ==> tool_matches(#[trigger] t@[k], k),
{
    let r = route_table();
    proof {
        assert forall|k: int| 0 <= k < 10 implies served_routes().contains(
            (r@[k].0@, r@[k].1@),
        ) by {
            assert((r@[k].0@, r@[k].1@) == served_routes()[k]);
        }
        reveal_with_fuel(required_names, 3);
    }
    let ghost no_body: Seq<ToolProperty> = Seq::empty();
    proof {
        assert(properties_view(no_body) =~= Seq::empty());
        assert(param_properties(seq!["id"@]) =~= seq![id_property()]);
        assert(param_properties(Seq::empty()) =~= Seq::empty());
        assert(seq!["id"@] + required_names(no_body) =~= seq!["id"@]);
        assert(param_properties(seq!["id"@]) + properties_view(no_body) =~= seq![id_property()]);
    }
    let mut t: Vec<ToolSpec> = Vec::new();

    let mut reg_body: Vec<ToolProperty> = Vec::new();
    reg_body.push(property("execution_id", "string", true));
    reg_body.push(property("interval_secs", "integer", true));
    let ghost reg = reg_body@;
    let t0 = make_tool(
        "cvg_register_heartbeat",
        "Register a heartbeat for a long-running task.",
        &r[0],
        reg_body,
        "trusted",
    );
    proof {
        assert(properties_view(reg) =~= tool_properties()[0]);
        assert(param_properties(route_params()[0]) + properties_view(reg) =~= tool_properties()[0]);
        assert(route_params()[0] + required_names(reg) =~= tool_required()[0]);
        lemma_made_tool_matches(t0, 0, reg);
    }
    t.push(t0);

    let mut beat_body: Vec<ToolProperty> = Vec::new();
    beat_body.push(property("execution_id", "string", true));
    let ghost beat = beat_body@;
    let t1 = make_tool(
        "cvg_heartbeat_beat",
        "Send a heartbeat beat for a long-running task.",
        &r[1],
        beat_body,
        "trusted",
    );
    proof {
        assert(properties_view(beat) =~= tool_properties()[1]);
        assert(param_properties(route_params()[1]) + properties_view(beat) =~= tool_properties()[1]);
        assert(route_params()[1] + required_names(beat) =~= tool_required()[1]);
        lemma_made_tool_matches(t1, 1, beat);
    }
    t.push(t1);

    let t2 = make_tool(
        "cvg_stale_heartbeats",
        "Get stale heartbeats (tasks that stopped reporting).",
        &r[2],
        Vec::new(),
        "community",
    );
    proof {
        assert(param_properties(route_params()[2]) + properties_view(no_body) =~= tool_properties()[2]);
        assert(route_params()[2] + required_names(no_body) =~= tool_required()[2]);
        lemma_made_tool_matches(t2, 2, no_body);
    }
    t.push(t2);

    let t3 = make_tool(
        "cvg_get_checkpoint",
        "Get checkpoint data for a task.",
        &r[3],
        Vec::new(),
        "community",
    );
    proof {
        lemma_made_tool_matches(t3, 3, no_body);
    }
    t.push(t3);

    let mut save_body: Vec<ToolProperty> = Vec::new();
    save_body.push(
        ToolProperty {
            name: String::from_str("data"),
            kind: String::from_str("object"),
            description: Some(String::from_str("Checkpoint data")),
            required: false,
        },
    );
    let ghost save = save_body@;
    let t4 = make_tool(
        "cvg_save_checkpoint",
        "Save a checkpoint for a long-running task.",
        &r[4],
        save_body,
        "trusted",
    );
    proof {
        assert(properties_view(save) =~= seq![
            ("data"@, "object"@, Some("Checkpoint data"@), false),
        ]);
        assert(param_properties(route_params()[4]) + properties_view(save) =~= tool_properties()[4]);
        assert(required_names(save) =~= Seq::empty());
        assert(route_params()[4] + required_names(save) =~= tool_required()[4]);
        lemma_made_tool_matches(t4, 4, save);
    }
    t.push(t4);

    let t5 = make_tool(
        "cvg_clear_checkpoint",
        "Clear checkpoint data for a task.",
        &r[5],
        Vec::new(),
        "trusted",
    );
    proof {
        lemma_made_tool_matches(t5, 5, no_body);
    }
    t.push(t5);

    let t6 = make_tool(
        "cvg_task_progress",
        "Get progress of a long-running task.",
        &r[6],
        Vec::new(),
        "community",
    );
    proof {
        lemma_made_tool_matches(t6, 6, no_body);
    }
    t.push(t6);

    let t7 = make_tool(
        "cvg_get_delegation",
        "Get delegation info for a long-running task.",
        &r[7],
        Vec::new(),
        "community",
    );
    proof {
        lemma_made_tool_matches(t7, 7, no_body);
    }
    t.push(t7);

    let t8 = make_tool(
        "cvg_delegation_children",
        "Get child tasks of a delegation.",
        &r[8],
        Vec::new(),
        "community",
    );
    proof {
        lemma_made_tool_matches(t8, 8, no_body);
    }
    t.push(t8);

    let t9 = make_tool(
        "cvg_task_budget",
        "Get budget info for a long-running task.",
        &r[9],
        Vec::new(),
        "community",
    );
    proof {
        lemma_made_tool_matches(t9, 9, no_body);
    }
    t.push(t9);
    proof {
        assert forall|k: int| 0 <= k < t@.len() implies tool_consistent(#[trigger] t@[k])
            && tool_matches(t@[k], k) by {
            if k == 0 {
                assert(t@[k] == t0);
            } else if k == 1 {
                assert(t@[k] == t1);
            } else if k == 2 {
                assert(t@[k] == t2);
            } else if k == 3 {
                assert(t@[k] == t3);
            } else if k == 4 {
                assert(t@[k] == t4);
            } else if k == 5 {
                assert(t@[k] == t5);
            } else if k == 6 {
                assert(t@[k] == t6);
            } else if k == 7 {
                assert(t@[k] == t7);
            } else if k == 8 {
                assert(t@[k] == t8);
            } else {
                assert(t@[k] == t9);
            }
        }
    }
    t
}

} // verus!
