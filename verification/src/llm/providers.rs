//! The adapters that a configuration sets up.
//!
//! The mock adapter is always there, under `mock`. Every other segment of the
//! adapters' configuration is an OpenAI-compatible endpoint, mounted as its own
//! adapter.

use crate::json;
use crate::json::Json;
use crate::llm::openai::OpenAiAdapter;
use crate::llm::runtime::LlmRuntime;
use crate::text;
use crate::text::str_eq;
use crate::types::llm::LlmError;
use vstd::prelude::*;

#[allow(unused_imports)]
use crate::json::JsonView;
#[allow(unused_imports)]
use crate::llm::openai;
#[allow(unused_imports)]
use crate::llm::openai::OpenAiView;
#[allow(unused_imports)]
use crate::llm::runtime;
#[allow(unused_imports)]
use crate::llm::runtime::RouteView;
#[allow(unused_imports)]
use crate::ordered_map;
#[allow(unused_imports)]
use crate::types::llm::LlmErrorView;

verus! {

/// Whether every element is a string.
pub open spec fn all_texts(values: Seq<JsonView>) -> bool {
    forall|i: int| 0 <= i < values.len() ==> (#[trigger] values[i]) is Text
}

/// The provider routes that a segment of that name asks for: its list of names,
/// or its own name alone where it has no such list.
pub open spec fn routes_of_segment(name: Seq<char>, section: JsonView) -> Seq<Seq<char>> {
    match section.array_at("providers"@) {
        Some(values) => if all_texts(values) {
            Seq::new(values.len(), |i: int| values[i]->Text_0)
        } else {
            seq![name]
        },
        None => seq![name],
    }
}

/// The strings of an array of strings.
pub fn texts_of(values: &Vec<Json>) -> (r: Option<Vec<String>>)
    ensures
        match r {
            Some(v) => all_texts(json::json_views(values@)) && text::views(v@) == Seq::new(
                values@.len(),
                |i: int| json::json_views(values@)[i]->Text_0,
            ),
            None => !all_texts(json::json_views(values@)),
        },
{
    let mut out: Vec<String> = Vec::new();
    for i in 0..values.len()
        invariant
            out@.len() == i,
            forall|k: int|
                0 <= k < i ==> json::json_views(values@)[k] == JsonView::Text(
                    (#[trigger] out@[k])@,
                ),
    {
        match values[i].as_str() {
            Some(s) => {
                out.push(s.to_owned());
            },
            None => {
                assert(!(json::json_views(values@)[i as int] is Text));
                return None;
            },
        }
    }
    assert forall|k: int| 0 <= k < values@.len() implies (#[trigger] json::json_views(
        values@,
    )[k]) is Text by {
        assert(json::json_views(values@)[k] == JsonView::Text(out@[k]@));
    }
    assert(text::views(out@) =~= Seq::new(
        values@.len(),
        |i: int| json::json_views(values@)[i]->Text_0,
    ));
    Some(out)
}

/// The provider routes that a segment asks for.
pub fn segment_routes(name: &str, section: &Json) -> (r: Vec<String>)
    ensures
        text::views(r@) == routes_of_segment(name@, section@),
{
    if let Some(values) = section.array_at("providers") {
        if let Some(names) = texts_of(values) {
            return names;
        }
    }
    let mut out: Vec<String> = Vec::new();
    out.push(name.to_owned());
    assert(text::views(out@) =~= seq![name@]);
    out
}

/// The segments of the adapters' configuration, each once, in the order of
/// their names; none where it is no object.
pub fn segments(adapters: &Json) -> (r: Vec<(String, Json)>)
    ensures
        json::ordered_keys(json::json_entries(r@)),
        match adapters@ {
            JsonView::Object(m) => json::entries_map(json::json_entries(r@)) == m,
            _ => r@.len() == 0,
        },
{
    match adapters {
        Json::Object(entries) => json::settled(entries),
        _ => {
            let none = json::no_entries();
            assert(json::json_entries(none@).len() == none@.len());
            none
        },
    }
}

/// The routes of a configuration and the endpoints behind them. The mock
/// adapter has the number 0, the endpoint at position `i` the number `i + 1`.
#[derive(Debug)]
pub struct Mounted {
    pub runtime: LlmRuntime,
    pub endpoints: Vec<OpenAiAdapter>,
}

/// What a [`Mounted`] holds.
#[verifier::ext_equal]
pub struct MountedView {
    pub routes: Seq<(Seq<char>, RouteView)>,
    pub endpoints: Seq<OpenAiView>,
}

impl View for Mounted {
    type V = MountedView;

    open spec fn view(&self) -> MountedView {
        MountedView { routes: self.runtime@, endpoints: text::views(self.endpoints@) }
    }
}

/// The mock adapter alone.
pub open spec fn mock_alone() -> MountedView {
    MountedView {
        routes: runtime::routed(
            seq![],
            seq!["mock"@],
            RouteView { adapter: 0, name: "mock"@ },
        ),
        endpoints: seq![],
    }
}

/// With one more segment mounted. A route that is taken is an error.
pub open spec fn with_segment(m: MountedView, name: Seq<char>, section: JsonView) -> Result<
    MountedView,
    LlmErrorView,
> {
    if name == "mock"@ {
        Ok(m)
    } else {
        let names = routes_of_segment(name, section);
        match runtime::conflict(m.routes, names) {
            Some(p) => Err(
                runtime::coded("ROUTE_CONFLICT"@, "provider route already registered: "@ + p),
            ),
            None => Ok(
                MountedView {
                    routes: runtime::routed(
                        m.routes,
                        names,
                        RouteView {
                            adapter: (m.endpoints.len() + 1) as u64,
                            name: "openai-compatible"@,
                        },
                    ),
                    endpoints: m.endpoints.push(openai::adapter_of(section)),
                },
            ),
        }
    }
}

/// The adapters of the first `n` segments.
pub open spec fn mounted_upto(segments: Seq<(Seq<char>, JsonView)>, n: int) -> Result<
    MountedView,
    LlmErrorView,
>
    decreases n,
{
    if n <= 0 {
        Ok(mock_alone())
    } else {
        match mounted_upto(segments, n - 1) {
            Ok(m) => with_segment(m, segments[n - 1].0, segments[n - 1].1),
            Err(e) => Err(e),
        }
    }
}

fn register_all(
    runtime: &mut LlmRuntime,
    names: &Vec<String>,
    adapter: u64,
    title: &str,
) -> (r: Result<(), LlmError>)
    requires
        old(runtime).well_formed(),
    ensures
        final(runtime).well_formed(),
        match r {
            Ok(_) => runtime::conflict(old(runtime)@, text::views(names@)) is None
                && final(runtime)@ == runtime::routed(
                old(runtime)@,
                text::views(names@),
                RouteView { adapter, name: title@ },
            ),
            Err(e) => runtime::conflict(old(runtime)@, text::views(names@)) matches Some(p) && e@
                == runtime::coded(
                "ROUTE_CONFLICT"@,
                "provider route already registered: "@ + p,
            ) && final(runtime)@ == old(runtime)@,
        },
{
    let mut refs: Vec<&str> = Vec::new();
    for i in 0..names.len()
        invariant
            refs.len() == i,
            forall|k: int| 0 <= k < i ==> (#[trigger] refs@[k])@ == names@[k]@,
    {
        refs.push(names[i].as_str());
    }
    assert(text::views(refs@) =~= text::views(names@));
    runtime.register_adapter(refs.as_slice(), adapter, title)
}

/// Mounts the adapters that the segments ask for.
pub fn mount_adapters(segments: &Vec<(String, Json)>) -> (r: Result<Mounted, LlmError>)
    ensures
        match r {
            Ok(m) => m.runtime.well_formed() && mounted_upto(
                json::json_entries(segments@),
                segments@.len() as int,
            ) == Ok::<MountedView, LlmErrorView>(m@),
            Err(e) => mounted_upto(json::json_entries(segments@), segments@.len() as int) == Err::<
                MountedView,
                LlmErrorView,
            >(e@),
        },
{
    let ghost all = json::json_entries(segments@);
    let mut runtime = LlmRuntime::new();
    let mut endpoints: Vec<OpenAiAdapter> = Vec::new();
    let mut mock: Vec<String> = Vec::new();
    mock.push("mock".to_owned());
    assert(text::views(mock@) =~= seq!["mock"@]);
    assert(runtime::conflict(seq![], seq!["mock"@]) is None) by {
        reveal_with_fuel(runtime::conflict, 2);
        assert(seq!["mock"@].skip(1) =~= seq![]);
    }
    match register_all(&mut runtime, &mock, 0, "mock") {
        Ok(_) => {},
        Err(e) => return Err(e),
    }
    assert(text::views(endpoints@) =~= seq![]);
    for i in 0..segments.len()
        invariant
            all == json::json_entries(segments@),
            runtime.well_formed(),
            endpoints.len() <= i,
            mounted_upto(all, i as int) == Ok::<MountedView, LlmErrorView>(
                MountedView { routes: runtime@, endpoints: text::views(endpoints@) },
            ),
    {
        let name = segments[i].0.as_str();
        let section = &segments[i].1;
        assert(all[i as int] == (name@, section@));
        if !str_eq(name, "mock") {
            let names = segment_routes(name, section);
            let number: u64 = endpoints.len() as u64 + 1;
            let ghost before = text::views(endpoints@);
            match register_all(&mut runtime, &names, number, "openai-compatible") {
                Ok(_) => {},
                Err(e) => {
                    proof {
                        assert(mounted_upto(all, i + 1) == Err::<MountedView, LlmErrorView>(e@));
                        lemma_error_stays(all, i + 1, all.len() as int);
                    }
                    return Err(e);
                },
            }
            endpoints.push(OpenAiAdapter::new(section));
            assert(text::views(endpoints@) =~= before.push(openai::adapter_of(section@)));
        }
    }
    Ok(Mounted { runtime, endpoints })
}

proof fn lemma_error_stays(segments: Seq<(Seq<char>, JsonView)>, a: int, b: int)
    requires
        0 <= a <= b,
        mounted_upto(segments, a) is Err,
    ensures
        mounted_upto(segments, b) == mounted_upto(segments, a),
    decreases b,
{
    if a < b {
        lemma_error_stays(segments, a, b - 1);
    }
}

// ---------------------------------------------------------------------------
// laws
// ---------------------------------------------------------------------------

proof fn lemma_no_conflict(
    routes: Seq<(Seq<char>, RouteView)>,
    names: Seq<Seq<char>>,
    p: Seq<char>,
)
    requires
        runtime::conflict(routes, names) is None,
        ordered_map::lookup(routes, p) is Some,
    ensures
        !names.contains(p),
    decreases names.len(),
{
    if names.len() > 0 {
        lemma_no_conflict(routes, names.skip(1), p);
        if names.contains(p) {
            let i = choose|i: int| 0 <= i < names.len() && names[i] == p;
            if i > 0 {
                assert(names.skip(1)[i - 1] == p);
            }
        }
    }
}

/// Whatever is configured beside it, `mock` leads to the mock adapter.
pub proof fn law_mock_is_always_routed(segments: Seq<(Seq<char>, JsonView)>, n: int)
    ensures
        mounted_upto(segments, n) matches Ok(m) ==> ordered_map::distinct(m.routes)
            && ordered_map::lookup(m.routes, "mock"@) == Some(
            RouteView { adapter: 0, name: "mock"@ },
        ),
    decreases n,
{
    let mock = RouteView { adapter: 0, name: "mock"@ };
    if n <= 0 {
        let none: Seq<(Seq<char>, RouteView)> = seq![];
        runtime::law_registered_routes_resolve(none, seq!["mock"@], mock, "mock"@);
        assert(seq!["mock"@][0] == "mock"@);
        assert(seq!["mock"@].contains("mock"@));
    } else {
        law_mock_is_always_routed(segments, n - 1);
        if let Ok(m) = mounted_upto(segments, n - 1) {
            let name = segments[n - 1].0;
            let names = routes_of_segment(name, segments[n - 1].1);
            if name != "mock"@ && runtime::conflict(m.routes, names) is None {
                lemma_no_conflict(m.routes, names, "mock"@);
                runtime::law_registered_routes_resolve(
                    m.routes,
                    names,
                    RouteView {
                        adapter: (m.endpoints.len() + 1) as u64,
                        name: "openai-compatible"@,
                    },
                    "mock"@,
                );
            }
        }
    }
}

/// Whether the segment at `i` is an endpoint.
spec fn is_endpoint(e: Seq<(Seq<char>, JsonView)>, i: int) -> bool {
    e[i].0 != "mock"@
}

/// The routes that the segment at `i` asks for.
spec fn names_at(e: Seq<(Seq<char>, JsonView)>, i: int) -> Seq<Seq<char>> {
    routes_of_segment(e[i].0, e[i].1)
}

/// How many of the first `n` segments are endpoints.
spec fn endpoints_before(e: Seq<(Seq<char>, JsonView)>, n: int) -> nat
    decreases n,
{
    if n <= 0 {
        0
    } else if is_endpoint(e, n - 1) {
        endpoints_before(e, n - 1) + 1
    } else {
        endpoints_before(e, n - 1)
    }
}

/// Whether no route of the first `n` segments is asked for by two of them, and
/// none is that of the mock adapter.
spec fn apart(e: Seq<(Seq<char>, JsonView)>, n: int) -> bool {
    &&& forall|i: int, j: int, p: Seq<char>|
        #![trigger names_at(e, i).contains(p), names_at(e, j).contains(p)]
        0 <= i < j < n && is_endpoint(e, i) && is_endpoint(e, j) && names_at(e, i).contains(p)
            ==> !names_at(e, j).contains(p)
    &&& forall|i: int|
        0 <= i < n && is_endpoint(e, i) ==> !(#[trigger] names_at(e, i)).contains("mock"@)
}

/// The route to the endpoint of the segment at `i`.
spec fn route_at(e: Seq<(Seq<char>, JsonView)>, i: int) -> RouteView {
    RouteView { adapter: (endpoints_before(e, i) + 1) as u64, name: "openai-compatible"@ }
}

/// Whether every endpoint among the first `n` segments is mounted.
spec fn all_mounted(e: Seq<(Seq<char>, JsonView)>, n: int, m: MountedView) -> bool {
    &&& m.endpoints.len() == endpoints_before(e, n)
    &&& forall|i: int|
        #![trigger endpoints_before(e, i)]
        0 <= i < n && is_endpoint(e, i) ==> endpoints_before(e, i) < m.endpoints.len()
            && m.endpoints[endpoints_before(e, i) as int] == openai::adapter_of(e[i].1)
    &&& forall|i: int, p: Seq<char>|
        #![trigger names_at(e, i).contains(p)]
        0 <= i < n && is_endpoint(e, i) && names_at(e, i).contains(p) ==> ordered_map::lookup(
            m.routes,
            p,
        ) == Some(route_at(e, i))
    &&& forall|p: Seq<char>|
        #![trigger ordered_map::lookup(m.routes, p)]
        ordered_map::lookup(m.routes, p) is Some ==> p == "mock"@ || exists|i: int|
            0 <= i < n && is_endpoint(e, i) && (#[trigger] names_at(e, i)).contains(p)
}

proof fn lemma_free_names(routes: Seq<(Seq<char>, RouteView)>, names: Seq<Seq<char>>)
    requires
        forall|p: Seq<char>| names.contains(p) ==> ordered_map::lookup(routes, p) is None,
    ensures
        runtime::conflict(routes, names) is None,
    decreases names.len(),
{
    if names.len() > 0 {
        assert(names.contains(names[0]));
        assert forall|p: Seq<char>| names.skip(1).contains(p) implies ordered_map::lookup(
            routes,
            p,
        ) is None by {
            let i = choose|i: int| 0 <= i < names.skip(1).len() && names.skip(1)[i] == p;
            assert(names[i + 1] == p);
            assert(names.contains(p));
        }
        lemma_free_names(routes, names.skip(1));
    }
}

proof fn lemma_endpoints_grow(e: Seq<(Seq<char>, JsonView)>, a: int, b: int)
    requires
        0 <= a <= b,
    ensures
        endpoints_before(e, a) <= endpoints_before(e, b) <= b,
        a < b && is_endpoint(e, a) ==> endpoints_before(e, a) < endpoints_before(e, b),
    decreases b,
{
    if a < b {
        lemma_endpoints_grow(e, a, b - 1);
    } else if b > 0 {
        lemma_endpoints_grow(e, b - 1, b - 1);
    }
}

proof fn lemma_segment_mounted(e: Seq<(Seq<char>, JsonView)>, n: int, m: MountedView)
    requires
        0 < n <= e.len(),
        e.len() < u64::MAX,
        is_endpoint(e, n - 1),
        all_mounted(e, n - 1, m),
        runtime::conflict(m.routes, names_at(e, n - 1)) is None,
    ensures
        with_segment(m, e[n - 1].0, e[n - 1].1) matches Ok(after) && all_mounted(e, n, after),
{
    let names = names_at(e, n - 1);
    let route = route_at(e, n - 1);
    let after = with_segment(m, e[n - 1].0, e[n - 1].1)->Ok_0;
    assert(after.routes == runtime::routed(m.routes, names, route));
    assert forall|p: Seq<char>|
        #![trigger ordered_map::lookup(after.routes, p)]
        ordered_map::lookup(after.routes, p) == (if names.contains(p) {
            Some(route)
        } else {
            ordered_map::lookup(m.routes, p)
        }) by {
        runtime::law_registered_routes_resolve(m.routes, names, route, p);
    }
    assert forall|i: int, p: Seq<char>|
        #![trigger names_at(e, i).contains(p)]
        0 <= i < n && is_endpoint(e, i) && names_at(e, i).contains(p) implies ordered_map::lookup(
        after.routes,
        p,
    ) == Some(route_at(e, i)) by {
        if i < n - 1 {
            assert(ordered_map::lookup(m.routes, p) == Some(route_at(e, i)));
            lemma_no_conflict(m.routes, names, p);
        }
    }
    assert forall|i: int|
        #![trigger endpoints_before(e, i)]
        0 <= i < n && is_endpoint(e, i) implies endpoints_before(e, i) < after.endpoints.len()
        && after.endpoints[endpoints_before(e, i) as int] == openai::adapter_of(e[i].1) by {
        if i < n - 1 {
            lemma_endpoints_grow(e, i, n - 1);
        }
    }
    assert forall|p: Seq<char>|
        #![trigger ordered_map::lookup(after.routes, p)]
        ordered_map::lookup(after.routes, p) is Some implies p == "mock"@ || exists|i: int|
        0 <= i < n && is_endpoint(e, i) && (#[trigger] names_at(e, i)).contains(p) by {
        if names.contains(p) {
            assert(names_at(e, n - 1).contains(p));
        } else {
            assert(ordered_map::lookup(m.routes, p) is Some);
        }
    }
}

proof fn lemma_mounted(e: Seq<(Seq<char>, JsonView)>, n: int)
    requires
        0 <= n <= e.len(),
        e.len() < u64::MAX,
    ensures
        mounted_upto(e, n) is Ok <==> apart(e, n),
        mounted_upto(e, n) matches Ok(m) ==> all_mounted(e, n, m),
    decreases n,
{
    if n == 0 {
        let none: Seq<(Seq<char>, RouteView)> = seq![];
        let mock = RouteView { adapter: 0, name: "mock"@ };
        assert forall|p: Seq<char>|
            #![trigger ordered_map::lookup(mock_alone().routes, p)]
            ordered_map::lookup(mock_alone().routes, p) is Some implies p == "mock"@ by {
            runtime::law_registered_routes_resolve(none, seq!["mock"@], mock, p);
        }
    } else {
        lemma_mounted(e, n - 1);
        if let Ok(m) = mounted_upto(e, n - 1) {
            let names = names_at(e, n - 1);
            if !is_endpoint(e, n - 1) {
                assert(all_mounted(e, n, m));
            } else if runtime::conflict(m.routes, names) is None {
                lemma_segment_mounted(e, n, m);
                law_mock_is_always_routed(e, n - 1);
                lemma_no_conflict(m.routes, names, "mock"@);
                assert forall|i: int, j: int, p: Seq<char>|
                    #![trigger names_at(e, i).contains(p), names_at(e, j).contains(p)]
                    0 <= i < j < n && is_endpoint(e, i) && is_endpoint(e, j) && names_at(
                        e,
                        i,
                    ).contains(p) implies !names_at(e, j).contains(p) by {
                    if j == n - 1 {
                        assert(ordered_map::lookup(m.routes, p) == Some(route_at(e, i)));
                        lemma_no_conflict(m.routes, names, p);
                    }
                }
            } else if apart(e, n) {
                assert forall|p: Seq<char>| names.contains(p) implies ordered_map::lookup(
                    m.routes,
                    p,
                ) is None by {
                    assert(names_at(e, n - 1).contains(p));
                    if ordered_map::lookup(m.routes, p) is Some && p != "mock"@ {
                        let i = choose|i: int|
                            0 <= i < n - 1 && is_endpoint(e, i) && (#[trigger] names_at(
                                e,
                                i,
                            )).contains(p);
                        assert(names_at(e, i).contains(p));
                    }
                }
                lemma_free_names(m.routes, names);
            }
        } else {
            lemma_error_stays(e, n - 1, n);
        }
    }
}

/// Whether no route is asked for by two segments, and none is that of the mock
/// adapter. A segment of that adapter's name asks for nothing.
pub open spec fn routes_apart(segments: Map<Seq<char>, JsonView>) -> bool {
    &&& forall|k: Seq<char>, l: Seq<char>, p: Seq<char>|
        #![trigger routes_of_segment(k, segments[k]).contains(p), routes_of_segment(l, segments[l]).contains(p)]
        segments.dom().contains(k) && segments.dom().contains(l) && k != l && k != "mock"@ && l
            != "mock"@ && routes_of_segment(k, segments[k]).contains(p) ==> !routes_of_segment(
            l,
            segments[l],
        ).contains(p)
    &&& forall|k: Seq<char>|
        segments.dom().contains(k) && k != "mock"@ ==> !(#[trigger] routes_of_segment(
            k,
            segments[k],
        )).contains("mock"@)
}

/// The segments of a configuration are all mounted, unless a route is asked for
/// twice: each route that a segment asks for leads to an endpoint that the
/// segment sets up, `mock` leads to the mock adapter, and no other route is
/// there. A route that two segments ask for, or that of the mock adapter, is
/// refused.
pub proof fn law_each_segment_is_mounted(
    segments: Map<Seq<char>, JsonView>,
    e: Seq<(Seq<char>, JsonView)>,
)
    requires
        json::distinct_keys(e),
        json::entries_map(e) == segments,
        e.len() < u64::MAX,
    ensures
        mounted_upto(e, e.len() as int) is Ok <==> routes_apart(segments),
        mounted_upto(e, e.len() as int) matches Ok(m) ==> {
            &&& ordered_map::lookup(m.routes, "mock"@) == Some(
                RouteView { adapter: 0, name: "mock"@ },
            )
            &&& forall|k: Seq<char>, p: Seq<char>|
                #![trigger routes_of_segment(k, segments[k]).contains(p)]
                segments.dom().contains(k) && k != "mock"@ && routes_of_segment(
                    k,
                    segments[k],
                ).contains(p) ==> {
                    &&& ordered_map::lookup(m.routes, p) matches Some(route)
                    &&& 0 < route.adapter <= m.endpoints.len()
                    &&& m.endpoints[route.adapter - 1] == openai::adapter_of(segments[k])
                }
            &&& forall|p: Seq<char>|
                #![trigger ordered_map::lookup(m.routes, p)]
                ordered_map::lookup(m.routes, p) is Some ==> p == "mock"@ || exists|k: Seq<char>|
                    segments.dom().contains(k) && k != "mock"@ && (#[trigger] routes_of_segment(
                        k,
                        segments[k],
                    )).contains(p)
        },
{
    let n = e.len() as int;
    lemma_mounted(e, n);
    law_mock_is_always_routed(e, n);
    assert forall|i: int| 0 <= i < n implies segments.dom().contains((#[trigger] e[i]).0)
        && segments[e[i].0] == e[i].1 by {
        json::lemma_entries_lookup(e, e[i].0, i);
    }
    assert forall|k: Seq<char>| #[trigger] segments.dom().contains(k) implies exists|i: int|
        0 <= i < n && #[trigger] e[i] == (k, segments[k]) by {
        json::lemma_entry_of_key(e, k);
    }
    if apart(e, n) {
        assert forall|k: Seq<char>, l: Seq<char>, p: Seq<char>|
            #![trigger routes_of_segment(k, segments[k]).contains(p), routes_of_segment(l, segments[l]).contains(p)]
            segments.dom().contains(k) && segments.dom().contains(l) && k != l && k != "mock"@ && l
                != "mock"@ && routes_of_segment(k, segments[k]).contains(p) implies
            !routes_of_segment(l, segments[l]).contains(p) by {
            let i = choose|i: int| 0 <= i < n && #[trigger] e[i] == (k, segments[k]);
            let j = choose|j: int| 0 <= j < n && #[trigger] e[j] == (l, segments[l]);
            assert(names_at(e, i).contains(p));
            if names_at(e, j).contains(p) {
                assert(is_endpoint(e, i) && is_endpoint(e, j));
            }
        }
        assert forall|k: Seq<char>| segments.dom().contains(k) && k != "mock"@ implies !(
        #[trigger] routes_of_segment(k, segments[k])).contains("mock"@) by {
            let i = choose|i: int| 0 <= i < n && #[trigger] e[i] == (k, segments[k]);
            assert(is_endpoint(e, i));
            assert(!names_at(e, i).contains("mock"@));
        }
    }
    if routes_apart(segments) {
        assert forall|i: int, j: int, p: Seq<char>|
            #![trigger names_at(e, i).contains(p), names_at(e, j).contains(p)]
            0 <= i < j < n && is_endpoint(e, i) && is_endpoint(e, j) && names_at(e, i).contains(
                p,
            ) implies !names_at(e, j).contains(p) by {
            assert(e[i].0 != e[j].0);
            assert(routes_of_segment(e[i].0, segments[e[i].0]).contains(p));
            if names_at(e, j).contains(p) {
                assert(routes_of_segment(e[j].0, segments[e[j].0]).contains(p));
            }
        }
        assert forall|i: int| 0 <= i < n && is_endpoint(e, i) implies !(#[trigger] names_at(
            e,
            i,
        )).contains("mock"@) by {
            assert(!routes_of_segment(e[i].0, segments[e[i].0]).contains("mock"@));
        }
    }
    if let Ok(m) = mounted_upto(e, n) {
        assert forall|k: Seq<char>, p: Seq<char>|
            #![trigger routes_of_segment(k, segments[k]).contains(p)]
            segments.dom().contains(k) && k != "mock"@ && routes_of_segment(
                k,
                segments[k],
            ).contains(p) implies {
            &&& ordered_map::lookup(m.routes, p) matches Some(route)
            &&& 0 < route.adapter <= m.endpoints.len()
            &&& m.endpoints[route.adapter - 1] == openai::adapter_of(segments[k])
        } by {
            let i = choose|i: int| 0 <= i < n && #[trigger] e[i] == (k, segments[k]);
            assert(is_endpoint(e, i));
            assert(names_at(e, i).contains(p));
            lemma_endpoints_grow(e, i, n);
            assert(endpoints_before(e, i) < m.endpoints.len());
        }
        assert forall|p: Seq<char>|
            #![trigger ordered_map::lookup(m.routes, p)]
            ordered_map::lookup(m.routes, p) is Some implies p == "mock"@ || exists|k: Seq<char>|
            segments.dom().contains(k) && k != "mock"@ && (#[trigger] routes_of_segment(
                k,
                segments[k],
            )).contains(p) by {
            if p != "mock"@ {
                let i = choose|i: int|
                    0 <= i < n && is_endpoint(e, i) && (#[trigger] names_at(e, i)).contains(p);
                assert(routes_of_segment(e[i].0, segments[e[i].0]).contains(p));
            }
        }
    }
}

/// A segment asks for the routes that it lists, or for its own name where it
/// lists none or anything but names.
pub proof fn law_segment_asks_for_what_it_lists(
    name: Seq<char>,
    section: JsonView,
    names: Seq<Seq<char>>,
    i: int,
)
    ensures
        section.get("providers"@) == Some(
            JsonView::Array(Seq::new(names.len(), |k: int| JsonView::Text(names[k]))),
        ) ==> routes_of_segment(name, section) == names,
        section.get("providers"@) is None ==> routes_of_segment(name, section) == seq![name],
        section.get("providers"@) matches Some(JsonView::Array(values)) && 0 <= i < values.len()
            && !(values[i] is Text) ==> routes_of_segment(name, section) == seq![name],
{
    let listed = Seq::new(names.len(), |k: int| JsonView::Text(names[k]));
    if section.get("providers"@) == Some(JsonView::Array(listed)) {
        assert(section.array_at("providers"@) == Some(listed));
        assert(all_texts(listed));
        assert(routes_of_segment(name, section) =~= names);
    }
}

/// A segment adds one endpoint, as it is configured, behind those that are
/// there; the segment of the mock adapter adds none, and one that asks for a
/// route that is taken is refused.
pub proof fn law_segment_adds_its_endpoint(
    m: MountedView,
    name: Seq<char>,
    section: JsonView,
    taken: int,
)
    ensures
        name == "mock"@ ==> with_segment(m, name, section) == Ok::<MountedView, LlmErrorView>(m),
        name != "mock"@ ==> (with_segment(m, name, section) matches Ok(now) ==> now.endpoints
            == m.endpoints.push(openai::adapter_of(section))),
        name != "mock"@ && 0 <= taken < routes_of_segment(name, section).len()
            && ordered_map::lookup(m.routes, routes_of_segment(name, section)[taken]) is Some
            ==> with_segment(m, name, section) is Err,
{
    if name != "mock"@ && 0 <= taken < routes_of_segment(name, section).len()
        && ordered_map::lookup(m.routes, routes_of_segment(name, section)[taken]) is Some {
        runtime::law_conflict_is_a_taken_route(m.routes, routes_of_segment(name, section));
    }
}

} // verus!
