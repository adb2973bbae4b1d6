//! Routing of requests to providers.
//!
//! One adapter is registered under one or more provider routes;
//! `GenerateOptions.provider` selects the route. Adapters and live streams are
//! known here by number.

use crate::json;
use crate::json::Json;
use crate::ordered_map;
use crate::ordered_map::OrderedMap;
use crate::text;
use crate::text::{concat2, concat3, decimal_text};
use crate::types::llm;
use crate::types::llm::{LlmError, LlmFailure, LlmProviderInfo};
use vstd::prelude::*;

#[allow(unused_imports)]
use crate::json::JsonView;
#[allow(unused_imports)]
use crate::types::llm::{LlmErrorView, LlmFailureView, LlmProviderInfoView};

verus! {

/// An adapter behind a route: its number and its display name.
#[derive(Debug)]
pub struct Route {
    pub adapter: u64,
    pub name: String,
}

/// What a [`Route`] says.
#[verifier::ext_equal]
pub struct RouteView {
    pub adapter: u64,
    pub name: Seq<char>,
}

impl View for Route {
    type V = RouteView;

    open spec fn view(&self) -> RouteView {
        RouteView { adapter: self.adapter, name: self.name@ }
    }
}

/// Registry of provider routes, in registration order.
#[derive(Debug)]
pub struct LlmRuntime {
    routes: OrderedMap<Route>,
}

/// What the routes say.
pub open spec fn routes_view(e: Seq<(Seq<char>, Route)>) -> Seq<(Seq<char>, RouteView)> {
    Seq::new(e.len(), |i: int| (e[i].0, e[i].1@))
}

impl View for LlmRuntime {
    type V = Seq<(Seq<char>, RouteView)>;

    closed spec fn view(&self) -> Seq<(Seq<char>, RouteView)> {
        routes_view(self.routes@)
    }
}

/// The first of `providers` that has a route already.
pub open spec fn conflict(
    routes: Seq<(Seq<char>, RouteView)>,
    providers: Seq<Seq<char>>,
) -> Option<Seq<char>>
    decreases providers.len(),
{
    if providers.len() == 0 {
        None
    } else if ordered_map::lookup(routes, providers[0]) is Some {
        Some(providers[0])
    } else {
        conflict(routes, providers.skip(1))
    }
}

/// The routes with every one of `providers` led to `route`.
pub open spec fn routed(
    routes: Seq<(Seq<char>, RouteView)>,
    providers: Seq<Seq<char>>,
    route: RouteView,
) -> Seq<(Seq<char>, RouteView)>
    decreases providers.len(),
{
    if providers.len() == 0 {
        routes
    } else {
        ordered_map::inserted(routed(routes, providers.drop_last(), route), providers.last(), route)
    }
}

/// The routes without any of `providers`.
pub open spec fn unrouted(
    routes: Seq<(Seq<char>, RouteView)>,
    providers: Seq<Seq<char>>,
) -> Seq<(Seq<char>, RouteView)>
    decreases providers.len(),
{
    if providers.len() == 0 {
        routes
    } else {
        ordered_map::removed(unrouted(routes, providers.drop_last()), providers.last())
    }
}

/// The routes as they are listed.
pub open spec fn listed(routes: Seq<(Seq<char>, RouteView)>) -> Seq<LlmProviderInfoView> {
    Seq::new(routes.len(), |i: int| LlmProviderInfoView { id: routes[i].0, name: routes[i].1.name })
}

/// The error with a code and a message.
pub open spec fn coded(code: Seq<char>, message: Seq<char>) -> LlmErrorView {
    LlmErrorView { failure: llm::plain_failure(code, message) }
}

proof fn lemma_routes_lookup(e: Seq<(Seq<char>, Route)>, key: Seq<char>)
    ensures
        ordered_map::lookup(routes_view(e), key) == text::opt_view(ordered_map::lookup(e, key)),
    decreases e.len(),
{
    if e.len() > 0 {
        assert(routes_view(e).skip(1) =~= routes_view(e.skip(1)));
        lemma_routes_lookup(e.skip(1), key);
    }
}

proof fn lemma_routes_inserted(e: Seq<(Seq<char>, Route)>, key: Seq<char>, r: Route)
    ensures
        routes_view(ordered_map::inserted(e, key, r)) == ordered_map::inserted(
            routes_view(e),
            key,
            r@,
        ),
{
    lemma_routes_lookup(e, key);
    assert(routes_view(ordered_map::inserted(e, key, r)) =~= ordered_map::inserted(
        routes_view(e),
        key,
        r@,
    ));
}

proof fn lemma_routes_removed(e: Seq<(Seq<char>, Route)>, key: Seq<char>)
    ensures
        routes_view(ordered_map::removed(e, key)) == ordered_map::removed(routes_view(e), key),
    decreases e.len(),
{
    if e.len() > 0 {
        assert(routes_view(e).skip(1) =~= routes_view(e.skip(1)));
        lemma_routes_removed(e.skip(1), key);
        if e[0].0 != key {
            assert(routes_view(ordered_map::removed(e, key)) =~= ordered_map::removed(
                routes_view(e),
                key,
            ));
        }
    } else {
        assert(routes_view(e) =~= seq![]);
    }
}

impl LlmRuntime {
    /// No route is registered twice.
    pub closed spec fn well_formed(&self) -> bool {
        ordered_map::distinct(self.routes@)
    }

    /// A registry without routes.
    pub fn new() -> (r: Self)
        ensures
            r@ == Seq::<(Seq<char>, RouteView)>::empty(),
            r.well_formed(),
    {
        let r = LlmRuntime { routes: OrderedMap::new() };
        assert(r@ =~= seq![]);
        r
    }

    /// Registers one adapter under `providers`. Duplicate routes fail
    /// atomically.
    pub fn register_adapter(&mut self, providers: &[&str], adapter: u64, name: &str) -> (r: Result<
        (),
        LlmError,
    >)
        requires
            old(self).well_formed(),
        ensures
            final(self).well_formed(),
            match r {
                Ok(_) => conflict(old(self)@, text::views(providers@)) is None && final(self)@
                    == routed(
                    old(self)@,
                    text::views(providers@),
                    RouteView { adapter, name: name@ },
                ),
                Err(e) => conflict(old(self)@, text::views(providers@)) matches Some(p) && e@
                    == coded("ROUTE_CONFLICT"@, "provider route already registered: "@ + p)
                    && final(self)@ == old(self)@,
            },
    {
        let ghost names = text::views(providers@);
        let ghost start = self@;
        assert(names.skip(0) =~= names);
        for i in 0..providers.len()
            invariant
                names == text::views(providers@),
                *self == *old(self),
                self.well_formed(),
                start == self@,
                conflict(start, names) == conflict(start, names.skip(i as int)),
        {
            let provider: &str = providers[i];
            proof {
                lemma_routes_lookup(self.routes@, provider@);
                assert(names.skip(i as int)[0] == provider@);
                assert(names.skip(i as int).skip(1) =~= names.skip(i + 1));
            }
            if self.routes.contains_key(provider) {
                let message = concat2("provider route already registered: ", provider);
                return Err(LlmError::code("ROUTE_CONFLICT", message.as_str()));
            }
        }
        let ghost route = RouteView { adapter, name: name@ };
        assert(names.take(0) =~= seq![]);
        for i in 0..providers.len()
            invariant
                names == text::views(providers@),
                self.well_formed(),
                route == (RouteView { adapter, name: name@ }),
                self@ == routed(start, names.take(i as int), route),
        {
            let provider: &str = providers[i];
            let entry = Route { adapter, name: name.to_owned() };
            proof {
                lemma_routes_inserted(self.routes@, provider@, entry);
                assert(names.take(i + 1).drop_last() =~= names.take(i as int));
                assert(names.take(i + 1).last() == provider@);
            }
            self.routes.insert(provider, entry);
        }
        assert(names.take(names.len() as int) =~= names);
        Ok(())
    }

    /// Releases every route in `providers`.
    pub fn unregister_adapter(&mut self, providers: &[&str])
        requires
            old(self).well_formed(),
        ensures
            final(self).well_formed(),
            final(self)@ == unrouted(old(self)@, text::views(providers@)),
    {
        let ghost names = text::views(providers@);
        let ghost start = self@;
        assert(names.take(0) =~= seq![]);
        for i in 0..providers.len()
            invariant
                names == text::views(providers@),
                self.well_formed(),
                self@ == unrouted(start, names.take(i as int)),
        {
            let provider: &str = providers[i];
            proof {
                lemma_routes_removed(self.routes@, provider@);
                assert(names.take(i + 1).drop_last() =~= names.take(i as int));
                assert(names.take(i + 1).last() == provider@);
            }
            let _ = self.routes.remove(provider);
        }
        assert(names.take(names.len() as int) =~= names);
    }

    /// Live provider routes, in registration order.
    pub fn list_providers(&self) -> (r: Vec<LlmProviderInfo>)
        ensures
            text::views(r@) == listed(self@),
    {
        let mut out: Vec<LlmProviderInfo> = Vec::new();
        let n = self.routes.len();
        for i in 0..n
            invariant
                n == self.routes@.len(),
                out@.len() == i,
                forall|k: int| 0 <= k < i ==> (#[trigger] out@[k])@ == listed(self@)[k],
        {
            let (id, route) = self.routes.at(i);
            out.push(LlmProviderInfo { id: id.clone(), name: route.name.clone() });
        }
        assert(text::views(out@) =~= listed(self@));
        out
    }

    /// Whether `provider` has a route.
    pub fn has_provider(&self, provider: &str) -> (r: bool)
        requires
            self.well_formed(),
        ensures
            r == (ordered_map::lookup(self@, provider@) is Some),
    {
        proof {
            lemma_routes_lookup(self.routes@, provider@);
        }
        self.routes.contains_key(provider)
    }

    /// The number of the adapter that answers requests to `provider`.
    pub fn resolve(&self, provider: &str) -> (r: Result<u64, LlmError>)
        requires
            self.well_formed(),
        ensures
            match r {
                Ok(adapter) => ordered_map::lookup(self@, provider@) matches Some(route)
                    && route.adapter == adapter,
                Err(e) => ordered_map::lookup(self@, provider@) is None && e@ == coded(
                    "UNKNOWN_PROVIDER"@,
                    "no adapter registered for provider \""@ + provider@ + "\""@,
                ),
            },
    {
        proof {
            lemma_routes_lookup(self.routes@, provider@);
        }
        match self.routes.get(provider) {
            Some(route) => Ok(route.adapter),
            None => {
                let message = concat3("no adapter registered for provider \"", provider, "\"");
                Err(LlmError::code("UNKNOWN_PROVIDER", message.as_str()))
            },
        }
    }
}

impl Default for LlmRuntime {
    fn default() -> (r: Self)
        ensures
            r@ == Seq::<(Seq<char>, RouteView)>::empty(),
            r.well_formed(),
    {
        LlmRuntime::new()
    }
}

/// A registered route is led to its adapter, and every other route is left as
/// it was.
pub proof fn law_registered_routes_resolve(
    routes: Seq<(Seq<char>, RouteView)>,
    providers: Seq<Seq<char>>,
    route: RouteView,
    p: Seq<char>,
)
    ensures
        ordered_map::distinct(routes) ==> ordered_map::distinct(
            routed(routes, providers, route),
        ),
        ordered_map::lookup(routed(routes, providers, route), p) == (if providers.contains(p) {
            Some(route)
        } else {
            ordered_map::lookup(routes, p)
        }),
    decreases providers.len(),
{
    if providers.len() > 0 {
        let before = routed(routes, providers.drop_last(), route);
        law_registered_routes_resolve(routes, providers.drop_last(), route, p);
        if ordered_map::distinct(routes) {
            ordered_map::lemma_inserted_distinct(before, providers.last(), route);
        }
        ordered_map::law_insert_then_lookup(before, providers.last(), route, p);
        lemma_contains_split(providers, p);
    }
}

/// A released route resolves no more, and every other route is left as it was.
pub proof fn law_released_routes_do_not_resolve(
    routes: Seq<(Seq<char>, RouteView)>,
    providers: Seq<Seq<char>>,
    p: Seq<char>,
)
    ensures
        ordered_map::lookup(unrouted(routes, providers), p) == (if providers.contains(p) {
            None
        } else {
            ordered_map::lookup(routes, p)
        }),
    decreases providers.len(),
{
    if providers.len() > 0 {
        law_released_routes_do_not_resolve(routes, providers.drop_last(), p);
        ordered_map::law_remove_then_lookup(
            unrouted(routes, providers.drop_last()),
            providers.last(),
            p,
        );
        lemma_contains_split(providers, p);
    }
}

proof fn lemma_contains_split(s: Seq<Seq<char>>, x: Seq<char>)
    requires
        s.len() > 0,
    ensures
        s.contains(x) == (s.last() == x || s.drop_last().contains(x)),
{
    if s.contains(x) {
        let i = choose|i: int| 0 <= i < s.len() && s[i] == x;
        if i < s.len() - 1 {
            assert(s.drop_last()[i] == x);
        }
    }
    if s.drop_last().contains(x) {
        let i = choose|i: int| 0 <= i < s.drop_last().len() && s.drop_last()[i] == x;
        assert(s[i] == x);
    }
}

// ---------------------------------------------------------------------------
// parked streams
// ---------------------------------------------------------------------------

/// Live chunk streams parked under a process-local id, so that the JSON-only
/// event bus can hand them around. The streams are known by number.
#[derive(Debug)]
pub struct StreamTable {
    streams: OrderedMap<u64>,
    next: u64,
}

/// What a [`StreamTable`] holds.
#[verifier::ext_equal]
pub struct StreamTableView {
    pub streams: Seq<(Seq<char>, u64)>,
    pub next: u64,
}

impl View for StreamTable {
    type V = StreamTableView;

    closed spec fn view(&self) -> StreamTableView {
        StreamTableView { streams: self.streams@, next: self.next }
    }
}

/// The id of the `n`th parked stream.
pub open spec fn stream_id(n: u64) -> Seq<char> {
    "stream-"@ + text::decimal(n as nat)
}

impl StreamTable {
    /// An empty table.
    pub fn new() -> (r: Self)
        ensures
            r@ == (StreamTableView { streams: seq![], next: 0 }),
            ordered_map::distinct(r@.streams),
    {
        StreamTable { streams: OrderedMap::new(), next: 0 }
    }

    /// Parks a stream and gives it an id.
    pub fn insert(&mut self, stream: u64) -> (r: String)
        requires
            ordered_map::distinct(old(self)@.streams),
        ensures
            r@ == stream_id(old(self)@.next),
            final(self)@.streams == ordered_map::inserted(old(self)@.streams, r@, stream),
            final(self)@.next == old(self)@.next.wrapping_add(1),
            ordered_map::distinct(final(self)@.streams),
    {
        let number = decimal_text(self.next);
        let id = concat2("stream-", number.as_str());
        self.next = self.next.wrapping_add(1);
        self.streams.insert(id.as_str(), stream);
        id
    }

    /// Takes a parked stream.
    pub fn take(&mut self, id: &str) -> (r: Option<u64>)
        requires
            ordered_map::distinct(old(self)@.streams),
        ensures
            r == ordered_map::lookup(old(self)@.streams, id@),
            final(self)@ == (StreamTableView {
                streams: ordered_map::removed(old(self)@.streams, id@),
                ..old(self)@
            }),
            ordered_map::distinct(final(self)@.streams),
    {
        self.streams.remove(id)
    }
}

impl Default for StreamTable {
    fn default() -> (r: Self)
        ensures
            r@ == (StreamTableView { streams: seq![], next: 0 }),
            ordered_map::distinct(r@.streams),
    {
        StreamTable::new()
    }
}

/// A parked stream is taken once: the first `take` hands it out, and then its
/// id is unknown.
pub proof fn law_stream_is_taken_once(t: StreamTableView, stream: u64)
    ensures
        ({
            let id = stream_id(t.next);
            let parked = ordered_map::inserted(t.streams, id, stream);
            &&& ordered_map::lookup(parked, id) == Some(stream)
            &&& ordered_map::lookup(ordered_map::removed(parked, id), id) is None
        }),
{
    let id = stream_id(t.next);
    ordered_map::law_insert_then_lookup(t.streams, id, stream, id);
    ordered_map::law_remove_then_lookup(ordered_map::inserted(t.streams, id, stream), id, id);
}

// ---------------------------------------------------------------------------
// the outcome of a dispatch
// ---------------------------------------------------------------------------

/// What the `llm/stream` waterfall came back with.
#[derive(Debug, PartialEq)]
pub enum Dispatched {
    /// A parked stream.
    Stream { id: String },
    /// An error value that a listener answered with.
    Error { value: Json },
    /// Neither.
    Nothing,
}

/// Whether a value of the `llm/stream` waterfall is read as `d`.
pub open spec fn came_back(result: JsonView, d: Dispatched) -> bool {
    match d {
        Dispatched::Stream { id } => result.str_at("stream_id"@) == Some(id@),
        Dispatched::Error { value } => result.str_at("stream_id"@) is None && result.get("error"@)
            == Some(value@),
        Dispatched::Nothing => result.str_at("stream_id"@) is None && result.get("error"@) is None,
    }
}

/// Reads what the `llm/stream` waterfall came back with.
pub fn dispatched(result: &Json) -> (r: Dispatched)
    ensures
        came_back(result@, r),
{
    match result.str_at("stream_id") {
        Some(id) => Dispatched::Stream { id: id.to_owned() },
        None => match result.get("error") {
            Some(value) => Dispatched::Error { value: value.clone() },
            None => Dispatched::Nothing,
        },
    }
}

/// The failure that an error value stands for: the one it describes, or an
/// unknown one that shows the value.
pub open spec fn described_failure(
    described: Option<LlmFailureView>,
    value: JsonView,
) -> LlmFailureView {
    match described {
        Some(failure) => failure,
        None => llm::plain_failure("UNKNOWN"@, json::text_of_json(value)),
    }
}

/// The stream that a dispatch hands back, or the error that it ends in.
pub open spec fn outcome_of(
    streams: StreamTableView,
    result: Dispatched,
    described: Option<LlmFailureView>,
) -> Result<u64, LlmErrorView> {
    match result {
        Dispatched::Stream { id } => match ordered_map::lookup(streams.streams, id@) {
            Some(stream) => Ok(stream),
            None => Err(coded("STREAM_GONE"@, "stream handle already consumed"@)),
        },
        Dispatched::Error { value } => Err(
            LlmErrorView { failure: described_failure(described, value@) },
        ),
        Dispatched::Nothing => Err(
            coded("NO_STREAM"@, "llm/stream waterfall produced no stream_id"@),
        ),
    }
}

/// The parked streams after a dispatch: the one that was handed back is taken.
pub open spec fn streams_after(streams: StreamTableView, result: Dispatched) -> StreamTableView {
    match result {
        Dispatched::Stream { id } => StreamTableView {
            streams: ordered_map::removed(streams.streams, id@),
            ..streams
        },
        _ => streams,
    }
}

/// The stream that a dispatch hands back, or the error that it ends in. Where
/// the waterfall answered with an error value, `described` is the failure that
/// the value describes, if it does.
pub fn dispatch_outcome(
    streams: &mut StreamTable,
    result: &Dispatched,
    described: Option<LlmFailure>,
) -> (r: Result<u64, LlmError>)
    requires
        ordered_map::distinct(old(streams)@.streams),
    ensures
        ordered_map::distinct(final(streams)@.streams),
        final(streams)@ == streams_after(old(streams)@, *result),
        match r {
            Ok(stream) => outcome_of(old(streams)@, *result, text::opt_view(described)) == Ok::<
                u64,
                LlmErrorView,
            >(stream),
            Err(e) => outcome_of(old(streams)@, *result, text::opt_view(described)) == Err::<
                u64,
                LlmErrorView,
            >(e@),
        },
{
    match result {
        Dispatched::Stream { id } => match streams.take(id.as_str()) {
            Some(stream) => Ok(stream),
            None => Err(LlmError::code("STREAM_GONE", "stream handle already consumed")),
        },
        Dispatched::Error { value } => match described {
            Some(failure) => Err(LlmError::new(failure)),
            None => {
                let shown = json::print(value);
                Err(LlmError::code("UNKNOWN", shown.as_str()))
            },
        },
        Dispatched::Nothing => Err(
            LlmError::code("NO_STREAM", "llm/stream waterfall produced no stream_id"),
        ),
    }
}

/// A conflict is a route that is asked for and taken; routes that are all free
/// have none.
pub proof fn law_conflict_is_a_taken_route(
    routes: Seq<(Seq<char>, RouteView)>,
    providers: Seq<Seq<char>>,
)
    ensures
        match conflict(routes, providers) {
            Some(p) => providers.contains(p) && ordered_map::lookup(routes, p) is Some,
            None => forall|i: int|
                0 <= i < providers.len() ==> ordered_map::lookup(routes, #[trigger] providers[i])
                    is None,
        },
    decreases providers.len(),
{
    if providers.len() > 0 {
        let rest = providers.skip(1);
        law_conflict_is_a_taken_route(routes, rest);
        match conflict(routes, providers) {
            Some(p) => {
                if ordered_map::lookup(routes, providers[0]) is Some {
                    assert(providers[0] == p);
                } else {
                    let k = choose|k: int| 0 <= k < rest.len() && rest[k] == p;
                    assert(providers[k + 1] == p);
                }
            },
            None => {
                assert forall|i: int| 0 <= i < providers.len() implies ordered_map::lookup(
                    routes,
                    #[trigger] providers[i],
                ) is None by {
                    if i > 0 {
                        assert(rest[i - 1] == providers[i]);
                    }
                }
            },
        }
    }
}

/// The routes are listed in order, each by its provider and the name of its
/// adapter.
pub proof fn law_routes_are_listed_in_order(routes: Seq<(Seq<char>, RouteView)>, i: int)
    requires
        0 <= i < routes.len(),
    ensures
        listed(routes).len() == routes.len(),
        listed(routes)[i].id == routes[i].0,
        listed(routes)[i].name == routes[i].1.name,
{
}

/// Parked streams have ids of their own.
pub proof fn law_stream_ids_differ(n: u64, m: u64)
    ensures
        stream_id(n) == stream_id(m) <==> n == m,
        stream_id(n) == "stream-"@ + text::decimal(n as nat),
{
    if stream_id(n) == stream_id(m) {
        let k = "stream-"@.len() as int;
        assert(stream_id(n).skip(k) =~= text::decimal(n as nat));
        assert(stream_id(m).skip(k) =~= text::decimal(m as nat));
        text::lemma_decimal_injective(n as nat, m as nat);
    }
}

/// A dispatch that names a parked stream hands that stream back and takes it, so
/// that it is handed back once. One that answers with an error ends in the
/// failure it describes, and one that answers with neither is an error; both
/// leave the parked streams alone.
pub proof fn law_dispatch_hands_back_its_stream(
    t: StreamTableView,
    result: Dispatched,
    described: Option<LlmFailureView>,
    other: Seq<char>,
)
    ensures
        match result {
            Dispatched::Stream { id } => {
                &&& ordered_map::lookup(t.streams, id@) matches Some(stream) ==> outcome_of(
                    t,
                    result,
                    described,
                ) == Ok::<u64, LlmErrorView>(stream)
                &&& ordered_map::lookup(t.streams, id@) is None ==> (outcome_of(
                    t,
                    result,
                    described,
                ) matches Err(e) && e.failure.code == "STREAM_GONE"@ && e.failure.message
                    == "stream handle already consumed"@)
                &&& outcome_of(streams_after(t, result), result, described) is Err
                &&& other != id@ ==> ordered_map::lookup(streams_after(t, result).streams, other)
                    == ordered_map::lookup(t.streams, other)
            },
            Dispatched::Error { value } => {
                &&& streams_after(t, result) == t
                &&& outcome_of(t, result, described) matches Err(e) && match described {
                    Some(failure) => e.failure == failure,
                    None => e.failure.code == "UNKNOWN"@ && e.failure.message
                        == json::text_of_json(value@),
                }
            },
            Dispatched::Nothing => {
                &&& streams_after(t, result) == t
                &&& outcome_of(t, result, described) matches Err(e) && e.failure.code
                    == "NO_STREAM"@ && e.failure.message
                    == "llm/stream waterfall produced no stream_id"@
            },
        },
        streams_after(t, result).next == t.next,
{
    if let Dispatched::Stream { id } = result {
        ordered_map::law_remove_then_lookup(t.streams, id@, other);
    }
}

/// A stream that a waterfall names comes before an error that it names.
pub proof fn law_named_stream_comes_first(result: JsonView, d: Dispatched, id: Seq<char>)
    requires
        came_back(result, d),
    ensures
        result.get("stream_id"@) == Some(JsonView::Text(id)) ==> (d matches Dispatched::Stream {
            id: taken,
        } && taken@ == id),
        result.get("stream_id"@) is None && result.get("error"@) is Some
            ==> (d matches Dispatched::Error { value } && Some(value@) == result.get("error"@)),
        result.get("stream_id"@) is None && result.get("error"@) is None ==> d is Nothing,
{
}

} // verus!
