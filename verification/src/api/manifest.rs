//! Plugin manifests: the declarative contract that every plugin registers, and
//! the validation of dependency coverage.

use crate::json::Json;
use crate::text;
use crate::text::{clone_vec, concat4, str_eq};
use crate::types::llm::ToolSchema;
use vstd::prelude::*;

#[allow(unused_imports)]
use crate::json::JsonView;
#[allow(unused_imports)]
use crate::types::llm::ToolSchemaView;

verus! {

/// One service that a plugin provides.
#[derive(Debug, PartialEq)]
pub struct ServiceDecl {
    pub name: String,
    pub description: String,
}

/// What a [`ServiceDecl`] says.
#[verifier::ext_equal]
pub struct ServiceDeclView {
    pub name: Seq<char>,
    pub description: Seq<char>,
}

impl View for ServiceDecl {
    type V = ServiceDeclView;

    open spec fn view(&self) -> ServiceDeclView {
        ServiceDeclView {
            name: self.name@,
            description: self.description@,
        }
    }
}

impl Clone for ServiceDecl {
    fn clone(&self) -> (r: Self)
        ensures
            r@ == self@,
    {
        ServiceDecl {
            name: self.name.clone(),
            description: self.description.clone(),
        }
    }
}

/// The declarative contract of one plugin.
#[derive(Debug, PartialEq)]
pub struct PluginManifest {
    pub name: String,
    pub description: String,
    /// Services that the plugin provides.
    pub provided: Vec<ServiceDecl>,
    /// Names of the services that the plugin requires.
    pub required: Vec<String>,
    /// Tools that the plugin registers.
    pub tools: Vec<ToolSchema>,
    /// Raw configuration that the plugin accepts.
    pub config: Json,
}

/// What a [`PluginManifest`] says.
#[verifier::ext_equal]
pub struct PluginManifestView {
    pub name: Seq<char>,
    pub description: Seq<char>,
    pub provided: Seq<ServiceDeclView>,
    pub required: Seq<Seq<char>>,
    pub tools: Seq<ToolSchemaView>,
    pub config: JsonView,
}

impl View for PluginManifest {
    type V = PluginManifestView;

    open spec fn view(&self) -> PluginManifestView {
        PluginManifestView {
            name: self.name@,
            description: self.description@,
            provided: text::views(self.provided@),
            required: text::views(self.required@),
            tools: text::views(self.tools@),
            config: self.config@,
        }
    }
}

impl Clone for PluginManifest {
    fn clone(&self) -> (r: Self)
        ensures
            r@ == self@,
    {
        PluginManifest {
            name: self.name.clone(),
            description: self.description.clone(),
            provided: clone_vec(&self.provided),
            required: clone_vec(&self.required),
            tools: clone_vec(&self.tools),
            config: self.config.clone(),
        }
    }
}

impl PluginManifestView {
    /// The manifest that declares nothing but a name.
    pub open spec fn named(name: Seq<char>) -> PluginManifestView {
        PluginManifestView {
            name,
            description: seq![],
            provided: seq![],
            required: seq![],
            tools: seq![],
            config: JsonView::Null,
        }
    }

    /// With a description.
    pub open spec fn described(self, description: Seq<char>) -> PluginManifestView {
        PluginManifestView { description, ..self }
    }

    /// With one more service provided.
    pub open spec fn providing(self, name: Seq<char>, description: Seq<char>) -> PluginManifestView {
        PluginManifestView {
            provided: self.provided.push(ServiceDeclView { name, description }),
            ..self
        }
    }

    /// With one more service required.
    pub open spec fn requiring(self, name: Seq<char>) -> PluginManifestView {
        PluginManifestView { required: self.required.push(name), ..self }
    }

    /// Whether the plugin provides a service of that name.
    pub open spec fn offers(self, name: Seq<char>) -> bool {
        exists|i: int| 0 <= i < self.provided.len() && (#[trigger] self.provided[i]).name == name
    }
}

impl PluginManifest {
    /// A manifest that declares nothing but a name.
    pub fn new(name: &str) -> (r: Self)
        ensures
            r@ == PluginManifestView::named(name@),
    {
        let r = PluginManifest {
            name: name.to_owned(),
            description: String::new(),
            provided: Vec::new(),
            required: Vec::new(),
            tools: Vec::new(),
            config: Json::Null,
        };
        assert(r@ =~= PluginManifestView::named(name@));
        r
    }

    /// Sets the description.
    pub fn describe(self, description: &str) -> (r: Self)
        ensures
            r@ == self@.described(description@),
    {
        PluginManifest { description: description.to_owned(), ..self }
    }

    /// Declares a service that the plugin provides.
    pub fn provides(self, name: &str, description: &str) -> (r: Self)
        ensures
            r@ == self@.providing(name@, description@),
    {
        let ghost before = self@;
        let mut r = self;
        r.provided.push(
            ServiceDecl { name: name.to_owned(), description: description.to_owned() },
        );
        assert(r@ =~= before.providing(name@, description@));
        r
    }

    /// Declares a service that the plugin requires.
    pub fn require(self, name: &str) -> (r: Self)
        ensures
            r@ == self@.requiring(name@),
    {
        let ghost before = self@;
        let mut r = self;
        r.required.push(name.to_owned());
        assert(r@ =~= before.requiring(name@));
        r
    }

    /// Sets the tools that the plugin registers.
    pub fn tools(self, tools: Vec<ToolSchema>) -> (r: Self)
        ensures
            r@ == (PluginManifestView { tools: text::views(tools@), ..self@ }),
    {
        PluginManifest { tools, ..self }
    }
}

// ---------------------------------------------------------------------------
// the registry
// ---------------------------------------------------------------------------

/// Whether a plugin of that name is among `all`.
pub open spec fn names_plugin(all: Seq<PluginManifestView>, name: Seq<char>) -> bool {
    exists|i: int| 0 <= i < all.len() && (#[trigger] all[i]).name == name
}

/// The manifests with one more registered: in its place where its plugin was
/// there, else at the end.
pub open spec fn with_manifest(all: Seq<PluginManifestView>, m: PluginManifestView) -> Seq<
    PluginManifestView,
> {
    if names_plugin(all, m.name) {
        Seq::new(
            all.len(),
            |i: int|
                if all[i].name == m.name {
                    m
                } else {
                    all[i]
                },
        )
    } else {
        all.push(m)
    }
}

/// Whether no plugin stands twice.
pub open spec fn distinct_plugins(all: Seq<PluginManifestView>) -> bool {
    forall|i: int, j: int|
        0 <= i < j < all.len() ==> (#[trigger] all[i]).name != (#[trigger] all[j]).name
}

/// The services of the first `n` manifests, in order.
pub open spec fn services_upto(all: Seq<PluginManifestView>, n: int) -> Seq<ServiceDeclView>
    decreases n,
{
    if n <= 0 {
        seq![]
    } else {
        services_upto(all, n - 1) + all[n - 1].provided
    }
}

/// Whether a service of that name is among `services`.
pub open spec fn names_service(services: Seq<ServiceDeclView>, name: Seq<char>) -> bool {
    exists|i: int| 0 <= i < services.len() && (#[trigger] services[i]).name == name
}

/// The first service of each name, in order.
pub open spec fn first_of_each(services: Seq<ServiceDeclView>) -> Seq<ServiceDeclView>
    decreases services.len(),
{
    if services.len() == 0 {
        seq![]
    } else {
        let before = first_of_each(services.drop_last());
        if names_service(before, services.last().name) {
            before
        } else {
            before.push(services.last())
        }
    }
}

/// The manifest registry service.
pub trait ManifestApi: Sized {
    /// The registered manifests.
    spec fn manifests(&self) -> Seq<PluginManifestView>;

    /// Whether the registry is in order.
    spec fn well_formed(&self) -> bool;

    /// Registers one plugin's manifest (idempotent per plugin name).
    fn register(&mut self, manifest: PluginManifest)
        requires
            old(self).well_formed(),
        ensures
            final(self).well_formed(),
            final(self).manifests() == with_manifest(old(self).manifests(), manifest@),
    ;

    /// All registered manifests, in registration order.
    fn list(&self) -> (r: Vec<PluginManifest>)
        ensures
            text::views(r@) == self.manifests(),
    ;

    /// Every service that any plugin provides, once.
    fn provided_services(&self) -> (r: Vec<ServiceDecl>)
        ensures
            text::views(r@) == first_of_each(
                services_upto(self.manifests(), self.manifests().len() as int),
            ),
    ;
}

/// In-memory manifest registry.
#[derive(Debug)]
pub struct ManifestRegistry {
    manifests: Vec<PluginManifest>,
}

impl Default for ManifestRegistry {
    fn default() -> (r: Self)
        ensures
            r.manifests() == Seq::<PluginManifestView>::empty(),
            r.well_formed(),
    {
        ManifestRegistry::new()
    }
}

/// Whether any of the manifests provides a service of that name.
pub open spec fn is_provided(all: Seq<PluginManifestView>, name: Seq<char>) -> bool {
    exists|i: int| 0 <= i < all.len() && (#[trigger] all[i]).offers(name)
}

/// How an unsatisfied requirement is reported.
pub open spec fn missing_text(plugin: Seq<char>, name: Seq<char>) -> Seq<char> {
    plugin + " requires `"@ + name + "`"@
}

/// The unsatisfied ones among the first `n` requirements of a plugin.
pub open spec fn missing_in(
    all: Seq<PluginManifestView>,
    m: PluginManifestView,
    n: int,
) -> Seq<Seq<char>>
    decreases n,
{
    if n <= 0 {
        seq![]
    } else if is_provided(all, m.required[n - 1]) {
        missing_in(all, m, n - 1)
    } else {
        missing_in(all, m, n - 1).push(missing_text(m.name, m.required[n - 1]))
    }
}

/// The unsatisfied requirements of the first `n` plugins.
pub open spec fn missing_upto(all: Seq<PluginManifestView>, n: int) -> Seq<Seq<char>>
    decreases n,
{
    if n <= 0 {
        seq![]
    } else {
        missing_upto(all, n - 1) + missing_in(all, all[n - 1], all[n - 1].required.len() as int)
    }
}

/// Whether one of the manifests provides a service of that name.
fn provided_by_any(manifests: &[PluginManifest], name: &str) -> (r: bool)
    ensures
        r == is_provided(text::views(manifests@), name@),
{
    let ghost all = text::views(manifests@);
    let n: usize = manifests.len();
    for i in 0..n
        invariant
            n == manifests.len(),
            all == text::views(manifests@),
            forall|k: int| 0 <= k < i ==> !(#[trigger] all[k]).offers(name@),
    {
        let services = &manifests[i].provided;
        assert(all[i as int] == manifests@[i as int]@);
        for j in 0..services.len()
            invariant
                i < all.len(),
                all == text::views(manifests@),
                all[i as int].provided == text::views(services@),
                forall|k: int|
                    0 <= k < j ==> (#[trigger] all[i as int].provided[k]).name != name@,
        {
            assert(all[i as int].provided[j as int] == services@[j as int]@);
            if str_eq(services[j].name.as_str(), name) {
                assert(all[i as int].offers(name@));
                return true;
            }
        }
    }
    false
}

proof fn lemma_name_at(all: Seq<PluginManifestView>, m: PluginManifestView, at: int)
    requires
        distinct_plugins(all),
        0 <= at < all.len(),
        all[at].name == m.name,
    ensures
        with_manifest(all, m) == all.update(at, m),
        distinct_plugins(all.update(at, m)),
{
    assert forall|k: int| 0 <= k < all.len() && k != at implies (#[trigger] all[k]).name
        != m.name by {
        if k < at {
            assert(all[k].name != all[at].name);
        } else {
            assert(all[at].name != all[k].name);
        }
    }
    assert(with_manifest(all, m) =~= all.update(at, m));
}

impl ManifestRegistry {
    /// A registry without manifests.
    pub fn new() -> (r: Self)
        ensures
            r.manifests() == Seq::<PluginManifestView>::empty(),
            r.well_formed(),
    {
        let r = ManifestRegistry { manifests: Vec::new() };
        assert(r.manifests() =~= seq![]);
        r
    }

    /// Validates dependency coverage: every required service must be provided by
    /// at least one of the manifests. Returns what is missing.
    pub fn validate_coverage(&self, manifests: &[PluginManifest]) -> (r: Vec<String>)
        ensures
            text::views(r@) == missing_upto(text::views(manifests@), manifests@.len() as int),
    {
        let ghost all = text::views(manifests@);
        let mut missing: Vec<String> = Vec::new();
        assert(text::views(missing@) =~= seq![]);
        let n: usize = manifests.len();
        for i in 0..n
            invariant
                n == manifests.len(),
                all == text::views(manifests@),
                text::views(missing@) == missing_upto(all, i as int),
        {
            let required = &manifests[i].required;
            let ghost m = all[i as int];
            assert(m == manifests@[i as int]@);
            assert(missing_upto(all, i as int) + missing_in(all, m, 0) =~= missing_upto(
                all,
                i as int,
            ));
            for j in 0..required.len()
                invariant
                    i < n == manifests.len(),
                    all == text::views(manifests@),
                    m == all[i as int],
                    m.name == manifests@[i as int].name@,
                    m.required == text::views(required@),
                    text::views(missing@) == missing_upto(all, i as int) + missing_in(
                        all,
                        m,
                        j as int,
                    ),
            {
                assert(m.required[j as int] == required@[j as int]@);
                let ghost before = text::views(missing@);
                if !provided_by_any(manifests, required[j].as_str()) {
                    missing.push(
                        concat4(
                            manifests[i].name.as_str(),
                            " requires `",
                            required[j].as_str(),
                            "`",
                        ),
                    );
                    assert(text::views(missing@) =~= before.push(
                        missing_text(m.name, m.required[j as int]),
                    ));
                }
                assert(text::views(missing@) =~= missing_upto(all, i as int) + missing_in(
                    all,
                    m,
                    j + 1,
                ));
            }
        }
        missing
    }
}

impl ManifestApi for ManifestRegistry {
    closed spec fn manifests(&self) -> Seq<PluginManifestView> {
        text::views(self.manifests@)
    }

    closed spec fn well_formed(&self) -> bool {
        distinct_plugins(text::views(self.manifests@))
    }

    fn register(&mut self, manifest: PluginManifest) {
        let ghost all = text::views(self.manifests@);
        let mut i: usize = 0;
        while i < self.manifests.len()
            invariant
                i <= self.manifests.len(),
                all == text::views(self.manifests@),
                distinct_plugins(all),
                *self == *old(self),
                forall|k: int| 0 <= k < i ==> (#[trigger] all[k]).name != manifest@.name,
            decreases self.manifests.len() - i,
        {
            assert(all[i as int] == self.manifests@[i as int]@);
            if str_eq(self.manifests[i].name.as_str(), manifest.name.as_str()) {
                proof {
                    lemma_name_at(all, manifest@, i as int);
                }
                self.manifests.set(i, manifest);
                assert(text::views(self.manifests@) =~= all.update(i as int, manifest@));
                return;
            }
            i = i + 1;
        }
        self.manifests.push(manifest);
        assert(text::views(self.manifests@) =~= all.push(manifest@));
    }

    fn list(&self) -> (r: Vec<PluginManifest>) {
        clone_vec(&self.manifests)
    }

    fn provided_services(&self) -> (r: Vec<ServiceDecl>) {
        let ghost all = text::views(self.manifests@);
        let mut out: Vec<ServiceDecl> = Vec::new();
        assert(text::views(out@) =~= seq![]);
        for i in 0..self.manifests.len()
            invariant
                all == text::views(self.manifests@),
                text::views(out@) == first_of_each(services_upto(all, i as int)),
        {
            let services = &self.manifests[i].provided;
            let ghost before = services_upto(all, i as int);
            let ghost here = text::views(services@);
            assert(all[i as int].provided == here);
            assert(before + here.take(0) =~= before);
            for j in 0..services.len()
                invariant
                    here == text::views(services@),
                    text::views(out@) == first_of_each(before + here.take(j as int)),
            {
                let ghost now = before + here.take(j + 1);
                assert(now.drop_last() =~= before + here.take(j as int));
                assert(now.last() == here[j as int]);
                let ghost shown = text::views(out@);
                let mut seen = false;
                for k in 0..out.len()
                    invariant
                        shown == text::views(out@),
                        j < services.len(),
                        here == text::views(services@),
                        seen == exists|q: int|
                            0 <= q < k && (#[trigger] shown[q]).name == here[j as int].name,
                {
                    assert(shown[k as int] == out@[k as int]@);
                    if str_eq(out[k].name.as_str(), services[j].name.as_str()) {
                        seen = true;
                    }
                }
                if !seen {
                    out.push(services[j].clone());
                    assert(text::views(out@) =~= shown.push(here[j as int]));
                }
            }
            assert(here.take(here.len() as int) =~= here);
        }
        out
    }
}

/// Handle to the manifest registry service.
#[derive(Debug)]
pub struct ManifestService<M: ManifestApi> {
    pub inner: M,
}

impl<M: ManifestApi> ManifestService<M> {
    /// A handle to that registry.
    pub fn new(inner: M) -> (r: Self)
        ensures
            r.inner == inner,
    {
        ManifestService { inner }
    }
}

// ---------------------------------------------------------------------------
// laws
// ---------------------------------------------------------------------------

/// Registering a manifest again changes nothing.
pub proof fn law_registration_is_idempotent(all: Seq<PluginManifestView>, m: PluginManifestView)
    requires
        distinct_plugins(all),
    ensures
        with_manifest(with_manifest(all, m), m) == with_manifest(all, m),
        distinct_plugins(with_manifest(all, m)),
{
    let once = with_manifest(all, m);
    if names_plugin(all, m.name) {
        let at = choose|i: int| 0 <= i < all.len() && (#[trigger] all[i]).name == m.name;
        lemma_name_at(all, m, at);
        assert(once[at].name == m.name);
        lemma_name_at(once, m, at);
        assert(once.update(at, m) =~= once);
    } else {
        assert(once[all.len() as int].name == m.name);
        lemma_name_at(once, m, all.len() as int);
        assert(once.update(all.len() as int, m) =~= once);
    }
}

/// Nothing is missing exactly where every required service is provided.
pub proof fn law_coverage_is_exact(all: Seq<PluginManifestView>, n: int)
    requires
        0 <= n <= all.len(),
    ensures
        (missing_upto(all, n).len() == 0) == (forall|i: int, j: int|
            0 <= i < n && 0 <= j < all[i].required.len() ==> is_provided(
                all,
                #[trigger] all[i].required[j],
            )),
    decreases n,
{
    if n > 0 {
        law_coverage_is_exact(all, n - 1);
        let m = all[n - 1];
        lemma_missing_in(all, m, m.required.len() as int);
        if missing_upto(all, n).len() == 0 {
            assert(missing_in(all, m, m.required.len() as int).len() == 0);
            assert forall|i: int, j: int|
                0 <= i < n && 0 <= j < all[i].required.len() implies is_provided(
                all,
                #[trigger] all[i].required[j],
            ) by {
                if i == n - 1 {
                    assert(is_provided(all, m.required[j]));
                }
            }
        } else if missing_upto(all, n - 1).len() == 0 {
            assert(missing_in(all, m, m.required.len() as int).len() > 0);
            let j = choose|j: int|
                0 <= j < m.required.len() && !is_provided(all, #[trigger] m.required[j]);
            assert(!is_provided(all, all[n - 1].required[j]));
        }
    }
}

proof fn lemma_missing_in(all: Seq<PluginManifestView>, m: PluginManifestView, n: int)
    requires
        0 <= n <= m.required.len(),
    ensures
        (missing_in(all, m, n).len() == 0) == (forall|j: int|
            0 <= j < n ==> is_provided(all, #[trigger] m.required[j])),
    decreases n,
{
    if n > 0 {
        lemma_missing_in(all, m, n - 1);
    }
}

/// A manifest that is registered is there, in the place of the one that its
/// plugin had before, or behind all others; every other stays in its place.
pub proof fn law_registered_manifest_is_there(
    all: Seq<PluginManifestView>,
    m: PluginManifestView,
    i: int,
)
    requires
        0 <= i < all.len(),
    ensures
        with_manifest(all, m).contains(m),
        all[i].name == m.name ==> with_manifest(all, m)[i] == m && with_manifest(all, m).len()
            == all.len(),
        all[i].name != m.name ==> with_manifest(all, m)[i] == all[i],
        (forall|k: int| 0 <= k < all.len() ==> (#[trigger] all[k]).name != m.name)
            ==> with_manifest(all, m).len() == all.len() + 1 && with_manifest(all, m).last() == m,
{
    let now = with_manifest(all, m);
    if names_plugin(all, m.name) {
        let at = choose|k: int| 0 <= k < all.len() && (#[trigger] all[k]).name == m.name;
        assert(now[at] == m);
    } else {
        assert(now[all.len() as int] == m);
        assert(all[i].name != m.name);
    }
}

/// The services that are provided are listed once each: every one that a plugin
/// provides has its name there, as the first plugin declares it, and nothing
/// else is there.
pub proof fn law_services_are_listed_once(services: Seq<ServiceDeclView>, i: int)
    requires
        0 <= i < services.len(),
    ensures
        names_service(first_of_each(services), services[i].name),
        (forall|k: int| 0 <= k < i ==> (#[trigger] services[k]).name != services[i].name)
            ==> first_of_each(services).contains(services[i]),
        forall|a: int, b: int|
            0 <= a < b < first_of_each(services).len() ==> (#[trigger] first_of_each(
                services,
            )[a]).name != (#[trigger] first_of_each(services)[b]).name,
        forall|a: int|
            0 <= a < first_of_each(services).len() ==> services.contains(
                #[trigger] first_of_each(services)[a],
            ),
    decreases services.len(),
{
    let front = services.drop_last();
    let before = first_of_each(front);
    let now = first_of_each(services);
    let last = services.last();
    if front.len() > 0 {
        law_services_are_listed_once(front, if i < front.len() { i } else { 0 });
    }
    assert forall|a: int| 0 <= a < now.len() implies services.contains(#[trigger] now[a]) by {
        if a < before.len() {
            assert(now[a] == before[a]);
            assert(front.contains(before[a]));
            let k = choose|k: int| 0 <= k < front.len() && front[k] == before[a];
            assert(services[k] == now[a]);
        } else {
            assert(services[services.len() - 1] == now[a]);
        }
    }
    if names_service(before, last.name) {
        assert(now == before);
    } else {
        assert(now[before.len() as int] == last);
    }
    if i < front.len() {
        assert(front[i] == services[i]);
        let k = choose|k: int| 0 <= k < before.len() && (#[trigger] before[k]).name
            == front[i].name;
        assert(now[k] == before[k]);
        if forall|k: int| 0 <= k < i ==> (#[trigger] services[k]).name != services[i].name {
            assert forall|k: int| 0 <= k < i implies (#[trigger] front[k]).name
                != front[i].name by {
                assert(front[k] == services[k]);
            }
            let k = choose|k: int| 0 <= k < before.len() && before[k] == front[i];
            assert(now[k] == before[k]);
        }
    } else {
        if names_service(before, last.name) {
            let k = choose|k: int| 0 <= k < before.len() && (#[trigger] before[k]).name
                == last.name;
            assert(now[k].name == services[i].name);
            assert(front.contains(before[k]));
            let at = choose|at: int| 0 <= at < front.len() && front[at] == before[k];
            assert(services[at].name == services[i].name);
        } else {
            assert(now[before.len() as int].name == services[i].name);
        }
    }
}

/// Every service that a plugin provides is among those that are listed.
pub proof fn law_services_of_every_plugin_count(
    all: Seq<PluginManifestView>,
    n: int,
    i: int,
    k: int,
)
    requires
        0 <= i < n <= all.len(),
        0 <= k < all[i].provided.len(),
    ensures
        services_upto(all, n).contains(all[i].provided[k]),
    decreases n,
{
    let before = services_upto(all, n - 1);
    let now = services_upto(all, n);
    if i < n - 1 {
        law_services_of_every_plugin_count(all, n - 1, i, k);
        let at = choose|at: int| 0 <= at < before.len() && before[at] == all[i].provided[k];
        assert(now[at] == before[at]);
    } else {
        assert(now[before.len() + k] == all[i].provided[k]);
    }
}

/// Every requirement that nothing provides is reported, with the plugin that has
/// it.
pub proof fn law_missing_service_is_reported(
    all: Seq<PluginManifestView>,
    n: int,
    i: int,
    k: int,
)
    requires
        0 <= i < n <= all.len(),
        0 <= k < all[i].required.len(),
        forall|a: int, b: int|
            0 <= a < all.len() && 0 <= b < all[a].provided.len()
                ==> (#[trigger] all[a].provided[b]).name != all[i].required[k],
    ensures
        missing_upto(all, n).contains(
            all[i].name + " requires `"@ + all[i].required[k] + "`"@,
        ),
    decreases n,
{
    let before = missing_upto(all, n - 1);
    let now = missing_upto(all, n);
    let said = all[i].name + " requires `"@ + all[i].required[k] + "`"@;
    if i < n - 1 {
        law_missing_service_is_reported(all, n - 1, i, k);
        let at = choose|at: int| 0 <= at < before.len() && before[at] == said;
        assert(now[at] == said);
    } else {
        let m = all[i];
        let own = missing_in(all, m, m.required.len() as int);
        if is_provided(all, m.required[k]) {
            let a = choose|a: int| 0 <= a < all.len() && (#[trigger] all[a]).offers(m.required[k]);
            let b = choose|b: int|
                0 <= b < all[a].provided.len() && (#[trigger] all[a].provided[b]).name
                    == m.required[k];
            assert(all[a].provided[b].name != all[i].required[k]);
        }
        lemma_missing_at(all, m, m.required.len() as int, k);
        let at = choose|at: int| 0 <= at < own.len() && own[at] == said;
        assert(now[before.len() + at] == said);
    }
}

proof fn lemma_missing_at(all: Seq<PluginManifestView>, m: PluginManifestView, n: int, k: int)
    requires
        0 <= k < n <= m.required.len(),
        !is_provided(all, m.required[k]),
    ensures
        missing_in(all, m, n).contains(missing_text(m.name, m.required[k])),
    decreases n,
{
    let before = missing_in(all, m, n - 1);
    let now = missing_in(all, m, n);
    let said = missing_text(m.name, m.required[k]);
    if k < n - 1 {
        lemma_missing_at(all, m, n - 1, k);
        let at = choose|at: int| 0 <= at < before.len() && before[at] == said;
        assert(now[at] == said);
    } else {
        assert(now[before.len() as int] == said);
    }
}

/// A manifest says what it was built from, one declaration behind the other.
pub proof fn law_manifest_says_what_it_was_built_from(
    m: PluginManifestView,
    name: Seq<char>,
    said: Seq<char>,
)
    ensures
        PluginManifestView::named(name).name == name,
        PluginManifestView::named(name).provided.len() == 0,
        PluginManifestView::named(name).required.len() == 0,
        PluginManifestView::named(name).tools.len() == 0,
        m.described(said) == (PluginManifestView { description: said, ..m }),
        m.providing(name, said).provided == m.provided.push(
            ServiceDeclView { name, description: said },
        ),
        m.providing(name, said).required == m.required && m.providing(name, said).name == m.name,
        m.requiring(name).required == m.required.push(name),
        m.requiring(name).provided == m.provided && m.requiring(name).name == m.name,
        m.providing(name, said).offers(name),
{
    let now = m.providing(name, said);
    assert(now.provided[m.provided.len() as int].name == name);
}

} // verus!
