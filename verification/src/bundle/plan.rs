//! What the base bundle starts, and what a profile stacks.

use crate::api::manifest::{ManifestApi, PluginManifest};
use crate::api::services::{
    AGENTS_SERVICE, LLM_SERVICE, LLM_STREAMS_SERVICE, MANIFEST_SERVICE, SESSIONS_SERVICE,
    SESSION_PERSISTENCE_SERVICE, SYSTEM_PROMPT_SERVICE, TOOLS_SERVICE,
};
use crate::bundle::config::BaseConfig;
use crate::json;
use crate::json::Json;
use crate::text;
use crate::text::{clone_opt, concat3, concat4, str_eq};
use crate::types::llm::ToolSchema;
use vstd::prelude::*;

#[allow(unused_imports)]
use crate::api::manifest;
#[allow(unused_imports)]
use crate::api::manifest::PluginManifestView;
#[allow(unused_imports)]
use crate::bundle::config;
#[allow(unused_imports)]
use crate::bundle::config::BaseConfigView;
#[allow(unused_imports)]
use crate::json::JsonView;
#[allow(unused_imports)]
use crate::types::llm::ToolSchemaView;

verus! {

/// One row of a bundle: a plugin and its configuration.
#[derive(Debug, PartialEq)]
pub struct BundleEntry {
    pub name: String,
    pub config: Option<Json>,
    /// The directory of the session store, where the plugin keeps one.
    pub store_dir: Option<String>,
}

/// What a [`BundleEntry`] says.
#[verifier::ext_equal]
pub struct BundleEntryView {
    pub name: Seq<char>,
    pub config: Option<JsonView>,
    pub store_dir: Option<Seq<char>>,
}

impl View for BundleEntry {
    type V = BundleEntryView;

    open spec fn view(&self) -> BundleEntryView {
        BundleEntryView {
            name: self.name@,
            config: text::opt_view(self.config),
            store_dir: text::opt_view(self.store_dir),
        }
    }
}

impl Clone for BundleEntry {
    fn clone(&self) -> (r: Self)
        ensures
            r@ == self@,
    {
        BundleEntry {
            name: self.name.clone(),
            config: clone_opt(&self.config),
            store_dir: clone_opt(&self.store_dir),
        }
    }
}

/// A row.
pub open spec fn row(name: Seq<char>, config: Option<JsonView>) -> BundleEntryView {
    BundleEntryView { name, config, store_dir: None }
}

/// The adapters of a configuration: its own, and the `openai` section beside
/// them where they are an object.
pub open spec fn merged_adapters(c: BaseConfigView) -> JsonView {
    let own = match c.adapters {
        Some(a) => a,
        None => json::object_of(seq![]),
    };
    match (c.openai, own) {
        (Some(section), JsonView::Object(m)) => JsonView::Object(m.insert("openai"@, section)),
        _ => own,
    }
}

/// The rows of the base bundle, in the order in which they are started: the
/// manifest registry first, the agent loop last, persistence only where a
/// directory is configured.
pub open spec fn base_rows(c: BaseConfigView) -> Seq<BundleEntryView> {
    let spine = seq![
        row("manifest"@, None),
        row("llm"@, Some(json::object_of(seq![("adapters"@, merged_adapters(c))]))),
        row("sessions"@, None),
        row("tools"@, Some(JsonView::Null)),
        row("system-prompt"@, None),
    ];
    let durable = match c.store_dir {
        Some(dir) => seq![
            BundleEntryView {
                name: "session-persistence"@,
                config: None,
                store_dir: Some(dir),
            },
        ],
        None => seq![],
    };
    spine + durable + seq![row("agent-loop"@, None)]
}

fn entry(name: &str, config: Option<Json>) -> (r: BundleEntry)
    ensures
        r@ == row(name@, text::opt_view(config)),
{
    BundleEntry { name: name.to_owned(), config, store_dir: None }
}

fn adapters_of(config: &BaseConfig) -> (r: Json)
    ensures
        r@ == merged_adapters(config@),
{
    let own = match &config.adapters {
        Some(a) => a.clone(),
        None => {
            let none = json::no_entries();
            assert(json::json_entries(none@) =~= seq![]);
            Json::object(none)
        },
    };
    match (&config.openai, own) {
        (Some(section), Json::Object(entries)) => {
            let mut entries = json::settled(&entries);
            json::set(&mut entries, "openai", section.clone());
            Json::Object(entries)
        },
        (_, own) => own,
    }
}

/// Lists what the base bundle starts, in order.
pub fn base_plan(config: &BaseConfig) -> (r: Vec<BundleEntry>)
    ensures
        text::views(r@) == base_rows(config@),
{
    let mut rows: Vec<BundleEntry> = Vec::new();
    rows.push(entry("manifest", None));
    let mut llm = json::no_entries();
    json::put(&mut llm, "adapters", adapters_of(config));
    assert(json::json_entries(llm@) =~= seq![("adapters"@, merged_adapters(config@))]);
    rows.push(entry("llm", Some(Json::object(llm))));
    rows.push(entry("sessions", None));
    rows.push(entry("tools", Some(Json::Null)));
    rows.push(entry("system-prompt", None));
    if let Some(dir) = &config.store_dir {
        rows.push(
            BundleEntry {
                name: "session-persistence".to_owned(),
                config: None,
                store_dir: Some(dir.clone()),
            },
        );
    }
    rows.push(entry("agent-loop", None));
    assert(text::views(rows@) =~= base_rows(config@));
    rows
}

/// The message where a plugin of the bundle did not start.
pub fn start_failure(name: &str, message: &str) -> (r: String)
    ensures
        r@ == "bundle plugin "@ + name@ + " failed to start: "@ + message@,
{
    concat4("bundle plugin ", name, " failed to start: ", message)
}

// ---------------------------------------------------------------------------
// profiles
// ---------------------------------------------------------------------------

/// The bundles that a profile stacks; the base bundle where it names none.
pub open spec fn profile_bundles(profile: JsonView) -> Seq<JsonView> {
    match profile.array_at("bundles"@) {
        Some(bundles) => bundles,
        None => seq![JsonView::Text("base"@)],
    }
}

/// Whether a bundle is the base bundle.
pub open spec fn is_base(bundle: JsonView) -> bool {
    bundle == JsonView::Text("base"@)
}

/// How many bundles are installed: those before the first unknown one.
pub open spec fn installed(bundles: Seq<JsonView>) -> nat
    decreases bundles.len(),
{
    if bundles.len() == 0 || !is_base(bundles[0]) {
        0
    } else {
        1 + installed(bundles.skip(1))
    }
}

/// The message of an unknown bundle.
pub open spec fn unknown_bundle(bundle: JsonView) -> Seq<char> {
    "unknown bundle \""@ + (match bundle.as_str() {
        Some(name) => name,
        None => "?"@,
    }) + "\" (supported: \"base\")"@
}

/// What a profile stacks.
#[derive(Debug, PartialEq)]
pub struct ProfilePlan {
    /// How many times the base bundle is installed.
    pub bases: usize,
    /// The configuration of the base bundle.
    pub config: BaseConfig,
    /// What is wrong with the bundle after them.
    pub error: Option<String>,
}

/// What a [`ProfilePlan`] says.
#[verifier::ext_equal]
pub struct ProfilePlanView {
    pub bases: usize,
    pub config: BaseConfigView,
    pub error: Option<Seq<char>>,
}

impl View for ProfilePlan {
    type V = ProfilePlanView;

    open spec fn view(&self) -> ProfilePlanView {
        ProfilePlanView {
            bases: self.bases,
            config: self.config@,
            error: text::opt_view(self.error),
        }
    }
}

impl Clone for ProfilePlan {
    fn clone(&self) -> (r: Self)
        ensures
            r@ == self@,
    {
        ProfilePlan {
            bases: self.bases,
            config: self.config.clone(),
            error: clone_opt(&self.error),
        }
    }
}

/// What a profile stacks.
pub open spec fn profile_plan_of(profile: JsonView) -> ProfilePlanView {
    let bundles = profile_bundles(profile);
    let n = installed(bundles);
    ProfilePlanView {
        bases: n as usize,
        config: config::config_of(
            match profile.get("config"@) {
                Some(c) => c,
                None => json::object_of(seq![]),
            },
        ),
        error: if n < bundles.len() {
            Some(unknown_bundle(bundles[n as int]))
        } else {
            None
        },
    }
}

proof fn lemma_installed(bundles: Seq<JsonView>, n: int)
    requires
        0 <= n <= bundles.len(),
        forall|k: int| 0 <= k < n ==> is_base(#[trigger] bundles[k]),
        n < bundles.len() ==> !is_base(bundles[n]),
    ensures
        installed(bundles) == n,
    decreases n,
{
    if n > 0 {
        assert(is_base(bundles[0]));
        assert forall|k: int| 0 <= k < n - 1 implies is_base(#[trigger] bundles.skip(1)[k]) by {
            assert(bundles.skip(1)[k] == bundles[k + 1]);
        }
        lemma_installed(bundles.skip(1), n - 1);
    }
}

fn count_bases(bundles: &Vec<Json>) -> (r: usize)
    ensures
        r == installed(json::json_views(bundles@)),
        r <= bundles@.len(),
{
    let ghost all = json::json_views(bundles@);
    let mut n: usize = 0;
    while n < bundles.len()
        invariant_except_break
            n <= bundles.len(),
            all == json::json_views(bundles@),
            all.len() == bundles.len(),
            forall|k: int| 0 <= k < n ==> is_base(#[trigger] all[k]),
        ensures
            n <= bundles.len(),
            all.len() == bundles.len(),
            forall|k: int| 0 <= k < n ==> is_base(#[trigger] all[k]),
            n < bundles.len() ==> !is_base(all[n as int]),
        decreases bundles.len() - n,
    {
        assert(all[n as int] == bundles@[n as int]@);
        let base = match bundles[n].as_str() {
            Some(name) => str_eq(name, "base"),
            None => false,
        };
        if !base {
            break;
        }
        n = n + 1;
    }
    proof {
        lemma_installed(all, n as int);
    }
    n
}

/// Reads what a profile stacks. The only supported bundle is `base`; an unknown
/// one is an error, once those before it were installed.
///
/// ```json
/// {
///   "bundles": ["base"],
///   "config": {
///     "store_dir": "/tmp/dsh-sessions",
///     "openai": { "base_url": "", "api_key": "" }
///   }
/// }
/// ```
pub fn profile_plan(profile: &Json) -> (r: ProfilePlan)
    ensures
        r@ == profile_plan_of(profile@),
{
    let config = match profile.get("config") {
        Some(c) => BaseConfig::from_value(c),
        None => {
            let none = json::no_entries();
            assert(json::json_entries(none@) =~= seq![]);
            BaseConfig::from_value(&Json::object(none))
        },
    };
    match profile.array_at("bundles") {
        Some(bundles) => {
            let n: usize = count_bases(bundles);
            let error: Option<String> = if n < bundles.len() {
                assert(json::json_views(bundles@)[n as int] == bundles@[n as int]@);
                let name: &str = match bundles[n].as_str() {
                    Some(name) => name,
                    None => "?",
                };
                Some(concat3("unknown bundle \"", name, "\" (supported: \"base\")"))
            } else {
                None
            };
            ProfilePlan { bases: n, config, error }
        },
        None => {
            proof {
                lemma_installed(seq![JsonView::Text("base"@)], 1);
            }
            ProfilePlan { bases: 1, config, error: None }
        },
    }
}

// ---------------------------------------------------------------------------
// manifests
// ---------------------------------------------------------------------------

/// The contract of the `manifest` plugin.
pub open spec fn manifest_manifest_of() -> PluginManifestView {
    PluginManifestView::named("manifest"@).described(
        "declarative plugin contracts and coverage validation"@,
    ).providing(MANIFEST_SERVICE@, "manifest registry (ctx.manifest)"@)
}

fn manifest_manifest() -> (r: PluginManifest)
    ensures
        r@ == manifest_manifest_of(),
{
    PluginManifest::new("manifest").describe(
        "declarative plugin contracts and coverage validation",
    ).provides(MANIFEST_SERVICE, "manifest registry (ctx.manifest)")
}

/// The contract of the `llm` plugin.
pub open spec fn llm_manifest_of() -> PluginManifestView {
    PluginManifestView::named("llm"@).described(
        "model adapters and the LLM adapter seam"@,
    ).providing(LLM_SERVICE@, "provider routing and streaming (ctx.llm)"@).providing(LLM_STREAMS_SERVICE@, "in-process stream handles"@)
}

fn llm_manifest() -> (r: PluginManifest)
    ensures
        r@ == llm_manifest_of(),
{
    PluginManifest::new("llm").describe(
        "model adapters and the LLM adapter seam",
    ).provides(LLM_SERVICE, "provider routing and streaming (ctx.llm)").provides(LLM_STREAMS_SERVICE, "in-process stream handles")
}

/// The contract of the `sessions` plugin.
pub open spec fn sessions_manifest_of() -> PluginManifestView {
    PluginManifestView::named("sessions"@).described(
        "event-sourced session log and store"@,
    ).providing(SESSIONS_SERVICE@, "session create/get/list/fork/flush"@)
}

fn sessions_manifest() -> (r: PluginManifest)
    ensures
        r@ == sessions_manifest_of(),
{
    PluginManifest::new("sessions").describe(
        "event-sourced session log and store",
    ).provides(SESSIONS_SERVICE, "session create/get/list/fork/flush")
}

/// The contract of the `session-persistence` plugin.
pub open spec fn session_persistence_manifest_of() -> PluginManifestView {
    PluginManifestView::named("session-persistence"@).described(
        "JSONL durability backend"@,
    ).providing(SESSION_PERSISTENCE_SERVICE@, "JSONL backend"@).requiring(SESSIONS_SERVICE@)
}

fn session_persistence_manifest() -> (r: PluginManifest)
    ensures
        r@ == session_persistence_manifest_of(),
{
    PluginManifest::new("session-persistence").describe(
        "JSONL durability backend",
    ).provides(SESSION_PERSISTENCE_SERVICE, "JSONL backend").require(SESSIONS_SERVICE)
}

/// The contract of the `tools` plugin.
pub open spec fn tools_manifest_of(tools: Seq<ToolSchemaView>) -> PluginManifestView {
    PluginManifestView {
        tools,
        ..PluginManifestView::named("tools"@).described(
        "scoped tool registry and guarded execution pipeline"@,
    ).providing(TOOLS_SERVICE@, "tool registry (ctx.tools)"@)
    }
}

fn tools_manifest(tools: Vec<ToolSchema>) -> (r: PluginManifest)
    ensures
        r@ == tools_manifest_of(text::views(tools@)),
{
    PluginManifest::new("tools").describe(
        "scoped tool registry and guarded execution pipeline",
    ).provides(TOOLS_SERVICE, "tool registry (ctx.tools)").tools(tools)
}

/// The contract of the `system-prompt` plugin.
pub open spec fn system_prompt_manifest_of() -> PluginManifestView {
    PluginManifestView::named("system-prompt"@).described(
        "prompt-section and variable assembly"@,
    ).providing(SYSTEM_PROMPT_SERVICE@, "system-prompt assembly (ctx.systemPrompt)"@)
}

fn system_prompt_manifest() -> (r: PluginManifest)
    ensures
        r@ == system_prompt_manifest_of(),
{
    PluginManifest::new("system-prompt").describe(
        "prompt-section and variable assembly",
    ).provides(SYSTEM_PROMPT_SERVICE, "system-prompt assembly (ctx.systemPrompt)")
}

/// The contract of the `agent-loop` plugin.
pub open spec fn agent_loop_manifest_of() -> PluginManifestView {
    PluginManifestView::named("agent-loop"@).described(
        "the default agent driver"@,
    ).providing(AGENTS_SERVICE@, "agent registry (ctx.agents)"@).requiring(SESSIONS_SERVICE@).requiring(SYSTEM_PROMPT_SERVICE@).requiring(TOOLS_SERVICE@).requiring(LLM_SERVICE@).requiring(LLM_STREAMS_SERVICE@)
}

fn agent_loop_manifest() -> (r: PluginManifest)
    ensures
        r@ == agent_loop_manifest_of(),
{
    PluginManifest::new("agent-loop").describe(
        "the default agent driver",
    ).provides(AGENTS_SERVICE, "agent registry (ctx.agents)").require(SESSIONS_SERVICE).require(SYSTEM_PROMPT_SERVICE).require(TOOLS_SERVICE).require(LLM_SERVICE).require(LLM_STREAMS_SERVICE)
}

/// The contracts of the base bundle. The contract of a plugin is what it
/// declares, whether it was started or not.
pub open spec fn base_manifests_of(tools: Seq<ToolSchemaView>) -> Seq<PluginManifestView> {
    seq![
        manifest_manifest_of(),
        llm_manifest_of(),
        sessions_manifest_of(),
        session_persistence_manifest_of(),
        tools_manifest_of(tools),
        system_prompt_manifest_of(),
        agent_loop_manifest_of(),
    ]
}

/// A registry's manifests with more registered, in order.
pub open spec fn with_manifests(
    all: Seq<PluginManifestView>,
    more: Seq<PluginManifestView>,
) -> Seq<PluginManifestView>
    decreases more.len(),
{
    if more.len() == 0 {
        all
    } else {
        manifest::with_manifest(with_manifests(all, more.drop_last()), more.last())
    }
}

/// The contracts of the base bundle, with the tools that are registered.
pub fn base_manifests(tools: Vec<ToolSchema>) -> (r: Vec<PluginManifest>)
    ensures
        text::views(r@) == base_manifests_of(text::views(tools@)),
{
    let ghost schemas = text::views(tools@);
    let mut out: Vec<PluginManifest> = Vec::new();
    out.push(manifest_manifest());
    out.push(llm_manifest());
    out.push(sessions_manifest());
    out.push(session_persistence_manifest());
    out.push(tools_manifest(tools));
    out.push(system_prompt_manifest());
    out.push(agent_loop_manifest());
    assert(text::views(out@) =~= base_manifests_of(schemas));
    out
}

/// Registers every contract of the base bundle, with the tools that are
/// registered.
pub fn register_manifests<M: ManifestApi>(registry: &mut M, tools: Vec<ToolSchema>)
    requires
        old(registry).well_formed(),
    ensures
        final(registry).well_formed(),
        final(registry).manifests() == with_manifests(
            old(registry).manifests(),
            base_manifests_of(text::views(tools@)),
        ),
{
    let ghost start = registry.manifests();
    let ghost all = base_manifests_of(text::views(tools@));
    let manifests = base_manifests(tools);
    assert(all.take(0) =~= seq![]);
    for i in 0..manifests.len()
        invariant
            all == text::views(manifests@),
            registry.well_formed(),
            registry.manifests() == with_manifests(start, all.take(i as int)),
    {
        assert(all.take(i + 1).drop_last() =~= all.take(i as int));
        assert(all.take(i + 1).last() == manifests@[i as int]@);
        registry.register(manifests[i].clone());
    }
    assert(all.take(all.len() as int) =~= all);
}

// ---------------------------------------------------------------------------
// laws
// ---------------------------------------------------------------------------

/// Every service that a plugin of the base bundle requires is provided by one
/// of its plugins.
pub proof fn law_base_bundle_is_covered(tools: Seq<ToolSchemaView>)
    ensures
        manifest::missing_upto(
            base_manifests_of(tools),
            base_manifests_of(tools).len() as int,
        ).len() == 0,
{
    let all = base_manifests_of(tools);
    assert(llm_manifest_of().provided[0].name == LLM_SERVICE@);
    assert(all[1].offers(LLM_SERVICE@));
    assert(llm_manifest_of().provided[1].name == LLM_STREAMS_SERVICE@);
    assert(all[1].offers(LLM_STREAMS_SERVICE@));
    assert(sessions_manifest_of().provided[0].name == SESSIONS_SERVICE@);
    assert(all[2].offers(SESSIONS_SERVICE@));
    assert(tools_manifest_of(tools).provided[0].name == TOOLS_SERVICE@);
    assert(all[4].offers(TOOLS_SERVICE@));
    assert(system_prompt_manifest_of().provided[0].name == SYSTEM_PROMPT_SERVICE@);
    assert(all[5].offers(SYSTEM_PROMPT_SERVICE@));
    assert forall|i: int, j: int|
        0 <= i < all.len() && 0 <= j < all[i].required.len() implies manifest::is_provided(
        all,
        #[trigger] all[i].required[j],
    ) by {
        if i == 3 {
            assert(all[3].required =~= seq![SESSIONS_SERVICE@]);
        } else if i == 6 {
            assert(all[6].required =~= seq![
                SESSIONS_SERVICE@,
                SYSTEM_PROMPT_SERVICE@,
                TOOLS_SERVICE@,
                LLM_SERVICE@,
                LLM_STREAMS_SERVICE@,
            ]);
        } else {
            assert(all[i].required.len() == 0);
        }
    }
    manifest::law_coverage_is_exact(all, all.len() as int);
}

/// The base bundle starts its plugins in an order in which the agent loop comes
/// after everything that it requires.
pub proof fn law_agent_loop_starts_last(c: BaseConfigView)
    ensures
        base_rows(c).last() == row("agent-loop"@, None),
        base_rows(c)[0] == row("manifest"@, None),
        base_rows(c).len() == (if c.store_dir is Some {
            7
        } else {
            6int
        }),
{
}

/// The adapters that are mounted are those of the configuration, with its
/// `openai` section under that name; the section takes the place of an adapter
/// of its name and leaves every other as it is.
pub proof fn law_adapters_are_merged(
    c: BaseConfigView,
    own: Map<Seq<char>, JsonView>,
    name: Seq<char>,
)
    requires
        c.adapters == Some(JsonView::Object(own)) || (c.adapters is None && own == Map::<
            Seq<char>,
            JsonView,
        >::empty()),
    ensures
        c.openai matches Some(section) ==> merged_adapters(c).get("openai"@) == Some(section),
        c.openai is None || name != "openai"@ ==> merged_adapters(c).get(name) == (
        if own.dom().contains(name) {
            Some(own[name])
        } else {
            None
        }),
{
}

/// The base bundle starts what the program is made of, each with what it is
/// configured by: the adapters for the model runtime, the directory for the
/// persistence.
pub proof fn law_base_bundle_is_configured(c: BaseConfigView)
    ensures
        ({
            let rows = base_rows(c);
            &&& rows[1].name == "llm"@
            &&& rows[1].config matches Some(v) && v.get("adapters"@) == Some(merged_adapters(c))
            &&& rows[2] == row("sessions"@, None)
            &&& rows[3] == row("tools"@, Some(JsonView::Null))
            &&& rows[4] == row("system-prompt"@, None)
            &&& c.store_dir matches Some(dir) ==> rows[5].name == "session-persistence"@
                && rows[5].store_dir == Some(dir)
            &&& c.store_dir is None ==> forall|i: int|
                0 <= i < rows.len() ==> (#[trigger] rows[i]).store_dir is None
        }),
{
    let e = seq![("adapters"@, merged_adapters(c))];
    json::law_object_holds_its_entries(e, 0);
}

/// A profile installs the bundles that it lists up to the first that is unknown,
/// which it reports by its name; without a list it installs the base bundle. Its
/// configuration is the one that it holds.
pub proof fn law_profile_installs_known_bundles(
    profile: JsonView,
    bundles: Seq<JsonView>,
    n: int,
)
    requires
        profile.get("bundles"@) == Some(JsonView::Array(bundles)) || (profile.get(
            "bundles"@,
        ) is None && bundles == seq![JsonView::Text("base"@)]),
        bundles.len() <= usize::MAX,
        0 <= n <= bundles.len(),
        forall|k: int| 0 <= k < n ==> #[trigger] bundles[k] == JsonView::Text("base"@),
        n < bundles.len() ==> bundles[n] != JsonView::Text("base"@),
    ensures
        profile_plan_of(profile).bases == n,
        n == bundles.len() ==> profile_plan_of(profile).error is None,
        n < bundles.len() ==> (bundles[n] matches JsonView::Text(name) ==> profile_plan_of(
            profile,
        ).error == Some("unknown bundle \""@ + name + "\" (supported: \"base\")"@)),
        n < bundles.len() ==> profile_plan_of(profile).error is Some,
        profile.get("config"@) matches Some(c) ==> profile_plan_of(profile).config
            == config::config_of(c),
        profile.get("config"@) is None ==> profile_plan_of(profile).config == config::no_config(),
{
    lemma_installed(bundles, n);
    let none: Seq<(Seq<char>, JsonView)> = seq![];
    assert(json::entries_map(none) =~= Map::<Seq<char>, JsonView>::empty());
}

} // verus!
