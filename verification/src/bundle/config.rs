//! Configuration of the base bundle.

use crate::cli::args::{flag, Flags};
use crate::json;
use crate::json::Json;
use crate::paths::join_path;
use crate::text;
use crate::text::{chars_of, clone_opt, concat2, concat4, str_eq};
use crate::types::agent::AgentOptions;
use vstd::prelude::*;

#[allow(unused_imports)]
use crate::cli::args;
#[allow(unused_imports)]
use crate::json::JsonView;
#[allow(unused_imports)]
use crate::paths;
#[allow(unused_imports)]
use crate::types::agent::AgentOptionsView;

verus! {

/// Configuration of the base bundle.
#[derive(Debug, PartialEq)]
pub struct BaseConfig {
    /// Session persistence directory; `None` keeps sessions in memory only.
    pub store_dir: Option<String>,
    /// OpenAI-compatible provider section.
    pub openai: Option<Json>,
    /// Additional OpenAI-compatible endpoints, one adapter per segment.
    pub adapters: Option<Json>,
    /// Default provider route for agents.
    pub default_provider: Option<String>,
    /// Default model id for agents.
    pub default_model: Option<String>,
}

/// What a [`BaseConfig`] says.
#[verifier::ext_equal]
pub struct BaseConfigView {
    pub store_dir: Option<Seq<char>>,
    pub openai: Option<JsonView>,
    pub adapters: Option<JsonView>,
    pub default_provider: Option<Seq<char>>,
    pub default_model: Option<Seq<char>>,
}

impl View for BaseConfig {
    type V = BaseConfigView;

    open spec fn view(&self) -> BaseConfigView {
        BaseConfigView {
            store_dir: text::opt_view(self.store_dir),
            openai: text::opt_view(self.openai),
            adapters: text::opt_view(self.adapters),
            default_provider: text::opt_view(self.default_provider),
            default_model: text::opt_view(self.default_model),
        }
    }
}

impl Clone for BaseConfig {
    fn clone(&self) -> (r: Self)
        ensures
            r@ == self@,
    {
        BaseConfig {
            store_dir: clone_opt(&self.store_dir),
            openai: clone_opt(&self.openai),
            adapters: clone_opt(&self.adapters),
            default_provider: clone_opt(&self.default_provider),
            default_model: clone_opt(&self.default_model),
        }
    }
}

/// The configuration that sets nothing.
pub open spec fn no_config() -> BaseConfigView {
    BaseConfigView {
        store_dir: None,
        openai: None,
        adapters: None,
        default_provider: None,
        default_model: None,
    }
}

/// The configuration that a `config` object describes. What is missing, or is
/// no text where a text is wanted, is not set.
pub open spec fn config_of(value: JsonView) -> BaseConfigView {
    BaseConfigView {
        store_dir: value.str_at("store_dir"@),
        openai: value.get("openai"@),
        adapters: value.get("adapters"@),
        default_provider: value.str_at("provider"@),
        default_model: value.str_at("model"@),
    }
}

impl Default for BaseConfig {
    fn default() -> (r: Self)
        ensures
            r@ == no_config(),
    {
        BaseConfig {
            store_dir: None,
            openai: None,
            adapters: None,
            default_provider: None,
            default_model: None,
        }
    }
}

fn owned_text(value: &Json, key: &str) -> (r: Option<String>)
    ensures
        text::opt_view(r) == value@.str_at(key@),
{
    match value.str_at(key) {
        Some(s) => Some(s.to_owned()),
        None => None,
    }
}

fn owned_value(value: &Json, key: &str) -> (r: Option<Json>)
    ensures
        text::opt_view(r) == value@.get(key@),
{
    match value.get(key) {
        Some(v) => Some(v.clone()),
        None => None,
    }
}

impl BaseConfig {
    /// Reads a `config` object (the shape used by profiles and
    /// `~/.dsh/config.json`):
    ///
    /// ```json
    /// {
    ///   "store_dir": "/tmp/dsh-sessions",
    ///   "provider": "deepseek",
    ///   "model": "deepseek-chat",
    ///   "openai": { "providers": [], "base_url": "", "api_key": "" },
    ///   "adapters": { "opencode": { "base_url": "", "api_key": "" } }
    /// }
    /// ```
    pub fn from_value(value: &Json) -> (r: BaseConfig)
        ensures
            r@ == config_of(value@),
    {
        BaseConfig {
            store_dir: owned_text(value, "store_dir"),
            openai: owned_value(value, "openai"),
            adapters: owned_value(value, "adapters"),
            default_provider: owned_text(value, "provider"),
            default_model: owned_text(value, "model"),
        }
    }
}

// ---------------------------------------------------------------------------
// where a configuration comes from
// ---------------------------------------------------------------------------

/// The files that may hold the default configuration, the first match first:
/// `$DSH_CONFIG`, `~/.dsh/config.json`, `./dsh.json`.
pub open spec fn candidates(dsh_config: Option<Seq<char>>, home: Option<Seq<char>>) -> Seq<
    Seq<char>,
> {
    let named = match dsh_config {
        Some(path) => seq![path],
        None => seq![],
    };
    let homely = match home {
        Some(dir) => seq![paths::path_join(paths::path_join(dir, ".dsh"@), "config.json"@)],
        None => seq![],
    };
    named + homely + seq!["dsh.json"@]
}

/// Lists the files that may hold the default configuration.
pub fn config_candidates(dsh_config: &Option<String>, home: &Option<String>) -> (r: Vec<String>)
    ensures
        text::views(r@) == candidates(text::opt_view(*dsh_config), text::opt_view(*home)),
{
    let mut out: Vec<String> = Vec::new();
    if let Some(path) = dsh_config {
        out.push(path.clone());
    }
    if let Some(dir) = home {
        let inner = join_path(dir.as_str(), ".dsh");
        out.push(join_path(inner.as_str(), "config.json"));
    }
    out.push("dsh.json".to_owned());
    assert(text::views(out@) =~= candidates(text::opt_view(*dsh_config), text::opt_view(*home)));
    out
}

/// What became of a file that may hold the default configuration.
#[derive(Debug, PartialEq)]
pub struct Considered {
    /// The configuration, where the file holds one.
    pub config: Option<BaseConfig>,
    /// What to tell the user.
    pub note: String,
}

/// What a [`Considered`] says.
#[verifier::ext_equal]
pub struct ConsideredView {
    pub config: Option<BaseConfigView>,
    pub note: Seq<char>,
}

impl View for Considered {
    type V = ConsideredView;

    open spec fn view(&self) -> ConsideredView {
        ConsideredView {
            config: text::opt_view(self.config),
            note: self.note@,
        }
    }
}

impl Clone for Considered {
    fn clone(&self) -> (r: Self)
        ensures
            r@ == self@,
    {
        Considered {
            config: clone_opt(&self.config),
            note: self.note.clone(),
        }
    }
}

/// What becomes of a file of that content.
pub open spec fn considered(path: Seq<char>, parsed: Result<JsonView, Seq<char>>) -> ConsideredView {
    match parsed {
        Ok(value) => ConsideredView {
            config: Some(config_of(value)),
            note: "[config] loaded "@ + path,
        },
        Err(m) => ConsideredView {
            config: None,
            note: "[config] ignoring "@ + path + ": "@ + m,
        },
    }
}

/// Says what becomes of a file, given what reading it as JSON gave.
pub fn weigh(path: &str, parsed: &Result<Json, String>) -> (r: Considered)
    ensures
        r@ == considered(path@, args::json_result(*parsed)),
{
    match parsed {
        Ok(value) => Considered {
            config: Some(BaseConfig::from_value(value)),
            note: concat2("[config] loaded ", path),
        },
        Err(m) => Considered {
            config: None,
            note: concat4("[config] ignoring ", path, ": ", m.as_str()),
        },
    }
}

/// What a search for the default configuration comes to.
#[derive(Debug, PartialEq)]
pub struct Discovery {
    pub config: BaseConfig,
    /// What to tell the user, in order.
    pub notes: Vec<String>,
}

/// What a [`Discovery`] says.
#[verifier::ext_equal]
pub struct DiscoveryView {
    pub config: BaseConfigView,
    pub notes: Seq<Seq<char>>,
}

impl View for Discovery {
    type V = DiscoveryView;

    open spec fn view(&self) -> DiscoveryView {
        DiscoveryView { config: self.config@, notes: text::views(self.notes@) }
    }
}

/// What a search comes to that finds these files, given what reading each as
/// JSON gave: it stops at the first that holds a configuration.
pub open spec fn discovered(
    parsed: Seq<(Seq<char>, Result<JsonView, Seq<char>>)>,
) -> DiscoveryView
    decreases parsed.len(),
{
    if parsed.len() == 0 {
        DiscoveryView { config: no_config(), notes: seq![] }
    } else {
        let first = considered(parsed[0].0, parsed[0].1);
        match first.config {
            Some(config) => DiscoveryView { config, notes: seq![first.note] },
            None => {
                let rest = discovered(parsed.skip(1));
                DiscoveryView { config: rest.config, notes: seq![first.note] + rest.notes }
            },
        }
    }
}

/// The files that a search found, with what reading each as JSON gave.
pub open spec fn parsed_files(found: Seq<(String, Result<Json, String>)>) -> Seq<
    (Seq<char>, Result<JsonView, Seq<char>>),
> {
    Seq::new(found.len(), |i: int| (found[i].0@, args::json_result(found[i].1)))
}

/// Settles on a configuration, given what reading each file as JSON gave.
pub fn settle(parsed: &Vec<(String, Result<Json, String>)>) -> (r: Discovery)
    ensures
        r@ == discovered(parsed_files(parsed@)),
{
    let mut notes: Vec<String> = Vec::new();
    let ghost all = parsed_files(parsed@);
    assert(all.skip(0) =~= all);
    assert(seq![] + discovered(all).notes =~= discovered(all).notes);
    assert(text::views(notes@) =~= seq![]);
    for i in 0..parsed.len()
        invariant
            all == parsed_files(parsed@),
            text::views(notes@) + discovered(all.skip(i as int)).notes == discovered(all).notes,
            discovered(all.skip(i as int)).config == discovered(all).config,
    {
        let ghost before = text::views(notes@);
        let ghost rest = all.skip(i as int);
        assert(rest[0] == all[i as int]);
        assert(rest.skip(1) =~= all.skip(i + 1));
        let considered = weigh(parsed[i].0.as_str(), &parsed[i].1);
        let ghost note = considered.note@;
        notes.push(considered.note);
        assert(text::views(notes@) =~= before.push(note));
        if let Some(config) = considered.config {
            let r = Discovery { config, notes };
            assert(before + seq![note] =~= before.push(note));
            assert(r@ =~= discovered(all));
            return r;
        }
        assert(before + (seq![note] + discovered(rest.skip(1)).notes) =~= before.push(note)
            + discovered(rest.skip(1)).notes);
    }
    let r = Discovery { config: BaseConfig::default(), notes };
    assert(text::views(r.notes@) + seq![] =~= text::views(r.notes@));
    assert(all.skip(all.len() as int) =~= seq![]);
    r
}

/// The files that a search found, read as JSON.
pub open spec fn read_files(found: Seq<(String, String)>) -> Seq<
    (Seq<char>, Result<JsonView, Seq<char>>),
> {
    Seq::new(found.len(), |i: int| (found[i].0@, json::json_of_text(found[i].1@)))
}

/// Settles on a configuration: `found` holds the candidates that could be read,
/// in order, each with its content.
pub fn discover(found: &Vec<(String, String)>) -> (r: Discovery)
    ensures
        r@ == discovered(read_files(found@)),
{
    let mut parsed: Vec<(String, Result<Json, String>)> = Vec::new();
    for i in 0..found.len()
        invariant
            parsed@.len() == i,
            forall|k: int|
                0 <= k < i ==> (#[trigger] parsed@[k]).0@ == found@[k].0@ && args::json_result(
                    parsed@[k].1,
                ) == json::json_of_text(found@[k].1@),
    {
        parsed.push((found[i].0.clone(), json::read(found[i].1.as_str())));
    }
    assert(parsed_files(parsed@) =~= read_files(found@));
    settle(&parsed)
}

/// The provider section that flags ask for, if they do.
pub open spec fn flag_section(flags: Seq<(Seq<char>, Seq<char>)>) -> Option<JsonView> {
    let base = args::flag_value(flags, "openai-base"@);
    let key = args::flag_value(flags, "openai-key"@);
    if base is None && key is None {
        None
    } else {
        Some(
            json::object_of(
                optional_entry("base_url"@, base) + optional_entry("api_key"@, key)
                    + optional_entry("model"@, args::flag_value(flags, "model"@)),
            ),
        )
    }
}

/// An entry of a section, where there is a value for it.
pub open spec fn optional_entry(key: Seq<char>, value: Option<Seq<char>>) -> Seq<
    (Seq<char>, JsonView),
> {
    match value {
        Some(v) => seq![(key, JsonView::Text(v))],
        None => seq![],
    }
}

/// A configuration with what flags override.
pub open spec fn overridden(
    config: BaseConfigView,
    flags: Seq<(Seq<char>, Seq<char>)>,
) -> BaseConfigView {
    BaseConfigView {
        store_dir: match args::flag_value(flags, "store"@) {
            Some(dir) => Some(dir),
            None => config.store_dir,
        },
        openai: match flag_section(flags) {
            Some(section) => Some(section),
            None => config.openai,
        },
        ..config
    }
}

fn put_optional(entries: &mut Vec<(String, Json)>, key: &str, value: &Option<String>)
    ensures
        json::json_entries(final(entries)@) == json::json_entries(old(entries)@)
            + optional_entry(key@, text::opt_view(*value)),
{
    let ghost before = json::json_entries(entries@);
    if let Some(v) = value {
        json::put(entries, key, Json::text(v.as_str()));
    }
    assert(json::json_entries(entries@) =~= before + optional_entry(key@, text::opt_view(*value)));
}

/// Overrides a discovered configuration by what the flags say.
pub fn override_config(config: BaseConfig, flags: &Flags) -> (r: BaseConfig)
    requires
        flags.well_formed(),
    ensures
        r@ == overridden(config@, flags@),
{
    let mut config = config;
    let ghost start = config@;
    if let Some(dir) = flag(flags, "store") {
        config.store_dir = Some(dir);
    }
    let base = flag(flags, "openai-base");
    let key = flag(flags, "openai-key");
    if base.is_some() || key.is_some() {
        let model = flag(flags, "model");
        let mut section = json::no_entries();
        put_optional(&mut section, "base_url", &base);
        put_optional(&mut section, "api_key", &key);
        put_optional(&mut section, "model", &model);
        assert(json::json_entries(section@) =~= optional_entry("base_url"@, text::opt_view(base))
            + optional_entry("api_key"@, text::opt_view(key)) + optional_entry(
            "model"@,
            text::opt_view(model),
        ));
        config.openai = Some(Json::object(section));
    }
    assert(config@ =~= overridden(start, flags@));
    config
}

// ---------------------------------------------------------------------------
// the agent
// ---------------------------------------------------------------------------

/// The number that decimal digits write.
pub open spec fn digits_value(s: Seq<char>) -> nat
    decreases s.len(),
{
    if s.len() == 0 {
        0
    } else {
        digits_value(s.drop_last()) * 10 + (s.last() as nat - '0' as nat) as nat
    }
}

/// Whether a text is nothing but decimal digits, at least one.
pub open spec fn is_digits(s: Seq<char>) -> bool {
    s.len() > 0 && forall|i: int| 0 <= i < s.len() ==> '0' <= #[trigger] s[i] <= '9'
}

/// The number that a text writes: an optional `+` and decimal digits.
pub open spec fn number_written(s: Seq<char>) -> Option<u32> {
    let digits = if s.len() > 0 && s[0] == '+' {
        s.skip(1)
    } else {
        s
    };
    if is_digits(digits) && digits_value(digits) <= u32::MAX {
        Some(digits_value(digits) as u32)
    } else {
        None
    }
}

proof fn lemma_digits_grow(s: Seq<char>, n: int)
    requires
        0 <= n <= s.len(),
    ensures
        digits_value(s.take(n)) <= digits_value(s),
    decreases s.len(),
{
    if n < s.len() {
        lemma_digits_grow(s.drop_last(), n);
        assert(s.drop_last().take(n) =~= s.take(n));
    } else {
        assert(s.take(n) =~= s);
    }
}

/// Reads a number: an optional `+` and decimal digits.
pub fn parse_u32(s: &str) -> (r: Option<u32>)
    ensures
        r == number_written(s@),
{
    let v = chars_of(s);
    let start: usize = if v.len() > 0 && v[0] == '+' {
        1
    } else {
        0
    };
    let ghost digits = v@.skip(start as int);
    assert(v@.skip(0) =~= v@);
    if start == v.len() {
        return None;
    }
    let mut total: u32 = 0;
    let mut i: usize = start;
    assert(digits.take(0) =~= seq![]);
    while i < v.len()
        invariant
            start <= i <= v.len(),
            v@ == s@,
            digits == v@.skip(start as int),
            forall|k: int| 0 <= k < i - start ==> '0' <= #[trigger] digits[k] <= '9',
            total == digits_value(digits.take(i - start)),
            number_written(v@) == (if is_digits(digits) && digits_value(digits) <= u32::MAX {
                Some(digits_value(digits) as u32)
            } else {
                None
            }),
        decreases v.len() - i,
    {
        let c = v[i];
        let ghost k = i - start;
        assert(digits[k] == c);
        if c < '0' || c > '9' {
            assert(!is_digits(digits));
            return None;
        }
        let d: u32 = c as u32 - '0' as u32;
        proof {
            assert(digits.take(k + 1).drop_last() =~= digits.take(k));
            assert(digits.take(k + 1).last() == c);
            assert(digits_value(digits.take(k + 1)) == total * 10 + d);
            lemma_digits_grow(digits, k + 1);
        }
        let next: u64 = total as u64 * 10 + d as u64;
        if next > u32::MAX as u64 {
            return None;
        }
        total = next as u32;
        i = i + 1;
    }
    assert(digits.take(digits.len() as int) =~= digits);
    Some(total)
}

/// The options of the agent that flags and a configuration ask for.
pub open spec fn chosen_agent(
    flags: Seq<(Seq<char>, Seq<char>)>,
    config: BaseConfigView,
    has_deepseek: bool,
) -> AgentOptionsView {
    let provider = match (args::flag_value(flags, "provider"@), config.default_provider) {
        (Some(p), _) => p,
        (None, Some(p)) => p,
        (None, None) => if has_deepseek {
            "deepseek"@
        } else {
            "mock"@
        },
    };
    AgentOptionsView {
        provider,
        model: match (args::flag_value(flags, "model"@), config.default_model) {
            (Some(m), _) => m,
            (None, Some(m)) => m,
            (None, None) => if provider == "mock"@ {
                "mock-1"@
            } else {
                "deepseek-chat"@
            },
        },
        max_tokens: match args::flag_value(flags, "max-tokens"@) {
            Some(v) => number_written(v),
            None => None,
        },
    }
}

/// Chooses the options of the agent: a flag first, else the configuration,
/// else a default. `has_deepseek` says whether a `deepseek` route is
/// registered.
pub fn choose_agent(flags: &Flags, config: &BaseConfig, has_deepseek: bool) -> (r: AgentOptions)
    requires
        flags.well_formed(),
    ensures
        r@ == chosen_agent(flags@, config@, has_deepseek),
{
    let provider: String = match flag(flags, "provider") {
        Some(p) => p,
        None => match &config.default_provider {
            Some(p) => p.clone(),
            None => if has_deepseek {
                "deepseek".to_owned()
            } else {
                "mock".to_owned()
            },
        },
    };
    let model: String = match flag(flags, "model") {
        Some(m) => m,
        None => match &config.default_model {
            Some(m) => m.clone(),
            None => if str_eq(provider.as_str(), "mock") {
                "mock-1".to_owned()
            } else {
                "deepseek-chat".to_owned()
            },
        },
    };
    let max_tokens: Option<u32> = match flag(flags, "max-tokens") {
        Some(v) => parse_u32(v.as_str()),
        None => None,
    };
    AgentOptions { provider, model, max_tokens }
}

// ---------------------------------------------------------------------------
// laws
// ---------------------------------------------------------------------------

/// A flag beats the configuration, and the configuration beats the default.
pub proof fn law_flag_beats_configuration(
    flags: Seq<(Seq<char>, Seq<char>)>,
    config: BaseConfigView,
    has_deepseek: bool,
)
    ensures
        args::flag_value(flags, "provider"@) matches Some(p) ==> chosen_agent(
            flags,
            config,
            has_deepseek,
        ).provider == p,
        args::flag_value(flags, "provider"@) is None ==> (config.default_provider matches Some(p)
            ==> chosen_agent(flags, config, has_deepseek).provider == p),
        args::flag_value(flags, "store"@) matches Some(dir) ==> overridden(config, flags).store_dir
            == Some(dir),
        args::flag_value(flags, "store"@) is None ==> overridden(config, flags).store_dir
            == config.store_dir,
{
}

/// The first file that holds a configuration wins, whatever the later ones
/// hold.
pub proof fn law_first_configuration_wins(
    parsed: Seq<(Seq<char>, Result<JsonView, Seq<char>>)>,
    at: int,
)
    requires
        0 <= at < parsed.len(),
        parsed[at].1 is Ok,
        forall|i: int| 0 <= i < at ==> (#[trigger] parsed[i]).1 is Err,
    ensures
        discovered(parsed).config == config_of(parsed[at].1->Ok_0),
        discovered(parsed).notes.len() == at + 1,
    decreases at,
{
    if at > 0 {
        let rest = parsed.skip(1);
        assert(parsed[0].1 is Err);
        assert forall|i: int| 0 <= i < at - 1 implies (#[trigger] rest[i]).1 is Err by {
            assert(rest[i] == parsed[i + 1]);
        }
        law_first_configuration_wins(rest, at - 1);
    }
}

/// A number is read back from its decimal digits.
pub proof fn law_numbers_are_read_back(n: u32)
    ensures
        number_written(text::decimal(n as nat)) == Some(n),
{
    lemma_decimal_is_read(n as nat);
}

proof fn lemma_decimal_is_read(n: nat)
    ensures
        is_digits(text::decimal(n)),
        digits_value(text::decimal(n)) == n,
    decreases n,
{
    let s = text::decimal(n);
    if n < 10 {
        assert(s =~= seq![text::digit(n)]);
        assert(s.drop_last() =~= seq![]);
        assert(digits_value(s.drop_last()) == 0);
    } else {
        lemma_decimal_is_read(n / 10);
        assert(s.drop_last() =~= text::decimal(n / 10));
        assert(s.last() == text::digit(n % 10));
        assert forall|i: int| 0 <= i < s.len() implies '0' <= #[trigger] s[i] <= '9' by {
            if i < s.len() - 1 {
                assert(s[i] == text::decimal(n / 10)[i]);
            }
        }
    }
}

/// A configuration is read key by key, each into its own setting; a key that is
/// missing sets nothing.
pub proof fn law_configuration_is_read_by_key(value: JsonView)
    ensures
        config_of(value).openai == value.get("openai"@),
        config_of(value).adapters == value.get("adapters"@),
        match value.get("store_dir"@) {
            Some(JsonView::Text(s)) => config_of(value).store_dir == Some(s),
            _ => config_of(value).store_dir is None,
        },
        match value.get("provider"@) {
            Some(JsonView::Text(s)) => config_of(value).default_provider == Some(s),
            _ => config_of(value).default_provider is None,
        },
        match value.get("model"@) {
            Some(JsonView::Text(s)) => config_of(value).default_model == Some(s),
            _ => config_of(value).default_model is None,
        },
        config_of(JsonView::Null) == no_config(),
        no_config().store_dir is None && no_config().openai is None && no_config().adapters is None
            && no_config().default_provider is None && no_config().default_model is None,
{
}

/// The files that are looked for, in order: the one that the environment names,
/// the one in the home directory, the one in the working directory.
pub proof fn law_files_are_looked_for_in_order(
    named: Option<Seq<char>>,
    home: Option<Seq<char>>,
)
    ensures
        ({
            let c = candidates(named, home);
            let n: nat = (if named is Some {
                1nat
            } else {
                0
            }) + (if home is Some {
                1nat
            } else {
                0
            });
            &&& c.len() == n + 1
            &&& c.last() == "dsh.json"@
            &&& named matches Some(path) ==> c[0] == path
            &&& home matches Some(dir) ==> dir.len() > 0 && dir.last() != '/' ==> c[n - 1] == dir
                + "/.dsh/config.json"@
        }),
{
    reveal_strlit("/");
    reveal_strlit(".dsh");
    reveal_strlit("config.json");
    reveal_strlit("/.dsh/config.json");
    if let Some(dir) = home {
        let inner = paths::path_join(dir, ".dsh"@);
        if dir.len() > 0 && dir.last() != '/' {
            assert(inner.last() == 'h');
            assert(paths::path_join(inner, "config.json"@) =~= dir + "/.dsh/config.json"@);
        }
    }
}

/// Every file up to the one that is used is noted: those that are no JSON as
/// ignored, with the reason, the one that is used as loaded.
pub proof fn law_every_file_is_noted(
    parsed: Seq<(Seq<char>, Result<JsonView, Seq<char>>)>,
)
    ensures
        parsed.len() == 0 ==> discovered(parsed).config == no_config() && discovered(
            parsed,
        ).notes.len() == 0,
        parsed.len() > 0 ==> match parsed[0].1 {
            Ok(value) => discovered(parsed).config == config_of(value) && discovered(parsed).notes
                == seq!["[config] loaded "@ + parsed[0].0],
            Err(m) => discovered(parsed).config == discovered(parsed.drop_first()).config
                && discovered(parsed).notes == seq![
                "[config] ignoring "@ + parsed[0].0 + ": "@ + m,
            ] + discovered(parsed.drop_first()).notes,
        },
{
    if parsed.len() > 0 {
        assert(parsed.skip(1) =~= parsed.drop_first());
    }
}

/// Flags for a provider set up its section: the address, the key and the model
/// that they give, and nothing else; without an address and a key the configured
/// section stays. What flags do not name stays as it was configured.
pub proof fn law_flags_set_up_the_section(
    config: BaseConfigView,
    flags: Seq<(Seq<char>, Seq<char>)>,
)
    ensures
        ({
            let base = args::flag_value(flags, "openai-base"@);
            let key = args::flag_value(flags, "openai-key"@);
            let model = args::flag_value(flags, "model"@);
            let after = overridden(config, flags);
            &&& base is None && key is None ==> after.openai == config.openai
            &&& base is Some || key is Some ==> (after.openai matches Some(section)
                && section.str_at("base_url"@) == base && section.str_at("api_key"@) == key
                && section.str_at("model"@) == model)
            &&& after.adapters == config.adapters
            &&& after.default_provider == config.default_provider
            &&& after.default_model == config.default_model
        }),
{
    let base = args::flag_value(flags, "openai-base"@);
    let key = args::flag_value(flags, "openai-key"@);
    let model = args::flag_value(flags, "model"@);
    reveal_strlit("base_url");
    reveal_strlit("api_key");
    reveal_strlit("model");
    assert("base_url"@.len() == 8 && "api_key"@.len() == 7 && "model"@.len() == 5);
    let a = optional_entry("base_url"@, base);
    let b = optional_entry("api_key"@, key);
    let c = optional_entry("model"@, model);
    lemma_optional("base_url"@, base);
    lemma_optional("api_key"@, key);
    lemma_optional("model"@, model);
    json::law_joined_entries(a, b, "base_url"@);
    json::law_joined_entries(a, b, "api_key"@);
    json::law_joined_entries(a, b, "model"@);
    json::law_joined_entries(a + b, c, "base_url"@);
    json::law_joined_entries(a + b, c, "api_key"@);
    json::law_joined_entries(a + b, c, "model"@);
}

proof fn lemma_optional(key: Seq<char>, value: Option<Seq<char>>)
    ensures
        json::object_of(optional_entry(key, value)).str_at(key) == value,
        json::object_of(optional_entry(key, value)).get(key) is Some <==> value is Some,
        forall|other: Seq<char>|
            other != key ==> #[trigger] json::object_of(optional_entry(key, value)).get(other)
                is None,
{
    let e = optional_entry(key, value);
    if value is Some {
        json::law_object_holds_its_entries(e, 0);
        assert forall|other: Seq<char>| other != key implies #[trigger] json::object_of(e).get(
            other,
        ) is None by {
            assert forall|k: int| 0 <= k < e.len() implies (#[trigger] e[k]).0 != other by {}
        }
    }
}

/// The agent uses the provider and model that a flag names, else those of the
/// configuration, else a real provider where there is one, and else the mock. A
/// limit on tokens is taken from its flag where that is a number.
pub proof fn law_agent_is_chosen_in_order(
    flags: Seq<(Seq<char>, Seq<char>)>,
    config: BaseConfigView,
    has_deepseek: bool,
)
    ensures
        ({
            let a = chosen_agent(flags, config, has_deepseek);
            let provider = args::flag_value(flags, "provider"@);
            let model = args::flag_value(flags, "model"@);
            &&& provider matches Some(p) ==> a.provider == p
            &&& provider is None ==> (config.default_provider matches Some(p) ==> a.provider == p)
            &&& provider is None && config.default_provider is None ==> a.provider == (
            if has_deepseek {
                "deepseek"@
            } else {
                "mock"@
            })
            &&& model matches Some(m) ==> a.model == m
            &&& model is None ==> (config.default_model matches Some(m) ==> a.model == m)
            &&& model is None && config.default_model is None ==> a.model == (if a.provider
                == "mock"@ {
                "mock-1"@
            } else {
                "deepseek-chat"@
            })
            &&& args::flag_value(flags, "max-tokens"@) is None ==> a.max_tokens is None
            &&& args::flag_value(flags, "max-tokens"@) matches Some(v) ==> a.max_tokens
                == number_written(v)
        }),
{
}

} // verus!
