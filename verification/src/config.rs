//! Configuration: providers, models, channels and general settings.

use crate::table;
use crate::table::{OrderedTable, Table};
use crate::text;
use vstd::prelude::*;
use vstd::string::*;

verus! {

// ---------------------------------------------------------------------------
// Channels and paths
// ---------------------------------------------------------------------------
/// A path of the host that the channel builder offers.
#[derive(Debug)]
pub struct PathEntry {
    /// The image for containers on this path.
    pub image: Option<String>,
}

/// How users of the host and of a container correspond.
#[derive(Debug, Clone, Copy, PartialEq, Eq, Structural)]
pub enum PodmanUserMapping {
    /// `--userns=keep-id`.
    KeepId,
    /// Explicit maps to the user of the image.
    Uidmap,
}

impl Default for PodmanUserMapping {
    fn default() -> (r: Self)
        ensures
            r == PodmanUserMapping::Uidmap,
    {
        PodmanUserMapping::Uidmap
    }
}

/// Settings for podman.
#[derive(Debug, Clone, Copy, PartialEq, Eq, Structural)]
pub struct PodmanConfig {
    pub usermapping: PodmanUserMapping,
}

impl Default for PodmanConfig {
    fn default() -> (r: Self)
        ensures
            r.usermapping == PodmanUserMapping::Uidmap,
    {
        PodmanConfig { usermapping: PodmanUserMapping::Uidmap }
    }
}

/// The description of a channel.
#[derive(Debug)]
pub struct ChannelConfig {
    /// `podman` or `local`.
    pub kind: String,
    /// The image to start a container from.
    pub image: Option<String>,
    /// The running container to join.
    pub container: Option<String>,
    /// The name for the container to start.
    pub run_container: Option<String>,
    /// The working directory in the container.
    pub workdir: String,
    /// The directory of the host behind it.
    pub host_root: Option<String>,
    /// A writable home for the processes in the container.
    pub home: Option<String>,
}

/// The text of `o` without white space around it, where something is left.
pub open spec fn non_blank(o: Option<String>) -> Option<Seq<char>> {
    match o {
        Some(s) => if text::trimmed(s@).len() > 0 {
            Some(text::trimmed(s@))
        } else {
            None
        },
        None => None,
    }
}

/// The text of `o` without white space around it, where something is left.
pub fn non_blank_text(o: &Option<String>) -> (r: Option<String>)
    ensures
        text::opt_view(r) == non_blank(*o),
{
    match o {
        Some(s) => {
            let t = text::trim(s.as_str());
            if t.as_str().is_empty() {
                None
            } else {
                Some(t)
            }
        },
        None => None,
    }
}

/// `o`, or `other` where there is none.
pub open spec fn or_else(o: Option<Seq<char>>, other: Seq<char>) -> Seq<char> {
    match o {
        Some(s) => s,
        None => other,
    }
}

/// The working directory of a channel that names none.
pub fn default_workdir() -> (r: String)
    ensures
        r@ == "/app"@,
{
    "/app".to_string()
}

impl ChannelConfig {
    /// The home for the processes in the container.
    pub fn run_home(&self) -> (r: String)
        ensures
            r@ == or_else(non_blank(self.home), "/tmp"@),
    {
        match non_blank_text(&self.home) {
            Some(h) => h,
            None => "/tmp".to_string(),
        }
    }
}

// ---------------------------------------------------------------------------
// Providers
// ---------------------------------------------------------------------------
/// An endpoint with its key.
#[derive(Debug)]
pub struct ProviderConfig {
    pub base_url: String,
    pub api_key: Option<String>,
    /// The name under which requests are made.
    pub user_agent: Option<String>,
}

/// The version of the program.
pub fn version() -> (r: &'static str)
    ensures
        r@ == "0.1.0"@,
{
    "0.1.0"
}

/// The name under which requests go to a provider: the configured one, else the program and its
/// version, marked as compatible for `zen`.
pub open spec fn user_agent_of(configured: Option<String>, name: Seq<char>) -> Seq<char> {
    match non_blank(configured) {
        Some(ua) => ua,
        None => if name == "zen"@ {
            "opencode-compatible aidev/"@ + "0.1.0"@
        } else {
            "aidev/"@ + "0.1.0"@
        },
    }
}

/// The name under which requests go to a provider.
pub fn effective_user_agent(provider: &ProviderConfig, provider_name: &str) -> (r: String)
    ensures
        r@ == user_agent_of(provider.user_agent, provider_name@),
{
    match non_blank_text(&provider.user_agent) {
        Some(ua) => ua,
        None => if text::same_text(provider_name, "zen") {
            text::concat("opencode-compatible aidev/", version())
        } else {
            text::concat("aidev/", version())
        },
    }
}

/// The part of `s` before its first `c`.
pub open spec fn before(s: Seq<char>, c: char) -> Seq<char> {
    s.take(text::pos(s, c))
}

/// The part of `s` before its first `c`.
pub fn before_char(s: &str, c: char) -> (r: String)
    ensures
        r@ == before(s@, c),
{
    let cs = text::chars_of(s);
    let n: usize = cs.len();
    let k = text::find_char(&cs, 0, n, c);
    assert(cs@.subrange(0, n as int) == s@);
    assert(cs@.subrange(0, k as int) == s@.take(k as int));
    text::text_of(&cs, 0, k)
}

/// The position of the first `p` in `s`, or the length of `s` where there is none.
pub open spec fn pos_text(s: Seq<char>, p: Seq<char>) -> int
    decreases s.len(),
{
    if s.len() == 0 || p.is_prefix_of(s) {
        0
    } else {
        1 + pos_text(s.drop_first(), p)
    }
}

/// What stands behind the scheme of an address.
pub open spec fn behind_scheme(url: Seq<char>) -> Seq<char> {
    let k = pos_text(url, "://"@);
    if k < url.len() {
        url.skip(k + "://"@.len())
    } else {
        url
    }
}

/// The host that an address names.
pub open spec fn host_of(url: Seq<char>) -> Seq<char> {
    before(before(behind_scheme(url), '/'), ':')
}

/// Whether an address leads to opencode.ai or one of its subdomains.
pub open spec fn leads_to_opencode(url: Seq<char>) -> bool {
    host_of(url) == "opencode.ai"@ || ".opencode.ai"@.is_suffix_of(host_of(url))
}

fn skip_scheme(url: &str) -> (r: String)
    ensures
        r@ == behind_scheme(url@),
{
    let cs = text::chars_of(url);
    let mark = text::chars_of("://");
    let n: usize = cs.len();
    let mut i: usize = 0;
    proof {
        reveal_strlit("://");
        assert(cs@.skip(0) == url@);
    }
    while i < n
        invariant
            i <= n,
            n == cs@.len(),
            cs@ == url@,
            mark@ == "://"@,
            mark@.len() == 3,
            pos_text(url@, "://"@) == i + pos_text(cs@.skip(i as int), "://"@),
        decreases n - i,
    {
        if text::chars_at(&cs, i, &mark) {
            assert(cs@.skip(i as int).subrange(0, 3).len() == 3);
            assert(cs@.subrange(i + 3, n as int) == url@.skip(i + 3));
            return text::text_of(&cs, i + 3, n);
        }
        assert(cs@.skip(i as int).drop_first() == cs@.skip(i + 1));
        i += 1;
    }
    url.to_string()
}

/// Whether an address leads to opencode.ai or one of its subdomains.
pub fn is_opencode_base(base_url: &str) -> (r: bool)
    ensures
        r == leads_to_opencode(base_url@),
{
    let rest = skip_scheme(base_url);
    let authority = before_char(rest.as_str(), '/');
    let host = before_char(authority.as_str(), ':');
    text::same_text(host.as_str(), "opencode.ai") || text::finishes_with(
        host.as_str(),
        ".opencode.ai",
    )
}

// ---------------------------------------------------------------------------
// Models
// ---------------------------------------------------------------------------
/// A named model.
#[derive(Debug)]
pub enum ModelConfig {
    Plain(String),
    Full { id: String, context_window: Option<u64> },
}

/// The text of a model's identity.
pub open spec fn id_of(m: ModelConfig) -> Seq<char> {
    match m {
        ModelConfig::Plain(id) => id@,
        ModelConfig::Full { id, .. } => id@,
    }
}

/// The size of a model's context, if it names one.
pub open spec fn window_of(m: ModelConfig) -> Option<u64> {
    match m {
        ModelConfig::Plain(_) => None,
        ModelConfig::Full { context_window, .. } => context_window,
    }
}

/// How often `c` occurs in `s`.
pub open spec fn count(s: Seq<char>, c: char) -> nat
    decreases s.len(),
{
    if s.len() == 0 {
        0
    } else if s.last() == c {
        count(s.drop_last(), c) + 1
    } else {
        count(s.drop_last(), c)
    }
}

/// Whether `id` is a provider and a name with one slash between them.
pub open spec fn is_model_id(id: Seq<char>) -> bool {
    let k = text::pos(id, '/');
    count(id, '/') == 1 && 0 < k < id.len() - 1
}

fn count_char(s: &str, c: char) -> (r: usize)
    ensures
        r == count(s@, c),
{
    let cs = text::chars_of(s);
    let mut n: usize = 0;
    let mut i: usize = 0;
    assert(cs@.take(0) == Seq::<char>::empty());
    while i < cs.len()
        invariant
            n <= i <= cs@.len(),
            cs@ == s@,
            n == count(cs@.take(i as int), c),
        decreases cs@.len() - i,
    {
        assert(cs@.take(i + 1).drop_last() == cs@.take(i as int));
        if cs[i] == c {
            n += 1;
        }
        i += 1;
    }
    assert(cs@.take(cs@.len() as int) == cs@);
    n
}

/// Accepts a provider and a name with one slash between them; else says what is wrong.
pub fn validate_model_id(id: &str) -> (r: Result<String, String>)
    ensures
        match r {
            Ok(s) => is_model_id(id@) && s@ == id@,
            Err(e) => !is_model_id(id@) && e@ == (if count(id@, '/') != 1 {
                "Modell-ID '"@ + id@
                    + "' muss genau ein '/' enthalten (Format provider/name)"@
            } else {
                "Modell-ID '"@ + id@ + "' braucht einen Provider und einen Namen"@
            }),
        },
{
    if count_char(id, '/') != 1 {
        return Err(
            text::concat3(
                "Modell-ID '",
                id,
                "' muss genau ein '/' enthalten (Format provider/name)",
            ),
        );
    }
    let cs = text::chars_of(id);
    let n: usize = cs.len();
    let k = text::find_char(&cs, 0, n, '/');
    proof {
        assert(cs@.subrange(0, n as int) == id@);
        text::lemma_pos(id@, '/');
    }
    if k == 0 || k >= n - 1 {
        return Err(
            text::concat3("Modell-ID '", id, "' braucht einen Provider und einen Namen"),
        );
    }
    Ok(id.to_string())
}

impl ModelConfig {
    /// The identity: provider, slash, name.
    pub fn id(&self) -> (r: &str)
        ensures
            r@ == id_of(*self),
    {
        match self {
            ModelConfig::Plain(id) => id.as_str(),
            ModelConfig::Full { id, .. } => id.as_str(),
        }
    }

    /// The provider that the identity names.
    pub fn provider_name(&self) -> (r: Option<String>)
        ensures
            text::opt_view(r) == (match text::split_once(id_of(*self), '/') {
                Some(p) => Some(p.0),
                None => None,
            }),
    {
        match text::split_once_text(self.id(), '/') {
            Some((p, _)) => Some(p),
            None => None,
        }
    }

    /// The name that the identity gives the model on its server.
    pub fn model_name(&self) -> (r: String)
        ensures
            r@ == (match text::split_once(id_of(*self), '/') {
                Some(p) => p.1,
                None => id_of(*self),
            }),
    {
        match text::split_once_text(self.id(), '/') {
            Some((_, m)) => m,
            None => self.id().to_string(),
        }
    }

    /// The size of the context, if one is given.
    pub fn context_window(&self) -> (r: Option<u64>)
        ensures
            r == window_of(*self),
    {
        match self {
            ModelConfig::Plain(_) => None,
            ModelConfig::Full { context_window, .. } => *context_window,
        }
    }
}

/// Everything a request needs to know.
#[derive(Debug)]
pub struct ResolvedEndpoint {
    /// The model as it is shown.
    pub model: String,
    /// The model as the server knows it.
    pub api_model: String,
    /// The address without slashes at its end.
    pub base_url: String,
    /// The key; empty where none is needed.
    pub api_key: String,
    pub user_agent: String,
    pub context_window: u64,
}

/// What an endpoint holds.
pub struct EndpointModel {
    pub model: Seq<char>,
    pub api_model: Seq<char>,
    pub base_url: Seq<char>,
    pub api_key: Seq<char>,
    pub user_agent: Seq<char>,
    pub context_window: u64,
}

impl View for ResolvedEndpoint {
    type V = EndpointModel;

    open spec fn view(&self) -> EndpointModel {
        EndpointModel {
            model: self.model@,
            api_model: self.api_model@,
            base_url: self.base_url@,
            api_key: self.api_key@,
            user_agent: self.user_agent@,
            context_window: self.context_window,
        }
    }
}

/// What a result holds: an endpoint or the text of an error.
pub open spec fn endpoint_view(r: Result<ResolvedEndpoint, String>) -> Result<
    EndpointModel,
    Seq<char>,
> {
    match r {
        Ok(ep) => Ok(ep@),
        Err(e) => Err(e@),
    }
}

/// The endpoint of a model at a provider.
pub open spec fn endpoint_at(
    provider: ProviderConfig,
    provider_name: Seq<char>,
    model: Seq<char>,
    api_model: Seq<char>,
    context_window: u64,
) -> EndpointModel {
    EndpointModel {
        model,
        api_model,
        base_url: text::trimmed_end_of(provider.base_url@, '/'),
        api_key: or_else(text::opt_view(provider.api_key), Seq::empty()),
        user_agent: user_agent_of(provider.user_agent, provider_name),
        context_window,
    }
}

/// The endpoint of a model at a provider.
pub fn make_endpoint(
    provider: &ProviderConfig,
    provider_name: &str,
    model: String,
    api_model: String,
    context_window: u64,
) -> (r: ResolvedEndpoint)
    ensures
        r@ == endpoint_at(*provider, provider_name@, model@, api_model@, context_window),
{
    ResolvedEndpoint {
        model,
        api_model,
        base_url: text::trim_end_of(provider.base_url.as_str(), '/'),
        api_key: match &provider.api_key {
            Some(k) => k.clone(),
            None => String::new(),
        },
        user_agent: effective_user_agent(provider, provider_name),
        context_window,
    }
}

/// The size `w` where it is above zero, else `other`.
pub open spec fn window_or(w: Option<u64>, other: u64) -> u64 {
    match w {
        Some(n) if n > 0 => n,
        _ => other,
    }
}

/// The size `w` where it is above zero, else `other`.
pub fn window_or_default(w: Option<u64>, other: u64) -> (r: u64)
    ensures
        r == window_or(w, other),
{
    match w {
        Some(n) => if n > 0 {
            n
        } else {
            other
        },
        None => other,
    }
}

// ---------------------------------------------------------------------------
// The configuration
// ---------------------------------------------------------------------------
/// The whole configuration.
pub struct Config {
    /// The default model: provider, slash, name.
    pub model: String,
    pub provider: Table<ProviderConfig>,
    /// How many rounds with tools a turn may have.
    pub max_tool_rounds: u64,
    /// How long a command may run, in seconds.
    pub timeout_secs: u64,
    /// The channel of new sessions.
    pub default_channel: Option<String>,
    pub channels: Table<ChannelConfig>,
    /// The named models, in the order of the file.
    pub models: OrderedTable<ModelConfig>,
    /// The size of a context, where a model names none.
    pub context_window: u64,
    /// How many turns a summary leaves untouched.
    pub compact_keep_turns: usize,
    /// How long a summary may be, in tokens.
    pub compact_summary_tokens: u64,
    /// Whether a context that is too long is summarised by itself.
    pub compact_auto: bool,
    pub mouse: bool,
    /// The paths that the channel builder offers.
    pub paths: Table<PathEntry>,
    pub podman: PodmanConfig,
    /// `dark`, `light` or `auto`.
    pub theme: String,
}

/// The alias that the default model means.
#[derive(Debug)]
pub struct DefaultModelAlias {
    pub provider: String,
    pub alias: String,
    pub server_model: String,
    pub context_window: Option<u64>,
}

/// What the alias of the default model holds.
pub struct AliasModel {
    pub provider: Seq<char>,
    pub alias: Seq<char>,
    pub server_model: Seq<char>,
    pub context_window: Option<u64>,
}

impl View for DefaultModelAlias {
    type V = AliasModel;

    open spec fn view(&self) -> AliasModel {
        AliasModel {
            provider: self.provider@,
            alias: self.alias@,
            server_model: self.server_model@,
            context_window: self.context_window,
        }
    }
}

/// The position of the first model with the identity `id`, or their number.
pub open spec fn model_at(models: Seq<(Seq<char>, ModelConfig)>, id: Seq<char>) -> int
    decreases models.len(),
{
    if models.len() == 0 || id_of(models[0].1) == id {
        0
    } else {
        1 + model_at(models.drop_first(), id)
    }
}

/// The size of the context that the models give for the identity `id`.
pub open spec fn listed_window(models: Seq<(Seq<char>, ModelConfig)>, id: Seq<char>) -> Option<
    u64,
> {
    let k = model_at(models, id);
    if k < models.len() {
        window_of(models[k].1)
    } else {
        None
    }
}

/// The endpoint of the model with the identity `id`.
pub open spec fn resolved_id(c: Config, id: Seq<char>) -> Result<EndpointModel, Seq<char>> {
    match text::split_once(id, '/') {
        None => Err("Modell-ID muss Format 'provider/name' haben: "@ + id),
        Some((provider_name, model_name)) => match table::lookup(c.provider@, provider_name) {
            None => Err(
                "Unbekannter Provider '"@ + provider_name + "' in Modell '"@ + id + "'"@,
            ),
            Some(provider) => Ok(
                endpoint_at(
                    provider,
                    provider_name,
                    id,
                    model_name,
                    window_or(listed_window(c.models@, id), c.context_window),
                ),
            ),
        },
    }
}

/// The alias that the default model means: its second part names a model of the provider that its
/// first part names.
pub open spec fn default_alias(c: Config) -> Option<AliasModel> {
    match text::split_once(c.model@, '/') {
        None => None,
        Some((provider, alias)) => match table::lookup(c.models@, alias) {
            None => None,
            Some(mc) => match text::split_once(id_of(mc), '/') {
                None => None,
                Some((p, server_model)) => if p == provider {
                    Some(
                        AliasModel {
                            provider,
                            alias,
                            server_model,
                            context_window: window_of(mc),
                        },
                    )
                } else {
                    None
                },
            },
        },
    }
}

/// The endpoint of the alias that the default model means.
pub open spec fn resolved_alias(c: Config, m: AliasModel) -> Result<EndpointModel, Seq<char>> {
    match table::lookup(c.provider@, m.provider) {
        None => Err(
            "Unbekannter Provider '"@ + m.provider + "' in Modell '"@ + m.provider + "/"@ + m.alias
                + "'"@,
        ),
        Some(provider) => Ok(
            endpoint_at(
                provider,
                m.provider,
                m.provider + "/"@ + m.alias,
                m.server_model,
                window_or(m.context_window, c.context_window),
            ),
        ),
    }
}

/// The endpoint of a named model, or of the default one.
pub open spec fn resolved(c: Config, alias: Option<Seq<char>>) -> Result<
    EndpointModel,
    Seq<char>,
> {
    match alias {
        None => match default_alias(c) {
            Some(m) => resolved_alias(c, m),
            None => resolved_id(c, c.model@),
        },
        Some(a) => match table::lookup(c.models@, a) {
            None => Err("Unbekannter Modell-Alias: "@ + a),
            Some(mc) => resolved_id(c, id_of(mc)),
        },
    }
}

/// The view of a text that may be missing.
pub open spec fn opt_str(o: Option<&str>) -> Option<Seq<char>> {
    match o {
        Some(s) => Some(s@),
        None => None,
    }
}

/// The theme that a setting means; anything unknown is `auto`.
pub open spec fn theme_of(s: Seq<char>) -> Seq<char> {
    let t = text::trimmed(s).map_values(|c: char| text::lower(c));
    if t == "dark"@ {
        "dark"@
    } else if t == "light"@ {
        "light"@
    } else {
        "auto"@
    }
}

/// The theme that a setting means.
pub fn normalize_theme(s: &str) -> (r: String)
    ensures
        r@ == theme_of(s@),
{
    let t = text::lowercase(text::trim(s).as_str());
    if text::same_text(t.as_str(), "dark") {
        "dark".to_string()
    } else if text::same_text(t.as_str(), "light") {
        "light".to_string()
    } else {
        "auto".to_string()
    }
}

/// The settings of a configuration that names none.
pub open spec fn is_default(c: Config) -> bool {
    &&& c.wf()
    &&& c.model@ == "zen/big-pickle"@
    &&& c.provider@.len() == 1
    &&& c.provider@[0].0 == "zen"@
    &&& c.provider@[0].1.base_url@ == "https://opencode.ai/zen/v1"@
    &&& text::opt_view(c.provider@[0].1.api_key) == Some("public"@)
    &&& c.provider@[0].1.user_agent is None
    &&& c.max_tool_rounds == 100
    &&& c.timeout_secs == 500
    &&& c.default_channel is None
    &&& c.channels@.len() == 0
    &&& c.models@.len() == 1
    &&& c.models@[0].0 == "pig-pickle"@
    &&& c.models@[0].1 is Plain
    &&& id_of(c.models@[0].1) == "zen/big-pickle"@
    &&& c.context_window == 200_000
    &&& c.compact_keep_turns == 3
    &&& c.compact_summary_tokens == 4_000
    &&& c.compact_auto
    &&& !c.mouse
    &&& c.paths@.len() == 0
    &&& c.podman.usermapping == PodmanUserMapping::Uidmap
    &&& c.theme@ == "auto"@
}

/// `n` where it is above zero, else `other`.
pub open spec fn or_default(n: u64, other: u64) -> u64 {
    if n == 0 {
        other
    } else {
        n
    }
}

/// Whether `d` is `c` with its empty settings filled in.
pub open spec fn filled(c: Config, d: Config) -> bool {
    &&& d.model@ == (if text::trimmed(c.model@).len() == 0 {
        "zen/big-pickle"@
    } else {
        text::trimmed(c.model@)
    })
    &&& d.provider == c.provider
    &&& d.max_tool_rounds == or_default(c.max_tool_rounds, 100)
    &&& d.timeout_secs == or_default(c.timeout_secs, 500)
    &&& text::opt_view(d.default_channel) == (if non_blank(c.default_channel) is Some {
        text::opt_view(c.default_channel)
    } else {
        None
    })
    &&& d.channels == c.channels
    &&& d.models == c.models
    &&& d.context_window == or_default(c.context_window, 200_000)
    &&& d.compact_keep_turns == (if c.compact_keep_turns == 0 {
        3
    } else {
        c.compact_keep_turns
    })
    &&& d.compact_summary_tokens == or_default(c.compact_summary_tokens, 4_000)
    &&& d.compact_auto == c.compact_auto
    &&& d.mouse == c.mouse
    &&& d.paths == c.paths
    &&& d.podman == c.podman
    &&& d.theme@ == theme_of(c.theme@)
}

/// The providers of a configuration that names none.
pub fn default_provider() -> (r: Table<ProviderConfig>)
    ensures
        r.wf(),
        r@.len() == 1,
        r@[0].0 == "zen"@,
        r@[0].1.base_url@ == "https://opencode.ai/zen/v1"@,
        text::opt_view(r@[0].1.api_key) == Some("public"@),
        r@[0].1.user_agent is None,
{
    let mut m = Table::new();
    m.insert(
        "zen".to_string(),
        ProviderConfig {
            base_url: "https://opencode.ai/zen/v1".to_string(),
            api_key: Some("public".to_string()),
            user_agent: None,
        },
    );
    m
}

/// The models of a configuration that names none.
pub fn default_models() -> (r: OrderedTable<ModelConfig>)
    ensures
        r.wf(),
        r@.len() == 1,
        r@[0].0 == "pig-pickle"@,
        r@[0].1 is Plain,
        id_of(r@[0].1) == "zen/big-pickle"@,
{
    let mut m = OrderedTable::new();
    m.insert("pig-pickle".to_string(), ModelConfig::Plain("zen/big-pickle".to_string()));
    m
}

impl Default for Config {
    fn default() -> (r: Self)
        ensures
            is_default(r),
    {
        Config {
            model: "zen/big-pickle".to_string(),
            provider: default_provider(),
            max_tool_rounds: 100,
            timeout_secs: 500,
            default_channel: None,
            channels: Table::new(),
            models: default_models(),
            context_window: 200_000,
            compact_keep_turns: 3,
            compact_summary_tokens: 4_000,
            compact_auto: true,
            mouse: false,
            paths: Table::new(),
            podman: PodmanConfig::default(),
            theme: "auto".to_string(),
        }
    }
}

impl Config {
    /// No table names anything twice.
    pub open spec fn wf(&self) -> bool {
        self.provider.wf() && self.channels.wf() && self.models.wf() && self.paths.wf()
    }

    /// The names of the models, in the order of the file.
    pub fn model_names(&self) -> (r: Vec<String>)
        requires
            self.wf(),
        ensures
            text::views(r@) == table::keys(self.models@),
    {
        self.models.names()
    }

    /// The size of the context for a named model, or the general one.
    pub fn context_window_for(&self, alias: Option<&str>) -> (r: u64)
        requires
            self.wf(),
        ensures
            r == (match alias {
                Some(a) => match table::lookup(self.models@, a@) {
                    Some(m) => window_or(window_of(m), self.context_window),
                    None => self.context_window,
                },
                None => self.context_window,
            }),
    {
        match alias {
            Some(a) => match self.models.get(a) {
                Some(m) => window_or_default(m.context_window(), self.context_window),
                None => self.context_window,
            },
            None => self.context_window,
        }
    }

    /// The endpoint of a named model, or of the default one. The default model is taken for an
    /// alias first.
    pub fn resolve(&self, alias: Option<&str>) -> (r: Result<ResolvedEndpoint, String>)
        requires
            self.wf(),
        ensures
            endpoint_view(r) == resolved(*self, opt_str(alias)),
    {
        match alias {
            None => match self.resolve_default_alias() {
                Some(m) => self.resolve_from_default_alias(m),
                None => self.resolve_id(self.model.as_str()),
            },
            Some(a) => match self.models.get(a) {
                Some(m) => self.resolve_id(m.id()),
                None => Err(text::concat("Unbekannter Modell-Alias: ", a)),
            },
        }
    }

    /// The alias that the default model means, if it means one.
    pub fn resolve_default_alias(&self) -> (r: Option<DefaultModelAlias>)
        requires
            self.wf(),
        ensures
            match r {
                Some(m) => default_alias(*self) == Some(m@),
                None => default_alias(*self) is None,
            },
    {
        match text::split_once_text(self.model.as_str(), '/') {
            Some((provider, alias)) => match self.models.get(alias.as_str()) {
                Some(mc) => match text::split_once_text(mc.id(), '/') {
                    Some((p, server_model)) => if text::same_text(p.as_str(), provider.as_str()) {
                        Some(
                            DefaultModelAlias {
                                provider,
                                alias,
                                server_model,
                                context_window: mc.context_window(),
                            },
                        )
                    } else {
                        None
                    },
                    None => None,
                },
                None => None,
            },
            None => None,
        }
    }

    /// The endpoint of the alias that the default model means.
    pub fn resolve_from_default_alias(&self, m: DefaultModelAlias) -> (r: Result<
        ResolvedEndpoint,
        String,
    >)
        ensures
            endpoint_view(r) == resolved_alias(*self, m@),
    {
        match self.provider.get(m.provider.as_str()) {
            None => {
                let mut e = text::concat3(
                    "Unbekannter Provider '",
                    m.provider.as_str(),
                    "' in Modell '",
                );
                e.append(m.provider.as_str());
                e.append("/");
                e.append(m.alias.as_str());
                e.append("'");
                Err(e)
            },
            Some(provider) => {
                let shown = text::concat3(m.provider.as_str(), "/", m.alias.as_str());
                Ok(
                    make_endpoint(
                        provider,
                        m.provider.as_str(),
                        shown,
                        m.server_model,
                        window_or_default(m.context_window, self.context_window),
                    ),
                )
            },
        }
    }

    /// The endpoint of the model with the identity `model_id`.
    pub fn resolve_id(&self, model_id: &str) -> (r: Result<ResolvedEndpoint, String>)
        requires
            self.wf(),
        ensures
            endpoint_view(r) == resolved_id(*self, model_id@),
    {
        match text::split_once_text(model_id, '/') {
            None => Err(text::concat("Modell-ID muss Format 'provider/name' haben: ", model_id)),
            Some((provider_name, model_name)) => match self.provider.get(provider_name.as_str()) {
                None => {
                    let mut e = text::concat3(
                        "Unbekannter Provider '",
                        provider_name.as_str(),
                        "' in Modell '",
                    );
                    e.append(model_id);
                    e.append("'");
                    Err(e)
                },
                Some(provider) => {
                    let w = self.window_listed_for(model_id);
                    Ok(
                        make_endpoint(
                            provider,
                            provider_name.as_str(),
                            model_id.to_string(),
                            model_name,
                            window_or_default(w, self.context_window),
                        ),
                    )
                },
            },
        }
    }

    fn window_listed_for(&self, id: &str) -> (r: Option<u64>)
        requires
            self.wf(),
        ensures
            r == listed_window(self.models@, id@),
    {
        let n: usize = self.models.len();
        let mut i: usize = 0;
        assert(self.models@.skip(0) == self.models@);
        while i < n
            invariant
                i <= n,
                n == self.models@.len(),
                self.wf(),
                model_at(self.models@, id@) == i + model_at(self.models@.skip(i as int), id@),
            decreases n - i,
        {
            let m = self.models.value(i);
            assert(self.models@.skip(i as int)[0] == self.models@[i as int]);
            if text::same_text(m.id(), id) {
                return m.context_window();
            }
            assert(self.models@.skip(i as int).drop_first() == self.models@.skip(i + 1));
            i += 1;
        }
        None
    }

    /// The configuration with its empty settings filled in.
    pub fn with_defaults(self) -> (r: Self)
        ensures
            filled(self, r),
            self.wf() ==> r.wf(),
    {
        let model = text::trim(self.model.as_str());
        let named = non_blank_text(&self.default_channel).is_some();
        Config {
            model: if model.as_str().is_empty() {
                "zen/big-pickle".to_string()
            } else {
                model
            },
            provider: self.provider,
            max_tool_rounds: if self.max_tool_rounds == 0 {
                100
            } else {
                self.max_tool_rounds
            },
            timeout_secs: if self.timeout_secs == 0 {
                500
            } else {
                self.timeout_secs
            },
            default_channel: if named {
                self.default_channel
            } else {
                None
            },
            channels: self.channels,
            models: self.models,
            context_window: if self.context_window == 0 {
                200_000
            } else {
                self.context_window
            },
            compact_keep_turns: if self.compact_keep_turns == 0 {
                3
            } else {
                self.compact_keep_turns
            },
            compact_summary_tokens: if self.compact_summary_tokens == 0 {
                4_000
            } else {
                self.compact_summary_tokens
            },
            compact_auto: self.compact_auto,
            mouse: self.mouse,
            paths: self.paths,
            podman: self.podman,
            theme: normalize_theme(self.theme.as_str()),
        }
    }
}

// ---------------------------------------------------------------------------
// Where a configuration comes from
// ---------------------------------------------------------------------------
/// `base` with `part` below it.
pub open spec fn below(base: Seq<char>, part: Seq<char>) -> Seq<char> {
    if base.len() == 0 {
        part
    } else if base.last() == '/' {
        base + part
    } else {
        base + "/"@ + part
    }
}

/// `base` with the relative path `part` below it.
pub fn path_below(base: &str, part: &str) -> (r: String)
    ensures
        r@ == below(base@, part@),
{
    let cs = text::chars_of(base);
    let n: usize = cs.len();
    if n == 0 {
        part.to_string()
    } else if cs[n - 1] == '/' {
        text::concat(base, part)
    } else {
        text::concat3(base, "/", part)
    }
}

/// The files that may hold the configuration, the first one to be tried first.
pub open spec fn candidates(xdg: Option<Seq<char>>, home: Option<Seq<char>>) -> Seq<Seq<char>> {
    let first = match xdg {
        Some(x) if x.len() > 0 => seq![below(below(x, "aidev"@), "config.toml"@)],
        _ => Seq::empty(),
    };
    let second = match home {
        Some(h) => seq![below(below(below(h, ".config"@), "aidev"@), "config.toml"@)],
        None => Seq::empty(),
    };
    first + second
}

/// The files that may hold the configuration, given the two directories of the environment.
pub fn candidate_paths(xdg: Option<&str>, home: Option<&str>) -> (r: Vec<String>)
    ensures
        text::views(r@) == candidates(opt_str(xdg), opt_str(home)),
{
    let mut out: Vec<String> = Vec::new();
    if let Some(x) = xdg {
        if !x.is_empty() {
            out.push(path_below(path_below(x, "aidev").as_str(), "config.toml"));
        }
    }
    if let Some(h) = home {
        let dir = path_below(path_below(h, ".config").as_str(), "aidev");
        out.push(path_below(dir.as_str(), "config.toml"));
    }
    assert(text::views(out@) =~= candidates(opt_str(xdg), opt_str(home)));
    out
}

/// What reading one of the files gave.
pub enum Source {
    /// There is nothing to read.
    Missing,
    /// The file at this path is not a configuration, for this reason.
    Invalid { path: String, reason: String },
    /// The file is this configuration.
    Parsed(Config),
}

/// The warning about a file that is not a configuration.
pub open spec fn warning_of(path: Seq<char>, reason: Seq<char>) -> Seq<char> {
    path + " unreadable ("@ + reason + "), trying next source…"@
}

/// The position of the first file that is a configuration, or the number of files.
pub open spec fn first_parsed(sources: Seq<Source>) -> int
    decreases sources.len(),
{
    if sources.len() == 0 || sources[0] is Parsed {
        0
    } else {
        1 + first_parsed(sources.drop_first())
    }
}

/// The warnings about the files that are no configuration.
pub open spec fn warnings(sources: Seq<Source>) -> Seq<Seq<char>>
    decreases sources.len(),
{
    if sources.len() == 0 {
        Seq::empty()
    } else {
        match sources.last() {
            Source::Invalid { path, reason } => warnings(sources.drop_last()).push(
                warning_of(path@, reason@),
            ),
            _ => warnings(sources.drop_last()),
        }
    }
}

/// Chooses the first file that is a configuration and fills its empty settings in. Files before it
/// that are none give warnings. Where there is no configuration, the default stands in and one
/// more warning says so.
pub fn choose_config(sources: Vec<Source>) -> (r: (Config, Vec<String>))
    requires
        forall|i: int|
            0 <= i < sources@.len() && #[trigger] sources@[i] is Parsed ==> sources@[i]->Parsed_0.wf(),
    ensures
        r.0.wf(),
        ({
            let k = first_parsed(sources@);
            if k < sources@.len() {
                &&& filled(sources@[k]->Parsed_0, r.0)
                &&& text::views(r.1@) == warnings(sources@.take(k))
            } else {
                &&& is_default(r.0)
                &&& text::views(r.1@) == warnings(sources@).push(
                    "Keine Config gefunden, nutze Defaults."@,
                )
            }
        }),
{
    let ghost all = sources@;
    let mut rest = sources;
    let mut out: Vec<String> = Vec::new();
    let ghost mut i: int = 0;
    assert(all.skip(0) == all);
    assert(all.take(0) == Seq::<Source>::empty());
    assert(text::views(out@) =~= warnings(all.take(0)));
    while rest.len() > 0
        invariant
            0 <= i <= all.len(),
            all == sources@,
            rest@ == all.skip(i),
            first_parsed(all) == i + first_parsed(all.skip(i)),
            text::views(out@) == warnings(all.take(i)),
            forall|k: int|
                0 <= k < all.len() && #[trigger] all[k] is Parsed ==> all[k]->Parsed_0.wf(),
        decreases rest@.len(),
    {
        let source = rest.remove(0);
        assert(source == all[i]);
        assert(all.skip(i)[0] == all[i]);
        assert(all.skip(i).drop_first() == all.skip(i + 1));
        assert(rest@ =~= all.skip(i + 1));
        assert(all.take(i + 1).drop_last() == all.take(i));
        assert(all.take(i + 1).last() == all[i]);
        match source {
            Source::Missing => {},
            Source::Invalid { path, reason } => {
                let mut w = text::concat3(path.as_str(), " unreadable (", reason.as_str());
                w.append("), trying next source…");
                let ghost before = out@;
                out.push(w);
                assert(text::views(out@) =~= text::views(before).push(w@));
            },
            Source::Parsed(c) => {
                return (c.with_defaults(), out);
            },
        }
        proof {
            i = i + 1;
        }
    }
    assert(all.take(all.len() as int) == all);
    let ghost before = out@;
    let last = "Keine Config gefunden, nutze Defaults.".to_string();
    out.push(last);
    assert(text::views(out@) =~= text::views(before).push(last@));
    (Config::default(), out)
}

// ---------------------------------------------------------------------------
// Laws
// ---------------------------------------------------------------------------
/// A named model resolves as its identity does.
pub proof fn law_alias_resolves_as_its_id(c: Config, alias: Seq<char>, m: ModelConfig)
    requires
        table::lookup(c.models@, alias) == Some(m),
    ensures
        resolved(c, Some(alias)) == resolved_id(c, id_of(m)),
{
}

/// An unknown name, and an identity without a known provider, never resolve.
pub proof fn law_unknown_names_do_not_resolve(c: Config, alias: Seq<char>, id: Seq<char>)
    ensures
        table::lookup(c.models@, alias) is None ==> resolved(c, Some(alias)) is Err,
        !id.contains('/') ==> resolved_id(c, id) is Err,
        (text::split_once(id, '/') matches Some(p) && table::lookup(c.provider@, p.0) is None)
            ==> resolved_id(c, id) is Err,
{
    text::lemma_pos(id, '/');
}

/// The default model is taken for an alias first: it is shown as it is written, and the server gets
/// the name behind the alias.
pub proof fn law_default_model_means_its_alias(c: Config)
    requires
        default_alias(c) is Some,
        resolved(c, None) is Ok,
    ensures
        resolved(c, None)->Ok_0.model == c.model@,
        resolved(c, None)->Ok_0.api_model == default_alias(c)->0.server_model,
{
    text::lemma_pos(c.model@, '/');
    let k = text::pos(c.model@, '/');
    reveal_strlit("/");
    assert(c.model@ =~= c.model@.take(k) + "/"@ + c.model@.skip(k + 1));
}

/// An address never ends with a slash.
pub proof fn law_addresses_have_no_slash_at_the_end(c: Config, alias: Option<Seq<char>>)
    requires
        resolved(c, alias) is Ok,
    ensures
        ({
            let url = resolved(c, alias)->Ok_0.base_url;
            url.len() > 0 ==> url.last() != '/'
        }),
{
    assert forall|s: Seq<char>| #[trigger]
        text::trimmed_end_of(s, '/').len() > 0 implies text::trimmed_end_of(s, '/').last()
        != '/' by {
        lemma_trimmed_end_of(s, '/');
    }
}

proof fn lemma_trimmed_end_of(s: Seq<char>, c: char)
    ensures
        text::trimmed_end_of(s, c).len() > 0 ==> text::trimmed_end_of(s, c).last() != c,
    decreases s.len(),
{
    if s.len() > 0 && s.last() == c {
        lemma_trimmed_end_of(s.drop_last(), c);
    }
}

/// Filling the empty settings in leaves none empty, and a second time changes nothing.
pub proof fn law_filling_in_is_idempotent(c: Config, d: Config, e: Config)
    requires
        filled(c, d),
        filled(d, e),
    ensures
        d.max_tool_rounds > 0,
        d.timeout_secs > 0,
        d.context_window > 0,
        d.compact_keep_turns > 0,
        d.compact_summary_tokens > 0,
        d.model@.len() > 0,
        e.model@ == d.model@,
        e.max_tool_rounds == d.max_tool_rounds,
        e.timeout_secs == d.timeout_secs,
        text::opt_view(e.default_channel) == text::opt_view(d.default_channel),
        e.context_window == d.context_window,
        e.compact_keep_turns == d.compact_keep_turns,
        e.compact_summary_tokens == d.compact_summary_tokens,
        e.theme@ == d.theme@,
{
    reveal_strlit("zen/big-pickle");
    reveal_strlit("dark");
    reveal_strlit("light");
    reveal_strlit("auto");
    text::lemma_trimmed_again(c.model@);
    text::lemma_trimmed_again("zen/big-pickle"@);
    assert(text::trimmed("zen/big-pickle"@) == "zen/big-pickle"@) by {
        text::lemma_trimmed_keeps("zen/big-pickle"@);
    }
    assert(theme_of("dark"@) == "dark"@) by {
        text::lemma_trimmed_keeps("dark"@);
        assert("dark"@.map_values(|c: char| text::lower(c)) =~= "dark"@);
    }
    assert(theme_of("light"@) == "light"@) by {
        text::lemma_trimmed_keeps("light"@);
        assert("light"@.map_values(|c: char| text::lower(c)) =~= "light"@);
        assert("light"@ != "dark"@) by {
            assert("light"@.len() != "dark"@.len());
        }
    }
    assert(theme_of("auto"@) == "auto"@) by {
        text::lemma_trimmed_keeps("auto"@);
        assert("auto"@.map_values(|c: char| text::lower(c)) =~= "auto"@);
        assert("auto"@[0] != "dark"@[0]);
        assert("auto"@.len() != "light"@.len());
    }
}

/// The default configuration resolves its default model.
pub proof fn law_default_configuration_resolves(c: Config)
    requires
        is_default(c),
    ensures
        resolved(c, None) is Ok,
        resolved(c, None)->Ok_0.model == "zen/big-pickle"@,
        resolved(c, None)->Ok_0.api_model == "big-pickle"@,
{
    let id = "zen/big-pickle"@;
    reveal_strlit("zen/big-pickle");
    reveal_strlit("zen");
    reveal_strlit("big-pickle");
    reveal_strlit("pig-pickle");
    text::lemma_pos_is(id, '/', 3);
    assert(id.take(3) =~= "zen"@);
    assert(id.skip(4) =~= "big-pickle"@);
    assert("big-pickle"@[0] != "pig-pickle"@[0]);
    table::lemma_key_at_is(c.models@, "big-pickle"@, 1);
    table::lemma_key_at_is(c.provider@, "zen"@, 0);
}

/// A model is asked at the address of its provider, with the key of that provider and under the name
/// behind the slash; the window is the one that is configured for it, else the general one.
pub proof fn law_models_are_asked_at_their_provider(
    c: Config,
    provider: Seq<char>,
    model: Seq<char>,
    p: ProviderConfig,
)
    requires
        !provider.contains('/'),
        table::lookup(c.provider@, provider) == Some(p),
    ensures
        ({
            let id = provider + seq!['/'] + model;
            let r = resolved_id(c, id);
            &&& r is Ok
            &&& (r->Ok_0).model == id
            &&& (r->Ok_0).api_model == model
            &&& (r->Ok_0).base_url == text::trimmed_end_of(p.base_url@, '/')
            &&& p.api_key matches Some(k) ==> (r->Ok_0).api_key == k@
            &&& p.api_key is None ==> (r->Ok_0).api_key.len() == 0
            &&& listed_window(c.models@, id) is None ==> (r->Ok_0).context_window
                == c.context_window
            &&& listed_window(c.models@, id) matches Some(w) ==> (w > 0 ==> (
            r->Ok_0).context_window == w)
            &&& listed_window(c.models@, id) == Some(0u64) ==> (r->Ok_0).context_window
                == c.context_window
        }),
{
    text::law_texts_are_cut_at_the_first(provider, model, '/');
}

/// What keeps a model from being asked is named: an identity without a slash, a provider or a name
/// that is not known.
pub proof fn law_unresolved_models_are_named(
    c: Config,
    alias: Seq<char>,
    provider: Seq<char>,
    model: Seq<char>,
)
    requires
        !provider.contains('/'),
    ensures
        resolved_id(c, provider) == Err::<EndpointModel, Seq<char>>(
            "Modell-ID muss Format 'provider/name' haben: "@ + provider,
        ),
        table::lookup(c.provider@, provider) is None ==> resolved_id(
            c,
            provider + seq!['/'] + model,
        ) == Err::<EndpointModel, Seq<char>>(
            "Unbekannter Provider '"@ + provider + "' in Modell '"@ + (provider + seq!['/'] + model)
                + "'"@,
        ),
        table::lookup(c.models@, alias) is None ==> resolved(c, Some(alias)) == Err::<
            EndpointModel,
            Seq<char>,
        >("Unbekannter Modell-Alias: "@ + alias),
        default_alias(c) is None ==> resolved(c, None) == resolved_id(c, c.model@),
{
    text::law_texts_are_cut_at_the_first(provider, model, '/');
}

/// The default model names an alias where behind its provider stands the name of a model of the same
/// provider; then that model is asked, and its window counts.
pub proof fn law_the_default_names_an_alias_of_its_provider(
    c: Config,
    provider: Seq<char>,
    alias: Seq<char>,
    other: Seq<char>,
    server: Seq<char>,
    mc: ModelConfig,
)
    requires
        !provider.contains('/'),
        !other.contains('/'),
        c.model@ == provider + seq!['/'] + alias,
        table::lookup(c.models@, alias) == Some(mc),
        id_of(mc) == other + seq!['/'] + server,
    ensures
        other == provider ==> default_alias(c) == Some(
            AliasModel { provider, alias, server_model: server, context_window: window_of(mc) },
        ),
        other != provider ==> default_alias(c) is None,
{
    text::law_texts_are_cut_at_the_first(provider, alias, '/');
    text::law_texts_are_cut_at_the_first(other, server, '/');
}

/// Who asks is named as configured; else by the program, and towards the one provider that expects it
/// by the compatible name.
pub proof fn law_the_program_names_itself(configured: Option<String>, name: Seq<char>)
    ensures
        configured matches Some(s) ==> (text::trimmed(s@).len() > 0 ==> user_agent_of(
            configured,
            name,
        ) == text::trimmed(s@)),
        configured is None && name == "zen"@ ==> user_agent_of(configured, name)
            == "opencode-compatible aidev/"@ + "0.1.0"@,
        configured is None && name != "zen"@ ==> user_agent_of(configured, name) == "aidev/"@
            + "0.1.0"@,
{
}

/// An address leads to the one provider where its host is that of the provider or below it, whatever
/// scheme, port and path stand around it.
pub proof fn law_the_host_stands_between_scheme_and_path(host: Seq<char>, port: Seq<char>, path: Seq<char>)
    requires
        !host.contains('/'),
        !host.contains(':'),
        !port.contains('/'),
    ensures
        before(before(host + seq![':'] + port + seq!['/'] + path, '/'), ':') == host,
        before(host, '/') == host,
        before(host + seq!['/'] + path, '/') == host,
{
    let s = host + seq![':'] + port;
    assert(!s.contains('/')) by {
        if s.contains('/') {
            let k = choose|k: int| 0 <= k < s.len() && s[k] == '/';
            if k < host.len() {
                assert(host[k] == '/');
            } else if k > host.len() {
                assert(port[k - host.len() - 1] == '/');
            }
        }
    }
    text::law_texts_are_cut_at_the_first(s, path, '/');
    text::law_texts_are_cut_at_the_first(host, port, ':');
    text::law_texts_are_cut_at_the_first(host, path, '/');
    assert((s + seq!['/'] + path).take(s.len() as int) =~= s);
    assert(s.take(host.len() as int) =~= host);
    assert(host.take(host.len() as int) =~= host);
    assert((host + seq!['/'] + path).take(host.len() as int) =~= host);
}

/// A theme is dark or light where it says so, in any case and with blanks around; else it follows
/// the terminal.
pub proof fn law_themes_are_read_in_any_case(s: Seq<char>)
    ensures
        ({
            let t = text::trimmed(s).map_values(|c: char| text::lower(c));
            &&& t == "dark"@ ==> theme_of(s) == "dark"@
            &&& t == "light"@ ==> theme_of(s) == "light"@
            &&& t != "dark"@ && t != "light"@ ==> theme_of(s) == "auto"@
        }),
        theme_of("DARK"@) == "dark"@,
        theme_of("Light"@) == "light"@,
{
    reveal_strlit("dark");
    reveal_strlit("light");
    reveal_strlit("DARK");
    reveal_strlit("Light");
    assert("dark"@.len() != "light"@.len());
    text::lemma_trimmed_keeps("DARK"@);
    text::lemma_trimmed_keeps("Light"@);
    assert("DARK"@.map_values(|c: char| text::lower(c)) =~= "dark"@);
    assert("Light"@.map_values(|c: char| text::lower(c)) =~= "light"@);
}

/// What is missing in a configuration is filled in with the documented values, and what is there
/// stays.
pub proof fn law_missing_settings_are_filled_in(c: Config, d: Config)
    requires
        filled(c, d),
    ensures
        text::trimmed(c.model@).len() == 0 ==> d.model@ == "zen/big-pickle"@,
        text::trimmed(c.model@).len() > 0 ==> d.model@ == text::trimmed(c.model@),
        c.max_tool_rounds == 0 ==> d.max_tool_rounds == 100,
        c.max_tool_rounds > 0 ==> d.max_tool_rounds == c.max_tool_rounds,
        c.timeout_secs == 0 ==> d.timeout_secs == 500,
        c.timeout_secs > 0 ==> d.timeout_secs == c.timeout_secs,
        c.context_window == 0 ==> d.context_window == 200_000,
        c.context_window > 0 ==> d.context_window == c.context_window,
        c.compact_keep_turns == 0 ==> d.compact_keep_turns == 3,
        c.compact_keep_turns > 0 ==> d.compact_keep_turns == c.compact_keep_turns,
        c.compact_summary_tokens == 0 ==> d.compact_summary_tokens == 4_000,
        c.compact_summary_tokens > 0 ==> d.compact_summary_tokens == c.compact_summary_tokens,
        c.default_channel matches Some(s) ==> (text::trimmed(s@).len() == 0 ==> d.default_channel
            is None),
        c.default_channel matches Some(s) ==> (text::trimmed(s@).len() > 0 ==> text::opt_view(
            d.default_channel,
        ) == Some(s@)),
        d.compact_auto == c.compact_auto,
        d.mouse == c.mouse,
        d.provider == c.provider,
        d.models == c.models,
        d.channels == c.channels,
        d.paths == c.paths,
        d.podman == c.podman,
{
}

/// Without a configuration the program works with one provider and one model that need no key of
/// one's own, and with the documented limits.
pub proof fn law_the_default_configuration(c: Config)
    requires
        is_default(c),
    ensures
        c.model@ == "zen/big-pickle"@,
        c.provider@.len() == 1,
        c.provider@[0].0 == "zen"@,
        c.provider@[0].1.base_url@ == "https://opencode.ai/zen/v1"@,
        text::opt_view(c.provider@[0].1.api_key) == Some("public"@),
        c.max_tool_rounds == 100,
        c.timeout_secs == 500,
        c.context_window == 200_000,
        c.compact_keep_turns == 3,
        c.compact_summary_tokens == 4_000,
        c.compact_auto,
        !c.mouse,
        c.default_channel is None,
        c.channels@.len() == 0,
        c.podman.usermapping == PodmanUserMapping::Uidmap,
        c.theme@ == "auto"@,
{
}

/// The configuration is looked for below the configuration directory first and below the home second,
/// in the directory of the program; without either there is nowhere to look.
pub proof fn law_where_a_configuration_is_looked_for(x: Seq<char>, h: Seq<char>)
    requires
        x.len() > 0,
        x.last() != '/',
        h.len() > 0,
        h.last() != '/',
    ensures
        candidates(Some(x), Some(h)) == seq![
            x + "/"@ + "aidev"@ + "/"@ + "config.toml"@,
            h + "/"@ + ".config"@ + "/"@ + "aidev"@ + "/"@ + "config.toml"@,
        ],
        candidates(None, Some(h)) == seq![
            h + "/"@ + ".config"@ + "/"@ + "aidev"@ + "/"@ + "config.toml"@,
        ],
        candidates(Some(Seq::empty()), Some(h)) == candidates(None, Some(h)),
        candidates(Some(x), None) == seq![x + "/"@ + "aidev"@ + "/"@ + "config.toml"@],
        candidates(None, None).len() == 0,
{
    reveal_strlit("aidev");
    reveal_strlit(".config");
    let a = x + "/"@ + "aidev"@;
    assert(a.last() == 'v');
    let b = h + "/"@ + ".config"@;
    assert(b.last() == 'g');
    let d = b + "/"@ + "aidev"@;
    assert(d.last() == 'v');
    assert(candidates(Some(x), Some(h)) =~= seq![
        a + "/"@ + "config.toml"@,
        d + "/"@ + "config.toml"@,
    ]);
    assert(candidates(None, Some(h)) =~= seq![d + "/"@ + "config.toml"@]);
    assert(candidates(Some(x), None) =~= seq![a + "/"@ + "config.toml"@]);
    assert(candidates(Some(Seq::empty()), Some(h)) =~= candidates(None, Some(h)));
}

/// A path below another one stands behind it and one slash.
pub proof fn law_below_means_behind_one_slash(base: Seq<char>, part: Seq<char>)
    ensures
        base.len() > 0 && base.last() != '/' ==> below(base, part) == base + "/"@ + part,
        base.len() > 0 && base.last() == '/' ==> below(base, part) == base + part,
        base.len() == 0 ==> below(base, part) == part,
{
}

proof fn lemma_first_parsed(sources: Seq<Source>)
    ensures
        0 <= first_parsed(sources) <= sources.len(),
        first_parsed(sources) < sources.len() ==> sources[first_parsed(sources)] is Parsed,
        forall|i: int| 0 <= i < first_parsed(sources) ==> !(#[trigger] sources[i] is Parsed),
    decreases sources.len(),
{
    if sources.len() > 0 && !(sources[0] is Parsed) {
        let t = sources.drop_first();
        lemma_first_parsed(t);
        assert forall|i: int| 0 <= i < first_parsed(sources) implies !(#[trigger] sources[i]
            is Parsed) by {
            if i > 0 {
                assert(sources[i] == t[i - 1]);
            }
        }
    }
}

/// The first source that can be read is used, whatever stands behind it.
pub proof fn law_the_first_readable_source_is_used(sources: Seq<Source>, k: int)
    requires
        0 <= k < sources.len(),
        sources[k] is Parsed,
        forall|i: int| 0 <= i < k ==> !(#[trigger] sources[i] is Parsed),
    ensures
        first_parsed(sources) == k,
{
    lemma_first_parsed(sources);
}

/// A model identity has a provider and a name around one slash.
pub proof fn law_model_identities_have_one_slash(a: Seq<char>, b: Seq<char>)
    requires
        !a.contains('/'),
        !b.contains('/'),
    ensures
        is_model_id(a + seq!['/'] + b) <==> a.len() > 0 && b.len() > 0,
        !is_model_id(a),
{
    lemma_count_none(a, '/');
    lemma_count_around(a, b, '/');
    text::law_texts_are_cut_at_the_first(a, b, '/');
}

proof fn lemma_count_none(s: Seq<char>, c: char)
    requires
        !s.contains(c),
    ensures
        count(s, c) == 0,
    decreases s.len(),
{
    if s.len() > 0 {
        assert(s.contains(s[s.len() - 1]));
        let t = s.drop_last();
        assert(!t.contains(c)) by {
            if t.contains(c) {
                let k = choose|k: int| 0 <= k < t.len() && t[k] == c;
                assert(s[k] == c);
            }
        }
        lemma_count_none(t, c);
    }
}

proof fn lemma_count_around(a: Seq<char>, b: Seq<char>, c: char)
    requires
        !a.contains(c),
        !b.contains(c),
    ensures
        count(a + seq![c] + b, c) == 1,
    decreases b.len(),
{
    let s = a + seq![c] + b;
    if b.len() > 0 {
        let t = b.drop_last();
        assert(b.contains(b[b.len() - 1]));
        assert(!t.contains(c)) by {
            if t.contains(c) {
                let k = choose|k: int| 0 <= k < t.len() && t[k] == c;
                assert(b[k] == c);
            }
        }
        assert(s.drop_last() =~= a + seq![c] + t);
        assert(s.last() == b[b.len() - 1]);
        lemma_count_around(a, t, c);
    } else {
        assert(s.drop_last() =~= a);
        assert(s.last() == c);
        lemma_count_none(a, c);
    }
}

proof fn lemma_pos_text_first(s: Seq<char>, p: Seq<char>, k: int)
    requires
        0 <= k < s.len(),
        p.is_prefix_of(s.skip(k)),
        forall|i: int| 0 <= i < k ==> !p.is_prefix_of(#[trigger] s.skip(i)),
    ensures
        pos_text(s, p) == k,
    decreases s.len(),
{
    assert(s.skip(0) =~= s);
    if k > 0 {
        assert(!p.is_prefix_of(s.skip(0)));
        let t = s.drop_first();
        assert(t.skip(k - 1) =~= s.skip(k));
        assert forall|i: int| 0 <= i < k - 1 implies !p.is_prefix_of(#[trigger] t.skip(i)) by {
            assert(t.skip(i) =~= s.skip(i + 1));
        }
        lemma_pos_text_first(t, p, k - 1);
    }
}

/// An address leads to the provider with the public key where its host is that of the provider or
/// lies below it, and nowhere else, whatever stands in its path.
pub proof fn law_only_the_host_leads_to_the_provider(
    scheme: Seq<char>,
    host: Seq<char>,
    path: Seq<char>,
)
    requires
        !scheme.contains(':'),
        !host.contains('/'),
        !host.contains(':'),
    ensures
        ({
            let url = scheme + "://"@ + host + seq!['/'] + path;
            leads_to_opencode(url) <==> host == "opencode.ai"@ || ".opencode.ai"@.is_suffix_of(host)
        }),
{
    reveal_strlit("://");
    let url = scheme + "://"@ + host + seq!['/'] + path;
    let k = scheme.len() as int;
    assert(url.skip(k).take(3) =~= "://"@);
    assert forall|i: int| 0 <= i < k implies !"://"@.is_prefix_of(#[trigger] url.skip(i)) by {
        if "://"@.is_prefix_of(url.skip(i)) {
            assert(url.skip(i).take(3)[0] == ':');
            assert(url[i] == scheme[i]);
            assert(scheme.contains(scheme[i]));
        }
    }
    lemma_pos_text_first(url, "://"@, k);
    assert(url.skip(k + 3) =~= host + seq!['/'] + path);
    text::law_texts_are_cut_at_the_first(host, path, '/');
    text::law_texts_are_cut_at_the_first(host, path, ':');
    assert((host + seq!['/'] + path).take(host.len() as int) =~= host);
    assert(host.take(host.len() as int) =~= host);
}

/// Every source that cannot be read is warned about, by its path and the reason, in order.
pub proof fn law_unreadable_sources_are_warned_about(sources: Seq<Source>, path: String, reason: String)
    ensures
        warnings(Seq::empty()).len() == 0,
        warnings(sources.push(Source::Invalid { path, reason })) == warnings(sources).push(
            path@ + " unreadable ("@ + reason@ + "), trying next source…"@,
        ),
{
    assert(sources.push(Source::Invalid { path, reason }).drop_last() =~= sources);
}

/// The window of a model is the one that is configured for the first model with its identity.
pub proof fn law_the_window_of_a_listed_model(
    models: Seq<(Seq<char>, ModelConfig)>,
    first: (Seq<char>, ModelConfig),
    id: Seq<char>,
)
    ensures
        id_of(first.1) == id ==> listed_window(seq![first] + models, id) == window_of(first.1),
        id_of(first.1) != id ==> listed_window(seq![first] + models, id) == listed_window(
            models,
            id,
        ),
        listed_window(Seq::empty(), id) is None,
{
    let all = seq![first] + models;
    assert(all.drop_first() =~= models);
    assert(all[0] == first);
    lemma_model_at_bound(models, id);
    if id_of(first.1) != id && model_at(models, id) < models.len() {
        assert(all[1 + model_at(models, id)] == models[model_at(models, id)]);
    }
}

proof fn lemma_model_at_bound(models: Seq<(Seq<char>, ModelConfig)>, id: Seq<char>)
    ensures
        0 <= model_at(models, id) <= models.len(),
    decreases models.len(),
{
    if models.len() > 0 && id_of(models[0].1) != id {
        lemma_model_at_bound(models.drop_first(), id);
    }
}

} // verus!
