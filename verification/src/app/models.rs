//! The models that are known: those of the configuration and those that the providers offer.

use crate::config;
use crate::config::ModelConfig;
use crate::table;
use crate::table::OrderedTable;
use crate::table::Table;
use crate::text;
use vstd::prelude::*;
use vstd::string::*;

verus! {

/// What is known of a model once the providers were asked.
#[derive(Debug, Clone, Copy, PartialEq, Eq, Structural)]
pub enum ModelStatus {
    /// Configured and offered.
    ConfigAndFetched,
    /// Configured, but no longer offered.
    ConfigStale,
    /// Offered, but not configured.
    FetchedOnly,
}

/// A known model.
#[derive(Debug)]
pub struct ModelEntry {
    pub provider: String,
    /// The name in the configuration, or the one on the server.
    pub alias: String,
    /// The name on the server.
    pub server_model: String,
    pub context_window: Option<u64>,
    /// The demand that the server reports.
    pub demand: Option<u64>,
    pub in_config: bool,
    /// Whether the last refresh found the model.
    pub fetched: bool,
}

/// What an entry holds.
pub struct EntryModel {
    pub provider: Seq<char>,
    pub alias: Seq<char>,
    pub server_model: Seq<char>,
    pub context_window: Option<u64>,
    pub demand: Option<u64>,
    pub in_config: bool,
    pub fetched: bool,
}

impl View for ModelEntry {
    type V = EntryModel;

    open spec fn view(&self) -> EntryModel {
        EntryModel {
            provider: self.provider@,
            alias: self.alias@,
            server_model: self.server_model@,
            context_window: self.context_window,
            demand: self.demand,
            in_config: self.in_config,
            fetched: self.fetched,
        }
    }
}

impl Clone for ModelEntry {
    fn clone(&self) -> (r: Self)
        ensures
            r@ == self@,
    {
        ModelEntry {
            provider: self.provider.clone(),
            alias: self.alias.clone(),
            server_model: self.server_model.clone(),
            context_window: self.context_window,
            demand: self.demand,
            in_config: self.in_config,
            fetched: self.fetched,
        }
    }
}

/// Two names with a slash between them.
pub open spec fn slashed(a: Seq<char>, b: Seq<char>) -> Seq<char> {
    a + "/"@ + b
}

/// The name under which an entry is kept: provider, slash, alias.
pub open spec fn key_of(e: EntryModel) -> Seq<char> {
    slashed(e.provider, e.alias)
}

/// The identity of an entry: provider, slash, name on the server.
pub open spec fn model_id_of(e: EntryModel) -> Seq<char> {
    slashed(e.provider, e.server_model)
}

/// An entry as the list of models shows it.
pub open spec fn full_display(e: EntryModel) -> Seq<char> {
    let base = if e.alias == e.server_model {
        key_of(e)
    } else {
        key_of(e) + " ("@ + e.server_model + ")"@
    };
    match e.demand {
        Some(d) if d > 0 => base + " · 🔥"@ + text::decimal(d as nat),
        _ => base,
    }
}

impl ModelEntry {
    /// The name under which the entry is kept.
    pub fn key(&self) -> (r: String)
        ensures
            r@ == key_of(self@),
    {
        text::concat3(self.provider.as_str(), "/", self.alias.as_str())
    }

    fn model_id(&self) -> (r: String)
        ensures
            r@ == model_id_of(self@),
    {
        text::concat3(self.provider.as_str(), "/", self.server_model.as_str())
    }

    /// The entry as the list of models shows it.
    pub fn display_full(&self) -> (r: String)
        ensures
            r@ == full_display(self@),
    {
        let mut base = self.key();
        if !text::same_text(self.alias.as_str(), self.server_model.as_str()) {
            base.append(" (");
            base.append(self.server_model.as_str());
            base.append(")");
        }
        match self.demand {
            Some(d) => {
                if d > 0 {
                    base.append(" · 🔥");
                    base.append(text::decimal_text(d).as_str());
                }
            },
            None => {},
        }
        base
    }

    /// The entry as the status line shows it.
    pub fn display_key(&self) -> (r: String)
        ensures
            r@ == key_of(self@),
    {
        self.key()
    }

    /// The name that goes to the server.
    pub fn api_model(&self) -> (r: &str)
        ensures
            r@ == self@.server_model,
    {
        self.server_model.as_str()
    }
}

// ---------------------------------------------------------------------------
// The model of the registry
// ---------------------------------------------------------------------------
/// What the registry holds.
pub struct RegistryModel {
    /// The entries by name, in the order in which they came.
    pub entries: Seq<(Seq<char>, EntryModel)>,
    /// The name of the entry last added for each identity.
    pub index: Seq<(Seq<char>, Seq<char>)>,
    /// Whether the providers were ever asked.
    pub refreshed: bool,
}

/// The parts of an identity; one without a slash has no provider.
pub open spec fn parts_of(id: Seq<char>) -> (Seq<char>, Seq<char>) {
    match text::split_once(id, '/') {
        Some(p) => p,
        None => (Seq::empty(), id),
    }
}

/// The entry for a model of the configuration.
pub open spec fn configured(alias: Seq<char>, m: ModelConfig) -> EntryModel {
    EntryModel {
        provider: parts_of(config::id_of(m)).0,
        alias,
        server_model: parts_of(config::id_of(m)).1,
        context_window: config::window_of(m),
        demand: None,
        in_config: true,
        fetched: false,
    }
}

/// The entry for a model that only a provider knows.
pub open spec fn offered(provider: Seq<char>, server_model: Seq<char>, demand: Option<u64>) -> EntryModel {
    EntryModel {
        provider,
        alias: server_model,
        server_model,
        context_window: None,
        demand,
        in_config: false,
        fetched: true,
    }
}

/// The registry with one more entry.
pub open spec fn added(m: RegistryModel, e: EntryModel) -> RegistryModel {
    RegistryModel {
        entries: table::put(m.entries, key_of(e), e),
        index: table::put(m.index, model_id_of(e), key_of(e)),
        refreshed: m.refreshed,
    }
}

/// The registry with the models of the configuration.
pub open spec fn all_configured(m: RegistryModel, models: Seq<(Seq<char>, ModelConfig)>) -> RegistryModel
    decreases models.len(),
{
    if models.len() == 0 {
        m
    } else {
        let p = models.last();
        added(all_configured(m, models.drop_last()), configured(p.0, p.1))
    }
}

/// A registry without entries.
pub open spec fn empty_registry() -> RegistryModel {
    RegistryModel { entries: Seq::empty(), index: Seq::empty(), refreshed: false }
}

/// The position of the first entry with the alias, or their number.
pub open spec fn alias_at(entries: Seq<(Seq<char>, EntryModel)>, alias: Seq<char>) -> int
    decreases entries.len(),
{
    if entries.len() == 0 || entries[0].1.alias == alias {
        0
    } else {
        1 + alias_at(entries.drop_first(), alias)
    }
}

/// The position of the first entry with provider and name on the server, or their number.
pub open spec fn server_at(
    entries: Seq<(Seq<char>, EntryModel)>,
    provider: Seq<char>,
    server_model: Seq<char>,
) -> int
    decreases entries.len(),
{
    if entries.len() == 0 || (entries[0].1.provider == provider && entries[0].1.server_model
        == server_model) {
        0
    } else {
        1 + server_at(entries.drop_first(), provider, server_model)
    }
}

/// The registry with those models of the configuration whose alias it does not know yet.
pub open spec fn synced(m: RegistryModel, models: Seq<(Seq<char>, ModelConfig)>) -> RegistryModel
    decreases models.len(),
{
    if models.len() == 0 {
        m
    } else {
        let p = models.last();
        let before = synced(m, models.drop_last());
        if alias_at(before.entries, p.0) < before.entries.len() {
            before
        } else {
            added(before, configured(p.0, p.1))
        }
    }
}

/// The entries, none of them found.
pub open spec fn unfetched(entries: Seq<(Seq<char>, EntryModel)>) -> Seq<(Seq<char>, EntryModel)> {
    entries.map_values(|p: (Seq<char>, EntryModel)| (p.0, EntryModel { fetched: false, ..p.1 }))
}

/// The registry after one model was found.
pub open spec fn found(m: RegistryModel, id: Seq<char>, demand: Option<u64>) -> RegistryModel {
    match text::split_once(id, '/') {
        None => m,
        Some((provider, server_model)) => match table::lookup(m.index, slashed(provider, server_model)) {
            Some(key) => match table::lookup(m.entries, key) {
                Some(e) => RegistryModel {
                    entries: table::put(
                        m.entries,
                        key,
                        EntryModel { fetched: true, demand, ..e },
                    ),
                    ..m
                },
                None => m,
            },
            None => added(m, offered(provider, server_model, demand)),
        },
    }
}

/// The registry after all models of a list were found.
pub open spec fn all_found(m: RegistryModel, list: Seq<(Seq<char>, Option<u64>)>) -> RegistryModel
    decreases list.len(),
{
    if list.len() == 0 {
        m
    } else {
        found(all_found(m, list.drop_last()), list.last().0, list.last().1)
    }
}

/// The registry after the providers were asked.
pub open spec fn after_refresh(m: RegistryModel, list: Seq<(Seq<char>, Option<u64>)>) -> RegistryModel {
    RegistryModel {
        refreshed: true,
        ..all_found(RegistryModel { entries: unfetched(m.entries), ..m }, list)
    }
}

/// What is known of the model with the name `key`.
pub open spec fn status_of(m: RegistryModel, key: Seq<char>) -> Option<ModelStatus> {
    if !m.refreshed {
        None
    } else {
        match table::lookup(m.entries, key) {
            Some(e) => if e.in_config && e.fetched {
                Some(ModelStatus::ConfigAndFetched)
            } else if e.in_config {
                Some(ModelStatus::ConfigStale)
            } else if e.fetched {
                Some(ModelStatus::FetchedOnly)
            } else {
                None
            },
            None => None,
        }
    }
}

/// What a found list holds.
pub open spec fn found_views(list: Seq<(String, Option<u64>)>) -> Seq<(Seq<char>, Option<u64>)> {
    list.map_values(|p: (String, Option<u64>)| (p.0@, p.1))
}

/// What the values of a table of entries hold.
pub open spec fn entry_views(items: Seq<(Seq<char>, ModelEntry)>) -> Seq<(Seq<char>, EntryModel)> {
    items.map_values(|p: (Seq<char>, ModelEntry)| (p.0, p.1@))
}

/// What the names of a table of texts hold.
pub open spec fn text_views(items: Seq<(Seq<char>, String)>) -> Seq<(Seq<char>, Seq<char>)> {
    items.map_values(|p: (Seq<char>, String)| (p.0, p.1@))
}

proof fn lemma_entry_views(items: Seq<(Seq<char>, ModelEntry)>, key: Seq<char>, e: ModelEntry)
    ensures
        table::key_at(entry_views(items), key) == table::key_at(items, key),
        entry_views(table::put(items, key, e)) == table::put(entry_views(items), key, e@),
{
    let v = entry_views(items);
    table::lemma_key_at(items, key);
    assert forall|i: int| 0 <= i < table::key_at(items, key) implies (#[trigger] v[i]).0
        != key by {
        assert(items[i].0 != key);
    }
    table::lemma_key_at_is(v, key, table::key_at(items, key));
    assert(entry_views(table::put(items, key, e)) =~= table::put(v, key, e@));
}

proof fn lemma_text_views(items: Seq<(Seq<char>, String)>, key: Seq<char>, s: String)
    ensures
        table::key_at(text_views(items), key) == table::key_at(items, key),
        text_views(table::put(items, key, s)) == table::put(text_views(items), key, s@),
{
    let v = text_views(items);
    table::lemma_key_at(items, key);
    assert forall|i: int| 0 <= i < table::key_at(items, key) implies (#[trigger] v[i]).0
        != key by {
        assert(items[i].0 != key);
    }
    table::lemma_key_at_is(v, key, table::key_at(items, key));
    assert(text_views(table::put(items, key, s)) =~= table::put(v, key, s@));
}

proof fn lemma_alias_at_is(entries: Seq<(Seq<char>, EntryModel)>, alias: Seq<char>, k: int)
    requires
        0 <= k <= entries.len(),
        k < entries.len() ==> entries[k].1.alias == alias,
        forall|i: int| 0 <= i < k ==> (#[trigger] entries[i]).1.alias != alias,
    ensures
        alias_at(entries, alias) == k,
    decreases entries.len(),
{
    if k > 0 {
        assert(entries[0].1.alias != alias);
        let t = entries.drop_first();
        assert forall|i: int| 0 <= i < k - 1 implies (#[trigger] t[i]).1.alias != alias by {
            assert(t[i] == entries[i + 1]);
        }
        lemma_alias_at_is(t, alias, k - 1);
    }
}

proof fn lemma_server_at_is(
    entries: Seq<(Seq<char>, EntryModel)>,
    provider: Seq<char>,
    server_model: Seq<char>,
    k: int,
)
    requires
        0 <= k <= entries.len(),
        k < entries.len() ==> entries[k].1.provider == provider && entries[k].1.server_model
            == server_model,
        forall|i: int|
            0 <= i < k ==> !((#[trigger] entries[i]).1.provider == provider
                && entries[i].1.server_model == server_model),
    ensures
        server_at(entries, provider, server_model) == k,
    decreases entries.len(),
{
    if k > 0 {
        assert(!(entries[0].1.provider == provider && entries[0].1.server_model == server_model));
        let t = entries.drop_first();
        assert forall|i: int| 0 <= i < k - 1 implies !((#[trigger] t[i]).1.provider == provider
            && t[i].1.server_model == server_model) by {
            assert(t[i] == entries[i + 1]);
        }
        lemma_server_at_is(t, provider, server_model, k - 1);
    }
}

// ---------------------------------------------------------------------------
// The registry
// ---------------------------------------------------------------------------
/// All known models.
pub struct ModelRegistry {
    entries: OrderedTable<ModelEntry>,
    index: Table<String>,
    refreshed: bool,
}

impl View for ModelRegistry {
    type V = RegistryModel;

    closed spec fn view(&self) -> RegistryModel {
        RegistryModel {
            entries: entry_views(self.entries@),
            index: text_views(self.index@),
            refreshed: self.refreshed,
        }
    }
}

/// The entry for a model of the configuration.
fn configured_entry(alias: &str, m: &ModelConfig) -> (r: ModelEntry)
    ensures
        r@ == configured(alias@, *m),
{
    let (provider, server_model) = match text::split_once_text(m.id(), '/') {
        Some(p) => p,
        None => (String::new(), m.id().to_string()),
    };
    ModelEntry {
        provider,
        alias: alias.to_string(),
        server_model,
        context_window: m.context_window(),
        demand: None,
        in_config: true,
        fetched: false,
    }
}

impl ModelRegistry {
    /// No name occurs twice.
    pub closed spec fn wf(&self) -> bool {
        self.entries.wf() && self.index.wf()
    }

    /// The registry of the models of the configuration.
    pub fn new(config_models: &OrderedTable<ModelConfig>) -> (r: Self)
        requires
            config_models.wf(),
        ensures
            r@ == all_configured(empty_registry(), config_models@),
            r.wf(),
    {
        let mut r = ModelRegistry {
            entries: OrderedTable::new(),
            index: Table::new(),
            refreshed: false,
        };
        proof {
            assert(r@.entries =~= empty_registry().entries);
            assert(r@.index =~= empty_registry().index);
        }
        let n: usize = config_models.len();
        let mut i: usize = 0;
        assert(config_models@.take(0) =~= Seq::empty());
        while i < n
            invariant
                i <= n == config_models@.len(),
                config_models.wf(),
                r.wf(),
                r@ == all_configured(empty_registry(), config_models@.take(i as int)),
            decreases n - i,
        {
            let alias = config_models.key(i);
            r.add(configured_entry(alias.as_str(), config_models.value(i)));
            assert(config_models@.take(i + 1).drop_last() =~= config_models@.take(i as int));
            i += 1;
        }
        assert(config_models@.take(n as int) =~= config_models@);
        r
    }

    fn add(&mut self, e: ModelEntry)
        requires
            old(self).wf(),
        ensures
            final(self)@ == added(old(self)@, e@),
            final(self).wf(),
    {
        let key = e.key();
        let id = e.model_id();
        proof {
            lemma_entry_views(self.entries@, key@, e);
            lemma_text_views(self.index@, id@, key);
        }
        let again = key.clone();
        self.index.insert(id, key);
        self.entries.insert(again, e);
    }

    fn unfetch(&mut self)
        requires
            old(self).wf(),
        ensures
            final(self)@ == (RegistryModel {
                entries: unfetched(old(self)@.entries),
                ..old(self)@
            }),
            final(self).wf(),
    {
        let ghost before = self@;
        let n: usize = self.entries.len();
        let mut i: usize = 0;
        while i < n
            invariant
                i <= n,
                self.wf(),
                self@.entries.len() == n,
                before.entries.len() == n,
                self@.index == before.index,
                self@.refreshed == before.refreshed,
                forall|k: int|
                    0 <= k < i ==> (#[trigger] self@.entries[k]) == unfetched(before.entries)[k],
                forall|k: int| i <= k < n ==> (#[trigger] self@.entries[k]) == before.entries[k],
            decreases n - i,
        {
            let ghost here = self@;
            let mut e = self.entries.value(i).clone();
            e.fetched = false;
            assert(here.entries[i as int] == before.entries[i as int]);
            self.entries.set_value(i, e);
            assert(self@.entries =~= here.entries.update(
                i as int,
                (here.entries[i as int].0, e@),
            ));
            i += 1;
        }
        assert(self@.entries =~= unfetched(before.entries));
    }

    fn find(&mut self, id: &str, demand: Option<u64>)
        requires
            old(self).wf(),
        ensures
            final(self)@ == found(old(self)@, id@, demand),
            final(self).wf(),
    {
        let (provider, server_model) = match text::split_once_text(id, '/') {
            Some(p) => p,
            None => {
                return ;
            },
        };
        let ghost before = self@;
        let joint = text::concat3(provider.as_str(), "/", server_model.as_str());
        proof {
            lemma_text_views(self.index@, joint@, joint);
            table::lemma_key_at(self.index@, joint@);
        }
        let key = match self.index.get(joint.as_str()) {
            Some(k) => k.clone(),
            None => {
                let alias = server_model.clone();
                self.add(
                    ModelEntry {
                        provider,
                        alias,
                        server_model,
                        context_window: None,
                        demand,
                        in_config: false,
                        fetched: true,
                    },
                );
                return ;
            },
        };
        assert(table::lookup(before.index, joint@) == Some(key@));
        match self.entries.position(key.as_str()) {
            Some(i) => {
                let mut e = self.entries.value(i).clone();
                proof {
                    lemma_entry_views(self.entries@, key@, e);
                    table::lemma_key_at(self.entries@, key@);
                }
                e.fetched = true;
                e.demand = demand;
                self.entries.set_value(i, e);
                assert(self@.entries =~= found(before, id@, demand).entries);
            },
            None => {
                proof {
                    let e = arbitrary::<ModelEntry>();
                    lemma_entry_views(self.entries@, key@, e);
                }
            },
        }
    }

    /// Takes over what the providers offer.
    pub fn apply_refresh(&mut self, list: &Vec<(String, Option<u64>)>)
        requires
            old(self).wf(),
        ensures
            final(self)@ == after_refresh(old(self)@, found_views(list@)),
            final(self).wf(),
    {
        let ghost all = found_views(list@);
        self.unfetch();
        let ghost start = self@;
        let mut i: usize = 0;
        assert(all.take(0) =~= Seq::empty());
        while i < list.len()
            invariant
                i <= list@.len(),
                all == found_views(list@),
                self.wf(),
                self@ == all_found(start, all.take(i as int)),
            decreases list@.len() - i,
        {
            self.find(list[i].0.as_str(), list[i].1);
            assert(all.take(i + 1).drop_last() =~= all.take(i as int));
            i += 1;
        }
        assert(all.take(list@.len() as int) =~= all);
        self.refreshed = true;
    }

    /// What is known of the model with the name `key`; nothing before the first refresh.
    pub fn status(&self, key: &str) -> (r: Option<ModelStatus>)
        requires
            self.wf(),
        ensures
            r == status_of(self@, key@),
    {
        if !self.refreshed {
            return None;
        }
        match self.get(key) {
            Some(e) => if e.in_config && e.fetched {
                Some(ModelStatus::ConfigAndFetched)
            } else if e.in_config {
                Some(ModelStatus::ConfigStale)
            } else if e.fetched {
                Some(ModelStatus::FetchedOnly)
            } else {
                None
            },
            None => None,
        }
    }

    /// Adds the models of the configuration whose alias is not known yet.
    pub fn sync_from_config(&mut self, config_models: &OrderedTable<ModelConfig>)
        requires
            old(self).wf(),
            config_models.wf(),
        ensures
            final(self)@ == synced(old(self)@, config_models@),
            final(self).wf(),
    {
        let ghost before = self@;
        let n: usize = config_models.len();
        let mut i: usize = 0;
        assert(config_models@.take(0) =~= Seq::empty());
        while i < n
            invariant
                i <= n == config_models@.len(),
                config_models.wf(),
                self.wf(),
                self@ == synced(before, config_models@.take(i as int)),
            decreases n - i,
        {
            assert(config_models@.take(i + 1).drop_last() =~= config_models@.take(i as int));
            let alias = config_models.key(i);
            if self.alias_position(alias.as_str()).is_none() {
                self.add(configured_entry(alias.as_str(), config_models.value(i)));
            }
            i += 1;
        }
        assert(config_models@.take(n as int) =~= config_models@);
    }

    /// The entry with the name `key`.
    pub fn get(&self, key: &str) -> (r: Option<&ModelEntry>)
        requires
            self.wf(),
        ensures
            match r {
                Some(e) => table::lookup(self@.entries, key@) == Some(e@),
                None => table::lookup(self@.entries, key@) is None,
            },
    {
        proof {
            lemma_entry_views(self.entries@, key@, arbitrary());
            table::lemma_key_at(self.entries@, key@);
        }
        self.entries.get(key)
    }

    fn alias_position(&self, alias: &str) -> (r: Option<usize>)
        requires
            self.wf(),
        ensures
            match r {
                Some(i) => i < self@.entries.len() && i == alias_at(self@.entries, alias@),
                None => alias_at(self@.entries, alias@) == self@.entries.len(),
            },
    {
        let n: usize = self.entries.len();
        let mut i: usize = 0;
        while i < n
            invariant
                i <= n == self@.entries.len(),
                self.wf(),
                forall|k: int|
                    0 <= k < i ==> (#[trigger] self@.entries[k]).1.alias != alias@,
            decreases n - i,
        {
            assert(self@.entries[i as int].1 == self.entries@[i as int].1@);
            if text::same_text(self.entries.value(i).alias.as_str(), alias) {
                proof {
                    lemma_alias_at_is(self@.entries, alias@, i as int);
                }
                return Some(i);
            }
            i += 1;
        }
        proof {
            lemma_alias_at_is(self@.entries, alias@, n as int);
        }
        None
    }

    /// The first entry with the alias.
    pub fn get_by_alias(&self, alias: &str) -> (r: Option<&ModelEntry>)
        requires
            self.wf(),
        ensures
            ({
                let k = alias_at(self@.entries, alias@);
                match r {
                    Some(e) => k < self@.entries.len() && e@ == self@.entries[k].1,
                    None => k == self@.entries.len(),
                }
            }),
    {
        match self.alias_position(alias) {
            Some(i) => Some(self.entries.value(i)),
            None => None,
        }
    }

    /// The first entry with the identity: provider, slash, name on the server.
    pub fn find_by_model_id(&self, model_id: &str) -> (r: Option<&ModelEntry>)
        requires
            self.wf(),
        ensures
            match text::split_once(model_id@, '/') {
                None => r is None,
                Some((provider, server_model)) => {
                    let k = server_at(self@.entries, provider, server_model);
                    match r {
                        Some(e) => k < self@.entries.len() && e@ == self@.entries[k].1,
                        None => k == self@.entries.len(),
                    }
                },
            },
    {
        let (provider, server_model) = match text::split_once_text(model_id, '/') {
            Some(p) => p,
            None => {
                return None;
            },
        };
        let n: usize = self.entries.len();
        let mut i: usize = 0;
        while i < n
            invariant
                i <= n == self@.entries.len(),
                self.wf(),
                text::split_once(model_id@, '/') == Some((provider@, server_model@)),
                forall|k: int|
                    0 <= k < i ==> !((#[trigger] self@.entries[k]).1.provider == provider@
                        && self@.entries[k].1.server_model == server_model@),
            decreases n - i,
        {
            let e = self.entries.value(i);
            assert(self@.entries[i as int].1 == e@);
            if text::same_text(e.provider.as_str(), provider.as_str()) && text::same_text(
                e.server_model.as_str(),
                server_model.as_str(),
            ) {
                proof {
                    lemma_server_at_is(self@.entries, provider@, server_model@, i as int);
                }
                return Some(e);
            }
            i += 1;
        }
        proof {
            lemma_server_at_is(self@.entries, provider@, server_model@, n as int);
        }
        None
    }

    /// All entries, in the order in which they came.
    pub fn all(&self) -> (r: Vec<&ModelEntry>)
        requires
            self.wf(),
        ensures
            r@.len() == self@.entries.len(),
            forall|i: int| 0 <= i < r@.len() ==> (#[trigger] r@[i])@ == self@.entries[i].1,
    {
        let n: usize = self.entries.len();
        let mut out: Vec<&ModelEntry> = Vec::new();
        let mut i: usize = 0;
        while i < n
            invariant
                i <= n == self@.entries.len(),
                self.wf(),
                out@.len() == i,
                forall|k: int| 0 <= k < i ==> (#[trigger] out@[k])@ == self@.entries[k].1,
            decreases n - i,
        {
            out.push(self.entries.value(i));
            i += 1;
        }
        out
    }

    /// How many models are known.
    pub fn len(&self) -> (r: usize)
        requires
            self.wf(),
        ensures
            r == self@.entries.len(),
    {
        self.entries.len()
    }
}

// ---------------------------------------------------------------------------
// Laws
// ---------------------------------------------------------------------------
/// Whether every entry stands under its own name and every identity leads to an entry.
pub open spec fn consistent(m: RegistryModel) -> bool {
    &&& table::unique_keys(m.entries)
    &&& forall|i: int|
        0 <= i < m.entries.len() ==> (#[trigger] m.entries[i]).0 == key_of(m.entries[i].1)
            && !m.entries[i].1.provider.contains('/')
    &&& forall|i: int|
        0 <= i < m.index.len() ==> table::has_key(m.entries, (#[trigger] m.index[i]).1)
}

proof fn lemma_slashed(a: Seq<char>, b: Seq<char>, c: Seq<char>, d: Seq<char>)
    requires
        slashed(a, b) == slashed(c, d),
        !a.contains('/'),
        !c.contains('/'),
    ensures
        a == c,
        b == d,
{
    reveal_strlit("/");
    let s = slashed(a, b);
    assert(s[a.len() as int] == '/');
    assert(s[c.len() as int] == '/');
    assert(a.len() == c.len()) by {
        if a.len() < c.len() {
            assert(c[a.len() as int] == s[a.len() as int]);
        }
        if c.len() < a.len() {
            assert(a[c.len() as int] == s[c.len() as int]);
        }
    }
    assert(s.take(a.len() as int) =~= a);
    assert(s.take(a.len() as int) =~= c);
    assert(s.skip(a.len() as int + 1) =~= b);
    assert(s.skip(a.len() as int + 1) =~= d);
}

proof fn lemma_parts(id: Seq<char>)
    ensures
        !parts_of(id).0.contains('/'),
{
    text::lemma_pos(id, '/');
}

proof fn lemma_has_key_after_put<V>(
    items: Seq<(Seq<char>, V)>,
    key: Seq<char>,
    value: V,
    other: Seq<char>,
)
    ensures
        table::has_key(table::put(items, key, value), key),
        table::has_key(items, other) ==> table::has_key(table::put(items, key, value), other),
{
    table::law_lookup_after_put(items, key, value, other);
}

proof fn lemma_put_consistent(m: RegistryModel, e: EntryModel)
    requires
        consistent(m),
        !e.provider.contains('/'),
    ensures
        consistent(RegistryModel { entries: table::put(m.entries, key_of(e), e), ..m }),
{
    let w = table::put(m.entries, key_of(e), e);
    table::lemma_put_unique(m.entries, key_of(e), e);
    table::lemma_key_at(m.entries, key_of(e));
    assert forall|i: int| 0 <= i < w.len() implies (#[trigger] w[i]).0 == key_of(w[i].1)
        && !w[i].1.provider.contains('/') by {
        if i < m.entries.len() {
            assert(m.entries[i].0 == key_of(m.entries[i].1));
        }
    }
    assert forall|i: int| 0 <= i < m.index.len() implies table::has_key(
        w,
        (#[trigger] m.index[i]).1,
    ) by {
        lemma_has_key_after_put(m.entries, key_of(e), e, m.index[i].1);
    }
}

proof fn lemma_added_consistent(m: RegistryModel, e: EntryModel)
    requires
        consistent(m),
        !e.provider.contains('/'),
    ensures
        consistent(added(m, e)),
{
    lemma_put_consistent(m, e);
    let w = added(m, e);
    table::lemma_key_at(m.index, model_id_of(e));
    assert forall|i: int| 0 <= i < w.index.len() implies table::has_key(
        w.entries,
        (#[trigger] w.index[i]).1,
    ) by {
        lemma_has_key_after_put(m.entries, key_of(e), e, key_of(e));
        if i < m.index.len() {
            lemma_has_key_after_put(m.entries, key_of(e), e, m.index[i].1);
        }
    }
}

proof fn lemma_found_consistent(m: RegistryModel, id: Seq<char>, demand: Option<u64>)
    requires
        consistent(m),
    ensures
        consistent(found(m, id, demand)),
{
    if let Some((provider, server_model)) = text::split_once(id, '/') {
        lemma_parts(id);
        let joint = slashed(provider, server_model);
        match table::lookup(m.index, joint) {
            Some(key) => {
                table::lemma_key_at(m.entries, key);
                if let Some(e) = table::lookup(m.entries, key) {
                    lemma_put_consistent(m, EntryModel { fetched: true, demand, ..e });
                }
            },
            None => {
                lemma_added_consistent(m, offered(provider, server_model, demand));
            },
        }
    }
}

proof fn lemma_all_found_consistent(m: RegistryModel, list: Seq<(Seq<char>, Option<u64>)>)
    requires
        consistent(m),
    ensures
        consistent(all_found(m, list)),
        all_found(m, list).refreshed == m.refreshed,
    decreases list.len(),
{
    if list.len() > 0 {
        lemma_all_found_consistent(m, list.drop_last());
        lemma_found_consistent(all_found(m, list.drop_last()), list.last().0, list.last().1);
    }
}

proof fn lemma_unfetched_consistent(m: RegistryModel)
    requires
        consistent(m),
    ensures
        consistent(RegistryModel { entries: unfetched(m.entries), ..m }),
        forall|key: Seq<char>| #[trigger]
            table::key_at(unfetched(m.entries), key) == table::key_at(m.entries, key),
{
    let w = unfetched(m.entries);
    assert forall|key: Seq<char>| #[trigger] table::key_at(w, key) == table::key_at(
        m.entries,
        key,
    ) by {
        table::lemma_key_at(m.entries, key);
        assert forall|i: int| 0 <= i < table::key_at(m.entries, key) implies (#[trigger] w[i]).0
            != key by {
            assert(m.entries[i].0 != key);
        }
        table::lemma_key_at_is(w, key, table::key_at(m.entries, key));
    }
    assert forall|i: int, j: int|
        0 <= i < w.len() && 0 <= j < w.len() && i != j implies #[trigger] w[i].0
        != #[trigger] w[j].0 by {
        assert(m.entries[i].0 != m.entries[j].0);
    }
    assert forall|i: int| 0 <= i < w.len() implies (#[trigger] w[i]).0 == key_of(w[i].1)
        && !w[i].1.provider.contains('/') by {
        assert(m.entries[i].0 == key_of(m.entries[i].1));
    }
    assert forall|i: int| 0 <= i < m.index.len() implies table::has_key(
        w,
        (#[trigger] m.index[i]).1,
    ) by {
        assert(table::key_at(w, m.index[i].1) == table::key_at(m.entries, m.index[i].1));
        assert(table::has_key(m.entries, m.index[i].1));
    }
}

/// The registry of a configuration is consistent.
pub proof fn law_configured_registry_is_consistent(models: Seq<(Seq<char>, ModelConfig)>)
    ensures
        consistent(all_configured(empty_registry(), models)),
    decreases models.len(),
{
    if models.len() > 0 {
        law_configured_registry_is_consistent(models.drop_last());
        lemma_parts(config::id_of(models.last().1));
        lemma_added_consistent(
            all_configured(empty_registry(), models.drop_last()),
            configured(models.last().0, models.last().1),
        );
    }
}

/// A refresh keeps the registry consistent.
pub proof fn law_refresh_keeps_consistency(
    m: RegistryModel,
    list: Seq<(Seq<char>, Option<u64>)>,
)
    requires
        consistent(m),
    ensures
        consistent(after_refresh(m, list)),
{
    lemma_unfetched_consistent(m);
    lemma_all_found_consistent(RegistryModel { entries: unfetched(m.entries), ..m }, list);
}

/// Taking over the configuration keeps the registry consistent.
pub proof fn law_sync_keeps_consistency(m: RegistryModel, models: Seq<(Seq<char>, ModelConfig)>)
    requires
        consistent(m),
    ensures
        consistent(synced(m, models)),
    decreases models.len(),
{
    if models.len() > 0 {
        law_sync_keeps_consistency(m, models.drop_last());
        lemma_parts(config::id_of(models.last().1));
        lemma_added_consistent(
            synced(m, models.drop_last()),
            configured(models.last().0, models.last().1),
        );
    }
}

proof fn lemma_alias_at(entries: Seq<(Seq<char>, EntryModel)>, alias: Seq<char>, i: int)
    requires
        0 <= i < entries.len(),
        entries[i].1.alias == alias,
    ensures
        alias_at(entries, alias) <= i,
    decreases i,
{
    if i > 0 {
        assert(entries.drop_first()[i - 1] == entries[i]);
        lemma_alias_at(entries.drop_first(), alias, i - 1);
    }
}

proof fn lemma_alias_found(entries: Seq<(Seq<char>, EntryModel)>, alias: Seq<char>)
    ensures
        0 <= alias_at(entries, alias) <= entries.len(),
        alias_at(entries, alias) < entries.len() ==> entries[alias_at(entries, alias)].1.alias
            == alias,
    decreases entries.len(),
{
    if entries.len() > 0 && entries[0].1.alias != alias {
        lemma_alias_found(entries.drop_first(), alias);
    }
}

/// Taking over the configuration leaves the known entries as they are.
pub proof fn law_sync_keeps_known_entries(
    m: RegistryModel,
    models: Seq<(Seq<char>, ModelConfig)>,
    key: Seq<char>,
)
    requires
        consistent(m),
        table::has_key(m.entries, key),
    ensures
        table::lookup(synced(m, models).entries, key) == table::lookup(m.entries, key),
        synced(m, models).refreshed == m.refreshed,
    decreases models.len(),
{
    if models.len() > 0 {
        let before = synced(m, models.drop_last());
        let p = models.last();
        law_sync_keeps_known_entries(m, models.drop_last(), key);
        law_sync_keeps_consistency(m, models.drop_last());
        if alias_at(before.entries, p.0) >= before.entries.len() {
            let e = configured(p.0, p.1);
            table::law_lookup_after_put(before.entries, key_of(e), e, key);
            if key_of(e) == key {
                table::lemma_key_at(before.entries, key);
                let i = table::key_at(before.entries, key);
                let known = before.entries[i].1;
                lemma_parts(config::id_of(p.1));
                lemma_slashed(known.provider, known.alias, e.provider, e.alias);
                lemma_alias_at(before.entries, p.0, i);
            }
        }
    }
}

/// After the configuration was taken over, each of its aliases is known.
pub proof fn law_sync_knows_every_alias(
    m: RegistryModel,
    models: Seq<(Seq<char>, ModelConfig)>,
    k: int,
)
    requires
        consistent(m),
        0 <= k < models.len(),
    ensures
        alias_at(synced(m, models).entries, models[k].0) < synced(m, models).entries.len(),
    decreases models.len(),
{
    let before = synced(m, models.drop_last());
    let after = synced(m, models);
    let p = models.last();
    law_sync_keeps_consistency(m, models.drop_last());
    let e = configured(p.0, p.1);
    table::lemma_key_at(before.entries, key_of(e));
    lemma_parts(config::id_of(p.1));
    if k < models.len() - 1 {
        law_sync_knows_every_alias(m, models.drop_last(), k);
        lemma_alias_found(before.entries, models[k].0);
        let i = alias_at(before.entries, models[k].0);
        let known = before.entries[i].1;
        if alias_at(before.entries, p.0) >= before.entries.len() {
            if i == table::key_at(before.entries, key_of(e)) {
                lemma_slashed(known.provider, known.alias, e.provider, e.alias);
            }
            lemma_alias_at(after.entries, models[k].0, i);
        }
    } else if alias_at(before.entries, p.0) >= before.entries.len() {
        lemma_alias_at(after.entries, p.0, table::key_at(before.entries, key_of(e)));
    }
}

/// Before the first refresh nothing is said of any model.
pub proof fn law_no_status_before_a_refresh(models: Seq<(Seq<char>, ModelConfig)>, key: Seq<char>)
    ensures
        !all_configured(empty_registry(), models).refreshed,
        status_of(all_configured(empty_registry(), models), key) is None,
    decreases models.len(),
{
    if models.len() > 0 {
        law_no_status_before_a_refresh(models.drop_last(), key);
    }
}

proof fn lemma_found_goes_up(m: RegistryModel, id: Seq<char>, demand: Option<u64>, other: Seq<char>)
    requires
        consistent(m),
    ensures
        ({
            let w = found(m, id, demand);
            &&& table::lookup(m.index, other) is Some ==> table::lookup(w.index, other)
                == table::lookup(m.index, other)
            &&& forall|key: Seq<char>|
                (#[trigger] table::lookup(m.entries, key)) is Some && (table::lookup(
                    m.entries,
                    key,
                )->0).fetched ==> table::lookup(w.entries, key) is Some && (table::lookup(
                    w.entries,
                    key,
                )->0).fetched
        }),
{
    let w = found(m, id, demand);
    if let Some((provider, server_model)) = text::split_once(id, '/') {
        let joint = slashed(provider, server_model);
        match table::lookup(m.index, joint) {
            Some(key) => {
                if let Some(e) = table::lookup(m.entries, key) {
                    assert forall|k: Seq<char>|
                        (#[trigger] table::lookup(m.entries, k)) is Some && (table::lookup(
                            m.entries,
                            k,
                        )->0).fetched implies table::lookup(w.entries, k) is Some
                        && (table::lookup(w.entries, k)->0).fetched by {
                        table::law_lookup_after_put(
                            m.entries,
                            key,
                            EntryModel { fetched: true, demand, ..e },
                            k,
                        );
                    }
                }
            },
            None => {
                let e = offered(provider, server_model, demand);
                table::law_lookup_after_put(m.index, model_id_of(e), key_of(e), other);
                assert forall|k: Seq<char>|
                    (#[trigger] table::lookup(m.entries, k)) is Some && (table::lookup(
                        m.entries,
                        k,
                    )->0).fetched implies table::lookup(w.entries, k) is Some && (table::lookup(
                    w.entries,
                    k,
                )->0).fetched by {
                    table::law_lookup_after_put(m.entries, key_of(e), e, k);
                }
            },
        }
    }
}

/// Whether the identity leads to an entry that was found.
pub open spec fn is_found(m: RegistryModel, joint: Seq<char>) -> bool {
    match table::lookup(m.index, joint) {
        Some(key) => match table::lookup(m.entries, key) {
            Some(e) => e.fetched,
            None => false,
        },
        None => false,
    }
}

proof fn lemma_found_is_found(m: RegistryModel, id: Seq<char>, demand: Option<u64>)
    requires
        consistent(m),
        text::split_once(id, '/') is Some,
    ensures
        is_found(found(m, id, demand), slashed(parts_of(id).0, parts_of(id).1)),
{
    let (provider, server_model) = parts_of(id);
    let joint = slashed(provider, server_model);
    match table::lookup(m.index, joint) {
        Some(key) => {
            table::lemma_key_at(m.index, joint);
            assert(table::has_key(m.entries, m.index[table::key_at(m.index, joint)].1));
            let e = table::lookup(m.entries, key)->0;
            table::law_lookup_after_put(
                m.entries,
                key,
                EntryModel { fetched: true, demand, ..e },
                key,
            );
        },
        None => {
            let e = offered(provider, server_model, demand);
            table::law_lookup_after_put(m.index, joint, key_of(e), joint);
            table::law_lookup_after_put(m.entries, key_of(e), e, key_of(e));
        },
    }
}

proof fn lemma_all_found(m: RegistryModel, list: Seq<(Seq<char>, Option<u64>)>, k: int)
    requires
        consistent(m),
        0 <= k < list.len(),
        text::split_once(list[k].0, '/') is Some,
    ensures
        is_found(
            all_found(m, list),
            slashed(parts_of(list[k].0).0, parts_of(list[k].0).1),
        ),
    decreases list.len(),
{
    let before = all_found(m, list.drop_last());
    lemma_all_found_consistent(m, list.drop_last());
    let joint = slashed(parts_of(list[k].0).0, parts_of(list[k].0).1);
    if k == list.len() - 1 {
        lemma_found_is_found(before, list.last().0, list.last().1);
    } else {
        lemma_all_found(m, list.drop_last(), k);
        lemma_found_goes_up(before, list.last().0, list.last().1, joint);
    }
}

/// Whatever the providers offer is found after the refresh.
pub proof fn law_offered_models_are_found(
    m: RegistryModel,
    list: Seq<(Seq<char>, Option<u64>)>,
    k: int,
)
    requires
        consistent(m),
        0 <= k < list.len(),
        text::split_once(list[k].0, '/') is Some,
    ensures
        is_found(
            after_refresh(m, list),
            slashed(parts_of(list[k].0).0, parts_of(list[k].0).1),
        ),
{
    lemma_unfetched_consistent(m);
    lemma_all_found(RegistryModel { entries: unfetched(m.entries), ..m }, list, k);
}

proof fn lemma_found_keeps_settings(
    m: RegistryModel,
    id: Seq<char>,
    demand: Option<u64>,
    key: Seq<char>,
)
    requires
        table::has_key(m.entries, key),
        key != slashed(parts_of(id).0, parts_of(id).1),
    ensures
        same_settings(
            table::lookup(m.entries, key),
            table::lookup(found(m, id, demand).entries, key),
        ),
{
    if let Some((provider, server_model)) = text::split_once(id, '/') {
        match table::lookup(m.index, slashed(provider, server_model)) {
            Some(there) => {
                if let Some(e) = table::lookup(m.entries, there) {
                    table::law_lookup_after_put(
                        m.entries,
                        there,
                        EntryModel { fetched: true, demand, ..e },
                        key,
                    );
                }
            },
            None => {
                let e = offered(provider, server_model, demand);
                table::law_lookup_after_put(m.entries, key_of(e), e, key);
            },
        }
    }
}

/// Whether both are there and differ at most in what a refresh reports.
pub open spec fn same_settings(a: Option<EntryModel>, b: Option<EntryModel>) -> bool {
    match (a, b) {
        (Some(x), Some(y)) => y == (EntryModel { demand: y.demand, fetched: y.fetched, ..x }),
        _ => false,
    }
}

proof fn lemma_all_found_keeps_settings(
    m: RegistryModel,
    list: Seq<(Seq<char>, Option<u64>)>,
    key: Seq<char>,
)
    requires
        table::has_key(m.entries, key),
        forall|k: int|
            0 <= k < list.len() ==> key != slashed(
                parts_of((#[trigger] list[k]).0).0,
                parts_of(list[k].0).1,
            ),
    ensures
        same_settings(
            table::lookup(m.entries, key),
            table::lookup(all_found(m, list).entries, key),
        ),
    decreases list.len(),
{
    if list.len() > 0 {
        assert forall|k: int| 0 <= k < list.drop_last().len() implies key != slashed(
            parts_of((#[trigger] list.drop_last()[k]).0).0,
            parts_of(list.drop_last()[k].0).1,
        ) by {
            assert(list.drop_last()[k] == list[k]);
        }
        lemma_all_found_keeps_settings(m, list.drop_last(), key);
        lemma_found_keeps_settings(
            all_found(m, list.drop_last()),
            list.last().0,
            list.last().1,
            key,
        );
    }
}

/// A refresh keeps every entry whose name is not the identity of an offered model: only its demand
/// and whether it was found may change.
pub proof fn law_refresh_keeps_settings(
    m: RegistryModel,
    list: Seq<(Seq<char>, Option<u64>)>,
    key: Seq<char>,
)
    requires
        consistent(m),
        table::has_key(m.entries, key),
        forall|k: int|
            0 <= k < list.len() ==> key != slashed(
                parts_of((#[trigger] list[k]).0).0,
                parts_of(list[k].0).1,
            ),
    ensures
        same_settings(
            table::lookup(m.entries, key),
            table::lookup(after_refresh(m, list).entries, key),
        ),
{
    lemma_unfetched_consistent(m);
    let start = RegistryModel { entries: unfetched(m.entries), ..m };
    table::lemma_key_at(m.entries, key);
    assert(table::key_at(start.entries, key) == table::key_at(m.entries, key));
    lemma_all_found_keeps_settings(start, list, key);
}

/// A model is known by its provider and its name; where the server calls it otherwise that is shown
/// too, and where it is asked for much, how much.
pub proof fn law_models_are_shown_with_their_names(e: EntryModel)
    ensures
        key_of(e) == e.provider + "/"@ + e.alias,
        model_id_of(e) == e.provider + "/"@ + e.server_model,
        e.alias == e.server_model && e.demand is None ==> full_display(e) == e.provider + "/"@
            + e.alias,
        e.alias != e.server_model && e.demand is None ==> full_display(e) == e.provider + "/"@
            + e.alias + " ("@ + e.server_model + ")"@,
        e.demand matches Some(d) ==> (d > 0 ==> full_display(e) == full_display(
            EntryModel { demand: None, ..e },
        ) + " · 🔥"@ + text::decimal(d as nat)),
        e.demand == Some(0u64) ==> full_display(e) == full_display(EntryModel { demand: None, ..e }),
{
}

/// A configured model has the provider and the name of its identity, the alias that it is configured
/// under and its window; nothing is known of it from a provider yet.
pub proof fn law_configured_models_are_taken_as_they_are(
    alias: Seq<char>,
    m: ModelConfig,
    provider: Seq<char>,
    server: Seq<char>,
)
    requires
        !provider.contains('/'),
        config::id_of(m) == provider + seq!['/'] + server,
    ensures
        configured(alias, m) == (EntryModel {
            provider,
            alias,
            server_model: server,
            context_window: config::window_of(m),
            demand: None,
            in_config: true,
            fetched: false,
        }),
{
    text::law_texts_are_cut_at_the_first(provider, server, '/');
}

/// A model that a provider offers and that nobody configured is added under its own name; one that is
/// configured keeps its alias and its window and is marked as offered, with how much it is asked for.
pub proof fn law_offers_are_added_or_marked(
    m: RegistryModel,
    provider: Seq<char>,
    server: Seq<char>,
    demand: Option<u64>,
    key: Seq<char>,
    e: EntryModel,
)
    requires
        !provider.contains('/'),
        table::unique_keys(m.entries),
    ensures
        ({
            let id = provider + seq!['/'] + server;
            let n = found(m, id, demand);
            let known = table::lookup(m.index, provider + "/"@ + server);
            &&& known is None ==> table::lookup(n.entries, provider + "/"@ + server) == Some(
                EntryModel {
                    provider,
                    alias: server,
                    server_model: server,
                    context_window: None,
                    demand,
                    in_config: false,
                    fetched: true,
                },
            )
            &&& known == Some(key) && table::lookup(m.entries, key) == Some(e) ==> table::lookup(
                n.entries,
                key,
            ) == Some(EntryModel { fetched: true, demand, ..e }) && n.index == m.index
        }),
        found(m, provider, demand) == m,
{
    let id = provider + seq!['/'] + server;
    text::law_texts_are_cut_at_the_first(provider, server, '/');
    let joint = slashed(provider, server);
    let new = offered(provider, server, demand);
    table::law_lookup_after_put(m.entries, joint, new, joint);
    table::law_lookup_after_put(m.entries, key, EntryModel { fetched: true, demand, ..e }, key);
}

/// What is known of a model is told once the providers were asked: configured and offered, configured
/// and no longer offered, or only offered.
pub proof fn law_the_state_of_a_model(m: RegistryModel, key: Seq<char>, e: EntryModel)
    requires
        m.refreshed,
    ensures
        table::lookup(m.entries, key) == Some(e) ==> status_of(m, key) == (match (
            e.in_config,
            e.fetched,
        ) {
            (true, true) => Some(ModelStatus::ConfigAndFetched),
            (true, false) => Some(ModelStatus::ConfigStale),
            (false, true) => Some(ModelStatus::FetchedOnly),
            (false, false) => None,
        }),
        table::lookup(m.entries, key) is None ==> status_of(m, key) is None,
{
}

/// After an answer nothing counts as offered but what was in it.
pub proof fn law_an_answer_replaces_the_one_before(m: RegistryModel, i: int)
    requires
        0 <= i < m.entries.len(),
    ensures
        ({
            let n = after_refresh(m, Seq::empty());
            &&& n.refreshed
            &&& n.entries.len() == m.entries.len()
            &&& n.entries[i].0 == m.entries[i].0
            &&& n.entries[i].1 == (EntryModel { fetched: false, ..m.entries[i].1 })
        }),
{
}

/// A model is found by its alias, and by its provider and the name that the server knows: the first
/// one of the list that has them.
pub proof fn law_models_are_found_by_their_alias(
    entries: Seq<(Seq<char>, EntryModel)>,
    alias: Seq<char>,
    k: int,
)
    requires
        0 <= k < entries.len(),
        entries[k].1.alias == alias,
        forall|j: int| 0 <= j < k ==> (#[trigger] entries[j]).1.alias != alias,
    ensures
        alias_at(entries, alias) == k,
    decreases entries.len(),
{
    if k > 0 {
        let t = entries.drop_first();
        assert(entries[0].1.alias != alias);
        assert forall|j: int| 0 <= j < k - 1 implies (#[trigger] t[j]).1.alias != alias by {
            assert(t[j] == entries[j + 1]);
        }
        law_models_are_found_by_their_alias(t, alias, k - 1);
    }
}

/// A model is found by its provider and the name that the server knows.
pub proof fn law_models_are_found_by_their_server_name(
    entries: Seq<(Seq<char>, EntryModel)>,
    provider: Seq<char>,
    server: Seq<char>,
    k: int,
)
    requires
        0 <= k < entries.len(),
        entries[k].1.provider == provider,
        entries[k].1.server_model == server,
        forall|j: int|
            0 <= j < k ==> (#[trigger] entries[j]).1.provider != provider
                || entries[j].1.server_model != server,
    ensures
        server_at(entries, provider, server) == k,
    decreases entries.len(),
{
    if k > 0 {
        let t = entries.drop_first();
        assert(entries[0].1.provider != provider || entries[0].1.server_model != server);
        assert forall|j: int| 0 <= j < k - 1 implies (#[trigger] t[j]).1.provider != provider
            || t[j].1.server_model != server by {
            assert(t[j] == entries[j + 1]);
        }
        law_models_are_found_by_their_server_name(t, provider, server, k - 1);
    }
}

/// A model that is added is known under its key and under the identity that its provider knows.
pub proof fn law_added_models_are_known(m: RegistryModel, e: EntryModel, other: Seq<char>)
    ensures
        table::lookup(added(m, e).entries, e.provider + "/"@ + e.alias) == Some(e),
        table::lookup(added(m, e).index, e.provider + "/"@ + e.server_model) == Some(
            e.provider + "/"@ + e.alias,
        ),
        other != e.provider + "/"@ + e.alias ==> table::lookup(added(m, e).entries, other)
            == table::lookup(m.entries, other),
        added(m, e).refreshed == m.refreshed,
{
    table::law_lookup_after_put(m.entries, key_of(e), e, key_of(e));
    table::law_lookup_after_put(m.entries, key_of(e), e, other);
    table::law_lookup_after_put(m.index, model_id_of(e), key_of(e), model_id_of(e));
}

} // verus!
