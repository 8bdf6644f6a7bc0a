//! The lists of channels and of models.

use super::close;
use super::keys::{KeyCode, KeyEvent};
use super::list;
use super::list::{ListNav, Selection};
use super::models;
use super::session;
use super::session::apply_channel_permission_default;
use super::state;
use super::state::{App, AppModel};
use super::types;
use super::types::{ChannelPick, ChannelPicker, CloseKind, ModelPick, ModelPicker, Task};
use crate::channel::registry;
use crate::channel::{BoundChannel, Channel, ChannelKind};
use crate::config;
use crate::config::{Config, ProviderConfig};
use crate::table;
use crate::text;
use vstd::prelude::*;
use vstd::string::*;

verus! {

// ---------------------------------------------------------------------------
// Channels
// ---------------------------------------------------------------------------
/// The entries of the list of channels: none, those that there are by name, and a new one.
pub open spec fn channel_list(map: Seq<(Seq<char>, registry::BoundModel)>) -> Seq<types::PickModel> {
    seq![types::PickModel::NoChannel] + text::in_name_order(table::keys(map)).map_values(
        |n: Seq<char>| types::PickModel::Channel { name: n },
    ) + seq![types::PickModel::NewChannel]
}

/// The name of the channel of a session.
pub open spec fn bound_name(
    map: Seq<(Seq<char>, registry::BoundModel)>,
    c: Option<registry::BoundModel>,
) -> Option<Seq<char>> {
    match c {
        None => None,
        Some(c) => {
            let k = registry::id_at(map, c.id);
            if k < map.len() {
                Some(map[k].0)
            } else {
                None
            }
        },
    }
}

/// The position of the first entry with the name, or how many entries there are.
pub open spec fn pick_at(items: Seq<types::PickModel>, name: Seq<char>) -> int
    decreases items.len(),
{
    if items.len() == 0 || items[0] == (types::PickModel::Channel { name }) {
        0
    } else {
        1 + pick_at(items.drop_first(), name)
    }
}

/// The position, or the first one where it is behind the end.
pub open spec fn or_first(k: int, len: nat) -> int {
    if k < len {
        k
    } else {
        0
    }
}

/// The state with the list of channels open and the channel of the active session marked.
#[verifier::opaque]
pub open spec fn with_channels(m: AppModel) -> AppModel {
    let items = channel_list(m.channels.map);
    let cursor = match bound_name(m.channels.map, m.current().channel) {
        Some(name) => or_first(pick_at(items, name), items.len()),
        None => 0,
    };
    AppModel {
        channel_picker: Some(
            types::SelModel {
                items,
                nav: ListNav {
                    len: items.len() as usize,
                    cursor: list::last_or(cursor as usize, items.len() as usize),
                    offset: 0,
                    wrap: false,
                },
            },
        ),
        ..m
    }
}

/// The session on another channel.
pub open spec fn bound_to(s: session::SessionModel, c: Option<registry::BoundModel>) -> session::SessionModel {
    session::level_defaulted(session::SessionModel { channel: c, ..s })
}

/// The work to start a channel, where there is something to start.
pub open spec fn warming(c: registry::BoundModel) -> types::TaskModel {
    if c.says().kind == ChannelKind::PodmanRun {
        types::TaskModel::Warmup(c)
    } else {
        types::TaskModel::Nothing
    }
}

/// State and work after a channel was chosen by its name.
pub open spec fn named_chosen(m: AppModel, name: Seq<char>) -> (AppModel, types::TaskModel) {
    match table::lookup(m.channels.map, name) {
        Some(c) => (
            m.with_current(bound_to(state::quiet(m.current()), Some(c))),
            warming(c),
        ),
        None => (
            m.telling("Channel \""@ + name + "\" is not available."@),
            types::TaskModel::Nothing,
        ),
    }
}

/// State and work after an entry of the list of channels was chosen.
#[verifier::opaque]
pub open spec fn channel_chosen(m: AppModel) -> (AppModel, types::TaskModel) {
    match m.channel_picker {
        None => (m, types::TaskModel::Nothing),
        Some(p) => {
            let n = AppModel { channel_picker: None, ..m };
            if p.items.len() == 0 {
                (n, types::TaskModel::Nothing)
            } else {
                match p.items[p.nav.cursor as int] {
                    types::PickModel::NoChannel => (
                        n.with_current(bound_to(n.current(), None)),
                        types::TaskModel::Nothing,
                    ),
                    types::PickModel::NewChannel => (n, types::TaskModel::OpenBuilder),
                    types::PickModel::Channel { name } => named_chosen(n, name),
                }
            }
        },
    }
}

/// The name of the marked channel.
pub open spec fn marked_channel(p: types::SelModel<types::PickModel>) -> Option<Seq<char>> {
    if p.items.len() == 0 {
        None
    } else {
        match p.items[p.nav.cursor as int] {
            types::PickModel::Channel { name } => Some(name),
            _ => None,
        }
    }
}

/// The work to start a channel, where there is something to start.
pub fn warmup_channel(ch: &BoundChannel) -> (r: Task)
    ensures
        r@ == warming(ch@),
{
    if ch.data.kind() == ChannelKind::PodmanRun {
        Task::Warmup(ch.clone())
    } else {
        Task::Nothing
    }
}

proof fn lemma_pick_at_is(items: Seq<types::PickModel>, name: Seq<char>, k: int)
    requires
        0 <= k <= items.len(),
        k < items.len() ==> items[k] == (types::PickModel::Channel { name }),
        forall|i: int| 0 <= i < k ==> #[trigger] items[i] != (types::PickModel::Channel { name }),
    ensures
        pick_at(items, name) == k,
    decreases items.len(),
{
    if k > 0 {
        assert(items[0] != (types::PickModel::Channel { name }));
        let t = items.drop_first();
        assert forall|i: int| 0 <= i < k - 1 implies #[trigger] t[i] != (
        types::PickModel::Channel { name }) by {
            assert(t[i] == items[i + 1]);
        }
        lemma_pick_at_is(t, name, k - 1);
    }
}

fn position_of(items: &Vec<ChannelPick>, name: &str) -> (r: usize)
    ensures
        r == or_first(pick_at(types::pick_views(items@), name@), items@.len()),
{
    let ghost want = types::pick_views(items@);
    let mut i: usize = 0;
    while i < items.len()
        invariant
            i <= items@.len(),
            want == types::pick_views(items@),
            forall|k: int|
                0 <= k < i ==> #[trigger] want[k] != (types::PickModel::Channel { name: name@ }),
        decreases items@.len() - i,
    {
        assert(want[i as int] == items@[i as int]@);
        let here = match &items[i] {
            ChannelPick::Channel { name: n } => text::same_text(n.as_str(), name),
            _ => false,
        };
        if here {
            proof {
                lemma_pick_at_is(want, name@, i as int);
            }
            return i;
        }
        i += 1;
    }
    proof {
        lemma_pick_at_is(want, name@, want.len() as int);
    }
    0
}

/// The state after a key that may move in the list of channels.
pub open spec fn channels_moved(m: AppModel, key: KeyEvent) -> AppModel {
    match m.channel_picker {
        Some(p) => AppModel {
            channel_picker: Some(
                types::SelModel {
                    nav: list::after_key(p.nav, key.code, p.nav.len as u16),
                    ..p
                },
            ),
            ..m
        },
        None => m,
    }
}

/// State and work after the key that removes a channel from the list.
pub open spec fn marked_closing(m: AppModel) -> (AppModel, types::TaskModel) {
    match m.channel_picker {
        Some(p) => match marked_channel(p) {
            Some(name) => close::closing_begun(m, name, CloseKind::Picker),
            None => (m, types::TaskModel::Nothing),
        },
        None => (m, types::TaskModel::Nothing),
    }
}

/// State and work after a key in the list of channels.
pub open spec fn channel_key_handled(m: AppModel, key: KeyEvent) -> (AppModel, types::TaskModel) {
    match key.code {
        KeyCode::Esc => (AppModel { channel_picker: None, ..m }, types::TaskModel::Nothing),
        KeyCode::Delete => marked_closing(m),
        KeyCode::Backspace => marked_closing(m),
        KeyCode::Enter => channel_chosen(m),
        KeyCode::Char(' ') => channel_chosen(m),
        _ => (channels_moved(m, key), types::TaskModel::Nothing),
    }
}

// ---------------------------------------------------------------------------
// Models
// ---------------------------------------------------------------------------
/// The name of the default model in the list of models.
pub open spec fn default_key(c: Config, m: models::RegistryModel) -> Seq<char> {
    match config::default_alias(c) {
        Some(a) => models::slashed(a.provider, a.alias),
        None => match state::known_by_id(m, c.model@) {
            Some(e) => models::key_of(e),
            None => c.model@,
        },
    }
}

/// The known models as entries of a list.
pub open spec fn known_picks(m: models::RegistryModel) -> Seq<types::ModelPickModel> {
    Seq::new(
        m.entries.len(),
        |i: int| types::ModelPickModel::Model {
            key: models::key_of(m.entries[i].1),
            display: models::full_display(m.entries[i].1),
        },
    )
}

/// Whether an entry is the model with the name.
pub open spec fn is_model(p: types::ModelPickModel, key: Seq<char>) -> bool {
    p matches types::ModelPickModel::Model { key: k, .. } && k == key
}

/// The position of the first entry with the name, or how many entries there are.
pub open spec fn model_pick_at(items: Seq<types::ModelPickModel>, key: Seq<char>) -> int
    decreases items.len(),
{
    if items.len() == 0 || is_model(items[0], key) {
        0
    } else {
        1 + model_pick_at(items.drop_first(), key)
    }
}

/// The entries of the list of models: those that are known, and before them the default one where
/// it is not among them.
pub open spec fn model_list(c: Config, m: models::RegistryModel) -> Seq<types::ModelPickModel> {
    let known = known_picks(m);
    if model_pick_at(known, default_key(c, m)) < known.len() {
        known
    } else {
        seq![types::ModelPickModel::Default] + known
    }
}

/// The state with the list of models open and the model of the active session marked; a message
/// where no model is known.
#[verifier::opaque]
pub open spec fn with_models(m: AppModel) -> AppModel {
    let n = AppModel { models: models::synced(m.models, m.config.models@), ..m };
    if n.models.entries.len() == 0 {
        n.telling("No models configured – add a `[models.<alias>]` block in config.toml."@)
    } else {
        let items = model_list(n.config, n.models);
        let wanted = match n.current().model_alias {
            Some(key) => key,
            None => default_key(n.config, n.models),
        };
        let cursor = or_first(model_pick_at(items, wanted), items.len());
        AppModel {
            model_picker: Some(
                types::ModelPickerModel {
                    items,
                    nav: ListNav {
                        len: items.len() as usize,
                        cursor: list::last_or(cursor as usize, items.len() as usize),
                        offset: 0,
                        wrap: false,
                    },
                    loading: false,
                },
            ),
            ..n
        }
    }
}

/// The state after an entry of the list of models was chosen.
#[verifier::opaque]
pub open spec fn model_chosen(m: AppModel) -> AppModel {
    match m.model_picker {
        None => m,
        Some(p) => {
            let n = AppModel { model_picker: None, ..m };
            if p.items.len() == 0 {
                n
            } else {
                match p.items[p.nav.cursor as int] {
                    types::ModelPickModel::Default => n.with_current(
                        session::SessionModel {
                            model_alias: None,
                            error: Some(
                                "Model for this session: default ("@ + m.config.model@ + ")"@,
                            ),
                            ..n.current()
                        },
                    ),
                    types::ModelPickModel::Model { key, display } => n.with_current(
                        session::SessionModel {
                            model_alias: Some(key),
                            error: Some("Model for this session: "@ + display),
                            ..n.current()
                        },
                    ),
                }
            }
        },
    }
}

/// The providers that are asked for their models: name, address and key.
pub open spec fn asked_providers(c: Config) -> Seq<(Seq<char>, Seq<char>, Option<Seq<char>>)> {
    c.provider@.map_values(
        |p: (Seq<char>, ProviderConfig)|
            (p.0, text::trimmed_end_of(p.1.base_url@, '/'), text::opt_view(p.1.api_key)),
    )
}

/// State and work to ask the providers, unless they are being asked.
pub open spec fn models_asked(m: AppModel) -> (AppModel, types::TaskModel) {
    match m.model_picker {
        Some(p) if p.loading => (m, types::TaskModel::Nothing),
        Some(p) => (
            AppModel {
                model_picker: Some(types::ModelPickerModel { loading: true, ..p }),
                ..m
            },
            types::TaskModel::FetchModels(asked_providers(m.config)),
        ),
        None => (m, types::TaskModel::FetchModels(asked_providers(m.config))),
    }
}

/// The state after a key that may move in the list of models.
pub open spec fn models_moved(m: AppModel, key: KeyEvent) -> AppModel {
    match m.model_picker {
        Some(p) => AppModel {
            model_picker: Some(
                types::ModelPickerModel {
                    nav: list::after_key(p.nav, key.code, p.nav.len as u16),
                    ..p
                },
            ),
            ..m
        },
        None => m,
    }
}

/// State and work after a key in the list of models.
pub open spec fn model_key_handled(m: AppModel, key: KeyEvent) -> (AppModel, types::TaskModel) {
    match key.code {
        KeyCode::Esc => (AppModel { model_picker: None, ..m }, types::TaskModel::Nothing),
        KeyCode::Enter => (model_chosen(m), types::TaskModel::Nothing),
        KeyCode::Char(' ') => (model_chosen(m), types::TaskModel::Nothing),
        KeyCode::Char('r') => models_asked(m),
        _ => (models_moved(m, key), types::TaskModel::Nothing),
    }
}

proof fn lemma_model_pick_at_is(items: Seq<types::ModelPickModel>, key: Seq<char>, k: int)
    requires
        0 <= k <= items.len(),
        k < items.len() ==> is_model(items[k], key),
        forall|i: int| 0 <= i < k ==> !is_model(#[trigger] items[i], key),
    ensures
        model_pick_at(items, key) == k,
    decreases items.len(),
{
    if k > 0 {
        assert(!is_model(items[0], key));
        let t = items.drop_first();
        assert forall|i: int| 0 <= i < k - 1 implies !is_model(#[trigger] t[i], key) by {
            assert(t[i] == items[i + 1]);
        }
        lemma_model_pick_at_is(t, key, k - 1);
    }
}

fn model_position(items: &Vec<ModelPick>, key: &str) -> (r: Option<usize>)
    ensures
        match r {
            Some(i) => i < items@.len() && i == model_pick_at(
                types::model_pick_views(items@),
                key@,
            ),
            None => model_pick_at(types::model_pick_views(items@), key@) == items@.len(),
        },
{
    let ghost want = types::model_pick_views(items@);
    let mut i: usize = 0;
    while i < items.len()
        invariant
            i <= items@.len(),
            want == types::model_pick_views(items@),
            forall|k: int| 0 <= k < i ==> !is_model(#[trigger] want[k], key@),
        decreases items@.len() - i,
    {
        assert(want[i as int] == items@[i as int]@);
        let here = match &items[i] {
            ModelPick::Model { key: k, .. } => text::same_text(k.as_str(), key),
            ModelPick::Default => false,
        };
        if here {
            proof {
                lemma_model_pick_at_is(want, key@, i as int);
            }
            return Some(i);
        }
        i += 1;
    }
    proof {
        lemma_model_pick_at_is(want, key@, want.len() as int);
    }
    None
}

impl App {
    /// The channels in the list, with the active one marked.
    pub fn open_channel_picker(&mut self)
        requires
            old(self).ready(),
        ensures
            final(self).ready(),
            final(self)@ == with_channels(old(self)@),
    {
        proof {
            reveal(with_channels);
        }
        let ghost m = self@;
        let names = text::sort_names(&self.channels.names());
        let ghost ordered = text::in_name_order(table::keys(m.channels.map));
        let ghost middle = ordered.map_values(
            |n: Seq<char>| types::PickModel::Channel { name: n },
        );
        let mut items: Vec<ChannelPick> = Vec::new();
        items.push(ChannelPick::NoChannel);
        let mut i: usize = 0;
        assert(types::pick_views(items@) =~= seq![types::PickModel::NoChannel] + middle.take(0));
        while i < names.len()
            invariant
                i <= names@.len(),
                ordered == text::views(names@),
                middle == ordered.map_values(
                    |n: Seq<char>| types::PickModel::Channel { name: n },
                ),
                types::pick_views(items@) == seq![types::PickModel::NoChannel] + middle.take(
                    i as int,
                ),
            decreases names@.len() - i,
        {
            let ghost before = items@;
            let p = ChannelPick::Channel { name: names[i].clone() };
            items.push(p);
            assert(types::pick_views(items@) =~= types::pick_views(before).push(p@));
            assert(middle.take(i + 1) =~= middle.take(i as int).push(middle[i as int]));
            assert(types::pick_views(items@) =~= seq![types::PickModel::NoChannel] + middle.take(
                i + 1,
            ));
            i += 1;
        }
        let ghost before = items@;
        items.push(ChannelPick::NewChannel);
        proof {
            assert(middle.take(names@.len() as int) =~= middle);
            assert(types::pick_views(items@) =~= types::pick_views(before).push(
                types::PickModel::NewChannel,
            ));
            assert(types::pick_views(items@) =~= channel_list(m.channels.map));
        }
        let cursor: usize = match &self.sessions[self.active].channel {
            Some(c) => match self.channels.find_name(c) {
                Some(name) => position_of(&items, name.as_str()),
                None => 0,
            },
            None => 0,
        };
        let sel = Selection::new_at(items, cursor);
        self.channel_picker = Some(ChannelPicker { items: sel });
    }

    /// Gives the active session another channel.
    pub fn bind_active_channel(&mut self, ch: BoundChannel)
        requires
            old(self).ready(),
        ensures
            final(self).ready(),
            final(self)@ == old(self)@.with_current(
                bound_to(state::quiet(old(self)@.current()), Some(ch@)),
            ),
    {
        broadcast use session::lemma_session_changed;

        let i: usize = self.active;
        let s = &mut self.sessions[i];
        s.channel = Some(ch);
        s.error = None;
        s.error_debug = None;
        apply_channel_permission_default(s);
    }

    fn unbind_active_channel(&mut self)
        requires
            old(self).ready(),
        ensures
            final(self).ready(),
            final(self)@ == old(self)@.with_current(bound_to(old(self)@.current(), None)),
    {
        broadcast use session::lemma_session_changed;

        let i: usize = self.active;
        let s = &mut self.sessions[i];
        s.channel = None;
        apply_channel_permission_default(s);
    }

    fn take_marked_channel(&mut self) -> (r: Option<ChannelPick>)
        requires
            old(self).ready(),
        ensures
            final(self).ready(),
            final(self)@ == (AppModel { channel_picker: None, ..old(self)@ }),
            match old(self)@.channel_picker {
                Some(p) => match r {
                    Some(c) => p.items.len() > 0 && c@ == p.items[p.nav.cursor as int],
                    None => p.items.len() == 0,
                },
                None => r is None,
            },
    {
        let picker = match self.channel_picker.take() {
            Some(p) => p,
            None => {
                return None;
            },
        };
        match picker.items.selected() {
            None => None,
            Some(p) => Some(
                match p {
                    ChannelPick::NoChannel => ChannelPick::NoChannel,
                    ChannelPick::NewChannel => ChannelPick::NewChannel,
                    ChannelPick::Channel { name } => ChannelPick::Channel { name: name.clone() },
                },
            ),
        }
    }

    fn bind_named(&mut self, name: &str) -> (r: Task)
        requires
            old(self).ready(),
        ensures
            final(self).ready(),
            (final(self)@, r@) == named_chosen(old(self)@, name@),
    {
        match self.channels.get(name) {
            Some(ch) => {
                let t = warmup_channel(&ch);
                self.bind_active_channel(ch);
                t
            },
            None => {
                self.tell(text::concat3("Channel \"", name, "\" is not available."));
                Task::Nothing
            },
        }
    }

    /// Takes the marked entry of the list of channels.
    pub fn picker_select(&mut self) -> (r: Task)
        requires
            old(self).ready(),
        ensures
            final(self).ready(),
            (final(self)@, r@) == channel_chosen(old(self)@),
    {
        proof {
            reveal(channel_chosen);
        }
        match self.take_marked_channel() {
            None => Task::Nothing,
            Some(ChannelPick::NoChannel) => {
                self.unbind_active_channel();
                Task::Nothing
            },
            Some(ChannelPick::NewChannel) => Task::OpenBuilder,
            Some(ChannelPick::Channel { name }) => self.bind_named(name.as_str()),
        }
    }

    fn move_in_channels(&mut self, key: KeyEvent)
        requires
            old(self).ready(),
        ensures
            final(self).ready(),
            final(self)@ == channels_moved(old(self)@, key),
    {
        if let Some(p) = &mut self.channel_picker {
            let viewport: u16 = p.items.nav.len() as u16;
            let _used = p.items.handle_move(&key, viewport);
        }
    }

    fn close_marked_channel(&mut self) -> (r: Task)
        requires
            old(self).ready(),
        ensures
            final(self).ready(),
            (final(self)@, r@) == marked_closing(old(self)@),
    {
        let mut name: Option<String> = None;
        if let Some(p) = &self.channel_picker {
            if let Some(marked) = p.items.selected() {
                assert(types::pick_views(p.items.items@)[p.items.nav.cursor as int] == marked@);
                if let ChannelPick::Channel { name: n } = marked {
                    name = Some(n.clone());
                }
            }
        }
        match name {
            Some(n) => self.begin_close_channel(n.as_str(), CloseKind::Picker),
            None => Task::Nothing,
        }
    }

    /// Handles a key in the list of channels.
    pub fn handle_picker_key(&mut self, key: KeyEvent) -> (r: Task)
        requires
            old(self).ready(),
        ensures
            final(self).ready(),
            (final(self)@, r@) == channel_key_handled(old(self)@, key),
    {
        match key.code {
            KeyCode::Esc => {
                self.channel_picker = None;
                Task::Nothing
            },
            KeyCode::Delete | KeyCode::Backspace => self.close_marked_channel(),
            KeyCode::Enter | KeyCode::Char(' ') => self.picker_select(),
            _ => {
                self.move_in_channels(key);
                Task::Nothing
            },
        }
    }

    fn default_pick_key(&self) -> (r: String)
        requires
            self.wf(),
        ensures
            r@ == default_key(self.config, self@.models),
    {
        if let Some(a) = self.config.resolve_default_alias() {
            return text::concat3(a.provider.as_str(), "/", a.alias.as_str());
        }
        match self.model_registry.find_by_model_id(self.config.model.as_str()) {
            Some(e) => e.key(),
            None => self.config.model.clone(),
        }
    }

    /// The entries of the list of models.
    pub fn model_pick_list(&self) -> (r: Vec<ModelPick>)
        requires
            self.wf(),
        ensures
            types::model_pick_views(r@) == model_list(self.config, self@.models),
    {
        let all = self.model_registry.all();
        let ghost known = known_picks(self@.models);
        let mut items: Vec<ModelPick> = Vec::new();
        let mut i: usize = 0;
        assert(types::model_pick_views(items@) =~= known.take(0));
        while i < all.len()
            invariant
                i <= all@.len(),
                all@.len() == self@.models.entries.len(),
                forall|k: int|
                    0 <= k < all@.len() ==> (#[trigger] all@[k])@ == self@.models.entries[k].1,
                known == known_picks(self@.models),
                types::model_pick_views(items@) == known.take(i as int),
            decreases all@.len() - i,
        {
            let ghost before = items@;
            let e = all[i];
            assert(all@[i as int]@ == self@.models.entries[i as int].1);
            let p = ModelPick::Model { key: e.key(), display: e.display_full() };
            items.push(p);
            assert(types::model_pick_views(items@) =~= types::model_pick_views(before).push(p@));
            assert(known.take(i + 1) =~= known.take(i as int).push(known[i as int]));
            i += 1;
        }
        assert(known.take(all@.len() as int) =~= known);
        let key = self.default_pick_key();
        if model_position(&items, key.as_str()).is_none() {
            let ghost before = items@;
            items.insert(0, ModelPick::Default);
            assert(types::model_pick_views(items@) =~= seq![types::ModelPickModel::Default]
                + types::model_pick_views(before));
        }
        items
    }

    /// Opens the list of models with the one of the active session marked.
    pub fn open_model_picker(&mut self)
        requires
            old(self).ready(),
        ensures
            final(self).ready(),
            final(self)@ == with_models(old(self)@),
    {
        proof {
            reveal(with_models);
        }
        let ghost m = self@;
        self.model_registry.sync_from_config(&self.config.models);
        assert(self@ == AppModel { models: models::synced(m.models, m.config.models@), ..m });
        if self.model_registry.len() == 0 {
            self.tell(
                "No models configured – add a `[models.<alias>]` block in config.toml.".to_string(),
            );
            return ;
        }
        let items = self.model_pick_list();
        let wanted = match &self.sessions[self.active].model_alias {
            Some(key) => key.clone(),
            None => self.default_pick_key(),
        };
        let cursor: usize = match model_position(&items, wanted.as_str()) {
            Some(i) => i,
            None => 0,
        };
        let sel = Selection::new_at(items, cursor);
        self.model_picker = Some(ModelPicker { items: sel, loading: false });
    }

    fn choose_model(&mut self, alias: Option<String>, message: String)
        requires
            old(self).ready(),
        ensures
            final(self).ready(),
            final(self)@ == old(self)@.with_current(
                session::SessionModel {
                    model_alias: text::opt_view(alias),
                    error: Some(message@),
                    ..old(self)@.current()
                },
            ),
    {
        broadcast use session::lemma_session_changed;

        let i: usize = self.active;
        let s = &mut self.sessions[i];
        s.model_alias = alias;
        s.error = Some(message);
    }

    /// Takes the marked entry of the list of models.
    pub fn model_picker_select(&mut self)
        requires
            old(self).ready(),
        ensures
            final(self).ready(),
            final(self)@ == model_chosen(old(self)@),
    {
        proof {
            reveal(model_chosen);
        }
        let picker = match self.model_picker.take() {
            Some(p) => p,
            None => {
                return ;
            },
        };
        let ghost views = types::model_pick_views(picker.items.items@);
        match picker.items.selected() {
            None => {},
            Some(p) => {
                assert(views[picker.items.nav.cursor as int] == p@);
                match p {
                    ModelPick::Default => {
                        let message = text::concat3(
                            "Model for this session: default (",
                            self.config.model.as_str(),
                            ")",
                        );
                        self.choose_model(None, message);
                    },
                    ModelPick::Model { key, display } => {
                        let message = text::concat("Model for this session: ", display.as_str());
                        self.choose_model(Some(key.clone()), message);
                    },
                }
            },
        }
    }

    fn providers_to_ask(&self) -> (r: Vec<(String, String, Option<String>)>)
        requires
            self.wf(),
        ensures
            types::provider_views(r@) == asked_providers(self.config),
    {
        let ghost want = asked_providers(self.config);
        let n: usize = self.config.provider.len();
        let mut out: Vec<(String, String, Option<String>)> = Vec::new();
        let mut i: usize = 0;
        assert(types::provider_views(out@) =~= want.take(0));
        while i < n
            invariant
                i <= n == self.config.provider@.len(),
                self.wf(),
                want == asked_providers(self.config),
                types::provider_views(out@) == want.take(i as int),
            decreases n - i,
        {
            let ghost before = out@;
            let p = self.config.provider.value(i);
            let e = (
                self.config.provider.key(i).to_string(),
                text::trim_end_of(p.base_url.as_str(), '/'),
                text::copy_opt(&p.api_key),
            );
            out.push(e);
            assert(types::provider_views(out@) =~= types::provider_views(before).push(
                (e.0@, e.1@, text::opt_view(e.2)),
            ));
            assert(want.take(i + 1) =~= want.take(i as int).push(want[i as int]));
            i += 1;
        }
        assert(want.take(n as int) =~= want);
        out
    }

    /// Asks the providers for their models, unless they are being asked.
    pub fn refresh_models_from_providers(&mut self) -> (r: Task)
        requires
            old(self).ready(),
        ensures
            final(self).ready(),
            (final(self)@, r@) == models_asked(old(self)@),
    {
        if let Some(p) = &mut self.model_picker {
            if p.loading {
                return Task::Nothing;
            }
            p.loading = true;
        }
        Task::FetchModels(self.providers_to_ask())
    }

    fn move_in_models(&mut self, key: KeyEvent)
        requires
            old(self).ready(),
        ensures
            final(self).ready(),
            final(self)@ == models_moved(old(self)@, key),
    {
        if let Some(p) = &mut self.model_picker {
            let viewport: u16 = p.items.nav.len() as u16;
            let _used = p.items.handle_move(&key, viewport);
        }
    }

    /// Handles a key in the list of models.
    pub fn handle_model_picker_key(&mut self, key: KeyEvent) -> (r: Task)
        requires
            old(self).ready(),
        ensures
            final(self).ready(),
            (final(self)@, r@) == model_key_handled(old(self)@, key),
    {
        match key.code {
            KeyCode::Esc => {
                self.model_picker = None;
                Task::Nothing
            },
            KeyCode::Enter | KeyCode::Char(' ') => {
                self.model_picker_select();
                Task::Nothing
            },
            KeyCode::Char('r') => self.refresh_models_from_providers(),
            _ => {
                self.move_in_models(key);
                Task::Nothing
            },
        }
    }
}

// ---------------------------------------------------------------------------
// Laws
// ---------------------------------------------------------------------------
/// The list of channels holds every channel.
pub proof fn law_every_channel_is_listed(m: AppModel, name: Seq<char>)
    requires
        table::keys(m.channels.map).contains(name),
    ensures
        channel_list(m.channels.map).contains(types::PickModel::Channel { name }),
{
    let keys = table::keys(m.channels.map);
    let ordered = text::in_name_order(keys);
    text::law_name_order_is_an_order(keys);
    assert(ordered.contains(name)) by {
        broadcast use vstd::seq_lib::group_to_multiset_ensures;

        assert(keys.to_multiset().count(name) > 0);
        assert(ordered.to_multiset().count(name) > 0);
    }
    let k = choose|k: int| 0 <= k < ordered.len() && ordered[k] == name;
    assert(channel_list(m.channels.map)[k + 1] == (types::PickModel::Channel { name }));
}

/// The default model can always be chosen: it is among the known models or stands before them.
pub proof fn law_the_default_model_can_be_chosen(c: Config, m: models::RegistryModel)
    ensures
        ({
            let l = model_list(c, m);
            model_pick_at(l, default_key(c, m)) < l.len() || (l.len() > 0 && l[0]
                == types::ModelPickModel::Default)
        }),
{
}

/// A chosen model is the one that the session shows and asks from then on.
pub proof fn law_a_chosen_model_is_used(m: AppModel, key: Seq<char>, display: Seq<char>)
    requires
        0 <= m.active < m.sessions.len(),
        m.model_picker is Some,
        m.model_picker->0.items.len() > 0,
        m.model_picker->0.items[m.model_picker->0.nav.cursor as int] == (
        types::ModelPickModel::Model { key, display }),
    ensures
        model_chosen(m).current().model_alias == Some(key),
        model_chosen(m).model_picker is None,
{
    reveal(model_chosen);
}

/// The list of channels begins with the choice of none and ends with the choice of a new one; between
/// them stand the channels by their names.
pub proof fn law_the_list_of_channels(map: Seq<(Seq<char>, registry::BoundModel)>, i: int, j: int)
    requires
        0 < i <= j < channel_list(map).len() - 1,
    ensures
        channel_list(map).len() == map.len() + 2,
        channel_list(map)[0] == types::PickModel::NoChannel,
        channel_list(map).last() == types::PickModel::NewChannel,
        channel_list(map)[i] is Channel,
        text::text_le(channel_list(map)[i]->name, channel_list(map)[j]->name),
{
    let keys = table::keys(map);
    let ordered = text::in_name_order(keys);
    text::law_name_order_is_an_order(keys);
    assert(ordered.len() == keys.len()) by {
        broadcast use vstd::seq_lib::group_to_multiset_ensures;

        assert(ordered.to_multiset().len() == keys.to_multiset().len());
    }
    assert(channel_list(map)[i] == (types::PickModel::Channel { name: ordered[i - 1] }));
    assert(channel_list(map)[j] == (types::PickModel::Channel { name: ordered[j - 1] }));
    assert(text::text_le(ordered[i - 1], ordered[j - 1]));
}

/// A channel that is taken from the list is the one that the session works on from then on; one with
/// a container of its own is started, and a session whose level was not chosen gets the level of the
/// channel.
pub proof fn law_the_taken_channel_is_used(
    m: AppModel,
    p: types::SelModel<types::PickModel>,
    name: Seq<char>,
    c: registry::BoundModel,
    i: int,
)
    requires
        0 <= m.active < m.sessions.len(),
        0 <= i < m.sessions.len(),
        m.channel_picker == Some(p),
        p.items.len() > 0,
        p.items[p.nav.cursor as int] == (types::PickModel::Channel { name }),
        table::lookup(m.channels.map, name) == Some(c),
    ensures
        ({
            let (n, task) = channel_chosen(m);
            &&& n.channel_picker is None
            &&& n.current().channel == Some(c)
            &&& n.current().error is None
            &&& n.current().chat == m.current().chat
            &&& !m.current().permission_touched ==> n.current().permission
                == crate::perm::start_level(c.says().kind)
            &&& m.current().permission_touched ==> n.current().permission == m.current().permission
            &&& i != m.active ==> n.sessions[i] == m.sessions[i]
            &&& n.channels == m.channels
            &&& c.says().kind == ChannelKind::PodmanRun ==> task == types::TaskModel::Warmup(c)
            &&& c.says().kind != ChannelKind::PodmanRun ==> task == types::TaskModel::Nothing
        }),
{
    reveal(channel_chosen);
}

/// Taking no channel lets the session work without one; taking a new one opens the dialog for it; a
/// channel that is gone is said to be.
pub proof fn law_the_other_choices_of_channels(
    m: AppModel,
    p: types::SelModel<types::PickModel>,
    name: Seq<char>,
)
    requires
        0 <= m.active < m.sessions.len(),
        m.channel_picker == Some(p),
        p.items.len() > 0,
    ensures
        ({
            let (n, task) = channel_chosen(m);
            let taken = p.items[p.nav.cursor as int];
            &&& n.channel_picker is None
            &&& taken is NoChannel ==> n.current().channel is None && task
                == types::TaskModel::Nothing
            &&& taken is NoChannel && !m.current().permission_touched ==> n.current().permission
                == crate::perm::Permission::Read
            &&& taken is NewChannel ==> task == types::TaskModel::OpenBuilder && n.sessions
                == m.sessions
            &&& taken == (types::PickModel::Channel { name }) && table::lookup(
                m.channels.map,
                name,
            ) is None ==> task == types::TaskModel::Nothing && n.current().channel
                == m.current().channel && n.current().error == Some(
                "Channel \""@ + name + "\" is not available."@,
            )
        }),
{
    reveal(channel_chosen);
}

/// In the list of channels one key gives up, two begin to close the marked channel, two take it, and
/// the others move the mark.
pub proof fn law_keys_in_the_list_of_channels(
    m: AppModel,
    p: types::SelModel<types::PickModel>,
    name: Seq<char>,
    key: KeyEvent,
)
    requires
        m.channel_picker == Some(p),
        p.items.len() > 0,
        p.items[p.nav.cursor as int] == (types::PickModel::Channel { name }),
    ensures
        key.code == KeyCode::Esc ==> channel_key_handled(m, key) == (
            AppModel { channel_picker: None, ..m },
            types::TaskModel::Nothing,
        ),
        key.code == KeyCode::Delete || key.code == KeyCode::Backspace ==> channel_key_handled(m, key)
            == close::closing_begun(m, name, CloseKind::Picker),
        key.code == KeyCode::Enter || key.code == KeyCode::Char(' ') ==> channel_key_handled(m, key)
            == channel_chosen(m),
        key.code == KeyCode::Down || key.code == KeyCode::Up ==> channel_key_handled(m, key).1
            == types::TaskModel::Nothing && channel_key_handled(m, key).0.sessions == m.sessions
            && channel_key_handled(m, key).0.channel_picker is Some,
{
}

/// Nothing is closed where no channel is marked.
pub proof fn law_only_marked_channels_are_closed(
    m: AppModel,
    p: types::SelModel<types::PickModel>,
    key: KeyEvent,
)
    requires
        m.channel_picker == Some(p),
        p.items.len() == 0 || !(p.items[p.nav.cursor as int] is Channel),
        key.code == KeyCode::Delete || key.code == KeyCode::Backspace,
    ensures
        channel_key_handled(m, key) == (m, types::TaskModel::Nothing),
{
}

proof fn lemma_id_at(map: Seq<(Seq<char>, registry::BoundModel)>, k: int)
    requires
        0 <= k < map.len(),
        forall|j: int|
            0 <= j < map.len() && j != k ==> (#[trigger] map[j]).1.id != map[k].1.id,
    ensures
        registry::id_at(map, map[k].1.id) == k,
    decreases map.len(),
{
    if k > 0 {
        let t = map.drop_first();
        assert(map[0].1.id != map[k].1.id);
        assert forall|j: int| 0 <= j < t.len() && j != k - 1 implies (#[trigger] t[j]).1.id != t[k
            - 1].1.id by {
            assert(t[j] == map[j + 1]);
        }
        lemma_id_at(t, k - 1);
    }
}

/// The channel of a session is known under the name that its number stands at.
pub proof fn law_channels_are_known_by_their_number(
    map: Seq<(Seq<char>, registry::BoundModel)>,
    k: int,
    c: registry::BoundModel,
)
    requires
        0 <= k < map.len(),
        c.id == map[k].1.id,
        forall|j: int|
            0 <= j < map.len() && j != k ==> (#[trigger] map[j]).1.id != map[k].1.id,
    ensures
        bound_name(map, Some(c)) == Some(map[k].0),
        bound_name(map, None) is None,
{
    lemma_id_at(map, k);
}

/// The default model is taken as the one that the configuration names; any choice is said and closes
/// the list, and changes no other session.
pub proof fn law_taken_models_are_said(m: AppModel, p: types::ModelPickerModel, i: int)
    requires
        0 <= m.active < m.sessions.len(),
        0 <= i < m.sessions.len(),
        m.model_picker == Some(p),
        p.items.len() > 0,
    ensures
        ({
            let n = model_chosen(m);
            let taken = p.items[p.nav.cursor as int];
            &&& n.model_picker is None
            &&& taken is Default ==> n.current().model_alias is None && n.current().error == Some(
                "Model for this session: default ("@ + m.config.model@ + ")"@,
            )
            &&& taken matches types::ModelPickModel::Model { key, display } ==> n.current().model_alias
                == Some(key) && n.current().error == Some("Model for this session: "@ + display)
            &&& i != m.active ==> n.sessions[i] == m.sessions[i]
            &&& n.current().chat == m.current().chat
        }),
{
    reveal(model_chosen);
}

/// Every known model stands in the list with its key and the name that it is shown under.
pub proof fn law_every_model_is_listed(c: Config, m: models::RegistryModel, i: int)
    requires
        0 <= i < m.entries.len(),
    ensures
        ({
            let l = model_list(c, m);
            let pick = types::ModelPickModel::Model {
                key: models::key_of(m.entries[i].1),
                display: models::full_display(m.entries[i].1),
            };
            &&& l.len() == m.entries.len() ==> l[i] == pick
            &&& l.len() == m.entries.len() + 1 ==> l[i + 1] == pick && l[0]
                == types::ModelPickModel::Default
            &&& l.len() == m.entries.len() || l.len() == m.entries.len() + 1
        }),
{
}

/// The models of all providers are asked for at once, each at its address without a slash at the end
/// and with its key; while an answer is awaited they are not asked for again.
pub proof fn law_models_are_asked_for_once(m: AppModel, key: KeyEvent, i: int)
    requires
        key.code == KeyCode::Char('r'),
        0 <= i < m.config.provider@.len(),
    ensures
        ({
            let (n, task) = model_key_handled(m, key);
            let waits = m.model_picker is Some && (m.model_picker->0).loading;
            let p = m.config.provider@[i];
            &&& waits ==> n == m && task == types::TaskModel::Nothing
            &&& !waits ==> task is FetchModels
            &&& !waits ==> (task->FetchModels_0)[i] == (
                p.0,
                text::trimmed_end_of(p.1.base_url@, '/'),
                text::opt_view(p.1.api_key),
            )
            &&& !waits ==> (task->FetchModels_0).len() == m.config.provider@.len()
            &&& m.model_picker is Some ==> n.model_picker is Some && (n.model_picker->0).loading
                && (n.model_picker->0).items == (m.model_picker->0).items
        }),
{
}

/// Without any model the session says so; otherwise the list is shown with the model of the session
/// marked where it is in it.
pub proof fn law_the_list_of_models_is_shown(m: AppModel)
    requires
        0 <= m.active < m.sessions.len(),
    ensures
        ({
            let n = with_models(m);
            &&& n.models.entries.len() == 0 ==> n.current().error == Some(
                "No models configured – add a `[models.<alias>]` block in config.toml."@,
            ) && n.model_picker == m.model_picker
            &&& n.models.entries.len() > 0 ==> n.model_picker is Some && (n.model_picker->0).items
                == model_list(n.config, n.models) && !(n.model_picker->0).loading
            &&& n.config == m.config
        }),
{
    reveal(with_models);
}

/// The channel of the session is the marked one in the list.
pub proof fn law_the_own_channel_is_marked(m: AppModel, name: Seq<char>, k: int)
    requires
        0 <= m.active < m.sessions.len(),
        bound_name(m.channels.map, m.current().channel) == Some(name),
        0 <= k < channel_list(m.channels.map).len() <= usize::MAX,
        channel_list(m.channels.map)[k] == (types::PickModel::Channel { name }),
        forall|i: int|
            0 <= i < k ==> #[trigger] channel_list(m.channels.map)[i] != (
            types::PickModel::Channel { name }),
    ensures
        (with_channels(m).channel_picker->0).nav.cursor == k,
        (with_channels(m).channel_picker->0).items == channel_list(m.channels.map),
        (with_channels(m).channel_picker->0).nav.len == channel_list(m.channels.map).len(),
        with_channels(m).sessions == m.sessions,
{
    reveal(with_channels);
    lemma_pick_at_is(channel_list(m.channels.map), name, k);
}

/// The model of the session is the marked one in the list.
pub proof fn law_the_own_model_is_marked(m: AppModel, key: Seq<char>, k: int)
    requires
        0 <= m.active < m.sessions.len(),
        m.current().model_alias == Some(key),
        ({
            let l = model_list(m.config, models::synced(m.models, m.config.models@));
            &&& models::synced(m.models, m.config.models@).entries.len() > 0
            &&& 0 <= k < l.len() <= usize::MAX
            &&& l[k] is Model
            &&& l[k]->key == key
            &&& forall|i: int|
                0 <= i < k ==> !(#[trigger] l[i] matches types::ModelPickModel::Model { key: other, .. }
                    && other == key)
        }),
    ensures
        (with_models(m).model_picker->0).nav.cursor == k,
{
    reveal(with_models);
    let l = model_list(m.config, models::synced(m.models, m.config.models@));
    assert forall|i: int| 0 <= i < k implies !is_model(#[trigger] l[i], key) by {}
    lemma_model_pick_at_is(l, key, k);
}

} // verus!
