//! The channels that there are.

use super::local;
use super::local::Local;
use super::podman;
use super::podman::PodmanChannel;
use super::run;
use super::{Channel, ChannelKind, ChannelStatus, WorktreeInfo};
use crate::config::{ChannelConfig, Config, PodmanUserMapping};
use crate::table;
use crate::table::Table;
use crate::text;
use vstd::prelude::*;
use vstd::string::*;

verus! {

// ---------------------------------------------------------------------------
// Channels of any kind
// ---------------------------------------------------------------------------
/// A channel of any kind.
#[derive(Debug)]
pub enum AnyChannel {
    Local(Local),
    Podman(PodmanChannel),
}

/// What a channel of any kind holds.
pub enum AnyModel {
    Local(local::LocalModel),
    Podman(podman::PodmanModel),
}

impl AnyModel {
    /// What the channel says of itself.
    pub open spec fn says(self) -> super::ChannelModel {
        match self {
            AnyModel::Local(m) => local::local_says(m),
            AnyModel::Podman(m) => podman::podman_says(m),
        }
    }
}

impl View for AnyChannel {
    type V = AnyModel;

    open spec fn view(&self) -> AnyModel {
        match self {
            AnyChannel::Local(c) => AnyModel::Local(c@),
            AnyChannel::Podman(c) => AnyModel::Podman(c@),
        }
    }
}

impl Clone for AnyChannel {
    fn clone(&self) -> (r: Self)
        ensures
            r@ == self@,
    {
        match self {
            AnyChannel::Local(c) => AnyChannel::Local(c.clone()),
            AnyChannel::Podman(c) => AnyChannel::Podman(c.clone()),
        }
    }
}

impl Channel for AnyChannel {
    open spec fn model(&self) -> super::ChannelModel {
        self@.says()
    }

    fn kind(&self) -> (r: ChannelKind) {
        match self {
            AnyChannel::Local(c) => c.kind(),
            AnyChannel::Podman(c) => c.kind(),
        }
    }

    fn root(&self) -> (r: String) {
        match self {
            AnyChannel::Local(c) => c.root(),
            AnyChannel::Podman(c) => c.root(),
        }
    }

    fn label(&self) -> (r: String) {
        match self {
            AnyChannel::Local(c) => c.label(),
            AnyChannel::Podman(c) => c.label(),
        }
    }

    fn host_root(&self) -> (r: Option<String>) {
        match self {
            AnyChannel::Local(c) => c.host_root(),
            AnyChannel::Podman(c) => c.host_root(),
        }
    }

    fn container_name(&self) -> (r: Option<String>) {
        match self {
            AnyChannel::Local(c) => c.container_name(),
            AnyChannel::Podman(c) => c.container_name(),
        }
    }

    fn podman_run_spec(&self) -> (r: Option<(String, String, String)>) {
        match self {
            AnyChannel::Local(c) => c.podman_run_spec(),
            AnyChannel::Podman(c) => c.podman_run_spec(),
        }
    }

    fn owned_worktree(&self) -> (r: Option<WorktreeInfo>) {
        match self {
            AnyChannel::Local(c) => c.owned_worktree(),
            AnyChannel::Podman(c) => c.owned_worktree(),
        }
    }

    fn status(&self) -> (r: ChannelStatus) {
        match self {
            AnyChannel::Local(c) => c.status(),
            AnyChannel::Podman(c) => c.status(),
        }
    }
}

/// A channel that can be told from every other one by its number.
#[derive(Debug)]
pub struct BoundChannel {
    pub id: u64,
    pub data: AnyChannel,
}

/// What a numbered channel holds.
pub struct BoundModel {
    pub id: u64,
    pub data: AnyModel,
}

impl BoundModel {
    /// What the channel says of itself.
    pub open spec fn says(self) -> super::ChannelModel {
        self.data.says()
    }
}

impl View for BoundChannel {
    type V = BoundModel;

    open spec fn view(&self) -> BoundModel {
        BoundModel { id: self.id, data: self.data@ }
    }
}

impl Clone for BoundChannel {
    fn clone(&self) -> (r: Self)
        ensures
            r@ == self@,
    {
        BoundChannel { id: self.id, data: self.data.clone() }
    }
}

/// What a channel that may be missing holds.
pub open spec fn bound_view(o: Option<BoundChannel>) -> Option<BoundModel> {
    match o {
        Some(c) => Some(c@),
        None => None,
    }
}

// ---------------------------------------------------------------------------
// Channels from descriptions
// ---------------------------------------------------------------------------
/// The channel on the host that a description gives.
pub open spec fn local_described(
    cfg: ChannelConfig,
    timeout_secs: u64,
    worktree: Option<super::WorktreeModel>,
) -> Result<local::LocalModel, Seq<char>> {
    match cfg.host_root {
        None => Err("local channel needs host_root"@),
        Some(root) => if cfg.image is Some || cfg.container is Some {
            Err("local channel must not set image/container (only host_root)."@)
        } else {
            Ok(
                local::LocalModel {
                    root: root@,
                    timeout: podman::limit(timeout_secs),
                    worktree,
                    managed_worktree: worktree is Some,
                },
            )
        },
    }
}

/// The channel that a description gives.
pub open spec fn channel_described(
    name: Seq<char>,
    cfg: ChannelConfig,
    timeout_secs: u64,
    ids: Result<(nat, nat), Seq<char>>,
    worktree: Option<super::WorktreeModel>,
    usermapping: PodmanUserMapping,
) -> Result<AnyModel, Seq<char>> {
    if cfg.kind@ == "podman"@ {
        match podman::described(name, cfg, timeout_secs, ids, worktree, usermapping) {
            Ok(m) => Ok(AnyModel::Podman(m)),
            Err(e) => Err(e),
        }
    } else if cfg.kind@ == "local"@ {
        match local_described(cfg, timeout_secs, worktree) {
            Ok(m) => Ok(AnyModel::Local(m)),
            Err(e) => Err(e),
        }
    } else {
        Err("Unknown channel type: "@ + cfg.kind@)
    }
}

/// The view of a channel or a message.
pub open spec fn any_result(r: Result<AnyChannel, String>) -> Result<AnyModel, Seq<char>> {
    match r {
        Ok(c) => Ok(c@),
        Err(e) => Err(e@),
    }
}

/// The channel on the host that a description gives.
pub fn local_from_config(
    cfg: &ChannelConfig,
    timeout_secs: u64,
    worktree: Option<WorktreeInfo>,
) -> (r: Result<AnyChannel, String>)
    ensures
        any_result(r) == (match local_described(
            *cfg,
            timeout_secs,
            super::worktree_view(worktree),
        ) {
            Ok(m) => Ok(AnyModel::Local(m)),
            Err(e) => Err(e),
        }),
{
    let root = match &cfg.host_root {
        Some(r) => r.clone(),
        None => {
            return Err("local channel needs host_root".to_string());
        },
    };
    if cfg.image.is_some() || cfg.container.is_some() {
        return Err(
            "local channel must not set image/container (only host_root).".to_string(),
        );
    }
    let timeout: u64 = if timeout_secs == 0 {
        1
    } else {
        timeout_secs
    };
    let mut ch = Local::new(root).with_timeout(timeout);
    if let Some(wt) = worktree {
        ch = ch.with_worktree(wt);
    }
    Ok(AnyChannel::Local(ch))
}

/// The channel that a description gives. `ids` is the identity that commands in a container run
/// as, or why there is none.
pub fn channel_from_config(
    name: &str,
    cfg: &ChannelConfig,
    timeout_secs: u64,
    ids: &Result<(u32, u32), String>,
    worktree: Option<WorktreeInfo>,
    usermapping: PodmanUserMapping,
) -> (r: Result<AnyChannel, String>)
    ensures
        any_result(r) == channel_described(
            name@,
            *cfg,
            timeout_secs,
            run::pair_view(*ids),
            super::worktree_view(worktree),
            usermapping,
        ),
{
    proof {
        reveal_strlit("podman");
        reveal_strlit("local");
        assert("podman"@.len() != "local"@.len());
    }
    if text::same_text(cfg.kind.as_str(), "podman") {
        match podman::podman_from_config(name, cfg, timeout_secs, ids, worktree, usermapping) {
            Ok(c) => Ok(AnyChannel::Podman(c)),
            Err(e) => Err(e),
        }
    } else if text::same_text(cfg.kind.as_str(), "local") {
        local_from_config(cfg, timeout_secs, worktree)
    } else {
        Err(text::concat("Unknown channel type: ", cfg.kind.as_str()))
    }
}

// ---------------------------------------------------------------------------
// The model of the registry
// ---------------------------------------------------------------------------
/// What the registry holds.
pub struct RegModel {
    /// The name of the channel for new sessions.
    pub default: Option<Seq<char>>,
    /// The channels by name.
    pub map: Seq<(Seq<char>, BoundModel)>,
    /// The containers that were started here.
    pub managed: Seq<Seq<char>>,
    /// The number of the next channel.
    pub next: u64,
}

/// The number behind a number.
pub open spec fn next_id(n: u64) -> u64 {
    if n == u64::MAX {
        0
    } else {
        (n + 1) as u64
    }
}

/// A name with a number behind it.
pub open spec fn numbered(name: Seq<char>, n: nat) -> Seq<char> {
    name + "-"@ + text::decimal(n)
}

/// Whether `n` is the first number from two on that makes the name a new one.
pub open spec fn is_fresh(map: Seq<(Seq<char>, BoundModel)>, name: Seq<char>, n: nat) -> bool {
    &&& n >= 2
    &&& !table::has_key(map, numbered(name, n))
    &&& forall|m: nat| 2 <= m < n ==> table::has_key(map, #[trigger] numbered(name, m))
}

/// The name under which a channel is kept: the given one, or with the first free number from two
/// on where it is taken.
pub open spec fn registered_name(map: Seq<(Seq<char>, BoundModel)>, name: Seq<char>) -> Seq<char> {
    if table::has_key(map, name) {
        numbered(name, choose|n: nat| is_fresh(map, name, n))
    } else {
        name
    }
}

/// The position of the first channel with the number, or how many channels there are.
pub open spec fn id_at(map: Seq<(Seq<char>, BoundModel)>, id: u64) -> int
    decreases map.len(),
{
    if map.len() == 0 || map[0].1.id == id {
        0
    } else {
        1 + id_at(map.drop_first(), id)
    }
}

/// The position of the first channel that starts the container, or how many channels there are.
pub open spec fn container_at(map: Seq<(Seq<char>, BoundModel)>, container: Seq<char>) -> int
    decreases map.len(),
{
    if map.len() == 0 || map[0].1.says().container == Some(container) {
        0
    } else {
        1 + container_at(map.drop_first(), container)
    }
}

/// What the channels of a table hold.
pub open spec fn bound_views(items: Seq<(Seq<char>, BoundChannel)>) -> Seq<(Seq<char>, BoundModel)> {
    items.map_values(|p: (Seq<char>, BoundChannel)| (p.0, p.1@))
}

/// The channels of a configuration, with the number of the next one and the warnings.
pub open spec fn configured(
    channels: Seq<(Seq<char>, ChannelConfig)>,
    ids: Seq<Result<(nat, nat), Seq<char>>>,
    timeout_secs: u64,
    usermapping: PodmanUserMapping,
) -> (Seq<(Seq<char>, BoundModel)>, u64, Seq<Seq<char>>)
    decreases channels.len(),
{
    if channels.len() == 0 {
        (Seq::empty(), 0, Seq::empty())
    } else {
        let k = channels.len() - 1;
        let (map, next, warnings) = configured(
            channels.drop_last(),
            ids,
            timeout_secs,
            usermapping,
        );
        let (name, cfg) = channels[k];
        match channel_described(name, cfg, timeout_secs, ids[k], None, usermapping) {
            Ok(data) => (
                table::put(map, name, BoundModel { id: next, data }),
                next_id(next),
                warnings,
            ),
            Err(e) => (
                map,
                next,
                warnings.push("Channel \""@ + name + "\" not available: "@ + e),
            ),
        }
    }
}

/// The registry of a configuration, with its warnings.
pub open spec fn registry_of(
    cfg: Config,
    ids: Seq<Result<(nat, nat), Seq<char>>>,
) -> (RegModel, Seq<Seq<char>>) {
    let (map, next, warnings) = configured(
        cfg.channels@,
        ids,
        cfg.timeout_secs,
        cfg.podman.usermapping,
    );
    let wanted = text::opt_view(cfg.default_channel);
    let default = match wanted {
        Some(d) if table::has_key(map, d) => Some(d),
        _ => None,
    };
    let missing = match wanted {
        Some(d) if !table::has_key(map, d) => warnings.push(
            "default_channel \""@ + d + "\" not available."@,
        ),
        _ => warnings,
    };
    (RegModel { default, map, managed: Seq::empty(), next }, missing)
}

/// What a list of identities holds.
pub open spec fn id_views(v: Seq<Result<(u32, u32), String>>) -> Seq<Result<(nat, nat), Seq<char>>> {
    v.map_values(|r: Result<(u32, u32), String>| run::pair_view(r))
}

proof fn lemma_bound_views(items: Seq<(Seq<char>, BoundChannel)>, key: Seq<char>, ch: BoundChannel)
    ensures
        table::key_at(bound_views(items), key) == table::key_at(items, key),
        bound_views(table::put(items, key, ch)) == table::put(bound_views(items), key, ch@),
        bound_views(table::without(items, key)) == table::without(bound_views(items), key),
{
    let v = bound_views(items);
    table::lemma_key_at(items, key);
    assert forall|i: int| 0 <= i < table::key_at(items, key) implies (#[trigger] v[i]).0
        != key by {
        assert(items[i].0 != key);
    }
    table::lemma_key_at_is(v, key, table::key_at(items, key));
    assert(bound_views(table::put(items, key, ch)) =~= table::put(v, key, ch@));
    assert(bound_views(table::without(items, key)) =~= table::without(v, key));
}

proof fn lemma_id_at_is(map: Seq<(Seq<char>, BoundModel)>, id: u64, k: int)
    requires
        0 <= k <= map.len(),
        k < map.len() ==> map[k].1.id == id,
        forall|i: int| 0 <= i < k ==> (#[trigger] map[i]).1.id != id,
    ensures
        id_at(map, id) == k,
    decreases map.len(),
{
    if k > 0 {
        assert(map[0].1.id != id);
        let t = map.drop_first();
        assert forall|i: int| 0 <= i < k - 1 implies (#[trigger] t[i]).1.id != id by {
            assert(t[i] == map[i + 1]);
        }
        lemma_id_at_is(t, id, k - 1);
    }
}

proof fn lemma_container_at_is(map: Seq<(Seq<char>, BoundModel)>, container: Seq<char>, k: int)
    requires
        0 <= k <= map.len(),
        k < map.len() ==> map[k].1.says().container == Some(container),
        forall|i: int| 0 <= i < k ==> (#[trigger] map[i]).1.says().container != Some(container),
    ensures
        container_at(map, container) == k,
    decreases map.len(),
{
    if k > 0 {
        assert(map[0].1.says().container != Some(container));
        let t = map.drop_first();
        assert forall|i: int| 0 <= i < k - 1 implies (#[trigger] t[i]).1.says().container != Some(
            container,
        ) by {
            assert(t[i] == map[i + 1]);
        }
        lemma_container_at_is(t, container, k - 1);
    }
}

proof fn lemma_fresh_is_one(
    map: Seq<(Seq<char>, BoundModel)>,
    name: Seq<char>,
    a: nat,
    b: nat,
)
    requires
        is_fresh(map, name, a),
        is_fresh(map, name, b),
    ensures
        a == b,
{
    if a < b {
        assert(table::has_key(map, numbered(name, a)));
    }
    if b < a {
        assert(table::has_key(map, numbered(name, b)));
    }
}

/// As many numbered names as are taken, so many channels there are at least.
proof fn lemma_taken(map: Seq<(Seq<char>, BoundModel)>, name: Seq<char>, n: nat)
    requires
        n >= 2,
        forall|m: nat| 2 <= m < n ==> table::has_key(map, #[trigger] numbered(name, m)),
    ensures
        n - 2 <= map.len(),
{
    let taken = Seq::new((n - 2) as nat, |i: int| numbered(name, (i + 2) as nat));
    let keys = table::keys(map);
    assert forall|i: int, j: int| 0 <= i < taken.len() && 0 <= j < taken.len() && i
        != j implies taken[i] != taken[j] by {
        if taken[i] == taken[j] {
            let a = name + "-"@;
            let x = text::decimal((i + 2) as nat);
            let y = text::decimal((j + 2) as nat);
            assert((a + x).skip(a.len() as int) =~= x);
            assert((a + y).skip(a.len() as int) =~= y);
            text::lemma_decimal_value((i + 2) as nat);
            text::lemma_decimal_value((j + 2) as nat);
        }
    }
    assert(taken.no_duplicates());
    taken.unique_seq_to_set();
    assert forall|x: Seq<char>| taken.to_set().contains(x) implies keys.to_set().contains(x) by {
        let i = choose|i: int| 0 <= i < taken.len() && taken[i] == x;
        assert(table::has_key(map, numbered(name, (i + 2) as nat)));
        table::lemma_key_at(map, x);
        assert(keys[table::key_at(map, x)] == x);
    }
    vstd::set_lib::lemma_len_subset(taken.to_set(), keys.to_set());
    keys.lemma_cardinality_of_set();
}

// ---------------------------------------------------------------------------
// The registry
// ---------------------------------------------------------------------------
/// The channels that there are.
pub struct ChannelRegistry {
    /// The name of the channel for new sessions.
    pub default: Option<String>,
    map: Table<BoundChannel>,
    /// The containers that were started here and are stopped at the end.
    pub managed: Vec<String>,
    next: u64,
}

impl View for ChannelRegistry {
    type V = RegModel;

    closed spec fn view(&self) -> RegModel {
        RegModel {
            default: text::opt_view(self.default),
            map: bound_views(self.map@),
            managed: text::views(self.managed@),
            next: self.next,
        }
    }
}

impl ChannelRegistry {
    /// No name occurs twice.
    pub open spec fn wf(&self) -> bool {
        table::unique_keys(self@.map)
    }

    proof fn lemma_map_wf(&self)
        ensures
            self.wf() == self.map.wf(),
    {
        let a = self.map@;
        let b = self@.map;
        assert forall|i: int| 0 <= i < a.len() implies (#[trigger] a[i]).0 == b[i].0 by {}
        if table::unique_keys(a) {
            assert forall|i: int, j: int|
                0 <= i < b.len() && 0 <= j < b.len() && i != j implies #[trigger] b[i].0
                != #[trigger] b[j].0 by {
                assert(a[i].0 != a[j].0);
            }
        }
        if table::unique_keys(b) {
            assert forall|i: int, j: int|
                0 <= i < a.len() && 0 <= j < a.len() && i != j implies #[trigger] a[i].0
                != #[trigger] a[j].0 by {
                assert(b[i].0 != b[j].0);
            }
        }
    }

    /// A registry without channels.
    pub fn empty() -> (r: Self)
        ensures
            r.wf(),
            r@ == (RegModel {
                default: None,
                map: Seq::empty(),
                managed: Seq::empty(),
                next: 0,
            }),
    {
        let r = ChannelRegistry {
            default: None,
            map: Table::new(),
            managed: Vec::new(),
            next: 0,
        };
        proof {
            assert(r@.map =~= Seq::empty());
            assert(r@.managed =~= Seq::empty());
            r.lemma_map_wf();
        }
        r
    }

    /// The channels of a configuration. `ids` gives for each of them the identity that its
    /// commands run as.
    pub fn new(cfg: &Config, ids: &Vec<Result<(u32, u32), String>>) -> (r: Self)
        requires
            cfg.channels.wf(),
            ids@.len() == cfg.channels@.len(),
        ensures
            r.wf(),
            r@ == registry_of(*cfg, id_views(ids@)).0,
    {
        Self::new_with_warnings(cfg, ids).0
    }

    /// The channels of a configuration, with a warning for each one that could not be made.
    pub fn new_with_warnings(cfg: &Config, ids: &Vec<Result<(u32, u32), String>>) -> (r: (
        Self,
        Vec<String>,
    ))
        requires
            cfg.channels.wf(),
            ids@.len() == cfg.channels@.len(),
        ensures
            r.0.wf(),
            r.0@ == registry_of(*cfg, id_views(ids@)).0,
            text::views(r.1@) == registry_of(*cfg, id_views(ids@)).1,
    {
        let mut reg = Self::empty();
        let mut warnings: Vec<String> = Vec::new();
        let n: usize = cfg.channels.len();
        let ghost all = cfg.channels@;
        let ghost views = id_views(ids@);
        let mut i: usize = 0;
        proof {
            assert(all.take(0) =~= Seq::empty());
            assert(text::views(warnings@) =~= Seq::empty());
        }
        while i < n
            invariant
                i <= n == all.len(),
                all == cfg.channels@,
                ids@.len() == n,
                views == id_views(ids@),
                cfg.channels.wf(),
                reg.wf(),
                reg@.default is None,
                reg@.managed == Seq::<Seq<char>>::empty(),
                (reg@.map, reg@.next, text::views(warnings@)) == configured(
                    all.take(i as int),
                    views,
                    cfg.timeout_secs,
                    cfg.podman.usermapping,
                ),
            decreases n - i,
        {
            let ghost t = all.take(i + 1);
            assert(t.drop_last() =~= all.take(i as int));
            assert(t[i as int] == all[i as int]);
            let name = cfg.channels.key(i).to_string();
            match channel_from_config(
                name.as_str(),
                cfg.channels.value(i),
                cfg.timeout_secs,
                &ids[i],
                None,
                cfg.podman.usermapping,
            ) {
                Ok(data) => {
                    let ch = reg.bind(data);
                    proof {
                        lemma_bound_views(reg.map@, name@, ch);
                        reg.lemma_map_wf();
                    }
                    reg.map.insert(name, ch);
                    proof {
                        reg.lemma_map_wf();
                    }
                },
                Err(e) => {
                    let mut w = text::concat3(
                        "Channel \"",
                        name.as_str(),
                        "\" not available: ",
                    );
                    w.append(e.as_str());
                    text::push_text(&mut warnings, w);
                },
            }
            i += 1;
        }
        assert(all.take(n as int) =~= all);
        match &cfg.default_channel {
            Some(d) => {
                if reg.get(d.as_str()).is_some() {
                    reg.default = Some(d.clone());
                } else {
                    text::push_text(
                        &mut warnings,
                        text::concat3("default_channel \"", d.as_str(), "\" not available."),
                    );
                }
            },
            None => {},
        }
        (reg, warnings)
    }

    /// The channel with a number of its own.
    pub fn bind(&mut self, data: AnyChannel) -> (r: BoundChannel)
        requires
            old(self).wf(),
        ensures
            final(self).wf(),
            r@ == (BoundModel { id: old(self)@.next, data: data@ }),
            final(self)@ == (RegModel { next: next_id(old(self)@.next), ..old(self)@ }),
    {
        let id: u64 = self.next;
        self.next = if id == u64::MAX {
            0
        } else {
            id + 1
        };
        BoundChannel { id, data }
    }

    /// The names of the channels.
    pub fn names(&self) -> (r: Vec<String>)
        ensures
            text::views(r@) == table::keys(self@.map),
    {
        let r = self.map.names();
        assert(table::keys(self@.map) =~= table::keys(self.map@));
        r
    }

    /// The channel with the name.
    pub fn get(&self, name: &str) -> (r: Option<BoundChannel>)
        ensures
            bound_view(r) == table::lookup(self@.map, name@),
    {
        proof {
            lemma_bound_views(self.map@, name@, arbitrary());
            table::lemma_key_at(self.map@, name@);
        }
        match self.map.get(name) {
            Some(c) => Some(c.clone()),
            None => None,
        }
    }

    /// The first channel that starts the container, with its name.
    pub fn find_by_container(&self, container: &str) -> (r: Option<(String, BoundChannel)>)
        requires
            self.wf(),
        ensures
            ({
                let k = container_at(self@.map, container@);
                match r {
                    Some(p) => k < self@.map.len() && p.0@ == self@.map[k].0 && p.1@
                        == self@.map[k].1 && table::lookup(self@.map, p.0@) == Some(p.1@)
                        && p.1@.says().container == Some(container@),
                    None => k == self@.map.len(),
                }
            }),
    {
        let n: usize = self.map.len();
        let mut i: usize = 0;
        while i < n
            invariant
                i <= n == self@.map.len(),
                n == self.map@.len(),
                self.wf(),
                forall|k: int|
                    0 <= k < i ==> (#[trigger] self@.map[k]).1.says().container != Some(container@),
            decreases n - i,
        {
            let ch = self.map.value(i);
            assert(self@.map[i as int] == (self.map@[i as int].0, ch@));
            if let Some(c) = ch.data.container_name() {
                if text::same_text(c.as_str(), container) {
                    proof {
                        lemma_container_at_is(self@.map, container@, i as int);
                        table::lemma_key_at_is(self@.map, self@.map[i as int].0, i as int);
                    }
                    return Some((self.map.key(i).to_string(), ch.clone()));
                }
            }
            i += 1;
        }
        proof {
            lemma_container_at_is(self@.map, container@, n as int);
        }
        None
    }

    /// The name of the channel for new sessions.
    pub fn default_channel_name(&self) -> (r: Option<&str>)
        ensures
            crate::config::opt_str(r) == self@.default,
    {
        match &self.default {
            Some(d) => Some(d.as_str()),
            None => None,
        }
    }

    /// Keeps a channel and says under which name: where the given one is taken, it gets the first
    /// free number from two on.
    pub fn register(&mut self, name: String, ch: BoundChannel) -> (r: String)
        requires
            old(self).wf(),
        ensures
            final(self).wf(),
            r@ == registered_name(old(self)@.map, name@),
            final(self)@ == (RegModel { map: table::put(old(self)@.map, r@, ch@), ..old(self)@ }),
            !table::has_key(old(self)@.map, r@),
            table::lookup(final(self)@.map, r@) == Some(ch@),
    {
        proof {
            law_registering_never_overwrites(self@.map, name@, ch@, name@);
        }
        let free = self.free_name(name);
        proof {
            lemma_bound_views(self.map@, free@, ch);
            self.lemma_map_wf();
        }
        self.map.insert(free.clone(), ch);
        proof {
            self.lemma_map_wf();
        }
        free
    }

    fn free_name(&self, name: String) -> (r: String)
        ensures
            r@ == registered_name(self@.map, name@),
    {
        proof {
            lemma_bound_views(self.map@, name@, arbitrary());
        }
        if self.map.position(name.as_str()).is_none() {
            return name;
        }
        let mut n: u128 = 2;
        loop
            invariant
                2 <= n,
                table::has_key(self@.map, name@),
                forall|m: nat|
                    2 <= m < n ==> table::has_key(self@.map, #[trigger] numbered(name@, m)),
            decreases self@.map.len() + 2 - n,
        {
            let candidate = text::concat3(name.as_str(), "-", text::decimal_wide(n).as_str());
            proof {
                lemma_bound_views(self.map@, candidate@, arbitrary());
                lemma_taken(self@.map, name@, n as nat);
                assert(candidate@ == numbered(name@, n as nat));
            }
            let size: usize = self.map.len();
            assert(size == self@.map.len());
            if self.map.position(candidate.as_str()).is_none() {
                proof {
                    assert(is_fresh(self@.map, name@, n as nat));
                    lemma_fresh_is_one(
                        self@.map,
                        name@,
                        n as nat,
                        choose|k: nat| is_fresh(self@.map, name@, k),
                    );
                }
                return candidate;
            }
            proof {
                assert forall|m: nat| 2 <= m < n + 1 implies table::has_key(
                    self@.map,
                    #[trigger] numbered(name@, m),
                ) by {
                    if m == n {
                        assert(table::has_key(self@.map, candidate@));
                    }
                }
                lemma_taken(self@.map, name@, (n + 1) as nat);
            }
            n = n + 1;
        }
    }

    /// The name of a channel.
    pub fn find_name(&self, needle: &BoundChannel) -> (r: Option<String>)
        ensures
            ({
                let k = id_at(self@.map, needle@.id);
                match r {
                    Some(s) => k < self@.map.len() && s@ == self@.map[k].0,
                    None => k == self@.map.len(),
                }
            }),
    {
        let n: usize = self.map.len();
        let mut i: usize = 0;
        while i < n
            invariant
                i <= n == self@.map.len(),
                n == self.map@.len(),
                forall|k: int| 0 <= k < i ==> (#[trigger] self@.map[k]).1.id != needle@.id,
            decreases n - i,
        {
            let ch = self.map.value(i);
            assert(self@.map[i as int] == (self.map@[i as int].0, ch@));
            if ch.id == needle.id {
                proof {
                    lemma_id_at_is(self@.map, needle@.id, i as int);
                }
                return Some(self.map.key(i).to_string());
            }
            i += 1;
        }
        proof {
            lemma_id_at_is(self@.map, needle@.id, n as int);
        }
        None
    }

    /// Forgets the channel with the name.
    pub fn unregister(&mut self, name: &str)
        requires
            old(self).wf(),
        ensures
            final(self).wf(),
            final(self)@ == (RegModel { map: table::without(old(self)@.map, name@), ..old(self)@ }),
    {
        proof {
            lemma_bound_views(self.map@, name@, arbitrary());
            self.lemma_map_wf();
        }
        let _gone = self.map.remove(name);
        proof {
            self.lemma_map_wf();
        }
    }

    /// The containers that are stopped at the end, each once.
    pub fn stop_managed(&self) -> (r: Vec<String>)
        ensures
            text::strictly_sorted(text::views(r@)),
            text::views(r@).to_set() == self@.managed.to_set(),
    {
        text::sort_unique(&self.managed)
    }

    /// Takes a container from those that are stopped at the end, because it is stopped now; gives
    /// the arguments that stop it.
    pub fn stop_one(&mut self, name: &str) -> (r: Vec<String>)
        requires
            old(self).wf(),
        ensures
            final(self).wf(),
            text::views(r@) == stop_args(name@),
            final(self)@ == (RegModel {
                managed: without_text(old(self)@.managed, name@),
                ..old(self)@
            }),
    {
        let ghost want = text::views(self.managed@);
        let mut kept: Vec<String> = Vec::new();
        let mut i: usize = 0;
        proof {
            assert(want.take(0) =~= Seq::empty());
            assert(text::views(kept@) =~= Seq::empty());
        }
        while i < self.managed.len()
            invariant
                i <= self.managed@.len(),
                want == text::views(self.managed@),
                text::views(kept@) == without_text(want.take(i as int), name@),
            decreases self.managed@.len() - i,
        {
            assert(want.take(i + 1).drop_last() =~= want.take(i as int));
            assert(want.take(i + 1).last() == self.managed@[i as int]@);
            if !text::same_text(self.managed[i].as_str(), name) {
                text::push_text(&mut kept, self.managed[i].clone());
            }
            i += 1;
        }
        assert(want.take(self.managed@.len() as int) =~= want);
        self.managed = kept;
        let r = text::texts(&["stop", "-t", "0", name]);
        assert(text::views(r@) =~= stop_args(name@));
        r
    }
}

/// The arguments that stop a container at once.
pub open spec fn stop_args(name: Seq<char>) -> Seq<Seq<char>> {
    seq!["stop"@, "-t"@, "0"@, name]
}

/// The list without each occurrence of a text.
pub open spec fn without_text(v: Seq<Seq<char>>, s: Seq<char>) -> Seq<Seq<char>>
    decreases v.len(),
{
    if v.len() == 0 {
        Seq::empty()
    } else if v.last() == s {
        without_text(v.drop_last(), s)
    } else {
        without_text(v.drop_last(), s).push(v.last())
    }
}

// ---------------------------------------------------------------------------
// Laws
// ---------------------------------------------------------------------------
proof fn lemma_some_number_is_fresh(
    map: Seq<(Seq<char>, BoundModel)>,
    name: Seq<char>,
    n: nat,
) -> (r: nat)
    requires
        n >= 2,
        forall|m: nat| 2 <= m < n ==> table::has_key(map, #[trigger] numbered(name, m)),
    ensures
        is_fresh(map, name, r),
    decreases map.len() + 2 - n,
{
    lemma_taken(map, name, n);
    if table::has_key(map, numbered(name, n)) {
        assert forall|m: nat| 2 <= m < n + 1 implies table::has_key(
            map,
            #[trigger] numbered(name, m),
        ) by {
            if m < n {
                assert(table::has_key(map, numbered(name, m)));
            }
        }
        lemma_taken(map, name, n + 1);
        lemma_some_number_is_fresh(map, name, n + 1)
    } else {
        n
    }
}

/// Registering never overwrites: the channel gets a name that was free, is found under it, and
/// every other name leads where it led before.
pub proof fn law_registering_never_overwrites(
    map: Seq<(Seq<char>, BoundModel)>,
    name: Seq<char>,
    ch: BoundModel,
    other: Seq<char>,
)
    ensures
        ({
            let free = registered_name(map, name);
            &&& !table::has_key(map, free)
            &&& table::lookup(table::put(map, free, ch), free) == Some(ch)
            &&& other != free ==> table::lookup(table::put(map, free, ch), other) == table::lookup(
                map,
                other,
            )
        }),
{
    let free = registered_name(map, name);
    if table::has_key(map, name) {
        let n = lemma_some_number_is_fresh(map, name, 2);
        assert(is_fresh(map, name, n));
        assert(is_fresh(map, name, choose|k: nat| is_fresh(map, name, k)));
    }
    table::law_lookup_after_put(map, free, ch, other);
}

/// A container that was stopped is not stopped again at the end, and every other one still is.
pub proof fn law_stopped_containers_are_forgotten(v: Seq<Seq<char>>, s: Seq<char>, other: Seq<char>)
    ensures
        !without_text(v, s).contains(s),
        other != s ==> without_text(v, s).contains(other) == v.contains(other),
    decreases v.len(),
{
    if v.len() > 0 {
        let t = v.drop_last();
        law_stopped_containers_are_forgotten(t, s, other);
        let w = without_text(t, s);
        assert(v =~= t.push(v.last()));
        text::lemma_push_to_set(t, v.last());
        text::lemma_push_to_set(w, v.last());
        assert(v.to_set().contains(other) == v.contains(other));
        assert(t.to_set().contains(other) == t.contains(other));
        assert(w.push(v.last()).to_set().contains(other) == w.push(v.last()).contains(other));
        assert(w.to_set().contains(other) == w.contains(other));
        assert(w.push(v.last()).to_set().contains(s) == w.push(v.last()).contains(s));
        assert(w.to_set().contains(s) == w.contains(s));
    }
}

/// A described channel is of the kind that its description names; any other kind is refused by name,
/// and a local one must have a directory and no container.
pub proof fn law_descriptions_name_their_kind(
    name: Seq<char>,
    cfg: ChannelConfig,
    timeout_secs: u64,
    ids: Result<(nat, nat), Seq<char>>,
    worktree: Option<super::WorktreeModel>,
    usermapping: PodmanUserMapping,
)
    ensures
        ({
            let r = channel_described(name, cfg, timeout_secs, ids, worktree, usermapping);
            &&& cfg.kind@ == "podman"@ ==> (r matches Ok(c) ==> c is Podman)
            &&& cfg.kind@ == "podman"@ ==> (r matches Ok(c) ==> c.says().worktree == worktree)
            &&& cfg.kind@ == "local"@ && cfg.image is None && cfg.container is None ==> match cfg.host_root {
                Some(root) => {
                    &&& r is Ok
                    &&& r->Ok_0 is Local
                    &&& (r->Ok_0).says().host_root == Some(root@)
                    &&& (r->Ok_0).says().worktree == worktree
                    &&& (r->Ok_0)->Local_0.managed_worktree == (worktree is Some)
                    &&& timeout_secs > 0 ==> (r->Ok_0)->Local_0.timeout == timeout_secs
                    &&& (r->Ok_0)->Local_0.timeout >= 1
                },
                None => r == Err::<AnyModel, Seq<char>>("local channel needs host_root"@),
            }
            &&& cfg.kind@ == "local"@ && cfg.host_root is Some && (cfg.image is Some
                || cfg.container is Some) ==> r == Err::<AnyModel, Seq<char>>(
                "local channel must not set image/container (only host_root)."@,
            )
            &&& cfg.kind@ != "local"@ && cfg.kind@ != "podman"@ ==> r == Err::<AnyModel, Seq<char>>(
                "Unknown channel type: "@ + cfg.kind@,
            )
        }),
{
    reveal_strlit("podman");
    reveal_strlit("local");
    assert("podman"@.len() != "local"@.len());
}

/// Every channel of the configuration is there under its name, or there is a warning that names it
/// and says why not.
pub proof fn law_configured_channels_are_there_or_warned_about(
    channels: Seq<(Seq<char>, ChannelConfig)>,
    ids: Seq<Result<(nat, nat), Seq<char>>>,
    timeout_secs: u64,
    usermapping: PodmanUserMapping,
)
    requires
        channels.len() > 0,
    ensures
        ({
            let (map, next, warnings) = configured(channels, ids, timeout_secs, usermapping);
            let before = configured(channels.drop_last(), ids, timeout_secs, usermapping);
            let k = channels.len() - 1;
            let name = channels[k].0;
            match channel_described(
                name,
                channels[k].1,
                timeout_secs,
                ids[k],
                None,
                usermapping,
            ) {
                Ok(data) => {
                    &&& table::lookup(map, name) == Some(BoundModel { id: before.1, data })
                    &&& warnings == before.2
                    &&& before.1 < u64::MAX ==> next == before.1 + 1
                },
                Err(e) => {
                    &&& map == before.0
                    &&& next == before.1
                    &&& warnings == before.2.push(
                        "Channel \""@ + name + "\" not available: "@ + e,
                    )
                },
            }
        }),
{
    let before = configured(channels.drop_last(), ids, timeout_secs, usermapping);
    let k = channels.len() - 1;
    let name = channels[k].0;
    match channel_described(name, channels[k].1, timeout_secs, ids[k], None, usermapping) {
        Ok(data) => {
            table::law_lookup_after_put(
                before.0,
                name,
                BoundModel { id: before.1, data },
                name,
            );
        },
        Err(_) => {},
    }
}

/// The default channel is the one that the configuration names where it is there; else there is none,
/// and a warning. At the beginning no container was started.
pub proof fn law_the_default_channel_has_to_be_there(
    cfg: Config,
    ids: Seq<Result<(nat, nat), Seq<char>>>,
)
    ensures
        ({
            let (r, warnings) = registry_of(cfg, ids);
            &&& r.managed.len() == 0
            &&& cfg.default_channel is None ==> r.default is None
            &&& cfg.default_channel matches Some(d) ==> (table::has_key(r.map, d@) ==> r.default
                == Some(d@))
            &&& cfg.default_channel matches Some(d) ==> (!table::has_key(r.map, d@) ==> r.default
                is None && warnings.len() > 0 && warnings.last() == "default_channel \""@ + d@
                + "\" not available."@)
        }),
{
}

/// A taken name is followed by the first number from two on that is free.
pub proof fn law_taken_names_are_numbered(map: Seq<(Seq<char>, BoundModel)>, name: Seq<char>)
    ensures
        !table::has_key(map, name) ==> registered_name(map, name) == name,
        table::has_key(map, name) ==> exists|n: nat|
            {
                &&& n >= 2
                &&& registered_name(map, name) == name + "-"@ + #[trigger] text::decimal(n)
                &&& !table::has_key(map, name + "-"@ + text::decimal(n))
                &&& forall|m: nat|
                    2 <= m < n ==> table::has_key(map, name + "-"@ + #[trigger] text::decimal(m))
            },
{
    if table::has_key(map, name) {
        let k = lemma_some_number_is_fresh(map, name, 2);
        assert(is_fresh(map, name, k));
        let n = choose|n: nat| is_fresh(map, name, n);
        assert(is_fresh(map, name, n));
        assert(registered_name(map, name) == name + "-"@ + text::decimal(n));
        assert forall|m: nat| 2 <= m < n implies table::has_key(
            map,
            name + "-"@ + #[trigger] text::decimal(m),
        ) by {
            assert(table::has_key(map, numbered(name, m)));
        }
    }
}

/// A container is stopped at once and by its name.
pub proof fn law_containers_are_stopped_at_once(name: Seq<char>)
    ensures
        stop_args(name) == seq!["stop"@, "-t"@, "0"@, name],
{
}

/// A channel is found by its container.
pub proof fn law_channels_are_found_by_their_container(
    map: Seq<(Seq<char>, BoundModel)>,
    container: Seq<char>,
    k: int,
)
    requires
        0 <= k < map.len(),
        map[k].1.says().container == Some(container),
        forall|j: int| 0 <= j < k ==> (#[trigger] map[j]).1.says().container != Some(container),
    ensures
        container_at(map, container) == k,
    decreases map.len(),
{
    if k > 0 {
        let t = map.drop_first();
        assert(map[0].1.says().container != Some(container));
        assert forall|j: int| 0 <= j < k - 1 implies (#[trigger] t[j]).1.says().container != Some(
            container,
        ) by {
            assert(t[j] == map[j + 1]);
        }
        law_channels_are_found_by_their_container(t, container, k - 1);
    }
}

} // verus!
