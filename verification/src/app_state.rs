use vstd::prelude::*;
use vstd::string::StringExecFns;

use crate::db::Db;
use crate::models::{copy_relays, GameDefinition, Relay, Server, ServerView, server_views};
use crate::text::{concat, str_eq};

verus! {

/// Which list the arrow keys move in.
#[derive(Clone, Copy, Debug, PartialEq, Eq, Structural)]
pub enum ActivePane {
    Games,
    Servers,
}

/// A key pressed by the user.
#[derive(Clone, Copy, Debug, PartialEq, Eq)]
pub enum Key {
    Char(char),
    Esc,
    Left,
    Right,
    Up,
    Down,
    Other,
}

/// What background work reports back.
#[derive(Clone, Debug)]
pub enum AppEvent {
    FetchSuccess { servers: Vec<Server> },
    FetchError(String),
    PingUpdate { index: usize, ping: Option<u32>, status_text: String },
    FirewallSuccess,
    FirewallError(String),
}

/// A change of the firewall to carry out.
#[derive(Clone, Debug)]
pub enum FirewallRequest {
    /// Block one server's relays under its name, with a rule description.
    Block { name: String, relays: Vec<Relay>, description: String },
    /// Unblock one server by name.
    Unblock { name: String },
    /// Block each listed server: name, relays, rule description.
    BlockAll(Vec<(String, Vec<Relay>, String)>),
    /// Unblock each named server.
    UnblockAll(Vec<String>),
}

/// What the interface asks to be done after a key or an event.
#[derive(Clone, Debug)]
pub enum AppAction {
    Nothing,
    /// Leave the program.
    Quit,
    /// Fetch the servers of the game at this index, after cancelling pings.
    FetchServers(usize),
    /// Ping every server listed now, after cancelling earlier pings.
    PingServers,
    /// Change the firewall.
    Firewall(FirewallRequest),
    /// Read again which servers are blocked.
    RefreshBlocked,
}

/// The state behind the terminal interface. The two `*_selected` fields
/// are the selections to show in the game list and the server table.
pub struct AppState {
    pub games: Vec<GameDefinition>,
    pub selected_game_idx: usize,
    pub servers: Vec<Server>,
    pub selected_server_idx: usize,
    pub active_pane: ActivePane,
    pub loading: bool,
    pub status_message: String,
    pub error_message: Option<String>,
    pub games_list_selected: Option<usize>,
    pub servers_table_selected: Option<usize>,
}

/// The interface state with texts and lists as mathematical values.
pub struct AppStateView {
    pub games: Seq<GameDefinition>,
    pub selected_game_idx: usize,
    pub servers: Seq<ServerView>,
    pub selected_server_idx: usize,
    pub active_pane: ActivePane,
    pub loading: bool,
    pub status_message: Seq<char>,
    pub error_message: Option<Seq<char>>,
    pub games_list_selected: Option<usize>,
    pub servers_table_selected: Option<usize>,
}

/// The text of an optional string.
pub open spec fn opt_text(s: Option<String>) -> Option<Seq<char>> {
    match s {
        Some(t) => Some(t@),
        None => None,
    }
}

impl View for AppState {
    type V = AppStateView;

    open spec fn view(&self) -> AppStateView {
        AppStateView {
            games: self.games@,
            selected_game_idx: self.selected_game_idx,
            servers: server_views(self.servers@),
            selected_server_idx: self.selected_server_idx,
            active_pane: self.active_pane,
            loading: self.loading,
            status_message: self.status_message@,
            error_message: opt_text(self.error_message),
            games_list_selected: self.games_list_selected,
            servers_table_selected: self.servers_table_selected,
        }
    }
}

/// A firewall change with texts and lists as mathematical values.
pub enum RequestView {
    Block { name: Seq<char>, relays: Seq<Relay>, description: Seq<char> },
    Unblock { name: Seq<char> },
    BlockAll(Seq<(Seq<char>, Seq<Relay>, Seq<char>)>),
    UnblockAll(Seq<Seq<char>>),
}

impl View for FirewallRequest {
    type V = RequestView;

    open spec fn view(&self) -> RequestView {
        match self {
            FirewallRequest::Block { name, relays, description } => RequestView::Block {
                name: name@,
                relays: relays@,
                description: description@,
            },
            FirewallRequest::Unblock { name } => RequestView::Unblock { name: name@ },
            FirewallRequest::BlockAll(v) => RequestView::BlockAll(
                v@.map_values(|e: (String, Vec<Relay>, String)| (e.0@, e.1@, e.2@)),
            ),
            FirewallRequest::UnblockAll(v) => RequestView::UnblockAll(v@.map_values(|s: String| s@)),
        }
    }
}

/// An action with texts and lists as mathematical values.
pub enum ActionView {
    Nothing,
    Quit,
    FetchServers(usize),
    PingServers,
    Firewall(RequestView),
    RefreshBlocked,
}

impl View for AppAction {
    type V = ActionView;

    open spec fn view(&self) -> ActionView {
        match self {
            AppAction::Nothing => ActionView::Nothing,
            AppAction::Quit => ActionView::Quit,
            AppAction::FetchServers(i) => ActionView::FetchServers(*i),
            AppAction::PingServers => ActionView::PingServers,
            AppAction::Firewall(r) => ActionView::Firewall(r@),
            AppAction::RefreshBlocked => ActionView::RefreshBlocked,
        }
    }
}

/// An event with texts and lists as mathematical values.
pub enum EventView {
    FetchSuccess(Seq<ServerView>),
    FetchError(Seq<char>),
    PingUpdate { index: usize, ping: Option<u32>, status_text: Seq<char> },
    FirewallSuccess,
    FirewallError(Seq<char>),
}

impl View for AppEvent {
    type V = EventView;

    open spec fn view(&self) -> EventView {
        match self {
            AppEvent::FetchSuccess { servers } => EventView::FetchSuccess(server_views(servers@)),
            AppEvent::FetchError(e) => EventView::FetchError(e@),
            AppEvent::PingUpdate { index, ping, status_text } => EventView::PingUpdate {
                index: *index,
                ping: *ping,
                status_text: status_text@,
            },
            AppEvent::FirewallSuccess => EventView::FirewallSuccess,
            AppEvent::FirewallError(e) => EventView::FirewallError(e@),
        }
    }
}

/// The text of the rule description for blocking a server.
pub open spec fn block_description(desc: Seq<char>) -> Seq<char> {
    "serverare: Block "@ + desc
}

/// Selecting the game at the current index: the server list is emptied and
/// fetched anew. Nothing happens when the index is past the list.
pub open spec fn change_game_step(v: AppStateView) -> (AppStateView, ActionView) {
    if v.selected_game_idx >= v.games.len() {
        (v, ActionView::Nothing)
    } else {
        (
            AppStateView {
                loading: true,
                status_message: "Fetching servers from Steam SDR..."@,
                error_message: None,
                servers: Seq::empty(),
                selected_server_idx: 0,
                servers_table_selected: Some(0),
                games_list_selected: Some(v.selected_game_idx),
                ..v
            },
            ActionView::FetchServers(v.selected_game_idx),
        )
    }
}

/// A server whose ping is under way.
pub open spec fn checking(s: ServerView) -> ServerView {
    ServerView { status_text: "Checking..."@, ..s }
}

/// Starting to ping every listed server; nothing happens without servers.
pub open spec fn trigger_pings_step(v: AppStateView) -> (AppStateView, ActionView) {
    if v.servers.len() == 0 {
        (v, ActionView::Nothing)
    } else {
        (
            AppStateView {
                status_message: "Pinging servers..."@,
                servers: v.servers.map_values(|s: ServerView| checking(s)),
                ..v
            },
            ActionView::PingServers,
        )
    }
}

/// Blocking the selected server if it is allowed, unblocking it if it is
/// blocked; nothing happens without a selected server.
pub open spec fn toggle_step(v: AppStateView) -> (AppStateView, ActionView) {
    if v.servers.len() == 0 || v.selected_server_idx >= v.servers.len() {
        (v, ActionView::Nothing)
    } else {
        let s = v.servers[v.selected_server_idx as int];
        (
            AppStateView { loading: true, status_message: "Updating firewall rules..."@, ..v },
            ActionView::Firewall(
                if !s.blocked {
                    RequestView::Block {
                        name: s.description,
                        relays: s.relays,
                        description: block_description(s.description),
                    }
                } else {
                    RequestView::Unblock { name: s.description }
                },
            ),
        )
    }
}

/// Blocking, or unblocking, every listed server; nothing happens without
/// servers.
pub open spec fn set_all_step(v: AppStateView, block: bool) -> (AppStateView, ActionView) {
    if v.servers.len() == 0 {
        (v, ActionView::Nothing)
    } else {
        (
            AppStateView {
                loading: true,
                status_message: if block {
                    "Blocking all servers..."@
                } else {
                    "Unblocking all servers..."@
                },
                ..v
            },
            ActionView::Firewall(
                if block {
                    RequestView::BlockAll(
                        v.servers.map_values(
                            |s: ServerView| (s.description, s.relays, block_description(s.description)),
                        ),
                    )
                } else {
                    RequestView::UnblockAll(v.servers.map_values(|s: ServerView| s.description))
                },
            ),
        )
    }
}

/// No server is still being checked.
pub open spec fn pings_done(servers: Seq<ServerView>) -> bool {
    forall|i: int| 0 <= i < servers.len() ==> #[trigger] servers[i].status_text != "Checking..."@
}

/// Handling what background work reported.
pub open spec fn event_step(v: AppStateView, e: EventView) -> (AppStateView, ActionView) {
    match e {
        EventView::FetchSuccess(servers) => trigger_pings_step(
            AppStateView {
                servers,
                selected_server_idx: 0,
                servers_table_selected: Some(0),
                loading: false,
                error_message: None,
                status_message: "Servers loaded. Press R to refresh pings or Up/Down to navigate."@,
                ..v
            },
        ),
        EventView::FetchError(m) => (
            AppStateView { loading: false, error_message: Some(m), ..v },
            ActionView::Nothing,
        ),
        EventView::PingUpdate { index, ping, status_text } => {
            let servers = if index < v.servers.len() {
                v.servers.update(
                    index as int,
                    ServerView { ping, status_text, ..v.servers[index as int] },
                )
            } else {
                v.servers
            };
            (
                AppStateView {
                    servers,
                    status_message: if pings_done(servers) {
                        "Pings updated."@
                    } else {
                        v.status_message
                    },
                    ..v
                },
                ActionView::Nothing,
            )
        },
        EventView::FirewallSuccess => (
            AppStateView {
                loading: false,
                error_message: None,
                status_message: "Firewall updated successfully."@,
                ..v
            },
            ActionView::RefreshBlocked,
        ),
        EventView::FirewallError(m) => (
            AppStateView { loading: false, error_message: Some(m), ..v },
            ActionView::Nothing,
        ),
    }
}

/// Handling a key: `q` or Esc quits; Left and Right switch the pane; Up and
/// Down move in the active list (moving to another game fetches its
/// servers); Space toggles the selected server in the server pane; `d`
/// blocks and `e` unblocks every server; `r` pings again. The last four do
/// nothing while a change is loading.
pub open spec fn key_step(v: AppStateView, k: Key) -> (AppStateView, ActionView) {
    match k {
        Key::Char('q') | Key::Esc => (v, ActionView::Quit),
        Key::Left | Key::Right => (
            AppStateView {
                active_pane: match v.active_pane {
                    ActivePane::Games => ActivePane::Servers,
                    ActivePane::Servers => ActivePane::Games,
                },
                ..v
            },
            ActionView::Nothing,
        ),
        Key::Up => match v.active_pane {
            ActivePane::Games => if v.selected_game_idx > 0 {
                change_game_step(
                    AppStateView {
                        selected_game_idx: (v.selected_game_idx - 1) as usize,
                        games_list_selected: Some((v.selected_game_idx - 1) as usize),
                        ..v
                    },
                )
            } else {
                (v, ActionView::Nothing)
            },
            ActivePane::Servers => if v.selected_server_idx > 0 {
                (
                    AppStateView {
                        selected_server_idx: (v.selected_server_idx - 1) as usize,
                        servers_table_selected: Some((v.selected_server_idx - 1) as usize),
                        ..v
                    },
                    ActionView::Nothing,
                )
            } else {
                (v, ActionView::Nothing)
            },
        },
        Key::Down => match v.active_pane {
            ActivePane::Games => if v.selected_game_idx + 1 < v.games.len() {
                change_game_step(
                    AppStateView {
                        selected_game_idx: (v.selected_game_idx + 1) as usize,
                        games_list_selected: Some((v.selected_game_idx + 1) as usize),
                        ..v
                    },
                )
            } else {
                (v, ActionView::Nothing)
            },
            ActivePane::Servers => if v.selected_server_idx + 1 < v.servers.len() {
                (
                    AppStateView {
                        selected_server_idx: (v.selected_server_idx + 1) as usize,
                        servers_table_selected: Some((v.selected_server_idx + 1) as usize),
                        ..v
                    },
                    ActionView::Nothing,
                )
            } else {
                (v, ActionView::Nothing)
            },
        },
        Key::Char(' ') => if v.active_pane == ActivePane::Servers && !v.loading {
            toggle_step(v)
        } else {
            (v, ActionView::Nothing)
        },
        Key::Char('d') => if !v.loading {
            set_all_step(v, true)
        } else {
            (v, ActionView::Nothing)
        },
        Key::Char('e') => if !v.loading {
            set_all_step(v, false)
        } else {
            (v, ActionView::Nothing)
        },
        Key::Char('r') => if !v.loading {
            trigger_pings_step(v)
        } else {
            (v, ActionView::Nothing)
        },
        _ => (v, ActionView::Nothing),
    }
}

/// The selections stay inside their lists and the shown selections follow
/// them: the selected game exists whenever there are games, the selected
/// server exists whenever there are servers (else it is the first place),
/// and the game list and server table show exactly these selections.
pub open spec fn selection_consistent(v: AppStateView) -> bool {
    &&& v.games.len() > 0 ==> v.selected_game_idx < v.games.len()
    &&& v.selected_server_idx == 0 || v.selected_server_idx < v.servers.len()
    &&& v.games_list_selected == Some(v.selected_game_idx)
    &&& v.servers_table_selected == Some(v.selected_server_idx)
}

/// Every key and every reported event keeps the selections consistent.
pub proof fn lemma_selection_preserved(v: AppStateView, k: Key, e: EventView)
    requires
        selection_consistent(v),
    ensures
        selection_consistent(key_step(v, k).0),
        selection_consistent(event_step(v, e).0),
{
}

/// While a change is loading, the keys that would start firewall changes
/// or pings do nothing; a firewall change is asked for only when none is
/// loading, and from then on one is.
pub proof fn lemma_one_change_at_a_time(v: AppStateView, k: Key)
    ensures
        v.loading && (k == Key::Char(' ') || k == Key::Char('d') || k == Key::Char('e') || k
            == Key::Char('r')) ==> key_step(v, k) == (v, ActionView::Nothing),
        key_step(v, k).1 is Firewall ==> !v.loading && key_step(v, k).0.loading,
{
}

/// Every report of finished work ends the loading state; ping updates
/// leave it as it was.
pub proof fn lemma_reports_end_loading(v: AppStateView, e: EventView)
    ensures
        !(e is PingUpdate) ==> !event_step(v, e).0.loading,
        e is PingUpdate ==> event_step(v, e).0.loading == v.loading,
{
}

/// Toggling asks to block the selected server, under its description,
/// with all of its relays and the description `serverare: Block ` and its
/// name, when it is allowed, and to unblock it by that name when it is
/// blocked; the same holds of Space in the server pane when nothing is
/// loading. Without a selected server nothing happens.
pub proof fn lemma_toggle_request(v: AppStateView)
    ensures
        v.selected_server_idx < v.servers.len() ==> ({
            let s = v.servers[v.selected_server_idx as int];
            match toggle_step(v).1 {
                ActionView::Firewall(RequestView::Block { name, relays, description }) => !s.blocked
                    && name == s.description && relays == s.relays && description == "serverare: Block "@
                    + s.description,
                ActionView::Firewall(RequestView::Unblock { name }) => s.blocked && name == s.description,
                _ => false,
            }
        }),
        v.selected_server_idx >= v.servers.len() ==> toggle_step(v) == (v, ActionView::Nothing),
        v.active_pane == ActivePane::Servers && !v.loading ==> key_step(v, Key::Char(' ')) == toggle_step(
            v,
        ),
{
}

/// Blocking all asks to block every listed server, in order, each under
/// its description with all of its relays and the description
/// `serverare: Block ` and its name; unblocking all asks to unblock every
/// listed server by its description. Without servers nothing happens.
pub proof fn lemma_set_all_request(v: AppStateView)
    ensures
        v.servers.len() > 0 ==> match set_all_step(v, true).1 {
            ActionView::Firewall(RequestView::BlockAll(batch)) => batch.len() == v.servers.len() && forall|
                k: int,
            |
                0 <= k < v.servers.len() ==> (#[trigger] batch[k]).0 == v.servers[k].description
                    && batch[k].1 == v.servers[k].relays && batch[k].2 == "serverare: Block "@
                    + v.servers[k].description,
            _ => false,
        },
        v.servers.len() > 0 ==> match set_all_step(v, false).1 {
            ActionView::Firewall(RequestView::UnblockAll(names)) => names.len() == v.servers.len()
                && forall|k: int| 0 <= k < v.servers.len() ==> #[trigger] names[k] == v.servers[k].description,
            _ => false,
        },
        v.servers.len() == 0 ==> set_all_step(v, true) == (v, ActionView::Nothing) && set_all_step(v, false)
            == (v, ActionView::Nothing),
        !v.loading ==> key_step(v, Key::Char('d')) == set_all_step(v, true) && key_step(v, Key::Char('e'))
            == set_all_step(v, false),
{
}

/// Quitting leaves the state as it was.
pub proof fn lemma_quit_keeps_state(v: AppStateView)
    ensures
        key_step(v, Key::Char('q')) == (v, ActionView::Quit),
        key_step(v, Key::Esc) == (v, ActionView::Quit),
{
}

/// A server with its blocked flag set to `b`.
pub open spec fn with_blocked(s: ServerView, b: bool) -> ServerView {
    ServerView { blocked: b, ..s }
}

/// Marks every server as being checked.
fn mark_checking(servers: &mut Vec<Server>)
    ensures
        server_views(final(servers)@) == server_views(old(servers)@).map_values(
            |s: ServerView| checking(s),
        ),
{
    let ghost start = server_views(servers@);
    let mut i: usize = 0;
    while i < servers.len()
        invariant
            i <= servers.len(),
            start.len() == servers.len(),
            forall|k: int| 0 <= k < i ==> (#[trigger] servers@[k])@ == checking(start[k]),
            forall|k: int| i <= k < servers.len() ==> (#[trigger] servers@[k])@ == start[k],
        decreases servers.len() - i,
    {
        servers[i].status_text = String::from_str("Checking...");
        i = i + 1;
    }
    assert(server_views(servers@) =~= start.map_values(|s: ServerView| checking(s)));
}

/// Sets, for every server, whether the blocklist holds its description.
pub fn update_blocked_status(servers: &mut Vec<Server>, db: &Db)
    ensures
        final(servers)@.len() == old(servers)@.len(),
        forall|k: int|
            0 <= k < old(servers)@.len() ==> (#[trigger] final(servers)@[k])@ == with_blocked(
                old(servers)@[k]@,
                db.view().contains_key(old(servers)@[k].description@),
            ),
{
    let ghost start = servers@;
    let mut i: usize = 0;
    while i < servers.len()
        invariant
            i <= servers.len(),
            start.len() == servers.len(),
            forall|k: int|
                0 <= k < i ==> (#[trigger] servers@[k])@ == with_blocked(
                    start[k]@,
                    db.view().contains_key(start[k].description@),
                ),
            forall|k: int| i <= k < servers.len() ==> (#[trigger] servers@[k]) == start[k],
        decreases servers.len() - i,
    {
        let b = db.is_blocked(servers[i].description.as_str());
        servers[i].blocked = b;
        i = i + 1;
    }
}

impl AppState {
    /// The state at start: the first game selected, no servers yet, the
    /// game pane active.
    pub fn new(games: Vec<GameDefinition>) -> (r: AppState)
        ensures
            r@ == (AppStateView {
                games: games@,
                selected_game_idx: 0,
                servers: Seq::empty(),
                selected_server_idx: 0,
                active_pane: ActivePane::Games,
                loading: false,
                status_message: Seq::empty(),
                error_message: None,
                games_list_selected: Some(0),
                servers_table_selected: Some(0),
            }),
            selection_consistent(r@),
    {
        let r = AppState {
            games,
            selected_game_idx: 0,
            servers: Vec::new(),
            selected_server_idx: 0,
            active_pane: ActivePane::Games,
            loading: false,
            status_message: String::new(),
            error_message: None,
            games_list_selected: Some(0),
            servers_table_selected: Some(0),
        };
        assert(server_views(r.servers@) =~= Seq::<ServerView>::empty());
        r
    }

    /// Selects the game at the current index and asks for its servers.
    pub fn change_game(&mut self) -> (r: AppAction)
        ensures
            (final(self)@, r@) == change_game_step(old(self)@),
    {
        if self.selected_game_idx >= self.games.len() {
            return AppAction::Nothing;
        }
        self.loading = true;
        self.status_message = String::from_str("Fetching servers from Steam SDR...");
        self.error_message = None;
        self.servers = Vec::new();
        self.selected_server_idx = 0;
        self.servers_table_selected = Some(0);
        self.games_list_selected = Some(self.selected_game_idx);
        assert(server_views(self.servers@) =~= Seq::<ServerView>::empty());
        AppAction::FetchServers(self.selected_game_idx)
    }

    /// Marks every server as being checked and asks for them to be pinged.
    pub fn trigger_pings(&mut self) -> (r: AppAction)
        ensures
            (final(self)@, r@) == trigger_pings_step(old(self)@),
    {
        if self.servers.len() == 0 {
            return AppAction::Nothing;
        }
        self.status_message = String::from_str("Pinging servers...");
        mark_checking(&mut self.servers);
        AppAction::PingServers
    }

    /// Asks for the selected server to be blocked, or unblocked if it is
    /// blocked.
    pub fn toggle_selected_server(&mut self) -> (r: AppAction)
        ensures
            (final(self)@, r@) == toggle_step(old(self)@),
            r matches AppAction::Firewall(FirewallRequest::Block { name, relays, description }) ==> (
            old(self).selected_server_idx < old(self).servers@.len() && !old(self).servers@[old(
                self,
            ).selected_server_idx as int].blocked && name@ == old(self).servers@[old(
                self,
            ).selected_server_idx as int].description@ && relays@ == old(self).servers@[old(
                self,
            ).selected_server_idx as int].relays@ && description@ == "serverare: Block "@ + name@),
    {
        proof {
            lemma_toggle_request(self@);
        }
        if self.servers.len() == 0 || self.selected_server_idx >= self.servers.len() {
            return AppAction::Nothing;
        }
        self.loading = true;
        self.status_message = String::from_str("Updating firewall rules...");
        let s = &self.servers[self.selected_server_idx];
        let request = if !s.blocked {
            let description = concat(&["serverare: Block ", s.description.as_str()]);
            proof {
                reveal_with_fuel(Seq::fold_left, 3);
            }
            assert(description@ =~= block_description(s.description@));
            FirewallRequest::Block {
                name: s.description.clone(),
                relays: copy_relays(&s.relays),
                description,
            }
        } else {
            FirewallRequest::Unblock { name: s.description.clone() }
        };
        AppAction::Firewall(request)
    }

    /// Asks for every server to be blocked, or every one unblocked.
    pub fn set_all_servers_blocked(&mut self, block: bool) -> (r: AppAction)
        ensures
            (final(self)@, r@) == set_all_step(old(self)@, block),
            r matches AppAction::Firewall(FirewallRequest::BlockAll(batch)) ==> (block && batch@.len()
                == old(self).servers@.len() && forall|k: int|
                0 <= k < batch@.len() ==> (#[trigger] batch@[k]).0@ == old(self).servers@[k].description@
                    && batch@[k].1@ == old(self).servers@[k].relays@ && batch@[k].2@ == "serverare: Block "@
                    + old(self).servers@[k].description@),
    {
        proof {
            lemma_set_all_request(self@);
        }
        if self.servers.len() == 0 {
            return AppAction::Nothing;
        }
        self.loading = true;
        self.status_message = if block {
            String::from_str("Blocking all servers...")
        } else {
            String::from_str("Unblocking all servers...")
        };
        let ghost sv = server_views(self.servers@);
        if block {
            let mut batch: Vec<(String, Vec<Relay>, String)> = Vec::new();
            let mut i: usize = 0;
            while i < self.servers.len()
                invariant
                    i <= self.servers.len(),
                    sv == server_views(self.servers@),
                    batch@.len() == i,
                    forall|k: int|
                        0 <= k < i ==> ((#[trigger] batch@[k]).0@, batch@[k].1@, batch@[k].2@) == (
                        sv[k].description,
                        sv[k].relays,
                        block_description(sv[k].description),
                    ),
                decreases self.servers.len() - i,
            {
                let s = &self.servers[i];
                let description = concat(&["serverare: Block ", s.description.as_str()]);
                proof {
                    reveal_with_fuel(Seq::fold_left, 3);
                }
                assert(description@ =~= block_description(s.description@));
                batch.push((s.description.clone(), copy_relays(&s.relays), description));
                i = i + 1;
            }
            let r = AppAction::Firewall(FirewallRequest::BlockAll(batch));
            assert(batch@.map_values(|e: (String, Vec<Relay>, String)| (e.0@, e.1@, e.2@)) =~= sv.map_values(
                |s: ServerView| (s.description, s.relays, block_description(s.description)),
            ));
            r
        } else {
            let mut names: Vec<String> = Vec::new();
            let mut i: usize = 0;
            while i < self.servers.len()
                invariant
                    i <= self.servers.len(),
                    sv == server_views(self.servers@),
                    names@.len() == i,
                    forall|k: int| 0 <= k < i ==> (#[trigger] names@[k])@ == sv[k].description,
                decreases self.servers.len() - i,
            {
                names.push(self.servers[i].description.clone());
                i = i + 1;
            }
            let r = AppAction::Firewall(FirewallRequest::UnblockAll(names));
            assert(names@.map_values(|s: String| s@) =~= sv.map_values(|s: ServerView| s.description));
            r
        }
    }

    /// Sets for every server whether the blocklist holds it.
    pub fn refresh_blocked(&mut self, db: &Db)
        ensures
            final(self)@ == (AppStateView {
                servers: old(self)@.servers.map_values(
                    |s: ServerView| with_blocked(s, db.view().contains_key(s.description)),
                ),
                ..old(self)@
            }),
    {
        update_blocked_status(&mut self.servers, db);
        proof {
            let ov = old(self)@.servers;
            assert(server_views(self.servers@) =~= ov.map_values(
                |s: ServerView| with_blocked(s, db.view().contains_key(s.description)),
            ));
        }
    }

    /// Handles what background work reported.
    pub fn handle_event(&mut self, event: AppEvent) -> (r: AppAction)
        ensures
            (final(self)@, r@) == event_step(old(self)@, event@),
    {
        match event {
            AppEvent::FetchSuccess { servers } => {
                self.servers = servers;
                self.selected_server_idx = 0;
                self.servers_table_selected = Some(0);
                self.loading = false;
                self.error_message = None;
                self.status_message = String::from_str(
                    "Servers loaded. Press R to refresh pings or Up/Down to navigate.",
                );
                self.trigger_pings()
            },
            AppEvent::FetchError(e) => {
                self.loading = false;
                self.error_message = Some(e);
                AppAction::Nothing
            },
            AppEvent::PingUpdate { index, ping, status_text } => {
                let ghost ov = server_views(self.servers@);
                if index < self.servers.len() {
                    self.servers[index].ping = ping;
                    self.servers[index].status_text = status_text;
                    assert(server_views(self.servers@) =~= ov.update(
                        index as int,
                        ServerView { ping, status_text: status_text@, ..ov[index as int] },
                    ));
                }
                let ghost nv = server_views(self.servers@);
                let mut all_done = true;
                let mut i: usize = 0;
                while i < self.servers.len()
                    invariant
                        i <= self.servers.len(),
                        nv == server_views(self.servers@),
                        all_done <==> !(exists|k: int|
                            0 <= k < i && #[trigger] nv[k].status_text == "Checking..."@),
                    decreases self.servers.len() - i,
                {
                    assert(nv[i as int] == self.servers@[i as int]@);
                    if str_eq(self.servers[i].status_text.as_str(), "Checking...") {
                        assert(nv[i as int].status_text == "Checking..."@);
                        all_done = false;
                    }
                    i = i + 1;
                }
                assert(all_done == pings_done(nv));
                if all_done {
                    self.status_message = String::from_str("Pings updated.");
                }
                AppAction::Nothing
            },
            AppEvent::FirewallSuccess => {
                self.loading = false;
                self.error_message = None;
                self.status_message = String::from_str("Firewall updated successfully.");
                AppAction::RefreshBlocked
            },
            AppEvent::FirewallError(e) => {
                self.loading = false;
                self.error_message = Some(e);
                AppAction::Nothing
            },
        }
    }

    /// Handles a key.
    pub fn handle_key(&mut self, key: Key) -> (r: AppAction)
        ensures
            (final(self)@, r@) == key_step(old(self)@, key),
    {
        match key {
            Key::Char('q') | Key::Esc => AppAction::Quit,
            Key::Left | Key::Right => {
                self.active_pane = match self.active_pane {
                    ActivePane::Games => ActivePane::Servers,
                    ActivePane::Servers => ActivePane::Games,
                };
                AppAction::Nothing
            },
            Key::Up => {
                match self.active_pane {
                    ActivePane::Games => {
                        if self.selected_game_idx > 0 {
                            self.selected_game_idx = self.selected_game_idx - 1;
                            self.games_list_selected = Some(self.selected_game_idx);
                            return self.change_game();
                        }
                    },
                    ActivePane::Servers => {
                        if self.selected_server_idx > 0 {
                            self.selected_server_idx = self.selected_server_idx - 1;
                            self.servers_table_selected = Some(self.selected_server_idx);
                        }
                    },
                }
                AppAction::Nothing
            },
            Key::Down => {
                match self.active_pane {
                    ActivePane::Games => {
                        if self.selected_game_idx < self.games.len() && self.selected_game_idx + 1
                            < self.games.len() {
                            self.selected_game_idx = self.selected_game_idx + 1;
                            self.games_list_selected = Some(self.selected_game_idx);
                            return self.change_game();
                        }
                    },
                    ActivePane::Servers => {
                        if self.selected_server_idx < self.servers.len() && self.selected_server_idx + 1
                            < self.servers.len() {
                            self.selected_server_idx = self.selected_server_idx + 1;
                            self.servers_table_selected = Some(self.selected_server_idx);
                        }
                    },
                }
                AppAction::Nothing
            },
            Key::Char(' ') => {
                if self.active_pane == ActivePane::Servers && !self.loading {
                    return self.toggle_selected_server();
                }
                AppAction::Nothing
            },
            Key::Char('d') => {
                if !self.loading {
                    return self.set_all_servers_blocked(true);
                }
                AppAction::Nothing
            },
            Key::Char('e') => {
                if !self.loading {
                    return self.set_all_servers_blocked(false);
                }
                AppAction::Nothing
            },
            Key::Char('r') => {
                if !self.loading {
                    return self.trigger_pings();
                }
                AppAction::Nothing
            },
            _ => AppAction::Nothing,
        }
    }
}

} // verus!
