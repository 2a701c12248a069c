//! The online lobbies: the central server that hands out lobby ports, the lobby
//! server that admits players and relays their messages, and the client's side.
//! Sockets, threads and channels stay with the program around the library; what
//! to send, to whom, and how the lists change is decided here.
use vstd::prelude::*;
use crate::text::decimal_string;

verus! {

/// A message between a lobby server and its clients.
pub enum Message {
    Kick(String),
    Start,
    Close,
    Join(UserInfo),
    BeKick,
    Over,
    /// The player is to act.
    Action,
    /// The player raises by the amount.
    Raise(u64),
    Call,
    Fold,
    Check,
    Reset,
}

/// A player in a lobby.
pub struct UserInfo {
    pub name: String,
    pub ip: String,
}

/// A client's request to join a lobby.
pub struct NetConnect {
    pub name: String,
    pub code: String,
}

/// The lobby server's answer to a request to join.
pub enum NetReceiver {
    /// Joined; the players now in the lobby.
    Success(Vec<UserInfo>),
    Failed,
    Full,
}

/// The central server's answer to a request.
pub enum OpInfo {
    /// The lobby was created; the port it listens on.
    Success(String),
    /// No port is free.
    Failed,
    /// The open lobbies: port and name.
    List(Vec<(String, String)>),
}

/// A request to the central server.
pub enum UserOp {
    /// Create a lobby with this name and code.
    CreateLobby(String, String),
    QueryLobby,
}

/// The lobbies a client last heard of: port and name.
pub struct ServerList {
    pub list: Vec<(String, String)>,
}

/// A signal from a lobby to the program that runs it.
pub enum GameSignType {
    Start,
    End,
    Exit,
}

/// Starts the local game server; nothing needs to be set up.
pub fn server_init() {
}

/// Starts the local game client; nothing needs to be set up.
pub fn client_init() {
}

// ---------------------------------------------------------------------------
// The central server
// ---------------------------------------------------------------------------

/// The first port a lobby can get.
pub const FIRST_LOBBY_PORT: u16 = 3001;

/// How many ports lobbies can get.
pub const LOBBY_PORTS: usize = 2999;

/// The ports that are free, and the open lobbies: port, name and code.
pub struct ServerLists {
    pub allow_server_list: Vec<u16>,
    pub server_list: Vec<(u16, String, String)>,
}

/// The open lobbies other than the one on `port`, in order.
pub open spec fn without_port(s: Seq<(u16, String, String)>, port: u16) -> Seq<(u16, String, String)>
    decreases s.len(),
{
    if s.len() == 0 {
        s
    } else {
        let rest = without_port(s.drop_last(), port);
        if s.last().0 != port {
            rest.push(s.last())
        } else {
            rest
        }
    }
}

/// The address a lobby on `port` listens on.
pub open spec fn lobby_address_text(port: u16) -> Seq<char> {
    seq!['0', '.', '0', '.', '0', '.', '0', ':'] + crate::text::decimal(port as nat)
}

/// The address a lobby on `port` listens on: all interfaces, that port.
pub fn lobby_address(port: u16) -> (s: String)
    ensures
        s@ == lobby_address_text(port),
{
    let mut s = String::from_str("0.0.0.0:");
    let digits = decimal_string(port as u64);
    s.append(digits.as_str());
    proof {
        reveal_strlit("0.0.0.0:");
    }
    assert(s@ =~= lobby_address_text(port));
    s
}

impl ServerLists {
    /// All lobby ports free, from 3001 up to 5999, and no lobby open.
    pub fn new() -> (lists: ServerLists)
        ensures
            lists.allow_server_list@ == Seq::new(LOBBY_PORTS as nat, |i: int| (FIRST_LOBBY_PORT + i) as u16),
            lists.server_list@ == Seq::<(u16, String, String)>::empty(),
    {
        let mut ports: Vec<u16> = Vec::with_capacity(LOBBY_PORTS);
        let mut port: u16 = FIRST_LOBBY_PORT;
        while port < 6000
            invariant
                FIRST_LOBBY_PORT <= port <= 6000,
                ports@ == Seq::new((port - FIRST_LOBBY_PORT) as nat, |i: int| (FIRST_LOBBY_PORT + i) as u16),
            decreases 6000 - port,
        {
            ports.push(port);
            port += 1;
            assert(ports@ =~= Seq::new((port - FIRST_LOBBY_PORT) as nat, |i: int| (FIRST_LOBBY_PORT + i) as u16));
        }
        ServerLists { allow_server_list: ports, server_list: Vec::new() }
    }

    /// Opens a lobby named `name` with the code `code` on the last free port, and
    /// returns that port; `None` when no port is free.
    pub fn create_lobby(&mut self, name: String, code: String) -> (port: Option<u16>)
        ensures
            old(self).allow_server_list@.len() == 0 ==> port is None && *final(self) == *old(self),
            old(self).allow_server_list@.len() > 0 ==> {
                &&& port == Some(old(self).allow_server_list@.last())
                &&& final(self).allow_server_list@ == old(self).allow_server_list@.drop_last()
                &&& final(self).server_list@ == old(self).server_list@.push((old(self).allow_server_list@.last(), name, code))
            },
    {
        if self.allow_server_list.len() == 0 {
            return None;
        }
        let port = self.allow_server_list.pop().unwrap();
        self.server_list.push((port, name, code));
        Some(port)
    }

    /// The open lobbies, each as its port and its name.
    pub fn query_lobby(&self) -> (list: Vec<(String, String)>)
        ensures
            list@.len() == self.server_list@.len(),
            forall|k: int| 0 <= k < list@.len() ==> (#[trigger] list@[k]).0@ == crate::text::decimal(
                self.server_list@[k].0 as nat,
            ) && list@[k].1 == self.server_list@[k].1,
    {
        let mut list: Vec<(String, String)> = Vec::new();
        let mut i: usize = 0;
        while i < self.server_list.len()
            invariant
                i <= self.server_list@.len(),
                list@.len() == i,
                forall|k: int| 0 <= k < i ==> (#[trigger] list@[k]).0@ == crate::text::decimal(self.server_list@[k].0 as nat)
                    && list@[k].1 == self.server_list@[k].1,
            decreases self.server_list@.len() - i,
        {
            let port = decimal_string(self.server_list[i].0 as u64);
            let name = self.server_list[i].1.clone();
            list.push((port, name));
            i += 1;
        }
        list
    }

    /// Closes the lobby on `port`: it leaves the list of open lobbies and the port
    /// is free again.
    pub fn release_lobby(&mut self, port: u16)
        ensures
            final(self).server_list@ == without_port(old(self).server_list@, port),
            final(self).allow_server_list@ == old(self).allow_server_list@.push(port),
    {
        let ghost s = self.server_list@;
        let mut kept: Vec<(u16, String, String)> = Vec::new();
        let mut i: usize = 0;
        while i < self.server_list.len()
            invariant
                s == self.server_list@,
                i <= s.len(),
                kept@ == without_port(s.take(i as int), port),
            decreases s.len() - i,
        {
            proof {
                assert(s.take(i + 1).drop_last() =~= s.take(i as int));
                assert(s.take(i + 1).last() == s[i as int]);
            }
            if self.server_list[i].0 != port {
                let e = (self.server_list[i].0, self.server_list[i].1.clone(), self.server_list[i].2.clone());
                kept.push(e);
            }
            i += 1;
        }
        proof {
            assert(s.take(s.len() as int) =~= s);
        }
        self.server_list = kept;
        self.allow_server_list.push(port);
    }
}

/// The central server's answer to `op`: a new lobby gets the last free port (whose
/// number is sent back) or, when none is free, the answer that it failed; a query
/// gets the list of open lobbies. Returns the answer and the port of the new lobby.
pub fn lobby_reply(lists: &mut ServerLists, op: UserOp) -> (r: (OpInfo, Option<u16>))
    ensures
        match op {
            UserOp::CreateLobby(name, code) => if old(lists).allow_server_list@.len() == 0 {
                &&& r.0 is Failed
                &&& r.1 is None
                &&& *final(lists) == *old(lists)
            } else {
                let port = old(lists).allow_server_list@.last();
                &&& r.1 == Some(port)
                &&& r.0 matches OpInfo::Success(text) && text@ == crate::text::decimal(port as nat)
                &&& final(lists).allow_server_list@ == old(lists).allow_server_list@.drop_last()
                &&& final(lists).server_list@ == old(lists).server_list@.push((port, name, code))
            },
            UserOp::QueryLobby => {
                &&& r.1 is None
                &&& *final(lists) == *old(lists)
                &&& r.0 matches OpInfo::List(list) && list@.len() == old(lists).server_list@.len() && forall|k: int|
                    0 <= k < list@.len() ==> (#[trigger] list@[k]).0@ == crate::text::decimal(
                    old(lists).server_list@[k].0 as nat,
                ) && list@[k].1 == old(lists).server_list@[k].1
            },
        },
{
    match op {
        UserOp::CreateLobby(name, code) => match lists.create_lobby(name, code) {
            None => (OpInfo::Failed, None),
            Some(port) => (OpInfo::Success(decimal_string(port as u64)), Some(port)),
        },
        UserOp::QueryLobby => (OpInfo::List(lists.query_lobby()), None),
    }
}

// ---------------------------------------------------------------------------
// A lobby server
// ---------------------------------------------------------------------------

/// The players other than the one at `ip`, in order.
pub open spec fn without_ip(users: Seq<UserInfo>, ip: Seq<char>) -> Seq<UserInfo>
    decreases users.len(),
{
    if users.len() == 0 {
        users
    } else {
        let rest = without_ip(users.drop_last(), ip);
        if users.last().ip@ != ip {
            rest.push(users.last())
        } else {
            rest
        }
    }
}

/// A copy of the player's name and address.
fn copy_user(u: &UserInfo) -> (c: UserInfo)
    ensures
        c == *u,
{
    UserInfo { name: u.name.clone(), ip: u.ip.clone() }
}

/// A copy of the list of players.
fn copy_users(users: &Vec<UserInfo>) -> (c: Vec<UserInfo>)
    ensures
        c@ == users@,
{
    let mut c: Vec<UserInfo> = Vec::new();
    let mut i: usize = 0;
    while i < users.len()
        invariant
            i <= users@.len(),
            c@ == users@.take(i as int),
        decreases users@.len() - i,
    {
        let u = copy_user(&users[i]);
        c.push(u);
        i += 1;
        assert(c@ =~= users@.take(i as int));
    }
    assert(users@.take(i as int) =~= users@);
    c
}

/// Answers a request to join the lobby from `name` at `ip` with the code `code`.
/// A wrong code is refused, and so is a newcomer to a lobby that already holds
/// `num_players` players, which is answered that the lobby is full; either way
/// the lobby stays as it was. Otherwise the player joins (the players already in
/// the lobby are to be told) and is answered with the players now in the lobby.
pub fn admit_user(
    users: &mut Vec<UserInfo>,
    ip: String,
    name: String,
    code: &String,
    lobby_code: &String,
    num_players: usize,
) -> (replies: Vec<NetReceiver>)
    ensures
        code@ != lobby_code@ ==> replies@.len() == 1 && replies@[0] is Failed && final(users)@ == old(users)@,
        code@ == lobby_code@ && old(users)@.len() >= num_players ==> replies@.len() == 1
            && replies@[0] is Full && final(users)@ == old(users)@,
        code@ == lobby_code@ && old(users)@.len() < num_players ==> {
            &&& final(users)@ == old(users)@.push(UserInfo { name, ip })
            &&& replies@.len() == 1
            &&& replies@[0] matches NetReceiver::Success(list) && list@ == final(users)@
        },
{
    let mut replies: Vec<NetReceiver> = Vec::new();
    if *code != *lobby_code {
        replies.push(NetReceiver::Failed);
        return replies;
    }
    if users.len() >= num_players {
        replies.push(NetReceiver::Full);
        return replies;
    }
    users.push(UserInfo { name, ip });
    let list = copy_users(users);
    replies.push(NetReceiver::Success(list));
    replies
}

/// Takes the player at `ip` out of the lobby; returns whether the lobby is now
/// empty (and is to close).
pub fn remove_user(users: &mut Vec<UserInfo>, ip: &String) -> (empty: bool)
    ensures
        final(users)@ == without_ip(old(users)@, ip@),
        empty == (final(users)@.len() == 0),
{
    let ghost s = users@;
    let mut kept: Vec<UserInfo> = Vec::new();
    let mut i: usize = 0;
    while i < users.len()
        invariant
            s == users@,
            i <= s.len(),
            kept@ == without_ip(s.take(i as int), ip@),
        decreases s.len() - i,
    {
        proof {
            assert(s.take(i + 1).drop_last() =~= s.take(i as int));
            assert(s.take(i + 1).last() == s[i as int]);
        }
        if users[i].ip != *ip {
            let u = copy_user(&users[i]);
            kept.push(u);
        }
        i += 1;
    }
    proof {
        assert(s.take(s.len() as int) =~= s);
    }
    *users = kept;
    users.len() == 0
}

/// Where a message from a player goes.
pub enum Route {
    /// The player leaves: every player is told that it was kicked, it is taken out
    /// of the lobby, and the lobby closes if it is then empty.
    Leave,
    /// The game starts: every player is told, and so is the program.
    StartGame,
    /// Nothing happens.
    Ignore,
    /// The message goes to every player.
    ToAll(Message),
    /// The message goes to every player but the sender.
    ToOthers(Message),
    /// The message goes to the sender's own queue.
    ToSelf(Message),
}

/// Where a message from a player goes, in a lobby of `user_count` players that
/// plays with `num_players`: leaving, starting (once the lobby is full), kicking
/// (told to everyone), and the betting actions (told to the others); anything
/// else goes to the sender's own queue.
pub fn route_message(message: Message, user_count: usize, num_players: usize) -> (route: Route)
    ensures
        match message {
            Message::Close => route is Leave,
            Message::Start => if user_count < num_players {
                route is Ignore
            } else {
                route is StartGame
            },
            Message::Kick(ip) => route == Route::ToAll(Message::Kick(ip)),
            Message::Raise(_) | Message::Call | Message::Fold | Message::Check => route == Route::ToOthers(message),
            _ => route == Route::ToSelf(message),
        },
{
    match message {
        Message::Close => Route::Leave,
        Message::Start => {
            if user_count < num_players {
                Route::Ignore
            } else {
                Route::StartGame
            }
        },
        Message::Kick(ip) => Route::ToAll(Message::Kick(ip)),
        Message::Raise(n) => Route::ToOthers(Message::Raise(n)),
        Message::Call => Route::ToOthers(Message::Call),
        Message::Fold => Route::ToOthers(Message::Fold),
        Message::Check => Route::ToOthers(Message::Check),
        other => Route::ToSelf(other),
    }
}

/// What a player's connection sends on for a message from the lobby, and whether
/// the connection then closes: a kick of this player is sent as `BeKick` and
/// closes it, a kick of another is passed on, `Close` closes it unsent, anything
/// else is passed on.
pub fn outgoing_message(message: Message, own_ip: &String) -> (r: (Option<Message>, bool))
    ensures
        match message {
            Message::Kick(ip) => if ip@ == own_ip@ {
                r == (Some(Message::BeKick), true)
            } else {
                r == (Some(Message::Kick(ip)), false)
            },
            Message::Close => r == (None::<Message>, true),
            _ => r == (Some(message), false),
        },
{
    match message {
        Message::Kick(ip) => {
            if ip == *own_ip {
                (Some(Message::BeKick), true)
            } else {
                (Some(Message::Kick(ip)), false)
            }
        },
        Message::Close => (None, true),
        other => (Some(other), false),
    }
}

// ---------------------------------------------------------------------------
// The client
// ---------------------------------------------------------------------------

/// What the client does after a message from the lobby.
pub enum ClientStep {
    /// The connection ends.
    Stop,
    /// It goes on listening.
    Continue,
    /// The game begins.
    StartGame,
    /// The message goes to the game.
    Forward(Message),
}

/// Takes in the lobby's answer to the request to join: on success the players in
/// the lobby are added to `users` and the answer is true.
pub fn on_join_reply(users: &mut Vec<UserInfo>, reply: NetReceiver) -> (joined: bool)
    ensures
        match reply {
            NetReceiver::Success(list) => joined && final(users)@ == old(users)@ + list@,
            _ => !joined && final(users)@ == old(users)@,
        },
{
    match reply {
        NetReceiver::Success(list) => {
            let mut list = list;
            users.append(&mut list);
            true
        },
        _ => false,
    }
}

/// Takes in a message from the lobby: `Close` and `BeKick` end the connection, a
/// kick takes that player out of `users`, a join adds one, `Start` begins the game,
/// and the betting actions and `Reset` go on to the game. A client panics on
/// `Action` or `Over`, which the lobby does not send to it, so those are left out.
pub fn on_server_message(users: &mut Vec<UserInfo>, message: Message) -> (step: ClientStep)
    requires
        !(message is Action),
        !(message is Over),
    ensures
        match message {
            Message::Close | Message::BeKick => step is Stop && final(users)@ == old(users)@,
            Message::Kick(ip) => step is Continue && final(users)@ == without_ip(old(users)@, ip@),
            Message::Join(u) => step is Continue && final(users)@ == old(users)@.push(u),
            Message::Start => step is StartGame && final(users)@ == old(users)@,
            _ => step == ClientStep::Forward(message) && final(users)@ == old(users)@,
        },
{
    match message {
        Message::Close => ClientStep::Stop,
        Message::BeKick => ClientStep::Stop,
        Message::Kick(ip) => {
            remove_user(users, &ip);
            ClientStep::Continue
        },
        Message::Join(u) => {
            users.push(u);
            ClientStep::Continue
        },
        Message::Start => ClientStep::StartGame,
        other => ClientStep::Forward(other),
    }
}

/// The address `host:port`.
pub open spec fn address_text(host: Seq<char>, port: Seq<char>) -> Seq<char> {
    host + seq![':'] + port
}

/// The address `host:port`, to connect to.
pub fn join_address(host: &String, port: &String) -> (s: String)
    ensures
        s@ == address_text(host@, port@),
{
    let mut s = host.clone();
    s.append(":");
    s.append(port.as_str());
    proof {
        reveal_strlit(":");
    }
    assert(s@ =~= address_text(host@, port@));
    s
}

/// Where a client reaches the central server on `host`: port 3000.
pub fn central_address(host: &String) -> (s: String)
    ensures
        s@ == address_text(host@, "3000"@),
{
    let port = String::from_str("3000");
    join_address(host, &port)
}

/// Takes in the central server's answer to a request to create a lobby: on
/// success the address of the new lobby on `host`, to join as its master.
pub fn on_create_reply(reply: OpInfo, host: &String) -> (target: Option<String>)
    ensures
        match reply {
            OpInfo::Success(port) => target matches Some(t) && t@ == address_text(host@, port@),
            _ => target is None,
        },
{
    match reply {
        OpInfo::Success(port) => Some(join_address(host, &port)),
        _ => None,
    }
}

/// Takes in the central server's answer to a query: the list of lobbies, when the
/// answer is one.
pub fn on_query_reply(reply: OpInfo) -> (list: Option<Vec<(String, String)>>)
    ensures
        match reply {
            OpInfo::List(l) => list == Some(l),
            _ => list is None,
        },
{
    match reply {
        OpInfo::List(l) => Some(l),
        _ => None,
    }
}

// ---------------------------------------------------------------------------
// Laws of the lobbies
// ---------------------------------------------------------------------------

proof fn lemma_without_port_absent(s: Seq<(u16, String, String)>, port: u16)
    requires
        forall|k: int| 0 <= k < s.len() ==> (#[trigger] s[k]).0 != port,
    ensures
        without_port(s, port) == s,
    decreases s.len(),
{
    if s.len() > 0 {
        lemma_without_port_absent(s.drop_last(), port);
        assert(s.drop_last().push(s.last()) =~= s);
    }
}

/// Closing a lobby undoes opening it: when the last free port holds no open lobby,
/// opening a lobby on it and closing that lobby again leaves the free ports and the
/// open lobbies as they were.
pub proof fn lemma_release_undoes_create(lists: ServerLists, name: String, code: String)
    requires
        lists.allow_server_list@.len() > 0,
        forall|k: int| 0 <= k < lists.server_list@.len() ==> (#[trigger] lists.server_list@[k]).0
            != lists.allow_server_list@.last(),
    ensures
        ({
            let port = lists.allow_server_list@.last();
            let free = lists.allow_server_list@.drop_last();
            let open = lists.server_list@.push((port, name, code));
            &&& free.push(port) == lists.allow_server_list@
            &&& without_port(open, port) == lists.server_list@
        }),
{
    let port = lists.allow_server_list@.last();
    let open = lists.server_list@.push((port, name, code));
    assert(lists.allow_server_list@.drop_last().push(port) =~= lists.allow_server_list@);
    assert(open.drop_last() =~= lists.server_list@);
    lemma_without_port_absent(lists.server_list@, port);
}

proof fn lemma_without_ip_absent(users: Seq<UserInfo>, ip: Seq<char>)
    requires
        forall|k: int| 0 <= k < users.len() ==> (#[trigger] users[k]).ip@ != ip,
    ensures
        without_ip(users, ip) == users,
    decreases users.len(),
{
    if users.len() > 0 {
        lemma_without_ip_absent(users.drop_last(), ip);
        assert(users.drop_last().push(users.last()) =~= users);
    }
}

/// Leaving undoes joining: a player whose address no one in the lobby has, who
/// joins and then leaves, leaves the lobby as it was.
pub proof fn lemma_leave_undoes_join(users: Seq<UserInfo>, newcomer: UserInfo)
    requires
        forall|k: int| 0 <= k < users.len() ==> (#[trigger] users[k]).ip@ != newcomer.ip@,
    ensures
        without_ip(users.push(newcomer), newcomer.ip@) == users,
{
    assert(users.push(newcomer).drop_last() =~= users);
    lemma_without_ip_absent(users, newcomer.ip@);
}

impl Default for ServerLists {
    /// All lobby ports free and no lobby open.
    fn default() -> (lists: ServerLists)
        ensures
            lists.allow_server_list@ == Seq::new(LOBBY_PORTS as nat, |i: int| (FIRST_LOBBY_PORT + i) as u16),
            lists.server_list@ == Seq::<(u16, String, String)>::empty(),
    {
        ServerLists::new()
    }
}

/// What the client's lobby screen holds: the central server's address, the
/// player's name and code, whether the player opened the lobby, the lobby to join,
/// and the name for a new lobby.
pub struct GameInteraction {
    pub server_ip: String,
    pub code: String,
    pub name: String,
    pub is_master: bool,
    pub connect_ip: String,
    pub lobby_name: String,
}

impl Default for GameInteraction {
    /// The local machine, code and lobby name "TEST", name "XX", not the master,
    /// no lobby to join yet.
    fn default() -> (g: GameInteraction)
        ensures
            g.server_ip@ == "127.0.0.1"@,
            g.code@ == "TEST"@,
            g.name@ == "XX"@,
            !g.is_master,
            g.connect_ip@ == Seq::<char>::empty(),
            g.lobby_name@ == "TEST"@,
    {
        GameInteraction {
            server_ip: String::from_str("127.0.0.1"),
            code: String::from_str("TEST"),
            name: String::from_str("XX"),
            is_master: false,
            connect_ip: String::new(),
            lobby_name: String::from_str("TEST"),
        }
    }
}

} // verus!
