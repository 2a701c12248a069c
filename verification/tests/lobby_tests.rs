use school_sanctioned_gambling::lobby::{
    admit_user, central_address, join_address, lobby_address, lobby_reply, on_create_reply, on_join_reply,
    on_query_reply, on_server_message, outgoing_message, remove_user, route_message, server_init, client_init, ClientStep, Message,
    NetReceiver, OpInfo, Route, ServerLists, UserInfo, UserOp,
};

fn user(name: &str, ip: &str) -> UserInfo {
    UserInfo { name: name.to_string(), ip: ip.to_string() }
}

fn names(users: &Vec<UserInfo>) -> Vec<String> {
    users.iter().map(|u| u.name.clone()).collect()
}

#[test]
fn lobby_ports_are_handed_out_from_the_top() {
    server_init();
    client_init();
    let mut lists = ServerLists::new();
    assert_eq!(lists.allow_server_list.len(), 2999);
    assert_eq!(lists.allow_server_list[0], 3001);
    assert_eq!(*lists.allow_server_list.last().unwrap(), 5999);
    assert_eq!(lists.create_lobby("table".to_string(), "code".to_string()), Some(5999));
    let q = lists.query_lobby();
    assert_eq!(q, vec![("5999".to_string(), "table".to_string())]);
    lists.release_lobby(5999);
    assert!(lists.server_list.is_empty());
    assert_eq!(lists.allow_server_list.len(), 2999);
    assert_eq!(lobby_address(5999), "0.0.0.0:5999");
}

#[test]
fn no_free_port_fails() {
    let mut lists = ServerLists { allow_server_list: Vec::new(), server_list: Vec::new() };
    assert_eq!(lists.create_lobby("a".to_string(), "b".to_string()), None);
    let (reply, port) = lobby_reply(&mut lists, UserOp::CreateLobby("a".to_string(), "b".to_string()));
    assert!(matches!(reply, OpInfo::Failed));
    assert_eq!(port, None);
}

#[test]
fn central_server_answers() {
    let mut lists = ServerLists::new();
    let (reply, port) = lobby_reply(&mut lists, UserOp::CreateLobby("a".to_string(), "b".to_string()));
    assert!(matches!(reply, OpInfo::Success(ref p) if p == "5999"));
    assert_eq!(port, Some(5999));
    let (reply, port) = lobby_reply(&mut lists, UserOp::QueryLobby);
    assert!(matches!(reply, OpInfo::List(ref l) if l.len() == 1 && l[0].1 == "a"));
    assert_eq!(port, None);
}

#[test]
fn joining_checks_the_code_and_reports_a_full_lobby() {
    let mut users = Vec::new();
    let code = "c0de".to_string();
    let wrong = admit_user(&mut users, "1.1.1.1".to_string(), "ann".to_string(), &"nope".to_string(), &code, 2);
    assert_eq!(wrong.len(), 1);
    assert!(matches!(wrong[0], NetReceiver::Failed));
    assert!(users.is_empty());
    let ok = admit_user(&mut users, "1.1.1.1".to_string(), "ann".to_string(), &code, &code, 1);
    assert!(matches!(ok[0], NetReceiver::Success(ref l) if l.len() == 1));
    let full = admit_user(&mut users, "2.2.2.2".to_string(), "bob".to_string(), &code, &code, 1);
    assert_eq!(full.len(), 1);
    assert!(matches!(full[0], NetReceiver::Full));
    assert_eq!(names(&users), vec!["ann".to_string()]);
    let second = admit_user(&mut users, "2.2.2.2".to_string(), "bob".to_string(), &code, &code, 2);
    assert_eq!(second.len(), 1);
    assert!(matches!(second[0], NetReceiver::Success(ref l) if l.len() == 2));
    assert_eq!(names(&users), vec!["ann".to_string(), "bob".to_string()]);
}

#[test]
fn leaving_takes_the_player_out() {
    let mut users = vec![user("ann", "1"), user("bob", "2")];
    assert!(!remove_user(&mut users, &"1".to_string()));
    assert_eq!(names(&users), vec!["bob".to_string()]);
    assert!(remove_user(&mut users, &"2".to_string()));
}

#[test]
fn messages_are_routed() {
    assert!(matches!(route_message(Message::Close, 2, 3), Route::Leave));
    assert!(matches!(route_message(Message::Start, 2, 3), Route::Ignore));
    assert!(matches!(route_message(Message::Start, 3, 3), Route::StartGame));
    assert!(matches!(route_message(Message::Kick("9".to_string()), 3, 3), Route::ToAll(Message::Kick(ref ip)) if ip == "9"));
    assert!(matches!(route_message(Message::Raise(40), 3, 3), Route::ToOthers(Message::Raise(40))));
    assert!(matches!(route_message(Message::Fold, 3, 3), Route::ToOthers(Message::Fold)));
    assert!(matches!(route_message(Message::Reset, 3, 3), Route::ToSelf(Message::Reset)));
}

#[test]
fn outgoing_messages_close_on_own_kick() {
    let me = "7".to_string();
    assert!(matches!(outgoing_message(Message::Kick("7".to_string()), &me), (Some(Message::BeKick), true)));
    assert!(matches!(outgoing_message(Message::Kick("8".to_string()), &me), (Some(Message::Kick(_)), false)));
    assert!(matches!(outgoing_message(Message::Close, &me), (None, true)));
    assert!(matches!(outgoing_message(Message::Call, &me), (Some(Message::Call), false)));
}

#[test]
fn the_client_follows_the_lobby() {
    let mut users = Vec::new();
    assert!(on_join_reply(&mut users, NetReceiver::Success(vec![user("ann", "1")])));
    assert!(!on_join_reply(&mut users, NetReceiver::Full));
    assert!(matches!(on_server_message(&mut users, Message::Join(user("bob", "2"))), ClientStep::Continue));
    assert_eq!(users.len(), 2);
    assert!(matches!(on_server_message(&mut users, Message::Kick("1".to_string())), ClientStep::Continue));
    assert_eq!(names(&users), vec!["bob".to_string()]);
    assert!(matches!(on_server_message(&mut users, Message::Start), ClientStep::StartGame));
    assert!(matches!(on_server_message(&mut users, Message::Check), ClientStep::Forward(Message::Check)));
    assert!(matches!(on_server_message(&mut users, Message::BeKick), ClientStep::Stop));
}

#[test]
fn addresses() {
    let host = "10.0.0.2".to_string();
    assert_eq!(join_address(&host, &"4000".to_string()), "10.0.0.2:4000");
    assert_eq!(central_address(&host), "10.0.0.2:3000");
    assert_eq!(on_create_reply(OpInfo::Success("5999".to_string()), &host), Some("10.0.0.2:5999".to_string()));
    assert_eq!(on_create_reply(OpInfo::Failed, &host), None);
    assert_eq!(on_query_reply(OpInfo::List(vec![("1".to_string(), "t".to_string())])).map(|l| l.len()), Some(1));
    assert!(on_query_reply(OpInfo::Failed).is_none());
}

#[test]
fn closing_a_lobby_undoes_opening_it() {
    let mut lists = ServerLists::new();
    let before = lists.allow_server_list.clone();
    let port = lists.create_lobby("t".to_string(), "c".to_string()).unwrap();
    lists.release_lobby(port);
    assert_eq!(lists.allow_server_list, before);
    assert!(lists.server_list.is_empty());
}

#[test]
fn leaving_undoes_joining() {
    let mut users = vec![user("ann", "1")];
    let code = "k".to_string();
    admit_user(&mut users, "2".to_string(), "bob".to_string(), &code, &code, 5);
    remove_user(&mut users, &"2".to_string());
    assert_eq!(names(&users), vec!["ann".to_string()]);
}
