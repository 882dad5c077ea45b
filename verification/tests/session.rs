use coup::session::{parse_command, ClientRequest};

#[test]
fn commands_become_requests() {
    let s = parse_command(7, "  /join_lobby ABCD alice ");
    match s.request {
        Some(ClientRequest::Join(j)) => {
            assert_eq!(j.room_code, "ABCD");
            assert_eq!(j.client_name, "alice");
            assert_eq!(j.client_uuid, 7);
        }
        _ => panic!("expected a join"),
    }
    let s = parse_command(7, "/create_lobby 4 bob");
    match s.request {
        Some(ClientRequest::Create(c)) => {
            assert_eq!(c.number_of_players, 4);
            assert_eq!(c.client_name, "bob");
        }
        _ => panic!("expected a create"),
    }
    assert_eq!(s.reply.as_deref(), Some("Created lobby."));
    let s = parse_command(7, "/action steal bob");
    match s.request {
        Some(ClientRequest::Action(a)) => {
            assert_eq!(a.action, "steal");
            assert_eq!(a.target_name.as_deref(), Some("bob"));
            assert!(a.selected_card1.is_none());
        }
        _ => panic!("expected an action"),
    }
    let s = parse_command(7, "/action exchange_confirm - Duke Captain");
    match s.request {
        Some(ClientRequest::Action(a)) => {
            assert_eq!(a.selected_card1.as_deref(), Some("Duke"));
            assert_eq!(a.selected_card2.as_deref(), Some("Captain"));
        }
        _ => panic!("expected an action"),
    }
    match parse_command(7, "/start_game WXYZ").request {
        Some(ClientRequest::StartGame(s)) => assert_eq!(s.room_code, "WXYZ"),
        _ => panic!("expected a start"),
    }
}

#[test]
fn malformed_commands() {
    assert_eq!(
        parse_command(1, "/join_lobby ABCD").reply.as_deref(),
        Some("Could not join lobby: game UUID and player name required.")
    );
    assert_eq!(
        parse_command(1, "/create_lobby 4").reply.as_deref(),
        Some("Could not create lobby: number of players and player name required.")
    );
    assert_eq!(parse_command(1, "/dance now").reply.as_deref(), Some("Unknown command: \"/dance now\""));
    assert!(parse_command(1, "/create_lobby four bob").fault.is_some());
    assert!(parse_command(1, "/start_game").fault.is_some());
    let s = parse_command(1, "hello");
    assert!(s.request.is_none() && s.reply.is_none() && s.fault.is_none());
}

#[test]
fn the_fifth_piece_keeps_the_rest() {
    match parse_command(3, "/action exchange_confirm - Duke Captain Contessa").request {
        Some(ClientRequest::Action(a)) => {
            assert_eq!(a.target_name.as_deref(), Some("-"));
            assert_eq!(a.selected_card1.as_deref(), Some("Duke"));
            assert_eq!(a.selected_card2.as_deref(), Some("Captain Contessa"));
        }
        _ => panic!("expected an action"),
    }
    // Two spaces in a row cut out an empty piece.
    match parse_command(3, "/action  tax").request {
        Some(ClientRequest::Action(a)) => {
            assert_eq!(a.action, "");
            assert_eq!(a.target_name.as_deref(), Some("tax"));
        }
        _ => panic!("expected an action"),
    }
}

#[test]
fn player_counts_read_as_decimal() {
    match parse_command(3, "/create_lobby +3 eve").request {
        Some(ClientRequest::Create(c)) => assert_eq!(c.number_of_players, 3),
        _ => panic!("expected a create"),
    }
    match parse_command(3, "/create_lobby 006 eve").request {
        Some(ClientRequest::Create(c)) => assert_eq!(c.number_of_players, 6),
        _ => panic!("expected a create"),
    }
    assert!(parse_command(3, "/create_lobby + eve").fault.is_some());
    assert!(parse_command(3, "/create_lobby -1 eve").fault.is_some());
    assert!(parse_command(3, "/create_lobby 99999999999999999999999 eve").fault.is_some());
}

#[test]
fn white_space_around_a_command_is_ignored() {
    match parse_command(3, "\t\u{3000}/start_game WXYZ\n").request {
        Some(ClientRequest::StartGame(s)) => assert_eq!(s.room_code, "WXYZ"),
        _ => panic!("expected a start"),
    }
}
