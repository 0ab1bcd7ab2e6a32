use poker_engine::action::Action;
use poker_engine::game::Phase;
use poker_engine::server::{parse_action, rocket, same_text, Refusal, Reply};

#[test]
fn reasons_read_as_the_protocol_has_them() {
    assert_eq!(Refusal::AlreadyStarted.reason(), "Game already started!");
    assert_eq!(Refusal::BadConfigOption.reason(), "Bad config option!");
    assert_eq!(Refusal::NoSpace.reason(), "No space to join this game");
    assert_eq!(Refusal::NotYourTurn.reason(), "Not your turn!");
}

#[test]
fn verbs_stand_for_requests() {
    assert_eq!(parse_action("check", 9), Some(Action::Check));
    assert_eq!(parse_action("call", 9), Some(Action::Call));
    assert_eq!(parse_action("fold", 9), Some(Action::Fold));
    assert_eq!(parse_action("allin", 9), Some(Action::AllIn));
    assert_eq!(parse_action("bet", 9), Some(Action::Bet(9)));
    assert_eq!(parse_action("raise", 9), None);
    assert_eq!(parse_action("Check", 9), None);
    assert_eq!(parse_action("", 9), None);
    assert!(same_text("bet", "bet"));
    assert!(!same_text("bet", "bets"));
}

#[test]
fn a_name_that_is_new_opens_a_table() {
    let mut tables = rocket();
    assert_eq!(tables.find("blue"), None);
    assert_eq!(tables.open("blue"), 0);
    assert_eq!(tables.open("red"), 1);
    assert_eq!(tables.open("blue"), 0);
    assert_eq!(tables.find("red"), Some(1));
    assert!(tables.is_well_formed());
    assert_eq!(tables.games.len(), 2);
    assert_eq!(tables.games[0].starting_stack, 200);
    assert_eq!(tables.games[0].phase, Phase::Lobby);
}

#[test]
fn settings_are_read_without_regard_to_case() {
    let mut tables = rocket();
    assert_eq!(tables.configure_game("blue", "Starting_Stack", 300), Reply::Accepted);
    assert_eq!(tables.configure_game("blue", "MAX_PLAYERS", 4), Reply::Accepted);
    assert_eq!(tables.games[0].starting_stack, 300);
    assert_eq!(tables.games[0].max_players, 4);
    assert_eq!(
        tables.configure_game("blue", "ante", 4),
        Reply::Refused(Refusal::BadConfigOption)
    );
    // The other table is not touched.
    assert_eq!(tables.configure_game("red", "starting_stack", 50), Reply::Accepted);
    assert_eq!(tables.games[0].starting_stack, 300);
    assert_eq!(tables.games[1].starting_stack, 50);
}

#[test]
fn a_game_starts_once() {
    let mut tables = rocket();
    assert_eq!(
        tables.configure_game("blue", "start", 0),
        Reply::Refused(Refusal::AlreadyStarted)
    );
    assert_eq!(tables.join_game("blue", "ann", "http://a"), Reply::Accepted);
    assert_eq!(tables.join_game("blue", "bob", "http://b"), Reply::Accepted);
    assert_eq!(tables.configure_game("blue", "START", 0), Reply::Accepted);
    assert_eq!(tables.games[0].phase, Phase::InHand);
    assert_eq!(
        tables.configure_game("blue", "start", 0),
        Reply::Refused(Refusal::AlreadyStarted)
    );
    assert_eq!(
        tables.configure_game("blue", "starting_stack", 9),
        Reply::Refused(Refusal::AlreadyStarted)
    );
    assert_eq!(
        tables.configure_game("blue", "max_players", 9),
        Reply::Refused(Refusal::AlreadyStarted)
    );
    assert_eq!(
        tables.join_game("blue", "cat", "http://c"),
        Reply::Refused(Refusal::NoSpace)
    );
}

#[test]
fn a_full_table_has_no_space() {
    let mut tables = rocket();
    assert_eq!(tables.configure_game("blue", "max_players", 1), Reply::Accepted);
    assert_eq!(tables.join_game("blue", "ann", "http://a"), Reply::Accepted);
    assert_eq!(
        tables.join_game("blue", "bob", "http://b"),
        Reply::Refused(Refusal::NoSpace)
    );
    assert_eq!(tables.games[0].players.len(), 1);
}

#[test]
fn a_move_needs_the_token_of_the_player_to_act() {
    let mut tables = rocket();
    // No player, no turn.
    assert_eq!(
        tables.make_move("blue", 0, "check", 0),
        Reply::Refused(Refusal::NotYourTurn)
    );
    tables.join_game("blue", "ann", "http://a");
    tables.join_game("blue", "bob", "http://b");
    assert_eq!(tables.configure_game("blue", "start", 0), Reply::Accepted);
    let to_act = tables.games[0].to_act;
    let other = 1 - to_act;
    let secret = tables.games[0].players[to_act].secret_id;
    let wrong = tables.games[0].players[other].secret_id;
    assert_ne!(secret, wrong);
    assert_eq!(
        tables.make_move("blue", wrong, "call", 0),
        Reply::Refused(Refusal::NotYourTurn)
    );
    assert_eq!(tables.games[0].to_act, to_act);
    assert_eq!(tables.games[0].players[to_act].street_contrib, 1);
    // A verb that stands for nothing is passed over.
    assert_eq!(tables.make_move("blue", secret, "dance", 0), Reply::Accepted);
    assert_eq!(tables.games[0].to_act, to_act);
    assert_eq!(tables.make_move("blue", secret, "CALL", 0), Reply::Accepted);
    assert_eq!(tables.games[0].players[to_act].street_contrib, 2);
    assert_eq!(tables.games[0].to_act, other);
    assert_eq!(tables.make_move("blue", wrong, "Bet", 10), Reply::Accepted);
    assert_eq!(tables.games[0].players[other].street_contrib, 12);
    assert_eq!(tables.games[0].current_bet, 12);
}

#[test]
fn a_table_answers_for_itself() {
    let mut game = poker_engine::game::Game::new(200);
    assert_eq!(game.configure("max_players", 2), Reply::Accepted);
    assert_eq!(game.configure("Max_players", 3), Reply::Refused(Refusal::BadConfigOption));
    assert_eq!(game.register("ann", "http://a"), Reply::Accepted);
    assert_eq!(game.configure("max_players", 0), Reply::Refused(Refusal::AlreadyStarted));
    assert_eq!(game.register("bob", "http://b"), Reply::Accepted);
    assert_eq!(game.register("cat", "http://c"), Reply::Refused(Refusal::NoSpace));
    assert_eq!(game.configure("start", 0), Reply::Accepted);
    let secret = game.players[game.to_act].secret_id;
    assert_eq!(
        game.action(secret.wrapping_add(1), "fold", 0),
        Reply::Refused(Refusal::NotYourTurn)
    );
    assert_eq!(game.action(secret, "fold", 0), Reply::Accepted);
    assert_eq!(game.hand_number, 2);
}

#[test]
fn tables_tell_whether_they_are_well_formed() {
    let mut tables = rocket();
    assert!(tables.is_well_formed());
    tables.join_game("blue", "ann", "http://a");
    tables.join_game("red", "bob", "http://b");
    assert!(tables.is_well_formed());
    tables.ids[1] = "blue".to_string();
    assert!(!tables.is_well_formed());
    tables.ids[1] = "red".to_string();
    tables.games[0].players[0].all_in = true;
    assert!(!tables.is_well_formed());
    tables.games[0].players[0].all_in = false;
    tables.ids.pop();
    assert!(!tables.is_well_formed());
}
