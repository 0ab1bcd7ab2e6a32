use poker_engine::rocket;

#[test]
fn it_works() {
    assert_eq!(2 + 2, 4);
}

#[test]
fn a_server_starts_without_tables() {
    let tables = rocket();
    assert_eq!(tables.ids.len(), 0);
    assert_eq!(tables.games.len(), 0);
}
