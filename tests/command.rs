use game_relay::command::{parse_command, Command};

#[test]
fn plain_text_is_not_a_command() {
    assert_eq!(parse_command("hello there"), Command::Text);
    assert_eq!(parse_command(""), Command::Text);
    assert_eq!(parse_command("a/join x"), Command::Text);
}

#[test]
fn join_with_and_without_code() {
    assert_eq!(parse_command("/join ab12cd"), Command::Join(Some("ab12cd".to_string())));
    assert_eq!(parse_command("/join"), Command::Join(None));
    assert_eq!(parse_command("/join a b"), Command::Join(Some("a b".to_string())));
}

#[test]
fn name_keeps_the_rest_of_the_line() {
    assert_eq!(parse_command("/name  Bob"), Command::Name(Some(" Bob".to_string())));
    assert_eq!(parse_command("/name Zoë ☃"), Command::Name(Some("Zoë ☃".to_string())));
    assert_eq!(parse_command("/name"), Command::Name(None));
}

#[test]
fn create_ready_and_unknown_words() {
    assert_eq!(parse_command("/create"), Command::Create);
    assert_eq!(parse_command("/create now"), Command::Create);
    assert_eq!(parse_command("/ready"), Command::Ready);
    assert_eq!(parse_command("/joinx"), Command::Unknown);
    assert_eq!(parse_command("/"), Command::Unknown);
    assert_eq!(parse_command("/JOIN x"), Command::Unknown);
}
