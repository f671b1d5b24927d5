//! Tests of the console model and the credential plumbing.
use pgclient::console::IOControl;
use pgclient::credentials::PostgresCredentials;

fn args(list: &[&str]) -> Vec<String> {
    list.iter().map(|s| s.to_string()).collect()
}

#[test]
fn create_pairs_arguments_and_strips_markers() {
    let console = IOControl::create(args(&["-url", "localhost", "-np", "y"]));
    let params = console.get_startup_parameters();
    assert_eq!(params.len(), 2);
    assert_eq!(params[0], ("url".to_string(), "localhost".to_string()));
    assert_eq!(params[1], ("np".to_string(), "y".to_string()));
}

#[test]
fn create_drops_a_trailing_unpaired_argument() {
    let console = IOControl::create(args(&["-url", "h", "-stray"]));
    assert_eq!(console.get_startup_parameters().len(), 1);
}

#[test]
fn credentials_read_their_keys_with_empty_defaults() {
    let console = IOControl::create(args(&["-url", "h", "-user", "u", "-np", "y"]));
    let creds = PostgresCredentials::create_from_params(console.get_startup_parameters());
    assert_eq!(creds.host, "h");
    assert_eq!(creds.username, "u");
    assert_eq!(creds.password, "");
    assert_eq!(creds.database, "");
    assert!(!creds.pass_required);
}

#[test]
fn credentials_require_password_unless_waived_exactly() {
    let console = IOControl::create(args(&["-np", "yes"]));
    let creds = PostgresCredentials::create_from_params(console.get_startup_parameters());
    assert!(creds.pass_required);
}

#[test]
fn ask_for_prompts_and_trims_the_queued_line() {
    let mut console = IOControl::create(Vec::new());
    console.push_input("  hello \t".to_string());
    let answer = console.ask_for("Name:");
    assert_eq!(answer, Some("hello".to_string()));
    assert_eq!(console.take_output(), "Name: ");
}

#[test]
fn ask_for_without_input_prompts_and_returns_nothing() {
    let mut console = IOControl::create(Vec::new());
    assert_eq!(console.ask_for(">"), None);
    assert_eq!(console.take_output(), "> ");
}

#[test]
fn take_output_drains_the_buffer() {
    let mut console = IOControl::create(Vec::new());
    console.publish("one");
    assert_eq!(console.take_output(), "one\n");
    assert_eq!(console.take_output(), "");
}

#[test]
fn publish_lines_appends_each_line() {
    let mut console = IOControl::create(Vec::new());
    console.publish_lines(&["a".to_string(), "b".to_string()]);
    assert_eq!(console.take_output(), "a\nb\n");
}

#[test]
fn command_error_reports_usage() {
    let mut console = IOControl::create(Vec::new());
    console.command_error("get", "get [TABLE_NAME]");
    assert_eq!(console.take_output(), "Invalid usage!\nget: get [TABLE_NAME]\n");
}

#[test]
fn clear_emits_the_escape_sequence() {
    let mut console = IOControl::create(Vec::new());
    console.clear();
    assert_eq!(console.take_output(), "\x1B[2J\x1B[1;1H");
}

#[test]
fn complete_credentials_fills_only_empty_fields_in_order() {
    let mut console = IOControl::create(Vec::new());
    console.push_input("u".to_string());
    console.push_input("p".to_string());
    console.push_input("d".to_string());
    let mut creds = PostgresCredentials {
        host: "h".to_string(),
        username: String::new(),
        password: String::new(),
        database: String::new(),
        pass_required: true,
    };
    console.complete_credentials(&mut creds);
    assert_eq!(creds.host, "h");
    assert_eq!(creds.username, "u");
    assert_eq!(creds.password, "p");
    assert_eq!(creds.database, "d");
    assert_eq!(console.take_output(), "Username: Password: Database: ");
}

#[test]
fn complete_credentials_skips_a_waived_password() {
    let mut console = IOControl::create(Vec::new());
    console.push_input("d".to_string());
    let mut creds = PostgresCredentials {
        host: "h".to_string(),
        username: "u".to_string(),
        password: String::new(),
        database: String::new(),
        pass_required: false,
    };
    console.complete_credentials(&mut creds);
    assert_eq!(creds.password, "");
    assert_eq!(creds.database, "d");
    assert_eq!(console.take_output(), "Database: ");
}

#[test]
fn create_table_pads_and_walls_cells() {
    let mut console = IOControl::create(Vec::new());
    console.create_table(&["a".to_string()], vec![vec!["bc".to_string()]], 5);
    assert_eq!(console.take_output(), "|   a   |\n|   bc  |\n");
}

#[test]
fn create_table_truncates_overlong_cells() {
    let mut console = IOControl::create(Vec::new());
    console.create_table(&["abcdefghij".to_string()], vec![], 5);
    assert_eq!(console.take_output(), "| (...) |\n");
}

#[test]
fn announce_with_dimensions_centres_titles() {
    let mut console = IOControl::create(Vec::new());
    console.announce_with_dimensions(&["hi"], 10, 8);
    assert_eq!(console.take_output(), "\n    hi\n\n\n\n\n");
}
