use sam::options::{
    editor_title, non_empty, parse_app_id, parse_args, screenshot_due, shown_language, Mode,
    Options, Request, HELP, WINDOW_TITLE,
};
use sam::picker::editor_arguments;

fn parse(args: &[&str]) -> Result<Option<Options>, String> {
    let args: Vec<String> = args.iter().map(|s| s.to_string()).collect();
    parse_args(&args).map(|request| request.options())
}

fn mode_of(args: &[&str]) -> Mode {
    parse(args).expect("should parse").expect("should run").mode
}

#[test]
fn no_arguments_selects_the_picker() {
    assert_eq!(mode_of(&[]), Mode::Picker);
}

#[test]
fn app_flag_selects_the_editor() {
    assert_eq!(mode_of(&["--app", "480"]), Mode::Editor(480));
    assert_eq!(mode_of(&["--app=480"]), Mode::Editor(480));
}

#[test]
fn bare_number_is_an_app_id_like_the_windows_version() {
    assert_eq!(mode_of(&["620"]), Mode::Editor(620));
}

#[test]
fn screenshot_flag_is_independent_of_mode() {
    let options = parse(&["--app", "620", "--screenshot", "/tmp/x.png"])
        .unwrap()
        .unwrap();
    assert_eq!(options.mode, Mode::Editor(620));
    assert_eq!(options.screenshot.as_deref(), Some("/tmp/x.png"));
    // And it works without an app, for the picker.
    let options = parse(&["--screenshot", "/tmp/x.png"]).unwrap().unwrap();
    assert_eq!(options.mode, Mode::Picker);
    assert!(options.screenshot.is_some());
}

#[test]
fn screenshot_requires_a_path() {
    assert!(parse(&["--screenshot"]).is_err());
}

#[test]
fn rejects_bad_app_ids() {
    assert!(parse(&["--app", "nope"]).is_err());
    assert!(parse(&["--app", "0"]).is_err());
    assert!(parse(&["--app"]).is_err());
    assert!(parse(&["--nonsense"]).is_err());
}

#[test]
fn refusals_say_what_is_wrong() {
    assert_eq!(parse(&["--screenshot"]), Err("--screenshot requires a path".to_string()));
    assert_eq!(parse(&["--app"]), Err("--app requires an app ID".to_string()));
    assert_eq!(parse(&["--app="]), Err("'' is not a valid app ID".to_string()));
    assert_eq!(parse(&["0"]), Err("'0' is not a valid app ID".to_string()));
    assert_eq!(
        parse(&["4294967296"]),
        Err("'4294967296' is not a valid app ID".to_string())
    );
    assert_eq!(parse(&[""]), Err("unrecognised argument ''".to_string()));
    assert_eq!(parse(&["-x"]), Err("unrecognised argument '-x'".to_string()));
    assert_eq!(parse_app_id("+7"), Ok(7));
}

#[test]
fn help_and_version_come_before_what_follows() {
    let args = |list: &[&str]| -> Vec<String> { list.iter().map(|s| s.to_string()).collect() };
    assert_eq!(parse_args(&args(&["-h", "--nonsense"])), Ok(Request::Help));
    assert_eq!(parse_args(&args(&["--help"])), Ok(Request::Help));
    assert_eq!(parse_args(&args(&["7", "-V"])), Ok(Request::Version));
    assert_eq!(parse_args(&args(&["--version"])), Ok(Request::Version));
    assert!(parse_args(&args(&["--nonsense", "-h"])).is_err());
    assert!(HELP.starts_with("Steam Achievement Manager (Linux)\n\nUSAGE:\n"));
    assert!(HELP.ends_with("\n\nSteam must be running and signed in."));
}

#[test]
fn the_last_of_several_app_ids_counts() {
    assert_eq!(mode_of(&["7", "--app", "8", "--app=9"]), Mode::Editor(9));
}

#[test]
fn the_picker_opens_the_editor_it_names() {
    assert_eq!(editor_arguments(620), vec!["--app", "620"]);
    let request = parse_args(&editor_arguments(4294967295)).unwrap();
    assert_eq!(request.options().unwrap().mode, Mode::Editor(u32::MAX));
}

#[test]
fn titles_and_languages() {
    assert_eq!(editor_title(Some("Portal 2".into()), 620), "Steam Achievement Manager | Portal 2");
    assert_eq!(editor_title(None, 620), "Steam Achievement Manager | 620");
    assert_eq!(WINDOW_TITLE, "Steam Achievement Manager");
    assert_eq!(shown_language("german".into()), "german");
    assert_eq!(shown_language(" \t".into()), "english");
    assert_eq!(non_empty(" x ".into()), Some(" x ".to_string()));
    assert_eq!(non_empty(String::new()), None);
}

#[test]
fn a_screenshot_is_taken_once_the_window_has_settled() {
    assert!(!screenshot_due(false, 5));
    assert!(screenshot_due(false, 6));
    assert!(!screenshot_due(true, 7));
}
