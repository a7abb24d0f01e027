use transcode_bot::counter::CounterStore;
use transcode_bot::router::{classify, is_registered, plan, settle, Hook, Route};
use transcode_bot::text::{has_prefix, same_text, space};

fn commands() -> Vec<String> {
    vec!["say".to_string(), "ping".to_string()]
}

#[test]
fn say_command_is_routed_with_its_arguments() {
    let mut store = CounterStore::new();
    let route = classify("!say hello <@123>", '!', &commands());
    assert_eq!(
        route,
        Route::Command { name: "say".to_string(), rest: "hello <@123>".to_string() }
    );
    let before = store.count("say");
    assert!(settle(&mut store, &route, true));
    assert_eq!(store.count("say"), before + 1);
    assert_eq!(plan(&route, true), vec![Hook::Before, Hook::Handler, Hook::After]);
}

#[test]
fn unknown_command_reaches_the_unknown_hook() {
    let route = classify("!unknown", '!', &commands());
    assert_eq!(route, Route::Unknown { name: "unknown".to_string() });
    assert_eq!(plan(&route, true), vec![Hook::UnknownCommand]);
    assert_eq!(plan(&route, false), vec![Hook::UnknownCommand]);
}

#[test]
fn text_without_prefix_is_normal() {
    assert_eq!(classify("hello there", '!', &commands()), Route::Normal);
    assert_eq!(classify("say hello", '!', &commands()), Route::Normal);
    assert_eq!(classify(" !say hello", '!', &commands()), Route::Normal);
    assert_eq!(classify("", '!', &commands()), Route::Normal);
    let route = classify("just a video", '!', &commands());
    assert_eq!(plan(&route, true), vec![Hook::NormalMessage]);
}

#[test]
fn closed_gate_runs_only_the_before_hook() {
    let route = classify("!ping", '!', &commands());
    assert_eq!(route, Route::Command { name: "ping".to_string(), rest: String::new() });
    assert_eq!(plan(&route, false), vec![Hook::Before]);
}

#[test]
fn prefix_alone_names_the_empty_command() {
    assert_eq!(classify("!", '!', &commands()), Route::Unknown { name: String::new() });
    assert_eq!(classify("! say", '!', &commands()), Route::Unknown { name: String::new() });
}

#[test]
fn separators_between_name_and_arguments_are_skipped() {
    assert_eq!(
        classify("!say   a  b ", '!', &commands()),
        Route::Command { name: "say".to_string(), rest: "a  b ".to_string() }
    );
    assert_eq!(
        classify("!say\tx\ny", '!', &commands()),
        Route::Command { name: "say".to_string(), rest: "x\ny".to_string() }
    );
    assert_eq!(
        classify("!say   ", '!', &commands()),
        Route::Command { name: "say".to_string(), rest: String::new() }
    );
}

#[test]
fn name_must_match_whole() {
    assert_eq!(classify("!sayit", '!', &commands()), Route::Unknown { name: "sayit".to_string() });
    assert_eq!(classify("!sa y", '!', &commands()), Route::Unknown { name: "sa".to_string() });
    assert_eq!(classify("!Say x", '!', &commands()), Route::Unknown { name: "Say".to_string() });
}

#[test]
fn prefix_is_configurable() {
    assert_eq!(
        classify("?ping now", '?', &commands()),
        Route::Command { name: "ping".to_string(), rest: "now".to_string() }
    );
    assert_eq!(classify("!ping", '?', &commands()), Route::Normal);
    assert_eq!(
        classify("\u{e9}say h\u{e9}", '\u{e9}', &commands()),
        Route::Command { name: "say".to_string(), rest: "h\u{e9}".to_string() }
    );
}

#[test]
fn no_registered_command_means_unknown() {
    let none: Vec<String> = Vec::new();
    assert_eq!(classify("!say x", '!', &none), Route::Unknown { name: "say".to_string() });
    assert!(!is_registered(&none, "say"));
    assert!(is_registered(&commands(), "ping"));
    assert!(!is_registered(&commands(), "pin"));
}

#[test]
fn text_helpers() {
    assert!(same_text("abc", "abc"));
    assert!(!same_text("abc", "abd"));
    assert!(!same_text("abc", "ab"));
    assert!(same_text("", ""));
    assert!(has_prefix("video/mp4", "video/"));
    assert!(has_prefix("video/", "video/"));
    assert!(!has_prefix("video", "video/"));
    assert!(!has_prefix("audio/mp4", "video/"));
    assert!(has_prefix("anything", ""));
    assert!(space(' ') && space('\t') && space('\n') && space('\r'));
    assert!(!space('a') && !space('!'));
}
