use dsh_rs::bundle::config::{
    choose_agent, config_candidates, discover, override_config, parse_u32, BaseConfig,
};
use dsh_rs::cli::args::{
    command, flag, inline_profile, load_profile, parse_args, run_prompt, transcript_source,
    Command,
};
use dsh_rs::cli::view::{
    last_assistant_text, load_failure, render_event, transcript, transcript_lines, LineChat,
};
use dsh_rs::json::{self, Json};
use dsh_rs::session::log::{user_message, Session};
use dsh_rs::types::llm::{ContentBlock, Message, MessageSource, Role};
use dsh_rs::types::session::{SessionEvent, SessionEventData, SessionHeader};

fn args(list: &[&str]) -> Vec<String> {
    list.iter().map(|s| s.to_string()).collect()
}

#[test]
fn lib_flag_followed_by_another_flag_is_not_swallowed() {
    // Regression: `--line --provider mock` must keep both flags; the
    // second flag used to be eaten as `--line`'s value.
    let (flags, positionals) =
        parse_args(&args(&["chat", "--line", "--provider", "mock", "--model", "mock-1"]));
    assert_eq!(flags.get("line").map(|s| s.as_str()), Some(""));
    assert_eq!(flags.get("provider").map(|s| s.as_str()), Some("mock"));
    assert_eq!(flags.get("model").map(|s| s.as_str()), Some("mock-1"));
    assert_eq!(positionals, vec!["chat"]);
}

#[test]
fn lib_flag_value_and_equals_forms() {
    let (flags, positionals) =
        parse_args(&args(&["run", "--prompt", "hi", "--max-tokens=64", "--print-json"]));
    assert_eq!(flags.get("prompt").map(|s| s.as_str()), Some("hi"));
    assert_eq!(flags.get("max-tokens").map(|s| s.as_str()), Some("64"));
    assert!(flags.contains_key("print-json"));
    assert_eq!(positionals, vec!["run"]);
}

#[test]
fn lib_trailing_bare_flag_is_ok() {
    let (flags, positionals) = parse_args(&args(&["chat", "--line"]));
    assert!(flags.contains_key("line"));
    assert_eq!(positionals, vec!["chat"]);
}

#[test]
fn mod_flag_followed_by_another_flag_is_not_swallowed() {
    // Regression: `--line --provider mock` must keep both flags; the
    // second flag used to be eaten as `--line`'s value.
    let (flags, positionals) =
        parse_args(&args(&["chat", "--line", "--provider", "mock", "--model", "mock-1"]));
    assert_eq!(flags.get("line").map(|s| s.as_str()), Some(""));
    assert_eq!(flags.get("provider").map(|s| s.as_str()), Some("mock"));
    assert_eq!(flags.get("model").map(|s| s.as_str()), Some("mock-1"));
    assert_eq!(positionals, vec!["chat"]);
}

#[test]
fn mod_flag_value_and_equals_forms() {
    let (flags, positionals) =
        parse_args(&args(&["run", "--prompt", "hi", "--max-tokens=64", "--print-json"]));
    assert_eq!(flags.get("prompt").map(|s| s.as_str()), Some("hi"));
    assert_eq!(flags.get("max-tokens").map(|s| s.as_str()), Some("64"));
    assert!(flags.contains_key("print-json"));
    assert_eq!(positionals, vec!["run"]);
}

#[test]
fn mod_trailing_bare_flag_is_ok() {
    let (flags, positionals) = parse_args(&args(&["chat", "--line"]));
    assert!(flags.contains_key("line"));
    assert_eq!(positionals, vec!["chat"]);
}

#[test]
fn later_flag_wins() {
    let (flags, positionals) =
        parse_args(&args(&["--a", "1", "x", "--a=2", "-y", "--b=", "--=v", "--"]));
    assert_eq!(flags.get("a").map(|s| s.as_str()), Some("2"));
    assert_eq!(flags.get("b").map(|s| s.as_str()), Some(""));
    assert_eq!(flag(&flags, "a"), Some("2".to_string()));
    assert_eq!(flag(&flags, "b"), None, "a flag without a value has none");
    assert_eq!(flag(&flags, "c"), None);
    assert_eq!(flags.get("").map(|s| s.as_str()), Some(""));
    assert_eq!(positionals, vec!["x", "-y"]);
}

#[test]
fn commands_are_told_apart() {
    let of = |list: &[&str]| {
        let (flags, positionals) = parse_args(&args(list));
        command(&flags, &positionals)
    };
    assert_eq!(of(&[]), Command::Run);
    assert_eq!(of(&["run"]), Command::Run);
    assert_eq!(of(&["chat", "--line"]), Command::Chat);
    assert_eq!(of(&["transcript", "s"]), Command::Transcript);
    assert_eq!(of(&["providers"]), Command::Providers);
    assert_eq!(of(&["help"]), Command::Help);
    assert_eq!(of(&["-h"]), Command::Help);
    assert_eq!(of(&["chat", "--help"]), Command::Help);
    assert_eq!(of(&["dance"]), Command::Unknown { name: "dance".into() });
}

#[test]
fn commands_find_what_they_need() {
    let (flags, positionals) = parse_args(&args(&["run", "from position"]));
    assert_eq!(run_prompt(&flags, &positionals).unwrap(), "from position");
    let (flags, positionals) = parse_args(&args(&["run", "x", "--prompt", "from flag"]));
    assert_eq!(run_prompt(&flags, &positionals).unwrap(), "from flag");
    let (flags, positionals) = parse_args(&args(&["run"]));
    assert_eq!(run_prompt(&flags, &positionals).unwrap_err(), "run requires --prompt");
    let (flags, positionals) = parse_args(&args(&["transcript", "s-1", "--store", "/d"]));
    assert_eq!(
        transcript_source(&flags, &positionals).unwrap(),
        ("s-1".to_string(), "/d".to_string())
    );
    let (flags, positionals) = parse_args(&args(&["transcript", "s-1"]));
    assert_eq!(
        transcript_source(&flags, &positionals).unwrap_err(),
        "transcript requires --store DIR"
    );
    let (flags, positionals) = parse_args(&args(&["transcript", "--store", "/d"]));
    assert_eq!(
        transcript_source(&flags, &positionals).unwrap_err(),
        "transcript requires a session id"
    );
}

#[test]
fn profiles_are_inline_or_in_a_file() {
    let inline = inline_profile("  {\"bundles\":[]} ").unwrap().unwrap();
    assert_eq!(json::print(&inline), "{\"bundles\":[]}");
    let bad = inline_profile("{nope").unwrap().unwrap_err();
    assert!(bad.starts_with("bad profile JSON: "), "{bad}");
    assert!(bad.len() > "bad profile JSON: ".len());
    assert!(inline_profile("profile.json").is_none());
    assert!(inline_profile("   ").is_none());
    assert_eq!(load_profile("p.json", &Ok("[1]".into())).unwrap(), json::parse("[1]").unwrap());
    assert_eq!(
        load_profile("p.json", &Err("no such file".into())).unwrap_err(),
        "cannot read p.json: no such file"
    );
    let bad = load_profile("p.json", &Ok("x".into())).unwrap_err();
    assert!(bad.starts_with("bad profile JSON in p.json: "), "{bad}");
    // an inline profile is read whatever a file holds
    let inline = load_profile(" {\"bundles\":[1]}", &Ok("[2]".into())).unwrap();
    assert_eq!(json::print(&inline), "{\"bundles\":[1]}");
    let inline = load_profile("{}", &Err("no such file".into())).unwrap();
    assert_eq!(json::print(&inline), "{}");
    let bad = load_profile("{nope", &Ok("{}".into())).unwrap_err();
    assert!(bad.starts_with("bad profile JSON: "), "{bad}");
}

#[test]
fn configuration_is_read_and_overridden() {
    let value = json::parse(
        "{\"store_dir\":\"/s\",\"provider\":\"deepseek\",\"model\":7,\"openai\":{\"a\":1}}",
    )
    .unwrap();
    let config = BaseConfig::from_value(&value);
    assert_eq!(config.store_dir.as_deref(), Some("/s"));
    assert_eq!(config.default_provider.as_deref(), Some("deepseek"));
    assert_eq!(config.default_model, None, "a model that is no text is not set");
    assert_eq!(json::print(config.openai.as_ref().unwrap()), "{\"a\":1}");
    assert_eq!(BaseConfig::from_value(&Json::Null), BaseConfig::default());

    let (flags, _) = parse_args(&args(&["run", "--store", "/t", "--openai-key", "k", "--model", "m"]));
    let changed = override_config(config.clone(), &flags);
    assert_eq!(changed.store_dir.as_deref(), Some("/t"));
    assert_eq!(
        json::print(changed.openai.as_ref().unwrap()),
        "{\"api_key\":\"k\",\"model\":\"m\"}"
    );
    let (none, _) = parse_args(&args(&["run", "--model", "m"]));
    assert_eq!(override_config(config.clone(), &none), config);
}

#[test]
fn default_configuration_is_searched_in_order() {
    assert_eq!(
        config_candidates(&Some("/c.json".into()), &Some("/home/u".into())),
        vec!["/c.json", "/home/u/.dsh/config.json", "dsh.json"]
    );
    assert_eq!(config_candidates(&None, &None), vec!["dsh.json"]);
    let file = |path: &str, content: &str| (path.to_string(), content.to_string());
    let found = discover(&vec![
        file("/c.json", "{"),
        file("/home/u/.dsh/config.json", "{\"model\":\"m\"}"),
        file("dsh.json", "{\"model\":\"other\"}"),
    ]);
    assert_eq!(found.config.default_model.as_deref(), Some("m"), "the first match wins");
    assert_eq!(found.notes.len(), 2);
    assert!(found.notes[0].starts_with("[config] ignoring /c.json: "), "{}", found.notes[0]);
    assert_eq!(found.notes[1], "[config] loaded /home/u/.dsh/config.json");
    let none = discover(&vec![]);
    assert_eq!(none.config, BaseConfig::default());
    assert!(none.notes.is_empty());
}

#[test]
fn agent_is_chosen_by_flag_then_configuration_then_default() {
    let (none, _) = parse_args(&args(&["run"]));
    let config = BaseConfig::default();
    let plain = choose_agent(&none, &config, false);
    assert_eq!((plain.provider.as_str(), plain.model.as_str()), ("mock", "mock-1"));
    let deep = choose_agent(&none, &config, true);
    assert_eq!((deep.provider.as_str(), deep.model.as_str()), ("deepseek", "deepseek-chat"));
    let configured = BaseConfig {
        default_provider: Some("openai".into()),
        default_model: Some("gpt".into()),
        ..BaseConfig::default()
    };
    let set = choose_agent(&none, &configured, true);
    assert_eq!((set.provider.as_str(), set.model.as_str()), ("openai", "gpt"));
    let (flags, _) = parse_args(&args(&["--provider", "p", "--model=m", "--max-tokens", "64"]));
    let asked = choose_agent(&flags, &configured, true);
    assert_eq!((asked.provider.as_str(), asked.model.as_str()), ("p", "m"));
    assert_eq!(asked.max_tokens, Some(64));
}

#[test]
fn numbers_are_read_as_std_does() {
    for s in ["0", "64", "+7", "4294967295", "4294967296", "", "+", "-1", "1 ", "1_0", "00012", "++1"] {
        assert_eq!(parse_u32(s), s.parse::<u32>().ok(), "{s:?}");
    }
    for n in [0u32, 9, 10, 12345, u32::MAX] {
        assert_eq!(parse_u32(&n.to_string()), Some(n));
    }
}

#[test]
fn last_assistant_text_is_shown() {
    let mut session = Session::new("s".into(), SessionHeader::created(0), vec![]);
    assert_eq!(last_assistant_text(&session), "");
    let answer = |text: &str| SessionEventData::AssistantMessage {
        turn: 1,
        step: 1,
        message: Message {
            id: "a".into(),
            role: Role::Assistant,
            content: vec![ContentBlock::text(text)],
            source: MessageSource::Model { provider: "p".into(), model: "m".into() },
        },
        usage: None,
        interrupted: None,
    };
    session.append(answer("first"));
    session.append(answer("second"));
    session.append(SessionEventData::UserMessage { message: user_message("u", "thanks") });
    assert_eq!(last_assistant_text(&session), "second");
    // nor does an assistant message without content change it
    let empty = match answer("") {
        SessionEventData::AssistantMessage { turn, step, message, usage, interrupted } => {
            let message = Message { content: vec![], ..message };
            SessionEventData::AssistantMessage { turn, step, message, usage, interrupted }
        }
        other => panic!("{other:?}"),
    };
    let mut longer = Session::new("s".into(), SessionHeader::created(0), session.events());
    longer.append(empty);
    longer.append(SessionEventData::TurnStart { turn: 2 });
    assert_eq!(last_assistant_text(&longer), "second");
    longer.append(answer("third"));
    assert_eq!(last_assistant_text(&longer), "third");
    assert_eq!(transcript(&session), "[assistant] first\n[assistant] second\n[user] thanks");
    let lines = transcript_lines("s", &session.events());
    assert_eq!(lines, vec!["[assistant] first", "[assistant] second", "[user] thanks"]);
    assert_eq!(transcript_lines("s", &vec![]), vec!["(no events for session s)"]);
    let event = SessionEvent::new(0, 0, SessionEventData::TurnStart { turn: 1 });
    assert_eq!(render_event(&event), "[turn/start]");
    assert_eq!(load_failure("s", "gone"), "cannot load s: gone");
}

#[test]
fn line_chat_numbers_what_is_said() {
    assert_eq!(LineChat::banner(), "dsh chat — type a line, Ctrl-D to exit");
    let mut chat = LineChat::new();
    assert!(chat.accept("   ").is_none());
    assert_eq!(chat.said(), 0);
    let first = chat.accept("  hello \n").unwrap();
    assert_eq!(first.id, "u-1");
    assert_eq!(first.text(), "hello");
    assert_eq!(chat.accept("again").unwrap().id, "u-2");
    assert_eq!(chat.said(), 2);
}
