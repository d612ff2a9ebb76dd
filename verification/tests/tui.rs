use std::sync::atomic::{AtomicBool, Ordering};
use skypier_blackhole::domains::parse_domains;
use skypier_blackhole::loader::{BlocklistConfig, Config};
use skypier_blackhole::tui::edit::line_to_append;
use skypier_blackhole::tui::events::{loop_step, LoopAction, LoopEvent};
use skypier_blackhole::tui::update::{claim_update, update_decision, UpdateDecision};
use skypier_blackhole::tui::edit::remove_domain_lines;
use skypier_blackhole::tui::input::{handle_key, Command, InputAction, InputState, KeyCode, KeyPress};

fn key(c: char) -> KeyPress {
    KeyPress { code: KeyCode::Char(c), ctrl: false }
}

fn press(code: KeyCode) -> KeyPress {
    KeyPress { code, ctrl: false }
}

fn type_text(input: &mut Option<InputState>, text: &str) {
    for c in text.chars() {
        assert_eq!(handle_key(input, key(c)), Command::Nothing);
    }
}

#[test]
fn ctrl_c_quits_everywhere() {
    let ctrl_c = KeyPress { code: KeyCode::Char('c'), ctrl: true };
    let mut input = None;
    assert_eq!(handle_key(&mut input, ctrl_c), Command::Quit);
    let mut input = Some(InputState { action: InputAction::Add, buffer: "ab".to_string() });
    assert_eq!(handle_key(&mut input, ctrl_c), Command::Quit);
    assert_eq!(input.unwrap().buffer, "ab");
}

#[test]
fn main_keys_give_commands() {
    let mut input = None;
    assert_eq!(handle_key(&mut input, key('q')), Command::Quit);
    assert_eq!(handle_key(&mut input, press(KeyCode::Esc)), Command::Quit);
    assert_eq!(handle_key(&mut input, key('u')), Command::TriggerUpdate);
    assert_eq!(handle_key(&mut input, key('r')), Command::Reload);
    assert_eq!(handle_key(&mut input, key('x')), Command::Nothing);
    assert!(input.is_none());
}

#[test]
fn add_prompt_submits_trimmed_domain() {
    let mut input = None;
    assert_eq!(handle_key(&mut input, key('a')), Command::Nothing);
    assert_eq!(input.as_ref().unwrap().action, InputAction::Add);
    type_text(&mut input, "  ads.example.com ");
    assert_eq!(
        handle_key(&mut input, press(KeyCode::Enter)),
        Command::AddDomain("ads.example.com".to_string())
    );
    assert!(input.is_none());
}

#[test]
fn remove_prompt_submits_remove() {
    let mut input = None;
    handle_key(&mut input, key('d'));
    type_text(&mut input, "q.com");
    assert_eq!(
        handle_key(&mut input, press(KeyCode::Enter)),
        Command::RemoveDomain("q.com".to_string())
    );
}

#[test]
fn blank_prompt_submits_nothing() {
    let mut input = None;
    handle_key(&mut input, key('a'));
    type_text(&mut input, "   ");
    assert_eq!(handle_key(&mut input, press(KeyCode::Enter)), Command::Nothing);
    assert!(input.is_none());
}

#[test]
fn backspace_and_escape_in_prompt() {
    let mut input = None;
    handle_key(&mut input, key('a'));
    type_text(&mut input, "abc");
    handle_key(&mut input, press(KeyCode::Backspace));
    assert_eq!(input.as_ref().unwrap().buffer, "ab");
    handle_key(&mut input, press(KeyCode::Other));
    assert_eq!(input.as_ref().unwrap().buffer, "ab");
    assert_eq!(handle_key(&mut input, press(KeyCode::Esc)), Command::Nothing);
    assert!(input.is_none());
}

#[test]
fn backspace_on_empty_prompt_keeps_it_open() {
    let mut input = None;
    handle_key(&mut input, key('d'));
    handle_key(&mut input, press(KeyCode::Backspace));
    assert_eq!(input.as_ref().unwrap().buffer, "");
    assert_eq!(input.as_ref().unwrap().action, InputAction::Remove);
}

#[test]
fn q_in_prompt_is_typed() {
    let mut input = None;
    handle_key(&mut input, key('a'));
    assert_eq!(handle_key(&mut input, key('q')), Command::Nothing);
    assert_eq!(input.as_ref().unwrap().buffer, "q");
}

#[test]
fn removal_drops_every_matching_line_and_blanks() {
    let text = "a.com\nb.com\n  a.com \n\nc.com";
    assert_eq!(remove_domain_lines(text, "a.com"), Some("b.com\nc.com\n".to_string()));
}

#[test]
fn removal_of_absent_domain_is_none() {
    assert_eq!(remove_domain_lines("a.com\nb.com\n", "x.com"), None);
    assert_eq!(remove_domain_lines("", "x.com"), None);
}

#[test]
fn removing_last_domain_leaves_newline() {
    assert_eq!(remove_domain_lines("only.com\n", "only.com"), Some("\n".to_string()));
}

#[test]
fn removal_twice_changes_nothing_second_time() {
    let text = "x.com\n y.com\r\nx.com\n#note\n";
    let once = remove_domain_lines(text, "x.com").unwrap();
    assert_eq!(once, "y.com\n#note\n");
    assert_eq!(remove_domain_lines(&once, "x.com"), None);
}

#[test]
fn removal_matches_reference_rewrite() {
    for (text, domain) in [
        ("a\nb\na\n", "a"),
        ("\n\n a \n", "a"),
        ("a\r\nb", "b"),
        ("x", "y"),
        ("x\n\n", "x"),
    ] {
        let kept: Vec<&str> = text
            .lines()
            .map(str::trim)
            .filter(|line| !line.is_empty() && *line != domain)
            .collect();
        let removed = kept.len() != text.lines().filter(|l| !l.trim().is_empty()).count();
        let expected = if removed { Some(kept.join("\n") + "\n") } else { None };
        assert_eq!(remove_domain_lines(text, domain), expected, "{:?} {:?}", text, domain);
    }
}

#[test]
fn appended_domain_becomes_its_own_entry() {
    assert_eq!(line_to_append("", "x.com"), "x.com\n");
    assert_eq!(line_to_append("a.com\n", "x.com"), "x.com\n");
    assert_eq!(line_to_append("a.com", "x.com"), "\nx.com\n");
    for current in ["", "a.com", "a.com\n", "a.com\r\n#c", "\n\n"] {
        let mut text = current.to_string();
        text.push_str(&line_to_append(current, "x.com"));
        let mut expected = parse_domains(current);
        expected.push("x.com".to_string());
        assert_eq!(parse_domains(&text), expected, "{:?}", current);
    }
}

#[test]
fn added_then_removed_domain_is_gone() {
    let mut text = "a.com".to_string();
    text.push_str(&line_to_append(&text, "x.com"));
    let removed = remove_domain_lines(&text, "x.com").unwrap();
    assert_eq!(parse_domains(&removed), vec!["a.com"]);
}

fn config_with_remote(remote: &[&str]) -> Config {
    Config {
        blocklist: BlocklistConfig {
            custom_list: "/etc/custom.txt".to_string(),
            local_lists: Vec::new(),
            remote_lists: remote.iter().map(|s| s.to_string()).collect(),
        },
    }
}

#[test]
fn update_decision_decisions() {
    assert_eq!(update_decision(&config_with_remote(&[]), false), UpdateDecision::NoRemoteSources);
    assert_eq!(update_decision(&config_with_remote(&[]), true), UpdateDecision::NoRemoteSources);
    assert_eq!(update_decision(&config_with_remote(&["u"]), true), UpdateDecision::AlreadyRunning);
    assert_eq!(update_decision(&config_with_remote(&["u"]), false), UpdateDecision::Start);
}

#[test]
fn only_one_update_claims_the_flag() {
    let flag = AtomicBool::new(false);
    assert_eq!(claim_update(&config_with_remote(&[]), &flag), UpdateDecision::NoRemoteSources);
    assert!(!flag.load(Ordering::SeqCst));
    let cfg = config_with_remote(&["u"]);
    assert_eq!(claim_update(&cfg, &flag), UpdateDecision::Start);
    assert_eq!(claim_update(&cfg, &flag), UpdateDecision::AlreadyRunning);
    flag.store(false, Ordering::SeqCst);
    assert_eq!(claim_update(&cfg, &flag), UpdateDecision::Start);
}

#[test]
fn loop_maps_events_to_actions() {
    let mut input = None;
    assert_eq!(loop_step(&mut input, LoopEvent::Tick), LoopAction::Continue);
    assert_eq!(loop_step(&mut input, LoopEvent::Terminate), LoopAction::Shutdown);
    assert_eq!(loop_step(&mut input, LoopEvent::InputEnded), LoopAction::Shutdown);
    assert_eq!(loop_step(&mut input, LoopEvent::OtherInput), LoopAction::Continue);
    assert_eq!(loop_step(&mut input, LoopEvent::InputError), LoopAction::WarnInput);
    assert_eq!(loop_step(&mut input, LoopEvent::ServerStopped), LoopAction::ServerStoppedUnexpectedly);
    assert_eq!(loop_step(&mut input, LoopEvent::ServerFailed), LoopAction::ServerError);
    assert_eq!(loop_step(&mut input, LoopEvent::ServerPanicked), LoopAction::ServerPanicked);
    assert_eq!(loop_step(&mut input, LoopEvent::Key { key: key('q'), pressed: false }), LoopAction::Continue);
    assert_eq!(loop_step(&mut input, LoopEvent::Key { key: key('q'), pressed: true }), LoopAction::Shutdown);
    assert_eq!(loop_step(&mut input, LoopEvent::Key { key: key('u'), pressed: true }), LoopAction::Execute(Command::TriggerUpdate));
    assert_eq!(loop_step(&mut input, LoopEvent::Key { key: key('r'), pressed: true }), LoopAction::Execute(Command::Reload));
    assert_eq!(loop_step(&mut input, LoopEvent::Key { key: key('a'), pressed: true }), LoopAction::Continue);
    assert!(input.is_some());
    assert_eq!(loop_step(&mut input, LoopEvent::Key { key: key('q'), pressed: false }), LoopAction::Continue);
    assert_eq!(input.as_ref().unwrap().buffer, "");
    for c in "ads.net".chars() {
        loop_step(&mut input, LoopEvent::Key { key: key(c), pressed: true });
    }
    assert_eq!(
        loop_step(&mut input, LoopEvent::Key { key: press(KeyCode::Enter), pressed: true }),
        LoopAction::Execute(Command::AddDomain("ads.net".to_string()))
    );
}
