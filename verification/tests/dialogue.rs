use gemini_chat::ident::{decode, encode, fresh_id};
use gemini_chat::session::{chat_step, prompt_for_conv, Answer, ChatStep};
use gemini_chat::store::resolve_save_path;
use gemini_chat::strutil::trim;

#[test]
fn trim_strips_both_ends() {
    assert_eq!(trim("  hello  "), "hello");
    assert_eq!(trim("hello\n"), "hello");
    assert_eq!(trim("\t a b \r\n"), "a b");
    assert_eq!(trim(""), "");
    assert_eq!(trim("   "), "");
}

#[test]
fn trim_strips_all_unicode_whitespace() {
    // the same set str::trim strips: Unicode White_Space
    assert_eq!(trim("\u{000C}hello\u{00A0}"), "hello");
    assert_eq!(trim("\u{2003}\u{3000}ok\u{2028}"), "ok");
    assert_eq!(trim("a\u{200B}"), "a\u{200B}"); // a zero-width space is not whitespace
    assert_eq!(prompt_for_conv("y\u{000C}\n"), Answer::Yes);
}

#[test]
fn answer_defaults_to_yes() {
    assert_eq!(prompt_for_conv(""), Answer::Yes);
    assert_eq!(prompt_for_conv("\n"), Answer::Yes);
    assert_eq!(prompt_for_conv("y"), Answer::Yes);
    assert_eq!(prompt_for_conv(" Y \n"), Answer::Yes);
}

#[test]
fn answer_no_resumes() {
    assert_eq!(prompt_for_conv("n"), Answer::No);
    assert_eq!(prompt_for_conv("N\n"), Answer::No);
}

#[test]
fn answer_anything_else_reprompts() {
    assert_eq!(prompt_for_conv("yes"), Answer::AskAgain);
    assert_eq!(prompt_for_conv("no"), Answer::AskAgain);
    assert_eq!(prompt_for_conv("x"), Answer::AskAgain);
    assert_eq!(prompt_for_conv("y n"), Answer::AskAgain);
}

#[test]
fn exit_is_case_insensitive() {
    for line in ["exit", "EXIT", "Exit", " eXiT \n"] {
        assert!(matches!(chat_step(line), ChatStep::Exit));
    }
}

#[test]
fn ordinary_lines_become_trimmed_messages() {
    match chat_step("  hello there \n") {
        ChatStep::Say(m) => assert_eq!(m, "hello there"),
        ChatStep::Exit => panic!("an ordinary line must not end the session"),
    }
    match chat_step("exit now") {
        ChatStep::Say(m) => assert_eq!(m, "exit now"),
        ChatStep::Exit => panic!("only the exact sentinel ends the session"),
    }
}

#[test]
fn new_session_saves_under_a_well_formed_name() {
    // A fresh session answered with "y" and left with "exit" writes exactly
    // one file, named convo-<identifier>.txt for a decodable identifier.
    assert_eq!(prompt_for_conv("y\n"), Answer::Yes);
    let id = fresh_id();
    assert!(matches!(chat_step("exit\n"), ChatStep::Exit));
    let path = resolve_save_path("store", &id);
    let name = path.strip_prefix("store/").unwrap();
    assert_eq!(name, encode(&id));
    assert_eq!(decode(name), Ok(id));
}
