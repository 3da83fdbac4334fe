//! The access token: its sources, and what counts as one.

use thermostat_linker::config::HaConfig;
use thermostat_linker::text::{is_white, trim};
use thermostat_linker::token::{
    token_file_is_private, token_from_command, token_from_file, usable_token, CommandError,
    FileError, TokenError, TokenSource,
};

fn config(
    token_env: Option<&str>,
    token_command: Option<&str>,
    token_file: Option<&str>,
    token: Option<&str>,
) -> HaConfig {
    HaConfig {
        baselink: "http://localhost:8123".to_string(),
        token_env: token_env.map(|s| s.to_string()),
        token_command: token_command.map(|s| s.to_string()),
        token_file: token_file.map(|s| s.to_string()),
        token: token.map(|s| s.to_string()),
    }
}

fn fails(reason: &str) -> Result<String, String> {
    Err(reason.to_string())
}

fn gives(text: &str) -> Result<String, String> {
    Ok(text.to_string())
}

#[test]
fn sources_are_asked_in_order() {
    let mut search = config(Some("E"), Some("C"), Some("F"), Some("  ")).resolve_token();
    assert!(matches!(search.next(), Some(TokenSource::Env(name)) if name == "E"));
    assert_eq!(search.offer(gives(" \n")), None);
    assert!(matches!(search.next(), Some(TokenSource::Command(cmd)) if cmd == "C"));
    assert_eq!(search.offer(fails("exited with 1")), None);
    assert!(matches!(search.next(), Some(TokenSource::File(path)) if path == "F"));
    assert_eq!(search.offer(fails("is empty")), None);
    assert!(matches!(search.next(), Some(TokenSource::Inline(text)) if text == "  "));
    assert_eq!(search.offer(gives("ignored")), None);
    assert!(search.next().is_none());
    match search.failure() {
        TokenError::NotFound(tried) => {
            assert_eq!(tried.len(), 4);
            assert!(matches!(tried[0].source, TokenSource::Env(_)));
            assert_eq!(tried[0].reason, None);
            assert!(matches!(tried[1].source, TokenSource::Command(_)));
            assert_eq!(tried[1].reason.as_deref(), Some("exited with 1"));
            assert!(matches!(tried[2].source, TokenSource::File(_)));
            assert_eq!(tried[2].reason.as_deref(), Some("is empty"));
            assert!(matches!(tried[3].source, TokenSource::Inline(_)));
        }
        other => panic!("{other:?}"),
    }
}

#[test]
fn the_first_source_that_yields_wins() {
    let mut search = config(Some("E"), None, Some("F"), Some("inline")).resolve_token();
    assert_eq!(search.offer(gives(" abc\n")), Some("abc".to_string()));

    let mut search = config(Some("E"), None, Some("F"), Some("inline")).resolve_token();
    assert_eq!(search.offer(fails("not set")), None);
    assert_eq!(search.offer(gives("from file")), Some("from file".to_string()));

    let mut search = config(None, None, None, Some("\tinline ")).resolve_token();
    assert_eq!(search.offer(gives("")), Some("inline".to_string()));
}

#[test]
fn without_a_source_the_fallback_is_asked() {
    let mut search = config(None, None, None, None).resolve_token();
    assert!(matches!(search.next(), Some(TokenSource::Fallback)));
    assert_eq!(search.offer(gives(" t ")), Some("t".to_string()));

    let mut search = config(None, None, None, None).resolve_token();
    assert_eq!(search.offer(fails("not set")), None);
    assert!(search.next().is_none());
    assert!(matches!(search.failure(), TokenError::NotConfigured));

    let mut search = config(None, Some("C"), None, None).resolve_token();
    assert_eq!(search.offer(fails("no")), None);
    assert!(matches!(search.failure(), TokenError::NotFound(tried) if tried.len() == 1));
}

#[test]
fn the_output_of_a_command_is_a_token_or_not() {
    assert_eq!(
        token_from_command(true, b"  s\xc3\xa9cret \n".to_vec()),
        Ok("sécret".to_string())
    );
    assert_eq!(
        token_from_command(false, b"secret".to_vec()),
        Err(CommandError::Failed)
    );
    assert_eq!(
        token_from_command(true, vec![b'a', 0xff]),
        Err(CommandError::NotUtf8)
    );
    assert_eq!(
        token_from_command(true, vec![0xed, 0xa0, 0x80]),
        Err(CommandError::NotUtf8)
    );
    assert_eq!(
        token_from_command(true, b" \n".to_vec()),
        Err(CommandError::Empty)
    );
}

#[test]
fn a_token_file_is_closed_to_group_and_world() {
    assert!(token_file_is_private(0o600));
    assert!(token_file_is_private(0o400));
    assert!(!token_file_is_private(0o640));
    assert!(!token_file_is_private(0o604));
    assert!(!token_file_is_private(0o601));
    assert_eq!(token_from_file(0o600, "abc\n"), Ok("abc".to_string()));
    assert_eq!(token_from_file(0o100600, "abc\n"), Ok("abc".to_string()));
    assert_eq!(token_from_file(0o600, "\n"), Err(FileError::Empty));
    assert_eq!(token_from_file(0o640, "abc\n"), Err(FileError::Open));
    assert_eq!(token_from_file(0o604, ""), Err(FileError::Open));
}

#[test]
fn tokens_have_no_white_space_around_them() {
    for text in ["", " ", "a", " a", "a ", "\u{3000}a b\u{a0}", "\r\n\tx\u{85}", "\u{200b}a"] {
        assert_eq!(trim(text), text.trim());
        let expected = Some(text.trim().to_string()).filter(|t| !t.is_empty());
        assert_eq!(usable_token(text), expected);
    }
}

#[test]
fn white_space_is_that_of_unicode() {
    for c in (0..=0x10ffff_u32).filter_map(char::from_u32) {
        assert_eq!(is_white(c), c.is_whitespace(), "{:x}", c as u32);
    }
}

#[test]
fn what_a_command_or_a_file_gives_is_trimmed_too() {
    let mut search = config(None, Some("C"), Some("F"), None).resolve_token();
    assert_eq!(search.offer(gives(" \n")), None);
    assert!(matches!(search.next(), Some(TokenSource::File(_))));
    assert_eq!(search.offer(gives("\tabc d \n")), Some("abc d".to_string()));

    let mut search = config(None, Some("C"), None, None).resolve_token();
    let token = token_from_command(true, b" abc\n".to_vec()).unwrap();
    assert_eq!(search.offer(Ok(token)), Some("abc".to_string()));
}
