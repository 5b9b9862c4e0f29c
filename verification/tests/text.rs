use brztek::misc::{learned_answer, unknown_command_reply, UNKNOWN_COMMAND_ANSWER};
use brztek::format::{decimal_i64, decimal_u64};
use brztek::misc::{
    colour_error_text, colour_role_name, extract_links, learned_messages, parse_colour, ColourError, MESSAGE_LIMIT,
};
use brztek::text::{find_chars, join, remove_char, same_text, starts_with, strip_symbols, to_ascii_lowercase, trim_end_matches};

#[test]
fn decimal_notation() {
    assert_eq!(decimal_u64(0), "0");
    assert_eq!(decimal_u64(u64::MAX), u64::MAX.to_string());
    assert_eq!(decimal_i64(-42), "-42");
    assert_eq!(decimal_i64(i64::MIN), i64::MIN.to_string());
    assert_eq!(decimal_i64(1234567), "1234567");
}

#[test]
fn character_helpers() {
    assert_eq!(remove_char("\"123\"", '"'), "123");
    assert_eq!(to_ascii_lowercase("UtM_Source"), "utm_source");
    assert_eq!(trim_end_matches("a/b//", '/'), "a/b");
    assert!(starts_with("https://x", "https://"));
    assert!(!starts_with("http", "https://"));
    assert!(same_text("abc", "abc"));
    assert!(!same_text("abc", "abd"));
    assert_eq!(join(&vec!["a".to_string(), "b".to_string()], ", "), "a, b");
    assert_eq!(join(&vec![], ", "), "");
}

#[test]
fn find_gives_the_first_occurrence() {
    let s: Vec<char> = "xwebpwebp".chars().collect();
    let n: Vec<char> = "webp".chars().collect();
    assert_eq!(find_chars(&s, &n), Some(1));
    assert_eq!(find_chars(&s, &vec![]), Some(0));
    assert_eq!(find_chars(&n, &s), None);
}

#[test]
fn names_keep_letters_digits_and_spaces() {
    assert_eq!(strip_symbols("Jo!hn D.oe_42"), "John Doe42");
    assert_eq!(strip_symbols("été 🎉 ok"), "été  ok");
    for name in ["@K_limero91 ou @ChaK_lim", "a pretty long username", "x\ty"] {
        let expected: String = name.chars().filter(|c| c.is_alphanumeric() || c.is_whitespace()).collect();
        assert_eq!(strip_symbols(name), expected);
    }
}

#[test]
fn links_are_the_words_that_start_with_http() {
    let text = "look https://a.com/x?utm=1 and\nhttp://b.org  ftp://c https:/d https://";
    assert_eq!(extract_links(text), vec!["https://a.com/x?utm=1", "http://b.org", "https://"]);
    assert!(extract_links("no links here").is_empty());
    assert!(extract_links("").is_empty());
    assert_eq!(extract_links("https://end"), vec!["https://end"]);
}

#[test]
fn learned_list_fits_in_one_message_when_short() {
    let commands = vec!["a".to_string(), "bb".to_string()];
    assert_eq!(learned_messages(&commands), vec![">>> List of learned commands: \n- a\n- bb\n"]);
    assert_eq!(learned_messages(&vec![]), vec![">>> List of learned commands: \n"]);
}

#[test]
fn learned_list_is_cut_at_the_limit() {
    let commands: Vec<String> = (0..300).map(|i| format!("command_number_{i}")).collect();
    let messages = learned_messages(&commands);
    assert!(messages.len() > 1);
    let mut body = String::new();
    for (i, m) in messages.iter().enumerate() {
        assert!(m.len() <= MESSAGE_LIMIT);
        assert!(m.starts_with(">>> "));
        if i == 0 {
            body.push_str(m);
        } else {
            body.push_str(&m[4..]);
        }
    }
    let mut expected = String::from(">>> List of learned commands: \n");
    for c in &commands {
        expected.push_str(&format!("- {c}\n"));
    }
    assert_eq!(body, expected);
}

#[test]
fn an_overlong_line_gets_a_message_of_its_own() {
    let long = "é".repeat(1200);
    let commands = vec!["a".to_string(), long.clone(), "b".to_string()];
    let messages = learned_messages(&commands);
    assert_eq!(messages.len(), 3);
    assert_eq!(messages[0], ">>> List of learned commands: \n- a\n");
    assert_eq!(messages[1], format!(">>> - {long}\n"));
    assert_eq!(messages[2], ">>> - b\n");
}

#[test]
fn colours_are_read_as_rrggbb() {
    assert_eq!(parse_colour("#d917d3"), Ok((0xd9, 0x17, 0xd3)));
    assert_eq!(parse_colour("#FFffFF"), Ok((255, 255, 255)));
    assert_eq!(parse_colour("d917d3"), Err(ColourError::Format));
    assert_eq!(parse_colour("#d917d"), Err(ColourError::Format));
    assert_eq!(parse_colour("#d917d3a"), Err(ColourError::Format));
    assert_eq!(parse_colour("#g917d3"), Err(ColourError::NotHex));
    assert_eq!(parse_colour("#é17d3"), Err(ColourError::NotHex));
    assert_eq!(colour_error_text(ColourError::Format, "x"), "Color format should be \"#rrggbb\"");
    assert_eq!(colour_error_text(ColourError::NotHex, "#g917d3"), "#g917d3 is not a valid color hex code.");
    assert_eq!(colour_role_name("Bob"), "bot_color_Bob");
}

#[test]
fn unknown_commands_answer_with_the_learned_link() {
    assert_eq!(unknown_command_reply(Some("https://x/y")), "https://x/y");
    assert_eq!(unknown_command_reply(None), UNKNOWN_COMMAND_ANSWER);
    assert_eq!(learned_answer("kek"), "I know kek");
}

#[test]
fn names_keep_exactly_std_alphanumerics_and_whitespace() {
    for code in 0u32..0x3100 {
        if let Some(c) = char::from_u32(code) {
            let kept = c.is_alphanumeric() || c.is_whitespace();
            let expected = if kept { c.to_string() } else { String::new() };
            assert_eq!(strip_symbols(&c.to_string()), expected, "code point {code:#x}");
        }
    }
}
