use rustle_tui::password_generator::PasswordGenerator;
use rustle_tui::word_catalog::split_lines;

fn owned(words: &[&str]) -> Vec<String> {
    words.iter().map(|w| w.to_string()).collect()
}

fn std_lines(text: &str) -> Vec<String> {
    text.lines().map(|l| l.to_string()).collect()
}

#[test]
fn split_lines_plain() {
    assert_eq!(split_lines("brave\ncalm\neager"), owned(&["brave", "calm", "eager"]));
}

#[test]
fn split_lines_final_line_feed_adds_no_line() {
    assert_eq!(split_lines("brave\ncalm\n"), owned(&["brave", "calm"]));
}

#[test]
fn split_lines_empty_text_has_no_lines() {
    assert_eq!(split_lines(""), Vec::<String>::new());
}

#[test]
fn split_lines_keeps_inner_empty_lines() {
    assert_eq!(split_lines("a\n\nb"), owned(&["a", "", "b"]));
    assert_eq!(split_lines("\n"), owned(&[""]));
    assert_eq!(split_lines("\n\n"), owned(&["", ""]));
}

#[test]
fn split_lines_drops_return_before_line_feed() {
    assert_eq!(split_lines("a\r\nb\r\n"), owned(&["a", "b"]));
    assert_eq!(split_lines("a\r\r\nb"), owned(&["a\r", "b"]));
}

#[test]
fn split_lines_keeps_other_returns() {
    assert_eq!(split_lines("a\rb\nc\r"), owned(&["a\rb", "c\r"]));
    assert_eq!(split_lines("\r"), owned(&["\r"]));
}

#[test]
fn split_lines_agrees_with_std() {
    let texts = [
        "", "\n", "\r", "\r\n", "a", "a\n", "a\r\n", "a\r", "\na", "\r\na", "a\n\nb", "a\r\n\r\nb",
        "a\r\r\n", "\r\r", "one\ntwo\r\nthree\rfour\n\n", "caf\u{e9}\n\u{a3}\r\n", "\n\r\n\r",
    ];
    for text in texts {
        assert_eq!(split_lines(text), std_lines(text), "text {:?}", text);
    }
}


#[test]
fn generator_takes_one_word_from_each_line() {
    let generator = PasswordGenerator::new("brave\r\n", "falcon\n");
    let password = generator.generate();
    assert!(password.starts_with("brave"));
    assert!(!password.contains('\r'));
    assert!(password["brave".len()..].contains("falcon"));
}
