use rustle_tui::password_generator::{compose, symbols, PasswordGenerator, MAX_NUMBER};

/// Splits a password into adjective, symbol, noun, symbol and number, given
/// the lists it was drawn from; `None` where it has no such shape.
fn parts(password: &str, adjectives: &[&str], nouns: &[&str]) -> Option<(String, char, String, char, u32)> {
    let alphabet = symbols();
    let fallback = [""];
    let adjectives: &[&str] = if adjectives.is_empty() { &fallback } else { adjectives };
    let nouns: &[&str] = if nouns.is_empty() { &fallback } else { nouns };
    for adjective in adjectives {
        let Some(rest) = password.strip_prefix(adjective) else { continue };
        let mut chars = rest.chars();
        let Some(symbol1) = chars.next() else { continue };
        if !alphabet.contains(&symbol1) {
            continue;
        }
        let rest = chars.as_str();
        for noun in nouns {
            let Some(rest) = rest.strip_prefix(noun) else { continue };
            let mut chars = rest.chars();
            let Some(symbol2) = chars.next() else { continue };
            if !alphabet.contains(&symbol2) {
                continue;
            }
            let digits = chars.as_str();
            if digits.is_empty() || !digits.chars().all(|c| c.is_ascii_digit()) {
                continue;
            }
            if digits.len() > 1 && digits.starts_with('0') {
                continue;
            }
            let Ok(number) = digits.parse::<u32>() else { continue };
            if number <= MAX_NUMBER {
                return Some((adjective.to_string(), symbol1, noun.to_string(), symbol2, number));
            }
        }
    }
    None
}

#[test]
fn compose_fixed_draws() {
    assert_eq!(compose("brave", '!', "falcon", '!', 42), "brave!falcon!42");
}

#[test]
fn compose_keeps_order_of_parts() {
    assert_eq!(compose("calm", '@', "river", '#', 9999), "calm@river#9999");
    assert_eq!(compose("calm", '#', "river", '@', 1000), "calm#river@1000");
}

#[test]
fn compose_does_not_pad_the_number() {
    assert_eq!(compose("a", '-', "b", '-', 7), "a-b-7");
    assert_eq!(compose("a", '-', "b", '-', 0), "a-b-0");
    assert_eq!(compose("a", '-', "b", '-', 10), "a-b-10");
    assert_eq!(compose("a", '-', "b", '-', 305), "a-b-305");
}

#[test]
fn compose_renders_every_number_as_std_does() {
    for number in 0..=MAX_NUMBER {
        assert_eq!(compose("", '+', "", '=', number), format!("+={}", number));
    }
    assert_eq!(compose("", '+', "", '=', u32::MAX), format!("+={}", u32::MAX));
}

#[test]
fn compose_with_empty_words() {
    assert_eq!(compose("", '!', "", '@', 5), "!@5");
}

#[test]
fn compose_with_wide_characters() {
    assert_eq!(compose("na\u{ef}ve", '\u{a3}', "caf\u{e9}", '_', 12), "na\u{ef}ve\u{a3}caf\u{e9}_12");
}

#[test]
fn symbol_alphabet_is_the_fixed_one() {
    assert_eq!(
        symbols(),
        vec!['!', '@', '#', '$', '%', '^', '&', '*', '-', '=', '_', '+', '\u{a3}']
    );
}

#[test]
fn generate_has_the_shape_of_a_password() {
    let adjectives = ["brave", "calm", "eager"];
    let nouns = ["falcon", "river"];
    let generator = PasswordGenerator::new("brave\ncalm\neager\n", "falcon\nriver\n");
    for _ in 0..500 {
        let password = generator.generate();
        assert!(parts(&password, &adjectives, &nouns).is_some(), "password {:?}", password);
    }
}

#[test]
fn generate_with_single_words() {
    let generator = PasswordGenerator::new("brave", "falcon");
    for _ in 0..200 {
        let password = generator.generate();
        let (adjective, _, noun, _, number) =
            parts(&password, &["brave"], &["falcon"]).expect("shape");
        assert_eq!(adjective, "brave");
        assert_eq!(noun, "falcon");
        assert!(number <= 9999);
    }
}

#[test]
fn generate_with_empty_lists_uses_empty_words() {
    let generator = PasswordGenerator::new("", "");
    for _ in 0..200 {
        let password = generator.generate();
        let (adjective, _, noun, _, _) = parts(&password, &[], &[]).expect("shape");
        assert_eq!(adjective, "");
        assert_eq!(noun, "");
        assert!(password.chars().count() >= 3 && password.chars().count() <= 6);
    }
}

#[test]
fn generate_with_one_empty_list() {
    let generator = PasswordGenerator::new("", "falcon\n");
    for _ in 0..100 {
        let password = generator.generate();
        assert!(parts(&password, &[], &["falcon"]).is_some(), "password {:?}", password);
    }
}

#[test]
fn generate_draws_more_than_one_password() {
    let generator = PasswordGenerator::new("brave\ncalm\neager\n", "falcon\nriver\n");
    let first = generator.generate();
    let mut differs = false;
    for _ in 0..100 {
        if generator.generate() != first {
            differs = true;
        }
    }
    assert!(differs);
}
