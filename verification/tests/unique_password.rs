use rustle_tui::password_generator::PasswordGenerator;
use rustle_tui::storage_manager::StorageManager;
use rustle_tui::unique_password::{generate_unique_password, GenerationError};

#[test]
fn unique_password_is_recorded() {
    let generator = PasswordGenerator::new("brave\ncalm\n", "falcon\nriver\n");
    let mut store = StorageManager::new(None);
    let issued = generate_unique_password(&generator, &mut store, 100).expect("a new password");
    assert!(store.is_duplicate(&issued.password));
    assert_eq!(issued.file.len(), 40);
    assert_eq!(&issued.file[8..], blake3::hash(issued.password.as_bytes()).as_bytes());
}

#[test]
fn unique_passwords_differ() {
    let generator = PasswordGenerator::new("brave", "falcon");
    let mut store = StorageManager::new(None);
    let mut seen: Vec<String> = Vec::new();
    for round in 0..200usize {
        let issued = generate_unique_password(&generator, &mut store, 1000).expect("a new password");
        assert!(!seen.contains(&issued.password));
        assert_eq!(issued.file.len(), 8 + 32 * (round + 1));
        seen.push(issued.password);
    }
}

#[test]
fn unique_password_file_reopens() {
    let generator = PasswordGenerator::new("brave\ncalm\n", "falcon\nriver\n");
    let mut store = StorageManager::new(None);
    let first = generate_unique_password(&generator, &mut store, 100).expect("a new password");
    let second = generate_unique_password(&generator, &mut store, 100).expect("a new password");
    let reopened = StorageManager::new(Some(second.file));
    assert!(reopened.is_duplicate(&first.password));
    assert!(reopened.is_duplicate(&second.password));
}

#[test]
fn no_attempts_gives_no_password() {
    let generator = PasswordGenerator::new("brave", "falcon");
    let mut store = StorageManager::new(None);
    let issued = generate_unique_password(&generator, &mut store, 0);
    assert!(matches!(issued, Err(GenerationError::AttemptsExhausted)));
    assert_eq!(store.store_password("x").len(), 40);
}
