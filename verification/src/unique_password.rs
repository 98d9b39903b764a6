//! Issuing a password that was never issued before.

use crate::history::encoded;
use crate::password_generator::{well_formed_password, PasswordGenerator};
use crate::storage_manager::{fingerprint, StorageManager};
use vstd::prelude::*;

verus! {

/// Why no password was issued.
#[derive(Clone, Copy, Debug, PartialEq, Eq)]
pub enum GenerationError {
    /// Every candidate that was drawn had been issued before.
    AttemptsExhausted,
}

/// A newly issued password, and the bytes that the backing file must hold
/// now that it is recorded.
pub struct IssuedPassword {
    pub password: String,
    pub file: Vec<u8>,
}

/// Draws candidates until one is new, at most `max_attempts` of them, and
/// records the first new one. Repeated candidates are skipped and leave the
/// record as it was. Against an empty record the first candidate is new.
pub fn generate_unique_password(
    generator: &PasswordGenerator,
    store: &mut StorageManager,
    max_attempts: usize,
) -> (issued: Result<IssuedPassword, GenerationError>)
    requires
        old(store).wf(),
    ensures
        final(store).wf(),
        max_attempts == 0 ==> issued is Err,
        max_attempts > 0 && old(store).entries().len() == 0 ==> issued is Ok,
        match issued {
            Ok(new) => {
                &&& well_formed_password(generator.adjectives(), generator.nouns(), new.password@)
                &&& !old(store).entries().contains(fingerprint(new.password@))
                &&& final(store).entries() == old(store).entries().push(fingerprint(new.password@))
                &&& new.file@ == encoded(final(store).entries())
            },
            Err(e) => e == GenerationError::AttemptsExhausted && final(store).entries() == old(
                store,
            ).entries(),
        },
{
    let mut attempt: usize = 0;
    while attempt < max_attempts
        invariant
            store.wf(),
            store.entries() == old(store).entries(),
            attempt > 0 ==> old(store).entries().len() > 0,
        decreases max_attempts - attempt,
    {
        let password = generator.generate();
        match store.store_if_new(password.as_str()) {
            Some(file) => {
                return Ok(IssuedPassword { password, file });
            },
            None => {},
        }
        attempt += 1;
    }
    Err(GenerationError::AttemptsExhausted)
}

} // verus!
