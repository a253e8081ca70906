use rusty_router::model::utils::{ArcRegistrationManager, RegistrationManagerError};
use std::sync::Arc;

#[test]
pub fn test_register() -> Result<(), RegistrationManagerError> {
    let mut subject: ArcRegistrationManager<u128> = ArcRegistrationManager::new();
    let registration = subject.register(Arc::new(12))?;
    let registrations = subject.get_registered_items();
    assert_eq!(registrations.len(), 1);
    match registrations.first() {
        Some(x) => assert_eq!(x.as_ref(), &12),
        None => assert!(false, "Failure path"),
    }

    subject.unregister(&registration);
    assert_eq!(subject.get_registered_items().len(), 0);
    Ok(())
}

#[test]
fn registrations_are_independent() -> Result<(), RegistrationManagerError> {
    let mut subject: ArcRegistrationManager<u32> = ArcRegistrationManager::new();
    let first = subject.register(Arc::new(1))?;
    let _second = subject.register(Arc::new(2))?;
    assert_eq!(subject.get_registered_items().len(), 2);
    subject.unregister(&first);
    let left = subject.get_registered_items();
    assert_eq!(left.len(), 1);
    assert_eq!(*left[0], 2);
    subject.unregister(&first);
    assert_eq!(subject.get_registered_items().len(), 1);
    Ok(())
}

#[test]
fn registration_error_message() {
    assert_eq!(RegistrationManagerError::RetryableFailure().to_string(), "Failed to insert item");
}

#[test]
fn taken_identifier_is_refused() {
    let mut subject: ArcRegistrationManager<u8> = ArcRegistrationManager::new();
    assert!(subject.perform_registration(String::from("fixed"), Arc::new(1)).is_ok());
    assert_eq!(
        subject.perform_registration(String::from("fixed"), Arc::new(2)),
        Err(RegistrationManagerError::RetryableFailure())
    );
    let items = subject.get_registered_items();
    assert_eq!(items.len(), 1);
    assert_eq!(*items[0], 1);
}
