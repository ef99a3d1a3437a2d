//! Keeping sessions beyond the life of the broker.

use crate::state::{PublishPacket, SessionState};
use vstd::prelude::*;

verus! {

/// Why a session could not be kept or found.
#[derive(Debug)]
pub struct StorageError {
    pub message: String,
}

/// A place to keep sessions and the messages that wait in them.
pub trait StorageEngine: Send + Sync {
    fn save_session(&self, client_id: &str, session: &SessionState) -> (r: Result<
        (),
        StorageError,
    >);

    fn load_session(&self, client_id: &str) -> (r: Result<Option<SessionState>, StorageError>);

    fn delete_session(&self, client_id: &str) -> (r: Result<(), StorageError>);

    fn save_pending(&self, client_id: &str, messages: &[PublishPacket]) -> (r: Result<
        (),
        StorageError,
    >);

    fn load_pending(&self, client_id: &str) -> (r: Result<Vec<PublishPacket>, StorageError>);

    fn clear_pending(&self, client_id: &str) -> (r: Result<(), StorageError>);
}

/// Keeps nothing beyond the broker's own state.
pub struct MemoryStorage;

impl StorageEngine for MemoryStorage {
    fn save_session(&self, client_id: &str, session: &SessionState) -> (r: Result<
        (),
        StorageError,
    >)
        ensures
            r is Ok,
    {
        Ok(())
    }

    fn load_session(&self, client_id: &str) -> (r: Result<Option<SessionState>, StorageError>)
        ensures
            r == Ok::<Option<SessionState>, StorageError>(None),
    {
        Ok(None)
    }

    fn delete_session(&self, client_id: &str) -> (r: Result<(), StorageError>)
        ensures
            r is Ok,
    {
        Ok(())
    }

    fn save_pending(&self, client_id: &str, messages: &[PublishPacket]) -> (r: Result<
        (),
        StorageError,
    >)
        ensures
            r is Ok,
    {
        Ok(())
    }

    fn load_pending(&self, client_id: &str) -> (r: Result<Vec<PublishPacket>, StorageError>)
        ensures
            r matches Ok(messages) && messages@.len() == 0,
    {
        Ok(Vec::new())
    }

    fn clear_pending(&self, client_id: &str) -> (r: Result<(), StorageError>)
        ensures
            r is Ok,
    {
        Ok(())
    }
}

} // verus!
