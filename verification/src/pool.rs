//! Handing out database connections.
use vstd::prelude::*;
use crate::error::IndexingError;

verus! {

/// The outcome of checking a connection out of the MySQL pool: the connection, or the
/// pool's error with its message.
pub fn get_mysql_pool<C>(checkout: Result<C, String>) -> (res: Result<C, IndexingError>)
    ensures
        match checkout {
            Ok(conn) => res == Ok::<C, IndexingError>(conn),
            Err(message) => res == Err::<C, IndexingError>(IndexingError::ConnectionPool(message)),
        },
{
    match checkout {
        Ok(conn) => Ok(conn),
        Err(message) => Err(IndexingError::ConnectionPool(message)),
    }
}

} // verus!
