//! A small user and group registry: records kept in keyed trees, the rules
//! that create, read, change and remove them, and the request handlers that
//! apply those rules to a session.

pub mod crud;
pub mod ids;
pub mod password;
pub mod users;
