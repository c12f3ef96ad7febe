//! Core logic of the League of Legends esports API server: the error
//! responses it sends, the tournament calendar rules, the selection of
//! tournaments for the tournament endpoints, and the DynamoDB requests
//! that each service issues.

pub mod dates;
pub mod json;
pub mod error;
pub mod tournament;
pub mod selection;
pub mod requests;
