//! SQL front-end core of a columnar pre-aggregation store: typed value
//! parsing, column-type mapping, statement dispatch over a metadata model,
//! job-completion tracking, and the remote-filesystem mirror contract.

pub mod dialect;
pub mod error;
pub mod table;
pub mod jobs;
pub mod metastore;
pub mod numbers;
pub mod typemap;
pub mod remote;
pub mod service;
pub mod statement;
pub mod values;
pub mod workbench;
