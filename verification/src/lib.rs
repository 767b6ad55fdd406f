//! The execution core of an analytical SQL engine, verified: a dataflow
//! scheduler that drives a directed acyclic graph of stream processors over
//! single-slot ports to completion, failure or cancellation, together with
//! the metadata vocabulary around it — tenant-scoped key encoding for the
//! meta-service, catalog and database request types, file format options,
//! and share storage locations.

pub mod error;
pub mod processor;
pub mod graph;
pub mod tasks;
pub mod notify;
pub mod executor;
pub mod kv_key;
pub mod tenant;
pub mod tenant_key;
pub mod background_job_id_ident;
pub mod job_ident;
pub mod share_name_ident;
pub mod share_end_point_ident;
pub mod database_name_ident;
pub mod catalog_name_ident;
pub mod timestamp;
pub mod storage;
pub mod share_meta;
pub mod database;
pub mod catalog;
pub mod file_format;
pub mod user;
pub mod share_storage;
pub mod table_option;
