use vstd::prelude::*;

verus! {

use vstd::string::StringSliceAdditionalSpecFns;
use crate::file_format::{eq_ignore_case, str_eq_ignore_ascii_case};

// The table option keys a CREATE TABLE statement accepts.

/// The option key, compared case-insensitively, is one of the accepted
/// CREATE TABLE option names.
pub open spec fn create_opt_ok(s: Seq<u8>) -> bool {
    ||| eq_ignore_case(s, "row_per_page".spec_bytes())
    ||| eq_ignore_case(s, "block_per_segment".spec_bytes())
    ||| eq_ignore_case(s, "row_per_block".spec_bytes())
    ||| eq_ignore_case(s, "block_size_threshold".spec_bytes())
    ||| eq_ignore_case(s, "row_avg_depth_threshold".spec_bytes())
    ||| eq_ignore_case(s, "bloom_index_columns".spec_bytes())
    ||| eq_ignore_case(s, "compression".spec_bytes())
    ||| eq_ignore_case(s, "storage_format".spec_bytes())
    ||| eq_ignore_case(s, "database_id".spec_bytes())
    ||| eq_ignore_case(s, "comment".spec_bytes())
    ||| eq_ignore_case(s, "change_tracking".spec_bytes())
    ||| eq_ignore_case(s, "engine".spec_bytes())
    ||| eq_ignore_case(s, "location".spec_bytes())
    ||| eq_ignore_case(s, "connection_name".spec_bytes())
    ||| eq_ignore_case(s, "random_seed".spec_bytes())
    ||| eq_ignore_case(s, "transient".spec_bytes())
}

/// Whether a table option key may occur in a CREATE TABLE statement.
pub fn is_valid_create_opt(opt_key: &str) -> (r: bool)
    ensures
        r == create_opt_ok(opt_key.spec_bytes()),
{
    str_eq_ignore_ascii_case(opt_key, "row_per_page") || str_eq_ignore_ascii_case(
        opt_key,
        "block_per_segment",
    ) || str_eq_ignore_ascii_case(opt_key, "row_per_block") || str_eq_ignore_ascii_case(
        opt_key,
        "block_size_threshold",
    ) || str_eq_ignore_ascii_case(opt_key, "row_avg_depth_threshold") || str_eq_ignore_ascii_case(
        opt_key,
        "bloom_index_columns",
    ) || str_eq_ignore_ascii_case(opt_key, "compression") || str_eq_ignore_ascii_case(
        opt_key,
        "storage_format",
    ) || str_eq_ignore_ascii_case(opt_key, "database_id") || str_eq_ignore_ascii_case(
        opt_key,
        "comment",
    ) || str_eq_ignore_ascii_case(opt_key, "change_tracking") || str_eq_ignore_ascii_case(
        opt_key,
        "engine",
    ) || str_eq_ignore_ascii_case(opt_key, "location") || str_eq_ignore_ascii_case(
        opt_key,
        "connection_name",
    ) || str_eq_ignore_ascii_case(opt_key, "random_seed") || str_eq_ignore_ascii_case(
        opt_key,
        "transient",
    )
}

} // verus!
