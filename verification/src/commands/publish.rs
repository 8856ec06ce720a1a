//! The decisions of remote publication: for each local commit, whether to
//! submit it or to skip it because the remote already holds an entry with
//! an equal or later sequence number. Skipping is a normal outcome, not an
//! error.

use vstd::prelude::*;
use crate::error::Error;
use crate::store::decode_entry_meta;
use crate::store::entry_meta_of;

verus! {

/// The remote's answer to a next-arguments query for one author and log.
#[derive(Debug, PartialEq)]
pub struct NextArguments {
    pub log_id: u64,
    pub seq_num: u64,
    pub skiplink: Option<String>,
    pub backlink: Option<String>,
}

/// What to do with one local commit.
#[derive(Debug, PartialEq, Eq, Structural)]
pub enum PublishStep {
    /// Submit the entry and operation to the remote.
    Publish,
    /// The remote is already past this entry: count it as skipped.
    Skip,
}

/// Decides one commit against the remote's answer: with no answer the
/// commit is submitted; a diverging log id is an inconsistency; a remote
/// sequence number strictly beyond the local one means the entry is
/// already published and is skipped; otherwise it is submitted.
pub fn publish_decision(local_log_id: u64, local_seq_num: u64, remote: &Option<NextArguments>)
    -> (r: Result<PublishStep, Error>)
    ensures
        match remote {
            Option::None => r == Ok::<PublishStep, Error>(PublishStep::Publish),
            Option::Some(args) => {
                if args.log_id != local_log_id {
                    r matches Err(e) && e matches Error::RemoteInconsistency {
                        local_log_id: l,
                        remote_log_id: m,
                    } && l == local_log_id && m == args.log_id
                } else if local_seq_num < args.seq_num {
                    r == Ok::<PublishStep, Error>(PublishStep::Skip)
                } else {
                    r == Ok::<PublishStep, Error>(PublishStep::Publish)
                }
            },
        },
{
    match remote {
        None => Ok(PublishStep::Publish),
        Some(args) => {
            if args.log_id != local_log_id {
                Err(
                    Error::RemoteInconsistency {
                        local_log_id,
                        remote_log_id: args.log_id,
                    },
                )
            } else if local_seq_num < args.seq_num {
                Ok(PublishStep::Skip)
            } else {
                Ok(PublishStep::Publish)
            }
        },
    }
}

/// Reads the public key, log id and sequence number out of a hex-encoded
/// signed entry, as the publish loop needs them for its queries.
pub fn local_entry_args(entry_hex: &String) -> (r: Result<(String, u64, u64), Error>)
    ensures
        match r {
            Ok(meta) => entry_meta_of(entry_hex@) == Some((meta.0@, meta.1, meta.2)),
            Err(e) => e matches Error::MalformedDocument { .. } && entry_meta_of(
                entry_hex@,
            ) is None,
        },
{
    match decode_entry_meta(entry_hex) {
        Ok(meta) => Ok(meta),
        Err(detail) => Err(Error::MalformedDocument { detail }),
    }
}

} // verus!
