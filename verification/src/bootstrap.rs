//! The decisions behind single-node bootstrap.
//!
//! A fresh node can seed itself: when it is alone and unconfigured it
//! assigns itself the only role, and it can create a default access key
//! and bucket from its environment. The checks deciding all that are here;
//! reading the environment and writing the tables is the caller's part.

use vstd::prelude::*;

use vstd::string::StringExecFns;

use crate::layout::NodeRole;
use crate::util::error::Error;

verus! {

/// Capacity assumed when the node cannot measure its data disk.
pub const DEFAULT_BOOTSTRAP_CAPACITY: u64 = 0x40000000;

/// What single-node initialisation must do.
pub enum InitAction {
    /// A layout exists already; change nothing.
    AlreadyInitialized,
    /// Create the initial layout with this role for the local node.
    CreateLayout(NodeRole),
}

/// Decide what single-node initialisation does, from what the node sees:
/// its configured replication factor, the committed layout version, whether
/// other nodes are known, and the measured size of its data disk.
///
/// Single-node mode demands replication factor one, refuses to touch a
/// cluster whose layout moved past its first version, and refuses to seed a
/// layout while other nodes are present; a fresh, lone node gets one role
/// in the default zone, sized by its disk.
pub fn single_node_init_plan(
    replication_factor: usize,
    layout_version: u64,
    other_nodes_present: bool,
    data_disk_total: Option<u64>,
) -> (r: Result<InitAction, Error>)
    ensures
        r is Ok <==> replication_factor == 1 && layout_version <= 1 && (layout_version == 1
            || !other_nodes_present),
        match r {
            Result::Ok(a) => match a {
                InitAction::AlreadyInitialized => layout_version == 1,
                InitAction::CreateLayout(role) => {
                    &&& layout_version == 0
                    &&& role@.zone == "dc1"@
                    &&& role@.capacity == Option::Some(
                        match data_disk_total {
                            Option::Some(t) => t,
                            Option::None => DEFAULT_BOOTSTRAP_CAPACITY,
                        },
                    )
                    &&& role@.tags.len() == 1
                    &&& role@.tags[0] == "default"@
                },
            },
            Result::Err(e) => e is BadRequest,
        },
{
    if replication_factor != 1 {
        return Result::Err(
            Error::BadRequest(
                String::from_str("Single-node mode requires replication factor one"),
            ),
        );
    }
    if layout_version > 1 {
        return Result::Err(
            Error::BadRequest(
                String::from_str("The cluster layout is already past its first version"),
            ),
        );
    }
    if layout_version == 1 {
        return Result::Ok(InitAction::AlreadyInitialized);
    }
    if other_nodes_present {
        return Result::Err(
            Error::BadRequest(String::from_str("Other nodes are already present in the cluster")),
        );
    }
    let capacity = match data_disk_total {
        Option::Some(t) => t,
        Option::None => DEFAULT_BOOTSTRAP_CAPACITY,
    };
    let mut tags: Vec<String> = Vec::new();
    tags.push(String::from_str("default"));
    let role = NodeRole {
        zone: String::from_str("dc1"),
        capacity: Option::Some(capacity),
        tags,
    };
    proof {
        assert(role@.tags =~= seq!["default"@]);
    }
    Result::Ok(InitAction::CreateLayout(role))
}

/// Decide whether an already-stored default access key may be reused: a
/// deleted key cannot come back, and the stored secret must match the
/// configured one.
pub fn check_existing_default_key(key_present: bool, key_deleted: bool, secret_matches: bool) -> (r:
    Result<bool, Error>)
    ensures
        match r {
            // true: reuse the stored key; false: create it
            Result::Ok(reuse) => reuse == key_present && (key_present ==> !key_deleted
                && secret_matches),
            Result::Err(e) => key_present && (key_deleted || !secret_matches) && e is BadRequest,
        },
{
    if !key_present {
        return Result::Ok(false);
    }
    if key_deleted {
        return Result::Err(
            Error::BadRequest(
                String::from_str("The default access key was deleted in the cluster"),
            ),
        );
    }
    if !secret_matches {
        return Result::Err(
            Error::BadRequest(
                String::from_str(
                    "The default access key exists with a different secret key",
                ),
            ),
        );
    }
    Result::Ok(true)
}

} // verus!
