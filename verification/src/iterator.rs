//! Iterator modes and the small integer codes under which the host passes
//! them: `0` starts at the beginning, `1` at the end, `2` at a given key with
//! a direction code of `0` (forward) or `1` (reverse).

use vstd::prelude::*;

use crate::StorageError;

verus! {

/// The direction an iterator walks in.
#[derive(Clone, Copy, Debug, PartialEq, Eq, Structural)]
pub enum Direction {
    Forward,
    Reverse,
}

/// Where iteration begins and which way it runs.
#[derive(Debug)]
pub enum IterMode {
    /// All entries in ascending key order.
    Start,
    /// All entries in descending key order.
    End,
    /// Entries from the given key on, in the given direction: ascending from
    /// the first key not below it, or descending from the last key not above
    /// it.
    From(Vec<u8>, Direction),
}

/// The integer code for the `Start` mode.
pub const ITER_MODE_START: i32 = 0;

/// The integer code for the `End` mode.
pub const ITER_MODE_END: i32 = 1;

/// The integer code for the `From` mode.
pub const ITER_MODE_FROM: i32 = 2;

/// The integer code for the forward direction.
pub const ITER_DIRECTION_FORWARD: i32 = 0;

/// The integer code for the reverse direction.
pub const ITER_DIRECTION_REVERSE: i32 = 1;

/// Resolves the starting key the host supplied: an absent key is allowed —
/// and stands for the empty key — in every mode except `From`, which cannot
/// do without one.
pub fn parse_starting_key(mode: i32, starting_key: Option<&Vec<u8>>) -> (r: Result<
    Vec<u8>,
    StorageError,
>)
    ensures
        r is Err <==> starting_key is None && mode == ITER_MODE_FROM,
        r is Err ==> r.unwrap_err() == StorageError::InvalidArgument,
        r is Ok && starting_key is Some ==> r.unwrap()@ == starting_key.unwrap()@,
        r is Ok && starting_key is None ==> r.unwrap()@ == Seq::<u8>::empty(),
{
    match starting_key {
        None => {
            if mode == ITER_MODE_FROM {
                Err(StorageError::InvalidArgument)
            } else {
                let r: Vec<u8> = Vec::new();
                proof {
                    assert(r@ =~= Seq::<u8>::empty());
                }
                Ok(r)
            }
        },
        Some(key) => Ok(crate::bytes::dup_bytes(key)),
    }
}

/// Decodes the integer mode and direction codes into an iterator mode;
/// an unknown mode or direction code is rejected.
pub fn parse_iterator_mode(mode: i32, starting_key: &Vec<u8>, direction: i32) -> (r: Result<
    IterMode,
    StorageError,
>)
    ensures
        mode == ITER_MODE_START ==> r == Ok::<IterMode, StorageError>(IterMode::Start),
        mode == ITER_MODE_END ==> r == Ok::<IterMode, StorageError>(IterMode::End),
        mode == ITER_MODE_FROM && direction == ITER_DIRECTION_FORWARD ==> r is Ok
            && (r.unwrap() matches IterMode::From(k, d) && k@ == starting_key@ && d
            == Direction::Forward),
        mode == ITER_MODE_FROM && direction == ITER_DIRECTION_REVERSE ==> r is Ok
            && (r.unwrap() matches IterMode::From(k, d) && k@ == starting_key@ && d
            == Direction::Reverse),
        r is Err <==> !(mode == ITER_MODE_START || mode == ITER_MODE_END || (mode == ITER_MODE_FROM
            && (direction == ITER_DIRECTION_FORWARD || direction == ITER_DIRECTION_REVERSE))),
        r is Err ==> r.unwrap_err() == StorageError::InvalidArgument,
{
    if mode == ITER_MODE_START {
        Ok(IterMode::Start)
    } else if mode == ITER_MODE_END {
        Ok(IterMode::End)
    } else if mode == ITER_MODE_FROM {
        if direction == ITER_DIRECTION_FORWARD {
            Ok(IterMode::From(crate::bytes::dup_bytes(starting_key), Direction::Forward))
        } else if direction == ITER_DIRECTION_REVERSE {
            Ok(IterMode::From(crate::bytes::dup_bytes(starting_key), Direction::Reverse))
        } else {
            Err(StorageError::InvalidArgument)
        }
    } else {
        Err(StorageError::InvalidArgument)
    }
}

} // verus!
