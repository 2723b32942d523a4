//! The cursor in a list.

use vstd::prelude::*;

verus! {

/// Where a cursor goes when it is moved: it stays within the list, and does
/// not move in an empty one.
pub open spec fn moved(selected: int, delta: int, len: int) -> int {
    if len <= 0 {
        selected
    } else if selected + delta < 0 {
        0
    } else if selected + delta > len - 1 {
        len - 1
    } else {
        selected + delta
    }
}

pub fn move_cursor(selected: usize, delta: i64, len: usize) -> (r: usize)
    ensures
        r == moved(selected as int, delta as int, len as int),
{
    if len == 0 {
        return selected;
    }
    let to: i128 = selected as i128 + delta as i128;
    let last: i128 = len as i128 - 1;
    if to < 0 {
        0
    } else if to > last {
        len - 1
    } else {
        to as usize
    }
}

/// The cursor kept within a list of the given length.
pub open spec fn kept_within(selected: int, len: int) -> int {
    if len <= 0 {
        0
    } else if selected > len - 1 {
        len - 1
    } else {
        selected
    }
}

pub fn keep_cursor(selected: usize, len: usize) -> (r: usize)
    ensures
        r == kept_within(selected as int, len as int),
{
    if len == 0 {
        0
    } else if selected > len - 1 {
        len - 1
    } else {
        selected
    }
}

/// A cursor within a list stays within it.
pub proof fn moving_stays_within(selected: int, delta: int, len: int)
    requires
        0 <= selected < len,
    ensures
        0 <= moved(selected, delta, len) < len,
        moved(selected, 0, len) == selected,
{
}

} // verus!
