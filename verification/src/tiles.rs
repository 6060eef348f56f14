//! Index bookkeeping for the tiled Model layout: which tile stays active
//! once one tile has been closed and removed from the list.

use vstd::prelude::*;

verus! {

/// Where the tile at index `i` stands once the tile at `removed` has been
/// taken out of the list (the tiles behind it move up by one).
pub open spec fn index_after_removal(i: int, removed: int) -> int {
    if i > removed {
        i - 1
    } else {
        i
    }
}

/// The active tile after closing the tile at `idx`.
///
/// `absorbed_by` is the neighbour that took over the closed tile's area, if
/// one did; `remaining` is the number of tiles left after the removal. When
/// the active tile itself was closed, its absorbing neighbour becomes
/// active; otherwise the active tile keeps its identity under the new
/// indices. The result is clamped to the last remaining tile.
pub open spec fn spec_active_after_close(
    active: int,
    idx: int,
    absorbed_by: Option<int>,
    remaining: int,
) -> int {
    let moved = match absorbed_by {
        Some(nbr) => if active == idx {
            index_after_removal(nbr, idx)
        } else {
            index_after_removal(active, idx)
        },
        None => index_after_removal(active, idx),
    };
    let last = if remaining > 0 {
        remaining - 1
    } else {
        0
    };
    if moved < last {
        moved
    } else {
        last
    }
}

/// Re-indexes the active tile after the tile at `idx` was closed; see
/// [`spec_active_after_close`].
pub fn active_after_close(
    active: usize,
    idx: usize,
    absorbed_by: Option<usize>,
    remaining: usize,
) -> (r: usize)
    ensures
        r == spec_active_after_close(
            active as int,
            idx as int,
            match absorbed_by {
                Some(n) => Some(n as int),
                None => None,
            },
            remaining as int,
        ),
        remaining > 0 ==> r < remaining,
        remaining == 0 ==> r == 0,
        match absorbed_by {
            Some(j) => active == idx && j != idx && j <= remaining && idx <= remaining ==> r as int
                == if j > idx {
                j - 1
            } else {
                j as int
            },
            None => true,
        },
        active != idx && active <= remaining && idx <= remaining ==> r as int == if active > idx {
            active - 1
        } else {
            active as int
        },
{
    let moved: usize = match absorbed_by {
        Some(nbr) => if active == idx {
            if nbr > idx {
                nbr - 1
            } else {
                nbr
            }
        } else if active > idx {
            active - 1
        } else {
            active
        },
        None => if active > idx {
            active - 1
        } else {
            active
        },
    };
    let last: usize = if remaining > 0 {
        remaining - 1
    } else {
        0
    };
    if moved < last {
        moved
    } else {
        last
    }
}

/// Closing a tile other than the active one, with tiles left over, never
/// changes which tile is active: the active tile's new index names the same
/// tile it named before the removal.
pub proof fn lemma_other_active_survives_close(
    active: int,
    idx: int,
    absorbed_by: Option<int>,
    remaining: int,
)
    requires
        0 <= active,
        0 <= idx,
        active != idx,
        active <= remaining,
        idx <= remaining,
    ensures
        spec_active_after_close(active, idx, absorbed_by, remaining) == if active > idx {
            active - 1
        } else {
            active
        },
{
}

/// Closing the active tile hands the focus to the neighbour that absorbed
/// it: the new active index names that neighbour once the closed tile is
/// gone, one place lower when it stood behind the closed tile.
pub proof fn lemma_closed_active_goes_to_absorber(idx: int, nbr: int, remaining: int)
    requires
        0 <= idx <= remaining,
        0 <= nbr <= remaining,
        nbr != idx,
    ensures
        spec_active_after_close(idx, idx, Some(nbr), remaining) == if nbr > idx {
            nbr - 1
        } else {
            nbr
        },
{
}

} // verus!
