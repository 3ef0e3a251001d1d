//! Which page of the display is shown.
use vstd::prelude::*;

verus! {

/// The page that is shown, counted from 1, and the number of pages.
#[derive(Clone, Copy, Debug, PartialEq, Eq, Structural)]
pub struct Page {
    pub current_page: isize,
    pub num_pages: usize,
}

/// The page reached from `current` by `movement` pages: never before the first page
/// and never after the last, and the last where there is no page at all.
pub open spec fn turned(current: int, movement: int, num_pages: int) -> int {
    let moved = current + movement;
    let raised = if moved < 1 {
        1
    } else {
        moved
    };
    if raised > num_pages {
        num_pages
    } else {
        raised
    }
}

/// The movement that two keys ask for: one page forward for the one, one page back
/// for the other, none for both at once.
pub fn movement(forward: bool, back: bool) -> (pages: isize)
    ensures
        pages == (if forward {
            1int
        } else {
            0int
        }) - (if back {
            1int
        } else {
            0int
        }),
{
    let mut pages: isize = 0;
    if forward {
        pages = pages + 1;
    }
    if back {
        pages = pages - 1;
    }
    pages
}

impl Page {
    /// Turns the pages by `movement`, stopping at the first and at the last page.
    pub fn turn(&mut self, movement: isize)
        requires
            old(self).num_pages <= isize::MAX,
        ensures
            final(self).current_page == turned(
                old(self).current_page as int,
                movement as int,
                old(self).num_pages as int,
            ),
            final(self).num_pages == old(self).num_pages,
    {
        let moved = match self.current_page.checked_add(movement) {
            Some(moved) => moved,
            None => if movement > 0 {
                isize::MAX
            } else {
                isize::MIN
            },
        };
        let raised = if moved < 1 {
            1
        } else {
            moved
        };
        let last = self.num_pages as isize;
        self.current_page = if raised > last {
            last
        } else {
            raised
        };
    }
}

} // verus!
