//! Pagination and selection: the active view's entries are cut into fixed-size
//! pages, a 1-based page number and a 0-based selection cursor move over them,
//! and both wrap around the ends.

use vstd::prelude::*;
use vstd::arithmetic::div_mod::{lemma_fundamental_div_mod, lemma_mod_add_multiples_vanish, lemma_mod_bound, lemma_small_mod};
use vstd::arithmetic::mul::lemma_mul_inequality;

verus! {

/// How many pages `n` entries make at `page_size` entries a page: zero for an
/// empty list, otherwise the quotient rounded up.
pub open spec fn spec_page_count(n: int, page_size: int) -> int {
    if n <= 0 {
        0
    } else {
        (n - 1) / page_size + 1
    }
}

/// Index into the entry list where the page numbered `value` (1-based) begins.
pub open spec fn spec_page_start(value: int, page_size: int) -> int {
    (value - 1) * page_size
}

/// Number of entries on page `value` of an `n`-entry list.
pub open spec fn spec_page_len(n: int, page_size: int, value: int) -> int {
    let start = spec_page_start(value, page_size);
    if 0 <= start < n {
        if start + page_size <= n {
            page_size
        } else {
            n - start
        }
    } else {
        0
    }
}

/// The entries shown on page `value` of the list `s`.
pub open spec fn spec_page_contents(s: Seq<String>, page_size: int, value: int) -> Seq<String> {
    let start = spec_page_start(value, page_size);
    if 0 <= start < s.len() {
        s.subrange(start, start + spec_page_len(s.len() as int, page_size, value))
    } else {
        Seq::empty()
    }
}

/// A page of an `n`-entry list never starts at or beyond `n`, so pages in
/// range hold at least one entry.
proof fn lemma_page_start_bound(n: int, page_size: int, value: int)
    requires
        1 <= page_size,
        1 <= n,
        1 <= value <= spec_page_count(n, page_size),
    ensures
        spec_page_start(value, page_size) <= n - 1,
        1 <= spec_page_len(n, page_size, value),
{
    let q = (n - 1) / page_size;
    lemma_fundamental_div_mod(n - 1, page_size);
    lemma_mul_inequality(value - 1, q, page_size);
    assert(q * page_size <= n - 1);
}

/// For a non-empty list the page count is the rounded-up quotient: enough
/// pages to hold every entry, and none to spare.
pub proof fn lemma_page_count_is_ceiling(n: int, page_size: int)
    requires
        1 <= page_size,
        1 <= n,
    ensures
        1 <= spec_page_count(n, page_size),
        spec_page_count(n, page_size) * page_size >= n,
        (spec_page_count(n, page_size) - 1) * page_size < n,
{
    lemma_fundamental_div_mod(n - 1, page_size);
    lemma_mod_bound(n - 1, page_size);
    let q = (n - 1) / page_size;
    assert(n - 1 == page_size * q + (n - 1) % page_size);
    assert((q + 1) * page_size == page_size * q + page_size) by (nonlinear_arith);
    assert((q + 1) * page_size >= n);
    assert(q * page_size == page_size * q) by (nonlinear_arith);
    assert(q * page_size < n);
}

/// A page number in range always shows at least one entry of a non-empty
/// list.
pub proof fn lemma_page_len_positive(n: int, page_size: int, value: int)
    requires
        1 <= page_size,
        1 <= n,
        1 <= value <= spec_page_count(n, page_size),
    ensures
        1 <= spec_page_len(n, page_size, value),
{
    lemma_page_start_bound(n, page_size, value);
}

/// The page count never exceeds the entry count.
proof fn lemma_page_count_le(n: int, page_size: int)
    requires
        1 <= page_size,
        0 <= n,
    ensures
        spec_page_count(n, page_size) <= n,
{
    if n > 0 {
        lemma_fundamental_div_mod(n - 1, page_size);
        let q = (n - 1) / page_size;
        assert(q <= q * page_size) by (nonlinear_arith)
            requires 0 <= q, 1 <= page_size;
    }
}

/// The cursor state fits an `n`-entry list at `page_size`: the page number
/// is in range and the selection points at a row of its page.
pub open spec fn ui_wf(ui: UserInterface, n: int, page_size: int) -> bool {
    &&& 1 <= ui.page.value
    &&& n > 0 ==> ui.page.value <= spec_page_count(n, page_size)
    &&& 0 <= ui.selected
    &&& spec_page_len(n, page_size, ui.page.value as int) > 0 ==> ui.selected < spec_page_len(
        n,
        page_size,
        ui.page.value as int,
    )
}

/// How one selection step in `direction` relates the cursor after
/// (`post`) to the cursor before (`pre`) over an `n`-entry list: within the
/// page the selection moves one row; wrapping past the last row turns one
/// page forward onto row 0; wrapping past the first row turns one page back
/// onto that page's last row; an empty page changes nothing.
pub open spec fn moved_selection(
    pre: UserInterface,
    post: UserInterface,
    n: int,
    page_size: int,
    direction: int,
) -> bool {
    let s = spec_page_len(n, page_size, pre.page.value as int);
    &&& (s == 0 ==> post == pre)
    &&& (s > 0 && direction == 1 && pre.selected + 1 < s ==> post.page == pre.page
        && post.selected == pre.selected + 1)
    &&& (s > 0 && direction == 1 && pre.selected + 1 == s ==> post.selected == 0
        && post.page.value - 1 == (pre.page.value - 1 + 1) % spec_page_count(n, page_size))
    &&& (s > 0 && direction == -1 && pre.selected > 0 ==> post.page == pre.page && post.selected
        == pre.selected - 1)
    &&& (s > 0 && direction == -1 && pre.selected == 0 ==> post.page.value - 1 == (pre.page.value
        - 1 - 1) % spec_page_count(n, page_size) && post.selected == spec_page_len(
        n,
        page_size,
        post.page.value as int,
    ) - 1)
}

/// Where the selection stands after its page lost one entry: one row up when
/// it sat on the row that no longer exists, unchanged otherwise.
pub open spec fn retained_selection(selected: int, page_len: int) -> int {
    if selected == page_len - 1 {
        selected - 1
    } else {
        selected
    }
}

/// The 1-based page number over the active view's entries.
#[derive(Clone, Copy, Debug, PartialEq, Eq, Structural)]
pub struct Page {
    pub value: i32,
}

impl Page {
    pub fn new() -> (r: Page)
        ensures
            r.value == 1,
    {
        Page { value: 1 }
    }

    /// The entries of `commands` that fall on this page: the empty list when
    /// the page number runs past the last page.
    pub fn contents(&self, commands: &Vec<String>, page_size: usize) -> (r: Vec<String>)
        requires
            1 <= page_size <= 0x7fff_ffff,
            commands@.len() <= 0x7fff_ffff,
            1 <= self.value,
        ensures
            r@ == spec_page_contents(commands@, page_size as int, self.value as int),
    {
        let n = commands.len();
        let ghost gn = n as int;
        let ghost gps = page_size as int;
        let ghost gv = self.value as int;
        let pages = total_page_count(commands, page_size);
        if self.value > pages {
            proof {
                if gn > 0 && spec_page_start(gv, gps) <= gn - 1 {
                    // a start inside the list would mean the page number is in range
                    lemma_fundamental_div_mod(gn - 1, gps);
                    assert((gv - 1) * gps <= gn - 1);
                    assert(gv - 1 <= (gn - 1) / gps) by (nonlinear_arith)
                        requires (gv - 1) * gps <= gn - 1, 1 <= gps, 0 <= gv - 1;
                }
                assert(spec_page_len(gn, gps, gv) == 0);
                assert(spec_page_contents(commands@, gps, gv) =~= Seq::<String>::empty());
            }
            return Vec::new();
        }
        proof {
            lemma_page_start_bound(gn, gps, gv);
        }
        let start: usize = (self.value as usize - 1) * page_size;
        let len: usize = if n - start < page_size {
            n - start
        } else {
            page_size
        };
        let mut r: Vec<String> = Vec::new();
        let mut k: usize = 0;
        while k < len
            invariant
                0 <= k <= len,
                start + len <= n <= commands@.len(),
                start == spec_page_start(gv, gps),
                len == spec_page_len(gn, gps, gv),
                n == gn,
                r@ == commands@.subrange(start as int, start as int + k as int),
            decreases len - k,
        {
            r.push(commands[start + k].clone());
            proof {
                assert(r@ =~= commands@.subrange(start as int, start as int + k as int + 1));
            }
            k += 1;
        }
        proof {
            assert(r@ =~= spec_page_contents(commands@, gps, gv));
        }
        r
    }

    /// How many entries this page holds.
    pub fn size(&self, commands: &Vec<String>, page_size: usize) -> (r: i32)
        requires
            1 <= page_size <= 0x7fff_ffff,
            commands@.len() <= 0x7fff_ffff,
            1 <= self.value,
        ensures
            r == spec_page_len(commands@.len() as int, page_size as int, self.value as int),
    {
        let c = self.contents(commands, page_size);
        proof {
            assert(c@.len() <= page_size);
        }
        c.len() as i32
    }

    /// The entry at `index` on this page; the index must point at one.
    pub fn selected(&self, commands: &Vec<String>, page_size: usize, index: i32) -> (r: String)
        requires
            1 <= page_size <= 0x7fff_ffff,
            commands@.len() <= 0x7fff_ffff,
            1 <= self.value,
            0 <= index < spec_page_len(commands@.len() as int, page_size as int, self.value as int),
        ensures
            r == commands@[spec_page_start(self.value as int, page_size as int) + index],
    {
        let c = self.contents(commands, page_size);
        c[index as usize].clone()
    }
}

/// Page count of `commands` at `page_size`, as the renderer reports it:
/// zero when the list is empty.
pub fn total_page_count(commands: &Vec<String>, page_size: usize) -> (r: i32)
    requires
        1 <= page_size,
        commands@.len() <= 0x7fff_ffff,
    ensures
        r == spec_page_count(commands@.len() as int, page_size as int),
{
    let n = commands.len();
    if n == 0 {
        0
    } else {
        proof {
            lemma_page_count_le(n as int, page_size as int);
        }
        (((n - 1) / page_size) + 1) as i32
    }
}

/// The selection cursor over the paged entries: which page is shown and which
/// row on it is selected.
#[derive(Clone, Copy, Debug, PartialEq, Eq, Structural)]
pub struct UserInterface {
    pub page: Page,
    pub selected: i32,
}

impl UserInterface {
    pub fn new() -> (r: UserInterface)
        ensures
            r.page.value == 1,
            r.selected == 0,
    {
        UserInterface { page: Page::new(), selected: 0 }
    }

    /// Same count as [`total_page_count`], kept as a method for the renderer.
    pub fn total_pages(&self, commands: &Vec<String>, page_size: usize) -> (r: i32)
        requires
            1 <= page_size,
            commands@.len() <= 0x7fff_ffff,
        ensures
            r == spec_page_count(commands@.len() as int, page_size as int),
    {
        total_page_count(commands, page_size)
    }

    /// Step to the next or previous page, wrapping around the ends; an empty
    /// list resets to page 1.
    pub fn turn_page(&mut self, commands: &Vec<String>, page_size: usize, direction: i32)
        requires
            1 <= page_size <= 0x7fff_ffff,
            commands@.len() <= 0x7fff_ffff,
            direction == 1 || direction == -1,
            1 <= old(self).page.value,
            commands@.len() > 0 ==> old(self).page.value
                <= spec_page_count(commands@.len() as int, page_size as int),
        ensures
            final(self).selected == old(self).selected,
            commands@.len() == 0 ==> final(self).page.value == 1,
            commands@.len() > 0 ==> final(self).page.value - 1 == (old(self).page.value - 1
                + direction) % spec_page_count(commands@.len() as int, page_size as int),
            commands@.len() > 0 ==> 1 <= final(self).page.value
                <= spec_page_count(commands@.len() as int, page_size as int),
    {
        let pages = total_page_count(commands, page_size);
        if pages == 0 {
            self.page.value = 1;
            return;
        }
        let idx0 = self.page.value - 1;
        let ghost gp = pages as int;
        if direction == 1 {
            if idx0 + 1 == pages {
                self.page.value = 1;
                proof {
                    assert((gp) % gp == 0) by {
                        lemma_mod_add_multiples_vanish(0, gp);
                        lemma_small_mod(0, gp as nat);
                    }
                }
            } else {
                self.page.value = idx0 + 2;
                proof {
                    lemma_small_mod((idx0 + 1) as nat, gp as nat);
                }
            }
        } else {
            if idx0 == 0 {
                self.page.value = pages;
                proof {
                    lemma_mod_add_multiples_vanish(-1, gp);
                    lemma_small_mod((gp - 1) as nat, gp as nat);
                }
            } else {
                self.page.value = idx0;
                proof {
                    lemma_small_mod((idx0 - 1) as nat, gp as nat);
                }
            }
        }
    }

    /// Move the selection one row up or down. Wrapping past the last row turns
    /// one page forward and selects its first row; wrapping past the first row
    /// turns one page back and selects its last row. An empty page leaves
    /// everything as it is.
    pub fn move_selected(&mut self, commands: &Vec<String>, page_size: usize, direction: i32)
        requires
            1 <= page_size <= 0x7fff_ffff,
            commands@.len() <= 0x7fff_ffff,
            direction == 1 || direction == -1,
            1 <= old(self).page.value,
            commands@.len() > 0 ==> old(self).page.value
                <= spec_page_count(commands@.len() as int, page_size as int),
            0 <= old(self).selected,
            spec_page_len(commands@.len() as int, page_size as int, old(self).page.value as int)
                > 0 ==> old(self).selected < spec_page_len(commands@.len() as int,
                page_size as int, old(self).page.value as int),
        ensures
            moved_selection(*old(self), *final(self), commands@.len() as int, page_size as int,
                direction as int),
    {
        let s = self.page.size(commands, page_size);
        if s == 0 {
            return;
        }
        proof {
            if commands@.len() == 0 {
                assert(spec_page_len(commands@.len() as int, page_size as int, self.page.value as int) == 0);
            }
        }
        if direction == 1 {
            if self.selected + 1 == s {
                self.selected = 0;
                self.turn_page(commands, page_size, 1);
            } else {
                self.selected = self.selected + 1;
            }
        } else {
            if self.selected == 0 {
                self.turn_page(commands, page_size, -1);
                proof {
                    lemma_page_start_bound(commands@.len() as int, page_size as int, self.page.value as int);
                }
                let s2 = self.page.size(commands, page_size);
                self.selected = s2 - 1;
            } else {
                self.selected = self.selected - 1;
            }
        }
    }

    /// After the current page lost one entry, pull the cursor off the row that
    /// no longer exists: called with the page size from before the removal.
    pub fn retain_selected(&mut self, commands: &Vec<String>, page_size: usize)
        requires
            1 <= page_size <= 0x7fff_ffff,
            commands@.len() <= 0x7fff_ffff,
            1 <= old(self).page.value,
            old(self).selected > i32::MIN,
        ensures
            final(self).page == old(self).page,
            final(self).selected as int == retained_selection(old(self).selected as int,
                spec_page_len(commands@.len() as int, page_size as int,
                old(self).page.value as int)),
    {
        let s = self.page.size(commands, page_size);
        if self.selected == s - 1 {
            self.selected = self.selected - 1;
        }
    }

    /// Pull the cursor into the valid range for the current entry count and
    /// page size, as a terminal resize requires: the page number is clamped
    /// into the page range and the selection onto its page; a cursor that
    /// already fits does not move.
    pub fn clamp_cursor(&mut self, commands: &Vec<String>, page_size: usize)
        requires
            1 <= page_size <= 0x7fff_ffff,
            commands@.len() <= 0x7fff_ffff,
        ensures
            ({
                let n = commands@.len() as int;
                let ps = page_size as int;
                let pc = spec_page_count(n, ps);
                let page = if old(self).page.value < 1 {
                    1
                } else if pc > 0 && old(self).page.value > pc {
                    pc
                } else {
                    old(self).page.value as int
                };
                let s = spec_page_len(n, ps, page);
                &&& final(self).page.value as int == page
                &&& final(self).selected as int == if old(self).selected < 0 {
                    0
                } else if s > 0 && old(self).selected >= s {
                    s - 1
                } else {
                    old(self).selected as int
                }
            }),
            ui_wf(*final(self), commands@.len() as int, page_size as int),
    {
        let pages = total_page_count(commands, page_size);
        if self.page.value < 1 {
            self.page.value = 1;
        } else if pages > 0 && self.page.value > pages {
            self.page.value = pages;
        }
        let s = self.page.size(commands, page_size);
        if self.selected < 0 {
            self.selected = 0;
        } else if s > 0 && self.selected >= s {
            self.selected = s - 1;
        }
    }

    /// The entry under the cursor, or nothing when the cursor points past the
    /// current page's entries.
    pub fn selected_entry(&self, commands: &Vec<String>, page_size: usize) -> (r: Option<String>)
        requires
            1 <= page_size <= 0x7fff_ffff,
            commands@.len() <= 0x7fff_ffff,
            1 <= self.page.value,
        ensures
            ({
                let s = spec_page_len(commands@.len() as int, page_size as int,
                    self.page.value as int);
                &&& (r is Some <==> 0 <= self.selected < s)
                &&& (r is Some ==> r->Some_0 == commands@[spec_page_start(self.page.value as int,
                    page_size as int) + self.selected])
            }),
    {
        let s = self.page.size(commands, page_size);
        if 0 <= self.selected && self.selected < s {
            Some(self.page.selected(commands, page_size, self.selected))
        } else {
            None
        }
    }
}

} // verus!
