//! Pagination and selection over the active candidate list, and the helpers
//! the rendering layer needs: display columns, cursor position, labels.

use vstd::prelude::*;
use vstd::view::View as _;
use vstd::string::StrSliceExecFns;
use vstd::string::StringExecFns;
use vstd::arithmetic::div_mod::{
    lemma_fundamental_div_mod,
    lemma_fundamental_div_mod_converse,
    lemma_small_mod,
};
use unicode_width::UnicodeWidthChar;
use crate::state::{push_char, Query, SearchMode, State, View};

verus! {

/// A navigation direction: one step forward or one step back.
#[derive(Clone, Copy, Debug, PartialEq, Eq, Structural)]
pub enum Direction {
    Forward,
    Backward,
}

/// How many pages a list of `len` entries fills at `cap` rows per page; an
/// empty list has no pages.
pub open spec fn total_pages_spec(len: int, cap: int) -> int {
    if len == 0 {
        0
    } else {
        (len - 1) / cap + 1
    }
}

/// Where a 1-based page starts in the list, clamped to its length.
pub open spec fn page_start(len: int, page: int, cap: int) -> int {
    if (page - 1) * cap > len {
        len
    } else {
        (page - 1) * cap
    }
}

/// Where a 1-based page ends in the list, clamped to its length.
pub open spec fn page_end(len: int, page: int, cap: int) -> int {
    if page * cap > len {
        len
    } else {
        page * cap
    }
}

/// The number of entries on a 1-based page.
pub open spec fn page_len(len: int, page: int, cap: int) -> int {
    page_end(len, page, cap) - page_start(len, page, cap)
}

/// The slice of the list a 1-based page shows; a page past the end is empty.
pub open spec fn page_slice(s: Seq<Seq<char>>, page: int, cap: int) -> Seq<Seq<char>> {
    s.subrange(page_start(s.len() as int, page, cap), page_end(s.len() as int, page, cap))
}

/// The page reached from `page` by one wraparound step: Euclidean remainder
/// over the page count, or the sentinel page 1 when there are no pages.
pub open spec fn turned_page(page: int, total: int, direction: Direction) -> int {
    if total == 0 {
        1
    } else {
        let delta = if direction == Direction::Forward {
            1int
        } else {
            -1int
        };
        ((page - 1 + delta) % total) + 1
    }
}

/// The page and highlighted row reached by one wraparound step of the
/// highlight.  On an empty page nothing moves.  Stepping forward past the
/// end of a page turns it and highlights its first row; stepping backward
/// past the start turns back and highlights the last row of the page landed
/// on.
pub open spec fn moved_highlighted(
    page: int,
    highlighted: int,
    len: int,
    cap: int,
    direction: Direction,
) -> (int, int) {
    let size = page_len(len, page, cap);
    let total = total_pages_spec(len, cap);
    if size == 0 {
        (page, highlighted)
    } else {
        let delta = if direction == Direction::Forward {
            1int
        } else {
            -1int
        };
        let h = (highlighted + delta) % size;
        if direction == Direction::Forward && h == 0 {
            (turned_page(page, total, Direction::Forward), 0)
        } else if direction == Direction::Backward && h == size - 1 {
            let p2 = turned_page(page, total, Direction::Backward);
            (p2, page_len(len, p2, cap) - 1)
        } else {
            (page, h)
        }
    }
}

/// The highlighted row kept valid when the highlighted entry is about to be
/// removed: step back one row when it is the last of its page.
pub open spec fn retained_highlighted(highlighted: int, size: int) -> int {
    if size >= 1 && highlighted == size - 1 {
        if highlighted > 0 {
            highlighted - 1
        } else {
            0
        }
    } else {
        highlighted
    }
}

proof fn lemma_mod_succ(a: int, m: int)
    requires
        m >= 1,
        a >= 0,
    ensures
        (a + 1) % m == if a % m == m - 1 {
            0int
        } else {
            a % m + 1
        },
{
    lemma_fundamental_div_mod(a, m);
    let q = a / m;
    let r = a % m;
    assert(m * q == q * m) by (nonlinear_arith);
    if r == m - 1 {
        assert((q + 1) * m == q * m + m) by (nonlinear_arith);
        lemma_fundamental_div_mod_converse(a + 1, m, q + 1, 0);
    } else {
        lemma_fundamental_div_mod_converse(a + 1, m, q, r + 1);
    }
}

proof fn lemma_mod_pred(a: int, m: int)
    requires
        m >= 1,
        a >= 0,
    ensures
        (a - 1) % m == if a % m == 0 {
            m - 1int
        } else {
            a % m - 1
        },
{
    lemma_fundamental_div_mod(a, m);
    let q = a / m;
    let r = a % m;
    assert(m * q == q * m) by (nonlinear_arith);
    if r == 0 {
        assert((q - 1) * m == q * m - m) by (nonlinear_arith);
        lemma_fundamental_div_mod_converse(a - 1, m, q - 1, m - 1);
    } else {
        lemma_fundamental_div_mod_converse(a - 1, m, q, r - 1);
    }
}

/// A page in range holds at least one entry, and a page holding an entry is
/// in range.
proof fn lemma_page_len_bounds(len: int, page: int, cap: int)
    requires
        cap >= 1,
        page >= 1,
        len >= 0,
    ensures
        0 <= page_len(len, page, cap) <= cap,
        page_len(len, page, cap) > 0 <==> page <= total_pages_spec(len, cap) && len > 0,
{
    let total = total_pages_spec(len, cap);
    assert((page - 1) * cap >= 0) by (nonlinear_arith)
        requires
            page >= 1,
            cap >= 1,
    ;
    assert(page * cap == (page - 1) * cap + cap) by (nonlinear_arith);
    if len > 0 {
        lemma_fundamental_div_mod(len - 1, cap);
        assert(total == (len - 1) / cap + 1);
        if page <= total {
            assert((page - 1) * cap <= (total - 1) * cap) by (nonlinear_arith)
                requires
                    page <= total,
                    cap >= 1,
            ;
            assert((total - 1) * cap == ((len - 1) / cap) * cap);
            assert(((len - 1) / cap) * cap <= len - 1) by {
                lemma_fundamental_div_mod(len - 1, cap);
            }
            assert((page - 1) * cap < len);
        }
        if page > total {
            assert((page - 1) * cap >= total * cap) by (nonlinear_arith)
                requires
                    page >= total + 1,
                    cap >= 1,
            ;
            assert(total * cap == ((len - 1) / cap) * cap + cap) by {
                let d = (len - 1) / cap;
                assert((d + 1) * cap == d * cap + cap) by (nonlinear_arith);
            }
            assert(((len - 1) / cap) * cap + cap >= len) by {
                lemma_fundamental_div_mod(len - 1, cap);
            }
            assert((page - 1) * cap >= len);
        }
    }
}

/// Turning with no pages always lands on page 1; with pages, one forward
/// step from the last page wraps to page 1 and one backward step from page 1
/// wraps to the last page, while every other step moves to the adjacent
/// page.
pub proof fn lemma_turn_page_wraparound(page: int, total: int)
    requires
        1 <= page <= total,
    ensures
        turned_page(page, total, Direction::Forward) == if page == total {
            1int
        } else {
            page + 1
        },
        turned_page(page, total, Direction::Backward) == if page == 1 {
            total
        } else {
            page - 1
        },
{
    if page == total {
        lemma_fundamental_div_mod_converse(page, total, 1, 0);
    } else {
        lemma_small_mod(page as nat, total as nat);
    }
    if page == 1 {
        lemma_fundamental_div_mod_converse(-1, total, -1, total - 1);
    } else {
        lemma_small_mod((page - 2) as nat, total as nat);
    }
}

/// Moving forward from the last row of a page in range steps to the next
/// page with the highlight on its first row; from the last row of the final
/// page it wraps around to row 0 of page 1.
pub proof fn lemma_move_forward_last_row(page: int, len: int, cap: int)
    requires
        cap >= 1,
        len > 0,
        1 <= page <= total_pages_spec(len, cap),
    ensures
        moved_highlighted(page, page_len(len, page, cap) - 1, len, cap, Direction::Forward) == (
            if page == total_pages_spec(len, cap) {
                1int
            } else {
                page + 1
            },
            0int,
        ),
{
    let size = page_len(len, page, cap);
    lemma_page_len_bounds(len, page, cap);
    assert(size >= 1);
    lemma_mod_succ(size - 1, size);
    assert((size - 1) % size == size - 1) by {
        lemma_small_mod((size - 1) as nat, size as nat);
    }
    assert((size - 1 + 1) % size == 0);
    lemma_turn_page_wraparound(page, total_pages_spec(len, cap));
}

/// The paginated cursor over the active candidate list: a 1-based page and
/// a 0-based highlighted row on that page.
pub struct UserInterface {
    pub page: usize,
    pub highlighted: usize,
}

impl UserInterface {
    pub fn new() -> (ui: UserInterface)
        ensures
            ui.page == 1,
            ui.highlighted == 0,
    {
        UserInterface { page: 1, highlighted: 0 }
    }

    pub fn set_page(&mut self, i: usize)
        requires
            i >= 1,
        ensures
            final(self).page == i,
            final(self).highlighted == old(self).highlighted,
    {
        self.page = i;
    }

    pub fn set_highlighted(&mut self, i: usize)
        ensures
            final(self).highlighted == i,
            final(self).page == old(self).page,
    {
        self.highlighted = i;
    }

    /// The number of pages the list fills at the given page capacity.
    pub fn total_pages(&self, commands: &Vec<String>, page_capacity: usize) -> (n: usize)
        requires
            page_capacity >= 1,
        ensures
            n == total_pages_spec(commands@.len() as int, page_capacity as int),
    {
        let len = commands.len();
        if len == 0 {
            0
        } else {
            (len - 1) / page_capacity + 1
        }
    }

    /// Where the current page starts and ends in the list.
    fn page_bounds(&self, commands: &Vec<String>, page_capacity: usize) -> (r: (usize, usize))
        requires
            self.page >= 1,
            page_capacity >= 1,
        ensures
            r.0 == page_start(commands@.len() as int, self.page as int, page_capacity as int),
            r.1 == page_end(commands@.len() as int, self.page as int, page_capacity as int),
            r.0 <= r.1 <= commands@.len(),
    {
        let len = commands.len();
        let start = match (self.page - 1).checked_mul(page_capacity) {
            Some(s) => if s > len {
                len
            } else {
                s
            },
            None => len,
        };
        let remaining = len - start;
        let take = if remaining < page_capacity {
            remaining
        } else {
            page_capacity
        };
        proof {
            let p = self.page as int;
            let c = page_capacity as int;
            let l = len as int;
            assert(p * c == (p - 1) * c + c) by (nonlinear_arith);
            assert((p - 1) * c >= 0) by (nonlinear_arith)
                requires
                    p >= 1,
                    c >= 1,
            ;
        }
        (start, start + take)
    }

    /// The number of entries on the current page.
    pub fn page_size(&self, commands: &Vec<String>, page_capacity: usize) -> (n: usize)
        requires
            self.page >= 1,
            page_capacity >= 1,
        ensures
            n == page_len(commands@.len() as int, self.page as int, page_capacity as int),
    {
        let (start, end) = self.page_bounds(commands, page_capacity);
        end - start
    }

    /// The entries of the current page, in order; a page past the end is
    /// empty.
    pub fn page_contents(&self, commands: &Vec<String>, page_capacity: usize) -> (r: Vec<String>)
        requires
            self.page >= 1,
            page_capacity >= 1,
        ensures
            r.deep_view() == page_slice(
                commands.deep_view(),
                self.page as int,
                page_capacity as int,
            ),
    {
        let (start, end) = self.page_bounds(commands, page_capacity);
        let mut out: Vec<String> = Vec::new();
        let mut i: usize = start;
        while i < end
            invariant
                start <= i <= end,
                end <= commands@.len(),
                commands@.len() == commands.deep_view().len(),
                out.deep_view() == commands.deep_view().subrange(start as int, i as int),
            decreases end - i,
        {
            let ghost old_out = out.deep_view();
            let item = commands[i].clone();
            out.push(item);
            proof {
                assert(out.deep_view() =~= old_out.push(commands.deep_view()[i as int]));
                assert(commands.deep_view().subrange(start as int, i + 1) =~= commands.deep_view()
                    .subrange(start as int, i as int).push(commands.deep_view()[i as int]));
            }
            i += 1;
        }
        proof {
            assert(commands@.len() == commands.deep_view().len());
        }
        out
    }

    /// The command at the highlighted row of the current page, if that row
    /// exists.
    pub fn selected(&self, commands: &Vec<String>, page_capacity: usize) -> (r: Option<String>)
        requires
            self.page >= 1,
            page_capacity >= 1,
        ensures
            ({
                let slice = page_slice(commands.deep_view(), self.page as int, page_capacity as int);
                match r {
                    Some(cmd) => self.highlighted < slice.len() && cmd@ == slice[
                        self.highlighted as int
                    ],
                    None => self.highlighted >= slice.len(),
                }
            }),
    {
        let page = self.page_contents(commands, page_capacity);
        if self.highlighted < page.len() {
            proof {
                assert(page.deep_view()[self.highlighted as int] == page@[
                    self.highlighted as int
                ]@);
            }
            Some(page[self.highlighted].clone())
        } else {
            None
        }
    }

    /// Turn one page with wraparound: past the last page back to page 1,
    /// before page 1 back to the last page.  With no pages the page is the
    /// sentinel 1.
    pub fn turn_page(&mut self, commands: &Vec<String>, page_capacity: usize, direction: Direction)
        requires
            old(self).page >= 1,
            page_capacity >= 1,
        ensures
            final(self).page == turned_page(
                old(self).page as int,
                total_pages_spec(commands@.len() as int, page_capacity as int),
                direction,
            ),
            commands@.len() == 0 ==> final(self).page == 1,
            final(self).page >= 1,
            final(self).highlighted == old(self).highlighted,
    {
        let total = self.total_pages(commands, page_capacity);
        if total == 0 {
            self.page = 1;
        } else {
            match direction {
                Direction::Forward => {
                    self.page = self.page % total + 1;
                },
                Direction::Backward => {
                    let a = self.page - 1;
                    let m = a % total;
                    proof {
                        lemma_mod_pred(a as int, total as int);
                    }
                    self.page = if m == 0 {
                        total
                    } else {
                        m
                    };
                },
            }
        }
    }

    /// Move the highlighted row one step with wraparound, turning the page
    /// when the step crosses a page boundary.
    pub fn move_highlighted(
        &mut self,
        commands: &Vec<String>,
        page_capacity: usize,
        direction: Direction,
    )
        requires
            old(self).page >= 1,
            page_capacity >= 1,
        ensures
            (final(self).page as int, final(self).highlighted as int) == moved_highlighted(
                old(self).page as int,
                old(self).highlighted as int,
                commands@.len() as int,
                page_capacity as int,
                direction,
            ),
            final(self).page >= 1,
    {
        let ghost len = commands@.len() as int;
        let size = self.page_size(commands, page_capacity);
        if size == 0 {
            return ;
        }
        let m = self.highlighted % size;
        match direction {
            Direction::Forward => {
                proof {
                    lemma_mod_succ(self.highlighted as int, size as int);
                }
                if m == size - 1 {
                    self.turn_page(commands, page_capacity, Direction::Forward);
                    self.highlighted = 0;
                } else {
                    self.highlighted = m + 1;
                }
            },
            Direction::Backward => {
                proof {
                    lemma_mod_pred(self.highlighted as int, size as int);
                }
                if m == 0 {
                    self.turn_page(commands, page_capacity, Direction::Backward);
                    proof {
                        lemma_page_len_bounds(len, old(self).page as int, page_capacity as int);
                        lemma_page_len_bounds(len, self.page as int, page_capacity as int);
                        let total = total_pages_spec(len, page_capacity as int);
                        if self.page as int > total {
                            let p0 = old(self).page as int;
                            assert((p0 - 1 - 1) % total < total);
                            assert(false);
                        }
                    }
                    let new_size = self.page_size(commands, page_capacity);
                    self.highlighted = new_size - 1;
                } else {
                    self.highlighted = m - 1;
                }
            },
        }
    }

    /// Keep the highlight on a valid row when the highlighted entry is about
    /// to be removed from the list: step back one row when it is the last of
    /// its page.
    pub fn retain_selected(&mut self, commands: &Vec<String>, page_capacity: usize)
        requires
            old(self).page >= 1,
            page_capacity >= 1,
        ensures
            final(self).highlighted as int == retained_highlighted(
                old(self).highlighted as int,
                page_len(commands@.len() as int, old(self).page as int, page_capacity as int),
            ),
            final(self).page == old(self).page,
    {
        let size = self.page_size(commands, page_capacity);
        if size >= 1 && self.highlighted == size - 1 {
            if self.highlighted > 0 {
                self.highlighted = self.highlighted - 1;
            }
        }
    }

    /// Alias kept for navigation keys: move the highlighted (selected) row.
    pub fn move_selected(
        &mut self,
        commands: &Vec<String>,
        page_capacity: usize,
        direction: Direction,
    )
        requires
            old(self).page >= 1,
            page_capacity >= 1,
        ensures
            (final(self).page as int, final(self).highlighted as int) == moved_highlighted(
                old(self).page as int,
                old(self).highlighted as int,
                commands@.len() as int,
                page_capacity as int,
                direction,
            ),
            final(self).page >= 1,
    {
        self.move_highlighted(commands, page_capacity, direction);
    }
}

/// The display width of a character, as the terminal layer renders it;
/// control characters count as zero columns.
pub uninterp spec fn char_width(c: char) -> nat;

/// Relies on `unicode_width::UnicodeWidthChar::width`: the display width of
/// a character, `None` for control characters; a pure function of the
/// character, and at most 3 columns (the width tables store 0, 1 or 2, and
/// their special cases go no higher than the one documented width-3 sign).
#[verifier::external_body]
fn display_width(c: char) -> (w: usize)
    ensures
        w == char_width(c),
        w <= 3,
{
    UnicodeWidthChar::width(c).unwrap_or(0)
}

/// The display width of the first `n` characters of a text.
pub open spec fn width_sum(s: Seq<char>, n: int) -> int
    decreases n,
{
    if n <= 0 {
        0
    } else {
        width_sum(s, n - 1) + char_width(s[n - 1])
    }
}

/// The UTF-8 encoded length of one character, by its code-point range.
pub open spec fn utf8_len(c: char) -> int {
    if (c as u32) < 0x80 {
        1
    } else if (c as u32) < 0x800 {
        2
    } else if (c as u32) < 0x10000 {
        3
    } else {
        4
    }
}

fn char_utf8_len(c: char) -> (n: usize)
    ensures
        n == utf8_len(c),
{
    let u = c as u32;
    if u < 0x80 {
        1
    } else if u < 0x800 {
        2
    } else if u < 0x10000 {
        3
    } else {
        4
    }
}

/// The UTF-8 byte offset of the first `n` characters of a text.
pub open spec fn byte_sum(s: Seq<char>, n: int) -> int
    decreases n,
{
    if n <= 0 {
        0
    } else {
        byte_sum(s, n - 1) + utf8_len(s[n - 1])
    }
}

/// One character of a command together with its display column and its byte
/// offset, for the rendering layer's match highlighting.
pub struct ColumnIndices {
    pub column: usize,
    pub byte_index: usize,
    pub ch: char,
}

/// The characters of a string with their display columns and byte offsets.
pub fn column_indices(s: &str) -> (r: Vec<ColumnIndices>)
    requires
        4 * s@.len() <= usize::MAX,
    ensures
        r@.len() == s@.len(),
        forall|i: int|
            0 <= i < r@.len() ==> (#[trigger] r@[i]).ch == s@[i] && r@[i].column == width_sum(s@, i)
                && r@[i].byte_index == byte_sum(s@, i),
{
    let n = s.unicode_len();
    let mut out: Vec<ColumnIndices> = Vec::new();
    let mut col: usize = 0;
    let mut byte: usize = 0;
    let mut i: usize = 0;
    while i < n
        invariant
            0 <= i <= n,
            n == s@.len(),
            4 * s@.len() <= usize::MAX,
            col == width_sum(s@, i as int),
            col <= 3 * i,
            byte == byte_sum(s@, i as int),
            byte <= 4 * i,
            out@.len() == i,
            forall|k: int|
                0 <= k < i ==> (#[trigger] out@[k]).ch == s@[k] && out@[k].column == width_sum(
                    s@,
                    k,
                ) && out@[k].byte_index == byte_sum(s@, k),
        decreases n - i,
    {
        let ch = s.get_char(i);
        let w = display_width(ch);
        out.push(ColumnIndices { column: col, byte_index: byte, ch });
        col = col + w;
        byte = byte + char_utf8_len(ch);
        i += 1;
    }
    out
}

/// The terminal column of the text cursor: the prompt's width, a separator,
/// and the display widths of the characters before the cursor.
pub fn cursor_column(query: &Query, prompt_width: usize) -> (col: usize)
    requires
        query.cursor <= query.text@.len(),
        prompt_width + 2 + 3 * query.text@.len() <= usize::MAX,
    ensures
        col == prompt_width + 2 + width_sum(query.text@, query.cursor as int),
{
    let s = query.text.as_str();
    let mut col: usize = prompt_width + 2;
    let mut i: usize = 0;
    while i < query.cursor
        invariant
            0 <= i <= query.cursor,
            query.cursor <= query.text@.len(),
            s@ == query.text@,
            prompt_width + 2 + 3 * query.text@.len() <= usize::MAX,
            col == prompt_width + 2 + width_sum(query.text@, i as int),
            col <= prompt_width + 2 + 3 * i,
        decreases query.cursor - i,
    {
        let ch = s.get_char(i);
        let w = display_width(ch);
        col = col + w;
        i += 1;
    }
    col
}

/// The label of a view for the status line.
pub open spec fn view_label(v: View) -> Seq<char> {
    match v {
        View::Sorted => "sorted"@,
        View::Favorites => "favorites"@,
        View::All => "all"@,
    }
}

/// The label of a search mode for the status line.
pub open spec fn search_mode_label(m: SearchMode) -> Seq<char> {
    match m {
        SearchMode::Exact => "exact"@,
        SearchMode::Regex => "regex"@,
        SearchMode::Fuzzy => "fuzzy"@,
    }
}

/// The label of the case-sensitivity flag for the status line.
pub open spec fn case_label(sensitive: bool) -> Seq<char> {
    if sensitive {
        "sensitive"@
    } else {
        "insensitive"@
    }
}

pub fn view(value: View) -> (r: &'static str)
    ensures
        r@ == view_label(value),
{
    match value {
        View::Sorted => "sorted",
        View::Favorites => "favorites",
        View::All => "all",
    }
}

pub fn search_mode(value: SearchMode) -> (r: &'static str)
    ensures
        r@ == search_mode_label(value),
{
    match value {
        SearchMode::Exact => "exact",
        SearchMode::Regex => "regex",
        SearchMode::Fuzzy => "fuzzy",
    }
}

pub fn case(value: bool) -> (r: &'static str)
    ensures
        r@ == case_label(value),
{
    if value {
        "sensitive"
    } else {
        "insensitive"
    }
}

/// The top bar: the shell prompt and the query, separated by one space.
pub fn top_bar(prompt: &str, query: &str) -> (r: String)
    ensures
        r@ == prompt@ + " "@ + query@,
{
    let mut out = prompt.to_owned();
    out.append(" ");
    out.append(query);
    proof {
        assert(out@ =~= prompt@ + " "@ + query@);
    }
    out
}

/// The decimal digit character for a value below ten.
pub open spec fn digit_char(d: int) -> char {
    if d == 0 {
        '0'
    } else if d == 1 {
        '1'
    } else if d == 2 {
        '2'
    } else if d == 3 {
        '3'
    } else if d == 4 {
        '4'
    } else if d == 5 {
        '5'
    } else if d == 6 {
        '6'
    } else if d == 7 {
        '7'
    } else if d == 8 {
        '8'
    } else {
        '9'
    }
}

/// The decimal digits of a non-negative number, most significant first.
pub open spec fn digits_of(n: int) -> Seq<char>
    decreases n,
{
    if n < 10 {
        seq![digit_char(n)]
    } else {
        digits_of(n / 10).push(digit_char(n % 10))
    }
}

fn digit_char_exec(d: usize) -> (c: char)
    requires
        d < 10,
    ensures
        c == digit_char(d as int),
{
    match d {
        0 => '0',
        1 => '1',
        2 => '2',
        3 => '3',
        4 => '4',
        5 => '5',
        6 => '6',
        7 => '7',
        8 => '8',
        _ => '9',
    }
}

fn push_digits(n: usize, out: &mut String)
    ensures
        final(out)@ == old(out)@ + digits_of(n as int),
    decreases n,
{
    if n < 10 {
        push_char(out, digit_char_exec(n));
        proof {
            assert(out@ =~= old(out)@ + digits_of(n as int));
        }
    } else {
        push_digits(n / 10, out);
        push_char(out, digit_char_exec(n % 10));
        proof {
            assert(out@ =~= old(out)@ + digits_of(n as int));
        }
    }
}

/// A number written in decimal.
pub fn usize_to_string(n: usize) -> (r: String)
    ensures
        r@ == digits_of(n as int),
{
    let mut out = String::new();
    push_digits(n, &mut out);
    proof {
        assert(out@ =~= digits_of(n as int));
    }
    out
}

/// The status line: search mode, case setting, and the current page over
/// the page count (page 0 when there are no pages).
pub open spec fn status_bar_label(
    mode: SearchMode,
    case_sensitive: bool,
    page: int,
    total: int,
) -> Seq<char> {
    let shown = if total > 0 {
        page
    } else {
        0
    };
    "- search:"@ + search_mode_label(mode) + " (C-e) - case:"@ + case_label(case_sensitive)
        + " (C-t) - page "@ + digits_of(shown) + "/"@ + digits_of(total) + " -"@
}

impl UserInterface {
    /// The status line handed to the rendering layer.
    pub fn status_bar(&self, state: &State, commands: &Vec<String>, page_capacity: usize) -> (r:
        String)
        requires
            self.page >= 1,
            page_capacity >= 1,
        ensures
            r@ == status_bar_label(
                state.search_mode,
                state.case_sensitivity,
                self.page as int,
                total_pages_spec(commands@.len() as int, page_capacity as int),
            ),
    {
        let total = self.total_pages(commands, page_capacity);
        let shown = if total > 0 {
            self.page
        } else {
            0
        };
        let mut out = "- search:".to_owned();
        out.append(search_mode(state.search_mode));
        out.append(" (C-e) - case:");
        out.append(case(state.case_sensitivity));
        out.append(" (C-t) - page ");
        let p = usize_to_string(shown);
        out.append(p.as_str());
        out.append("/");
        let t = usize_to_string(total);
        out.append(t.as_str());
        out.append(" -");
        proof {
            assert(out@ =~= status_bar_label(
                state.search_mode,
                state.case_sensitivity,
                self.page as int,
                total_pages_spec(commands@.len() as int, page_capacity as int),
            ));
        }
        out
    }
}

/// The question shown before deleting every occurrence of a command.
pub fn deletion_prompt(command: &str) -> (r: String)
    ensures
        r@ == "Do you want to delete all occurences of "@ + command@ + "? y/n"@,
{
    let mut out = "Do you want to delete all occurences of ".to_owned();
    out.append(command);
    out.append("? y/n");
    proof {
        assert(out@ =~= "Do you want to delete all occurences of "@ + command@ + "? y/n"@);
    }
    out
}

} // verus!
