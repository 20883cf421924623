//! Page imposition: mapping reader-order page numbers onto the physical sheet layout that,
//! once printed, folded, and (for the one-page zine) cut, reproduces the pages in the right
//! order and orientation.

use vstd::prelude::*;

verus! {

/// One page-sized cell on a sheet side. `page` is the 1-indexed reader page number, or `None`
/// for a blank panel that is not part of the page sequence at all.
#[derive(Debug, Clone, Copy, PartialEq, Eq, Structural)]
pub struct Slot {
    pub page: Option<usize>,
    pub rotated: bool,
}

/// One printable side of one physical sheet: a row-major grid of [`Slot`]s.
#[derive(Debug, Clone)]
pub struct SheetSide {
    pub rows: usize,
    pub cols: usize,
    pub slots: Vec<Slot>,
}

impl View for SheetSide {
    type V = (usize, usize, Seq<Slot>);

    /// Rows, columns, and the slots in row-major order.
    open spec fn view(&self) -> (usize, usize, Seq<Slot>) {
        (self.rows, self.cols, self.slots@)
    }
}

/// One physical sheet. `back` is `None` for a single-sided sheet.
#[derive(Debug, Clone)]
pub struct Sheet {
    pub front: SheetSide,
    pub back: Option<SheetSide>,
}

impl View for Sheet {
    type V = ((usize, usize, Seq<Slot>), Option<(usize, usize, Seq<Slot>)>);

    /// The front side's view, and the back side's if there is one.
    open spec fn view(&self) -> ((usize, usize, Seq<Slot>), Option<(usize, usize, Seq<Slot>)>) {
        (self.front@, match self.back {
            Some(b) => Some(b@),
            None => None,
        })
    }
}

/// How a multi-sheet booklet's sheets get printed.
#[derive(Debug, Clone, Copy, PartialEq, Eq, Structural)]
pub enum BookletSide {
    /// The real saddle-stitch booklet: each sheet printed front and back, folded in half, and
    /// nested inside the others before stapling through the spine.
    Duplex,
    /// Each sheet printed on one side only, in plain sequential reading order (no nesting
    /// remap): pages 1-2 on the first sheet, 3-4 on the second, and so on.
    Single,
}

/// A filled, upright-or-rotated cell showing reader page `page`.
pub open spec fn page_slot(page: int, rotated: bool) -> Slot {
    Slot { page: Some(page as usize), rotated }
}

/// The one-page zine's 2 x 4 grid in row-major order: the top row (upside down on the printed
/// sheet) reads 5 4 3 2, the bottom row reads 6 7 8 1.
pub open spec fn one_page_zine_grid() -> Seq<Slot> {
    seq![
        page_slot(5, true), page_slot(4, true), page_slot(3, true), page_slot(2, true),
        page_slot(6, false), page_slot(7, false), page_slot(8, false), page_slot(1, false),
    ]
}

/// `sheet` is the single-sided one-page zine sheet.
pub open spec fn is_one_page_zine_sheet(sheet: Sheet) -> bool {
    &&& sheet.back is None
    &&& sheet.front.rows == 2
    &&& sheet.front.cols == 4
    &&& sheet.front.slots@ == one_page_zine_grid()
}

/// The front of the 16-page zine sheet in row-major order: 5 12 9 8 upside down, then
/// 4 13 16 1 upright.
pub open spec fn sixteen_page_zine_front() -> Seq<Slot> {
    seq![
        page_slot(5, true), page_slot(12, true), page_slot(9, true), page_slot(8, true),
        page_slot(4, false), page_slot(13, false), page_slot(16, false), page_slot(1, false),
    ]
}

/// The back of the 16-page zine sheet in row-major order: 7 10 11 6 upside down, then
/// 2 15 14 3 upright. Each cell backs the front cell in the mirrored column, so pages `2m-1`
/// and `2m` share a leaf.
pub open spec fn sixteen_page_zine_back() -> Seq<Slot> {
    seq![
        page_slot(7, true), page_slot(10, true), page_slot(11, true), page_slot(6, true),
        page_slot(2, false), page_slot(15, false), page_slot(14, false), page_slot(3, false),
    ]
}

/// `sheet` is the double-sided 16-page zine sheet.
pub open spec fn is_sixteen_page_zine_sheet(sheet: Sheet) -> bool {
    &&& sheet.front.rows == 2
    &&& sheet.front.cols == 4
    &&& sheet.front.slots@ == sixteen_page_zine_front()
    &&& sheet.back matches Some(back) && back.rows == 2 && back.cols == 4
        && back.slots@ == sixteen_page_zine_back()
}

/// `side` is a 1 x 2 side showing reader pages `left` and `right`, neither rotated.
pub open spec fn is_two_up(side: SheetSide, left: int, right: int) -> bool {
    &&& side.rows == 1
    &&& side.cols == 2
    &&& side.slots@ == seq![page_slot(left, false), page_slot(right, false)]
}

/// Sheet `k` (0 is the outermost, the cover) of a duplex booklet of `page_count` pages.
pub open spec fn is_duplex_sheet(sheet: Sheet, page_count: int, k: int) -> bool {
    &&& is_two_up(sheet.front, page_count - 2 * k, 1 + 2 * k)
    &&& sheet.back matches Some(back) && is_two_up(back, 2 + 2 * k, page_count - 1 - 2 * k)
}

/// Sheet `k` of a single-sided booklet: reader pages `2k+1` and `2k+2`, no back side.
pub open spec fn is_single_sheet(sheet: Sheet, k: int) -> bool {
    &&& is_two_up(sheet.front, 2 * k + 1, 2 * k + 2)
    &&& sheet.back is None
}

/// How many reader pages the booklet scheme `side` needs its page count to be a multiple of.
pub open spec fn booklet_multiple(side: BookletSide) -> int {
    match side {
        BookletSide::Duplex => 4,
        BookletSide::Single => 2,
    }
}

/// `sheets` is the booklet imposition of `page_count` reader pages printed as `side`.
pub open spec fn is_booklet(sheets: Seq<Sheet>, page_count: int, side: BookletSide) -> bool {
    match side {
        BookletSide::Duplex => {
            &&& sheets.len() == page_count / 4
            &&& forall|k: int| 0 <= k < sheets.len() ==> is_duplex_sheet(#[trigger] sheets[k], page_count, k)
        },
        BookletSide::Single => {
            &&& sheets.len() == page_count / 2
            &&& forall|k: int| 0 <= k < sheets.len() ==> is_single_sheet(#[trigger] sheets[k], k)
        },
    }
}

/// Rounds `page_count` up to the next multiple of `multiple` (unchanged if already a
/// multiple). A saddle-stitch signature only works out evenly in multiples of 4.
pub fn pad_to_multiple(page_count: usize, multiple: usize) -> (padded: usize)
    requires
        multiple > 0,
        rounding_fits(page_count as int, multiple as int),
    ensures
        padded % multiple == 0,
        page_count <= padded < page_count + multiple,
        page_count % multiple == 0 ==> padded == page_count,
{
    let rem = page_count % multiple;
    if rem == 0 {
        page_count
    } else {
        proof {
            lemma_round_up_is_multiple(page_count as int, multiple as int);
        }
        page_count + (multiple - rem)
    }
}

proof fn lemma_round_up_is_multiple(n: int, m: int)
    requires
        n >= 0,
        m > 0,
    ensures
        (n + (m - n % m)) % m == 0,
{
    vstd::arithmetic::div_mod::lemma_fundamental_div_mod(n, m);
    vstd::arithmetic::div_mod::lemma_mod_multiples_basic(n / m + 1, m);
    assert(n + (m - n % m) == (n / m + 1) * m) by (nonlinear_arith)
        requires
            n == m * (n / m) + n % m,
    ;
}

/// The classic single-sheet, single-sided, 8-panel "one-page zine": fold the sheet into
/// eighths, slit the center fold between the two middle columns, and it opens into an 8-page
/// booklet with no stapling. Always exactly one sheet, always exactly 8 pages.
///
/// ```text
///              col1  col2  col3  col4
/// row1 (180°):   5     4     3     2
/// row2 (0°):     6     7     8     1
/// ```
pub fn impose_one_page_zine() -> (sheet: Sheet)
    ensures
        is_one_page_zine_sheet(sheet),
{
    let front = zine_side([5, 4, 3, 2], [6, 7, 8, 1]);
    assert(front.slots@ == one_page_zine_grid());
    Sheet { front, back: None }
}

/// The single-sheet, double-sided 16-page zine: the standard octavo imposition. Print the
/// back side flipping on the long edge, fold the sheet in half three times, trim the folds
/// and staple through the spine. Always exactly one sheet, always exactly 16 pages.
///
/// ```text
///                    col1  col2  col3  col4
/// front row1 (180°):   5    12     9     8
/// front row2 (0°):     4    13    16     1
/// back  row1 (180°):   7    10    11     6
/// back  row2 (0°):     2    15    14     3
/// ```
pub fn impose_sixteen_page_zine() -> (sheet: Sheet)
    ensures
        is_sixteen_page_zine_sheet(sheet),
{
    let front = zine_side([5, 12, 9, 8], [4, 13, 16, 1]);
    let back = zine_side([7, 10, 11, 6], [2, 15, 14, 3]);
    assert(front.slots@ == sixteen_page_zine_front());
    assert(back.slots@ == sixteen_page_zine_back());
    Sheet { front, back: Some(back) }
}

/// The row-major cells of a 2 x 4 zine side: the `top` pages upside down, then the `bottom`
/// pages upright.
pub open spec fn zine_panels(top: Seq<usize>, bottom: Seq<usize>) -> Seq<Slot> {
    Seq::new(8, |j: int| if j < 4 {
        Slot { page: Some(top[j]), rotated: true }
    } else {
        Slot { page: Some(bottom[j - 4]), rotated: false }
    })
}

/// A 2 x 4 zine side with the `top` row upside down and the `bottom` row upright.
fn zine_side(top: [usize; 4], bottom: [usize; 4]) -> (side: SheetSide)
    ensures
        side.rows == 2,
        side.cols == 4,
        side.slots@ == zine_panels(top@, bottom@),
{
    let mut slots: Vec<Slot> = Vec::new();
    let mut i: usize = 0;
    while i < 4
        invariant
            i <= 4,
            top@.len() == 4,
            slots@ == zine_panels(top@, bottom@).take(i as int),
        decreases 4 - i,
    {
        slots.push(Slot { page: Some(top[i]), rotated: true });
        i = i + 1;
    }
    let mut i: usize = 0;
    while i < 4
        invariant
            i <= 4,
            bottom@.len() == 4,
            slots@ == zine_panels(top@, bottom@).take(4 + i),
        decreases 4 - i,
    {
        slots.push(Slot { page: Some(bottom[i]), rotated: false });
        i = i + 1;
    }
    assert(slots@ == zine_panels(top@, bottom@));
    SheetSide { rows: 2, cols: 4, slots }
}

/// Imposes a booklet of `page_count` reader pages (already padded, see [`pad_to_multiple`]).
///
/// Duplex: the standard nested-fold-and-staple imposition; `page_count` must be a multiple of
/// 4. For sheet `k` (0-indexed, `k = 0` is the outermost sheet, i.e. the cover):
///
/// ```text
/// front-left = page_count - 2k     front-right = 1 + 2k
/// back-left  = 2 + 2k               back-right  = page_count - 1 - 2k
/// ```
///
/// Single: `page_count` must be even. Sheet `k` holds reader pages `2k+1` and `2k+2` side by
/// side, printed once, no back side, no reordering.
pub fn impose_booklet(page_count: usize, side: BookletSide) -> (sheets: Vec<Sheet>)
    requires
        page_count as int % booklet_multiple(side) == 0,
    ensures
        is_booklet(sheets@, page_count as int, side),
{
    match side {
        BookletSide::Duplex => {
            let count = page_count / 4;
            let mut sheets: Vec<Sheet> = Vec::new();
            let mut k: usize = 0;
            while k < count
                invariant
                    count == page_count / 4,
                    page_count % 4 == 0,
                    k <= count,
                    sheets.len() == k,
                    forall|j: int| 0 <= j < k ==> is_duplex_sheet(#[trigger] sheets@[j], page_count as int, j),
                decreases count - k,
            {
                let front_left = page_count - 2 * k;
                let front_right = 1 + 2 * k;
                let back_left = 2 + 2 * k;
                let back_right = page_count - 1 - 2 * k;
                sheets.push(Sheet {
                    front: two_up(front_left, front_right),
                    back: Some(two_up(back_left, back_right)),
                });
                k = k + 1;
            }
            sheets
        },
        BookletSide::Single => {
            let count = page_count / 2;
            let mut sheets: Vec<Sheet> = Vec::new();
            let mut k: usize = 0;
            while k < count
                invariant
                    count == page_count / 2,
                    k <= count,
                    sheets.len() == k,
                    forall|j: int| 0 <= j < k ==> is_single_sheet(#[trigger] sheets@[j], j),
                decreases count - k,
            {
                sheets.push(Sheet { front: two_up(2 * k + 1, 2 * k + 2), back: None });
                k = k + 1;
            }
            sheets
        },
    }
}

/// A 1 x 2 side showing `left` and `right`, neither rotated.
pub fn two_up(left: usize, right: usize) -> (side: SheetSide)
    ensures
        is_two_up(side, left as int, right as int),
{
    let mut slots: Vec<Slot> = Vec::new();
    slots.push(Slot { page: Some(left), rotated: false });
    slots.push(Slot { page: Some(right), rotated: false });
    assert(slots@ == seq![page_slot(left as int, false), page_slot(right as int, false)]);
    SheetSide { rows: 1, cols: 2, slots }
}

/// Slot `j` of the front side (or, with `back`, of the back side) of sheet `k` exists.
pub open spec fn is_position(sheets: Seq<Sheet>, k: int, back: bool, j: int) -> bool {
    &&& 0 <= k < sheets.len()
    &&& if back {
        sheets[k].back matches Some(b) && 0 <= j < b.slots@.len()
    } else {
        0 <= j < sheets[k].front.slots@.len()
    }
}

/// What slot `j` of the front side (or, with `back`, of the back side) of sheet `k` shows.
pub open spec fn page_at(sheets: Seq<Sheet>, k: int, back: bool, j: int) -> Option<usize> {
    if back {
        match sheets[k].back {
            Some(b) => b.slots@[j].page,
            None => None,
        }
    } else {
        sheets[k].front.slots@[j].page
    }
}

/// Reader page `page` is shown at an existing position of `sheets`.
pub open spec fn holds_page(sheets: Seq<Sheet>, k: int, back: bool, j: int, page: int) -> bool {
    &&& is_position(sheets, k, back, j)
    &&& page_at(sheets, k, back, j) == Some(page as usize)
}

/// Reader page `page` is shown somewhere on `sheets`.
pub open spec fn is_shown(sheets: Seq<Sheet>, page: int) -> bool {
    exists|k: int, back: bool, j: int| #[trigger] holds_page(sheets, k, back, j, page)
}

/// Every position of `sheets` shows a reader page in `1..=page_count`, and each of those
/// pages is shown at exactly one position.
pub open spec fn covers_each_page_once(sheets: Seq<Sheet>, page_count: int) -> bool {
    &&& forall|k: int, back: bool, j: int|
        #[trigger] is_position(sheets, k, back, j) ==> (page_at(sheets, k, back, j) matches Some(p)
            && 1 <= p <= page_count)
    &&& forall|p: int| 1 <= p <= page_count ==> #[trigger] is_shown(sheets, p)
    &&& forall|k1: int, b1: bool, j1: int, k2: int, b2: bool, j2: int, p: int|
        #[trigger] holds_page(sheets, k1, b1, j1, p) && #[trigger] holds_page(sheets, k2, b2, j2, p)
            ==> k1 == k2 && b1 == b2 && j1 == j2
}

/// The one-page zine sheet shows each reader page 1-8 exactly once.
pub proof fn lemma_one_page_zine_covers_each_page_once(sheet: Sheet)
    requires
        is_one_page_zine_sheet(sheet),
    ensures
        covers_each_page_once(seq![sheet], 8),
{
    let sheets = seq![sheet];
    let g = one_page_zine_grid();
    assert forall|k: int, back: bool, j: int| #[trigger] is_position(sheets, k, back, j) implies
        (page_at(sheets, k, back, j) matches Some(p) && 1 <= p <= 8) by {
        assert(sheets[k] == sheet);
    }
    assert forall|p: int| 1 <= p <= 8 implies is_shown(sheets, p) by {
        let j: int = if p == 1 { 7 } else if p <= 5 { 5 - p } else { p - 2 };
        assert(sheets[0] == sheet);
        assert(holds_page(sheets, 0, false, j, p));
    }
    assert forall|k1: int, b1: bool, j1: int, k2: int, b2: bool, j2: int, p: int|
        #[trigger] holds_page(sheets, k1, b1, j1, p) && #[trigger] holds_page(sheets, k2, b2, j2, p)
        implies k1 == k2 && b1 == b2 && j1 == j2 by {
        assert(sheets[k1] == sheet);
        assert(sheets[k2] == sheet);
    }
}

/// The 16-page zine sheet shows each reader page 1-16 exactly once across its two sides.
pub proof fn lemma_sixteen_page_zine_covers_each_page_once(sheet: Sheet)
    requires
        is_sixteen_page_zine_sheet(sheet),
    ensures
        covers_each_page_once(seq![sheet], 16),
{
    let sheets = seq![sheet];
    assert forall|k: int, back: bool, j: int| #[trigger] is_position(sheets, k, back, j) implies
        (page_at(sheets, k, back, j) matches Some(p) && 1 <= p <= 16) by {
        assert(sheets[k] == sheet);
    }
    assert forall|p: int| 1 <= p <= 16 implies is_shown(sheets, p) by {
        assert(sheets[0] == sheet);
        if p == 1 {
            assert(holds_page(sheets, 0, false, 7, p));
        } else if p == 2 {
            assert(holds_page(sheets, 0, true, 4, p));
        } else if p == 3 {
            assert(holds_page(sheets, 0, true, 7, p));
        } else if p == 4 {
            assert(holds_page(sheets, 0, false, 4, p));
        } else if p == 5 {
            assert(holds_page(sheets, 0, false, 0, p));
        } else if p == 6 {
            assert(holds_page(sheets, 0, true, 3, p));
        } else if p == 7 {
            assert(holds_page(sheets, 0, true, 0, p));
        } else if p == 8 {
            assert(holds_page(sheets, 0, false, 3, p));
        } else if p == 9 {
            assert(holds_page(sheets, 0, false, 2, p));
        } else if p == 10 {
            assert(holds_page(sheets, 0, true, 1, p));
        } else if p == 11 {
            assert(holds_page(sheets, 0, true, 2, p));
        } else if p == 12 {
            assert(holds_page(sheets, 0, false, 1, p));
        } else if p == 13 {
            assert(holds_page(sheets, 0, false, 5, p));
        } else if p == 14 {
            assert(holds_page(sheets, 0, true, 6, p));
        } else if p == 15 {
            assert(holds_page(sheets, 0, true, 5, p));
        } else if p == 16 {
            assert(holds_page(sheets, 0, false, 6, p));
        }
    }
    assert forall|k1: int, b1: bool, j1: int, k2: int, b2: bool, j2: int, p: int|
        #[trigger] holds_page(sheets, k1, b1, j1, p) && #[trigger] holds_page(sheets, k2, b2, j2, p)
        implies k1 == k2 && b1 == b2 && j1 == j2 by {
        assert(sheets[k1] == sheet);
        assert(sheets[k2] == sheet);
    }
}

/// Sheet `k` of a duplex booklet folds into two spreads: both sides are one row of two
/// upright filled cells; sheet 0 carries the front cover on the right of its front side and
/// each later sheet starts two pages further in; the two pages of every side sum to
/// `page_count + 1` (they face each other across the spine); and each leaf's two pages are
/// consecutive, the front-right page backed by the next page on the back-left, the back-right
/// page backed by the next page on the front-left.
pub proof fn lemma_duplex_sheets_fold_into_spreads(sheets: Seq<Sheet>, page_count: int)
    requires
        0 <= page_count <= usize::MAX,
        page_count % 4 == 0,
        is_booklet(sheets, page_count, BookletSide::Duplex),
    ensures
        4 * sheets.len() == page_count,
        forall|k: int| 0 <= k < sheets.len() ==> {
            let front = (#[trigger] sheets[k]).front;
            let back = sheets[k].back.unwrap();
            &&& sheets[k].back is Some
            &&& front.rows == 1 && front.cols == 2 && front.slots@.len() == 2
            &&& back.rows == 1 && back.cols == 2 && back.slots@.len() == 2
            &&& !front.slots@[0].rotated && !front.slots@[1].rotated
            &&& !back.slots@[0].rotated && !back.slots@[1].rotated
            &&& front.slots@[0].page is Some && front.slots@[1].page is Some
            &&& back.slots@[0].page is Some && back.slots@[1].page is Some
            &&& front.slots@[1].page.unwrap() == 2 * k + 1
            &&& front.slots@[0].page.unwrap() + front.slots@[1].page.unwrap() == page_count + 1
            &&& back.slots@[0].page.unwrap() + back.slots@[1].page.unwrap() == page_count + 1
            &&& back.slots@[0].page.unwrap() == front.slots@[1].page.unwrap() + 1
            &&& front.slots@[0].page.unwrap() == back.slots@[1].page.unwrap() + 1
        },
{
    assert forall|k: int| 0 <= k < sheets.len() implies {
        let front = (#[trigger] sheets[k]).front;
        let back = sheets[k].back.unwrap();
        &&& sheets[k].back is Some
        &&& front.rows == 1 && front.cols == 2 && front.slots@.len() == 2
        &&& back.rows == 1 && back.cols == 2 && back.slots@.len() == 2
        &&& !front.slots@[0].rotated && !front.slots@[1].rotated
        &&& !back.slots@[0].rotated && !back.slots@[1].rotated
        &&& front.slots@[0].page is Some && front.slots@[1].page is Some
        &&& back.slots@[0].page is Some && back.slots@[1].page is Some
        &&& front.slots@[1].page.unwrap() == 2 * k + 1
        &&& front.slots@[0].page.unwrap() + front.slots@[1].page.unwrap() == page_count + 1
        &&& back.slots@[0].page.unwrap() + back.slots@[1].page.unwrap() == page_count + 1
        &&& back.slots@[0].page.unwrap() == front.slots@[1].page.unwrap() + 1
        &&& front.slots@[0].page.unwrap() == back.slots@[1].page.unwrap() + 1
    } by {
        assert(is_duplex_sheet(sheets[k], page_count, k));
    }
}

/// A single-sided booklet is plain reading order on one-sided sheets: `page_count / 2`
/// sheets, none with a back, each a single row of two upright cells, and slot `j` of sheet `k`
/// shows reader page `2k + j + 1`.
pub proof fn lemma_single_sheets_read_in_order(sheets: Seq<Sheet>, page_count: int)
    requires
        0 <= page_count <= usize::MAX,
        page_count % 2 == 0,
        is_booklet(sheets, page_count, BookletSide::Single),
    ensures
        2 * sheets.len() == page_count,
        forall|k: int| 0 <= k < sheets.len() ==> {
            let front = (#[trigger] sheets[k]).front;
            &&& sheets[k].back is None
            &&& front.rows == 1 && front.cols == 2 && front.slots@.len() == 2
        },
        forall|k: int, j: int| 0 <= k < sheets.len() && 0 <= j < 2 ==> {
            let slot = #[trigger] sheets[k].front.slots@[j];
            &&& !slot.rotated
            &&& slot.page == Some((2 * k + j + 1) as usize)
        },
{
    assert forall|k: int, j: int| 0 <= k < sheets.len() && 0 <= j < 2 implies {
        let slot = #[trigger] sheets[k].front.slots@[j];
        &&& !slot.rotated
        &&& slot.page == Some((2 * k + j + 1) as usize)
    } by {
        assert(is_single_sheet(sheets[k], k));
    }
    assert forall|k: int| 0 <= k < sheets.len() implies {
        let front = (#[trigger] sheets[k]).front;
        &&& sheets[k].back is None
        &&& front.rows == 1 && front.cols == 2 && front.slots@.len() == 2
    } by {
        assert(is_single_sheet(sheets[k], k));
    }
}

/// Row-major cells `a` and `b` of a 2 x 4 grid share an edge.
pub open spec fn cells_adjacent(a: int, b: int) -> bool {
    ||| a / 4 == b / 4 && (a - b == 1 || b - a == 1)
    ||| a % 4 == b % 4 && a != b
}

/// The one-page zine's eight cells are all filled, the top row upside down and the bottom
/// row upright; page 1 sits in the bottom-right corner with page 2 above it, and each page's
/// cell shares an edge with the next page's (page 8's with page 1's), so the pages run once
/// round the sheet, as folding it into eighths requires.
pub proof fn lemma_one_page_zine_pages_run_around_the_sheet(sheet: Sheet)
    requires
        is_one_page_zine_sheet(sheet),
    ensures
        sheet.front.slots@.len() == 8,
        sheet.front.slots@[7].page == Some(1usize),
        sheet.front.slots@[3].page == Some(2usize),
        forall|j: int| 0 <= j < 8 ==> (#[trigger] sheet.front.slots@[j]).page is Some
            && sheet.front.slots@[j].rotated == (j < 4),
        forall|j1: int, j2: int| 0 <= j1 < 8 && 0 <= j2 < 8
            && (#[trigger] sheet.front.slots@[j2]).page.unwrap()
                == (#[trigger] sheet.front.slots@[j1]).page.unwrap() % 8 + 1
            ==> cells_adjacent(j1, j2),
{
    let g = sheet.front.slots@;
    assert(g[0].page.unwrap() == 5 && g[1].page.unwrap() == 4 && g[2].page.unwrap() == 3);
    assert(g[3].page.unwrap() == 2 && g[4].page.unwrap() == 6 && g[5].page.unwrap() == 7);
    assert(g[6].page.unwrap() == 8 && g[7].page.unwrap() == 1);
}

/// The 16-page zine sheet's cells are all filled on both sides, top rows upside down and
/// bottom rows upright; each front cell backs the back cell in the mirrored column, and the
/// two form one leaf: pages `2m - 1` and `2m`; and the two cells of each half-row of a side
/// face each other across a fold, their pages summing to 17.
pub proof fn lemma_sixteen_page_zine_leaves(sheet: Sheet)
    requires
        is_sixteen_page_zine_sheet(sheet),
    ensures
        sheet.back is Some,
        sheet.front.slots@.len() == 8,
        sheet.back.unwrap().slots@.len() == 8,
        forall|j: int| 0 <= j < 8 ==> {
            let f = #[trigger] sheet.front.slots@[j];
            let b = sheet.back.unwrap().slots@[j];
            &&& f.page is Some && b.page is Some
            &&& f.rotated == (j < 4) && b.rotated == (j < 4)
        },
        forall|j: int| 0 <= j < 8 ==> {
            let f = (#[trigger] sheet.front.slots@[j]).page.unwrap();
            let b = sheet.back.unwrap().slots@[(j / 4) * 4 + 3 - j % 4].page.unwrap();
            (f % 2 == 1 && b == f + 1) || (b % 2 == 1 && f == b + 1)
        },
        forall|j: int| 0 <= j < 4 ==> {
            &&& (#[trigger] sheet.front.slots@[2 * j]).page.unwrap()
                + sheet.front.slots@[2 * j + 1].page.unwrap() == 17
            &&& sheet.back.unwrap().slots@[2 * j].page.unwrap()
                + sheet.back.unwrap().slots@[2 * j + 1].page.unwrap() == 17
        },
{
    let f = sheet.front.slots@;
    let b = sheet.back.unwrap().slots@;
    assert(f == sixteen_page_zine_front());
    assert(b == sixteen_page_zine_back());
    assert forall|j: int| 0 <= j < 8 implies {
        let fp = (#[trigger] sheet.front.slots@[j]).page.unwrap();
        let bp = sheet.back.unwrap().slots@[(j / 4) * 4 + 3 - j % 4].page.unwrap();
        (fp % 2 == 1 && bp == fp + 1) || (bp % 2 == 1 && fp == bp + 1)
    } by {
        if j == 0 {} else if j == 1 {} else if j == 2 {} else if j == 3 {}
        else if j == 4 {} else if j == 5 {} else if j == 6 {} else {}
    }
}

/// A booklet imposition shows each reader page `1..=page_count` exactly once across all of
/// its sheet sides (duplex: four per sheet, nested; single-sided: two per sheet, in order).
pub proof fn lemma_booklet_covers_each_page_once(sheets: Seq<Sheet>, page_count: int, side: BookletSide)
    requires
        0 <= page_count <= usize::MAX,
        page_count % booklet_multiple(side) == 0,
        is_booklet(sheets, page_count, side),
    ensures
        covers_each_page_once(sheets, page_count),
{
    let n = page_count;
    match side {
        BookletSide::Duplex => {
            assert forall|k: int, back: bool, j: int| #[trigger] is_position(sheets, k, back, j) implies
                (page_at(sheets, k, back, j) matches Some(p) && 1 <= p <= n) by {
                assert(is_duplex_sheet(sheets[k], n, k));
            }
            assert forall|p: int| 1 <= p <= n implies is_shown(sheets, p) by {
                let half = n / 2;
                if p <= half {
                    if p % 2 == 1 {
                        let k = (p - 1) / 2;
                        assert(is_duplex_sheet(sheets[k], n, k));
                        assert(holds_page(sheets, k, false, 1, p));
                    } else {
                        let k = (p - 2) / 2;
                        assert(is_duplex_sheet(sheets[k], n, k));
                        assert(holds_page(sheets, k, true, 0, p));
                    }
                } else {
                    if p % 2 == 0 {
                        let k = (n - p) / 2;
                        assert(is_duplex_sheet(sheets[k], n, k));
                        assert(holds_page(sheets, k, false, 0, p));
                    } else {
                        let k = (n - 1 - p) / 2;
                        assert(is_duplex_sheet(sheets[k], n, k));
                        assert(holds_page(sheets, k, true, 1, p));
                    }
                }
            }
            assert forall|k1: int, b1: bool, j1: int, k2: int, b2: bool, j2: int, p: int|
                #[trigger] holds_page(sheets, k1, b1, j1, p) && #[trigger] holds_page(sheets, k2, b2, j2, p)
                implies k1 == k2 && b1 == b2 && j1 == j2 by {
                assert(is_duplex_sheet(sheets[k1], n, k1));
                assert(is_duplex_sheet(sheets[k2], n, k2));
            }
        },
        BookletSide::Single => {
            assert forall|k: int, back: bool, j: int| #[trigger] is_position(sheets, k, back, j) implies
                (page_at(sheets, k, back, j) matches Some(p) && 1 <= p <= n) by {
                assert(is_single_sheet(sheets[k], k));
            }
            assert forall|p: int| 1 <= p <= n implies is_shown(sheets, p) by {
                let k = (p - 1) / 2;
                let j = (p - 1) % 2;
                assert(is_single_sheet(sheets[k], k));
                assert(holds_page(sheets, k, false, j, p));
            }
            assert forall|k1: int, b1: bool, j1: int, k2: int, b2: bool, j2: int, p: int|
                #[trigger] holds_page(sheets, k1, b1, j1, p) && #[trigger] holds_page(sheets, k2, b2, j2, p)
                implies k1 == k2 && b1 == b2 && j1 == j2 by {
                assert(is_single_sheet(sheets[k1], k1));
                assert(is_single_sheet(sheets[k2], k2));
            }
        },
    }
}

/// The least multiple of `multiple` that is at least `page_count` fits in a `usize`.
pub open spec fn rounding_fits(page_count: int, multiple: int) -> bool {
    page_count % multiple == 0 || page_count + (multiple - page_count % multiple) <= usize::MAX
}

} // verus!
