//! What exporting an imposition to a print-ready document decides: the blank entries that
//! complete the page list, which document page each sheet side becomes, and which image goes
//! into which grid cell of a side.

use vstd::prelude::*;
use crate::imposition::{is_position, page_at, Sheet, SheetSide, Slot};
use crate::project::{is_imposition_of, lemma_imposition_pages_resolve, Format, ImpositionResult, PageEntry};

verus! {

/// `text` has the shape of a hyphenated UUID: 36 characters with hyphens at positions 8, 13,
/// 18 and 23.
pub open spec fn is_hyphenated_uuid(text: Seq<char>) -> bool {
    &&& text.len() == 36
    &&& text[8] == '-'
    &&& text[13] == '-'
    &&& text[18] == '-'
    &&& text[23] == '-'
}

/// Calls `uuid::Uuid::new_v4()` and renders the result with `to_string`, which writes uuid's
/// hyphenated lowercase form. The contract claims only that form's shape (36 characters,
/// hyphens at 8, 13, 18 and 23); which id comes back is random and left open, and so is what
/// the 32 hexadecimal digits are.
#[verifier::external_body]
fn new_page_id() -> (id: String)
    ensures
        is_hyphenated_uuid(id@),
{
    uuid::Uuid::new_v4().to_string()
}

/// The project's pages followed by `blanks` blank entries, each with a fresh random id, so
/// that every page number an imposition refers to names an entry.
pub fn with_blank_pages(pages: &Vec<PageEntry>, blanks: usize) -> (padded: Vec<PageEntry>)
    requires
        pages.len() + blanks <= usize::MAX,
    ensures
        padded.len() == pages.len() + blanks,
        forall|i: int| 0 <= i < pages.len() ==> #[trigger] padded@[i] == pages@[i],
        forall|i: int| pages.len() <= i < padded.len() ==> (#[trigger] padded@[i]).image_path is None
            && is_hyphenated_uuid(padded@[i].id@),
{
    let mut padded: Vec<PageEntry> = Vec::new();
    let mut i: usize = 0;
    while i < pages.len()
        invariant
            i <= pages.len(),
            padded.len() == i,
            forall|j: int| 0 <= j < i ==> #[trigger] padded@[j] == pages@[j],
        decreases pages.len() - i,
    {
        let entry = &pages[i];
        let image_path = match &entry.image_path {
            Some(path) => Some(path.clone()),
            None => None,
        };
        padded.push(PageEntry { id: entry.id.clone(), image_path });
        i = i + 1;
    }
    let mut n: usize = 0;
    while n < blanks
        invariant
            n <= blanks,
            pages.len() + blanks <= usize::MAX,
            padded.len() == pages.len() + n,
            forall|j: int| 0 <= j < pages.len() ==> #[trigger] padded@[j] == pages@[j],
            forall|j: int| pages.len() <= j < padded.len() ==> (#[trigger] padded@[j]).image_path is None
                && is_hyphenated_uuid(padded@[j].id@),
        decreases blanks - n,
    {
        padded.push(PageEntry { id: new_page_id(), image_path: None });
        n = n + 1;
    }
    padded
}

/// Once the project's pages are followed by the imposition's `auto_blanks_added` blank
/// entries, every page number on the imposed sheets names an entry of that list (page `p` is
/// entry `p - 1`), so drawing a sheet never looks past the end of the page list.
pub proof fn lemma_padded_pages_cover_imposition(
    format: Format,
    pages: Seq<PageEntry>,
    result: ImpositionResult,
    padded: Seq<PageEntry>,
)
    requires
        pages.len() + result.auto_blanks_added <= usize::MAX,
        is_imposition_of(format, pages.len() as int, result),
        padded.len() == pages.len() + result.auto_blanks_added,
        forall|i: int| 0 <= i < pages.len() ==> #[trigger] padded[i] == pages[i],
    ensures
        forall|k: int, back: bool, j: int| #[trigger] is_position(result.sheets@, k, back, j)
            ==> (page_at(result.sheets@, k, back, j) matches Some(p) && 1 <= p && p - 1 < padded.len()),
{
    lemma_imposition_pages_resolve(format, pages.len() as int, result);
}

/// The sides of `sheet` in print order: front, then back if there is one.
pub open spec fn sheet_sides(sheet: Sheet) -> Seq<(usize, usize, Seq<Slot>)> {
    match sheet.back {
        Some(back) => seq![sheet.front@, back@],
        None => seq![sheet.front@],
    }
}

/// Every side of `sheets` in print order: sheet by sheet, each front before its back.
pub open spec fn print_order(sheets: Seq<Sheet>) -> Seq<(usize, usize, Seq<Slot>)>
    decreases sheets.len(),
{
    if sheets.len() == 0 {
        seq![]
    } else {
        print_order(sheets.drop_last()) + sheet_sides(sheets.last())
    }
}

/// How many document pages the sides of the first `k` sheets take: two for a sheet with a
/// back, one for a single-sided sheet.
pub open spec fn sides_before(sheets: Seq<Sheet>, k: int) -> int
    decreases k,
{
    if k <= 0 {
        0
    } else {
        sides_before(sheets, k - 1) + if sheets[k - 1].back is Some { 2int } else { 1int }
    }
}

proof fn lemma_sides_before_prefix(sheets: Seq<Sheet>, k: int)
    requires
        0 <= k < sheets.len(),
    ensures
        sides_before(sheets.drop_last(), k) == sides_before(sheets, k),
    decreases k,
{
    if k > 0 {
        lemma_sides_before_prefix(sheets, k - 1);
        assert(sheets.drop_last()[k - 1] == sheets[k - 1]);
    }
}

proof fn lemma_print_order_positions(sheets: Seq<Sheet>)
    ensures
        print_order(sheets).len() == sides_before(sheets, sheets.len() as int),
        forall|k: int| 0 <= k < sheets.len() ==> {
            let at = sides_before(sheets, k);
            let sheet = #[trigger] sheets[k];
            &&& print_order(sheets)[at] == (sheet.front.rows, sheet.front.cols, sheet.front.slots@)
            &&& (sheet.back matches Some(b) ==> print_order(sheets)[at + 1] == (b.rows, b.cols, b.slots@))
        },
    decreases sheets.len(),
{
    if sheets.len() > 0 {
        let rest = sheets.drop_last();
        let n = sheets.len() - 1;
        lemma_print_order_positions(rest);
        assert forall|k: int| 0 <= k < rest.len() implies sides_before(rest, k) == sides_before(sheets, k) by {
            lemma_sides_before_prefix(sheets, k);
        }
        lemma_sides_before_prefix(sheets, n);
        let po = print_order(sheets);
        let prev = print_order(rest);
        assert(po == prev + sheet_sides(sheets[n]));
        assert forall|k: int| 0 <= k < sheets.len() implies {
            let at = sides_before(sheets, k);
            let sheet = #[trigger] sheets[k];
            &&& po[at] == (sheet.front.rows, sheet.front.cols, sheet.front.slots@)
            &&& (sheet.back matches Some(b) ==> po[at + 1] == (b.rows, b.cols, b.slots@))
        } by {
            if k < n {
                assert(rest[k] == sheets[k]);
                let at = sides_before(sheets, k);
                lemma_sides_before_bound(rest, k);
                assert(po[at] == prev[at]);
            }
        }
    }
}

/// Every document page of an export plan is a sheet side exactly as imposed: sheet `k`'s
/// front is page `sides_before(k)` and its back, if any, the page after, each with its own
/// rows, columns and slots; and there is no other side page.
pub proof fn lemma_plan_pages_are_the_sheet_sides(sheets: Seq<Sheet>, sides: Seq<SheetSide>)
    requires
        sides.map_values(|s: SheetSide| s@) == print_order(sheets),
    ensures
        sides.len() == sides_before(sheets, sheets.len() as int),
        forall|k: int| 0 <= k < sheets.len() ==> {
            let page = #[trigger] sides[sides_before(sheets, k)];
            &&& page.rows == sheets[k].front.rows
            &&& page.cols == sheets[k].front.cols
            &&& page.slots@ == sheets[k].front.slots@
        },
        forall|k: int| 0 <= k < sheets.len() && (#[trigger] sheets[k]).back is Some ==> {
            let page = sides[sides_before(sheets, k) + 1];
            let b = sheets[k].back.unwrap();
            &&& page.rows == b.rows
            &&& page.cols == b.cols
            &&& page.slots@ == b.slots@
        },
{
    lemma_print_order_positions(sheets);
    assert forall|k: int| 0 <= k < sheets.len() implies {
        let page = #[trigger] sides[sides_before(sheets, k)];
        &&& page.rows == sheets[k].front.rows
        &&& page.cols == sheets[k].front.cols
        &&& page.slots@ == sheets[k].front.slots@
    } by {
        lemma_sides_before_bound(sheets, k);
        let at = sides_before(sheets, k);
        assert(sides.map_values(|s: SheetSide| s@)[at] == sides[at]@);
    }
    assert forall|k: int| 0 <= k < sheets.len() && (#[trigger] sheets[k]).back is Some implies {
        let page = sides[sides_before(sheets, k) + 1];
        let b = sheets[k].back.unwrap();
        &&& page.rows == b.rows
        &&& page.cols == b.cols
        &&& page.slots@ == b.slots@
    } by {
        lemma_sides_before_bound(sheets, k);
        let at = sides_before(sheets, k) + 1;
        assert(sides.map_values(|s: SheetSide| s@)[at] == sides[at]@);
    }
}

proof fn lemma_sides_before_bound(sheets: Seq<Sheet>, k: int)
    requires
        0 <= k < sheets.len(),
    ensures
        0 <= sides_before(sheets, k),
        sides_before(sheets, k) + if sheets[k].back is Some { 2int } else { 1int }
            <= sides_before(sheets, sheets.len() as int),
    decreases sheets.len() - k,
{
    if k + 1 < sheets.len() {
        lemma_sides_before_bound(sheets, k + 1);
    }
    lemma_sides_before_nonneg(sheets, k);
}

proof fn lemma_sides_before_nonneg(sheets: Seq<Sheet>, k: int)
    ensures
        0 <= sides_before(sheets, k),
    decreases k,
{
    if k > 0 {
        lemma_sides_before_nonneg(sheets, k - 1);
    }
}

/// Why an imposition cannot be exported.
#[derive(Debug, Clone, Copy, PartialEq, Eq, Structural)]
pub enum ExportError {
    /// The imposition produced no sheets.
    NoSheets,
}

/// The pages of the exported document: one per sheet side, in print order, plus one more
/// for a full-bleed poster back when there is one.
pub struct ExportPlan {
    pub sides: Vec<SheetSide>,
    pub poster_back: bool,
    pub page_count: usize,
}

fn copy_side(side: &SheetSide) -> (copy: SheetSide)
    ensures
        copy@ == side@,
{
    let mut slots: Vec<Slot> = Vec::new();
    let mut i: usize = 0;
    while i < side.slots.len()
        invariant
            i <= side.slots.len(),
            slots@ == side.slots@.take(i as int),
        decreases side.slots.len() - i,
    {
        slots.push(side.slots[i]);
        i = i + 1;
    }
    assert(slots@ == side.slots@);
    SheetSide { rows: side.rows, cols: side.cols, slots }
}

/// Lays out the document pages for `sheets`, one page per sheet side (so a duplex-imposed
/// booklet is printed double-sided straight from the document), and a last page for the
/// poster back when `poster_back` is set. Refuses an imposition with no sheets.
pub fn plan_export(sheets: &Vec<Sheet>, poster_back: bool) -> (plan: Result<ExportPlan, ExportError>)
    requires
        2 * sheets.len() < usize::MAX,
    ensures
        sheets.len() == 0 <==> plan is Err,
        plan matches Err(e) ==> e == ExportError::NoSheets,
        plan matches Ok(p) ==> {
            &&& p.sides@.map_values(|s: SheetSide| s@) == print_order(sheets@)
            &&& p.poster_back == poster_back
            &&& p.page_count == p.sides.len() + if poster_back { 1int } else { 0int }
        },
{
    if sheets.len() == 0 {
        return Err(ExportError::NoSheets);
    }
    let mut sides: Vec<SheetSide> = Vec::new();
    let mut k: usize = 0;
    while k < sheets.len()
        invariant
            k <= sheets.len(),
            2 * sheets.len() < usize::MAX,
            sides.len() <= 2 * k,
            sides@.map_values(|s: SheetSide| s@) == print_order(sheets@.take(k as int)),
        decreases sheets.len() - k,
    {
        let sheet = &sheets[k];
        proof {
            assert(sheets@.take(k + 1).drop_last() == sheets@.take(k as int));
        }
        sides.push(copy_side(&sheet.front));
        match &sheet.back {
            Some(back) => {
                sides.push(copy_side(back));
            },
            None => {},
        }
        k = k + 1;
    }
    assert(sheets@.take(sheets.len() as int) == sheets@);
    let page_count = if poster_back { sides.len() + 1 } else { sides.len() };
    Ok(ExportPlan { sides, poster_back, page_count })
}

/// One image to draw: the grid cell (`row`, `col`) of a sheet side, the page image, and
/// whether it is drawn upside down.
pub struct Placement {
    pub row: usize,
    pub col: usize,
    pub image_path: String,
    pub rotated: bool,
}

impl View for Placement {
    type V = (usize, usize, Seq<char>, bool);

    open spec fn view(&self) -> (usize, usize, Seq<char>, bool) {
        (self.row, self.col, self.image_path@, self.rotated)
    }
}

/// The image that `slot` shows: the image of the page entry its reader page names, if the
/// slot is filled, the page number names an entry, and that entry is not a blank page.
pub open spec fn slot_image(slot: Slot, pages: Seq<PageEntry>) -> Option<Seq<char>> {
    match slot.page {
        Some(p) => if 1 <= p <= pages.len() {
            match pages[p - 1].image_path {
                Some(path) => Some(path@),
                None => None,
            }
        } else {
            None
        },
        None => None,
    }
}

/// The images to draw for the row-major `slots` of a side with `cols` columns: one per slot
/// that shows an image, in slot order, at the slot's row and column.
pub open spec fn placements(slots: Seq<Slot>, cols: int, pages: Seq<PageEntry>) -> Seq<(usize, usize, Seq<char>, bool)>
    decreases slots.len(),
{
    if slots.len() == 0 {
        seq![]
    } else {
        let i = slots.len() - 1;
        let rest = placements(slots.drop_last(), cols, pages);
        match slot_image(slots.last(), pages) {
            Some(path) => rest.push(((i / cols) as usize, (i % cols) as usize, path, slots.last().rotated)),
            None => rest,
        }
    }
}

/// `slot` names a page entry (page `p` is entry `p - 1`) that has an image to draw.
pub open spec fn shows_image(slot: Slot, pages: Seq<PageEntry>) -> bool {
    slot.page matches Some(p) && 1 <= p <= pages.len() && pages[p - 1].image_path is Some
}

/// The row-major index of the cell a placement is drawn in, on a side with `cols` columns.
pub open spec fn cell_index(placed: (usize, usize, Seq<char>, bool), cols: int) -> int {
    placed.0 * cols + placed.1
}

/// Each image is drawn in its own slot's cell: a placement's column is within the side, its
/// row-major cell index is the index of a slot that names an entry with an image, and it
/// carries that entry's image and that slot's rotation; placements come in slot order, one
/// per such slot, and every such slot gets one.
pub proof fn lemma_placements_fill_their_own_cells(slots: Seq<Slot>, cols: int, pages: Seq<PageEntry>)
    requires
        slots.len() <= usize::MAX,
        cols >= 0,
        cols > 0 || forall|j: int| 0 <= j < slots.len() ==> !shows_image(#[trigger] slots[j], pages),
    ensures
        forall|t: int| 0 <= t < placements(slots, cols, pages).len() ==> {
            let placed = #[trigger] placements(slots, cols, pages)[t];
            let i = cell_index(placed, cols);
            &&& placed.1 < cols
            &&& 0 <= i < slots.len()
            &&& shows_image(slots[i], pages)
            &&& placed.2 == pages[slots[i].page.unwrap() - 1].image_path.unwrap()@
            &&& placed.3 == slots[i].rotated
        },
        forall|t1: int, t2: int| 0 <= t1 < t2 < placements(slots, cols, pages).len() ==>
            cell_index(#[trigger] placements(slots, cols, pages)[t1], cols)
                < cell_index(#[trigger] placements(slots, cols, pages)[t2], cols),
        forall|i: int| 0 <= i < slots.len() && #[trigger] shows_image(slots[i], pages) ==>
            exists|t: int| 0 <= t < placements(slots, cols, pages).len()
                && cell_index(#[trigger] placements(slots, cols, pages)[t], cols) == i,
    decreases slots.len(),
{
    if slots.len() > 0 {
        let rest = slots.drop_last();
        let n = slots.len() - 1;
        assert forall|j: int| 0 <= j < rest.len() implies rest[j] == slots[j] by {}
        lemma_placements_fill_their_own_cells(rest, cols, pages);
        let prev = placements(rest, cols, pages);
        let ps = placements(slots, cols, pages);
        let last = slots[n];
        assert(slots.last() == last);
        if shows_image(last, pages) {
            assert(cols > 0);
            let row = n / cols;
            let col = n % cols;
            assert(row * cols + col == n && 0 <= col < cols && 0 <= row <= n) by (nonlinear_arith)
                requires
                    cols > 0,
                    n >= 0,
                    row == n / cols,
                    col == n % cols,
            {
                vstd::arithmetic::div_mod::lemma_fundamental_div_mod(n, cols);
            }
            let path = pages[last.page.unwrap() - 1].image_path.unwrap()@;
            assert(ps == prev.push((row as usize, col as usize, path, last.rotated)));
            assert(cell_index(ps[prev.len() as int], cols) == n);
            assert forall|t: int| 0 <= t < prev.len() implies #[trigger] ps[t] == prev[t] by {}
            assert forall|i: int| 0 <= i < slots.len() && #[trigger] shows_image(slots[i], pages) implies
                exists|t: int| 0 <= t < ps.len() && cell_index(#[trigger] ps[t], cols) == i by {
                if i == n {
                    assert(cell_index(ps[prev.len() as int], cols) == i);
                } else {
                    assert(shows_image(rest[i], pages));
                    let t = choose|t: int| 0 <= t < prev.len() && cell_index(#[trigger] prev[t], cols) == i;
                    assert(ps[t] == prev[t]);
                }
            }
        } else {
            assert(ps == prev);
            assert forall|i: int| 0 <= i < slots.len() && #[trigger] shows_image(slots[i], pages) implies
                exists|t: int| 0 <= t < ps.len() && cell_index(#[trigger] ps[t], cols) == i by {
                assert(i != n);
                assert(shows_image(rest[i], pages));
            }
        }
    }
}

/// Which page image goes into which grid cell of `side`: blank panels, page numbers past the
/// end of `pages`, and blank page entries leave their cell empty.
pub fn side_placements(side: &SheetSide, pages: &Vec<PageEntry>) -> (placed: Vec<Placement>)
    requires
        forall|j: int| 0 <= j < side.slots@.len() ==> (#[trigger] side.slots@[j]).page != Some(0usize),
        side.cols > 0 || forall|j: int| 0 <= j < side.slots@.len()
            ==> slot_image(#[trigger] side.slots@[j], pages@) is None,
    ensures
        placed@.map_values(|p: Placement| p@) == placements(side.slots@, side.cols as int, pages@),
{
    let mut placed: Vec<Placement> = Vec::new();
    let mut i: usize = 0;
    while i < side.slots.len()
        invariant
            i <= side.slots.len(),
            forall|j: int| 0 <= j < side.slots@.len() ==> (#[trigger] side.slots@[j]).page != Some(0usize),
            side.cols > 0 || forall|j: int| 0 <= j < side.slots@.len()
                ==> slot_image(#[trigger] side.slots@[j], pages@) is None,
            placed@.map_values(|p: Placement| p@)
                == placements(side.slots@.take(i as int), side.cols as int, pages@),
        decreases side.slots.len() - i,
    {
        let slot = side.slots[i];
        proof {
            assert(side.slots@.take(i + 1).drop_last() == side.slots@.take(i as int));
            assert(side.slots@.take(i + 1).last() == slot);
        }
        match slot.page {
            Some(page_num) => {
                let index = page_num - 1;
                if index < pages.len() {
                    match &pages[index].image_path {
                        Some(image_path) => {
                            let row = i / side.cols;
                            let col = i % side.cols;
                            placed.push(Placement {
                                row,
                                col,
                                image_path: image_path.clone(),
                                rotated: slot.rotated,
                            });
                        },
                        None => {},
                    }
                }
            },
            None => {},
        }
        i = i + 1;
    }
    assert(side.slots@.take(side.slots.len() as int) == side.slots@);
    placed
}

} // verus!
