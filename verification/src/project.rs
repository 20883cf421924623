//! The project data model as the imposition sees it, and `compute_imposition`, which pads the
//! page list to whatever multiple the chosen format needs and calls into the imposition.

use vstd::prelude::*;
use crate::imposition::{
    covers_each_page_once, impose_booklet, impose_one_page_zine, is_booklet,
    is_one_page_zine_sheet, is_position, page_at, pad_to_multiple, rounding_fits,
    booklet_multiple, lemma_booklet_covers_each_page_once,
    lemma_one_page_zine_covers_each_page_once, BookletSide, Sheet,
    impose_sixteen_page_zine, is_sixteen_page_zine_sheet,
    lemma_sixteen_page_zine_covers_each_page_once, is_duplex_sheet, is_single_sheet,
};

verus! {

/// One entry in the reader-order page sequence. A blank page is an entry with
/// `image_path: None`.
#[derive(Debug, Clone)]
pub struct PageEntry {
    pub id: String,
    pub image_path: Option<String>,
}

/// The imposition scheme a project uses. `OnePageZine`, `OnePageZinePosterBack` and
/// `SixteenPageZine` are fixed-length, single-sheet formats (8, 8 and 16 pages). `Booklet`
/// covers both the "Zine" (booklet-style, user-chosen page count) and "Comic" project types.
#[derive(Debug, Clone)]
pub enum Format {
    OnePageZine,
    /// Same 8-panel front as `OnePageZine`, but the back of the sheet is one full-bleed
    /// poster image instead of 8 more panels.
    OnePageZinePosterBack,
    SixteenPageZine,
    Booklet { page_count: usize, side: BookletSide },
}

impl Format {
    /// The one-sheet zine grids are much wider than tall, so these formats print on a
    /// landscape sheet whatever paper size was picked.
    pub fn wants_landscape_sheet(&self) -> (landscape: bool)
        ensures
            landscape <==> (self is OnePageZine || self is OnePageZinePosterBack
                || self is SixteenPageZine),
    {
        match self {
            Format::OnePageZine | Format::OnePageZinePosterBack | Format::SixteenPageZine => true,
            Format::Booklet { .. } => false,
        }
    }

    /// Whether this format draws a full-bleed poster image on the back of the sheet.
    pub fn has_poster_back(&self) -> (poster: bool)
        ensures
            poster <==> self is OnePageZinePosterBack,
    {
        match self {
            Format::OnePageZinePosterBack => true,
            _ => false,
        }
    }
}

/// The imposed sheets, and how many blank pages had to be appended to the project's pages to
/// reach a valid count for the format.
#[derive(Debug, Clone)]
pub struct ImpositionResult {
    pub sheets: Vec<Sheet>,
    pub auto_blanks_added: usize,
}

/// `result` is the imposition of `format` over `page_count` reader pages: the fixed one-page
/// zine sheet with the page count topped up to 8, the fixed 16-page zine sheet with the page
/// count topped up to 16, or the booklet of the page count rounded up to the least multiple of
/// 4 (duplex) or 2 (single-sided).
pub open spec fn is_imposition_of(format: Format, page_count: int, result: ImpositionResult) -> bool {
    match format {
        Format::OnePageZine | Format::OnePageZinePosterBack => {
            &&& result.sheets@.len() == 1
            &&& is_one_page_zine_sheet(result.sheets@[0])
            &&& result.auto_blanks_added == if page_count < 8 { 8 - page_count } else { 0 }
        },
        Format::SixteenPageZine => {
            &&& result.sheets@.len() == 1
            &&& is_sixteen_page_zine_sheet(result.sheets@[0])
            &&& result.auto_blanks_added == if page_count < 16 { 16 - page_count } else { 0 }
        },
        Format::Booklet { side, .. } => {
            &&& (page_count + result.auto_blanks_added) % booklet_multiple(side) == 0
            &&& result.auto_blanks_added < booklet_multiple(side)
            &&& is_booklet(result.sheets@, page_count + result.auto_blanks_added, side)
        },
    }
}

/// The padded page count of a booklet over `page_count` pages fits in a `usize`.
pub open spec fn imposition_fits(format: Format, page_count: int) -> bool {
    match format {
        Format::Booklet { side, .. } => rounding_fits(page_count, booklet_multiple(side)),
        _ => true,
    }
}

/// Runs the format's imposition over the project's current page list, padding with trailing
/// blanks first if the count isn't already a valid multiple for the scheme. The fixed-length
/// formats are never rounded further up: pages beyond 8 (or 16) are just not referenced by the
/// fixed slot grid.
pub fn compute_imposition(format: &Format, pages: &Vec<PageEntry>) -> (result: ImpositionResult)
    requires
        imposition_fits(*format, pages.len() as int),
    ensures
        is_imposition_of(*format, pages.len() as int, result),
{
    let count = pages.len();
    match format {
        Format::OnePageZine | Format::OnePageZinePosterBack => {
            let mut sheets: Vec<Sheet> = Vec::new();
            sheets.push(impose_one_page_zine());
            ImpositionResult { sheets, auto_blanks_added: 8usize.saturating_sub(count) }
        },
        Format::SixteenPageZine => {
            let mut sheets: Vec<Sheet> = Vec::new();
            sheets.push(impose_sixteen_page_zine());
            ImpositionResult { sheets, auto_blanks_added: 16usize.saturating_sub(count) }
        },
        Format::Booklet { side, .. } => {
            let multiple: usize = match side {
                BookletSide::Duplex => 4,
                BookletSide::Single => 2,
            };
            let padded = pad_to_multiple(count, multiple);
            ImpositionResult {
                sheets: impose_booklet(padded, *side),
                auto_blanks_added: padded - count,
            }
        },
    }
}

/// Every slot of an imposition shows a reader page between 1 and the padded page count (the
/// project's pages plus `auto_blanks_added`), so each one names an entry of the padded page
/// list; a booklet shows each padded page exactly once, the one-page zine each of pages 1-8,
/// the 16-page zine each of pages 1-16.
pub proof fn lemma_imposition_pages_resolve(format: Format, page_count: int, result: ImpositionResult)
    requires
        0 <= page_count,
        page_count + result.auto_blanks_added <= usize::MAX,
        is_imposition_of(format, page_count, result),
    ensures
        forall|k: int, back: bool, j: int| #[trigger] is_position(result.sheets@, k, back, j)
            ==> (page_at(result.sheets@, k, back, j) matches Some(p)
                && 1 <= p <= page_count + result.auto_blanks_added),
        format is Booklet ==> covers_each_page_once(result.sheets@, page_count + result.auto_blanks_added),
        (format is OnePageZine || format is OnePageZinePosterBack) ==> covers_each_page_once(result.sheets@, 8),
        format is SixteenPageZine ==> covers_each_page_once(result.sheets@, 16),
{
    match format {
        Format::Booklet { side, .. } => {
            lemma_booklet_covers_each_page_once(result.sheets@, page_count + result.auto_blanks_added, side);
        },
        Format::SixteenPageZine => {
            let sheet = result.sheets@[0];
            lemma_sixteen_page_zine_covers_each_page_once(sheet);
            assert(result.sheets@ == seq![sheet]);
        },
        _ => {
            let sheet = result.sheets@[0];
            lemma_one_page_zine_covers_each_page_once(sheet);
            assert(result.sheets@ == seq![sheet]);
        },
    }
}

/// How many blank pages the imposition appends and how many sheets it makes: the one-page
/// zine tops the count up to 8 and the 16-page zine to 16 (adding nothing once the count is
/// reached), each on one sheet; a duplex booklet pads to the next multiple of 4 with one sheet
/// per 4 pages; a single-sided booklet pads to the next even count with one sheet per 2 pages.
pub proof fn lemma_imposition_padding(format: Format, page_count: int, result: ImpositionResult)
    requires
        0 <= page_count,
        page_count + result.auto_blanks_added <= usize::MAX,
        is_imposition_of(format, page_count, result),
    ensures
        (format is OnePageZine || format is OnePageZinePosterBack) ==> {
            &&& result.sheets@.len() == 1
            &&& page_count + result.auto_blanks_added >= 8
            &&& (result.auto_blanks_added == 0 || page_count + result.auto_blanks_added == 8)
        },
        format is SixteenPageZine ==> {
            &&& result.sheets@.len() == 1
            &&& page_count + result.auto_blanks_added >= 16
            &&& (result.auto_blanks_added == 0 || page_count + result.auto_blanks_added == 16)
        },
        format matches Format::Booklet { side: BookletSide::Duplex, .. } ==> {
            &&& result.auto_blanks_added == (4 - page_count % 4) % 4
            &&& 4 * result.sheets@.len() == page_count + result.auto_blanks_added
        },
        format matches Format::Booklet { side: BookletSide::Single, .. } ==> {
            &&& result.auto_blanks_added == (2 - page_count % 2) % 2
            &&& 2 * result.sheets@.len() == page_count + result.auto_blanks_added
        },
{
}

/// `a` and `b` impose pages the same way: both one-page zines (with or without the poster
/// back), both 16-page zines, or both booklets printed on the same sides. A booklet's own
/// `page_count` field plays no part.
pub open spec fn same_scheme(a: Format, b: Format) -> bool {
    match (a, b) {
        (Format::OnePageZine, Format::OnePageZine) => true,
        (Format::OnePageZine, Format::OnePageZinePosterBack) => true,
        (Format::OnePageZinePosterBack, Format::OnePageZine) => true,
        (Format::OnePageZinePosterBack, Format::OnePageZinePosterBack) => true,
        (Format::SixteenPageZine, Format::SixteenPageZine) => true,
        (Format::Booklet { side: s1, .. }, Format::Booklet { side: s2, .. }) => s1 == s2,
        _ => false,
    }
}

/// The sheets of `result`, each as its sides' rows, columns and slots.
pub open spec fn sheet_views(result: ImpositionResult) -> Seq<<Sheet as View>::V> {
    result.sheets@.map_values(|s: Sheet| s@)
}

proof fn lemma_booklets_agree(a: Seq<Sheet>, b: Seq<Sheet>, page_count: int, side: BookletSide)
    requires
        is_booklet(a, page_count, side),
        is_booklet(b, page_count, side),
    ensures
        a.map_values(|s: Sheet| s@) == b.map_values(|s: Sheet| s@),
{
    assert forall|k: int| 0 <= k < a.len() implies a[k]@ == b[k]@ by {
        match side {
            BookletSide::Duplex => {
                assert(is_duplex_sheet(a[k], page_count, k));
                assert(is_duplex_sheet(b[k], page_count, k));
            },
            BookletSide::Single => {
                assert(is_single_sheet(a[k], k));
                assert(is_single_sheet(b[k], k));
            },
        }
    }
    assert(a.map_values(|s: Sheet| s@) =~= b.map_values(|s: Sheet| s@));
}

/// The imposition depends only on the scheme and the number of pages: page ids, image paths
/// and a booklet's `page_count` field change neither the sheets nor the blanks added.
pub proof fn lemma_imposition_depends_on_scheme_and_count(
    a: Format,
    b: Format,
    page_count: int,
    ra: ImpositionResult,
    rb: ImpositionResult,
)
    requires
        0 <= page_count,
        same_scheme(a, b),
        is_imposition_of(a, page_count, ra),
        is_imposition_of(b, page_count, rb),
    ensures
        ra.auto_blanks_added == rb.auto_blanks_added,
        sheet_views(ra) == sheet_views(rb),
{
    match (a, b) {
        (Format::Booklet { side, .. }, Format::Booklet { .. }) => {
            let m = booklet_multiple(side);
            let (x, y) = (ra.auto_blanks_added as int, rb.auto_blanks_added as int);
            assert(x == y) by {
                assert((page_count + x) % m == 0 && (page_count + y) % m == 0);
                assert(0 <= x < m && 0 <= y < m);
            }
            lemma_booklets_agree(ra.sheets@, rb.sheets@, page_count + x, side);
        },
        _ => {
            assert(ra.sheets@[0]@ == rb.sheets@[0]@);
            assert(sheet_views(ra) =~= sheet_views(rb));
        },
    }
}

/// Imposing the padded page list again adds no blanks and gives the same sheets: the pages
/// plus `auto_blanks_added` blanks already make a valid count for the format.
pub proof fn lemma_padded_count_is_a_fixed_point(
    format: Format,
    page_count: int,
    first: ImpositionResult,
    again: ImpositionResult,
)
    requires
        0 <= page_count,
        is_imposition_of(format, page_count, first),
        is_imposition_of(format, page_count + first.auto_blanks_added, again),
    ensures
        again.auto_blanks_added == 0,
        sheet_views(again) == sheet_views(first),
{
    match format {
        Format::Booklet { side, .. } => {
            let m = booklet_multiple(side);
            let n = page_count + first.auto_blanks_added;
            let y = again.auto_blanks_added as int;
            assert(y == 0) by {
                assert(n % m == 0 && (n + y) % m == 0);
                assert(0 <= y < m);
            }
            lemma_booklets_agree(again.sheets@, first.sheets@, n, side);
        },
        _ => {
            assert(again.sheets@[0]@ == first.sheets@[0]@);
            assert(sheet_views(again) =~= sheet_views(first));
        },
    }
}

} // verus!
