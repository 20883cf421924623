use zine_maker::imposition::BookletSide;
use zine_maker::project::{compute_imposition, Format, ImpositionResult, PageEntry};

fn pages(n: usize) -> Vec<PageEntry> {
    (1..=n)
        .map(|i| PageEntry { id: i.to_string(), image_path: Some(format!("page{i}.png")) })
        .collect()
}

fn all_pages(result: &ImpositionResult) -> Vec<usize> {
    let mut seen = Vec::new();
    for sheet in &result.sheets {
        seen.extend(sheet.front.slots.iter().filter_map(|s| s.page));
        if let Some(back) = &sheet.back {
            seen.extend(back.slots.iter().filter_map(|s| s.page));
        }
    }
    seen
}

#[test]
fn one_page_zine_pads_to_eight() {
    let r = compute_imposition(&Format::OnePageZine, &pages(5));
    assert_eq!(r.auto_blanks_added, 3);
    assert_eq!(r.sheets.len(), 1);
    assert!(r.sheets[0].back.is_none());
    assert_eq!(r.sheets[0].front.slots.len(), 8);
}

#[test]
fn one_page_zine_with_too_many_pages_adds_no_blanks() {
    let r = compute_imposition(&Format::OnePageZinePosterBack, &pages(11));
    assert_eq!(r.auto_blanks_added, 0);
    let mut seen = all_pages(&r);
    seen.sort_unstable();
    assert_eq!(seen, (1..=8).collect::<Vec<_>>());
}

#[test]
fn duplex_booklet_pads_to_multiple_of_four() {
    let f = Format::Booklet { page_count: 10, side: BookletSide::Duplex };
    let r = compute_imposition(&f, &pages(10));
    assert_eq!(r.auto_blanks_added, 2);
    assert_eq!(r.sheets.len(), 3);
    let mut seen = all_pages(&r);
    seen.sort_unstable();
    assert_eq!(seen, (1..=12).collect::<Vec<_>>());
}

#[test]
fn single_booklet_pads_to_even() {
    let f = Format::Booklet { page_count: 0, side: BookletSide::Single };
    let r = compute_imposition(&f, &pages(7));
    assert_eq!(r.auto_blanks_added, 1);
    assert_eq!(all_pages(&r), (1..=8).collect::<Vec<_>>());
    let r = compute_imposition(&f, &pages(6));
    assert_eq!(r.auto_blanks_added, 0);
    assert_eq!(r.sheets.len(), 3);
}

#[test]
fn empty_project_booklet_has_no_sheets() {
    let f = Format::Booklet { page_count: 4, side: BookletSide::Duplex };
    let r = compute_imposition(&f, &pages(0));
    assert_eq!(r.auto_blanks_added, 0);
    assert!(r.sheets.is_empty());
}

#[test]
fn sixteen_page_zine_pads_to_sixteen() {
    let r = compute_imposition(&Format::SixteenPageZine, &pages(10));
    assert_eq!(r.auto_blanks_added, 6);
    assert_eq!(r.sheets.len(), 1);
    assert!(r.sheets[0].back.is_some());
    let mut seen = all_pages(&r);
    seen.sort_unstable();
    assert_eq!(seen, (1..=16).collect::<Vec<_>>());
    let r = compute_imposition(&Format::SixteenPageZine, &pages(20));
    assert_eq!(r.auto_blanks_added, 0);
}

#[test]
fn reimposing_padded_pages_adds_nothing() {
    for n in 0..20usize {
        for f in [
            Format::OnePageZine,
            Format::SixteenPageZine,
            Format::Booklet { page_count: n, side: BookletSide::Duplex },
            Format::Booklet { page_count: 0, side: BookletSide::Single },
        ] {
            let first = compute_imposition(&f, &pages(n));
            let again = compute_imposition(&f, &pages(n + first.auto_blanks_added));
            assert_eq!(again.auto_blanks_added, 0);
            assert_eq!(all_pages(&again), all_pages(&first));
        }
    }
}

#[test]
fn imposition_ignores_page_contents_and_booklet_field() {
    let blank: Vec<PageEntry> = (0..9).map(|i| PageEntry { id: format!("b{i}"), image_path: None }).collect();
    let a = compute_imposition(&Format::Booklet { page_count: 3, side: BookletSide::Duplex }, &blank);
    let b = compute_imposition(&Format::Booklet { page_count: 40, side: BookletSide::Duplex }, &pages(9));
    assert_eq!(a.auto_blanks_added, b.auto_blanks_added);
    assert_eq!(all_pages(&a), all_pages(&b));
}

#[test]
fn imposed_pages_stay_within_padded_count() {
    for n in 0..20usize {
        for side in [BookletSide::Duplex, BookletSide::Single] {
            let r = compute_imposition(&Format::Booklet { page_count: n, side }, &pages(n));
            let limit = n + r.auto_blanks_added;
            assert!(all_pages(&r).iter().all(|&p| 1 <= p && p <= limit));
        }
    }
}

#[test]
fn landscape_formats() {
    assert!(Format::OnePageZine.wants_landscape_sheet());
    assert!(Format::OnePageZinePosterBack.wants_landscape_sheet());
    assert!(Format::SixteenPageZine.wants_landscape_sheet());
    assert!(!Format::Booklet { page_count: 8, side: BookletSide::Duplex }.wants_landscape_sheet());
}

#[test]
fn poster_back_format() {
    assert!(Format::OnePageZinePosterBack.has_poster_back());
    assert!(!Format::OnePageZine.has_poster_back());
    assert!(!Format::SixteenPageZine.has_poster_back());
    assert!(!Format::Booklet { page_count: 8, side: BookletSide::Single }.has_poster_back());
}
