use zine_maker::imposition::{impose_booklet, impose_one_page_zine, impose_sixteen_page_zine, pad_to_multiple, two_up, BookletSide, SheetSide};

fn page_at(side: &SheetSide, index: usize) -> usize {
    side.slots[index].page.expect("slot should be filled")
}

#[test]
fn pad_to_multiple_already_aligned() {
    assert_eq!(pad_to_multiple(8, 4), 8);
    assert_eq!(pad_to_multiple(0, 4), 0);
}

#[test]
fn pad_to_multiple_rounds_up() {
    assert_eq!(pad_to_multiple(9, 4), 12);
    assert_eq!(pad_to_multiple(1, 4), 4);
    assert_eq!(pad_to_multiple(13, 4), 16);
}

#[test]
fn pad_to_multiple_other_multiples() {
    assert_eq!(pad_to_multiple(7, 2), 8);
    assert_eq!(pad_to_multiple(6, 2), 6);
    assert_eq!(pad_to_multiple(5, 1), 5);
    assert_eq!(pad_to_multiple(usize::MAX - 3, 4), usize::MAX - 3);
}

#[test]
fn one_page_zine_matches_reference_grid() {
    let sheet = impose_one_page_zine();
    assert!(sheet.back.is_none());
    assert_eq!(sheet.front.rows, 2);
    assert_eq!(sheet.front.cols, 4);
    let pages: Vec<Option<usize>> = sheet.front.slots.iter().map(|s| s.page).collect();
    assert_eq!(
        pages,
        vec![
            Some(5), Some(4), Some(3), Some(2),
            Some(6), Some(7), Some(8), Some(1),
        ]
    );
    // Top row (indices 0-3) is rotated, bottom row (4-7) is not.
    assert!(sheet.front.slots[0..4].iter().all(|s| s.rotated));
    assert!(sheet.front.slots[4..8].iter().all(|s| !s.rotated));
    // Every reader page 1-8 appears exactly once.
    let mut seen: Vec<usize> = pages.into_iter().flatten().collect();
    seen.sort_unstable();
    assert_eq!(seen, (1..=8).collect::<Vec<_>>());
}

#[test]
fn duplex_booklet_eight_pages_two_sheets() {
    let sheets = impose_booklet(8, BookletSide::Duplex);
    assert_eq!(sheets.len(), 2);

    // Outermost sheet (the cover): front shows the back cover (8) and front cover (1).
    let s0 = &sheets[0];
    assert_eq!(page_at(&s0.front, 0), 8);
    assert_eq!(page_at(&s0.front, 1), 1);
    let s0_back = s0.back.as_ref().unwrap();
    assert_eq!(page_at(s0_back, 0), 2);
    assert_eq!(page_at(s0_back, 1), 7);

    // Innermost sheet (the center spread, pages 4-5, ends up back-left/back-right).
    let s1 = &sheets[1];
    assert_eq!(page_at(&s1.front, 0), 6);
    assert_eq!(page_at(&s1.front, 1), 3);
    let s1_back = s1.back.as_ref().unwrap();
    assert_eq!(page_at(s1_back, 0), 4);
    assert_eq!(page_at(s1_back, 1), 5);
}

#[test]
fn duplex_booklet_covers_every_page_exactly_once() {
    for &n in &[4usize, 8, 12, 16, 24, 32] {
        let sheets = impose_booklet(n, BookletSide::Duplex);
        assert_eq!(sheets.len(), n / 4);
        let mut seen = Vec::new();
        for sheet in &sheets {
            seen.extend(sheet.front.slots.iter().filter_map(|s| s.page));
            seen.extend(sheet.back.as_ref().unwrap().slots.iter().filter_map(|s| s.page));
        }
        seen.sort_unstable();
        assert_eq!(seen, (1..=n).collect::<Vec<_>>(), "page_count={n}");
    }
}

#[test]
fn single_sided_booklet_is_plain_sequential() {
    let sheets = impose_booklet(6, BookletSide::Single);
    assert_eq!(sheets.len(), 3);
    assert!(sheets.iter().all(|s| s.back.is_none()));
    let seen: Vec<usize> = sheets
        .iter()
        .flat_map(|s| s.front.slots.iter().filter_map(|slot| slot.page))
        .collect();
    assert_eq!(seen, vec![1, 2, 3, 4, 5, 6]);
}

#[test]
fn empty_booklets_have_no_sheets() {
    assert!(impose_booklet(0, BookletSide::Duplex).is_empty());
    assert!(impose_booklet(0, BookletSide::Single).is_empty());
}

#[test]
fn duplex_spreads_sum_to_page_count_plus_one() {
    let n = 16;
    for sheet in impose_booklet(n, BookletSide::Duplex) {
        let back = sheet.back.unwrap();
        assert_eq!(page_at(&sheet.front, 0) + page_at(&sheet.front, 1), n + 1);
        assert_eq!(page_at(&back, 0) + page_at(&back, 1), n + 1);
        assert_eq!((sheet.front.rows, sheet.front.cols), (1, 2));
        assert!(sheet.front.slots.iter().chain(back.slots.iter()).all(|s| !s.rotated));
    }
}

#[test]
fn duplex_booklet_twelve_pages_exact_layout() {
    let sheets = impose_booklet(12, BookletSide::Duplex);
    let layout: Vec<[usize; 4]> = sheets
        .iter()
        .map(|s| {
            let b = s.back.as_ref().unwrap();
            [page_at(&s.front, 0), page_at(&s.front, 1), page_at(b, 0), page_at(b, 1)]
        })
        .collect();
    assert_eq!(layout, vec![[12, 1, 2, 11], [10, 3, 4, 9], [8, 5, 6, 7]]);
}

#[test]
fn two_up_places_left_then_right() {
    let side = two_up(7, 2);
    assert_eq!((side.rows, side.cols), (1, 2));
    assert_eq!(page_at(&side, 0), 7);
    assert_eq!(page_at(&side, 1), 2);
    assert!(side.slots.iter().all(|s| !s.rotated));
}

#[test]
fn sixteen_page_zine_octavo_grid() {
    let sheet = impose_sixteen_page_zine();
    let back = sheet.back.as_ref().unwrap();
    for side in [&sheet.front, back] {
        assert_eq!((side.rows, side.cols), (2, 4));
        assert!(side.slots[0..4].iter().all(|s| s.rotated));
        assert!(side.slots[4..8].iter().all(|s| !s.rotated));
    }
    let front: Vec<usize> = (0..8).map(|i| page_at(&sheet.front, i)).collect();
    let rear: Vec<usize> = (0..8).map(|i| page_at(back, i)).collect();
    assert_eq!(front, vec![5, 12, 9, 8, 4, 13, 16, 1]);
    assert_eq!(rear, vec![7, 10, 11, 6, 2, 15, 14, 3]);
    // Each front cell backs the mirrored back cell: pages 2m-1 and 2m share a leaf.
    for row in 0..2 {
        for col in 0..4 {
            let f = front[row * 4 + col];
            let b = rear[row * 4 + (3 - col)];
            assert_eq!((f.min(b) + 1) / 2, (f.max(b) + 1) / 2);
            assert_eq!(f.min(b) % 2, 1);
        }
    }
    let mut seen: Vec<usize> = front.into_iter().chain(rear).collect();
    seen.sort_unstable();
    assert_eq!(seen, (1..=16).collect::<Vec<_>>());
}
