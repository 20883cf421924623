use zine_maker::export::{plan_export, side_placements, with_blank_pages, ExportError};
use zine_maker::imposition::{impose_booklet, impose_one_page_zine, two_up, BookletSide, SheetSide, Slot};
use zine_maker::project::PageEntry;

fn entry(id: &str, image: Option<&str>) -> PageEntry {
    PageEntry { id: id.to_string(), image_path: image.map(|s| s.to_string()) }
}

#[test]
fn blank_pages_are_appended_with_fresh_ids() {
    let pages = vec![entry("a", Some("a.png")), entry("b", None)];
    let padded = with_blank_pages(&pages, 3);
    assert_eq!(padded.len(), 5);
    assert_eq!(padded[0].id, "a");
    assert_eq!(padded[0].image_path.as_deref(), Some("a.png"));
    assert_eq!(padded[1].id, "b");
    assert!(padded[1].image_path.is_none());
    for blank in &padded[2..] {
        assert!(blank.image_path.is_none());
        assert_eq!(blank.id.len(), 36);
        let dashes: Vec<usize> = blank.id.char_indices().filter(|&(_, c)| c == '-').map(|(i, _)| i).collect();
        assert_eq!(dashes, vec![8, 13, 18, 23]);
    }
    assert_ne!(padded[2].id, padded[3].id);
}

#[test]
fn no_blank_pages_keeps_the_list() {
    let pages = vec![entry("x", Some("x.png"))];
    let padded = with_blank_pages(&pages, 0);
    assert_eq!(padded.len(), 1);
    assert_eq!(padded[0].id, "x");
}

#[test]
fn export_refuses_no_sheets() {
    assert_eq!(plan_export(&Vec::new(), false).err(), Some(ExportError::NoSheets));
    assert_eq!(plan_export(&Vec::new(), true).err(), Some(ExportError::NoSheets));
}

#[test]
fn duplex_export_has_front_then_back_per_sheet() {
    let sheets = impose_booklet(8, BookletSide::Duplex);
    let plan = plan_export(&sheets, false).ok().unwrap();
    assert_eq!(plan.page_count, 4);
    assert!(!plan.poster_back);
    let firsts: Vec<Option<usize>> = plan.sides.iter().map(|s| s.slots[0].page).collect();
    assert_eq!(firsts, vec![Some(8), Some(2), Some(6), Some(4)]);
}

#[test]
fn poster_back_adds_a_page() {
    let plan = plan_export(&vec![impose_one_page_zine()], true).ok().unwrap();
    assert_eq!(plan.sides.len(), 1);
    assert_eq!(plan.page_count, 2);
    assert!(plan.poster_back);
    assert_eq!(plan.sides[0].cols, 4);
}

#[test]
fn placements_follow_the_grid() {
    let sheet = impose_one_page_zine();
    let pages: Vec<PageEntry> = (1..=8)
        .map(|i: usize| PageEntry {
            id: i.to_string(),
            image_path: if i == 3 { None } else { Some(format!("p{i}.png")) },
        })
        .collect();
    let placed = side_placements(&sheet.front, &pages);
    let cells: Vec<(usize, usize, String, bool)> =
        placed.iter().map(|p| (p.row, p.col, p.image_path.clone(), p.rotated)).collect();
    assert_eq!(
        cells,
        vec![
            (0, 0, "p5.png".to_string(), true),
            (0, 1, "p4.png".to_string(), true),
            (0, 3, "p2.png".to_string(), true),
            (1, 0, "p6.png".to_string(), false),
            (1, 1, "p7.png".to_string(), false),
            (1, 2, "p8.png".to_string(), false),
            (1, 3, "p1.png".to_string(), false),
        ]
    );
}

#[test]
fn placements_skip_missing_and_blank_slots() {
    let side = SheetSide {
        rows: 1,
        cols: 3,
        slots: vec![
            Slot { page: None, rotated: false },
            Slot { page: Some(9), rotated: false },
            Slot { page: Some(1), rotated: true },
        ],
    };
    let pages = vec![entry("1", Some("one.png"))];
    let placed = side_placements(&side, &pages);
    assert_eq!(placed.len(), 1);
    assert_eq!((placed[0].row, placed[0].col, placed[0].rotated), (0, 2, true));
    assert_eq!(placed[0].image_path, "one.png");
    assert!(side_placements(&two_up(1, 1), &vec![entry("b", None)]).is_empty());
}
