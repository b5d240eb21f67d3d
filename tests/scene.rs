use pride_month::art::art_rows;
use pride_month::color::{assemble_cycle, foreground, Rgb};
use pride_month::compositor::{render_frame, Piece, Scene, SceneError};
use pride_month::layout::Layout;

fn rgb(r: u8, g: u8, b: u8) -> Rgb {
    Rgb { r, g, b }
}

fn chars(s: &str) -> Vec<char> {
    s.chars().collect()
}

fn palette_of(n: u8) -> Vec<Vec<Rgb>> {
    vec![(0..n).map(|i| rgb(i, i, i)).collect()]
}

/// The background in force at each cell of a row, and each cell's character.
fn cells(row: &[Piece]) -> Vec<(Rgb, bool, char)> {
    let mut bg = (rgb(0, 0, 0), false);
    let mut out = Vec::new();
    for p in row {
        match *p {
            Piece::Stripe(c) => bg = (c, false),
            Piece::Shaded(c) => bg = (c, true),
            Piece::Glyph(g) => out.push((bg.0, bg.1, g)),
            Piece::Ink(_) | Piece::Break => {}
        }
    }
    out
}

#[test]
fn layout_80_by_24_scenario() {
    let l = Layout::new(80, 24, 6, 54, 24);
    assert_eq!(l.block_width, 8);
    assert_eq!(l.notice_start_x, 55);
    assert_eq!(l.notice_end_x, 79);
    assert_eq!(l.notice_y, 23);
    assert_eq!(l.text_start_y, 9);
    assert_eq!(l.text_end_y, 15);
    assert_eq!(l.text_start_x, 13);
    assert_eq!(l.text_end_x, 67);
}

#[test]
fn scenario_first_cell_uses_first_color() {
    let art: String = std::iter::repeat("#".repeat(54)).take(6).collect::<Vec<_>>().join("\n");
    let notice = chars("Press enter to continue!");
    let presets = vec![vec![rgb(10, 20, 30), rgb(40, 50, 60)], vec![rgb(70, 80, 90)]];
    let scene = Scene::new(80, 24, &presets, &chars(&art), &notice).unwrap();
    assert_eq!(scene.layout, Layout::new(80, 24, 6, 54, 24));
    let rows = render_frame(&scene, 0, &vec![0i64; 24]);
    assert_eq!(rows.len(), 24);
    assert_eq!(rows[0][0], Piece::Stripe(rgb(10, 20, 30)));
    assert_eq!(rows[0][1], Piece::Ink(rgb(0xFF, 0xE0, 0x9B)));
    assert_eq!(rows[0][2], Piece::Stripe(rgb(10, 20, 30)));
    assert_eq!(rows[0][3], Piece::Glyph(' '));
}

#[test]
fn real_notice_is_right_aligned() {
    let presets = palette_of(3);
    let scene =
        Scene::new(80, 24, &presets, &chars("\nab\ncd\n"), &chars("Press enter to continue")).unwrap();
    assert_eq!(scene.layout.notice_start_x, 56);
    assert_eq!(scene.layout.notice_end_x, 79);
    let rows = render_frame(&scene, 0, &vec![0i64; 24]);
    let last: String = cells(&rows[23]).iter().map(|c| c.2).collect();
    assert_eq!(&last[56..79], "Press enter to continue");
    assert_eq!(&last[79..], " ");
}

#[test]
fn layout_fits_when_content_fits() {
    let l = Layout::new(20, 5, 5, 20, 19);
    assert_eq!((l.text_start_x, l.text_end_x), (0, 20));
    assert_eq!((l.text_start_y, l.text_end_y), (0, 5));
    assert_eq!((l.notice_start_x, l.notice_end_x, l.notice_y), (0, 19, 4));
}

#[test]
fn oversized_content_gives_negative_boxes_and_still_renders() {
    let l = Layout::new(10, 3, 6, 21, 30);
    assert_eq!(l.text_start_y, 1 - 3);
    assert_eq!(l.text_start_x, 5 - 10);
    assert_eq!(l.text_end_x, 16);
    assert_eq!(l.notice_start_x, -21);
    let art = chars(&vec!["x".repeat(21); 6].join("\n"));
    let scene = Scene::new(10, 3, &palette_of(4), &art, &chars(&"n".repeat(30))).unwrap();
    let rows = render_frame(&scene, 7, &vec![1i64, -2, 2]);
    assert_eq!(rows.len(), 3);
    for row in &rows {
        assert_eq!(cells(row).len(), 10);
    }
}

#[test]
fn cycle_concatenates_presets_in_order() {
    let presets = vec![vec![rgb(1, 1, 1), rgb(2, 2, 2)], vec![], vec![rgb(1, 1, 1)]];
    assert_eq!(assemble_cycle(&presets), vec![rgb(1, 1, 1), rgb(2, 2, 2), rgb(1, 1, 1)]);
    assert_eq!(assemble_cycle(&vec![]), Vec::<Rgb>::new());
}

#[test]
fn foreground_is_warm_off_white() {
    assert_eq!(foreground(), rgb(0xFF, 0xE0, 0x9B));
}

#[test]
fn scene_errors() {
    let art = chars("ab");
    assert_eq!(Scene::new(8, 24, &palette_of(3), &art, &art).err(), Some(SceneError::TooNarrow));
    assert_eq!(Scene::new(9, 24, &vec![vec![]], &art, &art).err(), Some(SceneError::NoColors));
    assert_eq!(Scene::new(9, 24, &vec![], &art, &art).err(), Some(SceneError::NoColors));
    assert!(Scene::new(9, 1, &palette_of(1), &art, &art).is_ok());
}

#[test]
fn art_rows_trim_one_newline_each_side() {
    let rows = art_rows(&chars("\n.==.\n|  |\n'=='\n"));
    assert_eq!(rows, vec![chars(".==."), chars("|  |"), chars("'=='")]);
    assert_eq!(art_rows(&chars("")), vec![Vec::<char>::new()]);
    assert_eq!(art_rows(&chars("\n\n")), vec![Vec::<char>::new()]);
    assert_eq!(art_rows(&chars("\n\na\n\n")), vec![vec![], chars("a"), vec![]]);
}

#[test]
fn rows_end_with_break_but_the_last() {
    let scene = Scene::new(18, 4, &palette_of(5), &chars("ab"), &chars("hi")).unwrap();
    let rows = render_frame(&scene, 0, &vec![0i64; 4]);
    for (y, row) in rows.iter().enumerate() {
        assert_eq!(row.last() == Some(&Piece::Break), y != 3);
        assert_eq!(row.iter().filter(|p| **p == Piece::Break).count(), usize::from(y != 3));
    }
}

#[test]
fn rendering_twice_gives_the_same_frame() {
    let scene = Scene::new(30, 7, &palette_of(6), &chars("\nabc\ndef\n"), &chars("go")).unwrap();
    let ripples = vec![0i64, 1, 2, 1, 0, -1, -2];
    assert_eq!(render_frame(&scene, 42, &ripples), render_frame(&scene, 42, &ripples));
}

#[test]
fn advancing_two_frames_shifts_stripes() {
    let scene = Scene::new(36, 3, &palette_of(7), &chars(""), &chars("")).unwrap();
    let before = render_frame(&scene, 10, &vec![0i64, 1, -1]);
    let after = render_frame(&scene, 12, &vec![0i64, 2, -2]);
    // Row 0: ripple unchanged, shift 2; row 1: +1, shift 3; row 2: -1, shift 1.
    for (y, shift) in [(0usize, 2usize), (1, 3), (2, 1)] {
        let a = cells(&after[y]);
        let b = cells(&before[y]);
        // Stripes are visible from the first boundary of each row onwards.
        for x in 8..(36 - shift) {
            assert_eq!(a[x].0, b[x + shift].0, "row {y} column {x}");
        }
    }
}

#[test]
fn stripe_colour_at_known_cells() {
    // block width 2, cycle of 3 greys; frame 0, ripple 0: idx = x + y.
    let scene = Scene::new(18, 2, &palette_of(3), &chars(""), &chars("")).unwrap();
    let rows = render_frame(&scene, 0, &vec![0i64, 0]);
    let row0: Vec<u8> = cells(&rows[0]).iter().map(|c| c.0.r).collect();
    // Column 16 and 17 are the notice's border columns: a fresh run there.
    assert_eq!(row0, vec![0, 0, 1, 1, 2, 2, 0, 0, 1, 1, 2, 2, 0, 0, 1, 1, 2, 2]);
}

#[test]
fn negative_ripple_wraps_to_the_end_of_the_cycle() {
    let scene = Scene::new(18, 1, &palette_of(4), &chars(""), &chars("")).unwrap();
    let rows = render_frame(&scene, 0, &vec![-2i64]);
    // idx = x - 2 at x = 0 is -2: stripe -1, the cycle's last colour.
    assert_eq!(rows[0][2], Piece::Stripe(rgb(3, 3, 3)));
}

#[test]
fn overlay_covers_art_and_notice_boxes() {
    let scene = Scene::new(27, 5, &palette_of(9), &chars("\nab\ncd\nef\n"), &chars("ok")).unwrap();
    let l = scene.layout;
    assert_eq!((l.text_start_x, l.text_end_x, l.text_start_y, l.text_end_y), (12, 14, 1, 4));
    let rows = render_frame(&scene, 0, &vec![0i64; 5]);
    let mid = cells(&rows[2]);
    // Middle art row: the overlay reaches two columns beyond the box.
    assert!(!mid[9].1);
    assert!(mid[10].1 && mid[11].1 && mid[14].1 && mid[15].1);
    assert!(!mid[16].1);
    assert_eq!((mid[12].2, mid[13].2), ('c', 'd'));
    let top = cells(&rows[1]);
    // Top art row: one column beyond the box.
    assert!(!top[10].1 && top[11].1 && top[14].1 && !top[15].1);
    let last = cells(&rows[4]);
    assert_eq!((l.notice_start_x, l.notice_end_x), (24, 26));
    assert!(!last[22].1 && last[23].1 && last[26].1);
    assert_eq!((last[24].2, last[25].2, last[26].2), ('o', 'k', ' '));
}

#[test]
fn late_frames_render() {
    let scene = Scene::new(18, 2, &palette_of(5), &chars(""), &chars("")).unwrap();
    let rows = render_frame(&scene, u64::MAX, &vec![2i64, 2]);
    assert_eq!(cells(&rows[1]).len(), 18);
}

#[test]
fn row_start_follows_a_negative_ripple() {
    // Width 80: stripes 8 wide. Frame 8, row 0, ripple -2: cells 0 and 1 have
    // wave indices 6 and 7, so they lie in the first stripe.
    let scene = Scene::new(80, 24, &palette_of(5), &chars(""), &chars("")).unwrap();
    let mut ripples = vec![0i64; 24];
    ripples[0] = -2;
    let rows = render_frame(&scene, 8, &ripples);
    assert_eq!(rows[0][0], Piece::Stripe(rgb(0, 0, 0)));
    let row0 = cells(&rows[0]);
    assert_eq!((row0[0].0, row0[1].0, row0[2].0), (rgb(0, 0, 0), rgb(0, 0, 0), rgb(1, 1, 1)));
}

#[test]
fn every_cell_shows_its_own_stripe() {
    let scene = Scene::new(45, 9, &palette_of(7), &chars("\nabc\ndef\nghi\n"), &chars("ok")).unwrap();
    let bw = i64::from(scene.layout.block_width);
    for frame in [0u64, 2, 8, 9, 40] {
        let ripples: Vec<i64> = (0..9).map(|y| [-2i64, -1, 0, 1, 2][(y + frame as usize) % 5]).collect();
        let rows = render_frame(&scene, frame, &ripples);
        for (y, row) in rows.iter().enumerate() {
            for (x, cell) in cells(row).iter().enumerate() {
                let idx = frame as i64 + x as i64 + y as i64 + ripples[y];
                let k = idx.div_euclid(bw).rem_euclid(7) as u8;
                assert_eq!(cell.0, rgb(k, k, k), "frame {frame} row {y} column {x}");
            }
        }
    }
}
