use render::{
    camera_origin, floor_to_cell, render_all, screen_anchor, z_order, Camera, FrameBuffer, Node, Screen,
    SUBCELLS,
};

const RESET: &str = "\x1b[0m";

fn node(x: i64, y: i64, z_index: i32, rows: &[&str], transparency: Option<char>, color: Option<&str>) -> Node {
    Node {
        x,
        y,
        rotation: 0,
        z_index,
        texture: rows.iter().map(|r| r.chars().collect()).collect(),
        transparency,
        color: color.map(|c| c.to_string()),
        visible: true,
    }
}

fn screen(width: u32, height: u32, fill: char) -> Screen {
    Screen { width, height, transparency_fill: fill }
}

fn origin() -> Camera {
    Camera { x: 0, y: 0 }
}

/// Builds the expected text of a frame from plain rows of glyphs, with one
/// optional color per cell.
fn styled(rows: &[&[(char, Option<&str>)]]) -> String {
    rows.iter()
        .map(|row| {
            row.iter()
                .map(|(g, c)| format!("{RESET}{}{g}", c.unwrap_or("")))
                .collect::<String>()
        })
        .collect::<Vec<String>>()
        .join("\n")
}

fn plain(rows: &[&str]) -> String {
    rows.iter()
        .map(|row| row.chars().map(|g| format!("{RESET}{g}")).collect::<String>())
        .collect::<Vec<String>>()
        .join("\n")
}

/// Removes the reset sequences, leaving glyphs and newlines (for frames
/// without colors).
fn glyphs(text: &str) -> String {
    text.replace(RESET, "")
}

#[test]
fn invisible_node_is_skipped_and_visible_one_drawn() {
    let mut hidden = node(0, 0, 5, &["XXX", "XXX"], None, None);
    hidden.visible = false;
    let shown = node(0, 0, 0, &["AB"], None, None);
    let out = render_all(&screen(3, 2, '.'), &vec![hidden, shown], &origin(), 0, 0);
    assert_eq!(out, plain(&["AB.", "..."]));
}

#[test]
fn higher_z_index_wins_overlap() {
    let low = node(0, 0, 1, &["L"], None, Some("\x1b[31m"));
    let high = node(0, 0, 2, &["H"], None, Some("\x1b[32m"));
    let expected = styled(&[&[('H', Some("\x1b[32m")), ('.', None)]]);
    let s = screen(2, 1, '.');
    assert_eq!(render_all(&s, &vec![low, high], &origin(), 0, 0), expected);
    let low = node(0, 0, 1, &["L"], None, Some("\x1b[31m"));
    let high = node(0, 0, 2, &["H"], None, Some("\x1b[32m"));
    assert_eq!(render_all(&s, &vec![high, low], &origin(), 0, 0), expected);
}

#[test]
fn transparent_glyph_leaves_cell_underneath() {
    let n = node(0, 0, 0, &["A#B"], Some('#'), None);
    let out = render_all(&screen(3, 1, '.'), &vec![n], &origin(), 0, 0);
    assert_eq!(out, plain(&["A.B"]));
}

#[test]
fn transparent_glyph_keeps_earlier_node() {
    let under = node(0, 0, 0, &["xyz"], None, None);
    let over = node(0, 0, 1, &["A#B"], Some('#'), None);
    let out = render_all(&screen(3, 1, '.'), &vec![over, under], &origin(), 0, 0);
    assert_eq!(out, plain(&["AyB"]));
}

#[test]
fn equal_z_later_in_list_wins() {
    let first = node(0, 0, 3, &["11"], None, None);
    let second = node(SUBCELLS, 0, 3, &["22"], None, None);
    let out = render_all(&screen(3, 1, '.'), &vec![first, second], &origin(), 0, 0);
    assert_eq!(out, plain(&["122"]));
    let first = node(0, 0, 3, &["11"], None, None);
    let second = node(SUBCELLS, 0, 3, &["22"], None, None);
    let out = render_all(&screen(3, 1, '.'), &vec![second, first], &origin(), 0, 0);
    assert_eq!(out, plain(&["112"]));
}

#[test]
fn glyphs_off_screen_are_clipped() {
    let n = node(-SUBCELLS, -SUBCELLS, 0, &["abc", "def", "ghi", "jkl"], None, None);
    let out = render_all(&screen(2, 2, '.'), &vec![n], &origin(), 0, 0);
    assert_eq!(out, plain(&["ef", "hi"]));
    let far = node(10 * SUBCELLS, 0, 0, &["zz"], None, None);
    let out = render_all(&screen(2, 2, '.'), &vec![far], &origin(), 0, 0);
    assert_eq!(out, plain(&["..", ".."]));
}

#[test]
fn rows_of_unequal_length() {
    let n = node(0, 0, 0, &["a", "", "bcdef"], None, None);
    let out = render_all(&screen(3, 3, '.'), &vec![n], &origin(), 0, 0);
    assert_eq!(out, plain(&["a..", "...", "bcd"]));
}

#[test]
fn fractional_positions_round_down() {
    // Half a cell to the right still lands on column 0; half a cell to the
    // left lands on column -1 and is clipped.
    let right = node(SUBCELLS / 2, 0, 0, &["R"], None, None);
    let out = render_all(&screen(2, 1, '.'), &vec![right], &origin(), 0, 0);
    assert_eq!(out, plain(&["R."]));
    let left = node(-SUBCELLS / 2, 0, 0, &["LM"], None, None);
    let out = render_all(&screen(2, 1, '.'), &vec![left], &origin(), 0, 0);
    assert_eq!(out, plain(&["M."]));
}

#[test]
fn camera_and_centering_shift_the_view() {
    let n = node(5 * SUBCELLS, 5 * SUBCELLS, 0, &["C"], None, None);
    let camera = Camera { x: 6 * SUBCELLS, y: 6 * SUBCELLS };
    let out = render_all(&screen(3, 3, '.'), &vec![n], &camera, SUBCELLS, 2 * SUBCELLS);
    assert_eq!(out, plain(&["...", "C..", "..."]));
    assert_eq!(camera_origin(&camera, SUBCELLS, 2 * SUBCELLS), (5 * SUBCELLS as i128, 4 * SUBCELLS as i128));
    let n = node(5 * SUBCELLS, 5 * SUBCELLS, 0, &["C"], None, None);
    assert_eq!(screen_anchor(&n, &camera, SUBCELLS, 2 * SUBCELLS), (0, 1));
}

#[test]
fn zero_sized_screen_renders_empty() {
    let n = node(0, 0, 0, &["A"], None, None);
    assert_eq!(render_all(&screen(0, 0, '.'), &vec![n], &origin(), 0, 0), "");
    let n = node(0, 0, 0, &["A"], None, None);
    assert_eq!(render_all(&screen(0, 2, '.'), &vec![n], &origin(), 0, 0), "\n");
}

#[test]
fn no_nodes_gives_fill() {
    let out = render_all(&screen(2, 3, ' '), &vec![], &origin(), 0, 0);
    assert_eq!(out, plain(&["  ", "  ", "  "]));
}

#[test]
fn output_has_height_lines_of_width_cells() {
    let a = node(SUBCELLS, 0, 1, &["abcdefg"], None, None);
    let b = node(-3 * SUBCELLS, 2 * SUBCELLS, 0, &["hij", "klmnopqrst"], None, None);
    let out = render_all(&screen(4, 5, '.'), &vec![a, b], &origin(), 0, 0);
    let lines: Vec<String> = glyphs(&out).split('\n').map(|s| s.to_string()).collect();
    assert_eq!(lines.len(), 5);
    for line in &lines {
        assert_eq!(line.chars().count(), 4);
    }
    assert_eq!(lines, vec![".abc", "....", "....", "nopq", "...."]);
    assert_eq!(out.matches(RESET).count(), 20);
}

#[test]
fn rendering_is_deterministic() {
    let build = || {
        vec![
            node(0, 0, 2, &["ab", "cd"], Some('b'), Some("\x1b[1m")),
            node(SUBCELLS, SUBCELLS, 2, &["ef"], None, None),
            node(0, SUBCELLS, -1, &["gh"], None, Some("\x1b[4m")),
        ]
    };
    let s = screen(3, 3, '~');
    let first = render_all(&s, &build(), &origin(), 0, 0);
    let second = render_all(&s, &build(), &origin(), 0, 0);
    assert_eq!(first, second);
    let expected = styled(&[
        &[('a', Some("\x1b[1m")), ('~', None), ('~', None)],
        &[('c', Some("\x1b[1m")), ('e', None), ('f', None)],
        &[('~', None), ('~', None), ('~', None)],
    ]);
    assert_eq!(first, expected);
}

#[test]
fn floor_to_cell_rounds_toward_negative_infinity() {
    assert_eq!(floor_to_cell(0), 0);
    assert_eq!(floor_to_cell(1), 0);
    assert_eq!(floor_to_cell(65535), 0);
    assert_eq!(floor_to_cell(65536), 1);
    assert_eq!(floor_to_cell(-1), -1);
    assert_eq!(floor_to_cell(-65536), -1);
    assert_eq!(floor_to_cell(-65537), -2);
    assert_eq!(floor_to_cell(3 * 65536 + 7), 3);
}

#[test]
fn z_order_is_stable() {
    let nodes = vec![
        node(0, 0, 2, &[], None, None),
        node(0, 0, 1, &[], None, None),
        node(0, 0, 2, &[], None, None),
        node(0, 0, -4, &[], None, None),
        node(0, 0, 1, &[], None, None),
    ];
    assert_eq!(z_order(&nodes), vec![3, 1, 4, 0, 2]);
    assert_eq!(z_order(&vec![]), Vec::<usize>::new());
}

#[test]
fn frame_buffer_paints_and_serializes() {
    let mut buf = FrameBuffer::new(3, 2, '.');
    let n = node(0, 0, 0, &["xy"], Some('y'), Some("\x1b[35m"));
    buf.paint_node(&n, 1, 1);
    assert_eq!(buf.to_text(), styled(&[
        &[('.', None), ('.', None), ('.', None)],
        &[('.', None), ('x', Some("\x1b[35m")), ('.', None)],
    ]));
    let mut hidden = node(0, 0, 0, &["qq"], None, None);
    hidden.visible = false;
    assert!(!hidden.is_globally_visible());
    buf.paint_node(&hidden, 0, 0);
    assert_eq!(glyphs(&buf.to_text()).chars().filter(|c| *c == 'q').count(), 0);
}
