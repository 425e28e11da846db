use commitgrid::builder::{build_dates, build_grid, generate_json_grid, generate_txt_grid};
use commitgrid::consts::GRID_SIZE;
use commitgrid::date::Date;
use commitgrid::fonts::glyph_fits;
use commitgrid::state::{State, StateMap};

#[test]
fn build_dates_with_monday_anchor() {
    let anchor = Date::from_ymd(2024, 1, 1).unwrap();
    let map = build_dates(Some(anchor));
    assert_eq!(map.0.len(), GRID_SIZE);
    assert_eq!(map.0[0].0.day_number(), anchor.day_number());
    assert_eq!(map.0[0].0.weekday_offset(), 0);
    for i in 0..GRID_SIZE {
        assert_eq!(map.0[i].0.day_number(), anchor.day_number() + i as u64);
        assert_eq!(map.0[i].1, 0);
    }
}

#[test]
fn build_dates_normalizes_origin_to_monday() {
    let wed = Date::from_ymd(2024, 1, 3).unwrap();
    let map = build_dates(Some(wed));
    assert_eq!(map.0[0].0.ymd(), (2024, 1, 1));
    assert_eq!(map.0[0].0.weekday_offset(), 0);
}

#[test]
fn build_dates_from_clock_starts_on_monday() {
    let map = build_dates(None);
    assert_eq!(map.0.len(), GRID_SIZE);
    assert_eq!(map.0[0].0.weekday_offset(), 0);
    for i in 1..GRID_SIZE {
        assert!(map.0[i - 1].0.day_number() < map.0[i].0.day_number());
    }
}

#[test]
fn default_state_map_is_blank() {
    let map = StateMap::default();
    assert_eq!(map.0.len(), GRID_SIZE);
    for cell in &map.0 {
        assert_eq!(cell.1, 0);
        assert_eq!(cell.0.day_number(), 0);
    }
}

#[test]
fn txt_grid_renders_rows_of_seven() {
    let map = StateMap::default();
    let txt = generate_txt_grid(map);
    let expected = vec!["0000000"; 53].join("\n");
    assert_eq!(txt, expected);
}

#[test]
fn txt_grid_writes_full_shade_as_letter() {
    let d = Date::from_ymd(2024, 1, 1).unwrap();
    let map = StateMap(vec![State(d, 10), State(d, 0), State(d, 7)]);
    assert_eq!(generate_txt_grid(map), "A07");
}

#[test]
fn json_grid_of_three_cells() {
    let d = Date::from_ymd(2024, 1, 1).unwrap();
    let map = StateMap(vec![State(d, 1), State(d, 2), State(d, 3)]);
    assert_eq!(generate_json_grid(map), "[\n1,2,3\n]");
}

#[test]
fn json_grid_breaks_line_per_week() {
    let d = Date::from_ymd(2024, 1, 1).unwrap();
    let map = StateMap(vec![State(d, 0); 8]);
    assert_eq!(generate_json_grid(map), "[\n0,0,0,0,0,0,0,\n0\n]");
}

#[test]
fn html_grid_has_one_cell_per_day_and_row_per_week() {
    let anchor = Date::from_ymd(2024, 1, 1).unwrap();
    let map = build_dates(Some(anchor));
    let html = build_grid(map);
    assert_eq!(html.matches("<td").count(), GRID_SIZE);
    assert_eq!(html.matches("<tr>").count(), 53);
    assert_eq!(html.matches("</tr>").count(), 53);
    assert!(html.contains("2024-1-1"));
    assert!(html.contains("<!DOCTYPE html>"));
    assert!(html.contains("</html>"));
}

#[test]
fn html_grid_shades_by_intensity() {
    let d = Date::from_ymd(2024, 1, 1).unwrap();
    let map = StateMap(vec![State(d, 10), State(d, 1), State(d, 0)]);
    let html = build_grid(map);
    assert!(html.contains("class=\"filled100\""));
    assert!(html.contains("class=\"filled10\""));
    assert!(html.contains("class=\"empty\""));
}

#[test]
fn glyph_fit_boundary() {
    assert!(glyph_fits(53));
    assert!(!glyph_fits(54));
    assert!(glyph_fits(0));
}
