use commitgrid::config::{format_for_extension, Config, ConfigFormat, GridError};
use commitgrid::consts::GRID_SIZE;
use commitgrid::date::Date;

#[test]
fn txt_row_decodes_digits_and_full_marker() {
    let c = Config::from_txt("A0102");
    assert_eq!(c.0, vec![10, 0, 1, 0, 2]);
}

#[test]
fn txt_decode_skips_newlines() {
    let c = Config::from_txt("A01\n02\n");
    assert_eq!(c.0, vec![10, 0, 1, 0, 2]);
}

#[test]
fn txt_decode_maps_unknown_to_zero() {
    let c = Config::from_txt("xyz.9a");
    assert_eq!(c.0, vec![0, 0, 0, 0, 9, 10]);
}

#[test]
fn txt_decode_of_empty_text() {
    assert_eq!(Config::from_txt("").0, Vec::<u8>::new());
}

#[test]
fn json_array_parses() {
    let c = Config::from_json("[1,2,3]").unwrap();
    assert_eq!(c.0, vec![1, 2, 3]);
}

#[test]
fn json_rejects_bad_input() {
    assert!(Config::from_json("not json").is_none());
    assert!(Config::from_json("[300]").is_none());
    assert!(Config::from_json("{\"a\":1}").is_none());
}

#[test]
fn valid_accepts_only_grid_size() {
    assert!(Config(vec![0; GRID_SIZE]).valid().is_ok());
    assert!(matches!(
        Config(vec![0; GRID_SIZE - 1]).valid(),
        Err(GridError::SizeMismatch)
    ));
    assert!(matches!(
        Config(vec![0; GRID_SIZE + 1]).valid(),
        Err(GridError::SizeMismatch)
    ));
    assert!(matches!(Config(Vec::new()).valid(), Err(GridError::SizeMismatch)));
}

#[test]
fn to_grid_rejects_wrong_lengths() {
    let anchor = Date::from_ymd(2024, 1, 1).unwrap();
    assert!(matches!(
        Config(vec![0; GRID_SIZE - 1]).to_grid(Some(anchor)),
        Err(GridError::SizeMismatch)
    ));
    assert!(matches!(
        Config(vec![0; GRID_SIZE + 1]).to_grid(Some(anchor)),
        Err(GridError::SizeMismatch)
    ));
    assert!(matches!(Config(Vec::new()).to_grid(Some(anchor)), Err(GridError::SizeMismatch)));
}

#[test]
fn to_grid_applies_intensities_positionally() {
    let anchor = Date::from_ymd(2024, 1, 1).unwrap();
    let mut m = vec![0u8; GRID_SIZE];
    m[0] = 3;
    m[7] = 10;
    m[370] = 1;
    let grid = Config(m.clone()).to_grid(Some(anchor)).unwrap();
    assert_eq!(grid.0.len(), GRID_SIZE);
    for i in 0..GRID_SIZE {
        assert_eq!(grid.0[i].1, m[i]);
        assert_eq!(grid.0[i].0.day_number(), anchor.day_number() + i as u64);
    }
}

#[test]
fn to_grid_is_idempotent_for_one_matrix() {
    let anchor = Date::from_ymd(2024, 1, 1).unwrap();
    let mut m = vec![0u8; GRID_SIZE];
    m[5] = 7;
    let g1 = Config(m.clone()).to_grid(Some(anchor)).unwrap();
    let g2 = Config(m).to_grid(Some(anchor)).unwrap();
    for i in 0..GRID_SIZE {
        assert_eq!(g1.0[i].0.day_number(), g2.0[i].0.day_number());
        assert_eq!(g1.0[i].1, g2.0[i].1);
    }
}

#[test]
fn error_messages_name_the_failure() {
    assert_eq!(
        GridError::SizeMismatch.message(),
        "intensity matrix size must equal the grid size"
    );
    assert_eq!(GridError::NoRepository.message(), "no repository provided");
    assert_eq!(GridError::DoesNotFit.message(), "cannot fit into grid");
    assert_eq!(GridError::GlyphLoadError.message(), "cannot load font");
    assert_eq!(GridError::RepositoryInitFailure.message(), "cannot initialize repository");
    assert_eq!(GridError::RepositoryOpenFailure.message(), "cannot open repository");
    assert_eq!(GridError::ObjectWriteFailure.message(), "cannot write repository object");
}

#[test]
fn extension_selects_format_case_insensitively() {
    assert_eq!(format_for_extension("json"), Some(ConfigFormat::Json));
    assert_eq!(format_for_extension("JSON"), Some(ConfigFormat::Json));
    assert_eq!(format_for_extension("Txt"), Some(ConfigFormat::Txt));
    assert_eq!(format_for_extension("txt"), Some(ConfigFormat::Txt));
    assert_eq!(format_for_extension("ini"), None);
    assert_eq!(format_for_extension(""), None);
    assert_eq!(format_for_extension("jsonx"), None);
}
