use cheatess::config::{validate_region, Mode, ScreenRegion, StockfishConfig};
use cheatess::error::CheatessError;
use cheatess::locator::{get_board_region, QuadCandidate};
use cheatess::monitor::select_monitor_from_iterable;

#[test]
fn test_region_validation_passed() {
    let region = ScreenRegion::new(100, 100, 800, 600);

    let result = validate_region(&region);
    assert!(result.is_ok(), "Region should be valid");
}

#[test]
fn test_region_validation_failed() {
    let cases: Vec<(i32, i32, u32, u32, &str)> = vec![
        (100, 100, 0, 600, "Width and height must be non-zero"),
        (100, 100, 800, 0, "Width and height must be non-zero"),
        (-25, 100, 800, 100, "Coordinates must be non-negative"),
        (42, -1, 800, 100, "Coordinates must be non-negative"),
    ];
    for (x, y, width, height, err_msg) in cases {
        let region = ScreenRegion::new(x, y, width, height);
        let result = validate_region(&region);
        assert_eq!(result.err().unwrap(), err_msg.to_string());
    }
}

#[test]
fn screen_region_round_trip() {
    let region = ScreenRegion::new(1, -2, 30, 40);
    assert_eq!(region.values(), (1, -2, 30, 40));
}

#[test]
fn screen_region_try_from_reads_the_tuple_form() {
    let region = ScreenRegion::try_from("(10, 20, 300, 400)").unwrap();
    assert_eq!(region.values(), (10, 20, 300, 400));

    let bare = ScreenRegion::try_from("-5,0,1,2").unwrap();
    assert_eq!(bare.values(), (-5, 0, 1, 2));
}

#[test]
fn screen_region_try_from_rejects_bad_text() {
    assert!(ScreenRegion::try_from("(1, 2, 3)").is_err());
    assert!(ScreenRegion::try_from("(1, 2, 3, x)").is_err());
    assert!(ScreenRegion::try_from("(1, 2, -3, 4)").is_err());
}

#[test]
fn stockfish_config_fills_defaults() {
    let config = StockfishConfig::new("engines/stockfish", None, None, None);
    assert!(config.is_ok());
    let explicit = StockfishConfig::new("engines/stockfish", Some(7), Some(64), Some(1900));
    assert!(explicit.is_ok());
}

#[test]
fn mode_defaults_to_game() {
    assert_eq!(Mode::default(), Mode::Game);
    assert!(Mode::Game != Mode::Test);
}

fn monitors() -> Vec<(String, bool)> {
    vec![
        ("Monitor1".to_string(), false),
        ("Monitor2".to_string(), false),
        ("Monitor3".to_string(), true),
    ]
}

#[test]
fn test_select_monitor_by_name() {
    let picked = select_monitor_from_iterable(&Some("Monitor2".to_string()), &monitors()).unwrap();
    assert_eq!(picked, 1);
}

#[test]
fn test_select_primary_monitor() {
    let picked = select_monitor_from_iterable(&None, &monitors()).unwrap();
    assert_eq!(picked, 2);
}

#[test]
fn test_select_nonexisting_monitor() {
    let err = select_monitor_from_iterable(&Some("xxx".to_string()), &monitors()).unwrap_err();
    assert!(matches!(err, CheatessError::MonitorNotFound));
}

fn square_quad(area: u64, v0: (i32, i32), v2: (i32, i32)) -> QuadCandidate {
    QuadCandidate {
        vertices: 4,
        convex: true,
        area,
        bound_w: v2.0 - v0.0,
        bound_h: v2.1 - v0.1,
        v0,
        v2,
    }
}

#[test]
fn board_region_picks_the_largest_square_quad() {
    let candidates = vec![
        square_quad(100, (5, 5), (25, 25)),
        square_quad(900, (10, 20), (110, 120)),
        QuadCandidate {
            // huge but not a quadrilateral
            vertices: 6,
            convex: true,
            area: 100000,
            bound_w: 500,
            bound_h: 500,
            v0: (0, 0),
            v2: (500, 500),
        },
        QuadCandidate {
            // huge quadrilateral with a far from square bounding box
            vertices: 4,
            convex: true,
            area: 100000,
            bound_w: 500,
            bound_h: 100,
            v0: (0, 0),
            v2: (500, 100),
        },
    ];
    let region = get_board_region(&candidates).unwrap();
    assert_eq!(region, (10, 20, 100, 100));
}

#[test]
fn board_region_rejects_inverted_corners() {
    let twisted = vec![square_quad(900, (110, 120), (10, 20))];
    // eligible by bounding box, but its first vertex is not the top-left
    let candidate = QuadCandidate {
        bound_w: 100,
        bound_h: 100,
        ..twisted[0]
    };
    assert_eq!(
        get_board_region(&vec![candidate]),
        Err(CheatessError::ImageOp)
    );
}

#[test]
fn board_region_reports_board_not_found() {
    let empty: Vec<QuadCandidate> = Vec::new();
    assert_eq!(
        get_board_region(&empty),
        Err(CheatessError::BoardNotFound)
    );
    let concave = vec![QuadCandidate {
        vertices: 4,
        convex: false,
        area: 900,
        bound_w: 100,
        bound_h: 100,
        v0: (0, 0),
        v2: (100, 100),
    }];
    assert_eq!(
        get_board_region(&concave),
        Err(CheatessError::BoardNotFound)
    );
}
