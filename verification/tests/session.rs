use altostratus::command::{chars_of, trim_chars, CommandAction, CommandState};
use altostratus::fixed::SCALE;
use altostratus::{
    Args,
    AsciiRenderer,
    Camera,
    Color,
    ImageRenderer,
    ParseResult,
    PointCloud,
    Projector,
    Vec3,
};
use altostratus::args::{precheck_invocation, resolve_files};

const TAN_HALF_45: i64 = 414_214;

#[test]
fn test_precheck_invocation() {
    assert!(matches!(precheck_invocation(1, false), Some(ParseResult::ShowUsage)));
    assert!(matches!(precheck_invocation(2, true), Some(ParseResult::ShowDetailedHelp)));
    assert!(precheck_invocation(2, false).is_none());
    assert!(precheck_invocation(3, false).is_none());
}

#[test]
fn test_resolve_files_combines() {
    let args = Args {
        file: Some("a.txt".to_string()),
        files: vec!["b.txt".to_string(), "c.txt".to_string()],
        detailed_help: false,
    };
    match resolve_files(args) {
        ParseResult::LoadFiles(fs) => {
            assert_eq!(fs, vec!["a.txt", "b.txt", "c.txt"]);
        },
        _ => panic!("expected a load list"),
    }
}

#[test]
fn test_resolve_files_empty_shows_usage() {
    let args = Args { file: None, files: Vec::new(), detailed_help: false };
    assert!(matches!(resolve_files(args), ParseResult::ShowUsage));
}

#[test]
fn test_command_state_editing() {
    let mut state = CommandState::new();
    assert!(!state.is_active());

    state.enter_command_mode();
    assert!(state.is_active());

    state.add_char('l');
    state.add_char('s');
    state.backspace();
    state.add_char('x');

    state.exit_command_mode();
    assert!(!state.is_active());
}

#[test]
fn test_command_state_error() {
    let mut state = CommandState::new();
    assert!(state.error_message().is_none());
    state.set_error("no such file".to_string());
    assert_eq!(state.error_message().unwrap(), "no such file");
    state.clear_error();
    assert!(state.error_message().is_none());
}

#[test]
fn test_command_action_load() {
    let mut state = CommandState::new();
    state.enter_command_mode();
    for c in "  load  points.txt ".chars() {
        state.add_char(c);
    }
    match state.command_action() {
        CommandAction::LoadPath(p) => assert_eq!(p, "points.txt"),
        _ => panic!("expected a load action"),
    }
}

#[test]
fn test_command_action_clear() {
    let mut state = CommandState::new();
    state.enter_command_mode();
    for c in " clear ".chars() {
        state.add_char(c);
    }
    assert!(matches!(state.command_action(), CommandAction::ClearPoints));
}

#[test]
fn test_command_action_empty_and_unknown() {
    let mut state = CommandState::new();
    state.enter_command_mode();
    assert!(matches!(state.command_action(), CommandAction::Nothing));

    for c in "fly".chars() {
        state.add_char(c);
    }
    assert!(matches!(state.command_action(), CommandAction::Unknown));
}

#[test]
fn test_trim_chars() {
    let s = "  hello  ".to_string();
    let t = trim_chars(&chars_of(&s));
    assert_eq!(t, "hello".chars().collect::<Vec<_>>());

    let all_spaces = "   ".to_string();
    assert!(trim_chars(&chars_of(&all_spaces)).is_empty());
}

#[test]
fn test_projected_origin_hits_center() {
    // Projecting the world origin with a camera five units back lands
    // within a pixel of the center for several viewport sizes.
    let camera = Camera::look_at(Vec3::new(0, 0, 5_000_000), Vec3::new(0, 0, 0));
    for (w, h) in [(100u32, 100u32), (64, 48), (333, 177)] {
        let projector = Projector::new(w, h).unwrap();
        let sp = projector.project_point(Vec3::new(0, 0, 0), &camera, TAN_HALF_45).unwrap();
        assert!((sp.x - (w as i64) * SCALE / 2).abs() <= SCALE);
        assert!((sp.y - (h as i64) * SCALE / 2).abs() <= SCALE);
    }
}

#[test]
fn test_behind_camera_never_returned() {
    let camera = Camera::look_at(Vec3::new(0, 0, 5_000_000), Vec3::new(0, 0, 0));
    let projector = Projector::new(120, 90).unwrap();
    for z in [6_000_000i64, 10_000_000, 500_000_000] {
        for x in [-3_000_000i64, 0, 2_000_000] {
            assert!(projector.project_point(Vec3::new(x, 0, z), &camera, TAN_HALF_45).is_none());
        }
    }
}

#[test]
fn test_zoom_monotonic() {
    // Zooming in strictly decreases the distance to the target; zooming
    // out strictly increases it.
    let mut camera = Camera::look_at(Vec3::new(0, 0, 6_000_000), Vec3::new(0, 0, 0));
    let d0 = camera.distance_to_target();
    assert!(camera.zoom(3 * SCALE / 2).is_ok());
    let d1 = camera.distance_to_target();
    assert!(d1 < d0);
    assert!(camera.zoom(SCALE / 2).is_ok());
    let d2 = camera.distance_to_target();
    assert!(d2 > d1);
}

#[test]
fn three_colors_end_to_end() {
    // Three axis-unit points in red, green and blue, a camera at
    // (5, 5, 5) looking at the origin, rendered to a 200 by 200 image:
    // all three colors appear and nothing but them and the background.
    let mut cloud = PointCloud::new();
    cloud.add_point_coords(1_000_000, 0, 0, Color::red());
    cloud.add_point_coords(0, 1_000_000, 0, Color::green());
    cloud.add_point_coords(0, 0, 1_000_000, Color::blue());

    let camera = Camera::look_at(Vec3::new(5_000_000, 5_000_000, 5_000_000), Vec3::new(0, 0, 0));
    let mut renderer = ImageRenderer::new(200, 200).unwrap();

    let image = renderer.render(&cloud, &camera, TAN_HALF_45).unwrap();

    let mut has_red = false;
    let mut has_green = false;
    let mut has_blue = false;
    for y in 0..200 {
        for x in 0..200 {
            let p = image.get_pixel(x, y);
            if p == Color::red() {
                has_red = true;
            } else if p == Color::green() {
                has_green = true;
            } else if p == Color::blue() {
                has_blue = true;
            } else {
                assert_eq!(p, Color::black(), "only the three colors and background may appear");
            }
        }
    }
    assert!(has_red && has_green && has_blue);
}

#[test]
fn visible_point_always_marks_grid() {
    // Any cloud with a visible point yields at least one non-background
    // character.
    let camera = Camera::look_at(Vec3::new(0, 0, 5_000_000), Vec3::new(0, 0, 0));
    for coords in [(0i64, 0i64, 0i64), (1_000_000, 0, 0), (0, -500_000, 1_000_000)] {
        let mut cloud = PointCloud::new();
        cloud.add_point_coords(coords.0, coords.1, coords.2, Color::white());
        let mut renderer = AsciiRenderer::new(40, 20).unwrap();
        let out = renderer.render(&cloud, &camera, TAN_HALF_45).unwrap();
        assert!(out.chars().any(|c| c != ' ' && c != '\n'));
    }
}
