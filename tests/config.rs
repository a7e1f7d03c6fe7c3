use hypowertools::config::{background_path, parse_rgba_color, read_colors_from_config, Colors, Position, Rgba};
use hypowertools::placement::{switcher_width, window_origin, Padding, Placement};

#[test]
fn rgba_colors() {
    assert_eq!(parse_rgba_color("rgba(ff0080cc)"), Some(Rgba::new(255, 0, 128, 204)));
    assert_eq!(parse_rgba_color("rgba( 0A0b0C0d )"), Some(Rgba::new(10, 11, 12, 13)));
    assert_eq!(parse_rgba_color("rgba(+f+f+f+f)"), Some(Rgba::new(15, 15, 15, 15)));
    assert_eq!(parse_rgba_color("rgba(ff0080)"), None);
    assert_eq!(parse_rgba_color("rgba(ff0080zz)"), None);
    assert_eq!(parse_rgba_color("rgb(ff0080cc)"), None);
    assert_eq!(parse_rgba_color("rgba(ff0080cc"), None);
    assert_eq!(parse_rgba_color(""), None);
}

const THEME: &str = "\
$surface_container_low = rgba(1b1b21ff)
$surface_container_high = rgba(292a2fff)
$on_surface_variant = rgba(c6c5d0ff)
$on_primary_fixed = rgba(08164bff)
$primary_fixed_dim = rgba(b9c3ffff)
$surface = rgba(121318ff)
$surface_container = rgba(1f1f25ff)
$outline = rgba(90909aff)
$outline = rgba(01020304)
$image = \"~/Pictures/wall.png\"
";

#[test]
fn theme_file_defines_palette() {
    let c = read_colors_from_config(THEME).unwrap();
    assert_eq!(c.surface_container_low, Rgba::new(27, 27, 33, 255));
    assert_eq!(c.primary_fixed_dim, Rgba::new(185, 195, 255, 255));
    assert_eq!(c.outline, Rgba::new(1, 2, 3, 4));
    assert_eq!(Colors::new(Some(THEME)), c);
}

#[test]
fn incomplete_theme_falls_back_to_defaults() {
    assert!(read_colors_from_config("$surface = rgba(121318ff)\n").is_none());
    let d = Colors::new(Some("$surface = rgba(00000000)\n"));
    assert_eq!(d, Colors::new(None));
    assert_eq!(d.surface, Rgba::new(18, 19, 24, 255));
    assert_eq!(d.outline, Rgba::new(144, 144, 154, 255));
    let broken = THEME.replace("rgba(1b1b21ff)", "rgba(1b1b21)");
    assert!(read_colors_from_config(&broken).is_none());
}

#[test]
fn wallpaper_path_from_theme() {
    assert_eq!(background_path(THEME, Some("/home/u")), Some("/home/u/Pictures/wall.png".to_string()));
    assert_eq!(background_path(THEME, None), Some("~/Pictures/wall.png".to_string()));
    assert_eq!(background_path("image=/w.jpg\nimage=/x.jpg", Some("/h")), Some("/w.jpg".to_string()));
    assert_eq!(background_path("$surface = rgba(121318ff)\n", Some("/h")), None);
}

#[test]
fn positions_parse_in_any_case() {
    assert_eq!(Position::parse("center"), Ok(Position::Center));
    assert_eq!(Position::parse("Top-Left"), Ok(Position::TopLeft));
    assert_eq!(Position::parse("BOTTOM-RIGHT"), Ok(Position::BottomRight));
    assert_eq!(Position::parse("middle"), Err("Invalid position: middle".to_string()));
    assert_eq!("top".parse::<Position>(), Ok(Position::Top));
}

#[test]
fn placement_gives_up_after_five_attempts() {
    let mut p = Placement::new();
    for _ in 0..5 {
        assert!(p.should_attempt());
        p.record_attempt(false);
    }
    assert!(!p.should_attempt());
    assert_eq!(p, Placement::Unplaced { attempts: 5 });
    let mut q = Placement::new();
    q.record_attempt(false);
    q.record_attempt(true);
    assert_eq!(q, Placement::Placed);
    assert!(!q.should_attempt());
}

#[test]
fn window_geometry() {
    assert_eq!(switcher_width(0), 12);
    assert_eq!(switcher_width(1), 154);
    assert_eq!(switcher_width(3), 458);
    let pad = Padding { top: 20, bottom: 20, left: 20, right: 20 };
    assert_eq!(window_origin(Position::Center, 400, 434, pad), (760, 323));
    assert_eq!(window_origin(Position::Top, 458, 92, pad), (731, 20));
    assert_eq!(window_origin(Position::TopRight, 400, 434, pad), (1500, 20));
    assert_eq!(window_origin(Position::BottomLeft, 400, 434, pad), (20, 626));
    assert_eq!(window_origin(Position::BottomRight, 401, 92, pad), (1499, 968));
}
