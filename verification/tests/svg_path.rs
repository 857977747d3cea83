use dsh_desktop::svg_path::{extract_path_d, extract_viewbox, parse_svg_path, PathOp};

fn line(x: &str, y: &str) -> PathOp {
    PathOp::Line {
        x: x.into(),
        y: y.into(),
    }
}

#[test]
fn parse_rejects_unsupported() {
    assert!(parse_svg_path("m1 2").is_none());
    assert!(parse_svg_path("M 1 2 L 3 4").is_none());
    assert!(parse_svg_path("M 1 2 3").is_none());
    assert!(parse_svg_path("garbage").is_none());
    assert!(parse_svg_path("").is_none());
    assert!(parse_svg_path("M 1 2 C 1 2 3 4 5").is_none());
    let v = parse_svg_path("M 1 2 C 1 2 3 4 5 6 V 9").expect("V");
    assert!(v.contains(&line("5", "9")));
    assert!(parse_svg_path("M 1 2 V").is_none());
}

#[test]
fn numbers_repeat_curves_and_vertical_lines() {
    let v = parse_svg_path("M0,0C1 2 3 4 5 6 7 8 9 10 11 12V3 4Z").unwrap();
    assert_eq!(v.len(), 6);
    assert_eq!(
        v[2],
        PathOp::Curve {
            c1x: "7".into(),
            c1y: "8".into(),
            c2x: "9".into(),
            c2y: "10".into(),
            x: "11".into(),
            y: "12".into()
        }
    );
    assert_eq!(v[3], line("11", "3"));
    assert_eq!(v[4], line("11", "4"));
    assert_eq!(v[5], PathOp::Close);
    assert!(parse_svg_path("M 1 2 Z 3 4").is_none());
    assert!(parse_svg_path("Z").is_none());
}

#[test]
fn coordinates_are_decimal_numbers() {
    let v = parse_svg_path("M-1.5e2 .5").unwrap();
    assert_eq!(
        v,
        vec![PathOp::Move {
            x: "-1.5e2".into(),
            y: ".5".into()
        }]
    );
    assert!(parse_svg_path("M 1.2.3 4").is_none());
    assert!(parse_svg_path("M e 4").is_none());
    assert!(parse_svg_path("M 1-2 4").is_none());
}

#[test]
fn documents_give_their_path_and_view_box() {
    let svg = r#"<svg viewBox="-1.09 0.72 28.91 21.77"><path d="M26.5174 1Z"/></svg>"#;
    let d = extract_path_d(svg).unwrap();
    assert!(d.starts_with("M26.5174"));
    let b = extract_viewbox(svg).unwrap();
    assert_eq!(
        (b.x.as_str(), b.y.as_str(), b.width.as_str(), b.height.as_str()),
        ("-1.09", "0.72", "28.91", "21.77")
    );
    assert!(extract_path_d("<svg/>").is_none());
    assert!(extract_path_d("d=\"M1").is_none());
    assert!(extract_viewbox("viewBox=\"1 2 3\"").is_none());
    assert!(extract_viewbox("viewBox=\"1 2 x 4\"").is_none());
    assert!(extract_viewbox("viewBox=\"1 2 inf NaN\"").is_some());
}
