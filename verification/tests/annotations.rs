//! The annotation spec, colours, and the numbering of markers.
use ashot::color::{parse_color, Rgba};
use ashot::error::Error;
use ashot::render::marker_text;
use ashot::spec::{
    assign_marker_numbers, markers_fit, next_marker_number, parse_spec, spec_form, Annotation,
    SpecForm, Style,
};
use serde_json::Value;

fn number(v: &Value, key: &str) -> Result<f64, String> {
    v.get(key).and_then(|n| n.as_f64()).ok_or(format!("missing field `{key}`"))
}

fn maybe_text(v: &Value, key: &str) -> Option<String> {
    v.get(key).and_then(|t| t.as_str()).map(|t| t.to_string())
}

fn style(v: &Value) -> Style<f64> {
    Style {
        color: maybe_text(v, "color"),
        stroke_width: v.get("stroke_width").and_then(|n| n.as_f64()),
        fill_opacity: v.get("fill_opacity").and_then(|n| n.as_f64()),
    }
}

fn annotation(v: &Value) -> Result<Annotation<f64>, String> {
    match v.get("type").and_then(|t| t.as_str()) {
        Some("rect") => Ok(Annotation::Rect {
            x: number(v, "x")?,
            y: number(v, "y")?,
            w: number(v, "w")?,
            h: number(v, "h")?,
            style: style(v),
            label: maybe_text(v, "label"),
        }),
        Some("marker") => Ok(Annotation::Marker {
            x: number(v, "x")?,
            y: number(v, "y")?,
            number: v.get("number").and_then(|n| n.as_u64()).map(|n| n as u32),
            size: v.get("size").and_then(|n| n.as_f64()),
            style: style(v),
        }),
        Some("text") => Ok(Annotation::Text {
            x: number(v, "x")?,
            y: number(v, "y")?,
            text: maybe_text(v, "text").ok_or("missing field `text`".to_string())?,
            size: v.get("size").and_then(|n| n.as_f64()),
            style: style(v),
        }),
        other => Err(format!("unknown variant {other:?}")),
    }
}

fn list(v: &Value) -> Result<Vec<Annotation<f64>>, String> {
    v.as_array().ok_or("expected a sequence".to_string())?.iter().map(annotation).collect()
}

fn decoded(text: &str, wrapped: bool) -> Result<Vec<Annotation<f64>>, String> {
    let v: Value = serde_json::from_str(text).map_err(|e| e.to_string())?;
    if wrapped {
        list(v.get("annotations").ok_or("missing field `annotations`".to_string())?)
    } else {
        list(&v)
    }
}

fn read(input: &str) -> Result<Vec<Annotation<f64>>, Error> {
    let list = match spec_form(input)? {
        SpecForm::List(t) => decoded(&t, false),
        SpecForm::Document(t) => decoded(&t, true),
    };
    if let Ok(l) = &list {
        assert!(markers_fit(l));
    }
    parse_spec(list)
}

#[test]
fn parses_bare_array() {
    let spec = read(r##"[{"type":"rect","x":1,"y":2,"w":3,"h":4,"color":"#ff0000"}]"##).unwrap();
    assert_eq!(spec.len(), 1);
    match &spec[0] {
        Annotation::Rect { x, style, .. } => {
            assert_eq!(*x, 1.0);
            assert_eq!(style.color.as_deref(), Some("#ff0000"));
        }
        other => panic!("unexpected {other:?}"),
    }
}

#[test]
fn parses_wrapped_object() {
    let spec = read(r#"{"annotations":[{"type":"text","x":10,"y":20,"text":"hi"}]}"#).unwrap();
    assert_eq!(spec.len(), 1);
}

#[test]
fn auto_numbers_markers() {
    let spec = read(
        r#"[{"type":"marker","x":0,"y":0},{"type":"marker","x":1,"y":1,"number":5},{"type":"marker","x":2,"y":2}]"#,
    )
    .unwrap();
    let numbers: Vec<u32> = spec
        .iter()
        .map(|a| match a {
            Annotation::Marker { number, .. } => number.unwrap(),
            _ => unreachable!(),
        })
        .collect();
    assert_eq!(numbers, vec![6, 5, 7]);
}

#[test]
fn rejects_garbage() {
    assert!(read("not json").is_err());
    assert!(read(r#"[{"type":"hexagon","x":0}]"#).is_err());
}

#[test]
fn an_empty_spec_is_refused() {
    for s in ["", "  \n\t "] {
        match spec_form(s) {
            Err(e) => {
                assert_eq!(e.code(), "invalid_spec");
                assert_eq!(e.message(), "invalid annotation spec: empty spec");
            }
            Ok(_) => panic!("accepted {s:?}"),
        }
    }
}

#[test]
fn the_form_decides_by_the_first_character() {
    assert!(matches!(spec_form(" [1] ").unwrap(), SpecForm::List(t) if t == "[1]"));
    assert!(matches!(spec_form("\n{}\n").unwrap(), SpecForm::Document(t) if t == "{}"));
}

fn plain() -> Style<i64> {
    Style { color: None, stroke_width: None, fill_opacity: None }
}

fn marker(number: Option<u32>) -> Annotation<i64> {
    Annotation::Marker { x: 0, y: 0, number, size: None, style: plain() }
}

fn numbers(list: &[Annotation<i64>]) -> Vec<Option<u32>> {
    list.iter()
        .map(|a| match a {
            Annotation::Marker { number, .. } => *number,
            _ => None,
        })
        .collect()
}

#[test]
fn numbering_is_idempotent_and_unique() {
    let mut list = vec![marker(None), marker(Some(3)), marker(None)];
    assert_eq!(next_marker_number(&list), 4);
    assign_marker_numbers(&mut list);
    assert_eq!(numbers(&list), vec![Some(4), Some(3), Some(5)]);
    assign_marker_numbers(&mut list);
    assert_eq!(numbers(&list), vec![Some(4), Some(3), Some(5)]);
}

#[test]
fn numbering_has_to_fit() {
    assert!(markers_fit(&vec![marker(Some(u32::MAX - 2)), marker(None)]));
    assert!(!markers_fit(&vec![marker(Some(u32::MAX)), marker(None)]));
}

#[test]
fn parses_colors() {
    assert!(parse_color("#f00").is_ok());
    assert!(parse_color("#ff0000").is_ok());
    assert!(parse_color("#ff000080").is_ok());
    assert!(parse_color("red").is_ok());
    assert!(parse_color("#zzz").is_err());
    assert!(parse_color("chartreuse-ish").is_err());
}

#[test]
fn colors_have_their_values() {
    assert_eq!(parse_color("#f00").unwrap(), Rgba { r: 255, g: 0, b: 0, a: 255 });
    assert_eq!(parse_color("#123456").unwrap(), Rgba { r: 0x12, g: 0x34, b: 0x56, a: 255 });
    assert_eq!(parse_color("#12345678").unwrap(), Rgba { r: 0x12, g: 0x34, b: 0x56, a: 0x78 });
    assert_eq!(parse_color("red").unwrap(), Rgba { r: 255, g: 0x3b, b: 0x30, a: 255 });
}

#[test]
fn a_refused_color_is_quoted() {
    match parse_color("no\"t\n") {
        Err(e) => {
            assert_eq!(e.code(), "invalid_color");
            assert_eq!(
                e.message(),
                "invalid color \"no\\\"t\\n\"; use #RGB, #RRGGBB, #RRGGBBAA or a basic color name"
            );
        }
        Ok(c) => panic!("accepted {c:?}"),
    }
}

#[test]
fn the_default_color_is_red() {
    let s = plain();
    assert_eq!(s.resolve_color().unwrap(), Rgba { r: 255, g: 0x3b, b: 0x30, a: 255 });
}

#[test]
fn a_bad_color_is_not_drawn() {
    let good: Annotation<i64> = Annotation::Rect { x: 0, y: 0, w: 1, h: 1, style: plain(), label: None };
    let bad: Annotation<i64> = Annotation::Text {
        x: 0,
        y: 0,
        text: "t".to_string(),
        size: None,
        style: Style { color: Some("nope".to_string()), stroke_width: None, fill_opacity: None },
    };
    assert!(good.style().resolve_color().is_ok());
    assert!(matches!(bad.style().resolve_color(), Err(Error::InvalidColor(c)) if c == "nope"));
}

#[test]
fn markers_show_their_number() {
    assert_eq!(marker_text(Some(12)), "12");
}

#[test]
fn the_case_of_a_color_does_not_matter() {
    assert_eq!(parse_color("#FfAa00").unwrap(), parse_color("#ffaa00").unwrap());
    assert_eq!(parse_color("GrEy").unwrap(), parse_color("gray").unwrap());
    assert_eq!(parse_color("#fa0").unwrap(), parse_color("#ffaa00").unwrap());
    assert_eq!(parse_color("#ffaa00ff").unwrap(), parse_color("#ffaa00").unwrap());
}

#[test]
fn hex_colors_are_digits_only() {
    for s in ["#+f+f+f", "#+1+2+3+4", "#\u{20ac}", "#", "#12345", "#-1-1-1"] {
        match parse_color(s) {
            Err(Error::InvalidColor(m)) => assert_eq!(m, s),
            other => panic!("unexpected {other:?}"),
        }
    }
}
