use patchbay::matrix::TomlValue;
use patchbay::sim::{
    pipe_default, prepare_specs, split_step_entry, CaptureSpec, Guarded, Parser, PrepareField,
    PrepareSpec,
};

fn entry(k: &str, v: TomlValue) -> (String, TomlValue) {
    (k.to_string(), v)
}

#[test]
fn prepare_field_forms() {
    assert!(prepare_specs(None).is_empty());
    let one = PrepareSpec { mode: Some("build".to_string()), ..Default::default() };
    let v = prepare_specs(Some(PrepareField::One(one)));
    assert_eq!(v.len(), 1);
    assert_eq!(v[0].mode.as_deref(), Some("build"));
    let many = vec![PrepareSpec::default(), PrepareSpec::default()];
    assert_eq!(prepare_specs(Some(PrepareField::Many(many))).len(), 2);
}

#[test]
fn capture_and_parser_defaults() {
    assert_eq!(pipe_default(), "stdout");
    let c = CaptureSpec::default();
    assert_eq!(c.pipe, "stdout");
    assert!(c.regex.is_none() && c.pick.is_none() && c.match_fields.is_empty());
    assert_eq!(Parser::default(), Parser::Text);
}

#[test]
fn guards() {
    let g = |w: Option<&str>| Guarded { when: w.map(String::from), action: "run".to_string() };
    assert!(g(Some("false")).is_skipped());
    assert!(!g(Some("true")).is_skipped());
    assert!(!g(Some("False")).is_skipped());
    assert!(!g(None).is_skipped());
}

#[test]
fn step_entries() {
    let mut t = vec![
        entry("action", TomlValue::Str("run".to_string())),
        entry("when", TomlValue::Bool(false)),
    ];
    assert_eq!(split_step_entry(&mut t), (Some("false".to_string()), false));
    assert_eq!(t.len(), 1);
    assert_eq!(t[0].0, "action");

    let mut u = vec![
        entry("use", TomlValue::Str("tmpl".to_string())),
        entry("when", TomlValue::Str("${matrix.x}".to_string())),
    ];
    assert_eq!(split_step_entry(&mut u), (Some("${matrix.x}".to_string()), true));

    let mut w = vec![entry("when", TomlValue::Int(3))];
    assert_eq!(split_step_entry(&mut w), (None, false));
    assert!(w.is_empty());
}
