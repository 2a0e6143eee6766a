use patchbay::matrix::{
    cartesian_product, expand_matrix, extract_matrix, find_key, parse_params_table,
    substitute_string, substitute_value, MatrixDef, TomlValue,
};

type Table = Vec<(String, TomlValue)>;

fn s(x: &str) -> TomlValue {
    TomlValue::Str(x.to_string())
}

fn arr(xs: &[&str]) -> TomlValue {
    TomlValue::Array(xs.iter().map(|x| s(x)).collect())
}

fn entry(k: &str, v: TomlValue) -> (String, TomlValue) {
    (k.to_string(), v)
}

fn get<'a>(t: &'a Table, key: &str) -> &'a TomlValue {
    &t.iter().find(|(k, _)| k == key).unwrap().1
}

fn table(v: &TomlValue) -> &Table {
    match v {
        TomlValue::Table(t) => t,
        _ => panic!("not a table"),
    }
}

fn array(v: &TomlValue) -> &Vec<TomlValue> {
    match v {
        TomlValue::Array(a) => a,
        _ => panic!("not an array"),
    }
}

fn as_str(v: &TomlValue) -> &str {
    match v {
        TomlValue::Str(x) => x.as_str(),
        _ => panic!("not a string"),
    }
}

fn same(a: &TomlValue, b: &TomlValue) -> bool {
    match (a, b) {
        (TomlValue::Str(x), TomlValue::Str(y)) => x == y,
        (TomlValue::Int(x), TomlValue::Int(y)) => x == y,
        (TomlValue::Float(x), TomlValue::Float(y)) => x == y,
        (TomlValue::Bool(x), TomlValue::Bool(y)) => x == y,
        (TomlValue::Datetime(x), TomlValue::Datetime(y)) => x == y,
        (TomlValue::Array(x), TomlValue::Array(y)) => {
            x.len() == y.len() && x.iter().zip(y.iter()).all(|(p, q)| same(p, q))
        }
        (TomlValue::Table(x), TomlValue::Table(y)) => same_table(x, y),
        _ => false,
    }
}

fn same_table(x: &Table, y: &Table) -> bool {
    x.len() == y.len() && x.iter().zip(y.iter()).all(|(p, q)| p.0 == q.0 && same(&p.1, &q.1))
}

fn hello_root() -> Table {
    vec![entry("sim", TomlValue::Table(vec![entry("name", s("hello"))]))]
}

#[test]
fn no_matrix_passthrough() {
    let root = hello_root();
    let expanded = expand_matrix(hello_root()).unwrap();
    assert_eq!(expanded.len(), 1);
    // Matrix key removed (there was none), rest unchanged.
    assert!(same_table(&expanded[0], &root));
}

#[test]
fn single_axis() {
    let root = vec![
        entry("matrix", TomlValue::Table(vec![entry("topo", arr(&["1to1", "1to3"]))])),
        entry(
            "sim",
            TomlValue::Table(vec![
                entry("name", s("test-${matrix.topo}")),
                entry("topology", s("${matrix.topo}-public")),
            ]),
        ),
    ];
    let expanded = expand_matrix(root).unwrap();
    assert_eq!(expanded.len(), 2);

    let name0 = as_str(get(table(get(&expanded[0], "sim")), "name"));
    let name1 = as_str(get(table(get(&expanded[1], "sim")), "name"));
    assert_eq!(name0, "test-1to1");
    assert_eq!(name1, "test-1to3");

    let topo0 = as_str(get(table(get(&expanded[0], "sim")), "topology"));
    assert_eq!(topo0, "1to1-public");
}

#[test]
fn multi_axis_cartesian() {
    let root = vec![
        entry(
            "matrix",
            TomlValue::Table(vec![
                entry("size", arr(&["1G", "10G"])),
                entry("topo", arr(&["1to1", "1to3"])),
            ]),
        ),
        entry("sim", TomlValue::Table(vec![entry("name", s("test-${matrix.topo}-${matrix.size}"))])),
    ];
    let expanded = expand_matrix(root).unwrap();
    assert_eq!(expanded.len(), 4);

    let names: Vec<&str> = expanded.iter().map(|t| as_str(get(table(get(t, "sim")), "name"))).collect();
    // Tables keep their keys in order, so "size" < "topo" and size varies first.
    assert_eq!(names, &["test-1to1-1G", "test-1to3-1G", "test-1to1-10G", "test-1to3-10G"]);
}

fn params_root() -> Table {
    let clean = TomlValue::Table(vec![
        entry("impaired", s("false")),
        entry("latency", s("0")),
        entry("rate", s("0")),
    ]);
    let impaired = TomlValue::Table(vec![
        entry("impaired", s("true")),
        entry("latency", s("200")),
        entry("rate", s("4000")),
    ]);
    let params = TomlValue::Table(vec![entry(
        "cond",
        TomlValue::Table(vec![entry("clean", clean), entry("impaired", impaired)]),
    )]);
    let step = TomlValue::Table(vec![
        entry("action", s("set-link-condition")),
        entry(
            "condition",
            TomlValue::Table(vec![
                entry("latency_ms", s("${matrix.latency}")),
                entry("rate_kbit", s("${matrix.rate}")),
            ]),
        ),
        entry("device", s("fetcher")),
        entry("when", s("${matrix.impaired}")),
    ]);
    vec![
        entry(
            "matrix",
            TomlValue::Table(vec![entry("cond", arr(&["clean", "impaired"])), entry("params", params)]),
        ),
        entry("sim", TomlValue::Table(vec![entry("name", s("test-${matrix.cond}"))])),
        entry("step", TomlValue::Array(vec![step])),
    ]
}

#[test]
fn params_flattened() {
    let expanded = expand_matrix(params_root()).unwrap();
    assert_eq!(expanded.len(), 2);

    // clean variant
    let step0 = table(&array(get(&expanded[0], "step"))[0]);
    assert_eq!(as_str(get(step0, "when")), "false");
    assert_eq!(as_str(get(table(get(step0, "condition")), "latency_ms")), "0");

    // impaired variant
    let step1 = table(&array(get(&expanded[1], "step"))[0]);
    assert_eq!(as_str(get(step1, "when")), "true");
    assert_eq!(as_str(get(table(get(step1, "condition")), "latency_ms")), "200");
}

#[test]
fn substitution_in_arrays() {
    let step = TomlValue::Table(vec![
        entry("action", s("run")),
        entry("cmd", arr(&["echo", "--size=${matrix.size}"])),
        entry("device", s("fetcher")),
    ]);
    let root = vec![
        entry("matrix", TomlValue::Table(vec![entry("size", arr(&["1G", "10G"]))])),
        entry("step", TomlValue::Array(vec![step])),
    ];
    let expanded = expand_matrix(root).unwrap();
    assert_eq!(expanded.len(), 2);

    let cmd0 = array(get(table(&array(get(&expanded[0], "step"))[0]), "cmd"));
    assert_eq!(as_str(&cmd0[1]), "--size=1G");

    let cmd1 = array(get(table(&array(get(&expanded[1], "step"))[0]), "cmd"));
    assert_eq!(as_str(&cmd1[1]), "--size=10G");
}

#[test]
fn substitute_string_replaces_every_occurrence() {
    let map = vec![("topo".to_string(), "1to1".to_string())];
    assert_eq!(substitute_string("${matrix.topo}/${matrix.topo}", &map), "1to1/1to1");
    assert_eq!(substitute_string("no placeholders", &map), "no placeholders");
    assert_eq!(substitute_string("${matrix.other}", &map), "${matrix.other}");
}

#[test]
fn substitute_value_leaves_non_strings() {
    let map = vec![("x".to_string(), "y".to_string())];
    let mut v = TomlValue::Array(vec![TomlValue::Int(5), s("${matrix.x}"), TomlValue::Bool(true)]);
    substitute_value(&mut v, &map);
    let a = array(&v);
    assert!(same(&a[0], &TomlValue::Int(5)));
    assert_eq!(as_str(&a[1]), "y");
    assert!(same(&a[2], &TomlValue::Bool(true)));
}

#[test]
fn matrix_errors() {
    // A matrix that is not a table.
    let root = vec![entry("matrix", s("oops"))];
    assert!(expand_matrix(root).is_err());
    // An axis that is not an array.
    let root = vec![entry("matrix", TomlValue::Table(vec![entry("topo", s("1to1"))]))];
    assert!(expand_matrix(root).is_err());
    // An axis value that is not a string.
    let root = vec![entry("matrix", TomlValue::Table(vec![entry("n", TomlValue::Array(vec![TomlValue::Int(1)]))]))];
    assert!(expand_matrix(root).is_err());
}

#[test]
fn extract_removes_the_matrix_key() {
    let mut root = params_root();
    let def = extract_matrix(&mut root).unwrap().unwrap();
    assert_eq!(root.len(), 2);
    assert_eq!(find_key(&root, "matrix"), None);
    assert_eq!(find_key(&root, "sim"), Some(0));
    assert_eq!(def.axes.len(), 1);
    assert_eq!(def.axes[0].0, "cond");
    let combos = cartesian_product(&def);
    assert_eq!(combos.len(), 2);
    // The clean variant sets the axis and its three parameters.
    assert!(combos[0].contains(&("cond".to_string(), "clean".to_string())));
    assert!(combos[0].contains(&("latency".to_string(), "0".to_string())));
    assert!(combos[1].contains(&("rate".to_string(), "4000".to_string())));
}

#[test]
fn params_table_must_hold_tables() {
    assert!(parse_params_table(&s("x")).is_err());
    let ok = TomlValue::Table(vec![entry(
        "cond",
        TomlValue::Table(vec![entry("clean", TomlValue::Table(vec![entry("latency", s("0"))]))]),
    )]);
    assert!(parse_params_table(&ok).is_ok());
}

#[test]
fn empty_matrix_def_gives_one_empty_combination() {
    let def = MatrixDef { axes: Vec::new(), params: Default::default() };
    let combos = cartesian_product(&def);
    assert_eq!(combos.len(), 1);
    assert!(combos[0].is_empty());
}
