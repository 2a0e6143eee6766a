//! Matrix expansion of simulation files.
//!
//! A `[matrix]` table in a simulation file defines axes whose Cartesian
//! product gives the variants of the simulation. Each variant is the file
//! without its `[matrix]` table, with every `${matrix.<key>}` placeholder in
//! its strings replaced.

use vstd::prelude::*;
use crate::text::{
    chars_eq, chars_of, decimal, into_string, push_chars, push_decimal, push_str, slice_chars,
};

verus! {

/// A TOML value. Tables keep their entries in key order; floats are held as
/// the text of the number.
#[derive(Debug)]
pub enum TomlValue {
    Str(String),
    Int(i64),
    Float(String),
    Bool(bool),
    Datetime(String),
    Array(Vec<TomlValue>),
    Table(Vec<(String, TomlValue)>),
}

/// The content of a TOML value.
pub enum TomlView {
    Str(Seq<char>),
    Int(i64),
    Float(Seq<char>),
    Bool(bool),
    Datetime(Seq<char>),
    Array(Seq<TomlView>),
    Table(Seq<(Seq<char>, TomlView)>),
}

/// The content of a TOML value.
pub open spec fn toml_view(v: TomlValue) -> TomlView
    decreases v, 0nat,
{
    match v {
        TomlValue::Str(s) => TomlView::Str(s@),
        TomlValue::Int(n) => TomlView::Int(n),
        TomlValue::Float(s) => TomlView::Float(s@),
        TomlValue::Bool(b) => TomlView::Bool(b),
        TomlValue::Datetime(s) => TomlView::Datetime(s@),
        TomlValue::Array(a) => TomlView::Array(array_view(a@)),
        TomlValue::Table(t) => TomlView::Table(table_view(t@)),
    }
}

/// The contents of the elements of an array.
pub open spec fn array_view(a: Seq<TomlValue>) -> Seq<TomlView>
    decreases a, 1nat,
{
    if a.len() == 0 {
        Seq::empty()
    } else {
        array_view(a.drop_last()).push(toml_view(a.last()))
    }
}

/// The contents of the entries of a table.
pub open spec fn table_view(t: Seq<(String, TomlValue)>) -> Seq<(Seq<char>, TomlView)>
    decreases t, 1nat,
{
    if t.len() == 0 {
        Seq::empty()
    } else {
        table_view(t.drop_last()).push((t.last().0@, toml_view(t.last().1)))
    }
}

/// The placeholder of the matrix key `key`: `${matrix.<key>}`.
pub open spec fn placeholder(key: Seq<char>) -> Seq<char> {
    "${matrix."@ + key + "}"@
}

/// `str::replace` of a non-empty `pat`: its occurrences, taken left to right
/// without overlap, replaced by `rep`.
pub open spec fn replace_all(s: Seq<char>, pat: Seq<char>, rep: Seq<char>) -> Seq<char>
    decreases s.len(),
{
    if pat.len() == 0 || s.len() < pat.len() {
        s
    } else if s.take(pat.len() as int) == pat {
        rep + replace_all(s.skip(pat.len() as int), pat, rep)
    } else {
        seq![s[0]] + replace_all(s.drop_first(), pat, rep)
    }
}

/// The placeholders of the entries of `map` replaced in `s`, entry by entry.
pub open spec fn subst_string(s: Seq<char>, map: Seq<(Seq<char>, Seq<char>)>) -> Seq<char>
    decreases map.len(),
{
    if map.len() == 0 {
        s
    } else {
        replace_all(subst_string(s, map.drop_last()), placeholder(map.last().0), map.last().1)
    }
}

/// The value with the placeholders replaced in all its strings, in arrays and
/// tables at any depth; keys, numbers, booleans and dates are left as they are.
pub open spec fn subst_value(v: TomlView, map: Seq<(Seq<char>, Seq<char>)>) -> TomlView
    decreases v, 0nat,
{
    match v {
        TomlView::Str(s) => TomlView::Str(subst_string(s, map)),
        TomlView::Array(a) => TomlView::Array(subst_array(a, map)),
        TomlView::Table(t) => TomlView::Table(subst_table(t, map)),
        _ => v,
    }
}

/// The elements of an array, substituted.
pub open spec fn subst_array(a: Seq<TomlView>, map: Seq<(Seq<char>, Seq<char>)>) -> Seq<TomlView>
    decreases a, 1nat,
{
    if a.len() == 0 {
        Seq::empty()
    } else {
        subst_array(a.drop_last(), map).push(subst_value(a.last(), map))
    }
}

/// The entries of a table, their values substituted.
pub open spec fn subst_table(t: Seq<(Seq<char>, TomlView)>, map: Seq<(Seq<char>, Seq<char>)>) -> Seq<
    (Seq<char>, TomlView),
>
    decreases t, 1nat,
{
    if t.len() == 0 {
        Seq::empty()
    } else {
        subst_table(t.drop_last(), map).push((t.last().0, subst_value(t.last().1, map)))
    }
}

/// The content of a substitution map.
pub open spec fn subst_view(m: Seq<(String, String)>) -> Seq<(Seq<char>, Seq<char>)> {
    m.map_values(|e: (String, String)| (e.0@, e.1@))
}

fn replace_chars(s: &Vec<char>, pat: &Vec<char>, rep: &Vec<char>) -> (r: Vec<char>)
    requires
        pat@.len() > 0,
    ensures
        r@ == replace_all(s@, pat@, rep@),
{
    let mut out: Vec<char> = Vec::new();
    let mut i: usize = 0;
    proof {
        assert(s@.skip(0) =~= s@);
    }
    while i < s.len()
        invariant
            i <= s.len(),
            pat@.len() > 0,
            out@ + replace_all(s@.skip(i as int), pat@, rep@) == replace_all(s@, pat@, rep@),
        decreases s.len() - i,
    {
        let ghost rest = s@.skip(i as int);
        if s.len() - i >= pat.len() {
            let w = slice_chars(s, i, i + pat.len());
            proof {
                assert(w@ =~= rest.take(pat@.len() as int));
            }
            if chars_eq(&w, pat) {
                push_chars(&mut out, rep);
                proof {
                    assert(rest.skip(pat@.len() as int) =~= s@.skip(i + pat@.len()));
                    assert(out@ + replace_all(s@.skip(i + pat@.len()), pat@, rep@) =~= replace_all(s@, pat@, rep@));
                }
                i = i + pat.len();
                continue;
            }
        }
        out.push(s[i]);
        proof {
            assert(rest.drop_first() =~= s@.skip(i + 1));
            assert(rest[0] == s@[i as int]);
            assert(out@ + replace_all(s@.skip(i + 1), pat@, rep@) =~= replace_all(s@, pat@, rep@));
        }
        i = i + 1;
    }
    proof {
        assert(s@.skip(s.len() as int) =~= Seq::<char>::empty());
        assert(out@ + replace_all(s@.skip(s.len() as int), pat@, rep@) =~= out@);
    }
    out
}

/// Replaces every `${matrix.<key>}` placeholder of the entries of `map` in
/// `s`, entry by entry.
pub fn substitute_string(s: &str, map: &Vec<(String, String)>) -> (r: String)
    ensures
        r@ == subst_string(s@, subst_view(map@)),
{
    let mut cur = chars_of(s);
    let mut i: usize = 0;
    while i < map.len()
        invariant
            i <= map.len(),
            cur@ == subst_string(s@, subst_view(map@.take(i as int))),
        decreases map.len() - i,
    {
        let mut pat: Vec<char> = Vec::new();
        push_str(&mut pat, "${matrix.");
        push_str(&mut pat, map[i].0.as_str());
        push_str(&mut pat, "}");
        proof {
            reveal_strlit("}");
            assert(pat@.len() > 0);
        }
        let rep = chars_of(map[i].1.as_str());
        cur = replace_chars(&cur, &pat, &rep);
        proof {
            assert(subst_view(map@.take(i + 1)).drop_last() =~= subst_view(map@.take(i as int)));
        }
        i = i + 1;
    }
    proof {
        assert(map@.take(map.len() as int) =~= map@);
    }
    crate::text::into_string(cur)
}


fn substituted(v: &TomlValue, map: &Vec<(String, String)>) -> (r: TomlValue)
    ensures
        toml_view(r) == subst_value(toml_view(*v), subst_view(map@)),
    decreases v,
{
    match v {
        TomlValue::Str(s) => TomlValue::Str(substitute_string(s.as_str(), map)),
        TomlValue::Int(n) => TomlValue::Int(*n),
        TomlValue::Float(s) => TomlValue::Float(s.clone()),
        TomlValue::Bool(b) => TomlValue::Bool(*b),
        TomlValue::Datetime(s) => TomlValue::Datetime(s.clone()),
        TomlValue::Array(a) => {
            let mut out: Vec<TomlValue> = Vec::new();
            let mut i: usize = 0;
            while i < a.len()
                invariant
                    i <= a.len(),
                    *v is Array,
                    (*v)->Array_0 == *a,
                    array_view(out@) == subst_array(array_view(a@.take(i as int)), subst_view(map@)),
                decreases a.len() - i,
            {
                proof {
                    assert(decreases_to!(*v => (*v)->Array_0));
                    assert(decreases_to!(*a => a@));
                    assert(decreases_to!(a@ => a@[i as int]));
                    assert(decreases_to!(*v => a@[i as int]));
                }
                let e = substituted(&a[i], map);
                let ghost prev = out@;
                out.push(e);
                proof {
                    assert(out@.drop_last() =~= prev);
                    assert(a@.take(i + 1).drop_last() =~= a@.take(i as int));
                    assert(array_view(a@.take(i + 1)).drop_last() == array_view(a@.take(i as int)));
                }
                i = i + 1;
            }
            proof {
                assert(a@.take(a.len() as int) =~= a@);
            }
            TomlValue::Array(out)
        },
        TomlValue::Table(t) => {
            let mut out: Vec<(String, TomlValue)> = Vec::new();
            let mut i: usize = 0;
            while i < t.len()
                invariant
                    i <= t.len(),
                    *v is Table,
                    (*v)->Table_0 == *t,
                    table_view(out@) == subst_table(table_view(t@.take(i as int)), subst_view(map@)),
                decreases t.len() - i,
            {
                proof {
                    assert(decreases_to!(*v => (*v)->Table_0));
                    assert(decreases_to!(*t => t@));
                    assert(decreases_to!(t@ => t@[i as int]));
                    assert(decreases_to!(t@[i as int] => t@[i as int].1));
                    assert(decreases_to!(*v => t@[i as int].1));
                }
                let e = substituted(&t[i].1, map);
                let k = t[i].0.clone();
                let ghost prev = out@;
                out.push((k, e));
                proof {
                    assert(out@.drop_last() =~= prev);
                    assert(t@.take(i + 1).drop_last() =~= t@.take(i as int));
                    assert(table_view(t@.take(i + 1)).drop_last() == table_view(t@.take(i as int)));
                    assert(t@.take(i + 1).last() == t@[i as int]);
                    assert(table_view(out@) =~= subst_table(table_view(t@.take(i + 1)), subst_view(map@)));
                }
                i = i + 1;
            }
            proof {
                assert(t@.take(t.len() as int) =~= t@);
            }
            TomlValue::Table(out)
        },
    }
}

/// Replaces the `${matrix.<key>}` placeholders of `map` in every string of
/// `val`, at any depth.
pub fn substitute_value(val: &mut TomlValue, map: &Vec<(String, String)>)
    ensures
        toml_view(*final(val)) == subst_value(toml_view(*old(val)), subst_view(map@)),
{
    let r = substituted(val, map);
    *val = r;
}


/// The decimal text of a signed integer, as `i64::to_string` writes it.
pub open spec fn int_text(n: i64) -> Seq<char> {
    if n < 0 {
        "-"@ + decimal((-n) as nat)
    } else {
        decimal(n as nat)
    }
}

fn int_to_string(n: i64) -> (r: String)
    ensures
        r@ == int_text(n),
{
    let mut v: Vec<char> = Vec::new();
    if n < 0 {
        push_str(&mut v, "-");
        let m: u64 = (-(n as i128)) as u64;
        push_decimal(&mut v, m);
    } else {
        push_decimal(&mut v, n as u64);
    }
    into_string(v)
}

/// The text of a parameter value: strings as they are, numbers and booleans
/// as their text; other values are not scalars.
pub open spec fn scalar_text(v: TomlView) -> Option<Seq<char>> {
    match v {
        TomlView::Str(s) => Some(s),
        TomlView::Int(n) => Some(int_text(n)),
        TomlView::Float(t) => Some(t),
        TomlView::Bool(b) => Some(if b { "true"@ } else { "false"@ }),
        _ => None,
    }
}

/// Parameters of one variant: key and value.
pub type FieldsView = Seq<(Seq<char>, Seq<char>)>;

/// Parameters of one axis: variant and its parameters.
pub type VariantsView = Seq<(Seq<char>, FieldsView)>;

/// Parameters of all axes: axis and its variants.
pub type ParamsView = Seq<(Seq<char>, VariantsView)>;

/// The parameters of the variant `variant` of `axis`, from its table.
pub open spec fn parse_fields(axis: Seq<char>, variant: Seq<char>, fields: Seq<(Seq<char>, TomlView)>) -> Result<FieldsView, Seq<char>>
    decreases fields.len(),
{
    if fields.len() == 0 {
        Ok(Seq::empty())
    } else {
        match parse_fields(axis, variant, fields.drop_last()) {
            Err(e) => Err(e),
            Ok(acc) => match scalar_text(fields.last().1) {
                Some(t) => Ok(acc.push((fields.last().0, t))),
                None => Err("matrix.params."@ + axis + "."@ + variant + "."@ + fields.last().0 + " must be a scalar"@),
            },
        }
    }
}

/// The variants of `axis`, from its table.
pub open spec fn parse_variants(axis: Seq<char>, vs: Seq<(Seq<char>, TomlView)>) -> Result<VariantsView, Seq<char>>
    decreases vs.len(),
{
    if vs.len() == 0 {
        Ok(Seq::empty())
    } else {
        match parse_variants(axis, vs.drop_last()) {
            Err(e) => Err(e),
            Ok(acc) => match vs.last().1 {
                TomlView::Table(fields) => match parse_fields(axis, vs.last().0, fields) {
                    Ok(f) => Ok(acc.push((vs.last().0, f))),
                    Err(e) => Err(e),
                },
                _ => Err("`[matrix.params."@ + axis + "."@ + vs.last().0 + "]` must be a table"@),
            },
        }
    }
}

/// The axes of `[matrix.params]`, from its table.
pub open spec fn parse_axis_params(axes: Seq<(Seq<char>, TomlView)>) -> Result<ParamsView, Seq<char>>
    decreases axes.len(),
{
    if axes.len() == 0 {
        Ok(Seq::empty())
    } else {
        match parse_axis_params(axes.drop_last()) {
            Err(e) => Err(e),
            Ok(acc) => match axes.last().1 {
                TomlView::Table(vs) => match parse_variants(axes.last().0, vs) {
                    Ok(v) => Ok(acc.push((axes.last().0, v))),
                    Err(e) => Err(e),
                },
                _ => Err("`[matrix.params."@ + axes.last().0 + "]` must be a table"@),
            },
        }
    }
}

/// `[matrix.params]`: per axis, per variant, the parameters it sets.
pub open spec fn parse_params(v: TomlView) -> Result<ParamsView, Seq<char>> {
    match v {
        TomlView::Table(axes) => parse_axis_params(axes),
        _ => Err("`[matrix.params]` must be a table"@),
    }
}

/// Exec parameters: axis, variant, key and value.
pub type AxisParams = Vec<(String, Vec<(String, Vec<(String, String)>)>)>;

/// The content of the parameters.
pub open spec fn params_view(p: Seq<(String, Vec<(String, Vec<(String, String)>)>)>) -> ParamsView {
    p.map_values(
        |a: (String, Vec<(String, Vec<(String, String)>)>)|
            (a.0@, a.1@.map_values(|v: (String, Vec<(String, String)>)| (v.0@, subst_view(v.1@)))),
    )
}

fn scalar_of(v: &TomlValue) -> (r: Option<String>)
    ensures
        crate::text::opt_chars(r) == scalar_text(toml_view(*v)),
{
    match v {
        TomlValue::Str(s) => Some(s.clone()),
        TomlValue::Int(n) => Some(int_to_string(*n)),
        TomlValue::Float(t) => Some(t.clone()),
        TomlValue::Bool(b) => Some(if *b { "true".to_owned() } else { "false".to_owned() }),
        _ => None,
    }
}

fn text5(a: &str, b: &str, c: &str, d: &str, e: &str) -> (r: String)
    ensures
        r@ == a@ + b@ + c@ + d@ + e@,
{
    let mut v: Vec<char> = Vec::new();
    push_str(&mut v, a);
    push_str(&mut v, b);
    push_str(&mut v, c);
    push_str(&mut v, d);
    push_str(&mut v, e);
    into_string(v)
}

/// The content of a table has its length and entries.
pub proof fn lemma_table_view_len(t: Seq<(String, TomlValue)>)
    ensures
        table_view(t).len() == t.len(),
        forall|i: int| 0 <= i < t.len() ==> #[trigger] table_view(t)[i] == (t[i].0@, toml_view(t[i].1)),
    decreases t.len(),
{
    if t.len() > 0 {
        lemma_table_view_len(t.drop_last());
        assert forall|i: int| 0 <= i < t.len() implies #[trigger] table_view(t)[i] == (t[i].0@, toml_view(t[i].1)) by {
            if i < t.len() - 1 {
                assert(table_view(t.drop_last())[i] == (t.drop_last()[i].0@, toml_view(t.drop_last()[i].1)));
            }
        }
    }
}

proof fn lemma_array_view_len(a: Seq<TomlValue>)
    ensures
        array_view(a).len() == a.len(),
        forall|i: int| 0 <= i < a.len() ==> #[trigger] array_view(a)[i] == toml_view(a[i]),
    decreases a.len(),
{
    if a.len() > 0 {
        lemma_array_view_len(a.drop_last());
        assert forall|i: int| 0 <= i < a.len() implies #[trigger] array_view(a)[i] == toml_view(a[i]) by {
            if i < a.len() - 1 {
                assert(array_view(a.drop_last())[i] == toml_view(a.drop_last()[i]));
            }
        }
    }
}

fn parse_fields_exec(axis: &String, variant: &String, fields: &Vec<(String, TomlValue)>) -> (r: Result<Vec<(String, String)>, String>)
    ensures
        match r {
            Ok(f) => parse_fields(axis@, variant@, table_view(fields@)) == Ok::<FieldsView, Seq<char>>(subst_view(f@)),
            Err(m) => parse_fields(axis@, variant@, table_view(fields@)) == Err::<FieldsView, Seq<char>>(m@),
        },
{
    let ghost tv = table_view(fields@);
    proof {
        lemma_table_view_len(fields@);
    }
    let mut out: Vec<(String, String)> = Vec::new();
    let mut i: usize = 0;
    proof {
        assert(tv.take(0) =~= Seq::<(Seq<char>, TomlView)>::empty());
        assert(subst_view(out@) =~= Seq::<(Seq<char>, Seq<char>)>::empty());
    }
    while i < fields.len()
        invariant
            i <= fields.len(),
            tv == table_view(fields@),
            tv.len() == fields@.len(),
            forall|j: int| 0 <= j < fields@.len() ==> #[trigger] tv[j] == (fields@[j].0@, toml_view(fields@[j].1)),
            parse_fields(axis@, variant@, tv.take(i as int)) == Ok::<FieldsView, Seq<char>>(subst_view(out@)),
        decreases fields.len() - i,
    {
        proof {
            assert(tv.take(i + 1).drop_last() =~= tv.take(i as int));
            assert(tv.take(i + 1).last() == tv[i as int]);
        }
        match scalar_of(&fields[i].1) {
            Some(t) => {
                let ghost prev = out@;
                out.push((fields[i].0.clone(), t));
                proof {
                    assert(subst_view(out@) =~= subst_view(prev).push((fields@[i as int].0@, t@)));
                }
            },
            None => {
                let mut m = crate::text::chars_of("matrix.params.");
                push_str(&mut m, axis.as_str());
                push_str(&mut m, ".");
                push_str(&mut m, variant.as_str());
                push_str(&mut m, ".");
                push_str(&mut m, fields[i].0.as_str());
                push_str(&mut m, " must be a scalar");
                proof {
                    lemma_parse_fields_err(axis@, variant@, tv, i + 1, m@);
                }
                return Err(into_string(m));
            },
        }
        i = i + 1;
    }
    proof {
        assert(tv.take(fields.len() as int) =~= tv);
    }
    Ok(out)
}

proof fn lemma_parse_fields_err(axis: Seq<char>, variant: Seq<char>, fields: Seq<(Seq<char>, TomlView)>, k: int, e: Seq<char>)
    requires
        0 <= k <= fields.len(),
        parse_fields(axis, variant, fields.take(k)) == Err::<FieldsView, Seq<char>>(e),
    ensures
        parse_fields(axis, variant, fields) == Err::<FieldsView, Seq<char>>(e),
    decreases fields.len(),
{
    if k == fields.len() {
        assert(fields.take(k) =~= fields);
    } else {
        assert(fields.drop_last().take(k) =~= fields.take(k));
        lemma_parse_fields_err(axis, variant, fields.drop_last(), k, e);
    }
}


proof fn lemma_parse_variants_err(axis: Seq<char>, vs: Seq<(Seq<char>, TomlView)>, k: int, e: Seq<char>)
    requires
        0 <= k <= vs.len(),
        parse_variants(axis, vs.take(k)) == Err::<VariantsView, Seq<char>>(e),
    ensures
        parse_variants(axis, vs) == Err::<VariantsView, Seq<char>>(e),
    decreases vs.len(),
{
    if k == vs.len() {
        assert(vs.take(k) =~= vs);
    } else {
        assert(vs.drop_last().take(k) =~= vs.take(k));
        lemma_parse_variants_err(axis, vs.drop_last(), k, e);
    }
}

proof fn lemma_parse_axis_params_err(axes: Seq<(Seq<char>, TomlView)>, k: int, e: Seq<char>)
    requires
        0 <= k <= axes.len(),
        parse_axis_params(axes.take(k)) == Err::<ParamsView, Seq<char>>(e),
    ensures
        parse_axis_params(axes) == Err::<ParamsView, Seq<char>>(e),
    decreases axes.len(),
{
    if k == axes.len() {
        assert(axes.take(k) =~= axes);
    } else {
        assert(axes.drop_last().take(k) =~= axes.take(k));
        lemma_parse_axis_params_err(axes.drop_last(), k, e);
    }
}

fn parse_variants_exec(axis: &String, vs: &Vec<(String, TomlValue)>) -> (r: Result<Vec<(String, Vec<(String, String)>)>, String>)
    ensures
        match r {
            Ok(v) => parse_variants(axis@, table_view(vs@)) == Ok::<VariantsView, Seq<char>>(
                v@.map_values(|x: (String, Vec<(String, String)>)| (x.0@, subst_view(x.1@))),
            ),
            Err(m) => parse_variants(axis@, table_view(vs@)) == Err::<VariantsView, Seq<char>>(m@),
        },
{
    let ghost tv = table_view(vs@);
    proof {
        lemma_table_view_len(vs@);
    }
    let mut out: Vec<(String, Vec<(String, String)>)> = Vec::new();
    let mut i: usize = 0;
    proof {
        assert(tv.take(0) =~= Seq::<(Seq<char>, TomlView)>::empty());
        assert(out@.map_values(|x: (String, Vec<(String, String)>)| (x.0@, subst_view(x.1@))) =~= Seq::<(Seq<char>, FieldsView)>::empty());
    }
    while i < vs.len()
        invariant
            i <= vs.len(),
            tv == table_view(vs@),
            tv.len() == vs@.len(),
            forall|j: int| 0 <= j < vs@.len() ==> #[trigger] tv[j] == (vs@[j].0@, toml_view(vs@[j].1)),
            parse_variants(axis@, tv.take(i as int)) == Ok::<VariantsView, Seq<char>>(
                out@.map_values(|x: (String, Vec<(String, String)>)| (x.0@, subst_view(x.1@))),
            ),
        decreases vs.len() - i,
    {
        proof {
            assert(tv.take(i + 1).drop_last() =~= tv.take(i as int));
            assert(tv.take(i + 1).last() == tv[i as int]);
        }
        match &vs[i].1 {
            TomlValue::Table(fields) => {
                match parse_fields_exec(axis, &vs[i].0, fields) {
                    Ok(f) => {
                        let ghost prev = out@;
                        let ghost fv = subst_view(f@);
                        out.push((vs[i].0.clone(), f));
                        proof {
                            assert(out@.map_values(|x: (String, Vec<(String, String)>)| (x.0@, subst_view(x.1@)))
                                =~= prev.map_values(|x: (String, Vec<(String, String)>)| (x.0@, subst_view(x.1@))).push((vs@[i as int].0@, fv)));
                        }
                    },
                    Err(m) => {
                        proof {
                            lemma_parse_variants_err(axis@, tv, i + 1, m@);
                        }
                        return Err(m);
                    },
                }
            },
            _ => {
                let m = text5("`[matrix.params.", axis.as_str(), ".", vs[i].0.as_str(), "]` must be a table");
                proof {
                    lemma_parse_variants_err(axis@, tv, i + 1, m@);
                }
                return Err(m);
            },
        }
        i = i + 1;
    }
    proof {
        assert(tv.take(vs.len() as int) =~= tv);
    }
    Ok(out)
}

/// Reads `[matrix.params]`: per axis, per variant, the parameters it sets.
pub fn parse_params_table(val: &TomlValue) -> (r: Result<AxisParams, String>)
    ensures
        match r {
            Ok(p) => parse_params(toml_view(*val)) == Ok::<ParamsView, Seq<char>>(params_view(p@)),
            Err(m) => parse_params(toml_view(*val)) == Err::<ParamsView, Seq<char>>(m@),
        },
{
    let axes = match val {
        TomlValue::Table(t) => t,
        _ => {
            return Err("`[matrix.params]` must be a table".to_owned());
        },
    };
    let ghost tv = table_view(axes@);
    proof {
        lemma_table_view_len(axes@);
    }
    let mut out: AxisParams = Vec::new();
    let mut i: usize = 0;
    proof {
        assert(tv.take(0) =~= Seq::<(Seq<char>, TomlView)>::empty());
        assert(params_view(out@) =~= Seq::<(Seq<char>, VariantsView)>::empty());
    }
    while i < axes.len()
        invariant
            i <= axes.len(),
            tv == table_view(axes@),
            toml_view(*val) == TomlView::Table(tv),
            tv.len() == axes@.len(),
            forall|j: int| 0 <= j < axes@.len() ==> #[trigger] tv[j] == (axes@[j].0@, toml_view(axes@[j].1)),
            parse_axis_params(tv.take(i as int)) == Ok::<ParamsView, Seq<char>>(params_view(out@)),
        decreases axes.len() - i,
    {
        proof {
            assert(tv.take(i + 1).drop_last() =~= tv.take(i as int));
            assert(tv.take(i + 1).last() == tv[i as int]);
        }
        match &axes[i].1 {
            TomlValue::Table(vs) => {
                match parse_variants_exec(&axes[i].0, vs) {
                    Ok(v) => {
                        let ghost prev = out@;
                        let ghost vv = v@.map_values(|x: (String, Vec<(String, String)>)| (x.0@, subst_view(x.1@)));
                        out.push((axes[i].0.clone(), v));
                        proof {
                            assert(params_view(out@) =~= params_view(prev).push((axes@[i as int].0@, vv)));
                        }
                    },
                    Err(m) => {
                        proof {
                            lemma_parse_axis_params_err(tv, i + 1, m@);
                        }
                        return Err(m);
                    },
                }
            },
            _ => {
                let m = text5("`[matrix.params.", axes[i].0.as_str(), "]` must be a table", "", "");
                proof {
                    reveal_strlit("");
                    assert(m@ =~= "`[matrix.params."@ + axes@[i as int].0@ + "]` must be a table"@);
                    lemma_parse_axis_params_err(tv, i + 1, m@);
                }
                return Err(m);
            },
        }
        i = i + 1;
    }
    proof {
        assert(tv.take(axes.len() as int) =~= tv);
    }
    Ok(out)
}


/// The index of the first entry of `t` with the key `k`, if any.
pub open spec fn key_index<V>(t: Seq<(Seq<char>, V)>, k: Seq<char>) -> Option<int>
    decreases t.len(),
{
    if t.len() == 0 {
        None
    } else {
        match key_index(t.drop_last(), k) {
            Some(i) => Some(i),
            None => if t.last().0 == k {
                Some(t.len() - 1)
            } else {
                None
            },
        }
    }
}

proof fn lemma_key_index<V>(t: Seq<(Seq<char>, V)>, k: Seq<char>, i: int)
    requires
        0 <= i <= t.len(),
        forall|j: int| 0 <= j < i ==> (#[trigger] t[j]).0 != k,
        i < t.len() ==> t[i].0 == k,
    ensures
        key_index(t, k) == (if i < t.len() { Some(i) } else { None::<int> }),
    decreases t.len(),
{
    if t.len() > 0 {
        if i < t.len() - 1 {
            lemma_key_index(t.drop_last(), k, i);
        } else {
            lemma_key_index(t.drop_last(), k, t.len() - 1);
        }
    }
}

/// The index of the first entry of `t` with the key `key`, if any.
pub fn find_key(t: &Vec<(String, TomlValue)>, key: &str) -> (r: Option<usize>)
    ensures
        match r {
            Some(i) => i < t@.len() && key_index(table_view(t@), key@) == Some(i as int),
            None => key_index(table_view(t@), key@) is None,
        },
{
    let ghost tv = table_view(t@);
    proof {
        lemma_table_view_len(t@);
    }
    let k = key.to_owned();
    let mut i: usize = 0;
    while i < t.len()
        invariant
            i <= t.len(),
            k@ == key@,
            tv == table_view(t@),
            tv.len() == t@.len(),
            forall|j: int| 0 <= j < t@.len() ==> #[trigger] tv[j] == (t@[j].0@, toml_view(t@[j].1)),
            forall|j: int| 0 <= j < i ==> (#[trigger] tv[j]).0 != key@,
        decreases t.len() - i,
    {
        if t[i].0 == k {
            proof {
                lemma_key_index(tv, key@, i as int);
            }
            return Some(i);
        }
        i = i + 1;
    }
    proof {
        lemma_key_index(tv, key@, tv.len() as int);
    }
    None
}

/// The values of the axis `key`: all strings.
pub open spec fn axis_values(key: Seq<char>, arr: Seq<TomlView>) -> Result<Seq<Seq<char>>, Seq<char>>
    decreases arr.len(),
{
    if arr.len() == 0 {
        Ok(Seq::empty())
    } else {
        match axis_values(key, arr.drop_last()) {
            Err(e) => Err(e),
            Ok(acc) => match arr.last() {
                TomlView::Str(s) => Ok(acc.push(s)),
                _ => Err("matrix axis `"@ + key + "` values must be strings"@),
            },
        }
    }
}

/// The axes of a matrix, in order: each an array of strings, not empty.
pub open spec fn parse_axes(entries: Seq<(Seq<char>, TomlView)>) -> Result<Seq<(Seq<char>, Seq<Seq<char>>)>, Seq<char>>
    decreases entries.len(),
{
    if entries.len() == 0 {
        Ok(Seq::empty())
    } else {
        match parse_axes(entries.drop_last()) {
            Err(e) => Err(e),
            Ok(acc) => {
                let (key, val) = entries.last();
                match val {
                    TomlView::Array(arr) => match axis_values(key, arr) {
                        Err(e) => Err(e),
                        Ok(vals) => if vals.len() == 0 {
                            Err("matrix axis `"@ + key + "` must not be empty"@)
                        } else {
                            Ok(acc.push((key, vals)))
                        },
                    },
                    _ => Err("matrix axis `"@ + key + "` must be an array"@),
                }
            },
        }
    }
}

/// A matrix: its axes, in order, and the parameters of their variants.
pub type MatrixView = (Seq<(Seq<char>, Seq<Seq<char>>)>, ParamsView);

/// What taking the `[matrix]` table out of `root` leaves and gives: the table
/// without it, and the matrix (none where there is no table or no axis), or
/// the first error.
pub open spec fn matrix_of(root: Seq<(Seq<char>, TomlView)>) -> (Seq<(Seq<char>, TomlView)>, Result<Option<MatrixView>, Seq<char>>) {
    match key_index(root, "matrix"@) {
        None => (root, Ok(None)),
        Some(i) => {
            let rest = root.remove(i);
            match root[i].1 {
                TomlView::Table(m) => {
                    let (params, axes) = match key_index(m, "params"@) {
                        Some(j) => (parse_params(m[j].1), m.remove(j)),
                        None => (Ok(Seq::empty()), m),
                    };
                    match params {
                        Err(e) => (rest, Err(e)),
                        Ok(p) => match parse_axes(axes) {
                            Err(e) => (rest, Err(e)),
                            Ok(ax) => if ax.len() == 0 {
                                (rest, Ok(None))
                            } else {
                                (rest, Ok(Some((ax, p))))
                            },
                        },
                    }
                },
                _ => (rest, Err("`[matrix]` must be a table"@)),
            }
        },
    }
}

/// The axes and parameters of a matrix.
#[derive(Debug)]
pub struct MatrixDef {
    /// The axes, in order: name and values.
    pub axes: Vec<(String, Vec<String>)>,
    /// Per axis, per variant, the parameters it sets.
    pub params: AxisParams,
}

/// The content of a matrix.
pub open spec fn matrix_view(d: MatrixDef) -> MatrixView {
    (d.axes@.map_values(|a: (String, Vec<String>)| (a.0@, crate::text::strings_view(a.1@))), params_view(d.params@))
}

proof fn lemma_parse_axes_err(entries: Seq<(Seq<char>, TomlView)>, k: int, e: Seq<char>)
    requires
        0 <= k <= entries.len(),
        parse_axes(entries.take(k)) == Err::<Seq<(Seq<char>, Seq<Seq<char>>)>, Seq<char>>(e),
    ensures
        parse_axes(entries) == Err::<Seq<(Seq<char>, Seq<Seq<char>>)>, Seq<char>>(e),
    decreases entries.len(),
{
    if k == entries.len() {
        assert(entries.take(k) =~= entries);
    } else {
        assert(entries.drop_last().take(k) =~= entries.take(k));
        lemma_parse_axes_err(entries.drop_last(), k, e);
    }
}

fn axis_values_exec(key: &String, arr: &Vec<TomlValue>) -> (r: Result<Vec<String>, String>)
    ensures
        match r {
            Ok(v) => axis_values(key@, array_view(arr@)) == Ok::<Seq<Seq<char>>, Seq<char>>(crate::text::strings_view(v@)),
            Err(m) => axis_values(key@, array_view(arr@)) == Err::<Seq<Seq<char>>, Seq<char>>(m@),
        },
{
    let ghost av = array_view(arr@);
    proof {
        lemma_array_view_len(arr@);
    }
    let mut out: Vec<String> = Vec::new();
    let mut i: usize = 0;
    proof {
        assert(av.take(0) =~= Seq::<TomlView>::empty());
        assert(crate::text::strings_view(out@) =~= Seq::<Seq<char>>::empty());
    }
    while i < arr.len()
        invariant
            i <= arr.len(),
            av == array_view(arr@),
            av.len() == arr@.len(),
            forall|j: int| 0 <= j < arr@.len() ==> #[trigger] av[j] == toml_view(arr@[j]),
            axis_values(key@, av.take(i as int)) == Ok::<Seq<Seq<char>>, Seq<char>>(crate::text::strings_view(out@)),
        decreases arr.len() - i,
    {
        proof {
            assert(av.take(i + 1).drop_last() =~= av.take(i as int));
            assert(av.take(i + 1).last() == av[i as int]);
        }
        match &arr[i] {
            TomlValue::Str(s) => {
                let ghost prev = out@;
                out.push(s.clone());
                proof {
                    assert(crate::text::strings_view(out@) =~= crate::text::strings_view(prev).push(s@));
                }
            },
            _ => {
                let m = text5("matrix axis `", key.as_str(), "` values must be strings", "", "");
                proof {
                    reveal_strlit("");
                    assert(m@ =~= "matrix axis `"@ + key@ + "` values must be strings"@);
                    lemma_axis_values_err(key@, av, i + 1, m@);
                }
                return Err(m);
            },
        }
        i = i + 1;
    }
    proof {
        assert(av.take(arr.len() as int) =~= av);
    }
    Ok(out)
}

proof fn lemma_axis_values_err(key: Seq<char>, arr: Seq<TomlView>, k: int, e: Seq<char>)
    requires
        0 <= k <= arr.len(),
        axis_values(key, arr.take(k)) == Err::<Seq<Seq<char>>, Seq<char>>(e),
    ensures
        axis_values(key, arr) == Err::<Seq<Seq<char>>, Seq<char>>(e),
    decreases arr.len(),
{
    if k == arr.len() {
        assert(arr.take(k) =~= arr);
    } else {
        assert(arr.drop_last().take(k) =~= arr.take(k));
        lemma_axis_values_err(key, arr.drop_last(), k, e);
    }
}

fn parse_axes_exec(entries: &Vec<(String, TomlValue)>) -> (r: Result<Vec<(String, Vec<String>)>, String>)
    ensures
        match r {
            Ok(v) => parse_axes(table_view(entries@)) == Ok::<Seq<(Seq<char>, Seq<Seq<char>>)>, Seq<char>>(
                v@.map_values(|a: (String, Vec<String>)| (a.0@, crate::text::strings_view(a.1@))),
            ),
            Err(m) => parse_axes(table_view(entries@)) == Err::<Seq<(Seq<char>, Seq<Seq<char>>)>, Seq<char>>(m@),
        },
{
    let ghost tv = table_view(entries@);
    proof {
        lemma_table_view_len(entries@);
    }
    let mut out: Vec<(String, Vec<String>)> = Vec::new();
    let mut i: usize = 0;
    proof {
        assert(tv.take(0) =~= Seq::<(Seq<char>, TomlView)>::empty());
        assert(out@.map_values(|a: (String, Vec<String>)| (a.0@, crate::text::strings_view(a.1@))) =~= Seq::<(Seq<char>, Seq<Seq<char>>)>::empty());
    }
    while i < entries.len()
        invariant
            i <= entries.len(),
            tv == table_view(entries@),
            tv.len() == entries@.len(),
            forall|j: int| 0 <= j < entries@.len() ==> #[trigger] tv[j] == (entries@[j].0@, toml_view(entries@[j].1)),
            parse_axes(tv.take(i as int)) == Ok::<Seq<(Seq<char>, Seq<Seq<char>>)>, Seq<char>>(
                out@.map_values(|a: (String, Vec<String>)| (a.0@, crate::text::strings_view(a.1@))),
            ),
        decreases entries.len() - i,
    {
        proof {
            assert(tv.take(i + 1).drop_last() =~= tv.take(i as int));
            assert(tv.take(i + 1).last() == tv[i as int]);
        }
        match &entries[i].1 {
            TomlValue::Array(arr) => {
                match axis_values_exec(&entries[i].0, arr) {
                    Ok(vals) => {
                        if vals.len() == 0 {
                            let m = text5("matrix axis `", entries[i].0.as_str(), "` must not be empty", "", "");
                            proof {
                                reveal_strlit("");
                                assert(m@ =~= "matrix axis `"@ + entries@[i as int].0@ + "` must not be empty"@);
                                lemma_parse_axes_err(tv, i + 1, m@);
                            }
                            return Err(m);
                        }
                        let ghost prev = out@;
                        let ghost vv = crate::text::strings_view(vals@);
                        out.push((entries[i].0.clone(), vals));
                        proof {
                            assert(out@.map_values(|a: (String, Vec<String>)| (a.0@, crate::text::strings_view(a.1@)))
                                =~= prev.map_values(|a: (String, Vec<String>)| (a.0@, crate::text::strings_view(a.1@))).push((entries@[i as int].0@, vv)));
                        }
                    },
                    Err(m) => {
                        proof {
                            lemma_parse_axes_err(tv, i + 1, m@);
                        }
                        return Err(m);
                    },
                }
            },
            _ => {
                let m = text5("matrix axis `", entries[i].0.as_str(), "` must be an array", "", "");
                proof {
                    reveal_strlit("");
                    assert(m@ =~= "matrix axis `"@ + entries@[i as int].0@ + "` must be an array"@);
                    lemma_parse_axes_err(tv, i + 1, m@);
                }
                return Err(m);
            },
        }
        i = i + 1;
    }
    proof {
        assert(tv.take(entries.len() as int) =~= tv);
    }
    Ok(out)
}

/// Removing an entry and taking the content commute.
pub proof fn lemma_table_view_remove(t: Seq<(String, TomlValue)>, i: int)
    requires
        0 <= i < t.len(),
    ensures
        table_view(t.remove(i)) == table_view(t).remove(i),
{
    lemma_table_view_len(t);
    lemma_table_view_len(t.remove(i));
    assert(table_view(t.remove(i)) =~= table_view(t).remove(i));
}

/// Takes the `[matrix]` table out of `root` and reads its axes and
/// parameters; `None` where there is no matrix table or it has no axis.
pub fn extract_matrix(root: &mut Vec<(String, TomlValue)>) -> (r: Result<Option<MatrixDef>, String>)
    ensures
        table_view(final(root)@) == matrix_of(table_view(old(root)@)).0,
        match r {
            Ok(Some(d)) => matrix_of(table_view(old(root)@)).1 == Ok::<Option<MatrixView>, Seq<char>>(Some(matrix_view(d))),
            Ok(None) => matrix_of(table_view(old(root)@)).1 == Ok::<Option<MatrixView>, Seq<char>>(None),
            Err(m) => matrix_of(table_view(old(root)@)).1 == Err::<Option<MatrixView>, Seq<char>>(m@),
        },
{
    let ghost before = root@;
    let i = match find_key(root, "matrix") {
        Some(i) => i,
        None => return Ok(None),
    };
    proof {
        lemma_table_view_len(before);
        lemma_table_view_remove(before, i as int);
    }
    let (_, matrix_val) = root.remove(i);
    let mut matrix = match matrix_val {
        TomlValue::Table(m) => m,
        _ => return Err("`[matrix]` must be a table".to_owned()),
    };
    let ghost mv = table_view(matrix@);
    proof {
        lemma_table_view_len(matrix@);
    }
    let params = match find_key(&matrix, "params") {
        Some(j) => {
            proof {
                lemma_table_view_remove(matrix@, j as int);
            }
            let (_, pv) = matrix.remove(j);
            match parse_params_table(&pv) {
                Ok(p) => p,
                Err(e) => return Err(e),
            }
        },
        None => {
            proof {
                assert(params_view(Seq::<(String, Vec<(String, Vec<(String, String)>)>)>::empty()) =~= Seq::<(Seq<char>, VariantsView)>::empty());
            }
            Vec::new()
        },
    };
    let axes = match parse_axes_exec(&matrix) {
        Ok(a) => a,
        Err(e) => return Err(e),
    };
    if axes.len() == 0 {
        return Ok(None);
    }
    Ok(Some(MatrixDef { axes, params }))
}


/// The map with `k` set to `v`: in place where `k` is there, else added.
pub open spec fn map_insert(m: Seq<(Seq<char>, Seq<char>)>, k: Seq<char>, v: Seq<char>) -> Seq<(Seq<char>, Seq<char>)> {
    match key_index(m, k) {
        Some(i) => m.update(i, (k, v)),
        None => m.push((k, v)),
    }
}

/// The map with each of `fields` set, in order.
pub open spec fn insert_all(m: Seq<(Seq<char>, Seq<char>)>, fields: FieldsView) -> Seq<(Seq<char>, Seq<char>)>
    decreases fields.len(),
{
    if fields.len() == 0 {
        m
    } else {
        map_insert(insert_all(m, fields.drop_last()), fields.last().0, fields.last().1)
    }
}

/// A combination extended by the value `val` of `axis`: the axis set to the
/// value, and the parameters of that variant set after it.
pub open spec fn with_axis_value(combo: Seq<(Seq<char>, Seq<char>)>, axis: Seq<char>, val: Seq<char>, params: ParamsView) -> Seq<(Seq<char>, Seq<char>)> {
    let m = map_insert(combo, axis, val);
    match key_index(params, axis) {
        Some(i) => match key_index(params[i].1, val) {
            Some(j) => insert_all(m, params[i].1[j].1),
            None => m,
        },
        None => m,
    }
}

/// A combination extended by each value of `axis`, in order.
pub open spec fn axis_variants(combo: Seq<(Seq<char>, Seq<char>)>, axis: Seq<char>, vals: Seq<Seq<char>>, params: ParamsView) -> Seq<Seq<(Seq<char>, Seq<char>)>>
    decreases vals.len(),
{
    if vals.len() == 0 {
        Seq::empty()
    } else {
        axis_variants(combo, axis, vals.drop_last(), params).push(with_axis_value(combo, axis, vals.last(), params))
    }
}

/// Each combination extended by each value of `axis`.
pub open spec fn expand_axis(combos: Seq<Seq<(Seq<char>, Seq<char>)>>, axis: Seq<char>, vals: Seq<Seq<char>>, params: ParamsView) -> Seq<Seq<(Seq<char>, Seq<char>)>>
    decreases combos.len(),
{
    if combos.len() == 0 {
        Seq::empty()
    } else {
        expand_axis(combos.drop_last(), axis, vals, params) + axis_variants(combos.last(), axis, vals, params)
    }
}

/// The Cartesian product of the axes, in order: the last axis varies slowest.
pub open spec fn combinations(axes: Seq<(Seq<char>, Seq<Seq<char>>)>, params: ParamsView) -> Seq<Seq<(Seq<char>, Seq<char>)>>
    decreases axes.len(),
{
    if axes.len() == 0 {
        seq![Seq::empty()]
    } else {
        expand_axis(combinations(axes.drop_last(), params), axes.last().0, axes.last().1, params)
    }
}

fn clone_map(m: &Vec<(String, String)>) -> (r: Vec<(String, String)>)
    ensures
        subst_view(r@) == subst_view(m@),
{
    let mut out: Vec<(String, String)> = Vec::new();
    let mut i: usize = 0;
    while i < m.len()
        invariant
            i <= m.len(),
            out@ == m@.take(i as int),
        decreases m.len() - i,
    {
        let ghost prev = out@;
        let a = m[i].0.clone();
        let b = m[i].1.clone();
        out.push((a, b));
        proof {
            assert(m@.take(i + 1) =~= m@.take(i as int).push(m@[i as int]));
            assert(out@ =~= m@.take(i + 1));
        }
        i = i + 1;
    }
    proof {
        assert(m@.take(m.len() as int) =~= m@);
    }
    out
}

fn insert_entry(m: &mut Vec<(String, String)>, k: &String, v: &String)
    ensures
        subst_view(final(m)@) == map_insert(subst_view(old(m)@), k@, v@),
{
    let ghost mv = subst_view(m@);
    let mut i: usize = 0;
    while i < m.len()
        invariant
            i <= m.len(),
            mv == subst_view(m@),
            m@ == old(m)@,
            forall|j: int| 0 <= j < i ==> (#[trigger] mv[j]).0 != k@,
        decreases m.len() - i,
    {
        if m[i].0 == *k {
            proof {
                lemma_key_index(mv, k@, i as int);
            }
            m.set(i, (k.clone(), v.clone()));
            proof {
                assert(subst_view(m@) =~= mv.update(i as int, (k@, v@)));
            }
            return;
        }
        i = i + 1;
    }
    proof {
        lemma_key_index(mv, k@, mv.len() as int);
    }
    m.push((k.clone(), v.clone()));
    proof {
        assert(subst_view(m@) =~= mv.push((k@, v@)));
    }
}

fn insert_fields(m: &mut Vec<(String, String)>, fields: &Vec<(String, String)>)
    ensures
        subst_view(final(m)@) == insert_all(subst_view(old(m)@), subst_view(fields@)),
{
    let ghost start = subst_view(m@);
    let mut i: usize = 0;
    proof {
        assert(subst_view(fields@).take(0) =~= Seq::<(Seq<char>, Seq<char>)>::empty());
    }
    while i < fields.len()
        invariant
            i <= fields.len(),
            subst_view(m@) == insert_all(start, subst_view(fields@).take(i as int)),
        decreases fields.len() - i,
    {
        insert_entry(m, &fields[i].0, &fields[i].1);
        proof {
            assert(subst_view(fields@).take(i + 1).drop_last() =~= subst_view(fields@).take(i as int));
        }
        i = i + 1;
    }
    proof {
        assert(subst_view(fields@).take(fields.len() as int) =~= subst_view(fields@));
    }
}

fn find_string_key<V>(t: &Vec<(String, V)>, key: &String) -> (r: Option<usize>)
    ensures
        match r {
            Some(i) => i < t@.len() && key_index(t@.map_values(|e: (String, V)| (e.0@, ())), key@) == Some(i as int),
            None => key_index(t@.map_values(|e: (String, V)| (e.0@, ())), key@) is None,
        },
{
    let ghost kv = t@.map_values(|e: (String, V)| (e.0@, ()));
    let mut i: usize = 0;
    while i < t.len()
        invariant
            i <= t.len(),
            kv == t@.map_values(|e: (String, V)| (e.0@, ())),
            forall|j: int| 0 <= j < i ==> (#[trigger] kv[j]).0 != key@,
        decreases t.len() - i,
    {
        if t[i].0 == *key {
            proof {
                lemma_key_index(kv, key@, i as int);
            }
            return Some(i);
        }
        i = i + 1;
    }
    proof {
        lemma_key_index(kv, key@, kv.len() as int);
    }
    None
}

proof fn lemma_key_index_keys<V, W>(t: Seq<(Seq<char>, V)>, u: Seq<(Seq<char>, W)>, k: Seq<char>)
    requires
        t.len() == u.len(),
        forall|i: int| 0 <= i < t.len() ==> (#[trigger] t[i]).0 == u[i].0,
    ensures
        key_index(t, k) == key_index(u, k),
    decreases t.len(),
{
    if t.len() > 0 {
        lemma_key_index_keys(t.drop_last(), u.drop_last(), k);
        assert(t.last().0 == u.last().0);
    }
}

fn with_axis_value_exec(combo: &Vec<(String, String)>, axis: &String, val: &String, params: &AxisParams) -> (r: Vec<(String, String)>)
    ensures
        subst_view(r@) == with_axis_value(subst_view(combo@), axis@, val@, params_view(params@)),
{
    let mut m = clone_map(combo);
    insert_entry(&mut m, axis, val);
    let ghost pv = params_view(params@);
    proof {
        lemma_key_index_keys(pv, params@.map_values(|e: (String, Vec<(String, Vec<(String, String)>)>)| (e.0@, ())), axis@);
    }
    match find_string_key(params, axis) {
        Some(i) => {
            let variants = &params[i].1;
            let ghost vv = pv[i as int].1;
            proof {
                assert(vv == variants@.map_values(|v: (String, Vec<(String, String)>)| (v.0@, subst_view(v.1@))));
                lemma_key_index_keys(vv, variants@.map_values(|e: (String, Vec<(String, String)>)| (e.0@, ())), val@);
            }
            match find_string_key(variants, val) {
                Some(j) => {
                    insert_fields(&mut m, &variants[j].1);
                },
                None => {},
            }
        },
        None => {},
    }
    m
}

/// The Cartesian product of the axes of `def`: one substitution map per
/// combination, each axis set to its value and then the parameters of that
/// variant. The first axis varies fastest.
pub fn cartesian_product(def: &MatrixDef) -> (r: Vec<Vec<(String, String)>>)
    ensures
        r@.map_values(|m: Vec<(String, String)>| subst_view(m@)) == combinations(matrix_view(*def).0, matrix_view(*def).1),
{
    let ghost pv = params_view(def.params@);
    let ghost axv = matrix_view(*def).0;
    let mut combos: Vec<Vec<(String, String)>> = Vec::new();
    combos.push(Vec::new());
    proof {
        assert(axv.take(0) =~= Seq::<(Seq<char>, Seq<Seq<char>>)>::empty());
        assert(subst_view(combos@[0]@) =~= Seq::<(Seq<char>, Seq<char>)>::empty());
        assert(combos@.map_values(|m: Vec<(String, String)>| subst_view(m@)) =~= combinations(axv.take(0), pv));
    }
    let mut a: usize = 0;
    while a < def.axes.len()
        invariant
            a <= def.axes.len(),
            pv == params_view(def.params@),
            axv == matrix_view(*def).0,
            axv.len() == def.axes@.len(),
            combos@.map_values(|m: Vec<(String, String)>| subst_view(m@)) == combinations(axv.take(a as int), pv),
        decreases def.axes.len() - a,
    {
        let axis = &def.axes[a].0;
        let values = &def.axes[a].1;
        let ghost vals = crate::text::strings_view(values@);
        let ghost cv = combos@.map_values(|m: Vec<(String, String)>| subst_view(m@));
        let mut next: Vec<Vec<(String, String)>> = Vec::new();
        let mut c: usize = 0;
        proof {
            assert(next@.map_values(|m: Vec<(String, String)>| subst_view(m@)) =~= expand_axis(cv.take(0), axis@, vals, pv));
        }
        while c < combos.len()
            invariant
                c <= combos.len(),
                cv == combos@.map_values(|m: Vec<(String, String)>| subst_view(m@)),
                vals == crate::text::strings_view(values@),
                pv == params_view(def.params@),
                next@.map_values(|m: Vec<(String, String)>| subst_view(m@)) == expand_axis(cv.take(c as int), axis@, vals, pv),
            decreases combos.len() - c,
        {
            let ghost before = next@.map_values(|m: Vec<(String, String)>| subst_view(m@));
            let mut k: usize = 0;
            proof {
                assert(next@.map_values(|m: Vec<(String, String)>| subst_view(m@)) =~= before + axis_variants(cv[c as int], axis@, vals.take(0), pv));
            }
            while k < values.len()
                invariant
                    k <= values.len(),
                    c < combos.len(),
                    cv == combos@.map_values(|m: Vec<(String, String)>| subst_view(m@)),
                    vals == crate::text::strings_view(values@),
                    pv == params_view(def.params@),
                    next@.map_values(|m: Vec<(String, String)>| subst_view(m@)) == before + axis_variants(cv[c as int], axis@, vals.take(k as int), pv),
                decreases values.len() - k,
            {
                let m = with_axis_value_exec(&combos[c], axis, &values[k], &def.params);
                let ghost prev = next@;
                next.push(m);
                proof {
                    assert(vals.take(k + 1).drop_last() =~= vals.take(k as int));
                    assert(next@.map_values(|m: Vec<(String, String)>| subst_view(m@)) =~= prev.map_values(|m: Vec<(String, String)>| subst_view(m@)).push(subst_view(m@)));
                }
                k = k + 1;
            }
            proof {
                assert(vals.take(values.len() as int) =~= vals);
                assert(cv.take(c + 1).drop_last() =~= cv.take(c as int));
            }
            c = c + 1;
        }
        proof {
            assert(cv.take(combos.len() as int) =~= cv);
            assert(axv.take(a + 1).drop_last() =~= axv.take(a as int));
        }
        combos = next;
        a = a + 1;
    }
    proof {
        assert(axv.take(def.axes.len() as int) =~= axv);
    }
    combos
}


/// The product of the numbers of values of the axes.
pub open spec fn axes_product(axes: Seq<(Seq<char>, Seq<Seq<char>>)>) -> nat
    decreases axes.len(),
{
    if axes.len() == 0 {
        1
    } else {
        axes_product(axes.drop_last()) * axes.last().1.len()
    }
}

proof fn lemma_axis_variants_len(combo: Seq<(Seq<char>, Seq<char>)>, axis: Seq<char>, vals: Seq<Seq<char>>, params: ParamsView)
    ensures
        axis_variants(combo, axis, vals, params).len() == vals.len(),
    decreases vals.len(),
{
    if vals.len() > 0 {
        lemma_axis_variants_len(combo, axis, vals.drop_last(), params);
    }
}

proof fn lemma_expand_axis_len(combos: Seq<Seq<(Seq<char>, Seq<char>)>>, axis: Seq<char>, vals: Seq<Seq<char>>, params: ParamsView)
    ensures
        expand_axis(combos, axis, vals, params).len() == combos.len() * vals.len(),
    decreases combos.len(),
{
    if combos.len() > 0 {
        lemma_expand_axis_len(combos.drop_last(), axis, vals, params);
        lemma_axis_variants_len(combos.last(), axis, vals, params);
        assert((combos.len() - 1) * vals.len() + vals.len() == combos.len() * vals.len()) by (nonlinear_arith);
    }
}

/// The matrix gives one variant per combination of axis values: as many as
/// the product of the numbers of values of its axes.
pub proof fn law_variant_count(axes: Seq<(Seq<char>, Seq<Seq<char>>)>, params: ParamsView)
    ensures
        combinations(axes, params).len() == axes_product(axes),
    decreases axes.len(),
{
    if axes.len() > 0 {
        law_variant_count(axes.drop_last(), params);
        lemma_expand_axis_len(combinations(axes.drop_last(), params), axes.last().0, axes.last().1, params);
    }
}

/// A simulation file without a `[matrix]` table is its own single variant.
pub proof fn law_no_matrix_passthrough(root: Seq<(Seq<char>, TomlView)>)
    requires
        key_index(root, "matrix"@) is None,
    ensures
        expansion(root) == Ok::<Seq<Seq<(Seq<char>, TomlView)>>, Seq<char>>(seq![root]),
{
}

/// The variants of a simulation file `root`: the file itself (without a
/// `[matrix]` table) when it has no matrix, else one per combination of the
/// axes, in order, with the placeholders replaced; or the matrix's error.
pub open spec fn expansion(root: Seq<(Seq<char>, TomlView)>) -> Result<Seq<Seq<(Seq<char>, TomlView)>>, Seq<char>> {
    let (rest, m) = matrix_of(root);
    match m {
        Err(e) => Err(e),
        Ok(None) => Ok(seq![rest]),
        Ok(Some(def)) => Ok(combinations(def.0, def.1).map_values(|c: Seq<(Seq<char>, Seq<char>)>| subst_table(rest, c))),
    }
}

/// Expands a parsed simulation file into its variants.
pub fn expand_matrix(root: Vec<(String, TomlValue)>) -> (r: Result<Vec<Vec<(String, TomlValue)>>, String>)
    ensures
        match expansion(table_view(root@)) {
            Ok(vs) => r matches Ok(out) && out@.map_values(|t: Vec<(String, TomlValue)>| table_view(t@)) == vs,
            Err(e) => r matches Err(m) && m@ == e,
        },
{
    let mut root = root;
    let def = match extract_matrix(&mut root) {
        Ok(Some(d)) => d,
        Ok(None) => {
            let mut out: Vec<Vec<(String, TomlValue)>> = Vec::new();
            out.push(root);
            proof {
                assert(out@.map_values(|t: Vec<(String, TomlValue)>| table_view(t@)) =~= seq![table_view(out@[0]@)]);
            }
            return Ok(out);
        },
        Err(e) => return Err(e),
    };
    let combos = cartesian_product(&def);
    let ghost rest = table_view(root@);
    let ghost cs = combos@.map_values(|m: Vec<(String, String)>| subst_view(m@));
    let tree = TomlValue::Table(root);
    proof {
        assert(toml_view(tree) == TomlView::Table(rest));
    }
    let mut results: Vec<Vec<(String, TomlValue)>> = Vec::new();
    let mut i: usize = 0;
    while i < combos.len()
        invariant
            i <= combos.len(),
            toml_view(tree) == TomlView::Table(rest),
            cs == combos@.map_values(|m: Vec<(String, String)>| subst_view(m@)),
            results@.map_values(|t: Vec<(String, TomlValue)>| table_view(t@)) == cs.take(i as int).map_values(
                |c: Seq<(Seq<char>, Seq<char>)>| subst_table(rest, c),
            ),
        decreases combos.len() - i,
    {
        let v = substituted(&tree, &combos[i]);
        match v {
            TomlValue::Table(t) => {
                let ghost prev = results@;
                proof {
                    assert(cs[i as int] == subst_view(combos@[i as int]@));
                    assert(table_view(t@) == subst_table(rest, cs[i as int]));
                }
                let ghost tv = table_view(t@);
                results.push(t);
                proof {
                    assert(cs.take(i + 1) =~= cs.take(i as int).push(cs[i as int]));
                    assert(results@.map_values(|t: Vec<(String, TomlValue)>| table_view(t@)) =~= prev.map_values(|t: Vec<(String, TomlValue)>| table_view(t@)).push(tv));
                    assert(cs.take(i + 1).map_values(|c: Seq<(Seq<char>, Seq<char>)>| subst_table(rest, c)) =~= cs.take(i as int).map_values(|c: Seq<(Seq<char>, Seq<char>)>| subst_table(rest, c)).push(subst_table(rest, cs[i as int])));
                    assert(results@.map_values(|t: Vec<(String, TomlValue)>| table_view(t@)) =~= cs.take(i + 1).map_values(
                        |c: Seq<(Seq<char>, Seq<char>)>| subst_table(rest, c),
                    ));
                }
            },
            _ => {
                proof {
                    assert(false);
                }
            },
        }
        i = i + 1;
    }
    proof {
        assert(cs.take(combos.len() as int) =~= cs);
    }
    Ok(results)
}

/// What `str::parse::<bool>` reads: `"true"` and `"false"`, nothing else.
pub open spec fn parsed_bool(t: Seq<char>) -> Option<bool> {
    if t == "true"@ {
        Some(true)
    } else if t == "false"@ {
        Some(false)
    } else {
        None
    }
}

/// A parameter substitutes as its TOML text: a boolean as text that reads
/// back as the same boolean (`"true"` for true, `"false"` for false), a
/// string as itself.
pub proof fn law_scalar_text_reads_back(b: bool, s: Seq<char>)
    ensures
        scalar_text(TomlView::Bool(b)) matches Some(t) && parsed_bool(t) == Some(b),
        scalar_text(TomlView::Str(s)) == Some(s),
{
    reveal_strlit("true");
    reveal_strlit("false");
    assert("true"@ != "false"@) by {
        assert("true"@.len() != "false"@.len());
    }
}

} // verus!
