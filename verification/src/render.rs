//! The template-rendering boundary.
//!
//! Rendering itself is the template engine's business (minijinja); this
//! module wraps the one call the variable processor needs and names its
//! result, so that everything around the call is verified.  The engine is
//! set up the same way for every call: the library's `str`, `startswith`
//! and `substr_start` filters, and a `parent` callable returning the
//! enclosing document's content.

use vstd::prelude::*;

use crate::strutil::{chars_vec, concat_str, has_prefix, starts_with_chars, string_from_chars,
    strip_prefix_chars, sub_vec};
use crate::tokens::force_string_marker;
use crate::value::{Dict, Val, YcdValue};

verus! {

/// What rendering the template `tpl` against a document content `ctx` and
/// an optional parent content `parent` returns: the rendered text, or the
/// engine's error text.  With the environment fixed by this module, the
/// result is a function of these three arguments alone.
pub uninterp spec fn rendered_of(
    tpl: Seq<char>,
    ctx: Seq<(Seq<char>, Val)>,
    parent: Option<Seq<(Seq<char>, Val)>>,
) -> Result<Seq<char>, Seq<char>>;

/// The `str` filter: attach the force-string marker so that the
/// post-render coercion keeps the value a string.
pub fn force_string_wrap(s: &str) -> (r: String)
    ensures
        r@ == force_string_marker() + s@,
{
    let m = crate::tokens::force_string_marker_str();
    concat_str(m, s)
}

/// The `startswith` filter.
pub fn starts_with_filter(s: &str, p: &str) -> (r: bool)
    ensures
        r == has_prefix(s@, p@),
{
    let sv = chars_vec(s);
    let pv = chars_vec(p);
    starts_with_chars(&sv, &pv)
}

/// The `substr_start` filter: the characters of `s` from `start` on, or
/// the empty string when `start` is past the end.
pub fn substr_start_filter(s: &str, start: usize) -> (r: String)
    ensures
        start <= s@.len() ==> r@ == s@.skip(start as int),
        start > s@.len() ==> r@ == Seq::<char>::empty(),
{
    let sv = chars_vec(s);
    if start > sv.len() {
        let empty: Vec<char> = Vec::new();
        return string_from_chars(&empty);
    }
    let rest = sub_vec(&sv, start, sv.len());
    proof {
        assert(rest@ =~= s@.skip(start as int));
    }
    string_from_chars(&rest)
}

/// Strip the force-string marker, if present.
pub fn strip_force_string(s: &str) -> (r: Option<String>)
    ensures
        has_prefix(s@, force_string_marker()) ==> (r matches Some(rest) && rest@ == s@.skip(
            force_string_marker().len() as int,
        )),
        !has_prefix(s@, force_string_marker()) ==> r is None,
{
    let sv = chars_vec(s);
    let mv = chars_vec(crate::tokens::force_string_marker_str());
    match strip_prefix_chars(&sv, &mv) {
        Some(rest) => Some(string_from_chars(&rest)),
        None => None,
    }
}

/// Relies on minijinja's `Environment` and `Template::render`: with this
/// module's fixed environment, rendering is a pure function of the
/// template text, the context entries and the parent entries, here named
/// [`rendered_of`]; the error case carries the engine's error text.
#[verifier::external_body]
pub fn render_template(tpl: &str, ctx: &Dict, parent: &Option<Dict>) -> (r: Result<
    String,
    String,
>)
    ensures
        match r {
            Ok(s) => rendered_of(tpl@, ctx@, parent_view(*parent)) == Ok::<Seq<char>, Seq<char>>(
                s@,
            ),
            Err(c) => rendered_of(tpl@, ctx@, parent_view(*parent)) == Err::<
                Seq<char>,
                Seq<char>,
            >(c@),
        },
{
    let mut env = minijinja::Environment::new();
    env.add_filter("str", |s: String| force_string_wrap(s.as_str()));
    env.add_filter("startswith", |s: String, p: String| starts_with_filter(s.as_str(), p.as_str()));
    env.add_filter("substr_start", |s: String, i: usize| substr_start_filter(s.as_str(), i));
    let ctxv = mj_context(ctx, parent);
    let t = match env.template_from_str(tpl) {
        Ok(t) => t,
        Err(e) => {
            return Err(e.to_string());
        },
    };
    match t.render(ctxv) {
        Ok(s) => Ok(s),
        Err(e) => Err(e.to_string()),
    }
}

/// The view of the optional parent content.
pub open spec fn parent_view(p: Option<Dict>) -> Option<Seq<(Seq<char>, Val)>> {
    match p {
        Some(d) => Some(crate::value::view_entries(d.entries@)),
        None => None,
    }
}

/// Relies on minijinja's `YcdValue` map construction: the context value holds
/// the document's entries, with a `parent` callable first so that a
/// document field of that name shadows it.
#[verifier::external_body]
fn mj_context(ctx: &Dict, parent: &Option<Dict>) -> minijinja::value::Value {
    let mut m: Vec<(String, minijinja::value::Value)> = Vec::new();
    if let Some(p) = parent {
        let pv = mj_dict(p);
        m.push((
            "parent".to_string(),
            minijinja::value::Value::from_function(move || pv.clone()),
        ));
    }
    for e in ctx.entries.iter() {
        m.push((e.0.clone(), mj_value(&e.1)));
    }
    m.into_iter().collect()
}

/// Relies on minijinja's `YcdValue` constructors: converts one document node,
/// one for one, into the engine's form.
#[verifier::external_body]
fn mj_value(v: &YcdValue) -> minijinja::value::Value {
    match v {
        YcdValue::Doc(b) => mj_dict(&b.content),
        YcdValue::Dict(d) => mj_dict(d),
        YcdValue::List(l) => l.iter().map(mj_value).collect(),
        YcdValue::Str(s) => minijinja::value::Value::from(s.as_str()),
        YcdValue::Bool(b) => minijinja::value::Value::from(*b),
        YcdValue::Int(i) => minijinja::value::Value::from(*i),
        YcdValue::Float(n) => minijinja::value::Value::from_serialize(n),
    }
}

/// Relies on minijinja's `YcdValue` map construction: converts a dictionary,
/// entry for entry, into the engine's form.
#[verifier::external_body]
fn mj_dict(d: &Dict) -> minijinja::value::Value {
    d.entries.iter().map(|e| (e.0.clone(), mj_value(&e.1))).collect()
}

} // verus!
