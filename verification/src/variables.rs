//! The variable processor: two-phase traversal of a document's content.
//!
//! First every nested document anywhere in the tree is processed fully
//! (the sub-document pass), then the document's own string leaves are
//! rendered against its current content, repeatedly, until a full pass
//! changes nothing.  A rendered result that parses as a 64-bit integer is
//! coerced to an integer unless the `str` filter marked it as a string.
//!
//! Convergence of the fixed point is not guaranteed for self-referential
//! templates, so the repetition carries a generous pass allowance;
//! exceeding it is reported as a variable-processing error.

use vstd::prelude::*;
use vstd::pervasive::unreached;

use crate::errors::{ConfigError, ErrV};
use crate::render::{parent_view, render_template, rendered_of, strip_force_string};
use crate::strutil::{
    chars_vec, contains_char, has_prefix, opt_view, parse_i64, parse_i64_spec, str_eq,
};
use crate::tokens::force_string_marker;
use crate::value::{DocV, Dict, Document, Val, YcdValue};

verus! {

/// The number of render passes a single document may take to reach its
/// fixed point.
pub const VAR_PASS_LIMIT: u64 = 100000;

/// The cause text reported when the pass allowance is exhausted.
pub open spec fn pass_limit_text() -> Seq<char> {
    "variable substitution did not reach a fixed point"@
}

pub fn pass_limit_text_str() -> (r: &'static str)
    ensures
        r@ == pass_limit_text(),
{
    "variable substitution did not reach a fixed point"
}

/// Post-render coercion: an unchanged render stays the original string, a
/// force-string marker is stripped and the rest stays a string, an
/// integer-shaped result becomes an integer, anything else stays a string.
pub open spec fn coerce_spec(input: Seq<char>, rendered: Seq<char>) -> Val {
    if rendered == input {
        Val::Str(input)
    } else if has_prefix(rendered, force_string_marker()) {
        Val::Str(rendered.skip(force_string_marker().len() as int))
    } else {
        match parse_i64_spec(rendered) {
            Some(v) => Val::Int(v),
            None => Val::Str(rendered),
        }
    }
}

/// What rendering one string against a document yields: `None` when the
/// string cannot contain template syntax (it has no `{`), the coerced
/// render otherwise, or the engine's error text.
pub open spec fn apply_var_spec(
    input: Seq<char>,
    ctx: Seq<(Seq<char>, Val)>,
    parent: Option<Seq<(Seq<char>, Val)>>,
) -> Result<Option<Val>, Seq<char>> {
    if !input.contains('{') {
        Ok(None)
    } else {
        match rendered_of(input, ctx, parent) {
            Ok(rd) => Ok(Some(coerce_spec(input, rd))),
            Err(c) => Err(c),
        }
    }
}

/// Whether replacing `input` by `nv` counts as a change for the fixed
/// point: only a differing *string* result re-triggers a pass.
pub open spec fn changed_of(input: Seq<char>, nv: Val) -> bool {
    match nv {
        Val::Str(s) => s != input,
        _ => false,
    }
}

/// One render pass over a node: string leaves are rendered against `ctx`,
/// mappings and lists are traversed, nested documents and other scalars
/// are left alone.
pub open spec fn pass_val(
    v: Val,
    ctx: Seq<(Seq<char>, Val)>,
    parent: Option<Seq<(Seq<char>, Val)>>,
    docpath: Option<Seq<char>>,
) -> Result<(Val, bool), ErrV>
    decreases v, 1int,
{
    match v {
        Val::Str(s) => match apply_var_spec(s, ctx, parent) {
            Ok(None) => Ok((v, false)),
            Ok(Some(nv)) => Ok((nv, changed_of(s, nv))),
            Err(c) => Err(
                ErrV::VariableProcessing { original: s, document_path: docpath, cause: c },
            ),
        },
        Val::Dict(m) => match pass_map(m, ctx, parent, docpath) {
            Ok(r) => Ok((Val::Dict(r.0), r.1)),
            Err(e) => Err(e),
        },
        Val::List(l) => match pass_list(l, ctx, parent, docpath) {
            Ok(r) => Ok((Val::List(r.0), r.1)),
            Err(e) => Err(e),
        },
        _ => Ok((v, false)),
    }
}

pub open spec fn pass_map(
    m: Seq<(Seq<char>, Val)>,
    ctx: Seq<(Seq<char>, Val)>,
    parent: Option<Seq<(Seq<char>, Val)>>,
    docpath: Option<Seq<char>>,
) -> Result<(Seq<(Seq<char>, Val)>, bool), ErrV>
    decreases m, 0int,
{
    if m.len() == 0 {
        Ok((Seq::empty(), false))
    } else {
        match pass_map(m.drop_last(), ctx, parent, docpath) {
            Err(e) => Err(e),
            Ok(rest) => match pass_val(m.last().1, ctx, parent, docpath) {
                Err(e) => Err(e),
                Ok(one) => Ok((rest.0.push((m.last().0, one.0)), rest.1 || one.1)),
            },
        }
    }
}

pub open spec fn pass_list(
    l: Seq<Val>,
    ctx: Seq<(Seq<char>, Val)>,
    parent: Option<Seq<(Seq<char>, Val)>>,
    docpath: Option<Seq<char>>,
) -> Result<(Seq<Val>, bool), ErrV>
    decreases l, 0int,
{
    if l.len() == 0 {
        Ok((Seq::empty(), false))
    } else {
        match pass_list(l.drop_last(), ctx, parent, docpath) {
            Err(e) => Err(e),
            Ok(rest) => match pass_val(l.last(), ctx, parent, docpath) {
                Err(e) => Err(e),
                Ok(one) => Ok((rest.0.push(one.0), rest.1 || one.1)),
            },
        }
    }
}

/// The render pass repeated to a fixed point: each pass renders against
/// the content as it stood at the start of that pass; the repetition stops
/// when a pass changes nothing, or fails when the allowance runs out.
pub open spec fn fixed_point_spec(
    c: Seq<(Seq<char>, Val)>,
    parent: Option<Seq<(Seq<char>, Val)>>,
    docpath: Option<Seq<char>>,
    passes: nat,
) -> Result<Seq<(Seq<char>, Val)>, ErrV>
    decreases passes,
{
    if passes == 0 {
        Err(
            ErrV::VariableProcessing {
                original: Seq::empty(),
                document_path: docpath,
                cause: pass_limit_text(),
            },
        )
    } else {
        match pass_map(c, c, parent, docpath) {
            Err(e) => Err(e),
            Ok(r) => if !r.1 {
                Ok(r.0)
            } else {
                fixed_point_spec(r.0, parent, docpath, (passes - 1) as nat)
            },
        }
    }
}

/// The sub-document pass over one node: every nested document anywhere is
/// processed fully, with the enclosing document's content as its parent
/// context; everything else is untouched.
pub open spec fn subdoc_pass_val(v: Val, parent_for_nested: Seq<(Seq<char>, Val)>, passes: nat) -> Result<
    Val,
    ErrV,
>
    decreases v, 0int,
{
    match v {
        Val::Doc(d) => match process_vars_spec(d, Some(parent_for_nested), passes) {
            Ok(d2) => Ok(Val::Doc(d2)),
            Err(e) => Err(e),
        },
        Val::Dict(m) => match subdoc_pass_map(m, parent_for_nested, passes) {
            Ok(m2) => Ok(Val::Dict(m2)),
            Err(e) => Err(e),
        },
        Val::List(l) => match subdoc_pass_list(l, parent_for_nested, passes) {
            Ok(l2) => Ok(Val::List(l2)),
            Err(e) => Err(e),
        },
        _ => Ok(v),
    }
}

pub open spec fn subdoc_pass_map(
    m: Seq<(Seq<char>, Val)>,
    parent_for_nested: Seq<(Seq<char>, Val)>,
    passes: nat,
) -> Result<Seq<(Seq<char>, Val)>, ErrV>
    decreases m, 1int,
{
    if m.len() == 0 {
        Ok(Seq::empty())
    } else {
        match subdoc_pass_map(m.drop_last(), parent_for_nested, passes) {
            Err(e) => Err(e),
            Ok(rest) => match subdoc_pass_val(m.last().1, parent_for_nested, passes) {
                Err(e) => Err(e),
                Ok(v2) => Ok(rest.push((m.last().0, v2))),
            },
        }
    }
}

pub open spec fn subdoc_pass_list(
    l: Seq<Val>,
    parent_for_nested: Seq<(Seq<char>, Val)>,
    passes: nat,
) -> Result<Seq<Val>, ErrV>
    decreases l, 1int,
{
    if l.len() == 0 {
        Ok(Seq::empty())
    } else {
        match subdoc_pass_list(l.drop_last(), parent_for_nested, passes) {
            Err(e) => Err(e),
            Ok(rest) => match subdoc_pass_val(l.last(), parent_for_nested, passes) {
                Err(e) => Err(e),
                Ok(v2) => Ok(rest.push(v2)),
            },
        }
    }
}

/// What processing all variables of a document yields: nested documents
/// first, then this document's own strings to a fixed point.
pub open spec fn process_vars_spec(
    d: DocV,
    parent: Option<Seq<(Seq<char>, Val)>>,
    passes: nat,
) -> Result<DocV, ErrV>
    decreases d, 2int,
{
    match subdoc_pass_map(d.content, d.content, passes) {
        Err(e) => Err(e),
        Ok(c1) => {
            let docpath = if d.abs_paths.len() > 0 {
                Some(d.abs_paths[0])
            } else {
                None
            };
            match fixed_point_spec(c1, parent, docpath, passes) {
                Err(e) => Err(e),
                Ok(c2) => Ok(DocV { content: c2, ..d }),
            }
        },
    }
}

/// Render one string against a document content and coerce the result, as
/// executable code.  `Ok(None)` means "left unchanged" (no `{` at all).
pub fn apply_variable_resolution(input: &str, ctx: &Dict, parent: &Option<Dict>) -> (r: Result<
    Option<YcdValue>,
    String,
>)
    ensures
        match r {
            Ok(None) => apply_var_spec(input@, ctx@, parent_view(*parent)) == Ok::<
                Option<Val>,
                Seq<char>,
            >(None),
            Ok(Some(nv)) => apply_var_spec(input@, ctx@, parent_view(*parent)) == Ok::<
                Option<Val>,
                Seq<char>,
            >(Some(nv@)),
            Err(c) => apply_var_spec(input@, ctx@, parent_view(*parent)) == Err::<
                Option<Val>,
                Seq<char>,
            >(c@),
        },
{
    let cv = chars_vec(input);
    if !contains_char(&cv, '{') {
        return Ok(None);
    }
    let rendered = match render_template(input, ctx, parent) {
        Ok(s) => s,
        Err(c) => {
            return Err(c);
        },
    };
    if str_eq(rendered.as_str(), input) {
        return Ok(Some(YcdValue::Str(input.to_owned())));
    }
    match strip_force_string(rendered.as_str()) {
        Some(rest) => Ok(Some(YcdValue::Str(rest))),
        None => {
            let rv = chars_vec(rendered.as_str());
            match parse_i64(&rv) {
                Some(x) => Ok(Some(YcdValue::Int(x))),
                None => Ok(Some(YcdValue::Str(rendered))),
            }
        },
    }
}

/// One render pass over a node, as executable code.
fn pass_value(
    v: &YcdValue,
    ctx: &Dict,
    parent: &Option<Dict>,
    docpath: &Option<String>,
) -> (r: Result<(YcdValue, bool), ConfigError>)
    ensures
        match r {
            Ok(p) => pass_val(v@, ctx@, parent_view(*parent), opt_view(*docpath)) == Ok::<
                (Val, bool),
                ErrV,
            >((p.0@, p.1)),
            Err(e) => pass_val(v@, ctx@, parent_view(*parent), opt_view(*docpath)) == Err::<
                (Val, bool),
                ErrV,
            >(e@),
        },
    decreases *v, 1int,
{
    match v {
        YcdValue::Str(s) => {
            match apply_variable_resolution(s.as_str(), ctx, parent) {
                Ok(None) => Ok((YcdValue::Str(s.clone()), false)),
                Ok(Some(nv)) => {
                    let changed: bool = match &nv {
                        YcdValue::Str(snv) => !str_eq(snv.as_str(), s.as_str()),
                        _ => false,
                    };
                    Ok((nv, changed))
                },
                Err(c) => {
                    let dp: Option<String> = match docpath {
                        Some(p) => Some(p.clone()),
                        None => None,
                    };
                    Err(
                        ConfigError::VariableProcessing {
                            original: s.clone(),
                            document_path: dp,
                            cause: c,
                        },
                    )
                },
            }
        },
        YcdValue::Dict(m) => {
            let ghost mv = m@;
            proof {
                crate::value::lemma_view_entries(m.entries@);
                assert(mv.take(0) =~= Seq::<(Seq<char>, Val)>::empty());
            }
            let mut out = Dict::new();
            let mut ch = false;
            let n = m.entries.len();
            let mut i: usize = 0;
            while i < n
                invariant
                    n == m.entries@.len(),
                    i <= n,
                    mv == m@,
                    v@ == Val::Dict(mv),
                    mv.len() == n,
                    forall|j: int|
                        0 <= j < n ==> #[trigger] mv[j] == (
                            m.entries@[j].0@,
                            m.entries@[j].1@,
                        ),
                    pass_map(mv.take(i as int), ctx@, parent_view(*parent), opt_view(*docpath))
                        == Ok::<(Seq<(Seq<char>, Val)>, bool), ErrV>((out@, ch)),
                    forall|j: int| i <= j < n ==> decreases_to!(*v => m.entries@[j].1),
                decreases n - i,
            {
                proof {
                    assert(mv.take(i + 1).drop_last() =~= mv.take(i as int));
                    assert(mv.take(i + 1).last() == mv[i as int]);
                }
                let one = match pass_value(&m.entries[i].1, ctx, parent, docpath) {
                    Ok(p) => p,
                    Err(e) => {
                        proof {
                            lemma_pass_map_prefix_err(
                                mv,
                                i + 1,
                                ctx@,
                                parent_view(*parent),
                                opt_view(*docpath),
                            );
                            assert(mv.take(mv.len() as int) =~= mv);
                        }
                        return Err(e);
                    },
                };
                let ghost old_out = out@;
                let ghost old_vec = out.entries@;
                out.entries.push((m.entries[i].0.clone(), one.0));
                ch = ch || one.1;
                proof {
                    crate::value::lemma_view_entries(out.entries@);
                    crate::value::lemma_view_entries(old_vec);
                    assert(out.entries@.drop_last() =~= old_vec);
                    assert(out@ =~= old_out.push((mv[i as int].0, out.entries@.last().1@)));
                }
                i = i + 1;
            }
            proof {
                assert(mv.take(n as int) =~= mv);
            }
            Ok((YcdValue::Dict(out), ch))
        },
        YcdValue::List(l) => {
            let ghost lv = crate::value::view_list(l@);
            proof {
                crate::value::lemma_view_list(l@);
                assert(lv.take(0) =~= Seq::<Val>::empty());
            }
            let mut out: Vec<YcdValue> = Vec::new();
            let mut ch = false;
            let n = l.len();
            let mut i: usize = 0;
            proof {
                assert(crate::value::view_list(out@) =~= Seq::<Val>::empty());
            }
            while i < n
                invariant
                    n == l@.len(),
                    i <= n,
                    lv == crate::value::view_list(l@),
                    v@ == Val::List(lv),
                    lv.len() == n,
                    forall|j: int| 0 <= j < n ==> #[trigger] lv[j] == l@[j]@,
                    pass_list(lv.take(i as int), ctx@, parent_view(*parent), opt_view(*docpath))
                        == Ok::<(Seq<Val>, bool), ErrV>((crate::value::view_list(out@), ch)),
                    forall|j: int| i <= j < n ==> decreases_to!(*v => l@[j]),
                decreases n - i,
            {
                proof {
                    assert(lv.take(i + 1).drop_last() =~= lv.take(i as int));
                    assert(lv.take(i + 1).last() == lv[i as int]);
                }
                let one = match pass_value(&l[i], ctx, parent, docpath) {
                    Ok(p) => p,
                    Err(e) => {
                        proof {
                            lemma_pass_list_prefix_err(
                                lv,
                                i + 1,
                                ctx@,
                                parent_view(*parent),
                                opt_view(*docpath),
                            );
                            assert(lv.take(lv.len() as int) =~= lv);
                        }
                        return Err(e);
                    },
                };
                let ghost old_out = crate::value::view_list(out@);
                let ghost old_vec = out@;
                out.push(one.0);
                ch = ch || one.1;
                proof {
                    crate::value::lemma_view_list(out@);
                    crate::value::lemma_view_list(old_vec);
                    assert(out@.drop_last() =~= old_vec);
                    assert(crate::value::view_list(out@) =~= old_out.push(out@.last()@));
                }
                i = i + 1;
            }
            proof {
                assert(lv.take(n as int) =~= lv);
            }
            Ok((YcdValue::List(out), ch))
        },
        _ => Ok((v.duplicate(), false)),
    }
}

proof fn lemma_pass_map_prefix_err(
    m: Seq<(Seq<char>, Val)>,
    i: int,
    ctx: Seq<(Seq<char>, Val)>,
    parent: Option<Seq<(Seq<char>, Val)>>,
    docpath: Option<Seq<char>>,
)
    requires
        0 <= i <= m.len(),
        pass_map(m.take(i), ctx, parent, docpath) is Err,
    ensures
        pass_map(m.take(m.len() as int), ctx, parent, docpath) == pass_map(
            m.take(i),
            ctx,
            parent,
            docpath,
        ),
    decreases m.len() - i,
{
    if i < m.len() {
        assert(m.take(i + 1).drop_last() =~= m.take(i));
        lemma_pass_map_prefix_err(m, i + 1, ctx, parent, docpath);
    }
}

proof fn lemma_pass_list_prefix_err(
    l: Seq<Val>,
    i: int,
    ctx: Seq<(Seq<char>, Val)>,
    parent: Option<Seq<(Seq<char>, Val)>>,
    docpath: Option<Seq<char>>,
)
    requires
        0 <= i <= l.len(),
        pass_list(l.take(i), ctx, parent, docpath) is Err,
    ensures
        pass_list(l.take(l.len() as int), ctx, parent, docpath) == pass_list(
            l.take(i),
            ctx,
            parent,
            docpath,
        ),
    decreases l.len() - i,
{
    if i < l.len() {
        assert(l.take(i + 1).drop_last() =~= l.take(i));
        lemma_pass_list_prefix_err(l, i + 1, ctx, parent, docpath);
    }
}

/// The render pass repeated to a fixed point, as executable code.
fn run_fixed_point(
    c: Dict,
    parent: &Option<Dict>,
    docpath: &Option<String>,
    passes: u64,
) -> (r: Result<Dict, ConfigError>)
    ensures
        match r {
            Ok(c2) => fixed_point_spec(c@, parent_view(*parent), opt_view(*docpath),
                passes as nat) == Ok::<Seq<(Seq<char>, Val)>, ErrV>(c2@),
            Err(e) => fixed_point_spec(c@, parent_view(*parent), opt_view(*docpath),
                passes as nat) == Err::<Seq<(Seq<char>, Val)>, ErrV>(e@),
        },
{
    let ghost c0 = c@;
    let mut cur = c;
    let mut p = passes;
    while p > 0
        invariant
            c0 == c@,
            fixed_point_spec(cur@, parent_view(*parent), opt_view(*docpath), p as nat)
                == fixed_point_spec(c0, parent_view(*parent), opt_view(*docpath), passes as nat),
        decreases p,
    {
        let (c2, ch) = match pass_value_dict(&cur, parent, docpath) {
            Ok(pr) => pr,
            Err(e) => {
                return Err(e);
            },
        };
        if !ch {
            return Ok(c2);
        }
        cur = c2;
        p = p - 1;
    }
    let dp: Option<String> = match docpath {
        Some(pp) => Some(pp.clone()),
        None => None,
    };
    Err(
        ConfigError::VariableProcessing {
            original: String::new(),
            document_path: dp,
            cause: pass_limit_text_str().to_owned(),
        },
    )
}

proof fn lemma_subdoc_map_prefix_err(
    m: Seq<(Seq<char>, Val)>,
    i: int,
    parent_for_nested: Seq<(Seq<char>, Val)>,
    passes: nat,
)
    requires
        0 <= i <= m.len(),
        subdoc_pass_map(m.take(i), parent_for_nested, passes) is Err,
    ensures
        subdoc_pass_map(m.take(m.len() as int), parent_for_nested, passes) == subdoc_pass_map(
            m.take(i),
            parent_for_nested,
            passes,
        ),
    decreases m.len() - i,
{
    if i < m.len() {
        assert(m.take(i + 1).drop_last() =~= m.take(i));
        lemma_subdoc_map_prefix_err(m, i + 1, parent_for_nested, passes);
    }
}

proof fn lemma_subdoc_list_prefix_err(
    l: Seq<Val>,
    i: int,
    parent_for_nested: Seq<(Seq<char>, Val)>,
    passes: nat,
)
    requires
        0 <= i <= l.len(),
        subdoc_pass_list(l.take(i), parent_for_nested, passes) is Err,
    ensures
        subdoc_pass_list(l.take(l.len() as int), parent_for_nested, passes) == subdoc_pass_list(
            l.take(i),
            parent_for_nested,
            passes,
        ),
    decreases l.len() - i,
{
    if i < l.len() {
        assert(l.take(i + 1).drop_last() =~= l.take(i));
        lemma_subdoc_list_prefix_err(l, i + 1, parent_for_nested, passes);
    }
}

/// The sub-document pass over one node, as executable code.
fn subdoc_pass_value(v: &YcdValue, parent_for_nested: &Dict, passes: u64) -> (r: Result<
    YcdValue,
    ConfigError,
>)
    ensures
        match r {
            Ok(v2) => subdoc_pass_val(v@, parent_for_nested@, passes as nat) == Ok::<Val, ErrV>(
                v2@,
            ),
            Err(e) => subdoc_pass_val(v@, parent_for_nested@, passes as nat) == Err::<Val, ErrV>(
                e@,
            ),
        },
    decreases *v, 0int,
{
    match v {
        YcdValue::Doc(b) => {
            let pfd: Option<Dict> = Some(parent_for_nested.duplicate());
            match process_variables(b, &pfd, passes) {
                Ok(d2) => Ok(YcdValue::Doc(Box::new(d2))),
                Err(e) => Err(e),
            }
        },
        YcdValue::Dict(d) => {
            let ghost mv = d@;
            proof {
                crate::value::lemma_view_entries(d.entries@);
                assert(mv.take(0) =~= Seq::<(Seq<char>, Val)>::empty());
            }
            let mut out = Dict::new();
            let n = d.entries.len();
            let mut i: usize = 0;
            while i < n
                invariant
                    n == d.entries@.len(),
                    i <= n,
                    mv == d@,
                    v@ == Val::Dict(mv),
                    mv.len() == n,
                    forall|j: int|
                        0 <= j < n ==> #[trigger] mv[j] == (
                            d.entries@[j].0@,
                            d.entries@[j].1@,
                        ),
                    subdoc_pass_map(mv.take(i as int), parent_for_nested@, passes as nat)
                        == Ok::<Seq<(Seq<char>, Val)>, ErrV>(out@),
                    forall|j: int| i <= j < n ==> decreases_to!(*v => d.entries@[j].1),
                decreases n - i,
            {
                proof {
                    assert(mv.take(i + 1).drop_last() =~= mv.take(i as int));
                    assert(mv.take(i + 1).last() == mv[i as int]);
                }
                let lv = match subdoc_pass_value(&d.entries[i].1, parent_for_nested, passes) {
                    Ok(lv) => lv,
                    Err(e) => {
                        proof {
                            lemma_subdoc_map_prefix_err(
                                mv,
                                i + 1,
                                parent_for_nested@,
                                passes as nat,
                            );
                            assert(mv.take(mv.len() as int) =~= mv);
                        }
                        return Err(e);
                    },
                };
                let ghost old_out = out@;
                let ghost old_vec = out.entries@;
                out.entries.push((d.entries[i].0.clone(), lv));
                proof {
                    crate::value::lemma_view_entries(out.entries@);
                    crate::value::lemma_view_entries(old_vec);
                    assert(out.entries@.drop_last() =~= old_vec);
                    assert(out@ =~= old_out.push((mv[i as int].0, out.entries@.last().1@)));
                    assert(subdoc_pass_map(mv.take(i + 1), parent_for_nested@, passes as nat)
                        == Ok::<Seq<(Seq<char>, Val)>, ErrV>(out@));
                }
                i = i + 1;
            }
            proof {
                assert(mv.take(n as int) =~= mv);
            }
            Ok(YcdValue::Dict(out))
        },
        YcdValue::List(l) => {
            let ghost lvw = crate::value::view_list(l@);
            proof {
                crate::value::lemma_view_list(l@);
                assert(lvw.take(0) =~= Seq::<Val>::empty());
            }
            let mut out: Vec<YcdValue> = Vec::new();
            let n = l.len();
            let mut i: usize = 0;
            proof {
                assert(crate::value::view_list(out@) =~= Seq::<Val>::empty());
            }
            while i < n
                invariant
                    n == l@.len(),
                    i <= n,
                    lvw == crate::value::view_list(l@),
                    v@ == Val::List(lvw),
                    lvw.len() == n,
                    forall|j: int| 0 <= j < n ==> #[trigger] lvw[j] == l@[j]@,
                    subdoc_pass_list(lvw.take(i as int), parent_for_nested@, passes as nat)
                        == Ok::<Seq<Val>, ErrV>(crate::value::view_list(out@)),
                    forall|j: int| i <= j < n ==> decreases_to!(*v => l@[j]),
                decreases n - i,
            {
                proof {
                    assert(lvw.take(i + 1).drop_last() =~= lvw.take(i as int));
                    assert(lvw.take(i + 1).last() == lvw[i as int]);
                }
                let lv = match subdoc_pass_value(&l[i], parent_for_nested, passes) {
                    Ok(lv) => lv,
                    Err(e) => {
                        proof {
                            lemma_subdoc_list_prefix_err(
                                lvw,
                                i + 1,
                                parent_for_nested@,
                                passes as nat,
                            );
                            assert(lvw.take(lvw.len() as int) =~= lvw);
                        }
                        return Err(e);
                    },
                };
                let ghost old_out = crate::value::view_list(out@);
                let ghost old_vec = out@;
                out.push(lv);
                proof {
                    crate::value::lemma_view_list(out@);
                    crate::value::lemma_view_list(old_vec);
                    assert(out@.drop_last() =~= old_vec);
                    assert(crate::value::view_list(out@) =~= old_out.push(out@.last()@));
                }
                i = i + 1;
            }
            proof {
                assert(lvw.take(n as int) =~= lvw);
            }
            Ok(YcdValue::List(out))
        },
        _ => Ok(v.duplicate()),
    }
}

/// Process all variables of a document: nested documents first, then this
/// document\'s own strings to a fixed point.
pub fn process_variables(doc: &Document, parent: &Option<Dict>, passes: u64) -> (r: Result<
    Document,
    ConfigError,
>)
    ensures
        match r {
            Ok(d2) => process_vars_spec(doc@, parent_view(*parent), passes as nat) == Ok::<
                DocV,
                ErrV,
            >(d2@),
            Err(e) => process_vars_spec(doc@, parent_view(*parent), passes as nat) == Err::<
                DocV,
                ErrV,
            >(e@),
        },
    decreases *doc, 2int,
{
    let parent_for_nested = doc.content.duplicate();
    let ghost mv = doc@.content;
    proof {
        crate::value::lemma_view_entries(doc.content.entries@);
        assert(mv.take(0) =~= Seq::<(Seq<char>, Val)>::empty());
    }
    let mut c1 = Dict::new();
    let n = doc.content.entries.len();
    let mut i: usize = 0;
    while i < n
        invariant
            n == doc.content.entries@.len(),
            i <= n,
            mv == doc@.content,
            parent_for_nested@ == mv,
            mv.len() == n,
            forall|j: int|
                0 <= j < n ==> #[trigger] mv[j] == (
                    doc.content.entries@[j].0@,
                    doc.content.entries@[j].1@,
                ),
            subdoc_pass_map(mv.take(i as int), mv, passes as nat) == Ok::<
                Seq<(Seq<char>, Val)>,
                ErrV,
            >(c1@),
            forall|j: int| i <= j < n ==> decreases_to!(*doc => doc.content.entries@[j].1),
        decreases n - i,
    {
        proof {
            assert(mv.take(i + 1).drop_last() =~= mv.take(i as int));
            assert(mv.take(i + 1).last() == mv[i as int]);
        }
        let lv = match subdoc_pass_value(&doc.content.entries[i].1, &parent_for_nested, passes) {
            Ok(lv) => lv,
            Err(e) => {
                proof {
                    lemma_subdoc_map_prefix_err(mv, i + 1, mv, passes as nat);
                    assert(mv.take(mv.len() as int) =~= mv);
                }
                return Err(e);
            },
        };
        let ghost old_out = c1@;
        let ghost old_vec = c1.entries@;
        c1.entries.push((doc.content.entries[i].0.clone(), lv));
        proof {
            crate::value::lemma_view_entries(c1.entries@);
            crate::value::lemma_view_entries(old_vec);
            assert(c1.entries@.drop_last() =~= old_vec);
            assert(c1@ =~= old_out.push((mv[i as int].0, c1.entries@.last().1@)));
            assert(subdoc_pass_map(mv.take(i + 1), mv, passes as nat) == Ok::<
                Seq<(Seq<char>, Val)>,
                ErrV,
            >(c1@));
        }
        i = i + 1;
    }
    proof {
        assert(mv.take(n as int) =~= mv);
    }
    let docpath: Option<String> = if doc.absolute_paths.len() > 0 {
        Some(doc.absolute_paths[0].clone())
    } else {
        None
    };
    let c2 = match run_fixed_point(c1, parent, &docpath, passes) {
        Ok(c) => c,
        Err(e) => {
            return Err(e);
        },
    };
    let out = Document {
        content: c2,
        path: match &doc.path {
            Some(p) => Some(p.clone()),
            None => None,
        },
        visited_paths: crate::value::duplicate_strings(&doc.visited_paths),
        absolute_paths: crate::value::duplicate_strings(&doc.absolute_paths),
        type_id: doc.type_id,
        frozen: match &doc.frozen {
            Some(f) => Some(f.duplicate()),
            None => None,
        },
    };
    proof {
        assert(out@ =~~= process_vars_spec(doc@, parent_view(*parent), passes as nat)->Ok_0);
    }
    Ok(out)
}

/// Process all variables inside this document and all sub-documents,
/// rejecting a frozen document.
pub fn process_vars(doc: Document) -> (r: Result<Document, ConfigError>)
    ensures
        doc@.frozen is Some ==> (r matches Err(e) && e@ == ErrV::AlreadyFrozen),
        doc@.frozen is None ==> match r {
            Ok(d2) => process_vars_spec(doc@, None, VAR_PASS_LIMIT as nat) == Ok::<DocV, ErrV>(
                d2@,
            ),
            Err(e) => process_vars_spec(doc@, None, VAR_PASS_LIMIT as nat) == Err::<DocV, ErrV>(
                e@,
            ),
        },
{
    if doc.frozen.is_some() {
        return Err(ConfigError::AlreadyFrozen);
    }
    process_variables(&doc, &None, VAR_PASS_LIMIT)
}

/// Process the variables of one ad-hoc string as if it were part of this
/// document.  A string with no `{` comes back verbatim.
pub fn process_variables_for(doc: &Document, target: &str) -> (r: Result<YcdValue, ConfigError>)
    ensures
        !target@.contains('{') ==> (r matches Ok(v) && v@ == Val::Str(target@)),
        match r {
            Ok(v) => {
                &&& apply_var_spec(target@, doc@.content, None) matches Ok(o)
                &&& v@ == (match o {
                    None => Val::Str(target@),
                    Some(nv) => nv,
                })
            },
            Err(e) => {
                &&& apply_var_spec(target@, doc@.content, None) matches Err(c)
                &&& e@ == (ErrV::VariableProcessing {
                    original: target@,
                    document_path: if doc@.abs_paths.len() > 0 {
                        Some(doc@.abs_paths[0])
                    } else {
                        None
                    },
                    cause: c,
                })
            },
        },
{
    match apply_variable_resolution(target, &doc.content, &None) {
        Ok(None) => Ok(YcdValue::Str(target.to_owned())),
        Ok(Some(v)) => Ok(v),
        Err(c) => {
            let dp: Option<String> = if doc.absolute_paths.len() > 0 {
                Some(doc.absolute_paths[0].clone())
            } else {
                None
            };
            Err(
                ConfigError::VariableProcessing {
                    original: target.to_owned(),
                    document_path: dp,
                    cause: c,
                },
            )
        },
    }
}

/// One render pass over a whole content map: the map is both the tree that
/// is rewritten and the render context.
fn pass_value_dict(m: &Dict, parent: &Option<Dict>, docpath: &Option<String>) -> (r: Result<
    (Dict, bool),
    ConfigError,
>)
    ensures
        match r {
            Ok(p) => pass_map(m@, m@, parent_view(*parent), opt_view(*docpath)) == Ok::<
                (Seq<(Seq<char>, Val)>, bool),
                ErrV,
            >((p.0@, p.1)),
            Err(e) => pass_map(m@, m@, parent_view(*parent), opt_view(*docpath)) == Err::<
                (Seq<(Seq<char>, Val)>, bool),
                ErrV,
            >(e@),
        },
{
    let wrapped = YcdValue::Dict(m.duplicate());
    match pass_value(&wrapped, m, parent, docpath) {
        Ok(p) => match p.0 {
            YcdValue::Dict(d2) => Ok((d2, p.1)),
            _ => {
                proof {
                    assert(false);
                }
                unreached()
            },
        },
        Err(e) => Err(e),
    }
}

} // verus!
