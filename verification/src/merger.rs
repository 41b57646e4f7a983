//! The recursive deep-merge algorithm and the removal-marker cleanup pass.
//!
//! `merge_values(target, source)` merges a source node into a target node:
//! the source's scalars win outright, maps merge key-wise with target keys
//! preserved, lists concatenate with the target list's `$remove::` markers
//! suppressing matching strings.  Document-level merging (where the merge
//! *target document* wins) passes the winner as the source node.
//!
//! `delete_remove_markers` is the cleanup pass that runs once after all
//! merging: it drops `$remove`-valued map entries and `$remove::` list
//! markers, and rejects a bare `$remove` in any other position.

use vstd::prelude::*;

use crate::errors::{ConfigError, ErrV};
use crate::strutil::{chars_vec, has_prefix, str_eq, string_from_chars, strip_prefix_chars, vec_contains_string};
use crate::tokens::{remove_marker, remove_marker_str, remove_prefix, remove_prefix_str};
use crate::value::{
    find_idx, has_key, lemma_find_idx, lemma_view_entries, lemma_view_list, view_entries,
    view_list, Dict, DocV, Document, Val, YcdValue,
};

verus! {

/// The string sentinel `$remove`, as a value.
pub open spec fn is_remove_str(v: Val) -> bool {
    v == Val::Str(remove_marker())
}

/// A list element of the form `$remove::<literal>`.
pub open spec fn is_list_remove_marker(v: Val) -> bool {
    match v {
        Val::Str(s) => has_prefix(s, remove_prefix()),
        _ => false,
    }
}

/// The `<literal>` of a `$remove::<literal>` marker.
pub open spec fn marker_literal(v: Val) -> Seq<char>
    recommends
        is_list_remove_marker(v),
{
    match v {
        Val::Str(s) => s.skip(remove_prefix().len() as int),
        _ => Seq::empty(),
    }
}

/// Some `$remove::` marker in `items` names the literal `lit`.
pub open spec fn has_remove_literal(items: Seq<Val>, lit: Seq<char>) -> bool {
    exists|i: int|
        0 <= i < items.len() && is_list_remove_marker(#[trigger] items[i]) && marker_literal(
            items[i],
        ) == lit
}

/// Whether the element `v` is dropped when a list with markers `markers`
/// governs the result: every marker element is dropped, and so is every
/// plain string that some marker of `markers` names.
pub open spec fn dropped_by_markers(markers: Seq<Val>, v: Val) -> bool {
    is_list_remove_marker(v) || (match v {
        Val::Str(s) => has_remove_literal(markers, s),
        _ => false,
    })
}

/// The elements of `items` not dropped by the markers `markers`, in order.
pub open spec fn keep_undropped(markers: Seq<Val>, items: Seq<Val>) -> Seq<Val>
    decreases items.len(),
{
    if items.len() == 0 {
        Seq::empty()
    } else {
        let rest = keep_undropped(markers, items.drop_last());
        if dropped_by_markers(markers, items.last()) {
            rest
        } else {
            rest.push(items.last())
        }
    }
}

/// The merge of two lists: target items then source items, with the target
/// list's own removal markers applied to the whole result.
pub open spec fn merge_lists(t: Seq<Val>, s: Seq<Val>) -> Seq<Val> {
    keep_undropped(t, t + s)
}

/// `base` followed by those of `more` not already present: the order-keeping
/// union used for `visited_paths` and `absolute_paths` bookkeeping.
pub open spec fn union_paths(base: Seq<Seq<char>>, more: Seq<Seq<char>>) -> Seq<Seq<char>>
    decreases more.len(),
{
    if more.len() == 0 {
        base
    } else {
        let rest = union_paths(base, more.drop_last());
        if base.contains(more.last()) {
            rest
        } else {
            rest.push(more.last())
        }
    }
}

/// The recursive merge of a source node into a target node.
pub open spec fn merge_val(t: Val, s: Val) -> Val
    decreases s, 1int,
{
    match s {
        Val::Doc(sd) => match t {
            Val::Doc(td) => Val::Doc(
                DocV {
                    content: merge_map(td.content, sd.content),
                    path: sd.path,
                    visited: union_paths(sd.visited, td.visited),
                    abs_paths: union_paths(sd.abs_paths, td.abs_paths),
                    type_id: sd.type_id,
                    frozen: sd.frozen,
                },
            ),
            _ => s,
        },
        Val::Dict(sm) => match t {
            Val::Dict(tm) => Val::Dict(merge_map(tm, sm)),
            _ => s,
        },
        Val::List(sl) => match t {
            Val::List(tl) => Val::List(merge_lists(tl, sl)),
            _ => s,
        },
        _ => s,
    }
}

/// Document-level merge: the *source node* `sd` is the merge-target
/// document, so its fields win and its bookkeeping is kept, extended by the
/// other side's paths.
pub open spec fn merge_docv(td: DocV, sd: DocV) -> DocV {
    DocV {
        content: merge_map(td.content, sd.content),
        path: sd.path,
        visited: union_paths(sd.visited, td.visited),
        abs_paths: union_paths(sd.abs_paths, td.abs_paths),
        type_id: sd.type_id,
        frozen: sd.frozen,
    }
}

/// Merge the source entries `sm` into the target entries `tm`, left to
/// right: an existing binding is merged recursively in place, a new key is
/// appended.
pub open spec fn merge_map(
    tm: Seq<(Seq<char>, Val)>,
    sm: Seq<(Seq<char>, Val)>,
) -> Seq<(Seq<char>, Val)>
    decreases sm, 1int,
{
    if sm.len() == 0 {
        tm
    } else {
        let k = sm[0].0;
        let sv = sm[0].1;
        let tm2 = if has_key(tm, k) {
            tm.update(find_idx(tm, k), (k, merge_val(tm[find_idx(tm, k)].1, sv)))
        } else {
            tm.push((k, sv))
        };
        merge_map(tm2, sm.drop_first())
    }
}

/// Whether `v` is the string sentinel `$remove`.
pub fn value_is_remove(v: &YcdValue) -> (r: bool)
    ensures
        r == is_remove_str(v@),
{
    match v {
        YcdValue::Str(s) => str_eq(s.as_str(), remove_marker_str()),
        _ => false,
    }
}

/// The literal of a `$remove::<literal>` list marker, if `v` is one.
pub fn value_marker_literal(v: &YcdValue) -> (r: Option<String>)
    ensures
        match r {
            Some(l) => is_list_remove_marker(v@) && l@ == marker_literal(v@),
            None => !is_list_remove_marker(v@),
        },
{
    match v {
        YcdValue::Str(s) => {
            let cv = chars_vec(s.as_str());
            let pv = chars_vec(remove_prefix_str());
            match strip_prefix_chars(&cv, &pv) {
                Some(rest) => Some(string_from_chars(&rest)),
                None => None,
            }
        },
        _ => None,
    }
}

/// The order-keeping union of two path lists: `base`, then every element of
/// `more` not already in `base`.
pub fn union_string_vecs(base: &Vec<String>, more: &Vec<String>) -> (r: Vec<String>)
    ensures
        crate::strutil::str_views(r@) =~= union_paths(
            crate::strutil::str_views(base@),
            crate::strutil::str_views(more@),
        ),
{
    let ghost bv = crate::strutil::str_views(base@);
    let ghost mv = crate::strutil::str_views(more@);
    let mut out = crate::value::duplicate_strings(base);
    let mut i: usize = 0;
    proof {
        assert(mv.take(0) =~= Seq::<Seq<char>>::empty());
        assert(crate::strutil::str_views(out@) =~= union_paths(bv, mv.take(0)));
    }
    while i < more.len()
        invariant
            i <= more@.len(),
            bv == crate::strutil::str_views(base@),
            mv == crate::strutil::str_views(more@),
            crate::strutil::str_views(out@) =~= union_paths(bv, mv.take(i as int)),
        decreases more@.len() - i,
    {
        proof {
            assert(mv.take(i + 1).drop_last() =~= mv.take(i as int));
            assert(mv.take(i + 1).last() == mv[i as int]);
        }
        if !vec_contains_string(base, more[i].as_str()) {
            out.push(more[i].clone());
            proof {
                assert(crate::strutil::str_views(out@) =~= union_paths(bv, mv.take(i + 1)));
            }
        } else {
            proof {
                assert(crate::strutil::str_views(out@) =~= union_paths(bv, mv.take(i + 1)));
            }
        }
        i = i + 1;
    }
    proof {
        assert(mv.take(mv.len() as int) =~= mv);
    }
    out
}

/// The literals that the `$remove::` markers of `t` name, as strings.
pub fn collect_remove_literals(t: &Vec<YcdValue>) -> (r: Vec<String>)
    ensures
        forall|x: Seq<char>|
            crate::strutil::str_views(r@).contains(x) == has_remove_literal(view_list(t@), x),
{
    let ghost tv = view_list(t@);
    proof {
        lemma_view_list(t@);
    }
    let mut lits: Vec<String> = Vec::new();
    let mut i: usize = 0;
    while i < t.len()
        invariant
            i <= t@.len(),
            tv == view_list(t@),
            tv.len() == t@.len(),
            forall|j: int| 0 <= j < t@.len() ==> #[trigger] tv[j] == t@[j]@,
            forall|x: Seq<char>|
                crate::strutil::str_views(lits@).contains(x) ==> has_remove_literal(tv, x),
            forall|j: int|
                0 <= j < i && is_list_remove_marker(#[trigger] tv[j])
                    ==> crate::strutil::str_views(lits@).contains(marker_literal(tv[j])),
        decreases t@.len() - i,
    {
        match value_marker_literal(&t[i]) {
            Some(l) => {
                let ghost old_lits = lits@;
                lits.push(l);
                proof {
                    assert(crate::strutil::str_views(lits@) =~= crate::strutil::str_views(
                        old_lits,
                    ).push(l@));
                    assert(crate::strutil::str_views(lits@).last() == marker_literal(
                        tv[i as int],
                    ));
                    assert forall|x: Seq<char>|
                        crate::strutil::str_views(lits@).contains(x) implies has_remove_literal(
                        tv,
                        x,
                    ) by {
                        let jj = choose|jj: int|
                            0 <= jj < crate::strutil::str_views(lits@).len()
                                && crate::strutil::str_views(lits@)[jj] == x;
                        if jj < old_lits.len() {
                            assert(crate::strutil::str_views(old_lits).contains(x));
                        } else {
                            assert(is_list_remove_marker(tv[i as int]) && marker_literal(
                                tv[i as int],
                            ) == x);
                        }
                    }
                    assert forall|j: int|
                        0 <= j < i + 1 && is_list_remove_marker(#[trigger] tv[j])
                            implies crate::strutil::str_views(lits@).contains(
                        marker_literal(tv[j]),
                    ) by {
                        if j < i {
                            let idx = choose|idx: int|
                                0 <= idx < crate::strutil::str_views(old_lits).len()
                                    && crate::strutil::str_views(old_lits)[idx] == marker_literal(
                                    tv[j],
                                );
                            assert(crate::strutil::str_views(lits@)[idx] == marker_literal(tv[j]));
                        } else {
                            assert(crate::strutil::str_views(lits@)[old_lits.len() as int] == l@);
                        }
                    }
                }
            },
            None => {},
        }
        i = i + 1;
    }
    proof {
        assert forall|x: Seq<char>| has_remove_literal(tv, x) implies crate::strutil::str_views(
            lits@,
        ).contains(x) by {
            let jj = choose|jj: int|
                0 <= jj < tv.len() && is_list_remove_marker(#[trigger] tv[jj]) && marker_literal(
                    tv[jj],
                ) == x;
        }
    }
    lits
}

/// Whether the markers drop the element `e`, given that `lits` names
/// exactly the literals of `markers`.
fn element_dropped(e: &YcdValue, lits: &Vec<String>, Ghost(markers): Ghost<Seq<Val>>) -> (r: bool)
    requires
        forall|x: Seq<char>|
            crate::strutil::str_views(lits@).contains(x) == has_remove_literal(markers, x),
    ensures
        r == dropped_by_markers(markers, e@),
{
    match value_marker_literal(e) {
        Some(_) => true,
        None => match e {
            YcdValue::Str(sstr) => vec_contains_string(lits, sstr.as_str()),
            _ => false,
        },
    }
}

/// The merge of two lists, as executable code: target items then source
/// items, the target's `$remove::` markers dropped and applied.
pub fn merge_list_vecs(t: &Vec<YcdValue>, s: &Vec<YcdValue>) -> (r: Vec<YcdValue>)
    ensures
        view_list(r@) =~= merge_lists(view_list(t@), view_list(s@)),
{
    let ghost tv = view_list(t@);
    let ghost sv = view_list(s@);
    let ghost comb = tv + sv;
    proof {
        lemma_view_list(t@);
        lemma_view_list(s@);
    }
    let lits = collect_remove_literals(t);
    // Keep the elements of target-then-source that the markers do not drop.
    let mut out: Vec<YcdValue> = Vec::new();
    let mut i2: usize = 0;
    proof {
        assert(comb.take(0) =~= Seq::<Val>::empty());
        assert(view_list(out@) =~= keep_undropped(tv, comb.take(0)));
    }
    while i2 < t.len()
        invariant
            i2 <= t@.len(),
            tv == view_list(t@),
            sv == view_list(s@),
            comb == tv + sv,
            tv.len() == t@.len(),
            forall|j: int| 0 <= j < t@.len() ==> #[trigger] tv[j] == t@[j]@,
            forall|x: Seq<char>|
                crate::strutil::str_views(lits@).contains(x) == has_remove_literal(tv, x),
            view_list(out@) =~= keep_undropped(tv, comb.take(i2 as int)),
        decreases t@.len() - i2,
    {
        push_if_kept(&mut out, &t[i2], &lits, Ghost(tv), Ghost(comb), Ghost(i2 as int));
        i2 = i2 + 1;
    }
    let mut i3: usize = 0;
    while i3 < s.len()
        invariant
            i3 <= s@.len(),
            tv == view_list(t@),
            sv == view_list(s@),
            comb == tv + sv,
            tv.len() == t@.len(),
            sv.len() == s@.len(),
            forall|j: int| 0 <= j < s@.len() ==> #[trigger] sv[j] == s@[j]@,
            forall|x: Seq<char>|
                crate::strutil::str_views(lits@).contains(x) == has_remove_literal(tv, x),
            view_list(out@) =~= keep_undropped(tv, comb.take(tv.len() + i3)),
        decreases s@.len() - i3,
    {
        proof {
            assert(comb[tv.len() + i3] == sv[i3 as int]);
        }
        push_if_kept(&mut out, &s[i3], &lits, Ghost(tv), Ghost(comb), Ghost(tv.len() as int + i3));
        i3 = i3 + 1;
    }
    proof {
        assert(comb.take(comb.len() as int) =~= comb);
    }
    out
}

/// Append `e` to `out` unless the markers drop it.  `at` is the position of
/// `e`'s view in `comb`, and `lits` lists exactly the literals of `markers`.
fn push_if_kept(
    out: &mut Vec<YcdValue>,
    e: &YcdValue,
    lits: &Vec<String>,
    Ghost(markers): Ghost<Seq<Val>>,
    Ghost(comb): Ghost<Seq<Val>>,
    Ghost(at): Ghost<int>,
)
    requires
        0 <= at < comb.len(),
        comb[at] == e@,
        forall|x: Seq<char>|
            crate::strutil::str_views(lits@).contains(x) == has_remove_literal(markers, x),
        view_list(old(out)@) =~= keep_undropped(markers, comb.take(at)),
    ensures
        view_list(final(out)@) =~= keep_undropped(markers, comb.take(at + 1)),
{
    proof {
        lemma_view_list(out@);
        assert(comb.take(at + 1).drop_last() =~= comb.take(at));
        assert(comb.take(at + 1).last() == comb[at]);
    }
    if !element_dropped(e, lits, Ghost(markers)) {
        let d = e.duplicate();
        out.push(d);
        proof {
            lemma_view_list(out@);
            lemma_view_list(old(out)@);
            assert(view_list(out@) =~= view_list(old(out)@).push(e@));
        }
    }
}

/// Merge the source dictionary `s` into the target dictionary `t`:
/// existing keys are merged recursively in place, new keys are appended.
pub fn merge_dicts(t: &Dict, s: &Dict) -> (r: Dict)
    ensures
        r@ =~= merge_map(t@, s@),
    decreases *s, 0int,
{
    let mut acc = t.duplicate();
    let ghost tv = t@;
    let ghost svv = s@;
    proof {
        lemma_view_entries(s.entries@);
        assert(svv.skip(0) =~= svv);
    }
    let n = s.entries.len();
    let mut j: usize = 0;
    while j < n
        invariant
            n == s.entries@.len(),
            j <= n,
            tv == t@,
            svv == s@,
            svv.len() == n,
            forall|jj: int|
                0 <= jj < n ==> #[trigger] svv[jj] == (s.entries@[jj].0@, s.entries@[jj].1@),
            merge_map(acc@, svv.skip(j as int)) == merge_map(tv, svv),
            forall|jj: int| j <= jj < n ==> decreases_to!(*s => s.entries@[jj].1),
        decreases n - j,
    {
        let ghost rem = svv.skip(j as int);
        proof {
            assert(rem[0] == svv[j as int]);
            assert(rem.drop_first() =~= svv.skip(j as int + 1));
        }
        let key = s.entries[j].0.clone();
        proof {
            lemma_find_idx(acc@, key@);
        }
        match acc.index_of(key.as_str()) {
            Some(i) => {
                let ghost old_acc = acc@;
                proof {
                    lemma_view_entries(acc.entries@);
                }
                let merged = merge_values(&acc.entries[i].1, &s.entries[j].1);
                self_replace_entry(&mut acc, i, key, merged);
                proof {
                    assert(acc@ =~= old_acc.update(
                        i as int,
                        (rem[0].0, merge_val(old_acc[i as int].1, rem[0].1)),
                    ));
                    assert(merge_map(acc@, svv.skip(j as int + 1)) == merge_map(tv, svv));
                }
            },
            None => {
                let ghost old_acc = acc@;
                let ghost old_entries = acc.entries@;
                let dv = s.entries[j].1.duplicate();
                acc.entries.push((key, dv));
                proof {
                    lemma_view_entries(old_entries);
                    lemma_view_entries(acc.entries@);
                    assert(acc.entries@ =~= old_entries.push((key, dv)));
                    assert(acc@ =~= old_acc.push((rem[0].0, rem[0].1)));
                    assert(merge_map(acc@, svv.skip(j as int + 1)) == merge_map(tv, svv));
                }
            },
        }
        j = j + 1;
    }
    proof {
        assert(svv.skip(n as int) =~= Seq::<(Seq<char>, Val)>::empty());
    }
    acc
}

/// Replace entry `i` of `d` with `(key, v)`.
fn self_replace_entry(d: &mut Dict, i: usize, key: String, v: YcdValue)
    requires
        i < old(d)@.len(),
    ensures
        final(d)@ =~= old(d)@.update(i as int, (key@, v@)),
{
    proof {
        lemma_view_entries(d.entries@);
    }
    d.entries.remove(i);
    d.entries.insert(i, (key, v));
    proof {
        lemma_view_entries(d.entries@);
        assert(d.entries@ =~= old(d).entries@.update(i as int, (key, v)));
        assert(final(d)@ =~= old(d)@.update(i as int, (key@, v@)));
    }
}

/// The recursive merge of a source node into a target node, as executable
/// code: the source's scalars win, maps and documents merge key-wise,
/// lists concatenate under the target list's removal markers.
pub fn merge_values(t: &YcdValue, s: &YcdValue) -> (r: YcdValue)
    ensures
        r@ == merge_val(t@, s@),
    decreases *s, 1int,
{
    match s {
        YcdValue::Doc(sb) => match t {
            YcdValue::Doc(tb) => {
                let r = YcdValue::Doc(
                    Box::new(
                        Document {
                            content: merge_dicts(&tb.content, &sb.content),
                            path: match &sb.path {
                                Some(p) => Some(p.clone()),
                                None => None,
                            },
                            visited_paths: union_string_vecs(
                                &sb.visited_paths,
                                &tb.visited_paths,
                            ),
                            absolute_paths: union_string_vecs(
                                &sb.absolute_paths,
                                &tb.absolute_paths,
                            ),
                            type_id: sb.type_id,
                            frozen: match &sb.frozen {
                                Some(f) => Some(f.duplicate()),
                                None => None,
                            },
                        },
                    ),
                );
                proof {
                    assert(r@ =~~= merge_val(t@, s@));
                }
                r
            },
            _ => s.duplicate(),
        },
        YcdValue::Dict(sd) => match t {
            YcdValue::Dict(td) => {
                let r = YcdValue::Dict(merge_dicts(td, sd));
                proof {
                    assert(r@ =~~= merge_val(t@, s@));
                }
                r
            },
            _ => s.duplicate(),
        },
        YcdValue::List(sl) => match t {
            YcdValue::List(tl) => {
                let r = YcdValue::List(merge_list_vecs(tl, sl));
                proof {
                    assert(r@ =~~= merge_val(t@, s@));
                }
                r
            },
            _ => s.duplicate(),
        },
        _ => s.duplicate(),
    }
}

/// Merge two documents at the document level: the *target* document's
/// explicit fields win, the source structurally extends it, and the
/// bookkeeping paths are unioned in order.
pub fn merge_documents(target: &Document, source: &Document) -> (r: Document)
    ensures
        r@ == merge_docv(source@, target@),
{
    let r = Document {
        content: merge_dicts(&source.content, &target.content),
        path: match &target.path {
            Some(p) => Some(p.clone()),
            None => None,
        },
        visited_paths: union_string_vecs(&target.visited_paths, &source.visited_paths),
        absolute_paths: union_string_vecs(&target.absolute_paths, &source.absolute_paths),
        type_id: target.type_id,
        frozen: match &target.frozen {
            Some(f) => Some(f.duplicate()),
            None => None,
        },
    };
    proof {
        assert(r@ =~~= merge_docv(source@, target@));
    }
    r
}

/// The cleanup of one node: `$remove`-valued map entries are dropped, a
/// list's markers are dropped and applied to its own elements, nested
/// documents, maps and lists are cleaned recursively, and a bare `$remove`
/// in any other position is an error.
pub open spec fn delete_val(v: Val) -> Result<Val, ()>
    decreases v, 1int,
{
    match v {
        Val::Doc(d) => match delete_map(d.content) {
            Ok(c) => Ok(Val::Doc(DocV { content: c, ..d })),
            Err(e) => Err(e),
        },
        Val::Dict(m) => match delete_map(m) {
            Ok(c) => Ok(Val::Dict(c)),
            Err(e) => Err(e),
        },
        Val::List(l) => match delete_list(l, l) {
            Ok(c) => Ok(Val::List(c)),
            Err(e) => Err(e),
        },
        Val::Str(s) => if s == remove_marker() {
            Err(())
        } else {
            Ok(v)
        },
        _ => Ok(v),
    }
}

/// The cleanup of a map's entries: entries whose value is the `$remove`
/// sentinel are dropped, the remaining values are cleaned recursively.
pub open spec fn delete_map(m: Seq<(Seq<char>, Val)>) -> Result<Seq<(Seq<char>, Val)>, ()>
    decreases m, 0int,
{
    if m.len() == 0 {
        Ok(Seq::empty())
    } else {
        match delete_map(m.drop_last()) {
            Ok(rest) => if is_remove_str(m.last().1) {
                Ok(rest)
            } else {
                match delete_val(m.last().1) {
                    Ok(x) => Ok(rest.push((m.last().0, x))),
                    Err(e) => Err(e),
                }
            },
            Err(e) => Err(e),
        }
    }
}

/// The cleanup of a list's elements against the markers of `orig` (the
/// list itself): dropped elements vanish, kept ones are cleaned.
pub open spec fn delete_list(orig: Seq<Val>, items: Seq<Val>) -> Result<Seq<Val>, ()>
    decreases items, 0int,
{
    if items.len() == 0 {
        Ok(Seq::empty())
    } else {
        match delete_list(orig, items.drop_last()) {
            Ok(rest) => if dropped_by_markers(orig, items.last()) {
                Ok(rest)
            } else {
                match delete_val(items.last()) {
                    Ok(x) => Ok(rest.push(x)),
                    Err(e) => Err(e),
                }
            },
            Err(e) => Err(e),
        }
    }
}

/// Remove the removal markers from a whole tree, as executable code.
pub fn delete_remove_markers(v: &YcdValue) -> (r: Result<YcdValue, ConfigError>)
    ensures
        match r {
            Ok(u) => delete_val(v@) == Ok::<Val, ()>(u@),
            Err(e) => delete_val(v@) is Err && e@ == ErrV::InvalidRemove,
        },
    decreases *v, 1int,
{
    match v {
        YcdValue::Doc(b) => {
            let c = match delete_dict(&b.content) {
                Ok(c) => c,
                Err(e) => {
                    return Err(e);
                },
            };
            let r = YcdValue::Doc(
                Box::new(
                    Document {
                        content: c,
                        path: match &b.path {
                            Some(p) => Some(p.clone()),
                            None => None,
                        },
                        visited_paths: crate::value::duplicate_strings(&b.visited_paths),
                        absolute_paths: crate::value::duplicate_strings(&b.absolute_paths),
                        type_id: b.type_id,
                        frozen: match &b.frozen {
                            Some(f) => Some(f.duplicate()),
                            None => None,
                        },
                    },
                ),
            );
            proof {
                assert(r@ =~~= delete_val(v@)->Ok_0);
            }
            Ok(r)
        },
        YcdValue::Dict(d) => {
            match delete_dict(d) {
                Ok(c) => Ok(YcdValue::Dict(c)),
                Err(e) => Err(e),
            }
        },
        YcdValue::List(l) => {
            match delete_list_vec(l) {
                Ok(c) => Ok(YcdValue::List(c)),
                Err(e) => Err(e),
            }
        },
        YcdValue::Str(s) => {
            if str_eq(s.as_str(), remove_marker_str()) {
                Err(ConfigError::InvalidRemove)
            } else {
                Ok(YcdValue::Str(s.clone()))
            }
        },
        YcdValue::Bool(b) => Ok(YcdValue::Bool(*b)),
        YcdValue::Int(i) => Ok(YcdValue::Int(*i)),
        YcdValue::Float(n) => Ok(YcdValue::Float(n.clone())),
    }
}

/// The cleanup pass over a dictionary.
pub fn delete_dict(d: &Dict) -> (r: Result<Dict, ConfigError>)
    ensures
        match r {
            Ok(u) => delete_map(d@) == Ok::<Seq<(Seq<char>, Val)>, ()>(u@),
            Err(e) => delete_map(d@) is Err && e@ == ErrV::InvalidRemove,
        },
    decreases *d, 0int,
{
    let ghost dv = d@;
    proof {
        lemma_view_entries(d.entries@);
        assert(dv.take(0) =~= Seq::<(Seq<char>, Val)>::empty());
    }
    let mut out = Dict::new();
    let n = d.entries.len();
    let mut i: usize = 0;
    while i < n
        invariant
            n == d.entries@.len(),
            i <= n,
            dv == d@,
            dv.len() == n,
            forall|j: int|
                0 <= j < n ==> #[trigger] dv[j] == (d.entries@[j].0@, d.entries@[j].1@),
            delete_map(dv.take(i as int)) == Ok::<Seq<(Seq<char>, Val)>, ()>(out@),
            forall|j: int| i <= j < n ==> decreases_to!(*d => d.entries@[j].1),
        decreases n - i,
    {
        proof {
            assert(dv.take(i + 1).drop_last() =~= dv.take(i as int));
            assert(dv.take(i + 1).last() == dv[i as int]);
        }
        if !value_is_remove(&d.entries[i].1) {
            let x = match delete_remove_markers(&d.entries[i].1) {
                Ok(x) => x,
                Err(e) => {
                    proof {
                        assert(delete_val(dv[i as int].1) is Err);
                        assert(delete_map(dv.take(i + 1)) is Err);
                        lemma_delete_map_prefix_err(dv, i + 1);
                        assert(dv.take(dv.len() as int) =~= dv);
                    }
                    return Err(e);
                },
            };
            let k = d.entries[i].0.clone();
            let ghost old_out = out@;
            let ghost old_entries = out.entries@;
            out.entries.push((k, x));
            proof {
                lemma_view_entries(old_entries);
                lemma_view_entries(out.entries@);
                assert(out.entries@ =~= old_entries.push((k, x)));
                assert(out@ =~= old_out.push((dv[i as int].0, x@)));
            }
        }
        i = i + 1;
    }
    proof {
        assert(dv.take(n as int) =~= dv);
    }
    Ok(out)
}

/// The cleanup pass over a list.
pub fn delete_list_vec(l: &Vec<YcdValue>) -> (r: Result<Vec<YcdValue>, ConfigError>)
    ensures
        match r {
            Ok(u) => delete_list(view_list(l@), view_list(l@)) == Ok::<Seq<Val>, ()>(
                view_list(u@),
            ),
            Err(e) => delete_list(view_list(l@), view_list(l@)) is Err && e@
                == ErrV::InvalidRemove,
        },
    decreases l@, 0int,
{
    let ghost lv = view_list(l@);
    proof {
        lemma_view_list(l@);
        assert(lv.take(0) =~= Seq::<Val>::empty());
    }
    let lits = collect_remove_literals(l);
    let mut out: Vec<YcdValue> = Vec::new();
    let n = l.len();
    let mut i: usize = 0;
    while i < n
        invariant
            n == l@.len(),
            i <= n,
            lv == view_list(l@),
            lv.len() == n,
            forall|j: int| 0 <= j < n ==> #[trigger] lv[j] == l@[j]@,
            forall|x: Seq<char>|
                crate::strutil::str_views(lits@).contains(x) == has_remove_literal(lv, x),
            delete_list(lv, lv.take(i as int)) == Ok::<Seq<Val>, ()>(view_list(out@)),
            forall|j: int| i <= j < n ==> decreases_to!(l@ => l@[j]),
        decreases n - i,
    {
        proof {
            assert(lv.take(i + 1).drop_last() =~= lv.take(i as int));
            assert(lv.take(i + 1).last() == lv[i as int]);
            lemma_view_list(out@);
        }
        if !element_dropped(&l[i], &lits, Ghost(lv)) {
            let x = match delete_remove_markers(&l[i]) {
                Ok(x) => x,
                Err(e) => {
                    proof {
                        assert(delete_val(lv[i as int]) is Err);
                        assert(delete_list(lv, lv.take(i + 1)) is Err);
                        lemma_delete_list_prefix_err(lv, i + 1);
                        assert(lv.take(lv.len() as int) =~= lv);
                    }
                    return Err(e);
                },
            };
            let ghost old_out = out@;
            out.push(x);
            proof {
                lemma_view_list(out@);
                assert(view_list(out@) =~= view_list(old_out).push(delete_val(lv[i as int])->Ok_0));
            }
        }
        i = i + 1;
    }
    proof {
        assert(lv.take(n as int) =~= lv);
    }
    Ok(out)
}

/// Idempotence of removal-marker cleanup: cleaning a tree that a cleanup
/// pass produced changes nothing, so
/// `delete_remove_markers(delete_remove_markers(tree))` equals
/// `delete_remove_markers(tree)` whenever the first pass succeeds.
pub proof fn lemma_delete_remove_markers_idempotent(v: Val)
    requires
        delete_val(v) is Ok,
    ensures
        delete_val(delete_val(v)->Ok_0) == delete_val(v),
    decreases v, 1int,
{
    match v {
        Val::Doc(d) => {
            lemma_delete_map_elems(d.content);
            lemma_delete_map_noop(delete_map(d.content)->Ok_0);
        },
        Val::Dict(m) => {
            lemma_delete_map_elems(m);
            lemma_delete_map_noop(delete_map(m)->Ok_0);
        },
        Val::List(l) => {
            lemma_delete_list_elems(l, l);
            let res = delete_list(l, l)->Ok_0;
            lemma_delete_list_noop(res, res);
        },
        _ => {},
    }
}

/// Every value in a cleaned map is itself clean and is not the `$remove`
/// sentinel.
proof fn lemma_delete_map_elems(m: Seq<(Seq<char>, Val)>)
    requires
        delete_map(m) is Ok,
    ensures
        forall|k: int|
            0 <= k < delete_map(m)->Ok_0.len() ==> !is_remove_str(
                (#[trigger] delete_map(m)->Ok_0[k]).1,
            ) && delete_val(delete_map(m)->Ok_0[k].1) == Ok::<Val, ()>(delete_map(m)->Ok_0[k].1),
    decreases m, 0int,
{
    if m.len() > 0 {
        lemma_delete_map_elems(m.drop_last());
        let rest = delete_map(m.drop_last())->Ok_0;
        let res = delete_map(m)->Ok_0;
        if !is_remove_str(m.last().1) {
            lemma_delete_remove_markers_idempotent(m.last().1);
            let e = m.last().1;
            let x = delete_val(e)->Ok_0;
            match e {
                Val::Str(_) => {
                    assert(x == e);
                },
                _ => {
                    assert(!(x is Str));
                },
            }
            assert(res == rest.push((m.last().0, x)));
            assert forall|k: int| 0 <= k < res.len() implies !is_remove_str((#[trigger] res[k]).1)
                && delete_val(res[k].1) == Ok::<Val, ()>(res[k].1) by {
                if k < rest.len() {
                    assert(res[k] == rest[k]);
                } else {
                    assert(res[k] == (m.last().0, x));
                }
            }
        } else {
            assert(res == rest);
        }
    }
}

/// Cleaning a map whose values are already clean changes nothing.
proof fn lemma_delete_map_noop(m: Seq<(Seq<char>, Val)>)
    requires
        forall|k: int|
            0 <= k < m.len() ==> !is_remove_str((#[trigger] m[k]).1) && delete_val(m[k].1) == Ok::<
                Val,
                (),
            >(m[k].1),
    ensures
        delete_map(m) == Ok::<Seq<(Seq<char>, Val)>, ()>(m),
    decreases m.len(),
{
    if m.len() == 0 {
        assert(delete_map(m)->Ok_0 =~= m);
    } else {
        lemma_delete_map_noop(m.drop_last());
        assert(delete_map(m)->Ok_0 =~= m.drop_last().push(m.last()));
        assert(m.drop_last().push(m.last()) =~= m);
    }
}

/// Every element of a cleaned list is itself clean and is not a removal
/// marker.
proof fn lemma_delete_list_elems(orig: Seq<Val>, items: Seq<Val>)
    requires
        delete_list(orig, items) is Ok,
    ensures
        forall|k: int|
            0 <= k < delete_list(orig, items)->Ok_0.len() ==> !is_list_remove_marker(
                #[trigger] delete_list(orig, items)->Ok_0[k],
            ) && delete_val(delete_list(orig, items)->Ok_0[k]) == Ok::<Val, ()>(
                delete_list(orig, items)->Ok_0[k],
            ),
    decreases items, 0int,
{
    if items.len() > 0 {
        lemma_delete_list_elems(orig, items.drop_last());
        let rest = delete_list(orig, items.drop_last())->Ok_0;
        let res = delete_list(orig, items)->Ok_0;
        if !dropped_by_markers(orig, items.last()) {
            lemma_delete_remove_markers_idempotent(items.last());
            let e = items.last();
            let x = delete_val(e)->Ok_0;
            match e {
                Val::Str(_) => {
                    assert(x == e);
                },
                _ => {
                    assert(!(x is Str));
                },
            }
            assert(res == rest.push(x));
            assert forall|k: int| 0 <= k < res.len() implies !is_list_remove_marker(
                #[trigger] res[k],
            ) && delete_val(res[k]) == Ok::<Val, ()>(res[k]) by {
                if k < rest.len() {
                    assert(res[k] == rest[k]);
                } else {
                    assert(res[k] == x);
                }
            }
        } else {
            assert(res == rest);
        }
    }
}

/// Cleaning a list with no markers and already-clean elements changes
/// nothing.
proof fn lemma_delete_list_noop(orig: Seq<Val>, items: Seq<Val>)
    requires
        forall|k: int| 0 <= k < orig.len() ==> !is_list_remove_marker(#[trigger] orig[k]),
        forall|k: int|
            0 <= k < items.len() ==> !is_list_remove_marker(#[trigger] items[k]) && delete_val(
                items[k],
            ) == Ok::<Val, ()>(items[k]),
    ensures
        delete_list(orig, items) == Ok::<Seq<Val>, ()>(items),
    decreases items.len(),
{
    if items.len() == 0 {
        assert(delete_list(orig, items)->Ok_0 =~= items);
    } else {
        lemma_delete_list_noop(orig, items.drop_last());
        assert(!dropped_by_markers(orig, items.last()));
        assert(delete_list(orig, items)->Ok_0 =~= items.drop_last().push(items.last()));
        assert(items.drop_last().push(items.last()) =~= items);
    }
}

/// No two entries of `m` bind the same key.
pub open spec fn keys_unique(m: Seq<(Seq<char>, Val)>) -> bool {
    forall|i: int, j: int|
        0 <= i < j < m.len() ==> (#[trigger] m[i]).0 != (#[trigger] m[j]).0
}

/// Every key of a cleaned map comes from an entry of the input whose value
/// was not the `$remove` sentinel.
proof fn lemma_delete_map_keys(m: Seq<(Seq<char>, Val)>, key: Seq<char>)
    requires
        delete_map(m) is Ok,
        has_key(delete_map(m)->Ok_0, key),
    ensures
        exists|j: int|
            0 <= j < m.len() && (#[trigger] m[j]).0 == key && !is_remove_str(m[j].1),
    decreases m.len(),
{
    let res = delete_map(m)->Ok_0;
    lemma_find_idx(res, key);
    let i = find_idx(res, key);
    assert(res[i].0 == key);
    lemma_delete_map_contains(m, res[i]);
}

/// Every entry of a cleaned map descends from an input entry with the same
/// key and a value that was not the `$remove` sentinel.
proof fn lemma_delete_map_contains(m: Seq<(Seq<char>, Val)>, e: (Seq<char>, Val))
    requires
        delete_map(m) is Ok,
        delete_map(m)->Ok_0.contains(e),
    ensures
        exists|j: int|
            0 <= j < m.len() && (#[trigger] m[j]).0 == e.0 && !is_remove_str(m[j].1),
    decreases m.len(),
{
    if m.len() > 0 {
        let rest = delete_map(m.drop_last())->Ok_0;
        if !is_remove_str(m.last().1) && delete_map(m)->Ok_0.last() == e && delete_map(
            m,
        )->Ok_0.len() == rest.len() + 1 {
            assert(m[m.len() - 1].0 == e.0 && !is_remove_str(m[m.len() - 1].1));
        } else {
            assert(rest.contains(e)) by {
                let idx = choose|idx: int|
                    0 <= idx < delete_map(m)->Ok_0.len() && delete_map(m)->Ok_0[idx] == e;
                if is_remove_str(m.last().1) {
                    assert(delete_map(m)->Ok_0 == rest);
                } else {
                    assert(rest[idx] == e);
                }
            }
            lemma_delete_map_contains(m.drop_last(), e);
            let j = choose|j: int|
                0 <= j < m.drop_last().len() && (#[trigger] m.drop_last()[j]).0 == e.0
                    && !is_remove_str(m.drop_last()[j].1);
            assert(m[j].0 == e.0 && !is_remove_str(m[j].1));
        }
    }
}

/// Dict removal semantics: when the winning document's map binds `k` to the
/// `$remove` sentinel, merging it over any map with unique keys and then
/// running the cleanup yields a map without the key `k` at all.
pub proof fn lemma_dict_remove_semantics(m: Seq<(Seq<char>, Val)>, k: Seq<char>)
    requires
        keys_unique(m),
        delete_map(merge_map(m, seq![(k, Val::Str(remove_marker()))])) is Ok,
    ensures
        !has_key(delete_map(merge_map(m, seq![(k, Val::Str(remove_marker()))]))->Ok_0, k),
{
    let sm = seq![(k, Val::Str(remove_marker()))];
    let merged = merge_map(m, sm);
    assert(sm[0] == (k, Val::Str(remove_marker())));
    assert(sm.drop_first() =~= Seq::<(Seq<char>, Val)>::empty());
    let tm2 = if has_key(m, k) {
        m.update(find_idx(m, k), (k, merge_val(m[find_idx(m, k)].1, Val::Str(remove_marker()))))
    } else {
        m.push((k, Val::Str(remove_marker())))
    };
    assert(merge_map(tm2, sm.drop_first()) == tm2);
    assert(merged == tm2);
    lemma_find_idx(m, k);
    let res = delete_map(merged)->Ok_0;
    if has_key(res, k) {
        lemma_delete_map_keys(merged, k);
        let j = choose|j: int|
            0 <= j < merged.len() && (#[trigger] merged[j]).0 == k && !is_remove_str(merged[j].1);
        if has_key(m, k) {
            let i = find_idx(m, k);
            assert(merged == m.update(i, (k, merge_val(m[i].1, Val::Str(remove_marker())))));
            assert(merge_val(m[i].1, Val::Str(remove_marker())) == Val::Str(remove_marker()));
            assert(j != i);
            assert(m[j].0 == k);
            assert(false);
        } else {
            assert(merged == m.push((k, Val::Str(remove_marker()))));
            if j < m.len() {
                assert(m[j].0 == k);
                assert(false);
            } else {
                assert(false);
            }
        }
    }
}

/// If a prefix of `m` already fails the cleanup, the whole map does.
proof fn lemma_delete_map_prefix_err(m: Seq<(Seq<char>, Val)>, i: int)
    requires
        0 <= i <= m.len(),
        delete_map(m.take(i)) is Err,
    ensures
        delete_map(m.take(m.len() as int)) is Err,
    decreases m.len() - i,
{
    if i < m.len() {
        assert(m.take(i + 1).drop_last() =~= m.take(i));
        lemma_delete_map_prefix_err(m, i + 1);
    }
}

/// If a prefix of `items` already fails the cleanup, the whole list does.
proof fn lemma_delete_list_prefix_err(items: Seq<Val>, i: int)
    requires
        0 <= i <= items.len(),
        delete_list(items, items.take(i)) is Err,
    ensures
        delete_list(items, items.take(items.len() as int)) is Err,
    decreases items.len() - i,
{
    if i < items.len() {
        assert(items.take(i + 1).drop_last() =~= items.take(i));
        lemma_delete_list_prefix_err(items, i + 1);
    }
}

} // verus!
