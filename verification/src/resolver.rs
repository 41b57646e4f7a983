//! The reference resolver: `$ref` chain resolution, sub-document
//! materialization, and the full per-document resolution pipeline.
//!
//! `resolve_and_merge` folds all candidate documents of a `$ref`
//! right-to-left, resolves the result recursively, merges the original
//! document on top (its explicit fields win), and strips the `$ref` key.
//! `resolve_and_merge_references` runs that, then materializes typed
//! sub-documents, then applies the removal-marker cleanup.
//!
//! Recursion depth is bounded by a generous internal allowance; exceeding
//! it is reported as a circular dependency, the same safety net that the
//! `visited_paths` check provides.

use vstd::prelude::*;

use crate::errors::{ConfigError, ErrV};
use crate::loader::{load_referenced_document, load_referenced_spec, FileSet, FileV};
use crate::merger::{delete_dict, delete_map, merge_docv, merge_documents};
use crate::registry::{TypeRegistry, TypeV};
use crate::strutil::{chars_vec, str_views, string_from_chars, sub_vec};
use crate::tokens::{ref_key, ref_key_str, remove_marker, remove_marker_str};
use crate::value::{
    lookup, new_doc_spec, remove_entry, DocV, Dict, Document, Val, YcdValue,
};

verus! {

/// The recursion allowance for `$ref` chains and sub-document nesting.
/// Every unit spent corresponds to one referenced file or one materialized
/// sub-document, so no realistic configuration can exhaust it.
pub const RESOLVE_FUEL: u64 = 1000000000;

/// The reference string cited in a not-found error: the `$ref` value when
/// it is a string, empty otherwise.
pub open spec fn ref_text(v: Val) -> Seq<char> {
    match v {
        Val::Str(s) => s,
        _ => Seq::empty(),
    }
}

/// Candidates folded left to right: each later candidate becomes the merge
/// target, so later repositories and later extensions override scalars.
pub open spec fn fold_docs(cands: Seq<DocV>) -> DocV
    recommends
        cands.len() > 0,
    decreases cands.len(),
{
    if cands.len() <= 1 {
        cands[0]
    } else {
        merge_docv(fold_docs(cands.drop_last()), cands.last())
    }
}

/// What `$ref` resolution yields for a document.
///
/// A document without `$ref`, or whose `$ref` is the `$remove` sentinel,
/// is returned unchanged.  Otherwise the candidates are loaded; none at
/// all is `ReferencedDocumentNotFound` citing the reference and, when
/// available, the requesting document's primary absolute path.  The folded
/// candidate is resolved recursively, the original document is merged over
/// it, and the `$ref` key is removed from the result.
pub open spec fn resolve_spec(
    regv: Seq<TypeV>,
    fsv: Seq<(Seq<char>, FileV)>,
    rootsv: Seq<Seq<char>>,
    doc: DocV,
    fuel: nat,
) -> Result<DocV, ErrV>
    decreases fuel,
{
    match lookup(doc.content, ref_key()) {
        None => Ok(doc),
        Some(rv) => {
            if rv == Val::Str(remove_marker()) {
                Ok(doc)
            } else {
                match load_referenced_spec(regv, fsv, rootsv, doc) {
                    Err(e) => Err(e),
                    Ok(cands) => {
                        if cands.len() == 0 {
                            Err(
                                ErrV::ReferencedDocumentNotFound {
                                    reference: ref_text(rv),
                                    requested_by: if doc.abs_paths.len() > 0 {
                                        Some(doc.abs_paths[0])
                                    } else {
                                        None
                                    },
                                },
                            )
                        } else if fuel == 0 {
                            Err(ErrV::CircularDependency { path: ref_text(rv) })
                        } else {
                            match resolve_spec(
                                regv,
                                fsv,
                                rootsv,
                                fold_docs(cands),
                                (fuel - 1) as nat,
                            ) {
                                Err(e) => Err(e),
                                Ok(resolved) => {
                                    let merged = merge_docv(resolved, doc);
                                    Ok(
                                        DocV {
                                            content: remove_entry(merged.content, ref_key()),
                                            ..merged
                                        },
                                    )
                                },
                            }
                        }
                    },
                }
            }
        },
    }
}

/// Resolve the `$ref` entry of `doc` against the file set and merge with
/// the referenced documents; the original document's fields win.
pub fn resolve_and_merge(
    reg: &TypeRegistry,
    fs: &FileSet,
    roots: &Vec<String>,
    doc: Document,
) -> (r: Result<Document, ConfigError>)
    ensures
        match r {
            Ok(d) => resolve_spec(reg@, fs@, str_views(roots@), doc@, RESOLVE_FUEL as nat)
                == Ok::<DocV, ErrV>(d@),
            Err(e) => resolve_spec(reg@, fs@, str_views(roots@), doc@, RESOLVE_FUEL as nat)
                == Err::<DocV, ErrV>(e@),
        },
{
    resolve_go(reg, fs, roots, doc, RESOLVE_FUEL)
}

fn resolve_go(
    reg: &TypeRegistry,
    fs: &FileSet,
    roots: &Vec<String>,
    doc: Document,
    fuel: u64,
) -> (r: Result<Document, ConfigError>)
    ensures
        match r {
            Ok(d) => resolve_spec(reg@, fs@, str_views(roots@), doc@, fuel as nat) == Ok::<
                DocV,
                ErrV,
            >(d@),
            Err(e) => resolve_spec(reg@, fs@, str_views(roots@), doc@, fuel as nat) == Err::<
                DocV,
                ErrV,
            >(e@),
        },
    decreases fuel,
{
    let refstr: String = match doc.content.get(ref_key_str()) {
        None => {
            return Ok(doc);
        },
        Some(YcdValue::Str(s)) => {
            if crate::strutil::str_eq(s.as_str(), remove_marker_str()) {
                return Ok(doc);
            }
            s.clone()
        },
        Some(_) => String::new(),
    };
    let ghost rv = lookup(doc@.content, ref_key()).unwrap();
    let mut cands = match load_referenced_document(reg, fs, roots, &doc) {
        Ok(c) => c,
        Err(e) => {
            return Err(e);
        },
    };
    let ghost candsv = cands@.map_values(|d: Document| d@);
    if cands.len() == 0 {
        let requested_by: Option<String> = if doc.absolute_paths.len() > 0 {
            Some(doc.absolute_paths[0].clone())
        } else {
            None
        };
        proof {
            assert(ref_text(rv) == refstr@);
        }
        return Err(
            ConfigError::ReferencedDocumentNotFound { reference: refstr, requested_by },
        );
    }
    if fuel == 0 {
        proof {
            assert(ref_text(rv) == refstr@);
        }
        return Err(ConfigError::CircularDependency { path: refstr });
    }
    // Fold the candidates left to right; later candidates win.
    let first = cands.remove(0);
    let ghost rest = cands@.map_values(|d: Document| d@);
    proof {
        assert(rest =~= candsv.drop_first());
    }
    let mut acc = first;
    let n = cands.len();
    let mut i: usize = 0;
    proof {
        assert(candsv.take(1) =~= seq![candsv[0]]);
        assert(fold_docs(candsv.take(1)) == candsv[0]);
    }
    while i < n
        invariant
            n == cands@.len(),
            i <= n,
            candsv.len() == n + 1,
            forall|j: int| 0 <= j < n ==> #[trigger] candsv[j + 1] == cands@[j]@,
            acc@ == fold_docs(candsv.take(i + 1)),
        decreases n - i,
    {
        let merged = merge_documents(&cands[i], &acc);
        proof {
            assert(candsv.take(i + 2).drop_last() =~= candsv.take(i + 1));
            assert(candsv.take(i + 2).last() == candsv[i + 1]);
        }
        acc = merged;
        i = i + 1;
    }
    proof {
        assert(candsv.take(candsv.len() as int) =~= candsv);
    }
    // Resolve the folded referenced document; it may itself hold a $ref.
    let resolved = match resolve_go(reg, fs, roots, acc, fuel - 1) {
        Ok(d) => d,
        Err(e) => {
            return Err(e);
        },
    };
    // Merge the original document on top and strip the $ref key.
    let mut merged = merge_documents(&doc, &resolved);
    merged.content.remove_key(ref_key_str());
    proof {
        assert(merged@ =~~= resolve_spec(
            reg@,
            fs@,
            str_views(roots@),
            doc@,
            fuel as nat,
        )->Ok_0);
    }
    Ok(merged)
}

/// The detail text of a `PathError` for an empty sub-document path.
pub open spec fn empty_path_text() -> Seq<char> {
    "sub-document path is empty"@
}

pub fn empty_path_text_str() -> (r: &'static str)
    ensures
        r@ == empty_path_text(),
{
    "sub-document path is empty"
}

/// The detail text of a `PathError` for an invalid node under a
/// multi-value sub-document path.
pub open spec fn invalid_multi_text() -> Seq<char> {
    "invalid node under a multi sub-document path"@
}

pub fn invalid_multi_text_str() -> (r: &'static str)
    ensures
        r@ == invalid_multi_text(),
{
    "invalid node under a multi sub-document path"
}

/// The detail text of a `PathError` when navigation expected a mapping.
pub open spec fn expected_mapping_text() -> Seq<char> {
    "expected a mapping along the sub-document path"@
}

pub fn expected_mapping_text_str() -> (r: &'static str)
    ensures
        r@ == expected_mapping_text(),
{
    "expected a mapping along the sub-document path"
}

/// The detail text of a `PathError` when a sub-document node is neither a
/// mapping, a document, nor the `$remove` sentinel.
pub open spec fn invalid_subdoc_text() -> Seq<char> {
    "invalid node where a mapping or document was expected"@
}

pub fn invalid_subdoc_text_str() -> (r: &'static str)
    ensures
        r@ == invalid_subdoc_text(),
{
    "invalid node where a mapping or document was expected"
}

/// The error reported when the recursion allowance runs out.
pub open spec fn fuel_err(ppath: Option<Seq<char>>) -> ErrV {
    ErrV::CircularDependency {
        path: match ppath {
            Some(p) => p,
            None => Seq::empty(),
        },
    }
}

/// A sub-document path spec ends in `[]`, meaning "every value here".
pub open spec fn has_suffix_brackets(ps: Seq<char>) -> bool {
    ps.len() >= 2 && ps[ps.len() - 2] == '[' && ps[ps.len() - 1] == ']'
}

/// What materializing one sub-document node yields: a document is resolved
/// in place, a mapping becomes a new document of the target type carrying
/// the parent's bookkeeping and is then fully resolved, the `$remove`
/// sentinel passes through, and anything else is a path error.
pub open spec fn load_sub_spec(
    regv: Seq<TypeV>,
    fsv: Seq<(Seq<char>, FileV)>,
    rootsv: Seq<Seq<char>>,
    v: Val,
    target_tid: int,
    ppath: Option<Seq<char>>,
    pvis: Seq<Seq<char>>,
    pabs: Seq<Seq<char>>,
    fuel: nat,
) -> Result<Val, ErrV>
    decreases fuel, 0int, 0int, 0int,
{
    match v {
        Val::Doc(d) => {
            if fuel == 0 {
                Err(fuel_err(ppath))
            } else {
                match full_resolve_spec(regv, fsv, rootsv, d, (fuel - 1) as nat) {
                    Err(e) => Err(e),
                    Ok(r) => Ok(Val::Doc(r)),
                }
            }
        },
        Val::Dict(mm) => {
            match new_doc_spec(mm, ppath, pvis, pabs, target_tid) {
                Err(e) => Err(e),
                Ok(nd) => {
                    if fuel == 0 {
                        Err(fuel_err(ppath))
                    } else {
                        match full_resolve_spec(regv, fsv, rootsv, nd, (fuel - 1) as nat) {
                            Err(e) => Err(e),
                            Ok(r) => Ok(Val::Doc(r)),
                        }
                    }
                },
            }
        },
        Val::Str(s) => if s == remove_marker() {
            Ok(v)
        } else {
            Err(ErrV::PathError { detail: invalid_subdoc_text() })
        },
        _ => Err(ErrV::PathError { detail: invalid_subdoc_text() }),
    }
}

/// Sub-documents materialized for every value of a mapping, each tagged
/// with a `$name` key naming its own key.
pub open spec fn subload_entries_spec(
    regv: Seq<TypeV>,
    fsv: Seq<(Seq<char>, FileV)>,
    rootsv: Seq<Seq<char>>,
    entries: Seq<(Seq<char>, Val)>,
    target_tid: int,
    ppath: Option<Seq<char>>,
    pvis: Seq<Seq<char>>,
    pabs: Seq<Seq<char>>,
    fuel: nat,
) -> Result<Seq<(Seq<char>, Val)>, ErrV>
    decreases fuel, 1int, entries.len(), 0int,
{
    if entries.len() == 0 {
        Ok(Seq::empty())
    } else {
        match subload_entries_spec(
            regv,
            fsv,
            rootsv,
            entries.drop_last(),
            target_tid,
            ppath,
            pvis,
            pabs,
            fuel,
        ) {
            Err(e) => Err(e),
            Ok(rest) => match load_sub_spec(
                regv,
                fsv,
                rootsv,
                entries.last().1,
                target_tid,
                ppath,
                pvis,
                pabs,
                fuel,
            ) {
                Err(e) => Err(e),
                Ok(lv) => {
                    let tagged = match lv {
                        Val::Doc(d) => Val::Doc(
                            DocV {
                                content: crate::value::insert_entry(
                                    d.content,
                                    crate::tokens::name_key(),
                                    Val::Str(entries.last().0),
                                ),
                                ..d
                            },
                        ),
                        _ => lv,
                    };
                    Ok(rest.push((entries.last().0, tagged)))
                },
            },
        }
    }
}

/// Sub-documents materialized for every element of a list.
pub open spec fn subload_list_spec(
    regv: Seq<TypeV>,
    fsv: Seq<(Seq<char>, FileV)>,
    rootsv: Seq<Seq<char>>,
    items: Seq<Val>,
    target_tid: int,
    ppath: Option<Seq<char>>,
    pvis: Seq<Seq<char>>,
    pabs: Seq<Seq<char>>,
    fuel: nat,
) -> Result<Seq<Val>, ErrV>
    decreases fuel, 1int, items.len(), 0int,
{
    if items.len() == 0 {
        Ok(Seq::empty())
    } else {
        match subload_list_spec(
            regv,
            fsv,
            rootsv,
            items.drop_last(),
            target_tid,
            ppath,
            pvis,
            pabs,
            fuel,
        ) {
            Err(e) => Err(e),
            Ok(rest) => match load_sub_spec(
                regv,
                fsv,
                rootsv,
                items.last(),
                target_tid,
                ppath,
                pvis,
                pabs,
                fuel,
            ) {
                Err(e) => Err(e),
                Ok(lv) => Ok(rest.push(lv)),
            },
        }
    }
}

/// Navigation along a `/`-separated key path and materialization at its
/// end.  A missing terminal key is a no-op; a missing or non-mapping
/// intermediate key is a path error; under a `[]` path the terminal value
/// must be a mapping, a list, or the `$remove` sentinel.
pub open spec fn replace_at_spec(
    regv: Seq<TypeV>,
    fsv: Seq<(Seq<char>, FileV)>,
    rootsv: Seq<Seq<char>>,
    m: Seq<(Seq<char>, Val)>,
    segs: Seq<Seq<char>>,
    multiple: bool,
    target_tid: int,
    ppath: Option<Seq<char>>,
    pvis: Seq<Seq<char>>,
    pabs: Seq<Seq<char>>,
    fuel: nat,
) -> Result<Seq<(Seq<char>, Val)>, ErrV>
    decreases fuel, 2int, segs.len(), 0int,
{
    if segs.len() == 0 {
        Err(ErrV::PathError { detail: empty_path_text() })
    } else if segs.len() == 1 {
        let k = segs[0];
        match lookup(m, k) {
            None => Ok(m),
            Some(v) => if multiple {
                match v {
                    Val::Dict(sub) => match subload_entries_spec(
                        regv,
                        fsv,
                        rootsv,
                        sub,
                        target_tid,
                        ppath,
                        pvis,
                        pabs,
                        fuel,
                    ) {
                        Err(e) => Err(e),
                        Ok(sub2) => Ok(crate::value::insert_entry(m, k, Val::Dict(sub2))),
                    },
                    Val::List(l) => match subload_list_spec(
                        regv,
                        fsv,
                        rootsv,
                        l,
                        target_tid,
                        ppath,
                        pvis,
                        pabs,
                        fuel,
                    ) {
                        Err(e) => Err(e),
                        Ok(l2) => Ok(crate::value::insert_entry(m, k, Val::List(l2))),
                    },
                    Val::Str(s) => if s == remove_marker() {
                        Ok(m)
                    } else {
                        Err(ErrV::PathError { detail: invalid_multi_text() })
                    },
                    _ => Err(ErrV::PathError { detail: invalid_multi_text() }),
                }
            } else {
                match load_sub_spec(
                    regv,
                    fsv,
                    rootsv,
                    v,
                    target_tid,
                    ppath,
                    pvis,
                    pabs,
                    fuel,
                ) {
                    Err(e) => Err(e),
                    Ok(lv) => Ok(crate::value::insert_entry(m, k, lv)),
                }
            },
        }
    } else {
        let k = segs[0];
        match lookup(m, k) {
            Some(Val::Dict(sub)) => match replace_at_spec(
                regv,
                fsv,
                rootsv,
                sub,
                segs.drop_first(),
                multiple,
                target_tid,
                ppath,
                pvis,
                pabs,
                fuel,
            ) {
                Err(e) => Err(e),
                Ok(sub2) => Ok(crate::value::insert_entry(m, k, Val::Dict(sub2))),
            },
            _ => Err(ErrV::PathError { detail: expected_mapping_text() }),
        }
    }
}

/// All sub-document declarations of a type applied to a content map, in
/// declaration order.
pub open spec fn apply_specs_spec(
    regv: Seq<TypeV>,
    fsv: Seq<(Seq<char>, FileV)>,
    rootsv: Seq<Seq<char>>,
    content: Seq<(Seq<char>, Val)>,
    specs: Seq<(Seq<char>, int)>,
    ppath: Option<Seq<char>>,
    pvis: Seq<Seq<char>>,
    pabs: Seq<Seq<char>>,
    fuel: nat,
) -> Result<Seq<(Seq<char>, Val)>, ErrV>
    decreases fuel, 3int, specs.len(), 0int,
{
    if specs.len() == 0 {
        Ok(content)
    } else {
        let ps = specs[0].0;
        let tid = specs[0].1;
        let multiple = has_suffix_brackets(ps);
        let trimmed = if multiple {
            ps.take(ps.len() - 2)
        } else {
            ps
        };
        let segs = crate::loader::split_slash(trimmed);
        match replace_at_spec(
            regv,
            fsv,
            rootsv,
            content,
            segs,
            multiple,
            tid,
            ppath,
            pvis,
            pabs,
            fuel,
        ) {
            Err(e) => Err(e),
            Ok(c2) => apply_specs_spec(
                regv,
                fsv,
                rootsv,
                c2,
                specs.drop_first(),
                ppath,
                pvis,
                pabs,
                fuel,
            ),
        }
    }
}

/// Merge associativity-of-override: resolving a chain `A $ref B $ref C`
/// agrees with the explicit pairwise merges computed directly.  With `B`
/// the single candidate of `A`'s reference and `C` the single candidate of
/// `B`'s, the fully resolved content equals merging `C`'s body under `B`'s
/// (stripping the reference key), and that under `A`'s.
pub proof fn lemma_chain_resolution_is_pairwise_merge(
    regv: Seq<TypeV>,
    fsv: Seq<(Seq<char>, FileV)>,
    root: Seq<char>,
    doc_a: DocV,
    h: Seq<char>,
    rb: Seq<char>,
    rc: Seq<char>,
    fb: Seq<(Seq<char>, Val)>,
    fc: Seq<(Seq<char>, Val)>,
    pb_abs: Seq<char>,
    pc_abs: Seq<char>,
    content_b: Seq<(Seq<char>, Val)>,
    content_c: Seq<(Seq<char>, Val)>,
)
    requires
        0 <= doc_a.type_id < regv.len(),
        regv[doc_a.type_id].header == h,
        lookup(doc_a.content, ref_key()) == Some(Val::Str(rb)),
        crate::strutil::has_prefix(rb, seq!['/']),
        crate::strutil::has_prefix(rc, seq!['/']),
        crate::loader::load_dicts_spec(fsv, crate::loader::candidate_base(root, rb)) == Ok::<
            Seq<(Seq<char>, Seq<(Seq<char>, Val)>)>,
            ErrV,
        >(seq![(pb_abs, fb)]),
        crate::loader::load_dicts_spec(fsv, crate::loader::candidate_base(root, rc)) == Ok::<
            Seq<(Seq<char>, Seq<(Seq<char>, Val)>)>,
            ErrV,
        >(seq![(pc_abs, fc)]),
        lookup(fb, h) == Some(Val::Dict(content_b)),
        lookup(fc, h) == Some(Val::Dict(content_c)),
        lookup(content_b, ref_key()) == Some(Val::Str(rc)),
        !crate::value::has_key(content_c, ref_key()),
        !doc_a.visited.contains(rb),
        !doc_a.visited.push(rb).contains(rc),
    ensures
        resolve_spec(regv, fsv, seq![root], doc_a, RESOLVE_FUEL as nat) matches Ok(res)
            && res.content == remove_entry(
            crate::merger::merge_map(
                remove_entry(crate::merger::merge_map(content_c, content_b), ref_key()),
                doc_a.content,
            ),
            ref_key(),
        ),
{
    let rootsv = seq![root];
    let fuel = RESOLVE_FUEL as nat;
    reveal_strlit("$remove");
    reveal_strlit("$ref");
    assert(crate::tokens::remove_marker().len() == 7);
    assert(crate::tokens::remove_marker()[0] == '$');
    assert(rb[0] == '/') by {
        assert(rb.take(1)[0] == '/');
    }
    assert(rc[0] == '/') by {
        assert(rc.take(1)[0] == '/');
    }
    assert(rb != crate::tokens::remove_marker());
    assert(rc != crate::tokens::remove_marker());
    // Loading A's reference yields exactly the document built from B's file.
    let doc_b = load_one_chain_step(regv, fsv, root, doc_a, rb, fb, pb_abs, h, content_b);
    assert(load_referenced_spec(regv, fsv, rootsv, doc_a) == Ok::<Seq<DocV>, ErrV>(
        seq![doc_b],
    ));
    // Loading B's reference yields exactly the document built from C's file.
    let doc_c = load_one_chain_step(regv, fsv, root, doc_b, rc, fc, pc_abs, h, content_c);
    assert(load_referenced_spec(regv, fsv, rootsv, doc_b) == Ok::<Seq<DocV>, ErrV>(
        seq![doc_c],
    ));
    // C has no reference, so it resolves to itself.
    assert(resolve_spec(regv, fsv, rootsv, doc_c, (fuel - 2) as nat) == Ok::<DocV, ErrV>(doc_c));
    // B resolves to C merged under B, reference stripped.
    assert(fold_docs(seq![doc_c]) == doc_c);
    let merged_bc = crate::merger::merge_docv(doc_c, doc_b);
    let res_b = DocV { content: remove_entry(merged_bc.content, ref_key()), ..merged_bc };
    assert(resolve_spec(regv, fsv, rootsv, doc_b, (fuel - 1) as nat) == Ok::<DocV, ErrV>(res_b));
    // A resolves to that merged under A, reference stripped.
    assert(fold_docs(seq![doc_b]) == doc_b);
    let merged_a = crate::merger::merge_docv(res_b, doc_a);
    let res_a = DocV { content: remove_entry(merged_a.content, ref_key()), ..merged_a };
    assert(resolve_spec(regv, fsv, rootsv, doc_a, fuel) == Ok::<DocV, ErrV>(res_a));
    assert(res_a.content == remove_entry(
        crate::merger::merge_map(
            remove_entry(crate::merger::merge_map(content_c, content_b), ref_key()),
            doc_a.content,
        ),
        ref_key(),
    ));
}

/// Cycle detection: whatever the length of the chain that led here, a
/// document whose reference points back at a path already among its
/// visited paths fails with `CircularDependency` naming that path — it
/// can never resolve, and resolution is a total function, so it can never
/// loop either.
pub proof fn lemma_cycle_detection(
    regv: Seq<TypeV>,
    fsv: Seq<(Seq<char>, FileV)>,
    root: Seq<char>,
    doc: DocV,
    rp: Seq<char>,
    file_map: Seq<(Seq<char>, Val)>,
    p_abs: Seq<char>,
    content: Seq<(Seq<char>, Val)>,
    fuel: nat,
)
    requires
        0 <= doc.type_id < regv.len(),
        lookup(doc.content, ref_key()) == Some(Val::Str(rp)),
        crate::strutil::has_prefix(rp, seq!['/']),
        crate::loader::load_dicts_spec(fsv, crate::loader::candidate_base(root, rp)) == Ok::<
            Seq<(Seq<char>, Seq<(Seq<char>, Val)>)>,
            ErrV,
        >(seq![(p_abs, file_map)]),
        lookup(file_map, regv[doc.type_id].header) == Some(Val::Dict(content)),
        doc.visited.contains(rp),
    ensures
        resolve_spec(regv, fsv, seq![root], doc, fuel) == Err::<DocV, ErrV>(
            ErrV::CircularDependency { path: rp },
        ),
{
    let rootsv = seq![root];
    reveal_strlit("$remove");
    assert(crate::tokens::remove_marker()[0] == '$');
    assert(rp[0] == '/') by {
        assert(rp.take(1)[0] == '/');
    }
    assert(rp != crate::tokens::remove_marker());
    assert(crate::loader::path_in_repo_spec(doc.path, rp) == rp);
    assert(!crate::strutil::has_prefix(rp, seq!['.', '/'])) by {
        if crate::strutil::has_prefix(rp, seq!['.', '/']) {
            assert(rp.take(2)[0] == '.');
        }
    }
    assert(!crate::strutil::has_prefix(rp, seq!['.', '.', '/'])) by {
        if crate::strutil::has_prefix(rp, seq!['.', '.', '/']) {
            assert(rp.take(3)[0] == '.');
        }
    }
    let dicts = seq![(p_abs, file_map)];
    assert(dicts.drop_last() =~= Seq::<(Seq<char>, Seq<(Seq<char>, Val)>)>::empty());
    assert(dicts.last() == (p_abs, file_map));
    // The cycle check rejects the candidate at construction.
    assert(crate::value::new_doc_spec(
        content,
        Some(rp),
        doc.visited,
        seq![p_abs] + doc.abs_paths,
        doc.type_id,
    ) == Err::<DocV, ErrV>(ErrV::CircularDependency { path: rp }));
    assert(crate::loader::docs_from_dicts_spec(
        regv,
        doc.type_id,
        Seq::empty(),
        rp,
        doc.visited,
        doc.abs_paths,
    ) == Ok::<Seq<DocV>, ErrV>(Seq::empty()));
    assert(crate::loader::docs_from_dicts_spec(
        regv,
        doc.type_id,
        dicts,
        rp,
        doc.visited,
        doc.abs_paths,
    ) == Err::<Seq<DocV>, ErrV>(ErrV::CircularDependency { path: rp }));
    assert(rootsv.drop_last() =~= Seq::<Seq<char>>::empty());
    assert(rootsv.last() == root);
    assert(crate::loader::roots_docs_spec(
        regv,
        fsv,
        doc.type_id,
        Seq::empty(),
        rp,
        doc.visited,
        doc.abs_paths,
    ) == Ok::<Seq<DocV>, ErrV>(Seq::empty()));
    assert(crate::loader::roots_docs_spec(
        regv,
        fsv,
        doc.type_id,
        rootsv,
        rp,
        doc.visited,
        doc.abs_paths,
    ) == Err::<Seq<DocV>, ErrV>(ErrV::CircularDependency { path: rp }));
    assert(load_referenced_spec(regv, fsv, rootsv, doc) == Err::<Seq<DocV>, ErrV>(
        ErrV::CircularDependency { path: rp },
    ));
}

/// One step of the chain: with a single readable candidate file under the
/// single root, loading a document's reference yields exactly the typed
/// document built from that file's body.
proof fn load_one_chain_step(
    regv: Seq<TypeV>,
    fsv: Seq<(Seq<char>, FileV)>,
    root: Seq<char>,
    doc: DocV,
    rp: Seq<char>,
    file_map: Seq<(Seq<char>, Val)>,
    p_abs: Seq<char>,
    h: Seq<char>,
    content: Seq<(Seq<char>, Val)>,
) -> (r: DocV)
    requires
        0 <= doc.type_id < regv.len(),
        regv[doc.type_id].header == h,
        lookup(doc.content, ref_key()) == Some(Val::Str(rp)),
        crate::strutil::has_prefix(rp, seq!['/']),
        crate::loader::load_dicts_spec(fsv, crate::loader::candidate_base(root, rp)) == Ok::<
            Seq<(Seq<char>, Seq<(Seq<char>, Val)>)>,
            ErrV,
        >(seq![(p_abs, file_map)]),
        lookup(file_map, h) == Some(Val::Dict(content)),
        !doc.visited.contains(rp),
    ensures
        load_referenced_spec(regv, fsv, seq![root], doc) == Ok::<Seq<DocV>, ErrV>(seq![r]),
        r == (DocV {
            content,
            path: Some(rp),
            visited: doc.visited.push(rp),
            abs_paths: seq![p_abs] + doc.abs_paths,
            type_id: doc.type_id,
            frozen: None,
        }),
{
    let rootsv = seq![root];
    assert(rp[0] == '/') by {
        assert(rp.take(1)[0] == '/');
    }
    // The reference path is already repository-absolute.
    assert(crate::loader::path_in_repo_spec(doc.path, rp) == rp);
    assert(!crate::strutil::has_prefix(rp, seq!['.', '/'])) by {
        if crate::strutil::has_prefix(rp, seq!['.', '/']) {
            assert(rp.take(2)[0] == '.');
        }
    }
    assert(!crate::strutil::has_prefix(rp, seq!['.', '.', '/'])) by {
        if crate::strutil::has_prefix(rp, seq!['.', '.', '/']) {
            assert(rp.take(3)[0] == '.');
        }
    }
    let dicts = seq![(p_abs, file_map)];
    let r = DocV {
        content,
        path: Some(rp),
        visited: doc.visited.push(rp),
        abs_paths: seq![p_abs] + doc.abs_paths,
        type_id: doc.type_id,
        frozen: None,
    };
    // Converting the single body yields exactly the one document.
    assert(dicts.drop_last() =~= Seq::<(Seq<char>, Seq<(Seq<char>, Val)>)>::empty());
    assert(dicts.last() == (p_abs, file_map));
    assert(crate::value::new_doc_spec(
        content,
        Some(rp),
        doc.visited,
        seq![p_abs] + doc.abs_paths,
        doc.type_id,
    ) matches Ok(d0) && d0 =~~= r);
    assert(crate::value::new_doc_spec(
        content,
        Some(rp),
        doc.visited,
        seq![p_abs] + doc.abs_paths,
        doc.type_id,
    ) == Ok::<DocV, ErrV>(r));
    assert(crate::loader::dict_to_doc_spec(
        regv,
        doc.type_id,
        file_map,
        p_abs,
        rp,
        doc.visited,
        doc.abs_paths,
    ) == crate::value::new_doc_spec(
        content,
        Some(rp),
        doc.visited,
        seq![p_abs] + doc.abs_paths,
        doc.type_id,
    ));
    assert(crate::loader::dict_to_doc_spec(
        regv,
        doc.type_id,
        file_map,
        p_abs,
        rp,
        doc.visited,
        doc.abs_paths,
    ) == Ok::<DocV, ErrV>(r));
    assert(crate::loader::docs_from_dicts_spec(
        regv,
        doc.type_id,
        Seq::empty(),
        rp,
        doc.visited,
        doc.abs_paths,
    ) == Ok::<Seq<DocV>, ErrV>(Seq::empty()));
    assert(crate::loader::docs_from_dicts_spec(
        regv,
        doc.type_id,
        dicts,
        rp,
        doc.visited,
        doc.abs_paths,
    ) == Ok::<Seq<DocV>, ErrV>(Seq::<DocV>::empty().push(r)));
    // One root, so the roots fold is that single conversion.
    assert(rootsv.drop_last() =~= Seq::<Seq<char>>::empty());
    assert(rootsv.last() == root);
    assert(crate::loader::roots_docs_spec(
        regv,
        fsv,
        doc.type_id,
        Seq::empty(),
        rp,
        doc.visited,
        doc.abs_paths,
    ) == Ok::<Seq<DocV>, ErrV>(Seq::empty()));
    assert(crate::loader::roots_docs_spec(
        regv,
        fsv,
        doc.type_id,
        rootsv,
        rp,
        doc.visited,
        doc.abs_paths,
    ) == Ok::<Seq<DocV>, ErrV>(Seq::<DocV>::empty() + Seq::<DocV>::empty().push(r)));
    assert(Seq::<DocV>::empty() + Seq::<DocV>::empty().push(r) =~= seq![r]);
    r
}

/// Parse a sub-document path spec: detect and strip a `[]` suffix, then
/// split on `/`.
fn parse_path_spec(ps: &str) -> (r: (bool, Vec<String>))
    ensures
        r.0 == has_suffix_brackets(ps@),
        str_views(r.1@) =~= crate::loader::split_slash(
            if has_suffix_brackets(ps@) {
                ps@.take(ps@.len() - 2)
            } else {
                ps@
            },
        ),
{
    let cv = chars_vec(ps);
    let n = cv.len();
    let multiple = n >= 2 && cv[n - 2] == '[' && cv[n - 1] == ']';
    let trimmed: Vec<char> = if multiple {
        sub_vec(&cv, 0, n - 2)
    } else {
        sub_vec(&cv, 0, n)
    };
    proof {
        if multiple {
            assert(trimmed@ =~= ps@.take(ps@.len() - 2));
        } else {
            assert(trimmed@ =~= ps@);
        }
    }
    let ghost splits = crate::loader::split_slash(trimmed@);
    let mut segs: Vec<String> = Vec::new();
    let mut cur: Vec<char> = trimmed;
    loop
        invariant_except_break
            splits == crate::loader::split_slash(
                if has_suffix_brackets(ps@) {
                    ps@.take(ps@.len() - 2)
                } else {
                    ps@
                },
            ),
            splits =~= str_views(segs@) + crate::loader::split_slash(cur@),
        ensures
            splits =~= str_views(segs@),
        decreases cur@.len(),
    {
        let ghost old_segs = segs@;
        let ghost old_cur = cur@;
        proof {
            crate::loader::lemma_first_slash(cur@);
        }
        match crate::loader::first_slash_of(&cur) {
            Some(i) => {
                proof {
                    assert(i < cur@.len());
                }
                let clen = cur.len();
                let seg = sub_vec(&cur, 0, i);
                let rest = sub_vec(&cur, i + 1, clen);
                segs.push(string_from_chars(&seg));
                cur = rest;
                proof {
                    assert(old_cur.take(crate::loader::first_slash(old_cur)) =~= seg@);
                    assert(old_cur.skip(crate::loader::first_slash(old_cur) + 1) =~= cur@);
                    assert(str_views(segs@) =~= str_views(old_segs).push(seg@));
                    assert(splits =~= str_views(segs@) + crate::loader::split_slash(cur@));
                }
            },
            None => {
                segs.push(string_from_chars(&cur));
                proof {
                    assert(crate::loader::split_slash(old_cur) =~= seq![old_cur]);
                    assert(str_views(segs@) =~= str_views(old_segs).push(old_cur));
                    assert(splits =~= str_views(segs@));
                }
                break ;
            },
        }
    }
    (multiple, segs)
}

/// Materialize one sub-document node, as executable code.
fn load_subdocument(
    reg: &TypeRegistry,
    fs: &FileSet,
    roots: &Vec<String>,
    v: YcdValue,
    target_tid: usize,
    ppath: &Option<String>,
    pvis: &Vec<String>,
    pabs: &Vec<String>,
    fuel: u64,
) -> (r: Result<YcdValue, ConfigError>)
    ensures
        match r {
            Ok(lv) => load_sub_spec(
                reg@,
                fs@,
                str_views(roots@),
                v@,
                target_tid as int,
                crate::strutil::opt_view(*ppath),
                str_views(pvis@),
                str_views(pabs@),
                fuel as nat,
            ) == Ok::<Val, ErrV>(lv@),
            Err(e) => load_sub_spec(
                reg@,
                fs@,
                str_views(roots@),
                v@,
                target_tid as int,
                crate::strutil::opt_view(*ppath),
                str_views(pvis@),
                str_views(pabs@),
                fuel as nat,
            ) == Err::<Val, ErrV>(e@),
        },
    decreases fuel, 0int, 0int, 0int,
{
    match v {
        YcdValue::Doc(b) => {
            if fuel == 0 {
                return Err(fuel_error(ppath));
            }
            match full_resolve_go(reg, fs, roots, *b, fuel - 1) {
                Err(e) => Err(e),
                Ok(rd) => Ok(YcdValue::Doc(Box::new(rd))),
            }
        },
        YcdValue::Dict(mm) => {
            let path2: Option<String> = match ppath {
                Some(p) => Some(p.clone()),
                None => None,
            };
            let nd = match Document::new(
                mm,
                path2,
                crate::value::duplicate_strings(pvis),
                crate::value::duplicate_strings(pabs),
                target_tid,
            ) {
                Err(e) => {
                    return Err(e);
                },
                Ok(nd) => nd,
            };
            if fuel == 0 {
                return Err(fuel_error(ppath));
            }
            match full_resolve_go(reg, fs, roots, nd, fuel - 1) {
                Err(e) => Err(e),
                Ok(rd) => Ok(YcdValue::Doc(Box::new(rd))),
            }
        },
        YcdValue::Str(s) => {
            if crate::strutil::str_eq(s.as_str(), remove_marker_str()) {
                Ok(YcdValue::Str(s))
            } else {
                Err(ConfigError::PathError { detail: invalid_subdoc_text_str().to_owned() })
            }
        },
        _ => Err(ConfigError::PathError { detail: invalid_subdoc_text_str().to_owned() }),
    }
}

/// The fuel-exhaustion error, citing the parent's path when it has one.
fn fuel_error(ppath: &Option<String>) -> (r: ConfigError)
    ensures
        r@ == fuel_err(crate::strutil::opt_view(*ppath)),
{
    match ppath {
        Some(p) => ConfigError::CircularDependency { path: p.clone() },
        None => ConfigError::CircularDependency { path: String::new() },
    }
}

/// Materialize a sub-document for every value of a mapping, tagging each
/// with its own key under `$name`.
fn subload_dict(
    reg: &TypeRegistry,
    fs: &FileSet,
    roots: &Vec<String>,
    sub: &Dict,
    target_tid: usize,
    ppath: &Option<String>,
    pvis: &Vec<String>,
    pabs: &Vec<String>,
    fuel: u64,
) -> (r: Result<Dict, ConfigError>)
    ensures
        match r {
            Ok(d2) => subload_entries_spec(
                reg@,
                fs@,
                str_views(roots@),
                sub@,
                target_tid as int,
                crate::strutil::opt_view(*ppath),
                str_views(pvis@),
                str_views(pabs@),
                fuel as nat,
            ) == Ok::<Seq<(Seq<char>, Val)>, ErrV>(d2@),
            Err(e) => subload_entries_spec(
                reg@,
                fs@,
                str_views(roots@),
                sub@,
                target_tid as int,
                crate::strutil::opt_view(*ppath),
                str_views(pvis@),
                str_views(pabs@),
                fuel as nat,
            ) == Err::<Seq<(Seq<char>, Val)>, ErrV>(e@),
        },
    decreases fuel, 1int, sub@.len(), 0int,
{
    let ghost regv = reg@;
    let ghost fsv = fs@;
    let ghost rootsv = str_views(roots@);
    let ghost pp = crate::strutil::opt_view(*ppath);
    let ghost pv = str_views(pvis@);
    let ghost pa = str_views(pabs@);
    let ghost sv = sub@;
    proof {
        crate::value::lemma_view_entries(sub.entries@);
        assert(sv.take(0) =~= Seq::<(Seq<char>, Val)>::empty());
    }
    let mut out = Dict::new();
    let n = sub.entries.len();
    let mut i: usize = 0;
    while i < n
        invariant
            n == sub.entries@.len(),
            i <= n,
            regv == reg@,
            fsv == fs@,
            rootsv == str_views(roots@),
            pp == crate::strutil::opt_view(*ppath),
            pv == str_views(pvis@),
            pa == str_views(pabs@),
            sv == sub@,
            sv.len() == n,
            target_tid <= usize::MAX,
            fuel <= u64::MAX,
            forall|j: int|
                0 <= j < n ==> #[trigger] sv[j] == (sub.entries@[j].0@, sub.entries@[j].1@),
            subload_entries_spec(regv, fsv, rootsv, sv.take(i as int), target_tid as int, pp, pv,
                pa, fuel as nat) == Ok::<Seq<(Seq<char>, Val)>, ErrV>(out@),
            forall|j: int| i <= j < n ==> decreases_to!(sv => sv[j]),
        decreases n - i,
    {
        proof {
            assert(sv.take(i + 1).drop_last() =~= sv.take(i as int));
            assert(sv.take(i + 1).last() == sv[i as int]);
        }
        let name = sub.entries[i].0.clone();
        let vv = sub.entries[i].1.duplicate();
        let lv = match load_subdocument(reg, fs, roots, vv, target_tid, ppath, pvis, pabs, fuel) {
            Ok(lv) => lv,
            Err(e) => {
                proof {
                    lemma_subload_entries_prefix_err(
                        regv,
                        fsv,
                        rootsv,
                        sv,
                        i + 1,
                        target_tid as int,
                        pp,
                        pv,
                        pa,
                        fuel as nat,
                    );
                    assert(sv.take(sv.len() as int) =~= sv);
                }
                return Err(e);
            },
        };
        let tagged: YcdValue = match lv {
            YcdValue::Doc(mut b) => {
                b.content.insert(crate::tokens::name_key_str().to_owned(), YcdValue::Str(
                    name.clone(),
                ));
                YcdValue::Doc(b)
            },
            other => other,
        };
        let ghost old_out = out@;
        let ghost old_vec = out.entries@;
        out.entries.push((name, tagged));
        proof {
            crate::value::lemma_view_entries(out.entries@);
            crate::value::lemma_view_entries(old_vec);
            assert(out.entries@.drop_last() =~= old_vec);
            assert(out@ =~= old_out.push((sv[i as int].0, out.entries@.last().1@)));
            assert(subload_entries_spec(regv, fsv, rootsv, sv.take(i + 1), target_tid as int, pp,
                pv, pa, fuel as nat) == Ok::<Seq<(Seq<char>, Val)>, ErrV>(out@));
        }
        i = i + 1;
    }
    proof {
        assert(sv.take(n as int) =~= sv);
    }
    Ok(out)
}

/// Materialize a sub-document for every element of a list.
fn subload_list(
    reg: &TypeRegistry,
    fs: &FileSet,
    roots: &Vec<String>,
    items: &Vec<YcdValue>,
    target_tid: usize,
    ppath: &Option<String>,
    pvis: &Vec<String>,
    pabs: &Vec<String>,
    fuel: u64,
) -> (r: Result<Vec<YcdValue>, ConfigError>)
    ensures
        match r {
            Ok(l2) => subload_list_spec(
                reg@,
                fs@,
                str_views(roots@),
                crate::value::view_list(items@),
                target_tid as int,
                crate::strutil::opt_view(*ppath),
                str_views(pvis@),
                str_views(pabs@),
                fuel as nat,
            ) == Ok::<Seq<Val>, ErrV>(crate::value::view_list(l2@)),
            Err(e) => subload_list_spec(
                reg@,
                fs@,
                str_views(roots@),
                crate::value::view_list(items@),
                target_tid as int,
                crate::strutil::opt_view(*ppath),
                str_views(pvis@),
                str_views(pabs@),
                fuel as nat,
            ) == Err::<Seq<Val>, ErrV>(e@),
        },
    decreases fuel, 1int, items@.len(), 0int,
{
    let ghost regv = reg@;
    let ghost fsv = fs@;
    let ghost rootsv = str_views(roots@);
    let ghost pp = crate::strutil::opt_view(*ppath);
    let ghost pv = str_views(pvis@);
    let ghost pa = str_views(pabs@);
    let ghost lvw = crate::value::view_list(items@);
    proof {
        crate::value::lemma_view_list(items@);
        assert(lvw.take(0) =~= Seq::<Val>::empty());
    }
    let mut out: Vec<YcdValue> = Vec::new();
    let n = items.len();
    let mut i: usize = 0;
    proof {
        assert(crate::value::view_list(out@) =~= Seq::<Val>::empty());
    }
    while i < n
        invariant
            n == items@.len(),
            i <= n,
            regv == reg@,
            fsv == fs@,
            rootsv == str_views(roots@),
            pp == crate::strutil::opt_view(*ppath),
            pv == str_views(pvis@),
            pa == str_views(pabs@),
            lvw == crate::value::view_list(items@),
            lvw.len() == n,
            target_tid <= usize::MAX,
            forall|j: int| 0 <= j < n ==> #[trigger] lvw[j] == items@[j]@,
            subload_list_spec(regv, fsv, rootsv, lvw.take(i as int), target_tid as int, pp, pv,
                pa, fuel as nat) == Ok::<Seq<Val>, ErrV>(crate::value::view_list(out@)),
            forall|j: int| i <= j < n ==> decreases_to!(lvw => lvw[j]),
        decreases n - i,
    {
        proof {
            assert(lvw.take(i + 1).drop_last() =~= lvw.take(i as int));
            assert(lvw.take(i + 1).last() == lvw[i as int]);
        }
        let vv = items[i].duplicate();
        let lv = match load_subdocument(reg, fs, roots, vv, target_tid, ppath, pvis, pabs, fuel) {
            Ok(lv) => lv,
            Err(e) => {
                proof {
                    lemma_subload_list_prefix_err(
                        regv,
                        fsv,
                        rootsv,
                        lvw,
                        i + 1,
                        target_tid as int,
                        pp,
                        pv,
                        pa,
                        fuel as nat,
                    );
                    assert(lvw.take(lvw.len() as int) =~= lvw);
                }
                return Err(e);
            },
        };
        let ghost old_out = crate::value::view_list(out@);
        let ghost old_vec = out@;
        out.push(lv);
        proof {
            crate::value::lemma_view_list(out@);
            crate::value::lemma_view_list(old_vec);
            assert(out@.drop_last() =~= old_vec);
            assert(crate::value::view_list(out@) =~= old_out.push(out@.last()@));
        }
        i = i + 1;
    }
    proof {
        assert(lvw.take(n as int) =~= lvw);
    }
    Ok(out)
}

proof fn lemma_subload_entries_prefix_err(
    regv: Seq<TypeV>,
    fsv: Seq<(Seq<char>, FileV)>,
    rootsv: Seq<Seq<char>>,
    entries: Seq<(Seq<char>, Val)>,
    i: int,
    target_tid: int,
    ppath: Option<Seq<char>>,
    pvis: Seq<Seq<char>>,
    pabs: Seq<Seq<char>>,
    fuel: nat,
)
    requires
        0 <= i <= entries.len(),
        subload_entries_spec(regv, fsv, rootsv, entries.take(i), target_tid, ppath, pvis, pabs,
            fuel) is Err,
    ensures
        subload_entries_spec(
            regv,
            fsv,
            rootsv,
            entries.take(entries.len() as int),
            target_tid,
            ppath,
            pvis,
            pabs,
            fuel,
        ) == subload_entries_spec(regv, fsv, rootsv, entries.take(i), target_tid, ppath, pvis,
            pabs, fuel),
    decreases entries.len() - i,
{
    if i < entries.len() {
        assert(entries.take(i + 1).drop_last() =~= entries.take(i));
        lemma_subload_entries_prefix_err(
            regv,
            fsv,
            rootsv,
            entries,
            i + 1,
            target_tid,
            ppath,
            pvis,
            pabs,
            fuel,
        );
    }
}

proof fn lemma_subload_list_prefix_err(
    regv: Seq<TypeV>,
    fsv: Seq<(Seq<char>, FileV)>,
    rootsv: Seq<Seq<char>>,
    items: Seq<Val>,
    i: int,
    target_tid: int,
    ppath: Option<Seq<char>>,
    pvis: Seq<Seq<char>>,
    pabs: Seq<Seq<char>>,
    fuel: nat,
)
    requires
        0 <= i <= items.len(),
        subload_list_spec(regv, fsv, rootsv, items.take(i), target_tid, ppath, pvis, pabs,
            fuel) is Err,
    ensures
        subload_list_spec(
            regv,
            fsv,
            rootsv,
            items.take(items.len() as int),
            target_tid,
            ppath,
            pvis,
            pabs,
            fuel,
        ) == subload_list_spec(regv, fsv, rootsv, items.take(i), target_tid, ppath, pvis, pabs,
            fuel),
    decreases items.len() - i,
{
    if i < items.len() {
        assert(items.take(i + 1).drop_last() =~= items.take(i));
        lemma_subload_list_prefix_err(
            regv,
            fsv,
            rootsv,
            items,
            i + 1,
            target_tid,
            ppath,
            pvis,
            pabs,
            fuel,
        );
    }
}

/// Navigate a key path and materialize sub-documents at its end, as
/// executable code.  `idx` is the current position in `segs`.
fn replace_at(
    reg: &TypeRegistry,
    fs: &FileSet,
    roots: &Vec<String>,
    m: Dict,
    segs: &Vec<String>,
    idx: usize,
    multiple: bool,
    target_tid: usize,
    ppath: &Option<String>,
    pvis: &Vec<String>,
    pabs: &Vec<String>,
    fuel: u64,
) -> (r: Result<Dict, ConfigError>)
    requires
        idx <= segs@.len(),
    ensures
        match r {
            Ok(m2) => replace_at_spec(
                reg@,
                fs@,
                str_views(roots@),
                m@,
                str_views(segs@).skip(idx as int),
                multiple,
                target_tid as int,
                crate::strutil::opt_view(*ppath),
                str_views(pvis@),
                str_views(pabs@),
                fuel as nat,
            ) == Ok::<Seq<(Seq<char>, Val)>, ErrV>(m2@),
            Err(e) => replace_at_spec(
                reg@,
                fs@,
                str_views(roots@),
                m@,
                str_views(segs@).skip(idx as int),
                multiple,
                target_tid as int,
                crate::strutil::opt_view(*ppath),
                str_views(pvis@),
                str_views(pabs@),
                fuel as nat,
            ) == Err::<Seq<(Seq<char>, Val)>, ErrV>(e@),
        },
    decreases fuel, 2int, segs@.len() - idx, 0int,
{
    let ghost segsv = str_views(segs@).skip(idx as int);
    let mut m = m;
    if idx >= segs.len() {
        proof {
            assert(segsv.len() == 0);
        }
        return Err(ConfigError::PathError { detail: empty_path_text_str().to_owned() });
    }
    let k = &segs[idx];
    proof {
        assert(segsv[0] == k@);
    }
    if idx + 1 == segs.len() {
        // Terminal key.
        proof {
            assert(segsv.len() == 1);
        }
        let found = match m.get(k.as_str()) {
            None => {
                return Ok(m);
            },
            Some(v) => v.duplicate(),
        };
        if multiple {
            match found {
                YcdValue::Dict(sub) => {
                    let sub2 = match subload_dict(
                        reg,
                        fs,
                        roots,
                        &sub,
                        target_tid,
                        ppath,
                        pvis,
                        pabs,
                        fuel,
                    ) {
                        Ok(s2) => s2,
                        Err(e) => {
                            return Err(e);
                        },
                    };
                    m.insert(k.clone(), YcdValue::Dict(sub2));
                    Ok(m)
                },
                YcdValue::List(l) => {
                    let l2 = match subload_list(
                        reg,
                        fs,
                        roots,
                        &l,
                        target_tid,
                        ppath,
                        pvis,
                        pabs,
                        fuel,
                    ) {
                        Ok(l2) => l2,
                        Err(e) => {
                            return Err(e);
                        },
                    };
                    m.insert(k.clone(), YcdValue::List(l2));
                    Ok(m)
                },
                YcdValue::Str(s) => {
                    if crate::strutil::str_eq(s.as_str(), remove_marker_str()) {
                        Ok(m)
                    } else {
                        Err(ConfigError::PathError { detail: invalid_multi_text_str().to_owned() })
                    }
                },
                _ => Err(ConfigError::PathError { detail: invalid_multi_text_str().to_owned() }),
            }
        } else {
            let lv = match load_subdocument(
                reg,
                fs,
                roots,
                found,
                target_tid,
                ppath,
                pvis,
                pabs,
                fuel,
            ) {
                Ok(lv) => lv,
                Err(e) => {
                    return Err(e);
                },
            };
            m.insert(k.clone(), lv);
            Ok(m)
        }
    } else {
        // Intermediate key: descend into a nested mapping.
        proof {
            assert(segsv.drop_first() =~= str_views(segs@).skip(idx as int + 1));
        }
        let sub = match m.get(k.as_str()) {
            Some(YcdValue::Dict(d)) => d.duplicate(),
            _ => {
                return Err(
                    ConfigError::PathError { detail: expected_mapping_text_str().to_owned() },
                );
            },
        };
        let sub2 = match replace_at(
            reg,
            fs,
            roots,
            sub,
            segs,
            idx + 1,
            multiple,
            target_tid,
            ppath,
            pvis,
            pabs,
            fuel,
        ) {
            Ok(s2) => s2,
            Err(e) => {
                return Err(e);
            },
        };
        m.insert(k.clone(), YcdValue::Dict(sub2));
        Ok(m)
    }
}

/// Apply every sub-document declaration of a type to a content map, in
/// declaration order, as executable code.
fn apply_subdoc_specs(
    reg: &TypeRegistry,
    fs: &FileSet,
    roots: &Vec<String>,
    content: Dict,
    specs: &Vec<crate::registry::SubdocSpec>,
    ppath: &Option<String>,
    pvis: &Vec<String>,
    pabs: &Vec<String>,
    fuel: u64,
) -> (r: Result<Dict, ConfigError>)
    ensures
        match r {
            Ok(c2) => apply_specs_spec(
                reg@,
                fs@,
                str_views(roots@),
                content@,
                crate::registry::view_subdocs(specs@),
                crate::strutil::opt_view(*ppath),
                str_views(pvis@),
                str_views(pabs@),
                fuel as nat,
            ) == Ok::<Seq<(Seq<char>, Val)>, ErrV>(c2@),
            Err(e) => apply_specs_spec(
                reg@,
                fs@,
                str_views(roots@),
                content@,
                crate::registry::view_subdocs(specs@),
                crate::strutil::opt_view(*ppath),
                str_views(pvis@),
                str_views(pabs@),
                fuel as nat,
            ) == Err::<Seq<(Seq<char>, Val)>, ErrV>(e@),
        },
    decreases fuel, 3int, specs@.len(), 0int,
{
    let ghost regv = reg@;
    let ghost fsv = fs@;
    let ghost rootsv = str_views(roots@);
    let ghost pp = crate::strutil::opt_view(*ppath);
    let ghost pv = str_views(pvis@);
    let ghost pa = str_views(pabs@);
    let ghost specsv = crate::registry::view_subdocs(specs@);
    let ghost c0 = content@;
    let mut acc = content;
    let n = specs.len();
    let mut i: usize = 0;
    proof {
        assert(specsv.skip(0) =~= specsv);
    }
    while i < n
        invariant
            n == specs@.len(),
            i <= n,
            regv == reg@,
            fsv == fs@,
            rootsv == str_views(roots@),
            pp == crate::strutil::opt_view(*ppath),
            pv == str_views(pvis@),
            pa == str_views(pabs@),
            specsv == crate::registry::view_subdocs(specs@),
            specsv.len() == n,
            c0 == content@,
            forall|j: int|
                0 <= j < n ==> #[trigger] specsv[j] == (
                    specs@[j].path_spec@,
                    specs@[j].type_id as int,
                ),
            apply_specs_spec(regv, fsv, rootsv, acc@, specsv.skip(i as int), pp, pv, pa,
                fuel as nat) == apply_specs_spec(regv, fsv, rootsv, c0, specsv, pp, pv, pa,
                fuel as nat),
        decreases n - i,
    {
        let ghost rem = specsv.skip(i as int);
        proof {
            assert(rem[0] == specsv[i as int]);
            assert(rem.drop_first() =~= specsv.skip(i as int + 1));
        }
        let (multiple, segs) = parse_path_spec(specs[i].path_spec.as_str());
        let ghost accv = acc@;
        proof {
            assert(str_views(segs@).skip(0) =~= str_views(segs@));
        }
        let acc2 = match replace_at(
            reg,
            fs,
            roots,
            acc,
            &segs,
            0,
            multiple,
            specs[i].type_id,
            ppath,
            pvis,
            pabs,
            fuel,
        ) {
            Ok(a2) => a2,
            Err(e) => {
                proof {
                    assert(apply_specs_spec(regv, fsv, rootsv, accv, specsv.skip(i as int), pp,
                        pv, pa, fuel as nat) is Err);
                    assert(apply_specs_spec(regv, fsv, rootsv, accv, specsv.skip(i as int), pp,
                        pv, pa, fuel as nat) == apply_specs_spec(regv, fsv, rootsv, c0, specsv,
                        pp, pv, pa, fuel as nat));
                }
                return Err(e);
            },
        };
        acc = acc2;
        i = i + 1;
    }
    proof {
        assert(specsv.skip(n as int) =~= Seq::<(Seq<char>, int)>::empty());
    }
    Ok(acc)
}

/// The full resolution pipeline of one document: reject frozen documents,
/// resolve the `$ref` chain, materialize typed sub-documents, then apply
/// the removal-marker cleanup.
pub fn resolve_and_merge_references(
    reg: &TypeRegistry,
    fs: &FileSet,
    roots: &Vec<String>,
    doc: Document,
) -> (r: Result<Document, ConfigError>)
    ensures
        match r {
            Ok(d) => full_resolve_spec(reg@, fs@, str_views(roots@), doc@, RESOLVE_FUEL as nat)
                == Ok::<DocV, ErrV>(d@),
            Err(e) => full_resolve_spec(reg@, fs@, str_views(roots@), doc@, RESOLVE_FUEL as nat)
                == Err::<DocV, ErrV>(e@),
        },
{
    full_resolve_go(reg, fs, roots, doc, RESOLVE_FUEL)
}

fn full_resolve_go(
    reg: &TypeRegistry,
    fs: &FileSet,
    roots: &Vec<String>,
    doc: Document,
    fuel: u64,
) -> (r: Result<Document, ConfigError>)
    ensures
        match r {
            Ok(d) => full_resolve_spec(reg@, fs@, str_views(roots@), doc@, fuel as nat) == Ok::<
                DocV,
                ErrV,
            >(d@),
            Err(e) => full_resolve_spec(reg@, fs@, str_views(roots@), doc@, fuel as nat)
                == Err::<DocV, ErrV>(e@),
        },
    decreases fuel, 4int, 0int, 0int,
{
    if doc.frozen.is_some() {
        return Err(ConfigError::AlreadyFrozen);
    }
    let r1 = match resolve_go(reg, fs, roots, doc, fuel) {
        Ok(d) => d,
        Err(e) => {
            return Err(e);
        },
    };
    let specs = match reg.subdocuments(r1.type_id) {
        Ok(s) => s,
        Err(e) => {
            return Err(e);
        },
    };
    let c2 = match apply_subdoc_specs(
        reg,
        fs,
        roots,
        r1.content,
        specs,
        &r1.path,
        &r1.visited_paths,
        &r1.absolute_paths,
        fuel,
    ) {
        Ok(c) => c,
        Err(e) => {
            return Err(e);
        },
    };
    let c3 = match delete_dict(&c2) {
        Ok(c) => c,
        Err(_) => {
            return Err(ConfigError::InvalidRemove);
        },
    };
    let out = Document {
        content: c3,
        path: r1.path,
        visited_paths: r1.visited_paths,
        absolute_paths: r1.absolute_paths,
        type_id: r1.type_id,
        frozen: r1.frozen,
    };
    proof {
        assert(out@ =~~= full_resolve_spec(
            reg@,
            fs@,
            str_views(roots@),
            doc@,
            fuel as nat,
        )->Ok_0);
    }
    Ok(out)
}

/// The full resolution pipeline of one document: reject frozen documents,
/// resolve the `$ref` chain, materialize typed sub-documents, then apply
/// the removal-marker cleanup.
pub open spec fn full_resolve_spec(
    regv: Seq<TypeV>,
    fsv: Seq<(Seq<char>, FileV)>,
    rootsv: Seq<Seq<char>>,
    doc: DocV,
    fuel: nat,
) -> Result<DocV, ErrV>
    decreases fuel, 4int, 0int, 0int,
{
    if doc.frozen is Some {
        Err(ErrV::AlreadyFrozen)
    } else {
        match resolve_spec(regv, fsv, rootsv, doc, fuel) {
            Err(e) => Err(e),
            Ok(r1) => {
                if !(0 <= r1.type_id < regv.len()) {
                    Err(ErrV::UnknownType { type_id: r1.type_id })
                } else {
                    match apply_specs_spec(
                        regv,
                        fsv,
                        rootsv,
                        r1.content,
                        regv[r1.type_id].subdocs,
                        r1.path,
                        r1.visited,
                        r1.abs_paths,
                        fuel,
                    ) {
                        Err(e) => Err(e),
                        Ok(c2) => match delete_map(c2) {
                            Err(_) => Err(ErrV::InvalidRemove),
                            Ok(c3) => Ok(DocV { content: c3, ..r1 }),
                        },
                    }
                }
            },
        }
    }
}

} // verus!