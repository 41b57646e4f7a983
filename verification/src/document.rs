//! The document lifecycle: construction from files or maps, freezing and
//! the scoped internal-access window, keyed access, and export back to a
//! plain value tree.

use vstd::prelude::*;

use crate::errors::{ConfigError, ErrV};
use crate::loader::{fs_find, FileSet, FileV, LoadedFile};
use crate::merger::{merge_docv, merge_documents};
use crate::registry::TypeRegistry;
use crate::strutil::str_views;
use crate::value::{
    has_key, insert_entry, lookup, new_doc_spec, remove_entry, view_list, DocV,
    Dict, Document, Val, YcdValue,
};

verus! {

/// Freezing a node: every nested document's content is frozen recursively
/// and snapshotted into its `frozen` field.
pub open spec fn freeze_val(v: Val) -> Val
    decreases v, 1int,
{
    match v {
        Val::Doc(d) => Val::Doc(
            DocV { content: freeze_map(d.content), frozen: Some(freeze_map(d.content)), ..d },
        ),
        Val::Dict(m) => Val::Dict(freeze_map(m)),
        Val::List(l) => Val::List(freeze_list(l)),
        _ => v,
    }
}

pub open spec fn freeze_map(m: Seq<(Seq<char>, Val)>) -> Seq<(Seq<char>, Val)>
    decreases m, 0int,
{
    if m.len() == 0 {
        Seq::empty()
    } else {
        freeze_map(m.drop_last()).push((m.last().0, freeze_val(m.last().1)))
    }
}

pub open spec fn freeze_list(l: Seq<Val>) -> Seq<Val>
    decreases l, 0int,
{
    if l.len() == 0 {
        Seq::empty()
    } else {
        freeze_list(l.drop_last()).push(freeze_val(l.last()))
    }
}

/// What freezing a document yields.
pub open spec fn freeze_docv(d: DocV) -> DocV {
    DocV { content: freeze_map(d.content), frozen: Some(freeze_map(d.content)), ..d }
}

/// Unfreezing a node: every nested document's content is replaced by its
/// frozen snapshot (when one exists) and its `frozen` field cleared,
/// recursively.
pub open spec fn unfreeze_val(v: Val) -> Val
    decreases v, 1int,
{
    match v {
        Val::Doc(d) => {
            let base = match d.frozen {
                Some(f) => f,
                None => d.content,
            };
            Val::Doc(DocV { content: unfreeze_map(base), frozen: None, ..d })
        },
        Val::Dict(m) => Val::Dict(unfreeze_map(m)),
        Val::List(l) => Val::List(unfreeze_list(l)),
        _ => v,
    }
}

pub open spec fn unfreeze_map(m: Seq<(Seq<char>, Val)>) -> Seq<(Seq<char>, Val)>
    decreases m, 0int,
{
    if m.len() == 0 {
        Seq::empty()
    } else {
        unfreeze_map(m.drop_last()).push((m.last().0, unfreeze_val(m.last().1)))
    }
}

pub open spec fn unfreeze_list(l: Seq<Val>) -> Seq<Val>
    decreases l, 0int,
{
    if l.len() == 0 {
        Seq::empty()
    } else {
        unfreeze_list(l.drop_last()).push(unfreeze_val(l.last()))
    }
}

/// What synchronizing a document out of its frozen state yields.
pub open spec fn unfreeze_docv(d: DocV) -> DocV {
    let base = match d.frozen {
        Some(f) => f,
        None => d.content,
    };
    DocV { content: unfreeze_map(base), frozen: None, ..d }
}

/// Export of a node to a plain value tree: every nested document is
/// replaced by its content, recursively.
pub open spec fn to_plain_val(v: Val) -> Val
    decreases v, 1int,
{
    match v {
        Val::Doc(d) => Val::Dict(to_plain_map(d.content)),
        Val::Dict(m) => Val::Dict(to_plain_map(m)),
        Val::List(l) => Val::List(to_plain_list(l)),
        _ => v,
    }
}

pub open spec fn to_plain_map(m: Seq<(Seq<char>, Val)>) -> Seq<(Seq<char>, Val)>
    decreases m, 0int,
{
    if m.len() == 0 {
        Seq::empty()
    } else {
        to_plain_map(m.drop_last()).push((m.last().0, to_plain_val(m.last().1)))
    }
}

pub open spec fn to_plain_list(l: Seq<Val>) -> Seq<Val>
    decreases l, 0int,
{
    if l.len() == 0 {
        Seq::empty()
    } else {
        to_plain_list(l.drop_last()).push(to_plain_val(l.last()))
    }
}

/// Freeze a value, as executable code.
fn freeze_value(v: &YcdValue) -> (r: YcdValue)
    ensures
        r@ == freeze_val(v@),
    decreases *v, 1int,
{
    match v {
        YcdValue::Doc(b) => {
            let c = freeze_dict(&b.content);
            let snapshot = c.duplicate();
            let r = YcdValue::Doc(
                Box::new(
                    Document {
                        content: c,
                        path: match &b.path {
                            Some(p) => Some(p.clone()),
                            None => None,
                        },
                        visited_paths: crate::value::duplicate_strings(&b.visited_paths),
                        absolute_paths: crate::value::duplicate_strings(&b.absolute_paths),
                        type_id: b.type_id,
                        frozen: Some(snapshot),
                    },
                ),
            );
            proof {
                assert(r@ =~~= freeze_val(v@));
            }
            r
        },
        YcdValue::Dict(d) => YcdValue::Dict(freeze_dict(d)),
        YcdValue::List(l) => {
            let ghost lvw = view_list(l@);
            proof {
                crate::value::lemma_view_list(l@);
                assert(lvw.take(0) =~= Seq::<Val>::empty());
            }
            let mut out: Vec<YcdValue> = Vec::new();
            let n = l.len();
            let mut i: usize = 0;
            proof {
                assert(view_list(out@) =~= Seq::<Val>::empty());
            }
            while i < n
                invariant
                    n == l@.len(),
                    i <= n,
                    lvw == view_list(l@),
                    v@ == Val::List(lvw),
                    lvw.len() == n,
                    forall|j: int| 0 <= j < n ==> #[trigger] lvw[j] == l@[j]@,
                    view_list(out@) =~= freeze_list(lvw.take(i as int)),
                    forall|j: int| i <= j < n ==> decreases_to!(*v => l@[j]),
                decreases n - i,
            {
                proof {
                    assert(lvw.take(i + 1).drop_last() =~= lvw.take(i as int));
                    assert(lvw.take(i + 1).last() == lvw[i as int]);
                }
                let fv = freeze_value(&l[i]);
                let ghost old_out = view_list(out@);
                let ghost old_vec = out@;
                out.push(fv);
                proof {
                    crate::value::lemma_view_list(out@);
                    crate::value::lemma_view_list(old_vec);
                    assert(out@.drop_last() =~= old_vec);
                    assert(view_list(out@) =~= old_out.push(out@.last()@));
                }
                i = i + 1;
            }
            proof {
                assert(lvw.take(n as int) =~= lvw);
            }
            YcdValue::List(out)
        },
        other => other.duplicate(),
    }
}

/// Freeze every value of a dictionary, as executable code.
fn freeze_dict(d: &Dict) -> (r: Dict)
    ensures
        r@ =~= freeze_map(d@),
    decreases *d, 0int,
{
    let ghost mv = d@;
    proof {
        crate::value::lemma_view_entries(d.entries@);
        assert(mv.take(0) =~= Seq::<(Seq<char>, Val)>::empty());
    }
    let mut out = Dict::new();
    let n = d.entries.len();
    let mut i: usize = 0;
    while i < n
        invariant
            n == d.entries@.len(),
            i <= n,
            mv == d@,
            mv.len() == n,
            forall|j: int|
                0 <= j < n ==> #[trigger] mv[j] == (d.entries@[j].0@, d.entries@[j].1@),
            out@ =~= freeze_map(mv.take(i as int)),
            forall|j: int| i <= j < n ==> decreases_to!(*d => d.entries@[j].1),
        decreases n - i,
    {
        proof {
            assert(mv.take(i + 1).drop_last() =~= mv.take(i as int));
            assert(mv.take(i + 1).last() == mv[i as int]);
        }
        let fv = freeze_value(&d.entries[i].1);
        let ghost old_out = out@;
        let ghost old_vec = out.entries@;
        out.entries.push((d.entries[i].0.clone(), fv));
        proof {
            crate::value::lemma_view_entries(out.entries@);
            crate::value::lemma_view_entries(old_vec);
            assert(out.entries@.drop_last() =~= old_vec);
            assert(out@ =~= old_out.push((mv[i as int].0, out.entries@.last().1@)));
        }
        i = i + 1;
    }
    proof {
        assert(mv.take(n as int) =~= mv);
    }
    out
}

/// Unfreeze a value, as executable code.
fn unfreeze_value(v: &YcdValue) -> (r: YcdValue)
    ensures
        r@ == unfreeze_val(v@),
    decreases *v, 1int,
{
    match v {
        YcdValue::Doc(b) => {
            let base: &Dict = match &b.frozen {
                Some(f) => f,
                None => &b.content,
            };
            let c = unfreeze_dict(base);
            let r = YcdValue::Doc(
                Box::new(
                    Document {
                        content: c,
                        path: match &b.path {
                            Some(p) => Some(p.clone()),
                            None => None,
                        },
                        visited_paths: crate::value::duplicate_strings(&b.visited_paths),
                        absolute_paths: crate::value::duplicate_strings(&b.absolute_paths),
                        type_id: b.type_id,
                        frozen: None,
                    },
                ),
            );
            proof {
                assert(r@ =~~= unfreeze_val(v@));
            }
            r
        },
        YcdValue::Dict(d) => YcdValue::Dict(unfreeze_dict(d)),
        YcdValue::List(l) => {
            let ghost lvw = view_list(l@);
            proof {
                crate::value::lemma_view_list(l@);
                assert(lvw.take(0) =~= Seq::<Val>::empty());
            }
            let mut out: Vec<YcdValue> = Vec::new();
            let n = l.len();
            let mut i: usize = 0;
            proof {
                assert(view_list(out@) =~= Seq::<Val>::empty());
            }
            while i < n
                invariant
                    n == l@.len(),
                    i <= n,
                    lvw == view_list(l@),
                    v@ == Val::List(lvw),
                    lvw.len() == n,
                    forall|j: int| 0 <= j < n ==> #[trigger] lvw[j] == l@[j]@,
                    view_list(out@) =~= unfreeze_list(lvw.take(i as int)),
                    forall|j: int| i <= j < n ==> decreases_to!(*v => l@[j]),
                decreases n - i,
            {
                proof {
                    assert(lvw.take(i + 1).drop_last() =~= lvw.take(i as int));
                    assert(lvw.take(i + 1).last() == lvw[i as int]);
                }
                let fv = unfreeze_value(&l[i]);
                let ghost old_out = view_list(out@);
                let ghost old_vec = out@;
                out.push(fv);
                proof {
                    crate::value::lemma_view_list(out@);
                    crate::value::lemma_view_list(old_vec);
                    assert(out@.drop_last() =~= old_vec);
                    assert(view_list(out@) =~= old_out.push(out@.last()@));
                }
                i = i + 1;
            }
            proof {
                assert(lvw.take(n as int) =~= lvw);
            }
            YcdValue::List(out)
        },
        other => other.duplicate(),
    }
}

/// Unfreeze every value of a dictionary, as executable code.
fn unfreeze_dict(d: &Dict) -> (r: Dict)
    ensures
        r@ =~= unfreeze_map(d@),
    decreases *d, 0int,
{
    let ghost mv = d@;
    proof {
        crate::value::lemma_view_entries(d.entries@);
        assert(mv.take(0) =~= Seq::<(Seq<char>, Val)>::empty());
    }
    let mut out = Dict::new();
    let n = d.entries.len();
    let mut i: usize = 0;
    while i < n
        invariant
            n == d.entries@.len(),
            i <= n,
            mv == d@,
            mv.len() == n,
            forall|j: int|
                0 <= j < n ==> #[trigger] mv[j] == (d.entries@[j].0@, d.entries@[j].1@),
            out@ =~= unfreeze_map(mv.take(i as int)),
            forall|j: int| i <= j < n ==> decreases_to!(*d => d.entries@[j].1),
        decreases n - i,
    {
        proof {
            assert(mv.take(i + 1).drop_last() =~= mv.take(i as int));
            assert(mv.take(i + 1).last() == mv[i as int]);
        }
        let fv = unfreeze_value(&d.entries[i].1);
        let ghost old_out = out@;
        let ghost old_vec = out.entries@;
        out.entries.push((d.entries[i].0.clone(), fv));
        proof {
            crate::value::lemma_view_entries(out.entries@);
            crate::value::lemma_view_entries(old_vec);
            assert(out.entries@.drop_last() =~= old_vec);
            assert(out@ =~= old_out.push((mv[i as int].0, out.entries@.last().1@)));
        }
        i = i + 1;
    }
    proof {
        assert(mv.take(n as int) =~= mv);
    }
    out
}

impl Document {
    /// Freeze the document: take an immutable snapshot of its content,
    /// transitively for every nested document.  A frozen document rejects
    /// the resolution, merging and templating API until unfrozen.
    pub fn freeze(self) -> (r: Document)
        ensures
            r@ == freeze_docv(self@),
    {
        let ghost gs = self;
        let c = freeze_dict(&self.content);
        let snapshot = c.duplicate();
        let r = Document {
            content: c,
            path: self.path,
            visited_paths: self.visited_paths,
            absolute_paths: self.absolute_paths,
            type_id: self.type_id,
            frozen: Some(snapshot),
        };
        proof {
            assert(r@ =~~= freeze_docv(gs@));
        }
        r
    }

    /// Whether the document is frozen.
    pub fn is_frozen(&self) -> (r: bool)
        ensures
            r == (self@.frozen is Some),
    {
        self.frozen.is_some()
    }

    /// The frozen snapshot.  The document must be frozen first.
    pub fn doc(&self) -> (r: Result<&Dict, ConfigError>)
        ensures
            match r {
                Ok(d) => self@.frozen == Some(d@),
                Err(e) => self@.frozen is None && e@ == ErrV::NotFrozen,
            },
    {
        match &self.frozen {
            Some(f) => Ok(f),
            None => Err(ConfigError::NotFrozen),
        }
    }

    /// Synchronize out of the frozen state: the (possibly edited) snapshot
    /// becomes the content again and the document is writable, transitively
    /// for every nested document.
    pub fn unfreeze_sync(self) -> (r: Document)
        ensures
            r@ == unfreeze_docv(self@),
    {
        let ghost gs = self;
        let base: Dict = match self.frozen {
            Some(f) => f,
            None => self.content,
        };
        let c = unfreeze_dict(&base);
        let r = Document {
            content: c,
            path: self.path,
            visited_paths: self.visited_paths,
            absolute_paths: self.absolute_paths,
            type_id: self.type_id,
            frozen: None,
        };
        proof {
            assert(r@ =~~= unfreeze_docv(gs@));
        }
        r
    }

    /// A copy of the value at `key`: from the frozen snapshot when frozen,
    /// else from the internal content.
    pub fn internal_get(&self, key: &str) -> (r: Option<YcdValue>)
        ensures
            match r {
                Some(v) => lookup(active_map(self@), key@) == Some(v@),
                None => lookup(active_map(self@), key@) is None,
            },
    {
        let source: &Dict = match &self.frozen {
            Some(f) => f,
            None => &self.content,
        };
        match source.get(key) {
            Some(v) => Some(v.duplicate()),
            None => None,
        }
    }

    /// Bind `key` in the frozen snapshot when frozen, else in the content.
    pub fn internal_set(&mut self, key: String, val: YcdValue)
        ensures
            active_map(final(self)@) =~= insert_entry(active_map(old(self)@), key@, val@),
            final(self)@.path == old(self)@.path,
            final(self)@.visited == old(self)@.visited,
            final(self)@.abs_paths == old(self)@.abs_paths,
            final(self)@.type_id == old(self)@.type_id,
            (final(self)@.frozen is Some) == (old(self)@.frozen is Some),
            old(self)@.frozen is Some ==> final(self)@.content == old(self)@.content,
    {
        match &mut self.frozen {
            Some(f) => {
                f.insert(key, val);
            },
            None => {
                self.content.insert(key, val);
            },
        }
    }

    /// Whether `key` is bound in the active map (snapshot when frozen).
    pub fn internal_contains(&self, key: &str) -> (r: bool)
        ensures
            r == has_key(active_map(self@), key@),
    {
        let source: &Dict = match &self.frozen {
            Some(f) => f,
            None => &self.content,
        };
        source.contains_key(key)
    }

    /// Drop `key` from the frozen snapshot when frozen, else from the
    /// content.
    pub fn internal_delete(&mut self, key: &str)
        ensures
            active_map(final(self)@) =~= remove_entry(active_map(old(self)@), key@),
            final(self)@.path == old(self)@.path,
            final(self)@.visited == old(self)@.visited,
            final(self)@.abs_paths == old(self)@.abs_paths,
            final(self)@.type_id == old(self)@.type_id,
            (final(self)@.frozen is Some) == (old(self)@.frozen is Some),
            old(self)@.frozen is Some ==> final(self)@.content == old(self)@.content,
    {
        match &mut self.frozen {
            Some(f) => {
                f.remove_key(key);
            },
            None => {
                self.content.remove_key(key);
            },
        }
    }

    /// A short description of the document for diagnostics: its type's
    /// header name.
    pub fn error_str(&self, reg: &TypeRegistry) -> (r: Result<String, ConfigError>)
        ensures
            match r {
                Ok(s) => self@.type_id < reg@.len() && s@ == "type "@ + reg@[
                    self@.type_id
                ].header,
                Err(e) => self@.type_id >= reg@.len() && e@ == (ErrV::UnknownType {
                    type_id: self@.type_id,
                }),
            },
    {
        match reg.header(self.type_id) {
            Ok(h) => Ok(crate::strutil::concat_str("type ", h.as_str())),
            Err(e) => Err(e),
        }
    }

    /// Export the document as a plain header-keyed value tree: nested
    /// documents become their content maps.
    pub fn to_dict(&self, reg: &TypeRegistry) -> (r: Result<YcdValue, ConfigError>)
        ensures
            match r {
                Ok(v) => self@.type_id < reg@.len() && v@ == Val::Dict(
                    Seq::empty().push(
                        (reg@[self@.type_id].header, Val::Dict(to_plain_map(active_map(self@)))),
                    ),
                ),
                Err(e) => self@.type_id >= reg@.len() && e@ == (ErrV::UnknownType {
                    type_id: self@.type_id,
                }),
            },
    {
        let header = match reg.header(self.type_id) {
            Ok(h) => h.clone(),
            Err(e) => {
                return Err(e);
            },
        };
        let source: &Dict = match &self.frozen {
            Some(f) => f,
            None => &self.content,
        };
        let plain = to_plain_dict(source);
        let mut out = Dict::new();
        out.insert(header, YcdValue::Dict(plain));
        proof {
            assert(out@ =~= Seq::empty().push(
                (reg@[self@.type_id].header, Val::Dict(to_plain_map(active_map(self@)))),
            ));
        }
        Ok(YcdValue::Dict(out))
    }
}

/// The map a frozen document serves reads from: the snapshot when frozen,
/// the content otherwise.
pub open spec fn active_map(d: DocV) -> Seq<(Seq<char>, Val)> {
    match d.frozen {
        Some(f) => f,
        None => d.content,
    }
}

/// Export a dictionary with every nested document replaced by its content,
/// as executable code.
pub fn to_plain_dict(d: &Dict) -> (r: Dict)
    ensures
        r@ =~= to_plain_map(d@),
    decreases *d, 0int,
{
    let ghost mv = d@;
    proof {
        crate::value::lemma_view_entries(d.entries@);
        assert(mv.take(0) =~= Seq::<(Seq<char>, Val)>::empty());
    }
    let mut out = Dict::new();
    let n = d.entries.len();
    let mut i: usize = 0;
    while i < n
        invariant
            n == d.entries@.len(),
            i <= n,
            mv == d@,
            mv.len() == n,
            forall|j: int|
                0 <= j < n ==> #[trigger] mv[j] == (d.entries@[j].0@, d.entries@[j].1@),
            out@ =~= to_plain_map(mv.take(i as int)),
            forall|j: int| i <= j < n ==> decreases_to!(*d => d.entries@[j].1),
        decreases n - i,
    {
        proof {
            assert(mv.take(i + 1).drop_last() =~= mv.take(i as int));
            assert(mv.take(i + 1).last() == mv[i as int]);
        }
        let pv = to_plain_value(&d.entries[i].1);
        let ghost old_out = out@;
        let ghost old_vec = out.entries@;
        out.entries.push((d.entries[i].0.clone(), pv));
        proof {
            crate::value::lemma_view_entries(out.entries@);
            crate::value::lemma_view_entries(old_vec);
            assert(out.entries@.drop_last() =~= old_vec);
            assert(out@ =~= old_out.push((mv[i as int].0, out.entries@.last().1@)));
        }
        i = i + 1;
    }
    proof {
        assert(mv.take(n as int) =~= mv);
    }
    out
}

/// Export one node with every nested document replaced by its content, as
/// executable code.
pub fn to_plain_value(v: &YcdValue) -> (r: YcdValue)
    ensures
        r@ == to_plain_val(v@),
    decreases *v, 1int,
{
    match v {
        YcdValue::Doc(b) => {
            let r = YcdValue::Dict(to_plain_dict(&b.content));
            proof {
                assert(r@ =~~= to_plain_val(v@));
            }
            r
        },
        YcdValue::Dict(d) => YcdValue::Dict(to_plain_dict(d)),
        YcdValue::List(l) => {
            let ghost lvw = view_list(l@);
            proof {
                crate::value::lemma_view_list(l@);
                assert(lvw.take(0) =~= Seq::<Val>::empty());
            }
            let mut out: Vec<YcdValue> = Vec::new();
            let n = l.len();
            let mut i: usize = 0;
            proof {
                assert(view_list(out@) =~= Seq::<Val>::empty());
            }
            while i < n
                invariant
                    n == l@.len(),
                    i <= n,
                    lvw == view_list(l@),
                    v@ == Val::List(lvw),
                    lvw.len() == n,
                    forall|j: int| 0 <= j < n ==> #[trigger] lvw[j] == l@[j]@,
                    view_list(out@) =~= to_plain_list(lvw.take(i as int)),
                    forall|j: int| i <= j < n ==> decreases_to!(*v => l@[j]),
                decreases n - i,
            {
                proof {
                    assert(lvw.take(i + 1).drop_last() =~= lvw.take(i as int));
                    assert(lvw.take(i + 1).last() == lvw[i as int]);
                }
                let pv = to_plain_value(&l[i]);
                let ghost old_out = view_list(out@);
                let ghost old_vec = out@;
                out.push(pv);
                proof {
                    crate::value::lemma_view_list(out@);
                    crate::value::lemma_view_list(old_vec);
                    assert(out@.drop_last() =~= old_vec);
                    assert(view_list(out@) =~= old_out.push(out@.last()@));
                }
                i = i + 1;
            }
            proof {
                assert(lvw.take(n as int) =~= lvw);
            }
            YcdValue::List(out)
        },
        other => other.duplicate(),
    }
}

/// What constructing a document from a file in the set yields: the file
/// must be present and readable, its top level must carry the type's
/// header key, and the header's value is the new document's body.
pub open spec fn from_yaml_spec(
    regv: Seq<crate::registry::TypeV>,
    fsv: Seq<(Seq<char>, FileV)>,
    type_id: int,
    path: Seq<char>,
) -> Result<DocV, ErrV> {
    if !(0 <= type_id < regv.len()) {
        Err(ErrV::UnknownType { type_id })
    } else {
        match fs_find(fsv, path) {
            None => Err(ErrV::InvalidDocument { path, cause: missing_file_text() }),
            Some(FileV::Unreadable(c)) => Err(ErrV::InvalidDocument { path, cause: c }),
            Some(FileV::Parsed(m)) => {
                let h = regv[type_id].header;
                match lookup(m, h) {
                    None => Err(ErrV::InvalidHeader { expected: h, path }),
                    Some(Val::Dict(content)) => new_doc_spec(
                        content,
                        None,
                        Seq::empty(),
                        seq![path],
                        type_id,
                    ),
                    Some(_) => Err(ErrV::InvalidDocument { path, cause: not_mapping_text() }),
                }
            },
        }
    }
}

/// The cause text when a path is not in the file set.
pub open spec fn missing_file_text() -> Seq<char> {
    "the path is not in the file set"@
}

pub fn missing_file_text_str() -> (r: &'static str)
    ensures
        r@ == missing_file_text(),
{
    "the path is not in the file set"
}

/// The cause text when a document body is not a mapping.
pub open spec fn not_mapping_text() -> Seq<char> {
    "the document body is not a mapping"@
}

pub fn not_mapping_text_str() -> (r: &'static str)
    ensures
        r@ == not_mapping_text(),
{
    "the document body is not a mapping"
}

/// Construct a document of the given type from a file of the set.  The
/// file's top level must be a single mapping carrying the type's header
/// key; the header's value becomes the document body.
pub fn from_yaml(
    reg: &TypeRegistry,
    fs: &FileSet,
    type_id: usize,
    path_to_yaml: &str,
) -> (r: Result<Document, ConfigError>)
    ensures
        match r {
            Ok(d) => from_yaml_spec(reg@, fs@, type_id as int, path_to_yaml@) == Ok::<
                DocV,
                ErrV,
            >(d@),
            Err(e) => from_yaml_spec(reg@, fs@, type_id as int, path_to_yaml@) == Err::<
                DocV,
                ErrV,
            >(e@),
        },
{
    let header = match reg.header(type_id) {
        Ok(h) => h.clone(),
        Err(e) => {
            return Err(e);
        },
    };
    let m = match fs.find(path_to_yaml) {
        None => {
            return Err(
                ConfigError::InvalidDocument {
                    path: path_to_yaml.to_owned(),
                    cause: missing_file_text_str().to_owned(),
                },
            );
        },
        Some(LoadedFile::Unreadable(c)) => {
            return Err(
                ConfigError::InvalidDocument { path: path_to_yaml.to_owned(), cause: c.clone() },
            );
        },
        Some(LoadedFile::Parsed(m)) => m,
    };
    match m.get(header.as_str()) {
        None => Err(
            ConfigError::InvalidHeader { expected: header, path: path_to_yaml.to_owned() },
        ),
        Some(YcdValue::Dict(content)) => {
            let c = content.duplicate();
            let mut abs: Vec<String> = Vec::new();
            abs.push(path_to_yaml.to_owned());
            let visited: Vec<String> = Vec::new();
            proof {
                assert(str_views(abs@) =~= seq![path_to_yaml@]);
                assert(str_views(visited@) =~= Seq::<Seq<char>>::empty());
            }
            Document::new(c, None, visited, abs, type_id)
        },
        Some(_) => Err(
            ConfigError::InvalidDocument {
                path: path_to_yaml.to_owned(),
                cause: not_mapping_text_str().to_owned(),
            },
        ),
    }
}

/// Construct a document of the given type from an in-memory mapping.
pub fn from_dict(content: Dict, type_id: usize) -> (r: Document)
    ensures
        r@ == (DocV {
            content: content@,
            path: None,
            visited: Seq::empty(),
            abs_paths: Seq::empty(),
            type_id: type_id as int,
            frozen: None,
        }),
{
    let visited: Vec<String> = Vec::new();
    let abs: Vec<String> = Vec::new();
    proof {
        assert(str_views(visited@) =~= Seq::<Seq<char>>::empty());
        assert(str_views(abs@) =~= Seq::<Seq<char>>::empty());
    }
    let r = Document {
        content,
        path: None,
        visited_paths: visited,
        absolute_paths: abs,
        type_id,
        frozen: None,
    };
    proof {
        assert(r@ =~~= (DocV {
            content: r.content@,
            path: None,
            visited: Seq::empty(),
            abs_paths: Seq::empty(),
            type_id: type_id as int,
            frozen: None,
        }));
    }
    r
}

/// What loading several files into one document yields: the documents are
/// merged left to right, each later file taking the merge-target role, as
/// if the rightmost document `$ref`'ed the one left of it.
pub open spec fn load_multiple_spec(
    regv: Seq<crate::registry::TypeV>,
    fsv: Seq<(Seq<char>, FileV)>,
    type_id: int,
    paths: Seq<Seq<char>>,
) -> Result<DocV, ErrV>
    decreases paths.len(),
{
    if paths.len() == 0 {
        Err(ErrV::PathError { detail: no_paths_text() })
    } else if paths.len() == 1 {
        from_yaml_spec(regv, fsv, type_id, paths[0])
    } else {
        match load_multiple_spec(regv, fsv, type_id, paths.drop_last()) {
            Err(e) => Err(e),
            Ok(acc) => match from_yaml_spec(regv, fsv, type_id, paths.last()) {
                Err(e) => Err(e),
                Ok(nd) => Ok(merge_docv(acc, nd)),
            },
        }
    }
}

/// The detail text when no document path was passed.
pub open spec fn no_paths_text() -> Seq<char> {
    "at least one document path must be passed"@
}

pub fn no_paths_text_str() -> (r: &'static str)
    ensures
        r@ == no_paths_text(),
{
    "at least one document path must be passed"
}

/// Load one or several files into the given document type, merged as if
/// the rightmost document referenced the one left of it.
pub fn load_multiple_yml(
    reg: &TypeRegistry,
    fs: &FileSet,
    type_id: usize,
    paths: &Vec<String>,
) -> (r: Result<Document, ConfigError>)
    ensures
        match r {
            Ok(d) => load_multiple_spec(reg@, fs@, type_id as int, str_views(paths@)) == Ok::<
                DocV,
                ErrV,
            >(d@),
            Err(e) => load_multiple_spec(reg@, fs@, type_id as int, str_views(paths@)) == Err::<
                DocV,
                ErrV,
            >(e@),
        },
{
    let ghost pv = str_views(paths@);
    if paths.len() == 0 {
        return Err(ConfigError::PathError { detail: no_paths_text_str().to_owned() });
    }
    let mut acc = match from_yaml(reg, fs, type_id, paths[0].as_str()) {
        Ok(d) => d,
        Err(e) => {
            proof {
                assert(pv.take(1) =~= seq![pv[0]]);
                lemma_load_multiple_prefix_err(reg@, fs@, type_id as int, pv, 1);
                assert(pv.take(pv.len() as int) =~= pv);
            }
            return Err(e);
        },
    };
    proof {
        assert(pv.take(1) =~= seq![pv[0]]);
    }
    let n = paths.len();
    let mut i: usize = 1;
    while i < n
        invariant
            n == paths@.len(),
            1 <= i <= n,
            pv == str_views(paths@),
            pv.len() == n,
            load_multiple_spec(reg@, fs@, type_id as int, pv.take(i as int)) == Ok::<
                DocV,
                ErrV,
            >(acc@),
        decreases n - i,
    {
        proof {
            assert(pv.take(i + 1).drop_last() =~= pv.take(i as int));
            assert(pv.take(i + 1).last() == pv[i as int]);
        }
        let nd = match from_yaml(reg, fs, type_id, paths[i].as_str()) {
            Ok(d) => d,
            Err(e) => {
                proof {
                    lemma_load_multiple_prefix_err(reg@, fs@, type_id as int, pv, i + 1);
                    assert(pv.take(pv.len() as int) =~= pv);
                }
                return Err(e);
            },
        };
        acc = merge_documents(&nd, &acc);
        i = i + 1;
    }
    proof {
        assert(pv.take(n as int) =~= pv);
    }
    Ok(acc)
}

proof fn lemma_load_multiple_prefix_err(
    regv: Seq<crate::registry::TypeV>,
    fsv: Seq<(Seq<char>, FileV)>,
    type_id: int,
    paths: Seq<Seq<char>>,
    i: int,
)
    requires
        1 <= i <= paths.len(),
        load_multiple_spec(regv, fsv, type_id, paths.take(i)) is Err,
    ensures
        load_multiple_spec(regv, fsv, type_id, paths.take(paths.len() as int))
            == load_multiple_spec(regv, fsv, type_id, paths.take(i)),
    decreases paths.len() - i,
{
    if i < paths.len() {
        assert(paths.take(i + 1).drop_last() =~= paths.take(i));
        lemma_load_multiple_prefix_err(regv, fsv, type_id, paths, i + 1);
    }
}

} // verus!
