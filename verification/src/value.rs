//! The document value model: a tagged union of scalars, lists, maps and
//! nested documents, together with its mathematical view.
//!
//! Executable values hold `String`, `Vec` and `Box`; the ghost model `Val`
//! holds `Seq<char>` and `Seq`, so that contracts can state structural
//! equality of whole trees.

use vstd::prelude::*;

use crate::errors::{ConfigError, ErrV};
use crate::strutil::str_eq;

verus! {

/// An arbitrary-precision YAML number of serde_yaml, kept opaque.  The
/// engine never inspects it: it is carried through merging, cleanup and
/// freezing unchanged.
#[verifier::external_type_specification]
#[verifier::external_body]
pub struct ExNumber(serde_yaml::Number);

/// Relies on the derived `Clone` of `serde_yaml::Number`: the clone is the
/// same number.
pub assume_specification[ <serde_yaml::Number as core::clone::Clone>::clone ](
    n: &serde_yaml::Number,
) -> (r: serde_yaml::Number)
    ensures
        r == *n,
;

/// A node of a document tree.
#[derive(Debug, PartialEq)]
pub enum YcdValue {
    /// A nested, typed document.
    Doc(Box<Document>),
    /// A string-keyed mapping.
    Dict(Dict),
    /// An ordered sequence.
    List(Vec<YcdValue>),
    /// A string scalar.
    Str(String),
    /// A boolean scalar.
    Bool(bool),
    /// An integer scalar.
    Int(i64),
    /// A non-integer numeric scalar, kept opaque.
    Float(serde_yaml::Number),
}

/// A mapping from string keys to values.  Entry order is the insertion
/// order; lookups find the first binding of a key.
#[derive(Debug, PartialEq)]
pub struct Dict {
    pub entries: Vec<(String, YcdValue)>,
}

/// A configuration document: a body of content plus the bookkeeping that
/// reference resolution and freezing need.
#[derive(Debug, PartialEq)]
pub struct Document {
    /// The body, header already stripped.
    pub content: Dict,
    /// Repository-relative path this document was loaded from, `None` for
    /// documents constructed in memory.
    pub path: Option<String>,
    /// Paths already loaded in this resolution chain, for cycle detection.
    pub visited_paths: Vec<String>,
    /// Every absolute file path that contributed content, for diagnostics.
    pub absolute_paths: Vec<String>,
    /// The handle of this document's type in the registry.
    pub type_id: usize,
    /// The immutable snapshot taken at freeze time, if frozen.
    pub frozen: Option<Dict>,
}

/// The mathematical shape of a [`YcdValue`].
#[verifier::ext_equal]
pub enum Val {
    Doc(DocV),
    Dict(Seq<(Seq<char>, Val)>),
    List(Seq<Val>),
    Str(Seq<char>),
    Bool(bool),
    Int(int),
    Float(serde_yaml::Number),
}

/// The mathematical shape of a [`Document`].
#[verifier::ext_equal]
pub struct DocV {
    pub content: Seq<(Seq<char>, Val)>,
    pub path: Option<Seq<char>>,
    pub visited: Seq<Seq<char>>,
    pub abs_paths: Seq<Seq<char>>,
    pub type_id: int,
    pub frozen: Option<Seq<(Seq<char>, Val)>>,
}

pub open spec fn view_value(v: YcdValue) -> Val
    decreases v,
{
    match v {
        YcdValue::Doc(b) => Val::Doc(view_doc(*b)),
        YcdValue::Dict(d) => Val::Dict(view_entries(d.entries@)),
        YcdValue::List(l) => Val::List(view_list(l@)),
        YcdValue::Str(s) => Val::Str(s@),
        YcdValue::Bool(b) => Val::Bool(b),
        YcdValue::Int(i) => Val::Int(i as int),
        YcdValue::Float(n) => Val::Float(n),
    }
}

pub open spec fn view_doc(d: Document) -> DocV
    decreases d,
{
    DocV {
        content: view_entries(d.content.entries@),
        path: match d.path {
            Some(p) => Some(p@),
            None => None,
        },
        visited: crate::strutil::str_views(d.visited_paths@),
        abs_paths: crate::strutil::str_views(d.absolute_paths@),
        type_id: d.type_id as int,
        frozen: match d.frozen {
            Some(f) => Some(view_entries(f.entries@)),
            None => None,
        },
    }
}

pub open spec fn view_entries(s: Seq<(String, YcdValue)>) -> Seq<(Seq<char>, Val)>
    decreases s,
{
    if s.len() == 0 {
        Seq::empty()
    } else {
        view_entries(s.drop_last()).push((s.last().0@, view_value(s.last().1)))
    }
}

pub open spec fn view_list(s: Seq<YcdValue>) -> Seq<Val>
    decreases s,
{
    if s.len() == 0 {
        Seq::empty()
    } else {
        view_list(s.drop_last()).push(view_value(s.last()))
    }
}

/// Pointwise characterization of [`view_entries`].
pub broadcast proof fn lemma_view_entries(s: Seq<(String, YcdValue)>)
    ensures
        #![trigger view_entries(s)]
        view_entries(s).len() == s.len(),
        forall|i: int|
            0 <= i < s.len() ==> #[trigger] view_entries(s)[i] == (s[i].0@, view_value(s[i].1)),
    decreases s.len(),
{
    if s.len() > 0 {
        lemma_view_entries(s.drop_last());
    }
}

/// Pointwise characterization of [`view_list`].
pub broadcast proof fn lemma_view_list(s: Seq<YcdValue>)
    ensures
        #![trigger view_list(s)]
        view_list(s).len() == s.len(),
        forall|i: int| 0 <= i < s.len() ==> #[trigger] view_list(s)[i] == view_value(s[i]),
    decreases s.len(),
{
    if s.len() > 0 {
        lemma_view_list(s.drop_last());
    }
}

impl View for YcdValue {
    type V = Val;

    open spec fn view(&self) -> Val {
        view_value(*self)
    }
}

impl View for Dict {
    type V = Seq<(Seq<char>, Val)>;

    open spec fn view(&self) -> Seq<(Seq<char>, Val)> {
        view_entries(self.entries@)
    }
}

impl View for Document {
    type V = DocV;

    open spec fn view(&self) -> DocV {
        view_doc(*self)
    }
}

/// The index of the first binding of `k` in `m`, or `-1`.
pub open spec fn find_idx(m: Seq<(Seq<char>, Val)>, k: Seq<char>) -> int
    decreases m.len(),
{
    if m.len() == 0 {
        -1
    } else if m[0].0 == k {
        0
    } else {
        let r = find_idx(m.drop_first(), k);
        if r < 0 {
            -1
        } else {
            r + 1
        }
    }
}

/// Whether `m` binds the key `k`.
pub open spec fn has_key(m: Seq<(Seq<char>, Val)>, k: Seq<char>) -> bool {
    find_idx(m, k) >= 0
}

/// The value bound to `k` in `m` (first binding), if any.
pub open spec fn lookup(m: Seq<(Seq<char>, Val)>, k: Seq<char>) -> Option<Val> {
    if has_key(m, k) {
        Some(m[find_idx(m, k)].1)
    } else {
        None
    }
}

/// `m` with `k` bound to `v`: the first binding of `k` replaced in place,
/// or a new binding appended.
pub open spec fn insert_entry(
    m: Seq<(Seq<char>, Val)>,
    k: Seq<char>,
    v: Val,
) -> Seq<(Seq<char>, Val)> {
    if has_key(m, k) {
        m.update(find_idx(m, k), (k, v))
    } else {
        m.push((k, v))
    }
}

/// `m` without its first binding of `k`.
pub open spec fn remove_entry(m: Seq<(Seq<char>, Val)>, k: Seq<char>) -> Seq<(Seq<char>, Val)> {
    if has_key(m, k) {
        m.remove(find_idx(m, k))
    } else {
        m
    }
}

/// What [`find_idx`] returns: `-1` exactly when no binding exists, else the
/// position of the first binding.
pub proof fn lemma_find_idx(m: Seq<(Seq<char>, Val)>, k: Seq<char>)
    ensures
        -1 <= find_idx(m, k) < m.len(),
        find_idx(m, k) == -1 ==> forall|j: int| 0 <= j < m.len() ==> (#[trigger] m[j]).0 != k,
        find_idx(m, k) >= 0 ==> m[find_idx(m, k)].0 == k,
        find_idx(m, k) >= 0 ==> forall|j: int|
            0 <= j < find_idx(m, k) ==> (#[trigger] m[j]).0 != k,
    decreases m.len(),
{
    if m.len() > 0 && m[0].0 != k {
        lemma_find_idx(m.drop_first(), k);
        assert forall|j: int| 1 <= j < m.len() implies m[j] == m.drop_first()[j - 1] by {}
    }
}

impl Dict {
    /// An empty dictionary.
    pub fn new() -> (d: Dict)
        ensures
            d@ =~= Seq::<(Seq<char>, Val)>::empty(),
    {
        Dict { entries: Vec::new() }
    }

    /// The number of entries.
    pub fn len(&self) -> (r: usize)
        ensures
            r == self@.len(),
    {
        proof {
            lemma_view_entries(self.entries@);
        }
        self.entries.len()
    }

    /// The position of the first binding of `k`, if any.
    pub fn index_of(&self, k: &str) -> (r: Option<usize>)
        ensures
            match r {
                Some(i) => find_idx(self@, k@) == i as int,
                None => find_idx(self@, k@) == -1,
            },
    {
        broadcast use lemma_view_entries;

        proof {
            lemma_find_idx(self@, k@);
        }
        let n = self.entries.len();
        let mut i: usize = 0;
        while i < n
            invariant
                n == self.entries@.len(),
                i <= n,
                forall|j: int| 0 <= j < i ==> (#[trigger] self@[j]).0 != k@,
                -1 <= find_idx(self@, k@) < self@.len(),
                find_idx(self@, k@) == -1 ==> forall|j: int|
                    0 <= j < self@.len() ==> (#[trigger] self@[j]).0 != k@,
                find_idx(self@, k@) >= 0 ==> self@[find_idx(self@, k@)].0 == k@ && forall|j: int|
                    0 <= j < find_idx(self@, k@) ==> (#[trigger] self@[j]).0 != k@,
            decreases n - i,
        {
            proof {
                lemma_view_entries(self.entries@);
            }
            if str_eq(self.entries[i].0.as_str(), k) {
                proof {
                    assert(self@[i as int].0 == k@);
                }
                return Some(i);
            }
            i = i + 1;
        }
        None
    }

    /// Whether `k` is bound.
    pub fn contains_key(&self, k: &str) -> (r: bool)
        ensures
            r == has_key(self@, k@),
    {
        self.index_of(k).is_some()
    }

    /// A reference to the value bound to `k`, if any.
    pub fn get(&self, k: &str) -> (r: Option<&YcdValue>)
        ensures
            match r {
                Some(v) => lookup(self@, k@) == Some(v@),
                None => lookup(self@, k@) is None,
            },
    {
        broadcast use lemma_view_entries;

        proof {
            lemma_find_idx(self@, k@);
        }
        match self.index_of(k) {
            Some(i) => Some(&self.entries[i].1),
            None => None,
        }
    }

    /// Bind `k` to `v`: replace the first existing binding in place, or
    /// append a new one.
    pub fn insert(&mut self, k: String, v: YcdValue)
        ensures
            final(self)@ =~= insert_entry(old(self)@, k@, v@),
    {
        broadcast use lemma_view_entries;

        proof {
            lemma_find_idx(self@, k@);
        }
        match self.index_of(k.as_str()) {
            Some(i) => {
                self.entries.remove(i);
                self.entries.insert(i, (k, v));
                proof {
                    assert(final(self)@ =~= insert_entry(old(self)@, k@, v@));
                }
            },
            None => {
                self.entries.push((k, v));
                proof {
                    assert(final(self)@ =~= insert_entry(old(self)@, k@, v@));
                }
            },
        }
    }

    /// A deep copy with the same mathematical shape.
    pub fn duplicate(&self) -> (r: Dict)
        ensures
            r@ == self@,
        decreases *self,
    {
        let mut out: Vec<(String, YcdValue)> = Vec::new();
        let n = self.entries.len();
        let mut i: usize = 0;
        while i < n
            invariant
                n == self.entries@.len(),
                i <= n,
                out@.len() == i,
                forall|j: int|
                    0 <= j < i ==> (#[trigger] out@[j]).0@ == self.entries@[j].0@ && out@[j].1@
                        == self.entries@[j].1@,
                forall|j: int|
                    i <= j < n ==> decreases_to!(*self => self.entries@[j].1),
            decreases n - i,
        {
            let k = self.entries[i].0.clone();
            let v = self.entries[i].1.duplicate();
            out.push((k, v));
            i = i + 1;
        }
        proof {
            lemma_view_entries(out@);
            lemma_view_entries(self.entries@);
            assert(view_entries(out@) =~= view_entries(self.entries@));
        }
        Dict { entries: out }
    }

    /// The keys, in entry order.
    pub fn keys(&self) -> (r: Vec<String>)
        ensures
            crate::strutil::str_views(r@) =~= Seq::new(self@.len(), |i: int| self@[i].0),
    {
        proof {
            lemma_view_entries(self.entries@);
        }
        let mut out: Vec<String> = Vec::new();
        let n = self.entries.len();
        let mut i: usize = 0;
        while i < n
            invariant
                n == self.entries@.len(),
                i <= n,
                self@.len() == n,
                forall|j: int|
                    0 <= j < n ==> #[trigger] self@[j] == (
                        self.entries@[j].0@,
                        self.entries@[j].1@,
                    ),
                out@.len() == i,
                forall|j: int| 0 <= j < i ==> (#[trigger] out@[j])@ == self@[j].0,
            decreases n - i,
        {
            out.push(self.entries[i].0.clone());
            i = i + 1;
        }
        proof {
            assert(crate::strutil::str_views(out@) =~= Seq::new(self@.len(), |i: int| self@[i].0));
        }
        out
    }

    /// Copies of the values, in entry order.
    pub fn values(&self) -> (r: Vec<YcdValue>)
        ensures
            view_list(r@) =~= Seq::new(self@.len(), |i: int| self@[i].1),
    {
        proof {
            lemma_view_entries(self.entries@);
        }
        let mut out: Vec<YcdValue> = Vec::new();
        let n = self.entries.len();
        let mut i: usize = 0;
        while i < n
            invariant
                n == self.entries@.len(),
                i <= n,
                self@.len() == n,
                forall|j: int|
                    0 <= j < n ==> #[trigger] self@[j] == (
                        self.entries@[j].0@,
                        self.entries@[j].1@,
                    ),
                out@.len() == i,
                forall|j: int| 0 <= j < i ==> (#[trigger] out@[j])@ == self@[j].1,
                forall|j: int| i <= j < n ==> decreases_to!(*self => self.entries@[j].1),
            decreases n - i,
        {
            out.push(self.entries[i].1.duplicate());
            i = i + 1;
        }
        proof {
            lemma_view_list(out@);
            assert(view_list(out@) =~= Seq::new(self@.len(), |i: int| self@[i].1));
        }
        out
    }

    /// Drop the first binding of `k`, if any.
    pub fn remove_key(&mut self, k: &str)
        ensures
            final(self)@ =~= remove_entry(old(self)@, k@),
    {
        broadcast use lemma_view_entries;

        proof {
            lemma_find_idx(self@, k@);
        }
        match self.index_of(k) {
            Some(i) => {
                self.entries.remove(i);
                proof {
                    assert(final(self)@ =~= remove_entry(old(self)@, k@));
                }
            },
            None => {},
        }
    }
}

/// A deep copy of a string vector, preserving every element's characters.
pub fn duplicate_strings(v: &Vec<String>) -> (r: Vec<String>)
    ensures
        r@ =~= v@,
{
    let mut out: Vec<String> = Vec::new();
    let mut i: usize = 0;
    while i < v.len()
        invariant
            i <= v@.len(),
            out@ =~= v@.take(i as int),
        decreases v@.len() - i,
    {
        out.push(v[i].clone());
        i = i + 1;
        proof {
            assert(out@ =~= v@.take(i as int));
        }
    }
    proof {
        assert(v@.take(v@.len() as int) =~= v@);
    }
    out
}

/// What constructing a document yields: the cycle check rejects a path that
/// the resolution chain has already loaded, otherwise the path joins the
/// visited list.
pub open spec fn new_doc_spec(
    content: Seq<(Seq<char>, Val)>,
    path: Option<Seq<char>>,
    visited: Seq<Seq<char>>,
    abs_paths: Seq<Seq<char>>,
    type_id: int,
) -> Result<DocV, ErrV> {
    match path {
        Some(p) => if visited.contains(p) {
            Err(ErrV::CircularDependency { path: p })
        } else {
            Ok(
                DocV {
                    content,
                    path: Some(p),
                    visited: visited.push(p),
                    abs_paths,
                    type_id,
                    frozen: None,
                },
            )
        },
        None => Ok(DocV { content, path: None, visited, abs_paths, type_id, frozen: None }),
    }
}

impl Document {
    /// Construct a document from its body and resolution bookkeeping.
    ///
    /// This is the cycle-detection point: a document whose path is already
    /// among the paths loaded by this resolution chain fails with
    /// `CircularDependency`, whatever the chain's length, so `$ref` chains
    /// can never loop.
    pub fn new(
        content: Dict,
        path: Option<String>,
        already_loaded_docs: Vec<String>,
        absolute_paths: Vec<String>,
        type_id: usize,
    ) -> (r: Result<Document, ConfigError>)
        ensures
            match r {
                Ok(d) => new_doc_spec(
                    content@,
                    crate::strutil::opt_view(path),
                    crate::strutil::str_views(already_loaded_docs@),
                    crate::strutil::str_views(absolute_paths@),
                    type_id as int,
                ) == Ok::<DocV, ErrV>(d@),
                Err(e) => new_doc_spec(
                    content@,
                    crate::strutil::opt_view(path),
                    crate::strutil::str_views(already_loaded_docs@),
                    crate::strutil::str_views(absolute_paths@),
                    type_id as int,
                ) == Err::<DocV, ErrV>(e@),
            },
    {
        let mut visited = already_loaded_docs;
        match path {
            Some(p) => {
                if crate::strutil::vec_contains_string(&visited, p.as_str()) {
                    return Err(ConfigError::CircularDependency { path: p });
                }
                let ghost old_visited = visited@;
                visited.push(p.clone());
                proof {
                    assert(crate::strutil::str_views(visited@) =~= crate::strutil::str_views(
                        old_visited,
                    ).push(p@));
                }
                let d = Document {
                    content,
                    path: Some(p),
                    visited_paths: visited,
                    absolute_paths,
                    type_id,
                    frozen: None,
                };
                Ok(d)
            },
            None => Ok(
                Document {
                    content,
                    path: None,
                    visited_paths: visited,
                    absolute_paths,
                    type_id,
                    frozen: None,
                },
            ),
        }
    }

    /// A deep copy with the same mathematical shape.
    pub fn duplicate(&self) -> (r: Document)
        ensures
            r@ == self@,
        decreases *self,
    {
        Document {
            content: self.content.duplicate(),
            path: match &self.path {
                Some(p) => Some(p.clone()),
                None => None,
            },
            visited_paths: duplicate_strings(&self.visited_paths),
            absolute_paths: duplicate_strings(&self.absolute_paths),
            type_id: self.type_id,
            frozen: match &self.frozen {
                Some(f) => Some(f.duplicate()),
                None => None,
            },
        }
    }
}

impl YcdValue {
    /// A deep copy with the same mathematical shape.  Cloning duplicates
    /// nested maps, lists and documents recursively.
    pub fn duplicate(&self) -> (r: YcdValue)
        ensures
            r@ == self@,
        decreases *self,
    {
        match self {
            YcdValue::Doc(b) => YcdValue::Doc(Box::new(b.duplicate())),
            YcdValue::Dict(d) => YcdValue::Dict(d.duplicate()),
            YcdValue::List(l) => {
                let mut out: Vec<YcdValue> = Vec::new();
                let mut i: usize = 0;
                while i < l.len()
                    invariant
                        i <= l@.len(),
                        out@.len() == i,
                        forall|j: int| 0 <= j < i ==> (#[trigger] out@[j])@ == l@[j]@,
                        forall|j: int|
                            i <= j < l@.len() ==> decreases_to!(*self => l@[j]),
                    decreases l@.len() - i,
                {
                    let e = l[i].duplicate();
                    out.push(e);
                    i = i + 1;
                }
                proof {
                    lemma_view_list(out@);
                    lemma_view_list(l@);
                    assert(view_list(out@) =~= view_list(l@));
                }
                YcdValue::List(out)
            },
            YcdValue::Str(s) => YcdValue::Str(s.clone()),
            YcdValue::Bool(b) => YcdValue::Bool(*b),
            YcdValue::Int(i) => YcdValue::Int(*i),
            YcdValue::Float(n) => YcdValue::Float(n.clone()),
        }
    }

    /// The body of this value if it is a mapping, or `TypeMismatch`.
    pub fn unwrap_as_map(self) -> (r: Result<Dict, crate::errors::ConfigError>)
        ensures
            match r {
                Ok(d) => self@ matches Val::Dict(m) && m == d@,
                Err(e) => !(self@ is Dict) && e@ == crate::errors::ErrV::TypeMismatch,
            },
    {
        match self {
            YcdValue::Dict(d) => Ok(d),
            _ => Err(crate::errors::ConfigError::TypeMismatch),
        }
    }
}

} // verus!
