//! The repository loader: `$ref` path resolution and candidate lookup in a
//! preloaded file set.
//!
//! Reading from disk is the caller's concern.  The caller hands the engine a
//! [`FileSet`]: every `.yml`/`.yaml` file under the repository roots, keyed
//! by normalized absolute path and carrying either its parsed body or the
//! reason it could not be parsed.  Everything here is then a pure function
//! of the file set.

use vstd::prelude::*;

use crate::errors::{ConfigError, ErrV};
use crate::strutil::{
    chars_vec, concat_str, has_prefix, last_index_of, opt_view, str_eq, str_views, string_from_chars,
    sub_vec,
};
use crate::value::{Dict, Val, YcdValue};

verus! {

/// The position of the first `/` in `s`, or `-1`.
pub open spec fn first_slash(s: Seq<char>) -> int
    decreases s.len(),
{
    if s.len() == 0 {
        -1
    } else if s[0] == '/' {
        0
    } else {
        let r = first_slash(s.drop_first());
        if r < 0 {
            -1
        } else {
            r + 1
        }
    }
}

/// What [`first_slash`] returns: the least index of a `/`, or `-1`.
pub proof fn lemma_first_slash(s: Seq<char>)
    ensures
        -1 <= first_slash(s) < s.len(),
        first_slash(s) == -1 ==> forall|j: int| 0 <= j < s.len() ==> s[j] != '/',
        first_slash(s) >= 0 ==> s[first_slash(s)] == '/',
        first_slash(s) >= 0 ==> forall|j: int| 0 <= j < first_slash(s) ==> s[j] != '/',
    decreases s.len(),
{
    if s.len() > 0 && s[0] != '/' {
        lemma_first_slash(s.drop_first());
        assert forall|j: int| 1 <= j < s.len() implies s[j] == s.drop_first()[j - 1] by {}
    }
}

/// The position of the last `/` in `s`, or `-1`.
pub open spec fn last_slash(s: Seq<char>) -> int
    decreases s.len(),
{
    if s.len() == 0 {
        -1
    } else if s.last() == '/' {
        s.len() - 1
    } else {
        last_slash(s.drop_last())
    }
}

/// What [`last_slash`] returns: the greatest index of a `/`, or `-1`.
pub proof fn lemma_last_slash(s: Seq<char>)
    ensures
        -1 <= last_slash(s) < s.len(),
        last_slash(s) == -1 ==> forall|j: int| 0 <= j < s.len() ==> s[j] != '/',
        last_slash(s) >= 0 ==> s[last_slash(s)] == '/',
        last_slash(s) >= 0 ==> forall|j: int| last_slash(s) < j < s.len() ==> s[j] != '/',
    decreases s.len(),
{
    if s.len() > 0 && s.last() != '/' {
        lemma_last_slash(s.drop_last());
        assert forall|j: int| 0 <= j < s.len() - 1 implies s[j] == s.drop_last()[j] by {}
    }
}

/// The directory part of a path: everything before the last `/`, or the
/// empty string for a bare file name.
pub open spec fn parent_dir(b: Seq<char>) -> Seq<char> {
    if last_slash(b) < 0 {
        Seq::empty()
    } else {
        b.take(last_slash(b))
    }
}

/// The repository-relative target of a `$ref` string.  With no base path
/// the reference stands as written; an absolute reference replaces the
/// base's directory; otherwise the reference is resolved against the
/// directory of the base path, rooted at the repository root.
pub open spec fn path_in_repo_spec(base: Option<Seq<char>>, rp: Seq<char>) -> Seq<char> {
    match base {
        None => rp,
        Some(b) => if has_prefix(rp, seq!['/']) {
            rp
        } else {
            let par = parent_dir(b);
            if par.len() == 0 {
                seq!['/'] + rp
            } else if par[0] == '/' {
                par + seq!['/'] + rp
            } else {
                seq!['/'] + par + seq!['/'] + rp
            }
        },
    }
}

/// Compute the repository-relative target of a `$ref` string.
pub fn path_in_repo(base_path: &Option<String>, reference_path: &str) -> (r: String)
    ensures
        r@ == path_in_repo_spec(opt_view(*base_path), reference_path@),
{
    match base_path {
        None => reference_path.to_owned(),
        Some(b) => {
            let rp = chars_vec(reference_path);
            if rp.len() > 0 && rp[0] == '/' {
                proof {
                    assert(has_prefix(rp@, seq!['/'])) by {
                        assert(rp@.take(1) =~= seq![rp@[0]]);
                    }
                }
                return reference_path.to_owned();
            }
            proof {
                assert(!has_prefix(rp@, seq!['/'])) by {
                    if has_prefix(rp@, seq!['/']) {
                        assert(rp@.take(1)[0] == '/');
                    }
                }
            }
            let bv = chars_vec(b.as_str());
            proof {
                lemma_last_slash(bv@);
            }
            let par: Vec<char> = match last_index_of(&bv, '/') {
                Some(i) => {
                    proof {
                        assert(last_slash(bv@) == i as int) by {
                            if last_slash(bv@) > i as int {
                                assert(bv@[last_slash(bv@)] == '/');
                            }
                            if last_slash(bv@) < i as int {
                                assert(bv@[i as int] == '/');
                            }
                        }
                    }
                    sub_vec(&bv, 0, i)
                },
                None => {
                    proof {
                        assert(last_slash(bv@) == -1) by {
                            if last_slash(bv@) >= 0 {
                                assert(bv@[last_slash(bv@)] == '/');
                            }
                        }
                    }
                    Vec::new()
                },
            };
            proof {
                assert(par@ =~= parent_dir(bv@));
            }
            let mut out: Vec<char> = Vec::new();
            if par.len() == 0 {
                out.push('/');
                let mut i: usize = 0;
                while i < rp.len()
                    invariant
                        i <= rp@.len(),
                        out@ =~= seq!['/'] + rp@.take(i as int),
                    decreases rp@.len() - i,
                {
                    out.push(rp[i]);
                    i = i + 1;
                    proof {
                        assert(out@ =~= seq!['/'] + rp@.take(i as int));
                    }
                }
                proof {
                    assert(rp@.take(rp@.len() as int) =~= rp@);
                }
            } else {
                if par[0] != '/' {
                    out.push('/');
                }
                let mut i: usize = 0;
                let ghost pre = out@;
                while i < par.len()
                    invariant
                        i <= par@.len(),
                        out@ =~= pre + par@.take(i as int),
                    decreases par@.len() - i,
                {
                    out.push(par[i]);
                    i = i + 1;
                    proof {
                        assert(out@ =~= pre + par@.take(i as int));
                    }
                }
                out.push('/');
                let mut i2: usize = 0;
                let ghost pre2 = out@;
                while i2 < rp.len()
                    invariant
                        i2 <= rp@.len(),
                        out@ =~= pre2 + rp@.take(i2 as int),
                    decreases rp@.len() - i2,
                {
                    out.push(rp[i2]);
                    i2 = i2 + 1;
                    proof {
                        assert(out@ =~= pre2 + rp@.take(i2 as int));
                    }
                }
                proof {
                    assert(par@.take(par@.len() as int) =~= par@);
                    assert(rp@.take(rp@.len() as int) =~= rp@);
                    if par@[0] == '/' {
                        assert(out@ =~= par@ + seq!['/'] + rp@);
                    } else {
                        assert(out@ =~= seq!['/'] + par@ + seq!['/'] + rp@);
                    }
                }
            }
            string_from_chars(&out)
        },
    }
}

/// Each configured lookup path made absolute: paths already absolute pass
/// through, relative ones are resolved against the given working directory.
pub open spec fn repo_root_spec(p: Seq<char>, cwd: Seq<char>) -> Seq<char> {
    if has_prefix(p, seq!['/']) {
        p
    } else {
        cwd + seq!['/'] + p
    }
}

/// The `/`-separated segments of `s`.
pub open spec fn split_slash(s: Seq<char>) -> Seq<Seq<char>>
    decreases s.len(),
{
    let i = first_slash(s);
    if i < 0 || i >= s.len() {
        seq![s]
    } else {
        seq![s.take(i)] + split_slash(s.skip(i + 1))
    }
}

/// Dot-segment processing over a segment stack: empty and `.` segments
/// vanish, `..` pops (and fails at the root), anything else is kept.
pub open spec fn norm_go(acc: Seq<Seq<char>>, segs: Seq<Seq<char>>) -> Option<Seq<Seq<char>>>
    decreases segs.len(),
{
    if segs.len() == 0 {
        Some(acc)
    } else {
        let s0 = segs[0];
        let rest = segs.drop_first();
        if s0.len() == 0 || s0 == seq!['.'] {
            norm_go(acc, rest)
        } else if s0 == seq!['.', '.'] {
            if acc.len() == 0 {
                None
            } else {
                norm_go(acc.drop_last(), rest)
            }
        } else {
            norm_go(acc.push(s0), rest)
        }
    }
}

/// `/`-joined absolute path from segments.
pub open spec fn join_abs(segs: Seq<Seq<char>>) -> Seq<char>
    decreases segs.len(),
{
    if segs.len() == 0 {
        Seq::empty()
    } else {
        join_abs(segs.drop_last()) + seq!['/'] + segs.last()
    }
}

/// The normalized absolute form of a candidate path: dot segments resolved
/// against the repository root, or `None` when `..` would escape it.
pub open spec fn norm_path_spec(p: Seq<char>) -> Option<Seq<char>> {
    match norm_go(Seq::empty(), split_slash(p)) {
        None => None,
        Some(segs) => if segs.len() == 0 {
            Some(seq!['/'])
        } else {
            Some(join_abs(segs))
        },
    }
}

/// The views of a sequence of character vectors.
pub open spec fn seg_views(s: Seq<Vec<char>>) -> Seq<Seq<char>> {
    s.map_values(|v: Vec<char>| v@)
}

/// The position of the first `/` in `v`, if any.
pub fn first_slash_of(v: &Vec<char>) -> (r: Option<usize>)
    ensures
        match r {
            Some(i) => first_slash(v@) == i as int,
            None => first_slash(v@) == -1,
        },
{
    proof {
        lemma_first_slash(v@);
    }
    let mut i: usize = 0;
    while i < v.len()
        invariant
            i <= v@.len(),
            forall|j: int| 0 <= j < i ==> v@[j] != '/',
            -1 <= first_slash(v@) < v@.len(),
            first_slash(v@) == -1 ==> forall|j: int| 0 <= j < v@.len() ==> v@[j] != '/',
            first_slash(v@) >= 0 ==> v@[first_slash(v@)] == '/' && forall|j: int|
                0 <= j < first_slash(v@) ==> v@[j] != '/',
        decreases v@.len() - i,
    {
        if v[i] == '/' {
            return Some(i);
        }
        i = i + 1;
    }
    None
}

/// Normalize a candidate path: resolve `.`/`..`/empty segments against the
/// repository root, or report that the path escapes it.
pub fn normalize_path(p: &str) -> (r: Option<String>)
    ensures
        match r {
            Some(n) => norm_path_spec(p@) == Some(n@),
            None => norm_path_spec(p@) is None,
        },
{
    let pv = chars_vec(p);
    let ghost splits = split_slash(p@);
    // Split into segments.
    let mut segs: Vec<Vec<char>> = Vec::new();
    let mut cur: Vec<char> = pv;
    loop
        invariant_except_break
            splits == split_slash(p@),
            splits =~= seg_views(segs@) + split_slash(cur@),
        ensures
            splits =~= seg_views(segs@),
        decreases cur@.len(),
    {
        let ghost old_segs = segs@;
        let ghost old_cur = cur@;
        proof {
            lemma_first_slash(cur@);
        }
        match first_slash_of(&cur) {
            Some(i) => {
                proof {
                    assert(i < cur@.len());
                }
                let clen = cur.len();
                let seg = sub_vec(&cur, 0, i);
                let rest = sub_vec(&cur, i + 1, clen);
                segs.push(seg);
                cur = rest;
                proof {
                    assert(old_cur.take(first_slash(old_cur)) =~= seg@);
                    assert(old_cur.skip(first_slash(old_cur) + 1) =~= cur@);
                    assert(seg_views(segs@) =~= seg_views(old_segs).push(seg@));
                    assert(splits =~= seg_views(segs@) + split_slash(cur@));
                }
            },
            None => {
                segs.push(cur);
                proof {
                    assert(split_slash(old_cur) =~= seq![old_cur]);
                    assert(seg_views(segs@) =~= seg_views(old_segs).push(old_cur));
                    assert(splits =~= seg_views(segs@));
                }
                break ;
            },
        }
    }
    // Process dot segments over a stack.
    let mut stack: Vec<Vec<char>> = Vec::new();
    let n = segs.len();
    let mut i: usize = 0;
    proof {
        assert(seg_views(segs@).skip(0) =~= seg_views(segs@));
        assert(seg_views(stack@) =~= Seq::<Seq<char>>::empty());
    }
    while i < n
        invariant
            n == segs@.len(),
            i <= n,
            splits == split_slash(p@),
            splits =~= seg_views(segs@),
            norm_go(seg_views(stack@), seg_views(segs@).skip(i as int)) == norm_go(
                Seq::empty(),
                splits,
            ),
        decreases n - i,
    {
        let ghost rem = seg_views(segs@).skip(i as int);
        proof {
            assert(rem[0] == segs@[i as int]@);
            assert(rem.drop_first() =~= seg_views(segs@).skip(i as int + 1));
        }
        let seg = &segs[i];
        if seg.len() == 0 || (seg.len() == 1 && seg[0] == '.') {
            proof {
                if seg@.len() == 1 {
                    assert(seg@ =~= seq!['.']);
                }
            }
        } else if seg.len() == 2 && seg[0] == '.' && seg[1] == '.' {
            proof {
                assert(seg@ =~= seq!['.', '.']);
            }
            if stack.len() == 0 {
                proof {
                    assert(seg_views(stack@) =~= Seq::<Seq<char>>::empty());
                    assert(norm_go(seg_views(stack@), rem) is None);
                    assert(norm_go(Seq::empty(), splits) is None);
                    assert(norm_path_spec(p@) is None);
                }
                return None;
            }
            let ghost old_stack = stack@;
            stack.pop();
            proof {
                assert(seg_views(stack@) =~= seg_views(old_stack).drop_last());
            }
        } else {
            proof {
                assert(seg@ != seq!['.'] && seg@ != seq!['.', '.'] && seg@.len() > 0) by {
                    if seg@.len() == 1 {
                        assert(seg@[0] != '.');
                    }
                    if seg@.len() == 2 {
                        assert(seg@[0] != '.' || seg@[1] != '.');
                    }
                }
            }
            let ghost old_stack = stack@;
            let dup = sub_vec(seg, 0, seg.len());
            stack.push(dup);
            proof {
                assert(dup@ =~= seg@);
                assert(seg_views(stack@) =~= seg_views(old_stack).push(seg@));
            }
        }
        i = i + 1;
    }
    proof {
        assert(seg_views(segs@).skip(n as int) =~= Seq::<Seq<char>>::empty());
    }
    // Join the remaining segments into an absolute path.
    if stack.len() == 0 {
        let mut root: Vec<char> = Vec::new();
        root.push('/');
        proof {
            assert(root@ =~= seq!['/']);
        }
        return Some(string_from_chars(&root));
    }
    let mut out: Vec<char> = Vec::new();
    let mut j: usize = 0;
    proof {
        assert(out@ =~= join_abs(seg_views(stack@).take(0)));
    }
    while j < stack.len()
        invariant
            j <= stack@.len(),
            out@ =~= join_abs(seg_views(stack@).take(j as int)),
        decreases stack@.len() - j,
    {
        let ghost pre = out@;
        out.push('/');
        let seg = &stack[j];
        let mut k: usize = 0;
        while k < seg.len()
            invariant
                k <= seg@.len(),
                seg == stack@[j as int],
                j < stack@.len(),
                out@ =~= pre + seq!['/'] + seg@.take(k as int),
            decreases seg@.len() - k,
        {
            out.push(seg[k]);
            k = k + 1;
            proof {
                assert(out@ =~= pre + seq!['/'] + seg@.take(k as int));
            }
        }
        j = j + 1;
        proof {
            assert(seg@.take(seg@.len() as int) =~= seg@);
            assert(seg_views(stack@).take(j as int).drop_last() =~= seg_views(stack@).take(
                j - 1,
            ));
            assert(seg_views(stack@).take(j as int).last() == seg@);
            assert(out@ =~= join_abs(seg_views(stack@).take(j as int)));
        }
    }
    proof {
        assert(seg_views(stack@).take(stack@.len() as int) =~= seg_views(stack@));
    }
    Some(string_from_chars(&out))
}

/// One file of the repositories: its parsed top-level mapping, or the
/// reason it could not be read or parsed.
#[derive(Debug, PartialEq)]
pub enum LoadedFile {
    Parsed(Dict),
    Unreadable(String),
}

/// Every `.yml`/`.yaml` file under the repository roots, keyed by
/// normalized absolute path.  The caller builds this once from disk; the
/// engine only looks paths up in it.
#[derive(Debug, PartialEq)]
pub struct FileSet {
    pub files: Vec<(String, LoadedFile)>,
}

/// The mathematical shape of a [`LoadedFile`].
#[verifier::ext_equal]
pub enum FileV {
    Parsed(Seq<(Seq<char>, Val)>),
    Unreadable(Seq<char>),
}

pub open spec fn view_loaded(f: LoadedFile) -> FileV {
    match f {
        LoadedFile::Parsed(d) => FileV::Parsed(crate::value::view_entries(d.entries@)),
        LoadedFile::Unreadable(c) => FileV::Unreadable(c@),
    }
}

pub open spec fn view_files(s: Seq<(String, LoadedFile)>) -> Seq<(Seq<char>, FileV)> {
    s.map_values(|x: (String, LoadedFile)| (x.0@, view_loaded(x.1)))
}

impl View for FileSet {
    type V = Seq<(Seq<char>, FileV)>;

    open spec fn view(&self) -> Seq<(Seq<char>, FileV)> {
        view_files(self.files@)
    }
}

/// The first file registered under the path `p`, if any.
pub open spec fn fs_find(fsv: Seq<(Seq<char>, FileV)>, p: Seq<char>) -> Option<FileV>
    decreases fsv.len(),
{
    if fsv.len() == 0 {
        None
    } else if fsv[0].0 == p {
        Some(fsv[0].1)
    } else {
        fs_find(fsv.drop_first(), p)
    }
}

proof fn lemma_fs_find(fsv: Seq<(Seq<char>, FileV)>, p: Seq<char>)
    ensures
        fs_find(fsv, p) is None ==> forall|j: int|
            0 <= j < fsv.len() ==> (#[trigger] fsv[j]).0 != p,
        fs_find(fsv, p) matches Some(f) ==> exists|j: int|
            0 <= j < fsv.len() && (#[trigger] fsv[j]) == (p, f) && forall|k: int|
                0 <= k < j ==> (#[trigger] fsv[k]).0 != p,
    decreases fsv.len(),
{
    if fsv.len() > 0 && fsv[0].0 != p {
        lemma_fs_find(fsv.drop_first(), p);
        assert forall|j: int| 1 <= j < fsv.len() implies fsv[j] == fsv.drop_first()[j - 1] by {}
        if fs_find(fsv, p) is Some {
            let f = fs_find(fsv, p).unwrap();
            let j = choose|j: int|
                0 <= j < fsv.drop_first().len() && (#[trigger] fsv.drop_first()[j]) == (p, f)
                    && forall|k: int| 0 <= k < j ==> (#[trigger] fsv.drop_first()[k]).0 != p;
            assert(fsv[j + 1] == (p, f));
            assert(forall|k: int| 1 <= k < j + 1 ==> (#[trigger] fsv[k]).0 != p);
        }
    }
}

impl FileSet {
    /// An empty file set.
    pub fn new() -> (r: FileSet)
        ensures
            r@ =~= Seq::<(Seq<char>, FileV)>::empty(),
    {
        FileSet { files: Vec::new() }
    }

    /// Register a file under its normalized absolute path.
    pub fn insert(&mut self, path: String, f: LoadedFile)
        ensures
            final(self)@ =~= old(self)@.push((path@, view_loaded(f))),
    {
        self.files.push((path, f));
        proof {
            assert(final(self)@ =~= old(self)@.push(
                (final(self).files@.last().0@, view_loaded(final(self).files@.last().1)),
            ));
        }
    }

    /// The file registered under `p`, if any.
    pub fn find(&self, p: &str) -> (r: Option<&LoadedFile>)
        ensures
            match r {
                Some(f) => fs_find(self@, p@) == Some(view_loaded(*f)),
                None => fs_find(self@, p@) is None,
            },
    {
        proof {
            lemma_fs_find(self@, p@);
        }
        let n = self.files.len();
        let mut i: usize = 0;
        while i < n
            invariant
                n == self.files@.len(),
                i <= n,
                self@.len() == n,
                forall|j: int|
                    0 <= j < n ==> #[trigger] self@[j] == (self.files@[j].0@, view_loaded(
                        self.files@[j].1,
                    )),
                forall|j: int| 0 <= j < i ==> (#[trigger] self@[j]).0 != p@,
                fs_find(self@, p@) is None ==> forall|j: int|
                    0 <= j < self@.len() ==> (#[trigger] self@[j]).0 != p@,
                fs_find(self@, p@) matches Some(f) ==> exists|j: int|
                    0 <= j < self@.len() && (#[trigger] self@[j]) == (p@, f) && forall|k: int|
                        0 <= k < j ==> (#[trigger] self@[k]).0 != p@,
            decreases n - i,
        {
            if str_eq(self.files[i].0.as_str(), p) {
                proof {
                    assert(self@[i as int].0 == p@);
                    if fs_find(self@, p@) is Some {
                        let f = fs_find(self@, p@).unwrap();
                        let j = choose|j: int|
                            0 <= j < self@.len() && (#[trigger] self@[j]) == (p@, f) && forall|
                                k: int,
                            | 0 <= k < j ==> (#[trigger] self@[k]).0 != p@;
                        assert(j == i);
                    }
                }
                return Some(&self.files[i].1);
            }
            i = i + 1;
        }
        None
    }
}

/// The candidate base path of a repository-relative target under one root:
/// the target, stripped of one leading `/`, appended to the root.
pub open spec fn candidate_base(root: Seq<char>, rp: Seq<char>) -> Seq<char> {
    let rel = if has_prefix(rp, seq!['/']) {
        rp.skip(1)
    } else {
        rp
    };
    root + seq!['/'] + rel
}

/// What probing one candidate file yields: nothing when the path escapes
/// the root or no file exists there, the parsed body when it parses, and
/// `InvalidDocument` when the file exists but could not be read.
pub open spec fn load_one_spec(fsv: Seq<(Seq<char>, FileV)>, cand: Seq<char>) -> Result<
    Option<(Seq<char>, Seq<(Seq<char>, Val)>)>,
    ErrV,
> {
    match norm_path_spec(cand) {
        None => Ok(None),
        Some(n) => match fs_find(fsv, n) {
            None => Ok(None),
            Some(FileV::Parsed(m)) => Ok(Some((n, m))),
            Some(FileV::Unreadable(c)) => Err(ErrV::InvalidDocument { path: n, cause: c }),
        },
    }
}

pub open spec fn opt_pair_seq(o: Option<(Seq<char>, Seq<(Seq<char>, Val)>)>) -> Seq<
    (Seq<char>, Seq<(Seq<char>, Val)>),
> {
    match o {
        None => Seq::empty(),
        Some(x) => seq![x],
    }
}

/// The parsed bodies found at `<base>.yml` and `<base>.yaml`, in that fixed
/// order, each tagged with its normalized absolute path.
pub open spec fn load_dicts_spec(fsv: Seq<(Seq<char>, FileV)>, base: Seq<char>) -> Result<
    Seq<(Seq<char>, Seq<(Seq<char>, Val)>)>,
    ErrV,
> {
    match load_one_spec(fsv, base + ".yml"@) {
        Err(e) => Err(e),
        Ok(o1) => match load_one_spec(fsv, base + ".yaml"@) {
            Err(e) => Err(e),
            Ok(o2) => Ok(opt_pair_seq(o1) + opt_pair_seq(o2)),
        },
    }
}

/// Probe one candidate path in the file set.
fn load_one(fs: &FileSet, cand: &str) -> (r: Result<Option<(String, Dict)>, ConfigError>)
    ensures
        match r {
            Ok(Some((n, d))) => load_one_spec(fs@, cand@) == Ok::<
                Option<(Seq<char>, Seq<(Seq<char>, Val)>)>,
                ErrV,
            >(Some((n@, d@))),
            Ok(None) => load_one_spec(fs@, cand@) == Ok::<
                Option<(Seq<char>, Seq<(Seq<char>, Val)>)>,
                ErrV,
            >(None),
            Err(e) => load_one_spec(fs@, cand@) == Err::<
                Option<(Seq<char>, Seq<(Seq<char>, Val)>)>,
                ErrV,
            >(e@),
        },
{
    match normalize_path(cand) {
        None => Ok(None),
        Some(n) => match fs.find(n.as_str()) {
            None => Ok(None),
            Some(LoadedFile::Parsed(d)) => {
                let dd = d.duplicate();
                Ok(Some((n, dd)))
            },
            Some(LoadedFile::Unreadable(c)) => Err(
                ConfigError::InvalidDocument { path: n, cause: c.clone() },
            ),
        },
    }
}

/// Load the parsed bodies at `<base>.yml` and `<base>.yaml`, in that fixed
/// order, from the file set.
pub fn load_dicts(fs: &FileSet, base: &str) -> (r: Result<Vec<(String, Dict)>, ConfigError>)
    ensures
        match r {
            Ok(ds) => load_dicts_spec(fs@, base@) == Ok::<
                Seq<(Seq<char>, Seq<(Seq<char>, Val)>)>,
                ErrV,
            >(ds@.map_values(|x: (String, Dict)| (x.0@, x.1@))),
            Err(e) => load_dicts_spec(fs@, base@) == Err::<
                Seq<(Seq<char>, Seq<(Seq<char>, Val)>)>,
                ErrV,
            >(e@),
        },
{
    let c1 = concat_str(base, ".yml");
    let c2 = concat_str(base, ".yaml");
    let o1 = match load_one(fs, c1.as_str()) {
        Ok(o) => o,
        Err(e) => {
            return Err(e);
        },
    };
    let o2 = match load_one(fs, c2.as_str()) {
        Ok(o) => o,
        Err(e) => {
            return Err(e);
        },
    };
    let mut out: Vec<(String, Dict)> = Vec::new();
    let ghost s1 = opt_pair_seq(
        match o1 {
            Some((ref n, ref d)) => Some((n@, d@)),
            None => None,
        },
    );
    match o1 {
        Some((n, d)) => {
            out.push((n, d));
        },
        None => {},
    }
    match o2 {
        Some((n, d)) => {
            out.push((n, d));
        },
        None => {},
    }
    proof {
        assert(out@.map_values(|x: (String, Dict)| (x.0@, x.1@)) =~= load_dicts_spec(
            fs@,
            base@,
        )->Ok_0);
    }
    Ok(out)
}

/// The candidate absolute file base paths of a repository-relative target:
/// the target, stripped of one leading `/`, appended to every root in
/// lookup order; only the `.yml`/`.yaml` extension is still missing.
pub fn candidate_absolute_paths(ref_path_in_repo: &str, roots: &Vec<String>) -> (r: Vec<String>)
    ensures
        r@.len() == roots@.len(),
        forall|i: int|
            0 <= i < r@.len() ==> (#[trigger] r@[i])@ == candidate_base(
                roots@[i]@,
                ref_path_in_repo@,
            ),
{
    let rv = chars_vec(ref_path_in_repo);
    let stripped: String = if rv.len() > 0 && rv[0] == '/' {
        proof {
            assert(has_prefix(rv@, seq!['/'])) by {
                assert(rv@.take(1) =~= seq![rv@[0]]);
            }
        }
        let sv = sub_vec(&rv, 1, rv.len());
        proof {
            assert(sv@ =~= rv@.skip(1));
        }
        string_from_chars(&sv)
    } else {
        proof {
            assert(!has_prefix(rv@, seq!['/'])) by {
                if has_prefix(rv@, seq!['/']) {
                    assert(rv@.take(1)[0] == '/');
                }
            }
        }
        ref_path_in_repo.to_owned()
    };
    let mut out: Vec<String> = Vec::new();
    let mut i: usize = 0;
    while i < roots.len()
        invariant
            i <= roots@.len(),
            out@.len() == i,
            stripped@ == (if has_prefix(ref_path_in_repo@, seq!['/']) {
                ref_path_in_repo@.skip(1)
            } else {
                ref_path_in_repo@
            }),
            forall|j: int|
                0 <= j < i ==> (#[trigger] out@[j])@ == candidate_base(
                    roots@[j]@,
                    ref_path_in_repo@,
                ),
        decreases roots@.len() - i,
    {
        let base0 = concat_str(roots[i].as_str(), "/");
        let base = concat_str(base0.as_str(), stripped.as_str());
        proof {
            assert(base@ =~= candidate_base(roots@[i as int]@, ref_path_in_repo@)) by {
                reveal_strlit("/");
            }
        }
        out.push(base);
        i = i + 1;
    }
    out
}

/// Resolve the configured lookup paths to absolute repository roots.
pub fn resolve_repo_roots(lookup_paths: &Vec<String>, cwd: &str) -> (r: Vec<String>)
    ensures
        r@.len() == lookup_paths@.len(),
        forall|i: int|
            0 <= i < r@.len() ==> (#[trigger] r@[i])@ == repo_root_spec(
                lookup_paths@[i]@,
                cwd@,
            ),
{
    let mut out: Vec<String> = Vec::new();
    let mut i: usize = 0;
    while i < lookup_paths.len()
        invariant
            i <= lookup_paths@.len(),
            out@.len() == i,
            forall|j: int|
                0 <= j < i ==> (#[trigger] out@[j])@ == repo_root_spec(
                    lookup_paths@[j]@,
                    cwd@,
                ),
        decreases lookup_paths@.len() - i,
    {
        let p = &lookup_paths[i];
        let pv = chars_vec(p.as_str());
        if pv.len() > 0 && pv[0] == '/' {
            proof {
                assert(has_prefix(pv@, seq!['/'])) by {
                    assert(pv@.take(1) =~= seq![pv@[0]]);
                }
            }
            out.push(p.clone());
        } else {
            proof {
                assert(!has_prefix(pv@, seq!['/'])) by {
                    if has_prefix(pv@, seq!['/']) {
                        assert(pv@.take(1)[0] == '/');
                    }
                }
            }
            let joined = concat_str(cwd, "/");
            let full = concat_str(joined.as_str(), p.as_str());
            proof {
                assert(cwd@ + "/"@ + p@ =~= cwd@ + seq!['/'] + p@) by {
                    reveal_strlit("/");
                }
            }
            out.push(full);
        }
        i = i + 1;
    }
    out
}

/// What converting a loaded file body into a typed document yields: the
/// body must carry the type's header key, the header's value is the new
/// document's content, and the construction inherits the requesting
/// document's bookkeeping with the new absolute path in front.
pub open spec fn dict_to_doc_spec(
    regv: Seq<crate::registry::TypeV>,
    type_id: int,
    file_map: Seq<(Seq<char>, Val)>,
    abs_path: Seq<char>,
    rp: Seq<char>,
    parent_visited: Seq<Seq<char>>,
    parent_abs: Seq<Seq<char>>,
) -> Result<crate::value::DocV, ErrV> {
    if !(0 <= type_id < regv.len()) {
        Err(ErrV::UnknownType { type_id })
    } else {
        let h = regv[type_id].header;
        match crate::value::lookup(file_map, h) {
            None => Err(ErrV::InvalidHeader { expected: h, path: rp }),
            Some(Val::Dict(content)) => crate::value::new_doc_spec(
                content,
                Some(rp),
                parent_visited,
                seq![abs_path] + parent_abs,
                type_id,
            ),
            Some(_) => Err(ErrV::TypeMismatch),
        }
    }
}

/// Convert a loaded file body into a typed document, inheriting the
/// requesting document's cycle-detection and diagnostics bookkeeping.
pub fn dict_to_doc_cls(
    reg: &crate::registry::TypeRegistry,
    type_id: usize,
    doc_dict: &Dict,
    absolute_path: &str,
    ref_path_in_repo: &str,
    parent_visited: &Vec<String>,
    parent_abs: &Vec<String>,
) -> (r: Result<crate::value::Document, ConfigError>)
    ensures
        match r {
            Ok(d) => dict_to_doc_spec(
                reg@,
                type_id as int,
                doc_dict@,
                absolute_path@,
                ref_path_in_repo@,
                str_views(parent_visited@),
                str_views(parent_abs@),
            ) == Ok::<crate::value::DocV, ErrV>(d@),
            Err(e) => dict_to_doc_spec(
                reg@,
                type_id as int,
                doc_dict@,
                absolute_path@,
                ref_path_in_repo@,
                str_views(parent_visited@),
                str_views(parent_abs@),
            ) == Err::<crate::value::DocV, ErrV>(e@),
        },
{
    let header = match reg.header(type_id) {
        Ok(h) => h,
        Err(e) => {
            return Err(e);
        },
    };
    match doc_dict.get(header.as_str()) {
        None => Err(
            ConfigError::InvalidHeader {
                expected: header.clone(),
                path: ref_path_in_repo.to_owned(),
            },
        ),
        Some(YcdValue::Dict(d)) => {
            let content = d.duplicate();
            let visited = crate::value::duplicate_strings(parent_visited);
            let mut abs: Vec<String> = Vec::new();
            abs.push(absolute_path.to_owned());
            let mut pabs = crate::value::duplicate_strings(parent_abs);
            abs.append(&mut pabs);
            proof {
                assert(str_views(abs@) =~= seq![absolute_path@] + str_views(parent_abs@));
                assert(str_views(visited@) =~= str_views(parent_visited@));
            }
            crate::value::Document::new(
                content,
                Some(ref_path_in_repo.to_owned()),
                visited,
                abs,
                type_id,
            )
        },
        Some(_) => Err(ConfigError::TypeMismatch),
    }
}

/// The typed documents built from a list of loaded bodies, in order.
pub open spec fn docs_from_dicts_spec(
    regv: Seq<crate::registry::TypeV>,
    type_id: int,
    dicts: Seq<(Seq<char>, Seq<(Seq<char>, Val)>)>,
    rp: Seq<char>,
    parent_visited: Seq<Seq<char>>,
    parent_abs: Seq<Seq<char>>,
) -> Result<Seq<crate::value::DocV>, ErrV>
    decreases dicts.len(),
{
    if dicts.len() == 0 {
        Ok(Seq::empty())
    } else {
        match docs_from_dicts_spec(
            regv,
            type_id,
            dicts.drop_last(),
            rp,
            parent_visited,
            parent_abs,
        ) {
            Err(e) => Err(e),
            Ok(rest) => match dict_to_doc_spec(
                regv,
                type_id,
                dicts.last().1,
                dicts.last().0,
                rp,
                parent_visited,
                parent_abs,
            ) {
                Err(e) => Err(e),
                Ok(d) => Ok(rest.push(d)),
            },
        }
    }
}

/// The candidate documents of one `$ref` across all repository roots, in
/// root order then extension order.
pub open spec fn roots_docs_spec(
    regv: Seq<crate::registry::TypeV>,
    fsv: Seq<(Seq<char>, FileV)>,
    type_id: int,
    roots: Seq<Seq<char>>,
    rp: Seq<char>,
    parent_visited: Seq<Seq<char>>,
    parent_abs: Seq<Seq<char>>,
) -> Result<Seq<crate::value::DocV>, ErrV>
    decreases roots.len(),
{
    if roots.len() == 0 {
        Ok(Seq::empty())
    } else {
        match roots_docs_spec(
            regv,
            fsv,
            type_id,
            roots.drop_last(),
            rp,
            parent_visited,
            parent_abs,
        ) {
            Err(e) => Err(e),
            Ok(rest) => match load_dicts_spec(fsv, candidate_base(roots.last(), rp)) {
                Err(e) => Err(e),
                Ok(dicts) => match docs_from_dicts_spec(
                    regv,
                    type_id,
                    dicts,
                    rp,
                    parent_visited,
                    parent_abs,
                ) {
                    Err(e) => Err(e),
                    Ok(docs) => Ok(rest + docs),
                },
            },
        }
    }
}

/// What loading the documents behind a `$ref` yields.  A non-string
/// reference, or a target still relative after resolution, yields no
/// candidates rather than an error.
pub open spec fn load_referenced_spec(
    regv: Seq<crate::registry::TypeV>,
    fsv: Seq<(Seq<char>, FileV)>,
    roots: Seq<Seq<char>>,
    doc: crate::value::DocV,
) -> Result<Seq<crate::value::DocV>, ErrV> {
    match crate::value::lookup(doc.content, crate::tokens::ref_key()) {
        Some(Val::Str(refstr)) => {
            let rp = path_in_repo_spec(doc.path, refstr);
            if has_prefix(rp, seq!['.', '/']) || has_prefix(rp, seq!['.', '.', '/']) {
                Ok(Seq::empty())
            } else {
                roots_docs_spec(regv, fsv, doc.type_id, roots, rp, doc.visited, doc.abs_paths)
            }
        },
        _ => Ok(Seq::empty()),
    }
}

/// Load every candidate document that the `$ref` of `doc` names, across
/// the repository roots, with `.yml` before `.yaml` at each root.
pub fn load_referenced_document(
    reg: &crate::registry::TypeRegistry,
    fs: &FileSet,
    roots: &Vec<String>,
    doc: &crate::value::Document,
) -> (r: Result<Vec<crate::value::Document>, ConfigError>)
    ensures
        match r {
            Ok(ds) => load_referenced_spec(reg@, fs@, str_views(roots@), doc@) == Ok::<
                Seq<crate::value::DocV>,
                ErrV,
            >(ds@.map_values(|d: crate::value::Document| d@)),
            Err(e) => load_referenced_spec(reg@, fs@, str_views(roots@), doc@) == Err::<
                Seq<crate::value::DocV>,
                ErrV,
            >(e@),
        },
{
    let refstr: String = match doc.content.get(crate::tokens::ref_key_str()) {
        Some(YcdValue::Str(s)) => s.clone(),
        _ => {
            let empty: Vec<crate::value::Document> = Vec::new();
            proof {
                assert(empty@.map_values(|d: crate::value::Document| d@) =~= Seq::<
                    crate::value::DocV,
                >::empty());
            }
            return Ok(empty);
        },
    };
    let rp = path_in_repo(&doc.path, refstr.as_str());
    let rpv = chars_vec(rp.as_str());
    let mut dot = Vec::<char>::new();
    dot.push('.');
    dot.push('/');
    let mut dotdot = Vec::<char>::new();
    dotdot.push('.');
    dotdot.push('.');
    dotdot.push('/');
    proof {
        assert(dot@ =~= seq!['.', '/']);
        assert(dotdot@ =~= seq!['.', '.', '/']);
    }
    if crate::strutil::starts_with_chars(&rpv, &dot) || crate::strutil::starts_with_chars(
        &rpv,
        &dotdot,
    ) {
        let empty: Vec<crate::value::Document> = Vec::new();
        proof {
            assert(empty@.map_values(|d: crate::value::Document| d@) =~= Seq::<
                crate::value::DocV,
            >::empty());
        }
        return Ok(empty);
    }
    let ghost regv = reg@;
    let ghost fsv = fs@;
    let ghost rootsv = str_views(roots@);
    let ghost rpview = rp@;
    let ghost pvis = str_views(doc.visited_paths@);
    let ghost pabs = str_views(doc.absolute_paths@);
    let mut out: Vec<crate::value::Document> = Vec::new();
    let n = roots.len();
    let mut i: usize = 0;
    proof {
        assert(rootsv.take(0) =~= Seq::<Seq<char>>::empty());
        assert(out@.map_values(|d: crate::value::Document| d@) =~= Seq::<
            crate::value::DocV,
        >::empty());
        assert(load_referenced_spec(regv, fsv, rootsv, doc@) == roots_docs_spec(
            regv,
            fsv,
            doc.type_id as int,
            rootsv,
            rpview,
            pvis,
            pabs,
        ));
    }
    while i < n
        invariant
            n == roots@.len(),
            i <= n,
            regv == reg@,
            fsv == fs@,
            rootsv == str_views(roots@),
            rootsv.len() == n,
            rpview == rp@,
            pvis == str_views(doc.visited_paths@),
            pabs == str_views(doc.absolute_paths@),
            doc.type_id <= usize::MAX,
            load_referenced_spec(regv, fsv, rootsv, doc@) == roots_docs_spec(
                regv,
                fsv,
                doc.type_id as int,
                rootsv,
                rpview,
                pvis,
                pabs,
            ),
            roots_docs_spec(regv, fsv, doc.type_id as int, rootsv.take(i as int), rpview, pvis,
                pabs) == Ok::<Seq<crate::value::DocV>, ErrV>(
                out@.map_values(|d: crate::value::Document| d@),
            ),
        decreases n - i,
    {
        proof {
            assert(rootsv.take(i + 1).drop_last() =~= rootsv.take(i as int));
            assert(rootsv.take(i + 1).last() == roots@[i as int]@);
        }
        // Build the candidate base path for this root.
        let stripped: String = {
            let rv = chars_vec(rp.as_str());
            if rv.len() > 0 && rv[0] == '/' {
                proof {
                    assert(has_prefix(rv@, seq!['/'])) by {
                        assert(rv@.take(1) =~= seq![rv@[0]]);
                    }
                }
                let sv = sub_vec(&rv, 1, rv.len());
                proof {
                    assert(sv@ =~= rv@.skip(1));
                }
                string_from_chars(&sv)
            } else {
                proof {
                    assert(!has_prefix(rv@, seq!['/'])) by {
                        if has_prefix(rv@, seq!['/']) {
                            assert(rv@.take(1)[0] == '/');
                        }
                    }
                }
                rp.clone()
            }
        };
        let base0 = concat_str(roots[i].as_str(), "/");
        let base = concat_str(base0.as_str(), stripped.as_str());
        proof {
            assert(base@ =~= candidate_base(roots@[i as int]@, rp@)) by {
                reveal_strlit("/");
            }
        }
        let dicts = match load_dicts(fs, base.as_str()) {
            Ok(ds) => ds,
            Err(e) => {
                proof {
                    lemma_roots_docs_prefix_err(
                        regv,
                        fsv,
                        doc.type_id as int,
                        rootsv,
                        i + 1,
                        rpview,
                        pvis,
                        pabs,
                    );
                    assert(rootsv.take(rootsv.len() as int) =~= rootsv);
                }
                return Err(e);
            },
        };
        let ghost dictsv = dicts@.map_values(|x: (String, Dict)| (x.0@, x.1@));
        let m = dicts.len();
        let mut j: usize = 0;
        proof {
            assert(dictsv.take(0) =~= Seq::<(Seq<char>, Seq<(Seq<char>, Val)>)>::empty());
        }
        let ghost out_before = out@.map_values(|d: crate::value::Document| d@);
        while j < m
            invariant
                m == dicts@.len(),
                j <= m,
                regv == reg@,
                fsv == fs@,
                n == roots@.len(),
                i < n,
                rootsv == str_views(roots@),
                rootsv.len() == n,
                rpview == rp@,
                pvis == str_views(doc.visited_paths@),
                pabs == str_views(doc.absolute_paths@),
                doc.type_id <= usize::MAX,
                load_referenced_spec(regv, fsv, rootsv, doc@) == roots_docs_spec(
                    regv,
                    fsv,
                    doc.type_id as int,
                    rootsv,
                    rpview,
                    pvis,
                    pabs,
                ),
                roots_docs_spec(regv, fsv, doc.type_id as int, rootsv.take(i as int), rpview,
                    pvis, pabs) == Ok::<Seq<crate::value::DocV>, ErrV>(out_before),
                load_dicts_spec(fsv, candidate_base(rootsv[i as int], rpview)) == Ok::<
                    Seq<(Seq<char>, Seq<(Seq<char>, Val)>)>,
                    ErrV,
                >(dictsv),
                dictsv == dicts@.map_values(|x: (String, Dict)| (x.0@, x.1@)),
                dictsv.len() == m,
                out_before.len() <= out@.len(),
                out@.map_values(|d: crate::value::Document| d@) =~= out_before
                    + docs_from_dicts_spec(
                    regv,
                    doc.type_id as int,
                    dictsv.take(j as int),
                    rpview,
                    pvis,
                    pabs,
                )->Ok_0,
                docs_from_dicts_spec(
                    regv,
                    doc.type_id as int,
                    dictsv.take(j as int),
                    rpview,
                    pvis,
                    pabs,
                ) is Ok,
            decreases m - j,
        {
            proof {
                assert(dictsv.take(j + 1).drop_last() =~= dictsv.take(j as int));
                assert(dictsv.take(j + 1).last() == dictsv[j as int]);
                assert(dictsv[j as int] == (dicts@[j as int].0@, dicts@[j as int].1@));
            }
            let d = match dict_to_doc_cls(
                reg,
                doc.type_id,
                &dicts[j].1,
                dicts[j].0.as_str(),
                rp.as_str(),
                &doc.visited_paths,
                &doc.absolute_paths,
            ) {
                Ok(d) => d,
                Err(e) => {
                    proof {
                        assert(dictsv.take(j + 1) =~= dictsv.take(j as int).push(
                            dictsv[j as int],
                        ));
                        assert(docs_from_dicts_spec(
                            regv,
                            doc.type_id as int,
                            dictsv.take(j + 1),
                            rpview,
                            pvis,
                            pabs,
                        ) is Err);
                        lemma_docs_from_dicts_prefix_err(
                            regv,
                            doc.type_id as int,
                            dictsv,
                            j + 1,
                            rpview,
                            pvis,
                            pabs,
                        );
                        assert(dictsv.take(dictsv.len() as int) =~= dictsv);
                        assert(rootsv.take(i + 1).drop_last() =~= rootsv.take(i as int));
                        assert(rootsv.take(i + 1).last() == rootsv[i as int]);
                        assert(roots_docs_spec(regv, fsv, doc.type_id as int, rootsv.take(i + 1),
                            rpview, pvis, pabs) is Err);
                        lemma_roots_docs_prefix_err(
                            regv,
                            fsv,
                            doc.type_id as int,
                            rootsv,
                            i + 1,
                            rpview,
                            pvis,
                            pabs,
                        );
                        assert(rootsv.take(rootsv.len() as int) =~= rootsv);
                    }
                    return Err(e);
                },
            };
            let ghost old_out = out@.map_values(|dd: crate::value::Document| dd@);
            out.push(d);
            proof {
                assert(out@.map_values(|dd: crate::value::Document| dd@) =~= old_out.push(
                    out@.last()@,
                ));
            }
            j = j + 1;
        }
        proof {
            assert(dictsv.take(m as int) =~= dictsv);
            assert(roots_docs_spec(regv, fsv, doc.type_id as int, rootsv.take(i + 1), rpview,
                pvis, pabs) == Ok::<Seq<crate::value::DocV>, ErrV>(
                out@.map_values(|d: crate::value::Document| d@),
            ));
        }
        i = i + 1;
    }
    proof {
        assert(rootsv.take(n as int) =~= rootsv);
    }
    Ok(out)
}

/// If a prefix of the roots already fails, the whole lookup fails the same
/// way.
proof fn lemma_roots_docs_prefix_err(
    regv: Seq<crate::registry::TypeV>,
    fsv: Seq<(Seq<char>, FileV)>,
    type_id: int,
    roots: Seq<Seq<char>>,
    i: int,
    rp: Seq<char>,
    pvis: Seq<Seq<char>>,
    pabs: Seq<Seq<char>>,
)
    requires
        0 <= i <= roots.len(),
        roots_docs_spec(regv, fsv, type_id, roots.take(i), rp, pvis, pabs) is Err,
    ensures
        roots_docs_spec(regv, fsv, type_id, roots.take(roots.len() as int), rp, pvis, pabs)
            == roots_docs_spec(regv, fsv, type_id, roots.take(i), rp, pvis, pabs),
    decreases roots.len() - i,
{
    if i < roots.len() {
        assert(roots.take(i + 1).drop_last() =~= roots.take(i));
        lemma_roots_docs_prefix_err(regv, fsv, type_id, roots, i + 1, rp, pvis, pabs);
    }
}

/// If a prefix of the bodies already fails, the whole conversion fails the
/// same way.
proof fn lemma_docs_from_dicts_prefix_err(
    regv: Seq<crate::registry::TypeV>,
    type_id: int,
    dicts: Seq<(Seq<char>, Seq<(Seq<char>, Val)>)>,
    i: int,
    rp: Seq<char>,
    pvis: Seq<Seq<char>>,
    pabs: Seq<Seq<char>>,
)
    requires
        0 <= i <= dicts.len(),
        docs_from_dicts_spec(regv, type_id, dicts.take(i), rp, pvis, pabs) is Err,
    ensures
        docs_from_dicts_spec(regv, type_id, dicts.take(dicts.len() as int), rp, pvis, pabs)
            == docs_from_dicts_spec(regv, type_id, dicts.take(i), rp, pvis, pabs),
    decreases dicts.len() - i,
{
    if i < dicts.len() {
        assert(dicts.take(i + 1).drop_last() =~= dicts.take(i));
        lemma_docs_from_dicts_prefix_err(regv, type_id, dicts, i + 1, rp, pvis, pabs);
    }
}

} // verus!
