//! Resolution of `IMPORT`: textual inlining of imported files.
//!
//! `IMPORT "path.sga";` reads the file, parses it as a program of its own,
//! resolves its own imports, and inlines its top-level statements in place
//! of the `IMPORT`, in the order the imports appear. A file imported twice,
//! directly or through other files, is inlined once; an import cycle is an
//! error. The path of an `IMPORT` is relative to the directory of the file
//! that contains it. An `IMPORT` may not name an absolute path, nor lead out
//! of the directory of the entry file (after `.` and `..` are resolved).
//!
//! The resolution is a state machine: `Resolver::advance`, `located` and
//! `loaded` make every decision and say what the caller must do next — find
//! where a path leads (`Locate`), read and parse a file (`Load`) — and the
//! caller, which owns the file system, reports back.
use vstd::prelude::*;
use crate::ast::{Stmt, StmtV, names_view, stmt_view, stmts_view};
use crate::text::push_str;

verus! {

/// An import error.
#[derive(Debug, Clone)]
pub struct ImportError(pub String);

impl ImportError {
    /// The error as it is shown to the user: `ошибка импорта: ...`.
    pub fn describe(&self) -> (r: String)
        ensures
            r@ == "ошибка импорта: "@ + self.0@,
    {
        let mut m = String::new();
        push_str(&mut m, "ошибка импорта: ");
        push_str(&mut m, self.0.as_str());
        m
    }
}

/// A source of module files.
pub trait ModuleLoader {
    /// Reads the file at `path`.
    fn read(&self, path: &str) -> Result<String, ImportError>;
}

/// One file being inlined: its statements not yet processed, its directory,
/// and the statements produced so far.
pub struct FrameV {
    pub rest: Seq<StmtV>,
    pub dir: Seq<char>,
    pub out: Seq<StmtV>,
}

/// The state of a resolution: the files being inlined (the entry file
/// first), the keys of all files seen, the keys of the chain of files being
/// inlined, the file located but not loaded yet (its path and directory),
/// and the key of the directory that imports must stay in.
pub struct ResolverV {
    pub frames: Seq<FrameV>,
    pub visited: Seq<Seq<char>>,
    pub chain: Seq<Seq<char>>,
    pub pending: Option<(Seq<char>, Seq<char>)>,
    pub root: Seq<char>,
}

// ------------------------------------------------------------------ paths

/// A path separator.
pub open spec fn is_sep(c: char) -> bool {
    c == '/' || c == '\\'
}

/// An ASCII letter.
pub open spec fn is_ascii_letter(c: char) -> bool {
    ('a' <= c && c <= 'z') || ('A' <= c && c <= 'Z')
}

/// Whether a path is absolute: it starts with a separator, or with a drive
/// letter and `:`.
pub open spec fn is_absolute_path(p: Seq<char>) -> bool {
    (p.len() > 0 && is_sep(p[0])) || (p.len() >= 2 && p[1] == ':' && is_ascii_letter(p[0]))
}

/// The component `..`.
pub open spec fn dotdot() -> Seq<char> {
    seq!['.', '.']
}

/// The components after `c` is added: an empty component and `.` are
/// dropped, and `..` removes the last component when there is one other
/// than `..` to remove.
pub open spec fn add_component(stack: Seq<Seq<char>>, c: Seq<char>) -> Seq<Seq<char>> {
    if c.len() == 0 || c == seq!['.'] {
        stack
    } else if c == dotdot() && stack.len() > 0 && stack.last() != dotdot() {
        stack.drop_last()
    } else {
        stack.push(c)
    }
}

/// The components of `p` from position `i` on; `stack` holds the components
/// before and `cur` the characters of the one being read.
pub open spec fn components_from(p: Seq<char>, i: nat, stack: Seq<Seq<char>>, cur: Seq<char>) -> Seq<Seq<char>>
    decreases p.len() - i,
{
    if i >= p.len() {
        add_component(stack, cur)
    } else if is_sep(p[i as int]) {
        components_from(p, i + 1, add_component(stack, cur), Seq::empty())
    } else {
        components_from(p, i + 1, stack, cur.push(p[i as int]))
    }
}

/// The components of a path, with `.` and `..` resolved lexically.
pub open spec fn path_components(p: Seq<char>) -> Seq<Seq<char>> {
    components_from(p, 0, Seq::empty(), Seq::empty())
}

/// Whether `key` lies inside the directory `root`: the components of `root`
/// begin those of `key`, and none of the rest is `..`.
pub open spec fn within_root(root: Seq<char>, key: Seq<char>) -> bool {
    let r = path_components(root);
    let k = path_components(key);
    r.len() <= k.len() && k.take(r.len() as int) == r && !k.skip(r.len() as int).contains(dotdot())
}

/// The message for an absolute import path.
pub open spec fn msg_absolute(rel: Seq<char>) -> Seq<char> {
    "IMPORT с абсолютным путём запрещён: '"@ + rel + "'"@
}

/// The message for an import that leads out of the entry directory.
pub open spec fn msg_outside(key: Seq<char>) -> Seq<char> {
    "IMPORT '"@ + key + "' выходит за пределы каталога входного файла"@
}

/// What the caller must do next.
pub enum ActionV {
    Locate { dir: Seq<char>, rel: Seq<char> },
    Load { path: Seq<char> },
    Done(Seq<StmtV>),
    Fail(Seq<char>),
}

/// The work left: the statements not yet processed, and one unit per file.
pub open spec fn work(frames: Seq<FrameV>) -> nat
    decreases frames.len(),
{
    if frames.len() == 0 {
        0
    } else {
        work(frames.drop_last()) + frames.last().rest.len() + 1
    }
}

/// Whether a program has no top-level `IMPORT`.
pub open spec fn no_imports(v: Seq<StmtV>) -> bool {
    forall|i: int| 0 <= i < v.len() ==> !(#[trigger] v[i] is Import)
}

/// Processes statements of the innermost file until an `IMPORT` needs
/// locating, or the entry file is finished. A finished imported file is
/// appended to the file that imported it.
pub open spec fn spec_advance(st: ResolverV) -> (ResolverV, ActionV)
    decreases work(st.frames),
{
    if st.frames.len() == 0 {
        (st, ActionV::Done(Seq::empty()))
    } else {
        let top = st.frames.last();
        if top.rest.len() == 0 {
            if st.frames.len() == 1 {
                (ResolverV { frames: Seq::empty(), chain: st.chain.drop_last(), ..st }, ActionV::Done(top.out))
            } else {
                let rest_frames = st.frames.drop_last();
                let parent = rest_frames.last();
                let merged = FrameV { out: parent.out + top.out, ..parent };
                proof {
                    let nf = rest_frames.update(rest_frames.len() - 1, merged);
                    assert(nf.drop_last() =~= rest_frames.drop_last());
                    assert(work(nf) == work(rest_frames));
                    assert(work(st.frames) == work(rest_frames) + top.rest.len() + 1);
                }
                spec_advance(
                    ResolverV {
                        frames: rest_frames.update(rest_frames.len() - 1, merged),
                        chain: st.chain.drop_last(),
                        ..st
                    },
                )
            }
        } else {
            let s = top.rest[0];
            let top2 = FrameV { rest: top.rest.drop_first(), ..top };
            match s {
                StmtV::Import(rel) => (
                    ResolverV { frames: st.frames.update(st.frames.len() - 1, top2), ..st },
                    if is_absolute_path(rel) {
                        ActionV::Fail(msg_absolute(rel))
                    } else {
                        ActionV::Locate { dir: top.dir, rel }
                    },
                ),
                _ => {
                    proof {
                        assert(st.frames.update(st.frames.len() - 1, FrameV { out: top.out.push(s), ..top2 }).drop_last()
                            =~= st.frames.drop_last());
                    }
                    spec_advance(
                        ResolverV {
                            frames: st.frames.update(st.frames.len() - 1, FrameV { out: top.out.push(s), ..top2 }),
                            ..st
                        },
                    )
                },
            }
        }
    }
}

/// The message for an import cycle: the chain of files, then the file that
/// closes the cycle.
pub open spec fn msg_cycle(chain: Seq<Seq<char>>, key: Seq<char>) -> Seq<char> {
    "циклический IMPORT обнаружен: "@ + joined(chain.push(key))
}

/// Names joined with ` -> `.
pub open spec fn joined(ns: Seq<Seq<char>>) -> Seq<char>
    decreases ns.len(),
{
    if ns.len() == 0 {
        Seq::empty()
    } else if ns.len() == 1 {
        ns[0]
    } else {
        joined(ns.drop_last()) + " -> "@ + ns.last()
    }
}

/// The decision on a located import: a file outside the entry directory is
/// refused; a file of the current chain closes a cycle; a file seen before
/// is skipped; any other is to be loaded.
pub open spec fn spec_located(st: ResolverV, full: Seq<char>, key: Seq<char>, dir: Seq<char>) -> (
    ResolverV,
    ActionV,
) {
    if !within_root(st.root, key) {
        (st, ActionV::Fail(msg_outside(key)))
    } else if st.chain.contains(key) {
        (st, ActionV::Fail(msg_cycle(st.chain, key)))
    } else if st.visited.contains(key) {
        spec_advance(st)
    } else {
        (
            ResolverV {
                visited: st.visited.push(key),
                chain: st.chain.push(key),
                pending: Some((full, dir)),
                ..st
            },
            ActionV::Load { path: full },
        )
    }
}

/// The outcome of loading a file.
pub enum LoadV {
    Parsed(Seq<StmtV>),
    Unreadable(Seq<char>),
    Unparsable(Seq<char>),
}

/// The message for a file that could not be parsed.
pub open spec fn msg_unparsable(path: Seq<char>, m: Seq<char>) -> Seq<char> {
    "ошибка разбора импортируемого файла '"@ + path + "': "@ + m
}

/// The decision on a loaded file: a parsed one is inlined next; a file
/// that could not be read or parsed is an error.
pub open spec fn spec_loaded(st: ResolverV, outcome: LoadV) -> (ResolverV, ActionV) {
    let (full, dir) = st.pending.unwrap();
    match outcome {
        LoadV::Parsed(p) => spec_advance(
            ResolverV {
                frames: st.frames.push(FrameV { rest: p, dir, out: Seq::empty() }),
                pending: None,
                ..st
            },
        ),
        LoadV::Unreadable(m) => (st, ActionV::Fail(m)),
        LoadV::Unparsable(m) => (st, ActionV::Fail(msg_unparsable(full, m))),
    }
}

/// The statements produced so far are free of `IMPORT`.
pub open spec fn outs_flat(frames: Seq<FrameV>) -> bool {
    forall|i: int| 0 <= i < frames.len() ==> no_imports(#[trigger] frames[i].out)
}

/// The result of advancing: statements produced stay free of `IMPORT`, and
/// so is a finished program.
pub proof fn lemma_advance_flat(st: ResolverV)
    requires
        outs_flat(st.frames),
    ensures
        outs_flat(spec_advance(st).0.frames),
        spec_advance(st).1 matches ActionV::Done(p) ==> no_imports(p),
    decreases work(st.frames),
{
    if st.frames.len() > 0 {
        let top = st.frames.last();
        if top.rest.len() == 0 {
            if st.frames.len() > 1 {
                let rest_frames = st.frames.drop_last();
                let parent = rest_frames.last();
                let merged = FrameV { out: parent.out + top.out, ..parent };
                let nf = rest_frames.update(rest_frames.len() - 1, merged);
                assert(no_imports(merged.out)) by {
                    assert(no_imports(parent.out));
                    assert(no_imports(top.out));
                    assert forall|i: int| 0 <= i < merged.out.len() implies !(#[trigger] merged.out[i] is Import) by {
                        if i < parent.out.len() {
                            assert(merged.out[i] == parent.out[i]);
                        } else {
                            assert(merged.out[i] == top.out[i - parent.out.len()]);
                        }
                    }
                }
                assert(outs_flat(nf)) by {
                    assert forall|i: int| 0 <= i < nf.len() implies no_imports(#[trigger] nf[i].out) by {
                        if i < nf.len() - 1 {
                            assert(nf[i] == st.frames[i]);
                        }
                    }
                }
                assert(work(rest_frames) < work(st.frames));
                assert(work(nf) == work(rest_frames)) by {
                    assert(nf.drop_last() =~= rest_frames.drop_last());
                }
                lemma_advance_flat(ResolverV { frames: nf, chain: st.chain.drop_last(), ..st });
            } else {
                assert(no_imports(st.frames[0].out));
            }
        } else {
            let s = top.rest[0];
            let top2 = FrameV { rest: top.rest.drop_first(), ..top };
            match s {
                StmtV::Import(rel) => {
                    let nf = st.frames.update(st.frames.len() - 1, top2);
                    assert(outs_flat(nf)) by {
                        assert forall|i: int| 0 <= i < nf.len() implies no_imports(#[trigger] nf[i].out) by {
                            if i < nf.len() - 1 {
                                assert(nf[i] == st.frames[i]);
                            } else {
                                assert(nf[i].out == top.out);
                            }
                        }
                    }
                },
                _ => {
                    let top3 = FrameV { out: top.out.push(s), ..top2 };
                    let nf = st.frames.update(st.frames.len() - 1, top3);
                    assert(outs_flat(nf)) by {
                        assert forall|i: int| 0 <= i < nf.len() implies no_imports(#[trigger] nf[i].out) by {
                            if i < nf.len() - 1 {
                                assert(nf[i] == st.frames[i]);
                            } else {
                                assert(no_imports(top.out));
                                assert forall|j: int| 0 <= j < top3.out.len() implies !(#[trigger] top3.out[j] is Import) by {
                                    if j < top.out.len() {
                                        assert(top3.out[j] == top.out[j]);
                                    }
                                }
                            }
                        }
                    }
                    assert(work(nf) + 1 == work(st.frames)) by {
                        assert(nf.drop_last() =~= st.frames.drop_last());
                    }
                    lemma_advance_flat(ResolverV { frames: nf, ..st });
                },
            }
        }
    }
}


/// Advancing keeps the keys seen and the root, and never asks for a file
/// to be loaded.
pub proof fn lemma_advance_keeps_seen(st: ResolverV)
    ensures
        spec_advance(st).0.visited == st.visited,
        spec_advance(st).0.root == st.root,
        !(spec_advance(st).1 is Load),
    decreases work(st.frames),
{
    if st.frames.len() > 0 {
        let top = st.frames.last();
        if top.rest.len() == 0 {
            if st.frames.len() > 1 {
                let rest_frames = st.frames.drop_last();
                let parent = rest_frames.last();
                let merged = FrameV { out: parent.out + top.out, ..parent };
                let nf = rest_frames.update(rest_frames.len() - 1, merged);
                assert(work(nf) == work(rest_frames)) by {
                    assert(nf.drop_last() =~= rest_frames.drop_last());
                }
                lemma_advance_keeps_seen(ResolverV { frames: nf, chain: st.chain.drop_last(), ..st });
            }
        } else {
            let s = top.rest[0];
            let top2 = FrameV { rest: top.rest.drop_first(), ..top };
            if !(s is Import) {
                let nf = st.frames.update(st.frames.len() - 1, FrameV { out: top.out.push(s), ..top2 });
                assert(work(nf) + 1 == work(st.frames)) by {
                    assert(nf.drop_last() =~= st.frames.drop_last());
                }
                lemma_advance_keeps_seen(ResolverV { frames: nf, ..st });
            }
        }
    }
}

/// A file is loaded at most once: the resolver asks to load a file only
/// when its key was never seen, and marks it seen at once; every other
/// answer to a located import keeps the keys seen (and `advance` and
/// `loaded` keep them too).
pub proof fn lemma_load_at_most_once(st: ResolverV, full: Seq<char>, key: Seq<char>, dir: Seq<char>)
    ensures
        spec_located(st, full, key, dir).1 is Load ==> !st.visited.contains(key) && spec_located(
            st,
            full,
            key,
            dir,
        ).0.visited == st.visited.push(key),
        !(spec_located(st, full, key, dir).1 is Load) ==> spec_located(st, full, key, dir).0.visited == st.visited,
{
    lemma_advance_keeps_seen(st);
}

/// Reporting a loaded file keeps the keys seen.
pub proof fn lemma_loaded_keeps_seen(st: ResolverV, outcome: LoadV)
    requires
        st.pending is Some,
    ensures
        spec_loaded(st, outcome).0.visited == st.visited,
{
    let (f, d) = st.pending.unwrap();
    match outcome {
        LoadV::Parsed(p) => {
            lemma_advance_keeps_seen(
                ResolverV { frames: st.frames.push(FrameV { rest: p, dir: d, out: Seq::empty() }), pending: None, ..st },
            );
        },
        _ => {},
    }
}

// ------------------------------------------------------------------ executable

struct Frame {
    rest: Vec<Stmt>,
    dir: String,
    out: Vec<Stmt>,
}

spec fn frame_view(f: Frame) -> FrameV {
    FrameV { rest: stmts_view(f.rest@), dir: f.dir@, out: stmts_view(f.out@) }
}

/// The resolution of the imports of one entry file.
pub struct Resolver {
    frames: Vec<Frame>,
    visited: Vec<String>,
    chain: Vec<String>,
    pending: Option<(String, String)>,
    root: String,
}

/// What the caller must do next: find the path and key that `rel`
/// designates from `dir` and report them to `Resolver::located`; read and
/// parse the file at `path` and report to `Resolver::loaded`; or stop with
/// the resolved program or an error.
pub enum ResolveAction {
    Locate { dir: String, rel: String },
    Load { path: String },
    Done(Vec<Stmt>),
    Fail(ImportError),
}

/// The outcome of reading and parsing a file.
pub enum LoadOutcome {
    Parsed(Vec<Stmt>),
    Unreadable(ImportError),
    Unparsable(String),
}

/// The value of an action.
pub open spec fn action_view(a: ResolveAction) -> ActionV {
    match a {
        ResolveAction::Locate { dir, rel } => ActionV::Locate { dir: dir@, rel: rel@ },
        ResolveAction::Load { path } => ActionV::Load { path: path@ },
        ResolveAction::Done(p) => ActionV::Done(stmts_view(p@)),
        ResolveAction::Fail(e) => ActionV::Fail(e.0@),
    }
}

/// The value of a load outcome.
pub open spec fn load_view(o: LoadOutcome) -> LoadV {
    match o {
        LoadOutcome::Parsed(p) => LoadV::Parsed(stmts_view(p@)),
        LoadOutcome::Unreadable(e) => LoadV::Unreadable(e.0@),
        LoadOutcome::Unparsable(m) => LoadV::Unparsable(m@),
    }
}

impl View for Resolver {
    type V = ResolverV;

    closed spec fn view(&self) -> ResolverV {
        ResolverV {
            frames: self.frames@.map_values(|f: Frame| frame_view(f)),
            visited: names_view(self.visited@),
            chain: names_view(self.chain@),
            pending: match self.pending {
                Some(p) => Some((p.0@, p.1@)),
                None => None,
            },
            root: self.root@,
        }
    }
}

fn names_have(v: &Vec<String>, n: &String) -> (r: bool)
    ensures
        r == names_view(v@).contains(n@),
{
    let mut i: usize = 0;
    while i < v.len()
        invariant
            i <= v.len(),
            forall|j: int| 0 <= j < i ==> names_view(v@)[j] != n@,
        decreases v.len() - i,
    {
        if crate::semantic::str_eq(&v[i], n) {
            assert(names_view(v@)[i as int] == n@);
            return true;
        }
        i = i + 1;
    }
    false
}

/// The chain followed by `key`, joined with ` -> `.
fn join_chain(chain: &Vec<String>, key: &String) -> (r: String)
    ensures
        r@ == joined(names_view(chain@).push(key@)),
{
    let ghost all = names_view(chain@).push(key@);
    let mut acc = String::new();
    let n = chain.len();
    let mut i: usize = 0;
    assert(all.take(0) =~= Seq::<Seq<char>>::empty());
    while i < n
        invariant
            n == chain.len(),
            i <= n,
            all == names_view(chain@).push(key@),
            acc@ == joined(all.take(i as int)),
        decreases n - i,
    {
        assert(chain@[i as int]@ == all[i as int]);
        assert(all.take(i + 1).drop_last() =~= all.take(i as int));
        if i > 0 {
            push_str(&mut acc, " -> ");
        } else {
            assert(all.take(1) =~= seq![all[0]]);
        }
        push_str(&mut acc, chain[i].as_str());
        i = i + 1;
    }
    assert(all.take(n + 1).drop_last() =~= all.take(n as int));
    if n > 0 {
        push_str(&mut acc, " -> ");
    } else {
        assert(all.take(1) =~= seq![all[0]]);
    }
    push_str(&mut acc, key.as_str());
    assert(all.take(n + 1) =~= all);
    acc
}

fn is_sep_char(c: char) -> (r: bool)
    ensures
        r == is_sep(c),
{
    c == '/' || c == '\\'
}

fn is_absolute(p: &str) -> (r: bool)
    ensures
        r == is_absolute_path(p@),
{
    let cs = crate::text::chars_of(p);
    if cs.len() > 0 && is_sep_char(cs[0]) {
        return true;
    }
    cs.len() >= 2 && cs[1] == ':' && (('a' <= cs[0] && cs[0] <= 'z') || ('A' <= cs[0] && cs[0] <= 'Z'))
}

/// The characters of each component.
pub open spec fn comps_view(v: Seq<Vec<char>>) -> Seq<Seq<char>> {
    v.map_values(|c: Vec<char>| c@)
}

fn chars_equal(a: &Vec<char>, b: &Vec<char>) -> (r: bool)
    ensures
        r == (a@ == b@),
{
    if a.len() != b.len() {
        return false;
    }
    let mut i: usize = 0;
    while i < a.len()
        invariant
            i <= a.len(),
            a.len() == b.len(),
            forall|j: int| 0 <= j < i ==> a@[j] == b@[j],
        decreases a.len() - i,
    {
        if a[i] != b[i] {
            return false;
        }
        i = i + 1;
    }
    assert(a@ =~= b@);
    true
}

fn is_dot(c: &Vec<char>) -> (r: bool)
    ensures
        r == (c@ == seq!['.']),
{
    if c.len() == 1 && c[0] == '.' {
        assert(c@ =~= seq!['.']);
        true
    } else {
        false
    }
}

fn is_dotdot(c: &Vec<char>) -> (r: bool)
    ensures
        r == (c@ == dotdot()),
{
    if c.len() == 2 && c[0] == '.' && c[1] == '.' {
        assert(c@ =~= dotdot());
        true
    } else {
        false
    }
}

fn push_component(stack: &mut Vec<Vec<char>>, c: Vec<char>)
    ensures
        comps_view(final(stack)@) == add_component(comps_view(old(stack)@), c@),
{
    let ghost old_v = comps_view(stack@);
    if c.len() == 0 || is_dot(&c) {
        return;
    }
    if is_dotdot(&c) && stack.len() > 0 && !is_dotdot(&stack[stack.len() - 1]) {
        stack.pop();
        assert(comps_view(stack@) =~= old_v.drop_last());
        return;
    }
    stack.push(c);
    assert(comps_view(stack@) =~= old_v.push(c@));
}

fn components(p: &str) -> (r: Vec<Vec<char>>)
    ensures
        comps_view(r@) == path_components(p@),
{
    let cs = crate::text::chars_of(p);
    let mut stack: Vec<Vec<char>> = Vec::new();
    let mut cur: Vec<char> = Vec::new();
    let mut i: usize = 0;
    assert(comps_view(stack@) =~= Seq::<Seq<char>>::empty());
    assert(cur@ =~= Seq::<char>::empty());
    while i < cs.len()
        invariant
            i <= cs.len(),
            cs@ == p@,
            components_from(p@, i as nat, comps_view(stack@), cur@) == path_components(p@),
        decreases cs.len() - i,
    {
        if is_sep_char(cs[i]) {
            let c = cur;
            push_component(&mut stack, c);
            cur = Vec::new();
            assert(cur@ =~= Seq::<char>::empty());
        } else {
            cur.push(cs[i]);
        }
        i = i + 1;
    }
    push_component(&mut stack, cur);
    stack
}

fn inside_root(root: &str, key: &str) -> (r: bool)
    ensures
        r == within_root(root@, key@),
{
    let rc = components(root);
    let kc = components(key);
    let ghost r = comps_view(rc@);
    let ghost k = comps_view(kc@);
    if rc.len() > kc.len() {
        return false;
    }
    let mut i: usize = 0;
    while i < rc.len()
        invariant
            i <= rc.len() <= kc.len(),
            r == comps_view(rc@),
            k == comps_view(kc@),
            r == path_components(root@),
            k == path_components(key@),
            forall|j: int| 0 <= j < i ==> k[j] == r[j],
        decreases rc.len() - i,
    {
        if !chars_equal(&rc[i], &kc[i]) {
            assert(k[i as int] == kc@[i as int]@ && r[i as int] == rc@[i as int]@);
            assert(k.take(r.len() as int)[i as int] != r[i as int]);
            assert(k.take(r.len() as int) != r);
            return false;
        }
        i = i + 1;
    }
    assert(k.take(r.len() as int) =~= r);
    let mut j: usize = rc.len();
    while j < kc.len()
        invariant
            rc.len() <= j <= kc.len(),
            r == comps_view(rc@),
            k == comps_view(kc@),
            r == path_components(root@),
            k == path_components(key@),
            forall|t: int| rc.len() <= t < j ==> k[t] != dotdot(),
        decreases kc.len() - j,
    {
        if is_dotdot(&kc[j]) {
            assert(k[j as int] == kc@[j as int]@);
            assert(k.skip(r.len() as int)[j - r.len()] == dotdot());
            assert(k.skip(r.len() as int).contains(dotdot()));
            return false;
        }
        j = j + 1;
    }
    assert forall|t: int| 0 <= t < k.skip(r.len() as int).len() implies k.skip(r.len() as int)[t] != dotdot() by {
        assert(k.skip(r.len() as int)[t] == k[t + r.len()]);
    }
    true
}

impl Resolver {
    /// Statements produced are free of `IMPORT`, and the chain has one key
    /// per file being inlined, plus one for a file located but not loaded.
    pub closed spec fn wf(&self) -> bool {
        &&& outs_flat(self@.frames)
        &&& self@.chain.len() == self@.frames.len() + (if self@.pending is Some { 1nat } else { 0nat })
    }

    /// A resolution of `program`, the contents of the entry file, whose
    /// directory is `entry_dir` and whose key is `entry_key`; `root` is the
    /// key of the entry file's directory, which imports must stay in.
    pub fn new(program: Vec<Stmt>, entry_dir: String, entry_key: String, root: String) -> (r: Self)
        ensures
            r.wf(),
            r@ == (ResolverV {
                frames: seq![FrameV { rest: stmts_view(program@), dir: entry_dir@, out: Seq::empty() }],
                visited: seq![entry_key@],
                chain: seq![entry_key@],
                pending: None,
                root: root@,
            }),
    {
        let ghost pv = stmts_view(program@);
        let ghost dv = entry_dir@;
        let mut frames: Vec<Frame> = Vec::new();
        frames.push(Frame { rest: program, dir: entry_dir, out: Vec::new() });
        let mut visited: Vec<String> = Vec::new();
        visited.push(entry_key.clone());
        let mut chain: Vec<String> = Vec::new();
        chain.push(entry_key);
        let r = Resolver { frames, visited, chain, pending: None, root };
        assert(stmts_view(Seq::<Stmt>::empty()) =~= Seq::<StmtV>::empty());
        assert(r@.frames =~= seq![FrameV { rest: pv, dir: dv, out: Seq::empty() }]);
        assert(r@.visited =~= seq![r@.visited[0]]);
        assert(r@.chain =~= seq![r@.chain[0]]);
        r
    }

    /// Processes statements until an `IMPORT` needs locating or the entry
    /// file is finished.
    pub fn advance(&mut self) -> (r: ResolveAction)
        requires
            old(self).wf(),
            old(self)@.pending is None,
        ensures
            final(self).wf(),
            (final(self)@, action_view(r)) == spec_advance(old(self)@),
            r matches ResolveAction::Done(p) ==> no_imports(stmts_view(p@)),
    {
        proof { lemma_advance_flat(self@); }
        loop
            invariant
                self.wf(),
                self@.pending is None,
                spec_advance(self@) == spec_advance(old(self)@),
                outs_flat(spec_advance(self@).0.frames),
                spec_advance(self@).1 matches ActionV::Done(p) ==> no_imports(p),
            decreases work(self@.frames),
        {
            let ghost st = self@;
            let n = self.frames.len();
            if n == 0 {
                let r = ResolveAction::Done(Vec::new());
                assert(stmts_view(Seq::<Stmt>::empty()) =~= Seq::<StmtV>::empty());
                return r;
            }
            assert(st.frames.last() == frame_view(self.frames@[n - 1]));
            if self.frames[n - 1].rest.len() == 0 {
                let f = self.frames.pop().unwrap();
                if n == 1 {
                    self.chain.pop();
                    assert(self@.frames =~= Seq::<FrameV>::empty());
                    assert(self@.chain =~= st.chain.drop_last());
                    return ResolveAction::Done(f.out);
                }
                self.chain.pop();
                let mut out = f.out;
                let mut parent = self.frames.pop().unwrap();
                let ghost pout = parent.out@;
                let ghost cout = out@;
                parent.out.append(&mut out);
                proof {
                    assert(parent.out@ == pout + cout);
                    crate::ast::lemma_stmts_view_index(pout);
                    crate::ast::lemma_stmts_view_index(cout);
                    crate::ast::lemma_stmts_view_index(parent.out@);
                    assert(stmts_view(parent.out@) =~= stmts_view(pout) + stmts_view(cout));
                }
                self.frames.push(parent);
                let ghost rest_frames = st.frames.drop_last();
                assert(self@.frames =~= rest_frames.update(
                    rest_frames.len() - 1,
                    FrameV { out: rest_frames.last().out + st.frames.last().out, ..rest_frames.last() },
                ));
                assert(self@.chain =~= st.chain.drop_last());
                assert(self@.frames.drop_last() =~= rest_frames.drop_last());
                assert(work(st.frames) == work(rest_frames) + st.frames.last().rest.len() + 1);
                continue;
            }
            let mut top = self.frames.pop().unwrap();
            let ghost trest = top.rest@;
            proof { crate::ast::lemma_stmts_view_index(trest); }
            let s = top.rest.remove(0);
            proof {
                crate::ast::lemma_stmts_view_index(top.rest@);
                assert(stmts_view(top.rest@) =~= stmts_view(trest).drop_first());
                assert(stmt_view(s) == stmts_view(trest)[0]);
            }
            match s {
                Stmt::Import(rel) => {
                    let dir = top.dir.clone();
                    self.frames.push(top);
                    assert(self@.frames =~= st.frames.update(
                        st.frames.len() - 1,
                        FrameV { rest: st.frames.last().rest.drop_first(), ..st.frames.last() },
                    ));
                    if is_absolute(rel.as_str()) {
                        let mut m = String::new();
                        push_str(&mut m, "IMPORT с абсолютным путём запрещён: '");
                        push_str(&mut m, rel.as_str());
                        push_str(&mut m, "'");
                        return ResolveAction::Fail(ImportError(m));
                    }
                    return ResolveAction::Locate { dir, rel };
                },
                other => {
                    let ghost ov = top.out@;
                    let ghost sv = stmt_view(other);
                    top.out.push(other);
                    proof {
                        crate::ast::lemma_stmts_view_push(ov, other);
                    }
                    self.frames.push(top);
                    assert(self@.frames =~= st.frames.update(
                        st.frames.len() - 1,
                        FrameV {
                            out: st.frames.last().out.push(sv),
                            rest: st.frames.last().rest.drop_first(),
                            ..st.frames.last()
                        },
                    ));
                    assert(self@.frames.drop_last() =~= st.frames.drop_last());
                },
            }
        }
    }

    /// Reports where the last `Locate` leads: the full path, the key that
    /// identifies the file, and the file's directory.
    pub fn located(&mut self, full: String, key: String, dir: String) -> (r: ResolveAction)
        requires
            old(self).wf(),
            old(self)@.pending is None,
        ensures
            final(self).wf(),
            (final(self)@, action_view(r)) == spec_located(old(self)@, full@, key@, dir@),
            r matches ResolveAction::Done(p) ==> no_imports(stmts_view(p@)),
    {
        if !inside_root(self.root.as_str(), key.as_str()) {
            let mut m = String::new();
            push_str(&mut m, "IMPORT '");
            push_str(&mut m, key.as_str());
            push_str(&mut m, "' выходит за пределы каталога входного файла");
            return ResolveAction::Fail(ImportError(m));
        }
        if names_have(&self.chain, &key) {
            let mut m = String::new();
            push_str(&mut m, "циклический IMPORT обнаружен: ");
            let j = join_chain(&self.chain, &key);
            push_str(&mut m, j.as_str());
            return ResolveAction::Fail(ImportError(m));
        }
        if names_have(&self.visited, &key) {
            return self.advance();
        }
        let ghost st = self@;
        self.visited.push(key.clone());
        self.chain.push(key);
        let path = full.clone();
        self.pending = Some((full, dir));
        assert(self@.visited =~= st.visited.push(key@));
        assert(self@.chain =~= st.chain.push(key@));
        ResolveAction::Load { path }
    }

    /// Reports the outcome of the last `Load`.
    pub fn loaded(&mut self, outcome: LoadOutcome) -> (r: ResolveAction)
        requires
            old(self).wf(),
            old(self)@.pending is Some,
        ensures
            final(self).wf(),
            (final(self)@, action_view(r)) == spec_loaded(old(self)@, load_view(outcome)),
            r matches ResolveAction::Done(p) ==> no_imports(stmts_view(p@)),
    {
        let ghost st = self@;
        match outcome {
            LoadOutcome::Parsed(p) => {
                let pend = self.pending.take();
                let (full, dir) = pend.unwrap();
                let ghost pv = stmts_view(p@);
                self.frames.push(Frame { rest: p, dir, out: Vec::new() });
                assert(stmts_view(Seq::<Stmt>::empty()) =~= Seq::<StmtV>::empty());
                assert(self@.frames =~= st.frames.push(FrameV { rest: pv, dir: st.pending.unwrap().1, out: Seq::empty() }));
                assert(outs_flat(self@.frames)) by {
                    assert forall|i: int| 0 <= i < self@.frames.len() implies no_imports(#[trigger] self@.frames[i].out) by {
                        if i < st.frames.len() {
                            assert(self@.frames[i] == st.frames[i]);
                        }
                    }
                }
                self.advance()
            },
            LoadOutcome::Unreadable(e) => ResolveAction::Fail(e),
            LoadOutcome::Unparsable(m) => {
                let mut msg = String::new();
                push_str(&mut msg, "ошибка разбора импортируемого файла '");
                match &self.pending {
                    Some(p) => push_str(&mut msg, p.0.as_str()),
                    None => {},
                }
                push_str(&mut msg, "': ");
                push_str(&mut msg, m.as_str());
                ResolveAction::Fail(ImportError(msg))
            },
        }
    }
}

} // verus!
