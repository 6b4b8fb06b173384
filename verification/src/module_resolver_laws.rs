//! Laws of import resolution: a program without `IMPORT` comes out as it
//! went in; an imported file's statements take the place of its `IMPORT`;
//! an import cycle, or a path leading out of the entry directory, is
//! refused.
use vstd::prelude::*;
use crate::ast::StmtV;
use crate::module_resolver::{
    is_absolute_path, joined, no_imports, spec_advance, spec_loaded, spec_located, within_root, ActionV, FrameV,
    LoadV, ResolverV,
};

verus! {

/// With one file left whose remaining statements hold no `IMPORT`, the
/// resolution ends with the statements produced so far followed by them.
proof fn lemma_advance_plain(st: ResolverV)
    requires
        st.frames.len() == 1,
        no_imports(st.frames[0].rest),
    ensures
        spec_advance(st).1 == ActionV::Done(st.frames[0].out + st.frames[0].rest),
    decreases st.frames[0].rest.len(),
{
    let top = st.frames.last();
    if top.rest.len() == 0 {
        assert(top.out + top.rest =~= top.out);
    } else {
        let s = top.rest[0];
        assert(!(s is Import));
        let top2 = FrameV { rest: top.rest.drop_first(), out: top.out.push(s), ..top };
        let st2 = ResolverV { frames: st.frames.update(0, top2), ..st };
        assert(no_imports(top2.rest)) by {
            assert forall|i: int| 0 <= i < top2.rest.len() implies !(#[trigger] top2.rest[i] is Import) by {
                assert(top2.rest[i] == top.rest[i + 1]);
            }
        }
        lemma_advance_plain(st2);
        assert(top2.out + top2.rest =~= top.out + top.rest);
    }
}

/// A program without `IMPORT` is resolved to itself.
pub proof fn lemma_program_without_imports(program: Seq<StmtV>, dir: Seq<char>, entry: Seq<char>, root: Seq<char>)
    requires
        no_imports(program),
    ensures
        spec_advance(
            ResolverV {
                frames: seq![FrameV { rest: program, dir, out: Seq::empty() }],
                visited: seq![entry],
                chain: seq![entry],
                pending: None,
                root,
            },
        ).1 == ActionV::Done(program),
{
    let st = ResolverV {
        frames: seq![FrameV { rest: program, dir, out: Seq::empty() }],
        visited: seq![entry],
        chain: seq![entry],
        pending: None,
        root,
    };
    lemma_advance_plain(st);
    assert(Seq::<StmtV>::empty() + program =~= program);
}

/// A located import is refused when it leads out of the entry directory,
/// and, inside it, when it names a file of the chain being inlined (an
/// import cycle), with the chain and that file in the message; a file
/// already inlined elsewhere is not loaded again.
pub proof fn lemma_located_refusals(st: ResolverV, full: Seq<char>, key: Seq<char>, dir: Seq<char>)
    ensures
        !within_root(st.root, key) ==> spec_located(st, full, key, dir).1 == ActionV::Fail(
            "IMPORT '"@ + key + "' выходит за пределы каталога входного файла"@,
        ),
        within_root(st.root, key) && st.chain.contains(key) ==> spec_located(st, full, key, dir).1 == ActionV::Fail(
            "циклический IMPORT обнаружен: "@ + joined(st.chain.push(key)),
        ),
        st.visited.contains(key) ==> !(spec_located(st, full, key, dir).1 is Load),
{
    if within_root(st.root, key) && !st.chain.contains(key) && st.visited.contains(key) {
        crate::module_resolver::lemma_load_at_most_once(st, full, key, dir);
    }
}

/// The statements of an imported file take the place of its `IMPORT`: a
/// file `a; IMPORT rel; b` whose import, once located inside the entry
/// directory and loaded, holds the one statement `c`, is resolved to
/// `a; c; b`. On the way the resolver asks to locate `rel` from the file's
/// directory and then to load the located file.
pub proof fn lemma_import_inlined(
    a: StmtV,
    b: StmtV,
    c: StmtV,
    rel: Seq<char>,
    dir: Seq<char>,
    entry: Seq<char>,
    root: Seq<char>,
    full: Seq<char>,
    key: Seq<char>,
    dir2: Seq<char>,
)
    requires
        !(a is Import),
        !(b is Import),
        !(c is Import),
        !is_absolute_path(rel),
        within_root(root, key),
        key != entry,
    ensures
        ({
            let st0 = ResolverV {
                frames: seq![FrameV { rest: seq![a, StmtV::Import(rel), b], dir, out: Seq::empty() }],
                visited: seq![entry],
                chain: seq![entry],
                pending: None,
                root,
            };
            let (st1, act1) = spec_advance(st0);
            let (st2, act2) = spec_located(st1, full, key, dir2);
            let (st3, act3) = spec_loaded(st2, LoadV::Parsed(seq![c]));
            &&& act1 == ActionV::Locate { dir, rel }
            &&& act2 == ActionV::Load { path: full }
            &&& act3 == ActionV::Done(seq![a, c, b])
        }),
{
    let rest0 = seq![a, StmtV::Import(rel), b];
    let st0 = ResolverV {
        frames: seq![FrameV { rest: rest0, dir, out: Seq::empty() }],
        visited: seq![entry],
        chain: seq![entry],
        pending: None,
        root,
    };
    // the first statement goes out, then the import needs locating
    let f1 = FrameV { rest: rest0.drop_first(), dir, out: seq![a] };
    assert(Seq::<StmtV>::empty().push(a) =~= seq![a]);
    let st0b = ResolverV { frames: st0.frames.update(0, f1), ..st0 };
    assert(spec_advance(st0) == spec_advance(st0b));
    assert(rest0.drop_first()[0] == StmtV::Import(rel));
    let f2 = FrameV { rest: rest0.drop_first().drop_first(), dir, out: seq![a] };
    let st1 = ResolverV { frames: st0b.frames.update(0, f2), ..st0b };
    assert(spec_advance(st0b) == (st1, ActionV::Locate { dir, rel }));
    // the located file is new: it is loaded
    assert(!st1.chain.contains(key)) by {
        if st1.chain.contains(key) {
            let i = choose|i: int| 0 <= i < st1.chain.len() && st1.chain[i] == key;
            assert(st1.chain[i] == entry);
        }
    }
    assert(!st1.visited.contains(key)) by {
        if st1.visited.contains(key) {
            let i = choose|i: int| 0 <= i < st1.visited.len() && st1.visited[i] == key;
            assert(st1.visited[i] == entry);
        }
    }
    let st2 = ResolverV {
        visited: st1.visited.push(key),
        chain: st1.chain.push(key),
        pending: Some((full, dir2)),
        ..st1
    };
    assert(spec_located(st1, full, key, dir2) == (st2, ActionV::Load { path: full }));
    // the loaded file is inlined, then the rest of the entry file follows
    let g = FrameV { rest: seq![c], dir: dir2, out: Seq::empty() };
    let st3a = ResolverV { frames: st2.frames.push(g), pending: None, ..st2 };
    assert(spec_loaded(st2, LoadV::Parsed(seq![c])) == spec_advance(st3a));
    let g2 = FrameV { rest: seq![c].drop_first(), dir: dir2, out: seq![c] };
    assert(Seq::<StmtV>::empty().push(c) =~= seq![c]);
    let st3b = ResolverV { frames: st3a.frames.update(1, g2), ..st3a };
    assert(st3a.frames.len() == 2);
    assert(spec_advance(st3a) == spec_advance(st3b));
    assert(g2.rest.len() == 0);
    let merged = FrameV { out: f2.out + g2.out, ..f2 };
    let st3c = ResolverV { frames: st3b.frames.drop_last().update(0, merged), chain: st3b.chain.drop_last(), ..st3b };
    assert(st3b.frames.drop_last().last() == f2);
    assert(spec_advance(st3b) == spec_advance(st3c));
    assert(merged.out =~= seq![a, c]);
    assert(merged.rest =~= seq![b]);
    assert(st3c.frames.len() == 1);
    assert(st3c.frames[0] == merged);
    assert(no_imports(merged.rest));
    lemma_advance_plain(st3c);
    assert(merged.out + merged.rest =~= seq![a, c, b]);
}

} // verus!
