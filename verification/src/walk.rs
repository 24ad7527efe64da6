use vstd::prelude::*;

use crate::emit::{builder_append, builder_rep, emit_line};
use crate::errors::Error;
use crate::filter::{allowed, is_whitelisted, seq_views};
use crate::text::str_eq;

verus! {

/// One entry of a directory listing, as plain values: the entry's full
/// path, its base name, and whether it is itself a directory.
pub struct ChildEntry {
    /// The entry's full path.
    pub path: String,
    /// The entry's base name, the part the filter judges.
    pub name: String,
    /// Whether the entry is a directory.
    pub is_dir: bool,
}

/// Relies on walkdir::WalkDir with min_depth(1) and max_depth(1): it
/// lists the immediate entries of `dir`.  Entries the walker cannot read
/// are skipped, so a failed listing yields only what could be read,
/// possibly nothing.  What comes back depends on the filesystem at the
/// moment of the call, so nothing is promised of it.
#[verifier::external_body]
fn list_children(dir: &str) -> (r: Vec<ChildEntry>) {
    let mut v = Vec::new();
    for entry in walkdir::WalkDir::new(dir).min_depth(1).max_depth(1) {
        if let Ok(e) = entry {
            v.push(ChildEntry {
                path: e.path().display().to_string(),
                name: e.file_name().to_string_lossy().to_string(),
                is_dir: e.file_type().is_dir(),
            });
        }
    }
    v
}

/// Whether the walk at directory `dir` descends into listed entry `e`:
/// the entry is a directory, its name passes the filter, and its path is
/// neither `dir` itself nor the filesystem root — the guard against
/// self-referential or degenerate entries.
pub open spec fn entry_kept(e: ChildEntry, dir: Seq<char>, forbidden: Seq<Seq<char>>) -> bool {
    e.is_dir && allowed(e.name@, forbidden) && e.path@ != dir && e.path@ != "/"@
}

/// The paths of the entries the walk descends into, in listing order.
pub open spec fn kept_paths(es: Seq<ChildEntry>, dir: Seq<char>, forbidden: Seq<Seq<char>>) -> Seq<
    Seq<char>,
>
    decreases es.len(),
{
    if es.len() == 0 {
        Seq::empty()
    } else {
        (if entry_kept(es[0], dir, forbidden) {
            seq![es[0].path@]
        } else {
            Seq::empty()
        }) + kept_paths(es.drop_first(), dir, forbidden)
    }
}

proof fn lemma_kept_paths_snoc(
    es: Seq<ChildEntry>,
    e: ChildEntry,
    dir: Seq<char>,
    forbidden: Seq<Seq<char>>,
)
    ensures
        kept_paths(es.push(e), dir, forbidden) == kept_paths(es, dir, forbidden) + (if entry_kept(
            e,
            dir,
            forbidden,
        ) {
            seq![e.path@]
        } else {
            Seq::<Seq<char>>::empty()
        }),
    decreases es.len(),
{
    let tail = (if entry_kept(e, dir, forbidden) {
        seq![e.path@]
    } else {
        Seq::<Seq<char>>::empty()
    });
    if es.len() == 0 {
        assert(es.push(e)[0] == e);
        assert(es.push(e).drop_first() =~= Seq::<ChildEntry>::empty());
        assert(kept_paths(es.push(e).drop_first(), dir, forbidden) == Seq::<Seq<char>>::empty());
        assert(tail + Seq::<Seq<char>>::empty() =~= tail);
        assert(Seq::<Seq<char>>::empty() + tail =~= tail);
    } else {
        lemma_kept_paths_snoc(es.drop_first(), e, dir, forbidden);
        assert(es.push(e)[0] == es[0]);
        assert(es.push(e).drop_first() =~= es.drop_first().push(e));
        let head = (if entry_kept(es[0], dir, forbidden) {
            seq![es[0].path@]
        } else {
            Seq::<Seq<char>>::empty()
        });
        assert(head + (kept_paths(es.drop_first(), dir, forbidden) + tail) =~= (head + kept_paths(
            es.drop_first(),
            dir,
            forbidden,
        )) + tail);
    }
}

/// Selects from `entries` exactly the paths the walk at `dir` descends
/// into, in listing order.
#[verifier::loop_isolation(false)]
fn select_children(entries: &Vec<ChildEntry>, dir: &str, forbidden: &Vec<String>) -> (r: Vec<
    String,
>)
    ensures
        seq_views(r@) == kept_paths(entries@, dir@, seq_views(forbidden@)),
{
    let ghost f = seq_views(forbidden@);
    let mut r: Vec<String> = Vec::new();
    let mut i: usize = 0;
    while i < entries.len()
        invariant
            i <= entries.len(),
            seq_views(r@) == kept_paths(entries@.take(i as int), dir@, f),
        decreases entries.len() - i,
    {
        let e = &entries[i];
        let keep = e.is_dir && is_whitelisted(e.name.as_str(), forbidden) && !str_eq(
            e.path.as_str(),
            dir,
        ) && !str_eq(e.path.as_str(), "/");
        let ghost before = seq_views(r@);
        if keep {
            r.push(e.path.clone());
        }
        proof {
            let es = entries@;
            assert(keep == entry_kept(es[i as int], dir@, f));
            let step = (if entry_kept(es[i as int], dir@, f) {
                seq![es[i as int].path@]
            } else {
                Seq::<Seq<char>>::empty()
            });
            assert(seq_views(r@) =~= before + step);
            lemma_kept_paths_snoc(es.take(i as int), es[i as int], dir@, f);
            assert(es.take(i as int + 1) =~= es.take(i as int).push(es[i as int]));
        }
        i += 1;
    }
    proof {
        assert(entries@.take(entries@.len() as int) =~= entries@);
    }
    r
}

/// One reported directory as the snapshot holds it: the path and a line
/// break.
pub open spec fn line_of(p: Seq<char>) -> Seq<char> {
    p.push('\n')
}

/// Walks directory `dir` on the real filesystem with depth budget
/// `max_depth`, appending one line per reported directory to `builder`:
/// `dir` itself first, then, while budget remains, the kept children in
/// listing order, each walked with one level less.
///
/// An empty `dir` is a no-op that succeeds.  A directory that cannot be
/// listed contributes no children and the walk goes on — the
/// skip-and-continue policy — so the walk itself always succeeds, and it
/// only ever appends to what the builder already holds.
#[verifier::loop_isolation(false)]
pub fn walk_dir(
    dir: &str,
    forbidden: &Vec<String>,
    max_depth: i32,
    builder: &mut string_builder::Builder,
) -> (r: Result<(), Error>)
    ensures
        r is Ok,
        dir@.len() == 0 ==> builder_rep(*final(builder)) == builder_rep(*old(builder)),
        exists|s: Seq<char>|
            builder_rep(*final(builder)) == builder_rep(*old(builder)) + s,
        dir@.len() != 0 ==> exists|s: Seq<char>|
            builder_rep(*final(builder)) == builder_rep(*old(builder)) + line_of(dir@) + s,
    decreases max_depth,
{
    if dir.is_empty() {
        proof {
            assert(builder_rep(*builder) + Seq::<char>::empty() =~= builder_rep(*builder));
            assert(builder_rep(*builder) == builder_rep(*old(builder)) + Seq::<char>::empty());
        }
        return Ok(());
    }
    builder_append(builder, dir);
    builder_append(builder, "\n");
    proof {
        reveal_strlit("\n");
        assert(("\n")@ =~= seq!['\n']);
        assert(builder_rep(*builder) =~= builder_rep(*old(builder)) + line_of(dir@));
        let base = builder_rep(*old(builder)) + line_of(dir@);
        assert(base + Seq::<char>::empty() =~= base);
        assert(builder_rep(*builder) == base + Seq::<char>::empty());
    }
    if max_depth <= 0 {
        return Ok(());
    }
    let entries = list_children(dir);
    let kids = select_children(&entries, dir, forbidden);
    let mut i: usize = 0;
    while i < kids.len()
        invariant
            exists|s: Seq<char>|
                builder_rep(*builder) == builder_rep(*old(builder)) + line_of(dir@) + s,
        decreases kids.len() - i,
    {
        let ghost rep_before = builder_rep(*builder);
        match walk_dir(kids[i].as_str(), forbidden, max_depth - 1, builder) {
            Ok(u) => u,
            Err(e) => {
                return Err(e);
            },
        };
        proof {
            let s1 = choose|s1: Seq<char>|
                rep_before == builder_rep(*old(builder)) + line_of(dir@) + s1;
            let s2 = choose|s2: Seq<char>| builder_rep(*builder) == rep_before + s2;
            assert((builder_rep(*old(builder)) + line_of(dir@) + s1) + s2 =~= builder_rep(
                *old(builder),
            ) + line_of(dir@) + (s1 + s2));
            assert(builder_rep(*builder) == builder_rep(*old(builder)) + line_of(dir@) + (s1
                + s2));
        }
        i += 1;
    }
    proof {
        let s1 = choose|s1: Seq<char>|
            builder_rep(*builder) == builder_rep(*old(builder)) + line_of(dir@) + s1;
        assert((builder_rep(*old(builder)) + line_of(dir@)) + s1 =~= builder_rep(*old(builder))
            + (line_of(dir@) + s1));
        assert(builder_rep(*builder) == builder_rep(*old(builder)) + (line_of(dir@) + s1));
    }
    Ok(())
}

/// Walks directory `dir` with depth budget `max_depth`, streaming each
/// reported directory to standard output as its own line, in discovery
/// order.  Same traversal and skip-and-continue policy as `walk_dir`;
/// the walk always succeeds.
#[verifier::loop_isolation(false)]
pub fn walk_dir_stdout(dir: &str, forbidden: &Vec<String>, max_depth: i32) -> (r: Result<
    (),
    Error,
>)
    ensures
        r is Ok,
    decreases max_depth,
{
    if dir.is_empty() {
        return Ok(());
    }
    emit_line(dir);
    if max_depth <= 0 {
        return Ok(());
    }
    let entries = list_children(dir);
    let kids = select_children(&entries, dir, forbidden);
    let mut i: usize = 0;
    while i < kids.len()
        decreases kids.len() - i,
    {
        match walk_dir_stdout(kids[i].as_str(), forbidden, max_depth - 1) {
            Ok(u) => u,
            Err(e) => {
                return Err(e);
            },
        };
        i += 1;
    }
    Ok(())
}

/// Walks every root in order into `builder`, the buffered emitter the
/// cache refresh uses.  A root that cannot be listed shortens its own
/// walk only: later roots are always still attempted, and the builder
/// only ever grows.
#[verifier::loop_isolation(false)]
pub fn write_cache(
    roots: &Vec<String>,
    forbidden: &Vec<String>,
    max_depth: i32,
    builder: &mut string_builder::Builder,
) -> (r: Result<(), Error>)
    ensures
        r is Ok,
        exists|s: Seq<char>|
            builder_rep(*final(builder)) == builder_rep(*old(builder)) + s,
{
    proof {
        assert(builder_rep(*builder) + Seq::<char>::empty() =~= builder_rep(*builder));
        assert(builder_rep(*builder) == builder_rep(*old(builder)) + Seq::<char>::empty());
    }
    let mut i: usize = 0;
    while i < roots.len()
        invariant
            exists|s: Seq<char>| builder_rep(*builder) == builder_rep(*old(builder)) + s,
        decreases roots.len() - i,
    {
        let ghost rep_before = builder_rep(*builder);
        match walk_dir(roots[i].as_str(), forbidden, max_depth, builder) {
            Ok(u) => u,
            Err(e) => {
                return Err(e);
            },
        };
        proof {
            let s1 = choose|s1: Seq<char>| rep_before == builder_rep(*old(builder)) + s1;
            let s2 = choose|s2: Seq<char>| builder_rep(*builder) == rep_before + s2;
            assert((builder_rep(*old(builder)) + s1) + s2 =~= builder_rep(*old(builder)) + (s1
                + s2));
        }
        i += 1;
    }
    Ok(())
}

/// Walks every root in order, streaming each discovered directory to
/// standard output — the live query entry point.  An empty root list is
/// rejected as invalid input; otherwise every root is attempted and the
/// call succeeds.
pub fn write_std(roots: &Vec<String>, forbidden: &Vec<String>, max_depth: i32) -> (r: Result<
    (),
    Error,
>)
    ensures
        r is Ok <==> roots@.len() > 0,
        roots@.len() == 0 ==> r == Err::<(), Error>(Error::InvalidInput),
{
    if roots.len() == 0 {
        return Err(Error::InvalidInput);
    }
    let mut i: usize = 0;
    while i < roots.len()
        decreases roots.len() - i,
    {
        match walk_dir_stdout(roots[i].as_str(), forbidden, max_depth) {
            Ok(u) => u,
            Err(e) => {
                return Err(e);
            },
        };
        i += 1;
    }
    Ok(())
}

} // verus!
