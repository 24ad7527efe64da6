use vstd::prelude::*;

use vstd::string::StringExecFns;

use crate::emit::{builder_new, builder_take_string};
use crate::errors::Error;
use crate::filter::seq_views;
use crate::walk::{line_of, write_cache};

verus! {

#[verifier::external_type_specification]
#[verifier::external_body]
pub struct ExIoError(std::io::Error);

/// Relies on fs_err::write: creates or truncates the file at `path` and
/// writes the whole string to it.  Whether it succeeds depends on the
/// filesystem at the moment of the call, so nothing more is promised.
#[verifier::external_body]
fn write_file(path: &str, contents: &str) -> (r: Result<(), std::io::Error>) {
    fs_err::write(path, contents)
}

/// Relies on fs_err::rename: replaces `to` with `from` in one atomic
/// step, so a concurrent reader of `to` opens either the old file or the
/// new one, never a mixture.
#[verifier::external_body]
fn rename_file(from: &str, to: &str) -> (r: Result<(), std::io::Error>) {
    fs_err::rename(from, to)
}

/// Relies on fs_err::read_to_string: the file's entire content as text.
#[verifier::external_body]
fn read_file(path: &str) -> (r: Result<String, std::io::Error>) {
    fs_err::read_to_string(path)
}

/// Relies on fs_err::metadata: whether `path` can be stat'ed, the
/// existence check that guards bootstrap creation.
#[verifier::external_body]
fn path_exists(path: &str) -> (r: bool) {
    fs_err::metadata(path).is_ok()
}

/// Relies on fs_err::File::create: creates the file at `path`, empty.
#[verifier::external_body]
fn create_empty_file(path: &str) -> (r: Result<(), std::io::Error>) {
    match fs_err::File::create(path) {
        Ok(_) => Ok(()),
        Err(e) => Err(e),
    }
}

/// Relies on std::io::Error::kind: whether the failure says the path
/// does not exist.
#[verifier::external_body]
fn io_error_is_not_found(e: &std::io::Error) -> (r: bool) {
    matches!(e.kind(), std::io::ErrorKind::NotFound)
}

/// Relies on std::io::Error's Display: the failure described as text.
#[verifier::external_body]
fn io_error_message(e: &std::io::Error) -> (r: String) {
    e.to_string()
}

/// The serialized form of a snapshot: each path followed by a line
/// break, in order — newline-delimited text, no header, no trailing
/// metadata.
pub open spec fn render_spec(rs: Seq<Seq<char>>) -> Seq<char>
    decreases rs.len(),
{
    if rs.len() == 0 {
        Seq::empty()
    } else {
        line_of(rs[0]) + render_spec(rs.drop_first())
    }
}

proof fn lemma_render_spec_snoc(rs: Seq<Seq<char>>, p: Seq<char>)
    ensures
        render_spec(rs.push(p)) == render_spec(rs) + line_of(p),
    decreases rs.len(),
{
    if rs.len() == 0 {
        assert(rs.push(p)[0] == p);
        assert(rs.push(p).drop_first() =~= Seq::<Seq<char>>::empty());
        assert(render_spec(rs.push(p).drop_first()) == Seq::<char>::empty());
        assert(line_of(p) + Seq::<char>::empty() =~= line_of(p));
        assert(Seq::<char>::empty() + line_of(p) =~= line_of(p));
    } else {
        lemma_render_spec_snoc(rs.drop_first(), p);
        assert(rs.push(p)[0] == rs[0]);
        assert(rs.push(p).drop_first() =~= rs.drop_first().push(p));
        assert(line_of(rs[0]) + (render_spec(rs.drop_first()) + line_of(p)) =~= (line_of(rs[0])
            + render_spec(rs.drop_first())) + line_of(p));
    }
}

/// Serializes path records into the snapshot's on-disk form: one path
/// per line, in the given order.
#[verifier::loop_isolation(false)]
pub fn render(records: &Vec<String>) -> (r: String)
    ensures
        r@ == render_spec(seq_views(records@)),
{
    let mut out = String::new();
    let mut i: usize = 0;
    while i < records.len()
        invariant
            i <= records.len(),
            out@ == render_spec(seq_views(records@.take(i as int))),
        decreases records.len() - i,
    {
        out.append(records[i].as_str());
        out.append("\n");
        proof {
            reveal_strlit("\n");
            assert(("\n")@ =~= seq!['\n']);
            let rs = seq_views(records@.take(i as int));
            lemma_render_spec_snoc(rs, records@[i as int]@);
            assert(seq_views(records@.take(i as int + 1)) =~= rs.push(records@[i as int]@));
            assert(out@ =~= render_spec(rs) + line_of(records@[i as int]@));
        }
        i += 1;
    }
    proof {
        assert(records@.take(records@.len() as int) =~= records@);
    }
    out
}

/// The temporary file a commit writes before the atomic rename: the
/// target path with ".tmp" appended, so it sits beside the target on the
/// same filesystem.
pub fn temp_path_for(path: &str) -> (r: String)
    ensures
        r@ == path@ + ".tmp"@,
{
    let mut r = path.to_owned();
    r.append(".tmp");
    r
}

/// The platform's fixed cache-file location.
pub fn get_cache_file_name(is_linux: bool) -> (r: String)
    ensures
        is_linux ==> r@ == "/root/dev/.stribog"@,
        !is_linux ==> r@ == "C:\\Dev\\.stribog"@,
{
    if is_linux {
        "/root/dev/.stribog".to_owned()
    } else {
        "C:\\Dev\\.stribog".to_owned()
    }
}

/// Commits already-serialized snapshot text: writes it to the temporary
/// file beside `path`, then renames that file onto `path` in one atomic
/// step.  A concurrent reader of `path` therefore observes either the
/// complete prior snapshot or the complete new one, never a partial
/// write.  If the write fails the target is untouched; if the rename
/// fails the temporary file is left in place; either failure is reported
/// as Io, and the prior snapshot stays authoritative.
pub fn commit_text(content: &str, path: &str) -> (r: Result<(), Error>)
    ensures
        r matches Err(e) ==> e is Io,
{
    let tmp = temp_path_for(path);
    match write_file(tmp.as_str(), content) {
        Ok(u) => u,
        Err(e) => {
            return Err(Error::Io(io_error_message(&e)));
        },
    };
    match rename_file(tmp.as_str(), path) {
        Ok(u) => u,
        Err(e) => {
            return Err(Error::Io(io_error_message(&e)));
        },
    };
    Ok(())
}

/// Serializes `records` with `render` and commits the result to `path`
/// by the write-then-atomic-rename protocol of `commit_text`.
pub fn commit(records: &Vec<String>, path: &str) -> (r: Result<(), Error>)
    ensures
        r matches Err(e) ==> e is Io,
{
    let content = render(records);
    commit_text(content.as_str(), path)
}

/// Reads the current snapshot at `path` whole.  A missing file is
/// reported as NotFound — distinct from an empty snapshot — and any
/// other failure as Io.
pub fn read_cache(path: &str) -> (r: Result<String, Error>)
    ensures
        r matches Err(e) ==> e is NotFound || e is Io,
{
    match read_file(path) {
        Ok(s) => Ok(s),
        Err(e) => {
            if io_error_is_not_found(&e) {
                Err(Error::NotFound)
            } else {
                Err(Error::Io(io_error_message(&e)))
            }
        },
    }
}

/// Creates an empty snapshot file at `path` if none exists; an existing
/// snapshot is never touched, let alone truncated.
pub fn ensure_exists(path: &str) -> (r: Result<(), Error>)
    ensures
        r matches Err(e) ==> e is Io,
{
    if path_exists(path) {
        Ok(())
    } else {
        match create_empty_file(path) {
            Ok(u) => Ok(u),
            Err(e) => Err(Error::Io(io_error_message(&e))),
        }
    }
}

/// One refresh cycle: walks every root in order into a buffered emitter
/// and commits the collected snapshot to `cache_path` atomically.  An
/// empty root list is rejected as invalid input — and that is the only
/// input rejected.  A directory that cannot be listed merely shortens
/// the snapshot; only a failure to build or commit the snapshot text is
/// an error, and then the prior snapshot is left untouched.
///
/// Cycles share one temporary-file name per target, so a caller must run
/// at most one refresh of a given cache path at a time; readers need no
/// such care, since the commit swaps snapshots atomically.
pub fn refresh_cache(
    roots: &Vec<String>,
    forbidden: &Vec<String>,
    max_depth: i32,
    cache_path: &str,
) -> (r: Result<(), Error>)
    ensures
        roots@.len() == 0 <==> r == Err::<(), Error>(Error::InvalidInput),
        r matches Err(e) ==> e is InvalidInput || e is Io,
{
    if roots.len() == 0 {
        return Err(Error::InvalidInput);
    }
    let mut builder = builder_new();
    match write_cache(roots, forbidden, max_depth, &mut builder) {
        Ok(u) => u,
        Err(e) => {
            return Err(e);
        },
    };
    let content = match builder_take_string(builder) {
        Some(s) => s,
        None => {
            return Err(Error::Io("snapshot text could not be built".to_owned()));
        },
    };
    commit_text(content.as_str(), cache_path)
}

} // verus!
