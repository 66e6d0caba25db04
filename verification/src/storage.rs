//! Where sessions live and how tracked paths are recorded.

use vstd::prelude::*;

use crate::model::{bare_file, files_with, tracks_path, Packet, PacketView, TrackedFileView};
use crate::paths::{
    file_name, is_absolute, join, path_file_name, path_is_absolute, path_join, path_strip_prefix,
    strip_prefix,
};
use crate::text::{hex8, push_char, push_hex8, push_str, replace_all, replace_char};
use crate::util::{slugify, spec_slugify};

verus! {

/// The session store: a data directory and the sessions directory inside it.
#[derive(Debug, Clone)]
pub struct SessionPaths {
    pub data_dir: String,
    pub sessions_dir: String,
}

impl SessionPaths {
    /// The session file for a reference: its slug plus `.toml`, inside the
    /// sessions directory.
    pub fn session_path(&self, session_ref: &str) -> (r: String)
        ensures
            r@ == path_join(self.sessions_dir@, spec_slugify(session_ref@) + ".toml"@),
    {
        let mut name = slugify(session_ref);
        push_str(&mut name, ".toml");
        join(self.sessions_dir.as_str(), name.as_str())
    }
}

/// The value `std::hash::Hash` gives the path with this text under a
/// `DefaultHasher::new()`, which every process builds with the same keys.
pub uninterp spec fn path_default_hash(p: Seq<char>) -> u64;

/// `Path::new(p).hash(&mut DefaultHasher::new())`, then `finish()`.
#[verifier::external_body]
pub(crate) fn default_path_hash(p: &str) -> (r: u64)
    ensures
        r == path_default_hash(p@),
{
    let mut hasher = std::collections::hash_map::DefaultHasher::new();
    std::hash::Hash::hash(std::path::Path::new(p), &mut hasher);
    std::hash::Hasher::finish(&hasher)
}

/// The stem a session id starts from: the root's last component, or
/// `session` when it has none.
pub open spec fn stem_of(name: Option<Seq<char>>) -> Seq<char> {
    match name {
        Some(n) if n.len() > 0 => n,
        _ => "session"@,
    }
}

pub open spec fn session_stem(root: Seq<char>) -> Seq<char> {
    stem_of(path_file_name(root))
}

/// A session id from a root's last component and the root's hash: the slug of
/// the stem, a dash, and the hash's low 32 bits as eight hex digits.
pub open spec fn session_id_from(name: Option<Seq<char>>, hash: u64) -> Seq<char> {
    spec_slugify(stem_of(name)).push('-') + hex8((hash % 0x1_0000_0000) as u32)
}

/// The default session id of a workspace root.
pub open spec fn spec_default_session_id(root: Seq<char>) -> Seq<char> {
    session_id_from(path_file_name(root), path_default_hash(root))
}

/// The session id made of a root's last component (`None` when it has none)
/// and the root's hash.
pub fn session_id_from_parts(name: Option<String>, hash: u64) -> (r: String)
    ensures
        r@ == session_id_from(name.deep_view(), hash),
{
    let stem = match name {
        Some(n) => {
            if !n.as_str().is_empty() {
                n
            } else {
                "session".to_string()
            }
        },
        None => "session".to_string(),
    };
    proof {
        reveal_strlit("session");
    }
    assert(hash & 0xffff_ffff == hash % 0x1_0000_0000 && hash & 0xffff_ffff <= 0xffff_ffff)
        by (bit_vector);
    let suffix = (hash & 0xffff_ffff) as u32;
    let mut id = slugify(stem.as_str());
    push_char(&mut id, '-');
    push_hex8(&mut id, suffix);
    id
}

pub fn default_session_id(root: &str) -> (r: String)
    ensures
        r@ == spec_default_session_id(root@),
{
    session_id_from_parts(file_name(root), default_path_hash(root))
}

/// How a path is recorded in a packet, given whether it is absolute and what
/// is left of it under the root: an absolute path under the root is made
/// relative to it, and backslashes become forward slashes.
pub open spec fn recorded_path(p: Seq<char>, absolute: bool, under_root: Option<Seq<char>>) -> Seq<char> {
    let shown = if absolute {
        match under_root {
            Some(rest) => rest,
            None => p,
        }
    } else {
        p
    };
    replace_char(shown, '\\', "/"@)
}

pub open spec fn normalized_path(p: Seq<char>, root: Seq<char>) -> Seq<char> {
    recorded_path(p, path_is_absolute(p), path_strip_prefix(p, root))
}

/// The recorded form of `path`, given whether it is absolute and what is left
/// of it under the root (`None` when it is not under the root).
pub fn record_path(path: &str, absolute: bool, under_root: Option<String>) -> (r: String)
    ensures
        r@ == recorded_path(path@, absolute, under_root.deep_view()),
{
    let shown = if absolute {
        match under_root {
            Some(rest) => rest,
            None => path.to_string(),
        }
    } else {
        path.to_string()
    };
    replace_all(shown.as_str(), '\\', "/")
}

pub fn normalize_repo_path(path: &str, root: &str) -> (r: String)
    ensures
        r@ == normalized_path(path@, root@),
{
    let absolute = is_absolute(path);
    let under_root = if absolute { strip_prefix(path, root) } else { None };
    record_path(path, absolute, under_root)
}

/// The tracked files after adding each path in turn (see `files_with`).
pub open spec fn merged_files(files: Seq<TrackedFileView>, paths: Seq<Seq<char>>) -> Seq<
    TrackedFileView,
>
    decreases paths.len(),
{
    if paths.len() == 0 {
        files
    } else {
        files_with(merged_files(files, paths.drop_last()), paths.last())
    }
}

pub open spec fn normalized_paths(paths: Seq<Seq<char>>, root: Seq<char>) -> Seq<Seq<char>> {
    paths.map_values(|p: Seq<char>| normalized_path(p, root))
}

/// Records each given file (normalized against `root`) that the packet does
/// not track yet; says whether any was added.
pub fn merge_files(packet: &mut Packet, root: &str, files: &Vec<String>) -> (changed: bool)
    ensures
        final(packet)@ == (PacketView {
            files: merged_files(old(packet)@.files, normalized_paths(files.deep_view(), root@)),
            ..old(packet)@
        }),
        changed == (final(packet)@.files.len() != old(packet)@.files.len()),
{
    let ghost start = packet@;
    let ghost targets = normalized_paths(files.deep_view(), root@);
    let mut changed = false;
    let mut i: usize = 0;
    while i < files.len()
        invariant
            i <= files@.len(),
            targets == normalized_paths(files.deep_view(), root@),
            targets.len() == files@.len(),
            packet@ == (PacketView {
                files: merged_files(start.files, targets.take(i as int)),
                ..start
            }),
            packet@.files.len() >= start.files.len(),
            changed == (packet@.files.len() != start.files.len()),
        decreases files.len() - i,
    {
        let normalized = normalize_repo_path(files[i].as_str(), root);
        assert(normalized@ == targets[i as int]);
        let added = packet.ensure_file(normalized);
        proof {
            assert(targets.take(i + 1).drop_last() =~= targets.take(i as int));
        }
        if added {
            changed = true;
        }
        i = i + 1;
    }
    assert(targets.take(files@.len() as int) =~= targets);
    changed
}

/// The workspace root as recorded in a packet.
pub fn workspace_root_string(root: &str) -> (r: String)
    ensures
        r@ == root@,
{
    root.to_string()
}


// ---------------------------------------------------------------------------
// Laws.
// ---------------------------------------------------------------------------

/// Tracking a path leaves it tracked, and tracking it again changes nothing.
pub proof fn lemma_files_with_idempotent(files: Seq<TrackedFileView>, path: Seq<char>)
    ensures
        tracks_path(files_with(files, path), path),
        files_with(files_with(files, path), path) == files_with(files, path),
{
    if !tracks_path(files, path) {
        let grown = files.push(bare_file(path));
        assert(grown[files.len() as int].path == path);
    }
}

proof fn lemma_files_with_keeps(files: Seq<TrackedFileView>, path: Seq<char>, other: Seq<char>)
    requires
        tracks_path(files, other),
    ensures
        tracks_path(files_with(files, path), other),
{
    let i = choose|i: int| 0 <= i < files.len() && #[trigger] files[i].path == other;
    if !tracks_path(files, path) {
        assert(files.push(bare_file(path))[i].path == other);
    }
}

proof fn lemma_merged_keeps(files: Seq<TrackedFileView>, paths: Seq<Seq<char>>, other: Seq<char>)
    requires
        tracks_path(files, other),
    ensures
        tracks_path(merged_files(files, paths), other),
    decreases paths.len(),
{
    if paths.len() > 0 {
        lemma_merged_keeps(files, paths.drop_last(), other);
        lemma_files_with_keeps(merged_files(files, paths.drop_last()), paths.last(), other);
    }
}

proof fn lemma_merged_tracks_all(files: Seq<TrackedFileView>, paths: Seq<Seq<char>>, i: int)
    requires
        0 <= i < paths.len(),
    ensures
        tracks_path(merged_files(files, paths), paths[i]),
    decreases paths.len(),
{
    let before = merged_files(files, paths.drop_last());
    if i == paths.len() - 1 {
        lemma_files_with_idempotent(before, paths.last());
    } else {
        lemma_merged_tracks_all(files, paths.drop_last(), i);
        assert(paths.drop_last()[i] == paths[i]);
        lemma_files_with_keeps(before, paths.last(), paths[i]);
    }
}

proof fn lemma_merge_tracked_unchanged(files: Seq<TrackedFileView>, paths: Seq<Seq<char>>)
    requires
        forall|i: int| 0 <= i < paths.len() ==> tracks_path(files, #[trigger] paths[i]),
    ensures
        merged_files(files, paths) == files,
    decreases paths.len(),
{
    if paths.len() > 0 {
        assert forall|i: int| 0 <= i < paths.drop_last().len() implies tracks_path(files, #[trigger] paths.drop_last()[i]) by {
            assert(paths.drop_last()[i] == paths[i]);
        }
        lemma_merge_tracked_unchanged(files, paths.drop_last());
        assert(tracks_path(files, paths[paths.len() - 1]));
    }
}

/// Merging the same paths twice: the second merge changes nothing, so
/// `merge_files` adds each new entry once.
pub proof fn lemma_merge_files_idempotent(files: Seq<TrackedFileView>, paths: Seq<Seq<char>>)
    ensures
        merged_files(merged_files(files, paths), paths) == merged_files(files, paths),
{
    let merged = merged_files(files, paths);
    assert forall|i: int| 0 <= i < paths.len() implies tracks_path(merged, #[trigger] paths[i]) by {
        lemma_merged_tracks_all(files, paths, i);
    }
    lemma_merge_tracked_unchanged(merged, paths);
}

/// Merging only adds: the files tracked before come first, unchanged, and
/// every merged path is tracked afterwards.
pub proof fn lemma_merge_files_only_adds(files: Seq<TrackedFileView>, paths: Seq<Seq<char>>)
    ensures
        merged_files(files, paths).len() >= files.len(),
        merged_files(files, paths).take(files.len() as int) == files,
        forall|i: int| 0 <= i < paths.len() ==> tracks_path(merged_files(files, paths), #[trigger] paths[i]),
    decreases paths.len(),
{
    if paths.len() > 0 {
        lemma_merge_files_only_adds(files, paths.drop_last());
        let before = merged_files(files, paths.drop_last());
        if !tracks_path(before, paths.last()) {
            assert(before.push(bare_file(paths.last())).take(files.len() as int) =~= before.take(files.len() as int));
        }
    }
    assert forall|i: int| 0 <= i < paths.len() implies tracks_path(merged_files(files, paths), #[trigger] paths[i]) by {
        lemma_merged_tracks_all(files, paths, i);
    }
}


/// A default session id is the slug of the root's stem (itself a slug), a
/// dash, then eight hex digits; being a function of the root alone, it is the
/// same every time the same root is opened.
pub proof fn lemma_session_id_shape(root: Seq<char>)
    ensures
        ({
            let slug = spec_slugify(session_stem(root));
            let id = spec_default_session_id(root);
            &&& crate::util::is_slug(slug)
            &&& id.len() == slug.len() + 9
            &&& id.take(slug.len() as int) == slug
            &&& id[slug.len() as int] == '-'
        }),
{
    crate::util::lemma_slugify_idempotent(session_stem(root));
    let slug = spec_slugify(session_stem(root));
    let id = spec_default_session_id(root);
    assert(id.take(slug.len() as int) =~= slug);
}

} // verus!
