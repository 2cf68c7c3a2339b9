//! Which physical file a tree entry stands for.
use vstd::prelude::*;
use vstd::slice::{slice_subrange, slice_to_vec};

verus! {

/// The byte `/`, which separates the components of a path.
pub const SLASH: u8 = 47;

/// What a tree entry is, as far as the rewrite cares.
#[derive(Clone, Copy, Debug, PartialEq, Eq, Structural)]
pub enum EntryKind {
    /// A directory, or a link to one: walked through, never opened.
    Directory,
    /// A file that is not a link.
    RegularFile,
    /// A link to something that is not a directory.
    Symlink,
}

/// The kind of an entry that leads to a directory (links followed) when
/// `is_dir` holds, and is itself a link when `is_symlink` holds.
pub open spec fn kind_of(is_dir: bool, is_symlink: bool) -> EntryKind {
    if is_dir {
        EntryKind::Directory
    } else if is_symlink {
        EntryKind::Symlink
    } else {
        EntryKind::RegularFile
    }
}

/// Tells an entry's kind from whether it leads to a directory (links
/// followed) and whether it is itself a link.
pub fn classify(is_dir: bool, is_symlink: bool) -> (k: EntryKind)
    ensures
        k == kind_of(is_dir, is_symlink),
{
    if is_dir {
        EntryKind::Directory
    } else if is_symlink {
        EntryKind::Symlink
    } else {
        EntryKind::RegularFile
    }
}

/// The index of the last `/` in `s`, or -1 where there is none.
pub open spec fn last_slash(s: Seq<u8>) -> int
    decreases s.len(),
{
    if s.len() == 0 {
        -1
    } else if s.last() == SLASH {
        s.len() - 1
    } else {
        last_slash(s.drop_last())
    }
}

/// The path that a link at `link` with contents `target` leads to: an
/// absolute target as it stands, a relative one taken from the directory
/// that holds the link.
pub open spec fn resolved(link: Seq<u8>, target: Seq<u8>) -> Seq<u8> {
    if target.len() > 0 && target[0] == SLASH {
        target
    } else if last_slash(link) < 0 {
        target
    } else {
        link.subrange(0, last_slash(link) + 1) + target
    }
}

/// The path to scan and rewrite for an entry of the given kind; none for a
/// directory.
pub open spec fn effective(entry: Seq<u8>, kind: EntryKind, link_target: Seq<u8>) -> Option<
    Seq<u8>,
> {
    match kind {
        EntryKind::Directory => None,
        EntryKind::RegularFile => Some(entry),
        EntryKind::Symlink => Some(resolved(entry, link_target)),
    }
}

/// Where the last `/` of `s` stands, if it has one.
fn find_last_slash(s: &[u8]) -> (r: Option<usize>)
    ensures
        match r {
            Some(i) => i == last_slash(s@) && i < s@.len() && i < usize::MAX,
            None => last_slash(s@) == -1,
        },
{
    let mut i: usize = s.len();
    assert(s@.subrange(0, i as int) =~= s@);
    while i > 0
        invariant
            i <= s@.len(),
            last_slash(s@) == last_slash(s@.subrange(0, i as int)),
        decreases i,
    {
        assert(s@.subrange(0, i as int).drop_last() =~= s@.subrange(0, i - 1));
        if s[i - 1] == SLASH {
            return Some(i - 1);
        }
        i = i - 1;
    }
    None
}

/// The path that a link at `link` leads to, given what the link holds.
/// A relative target is taken from the link's own directory, not from the
/// working directory.
pub fn resolve_link(link: &[u8], target: &[u8]) -> (r: Vec<u8>)
    ensures
        r@ == resolved(link@, target@),
{
    if target.len() > 0 && target[0] == SLASH {
        return slice_to_vec(target);
    }
    match find_last_slash(link) {
        None => slice_to_vec(target),
        Some(i) => {
            let mut r = slice_to_vec(slice_subrange(link, 0, i + 1));
            r.extend_from_slice(target);
            r
        },
    }
}

/// The path to scan and rewrite for a tree entry: none for a directory,
/// the entry's own path for a regular file, and for a link the path it
/// leads to (`link_target` is what the link holds, and is read for links
/// only).
pub fn effective_path(entry: &[u8], kind: EntryKind, link_target: &[u8]) -> (r: Option<Vec<u8>>)
    ensures
        r matches Some(p) ==> effective(entry@, kind, link_target@) == Some(p@),
        r is None <==> kind == EntryKind::Directory,
{
    match kind {
        EntryKind::Directory => None,
        EntryKind::RegularFile => Some(slice_to_vec(entry)),
        EntryKind::Symlink => Some(resolve_link(entry, link_target)),
    }
}

/// An entry that leads to a directory is never opened: it has no path to
/// scan or rewrite, whether or not it is a link.
pub proof fn lemma_directory_never_target(entry: Seq<u8>, is_symlink: bool, link_target: Seq<u8>)
    ensures
        effective(entry, kind_of(true, is_symlink), link_target) is None,
{
}

/// For a link to a file, the path scanned and rewritten is the path the link
/// leads to, worked out from what the link holds; an absolute target is
/// taken as it stands.
pub proof fn lemma_link_leads_to_target(entry: Seq<u8>, link_target: Seq<u8>)
    ensures
        effective(entry, kind_of(false, true), link_target) == Some(
            resolved(entry, link_target),
        ),
        link_target.len() > 0 && link_target[0] == SLASH ==> effective(
            entry,
            kind_of(false, true),
            link_target,
        ) == Some(link_target),
{
}

} // verus!
