use std::path::{Component, Path};

use vstd::prelude::*;

verus! {

/// The kind of a component of a path, as `Path::components` yields it.
#[derive(Debug)]
pub enum ComponentKind {
    /// A Windows prefix: `C:`, `\\server\share`, `\\?\..`, `\\.\..`.
    Prefix,
    /// The root directory, a separator that starts the path from the root.
    RootDir,
    /// `.`
    CurDir,
    /// `..`
    ParentDir,
    /// A file or directory name.
    Normal,
}

/// The kinds of the components of the path whose text is `path`, as
/// `Path::new(path).components()` yields them on the platform the crate is
/// built for.
pub uninterp spec fn components_of(path: Seq<char>) -> Seq<ComponentKind>;

/// The text of `Path::new(base).join(rel)` on the platform the crate is built
/// for.
pub uninterp spec fn joined_path(base: Seq<char>, rel: Seq<char>) -> Seq<char>;

/// `/` or `\`.
pub open spec fn is_separator(c: char) -> bool {
    c == '/' || c == '\\'
}

/// `d` starts with `/`.
pub open spec fn starts_with_slash(d: Seq<char>) -> bool {
    d.len() > 0 && d[0] == '/'
}

/// `d` might hold a root or a prefix on some platform: it starts with `/` or
/// `\`, or its second character is `:` (a drive, `C:`).
pub open spec fn may_hold_root_or_prefix(d: Seq<char>) -> bool {
    ||| d.len() > 0 && is_separator(d[0])
    ||| d.len() > 1 && d[1] == ':'
}

/// `d` starts with the marker of a verbatim path, `\\?\` (with either
/// separator).
pub open spec fn starts_verbatim(d: Seq<char>) -> bool {
    d.len() > 3 && is_separator(d[0]) && is_separator(d[1]) && d[2] == '?' && is_separator(d[3])
}

/// Some of the components are a prefix or the root directory.
pub open spec fn holds_root_or_prefix(kinds: Seq<ComponentKind>) -> bool {
    exists|i: int|
        0 <= i < kinds.len() && (#[trigger] kinds[i] is Prefix || kinds[i] is RootDir)
}

/// `p` is `base` extended by `rel`: `base`, then at most one separator, then
/// `rel`.
pub open spec fn extends_with(p: Seq<char>, base: Seq<char>, rel: Seq<char>) -> bool {
    &&& base.len() + rel.len() <= p.len() <= base.len() + rel.len() + 1
    &&& p.subrange(0, base.len() as int) == base
    &&& p.subrange(p.len() - rel.len(), p.len() as int) == rel
    &&& p.len() == base.len() + rel.len() + 1 ==> is_separator(p[base.len() as int])
}

/// The kinds of the components of `Path::new(path)`, one for each
/// `Component` that `Path::components` yields, in order.
///
/// On every platform a path that starts with `/` has a root or a prefix
/// (`/x` a root, `//server/share` a prefix on Windows), and a root or a
/// prefix is only found where [`may_hold_root_or_prefix`] holds: a root
/// comes first or right after a prefix and is a separator, and a prefix is
/// `\\?\..`, `\\.\..`, `\\server\share` or a drive, `C:`. Which of the other
/// such paths has one depends on the platform and is named, not stated.
#[verifier::external_body]
pub(crate) fn path_component_kinds(path: &str) -> (v: Vec<ComponentKind>)
    ensures
        v@ == components_of(path@),
        starts_with_slash(path@) ==> holds_root_or_prefix(v@),
        holds_root_or_prefix(v@) ==> may_hold_root_or_prefix(path@),
{
    let mut kinds = Vec::new();
    for part in Path::new(path).components() {
        kinds.push(match part {
            Component::Prefix(_) => ComponentKind::Prefix,
            Component::RootDir => ComponentKind::RootDir,
            Component::CurDir => ComponentKind::CurDir,
            Component::ParentDir => ComponentKind::ParentDir,
            Component::Normal(_) => ComponentKind::Normal,
        });
    }
    kinds
}

/// The kinds of the components of the path whose text is `path`, in order.
pub fn path_components(path: &str) -> (v: Vec<ComponentKind>)
    ensures
        v@ == components_of(path@),
        starts_with_slash(path@) ==> holds_root_or_prefix(v@),
        holds_root_or_prefix(v@) ==> may_hold_root_or_prefix(path@),
{
    path_component_kinds(path)
}

/// Whether some of `kinds` is a prefix or the root directory.
pub fn has_root_or_prefix(kinds: &Vec<ComponentKind>) -> (r: bool)
    ensures
        r == holds_root_or_prefix(kinds@),
{
    let mut i: usize = 0;
    while i < kinds.len()
        invariant
            i <= kinds@.len(),
            forall|j: int|
                0 <= j < i ==> !(#[trigger] kinds@[j] is Prefix || kinds@[j] is RootDir),
        decreases kinds.len() - i,
    {
        match &kinds[i] {
            ComponentKind::Prefix | ComponentKind::RootDir => {
                return true;
            },
            _ => {},
        }
        i = i + 1;
    }
    false
}

/// `Path::join`, on the text of the two paths: `Path::new(base).join(rel)`,
/// taken back as text (the join of two texts is itself text, so nothing is
/// lost).
///
/// As `PathBuf::push` documents, a `rel` that holds neither a root nor a
/// prefix extends `base`; the one separator that may come between them is
/// the platform's. A verbatim `base` (`\\?\..`) is normalized on Windows,
/// so no more is stated where `base` starts with that marker.
#[verifier::external_body]
pub(crate) fn join_path(base: &str, rel: &str) -> (r: String)
    ensures
        r@ == joined_path(base@, rel@),
        !holds_root_or_prefix(components_of(rel@)) && !starts_verbatim(base@)
            ==> extends_with(r@, base@, rel@),
{
    Path::new(base).join(rel).to_string_lossy().into_owned()
}

} // verus!
