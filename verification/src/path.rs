//! Paths relative to an update root, and how they are read, compared and written out.

use vstd::prelude::*;
use crate::text::{
    ascii_lower, clone_texts, lemma_texts_push, pieces, replace_char, replaced, same_text,
    split_pieces, text_between, texts, to_ascii_lower, to_chars, trim, trimmed,
};

verus! {

/// The directory of the update target that holds the transactions.
pub const TRANSACTION_DIR: &'static str = ".update-tx";

/// The family of file systems that an update runs on. File names are compared without regard to
/// ASCII case on Windows, and exactly elsewhere.
#[derive(Clone, Copy, Debug, PartialEq, Eq, Structural)]
pub enum Platform {
    Windows,
    Unix,
}

/// Why a declared path is refused.
#[derive(Clone, Copy, Debug, PartialEq, Eq, Structural)]
pub enum PathFault {
    /// The path is empty, or starts at a root.
    Illegal,
    /// The path leaves the update root.
    Escapes,
    /// The path names the update root itself, or lies in a directory that updates leave alone.
    Reserved,
}

/// A path below a root, as the names of its components from the root down.
#[derive(Debug)]
pub struct RelativePath {
    pub parts: Vec<String>,
}

impl View for RelativePath {
    type V = Seq<Seq<char>>;

    open spec fn view(&self) -> Seq<Seq<char>> {
        texts(self.parts@)
    }
}

/// The paths that a sequence of relative paths holds.
pub open spec fn paths(list: Seq<RelativePath>) -> Seq<Seq<Seq<char>>> {
    list.map_values(|p: RelativePath| p@)
}

pub proof fn lemma_paths_push(list: Seq<RelativePath>, p: RelativePath)
    ensures
        paths(list.push(p)) == paths(list).push(p@),
{
    assert(paths(list.push(p)) =~= paths(list).push(p@));
}

impl Clone for RelativePath {
    fn clone(&self) -> (res: RelativePath)
        ensures
            res@ == self@,
    {
        RelativePath { parts: clone_texts(&self.parts) }
    }
}

/// Whether a file name is the expected one.
pub open spec fn names_match(platform: Platform, actual: Seq<char>, expected: Seq<char>) -> bool {
    match platform {
        Platform::Windows => ascii_lower(actual) == ascii_lower(expected),
        Platform::Unix => actual == expected,
    }
}

/// Whether a file name is the expected one: up to ASCII case on Windows, exactly elsewhere.
pub fn name_matches(platform: Platform, actual: &str, expected: &str) -> (res: bool)
    ensures
        res == names_match(platform, actual@, expected@),
{
    match platform {
        Platform::Windows => same_text(
            to_ascii_lower(actual).as_str(),
            to_ascii_lower(expected).as_str(),
        ),
        Platform::Unix => same_text(actual, expected),
    }
}

/// The names, directly below the target, of what updates leave alone: mutable data and the
/// transactions.
pub open spec fn reserved_name(platform: Platform, name: Seq<char>) -> bool {
    ||| names_match(platform, name, TRANSACTION_DIR@)
    ||| names_match(platform, name, "cache"@)
    ||| names_match(platform, name, "config"@)
    ||| names_match(platform, name, "debug"@)
    ||| names_match(platform, name, "logs"@)
}

/// Whether a name, directly below the target, is one that updates leave alone.
pub fn is_reserved_name(platform: Platform, name: &str) -> (res: bool)
    ensures
        res == reserved_name(platform, name@),
{
    name_matches(platform, name, TRANSACTION_DIR) || name_matches(platform, name, "cache")
        || name_matches(platform, name, "config") || name_matches(platform, name, "debug")
        || name_matches(platform, name, "logs")
}

/// Where the first separator at or behind a position is; the end of the text where there is none.
pub open spec fn next_separator(platform: Platform, text: Seq<char>, from: int) -> int
    decreases text.len() - from,
{
    if from >= text.len() || is_separator(platform, text[from]) {
        from
    } else {
        next_separator(platform, text, from + 1)
    }
}

/// Where the first separator at or behind a position is; the end of the text where there is none.
fn find_separator(platform: Platform, text: &Vec<char>, from: usize) -> (res: usize)
    requires
        from <= text@.len(),
    ensures
        res == next_separator(platform, text@, from as int),
        from <= res <= text@.len(),
{
    let mut at: usize = from;
    while at < text.len() && !char_separates(platform, text[at])
        invariant
            from <= at <= text@.len(),
            next_separator(platform, text@, at as int) == next_separator(
                platform,
                text@,
                from as int,
            ),
        decreases text.len() - at,
    {
        at = at + 1;
    }
    at
}

/// The first component of a text: what stands before its first separator.
pub open spec fn first_component(platform: Platform, text: Seq<char>) -> Seq<char> {
    text.take(next_separator(platform, text, 0))
}

/// A text without a separator is its own first component.
pub proof fn lemma_first_component(platform: Platform, text: Seq<char>)
    requires
        forall|k: int| 0 <= k < text.len() ==> #[trigger] text[k] != '/' && text[k] != '\\',
    ensures
        first_component(platform, text) == text,
{
    lemma_no_separator(platform, text, 0);
    assert(text.take(text.len() as int) =~= text);
}

proof fn lemma_no_separator(platform: Platform, text: Seq<char>, from: int)
    requires
        0 <= from <= text.len(),
        forall|k: int| 0 <= k < text.len() ==> #[trigger] text[k] != '/' && text[k] != '\\',
    ensures
        next_separator(platform, text, from) == text.len(),
    decreases text.len() - from,
{
    if from < text.len() {
        lemma_no_separator(platform, text, from + 1);
    }
}

/// Whether a component is the name of a file, and neither a root, a drive, nor a step to this directory or
/// the one around it.
pub open spec fn is_file_name(platform: Platform, component: Seq<char>) -> bool {
    &&& component.len() > 0
    &&& component != "."@
    &&& component != ".."@
    &&& !(platform == Platform::Windows && has_drive(component))
}

/// Whether a path has no first component, or one that is no file name or that updates leave alone.
pub open spec fn preserved(platform: Platform, path: Seq<Seq<char>>) -> bool {
    ||| path.len() == 0
    ||| !is_file_name(platform, first_component(platform, path[0]))
    ||| reserved_name(platform, first_component(platform, path[0]))
}

/// Whether a path has no first component, or one that is no file name or that updates leave alone.
pub fn is_preserved_path(platform: Platform, path: &RelativePath) -> (res: bool)
    ensures
        res == preserved(platform, path@),
{
    if path.parts.len() == 0 {
        return true;
    }
    let chars = to_chars(path.parts[0].as_str());
    let end: usize = find_separator(platform, &chars, 0);
    let first = text_between(&chars, 0, end);
    proof {
        assert(chars@.subrange(0, end as int) =~= first_component(platform, path@[0]));
    }
    let drive = platform == Platform::Windows && starts_with_drive(&to_chars(first.as_str()));
    first.as_str().is_empty() || same_text(first.as_str(), ".") || same_text(first.as_str(), "..")
        || drive || is_reserved_name(platform, first.as_str())
}

/// The components of a path, joined by a separator.
pub open spec fn joined(path: Seq<Seq<char>>, separator: char) -> Seq<char>
    decreases path.len(),
{
    if path.len() == 0 {
        Seq::empty()
    } else if path.len() == 1 {
        path[0]
    } else {
        joined(path.drop_last(), separator).push(separator) + path.last()
    }
}

/// Joins the components of a path by a separator.
pub fn join_parts(path: &RelativePath, separator: char) -> (res: String)
    ensures
        res@ == joined(path@, separator),
{
    let mut res = String::new();
    let mut i: usize = 0;
    while i < path.parts.len()
        invariant
            i <= path.parts@.len(),
            res@ == joined(path@.take(i as int), separator),
        decreases path.parts.len() - i,
    {
        proof {
            assert(path@.take(i + 1).drop_last() =~= path@.take(i as int));
            assert(path@.take(i + 1).last() == path.parts@[i as int]@);
            assert(Seq::<char>::empty() + path.parts@[i as int]@ =~= path.parts@[i as int]@);
        }
        if i > 0 {
            res.push(separator);
        }
        res.append(path.parts[i].as_str());
        i = i + 1;
    }
    proof {
        assert(path@.take(i as int) =~= path@);
    }
    res
}

/// The text by which two declared paths are taken for the same file: `/` separates, and on Windows the
/// ASCII case does not count.
pub open spec fn key_of(platform: Platform, path: Seq<Seq<char>>) -> Seq<char> {
    let key = replaced(joined(path, '/'), '\\', '/');
    match platform {
        Platform::Windows => ascii_lower(key),
        Platform::Unix => key,
    }
}

/// The text by which two declared paths are taken for the same file.
pub fn path_key(platform: Platform, path: &RelativePath) -> (key: String)
    ensures
        key@ == key_of(platform, path@),
{
    let chars = replace_char(&to_chars(join_parts(path, '/').as_str()), '\\', '/');
    let key = text_between(&chars, 0, chars.len());
    proof {
        assert(chars@.subrange(0, chars@.len() as int) =~= chars@);
    }
    match platform {
        Platform::Windows => to_ascii_lower(key.as_str()),
        Platform::Unix => key,
    }
}

/// Whether a text starts with a drive, such as `C:`.
pub open spec fn has_drive(text: Seq<char>) -> bool {
    &&& text.len() >= 2
    &&& 'A' <= text[0] <= 'Z' || 'a' <= text[0] <= 'z'
    &&& text[1] == ':'
}

/// Whether a text starts with a drive.
pub fn starts_with_drive(text: &Vec<char>) -> (res: bool)
    ensures
        res == has_drive(text@),
{
    text.len() >= 2 && (('A' <= text[0] && text[0] <= 'Z') || ('a' <= text[0] && text[0] <= 'z'))
        && text[1] == ':'
}

/// A declared path with the separators of both families turned into `/`.
pub open spec fn unified(raw: Seq<char>) -> Seq<char> {
    replaced(trimmed(raw), '\\', '/')
}

/// Whether a piece of a declared path names a component: neither empty nor the current directory.
pub open spec fn names_component(piece: Seq<char>) -> bool {
    piece.len() > 0 && piece != "."@
}

/// The components that a declared path names.
pub open spec fn components(raw: Seq<char>) -> Seq<Seq<char>> {
    pieces(unified(raw), '/').filter(|piece: Seq<char>| names_component(piece))
}

/// Whether some component starts with a drive, so that on Windows the path would start anew there.
pub open spec fn restarts(path: Seq<Seq<char>>) -> bool {
    exists|i: int| 0 <= i < path.len() && has_drive(#[trigger] path[i])
}

/// Whether a declared path steps out of the update root.
pub open spec fn escapes(platform: Platform, raw: Seq<char>) -> bool {
    ||| platform == Platform::Windows && has_drive(unified(raw))
    ||| pieces(unified(raw), '/').contains(".."@)
}

/// What a declared path stands for below an update root, or why it is refused.
pub open spec fn normalized(platform: Platform, raw: Seq<char>) -> Result<
    Seq<Seq<char>>,
    PathFault,
> {
    if unified(raw).len() == 0 || unified(raw)[0] == '/' {
        Err(PathFault::Illegal)
    } else if escapes(platform, raw) {
        Err(PathFault::Escapes)
    } else if preserved(platform, components(raw)) || (platform == Platform::Windows && restarts(
        components(raw),
    )) {
        Err(PathFault::Reserved)
    } else {
        Ok(components(raw))
    }
}

/// Whether a path restarts at a drive.
fn path_restarts(path: &RelativePath) -> (res: bool)
    ensures
        res == restarts(path@),
{
    let mut i: usize = 0;
    while i < path.parts.len()
        invariant
            i <= path.parts@.len(),
            forall|j: int| 0 <= j < i ==> !has_drive(#[trigger] path@[j]),
        decreases path.parts.len() - i,
    {
        let part = to_chars(path.parts[i].as_str());
        if starts_with_drive(&part) {
            assert(has_drive(path@[i as int]));
            return true;
        }
        i = i + 1;
    }
    false
}

/// Reads a declared path. It is trimmed, separators of both families count, and components that
/// name the current directory are dropped. The path is refused where it is empty or starts at a
/// root, where it steps out of the update root, and where it lies in what updates leave alone.
pub fn normalize_relative_path(platform: Platform, raw: &str) -> (res: Result<
    RelativePath,
    PathFault,
>)
    ensures
        match (res, normalized(platform, raw@)) {
            (Ok(path), Ok(expected)) => path@ == expected,
            (Err(fault), Err(expected)) => fault == expected,
            _ => false,
        },
{
    let unified_chars = replace_char(&trim(raw), '\\', '/');
    if unified_chars.len() == 0 || unified_chars[0] == '/' {
        return Err(PathFault::Illegal);
    }
    let found = split_pieces(&unified_chars, '/');
    let ghost all = pieces(unified(raw@), '/');
    let ghost kept = |piece: Seq<char>| names_component(piece);
    if platform == Platform::Windows && starts_with_drive(&unified_chars) {
        return Err(PathFault::Escapes);
    }
    let mut parts: Vec<String> = Vec::new();
    let mut i: usize = 0;
    proof {
        assert(all.take(0) =~= Seq::<Seq<char>>::empty());
        reveal_with_fuel(Seq::filter, 1);
        assert(texts(parts@) =~= all.take(0).filter(kept));
    }
    while i < found.len()
        invariant
            i <= found@.len(),
            texts(found@) == all,
            all == pieces(unified(raw@), '/'),
            kept == (|piece: Seq<char>| names_component(piece)),
            unified(raw@).len() > 0 && unified(raw@)[0] != '/',
            !(platform == Platform::Windows && has_drive(unified(raw@))),
            texts(parts@) == all.take(i as int).filter(kept),
            forall|j: int| 0 <= j < i ==> all[j] != ".."@,
        decreases found.len() - i,
    {
        let piece = found[i].clone();
        assert(piece@ == all[i as int]);
        if same_text(piece.as_str(), "..") {
            assert(all.contains(".."@));
            return Err(PathFault::Escapes);
        }
        proof {
            assert(all.take(i + 1) =~= all.take(i as int).push(all[i as int]));
            all.take(i as int).lemma_filter_push(all[i as int], kept);
        }
        if !piece.as_str().is_empty() && !same_text(piece.as_str(), ".") {
            proof {
                lemma_texts_push(parts@, piece);
            }
            parts.push(piece);
        }
        i = i + 1;
    }
    proof {
        assert(all.take(i as int) =~= all);
        assert(!all.contains(".."@));
    }
    let path = RelativePath { parts };
    if is_preserved_path(platform, &path) || (platform == Platform::Windows && path_restarts(
        &path,
    )) {
        return Err(PathFault::Reserved);
    }
    Ok(path)
}

/// The character that separates components.
pub open spec fn separator(platform: Platform) -> char {
    match platform {
        Platform::Windows => '\\',
        Platform::Unix => '/',
    }
}

/// Whether a character separates components.
pub open spec fn is_separator(platform: Platform, c: char) -> bool {
    c == '/' || (platform == Platform::Windows && c == '\\')
}

/// Whether a name can be appended to a base without a separator between them.
pub open spec fn needs_no_separator(platform: Platform, base: Seq<char>) -> bool {
    ||| base.len() == 0
    ||| is_separator(platform, base.last())
    ||| platform == Platform::Windows && base.len() == 2 && has_drive(base)
}

/// The path of `name` below `base`. A name with a drive stands for itself on Windows.
pub open spec fn under(platform: Platform, base: Seq<char>, name: Seq<char>) -> Seq<char> {
    if platform == Platform::Windows && has_drive(name) {
        name
    } else if needs_no_separator(platform, base) {
        base + name
    } else {
        base.push(separator(platform)) + name
    }
}

/// The path of `name` below `base`.
pub fn join_name(platform: Platform, base: &str, name: &str) -> (res: String)
    ensures
        res@ == under(platform, base@, name@),
{
    let base_chars = to_chars(base);
    let count: usize = base_chars.len();
    let windows = platform == Platform::Windows;
    if windows && starts_with_drive(&to_chars(name)) {
        return name.to_owned();
    }
    let mut res = base.to_owned();
    let ready = count == 0 || base_chars[count - 1] == '/' || (windows && base_chars[count - 1]
        == '\\') || (windows && count == 2 && starts_with_drive(&base_chars));
    if !ready {
        res.push(if windows {
            '\\'
        } else {
            '/'
        });
    }
    res.append(name);
    res
}

/// The path reached from `base` by going down through some names.
pub open spec fn descend(platform: Platform, base: Seq<char>, names: Seq<Seq<char>>) -> Seq<char>
    decreases names.len(),
{
    if names.len() == 0 {
        base
    } else {
        under(platform, descend(platform, base, names.drop_last()), names.last())
    }
}

/// Going down through some names is going down through the first and then through the rest.
pub proof fn lemma_descend_first(platform: Platform, base: Seq<char>, names: Seq<Seq<char>>)
    requires
        names.len() > 0,
    ensures
        descend(platform, base, names) == descend(
            platform,
            under(platform, base, names[0]),
            names.drop_first(),
        ),
    decreases names.len(),
{
    if names.len() == 1 {
        assert(names.drop_last() =~= Seq::empty());
        assert(names.drop_first() =~= Seq::empty());
        assert(descend(platform, base, names.drop_last()) == base);
    } else {
        lemma_descend_first(platform, base, names.drop_last());
        assert(names.drop_last().drop_first() =~= names.drop_first().drop_last());
    }
}

/// Where the server of a network share starts in a Windows path, as in `\\server\share`. A device, as in
/// `\\.\device`, and a verbatim path, as in `\\?\C:`, are written like a share.
pub open spec fn server_start(path: Seq<char>) -> int {
    if path.len() >= 8 && path.take(8) == "\\\\?\\UNC\\"@ {
        8
    } else {
        2
    }
}

/// Where a network share ends that a Windows path starts with; none where it starts with no share.
pub open spec fn share_end(path: Seq<char>) -> Option<int> {
    let start = server_start(path);
    let middle = next_separator(Platform::Windows, path, start);
    let end = next_separator(Platform::Windows, path, middle + 1);
    if path.len() > 2 && is_separator(Platform::Windows, path[0]) && is_separator(
        Platform::Windows,
        path[1],
    ) && start < middle < path.len() && middle + 1 < end {
        Some(end)
    } else {
        None
    }
}

/// How much of a path is a root: a drive or a network share, and the separator behind it or at the start.
pub open spec fn root_len(platform: Platform, path: Seq<char>) -> int {
    let volume = if platform == Platform::Windows && has_drive(path) {
        2
    } else {
        match share_end(path) {
            Some(end) if platform == Platform::Windows => end,
            _ => 0,
        }
    };
    if volume < path.len() && is_separator(platform, path[volume]) {
        volume + 1
    } else {
        volume
    }
}

/// A path without the separators and current-directory components at its end, behind its root.
pub open spec fn bare(platform: Platform, path: Seq<char>, root: int) -> Seq<char>
    decreases path.len(),
{
    if path.len() <= 1 || path.len() <= root {
        path
    } else if is_separator(platform, path.last()) || (path.last() == '.' && is_separator(
        platform,
        path[path.len() - 2],
    )) {
        bare(platform, path.drop_last(), root)
    } else {
        path
    }
}

/// Where the last component of a path starts: behind the last separator, or behind its root.
pub open spec fn name_start(platform: Platform, path: Seq<char>, root: int) -> int
    decreases path.len(),
{
    if path.len() == 0 || path.len() <= root || is_separator(platform, path.last()) {
        path.len() as int
    } else {
        name_start(platform, path.drop_last(), root)
    }
}

/// The directory that a path lies in; none for an empty path, a root, a bare drive or a network share.
pub open spec fn parent_of(platform: Platform, path: Seq<char>) -> Option<Seq<char>> {
    let root = root_len(platform, path);
    let whole = bare(platform, path, root);
    let start = name_start(platform, whole, root);
    if start == whole.len() {
        None
    } else {
        Some(bare(platform, whole.take(start), root))
    }
}

/// The name of what a path leads to; none where the path does not end with a name.
pub open spec fn last_name(platform: Platform, path: Seq<char>) -> Option<Seq<char>> {
    let root = root_len(platform, path);
    let whole = bare(platform, path, root);
    let name = whole.skip(name_start(platform, whole, root));
    if name.len() == 0 || name == "."@ || name == ".."@ {
        None
    } else {
        Some(name)
    }
}

fn char_separates(platform: Platform, c: char) -> (res: bool)
    ensures
        res == is_separator(platform, c),
{
    c == '/' || (platform == Platform::Windows && c == '\\')
}

/// Where a network share ends that a Windows path starts with.
fn find_share_end(path: &Vec<char>) -> (res: Option<usize>)
    ensures
        match (res, share_end(path@)) {
            (Some(end), Some(expected)) => end == expected && end <= path@.len(),
            (None, None) => true,
            _ => false,
        },
{
    if path.len() <= 2 || !char_separates(Platform::Windows, path[0]) || !char_separates(
        Platform::Windows,
        path[1],
    ) {
        return None;
    }
    let mut start: usize = 2;
    if path.len() >= 8 && same_text(text_between(path, 0, 8).as_str(), "\\\\?\\UNC\\") {
        start = 8;
    }
    proof {
        if path@.len() >= 8 {
            assert(path@.take(8) =~= path@.subrange(0, 8));
        }
        assert(start == server_start(path@));
    }
    let middle: usize = find_separator(Platform::Windows, path, start);
    if middle == start || middle == path.len() {
        return None;
    }
    let end: usize = find_separator(Platform::Windows, path, middle + 1);
    if end == middle + 1 {
        return None;
    }
    Some(end)
}

/// How much of a path is a root.
fn find_root_len(platform: Platform, path: &Vec<char>) -> (res: usize)
    ensures
        res == root_len(platform, path@),
        res <= path@.len(),
{
    let mut volume: usize = 0;
    if platform == Platform::Windows {
        if starts_with_drive(path) {
            volume = 2;
        } else if let Some(end) = find_share_end(path) {
            volume = end;
        }
    }
    if volume < path.len() && char_separates(platform, path[volume]) {
        volume + 1
    } else {
        volume
    }
}

/// The length of the first `count` characters without what [`bare`] drops.
fn bare_len(platform: Platform, chars: &Vec<char>, count: usize, root: usize) -> (res: usize)
    requires
        count <= chars@.len(),
    ensures
        res <= count,
        chars@.take(res as int) == bare(platform, chars@.take(count as int), root as int),
{
    let mut n: usize = count;
    while n > 1 && n > root
        invariant
            n <= count <= chars@.len(),
            bare(platform, chars@.take(n as int), root as int) == bare(
                platform,
                chars@.take(count as int),
                root as int,
            ),
        ensures
            n <= count,
            chars@.take(n as int) == bare(platform, chars@.take(count as int), root as int),
        decreases n,
    {
        let last = chars[n - 1];
        proof {
            assert(chars@.take(n as int).drop_last() =~= chars@.take(n - 1));
        }
        if !char_separates(platform, last) && !(last == '.' && char_separates(
            platform,
            chars[n - 2],
        )) {
            break;
        }
        n = n - 1;
    }
    n
}

/// Where the last component of the first `count` characters starts.
fn find_name_start(platform: Platform, chars: &Vec<char>, count: usize, root: usize) -> (res: usize)
    requires
        count <= chars@.len(),
    ensures
        res <= count,
        res == name_start(platform, chars@.take(count as int), root as int),
{
    let mut start: usize = count;
    while start > 0 && start > root && !char_separates(platform, chars[start - 1])
        invariant
            start <= count <= chars@.len(),
            name_start(platform, chars@.take(start as int), root as int) == name_start(
                platform,
                chars@.take(count as int),
                root as int,
            ),
        decreases start,
    {
        proof {
            assert(chars@.take(start as int).drop_last() =~= chars@.take(start - 1));
        }
        start = start - 1;
    }
    start
}

/// The directory that a path lies in; none for an empty path, a root, a bare drive or a network share.
pub fn parent_dir(platform: Platform, path: &str) -> (res: Option<String>)
    ensures
        match (res, parent_of(platform, path@)) {
            (Some(parent), Some(expected)) => parent@ == expected,
            (None, None) => true,
            _ => false,
        },
{
    let chars = to_chars(path);
    proof {
        assert(chars@.take(chars@.len() as int) =~= path@);
    }
    let root: usize = find_root_len(platform, &chars);
    let count: usize = bare_len(platform, &chars, chars.len(), root);
    let start: usize = find_name_start(platform, &chars, count, root);
    if start == count {
        return None;
    }
    let end: usize = bare_len(platform, &chars, start, root);
    proof {
        assert(chars@.take(count as int).take(start as int) =~= chars@.take(start as int));
        assert(chars@.take(end as int) =~= chars@.subrange(0, end as int));
    }
    Some(text_between(&chars, 0, end))
}

/// The name of what a path leads to; none where the path does not end with a name.
pub fn file_name_of(platform: Platform, path: &str) -> (res: Option<String>)
    ensures
        match (res, last_name(platform, path@)) {
            (Some(name), Some(expected)) => name@ == expected,
            (None, None) => true,
            _ => false,
        },
{
    let chars = to_chars(path);
    proof {
        assert(chars@.take(chars@.len() as int) =~= path@);
    }
    let root: usize = find_root_len(platform, &chars);
    let count: usize = bare_len(platform, &chars, chars.len(), root);
    let start: usize = find_name_start(platform, &chars, count, root);
    let name = text_between(&chars, start, count);
    proof {
        assert(chars@.take(count as int).skip(start as int) =~= chars@.subrange(
            start as int,
            count as int,
        ));
    }
    if name.as_str().is_empty() || same_text(name.as_str(), ".") || same_text(name.as_str(), "..") {
        None
    } else {
        Some(name)
    }
}

/// The path, below `base`, that a relative path stands for.
pub open spec fn placed(platform: Platform, base: Seq<char>, path: Seq<Seq<char>>) -> Seq<char> {
    under(platform, base, joined(path, separator(platform)))
}

/// The path, below `base`, that a relative path stands for.
pub fn place(platform: Platform, base: &str, path: &RelativePath) -> (res: String)
    ensures
        res@ == placed(platform, base@, path@),
{
    let text = match platform {
        Platform::Windows => join_parts(path, '\\'),
        Platform::Unix => join_parts(path, '/'),
    };
    join_name(platform, base, text.as_str())
}

} // verus!
