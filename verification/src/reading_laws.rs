//! Which declared paths are accepted, and where paths lead, by what can be seen of the texts.

use vstd::prelude::*;
use crate::path::{
    bare, components, has_drive, is_separator, joined, key_of, last_name, lemma_first_component,
    name_start, names_component, names_match, next_separator, normalized, parent_of, placed,
    preserved, reserved_name, root_len, separator, server_start, under, unified, PathFault, Platform,
};
use crate::path_laws::{lemma_joined_comes_apart, plain_name};
use crate::text::{ascii_lower, lemma_trimmed, pieces, replaced, trimmed, white_space};
use crate::text_laws::{law_pieces_make_up_the_text, rejoined};

verus! {

/// Whether a text starts with a letter of the Latin alphabet and a colon.
pub open spec fn letter_and_colon(text: Seq<char>) -> bool {
    let first = text[0] as int;
    &&& text.len() >= 2
    &&& 0x41 <= first <= 0x5a || 0x61 <= first <= 0x7a
    &&& text[1] as int == 0x3a
}

/// The name in the case that file names are compared in.
pub open spec fn compared(platform: Platform, name: Seq<char>) -> Seq<char> {
    if platform == Platform::Windows {
        ascii_lower(name)
    } else {
        name
    }
}

/// Whether a name is `.update-tx`, `cache`, `config`, `debug` or `logs`, up to ASCII case on Windows.
pub open spec fn of_mutable_data(platform: Platform, name: Seq<char>) -> bool {
    let plain = compared(platform, name);
    ||| plain == ".update-tx"@
    ||| plain == "cache"@
    ||| plain == "config"@
    ||| plain == "debug"@
    ||| plain == "logs"@
}

proof fn lemma_lower_literals()
    ensures
        ascii_lower(".update-tx"@) == ".update-tx"@,
        ascii_lower("cache"@) == "cache"@,
        ascii_lower("config"@) == "config"@,
        ascii_lower("debug"@) == "debug"@,
        ascii_lower("logs"@) == "logs"@,
        ascii_lower("changes.json"@) == "changes.json"@,
{
    reveal_strlit(".update-tx");
    reveal_strlit("cache");
    reveal_strlit("config");
    reveal_strlit("debug");
    reveal_strlit("logs");
    reveal_strlit("changes.json");
    assert(ascii_lower(".update-tx"@) =~= ".update-tx"@);
    assert(ascii_lower("cache"@) =~= "cache"@);
    assert(ascii_lower("config"@) =~= "config"@);
    assert(ascii_lower("debug"@) =~= "debug"@);
    assert(ascii_lower("logs"@) =~= "logs"@);
    assert(ascii_lower("changes.json"@) =~= "changes.json"@);
}

/// Law: file names are compared exactly, but up to ASCII case on Windows.
pub proof fn law_names_are_compared_as_on_the_platform(
    platform: Platform,
    a: Seq<char>,
    b: Seq<char>,
)
    ensures
        names_match(platform, a, b) <==> compared(platform, a) == compared(platform, b),
        a == b ==> names_match(platform, a, b),
        names_match(Platform::Unix, a, b) ==> a == b,
        names_match(platform, a, "changes.json"@) <==> compared(platform, a) == "changes.json"@,
{
    lemma_lower_literals();
}

/// Law: updates leave alone what is called `.update-tx`, `cache`, `config`, `debug` or `logs`, and nothing
/// else.
pub proof fn law_five_names_are_left_alone(platform: Platform, name: Seq<char>)
    ensures
        reserved_name(platform, name) <==> of_mutable_data(platform, name),
{
    lemma_lower_literals();
}

/// Law: of a path, only its first component decides whether updates leave it alone.
pub proof fn law_only_the_first_component_is_looked_at(
    platform: Platform,
    path: Seq<Seq<char>>,
    below: Seq<Seq<char>>,
)
    requires
        path.len() > 0,
        plain_name(path[0]),
    ensures
        preserved(platform, path) <==> of_mutable_data(platform, path[0]) || (platform
            == Platform::Windows && letter_and_colon(path[0])),
        preserved(platform, path + below) == preserved(platform, path),
        preserved(platform, Seq::empty()),
{
    law_five_names_are_left_alone(platform, path[0]);
    lemma_first_component(platform, path[0]);
    assert((path + below)[0] == path[0]);
}

/// The pieces that name a component: those that are neither empty nor a single dot.
pub open spec fn naming(list: Seq<Seq<char>>) -> Seq<Seq<char>>
    decreases list.len(),
{
    if list.len() == 0 {
        list
    } else if list.last().len() == 0 || list.last() == "."@ {
        naming(list.drop_last())
    } else {
        naming(list.drop_last()).push(list.last())
    }
}

proof fn lemma_naming(list: Seq<Seq<char>>)
    ensures
        list.filter(|piece: Seq<char>| names_component(piece)) == naming(list),
    decreases list.len(),
{
    reveal(Seq::filter);
    if list.len() > 0 {
        lemma_naming(list.drop_last());
    } else {
        assert(list.filter(|piece: Seq<char>| names_component(piece)) =~= naming(list));
    }
}

/// Law: how a declared path is read. White space at its ends does not count, and `\` counts as `/`. A path
/// is illegal just where nothing is left or it starts with `/`; it escapes where one of its pieces is `..`,
/// or it starts with a drive on Windows; it is reserved where no piece names a component, where the first
/// that does names what updates leave alone, or where on Windows one of them starts with a drive. Every
/// other path is accepted, and stands for just the pieces that name components.
pub proof fn law_declared_paths_are_read_by_their_pieces(platform: Platform, raw: Seq<char>)
    ensures
        ({
            let text = replaced(trimmed(raw), '\\', '/');
            let all = pieces(text, '/');
            let names = naming(all);
            let windows = platform == Platform::Windows;
            normalized(platform, raw) == (if text.len() == 0 || text[0] == '/' {
                Err::<Seq<Seq<char>>, PathFault>(PathFault::Illegal)
            } else if all.contains(".."@) || (windows && letter_and_colon(text)) {
                Err(PathFault::Escapes)
            } else if names.len() == 0 || of_mutable_data(platform, names[0]) || (windows && exists|
                i: int,
            | 0 <= i < names.len() && letter_and_colon(#[trigger] names[i])) {
                Err(PathFault::Reserved)
            } else {
                Ok(names)
            })
        }),
{
    let text = replaced(trimmed(raw), '\\', '/');
    let all = pieces(text, '/');
    let names = naming(all);
    let windows = platform == Platform::Windows;
    lemma_naming(all);
    assert(unified(raw) == text);
    assert(components(raw) == names);
    assert forall|t: Seq<char>| #[trigger] has_drive(t) == letter_and_colon(t) by {
    }
    if names.len() > 0 && !all.contains(".."@) {
        lemma_naming_is_of_pieces(all, 0);
        law_pieces_make_up_the_text(text, '/');
        let k = choose|k: int| 0 <= k < all.len() && all[k] == names[0];
        assert forall|j: int| 0 <= j < names[0].len() implies #[trigger] names[0][j] != '/'
            && names[0][j] != '\\' by {
            assert(all[k][j] != '/');
            lemma_piece_is_of_text(text, '/', k, j);
        }
        lemma_first_component(platform, names[0]);
        law_five_names_are_left_alone(platform, names[0]);
        assert(names[0] != ".."@) by {
            if names[0] == ".."@ {
                assert(all[k] == ".."@);
            }
        }
    }
    if windows && exists|i: int| 0 <= i < names.len() && letter_and_colon(#[trigger] names[i]) {
        let i = choose|i: int| 0 <= i < names.len() && letter_and_colon(#[trigger] names[i]);
        assert(has_drive(names[i]));
    }
}

proof fn lemma_naming_is_of_pieces(list: Seq<Seq<char>>, i: int)
    requires
        0 <= i < naming(list).len(),
    ensures
        list.contains(naming(list)[i]),
        naming(list)[i].len() > 0,
        naming(list)[i] != "."@,
    decreases list.len(),
{
    let front = list.drop_last();
    if list.len() > 0 {
        if i < naming(front).len() {
            lemma_naming_is_of_pieces(front, i);
            let k = choose|k: int| 0 <= k < front.len() && front[k] == naming(front)[i];
            assert(list[k] == naming(list)[i]);
        } else {
            assert(list[list.len() - 1] == naming(list)[i]);
        }
    }
}

proof fn lemma_piece_is_of_text(s: Seq<char>, separator: char, i: int, k: int)
    requires
        0 <= i < pieces(s, separator).len(),
        0 <= k < pieces(s, separator)[i].len(),
    ensures
        s.contains(pieces(s, separator)[i][k]),
    decreases s.len(),
{
    if s.len() > 0 {
        let front = s.drop_last();
        let before = pieces(front, separator);
        let all = pieces(s, separator);
        if i < before.len() && k < before[i].len() {
            assert(all[i][k] == before[i][k]);
            lemma_piece_is_of_text(front, separator, i, k);
            let at = choose|at: int| 0 <= at < front.len() && front[at] == before[i][k];
            assert(s[at] == all[i][k]);
        } else {
            law_pieces_make_up_the_text(front, separator);
            assert(all[i][k] == s.last());
            assert(s[s.len() - 1] == s.last());
        }
    }
}

proof fn lemma_rejoined_is_joined(path: Seq<Seq<char>>, separator: char)
    ensures
        rejoined(path, separator) == joined(path, separator),
    decreases path.len(),
{
    if path.len() > 1 {
        lemma_rejoined_is_joined(path.drop_last(), separator);
        assert(rejoined(path, separator) =~= joined(path, separator));
    }
}

/// Law: every plain path is accepted that does not lie in what updates leave alone. Its names, with `/`
/// between them, are read as just these names, whatever the names behind the first are.
pub proof fn law_plain_paths_are_accepted(platform: Platform, path: Seq<Seq<char>>)
    requires
        path.len() > 0,
        forall|i: int| 0 <= i < path.len() ==> plain_name(#[trigger] path[i]),
        platform == Platform::Windows ==> forall|i: int|
            0 <= i < path.len() ==> !letter_and_colon(#[trigger] path[i]),
        !of_mutable_data(platform, path[0]),
        !white_space(path[0][0]),
        !white_space(path.last().last()),
    ensures
        normalized(platform, rejoined(path, '/')) == Ok::<Seq<Seq<char>>, PathFault>(path),
{
    let text = rejoined(path, '/');
    lemma_rejoined_is_joined(path, '/');
    lemma_joined_comes_apart(path, '/');
    assert(plain_name(path[0]));
    lemma_trimmed(text);
    assert(trimmed(text) == text);
    assert(replaced(text, '\\', '/') =~= text);
    lemma_naming_keeps_all(path);
    law_declared_paths_are_read_by_their_pieces(platform, text);
    assert(!path.contains(".."@)) by {
        if path.contains(".."@) {
            let i = choose|i: int| 0 <= i < path.len() && path[i] == ".."@;
            assert(plain_name(path[i]));
        }
    }
    assert(path[0][0] != '/');
    if platform == Platform::Windows && letter_and_colon(text) {
        if path[0].len() >= 2 {
            assert(text.take(path[0].len() as int)[0] == text[0]);
            assert(text.take(path[0].len() as int)[1] == text[1]);
            assert(letter_and_colon(path[0]));
        } else if path.len() > 1 {
            assert(text[1] == '/');
        } else {
            assert(text == path[0]);
        }
    }
}

proof fn lemma_naming_keeps_all(list: Seq<Seq<char>>)
    requires
        forall|i: int| 0 <= i < list.len() ==> plain_name(#[trigger] list[i]),
    ensures
        naming(list) == list,
    decreases list.len(),
{
    if list.len() > 0 {
        let front = list.drop_last();
        assert forall|i: int| 0 <= i < front.len() implies plain_name(#[trigger] front[i]) by {
            assert(front[i] == list[i]);
        }
        lemma_naming_keeps_all(front);
        assert(plain_name(list[list.len() - 1]));
        assert(front.push(list.last()) =~= list);
    }
}

/// Law: the key of a path is its names with `/` between them and for each `\`, in lower case on Windows.
pub proof fn law_key_is_the_text_with_slashes(platform: Platform, path: Seq<Seq<char>>)
    ensures
        key_of(platform, path) == compared(platform, replaced(rejoined(path, '/'), '\\', '/')),
{
    lemma_rejoined_is_joined(path, '/');
}

/// Law: a name is put below a directory behind one separator, `/` or on Windows `\`, and behind none where
/// the directory is empty, ends with a separator, or is a bare drive. A name with a drive stands for itself
/// on Windows.
pub proof fn law_names_are_put_below_directories(
    platform: Platform,
    base: Seq<char>,
    name: Seq<char>,
)
    ensures
        platform == Platform::Unix && base.len() > 0 && base.last() != '/' ==> under(
            platform,
            base,
            name,
        ) == base + seq!['/'] + name,
        platform == Platform::Unix && base.len() > 0 && base.last() == '/' ==> under(
            platform,
            base,
            name,
        ) == base + name,
        platform == Platform::Unix && base.len() == 0 ==> under(platform, base, name) == name,
        platform == Platform::Windows && letter_and_colon(name) ==> under(platform, base, name)
            == name,
        platform == Platform::Windows && !letter_and_colon(name) && base.len() == 0 ==> under(
            platform,
            base,
            name,
        ) == name,
        platform == Platform::Windows && !letter_and_colon(name) && base.len() > 0 && (base.last()
            == '/' || base.last() == '\\' || (base.len() == 2 && letter_and_colon(base))) ==> under(
            platform,
            base,
            name,
        ) == base + name,
        platform == Platform::Windows && !letter_and_colon(name) && base.len() > 0 && base.last()
            != '/' && base.last() != '\\' && !(base.len() == 2 && letter_and_colon(base)) ==> under(
            platform,
            base,
            name,
        ) == base + seq!['\\'] + name,
{
    assert(base.push('/') =~= base + seq!['/']);
    assert(base.push('\\') =~= base + seq!['\\']);
    if base.len() == 0 {
        assert(base + name =~= name);
    }
}

/// Law: a relative path is put below a directory as one name, made of its names with separators between
/// them.
pub proof fn law_paths_are_placed_below_directories(
    platform: Platform,
    base: Seq<char>,
    path: Seq<Seq<char>>,
)
    ensures
        placed(Platform::Unix, base, path) == under(Platform::Unix, base, rejoined(path, '/')),
        placed(Platform::Windows, base, path) == under(
            Platform::Windows,
            base,
            rejoined(path, '\\'),
        ),
{
    lemma_rejoined_is_joined(path, '/');
    lemma_rejoined_is_joined(path, '\\');
}

proof fn lemma_name_start(platform: Platform, front: Seq<char>, name: Seq<char>, root: int)
    requires
        0 <= root <= front.len(),
        front.len() == root || is_separator(platform, front.last()),
        forall|k: int| 0 <= k < name.len() ==> !is_separator(platform, #[trigger] name[k]),
    ensures
        name_start(platform, front + name, root) == front.len(),
    decreases name.len(),
{
    if name.len() == 0 {
        assert(front + name =~= front);
    } else {
        lemma_name_start(platform, front, name.drop_last(), root);
        assert((front + name).drop_last() =~= front + name.drop_last());
        assert((front + name).last() == name[name.len() - 1]);
    }
}

proof fn lemma_bare_of_gap(platform: Platform, dir: Seq<char>, gap: Seq<char>, root: int)
    requires
        dir.len() > 0,
        root <= dir.len(),
        forall|k: int| 0 <= k < gap.len() ==> is_separator(platform, #[trigger] gap[k]),
    ensures
        bare(platform, dir + gap, root) == bare(platform, dir, root),
    decreases gap.len(),
{
    if gap.len() == 0 {
        assert(dir + gap =~= dir);
    } else {
        assert((dir + gap).last() == gap[gap.len() - 1]);
        assert((dir + gap).drop_last() =~= dir + gap.drop_last());
        lemma_bare_of_gap(platform, dir, gap.drop_last(), root);
    }
}

/// Law: the name of what a path leads to is what stands behind its last separator, and the directory it
/// lies in is what stands before the separators there: for a path whose root, a drive, a share or a
/// separator at the start, lies before them, and where the directory does not end with a single dot behind
/// a separator.
pub proof fn law_paths_come_apart_at_their_last_separators(
    platform: Platform,
    dir: Seq<char>,
    gap: Seq<char>,
    name: Seq<char>,
)
    requires
        gap.len() > 0,
        forall|k: int| 0 <= k < gap.len() ==> is_separator(platform, #[trigger] gap[k]),
        plain_name(name),
        dir.len() > 0,
        root_len(platform, dir + gap + name) <= dir.len(),
        !is_separator(platform, dir.last()),
        !(dir.len() > 1 && dir.last() == '.' && is_separator(platform, dir[dir.len() - 2])),
    ensures
        last_name(platform, dir + gap + name) == Some(name),
        parent_of(platform, dir + gap + name) == Some(dir),
{
    let front = dir + gap;
    let path = front + name;
    let root = root_len(platform, path);
    assert(path.last() == name[name.len() - 1]);
    reveal_strlit(".");
    assert(bare(platform, path, root) == path) by {
        if path.last() == '.' && is_separator(platform, path[path.len() - 2]) {
            if name.len() == 1 {
                assert(name =~= "."@);
            } else {
                assert(path[path.len() - 2] == name[name.len() - 2]);
            }
        }
    }
    assert(front.last() == gap[gap.len() - 1]);
    lemma_root_is_not_negative(platform, path);
    lemma_name_start(platform, front, name, root);
    assert(path.skip(front.len() as int) =~= name);
    assert(path.take(front.len() as int) =~= front);
    lemma_bare_of_gap(platform, dir, gap, root);
    assert(bare(platform, dir, root) == dir);
}

proof fn lemma_root_is_not_negative(platform: Platform, path: Seq<char>)
    ensures
        0 <= root_len(platform, path),
{
    if let Some(end) = crate::path::share_end(path) {
        assert(end > 0);
    }
}

/// Law: a path without a separator lies in no named directory, and what is a root lies in none at all. On
/// Unix the root is a separator at the start; on Windows it may be a drive too.
pub proof fn law_roots_are_kept_apart(name: Seq<char>, drive: Seq<char>, rest: Seq<char>)
    requires
        plain_name(name),
        letter_and_colon(drive),
        drive.len() == 2,
    ensures
        root_len(Platform::Unix, seq!['/'] + rest) == 1,
        root_len(Platform::Unix, name) == 0,
        parent_of(Platform::Unix, name) == Some(Seq::<char>::empty()),
        parent_of(Platform::Unix, seq!['/'] + name) == Some(seq!['/']),
        parent_of(Platform::Unix, seq!['/']) is None,
        parent_of(Platform::Unix, Seq::empty()) is None,
        last_name(Platform::Unix, name) == Some(name),
        last_name(Platform::Unix, seq!['/'] + name) == Some(name),
        last_name(Platform::Unix, seq!['/']) is None,
        root_len(Platform::Windows, drive + seq!['\\'] + rest) == 3,
        parent_of(Platform::Windows, drive) is None,
        parent_of(Platform::Windows, drive + seq!['\\']) is None,
{
    let none: Seq<char> = Seq::empty();
    reveal_strlit(".");
    reveal_strlit("..");
    assert((seq!['/'] + rest)[0] == '/');
    assert(name[0] != '/');
    lemma_name_start(Platform::Unix, none, name, 0);
    assert(none + name =~= name);
    assert(bare(Platform::Unix, name, 0) == name) by {
        if name.len() > 1 && name.last() == '.' {
            assert(name[name.len() - 2] != '/');
        }
        assert(name[name.len() - 1] == name.last());
    }
    assert(name.skip(0) =~= name);
    assert(name.take(0) =~= none);
    let rooted = seq!['/'] + name;
    assert(rooted[0] == '/');
    assert(rooted.last() == name[name.len() - 1]);
    assert(bare(Platform::Unix, rooted, 1) == rooted) by {
        if rooted.last() == '.' && rooted[rooted.len() - 2] == '/' {
            if name.len() == 1 {
                assert(name =~= "."@);
            } else {
                assert(rooted[rooted.len() - 2] == name[name.len() - 2]);
            }
        }
    }
    lemma_name_start(Platform::Unix, seq!['/'], name, 1);
    assert(rooted.skip(1) =~= name);
    assert(rooted.take(1) =~= seq!['/']);
    let absolute = drive + seq!['\\'] + rest;
    assert(absolute[0] == drive[0] && absolute[1] == drive[1] && absolute[2] == '\\');
    assert(has_drive(absolute));
    assert(has_drive(drive));
    let root = drive + seq!['\\'];
    assert(root[0] == drive[0] && root[1] == drive[1] && root[2] == '\\');
    assert(has_drive(root));
    assert(bare(Platform::Windows, root, 3) == root);
    assert(bare(Platform::Windows, drive, 2) == drive);
}

/// Law: names are kept apart by `/`, and on Windows by `\\` too, which is put between them there.
pub proof fn law_names_are_kept_apart_by_separators(c: char)
    ensures
        is_separator(Platform::Unix, c) <==> c == '/',
        is_separator(Platform::Windows, c) <==> c == '/' || c == '\\',
        separator(Platform::Unix) == '/',
        separator(Platform::Windows) == '\\',
{
}

/// Law: a separator at the end of a path, or one with a single dot behind it, changes neither the name of what
/// the path leads to nor the directory that it lies in.
pub proof fn law_separators_at_the_end_do_not_count(
    platform: Platform,
    path: Seq<char>,
    between: char,
)
    requires
        is_separator(platform, between),
        path.len() > 0,
        root_len(platform, path.push(between)) == root_len(platform, path),
        root_len(platform, path.push(between).push('.')) == root_len(platform, path),
        root_len(platform, path) <= path.len(),
    ensures
        parent_of(platform, path.push(between)) == parent_of(platform, path),
        last_name(platform, path.push(between)) == last_name(platform, path),
        parent_of(platform, path.push(between).push('.')) == parent_of(platform, path),
        last_name(platform, path.push(between).push('.')) == last_name(platform, path),
{
    let root = root_len(platform, path);
    let one = path.push(between);
    let two = one.push('.');
    assert(one.drop_last() =~= path);
    assert(two.drop_last() =~= one);
    assert(bare(platform, one, root) == bare(platform, path, root));
    assert(two[two.len() - 2] == between);
    assert(bare(platform, two, root) == bare(platform, one, root));
}

/// Law: what leads up has no name of its own.
pub proof fn law_two_dots_are_no_name(platform: Platform, dir: Seq<char>, between: char)
    requires
        is_separator(platform, between),
        dir.len() > 0,
        root_len(platform, dir + seq![between] + ".."@) <= dir.len(),
    ensures
        last_name(platform, dir + seq![between] + ".."@) is None,
{
    let front = dir + seq![between];
    let name = ".."@;
    let path = front + name;
    let root = root_len(platform, path);
    reveal_strlit("..");
    assert(path.last() == '.' && path[path.len() - 2] == '.');
    assert(bare(platform, path, root) == path);
    assert(front.last() == between);
    lemma_root_is_not_negative(platform, path);
    lemma_name_start(platform, front, name, root);
    assert(path.skip(front.len() as int) =~= name);
}

proof fn lemma_next_separator(platform: Platform, text: Seq<char>, from: int, at: int)
    requires
        0 <= from <= at <= text.len(),
        forall|k: int| from <= k < at ==> !is_separator(platform, #[trigger] text[k]),
        at < text.len() ==> is_separator(platform, text[at]),
    ensures
        next_separator(platform, text, from) == at,
    decreases at - from,
{
    if from < at {
        lemma_next_separator(platform, text, from + 1, at);
    }
}

/// Law: what stands in a path before its first separator decides whether updates leave the path alone: they
/// do where it is empty, `.`, `..`, a drive on Windows, or one of the names of mutable data; and just then.
pub proof fn law_first_piece_decides(
    platform: Platform,
    path: Seq<Seq<char>>,
    head: Seq<char>,
    between: char,
    tail: Seq<char>,
)
    requires
        path.len() > 0,
        forall|k: int| 0 <= k < head.len() ==> !is_separator(platform, #[trigger] head[k]),
        is_separator(platform, between),
        path[0] == head || path[0] == head + seq![between] + tail,
    ensures
        preserved(platform, path) <==> {
            ||| head.len() == 0
            ||| head == "."@
            ||| head == ".."@
            ||| of_mutable_data(platform, head)
            ||| platform == Platform::Windows && letter_and_colon(head)
        },
{
    let text = path[0];
    let n = head.len() as int;
    assert forall|k: int| 0 <= k < n implies !is_separator(platform, #[trigger] text[k]) by {
        assert(text[k] == head[k]);
    }
    lemma_next_separator(platform, text, 0, n);
    assert(text.take(n) =~= head);
    law_five_names_are_left_alone(platform, head);
}

/// Law: on Windows the root of a verbatim path on a share is made in the same way, behind `\\\\?\\UNC\\`.
pub proof fn law_verbatim_shares_are_roots(server: Seq<char>, share: Seq<char>, rest: Seq<char>)
    requires
        plain_name(server),
        plain_name(share),
    ensures
        ({
            let root = "\\\\?\\UNC\\"@ + server + seq!['\\'] + share;
            &&& root_len(Platform::Windows, root + seq!['\\'] + rest) == root.len() + 1
            &&& root_len(Platform::Windows, root) == root.len()
            &&& parent_of(Platform::Windows, root) is None
        }),
{
    reveal_strlit("\\\\?\\UNC\\");
    let lead = "\\\\?\\UNC\\"@;
    let root = lead + server + seq!['\\'] + share;
    let path = root + seq!['\\'] + rest;
    let a = 8 + server.len() as int;
    let b = a + 1 + share.len();
    assert(lead.len() == 8);
    assert(root.take(8) =~= lead);
    assert(path.take(8) =~= lead);
    assert(root[0] == lead[0] && root[1] == lead[1] && path[0] == lead[0] && path[1] == lead[1]);
    assert(root.len() == b);
    assert(root[a] == '\\' && path[a] == '\\' && path[b] == '\\');
    assert forall|k: int| 8 <= k < a || a < k < b implies !is_separator(
        Platform::Windows,
        #[trigger] root[k],
    ) && path[k] == root[k] by {
        if k < a {
            assert(root[k] == server[k - 8]);
        } else {
            assert(root[k] == share[k - a - 1]);
        }
    }
    assert forall|k: int| 8 <= k < a || a < k < b implies !is_separator(
        Platform::Windows,
        #[trigger] path[k],
    ) by {
        assert(path[k] == root[k]);
    }
    lemma_next_separator(Platform::Windows, root, 8, a);
    lemma_next_separator(Platform::Windows, root, a + 1, b);
    lemma_next_separator(Platform::Windows, path, 8, a);
    lemma_next_separator(Platform::Windows, path, a + 1, b);
}

/// Law: on Windows the root of a path may be a drive without a separator behind it, and where a path starts
/// with neither a drive nor a separator, it has no root.
pub proof fn law_drives_are_roots(drive: Seq<char>, rest: Seq<char>, relative: Seq<char>)
    requires
        letter_and_colon(drive),
        drive.len() == 2,
        rest.len() == 0 || (rest[0] != '/' && rest[0] != '\\'),
        relative.len() > 0,
        relative[0] != '/' && relative[0] != '\\',
        !letter_and_colon(relative),
    ensures
        root_len(Platform::Windows, drive + rest) == 2,
        root_len(Platform::Windows, relative) == 0,
        root_len(Platform::Unix, relative) == 0,
{
    let path = drive + rest;
    assert(path[0] == drive[0] && path[1] == drive[1]);
    assert(has_drive(path));
    if rest.len() > 0 {
        assert(path[2] == rest[0]);
    }
    assert(!has_drive(relative));
}

/// Law: on Windows the root of a path on a share is made of two separators, the server, the share and the
/// separator behind it; the share itself lies in no directory.
pub proof fn law_shares_are_roots(server: Seq<char>, share: Seq<char>, rest: Seq<char>)
    requires
        plain_name(server),
        plain_name(share),
        server != "?"@,
    ensures
        ({
            let root = seq!['\\', '\\'] + server + seq!['\\'] + share;
            &&& root_len(Platform::Windows, root + seq!['\\'] + rest) == root.len() + 1
            &&& root_len(Platform::Windows, root) == root.len()
            &&& parent_of(Platform::Windows, root) is None
        }),
{
    let root = seq!['\\', '\\'] + server + seq!['\\'] + share;
    let path = root + seq!['\\'] + rest;
    let a = 2 + server.len() as int;
    let b = a + 1 + share.len();
    reveal_strlit("?");
    assert(root[0] == '\\' && root[1] == '\\' && path[0] == '\\' && path[1] == '\\');
    assert(root.len() == b);
    assert(root[a] == '\\' && path[a] == '\\' && path[b] == '\\');
    assert forall|k: int| 2 <= k < a implies !is_separator(Platform::Windows, #[trigger] root[k])
        && path[k] == root[k] by {
        assert(root[k] == server[k - 2]);
    }
    assert forall|k: int| a < k < b implies !is_separator(Platform::Windows, #[trigger] root[k])
        && path[k] == root[k] by {
        assert(root[k] == share[k - a - 1]);
    }
    assert forall|k: int| 2 <= k < a || a < k < b implies !is_separator(
        Platform::Windows,
        #[trigger] path[k],
    ) by {
        assert(path[k] == root[k]);
    }
    reveal_strlit("\\\\?\\UNC\\");
    assert forall|text: Seq<char>|
        text.len() >= root.len() && text.take(root.len() as int) == root implies #[trigger] server_start(
        text,
    ) == 2 by {
        if text.len() >= 8 && text.take(8) == "\\\\?\\UNC\\"@ {
            assert(text.take(8)[2] == '?' && text.take(8)[3] == '\\');
            assert(text.take(root.len() as int)[2] == root[2]);
            assert(text.take(root.len() as int)[3] == root[3]);
            assert(root[2] == server[0]);
            if server.len() > 1 {
                assert(root[3] == server[1]);
            } else {
                assert(server =~= "?"@);
            }
        }
    }
    assert(root.take(root.len() as int) =~= root);
    assert(path.take(root.len() as int) =~= root);
    assert(server_start(root) == 2 && server_start(path) == 2);
    lemma_next_separator(Platform::Windows, root, 2, a);
    lemma_next_separator(Platform::Windows, root, a + 1, b);
    lemma_next_separator(Platform::Windows, path, 2, a);
    lemma_next_separator(Platform::Windows, path, a + 1, b);
}

} // verus!
