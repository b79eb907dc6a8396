//! What holds of every declared path that is accepted, and of the keys by which paths are compared.

use vstd::prelude::*;
use crate::path::{
    components, descend, has_drive, is_separator, joined, key_of, names_component,
    lemma_first_component, needs_no_separator, normalized, placed, reserved_name, separator, unified, Platform,
};
use crate::text::{
    ascii_lower, ascii_lower_char, has_prefix, lemma_trimmed, pieces, replaced, trimmed, white_space,
};

verus! {

/// Whether a name can only stand for an entry of the directory it is looked up in.
pub open spec fn plain_name(name: Seq<char>) -> bool {
    &&& name.len() > 0
    &&& name != "."@
    &&& name != ".."@
    &&& forall|k: int| 0 <= k < name.len() ==> #[trigger] name[k] != '/' && name[k] != '\\'
}

/// Whether a path lies below a root whatever the root holds, outside what updates leave alone.
pub open spec fn stays_below(platform: Platform, path: Seq<Seq<char>>) -> bool {
    &&& path.len() > 0
    &&& !reserved_name(platform, path[0])
    &&& forall|i: int| 0 <= i < path.len() ==> plain_name(#[trigger] path[i])
    &&& platform == Platform::Windows ==> forall|i: int|
        0 <= i < path.len() ==> !has_drive(#[trigger] path[i])
}

proof fn lemma_pieces(s: Seq<char>, separator: char)
    ensures
        pieces(s, separator).len() > 0,
        forall|i: int, k: int|
            0 <= i < pieces(s, separator).len() && 0 <= k < pieces(s, separator)[i].len() ==> (
            #[trigger] pieces(s, separator)[i][k]) != separator && s.contains(
                pieces(s, separator)[i][k],
            ),
    decreases s.len(),
{
    if s.len() > 0 {
        let shorter = s.drop_last();
        let before = pieces(shorter, separator);
        let all = pieces(s, separator);
        lemma_pieces(shorter, separator);
        assert forall|i: int, k: int| 0 <= i < all.len() && 0 <= k < all[i].len() implies (
        #[trigger] all[i][k]) != separator && s.contains(all[i][k]) by {
            if i < before.len() && k < before[i].len() {
                assert(all[i][k] == before[i][k]);
                assert(shorter.contains(before[i][k]));
                let at = choose|at: int| 0 <= at < shorter.len() && shorter[at] == before[i][k];
                assert(s[at] == all[i][k]);
            } else {
                assert(all[i][k] == s.last());
                assert(s[s.len() - 1] == s.last());
            }
        }
    }
}

/// Law: a declared path that is accepted names a file below the update root, whatever the root
/// holds: it is not empty, no component leads elsewhere, and it does not lie in what updates leave
/// alone.
pub proof fn law_accepted_paths_stay_below_the_root(platform: Platform, raw: Seq<char>)
    requires
        normalized(platform, raw) is Ok,
    ensures
        stays_below(platform, normalized(platform, raw)->Ok_0),
{
    let path = normalized(platform, raw)->Ok_0;
    let all = pieces(unified(raw), '/');
    let kept = |piece: Seq<char>| names_component(piece);
    assert(path == all.filter(kept));
    lemma_pieces(unified(raw), '/');
    assert forall|i: int| 0 <= i < path.len() implies plain_name(#[trigger] path[i]) by {
        all.lemma_filter_pred(kept, i);
        assert(all.filter(kept).contains(path[i]));
        all.lemma_filter_contains_rev(kept, path[i]);
        let at = choose|at: int| 0 <= at < all.len() && all[at] == path[i];
        assert(all[at] == path[i]);
        assert forall|k: int| 0 <= k < path[i].len() implies #[trigger] path[i][k] != '/'
            && path[i][k] != '\\' by {
            assert(all[at][k] == path[i][k]);
            assert(unified(raw).contains(path[i][k]));
        }
        assert(!all.contains(".."@));
    }
    assert(plain_name(path[0]));
    lemma_first_component(platform, path[0]);
}

/// A name as paths are compared by it: without backslashes, and on Windows without upper case.
pub open spec fn folded_name(platform: Platform, name: Seq<char>) -> Seq<char> {
    match platform {
        Platform::Windows => ascii_lower(replaced(name, '\\', '/')),
        Platform::Unix => replaced(name, '\\', '/'),
    }
}

/// A path with its names as they are compared.
pub open spec fn folded(platform: Platform, path: Seq<Seq<char>>) -> Seq<Seq<char>> {
    path.map_values(|name: Seq<char>| folded_name(platform, name))
}

/// Law: the key of a path is made of its names as they are compared.
pub proof fn law_key_joins_folded_names(platform: Platform, path: Seq<Seq<char>>)
    ensures
        key_of(platform, path) == joined(folded(platform, path), '/'),
    decreases path.len(),
{
    let names = folded(platform, path);
    if path.len() == 0 {
        assert(key_of(platform, path) =~= joined(names, '/'));
    } else if path.len() > 1 {
        law_key_joins_folded_names(platform, path.drop_last());
        assert(folded(platform, path.drop_last()) =~= names.drop_last());
        assert(ascii_lower_char('/') == '/');
        assert(key_of(platform, path) =~= key_of(platform, path.drop_last()).push('/')
            + folded_name(platform, path.last()));
    }
}

proof fn lemma_joined_prefix(p: Seq<Seq<char>>, q: Seq<Seq<char>>)
    requires
        p.len() > 0,
        p.is_prefix_of(q),
    ensures
        p == q || has_prefix(joined(q, '/'), joined(p, '/').push('/')),
    decreases q.len(),
{
    if p.len() == q.len() {
        assert(p =~= q);
    } else {
        let front = q.drop_last();
        assert(p.is_prefix_of(front)) by {
            assert(front.subrange(0, p.len() as int) =~= q.subrange(0, p.len() as int));
        }
        lemma_joined_prefix(p, front);
        let start = joined(p, '/').push('/');
        let whole = joined(q, '/');
        assert(whole == joined(front, '/').push('/') + q.last());
        if p == front {
            assert(whole.take(start.len() as int) =~= start);
        } else {
            assert(whole.take(start.len() as int) =~= joined(front, '/').take(start.len() as int));
        }
    }
}

/// Law: where one path lies at or below another, their keys are equal or overlap.
pub proof fn law_nested_paths_have_overlapping_keys(
    platform: Platform,
    p: Seq<Seq<char>>,
    q: Seq<Seq<char>>,
)
    requires
        p.len() > 0,
        folded(platform, p).is_prefix_of(folded(platform, q)),
    ensures
        key_of(platform, p) == key_of(platform, q) || has_prefix(
            key_of(platform, q),
            key_of(platform, p).push('/'),
        ),
{
    law_key_joins_folded_names(platform, p);
    law_key_joins_folded_names(platform, q);
    lemma_joined_prefix(folded(platform, p), folded(platform, q));
}

/// A text with one more piece behind a separator has that piece behind its own pieces.
proof fn lemma_pieces_push(front: Seq<char>, piece: Seq<char>, separator: char)
    requires
        forall|k: int| 0 <= k < piece.len() ==> #[trigger] piece[k] != separator,
    ensures
        pieces(front.push(separator) + piece, separator) == pieces(front, separator).push(piece),
    decreases piece.len(),
{
    let whole = front.push(separator) + piece;
    if piece.len() == 0 {
        assert(whole =~= front.push(separator));
        assert(whole.drop_last() =~= front);
        assert(piece =~= Seq::empty());
    } else {
        let shorter = piece.drop_last();
        lemma_pieces_push(front, shorter, separator);
        assert(whole.drop_last() =~= front.push(separator) + shorter);
        assert(whole.last() == piece[piece.len() - 1]);
        let before = pieces(front, separator).push(shorter);
        assert(before.drop_last() =~= pieces(front, separator));
        assert(shorter.push(piece.last()) =~= piece);
    }
}

proof fn lemma_single_piece(piece: Seq<char>, separator: char)
    requires
        forall|k: int| 0 <= k < piece.len() ==> #[trigger] piece[k] != separator,
    ensures
        pieces(piece, separator) == seq![piece],
    decreases piece.len(),
{
    if piece.len() == 0 {
        assert(piece =~= Seq::empty());
    } else {
        let shorter = piece.drop_last();
        lemma_single_piece(shorter, separator);
        assert(piece[piece.len() - 1] == piece.last());
        assert(seq![shorter].drop_last() =~= Seq::empty());
        assert(shorter.push(piece.last()) =~= piece);
        assert(pieces(piece, separator) =~= seq![piece]);
    }
}

/// The components of a path that was joined come apart again, and its text starts with the first of
/// them and ends with the last.
pub proof fn lemma_joined_comes_apart(path: Seq<Seq<char>>, separator: char)
    requires
        separator == '/' || separator == '\\',
        path.len() > 0,
        forall|i: int| 0 <= i < path.len() ==> plain_name(#[trigger] path[i]),
    ensures
        pieces(joined(path, separator), separator) == path,
        joined(path, separator).len() >= path[0].len(),
        joined(path, separator)[0] == path[0][0],
        joined(path, separator).last() == path.last().last(),
        path.len() > 1 ==> joined(path, separator).len() > path[0].len() && joined(
            path,
            separator,
        )[path[0].len() as int] == separator,
        joined(path, separator).take(path[0].len() as int) == path[0],
        forall|k: int|
            0 <= k < joined(path, separator).len() ==> #[trigger] joined(path, separator)[k]
                == separator || (joined(path, separator)[k] != '/' && joined(path, separator)[k]
                != '\\'),
    decreases path.len(),
{
    let whole = joined(path, separator);
    assert(plain_name(path[path.len() - 1]));
    assert(plain_name(path[0]));
    if path.len() == 1 {
        lemma_single_piece(path[0], separator);
        assert(path =~= seq![path[0]]);
        assert(whole.take(path[0].len() as int) =~= path[0]);
    } else {
        let front = path.drop_last();
        lemma_joined_comes_apart(front, separator);
        lemma_pieces_push(joined(front, separator), path.last(), separator);
        assert(front.push(path.last()) =~= path);
        assert(whole.take(path[0].len() as int) =~= path[0]) by {
            assert(whole.take(path[0].len() as int) =~= joined(front, separator).take(
                path[0].len() as int,
            ));
        }
        assert forall|k: int| 0 <= k < whole.len() implies #[trigger] whole[k] == separator || (
        whole[k] != '/' && whole[k] != '\\') by {
            if k < joined(front, separator).len() {
                assert(whole[k] == joined(front, separator)[k]);
            } else if k > joined(front, separator).len() {
                assert(whole[k] == path.last()[k - joined(front, separator).len() - 1]);
            }
        }
    }
}

proof fn lemma_filter_keeps_all(list: Seq<Seq<char>>, kept: spec_fn(Seq<char>) -> bool)
    requires
        forall|i: int| 0 <= i < list.len() ==> kept(#[trigger] list[i]),
    ensures
        list.filter(kept) == list,
    decreases list.len(),
{
    reveal(Seq::filter);
    if list.len() > 0 {
        let front = list.drop_last();
        assert forall|i: int| 0 <= i < front.len() implies kept(#[trigger] front[i]) by {
            assert(front[i] == list[i]);
        }
        lemma_filter_keeps_all(front, kept);
        assert(kept(list[list.len() - 1]));
        assert(front.push(list.last()) =~= list);
    } else {
        assert(list.filter(kept) =~= list);
    }
}

/// Law: an accepted path is written as it is read: its components, joined by `/`, stand for the same
/// path again, unless white space at one of the two ends would be trimmed.
pub proof fn law_accepted_paths_read_back(platform: Platform, raw: Seq<char>)
    requires
        normalized(platform, raw) is Ok,
        !white_space(normalized(platform, raw)->Ok_0[0][0]),
        !white_space(normalized(platform, raw)->Ok_0.last().last()),
    ensures
        normalized(platform, joined(normalized(platform, raw)->Ok_0, '/')) == normalized(
            platform,
            raw,
        ),
{
    let path = normalized(platform, raw)->Ok_0;
    let text = joined(path, '/');
    let kept = |piece: Seq<char>| names_component(piece);
    law_accepted_paths_stay_below_the_root(platform, raw);
    lemma_joined_comes_apart(path, '/');
    assert(plain_name(path[0]));
    lemma_trimmed(text);
    assert(trimmed(text) == text);
    assert(unified(text) =~= text);
    assert forall|i: int| 0 <= i < path.len() implies kept(#[trigger] path[i]) by {
        assert(plain_name(path[i]));
    }
    lemma_filter_keeps_all(path, kept);
    assert(components(text) == path);
    assert(!path.contains(".."@)) by {
        if path.contains(".."@) {
            let i = choose|i: int| 0 <= i < path.len() && path[i] == ".."@;
            assert(plain_name(path[i]));
        }
    }
    assert(text[0] != '/') by {
        assert(path[0][0] != '/');
    }
    if platform == Platform::Windows && has_drive(text) {
        if path[0].len() >= 2 {
            assert(text.take(path[0].len() as int)[0] == text[0]);
            assert(text.take(path[0].len() as int)[1] == text[1]);
            assert(has_drive(path[0]));
        } else if path.len() > 1 {
            assert(text[1] == '/');
        } else {
            assert(text == path[0]);
        }
        assert(false);
    }
}

/// Whether each name of a path can only stand for an entry of the directory it is looked up in.
pub open spec fn plain_path(platform: Platform, path: Seq<Seq<char>>) -> bool {
    &&& forall|i: int| 0 <= i < path.len() ==> plain_name(#[trigger] path[i])
    &&& platform == Platform::Windows ==> forall|i: int|
        0 <= i < path.len() ==> !has_drive(#[trigger] path[i])
}

/// What stands between a base and what lies below it.
spec fn with_separator(platform: Platform, base: Seq<char>) -> Seq<char> {
    if needs_no_separator(platform, base) {
        base
    } else {
        base.push(separator(platform))
    }
}

proof fn lemma_plain_text_has_no_drive(platform: Platform, path: Seq<Seq<char>>)
    requires
        path.len() > 0,
        plain_path(platform, path),
    ensures
        platform == Platform::Windows ==> !has_drive(joined(path, separator(platform))),
{
    let text = joined(path, separator(platform));
    lemma_joined_comes_apart(path, separator(platform));
    assert(plain_name(path[0]));
    if platform == Platform::Windows && has_drive(text) {
        if path[0].len() >= 2 {
            assert(text.take(path[0].len() as int)[0] == text[0]);
            assert(text.take(path[0].len() as int)[1] == text[1]);
            assert(has_drive(path[0]));
        } else if path.len() == 1 {
            assert(text == path[0]);
        }
        assert(false);
    }
}

proof fn lemma_placed_text(platform: Platform, base: Seq<char>, path: Seq<Seq<char>>)
    requires
        path.len() > 0,
        plain_path(platform, path),
    ensures
        placed(platform, base, path) == with_separator(platform, base) + joined(
            path,
            separator(platform),
        ),
        !needs_no_separator(platform, placed(platform, base, path)),
{
    let text = joined(path, separator(platform));
    let whole = with_separator(platform, base) + text;
    lemma_plain_text_has_no_drive(platform, path);
    lemma_joined_comes_apart(path, separator(platform));
    assert(placed(platform, base, path) =~= whole);
    let last = path[path.len() - 1];
    assert(plain_name(last));
    assert(plain_name(path[0]));
    assert(last[last.len() - 1] == last.last());
    assert(whole.last() == text.last());
    if platform == Platform::Windows && whole.len() == 2 && has_drive(whole) {
        if with_separator(platform, base).len() == 0 {
            assert(whole =~= text);
        } else {
            assert(with_separator(platform, base).len() == 1);
            assert(is_separator(platform, whole[0]));
        }
        assert(false);
    }
}

/// Law: a plain path is placed below a base by going down through its names.
pub proof fn law_placing_is_going_down(platform: Platform, base: Seq<char>, path: Seq<Seq<char>>)
    requires
        path.len() > 0,
        plain_path(platform, path),
    ensures
        placed(platform, base, path) == descend(platform, base, path),
    decreases path.len(),
{
    lemma_placed_text(platform, base, path);
    let front = path.drop_last();
    let last = path[path.len() - 1];
    if path.len() == 1 {
        assert(front =~= Seq::empty());
        assert(descend(platform, base, front) == base);
    } else {
        assert(plain_path(platform, front)) by {
            assert forall|i: int| 0 <= i < front.len() implies plain_name(#[trigger] front[i]) by {
                assert(front[i] == path[i]);
            }
            if platform == Platform::Windows {
                assert forall|i: int| 0 <= i < front.len() implies !has_drive(
                    #[trigger] front[i],
                ) by {
                    assert(front[i] == path[i]);
                }
            }
        }
        law_placing_is_going_down(platform, base, front);
        lemma_placed_text(platform, base, front);
        assert(descend(platform, base, path) == placed(platform, base, front).push(
            separator(platform),
        ) + last);
        assert(descend(platform, base, path) =~= with_separator(platform, base) + joined(
            path,
            separator(platform),
        ));
    }
}

/// Law: two plain paths below the same base lead to the same place only where they are the same.
pub proof fn law_plain_paths_are_told_apart(
    platform: Platform,
    base: Seq<char>,
    p: Seq<Seq<char>>,
    q: Seq<Seq<char>>,
)
    requires
        plain_path(platform, p),
        plain_path(platform, q),
        descend(platform, base, p) == descend(platform, base, q),
    ensures
        p == q,
{
    let start = with_separator(platform, base);
    if p.len() > 0 {
        law_placing_is_going_down(platform, base, p);
        lemma_placed_text(platform, base, p);
        lemma_joined_comes_apart(p, separator(platform));
        assert(plain_name(p[0]));
    }
    if q.len() > 0 {
        law_placing_is_going_down(platform, base, q);
        lemma_placed_text(platform, base, q);
        lemma_joined_comes_apart(q, separator(platform));
        assert(plain_name(q[0]));
    }
    if p.len() > 0 && q.len() > 0 {
        let whole = descend(platform, base, p);
        assert(whole.skip(start.len() as int) =~= joined(p, separator(platform)));
        assert(whole.skip(start.len() as int) =~= joined(q, separator(platform)));
    } else {
        assert(p =~= q);
    }
}

/// Going down through some names and then through others is going down through all of them.
pub proof fn lemma_descend_concat(
    platform: Platform,
    base: Seq<char>,
    p: Seq<Seq<char>>,
    q: Seq<Seq<char>>,
)
    ensures
        descend(platform, base, p + q) == descend(platform, descend(platform, base, p), q),
    decreases q.len(),
{
    if q.len() == 0 {
        assert(p + q =~= p);
    } else {
        lemma_descend_concat(platform, base, p, q.drop_last());
        assert((p + q).drop_last() =~= p + q.drop_last());
    }
}

} // verus!
