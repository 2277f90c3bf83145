//! Paths as text: their components, how components are joined again, the
//! name a file is stored under, and the replacement of one component counted
//! from the end.
//!
//! A path is a string whose separator is `/`. Two paths are the same path
//! only if they are the same string.

use vstd::prelude::*;
use vstd::string::*;
use crate::text::{
    free_of, lemma_pieces_append, lemma_pieces_append_piece, lemma_pieces_free,
    lemma_pieces_nonempty, lemma_pieces_step, lemma_texts_push, pieces, slice_owned, str_eq, texts,
};

verus! {

/// The pieces of a path between its separators, empty pieces included.
pub open spec fn segments(s: Seq<char>) -> Seq<Seq<char>> {
    pieces(s, '/')
}

/// Whether the piece at position `index` counts as a component: empty pieces
/// never do, and a lone `.` only where it opens the path.
pub open spec fn keeps_segment(piece: Seq<char>, index: int) -> bool {
    piece.len() > 0 && (piece != seq!['.'] || index == 0)
}

/// The pieces that count as components, in order.
pub open spec fn kept_segments(pieces: Seq<Seq<char>>) -> Seq<Seq<char>>
    decreases pieces.len(),
{
    if pieces.len() == 0 {
        Seq::<Seq<char>>::empty()
    } else {
        let before = kept_segments(pieces.drop_last());
        if keeps_segment(pieces.last(), pieces.len() - 1) {
            before.push(pieces.last())
        } else {
            before
        }
    }
}

/// Whether the path starts at the root directory.
pub open spec fn has_root(s: Seq<char>) -> bool {
    s.len() > 0 && s[0] == '/'
}

/// The components of a path: the root `/` first if the path starts with it,
/// then every non-empty piece between separators, without the `.` pieces
/// that do not open the path.
pub open spec fn components(s: Seq<char>) -> Seq<Seq<char>> {
    if has_root(s) {
        seq![seq!['/']] + kept_segments(segments(s))
    } else {
        kept_segments(segments(s))
    }
}

/// Ends the piece that runs from `start` to `end` of `path`: it is appended
/// to `out` if it counts as a component.
fn close_segment(path: &str, start: usize, end: usize, opens_path: bool, out: &mut Vec<String>)
    requires
        start <= end <= path@.len(),
    ensures
        texts(final(out)@) == if keeps_segment(
            path@.subrange(start as int, end as int),
            if opens_path { 0int } else { 1int },
        ) {
            texts(old(out)@).push(path@.subrange(start as int, end as int))
        } else {
            texts(old(out)@)
        },
{
    let ghost piece = path@.subrange(start as int, end as int);
    if end == start {
        return;
    }
    if end - start == 1 && !opens_path {
        let c = path.get_char(start);
        assert(piece[0] == c);
        if c == '.' {
            assert(piece =~= seq!['.']);
            return;
        }
        assert(piece != seq!['.']) by {
            assert(seq!['.'][0] == '.');
        }
    }
    if end - start != 1 {
        assert(piece != seq!['.']) by {
            assert(seq!['.'].len() == 1);
        }
    }
    let s = slice_owned(path, start, end);
    proof {
        lemma_texts_push(out@, s);
    }
    out.push(s);
}

/// The components of `path`, each as a string of its own.
pub fn path_components(path: &str) -> (out: Vec<String>)
    ensures
        texts(out@) == components(path@),
{
    let n = path.unicode_len();
    let mut out: Vec<String> = Vec::new();
    if n > 0 && path.get_char(0) == '/' {
        let root = String::from_str("/");
        proof {
            reveal_strlit("/");
            assert(root@ =~= seq!['/']);
            lemma_texts_push(out@, root);
        }
        out.push(root);
    }
    let ghost lead = texts(out@);
    let mut start: usize = 0;
    let mut opens: bool = true;
    let mut i: usize = 0;
    proof {
        assert(path@.take(0) =~= Seq::<char>::empty());
        assert(segments(path@.take(0)).drop_last() =~= Seq::<Seq<char>>::empty());
        assert(path@.subrange(0, 0) =~= Seq::<char>::empty());
        assert(lead + kept_segments(Seq::<Seq<char>>::empty()) =~= lead);
    }
    while i < n
        invariant
            n == path@.len(),
            start <= i <= n,
            segments(path@.take(i as int)).len() >= 1,
            segments(path@.take(i as int)).last() == path@.subrange(start as int, i as int),
            opens == (segments(path@.take(i as int)).len() == 1),
            texts(out@) == lead + kept_segments(segments(path@.take(i as int)).drop_last()),
        decreases n - i,
    {
        let c = path.get_char(i);
        let ghost before = segments(path@.take(i as int));
        let ghost after = segments(path@.take(i + 1));
        proof {
            lemma_pieces_step(path@, '/', i as int);
        }
        if c == '/' {
            close_segment(path, start, i, opens, &mut out);
            proof {
                assert(after.drop_last() =~= before);
                assert(path@.subrange(i + 1, i + 1) =~= Seq::<char>::empty());
                let done = kept_segments(before.drop_last());
                if keeps_segment(before.last(), before.len() - 1) {
                    assert(lead + done.push(before.last()) =~= (lead + done).push(before.last()));
                }
            }
            start = i + 1;
            opens = false;
        } else {
            proof {
                assert(after.drop_last() =~= before.drop_last());
                assert(path@.subrange(start as int, i + 1) =~= path@.subrange(
                    start as int,
                    i as int,
                ).push(c));
            }
        }
        i += 1;
    }
    let ghost all = segments(path@);
    proof {
        assert(path@.take(n as int) =~= path@);
    }
    close_segment(path, start, n, opens, &mut out);
    proof {
        let done = kept_segments(all.drop_last());
        if keeps_segment(all.last(), all.len() - 1) {
            assert(lead + done.push(all.last()) =~= (lead + done).push(all.last()));
        }
        if has_root(path@) {
            assert(lead =~= seq![seq!['/']]);
        } else {
            assert(lead =~= Seq::<Seq<char>>::empty());
            assert(lead + kept_segments(all) =~= kept_segments(all));
        }
    }
    out
}

/// The path that results from appending `piece` to `base`. A piece that
/// starts at the root replaces the base; otherwise one separator is put
/// between the two unless the base is empty or already ends with one.
pub open spec fn push_path(base: Seq<char>, piece: Seq<char>) -> Seq<char> {
    if has_root(piece) {
        piece
    } else if base.len() > 0 && base.last() != '/' {
        base + seq!['/'] + piece
    } else {
        base + piece
    }
}

/// The path made by appending the given pieces one after another, starting
/// from the empty path.
pub open spec fn build_path(pieces: Seq<Seq<char>>) -> Seq<char>
    decreases pieces.len(),
{
    if pieces.len() == 0 {
        Seq::<char>::empty()
    } else {
        push_path(build_path(pieces.drop_last()), pieces.last())
    }
}

/// Appends `piece` to the path `base`.
pub fn join(base: &str, piece: &str) -> (out: String)
    ensures
        out@ == push_path(base@, piece@),
{
    let piece_len = piece.unicode_len();
    if piece_len > 0 && piece.get_char(0) == '/' {
        return String::from_str(piece);
    }
    let base_len = base.unicode_len();
    let mut out = String::from_str(base);
    if base_len > 0 && base.get_char(base_len - 1) != '/' {
        proof {
            reveal_strlit("/");
            assert("/"@ =~= seq!['/']);
        }
        out.append("/");
    }
    out.append(piece);
    out
}

/// Joins the given pieces into one path.
pub fn build(pieces: &Vec<String>) -> (out: String)
    ensures
        out@ == build_path(texts(pieces@)),
{
    let mut out = String::new();
    let mut i: usize = 0;
    proof {
        assert(texts(pieces@).take(0) =~= Seq::<Seq<char>>::empty());
    }
    while i < pieces.len()
        invariant
            i <= pieces.len(),
            out@ == build_path(texts(pieces@).take(i as int)),
        decreases pieces.len() - i,
    {
        proof {
            let next = texts(pieces@).take(i + 1);
            assert(next.drop_last() =~= texts(pieces@).take(i as int));
            assert(next.last() == pieces@[i as int]@);
        }
        out = join(out.as_str(), pieces[i].as_str());
        i += 1;
    }
    proof {
        assert(texts(pieces@).take(pieces.len() as int) =~= texts(pieces@));
    }
    out
}

/// The components of a path after the one that stands `level` places from
/// the end has been replaced by `name`. Level 1 is the last component; at
/// level 0 nothing is replaced.
pub open spec fn replaced_components(
    comps: Seq<Seq<char>>,
    name: Seq<char>,
    level: nat,
) -> Seq<Seq<char>> {
    if 1 <= level <= comps.len() {
        comps.update(comps.len() - level, name)
    } else {
        comps
    }
}

/// The path that `replace_component_in_path` gives: none if the path has
/// fewer than `level` components, else the path built from its components
/// with the chosen one replaced.
pub open spec fn spec_replace_component(path: Seq<char>, name: Seq<char>, level: nat) -> Option<
    Seq<char>,
> {
    if components(path).len() < level {
        None
    } else {
        Some(build_path(replaced_components(components(path), name, level)))
    }
}

/// Replaces the component of `path` that stands `level` places from the end
/// by `name` and leaves every other component as it is. Fails if the path
/// has fewer than `level` components.
pub fn replace_component_in_path(path: &str, name: &str, level: usize) -> (out: Option<String>)
    ensures
        out.is_some() == (level <= components(path@).len()),
        match out {
            Some(p) => Some(p@) == spec_replace_component(path@, name@, level as nat),
            None => spec_replace_component(path@, name@, level as nat).is_none(),
        },
{
    let mut comps = path_components(path);
    if comps.len() < level {
        return None;
    }
    if level > 0 {
        let at = comps.len() - level;
        let ghost before = comps@;
        comps.set(at, String::from_str(name));
        proof {
            assert(texts(comps@) =~= texts(before).update(at as int, name@));
        }
    }
    Some(build(&comps))
}

/// Whether a component names a file or directory: it is neither the root
/// nor one of the two relative markers.
pub open spec fn is_normal(comp: Seq<char>) -> bool {
    comp != seq!['/'] && comp != seq!['.'] && comp != seq!['.', '.']
}

/// Whether the string is a component that names a file or directory.
fn names_entry(comp: &str) -> (b: bool)
    ensures
        b == is_normal(comp@),
{
    proof {
        reveal_strlit("/");
        reveal_strlit(".");
        reveal_strlit("..");
        assert("/"@ =~= seq!['/']);
        assert("."@ =~= seq!['.']);
        assert(".."@ =~= seq!['.', '.']);
    }
    !str_eq(comp, "/") && !str_eq(comp, ".") && !str_eq(comp, "..")
}

/// The last component of a path, if it names a file or directory.
pub open spec fn spec_file_name(path: Seq<char>) -> Option<Seq<char>> {
    let comps = components(path);
    if comps.len() >= 1 && is_normal(comps.last()) {
        Some(comps.last())
    } else {
        None
    }
}

/// The last component of `path`, if it names a file or directory.
pub fn file_name(path: &str) -> (out: Option<String>)
    ensures
        out.is_some() == spec_file_name(path@).is_some(),
        out matches Some(name) ==> Some(name@) == spec_file_name(path@),
{
    let mut comps = path_components(path);
    match comps.pop() {
        Some(last) => {
            if names_entry(last.as_str()) {
                Some(last)
            } else {
                None
            }
        },
        None => None,
    }
}

/// The name under which a file is stored: the name of the directory it lies
/// in, an underscore, and its own name. There is none if the path has no
/// file name or its directory has no name.
///
/// Only the last two components enter the name, so two files with the same
/// name in directories of the same name get the same stored name, wherever
/// those directories lie.
pub open spec fn stored_name(path: Seq<char>) -> Option<Seq<char>> {
    let comps = components(path);
    let n = comps.len() as int;
    if n >= 2 && is_normal(comps[n - 1]) && is_normal(comps[n - 2]) {
        Some(comps[n - 2] + seq!['_'] + comps[n - 1])
    } else {
        None
    }
}

/// The name under which the file at `path` is stored.
pub fn flatten(path: &str) -> (out: Option<String>)
    ensures
        out.is_some() == stored_name(path@).is_some(),
        out matches Some(name) ==> Some(name@) == stored_name(path@),
{
    let comps = path_components(path);
    let n = comps.len();
    if n < 2 {
        return None;
    }
    if !names_entry(comps[n - 1].as_str()) || !names_entry(comps[n - 2].as_str()) {
        return None;
    }
    let mut name = comps[n - 2].clone();
    proof {
        reveal_strlit("_");
        assert("_"@ =~= seq!['_']);
    }
    name.append("_");
    name.append(comps[n - 1].as_str());
    Some(name)
}

/// Whether a string can stand as one component that names a file or a
/// directory below another: it is not empty, holds no separator and is not
/// the marker `.`.
pub open spec fn is_simple(name: Seq<char>) -> bool {
    name.len() > 0 && free_of(name, '/') && name != seq!['.']
}

/// Every piece that counts as a component is one of the pieces, and so holds
/// no separator and is not empty.
pub proof fn lemma_kept_segments_plain(all: Seq<Seq<char>>, at: int)
    requires
        0 <= at < kept_segments(all).len(),
        forall|k: int| 0 <= k < all.len() ==> free_of(#[trigger] all[k], '/'),
    ensures
        free_of(kept_segments(all)[at], '/'),
        kept_segments(all)[at].len() > 0,
    decreases all.len(),
{
    if all.len() > 0 {
        let before = kept_segments(all.drop_last());
        assert forall|k: int| 0 <= k < all.drop_last().len() implies free_of(
            #[trigger] all.drop_last()[k],
            '/',
        ) by {
            assert(all.drop_last()[k] == all[k]);
        }
        if at < before.len() {
            lemma_kept_segments_plain(all.drop_last(), at);
        } else {
            assert(all.last() == all[all.len() - 1]);
        }
    }
}

/// Every component but the root holds no separator and is not empty.
pub proof fn lemma_components_plain(path: Seq<char>, at: int)
    requires
        0 <= at < components(path).len(),
        components(path)[at] != seq!['/'],
    ensures
        free_of(components(path)[at], '/'),
        components(path)[at].len() > 0,
{
    let all = segments(path);
    assert forall|k: int| 0 <= k < all.len() implies free_of(#[trigger] all[k], '/') by {
        lemma_pieces_free(path, '/', k);
    }
    if has_root(path) {
        if at > 0 {
            lemma_kept_segments_plain(all, at - 1);
        }
    } else {
        lemma_kept_segments_plain(all, at);
    }
}

/// Appending a simple name to a path appends it to the path's components.
pub proof fn lemma_components_push(base: Seq<char>, name: Seq<char>)
    requires
        is_simple(name),
    ensures
        components(push_path(base, name)) == components(base).push(name),
{
    let all = segments(base);
    lemma_pieces_nonempty(base, '/');
    assert(name[0] != '/');
    if base.len() > 0 && base.last() != '/' {
        let joined = base + seq!['/'] + name;
        lemma_pieces_append_piece(base, '/', name);
        assert(segments(joined).drop_last() =~= all);
        assert(joined[0] == base[0]);
        if has_root(base) {
            assert(seq![seq!['/']] + kept_segments(all).push(name) =~= (seq![seq!['/']]
                + kept_segments(all)).push(name));
        }
    } else if base.len() == 0 {
        assert(base + name =~= name);
        lemma_pieces_append(base, '/', name);
        assert(Seq::<char>::empty() + name =~= name);
        let only = segments(name);
        assert(only =~= seq![name]);
        assert(only.drop_last() =~= Seq::<Seq<char>>::empty());
        assert(all.drop_last() =~= Seq::<Seq<char>>::empty());
        assert(kept_segments(only.drop_last()) =~= Seq::<Seq<char>>::empty());
        assert(only.last() == name);
        assert(keeps_segment(name, only.len() - 1));
        assert(kept_segments(only) =~= seq![name]);
        assert(kept_segments(all) =~= Seq::<Seq<char>>::empty());
        assert(Seq::<Seq<char>>::empty().push(name) =~= seq![name]);
    } else {
        let joined = base + name;
        lemma_pieces_append(base, '/', name);
        assert(base.drop_last().len() < base.len());
        assert(all.last() =~= Seq::<char>::empty());
        assert(Seq::<char>::empty() + name =~= name);
        let after = segments(joined);
        assert(after.drop_last() =~= all.drop_last());
        assert(after.last() == name);
        assert(joined[0] == base[0]);
        if has_root(base) {
            assert(seq![seq!['/']] + kept_segments(all.drop_last()).push(name) =~= (seq![
                seq!['/'],
            ] + kept_segments(all.drop_last())).push(name));
        }
    }
}

/// The name under which a file is stored is a simple name.
pub proof fn lemma_stored_name_simple(path: Seq<char>)
    requires
        stored_name(path).is_some(),
    ensures
        is_simple(stored_name(path).unwrap()),
{
    let comps = components(path);
    let n = comps.len() as int;
    lemma_components_plain(path, n - 1);
    lemma_components_plain(path, n - 2);
    let name = comps[n - 2] + seq!['_'] + comps[n - 1];
    assert(name[comps[n - 2].len() as int] == '_');
    assert(name != seq!['.']) by {
        if name == seq!['.'] {
            assert(name.len() == 1);
        }
    }
    assert forall|i: int| 0 <= i < name.len() implies #[trigger] name[i] != '/' by {
        if i < comps[n - 2].len() {
            assert(name[i] == comps[n - 2][i]);
        } else if i > comps[n - 2].len() {
            assert(name[i] == comps[n - 1][i - comps[n - 2].len() - 1]);
        }
    }
}

/// Building a path from components and one more is appending the last one
/// to the path built from the others.
pub proof fn lemma_build_push(comps: Seq<Seq<char>>, name: Seq<char>)
    ensures
        build_path(comps.push(name)) == push_path(build_path(comps), name),
{
    assert(comps.push(name).drop_last() =~= comps);
}

/// A stored file lies two components below the directory of its snapshot.
/// So replacing the third component from the end of its path replaces the
/// last component of that directory: where a snapshot's directory is moved
/// to a new name, the rewritten path of each stored file is the path of
/// that file in the directory the snapshot was moved to.
pub proof fn lemma_rewrite_follows_move(
    snap_dir: Seq<char>,
    module: Seq<char>,
    stored: Seq<char>,
    new_name: Seq<char>,
)
    requires
        components(snap_dir).len() >= 1,
        is_simple(module),
        is_simple(stored),
    ensures
        spec_replace_component(snap_dir, new_name, 1).is_some(),
        spec_replace_component(push_path(push_path(snap_dir, module), stored), new_name, 3)
            == Some(
            push_path(
                push_path(spec_replace_component(snap_dir, new_name, 1).unwrap(), module),
                stored,
            ),
        ),
{
    let comps = components(snap_dir);
    let module_dir = push_path(snap_dir, module);
    lemma_components_push(snap_dir, module);
    lemma_components_push(module_dir, stored);
    let full = comps.push(module).push(stored);
    let moved = replaced_components(comps, new_name, 1);
    assert(replaced_components(full, new_name, 3) =~= moved.push(module).push(stored));
    lemma_build_push(moved, module);
    lemma_build_push(moved.push(module), stored);
}

} // verus!
