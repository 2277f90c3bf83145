//! Template directives in the text of a configuration.
//!
//! A line whose first word is `template` and whose second word names a file
//! stands for the contents of that file, whatever white space stands around
//! the two words. Every other line stands for itself, without the white
//! space at either end.

use vstd::prelude::*;
use vstd::string::*;
use crate::text::{
    is_space, is_whitespace, pieces, slice_owned, split, str_eq, texts, trim, trim_start, trimmed,
};

verus! {

/// The lines of a text: its pieces between line feeds, without the last
/// piece if that one is empty. A carriage return stays with its line.
pub open spec fn lines(s: Seq<char>) -> Seq<Seq<char>> {
    let all = pieces(s, '\n');
    if all.last().len() == 0 {
        all.drop_last()
    } else {
        all
    }
}

/// The lines of `txt`.
pub fn text_lines(txt: &str) -> (out: Vec<String>)
    ensures
        texts(out@) == lines(txt@),
{
    let mut out = split(txt, '\n');
    let ghost all = out@;
    proof {
        crate::text::lemma_pieces_nonempty(txt@, '\n');
    }
    let n = out.len();
    if out[n - 1].as_str().unicode_len() == 0 {
        out.pop();
        proof {
            assert(texts(out@) =~= texts(all).drop_last());
        }
    }
    out
}

/// The word that opens a directive.
pub open spec fn directive_word() -> Seq<char> {
    seq!['t', 'e', 'm', 'p', 'l', 'a', 't', 'e']
}

/// The characters that `s` starts with, up to its first white space.
pub open spec fn leading_word(s: Seq<char>) -> Seq<char>
    decreases s.len(),
{
    if s.len() > 0 && !is_space(s[0]) {
        seq![s[0]] + leading_word(s.drop_first())
    } else {
        Seq::<char>::empty()
    }
}

/// What follows the first word of `s`, without the white space it starts
/// with. It is empty exactly where `s` has no second word.
pub open spec fn after_first_word(s: Seq<char>) -> Seq<char> {
    let t = trim_start(s);
    trim_start(t.skip(leading_word(t).len() as int))
}

/// The file that a line asks for, if the line is a directive: its first
/// word is `template`, and its second word names the file. White space of
/// any kind and length may stand before, between and after the two words.
pub open spec fn template_of(line: Seq<char>) -> Option<Seq<char>> {
    if leading_word(trim_start(line)) == directive_word() && after_first_word(line).len() > 0 {
        Some(leading_word(after_first_word(line)))
    } else {
        None
    }
}

/// The bounds of the first word of `s` at or after `from`: the white space
/// from `from` on is passed over, and the word runs up to the next white
/// space or the end.
fn word_bounds(s: &str, from: usize) -> (b: (usize, usize))
    requires
        from <= s@.len(),
    ensures
        from <= b.0 <= b.1 <= s@.len(),
        s@.skip(b.0 as int) == trim_start(s@.skip(from as int)),
        s@.subrange(b.0 as int, b.1 as int) == leading_word(s@.skip(b.0 as int)),
{
    let n = s.unicode_len();
    let mut a: usize = from;
    while a < n && is_whitespace(s.get_char(a))
        invariant
            n == s@.len(),
            from <= a <= n,
            trim_start(s@.skip(a as int)) == trim_start(s@.skip(from as int)),
        decreases n - a,
    {
        proof {
            assert(s@.skip(a as int).drop_first() =~= s@.skip(a + 1));
        }
        a += 1;
    }
    assert(trim_start(s@.skip(a as int)) == s@.skip(a as int));
    let mut z = a;
    proof {
        assert(s@.subrange(a as int, a as int) =~= Seq::<char>::empty());
        assert(Seq::<char>::empty() + leading_word(s@.skip(a as int)) =~= leading_word(
            s@.skip(a as int),
        ));
    }
    while z < n && !is_whitespace(s.get_char(z))
        invariant
            n == s@.len(),
            a <= z <= n,
            leading_word(s@.skip(a as int)) == s@.subrange(a as int, z as int) + leading_word(
                s@.skip(z as int),
            ),
        decreases n - z,
    {
        proof {
            assert(s@.skip(z as int).drop_first() =~= s@.skip(z + 1));
            assert(s@.subrange(a as int, z as int) + (seq![s@[z as int]] + leading_word(
                s@.skip(z + 1),
            )) =~= s@.subrange(a as int, z + 1) + leading_word(s@.skip(z + 1)));
        }
        z += 1;
    }
    proof {
        assert(leading_word(s@.skip(z as int)) =~= Seq::<char>::empty());
        assert(s@.subrange(a as int, z as int) + Seq::<char>::empty() =~= s@.subrange(
            a as int,
            z as int,
        ));
    }
    (a, z)
}

/// What a line of a configuration is, once it is trimmed.
#[derive(Debug)]
pub enum ConfigLine {
    /// A line that stands for itself; it holds the trimmed line.
    Plain(String),
    /// A directive; it holds the name of the file asked for.
    Template(String),
}

/// Reads one line of a configuration.
pub fn read_line(line: &str) -> (out: ConfigLine)
    ensures
        match out {
            ConfigLine::Plain(t) => template_of(line@).is_none() && t@ == trimmed(line@),
            ConfigLine::Template(file) => template_of(line@) == Some(file@),
        },
{
    let n = line.unicode_len();
    let (a, z) = word_bounds(line, 0);
    let first = slice_owned(line, a, z);
    proof {
        reveal_strlit("template");
        assert("template"@ =~= directive_word());
        assert(line@.skip(0) =~= line@);
        assert(line@.skip(a as int).skip(z - a) =~= line@.skip(z as int));
        assert(line@.subrange(a as int, z as int).len() == z - a);
    }
    if str_eq(first.as_str(), "template") {
        let (b, y) = word_bounds(line, z);
        proof {
            assert(line@.skip(b as int).len() == n - b);
        }
        if b < n {
            return ConfigLine::Template(slice_owned(line, b, y));
        }
    }
    ConfigLine::Plain(trim(line))
}

/// The files that the directives among the given lines ask for, in order.
pub open spec fn requested(rows: Seq<Seq<char>>) -> Seq<Seq<char>>
    decreases rows.len(),
{
    if rows.len() == 0 {
        Seq::<Seq<char>>::empty()
    } else {
        let before = requested(rows.drop_last());
        match template_of(rows.last()) {
            Some(file) => before.push(file),
            None => before,
        }
    }
}

/// The names of the template files that the text asks for, one for each
/// directive, in the order of the directives.
pub fn template_names(txt: &str) -> (names: Vec<String>)
    ensures
        texts(names@) == requested(lines(txt@)),
{
    let rows = text_lines(txt);
    let mut names: Vec<String> = Vec::new();
    let mut i: usize = 0;
    proof {
        assert(texts(rows@).take(0) =~= Seq::<Seq<char>>::empty());
        assert(texts(names@) =~= Seq::<Seq<char>>::empty());
    }
    while i < rows.len()
        invariant
            i <= rows.len(),
            texts(names@) == requested(texts(rows@).take(i as int)),
        decreases rows.len() - i,
    {
        proof {
            let next = texts(rows@).take(i + 1);
            assert(next.drop_last() =~= texts(rows@).take(i as int));
            assert(next.last() == rows@[i as int]@);
        }
        match read_line(rows[i].as_str()) {
            ConfigLine::Template(file) => {
                proof {
                    assert(texts(names@.push(file)) =~= texts(names@).push(file@));
                }
                names.push(file);
            },
            ConfigLine::Plain(_) => {},
        }
        i += 1;
    }
    proof {
        assert(texts(rows@).take(rows.len() as int) =~= texts(rows@));
    }
    names
}

/// The contents read for the template files, each as its characters; a
/// file that could not be read has none.
pub open spec fn content_views(contents: Seq<Option<String>>) -> Seq<Option<Seq<char>>> {
    contents.map_values(
        |c: Option<String>|
            match c {
                Some(s) => Some(s@),
                None => None,
            },
    )
}

/// What stands in place of the directive at position `at` among the
/// directives: the contents read for it, or nothing if none were read.
pub open spec fn substitute(contents: Seq<Option<Seq<char>>>, at: int) -> Seq<char> {
    if 0 <= at < contents.len() {
        match contents[at] {
            Some(c) => c,
            None => Seq::<char>::empty(),
        }
    } else {
        Seq::<char>::empty()
    }
}

/// The given lines after each directive has been replaced by the contents
/// read for it and every other line has been trimmed.
pub open spec fn expanded(rows: Seq<Seq<char>>, contents: Seq<Option<Seq<char>>>) -> Seq<
    Seq<char>,
>
    decreases rows.len(),
{
    if rows.len() == 0 {
        Seq::<Seq<char>>::empty()
    } else {
        let before = expanded(rows.drop_last(), contents);
        match template_of(rows.last()) {
            Some(_) => before.push(substitute(contents, requested(rows.drop_last()).len() as int)),
            None => before.push(trimmed(rows.last())),
        }
    }
}

/// The given lines with a line feed between each two of them.
pub open spec fn joined(rows: Seq<Seq<char>>) -> Seq<char>
    decreases rows.len(),
{
    if rows.len() == 0 {
        Seq::<char>::empty()
    } else if rows.len() == 1 {
        rows[0]
    } else {
        joined(rows.drop_last()) + seq!['\n'] + rows.last()
    }
}

/// The text of a configuration with its directives carried out: each line
/// that is a directive is replaced by the contents of the file it asks for,
/// every other line is trimmed, and the lines are put together again with
/// line feeds between them.
///
/// `contents` holds what was read for each name that `template_names` gives
/// for this text, at the position of the name. A file that could not be
/// read, or for which nothing is given, leaves an empty line.
pub fn parse_for_template(txt: &str, contents: &Vec<Option<String>>) -> (out: String)
    ensures
        out@ == joined(expanded(lines(txt@), content_views(contents@))),
{
    let rows = text_lines(txt);
    let ghost given = content_views(contents@);
    let mut out = String::new();
    let mut seen: usize = 0;
    let mut i: usize = 0;
    proof {
        assert(texts(rows@).take(0) =~= Seq::<Seq<char>>::empty());
    }
    while i < rows.len()
        invariant
            i <= rows.len(),
            seen <= i,
            given == content_views(contents@),
            seen == requested(texts(rows@).take(i as int)).len(),
            expanded(texts(rows@).take(i as int), given).len() == i,
            out@ == joined(expanded(texts(rows@).take(i as int), given)),
        decreases rows.len() - i,
    {
        let ghost before = expanded(texts(rows@).take(i as int), given);
        proof {
            let next = texts(rows@).take(i + 1);
            assert(next.drop_last() =~= texts(rows@).take(i as int));
            assert(next.last() == rows@[i as int]@);
            reveal_strlit("\n");
            assert("\n"@ =~= seq!['\n']);
        }
        if i > 0 {
            out.append("\n");
        }
        match read_line(rows[i].as_str()) {
            ConfigLine::Template(_) => {
                if seen < contents.len() {
                    match &contents[seen] {
                        Some(c) => {
                            out.append(c.as_str());
                        },
                        None => {},
                    }
                }
                seen += 1;
            },
            ConfigLine::Plain(t) => {
                out.append(t.as_str());
            },
        }
        proof {
            let after = expanded(texts(rows@).take(i + 1), given);
            assert(after.drop_last() =~= before);
            if i == 0 {
                assert(joined(before) =~= Seq::<char>::empty());
                assert(out@ =~= after[0]);
            } else {
                assert(out@ =~= joined(before) + seq!['\n'] + after.last());
            }
        }
        i += 1;
    }
    proof {
        assert(texts(rows@).take(rows.len() as int) =~= texts(rows@));
    }
    out
}

} // verus!
