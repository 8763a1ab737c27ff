//! The output planner: derives a filesystem-safe filename for one book and
//! joins that book's rendered fragments into the file's content. Rendering a
//! record to its Markdown fragment is the templating collaborator's job;
//! this module only plans names and joins content, and never touches the
//! filesystem. Two books whose names sanitize to the same filename collide;
//! that is a documented limitation, not disambiguated here.

use vstd::prelude::*;

use crate::split::{join_lines, spec_unlines};
use crate::text::{char_views, chars_to_string, extend_chars, str_to_chars, string_views};

verus! {

/// A character stripped from filenames: invalid on at least one common
/// filesystem.
pub open spec fn disallowed_char(c: char) -> bool {
    c == '/' || c == '?' || c == '<' || c == '>' || c == ':' || c == '*' || c == '|' || c == '"'
        || c == '\\'
}

/// Executable twin of [`disallowed_char`].
pub fn is_disallowed(c: char) -> (r: bool)
    ensures
        r == disallowed_char(c),
{
    c == '/' || c == '?' || c == '<' || c == '>' || c == ':' || c == '*' || c == '|' || c == '"'
        || c == '\\'
}

/// What one character contributes to a sanitized filename: nothing when it
/// is disallowed, the word `and` for an ampersand, itself otherwise.
pub open spec fn sanitise_char(c: char) -> Seq<char> {
    if disallowed_char(c) {
        Seq::empty()
    } else if c == '&' {
        seq!['a', 'n', 'd']
    } else {
        seq![c]
    }
}

/// A filename with every disallowed character stripped and every ampersand
/// written out as `and`.
pub open spec fn spec_sanitise(s: Seq<char>) -> Seq<char>
    decreases s.len(),
{
    if s.len() == 0 {
        Seq::empty()
    } else {
        sanitise_char(s[0]) + spec_sanitise(s.drop_first())
    }
}

/// Sanitization distributes over concatenation.
pub proof fn lemma_sanitise_concat(a: Seq<char>, b: Seq<char>)
    ensures
        spec_sanitise(a + b) == spec_sanitise(a) + spec_sanitise(b),
    decreases a.len(),
{
    if a.len() == 0 {
        assert(a + b =~= b);
        assert(spec_sanitise(a) + spec_sanitise(b) =~= spec_sanitise(b));
    } else {
        lemma_sanitise_concat(a.drop_first(), b);
        assert((a + b).drop_first() =~= a.drop_first() + b);
        assert((a + b)[0] == a[0]);
        assert(spec_sanitise(a + b) =~= spec_sanitise(a) + spec_sanitise(b));
    }
}

proof fn lemma_sanitise_singleton(c: char)
    ensures
        spec_sanitise(seq![c]) == sanitise_char(c),
{
    assert(seq![c].drop_first() =~= Seq::<char>::empty());
    assert(spec_sanitise(Seq::<char>::empty()) =~= Seq::<char>::empty());
    assert(seq![c][0] == c);
    assert(spec_sanitise(seq![c]) =~= sanitise_char(c));
}

proof fn lemma_sanitise_char_fixed(c: char)
    ensures
        spec_sanitise(sanitise_char(c)) == sanitise_char(c),
{
    if disallowed_char(c) {
        assert(spec_sanitise(sanitise_char(c)) =~= sanitise_char(c));
    } else if c == '&' {
        let w = seq!['a', 'n', 'd'];
        assert(w =~= seq!['a'] + seq!['n'] + seq!['d']);
        lemma_sanitise_concat(seq!['a'] + seq!['n'], seq!['d']);
        lemma_sanitise_concat(seq!['a'], seq!['n']);
        lemma_sanitise_singleton('a');
        lemma_sanitise_singleton('n');
        lemma_sanitise_singleton('d');
        assert(spec_sanitise(w) =~= w);
    } else {
        lemma_sanitise_singleton(c);
    }
}

/// Filename sanitization is idempotent: sanitizing an already-sanitized
/// string yields the same string.
pub proof fn lemma_sanitise_idempotent(s: Seq<char>)
    ensures
        spec_sanitise(spec_sanitise(s)) == spec_sanitise(s),
    decreases s.len(),
{
    if s.len() > 0 {
        lemma_sanitise_idempotent(s.drop_first());
        lemma_sanitise_concat(sanitise_char(s[0]), spec_sanitise(s.drop_first()));
        lemma_sanitise_char_fixed(s[0]);
        assert(spec_sanitise(spec_sanitise(s)) =~= spec_sanitise(s));
    }
}

/// Sanitizes a sequence of characters; executable twin of [`spec_sanitise`].
fn sanitise_chars(v: &Vec<char>) -> (r: Vec<char>)
    ensures
        r@ == spec_sanitise(v@),
{
    let mut r: Vec<char> = Vec::new();
    let mut i: usize = 0;
    while i < v.len()
        invariant
            i <= v@.len(),
            r@ == spec_sanitise(v@.subrange(0, i as int)),
        decreases v@.len() - i,
    {
        let c = v[i];
        if is_disallowed(c) {
        } else if c == '&' {
            r.push('a');
            r.push('n');
            r.push('d');
        } else {
            r.push(c);
        }
        i = i + 1;
        proof {
            let pre = v@.subrange(0, i as int - 1);
            let cur = v@.subrange(0, i as int);
            assert(cur =~= pre + seq![c]);
            lemma_sanitise_concat(pre, seq![c]);
            lemma_sanitise_singleton(c);
            assert(r@ =~= spec_sanitise(pre) + sanitise_char(c));
        }
    }
    proof {
        assert(v@.subrange(0, v@.len() as int) =~= v@);
    }
    r
}

/// Derives a filesystem-safe filename: strips every character from the set
/// `/ ? < > : * | " \` and replaces each `&` with the word `and`, so the
/// conjunction stays legible.
pub fn sanitise_filename(filename: String) -> (r: String)
    ensures
        r@ == spec_sanitise(filename@),
{
    let chars = str_to_chars(filename.as_str());
    let clean = sanitise_chars(&chars);
    chars_to_string(&clean)
}

/// The planned filename for one book: `<title> - <author>.md`, sanitized.
pub open spec fn spec_book_filename(title: Seq<char>, author: Seq<char>) -> Seq<char> {
    spec_sanitise(title + seq![' ', '-', ' '] + author + seq!['.', 'm', 'd'])
}

/// Composes and sanitizes the filename for one book; executable twin of
/// [`spec_book_filename`].
pub fn book_filename(title: &String, author: &String) -> (r: String)
    ensures
        r@ == spec_book_filename(title@, author@),
{
    let title_chars = str_to_chars(title.as_str());
    let author_chars = str_to_chars(author.as_str());
    let mut name: Vec<char> = Vec::new();
    extend_chars(&mut name, &title_chars);
    name.push(' ');
    name.push('-');
    name.push(' ');
    extend_chars(&mut name, &author_chars);
    name.push('.');
    name.push('m');
    name.push('d');
    proof {
        assert(name@ =~= title@ + seq![' ', '-', ' '] + author@ + seq!['.', 'm', 'd']);
    }
    let clean = sanitise_chars(&name);
    chars_to_string(&clean)
}

/// Joins the rendered fragments of one book's records, in group order, with
/// a single separating line feed between each two; the file content for that
/// book.
pub fn join_fragments(fragments: &Vec<String>) -> (r: String)
    ensures
        r@ == spec_unlines(string_views(fragments@)),
{
    let mut parts: Vec<Vec<char>> = Vec::new();
    let mut i: usize = 0;
    while i < fragments.len()
        invariant
            i <= fragments@.len(),
            char_views(parts@) == string_views(fragments@).subrange(0, i as int),
        decreases fragments@.len() - i,
    {
        let ghost prev = char_views(parts@);
        let part = str_to_chars(fragments[i].as_str());
        parts.push(part);
        i = i + 1;
        proof {
            assert(char_views(parts@) =~= prev.push(fragments@[i as int - 1]@));
            assert(char_views(parts@) =~= string_views(fragments@).subrange(0, i as int));
        }
    }
    proof {
        assert(string_views(fragments@).subrange(0, fragments@.len() as int) =~= string_views(
            fragments@,
        ));
    }
    let joined = join_lines(&parts);
    chars_to_string(&joined)
}

} // verus!
