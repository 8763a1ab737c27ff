//! The record grammar and extraction engine: recognizes the shape of one
//! annotation block and extracts the typed fields of a [`Clipping`].
//!
//! A block is expected to look like
//!
//! ```text
//! <title> (<author>)
//! - Your <Kind> on page <page> | location <start>-<end> | Added on <weekday>, <date>
//!
//! <body>
//! ```
//!
//! where the page marker, the location range and the date segment are each
//! optional and mutually independent, and the exact wording and spacing
//! around the markers drifted across the export format's revisions. A block
//! whose first line carries no trailing parenthesized author, or whose kind
//! keyword is not one of `Highlight`, `Bookmark` and `Note`, fails to parse
//! as a whole; a missing or malformed optional marker only leaves its one
//! field absent.

use vstd::prelude::*;

use crate::record::{clipping_views, Clipping, ClippingType, ClippingView, DateTime};
use crate::split::{
    copy_lines_range, is_blank, is_blank_line, join_lines, spec_blocks, spec_lines, spec_unlines,
    split_blocks, split_lines,
};
use crate::text::{
    char_views, chars_eq, chars_to_string, copy_range, alpha_run_end, digit_run_end, find_keyword,
    lemma_find_keyword_bounds, lemma_rfind_bounds, parse_i32_range, rfind_char_before,
    skip_spaces, spec_alpha_run_end, spec_digit_run_end, spec_find_keyword_from, spec_parse_i32,
    spec_rfind_char, spec_skip_spaces, spec_trim, str_to_chars, string_views, trim_chars,
};

use chrono::{Datelike, Timelike};

verus! {

/// The tail of the keyword `Your`, which announces the kind tag.
pub open spec fn kw_your_rest() -> Seq<char> {
    seq!['o', 'u', 'r', ' ']
}

/// The tail of the page marker keyword, `page` or `Page`.
pub open spec fn kw_page_rest() -> Seq<char> {
    seq!['a', 'g', 'e']
}

/// The tail of the location marker keyword, `location` or `Location`.
pub open spec fn kw_location_rest() -> Seq<char> {
    seq!['o', 'c', 'a', 't', 'i', 'o', 'n']
}

/// The kind keyword of a highlight.
pub open spec fn kw_highlight() -> Seq<char> {
    seq!['H', 'i', 'g', 'h', 'l', 'i', 'g', 'h', 't']
}

/// The kind keyword of a bookmark.
pub open spec fn kw_bookmark() -> Seq<char> {
    seq!['B', 'o', 'o', 'k', 'm', 'a', 'r', 'k']
}

/// The kind keyword of a note.
pub open spec fn kw_note() -> Seq<char> {
    seq!['N', 'o', 't', 'e']
}

/// What the kind normalizer yields for a keyword: one of the three kinds for
/// the three literal keywords, and nothing for any other word, which fails
/// the whole block.
pub open spec fn kind_of_word(w: Seq<char>) -> Option<ClippingType> {
    if w =~= kw_highlight() {
        Some(ClippingType::Highlight)
    } else if w =~= kw_bookmark() {
        Some(ClippingType::Bookmark)
    } else if w =~= kw_note() {
        Some(ClippingType::Note)
    } else {
        None
    }
}

/// Title and author of the first logical line: the author is the final
/// parenthesized group at the end of the line, the title is everything
/// before it, trimmed. Nothing is extracted when the line does not end with
/// a parenthesized group or when either part comes out empty.
pub open spec fn spec_title_author(line: Seq<char>) -> Option<(Seq<char>, Seq<char>)> {
    let t = spec_trim(line);
    if t.len() < 2 || t.last() != ')' {
        None
    } else {
        match spec_rfind_char(t.drop_last(), '(') {
            None => None,
            Some(p) => {
                let title = spec_trim(t.subrange(0, p));
                let author = t.subrange(p + 1, t.len() - 1);
                if title.len() > 0 && author.len() > 0 {
                    Some((title, author))
                } else {
                    None
                }
            },
        }
    }
}

/// The kind tag of the metadata line: the run of letters right after the
/// first `Your `, mapped through [`kind_of_word`].
pub open spec fn spec_kind(line: Seq<char>) -> Option<ClippingType> {
    match spec_find_keyword_from(line, 'Y', 'Y', kw_your_rest(), 0) {
        None => None,
        Some(i) => kind_of_word(line.subrange(i + 5, spec_alpha_run_end(line, i + 5))),
    }
}

/// The page marker of the metadata line: the digit run after the first
/// `page` keyword (either capitalization), skipping whitespace. Absent when
/// the keyword is missing, no digits follow, or the value does not fit.
pub open spec fn spec_page(line: Seq<char>) -> Option<i32> {
    match spec_find_keyword_from(line, 'p', 'P', kw_page_rest(), 0) {
        None => None,
        Some(i) => {
            let j = spec_skip_spaces(line, i + 4);
            spec_parse_i32(line.subrange(j, spec_digit_run_end(line, j)))
        },
    }
}

/// The location range of the metadata line: two digit runs joined by `-`
/// after the first `location` keyword (either capitalization), skipping
/// whitespace. The two bounds are extracted together or not at all.
pub open spec fn spec_location(line: Seq<char>) -> Option<(i32, i32)> {
    match spec_find_keyword_from(line, 'l', 'L', kw_location_rest(), 0) {
        None => None,
        Some(i) => {
            let j = spec_skip_spaces(line, i + 8);
            let e1 = spec_digit_run_end(line, j);
            if e1 < line.len() && line[e1] == '-' {
                let e2 = spec_digit_run_end(line, e1 + 1);
                match (spec_parse_i32(line.subrange(j, e1)), spec_parse_i32(
                    line.subrange(e1 + 1, e2),
                )) {
                    (Some(a), Some(b)) => Some((a, b)),
                    _ => None,
                }
            } else {
                None
            }
        },
    }
}

/// The free-text date segment of the metadata line: everything after the
/// last comma, trimmed. Absent when the line has no comma.
pub open spec fn spec_date_text(line: Seq<char>) -> Option<Seq<char>> {
    match spec_rfind_char(line, ',') {
        None => None,
        Some(c) => Some(spec_trim(line.subrange(c + 1, line.len() as int))),
    }
}

/// What the date normalizer yields for the metadata line: the moment the
/// date segment denotes, absent when there is no segment or it does not
/// match the expected format.
pub open spec fn spec_added(line: Seq<char>) -> Option<DateTime> {
    match spec_date_text(line) {
        None => None,
        Some(t) => chrono_parsed_datetime(t),
    }
}

/// The moment that the fixed-format date text denotes, absent when the text
/// does not match the format; a function of the text alone.
pub uninterp spec fn chrono_parsed_datetime(s: Seq<char>) -> Option<DateTime>;

/// Relies on chrono's `NaiveDateTime::parse_from_str` with the fixed format
/// `%d %B %Y %H:%M:%S` (day of month, English month name, year, time of
/// day): whether the text parses, and which moment it denotes, depend on the
/// text alone.
#[verifier::external_body]
fn parse_highlight_time(s: &str) -> (r: Option<DateTime>)
    ensures
        r == chrono_parsed_datetime(s@),
{
    match chrono::NaiveDateTime::parse_from_str(s, "%d %B %Y %H:%M:%S") {
        Ok(dt) => Some(DateTime {
            year: dt.year(),
            month: dt.month() as u8,
            day: dt.day() as u8,
            hour: dt.hour() as u8,
            minute: dt.minute() as u8,
            second: dt.second() as u8,
        }),
        Err(_) => None,
    }
}

fn kw_your_rest_vec() -> (r: Vec<char>)
    ensures
        r@ =~= kw_your_rest(),
{
    let mut r: Vec<char> = Vec::new();
    r.push('o');
    r.push('u');
    r.push('r');
    r.push(' ');
    proof {
        assert(r@ =~= kw_your_rest());
    }
    r
}

fn kw_page_rest_vec() -> (r: Vec<char>)
    ensures
        r@ =~= kw_page_rest(),
{
    let mut r: Vec<char> = Vec::new();
    r.push('a');
    r.push('g');
    r.push('e');
    proof {
        assert(r@ =~= kw_page_rest());
    }
    r
}

fn kw_location_rest_vec() -> (r: Vec<char>)
    ensures
        r@ =~= kw_location_rest(),
{
    let mut r: Vec<char> = Vec::new();
    r.push('o');
    r.push('c');
    r.push('a');
    r.push('t');
    r.push('i');
    r.push('o');
    r.push('n');
    proof {
        assert(r@ =~= kw_location_rest());
    }
    r
}

fn kw_highlight_vec() -> (r: Vec<char>)
    ensures
        r@ =~= kw_highlight(),
{
    let mut r: Vec<char> = Vec::new();
    r.push('H');
    r.push('i');
    r.push('g');
    r.push('h');
    r.push('l');
    r.push('i');
    r.push('g');
    r.push('h');
    r.push('t');
    proof {
        assert(r@ =~= kw_highlight());
    }
    r
}

fn kw_bookmark_vec() -> (r: Vec<char>)
    ensures
        r@ =~= kw_bookmark(),
{
    let mut r: Vec<char> = Vec::new();
    r.push('B');
    r.push('o');
    r.push('o');
    r.push('k');
    r.push('m');
    r.push('a');
    r.push('r');
    r.push('k');
    proof {
        assert(r@ =~= kw_bookmark());
    }
    r
}

fn kw_note_vec() -> (r: Vec<char>)
    ensures
        r@ =~= kw_note(),
{
    let mut r: Vec<char> = Vec::new();
    r.push('N');
    r.push('o');
    r.push('t');
    r.push('e');
    proof {
        assert(r@ =~= kw_note());
    }
    r
}

/// Splits the first logical line into title and author; executable twin of
/// [`spec_title_author`].
pub fn parse_title_line(line: &Vec<char>) -> (r: Option<(Vec<char>, Vec<char>)>)
    ensures
        r is Some <==> spec_title_author(line@) is Some,
        r is Some ==> {
            let (t, a) = r.unwrap();
            (t@, a@) == spec_title_author(line@).unwrap()
        },
{
    let t = trim_chars(line);
    let n = t.len();
    if n < 2 || t[n - 1] != ')' {
        proof {
            if n >= 1 {
                assert(t@.last() == t@[n as int - 1]);
            }
        }
        return None;
    }
    proof {
        assert(t@.last() == t@[n as int - 1]);
        assert(t@.drop_last() =~= t@.subrange(0, n as int - 1));
    }
    match rfind_char_before(&t, '(', n - 1) {
        None => None,
        Some(p) => {
            proof {
                lemma_rfind_bounds(t@.subrange(0, n as int - 1), '(');
            }
            let title = trim_chars(&copy_range(&t, 0, p));
            let author = copy_range(&t, p + 1, n - 1);
            if title.len() > 0 && author.len() > 0 {
                Some((title, author))
            } else {
                None
            }
        },
    }
}

/// Reads the kind tag of the metadata line; executable twin of
/// [`spec_kind`].
pub fn parse_kind_word(line: &Vec<char>) -> (r: Option<ClippingType>)
    ensures
        r == spec_kind(line@),
{
    let n = line.len();
    let rest = kw_your_rest_vec();
    match find_keyword(line, 'Y', 'Y', &rest) {
        None => None,
        Some(i) => {
            proof {
                lemma_find_keyword_bounds(line@, 'Y', 'Y', kw_your_rest(), 0);
                assert(i + 5 <= n);
            }
            let e = alpha_run_end(line, i + 5);
            let w = copy_range(line, i + 5, e);
            if chars_eq(&w, &kw_highlight_vec()) {
                Some(ClippingType::Highlight)
            } else if chars_eq(&w, &kw_bookmark_vec()) {
                Some(ClippingType::Bookmark)
            } else if chars_eq(&w, &kw_note_vec()) {
                Some(ClippingType::Note)
            } else {
                None
            }
        },
    }
}

/// Reads the page marker of the metadata line; executable twin of
/// [`spec_page`].
pub fn parse_page(line: &Vec<char>) -> (r: Option<i32>)
    ensures
        r == spec_page(line@),
{
    let n = line.len();
    let rest = kw_page_rest_vec();
    match find_keyword(line, 'p', 'P', &rest) {
        None => None,
        Some(i) => {
            proof {
                lemma_find_keyword_bounds(line@, 'p', 'P', kw_page_rest(), 0);
                assert(i + 4 <= n);
            }
            let j = skip_spaces(line, i + 4);
            let e = digit_run_end(line, j);
            parse_i32_range(line, j, e)
        },
    }
}

/// Reads the location range of the metadata line; executable twin of
/// [`spec_location`].
pub fn parse_location(line: &Vec<char>) -> (r: Option<(i32, i32)>)
    ensures
        r == spec_location(line@),
{
    let n = line.len();
    let rest = kw_location_rest_vec();
    match find_keyword(line, 'l', 'L', &rest) {
        None => None,
        Some(i) => {
            proof {
                lemma_find_keyword_bounds(line@, 'l', 'L', kw_location_rest(), 0);
                assert(i + 8 <= n);
            }
            let j = skip_spaces(line, i + 8);
            let e1 = digit_run_end(line, j);
            if e1 < line.len() && line[e1] == '-' {
                let e2 = digit_run_end(line, e1 + 1);
                let first = parse_i32_range(line, j, e1);
                let second = parse_i32_range(line, e1 + 1, e2);
                match (first, second) {
                    (Some(a), Some(b)) => Some((a, b)),
                    _ => None,
                }
            } else {
                None
            }
        },
    }
}

/// Reads the date segment of the metadata line and normalizes it;
/// executable twin of [`spec_added`].
pub fn parse_added(line: &Vec<char>) -> (r: Option<DateTime>)
    ensures
        r == spec_added(line@),
{
    proof {
        assert(line@.subrange(0, line@.len() as int) =~= line@);
    }
    match rfind_char_before(line, ',', line.len()) {
        None => None,
        Some(c) => {
            proof {
                lemma_rfind_bounds(line@, ',');
            }
            let tail = copy_range(line, c + 1, line.len());
            let text = trim_chars(&tail);
            let s = chars_to_string(&text);
            parse_highlight_time(s.as_str())
        },
    }
}

/// The first line at or after `i` with visible content.
pub open spec fn first_nonblank_from(ls: Seq<Seq<char>>, i: int) -> Option<int>
    decreases ls.len() - i,
{
    if i < 0 || i >= ls.len() {
        None
    } else if !is_blank_line(ls[i]) {
        Some(i)
    } else {
        first_nonblank_from(ls, i + 1)
    }
}

/// The first line at or after `i` with no visible content.
pub open spec fn first_blank_from(ls: Seq<Seq<char>>, i: int) -> Option<int>
    decreases ls.len() - i,
{
    if i < 0 || i >= ls.len() {
        None
    } else if is_blank_line(ls[i]) {
        Some(i)
    } else {
        first_blank_from(ls, i + 1)
    }
}

/// Finds the first non-blank line at or after `from`; executable twin of
/// [`first_nonblank_from`].
fn first_nonblank(lines: &Vec<Vec<char>>, from: usize) -> (r: Option<usize>)
    requires
        from <= lines@.len(),
    ensures
        match r {
            Some(k) => first_nonblank_from(char_views(lines@), from as int) == Some(k as int)
                && from <= k < lines@.len(),
            None => first_nonblank_from(char_views(lines@), from as int) is None,
        },
{
    let n = lines.len();
    let mut j: usize = from;
    while j < n && is_blank(&lines[j])
        invariant
            from <= j <= n == lines@.len(),
            first_nonblank_from(char_views(lines@), from as int) == first_nonblank_from(
                char_views(lines@),
                j as int,
            ),
        decreases n - j,
    {
        j = j + 1;
    }
    if j < n {
        Some(j)
    } else {
        None
    }
}

/// Finds the first blank line at or after `from`; executable twin of
/// [`first_blank_from`].
fn first_blank(lines: &Vec<Vec<char>>, from: usize) -> (r: Option<usize>)
    requires
        from <= lines@.len(),
    ensures
        match r {
            Some(k) => first_blank_from(char_views(lines@), from as int) == Some(k as int)
                && from <= k < lines@.len(),
            None => first_blank_from(char_views(lines@), from as int) is None,
        },
{
    let n = lines.len();
    let mut j: usize = from;
    while j < n && !is_blank(&lines[j])
        invariant
            from <= j <= n == lines@.len(),
            first_blank_from(char_views(lines@), from as int) == first_blank_from(
                char_views(lines@),
                j as int,
            ),
        decreases n - j,
    {
        j = j + 1;
    }
    if j < n {
        Some(j)
    } else {
        None
    }
}

/// The body of a block whose metadata line stands at `meta`: everything
/// after the first blank line following the metadata line, verbatim,
/// including internal blank lines; empty when no blank line follows.
pub open spec fn spec_body(ls: Seq<Seq<char>>, meta: int) -> Seq<char> {
    match first_blank_from(ls, meta + 1) {
        None => Seq::empty(),
        Some(ib) => spec_unlines(ls.subrange(ib + 1, ls.len() as int)),
    }
}

/// Joins the lines after the first blank line following `meta`; executable
/// twin of [`spec_body`].
fn extract_body(lines: &Vec<Vec<char>>, meta: usize) -> (r: Vec<char>)
    requires
        meta < lines@.len(),
    ensures
        r@ == spec_body(char_views(lines@), meta as int),
{
    let n = lines.len();
    match first_blank(lines, meta + 1) {
        None => Vec::new(),
        Some(ib) => {
            let suffix = copy_lines_range(lines, ib + 1, n);
            join_lines(&suffix)
        },
    }
}

/// An `i32` location pair widened to mathematical integers.
pub open spec fn loc_view(l: Option<(i32, i32)>) -> Option<(int, int)> {
    match l {
        Some(p) => Some((p.0 as int, p.1 as int)),
        None => None,
    }
}

/// An `i32` page number widened to a mathematical integer.
pub open spec fn page_view(p: Option<i32>) -> Option<int> {
    match p {
        Some(x) => Some(x as int),
        None => None,
    }
}

/// What extraction yields for one raw block: the normalized record, or
/// nothing when the block violates the grammar's required parts. The title
/// line is the first non-blank line; the metadata line is the next non-blank
/// line after it.
pub open spec fn spec_extract_block(b: Seq<char>) -> Option<ClippingView> {
    let ls = spec_lines(b);
    match first_nonblank_from(ls, 0) {
        None => None,
        Some(i0) => match spec_title_author(ls[i0]) {
            None => None,
            Some(ta) => match first_nonblank_from(ls, i0 + 1) {
                None => None,
                Some(i1) => match spec_kind(ls[i1]) {
                    None => None,
                    Some(kind) => Some(
                        ClippingView {
                            title: ta.0,
                            author: ta.1,
                            clipping_type: kind,
                            location: loc_view(spec_location(ls[i1])),
                            page: page_view(spec_page(ls[i1])),
                            added_date: spec_added(ls[i1]),
                            quote: spec_body(ls, i1),
                        },
                    ),
                },
            },
        },
    }
}

/// Extracts a [`Clipping`] from one raw annotation block; executable twin of
/// [`spec_extract_block`]. A malformed title line or an unrecognized kind
/// keyword fails the whole block; a missing page, location or date only
/// leaves that field absent.
pub fn parse_quote_block(quote_block: &str) -> (r: Option<Clipping>)
    ensures
        r is Some <==> spec_extract_block(quote_block@) is Some,
        r is Some ==> r.unwrap()@ == spec_extract_block(quote_block@).unwrap(),
{
    let chars = str_to_chars(quote_block);
    let lines = split_lines(&chars);
    let ghost ls = spec_lines(quote_block@);
    proof {
        assert(char_views(lines@) == ls);
    }
    let i0 = match first_nonblank(&lines, 0) {
        None => {
            return None;
        },
        Some(i) => i,
    };
    proof {
        assert(char_views(lines@)[i0 as int] == lines@[i0 as int]@);
    }
    let (title, author) = match parse_title_line(&lines[i0]) {
        None => {
            return None;
        },
        Some(ta) => ta,
    };
    let i1 = match first_nonblank(&lines, i0 + 1) {
        None => {
            return None;
        },
        Some(i) => i,
    };
    proof {
        assert(char_views(lines@)[i1 as int] == lines@[i1 as int]@);
    }
    let kind = match parse_kind_word(&lines[i1]) {
        None => {
            return None;
        },
        Some(k) => k,
    };
    let page = parse_page(&lines[i1]);
    let location = parse_location(&lines[i1]);
    let added_date = parse_added(&lines[i1]);
    let body = extract_body(&lines, i1);
    let clipping = Clipping {
        title: chars_to_string(&title),
        author: chars_to_string(&author),
        clipping_type: kind,
        location,
        page,
        added_date,
        quote: chars_to_string(&body),
    };
    proof {
        assert(clipping@ =~= spec_extract_block(quote_block@).unwrap());
    }
    Some(clipping)
}

/// The metadata line of a block: the first non-blank line after the title
/// line, when both exist.
pub open spec fn spec_meta_line(b: Seq<char>) -> Option<Seq<char>> {
    let ls = spec_lines(b);
    match first_nonblank_from(ls, 0) {
        None => None,
        Some(i0) => match first_nonblank_from(ls, i0 + 1) {
            None => None,
            Some(i1) => Some(ls[i1]),
        },
    }
}

/// A block matching the required parts of the record grammar: it has a title
/// line whose end carries a parenthesized, non-empty author after a
/// non-empty title, and a metadata line naming one of the three kinds.
pub open spec fn block_matches_grammar(b: Seq<char>) -> bool {
    let ls = spec_lines(b);
    match first_nonblank_from(ls, 0) {
        None => false,
        Some(i0) => spec_title_author(ls[i0]) is Some && match first_nonblank_from(ls, i0 + 1) {
            None => false,
            Some(i1) => spec_kind(ls[i1]) is Some,
        },
    }
}

/// Extraction is total on well-formed blocks: a block matching the grammar
/// always yields a record; its title, author and kind are always populated,
/// with the title and author non-empty; and each optional field is populated
/// exactly when the metadata line carries its marker with a usable value.
pub proof fn lemma_extraction_total(b: Seq<char>)
    requires
        block_matches_grammar(b),
    ensures
        spec_extract_block(b) is Some,
        spec_meta_line(b) is Some,
        ({
            let c = spec_extract_block(b).unwrap();
            let m = spec_meta_line(b).unwrap();
            &&& c.title.len() > 0
            &&& c.author.len() > 0
            &&& (c.page is Some <==> spec_page(m) is Some)
            &&& (c.location is Some <==> spec_location(m) is Some)
            &&& (c.added_date is Some <==> spec_added(m) is Some)
        }),
{
}

/// The records extracted from a sequence of raw blocks, in block order;
/// blocks that fail to parse contribute nothing.
pub open spec fn spec_extract_all(bs: Seq<Seq<char>>) -> Seq<ClippingView>
    decreases bs.len(),
{
    if bs.len() == 0 {
        Seq::empty()
    } else {
        spec_extract_all(bs.drop_last()) + match spec_extract_block(bs.last()) {
            Some(c) => seq![c],
            None => Seq::<ClippingView>::empty(),
        }
    }
}

/// How many of the blocks carry any content at all, and so count as
/// attempted annotations.
pub open spec fn spec_attempted(bs: Seq<Seq<char>>) -> int
    decreases bs.len(),
{
    if bs.len() == 0 {
        0
    } else {
        spec_attempted(bs.drop_last()) + if bs.last().len() > 0 {
            1int
        } else {
            0int
        }
    }
}

proof fn lemma_empty_block_no_record(b: Seq<char>)
    requires
        b.len() == 0,
    ensures
        spec_extract_block(b) is None,
{
    assert(b.subrange(0, 0) =~= Seq::<char>::empty());
    let ls = spec_lines(b);
    assert(ls =~= seq![Seq::<char>::empty()]);
    assert(spec_trim(Seq::<char>::empty()).len() == 0);
    assert(is_blank_line(ls[0]));
    assert(first_nonblank_from(ls, 1) is None);
    assert(first_nonblank_from(ls, 0) is None);
}

/// The counts are coherent: a run never yields more records than it
/// attempted blocks, because only a non-empty block can parse.
pub proof fn lemma_successes_at_most_attempted(bs: Seq<Seq<char>>)
    ensures
        spec_extract_all(bs).len() <= spec_attempted(bs),
    decreases bs.len(),
{
    if bs.len() > 0 {
        lemma_successes_at_most_attempted(bs.drop_last());
        if bs.last().len() == 0 {
            lemma_empty_block_no_record(bs.last());
        }
    }
}

/// The outcome of one run over the whole export text: the records in file
/// order, and how many blocks were attempted. The number that succeeded is
/// the number of records; the difference is the number of blocks dropped as
/// unparseable.
pub struct ParseOutcome {
    pub clippings: Vec<Clipping>,
    pub attempted: usize,
}

/// Splits the raw export text into blocks and extracts a record from each
/// block that matches the grammar, in file order. `attempted` counts the
/// non-empty blocks, parsed or not.
pub fn parse_clippings(clipping_text: &str) -> (r: ParseOutcome)
    ensures
        clipping_views(r.clippings@) == spec_extract_all(spec_blocks(clipping_text@)),
        r.attempted == spec_attempted(spec_blocks(clipping_text@)),
{
    let blocks = split_blocks(clipping_text);
    let ghost bs = spec_blocks(clipping_text@);
    let mut clippings: Vec<Clipping> = Vec::new();
    let mut attempted: usize = 0;
    let mut i: usize = 0;
    while i < blocks.len()
        invariant
            i <= blocks@.len(),
            string_views(blocks@) == bs,
            attempted <= i,
            clipping_views(clippings@) == spec_extract_all(bs.subrange(0, i as int)),
            attempted == spec_attempted(bs.subrange(0, i as int)),
        decreases blocks@.len() - i,
    {
        proof {
            assert(string_views(blocks@)[i as int] == blocks@[i as int]@);
            assert(bs.subrange(0, i as int + 1).drop_last() =~= bs.subrange(0, i as int));
            assert(bs.subrange(0, i as int + 1).last() == bs[i as int]);
        }
        if !blocks[i].as_str().is_empty() {
            attempted = attempted + 1;
        }
        match parse_quote_block(blocks[i].as_str()) {
            Some(c) => {
                let ghost prev = clipping_views(clippings@);
                clippings.push(c);
                proof {
                    assert(clipping_views(clippings@) =~= prev.push(c@));
                    assert(clipping_views(clippings@) =~= spec_extract_all(
                        bs.subrange(0, i as int + 1),
                    ));
                }
            },
            None => {
                proof {
                    assert(clipping_views(clippings@) =~= spec_extract_all(
                        bs.subrange(0, i as int + 1),
                    ));
                }
            },
        }
        i = i + 1;
    }
    proof {
        assert(bs.subrange(0, bs.len() as int) =~= bs);
    }
    ParseOutcome { clippings, attempted }
}

} // verus!
