use kindle_clippings::group::group_clippings;
use kindle_clippings::output::{book_filename, join_fragments, sanitise_filename};
use kindle_clippings::record::{Clipping, ClippingType};
use kindle_clippings::split::split_blocks;

fn clipping(title: &str, author: &str, quote: &str) -> Clipping {
    Clipping {
        title: String::from(title),
        author: String::from(author),
        clipping_type: ClippingType::Highlight,
        location: None,
        page: None,
        added_date: None,
        quote: String::from(quote),
    }
}

#[test]
fn two_books_group_into_two_ordered_groups_with_their_filenames() {
    let records = vec![
        clipping("Dune", "Herbert, Frank", "first"),
        clipping("1984", "Orwell, George", "alone"),
        clipping("Dune", "Herbert, Frank", "second"),
    ];
    let groups = group_clippings(&records);
    assert_eq!(groups.len(), 2);
    assert_eq!(groups[0].title, "Dune");
    assert_eq!(groups[0].author, "Herbert, Frank");
    assert_eq!(groups[0].clippings.len(), 2);
    assert_eq!(groups[0].clippings[0].quote, "first");
    assert_eq!(groups[0].clippings[1].quote, "second");
    assert_eq!(groups[1].clippings.len(), 1);
    assert_eq!(
        book_filename(&groups[0].title, &groups[0].author),
        "Dune - Herbert, Frank.md"
    );
    assert_eq!(
        book_filename(&groups[1].title, &groups[1].author),
        "1984 - Orwell, George.md"
    );
}

#[test]
fn grouping_keeps_repeated_identical_annotations() {
    let records = vec![
        clipping("Dune", "Frank Herbert", "same"),
        clipping("Dune", "Frank Herbert", "same"),
    ];
    let groups = group_clippings(&records);
    assert_eq!(groups.len(), 1);
    assert_eq!(groups[0].clippings.len(), 2);
}

#[test]
fn case_and_whitespace_variants_are_distinct_books() {
    let records = vec![
        clipping("Dune", "Frank Herbert", "a"),
        clipping("dune", "Frank Herbert", "b"),
        clipping("Dune", "Frank  Herbert", "c"),
    ];
    let groups = group_clippings(&records);
    assert_eq!(groups.len(), 3);
}

#[test]
fn ampersand_and_punctuation_sanitize() {
    assert_eq!(sanitise_filename(String::from("A&B: Title?")), "AandB Title");
}

#[test]
fn sanitization_is_idempotent_on_a_sample() {
    let once = sanitise_filename(String::from("Slash/Back\\Star*Quote\"End|?<>:&"));
    let twice = sanitise_filename(once.clone());
    assert_eq!(once, twice);
    assert_eq!(once, "SlashBackStarQuoteEndand");
}

#[test]
fn filename_is_composed_then_sanitized() {
    assert_eq!(
        book_filename(&String::from("Dogs & Cats: a Study?"), &String::from("A/B")),
        "Dogs and Cats a Study - AB.md"
    );
}

#[test]
fn fragments_join_with_a_single_separator() {
    let fragments = vec![
        String::from("## one\n"),
        String::from("## two\n"),
        String::from("## three\n"),
    ];
    assert_eq!(join_fragments(&fragments), "## one\n\n## two\n\n## three\n");
    assert_eq!(join_fragments(&vec![String::from("only")]), "only");
    assert_eq!(join_fragments(&Vec::new()), "");
}

#[test]
fn splitter_cuts_at_ten_equals_lines() {
    let text = "first block\n==========\nsecond block line one\nsecond block line two\n==========\nthird";
    let blocks = split_blocks(text);
    assert_eq!(blocks.len(), 3);
    assert_eq!(blocks[0], "first block");
    assert_eq!(blocks[1], "second block line one\nsecond block line two");
    assert_eq!(blocks[2], "third");
}

#[test]
fn splitter_tolerates_blank_lines_and_crlf_around_the_delimiter() {
    let text = "first\r\n\r\n==========\r\n\r\nsecond\r\n";
    let blocks = split_blocks(text);
    assert_eq!(blocks.len(), 2);
    assert_eq!(blocks[0], "first");
    assert_eq!(blocks[1], "second");
}

#[test]
fn splitter_ignores_lines_that_are_not_exactly_ten_equals() {
    let text = "first\n===========\nsecond";
    let blocks = split_blocks(text);
    assert_eq!(blocks.len(), 1);
    assert_eq!(blocks[0], "first\n===========\nsecond");
}

#[test]
fn splitter_accepts_whitespace_around_the_delimiter_line() {
    let text = "first\n  ==========  \nsecond";
    let blocks = split_blocks(text);
    assert_eq!(blocks.len(), 2);
    assert_eq!(blocks[0], "first");
    assert_eq!(blocks[1], "second");
}

#[test]
fn rejoining_split_blocks_preserves_block_boundaries() {
    let text = "alpha\n==========\nbeta\ngamma\n==========\ndelta";
    let blocks = split_blocks(text);
    let mut rejoined = String::new();
    let mut first = true;
    for b in &blocks {
        if !first {
            rejoined.push_str("\n==========\n");
        }
        first = false;
        rejoined.push_str(b);
    }
    let again = split_blocks(&rejoined);
    assert_eq!(blocks, again);
}
