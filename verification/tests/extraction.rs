use kindle_clippings::extract::{parse_clippings, parse_quote_block};
use kindle_clippings::record::{ClippingType, DateTime};

#[test]
fn dune_highlight_extracts_all_fields() {
    let block = "Dune (Frank Herbert)\n- Your Highlight on page 12 | Location 230-231 |Added on Monday, 1 January 2024 09:00:00\n\nFear is the mind-killer.";
    let c = parse_quote_block(block).expect("well-formed block should parse");
    assert_eq!(c.title, "Dune");
    assert_eq!(c.author, "Frank Herbert");
    assert!(matches!(c.clipping_type, ClippingType::Highlight));
    assert_eq!(c.page, Some(12));
    assert_eq!(c.location, Some((230, 231)));
    assert_eq!(c.quote, "Fear is the mind-killer.");
    let added = c.added_date.expect("date should parse");
    assert_eq!(
        added,
        DateTime { year: 2024, month: 1, day: 1, hour: 9, minute: 0, second: 0 }
    );
}

#[test]
fn unrecognized_kind_keyword_yields_no_record() {
    let text = "Dune (Frank Herbert)\n- Your Loan on page 12 | Location 230-231 | Added on Monday, 1 January 2024 09:00:00\n\nFear is the mind-killer.\n==========\n";
    let outcome = parse_clippings(text);
    assert_eq!(outcome.attempted, 1);
    assert_eq!(outcome.clippings.len(), 0);
}

#[test]
fn bookmark_has_no_body_and_no_markers() {
    let block = "1984 (Orwell, George)\n- Your Bookmark on page 33 | Added on Friday, 22 July 2021 18:04:09";
    let c = parse_quote_block(block).expect("bookmark should parse");
    assert!(matches!(c.clipping_type, ClippingType::Bookmark));
    assert_eq!(c.page, Some(33));
    assert_eq!(c.location, None);
    assert_eq!(c.quote, "");
    assert_eq!(
        c.added_date,
        Some(DateTime { year: 2021, month: 7, day: 22, hour: 18, minute: 4, second: 9 })
    );
}

#[test]
fn note_with_location_only() {
    let block = "Walden (Thoreau, Henry David)\n- Your Note at location 1012-1012 | Added on Sunday, 3 March 2019 08:15:00\n\nSimplify, simplify.";
    let c = parse_quote_block(block).expect("note should parse");
    assert!(matches!(c.clipping_type, ClippingType::Note));
    assert_eq!(c.page, None);
    assert_eq!(c.location, Some((1012, 1012)));
    assert_eq!(c.quote, "Simplify, simplify.");
}

#[test]
fn highlight_with_neither_page_nor_location() {
    let block = "Dune (Frank Herbert)\n- Your Highlight, Added on Monday, 1 January 2024 09:00:00\n\nArrakis.";
    let c = parse_quote_block(block).expect("block should parse");
    assert_eq!(c.page, None);
    assert_eq!(c.location, None);
    assert_eq!(c.quote, "Arrakis.");
}

#[test]
fn missing_date_segment_keeps_the_record() {
    let block = "Dune (Frank Herbert)\n- Your Highlight on page 7\n\nSpice.";
    let c = parse_quote_block(block).expect("block should parse without a date");
    assert_eq!(c.page, Some(7));
    assert_eq!(c.added_date, None);
    assert_eq!(c.quote, "Spice.");
}

#[test]
fn drifted_date_text_loses_only_the_date() {
    let block = "Dune (Frank Herbert)\n- Your Highlight on page 7 | Added on Monday, January 1st 2024\n\nSpice.";
    let c = parse_quote_block(block).expect("block should parse");
    assert_eq!(c.added_date, None);
    assert_eq!(c.page, Some(7));
    assert_eq!(c.quote, "Spice.");
}

#[test]
fn title_line_without_parenthesized_author_fails() {
    let block = "Dune\n- Your Highlight on page 7 | Added on Monday, 1 January 2024 09:00:00\n\nSpice.";
    assert!(parse_quote_block(block).is_none());
}

#[test]
fn empty_author_fails_the_block() {
    let block = "Dune ()\n- Your Highlight on page 7 | Added on Monday, 1 January 2024 09:00:00\n\nSpice.";
    assert!(parse_quote_block(block).is_none());
}

#[test]
fn empty_title_fails_the_block() {
    let block = "(Frank Herbert)\n- Your Highlight on page 7 | Added on Monday, 1 January 2024 09:00:00\n\nSpice.";
    assert!(parse_quote_block(block).is_none());
}

#[test]
fn title_keeps_inner_parentheses() {
    let block = "Dune (Unabridged) (Frank Herbert)\n- Your Highlight on page 7 | Added on Monday, 1 January 2024 09:00:00\n\nSpice.";
    let c = parse_quote_block(block).expect("block should parse");
    assert_eq!(c.title, "Dune (Unabridged)");
    assert_eq!(c.author, "Frank Herbert");
}

#[test]
fn non_latin_title_and_author_are_kept_verbatim() {
    let block = "砂の惑星 (ハーバート)\n- Your Highlight on page 3 | Added on Monday, 1 January 2024 09:00:00\n\n砂漠.";
    let c = parse_quote_block(block).expect("block should parse");
    assert_eq!(c.title, "砂の惑星");
    assert_eq!(c.author, "ハーバート");
    assert_eq!(c.quote, "砂漠.");
}

#[test]
fn oversized_page_number_becomes_absent() {
    let block = "Dune (Frank Herbert)\n- Your Highlight on page 99999999999 | Location 1-2 | Added on Monday, 1 January 2024 09:00:00\n\nSpice.";
    let c = parse_quote_block(block).expect("block should parse");
    assert_eq!(c.page, None);
    assert_eq!(c.location, Some((1, 2)));
}

#[test]
fn half_open_location_range_becomes_absent() {
    let block = "Dune (Frank Herbert)\n- Your Highlight at location 230- | Added on Monday, 1 January 2024 09:00:00\n\nSpice.";
    let c = parse_quote_block(block).expect("block should parse");
    assert_eq!(c.location, None);
}

#[test]
fn body_keeps_internal_blank_lines_verbatim() {
    let block = "Dune (Frank Herbert)\n- Your Highlight on page 12 | Added on Monday, 1 January 2024 09:00:00\n\nFirst paragraph.\n\nSecond paragraph.";
    let c = parse_quote_block(block).expect("block should parse");
    assert_eq!(c.quote, "First paragraph.\n\nSecond paragraph.");
}

#[test]
fn carriage_return_line_endings_are_tolerated() {
    let block = "Dune (Frank Herbert)\r\n- Your Highlight on page 12 | Location 230-231 | Added on Monday, 1 January 2024 09:00:00\r\n\r\nFear is the mind-killer.";
    let c = parse_quote_block(block).expect("block with CRLF endings should parse");
    assert_eq!(c.title, "Dune");
    assert_eq!(c.page, Some(12));
    assert_eq!(c.location, Some((230, 231)));
    assert_eq!(c.quote, "Fear is the mind-killer.");
}

#[test]
fn attempted_counts_all_blocks_and_successes_only_parses() {
    let text = "Dune (Frank Herbert)\n- Your Highlight on page 12 | Location 230-231 | Added on Monday, 1 January 2024 09:00:00\n\nFear.\n==========\ngarbage block without any structure\n==========\n1984 (Orwell, George)\n- Your Bookmark on page 33 | Added on Friday, 22 July 2021 18:04:09\n==========\n";
    let outcome = parse_clippings(text);
    assert_eq!(outcome.attempted, 3);
    assert_eq!(outcome.clippings.len(), 2);
    assert_eq!(outcome.clippings[0].title, "Dune");
    assert_eq!(outcome.clippings[1].title, "1984");
}

#[test]
fn empty_input_parses_to_nothing() {
    let outcome = parse_clippings("");
    assert_eq!(outcome.attempted, 0);
    assert_eq!(outcome.clippings.len(), 0);
}
