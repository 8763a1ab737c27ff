//! The normalized annotation record and the grouped form the output planner
//! consumes.

use vstd::prelude::*;

verus! {

/// The three annotation kinds the export format can carry. A block whose
/// kind keyword is not one of these fails to parse as a whole; no record
/// with an unknown kind reaches the aggregation stage.
#[derive(Clone, Copy, Debug, PartialEq, Eq, Structural)]
pub enum ClippingType {
    Bookmark,
    Highlight,
    Note,
}

/// A calendar date and time of day, as plain fields. It stands for the
/// moment an annotation was added; the date normalizer fills it from the
/// free-text date segment of a block.
#[derive(Clone, Copy, Debug, PartialEq, Eq, Structural)]
pub struct DateTime {
    pub year: i32,
    /// Month number, 1 to 12.
    pub month: u8,
    /// Day of month, 1 to 31.
    pub day: u8,
    /// Hour of day, 0 to 23.
    pub hour: u8,
    /// Minute, 0 to 59.
    pub minute: u8,
    /// Second, 0 to 59.
    pub second: u8,
}

/// One normalized annotation: the unit that extraction produces from a raw
/// block and that grouping and output planning consume.
#[derive(Clone, Debug)]
pub struct Clipping {
    /// Book title, verbatim as extracted; never empty.
    pub title: String,
    /// Book author, verbatim as extracted; never empty.
    pub author: String,
    pub clipping_type: ClippingType,
    /// Start and end of the location range; both bounds present together or
    /// absent together.
    pub location: Option<(i32, i32)>,
    /// Page marker, independent of the location range.
    pub page: Option<i32>,
    /// When the annotation was added; absent when the date text does not
    /// match the expected format.
    pub added_date: Option<DateTime>,
    /// The annotation body; the empty string for annotations that carry no
    /// body, such as bookmarks.
    pub quote: String,
}

/// The mathematical shape of a [`Clipping`]: its strings as character
/// sequences and its numbers as unbounded integers.
#[verifier::ext_equal]
pub struct ClippingView {
    pub title: Seq<char>,
    pub author: Seq<char>,
    pub clipping_type: ClippingType,
    pub location: Option<(int, int)>,
    pub page: Option<int>,
    pub added_date: Option<DateTime>,
    pub quote: Seq<char>,
}

impl View for Clipping {
    type V = ClippingView;

    open spec fn view(&self) -> ClippingView {
        ClippingView {
            title: self.title@,
            author: self.author@,
            clipping_type: self.clipping_type,
            location: match self.location {
                Some((a, b)) => Some((a as int, b as int)),
                None => None,
            },
            page: match self.page {
                Some(p) => Some(p as int),
                None => None,
            },
            added_date: self.added_date,
            quote: self.quote@,
        }
    }
}

/// The views of a sequence of clippings.
pub open spec fn clipping_views(cs: Seq<Clipping>) -> Seq<ClippingView> {
    cs.map_values(|c: Clipping| c@)
}

/// All records that share one `(author, title)` book identity, in the order
/// they stood in the input.
#[derive(Clone, Debug)]
pub struct BookGroup {
    pub author: String,
    pub title: String,
    pub clippings: Vec<Clipping>,
}

/// The mathematical shape of a [`BookGroup`].
#[verifier::ext_equal]
pub struct BookGroupView {
    pub author: Seq<char>,
    pub title: Seq<char>,
    pub clippings: Seq<ClippingView>,
}

impl View for BookGroup {
    type V = BookGroupView;

    open spec fn view(&self) -> BookGroupView {
        BookGroupView {
            author: self.author@,
            title: self.title@,
            clippings: clipping_views(self.clippings@),
        }
    }
}

/// The views of a sequence of book groups.
pub open spec fn group_views(gs: Seq<BookGroup>) -> Seq<BookGroupView> {
    gs.map_values(|g: BookGroup| g@)
}

} // verus!
