//! What a conversion gives, and the counts of what it met.

use vstd::prelude::*;

verus! {

/// Counts of what a document, or a number of documents, holds.
#[derive(Clone, Copy, Debug)]
pub struct ParseStats {
    pub lines: usize,
    pub paragraphs: usize,
    pub headings: usize,
    pub list_items: usize,
}

/// Counts as mathematical numbers.
pub struct StatsView {
    pub lines: int,
    pub paragraphs: int,
    pub headings: int,
    pub list_items: int,
}

impl View for ParseStats {
    type V = StatsView;

    open spec fn view(&self) -> StatsView {
        StatsView {
            lines: self.lines as int,
            paragraphs: self.paragraphs as int,
            headings: self.headings as int,
            list_items: self.list_items as int,
        }
    }
}

impl StatsView {
    /// No count yet.
    pub open spec fn zero() -> StatsView {
        StatsView { lines: 0, paragraphs: 0, headings: 0, list_items: 0 }
    }

    /// Count by count the sum.
    pub open spec fn plus(self, other: StatsView) -> StatsView {
        StatsView {
            lines: self.lines + other.lines,
            paragraphs: self.paragraphs + other.paragraphs,
            headings: self.headings + other.headings,
            list_items: self.list_items + other.list_items,
        }
    }

    /// Whether the counts fit into machine numbers.
    pub open spec fn fits(self) -> bool {
        &&& 0 <= self.lines <= usize::MAX
        &&& 0 <= self.paragraphs <= usize::MAX
        &&& 0 <= self.headings <= usize::MAX
        &&& 0 <= self.list_items <= usize::MAX
    }
}

impl Default for ParseStats {
    fn default() -> (r: ParseStats)
        ensures
            r@ == StatsView::zero(),
    {
        ParseStats { lines: 0, paragraphs: 0, headings: 0, list_items: 0 }
    }
}

impl ParseStats {
    /// Adds the counts of another document.
    pub fn add(&mut self, rhs: &ParseStats)
        requires
            old(self)@.plus(rhs@).fits(),
        ensures
            final(self)@ == old(self)@.plus(rhs@),
    {
        self.lines = self.lines + rhs.lines;
        self.paragraphs = self.paragraphs + rhs.paragraphs;
        self.headings = self.headings + rhs.headings;
        self.list_items = self.list_items + rhs.list_items;
    }
}

/// Counts of what Markdown has no simple form for.
#[derive(Clone, Copy, Debug)]
pub struct UnsupportedSummary {
    pub tables_converted: usize,
    pub tables_degraded: usize,
    pub images_exported: usize,
    pub images_unresolved: usize,
    pub footnotes_ignored: usize,
    pub equations_ignored: usize,
}

/// The counts as mathematical numbers.
pub struct UnsupportedView {
    pub tables_converted: int,
    pub tables_degraded: int,
    pub images_exported: int,
    pub images_unresolved: int,
    pub footnotes_ignored: int,
    pub equations_ignored: int,
}

impl View for UnsupportedSummary {
    type V = UnsupportedView;

    open spec fn view(&self) -> UnsupportedView {
        UnsupportedView {
            tables_converted: self.tables_converted as int,
            tables_degraded: self.tables_degraded as int,
            images_exported: self.images_exported as int,
            images_unresolved: self.images_unresolved as int,
            footnotes_ignored: self.footnotes_ignored as int,
            equations_ignored: self.equations_ignored as int,
        }
    }
}

impl UnsupportedView {
    /// No count yet.
    pub open spec fn zero() -> UnsupportedView {
        UnsupportedView {
            tables_converted: 0,
            tables_degraded: 0,
            images_exported: 0,
            images_unresolved: 0,
            footnotes_ignored: 0,
            equations_ignored: 0,
        }
    }

    /// Count by count the sum.
    pub open spec fn plus(self, other: UnsupportedView) -> UnsupportedView {
        UnsupportedView {
            tables_converted: self.tables_converted + other.tables_converted,
            tables_degraded: self.tables_degraded + other.tables_degraded,
            images_exported: self.images_exported + other.images_exported,
            images_unresolved: self.images_unresolved + other.images_unresolved,
            footnotes_ignored: self.footnotes_ignored + other.footnotes_ignored,
            equations_ignored: self.equations_ignored + other.equations_ignored,
        }
    }

    /// Whether the counts fit into machine numbers.
    pub open spec fn fits(self) -> bool {
        &&& 0 <= self.tables_converted <= usize::MAX
        &&& 0 <= self.tables_degraded <= usize::MAX
        &&& 0 <= self.images_exported <= usize::MAX
        &&& 0 <= self.images_unresolved <= usize::MAX
        &&& 0 <= self.footnotes_ignored <= usize::MAX
        &&& 0 <= self.equations_ignored <= usize::MAX
    }
}

impl Default for UnsupportedSummary {
    fn default() -> (r: UnsupportedSummary)
        ensures
            r@ == UnsupportedView::zero(),
    {
        UnsupportedSummary {
            tables_converted: 0,
            tables_degraded: 0,
            images_exported: 0,
            images_unresolved: 0,
            footnotes_ignored: 0,
            equations_ignored: 0,
        }
    }
}

impl UnsupportedSummary {
    /// Adds the counts of another document.
    pub fn add(&mut self, rhs: &UnsupportedSummary)
        requires
            old(self)@.plus(rhs@).fits(),
        ensures
            final(self)@ == old(self)@.plus(rhs@),
    {
        self.tables_converted = self.tables_converted + rhs.tables_converted;
        self.tables_degraded = self.tables_degraded + rhs.tables_degraded;
        self.images_exported = self.images_exported + rhs.images_exported;
        self.images_unresolved = self.images_unresolved + rhs.images_unresolved;
        self.footnotes_ignored = self.footnotes_ignored + rhs.footnotes_ignored;
        self.equations_ignored = self.equations_ignored + rhs.equations_ignored;
    }
}

/// A file that goes with a Markdown text.
#[derive(Clone, Debug)]
pub struct AssetFile {
    /// Its path below the directory of the Markdown file, with `/` between the names.
    pub relative_path: String,
    pub bytes: Vec<u8>,
}

/// What an asset holds.
pub struct AssetView {
    pub relative_path: Seq<char>,
    pub bytes: Seq<u8>,
}

impl View for AssetFile {
    type V = AssetView;

    open spec fn view(&self) -> AssetView {
        AssetView { relative_path: self.relative_path@, bytes: self.bytes@ }
    }
}

/// What each asset of a list holds.
pub open spec fn assets_of(assets: Seq<AssetFile>) -> Seq<AssetView> {
    Seq::new(assets.len(), |i: int| assets[i]@)
}

/// A converted document.
#[derive(Clone, Debug)]
pub struct ParsedMarkdown {
    pub markdown: String,
    pub stats: ParseStats,
    pub unsupported: UnsupportedSummary,
    pub assets: Vec<AssetFile>,
}

/// What a converted document holds.
pub struct ParsedView {
    pub markdown: Seq<char>,
    pub stats: StatsView,
    pub unsupported: UnsupportedView,
    pub assets: Seq<AssetView>,
}

impl View for ParsedMarkdown {
    type V = ParsedView;

    open spec fn view(&self) -> ParsedView {
        ParsedView {
            markdown: self.markdown@,
            stats: self.stats@,
            unsupported: self.unsupported@,
            assets: assets_of(self.assets@),
        }
    }
}

} // verus!
