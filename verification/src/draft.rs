//! A Markdown text in the making.

use vstd::prelude::*;

use crate::summary::{
    assets_of,
    AssetFile,
    AssetView,
    ParseStats,
    StatsView,
    UnsupportedSummary,
    UnsupportedView,
};
use crate::text::texts;

verus! {

/// The lines, counts and assets that a document has given so far.
#[derive(Debug)]
pub struct Draft {
    pub lines: Vec<String>,
    pub stats: ParseStats,
    pub unsupported: UnsupportedSummary,
    pub assets: Vec<AssetFile>,
    /// The number of the next image.
    pub image_index: usize,
}

/// What a draft holds.
#[verifier::ext_equal]
pub struct DraftView {
    pub lines: Seq<Seq<char>>,
    pub stats: StatsView,
    pub unsupported: UnsupportedView,
    pub assets: Seq<AssetView>,
    pub image_index: int,
}

impl View for Draft {
    type V = DraftView;

    open spec fn view(&self) -> DraftView {
        DraftView {
            lines: texts(self.lines@),
            stats: self.stats@,
            unsupported: self.unsupported@,
            assets: assets_of(self.assets@),
            image_index: self.image_index as int,
        }
    }
}

impl DraftView {
    /// A draft of nothing.
    pub open spec fn empty() -> DraftView {
        DraftView {
            lines: seq![],
            stats: StatsView::zero(),
            unsupported: UnsupportedView::zero(),
            assets: seq![],
            image_index: 1,
        }
    }

    /// The draft with one more line.
    pub open spec fn line(self, line: Seq<char>) -> DraftView {
        DraftView { lines: self.lines.push(line), ..self }
    }

    /// Whether no count is above `n`, and no more than `n` images have been numbered.
    pub open spec fn within(self, n: int) -> bool {
        &&& 0 <= self.stats.paragraphs <= n
        &&& 0 <= self.stats.headings <= n
        &&& 0 <= self.stats.list_items <= n
        &&& 0 <= self.unsupported.tables_converted <= n
        &&& 0 <= self.unsupported.tables_degraded <= n
        &&& 0 <= self.unsupported.images_exported <= n
        &&& 0 <= self.unsupported.images_unresolved <= n
        &&& 1 <= self.image_index <= n + 1
    }

    /// Whether the counts, and the number of the next image, fit into machine numbers.
    pub open spec fn fits(self) -> bool {
        &&& self.stats.fits()
        &&& self.unsupported.fits()
        &&& 0 <= self.image_index <= usize::MAX
    }
}

impl Draft {
    /// A draft of nothing.
    pub fn new() -> (r: Draft)
        ensures
            r@ == DraftView::empty(),
    {
        let r = Draft {
            lines: Vec::new(),
            stats: ParseStats::default(),
            unsupported: UnsupportedSummary::default(),
            assets: Vec::new(),
            image_index: 1,
        };
        assert(r@ =~= DraftView::empty());
        r
    }

    /// Adds a line.
    pub fn push_line(&mut self, line: String)
        ensures
            final(self)@ == old(self)@.line(line@),
    {
        self.lines.push(line);
        assert(self@ =~= old(self)@.line(line@));
    }

    /// Adds an empty line.
    pub fn push_blank(&mut self)
        ensures
            final(self)@ == old(self)@.line(seq![]),
    {
        self.push_line(String::new());
    }
}

} // verus!
