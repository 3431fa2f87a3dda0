use vstd::prelude::*;

use crate::layout_context::Point;
use crate::model::{CanvasMode, GeometryNode, Page, PageConfig};
use crate::pt::Pt;
use crate::text::{decimal, join, owned};

verus! {

/// Magnitude bound for page geometry (sizes and margins).
pub open spec fn page_bound() -> int {
    0x10_0000_0000_0000_0000_0000_0000 // 2^100
}

/// Magnitude bound for the running cursor and the heights added to it.
pub open spec fn cursor_bound() -> int {
    0x1000_0000_0000_0000_0000_0000_0000_0000 // 2^124
}

pub open spec fn page_len_ok(x: Pt) -> bool {
    -page_bound() <= x.0 <= page_bound()
}

pub open spec fn cursor_ok(x: Pt) -> bool {
    -cursor_bound() <= x.0 <= cursor_bound()
}

/// Page geometry whose arithmetic stays inside `i128`.
pub open spec fn page_config_ok(c: PageConfig) -> bool {
    &&& page_len_ok(c.width)
    &&& page_len_ok(c.height)
    &&& forall|i: int| 0 <= i < 4 ==> #[trigger] page_len_ok(c.margin@[i])
}

pub open spec fn content_width_spec(c: PageConfig) -> int {
    c.width.0 - c.margin@[1].0 - c.margin@[3].0
}

pub open spec fn content_height_spec(c: PageConfig) -> int {
    c.height.0 - c.margin@[0].0 - c.margin@[2].0
}

/// Returns the available content width inside the page margins.
pub fn content_width(page_config: &PageConfig) -> (r: Pt)
    requires
        page_config_ok(*page_config),
    ensures
        r.0 == content_width_spec(*page_config),
{
    proof {
        assert(page_len_ok(page_config.margin@[1]));
        assert(page_len_ok(page_config.margin@[3]));
    }
    Pt(page_config.width.0 - page_config.margin[1].0 - page_config.margin[3].0)
}

/// Returns the available content height inside the page margins.
pub fn content_height(page_config: &PageConfig) -> (r: Pt)
    requires
        page_config_ok(*page_config),
    ensures
        r.0 == content_height_spec(*page_config),
{
    proof {
        assert(page_len_ok(page_config.margin@[0]));
        assert(page_len_ok(page_config.margin@[2]));
    }
    Pt(page_config.height.0 - page_config.margin[0].0 - page_config.margin[2].0)
}

/// A page configuration the layout engine accepts.
pub open spec fn page_config_valid(c: PageConfig) -> bool {
    &&& c.width.0 > 0
    &&& c.height.0 > 0
    &&& forall|i: int| 0 <= i < 4 ==> #[trigger] c.margin@[i].0 >= 0
    &&& content_width_spec(c) >= 0
    &&& content_height_spec(c) >= 0
}

/// Validates `PageConfig` for consistent margin behavior.
///
/// This is a layout-engine concern (not semantic-tree validation).
pub fn validate_page_config(page_config: &PageConfig) -> (r: Result<(), String>)
    requires
        page_config_ok(*page_config),
    ensures
        r is Ok <==> page_config_valid(*page_config),
{
    let w = page_config.width;
    let h = page_config.height;
    if w.0 <= 0 {
        let m = join(join(owned("Invalid PageConfig.width: "), decimal(w.0).as_str()), " (must be > 0)");
        return Err(m);
    }
    if h.0 <= 0 {
        let m = join(join(owned("Invalid PageConfig.height: "), decimal(h.0).as_str()), " (must be > 0)");
        return Err(m);
    }
    let top = page_config.margin[0];
    let right = page_config.margin[1];
    let bottom = page_config.margin[2];
    let left = page_config.margin[3];
    if top.0 < 0 {
        let m = join(join(owned("Invalid PageConfig.margin.top: "), decimal(top.0).as_str()), " (must be >= 0)");
        return Err(m);
    }
    if right.0 < 0 {
        let m = join(join(owned("Invalid PageConfig.margin.right: "), decimal(right.0).as_str()), " (must be >= 0)");
        return Err(m);
    }
    if bottom.0 < 0 {
        let m = join(join(owned("Invalid PageConfig.margin.bottom: "), decimal(bottom.0).as_str()), " (must be >= 0)");
        return Err(m);
    }
    if left.0 < 0 {
        let m = join(join(owned("Invalid PageConfig.margin.left: "), decimal(left.0).as_str()), " (must be >= 0)");
        return Err(m);
    }
    let cw = content_width(page_config);
    if cw.0 < 0 {
        let m = join(
            join(owned("Invalid PageConfig margins: left+right exceed width (content_width="), decimal(cw.0).as_str()),
            ")",
        );
        return Err(m);
    }
    let ch = content_height(page_config);
    if ch.0 < 0 {
        let m = join(
            join(owned("Invalid PageConfig margins: top+bottom exceed height (content_height="), decimal(ch.0).as_str()),
            ")",
        );
        return Err(m);
    }
    proof {
        assert forall|i: int| 0 <= i < 4 implies #[trigger] page_config.margin@[i].0 >= 0 by {
            if i == 0 {
            } else if i == 1 {
            } else if i == 2 {
            } else {
            }
        }
    }
    Ok(())
}

/// Active multi-column packing region on the current page.
#[derive(Debug, Clone)]
pub struct ColumnBand {
    pub content_x: Pt,
    pub column_widths: Vec<Pt>,
    pub gap: Pt,
    pub col: usize,
    pub band_top: Pt,
    pub band_bottom: Pt,
    /// Highest y reached by any column in this band (used when exiting).
    pub used_max_y: Pt,
}

/// Left edge of column `k` of a band: the band's start plus each earlier column and gap.
pub open spec fn column_x_spec(content_x: int, widths: Seq<Pt>, gap: int, k: int) -> int
    decreases k,
{
    if k <= 0 {
        content_x
    } else {
        column_x_spec(content_x, widths, gap, k - 1) + widths[k - 1].0 + gap
    }
}

impl ColumnBand {
    /// A band whose geometry stays inside `i128` and whose current column exists.
    pub open spec fn wf(&self) -> bool {
        &&& self.column_widths.len() <= 0x10000
        &&& self.col < self.column_widths.len()
        &&& page_len_ok(self.content_x)
        &&& page_len_ok(self.gap)
        &&& forall|i: int| 0 <= i < self.column_widths.len() ==> #[trigger] page_len_ok(self.column_widths[i])
    }

    pub fn count(&self) -> (r: usize)
        ensures
            r == self.column_widths.len(),
    {
        self.column_widths.len()
    }

    /// Left edge of the current column.
    pub fn column_x(&self) -> (r: Pt)
        requires
            self.wf(),
        ensures
            r.0 == column_x_spec(self.content_x.0 as int, self.column_widths@, self.gap.0 as int, self.col as int),
    {
        band_column_x(self.content_x, &self.column_widths, self.gap, self.col)
    }

    /// Width of the current column.
    pub fn column_width(&self) -> (r: Pt)
        requires
            self.col < self.column_widths.len(),
        ensures
            r == self.column_widths[self.col as int],
    {
        self.column_widths[self.col]
    }
}

pub proof fn lemma_column_x_bound(content_x: int, widths: Seq<Pt>, gap: int, k: int)
    requires
        0 <= k <= widths.len(),
        -page_bound() <= content_x <= page_bound(),
        -page_bound() <= gap <= page_bound(),
        forall|i: int| 0 <= i < widths.len() ==> #[trigger] page_len_ok(widths[i]),
    ensures
        -(2 * k + 1) * page_bound() <= column_x_spec(content_x, widths, gap, k) <= (2 * k + 1) * page_bound(),
    decreases k,
{
    if k > 0 {
        lemma_column_x_bound(content_x, widths, gap, k - 1);
        assert(page_len_ok(widths[k - 1]));
    }
}

fn band_column_x(content_x: Pt, widths: &Vec<Pt>, gap: Pt, col: usize) -> (r: Pt)
    requires
        col <= widths.len() <= 0x10000,
        page_len_ok(content_x),
        page_len_ok(gap),
        forall|i: int| 0 <= i < widths.len() ==> #[trigger] page_len_ok(widths[i]),
    ensures
        r.0 == column_x_spec(content_x.0 as int, widths@, gap.0 as int, col as int),
{
    let mut x = content_x.0;
    let mut i: usize = 0;
    while i < col
        invariant
            i <= col <= widths.len() <= 0x10000,
            page_len_ok(content_x),
            page_len_ok(gap),
            forall|q: int| 0 <= q < widths.len() ==> #[trigger] page_len_ok(widths[q]),
            x == column_x_spec(content_x.0 as int, widths@, gap.0 as int, i as int),
        decreases col - i,
    {
        proof {
            lemma_column_x_bound(content_x.0 as int, widths@, gap.0 as int, (i + 1) as int);
            assert((2 * (i + 1) + 1) * page_bound() <= 0x40_0000_0000_0000_0000_0000_0000_0000) by (nonlinear_arith)
                requires
                    i + 1 <= 0x10000,
            ;
            assert(page_len_ok(widths[i as int]));
        }
        x = x + widths[i].0 + gap.0;
        i = i + 1;
    }
    Pt(x)
}

/// Name of the root box of page `index` (`root_page_<index>`).
pub open spec fn page_root_name(index: usize) -> Seq<char> {
    "root_page_"@ + crate::text::decimal_text(index as int)
}

/// Root box id of page `index`, formatted as `root_page_<index>`.
fn page_root_id(index: usize) -> (r: String)
    ensures
        r@ == page_root_name(index),
{
    let n = decimal(index as i128);
    join(owned("root_page_"), n.as_str())
}

/// A fresh, empty page of the configured size.
fn blank_page(index: usize, page_config: &PageConfig) -> (r: Page)
    ensures
        r.index == index,
        r.width == page_config.width,
        r.height == page_config.height,
        r.root.id@ == page_root_name(index),
        r.root.x.0 == 0,
        r.root.y.0 == 0,
        r.root.width == page_config.width,
        r.root.height == page_config.height,
        r.root.glyphs@.len() == 0,
        r.root.text_runs@.len() == 0,
        r.root.fill_rects@.len() == 0,
        r.root.children@.len() == 0,
{
    Page {
        index,
        width: page_config.width,
        height: page_config.height,
        root: GeometryNode {
            id: page_root_id(index),
            x: Pt(0),
            y: Pt(0),
            width: page_config.width,
            height: page_config.height,
            glyphs: Vec::new(),
            text_runs: Vec::new(),
            fill_rects: Vec::new(),
            children: Vec::new(),
        },
    }
}

/// `nb` is band `b` restarted at its first column over `[top, bottom)` of a fresh page.
pub open spec fn band_restarted(nb: ColumnBand, b: ColumnBand, top: int, bottom: int) -> bool {
    &&& nb.content_x == b.content_x
    &&& nb.column_widths@ == b.column_widths@
    &&& nb.gap == b.gap
    &&& nb.col == 0
    &&& nb.band_top.0 == top
    &&& nb.band_bottom.0 == bottom
    &&& nb.used_max_y.0 == top
}

pub struct Paginator {
    pub pages: Vec<Page>,
    pub current_page_index: usize,
    pub current_y: Pt,
    pub page_config: PageConfig,
    pub mode: CanvasMode,
    pub column_band: Option<ColumnBand>,
}

impl Paginator {
    /// The paginator's standing invariant: one page per index up to the current one,
    /// bounded page geometry and, when a band is active, a valid current column.
    pub open spec fn wf(&self) -> bool {
        &&& self.pages.len() == self.current_page_index + 1
        &&& self.current_page_index < usize::MAX
        &&& forall|i: int| 0 <= i < self.pages.len() ==> (#[trigger] self.pages[i]).index == i
        &&& page_config_ok(self.page_config)
        &&& cursor_ok(self.current_y)
        &&& match self.column_band {
            Some(b) => b.wf() && cursor_ok(b.band_top) && cursor_ok(b.band_bottom) && cursor_ok(b.used_max_y),
            None => true,
        }
    }

    /// Bottom of the page content area.
    pub open spec fn page_bottom_spec(&self) -> int {
        self.page_config.height.0 - self.page_config.margin@[2].0
    }

    /// Bottom of the current packing region (band bottom inside a band).
    pub open spec fn region_bottom_spec(&self) -> int {
        match self.column_band {
            Some(b) => b.band_bottom.0 as int,
            None => self.page_bottom_spec(),
        }
    }

    pub fn new(page_config: PageConfig, mode: CanvasMode) -> (r: Self)
        requires
            page_config_ok(page_config),
        ensures
            r.wf(),
            r.pages.len() == 1,
            r.pages[0].width == page_config.width,
            r.pages[0].height == page_config.height,
            r.pages[0].root.id@ == page_root_name(0),
            r.pages[0].root.children@.len() == 0,
            r.current_page_index == 0,
            r.current_y == page_config.margin@[0],
            r.page_config == page_config,
            r.mode == mode,
            r.column_band is None,
    {
        let first_page = blank_page(0, &page_config);
        let top = page_config.margin[0];
        proof {
            assert(page_len_ok(page_config.margin@[0]));
        }
        let mut pages: Vec<Page> = Vec::new();
        pages.push(first_page);
        Paginator { pages, current_page_index: 0, current_y: top, page_config, mode, column_band: None }
    }

    /// Left edge of the page content area.
    pub fn content_left(&self) -> (r: Pt)
        ensures
            r == self.page_config.margin@[3],
    {
        self.page_config.margin[3]
    }

    /// Bottom of the page content area.
    pub fn page_bottom_limit(&self) -> (r: Pt)
        requires
            page_config_ok(self.page_config),
        ensures
            r.0 == self.page_bottom_spec(),
    {
        proof {
            assert(page_len_ok(self.page_config.margin@[2]));
        }
        Pt(self.page_config.height.0 - self.page_config.margin[2].0)
    }

    /// Begin packing into equal column slots within `[band_top, band_bottom)`.
    pub fn enter_column_band(
        &mut self,
        content_x: Pt,
        column_widths: Vec<Pt>,
        gap: Pt,
        band_top: Pt,
        band_bottom: Pt,
    ) -> (r: Result<(), String>)
        requires
            old(self).wf(),
            column_widths.len() <= 0x10000,
            page_len_ok(content_x),
            page_len_ok(gap),
            forall|i: int| 0 <= i < column_widths.len() ==> #[trigger] page_len_ok(column_widths[i]),
            cursor_ok(band_top),
            cursor_ok(band_bottom),
        ensures
            final(self).wf(),
            r is Ok <==> (column_widths.len() > 0 && band_bottom.0 >= band_top.0),
            r is Err ==> *final(self) == *old(self),
            r is Ok ==> final(self).column_band == Some(
                ColumnBand {
                    content_x,
                    column_widths,
                    gap,
                    col: 0,
                    band_top,
                    band_bottom,
                    used_max_y: band_top,
                },
            ),
            r is Ok ==> final(self).current_y == band_top,
            r is Ok ==> final(self).pages == old(self).pages,
            r is Ok ==> final(self).current_page_index == old(self).current_page_index,
            final(self).page_config == old(self).page_config,
            final(self).mode == old(self).mode,
    {
        if column_widths.len() == 0 {
            return Err(owned("column band requires at least one column"));
        }
        if band_bottom.0 < band_top.0 {
            let m = join(
                join(join(owned("invalid column band: bottom "), decimal(band_bottom.0).as_str()), " < top "),
                decimal(band_top.0).as_str(),
            );
            return Err(m);
        }
        self.column_band = Some(
            ColumnBand {
                content_x,
                column_widths,
                gap,
                col: 0,
                band_top,
                band_bottom,
                used_max_y: band_top,
            },
        );
        self.current_y = band_top;
        Ok(())
    }

    /// Leave the column band; `current_y` becomes the max y used across columns.
    pub fn exit_column_band(&mut self)
        requires
            old(self).wf(),
        ensures
            final(self).wf(),
            final(self).column_band is None,
            final(self).current_y == match old(self).column_band {
                Some(b) => b.used_max_y,
                None => old(self).current_y,
            },
            final(self).pages == old(self).pages,
            final(self).current_page_index == old(self).current_page_index,
            final(self).page_config == old(self).page_config,
            final(self).mode == old(self).mode,
    {
        let band = self.column_band.take();
        match band {
            Some(b) => {
                self.current_y = b.used_max_y;
            },
            None => {},
        }
    }

    pub fn in_column_band(&self) -> (r: bool)
        ensures
            r == (self.column_band is Some),
    {
        self.column_band.is_some()
    }

    /// Height left in the current packing region (page content or column band).
    pub fn remaining_height(&self) -> (r: Pt)
        requires
            self.wf(),
        ensures
            self.mode == CanvasMode::Infinite ==> r.0 == i128::MAX,
            self.mode != CanvasMode::Infinite ==> r.0 == if self.current_y.0 >= self.region_bottom_spec() {
                0
            } else {
                self.region_bottom_spec() - self.current_y.0
            },
    {
        if self.mode == CanvasMode::Infinite {
            return Pt(i128::MAX);
        }
        proof {
            assert(page_len_ok(self.page_config.margin@[2]));
        }
        let bottom_limit = match &self.column_band {
            Some(b) => b.band_bottom,
            None => self.page_bottom_limit(),
        };
        if self.current_y.0 >= bottom_limit.0 {
            Pt(0)
        } else {
            Pt(bottom_limit.0 - self.current_y.0)
        }
    }

    /// True when at the top of the current packing region (page content or column band).
    pub fn at_content_top(&self) -> (r: bool)
        ensures
            r == match self.column_band {
                Some(b) => self.current_y == b.band_top,
                None => self.current_y == self.page_config.margin@[0],
            },
    {
        match &self.column_band {
            Some(b) => self.current_y.0 == b.band_top.0,
            None => self.current_y.0 == self.page_config.margin[0].0,
        }
    }

    /// Height of the current packing region.
    pub fn page_content_height(&self) -> (r: Pt)
        requires
            self.wf(),
        ensures
            r.0 == match self.column_band {
                Some(b) => b.band_bottom.0 - b.band_top.0,
                None => content_height_spec(self.page_config),
            },
    {
        match &self.column_band {
            Some(b) => Pt(b.band_bottom.0 - b.band_top.0),
            None => content_height(&self.page_config),
        }
    }

    /// Remaining height from the page's current y to the page bottom (ignores band).
    pub fn remaining_page_height(&self) -> (r: Pt)
        requires
            self.wf(),
        ensures
            self.mode == CanvasMode::Infinite ==> r.0 == i128::MAX,
            self.mode != CanvasMode::Infinite ==> r.0 == if self.current_y.0 >= self.page_bottom_spec() {
                0
            } else {
                self.page_bottom_spec() - self.current_y.0
            },
    {
        if self.mode == CanvasMode::Infinite {
            return Pt(i128::MAX);
        }
        proof {
            assert(page_len_ok(self.page_config.margin@[2]));
        }
        let bottom = self.page_bottom_limit();
        if self.current_y.0 >= bottom.0 {
            Pt(0)
        } else {
            Pt(bottom.0 - self.current_y.0)
        }
    }

    fn add_new_page(&mut self)
        requires
            old(self).wf(),
            old(self).current_page_index + 1 < usize::MAX,
        ensures
            final(self).wf(),
            final(self).current_page_index == old(self).current_page_index + 1,
            final(self).pages@.len() == old(self).pages@.len() + 1,
            forall|i: int| 0 <= i < old(self).pages@.len() ==> #[trigger] final(self).pages[i] == old(self).pages[i],
            final(self).pages[final(self).current_page_index as int].root.children@.len() == 0,
            final(self).pages[final(self).current_page_index as int].root.id@ == page_root_name(
                final(self).current_page_index,
            ),
            final(self).pages[final(self).current_page_index as int].height == old(self).page_config.height,
            final(self).current_y == old(self).page_config.margin@[0],
            final(self).column_band is None,
            final(self).page_config == old(self).page_config,
            final(self).mode == old(self).mode,
    {
        self.current_page_index = self.current_page_index + 1;
        let page = blank_page(self.current_page_index, &self.page_config);
        self.pages.push(page);
        proof {
            assert(page_len_ok(self.page_config.margin@[0]));
        }
        self.current_y = self.page_config.margin[0];
        self.column_band = None;
    }

    /// Force a page break in paged mode. No-op in infinite mode.
    /// Preserves an active column band geometry on the new page (full page height).
    pub fn page_break(&mut self)
        requires
            old(self).wf(),
            old(self).current_page_index + 1 < usize::MAX,
        ensures
            final(self).wf(),
            old(self).mode != CanvasMode::Paged ==> *final(self) == *old(self),
            old(self).mode == CanvasMode::Paged ==> {
                &&& final(self).current_page_index == old(self).current_page_index + 1
                &&& final(self).pages@.len() == old(self).pages@.len() + 1
                &&& forall|i: int| 0 <= i < old(self).pages@.len() ==> #[trigger] final(self).pages[i] == old(self).pages[i]
                &&& final(self).pages[final(self).current_page_index as int].root.children@.len() == 0
                &&& final(self).pages[final(self).current_page_index as int].root.id@ == page_root_name(
                    final(self).current_page_index,
                )
                &&& final(self).pages[final(self).current_page_index as int].height == old(self).page_config.height
                &&& final(self).current_y.0 == old(self).page_config.margin@[0].0
                &&& match old(self).column_band {
                    None => final(self).column_band is None,
                    Some(b) => if old(self).page_bottom_spec() >= old(self).page_config.margin@[0].0 {
                        final(self).column_band matches Some(nb) && band_restarted(
                            nb,
                            b,
                            old(self).page_config.margin@[0].0 as int,
                            old(self).page_bottom_spec(),
                        )
                    } else {
                        final(self).column_band is None
                    },
                }
            },
            final(self).page_config == old(self).page_config,
            final(self).mode == old(self).mode,
    {
        if self.mode != CanvasMode::Paged {
            return;
        }
        let resume = match &self.column_band {
            Some(b) => {
                let widths = b.column_widths.clone();
                assert(widths@ =~= b.column_widths@);
                Some((b.content_x, widths, b.gap))
            },
            None => None,
        };
        self.add_new_page();
        match resume {
            Some((content_x, widths, gap)) => {
                let top = self.page_config.margin[0];
                let bottom = self.page_bottom_limit();
                proof {
                    assert(page_len_ok(self.page_config.margin@[0]));
                    assert(page_len_ok(self.page_config.margin@[2]));
                }
                let _ = self.enter_column_band(content_x, widths, gap, top, bottom);
            },
            None => {},
        }
    }

    /// Advance to the next column in the band. Returns true if a page break was taken.
    pub fn column_break(&mut self) -> (r: Result<bool, String>)
        requires
            old(self).wf(),
            old(self).current_page_index + 1 < usize::MAX,
        ensures
            final(self).wf(),
            old(self).column_band is None ==> r is Err && *final(self) == *old(self),
            old(self).column_band matches Some(b) ==> {
                if b.col + 1 < b.column_widths.len() {
                    &&& r == Ok::<bool, String>(false)
                    &&& final(self).column_band == Some(ColumnBand { col: (b.col + 1) as usize, ..b })
                    &&& final(self).current_y == b.band_top
                    &&& final(self).pages == old(self).pages
                    &&& final(self).current_page_index == old(self).current_page_index
                } else {
                    &&& r == Ok::<bool, String>(true)
                    &&& old(self).mode == CanvasMode::Paged ==> {
                        &&& final(self).current_page_index == old(self).current_page_index + 1
                        &&& final(self).pages@.len() == old(self).pages@.len() + 1
                        &&& forall|i: int| 0 <= i < old(self).pages@.len() ==> #[trigger] final(self).pages[i] == old(self).pages[i]
                        &&& final(self).current_y.0 == old(self).page_config.margin@[0].0
                        &&& old(self).page_bottom_spec() >= old(self).page_config.margin@[0].0 ==> (final(self).column_band matches Some(nb) && band_restarted(
                            nb,
                            b,
                            old(self).page_config.margin@[0].0 as int,
                            old(self).page_bottom_spec(),
                        ))
                        &&& old(self).page_bottom_spec() < old(self).page_config.margin@[0].0 ==> final(self).column_band is None
                    }
                }
            },
            final(self).page_config == old(self).page_config,
            final(self).mode == old(self).mode,
    {
        let next = match &self.column_band {
            None => {
                return Err(owned("column_break without active column band"));
            },
            Some(band) => {
                if band.col + 1 < band.count() {
                    Some((band.col + 1, band.band_top))
                } else {
                    None
                }
            },
        };
        match next {
            Some((col, top)) => {
                let mut band = self.column_band.take().unwrap();
                band.col = col;
                self.column_band = Some(band);
                self.current_y = top;
                Ok(false)
            },
            None => {
                self.page_break();
                Ok(true)
            },
        }
    }

    /// Reserve `height` at the current cursor and return where it starts.
    pub fn allocate_space(&mut self, height: Pt) -> (r: Point)
        requires
            old(self).wf(),
            -cursor_bound() / 2 <= height.0 <= cursor_bound() / 2,
            -cursor_bound() <= old(self).current_y.0 + height.0 <= cursor_bound(),
            old(self).current_page_index + 1 < usize::MAX,
        ensures
            final(self).wf(),
            final(self).page_config == old(self).page_config,
            final(self).mode == old(self).mode,
            // Infinite canvas: one page that grows to hold the cursor plus the bottom margin.
            old(self).mode == CanvasMode::Infinite ==> {
                &&& r == Point { x: old(self).page_config.margin@[3], y: old(self).current_y }
                &&& final(self).current_y.0 == old(self).current_y.0 + height.0
                &&& final(self).current_page_index == old(self).current_page_index
                &&& final(self).column_band == old(self).column_band
                &&& final(self).pages@.len() == old(self).pages@.len()
                &&& final(self).pages[0].height.0 == if old(self).current_y.0 + height.0
                    + old(self).page_config.margin@[2].0 > old(self).pages[0].height.0 {
                    old(self).current_y.0 + height.0 + old(self).page_config.margin@[2].0
                } else {
                    old(self).pages[0].height.0 as int
                }
            },
            // Inside a column band: the current column, never a page break.
            old(self).mode != CanvasMode::Infinite && old(self).column_band is Some ==> {
                let b = old(self).column_band->Some_0;
                &&& r.x.0 == column_x_spec(b.content_x.0 as int, b.column_widths@, b.gap.0 as int, b.col as int)
                &&& r.y == old(self).current_y
                &&& final(self).current_y.0 == old(self).current_y.0 + height.0
                &&& final(self).pages == old(self).pages
                &&& final(self).current_page_index == old(self).current_page_index
                &&& final(self).column_band == Some(
                    ColumnBand {
                        used_max_y: if final(self).current_y.0 > b.used_max_y.0 {
                            final(self).current_y
                        } else {
                            b.used_max_y
                        },
                        ..b
                    },
                )
            },
            // Paged flow: a new page when the block would cross the bottom margin.
            old(self).mode != CanvasMode::Infinite && old(self).column_band is None ==> {
                let breaks = old(self).current_y.0 + height.0 > old(self).page_bottom_spec();
                &&& r.x == old(self).page_config.margin@[3]
                &&& r.y == if breaks {
                    old(self).page_config.margin@[0]
                } else {
                    old(self).current_y
                }
                &&& final(self).current_y.0 == r.y.0 + height.0
                &&& final(self).current_page_index == old(self).current_page_index + if breaks {
                    1usize
                } else {
                    0usize
                }
                &&& final(self).column_band is None
                &&& forall|i: int| 0 <= i < old(self).pages@.len() ==> #[trigger] final(self).pages[i] == old(self).pages[i]
            },
    {
        if self.mode == CanvasMode::Infinite {
            proof {
                assert(page_len_ok(self.page_config.margin@[3]));
                assert(page_len_ok(self.page_config.margin@[2]));
            }
            let pos = Point::new(self.page_config.margin[3], self.current_y);
            self.current_y = Pt(self.current_y.0 + height.0);
            let bottom = self.current_y.0 + self.page_config.margin[2].0;
            if bottom > self.pages[0].height.0 {
                let mut page = self.pages.remove(0);
                page.height = Pt(bottom);
                page.root.height = Pt(bottom);
                self.pages.insert(0, page);
            }
            proof {
                assert forall|i: int| 0 <= i < self.pages.len() implies (#[trigger] self.pages[i]).index == i by {
                    if i == 0 {
                    }
                }
            }
            return pos;
        }
        if self.column_band.is_some() {
            let x = match &self.column_band {
                Some(band) => band_column_x(band.content_x, &band.column_widths, band.gap, band.col),
                None => Pt(0),
            };
            let pos = Point::new(x, self.current_y);
            self.current_y = Pt(self.current_y.0 + height.0);
            let y = self.current_y;
            let mut band = self.column_band.take().unwrap();
            if y.0 > band.used_max_y.0 {
                band.used_max_y = y;
            }
            self.column_band = Some(band);
            return pos;
        }
        let bottom_limit = self.page_bottom_limit();
        if self.current_y.0 + height.0 > bottom_limit.0 {
            self.add_new_page();
            proof {
                assert(page_len_ok(self.page_config.margin@[0]));
            }
        }
        proof {
            assert(page_len_ok(self.page_config.margin@[3]));
            assert(page_len_ok(self.page_config.margin@[0]));
        }
        let pos = Point::new(self.page_config.margin[3], self.current_y);
        self.current_y = Pt(self.current_y.0 + height.0);
        pos
    }

    /// Append a placed box to the current page.
    pub fn add_item(&mut self, item: GeometryNode)
        requires
            old(self).wf(),
        ensures
            final(self).wf(),
            final(self).current_page_index == old(self).current_page_index,
            final(self).current_y == old(self).current_y,
            final(self).column_band == old(self).column_band,
            final(self).page_config == old(self).page_config,
            final(self).mode == old(self).mode,
            final(self).pages@.len() == old(self).pages@.len(),
            forall|i: int|
                0 <= i < old(self).pages@.len() && i != old(self).current_page_index ==> #[trigger] final(self).pages[i]
                    == old(self).pages[i],
            final(self).pages[old(self).current_page_index as int].root.children@ == old(
                self,
            ).pages[old(self).current_page_index as int].root.children@.push(item),
    {
        let idx = self.current_page_index;
        let mut page = self.pages.remove(idx);
        page.root.children.push(item);
        self.pages.insert(idx, page);
        proof {
            assert forall|i: int| 0 <= i < self.pages.len() implies (#[trigger] self.pages[i]).index == i by {
                if i == idx as int {
                } else {
                }
            }
        }
    }
}

} // verus!
