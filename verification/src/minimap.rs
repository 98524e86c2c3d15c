use vstd::prelude::*;

use crate::coords::{DocByte, DocLine, VisualCol};
use crate::lines::{
    NL, TAB, nl_count, lemma_nl_count_step, lemma_nl_count_bound, lemma_line_start_pos,
    lemma_nl_count_take_full, is_line_start, line_content, line_start_pos,
};
use crate::pipeline::{str_from_utf8, viewport_highlights, SvpPipeline};
use crate::highlight::{
    category_for_byte, category_index, spec_category_for_byte, spec_category_index, starts_sorted,
    ends_sorted, kept_lexical, merge_highlights, HighlightSpan, UNCLASSIFIED_INDEX,
};
use vstd::utf8::{valid_utf8, decode_utf8};

verus! {

/// Largest document, in bytes, that gets a per-character preview.
pub const MAX_PREVIEW_MINIMAP_BYTES: u64 = 2097152;

/// Largest document, in lines, that gets a per-character preview.
pub const MAX_PREVIEW_MINIMAP_LINES: u32 = 8192;

/// Number of vertical bands of the overview minimap.
pub const MINIMAP_BANDS: usize = 256;

/// Number of horizontal bins of a preview row.
pub const PREVIEW_BIN_COLUMNS: usize = 192;

/// Line length assumed for binary content without newlines.
pub const BYTE_FALLBACK_NO_NEWLINE_AVG_LINE_CAP: usize = 80;

/// Widest line, in columns, that a preview row measures.
pub const MAX_PREVIEW_LOGICAL_COLUMNS: u16 = 240;

/// Bin value of a preview cell with no text.
pub const EMPTY_PREVIEW_BIN: u8 = 255;

/// What the minimap draws over the document: the viewport, the cursor and search hits.
#[derive(Debug, Clone, PartialEq, Eq)]
pub struct MinimapOverlay {
    pub total_lines: u32,
    pub viewport_start_line: DocLine,
    pub viewport_end_line: DocLine,
    pub viewport_line_count: u32,
    pub cursor_line: DocLine,
    pub search_bands: Vec<u8>,
    pub active_search_band: Option<usize>,
}

/// `a + b` saturating at `u32::MAX`.
pub open spec fn sat_add_u32(a: u32, b: int) -> u32 {
    if a + b > u32::MAX {
        u32::MAX
    } else {
        (a + b) as u32
    }
}

/// `n` zero bytes.
fn zero_bands(n: usize) -> (r: Vec<u8>)
    ensures
        r@ == Seq::new(n as nat, |i: int| 0u8),
{
    let mut v: Vec<u8> = Vec::new();
    let mut i: usize = 0;
    while i < n
        invariant
            i <= n,
            v@ == Seq::new(i as nat, |k: int| 0u8),
        decreases n - i,
    {
        v.push(0);
        i = i + 1;
        assert(v@ =~= Seq::new(i as nat, |k: int| 0u8));
    }
    v
}

impl MinimapOverlay {
    /// An overlay for a one-line document with the viewport at `viewport_start_line`,
    /// no search hits, and the viewport end one past its last line.
    pub fn new(viewport_start_line: DocLine, viewport_line_count: u32, cursor_line: DocLine) -> (r:
        Self)
        ensures
            r.total_lines == 1,
            r.viewport_start_line == viewport_start_line,
            r.viewport_end_line.0 == sat_add_u32(
                sat_add_u32(
                    viewport_start_line.0,
                    if viewport_line_count == 0 {
                        0
                    } else {
                        viewport_line_count - 1
                    },
                ),
                1,
            ),
            r.viewport_line_count == viewport_line_count,
            r.cursor_line == cursor_line,
            r.search_bands@ == Seq::new(MINIMAP_BANDS as nat, |i: int| 0u8),
            r.active_search_band is None,
    {
        MinimapOverlay {
            total_lines: 1,
            viewport_start_line,
            viewport_end_line: viewport_start_line.saturating_add(
                viewport_line_count.saturating_sub(1),
            ).saturating_add(1),
            viewport_line_count,
            cursor_line,
            search_bands: zero_bands(MINIMAP_BANDS),
            active_search_band: None,
        }
    }
}

/// One line of the preview minimap: its width in columns and the category of each bin.
#[derive(Debug, Clone, PartialEq, Eq)]
pub struct PreviewRow {
    pub logical_width: u16,
    pub bins: Vec<u8>,
}

/// A per-character minimap of a small document.
#[derive(Debug, Clone, PartialEq, Eq)]
pub struct PreviewSnapshot {
    pub overlay: MinimapOverlay,
    pub max_columns: u16,
    pub rows: Vec<PreviewRow>,
}

/// A density minimap of a large document, one value per band.
#[derive(Debug, Clone, PartialEq, Eq)]
pub struct OverviewSnapshot {
    pub overlay: MinimapOverlay,
    pub bands: Vec<u8>,
}

/// The minimap of a document, in whichever form its size called for.
#[derive(Debug, Clone, PartialEq, Eq)]
pub enum MinimapSnapshot {
    Preview(PreviewSnapshot),
    Overview(OverviewSnapshot),
    ByteFallback(OverviewSnapshot),
}

/// The overlay of a snapshot, whatever its form.
pub open spec fn snapshot_overlay(s: MinimapSnapshot) -> MinimapOverlay {
    match s {
        MinimapSnapshot::Preview(p) => p.overlay,
        MinimapSnapshot::Overview(o) => o.overlay,
        MinimapSnapshot::ByteFallback(o) => o.overlay,
    }
}

/// A snapshot with its overlay replaced.
pub open spec fn with_overlay(s: MinimapSnapshot, overlay: MinimapOverlay) -> MinimapSnapshot {
    match s {
        MinimapSnapshot::Preview(p) => MinimapSnapshot::Preview(PreviewSnapshot { overlay, ..p }),
        MinimapSnapshot::Overview(o) => MinimapSnapshot::Overview(
            OverviewSnapshot { overlay, ..o },
        ),
        MinimapSnapshot::ByteFallback(o) => MinimapSnapshot::ByteFallback(
            OverviewSnapshot { overlay, ..o },
        ),
    }
}

impl MinimapSnapshot {
    pub fn overlay(&self) -> (r: &MinimapOverlay)
        ensures
            *r == snapshot_overlay(*self),
    {
        match self {
            MinimapSnapshot::Preview(snapshot) => &snapshot.overlay,
            MinimapSnapshot::Overview(snapshot) => &snapshot.overlay,
            MinimapSnapshot::ByteFallback(snapshot) => &snapshot.overlay,
        }
    }

    pub fn overlay_mut(&mut self) -> (r: &mut MinimapOverlay)
        ensures
            *r == snapshot_overlay(*old(self)),
            *final(self) == with_overlay(*old(self), *final(r)),
    {
        match self {
            MinimapSnapshot::Preview(snapshot) => &mut snapshot.overlay,
            MinimapSnapshot::Overview(snapshot) => &mut snapshot.overlay,
            MinimapSnapshot::ByteFallback(snapshot) => &mut snapshot.overlay,
        }
    }
}

/// A search hit: where it starts and how many bytes it spans.
#[derive(Debug, Clone, Copy, PartialEq, Eq, Structural)]
pub struct SearchMatch {
    pub line: DocLine,
    pub col: VisualCol,
    pub byte_len: usize,
}

/// Band of the minimap that line `line` falls in, out of `total_lines` (at least 1).
pub open spec fn band_of_line(line: u32, total_lines: u32) -> int {
    let b = (line as int * MINIMAP_BANDS as int) / (if total_lines == 0 {
        1int
    } else {
        total_lines as int
    });
    if b > MINIMAP_BANDS - 1 {
        MINIMAP_BANDS - 1
    } else {
        b
    }
}

/// Every `stride`-th match is drawn, so that huge result sets stay cheap.
pub open spec fn search_stride(n: int) -> int {
    if n / 8192 > 1 {
        n / 8192
    } else {
        1
    }
}

/// Level of band `b` after the matches before index `k` were drawn: the active match
/// at 255, the others at 196, the brightest winning.
pub open spec fn search_band_level(
    matches: Seq<SearchMatch>,
    active: Option<usize>,
    total_lines: u32,
    b: int,
    k: int,
) -> u8
    decreases k,
{
    if k <= 0 {
        0
    } else {
        let prev = search_band_level(matches, active, total_lines, b, k - 1);
        let idx = k - 1;
        if idx < matches.len() && idx % search_stride(matches.len() as int) == 0 && band_of_line(
            matches[idx].line.0,
            total_lines,
        ) == b {
            let intensity: u8 = if active == Some(idx as usize) {
                255
            } else {
                196
            };
            if prev < intensity {
                intensity
            } else {
                prev
            }
        } else {
            prev
        }
    }
}

fn band_for_line(line: DocLine, total_lines: u32) -> (r: usize)
    requires
        total_lines >= 1,
    ensures
        r == band_of_line(line.0, total_lines),
        r < MINIMAP_BANDS,
{
    let b = (line.0 as u64 * 256) / (total_lines as u64);
    if b > 255 {
        255
    } else {
        b as usize
    }
}

/// Minimap bands for search hits, and the band of the active hit, if any.
pub fn build_search_minimap_bands(
    search_matches: &[SearchMatch],
    active_match_index: Option<usize>,
    total_lines: u32,
) -> (r: (Vec<u8>, Option<usize>))
    ensures
        ({
            let total = if total_lines == 0 {
                1u32
            } else {
                total_lines
            };
            &&& r.0@.len() == MINIMAP_BANDS
            &&& forall|b: int|
                0 <= b < MINIMAP_BANDS ==> #[trigger] r.0@[b] == search_band_level(
                    search_matches@,
                    active_match_index,
                    total,
                    b,
                    search_matches@.len() as int,
                )
            &&& r.1 == match active_match_index {
                Some(i) => if i < search_matches@.len() {
                    Some(band_of_line(search_matches@[i as int].line.0, total) as usize)
                } else {
                    None
                },
                None => None,
            }
        }),
{
    let total = if total_lines == 0 {
        1
    } else {
        total_lines
    };
    let mut bands = zero_bands(MINIMAP_BANDS);
    let n = search_matches.len();
    if n == 0 {
        proof {
            assert forall|b: int| 0 <= b < MINIMAP_BANDS implies #[trigger] bands@[b]
                == search_band_level(search_matches@, active_match_index, total, b, 0) by {}
        }
        return (bands, None);
    }
    let stride = if n / 8192 > 1 {
        n / 8192
    } else {
        1
    };
    let mut idx: usize = 0;
    while idx < n
        invariant
            idx <= n,
            n == search_matches@.len(),
            stride == search_stride(n as int),
            total >= 1,
            bands@.len() == MINIMAP_BANDS,
            forall|b: int|
                0 <= b < MINIMAP_BANDS ==> #[trigger] bands@[b] == search_band_level(
                    search_matches@,
                    active_match_index,
                    total,
                    b,
                    idx as int,
                ),
        decreases n - idx,
    {
        if idx % stride == 0 {
            let m = search_matches[idx];
            let band = band_for_line(m.line, total);
            let intensity: u8 = if active_match_index == Some(idx) {
                255
            } else {
                196
            };
            if bands[band] < intensity {
                bands.set(band, intensity);
            }
        }
        idx = idx + 1;
    }
    let active = match active_match_index {
        Some(i) => if i < n {
            Some(band_for_line(search_matches[i].line, total))
        } else {
            None
        },
        None => None,
    };
    (bands, active)
}

/// Density of a line of `byte_len` bytes: proportional up to 160 bytes, then full.
pub open spec fn spec_line_density(byte_len: int) -> u8 {
    let capped = if byte_len < 160 {
        byte_len
    } else {
        160
    };
    ((capped * 255) / 160) as u8
}

pub fn normalize_line_density(byte_len: usize) -> (r: u8)
    ensures
        r == spec_line_density(byte_len as int),
{
    let capped: u32 = if byte_len < 160 {
        byte_len as u32
    } else {
        160
    };
    ((capped * 255) / 160) as u8
}

/// `memchr::memchr_iter(b'\n', bytes).count()`: the iterator yields the position of
/// every `\n` in the haystack, so the count is the number of newlines.
#[verifier::external_body]
pub(crate) fn count_newlines(bytes: &[u8]) -> (r: usize)
    ensures
        r == nl_count(bytes@),
{
    memchr::memchr_iter(b'\n', bytes).count()
}

/// Running totals of an overview scan: per band the summed line densities and the
/// line count, then the number of lines closed so far and the length of the open line.
pub struct OverviewTotals {
    pub sums: Seq<int>,
    pub counts: Seq<int>,
    pub lines: nat,
    pub current_len: nat,
}

/// Adds a line of density `density` to band `band`.
pub open spec fn add_line(t: OverviewTotals, band: int, density: int) -> OverviewTotals {
    OverviewTotals {
        sums: t.sums.update(band, t.sums[band] + density),
        counts: t.counts.update(band, t.counts[band] + 1),
        ..t
    }
}

/// Totals after scanning `bytes`: each newline closes the open line into the band of
/// its index.
pub open spec fn overview_scan(bytes: Seq<u8>, doc_lines: u32) -> OverviewTotals
    decreases bytes.len(),
{
    if bytes.len() == 0 {
        OverviewTotals {
            sums: Seq::new(MINIMAP_BANDS as nat, |i: int| 0int),
            counts: Seq::new(MINIMAP_BANDS as nat, |i: int| 0int),
            lines: 0,
            current_len: 0,
        }
    } else {
        let t = overview_scan(bytes.drop_last(), doc_lines);
        if bytes.last() == NL {
            let closed = add_line(
                t,
                band_of_line(t.lines as u32, doc_lines),
                spec_line_density(t.current_len as int) as int,
            );
            OverviewTotals { lines: t.lines + 1, current_len: 0, ..closed }
        } else {
            OverviewTotals { current_len: t.current_len + 1, ..t }
        }
    }
}

/// The overview bands of `bytes`: the mean density of the lines in each band, the last
/// line (after the final newline) included.
pub open spec fn overview_bands(bytes: Seq<u8>, doc_lines: u32) -> Seq<u8> {
    let t = overview_scan(bytes, doc_lines);
    let f = add_line(
        t,
        band_of_line(t.lines as u32, doc_lines),
        spec_line_density(t.current_len as int) as int,
    );
    Seq::new(
        MINIMAP_BANDS as nat,
        |b: int|
            if f.counts[b] == 0 {
                0u8
            } else {
                (f.sums[b] / f.counts[b]) as u8
            },
    )
}

proof fn lemma_overview_scan(bytes: Seq<u8>, doc_lines: u32)
    requires
        doc_lines >= 1,
    ensures
        overview_scan(bytes, doc_lines).sums.len() == MINIMAP_BANDS,
        overview_scan(bytes, doc_lines).counts.len() == MINIMAP_BANDS,
        overview_scan(bytes, doc_lines).lines == nl_count(bytes),
        overview_scan(bytes, doc_lines).current_len <= bytes.len(),
        forall|b: int|
            0 <= b < MINIMAP_BANDS ==> 0 <= #[trigger] overview_scan(bytes, doc_lines).counts[b]
                <= nl_count(bytes) && 0 <= overview_scan(bytes, doc_lines).sums[b] <= 255
                * overview_scan(bytes, doc_lines).counts[b],
    decreases bytes.len(),
{
    if bytes.len() > 0 {
        lemma_overview_scan(bytes.drop_last(), doc_lines);
    }
}

/// The density overview of a document, one mean line density per band.
pub fn build_overview_snapshot(bytes: &[u8], overlay: MinimapOverlay) -> (r: OverviewSnapshot)
    requires
        nl_count(bytes@) + 1 <= 16843009,
    ensures
        r.overlay == overlay,
        r.bands@ == overview_bands(
            bytes@,
            if overlay.total_lines == 0 {
                1
            } else {
                overlay.total_lines
            },
        ),
{
    let doc_lines = if overlay.total_lines == 0 {
        1
    } else {
        overlay.total_lines
    };
    let mut sums: Vec<u32> = Vec::new();
    let mut counts: Vec<u32> = Vec::new();
    let mut k: usize = 0;
    while k < MINIMAP_BANDS
        invariant
            k <= MINIMAP_BANDS,
            sums@.len() == k && counts@.len() == k,
            forall|b: int| 0 <= b < k ==> sums@[b] == 0 && counts@[b] == 0,
        decreases MINIMAP_BANDS - k,
    {
        sums.push(0);
        counts.push(0);
        k = k + 1;
    }
    let mut total_lines: u32 = 0;
    let mut current_len: usize = 0;
    let mut i: usize = 0;
    proof {
        assert(bytes@.take(0) =~= Seq::<u8>::empty());
        lemma_nl_count_bound(bytes@);
    }
    while i < bytes.len()
        invariant
            i <= bytes@.len(),
            doc_lines >= 1,
            nl_count(bytes@) + 1 <= 16843009,
            sums@.len() == MINIMAP_BANDS && counts@.len() == MINIMAP_BANDS,
            ({
                let t = overview_scan(bytes@.take(i as int), doc_lines);
                &&& forall|b: int|
                    0 <= b < MINIMAP_BANDS ==> #[trigger] sums@[b] == t.sums[b] && counts@[b]
                        == t.counts[b]
                &&& total_lines == t.lines
                &&& current_len == t.current_len
            }),
        decreases bytes@.len() - i,
    {
        proof {
            assert(bytes@.take(i + 1).drop_last() =~= bytes@.take(i as int));
            lemma_overview_scan(bytes@.take(i as int), doc_lines);
            crate::lines::lemma_nl_count_monotone(bytes@, i as int, bytes@.len() as int);
            crate::lines::lemma_nl_count_take_full(bytes@);
            lemma_nl_count_step(bytes@, i as int);
        }
        if bytes[i] == NL {
            let band = band_for_line(DocLine(total_lines), doc_lines);
            let density = normalize_line_density(current_len) as u32;
            let s = sums[band];
            let c = counts[band];
            sums.set(band, s + density);
            counts.set(band, c + 1);
            total_lines = total_lines + 1;
            current_len = 0;
        } else {
            current_len = current_len + 1;
        }
        i = i + 1;
    }
    let ghost t = overview_scan(bytes@, doc_lines);
    proof {
        assert(bytes@.take(i as int) =~= bytes@);
        lemma_overview_scan(bytes@, doc_lines);
        assert(total_lines == t.lines);
        assert(current_len == t.current_len);
        assert forall|j: int| 0 <= j < MINIMAP_BANDS implies #[trigger] sums@[j] == t.sums[j]
            && counts@[j] == t.counts[j] by {
            assert(sums@[j] == overview_scan(bytes@.take(i as int), doc_lines).sums[j]);
        }
    }
    let band = band_for_line(DocLine(total_lines), doc_lines);
    let density = normalize_line_density(current_len) as u32;
    let s = sums[band];
    let c = counts[band];
    proof {
        assert(0 <= t.counts[band as int] <= nl_count(bytes@));
        assert(0 <= t.sums[band as int] <= 255 * t.counts[band as int]);
    }
    sums.set(band, s + density);
    counts.set(band, c + 1);
    let mut bands: Vec<u8> = Vec::new();
    let mut b: usize = 0;
    let ghost f = add_line(
        t,
        band_of_line(t.lines as u32, doc_lines),
        spec_line_density(t.current_len as int) as int,
    );
    proof {
        assert forall|j: int| 0 <= j < MINIMAP_BANDS implies 0 <= #[trigger] f.sums[j] <= 255
            * f.counts[j] by {
            lemma_overview_scan(bytes@, doc_lines);
            assert(0 <= t.counts[j] <= nl_count(bytes@));
            assert(0 <= t.sums[j] <= 255 * t.counts[j]);
        }
        assert forall|j: int| 0 <= j < MINIMAP_BANDS implies #[trigger] sums@[j] == f.sums[j] by {
            if j != band {
                assert(sums@[j] == t.sums[j]);
            }
        }
        assert forall|j: int| 0 <= j < MINIMAP_BANDS implies #[trigger] counts@[j] == f.counts[j] by {
            if j != band {
                assert(sums@[j] == t.sums[j]);
            }
        }
    }
    while b < MINIMAP_BANDS
        invariant
            b <= MINIMAP_BANDS,
            sums@.len() == MINIMAP_BANDS && counts@.len() == MINIMAP_BANDS,
            f.sums.len() == MINIMAP_BANDS && f.counts.len() == MINIMAP_BANDS,
            f == add_line(
                overview_scan(bytes@, doc_lines),
                band_of_line(overview_scan(bytes@, doc_lines).lines as u32, doc_lines),
                spec_line_density(overview_scan(bytes@, doc_lines).current_len as int) as int,
            ),
            forall|j: int| 0 <= j < MINIMAP_BANDS ==> #[trigger] sums@[j] == f.sums[j],
            forall|j: int| 0 <= j < MINIMAP_BANDS ==> #[trigger] counts@[j] == f.counts[j],
            forall|j: int| 0 <= j < MINIMAP_BANDS ==> 0 <= #[trigger] f.sums[j] <= 255 * f.counts[j],
            bands@ == overview_bands(bytes@, doc_lines).take(b as int),
        decreases MINIMAP_BANDS - b,
    {
        proof {
            assert(counts@[b as int] == f.counts[b as int]);
            assert(sums@[b as int] == f.sums[b as int]);
            assert(0 <= f.sums[b as int] <= 255 * f.counts[b as int]);
        }
        let v: u8 = if counts[b] == 0 {
            0
        } else {
            proof {
                assert(0 <= f.sums[b as int] <= 255 * f.counts[b as int]);
                assert(f.counts[b as int] > 0);
                assert(f.sums[b as int] / f.counts[b as int] <= 255) by (nonlinear_arith)
                    requires
                        0 <= f.sums[b as int] <= 255 * f.counts[b as int],
                        f.counts[b as int] > 0,
                ;
            }
            (sums[b] / counts[b]) as u8
        };
        bands.push(v);
        proof {
            assert(overview_bands(bytes@, doc_lines)[b as int] == v);
            assert(overview_bands(bytes@, doc_lines).take(b + 1) =~= overview_bands(
                bytes@,
                doc_lines,
            ).take(b as int).push(v));
        }
        b = b + 1;
    }
    proof {
        assert(overview_bands(bytes@, doc_lines).take(b as int) =~= overview_bands(bytes@, doc_lines));
    }
    OverviewSnapshot { overlay, bands }
}

/// Bytes that a preview ignores at the end of a line: space, tab, carriage return.
pub open spec fn is_trailing_blank(b: u8) -> bool {
    b == 32 || b == TAB || b == 13
}

/// Length of `line` without its trailing blanks.
pub open spec fn trimmed_len(line: Seq<u8>) -> int
    decreases line.len(),
{
    if line.len() > 0 && is_trailing_blank(line.last()) {
        trimmed_len(line.drop_last())
    } else {
        line.len() as int
    }
}

pub fn trim_preview_line_len(line_bytes: &[u8]) -> (r: usize)
    ensures
        r == trimmed_len(line_bytes@),
        r <= line_bytes@.len(),
{
    let mut end = line_bytes.len();
    assert(line_bytes@.take(end as int) =~= line_bytes@);
    while end > 0 && (line_bytes[end - 1] == 32 || line_bytes[end - 1] == TAB || line_bytes[end
        - 1] == 13)
        invariant
            end <= line_bytes@.len(),
            trimmed_len(line_bytes@.take(end as int)) == trimmed_len(line_bytes@),
        decreases end,
    {
        assert(line_bytes@.take(end as int).drop_last() =~= line_bytes@.take(end - 1));
        end = end - 1;
    }
    proof {
        if end > 0 {
            assert(line_bytes@.take(end as int).last() == line_bytes@[end - 1]);
        }
        lemma_trimmed_len_take(line_bytes@, end as int);
    }
    end
}

proof fn lemma_trimmed_len_take(line: Seq<u8>, end: int)
    requires
        0 <= end <= line.len(),
        end == 0 || !is_trailing_blank(line[end - 1]),
    ensures
        trimmed_len(line.take(end)) == end,
{
    if end > 0 {
        assert(line.take(end).last() == line[end - 1]);
    }
}

/// The first `k` bytes are exactly one char.
pub open spec fn is_one_char(bytes: Seq<u8>, k: int) -> bool {
    valid_utf8(bytes.take(k)) && decode_utf8(bytes.take(k)).len() == 1
}

/// Width in bytes of the char at the start of `bytes`, trying widths from `k` to 4;
/// 1 when no width fits.
pub open spec fn char_len_from(bytes: Seq<u8>, k: int) -> int
    decreases 5 - k,
{
    if k > 4 || k > bytes.len() || k < 1 {
        1
    } else if is_one_char(bytes, k) {
        k
    } else {
        char_len_from(bytes, k + 1)
    }
}

/// Width in bytes of the char at the start of `bytes`, 1 for bytes that start no char.
pub open spec fn spec_preview_char_len(bytes: Seq<u8>) -> int {
    char_len_from(bytes, 1)
}

pub proof fn lemma_char_len_from(bytes: Seq<u8>, k: int)
    requires
        k >= 1,
    ensures
        1 <= char_len_from(bytes, k) <= 4,
        bytes.len() > 0 ==> char_len_from(bytes, k) <= bytes.len(),
    decreases 5 - k,
{
    if !(k > 4 || k > bytes.len()) && !is_one_char(bytes, k) {
        lemma_char_len_from(bytes, k + 1);
    }
}

pub fn preview_char_len(bytes: &[u8]) -> (r: usize)
    ensures
        r == spec_preview_char_len(bytes@),
        1 <= r <= 4,
        bytes@.len() > 0 ==> r <= bytes@.len(),
{
    proof {
        lemma_char_len_from(bytes@, 1);
    }
    let max_len = if bytes.len() < 4 {
        bytes.len()
    } else {
        4
    };
    let mut k: usize = 1;
    while k <= max_len
        invariant
            1 <= k <= 5,
            max_len <= 4,
            max_len <= bytes@.len(),
            max_len == 4 || max_len == bytes@.len(),
            char_len_from(bytes@, k as int) == spec_preview_char_len(bytes@),
        decreases 5 - k,
    {
        let prefix = &bytes[0..k];
        assert(prefix@ =~= bytes@.take(k as int));
        match str_from_utf8(prefix) {
            Some(text) => {
                if text.unicode_len() == 1 {
                    return k;
                }
            },
            None => {},
        }
        k = k + 1;
    }
    1
}

/// Width in columns, capped at the preview's widest line, of `bytes` from index `idx`
/// on, when `width` columns came before: tabs go to the next tab stop, any other char
/// takes one column.
pub open spec fn logical_width_from(bytes: Seq<u8>, idx: int, width: int) -> int
    decreases bytes.len() - idx,
{
    if idx < 0 || idx >= bytes.len() || width >= MAX_PREVIEW_LOGICAL_COLUMNS {
        width
    } else if bytes[idx] == TAB {
        let next = width + (4 - width % 4);
        logical_width_from(
            bytes,
            idx + 1,
            if next > MAX_PREVIEW_LOGICAL_COLUMNS {
                MAX_PREVIEW_LOGICAL_COLUMNS as int
            } else {
                next
            },
        )
    } else {
        proof {
            lemma_char_len_from(bytes.skip(idx), 1);
        }
        logical_width_from(bytes, idx + spec_preview_char_len(bytes.skip(idx)), width + 1)
    }
}

pub fn preview_logical_width(bytes: &[u8]) -> (r: u16)
    ensures
        r == logical_width_from(bytes@, 0, 0),
        r <= MAX_PREVIEW_LOGICAL_COLUMNS,
{
    let mut width: u16 = 0;
    let mut idx: usize = 0;
    while idx < bytes.len() && width < MAX_PREVIEW_LOGICAL_COLUMNS
        invariant
            idx <= bytes@.len(),
            width <= MAX_PREVIEW_LOGICAL_COLUMNS,
            logical_width_from(bytes@, idx as int, width as int) == logical_width_from(bytes@, 0, 0),
        decreases bytes@.len() - idx,
    {
        if bytes[idx] == TAB {
            let next = width + (4 - width % 4);
            width = if next > MAX_PREVIEW_LOGICAL_COLUMNS {
                MAX_PREVIEW_LOGICAL_COLUMNS
            } else {
                next
            };
            idx = idx + 1;
        } else {
            width = width + 1;
            let rest = &bytes[idx..bytes.len()];
            assert(rest@ =~= bytes@.skip(idx as int));
            let step = preview_char_len(rest);
            idx = idx + step;
        }
    }
    width
}

/// Bin range `lo..hi` that columns `start_col..end_col` of a line `width` columns wide
/// cover, at least one bin.
pub open spec fn bin_range(width: int, start_col: int, end_col: int) -> (int, int) {
    let w = if width < 1 {
        1
    } else {
        width
    };
    let start_bin = (start_col * PREVIEW_BIN_COLUMNS) / w;
    let end_bin = (end_col * PREVIEW_BIN_COLUMNS + w - 1) / w;
    let lo = if start_bin < PREVIEW_BIN_COLUMNS {
        start_bin
    } else {
        PREVIEW_BIN_COLUMNS as int
    };
    let top = if end_bin > start_bin + 1 {
        end_bin
    } else {
        start_bin + 1
    };
    let hi = if top < PREVIEW_BIN_COLUMNS {
        top
    } else {
        PREVIEW_BIN_COLUMNS as int
    };
    (lo, hi)
}

/// Bins after painting columns `start_col..end_col` with `category`: a bin takes the
/// category when it is empty or unclassified, or when the category is a real one.
pub open spec fn painted_bins(
    bins: Seq<u8>,
    logical_width: u16,
    start_col: u16,
    end_col: u16,
    category: u8,
) -> Seq<u8> {
    let (lo, hi) = bin_range(logical_width as int, start_col as int, end_col as int);
    Seq::new(
        bins.len(),
        |i: int|
            if lo <= i < hi && (bins[i] == EMPTY_PREVIEW_BIN || bins[i] == UNCLASSIFIED_INDEX
                || category != UNCLASSIFIED_INDEX) {
                category
            } else {
                bins[i]
            },
    )
}

pub fn paint_preview_bins(
    bins: &mut Vec<u8>,
    logical_width: u16,
    start_col: u16,
    end_col: u16,
    category: u8,
)
    requires
        old(bins)@.len() == PREVIEW_BIN_COLUMNS,
    ensures
        final(bins)@ == painted_bins(old(bins)@, logical_width, start_col, end_col, category),
{
    let width: u64 = if logical_width < 1 {
        1
    } else {
        logical_width as u64
    };
    let start_bin = (start_col as u64 * 192) / width;
    let end_bin = (end_col as u64 * 192 + width - 1) / width;
    let lo: u64 = if start_bin < 192 {
        start_bin
    } else {
        192
    };
    let top: u64 = if end_bin > start_bin + 1 {
        end_bin
    } else {
        start_bin + 1
    };
    let hi: u64 = if top < 192 {
        top
    } else {
        192
    };
    let ghost before = bins@;
    let mut bin = lo as usize;
    while bin < hi as usize
        invariant
            lo <= bin <= hi,
            hi <= 192,
            bins@.len() == 192,
            before.len() == 192,
            (lo as int, hi as int) == bin_range(logical_width as int, start_col as int, end_col as int),
            forall|i: int|
                0 <= i < 192 ==> #[trigger] bins@[i] == if lo <= i < bin && (before[i]
                    == EMPTY_PREVIEW_BIN || before[i] == UNCLASSIFIED_INDEX || category
                    != UNCLASSIFIED_INDEX) {
                    category
                } else {
                    before[i]
                },
        decreases hi - bin,
    {
        let existing = bins[bin];
        if existing == EMPTY_PREVIEW_BIN || existing == UNCLASSIFIED_INDEX || category
            != UNCLASSIFIED_INDEX {
            bins.set(bin, category);
        }
        bin = bin + 1;
    }
    assert(bins@ =~= painted_bins(before, logical_width, start_col, end_col, category));
}

/// The bins of an empty preview row.
pub open spec fn empty_bins() -> Seq<u8> {
    Seq::new(PREVIEW_BIN_COLUMNS as nat, |i: int| EMPTY_PREVIEW_BIN)
}

/// Bins of a preview row after painting the chars of `line[idx..end]`, `col` columns
/// in, in a row `width` columns wide whose first byte is document byte `start`: a space
/// moves one column, a tab to the next tab stop, and any other char paints one column
/// with the category that `hs` gives its first byte.
pub open spec fn row_bins_from(
    line: Seq<u8>,
    end: int,
    width: int,
    start: int,
    hs: Seq<HighlightSpan>,
    idx: int,
    col: int,
    bins: Seq<u8>,
) -> Seq<u8>
    decreases end - idx,
{
    if idx < 0 || idx >= end || end > line.len() || col >= width {
        bins
    } else if line[idx] == 32 {
        row_bins_from(line, end, width, start, hs, idx + 1, col + 1, bins)
    } else if line[idx] == TAB {
        let next = col + (4 - col % 4);
        row_bins_from(
            line,
            end,
            width,
            start,
            hs,
            idx + 1,
            if next > width {
                width
            } else {
                next
            },
            bins,
        )
    } else {
        proof {
            lemma_char_len_from(line.subrange(idx, end), 1);
        }
        let category = spec_category_index(spec_category_for_byte(hs, (start + idx) as u64));
        row_bins_from(
            line,
            end,
            width,
            start,
            hs,
            idx + spec_preview_char_len(line.subrange(idx, end)),
            col + 1,
            painted_bins(bins, width as u16, col as u16, (col + 1) as u16, category),
        )
    }
}

/// Width in columns of a preview row for `line`: its trailing blanks dropped, capped.
pub open spec fn preview_row_width(line: Seq<u8>) -> int {
    logical_width_from(line.take(trimmed_len(line)), 0, 0)
}

/// Bins of the preview row for `line`, whose first byte is document byte `start`,
/// coloured by the highlights `hs`.
pub open spec fn preview_row_bins(line: Seq<u8>, start: int, hs: Seq<HighlightSpan>) -> Seq<u8> {
    row_bins_from(line, trimmed_len(line), preview_row_width(line), start, hs, 0, 0, empty_bins())
}

proof fn lemma_trimmed_len_bound(line: Seq<u8>)
    ensures
        0 <= trimmed_len(line) <= line.len(),
    decreases line.len(),
{
    if line.len() > 0 && is_trailing_blank(line.last()) {
        lemma_trimmed_len_bound(line.drop_last());
    }
}

fn empty_bin_row() -> (r: Vec<u8>)
    ensures
        r@ == empty_bins(),
{
    let mut bins: Vec<u8> = Vec::new();
    while bins.len() < PREVIEW_BIN_COLUMNS
        invariant
            bins@.len() <= PREVIEW_BIN_COLUMNS,
            forall|i: int| 0 <= i < bins@.len() ==> bins@[i] == EMPTY_PREVIEW_BIN,
        decreases PREVIEW_BIN_COLUMNS - bins@.len(),
    {
        bins.push(EMPTY_PREVIEW_BIN);
    }
    assert(bins@ =~= empty_bins());
    bins
}

/// The preview row of one line (without its newline) whose first byte is document
/// byte `line_start_byte`, coloured by `highlights`, which are sorted by start.
pub fn build_preview_row(line_bytes: &[u8], line_start_byte: usize, highlights: &[HighlightSpan]) -> (r:
    PreviewRow)
    requires
        starts_sorted(highlights@),
        line_start_byte + line_bytes@.len() <= u64::MAX,
    ensures
        r.logical_width == preview_row_width(line_bytes@),
        r.bins@ == preview_row_bins(line_bytes@, line_start_byte as int, highlights@),
{
    let ghost line = line_bytes@;
    let trimmed = trim_preview_line_len(line_bytes);
    let head = &line_bytes[0..trimmed];
    assert(head@ =~= line.take(trimmed as int));
    let logical_width = preview_logical_width(head);
    let mut bins = empty_bin_row();
    let ghost w = logical_width as int;
    let ghost start = line_start_byte as int;
    let mut idx: usize = 0;
    let mut col: u16 = 0;
    while idx < trimmed && col < logical_width
        invariant
            idx <= trimmed <= line.len(),
            line == line_bytes@,
            trimmed == trimmed_len(line),
            w == logical_width,
            logical_width <= MAX_PREVIEW_LOGICAL_COLUMNS,
            col <= logical_width,
            bins@.len() == PREVIEW_BIN_COLUMNS,
            start == line_start_byte,
            line_start_byte + line.len() <= u64::MAX,
            starts_sorted(highlights@),
            row_bins_from(line, trimmed as int, w, start, highlights@, idx as int, col as int, bins@)
                == row_bins_from(line, trimmed as int, w, start, highlights@, 0, 0, empty_bins()),
        decreases trimmed - idx,
    {
        let b = line_bytes[idx];
        if b == 32 {
            col = col + 1;
            idx = idx + 1;
        } else if b == TAB {
            let next = col + (4 - col % 4);
            col = if next > logical_width {
                logical_width
            } else {
                next
            };
            idx = idx + 1;
        } else {
            let start_col = col;
            col = col + 1;
            let category = category_index(
                category_for_byte(highlights, DocByte(line_start_byte as u64 + idx as u64)),
            );
            paint_preview_bins(&mut bins, logical_width, start_col, col, category);
            let rest = &line_bytes[idx..trimmed];
            assert(rest@ =~= line.subrange(idx as int, trimmed as int));
            let step = preview_char_len(rest);
            idx = idx + step;
        }
    }
    PreviewRow { logical_width, bins }
}

/// Each of `rows` is the preview row of the matching line of `bytes`, coloured by `hs`:
/// one row per line, the empty line after a final newline included.
pub open spec fn rows_match(rows: Seq<PreviewRow>, bytes: Seq<u8>, hs: Seq<HighlightSpan>) -> bool {
    &&& rows.len() == nl_count(bytes) + 1
    &&& forall|k: int| 0 <= k < rows.len() ==> #[trigger] row_of_line(rows[k], bytes, k as nat, hs)
}

/// `row` is the preview row of line `k` of `bytes`, coloured by `hs`.
pub open spec fn row_of_line(row: PreviewRow, bytes: Seq<u8>, k: nat, hs: Seq<HighlightSpan>) -> bool {
    &&& row.logical_width == preview_row_width(line_content(bytes, k))
    &&& row.bins@ == preview_row_bins(line_content(bytes, k), line_start_pos(bytes, k), hs)
}

/// Width of the widest of the first `n` lines of `bytes` in a preview.
pub open spec fn widest_row(bytes: Seq<u8>, n: nat) -> int
    decreases n,
{
    if n == 0 {
        0
    } else {
        let w = preview_row_width(line_content(bytes, (n - 1) as nat));
        let m = widest_row(bytes, (n - 1) as nat);
        if w > m {
            w
        } else {
            m
        }
    }
}

/// The highlights that colour a preview: the lexical ones alone when there are no
/// semantic ones, else the kept lexical ones and the semantic ones, sorted by start.
pub open spec fn preview_highlights(
    m: Seq<HighlightSpan>,
    lexical: Seq<HighlightSpan>,
    semantic: Seq<HighlightSpan>,
) -> bool {
    if semantic.len() == 0 {
        m == lexical
    } else {
        &&& m.to_multiset() == (kept_lexical(lexical, semantic) + semantic).to_multiset()
        &&& starts_sorted(m)
    }
}

proof fn lemma_logical_width_bound(bytes: Seq<u8>, idx: int, width: int)
    requires
        0 <= width <= MAX_PREVIEW_LOGICAL_COLUMNS,
    ensures
        0 <= logical_width_from(bytes, idx, width) <= MAX_PREVIEW_LOGICAL_COLUMNS,
    decreases bytes.len() - idx,
{
    if !(idx < 0 || idx >= bytes.len() || width >= MAX_PREVIEW_LOGICAL_COLUMNS) {
        if bytes[idx] == TAB {
            let next = width + (4 - width % 4);
            lemma_logical_width_bound(
                bytes,
                idx + 1,
                if next > MAX_PREVIEW_LOGICAL_COLUMNS {
                    MAX_PREVIEW_LOGICAL_COLUMNS as int
                } else {
                    next
                },
            );
        } else {
            lemma_char_len_from(bytes.skip(idx), 1);
            lemma_logical_width_bound(bytes, idx + spec_preview_char_len(bytes.skip(idx)), width + 1);
        }
    }
}

/// The per-character preview of a small document, coloured by its lexical highlights
/// and the semantic highlights `semantic` (sorted by end): one row per line, and the
/// width of the widest row (at least 1).
#[verifier::spinoff_prover]
pub fn build_preview_snapshot(
    bytes: &[u8],
    semantic_highlights: &[HighlightSpan],
    overlay: MinimapOverlay,
) -> (r: PreviewSnapshot)
    requires
        bytes@.len() <= u32::MAX,
        semantic_highlights@.len() > 0 ==> ends_sorted(semantic_highlights@),
    ensures
        r.overlay == overlay,
        r.max_columns == (if widest_row(bytes@, nl_count(bytes@) + 1) > 1 {
            widest_row(bytes@, nl_count(bytes@) + 1)
        } else {
            1
        }),
        exists|m: Seq<HighlightSpan>|
            preview_highlights(m, viewport_highlights(0, bytes@), semantic_highlights@)
                && #[trigger] rows_match(r.rows@, bytes@, m),
{
    let ghost d = bytes@;
    let lexical = SvpPipeline::process_viewport(DocByte(0), bytes);
    let merged = if semantic_highlights.len() == 0 {
        lexical
    } else {
        merge_highlights(lexical.as_slice(), semantic_highlights)
    };
    let ghost hs = merged@;
    let mut rows: Vec<PreviewRow> = Vec::new();
    let mut widest: u16 = 0;
    let mut start: usize = 0;
    let mut i: usize = 0;
    let mut k: usize = 0;
    while i < bytes.len()
        invariant
            d == bytes@,
            d.len() <= u32::MAX,
            hs == merged@,
            starts_sorted(hs),
            start <= i <= d.len(),
            k == nl_count(d.take(i as int)),
            k <= i,
            is_line_start(d, k as nat, start as int),
            forall|j: int| start <= j < i ==> d[j] != NL,
            rows@.len() == k,
            forall|j: int| 0 <= j < k ==> #[trigger] row_of_line(rows@[j], d, j as nat, hs),
            widest == widest_row(d, k as nat),
            widest <= MAX_PREVIEW_LOGICAL_COLUMNS,
        decreases d.len() - i,
    {
        proof {
            lemma_nl_count_step(d, i as int);
        }
        if bytes[i] == NL {
            let line = &bytes[start..i];
            let row = build_preview_row(line, start, merged.as_slice());
            proof {
                assert(is_line_start(d, (k + 1) as nat, (i + 1) as int));
                lemma_line_start_pos(d, k as nat, start as int);
                lemma_line_start_pos(d, (k + 1) as nat, (i + 1) as int);
                assert(d.subrange(start as int, i + 1).drop_last() =~= line@);
                assert(line_content(d, k as nat) == line@);
                lemma_logical_width_bound(line@.take(trimmed_len(line@)), 0, 0);
            }
            if row.logical_width > widest {
                widest = row.logical_width;
            }
            let ghost prev = rows@;
            let ghost new_row = row;
            rows.push(row);
            proof {
                assert(row_of_line(new_row, d, k as nat, hs));
                assert forall|j: int| 0 <= j < k + 1 implies #[trigger] row_of_line(
                    rows@[j],
                    d,
                    j as nat,
                    hs,
                ) by {
                    if j < k {
                        assert(rows@[j] == prev[j]);
                    } else {
                        assert(rows@[j] == new_row);
                    }
                }
            }
            k = k + 1;
            start = i + 1;
        }
        i = i + 1;
    }
    let line = &bytes[start..i];
    let row = build_preview_row(line, start, merged.as_slice());
    proof {
        lemma_nl_count_take_full(d);
        assert(d.take(i as int) =~= d);
        lemma_line_start_pos(d, k as nat, start as int);
        assert(line_start_pos(d, (k + 1) as nat) == d.len());
        assert(d.subrange(start as int, d.len() as int) =~= line@);
        if line@.len() > 0 {
            assert(line@.last() == d[d.len() - 1]);
        }
        assert(line_content(d, k as nat) == line@);
        lemma_logical_width_bound(line@.take(trimmed_len(line@)), 0, 0);
    }
    if row.logical_width > widest {
        widest = row.logical_width;
    }
    let ghost prev = rows@;
    let ghost new_row = row;
    rows.push(row);
    proof {
        assert(row_of_line(new_row, d, k as nat, hs));
        assert forall|j: int| 0 <= j < k + 1 implies #[trigger] row_of_line(rows@[j], d, j as nat, hs) by {
            if j < k {
                assert(rows@[j] == prev[j]);
            } else {
                assert(rows@[j] == new_row);
            }
        }
    }
    let max_columns = if widest > 1 {
        widest
    } else {
        1
    };
    let snapshot = PreviewSnapshot { overlay, max_columns, rows };
    proof {
        assert(rows_match(snapshot.rows@, d, hs));
    }
    snapshot
}

/// The minimap of a document held in memory, its overlay given the document's line
/// count: a per-character preview (see `build_preview_snapshot`) when the document has
/// at most `MAX_PREVIEW_MINIMAP_BYTES` bytes and `MAX_PREVIEW_MINIMAP_LINES` lines, else
/// a density overview (see `build_overview_snapshot`).
pub fn build_text_minimap_snapshot(
    bytes: &[u8],
    semantic_highlights: &[HighlightSpan],
    overlay: MinimapOverlay,
) -> (r: MinimapSnapshot)
    requires
        nl_count(bytes@) + 1 <= 16843009,
        semantic_highlights@.len() > 0 ==> ends_sorted(semantic_highlights@),
    ensures
        snapshot_overlay(r) == (MinimapOverlay {
            total_lines: (nl_count(bytes@) + 1) as u32,
            ..overlay
        }),
        bytes@.len() <= MAX_PREVIEW_MINIMAP_BYTES && nl_count(bytes@) + 1
            <= MAX_PREVIEW_MINIMAP_LINES ==> (r matches MinimapSnapshot::Preview(p) && {
            &&& p.max_columns == (if widest_row(bytes@, nl_count(bytes@) + 1) > 1 {
                widest_row(bytes@, nl_count(bytes@) + 1)
            } else {
                1
            })
            &&& exists|m: Seq<HighlightSpan>|
                preview_highlights(m, viewport_highlights(0, bytes@), semantic_highlights@)
                    && #[trigger] rows_match(p.rows@, bytes@, m)
        }),
        !(bytes@.len() <= MAX_PREVIEW_MINIMAP_BYTES && nl_count(bytes@) + 1
            <= MAX_PREVIEW_MINIMAP_LINES) ==> (r matches MinimapSnapshot::Overview(o) && o.bands@
            == overview_bands(bytes@, (nl_count(bytes@) + 1) as u32)),
{
    let newlines = count_newlines(bytes);
    let doc_lines = newlines as u32 + 1;
    let mut overlay = overlay;
    overlay.total_lines = doc_lines;
    if bytes.len() as u64 <= MAX_PREVIEW_MINIMAP_BYTES && doc_lines <= MAX_PREVIEW_MINIMAP_LINES {
        MinimapSnapshot::Preview(build_preview_snapshot(bytes, semantic_highlights, overlay))
    } else {
        MinimapSnapshot::Overview(build_overview_snapshot(bytes, overlay))
    }
}

} // verus!
