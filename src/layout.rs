use vstd::prelude::*;
use std::str::Chars;
use vstd::std_specs::iter::IteratorSpec;

verus! {

/// Lengths in this module are fixed-point numbers: one pixel is this many units.
pub const UNITS_PER_PIXEL: i64 = 64;

/// Bound on the magnitude of every metric a font provides, in units.
pub const MAX_METRIC: i64 = 0x1000_0000;

/// Bound on a glyph bitmap's width and height, in pixels.
pub const MAX_BITMAP: usize = 0x1_0000;

/// Bound on the magnitude of a line-height factor, in units (a factor of 64).
pub const MAX_FACTOR: i64 = 0x1000;

/// Bound on the number of characters one layout accepts over all its runs.
pub const MAX_CHARS: usize = 0x100_0000;

/// A glyph placed by a `Layout`.
#[derive(Debug)]
pub struct GlyphPosition<U: Clone> {
    pub c: char,
    /// Left edge of the bitmap, in units.
    pub x: i64,
    /// Top edge of the bitmap, in units, growing downwards.
    pub y: i64,
    /// Bitmap width in pixels.
    pub width: usize,
    /// Bitmap height in pixels.
    pub height: usize,
    pub font_index: usize,
    pub font_size: i64,
    pub user: U,
}

/// What a glyph placement says, without its payload.
pub struct Placed {
    pub c: char,
    pub x: int,
    pub y: int,
    pub width: nat,
    pub height: nat,
    pub font_index: nat,
    pub font_size: int,
}

impl<U: Clone> GlyphPosition<U> {
    pub open spec fn placed(&self) -> Placed {
        Placed {
            c: self.c,
            x: self.x as int,
            y: self.y as int,
            width: self.width as nat,
            height: self.height as nat,
            font_index: self.font_index as nat,
            font_size: self.font_size as int,
        }
    }
}

#[derive(Clone, Copy, Debug)]
pub struct LayoutSettings {
    pub horizontal_align: HorizontalAlign,
    pub line_height: LineHeight,
}

#[derive(Clone, Copy, Debug, PartialEq, Eq, Structural)]
pub enum HorizontalAlign {
    Left,
    Center,
    Right,
}

/// How the vertical extent of a line and the gap below it are chosen.
#[derive(Clone, Copy, Debug, PartialEq, Eq, Structural)]
pub enum LineHeight {
    /// Ascent, descent and gap as the font recommends.
    Font,
    /// Ascent and descent from the font; the gap makes the line advance equal
    /// to `(ascent - descent) * factor`, the factor given in units.
    Ratio(i64),
    /// Ascent and descent from the glyphs actually on the line; the gap as for
    /// `Ratio`.
    Smallest(i64),
}

impl Default for HorizontalAlign {
    fn default() -> (r: Self)
        ensures
            r == HorizontalAlign::Left,
    {
        HorizontalAlign::Left
    }
}

impl Default for LineHeight {
    fn default() -> (r: Self)
        ensures
            r == LineHeight::Font,
    {
        LineHeight::Font
    }
}

impl Default for LayoutSettings {
    fn default() -> (r: Self)
        ensures
            r.horizontal_align == HorizontalAlign::Left,
            r.line_height == LineHeight::Font,
    {
        LayoutSettings { horizontal_align: HorizontalAlign::Left, line_height: LineHeight::Font }
    }
}

impl LayoutSettings {
    pub open spec fn wf(&self) -> bool {
        match self.line_height {
            LineHeight::Font => true,
            LineHeight::Ratio(f) | LineHeight::Smallest(f) => -MAX_FACTOR <= f <= MAX_FACTOR,
        }
    }

    /// Whether the factor of the line-height policy is within `MAX_FACTOR`.
    pub fn is_valid(&self) -> (r: bool)
        ensures
            r == self.wf(),
    {
        match self.line_height {
            LineHeight::Font => true,
            LineHeight::Ratio(f) | LineHeight::Smallest(f) => -MAX_FACTOR <= f && f <= MAX_FACTOR,
        }
    }
}

/// Metrics of one glyph at one size.
#[derive(Clone, Copy, Debug)]
pub struct GlyphMetrics {
    /// How far the cursor moves after the glyph, in units.
    pub advance_width: i64,
    /// Left edge of the bitmap relative to the cursor, in units.
    pub xmin: i64,
    /// Bottom edge of the bitmap relative to the baseline, in units, growing upwards.
    pub ymin: i64,
    /// Bitmap width in pixels.
    pub width: usize,
    /// Bitmap height in pixels.
    pub height: usize,
}

impl GlyphMetrics {
    /// Whether every metric is within `MAX_METRIC` and the bitmap within `MAX_BITMAP`.
    pub fn is_valid(&self) -> (r: bool)
        ensures
            r == self.wf(),
    {
        -MAX_METRIC <= self.advance_width && self.advance_width <= MAX_METRIC && -MAX_METRIC
            <= self.xmin && self.xmin <= MAX_METRIC && -MAX_METRIC <= self.ymin && self.ymin
            <= MAX_METRIC && self.width <= MAX_BITMAP && self.height <= MAX_BITMAP
    }

    pub open spec fn wf(&self) -> bool {
        &&& -MAX_METRIC <= self.advance_width <= MAX_METRIC
        &&& -MAX_METRIC <= self.xmin <= MAX_METRIC
        &&& -MAX_METRIC <= self.ymin <= MAX_METRIC
        &&& self.width <= MAX_BITMAP
        &&& self.height <= MAX_BITMAP
    }
}

/// Line-wide metrics of a font at one size, in units.
#[derive(Clone, Copy, Debug)]
pub struct LineMetrics {
    pub ascent: i64,
    pub descent: i64,
    pub line_gap: i64,
}

impl LineMetrics {
    pub open spec fn wf(&self) -> bool {
        &&& -MAX_METRIC <= self.ascent <= MAX_METRIC
        &&& -MAX_METRIC <= self.descent <= MAX_METRIC
        &&& -MAX_METRIC <= self.line_gap <= MAX_METRIC
    }
}

/// What a layout learns of one font at one size: the line metrics if the font
/// has them, the metrics of the characters it was told about, the metrics of
/// the glyph drawn for any other character, and kerning adjustments for pairs
/// of characters (none for a pair not listed).
pub struct FontMetrics {
    pub line: Option<LineMetrics>,
    pub glyphs: Vec<(char, GlyphMetrics)>,
    pub fallback: GlyphMetrics,
    pub kerning: Vec<(char, char, i64)>,
}

/// The metrics of the first entry for `c`, or `fallback`.
pub open spec fn glyph_in(s: Seq<(char, GlyphMetrics)>, c: char, fallback: GlyphMetrics) -> GlyphMetrics
    decreases s.len(),
{
    if s.len() == 0 {
        fallback
    } else if s[0].0 == c {
        s[0].1
    } else {
        glyph_in(s.drop_first(), c, fallback)
    }
}

/// The adjustment of the first entry for the pair (`a`, `b`), or zero.
pub open spec fn kern_in(s: Seq<(char, char, i64)>, a: char, b: char) -> int
    decreases s.len(),
{
    if s.len() == 0 {
        0
    } else if s[0].0 == a && s[0].1 == b {
        s[0].2 as int
    } else {
        kern_in(s.drop_first(), a, b)
    }
}

impl FontMetrics {
    pub open spec fn wf(&self) -> bool {
        &&& self.fallback.wf()
        &&& forall|i: int| 0 <= i < self.glyphs@.len() ==> (#[trigger] self.glyphs@[i]).1.wf()
        &&& forall|i: int|
            0 <= i < self.kerning@.len() ==> -MAX_METRIC <= (#[trigger] self.kerning@[i]).2
                <= MAX_METRIC
        &&& self.line matches Some(lm) ==> lm.wf()
    }

    /// Whether every metric is within the bounds a layout accepts.
    pub fn is_valid(&self) -> (r: bool)
        ensures
            r == self.wf(),
    {
        if !self.fallback.is_valid() {
            return false;
        }
        if let Some(lm) = self.line {
            if !(-MAX_METRIC <= lm.ascent && lm.ascent <= MAX_METRIC && -MAX_METRIC <= lm.descent
                && lm.descent <= MAX_METRIC && -MAX_METRIC <= lm.line_gap && lm.line_gap
                <= MAX_METRIC) {
                return false;
            }
        }
        let mut i: usize = 0;
        while i < self.glyphs.len()
            invariant
                i <= self.glyphs@.len(),
                forall|j: int| 0 <= j < i ==> (#[trigger] self.glyphs@[j]).1.wf(),
            decreases self.glyphs@.len() - i,
        {
            if !self.glyphs[i].1.is_valid() {
                return false;
            }
            i = i + 1;
        }
        let mut k: usize = 0;
        while k < self.kerning.len()
            invariant
                k <= self.kerning@.len(),
                forall|j: int|
                    0 <= j < k ==> -MAX_METRIC <= (#[trigger] self.kerning@[j]).2 <= MAX_METRIC,
            decreases self.kerning@.len() - k,
        {
            let v = self.kerning[k].2;
            if !(-MAX_METRIC <= v && v <= MAX_METRIC) {
                return false;
            }
            k = k + 1;
        }
        true
    }

    pub open spec fn glyph_spec(&self, c: char) -> GlyphMetrics {
        glyph_in(self.glyphs@, c, self.fallback)
    }

    pub open spec fn kern_spec(&self, a: char, b: char) -> int {
        kern_in(self.kerning@, a, b)
    }

    /// Metrics of the glyph drawn for `c`.
    pub fn glyph(&self, c: char) -> (r: GlyphMetrics)
        requires
            self.wf(),
        ensures
            r == self.glyph_spec(c),
            r.wf(),
    {
        let mut i: usize = 0;
        assert(self.glyphs@.subrange(0, self.glyphs@.len() as int) =~= self.glyphs@);
        while i < self.glyphs.len()
            invariant
                self.wf(),
                i <= self.glyphs@.len(),
                glyph_in(self.glyphs@.subrange(i as int, self.glyphs@.len() as int), c, self.fallback)
                    == self.glyph_spec(c),
            decreases self.glyphs@.len() - i,
        {
            let ghost rest = self.glyphs@.subrange(i as int, self.glyphs@.len() as int);
            assert(rest.drop_first() =~= self.glyphs@.subrange(i + 1, self.glyphs@.len() as int));
            if self.glyphs[i].0 == c {
                assert(self.glyphs@[i as int].1.wf());
                return self.glyphs[i].1;
            }
            i = i + 1;
        }
        self.fallback
    }

    /// Kerning adjustment between `a` and the `b` that follows it, in units.
    pub fn kern(&self, a: char, b: char) -> (r: i64)
        requires
            self.wf(),
        ensures
            r == self.kern_spec(a, b),
            -MAX_METRIC <= r <= MAX_METRIC,
    {
        let mut i: usize = 0;
        assert(self.kerning@.subrange(0, self.kerning@.len() as int) =~= self.kerning@);
        while i < self.kerning.len()
            invariant
                self.wf(),
                i <= self.kerning@.len(),
                kern_in(self.kerning@.subrange(i as int, self.kerning@.len() as int), a, b)
                    == self.kern_spec(a, b),
            decreases self.kerning@.len() - i,
        {
            let ghost rest = self.kerning@.subrange(i as int, self.kerning@.len() as int);
            assert(rest.drop_first() =~= self.kerning@.subrange(i + 1, self.kerning@.len() as int));
            if self.kerning[i].0 == a && self.kerning[i].1 == b {
                assert(-MAX_METRIC <= self.kerning@[i as int].2 <= MAX_METRIC);
                return self.kerning[i].2;
            }
            i = i + 1;
        }
        0
    }
}


/// A run of text in one font at one size, with a payload copied into each of
/// its glyphs.
pub struct StyledText<'a, U> {
    pub text: &'a str,
    pub font_size: i64,
    pub font_index: usize,
    pub user: U,
}

/// Why an append was refused.
#[derive(Debug, PartialEq, Eq, Structural)]
pub enum LayoutError {
    /// The policy takes ascent and descent from the font, which has none.
    NoLineMetrics,
    /// The layout would hold more than `MAX_CHARS` characters.
    TooLong,
}

/// A line as the layout holds it: glyphs relative to the line's left edge and
/// baseline (`y` is the bottom of the bitmap, growing upwards).
pub struct LineView {
    pub width: int,
    pub gap: int,
    pub ascent: int,
    pub descent: int,
    pub glyphs: Seq<Placed>,
}

pub open spec fn empty_line() -> LineView {
    LineView { width: 0, gap: 0, ascent: 0, descent: 0, glyphs: Seq::empty() }
}

/// The vertical advance of a line.
pub open spec fn line_height_of(l: LineView) -> int {
    l.ascent - l.descent + l.gap
}

pub open spec fn int_max(a: int, b: int) -> int {
    if a >= b {
        a
    } else {
        b
    }
}

pub open spec fn int_min(a: int, b: int) -> int {
    if a <= b {
        a
    } else {
        b
    }
}

/// Unicode's control characters (general category Cc).
pub open spec fn is_control_char(c: char) -> bool {
    (c as u32) < 0x20 || (0x7f <= (c as u32) && (c as u32) <= 0x9f)
}

/// The gap that makes a line of this ascent and descent advance by
/// `(ascent - descent) * factor`, the factor in units, rounded down.
pub open spec fn ratio_gap(ascent: int, descent: int, factor: int) -> int {
    (ascent - descent) * factor / (UNITS_PER_PIXEL as int) - (ascent - descent)
}

/// Policies under which the font's line metrics are needed.
pub open spec fn needs_line_metrics(policy: LineHeight) -> bool {
    !(policy is Smallest)
}

pub open spec fn line_metrics_or_zero(fm: FontMetrics) -> LineMetrics {
    match fm.line {
        Some(lm) => lm,
        None => LineMetrics { ascent: 0, descent: 0, line_gap: 0 },
    }
}

/// `line` after the drawable character `c` is placed on it.
pub open spec fn place(
    line: LineView,
    policy: LineHeight,
    fm: FontMetrics,
    c: char,
    font_index: usize,
    font_size: i64,
) -> LineView {
    let g = fm.glyph_spec(c);
    let lm = line_metrics_or_zero(fm);
    let ascent = match policy {
        LineHeight::Smallest(_) => int_max(
            line.ascent,
            g.height * UNITS_PER_PIXEL + g.ymin,
        ),
        _ => int_max(line.ascent, lm.ascent as int),
    };
    let descent = match policy {
        LineHeight::Smallest(_) => int_min(line.descent, g.ymin as int),
        _ => int_min(line.descent, lm.descent as int),
    };
    let gap = match policy {
        LineHeight::Font => int_max(line.gap, lm.line_gap as int),
        LineHeight::Ratio(f) => ratio_gap(ascent, descent, f as int),
        LineHeight::Smallest(f) => ratio_gap(ascent, descent, f as int),
    };
    let kern = if line.glyphs.len() == 0 {
        0
    } else {
        fm.kern_spec(line.glyphs.last().c, c)
    };
    let glyph = Placed {
        c,
        x: int_max(0, kern + g.xmin + line.width),
        y: g.ymin as int,
        width: g.width as nat,
        height: g.height as nat,
        font_index: font_index as nat,
        font_size: font_size as int,
    };
    LineView {
        width: line.width + g.advance_width,
        gap,
        ascent,
        descent,
        glyphs: line.glyphs.push(glyph),
    }
}

/// `lines` after the character `c`: a newline opens a new line, another
/// control character changes nothing, any other is placed on the last line.
pub open spec fn step(
    lines: Seq<LineView>,
    policy: LineHeight,
    fm: FontMetrics,
    c: char,
    font_index: usize,
    font_size: i64,
) -> Seq<LineView> {
    if c == '\n' {
        lines.push(empty_line())
    } else if is_control_char(c) {
        lines
    } else {
        lines.update(lines.len() - 1, place(lines.last(), policy, fm, c, font_index, font_size))
    }
}

/// `lines` after each character of `text` in turn.
pub open spec fn appended(
    lines: Seq<LineView>,
    policy: LineHeight,
    fm: FontMetrics,
    text: Seq<char>,
    font_index: usize,
    font_size: i64,
) -> Seq<LineView>
    decreases text.len(),
{
    if text.len() == 0 {
        lines
    } else {
        step(
            appended(lines, policy, fm, text.drop_last(), font_index, font_size),
            policy,
            fm,
            text.last(),
            font_index,
            font_size,
        )
    }
}

/// The widest line, and never less than zero.
pub open spec fn width_of(lines: Seq<LineView>) -> int
    decreases lines.len(),
{
    if lines.len() == 0 {
        0
    } else {
        int_max(lines.last().width, width_of(lines.drop_last()))
    }
}

/// The total height of `lines`, and the height of the last line that holds a
/// glyph (zero if none does). A line without glyphs takes the height of the
/// last line before it that holds one.
pub open spec fn heights(lines: Seq<LineView>) -> (int, int)
    decreases lines.len(),
{
    if lines.len() == 0 {
        (0, 0)
    } else {
        let prev = heights(lines.drop_last());
        let l = lines.last();
        if l.glyphs.len() == 0 {
            (prev.0 + prev.1, prev.1)
        } else {
            (prev.0 + line_height_of(l), line_height_of(l))
        }
    }
}

pub open spec fn height_of(lines: Seq<LineView>) -> int {
    heights(lines).0
}

/// How far a line of width `line_width` moves right in a block of width `block_width`.
pub open spec fn x_offset(align: HorizontalAlign, block_width: int, line_width: int) -> int {
    match align {
        HorizontalAlign::Left => 0,
        HorizontalAlign::Center => (block_width - line_width) / 2,
        HorizontalAlign::Right => block_width - line_width,
    }
}

/// A glyph of a line moved into the block: right by `x_off`, and from its
/// bitmap's bottom above `baseline` to its bitmap's top below the block's top.
pub open spec fn absolute(g: Placed, x_off: int, baseline: int) -> Placed {
    Placed { x: g.x + x_off, y: baseline - g.y - g.height * UNITS_PER_PIXEL, ..g }
}

/// The glyphs of `lines` in reading order, placed in a block of width
/// `block_width`: each line's baseline lies its ascent below the lines before it.
pub open spec fn placed_glyphs(lines: Seq<LineView>, align: HorizontalAlign, block_width: int) -> Seq<Placed>
    decreases lines.len(),
{
    if lines.len() == 0 {
        Seq::empty()
    } else {
        let prev = lines.drop_last();
        let l = lines.last();
        let off = x_offset(align, block_width, l.width);
        let baseline = height_of(prev) + l.ascent;
        placed_glyphs(prev, align, block_width) + l.glyphs.map_values(
            |g: Placed| absolute(g, off, baseline),
        )
    }
}

/// What finishing a layout of these lines gives.
pub open spec fn finished(lines: Seq<LineView>, align: HorizontalAlign) -> Seq<Placed> {
    placed_glyphs(lines, align, width_of(lines))
}

/// The block is at least as wide as each of its lines.
pub proof fn lemma_width_covers(lines: Seq<LineView>, i: int)
    requires
        0 <= i < lines.len(),
    ensures
        lines[i].width <= width_of(lines),
    decreases lines.len(),
{
    if i < lines.len() - 1 {
        lemma_width_covers(lines.drop_last(), i);
    }
}

/// `after` holds what `before` held, each line perhaps longer and more lines
/// after it, and every entry it adds is a clone of `user`.
pub open spec fn extends_with<U: Clone>(before: Seq<Seq<U>>, after: Seq<Seq<U>>, user: U) -> bool {
    &&& before.len() <= after.len()
    &&& forall|i: int| 0 <= i < before.len() ==> before[i].len() <= #[trigger] after[i].len()
    &&& forall|i: int, j: int|
        0 <= i < after.len() && 0 <= j < after[i].len() ==> if i < before.len() && j < before[i].len() {
            #[trigger] after[i][j] == before[i][j]
        } else {
            cloned(user, after[i][j])
        }
}

proof fn lemma_extends_with_trans<U: Clone>(a: Seq<Seq<U>>, b: Seq<Seq<U>>, c: Seq<Seq<U>>, user: U)
    requires
        extends_with(a, b, user),
        extends_with(b, c, user),
    ensures
        extends_with(a, c, user),
{
    assert forall|i: int, j: int| 0 <= i < c.len() && 0 <= j < c[i].len() implies if i < a.len() && j
        < a[i].len() {
        #[trigger] c[i][j] == a[i][j]
    } else {
        cloned(user, c[i][j])
    } by {
        if i < b.len() && j < b[i].len() {
            assert(c[i][j] == b[i][j]);
            if i < a.len() && j < a[i].len() {
                assert(b[i][j] == a[i][j]);
            } else {
                assert(cloned(user, b[i][j]));
            }
        }
    }
}

/// The number of characters of `text`, or `cap` if it has more.
fn count_up_to(text: &str, cap: usize) -> (n: usize)
    ensures
        n == if text@.len() < cap {
            text@.len()
        } else {
            cap as nat
        },
{
    broadcast use vstd::string::axiom_spec_iter, vstd::string::next_postcondition;

    let mut it: Chars = text.chars();
    let mut n: usize = 0;
    let ghost mut done: Seq<char> = Seq::empty();
    while n < cap
        invariant_except_break
            done + it.remaining() == text@,
            it.decrease() is Some,
        invariant
            n == done.len(),
            n <= cap,
        ensures
            n == if text@.len() < cap {
                text@.len()
            } else {
                cap as nat
            },
        decreases it.decrease()->0, cap - n,
    {
        match it.next() {
            None => {
                assert(done =~= text@);
                break;
            },
            Some(ch) => {
                assert(done.push(ch) + it.remaining() =~= text@);
                proof {
                    done = done.push(ch);
                }
                n = n + 1;
            },
        }
    }
    n
}

fn is_control(c: char) -> (r: bool)
    ensures
        r == is_control_char(c),
{
    let v = c as u32;
    v < 0x20 || (0x7f <= v && v <= 0x9f)
}

/// `p / UNITS_PER_PIXEL`, rounded down.
fn div_units_floor(p: i64) -> (r: i64)
    requires
        -0x1_0000_0000_0000 <= p <= 0x1_0000_0000_0000,
    ensures
        r == p as int / (UNITS_PER_PIXEL as int),
{
    if p >= 0 {
        p / UNITS_PER_PIXEL
    } else {
        let q = (-p + 63) / UNITS_PER_PIXEL;
        assert(-q == p as int / 64) by (nonlinear_arith)
            requires
                q == (-p + 63) / 64,
                p < 0,
        {
        }
        -q
    }
}

/// A line of the layout; glyph positions are relative to the line.
#[derive(Debug)]
struct Line<U: Clone> {
    width: i64,
    gap: i64,
    ascent: i64,
    descent: i64,
    glyphs: Vec<GlyphPosition<U>>,
}

impl<U: Clone> Line<U> {
    spec fn view_line(&self) -> LineView {
        LineView {
            width: self.width as int,
            gap: self.gap as int,
            ascent: self.ascent as int,
            descent: self.descent as int,
            glyphs: self.glyphs@.map_values(|g: GlyphPosition<U>| g.placed()),
        }
    }

    /// Bounds that keep every sum the layout forms within `i64`.
    spec fn wf(&self) -> bool {
        &&& self.glyphs@.len() <= MAX_CHARS
        &&& -(self.glyphs@.len() * MAX_METRIC) <= self.width <= self.glyphs@.len() * MAX_METRIC
        &&& 0 <= self.ascent <= 0x2000_0000
        &&& -0x2000_0000 <= self.descent <= 0
        &&& -0x20_0000_0000 <= self.gap <= 0x20_0000_0000
        &&& forall|i: int|
            0 <= i < self.glyphs@.len() ==> {
                let g = #[trigger] self.glyphs@[i];
                &&& 0 <= g.x <= 0x40_0000_0000_0000
                &&& -MAX_METRIC <= g.y <= MAX_METRIC
                &&& g.height <= MAX_BITMAP
            }
    }

    fn empty() -> (r: Line<U>)
        ensures
            r.wf(),
            r.glyphs@.len() == 0,
            r.view_line() == empty_line(),
    {
        let r = Line { width: 0, gap: 0, ascent: 0, descent: 0, glyphs: Vec::new() };
        assert(r.view_line().glyphs =~= Seq::<Placed>::empty());
        r
    }

    /// The height of this line including the gap below it.
    fn height(&self) -> (r: i64)
        requires
            self.wf(),
        ensures
            r == line_height_of(self.view_line()),
    {
        self.ascent - self.descent + self.gap
    }
}

/// Lays out runs of text line by line, then places every glyph.
pub struct Layout<U: Clone> {
    settings: LayoutSettings,
    lines: Vec<Line<U>>,
    count: usize,
}

impl<U: Clone> Layout<U> {
    /// The lines so far.
    pub closed spec fn view_lines(&self) -> Seq<LineView> {
        self.lines@.map_values(|l: Line<U>| l.view_line())
    }

    /// The payload of each glyph, line by line.
    pub closed spec fn users(&self) -> Seq<Seq<U>> {
        self.lines@.map_values(|l: Line<U>| l.glyphs@.map_values(|g: GlyphPosition<U>| g.user))
    }

    pub closed spec fn spec_settings(&self) -> LayoutSettings {
        self.settings
    }

    /// How many characters the appended runs held.
    pub closed spec fn spec_count(&self) -> nat {
        self.count as nat
    }

    pub closed spec fn wf(&self) -> bool {
        &&& self.settings.wf()
        &&& 1 <= self.lines@.len() <= self.count + 1
        &&& self.count <= MAX_CHARS
        &&& forall|i: int|
            0 <= i < self.lines@.len() ==> (#[trigger] self.lines@[i]).wf()
                && self.lines@[i].glyphs@.len() <= self.count
    }

    /// A layout with one empty line.
    pub fn new(settings: LayoutSettings) -> (r: Layout<U>)
        requires
            settings.wf(),
        ensures
            r.wf(),
            r.spec_settings() == settings,
            r.spec_count() == 0,
            r.view_lines() == seq![empty_line()],
    {
        let mut lines: Vec<Line<U>> = Vec::new();
        let first: Line<U> = Line::empty();
        assert(first.glyphs@.len() == 0);
        lines.push(first);
        let r = Layout { settings, lines, count: 0 };
        assert(r.lines@[0] == first);
        assert(r.view_lines() =~= seq![empty_line()]);
        r
    }

    /// How many characters the appended runs held.
    pub fn chars_appended(&self) -> (r: usize)
        ensures
            r == self.spec_count(),
    {
        self.count
    }

    /// Lays out `styled.text` after what is already there, with `font` giving
    /// the metrics of the run's font at the run's size. Refused, with nothing
    /// changed, where the policy needs line metrics and the font has none.
    pub fn append(&mut self, font: &FontMetrics, styled: StyledText<U>) -> (r: Result<(), LayoutError>)
        requires
            old(self).wf(),
            font.wf(),
        ensures
            final(self).wf(),
            final(self).spec_settings() == old(self).spec_settings(),
            needs_line_metrics(old(self).spec_settings().line_height) && font.line is None ==> r
                == Err::<(), LayoutError>(LayoutError::NoLineMetrics),
            !(needs_line_metrics(old(self).spec_settings().line_height) && font.line is None)
                && old(self).spec_count() + styled.text@.len() > MAX_CHARS ==> r == Err::<
                (),
                LayoutError,
            >(LayoutError::TooLong),
            r is Err ==> {
                &&& final(self).view_lines() == old(self).view_lines()
                &&& final(self).users() == old(self).users()
                &&& final(self).spec_count() == old(self).spec_count()
            },
            r is Ok <==> !(needs_line_metrics(old(self).spec_settings().line_height)
                && font.line is None) && old(self).spec_count() + styled.text@.len() <= MAX_CHARS,
            r is Ok ==> {
                &&& final(self).view_lines() == appended(
                    old(self).view_lines(),
                    old(self).spec_settings().line_height,
                    *font,
                    styled.text@,
                    styled.font_index,
                    styled.font_size,
                )
                &&& final(self).spec_count() == old(self).spec_count() + styled.text@.len()
                &&& extends_with(old(self).users(), final(self).users(), styled.user)
            },
    {
        broadcast use vstd::string::axiom_spec_iter, vstd::string::next_postcondition;

        let policy = self.settings.line_height;
        let lm = match font.line {
            Some(lm) => lm,
            None => {
                if let LineHeight::Smallest(_) = policy {
                    LineMetrics { ascent: 0, descent: 0, line_gap: 0 }
                } else {
                    return Err(LayoutError::NoLineMetrics);
                }
            },
        };
        assert(lm == line_metrics_or_zero(*font));
        let room = MAX_CHARS - self.count;
        if count_up_to(styled.text, room + 1) > room {
            return Err(LayoutError::TooLong);
        }
        let ghost start = self.view_lines();
        let ghost start_count = self.count;
        assert(extends_with(self.users(), self.users(), styled.user));
        let ghost start_users = self.users();
        let ghost mut done: Seq<char> = Seq::empty();
        let mut it: Chars = styled.text.chars();
        assert(appended(start, policy, *font, done, styled.font_index, styled.font_size) == start);
        loop
            invariant_except_break
                done + it.remaining() == styled.text@,
                it.decrease() is Some,
            invariant
                self.wf(),
                font.wf(),
                lm == line_metrics_or_zero(*font),
                lm.wf() || policy is Smallest,
                self.settings == old(self).settings,
                policy == self.settings.line_height,
                self.count == start_count + done.len(),
                start_count + styled.text@.len() <= MAX_CHARS,
                start_users == old(self).users(),
                extends_with(start_users, self.users(), styled.user),
                self.view_lines() == appended(
                    start,
                    policy,
                    *font,
                    done,
                    styled.font_index,
                    styled.font_size,
                ),
            ensures
                done == styled.text@,
            decreases it.decrease()->0,
        {
            let next = it.next();
            match next {
                None => {
                    assert(done =~= styled.text@);
                    break;
                },
                Some(ch) => {
                    let ghost done2 = done.push(ch);
                    assert(done2.drop_last() =~= done);
                    assert(done2 + it.remaining() =~= styled.text@);
                    let ghost mid_users = self.users();
                    self.add_char(font, ch, lm, &styled);
                    proof {
                        lemma_extends_with_trans(start_users, mid_users, self.users(), styled.user);
                        done = done2;
                    }
                },
            }
        }
        Ok(())
    }

    /// Handles one character of a run.
    fn add_char(&mut self, font: &FontMetrics, ch: char, lm: LineMetrics, styled: &StyledText<U>)
        requires
            old(self).wf(),
            font.wf(),
            lm == line_metrics_or_zero(*font),
            lm.wf() || old(self).settings.line_height is Smallest,
            old(self).count < MAX_CHARS,
        ensures
            final(self).wf(),
            final(self).settings == old(self).settings,
            final(self).count == old(self).count + 1,
            extends_with(old(self).users(), final(self).users(), styled.user),
            final(self).view_lines() == step(
                old(self).view_lines(),
                old(self).settings.line_height,
                *font,
                ch,
                styled.font_index,
                styled.font_size,
            ),
    {
        let policy = self.settings.line_height;
        let ghost before = self.view_lines();
        if ch == '\n' {
            let fresh: Line<U> = Line::empty();
            assert(fresh.glyphs@.len() == 0);
            self.lines.push(fresh);
            self.count = self.count + 1;
            assert(forall|i: int| 0 <= i < self.lines@.len() - 1 ==> self.lines@[i] == old(self).lines@[i]);
            assert(self.lines@[self.lines@.len() - 1] == fresh);
            assert(self.view_lines() =~= before.push(empty_line()));
            assert(fresh.glyphs@.map_values(|g: GlyphPosition<U>| g.user) =~= Seq::<U>::empty());
            assert(self.users() =~= old(self).users().push(Seq::<U>::empty()));
            return;
        }
        if is_control(ch) {
            self.count = self.count + 1;
            assert(self.view_lines() =~= before);
            assert(self.users() =~= old(self).users());
            return;
        }
        let n = self.lines.len();
        let mut line = self.lines.pop().unwrap();
        assert(line == old(self).lines@[n - 1]);
        assert(line.wf());
        let g = font.glyph(ch);
        match policy {
            LineHeight::Smallest(_) => {
                let top = (g.height as i64) * UNITS_PER_PIXEL + g.ymin;
                if top > line.ascent {
                    line.ascent = top;
                }
                if g.ymin < line.descent {
                    line.descent = g.ymin;
                }
            },
            _ => {
                if lm.ascent > line.ascent {
                    line.ascent = lm.ascent;
                }
                if lm.descent < line.descent {
                    line.descent = lm.descent;
                }
            },
        }
        match policy {
            LineHeight::Font => {
                if lm.line_gap > line.gap {
                    line.gap = lm.line_gap;
                }
            },
            LineHeight::Ratio(f) | LineHeight::Smallest(f) => {
                let extent = line.ascent - line.descent;
                assert(-0x400_0000_0000 <= extent * f <= 0x400_0000_0000) by (nonlinear_arith)
                    requires
                        0 <= extent <= 0x4000_0000,
                        -MAX_FACTOR <= f <= MAX_FACTOR,
                {
                }
                line.gap = div_units_floor(extent * f) - extent;
            },
        }
        let kern: i64 = if line.glyphs.len() == 0 {
            0
        } else {
            let last = line.glyphs.len() - 1;
            font.kern(line.glyphs[last].c, ch)
        };
        let pos = kern + g.xmin + line.width;
        let x = if pos < 0 {
            0
        } else {
            pos
        };
        let glyph = GlyphPosition {
            c: ch,
            x,
            y: g.ymin,
            width: g.width,
            height: g.height,
            font_index: styled.font_index,
            font_size: styled.font_size,
            user: styled.user.clone(),
        };
        let ghost old_glyphs = line.glyphs@;
        assert(cloned(styled.user, glyph.user));
        line.glyphs.push(glyph);
        line.width = line.width + g.advance_width;
        assert(line.view_line().glyphs =~= old_glyphs.map_values(|g: GlyphPosition<U>| g.placed()).push(glyph.placed()));
        assert(line.view_line() == place(before.last(), policy, *font, ch, styled.font_index, styled.font_size));
        self.lines.push(line);
        self.count = self.count + 1;
        assert(self.view_lines() =~= before.update(before.len() - 1, line.view_line()));
        let ghost ou = old(self).users();
        assert(line.glyphs@.map_values(|g: GlyphPosition<U>| g.user) =~= old_glyphs.map_values(
            |g: GlyphPosition<U>| g.user,
        ).push(glyph.user));
        assert(ou[ou.len() - 1] == old_glyphs.map_values(|g: GlyphPosition<U>| g.user));
        assert(self.users() =~= ou.update(
            ou.len() - 1,
            ou[ou.len() - 1].push(glyph.user),
        ));
    }

    /// The width of the widest line.
    pub fn width(&self) -> (r: i64)
        requires
            self.wf(),
        ensures
            r == width_of(self.view_lines()),
            0 <= r <= MAX_CHARS * MAX_METRIC,
    {
        let ghost lines = self.view_lines();
        let mut width: i64 = 0;
        let mut i: usize = 0;
        while i < self.lines.len()
            invariant
                self.wf(),
                lines == self.view_lines(),
                i <= lines.len(),
                width == width_of(lines.subrange(0, i as int)),
                0 <= width <= MAX_CHARS * MAX_METRIC,
            decreases lines.len() - i,
        {
            assert(lines.subrange(0, i + 1).drop_last() =~= lines.subrange(0, i as int));
            assert(self.lines@[i as int].wf());
            let w = self.lines[i].width;
            if w > width {
                width = w;
            }
            i = i + 1;
        }
        assert(lines.subrange(0, lines.len() as int) =~= lines);
        width
    }

    /// The total height of the lines; a line without glyphs is as high as the
    /// last line before it that has some.
    pub fn height(&self) -> (r: i64)
        requires
            self.wf(),
        ensures
            r == height_of(self.view_lines()),
    {
        let ghost lines = self.view_lines();
        let mut height: i64 = 0;
        let mut lastheight: i64 = 0;
        let mut i: usize = 0;
        while i < self.lines.len()
            invariant
                self.wf(),
                lines == self.view_lines(),
                i <= lines.len(),
                (height as int, lastheight as int) == heights(lines.subrange(0, i as int)),
                -(i * 0x40_0000_0000) <= height <= i * 0x40_0000_0000,
                -0x40_0000_0000 <= lastheight <= 0x40_0000_0000,
            decreases lines.len() - i,
        {
            assert(lines.subrange(0, i + 1).drop_last() =~= lines.subrange(0, i as int));
            assert(self.lines@[i as int].wf());
            if self.lines[i].glyphs.len() == 0 {
                height = height + lastheight;
            } else {
                let h = self.lines[i].height();
                height = height + h;
                lastheight = h;
            }
            i = i + 1;
        }
        assert(lines.subrange(0, lines.len() as int) =~= lines);
        height
    }

    /// Places every glyph in the block, in reading order. Consumes the layout.
    pub fn glyphs(self) -> (r: Vec<GlyphPosition<U>>)
        requires
            self.wf(),
        ensures
            r@.map_values(|g: GlyphPosition<U>| g.placed()) == finished(
                self.view_lines(),
                self.spec_settings().horizontal_align,
            ),
            r@.map_values(|g: GlyphPosition<U>| g.user) == self.users().flatten_alt(),
    {
        let ghost lines = self.view_lines();
        let ghost orig = self.lines@;
        let ghost ulines = self.users();
        let align = self.settings.horizontal_align;
        let width = self.width();
        let ghost count = self.count;
        let mut ret: Vec<GlyphPosition<U>> = Vec::new();
        let mut baseline: i64 = 0;
        let mut lastheight: i64 = 0;
        let mut all = self.lines;
        let n = all.len();
        let mut i: usize = 0;
        while i < n
            invariant
                n == all@.len(),
                n == orig.len(),
                n <= count + 1,
                count <= MAX_CHARS,
                lines == orig.map_values(|l: Line<U>| l.view_line()),
                ulines == orig.map_values(
                    |l: Line<U>| l.glyphs@.map_values(|g: GlyphPosition<U>| g.user),
                ),
                ret@.map_values(|g: GlyphPosition<U>| g.user) == ulines.subrange(0, i as int).flatten_alt(),
                forall|j: int| 0 <= j < n ==> (#[trigger] orig[j]).wf() && orig[j].glyphs@.len() <= count,
                forall|j: int| i <= j < n ==> #[trigger] all@[j] == orig[j],
                i <= n,
                width == width_of(lines),
                0 <= width <= MAX_CHARS * MAX_METRIC,
                (baseline as int, lastheight as int) == heights(lines.subrange(0, i as int)),
                -(i * 0x40_0000_0000) <= baseline <= i * 0x40_0000_0000,
                -0x40_0000_0000 <= lastheight <= 0x40_0000_0000,
                ret@.map_values(|g: GlyphPosition<U>| g.placed()) == placed_glyphs(
                    lines.subrange(0, i as int),
                    align,
                    width as int,
                ),
            decreases n - i,
        {
            let ghost prefix = lines.subrange(0, i as int);
            assert(lines.subrange(0, i + 1).drop_last() =~= prefix);
            assert(ulines.subrange(0, i + 1).drop_last() =~= ulines.subrange(0, i as int));
            assert(ulines.subrange(0, i + 1).last() == ulines[i as int]);
            let mut line: Line<U> = Line::empty();
            all.set_and_swap(i, &mut line);
            assert(line == orig[i as int]);
            assert(line.wf());
            let ghost lv = line.view_line();
            assert(lv == lines[i as int]);
            assert(lines.subrange(0, i + 1).last() == lv);
            assert(ulines[i as int] == line.glyphs@.map_values(|g: GlyphPosition<U>| g.user));
            if line.glyphs.len() == 0 {
                baseline = baseline + lastheight;
                assert(ulines[i as int] =~= Seq::<U>::empty());
                assert(ret@.map_values(|g: GlyphPosition<U>| g.user) =~= ulines.subrange(0, i as int).flatten_alt() + ulines[i as int]);
                assert(lv.glyphs.map_values(|g: Placed| absolute(g, 0, 0)) =~= Seq::<Placed>::empty());
                assert(ret@.map_values(|g: GlyphPosition<U>| g.placed()) =~= placed_glyphs(
                    prefix,
                    align,
                    width as int,
                ) + lv.glyphs.map_values(
                    |g: Placed|
                        absolute(
                            g,
                            x_offset(align, width as int, lv.width),
                            height_of(prefix) + lv.ascent,
                        ),
                ));
            } else {
                proof {
                    lemma_width_covers(lines, i as int);
                }
                let x_off: i64 = match align {
                    HorizontalAlign::Left => 0,
                    HorizontalAlign::Center => (width - line.width) / 2,
                    HorizontalAlign::Right => width - line.width,
                };
                let h = line.height();
                let b = baseline + line.ascent;
                let descent = line.descent;
                let gap = line.gap;
                let ghost start = ret@.map_values(|g: GlyphPosition<U>| g.placed());
                let ghost start_u = ret@.map_values(|g: GlyphPosition<U>| g.user);
                let ghost gs = line.glyphs@;
                let mut rest = line.glyphs;
                let mut rev: Vec<GlyphPosition<U>> = Vec::new();
                let len = rest.len();
                while rest.len() > 0
                    invariant
                        len == gs.len(),
                        rest@.len() + rev@.len() == len,
                        forall|j: int| 0 <= j < rest@.len() ==> #[trigger] rest@[j] == gs[j],
                        forall|j: int| 0 <= j < rev@.len() ==> #[trigger] rev@[j] == gs[len - 1 - j],
                    decreases rest@.len(),
                {
                    let g = rest.pop().unwrap();
                    rev.push(g);
                }
                let mut k: usize = 0;
                while rev.len() > 0
                    invariant
                        len == gs.len(),
                        k <= len,
                        rev@.len() == len - k,
                        forall|j: int| 0 <= j < rev@.len() ==> #[trigger] rev@[j] == gs[len - 1 - j],
                        forall|j: int| 0 <= j < gs.len() ==> {
                            let g = #[trigger] gs[j];
                            &&& 0 <= g.x <= 0x40_0000_0000_0000
                            &&& -MAX_METRIC <= g.y <= MAX_METRIC
                            &&& g.height <= MAX_BITMAP
                        },
                        -0x20_0000_0000_0000 <= x_off <= 0x20_0000_0000_0000,
                        -0x4100_0000_0000_0000 <= b <= 0x4100_0000_0000_0000,
                        ret@.map_values(|g: GlyphPosition<U>| g.placed()) == start + gs.subrange(
                            0,
                            k as int,
                        ).map_values(|g: GlyphPosition<U>| absolute(g.placed(), x_off as int, b as int)),
                        ret@.map_values(|g: GlyphPosition<U>| g.user) == start_u + gs.subrange(
                            0,
                            k as int,
                        ).map_values(|g: GlyphPosition<U>| g.user),
                    decreases rev@.len(),
                {
                    let ghost before = ret@.map_values(|g: GlyphPosition<U>| g.placed());
                    let ghost before_u = ret@.map_values(|g: GlyphPosition<U>| g.user);
                    let mut g = rev.pop().unwrap();
                    assert(g == gs[k as int]);
                    g.x = g.x + x_off;
                    g.y = b - g.y - (g.height as i64) * UNITS_PER_PIXEL;
                    ret.push(g);
                    assert(gs.subrange(0, k + 1) =~= gs.subrange(0, k as int).push(gs[k as int]));
                    assert(ret@.map_values(|g: GlyphPosition<U>| g.placed()) =~= before.push(g.placed()));
                    assert(ret@.map_values(|g: GlyphPosition<U>| g.user) =~= before_u.push(g.user));
                    k = k + 1;
                }
                assert(gs.subrange(0, gs.len() as int) =~= gs);
                assert(gs.map_values(|g: GlyphPosition<U>| absolute(g.placed(), x_off as int, b as int))
                    =~= lv.glyphs.map_values(|g: Placed| absolute(g, x_off as int, b as int)));
                assert(gs.map_values(|g: GlyphPosition<U>| g.user) =~= ulines[i as int]);
                assert(x_off == x_offset(align, width as int, lv.width));
                assert(b == height_of(prefix) + lv.ascent);
                assert(ret@.map_values(|g: GlyphPosition<U>| g.placed()) =~= placed_glyphs(
                    prefix,
                    align,
                    width as int,
                ) + lv.glyphs.map_values(
                    |g: Placed|
                        absolute(
                            g,
                            x_offset(align, width as int, lv.width),
                            height_of(prefix) + lv.ascent,
                        ),
                ));
                baseline = b - descent + gap;
                lastheight = h;
            }
            i = i + 1;
        }
        assert(lines.subrange(0, n as int) =~= lines);
        assert(ulines.subrange(0, n as int) =~= ulines);
        ret
    }
}


/// How many characters of `text` are not control characters.
pub open spec fn drawable_count(text: Seq<char>) -> nat
    decreases text.len(),
{
    if text.len() == 0 {
        0
    } else {
        drawable_count(text.drop_last()) + if is_control_char(text.last()) {
            0nat
        } else {
            1nat
        }
    }
}

proof fn lemma_place_adds_glyph(
    line: LineView,
    policy: LineHeight,
    fm: FontMetrics,
    c: char,
    font_index: usize,
    font_size: i64,
)
    ensures
        place(line, policy, fm, c, font_index, font_size).glyphs.len() == line.glyphs.len() + 1,
{
}

/// Text without a newline stays on the last line, which gains one glyph for
/// each character that is not a control character; the other lines keep what
/// they had.
pub proof fn lemma_no_newline_one_line(
    lines: Seq<LineView>,
    policy: LineHeight,
    fm: FontMetrics,
    text: Seq<char>,
    font_index: usize,
    font_size: i64,
)
    requires
        lines.len() >= 1,
        forall|i: int| 0 <= i < text.len() ==> text[i] != '\n',
    ensures
        appended(lines, policy, fm, text, font_index, font_size).len() == lines.len(),
        appended(lines, policy, fm, text, font_index, font_size).drop_last() == lines.drop_last(),
        appended(lines, policy, fm, text, font_index, font_size).last().glyphs.len()
            == lines.last().glyphs.len() + drawable_count(text),
    decreases text.len(),
{
    if text.len() > 0 {
        lemma_no_newline_one_line(lines, policy, fm, text.drop_last(), font_index, font_size);
        let prev = appended(lines, policy, fm, text.drop_last(), font_index, font_size);
        let next = appended(lines, policy, fm, text, font_index, font_size);
        assert(text.last() == text[text.len() - 1]);
        if !is_control_char(text.last()) {
            let placed = place(prev.last(), policy, fm, text.last(), font_index, font_size);
            assert(next == prev.update(prev.len() - 1, placed));
            assert(next.drop_last() =~= prev.drop_last());
            assert(next.last() == placed);
            lemma_place_adds_glyph(prev.last(), policy, fm, text.last(), font_index, font_size);
        } else {
            assert(next == prev);
        }
    }
}

/// A new layout given text without a newline has one line, and finishing it
/// gives one glyph for each character that is not a control character.
pub proof fn lemma_single_line_glyph_count(
    policy: LineHeight,
    align: HorizontalAlign,
    fm: FontMetrics,
    text: Seq<char>,
    font_index: usize,
    font_size: i64,
)
    requires
        forall|i: int| 0 <= i < text.len() ==> text[i] != '\n',
    ensures
        appended(seq![empty_line()], policy, fm, text, font_index, font_size).len() == 1,
        finished(appended(seq![empty_line()], policy, fm, text, font_index, font_size), align).len()
            == drawable_count(text),
{
    let lines = appended(seq![empty_line()], policy, fm, text, font_index, font_size);
    lemma_no_newline_one_line(seq![empty_line()], policy, fm, text, font_index, font_size);
    let w = width_of(lines);
    assert(lines.drop_last() =~= Seq::<LineView>::empty());
    assert(placed_glyphs(lines.drop_last(), align, w) == Seq::<Placed>::empty());
    assert(placed_glyphs(lines, align, w).len() == lines.last().glyphs.len());
}

/// `n` lines without glyphs.
pub open spec fn empty_lines(n: nat) -> Seq<LineView> {
    Seq::new(n, |i: int| empty_line())
}

/// `n` newlines.
pub open spec fn newlines(n: nat) -> Seq<char> {
    Seq::new(n, |i: int| '\n')
}

/// `n` newlines add `n` empty lines, and each of them is as high as the last
/// line before it that holds glyphs (zero if none does).
pub proof fn lemma_newlines_add_empty_lines(
    lines: Seq<LineView>,
    policy: LineHeight,
    fm: FontMetrics,
    n: nat,
    font_index: usize,
    font_size: i64,
)
    ensures
        appended(lines, policy, fm, newlines(n), font_index, font_size) == lines + empty_lines(n),
        height_of(lines + empty_lines(n)) == height_of(lines) + n * heights(lines).1,
        heights(lines + empty_lines(n)).1 == heights(lines).1,
    decreases n,
{
    if n == 0 {
        assert(lines + empty_lines(0) =~= lines);
    } else {
        let m = (n - 1) as nat;
        lemma_newlines_add_empty_lines(lines, policy, fm, m, font_index, font_size);
        assert(newlines(n).drop_last() =~= newlines(m));
        assert(newlines(n).last() == '\n');
        assert((lines + empty_lines(m)).push(empty_line()) =~= lines + empty_lines(n));
        assert((lines + empty_lines(n)).drop_last() =~= lines + empty_lines(m));
        let h1 = heights(lines).1;
        assert(height_of(lines) + m * h1 + h1 == height_of(lines) + n * h1) by (nonlinear_arith)
            requires
                m + 1 == n,
        {
        }
    }
}

/// Appending two texts in turn, in one font at one size, is appending the
/// two joined.
pub proof fn lemma_append_joins(
    lines: Seq<LineView>,
    policy: LineHeight,
    fm: FontMetrics,
    first: Seq<char>,
    second: Seq<char>,
    font_index: usize,
    font_size: i64,
)
    ensures
        appended(
            appended(lines, policy, fm, first, font_index, font_size),
            policy,
            fm,
            second,
            font_index,
            font_size,
        ) == appended(lines, policy, fm, first + second, font_index, font_size),
        width_of(
            appended(
                appended(lines, policy, fm, first, font_index, font_size),
                policy,
                fm,
                second,
                font_index,
                font_size,
            ),
        ) == width_of(appended(lines, policy, fm, first + second, font_index, font_size)),
    decreases second.len(),
{
    if second.len() == 0 {
        assert(first + second =~= first);
    } else {
        lemma_append_joins(lines, policy, fm, first, second.drop_last(), font_index, font_size);
        assert((first + second).drop_last() =~= first + second.drop_last());
        assert((first + second).last() == second.last());
    }
}

/// On a single line of non-negative width, every alignment places the glyphs
/// as left alignment does.
pub proof fn lemma_single_line_alignment(l: LineView, align: HorizontalAlign)
    requires
        l.width >= 0,
    ensures
        finished(seq![l], align) == finished(seq![l], HorizontalAlign::Left),
{
    let lines = seq![l];
    assert(lines.drop_last() =~= Seq::<LineView>::empty());
    assert(lines.last() == l);
    assert(width_of(lines.drop_last()) == 0);
    assert(width_of(lines) == l.width);
    assert(x_offset(align, l.width, l.width) == 0);
    assert(placed_glyphs(lines.drop_last(), align, l.width) == Seq::<Placed>::empty());
    assert(placed_glyphs(lines.drop_last(), HorizontalAlign::Left, l.width) == Seq::<Placed>::empty());
    assert(placed_glyphs(lines, align, l.width) =~= placed_glyphs(
        lines,
        HorizontalAlign::Left,
        l.width,
    ));
}

/// The glyphs of two lines: those of the first line, then those of the second.
pub proof fn lemma_two_lines_placed(l0: LineView, l1: LineView, align: HorizontalAlign, w: int)
    ensures
        placed_glyphs(seq![l0, l1], align, w) == l0.glyphs.map_values(
            |g: Placed| absolute(g, x_offset(align, w, l0.width), l0.ascent),
        ) + l1.glyphs.map_values(
            |g: Placed|
                absolute(g, x_offset(align, w, l1.width), height_of(seq![l0]) + l1.ascent),
        ),
{
    let lines = seq![l0, l1];
    let first = seq![l0];
    assert(lines.drop_last() =~= first);
    assert(lines.last() == l1);
    assert(first.drop_last() =~= Seq::<LineView>::empty());
    assert(first.last() == l0);
    assert(heights(first.drop_last()) == (0int, 0int));
    if l0.glyphs.len() == 0 {
        assert(l0.glyphs.map_values(|g: Placed| absolute(g, x_offset(align, w, l0.width), l0.ascent))
            =~= Seq::<Placed>::empty());
    }
    assert(placed_glyphs(first.drop_last(), align, w) == Seq::<Placed>::empty());
    assert(placed_glyphs(first, align, w) =~= l0.glyphs.map_values(
        |g: Placed| absolute(g, x_offset(align, w, l0.width), l0.ascent),
    ));
}

/// Of two lines, each glyph under right alignment lies further right than
/// under left alignment by the block's width less its line's width, and under
/// center alignment by half that, rounded down; heights do not change.
pub proof fn lemma_two_line_alignment(l0: LineView, l1: LineView)
    ensures
        ({
            let lines = seq![l0, l1];
            let w = width_of(lines);
            let left = finished(lines, HorizontalAlign::Left);
            let center = finished(lines, HorizontalAlign::Center);
            let right = finished(lines, HorizontalAlign::Right);
            let n0 = l0.glyphs.len() as int;
            &&& left.len() == center.len() == right.len() == n0 + l1.glyphs.len()
            &&& forall|j: int|
                0 <= j < n0 ==> {
                    &&& right[j].x == left[j].x + (w - l0.width)
                    &&& center[j].x == left[j].x + (w - l0.width) / 2
                    &&& right[j].y == left[j].y == center[j].y
                }
            &&& forall|j: int|
                n0 <= j < left.len() ==> {
                    &&& right[j].x == left[j].x + (w - l1.width)
                    &&& center[j].x == left[j].x + (w - l1.width) / 2
                    &&& right[j].y == left[j].y == center[j].y
                }
        }),
{
    let w = width_of(seq![l0, l1]);
    lemma_two_lines_placed(l0, l1, HorizontalAlign::Left, w);
    lemma_two_lines_placed(l0, l1, HorizontalAlign::Center, w);
    lemma_two_lines_placed(l0, l1, HorizontalAlign::Right, w);
}

} // verus!
