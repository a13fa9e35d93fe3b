use vstd::prelude::*;

verus! {

/// Bound on a glyph's bitmap height and on the magnitude of its `ymin`, in pixels.
pub const MAX_GLYPH_EXTENT: i32 = 0x1_0000;

/// (height, depth below the baseline) of a sentence after one more glyph
/// whose bitmap is `g.1` pixels high and whose bottom lies `g.0` pixels above
/// the baseline. A glyph that reaches below the baseline deepens the sentence
/// and the whole height with it, and raises the height to fit its part above
/// the baseline; a glyph that does not only raises the height to its top.
pub open spec fn extent_step(acc: (int, int), g: (i32, usize)) -> (int, int) {
    let height = acc.0;
    let depth = acc.1;
    let ymin = g.0 as int;
    let h = g.1 as int;
    if ymin >= 0 {
        (if height < h + ymin { h + ymin } else { height }, depth)
    } else {
        let below = -ymin;
        let above = h - below;
        let height2 = if depth < below { height + below - depth } else { height };
        let depth2 = if depth < below { below } else { depth };
        if height2 - depth2 < above {
            (above + depth2, depth2)
        } else {
            (height2, depth2)
        }
    }
}

/// (height, depth below the baseline) of a sentence of these glyphs, each
/// given as (`ymin`, bitmap height) in pixels.
pub open spec fn sentence_extent_of(glyphs: Seq<(i32, usize)>) -> (int, int)
    decreases glyphs.len(),
{
    if glyphs.len() == 0 {
        (0, 0)
    } else {
        extent_step(sentence_extent_of(glyphs.drop_last()), glyphs.last())
    }
}

pub open spec fn glyph_extent_ok(g: (i32, usize)) -> bool {
    &&& -MAX_GLYPH_EXTENT <= g.0 <= MAX_GLYPH_EXTENT
    &&& g.1 <= MAX_GLYPH_EXTENT as usize
    &&& g.0 < 0 ==> -g.0 <= g.1
}

/// The height of a one-line sentence and the depth of its baseline above
/// the bottom, from each glyph's (`ymin`, bitmap height) in pixels.
pub fn sentence_extent(glyphs: &[(i32, usize)]) -> (r: (usize, usize))
    requires
        forall|i: int| 0 <= i < glyphs@.len() ==> glyph_extent_ok(#[trigger] glyphs@[i]),
    ensures
        (r.0 as int, r.1 as int) == sentence_extent_of(glyphs@),
{
    let mut height: usize = 0;
    let mut depth: usize = 0;
    let mut i: usize = 0;
    while i < glyphs.len()
        invariant
            i <= glyphs@.len(),
            forall|j: int| 0 <= j < glyphs@.len() ==> glyph_extent_ok(#[trigger] glyphs@[j]),
            (height as int, depth as int) == sentence_extent_of(glyphs@.subrange(0, i as int)),
            depth <= MAX_GLYPH_EXTENT,
            depth <= height <= 2 * MAX_GLYPH_EXTENT + depth,
        decreases glyphs@.len() - i,
    {
        assert(glyphs@.subrange(0, i + 1).drop_last() =~= glyphs@.subrange(0, i as int));
        let (ymin, h) = glyphs[i];
        assert(glyph_extent_ok(glyphs@[i as int]));
        if ymin >= 0 {
            let top = h + ymin as usize;
            if height < top {
                height = top;
            }
        } else {
            let below = (-ymin) as usize;
            let above = h - below;
            if depth < below {
                height = height + (below - depth);
                depth = below;
            }
            if height - depth < above {
                height = above + depth;
            }
        }
        i = i + 1;
    }
    assert(glyphs@.subrange(0, glyphs@.len() as int) =~= glyphs@);
    (height, depth)
}

} // verus!
