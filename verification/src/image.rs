//! The pixel grid itself.

use crate::layout::{
    in_grid, lemma_offset_in_range, lemma_offset_injective, lemma_position_is_a_cell, offset,
};
use std::ops::Index;
use vstd::prelude::*;

verus! {

/// A grid of `height` rows of `width` pixels each, stored row after row in
/// one flat sequence.
pub struct Image<P> {
    width: usize,
    height: usize,
    pixels: Vec<P>,
}

/// `value` is what `P::default()` returns.
pub open spec fn is_default<P: Default>(value: P) -> bool {
    call_ensures(P::default, (), value)
}

impl<P> Image<P> {
    /// The pixels in row-major order.
    pub closed spec fn view(&self) -> Seq<P> {
        self.pixels@
    }

    /// Number of pixels in a row.
    pub closed spec fn spec_width(&self) -> usize {
        self.width
    }

    /// Number of rows.
    pub closed spec fn spec_height(&self) -> usize {
        self.height
    }

    /// The storage holds exactly one pixel for each cell of the grid.
    pub open spec fn well_formed(&self) -> bool {
        self@.len() == self.width() * self.height()
    }

    /// Row `y`, column `x` names a cell of this image.
    pub open spec fn contains(&self, y: int, x: int) -> bool {
        in_grid(self.width() as int, self.height() as int, y, x)
    }

    /// `image[index]` is defined: the image is well-formed and `index`, a row
    /// and a column in that order, names one of its cells.
    pub open spec fn indexable(&self, index: (usize, usize)) -> bool {
        self.well_formed() && self.contains(index.0 as int, index.1 as int)
    }

    /// The pixel in row `y`, column `x`.
    pub open spec fn pixel(&self, y: int, x: int) -> P
        recommends
            self.well_formed(),
            self.contains(y, x),
    {
        self@[offset(self.width() as int, y, x)]
    }

    /// Number of pixels in a row.
    #[verifier::when_used_as_spec(spec_width)]
    pub fn width(&self) -> (width: usize)
        ensures
            width == self.width(),
    {
        self.width
    }

    /// Number of rows.
    #[verifier::when_used_as_spec(spec_height)]
    pub fn height(&self) -> (height: usize)
        ensures
            height == self.height(),
    {
        self.height
    }
}

impl<P> Image<P> where P: Default + Copy {
    /// An image of the given size with every pixel set to `P::default()`.
    pub fn new(width: usize, height: usize) -> (image: Image<P>)
        requires
            width * height <= usize::MAX,
        ensures
            image.well_formed(),
            image.width() == width,
            image.height() == height,
            image@.len() == width * height,
            exists|fill: P|
                is_default(fill) && forall|i: int|
                    0 <= i < image@.len() ==> #[trigger] image@[i] == fill,
    {
        let count: usize = width * height;
        let fill = P::default();
        let mut pixels: Vec<P> = Vec::with_capacity(count);
        while pixels.len() < count
            invariant
                pixels.len() <= count,
                forall|i: int| 0 <= i < pixels.len() ==> pixels@[i] == fill,
            decreases count - pixels.len(),
        {
            pixels.push(fill);
        }
        let image = Image { width, height, pixels };
        assert(is_default(fill) && forall|i: int|
            0 <= i < image@.len() ==> #[trigger] image@[i] == fill);
        image
    }

    /// All pixels, row after row.
    pub fn as_slice(&self) -> (slice: &[P])
        ensures
            slice@ == self@,
    {
        self.pixels.as_slice()
    }

    /// All pixels, row after row, open to editing in place. What the slice
    /// holds when the borrow ends is what the image holds from then on; its
    /// width and height stay as they are, and so a well-formed image stays
    /// well-formed under every edit that keeps the length of the slice.
    pub fn as_slice_mut(&mut self) -> (slice: &mut [P])
        ensures
            slice@ == old(self)@,
            final(self)@ == final(slice)@,
            final(self).width() == old(self).width(),
            final(self).height() == old(self).height(),
            old(self).well_formed() && final(slice)@.len() == slice@.len()
                ==> final(self).well_formed(),
    {
        self.pixels.as_mut_slice()
    }
}

impl<P> vstd::std_specs::core::IndexSpecImpl<(usize, usize)> for Image<P> {
    /// What `image[index]` asks of its caller.
    open spec fn index_req(&self, index: &(usize, usize)) -> bool {
        self.indexable(*index)
    }
}

impl<P> Index<(usize, usize)> for Image<P> {
    type Output = P;

    /// The pixel in row `index.0`, column `index.1`, for an `index` that is
    /// `indexable`.
    fn index(&self, index: (usize, usize)) -> (pixel: &P)
        ensures
            offset(self.width() as int, index.0 as int, index.1 as int) < self@.len(),
            *pixel == self.pixel(index.0 as int, index.1 as int),
    {
        let (y, x) = index;
        proof {
            lemma_offset_in_range(self.width as int, self.height as int, y as int, x as int);
            assert(self@.len() == self.pixels.len());
        }
        &self.pixels[y * self.width + x]
    }
}

impl<P> Image<P> {
    /// The pixel in row `index.0`, column `index.1`, open to editing in
    /// place. What it holds when the borrow ends replaces that one pixel;
    /// all others stay as they are.
    pub fn index_mut(&mut self, index: (usize, usize)) -> (pixel: &mut P)
        requires
            old(self).indexable(index),
        ensures
            offset(old(self).width() as int, index.0 as int, index.1 as int) < old(self)@.len(),
            *pixel == old(self).pixel(index.0 as int, index.1 as int),
            final(self)@ == old(self)@.update(
                offset(old(self).width() as int, index.0 as int, index.1 as int),
                *final(pixel),
            ),
            final(self).width() == old(self).width(),
            final(self).height() == old(self).height(),
            final(self).well_formed(),
    {
        let (y, x) = index;
        proof {
            lemma_offset_in_range(self.width as int, self.height as int, y as int, x as int);
            assert(self@.len() == self.pixels.len());
        }
        &mut self.pixels[y * self.width + x]
    }
}

impl<P> Image<P> {
    /// This image is `source` converted pixel by pixel: it has the width and
    /// height of `source`, and each of its pixels is what `convert` returns
    /// for the pixel at the same place in `source`.
    pub open spec fn is_conversion_of<Q, F: Fn(&Q) -> P>(
        &self,
        source: &Image<Q>,
        convert: F,
    ) -> bool {
        &&& self.width() == source.width()
        &&& self.height() == source.height()
        &&& self@.len() == source@.len()
        &&& forall|i: int|
            0 <= i < source@.len() ==> call_ensures(convert, (&source@[i],), #[trigger] self@[i])
    }

    /// Builds an image of the width and height of `img` by converting each
    /// pixel of `img` with `convert`; every pixel keeps its place.
    pub fn convert_from<Q, F>(img: &Image<Q>, convert: F) -> (image: Image<P>) where
        F: Fn(&Q) -> P,

        requires
            forall|i: int| 0 <= i < img@.len() ==> call_requires(convert, (&#[trigger] img@[i],)),
        ensures
            image.is_conversion_of(img, convert),
            img.well_formed() ==> image.well_formed(),
    {
        let mut pixels: Vec<P> = Vec::with_capacity(img.pixels.len());
        let mut i: usize = 0;
        while i < img.pixels.len()
            invariant
                i <= img.pixels.len(),
                pixels.len() == i,
                forall|k: int|
                    0 <= k < img@.len() ==> call_requires(convert, (&#[trigger] img@[k],)),
                forall|k: int|
                    0 <= k < i ==> call_ensures(convert, (&img@[k],), #[trigger] pixels@[k]),
            decreases img.pixels.len() - i,
        {
            assert(img.pixels@[i as int] == img@[i as int]);
            let converted = convert(&img.pixels[i]);
            pixels.push(converted);
            i += 1;
        }
        Image { width: img.width, height: img.height, pixels }
    }

    /// Builds an image of the width and height of this one by converting
    /// each of its pixels with `convert`; every pixel keeps its place.
    pub fn convert_into<Q, F>(&self, convert: F) -> (image: Image<Q>) where
        F: Fn(&P) -> Q,

        requires
            forall|i: int| 0 <= i < self@.len() ==> call_requires(convert, (&#[trigger] self@[i],)),
        ensures
            image.is_conversion_of(self, convert),
            self.well_formed() ==> image.well_formed(),
    {
        Image::convert_from(self, convert)
    }

    /// A conversion keeps every pixel in its row and column: the pixel in
    /// row `y`, column `x` of the result is what `convert` returns for the
    /// pixel in row `y`, column `x` of the source.
    pub proof fn lemma_conversion_keeps_places<Q, F: Fn(&Q) -> P>(
        image: Image<P>,
        source: Image<Q>,
        convert: F,
        y: int,
        x: int,
    )
        requires
            source.well_formed(),
            source.contains(y, x),
            image.is_conversion_of(&source, convert),
        ensures
            image.well_formed(),
            image.contains(y, x),
            call_ensures(convert, (&source.pixel(y, x),), image.pixel(y, x)),
    {
        lemma_offset_in_range(source.width() as int, source.height() as int, y, x);
    }

    /// Converting an image and converting the result back: if a single
    /// pixel converted there and back always comes out `close` to what it
    /// was, then every pixel of the image comes out `close` to what it was,
    /// in an image of the same width and height.
    pub proof fn lemma_round_trip_stays_close<Q, F: Fn(&P) -> Q, G: Fn(&Q) -> P>(
        start: Image<P>,
        there: Image<Q>,
        back_again: Image<P>,
        forth: F,
        back: G,
        close: spec_fn(P, P) -> bool,
    )
        requires
            there.is_conversion_of(&start, forth),
            back_again.is_conversion_of(&there, back),
            forall|p: P, q: Q, r: P|
                #[trigger] call_ensures(forth, (&p,), q) && #[trigger] call_ensures(
                    back,
                    (&q,),
                    r,
                ) ==> close(p, r),
        ensures
            back_again.width() == start.width(),
            back_again.height() == start.height(),
            back_again@.len() == start@.len(),
            forall|i: int| 0 <= i < start@.len() ==> close(start@[i], #[trigger] back_again@[i]),
    {
        assert forall|i: int| 0 <= i < start@.len() implies close(
            start@[i],
            #[trigger] back_again@[i],
        ) by {
            assert(call_ensures(forth, (&start@[i],), there@[i]));
            assert(call_ensures(back, (&there@[i],), back_again@[i]));
        }
    }
}

impl<P: Clone> Clone for Image<P> {
    /// An image of the same size whose pixels are clones of this one's.
    fn clone(&self) -> (image: Self)
        ensures
            image.width() == self.width(),
            image.height() == self.height(),
            image@.len() == self@.len(),
            forall|i: int| 0 <= i < self@.len() ==> cloned(#[trigger] self@[i], image@[i]),
            self.well_formed() ==> image.well_formed(),
    {
        Image { width: self.width, height: self.height, pixels: self.pixels.clone() }
    }
}

impl<P> Image<P> {
    /// Reading a pixel after writing it gives back what was written, both
    /// through its row and column and at `y * width + x` in the flat view;
    /// every other pixel reads as it did before.
    ///
    /// `before` and `after` are an image before and after `value` is written
    /// to row `y`, column `x`, as `index_mut` relates them.
    pub proof fn lemma_written_pixel_is_read(
        before: Image<P>,
        after: Image<P>,
        y: int,
        x: int,
        value: P,
    )
        requires
            before.well_formed(),
            before.contains(y, x),
            after.width() == before.width(),
            after.height() == before.height(),
            after@ == before@.update(offset(before.width() as int, y, x), value),
        ensures
            after.well_formed(),
            after.pixel(y, x) == value,
            after@[y * after.width() + x] == value,
            forall|y2: int, x2: int|
                after.contains(y2, x2) && (y2 != y || x2 != x) ==> #[trigger] after.pixel(y2, x2)
                    == before.pixel(y2, x2),
    {
        let width = before.width() as int;
        let height = before.height() as int;
        lemma_offset_in_range(width, height, y, x);
        assert forall|y2: int, x2: int|
            after.contains(y2, x2) && (y2 != y || x2 != x) implies #[trigger] after.pixel(y2, x2)
            == before.pixel(y2, x2) by {
            lemma_offset_in_range(width, height, y2, x2);
            if offset(width, y2, x2) == offset(width, y, x) {
                lemma_offset_injective(width, height, y, x, y2, x2);
            }
        }
    }

    /// The flat view holds the pixels of the grid and nothing else: its
    /// element at position `i` is the pixel in row `i / width`, column
    /// `i % width`.
    pub proof fn lemma_flat_element_is_a_pixel(image: Image<P>, i: int)
        requires
            image.well_formed(),
            0 <= i < image@.len(),
        ensures
            image.contains(i / (image.width() as int), i % (image.width() as int)),
            image.pixel(i / (image.width() as int), i % (image.width() as int)) == image@[i],
    {
        lemma_position_is_a_cell(image.width() as int, image.height() as int, i);
    }

    /// Indexing is defined for the rows below `height` and the columns below
    /// `width` and for no others, so an image without rows or without
    /// columns has no coordinate that may be indexed.
    pub proof fn lemma_index_defined_inside_only(image: Image<P>, y: usize, x: usize)
        requires
            image.well_formed(),
        ensures
            image.indexable((y, x)) <==> y < image.height() && x < image.width(),
            image.indexable((y, x)) ==> offset(image.width() as int, y as int, x as int)
                < image@.len(),
            image.width() == 0 || image.height() == 0 ==> !image.indexable((y, x)),
    {
        if image.contains(y as int, x as int) {
            lemma_offset_in_range(image.width() as int, image.height() as int, y as int, x as int);
        }
    }
}

} // verus!
