//! Rendering an image: every pixel shaded once and stored in the canvas.
//!
//! How a pixel is shaded is the caller's business: a function from the
//! column and the row of a pixel to its colour. The image is rendered stripe
//! by stripe, each worker's rows in the order in which the worker takes them.

use vstd::prelude::*;
use crate::canvas::Canvas;
use crate::partition::{lemma_rows_are_partitioned, lemma_stripe_holds_owned_rows, owner_of, stripe};
use crate::settings::RenderSettings;

verus! {

/// Whether row `y` is among the first `count` rows of `rows`.
spec fn among_first(rows: Seq<u32>, count: int, y: u32) -> bool {
    exists|j: int| 0 <= j < count && j < rows.len() && rows[j] == y
}

/// Renders the rows of one worker into the canvas: each pixel in a row of
/// `worker` becomes a colour that `shade` gives for it, and every other
/// pixel is left as it is.
pub fn render_stripe<F: Fn(u32, u32) -> (u8, u8, u8)>(
    settings: &RenderSettings,
    worker: u32,
    shade: &F,
    canvas: &mut Canvas,
)
    requires
        old(canvas).spec_width() == settings.spec_width(),
        old(canvas).spec_height() == settings.spec_height(),
        forall|x: u32, y: u32|
            x < settings.spec_width() && y < settings.spec_height() ==> call_requires(
                *shade,
                (x, y),
            ),
    ensures
        final(canvas).spec_width() == old(canvas).spec_width(),
        final(canvas).spec_height() == old(canvas).spec_height(),
        forall|x: u32, y: u32|
            x < settings.spec_width() && y < settings.spec_height() ==> if owner_of(
                settings.spec_height(),
                settings.spec_workers(),
                y,
            ) == worker {
                call_ensures(*shade, (x, y), #[trigger] final(canvas).spec_pixel(x as int, y as int))
            } else {
                final(canvas).spec_pixel(x as int, y as int) == old(canvas).spec_pixel(
                    x as int,
                    y as int,
                )
            },
{
    let rows = settings.rows(worker);
    let width = settings.width();
    let height = settings.height();
    let workers = settings.workers();
    let ghost before = *canvas;
    let mut i: usize = 0;
    while i < rows.len()
        invariant
            i <= rows@.len(),
            width == settings.spec_width(),
            height == settings.spec_height(),
            workers == settings.spec_workers(),
            workers > 0,
            canvas.spec_width() == width,
            canvas.spec_height() == height,
            rows@ == stripe(height, workers, worker),
            forall|x: u32, y: u32| x < width && y < height ==> call_requires(*shade, (x, y)),
            forall|x: u32, y: u32|
                x < width && y < height ==> if among_first(rows@, i as int, y) {
                    call_ensures(*shade, (x, y), #[trigger] canvas.spec_pixel(x as int, y as int))
                } else {
                    canvas.spec_pixel(x as int, y as int) == before.spec_pixel(x as int, y as int)
                },
        decreases rows@.len() - i,
    {
        let row = rows[i];
        proof {
            assert(stripe(height, workers, worker).contains(row));
            lemma_stripe_holds_owned_rows(height, workers, worker, row);
        }
        let mut x: u32 = 0;
        while x < width
            invariant
                x <= width,
                i < rows@.len(),
                row == rows@[i as int],
                row < height,
                canvas.spec_width() == width,
                canvas.spec_height() == height,
                forall|x: u32, y: u32| x < width && y < height ==> call_requires(*shade, (x, y)),
                forall|c: u32, y: u32|
                    c < width && y < height ==> if among_first(rows@, i as int, y) || (y == row
                        && c < x) {
                        call_ensures(*shade, (c, y), #[trigger] canvas.spec_pixel(c as int, y as int))
                    } else {
                        canvas.spec_pixel(c as int, y as int) == before.spec_pixel(
                            c as int,
                            y as int,
                        )
                    },
            decreases width - x,
        {
            let rgb = shade(x, row);
            canvas.set_pixel(x, row, rgb.0, rgb.1, rgb.2);
            x = x + 1;
        }
        proof {
            assert forall|y: u32| among_first(rows@, i + 1, y) <==> (among_first(rows@, i as int, y)
                || y == row) by {
                if among_first(rows@, i + 1, y) {
                    let j = choose|j: int| 0 <= j < i + 1 && j < rows@.len() && rows@[j] == y;
                    if j < i {
                        assert(among_first(rows@, i as int, y));
                    }
                }
                if y == row {
                    assert(rows@[i as int] == y);
                }
            }
        }
        i = i + 1;
    }
    proof {
        assert forall|x: u32, y: u32| x < width && y < height implies if owner_of(
            height,
            workers,
            y,
        ) == worker {
            call_ensures(*shade, (x, y), #[trigger] canvas.spec_pixel(x as int, y as int))
        } else {
            canvas.spec_pixel(x as int, y as int) == before.spec_pixel(x as int, y as int)
        } by {
            lemma_stripe_holds_owned_rows(height, workers, worker, y);
            if among_first(rows@, i as int, y) {
                let j = choose|j: int| 0 <= j < i && j < rows@.len() && rows@[j] == y;
                assert(rows@.contains(y));
            }
            if rows@.contains(y) {
                let j = choose|j: int| 0 <= j < rows@.len() && rows@[j] == y;
                assert(among_first(rows@, i as int, y));
            }
        }
    }
}

/// Renders the whole image into a fresh canvas, one worker's stripe after
/// the other: every pixel of the image is a colour that `shade` gives for
/// it.
pub fn render<F: Fn(u32, u32) -> (u8, u8, u8)>(settings: &RenderSettings, shade: &F) -> (canvas:
    Canvas)
    requires
        forall|x: u32, y: u32|
            x < settings.spec_width() && y < settings.spec_height() ==> call_requires(
                *shade,
                (x, y),
            ),
    ensures
        canvas.spec_width() == settings.spec_width(),
        canvas.spec_height() == settings.spec_height(),
        forall|x: u32, y: u32|
            x < settings.spec_width() && y < settings.spec_height() ==> call_ensures(
                *shade,
                (x, y),
                #[trigger] canvas.spec_pixel(x as int, y as int),
            ),
{
    let mut canvas = settings.canvas();
    let workers = settings.workers();
    let ghost width = settings.spec_width();
    let ghost height = settings.spec_height();
    let mut worker: u32 = 0;
    while worker < workers
        invariant
            worker <= workers,
            workers == settings.spec_workers(),
            width == settings.spec_width(),
            height == settings.spec_height(),
            canvas.spec_width() == width,
            canvas.spec_height() == height,
            forall|x: u32, y: u32| x < width && y < height ==> call_requires(*shade, (x, y)),
            forall|x: u32, y: u32|
                x < width && y < height && owner_of(height, workers, y) < worker ==> call_ensures(
                    *shade,
                    (x, y),
                    #[trigger] canvas.spec_pixel(x as int, y as int),
                ),
        decreases workers - worker,
    {
        render_stripe(settings, worker, shade, &mut canvas);
        worker = worker + 1;
    }
    proof {
        assert forall|x: u32, y: u32| x < width && y < height implies call_ensures(
            *shade,
            (x, y),
            #[trigger] canvas.spec_pixel(x as int, y as int),
        ) by {
            lemma_rows_are_partitioned(height, workers, y);
        }
    }
    canvas
}

} // verus!
