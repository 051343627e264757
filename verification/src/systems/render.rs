//! The compositor: layers sprites into a frame and sends the terminal only
//! the cells that changed since the frame before.

use crate::components::{DrawLayer, Position, Sprite};
use crate::resources::CameraCenter;
use crate::world::{World, WorldView};
use vstd::arithmetic::div_mod::lemma_fundamental_div_mod_converse;
use vstd::prelude::*;

verus! {

/// A colour of the terminal, one byte per channel.
#[derive(Clone, Copy, Debug, PartialEq, Eq, Structural)]
pub struct Color {
    pub r: u8,
    pub g: u8,
    pub b: u8,
}

/// One call on a renderer.
pub enum RenderOp {
    Draw { x: usize, y: usize, fg: Color, bg: Color, rune: char },
    Flush,
}

/// The terminal as the compositor needs it.
pub trait Renderer {
    /// Writes one cell.  Columns and rows count from 1.
    fn draw_at(&mut self, x: usize, y: usize, fg: &Color, bg: &Color, rune: char);

    /// The current extent of the terminal: columns, then rows.  It may change
    /// from one tick to the next.
    fn size(&self) -> (usize, usize);

    /// Commits what was written since the last flush.
    fn flush(&mut self);
}

/// What an empty cell holds, and what stands for an entity that is in view
/// but not perceived.
pub open spec fn blank() -> Sprite {
    Sprite {
        fg_r: 200,
        fg_g: 0,
        fg_b: 0,
        bg_r: 0,
        bg_g: 0,
        bg_b: 0,
        layer: DrawLayer(0),
        rune: '?',
    }
}

/// The cell that results when `over` is painted on a cell that holds
/// `under`.  A cell whose rune is `'?'` counts as empty and is replaced.
/// Otherwise `over` gives foreground, rune and layer, and each channel of
/// the background is half of the one plus half of the other, both halves
/// rounded down.
pub open spec fn blend(under: Sprite, over: Sprite) -> Sprite {
    if under.rune == '?' {
        over
    } else {
        Sprite {
            fg_r: over.fg_r,
            fg_g: over.fg_g,
            fg_b: over.fg_b,
            bg_r: (under.bg_r / 2 + over.bg_r / 2) as u8,
            bg_g: (under.bg_g / 2 + over.bg_g / 2) as u8,
            bg_b: (under.bg_b / 2 + over.bg_b / 2) as u8,
            layer: over.layer,
            rune: over.rune,
        }
    }
}

/// Whether the tile at `p` lies in the viewport of a terminal of `width` by
/// `height` cells centred on `camera`.  The viewport starts half the extent
/// before the centre and ends one tile short of the full extent.
pub open spec fn in_view(camera: CameraCenter, width: int, height: int, p: Position) -> bool {
    let min_x = camera.x - width / 2;
    let max_x = camera.x + width / 2 + width % 2 - 1;
    let min_y = camera.y - height / 2;
    let max_y = camera.y + height / 2 + height % 2 - 1;
    min_x <= p.x < max_x && min_y <= p.y < max_y
}

/// The column of the frame on which the tile column `x` falls.  A viewport
/// that starts left of column 0 of the grid is shifted by one cell.  Rows
/// are placed in the same way, with the height in place of the width.
pub open spec fn column_of(camera_x: int, width: int, x: int) -> int {
    let min_x = camera_x - width / 2;
    if min_x < 0 {
        x - (min_x - 1)
    } else {
        x - min_x
    }
}

/// The index in the frame of the cell on which the tile at `p` falls: its
/// row times the width, plus its column.
pub open spec fn cell_of(camera: CameraCenter, width: int, height: int, p: Position) -> int {
    column_of(camera.y as int, height, p.y as int) * width + column_of(
        camera.x as int,
        width,
        p.x as int,
    )
}

/// What the entity in slot `i` contributes to the frame: the index of its
/// cell and the sprite painted there.  An entity needs a position in view
/// and a sprite; one that is not perceived is painted as a blank.
pub open spec fn placed(w: WorldView, width: int, height: int, i: int) -> Option<(int, Sprite)> {
    match (w.positions[i], w.sprites[i]) {
        (Some(p), Some(s)) => if in_view(w.camera_center, width, height, p) {
            Some(
                (
                    cell_of(w.camera_center, width, height, p),
                    if w.visibles[i] {
                        s
                    } else {
                        blank()
                    },
                ),
            )
        } else {
            None
        },
        _ => None,
    }
}

/// `frame` after the entities in the first `n` slots that paint on `layer`
/// were painted on it, in slot order.
pub open spec fn paint_layer(
    frame: Seq<Sprite>,
    w: WorldView,
    width: int,
    height: int,
    layer: int,
    n: int,
) -> Seq<Sprite>
    decreases n,
{
    if n <= 0 {
        frame
    } else {
        let before = paint_layer(frame, w, width, height, layer, n - 1);
        match placed(w, width, height, n - 1) {
            Some((cell, s)) => if s.layer.0 == layer {
                before.update(cell, blend(before[cell], s))
            } else {
                before
            },
            None => before,
        }
    }
}

/// A frame of `cells` blank cells.
pub open spec fn blank_frame(cells: int) -> Seq<Sprite> {
    Seq::new(cells as nat, |i: int| blank())
}

/// The blank frame after every layer below `layers` was painted on it,
/// lowest layer first.
pub open spec fn paint(w: WorldView, width: int, height: int, layers: int) -> Seq<Sprite>
    decreases layers,
{
    if layers <= 0 {
        blank_frame(width * height)
    } else {
        paint_layer(
            paint(w, width, height, layers - 1),
            w,
            width,
            height,
            layers - 1,
            w.len() as int,
        )
    }
}

/// The frame of `width` by `height` cells that shows the world: every
/// entity painted in ascending order of layer, and in slot order within a
/// layer.
pub open spec fn compose(w: WorldView, width: int, height: int) -> Seq<Sprite> {
    paint(w, width, height, 256)
}

/// The call that draws `s` in column `x` and row `y` of the frame.
pub open spec fn draw_op(x: int, y: int, s: Sprite) -> RenderOp {
    RenderOp::Draw {
        x: (x + 1) as usize,
        y: (y + 1) as usize,
        fg: Color { r: s.fg_r, g: s.fg_g, b: s.fg_b },
        bg: Color { r: s.bg_r, g: s.bg_g, b: s.bg_b },
        rune: s.rune,
    }
}

/// The draw calls for the first `n` cells of the scan that differ between
/// `prev` and `next`.  The scan goes column by column, and down each column.
pub open spec fn changes(
    prev: Seq<Sprite>,
    next: Seq<Sprite>,
    width: int,
    height: int,
    n: int,
) -> Seq<RenderOp>
    decreases n,
{
    if n <= 0 {
        Seq::empty()
    } else {
        let x = (n - 1) / height;
        let y = (n - 1) % height;
        let cell = y * width + x;
        let before = changes(prev, next, width, height, n - 1);
        if next[cell] != prev[cell] {
            before.push(draw_op(x, y, next[cell]))
        } else {
            before
        }
    }
}

/// The mathematical content of a [`Render`].
pub struct RenderView {
    /// The frame that the terminal shows, row by row.
    pub frame: Seq<Sprite>,
    pub width: int,
    pub height: int,
    /// Every call that the compositor made on its renderer, oldest first.
    pub issued: Seq<RenderOp>,
}

impl RenderView {
    /// The frame against which a new frame of `width` by `height` cells is
    /// compared: the one shown, or a blank one after a change of size.
    pub open spec fn baseline(self, width: int, height: int) -> Seq<Sprite> {
        if width == self.width && height == self.height {
            self.frame
        } else {
            blank_frame(width * height)
        }
    }

    /// The compositor after it rendered `w` on a terminal of `width` by
    /// `height` cells: it shows the composed frame, and has drawn the cells
    /// that differ from the baseline and then flushed, once.
    pub open spec fn after_frame(self, w: WorldView, width: int, height: int) -> RenderView {
        let next = compose(w, width, height);
        RenderView {
            frame: next,
            width,
            height,
            issued: self.issued + changes(
                self.baseline(width, height),
                next,
                width,
                height,
                width * height,
            ).push(RenderOp::Flush),
        }
    }

    /// The compositor after a tick in which nothing could be composed.
    pub open spec fn after_flush(self) -> RenderView {
        RenderView { issued: self.issued.push(RenderOp::Flush), ..self }
    }
}

/// A frame compared with itself yields no draw call.
pub proof fn lemma_unchanged_frame_draws_nothing(frame: Seq<Sprite>, width: int, height: int, n: int)
    ensures
        changes(frame, frame, width, height, n) == Seq::<RenderOp>::empty(),
    decreases n,
{
    if n > 0 {
        lemma_unchanged_frame_draws_nothing(frame, width, height, n - 1);
    }
}

/// Two renderings in a row that compose the same cells on a terminal of the
/// same size: the second one draws nothing and flushes once.
pub proof fn lemma_identical_frames_only_flush(
    r: RenderView,
    first: WorldView,
    second: WorldView,
    width: int,
    height: int,
)
    requires
        compose(first, width, height) == compose(second, width, height),
    ensures
        r.after_frame(first, width, height).after_frame(second, width, height).issued
            == r.after_frame(first, width, height).issued.push(RenderOp::Flush),
        r.after_frame(first, width, height).after_frame(second, width, height).frame
            == r.after_frame(first, width, height).frame,
{
    let frame = compose(first, width, height);
    lemma_unchanged_frame_draws_nothing(frame, width, height, width * height);
    let once = r.after_frame(first, width, height);
    assert(once.baseline(width, height) == frame);
    assert(once.issued + Seq::<RenderOp>::empty().push(RenderOp::Flush) =~= once.issued.push(
        RenderOp::Flush,
    ));
}

/// What an entity paints falls inside the frame.
pub proof fn lemma_placed_in_frame(w: WorldView, width: int, height: int, i: int)
    requires
        0 <= width,
        0 <= height,
    ensures
        match placed(w, width, height, i) {
            Some((cell, _)) => 0 <= cell < width * height,
            None => true,
        },
{
    match placed(w, width, height, i) {
        Some((cell, _)) => {
            let p = w.positions[i].unwrap();
            let column = column_of(w.camera_center.x as int, width, p.x as int);
            let row = column_of(w.camera_center.y as int, height, p.y as int);
            assert(0 <= column < width);
            assert(0 <= row < height);
            assert(0 <= row * width + column < width * height) by (nonlinear_arith)
                requires
                    0 <= column < width,
                    0 <= row < height,
            ;
        },
        None => {},
    }
}

/// Whether the entity in slot `i` paints on the cell `cell` in the pass for
/// `layer`.
pub open spec fn paints_on(w: WorldView, width: int, height: int, i: int, layer: int, cell: int) -> bool {
    match placed(w, width, height, i) {
        Some((c, s)) => c == cell && s.layer.0 == layer,
        None => false,
    }
}

/// One pass over a frame changes a cell only by what is painted on it: if
/// no entity but the one in slot `e` paints on `cell` in this pass, the cell
/// ends as that entity blended over what was there, or unchanged.
proof fn lemma_paint_layer_cell(
    frame: Seq<Sprite>,
    w: WorldView,
    width: int,
    height: int,
    layer: int,
    n: int,
    cell: int,
    e: int,
)
    requires
        0 <= width,
        0 <= height,
        frame.len() == width * height,
        0 <= cell < frame.len(),
        0 <= n,
        forall|i: int| 0 <= i < n && i != e ==> !paints_on(w, width, height, i, layer, cell),
    ensures
        paint_layer(frame, w, width, height, layer, n).len() == frame.len(),
        paint_layer(frame, w, width, height, layer, n)[cell] == if 0 <= e < n && paints_on(
            w,
            width,
            height,
            e,
            layer,
            cell,
        ) {
            blend(frame[cell], placed(w, width, height, e).unwrap().1)
        } else {
            frame[cell]
        },
    decreases n,
{
    if n > 0 {
        lemma_paint_layer_cell(frame, w, width, height, layer, n - 1, cell, e);
        lemma_placed_in_frame(w, width, height, n - 1);
        if n - 1 != e {
            assert(!paints_on(w, width, height, n - 1, layer, cell));
        }
    }
}

/// One pass keeps the number of cells.
proof fn lemma_paint_layer_len(
    frame: Seq<Sprite>,
    w: WorldView,
    width: int,
    height: int,
    layer: int,
    n: int,
)
    requires
        0 <= width,
        0 <= height,
        frame.len() == width * height,
    ensures
        paint_layer(frame, w, width, height, layer, n).len() == frame.len(),
    decreases n,
{
    if n > 0 {
        lemma_paint_layer_len(frame, w, width, height, layer, n - 1);
        lemma_placed_in_frame(w, width, height, n - 1);
    }
}

/// The passes below `layers` leave a frame of `width` by `height` cells.
pub proof fn lemma_paint_len(w: WorldView, width: int, height: int, layers: int)
    requires
        0 <= width,
        0 <= height,
    ensures
        paint(w, width, height, layers).len() == width * height,
    decreases layers,
{
    assert(0 <= width * height) by (nonlinear_arith)
        requires
            0 <= width,
            0 <= height,
    ;
    if layers > 0 {
        lemma_paint_len(w, width, height, layers - 1);
        lemma_paint_layer_len(
            paint(w, width, height, layers - 1),
            w,
            width,
            height,
            layers - 1,
            w.len() as int,
        );
    }
}

/// The cell shared by two entities, and by no third, after the passes
/// below `layers`: blank before the pass of the lower entity, the lower
/// entity's sprite until the pass of the higher one, and the blend of the
/// two from then on.
proof fn lemma_paint_two(
    w: WorldView,
    width: int,
    height: int,
    layers: int,
    cell: int,
    a: int,
    b: int,
)
    requires
        0 <= width,
        0 <= height,
        0 <= layers,
        0 <= a < w.len(),
        0 <= b < w.len(),
        placed(w, width, height, a) is Some,
        placed(w, width, height, b) is Some,
        placed(w, width, height, a).unwrap().0 == cell,
        placed(w, width, height, b).unwrap().0 == cell,
        placed(w, width, height, a).unwrap().1.layer.0 < placed(w, width, height, b).unwrap().1.layer.0,
        forall|i: int|
            0 <= i < w.len() && i != a && i != b ==> (placed(w, width, height, i) is Some ==> (
            #[trigger] placed(w, width, height, i)).unwrap().0 != cell),
    ensures
        paint(w, width, height, layers).len() == width * height,
        0 <= cell < width * height,
        paint(w, width, height, layers)[cell] == {
            let under = placed(w, width, height, a).unwrap().1;
            let over = placed(w, width, height, b).unwrap().1;
            if layers <= under.layer.0 {
                blank()
            } else if layers <= over.layer.0 {
                under
            } else {
                blend(under, over)
            }
        },
    decreases layers,
{
    lemma_placed_in_frame(w, width, height, a);
    lemma_paint_len(w, width, height, layers);
    if layers > 0 {
        lemma_paint_two(w, width, height, layers - 1, cell, a, b);
        let layer = layers - 1;
        let frame = paint(w, width, height, layer);
        let under = placed(w, width, height, a).unwrap().1;
        let over = placed(w, width, height, b).unwrap().1;
        let e = if layer == under.layer.0 {
            a
        } else if layer == over.layer.0 {
            b
        } else {
            -1
        };
        assert forall|i: int| 0 <= i < w.len() && i != e implies !paints_on(
            w,
            width,
            height,
            i,
            layer,
            cell,
        ) by {
            if i != a && i != b && placed(w, width, height, i) is Some {
                assert(placed(w, width, height, i).unwrap().0 != cell);
            }
        }
        lemma_paint_layer_cell(frame, w, width, height, layer, w.len() as int, cell, e);
    }
}

/// Of two perceived entities on the same cell, and no third there, the one
/// on the higher layer gives the cell its foreground, its rune and its
/// layer, and each channel of the background is half of the one background
/// plus half of the other, both halves rounded down.  This needs the lower
/// sprite not to have the rune `'?'`, which marks a cell as empty.
pub proof fn lemma_higher_layer_wins(w: WorldView, width: int, height: int, a: int, b: int)
    requires
        0 <= width,
        0 <= height,
        0 <= a < w.len(),
        0 <= b < w.len(),
        w.visibles[a],
        w.visibles[b],
        placed(w, width, height, a) is Some,
        placed(w, width, height, b) is Some,
        placed(w, width, height, a).unwrap().0 == placed(w, width, height, b).unwrap().0,
        w.sprites[a].unwrap().layer.0 < w.sprites[b].unwrap().layer.0,
        w.sprites[a].unwrap().rune != '?',
        forall|i: int|
            0 <= i < w.len() && i != a && i != b ==> (placed(w, width, height, i) is Some ==> (
            #[trigger] placed(w, width, height, i)).unwrap().0 != placed(
                w,
                width,
                height,
                a,
            ).unwrap().0),
    ensures
        ({
            let cell = placed(w, width, height, a).unwrap().0;
            let lower = w.sprites[a].unwrap();
            let upper = w.sprites[b].unwrap();
            let shown = compose(w, width, height)[cell];
            &&& 0 <= cell < compose(w, width, height).len()
            &&& shown.fg_r == upper.fg_r
            &&& shown.fg_g == upper.fg_g
            &&& shown.fg_b == upper.fg_b
            &&& shown.rune == upper.rune
            &&& shown.layer == upper.layer
            &&& shown.bg_r == lower.bg_r / 2 + upper.bg_r / 2
            &&& shown.bg_g == lower.bg_g / 2 + upper.bg_g / 2
            &&& shown.bg_b == lower.bg_b / 2 + upper.bg_b / 2
        }),
{
    let cell = placed(w, width, height, a).unwrap().0;
    lemma_paint_two(w, width, height, 256, cell, a, b);
}

fn blank_sprite() -> (s: Sprite)
    ensures
        s == blank(),
{
    Sprite {
        fg_r: 200,
        fg_g: 0,
        fg_b: 0,
        bg_r: 0,
        bg_g: 0,
        bg_b: 0,
        layer: DrawLayer(0),
        rune: '?',
    }
}

fn filled(cells: usize) -> (frame: Vec<Sprite>)
    ensures
        frame@ == blank_frame(cells as int),
{
    let mut frame: Vec<Sprite> = Vec::new();
    let mut i: usize = 0;
    while i < cells
        invariant
            i <= cells,
            frame@ == blank_frame(i as int),
        decreases cells - i,
    {
        frame.push(blank_sprite());
        i += 1;
        assert(frame@ =~= blank_frame(i as int));
    }
    frame
}

/// Paints `over` on `under`.
pub fn blend_sprites(under: &Sprite, over: &Sprite) -> (r: Sprite)
    ensures
        r == blend(*under, *over),
{
    if under.rune == '?' {
        *over
    } else {
        Sprite {
            fg_r: over.fg_r,
            fg_g: over.fg_g,
            fg_b: over.fg_b,
            bg_r: under.bg_r / 2 + over.bg_r / 2,
            bg_g: under.bg_g / 2 + over.bg_g / 2,
            bg_b: under.bg_b / 2 + over.bg_b / 2,
            layer: over.layer,
            rune: over.rune,
        }
    }
}

/// The column (or row) of the frame for a tile column (or row) in view.
fn frame_column(camera: i32, extent: usize, v: i32) -> (r: Option<usize>)
    ensures
        match r {
            Some(c) => {
                &&& camera - extent / 2 <= v < camera + extent / 2 + extent % 2 - 1
                &&& c == column_of(camera as int, extent as int, v as int)
                &&& c < extent
            },
            None => !(camera - extent / 2 <= v < camera + extent / 2 + extent % 2 - 1),
        },
{
    let half: i128 = (extent / 2) as i128;
    let min: i128 = camera as i128 - half;
    let max: i128 = camera as i128 + half + (extent % 2) as i128 - 1;
    let at: i128 = v as i128;
    if min <= at && at < max {
        let offset: i128 = if min < 0 {
            min - 1
        } else {
            min
        };
        Some((at - offset) as usize)
    } else {
        None
    }
}

/// Where the tile at `p` falls in a frame of `width` by `height` cells
/// centred on `camera`, if it is in view.
pub fn frame_cell(camera: &CameraCenter, width: usize, height: usize, p: &Position) -> (r: Option<
    usize,
>)
    requires
        width * height <= usize::MAX,
    ensures
        match r {
            Some(cell) => {
                &&& in_view(*camera, width as int, height as int, *p)
                &&& cell == cell_of(*camera, width as int, height as int, *p)
                &&& cell < width * height
            },
            None => !in_view(*camera, width as int, height as int, *p),
        },
{
    match (frame_column(camera.x, width, p.x), frame_column(camera.y, height, p.y)) {
        (Some(column), Some(row)) => {
            assert(row * width + column < width * height) by (nonlinear_arith)
                requires
                    row < height,
                    column < width,
            ;
            assert(0 <= row * width) by (nonlinear_arith)
                requires
                    0 <= row,
                    0 <= width,
            ;
            Some(row * width + column)
        },
        _ => None,
    }
}

/// Whether the entity in slot `i` paints in the pass for `layer`.
pub open spec fn paints_in(w: WorldView, width: int, height: int, i: int, layer: int) -> bool {
    match placed(w, width, height, i) {
        Some((_, s)) => s.layer.0 == layer,
        None => false,
    }
}

/// Whether any entity among the first `n` slots paints in the pass for
/// `layer`.
pub open spec fn layer_in_use(w: WorldView, width: int, height: int, layer: int, n: int) -> bool {
    exists|i: int| 0 <= i < n && #[trigger] paints_in(w, width, height, i, layer)
}

/// A pass in which no entity paints leaves the frame as it is.
proof fn lemma_unused_layer(
    frame: Seq<Sprite>,
    w: WorldView,
    width: int,
    height: int,
    layer: int,
    n: int,
)
    requires
        !layer_in_use(w, width, height, layer, n),
    ensures
        paint_layer(frame, w, width, height, layer, n) == frame,
    decreases n,
{
    if n > 0 {
        assert(!paints_in(w, width, height, n - 1, layer));
        assert forall|i: int| 0 <= i < n - 1 implies !#[trigger] paints_in(
            w,
            width,
            height,
            i,
            layer,
        ) by {}
        lemma_unused_layer(frame, w, width, height, layer, n - 1);
    }
}

/// What the entity in slot `i` of `world` contributes to a frame of `width`
/// by `height` cells.
pub fn placement(world: &World, width: usize, height: usize, i: usize) -> (r: Option<
    (usize, Sprite),
>)
    requires
        world.wf(),
        width * height <= usize::MAX,
        i < world@.len(),
    ensures
        match r {
            Some((cell, s)) => placed(world@, width as int, height as int, i as int) == Some(
                (cell as int, s),
            ) && cell < width * height,
            None => placed(world@, width as int, height as int, i as int) is None,
        },
{
    match (world.positions[i], world.sprites[i]) {
        (Some(p), Some(s)) => match frame_cell(&world.camera_center, width, height, &p) {
            Some(cell) => Some(
                (
                    cell,
                    if world.visibles[i] {
                        s
                    } else {
                        blank_sprite()
                    },
                ),
            ),
            None => None,
        },
        _ => None,
    }
}

/// The layers on which anything of `world` is painted.
fn layers_in_use(world: &World, width: usize, height: usize) -> (used: Vec<bool>)
    requires
        world.wf(),
        width * height <= usize::MAX,
    ensures
        used@.len() == 256,
        forall|layer: int|
            0 <= layer < 256 ==> #[trigger] used@[layer] == layer_in_use(
                world@,
                width as int,
                height as int,
                layer,
                world@.len() as int,
            ),
{
    let mut used: Vec<bool> = Vec::new();
    let mut layer: usize = 0;
    while layer < 256
        invariant
            layer <= 256,
            used@.len() == layer,
            forall|l: int| 0 <= l < layer ==> !#[trigger] used@[l],
        decreases 256 - layer,
    {
        used.push(false);
        layer += 1;
    }
    let count = world.len();
    let mut i: usize = 0;
    while i < count
        invariant
            i <= count,
            world.wf(),
            count == world@.len(),
            width * height <= usize::MAX,
            used@.len() == 256,
            forall|layer: int|
                0 <= layer < 256 ==> #[trigger] used@[layer] == layer_in_use(
                    world@,
                    width as int,
                    height as int,
                    layer,
                    i as int,
                ),
        decreases count - i,
    {
        match placement(world, width, height, i) {
            Some((_, s)) => {
                used.set(s.layer.0 as usize, true);
            },
            None => {},
        }
        proof {
            assert forall|layer: int| 0 <= layer < 256 implies #[trigger] used@[layer]
                == layer_in_use(world@, width as int, height as int, layer, i + 1) by {
                let painted = paints_in(world@, width as int, height as int, i as int, layer);
                if layer_in_use(world@, width as int, height as int, layer, i as int) {
                    let j = choose|j: int|
                        0 <= j < i && #[trigger] paints_in(
                            world@,
                            width as int,
                            height as int,
                            j,
                            layer,
                        );
                    assert(0 <= j < i + 1 && paints_in(
                        world@,
                        width as int,
                        height as int,
                        j,
                        layer,
                    ));
                }
                if painted {
                    assert(0 <= i < i + 1 && paints_in(
                        world@,
                        width as int,
                        height as int,
                        i as int,
                        layer,
                    ));
                }
                if layer_in_use(world@, width as int, height as int, layer, i + 1) {
                    let j = choose|j: int|
                        0 <= j < i + 1 && #[trigger] paints_in(
                            world@,
                            width as int,
                            height as int,
                            j,
                            layer,
                        );
                    if j < i {
                        assert(layer_in_use(world@, width as int, height as int, layer, i as int));
                    }
                }
            }
        }
        i += 1;
    }
    used
}

/// Composes the frame that shows `world` on a terminal of `width` by
/// `height` cells.
pub fn compose_frame(world: &World, width: usize, height: usize) -> (buffer: Vec<Sprite>)
    requires
        world.wf(),
        width * height <= usize::MAX,
    ensures
        buffer@ == compose(world@, width as int, height as int),
        buffer@.len() == width * height,
{
    let mut buffer = filled(width * height);
    let used = layers_in_use(world, width, height);
    let count = world.len();
    let mut layer: usize = 0;
    while layer < 256
        invariant
            layer <= 256,
            world.wf(),
            count == world@.len(),
            width * height <= usize::MAX,
            buffer@.len() == width * height,
            buffer@ == paint(world@, width as int, height as int, layer as int),
            used@.len() == 256,
            forall|l: int|
                0 <= l < 256 ==> #[trigger] used@[l] == layer_in_use(
                    world@,
                    width as int,
                    height as int,
                    l,
                    world@.len() as int,
                ),
        decreases 256 - layer,
    {
        let ghost under = buffer@;
        if used[layer] {
            let mut i: usize = 0;
            while i < count
                invariant
                    i <= count,
                    layer < 256,
                    world.wf(),
                    count == world@.len(),
                    width * height <= usize::MAX,
                    buffer@.len() == width * height,
                    buffer@ == paint_layer(
                        under,
                        world@,
                        width as int,
                        height as int,
                        layer as int,
                        i as int,
                    ),
                decreases count - i,
            {
                match placement(world, width, height, i) {
                    Some((cell, over)) => {
                        if over.layer.0 as usize == layer {
                            let blended = blend_sprites(&buffer[cell], &over);
                            buffer.set(cell, blended);
                        }
                    },
                    None => {},
                }
                i += 1;
            }
        } else {
            proof {
                lemma_unused_layer(
                    under,
                    world@,
                    width as int,
                    height as int,
                    layer as int,
                    count as int,
                );
            }
        }
        layer += 1;
    }
    buffer
}

/// The render system.  It owns the renderer and remembers the frame that the
/// terminal shows.
pub struct Render<T: Renderer> {
    renderer: T,
    back_buffer: Vec<Sprite>,
    back_buffer_width: usize,
    back_buffer_height: usize,
    issued: Ghost<Seq<RenderOp>>,
}

impl<T: Renderer> View for Render<T> {
    type V = RenderView;

    closed spec fn view(&self) -> RenderView {
        RenderView {
            frame: self.back_buffer@,
            width: self.back_buffer_width as int,
            height: self.back_buffer_height as int,
            issued: self.issued@,
        }
    }
}

impl<T: Renderer> Render<T> {
    /// The remembered frame has as many cells as the remembered size says.
    pub closed spec fn wf(&self) -> bool {
        self.back_buffer@.len() == self.back_buffer_width * self.back_buffer_height
    }

    /// A compositor that draws on `renderer` and has not drawn yet.
    pub fn new(renderer: T) -> (render: Render<T>)
        ensures
            render.wf(),
            render@ == (RenderView {
                frame: Seq::empty(),
                width: 0,
                height: 0,
                issued: Seq::empty(),
            }),
    {
        Render {
            renderer,
            back_buffer: Vec::new(),
            back_buffer_width: 0,
            back_buffer_height: 0,
            issued: Ghost(Seq::empty()),
        }
    }

    /// The renderer that this compositor draws on.
    pub closed spec fn screen(&self) -> T {
        self.renderer
    }

    /// The renderer that this compositor draws on.
    pub fn renderer(&self) -> (renderer: &T)
        ensures
            *renderer == self.screen(),
    {
        &self.renderer
    }

    /// Hands one cell to the renderer.
    fn draw(&mut self, x: usize, y: usize, s: &Sprite)
        requires
            x < usize::MAX,
            y < usize::MAX,
        ensures
            final(self)@ == (RenderView {
                issued: old(self)@.issued.push(draw_op(x as int, y as int, *s)),
                ..old(self)@
            }),
            final(self).wf() == old(self).wf(),
    {
        let fg = Color { r: s.fg_r, g: s.fg_g, b: s.fg_b };
        let bg = Color { r: s.bg_r, g: s.bg_g, b: s.bg_b };
        self.renderer.draw_at(x + 1, y + 1, &fg, &bg, s.rune);
        proof {
            self.issued@ = self.issued@.push(draw_op(x as int, y as int, *s));
        }
    }

    /// Tells the renderer to commit.
    fn commit(&mut self)
        ensures
            final(self)@ == old(self)@.after_flush(),
            final(self).wf() == old(self).wf(),
    {
        self.renderer.flush();
        proof {
            self.issued@ = self.issued@.push(RenderOp::Flush);
        }
    }

    /// Renders `world` on a terminal of `width` by `height` cells: composes
    /// the frame, draws the cells that differ from what the terminal shows,
    /// and flushes once.
    pub fn render_frame(&mut self, world: &World, width: usize, height: usize)
        requires
            old(self).wf(),
            world.wf(),
            width * height <= usize::MAX,
        ensures
            final(self).wf(),
            final(self)@ == old(self)@.after_frame(world@, width as int, height as int),
    {
        let buffer = compose_frame(world, width, height);
        if width != self.back_buffer_width || height != self.back_buffer_height {
            self.back_buffer = filled(width * height);
            self.back_buffer_width = width;
            self.back_buffer_height = height;
        }
        let ghost prev = self.back_buffer@;
        let ghost base = self.issued@;
        assert(prev == old(self)@.baseline(width as int, height as int));
        let mut x: usize = 0;
        while x < width
            invariant
                x <= width,
                width * height <= usize::MAX,
                buffer@.len() == width * height,
                self.back_buffer@ == prev,
                prev.len() == width * height,
                self.back_buffer_width == width,
                self.back_buffer_height == height,
                self.issued@ == base + changes(
                    prev,
                    buffer@,
                    width as int,
                    height as int,
                    x * height,
                ),
            decreases width - x,
        {
            let mut y: usize = 0;
            assert(x * height + 0 == x * height);
            while y < height
                invariant
                    y <= height,
                    x < width,
                    width * height <= usize::MAX,
                    buffer@.len() == width * height,
                    self.back_buffer@ == prev,
                    prev.len() == width * height,
                    self.back_buffer_width == width,
                    self.back_buffer_height == height,
                    self.issued@ == base + changes(
                        prev,
                        buffer@,
                        width as int,
                        height as int,
                        x * height + y,
                    ),
                decreases height - y,
            {
                assert(y * width + x < width * height) by (nonlinear_arith)
                    requires
                        y < height,
                        x < width,
                ;
                assert(0 <= y * width) by (nonlinear_arith)
                    requires
                        0 <= y,
                        0 <= width,
                ;
                let i = y * width + x;
                proof {
                    let k = x * height + y;
                    assert(0 <= x * height) by (nonlinear_arith)
                        requires
                            0 <= x,
                            0 <= height,
                    ;
                    lemma_fundamental_div_mod_converse(k as int, height as int, x as int, y as int);
                }
                if buffer[i] != self.back_buffer[i] {
                    self.draw(x, y, &buffer[i]);
                    assert(self.issued@ =~= base + changes(
                        prev,
                        buffer@,
                        width as int,
                        height as int,
                        x * height + y + 1,
                    ));
                }
                y += 1;
            }
            assert(x * height + height == (x + 1) * height) by (nonlinear_arith);
            x += 1;
        }
        self.back_buffer = buffer;
        self.commit();
        proof {
            assert(self@.issued =~= old(self)@.after_frame(
                world@,
                width as int,
                height as int,
            ).issued);
        }
    }

    /// Renders `world` on the terminal at the size that the renderer
    /// reports.  An extent whose cells cannot be counted is not composed:
    /// the tick then only flushes.
    pub fn run(&mut self, world: &World)
        requires
            old(self).wf(),
            world.wf(),
        ensures
            final(self).wf(),
            exists|width: usize, height: usize|
                final(self)@ == #[trigger] old(self)@.after_size(world@, width, height),
    {
        let (width, height) = self.renderer.size();
        match width.checked_mul(height) {
            Some(_) => {
                self.render_frame(world, width, height);
            },
            None => {
                self.commit();
            },
        }
        assert(self@ == old(self)@.after_size(world@, width, height));
    }
}

impl RenderView {
    /// The compositor after a tick in which the renderer reported `width` by
    /// `height` cells.
    pub open spec fn after_size(self, w: WorldView, width: usize, height: usize) -> RenderView {
        if width * height <= usize::MAX {
            self.after_frame(w, width as int, height as int)
        } else {
            self.after_flush()
        }
    }
}

} // verus!
