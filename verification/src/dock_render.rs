//! What the dock redraws in a frame.
//!
//! A frame after a change of size clears the whole dock. Otherwise each
//! visible window that changed contributes the damage its surfaces report,
//! or its whole rectangle when they report none. That damage, moved to the
//! dock's coordinates, is what is cleared and handed to the compositor;
//! every visible window is drawn again when there is any damage or when it
//! changed itself, and the buffers are swapped only when a visible window
//! changed.

use vstd::prelude::*;

verus! {

/// A rectangle: its origin and its size.
#[derive(Clone, Copy, Debug, PartialEq, Eq, Structural)]
pub struct DamageRect {
    pub x: i32,
    pub y: i32,
    pub w: i32,
    pub h: i32,
}

/// What a frame needs to know of one of the dock's windows.
#[derive(Debug)]
pub struct WindowFrame {
    /// whether it changed since it was last drawn
    pub dirty: bool,
    /// whether it is hidden
    pub hidden: bool,
    /// whether it still has a surface to draw
    pub has_surface: bool,
    /// its place on the dock
    pub rect: DamageRect,
    /// the origin of its surfaces' bounding box
    pub bbox_x: i32,
    pub bbox_y: i32,
    /// the damage its surfaces report, relative to the window
    pub surface_damage: Vec<DamageRect>,
}

/// What a frame does.
#[derive(Debug)]
pub struct FramePlan {
    /// the damage, each piece with the origin of the window it belongs to
    pub damage: Vec<(DamageRect, (i32, i32))>,
    /// the damage in the dock's coordinates: what is cleared and handed on
    pub output_damage: Vec<DamageRect>,
    /// for each window, whether it is drawn
    pub draw: Vec<bool>,
    /// whether the buffers are swapped
    pub swap: bool,
}

/// Whether a window contributes damage of its own to the frame.
pub open spec fn contributes(w: WindowFrame) -> bool {
    w.dirty && !w.hidden && w.has_surface
}

/// Where a window's surfaces start, relative to the window.
pub open spec fn surface_offset(w: WindowFrame) -> (int, int) {
    (-(w.bbox_x - w.rect.x), -(w.bbox_y - w.rect.y))
}

/// The damage a changed window contributes: what its surfaces report, or,
/// when they report nothing, its whole size at its surfaces' offset; each
/// piece with the window's origin.
pub open spec fn window_damage(w: WindowFrame) -> Seq<(DamageRect, (i32, i32))> {
    if w.surface_damage@.len() == 0 {
        seq![(
            DamageRect { x: surface_offset(w).0 as i32, y: surface_offset(w).1 as i32, w: w.rect.w, h: w.rect.h },
            (w.rect.x, w.rect.y),
        )]
    } else {
        w.surface_damage@.map_values(|d: DamageRect| (d, (w.rect.x, w.rect.y)))
    }
}

/// The damage of the changed, visible windows, in their order.
pub open spec fn dirty_damage(ws: Seq<WindowFrame>) -> Seq<(DamageRect, (i32, i32))>
    decreases ws.len(),
{
    if ws.len() == 0 {
        seq![]
    } else {
        let rest = dirty_damage(ws.drop_last());
        if contributes(ws.last()) { rest + window_damage(ws.last()) } else { rest }
    }
}

/// The frame's damage: the whole dock after a change of size, otherwise
/// that of the changed, visible windows.
pub open spec fn frame_damage(full_clear: bool, dims: (u32, u32), ws: Seq<WindowFrame>) -> Seq<(DamageRect, (i32, i32))> {
    if full_clear {
        seq![(DamageRect { x: 0, y: 0, w: dims.0 as i32, h: dims.1 as i32 }, (0i32, 0i32))]
    } else {
        dirty_damage(ws)
    }
}

/// A piece of damage moved by the origin of its window.
pub open spec fn moved(d: (DamageRect, (i32, i32))) -> DamageRect {
    DamageRect { x: (d.0.x + d.1.0) as i32, y: (d.0.y + d.1.1) as i32, w: d.0.w, h: d.0.h }
}

/// Whether the `i32` arithmetic of a frame stays in range: each changed
/// window's surface offset, and each piece of damage moved to the dock.
pub open spec fn frame_fits(full_clear: bool, dims: (u32, u32), ws: Seq<WindowFrame>) -> bool {
    &&& forall|i: int| 0 <= i < ws.len() && contributes(#[trigger] ws[i]) ==> {
        &&& i32::MIN < ws[i].bbox_x - ws[i].rect.x <= i32::MAX
        &&& i32::MIN < ws[i].bbox_y - ws[i].rect.y <= i32::MAX
    }
    &&& forall|k: int| 0 <= k < frame_damage(full_clear, dims, ws).len() ==> {
        let d = #[trigger] frame_damage(full_clear, dims, ws)[k];
        &&& i32::MIN <= d.0.x + d.1.0 <= i32::MAX
        &&& i32::MIN <= d.0.y + d.1.1 <= i32::MAX
    }
}

/// Whether a window is drawn in a frame with this much damage.
pub open spec fn drawn(w: WindowFrame, damage_len: nat) -> bool {
    !w.hidden && w.has_surface && (w.dirty || damage_len > 0)
}

proof fn lemma_dirty_damage_take(ws: Seq<WindowFrame>, i: int)
    requires
        0 <= i < ws.len(),
    ensures
        dirty_damage(ws.take(i + 1)) == if contributes(ws[i]) {
            dirty_damage(ws.take(i)) + window_damage(ws[i])
        } else {
            dirty_damage(ws.take(i))
        },
{
    assert(ws.take(i + 1).drop_last() =~= ws.take(i));
    assert(ws.take(i + 1).last() == ws[i]);
}

proof fn lemma_offsets_fit(ws: Seq<WindowFrame>, i: int, full_clear: bool, dims: (u32, u32))
    requires
        frame_fits(full_clear, dims, ws),
        0 <= i < ws.len(),
        contributes(ws[i]),
    ensures
        i32::MIN < ws[i].bbox_x - ws[i].rect.x <= i32::MAX,
        i32::MIN < ws[i].bbox_y - ws[i].rect.y <= i32::MAX,
{
}

/// The damage of the changed, visible windows, as [`dirty_damage`] says.
fn collect_damage(windows: &Vec<WindowFrame>, full_clear: bool, dims: (u32, u32)) -> (res: Vec<(DamageRect, (i32, i32))>)
    requires
        frame_fits(full_clear, dims, windows@),
    ensures
        res@ == dirty_damage(windows@),
{
    let mut res: Vec<(DamageRect, (i32, i32))> = Vec::new();
    let mut i: usize = 0;
    proof { assert(windows@.take(0) =~= Seq::<WindowFrame>::empty()); }
    while i < windows.len()
        invariant
            i <= windows@.len(),
            frame_fits(full_clear, dims, windows@),
            res@ == dirty_damage(windows@.take(i as int)),
        decreases windows@.len() - i,
    {
        let w = &windows[i];
        proof { lemma_dirty_damage_take(windows@, i as int); }
        if w.dirty && !w.hidden && w.has_surface {
            proof { lemma_offsets_fit(windows@, i as int, full_clear, dims); }
            let ox = w.rect.x;
            let oy = w.rect.y;
            if w.surface_damage.len() == 0 {
                let lx = -(w.bbox_x - w.rect.x);
                let ly = -(w.bbox_y - w.rect.y);
                res.push((DamageRect { x: lx, y: ly, w: w.rect.w, h: w.rect.h }, (ox, oy)));
                proof { assert(res@ =~= dirty_damage(windows@.take(i as int)) + window_damage(*w)); }
            } else {
                let ghost before = res@;
                let ghost wd = window_damage(*w);
                let mut j: usize = 0;
                while j < w.surface_damage.len()
                    invariant
                        j <= w.surface_damage@.len(),
                        w.surface_damage@.len() > 0,
                        ox == w.rect.x,
                        oy == w.rect.y,
                        wd == window_damage(*w),
                        res@ == before + wd.take(j as int),
                    decreases w.surface_damage@.len() - j,
                {
                    let d = w.surface_damage[j];
                    proof { assert(wd.take(j + 1) =~= wd.take(j as int).push((d, (ox, oy)))); }
                    res.push((d, (ox, oy)));
                    j = j + 1;
                }
                proof { assert(wd.take(j as int) =~= wd); }
            }
        }
        i = i + 1;
    }
    proof { assert(windows@.take(i as int) =~= windows@); }
    res
}

/// What a frame of the dock clears, draws and hands on: its damage, as
/// [`frame_damage`] says, and that damage moved to the dock's coordinates;
/// which windows are drawn, as [`drawn`] says; and whether the buffers are
/// swapped, which they are when a visible window changed.
pub fn frame_plan(full_clear: bool, dims: (u32, u32), windows: &Vec<WindowFrame>) -> (res: FramePlan)
    requires
        frame_fits(full_clear, dims, windows@),
    ensures
        res.damage@ == frame_damage(full_clear, dims, windows@),
        res.output_damage@ == frame_damage(full_clear, dims, windows@).map_values(|d: (DamageRect, (i32, i32))| moved(d)),
        res.draw@.len() == windows@.len(),
        forall|i: int| 0 <= i < windows@.len()
            ==> res.draw@[i] == drawn(#[trigger] windows@[i], frame_damage(full_clear, dims, windows@).len()),
        res.swap == exists|i: int| 0 <= i < windows@.len() && (#[trigger] windows@[i]).dirty && !windows@[i].hidden,
{
    let damage = if full_clear {
        let mut d: Vec<(DamageRect, (i32, i32))> = Vec::new();
        d.push((DamageRect { x: 0, y: 0, w: #[verifier::truncate] (dims.0 as i32), h: #[verifier::truncate] (dims.1 as i32) }, (0i32, 0i32)));
        proof { assert(d@ =~= frame_damage(full_clear, dims, windows@)); }
        d
    } else {
        collect_damage(windows, full_clear, dims)
    };
    let ghost fd = frame_damage(full_clear, dims, windows@);
    let mut output_damage: Vec<DamageRect> = Vec::new();
    let mut k: usize = 0;
    while k < damage.len()
        invariant
            k <= damage@.len(),
            damage@ == fd,
            fd == frame_damage(full_clear, dims, windows@),
            frame_fits(full_clear, dims, windows@),
            output_damage@ == fd.take(k as int).map_values(|d: (DamageRect, (i32, i32))| moved(d)),
        decreases damage@.len() - k,
    {
        let (d, o) = damage[k];
        assert(fd[k as int] == (d, o));
        let m = DamageRect { x: d.x + o.0, y: d.y + o.1, w: d.w, h: d.h };
        proof {
            assert(fd.take(k + 1) =~= fd.take(k as int).push((d, o)));
            assert(fd.take(k + 1).map_values(|d: (DamageRect, (i32, i32))| moved(d))
                =~= fd.take(k as int).map_values(|d: (DamageRect, (i32, i32))| moved(d)).push(moved((d, o))));
        }
        output_damage.push(m);
        k = k + 1;
    }
    proof { assert(fd.take(k as int) =~= fd); }
    let any_damage = damage.len() > 0;
    let mut draw: Vec<bool> = Vec::new();
    let mut swap = false;
    let mut i: usize = 0;
    while i < windows.len()
        invariant
            i <= windows@.len(),
            any_damage == (fd.len() > 0),
            draw@.len() == i,
            forall|j: int| 0 <= j < i ==> draw@[j] == drawn(#[trigger] windows@[j], fd.len()),
            swap == exists|j: int| 0 <= j < i && (#[trigger] windows@[j]).dirty && !windows@[j].hidden,
        decreases windows@.len() - i,
    {
        let w = &windows[i];
        draw.push(!w.hidden && w.has_surface && (w.dirty || any_damage));
        if w.dirty && !w.hidden {
            swap = true;
        }
        proof {
            assert forall|j: int| 0 <= j < i + 1 implies draw@[j] == drawn(#[trigger] windows@[j], fd.len()) by {
                if j == i {
                    assert(draw@[j] == (!w.hidden && w.has_surface && (w.dirty || any_damage)));
                }
            }
        }
        i = i + 1;
    }
    FramePlan { damage, output_damage, draw, swap }
}

} // verus!
