//! A draw call paints one mesh many times: once for each instance.

use crate::single::{Rgba, F32};
use crate::virtual_gpu;
use crate::virtual_gpu::{
    rasterize_triangle_rows, Band, ClipRect, PixelSample, RasterCounts, Shading, Triangle, Winding,
};
use vstd::prelude::*;

verus! {

/// The corners of a triangle: their vertices, and where their varyings start.
#[derive(Clone, Copy, Debug, PartialEq, Eq, Structural)]
pub struct Corners {
    pub instance: usize,
    pub v0: usize,
    pub v1: usize,
    pub v2: usize,
    pub vary0: usize,
    pub vary1: usize,
    pub vary2: usize,
}

/// The sizes of the vertices of a draw call that were shaded.
#[derive(Clone, Copy, Debug, PartialEq, Eq, Structural)]
pub struct Mesh {
    /// The number of vertices of an instance.
    pub vertex_count: usize,
    /// The number of varyings of a vertex.
    pub varying_slots: usize,
    /// The number of vertices of all instances that have a position.
    pub positions: usize,
    /// The number of varyings of all vertices.
    pub varyings: usize,
}

impl Mesh {
    /// Whether a vertex of the mesh exists in an instance, with its position and all of
    /// its varyings.
    pub open spec fn has(self, instance: int, vertex: int) -> bool {
        let v = instance * self.vertex_count + vertex;
        &&& vertex < self.vertex_count
        &&& v < self.positions
        &&& v * self.varying_slots + self.varying_slots <= self.varyings
    }

    /// The vertex among those of all instances.
    pub open spec fn index(self, instance: int, vertex: int) -> int {
        instance * self.vertex_count + vertex
    }

    /// The corners of a triangle of an instance; none if one of them does not exist.
    pub open spec fn corners(self, indices: Seq<u32>, instance: int, tri: int) -> Option<Corners> {
        let i0 = indices[tri * 3] as int;
        let i1 = indices[tri * 3 + 1] as int;
        let i2 = indices[tri * 3 + 2] as int;
        if self.has(instance, i0) && self.has(instance, i1) && self.has(instance, i2) {
            Some(
                Corners {
                    instance: instance as usize,
                    v0: self.index(instance, i0) as usize,
                    v1: self.index(instance, i1) as usize,
                    v2: self.index(instance, i2) as usize,
                    vary0: (self.index(instance, i0) * self.varying_slots) as usize,
                    vary1: (self.index(instance, i1) * self.varying_slots) as usize,
                    vary2: (self.index(instance, i2) * self.varying_slots) as usize,
                },
            )
        } else {
            None
        }
    }

    /// The first `n` triangles of an instance, those whose corners exist.
    pub open spec fn triangles_of(self, indices: Seq<u32>, instance: int, n: int) -> Seq<Corners>
        decreases n,
    {
        if n <= 0 {
            Seq::empty()
        } else {
            let before = self.triangles_of(indices, instance, n - 1);
            match self.corners(indices, instance, n - 1) {
                Some(c) => before.push(c),
                None => before,
            }
        }
    }

    /// The triangles of the first `n` instances, instance by instance.
    pub open spec fn triangles(self, indices: Seq<u32>, n: int) -> Seq<Corners>
        decreases n,
    {
        if n <= 0 {
            Seq::empty()
        } else {
            self.triangles(indices, n - 1) + self.triangles_of(
                indices,
                n - 1,
                indices.len() as int / 3,
            )
        }
    }

    /// The vertex among those of all instances, and where its varyings start.
    fn vertex(self, instance: usize, vertex: u32) -> (r: Option<(usize, usize)>)
        ensures
            match r {
                Some(p) => self.has(instance as int, vertex as int) && p.0 == self.index(
                    instance as int,
                    vertex as int,
                ) && p.1 == p.0 * self.varying_slots,
                None => !self.has(instance as int, vertex as int),
            },
    {
        proof {
            assert(0 <= instance * self.vertex_count) by (nonlinear_arith);
        }
        if vertex as u64 >= self.vertex_count as u64 {
            return None;
        }
        let base: usize = match instance.checked_mul(self.vertex_count) {
            Some(n) => n,
            None => {
                return None;
            },
        };
        let v: usize = match base.checked_add(vertex as usize) {
            Some(n) => n,
            None => {
                return None;
            },
        };
        if v >= self.positions {
            return None;
        }
        proof {
            assert(0 <= v * self.varying_slots) by (nonlinear_arith);
        }
        let start: usize = match v.checked_mul(self.varying_slots) {
            Some(n) => n,
            None => {
                return None;
            },
        };
        if self.varying_slots > self.varyings || start > self.varyings - self.varying_slots {
            return None;
        }
        Some((v, start))
    }

    /// The corners of a triangle of an instance; none if one of them does not exist.
    fn corners_of(self, indices: &Vec<u32>, instance: usize, tri: usize) -> (r: Option<Corners>)
        requires
            tri < indices@.len() as int / 3,
        ensures
            r == self.corners(indices@, instance as int, tri as int),
    {
        assert(indices@.len() == indices.len());
        let at: usize = tri * 3;
        let p0 = match self.vertex(instance, indices[at]) {
            Some(p) => p,
            None => {
                return None;
            },
        };
        let p1 = match self.vertex(instance, indices[at + 1]) {
            Some(p) => p,
            None => {
                return None;
            },
        };
        let p2 = match self.vertex(instance, indices[at + 2]) {
            Some(p) => p,
            None => {
                return None;
            },
        };
        Some(
            Corners {
                instance,
                v0: p0.0,
                v1: p1.0,
                v2: p2.0,
                vary0: p0.1,
                vary1: p1.1,
                vary2: p2.1,
            },
        )
    }

    /// The triangles of the first `instance_count` instances, instance by instance.
    /// Indices that come after the last full triangle are left out, and so are triangles
    /// with a corner that does not exist.
    pub fn collect_triangles(self, indices: &Vec<u32>, instance_count: usize) -> (r: Vec<Corners>)
        ensures
            r@ == self.triangles(indices@, instance_count as int),
    {
        let tri_count: usize = indices.len() / 3;
        let mut out: Vec<Corners> = Vec::new();
        let mut inst: usize = 0;
        while inst < instance_count
            invariant
                inst <= instance_count,
                tri_count == indices@.len() as int / 3,
                out@ == self.triangles(indices@, inst as int),
            decreases instance_count - inst,
        {
            let ghost before = out@;
            let mut tri: usize = 0;
            assert(before + self.triangles_of(indices@, inst as int, 0) =~= before);
            while tri < tri_count
                invariant
                    tri <= tri_count,
                    tri_count == indices@.len() as int / 3,
                    out@ == before + self.triangles_of(indices@, inst as int, tri as int),
                decreases tri_count - tri,
            {
                let ghost some = self.triangles_of(indices@, inst as int, tri as int);
                match self.corners_of(indices, inst, tri) {
                    Some(c) => {
                        out.push(c);
                        assert((before + some).push(c) =~= before + some.push(c));
                    },
                    None => {},
                }
                tri = tri + 1;
            }
            inst = inst + 1;
        }
        out
    }
}

/// The pixels of a band and what was counted so far.
pub struct Painting {
    pub colors: Seq<Rgba>,
    pub depths: Seq<F32>,
    pub counts: RasterCounts,
}

/// Both counts together. They start again from zero when they pass the largest number.
pub open spec fn counts_sum(a: RasterCounts, b: RasterCounts) -> RasterCounts {
    RasterCounts {
        tested: a.tested.wrapping_add(b.tested),
        shaded: a.shaded.wrapping_add(b.shaded),
    }
}

/// Whether painting the triangle with the corners `c` turns `before` into `after`.
pub open spec fn one_painted<
    G: Fn(Corners) -> Triangle,
    S: Fn(Corners, i32, i32) -> PixelSample,
    H: Fn(Corners, i32, i32, u32, u32) -> Shading,
    B: Fn(Rgba, Rgba) -> Rgba,
>(
    c: Corners,
    setup: G,
    sample: S,
    shade: H,
    blend: B,
    band: Band,
    clip: Option<ClipRect>,
    before: Painting,
    after: Painting,
) -> bool {
    exists|t: Triangle, counts: RasterCounts|
        {
            &&& #[trigger] call_ensures(setup, (c,), t)
            &&& #[trigger] counts_sum(before.counts, counts) == after.counts
            &&& virtual_gpu::triangle_painted(
                c,
                sample,
                shade,
                blend,
                band,
                t,
                clip,
                before.colors,
                before.depths,
                after.colors,
                after.depths,
                counts,
            )
        }
}

/// Whether `states` are what the band holds at the start and after each triangle.
pub open spec fn is_chain<
    G: Fn(Corners) -> Triangle,
    S: Fn(Corners, i32, i32) -> PixelSample,
    H: Fn(Corners, i32, i32, u32, u32) -> Shading,
    B: Fn(Rgba, Rgba) -> Rgba,
>(
    triangles: Seq<Corners>,
    setup: G,
    sample: S,
    shade: H,
    blend: B,
    band: Band,
    clip: Option<ClipRect>,
    states: Seq<Painting>,
) -> bool {
    states.len() == triangles.len() + 1 && forall|i: int|
        0 <= i < triangles.len() ==> one_painted(
            #[trigger] triangles[i],
            setup,
            sample,
            shade,
            blend,
            band,
            clip,
            states[i],
            states[i + 1],
        )
}

/// Whether painting the triangles one after the other turns `before` into `after`.
pub open spec fn all_painted<
    G: Fn(Corners) -> Triangle,
    S: Fn(Corners, i32, i32) -> PixelSample,
    H: Fn(Corners, i32, i32, u32, u32) -> Shading,
    B: Fn(Rgba, Rgba) -> Rgba,
>(
    triangles: Seq<Corners>,
    setup: G,
    sample: S,
    shade: H,
    blend: B,
    band: Band,
    clip: Option<ClipRect>,
    before: Painting,
    after: Painting,
) -> bool {
    exists|states: Seq<Painting>|
        {
            &&& #[trigger] is_chain(triangles, setup, sample, shade, blend, band, clip, states)
            &&& states[0] == before
            &&& states.last() == after
        }
}

/// Paints the triangles of all instances of a draw call onto a band of rows, in the
/// order of the instances and, within an instance, of the indices.
pub fn rasterize_instances_rows<
    G: Fn(Corners) -> Triangle,
    S: Fn(Corners, i32, i32) -> PixelSample,
    H: Fn(Corners, i32, i32, u32, u32) -> Shading,
    B: Fn(Rgba, Rgba) -> Rgba,
>(
    band: Band,
    color: &mut [Rgba],
    depth_buf: &mut [F32],
    indices: &Vec<u32>,
    instance_count: usize,
    mesh: Mesh,
    clip: Option<ClipRect>,
    setup: &G,
    sample: &S,
    shade: &H,
    blend: &B,
) -> (r: RasterCounts)
    requires
        forall|c: Corners| call_requires(*setup, (c,)),
        forall|c: Corners, x: i32, y: i32| call_requires(*sample, (c, x, y)),
        forall|c: Corners, x: i32, y: i32, lane_x: u32, lane_y: u32|
            call_requires(*shade, (c, x, y, lane_x, lane_y)),
        forall|c: Rgba, d: Rgba| call_requires(*blend, (c, d)),
    ensures
        all_painted(
            mesh.triangles(indices@, instance_count as int),
            *setup,
            *sample,
            *shade,
            *blend,
            band,
            clip,
            (Painting {
                colors: old(color)@,
                depths: old(depth_buf)@,
                counts: (RasterCounts { tested: 0, shaded: 0 }),
            }),
            (Painting { colors: final(color)@, depths: final(depth_buf)@, counts: r }),
        ),
{
    let triangles = mesh.collect_triangles(indices, instance_count);
    let mut total = RasterCounts { tested: 0, shaded: 0 };
    let ghost start = Painting { colors: color@, depths: depth_buf@, counts: total };
    let ghost mut states = seq![start];
    let mut i: usize = 0;
    assert(triangles@.take(0) =~= Seq::<Corners>::empty());
    while i < triangles.len()
        invariant
            i <= triangles@.len(),
            forall|c: Corners| call_requires(*setup, (c,)),
            forall|c: Corners, x: i32, y: i32| call_requires(*sample, (c, x, y)),
            forall|c: Corners, x: i32, y: i32, lane_x: u32, lane_y: u32|
                call_requires(*shade, (c, x, y, lane_x, lane_y)),
            forall|c: Rgba, d: Rgba| call_requires(*blend, (c, d)),
            states[0] == start,
            states.last() == (Painting { colors: color@, depths: depth_buf@, counts: total }),
            is_chain(
                triangles@.take(i as int),
                *setup,
                *sample,
                *shade,
                *blend,
                band,
                clip,
                states,
            ),
        decreases triangles@.len() - i,
    {
        let c: Corners = triangles[i];
        let t: Triangle = setup(c);
        let ghost before = states.last();
        let counts: RasterCounts = rasterize_triangle_rows(
            band,
            color,
            depth_buf,
            t,
            clip,
            c,
            sample,
            shade,
            blend,
        );
        total = RasterCounts {
            tested: total.tested.wrapping_add(counts.tested),
            shaded: total.shaded.wrapping_add(counts.shaded),
        };
        proof {
            let now = Painting { colors: color@, depths: depth_buf@, counts: total };
            assert(counts_sum(before.counts, counts) == now.counts);
            assert(one_painted(c, *setup, *sample, *shade, *blend, band, clip, before, now));
            let done = triangles@.take(i as int);
            let more = triangles@.take(i + 1);
            let longer = states.push(now);
            assert forall|j: int| 0 <= j < more.len() implies one_painted(
                #[trigger] more[j],
                *setup,
                *sample,
                *shade,
                *blend,
                band,
                clip,
                longer[j],
                longer[j + 1],
            ) by {
                if j < i {
                    assert(done[j] == more[j]);
                }
            }
            states = longer;
        }
        i = i + 1;
    }
    assert(triangles@.take(i as int) =~= triangles@);
    total
}

/// Whether the pixel at `index` of a band lies in the clip rectangle.
pub open spec fn in_clip(index: int, band: Band, clip: ClipRect) -> bool {
    let x = virtual_gpu::column(index, band.width as int);
    let y = band.first() + virtual_gpu::row(index, band.width as int);
    clip.0 <= x < clip.2 && clip.1 <= y < clip.3
}

proof fn lemma_triangle_stays_inside<
    K: Copy,
    S: Fn(K, i32, i32) -> PixelSample,
    H: Fn(K, i32, i32, u32, u32) -> Shading,
    B: Fn(Rgba, Rgba) -> Rgba,
>(
    c: K,
    sample: S,
    shade: H,
    blend: B,
    band: Band,
    t: Triangle,
    clip: ClipRect,
    before: Painting,
    after: Painting,
    counts: RasterCounts,
    index: int,
)
    requires
        virtual_gpu::triangle_painted(
            c,
            sample,
            shade,
            blend,
            band,
            t,
            Some(clip),
            before.colors,
            before.depths,
            after.colors,
            after.depths,
            counts,
        ),
        0 <= index < before.colors.len(),
        0 <= index < before.depths.len(),
        !in_clip(index, band, clip),
    ensures
        after.colors[index] == before.colors[index],
        after.depths[index] == before.depths[index],
        after.colors.len() == before.colors.len(),
        after.depths.len() == before.depths.len(),
{
    match virtual_gpu::triangle_pixels(
        band,
        t,
        Some(clip),
        before.colors.len() as int,
        before.depths.len() as int,
    ) {
        None => {},
        Some(w) => {
            let flags = choose|flags: Seq<bool>|
                {
                    &&& #[trigger] virtual_gpu::count_set(flags) == counts.shaded
                    &&& virtual_gpu::walked(
                        c,
                        sample,
                        shade,
                        blend,
                        t.top_left,
                        band.width as int,
                        band.first(),
                        band.size(),
                        virtual_gpu::window_set(band.width as int, w),
                        before.colors,
                        before.depths,
                        after.colors,
                        after.depths,
                        flags,
                    )
                };
            assert(!virtual_gpu::window_set(band.width as int, w)(index));
            if index < band.size() {
                assert(after.colors[index] == before.colors[index]);
            } else {
                assert(after.colors[index] == before.colors[index]);
                assert(after.depths[index] == before.depths[index]);
            }
        },
    }
}

/// A draw call changes no pixel outside of the clip rectangle: with a framebuffer that is
/// kept, they are those of the frame before.
pub proof fn law_pixels_outside_the_clip_stay<
    G: Fn(Corners) -> Triangle,
    S: Fn(Corners, i32, i32) -> PixelSample,
    H: Fn(Corners, i32, i32, u32, u32) -> Shading,
    B: Fn(Rgba, Rgba) -> Rgba,
>(
    triangles: Seq<Corners>,
    setup: G,
    sample: S,
    shade: H,
    blend: B,
    band: Band,
    clip: ClipRect,
    before: Painting,
    after: Painting,
    index: int,
)
    requires
        all_painted(triangles, setup, sample, shade, blend, band, Some(clip), before, after),
        0 <= index < before.colors.len(),
        0 <= index < before.depths.len(),
        !in_clip(index, band, clip),
    ensures
        after.colors[index] == before.colors[index],
        after.depths[index] == before.depths[index],
{
    let states = choose|states: Seq<Painting>|
        {
            &&& #[trigger] is_chain(
                triangles,
                setup,
                sample,
                shade,
                blend,
                band,
                Some(clip),
                states,
            )
            &&& states[0] == before
            &&& states.last() == after
        };
    lemma_chain_keeps(
        triangles,
        setup,
        sample,
        shade,
        blend,
        band,
        clip,
        states,
        triangles.len() as int,
        index,
    );
}

proof fn lemma_chain_keeps<
    G: Fn(Corners) -> Triangle,
    S: Fn(Corners, i32, i32) -> PixelSample,
    H: Fn(Corners, i32, i32, u32, u32) -> Shading,
    B: Fn(Rgba, Rgba) -> Rgba,
>(
    triangles: Seq<Corners>,
    setup: G,
    sample: S,
    shade: H,
    blend: B,
    band: Band,
    clip: ClipRect,
    states: Seq<Painting>,
    n: int,
    index: int,
)
    requires
        is_chain(triangles, setup, sample, shade, blend, band, Some(clip), states),
        0 <= n <= triangles.len(),
        0 <= index < states[0].colors.len(),
        0 <= index < states[0].depths.len(),
        !in_clip(index, band, clip),
    ensures
        states[n].colors[index] == states[0].colors[index],
        states[n].depths[index] == states[0].depths[index],
        states[n].colors.len() == states[0].colors.len(),
        states[n].depths.len() == states[0].depths.len(),
    decreases n,
{
    if n > 0 {
        lemma_chain_keeps(
            triangles,
            setup,
            sample,
            shade,
            blend,
            band,
            clip,
            states,
            n - 1,
            index,
        );
        let c = triangles[n - 1];
        let before = states[n - 1];
        let after = states[n];
        assert(one_painted(c, setup, sample, shade, blend, band, Some(clip), before, after));
        let (t, counts) = choose|t: Triangle, counts: RasterCounts|
            {
                &&& #[trigger] call_ensures(setup, (c,), t)
                &&& #[trigger] counts_sum(before.counts, counts) == after.counts
                &&& virtual_gpu::triangle_painted(
                    c,
                    sample,
                    shade,
                    blend,
                    band,
                    t,
                    Some(clip),
                    before.colors,
                    before.depths,
                    after.colors,
                    after.depths,
                    counts,
                )
            };
        lemma_triangle_stays_inside(
            c,
            sample,
            shade,
            blend,
            band,
            t,
            clip,
            before,
            after,
            counts,
            index,
        );
    }
}

/// Whether measuring and shading give the same every time they are asked the same.
pub open spec fn repeatable<
    G: Fn(Corners) -> Triangle,
    S: Fn(Corners, i32, i32) -> PixelSample,
    H: Fn(Corners, i32, i32, u32, u32) -> Shading,
    B: Fn(Rgba, Rgba) -> Rgba,
>(setup: G, sample: S, shade: H, blend: B) -> bool {
    &&& forall|c: Corners, t1: Triangle, t2: Triangle| #[trigger]
        call_ensures(setup, (c,), t1) && #[trigger] call_ensures(setup, (c,), t2) ==> t1 == t2
    &&& forall|c: Corners, x: i32, y: i32, p1: PixelSample, p2: PixelSample| #[trigger]
        call_ensures(sample, (c, x, y), p1) && #[trigger] call_ensures(sample, (c, x, y), p2)
            ==> p1 == p2
    &&& forall|c: Corners, x: i32, y: i32, lx: u32, ly: u32, s1: Shading, s2: Shading| #[trigger]
        call_ensures(shade, (c, x, y, lx, ly), s1) && #[trigger] call_ensures(
            shade,
            (c, x, y, lx, ly),
            s2,
        ) ==> s1 == s2
    &&& forall|c: Rgba, d: Rgba, r1: Rgba, r2: Rgba| #[trigger]
        call_ensures(blend, (c, d), r1) && #[trigger] call_ensures(blend, (c, d), r2) ==> r1 == r2
}

/// A pixel of a band, painted under some clip, with what the buffers hold.
pub struct PixelSite {
    pub band: Band,
    pub clip: Option<ClipRect>,
    pub index: int,
}

impl PixelSite {
    pub open spec fn x(self) -> int {
        virtual_gpu::column(self.index, self.band.width as int)
    }

    pub open spec fn y(self) -> int {
        self.band.first() + virtual_gpu::row(self.index, self.band.width as int)
    }

    /// Whether the pixel belongs to the band, and the band to the buffers.
    pub open spec fn held(self, p: Painting) -> bool {
        &&& 0 <= self.index < self.band.size()
        &&& self.band.size() <= p.colors.len()
        &&& self.band.size() <= p.depths.len()
    }

    /// Whether the pixel belongs to the band, the band to the buffers, and the clip does
    /// not leave the pixel out.
    pub open spec fn reached(self, p: Painting) -> bool {
        &&& self.held(p)
        &&& match self.clip {
            Some(clip) => in_clip(self.index, self.band, clip),
            None => true,
        }
    }

    pub open spec fn color(self, p: Painting) -> Rgba {
        p.colors[self.index]
    }

    pub open spec fn depth(self, p: Painting) -> F32 {
        p.depths[self.index]
    }
}

/// Whether a triangle turns the pixel's colour and depth in `before` into those in
/// `after`, if it covers it; `t` is the triangle.
spec fn site_painted<
    K: Copy,
    S: Fn(K, i32, i32) -> PixelSample,
    H: Fn(K, i32, i32, u32, u32) -> Shading,
    B: Fn(Rgba, Rgba) -> Rgba,
>(
    c: K,
    sample: S,
    shade: H,
    blend: B,
    t: Triangle,
    site: PixelSite,
    before: Painting,
    after: Painting,
) -> bool {
    let hit = t.vary_lens.0 == t.vary_lens.1 && t.vary_lens.1 == t.vary_lens.2
        && virtual_gpu::winding_of(t.area) != Winding::Degenerate && t.extent.min_x <= site.x()
        <= t.extent.max_x && t.extent.min_y <= site.y() <= t.extent.max_y;
    if hit {
        exists|counted: bool|
            #[trigger] virtual_gpu::pixel_result(
                c,
                sample,
                shade,
                blend,
                t.top_left,
                site.x() as i32,
                site.y() as i32,
                site.color(before),
                site.depth(before),
                site.color(after),
                site.depth(after),
                counted,
            )
    } else {
        site.color(after) == site.color(before) && site.depth(after) == site.depth(before)
    }
}

proof fn lemma_site_is_painted<
    K: Copy,
    S: Fn(K, i32, i32) -> PixelSample,
    H: Fn(K, i32, i32, u32, u32) -> Shading,
    B: Fn(Rgba, Rgba) -> Rgba,
>(
    c: K,
    sample: S,
    shade: H,
    blend: B,
    t: Triangle,
    site: PixelSite,
    before: Painting,
    after: Painting,
    counts: RasterCounts,
)
    requires
        virtual_gpu::triangle_painted(
            c,
            sample,
            shade,
            blend,
            site.band,
            t,
            site.clip,
            before.colors,
            before.depths,
            after.colors,
            after.depths,
            counts,
        ),
        site.reached(before),
    ensures
        site_painted(c, sample, shade, blend, t, site, before, after),
        site.reached(after),
        after.colors.len() == before.colors.len(),
        after.depths.len() == before.depths.len(),
{
    let band = site.band;
    let width = band.width as int;
    let rows = band.end() - band.first();
    assert(width > 0 && rows > 0) by (nonlinear_arith)
        requires
            0 <= site.index < rows * width,
            width >= 0,
    ;
    virtual_gpu::lemma_index_splits(site.index, width, rows);
    let part = virtual_gpu::visible_part(t.extent, width, band.first(), band.end(), site.clip);
    let boxed = t.extent.min_x <= site.x() <= t.extent.max_x && t.extent.min_y <= site.y()
        <= t.extent.max_y;
    assert(virtual_gpu::in_part(part, site.x(), site.y()) == boxed);
    match virtual_gpu::triangle_pixels(
        band,
        t,
        site.clip,
        before.colors.len() as int,
        before.depths.len() as int,
    ) {
        None => {},
        Some(w) => {
            let flags = choose|flags: Seq<bool>|
                {
                    &&& #[trigger] virtual_gpu::count_set(flags) == counts.shaded
                    &&& virtual_gpu::walked(
                        c,
                        sample,
                        shade,
                        blend,
                        t.top_left,
                        width,
                        band.first(),
                        band.size(),
                        virtual_gpu::window_set(width, w),
                        before.colors,
                        before.depths,
                        after.colors,
                        after.depths,
                        flags,
                    )
                };
            let done = virtual_gpu::window_set(width, w);
            assert(done(site.index) == virtual_gpu::in_window(site.index, width, w));
            assert(virtual_gpu::in_window(site.index, width, w) == boxed);
            assert(boxed ==> virtual_gpu::pixel_result(
                c,
                sample,
                shade,
                blend,
                t.top_left,
                site.x() as i32,
                site.y() as i32,
                site.color(before),
                site.depth(before),
                site.color(after),
                site.depth(after),
                flags[site.index],
            ));
        },
    }
}

proof fn lemma_sites_agree<
    G: Fn(Corners) -> Triangle,
    S: Fn(Corners, i32, i32) -> PixelSample,
    H: Fn(Corners, i32, i32, u32, u32) -> Shading,
    B: Fn(Rgba, Rgba) -> Rgba,
>(
    c: Corners,
    setup: G,
    sample: S,
    shade: H,
    blend: B,
    site_a: PixelSite,
    before_a: Painting,
    after_a: Painting,
    site_b: PixelSite,
    before_b: Painting,
    after_b: Painting,
)
    requires
        repeatable(setup, sample, shade, blend),
        one_painted(c, setup, sample, shade, blend, site_a.band, site_a.clip, before_a, after_a),
        one_painted(c, setup, sample, shade, blend, site_b.band, site_b.clip, before_b, after_b),
        site_a.reached(before_a),
        site_b.reached(before_b),
        site_a.x() == site_b.x(),
        site_a.y() == site_b.y(),
        site_a.color(before_a) == site_b.color(before_b),
        site_a.depth(before_a) == site_b.depth(before_b),
    ensures
        site_a.reached(after_a),
        site_b.reached(after_b),
        site_a.color(after_a) == site_b.color(after_b),
        site_a.depth(after_a) == site_b.depth(after_b),
{
    let (ta, na) = choose|t: Triangle, counts: RasterCounts|
        {
            &&& #[trigger] call_ensures(setup, (c,), t)
            &&& #[trigger] counts_sum(before_a.counts, counts) == after_a.counts
            &&& virtual_gpu::triangle_painted(
                c,
                sample,
                shade,
                blend,
                site_a.band,
                t,
                site_a.clip,
                before_a.colors,
                before_a.depths,
                after_a.colors,
                after_a.depths,
                counts,
            )
        };
    let (tb, nb) = choose|t: Triangle, counts: RasterCounts|
        {
            &&& #[trigger] call_ensures(setup, (c,), t)
            &&& #[trigger] counts_sum(before_b.counts, counts) == after_b.counts
            &&& virtual_gpu::triangle_painted(
                c,
                sample,
                shade,
                blend,
                site_b.band,
                t,
                site_b.clip,
                before_b.colors,
                before_b.depths,
                after_b.colors,
                after_b.depths,
                counts,
            )
        };
    assert(ta == tb);
    lemma_site_is_painted(c, sample, shade, blend, ta, site_a, before_a, after_a, na);
    lemma_site_is_painted(c, sample, shade, blend, tb, site_b, before_b, after_b, nb);
}

/// What a draw call makes of a pixel depends on nothing but the pixel: neither on the
/// band of rows that it is painted with, nor on the clip, as long as that does not leave
/// it out. So painting only the damage, or band by band, gives the pixels that painting
/// everything at once would give.
pub proof fn law_a_pixel_is_painted_alike_everywhere<
    G: Fn(Corners) -> Triangle,
    S: Fn(Corners, i32, i32) -> PixelSample,
    H: Fn(Corners, i32, i32, u32, u32) -> Shading,
    B: Fn(Rgba, Rgba) -> Rgba,
>(
    triangles: Seq<Corners>,
    setup: G,
    sample: S,
    shade: H,
    blend: B,
    site_a: PixelSite,
    before_a: Painting,
    after_a: Painting,
    site_b: PixelSite,
    before_b: Painting,
    after_b: Painting,
)
    requires
        repeatable(setup, sample, shade, blend),
        all_painted(
            triangles,
            setup,
            sample,
            shade,
            blend,
            site_a.band,
            site_a.clip,
            before_a,
            after_a,
        ),
        all_painted(
            triangles,
            setup,
            sample,
            shade,
            blend,
            site_b.band,
            site_b.clip,
            before_b,
            after_b,
        ),
        site_a.reached(before_a),
        site_b.reached(before_b),
        site_a.x() == site_b.x(),
        site_a.y() == site_b.y(),
        site_a.color(before_a) == site_b.color(before_b),
        site_a.depth(before_a) == site_b.depth(before_b),
    ensures
        site_a.color(after_a) == site_b.color(after_b),
        site_a.depth(after_a) == site_b.depth(after_b),
{
    let sa = choose|states: Seq<Painting>|
        {
            &&& #[trigger] is_chain(
                triangles,
                setup,
                sample,
                shade,
                blend,
                site_a.band,
                site_a.clip,
                states,
            )
            &&& states[0] == before_a
            &&& states.last() == after_a
        };
    let sb = choose|states: Seq<Painting>|
        {
            &&& #[trigger] is_chain(
                triangles,
                setup,
                sample,
                shade,
                blend,
                site_b.band,
                site_b.clip,
                states,
            )
            &&& states[0] == before_b
            &&& states.last() == after_b
        };
    lemma_chains_agree(
        triangles,
        setup,
        sample,
        shade,
        blend,
        site_a,
        sa,
        site_b,
        sb,
        triangles.len() as int,
    );
}

proof fn lemma_chains_agree<
    G: Fn(Corners) -> Triangle,
    S: Fn(Corners, i32, i32) -> PixelSample,
    H: Fn(Corners, i32, i32, u32, u32) -> Shading,
    B: Fn(Rgba, Rgba) -> Rgba,
>(
    triangles: Seq<Corners>,
    setup: G,
    sample: S,
    shade: H,
    blend: B,
    site_a: PixelSite,
    sa: Seq<Painting>,
    site_b: PixelSite,
    sb: Seq<Painting>,
    n: int,
)
    requires
        repeatable(setup, sample, shade, blend),
        is_chain(triangles, setup, sample, shade, blend, site_a.band, site_a.clip, sa),
        is_chain(triangles, setup, sample, shade, blend, site_b.band, site_b.clip, sb),
        0 <= n <= triangles.len(),
        site_a.reached(sa[0]),
        site_b.reached(sb[0]),
        site_a.x() == site_b.x(),
        site_a.y() == site_b.y(),
        site_a.color(sa[0]) == site_b.color(sb[0]),
        site_a.depth(sa[0]) == site_b.depth(sb[0]),
    ensures
        site_a.reached(sa[n]),
        site_b.reached(sb[n]),
        site_a.color(sa[n]) == site_b.color(sb[n]),
        site_a.depth(sa[n]) == site_b.depth(sb[n]),
    decreases n,
{
    if n > 0 {
        lemma_chains_agree(
            triangles,
            setup,
            sample,
            shade,
            blend,
            site_a,
            sa,
            site_b,
            sb,
            n - 1,
        );
        let c = triangles[n - 1];
        lemma_sites_agree(
            c,
            setup,
            sample,
            shade,
            blend,
            site_a,
            sa[n - 1],
            sa[n],
            site_b,
            sb[n - 1],
            sb[n],
        );
    }
}

/// What a draw call makes of a pixel under one clip is the same in every band, whether or
/// not the clip leaves the pixel out.
pub proof fn law_bands_paint_alike<
    G: Fn(Corners) -> Triangle,
    S: Fn(Corners, i32, i32) -> PixelSample,
    H: Fn(Corners, i32, i32, u32, u32) -> Shading,
    B: Fn(Rgba, Rgba) -> Rgba,
>(
    triangles: Seq<Corners>,
    setup: G,
    sample: S,
    shade: H,
    blend: B,
    site_a: PixelSite,
    before_a: Painting,
    after_a: Painting,
    site_b: PixelSite,
    before_b: Painting,
    after_b: Painting,
)
    requires
        repeatable(setup, sample, shade, blend),
        all_painted(
            triangles,
            setup,
            sample,
            shade,
            blend,
            site_a.band,
            site_a.clip,
            before_a,
            after_a,
        ),
        all_painted(
            triangles,
            setup,
            sample,
            shade,
            blend,
            site_b.band,
            site_b.clip,
            before_b,
            after_b,
        ),
        site_a.clip == site_b.clip,
        site_a.held(before_a),
        site_b.held(before_b),
        site_a.x() == site_b.x(),
        site_a.y() == site_b.y(),
        site_a.color(before_a) == site_b.color(before_b),
        site_a.depth(before_a) == site_b.depth(before_b),
    ensures
        site_a.color(after_a) == site_b.color(after_b),
        site_a.depth(after_a) == site_b.depth(after_b),
{
    let outside = match site_a.clip {
        Some(clip) => !in_clip(site_a.index, site_a.band, clip),
        None => false,
    };
    if outside {
        let clip = site_a.clip->0;
        law_pixels_outside_the_clip_stay(
            triangles,
            setup,
            sample,
            shade,
            blend,
            site_a.band,
            clip,
            before_a,
            after_a,
            site_a.index,
        );
        law_pixels_outside_the_clip_stay(
            triangles,
            setup,
            sample,
            shade,
            blend,
            site_b.band,
            clip,
            before_b,
            after_b,
            site_b.index,
        );
    } else {
        law_a_pixel_is_painted_alike_everywhere(
            triangles,
            setup,
            sample,
            shade,
            blend,
            site_a,
            before_a,
            after_a,
            site_b,
            before_b,
            after_b,
        );
    }
}

/// Whether measuring and shading a pixel give the same every time they are asked the same.
pub open spec fn pixels_repeatable<
    K: Copy,
    S: Fn(K, i32, i32) -> PixelSample,
    H: Fn(K, i32, i32, u32, u32) -> Shading,
    B: Fn(Rgba, Rgba) -> Rgba,
>(key: K, sample: S, shade: H, blend: B) -> bool {
    &&& forall|x: i32, y: i32, p1: PixelSample, p2: PixelSample| #[trigger]
        call_ensures(sample, (key, x, y), p1) && #[trigger] call_ensures(sample, (key, x, y), p2)
            ==> p1 == p2
    &&& forall|x: i32, y: i32, lx: u32, ly: u32, s1: Shading, s2: Shading| #[trigger]
        call_ensures(shade, (key, x, y, lx, ly), s1) && #[trigger] call_ensures(
            shade,
            (key, x, y, lx, ly),
            s2,
        ) ==> s1 == s2
    &&& forall|c: Rgba, d: Rgba, r1: Rgba, r2: Rgba| #[trigger]
        call_ensures(blend, (c, d), r1) && #[trigger] call_ensures(blend, (c, d), r2) ==> r1 == r2
}

proof fn lemma_triangle_sites_agree<
    K: Copy,
    S: Fn(K, i32, i32) -> PixelSample,
    H: Fn(K, i32, i32, u32, u32) -> Shading,
    B: Fn(Rgba, Rgba) -> Rgba,
>(
    key: K,
    sample: S,
    shade: H,
    blend: B,
    t: Triangle,
    site_a: PixelSite,
    before_a: Painting,
    after_a: Painting,
    site_b: PixelSite,
    before_b: Painting,
    after_b: Painting,
)
    requires
        pixels_repeatable(key, sample, shade, blend),
        triangle_turns(key, sample, shade, blend, t, site_a, before_a, after_a),
        triangle_turns(key, sample, shade, blend, t, site_b, before_b, after_b),
        site_a.clip == site_b.clip,
        site_a.held(before_a),
        site_b.held(before_b),
        site_a.x() == site_b.x(),
        site_a.y() == site_b.y(),
        site_a.color(before_a) == site_b.color(before_b),
        site_a.depth(before_a) == site_b.depth(before_b),
    ensures
        site_a.color(after_a) == site_b.color(after_b),
        site_a.depth(after_a) == site_b.depth(after_b),
{
    let outside = match site_a.clip {
        Some(clip) => !in_clip(site_a.index, site_a.band, clip),
        None => false,
    };
    if outside {
        let clip = site_a.clip->0;
        lemma_triangle_stays_inside(
            key,
            sample,
            shade,
            blend,
            site_a.band,
            t,
            clip,
            before_a,
            after_a,
            after_a.counts,
            site_a.index,
        );
        lemma_triangle_stays_inside(
            key,
            sample,
            shade,
            blend,
            site_b.band,
            t,
            clip,
            before_b,
            after_b,
            after_b.counts,
            site_b.index,
        );
    } else {
        lemma_site_is_painted(
            key,
            sample,
            shade,
            blend,
            t,
            site_a,
            before_a,
            after_a,
            after_a.counts,
        );
        lemma_site_is_painted(
            key,
            sample,
            shade,
            blend,
            t,
            site_b,
            before_b,
            after_b,
            after_b.counts,
        );
    }
}

/// Whether painting a triangle under the band and the clip of a site turns `before` into
/// `after`, whose counts are those of this triangle alone.
pub open spec fn triangle_turns<
    K: Copy,
    S: Fn(K, i32, i32) -> PixelSample,
    H: Fn(K, i32, i32, u32, u32) -> Shading,
    B: Fn(Rgba, Rgba) -> Rgba,
>(
    key: K,
    sample: S,
    shade: H,
    blend: B,
    t: Triangle,
    site: PixelSite,
    before: Painting,
    after: Painting,
) -> bool {
    virtual_gpu::triangle_painted(
        key,
        sample,
        shade,
        blend,
        site.band,
        t,
        site.clip,
        before.colors,
        before.depths,
        after.colors,
        after.depths,
        after.counts,
    )
}

/// Painting a triangle into some rows at once leaves the pixels that painting it into the
/// first of them and then into the others leaves.
pub proof fn law_rows_can_be_split<
    K: Copy,
    S: Fn(K, i32, i32) -> PixelSample,
    H: Fn(K, i32, i32, u32, u32) -> Shading,
    B: Fn(Rgba, Rgba) -> Rgba,
>(
    key: K,
    sample: S,
    shade: H,
    blend: B,
    t: Triangle,
    clip: Option<ClipRect>,
    width: usize,
    height: usize,
    row_start: usize,
    middle: usize,
    row_end: usize,
    before: Painting,
    after: Painting,
    upper_before: Painting,
    upper_after: Painting,
    lower_before: Painting,
    lower_after: Painting,
)
    requires
        row_start <= middle <= row_end <= height,
        pixels_repeatable(key, sample, shade, blend),
        before.colors.len() == (row_end - row_start) * width,
        before.depths.len() == (row_end - row_start) * width,
        upper_before.colors == before.colors.take((middle - row_start) * width),
        upper_before.depths == before.depths.take((middle - row_start) * width),
        lower_before.colors == before.colors.skip((middle - row_start) * width),
        lower_before.depths == before.depths.skip((middle - row_start) * width),
        triangle_turns(
            key,
            sample,
            shade,
            blend,
            t,
            (PixelSite { band: Band { width, height, row_start, row_end }, clip, index: 0 }),
            before,
            after,
        ),
        triangle_turns(
            key,
            sample,
            shade,
            blend,
            t,
            (PixelSite {
                band: Band { width, height, row_start, row_end: middle },
                clip,
                index: 0,
            }),
            upper_before,
            upper_after,
        ),
        triangle_turns(
            key,
            sample,
            shade,
            blend,
            t,
            (PixelSite {
                band: Band { width, height, row_start: middle, row_end },
                clip,
                index: 0,
            }),
            lower_before,
            lower_after,
        ),
    ensures
        after.colors == upper_after.colors + lower_after.colors,
        after.depths == upper_after.depths + lower_after.depths,
{
    let w = width as int;
    let whole = Band { width, height, row_start, row_end };
    let upper = Band { width, height, row_start, row_end: middle };
    let lower = Band { width, height, row_start: middle, row_end };
    let cut = (middle - row_start) * w;
    assert(0 <= cut <= (row_end - row_start) * w && (row_end - row_start) * w - cut == (row_end
        - middle) * w) by (nonlinear_arith)
        requires
            cut == (middle - row_start) * w,
            row_start <= middle <= row_end,
            0 <= w,
    ;
    assert(after.colors.len() == before.colors.len() && after.depths.len() == before.depths.len());
    assert(upper_after.colors.len() == cut && upper_after.depths.len() == cut);
    assert(lower_after.colors.len() == lower_before.colors.len() && lower_after.depths.len()
        == lower_before.depths.len());
    assert forall|i: int| 0 <= i < before.colors.len() implies #[trigger] after.colors[i] == (
    upper_after.colors + lower_after.colors)[i] && after.depths[i] == (upper_after.depths
        + lower_after.depths)[i] by {
        let site = PixelSite { band: whole, clip, index: i };
        if i < cut {
            lemma_triangle_sites_agree(
                key,
                sample,
                shade,
                blend,
                t,
                site,
                before,
                after,
                PixelSite { band: upper, clip, index: i },
                upper_before,
                upper_after,
            );
        } else {
            assert((row_end - row_start) * w == w * (row_end - row_start)) by (nonlinear_arith);
            virtual_gpu::lemma_index_splits(i, w, row_end - row_start);
            virtual_gpu::lemma_shifted_index(i, w, middle - row_start);
            lemma_triangle_sites_agree(
                key,
                sample,
                shade,
                blend,
                t,
                site,
                before,
                after,
                PixelSite { band: lower, clip, index: i - cut },
                lower_before,
                lower_after,
            );
        }
    }
    assert(after.colors =~= upper_after.colors + lower_after.colors);
    assert forall|i: int| 0 <= i < before.colors.len() implies #[trigger] after.depths[i] == (
    upper_after.depths + lower_after.depths)[i] by {
        assert(after.colors[i] == after.colors[i]);
    }
    assert(after.depths =~= upper_after.depths + lower_after.depths);
}

/// Painting keeps the number of pixels.
pub proof fn lemma_painting_keeps_the_size<
    G: Fn(Corners) -> Triangle,
    S: Fn(Corners, i32, i32) -> PixelSample,
    H: Fn(Corners, i32, i32, u32, u32) -> Shading,
    B: Fn(Rgba, Rgba) -> Rgba,
>(
    triangles: Seq<Corners>,
    setup: G,
    sample: S,
    shade: H,
    blend: B,
    band: Band,
    clip: Option<ClipRect>,
    before: Painting,
    after: Painting,
)
    requires
        all_painted(triangles, setup, sample, shade, blend, band, clip, before, after),
    ensures
        after.colors.len() == before.colors.len(),
        after.depths.len() == before.depths.len(),
{
    let states = choose|states: Seq<Painting>|
        {
            &&& #[trigger] is_chain(triangles, setup, sample, shade, blend, band, clip, states)
            &&& states[0] == before
            &&& states.last() == after
        };
    lemma_chain_keeps_the_size(
        triangles,
        setup,
        sample,
        shade,
        blend,
        band,
        clip,
        states,
        triangles.len() as int,
    );
}

proof fn lemma_chain_keeps_the_size<
    G: Fn(Corners) -> Triangle,
    S: Fn(Corners, i32, i32) -> PixelSample,
    H: Fn(Corners, i32, i32, u32, u32) -> Shading,
    B: Fn(Rgba, Rgba) -> Rgba,
>(
    triangles: Seq<Corners>,
    setup: G,
    sample: S,
    shade: H,
    blend: B,
    band: Band,
    clip: Option<ClipRect>,
    states: Seq<Painting>,
    n: int,
)
    requires
        is_chain(triangles, setup, sample, shade, blend, band, clip, states),
        0 <= n <= triangles.len(),
    ensures
        states[n].colors.len() == states[0].colors.len(),
        states[n].depths.len() == states[0].depths.len(),
    decreases n,
{
    if n > 0 {
        lemma_chain_keeps_the_size(
            triangles,
            setup,
            sample,
            shade,
            blend,
            band,
            clip,
            states,
            n - 1,
        );
        let c = triangles[n - 1];
        assert(one_painted(
            c,
            setup,
            sample,
            shade,
            blend,
            band,
            clip,
            states[n - 1],
            states[n - 1 + 1],
        ));
    }
}

/// The corners of a triangle are the vertices that its three indices name, in their order,
/// among those of its own instance; and their varyings start where those of the vertices
/// before them end. A triangle with an index that no vertex has is left out.
pub proof fn law_corners_are_named_by_their_indices(
    mesh: Mesh,
    indices: Seq<u32>,
    instances: int,
    instance: int,
    tri: int,
)
    requires
        0 <= instance < instances,
        0 <= tri,
        tri * 3 + 2 < indices.len(),
        mesh.positions == instances * mesh.vertex_count,
        mesh.varyings == instances * mesh.vertex_count * mesh.varying_slots,
    ensures
        ({
            let (i0, i1, i2) = (
                indices[tri * 3],
                indices[tri * 3 + 1],
                indices[tri * 3 + 2],
            );
            let valid = i0 < mesh.vertex_count && i1 < mesh.vertex_count && i2 < mesh.vertex_count;
            let base = instance * mesh.vertex_count;
            match mesh.corners(indices, instance, tri) {
                Some(c) => {
                    &&& valid
                    &&& c.instance == instance as usize
                    &&& c.v0 == base + i0 && c.v1 == base + i1 && c.v2 == base + i2
                    &&& c.vary0 == (base + i0) * mesh.varying_slots
                    &&& c.vary1 == (base + i1) * mesh.varying_slots
                    &&& c.vary2 == (base + i2) * mesh.varying_slots
                },
                None => !valid,
            }
        }),
{
    lemma_vertex_exists(mesh, instances, instance, indices[tri * 3] as int);
    lemma_vertex_exists(mesh, instances, instance, indices[tri * 3 + 1] as int);
    lemma_vertex_exists(mesh, instances, instance, indices[tri * 3 + 2] as int);
}

proof fn lemma_vertex_exists(mesh: Mesh, instances: int, instance: int, vertex: int)
    requires
        0 <= instance < instances,
        0 <= vertex,
        mesh.positions == instances * mesh.vertex_count,
        mesh.varyings == instances * mesh.vertex_count * mesh.varying_slots,
    ensures
        mesh.has(instance, vertex) <==> vertex < mesh.vertex_count,
        vertex < mesh.vertex_count ==> 0 <= mesh.index(instance, vertex) <= usize::MAX && 0
            <= mesh.index(instance, vertex) * mesh.varying_slots <= usize::MAX,
{
    let (n, k) = (mesh.vertex_count as int, mesh.varying_slots as int);
    if vertex < n {
        let v = instance * n + vertex;
        assert(0 <= v < instances * n) by (nonlinear_arith)
            requires
                0 <= instance < instances,
                0 <= vertex < n,
                v == instance * n + vertex,
        ;
        assert(0 <= v * k && v * k + k <= instances * n * k) by (nonlinear_arith)
            requires
                0 <= v < instances * n,
                0 <= k,
        ;
    }
}

/// All triangles of a sound mesh are painted, instance by instance, and in each instance in
/// the order of the indices.
pub proof fn law_all_triangles_are_painted_in_order(
    mesh: Mesh,
    indices: Seq<u32>,
    instances: int,
    n: int,
)
    requires
        0 <= n <= instances,
        mesh.positions == instances * mesh.vertex_count,
        mesh.varyings == instances * mesh.vertex_count * mesh.varying_slots,
        forall|i: int| 0 <= i < indices.len() ==> (#[trigger] indices[i]) < mesh.vertex_count,
    ensures
        ({
            let count = indices.len() as int / 3;
            let all = mesh.triangles(indices, n);
            &&& all.len() == n * count
            &&& forall|instance: int, tri: int|
                0 <= instance < n && 0 <= tri < count ==> Some(
                    all[instance * count + tri],
                ) == #[trigger] mesh.corners(indices, instance, tri)
        }),
    decreases n,
{
    let count = indices.len() as int / 3;
    if n > 0 {
        law_all_triangles_are_painted_in_order(mesh, indices, instances, n - 1);
        let before = mesh.triangles(indices, n - 1);
        let own = mesh.triangles_of(indices, n - 1, count);
        let all = mesh.triangles(indices, n);
        lemma_triangles_of_an_instance(mesh, indices, instances, n - 1, count);
        assert((n - 1) * count + count == n * count) by (nonlinear_arith);
        assert forall|instance: int, tri: int|
            0 <= instance < n && 0 <= tri < count implies Some(
            all[instance * count + tri],
        ) == #[trigger] mesh.corners(indices, instance, tri) by {
            let k = instance * count + tri;
            if instance < n - 1 {
                assert(0 <= k < (n - 1) * count) by (nonlinear_arith)
                    requires
                        0 <= instance < n - 1,
                        0 <= tri < count,
                        k == instance * count + tri,
                ;
                assert(all[k] == before[k]);
            } else {
                assert(all[k] == own[tri]);
            }
        }
    } else {
        assert(0 * count == 0) by (nonlinear_arith);
    }
}

proof fn lemma_triangles_of_an_instance(
    mesh: Mesh,
    indices: Seq<u32>,
    instances: int,
    instance: int,
    n: int,
)
    requires
        0 <= instance < instances,
        0 <= n <= indices.len() as int / 3,
        mesh.positions == instances * mesh.vertex_count,
        mesh.varyings == instances * mesh.vertex_count * mesh.varying_slots,
        forall|i: int| 0 <= i < indices.len() ==> (#[trigger] indices[i]) < mesh.vertex_count,
    ensures
        mesh.triangles_of(indices, instance, n).len() == n,
        forall|tri: int|
            0 <= tri < n ==> Some(
                #[trigger] mesh.triangles_of(indices, instance, n)[tri],
            ) == mesh.corners(indices, instance, tri),
    decreases n,
{
    if n > 0 {
        lemma_triangles_of_an_instance(mesh, indices, instances, instance, n - 1);
        law_corners_are_named_by_their_indices(mesh, indices, instances, instance, n - 1);
        assert(indices[(n - 1) * 3] < mesh.vertex_count);
        assert(indices[(n - 1) * 3 + 1] < mesh.vertex_count);
        assert(indices[(n - 1) * 3 + 2] < mesh.vertex_count);
        let before = mesh.triangles_of(indices, instance, n - 1);
        let all = mesh.triangles_of(indices, instance, n);
        assert forall|tri: int| 0 <= tri < n implies Some(#[trigger] all[tri])
            == mesh.corners(indices, instance, tri) by {
            if tri < n - 1 {
                assert(all[tri] == before[tri]);
            }
        }
    }
}

/// Triangles are painted one after the other: each on what the one before has left, and the
/// counts add up. Painting some and then others is painting them all.
pub proof fn law_triangles_are_painted_one_after_the_other<
    G: Fn(Corners) -> Triangle,
    S: Fn(Corners, i32, i32) -> PixelSample,
    H: Fn(Corners, i32, i32, u32, u32) -> Shading,
    B: Fn(Rgba, Rgba) -> Rgba,
>(
    first: Seq<Corners>,
    last: Corners,
    setup: G,
    sample: S,
    shade: H,
    blend: B,
    band: Band,
    clip: Option<ClipRect>,
    before: Painting,
    after: Painting,
)
    requires
        all_painted(first.push(last), setup, sample, shade, blend, band, clip, before, after),
    ensures
        exists|mid: Painting, t: Triangle, counts: RasterCounts|
            {
                &&& #[trigger] all_painted(
                    first,
                    setup,
                    sample,
                    shade,
                    blend,
                    band,
                    clip,
                    before,
                    mid,
                )
                &&& #[trigger] call_ensures(setup, (last,), t)
                &&& after.counts.tested == mid.counts.tested.wrapping_add(counts.tested)
                &&& after.counts.shaded == mid.counts.shaded.wrapping_add(counts.shaded)
                &&& #[trigger] virtual_gpu::triangle_painted(
                    last,
                    sample,
                    shade,
                    blend,
                    band,
                    t,
                    clip,
                    mid.colors,
                    mid.depths,
                    after.colors,
                    after.depths,
                    counts,
                )
            },
        all_painted(Seq::empty(), setup, sample, shade, blend, band, clip, before, before),
{
    let all = first.push(last);
    let states = choose|states: Seq<Painting>|
        {
            &&& #[trigger] is_chain(all, setup, sample, shade, blend, band, clip, states)
            &&& states[0] == before
            &&& states.last() == after
        };
    let n = first.len() as int;
    let mid = states[n];
    let front = states.take(n + 1);
    assert(is_chain(first, setup, sample, shade, blend, band, clip, front)) by {
        assert forall|i: int| 0 <= i < first.len() implies one_painted(
            #[trigger] first[i],
            setup,
            sample,
            shade,
            blend,
            band,
            clip,
            front[i],
            front[i + 1],
        ) by {
            assert(all[i] == first[i]);
        }
    }
    assert(all_painted(first, setup, sample, shade, blend, band, clip, before, mid));
    assert(all[n] == last);
    assert(one_painted(last, setup, sample, shade, blend, band, clip, mid, after));
    let none = Seq::<Corners>::empty();
    let one = seq![before];
    assert(is_chain(none, setup, sample, shade, blend, band, clip, one));
    assert(one[0] == before && one.last() == before);
}

/// The call gives the triangles of a sound mesh instance by instance, each with the corners
/// that its three indices name in its instance.
pub proof fn law_triangles_are_collected_as_indexed(
    mesh: Mesh,
    indices: &Vec<u32>,
    instances: usize,
    r: Vec<Corners>,
    instance: int,
    tri: int,
)
    requires
        call_ensures(Mesh::collect_triangles, (mesh, indices, instances), r),
        mesh.positions == instances * mesh.vertex_count,
        mesh.varyings == instances * mesh.vertex_count * mesh.varying_slots,
        forall|i: int| 0 <= i < indices@.len() ==> (#[trigger] indices@[i]) < mesh.vertex_count,
        0 <= instance < instances,
        0 <= tri < indices@.len() as int / 3,
    ensures
        ({
            let count = indices@.len() as int / 3;
            let base = instance * mesh.vertex_count;
            let c = r@[instance * count + tri];
            &&& r@.len() == instances * count
            &&& c.instance == instance
            &&& c.v0 == base + indices@[tri * 3]
            &&& c.v1 == base + indices@[tri * 3 + 1]
            &&& c.v2 == base + indices@[tri * 3 + 2]
            &&& c.vary0 == (base + indices@[tri * 3]) * mesh.varying_slots
            &&& c.vary1 == (base + indices@[tri * 3 + 1]) * mesh.varying_slots
            &&& c.vary2 == (base + indices@[tri * 3 + 2]) * mesh.varying_slots
        }),
{
    law_all_triangles_are_painted_in_order(mesh, indices@, instances as int, instances as int);
    law_corners_are_named_by_their_indices(mesh, indices@, instances as int, instance, tri);
    assert(mesh.corners(indices@, instance, tri) is Some);
}

/// A triangle with a corner that the mesh does not have is not painted, and everything that
/// is painted is a triangle of the mesh.
pub proof fn law_only_sound_triangles_are_collected(
    mesh: Mesh,
    indices: &Vec<u32>,
    instances: usize,
    r: Vec<Corners>,
    k: int,
)
    requires
        call_ensures(Mesh::collect_triangles, (mesh, indices, instances), r),
        0 <= k < r@.len(),
    ensures
        r@[k].instance < instances,
        r@[k].v0 < mesh.positions && r@[k].v1 < mesh.positions && r@[k].v2 < mesh.positions,
        r@[k].vary0 + mesh.varying_slots <= mesh.varyings,
        r@[k].vary1 + mesh.varying_slots <= mesh.varyings,
        r@[k].vary2 + mesh.varying_slots <= mesh.varyings,
{
    lemma_all_sound(mesh, indices@, instances as int, k);
}

proof fn lemma_all_sound(mesh: Mesh, indices: Seq<u32>, n: int, k: int)
    requires
        0 <= n <= usize::MAX,
        0 <= k < mesh.triangles(indices, n).len(),
    ensures
        ({
            let c = mesh.triangles(indices, n)[k];
            &&& c.instance < n
            &&& c.v0 < mesh.positions && c.v1 < mesh.positions && c.v2 < mesh.positions
            &&& c.vary0 + mesh.varying_slots <= mesh.varyings
            &&& c.vary1 + mesh.varying_slots <= mesh.varyings
            &&& c.vary2 + mesh.varying_slots <= mesh.varyings
        }),
    decreases n,
{
    if n > 0 {
        let before = mesh.triangles(indices, n - 1);
        if k < before.len() {
            lemma_all_sound(mesh, indices, n - 1, k);
        } else {
            lemma_all_sound_in(mesh, indices, n - 1, indices.len() as int / 3, k - before.len());
        }
    }
}

proof fn lemma_all_sound_in(mesh: Mesh, indices: Seq<u32>, instance: int, n: int, k: int)
    requires
        0 <= instance < usize::MAX,
        0 <= k < mesh.triangles_of(indices, instance, n).len(),
    ensures
        ({
            let c = mesh.triangles_of(indices, instance, n)[k];
            &&& c.instance == instance
            &&& c.v0 < mesh.positions && c.v1 < mesh.positions && c.v2 < mesh.positions
            &&& c.vary0 + mesh.varying_slots <= mesh.varyings
            &&& c.vary1 + mesh.varying_slots <= mesh.varyings
            &&& c.vary2 + mesh.varying_slots <= mesh.varyings
        }),
    decreases n,
{
    let before = mesh.triangles_of(indices, instance, n - 1);
    if k < before.len() {
        lemma_all_sound_in(mesh, indices, instance, n - 1, k);
    } else {
        lemma_sound_place(mesh, instance, indices[(n - 1) * 3] as int);
        lemma_sound_place(mesh, instance, indices[(n - 1) * 3 + 1] as int);
        lemma_sound_place(mesh, instance, indices[(n - 1) * 3 + 2] as int);
    }
}

proof fn lemma_sound_place(mesh: Mesh, instance: int, vertex: int)
    requires
        0 <= instance,
        0 <= vertex,
        mesh.has(instance, vertex),
    ensures
        0 <= mesh.index(instance, vertex) < mesh.positions,
        0 <= mesh.index(instance, vertex) * mesh.varying_slots,
        mesh.index(instance, vertex) * mesh.varying_slots + mesh.varying_slots <= mesh.varyings,
{
    let (n, k) = (mesh.vertex_count as int, mesh.varying_slots as int);
    assert(instance * n >= 0) by (nonlinear_arith)
        requires
            instance >= 0,
            n >= 0,
    ;
    let v = instance * n + vertex;
    assert(v * k >= 0) by (nonlinear_arith)
        requires
            v >= 0,
            k >= 0,
    ;
}

/// The call paints the triangles that the mesh gives, the last one on what the others have
/// left, and adds up the counts; without a triangle nothing is changed or counted.
pub proof fn law_the_triangles_of_a_mesh_are_painted<
    G: Fn(Corners) -> Triangle,
    S: Fn(Corners, i32, i32) -> PixelSample,
    H: Fn(Corners, i32, i32, u32, u32) -> Shading,
    B: Fn(Rgba, Rgba) -> Rgba,
>(
    band: Band,
    color: &mut [Rgba],
    depth_buf: &mut [F32],
    indices: &Vec<u32>,
    instance_count: usize,
    mesh: Mesh,
    clip: Option<ClipRect>,
    setup: &G,
    sample: &S,
    shade: &H,
    blend: &B,
    r: RasterCounts,
    triangles: Vec<Corners>,
)
    requires
        call_ensures(
            rasterize_instances_rows::<G, S, H, B>,
            (
                band,
                color,
                depth_buf,
                indices,
                instance_count,
                mesh,
                clip,
                setup,
                sample,
                shade,
                blend,
            ),
            r,
        ),
        call_ensures(Mesh::collect_triangles, (mesh, indices, instance_count), triangles),
    ensures
        triangles@.len() == 0 ==> final(color)@ == old(color)@ && final(depth_buf)@ == old(
            depth_buf,
        )@ && r.tested == 0 && r.shaded == 0,
        triangles@.len() > 0 ==> exists|mid: Painting, t: Triangle, counts: RasterCounts|
            {
                &&& #[trigger] all_painted(
                    triangles@.drop_last(),
                    *setup,
                    *sample,
                    *shade,
                    *blend,
                    band,
                    clip,
                    (Painting {
                        colors: old(color)@,
                        depths: old(depth_buf)@,
                        counts: (RasterCounts { tested: 0, shaded: 0 }),
                    }),
                    mid,
                )
                &&& #[trigger] call_ensures(*setup, (triangles@.last(),), t)
                &&& r.tested == mid.counts.tested.wrapping_add(counts.tested)
                &&& r.shaded == mid.counts.shaded.wrapping_add(counts.shaded)
                &&& #[trigger] virtual_gpu::triangle_painted(
                    triangles@.last(),
                    *sample,
                    *shade,
                    *blend,
                    band,
                    t,
                    clip,
                    mid.colors,
                    mid.depths,
                    final(color)@,
                    final(depth_buf)@,
                    counts,
                )
            },
{
    let before = Painting {
        colors: old(color)@,
        depths: old(depth_buf)@,
        counts: RasterCounts { tested: 0, shaded: 0 },
    };
    let after = Painting { colors: final(color)@, depths: final(depth_buf)@, counts: r };
    if triangles@.len() > 0 {
        assert(triangles@ =~= triangles@.drop_last().push(triangles@.last()));
        law_triangles_are_painted_one_after_the_other(
            triangles@.drop_last(),
            triangles@.last(),
            *setup,
            *sample,
            *shade,
            *blend,
            band,
            clip,
            before,
            after,
        );
    } else {
        let states = choose|states: Seq<Painting>|
            {
                &&& #[trigger] is_chain(
                    triangles@,
                    *setup,
                    *sample,
                    *shade,
                    *blend,
                    band,
                    clip,
                    states,
                )
                &&& states[0] == before
                &&& states.last() == after
            };
        assert(states.len() == 1);
    }
}

} // verus!
