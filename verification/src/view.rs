//! What is painted of a draw list and its sub-lists: which draw calls, with which sizes,
//! their vertices, and the bands that they are painted in.

use crate::chunks;
use crate::chunks::BandRange;
use crate::draw_plan;
use crate::draw_plan::{vertex_run, DrawPlan, DrawSizes, DrawStep, RenderList, ShaderState, VertexRun};
use crate::instances;
use crate::instances::{Corners, Painting, PixelSite};
use crate::single::{Rgba, F32};
use crate::virtual_gpu;
use crate::virtual_gpu::{Band, ClipRect, PixelSample, RasterCounts, Shading, Triangle};
use vstd::prelude::*;

verus! {

/// A draw call as the painter finds it.
pub struct DrawCallState {
    pub shader: ShaderState,
    pub sizes: DrawSizes,
    /// Whether the shader asks how its varyings change from pixel to pixel.
    pub uses_derivatives: bool,
    /// The number of varyings that are the same all over a triangle.
    pub flat_varying_slots: usize,
}

/// What the painting of all draw calls depends on.
#[derive(Clone, Copy, Debug, PartialEq, Eq, Structural)]
pub struct ViewConfig {
    /// The number of rows of the framebuffer.
    pub height: usize,
    pub render_threads: usize,
    /// The number of triangles from which on a draw call is shared out among threads.
    pub parallel_min_tris: usize,
    pub has_pool: bool,
    /// Whether derivatives are switched off.
    pub no_derivatives: bool,
}

/// A draw call that is painted.
#[derive(Clone, Copy, Debug, PartialEq, Eq, Structural)]
pub struct PlannedDraw {
    pub step: DrawStep,
    pub plan: DrawPlan,
    pub draws_text: bool,
    pub flat_slots: usize,
    pub uses_derivatives: bool,
    /// Whether it is shared out among threads.
    pub parallel: bool,
}

/// Whether a draw call of that size is shared out among threads.
pub open spec fn shared_out(plan: DrawPlan, config: ViewConfig) -> bool {
    &&& chunks::chunk_count(
        config.height as int,
        config.render_threads as int,
        chunks::MIN_ROWS_PER_CHUNK as int,
    ) > 1
    &&& plan.tri_count * plan.instance_count >= config.parallel_min_tris
    &&& config.has_pool
}

/// How a draw call is painted; not at all if its shader is not ready or there is nothing
/// to paint.
pub open spec fn planned(
    call: &DrawCallState,
    step: DrawStep,
    only_shader: Option<&str>,
    config: ViewConfig,
) -> Option<PlannedDraw> {
    if !call.shader.ready(only_shader) {
        None
    } else {
        match call.sizes.plan() {
            Some(plan) => Some(
                PlannedDraw {
                    step,
                    plan,
                    draws_text: call.shader.code.draws_text(),
                    flat_slots: if call.flat_varying_slots < call.sizes.varying_slots {
                        call.flat_varying_slots
                    } else {
                        call.sizes.varying_slots
                    },
                    uses_derivatives: call.uses_derivatives && !config.no_derivatives,
                    parallel: shared_out(plan, config),
                },
            ),
            None => None,
        }
    }
}

/// How the draw call of a step is painted, where it is one.
pub open spec fn planned_step(
    calls: Seq<Vec<Option<DrawCallState>>>,
    step: DrawStep,
    only_shader: Option<&str>,
    config: ViewConfig,
) -> Option<PlannedDraw> {
    if step.list < calls.len() && step.item < calls[step.list as int]@.len() {
        match &calls[step.list as int]@[step.item as int] {
            Some(call) => planned(call, step, only_shader, config),
            None => None,
        }
    } else {
        None
    }
}

/// The steps that are painted, in their order.
pub open spec fn planned_steps(
    calls: Seq<Vec<Option<DrawCallState>>>,
    steps: Seq<DrawStep>,
    only_shader: Option<&str>,
    config: ViewConfig,
) -> Seq<PlannedDraw>
    decreases steps.len(),
{
    if steps.len() == 0 {
        Seq::empty()
    } else {
        let before = planned_steps(calls, steps.drop_last(), only_shader, config);
        match planned_step(calls, steps.last(), only_shader, config) {
            Some(p) => before.push(p),
            None => before,
        }
    }
}

/// Plans one draw call.
pub fn plan_draw(
    call: &DrawCallState,
    step: DrawStep,
    only_shader: Option<&str>,
    config: ViewConfig,
) -> (r: Option<PlannedDraw>)
    ensures
        r == planned(call, step, only_shader, config),
{
    if !call.shader.is_ready(only_shader) {
        return None;
    }
    let plan = match call.sizes.make_plan() {
        Some(plan) => plan,
        None => {
            return None;
        },
    };
    let rows = chunks::compute_row_chunks(config.height, config.render_threads);
    Some(
        PlannedDraw {
            step,
            plan,
            draws_text: call.shader.code.is_draw_text_shader(),
            flat_slots: if call.flat_varying_slots < call.sizes.varying_slots {
                call.flat_varying_slots
            } else {
                call.sizes.varying_slots
            },
            uses_derivatives: call.uses_derivatives && !config.no_derivatives,
            parallel: chunks::use_parallel(
                rows.len(),
                plan.tri_count,
                plan.instance_count,
                config.parallel_min_tris,
                config.has_pool,
            ),
        },
    )
}

/// Plans what is painted of a list and its sub-lists. Every draw call takes its step of
/// depth bias, whether or not it is painted.
pub fn headless_render_view(
    lists: &Vec<RenderList>,
    list: usize,
    calls: &Vec<Vec<Option<DrawCallState>>>,
    only_shader: Option<&str>,
    config: ViewConfig,
) -> (r: Vec<PlannedDraw>)
    requires
        draw_plan::lists_valid(lists@),
        exists|rank: spec_fn(int) -> nat| draw_plan::is_rank(lists@, rank),
        list < lists@.len(),
    ensures
        forall|rank: spec_fn(int) -> nat| #[trigger]
            draw_plan::is_rank(lists@, rank) ==> r@ == planned_steps(
                calls@,
                draw_plan::steps_of(lists@, rank, list as int, 0).0,
                only_shader,
                config,
            ),
{
    let steps = draw_plan::painting_order(lists, list);
    let n: usize = steps.len();
    let mut out: Vec<PlannedDraw> = Vec::new();
    let mut i: usize = 0;
    assert(steps@.take(0) =~= Seq::<DrawStep>::empty());
    while i < n
        invariant
            i <= n == steps@.len(),
            out@ == planned_steps(calls@, steps@.take(i as int), only_shader, config),
        decreases n - i,
    {
        let step = steps[i];
        proof {
            assert(steps@.take(i + 1).drop_last() =~= steps@.take(i as int));
            assert(steps@.take(i + 1).last() == step);
        }
        if step.list < calls.len() && step.item < calls[step.list].len() {
            match &calls[step.list][step.item] {
                Some(call) => match plan_draw(call, step, only_shader, config) {
                    Some(p) => {
                        out.push(p);
                    },
                    None => {},
                },
                None => {},
            }
        }
        i = i + 1;
    }
    assert(steps@.take(n as int) =~= steps@);
    out
}

/// Whether a step is a draw call whose shader is ready.
pub open spec fn ready_step(
    calls: Seq<Vec<Option<DrawCallState>>>,
    step: DrawStep,
    only_shader: Option<&str>,
) -> bool {
    step.list < calls.len() && step.item < calls[step.list as int]@.len() && (
    calls[step.list as int]@[step.item as int] matches Some(call) && call.shader.ready(only_shader))
}

/// The steps whose shaders are ready, in their order.
pub open spec fn ready_steps(
    calls: Seq<Vec<Option<DrawCallState>>>,
    steps: Seq<DrawStep>,
    only_shader: Option<&str>,
) -> Seq<DrawStep>
    decreases steps.len(),
{
    if steps.len() == 0 {
        Seq::empty()
    } else {
        let before = ready_steps(calls, steps.drop_last(), only_shader);
        if ready_step(calls, steps.last(), only_shader) {
            before.push(steps.last())
        } else {
            before
        }
    }
}

/// The draw calls of a list and its sub-lists whose textures are converted: those whose
/// shaders are ready, even where it turns out later that there is nothing to paint.
pub fn headless_texture_steps(
    lists: &Vec<RenderList>,
    list: usize,
    calls: &Vec<Vec<Option<DrawCallState>>>,
    only_shader: Option<&str>,
) -> (r: Vec<DrawStep>)
    requires
        draw_plan::lists_valid(lists@),
        exists|rank: spec_fn(int) -> nat| draw_plan::is_rank(lists@, rank),
        list < lists@.len(),
    ensures
        forall|rank: spec_fn(int) -> nat| #[trigger]
            draw_plan::is_rank(lists@, rank) ==> r@ == ready_steps(
                calls@,
                draw_plan::steps_of(lists@, rank, list as int, 0).0,
                only_shader,
            ),
{
    let steps = draw_plan::painting_order(lists, list);
    let n: usize = steps.len();
    let mut out: Vec<DrawStep> = Vec::new();
    let mut i: usize = 0;
    assert(steps@.take(0) =~= Seq::<DrawStep>::empty());
    while i < n
        invariant
            i <= n == steps@.len(),
            out@ == ready_steps(calls@, steps@.take(i as int), only_shader),
        decreases n - i,
    {
        let step = steps[i];
        proof {
            assert(steps@.take(i + 1).drop_last() =~= steps@.take(i as int));
            assert(steps@.take(i + 1).last() == step);
        }
        if step.list < calls.len() && step.item < calls[step.list].len() {
            match &calls[step.list][step.item] {
                Some(call) => if call.shader.is_ready(only_shader) {
                    out.push(step);
                },
                None => {},
            }
        }
        i = i + 1;
    }
    assert(steps@.take(n as int) =~= steps@);
    out
}

/// What is painted has its textures converted.
pub proof fn law_painted_calls_have_their_textures(
    calls: Seq<Vec<Option<DrawCallState>>>,
    steps: Seq<DrawStep>,
    only_shader: Option<&str>,
    config: ViewConfig,
    i: int,
)
    requires
        0 <= i < planned_steps(calls, steps, only_shader, config).len(),
    ensures
        ready_steps(calls, steps, only_shader).contains(
            planned_steps(calls, steps, only_shader, config)[i].step,
        ),
    decreases steps.len(),
{
    let all = planned_steps(calls, steps, only_shader, config);
    let fewer = steps.drop_last();
    let before = planned_steps(calls, fewer, only_shader, config);
    let (some, ready) = (
        ready_steps(calls, fewer, only_shader),
        ready_steps(calls, steps, only_shader),
    );
    if i < before.len() {
        law_painted_calls_have_their_textures(calls, fewer, only_shader, config, i);
        let k = choose|k: int| 0 <= k < some.len() && some[k] == before[i].step;
        assert(ready[k] == all[i].step);
    } else {
        assert(ready[ready.len() - 1] == all[i].step);
    }
}

/// Everything that is painted comes from a draw call whose shader is ready, and in the
/// order in which the draw calls stand: leaving some out moves none of the others.
pub proof fn law_painted_calls_are_ready(
    calls: Seq<Vec<Option<DrawCallState>>>,
    steps: Seq<DrawStep>,
    only_shader: Option<&str>,
    config: ViewConfig,
    i: int,
)
    requires
        0 <= i < planned_steps(calls, steps, only_shader, config).len(),
    ensures
        ({
            let p = planned_steps(calls, steps, only_shader, config)[i];
            &&& steps.contains(p.step)
            &&& p.step.list < calls.len()
            &&& p.step.item < calls[p.step.list as int]@.len()
            &&& calls[p.step.list as int]@[p.step.item as int] matches Some(call)
                && call.shader.ready(only_shader) && call.sizes.plan() == Some(p.plan)
        }),
    decreases steps.len(),
{
    let all = planned_steps(calls, steps, only_shader, config);
    let before = planned_steps(calls, steps.drop_last(), only_shader, config);
    if i < before.len() {
        law_painted_calls_are_ready(calls, steps.drop_last(), only_shader, config, i);
        let k = choose|k: int|
            0 <= k < steps.drop_last().len() && steps.drop_last()[k] == before[i].step;
        assert(steps[k] == all[i].step);
    } else {
        assert(steps[steps.len() - 1] == all[i].step);
    }
}

/// Where a vertex lies, in homogeneous coordinates.
#[derive(Clone, Copy, Debug, PartialEq, Eq, Structural)]
pub struct Position {
    pub x: F32,
    pub y: F32,
    pub z: F32,
    pub w: F32,
}

/// The vertices of all instances of a draw call, shaded.
pub struct ShadedVertices {
    pub positions: Vec<Position>,
    pub varyings: Vec<F32>,
}

/// The vertex number `k` among those of all instances.
pub open spec fn run_at(sizes: DrawSizes, plan: DrawPlan, k: int) -> VertexRun {
    draw_plan::run_of(
        sizes,
        plan,
        k / (plan.vertex_count as int),
        k % (plan.vertex_count as int),
    )
}

/// Whether the vertex number `k` is what the shader made of it.
pub open spec fn vertex_shaded<V: Fn(VertexRun) -> (Position, Vec<F32>)>(
    sizes: DrawSizes,
    plan: DrawPlan,
    vertex: V,
    positions: Seq<Position>,
    varyings: Seq<F32>,
    k: int,
) -> bool {
    exists|out: (Position, Vec<F32>)| #[trigger]
        call_ensures(vertex, (run_at(sizes, plan, k),), out) && positions[k] == out.0
            && varyings.subrange(
            k * sizes.varying_slots,
            k * sizes.varying_slots + sizes.varying_slots,
        ) == out.1@
}

/// Shades the vertices of all instances, instance by instance. `vertex` shades one: it
/// gives its position and its varyings.
pub fn shade_vertices<V: Fn(VertexRun) -> (Position, Vec<F32>)>(
    sizes: DrawSizes,
    plan: DrawPlan,
    vertex: &V,
) -> (r: ShadedVertices)
    requires
        sizes.plan() == Some(plan),
        plan.instance_count * plan.vertex_count <= usize::MAX,
        plan.instance_count * plan.vertex_count * sizes.varying_slots <= usize::MAX,
        forall|run: VertexRun| call_requires(*vertex, (run,)),
        forall|run: VertexRun, out: (Position, Vec<F32>)| #[trigger]
            call_ensures(*vertex, (run,), out) ==> out.1@.len() == sizes.varying_slots,
    ensures
        r.positions@.len() == plan.instance_count * plan.vertex_count,
        r.varyings@.len() == plan.instance_count * plan.vertex_count * sizes.varying_slots,
        forall|k: int|
            0 <= k < plan.instance_count * plan.vertex_count ==> #[trigger] vertex_shaded(
                sizes,
                plan,
                *vertex,
                r.positions@,
                r.varyings@,
                k,
            ),
{
    let mut positions: Vec<Position> = Vec::new();
    let mut varyings: Vec<F32> = Vec::new();
    let ghost slots = sizes.varying_slots as int;
    let ghost per = plan.vertex_count as int;
    let mut inst: usize = 0;
    assert(0 * per == 0) by (nonlinear_arith);
    assert(0 * slots == 0) by (nonlinear_arith);
    while inst < plan.instance_count
        invariant
            sizes.plan() == Some(plan),
            plan.instance_count * plan.vertex_count <= usize::MAX,
            plan.instance_count * plan.vertex_count * sizes.varying_slots <= usize::MAX,
            forall|run: VertexRun| call_requires(*vertex, (run,)),
            forall|run: VertexRun, out: (Position, Vec<F32>)| #[trigger]
                call_ensures(*vertex, (run,), out) ==> out.1@.len() == sizes.varying_slots,
            slots == sizes.varying_slots,
            per == plan.vertex_count,
            inst <= plan.instance_count,
            positions@.len() == inst * per,
            varyings@.len() == positions@.len() * slots,
            forall|k: int|
                0 <= k < positions@.len() ==> #[trigger] vertex_shaded(
                    sizes,
                    plan,
                    *vertex,
                    positions@,
                    varyings@,
                    k,
                ),
        decreases plan.instance_count - inst,
    {
        let mut vert: usize = 0;
        while vert < plan.vertex_count
            invariant
                sizes.plan() == Some(plan),
                plan.instance_count * plan.vertex_count <= usize::MAX,
                plan.instance_count * plan.vertex_count * sizes.varying_slots <= usize::MAX,
                forall|run: VertexRun| call_requires(*vertex, (run,)),
                forall|run: VertexRun, out: (Position, Vec<F32>)| #[trigger]
                    call_ensures(*vertex, (run,), out) ==> out.1@.len() == sizes.varying_slots,
                slots == sizes.varying_slots,
                per == plan.vertex_count,
                inst < plan.instance_count,
                vert <= plan.vertex_count,
                positions@.len() == inst * per + vert,
                varyings@.len() == positions@.len() * slots,
                forall|k: int|
                    0 <= k < positions@.len() ==> #[trigger] vertex_shaded(
                        sizes,
                        plan,
                        *vertex,
                        positions@,
                        varyings@,
                        k,
                    ),
            decreases plan.vertex_count - vert,
        {
            let run = vertex_run(sizes, plan, inst, vert);
            let ghost k = positions@.len() as int;
            proof {
                vstd::arithmetic::div_mod::lemma_fundamental_div_mod_converse(
                    k,
                    per,
                    inst as int,
                    vert as int,
                );
                assert(run == run_at(sizes, plan, k));
            }
            let out = vertex(run);
            let ghost result = out;
            let (position, values) = out;
            let ghost old_positions = positions@;
            let ghost old_varyings = varyings@;
            positions.push(position);
            let mut j: usize = 0;
            let n: usize = values.len();
            while j < n
                invariant
                    j <= n == values@.len(),
                    varyings@ == old_varyings + values@.take(j as int),
                decreases n - j,
            {
                varyings.push(values[j]);
                assert(values@.take(j + 1) =~= values@.take(j as int).push(values@[j as int]));
                assert(varyings@ =~= old_varyings + values@.take(j + 1));
                j = j + 1;
            }
            proof {
                assert(values@.take(n as int) =~= values@);
                assert(varyings@ == old_varyings + values@);
                assert((k + 1) * slots == k * slots + slots) by (nonlinear_arith);
                assert forall|m: int| 0 <= m < positions@.len() implies #[trigger] vertex_shaded(
                    sizes,
                    plan,
                    *vertex,
                    positions@,
                    varyings@,
                    m,
                ) by {
                    if m < k {
                        assert(vertex_shaded(
                            sizes,
                            plan,
                            *vertex,
                            old_positions,
                            old_varyings,
                            m,
                        ));
                        let o = choose|o: (Position, Vec<F32>)| #[trigger]
                            call_ensures(*vertex, (run_at(sizes, plan, m),), o)
                                && old_positions[m] == o.0 && old_varyings.subrange(
                                m * slots,
                                m * slots + slots,
                            ) == o.1@;
                        assert(0 <= m * slots && m * slots + slots <= k * slots)
                            by (nonlinear_arith)
                            requires
                                0 <= m < k,
                                slots >= 0,
                        ;
                        assert(varyings@.subrange(m * slots, m * slots + slots)
                            =~= old_varyings.subrange(m * slots, m * slots + slots));
                        assert(call_ensures(*vertex, (run_at(sizes, plan, m),), o));
                    } else {
                        assert(varyings@.subrange(k * slots, k * slots + slots) =~= values@);
                        assert(call_ensures(*vertex, (run_at(sizes, plan, m),), result));
                    }
                }
            }
            vert = vert + 1;
        }
        proof {
            assert((inst + 1) * per == inst * per + per) by (nonlinear_arith);
        }
        inst = inst + 1;
    }
    ShadedVertices { positions, varyings }
}

/// The pixels of a band.
pub struct BandPixels {
    pub colors: Vec<Rgba>,
    pub depths: Vec<F32>,
}

/// Whether `states` are the pixels of a band at the start and after each draw call.
pub open spec fn jobs_painted<P: Fn(usize, Band, BandPixels) -> BandPixels>(
    states: Seq<BandPixels>,
    band: Band,
    jobs: int,
    paint: P,
) -> bool {
    states.len() == jobs + 1 && forall|i: int|
        0 <= i < jobs ==> #[trigger] call_ensures(
            paint,
            (i as usize, band, states[i]),
            states[i + 1],
        )
}

/// Paints all draw calls of a pass onto one band, in their order: the work of one thread.
/// No other band is needed for that. `paint` paints the draw call with a given number.
pub fn paint_band<P: Fn(usize, Band, BandPixels) -> BandPixels>(
    band: Band,
    pixels: BandPixels,
    jobs: usize,
    paint: &P,
) -> (r: BandPixels)
    requires
        forall|j: usize, p: BandPixels| call_requires(*paint, (j, band, p)),
    ensures
        band_painted(band, pixels, r, jobs as int, *paint),
{
    let ghost mut states = seq![pixels];
    let ghost start = pixels;
    let mut now: BandPixels = pixels;
    let mut i: usize = 0;
    while i < jobs
        invariant
            i <= jobs,
            forall|j: usize, p: BandPixels| call_requires(*paint, (j, band, p)),
            jobs_painted(states, band, i as int, *paint),
            states[0] == start,
            states.last() == now,
        decreases jobs - i,
    {
        let ghost before = states;
        now = paint(i, band, now);
        proof {
            states = before.push(now);
            assert forall|j: int| 0 <= j < i + 1 implies #[trigger] call_ensures(
                *paint,
                (j as usize, band, states[j]),
                states[j + 1],
            ) by {
                if j < i {
                    assert(call_ensures(*paint, (j as usize, band, before[j]), before[j + 1]));
                }
            }
        }
        i = i + 1;
    }
    now
}

/// Whether painting all draw calls onto a band turns `start` into `end`.
pub open spec fn band_painted<P: Fn(usize, Band, BandPixels) -> BandPixels>(
    band: Band,
    start: BandPixels,
    end: BandPixels,
    jobs: int,
    paint: P,
) -> bool {
    exists|states: Seq<BandPixels>|
        {
            &&& #[trigger] jobs_painted(states, band, jobs, paint)
            &&& states[0] == start
            &&& states.last() == end
        }
}

/// Whether the pixels are those of a band.
pub open spec fn fill(band: Band, p: BandPixels) -> bool {
    p.colors@.len() == band.size() && p.depths@.len() == band.size()
}

/// Whether what becomes of a pixel does not depend on the band that it is painted with:
/// painting keeps the number of pixels, and a pixel of the same place becomes the same in
/// two bands, if it is the same before.
pub open spec fn paints_alike<P: Fn(usize, Band, BandPixels) -> BandPixels>(paint: P) -> bool {
    &&& forall|j: usize, b: Band, p: BandPixels, q: BandPixels| #[trigger]
        call_ensures(paint, (j, b, p), q) && fill(b, p) ==> fill(b, q)
    &&& forall|
        j: usize,
        a: Band,
        b: Band,
        pa: BandPixels,
        qa: BandPixels,
        pb: BandPixels,
        qb: BandPixels,
        ia: int,
        ib: int,
    |
        #![trigger call_ensures(paint, (j, a, pa), qa), call_ensures(paint, (j, b, pb), qb), qa.colors@[ia], qb.colors@[ib]]
        call_ensures(paint, (j, a, pa), qa) && call_ensures(paint, (j, b, pb), qb) && a.width
            == b.width && a.height == b.height && fill(a, pa) && fill(b, pb) && 0 <= ia < a.size()
            && 0 <= ib < b.size() && same_place(a, ia, b, ib) && pa.colors@[ia] == pb.colors@[ib]
            && pa.depths@[ia] == pb.depths@[ib] ==> qa.colors@[ia] == qb.colors@[ib]
            && qa.depths@[ia] == qb.depths@[ib]
}

/// Whether two pixels of two bands are the same pixel of the framebuffer.
pub open spec fn same_place(a: Band, ia: int, b: Band, ib: int) -> bool {
    &&& virtual_gpu::column(ia, a.width as int) == virtual_gpu::column(ib, b.width as int)
    &&& a.first() + virtual_gpu::row(ia, a.width as int) == b.first() + virtual_gpu::row(
        ib,
        b.width as int,
    )
}

proof fn lemma_jobs_agree<P: Fn(usize, Band, BandPixels) -> BandPixels>(
    a: Band,
    sa: Seq<BandPixels>,
    ia: int,
    b: Band,
    sb: Seq<BandPixels>,
    ib: int,
    jobs: int,
    paint: P,
    n: int,
)
    requires
        paints_alike(paint),
        jobs_painted(sa, a, jobs, paint),
        jobs_painted(sb, b, jobs, paint),
        0 <= n <= jobs <= usize::MAX,
        a.width == b.width,
        a.height == b.height,
        fill(a, sa[0]),
        fill(b, sb[0]),
        0 <= ia < a.size(),
        0 <= ib < b.size(),
        same_place(a, ia, b, ib),
        sa[0].colors@[ia] == sb[0].colors@[ib],
        sa[0].depths@[ia] == sb[0].depths@[ib],
    ensures
        fill(a, sa[n]),
        fill(b, sb[n]),
        sa[n].colors@[ia] == sb[n].colors@[ib],
        sa[n].depths@[ia] == sb[n].depths@[ib],
    decreases n,
{
    if n > 0 {
        lemma_jobs_agree(a, sa, ia, b, sb, ib, jobs, paint, n - 1);
        let j = (n - 1) as usize;
        assert(call_ensures(paint, (j, a, sa[n - 1]), sa[n - 1 + 1]));
        assert(call_ensures(paint, (j, b, sb[n - 1]), sb[n - 1 + 1]));
        assert(sa[n].colors@[ia] == sa[n].colors@[ia]);
        assert(sb[n].colors@[ib] == sb[n].colors@[ib]);
    }
}

/// Of every band, each pixel is that of the framebuffer which one thread would have
/// painted, from the first row to the last.
proof fn lemma_band_is_part_of_the_whole<
    P: Fn(usize, Band, BandPixels) -> BandPixels,
>(
    width: usize,
    height: usize,
    bands: usize,
    ranges: Seq<BandRange>,
    jobs: usize,
    paint: P,
    whole_start: BandPixels,
    whole_end: BandPixels,
    starts: Seq<BandPixels>,
    ends: Seq<BandPixels>,
    k: int,
    p: int,
)
    requires
        paints_alike(paint),
        chunks::are_bands(ranges, width, height, bands),
        band_painted(
            (Band { width, height, row_start: 0, row_end: height }),
            whole_start,
            whole_end,
            jobs as int,
            paint,
        ),
        whole_start.colors@.len() == width * height,
        whole_start.depths@.len() == width * height,
        starts.len() == ranges.len(),
        ends.len() == ranges.len(),
        0 <= k < ranges.len(),
        starts[k].colors@ == whole_start.colors@.subrange(
            ranges[k].pixel_start as int,
            ranges[k].pixel_end as int,
        ),
        starts[k].depths@ == whole_start.depths@.subrange(
            ranges[k].pixel_start as int,
            ranges[k].pixel_end as int,
        ),
        band_painted(
            (Band { width, height, row_start: ranges[k].row_start, row_end: ranges[k].row_end }),
            starts[k],
            ends[k],
            jobs as int,
            paint,
        ),
        chunks::in_band(ranges[k], p),
    ensures
        ends[k].colors@.len() == ranges[k].pixel_end - ranges[k].pixel_start,
        ends[k].depths@.len() == ranges[k].pixel_end - ranges[k].pixel_start,
        whole_end.colors@.len() == width * height,
        whole_end.depths@.len() == width * height,
        ends[k].colors@[p - ranges[k].pixel_start] == whole_end.colors@[p],
        ends[k].depths@[p - ranges[k].pixel_start] == whole_end.depths@[p],
{
    let w = width as int;
    let h = height as int;
    let whole = Band { width, height, row_start: 0, row_end: height };
    let range = ranges[k];
    let band = Band { width, height, row_start: range.row_start, row_end: range.row_end };
    chunks::law_bands_cover_the_framebuffer_once(ranges, width, height, bands);
    let (first, last) = (range.row_start as int, range.row_end as int);
    assert(first <= last <= h && range.pixel_start == first * w && range.pixel_end == last * w);
    assert(last * w - first * w == (last - first) * w && last * w <= w * h && h * w == w * h
        && 0 <= first * w) by (nonlinear_arith)
        requires
            0 <= first <= last <= h,
            0 <= w,
    ;
    virtual_gpu::lemma_index_splits(p, w, h);
    virtual_gpu::lemma_shifted_index(p, w, first);
    let sa = choose|states: Seq<BandPixels>|
        {
            &&& #[trigger] jobs_painted(states, whole, jobs as int, paint)
            &&& states[0] == whole_start
            &&& states.last() == whole_end
        };
    let sb = choose|states: Seq<BandPixels>|
        {
            &&& #[trigger] jobs_painted(states, band, jobs as int, paint)
            &&& states[0] == starts[k]
            &&& states.last() == ends[k]
        };
    assert((h - 0) * w == w * h) by (nonlinear_arith);
    assert(whole.size() == w * h);
    assert(band.size() == (last - first) * w);
    lemma_jobs_agree(
        whole,
        sa,
        p,
        band,
        sb,
        p - range.pixel_start,
        jobs as int,
        paint,
        jobs as int,
    );
}

/// Painting a whole pass, with all its draw calls, in any number of bands leaves the
/// framebuffer that painting it at once leaves. `parts` are the pixels of the bands before
/// and `ends` after painting, and `put_together` is the framebuffer that they make up.
pub proof fn law_the_number_of_bands_does_not_matter<
    P: Fn(usize, Band, BandPixels) -> BandPixels,
>(
    width: usize,
    height: usize,
    bands: usize,
    ranges: Seq<BandRange>,
    jobs: usize,
    paint: P,
    whole_start: BandPixels,
    whole_end: BandPixels,
    parts: Seq<BandPixels>,
    ends: Seq<BandPixels>,
    put_together: BandPixels,
)
    requires
        paints_alike(paint),
        chunks::are_bands(ranges, width, height, bands),
        whole_start.colors@.len() == width * height,
        whole_start.depths@.len() == width * height,
        band_painted(
            (Band { width, height, row_start: 0, row_end: height }),
            whole_start,
            whole_end,
            jobs as int,
            paint,
        ),
        parts.len() == ranges.len(),
        ends.len() == ranges.len(),
        forall|k: int|
            0 <= k < ranges.len() ==> {
                &&& (#[trigger] parts[k]).colors@ == whole_start.colors@.subrange(
                    ranges[k].pixel_start as int,
                    ranges[k].pixel_end as int,
                )
                &&& parts[k].depths@ == whole_start.depths@.subrange(
                    ranges[k].pixel_start as int,
                    ranges[k].pixel_end as int,
                )
                &&& band_painted(
                    (Band {
                        width,
                        height,
                        row_start: ranges[k].row_start,
                        row_end: ranges[k].row_end,
                    }),
                    parts[k],
                    ends[k],
                    jobs as int,
                    paint,
                )
            },
        put_together.colors@.len() == width * height,
        put_together.depths@.len() == width * height,
        forall|k: int, p: int|
            0 <= k < ranges.len() && #[trigger] chunks::in_band(ranges[k], p) ==> {
                &&& put_together.colors@[p] == ends[k].colors@[p - ranges[k].pixel_start]
                &&& put_together.depths@[p] == ends[k].depths@[p - ranges[k].pixel_start]
            },
    ensures
        put_together.colors@ == whole_end.colors@,
        put_together.depths@ == whole_end.depths@,
{
    let whole = Band { width, height, row_start: 0, row_end: height };
    assert((height - 0) * width == width * height) by (nonlinear_arith);
    assert(fill(whole, whole_end)) by {
        let states = choose|states: Seq<BandPixels>|
            {
                &&& #[trigger] jobs_painted(states, whole, jobs as int, paint)
                &&& states[0] == whole_start
                &&& states.last() == whole_end
            };
        lemma_jobs_fill(whole, states, jobs as int, paint, jobs as int);
    }
    assert forall|p: int| 0 <= p < width * height implies put_together.colors@[p]
        == whole_end.colors@[p] && put_together.depths@[p] == whole_end.depths@[p] by {
        chunks::law_bands_cover_the_framebuffer_once(ranges, width, height, bands);
        assert(chunks::in_some_band(ranges, p));
        let k = choose|k: int|
            0 <= k < ranges.len() && #[trigger] chunks::in_band(ranges[k], p);
        assert(parts[k].colors@ == whole_start.colors@.subrange(
            ranges[k].pixel_start as int,
            ranges[k].pixel_end as int,
        ));
        lemma_band_is_part_of_the_whole(
            width,
            height,
            bands,
            ranges,
            jobs,
            paint,
            whole_start,
            whole_end,
            parts,
            ends,
            k,
            p,
        );
    }
    assert(put_together.colors@ =~= whole_end.colors@);
    assert(put_together.depths@ =~= whole_end.depths@);
}

proof fn lemma_jobs_fill<P: Fn(usize, Band, BandPixels) -> BandPixels>(
    band: Band,
    states: Seq<BandPixels>,
    jobs: int,
    paint: P,
    n: int,
)
    requires
        paints_alike(paint),
        jobs_painted(states, band, jobs, paint),
        0 <= n <= jobs,
        fill(band, states[0]),
    ensures
        fill(band, states[n]),
    decreases n,
{
    if n > 0 {
        lemma_jobs_fill(band, states, jobs, paint, n - 1);
        assert(call_ensures(paint, ((n - 1) as usize, band, states[n - 1]), states[n - 1 + 1]));
    }
}

/// Whether `paint` paints the triangles of each draw call under one clip, as
/// `rasterize_instances_rows` does.
pub open spec fn paints_instances<
    P: Fn(usize, Band, BandPixels) -> BandPixels,
    G: Fn(Corners) -> Triangle,
    S: Fn(Corners, i32, i32) -> PixelSample,
    H: Fn(Corners, i32, i32, u32, u32) -> Shading,
    B: Fn(Rgba, Rgba) -> Rgba,
>(
    paint: P,
    triangles: spec_fn(usize) -> Seq<Corners>,
    setup: spec_fn(usize) -> G,
    sample: spec_fn(usize) -> S,
    shade: spec_fn(usize) -> H,
    blend: spec_fn(usize) -> B,
    clip: Option<ClipRect>,
) -> bool {
    forall|j: usize, band: Band, p: BandPixels, q: BandPixels| #[trigger]
        call_ensures(paint, (j, band, p), q) ==> exists|counts: RasterCounts|
            instances::all_painted(
                triangles(j),
                setup(j),
                sample(j),
                shade(j),
                blend(j),
                band,
                clip,
                pixels_of(p, RasterCounts { tested: 0, shaded: 0 }),
                #[trigger] pixels_of(q, counts),
            )
}

/// The pixels of a band, with what was counted.
pub open spec fn pixels_of(p: BandPixels, counts: RasterCounts) -> Painting {
    Painting { colors: p.colors@, depths: p.depths@, counts }
}

/// Painting draw calls with the rasterizer does not depend on the bands, if measuring and
/// shading give the same every time they are asked the same: this is what makes the number
/// of bands not matter.
pub proof fn law_the_rasterizer_paints_alike<
    P: Fn(usize, Band, BandPixels) -> BandPixels,
    G: Fn(Corners) -> Triangle,
    S: Fn(Corners, i32, i32) -> PixelSample,
    H: Fn(Corners, i32, i32, u32, u32) -> Shading,
    B: Fn(Rgba, Rgba) -> Rgba,
>(
    paint: P,
    triangles: spec_fn(usize) -> Seq<Corners>,
    setup: spec_fn(usize) -> G,
    sample: spec_fn(usize) -> S,
    shade: spec_fn(usize) -> H,
    blend: spec_fn(usize) -> B,
    clip: Option<ClipRect>,
)
    requires
        paints_instances(paint, triangles, setup, sample, shade, blend, clip),
        forall|j: usize| #[trigger]
            instances::repeatable(setup(j), sample(j), shade(j), blend(j)),
    ensures
        paints_alike(paint),
{
    let none = RasterCounts { tested: 0, shaded: 0 };
    assert forall|j: usize, b: Band, p: BandPixels, q: BandPixels| #[trigger]
        call_ensures(paint, (j, b, p), q) && fill(b, p) implies fill(b, q) by {
        let counts = choose|counts: RasterCounts|
            instances::all_painted(
                triangles(j),
                setup(j),
                sample(j),
                shade(j),
                blend(j),
                b,
                clip,
                pixels_of(p, none),
                #[trigger] pixels_of(q, counts),
            );
        instances::lemma_painting_keeps_the_size(
            triangles(j),
            setup(j),
            sample(j),
            shade(j),
            blend(j),
            b,
            clip,
            pixels_of(p, none),
            pixels_of(q, counts),
        );
    }
    assert forall|
        j: usize,
        a: Band,
        b: Band,
        pa: BandPixels,
        qa: BandPixels,
        pb: BandPixels,
        qb: BandPixels,
        ia: int,
        ib: int,
    |
        #![trigger call_ensures(paint, (j, a, pa), qa), call_ensures(paint, (j, b, pb), qb), qa.colors@[ia], qb.colors@[ib]]
        call_ensures(paint, (j, a, pa), qa) && call_ensures(paint, (j, b, pb), qb) && a.width
            == b.width && a.height == b.height && fill(a, pa) && fill(b, pb) && 0 <= ia < a.size()
            && 0 <= ib < b.size() && same_place(a, ia, b, ib) && pa.colors@[ia] == pb.colors@[ib]
            && pa.depths@[ia] == pb.depths@[ib] implies qa.colors@[ia] == qb.colors@[ib]
        && qa.depths@[ia] == qb.depths@[ib] by {
        let na = choose|counts: RasterCounts|
            instances::all_painted(
                triangles(j),
                setup(j),
                sample(j),
                shade(j),
                blend(j),
                a,
                clip,
                pixels_of(pa, none),
                #[trigger] pixels_of(qa, counts),
            );
        let nb = choose|counts: RasterCounts|
            instances::all_painted(
                triangles(j),
                setup(j),
                sample(j),
                shade(j),
                blend(j),
                b,
                clip,
                pixels_of(pb, none),
                #[trigger] pixels_of(qb, counts),
            );
        instances::law_bands_paint_alike(
            triangles(j),
            setup(j),
            sample(j),
            shade(j),
            blend(j),
            PixelSite { band: a, clip, index: ia },
            pixels_of(pa, none),
            pixels_of(qa, na),
            PixelSite { band: b, clip, index: ib },
            pixels_of(pb, none),
            pixels_of(qb, nb),
        );
    }
}

/// Draw calls are planned one by one, in the order in which they are painted: a draw call
/// that can be painted adds itself behind those before it, and one that cannot adds nothing.
pub proof fn law_draw_calls_are_planned_in_order(
    calls: Seq<Vec<Option<DrawCallState>>>,
    first: Seq<DrawStep>,
    second: Seq<DrawStep>,
    step: DrawStep,
    only_shader: Option<&str>,
    config: ViewConfig,
)
    ensures
        planned_steps(calls, first + second, only_shader, config) == planned_steps(
            calls,
            first,
            only_shader,
            config,
        ) + planned_steps(calls, second, only_shader, config),
        planned_steps(calls, seq![step], only_shader, config) == match planned_step(
            calls,
            step,
            only_shader,
            config,
        ) {
            Some(p) => seq![p],
            None => Seq::empty(),
        },
        ready_steps(calls, first + second, only_shader) == ready_steps(calls, first, only_shader)
            + ready_steps(calls, second, only_shader),
        ready_steps(calls, seq![step], only_shader) == if ready_step(calls, step, only_shader) {
            seq![step]
        } else {
            Seq::empty()
        },
    decreases second.len(),
{
    reveal_with_fuel(planned_steps, 2);
    reveal_with_fuel(ready_steps, 2);
    assert(seq![step].drop_last() =~= Seq::<DrawStep>::empty());
    let none = Seq::<PlannedDraw>::empty();
    let no_steps = Seq::<DrawStep>::empty();
    match planned_step(calls, step, only_shader, config) {
        Some(p) => {
            assert(none.push(p) =~= seq![p]);
        },
        None => {},
    }
    assert(no_steps.push(step) =~= seq![step]);
    if second.len() > 0 {
        law_draw_calls_are_planned_in_order(
            calls,
            first,
            second.drop_last(),
            step,
            only_shader,
            config,
        );
        assert((first + second).drop_last() =~= first + second.drop_last());
        assert(planned_steps(calls, first + second, only_shader, config) =~= planned_steps(
            calls,
            first,
            only_shader,
            config,
        ) + planned_steps(calls, second, only_shader, config));
        assert(ready_steps(calls, first + second, only_shader) =~= ready_steps(
            calls,
            first,
            only_shader,
        ) + ready_steps(calls, second, only_shader));
    } else {
        assert(first + second =~= first);
        assert(planned_steps(calls, first, only_shader, config) + none =~= planned_steps(
            calls,
            first,
            only_shader,
            config,
        ));
        assert(ready_steps(calls, first, only_shader) + no_steps =~= ready_steps(
            calls,
            first,
            only_shader,
        ));
    }
}

/// A draw call is painted if its shader was compiled and loaded with what it needs, and if
/// there is anything to paint; with one kind of shader asked for, only if it is that. What is
/// painted is the draw call's own: its step, its sizes, and derivatives if its shader uses
/// them and they are not switched off.
pub proof fn law_a_sound_draw_call_is_painted(
    calls: Seq<Vec<Option<DrawCallState>>>,
    step: DrawStep,
    call: DrawCallState,
    config: ViewConfig,
)
    requires
        step.list < calls.len(),
        step.item < calls[step.list as int]@.len(),
        calls[step.list as int]@[step.item as int] == Some(call),
    ensures
        ({
            let loaded = call.shader.os_shader_id is Some && call.shader.module_loaded
                && call.shader.has_vertex_entry && call.shader.has_fragment_entry
                && call.shader.rcx_size > 0;
            &&& ready_step(calls, step, None) <==> loaded
            &&& planned_step(calls, step, None, config) is Some <==> loaded
                && call.sizes.plan() is Some
            &&& planned_step(calls, step, None, config) matches Some(p) ==> {
                &&& p.step == step
                &&& call.sizes.plan() == Some(p.plan)
                &&& p.flat_slots <= call.flat_varying_slots && p.flat_slots
                    <= call.sizes.varying_slots && (p.flat_slots == call.flat_varying_slots
                    || p.flat_slots == call.sizes.varying_slots)
                &&& p.uses_derivatives <==> call.uses_derivatives && !config.no_derivatives
                &&& p.draws_text == call.shader.code.draws_text()
                &&& p.parallel <==> config.has_pool && p.plan.tri_count * p.plan.instance_count
                    >= config.parallel_min_tris && config.render_threads >= 2 && config.height
                    >= 64
            }
        }),
{
    let h = config.height as int;
    assert(h / 32 >= 2 <==> h >= 64);
}

/// A step that names no draw call is passed over.
pub proof fn law_steps_without_a_draw_call_are_passed_over(
    calls: Seq<Vec<Option<DrawCallState>>>,
    step: DrawStep,
    only_shader: Option<&str>,
    config: ViewConfig,
)
    requires
        step.list >= calls.len() || step.item >= calls[step.list as int]@.len()
            || calls[step.list as int]@[step.item as int] is None,
    ensures
        planned_step(calls, step, only_shader, config) is None,
        !ready_step(calls, step, only_shader),
{
}

/// The vertices are shaded instance by instance: the one of a number among all belongs to the
/// instance, and is the vertex, that the number counts to.
pub proof fn law_vertices_are_shaded_instance_by_instance(
    sizes: DrawSizes,
    plan: DrawPlan,
    instance: int,
    vertex: int,
)
    requires
        0 <= instance,
        0 <= vertex < plan.vertex_count,
    ensures
        run_at(sizes, plan, instance * plan.vertex_count + vertex) == draw_plan::run_of(
            sizes,
            plan,
            instance,
            vertex,
        ),
{
    vstd::arithmetic::div_mod::lemma_fundamental_div_mod_converse(
        instance * plan.vertex_count + vertex,
        plan.vertex_count as int,
        instance,
        vertex,
    );
}

/// A band is painted draw call by draw call, each on what the one before has left.
pub proof fn law_draw_calls_are_painted_one_after_the_other<
    P: Fn(usize, Band, BandPixels) -> BandPixels,
>(band: Band, start: BandPixels, end: BandPixels, jobs: int, paint: P)
    requires
        jobs > 0,
        band_painted(band, start, end, jobs, paint),
    ensures
        exists|mid: BandPixels| #[trigger]
            band_painted(band, start, mid, jobs - 1, paint) && call_ensures(
                paint,
                ((jobs - 1) as usize, band, mid),
                end,
            ),
{
    let states = choose|states: Seq<BandPixels>|
        {
            &&& #[trigger] jobs_painted(states, band, jobs, paint)
            &&& states[0] == start
            &&& states.last() == end
        };
    let mid = states[jobs - 1];
    let front = states.take(jobs);
    assert(jobs_painted(front, band, jobs - 1, paint)) by {
        assert forall|i: int| 0 <= i < jobs - 1 implies #[trigger] call_ensures(
            paint,
            (i as usize, band, front[i]),
            front[i + 1],
        ) by {
            assert(call_ensures(paint, (i as usize, band, states[i]), states[i + 1]));
        }
    }
    assert(front[0] == start && front.last() == mid);
    assert(band_painted(band, start, mid, jobs - 1, paint));
    assert(call_ensures(paint, ((jobs - 1) as usize, band, states[jobs - 1]), states[jobs]));
}

/// A call of `plan_draw` plans the draw call exactly if its shader is loaded with what it
/// needs and there is something to paint, and plans it as it stands.
pub proof fn law_a_draw_call_is_planned_as_it_stands(
    call: &DrawCallState,
    step: DrawStep,
    config: ViewConfig,
    r: Option<PlannedDraw>,
    plan: Option<DrawPlan>,
)
    requires
        call_ensures(plan_draw, (call, step, None, config), r),
        call_ensures(DrawSizes::make_plan, (call.sizes,), plan),
    ensures
        r is Some <==> plan is Some && call.shader.os_shader_id is Some
            && call.shader.module_loaded && call.shader.has_vertex_entry
            && call.shader.has_fragment_entry && call.shader.rcx_size > 0,
        r matches Some(p) ==> {
            &&& p.step == step
            &&& Some(p.plan) == plan
            &&& p.flat_slots <= call.flat_varying_slots && p.flat_slots <= call.sizes.varying_slots
            &&& p.flat_slots == call.flat_varying_slots || p.flat_slots == call.sizes.varying_slots
            &&& p.uses_derivatives <==> call.uses_derivatives && !config.no_derivatives
            &&& p.parallel <==> config.has_pool && p.plan.tri_count * p.plan.instance_count
                >= config.parallel_min_tris && config.render_threads >= 2 && config.height >= 64
        },
{
    let h = config.height as int;
    assert(h / 32 >= 2 <==> h >= 64);
}

proof fn lemma_ready_is_painted(
    calls: Seq<Vec<Option<DrawCallState>>>,
    steps: Seq<DrawStep>,
    config: ViewConfig,
    k: int,
)
    requires
        0 <= k < steps.len(),
        planned_step(calls, steps[k], None, config) is Some,
    ensures
        planned_steps(calls, steps, None, config).contains(
            planned_step(calls, steps[k], None, config)->0,
        ),
        ready_steps(calls, steps, None).contains(steps[k]),
    decreases steps.len(),
{
    let all = planned_steps(calls, steps, None, config);
    let ready = ready_steps(calls, steps, None);
    let p = planned_step(calls, steps[k], None, config)->0;
    if k == steps.len() - 1 {
        assert(all[all.len() - 1] == p);
        assert(ready[ready.len() - 1] == steps[k]);
    } else {
        lemma_ready_is_painted(calls, steps.drop_last(), config, k);
        let before = planned_steps(calls, steps.drop_last(), None, config);
        let ready_before = ready_steps(calls, steps.drop_last(), None);
        let i = choose|i: int| 0 <= i < before.len() && before[i] == p;
        let j = choose|j: int| 0 <= j < ready_before.len() && ready_before[j] == steps[k];
        assert(all[i] == p);
        assert(ready[j] == steps[k]);
    }
}

/// A view paints every draw call of its list that is loaded and has something to paint, and
/// brings in its textures first.
pub proof fn law_a_view_paints_every_sound_draw_call(
    lists: &Vec<RenderList>,
    list: usize,
    calls: &Vec<Vec<Option<DrawCallState>>>,
    config: ViewConfig,
    r: Vec<PlannedDraw>,
    fed: Vec<DrawStep>,
    place: int,
    item: usize,
    call: DrawCallState,
)
    requires
        draw_plan::lists_valid(lists@),
        exists|rank: spec_fn(int) -> nat| draw_plan::is_rank(lists@, rank),
        list < lists@.len(),
        call_ensures(headless_render_view, (lists, list, calls, None, config), r),
        call_ensures(headless_texture_steps, (lists, list, calls, None), fed),
        0 <= place < lists@[list as int].order@.len(),
        lists@[list as int].order@[place] == Some(item),
        lists@[list as int].items@[item as int] is DrawCall,
        list < calls@.len(),
        item < calls@[list as int]@.len(),
        calls@[list as int]@[item as int] == Some(call),
        call.shader.os_shader_id is Some && call.shader.module_loaded,
        call.shader.has_vertex_entry && call.shader.has_fragment_entry && call.shader.rcx_size > 0,
        call.sizes.plan() is Some,
    ensures
        exists|k: int|
            0 <= k < r@.len() && (#[trigger] r@[k]).step.list == list && r@[k].step.item == item
                && Some(r@[k].plan) == call.sizes.plan(),
        exists|k: int|
            0 <= k < fed@.len() && (#[trigger] fed@[k]).list == list && fed@[k].item == item,
{
    let rank = choose|rank: spec_fn(int) -> nat| draw_plan::is_rank(lists@, rank);
    let args = (lists, list, calls, None::<&str>, config);
    assert(draw_plan::is_rank(args.0@, rank));
    let fed_args = (lists, list, calls, None::<&str>);
    assert(draw_plan::is_rank(fed_args.0@, rank));
    let n = lists@[list as int].order@.len();
    let steps = draw_plan::steps_of(lists@, rank, list as int, 0).0;
    draw_plan::law_every_draw_call_is_painted(lists@, rank, list as int, 0, place, item, n);
    let k = choose|k: int|
        0 <= k < draw_plan::steps_up_to(lists@, rank, list as int, 0, n).0.len() && (
        #[trigger] draw_plan::steps_up_to(lists@, rank, list as int, 0, n).0[k]).list == list
            && draw_plan::steps_up_to(lists@, rank, list as int, 0, n).0[k].item == item;
    assert(steps[k].list == list && steps[k].item == item);
    lemma_ready_is_painted(calls@, steps, config, k);
    let p = planned_step(calls@, steps[k], None, config)->0;
    let i = choose|i: int| 0 <= i < r@.len() && r@[i] == p;
    assert(r@[i].step.list == list && r@[i].step.item == item);
    let j = choose|j: int| 0 <= j < fed@.len() && fed@[j] == steps[k];
    assert(fed@[j].list == list && fed@[j].item == item);
}

/// Each vertex of each instance is shaded, with its own values, and its position and varyings
/// stand at its number among all.
pub proof fn law_each_vertex_of_each_instance_is_shaded<
    V: Fn(VertexRun) -> (Position, Vec<F32>),
>(
    sizes: DrawSizes,
    plan: DrawPlan,
    vertex: &V,
    r: ShadedVertices,
    instance: usize,
    corner: usize,
    run: VertexRun,
)
    requires
        sizes.plan() == Some(plan),
        plan.instance_count * plan.vertex_count <= usize::MAX,
        plan.instance_count * plan.vertex_count * sizes.varying_slots <= usize::MAX,
        call_ensures(shade_vertices::<V>, (sizes, plan, vertex), r),
        instance < plan.instance_count,
        corner < plan.vertex_count,
        call_ensures(draw_plan::vertex_run, (sizes, plan, instance, corner), run),
    ensures
        r.positions@.len() == plan.instance_count * plan.vertex_count,
        r.varyings@.len() == plan.instance_count * plan.vertex_count * sizes.varying_slots,
        exists|out: (Position, Vec<F32>)| #[trigger]
            call_ensures(*vertex, (run,), out) && r.positions@[instance * plan.vertex_count
                + corner] == out.0 && r.varyings@.subrange(
                (instance * plan.vertex_count + corner) * sizes.varying_slots,
                (instance * plan.vertex_count + corner) * sizes.varying_slots
                    + sizes.varying_slots,
            ) == out.1@,
{
    let (i, v, n, m) = (
        instance as int,
        corner as int,
        plan.vertex_count as int,
        plan.instance_count as int,
    );
    let k = i * n + v;
    assert(0 <= k < m * n) by (nonlinear_arith)
        requires
            0 <= i < m,
            0 <= v < n,
            k == i * n + v,
    ;
    law_vertices_are_shaded_instance_by_instance(sizes, plan, i, v);
    let args = (sizes, plan, vertex);
    assert(vertex_shaded(args.0, args.1, *args.2, r.positions@, r.varyings@, k));
}

/// A band is painted job by job, the first on what was there and each other on what the one
/// before has left; without a job it stays as it is.
pub proof fn law_a_band_is_painted_job_by_job<P: Fn(usize, Band, BandPixels) -> BandPixels>(
    band: Band,
    pixels: BandPixels,
    paint: &P,
    none: BandPixels,
    one: BandPixels,
    two: BandPixels,
)
    requires
        call_ensures(paint_band::<P>, (band, pixels, 0, paint), none),
        call_ensures(paint_band::<P>, (band, pixels, 1, paint), one),
        call_ensures(paint_band::<P>, (band, pixels, 2, paint), two),
    ensures
        none == pixels,
        call_ensures(*paint, (0, band, pixels), one),
        exists|mid: BandPixels| #[trigger]
            call_ensures(*paint, (0, band, pixels), mid) && call_ensures(
                *paint,
                (1, band, mid),
                two,
            ),
{
    law_draw_calls_are_painted_one_after_the_other(band, pixels, one, 1, *paint);
    let m0 = choose|mid: BandPixels| #[trigger]
        band_painted(band, pixels, mid, 0, *paint) && call_ensures(
            *paint,
            (0usize, band, mid),
            one,
        );
    lemma_no_job(band, pixels, m0, *paint);
    lemma_no_job(band, pixels, none, *paint);
    law_draw_calls_are_painted_one_after_the_other(band, pixels, two, 2, *paint);
    let m1 = choose|mid: BandPixels| #[trigger]
        band_painted(band, pixels, mid, 1, *paint) && call_ensures(
            *paint,
            (1usize, band, mid),
            two,
        );
    law_draw_calls_are_painted_one_after_the_other(band, pixels, m1, 1, *paint);
    let m2 = choose|mid: BandPixels| #[trigger]
        band_painted(band, pixels, mid, 0, *paint) && call_ensures(*paint, (0usize, band, mid), m1);
    lemma_no_job(band, pixels, m2, *paint);
}

proof fn lemma_no_job<P: Fn(usize, Band, BandPixels) -> BandPixels>(
    band: Band,
    start: BandPixels,
    end: BandPixels,
    paint: P,
)
    requires
        band_painted(band, start, end, 0, paint),
    ensures
        start == end,
{
}

} // verus!
