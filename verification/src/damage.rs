//! Damage: which rectangle of the screen has changed this frame.
//!
//! A software renderer pays per pixel, so repainting the whole screen when only a
//! cursor blinks is the difference between keeping up with the monitor and not. The
//! draw event says which draw lists are repainted, and every draw list knows the box
//! it occupies; the damage is the union of those boxes.
//!
//! # Where it was, too
//!
//! If a widget shrinks, moves or disappears, its new box does not cover the place
//! where it was painted, and with a framebuffer that persists the old pixels would
//! stay on screen. So the box that each list occupied the last time it was drawn is
//! kept, and the damage joins the box of before and the box of now.
//!
//! # Unknown is not empty
//!
//! When what has changed is not known, the answer is the whole screen, never nothing.

use crate::text;
use std::collections::HashMap;
use vstd::prelude::*;

verus! {

broadcast use vstd::std_specs::hash::group_hash_axioms;

/// The identity of a draw list.
pub type DrawListId = u64;

/// The number of levels of sub-lists that are followed. The tree of draw lists is
/// built by widgets, and a list that contains itself must not hang the renderer.
pub const MAX_DEPTH: u32 = 64;

/// A rectangle in device pixels: `x0` and `y0` inside, `x1` and `y1` outside.
#[derive(Clone, Copy, Debug, PartialEq, Eq, Structural)]
pub struct DamageRect {
    pub x0: i32,
    pub y0: i32,
    pub x1: i32,
    pub y1: i32,
}

impl DamageRect {
    /// Whether the pixel (`x`, `y`) lies in the rectangle.
    pub open spec fn has(self, x: int, y: int) -> bool {
        self.x0 <= x < self.x1 && self.y0 <= y < self.y1
    }

    /// Whether the rectangle encloses no pixel.
    pub open spec fn empty(self) -> bool {
        self.x1 <= self.x0 || self.y1 <= self.y0
    }

    /// The smallest rectangle around both.
    pub open spec fn joined(self, other: DamageRect) -> DamageRect {
        DamageRect {
            x0: if self.x0 <= other.x0 { self.x0 } else { other.x0 },
            y0: if self.y0 <= other.y0 { self.y0 } else { other.y0 },
            x1: if self.x1 >= other.x1 { self.x1 } else { other.x1 },
            y1: if self.y1 >= other.y1 { self.y1 } else { other.y1 },
        }
    }

    /// The rectangle cut down to a screen of `width` by `height` pixels.
    pub open spec fn clamped(self, width: i32, height: i32) -> DamageRect {
        DamageRect {
            x0: if self.x0 >= 0 { self.x0 } else { 0 },
            y0: if self.y0 >= 0 { self.y0 } else { 0 },
            x1: if self.x1 <= width { self.x1 } else { width },
            y1: if self.y1 <= height { self.y1 } else { height },
        }
    }

    /// The number of pixels in the rectangle.
    pub open spec fn pixel_count(self) -> nat {
        if self.empty() {
            0
        } else {
            ((self.x1 - self.x0) * (self.y1 - self.y0)) as nat
        }
    }

    /// Whether the rectangle reaches at least as far as `other` on every side.
    pub open spec fn encloses(self, other: DamageRect) -> bool {
        self.x0 <= other.x0 && self.y0 <= other.y0 && self.x1 >= other.x1 && self.y1 >= other.y1
    }

    /// The smallest rectangle around both.
    ///
    /// A list of disjoint rectangles would have to be turned into its bounding box
    /// all the same: the scissor of the rasterizer is one rectangle.
    pub fn union(self, other: DamageRect) -> (r: DamageRect)
        ensures
            r == self.joined(other),
    {
        DamageRect {
            x0: if self.x0 <= other.x0 { self.x0 } else { other.x0 },
            y0: if self.y0 <= other.y0 { self.y0 } else { other.y0 },
            x1: if self.x1 >= other.x1 { self.x1 } else { other.x1 },
            y1: if self.y1 >= other.y1 { self.y1 } else { other.y1 },
        }
    }

    /// Whether the rectangle encloses no pixel.
    pub fn is_empty(&self) -> (r: bool)
        ensures
            r == self.empty(),
    {
        self.x1 <= self.x0 || self.y1 <= self.y0
    }

    /// The rectangle cut down to the limits of the screen.
    pub fn clamp(self, width: i32, height: i32) -> (r: DamageRect)
        ensures
            r == self.clamped(width, height),
    {
        DamageRect {
            x0: if self.x0 >= 0 { self.x0 } else { 0 },
            y0: if self.y0 >= 0 { self.y0 } else { 0 },
            x1: if self.x1 <= width { self.x1 } else { width },
            y1: if self.y1 <= height { self.y1 } else { height },
        }
    }

    /// The number of pixels in the rectangle.
    pub fn area(&self) -> (r: u64)
        ensures
            r == self.pixel_count(),
    {
        if self.is_empty() {
            0
        } else {
            let w: u64 = (self.x1 as i64 - self.x0 as i64) as u64;
            let h: u64 = (self.y1 as i64 - self.y0 as i64) as u64;
            assert(w * h <= u64::MAX) by (nonlinear_arith)
                requires
                    w <= 0xffff_ffff,
                    h <= 0xffff_ffff,
            ;
            w * h
        }
    }
}

/// One draw list, as far as the damage depends on it.
pub struct DrawList {
    pub id: DrawListId,
    /// The box it occupies on screen, in device pixels, rounded outwards: a pixel too
    /// many is repainted unnoticed, a pixel too few leaves an old edge.
    pub painted: Option<DamageRect>,
    /// Its sub-lists, in painting order.
    pub sub_lists: Vec<DrawListId>,
}

/// What a draw event says about repainting.
pub struct DrawEvent {
    pub redraw_all: bool,
    pub draw_lists: Vec<DrawListId>,
    pub draw_lists_and_children: Vec<DrawListId>,
}

/// The position of the first list named `id`.
pub open spec fn position_of(lists: Seq<DrawList>, id: DrawListId) -> Option<int>
    decreases lists.len(),
{
    if lists.len() == 0 {
        None
    } else {
        match position_of(lists.drop_last(), id) {
            Some(i) => Some(i),
            None => if lists.last().id == id {
                Some(lists.len() - 1)
            } else {
                None
            },
        }
    }
}

/// The sub-lists of the list named `id`; none if there is no such list.
pub open spec fn sub_lists_of(lists: Seq<DrawList>, id: DrawListId) -> Seq<DrawListId> {
    match position_of(lists, id) {
        Some(i) => lists[i].sub_lists@,
        None => Seq::empty(),
    }
}

/// The box that the list named `id` occupies, if it is known and not empty.
pub open spec fn box_of(lists: Seq<DrawList>, id: DrawListId) -> Option<DamageRect> {
    match position_of(lists, id) {
        Some(i) => match lists[i].painted {
            Some(r) => if r.empty() {
                None
            } else {
                Some(r)
            },
            None => None,
        },
        None => None,
    }
}

/// How many levels may still be followed at `depth`.
pub open spec fn levels_left(depth: nat) -> nat {
    if depth <= MAX_DEPTH {
        (MAX_DEPTH + 1 - depth) as nat
    } else {
        0
    }
}

/// `out` with `id` and its sub-lists at every level added behind it, each once.
pub open spec fn gathered(
    lists: Seq<DrawList>,
    id: DrawListId,
    out: Seq<DrawListId>,
    depth: nat,
) -> Seq<DrawListId>
    decreases levels_left(depth), 0nat,
{
    if depth > MAX_DEPTH || out.contains(id) {
        out
    } else {
        gathered_all(lists, sub_lists_of(lists, id), out.push(id), depth + 1)
    }
}

/// `out` with each of `ids` and its sub-lists added behind it, each once.
pub open spec fn gathered_all(
    lists: Seq<DrawList>,
    ids: Seq<DrawListId>,
    out: Seq<DrawListId>,
    depth: nat,
) -> Seq<DrawListId>
    decreases levels_left(depth), 1 + ids.len(),
{
    if ids.len() == 0 {
        out
    } else {
        gathered(lists, ids.last(), gathered_all(lists, ids.drop_last(), out, depth), depth)
    }
}

/// `out` with those of `ids` added behind it that it does not hold yet.
pub open spec fn with_missing(out: Seq<DrawListId>, ids: Seq<DrawListId>) -> Seq<DrawListId>
    decreases ids.len(),
{
    if ids.len() == 0 {
        out
    } else {
        let before = with_missing(out, ids.drop_last());
        if before.contains(ids.last()) {
            before
        } else {
            before.push(ids.last())
        }
    }
}

/// The lists that are repainted: the pending ones, and the ones pending with their
/// children together with those children.
pub open spec fn repainted(
    lists: Seq<DrawList>,
    pending: Seq<DrawListId>,
    pending_deep: Seq<DrawListId>,
) -> Seq<DrawListId> {
    with_missing(gathered_all(lists, pending_deep, Seq::empty(), 0), pending)
}

/// The names of all lists.
pub open spec fn all_ids(lists: Seq<DrawList>) -> Seq<DrawListId> {
    Seq::new(lists.len(), |i: int| lists[i].id)
}

/// The smallest rectangle around what is there of the two.
pub open spec fn join_known(a: Option<DamageRect>, b: Option<DamageRect>) -> Option<DamageRect> {
    match (a, b) {
        (Some(p), Some(q)) => Some(p.joined(q)),
        (Some(p), None) => Some(p),
        (None, q) => q,
    }
}

/// What a map of boxes holds for `id`.
pub open spec fn known_box(
    boxes: Map<DrawListId, DamageRect>,
    id: DrawListId,
) -> Option<DamageRect> {
    if boxes.contains_key(id) {
        Some(boxes[id])
    } else {
        None
    }
}

/// The smallest rectangle around the boxes of `ids`, those of now and those of before.
pub open spec fn box_around(
    lists: Seq<DrawList>,
    before: Map<DrawListId, DamageRect>,
    ids: Seq<DrawListId>,
) -> Option<DamageRect>
    decreases ids.len(),
{
    if ids.len() == 0 {
        None
    } else {
        let id = ids.last();
        join_known(
            join_known(box_around(lists, before, ids.drop_last()), box_of(lists, id)),
            known_box(before, id),
        )
    }
}

/// The boxes of before, with those of `ids` replaced by the ones of now where known.
pub open spec fn recorded(
    lists: Seq<DrawList>,
    before: Map<DrawListId, DamageRect>,
    ids: Seq<DrawListId>,
) -> Map<DrawListId, DamageRect>
    decreases ids.len(),
{
    if ids.len() == 0 {
        before
    } else {
        let rest = recorded(lists, before, ids.drop_last());
        match box_of(lists, ids.last()) {
            Some(r) => rest.insert(ids.last(), r),
            None => rest,
        }
    }
}

/// The boxes of before, with those of lists that had none filled in.
pub open spec fn filled(
    lists: Seq<DrawList>,
    before: Map<DrawListId, DamageRect>,
) -> Map<DrawListId, DamageRect> {
    filled_up_to(lists, before, lists.len())
}

/// The boxes of before, with those of the first `n` lists filled in that had none.
pub open spec fn filled_up_to(
    lists: Seq<DrawList>,
    before: Map<DrawListId, DamageRect>,
    n: nat,
) -> Map<DrawListId, DamageRect>
    decreases n,
{
    if n == 0 {
        before
    } else {
        let rest = filled_up_to(lists, before, (n - 1) as nat);
        let id = lists[n - 1].id;
        match box_of(lists, id) {
            Some(r) if !rest.contains_key(id) => rest.insert(id, r),
            _ => rest,
        }
    }
}

/// The part of a damaged box that is worth a scissor on a screen of `width` by
/// `height`: none if nothing is known, if nothing of it is on screen, or if it covers
/// nine tenths of the screen or more.
pub open spec fn worth_clipping(
    damage: Option<DamageRect>,
    width: i32,
    height: i32,
) -> Option<DamageRect> {
    match damage {
        None => None,
        Some(d) => {
            let c = d.clamped(width, height);
            if c.empty() || c.pixel_count() * 10 >= width * height * 9 {
                None
            } else {
                Some(c)
            }
        },
    }
}

/// What the damage computation keeps from one frame to the next.
pub struct DamageTracker {
    /// The box that each draw list occupied the last time it was drawn.
    anterior: HashMap<DrawListId, DamageRect>,
    /// The lists that are repainted this frame.
    pendientes: Vec<DrawListId>,
    /// The lists that are repainted this frame with their children.
    pendientes_con_hijos: Vec<DrawListId>,
    /// Whether a full repaint was asked for.
    todo: bool,
}

impl DamageTracker {
    /// The box that each draw list occupied the last time it was drawn.
    pub closed spec fn before(&self) -> Map<DrawListId, DamageRect> {
        self.anterior@
    }

    pub closed spec fn pending(&self) -> Seq<DrawListId> {
        self.pendientes@
    }

    pub closed spec fn pending_deep(&self) -> Seq<DrawListId> {
        self.pendientes_con_hijos@
    }

    pub closed spec fn everything(&self) -> bool {
        self.todo
    }

    /// Whether the frame is painted in full: it was asked for, or nothing is known to
    /// have changed and a frame is painted all the same.
    pub open spec fn paints_everything(&self) -> bool {
        self.everything() || (self.pending().len() == 0 && self.pending_deep().len() == 0)
    }

    /// The lists that are drawn this frame.
    pub open spec fn drawn(&self, lists: Seq<DrawList>) -> Seq<DrawListId> {
        if self.paints_everything() {
            all_ids(lists)
        } else {
            repainted(lists, self.pending(), self.pending_deep())
        }
    }

    /// The rectangle that this frame has to repaint; none for the whole screen.
    pub open spec fn damage(&self, lists: Seq<DrawList>, width: i32, height: i32) -> Option<
        DamageRect,
    > {
        if self.paints_everything() {
            None
        } else {
            worth_clipping(box_around(lists, self.before(), self.drawn(lists)), width, height)
        }
    }
}

impl Default for DamageTracker {
    fn default() -> (r: Self)
        ensures
            r.before() == Map::<DrawListId, DamageRect>::empty(),
            r.pending() == Seq::<DrawListId>::empty(),
            r.pending_deep() == Seq::<DrawListId>::empty(),
            !r.everything(),
    {
        DamageTracker {
            anterior: HashMap::new(),
            pendientes: Vec::new(),
            pendientes_con_hijos: Vec::new(),
            todo: false,
        }
    }
}

/// Whether a setting of the environment switches the computation of the damage on.
pub open spec fn switched_on(setting: Option<&str>) -> bool {
    setting matches Some(s) && (s@ == "1"@ || s@ == "true"@)
}

/// Whether the computation of the damage is switched on, given what the environment
/// says. It is off unless asked for: a wrong damage gives no error, it leaves ghosts.
pub fn damage_enabled(setting: Option<&str>) -> (r: bool)
    ensures
        r == switched_on(setting),
{
    match setting {
        Some(s) => text::same_text(s, "1") || text::same_text(s, "true"),
        None => false,
    }
}

/// Keeps the answer to whether the damage is computed: it is given once, and holds from
/// then on.
pub struct DamageSwitch {
    answer: Option<bool>,
}

impl DamageSwitch {
    /// The answer, once it was given.
    pub closed spec fn given(&self) -> Option<bool> {
        self.answer
    }

    /// A switch that was not asked yet.
    pub fn new() -> (r: DamageSwitch)
        ensures
            r.given() is None,
    {
        DamageSwitch { answer: None }
    }

    /// Whether the damage is computed. Only the first time does it matter what the
    /// environment says.
    pub fn is_on(&mut self, setting: Option<&str>) -> (r: bool)
        ensures
            r == answer_to(old(self).given(), setting),
            final(self).given() == Some(r),
    {
        match self.answer {
            Some(on) => on,
            None => {
                let on = damage_enabled(setting);
                self.answer = Some(on);
                on
            },
        }
    }
}

/// What a switch answers, given what it has answered before.
pub open spec fn answer_to(given: Option<bool>, setting: Option<&str>) -> bool {
    match given {
        Some(on) => on,
        None => switched_on(setting),
    }
}

/// What a switch has answered after it was asked under some settings.
pub open spec fn given_after(settings: Seq<Option<&str>>) -> Option<bool>
    decreases settings.len(),
{
    if settings.len() == 0 {
        None
    } else {
        Some(answer_to(given_after(settings.drop_last()), settings.last()))
    }
}

/// The first answer holds for good, whatever the environment says later.
pub proof fn law_the_first_answer_holds(settings: Seq<Option<&str>>)
    requires
        settings.len() > 0,
    ensures
        given_after(settings) == Some(switched_on(settings[0])),
    decreases settings.len(),
{
    if settings.len() > 1 {
        law_the_first_answer_holds(settings.drop_last());
    } else {
        reveal_with_fuel(given_after, 2);
        assert(settings.last() == settings[0]);
    }
}

/// The position of the first list named `id`.
fn find_list(lists: &Vec<DrawList>, id: DrawListId) -> (r: Option<usize>)
    ensures
        match r {
            Some(i) => i < lists@.len() && position_of(lists@, id) == Some(i as int),
            None => position_of(lists@, id) is None,
        },
{
    let mut i: usize = 0;
    assert(lists@.take(0) =~= Seq::<DrawList>::empty());
    while i < lists.len()
        invariant
            i <= lists@.len(),
            position_of(lists@.take(i as int), id) is None,
        decreases lists@.len() - i,
    {
        proof {
            assert(lists@.take(i + 1).drop_last() =~= lists@.take(i as int));
        }
        if lists[i].id == id {
            proof {
                lemma_position_stays(lists@, id, i + 1);
            }
            return Some(i);
        }
        i = i + 1;
    }
    assert(lists@.take(i as int) =~= lists@);
    None
}

/// A position found among the first lists is the position among all of them.
proof fn lemma_position_stays(lists: Seq<DrawList>, id: DrawListId, n: int)
    requires
        0 <= n <= lists.len(),
        position_of(lists.take(n), id) is Some,
    ensures
        position_of(lists, id) == position_of(lists.take(n), id),
    decreases lists.len(),
{
    if n == lists.len() {
        assert(lists.take(n) =~= lists);
    } else {
        assert(lists.drop_last().take(n) =~= lists.take(n));
        lemma_position_stays(lists.drop_last(), id, n);
    }
}

/// The box that a list occupies, if it is known and not empty.
pub fn rect_de_lista(lists: &Vec<DrawList>, id: DrawListId) -> (r: Option<DamageRect>)
    ensures
        r == box_of(lists@, id),
{
    match find_list(lists, id) {
        None => None,
        Some(i) => match lists[i].painted {
            None => None,
            Some(r) => if r.is_empty() {
                None
            } else {
                Some(r)
            },
        },
    }
}

/// Whether `ids` holds `id`.
fn holds(ids: &Vec<DrawListId>, id: DrawListId) -> (r: bool)
    ensures
        r == ids@.contains(id),
{
    let mut i: usize = 0;
    while i < ids.len()
        invariant
            i <= ids@.len(),
            forall|j: int| 0 <= j < i ==> ids@[j] != id,
        decreases ids@.len() - i,
    {
        if ids[i] == id {
            return true;
        }
        i = i + 1;
    }
    false
}

/// Adds `id` and its sub-lists at every level, each once.
///
/// The depth is limited: a list that contains itself, through a wrongly reused
/// identity, must not hang the renderer.
pub fn recoger_con_hijos(
    lists: &Vec<DrawList>,
    id: DrawListId,
    salida: &mut Vec<DrawListId>,
    prof: u32,
)
    ensures
        final(salida)@ == gathered(lists@, id, old(salida)@, prof as nat),
    decreases levels_left(prof as nat), 0nat,
{
    if prof > MAX_DEPTH || holds(salida, id) {
        return;
    }
    salida.push(id);
    match find_list(lists, id) {
        None => {
            assert(sub_lists_of(lists@, id) =~= Seq::<DrawListId>::empty());
        },
        Some(at) => {
            let ghost begun = salida@;
            let mut i: usize = 0;
            assert(lists@[at as int].sub_lists@.take(0) =~= Seq::<DrawListId>::empty());
            while i < lists[at].sub_lists.len()
                invariant
                    prof <= MAX_DEPTH,
                    at < lists@.len(),
                    i <= lists@[at as int].sub_lists@.len(),
                    salida@ == gathered_all(
                        lists@,
                        lists@[at as int].sub_lists@.take(i as int),
                        begun,
                        (prof + 1) as nat,
                    ),
                decreases lists@[at as int].sub_lists@.len() - i,
            {
                recoger_con_hijos(lists, lists[at].sub_lists[i], salida, prof + 1);
                proof {
                    let subs = lists@[at as int].sub_lists@;
                    assert(subs.take(i + 1).drop_last() =~= subs.take(i as int));
                    assert(subs.take(i + 1).last() == subs[i as int]);
                }
                i = i + 1;
            }
            proof {
                let subs = lists@[at as int].sub_lists@;
                assert(subs.take(i as int) =~= subs);
            }
        },
    }
}

/// The smallest rectangle around what is there of the two.
fn join(a: Option<DamageRect>, b: Option<DamageRect>) -> (r: Option<DamageRect>)
    ensures
        r == join_known(a, b),
{
    match (a, b) {
        (Some(p), Some(q)) => Some(p.union(q)),
        (Some(p), None) => Some(p),
        (None, q) => q,
    }
}

/// The part of a damaged box that is worth a scissor.
fn clip_if_worth(damage: Option<DamageRect>, width: i32, height: i32) -> (r: Option<DamageRect>)
    ensures
        r == worth_clipping(damage, width, height),
{
    match damage {
        None => None,
        Some(d) => {
            let c = d.clamp(width, height);
            if c.is_empty() {
                return None;
            }
            let area: u128 = c.area() as u128;
            proof {
                assert(width as u128 * height as u128 * 9 <= u128::MAX && width as u128
                    * height as u128 == width * height) by (nonlinear_arith)
                    requires
                        0 <= width <= 0x7fff_ffff,
                        0 <= height <= 0x7fff_ffff,
                ;
            }
            if area * 10 >= width as u128 * height as u128 * 9 {
                None
            } else {
                Some(c)
            }
        },
    }
}

/// The names of all lists.
fn nombres(lists: &Vec<DrawList>) -> (r: Vec<DrawListId>)
    ensures
        r@ == all_ids(lists@),
{
    let mut ids: Vec<DrawListId> = Vec::new();
    let mut i: usize = 0;
    while i < lists.len()
        invariant
            i <= lists@.len(),
            ids@ == all_ids(lists@).take(i as int),
        decreases lists@.len() - i,
    {
        ids.push(lists[i].id);
        i = i + 1;
        assert(ids@ =~= all_ids(lists@).take(i as int));
    }
    assert(all_ids(lists@).take(i as int) =~= all_ids(lists@));
    ids
}

impl DamageTracker {
    /// Notes what is about to be repainted. It is called before the draw event is
    /// dispatched, which empties it.
    pub fn observar(&mut self, ev: &DrawEvent)
        ensures
            final(self).before() == old(self).before(),
            final(self).everything() == ev.redraw_all,
            final(self).pending() == ev.draw_lists@,
            final(self).pending_deep() == ev.draw_lists_and_children@,
    {
        self.todo = ev.redraw_all;
        self.pendientes.clear();
        self.pendientes.extend_from_slice(ev.draw_lists.as_slice());
        self.pendientes_con_hijos.clear();
        self.pendientes_con_hijos.extend_from_slice(ev.draw_lists_and_children.as_slice());
        assert(self.pendientes@ =~= ev.draw_lists@);
        assert(self.pendientes_con_hijos@ =~= ev.draw_lists_and_children@);
    }

    /// The lists that are drawn this frame.
    fn listas(&self, lists: &Vec<DrawList>) -> (r: Vec<DrawListId>)
        ensures
            r@ == self.drawn(lists@),
    {
        let mut ids: Vec<DrawListId> = Vec::new();
        if self.todo || (self.pendientes.len() == 0 && self.pendientes_con_hijos.len() == 0) {
            return nombres(lists);
        }
        let ghost deep = self.pendientes_con_hijos@;
        let ghost shallow = self.pendientes@;
        let mut i: usize = 0;
        assert(deep.take(0) =~= Seq::<DrawListId>::empty());
        while i < self.pendientes_con_hijos.len()
            invariant
                i <= deep.len(),
                deep == self.pendientes_con_hijos@,
                ids@ == gathered_all(lists@, deep.take(i as int), Seq::empty(), 0),
            decreases deep.len() - i,
        {
            recoger_con_hijos(lists, self.pendientes_con_hijos[i], &mut ids, 0);
            proof {
                assert(deep.take(i + 1).drop_last() =~= deep.take(i as int));
                assert(deep.take(i + 1).last() == deep[i as int]);
            }
            i = i + 1;
        }
        assert(deep.take(i as int) =~= deep);
        let ghost gathered_ids = ids@;
        let mut j: usize = 0;
        assert(shallow.take(0) =~= Seq::<DrawListId>::empty());
        while j < self.pendientes.len()
            invariant
                j <= shallow.len(),
                shallow == self.pendientes@,
                ids@ == with_missing(gathered_ids, shallow.take(j as int)),
            decreases shallow.len() - j,
        {
            if !holds(&ids, self.pendientes[j]) {
                ids.push(self.pendientes[j]);
            }
            proof {
                assert(shallow.take(j + 1).drop_last() =~= shallow.take(j as int));
                assert(shallow.take(j + 1).last() == shallow[j as int]);
            }
            j = j + 1;
        }
        assert(shallow.take(j as int) =~= shallow);
        ids
    }

    /// Notes the boxes of some lists.
    fn anotar(&mut self, lists: &Vec<DrawList>, ids: &Vec<DrawListId>)
        ensures
            final(self).before() == recorded(lists@, old(self).before(), ids@),
            final(self).pending() == old(self).pending(),
            final(self).pending_deep() == old(self).pending_deep(),
            final(self).everything() == old(self).everything(),
    {
        let ghost before = self.anterior@;
        let ghost tracker = *self;
        let mut j: usize = 0;
        assert(ids@.take(0) =~= Seq::<DrawListId>::empty());
        while j < ids.len()
            invariant
                j <= ids@.len(),
                self.anterior@ == recorded(lists@, before, ids@.take(j as int)),
                self.pendientes == tracker.pendientes,
                self.pendientes_con_hijos == tracker.pendientes_con_hijos,
                self.todo == tracker.todo,
            decreases ids@.len() - j,
        {
            let id: DrawListId = ids[j];
            match rect_de_lista(lists, id) {
                Some(r) => {
                    self.anterior.insert(id, r);
                },
                None => {},
            }
            proof {
                assert(ids@.take(j + 1).drop_last() =~= ids@.take(j as int));
                assert(ids@.take(j + 1).last() == id);
            }
            j = j + 1;
        }
        assert(ids@.take(j as int) =~= ids@);
    }

    /// Notes the boxes of all lists: those of a frame that paints everything, whatever was
    /// asked for.
    pub fn anotar_todo(&mut self, lists: &Vec<DrawList>)
        ensures
            final(self).before() == recorded(lists@, old(self).before(), all_ids(lists@)),
            final(self).pending() == old(self).pending(),
            final(self).pending_deep() == old(self).pending_deep(),
            final(self).everything() == old(self).everything(),
    {
        let ids = nombres(lists);
        self.anotar(lists, &ids);
    }

    /// Notes the boxes of the lists that were never noted: lists that have come up while
    /// others were drawn.
    pub fn anotar_nuevas(&mut self, lists: &Vec<DrawList>)
        ensures
            final(self).before() == filled(lists@, old(self).before()),
            final(self).pending() == old(self).pending(),
            final(self).pending_deep() == old(self).pending_deep(),
            final(self).everything() == old(self).everything(),
    {
        let ghost before = self.anterior@;
        let ghost tracker = *self;
        let n: usize = lists.len();
        let mut i: usize = 0;
        while i < n
            invariant
                i <= n == lists@.len(),
                self.anterior@ == filled_up_to(lists@, before, i as nat),
                self.pendientes == tracker.pendientes,
                self.pendientes_con_hijos == tracker.pendientes_con_hijos,
                self.todo == tracker.todo,
            decreases n - i,
        {
            let id: DrawListId = lists[i].id;
            if !self.anterior.contains_key(&id) {
                match rect_de_lista(lists, id) {
                    Some(r) => {
                        self.anterior.insert(id, r);
                    },
                    None => {},
                }
            }
            i = i + 1;
        }
    }

    /// Computes the damage of the frame, in device pixels, and notes the boxes of the
    /// lists that it draws.
    ///
    /// It is none where everything has to be repainted: because that was asked for,
    /// or because it is not known what has changed. An unknown damage is not an empty
    /// damage, it is the whole screen.
    pub fn calcular(&mut self, lists: &Vec<DrawList>, width: i32, height: i32) -> (r: Option<
        DamageRect,
    >)
        ensures
            r == old(self).damage(lists@, width, height),
            final(self).before() == recorded(
                lists@,
                old(self).before(),
                old(self).drawn(lists@),
            ),
            final(self).pending() == old(self).pending(),
            final(self).pending_deep() == old(self).pending_deep(),
            final(self).everything() == old(self).everything(),
    {
        let whole = self.todo || (self.pendientes.len() == 0 && self.pendientes_con_hijos.len()
            == 0);
        let ids = self.listas(lists);
        let ghost before = self.anterior@;
        let ghost tracker = *self;
        let mut dano: Option<DamageRect> = None;
        let mut i: usize = 0;
        assert(ids@.take(0) =~= Seq::<DrawListId>::empty());
        while i < ids.len()
            invariant
                i <= ids@.len(),
                *self == tracker,
                before == tracker.anterior@,
                dano == box_around(lists@, before, ids@.take(i as int)),
            decreases ids@.len() - i,
        {
            let id: DrawListId = ids[i];
            // What it covers now, and what it covered before, so as to leave no ghost.
            let now = rect_de_lista(lists, id);
            let earlier: Option<DamageRect> = match self.anterior.get(&id) {
                Some(r) => Some(*r),
                None => None,
            };
            dano = join(join(dano, now), earlier);
            proof {
                assert(ids@.take(i + 1).drop_last() =~= ids@.take(i as int));
                assert(ids@.take(i + 1).last() == id);
            }
            i = i + 1;
        }
        assert(ids@.take(i as int) =~= ids@);
        self.anotar(lists, &ids);
        if whole {
            None
        } else {
            clip_if_worth(dano, width, height)
        }
    }
}

/// The union of two rectangles reaches around both of them.
pub proof fn law_union_encloses_both(a: DamageRect, b: DamageRect)
    ensures
        a.joined(b).encloses(a),
        a.joined(b).encloses(b),
{
}

/// The union of two rectangles is the smallest one around both.
pub proof fn law_union_is_smallest(a: DamageRect, b: DamageRect, c: DamageRect)
    requires
        c.encloses(a),
        c.encloses(b),
    ensures
        c.encloses(a.joined(b)),
{
}

/// The union does not depend on the order, nor on the grouping.
pub proof fn law_union_is_commutative_and_associative(a: DamageRect, b: DamageRect, c: DamageRect)
    ensures
        a.joined(b) == b.joined(a),
        a.joined(b).joined(c) == a.joined(b.joined(c)),
{
}

/// The union absorbs what is contained in it.
pub proof fn law_union_absorbs(a: DamageRect, b: DamageRect)
    requires
        a.encloses(b),
    ensures
        a.joined(b) == a,
{
}

/// A rectangle has pixels exactly when it is not empty, and an area exactly then.
pub proof fn law_empty_has_no_area(a: DamageRect)
    ensures
        a.empty() <==> a.pixel_count() == 0,
        a.empty() <==> (forall|x: int, y: int| !#[trigger] a.has(x, y)),
{
    if !a.empty() {
        assert((a.x1 - a.x0) * (a.y1 - a.y0) > 0) by (nonlinear_arith)
            requires
                a.x1 - a.x0 > 0,
                a.y1 - a.y0 > 0,
        ;
        assert(a.has(a.x0 as int, a.y0 as int));
    }
}

/// Cutting a rectangle down to the screen keeps its pixels on the screen, and no others.
pub proof fn law_clamp_keeps_what_is_on_screen(a: DamageRect, width: i32, height: i32, x: int, y: int)
    ensures
        a.clamped(width, height).has(x, y) <==> a.has(x, y) && 0 <= x < width && 0 <= y < height,
{
}

/// The first lists that were gathered stay, in their order.
proof fn lemma_gathered_extends(
    lists: Seq<DrawList>,
    id: DrawListId,
    out: Seq<DrawListId>,
    depth: nat,
)
    ensures
        out.is_prefix_of(gathered(lists, id, out, depth)),
    decreases levels_left(depth), 0nat,
{
    if !(depth > MAX_DEPTH || out.contains(id)) {
        let subs = sub_lists_of(lists, id);
        lemma_gathered_all_extends(lists, subs, out.push(id), depth + 1);
        let end = gathered_all(lists, subs, out.push(id), depth + 1);
        assert(out.push(id).is_prefix_of(end));
        assert(out =~= end.subrange(0, out.len() as int)) by {
            assert forall|i: int| 0 <= i < out.len() implies out[i] == end[i] by {
                assert(out.push(id)[i] == end.subrange(0, out.len() as int + 1)[i]);
            }
        }
    }
}

proof fn lemma_gathered_all_extends(
    lists: Seq<DrawList>,
    ids: Seq<DrawListId>,
    out: Seq<DrawListId>,
    depth: nat,
)
    ensures
        out.is_prefix_of(gathered_all(lists, ids, out, depth)),
    decreases levels_left(depth), 1 + ids.len(),
{
    if ids.len() > 0 {
        let mid = gathered_all(lists, ids.drop_last(), out, depth);
        lemma_gathered_all_extends(lists, ids.drop_last(), out, depth);
        lemma_gathered_extends(lists, ids.last(), mid, depth);
        let end = gathered(lists, ids.last(), mid, depth);
        assert(out =~= end.subrange(0, out.len() as int)) by {
            assert forall|i: int| 0 <= i < out.len() implies out[i] == end[i] by {
                assert(mid[i] == end.subrange(0, mid.len() as int)[i]);
                assert(out[i] == mid.subrange(0, out.len() as int)[i]);
            }
        }
    }
}

/// What was gathered earlier is still there.
proof fn lemma_prefix_contains(a: Seq<DrawListId>, b: Seq<DrawListId>)
    requires
        a.is_prefix_of(b),
    ensures
        forall|x: DrawListId| a.contains(x) ==> b.contains(x),
{
    assert forall|x: DrawListId| a.contains(x) implies b.contains(x) by {
        let i = choose|i: int| 0 <= i < a.len() && a[i] == x;
        assert(a[i] == b.subrange(0, a.len() as int)[i]);
        assert(b[i] == x);
    }
}

/// Nothing is gathered twice.
pub proof fn law_nothing_is_gathered_twice(
    lists: Seq<DrawList>,
    id: DrawListId,
    out: Seq<DrawListId>,
    depth: nat,
)
    requires
        out.no_duplicates(),
    ensures
        gathered(lists, id, out, depth).no_duplicates(),
    decreases levels_left(depth), 0nat,
{
    if !(depth > MAX_DEPTH || out.contains(id)) {
        assert(out.push(id).no_duplicates());
        lemma_all_gathered_once(lists, sub_lists_of(lists, id), out.push(id), depth + 1);
    }
}

proof fn lemma_all_gathered_once(
    lists: Seq<DrawList>,
    ids: Seq<DrawListId>,
    out: Seq<DrawListId>,
    depth: nat,
)
    requires
        out.no_duplicates(),
    ensures
        gathered_all(lists, ids, out, depth).no_duplicates(),
    decreases levels_left(depth), 1 + ids.len(),
{
    if ids.len() > 0 {
        lemma_all_gathered_once(lists, ids.drop_last(), out, depth);
        law_nothing_is_gathered_twice(
            lists,
            ids.last(),
            gathered_all(lists, ids.drop_last(), out, depth),
            depth,
        );
    }
}

/// Whether `path` leads from list to sub-list, step by step.
pub open spec fn is_path(lists: Seq<DrawList>, path: Seq<DrawListId>) -> bool {
    path.len() > 0 && forall|i: int|
        0 < i < path.len() ==> sub_lists_of(lists, path[i - 1]).contains(#[trigger] path[i])
}

/// Whether the list `to` is `from` or one of its sub-lists at some level.
pub open spec fn reaches(lists: Seq<DrawList>, from: DrawListId, to: DrawListId) -> bool {
    exists|path: Seq<DrawListId>| #[trigger]
        is_path(lists, path) && path[0] == from && path.last() == to
}

proof fn lemma_reaches_self(lists: Seq<DrawList>, id: DrawListId)
    ensures
        reaches(lists, id, id),
{
    let path = seq![id];
    assert(is_path(lists, path));
}

proof fn lemma_reaches_step(
    lists: Seq<DrawList>,
    from: DrawListId,
    sub: DrawListId,
    to: DrawListId,
)
    requires
        sub_lists_of(lists, from).contains(sub),
        reaches(lists, sub, to),
    ensures
        reaches(lists, from, to),
{
    let path = choose|path: Seq<DrawListId>| #[trigger]
        is_path(lists, path) && path[0] == sub && path.last() == to;
    let longer = seq![from] + path;
    assert(is_path(lists, longer)) by {
        assert forall|i: int| 0 < i < longer.len() implies sub_lists_of(
            lists,
            longer[i - 1],
        ).contains(#[trigger] longer[i]) by {
            if i > 1 {
                assert(longer[i] == path[i - 1]);
                assert(longer[i - 1] == path[i - 2]);
            }
        }
    }
    assert(longer.last() == path.last());
}

/// Only a list and its sub-lists are gathered.
pub proof fn law_only_sub_lists_are_gathered(
    lists: Seq<DrawList>,
    id: DrawListId,
    out: Seq<DrawListId>,
    depth: nat,
)
    ensures
        forall|x: DrawListId| #[trigger]
            gathered(lists, id, out, depth).contains(x) ==> out.contains(x) || reaches(
                lists,
                id,
                x,
            ),
    decreases levels_left(depth), 0nat,
{
    if !(depth > MAX_DEPTH || out.contains(id)) {
        let subs = sub_lists_of(lists, id);
        lemma_only_sub_lists_of_all(lists, id, subs, out.push(id), depth + 1);
        lemma_reaches_self(lists, id);
        assert forall|x: DrawListId| #[trigger]
            gathered(lists, id, out, depth).contains(x) implies out.contains(x) || reaches(
            lists,
            id,
            x,
        ) by {
            assert(gathered_all(lists, subs, out.push(id), depth + 1).contains(x));
            if out.push(id).contains(x) {
                let i = choose|i: int| 0 <= i < out.push(id).len() && out.push(id)[i] == x;
                if i < out.len() {
                    assert(out[i] == x);
                }
            }
        }
    }
}

proof fn lemma_only_sub_lists_of_all(
    lists: Seq<DrawList>,
    parent: DrawListId,
    ids: Seq<DrawListId>,
    out: Seq<DrawListId>,
    depth: nat,
)
    requires
        forall|i: int| 0 <= i < ids.len() ==> sub_lists_of(lists, parent).contains(#[trigger] ids[i]),
    ensures
        forall|x: DrawListId| #[trigger]
            gathered_all(lists, ids, out, depth).contains(x) ==> out.contains(x) || reaches(
                lists,
                parent,
                x,
            ),
    decreases levels_left(depth), 1 + ids.len(),
{
    if ids.len() > 0 {
        let mid = gathered_all(lists, ids.drop_last(), out, depth);
        assert forall|i: int| 0 <= i < ids.drop_last().len() implies sub_lists_of(
            lists,
            parent,
        ).contains(#[trigger] ids.drop_last()[i]) by {
            assert(ids.drop_last()[i] == ids[i]);
        }
        lemma_only_sub_lists_of_all(lists, parent, ids.drop_last(), out, depth);
        law_only_sub_lists_are_gathered(lists, ids.last(), mid, depth);
        assert forall|x: DrawListId| #[trigger]
            gathered_all(lists, ids, out, depth).contains(x) implies out.contains(x) || reaches(
            lists,
            parent,
            x,
        ) by {
            if !mid.contains(x) {
                assert(ids[ids.len() - 1] == ids.last());
                assert(gathered(lists, ids.last(), mid, depth).contains(x));
                lemma_reaches_step(lists, parent, ids.last(), x);
            }
        }
    }
}

/// Whether `rank` falls from every list to its sub-lists: the lists form no cycle, and
/// `rank` bounds the number of levels below each of them.
pub open spec fn is_height(lists: Seq<DrawList>, rank: spec_fn(DrawListId) -> nat) -> bool {
    forall|id: DrawListId, i: int|
        0 <= i < sub_lists_of(lists, id).len() ==> rank(#[trigger] sub_lists_of(lists, id)[i])
            < rank(id)
}

/// Whether every list in `ids` of a rank below `bound` has its sub-lists there too.
pub open spec fn complete_below(
    lists: Seq<DrawList>,
    rank: spec_fn(DrawListId) -> nat,
    ids: Seq<DrawListId>,
    bound: nat,
) -> bool {
    forall|x: DrawListId, i: int|
        ids.contains(x) && rank(x) < bound && 0 <= i < sub_lists_of(lists, x).len()
            ==> ids.contains(#[trigger] sub_lists_of(lists, x)[i])
}

/// Lists are gathered with all their sub-lists, as long as they do not stand deeper
/// than the limit.
pub proof fn law_sub_lists_are_gathered(
    lists: Seq<DrawList>,
    rank: spec_fn(DrawListId) -> nat,
    id: DrawListId,
    out: Seq<DrawListId>,
    depth: nat,
    bound: nat,
)
    requires
        is_height(lists, rank),
        rank(id) + depth <= MAX_DEPTH,
        rank(id) < bound,
        complete_below(lists, rank, out, bound),
    ensures
        gathered(lists, id, out, depth).contains(id),
        complete_below(lists, rank, gathered(lists, id, out, depth), bound),
        forall|x: DrawListId| #[trigger]
            gathered(lists, id, out, depth).contains(x) ==> out.contains(x) || rank(x) <= rank(id),
    decreases levels_left(depth), 0nat,
{
    if !out.contains(id) {
        let subs = sub_lists_of(lists, id);
        let begun = out.push(id);
        let end = gathered_all(lists, subs, begun, depth + 1);
        assert(begun[begun.len() - 1] == id);
        assert(forall|x: DrawListId| begun.contains(x) ==> out.contains(x) || x == id) by {
            assert forall|x: DrawListId| begun.contains(x) implies out.contains(x) || x == id by {
                let i = choose|i: int| 0 <= i < begun.len() && begun[i] == x;
                if i < out.len() {
                    assert(out[i] == x);
                }
            }
        }
        assert(out.is_prefix_of(begun)) by {
            assert(out =~= begun.subrange(0, out.len() as int));
        }
        lemma_prefix_contains(out, begun);
        assert(complete_below(lists, rank, begun, rank(id)));
        lemma_all_sub_lists_are_gathered(lists, rank, subs, begun, depth + 1, rank(id));
        lemma_gathered_all_extends(lists, subs, begun, depth + 1);
        lemma_prefix_contains(begun, end);
        assert(complete_below(lists, rank, end, bound)) by {
            assert forall|x: DrawListId, i: int|
                end.contains(x) && rank(x) < bound && 0 <= i < sub_lists_of(
                    lists,
                    x,
                ).len() implies end.contains(#[trigger] sub_lists_of(lists, x)[i]) by {
                if x == id {
                    assert(subs[i] == sub_lists_of(lists, x)[i]);
                } else if rank(x) >= rank(id) {
                    assert(out.contains(x));
                    assert(out.contains(sub_lists_of(lists, x)[i]));
                }
            }
        }
    }
}

proof fn lemma_all_sub_lists_are_gathered(
    lists: Seq<DrawList>,
    rank: spec_fn(DrawListId) -> nat,
    ids: Seq<DrawListId>,
    out: Seq<DrawListId>,
    depth: nat,
    bound: nat,
)
    requires
        is_height(lists, rank),
        bound + depth <= MAX_DEPTH + 1,
        forall|i: int| 0 <= i < ids.len() ==> rank(#[trigger] ids[i]) < bound,
        complete_below(lists, rank, out, bound),
    ensures
        forall|i: int|
            0 <= i < ids.len() ==> gathered_all(lists, ids, out, depth).contains(
                #[trigger] ids[i],
            ),
        complete_below(lists, rank, gathered_all(lists, ids, out, depth), bound),
        forall|x: DrawListId| #[trigger]
            gathered_all(lists, ids, out, depth).contains(x) ==> out.contains(x) || rank(x)
                < bound,
    decreases levels_left(depth), 1 + ids.len(),
{
    if ids.len() > 0 {
        let mid = gathered_all(lists, ids.drop_last(), out, depth);
        let end = gathered_all(lists, ids, out, depth);
        assert(forall|i: int|
            0 <= i < ids.drop_last().len() ==> #[trigger] ids.drop_last()[i] == ids[i]);
        lemma_all_sub_lists_are_gathered(lists, rank, ids.drop_last(), out, depth, bound);
        assert(rank(ids[ids.len() - 1]) < bound);
        law_sub_lists_are_gathered(lists, rank, ids.last(), mid, depth, bound);
        lemma_gathered_extends(lists, ids.last(), mid, depth);
        lemma_prefix_contains(mid, end);
        assert forall|i: int| 0 <= i < ids.len() implies end.contains(#[trigger] ids[i]) by {
            if i < ids.len() - 1 {
                assert(ids.drop_last()[i] == ids[i]);
            }
        }
    }
}

/// What is there of two rectangles lies in their union.
proof fn lemma_join_known_covers(a: Option<DamageRect>, b: Option<DamageRect>, x: int, y: int)
    ensures
        (a matches Some(r) && r.has(x, y)) ==> (join_known(a, b) matches Some(r) && r.has(x, y)),
        (b matches Some(r) && r.has(x, y)) ==> (join_known(a, b) matches Some(r) && r.has(x, y)),
{
}

/// The rectangle around the boxes of some lists covers each of those boxes, the one of
/// now and the one of before.
proof fn lemma_box_around_covers(
    lists: Seq<DrawList>,
    before: Map<DrawListId, DamageRect>,
    ids: Seq<DrawListId>,
    id: DrawListId,
    x: int,
    y: int,
)
    requires
        ids.contains(id),
        (box_of(lists, id) matches Some(r) && r.has(x, y)) || (known_box(before, id) matches Some(r)
            && r.has(x, y)),
    ensures
        box_around(lists, before, ids) matches Some(r) && r.has(x, y),
    decreases ids.len(),
{
    let rest = box_around(lists, before, ids.drop_last());
    let with_now = join_known(rest, box_of(lists, ids.last()));
    if ids.last() == id {
        lemma_join_known_covers(rest, box_of(lists, id), x, y);
        lemma_join_known_covers(with_now, known_box(before, id), x, y);
    } else {
        let i = choose|i: int| 0 <= i < ids.len() && ids[i] == id;
        assert(ids.drop_last()[i] == id);
        lemma_box_around_covers(lists, before, ids.drop_last(), id, x, y);
        lemma_join_known_covers(rest, box_of(lists, ids.last()), x, y);
        lemma_join_known_covers(with_now, known_box(before, ids.last()), x, y);
    }
}

/// The damage covers, of every list that is drawn, what it occupies now and what it
/// occupied the last time it was drawn, as far as that is on screen.
pub proof fn law_damage_covers_now_and_before(
    tracker: &DamageTracker,
    lists: Seq<DrawList>,
    width: i32,
    height: i32,
    id: DrawListId,
    x: int,
    y: int,
)
    requires
        tracker.drawn(lists).contains(id),
        0 <= x < width,
        0 <= y < height,
        (box_of(lists, id) matches Some(r) && r.has(x, y)) || (known_box(
            tracker.before(),
            id,
        ) matches Some(r) && r.has(x, y)),
    ensures
        tracker.damage(lists, width, height) matches Some(c) ==> c.has(x, y),
{
    lemma_box_around_covers(lists, tracker.before(), tracker.drawn(lists), id, x, y);
}

/// What is recorded of a list: its box of now, if it is drawn and that is known, else its
/// box of before.
pub proof fn lemma_recorded(
    lists: Seq<DrawList>,
    before: Map<DrawListId, DamageRect>,
    ids: Seq<DrawListId>,
    id: DrawListId,
)
    ensures
        known_box(recorded(lists, before, ids), id) == if ids.contains(id) && box_of(
            lists,
            id,
        ) is Some {
            box_of(lists, id)
        } else {
            known_box(before, id)
        },
    decreases ids.len(),
{
    if ids.len() > 0 {
        let fewer = ids.drop_last();
        lemma_recorded(lists, before, fewer, id);
        if ids.last() == id {
            assert(ids[ids.len() - 1] == id);
        } else {
            assert(ids.contains(id) == fewer.contains(id)) by {
                if ids.contains(id) {
                    let i = choose|i: int| 0 <= i < ids.len() && ids[i] == id;
                    assert(fewer[i] == id);
                }
                if fewer.contains(id) {
                    let i = choose|i: int| 0 <= i < fewer.len() && fewer[i] == id;
                    assert(ids[i] == id);
                }
            }
        }
    }
}

/// Noting some lists and then all of them is noting all of them.
pub proof fn lemma_recorded_twice(
    lists: Seq<DrawList>,
    before: Map<DrawListId, DamageRect>,
    ids: Seq<DrawListId>,
)
    ensures
        recorded(lists, recorded(lists, before, ids), all_ids(lists)) == recorded(
            lists,
            before,
            all_ids(lists),
        ),
{
    let some = recorded(lists, before, ids);
    let twice = recorded(lists, some, all_ids(lists));
    let once = recorded(lists, before, all_ids(lists));
    assert forall|id: DrawListId| known_box(twice, id) == known_box(once, id) by {
        lemma_recorded(lists, before, ids, id);
        lemma_recorded(lists, some, all_ids(lists), id);
        lemma_recorded(lists, before, all_ids(lists), id);
        if box_of(lists, id) is Some {
            lemma_boxed_lists_are_listed(lists, id);
        }
    }
    assert forall|id: DrawListId| twice.contains_key(id) == #[trigger] once.contains_key(id)
        && (twice.contains_key(id) ==> twice[id] == once[id]) by {
        assert(known_box(twice, id) == known_box(once, id));
    }
    assert(twice =~= once);
}

/// What filling in gives: a box that was there stays, and where there was none, it is the
/// box of now.
pub proof fn lemma_filled(
    lists: Seq<DrawList>,
    before: Map<DrawListId, DamageRect>,
    n: nat,
    id: DrawListId,
)
    requires
        n <= lists.len(),
    ensures
        known_box(filled_up_to(lists, before, n), id) == if known_box(before, id) is None
            && all_ids(lists).take(n as int).contains(id) {
            box_of(lists, id)
        } else {
            known_box(before, id)
        },
    decreases n,
{
    let ids = all_ids(lists);
    if n > 0 {
        lemma_filled(lists, before, (n - 1) as nat, id);
        let (fewer, more) = (ids.take(n - 1), ids.take(n as int));
        assert(more =~= fewer.push(ids[n - 1]));
        assert(more.contains(id) == (fewer.contains(id) || ids[n - 1] == id)) by {
            if more.contains(id) {
                let i = choose|i: int| 0 <= i < more.len() && more[i] == id;
                if i < n - 1 {
                    assert(fewer[i] == id);
                }
            }
            if fewer.contains(id) {
                let i = choose|i: int| 0 <= i < fewer.len() && fewer[i] == id;
                assert(more[i] == id);
            }
            assert(more[n - 1] == ids[n - 1]);
        }
    }
}

/// A list that has a box is one of all lists.
pub proof fn lemma_boxed_lists_are_listed(lists: Seq<DrawList>, id: DrawListId)
    requires
        position_of(lists, id) is Some,
    ensures
        all_ids(lists).contains(id),
    decreases lists.len(),
{
    let fewer = lists.drop_last();
    if position_of(fewer, id) is Some {
        lemma_boxed_lists_are_listed(fewer, id);
        let i = choose|i: int| 0 <= i < all_ids(fewer).len() && all_ids(fewer)[i] == id;
        assert(all_ids(lists)[i] == id);
    } else {
        assert(all_ids(lists)[lists.len() - 1] == id);
    }
}

/// No ghosts: where a frame has painted a list, the next frame that paints the list
/// repaints, wherever the list has gone since. `earlier` and `later` are the trackers
/// of the two frames before they compute their damage.
pub proof fn law_no_ghosts(
    earlier: &DamageTracker,
    earlier_lists: Seq<DrawList>,
    later: &DamageTracker,
    later_lists: Seq<DrawList>,
    width: i32,
    height: i32,
    id: DrawListId,
    x: int,
    y: int,
)
    requires
        later.before() == recorded(
            earlier_lists,
            earlier.before(),
            earlier.drawn(earlier_lists),
        ),
        earlier.drawn(earlier_lists).contains(id),
        later.drawn(later_lists).contains(id),
        0 <= x < width,
        0 <= y < height,
        box_of(earlier_lists, id) matches Some(r) && r.has(x, y),
    ensures
        later.damage(later_lists, width, height) matches Some(c) ==> c.has(x, y),
{
    lemma_recorded(earlier_lists, earlier.before(), earlier.drawn(earlier_lists), id);
    law_damage_covers_now_and_before(later, later_lists, width, height, id, x, y);
}

proof fn lemma_with_missing_holds(out: Seq<DrawListId>, ids: Seq<DrawListId>)
    ensures
        forall|x: DrawListId| #[trigger]
            with_missing(out, ids).contains(x) <==> out.contains(x) || ids.contains(x),
        out.no_duplicates() ==> with_missing(out, ids).no_duplicates(),
    decreases ids.len(),
{
    if ids.len() > 0 {
        let before = with_missing(out, ids.drop_last());
        lemma_with_missing_holds(out, ids.drop_last());
        assert forall|x: DrawListId| ids.contains(x) == (ids.drop_last().contains(x) || ids.last()
            == x) by {
            if ids.contains(x) {
                let i = choose|i: int| 0 <= i < ids.len() && ids[i] == x;
                if i < ids.len() - 1 {
                    assert(ids.drop_last()[i] == x);
                }
            }
            if ids.drop_last().contains(x) {
                let i = choose|i: int|
                    0 <= i < ids.drop_last().len() && ids.drop_last()[i] == x;
                assert(ids[i] == x);
            }
            assert(ids[ids.len() - 1] == ids.last());
        }
        if !before.contains(ids.last()) {
            let end = before.push(ids.last());
            assert forall|x: DrawListId| #[trigger] end.contains(x) == (before.contains(x)
                || ids.last() == x) by {
                if end.contains(x) {
                    let i = choose|i: int| 0 <= i < end.len() && end[i] == x;
                    if i < before.len() {
                        assert(before[i] == x);
                    }
                }
                if before.contains(x) {
                    let i = choose|i: int| 0 <= i < before.len() && before[i] == x;
                    assert(end[i] == x);
                }
                assert(end[before.len() as int] == ids.last());
            }
        }
    }
}

proof fn lemma_roots_are_gathered(lists: Seq<DrawList>, ids: Seq<DrawListId>, id: DrawListId)
    requires
        ids.contains(id),
    ensures
        gathered_all(lists, ids, Seq::empty(), 0).contains(id),
    decreases ids.len(),
{
    let mid = gathered_all(lists, ids.drop_last(), Seq::empty(), 0);
    let end = gathered(lists, ids.last(), mid, 0);
    lemma_gathered_extends(lists, ids.last(), mid, 0);
    lemma_prefix_contains(mid, end);
    if ids.last() == id {
        if !mid.contains(id) {
            let begun = mid.push(id);
            lemma_gathered_all_extends(lists, sub_lists_of(lists, id), begun, 1);
            assert(begun[mid.len() as int] == id);
            lemma_prefix_contains(begun, end);
        }
    } else {
        let i = choose|i: int| 0 <= i < ids.len() && ids[i] == id;
        assert(ids.drop_last()[i] == id);
        lemma_roots_are_gathered(lists, ids.drop_last(), id);
    }
}

/// Every list that an event asks to repaint is drawn, whichever of its two parts names
/// it, and none is drawn twice.
pub proof fn law_what_is_asked_for_is_drawn(tracker: &DamageTracker, lists: Seq<DrawList>)
    requires
        !tracker.paints_everything(),
    ensures
        forall|id: DrawListId|
            tracker.pending().contains(id) || tracker.pending_deep().contains(id)
                ==> #[trigger] tracker.drawn(lists).contains(id),
        tracker.drawn(lists).no_duplicates(),
{
    let deep = gathered_all(lists, tracker.pending_deep(), Seq::empty(), 0);
    lemma_with_missing_holds(deep, tracker.pending());
    assert(Seq::<DrawListId>::empty().no_duplicates());
    lemma_all_gathered_once(lists, tracker.pending_deep(), Seq::empty(), 0);
    assert forall|id: DrawListId|
        tracker.pending().contains(id) || tracker.pending_deep().contains(
            id,
        ) implies #[trigger] tracker.drawn(lists).contains(id) by {
        if tracker.pending_deep().contains(id) {
            lemma_roots_are_gathered(lists, tracker.pending_deep(), id);
        }
    }
}

/// A list that is repainted with its children brings all its sub-lists along, whatever
/// else is repainted: as long as no list stands deeper than the limit, whatever a list
/// reaches is drawn with it.
pub proof fn law_children_are_drawn(
    tracker: &DamageTracker,
    lists: Seq<DrawList>,
    rank: spec_fn(DrawListId) -> nat,
    from: DrawListId,
    to: DrawListId,
)
    requires
        !tracker.paints_everything(),
        is_height(lists, rank),
        forall|i: int|
            0 <= i < tracker.pending_deep().len() ==> rank(#[trigger] tracker.pending_deep()[i])
                <= MAX_DEPTH,
        tracker.pending_deep().contains(from),
        reaches(lists, from, to),
    ensures
        tracker.drawn(lists).contains(to),
{
    let none = Seq::<DrawListId>::empty();
    let deep = gathered_all(lists, tracker.pending_deep(), none, 0);
    let bound = (MAX_DEPTH + 1) as nat;
    lemma_all_sub_lists_are_gathered(lists, rank, tracker.pending_deep(), none, 0, bound);
    lemma_with_missing_holds(deep, tracker.pending());
    let path = choose|path: Seq<DrawListId>| #[trigger]
        is_path(lists, path) && path[0] == from && path.last() == to;
    let at = choose|i: int|
        0 <= i < tracker.pending_deep().len() && tracker.pending_deep()[i] == from;
    assert(deep.contains(tracker.pending_deep()[at]));
    lemma_path_stays_inside(lists, rank, deep, bound, path, path.len() - 1);
}

proof fn lemma_path_stays_inside(
    lists: Seq<DrawList>,
    rank: spec_fn(DrawListId) -> nat,
    ids: Seq<DrawListId>,
    bound: nat,
    path: Seq<DrawListId>,
    n: int,
)
    requires
        is_height(lists, rank),
        complete_below(lists, rank, ids, bound),
        is_path(lists, path),
        ids.contains(path[0]),
        rank(path[0]) < bound,
        0 <= n < path.len(),
    ensures
        ids.contains(path[n]),
        rank(path[n]) < bound,
    decreases n,
{
    if n > 0 {
        lemma_path_stays_inside(lists, rank, ids, bound, path, n - 1);
        let subs = sub_lists_of(lists, path[n - 1]);
        assert(subs.contains(path[n]));
        let i = choose|i: int| 0 <= i < subs.len() && subs[i] == path[n];
        assert(ids.contains(sub_lists_of(lists, path[n - 1])[i]));
        assert(rank(sub_lists_of(lists, path[n - 1])[i]) < rank(path[n - 1]));
    }
}

/// A list is found by its name: it is the first of that name whose box and sub-lists count,
/// and its box is the very rectangle that was handed over, unless that encloses no pixel.
pub proof fn law_a_list_is_taken_as_it_was_handed_over(lists: Seq<DrawList>, i: int)
    requires
        0 <= i < lists.len(),
        forall|j: int| 0 <= j < i ==> (#[trigger] lists[j]).id != lists[i].id,
    ensures
        sub_lists_of(lists, lists[i].id) == lists[i].sub_lists@,
        box_of(lists, lists[i].id) == match lists[i].painted {
            Some(r) if r.x0 < r.x1 && r.y0 < r.y1 => Some(r),
            _ => None,
        },
{
    lemma_first_of_its_name(lists, i, lists.len());
    assert(lists.take(lists.len() as int) =~= lists);
}

/// A name that no list has stands for nothing.
pub proof fn law_an_unknown_name_is_no_list(lists: Seq<DrawList>, id: DrawListId)
    requires
        forall|j: int| 0 <= j < lists.len() ==> (#[trigger] lists[j]).id != id,
    ensures
        sub_lists_of(lists, id).len() == 0,
        box_of(lists, id) is None,
    decreases lists.len(),
{
    if lists.len() > 0 {
        let fewer = lists.drop_last();
        assert(forall|j: int| 0 <= j < fewer.len() ==> #[trigger] fewer[j] == lists[j]);
        law_an_unknown_name_is_no_list(fewer, id);
        assert(lists[lists.len() - 1].id != id);
        lemma_unknown_position(fewer, id);
    }
}

proof fn lemma_unknown_position(lists: Seq<DrawList>, id: DrawListId)
    requires
        forall|j: int| 0 <= j < lists.len() ==> (#[trigger] lists[j]).id != id,
    ensures
        position_of(lists, id) is None,
    decreases lists.len(),
{
    if lists.len() > 0 {
        let fewer = lists.drop_last();
        assert(forall|j: int| 0 <= j < fewer.len() ==> #[trigger] fewer[j] == lists[j]);
        lemma_unknown_position(fewer, id);
        assert(lists[lists.len() - 1].id != id);
    }
}

proof fn lemma_first_of_its_name(lists: Seq<DrawList>, i: int, n: nat)
    requires
        0 <= i < n <= lists.len(),
        forall|j: int| 0 <= j < i ==> (#[trigger] lists[j]).id != lists[i].id,
    ensures
        position_of(lists.take(n as int), lists[i].id) == Some(i),
    decreases n,
{
    let some = lists.take(n as int);
    let fewer = lists.take(n - 1);
    assert(some.drop_last() =~= fewer);
    if i < n - 1 {
        lemma_first_of_its_name(lists, i, (n - 1) as nat);
    } else {
        assert forall|j: int| 0 <= j < fewer.len() implies (#[trigger] fewer[j]).id
            != lists[i].id by {
            assert(fewer[j] == lists[j]);
        }
        lemma_unknown_position(fewer, lists[i].id);
    }
}

/// Whatever is visible of a list that is drawn is repainted: every pixel on screen of the
/// rectangle in which the list is painted lies in the damage, if there is one.
pub proof fn law_damage_covers_what_is_painted(
    tracker: &DamageTracker,
    lists: Seq<DrawList>,
    width: i32,
    height: i32,
    i: int,
    r: DamageRect,
    x: int,
    y: int,
)
    requires
        0 <= i < lists.len(),
        forall|j: int| 0 <= j < i ==> (#[trigger] lists[j]).id != lists[i].id,
        tracker.drawn(lists).contains(lists[i].id) || tracker.pending().contains(lists[i].id)
            || tracker.pending_deep().contains(lists[i].id),
        lists[i].painted == Some(r),
        r.x0 <= x < r.x1,
        r.y0 <= y < r.y1,
        0 <= x < width,
        0 <= y < height,
    ensures
        tracker.damage(lists, width, height) matches Some(c) ==> c.x0 <= x < c.x1 && c.y0 <= y
            < c.y1,
{
    law_a_list_is_taken_as_it_was_handed_over(lists, i);
    if !tracker.paints_everything() {
        law_what_is_asked_for_is_drawn(tracker, lists);
        law_damage_covers_now_and_before(tracker, lists, width, height, lists[i].id, x, y);
    }
}

/// Where a frame has painted a list, the next frame that draws the list repaints: every
/// pixel on screen of the rectangle in which it was painted lies in the damage, if there is
/// one, wherever the list has gone since.
pub proof fn law_what_was_painted_is_repainted(
    earlier: &DamageTracker,
    earlier_lists: Seq<DrawList>,
    later: &DamageTracker,
    later_lists: Seq<DrawList>,
    width: i32,
    height: i32,
    i: int,
    r: DamageRect,
    x: int,
    y: int,
)
    requires
        later.before() == recorded(
            earlier_lists,
            earlier.before(),
            earlier.drawn(earlier_lists),
        ),
        0 <= i < earlier_lists.len(),
        forall|j: int| 0 <= j < i ==> (#[trigger] earlier_lists[j]).id != earlier_lists[i].id,
        earlier.drawn(earlier_lists).contains(earlier_lists[i].id),
        later.drawn(later_lists).contains(earlier_lists[i].id),
        earlier_lists[i].painted == Some(r),
        r.x0 <= x < r.x1,
        r.y0 <= y < r.y1,
        0 <= x < width,
        0 <= y < height,
    ensures
        later.damage(later_lists, width, height) matches Some(c) ==> c.x0 <= x < c.x1 && c.y0
            <= y < c.y1,
{
    law_a_list_is_taken_as_it_was_handed_over(earlier_lists, i);
    law_no_ghosts(
        earlier,
        earlier_lists,
        later,
        later_lists,
        width,
        height,
        earlier_lists[i].id,
        x,
        y,
    );
}

/// A frame that was asked to repaint everything, or of which nothing is known, has no damage
/// to be cut down to: the whole screen is painted, and every list is drawn.
pub proof fn law_unknown_is_the_whole_screen(
    tracker: &DamageTracker,
    lists: Seq<DrawList>,
    width: i32,
    height: i32,
)
    requires
        tracker.everything() || (tracker.pending().len() == 0 && tracker.pending_deep().len()
            == 0),
    ensures
        tracker.damage(lists, width, height) is None,
        forall|i: int|
            0 <= i < lists.len() ==> tracker.drawn(lists).contains((#[trigger] lists[i]).id),
{
    assert forall|i: int| 0 <= i < lists.len() implies tracker.drawn(lists).contains(
        (#[trigger] lists[i]).id,
    ) by {
        assert(tracker.drawn(lists)[i] == lists[i].id);
    }
}

/// Whether a rectangle encloses, of every list in `ids`, the rectangle in which it is
/// painted now and the one that is remembered of it.
pub open spec fn encloses_lists(
    around: (int, int, int, int),
    lists: Seq<DrawList>,
    before: Map<DrawListId, DamageRect>,
    ids: Seq<DrawListId>,
) -> bool {
    &&& forall|i: int|
        0 <= i < lists.len() && ids.contains((#[trigger] lists[i]).id) ==> match lists[i].painted {
            Some(r) => r.x1 <= r.x0 || r.y1 <= r.y0 || (around.0 <= r.x0 && around.1 <= r.y0
                && r.x1 <= around.2 && r.y1 <= around.3),
            None => true,
        }
    &&& forall|id: DrawListId|
        ids.contains(id) && #[trigger] before.contains_key(id) ==> around.0 <= before[id].x0
            && around.1 <= before[id].y0 && before[id].x1 <= around.2 && before[id].y1
            <= around.3
}

proof fn lemma_position_names_the_list(lists: Seq<DrawList>, id: DrawListId)
    ensures
        position_of(lists, id) matches Some(i) ==> 0 <= i < lists.len() && lists[i].id == id,
    decreases lists.len(),
{
    if lists.len() > 0 {
        lemma_position_names_the_list(lists.drop_last(), id);
    }
}

proof fn lemma_box_around_is_enclosed(
    around: (int, int, int, int),
    lists: Seq<DrawList>,
    before: Map<DrawListId, DamageRect>,
    ids: Seq<DrawListId>,
    some: Seq<DrawListId>,
)
    requires
        encloses_lists(around, lists, before, ids),
        forall|j: int| 0 <= j < some.len() ==> ids.contains(#[trigger] some[j]),
    ensures
        box_around(lists, before, some) matches Some(r) ==> around.0 <= r.x0 && around.1 <= r.y0
            && r.x1 <= around.2 && r.y1 <= around.3,
    decreases some.len(),
{
    if some.len() > 0 {
        let id = some.last();
        assert(some[some.len() - 1] == id);
        assert forall|j: int| 0 <= j < some.drop_last().len() implies ids.contains(
            #[trigger] some.drop_last()[j],
        ) by {
            assert(some.drop_last()[j] == some[j]);
        }
        lemma_box_around_is_enclosed(around, lists, before, ids, some.drop_last());
        lemma_position_names_the_list(lists, id);
        match position_of(lists, id) {
            Some(i) => {
                assert(ids.contains(lists[i].id));
            },
            None => {},
        }
    }
}

/// The damage is a part of the screen, no larger than it has to be: it holds a pixel, it
/// covers less than nine tenths of the screen, and whatever rectangle reaches around all
/// that is drawn, now and before, reaches around it.
pub proof fn law_damage_is_no_larger_than_needed(
    tracker: &DamageTracker,
    lists: Seq<DrawList>,
    width: i32,
    height: i32,
    around: (int, int, int, int),
)
    requires
        encloses_lists(around, lists, tracker.before(), tracker.drawn(lists)),
    ensures
        tracker.damage(lists, width, height) matches Some(c) ==> {
            &&& 0 <= c.x0 < c.x1 <= width
            &&& 0 <= c.y0 < c.y1 <= height
            &&& (c.x1 - c.x0) * (c.y1 - c.y0) * 10 < width * height * 9
            &&& around.0 <= c.x0 || c.x0 == 0
            &&& around.1 <= c.y0 || c.y0 == 0
            &&& c.x1 <= around.2
            &&& c.y1 <= around.3
        },
{
    let ids = tracker.drawn(lists);
    assert forall|j: int| 0 <= j < ids.len() implies ids.contains(#[trigger] ids[j]) by {}
    lemma_box_around_is_enclosed(around, lists, tracker.before(), ids, ids);
    match tracker.damage(lists, width, height) {
        Some(c) => {
            assert((c.x1 - c.x0) * (c.y1 - c.y0) >= 0) by (nonlinear_arith)
                requires
                    c.x0 < c.x1,
                    c.y0 < c.y1,
            ;
        },
        None => {},
    }
}

/// A damage is owed: where some lists are asked for, one of them shows a pixel on screen,
/// and all that is drawn, now and before, lies in a part of the screen of less than nine
/// tenths of its area, the frame is cut down.
pub proof fn law_small_changes_are_cut_down(
    tracker: &DamageTracker,
    lists: Seq<DrawList>,
    width: i32,
    height: i32,
    around: (int, int, int, int),
    i: int,
    r: DamageRect,
    x: int,
    y: int,
)
    requires
        !tracker.everything(),
        tracker.pending().contains(lists[i].id) || tracker.pending_deep().contains(lists[i].id),
        0 <= i < lists.len(),
        forall|j: int| 0 <= j < i ==> (#[trigger] lists[j]).id != lists[i].id,
        lists[i].painted == Some(r),
        r.x0 <= x < r.x1,
        r.y0 <= y < r.y1,
        0 <= x < width,
        0 <= y < height,
        encloses_lists(around, lists, tracker.before(), tracker.drawn(lists)),
        0 <= around.0,
        0 <= around.1,
        (around.2 - around.0) * (around.3 - around.1) * 10 < width * height * 9,
    ensures
        tracker.damage(lists, width, height) is Some,
{
    let ids = tracker.drawn(lists);
    if tracker.pending().contains(lists[i].id) {
        assert(tracker.pending().len() > 0);
    }
    if tracker.pending_deep().contains(lists[i].id) {
        assert(tracker.pending_deep().len() > 0);
    }
    law_what_is_asked_for_is_drawn(tracker, lists);
    law_a_list_is_taken_as_it_was_handed_over(lists, i);
    lemma_box_around_covers(lists, tracker.before(), ids, lists[i].id, x, y);
    assert forall|j: int| 0 <= j < ids.len() implies ids.contains(#[trigger] ids[j]) by {}
    lemma_box_around_is_enclosed(around, lists, tracker.before(), ids, ids);
    let d = box_around(lists, tracker.before(), ids)->0;
    let c = d.clamped(width, height);
    assert((c.x1 - c.x0) * (c.y1 - c.y0) <= (around.2 - around.0) * (around.3 - around.1))
        by (nonlinear_arith)
        requires
            0 <= c.x1 - c.x0 <= around.2 - around.0,
            0 <= c.y1 - c.y0 <= around.3 - around.1,
    ;
}

/// Nothing is drawn but what was asked for: the lists that are named, and the sub-lists of
/// those that are named with their children.
pub proof fn law_nothing_else_is_drawn(
    tracker: &DamageTracker,
    lists: Seq<DrawList>,
    id: DrawListId,
)
    requires
        !tracker.everything(),
        tracker.pending().len() > 0 || tracker.pending_deep().len() > 0,
        tracker.drawn(lists).contains(id),
    ensures
        tracker.pending().contains(id) || exists|k: int|
            0 <= k < tracker.pending_deep().len() && reaches(
                lists,
                #[trigger] tracker.pending_deep()[k],
                id,
            ),
{
    let deep = gathered_all(lists, tracker.pending_deep(), Seq::empty(), 0);
    lemma_with_missing_holds(deep, tracker.pending());
    if !tracker.pending().contains(id) {
        lemma_gathered_from_roots(lists, tracker.pending_deep(), id);
    }
}

proof fn lemma_gathered_from_roots(lists: Seq<DrawList>, roots: Seq<DrawListId>, id: DrawListId)
    requires
        gathered_all(lists, roots, Seq::empty(), 0).contains(id),
    ensures
        exists|k: int| 0 <= k < roots.len() && reaches(lists, #[trigger] roots[k], id),
    decreases roots.len(),
{
    if roots.len() > 0 {
        let front = roots.drop_last();
        let mid = gathered_all(lists, front, Seq::empty(), 0);
        law_only_sub_lists_are_gathered(lists, roots.last(), mid, 0);
        if mid.contains(id) {
            lemma_gathered_from_roots(lists, front, id);
            let k = choose|k: int| 0 <= k < front.len() && reaches(lists, #[trigger] front[k], id);
            assert(roots[k] == front[k]);
        } else {
            assert(gathered(lists, roots.last(), mid, 0).contains(id));
            assert(roots[roots.len() - 1] == roots.last());
        }
    }
}

/// Sub-lists are followed through sixty-four levels: a list that stands that many levels, or
/// fewer, below one that is repainted with its children is drawn with it, if no list contains
/// itself and none stands deeper.
pub proof fn law_sixty_four_levels_are_followed(
    tracker: &DamageTracker,
    lists: Seq<DrawList>,
    rank: spec_fn(DrawListId) -> nat,
    path: Seq<DrawListId>,
)
    requires
        !tracker.everything(),
        path.len() > 0,
        tracker.pending_deep().contains(path[0]),
        forall|n: int|
            0 < n < path.len() ==> exists|i: int|
                {
                    &&& 0 <= i < lists.len()
                    &&& (#[trigger] lists[i]).id == path[n - 1]
                    &&& lists[i].sub_lists@.contains(#[trigger] path[n])
                    &&& forall|j: int| 0 <= j < i ==> (#[trigger] lists[j]).id != lists[i].id
                },
        forall|i: int, k: int|
            0 <= i < lists.len() && 0 <= k < lists[i].sub_lists@.len() ==> rank(
                #[trigger] lists[i].sub_lists@[k],
            ) < rank(lists[i].id),
        forall|i: int|
            0 <= i < tracker.pending_deep().len() ==> rank(#[trigger] tracker.pending_deep()[i])
                <= 64,
    ensures
        tracker.drawn(lists).contains(path.last()),
{
    assert(is_height(lists, rank)) by {
        assert forall|id: DrawListId, k: int|
            0 <= k < sub_lists_of(lists, id).len() implies rank(
            #[trigger] sub_lists_of(lists, id)[k],
        ) < rank(id) by {
            lemma_position_names_the_list(lists, id);
            match position_of(lists, id) {
                Some(i) => {
                    assert(rank(lists[i].sub_lists@[k]) < rank(lists[i].id));
                },
                None => {},
            }
        }
    }
    assert(is_path(lists, path)) by {
        assert forall|n: int| 0 < n < path.len() implies sub_lists_of(
            lists,
            path[n - 1],
        ).contains(#[trigger] path[n]) by {
            let i = choose|i: int|
                {
                    &&& 0 <= i < lists.len()
                    &&& (#[trigger] lists[i]).id == path[n - 1]
                    &&& lists[i].sub_lists@.contains(path[n])
                    &&& forall|j: int| 0 <= j < i ==> (#[trigger] lists[j]).id != lists[i].id
                };
            law_a_list_is_taken_as_it_was_handed_over(lists, i);
        }
    }
    assert(reaches(lists, path[0], path.last()));
    assert(tracker.pending_deep().len() > 0);
    law_children_are_drawn(tracker, lists, rank, path[0], path.last());
}

/// Of a list that a frame notes, the rectangle in which it is painted is remembered, if that
/// holds a pixel.
pub proof fn law_the_last_box_is_remembered(
    lists: Seq<DrawList>,
    before: Map<DrawListId, DamageRect>,
    ids: Seq<DrawListId>,
    i: int,
    r: DamageRect,
)
    requires
        0 <= i < lists.len(),
        forall|j: int| 0 <= j < i ==> (#[trigger] lists[j]).id != lists[i].id,
        ids.contains(lists[i].id),
        lists[i].painted == Some(r),
        r.x0 < r.x1,
        r.y0 < r.y1,
    ensures
        recorded(lists, before, ids).contains_key(lists[i].id),
        recorded(lists, before, ids)[lists[i].id] == r,
{
    law_a_list_is_taken_as_it_was_handed_over(lists, i);
    lemma_recorded(lists, before, ids, lists[i].id);
}

/// What is remembered of a list stays, until the list is noted again; and where nothing was
/// remembered, noting other lists adds nothing.
pub proof fn law_boxes_stay_until_noted_again(
    lists: Seq<DrawList>,
    before: Map<DrawListId, DamageRect>,
    ids: Seq<DrawListId>,
    id: DrawListId,
)
    requires
        !ids.contains(id),
    ensures
        recorded(lists, before, ids).contains_key(id) == before.contains_key(id),
        before.contains_key(id) ==> recorded(lists, before, ids)[id] == before[id],
{
    lemma_recorded(lists, before, ids, id);
}

/// Noting the lists that were never noted leaves what is remembered, and remembers of every
/// other list the rectangle in which it is painted.
pub proof fn law_new_lists_are_remembered(
    lists: Seq<DrawList>,
    before: Map<DrawListId, DamageRect>,
    i: int,
    r: DamageRect,
)
    requires
        0 <= i < lists.len(),
        forall|j: int| 0 <= j < i ==> (#[trigger] lists[j]).id != lists[i].id,
        lists[i].painted == Some(r),
        r.x0 < r.x1,
        r.y0 < r.y1,
    ensures
        filled(lists, before).contains_key(lists[i].id),
        filled(lists, before)[lists[i].id] == if before.contains_key(lists[i].id) {
            before[lists[i].id]
        } else {
            r
        },
{
    law_a_list_is_taken_as_it_was_handed_over(lists, i);
    lemma_filled(lists, before, lists.len(), lists[i].id);
    assert(all_ids(lists).take(lists.len() as int)[i] == lists[i].id);
}

/// The area counts pixels: a single pixel has the area one, and the areas of the two parts
/// into which a rectangle is cut, by a column or by a row, add up to its own.
pub proof fn law_area_counts_pixels(a: DamageRect, cut: i32)
    ensures
        a.x1 == a.x0 + 1 && a.y1 == a.y0 + 1 ==> a.pixel_count() == 1,
        a.x0 <= cut <= a.x1 ==> a.pixel_count() == (DamageRect { x1: cut, ..a }).pixel_count() + (
        DamageRect { x0: cut, ..a }).pixel_count(),
        a.y0 <= cut <= a.y1 ==> a.pixel_count() == (DamageRect { y1: cut, ..a }).pixel_count() + (
        DamageRect { y0: cut, ..a }).pixel_count(),
{
    let (w, h) = (a.x1 - a.x0, a.y1 - a.y0);
    assert(w == 1 && h == 1 ==> w * h == 1) by (nonlinear_arith);
    assert(w >= 0 && h >= 0 ==> w * h >= 0) by (nonlinear_arith);
    let (l, r) = (cut - a.x0, a.x1 - cut);
    assert(l * h + r * h == (l + r) * h) by (nonlinear_arith);
    assert(l >= 0 && h >= 0 ==> l * h >= 0) by (nonlinear_arith);
    assert(r >= 0 && h >= 0 ==> r * h >= 0) by (nonlinear_arith);
    let (t, b) = (cut - a.y0, a.y1 - cut);
    assert(w * t + w * b == w * (t + b)) by (nonlinear_arith);
    assert(w >= 0 && t >= 0 ==> w * t >= 0) by (nonlinear_arith);
    assert(w >= 0 && b >= 0 ==> w * b >= 0) by (nonlinear_arith);
    assert(0 * h == 0 && w * 0 == 0) by (nonlinear_arith);
}

/// The computation of the damage is off, but for two settings.
pub proof fn law_damage_is_off_unless_asked_for(setting: Option<&str>)
    ensures
        switched_on(setting) <==> (setting matches Some(s) && (s@ == seq!['1'] || s@ == seq![
            't',
            'r',
            'u',
            'e',
        ])),
{
    reveal_strlit("1");
    reveal_strlit("true");
    assert("1"@ =~= seq!['1']);
    assert("true"@ =~= seq!['t', 'r', 'u', 'e']);
}

/// The rectangles that the operations on rectangles give, side by side.
pub proof fn law_rectangles_are_what_their_sides_say(
    a: DamageRect,
    b: DamageRect,
    width: i32,
    height: i32,
    union: DamageRect,
    cut: DamageRect,
    empty: bool,
    area: u64,
)
    requires
        call_ensures(DamageRect::union, (a, b), union),
        call_ensures(DamageRect::clamp, (a, width, height), cut),
        call_ensures(DamageRect::is_empty, (&a,), empty),
        call_ensures(DamageRect::area, (&a,), area),
    ensures
        union.x0 <= a.x0 && union.x0 <= b.x0 && (union.x0 == a.x0 || union.x0 == b.x0),
        union.y0 <= a.y0 && union.y0 <= b.y0 && (union.y0 == a.y0 || union.y0 == b.y0),
        union.x1 >= a.x1 && union.x1 >= b.x1 && (union.x1 == a.x1 || union.x1 == b.x1),
        union.y1 >= a.y1 && union.y1 >= b.y1 && (union.y1 == a.y1 || union.y1 == b.y1),
        forall|x: int, y: int|
            #![trigger cut.has(x, y)]
            (cut.x0 <= x < cut.x1 && cut.y0 <= y < cut.y1) <==> (a.x0 <= x < a.x1 && a.y0 <= y
                < a.y1 && 0 <= x < width && 0 <= y < height),
        empty <==> a.x1 <= a.x0 || a.y1 <= a.y0,
        empty ==> area == 0,
        !empty ==> area == (a.x1 - a.x0) * (a.y1 - a.y0),
{
}

/// The box of a list is the very rectangle in which it is painted, unless that holds no pixel.
pub proof fn law_the_box_of_a_list_is_where_it_is_painted(
    lists: &Vec<DrawList>,
    i: int,
    r: Option<DamageRect>,
)
    requires
        0 <= i < lists@.len(),
        forall|j: int| 0 <= j < i ==> (#[trigger] lists@[j]).id != lists@[i].id,
        call_ensures(rect_de_lista, (lists, lists@[i].id), r),
    ensures
        match lists@[i].painted {
            Some(p) => if p.x0 < p.x1 && p.y0 < p.y1 {
                r == Some(p)
            } else {
                r is None
            },
            None => r is None,
        },
{
    law_a_list_is_taken_as_it_was_handed_over(lists@, i);
}

/// A frame repaints what its event asks for: what was noted of an event is what the damage of
/// the frame is computed from, and every pixel on screen in which a list that the event names
/// is painted lies in it, if there is one.
pub proof fn law_a_frame_repaints_what_its_event_names(
    observed: &mut DamageTracker,
    ev: &DrawEvent,
    computed: &mut DamageTracker,
    lists: &Vec<DrawList>,
    width: i32,
    height: i32,
    r: Option<DamageRect>,
    i: int,
    painted: DamageRect,
    x: int,
    y: int,
)
    requires
        call_ensures(DamageTracker::observar, (observed, ev), ()),
        *old(computed) == *final(observed),
        call_ensures(DamageTracker::calcular, (computed, lists, width, height), r),
        0 <= i < lists@.len(),
        forall|j: int| 0 <= j < i ==> (#[trigger] lists@[j]).id != lists@[i].id,
        ev.draw_lists@.contains(lists@[i].id) || ev.draw_lists_and_children@.contains(lists@[i].id),
        lists@[i].painted == Some(painted),
        painted.x0 <= x < painted.x1,
        painted.y0 <= y < painted.y1,
        0 <= x < width,
        0 <= y < height,
    ensures
        r matches Some(c) ==> c.x0 <= x < c.x1 && c.y0 <= y < c.y1 && 0 <= c.x0 && c.x1 <= width
            && 0 <= c.y0 && c.y1 <= height && (c.x1 - c.x0) * (c.y1 - c.y0) * 10 < width * height
            * 9,
        ev.redraw_all ==> r is None,
{
    let t = *old(computed);
    law_damage_covers_what_is_painted(&t, lists@, width, height, i, painted, x, y);
    match r {
        Some(c) => {
            assert((c.x1 - c.x0) * (c.y1 - c.y0) >= 0) by (nonlinear_arith)
                requires
                    c.x0 < c.x1,
                    c.y0 < c.y1,
            ;
        },
        None => {},
    }
}

/// A frame leaves no ghosts: where a frame has painted a list that its event names, the next
/// frame whose event names the list repaints, wherever the list is painted then.
pub proof fn law_the_next_frame_repaints_what_this_one_painted(
    observed: &mut DamageTracker,
    ev: &DrawEvent,
    computed: &mut DamageTracker,
    lists: &Vec<DrawList>,
    r: Option<DamageRect>,
    observed_next: &mut DamageTracker,
    ev_next: &DrawEvent,
    computed_next: &mut DamageTracker,
    lists_next: &Vec<DrawList>,
    r_next: Option<DamageRect>,
    width: i32,
    height: i32,
    i: int,
    painted: DamageRect,
    x: int,
    y: int,
)
    requires
        call_ensures(DamageTracker::observar, (observed, ev), ()),
        *old(computed) == *final(observed),
        call_ensures(DamageTracker::calcular, (computed, lists, width, height), r),
        *old(observed_next) == *final(computed),
        call_ensures(DamageTracker::observar, (observed_next, ev_next), ()),
        *old(computed_next) == *final(observed_next),
        call_ensures(DamageTracker::calcular, (computed_next, lists_next, width, height), r_next),
        0 <= i < lists@.len(),
        forall|j: int| 0 <= j < i ==> (#[trigger] lists@[j]).id != lists@[i].id,
        ev.redraw_all || ev.draw_lists@.contains(lists@[i].id)
            || ev.draw_lists_and_children@.contains(lists@[i].id),
        ev_next.draw_lists@.contains(lists@[i].id) || ev_next.draw_lists_and_children@.contains(
            lists@[i].id,
        ),
        lists@[i].painted == Some(painted),
        painted.x0 <= x < painted.x1,
        painted.y0 <= y < painted.y1,
        0 <= x < width,
        0 <= y < height,
    ensures
        r_next matches Some(c) ==> c.x0 <= x < c.x1 && c.y0 <= y < c.y1,
{
    let earlier = *old(computed);
    let later = *old(computed_next);
    let id = lists@[i].id;
    if earlier.paints_everything() {
        law_unknown_is_the_whole_screen(&earlier, lists@, width, height);
        assert(earlier.drawn(lists@).contains(lists@[i].id));
    } else {
        law_what_is_asked_for_is_drawn(&earlier, lists@);
    }
    if !later.paints_everything() {
        law_what_is_asked_for_is_drawn(&later, lists_next@);
        law_what_was_painted_is_repainted(
            &earlier,
            lists@,
            &later,
            lists_next@,
            width,
            height,
            i,
            painted,
            x,
            y,
        );
    }
}

/// The computation of the damage is asked for by one of two settings, and by no other.
pub proof fn law_the_damage_is_computed_when_asked_for(setting: Option<&str>, r: bool)
    requires
        call_ensures(damage_enabled, (setting,), r),
    ensures
        r <==> (setting matches Some(s) && (s@ == seq!['1'] || s@ == seq!['t', 'r', 'u', 'e'])),
{
    law_damage_is_off_unless_asked_for(setting);
}

/// Noting everything remembers where each list is painted, whatever was remembered; noting
/// what is new leaves what is remembered, and adds the rest. Neither changes what is asked
/// for.
pub proof fn law_calls_note_where_lists_are_painted(
    all: &mut DamageTracker,
    new: &mut DamageTracker,
    lists: &Vec<DrawList>,
    i: int,
    r: DamageRect,
)
    requires
        call_ensures(DamageTracker::anotar_todo, (all, lists), ()),
        call_ensures(DamageTracker::anotar_nuevas, (new, lists), ()),
        0 <= i < lists@.len(),
        forall|j: int| 0 <= j < i ==> (#[trigger] lists@[j]).id != lists@[i].id,
        lists@[i].painted == Some(r),
        r.x0 < r.x1,
        r.y0 < r.y1,
    ensures
        ({
            let id = lists@[i].id;
            &&& final(all).before().contains_key(id)
            &&& final(all).before()[id] == r
            &&& final(new).before().contains_key(id)
            &&& final(new).before()[id] == if old(new).before().contains_key(id) {
                old(new).before()[id]
            } else {
                r
            }
        }),
        final(all).pending() == old(all).pending(),
        final(all).pending_deep() == old(all).pending_deep(),
        final(all).everything() == old(all).everything(),
        final(new).pending() == old(new).pending(),
        final(new).pending_deep() == old(new).pending_deep(),
        final(new).everything() == old(new).everything(),
{
    assert(all_ids(lists@)[i] == lists@[i].id);
    law_the_last_box_is_remembered(lists@, old(all).before(), all_ids(lists@), i, r);
    law_new_lists_are_remembered(lists@, old(new).before(), i, r);
}

} // verus!
