//! In which order the draw calls of a pass are painted, and what has to be there before
//! one is.

use crate::chunks;
use crate::text;
use vstd::prelude::*;

verus! {

/// The text by which the shader of text is recognized.
pub const TEXT_SHADER_MARK: &'static str = "sample_text_pixel";

/// The number of uniform buffers that a shader can be given.
pub const MAX_UNIFORM_BUFS: usize = 16;

/// What stands at a place of a draw list.
#[derive(Clone, Copy, Debug, PartialEq, Eq, Structural)]
pub enum ItemKind {
    Empty,
    SubList(usize),
    DrawCall,
}

/// A draw list, as far as the order of painting depends on it.
pub struct RenderList {
    /// The items in painting order; none where an order place is vacant.
    pub order: Vec<Option<usize>>,
    pub items: Vec<ItemKind>,
    /// Whether the depth bias starts again from zero in this list.
    pub reset_zbias: bool,
}

/// A draw call that is painted: the item `item` of the list `list`. Its depth bias is
/// the bias step of the pass, taken `zbias` times.
#[derive(Clone, Copy, Debug, PartialEq, Eq, Structural)]
pub struct DrawStep {
    pub list: usize,
    pub item: usize,
    pub zbias: usize,
}

/// The item at a place of the painting order, if it is not vacant.
pub open spec fn item_at(list: RenderList, place: int) -> ItemKind {
    match list.order@[place] {
        Some(item) => list.items@[item as int],
        None => ItemKind::Empty,
    }
}

/// Whether every item in the painting order exists, and every sub-list does.
pub open spec fn lists_valid(lists: Seq<RenderList>) -> bool {
    forall|l: int, place: int|
        0 <= l < lists.len() && 0 <= place < lists[l].order@.len() ==> {
            &&& ((#[trigger] lists[l].order@[place]) matches Some(item) ==> item
                < lists[l].items@.len())
            &&& (item_at(lists[l], place) matches ItemKind::SubList(sub) ==> sub < lists.len())
        }
}

/// Whether `rank` falls from every list to its sub-lists, so that no list contains
/// itself.
pub open spec fn is_rank(lists: Seq<RenderList>, rank: spec_fn(int) -> nat) -> bool {
    forall|l: int, place: int|
        0 <= l < lists.len() && 0 <= place < lists[l].order@.len() ==> (#[trigger] item_at(
            lists[l],
            place,
        ) matches ItemKind::SubList(sub) ==> rank(sub as int) < rank(l))
}

/// The draw calls of a list and its sub-lists in painting order, when `z` draw calls
/// count towards the depth bias already; and how many count afterwards.
pub open spec fn steps_of(
    lists: Seq<RenderList>,
    rank: spec_fn(int) -> nat,
    list: int,
    z: nat,
) -> (Seq<DrawStep>, nat)
    decreases rank(list), lists[list].order@.len() + 1,
{
    steps_up_to(lists, rank, list, z, lists[list].order@.len())
}

/// The draw calls up to the place `n` of a list's painting order.
pub open spec fn steps_up_to(
    lists: Seq<RenderList>,
    rank: spec_fn(int) -> nat,
    list: int,
    z: nat,
    n: nat,
) -> (Seq<DrawStep>, nat)
    decreases rank(list), n,
{
    if n == 0 {
        (Seq::empty(), z)
    } else {
        let (steps, count) = steps_up_to(lists, rank, list, z, (n - 1) as nat);
        match item_at(lists[list], n - 1) {
            ItemKind::Empty => (steps, count),
            ItemKind::DrawCall => (
                steps.push(
                    DrawStep {
                        list: list as usize,
                        item: lists[list].order@[n - 1]->0,
                        zbias: count as usize,
                    },
                ),
                count + 1,
            ),
            ItemKind::SubList(sub) => if rank(sub as int) < rank(list) {
                if lists[sub as int].reset_zbias {
                    (steps + steps_of(lists, rank, sub as int, 0).0, count)
                } else {
                    let (more, end) = steps_of(lists, rank, sub as int, count);
                    (steps + more, end)
                }
            } else {
                (steps, count)
            },
        }
    }
}

/// The order does not depend on the ranks by which it is measured.
proof fn lemma_rank_does_not_matter(
    lists: Seq<RenderList>,
    a: spec_fn(int) -> nat,
    b: spec_fn(int) -> nat,
    list: int,
    z: nat,
    n: nat,
)
    requires
        lists_valid(lists),
        is_rank(lists, a),
        is_rank(lists, b),
        0 <= list < lists.len(),
        n <= lists[list].order@.len(),
    ensures
        steps_up_to(lists, a, list, z, n) == steps_up_to(lists, b, list, z, n),
    decreases a(list), n,
{
    if n > 0 {
        lemma_rank_does_not_matter(lists, a, b, list, z, (n - 1) as nat);
        let (steps, count) = steps_up_to(lists, a, list, z, (n - 1) as nat);
        match item_at(lists[list], n - 1) {
            ItemKind::SubList(sub) => {
                let sub_len = lists[sub as int].order@.len();
                assert(lists[list].order@[n - 1] is Some);
                assert(steps_of(lists, a, sub as int, 0) == steps_up_to(
                    lists,
                    a,
                    sub as int,
                    0,
                    sub_len,
                ));
                assert(steps_of(lists, b, sub as int, 0) == steps_up_to(
                    lists,
                    b,
                    sub as int,
                    0,
                    sub_len,
                ));
                assert(steps_of(lists, a, sub as int, count) == steps_up_to(
                    lists,
                    a,
                    sub as int,
                    count,
                    sub_len,
                ));
                assert(steps_of(lists, b, sub as int, count) == steps_up_to(
                    lists,
                    b,
                    sub as int,
                    count,
                    sub_len,
                ));
                lemma_rank_does_not_matter(lists, a, b, sub as int, 0, sub_len);
                lemma_rank_does_not_matter(lists, a, b, sub as int, count, sub_len);
            },
            _ => {},
        }
    }
}

/// Collects the draw calls of a list and its sub-lists, in painting order. `z` counts
/// the draw calls that count towards the depth bias.
fn collect_steps(
    lists: &Vec<RenderList>,
    list: usize,
    z: usize,
    out: &mut Vec<DrawStep>,
    Ghost(rank): Ghost<spec_fn(int) -> nat>,
) -> (end: usize)
    requires
        lists_valid(lists@),
        is_rank(lists@, rank),
        list < lists@.len(),
        z <= old(out)@.len(),
    ensures
        final(out)@ == old(out)@ + steps_of(lists@, rank, list as int, z as nat).0,
        end == steps_of(lists@, rank, list as int, z as nat).1,
        end <= final(out)@.len(),
    decreases rank(list as int),
{
    let ghost before = out@;
    let mut count: usize = z;
    let mut i: usize = 0;
    assert(out@ =~= before + steps_up_to(lists@, rank, list as int, z as nat, 0).0);
    while i < lists[list].order.len()
        invariant
            lists_valid(lists@),
            is_rank(lists@, rank),
            list < lists@.len(),
            i <= lists@[list as int].order@.len(),
            out@ == before + steps_up_to(lists@, rank, list as int, z as nat, i as nat).0,
            count == steps_up_to(lists@, rank, list as int, z as nat, i as nat).1,
            count <= out@.len(),
        decreases lists@[list as int].order@.len() - i,
    {
        let ghost (steps, counted) = steps_up_to(lists@, rank, list as int, z as nat, i as nat);
        match lists[list].order[i] {
            None => {},
            Some(item) => {
                match lists[list].items[item] {
                    ItemKind::Empty => {},
                    ItemKind::DrawCall => {
                        let step = DrawStep { list, item, zbias: count };
                        out.push(step);
                        assert(out@ =~= before + steps.push(step));
                        let painted: usize = out.len();
                        assert(count < painted);
                        count = count + 1;
                    },
                    ItemKind::SubList(sub) => {
                        if lists[sub].reset_zbias {
                            let ghost more = steps_of(lists@, rank, sub as int, 0).0;
                            collect_steps(lists, sub, 0, out, Ghost(rank));
                            assert(before + steps + more =~= before + (steps + more));
                        } else {
                            let ghost more = steps_of(lists@, rank, sub as int, count as nat).0;
                            count = collect_steps(lists, sub, count, out, Ghost(rank));
                            assert(before + steps + more =~= before + (steps + more));
                        }
                    },
                }
            },
        }
        i = i + 1;
    }
    count
}

/// The draw calls of a list and its sub-lists in painting order, each with its depth
/// bias. A list whose bias starts again from zero does not disturb the count around it.
pub fn painting_order(lists: &Vec<RenderList>, list: usize) -> (r: Vec<DrawStep>)
    requires
        lists_valid(lists@),
        exists|rank: spec_fn(int) -> nat| is_rank(lists@, rank),
        list < lists@.len(),
    ensures
        forall|rank: spec_fn(int) -> nat| #[trigger]
            is_rank(lists@, rank) ==> r@ == steps_of(lists@, rank, list as int, 0).0,
{
    let ghost some = choose|rank: spec_fn(int) -> nat| is_rank(lists@, rank);
    let mut out: Vec<DrawStep> = Vec::new();
    let ghost start = out@;
    let _end: usize = collect_steps(lists, list, 0, &mut out, Ghost(some));
    proof {
        let steps = steps_of(lists@, some, list as int, 0).0;
        assert(start + steps =~= steps);
        assert forall|rank: spec_fn(int) -> nat| #[trigger] is_rank(lists@, rank) implies out@
            == steps_of(lists@, rank, list as int, 0).0 by {
            lemma_rank_does_not_matter(
                lists@,
                some,
                rank,
                list as int,
                0,
                lists@[list as int].order@.len(),
            );
        }
    }
    out
}

/// What a pass paints: the draw calls in order, and the number of bands if they are
/// noted first and then painted band by band.
pub struct PassPlan {
    pub steps: Vec<DrawStep>,
    pub bands: Option<usize>,
}

/// Plans a pass. One that has no list of its own paints nothing.
pub fn headless_draw_pass(
    lists: &Vec<RenderList>,
    main_list: Option<usize>,
    bands_setting: Option<&str>,
) -> (r: PassPlan)
    requires
        lists_valid(lists@),
        exists|rank: spec_fn(int) -> nat| is_rank(lists@, rank),
        main_list matches Some(list) ==> list < lists@.len(),
    ensures
        match main_list {
            None => r.steps@.len() == 0 && r.bands is None,
            Some(list) => {
                &&& forall|rank: spec_fn(int) -> nat| #[trigger]
                    is_rank(lists@, rank) ==> r.steps@ == steps_of(lists@, rank, list as int, 0).0
                &&& match chunks::setting_value(bands_setting) {
                    Some(n) if n > 1 => r.bands matches Some(b) && b == n,
                    _ => r.bands is None,
                }
            },
        },
{
    match main_list {
        None => PassPlan { steps: Vec::new(), bands: None },
        Some(list) => PassPlan {
            steps: painting_order(lists, list),
            bands: chunks::configured_bands(bands_setting),
        },
    }
}

/// Where no list starts its depth bias again, the draw calls count it up one by one in
/// painting order: what is painted later lies in front.
pub proof fn law_later_draws_lie_in_front(
    lists: Seq<RenderList>,
    rank: spec_fn(int) -> nat,
    list: int,
    z: nat,
    n: nat,
)
    requires
        lists_valid(lists),
        is_rank(lists, rank),
        0 <= list < lists.len(),
        n <= lists[list].order@.len(),
        forall|l: int| 0 <= l < lists.len() ==> !(#[trigger] lists[l]).reset_zbias,
        z + steps_up_to(lists, rank, list, z, n).0.len() <= usize::MAX,
    ensures
        steps_up_to(lists, rank, list, z, n).1 == z + steps_up_to(lists, rank, list, z, n).0.len(),
        forall|i: int|
            0 <= i < steps_up_to(lists, rank, list, z, n).0.len() ==> (#[trigger] steps_up_to(
                lists,
                rank,
                list,
                z,
                n,
            ).0[i]).zbias == z + i,
    decreases rank(list), n,
{
    if n > 0 {
        let (steps, count) = steps_up_to(lists, rank, list, z, (n - 1) as nat);
        match item_at(lists[list], n - 1) {
            ItemKind::Empty => {
                law_later_draws_lie_in_front(lists, rank, list, z, (n - 1) as nat);
            },
            ItemKind::DrawCall => {
                law_later_draws_lie_in_front(lists, rank, list, z, (n - 1) as nat);
            },
            ItemKind::SubList(sub) => {
                assert(lists[list].order@[n - 1] is Some);
                assert(steps_of(lists, rank, sub as int, count) == steps_up_to(
                    lists,
                    rank,
                    sub as int,
                    count,
                    lists[sub as int].order@.len(),
                ));
                law_later_draws_lie_in_front(lists, rank, list, z, (n - 1) as nat);
                law_later_draws_lie_in_front(
                    lists,
                    rank,
                    sub as int,
                    count,
                    lists[sub as int].order@.len(),
                );
            },
        }
    }
}

/// A sub-list whose depth bias starts again leaves the count around it as it was.
pub proof fn law_reset_lists_keep_the_count(
    lists: Seq<RenderList>,
    rank: spec_fn(int) -> nat,
    list: int,
    z: nat,
    n: nat,
)
    requires
        0 < n <= lists[list].order@.len(),
        item_at(lists[list], n - 1) matches ItemKind::SubList(sub)
            && lists[sub as int].reset_zbias,
    ensures
        steps_up_to(lists, rank, list, z, n).1 == steps_up_to(lists, rank, list, z, (n - 1) as nat).1,
{
}

/// Whether the items in the painting order of a list exist, and its sub-lists do.
fn list_is_valid(lists: &Vec<RenderList>, list: usize) -> (r: bool)
    requires
        list < lists@.len(),
    ensures
        r == (forall|place: int|
            0 <= place < lists@[list as int].order@.len() ==> {
                &&& ((#[trigger] lists@[list as int].order@[place]) matches Some(item) ==> item
                    < lists@[list as int].items@.len())
                &&& (item_at(lists@[list as int], place) matches ItemKind::SubList(sub) ==> sub
                    < lists@.len())
            }),
{
    let mut i: usize = 0;
    while i < lists[list].order.len()
        invariant
            list < lists@.len(),
            i <= lists@[list as int].order@.len(),
            forall|place: int|
                0 <= place < i ==> {
                    &&& ((#[trigger] lists@[list as int].order@[place]) matches Some(item)
                        ==> item < lists@[list as int].items@.len())
                    &&& (item_at(lists@[list as int], place) matches ItemKind::SubList(sub)
                        ==> sub < lists@.len())
                },
        decreases lists@[list as int].order@.len() - i,
    {
        let ghost here = lists@[list as int].order@[i as int];
        match lists[list].order[i] {
            None => {},
            Some(item) => {
                if item >= lists[list].items.len() {
                    return false;
                }
                match lists[list].items[item] {
                    ItemKind::SubList(sub) => {
                        if sub >= lists.len() {
                            assert(item_at(lists@[list as int], i as int) == ItemKind::SubList(
                                sub,
                            ));
                            return false;
                        }
                    },
                    _ => {},
                }
            },
        }
        i = i + 1;
    }
    true
}

/// Whether a list is known to stand above all of its sub-lists, by the marks they have.
spec fn subs_marked(lists: Seq<RenderList>, marks: Seq<Option<usize>>, list: int) -> bool {
    forall|place: int|
        0 <= place < lists[list].order@.len() ==> (#[trigger] item_at(
            lists[list],
            place,
        ) matches ItemKind::SubList(sub) ==> marks[sub as int] is Some)
}

/// Whether the marks fall from every marked list to its sub-lists.
spec fn marks_fall(lists: Seq<RenderList>, marks: Seq<Option<usize>>) -> bool {
    &&& marks.len() == lists.len()
    &&& forall|l: int, place: int|
        0 <= l < lists.len() && marks[l] is Some && 0 <= place < lists[l].order@.len() ==> (
        #[trigger] item_at(lists[l], place) matches ItemKind::SubList(sub) ==> marks[sub as int]
            is Some && marks[sub as int]->0 < marks[l]->0)
}

fn all_subs_marked(lists: &Vec<RenderList>, marks: &Vec<Option<usize>>, list: usize) -> (r: bool)
    requires
        lists_valid(lists@),
        list < lists@.len(),
        marks@.len() == lists@.len(),
    ensures
        r == subs_marked(lists@, marks@, list as int),
{
    let mut i: usize = 0;
    while i < lists[list].order.len()
        invariant
            lists_valid(lists@),
            list < lists@.len(),
            marks@.len() == lists@.len(),
            i <= lists@[list as int].order@.len(),
            forall|place: int|
                0 <= place < i ==> (#[trigger] item_at(
                    lists@[list as int],
                    place,
                ) matches ItemKind::SubList(sub) ==> marks@[sub as int] is Some),
        decreases lists@[list as int].order@.len() - i,
    {
        match lists[list].order[i] {
            None => {
                assert(item_at(lists@[list as int], i as int) == ItemKind::Empty);
            },
            Some(item) => {
                match lists[list].items[item] {
                    ItemKind::SubList(sub) => {
                        assert(item_at(lists@[list as int], i as int) == ItemKind::SubList(sub));
                        if marks[sub].is_none() {
                            return false;
                        }
                    },
                    _ => {},
                }
            },
        }
        i = i + 1;
    }
    true
}

/// How many lists are not marked.
spec fn unmarked(marks: Seq<Option<usize>>) -> nat
    decreases marks.len(),
{
    if marks.len() == 0 {
        0
    } else {
        unmarked(marks.drop_last()) + if marks.last() is None {
            1nat
        } else {
            0nat
        }
    }
}

proof fn lemma_mark_one(marks: Seq<Option<usize>>, l: int, mark: usize)
    requires
        0 <= l < marks.len(),
        marks[l] is None,
    ensures
        unmarked(marks.update(l, Some(mark))) + 1 == unmarked(marks),
    decreases marks.len(),
{
    let later = marks.update(l, Some(mark));
    if l == marks.len() - 1 {
        assert(later.drop_last() =~= marks.drop_last());
    } else {
        assert(later.drop_last() =~= marks.drop_last().update(l, Some(mark)));
        lemma_mark_one(marks.drop_last(), l, mark);
    }
}

proof fn lemma_unmarked_bound(marks: Seq<Option<usize>>)
    ensures
        unmarked(marks) <= marks.len(),
        unmarked(marks) == 0 <==> (forall|l: int| 0 <= l < marks.len() ==> #[trigger] marks[l]
            is Some),
    decreases marks.len(),
{
    if marks.len() > 0 {
        lemma_unmarked_bound(marks.drop_last());
        assert(forall|l: int| 0 <= l < marks.len() - 1 ==> marks.drop_last()[l] == marks[l]);
        assert(marks[marks.len() - 1] == marks.last());
        if unmarked(marks) == 0 {
            assert forall|l: int| 0 <= l < marks.len() implies #[trigger] marks[l] is Some by {
                if l < marks.len() - 1 {
                    assert(marks.drop_last()[l] is Some);
                }
            }
        }
        if forall|l: int| 0 <= l < marks.len() ==> #[trigger] marks[l] is Some {
            assert forall|l: int| 0 <= l < marks.drop_last().len() implies #[trigger] marks.drop_last()[l]
                is Some by {
                assert(marks[l] is Some);
            }
        }
    }
}

/// If every list without a mark has a sub-list without one, the lists go in a circle: a
/// rank could fall for ever.
proof fn lemma_circle(
    lists: Seq<RenderList>,
    marks: Seq<Option<usize>>,
    rank: spec_fn(int) -> nat,
    l: int,
)
    requires
        lists_valid(lists),
        marks.len() == lists.len(),
        forall|m: int|
            0 <= m < lists.len() && (#[trigger] marks[m]) is None ==> !subs_marked(lists, marks, m),
        0 <= l < lists.len(),
        marks[l] is None,
    ensures
        !is_rank(lists, rank),
    decreases rank(l),
{
    assert(!subs_marked(lists, marks, l));
    let place = choose|place: int|
        0 <= place < lists[l].order@.len() && !(#[trigger] item_at(
            lists[l],
            place,
        ) matches ItemKind::SubList(sub) ==> marks[sub as int] is Some);
    match item_at(lists[l], place) {
        ItemKind::SubList(sub) => {
            assert(lists[l].order@[place] is Some);
            if is_rank(lists, rank) {
                lemma_circle(lists, marks, rank, sub as int);
            }
        },
        _ => {},
    }
}

/// Whether the painting order of some lists can be told: whatever it names exists, and
/// no list contains itself.
pub fn lists_are_sound(lists: &Vec<RenderList>) -> (r: bool)
    ensures
        r == (lists_valid(lists@) && exists|rank: spec_fn(int) -> nat| is_rank(lists@, rank)),
{
    let mut v: usize = 0;
    while v < lists.len()
        invariant
            v <= lists@.len(),
            forall|l: int, place: int|
                0 <= l < v && 0 <= place < lists@[l].order@.len() ==> {
                    &&& ((#[trigger] lists@[l].order@[place]) matches Some(item) ==> item
                        < lists@[l].items@.len())
                    &&& (item_at(lists@[l], place) matches ItemKind::SubList(sub) ==> sub
                        < lists@.len())
                },
        decreases lists@.len() - v,
    {
        if !list_is_valid(lists, v) {
            assert(!lists_valid(lists@));
            return false;
        }
        v = v + 1;
    }
    assert(lists_valid(lists@));
    let n: usize = lists.len();
    let mut marks: Vec<Option<usize>> = Vec::new();
    while marks.len() < n
        invariant
            marks@.len() <= n,
            n == lists@.len(),
            forall|l: int| 0 <= l < marks@.len() ==> #[trigger] marks@[l] is None,
        decreases n - marks@.len(),
    {
        marks.push(None);
    }
    let mut next: usize = 0;
    proof {
        lemma_unmarked_bound(marks@);
        lemma_unmarked_at_most(marks@);
    }
    let mut progress: bool = true;
    while progress
        invariant
            lists_valid(lists@),
            n == lists@.len(),
            marks_fall(lists@, marks@),
            next + unmarked(marks@) == n,
            forall|l: int| 0 <= l < n ==> ((#[trigger] marks@[l]) matches Some(m) ==> m < next),
            !progress ==> forall|k: int|
                0 <= k < n && (#[trigger] marks@[k]) is None ==> !subs_marked(lists@, marks@, k),
        decreases
                unmarked(marks@),
                if progress {
                    1nat
                } else {
                    0nat
                },
    {
        let ghost before = marks@;
        let mut l: usize = 0;
        progress = false;
        while l < n
            invariant
                lists_valid(lists@),
                n == lists@.len(),
                l <= n,
                marks_fall(lists@, marks@),
                next + unmarked(marks@) == n,
                forall|k: int|
                    0 <= k < n ==> ((#[trigger] marks@[k]) matches Some(m) ==> m < next),
                progress ==> unmarked(marks@) < unmarked(before),
                !progress ==> marks@ == before,
                !progress ==> forall|k: int|
                    0 <= k < l && (#[trigger] marks@[k]) is None ==> !subs_marked(
                        lists@,
                        marks@,
                        k,
                    ),
            decreases n - l,
        {
            if marks[l].is_none() && all_subs_marked(lists, &marks, l) {
                proof {
                    lemma_mark_one(marks@, l as int, next);
                    let later = marks@.update(l as int, Some(next));
                    assert(marks_fall(lists@, later)) by {
                        assert forall|a: int, place: int|
                            0 <= a < lists@.len() && later[a] is Some && 0 <= place
                                < lists@[a].order@.len() implies (#[trigger] item_at(
                            lists@[a],
                            place,
                        ) matches ItemKind::SubList(sub) ==> later[sub as int] is Some
                            && later[sub as int]->0 < later[a]->0) by {
                            match item_at(lists@[a], place) {
                                ItemKind::SubList(sub) => {
                                    assert(lists@[a].order@[place] is Some);
                                    assert(marks@[sub as int] is Some);
                                    assert(marks@[l as int] is None);
                                },
                                _ => {},
                            }
                        }
                    }
                }
                marks.set(l, Some(next));
                next = next + 1;
                progress = true;
            }
            l = l + 1;
        }
    }
    let mut l: usize = 0;
    while l < n
        invariant
            lists_valid(lists@),
            n == lists@.len(),
            l <= n,
            marks_fall(lists@, marks@),
            forall|k: int|
                0 <= k < n && (#[trigger] marks@[k]) is None ==> !subs_marked(lists@, marks@, k),
            forall|k: int| 0 <= k < l ==> #[trigger] marks@[k] is Some,
        decreases n - l,
    {
        if marks[l].is_none() {
            proof {
                if exists|rank: spec_fn(int) -> nat| is_rank(lists@, rank) {
                    let rank = choose|rank: spec_fn(int) -> nat| is_rank(lists@, rank);
                    lemma_circle(lists@, marks@, rank, l as int);
                }
            }
            return false;
        }
        l = l + 1;
    }
    proof {
        let rank = |l: int|
            if 0 <= l < marks@.len() {
                marks@[l]->0 as nat
            } else {
                0nat
            };
        assert(is_rank(lists@, rank)) by {
            assert forall|a: int, place: int|
                0 <= a < lists@.len() && 0 <= place < lists@[a].order@.len() implies (
            #[trigger] item_at(lists@[a], place) matches ItemKind::SubList(sub) ==> rank(
                sub as int,
            ) < rank(a)) by {
                assert(marks@[a] is Some);
                match item_at(lists@[a], place) {
                    ItemKind::SubList(sub) => {
                        assert(lists@[a].order@[place] is Some);
                    },
                    _ => {},
                }
            }
        }
    }
    true
}

proof fn lemma_unmarked_at_most(marks: Seq<Option<usize>>)
    requires
        forall|l: int| 0 <= l < marks.len() ==> #[trigger] marks[l] is None,
    ensures
        unmarked(marks) == marks.len(),
    decreases marks.len(),
{
    if marks.len() > 0 {
        assert forall|l: int| 0 <= l < marks.drop_last().len() implies #[trigger] marks.drop_last()[l]
            is None by {
            assert(marks[l] is None);
        }
        lemma_unmarked_at_most(marks.drop_last());
        assert(marks[marks.len() - 1] is None);
    }
}

/// The code of a shader.
pub enum ShaderCode {
    Combined(String),
    Separate { vertex: String, fragment: String },
}

impl ShaderCode {
    /// The code that shades pixels.
    pub open spec fn pixel_code(&self) -> Seq<char> {
        match self {
            ShaderCode::Combined(code) => code@,
            ShaderCode::Separate { vertex, fragment } => fragment@,
        }
    }

    /// Whether this is the shader of text.
    pub open spec fn draws_text(&self) -> bool {
        text::occurs(self.pixel_code(), TEXT_SHADER_MARK@)
    }

    /// Whether this is the shader of text.
    pub fn is_draw_text_shader(&self) -> (r: bool)
        ensures
            r == self.draws_text(),
    {
        match self {
            ShaderCode::Combined(code) => text::text_occurs(code.as_str(), TEXT_SHADER_MARK),
            ShaderCode::Separate { fragment, .. } => text::text_occurs(
                fragment.as_str(),
                TEXT_SHADER_MARK,
            ),
        }
    }
}

/// A shader as a draw call finds it.
pub struct ShaderState {
    pub code: ShaderCode,
    /// The compiled shader, if it was compiled at all.
    pub os_shader_id: Option<usize>,
    /// Whether its module is loaded.
    pub module_loaded: bool,
    pub has_vertex_entry: bool,
    pub has_fragment_entry: bool,
    /// The size of its block, in bytes.
    pub rcx_size: usize,
}

impl ShaderState {
    /// Whether a draw call can be shaded: the shader is the one asked for, if one is, it
    /// was compiled and loaded, both of its entries were found, and it has a block.
    pub open spec fn ready(&self, only_shader: Option<&str>) -> bool {
        &&& self.os_shader_id is Some
        &&& (only_shader matches Some(only) ==> only@ == "draw_text"@ ==> self.code.draws_text())
        &&& self.module_loaded
        &&& self.has_vertex_entry
        &&& self.has_fragment_entry
        &&& self.rcx_size > 0
    }

    /// Whether a draw call can be shaded.
    pub fn is_ready(&self, only_shader: Option<&str>) -> (r: bool)
        ensures
            r == self.ready(only_shader),
    {
        let kept = match only_shader {
            Some(only) => if text::same_text(only, "draw_text") {
                self.code.is_draw_text_shader()
            } else {
                true
            },
            None => true,
        };
        self.os_shader_id.is_some() && kept && self.module_loaded && self.has_vertex_entry
            && self.has_fragment_entry && self.rcx_size > 0
    }
}

/// The sizes of a mesh.
#[derive(Clone, Copy, Debug, PartialEq, Eq, Structural)]
pub struct GeometrySizes {
    /// The number of values of all vertices.
    pub vertices: usize,
    pub indices: usize,
}

/// The sizes of what a draw call paints.
#[derive(Clone, Copy, Debug, PartialEq, Eq)]
pub struct DrawSizes {
    pub geometry: Option<GeometrySizes>,
    /// The number of values of the instances.
    pub instances: Option<usize>,
    /// The number of values of an instance.
    pub instance_slots: usize,
    /// The number of values of a vertex.
    pub geom_slots: usize,
    /// The number of varyings of a vertex.
    pub varying_slots: usize,
}

/// How often a draw call paints what.
#[derive(Clone, Copy, Debug, PartialEq, Eq, Structural)]
pub struct DrawPlan {
    pub instance_count: usize,
    pub vertex_count: usize,
    pub tri_count: usize,
}

impl DrawSizes {
    /// What the draw call paints; none if there is no mesh, no instance, no vertex or no
    /// triangle.
    pub open spec fn plan(self) -> Option<DrawPlan> {
        match (self.geometry, self.instances) {
            (Some(GeometrySizes { vertices, indices }), Some(values)) => if indices > 0 && vertices > 0
                && self.instance_slots > 0 && values as int / self.instance_slots as int > 0
                && self.geom_slots > 0 && vertices as int / self.geom_slots as int > 0
                && indices as int / 3 > 0 {
                Some(
                    DrawPlan {
                        instance_count: (values as int / self.instance_slots as int) as usize,
                        vertex_count: (vertices as int / self.geom_slots as int) as usize,
                        tri_count: (indices as int / 3) as usize,
                    },
                )
            } else {
                None
            },
            _ => None,
        }
    }

    /// What the draw call paints.
    pub fn make_plan(self) -> (r: Option<DrawPlan>)
        ensures
            r == self.plan(),
    {
        let (vertices, indices): (usize, usize) = match self.geometry {
            Some(g) => (g.vertices, g.indices),
            None => {
                return None;
            },
        };
        if indices == 0 || vertices == 0 {
            return None;
        }
        let values: usize = match self.instances {
            Some(n) => n,
            None => {
                return None;
            },
        };
        if self.instance_slots == 0 {
            return None;
        }
        let instance_count: usize = values / self.instance_slots;
        if instance_count == 0 {
            return None;
        }
        let vertex_count: usize = if self.geom_slots > 0 {
            vertices / self.geom_slots
        } else {
            0
        };
        if vertex_count == 0 {
            return None;
        }
        let tri_count: usize = indices / 3;
        if tri_count == 0 {
            return None;
        }
        Some(DrawPlan { instance_count, vertex_count, tri_count })
    }
}

/// Where the values of one vertex of one instance stand, and where its shaded values go.
#[derive(Clone, Copy, Debug, PartialEq, Eq, Structural)]
pub struct VertexRun {
    pub inst_start: usize,
    pub inst_end: usize,
    pub geom_start: usize,
    pub geom_end: usize,
    pub shaded_index: usize,
    pub vary_start: usize,
    pub vary_end: usize,
}

/// The vertex `vertex` of the instance `instance`.
pub open spec fn run_of(sizes: DrawSizes, plan: DrawPlan, instance: int, vertex: int) -> VertexRun {
    let shaded = instance * plan.vertex_count + vertex;
    VertexRun {
        inst_start: (instance * sizes.instance_slots) as usize,
        inst_end: (instance * sizes.instance_slots + sizes.instance_slots) as usize,
        geom_start: (vertex * sizes.geom_slots) as usize,
        geom_end: (vertex * sizes.geom_slots + sizes.geom_slots) as usize,
        shaded_index: shaded as usize,
        vary_start: (shaded * sizes.varying_slots) as usize,
        vary_end: (shaded * sizes.varying_slots + sizes.varying_slots) as usize,
    }
}

/// Where the values of a vertex of an instance stand.
pub fn vertex_run(sizes: DrawSizes, plan: DrawPlan, instance: usize, vertex: usize) -> (r:
    VertexRun)
    requires
        sizes.plan() == Some(plan),
        instance < plan.instance_count,
        vertex < plan.vertex_count,
        plan.instance_count * plan.vertex_count * sizes.varying_slots <= usize::MAX,
        plan.instance_count * plan.vertex_count <= usize::MAX,
    ensures
        r == run_of(sizes, plan, instance as int, vertex as int),
        r.inst_end == r.inst_start + sizes.instance_slots,
        r.inst_end <= sizes.instances->0,
        r.geom_end == r.geom_start + sizes.geom_slots,
        r.geom_end <= sizes.geometry->0.vertices,
        r.shaded_index < plan.instance_count * plan.vertex_count,
        r.vary_end == r.vary_start + sizes.varying_slots,
        r.vary_end <= plan.instance_count * plan.vertex_count * sizes.varying_slots,
{
    proof {
        let (values, slots) = (sizes.instances->0, sizes.instance_slots);
        let count = plan.instance_count;
        assert(0 <= instance * slots && instance * slots + slots <= values) by (nonlinear_arith)
            requires
                slots > 0,
                instance < count,
                count == values as int / slots as int,
        ;
        let (vertices, gslots) = (sizes.geometry->0.vertices, sizes.geom_slots);
        let vcount = plan.vertex_count;
        assert(0 <= vertex * gslots && vertex * gslots + gslots <= vertices) by (nonlinear_arith)
            requires
                gslots > 0,
                vertex < vcount,
                vcount == vertices as int / gslots as int,
        ;
        assert(0 <= instance * vcount && instance * vcount + vertex < count * vcount)
            by (nonlinear_arith)
            requires
                instance < count,
                vertex < vcount,
        ;
        let shaded = instance * vcount + vertex;
        let vslots = sizes.varying_slots;
        assert(0 <= shaded * vslots && shaded * vslots + vslots <= count * vcount * vslots)
            by (nonlinear_arith)
            requires
                0 <= shaded < count * vcount,
        ;
    }
    let shaded_index: usize = instance * plan.vertex_count + vertex;
    VertexRun {
        inst_start: instance * sizes.instance_slots,
        inst_end: instance * sizes.instance_slots + sizes.instance_slots,
        geom_start: vertex * sizes.geom_slots,
        geom_end: vertex * sizes.geom_slots + sizes.geom_slots,
        shaded_index,
        vary_start: shaded_index * sizes.varying_slots,
        vary_end: shaded_index * sizes.varying_slots + sizes.varying_slots,
    }
}

/// Different vertices are shaded into different places, which do not overlap.
pub proof fn law_vertices_have_places_of_their_own(
    plan: DrawPlan,
    varying_slots: int,
    i1: int,
    v1: int,
    i2: int,
    v2: int,
)
    requires
        0 <= v1 < plan.vertex_count,
        0 <= v2 < plan.vertex_count,
        0 <= i1,
        0 <= i2,
        (i1, v1) != (i2, v2),
        varying_slots >= 0,
    ensures
        i1 * plan.vertex_count + v1 != i2 * plan.vertex_count + v2,
        ({
            let a = (i1 * plan.vertex_count + v1) * varying_slots;
            let b = (i2 * plan.vertex_count + v2) * varying_slots;
            a + varying_slots <= b || b + varying_slots <= a
        }),
{
    let n = plan.vertex_count as int;
    let p = i1 * n + v1;
    let q = i2 * n + v2;
    assert(p != q) by (nonlinear_arith)
        requires
            0 <= v1 < n,
            0 <= v2 < n,
            i1 != i2 || v1 != v2,
            p == i1 * n + v1,
            q == i2 * n + v2,
    ;
    if p < q {
        assert(p * varying_slots + varying_slots <= q * varying_slots) by (nonlinear_arith)
            requires
                p + 1 <= q,
                varying_slots >= 0,
        ;
    } else {
        assert(q * varying_slots + varying_slots <= p * varying_slots) by (nonlinear_arith)
            requires
                q + 1 <= p,
                varying_slots >= 0,
        ;
    }
}

/// What a shader calls a uniform buffer.
#[derive(Clone, Copy, Debug, PartialEq, Eq, Structural)]
pub enum UniformType {
    DrawCallUniforms,
    DrawPassUniforms,
    DrawListUniforms,
    Unknown,
}

/// Where the values of a uniform buffer come from.
#[derive(Clone, Copy, Debug, PartialEq, Eq, Structural)]
pub enum UniformSource {
    DrawCall,
    DrawPass,
    DrawList,
    /// The uniforms that are set per draw call by name.
    Dynamic,
    /// The uniforms that are captured where the shader was written.
    Scope,
}

/// The source that a type of uniform buffer is bound to.
pub open spec fn source_of(t: UniformType) -> Option<UniformSource> {
    match t {
        UniformType::DrawCallUniforms => Some(UniformSource::DrawCall),
        UniformType::DrawPassUniforms => Some(UniformSource::DrawPass),
        UniformType::DrawListUniforms => Some(UniformSource::DrawList),
        UniformType::Unknown => None,
    }
}

/// The largest place that is bound; zero if none is.
pub open spec fn largest_place(bindings: Seq<(UniformType, usize)>) -> int
    decreases bindings.len(),
{
    if bindings.len() == 0 {
        0
    } else {
        let before = largest_place(bindings.drop_last());
        if bindings.last().1 > before {
            bindings.last().1 as int
        } else {
            before
        }
    }
}

/// What the last binding of a place that is known binds it to.
pub open spec fn bound_to(bindings: Seq<(UniformType, usize)>, place: int) -> Option<UniformSource>
    decreases bindings.len(),
{
    if bindings.len() == 0 {
        None
    } else if bindings.last().1 == place && source_of(bindings.last().0) is Some {
        source_of(bindings.last().0)
    } else {
        bound_to(bindings.drop_last(), place)
    }
}

/// The uniform buffers of a draw call: what stands at each place, and how many places
/// the shader is told of. Behind the bound places come the uniforms that are set by
/// name, and behind those the captured ones, if there are any.
pub struct UniformTable {
    pub slots: Vec<Option<UniformSource>>,
    pub count: usize,
}

/// What stands at a place.
pub open spec fn slot_of(
    bindings: Seq<(UniformType, usize)>,
    has_scope: bool,
    place: int,
) -> Option<UniformSource> {
    let dynamic = largest_place(bindings) + 1;
    if place == dynamic {
        Some(UniformSource::Dynamic)
    } else if has_scope && place == dynamic + 1 {
        Some(UniformSource::Scope)
    } else {
        bound_to(bindings, place)
    }
}

/// How many places the shader is told of.
pub open spec fn slot_count(bindings: Seq<(UniformType, usize)>, has_scope: bool) -> int {
    let all = largest_place(bindings) + if has_scope {
        3
    } else {
        2int
    };
    if all < MAX_UNIFORM_BUFS {
        all
    } else {
        MAX_UNIFORM_BUFS as int
    }
}

proof fn lemma_bound_below(bindings: Seq<(UniformType, usize)>, place: int)
    requires
        bound_to(bindings, place) is Some,
    ensures
        place <= largest_place(bindings),
    decreases bindings.len(),
{
    if bindings.len() > 0 && !(bindings.last().1 == place && source_of(bindings.last().0)
        is Some) {
        lemma_bound_below(bindings.drop_last(), place);
    }
}

/// Builds the table of the uniform buffers of a draw call.
pub fn uniform_table(bindings: &Vec<(UniformType, usize)>, has_scope: bool) -> (r: UniformTable)
    requires
        forall|i: int| 0 <= i < bindings@.len() ==> (#[trigger] bindings@[i]).1 <= usize::MAX - 3,
    ensures
        r.slots@.len() == MAX_UNIFORM_BUFS,
        forall|p: int|
            0 <= p < MAX_UNIFORM_BUFS ==> #[trigger] r.slots@[p] == slot_of(
                bindings@,
                has_scope,
                p,
            ),
        r.count == slot_count(bindings@, has_scope),
{
    let mut slots: Vec<Option<UniformSource>> = Vec::new();
    while slots.len() < MAX_UNIFORM_BUFS
        invariant
            slots@.len() <= MAX_UNIFORM_BUFS,
            forall|p: int| 0 <= p < slots@.len() ==> #[trigger] slots@[p] is None,
        decreases MAX_UNIFORM_BUFS - slots@.len(),
    {
        slots.push(None);
    }
    let mut largest: usize = 0;
    let mut i: usize = 0;
    assert(bindings@.take(0) =~= Seq::<(UniformType, usize)>::empty());
    while i < bindings.len()
        invariant
            i <= bindings@.len(),
            forall|j: int|
                0 <= j < bindings@.len() ==> (#[trigger] bindings@[j]).1 <= usize::MAX - 3,
            slots@.len() == MAX_UNIFORM_BUFS,
            largest == largest_place(bindings@.take(i as int)),
            largest <= usize::MAX - 3,
            forall|p: int|
                0 <= p < MAX_UNIFORM_BUFS ==> #[trigger] slots@[p] == bound_to(
                    bindings@.take(i as int),
                    p,
                ),
        decreases bindings@.len() - i,
    {
        proof {
            assert(bindings@.take(i + 1).drop_last() =~= bindings@.take(i as int));
            assert(bindings@.take(i + 1).last() == bindings@[i as int]);
        }
        let (kind, place): (UniformType, usize) = bindings[i];
        if place > largest {
            largest = place;
        }
        if place < MAX_UNIFORM_BUFS {
            match kind {
                UniformType::DrawCallUniforms => {
                    slots.set(place, Some(UniformSource::DrawCall));
                },
                UniformType::DrawPassUniforms => {
                    slots.set(place, Some(UniformSource::DrawPass));
                },
                UniformType::DrawListUniforms => {
                    slots.set(place, Some(UniformSource::DrawList));
                },
                UniformType::Unknown => {},
            }
        }
        i = i + 1;
    }
    assert(bindings@.take(i as int) =~= bindings@);
    let dynamic: usize = largest + 1;
    if dynamic < MAX_UNIFORM_BUFS {
        slots.set(dynamic, Some(UniformSource::Dynamic));
    }
    if has_scope && dynamic + 1 < MAX_UNIFORM_BUFS {
        slots.set(dynamic + 1, Some(UniformSource::Scope));
    }
    let all: usize = if has_scope {
        dynamic + 2
    } else {
        dynamic + 1
    };
    let count: usize = if all < MAX_UNIFORM_BUFS {
        all
    } else {
        MAX_UNIFORM_BUFS
    };
    UniformTable { slots, count }
}

/// The uniforms that are set by name and the captured ones have places that no binding
/// takes.
pub proof fn law_bound_places_are_kept(
    bindings: Seq<(UniformType, usize)>,
    has_scope: bool,
    place: int,
)
    requires
        bound_to(bindings, place) is Some,
    ensures
        slot_of(bindings, has_scope, place) == bound_to(bindings, place),
{
    lemma_bound_below(bindings, place);
}

/// What a list paints grows with its places: a draw call adds itself behind what was painted
/// before, a sub-list adds all it paints, counting on or, if it resets the bias, from zero,
/// and a vacant place adds nothing.
pub proof fn law_places_are_painted_in_order(
    lists: Seq<RenderList>,
    rank: spec_fn(int) -> nat,
    list: int,
    z: nat,
    n: nat,
)
    requires
        lists_valid(lists),
        is_rank(lists, rank),
        0 <= list < lists.len(),
        n < lists[list].order@.len(),
    ensures
        ({
            let (steps, count) = steps_up_to(lists, rank, list, z, n);
            let (more, end) = steps_up_to(lists, rank, list, z, n + 1);
            match lists[list].order@[n as int] {
                None => more == steps && end == count,
                Some(item) => match lists[list].items@[item as int] {
                    ItemKind::Empty => more == steps && end == count,
                    ItemKind::DrawCall => more == steps.push(
                        DrawStep { list: list as usize, item, zbias: count as usize },
                    ) && end == count + 1,
                    ItemKind::SubList(sub) => if lists[sub as int].reset_zbias {
                        more == steps + steps_up_to(
                            lists,
                            rank,
                            sub as int,
                            0,
                            lists[sub as int].order@.len(),
                        ).0 && end == count
                    } else {
                        let whole = steps_up_to(
                            lists,
                            rank,
                            sub as int,
                            count,
                            lists[sub as int].order@.len(),
                        );
                        more == steps + whole.0 && end == whole.1
                    },
                },
            }
        }),
        steps_up_to(lists, rank, list, z, 0) == (Seq::<DrawStep>::empty(), z),
        steps_of(lists, rank, list, z) == steps_up_to(
            lists,
            rank,
            list,
            z,
            lists[list].order@.len(),
        ),
{
    match item_at(lists[list], n as int) {
        ItemKind::SubList(sub) => {
            assert(rank(sub as int) < rank(list));
            assert(lists[list].order@[n as int] is Some);
            let count = steps_up_to(lists, rank, list, z, n).1;
            let whole = lists[sub as int].order@.len();
            assert(steps_of(lists, rank, sub as int, 0) == steps_up_to(
                lists,
                rank,
                sub as int,
                0,
                whole,
            ));
            assert(steps_of(lists, rank, sub as int, count) == steps_up_to(
                lists,
                rank,
                sub as int,
                count,
                whole,
            ));
        },
        _ => {},
    }
}

/// Every draw call of a list is painted, by its own number.
pub proof fn law_every_draw_call_is_painted(
    lists: Seq<RenderList>,
    rank: spec_fn(int) -> nat,
    list: int,
    z: nat,
    place: int,
    item: usize,
    n: nat,
)
    requires
        lists_valid(lists),
        is_rank(lists, rank),
        0 <= list < lists.len(),
        list <= usize::MAX,
        0 <= place < n <= lists[list].order@.len(),
        lists[list].order@[place] == Some(item),
        lists[list].items@[item as int] is DrawCall,
    ensures
        exists|k: int|
            0 <= k < steps_up_to(lists, rank, list, z, n).0.len() && (#[trigger] steps_up_to(
                lists,
                rank,
                list,
                z,
                n,
            ).0[k]).list == list && steps_up_to(lists, rank, list, z, n).0[k].item == item,
    decreases n,
{
    let (steps, count) = steps_up_to(lists, rank, list, z, (n - 1) as nat);
    let all = steps_up_to(lists, rank, list, z, n).0;
    law_places_are_painted_in_order(lists, rank, list, z, (n - 1) as nat);
    if place == n - 1 {
        let k = steps.len() as int;
        assert(all[k].list == list && all[k].item == item);
    } else {
        law_every_draw_call_is_painted(lists, rank, list, z, place, item, (n - 1) as nat);
        let k = choose|k: int|
            0 <= k < steps.len() && (#[trigger] steps[k]).list == list && steps[k].item == item;
        assert(all[k] == steps[k]);
    }
}

/// A draw call paints as many instances, vertices and triangles as there are whole ones among
/// its values, and nothing if there are none of one kind.
pub proof fn law_whole_instances_and_triangles_are_painted(
    sizes: DrawSizes,
    mesh: GeometrySizes,
    values: usize,
)
    requires
        sizes.geometry == Some(mesh),
        sizes.instances == Some(values),
        sizes.instance_slots > 0,
        sizes.geom_slots > 0,
    ensures
        sizes.plan() is Some <==> values >= sizes.instance_slots && mesh.vertices
            >= sizes.geom_slots && mesh.indices >= 3,
        sizes.plan() matches Some(plan) ==> {
            &&& plan.instance_count * sizes.instance_slots <= values < (plan.instance_count + 1)
                * sizes.instance_slots
            &&& plan.vertex_count * sizes.geom_slots <= mesh.vertices < (plan.vertex_count + 1)
                * sizes.geom_slots
            &&& plan.tri_count * 3 <= mesh.indices < (plan.tri_count + 1) * 3
        },
{
    lemma_whole_ones(values as int, sizes.instance_slots as int);
    lemma_whole_ones(mesh.vertices as int, sizes.geom_slots as int);
}

proof fn lemma_whole_ones(values: int, slots: int)
    requires
        values >= 0,
        slots > 0,
    ensures
        0 <= values / slots <= values,
        values / slots > 0 <==> values >= slots,
        (values / slots) * slots <= values < (values / slots + 1) * slots,
{
    let (q, r) = (values / slots, values % slots);
    vstd::arithmetic::div_mod::lemma_fundamental_div_mod(values, slots);
    assert(q * slots <= values < (q + 1) * slots) by (nonlinear_arith)
        requires
            values == slots * q + r,
            0 <= r < slots,
    ;
    assert(q >= 0) by (nonlinear_arith)
        requires
            values < (q + 1) * slots,
            values >= 0,
            slots > 0,
    ;
    assert(q <= values) by (nonlinear_arith)
        requires
            q * slots <= values,
            slots >= 1,
            q >= 0,
    ;
    assert(q > 0 ==> values >= slots) by (nonlinear_arith)
        requires
            q * slots <= values,
            slots > 0,
    ;
    assert(values >= slots ==> q > 0) by (nonlinear_arith)
        requires
            values < (q + 1) * slots,
            slots > 0,
    ;
}

/// A draw call without a mesh or without instances paints nothing.
pub proof fn law_nothing_is_painted_without_a_mesh(sizes: DrawSizes)
    requires
        sizes.geometry is None || sizes.instances is None || sizes.instance_slots == 0
            || sizes.geom_slots == 0,
    ensures
        sizes.plan() is None,
{
}

/// The values of instances, and those of vertices, lie end to end from the first on, and so
/// do the varyings of the vertices that are shaded: those of one instance behind those of
/// the one before.
pub proof fn law_vertices_are_shaded_end_to_end(
    sizes: DrawSizes,
    plan: DrawPlan,
    instance: int,
    vertex: int,
)
    requires
        0 <= instance,
        0 <= vertex < plan.vertex_count,
        (instance + 2) * sizes.instance_slots <= usize::MAX,
        (vertex + 2) * sizes.geom_slots <= usize::MAX,
        ((instance + 2) * plan.vertex_count + 1) * sizes.varying_slots <= usize::MAX,
        (instance + 2) * plan.vertex_count <= usize::MAX,
    ensures
        run_of(sizes, plan, 0, 0).inst_start == 0,
        run_of(sizes, plan, 0, 0).geom_start == 0,
        run_of(sizes, plan, 0, 0).vary_start == 0,
        run_of(sizes, plan, 0, 0).shaded_index == 0,
        ({
            let run = run_of(sizes, plan, instance, vertex);
            let next = run_of(sizes, plan, instance, vertex + 1);
            let below = run_of(sizes, plan, instance + 1, vertex);
            let last = run_of(sizes, plan, instance, plan.vertex_count - 1);
            let first = run_of(sizes, plan, instance + 1, 0);
            &&& run.inst_end == run.inst_start + sizes.instance_slots
            &&& run.geom_end == run.geom_start + sizes.geom_slots
            &&& run.vary_end == run.vary_start + sizes.varying_slots
            &&& next.geom_start == run.geom_end && next.inst_start == run.inst_start
            &&& next.vary_start == run.vary_end && next.shaded_index == run.shaded_index + 1
            &&& below.inst_start == run.inst_end && below.geom_start == run.geom_start
            &&& first.vary_start == last.vary_end && first.shaded_index == last.shaded_index + 1
        }),
{
    let (i, v) = (instance, vertex);
    let (n, a, b, c) = (
        plan.vertex_count as int,
        sizes.instance_slots as int,
        sizes.geom_slots as int,
        sizes.varying_slots as int,
    );
    assert(0 * a == 0 && 0 * b == 0 && 0 * c == 0 && 0 * n == 0) by (nonlinear_arith);
    assert((i + 1) * a == i * a + a && (v + 1) * b == v * b + b && (i + 1) * n == i * n + n)
        by (nonlinear_arith);
    assert((i + 2) * a == i * a + a + a && (v + 2) * b == v * b + b + b && (i + 2) * n == i * n + n
        + n) by (nonlinear_arith);
    assert(i * a >= 0 && v * b >= 0 && i * n >= 0) by (nonlinear_arith)
        requires
            i >= 0,
            v >= 0,
            a >= 0,
            b >= 0,
            n >= 0,
    ;
    let s = i * n + v;
    let t = i * n + (n - 1);
    assert((s + 1) * c == s * c + c && (t + 1) * c == t * c + c) by (nonlinear_arith);
    assert(0 <= s * c && s * c + c <= ((i + 2) * n + 1) * c) by (nonlinear_arith)
        requires
            0 <= s,
            s + 1 <= (i + 2) * n + 1,
            c >= 0,
    ;
    assert(0 <= (s + 1) * c && (s + 1) * c + c <= ((i + 2) * n + 1) * c) by (nonlinear_arith)
        requires
            0 <= s,
            s + 2 <= (i + 2) * n + 1,
            c >= 0,
    ;
    assert(0 <= t * c && t * c + c <= ((i + 2) * n + 1) * c) by (nonlinear_arith)
        requires
            0 <= t,
            t + 1 <= (i + 2) * n + 1,
            c >= 0,
    ;
}

/// The last binding of a known kind that names a place has it; a binding of an unknown kind
/// changes nothing, and none changes another place.
pub proof fn law_the_last_binding_has_the_place(
    bindings: Seq<(UniformType, usize)>,
    kind: UniformType,
    at: usize,
    place: int,
)
    ensures
        ({
            let more = bindings.push((kind, at));
            &&& place != at ==> bound_to(more, place) == bound_to(bindings, place)
            &&& kind == UniformType::Unknown ==> bound_to(more, place) == bound_to(bindings, place)
            &&& kind == UniformType::DrawCallUniforms ==> bound_to(more, at as int) == Some(
                UniformSource::DrawCall,
            )
            &&& kind == UniformType::DrawPassUniforms ==> bound_to(more, at as int) == Some(
                UniformSource::DrawPass,
            )
            &&& kind == UniformType::DrawListUniforms ==> bound_to(more, at as int) == Some(
                UniformSource::DrawList,
            )
        }),
        bound_to(Seq::empty(), place) is None,
{
    assert(bindings.push((kind, at)).drop_last() =~= bindings);
}

/// Behind the largest place that is bound stand the uniforms that are set by name, and behind
/// those the captured ones, if there are any; the table reaches so far, but no further than
/// sixteen places.
pub proof fn law_other_uniforms_stand_behind_the_bound_ones(
    bindings: Seq<(UniformType, usize)>,
    has_scope: bool,
    largest: int,
)
    requires
        forall|i: int| 0 <= i < bindings.len() ==> (#[trigger] bindings[i]).1 <= largest,
        largest == 0 || exists|i: int|
            0 <= i < bindings.len() && (#[trigger] bindings[i]).1 == largest,
        largest >= 0,
    ensures
        slot_of(bindings, has_scope, largest + 1) == Some(UniformSource::Dynamic),
        has_scope ==> slot_of(bindings, has_scope, largest + 2) == Some(UniformSource::Scope),
        !has_scope ==> slot_of(bindings, has_scope, largest + 2) is None,
        slot_of(bindings, has_scope, largest + 3) is None,
        forall|place: int|
            0 <= place <= largest ==> #[trigger] slot_of(bindings, has_scope, place) == bound_to(
                bindings,
                place,
            ),
        ({
            let all = largest + if has_scope { 3int } else { 2int };
            slot_count(bindings, has_scope) == if all <= 16 { all } else { 16 }
        }),
{
    lemma_largest(bindings, largest);
    lemma_nothing_beyond(bindings, largest, largest + 2);
    lemma_nothing_beyond(bindings, largest, largest + 3);
}

proof fn lemma_largest(bindings: Seq<(UniformType, usize)>, largest: int)
    requires
        forall|i: int| 0 <= i < bindings.len() ==> (#[trigger] bindings[i]).1 <= largest,
        largest == 0 || exists|i: int|
            0 <= i < bindings.len() && (#[trigger] bindings[i]).1 == largest,
        largest >= 0,
    ensures
        largest_place(bindings) == largest,
{
    lemma_largest_bounds(bindings, largest);
    if largest > 0 {
        let i = choose|i: int| 0 <= i < bindings.len() && (#[trigger] bindings[i]).1 == largest;
        lemma_largest_reaches(bindings, i);
    }
}

proof fn lemma_largest_bounds(bindings: Seq<(UniformType, usize)>, largest: int)
    requires
        forall|i: int| 0 <= i < bindings.len() ==> (#[trigger] bindings[i]).1 <= largest,
        largest >= 0,
    ensures
        0 <= largest_place(bindings) <= largest,
    decreases bindings.len(),
{
    if bindings.len() > 0 {
        let front = bindings.drop_last();
        assert(forall|i: int| 0 <= i < front.len() ==> #[trigger] front[i] == bindings[i]);
        lemma_largest_bounds(front, largest);
        assert(bindings[bindings.len() - 1].1 <= largest);
    }
}

proof fn lemma_largest_reaches(bindings: Seq<(UniformType, usize)>, i: int)
    requires
        0 <= i < bindings.len(),
    ensures
        largest_place(bindings) >= bindings[i].1,
    decreases bindings.len(),
{
    if i < bindings.len() - 1 {
        lemma_largest_reaches(bindings.drop_last(), i);
    }
}

proof fn lemma_nothing_beyond(bindings: Seq<(UniformType, usize)>, largest: int, place: int)
    requires
        forall|i: int| 0 <= i < bindings.len() ==> (#[trigger] bindings[i]).1 <= largest,
        place > largest,
    ensures
        bound_to(bindings, place) is None,
    decreases bindings.len(),
{
    if bindings.len() > 0 {
        let front = bindings.drop_last();
        assert(forall|i: int| 0 <= i < front.len() ==> #[trigger] front[i] == bindings[i]);
        lemma_nothing_beyond(front, largest, place);
        assert(bindings[bindings.len() - 1].1 <= largest);
    }
}

/// Draw calls are painted in the order of their list: every one of them is, and of a pass
/// without a list nothing is. A pass is painted in bands if more than one is asked for.
pub proof fn law_a_pass_paints_its_draw_calls(
    lists: &Vec<RenderList>,
    list: usize,
    bands: Option<&str>,
    order: Vec<DrawStep>,
    pass: PassPlan,
    none: PassPlan,
    place: int,
    item: usize,
)
    requires
        lists_valid(lists@),
        exists|rank: spec_fn(int) -> nat| is_rank(lists@, rank),
        list < lists@.len(),
        call_ensures(painting_order, (lists, list), order),
        call_ensures(headless_draw_pass, (lists, Some(list), bands), pass),
        call_ensures(headless_draw_pass, (lists, None, bands), none),
        0 <= place < lists@[list as int].order@.len(),
        lists@[list as int].order@[place] == Some(item),
        lists@[list as int].items@[item as int] is DrawCall,
    ensures
        pass.steps@ == order@,
        none.steps@.len() == 0 && none.bands is None,
        exists|k: int|
            0 <= k < order@.len() && (#[trigger] order@[k]).list == list && order@[k].item == item,
        bands is None ==> pass.bands is None,
        pass.bands matches Some(n) ==> n > 1,
{
    let rank = choose|rank: spec_fn(int) -> nat| is_rank(lists@, rank);
    let args = (lists, list);
    assert(is_rank(args.0@, rank));
    let pass_args = (lists, Some(list), bands);
    assert(is_rank(pass_args.0@, rank));
    let n = lists@[list as int].order@.len();
    law_every_draw_call_is_painted(lists@, rank, list as int, 0, place, item, n);
    let k = choose|k: int|
        0 <= k < steps_up_to(lists@, rank, list as int, 0, n).0.len() && (#[trigger] steps_up_to(
            lists@,
            rank,
            list as int,
            0,
            n,
        ).0[k]).list == list && steps_up_to(lists@, rank, list as int, 0, n).0[k].item == item;
    assert(order@[k].list == list && order@[k].item == item);
}

/// A list of draw calls alone is painted from its first place to its last, each in front of
/// the one before.
pub proof fn law_a_list_is_painted_from_first_to_last(
    lists: &Vec<RenderList>,
    list: usize,
    order: Vec<DrawStep>,
    k: int,
)
    requires
        lists_valid(lists@),
        exists|rank: spec_fn(int) -> nat| is_rank(lists@, rank),
        list < lists@.len(),
        call_ensures(painting_order, (lists, list), order),
        lists@[list as int].order@.len() <= usize::MAX,
        forall|place: int|
            0 <= place < lists@[list as int].order@.len() ==> ((
            #[trigger] lists@[list as int].order@[place]) matches Some(item)
                && lists@[list as int].items@[item as int] is DrawCall),
        0 <= k < lists@[list as int].order@.len(),
    ensures
        order@.len() == lists@[list as int].order@.len(),
        Some(order@[k].item) == lists@[list as int].order@[k],
        order@[k].list == list,
        order@[k].zbias == k,
{
    let rank = choose|rank: spec_fn(int) -> nat| is_rank(lists@, rank);
    let args = (lists, list);
    assert(is_rank(args.0@, rank));
    lemma_plain_list(lists@, rank, list as int, lists@[list as int].order@.len());
}

proof fn lemma_plain_list(
    lists: Seq<RenderList>,
    rank: spec_fn(int) -> nat,
    list: int,
    n: nat,
)
    requires
        lists_valid(lists),
        is_rank(lists, rank),
        0 <= list < lists.len(),
        list <= usize::MAX,
        n <= lists[list].order@.len() <= usize::MAX,
        forall|place: int|
            0 <= place < lists[list].order@.len() ==> ((
            #[trigger] lists[list].order@[place]) matches Some(item)
                && lists[list].items@[item as int] is DrawCall),
    ensures
        steps_up_to(lists, rank, list, 0, n).1 == n,
        steps_up_to(lists, rank, list, 0, n).0.len() == n,
        forall|k: int|
            0 <= k < n ==> {
                let step = #[trigger] steps_up_to(lists, rank, list, 0, n).0[k];
                &&& step.list == list
                &&& Some(step.item) == lists[list].order@[k]
                &&& step.zbias == k
            },
    decreases n,
{
    if n > 0 {
        lemma_plain_list(lists, rank, list, (n - 1) as nat);
        law_places_are_painted_in_order(lists, rank, list, 0, (n - 1) as nat);
        assert(lists[list].order@[n - 1] is Some);
    }
}

/// A draw call is ready exactly if its shader was compiled and loaded with what it needs and
/// is of the kind that is asked for; and it paints the whole instances, vertices and
/// triangles among its values.
pub proof fn law_draw_calls_are_judged_by_what_they_have(
    shader: &ShaderState,
    only_shader: Option<&str>,
    ready: bool,
    text: bool,
    sizes: DrawSizes,
    plan: Option<DrawPlan>,
    mesh: GeometrySizes,
    values: usize,
)
    requires
        call_ensures(ShaderState::is_ready, (shader, only_shader), ready),
        call_ensures(ShaderCode::is_draw_text_shader, (&shader.code,), text),
        call_ensures(DrawSizes::make_plan, (sizes,), plan),
        sizes.geometry == Some(mesh),
        sizes.instances == Some(values),
        sizes.instance_slots > 0,
        sizes.geom_slots > 0,
    ensures
        ready ==> shader.os_shader_id is Some && shader.module_loaded && shader.has_vertex_entry
            && shader.has_fragment_entry && shader.rcx_size > 0,
        shader.os_shader_id is Some && shader.module_loaded && shader.has_vertex_entry
            && shader.has_fragment_entry && shader.rcx_size > 0 && only_shader is None ==> ready,
        shader.os_shader_id is Some && shader.module_loaded && shader.has_vertex_entry
            && shader.has_fragment_entry && shader.rcx_size > 0 && text ==> ready,
        only_shader matches Some(only) ==> only@ == "draw_text"@ ==> ready ==> text,
        plan is Some <==> values >= sizes.instance_slots && mesh.vertices >= sizes.geom_slots
            && mesh.indices >= 3,
        plan matches Some(p) ==> {
            &&& p.instance_count * sizes.instance_slots <= values < (p.instance_count + 1)
                * sizes.instance_slots
            &&& p.vertex_count * sizes.geom_slots <= mesh.vertices < (p.vertex_count + 1)
                * sizes.geom_slots
            &&& p.tri_count * 3 <= mesh.indices < (p.tri_count + 1) * 3
        },
{
    law_whole_instances_and_triangles_are_painted(sizes, mesh, values);
}

/// A vertex of an instance is shaded with the values of that instance and of that vertex, and
/// its results stand behind those of all vertices before it.
pub proof fn law_a_vertex_is_shaded_with_its_own_values(
    sizes: DrawSizes,
    plan: DrawPlan,
    instance: usize,
    vertex: usize,
    run: VertexRun,
)
    requires
        sizes.plan() == Some(plan),
        instance < plan.instance_count,
        vertex < plan.vertex_count,
        plan.instance_count * plan.vertex_count * sizes.varying_slots <= usize::MAX,
        plan.instance_count * plan.vertex_count <= usize::MAX,
        call_ensures(vertex_run, (sizes, plan, instance, vertex), run),
    ensures
        run.inst_start == instance * sizes.instance_slots,
        run.inst_end == (instance + 1) * sizes.instance_slots,
        run.geom_start == vertex * sizes.geom_slots,
        run.geom_end == (vertex + 1) * sizes.geom_slots,
        run.shaded_index == instance * plan.vertex_count + vertex,
        run.vary_start == (instance * plan.vertex_count + vertex) * sizes.varying_slots,
        run.vary_end == (instance * plan.vertex_count + vertex + 1) * sizes.varying_slots,
{
    let (i, v, n) = (instance as int, vertex as int, plan.vertex_count as int);
    let (a, b, c) = (
        sizes.instance_slots as int,
        sizes.geom_slots as int,
        sizes.varying_slots as int,
    );
    let s = i * n + v;
    let m = plan.instance_count as int;
    assert(0 <= s < m * n) by (nonlinear_arith)
        requires
            0 <= i < m,
            0 <= v < n,
            s == i * n + v,
    ;
    assert(0 <= s * c && (s + 1) * c <= m * n * c && (s + 1) * c == s * c + c) by (nonlinear_arith)
        requires
            0 <= s < m * n,
            c >= 0,
    ;
    law_whole_instances_and_triangles_are_painted(sizes, sizes.geometry->0, sizes.instances->0);
    assert(0 <= i * a && (i + 1) * a == i * a + a && (i + 1) * a <= m * a) by (nonlinear_arith)
        requires
            0 <= i < m,
            a >= 0,
    ;
    assert(0 <= v * b && (v + 1) * b == v * b + b && (v + 1) * b <= n * b) by (nonlinear_arith)
        requires
            0 <= v < n,
            b >= 0,
    ;
}

/// In the table of uniforms each place holds what was bound to it last; behind the largest
/// one stand the uniforms that are set by name, and behind those the captured ones.
pub proof fn law_uniforms_stand_where_they_are_bound(
    bindings: &Vec<(UniformType, usize)>,
    has_scope: bool,
    r: UniformTable,
    largest: int,
    i: int,
)
    requires
        call_ensures(uniform_table, (bindings, has_scope), r),
        forall|k: int| 0 <= k < bindings@.len() ==> (#[trigger] bindings@[k]).1 <= largest,
        largest == 0 || exists|k: int|
            0 <= k < bindings@.len() && (#[trigger] bindings@[k]).1 == largest,
        0 <= largest <= 13,
        0 <= i < bindings@.len(),
        forall|k: int|
            i < k < bindings@.len() ==> (#[trigger] bindings@[k]).1 != bindings@[i].1,
    ensures
        r.slots@.len() == 16,
        bindings@[i].0 == UniformType::DrawCallUniforms ==> r.slots@[bindings@[i].1 as int] == Some(
            UniformSource::DrawCall,
        ),
        bindings@[i].0 == UniformType::DrawPassUniforms ==> r.slots@[bindings@[i].1 as int] == Some(
            UniformSource::DrawPass,
        ),
        bindings@[i].0 == UniformType::DrawListUniforms ==> r.slots@[bindings@[i].1 as int] == Some(
            UniformSource::DrawList,
        ),
        r.slots@[largest + 1] == Some(UniformSource::Dynamic),
        r.slots@[largest + 2] == if has_scope { Some(UniformSource::Scope) } else { None },
        r.count == largest + if has_scope { 3int } else { 2int },
{
    law_other_uniforms_stand_behind_the_bound_ones(bindings@, has_scope, largest);
    let p = bindings@[i].1 as int;
    assert(r.slots@[p] == slot_of(bindings@, has_scope, p));
    lemma_bound_last(bindings@, i);
    assert(r.slots@[largest + 1] == slot_of(bindings@, has_scope, largest + 1));
    assert(r.slots@[largest + 2] == slot_of(bindings@, has_scope, largest + 2));
}

proof fn lemma_bound_last(bindings: Seq<(UniformType, usize)>, i: int)
    requires
        0 <= i < bindings.len(),
        forall|k: int| i < k < bindings.len() ==> (#[trigger] bindings[k]).1 != bindings[i].1,
    ensures
        source_of(bindings[i].0) is Some ==> bound_to(bindings, bindings[i].1 as int) == source_of(
            bindings[i].0,
        ),
    decreases bindings.len(),
{
    if i < bindings.len() - 1 {
        let front = bindings.drop_last();
        assert forall|k: int| i < k < front.len() implies (#[trigger] front[k]).1
            != front[i].1 by {
            assert(front[k] == bindings[k]);
        }
        lemma_bound_last(front, i);
        assert(bindings[bindings.len() - 1].1 != bindings[i].1);
    }
}

} // verus!
