use makepad_platform::damage::{
    damage_enabled, recoger_con_hijos, rect_de_lista, DamageRect, DamageSwitch, DamageTracker, DrawEvent, DrawList,
};

fn r(x0: i32, y0: i32, x1: i32, y1: i32) -> DamageRect {
    DamageRect { x0, y0, x1, y1 }
}

fn list(id: u64, painted: Option<DamageRect>, sub_lists: &[u64]) -> DrawList {
    DrawList { id, painted, sub_lists: sub_lists.to_vec() }
}

fn ask(all: bool, lists: &[u64], deep: &[u64]) -> DrawEvent {
    DrawEvent {
        redraw_all: all,
        draw_lists: lists.to_vec(),
        draw_lists_and_children: deep.to_vec(),
    }
}

#[test]
fn la_union_contiene_a_los_dos() {
    let a = r(10, 10, 20, 20);
    let b = r(30, 5, 40, 15);
    let u = a.union(b);
    assert_eq!(u, r(10, 5, 40, 20));
    for x in [a, b] {
        assert!(u.x0 <= x.x0 && u.y0 <= x.y0 && u.x1 >= x.x1 && u.y1 >= x.y1);
    }
}

#[test]
fn la_union_es_conmutativa_y_absorbe_lo_contenido() {
    let a = r(0, 0, 100, 100);
    let b = r(10, 10, 20, 20);
    assert_eq!(a.union(b), b.union(a));
    assert_eq!(a.union(b), a);
}

#[test]
fn un_rectangulo_degenerado_esta_vacio_y_no_tiene_area() {
    for d in [r(5, 5, 5, 10), r(5, 5, 10, 5), r(10, 10, 5, 5)] {
        assert!(d.is_empty());
        assert_eq!(d.area(), 0);
    }
}

#[test]
fn el_recorte_a_pantalla_no_deja_coordenadas_fuera() {
    let d = r(-50, -50, 2000, 2000).clamp(1280, 800);
    assert_eq!(d, r(0, 0, 1280, 800));
    assert_eq!(d.area(), 1280 * 800);
}

#[test]
fn lo_que_cae_fuera_de_la_pantalla_no_da_area_negativa() {
    let d = r(2000, 2000, 3000, 3000).clamp(1280, 800);
    assert!(d.is_empty());
    assert_eq!(d.area(), 0);
}

#[test]
fn the_largest_rectangle_has_an_area() {
    let d = r(i32::MIN, i32::MIN, i32::MAX, i32::MAX);
    assert_eq!(d.area(), 4294967295u64 * 4294967295u64);
}

#[test]
fn damage_is_switched_on_by_its_setting() {
    assert!(!damage_enabled(None));
    for off in ["0", "false", "TRUE", "11", ""] {
        assert!(!damage_enabled(Some(off)));
    }
    assert!(damage_enabled(Some("1")));
    assert!(damage_enabled(Some("true")));
}

#[test]
fn the_box_of_a_list_is_found_unless_it_is_empty() {
    let lists = vec![list(4, Some(r(1, 2, 3, 4)), &[]), list(5, Some(r(1, 1, 1, 9)), &[]), list(6, None, &[])];
    assert_eq!(rect_de_lista(&lists, 4), Some(r(1, 2, 3, 4)));
    assert_eq!(rect_de_lista(&lists, 5), None);
    assert_eq!(rect_de_lista(&lists, 6), None);
    assert_eq!(rect_de_lista(&lists, 7), None);
}

#[test]
fn sub_lists_are_gathered_once() {
    let lists = vec![list(1, None, &[2, 3]), list(2, None, &[4]), list(3, None, &[4, 1]), list(4, None, &[])];
    let mut out = Vec::new();
    recoger_con_hijos(&lists, 1, &mut out, 0);
    let mut sorted = out.clone();
    sorted.sort_unstable();
    sorted.dedup();
    assert_eq!(sorted.len(), out.len());
    assert_eq!(sorted, vec![1, 2, 3, 4]);
}

#[test]
fn the_first_frame_is_damaged_where_its_lists_are() {
    let mut tracker = DamageTracker::default();
    tracker.observar(&ask(false, &[1], &[]));
    let lists = vec![list(1, Some(r(10, 10, 50, 20)), &[]), list(2, Some(r(0, 0, 500, 500)), &[])];
    assert_eq!(tracker.calcular(&lists, 1000, 1000), Some(r(10, 10, 50, 20)));
}

/// What shrinks leaves no ghost: the damage holds the place where it was.
#[test]
fn a_list_that_shrinks_damages_where_it_was() {
    let mut tracker = DamageTracker::default();
    tracker.observar(&ask(false, &[1], &[]));
    let wide = vec![list(1, Some(r(0, 100, 600, 190)), &[])];
    assert_eq!(tracker.calcular(&wide, 1000, 700), Some(r(0, 100, 600, 190)));
    tracker.observar(&ask(false, &[1], &[]));
    let narrow = vec![list(1, Some(r(0, 100, 480, 190)), &[])];
    assert_eq!(tracker.calcular(&narrow, 1000, 700), Some(r(0, 100, 600, 190)));
    tracker.observar(&ask(false, &[1], &[]));
    assert_eq!(tracker.calcular(&narrow, 1000, 700), Some(r(0, 100, 480, 190)));
}

#[test]
fn a_list_that_moves_damages_both_places() {
    let mut tracker = DamageTracker::default();
    tracker.observar(&ask(false, &[9], &[]));
    tracker.calcular(&vec![list(9, Some(r(0, 0, 10, 10)), &[])], 100, 100);
    tracker.observar(&ask(false, &[9], &[]));
    assert_eq!(
        tracker.calcular(&vec![list(9, Some(r(50, 50, 60, 60)), &[])], 100, 100),
        Some(r(0, 0, 60, 60))
    );
}

#[test]
fn children_of_a_list_are_damaged_with_it_if_asked_for() {
    let lists = vec![
        list(1, Some(r(0, 0, 10, 10)), &[2]),
        list(2, Some(r(20, 20, 30, 30)), &[3]),
        list(3, Some(r(40, 40, 50, 50)), &[]),
    ];
    let mut shallow = DamageTracker::default();
    shallow.observar(&ask(false, &[1], &[]));
    assert_eq!(shallow.calcular(&lists, 100, 100), Some(r(0, 0, 10, 10)));
    let mut deep = DamageTracker::default();
    deep.observar(&ask(false, &[], &[1]));
    assert_eq!(deep.calcular(&lists, 100, 100), Some(r(0, 0, 50, 50)));
    let mut both = DamageTracker::default();
    both.observar(&ask(false, &[1], &[1]));
    assert_eq!(both.calcular(&lists, 100, 100), Some(r(0, 0, 50, 50)));
}

#[test]
fn the_damage_ends_at_the_screen() {
    let mut tracker = DamageTracker::default();
    tracker.observar(&ask(false, &[1], &[]));
    assert_eq!(
        tracker.calcular(&vec![list(1, Some(r(-20, 90, 40, 400)), &[])], 200, 100),
        Some(r(0, 90, 40, 100))
    );
}

#[test]
fn drawing_everything_is_no_rectangle() {
    let mut tracker = DamageTracker::default();
    tracker.observar(&ask(true, &[], &[]));
    let lists = vec![list(1, Some(r(0, 0, 10, 10)), &[])];
    assert_eq!(tracker.calcular(&lists, 100, 100), None);
    tracker.observar(&ask(false, &[1], &[]));
    let moved = vec![list(1, Some(r(20, 20, 30, 30)), &[])];
    assert_eq!(tracker.calcular(&moved, 100, 100), Some(r(0, 0, 30, 30)));
}

/// From nine tenths of the screen on, a scissor is not worth its while.
#[test]
fn nearly_everything_is_everything() {
    let mut tracker = DamageTracker::default();
    tracker.observar(&ask(false, &[1], &[]));
    assert_eq!(tracker.calcular(&vec![list(1, Some(r(0, 0, 100, 90)), &[])], 100, 100), None);
    let mut tracker = DamageTracker::default();
    tracker.observar(&ask(false, &[1], &[]));
    assert_eq!(
        tracker.calcular(&vec![list(1, Some(r(0, 0, 100, 89)), &[])], 100, 100),
        Some(r(0, 0, 100, 89))
    );
}

/// An unknown damage is the whole screen, and so is one that lies outside of it.
#[test]
fn an_unknown_damage_is_not_an_empty_one() {
    let mut tracker = DamageTracker::default();
    tracker.observar(&ask(false, &[], &[]));
    assert_eq!(tracker.calcular(&vec![list(1, Some(r(0, 0, 10, 10)), &[])], 100, 100), None);
    tracker.observar(&ask(false, &[7], &[]));
    assert_eq!(tracker.calcular(&vec![list(7, Some(r(300, 0, 310, 10)), &[])], 100, 100), None);
}

#[test]
fn a_list_that_vanishes_damages_where_it_was() {
    let mut tracker = DamageTracker::default();
    tracker.observar(&ask(false, &[3], &[]));
    tracker.calcular(&vec![list(3, Some(r(5, 5, 15, 15)), &[])], 100, 100);
    tracker.observar(&ask(false, &[3], &[]));
    assert_eq!(tracker.calcular(&vec![], 100, 100), Some(r(5, 5, 15, 15)));
}

/// The first answer holds, whatever the environment says later.
#[test]
fn the_first_answer_holds() {
    for first in [None, Some("0"), Some("1"), Some("true"), Some("yes")] {
        let want = matches!(first, Some("1") | Some("true"));
        let mut switch = DamageSwitch::new();
        assert_eq!(switch.is_on(first), want);
        for later in [Some("1"), None, Some("0")] {
            assert_eq!(switch.is_on(later), want);
        }
    }
}
