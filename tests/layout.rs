use tiler::geometry::{share, Rect, GAP};
use tiler::layout::tile;
use tiler::state::{CommitOutcome, Configure, RegistryError, State};

fn state_with(output: Rect, surfaces: &[u64]) -> State {
    let mut st = State::new();
    st.on_output_changed(output);
    for &s in surfaces {
        st.on_window_created(s).unwrap();
    }
    st
}

fn geometries(st: &State) -> Vec<Rect> {
    st.windows().iter().map(|w| w.geometry).collect()
}

fn overlaps(a: &Rect, b: &Rect) -> bool {
    a.width > 0
        && a.height > 0
        && b.width > 0
        && b.height > 0
        && a.x < b.x + b.width
        && b.x < a.x + a.width
        && a.y < b.y + b.height
        && b.y < a.y + a.height
}

#[test]
fn single_window_fills_output() {
    let st = state_with(Rect::new(0, 0, 800, 600), &[1]);
    assert_eq!(geometries(&st), vec![Rect::new(6, 6, 788, 588)]);
}

#[test]
fn two_windows_split() {
    let st = state_with(Rect::new(0, 0, 800, 600), &[1, 2]);
    assert_eq!(
        geometries(&st),
        vec![Rect::new(6, 6, 391, 588), Rect::new(403, 6, 391, 588)]
    );
}

#[test]
fn three_windows_stack_vertically() {
    let st = state_with(Rect::new(0, 0, 800, 600), &[1, 2, 3]);
    assert_eq!(
        geometries(&st),
        vec![
            Rect::new(6, 6, 391, 588),
            Rect::new(403, 6, 391, 294),
            Rect::new(403, 306, 391, 288),
        ]
    );
}

#[test]
fn stack_height_truncates() {
    let st = state_with(Rect::new(0, 0, 800, 600), &[1, 2, 3, 4, 5, 6]);
    let g = geometries(&st);
    // 588 / 5 = 117, remainder 3 stays unused at the bottom
    assert_eq!(g[1], Rect::new(403, 6, 391, 117));
    assert_eq!(g[2], Rect::new(403, 129, 391, 111));
    assert_eq!(g[5], Rect::new(403, 480, 391, 111));
}

#[test]
fn odd_width_gives_stack_the_extra_unit() {
    let st = state_with(Rect::new(0, 0, 801, 600), &[1, 2]);
    let g = geometries(&st);
    // available 789, master (789 - 6) / 2 = 391, stack 789 - 391 - 6 = 392
    assert_eq!(g[0], Rect::new(6, 6, 391, 588));
    assert_eq!(g[1], Rect::new(403, 6, 392, 588));
}

#[test]
fn output_origin_is_respected() {
    let st = state_with(Rect::new(1920, -100, 800, 600), &[1]);
    assert_eq!(geometries(&st), vec![Rect::new(1926, -94, 788, 588)]);
}

#[test]
fn no_two_windows_overlap() {
    let outputs = [
        Rect::new(0, 0, 800, 600),
        Rect::new(0, 0, 1921, 1079),
        Rect::new(-50, 30, 37, 41),
        Rect::new(0, 0, 10, 10),
        Rect::new(0, 0, 0, 0),
    ];
    for o in outputs.iter() {
        for n in 0..9u64 {
            let surfaces: Vec<u64> = (0..n).collect();
            let st = state_with(*o, &surfaces);
            let g = geometries(&st);
            for i in 0..g.len() {
                for j in 0..g.len() {
                    if i != j {
                        assert!(!overlaps(&g[i], &g[j]), "{:?} {:?} on {:?}", g[i], g[j], o);
                    }
                }
            }
        }
    }
}

#[test]
fn refresh_twice_gives_the_same_geometry() {
    let mut st = state_with(Rect::new(0, 0, 1280, 720), &[4, 5, 6, 7]);
    let first_windows = st.windows().clone();
    let first = st.refresh_geometry();
    let second = st.refresh_geometry();
    assert_eq!(first, second);
    assert_eq!(st.windows(), &first_windows);
    assert_eq!(first.len(), 4);
    assert_eq!(first[3].surface, 7);
}

#[test]
fn removing_master_promotes_next_window() {
    let mut st = state_with(Rect::new(0, 0, 800, 600), &[1, 2, 3]);
    let master = st.windows()[0].geometry;
    let sent = st.on_window_destroyed(1).unwrap();
    assert_eq!(st.windows()[0].surface, 2);
    assert_eq!(st.windows()[0].geometry, master);
    assert_eq!(sent[0], Configure { surface: 2, geometry: master });
    assert_eq!(st.windows()[1].geometry, Rect::new(403, 6, 391, 588));
}

#[test]
fn removing_master_of_two_leaves_one_full_window() {
    let mut st = state_with(Rect::new(0, 0, 800, 600), &[1, 2]);
    st.on_window_destroyed(1).unwrap();
    assert_eq!(geometries(&st), vec![Rect::new(6, 6, 788, 588)]);
    assert_eq!(st.windows()[0].surface, 2);
}

#[test]
fn configure_is_sent_before_content_without_output() {
    let mut st = State::new();
    assert_eq!(st.on_window_created(3), Ok(vec![]));
    assert_eq!(
        st.on_window_committed(3),
        CommitOutcome::ConfigureFirst(Configure { surface: 3, geometry: Rect::new(0, 0, 0, 0) })
    );
    assert_eq!(st.on_window_committed(3), CommitOutcome::Visible);
    assert_eq!(st.on_window_committed(3), CommitOutcome::Visible);
}

#[test]
fn layout_configure_counts_as_initial_configure() {
    let mut st = State::new();
    st.on_output_changed(Rect::new(0, 0, 800, 600));
    let sent = st.on_window_created(3).unwrap();
    assert_eq!(sent, vec![Configure { surface: 3, geometry: Rect::new(6, 6, 788, 588) }]);
    assert!(st.windows()[0].configured);
    assert_eq!(st.on_window_committed(3), CommitOutcome::Visible);
}

#[test]
fn output_arriving_later_configures_waiting_windows() {
    let mut st = State::new();
    st.on_window_created(1).unwrap();
    st.on_window_created(2).unwrap();
    assert!(!st.windows()[0].configured);
    let sent = st.on_output_changed(Rect::new(0, 0, 800, 600));
    assert_eq!(sent.len(), 2);
    assert!(st.windows().iter().all(|w| w.configured));
    assert_eq!(st.on_window_committed(1), CommitOutcome::Visible);
}

#[test]
fn unknown_surface_commit_changes_nothing() {
    let mut st = state_with(Rect::new(0, 0, 800, 600), &[1, 2]);
    let before = st.windows().clone();
    assert_eq!(st.on_window_committed(99), CommitOutcome::UnknownSurface);
    assert_eq!(st.windows(), &before);
}

#[test]
fn duplicate_surface_is_refused() {
    let mut st = state_with(Rect::new(0, 0, 800, 600), &[1]);
    let before = st.windows().clone();
    assert_eq!(st.on_window_created(1), Err(RegistryError::DuplicateSurface));
    assert_eq!(st.add(1), Err(RegistryError::DuplicateSurface));
    assert_eq!(st.windows(), &before);
    assert_eq!(st.add(2), Ok(1));
}

#[test]
fn destroying_unknown_surface_is_ignored() {
    let mut st = state_with(Rect::new(0, 0, 800, 600), &[1]);
    assert_eq!(st.on_window_destroyed(5), None);
    assert_eq!(st.remove(5), None);
    assert_eq!(st.windows().len(), 1);
}

#[test]
fn remove_keeps_order_of_others() {
    let mut st = State::new();
    for s in [10u64, 20, 30, 40] {
        st.add(s).unwrap();
    }
    let gone = st.remove(20).unwrap();
    assert_eq!(gone.surface, 20);
    let left: Vec<u64> = st.windows().iter().map(|w| w.surface).collect();
    assert_eq!(left, vec![10, 30, 40]);
    assert_eq!(st.find(30), Some(1));
    assert_eq!(st.find(20), None);
}

#[test]
fn refresh_without_output_does_nothing() {
    let mut st = State::new();
    st.add(1).unwrap();
    assert_eq!(st.refresh_geometry(), vec![]);
    assert_eq!(st.windows()[0].geometry, Rect::new(0, 0, 0, 0));
    assert_eq!(st.output(), None);
}

#[test]
fn tiny_output_gives_empty_tiles() {
    let st = state_with(Rect::new(0, 0, 10, 10), &[1, 2, 3]);
    let g = geometries(&st);
    assert_eq!(g[0], Rect::new(6, 6, -4, -2));
    assert_eq!(g[1], Rect::new(8, 6, -4, -1));
    assert_eq!(g[2], Rect::new(8, 11, -4, -7));
}

#[test]
fn output_fit_check() {
    assert!(Rect::new(0, 0, 800, 600).can_be_tiled());
    assert!(!Rect::new(0, 0, -1, 600).can_be_tiled());
    assert!(!Rect::new(i32::MAX - 100, 0, 100, 600).can_be_tiled());
    assert!(Rect::new(i32::MAX - 112, 0, 100, 600).can_be_tiled());
    assert!(!Rect::new(0, i32::MIN, 10, 10).can_be_tiled());
    assert!(Rect::new(0, i32::MIN + 12, 10, 10).can_be_tiled());
}

#[test]
fn shrink_and_split() {
    let r = Rect::new(0, 0, 800, 600);
    let a = r.shrink(GAP);
    assert_eq!(a, Rect::new(6, 6, 788, 588));
    let (left, right) = a.split_at(391, GAP);
    assert_eq!(left, Rect::new(6, 6, 391, 588));
    assert_eq!(right, Rect::new(403, 6, 391, 588));
}

#[test]
fn share_rounds_toward_zero() {
    assert_eq!(share(7, 2), 3);
    assert_eq!(share(-7, 2), -3);
    assert_eq!(share(i32::MIN, 1), i32::MIN);
    assert_eq!(share(5, usize::MAX), 0);
    assert_eq!(share(-5, usize::MAX), 0);
}

#[test]
fn tile_matches_state_layout() {
    let o = Rect::new(0, 0, 800, 600);
    assert_eq!(tile(&o, 3, 2), Rect::new(403, 306, 391, 288));
    assert_eq!(tile(&o, 1, 0), Rect::new(6, 6, 788, 588));
}

#[test]
fn client_size_is_at_least_one_unit() {
    assert_eq!(Rect::new(6, 6, 391, 588).size_for_client(), (391, 588));
    assert_eq!(Rect::new(6, 6, -4, 0).size_for_client(), (1, 1));
    assert_eq!(Rect::new(8, 11, 1, -7).size_for_client(), (1, 1));
}
