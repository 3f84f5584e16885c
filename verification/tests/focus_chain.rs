use devix_core::editor::focus_chain::{FocusChain, FocusTransition, pane_path_from_indices};

#[test]
fn replace_returns_none_on_no_change() {
    let mut chain = FocusChain::new();
    chain.replace(vec![0, 1]);
    assert!(chain.replace(vec![0, 1]).is_none());
}

#[test]
fn replace_returns_transition_on_change() {
    let mut chain = FocusChain::new();
    let t = chain.replace(vec![0]).unwrap();
    assert_eq!(t.from, Vec::<usize>::new());
    assert_eq!(t.to, vec![0]);
    let t = chain.replace(vec![1, 2]).unwrap();
    assert_eq!(t.from, vec![0]);
    assert_eq!(t.to, vec![1, 2]);
}

#[test]
fn transform_does_not_produce_transition() {
    let mut chain = FocusChain::new();
    chain.replace(vec![0]);
    chain.transform(|mut p| {
        p.insert(0, 0);
        p
    });
    assert_eq!(chain.active(), &[0, 0]);
}

#[test]
fn transition_into_pulse_round_trips_paths() {
    let t = FocusTransition { from: vec![0], to: vec![1, 2] };
    let (from, to) = t.pane_paths();
    assert_eq!(from, "/pane/0");
    assert_eq!(to, "/pane/1/2");
}

#[test]
fn pane_path_of_root_is_bare_pane() {
    assert_eq!(pane_path_from_indices(&[]), "/pane");
    assert_eq!(pane_path_from_indices(&[10, 0]), "/pane/10/0");
}
