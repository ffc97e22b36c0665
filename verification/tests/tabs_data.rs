use lanquetta::body::{State, Tab};
use lanquetta::request::ServiceOptions;
use lanquetta::tab::TabState;
use lanquetta::tabs_data::TabChange;

fn options() -> ServiceOptions {
    ServiceOptions { default_address: None, verify_certs: true }
}

fn body(ids: &[u64], selected: Option<u64>) -> State {
    State::new(
        ids.iter().map(|id| Tab { id: *id, state: TabState::new_reflection(options()) }).collect(),
        selected,
    )
}

#[test]
fn changes_between_two_tab_sets_are_in_id_order() {
    let old = body(&[1, 3, 5], Some(3));
    let new = body(&[2, 3, 6], None);
    assert_eq!(
        new.tab_changes(&old),
        vec![
            (1, TabChange::Removed),
            (2, TabChange::Added),
            (3, TabChange::Changed),
            (5, TabChange::Removed),
            (6, TabChange::Added),
        ]
    );
    assert_eq!(new.tab_changes(&new), vec![(2, TabChange::Changed), (3, TabChange::Changed), (6, TabChange::Changed)]);
}

#[test]
fn labels_mark_the_selected_tab() {
    let state = body(&[1, 4], Some(4));
    let labels = state.tab_labels();
    assert_eq!(labels.len(), 2);
    assert_eq!(labels[0].text, "Server reflection");
    assert!(!labels[0].selected && labels[1].selected);
}

#[test]
fn a_label_marked_selected_selects_its_tab() {
    let mut state = body(&[1, 4], Some(4));
    state.set_label_selected(1, true);
    assert_eq!(state.selected_tab(), Some(1));
    state.set_label_selected(4, false);
    assert_eq!(state.selected_tab(), Some(1));
    state.set_label_selected(1, false);
    assert_eq!(state.selected_tab(), None);
}
