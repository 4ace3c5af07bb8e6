use plumbline_core::home::{choose_home, HomeKind};

#[test]
fn an_override_wins_even_unhydrated() {
    assert_eq!(choose_home(&[false, true], Some(true), &[true], Some(true)), Some((HomeKind::Env, 1)));
}

#[test]
fn the_candidates_are_tried_in_order() {
    assert_eq!(choose_home(&[false, false], Some(true), &[true], Some(true)), Some((HomeKind::Tree, 0)));
    assert_eq!(choose_home(&[false, false], Some(false), &[false, true], Some(true)), Some((HomeKind::ExeDir, 1)));
    assert_eq!(choose_home(&[false, false], None, &[], Some(true)), Some((HomeKind::DataDir, 0)));
    assert_eq!(choose_home(&[false, false], Some(false), &[false, false], Some(false)), None);
    assert_eq!(choose_home(&[], None, &[], None), None);
}

#[test]
fn each_kind_has_a_label() {
    assert_eq!(HomeKind::Env.label(), "environment override");
    assert_eq!(HomeKind::ExeDir.label(), "app data (next to the executable)");
}
