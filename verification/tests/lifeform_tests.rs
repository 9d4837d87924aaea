use mobius_life::gameoflife::Lifeform;
use mobius_life::naming::lifeform_name;
use mobius_life::naming::push_decimal;

#[test]
fn new_lifeform_is_all_dead() {
    let lifeform = Lifeform::new(String::from("glider"), 3, 2);
    assert_eq!(lifeform.name, "glider");
    assert_eq!(lifeform.width, 3);
    assert_eq!(lifeform.height, 2);
    assert_eq!(lifeform.data, vec![0; 6]);
}

#[test]
fn reset_clears_and_renames() {
    let mut lifeform = Lifeform::new(String::from("glider"), 3, 3);
    lifeform.reset(7);
    assert_eq!(lifeform.name, "New Lifeform 7");
    assert_eq!(lifeform.width, 0);
    assert_eq!(lifeform.height, 0);
    assert!(lifeform.data.is_empty());
}

#[test]
fn default_names_count_in_decimal() {
    assert_eq!(lifeform_name(0), "New Lifeform 0");
    assert_eq!(lifeform_name(10), "New Lifeform 10");
    assert_eq!(lifeform_name(1234), "New Lifeform 1234");
    assert_eq!(lifeform_name(usize::MAX), format!("New Lifeform {}", usize::MAX));
}

#[test]
fn decimal_is_appended() {
    let mut s = String::from("x=");
    push_decimal(&mut s, 905);
    assert_eq!(s, "x=905");
}

#[test]
fn toggling_a_cell_twice_restores_it() {
    let mut lifeform = Lifeform::new(String::from("p"), 3, 2);
    lifeform.toggle_cell(2, 1);
    assert_eq!(lifeform.data, vec![0, 0, 0, 0, 0, 1]);
    lifeform.toggle_cell(0, 0);
    assert_eq!(lifeform.data, vec![1, 0, 0, 0, 0, 1]);
    lifeform.toggle_cell(2, 1);
    assert_eq!(lifeform.data, vec![1, 0, 0, 0, 0, 0]);
}
