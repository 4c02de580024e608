use cabin::compile_time::type_tree::{DependencyError, VariableDependencyTreeSet};
use cabin::parser::expressions::util::name::Name;

fn name(text: &str) -> Name {
    Name(text.to_owned())
}

fn texts(names: &[Name]) -> Vec<String> {
    names.iter().map(|n| n.0.clone()).collect()
}

#[test]
fn new_set_builds_no_tree() {
    let trees = VariableDependencyTreeSet::new();
    assert!(!trees.is_creating_dependency_tree());
    assert!(trees.dependencies(&name("x")).is_empty());
}

#[test]
fn dependency_without_tree_is_refused() {
    let mut trees = VariableDependencyTreeSet::new();
    assert_eq!(trees.add_dependency(name("y")), Err(DependencyError::NoCurrentTree));
}

#[test]
fn closing_without_tree_is_refused() {
    let mut trees = VariableDependencyTreeSet::new();
    assert_eq!(trees.close_tree(), Err(DependencyError::NoCurrentTree));
}

#[test]
fn close_returns_to_previous_tree() {
    let mut trees = VariableDependencyTreeSet::new();
    trees.create_new_tree_and_set_current(name("outer"));
    trees.create_new_tree_and_set_current(name("inner"));
    assert_eq!(trees.close_tree(), Ok(()));
    assert!(trees.is_creating_dependency_tree());
    trees.add_dependency(name("z")).unwrap();
    assert_eq!(texts(&trees.dependencies(&name("outer"))), vec!["z"]);
    assert!(trees.dependencies(&name("inner")).is_empty());
    assert_eq!(trees.close_tree(), Ok(()));
    assert!(!trees.is_creating_dependency_tree());
}

#[test]
fn mutual_dependency_is_detected() {
    // let x = y;
    // let y = x;
    let mut trees = VariableDependencyTreeSet::new();
    trees.create_new_tree_and_set_current(name("x"));
    assert_eq!(trees.add_dependency(name("y")), Ok(()));
    trees.close_tree().unwrap();
    trees.create_new_tree_and_set_current(name("y"));
    assert_eq!(
        trees.add_dependency(name("x")),
        Err(DependencyError::Cycle { current: name("y"), dependency: name("x") })
    );
    assert!(trees.dependencies(&name("y")).is_empty());
}

#[test]
fn longer_cycle_is_detected() {
    let mut trees = VariableDependencyTreeSet::new();
    trees.create_new_tree_and_set_current(name("a"));
    trees.add_dependency(name("b")).unwrap();
    trees.close_tree().unwrap();
    trees.create_new_tree_and_set_current(name("b"));
    trees.add_dependency(name("c")).unwrap();
    trees.close_tree().unwrap();
    trees.create_new_tree_and_set_current(name("c"));
    assert!(trees.add_dependency(name("a")).is_err());
    assert_eq!(trees.add_dependency(name("d")), Ok(()));
}

#[test]
fn depending_on_itself_is_refused() {
    let mut trees = VariableDependencyTreeSet::new();
    trees.create_new_tree_and_set_current(name("x"));
    assert_eq!(
        trees.add_dependency(name("x")),
        Err(DependencyError::Cycle { current: name("x"), dependency: name("x") })
    );
    assert!(trees.dependencies(&name("x")).is_empty());
}

#[test]
fn repeated_dependency_is_recorded_once() {
    let mut trees = VariableDependencyTreeSet::new();
    trees.create_new_tree_and_set_current(name("x"));
    trees.add_dependency(name("y")).unwrap();
    trees.add_dependency(name("y")).unwrap();
    assert_eq!(texts(&trees.dependencies(&name("x"))), vec!["y"]);
}

#[test]
fn depends_on_follows_trees_only() {
    let mut trees = VariableDependencyTreeSet::new();
    trees.create_new_tree_and_set_current(name("x"));
    trees.add_dependency(name("y")).unwrap();
    trees.close_tree().unwrap();
    // `y` has no tree, so nothing is known to depend on it.
    assert!(!trees.depends_on(&name("x"), &name("y")));
    assert!(trees.depends_on(&name("x"), &name("x")));
    assert!(!trees.depends_on(&name("y"), &name("y")));
    trees.create_new_tree_and_set_current(name("y"));
    trees.close_tree().unwrap();
    assert!(trees.depends_on(&name("x"), &name("y")));
    assert!(!trees.depends_on(&name("y"), &name("x")));
}

#[test]
fn dependencies_lists_sub_dependencies() {
    let mut trees = VariableDependencyTreeSet::new();
    trees.create_new_tree_and_set_current(name("a"));
    trees.add_dependency(name("b")).unwrap();
    trees.create_new_tree_and_set_current(name("b"));
    trees.add_dependency(name("c")).unwrap();
    trees.close_tree().unwrap();
    trees.close_tree().unwrap();
    assert_eq!(texts(&trees.dependencies(&name("a"))), vec!["b", "c"]);
    assert_eq!(texts(&trees.dependencies(&name("b"))), vec!["c"]);
}

#[test]
fn new_tree_forgets_earlier_dependencies() {
    let mut trees = VariableDependencyTreeSet::new();
    trees.create_new_tree_and_set_current(name("x"));
    trees.add_dependency(name("y")).unwrap();
    trees.close_tree().unwrap();
    trees.create_new_tree_and_set_current(name("x"));
    assert!(trees.dependencies(&name("x")).is_empty());
}

#[test]
fn each_dependency_is_listed_once() {
    let mut trees = VariableDependencyTreeSet::new();
    trees.create_new_tree_and_set_current(name("x"));
    trees.add_dependency(name("y")).unwrap();
    trees.add_dependency(name("z")).unwrap();
    trees.close_tree().unwrap();
    trees.create_new_tree_and_set_current(name("y"));
    trees.add_dependency(name("z")).unwrap();
    trees.close_tree().unwrap();
    assert_eq!(texts(&trees.dependencies(&name("x"))), vec!["y", "z"]);
}
