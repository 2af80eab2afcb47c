use moi::model::env::Env;
use moi::model::load::{finish_loaded_module, manifest_path, missing_modules_dir};
use moi::model::module::{Module, ModuleName, RawModule};
use moi::model::modules::{resolve, ModuleSet};
use moi::model::package::Packages;

fn module(name: &str, deps: &[&str]) -> Module {
    Module::from_raw(RawModule {
        name: ModuleName::new(name.to_string()).unwrap(),
        depends_on: deps
            .iter()
            .map(|dep| ModuleName::new(dep.to_string()).unwrap())
            .collect(),
        followups: Vec::new(),
        packages: Packages::empty(),
        dirs: Vec::new(),
        files: Vec::new(),
        blocks: Vec::new(),
        commands: Vec::new(),
        env: Env::empty(),
    })
    .unwrap()
}

fn set_of(modules: Vec<Module>) -> ModuleSet {
    let mut set = ModuleSet::new();
    for m in modules {
        set.insert(m);
    }
    set
}

fn names(ordered: &[&Module]) -> Vec<String> {
    ordered
        .iter()
        .map(|module| module.name().as_str().to_string())
        .collect()
}

#[test]
fn test_resolve_all_in_dependency_order() {
    let modules = set_of(vec![
        module("core", &[]),
        module("git", &["core"]),
        module("zsh", &["core"]),
    ]);
    let ordered = resolve(&modules, &Vec::new()).unwrap();

    assert_eq!(names(&ordered), ["core", "git", "zsh"]);
}

#[test]
fn test_resolve_requested_module_includes_dependency() {
    let modules = set_of(vec![
        module("core", &[]),
        module("git", &["core"]),
        module("zsh", &["core"]),
    ]);
    let ordered = resolve(&modules, &vec![String::from("git")]).unwrap();

    assert_eq!(names(&ordered), ["core", "git"]);
}

#[test]
fn test_reject_unknown_requested_module() {
    let modules = set_of(vec![module("core", &[])]);
    let error = resolve(&modules, &vec![String::from("missing")]).unwrap_err();

    assert!(error.message().contains("unknown module: missing"));
}

#[test]
fn test_reject_unknown_dependency() {
    let modules = set_of(vec![module("git", &["core"])]);
    let error = resolve(&modules, &Vec::new()).unwrap_err();

    assert!(error.message().contains("git: unknown dependency: core"));
}

#[test]
fn test_reject_dependency_cycle() {
    let modules = set_of(vec![module("a", &["b"]), module("b", &["a"])]);
    let error = resolve(&modules, &Vec::new()).unwrap_err();

    assert!(error.message().contains("dependency cycle"));
}

#[test]
fn test_cycle_message_names_the_path() {
    let modules = set_of(vec![module("a", &["b"]), module("b", &["a"])]);
    let error = resolve(&modules, &Vec::new()).unwrap_err();
    assert_eq!(error.message(), "dependency cycle: a -> b -> a");
}

#[test]
fn test_dependencies_come_first_and_once() {
    let modules = set_of(vec![
        module("zsh", &["git", "core"]),
        module("git", &["core"]),
        module("core", &[]),
        module("nvim", &["zsh"]),
        module("extra", &[]),
    ]);
    let ordered = resolve(&modules, &vec!["nvim".to_string(), "git".to_string()]).unwrap();
    assert_eq!(names(&ordered), ["core", "git", "zsh", "nvim"]);
}

#[test]
fn test_module_set_keeps_one_module_per_name() {
    let mut set = ModuleSet::new();
    set.insert(module("git", &[]));
    set.insert(module("core", &[]));
    set.insert(module("git", &["core"]));
    assert_eq!(set.len(), 2);
    assert!(set.contains_key("git"));
    assert_eq!(set.get("git").unwrap().depends_on().len(), 1);
    assert!(set.get("zsh").is_none());
}

#[test]
fn test_reject_module_name_mismatch() {
    let error = finish_loaded_module(
        module("declared", &[]),
        "/tmp/modules/actual".to_string(),
        Some("actual"),
        "/tmp/modules/actual/module.toml",
    )
    .unwrap_err();

    assert!(error
        .message()
        .contains("name must match directory name (actual)"));
}

#[test]
fn test_loaded_module_records_its_directory() {
    let loaded = finish_loaded_module(
        module("core", &[]),
        "/repo/env/modules/core".to_string(),
        Some("core"),
        "/repo/env/modules/core/module.toml",
    )
    .unwrap();
    assert_eq!(loaded.path(), "/repo/env/modules/core");
    let error = finish_loaded_module(module("core", &[]), String::new(), None, "m").unwrap_err();
    assert_eq!(error.message(), "invalid module directory name");
    assert_eq!(manifest_path("/repo/core"), "/repo/core/module.toml");
    assert_eq!(
        missing_modules_dir("/repo/x/modules").message(),
        "modules directory not found: /repo/x/modules"
    );
}

#[test]
fn test_dependencies_of_one_module_come_in_name_order() {
    let modules = set_of(vec![module("x", &["z", "y"]), module("y", &[]), module("z", &[])]);
    let ordered = resolve(&modules, &vec![String::from("x")]).unwrap();
    assert_eq!(names(&ordered), ["y", "z", "x"]);
}

#[test]
fn test_request_order_and_full_list_give_the_same_result() {
    let modules = set_of(vec![
        module("zsh", &["git", "core"]),
        module("git", &["core"]),
        module("core", &[]),
        module("nvim", &["zsh"]),
    ]);
    let first = resolve(&modules, &vec!["nvim".to_string(), "git".to_string()]).unwrap();
    let second = resolve(&modules, &vec!["git".to_string(), "nvim".to_string(), "git".to_string()]).unwrap();
    assert_eq!(names(&first), names(&second));
    let all = resolve(&modules, &Vec::new()).unwrap();
    let listed = resolve(
        &modules,
        &vec!["zsh".to_string(), "nvim".to_string(), "git".to_string(), "core".to_string()],
    )
    .unwrap();
    assert_eq!(names(&all), names(&listed));
}
