use moi::exec::environment::ExecutionEnv;
use moi::model::env::Env;
use moi::model::module::{Module, ModuleName, RawModule};
use moi::model::package::Packages;

fn module_with_path_prepend(paths: &[&str]) -> Module {
    Module::from_raw(RawModule {
        name: ModuleName::new("test".to_string()).unwrap(),
        depends_on: Vec::new(),
        followups: Vec::new(),
        packages: Packages::empty(),
        dirs: Vec::new(),
        files: Vec::new(),
        blocks: Vec::new(),
        commands: Vec::new(),
        env: Env::new(paths.iter().map(|p| p.to_string()).collect()).unwrap(),
    })
    .unwrap()
}

#[test]
fn test_path_prepend_preserves_existing_path_segments() {
    let module = module_with_path_prepend(&["/opt/bin"]);
    let mut env = ExecutionEnv::new("/usr/local/bin:/usr/bin".to_string());

    env.apply_module_env(&module, Some("/home/u")).unwrap();

    let paths = env.path().split(':').collect::<Vec<_>>();
    assert_eq!(paths, ["/opt/bin", "/usr/local/bin", "/usr/bin"]);
}

#[test]
fn test_path_prepend_expands_home_and_keeps_order() {
    let module = module_with_path_prepend(&["~/.local/bin", "~", "/opt/bin"]);
    let mut env = ExecutionEnv::new("/usr/bin".to_string());
    env.apply_module_env(&module, Some("/home/u")).unwrap();
    assert_eq!(env.path(), "/home/u/.local/bin:/home/u:/opt/bin:/usr/bin");
}

#[test]
fn test_path_prepend_onto_empty_path() {
    let module = module_with_path_prepend(&["/opt/bin"]);
    let mut env = ExecutionEnv::new(String::new());
    env.apply_module_env(&module, None).unwrap();
    assert_eq!(env.path(), "/opt/bin:");
}

#[test]
fn test_module_without_path_prepend_keeps_path() {
    let module = module_with_path_prepend(&[]);
    let mut env = ExecutionEnv::new("/usr/bin".to_string());
    env.apply_module_env(&module, None).unwrap();
    assert_eq!(env.path(), "/usr/bin");
}

#[test]
fn test_path_prepend_errors_leave_path_unchanged() {
    let module = module_with_path_prepend(&["~/.local/bin"]);
    let mut env = ExecutionEnv::new("/usr/bin".to_string());
    let error = env.apply_module_env(&module, None).unwrap_err();
    assert_eq!(error.message(), "HOME is not set");
    assert_eq!(env.path(), "/usr/bin");

    let module = module_with_path_prepend(&["/a:b"]);
    let error = env.apply_module_env(&module, None).unwrap_err();
    assert_eq!(error.message(), "path segment contains separator `:`");
    assert_eq!(env.path(), "/usr/bin");
}

#[test]
fn test_candidates_join_command_to_each_directory() {
    let env = ExecutionEnv::new("/usr/local/bin::/usr/bin/".to_string());
    assert_eq!(
        env.candidates("npm"),
        ["/usr/local/bin/npm", "npm", "/usr/bin/npm"]
    );
}

#[test]
fn test_env_dump_sets_path_from_last_assignment() {
    let mut env = ExecutionEnv::new("/usr/bin".to_string());
    let dump = b"HOME=/home/u\0PATH=/nvm/bin:/usr/bin\0XPATH=no\0PATH=/last\0".to_vec();
    env.apply_env_dump(&dump);
    assert_eq!(env.path(), "/last");

    let mut env = ExecutionEnv::new("/usr/bin".to_string());
    env.apply_env_dump(&b"HOME=/home/u\0PATHX=/x\0".to_vec());
    assert_eq!(env.path(), "/usr/bin");

    env.set_path("/set".to_string());
    assert_eq!(env.path(), "/set");
}
