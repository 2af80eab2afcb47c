use moi::exec::block::{replace_or_append, BlockOperation};
use moi::model::block::Block;
use moi::model::module::{Module, ModuleName, RawModule};
use moi::model::package::Packages;
use moi::model::env::Env;
use moi::model::platform_filter::PlatformFilter;

#[test]
fn test_replace_or_append_adds_block() {
    let updated = replace_or_append("hello\n", "moi:test", "body\n").unwrap();

    assert_eq!(
        updated,
        "hello\n\n\n# >>> moi:test >>>\nbody\n# <<< moi:test <<<\n"
    );
}

#[test]
fn test_replace_or_append_replaces_block() {
    let existing = "# >>> moi:test >>>\nold\n# <<< moi:test <<<\n";
    let updated = replace_or_append(existing, "moi:test", "new").unwrap();

    assert_eq!(updated, "# >>> moi:test >>>\nnew\n# <<< moi:test <<<\n");
}

#[test]
fn test_append_to_empty_text_adds_no_padding() {
    let updated = replace_or_append("", "m", "x").unwrap();
    assert_eq!(updated, "# >>> m >>>\nx\n# <<< m <<<\n");
}

#[test]
fn test_append_pads_text_without_final_newline() {
    let updated = replace_or_append("a", "m", "").unwrap();
    assert_eq!(updated, "a\n\n\n# >>> m >>>\n# <<< m <<<\n");
}

#[test]
fn test_append_keeps_existing_blank_lines() {
    let updated = replace_or_append("a\n\n\n\n", "m", "x\n").unwrap();
    assert_eq!(updated, "a\n\n\n\n# >>> m >>>\nx\n# <<< m <<<\n");
}

#[test]
fn test_replace_keeps_surrounding_lines() {
    let existing = "before\n# >>> m >>>\nold\n# <<< m <<<\nafter\n";
    let updated = replace_or_append(existing, "m", "new\n").unwrap();
    assert_eq!(updated, "before\n# >>> m >>>\nnew\n# <<< m <<<\nafter\n");
}

#[test]
fn test_applying_twice_changes_nothing() {
    let once = replace_or_append("top\n", "m", "body").unwrap();
    let twice = replace_or_append(&once, "m", "body").unwrap();
    assert_eq!(once, twice);
}

#[test]
fn test_reject_unbalanced_markers() {
    let error = replace_or_append("# >>> m >>>\n", "m", "x").unwrap_err();
    assert_eq!(error.message(), "marker block is unbalanced: m");
}

#[test]
fn test_reject_repeated_block() {
    let existing = "# >>> m >>>\n# <<< m <<<\n# >>> m >>>\n# <<< m <<<\n";
    let error = replace_or_append(existing, "m", "x").unwrap_err();
    assert_eq!(error.message(), "marker block appears multiple times: m");
}

#[test]
fn test_reject_reversed_markers() {
    let existing = "# <<< m <<<\n# >>> m >>>\n";
    let error = replace_or_append(existing, "m", "x").unwrap_err();
    assert_eq!(error.message(), "marker block is invalid: m");
}

fn module_at(path: &str, blocks: Vec<Block>) -> Module {
    let mut module = Module::from_raw(RawModule {
        name: ModuleName::new("zsh".to_string()).unwrap(),
        depends_on: Vec::new(),
        followups: Vec::new(),
        packages: Packages::empty(),
        dirs: Vec::new(),
        files: Vec::new(),
        blocks,
        commands: Vec::new(),
        env: Env::empty(),
    })
    .unwrap();
    module.set_path(path.to_string());
    module
}

#[test]
fn test_block_operation_describes_and_updates() {
    let block = Block::new(
        "files/keychain.sh".to_string(),
        "~/.zshrc".to_string(),
        "moi:keychain".to_string(),
        PlatformFilter::Arch,
    )
    .unwrap();
    let module = module_at("/repo/zsh", vec![]);
    assert_eq!(
        BlockOperation::source_path(&module, &block),
        "/repo/zsh/files/keychain.sh"
    );
    let op = BlockOperation::resolve(&module, &block, Some("/home/u"), true).unwrap();
    assert_eq!(
        op.describe(),
        "block [arch] /repo/zsh/files/keychain.sh -> /home/u/.zshrc marker=moi:keychain"
    );
    assert_eq!(
        op.updated("", "k\n").unwrap(),
        "# >>> moi:keychain >>>\nk\n# <<< moi:keychain <<<\n"
    );
}

#[test]
fn test_block_operation_requires_source_file() {
    let block = Block::new(
        "files/k.sh".to_string(),
        "~/.zshrc".to_string(),
        "m".to_string(),
        PlatformFilter::Common,
    )
    .unwrap();
    let module = module_at("/repo/zsh", vec![]);
    let error = BlockOperation::resolve(&module, &block, Some("/home/u"), false).unwrap_err();
    assert_eq!(error.message(), "zsh: block source not found: /repo/zsh/files/k.sh");
}

#[test]
fn test_block_text_and_marker_lines() {
    assert_eq!(Block::start_line("m"), "# >>> m >>>");
    assert_eq!(Block::end_line("m"), "# <<< m <<<");
    assert_eq!(Block::text("m", "a"), "# >>> m >>>\na\n# <<< m <<<\n");
    assert_eq!(Block::text("m", ""), "# >>> m >>>\n# <<< m <<<\n");
}

#[test]
fn test_replace_or_append_twice_changes_nothing() {
    let first = replace_or_append("export A=1\n", "tools", "export B=2").unwrap();
    assert_eq!(replace_or_append(&first, "tools", "export B=2").unwrap(), first);
    let odd = replace_or_append("", "x >>> y", "line").unwrap();
    assert_eq!(odd, "# >>> x >>> y >>>\nline\n# <<< x >>> y <<<\n");
    assert_eq!(replace_or_append(&odd, "x >>> y", "line").unwrap(), odd);
}
