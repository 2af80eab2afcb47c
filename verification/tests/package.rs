use moi::exec::package::install_steps;
use moi::exec::shell::{shell_quote, shell_word};
use moi::platform::Platform;

fn steps(packages: &[&str], platform: Platform, upgrade: bool) -> Vec<(String, String)> {
    let packages: Vec<String> = packages.iter().map(|p| p.to_string()).collect();
    install_steps(&packages, platform, upgrade)
        .into_iter()
        .map(|s| (s.description, s.command))
        .collect()
}

#[test]
fn test_debian_install_without_upgrade() {
    assert_eq!(
        steps(&["git", "curl"], Platform::Debian, false),
        vec![
            ("apt update".to_string(), "sudo apt update".to_string()),
            ("apt install 'git' 'curl'".to_string(), "sudo apt install -y 'git' 'curl'".to_string()),
        ]
    );
}

#[test]
fn test_debian_install_with_upgrade() {
    assert_eq!(
        steps(&["git"], Platform::Debian, true),
        vec![
            ("apt update".to_string(), "sudo apt update".to_string()),
            ("apt upgrade".to_string(), "sudo apt upgrade -y".to_string()),
            ("apt install 'git'".to_string(), "sudo apt install -y 'git'".to_string()),
        ]
    );
}

#[test]
fn test_arch_install() {
    assert_eq!(
        steps(&["git", "it's"], Platform::Arch, false),
        vec![(
            "pacman -S --needed --noconfirm 'git' 'it'\"'\"'s'".to_string(),
            "sudo pacman -S --needed --noconfirm 'git' 'it'\"'\"'s'".to_string(),
        )]
    );
    assert_eq!(
        steps(&["git"], Platform::Arch, true),
        vec![(
            "pacman -Syu --needed --noconfirm 'git'".to_string(),
            "sudo pacman -Syu --needed --noconfirm 'git'".to_string(),
        )]
    );
}

#[test]
fn test_nothing_to_install() {
    assert!(steps(&[], Platform::Debian, true).is_empty());
    assert!(steps(&[], Platform::Arch, false).is_empty());
}

#[test]
fn test_shell_quoting() {
    assert_eq!(shell_quote("a b"), "'a b'");
    assert_eq!(shell_quote("it's"), "'it'\"'\"'s'");
    assert_eq!(shell_quote(""), "''");
    assert_eq!(shell_word("host"), "host");
    assert_eq!(shell_word("https://x.test/a_b-c.sh"), "https://x.test/a_b-c.sh");
    assert_eq!(shell_word(""), "''");
    assert_eq!(shell_word("a b"), "'a b'");
    assert_eq!(shell_word("é"), "'é'");
}
