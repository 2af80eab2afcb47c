use moi::cli::{resolve_platform, PlatformArg};
use moi::os_release::{detect, read_os_release};
use moi::platform::Platform;

#[test]
fn test_detect_debian_family() {
    let content = "NAME=\"Ubuntu\"\nID=ubuntu\nID_LIKE=debian\n";
    assert_eq!(detect(Some(content)).unwrap(), Platform::Debian);
    let content = "ID=pop\nID_LIKE=\"ubuntu debian\"\n";
    assert_eq!(detect(Some(content)).unwrap(), Platform::Debian);
    assert_eq!(detect(Some("ID=Debian\r\n")).unwrap(), Platform::Debian);
}

#[test]
fn test_detect_arch_family() {
    assert_eq!(detect(Some("ID=arch\n")).unwrap(), Platform::Arch);
    assert_eq!(detect(Some("ID=endeavouros\nID_LIKE=\"  ARCHLINUX \"\n")).unwrap(), Platform::Arch);
}

#[test]
fn test_detect_unknown_platform() {
    let message = "could not detect supported platform from /etc/os-release";
    assert_eq!(detect(Some("ID=fedora\n")).unwrap_err().message(), message);
    assert_eq!(detect(None).unwrap_err().message(), message);
    assert_eq!(detect(Some("# ID=arch\nID_LIKE\n")).unwrap_err().message(), message);
}

#[test]
fn test_later_assignment_wins() {
    assert_eq!(detect(Some("ID=arch\nID=debian\n")).unwrap(), Platform::Debian);
}

#[test]
fn test_read_os_release_entries() {
    let entries = read_os_release("# comment\n\nNAME=\"Arch Linux\"\nBROKEN\nURL=a=b\n");
    let texts: Vec<(String, String)> = entries
        .iter()
        .map(|(k, v)| (k.iter().collect(), v.iter().collect()))
        .collect();
    assert_eq!(
        texts,
        vec![
            ("NAME".to_string(), "Arch Linux".to_string()),
            ("URL".to_string(), "a=b".to_string()),
        ]
    );
}

#[test]
fn test_resolve_platform() {
    assert_eq!(resolve_platform(PlatformArg::Debian, None).unwrap(), Platform::Debian);
    assert_eq!(resolve_platform(PlatformArg::Arch, Some("ID=debian\n")).unwrap(), Platform::Arch);
    assert_eq!(resolve_platform(PlatformArg::Auto, Some("ID=debian\n")).unwrap(), Platform::Debian);
    assert!(resolve_platform(PlatformArg::Auto, None).is_err());
    assert_eq!(PlatformArg::Auto.name(), "auto");
    assert_eq!(PlatformArg::Arch.fixed_platform(), Some(Platform::Arch));
}

#[test]
fn test_lines_follow_str_lines() {
    let text = |s: &str| -> Vec<String> {
        moi::os_release::lines_of(s).iter().map(|l| l.iter().collect()).collect()
    };
    assert_eq!(text("a\r\nb\r"), ["a", "b\r"]);
    assert_eq!(text("a\n\nb\n"), ["a", "", "b"]);
    assert_eq!(text(""), Vec::<String>::new());
    assert_eq!(text("\n"), [""]);
    assert_eq!(detect(Some("ID=arch\r")).unwrap(), Platform::Arch);
}
