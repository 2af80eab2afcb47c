//! Upgrading the program itself: the release a redirect points at, whether
//! to install it, and where its archive is downloaded from.
use vstd::prelude::*;

use crate::error::{MoiError, MoiErrorView};
use crate::os_release::trim_end_char;
use crate::split::split_on;
use crate::text::starts_with;

verus! {

/// A semantic version, as `semver` parses and orders it.
#[verifier::external_type_specification]
#[verifier::external_body]
pub struct ExVersion(::semver::Version);

/// The message of the error `semver::Version::parse` gives for a text, or
/// `None` when the text is a version.
pub uninterp spec fn semver_parse_error(text: Seq<char>) -> Option<Seq<char>>;

/// The version `semver::Version::parse` gives for a text that is one.
pub uninterp spec fn parsed_version(text: Seq<char>) -> ::semver::Version;

/// `semver::Version::parse`: the version a text spells, or the error's
/// message. Which texts are versions, the versions and the messages are not
/// stated here; the contract names them `semver_parse_error` and
/// `parsed_version` of the text.
#[verifier::external_body]
fn parse_semver(text: &str) -> (r: Result<::semver::Version, String>)
    ensures
        match semver_parse_error(text@) {
            None => r matches Ok(v) && v == parsed_version(text@),
            Some(m) => r matches Err(x) && x@ == m,
        },
{
    ::semver::Version::parse(text).map_err(|e| e.to_string())
}

/// How `Ord` of `semver::Version` orders the running version against the
/// latest release.
pub uninterp spec fn version_order(current: ::semver::Version, latest: ::semver::Version) -> VersionOrder;

/// The text `Display` of `semver::Version` gives for a version.
pub uninterp spec fn version_text(v: ::semver::Version) -> Seq<char>;

/// `Display` of `semver::Version`, through `to_string`: the version as
/// text. The text is not stated here; the contract names it `version_text`
/// of the version.
#[verifier::external_body]
fn version_string(v: &::semver::Version) -> (s: String)
    ensures
        s@ == version_text(*v),
{
    v.to_string()
}

/// How the running version compares with the latest release.
#[derive(Debug, Clone, Copy, PartialEq, Eq, Structural)]
pub enum VersionOrder {
    Older,
    Same,
    Newer,
}

/// `Ord` of `semver::Version`: semantic-version precedence, with build
/// metadata ordered last. The order itself is not stated here; the contract
/// names it `version_order` of the two versions.
#[verifier::external_body]
fn compare_versions(current: &::semver::Version, latest: &::semver::Version) -> (r: VersionOrder)
    ensures
        r == version_order(*current, *latest),
{
    match current.cmp(latest) {
        std::cmp::Ordering::Less => VersionOrder::Older,
        std::cmp::Ordering::Equal => VersionOrder::Same,
        std::cmp::Ordering::Greater => VersionOrder::Newer,
    }
}

/// What an upgrade does.
#[derive(Debug, Clone, Copy, PartialEq, Eq, Structural)]
pub enum UpgradeAction {
    /// The running version is newer than the latest release: nothing.
    AheadOfRelease,
    /// The running version is the latest: nothing.
    UpToDate,
    /// The running version is the latest, and reinstalling was forced.
    Reinstall,
    /// A newer release is installed.
    Upgrade,
}

/// What an upgrade does from the order of the versions and `--force`.
pub open spec fn upgrade_action_spec(order: VersionOrder, force: bool) -> UpgradeAction {
    match order {
        VersionOrder::Newer => UpgradeAction::AheadOfRelease,
        VersionOrder::Same => if force {
            UpgradeAction::Reinstall
        } else {
            UpgradeAction::UpToDate
        },
        VersionOrder::Older => UpgradeAction::Upgrade,
    }
}

/// The last segment of a release URL, without trailing `/`.
pub open spec fn last_segment(url: Seq<char>) -> Seq<char> {
    split_on(trim_end_char(url, '/'), '/').last()
}

/// The error when the URL names no release.
pub open spec fn undetermined_release_message(url: Seq<char>) -> Seq<char> {
    "could not determine latest release from "@ + url
}

/// The tag a release URL ends with; `latest` or nothing means the redirect
/// did not happen.
pub open spec fn release_tag_spec(url: Seq<char>) -> Result<Seq<char>, MoiErrorView> {
    let tag = last_segment(url);
    if tag.len() == 0 || tag == "latest"@ {
        Err(MoiErrorView::Config(undetermined_release_message(url)))
    } else {
        Ok(tag)
    }
}

/// The version text of a tag: without a leading `v`.
pub open spec fn tag_version_text(tag: Seq<char>) -> Seq<char> {
    if starts_with(tag, "v"@) {
        tag.skip(1)
    } else {
        tag
    }
}

/// Whether `parse_release_version` gives a version, or the error it gives.
pub open spec fn release_version_error(url: Seq<char>) -> Option<MoiErrorView> {
    match release_tag_spec(url) {
        Err(e) => Some(e),
        Ok(tag) => match semver_parse_error(tag_version_text(tag)) {
            None => None,
            Some(m) => Some(
                MoiErrorView::Config("invalid release version "@ + tag + ": "@ + m),
            ),
        },
    }
}

/// The target a release is built for.
pub open spec fn target_triple_spec(os: Seq<char>, arch: Seq<char>) -> Result<
    Seq<char>,
    MoiErrorView,
> {
    if os == "linux"@ && arch == "x86_64"@ {
        Ok("x86_64-unknown-linux-gnu"@)
    } else if os == "linux"@ && arch == "aarch64"@ {
        Ok("aarch64-unknown-linux-gnu"@)
    } else {
        Err(MoiErrorView::Config("unsupported platform: "@ + os + "/"@ + arch))
    }
}

/// The tag a release URL ends with, as the redirect of `releases/latest`
/// gives it.
pub fn release_tag(effective_url: &str) -> (r: Result<String, MoiError>)
    ensures
        crate::error::string_result(r) == release_tag_spec(effective_url@),
{
    let v = crate::text::chars_of(effective_url);
    let mut end: usize = v.len();
    assert(v@.subrange(0, v.len() as int) =~= v@);
    while end > 0 && v[end - 1] == '/'
        invariant
            end <= v.len(),
            v@ == effective_url@,
            trim_end_char(effective_url@, '/') == trim_end_char(v@.subrange(0, end as int), '/'),
        decreases end,
    {
        assert(v@.subrange(0, end as int).drop_last() =~= v@.subrange(0, end - 1));
        end -= 1;
    }
    let ghost trimmed = v@.subrange(0, end as int);
    assert(trim_end_char(trimmed, '/') == trimmed);
    let mut start: usize = end;
    while start > 0 && v[start - 1] != '/'
        invariant
            start <= end <= v.len(),
            v@ == effective_url@,
            forall|k: int| start <= k < end ==> v@[k] != '/',
        decreases start,
    {
        start -= 1;
    }
    let mut tag: Vec<char> = Vec::new();
    let mut i = start;
    while i < end
        invariant
            start <= i <= end <= v.len(),
            tag@ == v@.subrange(start as int, i as int),
        decreases end - i,
    {
        tag.push(v[i]);
        i += 1;
        assert(tag@ =~= v@.subrange(start as int, i as int));
    }
    proof {
        lemma_last_segment(trimmed, start as int);
        assert(trimmed.skip(start as int) =~= tag@);
    }
    let tag_text = crate::text::string_of(&tag);
    proof {
        reveal_strlit("latest");
    }
    if tag.len() == 0 || crate::text::str_eq(tag_text.as_str(), "latest") {
        return Err(
            MoiError::config(
                crate::text::concat("could not determine latest release from ", effective_url),
            ),
        );
    }
    Ok(tag_text)
}

proof fn lemma_last_segment(s: Seq<char>, start: int)
    requires
        0 <= start <= s.len(),
        start == 0 || s[start - 1] == '/',
        forall|k: int| start <= k < s.len() ==> s[k] != '/',
    ensures
        split_on(s, '/').last() == s.skip(start),
    decreases s.len() - start,
{
    if start == 0 {
        crate::split::lemma_split_single(s, '/');
        assert(s.skip(0) =~= s);
        assert(!s.contains('/')) by {
            if s.contains('/') {
                let k = choose|k: int| 0 <= k < s.len() && s[k] == '/';
            }
        }
    } else {
        let a = s.take(start - 1);
        let b = s.skip(start);
        assert(!b.contains('/')) by {
            if b.contains('/') {
                let k = choose|k: int| 0 <= k < b.len() && b[k] == '/';
                assert(s[start + k] == '/');
            }
        }
        assert(a.push('/') + b =~= s);
        crate::split::lemma_split_concat(a, b, '/');
        crate::split::lemma_split_single(b, '/');
    }
}

/// The version a release URL names: its last segment without trailing `/`,
/// `latest` or nothing being an error, read as a version after a leading
/// `v` is dropped.
pub fn parse_release_version(effective_url: &str) -> (r: Result<::semver::Version, MoiError>)
    ensures
        match release_version_error(effective_url@) {
            None => r is Ok,
            Some(e) => r matches Err(x) && x@ == e,
        },
        release_tag_spec(effective_url@) matches Ok(tag) ==> (r matches Ok(v) ==> v
            == parsed_version(tag_version_text(tag))),
{
    let tag = release_tag(effective_url)?;
    let v = crate::text::chars_of(tag.as_str());
    let text = if v.len() > 0 && v[0] == 'v' {
        let mut rest: Vec<char> = Vec::new();
        let mut i: usize = 1;
        while i < v.len()
            invariant
                1 <= i <= v.len(),
                rest@ == v@.subrange(1, i as int),
            decreases v.len() - i,
        {
            rest.push(v[i]);
            i += 1;
            assert(rest@ =~= v@.subrange(1, i as int));
        }
        proof {
            reveal_strlit("v");
            assert(tag@.take(1) =~= seq!['v']);
            assert("v"@.len() == 1 && "v"@[0] == 'v');
            assert("v"@ =~= seq!['v']);
            assert(starts_with(tag@, "v"@));
            assert(rest@ =~= tag@.skip(1));
        }
        crate::text::string_of(&rest)
    } else {
        proof {
            reveal_strlit("v");
            if starts_with(tag@, "v"@) {
                assert(tag@.take(1)[0] == 'v');
                assert(v@[0] == 'v');
            }
            assert(!starts_with(tag@, "v"@));
        }
        crate::text::owned(tag.as_str())
    };
    assert(text@ == tag_version_text(tag@));
    match parse_semver(text.as_str()) {
        Ok(version) => Ok(version),
        Err(message) => {
            let mut m = crate::text::concat("invalid release version ", tag.as_str());
            m.push_str(": ");
            m.push_str(message.as_str());
            Err(MoiError::config(m))
        },
    }
}

/// The version a text spells, as `semver` reads it; an error names what is
/// wrong with the text.
pub fn parse_version(text: &str) -> (r: Result<::semver::Version, MoiError>)
    ensures
        match semver_parse_error(text@) {
            None => r matches Ok(v) && v == parsed_version(text@),
            Some(m) => r matches Err(x) && x@ == MoiErrorView::Config(m),
        },
{
    match parse_semver(text) {
        Ok(version) => Ok(version),
        Err(message) => Err(MoiError::config(message)),
    }
}

/// What an upgrade does: nothing when the running version is ahead of the
/// latest release or is it (unless `force`), else install the release.
pub fn upgrade_action(order: VersionOrder, force: bool) -> (a: UpgradeAction)
    ensures
        a == upgrade_action_spec(order, force),
{
    match order {
        VersionOrder::Newer => UpgradeAction::AheadOfRelease,
        VersionOrder::Same => if force {
            UpgradeAction::Reinstall
        } else {
            UpgradeAction::UpToDate
        },
        VersionOrder::Older => UpgradeAction::Upgrade,
    }
}

/// What an upgrade from `current` to `latest` does.
pub fn plan_upgrade(current: &::semver::Version, latest: &::semver::Version, force: bool) -> (a:
    UpgradeAction)
    ensures
        a == upgrade_action_spec(version_order(*current, *latest), force),
{
    let order = compare_versions(current, latest);
    upgrade_action(order, force)
}

/// The target the running system needs a release for: Linux on x86-64 or
/// AArch64.
pub fn target_triple(os: &str, arch: &str) -> (r: Result<&'static str, MoiError>)
    ensures
        match target_triple_spec(os@, arch@) {
            Ok(t) => r matches Ok(x) && x@ == t,
            Err(e) => r matches Err(x) && x@ == e,
        },
{
    if crate::text::str_eq(os, "linux") && crate::text::str_eq(arch, "x86_64") {
        return Ok("x86_64-unknown-linux-gnu");
    }
    if crate::text::str_eq(os, "linux") && crate::text::str_eq(arch, "aarch64") {
        return Ok("aarch64-unknown-linux-gnu");
    }
    let mut m = crate::text::concat3("unsupported platform: ", os, "/");
    m.push_str(arch);
    Err(MoiError::config(m))
}

/// The page that redirects to the latest release of a repository.
pub fn latest_release_url(repository: &str) -> (s: String)
    ensures
        s@ == "https://github.com/"@ + repository@ + "/releases/latest"@,
{
    crate::text::concat3("https://github.com/", repository, "/releases/latest")
}

/// Where the assets of the latest release of a repository are.
pub fn default_release_base(repository: &str) -> (s: String)
    ensures
        s@ == "https://github.com/"@ + repository@ + "/releases/latest/download"@,
{
    crate::text::concat3("https://github.com/", repository, "/releases/latest/download")
}

/// The name of the package built for a target, and of its archive.
pub fn release_package(target: &str) -> (s: String)
    ensures
        s@ == "moi-"@ + target@,
{
    crate::text::concat("moi-", target)
}

/// The archive of a package.
pub fn default_release_asset(package: &str) -> (s: String)
    ensures
        s@ == package@ + ".tar.gz"@,
{
    crate::text::concat(package, ".tar.gz")
}

/// Where an asset is downloaded from: the release base without trailing
/// `/`, then `/` and the asset.
pub fn asset_url(release_base: &str, asset: &str) -> (s: String)
    ensures
        s@ == trim_end_char(release_base@, '/') + "/"@ + asset@,
{
    let v = crate::text::chars_of(release_base);
    let mut end: usize = v.len();
    assert(v@.subrange(0, v.len() as int) =~= v@);
    while end > 0 && v[end - 1] == '/'
        invariant
            end <= v.len(),
            v@ == release_base@,
            trim_end_char(release_base@, '/') == trim_end_char(v@.subrange(0, end as int), '/'),
        decreases end,
    {
        assert(v@.subrange(0, end as int).drop_last() =~= v@.subrange(0, end - 1));
        end -= 1;
    }
    let mut out: Vec<char> = Vec::new();
    let mut i: usize = 0;
    while i < end
        invariant
            i <= end <= v.len(),
            out@ == v@.subrange(0, i as int),
        decreases end - i,
    {
        out.push(v[i]);
        i += 1;
        assert(out@ =~= v@.subrange(0, i as int));
    }
    let base = crate::text::string_of(&out);
    crate::text::concat3(base.as_str(), "/", asset)
}

/// Where the checksum of an asset is: the asset's URL with `.sha256`.
pub fn checksum_url(url: &str) -> (s: String)
    ensures
        s@ == url@ + ".sha256"@,
{
    crate::text::concat(url, ".sha256")
}

/// The line that announces what an upgrade does, from the two versions as
/// text.
pub open spec fn upgrade_message_spec(a: UpgradeAction, current: Seq<char>, latest: Seq<char>) -> Seq<
    char,
> {
    match a {
        UpgradeAction::AheadOfRelease => "moi v"@ + current + " is newer than the latest release (v"@
            + latest + ")."@,
        UpgradeAction::UpToDate => "moi v"@ + current + " is already up to date."@,
        UpgradeAction::Reinstall => "Reinstalling moi v"@ + current + "..."@,
        UpgradeAction::Upgrade => "Upgrading moi v"@ + current + " to v"@ + latest + "..."@,
    }
}

/// The line that announces what an upgrade does.
pub fn upgrade_message(a: UpgradeAction, current: &str, latest: &str) -> (s: String)
    ensures
        s@ == upgrade_message_spec(a, current@, latest@),
{
    match a {
        UpgradeAction::AheadOfRelease => {
            let mut s = crate::text::concat3("moi v", current, " is newer than the latest release (v");
            s.push_str(latest);
            s.push_str(").");
            s
        },
        UpgradeAction::UpToDate => crate::text::concat3("moi v", current, " is already up to date."),
        UpgradeAction::Reinstall => crate::text::concat3("Reinstalling moi v", current, "..."),
        UpgradeAction::Upgrade => {
            let mut s = crate::text::concat3("Upgrading moi v", current, " to v");
            s.push_str(latest);
            s.push_str("...");
            s
        },
    }
}

/// The line that announces what an upgrade from `current` to `latest` does,
/// with the versions as `semver` writes them.
pub fn upgrade_announcement(a: UpgradeAction, current: &::semver::Version, latest: &::semver::Version) -> (s: String)
    ensures
        s@ == upgrade_message_spec(a, version_text(*current), version_text(*latest)),
{
    let c = version_string(current);
    let l = version_string(latest);
    upgrade_message(a, c.as_str(), l.as_str())
}

/// The line after `latest` was installed, with the version as `semver`
/// writes it.
pub fn upgraded_announcement(latest: &::semver::Version) -> (s: String)
    ensures
        s@ == "Successfully upgraded moi to v"@ + version_text(*latest) + "."@,
{
    let l = version_string(latest);
    upgraded_message(l.as_str())
}

/// The line after a release was installed.
pub fn upgraded_message(latest: &str) -> (s: String)
    ensures
        s@ == "Successfully upgraded moi to v"@ + latest@ + "."@,
{
    crate::text::concat3("Successfully upgraded moi to v", latest, ".")
}

} // verus!
