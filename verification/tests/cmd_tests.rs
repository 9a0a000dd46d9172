use gcm::cmd::{Install, List, ListPlan, update_plan};
use gcm::package::{
    InstallEvent, InstallState, Package, Version, install_step, outcome_fatal, overall_success,
    resolve_latest,
};
use gcm::Error;

fn install(args: Option<Vec<&str>>, arch: Option<&str>) -> Install {
    Install {
        args: args.map(|l| l.into_iter().map(str::to_string).collect()),
        arch: arch.map(str::to_string),
        dir: None,
    }
}

#[test]
fn no_arguments_installs_the_stable_triple() {
    let plan = install(None, None).plan("x64-linux").unwrap();
    assert_eq!(plan.len(), 3);
    assert_eq!(plan[0].name, "core");
    assert_eq!(plan[0].arch.as_deref(), Some("x64-linux"));
    assert_eq!(plan[0].branch, "stable");
    assert!(plan[0].primary);
    assert_eq!(plan[1].name, "lang");
    assert_eq!(plan[1].arch, None);
    assert!(!plan[1].primary);
    assert_eq!(plan[2].name, "explorer");
    assert_eq!(plan[2].arch.as_deref(), Some("noarch"));
    assert!(!plan[2].primary);
}

#[test]
fn one_argument_selects_the_branch() {
    let plan = install(Some(vec!["testing"]), Some("arm64-apple"))
        .plan("x64-linux")
        .unwrap();
    assert_eq!(plan.len(), 3);
    assert_eq!(plan[0].branch, "testing");
    assert_eq!(plan[0].arch.as_deref(), Some("arm64-apple"));
    assert_eq!(plan[1].branch, "testing");
}

#[test]
fn two_arguments_with_branch_resolves_latest() {
    let plan = install(Some(vec!["lang", "testing"]), None)
        .plan("x64-linux")
        .unwrap();
    assert_eq!(plan.len(), 1);
    assert_eq!(plan[0].name, "lang");
    assert_eq!(plan[0].arch, None);
    assert_eq!(plan[0].branch, "testing");
    assert!(plan[0].exact.is_none());
    assert!(plan[0].primary);
}

#[test]
fn two_arguments_with_exact_version() {
    let plan = install(Some(vec!["core", "1.4.2-rc1"]), None)
        .plan("x64-linux")
        .unwrap();
    assert_eq!(plan.len(), 1);
    assert_eq!(plan[0].name, "core");
    assert_eq!(plan[0].arch.as_deref(), Some("x64-linux"));
    assert_eq!(plan[0].branch, "rc1");
    let exact = plan[0].exact.as_ref().unwrap();
    assert_eq!(exact.to_version_string(), "1.4.2-rc1");
}

#[test]
fn exact_release_version_has_empty_branch() {
    let plan = install(Some(vec!["core", "1.4.2"]), None)
        .plan("x64-linux")
        .unwrap();
    assert_eq!(plan[0].branch, "");
    assert!(plan[0].exact.is_some());
}

#[test]
fn too_many_arguments_are_refused() {
    assert!(install(Some(vec!["a", "b", "c"]), None).plan("x64-linux").is_none());
    assert!(install(Some(vec![]), None).plan("x64-linux").is_none());
}

#[test]
fn list_plans_follow_the_given_arguments() {
    let l = |package: Option<&str>, branch: Option<&str>| List {
        package: package.map(str::to_string),
        branch: branch.map(str::to_string),
        limit: 5,
        verbose: 0,
    };
    assert!(matches!(l(None, None).plan(), ListPlan::Packages));
    assert!(matches!(
        l(None, Some("stable")).plan(),
        ListPlan::BranchOnly { branch } if branch == "stable"
    ));
    assert!(matches!(
        l(Some("core"), None).plan(),
        ListPlan::Branches { name } if name == "core"
    ));
    assert!(matches!(
        l(Some("core"), Some("stable")).plan(),
        ListPlan::Versions { name, branch, limit }
            if name == "core" && branch == "stable" && limit == 5
    ));
}

#[test]
fn update_reinstalls_the_reported_branch() {
    let plan = update_plan("6.3.21-stable (x64-linux)\n").unwrap().unwrap();
    assert_eq!(plan.arch.as_deref(), Some("x64-linux"));
    assert_eq!(plan.args, Some(vec!["stable".to_string()]));
    assert_eq!(plan.dir, None);
}

#[test]
fn update_without_report_falls_back_to_fresh_install() {
    let plan = update_plan("unparsable-single-token").unwrap();
    assert!(plan.is_none());
}

#[test]
fn update_with_bad_version_is_an_error() {
    assert!(matches!(
        update_plan("not-a-version (x64-linux)\n"),
        Err(Error::MalformedVersion)
    ));
}

#[test]
fn latest_pointer_resolves_to_archive_path() {
    let (version, sv) = resolve_latest("1.4/1.4.2").unwrap();
    assert_eq!(version.major_minor, "1.4");
    assert_eq!(version.version, "1.4.2");
    assert_eq!(sv.to_version_string(), "1.4.2");
    let pkg = Package::new("core", Some("x64-linux".to_string()), "stable");
    assert_eq!(
        pkg.archive_path(&version),
        "core/stable/1.4/x64-linux/1.4.2.zip"
    );
    let derived = Version::of_semver(&sv);
    assert_eq!(derived.major_minor, "1.4");
    assert_eq!(derived.version, "1.4.2");
    assert_eq!(derived.display_string(), "1.4/1.4.2");
}

#[test]
fn archive_path_without_architecture() {
    let pkg = Package::new("lang", None, "stable");
    let version = Version {
        major_minor: "6.3".to_string(),
        version: "6.3.21-stable".to_string(),
    };
    assert_eq!(pkg.archive_path(&version), "lang/stable/6.3/6.3.21-stable.zip");
    assert_eq!(pkg.display_string(), "lang@stable");
    assert_eq!(pkg.latest_path(), "lang/stable/latest");
}

#[test]
fn latest_pointer_without_separator_is_invalid() {
    assert!(matches!(
        Version::try_from("noseparator"),
        Err(Error::InvalidLatestPointer)
    ));
    assert!(matches!(
        resolve_latest("1.4-not-a-pointer"),
        Err(Error::InvalidLatestPointer)
    ));
    assert!(matches!(
        resolve_latest("1.4/not-a-version"),
        Err(Error::MalformedVersion)
    ));
}

#[test]
fn auxiliary_not_found_still_succeeds() {
    // A combined request for core, lang and explorer where lang's branch
    // listing is missing: core installs, lang ends unavailable, and the
    // whole command still succeeds.
    let run = |events: &[InstallEvent]| {
        let mut s = InstallState::Pending;
        for e in events {
            s = install_step(s, *e);
        }
        s
    };
    let core = run(&[
        InstallEvent::StartResolve,
        InstallEvent::Resolved,
        InstallEvent::DownloadOpened,
        InstallEvent::Extracted,
    ]);
    assert_eq!(core, InstallState::Installed);
    let lang = run(&[InstallEvent::StartResolve, InstallEvent::ResolveFailed]);
    assert_eq!(lang, InstallState::Unavailable);
    let explorer = run(&[
        InstallEvent::StartResolve,
        InstallEvent::Resolved,
        InstallEvent::DownloadOpened,
        InstallEvent::Extracted,
    ]);
    assert!(!outcome_fatal(lang, false));
    assert!(outcome_fatal(InstallState::Failed, true));
    assert!(overall_success(core, &vec![lang, explorer]));
    assert!(!overall_success(lang, &vec![core, explorer]));
}

#[test]
fn exact_install_skips_resolution() {
    let s = install_step(InstallState::Pending, InstallEvent::StartExact);
    assert_eq!(s, InstallState::Downloading);
    let s = install_step(s, InstallEvent::DownloadFailed);
    assert_eq!(s, InstallState::Unavailable);
}
