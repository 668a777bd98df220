use jumake::context::Context;
use jumake::resolve::{resolve, ArtifactQuery, BuildTree, CandidatePath, Platform, ProjectKind, ResolutionError};

fn file(path: &str, executable: bool) -> CandidatePath {
    CandidatePath {
        path: path.to_string(),
        file_name: path.rsplit('/').next().unwrap().to_string(),
        is_dir: false,
        is_executable: executable,
    }
}

fn dir(path: &str) -> CandidatePath {
    CandidatePath { is_dir: true, ..file(path, true) }
}

fn query(platform: Platform, kind: ProjectKind, name: &str, config: &str) -> ArtifactQuery {
    ArtifactQuery {
        platform,
        kind,
        project_name: name.to_string(),
        configuration: config.to_string(),
    }
}

#[test]
fn configuration_beats_length() {
    let q = query(Platform::Linux, ProjectKind::GuiApplication, "app", "Debug");
    let tree = BuildTree::Listed(vec![file("/out/Debug/app", true), file("/out/app", true)]);
    assert_eq!(resolve(&q, &tree).unwrap(), "/out/Debug/app");
}

#[test]
fn shortest_wins_without_configuration() {
    let q = query(Platform::Linux, ProjectKind::ConsoleApp, "app", "Release");
    let tree = BuildTree::Listed(vec![file("/out/x/y/app", true), file("/out/app", true), file("/out/zz/app", true)]);
    assert_eq!(resolve(&q, &tree).unwrap(), "/out/app");
}

#[test]
fn same_candidates_in_any_order_give_one_path() {
    let q = query(Platform::Linux, ProjectKind::ConsoleApp, "app", "Release");
    let a = vec![file("/b/app", true), file("/a/app", true), file("/out/long/app", true)];
    let mut b = a.clone();
    b.reverse();
    let first = resolve(&q, &BuildTree::Listed(a)).unwrap();
    let second = resolve(&q, &BuildTree::Listed(b)).unwrap();
    assert_eq!(first, "/a/app");
    assert_eq!(first, second);
}

#[test]
fn nothing_matching_reports_configuration() {
    let q = query(Platform::Linux, ProjectKind::GuiApplication, "app", "RelWithDebInfo");
    let tree = BuildTree::Listed(vec![file("/out/other", true), file("/out/app", false), dir("/out/x/app")]);
    match resolve(&q, &tree) {
        Err(ResolutionError::NotFound { configuration }) => assert_eq!(configuration, "RelWithDebInfo"),
        other => panic!("unexpected {:?}", other),
    }
}

#[test]
fn empty_tree_reports_configuration() {
    let q = query(Platform::Linux, ProjectKind::GuiApplication, "app", "Debug");
    match resolve(&q, &BuildTree::Listed(vec![])) {
        Err(ResolutionError::NotFound { configuration }) => assert_eq!(configuration, "Debug"),
        other => panic!("unexpected {:?}", other),
    }
}

#[test]
fn missing_root_is_reported() {
    let q = query(Platform::Linux, ProjectKind::GuiApplication, "app", "Debug");
    assert!(matches!(resolve(&q, &BuildTree::Missing), Err(ResolutionError::RootMissing)));
}

#[test]
fn windows_needs_exe_suffix() {
    let q = query(Platform::Windows, ProjectKind::GuiApplication, "app", "Debug");
    let tree = BuildTree::Listed(vec![file("C:/out/app", true), file("C:/out/Debug/app.exe", false)]);
    assert_eq!(resolve(&q, &tree).unwrap(), "C:/out/Debug/app.exe");
}

#[test]
fn macos_picks_bundle() {
    let q = query(Platform::MacOs, ProjectKind::GuiApplication, "Synth", "Release");
    let tree = BuildTree::Listed(vec![
        file("/o/Synth_artefacts/Release/Synth.app/Contents/MacOS/Synth", true),
        dir("/o/Synth_artefacts/Release/Synth.app"),
        dir("/o/Synth_artefacts/Debug/Synth.app"),
    ]);
    assert_eq!(resolve(&q, &tree).unwrap(), "/o/Synth_artefacts/Release/Synth.app");
}

#[test]
fn plugin_needs_standalone_host() {
    let q = query(Platform::MacOs, ProjectKind::AudioPlugin, "Verb", "Debug");
    let tree = BuildTree::Listed(vec![
        dir("/o/Verb_artefacts/Debug/AU/Verb.app"),
        dir("/o/Verb_artefacts/Debug/Standalone/Verb.app"),
    ]);
    assert_eq!(resolve(&q, &tree).unwrap(), "/o/Verb_artefacts/Debug/Standalone/Verb.app");
}

#[test]
fn unknown_kind_on_macos_looks_for_plain_binary() {
    let q = query(Platform::MacOs, ProjectKind::Unknown, "tool", "Debug");
    let tree = BuildTree::Listed(vec![dir("/o/Debug/tool.app"), file("/o/Debug/tool", true)]);
    assert_eq!(resolve(&q, &tree).unwrap(), "/o/Debug/tool");
}

#[test]
fn kind_comes_from_template_name() {
    assert_eq!(ProjectKind::from_template("AudioPlugin"), ProjectKind::AudioPlugin);
    assert_eq!(ProjectKind::from_template("ConsoleApp"), ProjectKind::ConsoleApp);
    assert_eq!(ProjectKind::from_template("GuiApplication"), ProjectKind::GuiApplication);
    assert_eq!(ProjectKind::from_template("Plugin"), ProjectKind::Unknown);
    let ctx = Context {
        project_name: "p".to_string(),
        project_path: "/tmp/p".to_string(),
        template_name: Some("AudioPlugin".to_string()),
        build_type: "Debug".to_string(),
    };
    let q = ArtifactQuery::for_context(&ctx, Platform::MacOs);
    assert_eq!(q.kind, ProjectKind::AudioPlugin);
    assert_eq!(q.configuration, "Debug");
    assert_eq!(q.project_name, "p");
}

#[test]
fn console_app_on_macos_uses_bundle_strategy() {
    let q = query(Platform::MacOs, ProjectKind::ConsoleApp, "tool", "Debug");
    let tree = BuildTree::Listed(vec![dir("/o/Debug/tool.app"), file("/o/Debug/tool", true)]);
    assert_eq!(resolve(&q, &tree).unwrap(), "/o/Debug/tool.app");
    let plain = BuildTree::Listed(vec![file("/o/Debug/tool", true)]);
    match resolve(&q, &plain) {
        Err(ResolutionError::NotFound { configuration }) => assert_eq!(configuration, "Debug"),
        other => panic!("unexpected {:?}", other),
    }
}
