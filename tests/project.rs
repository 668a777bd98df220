use jumake::context::{determine_template_name, project_name_from_cmake, template_from_capture, validate_build_type};
use jumake::create_files::{class_files, instantiate_template, root_cmakelists, source_templates, ClassTemplate};

#[test]
fn build_types_are_checked() {
    for ok in ["Debug", "Release", "RelWithDebInfo", "MinSizeRel"] {
        assert!(validate_build_type(ok).is_ok());
    }
    assert_eq!(
        validate_build_type("debug").unwrap_err(),
        "Invalid build type: debug. Use one of: Debug, Release, RelWithDebInfo, MinSizeRel"
    );
    assert!(validate_build_type("").is_err());
}

#[test]
fn template_name_is_read_from_cmake() {
    let text = "project(x)\nset(JUMAKE_TEMPLATE   \"AudioPlugin\")\n";
    assert_eq!(determine_template_name(Some(text)), Some("AudioPlugin".to_string()));
    assert_eq!(determine_template_name(Some("set(OTHER \"x\")")), Some("GuiApplication".to_string()));
    assert_eq!(determine_template_name(None), Some("GuiApplication".to_string()));
    assert_eq!(template_from_capture(Some("ConsoleApp".to_string())), "ConsoleApp");
    assert_eq!(template_from_capture(None), "GuiApplication");
}

#[test]
fn project_name_is_read_from_cmake() {
    let text = "cmake_minimum_required(VERSION 3.24)\r\n  project( Synth VERSION 0.0.1)\r\nproject(other)";
    assert_eq!(project_name_from_cmake(text), Some("Synth VERSION 0.0.1".to_string()));
    assert_eq!(project_name_from_cmake("project(open\nproject(  two  )"), Some("two".to_string()));
    assert_eq!(project_name_from_cmake("add_subdirectory(src)"), None);
}

#[test]
fn root_cmakelists_names_project() {
    let text = root_cmakelists("test_project");
    assert!(text.contains("cmake_minimum_required(VERSION 3.24)"));
    assert_eq!(
        text,
        "cmake_minimum_required(VERSION 3.24)\nproject(test_project VERSION 0.0.1)\nadd_subdirectory(modules/JUCE)\nadd_subdirectory(src)"
    );
}

#[test]
fn class_files_for_each_element_type() {
    let c = class_files("class", "Voice").unwrap();
    assert_eq!(c.template, ClassTemplate::Class);
    assert_eq!(c.class_name, "Voice");
    assert_eq!(c.header_file, "Voice.h");
    assert_eq!(c.source_file, "Voice.cpp");
    let k = class_files("component", "Knob").unwrap();
    assert_eq!(k.template, ClassTemplate::Component);
    assert_eq!(k.class_name, "KnobComponent");
    assert_eq!(k.source_file, "KnobComponent.cpp");
    assert_eq!(class_files("struct", "S").unwrap_err(), "Invalid element type: struct");
}

#[test]
fn template_placeholder_is_replaced() {
    let t = "class Template {\n    Template();\n};\n// TemplateTemplate";
    assert_eq!(
        instantiate_template(t, "Voice"),
        "class Voice {\n    Voice();\n};\n// VoiceVoice"
    );
    assert_eq!(instantiate_template("none here", "X"), "none here");
}

#[test]
fn each_template_lists_its_files() {
    let names = |t: Option<&str>| -> Option<Vec<(String, String)>> {
        source_templates(t).map(|v| v.into_iter().map(|f| (f.file_name, f.template)).collect())
    };
    let console = names(Some("ConsoleApp")).unwrap();
    assert_eq!(
        console,
        vec![
            ("Main.cpp".to_string(), "ConsoleAppTemplate/Main.cpp.template".to_string()),
            ("CMakeLists.txt".to_string(), "ConsoleAppTemplate/CMakeLists.txt.template".to_string()),
        ]
    );
    assert_eq!(names(Some("GuiApplication")).unwrap().len(), 4);
    assert_eq!(names(Some("AudioPlugin")).unwrap()[4].1, "AudioPluginTemplate/CMakeLists.txt.template");
    assert!(names(Some("Other")).is_none());
    assert!(names(None).is_none());
}
