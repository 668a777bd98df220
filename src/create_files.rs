//! The text of the files a new project or a new class starts from.

use vstd::prelude::*;
use crate::resolve::{kind_named, ProjectKind};
use crate::text::{chars_of, eq_exec, starts_with};

verus! {

pub const CMAKE_HEAD: &'static str = "cmake_minimum_required(VERSION 3.24)\nproject(";

pub const CMAKE_TAIL: &'static str =
    " VERSION 0.0.1)\nadd_subdirectory(modules/JUCE)\nadd_subdirectory(src)";

/// The top-level `CMakeLists.txt` of a new project.
pub fn root_cmakelists(project_name: &str) -> (r: String)
    ensures
        r@ == CMAKE_HEAD@ + project_name@ + CMAKE_TAIL@,
{
    let mut r = String::from_str(CMAKE_HEAD);
    r.append(project_name);
    r.append(CMAKE_TAIL);
    r
}

/// A file of a new project and the template it is copied from, as a path
/// relative to the templates directory.
#[derive(Debug)]
pub struct TemplateFile {
    pub file_name: String,
    pub template: String,
}

pub open spec fn template_file_view(f: TemplateFile) -> (Seq<char>, Seq<char>) {
    (f.file_name@, f.template@)
}

/// The files under `src/` of a new project of kind `k`.
pub open spec fn source_templates_of(k: ProjectKind) -> Seq<(Seq<char>, Seq<char>)> {
    match k {
        ProjectKind::GuiApplication => seq![
            ("Main.cpp"@, "GuiApplicationTemplate/Main.cpp.template"@),
            ("MainComponent.cpp"@, "GuiApplicationTemplate/MainComponent.cpp.template"@),
            ("MainComponent.h"@, "GuiApplicationTemplate/MainComponent.h.template"@),
            ("CMakeLists.txt"@, "GuiApplicationTemplate/CMakeLists.txt.template"@),
        ],
        ProjectKind::AudioPlugin => seq![
            ("PluginProcessor.cpp"@, "AudioPluginTemplate/PluginProcessor.cpp.template"@),
            ("PluginProcessor.h"@, "AudioPluginTemplate/PluginProcessor.h.template"@),
            ("PluginEditor.cpp"@, "AudioPluginTemplate/PluginEditor.cpp.template"@),
            ("PluginEditor.h"@, "AudioPluginTemplate/PluginEditor.h.template"@),
            ("CMakeLists.txt"@, "AudioPluginTemplate/CMakeLists.txt.template"@),
        ],
        ProjectKind::ConsoleApp => seq![
            ("Main.cpp"@, "ConsoleAppTemplate/Main.cpp.template"@),
            ("CMakeLists.txt"@, "ConsoleAppTemplate/CMakeLists.txt.template"@),
        ],
        ProjectKind::Unknown => seq![],
    }
}

fn add_template_file(files: &mut Vec<TemplateFile>, file_name: &str, template: &str)
    ensures
        final(files)@.map_values(|f: TemplateFile| template_file_view(f)) == old(files)@.map_values(
            |f: TemplateFile| template_file_view(f),
        ).push((file_name@, template@)),
{
    files.push(TemplateFile { file_name: String::from_str(file_name), template: String::from_str(template) });
    assert(files@.map_values(|f: TemplateFile| template_file_view(f)) =~= old(files)@.map_values(
        |f: TemplateFile| template_file_view(f),
    ).push((file_name@, template@)));
}

/// The files under `src/` of a new project made from the template
/// `template_name`; none for a template that does not exist.
pub fn source_templates(template_name: Option<&str>) -> (r: Option<Vec<TemplateFile>>)
    ensures
        ({
            let k = kind_named(
                match template_name {
                    Some(t) => Some(t@),
                    None => None,
                },
            );
            &&& r is Some <==> k != ProjectKind::Unknown
            &&& r matches Some(v) ==> v@.map_values(|f: TemplateFile| template_file_view(f))
                == source_templates_of(k)
        }),
{
    let kind = match template_name {
        Some(t) => ProjectKind::from_template(t),
        None => ProjectKind::Unknown,
    };
    let mut files: Vec<TemplateFile> = Vec::new();
    assert(files@.map_values(|f: TemplateFile| template_file_view(f)) =~= seq![]);
    match kind {
        ProjectKind::GuiApplication => {
            add_template_file(&mut files, "Main.cpp", "GuiApplicationTemplate/Main.cpp.template");
            add_template_file(
                &mut files,
                "MainComponent.cpp",
                "GuiApplicationTemplate/MainComponent.cpp.template",
            );
            add_template_file(
                &mut files,
                "MainComponent.h",
                "GuiApplicationTemplate/MainComponent.h.template",
            );
            add_template_file(
                &mut files,
                "CMakeLists.txt",
                "GuiApplicationTemplate/CMakeLists.txt.template",
            );
        },
        ProjectKind::AudioPlugin => {
            add_template_file(
                &mut files,
                "PluginProcessor.cpp",
                "AudioPluginTemplate/PluginProcessor.cpp.template",
            );
            add_template_file(
                &mut files,
                "PluginProcessor.h",
                "AudioPluginTemplate/PluginProcessor.h.template",
            );
            add_template_file(
                &mut files,
                "PluginEditor.cpp",
                "AudioPluginTemplate/PluginEditor.cpp.template",
            );
            add_template_file(
                &mut files,
                "PluginEditor.h",
                "AudioPluginTemplate/PluginEditor.h.template",
            );
            add_template_file(
                &mut files,
                "CMakeLists.txt",
                "AudioPluginTemplate/CMakeLists.txt.template",
            );
        },
        ProjectKind::ConsoleApp => {
            add_template_file(&mut files, "Main.cpp", "ConsoleAppTemplate/Main.cpp.template");
            add_template_file(
                &mut files,
                "CMakeLists.txt",
                "ConsoleAppTemplate/CMakeLists.txt.template",
            );
        },
        ProjectKind::Unknown => {
            return None;
        },
    }
    Some(files)
}

/// The templates a new class is made from.
#[derive(Clone, Copy, Debug, PartialEq, Eq, Structural)]
pub enum ClassTemplate {
    /// A plain C++ class.
    Class,
    /// A JUCE component.
    Component,
}

/// The files of a new class.
#[derive(Debug)]
pub struct ClassFiles {
    pub template: ClassTemplate,
    /// The class name, which replaces the templates' placeholder.
    pub class_name: String,
    pub header_file: String,
    pub source_file: String,
}

pub const CLASS: &'static str = "class";

pub const COMPONENT: &'static str = "component";

pub const COMPONENT_SUFFIX: &'static str = "Component";

pub const HEADER_EXT: &'static str = ".h";

pub const SOURCE_EXT: &'static str = ".cpp";

pub const INVALID_ELEMENT: &'static str = "Invalid element type: ";

/// The class name for an element: components get the `Component` suffix.
pub open spec fn class_name_of(element_type: Seq<char>, element_name: Seq<char>) -> Seq<char> {
    if element_type == COMPONENT@ {
        element_name + COMPONENT_SUFFIX@
    } else {
        element_name
    }
}

/// The files for a new element of type `class` or `component`.
pub fn class_files(element_type: &str, element_name: &str) -> (r: Result<ClassFiles, String>)
    ensures
        r is Ok <==> (element_type@ == CLASS@ || element_type@ == COMPONENT@),
        r matches Ok(f) ==> {
            let name = class_name_of(element_type@, element_name@);
            &&& f.template == if element_type@ == CLASS@ {
                ClassTemplate::Class
            } else {
                ClassTemplate::Component
            }
            &&& f.class_name@ == name
            &&& f.header_file@ == name + HEADER_EXT@
            &&& f.source_file@ == name + SOURCE_EXT@
        },
        r matches Err(m) ==> m@ == INVALID_ELEMENT@ + element_type@,
{
    let t = chars_of(element_type);
    let is_class = eq_exec(&t, &chars_of(CLASS));
    let is_component = eq_exec(&t, &chars_of(COMPONENT));
    if !is_class && !is_component {
        let mut m = String::from_str(INVALID_ELEMENT);
        m.append(element_type);
        return Err(m);
    }
    let mut name = String::from_str(element_name);
    if is_component {
        name.append(COMPONENT_SUFFIX);
    }
    let mut header = name.clone();
    header.append(HEADER_EXT);
    let mut source = name.clone();
    source.append(SOURCE_EXT);
    let template = if is_class {
        ClassTemplate::Class
    } else {
        ClassTemplate::Component
    };
    Ok(ClassFiles { template, class_name: name, header_file: header, source_file: source })
}

/// The placeholder that class templates hold for the class name.
pub const PLACEHOLDER: &'static str = "Template";

/// `s` with every occurrence of `from` replaced by `to`, occurrences taken
/// from left to right without overlap.
pub open spec fn replaced(s: Seq<char>, from: Seq<char>, to: Seq<char>) -> Seq<char>
    decreases s.len(),
{
    if s.len() == 0 {
        s
    } else if from.len() > 0 && starts_with(s, from) {
        to + replaced(s.skip(from.len() as int), from, to)
    } else {
        seq![s[0]] + replaced(s.drop_first(), from, to)
    }
}

/// Relies on `str::replace`: every non-overlapping match of a non-empty
/// pattern, found from left to right, is replaced.
#[verifier::external_body]
fn replace_all(s: &str, from: &str, to: &str) -> (r: String)
    requires
        from@.len() > 0,
    ensures
        r@ == replaced(s@, from@, to@),
{
    s.replace(from, to)
}

/// A class template with its placeholder replaced by `class_name`.
pub fn instantiate_template(template: &str, class_name: &str) -> (r: String)
    ensures
        r@ == replaced(template@, PLACEHOLDER@, class_name@),
{
    proof {
        reveal_strlit("Template");
    }
    replace_all(template, PLACEHOLDER, class_name)
}

} // verus!
