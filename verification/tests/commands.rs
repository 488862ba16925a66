use kraken::commands::{
    add_askama, add_dependencies, add_htmx, add_page, add_tailwindcss, check_link, create,
    initialize, is_project_name, link_unit, Add, Execute, Kraken,
};
use kraken::project::{next_stage, Action, Input, Project, Stage, Step};
use kraken::error::ScaffoldError;
use kraken::registry::has_feature;
use kraken::stubs::create_html_base_file;

const FRESH_MANIFEST: &str = "[kraken]\nlanguage = \"rs\"\nframework = \"axum\"\n\n[features]\n";

const FRESH_MAIN: &str = "use axum::{routing::get, Router};\n\nasync fn hello_world() -> &'static str {\n    \"Hello, world!\"\n}\n\n#[shuttle_runtime::main]\nasync fn main() -> shuttle_axum::ShuttleAxum {\n    let router = Router::new().route(\"/\", get(hello_world));\n\n    Ok(router.into())\n}\n";

const FRESH_CONFIG: &str = "module.exports = {\n  content: [],\n  theme: {},\n}\n";

fn initialized() -> Project {
    Project {
        manifest: Some(String::from(FRESH_MANIFEST)),
        base_html: None,
        mod_rs: String::new(),
        main_rs: String::from(FRESH_MAIN),
        tailwind_config: None,
        styles_script: false,
    }
}

fn input(stage: Stage, ran: bool, name: &str, title: &str) -> Input {
    Input { stage, ran, page_name: String::from(name), page_title: String::from(title) }
}

fn state(project: &Project) -> (Option<String>, Option<String>, String, String, Option<String>) {
    (
        project.manifest.clone(),
        project.base_html.clone(),
        project.mod_rs.clone(),
        project.main_rs.clone(),
        project.tailwind_config.clone(),
    )
}

#[test]
fn every_action_names_the_stage_that_follows_it() {
    assert_eq!(next_stage(Action::CreateProject), Some(Stage::Created));
    assert_eq!(next_stage(Action::Install), Some(Stage::Installed));
    assert_eq!(next_stage(Action::Format), Some(Stage::Formatted));
    assert_eq!(next_stage(Action::InitStyles), Some(Stage::StylesInitialised));
    assert_eq!(next_stage(Action::BuildStyles), Some(Stage::StylesBuilt));
    assert_eq!(next_stage(Action::OfferAskama), None);
    assert_eq!(next_stage(Action::OfferPage), None);
    assert_eq!(next_stage(Action::SayNoLayout), None);
    assert_eq!(next_stage(Action::Stop), None);
}

fn run(command: Kraken, project: &mut Project, name: &str, title: &str) -> (Step, Vec<(String, String)>) {
    let mut stage = Stage::Start;
    let mut files: Vec<(String, String)> = Vec::new();
    loop {
        let step = command.execute(project, &input(stage, true, name, title));
        for file in &step.written {
            files.push((file.path.clone(), file.content.clone()));
        }
        if step.action == Action::InitStyles {
            project.tailwind_config = Some(String::from(FRESH_CONFIG));
        }
        match next_stage(step.action) {
            Some(next) => stage = next,
            None => return (step, files),
        }
    }
}

#[test]
fn nothing_is_added_without_a_manifest() {
    for command in [Add::Askama, Add::Tailwindcss, Add::Htmx, Add::Page] {
        let mut project = initialized();
        project.manifest = None;
        let before = state(&project);
        let step = command.execute(&mut project, &input(Stage::Start, true, "about", "About"));
        assert_eq!(step.action, Action::Stop);
        assert_eq!(step.outcome, Err(ScaffoldError::NotInitialized));
        assert!(step.written.is_empty());
        assert_eq!(state(&project), before);
    }
}

#[test]
fn askama_asks_for_the_installer_then_lays_out_and_marks() {
    let mut project = initialized();
    let step = add_askama(&mut project, Stage::Start, true);
    assert_eq!(step.action, Action::Install);
    assert_eq!(step.outcome, Ok(()));
    assert_eq!(state(&project), state(&initialized()));
    let step = add_askama(&mut project, Stage::Installed, true);
    assert_eq!(step.action, Action::OfferPage);
    assert_eq!(step.outcome, Ok(()));
    assert!(step.written.is_empty());
    assert_eq!(project.base_html, Some(create_html_base_file().content));
    assert_eq!(
        project.manifest.as_deref(),
        Some("[kraken]\nlanguage = \"rs\"\nframework = \"axum\"\n\n[features]\naskama = true\n")
    );
}

#[test]
fn askama_twice_is_refused_and_leaves_every_file() {
    let mut project = initialized();
    let (first, _) = run(Kraken::Add { add_commands: Add::Askama }, &mut project, "", "");
    assert_eq!(first.outcome, Ok(()));
    assert_eq!(first.action, Action::OfferPage);
    let once = state(&project);
    let (second, files) = run(Kraken::Add { add_commands: Add::Askama }, &mut project, "", "");
    assert_eq!(second.outcome, Err(ScaffoldError::AlreadyExists));
    assert_eq!(second.action, Action::Stop);
    assert!(files.is_empty());
    assert_eq!(state(&project), once);
}

#[test]
fn askama_with_a_broken_manifest_is_refused_at_the_start() {
    let mut project = initialized();
    project.manifest = Some(String::from("[features\n"));
    let before = state(&project);
    let step = add_askama(&mut project, Stage::Start, true);
    assert_eq!(step.action, Action::Stop);
    assert_eq!(step.outcome, Err(ScaffoldError::ManifestMalformed));
    assert_eq!(state(&project), before);
}

#[test]
fn askama_is_refused_before_the_installer_where_it_cannot_be_marked() {
    let mut project = initialized();
    project.manifest = Some(String::from("features = 3\n"));
    let before = state(&project);
    for stage in [Stage::Start, Stage::Installed] {
        let step = add_askama(&mut project, stage, true);
        assert_eq!(step.action, Action::Stop);
        assert_eq!(step.outcome, Err(ScaffoldError::ManifestMalformed));
        assert_eq!(state(&project), before);
    }
}

#[test]
fn askama_keeps_a_layout_that_is_there() {
    let mut project = initialized();
    project.base_html = Some(String::from("<head><x/></head>"));
    assert_eq!(add_askama(&mut project, Stage::Start, true).action, Action::Install);
    let step = add_askama(&mut project, Stage::Installed, true);
    assert_eq!((step.action, step.outcome), (Action::OfferPage, Ok(())));
    assert_eq!(project.base_html.as_deref(), Some("<head><x/></head>"));
    assert_eq!(has_feature(project.manifest.as_deref(), "askama"), Ok(true));
}

#[test]
fn askama_marks_a_feature_that_was_set_to_false() {
    let mut project = initialized();
    project.manifest = Some(String::from("[features]\naskama = false\n"));
    assert_eq!(add_askama(&mut project, Stage::Start, true).action, Action::Install);
    let step = add_askama(&mut project, Stage::Installed, true);
    assert_eq!((step.action, step.outcome), (Action::OfferPage, Ok(())));
    assert_eq!(project.manifest.as_deref(), Some("[features]\naskama = true\n"));
}

#[test]
fn a_stage_that_was_not_asked_for_does_nothing() {
    let mut project = initialized();
    let before = state(&project);
    for stage in [Stage::Created, Stage::Formatted, Stage::StylesInitialised, Stage::StylesBuilt] {
        let step = add_askama(&mut project, stage, true);
        assert_eq!(step.action, Action::Stop);
        assert_eq!(step.outcome, Ok(()));
    }
    for stage in [Stage::Created, Stage::Installed, Stage::StylesInitialised, Stage::StylesBuilt] {
        let step = add_page(&mut project, "about", "About", stage, true);
        assert_eq!(step.action, Action::Stop);
        assert_eq!(step.outcome, Ok(()));
    }
    for stage in [Stage::Created, Stage::Installed] {
        let step = add_tailwindcss(&mut project, stage, true);
        assert_eq!(step.action, Action::Stop);
        assert_eq!(step.outcome, Ok(()));
    }
    for stage in [Stage::Installed, Stage::Formatted, Stage::StylesInitialised, Stage::StylesBuilt] {
        let step = create(&mut project, stage, true);
        assert_eq!(step.action, Action::Stop);
        assert_eq!(step.outcome, Ok(()));
    }
    assert_eq!(state(&project), before);
}

#[test]
fn a_page_is_written_formatted_and_made_known() {
    let mut project = initialized();
    let step = add_page(&mut project, "about", "About", Stage::Start, false);
    assert_eq!(step.action, Action::Format);
    assert_eq!(step.outcome, Ok(()));
    assert_eq!(step.written.len(), 2);
    assert_eq!(step.written[0].path, "templates/about.html");
    assert_eq!(
        step.written[0].content,
        "\n<!-- prettier-ignore -->\n{% extends \"base.html\" %}\n{% block title %}{{title}}{% endblock %}\n{% block content %}\n<section class=\"bg-indigo-400 text-white font-black text-6xl\">Hello</section>\n{% endblock %}"
    );
    assert_eq!(step.written[1].path, "src/kraken/about.rs");
    assert!(step.written[1].content.contains("#[template(path = \"about.html\")]"));
    assert!(step.written[1].content.contains("TheTemplate { title: \"About\" }"));
    assert_eq!(state(&project), state(&initialized()));
    let step = add_page(&mut project, "about", "About", Stage::Formatted, true);
    assert_eq!(step.action, Action::Stop);
    assert_eq!(step.outcome, Ok(()));
    assert!(step.written.is_empty());
    assert_eq!(project.mod_rs, "pub mod about;\n");
    assert_eq!(
        project.main_rs,
        "mod kraken;\nuse kraken::about;\nuse axum::{routing::get, Router};\n\n#[shuttle_runtime::main]\nasync fn main() -> shuttle_axum::ShuttleAxum {\n    let router = Router::new()\n.route(\"/about\", get(about::main)).route(\"/\", get(hello_world));\n\n    Ok(router.into())\n}\n"
    );
}

#[test]
fn a_page_whose_unit_could_not_be_formatted_is_not_made_known() {
    let mut project = initialized();
    add_page(&mut project, "about", "About", Stage::Start, true);
    let step = add_page(&mut project, "about", "About", Stage::Formatted, false);
    assert_eq!(step.action, Action::Stop);
    assert_eq!(step.outcome, Err(ScaffoldError::FormatFailed));
    assert_eq!(state(&project), state(&initialized()));
}

#[test]
fn a_page_twice_is_refused_at_the_start_and_writes_nothing() {
    let mut project = initialized();
    let page = Kraken::Add { add_commands: Add::Page };
    let (first, written) = run(page, &mut project, "about", "About");
    assert_eq!(first.outcome, Ok(()));
    assert_eq!(written.len(), 2);
    let once = state(&project);
    for title in ["About", "Another title"] {
        let step = add_page(&mut project, "about", title, Stage::Start, true);
        assert_eq!(step.action, Action::Stop);
        assert_eq!(step.outcome, Err(ScaffoldError::AlreadyExists));
        assert!(step.written.is_empty());
        let (second, rewritten) = run(page, &mut project, "about", title);
        assert_eq!(second.outcome, Err(ScaffoldError::AlreadyExists));
        assert_eq!(second.action, Action::Stop);
        assert!(rewritten.is_empty());
        assert_eq!(state(&project), once);
    }
}

#[test]
fn a_page_that_is_imported_already_is_refused_at_the_start() {
    let mut project = initialized();
    project.main_rs = String::from("use kraken::{about};\nfn main() { Router::new(); }\n");
    assert_eq!(check_link(&project, "about", None), Err(ScaffoldError::AlreadyExists));
    assert_eq!(check_link(&project, "index", None), Ok(()));
    assert_eq!(check_link(&project, "index", Some("a/b")), Ok(()));
    assert_eq!(check_link(&project, "my-page", None), Err(ScaffoldError::InvalidName));
    let before = state(&project);
    let step = add_page(&mut project, "about", "About", Stage::Start, true);
    assert_eq!(step.action, Action::Stop);
    assert_eq!(step.outcome, Err(ScaffoldError::AlreadyExists));
    assert!(step.written.is_empty());
    assert_eq!(state(&project), before);
}

#[test]
fn a_refusal_leaves_the_project_as_it_was() {
    let mut project = initialized();
    project.main_rs = String::from("fn main() {}\n");
    let before = state(&project);
    assert_eq!(check_link(&project, "about", None), Err(ScaffoldError::DispatcherMalformed));
    let outcome = link_unit(&mut project, "about", None, true);
    assert_eq!(outcome, Err(ScaffoldError::DispatcherMalformed));
    assert_eq!(state(&project), before);
    let step = add_page(&mut project, "about", "About", Stage::Start, true);
    assert_eq!((step.action, step.outcome), (Action::Stop, Err(ScaffoldError::DispatcherMalformed)));
    assert!(step.written.is_empty());
    assert_eq!(state(&project), before);
    let mut imported = initialized();
    imported.main_rs = String::from("use kraken::about;\nRouter::new()");
    let before = state(&imported);
    assert_eq!(link_unit(&mut imported, "about", None, true), Err(ScaffoldError::AlreadyExists));
    assert_eq!(state(&imported), before);
    let mut declared = initialized();
    declared.mod_rs = String::from("pub mod about;\n");
    let before = state(&declared);
    assert_eq!(link_unit(&mut declared, "about", None, true), Err(ScaffoldError::AlreadyExists));
    assert_eq!(state(&declared), before);
}

#[test]
fn askama_then_a_page_about() {
    let mut project = initialized();
    let (step, _) = run(Kraken::Add { add_commands: Add::Askama }, &mut project, "", "");
    assert_eq!(step.outcome, Ok(()));
    let (step, files) = run(Kraken::Add { add_commands: Add::Page }, &mut project, "about", "About");
    assert_eq!(step.outcome, Ok(()));
    assert_eq!(has_feature(project.manifest.as_deref(), "askama"), Ok(true));
    assert!(project.manifest.as_deref().unwrap().contains("askama = true"));
    assert_eq!(project.mod_rs.matches("pub mod about;").count(), 1);
    assert_eq!(project.main_rs.matches(".route(\"/about\", get(about::main))").count(), 1);
    assert_eq!(project.main_rs.matches(".route(\"/about\"").count(), 1);
    let template = files.iter().find(|(path, _)| path == "templates/about.html").unwrap();
    assert!(template.1.contains("{% extends \"base.html\" %}"));
    assert!(project.base_html.is_some());
}

#[test]
fn the_index_page_takes_over_the_root_entry() {
    let mut project = initialized();
    let (step, _) = run(Kraken::Add { add_commands: Add::Page }, &mut project, "index", "Index");
    assert_eq!(step.outcome, Ok(()));
    assert!(project.main_rs.contains("Router::new().route(\"/\", get(index::main));"));
    assert!(!project.main_rs.contains("hello_world"));
    assert_eq!(project.main_rs.matches(".route(").count(), 1);
}

#[test]
fn htmx_goes_into_the_layout_once_and_is_marked() {
    let mut project = initialized();
    project.base_html = Some(create_html_base_file().content);
    let step = add_htmx(&mut project);
    assert_eq!(step.action, Action::Stop);
    assert_eq!(step.outcome, Ok(()));
    let layout = project.base_html.clone().unwrap();
    assert!(layout
        .contains("<script src=\"https://unpkg.com/htmx.org@1.9.10\"></script>\n    </head>"));
    assert_eq!(has_feature(project.manifest.as_deref(), "htmx"), Ok(true));
    let once = state(&project);
    let step = add_htmx(&mut project);
    assert_eq!(step.action, Action::Stop);
    assert_eq!(step.outcome, Err(ScaffoldError::AlreadyExists));
    assert_eq!(state(&project), once);
    assert_eq!(layout.matches("https://unpkg.com/htmx.org@").count(), 1);
}

#[test]
fn htmx_that_is_in_the_layout_but_not_in_the_manifest_is_marked() {
    let mut project = initialized();
    project.base_html = Some(String::from("<script src=\"https://unpkg.com/htmx.org@2\"></script>"));
    let step = add_htmx(&mut project);
    assert_eq!(step.outcome, Ok(()));
    assert_eq!(
        project.base_html.as_deref(),
        Some("<script src=\"https://unpkg.com/htmx.org@2\"></script>")
    );
    assert_eq!(has_feature(project.manifest.as_deref(), "htmx"), Ok(true));
}

#[test]
fn htmx_that_cannot_be_marked_is_not_injected() {
    let mut project = initialized();
    project.base_html = Some(create_html_base_file().content);
    project.manifest = Some(String::from("features = 3\n"));
    let before = state(&project);
    let step = add_htmx(&mut project);
    assert_eq!((step.action, step.outcome), (Action::Stop, Err(ScaffoldError::ManifestMalformed)));
    assert_eq!(state(&project), before);
}

#[test]
fn htmx_without_a_layout_does_nothing_and_says_so() {
    let mut project = initialized();
    let before = state(&project);
    let step = add_htmx(&mut project);
    assert_eq!((step.action, step.outcome), (Action::SayNoLayout, Ok(())));
    assert!(step.written.is_empty());
    assert_eq!(state(&project), before);
    assert_eq!(has_feature(project.manifest.as_deref(), "htmx"), Ok(false));
    project.manifest = Some(String::from("features = 3\n"));
    let step = add_htmx(&mut project);
    assert_eq!((step.action, step.outcome), (Action::SayNoLayout, Ok(())));
    project.manifest = Some(String::from("[features]\nhtmx = true\n"));
    let step = add_htmx(&mut project);
    assert_eq!((step.action, step.outcome), (Action::Stop, Err(ScaffoldError::AlreadyExists)));
}

#[test]
fn htmx_without_an_anchor_is_refused() {
    let mut project = initialized();
    project.base_html = Some(String::from("<html></html>"));
    assert_eq!(add_htmx(&mut project).outcome, Err(ScaffoldError::AnchorNotFound));
    assert_eq!(project.base_html.as_deref(), Some("<html></html>"));
    assert_eq!(has_feature(project.manifest.as_deref(), "htmx"), Ok(false));
}

#[test]
fn tailwindcss_runs_through_its_stages() {
    let mut project = initialized();
    project.base_html = Some(create_html_base_file().content);
    let step = add_tailwindcss(&mut project, Stage::Start, true);
    assert_eq!(step.action, Action::Format);
    assert_eq!(step.written.len(), 1);
    assert_eq!(step.written[0].path, "src/kraken/tailwindcss.rs");
    let step = add_tailwindcss(&mut project, Stage::Formatted, true);
    assert_eq!(step.action, Action::InitStyles);
    assert_eq!(step.outcome, Ok(()));
    assert_eq!(project.mod_rs, "pub mod tailwindcss;\n");
    assert!(project.main_rs.starts_with("use kraken::tailwindcss;\nuse axum"));
    assert!(project
        .main_rs
        .contains("Router::new()\n.route(\"/styles/tailwind.css\", get(tailwindcss::main))"));
    project.tailwind_config = Some(String::from(FRESH_CONFIG));
    let step = add_tailwindcss(&mut project, Stage::StylesInitialised, true);
    assert_eq!(step.action, Action::BuildStyles);
    assert_eq!(
        project.tailwind_config.as_deref(),
        Some("module.exports = {\n  content: [\"./templates/**/*.html\"],\n  theme: {},\n}")
    );
    assert_eq!(step.written.len(), 1);
    assert_eq!(step.written[0].path, "styles/styles.css");
    assert_eq!(
        step.written[0].content,
        "@tailwind base;\n@tailwind components;\n@tailwind utilities;\n"
    );
    assert_eq!(has_feature(project.manifest.as_deref(), "tailwindcss"), Ok(false));
    let step = add_tailwindcss(&mut project, Stage::StylesBuilt, true);
    assert_eq!(step.action, Action::Stop);
    assert_eq!(step.outcome, Ok(()));
    let layout = project.base_html.clone().unwrap();
    assert!(layout.contains(
        "\n<!-- tailwind deez css -->\n<link rel=\"stylesheet\" href=\"/styles/tailwind.css\" />\n</head>"
    ));
    assert_eq!(has_feature(project.manifest.as_deref(), "tailwindcss"), Ok(true));
    assert_eq!(
        project.manifest.as_deref(),
        Some("[kraken]\nlanguage = \"rs\"\nframework = \"axum\"\n\n[features]\ntailwindcss = true\n")
    );
    let once = state(&project);
    let step = add_tailwindcss(&mut project, Stage::StylesBuilt, true);
    assert_eq!(step.outcome, Err(ScaffoldError::AlreadyExists));
    assert_eq!(state(&project), once);
    assert_eq!(project.base_html, Some(layout));
}

#[test]
fn tailwindcss_with_a_configuration_skips_the_init() {
    let mut project = initialized();
    project.base_html = Some(create_html_base_file().content);
    project.tailwind_config = Some(String::from(FRESH_CONFIG));
    project.styles_script = true;
    assert_eq!(add_tailwindcss(&mut project, Stage::Start, true).action, Action::Format);
    let step = add_tailwindcss(&mut project, Stage::Formatted, true);
    assert_eq!(step.action, Action::BuildStyles);
    assert!(step.written.is_empty());
    assert_eq!(
        project.tailwind_config.as_deref(),
        Some("module.exports = {\n  content: [\"./templates/**/*.html\"],\n  theme: {},\n}")
    );
}

#[test]
fn tailwindcss_stops_when_a_tool_could_not_be_run() {
    let mut project = initialized();
    let before = state(&project);
    let step = add_tailwindcss(&mut project, Stage::Formatted, false);
    assert_eq!((step.action, step.outcome), (Action::Stop, Err(ScaffoldError::FormatFailed)));
    let step = add_tailwindcss(&mut project, Stage::StylesInitialised, false);
    assert_eq!((step.action, step.outcome), (Action::Stop, Err(ScaffoldError::ExternalToolFailed)));
    let step = add_tailwindcss(&mut project, Stage::StylesInitialised, true);
    assert_eq!((step.action, step.outcome), (Action::Stop, Err(ScaffoldError::ExternalToolFailed)));
    let step = add_tailwindcss(&mut project, Stage::StylesBuilt, false);
    assert_eq!((step.action, step.outcome), (Action::Stop, Err(ScaffoldError::ExternalToolFailed)));
    project.base_html = Some(String::from("<html></html>"));
    let step = add_tailwindcss(&mut project, Stage::StylesBuilt, true);
    assert_eq!((step.action, step.outcome), (Action::Stop, Err(ScaffoldError::AnchorNotFound)));
    project.base_html = None;
    assert_eq!(state(&project), before);
}

#[test]
fn tailwindcss_without_a_layout_installs_all_but_the_link_and_says_so() {
    let mut project = initialized();
    let command = Kraken::Add { add_commands: Add::Tailwindcss };
    let (last, written) = run(command, &mut project, "", "");
    assert_eq!((last.action, last.outcome), (Action::SayNoLayout, Ok(())));
    assert_eq!(written.len(), 2);
    assert_eq!(written[0].0, "src/kraken/tailwindcss.rs");
    assert_eq!(written[1].0, "styles/styles.css");
    assert_eq!(project.base_html, None);
    assert_eq!(project.mod_rs, "pub mod tailwindcss;\n");
    assert!(project
        .main_rs
        .contains("Router::new()\n.route(\"/styles/tailwind.css\", get(tailwindcss::main))"));
    assert_eq!(
        project.tailwind_config.as_deref(),
        Some("module.exports = {\n  content: [\"./templates/**/*.html\"],\n  theme: {},\n}")
    );
    assert_eq!(has_feature(project.manifest.as_deref(), "tailwindcss"), Ok(true));
    let once = state(&project);
    let (second, rewritten) = run(command, &mut project, "", "");
    assert_eq!((second.action, second.outcome), (Action::Stop, Err(ScaffoldError::AlreadyExists)));
    assert!(rewritten.is_empty());
    assert_eq!(state(&project), once);
}

#[test]
fn tailwindcss_twice_is_refused_at_the_start_and_writes_nothing() {
    let mut project = initialized();
    project.base_html = Some(create_html_base_file().content);
    let command = Kraken::Add { add_commands: Add::Tailwindcss };
    let (first, written) = run(command, &mut project, "", "");
    assert_eq!(first.outcome, Ok(()));
    assert_eq!(written.len(), 2);
    assert_eq!(has_feature(project.manifest.as_deref(), "tailwindcss"), Ok(true));
    let once = state(&project);
    let step = add_tailwindcss(&mut project, Stage::Start, true);
    assert_eq!((step.action, step.outcome), (Action::Stop, Err(ScaffoldError::AlreadyExists)));
    assert!(step.written.is_empty());
    let (second, rewritten) = run(command, &mut project, "", "");
    assert_eq!(second.outcome, Err(ScaffoldError::AlreadyExists));
    assert!(rewritten.is_empty());
    assert_eq!(state(&project), once);
}

#[test]
fn tailwindcss_asks_at_the_start_for_all_its_stages() {
    let refused = |project: &mut Project, refusal: ScaffoldError| {
        let before = state(project);
        let step = add_tailwindcss(project, Stage::Start, true);
        assert_eq!((step.action, step.outcome), (Action::Stop, Err(refusal)));
        assert!(step.written.is_empty());
        assert_eq!(state(project), before);
    };
    let ready = || {
        let mut project = initialized();
        project.base_html = Some(create_html_base_file().content);
        project
    };
    assert_eq!(add_tailwindcss(&mut ready(), Stage::Start, true).action, Action::Format);
    let mut project = ready();
    project.mod_rs = String::from("pub mod tailwindcss;\n");
    refused(&mut project, ScaffoldError::AlreadyExists);
    let mut project = ready();
    project.main_rs = String::from("use kraken::{tailwindcss};\nRouter::new()");
    refused(&mut project, ScaffoldError::AlreadyExists);
    let mut project = ready();
    project.main_rs = String::from("fn main() {}");
    refused(&mut project, ScaffoldError::DispatcherMalformed);
    let mut project = ready();
    project.base_html = None;
    assert_eq!(add_tailwindcss(&mut project, Stage::Start, true).action, Action::Format);
    project.manifest = Some(String::from("features = 3\n"));
    refused(&mut project, ScaffoldError::ManifestMalformed);
    let mut project = ready();
    project.base_html = Some(String::from("<html></html>"));
    refused(&mut project, ScaffoldError::AnchorNotFound);
    let mut project = ready();
    project.manifest = Some(String::from("[features\n"));
    refused(&mut project, ScaffoldError::ManifestMalformed);
    let mut project = ready();
    project.manifest = Some(String::from("features = 3\n"));
    refused(&mut project, ScaffoldError::ManifestMalformed);
    let mut project = ready();
    project.manifest = Some(String::from("[features]\ntailwindcss = true\n"));
    refused(&mut project, ScaffoldError::AlreadyExists);
}

#[test]
fn init_writes_a_fresh_manifest_where_there_is_none() {
    let mut project = initialized();
    project.manifest = None;
    let step = initialize(&mut project);
    assert_eq!((step.action, step.outcome), (Action::Stop, Ok(())));
    assert_eq!(project.manifest.as_deref(), Some(FRESH_MANIFEST));
}

#[test]
fn init_and_create_keep_a_manifest_that_is_there() {
    let held = "[kraken]\nlanguage = \"rs\"\nframework = \"axum\"\n\n[features]\naskama = true\n";
    let mut project = initialized();
    project.manifest = Some(String::from(held));
    let step = Kraken::Init.execute(&mut project, &input(Stage::Start, true, "", ""));
    assert_eq!((step.action, step.outcome), (Action::Stop, Err(ScaffoldError::AlreadyExists)));
    assert_eq!(project.manifest.as_deref(), Some(held));
    let step = initialize(&mut project);
    assert_eq!((step.action, step.outcome), (Action::Stop, Err(ScaffoldError::AlreadyExists)));
    assert_eq!(project.manifest.as_deref(), Some(held));
    let step = create(&mut project, Stage::Created, true);
    assert_eq!((step.action, step.outcome), (Action::Stop, Err(ScaffoldError::AlreadyExists)));
    assert_eq!(project.manifest.as_deref(), Some(held));
    assert_eq!(has_feature(project.manifest.as_deref(), "askama"), Ok(true));
}

#[test]
fn create_asks_for_the_project_then_writes_the_manifest() {
    let mut project = initialized();
    project.manifest = None;
    let step = Kraken::Create.execute(&mut project, &input(Stage::Start, true, "", ""));
    assert_eq!((step.action, step.outcome), (Action::CreateProject, Ok(())));
    assert_eq!(project.manifest, None);
    let step = Kraken::Create.execute(&mut project, &input(Stage::Created, true, "", ""));
    assert_eq!((step.action, step.outcome), (Action::OfferAskama, Ok(())));
    assert_eq!(project.manifest.as_deref(), Some(FRESH_MANIFEST));
}

#[test]
fn the_installer_is_asked_for_the_templating_crates() {
    assert_eq!(add_dependencies(), vec!["add", "askama", "-F", "askama/with-axum", "askama_axum"]);
}

#[test]
fn a_project_needs_a_name() {
    assert!(is_project_name("my-kraken-project"));
    assert!(is_project_name(" "));
    assert!(!is_project_name(""));
}

#[test]
fn a_page_with_a_name_that_is_no_identifier_is_refused_at_the_start() {
    for name in ["", "my page", "my-page", "fn", "9", "a/b", "../x", "r#fn", " about"] {
        let mut project = initialized();
        let step = add_page(&mut project, name, "Title", Stage::Start, true);
        assert_eq!(step.action, Action::Stop);
        assert_eq!(step.outcome, Err(ScaffoldError::InvalidName));
        assert!(step.written.is_empty());
        assert_eq!(state(&project), state(&initialized()));
    }
}

#[test]
fn askama_is_not_marked_where_the_installer_failed() {
    let mut project = initialized();
    let before = state(&project);
    assert_eq!(add_askama(&mut project, Stage::Start, false).action, Action::Install);
    let step = add_askama(&mut project, Stage::Installed, false);
    assert_eq!((step.action, step.outcome), (Action::Stop, Err(ScaffoldError::ExternalToolFailed)));
    assert_eq!(state(&project), before);
    assert_eq!(has_feature(project.manifest.as_deref(), "askama"), Ok(false));
}

#[test]
fn a_project_that_could_not_be_created_gets_no_manifest() {
    let mut project = initialized();
    project.manifest = None;
    let step = create(&mut project, Stage::Created, false);
    assert_eq!((step.action, step.outcome), (Action::Stop, Err(ScaffoldError::ExternalToolFailed)));
    assert_eq!(project.manifest, None);
}
