//! The commands, stage by stage.
//!
//! A stage asks before it edits: what would refuse an edit of the stage is
//! looked for first, so that a refusal leaves the project as it was and
//! writes nothing. The first stage of a command asks for all its stages.
//! Only a tool that does not leave with success can end a command between
//! two stages, and the edits of the stages before it stay.
use crate::error::ScaffoldError;
use crate::markup::{add_tag_to_head, check_injection, injected, injection_report};
use crate::modules::{
    add_kraken_to_main_rs, check_import, check_unit, declare, declared, import_report,
    unit_report, with_aggregator, IMPORT_PREFIX, UNIT_PREFIX,
};
use crate::project::{
    asking, stopped, took, Action, Input, InputView, Project, ProjectView, Stage, Step, Turn,
};
use crate::registry::{
    add_feature, add_kraken_toml, check_feature, check_marking, feature_check, fresh_manifest,
    manifest_after, marking_report,
};
use crate::routes::{
    call_module_fn_in_main_rs, check_registration, registered, registration_report, route_path,
};
use crate::stubs::{
    create_html_base_file, create_tailwind_base_styles, edit_tailwind_config, edited_config,
    generate_page_mod_rs, generate_page_template, generate_tailwindcss_mod_rs, page_template,
    page_unit, template_path, unit_path, FileView, GeneratedFile, BASE_LAYOUT, BASE_STYLES,
    BASE_STYLES_PATH, STYLES_UNIT, STYLES_UNIT_PATH,
};
use crate::text::view_of;
use vstd::prelude::*;
use vstd::string::*;

verus! {

/// The name under which the templating feature is registered.
pub const ASKAMA: &'static str = "askama";

/// The name of the unit that serves the compiled stylesheet, under which
/// the stylesheet feature is registered too.
pub const TAILWINDCSS: &'static str = "tailwindcss";

/// The name under which the interactivity feature is registered.
pub const HTMX: &'static str = "htmx";

/// The path under which the compiled stylesheet is served.
pub const STYLESHEET_ROUTE: &'static str = "styles/tailwind.css";

/// The language every project is written in.
pub const LANGUAGE: &'static str = "rs";

/// The framework every project is built on.
pub const FRAMEWORK: &'static str = "axum";

/// What is injected into the layout for the stylesheet.
pub const STYLESHEET_TAG: &'static str =
    "\n<!-- tailwind deez css -->\n<link rel=\"stylesheet\" href=\"/styles/tailwind.css\" />\n";

/// What tells that the stylesheet is linked in the layout.
pub const STYLESHEET_MARK: &'static str = "/styles/tailwind.css";

/// What is injected into the layout for the interactivity library.
pub const HTMX_TAG: &'static str =
    "\n        <!-- cdn deez nuts for htmx -->\n        <script src=\"https://unpkg.com/htmx.org@1.9.10\"></script>\n    ";

/// What tells that the interactivity library is loaded in the layout.
pub const HTMX_MARK: &'static str = "https://unpkg.com/htmx.org@";

/// The content a new page starts with.
pub const PAGE_BODY: &'static str =
    "<section class=\"bg-indigo-400 text-white font-black text-6xl\">Hello</section>";

/// The template and the unit of a page, in the order they are written.
pub open spec fn page_files(name: Seq<char>, title: Seq<char>) -> Seq<FileView> {
    seq![
        FileView { path: template_path(name), content: page_template(PAGE_BODY@) },
        FileView { path: unit_path(name), content: page_unit(name, title) },
    ]
}

/// The layout that a project has once the templating feature is in: the
/// one that is there, or the base layout where there is none.
pub open spec fn laid_out(layout: Option<Seq<char>>) -> Seq<char> {
    match layout {
        Some(held) => held,
        None => BASE_LAYOUT@,
    }
}

/// Installing the templating feature. At the start the registry is asked:
/// an installed feature is refused, and so is a manifest in which it cannot
/// be marked; otherwise the installer is asked for. Behind the installer,
/// if it left with success, the project gets the base layout where it has
/// none, and the feature is marked in the manifest; then a page may be
/// offered. A refusal leaves the project as it was.
pub open spec fn askama_turn(project: ProjectView, stage: Stage, ran: bool) -> Turn {
    match stage {
        Stage::Start => match feature_check(project.manifest, ASKAMA@) {
            Ok(_) => match marking_report(project.manifest, ASKAMA@) {
                Ok(_) => asking(project, Action::Install),
                Err(refusal) => stopped(project, Err(refusal)),
            },
            Err(refusal) => stopped(project, Err(refusal)),
        },
        Stage::Installed => if ran {
            match marking_report(project.manifest, ASKAMA@) {
                Ok(_) => asking(
                    ProjectView {
                        base_html: Some(laid_out(project.base_html)),
                        manifest: manifest_after(project.manifest, ASKAMA@),
                        ..project
                    },
                    Action::OfferPage,
                ),
                Err(refusal) => stopped(project, Err(refusal)),
            }
        } else {
            stopped(project, Err(ScaffoldError::ExternalToolFailed))
        },
        _ => stopped(project, Ok(())),
    }
}

/// What a command that makes the unit `name` known under `path` is told
/// before it writes anything: a name that cannot name a unit is refused,
/// and so are a unit that is declared in the aggregator or imported into
/// the entry file, and a dispatcher that does not take the registration.
pub open spec fn link_check(project: ProjectView, name: Seq<char>, path: Seq<char>) -> Result<
    (),
    ScaffoldError,
> {
    if unit_report(project.mod_rs, name) is Err {
        unit_report(project.mod_rs, name)
    } else if import_report(project.main_rs, name) is Err {
        import_report(project.main_rs, name)
    } else {
        registration_report(project.main_rs, name, path)
    }
}

/// The entry file after the unit `name` was registered in its dispatcher
/// under `path` and imported in front of it, with the aggregator declared
/// in front of that where `aggregator` is set and it is not declared yet.
/// As it was where the dispatcher does not take the registration.
pub open spec fn entry_linked(
    main_rs: Seq<char>,
    name: Seq<char>,
    path: Seq<char>,
    aggregator: bool,
) -> Seq<char> {
    match registered(main_rs, name, path) {
        Ok(routed) => {
            let imported = declared(routed, IMPORT_PREFIX@, name);
            if aggregator {
                with_aggregator(imported)
            } else {
                imported
            }
        },
        Err(_) => main_rs,
    }
}

/// Making a unit known: where `link_check` lets it pass, it is declared in
/// the aggregator, registered in the dispatcher under `path`, and imported
/// into the entry file. A refusal leaves the project as it was.
pub open spec fn linked(
    project: ProjectView,
    name: Seq<char>,
    path: Seq<char>,
    aggregator: bool,
) -> (ProjectView, Result<(), ScaffoldError>) {
    match link_check(project, name, path) {
        Ok(_) => (
            ProjectView {
                mod_rs: declared(project.mod_rs, UNIT_PREFIX@, name),
                main_rs: entry_linked(project.main_rs, name, path, aggregator),
                ..project
            },
            Ok(()),
        ),
        Err(refusal) => (project, Err(refusal)),
    }
}

/// Creating a page. At the start a page that cannot be made known is
/// refused and nothing is written; otherwise the template and the unit of
/// the page are written and the formatter is asked for. Behind the
/// formatter, if it left with success, the unit is made known under the
/// path of its name.
pub open spec fn page_turn(
    project: ProjectView,
    name: Seq<char>,
    title: Seq<char>,
    stage: Stage,
    ran: bool,
) -> Turn {
    match stage {
        Stage::Start => match link_check(project, name, route_path(name)) {
            Ok(_) => Turn {
                project,
                written: page_files(name, title),
                action: Action::Format,
                outcome: Ok(()),
            },
            Err(refusal) => stopped(project, Err(refusal)),
        },
        Stage::Formatted => if ran {
            let (after, outcome) = linked(project, name, route_path(name), true);
            stopped(after, outcome)
        } else {
            stopped(project, Err(ScaffoldError::FormatFailed))
        },
        _ => stopped(project, Ok(())),
    }
}

/// The stage of the stylesheet command that has the configuration: it is
/// edited, the base styles are written unless the styles script is there,
/// and the compiler is asked for. Without a configuration the command ends.
pub open spec fn styles_configured(project: ProjectView) -> Turn {
    match project.tailwind_config {
        Some(config) => Turn {
            project: ProjectView { tailwind_config: Some(edited_config(config)), ..project },
            written: if project.styles_script {
                Seq::empty()
            } else {
                seq![FileView { path: BASE_STYLES_PATH@, content: BASE_STYLES@ }]
            },
            action: Action::BuildStyles,
            outcome: Ok(()),
        },
        None => stopped(project, Err(ScaffoldError::ExternalToolFailed)),
    }
}

/// What a command that brings `feature` into the layout is told before it
/// writes anything: an installed feature is refused, and so are a layout
/// without the anchor and a manifest in which the feature cannot be marked.
/// A project without a layout is not refused: nothing can be linked in it,
/// and the feature is marked all the same where it is `more` than its
/// fragment in the layout.
pub open spec fn feature_ready(
    project: ProjectView,
    marker: Seq<char>,
    feature: Seq<char>,
    more: bool,
) -> Result<(), ScaffoldError> {
    match feature_check(project.manifest, feature) {
        Err(refusal) => Err(refusal),
        Ok(_) => match project.base_html {
            None => if more {
                marking_report(project.manifest, feature)
            } else {
                Ok(())
            },
            Some(layout) => match injection_report(layout, marker) {
                Err(refusal) => Err(refusal),
                Ok(_) => marking_report(project.manifest, feature),
            },
        },
    }
}

/// The last stage of a command that brings `feature` into the layout.
/// Where `feature_ready` lets it pass and there is a layout, `fragment` is
/// injected into it and the feature is marked in the manifest. Without a
/// layout nothing is linked and the caller is asked to say so; the feature
/// is marked where it is `more` than its fragment, and the project stays as
/// it was where it is not. A refusal leaves the project as it was.
pub open spec fn brought(
    project: ProjectView,
    fragment: Seq<char>,
    marker: Seq<char>,
    feature: Seq<char>,
    more: bool,
) -> Turn {
    match feature_ready(project, marker, feature, more) {
        Ok(_) => match project.base_html {
            Some(layout) => stopped(
                ProjectView {
                    base_html: Some(injected(layout, fragment, marker)),
                    manifest: manifest_after(project.manifest, feature),
                    ..project
                },
                Ok(()),
            ),
            None => asking(
                if more {
                    ProjectView {
                        manifest: manifest_after(project.manifest, feature),
                        ..project
                    }
                } else {
                    project
                },
                Action::SayNoLayout,
            ),
        },
        Err(refusal) => stopped(project, Err(refusal)),
    }
}

/// What the stylesheet command is told before it writes anything: what
/// `feature_ready` and `link_check` say of its feature and its unit.
pub open spec fn tailwind_check(project: ProjectView) -> Result<(), ScaffoldError> {
    match feature_ready(project, STYLESHEET_MARK@, TAILWINDCSS@, true) {
        Ok(_) => link_check(project, TAILWINDCSS@, route_path(STYLESHEET_ROUTE@)),
        Err(refusal) => Err(refusal),
    }
}

/// Adding the stylesheet framework. At the start the registry, the layout
/// where there is one, the aggregator, the entry file and the dispatcher
/// are asked: a refusal
/// ends the command and nothing is written; otherwise the unit that serves
/// the stylesheet is written and the formatter is asked for. Behind it the
/// unit is made known under the path of the stylesheet; then the compiler
/// is asked for its configuration where there is none. With the
/// configuration the stage of `styles_configured` follows. Behind the
/// compiler the stylesheet is linked in the layout, where there is one, and
/// the feature is marked in the manifest. A tool that did not leave with
/// success ends the command.
pub open spec fn tailwind_turn(project: ProjectView, stage: Stage, ran: bool) -> Turn {
    match stage {
        Stage::Start => match tailwind_check(project) {
            Ok(_) => Turn {
                project,
                written: seq![FileView { path: STYLES_UNIT_PATH@, content: STYLES_UNIT@ }],
                action: Action::Format,
                outcome: Ok(()),
            },
            Err(refusal) => stopped(project, Err(refusal)),
        },
        Stage::Formatted => if ran {
            let (after, outcome) = linked(
                project,
                TAILWINDCSS@,
                route_path(STYLESHEET_ROUTE@),
                false,
            );
            if outcome is Err {
                stopped(after, outcome)
            } else if after.tailwind_config is None {
                asking(after, Action::InitStyles)
            } else {
                styles_configured(after)
            }
        } else {
            stopped(project, Err(ScaffoldError::FormatFailed))
        },
        Stage::StylesInitialised => if ran {
            styles_configured(project)
        } else {
            stopped(project, Err(ScaffoldError::ExternalToolFailed))
        },
        Stage::StylesBuilt => if ran {
            brought(project, STYLESHEET_TAG@, STYLESHEET_MARK@, TAILWINDCSS@, true)
        } else {
            stopped(project, Err(ScaffoldError::ExternalToolFailed))
        },
        _ => stopped(project, Ok(())),
    }
}

/// Adding the interactivity library: its script is injected into the layout
/// and the feature is marked in the manifest, where `feature_ready` lets it
/// pass. Without a layout nothing is done but to say so.
pub open spec fn htmx_turn(project: ProjectView) -> Turn {
    brought(project, HTMX_TAG@, HTMX_MARK@, HTMX@, false)
}

/// Initializing a project: it gets a fresh manifest. A manifest that is
/// there is kept, with its settings and its features, and the command is
/// refused.
pub open spec fn init_turn(project: ProjectView) -> Turn {
    if project.manifest is Some {
        stopped(project, Err(ScaffoldError::AlreadyExists))
    } else {
        stopped(
            ProjectView { manifest: Some(fresh_manifest(LANGUAGE@, FRAMEWORK@)), ..project },
            Ok(()),
        )
    }
}

/// Creating a project: the caller is asked to create it, and behind that,
/// if it went well, the project gets a fresh manifest and the templating
/// feature may be offered. A manifest that is there is kept, and the
/// command is refused.
pub open spec fn create_turn(project: ProjectView, stage: Stage, ran: bool) -> Turn {
    match stage {
        Stage::Start => asking(project, Action::CreateProject),
        Stage::Created => if !ran {
            stopped(project, Err(ScaffoldError::ExternalToolFailed))
        } else if project.manifest is Some {
            stopped(project, Err(ScaffoldError::AlreadyExists))
        } else {
            asking(
                ProjectView { manifest: Some(fresh_manifest(LANGUAGE@, FRAMEWORK@)), ..project },
                Action::OfferAskama,
            )
        },
        _ => stopped(project, Ok(())),
    }
}

/// A step that writes nothing.
fn plain_step(action: Action, outcome: Result<(), ScaffoldError>) -> (step: Step)
    ensures
        step.files() == Seq::<FileView>::empty(),
        step.action == action,
        step.outcome == outcome,
{
    let step = Step { written: Vec::new(), action, outcome };
    assert(step.files() =~= Seq::<FileView>::empty());
    step
}

/// The manifest of the project as a borrowed text.
fn manifest_of(project: &Project) -> (manifest: Option<&str>)
    ensures
        view_of(manifest) == project@.manifest,
{
    match &project.manifest {
        Some(text) => Some(text.as_str()),
        None => None,
    }
}

/// One stage of installing the templating feature.
pub fn add_askama(project: &mut Project, stage: Stage, ran: bool) -> (step: Step)
    ensures
        took(askama_turn(old(project)@, stage, ran), *final(project), step),
{
    match stage {
        Stage::Start => {
            match check_feature(manifest_of(project), ASKAMA) {
                Err(refusal) => {
                    return plain_step(Action::Stop, Err(refusal));
                },
                Ok(_) => {},
            }
            match check_marking(manifest_of(project), ASKAMA) {
                Err(refusal) => plain_step(Action::Stop, Err(refusal)),
                Ok(_) => plain_step(Action::Install, Ok(())),
            }
        },
        Stage::Installed => {
            if !ran {
                return plain_step(Action::Stop, Err(ScaffoldError::ExternalToolFailed));
            }
            match add_feature(&mut project.manifest, ASKAMA) {
                Err(refusal) => {
                    return plain_step(Action::Stop, Err(refusal));
                },
                Ok(_) => {},
            }
            if project.base_html.is_none() {
                project.base_html = Some(create_html_base_file().content);
            }
            plain_step(Action::OfferPage, Ok(()))
        },
        _ => plain_step(Action::Stop, Ok(())),
    }
}

/// May the unit `name` be made known to the project, under the path of
/// `path` where one is given and under its own otherwise?
pub fn check_link(project: &Project, name: &str, path: Option<&str>) -> (check: Result<
    (),
    ScaffoldError,
>)
    ensures
        check == link_check(
            project@,
            name@,
            route_path(
                match path {
                    Some(given) => given@,
                    None => name@,
                },
            ),
        ),
{
    match check_unit(project.mod_rs.as_str(), name) {
        Err(refusal) => {
            return Err(refusal);
        },
        Ok(_) => {},
    }
    match check_import(project.main_rs.as_str(), name) {
        Err(refusal) => {
            return Err(refusal);
        },
        Ok(_) => {},
    }
    check_registration(project.main_rs.as_str(), name, path)
}

/// Makes the unit `name` known to the project and registers it under
/// `path`, or under its own path where none is given.
pub fn link_unit(project: &mut Project, name: &str, path: Option<&str>, aggregator: bool) -> (outcome:
    Result<(), ScaffoldError>)
    ensures
        (final(project)@, outcome) == linked(
            old(project)@,
            name@,
            route_path(
                match path {
                    Some(given) => given@,
                    None => name@,
                },
            ),
            aggregator,
        ),
{
    match check_link(project, name, path) {
        Err(refusal) => {
            return Err(refusal);
        },
        Ok(_) => {},
    }
    project.mod_rs = declare(project.mod_rs.as_str(), UNIT_PREFIX, name);
    match call_module_fn_in_main_rs(&mut project.main_rs, name, path) {
        Err(refusal) => {
            return Err(refusal);
        },
        Ok(_) => {},
    }
    project.main_rs = declare(project.main_rs.as_str(), IMPORT_PREFIX, name);
    if aggregator {
        add_kraken_to_main_rs(&mut project.main_rs);
    }
    proof {
        let way = route_path(
            match path {
                Some(given) => given@,
                None => name@,
            },
        );
        let wanted = linked(old(project)@, name@, way, aggregator);
        assert(project@.main_rs == wanted.0.main_rs);
        assert(project@ == wanted.0);
    }
    Ok(())
}

/// One stage of creating the page `page_name` with the title `page_title`.
pub fn add_page(project: &mut Project, page_name: &str, page_title: &str, stage: Stage, ran: bool) -> (step:
    Step)
    ensures
        took(
            page_turn(old(project)@, page_name@, page_title@, stage, ran),
            *final(project),
            step,
        ),
{
    match stage {
        Stage::Start => {
            match check_link(project, page_name, None) {
                Err(refusal) => {
                    return plain_step(Action::Stop, Err(refusal));
                },
                Ok(_) => {},
            }
            let mut written: Vec<GeneratedFile> = Vec::new();
            written.push(generate_page_template(page_name, PAGE_BODY));
            written.push(generate_page_mod_rs(page_name, page_title));
            let step = Step { written, action: Action::Format, outcome: Ok(()) };
            assert(step.files() =~= page_files(page_name@, page_title@));
            step
        },
        Stage::Formatted => {
            if !ran {
                return plain_step(Action::Stop, Err(ScaffoldError::FormatFailed));
            }
            let outcome = link_unit(project, page_name, None, true);
            plain_step(Action::Stop, outcome)
        },
        _ => plain_step(Action::Stop, Ok(())),
    }
}

/// The stage of the stylesheet command that has the configuration.
fn configure_styles(project: &mut Project) -> (step: Step)
    ensures
        took(styles_configured(old(project)@), *final(project), step),
{
    match &project.tailwind_config {
        None => plain_step(Action::Stop, Err(ScaffoldError::ExternalToolFailed)),
        Some(config) => {
            let edited = edit_tailwind_config(config.as_str());
            project.tailwind_config = Some(edited);
            let mut written: Vec<GeneratedFile> = Vec::new();
            if !project.styles_script {
                written.push(create_tailwind_base_styles());
            }
            let step = Step { written, action: Action::BuildStyles, outcome: Ok(()) };
            assert(step.files() =~= styles_configured(old(project)@).written);
            step
        },
    }
}

/// May `feature`, marked by `identity` in the layout, be brought into the
/// project?
pub fn check_ready(project: &Project, identity: &str, feature: &str, more: bool) -> (check: Result<
    (),
    ScaffoldError,
>)
    ensures
        check == feature_ready(project@, identity@, feature@, more),
{
    match check_feature(manifest_of(project), feature) {
        Err(refusal) => {
            return Err(refusal);
        },
        Ok(_) => {},
    }
    match &project.base_html {
        None => {
            if more {
                check_marking(manifest_of(project), feature)
            } else {
                Ok(())
            }
        },
        Some(layout) => match check_injection(layout.as_str(), identity) {
            Err(refusal) => Err(refusal),
            Ok(_) => check_marking(manifest_of(project), feature),
        },
    }
}

/// Injects `tag` into the base layout of the project and marks `feature`
/// in its manifest.
fn bring_feature(
    project: &mut Project,
    tag: &str,
    identity: &str,
    feature: &str,
    more: bool,
) -> (step: Step)
    ensures
        took(brought(old(project)@, tag@, identity@, feature@, more), *final(project), step),
{
    match check_ready(project, identity, feature, more) {
        Err(refusal) => {
            return plain_step(Action::Stop, Err(refusal));
        },
        Ok(_) => {},
    }
    if project.base_html.is_none() {
        if more {
            let _ = add_feature(&mut project.manifest, feature);
        }
        return plain_step(Action::SayNoLayout, Ok(()));
    }
    let _ = add_feature(&mut project.manifest, feature);
    match &mut project.base_html {
        None => {},
        Some(layout) => {
            let _ = add_tag_to_head(layout, tag, identity);
        },
    }
    plain_step(Action::Stop, Ok(()))
}

/// One stage of adding the stylesheet framework.
pub fn add_tailwindcss(project: &mut Project, stage: Stage, ran: bool) -> (step: Step)
    ensures
        took(tailwind_turn(old(project)@, stage, ran), *final(project), step),
{
    match stage {
        Stage::Start => {
            match check_ready(project, STYLESHEET_MARK, TAILWINDCSS, true) {
                Err(refusal) => {
                    return plain_step(Action::Stop, Err(refusal));
                },
                Ok(_) => {},
            }
            match check_link(project, TAILWINDCSS, Some(STYLESHEET_ROUTE)) {
                Err(refusal) => {
                    return plain_step(Action::Stop, Err(refusal));
                },
                Ok(_) => {},
            }
            let mut written: Vec<GeneratedFile> = Vec::new();
            written.push(generate_tailwindcss_mod_rs());
            let step = Step { written, action: Action::Format, outcome: Ok(()) };
            assert(step.files() =~= tailwind_turn(old(project)@, stage, ran).written);
            step
        },
        Stage::Formatted => {
            if !ran {
                return plain_step(Action::Stop, Err(ScaffoldError::FormatFailed));
            }
            match link_unit(project, TAILWINDCSS, Some(STYLESHEET_ROUTE), false) {
                Err(refusal) => plain_step(Action::Stop, Err(refusal)),
                Ok(_) => {
                    if project.tailwind_config.is_none() {
                        plain_step(Action::InitStyles, Ok(()))
                    } else {
                        configure_styles(project)
                    }
                },
            }
        },
        Stage::StylesInitialised => {
            if !ran {
                return plain_step(Action::Stop, Err(ScaffoldError::ExternalToolFailed));
            }
            configure_styles(project)
        },
        Stage::StylesBuilt => {
            if !ran {
                return plain_step(Action::Stop, Err(ScaffoldError::ExternalToolFailed));
            }
            bring_feature(project, STYLESHEET_TAG, STYLESHEET_MARK, TAILWINDCSS, true)
        },
        _ => plain_step(Action::Stop, Ok(())),
    }
}

/// Adds the interactivity library to the layout.
pub fn add_htmx(project: &mut Project) -> (step: Step)
    ensures
        took(htmx_turn(old(project)@), *final(project), step),
{
    bring_feature(project, HTMX_TAG, HTMX_MARK, HTMX, false)
}

/// Gives the project a fresh manifest, unless it has one.
pub fn initialize(project: &mut Project) -> (step: Step)
    ensures
        took(init_turn(old(project)@), *final(project), step),
{
    if project.manifest.is_some() {
        return plain_step(Action::Stop, Err(ScaffoldError::AlreadyExists));
    }
    project.manifest = Some(add_kraken_toml(LANGUAGE, FRAMEWORK));
    plain_step(Action::Stop, Ok(()))
}

/// One stage of creating a project.
pub fn create(project: &mut Project, stage: Stage, ran: bool) -> (step: Step)
    ensures
        took(create_turn(old(project)@, stage, ran), *final(project), step),
{
    match stage {
        Stage::Start => plain_step(Action::CreateProject, Ok(())),
        Stage::Created => {
            if !ran {
                return plain_step(Action::Stop, Err(ScaffoldError::ExternalToolFailed));
            }
            if project.manifest.is_some() {
                return plain_step(Action::Stop, Err(ScaffoldError::AlreadyExists));
            }
            project.manifest = Some(add_kraken_toml(LANGUAGE, FRAMEWORK));
            plain_step(Action::OfferAskama, Ok(()))
        },
        _ => plain_step(Action::Stop, Ok(())),
    }
}

/// What can be added to a project.
#[derive(Clone, Copy, Debug, PartialEq, Eq, Structural)]
pub enum Add {
    /// Add askama templating engine for html
    Askama,
    /// Add everyone's favorite - tailwindcss
    Tailwindcss,
    /// The real solution : HTMX
    Htmx,
    /// Create a new askama page
    Page,
}

/// The commands of the tool.
#[derive(Clone, Copy, Debug, PartialEq, Eq, Structural)]
pub enum Kraken {
    /// Create a kraken project
    Create,
    /// Initialize kraken to an existing shuttle project
    Init,
    /// Add super powers
    Add {
        add_commands: Add,
    },
}

/// A command that can be run stage by stage on a project.
pub trait Execute {
    /// What the stage named by `input` does to `project` and asks for.
    spec fn turn(&self, project: ProjectView, input: InputView) -> Turn;

    /// Runs the stage named by `input` on `project`.
    fn execute(&self, project: &mut Project, input: &Input) -> (step: Step)
        ensures
            took(self.turn(old(project)@, input@), *final(project), step),
    ;
}

impl Execute for Add {
    /// Nothing is added to a project without a manifest.
    open spec fn turn(&self, project: ProjectView, input: InputView) -> Turn {
        if project.manifest is None {
            stopped(project, Err(ScaffoldError::NotInitialized))
        } else {
            match *self {
                Add::Askama => askama_turn(project, input.stage, input.ran),
                Add::Tailwindcss => tailwind_turn(project, input.stage, input.ran),
                Add::Htmx => htmx_turn(project),
                Add::Page => page_turn(
                    project,
                    input.page_name,
                    input.page_title,
                    input.stage,
                    input.ran,
                ),
            }
        }
    }

    fn execute(&self, project: &mut Project, input: &Input) -> (step: Step) {
        if project.manifest.is_none() {
            return plain_step(Action::Stop, Err(ScaffoldError::NotInitialized));
        }
        match self {
            Add::Askama => add_askama(project, input.stage, input.ran),
            Add::Tailwindcss => add_tailwindcss(project, input.stage, input.ran),
            Add::Htmx => add_htmx(project),
            Add::Page => add_page(
                project,
                input.page_name.as_str(),
                input.page_title.as_str(),
                input.stage,
                input.ran,
            ),
        }
    }
}

impl Execute for Kraken {
    open spec fn turn(&self, project: ProjectView, input: InputView) -> Turn {
        match *self {
            Kraken::Create => create_turn(project, input.stage, input.ran),
            Kraken::Init => init_turn(project),
            Kraken::Add { add_commands } => add_commands.turn(project, input),
        }
    }

    fn execute(&self, project: &mut Project, input: &Input) -> (step: Step) {
        match self {
            Kraken::Create => create(project, input.stage, input.ran),
            Kraken::Init => initialize(project),
            Kraken::Add { add_commands } => add_commands.execute(project, input),
        }
    }
}

/// The arguments with which the installer, `cargo`, brings in the
/// templating crates.
pub fn add_dependencies() -> (arguments: Vec<String>)
    ensures
        arguments@.len() == 5,
        arguments@[0]@ == "add"@,
        arguments@[1]@ == "askama"@,
        arguments@[2]@ == "-F"@,
        arguments@[3]@ == "askama/with-axum"@,
        arguments@[4]@ == "askama_axum"@,
{
    let mut arguments: Vec<String> = Vec::new();
    arguments.push(String::from_str("add"));
    arguments.push(String::from_str("askama"));
    arguments.push(String::from_str("-F"));
    arguments.push(String::from_str("askama/with-axum"));
    arguments.push(String::from_str("askama_axum"));
    arguments
}

/// Is `name` a name a project can have? The empty name is refused.
pub fn is_project_name(name: &str) -> (valid: bool)
    ensures
        valid == (name@.len() > 0),
{
    name.unicode_len() > 0
}

} // verus!
