//! Running a command a second time.
//!
//! A command that went through leaves its trace in the project: the feature
//! in the manifest, the declaration in the aggregator, the marker in the
//! layout. A second run meets that trace at its start, is refused as
//! already there, writes nothing, and leaves the manifest, the layout, the
//! aggregator and the entry file as the first run left them.
use crate::commands::{
    askama_turn, feature_ready, htmx_turn, link_check, linked, page_turn, tailwind_turn, ASKAMA,
    HTMX, HTMX_MARK, HTMX_TAG, STYLESHEET_MARK, STYLESHEET_TAG, TAILWINDCSS,
};
use crate::error::ScaffoldError;
use crate::markup::{injected, injection_report, lemma_injected_holds_marker};
use crate::modules::{lemma_declared_holds_line, UNIT_PREFIX};
use crate::project::{stopped, ProjectView, Stage};
use crate::registry::lemma_marked_is_listed;
use crate::routes::route_path;
use crate::text::{occurs_at, occurs_in};
use vstd::prelude::*;

verus! {

/// The script of the interactivity library holds its marker.
pub proof fn lemma_htmx_tag_holds_mark()
    ensures
        occurs_in(HTMX_TAG@, HTMX_MARK@),
{
    reveal_strlit(
        "\n        <!-- cdn deez nuts for htmx -->\n        <script src=\"https://unpkg.com/htmx.org@1.9.10\"></script>\n    ",
    );
    reveal_strlit("https://unpkg.com/htmx.org@");
    assert(HTMX_TAG@.subrange(62, 89) =~= HTMX_MARK@);
    assert(occurs_at(HTMX_TAG@, HTMX_MARK@, 62));
}

/// The link of the stylesheet holds its marker.
pub proof fn lemma_stylesheet_tag_holds_mark()
    ensures
        occurs_in(STYLESHEET_TAG@, STYLESHEET_MARK@),
{
    reveal_strlit(
        "\n<!-- tailwind deez css -->\n<link rel=\"stylesheet\" href=\"/styles/tailwind.css\" />\n",
    );
    reveal_strlit("/styles/tailwind.css");
    assert(STYLESHEET_TAG@.subrange(57, 77) =~= STYLESHEET_MARK@);
    assert(occurs_at(STYLESHEET_TAG@, STYLESHEET_MARK@, 57));
}

/// What the commands inject brings its marker into the layout.
pub proof fn lemma_injected_is_marked(layout: Seq<char>)
    ensures
        injection_report(layout, HTMX_MARK@) is Ok ==> occurs_in(
            injected(layout, HTMX_TAG@, HTMX_MARK@),
            HTMX_MARK@,
        ),
        injection_report(layout, STYLESHEET_MARK@) is Ok ==> occurs_in(
            injected(layout, STYLESHEET_TAG@, STYLESHEET_MARK@),
            STYLESHEET_MARK@,
        ),
{
    lemma_htmx_tag_holds_mark();
    lemma_stylesheet_tag_holds_mark();
    if injection_report(layout, HTMX_MARK@) is Ok {
        lemma_injected_holds_marker(layout, HTMX_TAG@, HTMX_MARK@);
    }
    if injection_report(layout, STYLESHEET_MARK@) is Ok {
        lemma_injected_holds_marker(layout, STYLESHEET_TAG@, STYLESHEET_MARK@);
    }
}

/// Idempotence of the templating command: once it has marked the feature in
/// the manifest, a second run is refused at its start as already there,
/// writes nothing, and leaves the manifest, the layout, the aggregator and
/// the entry file as the first run left them.
pub proof fn lemma_askama_twice(project: ProjectView, ran: bool)
    requires
        project.manifest is Some,
        askama_turn(project, Stage::Installed, true).outcome is Ok,
    ensures
        askama_turn(
            askama_turn(project, Stage::Installed, true).project,
            Stage::Start,
            ran,
        ) == stopped(
            askama_turn(project, Stage::Installed, true).project,
            Err(ScaffoldError::AlreadyExists),
        ),
{
    lemma_marked_is_listed(project.manifest, ASKAMA@);
}

/// A unit that was made known is not made known a second time: the check
/// that stands at the start of a command refuses it as already there,
/// under whatever path, and so does the linking itself, which changes
/// nothing.
pub proof fn lemma_linked_once(
    project: ProjectView,
    name: Seq<char>,
    path: Seq<char>,
    aggregator: bool,
    again: Seq<char>,
    again_aggregator: bool,
)
    requires
        linked(project, name, path, aggregator).1 is Ok,
    ensures
        link_check(linked(project, name, path, aggregator).0, name, again) == Err::<
            (),
            ScaffoldError,
        >(ScaffoldError::AlreadyExists),
        linked(linked(project, name, path, aggregator).0, name, again, again_aggregator) == (
            linked(project, name, path, aggregator).0,
            Err::<(), ScaffoldError>(ScaffoldError::AlreadyExists),
        ),
{
    lemma_declared_holds_line(project.mod_rs, UNIT_PREFIX@, name);
}

/// Idempotence of the page command: where a first run made the unit known,
/// a second run for the same name, with whatever title, is refused at its
/// start as already there, writes nothing, and leaves the manifest, the
/// layout, the aggregator and the entry file as the first run left them.
pub proof fn lemma_page_twice(
    project: ProjectView,
    name: Seq<char>,
    title: Seq<char>,
    again: Seq<char>,
    ran: bool,
)
    requires
        page_turn(project, name, title, Stage::Formatted, true).outcome is Ok,
    ensures
        page_turn(
            page_turn(project, name, title, Stage::Formatted, true).project,
            name,
            again,
            Stage::Start,
            ran,
        ) == stopped(
            page_turn(project, name, title, Stage::Formatted, true).project,
            Err(ScaffoldError::AlreadyExists),
        ),
{
    lemma_linked_once(project, name, route_path(name), true, route_path(name), true);
}

/// Idempotence of the stylesheet command: once it has marked the feature in
/// the manifest, a second run is refused at its start as already there,
/// writes nothing, and leaves the project as the first run left it.
pub proof fn lemma_tailwind_twice(project: ProjectView, ran: bool)
    requires
        project.manifest is Some,
        tailwind_turn(project, Stage::StylesBuilt, true).outcome is Ok,
    ensures
        tailwind_turn(
            tailwind_turn(project, Stage::StylesBuilt, true).project,
            Stage::Start,
            ran,
        ) == stopped(
            tailwind_turn(project, Stage::StylesBuilt, true).project,
            Err(ScaffoldError::AlreadyExists),
        ),
{
    lemma_marked_is_listed(project.manifest, TAILWINDCSS@);
}

/// A run of the stylesheet command that made its unit known and went no
/// further is not repeated either: where the registry and the layout let
/// the next run pass, the unit in the aggregator refuses it at its start.
pub proof fn lemma_tailwind_unit_once(project: ProjectView, after: ProjectView, ran: bool)
    requires
        tailwind_turn(project, Stage::Formatted, true).outcome is Ok,
        after.mod_rs == tailwind_turn(project, Stage::Formatted, true).project.mod_rs,
        feature_ready(after, STYLESHEET_MARK@, TAILWINDCSS@, true) is Ok,
    ensures
        tailwind_turn(after, Stage::Start, ran) == stopped(
            after,
            Err(ScaffoldError::AlreadyExists),
        ),
{
    lemma_declared_holds_line(project.mod_rs, UNIT_PREFIX@, TAILWINDCSS@);
}

/// Idempotence of the interactivity command: once it has brought its script
/// into a layout and marked the feature in the manifest, a second run is
/// refused as already there and leaves the project as the first run left
/// it.
pub proof fn lemma_htmx_twice(project: ProjectView)
    requires
        project.manifest is Some,
        project.base_html is Some,
        htmx_turn(project).outcome is Ok,
    ensures
        htmx_turn(htmx_turn(project).project) == stopped(
            htmx_turn(project).project,
            Err(ScaffoldError::AlreadyExists),
        ),
{
    lemma_marked_is_listed(project.manifest, HTMX@);
}

/// A refusal writes nothing: a stage of a command that ends in a refusal
/// leaves the project as it was and hands out no file.
pub proof fn lemma_refusal_keeps_project(
    project: ProjectView,
    name: Seq<char>,
    title: Seq<char>,
    stage: Stage,
    ran: bool,
)
    ensures
        askama_turn(project, stage, ran).outcome is Err ==> askama_turn(project, stage, ran)
            == stopped(project, askama_turn(project, stage, ran).outcome),
        page_turn(project, name, title, stage, ran).outcome is Err ==> page_turn(
            project,
            name,
            title,
            stage,
            ran,
        ) == stopped(project, page_turn(project, name, title, stage, ran).outcome),
        tailwind_turn(project, stage, ran).outcome is Err ==> tailwind_turn(project, stage, ran)
            == stopped(project, tailwind_turn(project, stage, ran).outcome),
        htmx_turn(project).outcome is Err ==> htmx_turn(project) == stopped(
            project,
            htmx_turn(project).outcome,
        ),
{
}

} // verus!
