//! The files of a project held in memory, and what one stage of a command
//! hands to its caller.
//!
//! A command reads and edits the manifest, the base layout, the aggregator
//! and the entry file. Between two of its stages it may need something done
//! that only its caller can do: a run of the installer, of the formatter or
//! of the stylesheet compiler. So a command is a function from a stage and
//! the outcome of what was last asked for to the edits of that stage and
//! the next thing to ask for. The caller writes the files out, does what is
//! asked, and calls again with the stage that `next_stage` names for it.
use crate::error::ScaffoldError;
use crate::stubs::{FileView, GeneratedFile};
use crate::text::text_of;
use vstd::prelude::*;

verus! {

/// The files of a project that the commands read and edit.
#[derive(Clone, Debug, PartialEq, Eq)]
pub struct Project {
    /// The manifest, `src/kraken/Kraken.toml`, where there is one.
    pub manifest: Option<String>,
    /// The base layout, `templates/base.html`, where there is one.
    pub base_html: Option<String>,
    /// The aggregator, `src/kraken/mod.rs`; empty where there is none.
    pub mod_rs: String,
    /// The entry file with the dispatcher, `src/main.rs`; empty where there
    /// is none.
    pub main_rs: String,
    /// The configuration of the stylesheet compiler, `tailwind.config.js`,
    /// where there is one.
    pub tailwind_config: Option<String>,
    /// Whether `styles/styles.js` is there, which keeps the base styles
    /// from being written.
    pub styles_script: bool,
}

/// The files of a project as texts, field by field as in `Project`.
pub struct ProjectView {
    /// The manifest.
    pub manifest: Option<Seq<char>>,
    /// The base layout.
    pub base_html: Option<Seq<char>>,
    /// The aggregator.
    pub mod_rs: Seq<char>,
    /// The entry file.
    pub main_rs: Seq<char>,
    /// The configuration of the stylesheet compiler.
    pub tailwind_config: Option<Seq<char>>,
    /// Whether the styles script is there.
    pub styles_script: bool,
}

impl View for Project {
    type V = ProjectView;

    open spec fn view(&self) -> ProjectView {
        ProjectView {
            manifest: text_of(self.manifest),
            base_html: text_of(self.base_html),
            mod_rs: self.mod_rs@,
            main_rs: self.main_rs@,
            tailwind_config: text_of(self.tailwind_config),
            styles_script: self.styles_script,
        }
    }
}

/// Where a command stands: at its start, or behind what it asked for.
#[derive(Clone, Copy, Debug, PartialEq, Eq, Structural)]
pub enum Stage {
    /// Nothing was done yet.
    Start,
    /// The project was created.
    Created,
    /// The installer was run.
    Installed,
    /// The formatter was run on the unit that was written.
    Formatted,
    /// The stylesheet compiler was asked for its configuration.
    StylesInitialised,
    /// The stylesheet compiler was run on the base styles.
    StylesBuilt,
}

/// What a command asks of its caller next.
#[derive(Clone, Copy, Debug, PartialEq, Eq, Structural)]
pub enum Action {
    /// Create the project and enter it; go on at `Stage::Created`.
    CreateProject,
    /// Run the installer of the templating crates; go on at
    /// `Stage::Installed`.
    Install,
    /// Run the formatter on the unit that was written; go on at
    /// `Stage::Formatted`.
    Format,
    /// Let the stylesheet compiler write its configuration and read it into
    /// the project; go on at `Stage::StylesInitialised`.
    InitStyles,
    /// Run the stylesheet compiler on the base styles; go on at
    /// `Stage::StylesBuilt`.
    BuildStyles,
    /// The command is over; the templating feature may be offered.
    OfferAskama,
    /// The command is over; a page may be offered.
    OfferPage,
    /// The command is over; the user is to be told that the project has no
    /// layout, so that nothing was linked in it.
    SayNoLayout,
    /// The command is over.
    Stop,
}

/// The stage at which a command goes on once `action` was done; none where
/// the action ends the command.
pub open spec fn stage_after(action: Action) -> Option<Stage> {
    match action {
        Action::CreateProject => Some(Stage::Created),
        Action::Install => Some(Stage::Installed),
        Action::Format => Some(Stage::Formatted),
        Action::InitStyles => Some(Stage::StylesInitialised),
        Action::BuildStyles => Some(Stage::StylesBuilt),
        Action::OfferAskama => None,
        Action::OfferPage => None,
        Action::SayNoLayout => None,
        Action::Stop => None,
    }
}

/// The stage at which a command goes on once `action` was done.
pub fn next_stage(action: Action) -> (stage: Option<Stage>)
    ensures
        stage == stage_after(action),
{
    match action {
        Action::CreateProject => Some(Stage::Created),
        Action::Install => Some(Stage::Installed),
        Action::Format => Some(Stage::Formatted),
        Action::InitStyles => Some(Stage::StylesInitialised),
        Action::BuildStyles => Some(Stage::StylesBuilt),
        Action::OfferAskama => None,
        Action::OfferPage => None,
        Action::SayNoLayout => None,
        Action::Stop => None,
    }
}

/// What a caller hands to a command.
#[derive(Clone, Debug, PartialEq, Eq)]
pub struct Input {
    /// Where the command stands.
    pub stage: Stage,
    /// Whether what was last asked for ran and left with success. Not read
    /// at the start of a command.
    pub ran: bool,
    /// The name of the page, for the command that creates one.
    pub page_name: String,
    /// The title of the page, for the command that creates one.
    pub page_title: String,
}

/// What a caller hands to a command, as texts.
pub struct InputView {
    /// Where the command stands.
    pub stage: Stage,
    /// Whether what was last asked for ran and left with success.
    pub ran: bool,
    /// The name of the page.
    pub page_name: Seq<char>,
    /// The title of the page.
    pub page_title: Seq<char>,
}

impl View for Input {
    type V = InputView;

    open spec fn view(&self) -> InputView {
        InputView {
            stage: self.stage,
            ran: self.ran,
            page_name: self.page_name@,
            page_title: self.page_title@,
        }
    }
}

/// What one stage of a command leaves for its caller.
#[derive(Debug, PartialEq, Eq)]
pub struct Step {
    /// The files to write, beside those of the project, before anything
    /// else is done.
    pub written: Vec<GeneratedFile>,
    /// What to do next.
    pub action: Action,
    /// How the command went so far. A refusal comes with `Action::Stop`.
    pub outcome: Result<(), ScaffoldError>,
}

/// One stage of a command as a value: the project it leaves and what it
/// hands to the caller.
pub struct Turn {
    /// The project as the stage leaves it.
    pub project: ProjectView,
    /// The files to write beside those of the project.
    pub written: Seq<FileView>,
    /// What to do next.
    pub action: Action,
    /// How the command went so far.
    pub outcome: Result<(), ScaffoldError>,
}

impl Step {
    /// The files to write, as texts.
    pub open spec fn files(self) -> Seq<FileView> {
        Seq::new(self.written@.len(), |i: int| self.written@[i]@)
    }
}

/// `step` and the project `after` are what `turn` says.
pub open spec fn took(turn: Turn, after: Project, step: Step) -> bool {
    &&& after@ == turn.project
    &&& step.files() == turn.written
    &&& step.action == turn.action
    &&& step.outcome == turn.outcome
}

/// A stage that ends the command with `outcome` and writes nothing.
pub open spec fn stopped(project: ProjectView, outcome: Result<(), ScaffoldError>) -> Turn {
    Turn { project, written: Seq::empty(), action: Action::Stop, outcome }
}

/// A stage that went well, writes nothing and asks for `action`.
pub open spec fn asking(project: ProjectView, action: Action) -> Turn {
    Turn { project, written: Seq::empty(), action, outcome: Ok(()) }
}

} // verus!
