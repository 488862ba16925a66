//! What creating a page leaves in the project.
use crate::commands::{page_files, page_turn};
use crate::modules::{
    declaration_line, declared, import_report, lemma_declared_exactly_once, unit_report,
    with_aggregator, AGGREGATOR, IMPORT_PREFIX, MODULE_PREFIX, UNIT_PREFIX,
};
use crate::project::{Action, ProjectView, Stage};
use crate::routes::{
    bound_at, bound_only_at, entry_head, handler_of, is_bound, is_handler_char, is_handler_ref,
    lemma_entry_is_bound, lemma_first_registration, lemma_fronted_entry, lemma_handler_of_ref,
    lemma_head_shape, lemma_route_path_is_plain, registered, route_entry, route_path, swept,
    ROOT_BUILDER,
};
use crate::stubs::{lemma_template_extends_layout, template_path, EXTENDS_LAYOUT};
use crate::text::{occurs_at, occurs_in, occurs_once, only_at};
use vstd::prelude::*;

verus! {

/// The declaration of a unit whose name is made of handler characters holds
/// neither a line break nor a full stop, whatever its form.
#[verifier::rlimit(40)]
pub proof fn lemma_declaration_is_plain(prefix: Seq<char>, name: Seq<char>)
    requires
        prefix == MODULE_PREFIX@ || prefix == UNIT_PREFIX@ || prefix == IMPORT_PREFIX@,
        is_handler_ref(name),
    ensures
        !declaration_line(prefix, name).contains('\n'),
        forall|k: int|
            0 <= k < declaration_line(prefix, name).len() ==> declaration_line(prefix, name)[k]
                != '.',
{
    reveal_strlit("mod ");
    reveal_strlit("pub mod ");
    reveal_strlit("use kraken::");
    reveal_strlit(";");
    let line = declaration_line(prefix, name);
    assert forall|k: int| 0 <= k < line.len() implies line[k] != '\n' && line[k] != '.' by {
        if k < prefix.len() {
            assert(line[k] == prefix[k]);
        } else if k < prefix.len() + name.len() {
            assert(line[k] == name[k - prefix.len()]);
            assert(is_handler_char(name[k - prefix.len()]));
        } else {
            assert(line[k] == ';');
        }
    }
}

/// Creating a page whose unit is neither declared nor imported yet, with a
/// name that can name a unit and is made of handler characters, where the
/// dispatcher has a root builder and no entry for the path of the page: at
/// the start the template, which extends the base layout, and the unit are
/// written; behind the formatter the
/// manifest and the layout are as they were, the aggregator holds the
/// declaration of the unit exactly once, and the dispatcher holds the entry
/// of the unit exactly once, which is the only one bound to its path.
#[verifier::rlimit(40)]
pub proof fn lemma_page_is_made_known(project: ProjectView, name: Seq<char>, title: Seq<char>) -> (at:
    int)
    requires
        unit_report(project.mod_rs, name) is Ok,
        import_report(project.main_rs, name) is Ok,
        is_handler_ref(name),
        !occurs_in(swept(project.main_rs), entry_head(route_path(name))),
        occurs_in(swept(project.main_rs), ROOT_BUILDER@),
    ensures
        ({
            let start = page_turn(project, name, title, Stage::Start, true);
            let end = page_turn(project, name, title, Stage::Formatted, true);
            let path = route_path(name);
            &&& start.project == project
            &&& start.action == Action::Format
            &&& start.written == page_files(name, title)
            &&& start.written[0].path == template_path(name)
            &&& occurs_in(start.written[0].content, EXTENDS_LAYOUT@)
            &&& end.action == Action::Stop
            &&& end.outcome is Ok
            &&& end.project.manifest == project.manifest
            &&& end.project.base_html == project.base_html
            &&& occurs_once(end.project.mod_rs, declaration_line(UNIT_PREFIX@, name))
            &&& bound_only_at(end.project.main_rs, entry_head(path), at)
            &&& occurs_at(end.project.main_rs, route_entry(path, name), at)
            &&& occurs_once(end.project.main_rs, route_entry(path, name))
        }),
{
    reveal_strlit("\n");
    let path = route_path(name);
    let head = entry_head(path);
    let entry = route_entry(path, name);
    lemma_template_extends_layout(crate::commands::PAGE_BODY@);
    lemma_route_path_is_plain(name);
    lemma_head_shape(path);
    lemma_declaration_is_plain(UNIT_PREFIX@, name);
    lemma_declaration_is_plain(IMPORT_PREFIX@, name);
    lemma_declared_exactly_once(project.mod_rs, UNIT_PREFIX@, name);
    let found = lemma_first_registration(project.main_rs, name, path);
    let routed = registered(project.main_rs, name, path)->Ok_0;
    let import = declaration_line(IMPORT_PREFIX@, name) + "\n"@;
    let imported = declared(routed, IMPORT_PREFIX@, name);
    assert(imported =~= import + routed);
    lemma_fronted_entry(import, routed, head, path.len() as int, entry, found);
    let entry_file = with_aggregator(imported);
    lemma_handler_of_ref(name);
    assert forall|j: int| occurs_at(entry_file, entry, j) implies bound_at(entry_file, head, j) by {
        lemma_entry_is_bound(entry_file, head, handler_of(name), j);
    }
    if entry_file == imported {
        assert(only_at(entry_file, entry, found + import.len()));
        found + import.len()
    } else {
        assert(is_handler_ref(AGGREGATOR@)) by {
            reveal_strlit("kraken");
        }
        lemma_declaration_is_plain(MODULE_PREFIX@, AGGREGATOR@);
        let module = declaration_line(MODULE_PREFIX@, AGGREGATOR@) + "\n"@;
        assert(entry_file =~= module + imported);
        lemma_fronted_entry(
            module,
            imported,
            head,
            path.len() as int,
            entry,
            found + import.len(),
        );
        assert(only_at(entry_file, entry, found + import.len() + module.len()));
        found + import.len() + module.len()
    }
}

} // verus!
