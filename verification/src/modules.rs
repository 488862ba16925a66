//! The declarations that make generated units known to the project.
//!
//! The aggregator file lists the units, one `pub mod <name>;` each, newest
//! first. The entry file declares the aggregator itself and imports each
//! unit from it. A declaration is written once, as its canonical text on a
//! line of its own: where that text already stands in the file, nothing is
//! added. A name can name a unit only where its declaration goes through
//! the parser and the pretty-printer unchanged.
use crate::error::ScaffoldError;
use crate::text::{
    contains, find_from, lemma_prefixed_once, occurs_at, occurs_in, occurs_once, only_at,
    same_text, text_of, to_chars,
};
use vstd::prelude::*;
use vstd::string::*;

verus! {

/// What precedes the name in the declaration of the aggregator.
pub const MODULE_PREFIX: &'static str = "mod ";

/// What precedes the name in the declaration of a unit.
pub const UNIT_PREFIX: &'static str = "pub mod ";

/// What precedes the name in the import of a unit.
pub const IMPORT_PREFIX: &'static str = "use kraken::";

/// The name of the aggregator module.
pub const AGGREGATOR: &'static str = "kraken";

/// What opens a grouped import from the aggregator.
pub const GROUP_OPEN: &'static str = "kraken::{";

/// The canonical text of a declaration: the prefix, the name, a semicolon.
pub open spec fn declaration_line(prefix: Seq<char>, name: Seq<char>) -> Seq<char> {
    prefix + name + ";"@
}

/// A parsed source file as `syn` holds it.
#[verifier::external_type_specification]
#[verifier::external_body]
pub struct ExFile(syn::File);

/// The error with which `syn` refuses a text.
#[verifier::external_type_specification]
#[verifier::external_body]
pub struct ExSyntaxError(syn::Error);

/// `name` parses as one identifier that is no reserved word.
pub uninterp spec fn ident_parses(name: Seq<char>) -> bool;

/// The syntax tree that `source` parses to, or nothing where it is not a
/// source file.
pub uninterp spec fn parsed_source(source: Seq<char>) -> Option<syn::File>;

/// The text that the pretty-printer writes for a syntax tree.
pub uninterp spec fn printed(file: syn::File) -> Seq<char>;

/// `name` opens no bracket: no round, square or curly one stands in it. The
/// parser descends once for each bracket that a text opens inside another,
/// so that only a text without them is sure to be read in bounded depth.
pub open spec fn is_flat(name: Seq<char>) -> bool {
    &&& !name.contains('(')
    &&& !name.contains('[')
    &&& !name.contains('{')
}

/// `source` is the declaration of one unit whose name opens no bracket and
/// parses as an identifier.
pub open spec fn is_declaration(source: Seq<char>) -> bool {
    exists|name: Seq<char>|
        is_flat(name) && #[trigger] ident_parses(name) && source == declaration_line(
            UNIT_PREFIX@,
            name,
        )
}

/// What the pretty-printer makes of `source`: the text it prints for the
/// syntax tree of `source`, or nothing where `source` does not parse.
pub open spec fn pretty_source(source: Seq<char>) -> Option<Seq<char>> {
    match parsed_source(source) {
        Some(file) => Some(printed(file)),
        None => None,
    }
}

/// `file` is the syntax tree of the declaration of one unit whose name
/// parses as an identifier.
pub open spec fn holds_declaration(file: syn::File) -> bool {
    exists|source: Seq<char>|
        is_declaration(source) && #[trigger] parsed_source(source) == Some(file)
}

/// The pretty-printer gives the declaration `line` back as it stands, on a
/// line of its own.
pub open spec fn is_canonical(line: Seq<char>, pretty: Option<Seq<char>>) -> bool {
    pretty == Some(line + "\n"@)
}

/// `name` can name a unit: it is no raw identifier, it opens no bracket,
/// it parses as an identifier that is no reserved word, and the declaration
/// of a unit of that name goes through the parser and the pretty-printer
/// unchanged.
pub open spec fn is_unit_name(name: Seq<char>) -> bool {
    &&& !name.contains('#')
    &&& is_flat(name)
    &&& ident_parses(name)
    &&& is_canonical(
        declaration_line(UNIT_PREFIX@, name),
        pretty_source(declaration_line(UNIT_PREFIX@, name)),
    )
}

/// `content` with the declaration of `name` put in front, on a line of its
/// own.
pub open spec fn declared(content: Seq<char>, prefix: Seq<char>, name: Seq<char>) -> Seq<char> {
    declaration_line(prefix, name) + "\n"@ + content
}

/// What declaring the unit `name` in the aggregator `content` reports: a
/// name that cannot name a unit is refused, and so is a unit that is
/// declared there.
pub open spec fn unit_report(content: Seq<char>, name: Seq<char>) -> Result<(), ScaffoldError> {
    if !is_unit_name(name) {
        Err(ScaffoldError::InvalidName)
    } else if occurs_in(content, declaration_line(UNIT_PREFIX@, name)) {
        Err(ScaffoldError::AlreadyExists)
    } else {
        Ok(())
    }
}

/// The aggregator after the unit `name` was declared in it: unchanged where
/// the declaration was refused.
pub open spec fn with_unit(content: Seq<char>, name: Seq<char>) -> Seq<char> {
    if unit_report(content, name) is Ok {
        declared(content, UNIT_PREFIX@, name)
    } else {
        content
    }
}

/// What importing the unit `name` into the entry file `content` reports: a
/// name that cannot name a unit is refused, and so is a unit that is
/// imported there.
pub open spec fn import_report(content: Seq<char>, name: Seq<char>) -> Result<(), ScaffoldError> {
    if !is_unit_name(name) {
        Err(ScaffoldError::InvalidName)
    } else if is_imported(content, name) {
        Err(ScaffoldError::AlreadyExists)
    } else {
        Ok(())
    }
}

/// The entry file after the unit `name` was imported into it: unchanged
/// where the import was refused.
pub open spec fn with_import(content: Seq<char>, name: Seq<char>) -> Seq<char> {
    if import_report(content, name) is Ok {
        declared(content, IMPORT_PREFIX@, name)
    } else {
        content
    }
}

/// The entry file after the aggregator was declared in it: unchanged where
/// it was declared before.
pub open spec fn with_aggregator(content: Seq<char>) -> Seq<char> {
    if occurs_in(content, declaration_line(MODULE_PREFIX@, AGGREGATOR@)) {
        content
    } else {
        declared(content, MODULE_PREFIX@, AGGREGATOR@)
    }
}

/// No line break stands in `text` from `from` up to `to`.
pub open spec fn on_one_line(text: Seq<char>, from: int, to: int) -> bool {
    forall|k: int| from <= k < to ==> text[k] != '\n'
}

/// A grouped import from the aggregator opens at `open`, names `name` at
/// `at` and closes at `close`, all on one line.
pub open spec fn grouped_at(text: Seq<char>, name: Seq<char>, open: int, at: int, close: int) -> bool {
    &&& occurs_at(text, GROUP_OPEN@, open)
    &&& open + GROUP_OPEN@.len() <= at
    &&& occurs_at(text, name, at)
    &&& at + name.len() <= close < text.len()
    &&& text[close] == '}'
    &&& on_one_line(text, open + GROUP_OPEN@.len(), close)
}

/// Some grouped import from the aggregator names `name`.
pub open spec fn is_grouped(text: Seq<char>, name: Seq<char>) -> bool {
    exists|open: int, at: int, close: int| grouped_at(text, name, open, at, close)
}

/// The entry file imports the unit `name`, alone or in a group.
pub open spec fn is_imported(text: Seq<char>, name: Seq<char>) -> bool {
    occurs_in(text, declaration_line(IMPORT_PREFIX@, name)) || is_grouped(text, name)
}

/// Parses `name` as a `syn::Ident` with `syn::parse_str`, which takes one
/// identifier that is no reserved word and nothing else. In a process that
/// is no procedural-macro host the text is lexed by `proc_macro2` itself,
/// and the outcome depends on the text alone. Before it looks at a token
/// the parser descends into every group of brackets, one call for each
/// level, so a text that nests them deep enough exhausts the stack: asked
/// only for a text that opens no bracket, in which the one group there can
/// be is that of a doc comment.
#[verifier::external_body]
fn parses_as_ident(name: &str) -> (yes: bool)
    requires
        is_flat(name@),
    ensures
        yes == ident_parses(name@),
{
    syn::parse_str::<syn::Ident>(name).is_ok()
}

/// Parses `source` with `syn::parse_file`. In a process that is no
/// procedural-macro host the text is lexed by `proc_macro2` itself, and the
/// outcome depends on the text alone. Asked only for `pub mod <name>;` with
/// a name that opens no bracket and parses as an identifier, which has no
/// nesting to descend into.
#[verifier::external_body]
fn parse_source(source: &str) -> (parsed: Result<syn::File, syn::Error>)
    requires
        is_declaration(source@),
    ensures
        match parsed {
            Ok(file) => parsed_source(source@) == Some(file),
            Err(_) => parsed_source(source@) is None,
        },
{
    syn::parse_file(source)
}

/// Prints `file` with `prettyplease::unparse`. The printer panics on syntax
/// it does not know. It is asked only for the tree of `pub mod <name>;` with
/// a name that parses as an identifier, which is one `mod` item without a
/// body.
#[verifier::external_body]
fn print_file(file: &syn::File) -> (text: String)
    requires
        holds_declaration(*file),
    ensures
        text@ == printed(*file),
{
    prettyplease::unparse(file)
}

/// The pretty-printed form of the declaration `source`, where it parses.
fn format_source(source: &str) -> (out: Option<String>)
    requires
        is_declaration(source@),
    ensures
        text_of(out) == pretty_source(source@),
{
    match parse_source(source) {
        Ok(file) => Some(print_file(&file)),
        Err(_) => None,
    }
}

/// Did the pretty-printer give the declaration `line` back as it stands,
/// on a line of its own?
pub fn holds_canonical(line: &str, pretty: &Option<String>) -> (yes: bool)
    ensures
        yes == is_canonical(line@, text_of(*pretty)),
{
    match pretty {
        Some(text) => {
            let wanted = String::from_str(line).concat("\n");
            same_text(text.as_str(), wanted.as_str())
        },
        None => false,
    }
}

/// Does the character `wanted` stand in `text`?
pub fn holds_char(text: &str, wanted: char) -> (yes: bool)
    ensures
        yes == text@.contains(wanted),
{
    let chars = to_chars(text);
    let mut k: usize = 0;
    while k < chars.len()
        invariant
            k <= chars.len(),
            chars@ == text@,
            forall|j: int| 0 <= j < k ==> text@[j] != wanted,
        decreases chars.len() - k,
    {
        if chars[k] == wanted {
            return true;
        }
        k = k + 1;
    }
    false
}

/// Can `name` name a unit?
pub fn is_valid_unit_name(name: &str) -> (ok: bool)
    ensures
        ok == is_unit_name(name@),
{
    if holds_char(name, '#') || holds_char(name, '(') || holds_char(name, '[') || holds_char(
        name,
        '{',
    ) {
        return false;
    }
    if !parses_as_ident(name) {
        return false;
    }
    let line = String::from_str(UNIT_PREFIX).concat(name).concat(";");
    assert(line@ == declaration_line(UNIT_PREFIX@, name@));
    let pretty = format_source(line.as_str());
    holds_canonical(line.as_str(), &pretty)
}

/// `content` with the declaration of `name` put in front, on a line of its
/// own.
pub fn declare(content: &str, prefix: &str, name: &str) -> (out: String)
    ensures
        out@ == declared(content@, prefix@, name@),
{
    String::from_str(prefix).concat(name).concat(";").concat("\n").concat(content)
}

/// Declares the aggregator in the entry file `main_rs`, unless it is
/// declared there. Reports whether the file changed.
pub fn add_kraken_to_main_rs(main_rs: &mut String) -> (changed: bool)
    ensures
        changed == !occurs_in(old(main_rs)@, declaration_line(MODULE_PREFIX@, AGGREGATOR@)),
        final(main_rs)@ == with_aggregator(old(main_rs)@),
{
    let line = String::from_str(MODULE_PREFIX).concat(AGGREGATOR).concat(";");
    if contains(main_rs.as_str(), line.as_str()) {
        return false;
    }
    *main_rs = declare(main_rs.as_str(), MODULE_PREFIX, AGGREGATOR);
    true
}

/// May the unit `module_name` be declared in the aggregator `mod_rs`?
pub fn check_unit(mod_rs: &str, module_name: &str) -> (report: Result<(), ScaffoldError>)
    ensures
        report == unit_report(mod_rs@, module_name@),
{
    if !is_valid_unit_name(module_name) {
        return Err(ScaffoldError::InvalidName);
    }
    let line = String::from_str(UNIT_PREFIX).concat(module_name).concat(";");
    if contains(mod_rs, line.as_str()) {
        return Err(ScaffoldError::AlreadyExists);
    }
    Ok(())
}

/// Declares the unit `module_name` in the aggregator `mod_rs`, in front of
/// what is there. Refuses a name that cannot name a unit, and a unit that
/// is already declared.
pub fn add_module_to_mod_rs(mod_rs: &mut String, module_name: &str) -> (done: Result<
    (),
    ScaffoldError,
>)
    ensures
        done == unit_report(old(mod_rs)@, module_name@),
        final(mod_rs)@ == with_unit(old(mod_rs)@, module_name@),
{
    match check_unit(mod_rs.as_str(), module_name) {
        Err(refusal) => Err(refusal),
        Ok(_) => {
            *mod_rs = declare(mod_rs.as_str(), UNIT_PREFIX, module_name);
            Ok(())
        },
    }
}

/// Where the line that holds position `from` ends: at the next line break,
/// or at the end of the text.
fn line_end(text: &Vec<char>, from: usize) -> (end: usize)
    requires
        from <= text.len(),
    ensures
        from <= end <= text.len(),
        on_one_line(text@, from as int, end as int),
        end < text.len() ==> text@[end as int] == '\n',
{
    let mut end: usize = from;
    while end < text.len() && text[end] != '\n'
        invariant
            from <= end <= text.len(),
            on_one_line(text@, from as int, end as int),
        decreases text.len() - end,
    {
        end = end + 1;
    }
    end
}

/// Does a closing brace stand in `text` from `from` up to `to`?
fn closes_within(text: &Vec<char>, from: usize, to: usize) -> (found: bool)
    requires
        from <= to <= text.len(),
    ensures
        found == exists|k: int| from <= k < to && text@[k] == '}',
{
    let mut k: usize = from;
    while k < to
        invariant
            from <= k <= to <= text.len(),
            forall|j: int| from <= j < k ==> text@[j] != '}',
        decreases to - k,
    {
        if text[k] == '}' {
            return true;
        }
        k = k + 1;
    }
    false
}

/// Does the group that opens at `open` name `name` before it closes on the
/// same line?
fn group_names(text: &Vec<char>, opener: &Vec<char>, name: &Vec<char>, open: usize) -> (found: bool)
    requires
        opener@ == GROUP_OPEN@,
        occurs_at(text@, opener@, open as int),
    ensures
        found == exists|at: int, close: int| grouped_at(text@, name@, open as int, at, close),
{
    assert(open + opener.len() <= text.len());
    let from: usize = open + opener.len();
    let end: usize = line_end(text, from);
    match find_from(text, name, from) {
        Some(at) => {
            if name.len() <= end - from && at <= end - name.len() {
                let found = closes_within(text, at + name.len(), end);
                proof {
                    if found {
                        let close = choose|k: int| at + name.len() <= k < end && text@[k] == '}';
                        assert(grouped_at(text@, name@, open as int, at as int, close));
                    } else {
                        assert forall|a: int, close: int|
                            grouped_at(text@, name@, open as int, a, close) implies false by {
                            assert(close < end);
                            assert(at <= a);
                        }
                    }
                }
                found
            } else {
                proof {
                    assert forall|a: int, close: int|
                        grouped_at(text@, name@, open as int, a, close) implies false by {
                        assert(close < end);
                        assert(at <= a);
                    }
                }
                false
            }
        },
        None => false,
    }
}

/// Does some grouped import from the aggregator name `name`?
pub fn names_in_group(text: &str, name: &str) -> (found: bool)
    ensures
        found == is_grouped(text@, name@),
{
    let chars = to_chars(text);
    let opener = to_chars(GROUP_OPEN);
    let wanted = to_chars(name);
    let mut start: usize = 0;
    loop
        invariant
            chars@ == text@,
            opener@ == GROUP_OPEN@,
            wanted@ == name@,
            forall|open: int, at: int, close: int|
                0 <= open < start ==> !grouped_at(text@, name@, open, at, close),
        decreases chars.len() + 1 - start,
    {
        match find_from(&chars, &opener, start) {
            None => {
                return false;
            },
            Some(open) => {
                if group_names(&chars, &opener, &wanted, open) {
                    return true;
                }
                if open >= chars.len() {
                    return false;
                }
                start = open + 1;
            },
        }
    }
}

/// May the unit `module_name` be imported into the entry file `main_rs`?
pub fn check_import(main_rs: &str, module_name: &str) -> (report: Result<(), ScaffoldError>)
    ensures
        report == import_report(main_rs@, module_name@),
{
    if !is_valid_unit_name(module_name) {
        return Err(ScaffoldError::InvalidName);
    }
    let line = String::from_str(IMPORT_PREFIX).concat(module_name).concat(";");
    if contains(main_rs, line.as_str()) || names_in_group(main_rs, module_name) {
        return Err(ScaffoldError::AlreadyExists);
    }
    Ok(())
}

/// Imports the unit `module_name` from the aggregator into the entry file
/// `main_rs`, in front of what is there. Refuses a name that cannot name a
/// unit, and a unit that is already imported, alone or in a group.
pub fn add_module_to_main_rs(main_rs: &mut String, module_name: &str) -> (done: Result<
    (),
    ScaffoldError,
>)
    ensures
        done == import_report(old(main_rs)@, module_name@),
        final(main_rs)@ == with_import(old(main_rs)@, module_name@),
{
    match check_import(main_rs.as_str(), module_name) {
        Err(refusal) => Err(refusal),
        Ok(_) => {
            *main_rs = declare(main_rs.as_str(), IMPORT_PREFIX, module_name);
            Ok(())
        },
    }
}

/// A file to which a declaration was added holds its canonical text.
pub proof fn lemma_declared_holds_line(content: Seq<char>, prefix: Seq<char>, name: Seq<char>)
    ensures
        occurs_in(declared(content, prefix, name), declaration_line(prefix, name)),
{
    let line = declaration_line(prefix, name);
    let out = declared(content, prefix, name);
    assert(out.subrange(0, line.len() as int) =~= line);
    assert(occurs_at(out, line, 0));
}

/// Declaration list invariant: a declaration without line breaks that is
/// added to a file that did not hold it stands there exactly once.
pub proof fn lemma_declared_exactly_once(content: Seq<char>, prefix: Seq<char>, name: Seq<char>)
    requires
        !declaration_line(prefix, name).contains('\n'),
        !occurs_in(content, declaration_line(prefix, name)),
    ensures
        occurs_once(declared(content, prefix, name), declaration_line(prefix, name)),
{
    reveal_strlit(";");
    reveal_strlit("\n");
    let line = declaration_line(prefix, name);
    let front = line + "\n"@;
    assert(front.subrange(0, line.len() as int) =~= line);
    assert(occurs_at(front, line, 0));
    assert forall|j: int| occurs_at(front, line, j) implies j == 0 by {
        if j != 0 {
            let window = front.subrange(j, j + line.len());
            assert(window[line.len() - j] == '\n');
            assert(line[line.len() - j] == '\n');
        }
    }
    assert(only_at(front, line, 0));
    lemma_prefixed_once(front, content, line);
}

/// Declaration uniqueness: once a unit was declared in the aggregator,
/// declaring it again is refused as already there and leaves the aggregator
/// as it is, so that no declaration is added.
pub proof fn lemma_unit_declared_once(content: Seq<char>, name: Seq<char>)
    ensures
        is_unit_name(name) ==> unit_report(with_unit(content, name), name) == Err::<
            (),
            ScaffoldError,
        >(ScaffoldError::AlreadyExists),
        unit_report(with_unit(content, name), name) is Err,
        with_unit(with_unit(content, name), name) == with_unit(content, name),
{
    lemma_declared_holds_line(content, UNIT_PREFIX@, name);
}

/// Once a unit was imported into the entry file, importing it again is
/// refused as already there and leaves the file as it is.
pub proof fn lemma_unit_imported_once(content: Seq<char>, name: Seq<char>)
    ensures
        is_unit_name(name) ==> import_report(with_import(content, name), name) == Err::<
            (),
            ScaffoldError,
        >(ScaffoldError::AlreadyExists),
        import_report(with_import(content, name), name) is Err,
        with_import(with_import(content, name), name) == with_import(content, name),
{
    lemma_declared_holds_line(content, IMPORT_PREFIX@, name);
}

/// Declaring the aggregator a second time changes nothing.
pub proof fn lemma_aggregator_declared_once(content: Seq<char>)
    ensures
        with_aggregator(with_aggregator(content)) == with_aggregator(content),
{
    lemma_declared_holds_line(content, MODULE_PREFIX@, AGGREGATOR@);
}

} // verus!
