//! The route table inside the dispatcher file.
//!
//! A page or feature is served under a path derived from its name. Its entry
//! in the dispatcher has the shape `.route("/<path>", get(<handler>))`. An
//! entry that is already bound to the path gets its handler exchanged in
//! place. A new entry is chained onto the root builder expression only
//! where no entry for the path stands in the dispatcher, so that no path
//! gets a second one.
use crate::error::ScaffoldError;
use crate::text::{
    contains, find, find_from, index_of, insert_at, inserted, lemma_first_at_is_index_of,
    occurs_at, occurs_in, replace_all, replace_range, replaced_all, replaced_range, same_text,
    to_chars,
};
use vstd::prelude::*;
use vstd::string::*;

verus! {

/// The name of the page that is served at the root.
pub const INDEX_PAGE: &'static str = "index";

/// The root builder expression onto which new entries are chained.
pub const ROOT_BUILDER: &'static str = "Router::new()";

/// The handler that a freshly generated dispatcher ships with.
pub const PLACEHOLDER_HANDLER: &'static str =
    "\nasync fn hello_world() -> &'static str {\n    \"Hello, world!\"\n}\n";

/// The path under which the unit `name` is served: the root for the index
/// page, the name itself for every other unit.
pub open spec fn route_path(name: Seq<char>) -> Seq<char> {
    if name == INDEX_PAGE@ {
        Seq::empty()
    } else {
        name
    }
}

/// The text of an entry up to the handler: `.route("/<path>", get(`.
pub open spec fn entry_head(path: Seq<char>) -> Seq<char> {
    ".route(\"/"@ + path + "\", get("@
}

/// The handler of the unit `module`: its `main` function.
pub open spec fn handler_of(module: Seq<char>) -> Seq<char> {
    module + "::main"@
}

/// An entry without the bracket that closes `.route(`.
pub open spec fn route_entry(path: Seq<char>, module: Seq<char>) -> Seq<char> {
    entry_head(path) + handler_of(module) + ")"@
}

/// What is chained onto the root builder for a new entry.
pub open spec fn chained_entry(path: Seq<char>, module: Seq<char>) -> Seq<char> {
    "\n"@ + route_entry(path, module) + ")"@
}

/// The characters a handler reference is made of: ASCII letters and digits,
/// the underscore, the colon of a path, and every character beyond ASCII,
/// so that every identifier is made of them.
pub open spec fn is_handler_char(c: char) -> bool {
    ||| 'a' <= c <= 'z'
    ||| 'A' <= c <= 'Z'
    ||| '0' <= c <= '9'
    ||| c == '_'
    ||| c == ':'
    ||| c > '\u{7f}'
}

/// Where the run of handler characters that begins at `from` ends.
pub open spec fn handler_end(text: Seq<char>, from: int) -> int
    decreases text.len() - from,
{
    if 0 <= from < text.len() && is_handler_char(text[from]) {
        handler_end(text, from + 1)
    } else {
        from
    }
}

/// An entry bound by `head` stands at `at`: the head, a handler reference of
/// at least one character, and the bracket that closes `get(`.
pub open spec fn bound_at(text: Seq<char>, head: Seq<char>, at: int) -> bool {
    let from = at + head.len();
    let end = handler_end(text, from);
    &&& occurs_at(text, head, at)
    &&& from < end < text.len()
    &&& text[end] == ')'
}

/// Some entry bound by `head` stands in `text`.
pub open spec fn is_bound(text: Seq<char>, head: Seq<char>) -> bool {
    exists|at: int| bound_at(text, head, at)
}

/// `at` is the leftmost entry bound by `head`.
pub open spec fn first_bound_at(text: Seq<char>, head: Seq<char>, at: int) -> bool {
    &&& bound_at(text, head, at)
    &&& forall|j: int| 0 <= j < at ==> !bound_at(text, head, j)
}

/// The span of the handler reference in the leftmost entry bound by `head`.
pub open spec fn bound_handler(text: Seq<char>, head: Seq<char>) -> Option<(int, int)> {
    if is_bound(text, head) {
        let at = choose|at: int| first_bound_at(text, head, at);
        Some((at + head.len(), handler_end(text, at + head.len())))
    } else {
        None
    }
}

/// The dispatcher without the placeholder handler: every occurrence is
/// taken out, and that is done again until none is left, so that no
/// placeholder comes about where two pieces meet.
pub open spec fn swept(content: Seq<char>) -> Seq<char>
    decreases content.len(),
{
    let once = replaced_all(content, PLACEHOLDER_HANDLER@, Seq::empty());
    if occurs_in(content, PLACEHOLDER_HANDLER@) && once.len() < content.len() {
        swept(once)
    } else {
        content
    }
}

/// The dispatcher after the unit `module` was registered under `path`.
///
/// The placeholder handler is swept out. Then, where an entry is bound to
/// the path, its handler becomes that of `module`; where the entry of
/// `module` stands in the text in any other way, nothing more is done. An
/// entry is chained only where none stands for the path: where the head of
/// one stands in the text and cannot be read as bound, the registration is
/// refused, so that no path gets a second entry. Otherwise the entry is
/// chained onto the leftmost root builder, and without one the registration
/// is refused.
pub open spec fn registered(content: Seq<char>, module: Seq<char>, path: Seq<char>) -> Result<
    Seq<char>,
    ScaffoldError,
> {
    let cleaned = swept(content);
    match bound_handler(cleaned, entry_head(path)) {
        Some((from, end)) => Ok(replaced_range(cleaned, from, end, handler_of(module))),
        None => if occurs_in(cleaned, route_entry(path, module)) {
            Ok(cleaned)
        } else if occurs_in(cleaned, entry_head(path)) {
            Err(ScaffoldError::DispatcherMalformed)
        } else {
            match index_of(cleaned, ROOT_BUILDER@) {
                Some(at) => Ok(
                    inserted(cleaned, at + ROOT_BUILDER@.len(), chained_entry(path, module)),
                ),
                None => Err(ScaffoldError::DispatcherMalformed),
            }
        },
    }
}

/// What registering the unit `module` under `path` reports: a refusal where
/// the dispatcher has an entry for the path that cannot be read, and where
/// it has neither an entry to rebind nor a root builder.
pub open spec fn registration_report(
    content: Seq<char>,
    module: Seq<char>,
    path: Seq<char>,
) -> Result<(), ScaffoldError> {
    match registered(content, module, path) {
        Ok(_) => Ok(()),
        Err(refusal) => Err(refusal),
    }
}

/// A leftmost bound entry is the one whose handler `bound_handler` names.
pub proof fn lemma_first_bound(text: Seq<char>, head: Seq<char>, at: int)
    requires
        first_bound_at(text, head, at),
    ensures
        bound_handler(text, head) == Some(
            (at + head.len(), handler_end(text, at + head.len())),
        ),
{
    let c = choose|c: int| first_bound_at(text, head, c);
    assert(first_bound_at(text, head, c));
    if c < at {
        assert(!bound_at(text, head, c));
    }
    if at < c {
        assert(!bound_at(text, head, at));
    }
}

/// A run of handler characters ends where the first other character, or the
/// end of the text, stands.
pub proof fn lemma_handler_end(text: Seq<char>, from: int, end: int)
    requires
        0 <= from <= end <= text.len(),
        forall|k: int| from <= k < end ==> is_handler_char(text[k]),
        end < text.len() ==> !is_handler_char(text[end]),
    ensures
        handler_end(text, from) == end,
    decreases end - from,
{
    if from < end {
        lemma_handler_end(text, from + 1, end);
    }
}

/// The path under which the unit `module_name` is served.
pub fn get_route(module_name: &str) -> (route: &str)
    ensures
        route@ == route_path(module_name@),
{
    if same_text(module_name, INDEX_PAGE) {
        proof {
            reveal_strlit("");
        }
        assert(""@ =~= Seq::<char>::empty());
        return "";
    }
    return module_name;
}

/// Is `c` a character of a handler reference?
pub fn handler_char(c: char) -> (yes: bool)
    ensures
        yes == is_handler_char(c),
{
    ('a' <= c && c <= 'z') || ('A' <= c && c <= 'Z') || ('0' <= c && c <= '9') || c == '_' || c
        == ':' || c > '\u{7f}'
}

/// Where the run of handler characters that begins at `from` ends.
pub fn scan_handler(text: &Vec<char>, from: usize) -> (end: usize)
    requires
        from <= text.len(),
    ensures
        end == handler_end(text@, from as int),
        from <= end <= text.len(),
{
    let mut end: usize = from;
    while end < text.len() && handler_char(text[end])
        invariant
            from <= end <= text.len(),
            forall|k: int| from <= k < end ==> is_handler_char(text@[k]),
        decreases text.len() - end,
    {
        end = end + 1;
    }
    proof {
        lemma_handler_end(text@, from as int, end as int);
    }
    end
}

/// The span of the handler reference in the leftmost entry bound by `head`.
pub fn find_bound_handler(text: &Vec<char>, head: &Vec<char>) -> (span: Option<(usize, usize)>)
    ensures
        match span {
            Some((from, end)) => {
                &&& bound_handler(text@, head@) == Some((from as int, end as int))
                &&& from <= end <= text.len()
            },
            None => bound_handler(text@, head@) is None,
        },
{
    let mut start: usize = 0;
    loop
        invariant
            forall|j: int| 0 <= j < start ==> !bound_at(text@, head@, j),
        decreases text.len() + 1 - start,
    {
        match find_from(text, head, start) {
            None => {
                return None;
            },
            Some(at) => {
                let from: usize = at + head.len();
                let end: usize = scan_handler(text, from);
                if from < end && end < text.len() && text[end] == ')' {
                    proof {
                        lemma_first_bound(text@, head@, at as int);
                    }
                    return Some((from, end));
                }
                if at >= text.len() {
                    return None;
                }
                start = at + 1;
            },
        }
    }
}

/// The dispatcher without the placeholder handler.
pub fn sweep(content: &str) -> (out: String)
    ensures
        out@ == swept(content@),
{
    let mut current = String::from_str(content);
    loop
        invariant
            swept(current@) == swept(content@),
        decreases current@.len(),
    {
        if !contains(current.as_str(), PLACEHOLDER_HANDLER) {
            return current;
        }
        proof {
            reveal_strlit(
                "\nasync fn hello_world() -> &'static str {\n    \"Hello, world!\"\n}\n",
            );
            reveal_strlit("");
            assert(""@ =~= Seq::<char>::empty());
            crate::text::lemma_removal_shrinks(current@, PLACEHOLDER_HANDLER@);
        }
        current = replace_all(current.as_str(), PLACEHOLDER_HANDLER, "");
    }
}

/// Registers the unit `module_name` in the dispatcher `main_rs`, under the
/// path of `src` where one is given and under its own otherwise.
pub fn call_module_fn_in_main_rs(main_rs: &mut String, module_name: &str, src: Option<&str>) -> (done:
    Result<(), ScaffoldError>)
    ensures
        match registered(
            old(main_rs)@,
            module_name@,
            route_path(
                match src {
                    Some(given) => given@,
                    None => module_name@,
                },
            ),
        ) {
            Ok(edited) => done == Ok::<(), ScaffoldError>(()) && final(main_rs)@ == edited,
            Err(refusal) => done == Err::<(), ScaffoldError>(refusal) && final(main_rs)@ == old(
                main_rs,
            )@,
        },
{
    let route = match src {
        Some(given) => get_route(given),
        None => get_route(module_name),
    };
    proof {
        reveal_strlit("");
        assert(""@ =~= Seq::<char>::empty());
    }
    let cleaned = sweep(main_rs.as_str());
    let head = String::from_str(".route(\"/").concat(route).concat("\", get(");
    let handler = String::from_str(module_name).concat("::main");
    let text = to_chars(cleaned.as_str());
    let head_chars = to_chars(head.as_str());
    match find_bound_handler(&text, &head_chars) {
        Some((from, end)) => {
            *main_rs = replace_range(cleaned.as_str(), from, end, handler.as_str());
            Ok(())
        },
        None => {
            let taken = contains(cleaned.as_str(), head.as_str());
            let entry = head.concat(handler.as_str()).concat(")");
            if contains(cleaned.as_str(), entry.as_str()) {
                *main_rs = cleaned;
                return Ok(());
            }
            if taken {
                return Err(ScaffoldError::DispatcherMalformed);
            }
            match find(cleaned.as_str(), ROOT_BUILDER) {
                Some(at) => {
                    let anchor = to_chars(ROOT_BUILDER);
                    let chained = String::from_str("\n").concat(entry.as_str()).concat(")");
                    assert(at + anchor.len() <= text.len());
                    *main_rs = insert_at(cleaned.as_str(), at + anchor.len(), chained.as_str());
                    Ok(())
                },
                None => Err(ScaffoldError::DispatcherMalformed),
            }
        },
    }
}

/// What registering the unit `module_name` in the dispatcher `main_rs` would
/// report.
pub fn check_registration(main_rs: &str, module_name: &str, src: Option<&str>) -> (report: Result<
    (),
    ScaffoldError,
>)
    ensures
        report == registration_report(
            main_rs@,
            module_name@,
            route_path(
                match src {
                    Some(given) => given@,
                    None => module_name@,
                },
            ),
        ),
{
    let mut probe = String::from_str(main_rs);
    call_module_fn_in_main_rs(&mut probe, module_name, src)
}

/// Every character of `handler` is one of a handler reference.
pub open spec fn is_handler_ref(handler: Seq<char>) -> bool {
    forall|k: int| 0 <= k < handler.len() ==> is_handler_char(#[trigger] handler[k])
}

/// Below any bound entry there is a leftmost one.
proof fn lemma_least_bound(text: Seq<char>, head: Seq<char>, at: int)
    requires
        bound_at(text, head, at),
    ensures
        exists|first: int| first_bound_at(text, head, first) && first <= at,
    decreases at,
{
    if exists|j: int| 0 <= j < at && bound_at(text, head, j) {
        let j = choose|j: int| 0 <= j < at && bound_at(text, head, j);
        lemma_least_bound(text, head, j);
    } else {
        assert(first_bound_at(text, head, at));
    }
}

/// Where an entry is bound, `bound_handler` names the handler of the
/// leftmost one.
pub proof fn lemma_bound_handler(text: Seq<char>, head: Seq<char>) -> (at: int)
    requires
        is_bound(text, head),
    ensures
        first_bound_at(text, head, at),
        bound_handler(text, head) == Some(
            (at + head.len(), handler_end(text, at + head.len())),
        ),
{
    let w = choose|w: int| bound_at(text, head, w);
    lemma_least_bound(text, head, w);
    let at = choose|at: int| first_bound_at(text, head, at);
    lemma_first_bound(text, head, at);
    at
}

/// An entry whose handler reference is well formed is a bound entry.
pub proof fn lemma_entry_is_bound(text: Seq<char>, head: Seq<char>, handler: Seq<char>, at: int)
    requires
        occurs_at(text, head + handler + ")"@, at),
        handler.len() > 0,
        is_handler_ref(handler),
    ensures
        bound_at(text, head, at),
        handler_end(text, at + head.len()) == at + head.len() + handler.len(),
{
    reveal_strlit(")");
    let entry = head + handler + ")"@;
    let window = text.subrange(at, at + entry.len());
    let from = at + head.len();
    let end = from + handler.len();
    assert(text.subrange(at, from) =~= head) by {
        assert forall|k: int| 0 <= k < head.len() implies text[at + k] == head[k] by {
            assert(window[k] == entry[k]);
        }
    }
    assert forall|k: int| from <= k < end implies is_handler_char(text[k]) by {
        assert(window[k - at] == entry[k - at]);
        assert(entry[k - at] == handler[k - from]);
    }
    assert(text[end] == ')') by {
        assert(window[end - at] == entry[end - at]);
    }
    lemma_handler_end(text, from, end);
}

/// Registration binds: a dispatcher in which a unit was registered holds
/// the entry of that unit under the path.
pub proof fn lemma_registered_binds(content: Seq<char>, module: Seq<char>, path: Seq<char>)
    requires
        registered(content, module, path) is Ok,
    ensures
        occurs_in(registered(content, module, path)->Ok_0, route_entry(path, module)),
{
    reveal_strlit(")");
    reveal_strlit("\n");
    let cleaned = swept(content);
    let head = entry_head(path);
    let handler = handler_of(module);
    let entry = route_entry(path, module);
    let out = registered(content, module, path)->Ok_0;
    if is_bound(cleaned, head) {
        let at = lemma_bound_handler(cleaned, head);
        let from = at + head.len();
        let end = handler_end(cleaned, from);
        assert(out == replaced_range(cleaned, from, end, handler));
        assert(out.subrange(at, at + entry.len()) =~= entry) by {
            assert forall|k: int| 0 <= k < head.len() implies out[at + k] == head[k] by {
                assert(cleaned.subrange(at, from)[k] == cleaned[at + k]);
            }
        }
        assert(occurs_at(out, entry, at));
    } else if occurs_in(cleaned, entry) {
    } else {
        let at = index_of(cleaned, ROOT_BUILDER@)->Some_0;
        crate::text::lemma_index_of_is_first(cleaned, ROOT_BUILDER@);
        let spot = at + ROOT_BUILDER@.len();
        assert(out == inserted(cleaned, spot, chained_entry(path, module)));
        assert(out.subrange(spot + 1, spot + 1 + entry.len()) =~= entry);
        assert(occurs_at(out, entry, spot + 1));
    }
}

/// The handler of a unit whose name is made of handler characters is made
/// of them too, and is not empty.
pub proof fn lemma_handler_of_ref(module: Seq<char>)
    requires
        is_handler_ref(module),
    ensures
        is_handler_ref(handler_of(module)),
        handler_of(module).len() == module.len() + 6,
{
    reveal_strlit("::main");
    let handler = handler_of(module);
    assert forall|k: int| 0 <= k < handler.len() implies is_handler_char(
        #[trigger] handler[k],
    ) by {
        if k < module.len() {
            assert(handler[k] == module[k]);
        } else {
            assert(handler[k] == "::main"@[k - module.len()]);
        }
    }
}

/// A dispatcher in which a unit with a well-formed handler was registered
/// holds an entry bound to the path.
pub proof fn lemma_registered_is_bound(content: Seq<char>, module: Seq<char>, path: Seq<char>)
    requires
        registered(content, module, path) is Ok,
        is_handler_ref(module),
    ensures
        is_bound(registered(content, module, path)->Ok_0, entry_head(path)),
{
    let out = registered(content, module, path)->Ok_0;
    let handler = handler_of(module);
    lemma_handler_of_ref(module);
    lemma_registered_binds(content, module, path);
    let at = choose|at: int| occurs_at(out, route_entry(path, module), at);
    lemma_entry_is_bound(out, entry_head(path), handler, at);
}

/// Registering again exchanges the handler and chains nothing: in a
/// dispatcher without the placeholder that holds an entry bound to the path,
/// a registration under that path is the dispatcher with the handler of the
/// leftmost such entry exchanged.
pub proof fn lemma_rebinding_is_in_place(content: Seq<char>, module: Seq<char>, path: Seq<char>)
    requires
        is_bound(content, entry_head(path)),
        !occurs_in(content, PLACEHOLDER_HANDLER@),
    ensures
        bound_handler(content, entry_head(path)) is Some,
        registered(content, module, path) == Ok::<Seq<char>, ScaffoldError>(
            replaced_range(
                content,
                bound_handler(content, entry_head(path))->Some_0.0,
                bound_handler(content, entry_head(path))->Some_0.1,
                handler_of(module),
            ),
        ),
{
    lemma_bound_handler(content, entry_head(path));
}

/// Route mapping law for two registrations in a row: where the unit `first`
/// was registered under a plain path, registering `second` under that path
/// exchanges the handler of the entry and appends no second entry.
pub proof fn lemma_reregistration_replaces(
    content: Seq<char>,
    first: Seq<char>,
    second: Seq<char>,
    path: Seq<char>,
)
    requires
        registered(content, first, path) is Ok,
        is_handler_ref(first),
        is_plain_path(path),
    ensures
        ({
            let once = registered(content, first, path)->Ok_0;
            let span = bound_handler(once, entry_head(path));
            &&& span is Some
            &&& registered(once, second, path) == Ok::<Seq<char>, ScaffoldError>(
                replaced_range(once, span->Some_0.0, span->Some_0.1, handler_of(second)),
            )
        }),
{
    lemma_registered_is_bound(content, first, path);
    lemma_registered_is_clean(content, first, path);
    lemma_rebinding_is_in_place(registered(content, first, path)->Ok_0, second, path);
}

/// No second entry: where the head of an entry for the path stands in the
/// swept dispatcher, a registration that goes through chains nothing. It
/// leaves the swept dispatcher as it is, or with the handler of the
/// leftmost bound entry exchanged, whatever the unit is called.
pub proof fn lemma_no_second_entry(content: Seq<char>, module: Seq<char>, path: Seq<char>)
    requires
        occurs_in(swept(content), entry_head(path)),
        registered(content, module, path) is Ok,
    ensures
        ({
            let cleaned = swept(content);
            let out = registered(content, module, path)->Ok_0;
            let span = bound_handler(cleaned, entry_head(path));
            ||| out == cleaned
            ||| span is Some && out == replaced_range(
                cleaned,
                span->Some_0.0,
                span->Some_0.1,
                handler_of(module),
            )
        }),
{
}

/// A path without line breaks and without quotes.
pub open spec fn is_plain_path(path: Seq<char>) -> bool {
    forall|k: int| 0 <= k < path.len() ==> path[k] != '\n' && path[k] != '"'
}

/// The entry bound by `head` at `at` is the only one in `text`.
pub open spec fn bound_only_at(text: Seq<char>, head: Seq<char>, at: int) -> bool {
    &&& bound_at(text, head, at)
    &&& forall|j: int| bound_at(text, head, j) ==> j == at
}

/// No two entries in `text` are bound by `head`.
pub open spec fn bound_at_most_once(text: Seq<char>, head: Seq<char>) -> bool {
    forall|i: int, j: int| bound_at(text, head, i) && bound_at(text, head, j) ==> i == j
}

/// A run of handler characters is made of them, stays inside the text and
/// ends before a character that is none.
pub proof fn lemma_handler_run(text: Seq<char>, from: int)
    requires
        0 <= from <= text.len(),
    ensures
        from <= handler_end(text, from) <= text.len(),
        forall|k: int| from <= k < handler_end(text, from) ==> is_handler_char(text[k]),
        handler_end(text, from) < text.len() ==> !is_handler_char(
            text[handler_end(text, from)],
        ),
    decreases text.len() - from,
{
    if from < text.len() && is_handler_char(text[from]) {
        lemma_handler_run(text, from + 1);
    }
}

/// The shape of the head of an entry under a plain path of `width`
/// characters: the full stop that opens it stands nowhere else outside the
/// path, the quotes stand around the path and nowhere else, the first before
/// a slash and the second before a comma, a bracket ends it, and no line
/// break stands in it.
pub open spec fn is_head(head: Seq<char>, width: int) -> bool {
    &&& width >= 0
    &&& head.len() == width + 16
    &&& head[0] == '.'
    &&& head[7] == '"'
    &&& head[8] == '/'
    &&& head[width + 9] == '"'
    &&& head[width + 10] == ','
    &&& head[width + 15] == '('
    &&& forall|k: int| 0 < k < width + 16 && !(9 <= k < width + 9) ==> head[k] != '.'
    &&& forall|k: int| 9 <= k < width + 16 && k != width + 9 ==> head[k] != '"'
    &&& forall|k: int| 0 <= k < width + 16 ==> head[k] != '\n'
}

/// The head of an entry under a plain path has the shape of one.
#[verifier::rlimit(40)]
pub proof fn lemma_head_shape(path: Seq<char>)
    requires
        is_plain_path(path),
    ensures
        is_head(entry_head(path), path.len() as int),
{
    reveal_strlit(".route(\"/");
    reveal_strlit("\", get(");
    let open = ".route(\"/"@;
    let close = "\", get("@;
    let head = entry_head(path);
    let width = path.len() as int;
    assert(head.len() == width + 16);
    assert forall|k: int| 0 <= k < 9 implies head[k] == open[k] by {}
    assert forall|k: int| 9 <= k < width + 9 implies head[k] == path[k - 9] by {}
    assert forall|k: int| 0 <= k < 7 implies head[width + 9 + k] == close[k] by {}
    assert forall|k: int| 0 < k < width + 16 && !(9 <= k < width + 9) implies head[k]
        != '.' by {
        if k >= width + 9 {
            assert(head[k] == close[k - width - 9]);
        }
    }
    assert forall|k: int| 9 <= k < width + 16 && k != width + 9 implies head[k] != '"' by {
        if k >= width + 9 {
            assert(head[k] == close[k - width - 9]);
        }
    }
    assert forall|k: int| 0 <= k < width + 16 implies head[k] != '\n' by {
        if k >= width + 9 {
            assert(head[k] == close[k - width - 9]);
        }
    }
}

/// Two occurrences of a head do not overlap.
pub proof fn lemma_heads_apart(
    text: Seq<char>,
    head: Seq<char>,
    width: int,
    first: int,
    second: int,
)
    requires
        is_head(head, width),
        occurs_at(text, head, first),
        occurs_at(text, head, second),
        first < second,
    ensures
        first + head.len() <= second,
{
    let gap = second - first;
    if gap < head.len() {
        let here = text.subrange(first, first + head.len());
        let there = text.subrange(second, second + head.len());
        assert(here[gap] == there[0]);
        assert(head[gap] == '.');
        assert(9 <= gap < width + 9);
        assert(here[gap + 7] == there[7]);
        assert(head[gap + 7] == '"');
        assert(gap + 7 == width + 9);
        assert(here[gap + 8] == there[8]);
        assert(head[gap + 8] == '/');
    }
}

/// An entry is bound in any text that holds the same characters from the
/// start of the entry to the bracket behind its handler.
#[verifier::rlimit(40)]
pub proof fn lemma_bound_moves(
    here: Seq<char>,
    there: Seq<char>,
    head: Seq<char>,
    at: int,
    to: int,
    span: int,
)
    requires
        0 <= at,
        0 <= to,
        0 <= span,
        at + span <= here.len(),
        to + span <= there.len(),
        here.subrange(at, at + span) == there.subrange(to, to + span),
        bound_at(here, head, at),
        handler_end(here, at + head.len()) < at + span,
    ensures
        bound_at(there, head, to),
{
    let from = at + head.len();
    let end = handler_end(here, from);
    let shift = to - at;
    lemma_handler_run(here, from);
    assert forall|k: int| to <= k < to + span implies there[k] == here[k - shift] by {
        assert(here.subrange(at, at + span)[k - to] == here[k - shift]);
        assert(there.subrange(to, to + span)[k - to] == there[k]);
    }
    assert(there.subrange(to, to + head.len()) =~= here.subrange(at, from));
    assert forall|k: int| from + shift <= k < end + shift implies is_handler_char(
        there[k],
    ) by {
        assert(there[k] == here[k - shift]);
    }
    assert(there[end + shift] == here[end]);
    lemma_handler_end(there, from + shift, end + shift);
}

/// An entry whose head ends before `spot` is bound in any text with the
/// same characters up to `spot`, where the character at `spot` neither
/// belongs to a handler nor closes one.
pub proof fn lemma_bound_in_front(
    out: Seq<char>,
    text: Seq<char>,
    head: Seq<char>,
    at: int,
    spot: int,
)
    requires
        0 <= spot <= out.len(),
        spot <= text.len(),
        out.subrange(0, spot) == text.subrange(0, spot),
        spot < out.len() ==> !is_handler_char(out[spot]) && out[spot] != ')',
        bound_at(out, head, at),
        at + head.len() <= spot,
    ensures
        bound_at(text, head, at),
{
    let from = at + head.len();
    let end = handler_end(out, from);
    lemma_handler_run(out, from);
    if end >= spot {
        assert(is_handler_char(out[spot]) || end == spot);
    }
    assert(end < spot);
    assert(out.subrange(at, end + 1) =~= text.subrange(at, end + 1)) by {
        assert forall|k: int| at <= k < end + 1 implies out[k] == text[k] by {
            assert(out.subrange(0, spot)[k] == out[k]);
            assert(text.subrange(0, spot)[k] == text[k]);
        }
    }
    lemma_bound_moves(out, text, head, at, at, end + 1 - at);
}

/// An entry that starts at or behind `edge` is bound, shifted, in any text
/// with the same characters from there on.
pub proof fn lemma_bound_behind(
    out: Seq<char>,
    text: Seq<char>,
    head: Seq<char>,
    at: int,
    edge: int,
    shift: int,
)
    requires
        0 <= edge <= at,
        edge <= out.len(),
        0 <= edge - shift,
        out.len() - shift == text.len(),
        out.subrange(edge, out.len() as int) == text.subrange(edge - shift, text.len() as int),
        bound_at(out, head, at),
    ensures
        bound_at(text, head, at - shift),
{
    let span = out.len() - at;
    assert(out.subrange(at, at + span) =~= text.subrange(at - shift, at - shift + span)) by {
        assert forall|k: int| at <= k < out.len() implies out[k] == text[k - shift] by {
            assert(out.subrange(edge, out.len() as int)[k - edge] == out[k]);
            assert(text.subrange(edge - shift, text.len() as int)[k - edge] == text[k - shift]);
        }
    }
    lemma_bound_moves(out, text, head, at, at - shift, span);
}

/// An entry chained into a text that held none is the only one in it.
#[verifier::rlimit(40)]
proof fn lemma_chained_alone(
    text: Seq<char>,
    head: Seq<char>,
    width: int,
    handler: Seq<char>,
    spot: int,
)
    requires
        is_head(head, width),
        is_handler_ref(handler),
        handler.len() > 0,
        0 <= spot <= text.len(),
        !is_bound(text, head),
    ensures
        bound_only_at(
            inserted(text, spot, seq!['\n'] + (head + handler + seq![')']) + seq![')']),
            head,
            spot + 1,
        ),
{
    reveal_strlit(")");
    let entry = head + handler + seq![')'];
    let chained = seq!['\n'] + entry + seq![')'];
    let out = inserted(text, spot, chained);
    let grown = chained.len() as int;
    assert(grown == head.len() + handler.len() + 3);
    assert(out.subrange(0, spot) =~= text.subrange(0, spot));
    assert(out.subrange(spot + grown, out.len() as int) =~= text.subrange(
        spot,
        text.len() as int,
    ));
    assert(out[spot] == '\n');
    assert(entry =~= head + handler + ")"@);
    assert(out.subrange(spot + 1, spot + 1 + entry.len()) =~= entry);
    lemma_entry_is_bound(out, head, handler, spot + 1);
    assert forall|j: int| bound_at(out, head, j) implies j == spot + 1 by {
        let window = out.subrange(j, j + head.len());
        assert(window[0] == out[j]);
        if j < spot {
            if j + head.len() > spot {
                assert(window[spot - j] == out[spot]);
            }
            lemma_bound_in_front(out, text, head, j, spot);
        } else if j > spot + 1 {
            lemma_heads_apart(out, head, width, spot + 1, j);
            if j < spot + grown {
                let k = j - spot;
                assert(out[j] == chained[k]);
                if k < 1 + head.len() + handler.len() {
                    assert(chained[k] == handler[k - 1 - head.len()]);
                }
            } else {
                lemma_bound_behind(out, text, head, j, spot + grown, grown);
            }
        }
    }
}

/// A chained entry is the only one bound to its path in a dispatcher that
/// held none before, wherever it is chained.
pub proof fn lemma_chained_only(text: Seq<char>, path: Seq<char>, module: Seq<char>, spot: int)
    requires
        is_plain_path(path),
        is_handler_ref(module),
        0 <= spot <= text.len(),
        !is_bound(text, entry_head(path)),
    ensures
        bound_only_at(
            inserted(text, spot, chained_entry(path, module)),
            entry_head(path),
            spot + 1,
        ),
{
    reveal_strlit("\n");
    reveal_strlit(")");
    let head = entry_head(path);
    let handler = handler_of(module);
    lemma_head_shape(path);
    lemma_handler_of_ref(module);
    assert("\n"@ =~= seq!['\n']);
    assert(")"@ =~= seq![')']);
    assert(chained_entry(path, module) == seq!['\n'] + (head + handler + seq![')']) + seq![')']);
    lemma_chained_alone(text, head, path.len() as int, handler, spot);
}

/// An entry that is bound beside the one at `at`, in a text that differs
/// from another only in the handler of that one, is bound in the other too,
/// beside the one at `at`.
#[verifier::rlimit(40)]
proof fn lemma_other_entry_is_old(
    out: Seq<char>,
    text: Seq<char>,
    head: Seq<char>,
    width: int,
    at: int,
    edge: int,
    grown: int,
    j: int,
) -> (i: int)
    requires
        is_head(head, width),
        occurs_at(out, head, at),
        at + head.len() <= edge < out.len(),
        at + head.len() <= edge - grown,
        out.len() - grown == text.len(),
        out.subrange(0, at) == text.subrange(0, at),
        out.subrange(edge + 1, out.len() as int) == text.subrange(
            edge + 1 - grown,
            text.len() as int,
        ),
        forall|k: int| at + head.len() <= k < edge ==> is_handler_char(out[k]),
        out[edge] == ')',
        bound_at(out, head, j),
        j != at,
    ensures
        bound_at(text, head, i),
        i != at,
{
    let window = out.subrange(j, j + head.len());
    assert(window[0] == out[j]);
    assert(out[at] == '.') by {
        assert(out.subrange(at, at + head.len())[0] == out[at]);
    }
    if j < at {
        lemma_heads_apart(out, head, width, j, at);
        lemma_bound_in_front(out, text, head, j, at);
        j
    } else {
        lemma_heads_apart(out, head, width, at, j);
        if j <= edge {
            if j < edge {
                assert(is_handler_char(out[j]));
            }
            assert(false);
            j
        } else {
            lemma_bound_behind(out, text, head, j, edge + 1, grown);
            j - grown
        }
    }
}

/// An entry whose handler was exchanged is still the only one in the text.
#[verifier::rlimit(40)]
proof fn lemma_rebound_alone(
    text: Seq<char>,
    head: Seq<char>,
    width: int,
    handler: Seq<char>,
    at: int,
)
    requires
        is_head(head, width),
        is_handler_ref(handler),
        handler.len() > 0,
        bound_only_at(text, head, at),
    ensures
        bound_only_at(
            replaced_range(
                text,
                at + head.len(),
                handler_end(text, at + head.len()),
                handler,
            ),
            head,
            at,
        ),
{
    reveal_strlit(")");
    let start = at + head.len();
    let stop = handler_end(text, start);
    let out = replaced_range(text, start, stop, handler);
    let edge = start + handler.len();
    let grown = handler.len() - (stop - start);
    lemma_handler_run(text, start);
    assert(out.subrange(0, at) =~= text.subrange(0, at));
    assert(out.subrange(edge + 1, out.len() as int) =~= text.subrange(
        stop + 1,
        text.len() as int,
    ));
    assert(out[edge] == text[stop]);
    assert forall|k: int| start <= k < edge implies is_handler_char(out[k]) by {
        assert(out[k] == handler[k - start]);
    }
    assert(out.subrange(at, edge + 1) =~= head + handler + ")"@) by {
        assert forall|k: int| 0 <= k < head.len() implies out[at + k] == head[k] by {
            assert(text.subrange(at, start)[k] == text[at + k]);
        }
    }
    lemma_entry_is_bound(out, head, handler, at);
    assert forall|j: int| bound_at(out, head, j) implies j == at by {
        if j != at {
            let i = lemma_other_entry_is_old(out, text, head, width, at, edge, grown, j);
            assert(bound_at(text, head, i));
        }
    }
}

/// The entry whose handler was exchanged is still the only one bound to its
/// path.
pub proof fn lemma_rebound_only(text: Seq<char>, path: Seq<char>, module: Seq<char>, at: int)
    requires
        is_plain_path(path),
        is_handler_ref(module),
        bound_only_at(text, entry_head(path), at),
    ensures
        bound_only_at(
            replaced_range(
                text,
                at + entry_head(path).len(),
                handler_end(text, at + entry_head(path).len()),
                handler_of(module),
            ),
            entry_head(path),
            at,
        ),
{
    lemma_head_shape(path);
    lemma_handler_of_ref(module);
    lemma_rebound_alone(text, entry_head(path), path.len() as int, handler_of(module), at);
}

/// Route table invariant: where at most one entry was bound to a plain
/// path, registering a unit with a well-formed name under that path leaves
/// exactly one entry bound to it.
pub proof fn lemma_registration_keeps_one_entry(
    content: Seq<char>,
    module: Seq<char>,
    path: Seq<char>,
)
    requires
        is_plain_path(path),
        is_handler_ref(module),
        bound_at_most_once(swept(content), entry_head(path)),
        registered(content, module, path) is Ok,
    ensures
        exists|at: int|
            bound_only_at(registered(content, module, path)->Ok_0, entry_head(path), at),
{
    let cleaned = swept(content);
    let head = entry_head(path);
    let out = registered(content, module, path)->Ok_0;
    if is_bound(cleaned, head) {
        let at = lemma_bound_handler(cleaned, head);
        assert(bound_only_at(cleaned, head, at));
        lemma_rebound_only(cleaned, path, module, at);
        assert(bound_only_at(out, head, at));
    } else {
        if occurs_in(cleaned, route_entry(path, module)) {
            let at = choose|at: int| occurs_at(cleaned, route_entry(path, module), at);
            lemma_handler_of_ref(module);
            lemma_entry_is_bound(cleaned, head, handler_of(module), at);
        } else {
            crate::text::lemma_index_of_is_first(cleaned, ROOT_BUILDER@);
            let spot = index_of(cleaned, ROOT_BUILDER@)->Some_0 + ROOT_BUILDER@.len();
            lemma_chained_only(cleaned, path, module, spot);
            assert(bound_only_at(out, head, spot + 1));
        }
    }
}

/// The shape of the placeholder as far as a registration has to know it: it
/// begins with a line break, holds a closing brace before its last
/// character, holds no full stop, and holds an opening bracket at `open`
/// only, before a closing one.
pub open spec fn is_block(block: Seq<char>, open: int) -> bool {
    &&& block.len() >= 2
    &&& block[0] == '\n'
    &&& block[block.len() - 2] == '}'
    &&& 0 <= open
    &&& open + 1 < block.len()
    &&& block[open + 1] == ')'
    &&& forall|k: int| 0 <= k < block.len() ==> block[k] != '.'
    &&& forall|k: int| 0 <= k < block.len() && block[k] == '(' ==> k == open
}

/// The placeholder handler has the shape of a block.
#[verifier::rlimit(40)]
pub proof fn lemma_placeholder_shape()
    ensures
        is_block(PLACEHOLDER_HANDLER@, 21),
{
    reveal_strlit("\nasync fn hello_world() -> &'static str {\n    \"Hello, world!\"\n}\n");
    let block = PLACEHOLDER_HANDLER@;
    assert(block.len() == 64);
    assert(block[21] == '(' && block[22] == ')');
    assert forall|k: int| 0 <= k < 64 implies block[k] != '.' && (block[k] == '(' ==> k == 21) by {
        if k < 16 {
            if k < 8 {
            } else {
            }
        } else if k < 32 {
            if k < 24 {
            } else {
            }
        } else if k < 48 {
            if k < 40 {
            } else {
            }
        } else {
            if k < 56 {
            } else {
            }
        }
    }
}

/// What the sweep leaves holds no placeholder.
pub proof fn lemma_swept_is_clean(content: Seq<char>)
    ensures
        !occurs_in(swept(content), PLACEHOLDER_HANDLER@),
    decreases content.len(),
{
    if occurs_in(content, PLACEHOLDER_HANDLER@) {
        lemma_placeholder_shape();
        crate::text::lemma_removal_shrinks(content, PLACEHOLDER_HANDLER@);
        lemma_swept_is_clean(replaced_all(content, PLACEHOLDER_HANDLER@, Seq::empty()));
    }
}

/// Exchanging the handler of an entry brings no block into a text that held
/// none.
#[verifier::rlimit(40)]
proof fn lemma_rebound_is_clean(
    text: Seq<char>,
    block: Seq<char>,
    open: int,
    head: Seq<char>,
    width: int,
    handler: Seq<char>,
    at: int,
)
    requires
        is_block(block, open),
        is_head(head, width),
        is_handler_ref(handler),
        handler.len() > 0,
        bound_at(text, head, at),
        !occurs_in(text, block),
    ensures
        !occurs_in(
            replaced_range(
                text,
                at + head.len(),
                handler_end(text, at + head.len()),
                handler,
            ),
            block,
        ),
{
    let start = at + head.len();
    let stop = handler_end(text, start);
    let out = replaced_range(text, start, stop, handler);
    let grown = handler.len() - (stop - start);
    let size = block.len() as int;
    lemma_handler_run(text, start);
    assert(out[start - 1] == '(') by {
        assert(text.subrange(at, start)[head.len() - 1] == text[start - 1]);
    }
    assert forall|j: int| !occurs_at(out, block, j) by {
        if occurs_at(out, block, j) {
            let window = out.subrange(j, j + size);
            if j + size <= start {
                assert(text.subrange(j, j + size) =~= window);
                assert(occurs_at(text, block, j));
            } else if j >= start + handler.len() {
                assert(text.subrange(j - grown, j - grown + size) =~= window);
                assert(occurs_at(text, block, j - grown));
            } else if j >= start {
                assert(window[0] == handler[j - start]);
            } else {
                assert(window[start - 1 - j] == '(');
                assert(window[start - j] == handler[0]);
            }
        }
    }
}

/// Chaining an entry behind a closing bracket brings no block into a text
/// that held none.
#[verifier::rlimit(40)]
proof fn lemma_chained_is_clean(
    text: Seq<char>,
    block: Seq<char>,
    open: int,
    head: Seq<char>,
    width: int,
    handler: Seq<char>,
    spot: int,
)
    requires
        is_block(block, open),
        is_head(head, width),
        is_handler_ref(handler),
        0 < spot <= text.len(),
        text[spot - 1] == ')',
        !occurs_in(text, block),
    ensures
        !occurs_in(
            inserted(text, spot, seq!['\n'] + (head + handler + seq![')']) + seq![')']),
            block,
        ),
{
    let chained = seq!['\n'] + (head + handler + seq![')']) + seq![')'];
    let out = inserted(text, spot, chained);
    let grown = chained.len() as int;
    let size = block.len() as int;
    assert(grown == head.len() + handler.len() + 3);
    assert forall|j: int| !occurs_at(out, block, j) by {
        if occurs_at(out, block, j) {
            let window = out.subrange(j, j + size);
            if j + size <= spot {
                assert(text.subrange(j, j + size) =~= window);
                assert(occurs_at(text, block, j));
            } else if j >= spot + grown {
                assert(text.subrange(j - grown, j - grown + size) =~= window);
                assert(occurs_at(text, block, j - grown));
            } else if j <= spot + 1 && spot + 1 < j + size {
                assert(window[spot + 1 - j] == chained[1]);
                assert(chained[1] == head[0]);
            } else if j > spot + 1 {
                let m = j - spot;
                assert(window[0] == chained[m]);
                if m - 1 < head.len() {
                    assert(chained[m] == head[m - 1]);
                } else if m - 1 < head.len() + handler.len() {
                    assert(chained[m] == handler[m - 1 - head.len()]);
                } else {
                    assert(chained[m] == ')');
                }
            } else {
                assert(window[size - 2] == out[spot - 1]);
                assert(out[spot - 1] == text[spot - 1]);
            }
        }
    }
}

/// A registration under a plain path of a unit with a well-formed name
/// leaves no placeholder in the dispatcher.
#[verifier::rlimit(40)]
pub proof fn lemma_registered_is_clean(content: Seq<char>, module: Seq<char>, path: Seq<char>)
    requires
        registered(content, module, path) is Ok,
        is_handler_ref(module),
        is_plain_path(path),
    ensures
        !occurs_in(registered(content, module, path)->Ok_0, PLACEHOLDER_HANDLER@),
        swept(registered(content, module, path)->Ok_0) == registered(content, module, path)->Ok_0,
{
    reveal_strlit("\n");
    reveal_strlit(")");
    reveal_strlit("Router::new()");
    let cleaned = swept(content);
    let head = entry_head(path);
    let handler = handler_of(module);
    let block = PLACEHOLDER_HANDLER@;
    lemma_swept_is_clean(content);
    lemma_placeholder_shape();
    lemma_head_shape(path);
    lemma_handler_of_ref(module);
    if is_bound(cleaned, head) {
        let at = lemma_bound_handler(cleaned, head);
        lemma_rebound_is_clean(cleaned, block, 21, head, path.len() as int, handler, at);
    } else if occurs_in(cleaned, route_entry(path, module)) {
    } else {
        crate::text::lemma_index_of_is_first(cleaned, ROOT_BUILDER@);
        let at = index_of(cleaned, ROOT_BUILDER@)->Some_0;
        let spot = at + ROOT_BUILDER@.len();
        assert(cleaned[spot - 1] == ')') by {
            assert(cleaned.subrange(at, spot)[12] == cleaned[spot - 1]);
        }
        assert("\n"@ =~= seq!['\n']);
        assert(")"@ =~= seq![')']);
        assert(chained_entry(path, module) == seq!['\n'] + (head + handler + seq![')']) + seq![
            ')',
        ]);
        lemma_chained_is_clean(cleaned, block, 21, head, path.len() as int, handler, spot);
    }
}

/// Route mapping law in full: where a unit was registered under a plain
/// path in a dispatcher that held at most one entry bound to it, the
/// dispatcher holds exactly one such entry; registering another unit under
/// that path exchanges the handler of that entry and nothing else, and the
/// entry, now that of the other unit, is still the only one.
#[verifier::rlimit(40)]
pub proof fn lemma_rebinding_keeps_one_entry(
    content: Seq<char>,
    first: Seq<char>,
    second: Seq<char>,
    path: Seq<char>,
) -> (at: int)
    requires
        is_plain_path(path),
        is_handler_ref(first),
        is_handler_ref(second),
        bound_at_most_once(swept(content), entry_head(path)),
        registered(content, first, path) is Ok,
    ensures
        ({
            let head = entry_head(path);
            let once = registered(content, first, path)->Ok_0;
            let twice = registered(once, second, path);
            let from = at + head.len();
            &&& bound_only_at(once, head, at)
            &&& twice == Ok::<Seq<char>, ScaffoldError>(
                replaced_range(once, from, handler_end(once, from), handler_of(second)),
            )
            &&& bound_only_at(twice->Ok_0, head, at)
            &&& occurs_at(twice->Ok_0, route_entry(path, second), at)
        }),
{
    reveal_strlit(")");
    let head = entry_head(path);
    let once = registered(content, first, path)->Ok_0;
    lemma_registration_keeps_one_entry(content, first, path);
    let at = choose|at: int| bound_only_at(once, head, at);
    lemma_registered_is_clean(content, first, path);
    lemma_rebinding_is_in_place(once, second, path);
    let found = lemma_bound_handler(once, head);
    assert(found == at);
    lemma_rebound_only(once, path, second, at);
    let from = at + head.len();
    let stop = handler_end(once, from);
    let twice = replaced_range(once, from, stop, handler_of(second));
    let handler = handler_of(second);
    lemma_handler_run(once, from);
    assert(twice.subrange(at, at + head.len() + handler.len() + 1) =~= head + handler + ")"@) by {
        assert forall|k: int| 0 <= k < head.len() implies twice[at + k] == head[k] by {
            assert(once.subrange(at, from)[k] == once[at + k]);
        }
        assert(twice[from + handler.len()] == once[stop]);
    }
    at
}

/// Putting a text without a full stop in front of a dispatcher keeps its
/// one entry the only one, and as it reads.
#[verifier::rlimit(40)]
pub proof fn lemma_fronted_entry(
    front: Seq<char>,
    text: Seq<char>,
    head: Seq<char>,
    width: int,
    entry: Seq<char>,
    at: int,
)
    requires
        is_head(head, width),
        forall|k: int| 0 <= k < front.len() ==> front[k] != '.',
        bound_only_at(text, head, at),
        occurs_at(text, entry, at),
    ensures
        bound_only_at(front + text, head, at + front.len()),
        occurs_at(front + text, entry, at + front.len()),
{
    let out = front + text;
    let shift = front.len() as int;
    assert(out.subrange(shift, out.len() as int) =~= text);
    assert(text.subrange(0, text.len() as int) =~= text);
    assert(out.subrange(at + shift, at + shift + entry.len()) =~= text.subrange(
        at,
        at + entry.len(),
    ));
    assert(text.subrange(at, text.len() as int) =~= out.subrange(at + shift, out.len() as int));
    lemma_bound_moves(text, out, head, at, at + shift, text.len() - at);
    assert forall|j: int| bound_at(out, head, j) implies j == at + shift by {
        assert(out.subrange(j, j + head.len())[0] == out[j]);
        if j < shift {
            assert(out[j] == front[j]);
        } else {
            lemma_bound_behind(out, text, head, j, shift, shift);
        }
    }
}

/// The path of a unit whose name is made of handler characters is plain.
pub proof fn lemma_route_path_is_plain(name: Seq<char>)
    requires
        is_handler_ref(name),
    ensures
        is_plain_path(route_path(name)),
{
    assert forall|k: int| 0 <= k < name.len() implies name[k] != '\n' && name[k] != '"' by {
        assert(is_handler_char(name[k]));
    }
}

/// A first registration: in a dispatcher with a root builder in which no
/// entry for a plain path stands, registering a unit with a well-formed
/// name under that path leaves its entry there, and that is the only one
/// bound to the path.
#[verifier::rlimit(40)]
pub proof fn lemma_first_registration(content: Seq<char>, module: Seq<char>, path: Seq<char>) -> (at:
    int)
    requires
        is_plain_path(path),
        is_handler_ref(module),
        !occurs_in(swept(content), entry_head(path)),
        occurs_in(swept(content), ROOT_BUILDER@),
    ensures
        registered(content, module, path) is Ok,
        bound_only_at(registered(content, module, path)->Ok_0, entry_head(path), at),
        occurs_at(registered(content, module, path)->Ok_0, route_entry(path, module), at),
{
    reveal_strlit("\n");
    reveal_strlit(")");
    let cleaned = swept(content);
    let head = entry_head(path);
    let entry = route_entry(path, module);
    lemma_handler_of_ref(module);
    assert forall|at: int| !bound_at(cleaned, head, at) by {
        if bound_at(cleaned, head, at) {
            assert(occurs_at(cleaned, head, at));
        }
    }
    if occurs_in(cleaned, entry) {
        let found = choose|found: int| occurs_at(cleaned, entry, found);
        lemma_entry_is_bound(cleaned, head, handler_of(module), found);
    }
    crate::text::lemma_index_of_is_first(cleaned, ROOT_BUILDER@);
    let spot = index_of(cleaned, ROOT_BUILDER@)->Some_0 + ROOT_BUILDER@.len();
    lemma_chained_only(cleaned, path, module, spot);
    let out = inserted(cleaned, spot, chained_entry(path, module));
    assert(out.subrange(spot + 1, spot + 1 + entry.len()) =~= entry);
    spot + 1
}

} // verus!
