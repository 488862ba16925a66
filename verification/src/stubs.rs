//! The files that the generators write: the base layout, the base styles,
//! the template and the source unit of a page, and the unit that serves the
//! compiled stylesheet.
//!
//! A page unit is described by the two values it binds, the file of its
//! template and the title it renders, and is written out from them with
//! both as escaped string literals.
use crate::text::{contains, occurs_in, to_chars};
use vstd::prelude::*;
use vstd::string::*;

verus! {

/// The directory of the templates.
pub const TEMPLATES_DIR: &'static str = "templates/";

/// The directory of the generated units.
pub const UNITS_DIR: &'static str = "src/kraken/";

/// Where the base layout lives.
pub const BASE_LAYOUT_PATH: &'static str = "templates/base.html";

/// Where the base styles live.
pub const BASE_STYLES_PATH: &'static str = "styles/styles.css";

/// Where the unit that serves the compiled stylesheet lives.
pub const STYLES_UNIT_PATH: &'static str = "src/kraken/tailwindcss.rs";

/// The base layout, with a head region into which features inject.
pub const BASE_LAYOUT: &'static str =
    "<!DOCTYPE html>\n<html lang=\"en\">\n  <head>\n    <meta charset=\"UTF-8\" />\n    <meta name=\"viewport\" content=\"width=device-width, initial-scale=1.0\" />\n    <title>{% block title %}{% endblock %}</title>\n    {% block head %}{% endblock %}\n  </head>\n  <body>\n    {% block content %}{% endblock %}\n  </body>\n</html>\n    ";

/// The base styles, which pull in the three layers of the framework.
pub const BASE_STYLES: &'static str =
    "@tailwind base;\n@tailwind components;\n@tailwind utilities;\n";

/// The unit that serves the compiled stylesheet.
pub const STYLES_UNIT: &'static str =
    "use askama_axum::{IntoResponse, Response};\nuse axum::http::StatusCode;\n\npub async fn main() -> impl IntoResponse {\n    Response::builder()\n        .status(StatusCode::OK)\n        .header(\"Content-Type\", \"text/css\")\n        .body(include_str!(\"../../styles/tailwind.css\").to_owned())\n        .unwrap()\n}\n";

/// A page template up to the content of the page.
pub const TEMPLATE_HEAD: &'static str =
    "\n<!-- prettier-ignore -->\n{% extends \"base.html\" %}\n{% block title %}{{title}}{% endblock %}\n{% block content %}\n";

/// What makes a page template extend the base layout.
pub const EXTENDS_LAYOUT: &'static str = "{% extends \"base.html\" %}";

/// A page template after the content of the page.
pub const TEMPLATE_TAIL: &'static str = "\n{% endblock %}";

/// A page unit up to the literal of its template file.
pub const UNIT_HEAD: &'static str =
    "use askama::Template;\nuse askama_axum::IntoResponse;\n\n#[derive(Template)]\n#[template(path = ";

/// A page unit between its two literals.
pub const UNIT_BODY: &'static str =
    ")]\nstruct TheTemplate<'a> {\n    title: &'a str,\n}\n\npub async fn main() -> impl IntoResponse {\n    TheTemplate { title: ";

/// A page unit after the literal of its title.
pub const UNIT_TAIL: &'static str = " }\n}\n";

/// The key of the line of the compiler's configuration that lists the
/// files to scan.
pub const CONTENT_KEY: &'static str = "content: ";

/// The line that makes the compiler scan the templates.
pub const CONTENT_LINE: &'static str = "  content: [\"./templates/**/*.html\"],";

/// A file that a generator wants written, with its project-relative path.
#[derive(Clone, Debug, PartialEq, Eq)]
pub struct GeneratedFile {
    /// The path, relative to the root of the project.
    pub path: String,
    /// The whole content.
    pub content: String,
}

/// A file to write, as texts.
pub struct FileView {
    /// The path, relative to the root of the project.
    pub path: Seq<char>,
    /// The whole content.
    pub content: Seq<char>,
}

impl View for GeneratedFile {
    type V = FileView;

    open spec fn view(&self) -> FileView {
        FileView { path: self.path@, content: self.content@ }
    }
}

/// The uppercase form of `c` as `char::to_uppercase` gives it: one
/// character or more.
pub uninterp spec fn uppercased(c: char) -> Seq<char>;

/// `text` as a string literal of generated source, quoted and escaped as
/// `proc_macro2::Literal::string` writes it.
pub uninterp spec fn literal_of(text: Seq<char>) -> Seq<char>;

/// `s` with its first character exchanged for `initial`; empty for an empty
/// `s`.
pub open spec fn with_initial(s: Seq<char>, initial: Seq<char>) -> Seq<char> {
    if s.len() == 0 {
        Seq::empty()
    } else {
        initial + s.subrange(1, s.len() as int)
    }
}

/// `s` with its first character in upper case.
pub open spec fn capitalized(s: Seq<char>) -> Seq<char> {
    if s.len() == 0 {
        Seq::empty()
    } else {
        with_initial(s, uppercased(s[0]))
    }
}

/// Where the template of the page `name` lives.
pub open spec fn template_path(name: Seq<char>) -> Seq<char> {
    TEMPLATES_DIR@ + name + ".html"@
}

/// Where the unit of the page `name` lives.
pub open spec fn unit_path(name: Seq<char>) -> Seq<char> {
    UNITS_DIR@ + name + ".rs"@
}

/// The template of a page with the content `body`: it extends the base
/// layout and fills its title and content blocks.
pub open spec fn page_template(body: Seq<char>) -> Seq<char> {
    TEMPLATE_HEAD@ + body + TEMPLATE_TAIL@
}

/// The source of a page unit, given the literals of its template file and
/// of its title.
pub open spec fn unit_source(file_literal: Seq<char>, title_literal: Seq<char>) -> Seq<char> {
    UNIT_HEAD@ + file_literal + UNIT_BODY@ + title_literal + UNIT_TAIL@
}

/// The source of the unit of the page `name` with the title `title`.
pub open spec fn page_unit(name: Seq<char>, title: Seq<char>) -> Seq<char> {
    unit_source(literal_of(name + ".html"@), literal_of(title))
}

/// Where the line that holds position `from` ends: at the next line break,
/// or at the end of the text.
pub open spec fn break_after(text: Seq<char>, from: int) -> int
    decreases text.len() - from,
{
    if 0 <= from < text.len() && text[from] != '\n' {
        break_after(text, from + 1)
    } else {
        from
    }
}

/// A line without the carriage return that may end it.
pub open spec fn without_return(line: Seq<char>) -> Seq<char> {
    if line.len() > 0 && line.last() == '\r' {
        line.drop_last()
    } else {
        line
    }
}

/// A line of the configuration after the edit: the line that lists the
/// files to scan becomes the one that scans the templates.
pub open spec fn edited_line(line: Seq<char>) -> Seq<char> {
    if occurs_in(line, CONTENT_KEY@) {
        CONTENT_LINE@
    } else {
        line
    }
}

/// The lines of `text` from position `from` on, each edited, joined by line
/// breaks. A line ends at a line break, which may follow a carriage return;
/// a line break at the very end opens no further line.
pub open spec fn edited_from(text: Seq<char>, from: int) -> Seq<char>
    decreases text.len() - from,
{
    let end = break_after(text, from);
    if from < 0 || from >= text.len() {
        Seq::empty()
    } else if end < from || end >= text.len() {
        edited_line(text.subrange(from, text.len() as int))
    } else {
        let line = edited_line(without_return(text.subrange(from, end)));
        if end + 1 >= text.len() {
            line
        } else {
            line + seq!['\n'] + edited_from(text, end + 1)
        }
    }
}

/// The compiler's configuration after the edit.
pub open spec fn edited_config(text: Seq<char>) -> Seq<char> {
    edited_from(text, 0)
}

/// The uppercase form of `c`, collected from `char::to_uppercase`.
#[verifier::external_body]
fn uppercase_of(c: char) -> (upper: String)
    ensures
        upper@ == uppercased(c),
{
    c.to_uppercase().collect()
}

/// `text` as a string literal, made by `proc_macro2::Literal::string` and
/// written out by its `Display`. In a process that is no procedural-macro
/// host the escaping is that of `proc_macro2` itself, and the result
/// depends on the text alone.
#[verifier::external_body]
fn string_literal(text: &str) -> (literal: String)
    ensures
        literal@ == literal_of(text@),
{
    proc_macro2::Literal::string(text).to_string()
}

/// `s` with its first character exchanged for `initial`.
pub fn replace_initial(s: &str, initial: &str) -> (out: String)
    ensures
        out@ == with_initial(s@, initial@),
{
    let n = s.unicode_len();
    if n == 0 {
        return String::new();
    }
    String::from_str(initial).concat(s.substring_char(1, n))
}

/// Capitalizes the first character in `s`.
pub fn capitalize(s: &str) -> (out: String)
    ensures
        out@ == capitalized(s@),
{
    if s.unicode_len() == 0 {
        return String::new();
    }
    let upper = uppercase_of(s.get_char(0));
    replace_initial(s, upper.as_str())
}

/// The base layout.
pub fn create_html_base_file() -> (file: GeneratedFile)
    ensures
        file.path@ == BASE_LAYOUT_PATH@,
        file.content@ == BASE_LAYOUT@,
{
    GeneratedFile {
        path: String::from_str(BASE_LAYOUT_PATH),
        content: String::from_str(BASE_LAYOUT),
    }
}

/// The base styles.
pub fn create_tailwind_base_styles() -> (file: GeneratedFile)
    ensures
        file.path@ == BASE_STYLES_PATH@,
        file.content@ == BASE_STYLES@,
{
    GeneratedFile {
        path: String::from_str(BASE_STYLES_PATH),
        content: String::from_str(BASE_STYLES),
    }
}

/// The template of the page `page_name`, around the markup `body`.
pub fn generate_page_template(page_name: &str, body: &str) -> (file: GeneratedFile)
    ensures
        file.path@ == template_path(page_name@),
        file.content@ == page_template(body@),
{
    GeneratedFile {
        path: String::from_str(TEMPLATES_DIR).concat(page_name).concat(".html"),
        content: String::from_str(TEMPLATE_HEAD).concat(body).concat(TEMPLATE_TAIL),
    }
}

/// The source of a page unit around the two literals it binds.
pub fn unit_source_text(file_literal: &str, title_literal: &str) -> (source: String)
    ensures
        source@ == unit_source(file_literal@, title_literal@),
{
    String::from_str(UNIT_HEAD).concat(file_literal).concat(UNIT_BODY).concat(
        title_literal,
    ).concat(UNIT_TAIL)
}

/// The source unit of the page `page_name`, which renders its template with
/// the title `page_title`.
pub fn generate_page_mod_rs(page_name: &str, page_title: &str) -> (file: GeneratedFile)
    ensures
        file.path@ == unit_path(page_name@),
        file.content@ == page_unit(page_name@, page_title@),
{
    let page_file = String::from_str(page_name).concat(".html");
    let file_literal = string_literal(page_file.as_str());
    let title_literal = string_literal(page_title);
    GeneratedFile {
        path: String::from_str(UNITS_DIR).concat(page_name).concat(".rs"),
        content: unit_source_text(file_literal.as_str(), title_literal.as_str()),
    }
}

/// The unit that serves the compiled stylesheet.
pub fn generate_tailwindcss_mod_rs() -> (file: GeneratedFile)
    ensures
        file.path@ == STYLES_UNIT_PATH@,
        file.content@ == STYLES_UNIT@,
{
    GeneratedFile {
        path: String::from_str(STYLES_UNIT_PATH),
        content: String::from_str(STYLES_UNIT),
    }
}

/// A line break search ends at the first line break at or after `from`, or
/// at the end of the text.
pub proof fn lemma_break_after(text: Seq<char>, from: int, end: int)
    requires
        0 <= from <= end <= text.len(),
        forall|k: int| from <= k < end ==> text[k] != '\n',
        end < text.len() ==> text[end] == '\n',
    ensures
        break_after(text, from) == end,
    decreases end - from,
{
    if from < end {
        lemma_break_after(text, from + 1, end);
    }
}

/// A line of the configuration after the edit.
pub fn edit_line(line: &str) -> (out: String)
    ensures
        out@ == edited_line(line@),
{
    if contains(line, CONTENT_KEY) {
        String::from_str(CONTENT_LINE)
    } else {
        String::from_str(line)
    }
}

/// The compiler's configuration with the line that lists the files to scan
/// pointed at the templates.
pub fn edit_tailwind_config(config: &str) -> (out: String)
    ensures
        out@ == edited_config(config@),
{
    let chars = to_chars(config);
    let n: usize = chars.len();
    let mut out = String::new();
    let mut from: usize = 0;
    proof {
        assert(out@ + edited_from(config@, 0) =~= edited_config(config@));
    }
    while from < n
        invariant
            chars@ == config@,
            n == chars.len(),
            from <= n,
            out@ + edited_from(config@, from as int) == edited_config(config@),
        decreases n - from,
    {
        let mut end: usize = from;
        while end < n && chars[end] != '\n'
            invariant
                from <= end <= n,
                n == chars.len(),
                forall|k: int| from <= k < end ==> chars@[k] != '\n',
            decreases n - end,
        {
            end = end + 1;
        }
        proof {
            lemma_break_after(config@, from as int, end as int);
        }
        let ghost before = out@;
        if end >= n {
            let line = edit_line(config.substring_char(from, n));
            out.append(line.as_str());
            proof {
                assert(edited_from(config@, n as int) =~= Seq::<char>::empty());
                assert(out@ + edited_from(config@, n as int) =~= before + edited_from(
                    config@,
                    from as int,
                ));
            }
            from = n;
        } else {
            let stop: usize = if end > from && chars[end - 1] == '\r' {
                end - 1
            } else {
                end
            };
            proof {
                let raw = config@.subrange(from as int, end as int);
                if end > from && chars@[end - 1] == '\r' {
                    assert(raw.last() == '\r');
                    assert(raw.drop_last() =~= config@.subrange(from as int, stop as int));
                } else {
                    assert(raw.len() > 0 ==> raw.last() == chars@[end - 1]);
                }
                assert(without_return(raw) == config@.subrange(from as int, stop as int));
            }
            let line = edit_line(config.substring_char(from, stop));
            out.append(line.as_str());
            if end + 1 < n {
                out.append("\n");
                proof {
                    reveal_strlit("\n");
                    assert("\n"@ =~= seq!['\n']);
                    assert(out@ + edited_from(config@, end + 1) =~= before + (line@ + seq!['\n']
                        + edited_from(config@, end + 1)));
                }
            } else {
                proof {
                    assert(edited_from(config@, end + 1) =~= Seq::<char>::empty());
                    assert(out@ + edited_from(config@, end + 1) =~= before + line@);
                }
            }
            from = end + 1;
        }
    }
    proof {
        assert(edited_from(config@, from as int) =~= Seq::<char>::empty());
        assert(out@ + Seq::<char>::empty() =~= out@);
    }
    out
}

/// Every page template extends the base layout.
pub proof fn lemma_template_extends_layout(body: Seq<char>)
    ensures
        occurs_in(page_template(body), EXTENDS_LAYOUT@),
{
    reveal_strlit(
        "\n<!-- prettier-ignore -->\n{% extends \"base.html\" %}\n{% block title %}{{title}}{% endblock %}\n{% block content %}\n",
    );
    reveal_strlit("{% extends \"base.html\" %}");
    let template = page_template(body);
    assert(TEMPLATE_HEAD@.len() == 113);
    assert(template.subrange(26, 51) =~= EXTENDS_LAYOUT@) by {
        assert forall|k: int| 26 <= k < 51 implies template[k] == TEMPLATE_HEAD@[k] by {}
    }
    assert(crate::text::occurs_at(template, EXTENDS_LAYOUT@, 26));
}

} // verus!
