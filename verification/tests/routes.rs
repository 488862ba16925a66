use kraken::error::ScaffoldError;
use kraken::routes::{
    call_module_fn_in_main_rs, check_registration, find_bound_handler, get_route, handler_char,
    scan_handler, sweep,
};
use kraken::text::to_chars;

const FRESH_MAIN: &str = "use axum::{routing::get, Router};\n\nasync fn hello_world() -> &'static str {\n    \"Hello, world!\"\n}\n\n#[shuttle_runtime::main]\nasync fn main() -> shuttle_axum::ShuttleAxum {\n    let router = Router::new().route(\"/\", get(hello_world));\n\n    Ok(router.into())\n}\n";

const CLEAN_HEAD: &str =
    "use axum::{routing::get, Router};\n\n#[shuttle_runtime::main]\nasync fn main() -> shuttle_axum::ShuttleAxum {\n";

#[test]
fn index_is_served_at_the_root() {
    assert_eq!(get_route("index"), "");
}

#[test]
fn other_units_are_served_under_their_name() {
    assert_eq!(get_route("about"), "about");
    assert_eq!(get_route("Index"), "Index");
    assert_eq!(get_route("indexes"), "indexes");
    assert_eq!(get_route(""), "");
    assert_eq!(get_route("styles/tailwind.css"), "styles/tailwind.css");
}

#[test]
fn handler_characters() {
    for c in ['a', 'z', 'A', 'Z', '0', '9', '_', ':', 'é', 'ß', '\u{80}', '日', '\u{10ffff}'] {
        assert!(handler_char(c));
    }
    for c in [')', '(', '-', ' ', '.', '\n', '/', '@', '[', '`', '{', '"', ',', '\u{7f}', '\0'] {
        assert!(!handler_char(c));
    }
}

#[test]
fn scan_handler_stops_at_the_first_other_character() {
    let text = to_chars("get(about::main))");
    assert_eq!(scan_handler(&text, 4), 15);
    assert_eq!(scan_handler(&text, 15), 15);
    assert_eq!(scan_handler(&text, 17), 17);
    assert_eq!(scan_handler(&to_chars("abc"), 1), 3);
}

#[test]
fn find_bound_handler_wants_a_handler_and_a_closing_bracket() {
    let head = to_chars(".route(\"/\", get(");
    assert_eq!(find_bound_handler(&to_chars("x.route(\"/\", get(h))"), &head), Some((17, 18)));
    assert_eq!(find_bound_handler(&to_chars(".route(\"/\", get())"), &head), None);
    assert_eq!(find_bound_handler(&to_chars(".route(\"/\", get(h"), &head), None);
    assert_eq!(find_bound_handler(&to_chars(".route(\"/\", get(a-b))"), &head), None);
    assert_eq!(
        find_bound_handler(&to_chars(".route(\"/\", get(a-b)).route(\"/\", get(c::d))"), &head),
        Some((37, 41))
    );
    assert_eq!(find_bound_handler(&to_chars(""), &head), None);
}

#[test]
fn registering_index_rebinds_the_root_entry_in_place() {
    let mut main_rs = String::from(FRESH_MAIN);
    assert_eq!(call_module_fn_in_main_rs(&mut main_rs, "index", None), Ok(()));
    let expected = format!(
        "{}    let router = Router::new().route(\"/\", get(index::main));\n\n    Ok(router.into())\n}}\n",
        CLEAN_HEAD
    );
    assert_eq!(main_rs, expected);
}

#[test]
fn registering_a_new_path_chains_an_entry_onto_the_root_builder() {
    let mut main_rs = String::from(FRESH_MAIN);
    assert_eq!(call_module_fn_in_main_rs(&mut main_rs, "about", None), Ok(()));
    let expected = format!(
        "{}    let router = Router::new()\n.route(\"/about\", get(about::main)).route(\"/\", get(hello_world));\n\n    Ok(router.into())\n}}\n",
        CLEAN_HEAD
    );
    assert_eq!(main_rs, expected);
}

#[test]
fn registering_twice_changes_nothing_the_second_time() {
    let mut main_rs = String::from(FRESH_MAIN);
    assert_eq!(call_module_fn_in_main_rs(&mut main_rs, "about", None), Ok(()));
    let once = main_rs.clone();
    assert_eq!(call_module_fn_in_main_rs(&mut main_rs, "about", None), Ok(()));
    assert_eq!(main_rs, once);
    assert_eq!(main_rs.matches(".route(\"/about\"").count(), 1);
}

#[test]
fn reregistering_a_path_replaces_the_handler() {
    let mut main_rs = String::from(FRESH_MAIN);
    assert_eq!(call_module_fn_in_main_rs(&mut main_rs, "about", None), Ok(()));
    assert_eq!(call_module_fn_in_main_rs(&mut main_rs, "team", Some("about")), Ok(()));
    assert_eq!(main_rs.matches(".route(\"/about\"").count(), 1);
    assert!(main_rs.contains(".route(\"/about\", get(team::main))"));
    assert!(!main_rs.contains("about::main"));
    assert_eq!(main_rs.matches("Router::new()").count(), 1);
}

#[test]
fn a_given_path_is_used_in_place_of_the_name() {
    let mut main_rs = String::from("let r = Router::new();");
    assert_eq!(
        call_module_fn_in_main_rs(&mut main_rs, "tailwindcss", Some("styles/tailwind.css")),
        Ok(())
    );
    assert_eq!(
        main_rs,
        "let r = Router::new()\n.route(\"/styles/tailwind.css\", get(tailwindcss::main));"
    );
    let mut root = String::from("let r = Router::new();");
    assert_eq!(call_module_fn_in_main_rs(&mut root, "home", Some("index")), Ok(()));
    assert_eq!(root, "let r = Router::new()\n.route(\"/\", get(home::main));");
}

#[test]
fn only_the_leftmost_root_builder_gets_the_entry() {
    let mut main_rs = String::from("a(Router::new()); b(Router::new());");
    assert_eq!(call_module_fn_in_main_rs(&mut main_rs, "about", None), Ok(()));
    assert_eq!(
        main_rs,
        "a(Router::new()\n.route(\"/about\", get(about::main))); b(Router::new());"
    );
}

#[test]
fn a_dispatcher_without_root_builder_is_refused_and_kept() {
    let text = "fn main() {}\nasync fn hello_world() -> &'static str {\n    \"Hello, world!\"\n}\n";
    let mut main_rs = String::from(text);
    assert_eq!(
        call_module_fn_in_main_rs(&mut main_rs, "about", None),
        Err(ScaffoldError::DispatcherMalformed)
    );
    assert_eq!(main_rs, text);
}

#[test]
fn an_entry_with_an_odd_handler_is_not_doubled() {
    let text = "Router::new()\n.route(\"/my-page\", get(my-page::main))";
    let mut main_rs = String::from(text);
    assert_eq!(call_module_fn_in_main_rs(&mut main_rs, "my-page", None), Ok(()));
    assert_eq!(main_rs, text);
}

#[test]
fn a_registration_is_judged_without_being_made() {
    assert_eq!(check_registration(FRESH_MAIN, "about", None), Ok(()));
    assert_eq!(check_registration("Router::new()", "about", Some("x")), Ok(()));
    assert_eq!(check_registration(".route(\"/about\", get(old))", "about", None), Ok(()));
    assert_eq!(
        check_registration("fn main() {}", "about", None),
        Err(ScaffoldError::DispatcherMalformed)
    );
    assert_eq!(check_registration("", "index", None), Err(ScaffoldError::DispatcherMalformed));
}

#[test]
fn the_placeholder_is_swept_out_until_none_is_left() {
    let block = "\nasync fn hello_world() -> &'static str {\n    \"Hello, world!\"\n}\n";
    assert_eq!(sweep("fn main() {}"), "fn main() {}");
    assert_eq!(sweep(block), "");
    assert_eq!(sweep(&format!("a{}b{}c", block, block)), "abc");
    let (front, back) = block.split_at(10);
    let nested = format!("x{}{}{}y", front, block, back);
    assert_eq!(sweep(&nested), "xy");
    let twice = format!("x{}{}{}{}{}y", front, front, block, back, back);
    assert_eq!(sweep(&twice), "xy");
}

#[test]
fn a_registration_sweeps_the_placeholder_out_wherever_it_comes_about() {
    let block = "\nasync fn hello_world() -> &'static str {\n    \"Hello, world!\"\n}\n";
    let (front, back) = block.split_at(20);
    let mut main_rs = format!("{}{}{}Router::new()", front, block, back);
    assert_eq!(call_module_fn_in_main_rs(&mut main_rs, "about", None), Ok(()));
    assert_eq!(main_rs, "Router::new()\n.route(\"/about\", get(about::main))");
}

#[test]
fn a_unit_with_a_name_beyond_ascii_is_rebound_like_any_other() {
    let mut main_rs = String::from("let r = Router::new();");
    assert_eq!(call_module_fn_in_main_rs(&mut main_rs, "é", None), Ok(()));
    assert_eq!(main_rs, "let r = Router::new()\n.route(\"/é\", get(é::main));");
    assert_eq!(call_module_fn_in_main_rs(&mut main_rs, "b", Some("é")), Ok(()));
    assert_eq!(main_rs, "let r = Router::new()\n.route(\"/é\", get(b::main));");
    assert_eq!(main_rs.matches(".route(\"/é\"").count(), 1);
}

#[test]
fn no_entry_is_chained_where_one_stands_that_cannot_be_read() {
    for text in [
        "Router::new()\n.route(\"/about\", get(my-page::main))",
        "Router::new().route(\"/about\", get(|| async {}))",
        "Router::new().route(\"/about\", get())",
        "Router::new() // .route(\"/about\", get(",
    ] {
        let mut main_rs = String::from(text);
        assert_eq!(
            call_module_fn_in_main_rs(&mut main_rs, "about", None),
            Err(ScaffoldError::DispatcherMalformed),
            "{}",
            text
        );
        assert_eq!(main_rs, text);
        assert_eq!(
            check_registration(text, "about", None),
            Err(ScaffoldError::DispatcherMalformed)
        );
    }
    let mut other = String::from("Router::new().route(\"/team\", get(my-page::main))");
    assert_eq!(call_module_fn_in_main_rs(&mut other, "about", None), Ok(()));
    assert_eq!(other.matches(".route(").count(), 2);
}
