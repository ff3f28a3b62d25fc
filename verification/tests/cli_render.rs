use portify::render;
use portify::render::{
    display_width, is_informative, pad, single_line, truncate, Align, Table, Tone, EMPTY,
};

#[test]
fn pads_both_directions() {
    assert_eq!(pad("3000", 6, Align::Right), "  3000");
    assert_eq!(pad("node", 6, Align::Left), "node  ");
    assert_eq!(pad("exactly", 7, Align::Left), "exactly");
}

#[test]
fn never_pads_below_content_width() {
    assert_eq!(pad("verylong", 3, Align::Left), "verylong");
}

#[test]
fn truncation_adds_an_ellipsis_and_respects_the_budget() {
    assert_eq!(truncate("node", 10), "node");
    assert_eq!(truncate("chromium-browser", 8), "chromiu…");
    assert_eq!(display_width(&truncate("chromium-browser", 8)), 8);
    assert_eq!(truncate("abc", 1), "…");
}

#[test]
fn truncation_is_char_safe_for_multibyte_names() {
    let truncated = truncate("aplicación-de-red", 6);
    assert_eq!(display_width(&truncated), 6);
}

#[test]
fn columns_with_nothing_in_them_are_dropped() {
    let mut table = Table::new(vec![
        render::column("port", Align::Right, Tone::Strong, false, false),
        render::column("memory", Align::Right, Tone::Muted, false, true),
        render::column("service", Align::Left, Tone::Muted, true, true),
    ]);
    table.push(vec!["3000".into(), EMPTY.into(), "Dev server".into()]);
    table.push(vec!["5432".into(), EMPTY.into(), "".into()]);

    assert_eq!(table.visible_columns(), vec![0, 2]);
}

#[test]
fn non_elidable_columns_survive_even_when_empty() {
    let mut table = Table::new(vec![
        render::column("port", Align::Right, Tone::Strong, false, false),
        render::column("process", Align::Left, Tone::Normal, true, false),
    ]);
    table.push(vec!["3000".into(), EMPTY.into()]);
    assert_eq!(table.visible_columns(), vec![0, 1]);
}

#[test]
fn commands_are_flattened_onto_one_line() {
    let command = "python3 -c import socket\ns.bind(('0.0.0.0', 3000))\ts.listen()";
    let flattened = single_line(command);
    assert!(!flattened.contains('\n'));
    assert!(!flattened.contains('\t'));
    assert!(!flattened.contains("  "), "runs of blanks collapse to one");
    assert!(flattened.starts_with("python3 -c import socket s.bind"));
}

#[test]
fn flattening_leaves_ordinary_commands_alone() {
    assert_eq!(single_line("node server.js"), "node server.js");
    assert_eq!(single_line(""), "");
    assert_eq!(single_line("  padded  "), "padded");
}

#[test]
fn placeholder_is_not_information() {
    assert!(!is_informative(EMPTY));
    assert!(!is_informative("  "));
    assert!(is_informative("node"));
}
