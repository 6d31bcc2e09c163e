use schema_dumper::options::{interpret, log_level, menu, read_choice, Choice, LogLevel,
    Selection, DEFAULT_INDENT};
use schema_dumper::render::Format;

#[test]
fn verbosity_raises_the_log_level() {
    assert_eq!(log_level(0), LogLevel::Error);
    assert_eq!(log_level(1), LogLevel::Warn);
    assert_eq!(log_level(2), LogLevel::Info);
    assert_eq!(log_level(3), LogLevel::Debug);
    assert_eq!(log_level(4), LogLevel::Trace);
    assert_eq!(log_level(255), LogLevel::Trace);
}

#[test]
fn the_default_indent_is_four() {
    assert_eq!(DEFAULT_INDENT, 4);
}

#[test]
fn the_menu_lists_the_four_formats() {
    assert_eq!(menu(), vec![Format::Cs, Format::Hpp, Format::Json, Format::Rs]);
}

#[test]
fn a_blank_line_confirms() {
    assert_eq!(read_choice(""), Choice::Confirm);
    assert_eq!(read_choice("\n"), Choice::Confirm);
    assert_eq!(read_choice("   \t\r\n"), Choice::Confirm);
    assert_eq!(interpret(true, None), Choice::Confirm);
    assert_eq!(interpret(true, Some(2)), Choice::Confirm);
}

#[test]
fn a_number_of_the_menu_toggles_its_format() {
    assert_eq!(read_choice("1\n"), Choice::Toggle(Format::Cs));
    assert_eq!(read_choice("2\n"), Choice::Toggle(Format::Hpp));
    assert_eq!(read_choice("3\n"), Choice::Toggle(Format::Json));
    assert_eq!(read_choice("4\n"), Choice::Toggle(Format::Rs));
    assert_eq!(interpret(false, Some(3)), Choice::Toggle(Format::Json));
}

#[test]
fn white_space_around_a_number_is_ignored() {
    assert_eq!(read_choice("  2  \r\n"), Choice::Toggle(Format::Hpp));
    assert_eq!(read_choice("\t4"), Choice::Toggle(Format::Rs));
}

#[test]
fn a_number_may_carry_a_plus_sign_and_leading_zeros() {
    assert_eq!(read_choice("+3"), Choice::Toggle(Format::Json));
    assert_eq!(read_choice("001"), Choice::Toggle(Format::Cs));
}

#[test]
fn anything_else_is_invalid() {
    assert_eq!(read_choice("0"), Choice::Invalid);
    assert_eq!(read_choice("5"), Choice::Invalid);
    assert_eq!(read_choice("-1"), Choice::Invalid);
    assert_eq!(read_choice("cs"), Choice::Invalid);
    assert_eq!(read_choice("1 2"), Choice::Invalid);
    assert_eq!(read_choice("99999999999999999999999"), Choice::Invalid);
    assert_eq!(interpret(false, None), Choice::Invalid);
    assert_eq!(interpret(false, Some(0)), Choice::Invalid);
    assert_eq!(interpret(false, Some(u64::MAX)), Choice::Invalid);
}

#[test]
fn the_menu_starts_with_cs_and_json() {
    let selection = Selection::initial();
    assert_eq!(selection.chosen, vec![Format::Cs, Format::Json]);
    assert!(selection.holds(Format::Cs));
    assert!(!selection.holds(Format::Hpp));
    assert!(selection.holds(Format::Json));
    assert!(!selection.holds(Format::Rs));
}

#[test]
fn toggling_takes_a_format_in_at_the_end() {
    let mut selection = Selection::initial();
    selection.toggle(Format::Hpp);
    assert_eq!(selection.chosen, vec![Format::Cs, Format::Json, Format::Hpp]);
}

#[test]
fn toggling_takes_a_format_out_and_keeps_the_order() {
    let mut selection = Selection::initial();
    selection.toggle(Format::Rs);
    selection.toggle(Format::Cs);
    assert_eq!(selection.chosen, vec![Format::Json, Format::Rs]);
}

#[test]
fn toggling_twice_restores_membership() {
    let mut selection = Selection::initial();
    selection.toggle(Format::Json);
    assert!(!selection.holds(Format::Json));
    selection.toggle(Format::Json);
    assert!(selection.holds(Format::Json));
    assert_eq!(selection.chosen, vec![Format::Cs, Format::Json]);
}

#[test]
fn applying_a_choice_says_when_the_menu_is_done() {
    let mut selection = Selection::initial();
    assert!(!selection.apply(Choice::Toggle(Format::Rs)));
    assert!(!selection.apply(Choice::Invalid));
    assert_eq!(selection.chosen, vec![Format::Cs, Format::Json, Format::Rs]);
    assert!(selection.apply(Choice::Confirm));
    assert_eq!(selection.chosen, vec![Format::Cs, Format::Json, Format::Rs]);
}

#[test]
fn an_empty_selection_comes_to_cs() {
    let mut selection = Selection::initial();
    selection.toggle(Format::Cs);
    selection.toggle(Format::Json);
    assert!(selection.chosen.is_empty());
    assert_eq!(selection.finish(), vec![Format::Cs]);
}

#[test]
fn a_selection_is_confirmed_as_it_stands() {
    let mut selection = Selection::initial();
    selection.toggle(Format::Hpp);
    assert_eq!(selection.finish(), vec![Format::Cs, Format::Json, Format::Hpp]);
}
