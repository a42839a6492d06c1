use pfm::menu::{confirms_repair, repair_action, RepairAction};

#[test]
fn menu_answers_select_actions() {
    assert_eq!(repair_action("1\n"), RepairAction::Diagnose);
    assert_eq!(repair_action("  2 "), RepairAction::ExportSql);
    assert_eq!(repair_action("3\r\n"), RepairAction::ExportSourceFiles);
    assert_eq!(repair_action("4"), RepairAction::DiagnoseAndRepair);
    assert_eq!(repair_action("0\n"), RepairAction::Quit);
    assert_eq!(repair_action("5"), RepairAction::Unknown);
    assert_eq!(repair_action("12"), RepairAction::Unknown);
    assert_eq!(repair_action(""), RepairAction::Unknown);
}

#[test]
fn only_y_confirms() {
    assert!(confirms_repair("y\n"));
    assert!(confirms_repair(" Y "));
    assert!(!confirms_repair("yes"));
    assert!(!confirms_repair("n"));
    assert!(!confirms_repair("\n"));
}

#[test]
fn unicode_whitespace_is_trimmed() {
    assert_eq!(repair_action("\u{3000}1\u{a0}"), RepairAction::Diagnose);
    assert_eq!(repair_action("\u{2009}0\u{85}"), RepairAction::Quit);
    assert!(confirms_repair("\u{202f}Y\u{205f}"));
    assert!(!confirms_repair("\u{200b}y"));
}
