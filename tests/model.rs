use nbterm::model::{Cell, CellOutput, CellType, ExecutionState, Notebook};
use nbterm::modes::Mode;

#[test]
fn new_notebook_has_one_empty_code_cell() {
    let nb = Notebook::new();
    assert_eq!(nb.cells.len(), 1);
    assert_eq!(nb.cells[0].cell_type, CellType::Code);
    assert_eq!(nb.cells[0].source, "");
    assert_eq!(nb.cells[0].id.len(), 36);
    assert_eq!(nb.metadata.kernel_name.as_deref(), Some("python3"));
    assert_eq!(nb.metadata.language.as_deref(), Some("python"));
    assert!(!nb.dirty);
}

#[test]
fn cells_get_distinct_ids() {
    let a = Cell::new_code("x");
    let b = Cell::new_code("x");
    assert_ne!(a.id, b.id);
    assert_eq!(Cell::new_raw("r").cell_type, CellType::Raw);
    assert_eq!(Cell::new_markdown("m").source, "m");
}

#[test]
fn insert_and_delete_cells() {
    let mut nb = Notebook::new();
    nb.insert_cell_after(0, Cell::new_code("b"));
    nb.insert_cell_before(0, Cell::new_code("a"));
    nb.insert_cell_after(99, Cell::new_code("z"));
    let sources: Vec<&str> = nb.cells.iter().map(|c| c.source.as_str()).collect();
    assert_eq!(sources, vec!["a", "", "b", "z"]);
    assert!(nb.dirty);
    assert!(nb.delete_cell(9).is_none());
    assert_eq!(nb.delete_cell(0).map(|c| c.source), Some("a".to_string()));
    assert_eq!(nb.cells.len(), 3);
}

#[test]
fn last_cell_is_never_deleted() {
    let mut nb = Notebook::new();
    assert!(nb.delete_cell(0).is_none());
    assert_eq!(nb.cells.len(), 1);
    assert!(!nb.dirty);
}

#[test]
fn clear_outputs_resets_cell() {
    let mut c = Cell::new_code("1");
    c.outputs.push(CellOutput::Stream { name: "stdout".to_string(), text: "1".to_string() });
    c.execution_state = ExecutionState::Error;
    c.execution_count = Some(3);
    c.clear_outputs();
    assert!(c.outputs.is_empty());
    assert_eq!(c.execution_state, ExecutionState::Idle);
    assert_eq!(c.execution_count, Some(3));
}

#[test]
fn modes_inside_cells() {
    assert!(Mode::CellInsert.is_in_cell());
    assert!(Mode::CellVisual.is_in_cell());
    assert!(!Mode::Normal.is_in_cell());
    assert!(!Mode::Search.is_in_cell());
    assert_eq!(Mode::CellNormal.label(), "CELL:NORMAL");
    assert_eq!(Mode::Command.label(), "COMMAND");
}

#[test]
fn cell_type_labels() {
    assert_eq!(CellType::Code.label(), "Code");
    assert_eq!(CellType::Markdown.label(), "Markdown");
    assert_eq!(CellType::Raw.label(), "Raw");
}

#[test]
fn toggle_and_copy_cells() {
    let mut nb = Notebook::new();
    nb.cells[0].outputs.push(CellOutput::Stream { name: "stdout".to_string(), text: "x".to_string() });
    nb.toggle_cell_type(0);
    assert_eq!(nb.cells[0].cell_type, CellType::Markdown);
    assert!(nb.cells[0].outputs.is_empty());
    assert!(nb.dirty);
    nb.toggle_cell_type(0);
    assert_eq!(nb.cells[0].cell_type, CellType::Code);
    let mut raw = Cell::new_raw("r");
    raw.execution_count = Some(4);
    raw.execution_state = ExecutionState::Done;
    let copy = raw.fresh_copy();
    assert_ne!(copy.id, raw.id);
    assert_eq!(copy.source, "r");
    assert_eq!(copy.execution_count, Some(4));
    assert_eq!(copy.execution_state, ExecutionState::Idle);
    nb.insert_cell_after(0, raw);
    nb.toggle_cell_type(1);
    assert_eq!(nb.cells[1].cell_type, CellType::Code);
}
