use nbterm::events::{EventContent, IopubEvent, KernelMessage};
use nbterm::model::{Cell, CellOutput, CellType, ExecutionState, Notebook};
use nbterm::session::Session;

fn two_code_cells() -> Session {
    let mut nb = Notebook::new();
    nb.insert_cell_after(0, Cell::new_code("print(2)"));
    Session::new(nb)
}

fn ev(parent: Option<&str>, content: EventContent) -> KernelMessage {
    KernelMessage::IoPub(IopubEvent { parent_id: parent.map(|p| p.to_string()), content })
}

fn status(s: &str) -> EventContent {
    EventContent::Status { execution_state: s.to_string() }
}

fn stream(name: &str, text: &str) -> EventContent {
    EventContent::Stream { name: name.to_string(), text: text.to_string() }
}

fn stream_texts(cell: &Cell) -> Vec<(String, String)> {
    cell.outputs
        .iter()
        .filter_map(|o| match o {
            CellOutput::Stream { name, text } => Some((name.clone(), text.clone())),
            _ => None,
        })
        .collect()
}

#[test]
fn new_session_is_starting() {
    let s = Session::new(Notebook::new());
    assert_eq!(s.kernel_status, "starting");
    assert_eq!(s.status_message, "Kernel starting...");
    assert_eq!(s.executing().len(), 0);
}

#[test]
fn requests_before_idle_each_hold_one_entry() {
    let mut s = two_code_cells();
    for (i, id) in ["r1", "r2", "r3"].iter().enumerate() {
        let idx = i % 2;
        assert!(s.start_cell(idx).is_some());
        s.record_request(id.to_string(), idx);
    }
    assert_eq!(s.executing().len(), 3);
    assert_eq!(s.executing().get(&"r1".to_string()), Some(0));
    assert_eq!(s.executing().get(&"r2".to_string()), Some(1));
    assert_eq!(s.executing().get(&"r3".to_string()), Some(0));
    assert_eq!(s.executing().get(&"r4".to_string()), None);
}

#[test]
fn interleaved_events_reach_only_their_cell() {
    let mut s = two_code_cells();
    s.start_cell(0);
    s.record_request("a".to_string(), 0);
    s.start_cell(1);
    s.record_request("b".to_string(), 1);
    s.handle_kernel_message(ev(Some("b"), stream("stdout", "B1")));
    s.handle_kernel_message(ev(Some("a"), stream("stdout", "A1")));
    s.handle_kernel_message(ev(
        Some("a"),
        EventContent::ExecuteResult {
            execution_count: 7,
            data: vec![("text/plain".to_string(), "42".to_string())],
        },
    ));
    s.handle_kernel_message(ev(Some("b"), stream("stderr", "B2")));
    s.handle_kernel_message(ev(Some("a"), status("idle")));
    let a = &s.notebook.cells[0];
    let b = &s.notebook.cells[1];
    assert_eq!(a.execution_state, ExecutionState::Done);
    assert_eq!(a.execution_count, Some(7));
    assert_eq!(a.outputs.len(), 2);
    assert_eq!(stream_texts(a), vec![("stdout".to_string(), "A1".to_string())]);
    assert_eq!(b.execution_state, ExecutionState::Running);
    assert_eq!(b.execution_count, None);
    assert_eq!(
        stream_texts(b),
        vec![("stdout".to_string(), "B1".to_string()), ("stderr".to_string(), "B2".to_string())]
    );
    assert_eq!(s.executing().len(), 1);
    assert_eq!(s.executing().get(&"b".to_string()), Some(1));
}

#[test]
fn same_stream_texts_concatenate() {
    let mut s = two_code_cells();
    s.start_cell(0);
    s.record_request("x".to_string(), 0);
    s.handle_kernel_message(ev(Some("x"), stream("stdout", "hel")));
    s.handle_kernel_message(ev(Some("x"), stream("stdout", "lo")));
    let c = &s.notebook.cells[0];
    assert_eq!(c.outputs.len(), 1);
    assert_eq!(stream_texts(c), vec![("stdout".to_string(), "hello".to_string())]);
}

#[test]
fn error_stays_after_idle() {
    let mut s = two_code_cells();
    s.start_cell(0);
    s.record_request("x".to_string(), 0);
    s.handle_kernel_message(ev(
        Some("x"),
        EventContent::Error {
            ename: "ZeroDivisionError".to_string(),
            evalue: "division by zero".to_string(),
            traceback: vec!["line 1".to_string()],
        },
    ));
    assert_eq!(s.notebook.cells[0].execution_state, ExecutionState::Error);
    s.handle_kernel_message(ev(Some("x"), status("idle")));
    assert_eq!(s.notebook.cells[0].execution_state, ExecutionState::Error);
    assert_eq!(s.notebook.cells[0].outputs.len(), 1);
    assert_eq!(s.executing().len(), 0);
}

#[test]
fn stale_events_after_restart_are_ignored() {
    let mut s = two_code_cells();
    s.start_cell(0);
    s.record_request("old".to_string(), 0);
    s.begin_restart();
    assert_eq!(s.executing().len(), 0);
    assert_eq!(s.kernel_status, "restarting");
    assert_eq!(s.status_message, "Restarting kernel...");
    s.handle_kernel_message(ev(Some("old"), stream("stdout", "late")));
    s.handle_kernel_message(ev(
        Some("old"),
        EventContent::Error { ename: "E".to_string(), evalue: "v".to_string(), traceback: vec![] },
    ));
    s.handle_kernel_message(ev(Some("old"), status("idle")));
    assert_eq!(s.notebook.cells[0].execution_state, ExecutionState::Running);
    assert!(s.notebook.cells[0].outputs.is_empty());
    assert_eq!(s.executing().len(), 0);
    s.restart_done();
    assert_eq!(s.status_message, "Kernel restarted");
}

#[test]
fn broadcast_status_then_stream_and_idle_for_one_cell() {
    let mut s = two_code_cells();
    s.start_cell(0);
    s.record_request("A".to_string(), 0);
    s.start_cell(1);
    s.record_request("B".to_string(), 1);
    s.handle_kernel_message(ev(None, status("busy")));
    assert_eq!(s.kernel_status, "busy");
    assert_eq!(s.status_message, "");
    s.handle_kernel_message(ev(Some("A"), stream("stdout", "hi")));
    s.handle_kernel_message(ev(Some("A"), status("idle")));
    let a = &s.notebook.cells[0];
    assert_eq!(a.execution_state, ExecutionState::Done);
    assert_eq!(stream_texts(a), vec![("stdout".to_string(), "hi".to_string())]);
    assert_eq!(a.outputs.len(), 1);
    assert_eq!(s.notebook.cells[1].execution_state, ExecutionState::Running);
    assert_eq!(s.kernel_status, "idle");
}

#[test]
fn idle_broadcast_without_parent_ends_nothing() {
    let mut s = two_code_cells();
    s.start_cell(0);
    s.record_request("A".to_string(), 0);
    s.handle_kernel_message(ev(None, status("idle")));
    assert_eq!(s.notebook.cells[0].execution_state, ExecutionState::Running);
    assert_eq!(s.executing().len(), 1);
}

#[test]
fn display_data_and_echo() {
    let mut s = two_code_cells();
    s.start_cell(1);
    s.record_request("d".to_string(), 1);
    s.handle_kernel_message(ev(Some("d"), EventContent::ExecuteInput));
    s.handle_kernel_message(ev(
        Some("d"),
        EventContent::DisplayData { data: vec![("image/png".to_string(), "iVBO".to_string())] },
    ));
    let c = &s.notebook.cells[1];
    assert_eq!(c.outputs.len(), 1);
    match &c.outputs[0] {
        CellOutput::DisplayData { data } => assert_eq!(data[0].0, "image/png"),
        _ => panic!("expected display data"),
    }
}

#[test]
fn iopub_error_sets_message() {
    let mut s = two_code_cells();
    s.handle_kernel_message(KernelMessage::IoPubError("socket closed".to_string()));
    assert_eq!(s.status_message, "IOPub error: socket closed");
    s.handle_kernel_message(KernelMessage::ShellReply);
    assert_eq!(s.status_message, "IOPub error: socket closed");
}

#[test]
fn start_cell_by_kind() {
    let mut nb = Notebook::new();
    nb.insert_cell_after(0, Cell::new_markdown("# title"));
    nb.insert_cell_after(1, Cell::new_raw("raw"));
    let mut s = Session::new(nb);
    s.notebook.cells[0].source = "1 + 1".to_string();
    s.notebook.cells[0].outputs.push(CellOutput::Stream {
        name: "stdout".to_string(),
        text: "old".to_string(),
    });
    assert_eq!(s.start_cell(0), Some("1 + 1".to_string()));
    assert!(s.notebook.cells[0].outputs.is_empty());
    assert_eq!(s.notebook.cells[0].execution_state, ExecutionState::Running);
    assert_eq!(s.start_cell(1), None);
    assert!(s.notebook.cells[1].rendered);
    assert_eq!(s.notebook.cells[1].cell_type, CellType::Markdown);
    assert_eq!(s.start_selected_cell(2), None);
    assert_eq!(s.status_message, "Can only execute code cells");
    s.run_all_started();
    assert_eq!(s.status_message, "Running all cells...");
}
