//! The correlation engine: applies kernel events to the cells that issued
//! the requests they answer, and tracks the requests in flight.

use vstd::prelude::*;
use crate::events::{ContentModel, EventContent, EventModel, IopubEvent, KernelMessage};
use crate::model::{
    cells_view, outputs_view, CellModel, CellOutput, CellType, ExecutionState, Notebook,
    OutputModel,
};
use crate::pending::PendingTable;

verus! {

/// Whether `o` is a stream record named `name`.
pub open spec fn is_stream_named(o: OutputModel, name: Seq<char>) -> bool {
    match o {
        OutputModel::Stream { name: n, .. } => n == name,
        _ => false,
    }
}

/// Index of the first stream record named `name` at or after `i`, or -1.
pub open spec fn first_stream_from(outs: Seq<OutputModel>, name: Seq<char>, i: int) -> int
    decreases outs.len() - i,
{
    if i < 0 || i >= outs.len() {
        -1
    } else if is_stream_named(outs[i], name) {
        i
    } else {
        first_stream_from(outs, name, i + 1)
    }
}

pub open spec fn stream_text(o: OutputModel) -> Seq<char> {
    match o {
        OutputModel::Stream { text, .. } => text,
        _ => Seq::empty(),
    }
}

/// Stream text `text` for stream `name` added to `outs`: appended to the
/// first record of that stream if there is one, else a new record at the end.
pub open spec fn merge_stream(outs: Seq<OutputModel>, name: Seq<char>, text: Seq<char>) -> Seq<
    OutputModel,
> {
    let j = first_stream_from(outs, name, 0);
    if j < 0 {
        outs.push(OutputModel::Stream { name, text })
    } else {
        outs.update(j, OutputModel::Stream { name, text: stream_text(outs[j]) + text })
    }
}

/// The cell an event is attributed to: the one whose request it answers.
pub open spec fn event_target(table: Map<Seq<char>, usize>, parent: Option<Seq<char>>) -> Option<
    usize,
> {
    match parent {
        Some(id) => if table.contains_key(id) {
            Some(table[id])
        } else {
            None
        },
        None => None,
    }
}

/// One event's content applied to the cell it is attributed to.
pub open spec fn apply_to_cell(c: CellModel, content: ContentModel) -> CellModel {
    match content {
        ContentModel::Status { execution_state } => if execution_state == "idle"@
            && c.execution_state == ExecutionState::Running {
            CellModel { execution_state: ExecutionState::Done, ..c }
        } else {
            c
        },
        ContentModel::Stream { name, text } => CellModel {
            outputs: merge_stream(c.outputs, name, text),
            ..c
        },
        ContentModel::ExecuteResult { execution_count, data } => CellModel {
            outputs: c.outputs.push(OutputModel::ExecuteResult { execution_count, data }),
            execution_count: Some(execution_count),
            ..c
        },
        ContentModel::DisplayData { data } => CellModel {
            outputs: c.outputs.push(OutputModel::DisplayData { data }),
            ..c
        },
        ContentModel::Error { ename, evalue, traceback } => CellModel {
            outputs: c.outputs.push(OutputModel::Error { ename, evalue, traceback }),
            execution_state: ExecutionState::Error,
            ..c
        },
        ContentModel::ExecuteInput => c,
        ContentModel::Other => c,
    }
}

/// The cells after one broadcast event.
pub open spec fn step_cells(
    cells: Seq<CellModel>,
    table: Map<Seq<char>, usize>,
    ev: EventModel,
) -> Seq<CellModel> {
    match event_target(table, ev.parent_id) {
        Some(idx) => if idx < cells.len() {
            cells.update(idx as int, apply_to_cell(cells[idx as int], ev.content))
        } else {
            cells
        },
        None => cells,
    }
}

/// Whether an event ends the request it answers: an idle status.
pub open spec fn is_idle_status(content: ContentModel) -> bool {
    match content {
        ContentModel::Status { execution_state } => execution_state == "idle"@,
        _ => false,
    }
}

/// The table of requests in flight after one broadcast event.
pub open spec fn step_table(table: Map<Seq<char>, usize>, ev: EventModel) -> Map<Seq<char>, usize> {
    match ev.parent_id {
        Some(id) => if is_idle_status(ev.content) {
            table.remove(id)
        } else {
            table
        },
        None => table,
    }
}

pub open spec fn starting_message() -> Seq<char> {
    "Kernel starting..."@
}

/// Kernel status and status message after one broadcast event: a status
/// event sets the kernel status and clears the start-up message.
pub open spec fn status_after(kernel_status: Seq<char>, message: Seq<char>, ev: EventModel) -> (
    Seq<char>,
    Seq<char>,
) {
    match ev.content {
        ContentModel::Status { execution_state } => (
            execution_state,
            if message == starting_message() {
                Seq::empty()
            } else {
                message
            },
        ),
        _ => (kernel_status, message),
    }
}

/// Adds stream text to a cell's outputs (see `merge_stream`).
fn merge_stream_into(outs: &mut Vec<CellOutput>, name: String, text: String)
    ensures
        outputs_view(final(outs)@) == merge_stream(outputs_view(old(outs)@), name@, text@),
{
    let ghost v0 = outputs_view(outs@);
    let mut i: usize = 0;
    while i < outs.len()
        invariant
            outs@ == old(outs)@,
            v0 == outputs_view(outs@),
            i <= outs@.len(),
            first_stream_from(v0, name@, 0) == first_stream_from(v0, name@, i as int),
        decreases outs@.len() - i,
    {
        let mut merged: Option<CellOutput> = None;
        if let CellOutput::Stream { name: n, text: t } = &outs[i] {
            if n.eq(&name) {
                let mut t2 = t.clone();
                t2.append(text.as_str());
                merged = Some(CellOutput::Stream { name: n.clone(), text: t2 });
            }
        }
        if let Some(o) = merged {
            let ghost ov = o@;
            outs.set(i, o);
            proof {
                assert(is_stream_named(v0[i as int], name@));
                assert(outputs_view(outs@) =~= v0.update(i as int, ov));
            }
            return;
        }
        assert(!is_stream_named(v0[i as int], name@));
        i = i + 1;
    }
    let ghost last = CellOutput::Stream { name: name, text: text }@;
    outs.push(CellOutput::Stream { name, text });
    assert(outputs_view(outs@) =~= v0.push(last));
}

/// Applies one event's content to the cell it is attributed to.
fn apply_content(cell: &mut crate::model::Cell, content: EventContent)
    ensures
        final(cell)@ == apply_to_cell(old(cell)@, content@),
{
    let ghost c0 = cell@;
    let ghost cv = content@;
    match content {
        EventContent::Status { execution_state } => {
            let idle = String::from_str("idle");
            if execution_state.eq(&idle) && cell.execution_state == ExecutionState::Running {
                cell.execution_state = ExecutionState::Done;
            }
        },
        EventContent::Stream { name, text } => {
            merge_stream_into(&mut cell.outputs, name, text);
        },
        EventContent::ExecuteResult { execution_count, data } => {
            let o = CellOutput::ExecuteResult { execution_count, data };
            let ghost ov = o@;
            cell.outputs.push(o);
            cell.execution_count = Some(execution_count);
            assert(outputs_view(cell.outputs@) =~= c0.outputs.push(ov));
        },
        EventContent::DisplayData { data } => {
            let o = CellOutput::DisplayData { data };
            let ghost ov = o@;
            cell.outputs.push(o);
            assert(outputs_view(cell.outputs@) =~= c0.outputs.push(ov));
        },
        EventContent::Error { ename, evalue, traceback } => {
            let o = CellOutput::Error { ename, evalue, traceback };
            let ghost ov = o@;
            cell.outputs.push(o);
            cell.execution_state = ExecutionState::Error;
            assert(outputs_view(cell.outputs@) =~= c0.outputs.push(ov));
        },
        EventContent::ExecuteInput => {},
        EventContent::Other => {},
    }
}

/// The table after recording each of `reqs` (identifier, cell), in order.
pub open spec fn record_all(table: Map<Seq<char>, usize>, reqs: Seq<(Seq<char>, usize)>) -> Map<
    Seq<char>,
    usize,
>
    decreases reqs.len(),
{
    if reqs.len() == 0 {
        table
    } else {
        record_all(table.insert(reqs[0].0, reqs[0].1), reqs.drop_first())
    }
}

/// Execute requests sent one after another, before any of them ends, and
/// with identifiers that are distinct and not yet in the table, hold one
/// entry each: the table grows by their number, maps each identifier to
/// the cell that sent it, and holds nothing else new.
pub proof fn lemma_requests_in_flight(table: Map<Seq<char>, usize>, reqs: Seq<(Seq<char>, usize)>)
    requires
        table.dom().finite(),
        forall|i: int, j: int| 0 <= i < j < reqs.len() ==> reqs[i].0 != reqs[j].0,
        forall|i: int| 0 <= i < reqs.len() ==> !table.contains_key(#[trigger] reqs[i].0),
    ensures
        record_all(table, reqs).dom().finite(),
        record_all(table, reqs).len() == table.len() + reqs.len(),
        forall|i: int|
            0 <= i < reqs.len() ==> record_all(table, reqs).contains_key(#[trigger] reqs[i].0)
                && record_all(table, reqs)[reqs[i].0] == reqs[i].1,
        forall|k: Seq<char>| #[trigger]
            record_all(table, reqs).contains_key(k) <==> table.contains_key(k) || exists|i: int|
                0 <= i < reqs.len() && reqs[i].0 == k,
        forall|k: Seq<char>|
            table.contains_key(k) ==> #[trigger] record_all(table, reqs)[k] == table[k],
    decreases reqs.len(),
{
    if reqs.len() > 0 {
        let t1 = table.insert(reqs[0].0, reqs[0].1);
        let rest = reqs.drop_first();
        assert forall|i: int| 0 <= i < rest.len() implies !t1.contains_key(#[trigger] rest[i].0) by {
            assert(rest[i] == reqs[i + 1]);
            assert(reqs[0].0 != reqs[i + 1].0);
        }
        assert forall|i: int, j: int| 0 <= i < j < rest.len() implies rest[i].0 != rest[j].0 by {
            assert(rest[i] == reqs[i + 1] && rest[j] == reqs[j + 1]);
        }
        lemma_requests_in_flight(t1, rest);
        let r = record_all(table, reqs);
        assert(r == record_all(t1, rest));
        assert forall|i: int| 0 <= i < reqs.len() implies r.contains_key(#[trigger] reqs[i].0)
            && r[reqs[i].0] == reqs[i].1 by {
            if i > 0 {
                assert(rest[i - 1] == reqs[i]);
            } else {
                assert(t1.contains_key(reqs[0].0));
                assert(r[reqs[0].0] == t1[reqs[0].0]);
            }
        }
        assert forall|k: Seq<char>| table.contains_key(k) implies #[trigger] r[k] == table[k] by {
            assert(t1.contains_key(k));
            assert(k != reqs[0].0);
        }
        assert forall|k: Seq<char>| #[trigger] r.contains_key(k) <==> table.contains_key(k) || exists|
            i: int,
        | 0 <= i < reqs.len() && reqs[i].0 == k by {
            if r.contains_key(k) && !table.contains_key(k) && k != reqs[0].0 {
                let m = choose|m: int| 0 <= m < rest.len() && rest[m].0 == k;
                assert(reqs[m + 1] == rest[m]);
            }
            if exists|i: int| 0 <= i < reqs.len() && reqs[i].0 == k {
                let i = choose|i: int| 0 <= i < reqs.len() && reqs[i].0 == k;
                if i > 0 {
                    assert(rest[i - 1] == reqs[i]);
                }
            }
        }
    }
}

/// An event changes no cell but the one that issued the request it answers.
pub proof fn lemma_event_touches_only_its_cell(
    cells: Seq<CellModel>,
    table: Map<Seq<char>, usize>,
    ev: EventModel,
)
    ensures
        step_cells(cells, table, ev).len() == cells.len(),
        forall|j: int|
            0 <= j < cells.len() && event_target(table, ev.parent_id) != Some(j as usize)
                ==> #[trigger] step_cells(cells, table, ev)[j] == cells[j],
{
}

/// Events answering requests of two different cells may arrive in either
/// order: the cells and the table end the same.
pub proof fn lemma_interleaving_commutes(
    cells: Seq<CellModel>,
    table: Map<Seq<char>, usize>,
    a: EventModel,
    b: EventModel,
)
    requires
        a.parent_id matches Some(ia) && table.contains_key(ia),
        b.parent_id matches Some(ib) && table.contains_key(ib),
        table[a.parent_id->0] != table[b.parent_id->0],
    ensures
        step_cells(step_cells(cells, table, a), step_table(table, a), b) == step_cells(
            step_cells(cells, table, b),
            step_table(table, b),
            a,
        ),
        step_table(step_table(table, a), b) == step_table(step_table(table, b), a),
{
    let ia = a.parent_id->0;
    let ib = b.parent_id->0;
    assert(ia != ib);
    assert(event_target(step_table(table, a), b.parent_id) == event_target(table, b.parent_id));
    assert(event_target(step_table(table, b), a.parent_id) == event_target(table, a.parent_id));
    let x = step_cells(step_cells(cells, table, a), step_table(table, a), b);
    let y = step_cells(step_cells(cells, table, b), step_table(table, b), a);
    assert(x =~= y);
    assert(step_table(step_table(table, a), b) =~= step_table(step_table(table, b), a));
}

/// Two stream texts for the same stream, one after the other, end in one
/// record holding their concatenation in arrival order.
pub proof fn lemma_stream_texts_concatenate(
    outs: Seq<OutputModel>,
    name: Seq<char>,
    t1: Seq<char>,
    t2: Seq<char>,
)
    ensures
        merge_stream(merge_stream(outs, name, t1), name, t2) == merge_stream(outs, name, t1 + t2),
{
    let j = first_stream_from(outs, name, 0);
    let once = merge_stream(outs, name, t1);
    if j < 0 {
        lemma_first_stream_after_push(outs, name, t1, 0);
        assert(first_stream_from(once, name, 0) == outs.len());
        assert(merge_stream(once, name, t2) =~= merge_stream(outs, name, t1 + t2));
    } else {
        lemma_first_stream_range(outs, name, 0);
        lemma_first_stream_after_update(outs, name, t1, 0, j);
        assert(first_stream_from(once, name, 0) == j);
        assert(stream_text(once[j]) == stream_text(outs[j]) + t1);
        assert((stream_text(outs[j]) + t1) + t2 =~= stream_text(outs[j]) + (t1 + t2));
        assert(merge_stream(once, name, t2) =~= merge_stream(outs, name, t1 + t2));
    }
}

/// Whether no two stream records of `outs` have the same name.
pub open spec fn streams_unique(outs: Seq<OutputModel>) -> bool {
    forall|i: int, j: int|
        0 <= i < j < outs.len() ==> !(#[trigger] outs[i] is Stream && #[trigger] outs[j] is Stream
            && stream_name(outs[i]) == stream_name(outs[j]))
}

pub open spec fn stream_name(o: OutputModel) -> Seq<char> {
    match o {
        OutputModel::Stream { name, .. } => name,
        _ => Seq::empty(),
    }
}

/// A cell never holds two records for the same stream: no event creates a
/// second one.
pub proof fn lemma_streams_stay_unique(c: CellModel, content: ContentModel)
    requires
        streams_unique(c.outputs),
    ensures
        streams_unique(apply_to_cell(c, content).outputs),
{
    let outs = c.outputs;
    match content {
        ContentModel::Stream { name, text } => {
            let j = first_stream_from(outs, name, 0);
            lemma_first_stream_range(outs, name, 0);
            let r = merge_stream(outs, name, text);
            assert forall|a: int, b: int| 0 <= a < b < r.len() implies !(#[trigger] r[a] is Stream
                && #[trigger] r[b] is Stream && stream_name(r[a]) == stream_name(r[b])) by {
                if j < 0 {
                    if b == outs.len() {
                        assert(r[a] == outs[a]);
                        assert(!is_stream_named(outs[a], name));
                    } else {
                        assert(r[a] == outs[a] && r[b] == outs[b]);
                    }
                } else {
                    if a == j {
                        assert(r[b] == outs[b]);
                        assert(stream_name(r[a]) == stream_name(outs[j]));
                    } else if b == j {
                        assert(r[a] == outs[a]);
                        assert(stream_name(r[b]) == stream_name(outs[j]));
                    } else {
                        assert(r[a] == outs[a] && r[b] == outs[b]);
                    }
                }
            }
        },
        ContentModel::ExecuteResult { execution_count, data } => {
            let r = apply_to_cell(c, content).outputs;
            assert forall|a: int, b: int| 0 <= a < b < r.len() implies !(#[trigger] r[a] is Stream
                && #[trigger] r[b] is Stream && stream_name(r[a]) == stream_name(r[b])) by {
                assert(r[a] == outs[a]);
                if b < outs.len() {
                    assert(r[b] == outs[b]);
                }
            }
        },
        ContentModel::DisplayData { data } => {
            let r = apply_to_cell(c, content).outputs;
            assert forall|a: int, b: int| 0 <= a < b < r.len() implies !(#[trigger] r[a] is Stream
                && #[trigger] r[b] is Stream && stream_name(r[a]) == stream_name(r[b])) by {
                assert(r[a] == outs[a]);
                if b < outs.len() {
                    assert(r[b] == outs[b]);
                }
            }
        },
        ContentModel::Error { ename, evalue, traceback } => {
            let r = apply_to_cell(c, content).outputs;
            assert forall|a: int, b: int| 0 <= a < b < r.len() implies !(#[trigger] r[a] is Stream
                && #[trigger] r[b] is Stream && stream_name(r[a]) == stream_name(r[b])) by {
                assert(r[a] == outs[a]);
                if b < outs.len() {
                    assert(r[b] == outs[b]);
                }
            }
        },
        _ => {},
    }
}

proof fn lemma_first_stream_range(outs: Seq<OutputModel>, name: Seq<char>, i: int)
    requires
        0 <= i,
    ensures
        first_stream_from(outs, name, i) >= 0 ==> {
            &&& i <= first_stream_from(outs, name, i) < outs.len()
            &&& is_stream_named(outs[first_stream_from(outs, name, i)], name)
            &&& forall|k: int|
                i <= k < first_stream_from(outs, name, i) ==> !is_stream_named(
                    #[trigger] outs[k],
                    name,
                )
        },
        first_stream_from(outs, name, i) < 0 ==> forall|k: int|
            i <= k < outs.len() ==> !is_stream_named(#[trigger] outs[k], name),
    decreases outs.len() - i,
{
    if i < outs.len() && !is_stream_named(outs[i], name) {
        lemma_first_stream_range(outs, name, i + 1);
    }
}

proof fn lemma_first_stream_after_push(
    outs: Seq<OutputModel>,
    name: Seq<char>,
    text: Seq<char>,
    i: int,
)
    requires
        0 <= i <= outs.len(),
        first_stream_from(outs, name, i) < 0,
    ensures
        first_stream_from(outs.push(OutputModel::Stream { name, text }), name, i) == outs.len(),
    decreases outs.len() - i,
{
    if i < outs.len() {
        assert(outs.push(OutputModel::Stream { name, text })[i] == outs[i]);
        lemma_first_stream_after_push(outs, name, text, i + 1);
    }
}

proof fn lemma_first_stream_after_update(
    outs: Seq<OutputModel>,
    name: Seq<char>,
    text: Seq<char>,
    i: int,
    j: int,
)
    requires
        0 <= i <= j < outs.len(),
        first_stream_from(outs, name, i) == j,
    ensures
        first_stream_from(
            outs.update(j, OutputModel::Stream { name, text: stream_text(outs[j]) + text }),
            name,
            i,
        ) == j,
    decreases j - i,
{
    if i < j {
        lemma_first_stream_after_update(outs, name, text, i + 1, j);
    }
}

/// Once an error has landed on a cell, a later idle status answering the
/// same request leaves it in `Error`.
pub proof fn lemma_error_is_sticky(
    cells: Seq<CellModel>,
    table: Map<Seq<char>, usize>,
    err: EventModel,
    idle: EventModel,
)
    requires
        err.parent_id matches Some(id) && table.contains_key(id) && table[id] < cells.len(),
        err.content is Error,
        idle.parent_id == err.parent_id,
        is_idle_status(idle.content),
    ensures
        ({
            let after = step_cells(step_cells(cells, table, err), step_table(table, err), idle);
            after[table[err.parent_id->0] as int].execution_state == ExecutionState::Error
        }),
{
}

/// An event that answers no request in flight (one from before a restart,
/// say, or a broadcast) changes neither the cells nor the table; after a
/// restart the table is empty, so every event is of that kind until new
/// requests are sent.
pub proof fn lemma_stale_event_ignored(
    cells: Seq<CellModel>,
    table: Map<Seq<char>, usize>,
    ev: EventModel,
)
    requires
        ev.parent_id matches Some(id) ==> !table.contains_key(id),
    ensures
        step_cells(cells, table, ev) == cells,
        step_table(table, ev) == table,
{
    assert(step_table(table, ev) =~= table);
}

/// The state the foreground loop owns: the notebook, the requests in
/// flight, and what the status line shows.
pub struct Session {
    pub notebook: Notebook,
    /// Request identifier to the index of the cell that issued it.
    pub executing: PendingTable,
    /// The kernel's last broadcast execution state.
    pub kernel_status: String,
    /// The message shown to the user.
    pub status_message: String,
}

impl Session {
    pub open spec fn wf(&self) -> bool {
        self.executing.wf()
    }

    /// The requests in flight: request identifier to cell index.
    pub open spec fn pending(&self) -> Map<Seq<char>, usize> {
        self.executing@
    }

    pub open spec fn cells(&self) -> Seq<CellModel> {
        cells_view(self.notebook.cells@)
    }

    /// A session on `notebook`, with no request in flight and the kernel
    /// still starting.
    pub fn new(notebook: Notebook) -> (r: Session)
        ensures
            r.wf(),
            r.pending() == Map::<Seq<char>, usize>::empty(),
            r.notebook == notebook,
            r.kernel_status@ == "starting"@,
            r.status_message@ == starting_message(),
    {
        Session {
            notebook,
            executing: PendingTable::new(),
            kernel_status: String::from_str("starting"),
            status_message: String::from_str("Kernel starting..."),
        }
    }

    /// Applies one broadcast event: a status updates the kernel status, an
    /// idle status ends the request it answers, and any event answering a
    /// request in flight updates that request's cell (see `step_cells`).
    /// Events answering no request in flight change no cell.
    pub fn handle_iopub(&mut self, ev: IopubEvent)
        requires
            old(self).wf(),
        ensures
            final(self).wf(),
            final(self).cells() == step_cells(old(self).cells(), old(self).pending(), ev@),
            final(self).pending() == step_table(old(self).pending(), ev@),
            final(self).notebook.metadata == old(self).notebook.metadata,
            final(self).notebook.file_path == old(self).notebook.file_path,
            final(self).notebook.dirty == old(self).notebook.dirty,
            (final(self).kernel_status@, final(self).status_message@) == status_after(
                old(self).kernel_status@,
                old(self).status_message@,
                ev@,
            ),
    {
        let ghost cells0 = self.cells();
        let ghost table0 = self.pending();
        let ghost evm = ev@;
        let IopubEvent { parent_id, content } = ev;
        let idle = String::from_str("idle");
        let is_idle = match &content {
            EventContent::Status { execution_state } => execution_state.eq(&idle),
            _ => false,
        };
        if let EventContent::Status { execution_state } = &content {
            self.kernel_status = execution_state.clone();
            let starting = String::from_str("Kernel starting...");
            if self.status_message.eq(&starting) {
                self.status_message = String::new();
            }
        }
        let target = match &parent_id {
            Some(id) => if is_idle {
                self.executing.remove(id)
            } else {
                self.executing.get(id)
            },
            None => None,
        };
        assert(target == event_target(table0, evm.parent_id));
        if let Some(idx) = target {
            if idx < self.notebook.cells.len() {
                let ghost before = self.notebook.cells@;
                apply_content(&mut self.notebook.cells[idx], content);
                assert(cells_view(self.notebook.cells@) =~= cells0.update(
                    idx as int,
                    apply_to_cell(cells0[idx as int], evm.content),
                ));
            }
        }
    }

    /// Handles one message from the kernel connection.
    pub fn handle_kernel_message(&mut self, msg: KernelMessage)
        requires
            old(self).wf(),
        ensures
            final(self).wf(),
            match msg {
                KernelMessage::IoPub(ev) => {
                    &&& final(self).cells() == step_cells(old(self).cells(), old(self).pending(), ev@)
                    &&& final(self).pending() == step_table(old(self).pending(), ev@)
                    &&& (final(self).kernel_status@, final(self).status_message@) == status_after(
                        old(self).kernel_status@,
                        old(self).status_message@,
                        ev@,
                    )
                    &&& final(self).notebook.metadata == old(self).notebook.metadata
                    &&& final(self).notebook.file_path == old(self).notebook.file_path
                    &&& final(self).notebook.dirty == old(self).notebook.dirty
                },
                KernelMessage::ShellReply => *final(self) == *old(self),
                KernelMessage::IoPubError(e) => {
                    &&& final(self).status_message@ == "IOPub error: "@ + e@
                    &&& final(self).notebook == old(self).notebook
                    &&& final(self).pending() == old(self).pending()
                    &&& final(self).kernel_status == old(self).kernel_status
                },
            },
    {
        match msg {
            KernelMessage::IoPub(ev) => self.handle_iopub(ev),
            KernelMessage::ShellReply => {},
            KernelMessage::IoPubError(e) => {
                let mut m = String::from_str("IOPub error: ");
                m.append(e.as_str());
                self.status_message = m;
            },
        }
    }

    /// Prepares cell `idx` to run. A code cell loses its outputs, becomes
    /// `Running`, and its source is returned to be sent; a markdown cell is
    /// marked rendered; a raw cell is left as it is.
    pub fn start_cell(&mut self, idx: usize) -> (r: Option<String>)
        requires
            old(self).wf(),
            idx < old(self).notebook.cells@.len(),
        ensures
            final(self).wf(),
            final(self).pending() == old(self).pending(),
            final(self).notebook.metadata == old(self).notebook.metadata,
            final(self).notebook.file_path == old(self).notebook.file_path,
            final(self).notebook.dirty == old(self).notebook.dirty,
            final(self).kernel_status == old(self).kernel_status,
            final(self).status_message == old(self).status_message,
            ({
                let c = old(self).cells()[idx as int];
                match c.cell_type {
                    CellType::Code => {
                        &&& r matches Some(code) && code@ == c.source
                        &&& final(self).cells() == old(self).cells().update(
                            idx as int,
                            CellModel {
                                outputs: Seq::empty(),
                                execution_state: ExecutionState::Running,
                                ..c
                            },
                        )
                    },
                    CellType::Markdown => {
                        &&& r is None
                        &&& final(self).cells() == old(self).cells().update(
                            idx as int,
                            CellModel { rendered: true, ..c },
                        )
                    },
                    CellType::Raw => {
                        &&& r is None
                        &&& final(self).cells() == old(self).cells()
                    },
                }
            }),
    {
        let ghost cells0 = self.cells();
        let kind = self.notebook.cells[idx].cell_type;
        match kind {
            CellType::Markdown => {
                self.notebook.cells[idx].rendered = true;
                assert(self.cells() =~= cells0.update(
                    idx as int,
                    CellModel { rendered: true, ..cells0[idx as int] },
                ));
                None
            },
            CellType::Raw => None,
            CellType::Code => {
                let code = self.notebook.cells[idx].source.clone();
                self.notebook.cells[idx].clear_outputs();
                self.notebook.cells[idx].execution_state = ExecutionState::Running;
                assert(self.cells() =~= cells0.update(
                    idx as int,
                    CellModel {
                        outputs: Seq::empty(),
                        execution_state: ExecutionState::Running,
                        ..cells0[idx as int]
                    },
                ));
                Some(code)
            },
        }
    }

    /// Like `start_cell`, for the cell the user asked to run: a raw cell
    /// also sets the status message to say that only code cells run.
    pub fn start_selected_cell(&mut self, idx: usize) -> (r: Option<String>)
        requires
            old(self).wf(),
            idx < old(self).notebook.cells@.len(),
        ensures
            final(self).wf(),
            final(self).pending() == old(self).pending(),
            final(self).kernel_status == old(self).kernel_status,
            old(self).cells()[idx as int].cell_type == CellType::Raw ==> {
                &&& r is None
                &&& final(self).cells() == old(self).cells()
                &&& final(self).status_message@ == "Can only execute code cells"@
            },
            old(self).cells()[idx as int].cell_type == CellType::Code ==> {
                &&& r matches Some(code) && code@ == old(self).cells()[idx as int].source
                &&& final(self).cells() == old(self).cells().update(
                    idx as int,
                    CellModel {
                        outputs: Seq::empty(),
                        execution_state: ExecutionState::Running,
                        ..old(self).cells()[idx as int]
                    },
                )
                &&& final(self).status_message == old(self).status_message
            },
            old(self).cells()[idx as int].cell_type == CellType::Markdown ==> {
                &&& r is None
                &&& final(self).cells() == old(self).cells().update(
                    idx as int,
                    CellModel { rendered: true, ..old(self).cells()[idx as int] },
                )
                &&& final(self).status_message == old(self).status_message
            },
    {
        let is_raw = self.notebook.cells[idx].cell_type == CellType::Raw;
        let r = self.start_cell(idx);
        if is_raw {
            self.status_message = String::from_str("Can only execute code cells");
        }
        r
    }

    /// Records that request `id` was sent for cell `idx`.
    pub fn record_request(&mut self, id: String, idx: usize)
        requires
            old(self).wf(),
        ensures
            final(self).wf(),
            final(self).pending() == old(self).pending().insert(id@, idx),
            final(self).notebook == old(self).notebook,
            final(self).kernel_status == old(self).kernel_status,
            final(self).status_message == old(self).status_message,
    {
        self.executing.insert(id, idx);
    }

    /// Notes that every cell has been sent to run.
    pub fn run_all_started(&mut self)
        ensures
            final(self).status_message@ == "Running all cells..."@,
            final(self).notebook == old(self).notebook,
            final(self).executing == old(self).executing,
            final(self).kernel_status == old(self).kernel_status,
    {
        self.status_message = String::from_str("Running all cells...");
    }

    /// Forgets every request in flight ahead of a kernel restart: events
    /// that still arrive for them are attributed to no cell.
    pub fn begin_restart(&mut self)
        ensures
            final(self).wf(),
            final(self).pending() == Map::<Seq<char>, usize>::empty(),
            final(self).notebook == old(self).notebook,
            final(self).kernel_status@ == "restarting"@,
            final(self).status_message@ == "Restarting kernel..."@,
    {
        self.status_message = String::from_str("Restarting kernel...");
        self.kernel_status = String::from_str("restarting");
        self.executing.clear();
    }

    /// Notes that the kernel is back after a restart.
    pub fn restart_done(&mut self)
        ensures
            final(self).status_message@ == "Kernel restarted"@,
            final(self).notebook == old(self).notebook,
            final(self).executing == old(self).executing,
            final(self).kernel_status == old(self).kernel_status,
    {
        self.status_message = String::from_str("Kernel restarted");
    }

    /// The table of requests in flight.
    pub fn executing(&self) -> (r: &PendingTable)
        requires
            self.wf(),
        ensures
            r.wf(),
            r@ == self.pending(),
    {
        &self.executing
    }
}

} // verus!
