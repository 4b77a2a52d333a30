//! The notebook: ordered cells, their outputs and execution state.

use vstd::prelude::*;

verus! {

/// The kind of a cell.
#[derive(Clone, Copy, Debug, PartialEq, Eq, Structural)]
pub enum CellType {
    Code,
    Markdown,
    Raw,
}

impl CellType {
    /// The name shown for this kind of cell.
    pub fn label(&self) -> (r: String)
        ensures
            r@ == match *self {
                CellType::Code => "Code"@,
                CellType::Markdown => "Markdown"@,
                CellType::Raw => "Raw"@,
            },
    {
        match self {
            CellType::Code => String::from_str("Code"),
            CellType::Markdown => String::from_str("Markdown"),
            CellType::Raw => String::from_str("Raw"),
        }
    }
}

/// Execution state of one cell.
#[derive(Clone, Copy, Debug, PartialEq, Eq, Structural)]
pub enum ExecutionState {
    Idle,
    Running,
    Done,
    Error,
}

/// One output record of a cell. Rich payloads are lists of
/// (MIME type, payload) pairs.
#[derive(Clone, Debug)]
pub enum CellOutput {
    Stream { name: String, text: String },
    DisplayData { data: Vec<(String, String)> },
    ExecuteResult { execution_count: usize, data: Vec<(String, String)> },
    Error { ename: String, evalue: String, traceback: Vec<String> },
}

/// Mathematical model of an output record.
pub ghost enum OutputModel {
    Stream { name: Seq<char>, text: Seq<char> },
    DisplayData { data: Seq<(Seq<char>, Seq<char>)> },
    ExecuteResult { execution_count: usize, data: Seq<(Seq<char>, Seq<char>)> },
    Error { ename: Seq<char>, evalue: Seq<char>, traceback: Seq<Seq<char>> },
}

pub open spec fn bundle_view(data: Seq<(String, String)>) -> Seq<(Seq<char>, Seq<char>)> {
    data.map_values(|p: (String, String)| (p.0@, p.1@))
}

pub open spec fn lines_view(lines: Seq<String>) -> Seq<Seq<char>> {
    lines.map_values(|s: String| s@)
}

impl View for CellOutput {
    type V = OutputModel;

    open spec fn view(&self) -> OutputModel {
        match self {
            CellOutput::Stream { name, text } => OutputModel::Stream { name: name@, text: text@ },
            CellOutput::DisplayData { data } => OutputModel::DisplayData { data: bundle_view(data@) },
            CellOutput::ExecuteResult { execution_count, data } => OutputModel::ExecuteResult {
                execution_count: *execution_count,
                data: bundle_view(data@),
            },
            CellOutput::Error { ename, evalue, traceback } => OutputModel::Error {
                ename: ename@,
                evalue: evalue@,
                traceback: lines_view(traceback@),
            },
        }
    }
}

pub open spec fn outputs_view(outs: Seq<CellOutput>) -> Seq<OutputModel> {
    outs.map_values(|o: CellOutput| o@)
}

/// One cell of a notebook.
#[derive(Clone, Debug)]
pub struct Cell {
    pub id: String,
    pub cell_type: CellType,
    pub source: String,
    pub outputs: Vec<CellOutput>,
    pub execution_count: Option<usize>,
    pub execution_state: ExecutionState,
    /// Whether a markdown cell is shown rendered rather than as source.
    pub rendered: bool,
}

/// Mathematical model of a cell.
pub ghost struct CellModel {
    pub id: Seq<char>,
    pub cell_type: CellType,
    pub source: Seq<char>,
    pub outputs: Seq<OutputModel>,
    pub execution_count: Option<usize>,
    pub execution_state: ExecutionState,
    pub rendered: bool,
}

impl View for Cell {
    type V = CellModel;

    open spec fn view(&self) -> CellModel {
        CellModel {
            id: self.id@,
            cell_type: self.cell_type,
            source: self.source@,
            outputs: outputs_view(self.outputs@),
            execution_count: self.execution_count,
            execution_state: self.execution_state,
            rendered: self.rendered,
        }
    }
}

pub open spec fn cells_view(cells: Seq<Cell>) -> Seq<CellModel> {
    cells.map_values(|c: Cell| c@)
}

/// Relies on uuid::Uuid::new_v4 and its `Display`: a fresh random
/// identifier, written as 36 hyphenated lowercase hex characters.
#[verifier::external_body]
pub(crate) fn fresh_id() -> (r: String)
    ensures
        r@.len() == 36,
{
    uuid::Uuid::new_v4().to_string()
}

/// A cell as a new cell of the given kind and source is: no outputs, no
/// execution count, `Idle`.
pub open spec fn is_fresh_cell(c: CellModel, kind: CellType, source: Seq<char>) -> bool {
    &&& c.cell_type == kind
    &&& c.source == source
    &&& c.outputs == Seq::<OutputModel>::empty()
    &&& c.execution_count is None
    &&& c.execution_state == ExecutionState::Idle
    &&& !c.rendered
    &&& c.id.len() == 36
}

impl Cell {
    fn fresh(kind: CellType, source: &str) -> (r: Cell)
        ensures
            is_fresh_cell(r@, kind, source@),
    {
        let r = Cell {
            id: fresh_id(),
            cell_type: kind,
            source: String::from_str(source),
            outputs: Vec::new(),
            execution_count: None,
            execution_state: ExecutionState::Idle,
            rendered: false,
        };
        assert(outputs_view(r.outputs@) =~= Seq::empty());
        r
    }

    /// A new code cell with a fresh identifier.
    pub fn new_code(source: &str) -> (r: Cell)
        ensures
            is_fresh_cell(r@, CellType::Code, source@),
    {
        Cell::fresh(CellType::Code, source)
    }

    /// A new markdown cell with a fresh identifier.
    pub fn new_markdown(source: &str) -> (r: Cell)
        ensures
            is_fresh_cell(r@, CellType::Markdown, source@),
    {
        Cell::fresh(CellType::Markdown, source)
    }

    /// A new raw cell with a fresh identifier.
    pub fn new_raw(source: &str) -> (r: Cell)
        ensures
            is_fresh_cell(r@, CellType::Raw, source@),
    {
        Cell::fresh(CellType::Raw, source)
    }

    /// A copy to paste: a fresh identifier, no outputs, `Idle`; kind,
    /// source and execution count kept.
    pub fn fresh_copy(&self) -> (r: Cell)
        ensures
            r@ == (CellModel {
                id: r@.id,
                outputs: Seq::empty(),
                execution_state: ExecutionState::Idle,
                ..self@
            }),
            r@.id.len() == 36,
    {
        let r = Cell {
            id: fresh_id(),
            cell_type: self.cell_type,
            source: self.source.clone(),
            outputs: Vec::new(),
            execution_count: self.execution_count,
            execution_state: ExecutionState::Idle,
            rendered: self.rendered,
        };
        assert(outputs_view(r.outputs@) =~= Seq::empty());
        r
    }

    /// Removes every output and puts the cell back to `Idle`.
    pub fn clear_outputs(&mut self)
        ensures
            final(self)@ == (CellModel {
                outputs: Seq::empty(),
                execution_state: ExecutionState::Idle,
                ..old(self)@
            }),
    {
        self.outputs.clear();
        self.execution_state = ExecutionState::Idle;
        assert(outputs_view(self.outputs@) =~= Seq::empty());
    }
}

/// Notebook-level metadata.
#[derive(Clone, Debug)]
pub struct NotebookMetadata {
    pub kernel_name: Option<String>,
    pub language: Option<String>,
}

/// A notebook: an ordered list of cells.
pub struct Notebook {
    pub cells: Vec<Cell>,
    pub metadata: NotebookMetadata,
    /// Where the notebook is saved, if anywhere.
    pub file_path: Option<String>,
    /// Whether there are unsaved changes.
    pub dirty: bool,
}

impl Notebook {
    /// A new notebook holding one empty code cell, for the python3 kernel.
    pub fn new() -> (r: Notebook)
        ensures
            r.cells@.len() == 1,
            is_fresh_cell(r.cells@[0]@, CellType::Code, Seq::empty()),
            r.metadata.kernel_name matches Some(k) && k@ == "python3"@,
            r.metadata.language matches Some(l) && l@ == "python"@,
            r.file_path is None,
            !r.dirty,
    {
        let first = Cell::new_code("");
        proof {
            reveal_strlit("");
            assert(""@ =~= Seq::<char>::empty());
        }
        let mut cells = Vec::new();
        cells.push(first);
        Notebook {
            cells,
            metadata: NotebookMetadata {
                kernel_name: Some(String::from_str("python3")),
                language: Some(String::from_str("python")),
            },
            file_path: None,
            dirty: false,
        }
    }

    /// Inserts `cell` right after position `index` (at the end when `index`
    /// is past it).
    pub fn insert_cell_after(&mut self, index: usize, cell: Cell)
        ensures
            final(self).cells@ == old(self).cells@.insert(
                if index < old(self).cells@.len() { index + 1 } else { old(self).cells@.len() as int },
                cell,
            ),
            final(self).dirty,
            final(self).metadata == old(self).metadata,
            final(self).file_path == old(self).file_path,
    {
        let at = if index < self.cells.len() { index + 1 } else { self.cells.len() };
        self.cells.insert(at, cell);
        self.dirty = true;
    }

    /// Inserts `cell` at position `index` (at the end when `index` is past it).
    pub fn insert_cell_before(&mut self, index: usize, cell: Cell)
        ensures
            final(self).cells@ == old(self).cells@.insert(
                if index < old(self).cells@.len() { index as int } else { old(self).cells@.len() as int },
                cell,
            ),
            final(self).dirty,
            final(self).metadata == old(self).metadata,
            final(self).file_path == old(self).file_path,
    {
        let at = if index < self.cells.len() { index } else { self.cells.len() };
        self.cells.insert(at, cell);
        self.dirty = true;
    }

    /// Switches cell `index` between code and markdown (a raw cell becomes
    /// code) and clears its outputs.
    pub fn toggle_cell_type(&mut self, index: usize)
        requires
            index < old(self).cells@.len(),
        ensures
            final(self).cells@.len() == old(self).cells@.len(),
            forall|i: int|
                0 <= i < old(self).cells@.len() && i != index ==> final(self).cells@[i]
                    == old(self).cells@[i],
            final(self).cells@[index as int]@ == (CellModel {
                cell_type: match old(self).cells@[index as int].cell_type {
                    CellType::Code => CellType::Markdown,
                    _ => CellType::Code,
                },
                outputs: Seq::empty(),
                execution_state: ExecutionState::Idle,
                ..old(self).cells@[index as int]@
            }),
            final(self).dirty,
            final(self).metadata == old(self).metadata,
            final(self).file_path == old(self).file_path,
    {
        let kind = match self.cells[index].cell_type {
            CellType::Code => CellType::Markdown,
            _ => CellType::Code,
        };
        self.cells[index].cell_type = kind;
        self.cells[index].clear_outputs();
        self.dirty = true;
    }

    /// Removes and returns the cell at `index`; the last remaining cell is
    /// never removed.
    pub fn delete_cell(&mut self, index: usize) -> (r: Option<Cell>)
        ensures
            old(self).cells@.len() > 1 && index < old(self).cells@.len() ==> {
                &&& r == Some(old(self).cells@[index as int])
                &&& final(self).cells@ == old(self).cells@.remove(index as int)
                &&& final(self).dirty
            },
            !(old(self).cells@.len() > 1 && index < old(self).cells@.len()) ==> {
                &&& r is None
                &&& final(self).cells@ == old(self).cells@
                &&& final(self).dirty == old(self).dirty
            },
            final(self).metadata == old(self).metadata,
            final(self).file_path == old(self).file_path,
    {
        if self.cells.len() <= 1 {
            return None;
        }
        if index < self.cells.len() {
            self.dirty = true;
            Some(self.cells.remove(index))
        } else {
            None
        }
    }
}

} // verus!
