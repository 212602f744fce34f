//! Error kinds and error records.

use vstd::prelude::*;
use crate::text::{decimal, push_decimal, push_spaces, spaces};

verus! {

/// How many characters of the program are shown on each side of a fault.
pub const ERR_AREA_RANGE: usize = 10;

/// The kinds of failure. The two bracket kinds are found before a program
/// runs; the others stop a run at the symbol that caused them.
#[derive(Clone, Copy, Debug, PartialEq, Eq, Structural)]
pub enum BFParseError {
    /// A `[` that no `]` closes.
    BraNoClose,
    /// A `]` that no `[` opens.
    BraNoOpen,
    /// An increment of a cell that holds 255.
    CellMaxConstrOvrfl,
    /// A decrement of a cell that holds 0.
    CellMinConstrOvrfl,
    /// A move to the right of the last cell.
    CellNoMore,
    /// A move to the left of the first cell.
    CellNegativeIdx,
    /// The input source had no byte to give.
    IoStdinErr,
    /// The program text could not be read.
    IoReadingErr,
    /// A symbol that is neither an instruction nor whitespace.
    IoUndefChar,
}

impl BFParseError {
    /// The text that describes each kind.
    pub open spec fn message_spec(self) -> Seq<char> {
        match self {
            BFParseError::BraNoClose => "Opening bracket without closing"@,
            BFParseError::BraNoOpen => "Closing bracket without opening"@,
            BFParseError::CellMaxConstrOvrfl => "Max cell value border exceeded"@,
            BFParseError::CellMinConstrOvrfl => "Min cell value border exceeded"@,
            BFParseError::CellNoMore => "Out of cells"@,
            BFParseError::CellNegativeIdx => "Cell pointer is negative"@,
            BFParseError::IoStdinErr => "Error while reading from stdin"@,
            BFParseError::IoReadingErr => "Error reading from file"@,
            BFParseError::IoUndefChar => "Undefined symbol"@,
        }
    }

    /// Whether a record of this kind shows the offending value.
    pub open spec fn shows_value_spec(self) -> bool {
        self == BFParseError::IoUndefChar
    }

    /// The human-readable description of the kind.
    pub fn message(&self) -> (msg: &'static str)
        ensures
            msg@ == self.message_spec(),
    {
        match self {
            BFParseError::BraNoClose => "Opening bracket without closing",
            BFParseError::BraNoOpen => "Closing bracket without opening",
            BFParseError::CellMaxConstrOvrfl => "Max cell value border exceeded",
            BFParseError::CellMinConstrOvrfl => "Min cell value border exceeded",
            BFParseError::CellNoMore => "Out of cells",
            BFParseError::CellNegativeIdx => "Cell pointer is negative",
            BFParseError::IoStdinErr => "Error while reading from stdin",
            BFParseError::IoReadingErr => "Error reading from file",
            BFParseError::IoUndefChar => "Undefined symbol",
        }
    }

    /// Only an undefined symbol is worth quoting back.
    pub fn shows_value(&self) -> (b: bool)
        ensures
            b == self.shows_value_spec(),
    {
        match self {
            BFParseError::IoUndefChar => true,
            _ => false,
        }
    }
}

/// The mathematical content of an error record.
pub struct ErrorRecord {
    /// What names the source of the program, if anything does.
    pub file: Option<Seq<char>>,
    /// The kind of failure.
    pub kind: BFParseError,
    /// Offset of the offending symbol in the program, if the failure has one.
    pub pos: Option<nat>,
    /// The rendered context: a window of the program and a caret line.
    pub area: Option<Seq<char>>,
    /// The offending value, if any.
    pub args: Option<Seq<char>>,
}

/// The characters of an optional text.
pub open spec fn text_of(text: Option<String>) -> Option<Seq<char>> {
    match text {
        Some(t) => Some(t@),
        None => None,
    }
}

/// An optional offset as a natural number.
pub open spec fn offset_of(pos: Option<usize>) -> Option<nat> {
    match pos {
        Some(p) => Some(p as nat),
        None => None,
    }
}

/// First offset of the window around `pos`: `ERR_AREA_RANGE` to the left,
/// or the start of the program where that comes first.
pub open spec fn window_left(pos: int) -> int {
    if pos >= ERR_AREA_RANGE {
        pos - ERR_AREA_RANGE
    } else {
        0
    }
}

/// Last offset of the window around `pos`: `ERR_AREA_RANGE` to the right,
/// or the last symbol of the program where that comes first.
pub open spec fn window_right(pos: int, len: int) -> int
    recommends
        0 <= pos < len,
{
    if pos + ERR_AREA_RANGE <= len - 1 {
        pos + ERR_AREA_RANGE
    } else {
        len - 1
    }
}

/// The two-line context of the symbol at `pos`: the window of the program,
/// verbatim, and below it a caret under the symbol.
pub open spec fn context_block(program: Seq<char>, pos: nat) -> Seq<char>
    recommends
        pos < program.len(),
{
    let left = window_left(pos as int);
    let right = window_right(pos as int, program.len() as int);
    program.subrange(left, right + 1) + seq!['\n'] + spaces((pos - left) as nat) + seq!['^']
}

/// `text` with one more field on a line of its own, behind the prompt.
pub open spec fn with_field(text: Seq<char>, field: Seq<char>) -> Seq<char> {
    if text.len() == 0 {
        "<!> "@ + field
    } else {
        text + seq!['\n'] + "<!> "@ + field
    }
}

impl ErrorRecord {
    /// The record with its context rendered from `program`. A record without
    /// an offset, or whose offset lies outside the program, is left as it is.
    pub open spec fn with_context(self, program: Seq<char>) -> ErrorRecord {
        match self.pos {
            Some(pos) if pos < program.len() => ErrorRecord {
                area: Some(context_block(program, pos)),
                ..self
            },
            _ => self,
        }
    }

    /// Whether the record points at a symbol of `program` and carries the
    /// context of that symbol.
    pub open spec fn located_in(self, program: Seq<char>) -> bool {
        &&& self.pos is Some
        &&& self.pos->0 < program.len()
        &&& self.area == Some(context_block(program, self.pos->0))
    }

    /// The line that names the source.
    pub open spec fn file_field(self) -> Seq<char> {
        "File: "@ + self.file->0
    }

    /// The line that describes the kind.
    pub open spec fn description_field(self) -> Seq<char> {
        "Description: "@ + self.kind.message_spec()
    }

    /// Whether the record has a value line.
    pub open spec fn has_value_field(self) -> bool {
        self.args is Some && self.kind.shows_value_spec()
    }

    /// The line that quotes the offending value.
    pub open spec fn value_field(self) -> Seq<char> {
        "Value: '"@ + self.args->0 + seq!['\'']
    }

    /// The offset, and below it the context where one was rendered.
    pub open spec fn position_field(self) -> Seq<char> {
        let head = "Position: "@ + decimal(self.pos->0);
        match self.area {
            Some(area) => head + seq!['\n'] + area + seq!['\n'],
            None => head,
        }
    }

    /// The full text of the record. The fields come in a fixed order:
    /// source, description, value, position with context. A field that the
    /// record lacks leaves no line behind.
    pub open spec fn render(self) -> Seq<char> {
        let t0 = Seq::<char>::empty();
        let t1 = if self.file is Some {
            with_field(t0, self.file_field())
        } else {
            t0
        };
        let t2 = with_field(t1, self.description_field());
        let t3 = if self.has_value_field() {
            with_field(t2, self.value_field())
        } else {
            t2
        };
        if self.pos is Some {
            with_field(t3, self.position_field())
        } else {
            t3
        }
    }
}

/// One diagnosed failure.
#[derive(Debug, PartialEq, Eq)]
pub struct BFError {
    /// What names the source of the program, if anything does.
    pub e_file: Option<String>,
    /// The kind of failure.
    pub e_type: BFParseError,
    /// Offset of the offending symbol in the program, if the failure has one.
    pub e_pos: Option<usize>,
    /// The rendered context, once `create_err_area` has made it.
    pub e_area: Option<String>,
    /// The offending value, if any.
    pub e_args: Option<String>,
}

impl View for BFError {
    type V = ErrorRecord;

    open spec fn view(&self) -> ErrorRecord {
        ErrorRecord {
            file: text_of(self.e_file),
            kind: self.e_type,
            pos: offset_of(self.e_pos),
            area: text_of(self.e_area),
            args: text_of(self.e_args),
        }
    }
}

/// The mathematical content of a row of error records.
pub open spec fn records(errors: Seq<BFError>) -> Seq<ErrorRecord> {
    errors.map_values(|e: BFError| e@)
}

/// The content of a row with one more record is the content of the row
/// with the content of that record behind it.
pub proof fn lemma_records_push(errors: Seq<BFError>, e: BFError)
    ensures
        records(errors.push(e)) == records(errors).push(e@),
{
    assert(records(errors.push(e)) =~= records(errors).push(e@));
}

/// Starts a new field of a record's text: a line break unless the text is
/// still empty, then the prompt.
fn begin_field(text: &mut String)
    ensures
        final(text)@ == with_field(old(text)@, Seq::empty()),
{
    proof {
        reveal_strlit("\n");
    }
    if !text.as_str().is_empty() {
        text.append("\n");
    }
    text.append("<!> ");
    assert(text@ =~= with_field(old(text)@, Seq::empty()));
}

impl BFError {
    /// A record of kind `err` at offset `pos` about the value `args`, with
    /// no source named and no context rendered yet.
    pub fn new(err: BFParseError, pos: Option<usize>, args: Option<String>) -> (e: Self)
        ensures
            e@ == (ErrorRecord {
                file: None,
                kind: err,
                pos: offset_of(pos),
                area: None,
                args: text_of(args),
            }),
    {
        BFError { e_file: None, e_type: err, e_pos: pos, e_area: None, e_args: args }
    }

    /// Renders the context of the record from the program text: up to
    /// `ERR_AREA_RANGE` symbols on each side of the offset, and a caret
    /// below the offending one.
    pub fn create_err_area(&mut self, program: &str)
        ensures
            final(self)@ == old(self)@.with_context(program@),
    {
        if let Some(pos) = self.e_pos {
            let len = program.unicode_len();
            if pos < len {
                let left = if pos >= ERR_AREA_RANGE {
                    pos - ERR_AREA_RANGE
                } else {
                    0
                };
                let right = if len - 1 - pos >= ERR_AREA_RANGE {
                    pos + ERR_AREA_RANGE
                } else {
                    len - 1
                };
                proof {
                    reveal_strlit("\n");
                    reveal_strlit("^");
                }
                let mut area = String::from_str(program.substring_char(left, right + 1));
                area.append("\n");
                push_spaces(&mut area, pos - left);
                area.append("^");
                assert(area@ =~= context_block(program@, pos as nat));
                self.e_area = Some(area);
            }
        }
    }

    /// The full text of the record, as it is shown to the user.
    pub fn render(&self) -> (text: String)
        ensures
            text@ == self@.render(),
    {
        proof {
            reveal_strlit("\n");
            reveal_strlit("'");
        }
        let mut text = String::new();
        if let Some(file) = &self.e_file {
            begin_field(&mut text);
            text.append("File: ");
            text.append(file.as_str());
        }
        let ghost t1 = text@;
        assert(t1 =~= if self@.file is Some {
            with_field(Seq::empty(), self@.file_field())
        } else {
            Seq::empty()
        });
        begin_field(&mut text);
        text.append("Description: ");
        text.append(self.e_type.message());
        let ghost t2 = text@;
        assert(t2 =~= with_field(t1, self@.description_field()));
        if let Some(value) = &self.e_args {
            if self.e_type.shows_value() {
                begin_field(&mut text);
                text.append("Value: '");
                text.append(value.as_str());
                text.append("'");
            }
        }
        let ghost t3 = text@;
        assert(t3 =~= if self@.has_value_field() {
            with_field(t2, self@.value_field())
        } else {
            t2
        });
        if let Some(pos) = self.e_pos {
            begin_field(&mut text);
            text.append("Position: ");
            push_decimal(&mut text, pos);
            if let Some(area) = &self.e_area {
                text.append("\n");
                text.append(area.as_str());
                text.append("\n");
            }
            assert(text@ =~= with_field(t3, self@.position_field()));
        }
        text
    }
}

} // verus!
