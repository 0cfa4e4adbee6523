//! SQL over the telemetry: which statements are let through, and what the
//! tables hold.

use crate::doubles::{bits_are_finite, is_finite_bits};
use crate::json::{json_object, object};
use crate::labels::Labels;
use crate::metrics::MetricPoint;
use crate::queries::{LogQuery, MetricQuery, TraceQuery};
use crate::spans::{LogRecord};
use crate::text::{ascii_upper, char_is_whitespace, chars, is_whitespace, opt_text, same, text, trim_start};
use crate::time::{instant_text, Timestamp};
use vstd::prelude::*;

verus! {

/// Rows loaded per table for one query. A query has no time window of its own,
/// so without a cap it would try to hold the whole retained history in memory.
pub const ROW_LIMIT: u32 = 200000;

/// How many rows each table can contribute to one query.
pub fn row_limit() -> (r: u32)
    ensures
        r == 200000,
{
    ROW_LIMIT
}

/// How much of a table a query ran over.
#[derive(Debug)]
pub struct Contribution {
    pub table: String,
    pub rows: usize,
    /// Whether older rows may have been left out.
    pub truncated: bool,
}

/// What a table contributed, so that a caller can tell a complete answer from
/// one over the newest rows only.
pub fn contribution(table: &str, rows: usize) -> (r: Contribution)
    ensures
        r.table@ == table@,
        r.rows == rows,
        r.truncated == (rows >= ROW_LIMIT),
{
    Contribution { table: table.to_owned(), rows, truncated: rows >= ROW_LIMIT as usize }
}

/// The queries that load exactly what SQL execution needs.
pub fn source_queries() -> (r: (TraceQuery, LogQuery, MetricQuery))
    ensures
        r.0.is_everything() && r.0.limit == Some(ROW_LIMIT),
        r.1.is_everything() && r.1.limit == Some(ROW_LIMIT),
        r.2.is_everything() && r.2.limit == Some(ROW_LIMIT),
{
    let mut t = TraceQuery::default();
    t.limit = Some(ROW_LIMIT);
    let mut l = LogQuery::default();
    l.limit = Some(ROW_LIMIT);
    let mut m = MetricQuery::default();
    m.limit = Some(ROW_LIMIT);
    (t, l, m)
}

// ── Reads only ──────────────────────────────────────────────────────

/// The first position that holds whitespace, or the end.
pub open spec fn word_end(s: Seq<char>, from: int) -> int
    decreases s.len() - from,
{
    if from < 0 || from >= s.len() || is_whitespace(s[from]) {
        from
    } else {
        word_end(s, from + 1)
    }
}

/// The first word of a statement, in upper case.
pub open spec fn leading_word(sql: Seq<char>) -> Seq<char> {
    let s = trim_start(sql);
    s.take(word_end(s, 0)).map_values(|c: char| ascii_upper(c))
}

/// What a place in a statement lies in.
#[derive(Debug, Clone, Copy, PartialEq, Eq, Structural)]
pub enum Place {
    /// Between the quoted parts and the comments.
    Code,
    /// Behind a minus sign, of which a second one opens a comment.
    Minus,
    /// Behind a slash, behind which a star opens a comment.
    Slash,
    /// In a string literal.
    Literal,
    /// In an identifier between double quotes.
    Name,
    /// In an identifier between backquotes.
    BackName,
    /// In a comment up to the end of the line.
    LineComment,
    /// In a comment of this depth.
    Comment(usize),
    /// The same, behind a star.
    CommentStar(usize),
    /// The same, behind a slash.
    CommentSlash(usize),
}

/// Where a character leads between the quoted parts and the comments.
pub open spec fn opened(c: char) -> Place {
    if c == '\'' {
        Place::Literal
    } else if c == '"' {
        Place::Name
    } else if c == '`' {
        Place::BackName
    } else if c == '-' {
        Place::Minus
    } else if c == '/' {
        Place::Slash
    } else {
        Place::Code
    }
}

/// Where a character leads inside a comment of some depth.
pub open spec fn commented(depth: usize, c: char) -> Place {
    if c == '*' {
        Place::CommentStar(depth)
    } else if c == '/' {
        Place::CommentSlash(depth)
    } else {
        Place::Comment(depth)
    }
}

/// Where a character leads. A quote inside an identifier or a comment opens no
/// literal, and comments between `/*` and `*/` nest. A doubled quote leaves a
/// literal or an identifier and enters it again, and so stands for itself.
pub open spec fn stepped(at: Place, c: char) -> Place {
    match at {
        Place::Code => opened(c),
        Place::Minus => if c == '-' {
            Place::LineComment
        } else {
            opened(c)
        },
        Place::Slash => if c == '*' {
            Place::Comment(1)
        } else {
            opened(c)
        },
        Place::Literal => if c == '\'' {
            Place::Code
        } else {
            at
        },
        Place::Name => if c == '"' {
            Place::Code
        } else {
            at
        },
        Place::BackName => if c == '`' {
            Place::Code
        } else {
            at
        },
        Place::LineComment => if c == '\n' {
            Place::Code
        } else {
            at
        },
        Place::Comment(depth) => commented(depth, c),
        Place::CommentStar(depth) => if c != '/' {
            commented(depth, c)
        } else if depth <= 1 {
            Place::Code
        } else {
            Place::Comment((depth - 1) as usize)
        },
        Place::CommentSlash(depth) => if c == '*' {
            Place::Comment((depth + 1) as usize)
        } else {
            commented(depth, c)
        },
    }
}

/// What lies behind a text: the place that its characters lead to.
pub open spec fn place_after(s: Seq<char>) -> Place
    decreases s.len(),
{
    if s.len() == 0 {
        Place::Code
    } else {
        stepped(place_after(s.drop_last()), s.last())
    }
}

/// Whether a separator stands at a position, outside of string literals.
pub open spec fn separates(s: Seq<char>, i: int) -> bool {
    0 <= i < s.len() && s[i] == ';' && !(place_after(s.take(i)) is Literal)
}

/// Whether a second statement rides along: something stands after a separator.
pub open spec fn rides_along(s: Seq<char>) -> bool {
    exists|i: int, j: int|
        0 <= i < j < s.len() && #[trigger] separates(s, i) && !is_whitespace(#[trigger] s[j])
}

pub open spec fn is_read(word: Seq<char>) -> bool {
    word == "SELECT"@ || word == "WITH"@ || word == "EXPLAIN"@
}

/// Why a statement is refused.
#[derive(Debug)]
pub enum GuardError {
    NotARead(String),
    ManyStatements,
}

impl GuardError {
    pub open spec fn text(self) -> Seq<char> {
        match self {
            GuardError::NotARead(word) =>
                "only SELECT, WITH, and EXPLAIN queries are allowed (got `"@ + word@ + "`)"@,
            GuardError::ManyStatements => "multiple SQL statements are not allowed"@,
        }
    }

    pub fn message(&self) -> (r: String)
        ensures
            r@ == self.text(),
    {
        match self {
            GuardError::NotARead(word) => {
                let mut s = "only SELECT, WITH, and EXPLAIN queries are allowed (got `".to_owned();
                s.append(word.as_str());
                s.append("`)");
                s
            },
            GuardError::ManyStatements => "multiple SQL statements are not allowed".to_owned(),
        }
    }
}

fn after_space(sql: &str) -> (r: Vec<char>)
    ensures
        r@ == trim_start(sql@),
{
    let v = chars(sql);
    let n: usize = v.len();
    let mut from: usize = 0;
    assert(v@.skip(0) =~= v@);
    while from < n && char_is_whitespace(v[from])
        invariant
            from <= n == v@.len(),
            trim_start(v@) == trim_start(v@.skip(from as int)),
        decreases n - from,
    {
        assert(v@.skip(from as int).drop_first() =~= v@.skip(from as int + 1));
        from = from + 1;
    }
    let mut out: Vec<char> = Vec::new();
    let mut i: usize = from;
    while i < n
        invariant
            from <= i <= n == v@.len(),
            out@ == v@.subrange(from as int, i as int),
        decreases n - i,
    {
        out.push(v[i]);
        i = i + 1;
        assert(out@ =~= v@.subrange(from as int, i as int));
    }
    assert(out@ =~= v@.skip(from as int));
    out
}

fn upper(c: char) -> (r: char)
    ensures
        r == ascii_upper(c),
{
    if 'a' <= c && c <= 'z' {
        let b: u8 = c as u8;
        (b - 32) as char
    } else {
        c
    }
}

fn read_word(s: &Vec<char>) -> (r: String)
    ensures
        r@ == s@.take(word_end(s@, 0)).map_values(|c: char| ascii_upper(c)),
{
    let mut out = String::new();
    let mut i: usize = 0;
    assert(out@ =~= s@.take(0).map_values(|c: char| ascii_upper(c)));
    while i < s.len() && !char_is_whitespace(s[i])
        invariant
            i <= s@.len(),
            word_end(s@, 0) == word_end(s@, i as int),
            out@ == s@.take(i as int).map_values(|c: char| ascii_upper(c)),
        decreases s@.len() - i,
    {
        out.push(upper(s[i]));
        i = i + 1;
        assert(out@ =~= s@.take(i as int).map_values(|c: char| ascii_upper(c)));
    }
    out
}

/// How deep the comments are that a place lies in.
spec fn depth_of(at: Place) -> usize {
    match at {
        Place::Comment(d) => d,
        Place::CommentStar(d) => d,
        Place::CommentSlash(d) => d,
        _ => 0,
    }
}

fn open_at(c: char) -> (r: Place)
    ensures
        r == opened(c),
{
    if c == '\'' {
        Place::Literal
    } else if c == '"' {
        Place::Name
    } else if c == '`' {
        Place::BackName
    } else if c == '-' {
        Place::Minus
    } else if c == '/' {
        Place::Slash
    } else {
        Place::Code
    }
}

fn comment_at(depth: usize, c: char) -> (r: Place)
    ensures
        r == commented(depth, c),
{
    if c == '*' {
        Place::CommentStar(depth)
    } else if c == '/' {
        Place::CommentSlash(depth)
    } else {
        Place::Comment(depth)
    }
}

fn step(at: Place, c: char) -> (r: Place)
    requires
        depth_of(at) < usize::MAX,
    ensures
        r == stepped(at, c),
        depth_of(r) <= depth_of(at) + 1,
{
    match at {
        Place::Code => open_at(c),
        Place::Minus => if c == '-' {
            Place::LineComment
        } else {
            open_at(c)
        },
        Place::Slash => if c == '*' {
            Place::Comment(1)
        } else {
            open_at(c)
        },
        Place::Literal => if c == '\'' {
            Place::Code
        } else {
            at
        },
        Place::Name => if c == '"' {
            Place::Code
        } else {
            at
        },
        Place::BackName => if c == '`' {
            Place::Code
        } else {
            at
        },
        Place::LineComment => if c == '\n' {
            Place::Code
        } else {
            at
        },
        Place::Comment(depth) => comment_at(depth, c),
        Place::CommentStar(depth) => if c != '/' {
            comment_at(depth, c)
        } else if depth <= 1 {
            Place::Code
        } else {
            Place::Comment(depth - 1)
        },
        Place::CommentSlash(depth) => if c == '*' {
            Place::Comment(depth + 1)
        } else {
            comment_at(depth, c)
        },
    }
}

/// Reject anything that is not one read. The tables are copies in memory, so a
/// change could do no harm, but it would look as if it had worked.
///
/// Literals stand between single quotes and identifiers between double quotes
/// or backquotes; quoting that only some dialects know is read as plain text.
pub fn guard_read_only(sql: &str) -> (r: Result<(), GuardError>)
    ensures
        match r {
            Ok(_) => is_read(leading_word(sql@)) && !rides_along(trim_start(sql@)),
            Err(GuardError::NotARead(word)) => word@ == leading_word(sql@) && !is_read(
                leading_word(sql@),
            ),
            Err(GuardError::ManyStatements) => is_read(leading_word(sql@)) && rides_along(
                trim_start(sql@),
            ),
        },
{
    let s = after_space(sql);
    let word = read_word(&s);
    let w = word.as_str();
    if !(same(w, "SELECT") || same(w, "WITH") || same(w, "EXPLAIN")) {
        return Err(GuardError::NotARead(word));
    }
    let mut at: Place = Place::Code;
    let mut i: usize = 0;
    while i < s.len()
        invariant
            i <= s@.len(),
            s@ == trim_start(sql@),
            is_read(leading_word(sql@)),
            at == place_after(s@.take(i as int)),
            depth_of(at) <= i,
            forall|k: int| 0 <= k < i ==> !#[trigger] separates(s@, k),
        decreases s@.len() - i,
    {
        assert(s@.take(i as int + 1).drop_last() =~= s@.take(i as int));
        let quoted: bool = match at {
            Place::Literal => true,
            _ => false,
        };
        if s[i] == ';' && !quoted {
            assert(separates(s@, i as int));
            let mut j: usize = i + 1;
            while j < s.len()
                invariant
                    i < j <= s@.len(),
                    s@ == trim_start(sql@),
                    is_read(leading_word(sql@)),
                    separates(s@, i as int),
                    forall|k: int| i < k < j ==> is_whitespace(#[trigger] s@[k]),
                decreases s@.len() - j,
            {
                if !char_is_whitespace(s[j]) {
                    assert(rides_along(s@));
                    return Err(GuardError::ManyStatements);
                }
                j = j + 1;
            }
            assert(!rides_along(s@)) by {
                if rides_along(s@) {
                    let (a, b) = choose|a: int, b: int|
                        0 <= a < b < s@.len() && #[trigger] separates(s@, a) && !is_whitespace(
                            #[trigger] s@[b],
                        );
                    assert(a >= i);
                }
            }
            return Ok(());
        }
        at = step(at, s[i]);
        i = i + 1;
    }
    Ok(())
}

// ── Tables ──────────────────────────────────────────────────────────

#[derive(Debug, Clone, Copy, PartialEq, Eq, Structural)]
pub enum ColumnKind {
    Text,
    Integer,
    Double,
}

/// A cell; a double as its bits.
#[derive(Debug)]
pub enum Cell {
    Null,
    Text(String),
    Integer(i64),
    Double(u64),
}

pub enum CellModel {
    Null,
    Text(Seq<char>),
    Integer(int),
    Double(u64),
}

impl View for Cell {
    type V = CellModel;

    open spec fn view(&self) -> CellModel {
        match self {
            Cell::Null => CellModel::Null,
            Cell::Text(s) => CellModel::Text(s@),
            Cell::Integer(n) => CellModel::Integer(*n as int),
            Cell::Double(d) => CellModel::Double(*d),
        }
    }
}

/// A column of a table, with a cell for each row.
#[derive(Debug)]
pub struct Column {
    pub name: String,
    pub kind: ColumnKind,
    pub nullable: bool,
    pub cells: Vec<Cell>,
}

/// What a column is called, what it holds, and whether it can be null.
pub struct ColumnModel {
    pub name: Seq<char>,
    pub kind: ColumnKind,
    pub nullable: bool,
}

pub open spec fn col(name: Seq<char>, kind: ColumnKind, nullable: bool) -> ColumnModel {
    ColumnModel { name, kind, nullable }
}

fn make_column(name: &str, kind: ColumnKind, nullable: bool) -> (r: Column)
    ensures
        r.name@ == name@,
        r.kind == kind,
        r.nullable == nullable,
        r.cells@.len() == 0,
{
    Column { name: name.to_owned(), kind, nullable, cells: Vec::new() }
}

pub open spec fn opt_cell(v: Option<Seq<char>>) -> CellModel {
    match v {
        Some(s) => CellModel::Text(s),
        None => CellModel::Null,
    }
}

pub open spec fn count_cell(v: Option<u32>) -> CellModel {
    match v {
        Some(n) => CellModel::Integer(n as int),
        None => CellModel::Null,
    }
}

fn text_cell(s: &String) -> (r: Cell)
    ensures
        r@ == CellModel::Text(s@),
{
    Cell::Text(s.clone())
}

fn opt_text_cell(v: &Option<String>) -> (r: Cell)
    ensures
        r@ == opt_cell(opt_text(*v)),
{
    match v {
        Some(s) => Cell::Text(s.clone()),
        None => Cell::Null,
    }
}

fn opt_count_cell(v: Option<u32>) -> (r: Cell)
    ensures
        r@ == count_cell(v),
{
    match v {
        Some(n) => Cell::Integer(n as i64),
        None => Cell::Null,
    }
}

/// A span as a row: its parts as they are shown, events and LLM record as JSON.
#[derive(Debug)]
pub struct SpanRow {
    pub trace_id: String,
    pub span_id: String,
    pub parent_span_id: Option<String>,
    pub service: String,
    pub operation: String,
    pub start_time: Timestamp,
    pub end_time: Timestamp,
    pub duration_ms: u64,
    pub status: String,
    pub kind: String,
    pub attributes: Labels,
    pub events: String,
    pub llm: Option<String>,
    pub llm_provider: Option<String>,
    pub llm_model: Option<String>,
    pub input_tokens: Option<u32>,
    pub output_tokens: Option<u32>,
    pub total_tokens: Option<u32>,
    pub cost_usd: Option<u64>,
}

/// The columns of the `spans` table.
pub open spec fn span_columns() -> Seq<ColumnModel> {
    seq![
        col("trace_id"@, ColumnKind::Text, false),
        col("span_id"@, ColumnKind::Text, false),
        col("parent_span_id"@, ColumnKind::Text, true),
        col("service"@, ColumnKind::Text, false),
        col("operation"@, ColumnKind::Text, false),
        col("start_time"@, ColumnKind::Text, false),
        col("end_time"@, ColumnKind::Text, false),
        col("duration_ms"@, ColumnKind::Double, false),
        col("status"@, ColumnKind::Text, false),
        col("kind"@, ColumnKind::Text, false),
        col("attributes"@, ColumnKind::Text, false),
        col("events"@, ColumnKind::Text, false),
        col("llm"@, ColumnKind::Text, true),
        col("llm_provider"@, ColumnKind::Text, true),
        col("llm_model"@, ColumnKind::Text, true),
        col("input_tokens"@, ColumnKind::Integer, true),
        col("output_tokens"@, ColumnKind::Integer, true),
        col("total_tokens"@, ColumnKind::Integer, true),
        col("cost_usd"@, ColumnKind::Double, true),
    ]
}

/// The cells of a span, in the order of the columns.
pub open spec fn span_cells(r: SpanRow) -> Seq<CellModel> {
    seq![
        CellModel::Text(r.trace_id@),
        CellModel::Text(r.span_id@),
        opt_cell(opt_text(r.parent_span_id)),
        CellModel::Text(r.service@),
        CellModel::Text(r.operation@),
        CellModel::Text(instant_text(r.start_time@)),
        CellModel::Text(instant_text(r.end_time@)),
        CellModel::Double(r.duration_ms),
        CellModel::Text(r.status@),
        CellModel::Text(r.kind@),
        CellModel::Text(json_object(r.attributes@)),
        CellModel::Text(r.events@),
        opt_cell(opt_text(r.llm)),
        opt_cell(opt_text(r.llm_provider)),
        opt_cell(opt_text(r.llm_model)),
        count_cell(r.input_tokens),
        count_cell(r.output_tokens),
        count_cell(r.total_tokens),
        match r.cost_usd {
            Some(d) => CellModel::Double(d),
            None => CellModel::Null,
        },
    ]
}

pub open spec fn cell_views(v: Seq<Cell>) -> Seq<CellModel> {
    v.map_values(|c: Cell| c@)
}

/// Whether columns are of the given shape and hold, row by row, the given
/// cells.
pub open spec fn is_table(
    columns: Seq<Column>,
    shape: Seq<ColumnModel>,
    rows: Seq<Seq<CellModel>>,
) -> bool {
    &&& columns.len() == shape.len()
    &&& forall|k: int|
        0 <= k < columns.len() ==> {
            &&& (#[trigger] columns[k]).name@ == shape[k].name
            &&& columns[k].kind == shape[k].kind
            &&& columns[k].nullable == shape[k].nullable
            &&& cell_views(columns[k].cells@) == Seq::new(rows.len(), |i: int| rows[i][k])
        }
}

/// Adds a row to a table.
fn push_row(columns: &mut Vec<Column>, cells: Vec<Cell>, Ghost(shape): Ghost<Seq<ColumnModel>>, Ghost(
    rows,
): Ghost<Seq<Seq<CellModel>>>)
    requires
        is_table(old(columns)@, shape, rows),
        cells@.len() == shape.len(),
    ensures
        is_table(final(columns)@, shape, rows.push(cell_views(cells@))),
{
    let ghost all = cells@;
    let ghost start = columns@;
    let mut done: Vec<Column> = Vec::new();
    let mut left: Vec<Column> = Vec::new();
    std::mem::swap(&mut left, columns);
    let mut rest = cells;
    while left.len() > 0
        invariant
            start == old(columns)@,
            is_table(start, shape, rows),
            all.len() == shape.len(),
            left@.len() == rest@.len(),
            left@.len() + done@.len() == start.len(),
            left@ == start.take(left@.len() as int),
            rest@ == all.take(rest@.len() as int),
            forall|k: int|
                0 <= k < done@.len() ==> {
                    let at = start.len() - 1 - k;
                    &&& (#[trigger] done@[k]).name@ == shape[at].name
                    &&& done@[k].kind == shape[at].kind
                    &&& done@[k].nullable == shape[at].nullable
                    &&& cell_views(done@[k].cells@) == Seq::new(
                        rows.len() + 1,
                        |i: int| rows.push(cell_views(all))[i][at],
                    )
                },
        decreases left@.len(),
    {
        let ghost at = left@.len() - 1;
        if let Some(column) = left.pop() {
            if let Some(cell) = rest.pop() {
                let mut column = column;
                let ghost before = column.cells@;
                assert(column == start[at]);
                assert(cell == all[at]);
                column.cells.push(cell);
                proof {
                    assert(cell_views(column.cells@) =~= cell_views(before).push(cell@));
                    assert(cell_views(column.cells@) =~= Seq::new(
                        rows.len() + 1,
                        |i: int| rows.push(cell_views(all))[i][at],
                    ));
                }
                done.push(column);
            }
        }
    }
    let mut out: Vec<Column> = Vec::new();
    let ghost made = done@;
    while done.len() > 0
        invariant
            made.len() == start.len(),
            done@ == made.take(done@.len() as int),
            out@.len() + done@.len() == made.len(),
            forall|k: int| 0 <= k < out@.len() ==> #[trigger] out@[k] == made[made.len() - 1 - k],
        decreases done@.len(),
    {
        if let Some(column) = done.pop() {
            out.push(column);
        }
    }
    *columns = out;
    proof {
        assert forall|k: int| 0 <= k < columns@.len() implies {
            &&& (#[trigger] columns@[k]).name@ == shape[k].name
            &&& columns@[k].kind == shape[k].kind
            &&& columns@[k].nullable == shape[k].nullable
            &&& cell_views(columns@[k].cells@) == Seq::new(
                rows.push(cell_views(all)).len(),
                |i: int| rows.push(cell_views(all))[i][k],
            )
        } by {
            assert(columns@[k] == made[made.len() - 1 - k]);
        }
    }
}

fn span_row_cells(r: &SpanRow) -> (c: Vec<Cell>)
    ensures
        cell_views(c@) == span_cells(*r),
{
    let c: Vec<Cell> = vec![
        text_cell(&r.trace_id),
        text_cell(&r.span_id),
        opt_text_cell(&r.parent_span_id),
        text_cell(&r.service),
        text_cell(&r.operation),
        Cell::Text(r.start_time.to_rfc3339()),
        Cell::Text(r.end_time.to_rfc3339()),
        Cell::Double(r.duration_ms),
        text_cell(&r.status),
        text_cell(&r.kind),
        Cell::Text(object(&r.attributes)),
        text_cell(&r.events),
        opt_text_cell(&r.llm),
        opt_text_cell(&r.llm_provider),
        opt_text_cell(&r.llm_model),
        opt_count_cell(r.input_tokens),
        opt_count_cell(r.output_tokens),
        opt_count_cell(r.total_tokens),
        match r.cost_usd {
            Some(d) => Cell::Double(d),
            None => Cell::Null,
        },
    ];
    assert(cell_views(c@) =~= span_cells(*r));
    c
}

/// The `spans` table. LLM fields are also columns of their own, so that tokens
/// and costs can be added up without taking JSON apart.
pub fn spans_batch(rows: &Vec<SpanRow>) -> (r: Vec<Column>)
    ensures
        is_table(r@, span_columns(), rows@.map_values(|x: SpanRow| span_cells(x))),
{
    let text = ColumnKind::Text;
    let mut columns: Vec<Column> = vec![
        make_column("trace_id", text, false),
        make_column("span_id", text, false),
        make_column("parent_span_id", text, true),
        make_column("service", text, false),
        make_column("operation", text, false),
        make_column("start_time", text, false),
        make_column("end_time", text, false),
        make_column("duration_ms", ColumnKind::Double, false),
        make_column("status", text, false),
        make_column("kind", text, false),
        make_column("attributes", text, false),
        make_column("events", text, false),
        make_column("llm", text, true),
        make_column("llm_provider", text, true),
        make_column("llm_model", text, true),
        make_column("input_tokens", ColumnKind::Integer, true),
        make_column("output_tokens", ColumnKind::Integer, true),
        make_column("total_tokens", ColumnKind::Integer, true),
        make_column("cost_usd", ColumnKind::Double, true),
    ];
    let ghost all = rows@.map_values(|x: SpanRow| span_cells(x));
    let mut i: usize = 0;
    proof {
        assert(all.take(0) =~= Seq::<Seq<CellModel>>::empty());
        assert forall|k: int| 0 <= k < columns@.len() implies cell_views(
            (#[trigger] columns@[k]).cells@,
        ) == Seq::new(0, |i: int| all.take(0)[i][k]) by {
            assert(cell_views(columns@[k].cells@) =~= Seq::new(0, |i: int| all.take(0)[i][k]));
        }
        assert(is_table(columns@, span_columns(), all.take(0)));
    }
    while i < rows.len()
        invariant
            i <= rows@.len(),
            all == rows@.map_values(|x: SpanRow| span_cells(x)),
            is_table(columns@, span_columns(), all.take(i as int)),
        decreases rows@.len() - i,
    {
        let cells = span_row_cells(&rows[i]);
        assert(cell_views(cells@).len() == cells@.len());
        push_row(&mut columns, cells, Ghost(span_columns()), Ghost(all.take(i as int)));
        assert(all.take(i as int).push(span_cells(rows@[i as int])) =~= all.take(i as int + 1));
        i = i + 1;
    }
    assert(all.take(rows@.len() as int) =~= all);
    columns
}

/// The columns of the `logs` table.
pub open spec fn log_columns() -> Seq<ColumnModel> {
    seq![
        col("timestamp"@, ColumnKind::Text, false),
        col("observed_timestamp"@, ColumnKind::Text, false),
        col("trace_id"@, ColumnKind::Text, true),
        col("span_id"@, ColumnKind::Text, true),
        col("severity"@, ColumnKind::Text, false),
        col("severity_text"@, ColumnKind::Text, false),
        col("body"@, ColumnKind::Text, false),
        col("service"@, ColumnKind::Text, false),
        col("attributes"@, ColumnKind::Text, false),
        col("body_sha256"@, ColumnKind::Text, true),
    ]
}

pub open spec fn log_cells(l: LogRecord) -> Seq<CellModel> {
    seq![
        CellModel::Text(instant_text(l.timestamp@)),
        CellModel::Text(instant_text(l.observed_timestamp@)),
        opt_cell(opt_text(l.trace_id)),
        opt_cell(opt_text(l.span_id)),
        CellModel::Text(l.severity@),
        CellModel::Text(l.severity_text@),
        CellModel::Text(l.body@),
        CellModel::Text(l.service@),
        CellModel::Text(json_object(l.attributes@)),
        opt_cell(opt_text(l.body_sha256)),
    ]
}

fn log_row_cells(l: &LogRecord) -> (c: Vec<Cell>)
    ensures
        cell_views(c@) == log_cells(*l),
{
    let c: Vec<Cell> = vec![
        Cell::Text(l.timestamp.to_rfc3339()),
        Cell::Text(l.observed_timestamp.to_rfc3339()),
        opt_text_cell(&l.trace_id),
        opt_text_cell(&l.span_id),
        text_cell(&l.severity),
        text_cell(&l.severity_text),
        text_cell(&l.body),
        text_cell(&l.service),
        Cell::Text(object(&l.attributes)),
        opt_text_cell(&l.body_sha256),
    ];
    assert(cell_views(c@) =~= log_cells(*l));
    c
}

/// The `logs` table.
pub fn logs_batch(logs: &Vec<LogRecord>) -> (r: Vec<Column>)
    ensures
        is_table(r@, log_columns(), logs@.map_values(|x: LogRecord| log_cells(x))),
{
    let text = ColumnKind::Text;
    let mut columns: Vec<Column> = vec![
        make_column("timestamp", text, false),
        make_column("observed_timestamp", text, false),
        make_column("trace_id", text, true),
        make_column("span_id", text, true),
        make_column("severity", text, false),
        make_column("severity_text", text, false),
        make_column("body", text, false),
        make_column("service", text, false),
        make_column("attributes", text, false),
        make_column("body_sha256", text, true),
    ];
    let ghost all = logs@.map_values(|x: LogRecord| log_cells(x));
    let mut i: usize = 0;
    proof {
        assert(all.take(0) =~= Seq::<Seq<CellModel>>::empty());
        assert forall|k: int| 0 <= k < columns@.len() implies cell_views(
            (#[trigger] columns@[k]).cells@,
        ) == Seq::new(0, |i: int| all.take(0)[i][k]) by {
            assert(cell_views(columns@[k].cells@) =~= Seq::new(0, |i: int| all.take(0)[i][k]));
        }
        assert(is_table(columns@, log_columns(), all.take(0)));
    }
    while i < logs.len()
        invariant
            i <= logs@.len(),
            all == logs@.map_values(|x: LogRecord| log_cells(x)),
            is_table(columns@, log_columns(), all.take(i as int)),
        decreases logs@.len() - i,
    {
        let cells = log_row_cells(&logs[i]);
        assert(cell_views(cells@).len() == cells@.len());
        push_row(&mut columns, cells, Ghost(log_columns()), Ghost(all.take(i as int)));
        assert(all.take(i as int).push(log_cells(logs@[i as int])) =~= all.take(i as int + 1));
        i = i + 1;
    }
    assert(all.take(logs@.len() as int) =~= all);
    columns
}

/// A point as a row; its type as it is shown.
#[derive(Debug)]
pub struct MetricRow {
    pub point: MetricPoint,
    pub metric_type: String,
}

/// The columns of the `metrics` table.
pub open spec fn metric_columns() -> Seq<ColumnModel> {
    seq![
        col("timestamp"@, ColumnKind::Text, false),
        col("service"@, ColumnKind::Text, false),
        col("name"@, ColumnKind::Text, false),
        col("metric_type"@, ColumnKind::Text, false),
        col("value"@, ColumnKind::Double, false),
        col("unit"@, ColumnKind::Text, false),
        col("attributes"@, ColumnKind::Text, false),
    ]
}

pub open spec fn metric_cells(m: MetricRow) -> Seq<CellModel> {
    seq![
        CellModel::Text(instant_text(m.point.timestamp@)),
        CellModel::Text(m.point.service@),
        CellModel::Text(m.point.name@),
        CellModel::Text(m.metric_type@),
        CellModel::Double(m.point.value),
        CellModel::Text(m.point.unit@),
        CellModel::Text(json_object(m.point.attributes@)),
    ]
}

fn metric_row_cells(m: &MetricRow) -> (c: Vec<Cell>)
    ensures
        cell_views(c@) == metric_cells(*m),
{
    let c: Vec<Cell> = vec![
        Cell::Text(m.point.timestamp.to_rfc3339()),
        text_cell(&m.point.service),
        text_cell(&m.point.name),
        text_cell(&m.metric_type),
        Cell::Double(m.point.value),
        text_cell(&m.point.unit),
        Cell::Text(object(&m.point.attributes)),
    ];
    assert(cell_views(c@) =~= metric_cells(*m));
    c
}

/// The `metrics` table.
pub fn metrics_batch(rows: &Vec<MetricRow>) -> (r: Vec<Column>)
    ensures
        is_table(r@, metric_columns(), rows@.map_values(|x: MetricRow| metric_cells(x))),
{
    let text = ColumnKind::Text;
    let mut columns: Vec<Column> = vec![
        make_column("timestamp", text, false),
        make_column("service", text, false),
        make_column("name", text, false),
        make_column("metric_type", text, false),
        make_column("value", ColumnKind::Double, false),
        make_column("unit", text, false),
        make_column("attributes", text, false),
    ];
    let ghost all = rows@.map_values(|x: MetricRow| metric_cells(x));
    let mut i: usize = 0;
    proof {
        assert(all.take(0) =~= Seq::<Seq<CellModel>>::empty());
        assert forall|k: int| 0 <= k < columns@.len() implies cell_views(
            (#[trigger] columns@[k]).cells@,
        ) == Seq::new(0, |i: int| all.take(0)[i][k]) by {
            assert(cell_views(columns@[k].cells@) =~= Seq::new(0, |i: int| all.take(0)[i][k]));
        }
        assert(is_table(columns@, metric_columns(), all.take(0)));
    }
    while i < rows.len()
        invariant
            i <= rows@.len(),
            all == rows@.map_values(|x: MetricRow| metric_cells(x)),
            is_table(columns@, metric_columns(), all.take(i as int)),
        decreases rows@.len() - i,
    {
        let cells = metric_row_cells(&rows[i]);
        assert(cell_views(cells@).len() == cells@.len());
        push_row(&mut columns, cells, Ghost(metric_columns()), Ghost(all.take(i as int)));
        assert(all.take(i as int).push(metric_cells(rows@[i as int])) =~= all.take(i as int + 1));
        i = i + 1;
    }
    assert(all.take(rows@.len() as int) =~= all);
    columns
}

/// A comment on a trace.
#[derive(Debug)]
pub struct TraceComment {
    pub id: String,
    pub trace_id: String,
    pub span_id: Option<String>,
    pub author: String,
    pub body: String,
    pub created_at: String,
}

/// The columns of the `trace_comments` table.
pub open spec fn comment_columns() -> Seq<ColumnModel> {
    seq![
        col("id"@, ColumnKind::Text, false),
        col("trace_id"@, ColumnKind::Text, false),
        col("span_id"@, ColumnKind::Text, true),
        col("author"@, ColumnKind::Text, false),
        col("body"@, ColumnKind::Text, false),
        col("created_at"@, ColumnKind::Text, false),
    ]
}

pub open spec fn comment_cells(c: TraceComment) -> Seq<CellModel> {
    seq![
        CellModel::Text(c.id@),
        CellModel::Text(c.trace_id@),
        opt_cell(opt_text(c.span_id)),
        CellModel::Text(c.author@),
        CellModel::Text(c.body@),
        CellModel::Text(c.created_at@),
    ]
}

fn comment_row_cells(t: &TraceComment) -> (c: Vec<Cell>)
    ensures
        cell_views(c@) == comment_cells(*t),
{
    let c: Vec<Cell> = vec![
        text_cell(&t.id),
        text_cell(&t.trace_id),
        opt_text_cell(&t.span_id),
        text_cell(&t.author),
        text_cell(&t.body),
        text_cell(&t.created_at),
    ];
    assert(cell_views(c@) =~= comment_cells(*t));
    c
}

/// The `trace_comments` table.
pub fn comments_batch(comments: &Vec<TraceComment>) -> (r: Vec<Column>)
    ensures
        is_table(r@, comment_columns(), comments@.map_values(|x: TraceComment| comment_cells(x))),
{
    let text = ColumnKind::Text;
    let mut columns: Vec<Column> = vec![
        make_column("id", text, false),
        make_column("trace_id", text, false),
        make_column("span_id", text, true),
        make_column("author", text, false),
        make_column("body", text, false),
        make_column("created_at", text, false),
    ];
    let ghost all = comments@.map_values(|x: TraceComment| comment_cells(x));
    let mut i: usize = 0;
    proof {
        assert(all.take(0) =~= Seq::<Seq<CellModel>>::empty());
        assert forall|k: int| 0 <= k < columns@.len() implies cell_views(
            (#[trigger] columns@[k]).cells@,
        ) == Seq::new(0, |i: int| all.take(0)[i][k]) by {
            assert(cell_views(columns@[k].cells@) =~= Seq::new(0, |i: int| all.take(0)[i][k]));
        }
        assert(is_table(columns@, comment_columns(), all.take(0)));
    }
    while i < comments.len()
        invariant
            i <= comments@.len(),
            all == comments@.map_values(|x: TraceComment| comment_cells(x)),
            is_table(columns@, comment_columns(), all.take(i as int)),
        decreases comments@.len() - i,
    {
        let cells = comment_row_cells(&comments[i]);
        assert(cell_views(cells@).len() == cells@.len());
        push_row(&mut columns, cells, Ghost(comment_columns()), Ghost(all.take(i as int)));
        assert(all.take(i as int).push(comment_cells(comments@[i as int])) =~= all.take(
            i as int + 1,
        ));
        i = i + 1;
    }
    assert(all.take(comments@.len() as int) =~= all);
    columns
}

// ── Results ─────────────────────────────────────────────────────────

/// A value in a result, as the engine gives it.
#[derive(Debug)]
pub enum Scalar {
    Null,
    Text(String),
    Double(u64),
    Integer(i64),
    Unsigned(u64),
    Flag(bool),
    /// Anything else, as the engine shows it.
    Shown(String),
}

/// A value in a row of the answer.
#[derive(Debug)]
pub enum RowValue {
    Null,
    Text(String),
    Double(u64),
    Integer(i64),
    Unsigned(u64),
    Flag(bool),
}

/// What a value is answered as. JSON has no infinite numbers and no NaN: they
/// become null.
pub open spec fn is_answer_to(r: RowValue, s: Scalar) -> bool {
    match s {
        Scalar::Null => r is Null,
        Scalar::Text(t) => r matches RowValue::Text(u) && u@ == t@,
        Scalar::Double(d) => if is_finite_bits(d) {
            r == RowValue::Double(d)
        } else {
            r is Null
        },
        Scalar::Integer(n) => r == RowValue::Integer(n),
        Scalar::Unsigned(n) => r == RowValue::Unsigned(n),
        Scalar::Flag(b) => r == RowValue::Flag(b),
        Scalar::Shown(t) => r matches RowValue::Text(u) && u@ == t@,
    }
}

pub fn row_value(s: Scalar) -> (r: RowValue)
    ensures
        is_answer_to(r, s),
{
    match s {
        Scalar::Null => RowValue::Null,
        Scalar::Text(t) => RowValue::Text(t),
        Scalar::Double(d) => if bits_are_finite(d) {
            RowValue::Double(d)
        } else {
            RowValue::Null
        },
        Scalar::Integer(n) => RowValue::Integer(n),
        Scalar::Unsigned(n) => RowValue::Unsigned(n),
        Scalar::Flag(b) => RowValue::Flag(b),
        Scalar::Shown(t) => RowValue::Text(t),
    }
}

// ── Laws ────────────────────────────────────────────────────────────

/// Where no second statement rides along, whatever follows a separator is
/// whitespace, however the literals before it are written.
pub proof fn nothing_follows_a_separator(s: Seq<char>, i: int, j: int)
    requires
        !rides_along(s),
        separates(s, i),
        i < j < s.len(),
    ensures
        is_whitespace(s[j]),
{
}

/// Inside an identifier between double quotes a single quote opens no literal,
/// so that what follows the identifier is read as it would be without it.
pub proof fn a_name_hides_no_separator(s: Seq<char>, name: Seq<char>)
    requires
        place_after(s) is Code,
        forall|k: int| 0 <= k < name.len() ==> #[trigger] name[k] != '"',
    ensures
        place_after(s.push('"') + name + seq!['"']) is Code,
        separates(s.push('"') + name + seq!['"', ';'], (s.len() + name.len() + 2) as int),
{
    let open = s.push('"');
    assert(open.drop_last() =~= s);
    names_last(open, name);
    let whole = open + name + seq!['"'];
    assert(whole.drop_last() =~= open + name);
    let more = open + name + seq!['"', ';'];
    assert(more.take((s.len() + name.len() + 2) as int) =~= whole);
}

proof fn names_last(s: Seq<char>, name: Seq<char>)
    requires
        place_after(s) is Name,
        forall|k: int| 0 <= k < name.len() ==> #[trigger] name[k] != '"',
    ensures
        place_after(s + name) is Name,
    decreases name.len(),
{
    if name.len() == 0 {
        assert(s + name =~= s);
    } else {
        names_last(s, name.drop_last());
        assert((s + name).drop_last() =~= s + name.drop_last());
        assert((s + name).last() == name.last());
    }
}

/// A separator inside a literal separates nothing.
pub proof fn a_literal_may_hold_a_separator(s: Seq<char>, i: int)
    requires
        0 <= i < s.len(),
        place_after(s.take(i)) is Literal,
    ensures
        !separates(s, i),
{
}

/// Whether a table has a column of a name and a kind that holds, row by row, the
/// given cells.
pub open spec fn holds_under(
    columns: Seq<Column>,
    name: Seq<char>,
    kind: ColumnKind,
    nullable: bool,
    rows: nat,
    cell: spec_fn(int) -> CellModel,
) -> bool {
    exists|k: int|
        0 <= k < columns.len() && (#[trigger] columns[k]).name@ == name && columns[k].kind == kind
            && columns[k].nullable == nullable && columns[k].cells@.len() == rows && forall|i: int|
            0 <= i < rows ==> (#[trigger] columns[k].cells@[i])@ == cell(i)
}

proof fn column_holds(
    columns: Seq<Column>,
    shape: Seq<ColumnModel>,
    rows: Seq<Seq<CellModel>>,
    k: int,
    cell: spec_fn(int) -> CellModel,
)
    requires
        is_table(columns, shape, rows),
        0 <= k < shape.len(),
        forall|i: int| 0 <= i < rows.len() ==> #[trigger] rows[i][k] == cell(i),
    ensures
        holds_under(columns, shape[k].name, shape[k].kind, shape[k].nullable, rows.len(), cell),
{
    let views = cell_views(columns[k].cells@);
    assert(views.len() == rows.len());
    assert forall|i: int| 0 <= i < rows.len() implies (#[trigger] columns[k].cells@[i])@ == cell(
        i,
    ) by {
        assert(views[i] == columns[k].cells@[i]@);
        assert(rows[i][k] == cell(i));
    }
    assert(columns[k].name@ == shape[k].name);
}

/// The cell under a column's name is what the span of that row holds under that
/// name: its ids, where it ran and when.
pub proof fn spans_are_found_by_name(columns: Seq<Column>, rows: Seq<SpanRow>)
    requires
        is_table(columns, span_columns(), rows.map_values(|x: SpanRow| span_cells(x))),
    ensures
        columns.len() == 19,
        holds_under(
            columns,
            "trace_id"@,
            ColumnKind::Text,
            false,
            rows.len(),
            |i: int| CellModel::Text(rows[i].trace_id@),
        ),
        holds_under(
            columns,
            "span_id"@,
            ColumnKind::Text,
            false,
            rows.len(),
            |i: int| CellModel::Text(rows[i].span_id@),
        ),
        holds_under(
            columns,
            "parent_span_id"@,
            ColumnKind::Text,
            true,
            rows.len(),
            |i: int| (match rows[i].parent_span_id {
                    Some(t) => CellModel::Text(t@),
                    None => CellModel::Null,
                }),
        ),
        holds_under(
            columns,
            "service"@,
            ColumnKind::Text,
            false,
            rows.len(),
            |i: int| CellModel::Text(rows[i].service@),
        ),
        holds_under(
            columns,
            "operation"@,
            ColumnKind::Text,
            false,
            rows.len(),
            |i: int| CellModel::Text(rows[i].operation@),
        ),
        holds_under(
            columns,
            "start_time"@,
            ColumnKind::Text,
            false,
            rows.len(),
            |i: int| CellModel::Text(instant_text(rows[i].start_time@)),
        ),
        holds_under(
            columns,
            "end_time"@,
            ColumnKind::Text,
            false,
            rows.len(),
            |i: int| CellModel::Text(instant_text(rows[i].end_time@)),
        ),
{
    let all = rows.map_values(|x: SpanRow| span_cells(x));
    column_holds(
        columns,
        span_columns(),
        all,
        0,
        |i: int| CellModel::Text(rows[i].trace_id@),
    );
    column_holds(
        columns,
        span_columns(),
        all,
        1,
        |i: int| CellModel::Text(rows[i].span_id@),
    );
    column_holds(
        columns,
        span_columns(),
        all,
        2,
        |i: int| (match rows[i].parent_span_id {
                Some(t) => CellModel::Text(t@),
                None => CellModel::Null,
            }),
    );
    column_holds(
        columns,
        span_columns(),
        all,
        3,
        |i: int| CellModel::Text(rows[i].service@),
    );
    column_holds(
        columns,
        span_columns(),
        all,
        4,
        |i: int| CellModel::Text(rows[i].operation@),
    );
    column_holds(
        columns,
        span_columns(),
        all,
        5,
        |i: int| CellModel::Text(instant_text(rows[i].start_time@)),
    );
    column_holds(
        columns,
        span_columns(),
        all,
        6,
        |i: int| CellModel::Text(instant_text(rows[i].end_time@)),
    );
}

/// The cell under a column's name is what the span of that row holds under that
/// name: how long it took, how it went and what it carries.
pub proof fn outcomes_are_found_by_name(columns: Seq<Column>, rows: Seq<SpanRow>)
    requires
        is_table(columns, span_columns(), rows.map_values(|x: SpanRow| span_cells(x))),
    ensures
        columns.len() == 19,
        holds_under(
            columns,
            "duration_ms"@,
            ColumnKind::Double,
            false,
            rows.len(),
            |i: int| CellModel::Double(rows[i].duration_ms),
        ),
        holds_under(
            columns,
            "status"@,
            ColumnKind::Text,
            false,
            rows.len(),
            |i: int| CellModel::Text(rows[i].status@),
        ),
        holds_under(
            columns,
            "kind"@,
            ColumnKind::Text,
            false,
            rows.len(),
            |i: int| CellModel::Text(rows[i].kind@),
        ),
        holds_under(
            columns,
            "attributes"@,
            ColumnKind::Text,
            false,
            rows.len(),
            |i: int| CellModel::Text(json_object(rows[i].attributes@)),
        ),
        holds_under(
            columns,
            "events"@,
            ColumnKind::Text,
            false,
            rows.len(),
            |i: int| CellModel::Text(rows[i].events@),
        ),
        holds_under(
            columns,
            "llm"@,
            ColumnKind::Text,
            true,
            rows.len(),
            |i: int| (match rows[i].llm {
                    Some(t) => CellModel::Text(t@),
                    None => CellModel::Null,
                }),
        ),
{
    let all = rows.map_values(|x: SpanRow| span_cells(x));
    column_holds(
        columns,
        span_columns(),
        all,
        7,
        |i: int| CellModel::Double(rows[i].duration_ms),
    );
    column_holds(
        columns,
        span_columns(),
        all,
        8,
        |i: int| CellModel::Text(rows[i].status@),
    );
    column_holds(
        columns,
        span_columns(),
        all,
        9,
        |i: int| CellModel::Text(rows[i].kind@),
    );
    column_holds(
        columns,
        span_columns(),
        all,
        10,
        |i: int| CellModel::Text(json_object(rows[i].attributes@)),
    );
    column_holds(
        columns,
        span_columns(),
        all,
        11,
        |i: int| CellModel::Text(rows[i].events@),
    );
    column_holds(
        columns,
        span_columns(),
        all,
        12,
        |i: int| (match rows[i].llm {
                Some(t) => CellModel::Text(t@),
                None => CellModel::Null,
            }),
    );
}

/// The cell under a column's name is what the span of that row holds under that
/// name: the model called, the tokens in and out, and the cost.
pub proof fn calls_are_found_by_name(columns: Seq<Column>, rows: Seq<SpanRow>)
    requires
        is_table(columns, span_columns(), rows.map_values(|x: SpanRow| span_cells(x))),
    ensures
        columns.len() == 19,
        holds_under(
            columns,
            "llm_provider"@,
            ColumnKind::Text,
            true,
            rows.len(),
            |i: int| (match rows[i].llm_provider {
                    Some(t) => CellModel::Text(t@),
                    None => CellModel::Null,
                }),
        ),
        holds_under(
            columns,
            "llm_model"@,
            ColumnKind::Text,
            true,
            rows.len(),
            |i: int| (match rows[i].llm_model {
                    Some(t) => CellModel::Text(t@),
                    None => CellModel::Null,
                }),
        ),
        holds_under(
            columns,
            "input_tokens"@,
            ColumnKind::Integer,
            true,
            rows.len(),
            |i: int| (match rows[i].input_tokens {
                    Some(n) => CellModel::Integer(n as int),
                    None => CellModel::Null,
                }),
        ),
        holds_under(
            columns,
            "output_tokens"@,
            ColumnKind::Integer,
            true,
            rows.len(),
            |i: int| (match rows[i].output_tokens {
                    Some(n) => CellModel::Integer(n as int),
                    None => CellModel::Null,
                }),
        ),
        holds_under(
            columns,
            "total_tokens"@,
            ColumnKind::Integer,
            true,
            rows.len(),
            |i: int| (match rows[i].total_tokens {
                    Some(n) => CellModel::Integer(n as int),
                    None => CellModel::Null,
                }),
        ),
        holds_under(
            columns,
            "cost_usd"@,
            ColumnKind::Double,
            true,
            rows.len(),
            |i: int| (match rows[i].cost_usd {
                    Some(d) => CellModel::Double(d),
                    None => CellModel::Null,
                }),
        ),
{
    let all = rows.map_values(|x: SpanRow| span_cells(x));
    column_holds(
        columns,
        span_columns(),
        all,
        13,
        |i: int| (match rows[i].llm_provider {
                Some(t) => CellModel::Text(t@),
                None => CellModel::Null,
            }),
    );
    column_holds(
        columns,
        span_columns(),
        all,
        14,
        |i: int| (match rows[i].llm_model {
                Some(t) => CellModel::Text(t@),
                None => CellModel::Null,
            }),
    );
    column_holds(
        columns,
        span_columns(),
        all,
        15,
        |i: int| (match rows[i].input_tokens {
                Some(n) => CellModel::Integer(n as int),
                None => CellModel::Null,
            }),
    );
    column_holds(
        columns,
        span_columns(),
        all,
        16,
        |i: int| (match rows[i].output_tokens {
                Some(n) => CellModel::Integer(n as int),
                None => CellModel::Null,
            }),
    );
    column_holds(
        columns,
        span_columns(),
        all,
        17,
        |i: int| (match rows[i].total_tokens {
                Some(n) => CellModel::Integer(n as int),
                None => CellModel::Null,
            }),
    );
    column_holds(
        columns,
        span_columns(),
        all,
        18,
        |i: int| (match rows[i].cost_usd {
                Some(d) => CellModel::Double(d),
                None => CellModel::Null,
            }),
    );
}

/// The cell under a column's name is what the log record of that row holds under that
/// name.
pub proof fn logs_are_found_by_name(columns: Seq<Column>, rows: Seq<LogRecord>)
    requires
        is_table(columns, log_columns(), rows.map_values(|x: LogRecord| log_cells(x))),
    ensures
        columns.len() == 10,
        holds_under(
            columns,
            "timestamp"@,
            ColumnKind::Text,
            false,
            rows.len(),
            |i: int| CellModel::Text(instant_text(rows[i].timestamp@)),
        ),
        holds_under(
            columns,
            "observed_timestamp"@,
            ColumnKind::Text,
            false,
            rows.len(),
            |i: int| CellModel::Text(instant_text(rows[i].observed_timestamp@)),
        ),
        holds_under(
            columns,
            "trace_id"@,
            ColumnKind::Text,
            true,
            rows.len(),
            |i: int| (match rows[i].trace_id {
                    Some(t) => CellModel::Text(t@),
                    None => CellModel::Null,
                }),
        ),
        holds_under(
            columns,
            "span_id"@,
            ColumnKind::Text,
            true,
            rows.len(),
            |i: int| (match rows[i].span_id {
                    Some(t) => CellModel::Text(t@),
                    None => CellModel::Null,
                }),
        ),
        holds_under(
            columns,
            "severity"@,
            ColumnKind::Text,
            false,
            rows.len(),
            |i: int| CellModel::Text(rows[i].severity@),
        ),
        holds_under(
            columns,
            "severity_text"@,
            ColumnKind::Text,
            false,
            rows.len(),
            |i: int| CellModel::Text(rows[i].severity_text@),
        ),
        holds_under(
            columns,
            "body"@,
            ColumnKind::Text,
            false,
            rows.len(),
            |i: int| CellModel::Text(rows[i].body@),
        ),
        holds_under(
            columns,
            "service"@,
            ColumnKind::Text,
            false,
            rows.len(),
            |i: int| CellModel::Text(rows[i].service@),
        ),
        holds_under(
            columns,
            "attributes"@,
            ColumnKind::Text,
            false,
            rows.len(),
            |i: int| CellModel::Text(json_object(rows[i].attributes@)),
        ),
        holds_under(
            columns,
            "body_sha256"@,
            ColumnKind::Text,
            true,
            rows.len(),
            |i: int| (match rows[i].body_sha256 {
                    Some(t) => CellModel::Text(t@),
                    None => CellModel::Null,
                }),
        ),
{
    let all = rows.map_values(|x: LogRecord| log_cells(x));
    column_holds(
        columns,
        log_columns(),
        all,
        0,
        |i: int| CellModel::Text(instant_text(rows[i].timestamp@)),
    );
    column_holds(
        columns,
        log_columns(),
        all,
        1,
        |i: int| CellModel::Text(instant_text(rows[i].observed_timestamp@)),
    );
    column_holds(
        columns,
        log_columns(),
        all,
        2,
        |i: int| (match rows[i].trace_id {
                Some(t) => CellModel::Text(t@),
                None => CellModel::Null,
            }),
    );
    column_holds(
        columns,
        log_columns(),
        all,
        3,
        |i: int| (match rows[i].span_id {
                Some(t) => CellModel::Text(t@),
                None => CellModel::Null,
            }),
    );
    column_holds(
        columns,
        log_columns(),
        all,
        4,
        |i: int| CellModel::Text(rows[i].severity@),
    );
    column_holds(
        columns,
        log_columns(),
        all,
        5,
        |i: int| CellModel::Text(rows[i].severity_text@),
    );
    column_holds(
        columns,
        log_columns(),
        all,
        6,
        |i: int| CellModel::Text(rows[i].body@),
    );
    column_holds(
        columns,
        log_columns(),
        all,
        7,
        |i: int| CellModel::Text(rows[i].service@),
    );
    column_holds(
        columns,
        log_columns(),
        all,
        8,
        |i: int| CellModel::Text(json_object(rows[i].attributes@)),
    );
    column_holds(
        columns,
        log_columns(),
        all,
        9,
        |i: int| (match rows[i].body_sha256 {
                Some(t) => CellModel::Text(t@),
                None => CellModel::Null,
            }),
    );
}

/// The cell under a column's name is what the sample of that row holds under that
/// name.
pub proof fn metrics_are_found_by_name(columns: Seq<Column>, rows: Seq<MetricRow>)
    requires
        is_table(columns, metric_columns(), rows.map_values(|x: MetricRow| metric_cells(x))),
    ensures
        columns.len() == 7,
        holds_under(
            columns,
            "timestamp"@,
            ColumnKind::Text,
            false,
            rows.len(),
            |i: int| CellModel::Text(instant_text(rows[i].point.timestamp@)),
        ),
        holds_under(
            columns,
            "service"@,
            ColumnKind::Text,
            false,
            rows.len(),
            |i: int| CellModel::Text(rows[i].point.service@),
        ),
        holds_under(
            columns,
            "name"@,
            ColumnKind::Text,
            false,
            rows.len(),
            |i: int| CellModel::Text(rows[i].point.name@),
        ),
        holds_under(
            columns,
            "metric_type"@,
            ColumnKind::Text,
            false,
            rows.len(),
            |i: int| CellModel::Text(rows[i].metric_type@),
        ),
        holds_under(
            columns,
            "value"@,
            ColumnKind::Double,
            false,
            rows.len(),
            |i: int| CellModel::Double(rows[i].point.value),
        ),
        holds_under(
            columns,
            "unit"@,
            ColumnKind::Text,
            false,
            rows.len(),
            |i: int| CellModel::Text(rows[i].point.unit@),
        ),
        holds_under(
            columns,
            "attributes"@,
            ColumnKind::Text,
            false,
            rows.len(),
            |i: int| CellModel::Text(json_object(rows[i].point.attributes@)),
        ),
{
    let all = rows.map_values(|x: MetricRow| metric_cells(x));
    column_holds(
        columns,
        metric_columns(),
        all,
        0,
        |i: int| CellModel::Text(instant_text(rows[i].point.timestamp@)),
    );
    column_holds(
        columns,
        metric_columns(),
        all,
        1,
        |i: int| CellModel::Text(rows[i].point.service@),
    );
    column_holds(
        columns,
        metric_columns(),
        all,
        2,
        |i: int| CellModel::Text(rows[i].point.name@),
    );
    column_holds(
        columns,
        metric_columns(),
        all,
        3,
        |i: int| CellModel::Text(rows[i].metric_type@),
    );
    column_holds(
        columns,
        metric_columns(),
        all,
        4,
        |i: int| CellModel::Double(rows[i].point.value),
    );
    column_holds(
        columns,
        metric_columns(),
        all,
        5,
        |i: int| CellModel::Text(rows[i].point.unit@),
    );
    column_holds(
        columns,
        metric_columns(),
        all,
        6,
        |i: int| CellModel::Text(json_object(rows[i].point.attributes@)),
    );
}

/// The cell under a column's name is what the comment of that row holds under that
/// name.
pub proof fn comments_are_found_by_name(columns: Seq<Column>, rows: Seq<TraceComment>)
    requires
        is_table(columns, comment_columns(), rows.map_values(|x: TraceComment| comment_cells(x))),
    ensures
        columns.len() == 6,
        holds_under(
            columns,
            "id"@,
            ColumnKind::Text,
            false,
            rows.len(),
            |i: int| CellModel::Text(rows[i].id@),
        ),
        holds_under(
            columns,
            "trace_id"@,
            ColumnKind::Text,
            false,
            rows.len(),
            |i: int| CellModel::Text(rows[i].trace_id@),
        ),
        holds_under(
            columns,
            "span_id"@,
            ColumnKind::Text,
            true,
            rows.len(),
            |i: int| (match rows[i].span_id {
                    Some(t) => CellModel::Text(t@),
                    None => CellModel::Null,
                }),
        ),
        holds_under(
            columns,
            "author"@,
            ColumnKind::Text,
            false,
            rows.len(),
            |i: int| CellModel::Text(rows[i].author@),
        ),
        holds_under(
            columns,
            "body"@,
            ColumnKind::Text,
            false,
            rows.len(),
            |i: int| CellModel::Text(rows[i].body@),
        ),
        holds_under(
            columns,
            "created_at"@,
            ColumnKind::Text,
            false,
            rows.len(),
            |i: int| CellModel::Text(rows[i].created_at@),
        ),
{
    let all = rows.map_values(|x: TraceComment| comment_cells(x));
    column_holds(
        columns,
        comment_columns(),
        all,
        0,
        |i: int| CellModel::Text(rows[i].id@),
    );
    column_holds(
        columns,
        comment_columns(),
        all,
        1,
        |i: int| CellModel::Text(rows[i].trace_id@),
    );
    column_holds(
        columns,
        comment_columns(),
        all,
        2,
        |i: int| (match rows[i].span_id {
                Some(t) => CellModel::Text(t@),
                None => CellModel::Null,
            }),
    );
    column_holds(
        columns,
        comment_columns(),
        all,
        3,
        |i: int| CellModel::Text(rows[i].author@),
    );
    column_holds(
        columns,
        comment_columns(),
        all,
        4,
        |i: int| CellModel::Text(rows[i].body@),
    );
    column_holds(
        columns,
        comment_columns(),
        all,
        5,
        |i: int| CellModel::Text(rows[i].created_at@),
    );
}

/// A literal, a comment of a line and a bracketed comment each end where they are
/// closed, and nothing inside a literal separates statements.
pub proof fn what_is_opened_is_closed(s: Seq<char>, t: Seq<char>, j: int)
    requires
        place_after(s) is Code,
    ensures
        (forall|k: int| 0 <= k < t.len() ==> #[trigger] t[k] != '\'') ==> {
            &&& place_after(s.push('\'') + t + seq!['\'']) is Code
            &&& s.len() < j <= s.len() + t.len() ==> !separates(s.push('\'') + t + seq!['\''], j)
        },
        (forall|k: int| 0 <= k < t.len() ==> #[trigger] t[k] != '\n') ==> place_after(
            s + seq!['-', '-'] + t,
        ) is LineComment && place_after(s + seq!['-', '-'] + t + seq!['\n']) is Code,
        (forall|k: int| 0 <= k < t.len() ==> #[trigger] t[k] != '*' && t[k] != '/') ==> place_after(
            s + seq!['/', '*'] + t + seq!['*', '/'],
        ) is Code,
{
    if forall|k: int| 0 <= k < t.len() ==> #[trigger] t[k] != '\'' {
        let open = s.push('\'');
        let whole = open + t + seq!['\''];
        assert(open.drop_last() =~= s);
        literal_lasts(open, t);
        assert(whole.drop_last() =~= open + t);
        if s.len() < j <= s.len() + t.len() {
            let part = t.take(j - s.len() - 1);
            assert(whole.take(j) =~= open + part);
            literal_lasts(open, part);
        }
    }
    if forall|k: int| 0 <= k < t.len() ==> #[trigger] t[k] != '\n' {
        let one = s.push('-');
        let open = s + seq!['-', '-'];
        assert(one.drop_last() =~= s);
        assert(open.drop_last() =~= one);
        assert(place_after(one) is Minus);
        assert(place_after(open) is LineComment);
        line_lasts(open, t);
        assert((open + t + seq!['\n']).drop_last() =~= open + t);
    }
    if forall|k: int| 0 <= k < t.len() ==> #[trigger] t[k] != '*' && t[k] != '/' {
        let one = s.push('/');
        let open = s + seq!['/', '*'];
        assert(one.drop_last() =~= s);
        assert(open.drop_last() =~= one);
        assert(place_after(one) is Slash);
        assert(place_after(open) == Place::Comment(1));
        comment_lasts(open, t);
        let star = open + t + seq!['*'];
        assert(star.drop_last() =~= open + t);
        assert(place_after(star) == Place::CommentStar(1));
        assert((open + t + seq!['*', '/']).drop_last() =~= star);
    }
}

proof fn literal_lasts(s: Seq<char>, t: Seq<char>)
    requires
        place_after(s) is Literal,
        forall|k: int| 0 <= k < t.len() ==> #[trigger] t[k] != '\'',
    ensures
        place_after(s + t) is Literal,
    decreases t.len(),
{
    if t.len() == 0 {
        assert(s + t =~= s);
    } else {
        literal_lasts(s, t.drop_last());
        assert((s + t).drop_last() =~= s + t.drop_last());
        assert((s + t).last() == t.last());
    }
}

proof fn line_lasts(s: Seq<char>, t: Seq<char>)
    requires
        place_after(s) is LineComment,
        forall|k: int| 0 <= k < t.len() ==> #[trigger] t[k] != '\n',
    ensures
        place_after(s + t) is LineComment,
    decreases t.len(),
{
    if t.len() == 0 {
        assert(s + t =~= s);
    } else {
        line_lasts(s, t.drop_last());
        assert((s + t).drop_last() =~= s + t.drop_last());
        assert((s + t).last() == t.last());
    }
}

proof fn comment_lasts(s: Seq<char>, t: Seq<char>)
    requires
        place_after(s) == Place::Comment(1),
        forall|k: int| 0 <= k < t.len() ==> #[trigger] t[k] != '*' && t[k] != '/',
    ensures
        place_after(s + t) == Place::Comment(1),
    decreases t.len(),
{
    if t.len() == 0 {
        assert(s + t =~= s);
    } else {
        comment_lasts(s, t.drop_last());
        assert((s + t).drop_last() =~= s + t.drop_last());
        assert((s + t).last() == t.last());
    }
}

/// A statement is told by its first word, in whatever case it is written and
/// however much whitespace stands before it.
pub proof fn statements_are_told_by_their_first_word(w: Seq<char>, rest: Seq<char>)
    requires
        w.len() > 0,
        forall|k: int| 0 <= k < w.len() ==> !is_whitespace(#[trigger] w[k]),
    ensures
        leading_word(w + seq![' '] + rest) == w.map_values(|c: char| ascii_upper(c)),
        leading_word(seq![' '] + (w + seq![' '] + rest)) == leading_word(w + seq![' '] + rest),
        leading_word(seq!['\n'] + (w + seq![' '] + rest)) == leading_word(w + seq![' '] + rest),
        forall|c: char| 'a' <= c <= 'z' ==> #[trigger] ascii_upper(c) as int == c as int - 32,
        forall|c: char| !('a' <= c <= 'z') ==> #[trigger] ascii_upper(c) == c,
{
    let s = w + seq![' '] + rest;
    assert(s[0] == w[0]);
    assert(trim_start(s) == s);
    word_runs(s, 0, w.len() as int);
    assert(s.take(w.len() as int) =~= w);
    assert((seq![' '] + s).drop_first() =~= s);
    assert((seq!['\n'] + s).drop_first() =~= s);
}

proof fn word_runs(s: Seq<char>, from: int, end: int)
    requires
        0 <= from <= end < s.len(),
        forall|k: int| from <= k < end ==> !is_whitespace(#[trigger] s[k]),
        is_whitespace(s[end]),
    ensures
        word_end(s, from) == end,
    decreases end - from,
{
    if from < end {
        assert(!is_whitespace(s[from]));
        word_runs(s, from + 1, end);
    }
}

/// Only what begins with one of three words is read, whatever its case.
pub proof fn only_reads_are_let_through(w: Seq<char>)
    ensures
        is_read(w) <==> w == "SELECT"@ || w == "WITH"@ || w == "EXPLAIN"@,
        is_read("select"@.map_values(|c: char| ascii_upper(c))),
        is_read("with"@.map_values(|c: char| ascii_upper(c))),
        is_read("explain"@.map_values(|c: char| ascii_upper(c))),
{
    reveal_strlit("SELECT");
    reveal_strlit("WITH");
    reveal_strlit("EXPLAIN");
    reveal_strlit("select");
    reveal_strlit("with");
    reveal_strlit("explain");
    assert("select"@.map_values(|c: char| ascii_upper(c)) =~= "SELECT"@);
    assert("with"@.map_values(|c: char| ascii_upper(c)) =~= "WITH"@);
    assert("explain"@.map_values(|c: char| ascii_upper(c)) =~= "EXPLAIN"@);
}

/// What a query gives back is answered as what it is: two values that differ are
/// answered differently, unless both are no finite numbers.
pub proof fn answers_are_what_was_found(r: RowValue, n: i64, m: u64, d: u64, b: bool)
    ensures
        is_answer_to(r, Scalar::Integer(n)) <==> r == RowValue::Integer(n),
        is_answer_to(r, Scalar::Unsigned(m)) <==> r == RowValue::Unsigned(m),
        is_answer_to(r, Scalar::Flag(b)) <==> r == RowValue::Flag(b),
        is_finite_bits(d) ==> (is_answer_to(r, Scalar::Double(d)) <==> r == RowValue::Double(d)),
        !is_finite_bits(d) ==> (is_answer_to(r, Scalar::Double(d)) <==> r is Null),
        is_answer_to(r, Scalar::Null) <==> r is Null,
        forall|t: String| #[trigger]
            is_answer_to(r, Scalar::Text(t)) <==> (r matches RowValue::Text(u) && u@ == t@),
{
}

} // verus!
