//! The measures of report sections, and the panels that show them.

use super::report;
use super::report::{Report, Section, TableData};
use crate::text;
use crate::text::{chars_of, same, to_lower};
use vstd::prelude::*;
use vstd::string::*;

verus! {

/// What a style means; a program gives it colours.
#[derive(Debug, Clone, Copy, PartialEq, Eq, Structural)]
pub enum Style {
    Plain,
    Heading,
    Label,
    Header,
    Rule,
}

/// The lines of a cell.
#[derive(Debug)]
pub struct CellPlan {
    pub lines: Vec<String>,
    pub right: bool,
    pub style: Style,
}

/// The cells of a row.
#[derive(Debug)]
pub struct RowPlan {
    pub cells: Vec<CellPlan>,
    pub height: u16,
    pub style: Style,
}

#[derive(Debug)]
pub enum Body {
    Text(String, Style),
    /// Rows, and the width of each column; two blanks stand between columns.
    Table(Vec<RowPlan>, Vec<usize>),
}

/// A part of a report as it is drawn.
#[derive(Debug)]
pub struct Panel {
    pub height: u16,
    pub body: Body,
}

/// What a cell shows.
pub struct CellView {
    pub lines: Seq<Seq<char>>,
    pub right: bool,
    pub style: Style,
}

/// What a row shows.
pub struct RowView {
    pub cells: Seq<CellView>,
    pub height: nat,
    pub style: Style,
}

/// What a panel shows.
pub enum BodyView {
    Text(Seq<char>, Style),
    Table(Seq<RowView>, Seq<nat>),
}

/// A panel's measure and what it shows.
pub struct PanelView {
    pub height: nat,
    pub body: BodyView,
}

impl CellPlan {
    pub open spec fn shown(self) -> CellView {
        CellView { lines: report::texts(self.lines@), right: self.right, style: self.style }
    }
}

impl RowPlan {
    pub open spec fn shown(self) -> RowView {
        RowView {
            cells: self.cells@.map_values(|c: CellPlan| c.shown()),
            height: self.height as nat,
            style: self.style,
        }
    }
}

/// What rows show.
pub open spec fn rows_shown(rows: Seq<RowPlan>) -> Seq<RowView> {
    rows.map_values(|r: RowPlan| r.shown())
}

/// Widths as numbers.
pub open spec fn measures(widths: Seq<usize>) -> Seq<nat> {
    widths.map_values(|w: usize| w as nat)
}

impl Panel {
    pub open spec fn shown(self) -> PanelView {
        PanelView {
            height: self.height as nat,
            body: match self.body {
                Body::Text(text, style) => BodyView::Text(text@, style),
                Body::Table(rows, widths) => BodyView::Table(rows_shown(rows@), measures(widths@)),
            },
        }
    }
}

/// What panels show.
pub open spec fn panels_shown(panels: Seq<Panel>) -> Seq<PanelView> {
    panels.map_values(|p: Panel| p.shown())
}

/// Why a report cannot be drawn.
pub open spec fn too_tall() -> Seq<char> {
    "report section is too tall for terminal rendering"@
}

/// The columns that `ratatui` gives a line of text.
pub uninterp spec fn columns_of(text: Seq<char>) -> usize;

/// `ratatui::text::Line::width` of a raw line: the columns that the text takes.
#[verifier::external_body]
fn display_width(text: &str) -> (r: usize)
    ensures
        r == columns_of(text@),
{
    ratatui::text::Line::raw(text).width()
}

/// The lines that `textwrap` makes of a text at a width.
pub uninterp spec fn wrapped(text: Seq<char>, width: usize) -> Seq<Seq<char>>;

/// `textwrap::wrap` at a width: the lines that the text is broken into.
#[verifier::external_body]
fn wrap(text: &str, width: usize) -> (r: Vec<String>)
    requires
        width > 0,
    ensures
        report::texts(r@) == wrapped(text@, width),
{
    textwrap::wrap(text, width).into_iter().map(|line| line.into_owned()).collect()
}

/// The lines that a paragraph of `ratatui` takes at a width.
pub uninterp spec fn paragraph_lines(text: Seq<char>, width: u16) -> usize;

/// The widest panel. `ratatui` adds up to four widths of at most a line's in 16 bits while it
/// wraps, and one character cluster may be as wide as the line.
pub const WIDEST: u16 = 16383;

/// `ratatui::widgets::Paragraph::line_count` of a wrapped paragraph that keeps its blanks.
#[verifier::external_body]
fn count_lines(text: &str, width: u16) -> (r: usize)
    requires
        width <= WIDEST,
    ensures
        r == paragraph_lines(text@, width),
{
    let wrap = ratatui::widgets::Wrap { trim: false };
    ratatui::widgets::Paragraph::new(text).wrap(wrap).line_count(width)
}

/// A panel's measure, where a terminal can have it.
pub fn height(lines: usize) -> (r: Result<u16, &'static str>)
    ensures
        match r {
            Ok(h) => h == lines,
            Err(e) => lines > u16::MAX && e@ == too_tall(),
        },
{
    if lines > 65535 {
        return Err("report section is too tall for terminal rendering");
    }
    Ok(lines as u16)
}

/// Where the digits from a place on end.
pub open spec fn digits_end(text: Seq<char>, from: int) -> int
    decreases text.len() - from,
{
    if from < text.len() && '0' <= text[from] && text[from] <= '9' {
        digits_end(text, from + 1)
    } else {
        from
    }
}

/// Where a sign at a place ends.
pub open spec fn sign_end(text: Seq<char>, from: int) -> int {
    if from < text.len() && (text[from] == '+' || text[from] == '-') {
        from + 1
    } else {
        from
    }
}

/// Whether a text ends at a place, or goes on with an exponent to its end.
pub open spec fn exponent_or_end(text: Seq<char>, from: int) -> bool {
    if from == text.len() {
        true
    } else {
        let digits = sign_end(text, from + 1);
        (text[from] == 'e' || text[from] == 'E') && digits_end(text, digits) > digits && digits_end(text, digits)
            == text.len()
    }
}

/// Whether a text is the name of a number that has no digits.
pub open spec fn named_number(text: Seq<char>) -> bool {
    text::lower(text) == "inf"@ || text::lower(text) == "infinity"@ || text::lower(text) == "nan"@
}

/// Whether a text reads as a real number: a sign or none, then digits with a point among
/// them or none and an exponent or none, or the name of a number.
pub open spec fn reads_as_real(text: Seq<char>) -> bool {
    let start = sign_end(text, 0);
    let whole = digits_end(text, start);
    let point = whole < text.len() && text[whole] == '.';
    let end = if point {
        digits_end(text, whole + 1)
    } else {
        whole
    };
    let digits = if point {
        whole - start + end - (whole + 1)
    } else {
        whole - start
    };
    named_number(text.skip(start)) || (digits > 0 && exponent_or_end(text, end))
}

/// Whether a value is shown as a number.
pub open spec fn numeric_text(text: Seq<char>) -> bool {
    text == "n/a"@ || reads_as_real(text)
}

fn skip_digits(chars: &Vec<char>, from: usize) -> (r: usize)
    requires
        from <= chars@.len(),
    ensures
        r == digits_end(chars@, from as int),
        from <= r <= chars@.len(),
{
    let mut i: usize = from;
    while i < chars.len() && '0' <= chars[i] && chars[i] <= '9'
        invariant
            from <= i <= chars@.len(),
            digits_end(chars@, from as int) == digits_end(chars@, i as int),
        decreases chars@.len() - i,
    {
        i = i + 1;
    }
    i
}

fn skip_sign(chars: &Vec<char>, from: usize) -> (r: usize)
    requires
        from <= chars@.len(),
    ensures
        r == sign_end(chars@, from as int),
        from <= r <= chars@.len(),
{
    if from < chars.len() && (chars[from] == '+' || chars[from] == '-') {
        from + 1
    } else {
        from
    }
}

/// Whether a value is shown as a number: this chooses its alignment only.
pub fn numeric(value: &str) -> (r: bool)
    ensures
        r == numeric_text(value@),
{
    if same(value, "n/a") {
        return true;
    }
    let chars = chars_of(value);
    let n: usize = chars.len();
    let start: usize = skip_sign(&chars, 0);
    let rest: String = to_lower(vstd::slice::slice_subrange(chars.as_slice(), start, n));
    assert(value@.subrange(start as int, n as int) =~= value@.skip(start as int));
    if same(rest.as_str(), "inf") || same(rest.as_str(), "infinity") || same(rest.as_str(), "nan") {
        return true;
    }
    let whole: usize = skip_digits(&chars, start);
    let point: bool = whole < n && chars[whole] == '.';
    let end: usize = if point {
        skip_digits(&chars, whole + 1)
    } else {
        whole
    };
    let any: bool = if point {
        whole > start || end > whole + 1
    } else {
        whole > start
    };
    if !any {
        return false;
    }
    if end == n {
        return true;
    }
    if chars[end] != 'e' && chars[end] != 'E' {
        return false;
    }
    let digits: usize = skip_sign(&chars, end + 1);
    let last: usize = skip_digits(&chars, digits);
    last > digits && last == n
}

/// The smaller of two.
pub open spec fn least(a: nat, b: nat) -> nat {
    if a < b {
        a
    } else {
        b
    }
}

/// The larger of two.
pub open spec fn most(a: nat, b: nat) -> nat {
    if a > b {
        a
    } else {
        b
    }
}

/// A number between two others.
pub open spec fn clamped(n: nat, lo: nat, hi: nat) -> nat {
    if n < lo {
        lo
    } else if n > hi {
        hi
    } else {
        n
    }
}

/// A panel that shows text.
pub open spec fn text_panel(text: Seq<char>, width: u16, style: Style) -> PanelView {
    PanelView { height: paragraph_lines(text, width) as nat, body: BodyView::Text(text, style) }
}

/// Whether a terminal can have panels.
pub open spec fn drawable(panels: Seq<PanelView>) -> bool {
    forall|i: int| 0 <= i < panels.len() ==> (#[trigger] panels[i]).height <= u16::MAX && body_drawable(panels[i].body)
}

/// Whether a terminal can have what a panel shows.
pub open spec fn body_drawable(body: BodyView) -> bool {
    match body {
        BodyView::Text(_, _) => true,
        BodyView::Table(rows, _) => forall|i: int| 0 <= i < rows.len() ==> (#[trigger] rows[i]).height <= u16::MAX,
    }
}

fn paragraph(text: &str, width: u16, style: Style) -> (r: Result<Panel, &'static str>)
    requires
        width <= WIDEST,
    ensures
        match r {
            Ok(p) => p.shown() == text_panel(text@, width, style),
            Err(e) => text_panel(text@, width, style).height > u16::MAX && e@ == too_tall(),
        },
{
    let lines: usize = count_lines(text, width);
    match height(lines) {
        Ok(height) => Ok(Panel { height, body: Body::Text(text.to_owned(), style) }),
        Err(e) => Err(e),
    }
}

/// A cell of a row.
pub open spec fn cell(value: Seq<char>, width: nat, right: bool, style: Style) -> CellView {
    CellView {
        lines: wrapped(
            value,
            if width == 0 {
                1
            } else {
                width as usize
            },
        ),
        right,
        style,
    }
}

/// The cells of a row, as many as there are values, widths and alignments.
pub open spec fn cells(values: Seq<Seq<char>>, widths: Seq<nat>, numeric: Seq<bool>, first: Style) -> Seq<CellView> {
    Seq::new(
        least(least(values.len(), widths.len()), numeric.len()),
        |i: int|
            cell(
                values[i],
                widths[i],
                numeric[i],
                if i == 0 {
                    first
                } else {
                    Style::Plain
                },
            ),
    )
}

/// The lines of the tallest of the first cells, and one where there is none.
pub open spec fn tallest(cells: Seq<CellView>, n: int) -> nat
    decreases n,
{
    if n <= 0 {
        1
    } else {
        most(tallest(cells, n - 1), cells[n - 1].lines.len())
    }
}

/// A row of values.
pub open spec fn row(values: Seq<Seq<char>>, widths: Seq<nat>, numeric: Seq<bool>, first: Style, style: Style) -> RowView {
    let c = cells(values, widths, numeric, first);
    RowView { cells: c, height: tallest(c, c.len() as int), style }
}

fn wrapped_row(values: &Vec<String>, widths: &Vec<usize>, numeric: &Vec<bool>, first: Style, style: Style) -> (r: Result<
    RowPlan,
    &'static str,
>)
    ensures
        ({
            let wanted = row(report::texts(values@), measures(widths@), numeric@, first, style);
            match r {
                Ok(plan) => plan.shown() == wanted,
                Err(e) => wanted.height > u16::MAX && e@ == too_tall(),
            }
        }),
{
    let ghost all = cells(report::texts(values@), measures(widths@), numeric@, first);
    let mut out: Vec<CellPlan> = Vec::new();
    let mut tall: usize = 1;
    let mut i: usize = 0;
    while i < values.len() && i < widths.len() && i < numeric.len()
        invariant
            i <= values@.len(),
            i <= widths@.len(),
            i <= numeric@.len(),
            all == cells(report::texts(values@), measures(widths@), numeric@, first),
            out@.len() == i,
            forall|k: int| 0 <= k < i ==> (#[trigger] out@[k]).shown() == all[k],
            tall == tallest(all, i as int),
        decreases values@.len() - i,
    {
        let width: usize = if widths[i] == 0 {
            1
        } else {
            widths[i]
        };
        let lines: Vec<String> = wrap(values[i].as_str(), width);
        assert(report::texts(lines@).len() == lines@.len());
        assert(all[i as int].lines == report::texts(lines@));
        if lines.len() > tall {
            tall = lines.len();
        }
        let plan = CellPlan {
            lines,
            right: numeric[i],
            style: if i == 0 {
                first
            } else {
                Style::Plain
            },
        };
        out.push(plan);
        i = i + 1;
    }
    assert(all.len() == i);
    match height(tall) {
        Ok(height) => {
            let plan = RowPlan { cells: out, height, style };
            assert(plan.shown().cells =~= all);
            Ok(plan)
        },
        Err(e) => Err(e),
    }
}

/// The columns of the widest of the first texts.
pub open spec fn widest(texts: Seq<Seq<char>>, n: int) -> nat
    decreases n,
{
    if n <= 0 {
        0
    } else {
        most(widest(texts, n - 1), columns_of(texts[n - 1]) as nat)
    }
}

/// The names of fields.
pub open spec fn labels(values: Seq<(Seq<char>, Seq<char>)>) -> Seq<Seq<char>> {
    values.map_values(|p: (Seq<char>, Seq<char>)| p.0)
}

/// The values of fields.
pub open spec fn contents(values: Seq<(Seq<char>, Seq<char>)>) -> Seq<Seq<char>> {
    values.map_values(|p: (Seq<char>, Seq<char>)| p.1)
}

/// The width of the values: what the widest takes, two thirds at most.
pub open spec fn value_width(values: Seq<(Seq<char>, Seq<char>)>, width: u16) -> nat {
    clamped(widest(contents(values), values.len() as int), 1, (width as nat * 2) / 3)
}

/// The width of the names: what the widest takes, and no more than the values leave.
pub open spec fn label_width(values: Seq<(Seq<char>, Seq<char>)>, width: u16) -> nat {
    clamped(
        widest(labels(values), values.len() as int),
        1,
        (width - value_width(values, width) - 2) as nat,
    )
}

/// The widths of the two columns of fields, given the columns that the widest name and the
/// widest value take.
pub fn field_columns(names: usize, values: usize, width: u16) -> (r: (usize, usize))
    requires
        width >= 8,
    ensures
        r.1 == clamped(values as nat, 1, (width as nat * 2) / 3),
        r.0 == clamped(names as nat, 1, (width - r.1 - 2) as nat),
        r.0 + 2 + r.1 <= width,
{
    let most_value: usize = width as usize * 2 / 3;
    let value: usize = if values < 1 {
        1
    } else if values > most_value {
        most_value
    } else {
        values
    };
    let most_label: usize = width as usize - value - 2;
    let label: usize = if names < 1 {
        1
    } else if names > most_label {
        most_label
    } else {
        names
    };
    (label, value)
}

/// Fields one below the other, each value below its name.
pub open spec fn stacked(values: Seq<(Seq<char>, Seq<char>)>) -> Seq<char>
    decreases values.len(),
{
    if values.len() == 0 {
        Seq::empty()
    } else {
        let last = values.last().0 + "\n"@ + values.last().1;
        if values.len() == 1 {
            last
        } else {
            stacked(values.drop_last()) + "\n"@ + last
        }
    }
}

/// The row of a field.
pub open spec fn field_row(value: (Seq<char>, Seq<char>), widths: Seq<nat>) -> RowView {
    row(seq![value.0, value.1], widths, seq![false, numeric_text(value.1)], Style::Label, Style::Plain)
}

/// The rows of fields.
pub open spec fn field_rows(values: Seq<(Seq<char>, Seq<char>)>, widths: Seq<nat>) -> Seq<RowView> {
    values.map_values(|v: (Seq<char>, Seq<char>)| field_row(v, widths))
}

/// The lines of the first rows together.
pub open spec fn total_height(rows: Seq<RowView>, n: int) -> nat
    decreases n,
{
    if n <= 0 {
        0
    } else {
        total_height(rows, n - 1) + rows[n - 1].height
    }
}

/// The panel of fields: a table of two columns, or lines where there is no room for it.
pub open spec fn fields_panel(values: Seq<(Seq<char>, Seq<char>)>, width: u16) -> PanelView {
    if width < 8 {
        text_panel(stacked(values), width, Style::Plain)
    } else {
        let widths = seq![label_width(values, width), value_width(values, width)];
        let rows = field_rows(values, widths);
        PanelView { height: total_height(rows, rows.len() as int), body: BodyView::Table(rows, widths) }
    }
}

fn fields(values: &Vec<(String, String)>, width: u16) -> (r: Result<Panel, &'static str>)
    requires
        width <= WIDEST,
    ensures
        ({
            let wanted = fields_panel(report::pairs(values@), width);
            match r {
                Ok(p) => p.shown() == wanted && body_drawable(wanted.body),
                Err(e) => !(wanted.height <= u16::MAX && body_drawable(wanted.body)) && e@ == too_tall(),
            }
        }),
{
    let ghost all = report::pairs(values@);
    if width < 8 {
        let mut text: String = String::new();
        let mut i: usize = 0;
        assert(text@ =~= stacked(all.take(0)));
        while i < values.len()
            invariant
                i <= values@.len(),
                all == report::pairs(values@),
                text@ == stacked(all.take(i as int)),
            decreases values@.len() - i,
        {
            assert(all.take(i + 1).drop_last() =~= all.take(i as int));
            if i > 0 {
                text.append("\n");
            }
            text.append(values[i].0.as_str());
            text.append("\n");
            text.append(values[i].1.as_str());
            assert(text@ =~= stacked(all.take(i + 1)));
            i = i + 1;
        }
        assert(all.take(i as int) =~= all);
        return paragraph(text.as_str(), width, Style::Plain);
    }
    let mut names: usize = 0;
    let mut contents_width: usize = 0;
    let mut i: usize = 0;
    while i < values.len()
        invariant
            i <= values@.len(),
            all == report::pairs(values@),
            names == widest(labels(all), i as int),
            contents_width == widest(contents(all), i as int),
        decreases values@.len() - i,
    {
        let a: usize = display_width(values[i].0.as_str());
        let b: usize = display_width(values[i].1.as_str());
        assert(labels(all)[i as int] == values@[i as int].0@);
        assert(contents(all)[i as int] == values@[i as int].1@);
        if a > names {
            names = a;
        }
        if b > contents_width {
            contents_width = b;
        }
        i = i + 1;
    }
    let (label, value): (usize, usize) = field_columns(names, contents_width, width);
    let mut widths: Vec<usize> = Vec::new();
    widths.push(label);
    widths.push(value);
    let ghost columns = seq![label_width(all, width), value_width(all, width)];
    assert(measures(widths@) =~= columns);
    let ghost wanted = field_rows(all, columns);
    let mut rows: Vec<RowPlan> = Vec::new();
    let mut total: usize = 0;
    let mut j: usize = 0;
    while j < values.len()
        invariant
            j <= values@.len(),
            all == report::pairs(values@),
            all.len() == values@.len(),
            measures(widths@) == columns,
            wanted == field_rows(all, columns),
            fields_panel(all, width) == (PanelView {
                height: total_height(wanted, wanted.len() as int),
                body: BodyView::Table(wanted, columns),
            }),
            rows@.len() == j,
            forall|k: int| 0 <= k < j ==> (#[trigger] rows@[k]).shown() == wanted[k],
            if total_height(wanted, j as int) <= 65535 {
                total == total_height(wanted, j as int)
            } else {
                total == 65536
            },
        decreases values@.len() - j,
    {
        let mut pair: Vec<String> = Vec::new();
        pair.push(values[j].0.clone());
        pair.push(values[j].1.clone());
        let mut right: Vec<bool> = Vec::new();
        right.push(false);
        right.push(numeric(values[j].1.as_str()));
        proof {
            assert(report::texts(pair@) =~= seq![all[j as int].0, all[j as int].1]);
            assert(right@ =~= seq![false, numeric_text(all[j as int].1)]);
            assert(wanted[j as int] == field_row(all[j as int], columns));
        }
        match wrapped_row(&pair, &widths, &right, Style::Label, Style::Plain) {
            Ok(plan) => {
                total = add_lines(total, plan.height);
                rows.push(plan);
            },
            Err(e) => {
                assert(wanted[j as int].height > u16::MAX);
                return Err(e);
            },
        }
        j = j + 1;
    }
    assert(rows_shown(rows@) =~= wanted);
    match height(total) {
        Ok(height) => {
            let p = Panel { height, body: Body::Table(rows, widths) };
            assert(body_drawable(p.shown().body)) by {
                assert forall|k: int| 0 <= k < wanted.len() implies (#[trigger] wanted[k]).height <= u16::MAX by {
                    assert(rows@[k].shown() == wanted[k]);
                }
            }
            Ok(p)
        },
        Err(e) => Err(e),
    }
}

/// Adds lines; what no terminal can have stays more than any can.
fn add_lines(total: usize, lines: u16) -> (r: usize)
    requires
        total <= 65536,
    ensures
        r == if total + lines <= 65535 {
            (total + lines) as int
        } else {
            65536
        },
{
    let sum: usize = total + lines as usize;
    if sum <= 65535 {
        sum
    } else {
        65536
    }
}

/// The columns of the widest cell of a column, its header counted.
pub open spec fn column_width(headers: Seq<Seq<char>>, rows: Seq<Seq<Seq<char>>>, c: int, n: int) -> nat
    decreases n,
{
    if n <= 0 {
        columns_of(headers[c]) as nat
    } else if c < rows[n - 1].len() {
        most(column_width(headers, rows, c, n - 1), columns_of(rows[n - 1][c]) as nat)
    } else {
        column_width(headers, rows, c, n - 1)
    }
}

/// The widths of all columns.
pub open spec fn column_widths(headers: Seq<Seq<char>>, rows: Seq<Seq<Seq<char>>>) -> Seq<nat> {
    Seq::new(headers.len(), |c: int| column_width(headers, rows, c, rows.len() as int))
}

/// The first widths together.
pub open spec fn width_sum(widths: Seq<nat>, n: int) -> nat
    decreases n,
{
    if n <= 0 {
        0
    } else {
        width_sum(widths, n - 1) + widths[n - 1]
    }
}

/// The columns that a table takes, two blanks between its columns.
pub open spec fn natural_width(widths: Seq<nat>) -> nat {
    width_sum(widths, widths.len() as int) + if widths.len() == 0 {
        0
    } else {
        ((widths.len() - 1) * 2) as nat
    }
}

/// Whether every one of the first rows shows a number in a column.
pub open spec fn numeric_column(rows: Seq<Seq<Seq<char>>>, c: int, n: int) -> bool
    decreases n,
{
    n <= 0 || (numeric_column(rows, c, n - 1) && c < rows[n - 1].len() && numeric_text(rows[n - 1][c]))
}

/// The alignments of all columns.
pub open spec fn alignments(headers: Seq<Seq<char>>, rows: Seq<Seq<Seq<char>>>) -> Seq<bool> {
    Seq::new(headers.len(), |c: int| numeric_column(rows, c, rows.len() as int))
}

/// A rule as wide as a column.
pub open spec fn rule(width: nat) -> Seq<char> {
    Seq::new(width, |i: int| '─')
}

/// The rules below the headers.
pub open spec fn rule_row(widths: Seq<nat>) -> RowView {
    RowView {
        cells: widths.map_values(|w: nat| CellView { lines: seq![rule(w)], right: false, style: Style::Plain }),
        height: 1,
        style: Style::Rule,
    }
}

/// The rows of a table: headers, rules, then the rows themselves.
pub open spec fn body_rows(rows: Seq<Seq<Seq<char>>>, widths: Seq<nat>, right: Seq<bool>) -> Seq<RowView> {
    rows.map_values(|r: Seq<Seq<char>>| row(r, widths, right, Style::Plain, Style::Plain))
}

/// The panel of a table that fits.
pub open spec fn grid_panel(headers: Seq<Seq<char>>, rows: Seq<Seq<Seq<char>>>) -> PanelView {
    let widths = column_widths(headers, rows);
    let right = alignments(headers, rows);
    let body = body_rows(rows, widths, right);
    PanelView {
        height: total_height(body, body.len() as int) + 2,
        body: BodyView::Table(
            seq![row(headers, widths, right, Style::Plain, Style::Header), rule_row(widths)] + body,
            widths,
        ),
    }
}

/// The fields of a row: each value under its header's name.
pub open spec fn card(headers: Seq<Seq<char>>, values: Seq<Seq<char>>) -> Seq<(Seq<char>, Seq<char>)> {
    Seq::new(least(headers.len(), values.len()), |i: int| (headers[i], values[i]))
}

/// The panels of a table that does not fit: the fields of each row, and a blank line.
pub open spec fn card_panels(headers: Seq<Seq<char>>, rows: Seq<Seq<Seq<char>>>, width: u16) -> Seq<PanelView>
    decreases rows.len(),
{
    if rows.len() == 0 {
        Seq::empty()
    } else {
        card_panels(headers, rows.drop_last(), width).push(fields_panel(card(headers, rows.last()), width)).push(
            text_panel(""@, width, Style::Plain),
        )
    }
}

/// The panels of a table.
pub open spec fn table_panels(headers: Seq<Seq<char>>, rows: Seq<Seq<Seq<char>>>, width: u16) -> Seq<PanelView> {
    if rows.len() == 0 {
        seq![text_panel("No entries."@, width, Style::Label)]
    } else if natural_width(column_widths(headers, rows)) > width {
        card_panels(headers, rows, width)
    } else {
        seq![grid_panel(headers, rows)]
    }
}

/// The panels of a section: its title where it has one, what it holds, and a blank line.
pub open spec fn section_panels(section: Section, width: u16) -> Seq<PanelView> {
    let blank = text_panel(""@, width, Style::Plain);
    match section {
        Section::Fields { title, values } => seq![
            text_panel(title@, width, Style::Heading),
            fields_panel(report::pairs(values@), width),
            blank,
        ],
        Section::Table { title, data } => (seq![text_panel(title@, width, Style::Heading)] + table_panels(
            report::texts(data.headers@),
            report::records(data.rows@),
            width,
        )).push(blank),
        Section::Note(text) => seq![text_panel(text@, width, Style::Label), blank],
    }
}

/// The panels of the first sections.
pub open spec fn report_panels(sections: Seq<Section>, width: u16) -> Seq<PanelView>
    decreases sections.len(),
{
    if sections.len() == 0 {
        Seq::empty()
    } else {
        report_panels(sections.drop_last(), width) + section_panels(sections.last(), width)
    }
}

fn column_measure(data: &TableData, c: usize) -> (r: usize)
    requires
        c < data.headers@.len(),
    ensures
        r == column_width(
            report::texts(data.headers@),
            report::records(data.rows@),
            c as int,
            data.rows@.len() as int,
        ),
{
    let ghost headers = report::texts(data.headers@);
    let ghost rows = report::records(data.rows@);
    let mut wide: usize = display_width(data.headers[c].as_str());
    let mut i: usize = 0;
    while i < data.rows.len()
        invariant
            i <= data.rows@.len(),
            headers == report::texts(data.headers@),
            rows == report::records(data.rows@),
            wide == column_width(headers, rows, c as int, i as int),
        decreases data.rows@.len() - i,
    {
        let values: &Vec<String> = &data.rows[i];
        assert(rows[i as int] == report::texts(values@));
        if c < values.len() {
            let w: usize = display_width(values[c].as_str());
            if w > wide {
                wide = w;
            }
        }
        i = i + 1;
    }
    wide
}

fn column_is_numeric(data: &TableData, c: usize) -> (r: bool)
    ensures
        r == numeric_column(report::records(data.rows@), c as int, data.rows@.len() as int),
{
    let ghost rows = report::records(data.rows@);
    let mut all: bool = true;
    let mut i: usize = 0;
    while i < data.rows.len()
        invariant
            i <= data.rows@.len(),
            rows == report::records(data.rows@),
            all == numeric_column(rows, c as int, i as int),
        decreases data.rows@.len() - i,
    {
        let values: &Vec<String> = &data.rows[i];
        assert(rows[i as int] == report::texts(values@));
        all = all && c < values.len() && numeric(values[c].as_str());
        i = i + 1;
    }
    all
}

fn draw_rule(width: usize) -> (r: String)
    ensures
        r@ == rule(width as nat),
{
    let mut chars: Vec<char> = Vec::new();
    let mut i: usize = 0;
    while i < width
        invariant
            i <= width,
            chars@ == rule(i as nat),
        decreases width - i,
    {
        chars.push('─');
        i = i + 1;
        assert(chars@ =~= rule(i as nat));
    }
    text::from_chars(chars.as_slice())
}

fn rules(widths: &Vec<usize>) -> (r: RowPlan)
    ensures
        r.shown() == rule_row(measures(widths@)),
{
    let ghost wanted = rule_row(measures(widths@)).cells;
    let mut cells: Vec<CellPlan> = Vec::new();
    let mut i: usize = 0;
    while i < widths.len()
        invariant
            i <= widths@.len(),
            wanted == rule_row(measures(widths@)).cells,
            cells@.len() == i,
            forall|k: int| 0 <= k < i ==> (#[trigger] cells@[k]).shown() == wanted[k],
        decreases widths@.len() - i,
    {
        let mut lines: Vec<String> = Vec::new();
        lines.push(draw_rule(widths[i]));
        assert(report::texts(lines@) =~= seq![rule(widths@[i as int] as nat)]);
        cells.push(CellPlan { lines, right: false, style: Style::Plain });
        i = i + 1;
    }
    let plan = RowPlan { cells, height: 1, style: Style::Rule };
    assert(plan.shown().cells =~= wanted);
    plan
}

/// Whether a table of such columns is wider than a terminal.
pub fn too_wide(widths: &Vec<usize>, width: u16) -> (r: bool)
    ensures
        r == (natural_width(measures(widths@)) > width),
{
    let ghost columns = measures(widths@);
    let mut left: usize = width as usize;
    let mut i: usize = 0;
    while i < widths.len()
        invariant
            i <= widths@.len(),
            columns == measures(widths@),
            left <= width,
            width_sum(columns, i as int) + (if i == 0 {
                0int
            } else {
                (i - 1) * 2
            }) == width - left,
        decreases widths@.len() - i,
    {
        let blanks: usize = if i == 0 {
            0
        } else {
            2
        };
        if blanks > left || widths[i] > left - blanks {
            proof {
                lemma_width_sum(columns, i + 1, columns.len() as int);
                assert(columns[i as int] == widths@[i as int]);
            }
            return true;
        }
        left = left - blanks - widths[i];
        i = i + 1;
    }
    false
}

proof fn lemma_width_sum(widths: Seq<nat>, m: int, n: int)
    requires
        0 <= m <= n <= widths.len(),
    ensures
        width_sum(widths, m) <= width_sum(widths, n),
    decreases n - m,
{
    if m < n {
        lemma_width_sum(widths, m, n - 1);
    }
}

fn grid(data: &TableData, widths: Vec<usize>) -> (r: Result<Panel, &'static str>)
    requires
        measures(widths@) == column_widths(report::texts(data.headers@), report::records(data.rows@)),
    ensures
        ({
            let wanted = grid_panel(report::texts(data.headers@), report::records(data.rows@));
            match r {
                Ok(p) => p.shown() == wanted && body_drawable(wanted.body),
                Err(e) => !(wanted.height <= u16::MAX && body_drawable(wanted.body)) && e@ == too_tall(),
            }
        }),
{
    let ghost headers = report::texts(data.headers@);
    let ghost records = report::records(data.rows@);
    let ghost columns = column_widths(headers, records);
    let ghost wanted = grid_panel(headers, records);
    let mut right: Vec<bool> = Vec::new();
    let mut c: usize = 0;
    while c < data.headers.len()
        invariant
            c <= data.headers@.len(),
            headers == report::texts(data.headers@),
            records == report::records(data.rows@),
            right@ == alignments(headers, records).take(c as int),
        decreases data.headers@.len() - c,
    {
        right.push(column_is_numeric(data, c));
        c = c + 1;
        assert(right@ =~= alignments(headers, records).take(c as int));
    }
    assert(right@ =~= alignments(headers, records));
    let ghost body = body_rows(records, columns, right@);
    let ghost shown = wanted.body->Table_0;
    assert(shown == seq![row(headers, columns, right@, Style::Plain, Style::Header), rule_row(columns)] + body);
    let mut rows: Vec<RowPlan> = Vec::new();
    match wrapped_row(&data.headers, &widths, &right, Style::Plain, Style::Header) {
        Ok(plan) => rows.push(plan),
        Err(e) => {
            assert(shown[0].height > u16::MAX);
            return Err(e);
        },
    }
    rows.push(rules(&widths));
    let mut total: usize = 2;
    let mut i: usize = 0;
    while i < data.rows.len()
        invariant
            i <= data.rows@.len(),
            records == report::records(data.rows@),
            measures(widths@) == columns,
            body == body_rows(records, columns, right@),
            headers == report::texts(data.headers@),
            wanted == grid_panel(headers, records),
            wanted.body is Table,
            shown == wanted.body->Table_0,
            shown == seq![row(headers, columns, right@, Style::Plain, Style::Header), rule_row(columns)] + body,
            rows@.len() == i + 2,
            forall|k: int| 0 <= k < i + 2 ==> (#[trigger] rows@[k]).shown() == shown[k],
            if total_height(body, i as int) + 2 <= 65535 {
                total == total_height(body, i as int) + 2
            } else {
                total == 65536
            },
        decreases data.rows@.len() - i,
    {
        assert(records[i as int] == report::texts(data.rows@[i as int]@));
        assert(body[i as int] == shown[i + 2]);
        match wrapped_row(&data.rows[i], &widths, &right, Style::Plain, Style::Plain) {
            Ok(plan) => {
                total = add_lines(total, plan.height);
                rows.push(plan);
            },
            Err(e) => {
                assert(shown[i + 2].height > u16::MAX);
                return Err(e);
            },
        }
        i = i + 1;
    }
    assert(rows_shown(rows@) =~= shown);
    match height(total) {
        Ok(height) => {
            let p = Panel { height, body: Body::Table(rows, widths) };
            assert forall|k: int| 0 <= k < shown.len() implies (#[trigger] shown[k]).height <= u16::MAX by {
                assert(rows@[k].shown() == shown[k]);
            }
            Ok(p)
        },
        Err(e) => Err(e),
    }
}

/// Whether panels that were drawn show what they should, and can all be had.
pub open spec fn drawn(r: Result<Vec<Panel>, &'static str>, wanted: Seq<PanelView>) -> bool {
    match r {
        Ok(panels) => panels_shown(panels@) == wanted && drawable(wanted),
        Err(e) => !drawable(wanted) && e@ == too_tall(),
    }
}

fn make_card(headers: &Vec<String>, values: &Vec<String>) -> (r: Vec<(String, String)>)
    ensures
        report::pairs(r@) == card(report::texts(headers@), report::texts(values@)),
{
    let ghost wanted = card(report::texts(headers@), report::texts(values@));
    let mut out: Vec<(String, String)> = Vec::new();
    let mut i: usize = 0;
    while i < headers.len() && i < values.len()
        invariant
            i <= headers@.len(),
            i <= values@.len(),
            out@.len() == i,
            forall|k: int| 0 <= k < i ==> (#[trigger] out@[k]).0@ == headers@[k]@ && out@[k].1@ == values@[k]@,
        decreases headers@.len() - i,
    {
        out.push((headers[i].clone(), values[i].clone()));
        i = i + 1;
    }
    assert(report::pairs(out@) =~= wanted);
    out
}

proof fn lemma_drawable_push(panels: Seq<PanelView>, p: PanelView)
    ensures
        drawable(panels.push(p)) == (drawable(panels) && p.height <= u16::MAX && body_drawable(p.body)),
{
    let longer = panels.push(p);
    if drawable(longer) {
        assert forall|i: int| 0 <= i < panels.len() implies (#[trigger] panels[i]).height <= u16::MAX && body_drawable(
            panels[i].body,
        ) by {
            assert(longer[i] == panels[i]);
        }
        assert(longer[panels.len() as int] == p);
    }
}

proof fn lemma_drawable_prefix(a: Seq<PanelView>, b: Seq<PanelView>)
    requires
        !drawable(a),
        a.is_prefix_of(b),
    ensures
        !drawable(b),
{
    let i = choose|i: int|
        0 <= i < a.len() && !((#[trigger] a[i]).height <= u16::MAX && body_drawable(a[i].body));
    assert(b.subrange(0, a.len() as int)[i] == a[i]);
    assert(b[i] == a[i]);
}

/// Adds a panel to those before it.
fn add_panel(panels: &mut Vec<Panel>, more: Result<Panel, &'static str>, wanted: Ghost<PanelView>) -> (r: Result<
    (),
    &'static str,
>)
    requires
        match more {
            Ok(p) => p.shown() == wanted@ && body_drawable(wanted@.body),
            Err(e) => !(wanted@.height <= u16::MAX && body_drawable(wanted@.body)) && e@ == too_tall(),
        },
        drawable(panels_shown(old(panels)@)),
    ensures
        match r {
            Ok(()) => panels_shown(final(panels)@) == panels_shown(old(panels)@).push(wanted@) && drawable(
                panels_shown(final(panels)@),
            ),
            Err(e) => !drawable(panels_shown(old(panels)@).push(wanted@)) && e@ == too_tall(),
        },
{
    proof {
        lemma_drawable_push(panels_shown(panels@), wanted@);
    }
    match more {
        Ok(p) => {
            let ghost before = panels@;
            panels.push(p);
            assert(panels_shown(panels@) =~= panels_shown(before).push(wanted@));
            Ok(())
        },
        Err(e) => Err(e),
    }
}

fn cards(data: &TableData, width: u16, panels: &mut Vec<Panel>) -> (r: Result<(), &'static str>)
    requires
        width <= WIDEST,
        drawable(panels_shown(old(panels)@)),
    ensures
        ({
            let wanted = panels_shown(old(panels)@) + card_panels(
                report::texts(data.headers@),
                report::records(data.rows@),
                width,
            );
            match r {
                Ok(()) => panels_shown(final(panels)@) == wanted && drawable(wanted),
                Err(e) => !drawable(wanted) && e@ == too_tall(),
            }
        }),
{
    let ghost start = panels_shown(panels@);
    let ghost headers = report::texts(data.headers@);
    let ghost rows = report::records(data.rows@);
    let ghost wanted = start + card_panels(headers, rows, width);
    let mut i: usize = 0;
    assert(start + card_panels(headers, rows.take(0), width) =~= start);
    while i < data.rows.len()
        invariant
            i <= data.rows@.len(),
            headers == report::texts(data.headers@),
            rows == report::records(data.rows@),
            start == panels_shown(old(panels)@),
            width <= WIDEST,
            wanted == start + card_panels(headers, rows, width),
            panels_shown(panels@) == start + card_panels(headers, rows.take(i as int), width),
            drawable(panels_shown(panels@)),
        decreases data.rows@.len() - i,
    {
        let ghost before = panels_shown(panels@);
        let ghost next = fields_panel(card(headers, rows[i as int]), width);
        let ghost blank = text_panel(""@, width, Style::Plain);
        proof {
            assert(rows.take(i + 1).drop_last() =~= rows.take(i as int));
            assert(rows.take(i + 1).last() == rows[i as int]);
            assert(rows[i as int] == report::texts(data.rows@[i as int]@));
            lemma_card_panels_prefix(headers, rows, width, i + 1);
            assert(start + card_panels(headers, rows.take(i + 1), width) =~= before.push(next).push(blank));
            assert(before.push(next).push(blank).is_prefix_of(wanted)) by {
                let a = card_panels(headers, rows.take(i + 1), width);
                assert(wanted.subrange(0, (start + a).len() as int) =~= start + a);
            }
            assert(before.push(next).is_prefix_of(wanted)) by {
                let b = before.push(next);
                assert(wanted.subrange(0, b.len() as int) =~= b);
            }
        }
        let fields_data = make_card(&data.headers, &data.rows[i]);
        match add_panel(panels, fields(&fields_data, width), Ghost(next)) {
            Ok(()) => {},
            Err(e) => {
                proof {
                    lemma_drawable_prefix(before.push(next), wanted);
                }
                return Err(e);
            },
        }
        match add_panel(panels, paragraph("", width, Style::Plain), Ghost(blank)) {
            Ok(()) => {},
            Err(e) => {
                proof {
                    lemma_drawable_prefix(before.push(next).push(blank), wanted);
                }
                return Err(e);
            },
        }
        i = i + 1;
    }
    assert(rows.take(i as int) =~= rows);
    Ok(())
}

proof fn lemma_card_panels_prefix(headers: Seq<Seq<char>>, rows: Seq<Seq<Seq<char>>>, width: u16, n: int)
    requires
        0 <= n <= rows.len(),
    ensures
        card_panels(headers, rows.take(n), width).is_prefix_of(card_panels(headers, rows, width)),
    decreases rows.len(),
{
    let a = card_panels(headers, rows.take(n), width);
    let b = card_panels(headers, rows, width);
    if n == rows.len() {
        assert(rows.take(n) =~= rows);
        assert(b.subrange(0, a.len() as int) =~= a);
    } else {
        lemma_card_panels_prefix(headers, rows.drop_last(), width, n);
        assert(rows.drop_last().take(n) =~= rows.take(n));
        let c = card_panels(headers, rows.drop_last(), width);
        assert(b.subrange(0, a.len() as int) =~= c.subrange(0, a.len() as int));
    }
}

fn table(data: &TableData, width: u16, panels: &mut Vec<Panel>) -> (r: Result<(), &'static str>)
    requires
        width <= WIDEST,
        drawable(panels_shown(old(panels)@)),
    ensures
        ({
            let wanted = panels_shown(old(panels)@) + table_panels(
                report::texts(data.headers@),
                report::records(data.rows@),
                width,
            );
            match r {
                Ok(()) => panels_shown(final(panels)@) == wanted && drawable(wanted),
                Err(e) => !drawable(wanted) && e@ == too_tall(),
            }
        }),
{
    let ghost start = panels_shown(panels@);
    let ghost headers = report::texts(data.headers@);
    let ghost rows = report::records(data.rows@);
    assert(rows.len() == data.rows@.len());
    if data.rows.len() == 0 {
        let ghost only = text_panel("No entries."@, width, Style::Label);
        assert(start + table_panels(headers, rows, width) =~= start.push(only));
        return add_panel(panels, paragraph("No entries.", width, Style::Label), Ghost(only));
    }
    let mut widths: Vec<usize> = Vec::new();
    let mut c: usize = 0;
    while c < data.headers.len()
        invariant
            c <= data.headers@.len(),
            headers == report::texts(data.headers@),
            rows == report::records(data.rows@),
            rows.len() == data.rows@.len(),
            widths@.len() == c,
            forall|k: int|
                0 <= k < c ==> (#[trigger] widths@[k]) as nat == column_width(headers, rows, k, rows.len() as int),
        decreases data.headers@.len() - c,
    {
        widths.push(column_measure(data, c));
        c = c + 1;
    }
    assert(measures(widths@) =~= column_widths(headers, rows));
    if too_wide(&widths, width) {
        return cards(data, width, panels);
    }
    let ghost only = grid_panel(headers, rows);
    assert(start + table_panels(headers, rows, width) =~= start.push(only));
    add_panel(panels, grid(data, widths), Ghost(only))
}

proof fn lemma_report_panels_prefix(sections: Seq<Section>, width: u16, n: int)
    requires
        0 <= n <= sections.len(),
    ensures
        report_panels(sections.take(n), width).is_prefix_of(report_panels(sections, width)),
    decreases sections.len(),
{
    let a = report_panels(sections.take(n), width);
    let b = report_panels(sections, width);
    if n == sections.len() {
        assert(sections.take(n) =~= sections);
        assert(b.subrange(0, a.len() as int) =~= a);
    } else {
        lemma_report_panels_prefix(sections.drop_last(), width, n);
        assert(sections.drop_last().take(n) =~= sections.take(n));
        let c = report_panels(sections.drop_last(), width);
        assert(b.subrange(0, a.len() as int) =~= c.subrange(0, a.len() as int));
    }
}

fn add_section(section: &Section, width: u16, panels: &mut Vec<Panel>) -> (r: Result<(), &'static str>)
    requires
        width <= WIDEST,
        drawable(panels_shown(old(panels)@)),
    ensures
        ({
            let wanted = panels_shown(old(panels)@) + section_panels(*section, width);
            match r {
                Ok(()) => panels_shown(final(panels)@) == wanted && drawable(wanted),
                Err(e) => !drawable(wanted) && e@ == too_tall(),
            }
        }),
{
    let ghost start = panels_shown(panels@);
    let ghost wanted = start + section_panels(*section, width);
    let ghost blank = text_panel(""@, width, Style::Plain);
    match section {
        Section::Fields { title, values } => {
            let ghost head = text_panel(title@, width, Style::Heading);
            let ghost body = fields_panel(report::pairs(values@), width);
            proof {
                assert(wanted =~= start.push(head).push(body).push(blank));
                assert(wanted.subrange(0, start.len() as int + 1) =~= start.push(head));
                assert(wanted.subrange(0, start.len() as int + 2) =~= start.push(head).push(body));
            }
            match add_panel(panels, paragraph(title.as_str(), width, Style::Heading), Ghost(head)) {
                Ok(()) => {},
                Err(e) => {
                    proof {
                        lemma_drawable_prefix(start.push(head), wanted);
                    }
                    return Err(e);
                },
            }
            match add_panel(panels, fields(values, width), Ghost(body)) {
                Ok(()) => {},
                Err(e) => {
                    proof {
                        lemma_drawable_prefix(start.push(head).push(body), wanted);
                    }
                    return Err(e);
                },
            }
        },
        Section::Table { title, data } => {
            let ghost head = text_panel(title@, width, Style::Heading);
            let ghost body = table_panels(report::texts(data.headers@), report::records(data.rows@), width);
            proof {
                assert(wanted =~= (start.push(head) + body).push(blank));
                assert(wanted.subrange(0, start.len() as int + 1) =~= start.push(head));
                assert(wanted.subrange(0, (start.push(head) + body).len() as int) =~= start.push(head) + body);
            }
            match add_panel(panels, paragraph(title.as_str(), width, Style::Heading), Ghost(head)) {
                Ok(()) => {},
                Err(e) => {
                    proof {
                        lemma_drawable_prefix(start.push(head), wanted);
                    }
                    return Err(e);
                },
            }
            match table(data, width, panels) {
                Ok(()) => {},
                Err(e) => {
                    proof {
                        lemma_drawable_prefix(start.push(head) + body, wanted);
                    }
                    return Err(e);
                },
            }
        },
        Section::Note(text) => {
            let ghost only = text_panel(text@, width, Style::Label);
            proof {
                assert(wanted =~= start.push(only).push(blank));
                assert(wanted.subrange(0, start.len() as int + 1) =~= start.push(only));
            }
            match add_panel(panels, paragraph(text.as_str(), width, Style::Label), Ghost(only)) {
                Ok(()) => {},
                Err(e) => {
                    proof {
                        lemma_drawable_prefix(start.push(only), wanted);
                    }
                    return Err(e);
                },
            }
        },
    }
    add_panel(panels, paragraph("", width, Style::Plain), Ghost(blank))
}

/// The panels of a report at a width.
pub fn panels(report: &Report, width: u16) -> (r: Result<Vec<Panel>, &'static str>)
    requires
        width <= WIDEST,
    ensures
        drawn(r, report_panels(report.sections@, width)),
{
    let ghost wanted = report_panels(report.sections@, width);
    let mut out: Vec<Panel> = Vec::new();
    let mut i: usize = 0;
    assert(panels_shown(out@) =~= report_panels(report.sections@.take(0), width));
    while i < report.sections.len()
        invariant
            i <= report.sections@.len(),
            width <= WIDEST,
            wanted == report_panels(report.sections@, width),
            panels_shown(out@) == report_panels(report.sections@.take(i as int), width),
            drawable(panels_shown(out@)),
        decreases report.sections@.len() - i,
    {
        let ghost before = panels_shown(out@);
        let ghost longer = before + section_panels(report.sections@[i as int], width);
        proof {
            assert(report.sections@.take(i + 1).drop_last() =~= report.sections@.take(i as int));
            lemma_report_panels_prefix(report.sections@, width, i + 1);
            assert(longer == report_panels(report.sections@.take(i + 1), width));
        }
        match add_section(&report.sections[i], width, &mut out) {
            Ok(()) => {},
            Err(e) => {
                proof {
                    lemma_drawable_prefix(longer, wanted);
                }
                return Err(e);
            },
        }
        i = i + 1;
    }
    assert(report.sections@.take(i as int) =~= report.sections@);
    Ok(out)
}

/// The lines of panels together, where a terminal can have them.
pub fn total_lines(panels: &Vec<Panel>) -> (r: Option<u16>)
    ensures
        match r {
            Some(n) => n == lines_of(panels@, panels@.len() as int),
            None => lines_of(panels@, panels@.len() as int) > u16::MAX,
        },
{
    let mut total: usize = 0;
    let mut i: usize = 0;
    while i < panels.len()
        invariant
            i <= panels@.len(),
            if lines_of(panels@, i as int) <= 65535 {
                total == lines_of(panels@, i as int)
            } else {
                total == 65536
            },
        decreases panels@.len() - i,
    {
        total = add_lines(total, panels[i].height);
        i = i + 1;
    }
    if total <= 65535 {
        Some(total as u16)
    } else {
        None
    }
}

/// The lines of the first panels together.
pub open spec fn lines_of(panels: Seq<Panel>, n: int) -> nat
    decreases n,
{
    if n <= 0 {
        0
    } else {
        lines_of(panels, n - 1) + panels[n - 1].height as nat
    }
}

/// The margin of a report on a terminal of a width, and the width that it leaves.
pub fn margins(width: u16) -> (r: (u16, u16))
    ensures
        r.0 == if width < 12 {
            0int
        } else if width < 60 {
            1
        } else {
            2
        },
        r.1 == clamped((width - 2 * r.0) as nat, 1, 100),
{
    let margin: u16 = if width < 12 {
        0
    } else if width < 60 {
        1
    } else {
        2
    };
    let left: u16 = width - 2 * margin;
    let content: u16 = if left < 1 {
        1
    } else if left > 100 {
        100
    } else {
        left
    };
    (margin, content)
}

/// The two columns of fields and the blanks between them fit the width that they are drawn
/// at.
pub proof fn law_fields_fit(values: Seq<(Seq<char>, Seq<char>)>, width: u16)
    requires
        width >= 8,
    ensures
        label_width(values, width) >= 1,
        value_width(values, width) >= 1,
        label_width(values, width) + 2 + value_width(values, width) <= width,
{
}

/// A table is drawn as one only where it fits.
pub proof fn law_tables_fit(headers: Seq<Seq<char>>, rows: Seq<Seq<Seq<char>>>, width: u16)
    requires
        rows.len() > 0,
        table_panels(headers, rows, width) == seq![grid_panel(headers, rows)],
    ensures
        natural_width(column_widths(headers, rows)) <= width,
{
    if natural_width(column_widths(headers, rows)) > width {
        lemma_card_count(headers, rows, width);
        assert(seq![grid_panel(headers, rows)].len() == 1);
    }
}

proof fn lemma_card_count(headers: Seq<Seq<char>>, rows: Seq<Seq<Seq<char>>>, width: u16)
    ensures
        card_panels(headers, rows, width).len() == 2 * rows.len(),
    decreases rows.len(),
{
    if rows.len() > 0 {
        lemma_card_count(headers, rows.drop_last(), width);
    }
}

} // verus!
