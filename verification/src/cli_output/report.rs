//! Presentation data shared by Markdown and terminal views.

use vstd::prelude::*;
use vstd::string::*;

verus! {

/// A report's sections in order.
#[derive(Debug)]
pub struct Report {
    pub sections: Vec<Section>,
}

#[derive(Debug)]
pub enum Section {
    Fields { title: String, values: Vec<(String, String)> },
    Table { title: String, data: TableData },
    Note(String),
}

#[derive(Debug)]
pub struct TableData {
    pub headers: Vec<String>,
    pub rows: Vec<Vec<String>>,
}

/// What texts hold.
pub open spec fn texts(list: Seq<String>) -> Seq<Seq<char>> {
    list.map_values(|s: String| s@)
}

/// What records hold.
pub open spec fn records(list: Seq<Vec<String>>) -> Seq<Seq<Seq<char>>> {
    list.map_values(|r: Vec<String>| texts(r@))
}

/// What names and values hold.
pub open spec fn pairs(list: Seq<(String, String)>) -> Seq<(Seq<char>, Seq<char>)> {
    list.map_values(|p: (String, String)| (p.0@, p.1@))
}

/// The text of the table that `tabled` builds of records in its Markdown style.
pub uninterp spec fn markdown_of(records: Seq<Seq<Seq<char>>>) -> Seq<char>;

/// `tabled::builder::Builder` over records, built in the style `Style::markdown` and written
/// out.
#[verifier::external_body]
fn tabulate(list: Vec<Vec<String>>) -> (r: String)
    ensures
        r@ == markdown_of(records(list@)),
{
    let mut table = tabled::builder::Builder::from_iter(list).build();
    table.with(tabled::settings::Style::markdown());
    table.to_string()
}

/// The records of a table: its headers, then its rows.
pub open spec fn table_records(data: TableData) -> Seq<Seq<Seq<char>>> {
    seq![texts(data.headers@)] + records(data.rows@)
}

/// The records of fields: a line of headers, then one for each.
pub open spec fn field_records(values: Seq<(Seq<char>, Seq<char>)>) -> Seq<Seq<Seq<char>>> {
    seq![seq!["Metric"@, "Value"@]] + values.map_values(|p: (Seq<char>, Seq<char>)| seq![p.0, p.1])
}

/// A table under its title.
pub open spec fn titled(title: Seq<char>, list: Seq<Seq<Seq<char>>>) -> Seq<char> {
    "## "@ + title + "\n\n"@ + markdown_of(list)
}

impl Section {
    /// A section in Markdown.
    pub open spec fn text(self) -> Seq<char> {
        match self {
            Section::Fields { title, values } => titled(title@, field_records(pairs(values@))),
            Section::Table { title, data } => titled(title@, table_records(data)),
            Section::Note(text) => text@,
        }
    }

    fn markdown(&self) -> (r: String)
        ensures
            r@ == self.text(),
    {
        match self {
            Section::Fields { title, values } => {
                let mut list: Vec<Vec<String>> = Vec::new();
                let mut header: Vec<String> = Vec::new();
                header.push("Metric".to_owned());
                header.push("Value".to_owned());
                assert(texts(header@) =~= seq!["Metric"@, "Value"@]);
                list.push(header);
                let ghost all = pairs(values@);
                let mut i: usize = 0;
                assert(records(list@) =~= field_records(all.take(0)));
                while i < values.len()
                    invariant
                        i <= values@.len(),
                        all == pairs(values@),
                        records(list@) == field_records(all.take(i as int)),
                    decreases values@.len() - i,
                {
                    let ghost before = list@;
                    let mut row: Vec<String> = Vec::new();
                    row.push(values[i].0.clone());
                    row.push(values[i].1.clone());
                    assert(texts(row@) =~= seq![all[i as int].0, all[i as int].1]);
                    list.push(row);
                    assert(records(list@) =~= records(before).push(texts(row@)));
                    assert(field_records(all.take(i + 1)) =~= field_records(all.take(i as int)).push(
                        seq![all[i as int].0, all[i as int].1],
                    ));
                    i = i + 1;
                }
                assert(all.take(i as int) =~= all);
                markdown_table(title.as_str(), list)
            },
            Section::Table { title, data } => {
                let mut list: Vec<Vec<String>> = Vec::new();
                list.push(copy_record(&data.headers));
                let ghost all = records(data.rows@);
                let mut i: usize = 0;
                assert(records(list@) =~= seq![texts(data.headers@)] + all.take(0));
                while i < data.rows.len()
                    invariant
                        i <= data.rows@.len(),
                        all == records(data.rows@),
                        records(list@) == seq![texts(data.headers@)] + all.take(i as int),
                    decreases data.rows@.len() - i,
                {
                    let ghost before = list@;
                    let row = copy_record(&data.rows[i]);
                    list.push(row);
                    assert(records(list@) =~= records(before).push(all[i as int]));
                    assert(seq![texts(data.headers@)] + all.take(i + 1) =~= (seq![texts(data.headers@)] + all.take(
                        i as int,
                    )).push(all[i as int]));
                    i = i + 1;
                }
                assert(all.take(i as int) =~= all);
                markdown_table(title.as_str(), list)
            },
            Section::Note(text) => text.clone(),
        }
    }
}

fn copy_record(record: &Vec<String>) -> (r: Vec<String>)
    ensures
        texts(r@) == texts(record@),
        r@.len() == record@.len(),
{
    let mut out: Vec<String> = Vec::new();
    let mut i: usize = 0;
    while i < record.len()
        invariant
            i <= record@.len(),
            out@.len() == i,
            forall|k: int| 0 <= k < i ==> (#[trigger] out@[k])@ == record@[k]@,
        decreases record@.len() - i,
    {
        out.push(record[i].clone());
        i = i + 1;
    }
    assert(texts(out@) =~= texts(record@));
    out
}

/// A table's text under its title.
pub fn under_title(title: &str, table: &str) -> (r: String)
    ensures
        r@ == "## "@ + title@ + "\n\n"@ + table@,
{
    let mut out: String = "## ".to_owned();
    out.append(title);
    out.append("\n\n");
    out.append(table);
    out
}

fn markdown_table(title: &str, list: Vec<Vec<String>>) -> (r: String)
    ensures
        r@ == titled(title@, records(list@)),
{
    under_title(title, tabulate(list).as_str())
}

/// Sections in Markdown, a blank line between them.
pub open spec fn joined(sections: Seq<Section>) -> Seq<char>
    decreases sections.len(),
{
    if sections.len() == 0 {
        Seq::empty()
    } else if sections.len() == 1 {
        sections[0].text()
    } else {
        joined(sections.drop_last()) + "\n\n"@ + sections.last().text()
    }
}

/// Whether a section holds fields.
pub open spec fn is_fields(section: Section, title: Seq<char>, values: Seq<(Seq<char>, Seq<char>)>) -> bool {
    section matches Section::Fields { title: t, values: v } && t@ == title && pairs(v@) == values
}

/// Whether a section holds a table of records, whose first one are the headers.
pub open spec fn is_table(section: Section, title: Seq<char>, list: Seq<Seq<Seq<char>>>) -> bool {
    section matches Section::Table { title: t, data } && t@ == title && if list.len() == 0 {
        data.headers@.len() == 0 && data.rows@.len() == 0
    } else {
        table_records(data) == list
    }
}

impl Report {
    pub fn new() -> (r: Report)
        ensures
            r.sections@.len() == 0,
    {
        Report { sections: Vec::new() }
    }

    /// Adds named values.
    pub fn fields(&mut self, title: &str, values: Vec<(String, String)>)
        ensures
            final(self).sections@.len() == old(self).sections@.len() + 1,
            final(self).sections@.drop_last() == old(self).sections@,
            is_fields(final(self).sections@.last(), title@, pairs(values@)),
    {
        self.sections.push(Section::Fields { title: title.to_owned(), values });
        assert(self.sections@.drop_last() =~= old(self).sections@);
    }

    /// Adds a table of records, whose first one are the headers.
    pub fn table(&mut self, title: &str, list: Vec<Vec<String>>)
        ensures
            final(self).sections@.len() == old(self).sections@.len() + 1,
            final(self).sections@.drop_last() == old(self).sections@,
            is_table(final(self).sections@.last(), title@, records(list@)),
    {
        let mut rows: Vec<Vec<String>> = list;
        let ghost all = rows@;
        let headers: Vec<String> = if rows.len() == 0 {
            Vec::new()
        } else {
            rows.remove(0)
        };
        let data = TableData { headers, rows };
        proof {
            assert(records(all).len() == all.len());
            if all.len() > 0 {
                assert(rows@ =~= all.skip(1));
                assert(table_records(data) =~= records(all));
            }
        }
        self.sections.push(Section::Table { title: title.to_owned(), data });
        assert(self.sections@.drop_last() =~= old(self).sections@);
    }

    /// Adds a remark.
    pub fn note(&mut self, text: String)
        ensures
            final(self).sections@ == old(self).sections@.push(Section::Note(text)),
    {
        self.sections.push(Section::Note(text));
    }

    /// The report in Markdown.
    pub fn markdown(&self) -> (r: String)
        ensures
            r@ == joined(self.sections@),
    {
        let mut out: String = String::new();
        let mut i: usize = 0;
        assert(out@ =~= joined(self.sections@.take(0)));
        while i < self.sections.len()
            invariant
                i <= self.sections@.len(),
                out@ == joined(self.sections@.take(i as int)),
            decreases self.sections@.len() - i,
        {
            assert(self.sections@.take(i + 1).drop_last() =~= self.sections@.take(i as int));
            if i > 0 {
                out.append("\n\n");
            }
            out.append(self.sections[i].markdown().as_str());
            assert(out@ =~= joined(self.sections@.take(i + 1)));
            i = i + 1;
        }
        assert(self.sections@.take(i as int) =~= self.sections@);
        out
    }
}

/// A report grows behind: what it shows so far stays at its beginning.
pub proof fn law_report_grows_behind(sections: Seq<Section>, more: Section)
    ensures
        joined(sections).is_prefix_of(joined(sections.push(more))),
{
    assert(sections.push(more).drop_last() =~= sections);
    let longer = joined(sections.push(more));
    assert(longer.subrange(0, joined(sections).len() as int) =~= joined(sections));
}

/// A section is added behind the others, with its own title and its own values, in their order.
pub proof fn law_fields_added(report: &mut Report, title: &str, values: Vec<(String, String)>, i: int)
    requires
        call_ensures(Report::fields, (report, title, values), ()),
        0 <= i < values@.len(),
    ensures
        final(report).sections@.len() == old(report).sections@.len() + 1,
        final(report).sections@.drop_last() == old(report).sections@,
        final(report).sections@.last() matches Section::Fields { title: t, values: v } && t@ == title@ && v@.len()
            == values@.len() && v@[i].0@ == values@[i].0@ && v@[i].1@ == values@[i].1@,
{
    let v = final(report).sections@.last()->Fields_values;
    assert(pairs(v@).len() == pairs(values@).len());
    assert(pairs(v@)[i] == pairs(values@)[i]);
}

/// A report is its sections with an empty line between them.
pub proof fn law_report_text(a: Report, b: Report, section: Section, x: String, y: String)
    requires
        call_ensures(Report::markdown, (&a,), x),
        call_ensures(Report::markdown, (&b,), y),
        b.sections@ == a.sections@.push(section),
    ensures
        a.sections@.len() == 0 ==> x@.len() == 0 && y@ == section.text(),
        a.sections@.len() > 0 ==> y@ == x@ + "\n\n"@ + section.text(),
{
    assert(b.sections@.drop_last() =~= a.sections@);
}

} // verus!
