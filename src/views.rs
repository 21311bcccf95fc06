use vstd::prelude::*;
use crate::format::value_text;
use crate::sort::field_value;
use crate::value::{Value, descriptor_names, visible_names};

verus! {

/// Something that can be shown as lines of text.
pub trait RenderView {
    fn render(&self) -> Vec<String>;
}

/// A table: column names and one row of cell texts per record.
pub struct TableView {
    pub headers: Vec<String>,
    pub records: Vec<Vec<String>>,
}

pub open spec fn strings_view(v: Seq<String>) -> Seq<Seq<char>> {
    v.map_values(|s: String| s@)
}

pub open spec fn rows_view(v: Seq<Vec<String>>) -> Seq<Seq<Seq<char>>> {
    v.map_values(|r: Vec<String>| strings_view(r@))
}

/// The columns of a table of values: the visible fields of the first record.
pub open spec fn columns_of(values: Seq<Value>) -> Seq<Seq<char>> {
    if values.len() == 0 {
        seq![]
    } else {
        match values[0] {
            Value::Object(o) => visible_names(o@),
            _ => seq![],
        }
    }
}

/// The cell text of a value under a column: the text of the field with that
/// name, or nothing where the value has no such field.
pub open spec fn cell_text(v: Value, column: Seq<char>) -> Seq<char> {
    value_text(field_value(v, column))
}

/// The text that tabled draws, in its modern style, for these column names
/// and rows of cells.
pub uninterp spec fn modern_table(headers: Seq<Seq<char>>, rows: Seq<Seq<Seq<char>>>) -> Seq<char>;

/// Relies on tabled's `Builder` (rows from a `Vec<Vec<String>>`, then the
/// column names) and `Style::modern`: the drawn table depends on the column
/// names and cells alone.
#[verifier::external_body]
fn draw_table(headers: &Vec<String>, records: &Vec<Vec<String>>) -> (r: String)
    ensures
        r@ == modern_table(strings_view(headers@), rows_view(records@)),
{
    let mut builder = tabled::builder::Builder::from(records.clone());
    builder.set_columns(headers.clone());
    let mut table = builder.build();
    table.with(tabled::Style::modern());
    table.to_string()
}

fn cell(v: &Value, column: &String) -> (r: String)
    ensures
        r@ == cell_text(*v, column@),
{
    match v {
        Value::Object(_) => v.get_data_from_key(column.as_str()).format(),
        _ => String::new(),
    }
}

/// `t` tabulates `values`: its columns are those of the first value, and
/// row `i`, column `j` holds the text of that field of value `i`.
pub open spec fn is_table_of(t: TableView, values: Seq<Value>) -> bool {
    &&& strings_view(t.headers@) == columns_of(values)
    &&& t.records@.len() == values.len()
    &&& forall|i: int|
        0 <= i < values.len() ==> (#[trigger] t.records@[i])@.len() == t.headers@.len()
    &&& forall|i: int, j: int|
        0 <= i < values.len() && 0 <= j < t.headers@.len() ==> (#[trigger] t.records@[i]@[j])@
            == cell_text(values[i], t.headers@[j]@)
}

impl TableView {
    /// A table of values: the columns are the visible fields of the first
    /// value, and each value makes a row. An empty list makes an empty
    /// table.
    pub fn from_values(values: &Vec<Value>) -> (r: TableView)
        ensures
            is_table_of(r, values@),
    {
        let mut headers: Vec<String> = Vec::new();
        if values.len() > 0 {
            let descriptors = values[0].data_descriptors();
            let n = descriptors.len();
            let mut k: usize = 0;
            while k < n
                invariant
                    n == descriptors@.len(),
                    k <= n,
                    strings_view(headers@) == descriptor_names(descriptors@).take(k as int),
                decreases n - k,
            {
                let ghost before = headers@;
                headers.push(descriptors[k].name.clone());
                assert(headers@ =~= before.push(descriptors@[k as int].name));
                assert(strings_view(headers@) =~= strings_view(before).push(
                    descriptors@[k as int].name@,
                ));
                assert(descriptor_names(descriptors@)[k as int] == descriptors@[k as int].name@);
                assert(strings_view(headers@) =~= descriptor_names(descriptors@).take(k + 1));
                k = k + 1;
            }
            assert(descriptor_names(descriptors@).take(n as int) =~= descriptor_names(descriptors@));
        } else {
            assert(strings_view(headers@) =~= seq![]);
        }
        let mut records: Vec<Vec<String>> = Vec::new();
        let mut i: usize = 0;
        while i < values.len()
            invariant
                i <= values@.len(),
                records@.len() == i,
                forall|a: int| 0 <= a < i ==> (#[trigger] records@[a])@.len() == headers@.len(),
                forall|a: int, b: int|
                    0 <= a < i && 0 <= b < headers@.len() ==> (#[trigger] records@[a]@[b])@
                        == cell_text(values@[a], headers@[b]@),
            decreases values@.len() - i,
        {
            let mut row: Vec<String> = Vec::new();
            let mut j: usize = 0;
            while j < headers.len()
                invariant
                    i < values@.len(),
                    j <= headers@.len(),
                    row@.len() == j,
                    forall|b: int| 0 <= b < j ==> (#[trigger] row@[b])@ == cell_text(
                        values@[i as int],
                        headers@[b]@,
                    ),
                decreases headers@.len() - j,
            {
                row.push(cell(&values[i], &headers[j]));
                j = j + 1;
            }
            records.push(row);
            i = i + 1;
        }
        TableView { headers, records }
    }

    /// The table drawn as one block of text.
    pub fn lines(&self) -> (r: Vec<String>)
        ensures
            r@.len() == 1,
            r@[0]@ == modern_table(strings_view(self.headers@), rows_view(self.records@)),
    {
        let mut out: Vec<String> = Vec::new();
        out.push(draw_table(&self.headers, &self.records));
        out
    }
}

impl RenderView for TableView {
    fn render(&self) -> Vec<String> {
        self.lines()
    }
}

/// The top-level view of a result.
pub struct BaseView<'a> {
    pub value: &'a Value,
}

/// What a result shows: a list as a table, anything else as nothing.
pub fn render_value(value: &Value) -> (r: Vec<String>)
    ensures
        value is List ==> exists|t: TableView|
            #![trigger is_table_of(t, value->List_0@)]
            r@.len() == 1 && r@[0]@ == modern_table(strings_view(t.headers@), rows_view(t.records@))
                && is_table_of(t, value->List_0@),
        !(value is List) ==> r@.len() == 0,
{
    match value {
        Value::List(l) => {
            let view = TableView::from_values(l);
            view.lines()
        },
        _ => Vec::new(),
    }
}

impl<'a> RenderView for BaseView<'a> {
    fn render(&self) -> Vec<String> {
        render_value(self.value)
    }
}

impl Value {
    pub fn to_base_view(&self) -> (r: BaseView<'_>)
        ensures
            *r.value == *self,
    {
        BaseView { value: self }
    }
}

} // verus!
