//! Tables of tab-separated values: a line of column names, then one line for
//! each row, every row with as many fields as there are columns.

use crate::text::{lines, lines_of, split, split_text, texts};
use vstd::prelude::*;

verus! {

/// What separates the fields of a line.
pub const SEPARATOR: char = '\t';

/// A table: its column names and its rows.
pub struct Tsv {
    headers: Vec<String>,
    rows: Vec<Vec<String>>,
}

/// A table as plain values.
pub struct Table {
    pub headers: Seq<Seq<char>>,
    pub rows: Seq<Seq<Seq<char>>>,
}

/// A cursor over the rows of a table, from the first to the last.
pub struct TsvIterator<'a> {
    tsv: &'a Tsv,
    next_row: usize,
}

/// One row of a table.
pub struct Row<'a> {
    tsv: &'a Tsv,
    row_index: usize,
}

impl Table {
    /// Every row has one field for each column.
    pub open spec fn wf(self) -> bool {
        forall|i: int| 0 <= i < self.rows.len() ==> (#[trigger] self.rows[i]).len() == self.headers.len()
    }
}

/// The fields of the lines after the first.
pub open spec fn rows_of(all_lines: Seq<Seq<char>>) -> Seq<Seq<Seq<char>>> {
    Seq::new((all_lines.len() - 1) as nat, |i: int| split(all_lines[i + 1], SEPARATOR))
}

/// The table that a text holds: the fields of its first line name the
/// columns, and every further line is a row. There is none if the text has no
/// line, or if a row has more or fewer fields than there are columns.
pub open spec fn table_of(contents: Seq<char>) -> Option<Table> {
    let all_lines = lines(contents);
    if all_lines.len() == 0 {
        None
    } else {
        let table = Table { headers: split(all_lines[0], SEPARATOR), rows: rows_of(all_lines) };
        if table.wf() {
            Some(table)
        } else {
            None
        }
    }
}

/// The position of the first column named `name`, if there is one.
pub open spec fn column_at(headers: Seq<Seq<char>>, name: Seq<char>) -> Option<int>
    decreases headers.len(),
{
    if headers.len() == 0 {
        None
    } else if headers[0] == name {
        Some(0)
    } else {
        match column_at(headers.drop_first(), name) {
            Some(i) => Some(i + 1),
            None => None,
        }
    }
}

/// The field of row `row` in the first column named `column`, if there is
/// such a column.
pub open spec fn cell(table: Table, row: int, column: Seq<char>) -> Option<Seq<char>> {
    match column_at(table.headers, column) {
        Some(i) => Some(table.rows[row][i]),
        None => None,
    }
}

/// Where no column before `n` has the name and column `n` has it, or the
/// columns end there, `n` is where the name is first found, or is not.
pub proof fn lemma_column_at(headers: Seq<Seq<char>>, name: Seq<char>, n: int)
    requires
        0 <= n <= headers.len(),
        forall|k: int| 0 <= k < n ==> #[trigger] headers[k] != name,
        n == headers.len() || headers[n] == name,
    ensures
        column_at(headers, name) == if n == headers.len() {
            None
        } else {
            Some(n)
        },
    decreases n,
{
    if n > 0 {
        let rest = headers.drop_first();
        assert forall|k: int| 0 <= k < n - 1 implies #[trigger] rest[k] != name by {
            assert(rest[k] == headers[k + 1]);
        }
        lemma_column_at(rest, name, n - 1);
    }
}

impl View for Tsv {
    type V = Table;

    closed spec fn view(&self) -> Table {
        Table {
            headers: texts(self.headers@),
            rows: Seq::new(self.rows@.len(), |i: int| texts(self.rows@[i]@)),
        }
    }
}

impl Tsv {
    /// The number of rows, not counting the line of column names.
    pub fn num_rows(&self) -> (r: usize)
        ensures
            r == self@.rows.len(),
    {
        self.rows.len()
    }

    /// Reads a table, if the text holds one.
    pub fn parse(contents: &str) -> (r: Option<Tsv>)
        ensures
            match table_of(contents@) {
                Some(table) => r is Some && r->Some_0@ == table,
                None => r is None,
            },
            r matches Some(tsv) ==> tsv@.wf(),
    {
        let all_lines = lines_of(contents);
        if all_lines.len() == 0 {
            return None;
        }
        let ghost wanted = lines(contents@);
        assert(all_lines@[0]@ == wanted[0]);
        let headers = split_text(all_lines[0].as_str(), SEPARATOR);
        let num_fields: usize = headers.len();
        let mut rows: Vec<Vec<String>> = Vec::new();
        let mut i: usize = 1;
        while i < all_lines.len()
            invariant
                wanted == lines(contents@),
                texts(all_lines@) == wanted,
                1 <= i <= all_lines@.len(),
                rows@.len() == i - 1,
                num_fields == split(wanted[0], SEPARATOR).len(),
                forall|k: int|
                    0 <= k < i - 1 ==> texts((#[trigger] rows@[k])@) == rows_of(wanted)[k],
                forall|k: int| 0 <= k < i - 1 ==> (#[trigger] rows_of(wanted)[k]).len() == num_fields,
            decreases all_lines@.len() - i,
        {
            assert(all_lines@[i as int]@ == wanted[i as int]);
            let fields = split_text(all_lines[i].as_str(), SEPARATOR);
            if fields.len() != num_fields {
                proof {
                    let table = Table {
                        headers: split(wanted[0], SEPARATOR),
                        rows: rows_of(wanted),
                    };
                    assert(texts(fields@).len() == fields@.len());
                    assert(table.rows[i - 1] == split(wanted[i as int], SEPARATOR));
                    assert(table.rows[i - 1].len() != table.headers.len());
                    assert(!table.wf());
                }
                return None;
            }
            rows.push(fields);
            i += 1;
        }
        let tsv = Tsv { headers, rows };
        assert(tsv@.rows =~= rows_of(wanted));
        Some(tsv)
    }

    /// Reads a table from a text that holds one.
    pub fn from_string(contents: &str) -> (r: Tsv)
        requires
            table_of(contents@) is Some,
        ensures
            Some(r@) == table_of(contents@),
            r@.wf(),
    {
        match Tsv::parse(contents) {
            Some(tsv) => tsv,
            None => Tsv { headers: Vec::new(), rows: Vec::new() },
        }
    }

    /// The row in position `index`.
    pub fn row(&self, index: usize) -> (r: Row<'_>)
        requires
            index < self@.rows.len(),
        ensures
            r.table() == self@,
            r.index() == index,
            r.wf(),
    {
        Row { tsv: self, row_index: index }
    }

    /// A cursor before the first row.
    pub fn into_iter(&self) -> (r: TsvIterator<'_>)
        ensures
            r.table() == self@,
            r.position() == 0,
    {
        TsvIterator { tsv: self, next_row: 0 }
    }
}

impl<'a> TsvIterator<'a> {
    /// The table that the cursor runs over.
    pub closed spec fn table(self) -> Table {
        self.tsv@
    }

    /// The number of rows that the cursor has passed.
    pub closed spec fn position(self) -> int {
        self.next_row as int
    }

    /// The next row, if there is one. The cursor moves past it.
    pub fn next(&mut self) -> (r: Option<Row<'a>>)
        ensures
            final(self).table() == old(self).table(),
            old(self).position() < old(self).table().rows.len() ==> final(self).position()
                == old(self).position() + 1 && r is Some && r->Some_0.table() == old(self).table()
                && r->Some_0.index() == old(self).position() && r->Some_0.wf(),
            old(self).position() >= old(self).table().rows.len() ==> r is None
                && final(self).position() == old(self).position(),
    {
        if self.next_row < self.tsv.num_rows() {
            let row_index = self.next_row;
            self.next_row = self.next_row + 1;
            Some(Row { tsv: self.tsv, row_index })
        } else {
            None
        }
    }
}

impl<'a> Row<'a> {
    /// The table that the row belongs to.
    pub closed spec fn table(self) -> Table {
        self.tsv@
    }

    /// The position of the row in its table.
    pub closed spec fn index(self) -> int {
        self.row_index as int
    }

    /// The row is one of the rows of its table.
    pub open spec fn wf(self) -> bool {
        0 <= self.index() < self.table().rows.len()
    }

    /// The fields of the row.
    pub open spec fn fields(self) -> Seq<Seq<char>> {
        self.table().rows[self.index()]
    }

    /// The field in the first column named `column`, if there is such a
    /// column.
    pub open spec fn field(self, column: Seq<char>) -> Option<Seq<char>> {
        cell(self.table(), self.index(), column)
    }

    /// The field in the first column named `column`, if there is such a
    /// column.
    pub fn find(&self, column: &str) -> (r: Option<&'a str>)
        requires
            self.wf(),
            self.table().wf(),
        ensures
            match self.field(column@) {
                Some(text) => r is Some && r->Some_0@ == text,
                None => r is None,
            },
    {
        let name = column.to_owned();
        let headers = &self.tsv.headers;
        let mut i: usize = 0;
        while i < headers.len()
            invariant
                self.wf(),
                self.table().wf(),
                headers@ == self.tsv.headers@,
                i <= headers@.len(),
                name@ == column@,
                forall|k: int| 0 <= k < i ==> (#[trigger] texts(headers@)[k]) != column@,
            decreases headers@.len() - i,
        {
            if headers[i] == name {
                proof {
                    assert(texts(headers@)[i as int] == column@);
                    lemma_column_at(texts(headers@), column@, i as int);
                }
                assert(self.tsv@.rows[self.row_index as int].len() == headers@.len());
                let fields = &self.tsv.rows[self.row_index];
                return Some(fields[i].as_str());
            }
            assert(texts(headers@)[i as int] != column@);
            i += 1;
        }
        proof {
            lemma_column_at(texts(headers@), column@, headers@.len() as int);
        }
        None
    }

    /// The field in the first column named `column`.
    pub fn get(&self, column: &str) -> (r: &'a str)
        requires
            self.wf(),
            self.table().wf(),
            self.field(column@) is Some,
        ensures
            Some(r@) == self.field(column@),
    {
        match self.find(column) {
            Some(text) => text,
            None => "",
        }
    }

    /// All the fields of the row, in the order of the columns.
    pub fn all_fields(&self) -> (r: &'a [String])
        requires
            self.wf(),
        ensures
            texts(r@) == self.fields(),
    {
        self.tsv.rows[self.row_index].as_slice()
    }
}

} // verus!
