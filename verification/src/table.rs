//! Tables of text.
use vstd::prelude::*;
use vstd::string::StringSliceAdditionalSpecFns;

use crate::error::{simple_error, SimpleError};
use crate::json::{
    field_views, json_encoding, json_get, json_text, lemma_object_view, normal, views, JsonValue,
    JsonView,
};
use crate::number::{push_repeated, repeated};
use crate::parts::join;
use crate::text::{
    chars_of, contains_text, lemma_end_is_found, lemma_found_stays, lemma_found_within,
    lemma_joined_either_way, lemma_texts_push, texts, Text,
};
use crate::time::lemma_bytes_at_least_chars;

verus! {

/// The text padded with spaces to a width.
pub open spec fn padded(s: Text, width: int) -> Text {
    s + repeated(' ', width - s.len())
}

/// Sizes as mathematical numbers.
pub open spec fn sizes(widths: Seq<usize>) -> Seq<int> {
    widths.map_values(|w: usize| w as int)
}

/// The cells padded to their widths, with two spaces between them.
pub open spec fn line_of(cells: Seq<Text>, widths: Seq<int>) -> Text {
    join(Seq::new(cells.len(), |i: int| padded(cells[i], widths[i])), "  "@)
}

/// The cells padded to their widths, with two spaces between them; widths beyond the cells do not
/// count.
pub fn table_line(cells: &[String], widths: &[usize]) -> (r: String)
    requires
        cells@.len() <= widths@.len(),
    ensures
        r@ == line_of(texts(cells@), sizes(widths@)),
{
    let ghost all = Seq::new(
        texts(cells@).len(),
        |i: int| padded(texts(cells@)[i], sizes(widths@)[i]),
    );
    let mut out = String::new();
    let mut i: usize = 0;
    proof {
        assert(all.take(0) =~= Seq::<Text>::empty());
    }
    while i < cells.len()
        invariant
            0 <= i <= cells@.len(),
            cells@.len() <= widths@.len(),
            all == Seq::new(
                texts(cells@).len(),
                |i: int| padded(texts(cells@)[i], sizes(widths@)[i]),
            ),
            out@ == join(all.take(i as int), "  "@),
        decreases cells@.len() - i,
    {
        let ghost before = out@;
        if i > 0 {
            out.append("  ");
        }
        out.append(cells[i].as_str());
        let len: usize = chars_of(cells[i].as_str()).len();
        if len < widths[i] {
            push_repeated(&mut out, ' ', widths[i] - len);
        }
        proof {
            let cell = texts(cells@)[i as int];
            assert(all[i as int] == padded(cell, widths@[i as int] as int));
            if len >= widths@[i as int] {
                assert(padded(cell, widths@[i as int] as int) =~= cell);
            }
            assert(all.take(i + 1).drop_last() =~= all.take(i as int));
            assert(all.take(i + 1).last() == all[i as int]);
            if i == 0 {
                assert(out@ =~= all[0]);
                assert(join(all.take(1), "  "@) == all[0]);
            } else {
                assert(out@ =~= before + "  "@ + all[i as int]);
            }
        }
        i += 1;
    }
    proof {
        assert(all.take(all.len() as int) =~= all);
    }
    out
}

/// A value in a cell: nothing for null, a string as it is, other values as JSON text.
pub open spec fn cell_text(v: JsonView) -> Text {
    match v {
        JsonView::Null => Seq::empty(),
        JsonView::String(s) => s,
        other => json_encoding(normal(other)),
    }
}

/// A value in a cell.
pub fn json_cell(value: &JsonValue) -> (r: String)
    ensures
        r@ == cell_text(value@),
{
    match value {
        JsonValue::Null => String::new(),
        JsonValue::String(s) => s.clone(),
        _ => json_text(value),
    }
}

/// The cell of a row below a header: the field of that name.
pub open spec fn cell_of(row: JsonView, header: Text) -> Text {
    match json_get(row, header) {
        Some(v) => cell_text(v),
        None => Seq::empty(),
    }
}

/// The cell of a row below a header.
fn cell_at(row: &JsonValue, header: &str) -> (r: String)
    ensures
        r@ == cell_of(row@, header@),
{
    match row.get(header) {
        Some(v) => json_cell(v),
        None => String::new(),
    }
}

/// The headers of a table: the names of the fields of the first row.
pub open spec fn headers_of(first: JsonView) -> Seq<Text> {
    match first {
        JsonView::Object(fields) => fields.map_values(|f: (Text, JsonView)| f.0),
        _ => Seq::empty(),
    }
}

/// The headers of a table.
fn table_headers(first: &JsonValue) -> (r: Vec<String>)
    ensures
        texts(r@) == headers_of(first@),
{
    let mut out: Vec<String> = Vec::new();
    match first {
        JsonValue::Object(fields) => {
            let ghost all = headers_of(first@);
            let mut i: usize = 0;
            proof {
                lemma_object_view(*fields);
                assert(*first == JsonValue::Object(*fields));
                assert(texts(out@) =~= all.take(0));
            }
            while i < fields.len()
                invariant
                    0 <= i <= fields@.len(),
                    all == field_views(fields@).map_values(|f: (Text, JsonView)| f.0),
                    texts(out@) == all.take(i as int),
                decreases fields@.len() - i,
            {
                proof {
                    lemma_texts_push(out@, fields@[i as int].0);
                    assert(all.take(i + 1) =~= all.take(i as int).push(fields@[i as int].0@));
                }
                out.push(fields[i].0.clone());
                i += 1;
            }
            proof {
                assert(all.take(all.len() as int) =~= all);
            }
        },
        _ => {
            proof {
                assert(texts(out@) =~= Seq::<Text>::empty());
            }
        },
    }
    out
}

/// The number of bytes of a text.
pub open spec fn byte_len(s: Text) -> int {
    vstd::utf8::encode_utf8(s).len() as int
}

/// The width of a column: that of its widest cell, and no less than the header has bytes.
pub open spec fn column_width(header: Text, rows: Seq<JsonView>) -> int
    decreases rows.len(),
{
    if rows.len() == 0 {
        byte_len(header)
    } else {
        let before = column_width(header, rows.drop_last());
        let cell = cell_of(rows.last(), header).len() as int;
        if cell > before {
            cell
        } else {
            before
        }
    }
}

/// The widths of the columns.
pub open spec fn column_widths(headers: Seq<Text>, rows: Seq<JsonView>) -> Seq<int> {
    headers.map_values(|h: Text| column_width(h, rows))
}

/// The widths of the columns.
fn table_widths(headers: &[String], rows: &[JsonValue]) -> (r: Vec<usize>)
    ensures
        sizes(r@) == column_widths(texts(headers@), views(rows@)),
{
    let ghost names = texts(headers@);
    let ghost all = views(rows@);
    let mut widths: Vec<usize> = Vec::new();
    let mut c: usize = 0;
    while c < headers.len()
        invariant
            0 <= c <= headers@.len(),
            names == texts(headers@),
            widths@.len() == c,
            all == views(rows@),
            forall|k: int|
                0 <= k < c ==> #[trigger] widths@[k] == column_width(names[k], all.take(0)),
        decreases headers@.len() - c,
    {
        let header = headers[c].as_str();
        let len: usize = header.as_bytes().len();
        widths.push(len);
        proof {
            assert(len == header.spec_bytes().len());
            assert(column_width(names[c as int], all.take(0)) == byte_len(names[c as int]));
            assert(header.spec_bytes() == vstd::utf8::encode_utf8(header@));
            assert(all.take(0).len() == 0);
            assert(names[c as int] == headers@[c as int]@);
        }
        c += 1;
    }
    let mut i: usize = 0;
    while i < rows.len()
        invariant
            0 <= i <= rows@.len(),
            names == texts(headers@),
            all == views(rows@),
            widths@.len() == headers@.len(),
            forall|k: int|
                0 <= k < headers@.len() ==> #[trigger] widths@[k] == column_width(
                    names[k],
                    all.take(i as int),
                ),
        decreases rows@.len() - i,
    {
        let mut c: usize = 0;
        while c < headers.len()
            invariant
                0 <= i < rows@.len(),
                0 <= c <= headers@.len(),
                names == texts(headers@),
                all == views(rows@),
                widths@.len() == headers@.len(),
                forall|k: int|
                    0 <= k < c ==> #[trigger] widths@[k] == column_width(names[k], all.take(i + 1)),
                forall|k: int|
                    c <= k < headers@.len() ==> #[trigger] widths@[k] == column_width(
                        names[k],
                        all.take(i as int),
                    ),
            decreases headers@.len() - c,
        {
            let len: usize = chars_of(cell_at(&rows[i], headers[c].as_str()).as_str()).len();
            proof {
                assert(all.take(i + 1).drop_last() =~= all.take(i as int));
                assert(all.take(i + 1).last() == rows@[i as int]@);
                assert(names[c as int] == headers@[c as int]@);
            }
            if len > widths[c] {
                widths.set(c, len);
            }
            c += 1;
        }
        i += 1;
    }
    proof {
        assert(all.take(all.len() as int) =~= all);
        assert(sizes(widths@) =~= column_widths(names, all));
    }
    widths
}

/// The cells of a row.
pub open spec fn row_cells(row: JsonView, headers: Seq<Text>) -> Seq<Text> {
    headers.map_values(|h: Text| cell_of(row, h))
}

/// The line below the headers.
pub open spec fn divider_cells(widths: Seq<int>) -> Seq<Text> {
    widths.map_values(|w: int| repeated('-', w))
}

/// The lines of a table: the headers, a rule, and a line for each row.
pub open spec fn lines_of(headers: Seq<Text>, rows: Seq<JsonView>) -> Seq<Text> {
    let widths = column_widths(headers, rows);
    seq![line_of(headers, widths), line_of(divider_cells(widths), widths)] + rows.map_values(
        |row: JsonView| line_of(row_cells(row, headers), widths),
    )
}

/// Every row is an object.
pub open spec fn all_objects(rows: Seq<JsonView>) -> bool {
    forall|i: int| 0 <= i < rows.len() ==> (#[trigger] rows[i]) is Object
}

/// The lines of the table of some rows. Rows without fields stand for themselves; once the first
/// row has fields, every row has to be an object.
pub open spec fn table_of(rows: Seq<JsonView>) -> Result<Seq<Text>, Text> {
    if rows.len() == 0 {
        Ok(seq!["(no rows)"@])
    } else if headers_of(rows[0]).len() == 0 {
        Ok(rows.map_values(|row: JsonView| json_encoding(normal(row))))
    } else if !all_objects(rows) {
        Err("row was not a JSON object"@)
    } else {
        Ok(lines_of(headers_of(rows[0]), rows))
    }
}

/// The lines of the table of some rows.
pub fn table_lines(rows: &[JsonValue]) -> (r: Result<Vec<String>, SimpleError>)
    ensures
        match r {
            Ok(lines) => table_of(views(rows@)) == Ok::<Seq<Text>, Text>(texts(lines@)),
            Err(e) => table_of(views(rows@)) == Err::<Seq<Text>, Text>(e@),
        },
{
    let ghost all = views(rows@);
    let mut lines: Vec<String> = Vec::new();
    if rows.len() == 0 {
        let line = "(no rows)".to_owned();
        lines.push(line);
        proof {
            assert(texts(lines@) =~= seq!["(no rows)"@]);
        }
        return Ok(lines);
    }
    let headers = table_headers(&rows[0]);
    let ghost names = headers_of(all[0]);
    proof {
        assert(names.len() == headers@.len());
    }
    let mut i: usize = 0;
    if headers.len() == 0 {
        let ghost whole = all.map_values(|row: JsonView| json_encoding(normal(row)));
        proof {
            assert(texts(lines@) =~= whole.take(0));
        }
        while i < rows.len()
            invariant
                0 <= i <= rows@.len(),
                all == views(rows@),
                whole == all.map_values(|row: JsonView| json_encoding(normal(row))),
                texts(lines@) == whole.take(i as int),
            decreases rows@.len() - i,
        {
            let line = json_text(&rows[i]);
            proof {
                lemma_texts_push(lines@, line);
                assert(whole.take(i + 1) =~= whole.take(i as int).push(line@));
            }
            lines.push(line);
            i += 1;
        }
        proof {
            assert(whole.take(whole.len() as int) =~= whole);
        }
        return Ok(lines);
    }
    while i < rows.len()
        invariant
            0 <= i <= rows@.len(),
            all == views(rows@),
            rows@.len() > 0,
            headers_of(all[0]).len() > 0,
            forall|k: int| 0 <= k < i ==> (#[trigger] all[k]) is Object,
        decreases rows@.len() - i,
    {
        proof {
            assert(all[i as int] == rows@[i as int]@);
        }
        match &rows[i] {
            JsonValue::Object(_) => {},
            _ => {
                proof {
                    assert(!(all[i as int] is Object));
                }
                return Err(simple_error("row was not a JSON object".to_owned()));
            },
        }
        i += 1;
    }
    let widths = table_widths(&headers, rows);
    proof {
        assert(sizes(widths@).len() == widths@.len());
    }
    let line = table_line(&headers, &widths);
    proof {
        lemma_texts_push(lines@, line);
    }
    lines.push(line);
    let mut dashes: Vec<String> = Vec::new();
    let ghost w = sizes(widths@);
    let ghost rule = divider_cells(w);
    let mut c: usize = 0;
    proof {
        assert(texts(dashes@) =~= rule.take(0));
    }
    while c < widths.len()
        invariant
            0 <= c <= widths@.len(),
            w == sizes(widths@),
            rule == divider_cells(w),
            texts(dashes@) == rule.take(c as int),
        decreases widths@.len() - c,
    {
        let mut dash = String::new();
        push_repeated(&mut dash, '-', widths[c]);
        proof {
            assert(dash@ =~= rule[c as int]);
            lemma_texts_push(dashes@, dash);
            assert(rule.take(c + 1) =~= rule.take(c as int).push(dash@));
        }
        dashes.push(dash);
        c += 1;
    }
    proof {
        assert(rule.take(rule.len() as int) =~= rule);
        assert(texts(dashes@).len() == dashes@.len());
    }
    let line = table_line(&dashes, &widths);
    proof {
        lemma_texts_push(lines@, line);
    }
    lines.push(line);
    let ghost top = seq![line_of(names, w), line_of(rule, w)];
    let ghost body = all.map_values(|row: JsonView| line_of(row_cells(row, names), w));
    let mut i: usize = 0;
    proof {
        assert(texts(lines@) =~= top + body.take(0));
    }
    while i < rows.len()
        invariant
            0 <= i <= rows@.len(),
            all == views(rows@),
            names == texts(headers@),
            widths@.len() == headers@.len(),
            w == sizes(widths@),
            body == all.map_values(|row: JsonView| line_of(row_cells(row, names), w)),
            texts(lines@) == top + body.take(i as int),
        decreases rows@.len() - i,
    {
        let mut cells: Vec<String> = Vec::new();
        let ghost want = row_cells(all[i as int], names);
        let mut c: usize = 0;
        proof {
            assert(texts(cells@) =~= want.take(0));
        }
        while c < headers.len()
            invariant
                0 <= i < rows@.len(),
                0 <= c <= headers@.len(),
                all == views(rows@),
                names == texts(headers@),
                want == row_cells(all[i as int], names),
                texts(cells@) == want.take(c as int),
            decreases headers@.len() - c,
        {
            let cell = cell_at(&rows[i], headers[c].as_str());
            proof {
                assert(want[c as int] == cell@);
                lemma_texts_push(cells@, cell);
                assert(want.take(c + 1) =~= want.take(c as int).push(cell@));
            }
            cells.push(cell);
            c += 1;
        }
        proof {
            assert(want.take(want.len() as int) =~= want);
            assert(texts(cells@).len() == cells@.len());
            assert(want.len() == names.len());
            assert(names.len() == headers@.len());
        }
        let line = table_line(&cells, &widths);
        proof {
            assert(body[i as int] == line@);
            lemma_texts_push(lines@, line);
            assert((top + body.take(i as int)).push(line@) =~= top + body.take(i + 1));
        }
        lines.push(line);
        i += 1;
    }
    proof {
        assert(body.take(body.len() as int) =~= body);
        assert(texts(lines@) =~= lines_of(names, all));
    }
    Ok(lines)
}

proof fn lemma_column_width(header: Text, rows: Seq<JsonView>, i: int)
    requires
        0 <= i < rows.len(),
    ensures
        column_width(header, rows) >= cell_of(rows[i], header).len(),
        column_width(header, rows) >= header.len(),
    decreases rows.len(),
{
    lemma_bytes_at_least_chars(header);
    if i < rows.len() - 1 {
        lemma_column_width(header, rows.drop_last(), i);
    } else if rows.len() > 1 {
        lemma_column_width(header, rows.drop_last(), 0);
    } else {
        assert(column_width(header, rows.drop_last()) == byte_len(header));
    }
}

proof fn lemma_join_len(a: Seq<Text>, b: Seq<Text>, sep: Text)
    requires
        a.len() == b.len(),
        forall|i: int| 0 <= i < a.len() ==> (#[trigger] a[i]).len() == b[i].len(),
    ensures
        join(a, sep).len() == join(b, sep).len(),
    decreases a.len(),
{
    if a.len() == 1 {
        assert(a[0].len() == b[0].len());
    } else if a.len() > 1 {
        let ra = a.drop_last();
        let rb = b.drop_last();
        assert forall|i: int| 0 <= i < ra.len() implies (#[trigger] ra[i]).len() == rb[i].len() by {
            assert(ra[i] == a[i] && rb[i] == b[i]);
        }
        lemma_join_len(ra, rb, sep);
        assert(a[a.len() - 1].len() == b[b.len() - 1].len());
    }
}

proof fn lemma_line_len(cells: Seq<Text>, widths: Seq<int>)
    requires
        cells.len() == widths.len(),
        forall|c: int| 0 <= c < cells.len() ==> (#[trigger] cells[c]).len() <= widths[c],
    ensures
        line_of(cells, widths).len() == line_of(divider_cells(widths), widths).len(),
{
    let dashes = divider_cells(widths);
    let a = Seq::new(cells.len(), |i: int| padded(cells[i], widths[i]));
    let b = Seq::new(dashes.len(), |i: int| padded(dashes[i], widths[i]));
    assert forall|c: int| 0 <= c < a.len() implies (#[trigger] a[c]).len() == b[c].len() by {
        assert(cells[c].len() <= widths[c]);
        assert(dashes[c] == repeated('-', widths[c]));
    }
    lemma_join_len(a, b, "  "@);
}

/// All lines of a table are equally long.
pub proof fn law_lines_are_equally_long(headers: Seq<Text>, rows: Seq<JsonView>, i: int)
    requires
        rows.len() > 0,
        0 <= i < lines_of(headers, rows).len(),
    ensures
        lines_of(headers, rows)[i].len() == lines_of(headers, rows)[0].len(),
{
    let widths = column_widths(headers, rows);
    assert forall|c: int| 0 <= c < headers.len() implies (#[trigger] headers[c]).len()
        <= widths[c] by {
        lemma_column_width(headers[c], rows, 0);
    }
    lemma_line_len(headers, widths);
    if i >= 2 {
        let cells = row_cells(rows[i - 2], headers);
        assert forall|c: int| 0 <= c < cells.len() implies (#[trigger] cells[c]).len()
            <= widths[c] by {
            lemma_column_width(headers[c], rows, i - 2);
        }
        lemma_line_len(cells, widths);
        assert(lines_of(headers, rows)[i] == line_of(cells, widths));
    }
}

/// A part of a joined text is found in it.
proof fn lemma_joined_part(parts: Seq<Text>, sep: Text, i: int)
    requires
        0 <= i < parts.len(),
    ensures
        contains_text(join(parts, sep), parts[i]),
    decreases parts.len(),
{
    if parts.len() == 1 {
        lemma_end_is_found(Seq::empty(), parts[0]);
        lemma_joined_either_way(parts[0], Seq::empty(), Seq::empty());
    } else {
        let before = join(parts.drop_last(), sep);
        if i == parts.len() - 1 {
            lemma_end_is_found(before + sep, parts[i]);
        } else {
            lemma_joined_part(parts.drop_last(), sep, i);
            lemma_found_stays(before, parts[i], sep);
            lemma_found_stays(before + sep, parts[i], parts.last());
        }
    }
}

/// Every cell stands whole in its line, and behind it as many spaces as its column is wider.
pub proof fn law_cells_stand_whole_in_their_line(cells: Seq<Text>, widths: Seq<int>, i: int)
    requires
        0 <= i < cells.len(),
    ensures
        contains_text(line_of(cells, widths), cells[i] + repeated(' ', widths[i] - cells[i].len())),
{
    let all = Seq::new(cells.len(), |i: int| padded(cells[i], widths[i]));
    lemma_joined_part(all, "  "@, i);
}

/// A cell shows the field of the row under the name of its column: a string as it is, nothing for
/// null and for what the row does not have, and anything else as JSON.
pub proof fn law_cell_shows_the_field(row: JsonView, header: Text, v: JsonView)
    ensures
        json_get(row, header) == Some(v) ==> (v matches JsonView::String(s) ==> cell_of(row, header)
            == s),
        json_get(row, header) == Some(v) ==> (v is Null ==> cell_of(row, header).len() == 0),
        json_get(row, header) == Some(v) ==> (!(v is Null) && !(v is String) ==> cell_of(row, header)
            == json_encoding(normal(v))),
        json_get(row, header) is None ==> cell_of(row, header).len() == 0,
{
}

/// A table has a line of headers, a rule and a line for each row, in the order of the rows; the
/// headers are the names of the fields of the first row, and each row shows its own fields.
pub proof fn law_every_row_has_its_line(rows: Seq<JsonView>, i: int, c: int)
    requires
        0 <= i < rows.len(),
        rows[0] is Object,
        0 <= c < rows[0]->Object_0.len(),
        all_objects(rows),
    ensures
        table_of(rows) is Ok,
        table_of(rows)->Ok_0.len() == rows.len() + 2,
        contains_text(table_of(rows)->Ok_0[0], rows[0]->Object_0[c].0),
        contains_text(table_of(rows)->Ok_0[i + 2], cell_of(rows[i], rows[0]->Object_0[c].0)),
{
    let headers = headers_of(rows[0]);
    assert(headers.len() == rows[0]->Object_0.len());
    assert(headers[c] == rows[0]->Object_0[c].0);
    let widths = column_widths(headers, rows);
    let cells = row_cells(rows[i], headers);
    let lines = table_of(rows)->Ok_0;
    assert(lines[0] == line_of(headers, widths));
    assert(lines[i + 2] == line_of(cells, widths));
    assert(cells[c] == cell_of(rows[i], headers[c]));
    law_cells_stand_whole_in_their_line(headers, widths, c);
    law_cells_stand_whole_in_their_line(cells, widths, c);
    lemma_found_within(
        lines[0],
        headers[c],
        repeated(' ', widths[c] - headers[c].len()),
    );
    lemma_found_within(lines[i + 2], cells[c], repeated(' ', widths[c] - cells[c].len()));
}

/// A column is as wide as its widest cell, and no narrower than the bytes of its header.
pub proof fn law_column_is_as_wide_as_its_widest_cell(header: Text, rows: Seq<JsonView>, i: int)
    ensures
        column_width(header, rows) >= byte_len(header),
        0 <= i < rows.len() ==> cell_of(rows[i], header).len() <= column_width(header, rows),
        column_width(header, rows) == byte_len(header) || exists|j: int|
            0 <= j < rows.len() && cell_of(#[trigger] rows[j], header).len() == column_width(
                header,
                rows,
            ),
    decreases rows.len(),
{
    if rows.len() > 0 {
        let init = rows.drop_last();
        law_column_is_as_wide_as_its_widest_cell(header, init, i);
        if column_width(header, rows) == cell_of(rows.last(), header).len() {
            assert(cell_of(rows[rows.len() - 1], header).len() == column_width(header, rows));
        } else if column_width(header, init) != byte_len(header) {
            let j = choose|j: int|
                0 <= j < init.len() && cell_of(#[trigger] init[j], header).len() == column_width(
                    header,
                    init,
                );
            assert(cell_of(rows[j], header).len() == column_width(header, rows));
        }
        if 0 <= i < init.len() {
            assert(init[i] == rows[i]);
        }
    }
}

/// Without rows that is said; rows without fields are shown as JSON; and a row that is no object
/// has no place among objects.
pub proof fn law_rows_without_fields_are_shown_as_they_are(rows: Seq<JsonView>, i: int)
    ensures
        rows.len() == 0 ==> table_of(rows) == Ok::<Seq<Text>, Text>(seq!["(no rows)"@]),
        rows.len() > 0 && !(rows[0] is Object) ==> table_of(rows) is Ok && table_of(
            rows,
        )->Ok_0.len() == rows.len(),
        rows.len() > 0 && !(rows[0] is Object) && 0 <= i < rows.len() ==> table_of(rows)->Ok_0[i]
            == json_encoding(normal(rows[i])),
        rows.len() > 0 && rows[0] is Object && rows[0]->Object_0.len() > 0 && 0 <= i < rows.len()
            && !(rows[i] is Object) ==> table_of(rows) == Err::<Seq<Text>, Text>(
            "row was not a JSON object"@,
        ),
{
}

} // verus!
