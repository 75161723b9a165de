//! The small CSV reader of the performance comparison tool.
//!
//! A CSV text is read as lines; the first line holds the column names and
//! every later line that is not blank is a row. A row pairs each column name
//! with the field at the same position (extra names or fields are dropped);
//! when a name occurs twice, the later field wins.
use vstd::prelude::*;

use crate::profile::escape_quotes;
use crate::text::{char_is_whitespace, chars_of, is_whitespace, string_from_chars};

verus! {

/// Field list of a CSV line, scanned from position `i` in state
/// (`fields`, `cur`, `quoted`). A doubled quote inside a quoted section is a
/// literal quote, any other quote toggles the quoted state, and a comma outside
/// quotes ends the current field.
pub open spec fn scan_fields(
    s: Seq<char>,
    i: int,
    fields: Seq<Seq<char>>,
    cur: Seq<char>,
    quoted: bool,
) -> Seq<Seq<char>>
    decreases s.len() - i,
{
    if i >= s.len() || i < 0 {
        fields.push(cur)
    } else if s[i] == '"' && quoted && i + 1 < s.len() && s[i + 1] == '"' {
        scan_fields(s, i + 2, fields, cur.push('"'), quoted)
    } else if s[i] == '"' {
        scan_fields(s, i + 1, fields, cur, !quoted)
    } else if s[i] == ',' && !quoted {
        scan_fields(s, i + 1, fields.push(cur), Seq::empty(), quoted)
    } else {
        scan_fields(s, i + 1, fields, cur.push(s[i]), quoted)
    }
}

/// The fields of one CSV line.
pub open spec fn csv_fields(line: Seq<char>) -> Seq<Seq<char>> {
    scan_fields(line, 0, Seq::empty(), Seq::empty(), false)
}

/// Character sequences of a list of strings.
pub open spec fn string_views(v: Seq<String>) -> Seq<Seq<char>> {
    v.map_values(|s: String| s@)
}

/// Splits one CSV line into its fields.
pub fn split_csv_line(line: &str) -> (fields: Vec<String>)
    ensures
        string_views(fields@) == csv_fields(line@),
{
    let chars = chars_of(line);
    let len = chars.len();
    let mut fields: Vec<String> = Vec::new();
    let mut current: Vec<char> = Vec::new();
    let mut quoted = false;
    let mut i: usize = 0;
    assert(string_views(fields@) =~= Seq::<Seq<char>>::empty());
    while i < len
        invariant
            chars@ == line@,
            len == chars.len(),
            i <= len,
            csv_fields(line@) == scan_fields(line@, i as int, string_views(fields@), current@, quoted),
        decreases len - i,
    {
        let ch = chars[i];
        if ch == '"' && quoted && i + 1 < len && chars[i + 1] == '"' {
            current.push('"');
            i += 2;
        } else if ch == '"' {
            quoted = !quoted;
            i += 1;
        } else if ch == ',' && !quoted {
            let ghost before = string_views(fields@);
            let field = string_from_chars(&current);
            fields.push(field);
            assert(string_views(fields@) =~= before.push(current@));
            current = Vec::new();
            i += 1;
        } else {
            current.push(ch);
            i += 1;
        }
    }
    let ghost before = string_views(fields@);
    let field = string_from_chars(&current);
    fields.push(field);
    assert(string_views(fields@) =~= before.push(current@));
    fields
}

/// Lines of `s` scanned from position `i` with the current partial line `cur`:
/// lines end at `'\n'`, a `'\r'` right before the `'\n'` is dropped, and an
/// empty text after the last `'\n'` is no line.
pub open spec fn scan_lines(s: Seq<char>, i: int, lines: Seq<Seq<char>>, cur: Seq<char>) -> Seq<
    Seq<char>,
>
    decreases s.len() - i,
{
    if i >= s.len() || i < 0 {
        if cur.len() == 0 {
            lines
        } else {
            lines.push(cur)
        }
    } else if s[i] == '\n' {
        let line = if cur.len() > 0 && cur.last() == '\r' {
            cur.drop_last()
        } else {
            cur
        };
        scan_lines(s, i + 1, lines.push(line), Seq::empty())
    } else {
        scan_lines(s, i + 1, lines, cur.push(s[i]))
    }
}

/// The lines of a text, as `str::lines` yields them.
pub open spec fn text_lines(s: Seq<char>) -> Seq<Seq<char>> {
    scan_lines(s, 0, Seq::empty(), Seq::empty())
}

/// The text made of `lines`, each followed by a carriage return and a line
/// feed.
pub open spec fn crlf_text(lines: Seq<Seq<char>>) -> Seq<char>
    decreases lines.len(),
{
    if lines.len() == 0 {
        Seq::empty()
    } else {
        lines[0] + seq!['\r', '\n'] + crlf_text(lines.drop_first())
    }
}

/// The text made of `lines`, each followed by a line feed.
pub open spec fn lf_text(lines: Seq<Seq<char>>) -> Seq<char>
    decreases lines.len(),
{
    if lines.len() == 0 {
        Seq::empty()
    } else {
        lines[0] + seq!['\n'] + lf_text(lines.drop_first())
    }
}

proof fn lemma_scan_shift(s: Seq<char>, t: Seq<char>, d: int, i: int, lines: Seq<Seq<char>>, cur: Seq<char>)
    requires
        0 <= d <= i,
        d <= s.len(),
        t == s.skip(d),
    ensures
        scan_lines(s, i, lines, cur) == scan_lines(t, i - d, lines, cur),
    decreases s.len() - i,
{
    if i < s.len() {
        assert(s[i] == t[i - d]);
        if s[i] == '\n' {
            let line = if cur.len() > 0 && cur.last() == '\r' {
                cur.drop_last()
            } else {
                cur
            };
            lemma_scan_shift(s, t, d, i + 1, lines.push(line), Seq::empty());
        } else {
            lemma_scan_shift(s, t, d, i + 1, lines, cur.push(s[i]));
        }
    }
}

proof fn lemma_scan_no_newline(s: Seq<char>, i: int, k: int, lines: Seq<Seq<char>>, cur: Seq<char>)
    requires
        0 <= i,
        0 <= k,
        i + k <= s.len(),
        forall|j: int| i <= j < i + k ==> s[j] != '\n',
    ensures
        scan_lines(s, i, lines, cur) == scan_lines(s, i + k, lines, cur + s.subrange(i, i + k)),
    decreases k,
{
    if k == 0 {
        assert(cur + s.subrange(i, i) =~= cur);
    } else {
        lemma_scan_no_newline(s, i + 1, k - 1, lines, cur.push(s[i]));
        assert(cur.push(s[i]) + s.subrange(i + 1, i + k) =~= cur + s.subrange(i, i + k));
    }
}

proof fn lemma_scan_crlf(l: Seq<Seq<char>>, acc: Seq<Seq<char>>)
    requires
        forall|i: int| 0 <= i < l.len() ==> !(#[trigger] l[i]).contains('\n'),
    ensures
        scan_lines(crlf_text(l), 0, acc, Seq::empty()) == acc + l,
    decreases l.len(),
{
    if l.len() == 0 {
        assert(acc + l =~= acc);
    } else {
        let first = l[0];
        let rest = l.drop_first();
        let s = crlf_text(l);
        let n = first.len() as int;
        assert(s == first + seq!['\r', '\n'] + crlf_text(rest));
        assert forall|j: int| 0 <= j < n implies s[j] != '\n' by {
            assert(s[j] == first[j]);
            if first[j] == '\n' {
                assert(first.contains('\n'));
            }
        }
        lemma_scan_no_newline(s, 0, n, acc, Seq::empty());
        assert(Seq::<char>::empty() + s.subrange(0, n) =~= first);
        assert(s[n] == '\r');
        assert(s[n + 1] == '\n');
        assert(first.push('\r').drop_last() =~= first);
        assert(first.push('\r').len() > 0 && first.push('\r').last() == '\r');
        assert(scan_lines(s, n + 1, acc, first.push('\r')) == scan_lines(s, n + 2, acc.push(first), Seq::empty()));
        assert(s.skip(n + 2) =~= crlf_text(rest));
        lemma_scan_shift(s, crlf_text(rest), n + 2, n + 2, acc.push(first), Seq::empty());
        assert forall|i: int| 0 <= i < rest.len() implies !(#[trigger] rest[i]).contains('\n') by {
            assert(rest[i] == l[i + 1]);
        }
        lemma_scan_crlf(rest, acc.push(first));
        assert(acc.push(first) + rest =~= acc + l);
    }
}

proof fn lemma_scan_lf(l: Seq<Seq<char>>, acc: Seq<Seq<char>>)
    requires
        forall|i: int|
            0 <= i < l.len() ==> !(#[trigger] l[i]).contains('\n') && !(l[i].len() > 0 && l[i].last() == '\r'),
    ensures
        scan_lines(lf_text(l), 0, acc, Seq::empty()) == acc + l,
    decreases l.len(),
{
    if l.len() == 0 {
        assert(acc + l =~= acc);
    } else {
        let first = l[0];
        let rest = l.drop_first();
        let s = lf_text(l);
        let n = first.len() as int;
        assert(s == first + seq!['\n'] + lf_text(rest));
        assert forall|j: int| 0 <= j < n implies s[j] != '\n' by {
            assert(s[j] == first[j]);
            if first[j] == '\n' {
                assert(first.contains('\n'));
            }
        }
        lemma_scan_no_newline(s, 0, n, acc, Seq::empty());
        assert(Seq::<char>::empty() + s.subrange(0, n) =~= first);
        assert(s[n] == '\n');
        assert(scan_lines(s, n, acc, first) == scan_lines(s, n + 1, acc.push(first), Seq::empty()));
        assert(s.skip(n + 1) =~= lf_text(rest));
        lemma_scan_shift(s, lf_text(rest), n + 1, n + 1, acc.push(first), Seq::empty());
        assert forall|i: int|
            0 <= i < rest.len() implies !(#[trigger] rest[i]).contains('\n') && !(rest[i].len() > 0
                && rest[i].last() == '\r') by {
            assert(rest[i] == l[i + 1]);
        }
        lemma_scan_lf(rest, acc.push(first));
        assert(acc.push(first) + rest =~= acc + l);
    }
}

/// Line endings are not part of lines: writing lines that hold no line feed
/// each followed by `\r\n` and splitting the text again gives back exactly
/// those lines, and so does ending each with `\n` when no line ends with a
/// carriage return.
pub proof fn lemma_lines_round_trip(lines: Seq<Seq<char>>)
    requires
        forall|i: int| 0 <= i < lines.len() ==> !(#[trigger] lines[i]).contains('\n'),
    ensures
        text_lines(crlf_text(lines)) == lines,
        (forall|i: int| 0 <= i < lines.len() ==> !(#[trigger] lines[i].len() > 0 && lines[i].last() == '\r'))
            ==> text_lines(lf_text(lines)) == lines,
{
    lemma_scan_crlf(lines, Seq::empty());
    assert(Seq::<Seq<char>>::empty() + lines =~= lines);
    if forall|i: int| 0 <= i < lines.len() ==> !(#[trigger] lines[i].len() > 0 && lines[i].last() == '\r') {
        assert forall|i: int|
            0 <= i < lines.len() implies !(#[trigger] lines[i]).contains('\n') && !(lines[i].len() > 0
                && lines[i].last() == '\r') by {
        }
        lemma_scan_lf(lines, Seq::empty());
    }
}

/// A line that holds nothing but white space.
pub open spec fn is_blank(line: Seq<char>) -> bool {
    forall|i: int| 0 <= i < line.len() ==> char_is_whitespace(#[trigger] line[i])
}

/// A row: column names paired with the fields at the same positions.
pub open spec fn zip_row(names: Seq<Seq<char>>, fields: Seq<Seq<char>>) -> Seq<(Seq<char>, Seq<char>)> {
    let n = if names.len() < fields.len() {
        names.len()
    } else {
        fields.len()
    };
    Seq::new(n, |i: int| (names[i], fields[i]))
}

/// Character view of a row.
pub open spec fn row_view(row: Seq<(String, String)>) -> Seq<(Seq<char>, Seq<char>)> {
    row.map_values(|p: (String, String)| (p.0@, p.1@))
}

/// Character view of a list of rows.
pub open spec fn rows_view(rows: Seq<Vec<(String, String)>>) -> Seq<Seq<(Seq<char>, Seq<char>)>> {
    rows.map_values(|r: Vec<(String, String)>| row_view(r@))
}

/// The value of column `key` in a row: the field of the last pair named `key`.
pub open spec fn row_get(row: Seq<(Seq<char>, Seq<char>)>, key: Seq<char>) -> Option<Seq<char>>
    decreases row.len(),
{
    if row.len() == 0 {
        None
    } else if row.last().0 == key {
        Some(row.last().1)
    } else {
        row_get(row.drop_last(), key)
    }
}

/// The data lines of a CSV text: every line after the first that is not blank.
pub open spec fn data_lines(lines: Seq<Seq<char>>) -> Seq<Seq<char>> {
    lines.drop_first().filter(|l: Seq<char>| !is_blank(l))
}

/// Rows of a CSV text whose lines are `lines` (at least one line).
pub open spec fn csv_rows(lines: Seq<Seq<char>>) -> Seq<Seq<(Seq<char>, Seq<char>)>> {
    data_lines(lines).map_values(|l: Seq<char>| zip_row(csv_fields(lines[0]), csv_fields(l)))
}

/// Why a CSV text could not be read.
#[derive(Debug, Clone, Copy, PartialEq, Eq)]
pub enum CsvError {
    /// The text has no line, so no column names.
    Empty,
    /// The text has column names but no row.
    NoDataRows,
    /// A row has no field for the key column.
    MissingKey,
}

/// Splits a text into its lines, as `str::lines` does.
pub fn split_lines(content: &str) -> (lines: Vec<Vec<char>>)
    ensures
        lines@.map_values(|l: Vec<char>| l@) == text_lines(content@),
{
    let chars = chars_of(content);
    let len = chars.len();
    let mut lines: Vec<Vec<char>> = Vec::new();
    let mut cur: Vec<char> = Vec::new();
    let mut i: usize = 0;
    assert(lines@.map_values(|l: Vec<char>| l@) =~= Seq::<Seq<char>>::empty());
    while i < len
        invariant
            chars@ == content@,
            len == chars.len(),
            i <= len,
            text_lines(content@) == scan_lines(
                content@,
                i as int,
                lines@.map_values(|l: Vec<char>| l@),
                cur@,
            ),
        decreases len - i,
    {
        let ch = chars[i];
        if ch == '\n' {
            let ghost before = lines@.map_values(|l: Vec<char>| l@);
            let ghost line = if cur@.len() > 0 && cur@.last() == '\r' {
                cur@.drop_last()
            } else {
                cur@
            };
            if cur.len() > 0 && cur[cur.len() - 1] == '\r' {
                cur.pop();
            }
            assert(cur@ == line);
            lines.push(cur);
            assert(lines@.map_values(|l: Vec<char>| l@) =~= before.push(line));
            cur = Vec::new();
        } else {
            cur.push(ch);
        }
        i += 1;
    }
    if cur.len() > 0 {
        let ghost before = lines@.map_values(|l: Vec<char>| l@);
        let ghost c = cur@;
        lines.push(cur);
        assert(lines@.map_values(|l: Vec<char>| l@) =~= before.push(c));
    }
    lines
}

fn line_is_blank(line: &Vec<char>) -> (b: bool)
    ensures
        b == is_blank(line@),
{
    let mut i: usize = 0;
    while i < line.len()
        invariant
            i <= line.len(),
            forall|j: int| 0 <= j < i ==> char_is_whitespace(#[trigger] line@[j]),
        decreases line.len() - i,
    {
        if !is_whitespace(line[i]) {
            return false;
        }
        i += 1;
    }
    true
}

fn zip_fields(names: &Vec<String>, fields: &Vec<String>) -> (row: Vec<(String, String)>)
    ensures
        row_view(row@) == zip_row(string_views(names@), string_views(fields@)),
{
    let n = if names.len() < fields.len() {
        names.len()
    } else {
        fields.len()
    };
    let mut row: Vec<(String, String)> = Vec::new();
    let mut i: usize = 0;
    while i < n
        invariant
            n <= names.len(),
            n <= fields.len(),
            n == if names.len() < fields.len() {
                names.len()
            } else {
                fields.len()
            },
            i <= n,
            row_view(row@) =~= zip_row(string_views(names@), string_views(fields@)).take(i as int),
        decreases n - i,
    {
        let ghost before = row_view(row@);
        let name = names[i].clone();
        let field = fields[i].clone();
        assert(string_views(names@)[i as int] == names@[i as int]@);
        assert(string_views(fields@)[i as int] == fields@[i as int]@);
        row.push((name, field));
        assert(row_view(row@) =~= before.push((name@, field@)));
        assert(row_view(row@) =~= zip_row(string_views(names@), string_views(fields@)).take(i + 1));
        i += 1;
    }
    assert(zip_row(string_views(names@), string_views(fields@)).take(n as int) =~= zip_row(
        string_views(names@),
        string_views(fields@),
    ));
    row
}

/// Reads the rows of a CSV text. Fails with `Empty` when the text has no line.
pub fn read_csv(content: &str) -> (res: Result<Vec<Vec<(String, String)>>, CsvError>)
    ensures
        match res {
            Ok(rows) => text_lines(content@).len() > 0 && rows_view(rows@) == csv_rows(
                text_lines(content@),
            ),
            Err(e) => e == CsvError::Empty && text_lines(content@).len() == 0,
        },
{
    let lines = split_lines(content);
    let ghost lv = lines@.map_values(|l: Vec<char>| l@);
    if lines.len() == 0 {
        return Err(CsvError::Empty);
    }
    let header_line = string_from_chars(&lines[0]);
    let names = split_csv_line(header_line.as_str());
    let ghost hf = csv_fields(lv[0]);
    let mut rows: Vec<Vec<(String, String)>> = Vec::new();
    let mut i: usize = 1;
    while i < lines.len()
        invariant
            lv == lines@.map_values(|l: Vec<char>| l@),
            lv == text_lines(content@),
            1 <= i <= lines.len(),
            string_views(names@) == hf,
            hf == csv_fields(lv[0]),
            rows_view(rows@) == lv.subrange(1, i as int).filter(|l: Seq<char>| !is_blank(l)).map_values(
                |l: Seq<char>| zip_row(hf, csv_fields(l)),
            ),
        decreases lines.len() - i,
    {
        let ghost before = rows_view(rows@);
        let ghost prefix = lv.subrange(1, i as int);
        assert(lv.subrange(1, i + 1) =~= prefix.push(lv[i as int]));
        proof {
            reveal(Seq::filter);
            assert(prefix.push(lv[i as int]).drop_last() =~= prefix);
        }
        if !line_is_blank(&lines[i]) {
            let line = string_from_chars(&lines[i]);
            let fields = split_csv_line(line.as_str());
            let row = zip_fields(&names, &fields);
            rows.push(row);
            assert(rows_view(rows@) =~= before.push(zip_row(hf, csv_fields(lv[i as int]))));
        }
        i += 1;
    }
    assert(lv.subrange(1, lines.len() as int) =~= lv.drop_first());
    Ok(rows)
}

/// Reads a CSV text that must hold exactly the column names and at least one
/// row, and returns its first row.
pub fn read_single_row_csv(content: &str) -> (res: Result<Vec<(String, String)>, CsvError>)
    ensures
        match res {
            Ok(row) => text_lines(content@).len() > 0 && csv_rows(text_lines(content@)).len() > 0
                && row_view(row@) == csv_rows(text_lines(content@))[0],
            Err(e) => (e == CsvError::Empty && text_lines(content@).len() == 0) || (e
                == CsvError::NoDataRows && text_lines(content@).len() > 0 && csv_rows(
                text_lines(content@),
            ).len() == 0),
        },
{
    let rows = read_csv(content)?;
    if rows.len() == 0 {
        return Err(CsvError::NoDataRows);
    }
    let mut rows = rows;
    let first = rows.swap_remove(0);
    Ok(first)
}

fn clone_row(row: &Vec<(String, String)>) -> (out: Vec<(String, String)>)
    ensures
        row_view(out@) == row_view(row@),
{
    let mut out: Vec<(String, String)> = Vec::new();
    let mut i: usize = 0;
    while i < row.len()
        invariant
            i <= row.len(),
            row_view(out@) =~= row_view(row@).take(i as int),
        decreases row.len() - i,
    {
        let ghost before = row_view(out@);
        let name = row[i].0.clone();
        let field = row[i].1.clone();
        out.push((name, field));
        assert(row_view(out@) =~= before.push((name@, field@)));
        assert(row_view(row@).take(i + 1) =~= row_view(row@).take(i as int).push((name@, field@)));
        i += 1;
    }
    assert(row_view(row@).take(i as int) =~= row_view(row@));
    out
}

/// Value of column `key` in a row (the last field of that name).
pub fn row_lookup(row: &Vec<(String, String)>, key: &String) -> (res: Option<String>)
    ensures
        match res {
            Some(v) => row_get(row_view(row@), key@) == Some(v@),
            None => row_get(row_view(row@), key@) is None,
        },
{
    let mut i = row.len();
    assert(row_view(row@).take(i as int) =~= row_view(row@));
    while i > 0
        invariant
            i <= row.len(),
            row_get(row_view(row@), key@) == row_get(row_view(row@).take(i as int), key@),
        decreases i,
    {
        let ghost t = row_view(row@).take(i as int);
        assert(t.last() == (row@[i - 1].0@, row@[i - 1].1@));
        assert(t.drop_last() =~= row_view(row@).take(i - 1));
        if row[i - 1].0 == *key {
            return Some(row[i - 1].1.clone());
        }
        i -= 1;
    }
    None
}

/// The last of `rows` whose column `key` holds `k`.
pub open spec fn last_row_with(
    rows: Seq<Seq<(Seq<char>, Seq<char>)>>,
    key: Seq<char>,
    k: Seq<char>,
) -> Option<Seq<(Seq<char>, Seq<char>)>>
    decreases rows.len(),
{
    if rows.len() == 0 {
        None
    } else if row_get(rows.last(), key) == Some(k) {
        Some(rows.last())
    } else {
        last_row_with(rows.drop_last(), key, k)
    }
}

/// Character view of a keyed table.
pub open spec fn table_view(t: Seq<(String, Vec<(String, String)>)>) -> Seq<
    (Seq<char>, Seq<(Seq<char>, Seq<char>)>),
> {
    t.map_values(|e: (String, Vec<(String, String)>)| (e.0@, row_view(e.1@)))
}

/// No two entries of a table have the same key.
pub open spec fn unique_keys<V>(t: Seq<(Seq<char>, V)>) -> bool {
    forall|i: int, j: int| 0 <= i < t.len() && 0 <= j < t.len() && i != j ==> #[trigger] t[i].0 != #[trigger] t[j].0
}

/// The entry of a table under key `k`.
pub open spec fn table_get<V>(t: Seq<(Seq<char>, V)>, k: Seq<char>) -> Option<V> {
    if exists|i: int| 0 <= i < t.len() && #[trigger] t[i].0 == k {
        Some(t[choose|i: int| 0 <= i < t.len() && #[trigger] t[i].0 == k].1)
    } else {
        None
    }
}

proof fn lemma_table_get_at<V>(t: Seq<(Seq<char>, V)>, j: int)
    requires
        unique_keys(t),
        0 <= j < t.len(),
    ensures
        table_get(t, t[j].0) == Some(t[j].1),
{
    let k = t[j].0;
    let c = choose|i: int| 0 <= i < t.len() && #[trigger] t[i].0 == k;
    assert(0 <= c < t.len() && t[c].0 == k);
    if c != j {
        assert(t[c].0 != t[j].0);
    }
}

/// Reads a CSV text into a table that maps the value of column `key` to the
/// row holding it; when several rows hold the same value, the last one wins.
/// Fails with `Empty` when the text has no line and with `MissingKey` when a
/// row has no field for column `key`.
pub fn read_keyed_csv(content: &str, key: &str) -> (res: Result<
    Vec<(String, Vec<(String, String)>)>,
    CsvError,
>)
    ensures
        match res {
            Ok(t) => {
                &&& text_lines(content@).len() > 0
                &&& forall|i: int|
                    0 <= i < csv_rows(text_lines(content@)).len() ==> row_get(
                        #[trigger] csv_rows(text_lines(content@))[i],
                        key@,
                    ) is Some
                &&& unique_keys(table_view(t@))
                &&& forall|k: Seq<char>|
                    table_get(table_view(t@), k) == last_row_with(
                        csv_rows(text_lines(content@)),
                        key@,
                        k,
                    )
            },
            Err(e) => (e == CsvError::Empty && text_lines(content@).len() == 0) || (e
                == CsvError::MissingKey && text_lines(content@).len() > 0 && exists|i: int|
                0 <= i < csv_rows(text_lines(content@)).len() && row_get(
                    #[trigger] csv_rows(text_lines(content@))[i],
                    key@,
                ) is None),
        },
{
    let rows = read_csv(content)?;
    let ghost rv = rows_view(rows@);
    let key_string = key.to_owned();
    let mut out: Vec<(String, Vec<(String, String)>)> = Vec::new();
    let mut i: usize = 0;
    assert(table_view(out@) =~= Seq::empty());
    while i < rows.len()
        invariant
            rv == rows_view(rows@),
            rv == csv_rows(text_lines(content@)),
            text_lines(content@).len() > 0,
            key_string@ == key@,
            i <= rows.len(),
            forall|j: int| 0 <= j < i ==> row_get(#[trigger] rv[j], key@) is Some,
            unique_keys(table_view(out@)),
            forall|k: Seq<char>| table_get(table_view(out@), k) == last_row_with(rv.take(i as int), key@, k),
        decreases rows.len() - i,
    {
        assert(rv[i as int] == row_view(rows@[i as int]@));
        let value = match row_lookup(&rows[i], &key_string) {
            Some(v) => v,
            None => {
                assert(row_get(rv[i as int], key@) is None);
                assert(rv == csv_rows(text_lines(content@)));
                assert(0 <= i < csv_rows(text_lines(content@)).len());
                return Err(CsvError::MissingKey);
            },
        };
        let row = clone_row(&rows[i]);
        let ghost r = row_view(row@);
        assert(r == rv[i as int]);
        let ghost before = table_view(out@);
        let ghost prev = rv.take(i as int);
        assert(rv.take(i + 1).drop_last() =~= prev);
        assert(rv.take(i + 1).last() == r);
        assert(row_get(r, key@) == Some(value@));
        assert(forall|k: Seq<char>| last_row_with(rv.take(i + 1), key@, k) == if row_get(r, key@) == Some(k) {
            Some(r)
        } else {
            last_row_with(prev, key@, k)
        });
        let mut j: usize = 0;
        while j < out.len() && out[j].0 != value
            invariant
                before == table_view(out@),
                j <= out.len(),
                forall|m: int| 0 <= m < j ==> #[trigger] before[m].0 != value@,
            decreases out.len() - j,
        {
            assert(before[j as int].0 == out@[j as int].0@);
            j += 1;
        }
        if j < out.len() {
            assert(before[j as int].0 == out@[j as int].0@);
            assert(before[j as int].0 == value@);
            out.set(j, (value, row));
            let ghost after = table_view(out@);
            assert(after =~= before.update(j as int, (value@, r)));
            proof {
                assert(unique_keys(after)) by {
                    assert forall|a: int, b: int| 0 <= a < after.len() && 0 <= b < after.len() && a != b
                        implies #[trigger] after[a].0 != #[trigger] after[b].0 by {
                        assert(after[a].0 == before[a].0);
                        assert(after[b].0 == before[b].0);
                    }
                }
                assert forall|k: Seq<char>| table_get(after, k) == last_row_with(rv.take(i + 1), key@, k) by {
                    assert(table_get(before, k) == last_row_with(prev, key@, k));
                    assert(last_row_with(rv.take(i + 1), key@, k) == if row_get(r, key@) == Some(k) {
                        Some(r)
                    } else {
                        last_row_with(prev, key@, k)
                    });
                    if k == value@ {
                        lemma_table_get_at(after, j as int);
                    } else {
                        if exists|m: int| 0 <= m < after.len() && #[trigger] after[m].0 == k {
                            let m = choose|m: int| 0 <= m < after.len() && #[trigger] after[m].0 == k;
                            assert(m != j);
                            assert(after[m] == before[m]);
                            lemma_table_get_at(after, m);
                            lemma_table_get_at(before, m);
                        } else {
                            assert forall|m: int| 0 <= m < before.len() implies #[trigger] before[m].0 != k by {
                                assert(after[m].0 == before[m].0);
                            }
                        }
                    }
                }
            }
        } else {
            out.push((value, row));
            let ghost after = table_view(out@);
            assert(after =~= before.push((value@, r)));
            proof {
                assert(unique_keys(after)) by {
                    assert forall|a: int, b: int| 0 <= a < after.len() && 0 <= b < after.len() && a != b
                        implies #[trigger] after[a].0 != #[trigger] after[b].0 by {
                        if a < before.len() {
                            assert(after[a] == before[a]);
                        }
                        if b < before.len() {
                            assert(after[b] == before[b]);
                        }
                    }
                }
                assert forall|k: Seq<char>| table_get(after, k) == last_row_with(rv.take(i + 1), key@, k) by {
                    assert(table_get(before, k) == last_row_with(prev, key@, k));
                    assert(last_row_with(rv.take(i + 1), key@, k) == if row_get(r, key@) == Some(k) {
                        Some(r)
                    } else {
                        last_row_with(prev, key@, k)
                    });
                    if k == value@ {
                        lemma_table_get_at(after, before.len() as int);
                    } else {
                        if exists|m: int| 0 <= m < after.len() && #[trigger] after[m].0 == k {
                            let m = choose|m: int| 0 <= m < after.len() && #[trigger] after[m].0 == k;
                            assert(m < before.len());
                            assert(after[m] == before[m]);
                            lemma_table_get_at(after, m);
                            lemma_table_get_at(before, m);
                        } else {
                            assert forall|m: int| 0 <= m < before.len() implies #[trigger] before[m].0 != k by {
                                assert(after[m] == before[m]);
                            }
                        }
                    }
                }
            }
        }
        i += 1;
    }
    assert(rv.take(rows.len() as int) =~= rv);
    Ok(out)
}

proof fn lemma_escape_quotes_append(a: Seq<char>, b: Seq<char>)
    ensures
        escape_quotes(a + b) == escape_quotes(a) + escape_quotes(b),
    decreases b.len(),
{
    if b.len() == 0 {
        assert(a + b =~= a);
        assert(escape_quotes(a) + escape_quotes(b) =~= escape_quotes(a));
    } else {
        assert((a + b).drop_last() =~= a + b.drop_last());
        assert((a + b).last() == b.last());
        lemma_escape_quotes_append(a, b.drop_last());
        assert(escape_quotes(a + b) =~= escape_quotes(a) + escape_quotes(b));
    }
}

/// Scanning an escaped value followed by the closing quote, inside a quoted
/// section, adds the value to the current field and ends the line.
proof fn lemma_scan_quoted_value(
    s: Seq<char>,
    i: int,
    fields: Seq<Seq<char>>,
    cur: Seq<char>,
    w: Seq<char>,
)
    requires
        0 <= i <= s.len(),
        s.subrange(i, s.len() as int) == escape_quotes(w) + seq!['"'],
    ensures
        scan_fields(s, i, fields, cur, true) == fields.push(cur + w),
    decreases w.len(),
{
    let rest = s.subrange(i, s.len() as int);
    if w.len() == 0 {
        assert(escape_quotes(w) =~= Seq::<char>::empty());
        assert(rest =~= seq!['"']);
        assert(s[i] == rest[0]);
        assert(i + 1 == s.len());
        assert(scan_fields(s, i + 1, fields, cur, false) == fields.push(cur));
        assert(cur + w =~= cur);
    } else {
        let c = w[0];
        let r = w.drop_first();
        assert(w =~= seq![c] + r);
        lemma_escape_quotes_append(seq![c], r);
        assert(seq![c].drop_last() =~= Seq::<char>::empty());
        assert(escape_quotes(Seq::<char>::empty()) =~= Seq::<char>::empty());
        if c == '"' {
            assert(escape_quotes(seq![c]) =~= seq!['"', '"']);
            assert(rest =~= seq!['"', '"'] + (escape_quotes(r) + seq!['"']));
            assert(s[i] == rest[0] && s[i + 1] == rest[1]);
            assert(s.subrange(i + 2, s.len() as int) =~= escape_quotes(r) + seq!['"']) by {
                assert forall|k: int| 0 <= k < s.len() - (i + 2) implies s.subrange(i + 2, s.len() as int)[k]
                    == (escape_quotes(r) + seq!['"'])[k] by {
                    assert(s[i + 2 + k] == rest[k + 2]);
                }
            }
            lemma_scan_quoted_value(s, i + 2, fields, cur.push('"'), r);
            assert(cur.push('"') + r =~= cur + w);
        } else {
            assert(escape_quotes(seq![c]) =~= seq![c]);
            assert(rest =~= seq![c] + (escape_quotes(r) + seq!['"']));
            assert(s[i] == rest[0]);
            assert(s.subrange(i + 1, s.len() as int) =~= escape_quotes(r) + seq!['"']) by {
                assert forall|k: int| 0 <= k < s.len() - (i + 1) implies s.subrange(i + 1, s.len() as int)[k]
                    == (escape_quotes(r) + seq!['"'])[k] by {
                    assert(s[i + 1 + k] == rest[k + 1]);
                }
            }
            lemma_scan_quoted_value(s, i + 1, fields, cur.push(c), r);
            assert(cur.push(c) + r =~= cur + w);
        }
    }
}

/// A field written by `csv_field` reads back, as a line of its own, as
/// exactly that one field: quoting and doubling the quotes of any value is
/// undone by the reader.
pub proof fn lemma_csv_field_round_trip(value: Seq<char>)
    ensures
        csv_fields(seq!['"'] + escape_quotes(value) + seq!['"']) == seq![value],
{
    let s = seq!['"'] + escape_quotes(value) + seq!['"'];
    assert(s[0] == '"');
    assert(s.subrange(1, s.len() as int) =~= escape_quotes(value) + seq!['"']);
    lemma_scan_quoted_value(s, 1, Seq::empty(), Seq::empty(), value);
    assert(Seq::<Seq<char>>::empty().push(Seq::<char>::empty() + value) =~= seq![value]);
}

} // verus!
