//! Rendering column-oriented result batches as delimited text.
//!
//! A result batch holds the engine's values already converted to display
//! text: an ordered list of column names and, per column, one value per row.
//! Delimited output writes one header line with the column names, then one
//! line per row, fields joined by a single separator character. A field that
//! contains the separator, a quote, or a line break is wrapped in double
//! quotes with every embedded quote doubled, so the output round-trips
//! through a standard delimited-text reader. The table display itself is the
//! engine's; the library only decides that a result with no rows produces no
//! table output at all.

use vstd::prelude::*;

verus! {

/// One chunk of column-oriented query output, values already rendered as
/// display text. All columns of a well-formed batch have the same number of
/// rows, one name per column.
#[derive(Debug)]
pub struct ResultBatch {
    pub column_names: Vec<String>,
    pub columns: Vec<Vec<String>>,
}

/// The mathematical shape of a batch: names and columns as character
/// sequences.
pub ghost struct BatchModel {
    pub column_names: Seq<Seq<char>>,
    pub columns: Seq<Seq<Seq<char>>>,
}

impl View for ResultBatch {
    type V = BatchModel;

    open spec fn view(&self) -> BatchModel {
        BatchModel { column_names: self.column_names.deep_view(), columns: self.columns.deep_view() }
    }
}

/// How many rows a batch has: the length its columns share.
pub open spec fn row_count(m: BatchModel) -> nat {
    if m.columns.len() == 0 {
        0
    } else {
        m.columns[0].len()
    }
}

/// A batch is well formed when it has one name per column and every column
/// has the same number of rows.
pub open spec fn batch_wf(m: BatchModel) -> bool {
    &&& m.columns.len() == m.column_names.len()
    &&& forall|c: int| 0 <= c < m.columns.len() ==> (#[trigger] m.columns[c]).len() == row_count(m)
}

/// A rendering error: the given columns do not form a batch.
#[derive(Clone, Copy, PartialEq, Eq, Structural, Debug)]
pub enum FormatError {
    /// The number of names and columns disagree, or two columns differ in
    /// row count.
    ShapeMismatch,
}

impl FormatError {
    /// A human-readable message for the error.
    pub fn message(&self) -> (r: &'static str)
        ensures
            r@ == "result columns do not agree in shape"@,
    {
        "result columns do not agree in shape"
    }
}

impl ResultBatch {
    /// Builds a batch from one name per column and one value per row and
    /// column, rejecting shapes that do not form a batch.
    pub fn new(column_names: Vec<String>, columns: Vec<Vec<String>>) -> (r: Result<
        ResultBatch,
        FormatError,
    >)
        ensures
            r is Ok <==> batch_wf(
                BatchModel { column_names: column_names.deep_view(), columns: columns.deep_view() },
            ),
            r matches Ok(b) ==> b.column_names == column_names && b.columns == columns,
            r is Err ==> r == Err::<ResultBatch, FormatError>(FormatError::ShapeMismatch),
    {
        if columns.len() != column_names.len() {
            return Err(FormatError::ShapeMismatch);
        }
        let rows = if columns.len() == 0 {
            0
        } else {
            columns[0].len()
        };
        let mut c: usize = 0;
        while c < columns.len()
            invariant
                rows == row_count(
                    BatchModel {
                        column_names: column_names.deep_view(),
                        columns: columns.deep_view(),
                    },
                ),
                c <= columns.len(),
                forall|k: int| 0 <= k < c ==> (#[trigger] columns.deep_view()[k]).len() == rows,
            decreases columns.len() - c,
        {
            if columns[c].len() != rows {
                assert(columns.deep_view()[c as int].len() != rows);
                return Err(FormatError::ShapeMismatch);
            }
            c += 1;
        }
        Ok(ResultBatch { column_names, columns })
    }
}

/// The characters that force a field into quotes: the separator itself, a
/// line break, or a quote.
pub open spec fn is_special(c: char, sep: char) -> bool {
    c == sep || c == '\n' || c == '\r' || c == '"'
}

/// Whether a field must be quoted to survive re-reading.
pub open spec fn needs_quoting(f: Seq<char>, sep: char) -> bool {
    exists|k: int| 0 <= k < f.len() && is_special(#[trigger] f[k], sep)
}

/// `f` with every quote doubled.
pub open spec fn doubled_quotes(f: Seq<char>) -> Seq<char>
    decreases f.len(),
{
    if f.len() == 0 {
        Seq::empty()
    } else if f[0] == '"' {
        seq!['"', '"'] + doubled_quotes(f.drop_first())
    } else {
        seq![f[0]] + doubled_quotes(f.drop_first())
    }
}

/// A field as it appears in delimited output: unchanged when it holds no
/// special character, otherwise wrapped in quotes with embedded quotes
/// doubled.
pub open spec fn escaped_field(f: Seq<char>, sep: char) -> Seq<char> {
    if needs_quoting(f, sep) {
        seq!['"'] + doubled_quotes(f) + seq!['"']
    } else {
        f
    }
}

/// What a standard delimited-text reader makes of one output field: a quoted
/// field loses its quotes and doubled quotes collapse, any other field is
/// taken as it stands.
pub open spec fn undoubled_quotes(s: Seq<char>) -> Seq<char>
    decreases s.len(),
{
    if s.len() == 0 {
        Seq::empty()
    } else if s[0] == '"' && s.len() >= 2 && s[1] == '"' {
        seq!['"'] + undoubled_quotes(s.skip(2))
    } else {
        seq![s[0]] + undoubled_quotes(s.skip(1))
    }
}

/// The reader's view of one field (see `undoubled_quotes`).
pub open spec fn unescaped_field(s: Seq<char>) -> Seq<char> {
    if s.len() >= 2 && s[0] == '"' && s.last() == '"' {
        undoubled_quotes(s.subrange(1, s.len() - 1))
    } else {
        s
    }
}

/// Collapsing doubled quotes undoes doubling them.
pub proof fn lemma_undouble_double(f: Seq<char>)
    ensures
        undoubled_quotes(doubled_quotes(f)) == f,
    decreases f.len(),
{
    if f.len() > 0 {
        lemma_undouble_double(f.drop_first());
        let d = doubled_quotes(f);
        if f[0] == '"' {
            assert(d == seq!['"', '"'] + doubled_quotes(f.drop_first()));
            assert(d.skip(2) =~= doubled_quotes(f.drop_first()));
            assert(seq!['"'] + f.drop_first() =~= f);
        } else {
            assert(d == seq![f[0]] + doubled_quotes(f.drop_first()));
            assert(d[0] == f[0]);
            if d.len() >= 2 && d[0] == '"' && d[1] == '"' {
                assert(false);
            }
            assert(d.skip(1) =~= doubled_quotes(f.drop_first()));
            assert(seq![f[0]] + f.drop_first() =~= f);
        }
    }
}

/// Reading an escaped field back yields the original field, whatever the
/// separator: a value containing the separator, a quote or a line break
/// survives the trip through delimited output unchanged.
pub proof fn lemma_field_round_trip(f: Seq<char>, sep: char)
    ensures
        unescaped_field(escaped_field(f, sep)) == f,
{
    if needs_quoting(f, sep) {
        let e = escaped_field(f, sep);
        assert(e.len() == doubled_quotes(f).len() + 2);
        assert(e[0] == '"');
        assert(e.last() == '"');
        assert(e.subrange(1, e.len() - 1) =~= doubled_quotes(f));
        lemma_undouble_double(f);
    } else {
        let e = escaped_field(f, sep);
        assert(e == f);
        if f.len() >= 2 && f[0] == '"' && f.last() == '"' {
            assert(is_special(f[0], sep));
            assert(false);
        }
    }
}

/// The first `upto` fields of a row, escaped and joined by the separator.
pub open spec fn joined_upto(fields: Seq<Seq<char>>, sep: char, upto: int) -> Seq<char>
    decreases upto,
{
    if upto <= 0 {
        Seq::empty()
    } else if upto == 1 {
        escaped_field(fields[0], sep)
    } else {
        joined_upto(fields, sep, upto - 1) + seq![sep] + escaped_field(fields[upto - 1], sep)
    }
}

/// One output line: the fields joined by the separator, newline-terminated.
pub open spec fn rendered_line(fields: Seq<Seq<char>>, sep: char) -> Seq<char> {
    joined_upto(fields, sep, fields.len() as int) + seq!['\n']
}

/// Row `r` of a batch, one field per column.
pub open spec fn row_fields(columns: Seq<Seq<Seq<char>>>, r: int) -> Seq<Seq<char>> {
    Seq::new(columns.len(), |c: int| columns[c][r])
}

/// The first `upto` rows of a batch, each as one output line.
pub open spec fn rendered_rows(m: BatchModel, sep: char, upto: int) -> Seq<char>
    decreases upto,
{
    if upto <= 0 {
        Seq::empty()
    } else {
        rendered_rows(m, sep, upto - 1) + rendered_line(row_fields(m.columns, upto - 1), sep)
    }
}

/// The rows of the first `upto` batches, in batch order.
pub open spec fn rendered_batches(batches: Seq<BatchModel>, sep: char, upto: int) -> Seq<char>
    decreases upto,
{
    if upto <= 0 {
        Seq::empty()
    } else {
        rendered_batches(batches, sep, upto - 1) + rendered_rows(
            batches[upto - 1],
            sep,
            row_count(batches[upto - 1]) as int,
        )
    }
}

/// The whole delimited output of a result: nothing for an empty result,
/// otherwise one header line with the column names of the first batch,
/// then every row of every batch in order.
pub open spec fn delimited_output(batches: Seq<BatchModel>, sep: char) -> Seq<char> {
    if batches.len() == 0 {
        Seq::empty()
    } else {
        rendered_line(batches[0].column_names, sep) + rendered_batches(
            batches,
            sep,
            batches.len() as int,
        )
    }
}

/// The models of a sequence of batches.
pub open spec fn batch_models(batches: Seq<ResultBatch>) -> Seq<BatchModel> {
    batches.map_values(|b: ResultBatch| b@)
}

/// Relies on `String`'s `FromIterator<char>` impl: collecting characters
/// yields the string of exactly those characters, in order.
#[verifier::external_body]
fn string_from_chars(chars: &Vec<char>) -> (r: String)
    ensures
        r@ == chars@,
{
    chars.iter().collect()
}

/// Appends one field to the output buffer, quoting it exactly when it holds
/// the separator, a quote or a line break.
fn push_field(buf: &mut Vec<char>, field: &str, sep: char)
    ensures
        final(buf)@ == old(buf)@ + escaped_field(field@, sep),
{
    let n = field.unicode_len();
    let mut needs: bool = false;
    let mut i: usize = 0;
    while i < n
        invariant
            n == field@.len(),
            i <= n,
            needs <==> exists|k: int| 0 <= k < i && is_special(#[trigger] field@[k], sep),
        decreases n - i,
    {
        let c = field.get_char(i);
        if c == sep || c == '\n' || c == '\r' || c == '"' {
            needs = true;
            assert(is_special(field@[i as int], sep));
        }
        i += 1;
    }
    assert(needs == needs_quoting(field@, sep));
    if !needs {
        let mut i: usize = 0;
        while i < n
            invariant
                n == field@.len(),
                i <= n,
                buf@ == old(buf)@ + field@.take(i as int),
            decreases n - i,
        {
            let c = field.get_char(i);
            buf.push(c);
            proof {
                assert(field@.take(i + 1) =~= field@.take(i as int).push(field@[i as int]));
                assert(old(buf)@ + field@.take(i + 1) =~= (old(buf)@ + field@.take(i as int)).push(
                    field@[i as int],
                ));
            }
            i += 1;
        }
        assert(field@.take(n as int) =~= field@);
    } else {
        buf.push('"');
        assert(buf@ =~= old(buf)@ + seq!['"'] + doubled_quotes(field@.take(0)));
        let mut i: usize = 0;
        while i < n
            invariant
                n == field@.len(),
                i <= n,
                buf@ == old(buf)@ + seq!['"'] + doubled_quotes(field@.take(i as int)),
            decreases n - i,
        {
            let c = field.get_char(i);
            if c == '"' {
                buf.push('"');
                buf.push('"');
            } else {
                buf.push(c);
            }
            proof {
                lemma_doubled_snoc(field@.take(i as int), field@[i as int]);
                assert(field@.take(i + 1) =~= field@.take(i as int).push(field@[i as int]));
                assert(buf@ =~= old(buf)@ + seq!['"'] + doubled_quotes(field@.take(i + 1)));
            }
            i += 1;
        }
        buf.push('"');
        proof {
            assert(field@.take(n as int) =~= field@);
            assert(buf@ =~= old(buf)@ + (seq!['"'] + doubled_quotes(field@) + seq!['"']));
        }
    }
}

/// Doubling quotes of a sequence extended by one character appends that
/// character, doubled when it is a quote.
proof fn lemma_doubled_snoc(s: Seq<char>, c: char)
    ensures
        doubled_quotes(s.push(c)) == doubled_quotes(s) + (if c == '"' {
            seq!['"', '"']
        } else {
            seq![c]
        }),
    decreases s.len(),
{
    let tail: Seq<char> = if c == '"' {
        seq!['"', '"']
    } else {
        seq![c]
    };
    if s.len() == 0 {
        assert(s.push(c) =~= seq![c]);
        assert(seq![c][0] == c);
        assert(seq![c].drop_first() =~= Seq::<char>::empty());
        assert(doubled_quotes(Seq::<char>::empty()) == Seq::<char>::empty());
        assert(doubled_quotes(seq![c].drop_first()) == Seq::<char>::empty());
        assert(doubled_quotes(seq![c]) =~= tail);
        assert(doubled_quotes(s) + tail =~= tail);
    } else {
        lemma_doubled_snoc(s.drop_first(), c);
        assert(s.push(c).drop_first() =~= s.drop_first().push(c));
        assert(s.push(c)[0] == s[0]);
        assert(doubled_quotes(s.push(c)) =~= doubled_quotes(s) + tail);
    }
}

/// Appends one header line: the column names joined by the separator, then a
/// newline.
fn push_header(buf: &mut Vec<char>, names: &Vec<String>, sep: char)
    ensures
        final(buf)@ == old(buf)@ + rendered_line(names.deep_view(), sep),
{
    let ghost fields = names.deep_view();
    let mut c: usize = 0;
    while c < names.len()
        invariant
            fields == names.deep_view(),
            c <= names.len(),
            buf@ == old(buf)@ + joined_upto(fields, sep, c as int),
        decreases names.len() - c,
    {
        if c > 0 {
            buf.push(sep);
        }
        push_field(buf, names[c].as_str(), sep);
        proof {
            assert(names[c as int]@ == fields[c as int]);
            if c == 0 {
                assert(buf@ =~= old(buf)@ + joined_upto(fields, sep, c + 1));
            } else {
                assert(buf@ =~= old(buf)@ + (joined_upto(fields, sep, c as int) + seq![sep]
                    + escaped_field(fields[c as int], sep)));
            }
        }
        c += 1;
    }
    buf.push('\n');
    assert(buf@ =~= old(buf)@ + (joined_upto(fields, sep, fields.len() as int) + seq!['\n']));
}

/// Appends row `r` of a batch as one output line.
fn push_row(buf: &mut Vec<char>, batch: &ResultBatch, r: usize, sep: char)
    requires
        batch_wf(batch@),
        r < row_count(batch@),
    ensures
        final(buf)@ == old(buf)@ + rendered_line(row_fields(batch@.columns, r as int), sep),
{
    let ghost fields = row_fields(batch@.columns, r as int);
    let mut c: usize = 0;
    while c < batch.columns.len()
        invariant
            batch_wf(batch@),
            r < row_count(batch@),
            fields == row_fields(batch@.columns, r as int),
            c <= batch.columns.len(),
            buf@ == old(buf)@ + joined_upto(fields, sep, c as int),
        decreases batch.columns.len() - c,
    {
        if c > 0 {
            buf.push(sep);
        }
        assert(batch@.columns[c as int].len() == row_count(batch@));
        push_field(buf, batch.columns[c][r].as_str(), sep);
        proof {
            assert(batch.columns[c as int][r as int]@ == fields[c as int]);
            if c == 0 {
                assert(buf@ =~= old(buf)@ + joined_upto(fields, sep, c + 1));
            } else {
                assert(buf@ =~= old(buf)@ + (joined_upto(fields, sep, c as int) + seq![sep]
                    + escaped_field(fields[c as int], sep)));
            }
        }
        c += 1;
    }
    buf.push('\n');
    assert(buf@ =~= old(buf)@ + (joined_upto(fields, sep, fields.len() as int) + seq!['\n']));
}

/// Renders a sequence of result batches as delimited text: one header line
/// from the first batch's column names, then every row of every batch in
/// order, each field escaped as `escaped_field` says. An empty result
/// renders as nothing.
pub fn render_delimited(batches: &Vec<ResultBatch>, sep: char) -> (r: String)
    requires
        forall|i: int| 0 <= i < batches@.len() ==> batch_wf(#[trigger] batches@[i]@),
    ensures
        r@ == delimited_output(batch_models(batches@), sep),
{
    let ghost models = batch_models(batches@);
    let mut buf: Vec<char> = Vec::new();
    if batches.len() == 0 {
        assert(buf@ =~= delimited_output(models, sep));
        return string_from_chars(&buf);
    }
    assert(models[0] == batches@[0]@);
    push_header(&mut buf, &batches[0].column_names, sep);
    let ghost header = rendered_line(models[0].column_names, sep);
    assert(buf@ == Seq::<char>::empty() + header);
    assert(buf@ =~= header + rendered_batches(models, sep, 0));
    let mut b: usize = 0;
    while b < batches.len()
        invariant
            forall|i: int| 0 <= i < batches@.len() ==> batch_wf(#[trigger] batches@[i]@),
            models == batch_models(batches@),
            batches@.len() > 0,
            header == rendered_line(models[0].column_names, sep),
            b <= batches.len(),
            buf@ == header + rendered_batches(models, sep, b as int),
        decreases batches.len() - b,
    {
        let ghost m = models[b as int];
        assert(m == batches@[b as int]@);
        let rows = if batches[b].columns.len() == 0 {
            0
        } else {
            batches[b].columns[0].len()
        };
        assert(rows == row_count(m));
        let ghost buf_batch_start = buf@;
        let mut r: usize = 0;
        while r < rows
            invariant
                batch_wf(batches@[b as int]@),
                m == batches@[b as int]@,
                b < batches@.len(),
                rows == row_count(m),
                r <= rows,
                buf@ == buf_batch_start + rendered_rows(m, sep, r as int),
            decreases rows - r,
        {
            push_row(&mut buf, &batches[b], r, sep);
            assert(buf@ =~= buf_batch_start + (rendered_rows(m, sep, r as int) + rendered_line(
                row_fields(m.columns, r as int),
                sep,
            )));
            r += 1;
        }
        proof {
            assert(buf@ =~= header + (rendered_batches(models, sep, b as int) + rendered_rows(
                m,
                sep,
                row_count(m) as int,
            )));
        }
        b += 1;
    }
    assert(buf@ =~= delimited_output(models, sep));
    string_from_chars(&buf)
}

/// How many rows a whole result holds, over all its batches.
pub open spec fn total_rows(batches: Seq<BatchModel>) -> nat
    decreases batches.len(),
{
    if batches.len() == 0 {
        0
    } else {
        row_count(batches[0]) + total_rows(batches.drop_first())
    }
}

/// Decides whether a table render shows anything: a result with no rows at
/// all produces no table output, whatever frame the engine would draw.
pub fn table_should_render(batches: &Vec<ResultBatch>) -> (r: bool)
    requires
        forall|i: int| 0 <= i < batches@.len() ==> batch_wf(#[trigger] batches@[i]@),
    ensures
        r <==> total_rows(batch_models(batches@)) != 0,
{
    let mut b: usize = 0;
    proof {
        assert(batch_models(batches@).skip(0) =~= batch_models(batches@));
    }
    while b < batches.len()
        invariant
            forall|i: int| 0 <= i < batches@.len() ==> batch_wf(#[trigger] batches@[i]@),
            b <= batches.len(),
            total_rows(batch_models(batches@)) == total_rows(
                batch_models(batches@).skip(b as int),
            ),
        decreases batches.len() - b,
    {
        let ghost models = batch_models(batches@);
        let rows = if batches[b].columns.len() == 0 {
            0
        } else {
            batches[b].columns[0].len()
        };
        assert(rows == row_count(models[b as int]));
        proof {
            assert(models.skip(b as int)[0] == models[b as int]);
            assert(models.skip(b as int).drop_first() =~= models.skip(b + 1));
        }
        if rows > 0 {
            return true;
        }
        b += 1;
    }
    proof {
        assert(batch_models(batches@).skip(batches@.len() as int).len() == 0);
    }
    false
}

} // verus!
