//! The stated laws of the library, proved over the model: how many fields a
//! line yields, how the two output modes relate, and that escaping and
//! tokenizing are inverse to each other.

use crate::model::{
    collapse_quotes, count_char, count_char_from, double_quotes, doubled_char, escape_spec,
    field_len, field_output, fields_from, is_break, join_escaped, lemma_scan_bounds,
    lemma_scan_determined, needs_escape, no_quote_before_delimiter, quoted_raw, row_fields,
    unescape_raw,
};
use vstd::prelude::*;

verus! {

/// Splitting the empty line yields no fields at all.
pub proof fn lemma_empty_line_yields_no_fields(delimiter: char, literal: bool)
    ensures
        row_fields(Seq::empty(), delimiter, literal) == Seq::<Seq<char>>::empty(),
{
}

/// A value that holds neither the delimiter nor a quote character is left
/// unchanged by escaping.
pub proof fn lemma_escape_plain_value_unchanged(v: Seq<char>, delimiter: char)
    requires
        !v.contains(delimiter),
        !v.contains('"'),
    ensures
        escape_spec(v, delimiter) == v,
{
}

/// The count of a character is unchanged across a stretch that does not hold
/// it.
proof fn lemma_count_skip(line: Seq<char>, c: char, pos: int, q: int)
    requires
        0 <= pos <= q <= line.len(),
        forall|j: int| pos <= j < q ==> line[j] != c,
    ensures
        count_char_from(line, c, pos) == count_char_from(line, c, q),
    decreases q - pos,
{
    if pos < q {
        lemma_count_skip(line, c, pos + 1, q);
    }
}

/// From any cursor position of a quote-free line, the tokenizer yields one
/// field more than the number of delimiters at or after that position.
proof fn lemma_count_fields_from(line: Seq<char>, delimiter: char, literal: bool, pos: int)
    requires
        line.len() > 0,
        0 <= pos <= line.len(),
        forall|i: int| 0 <= i < line.len() ==> line[i] != '"',
    ensures
        fields_from(line, delimiter, literal, pos).len() == count_char_from(line, delimiter, pos)
            + 1,
    decreases line.len() + 1 - pos,
{
    let flen = field_len(line, delimiter, pos);
    lemma_scan_bounds(line, delimiter, pos, 0);
    if pos < line.len() {
        assert forall|j: int| pos <= j < pos + flen implies line[j] != delimiter by {
            assert(!is_break(line, delimiter, pos, j - pos));
            assert(line[pos] != '"');
        }
    }
    lemma_count_skip(line, delimiter, pos, pos + flen);
    if pos + flen == line.len() {
        assert(count_char_from(line, delimiter, pos + flen) == 0);
        assert(fields_from(line, delimiter, literal, pos + flen + 1) == Seq::<Seq<char>>::empty());
    } else {
        assert(is_break(line, delimiter, pos, flen));
        assert(line[pos + flen] == delimiter);
        lemma_count_fields_from(line, delimiter, literal, pos + flen + 1);
    }
}

/// Splitting a non-empty line always yields at least one field, whatever its
/// quoting looks like.
pub proof fn lemma_non_empty_line_yields_a_field(line: Seq<char>, delimiter: char, literal: bool)
    requires
        line.len() > 0,
    ensures
        row_fields(line, delimiter, literal).len() >= 1,
{
}

/// Splitting a quote-free, non-empty line yields exactly one field more than
/// the number of delimiter occurrences in it.
pub proof fn lemma_field_count_without_quotes(line: Seq<char>, delimiter: char, literal: bool)
    requires
        line.len() > 0,
        forall|i: int| 0 <= i < line.len() ==> line[i] != '"',
    ensures
        row_fields(line, delimiter, literal).len() == count_char(line, delimiter) + 1,
{
    lemma_count_fields_from(line, delimiter, literal, 0);
}

/// From any cursor position, the non-literal fields are the literal fields
/// passed one by one through the unescaping rule.
proof fn lemma_fields_from_literal(line: Seq<char>, delimiter: char, pos: int)
    ensures
        fields_from(line, delimiter, false, pos) == fields_from(line, delimiter, true, pos)
            .map_values(|raw: Seq<char>| unescape_raw(raw)),
    decreases line.len() + 1 - pos,
{
    if line.len() == 0 || pos < 0 || pos > line.len() {
        assert(fields_from(line, delimiter, true, pos).map_values(
            |raw: Seq<char>| unescape_raw(raw),
        ) =~= Seq::<Seq<char>>::empty());
    } else {
        let flen = field_len(line, delimiter, pos);
        lemma_scan_bounds(line, delimiter, pos, 0);
        lemma_fields_from_literal(line, delimiter, pos + flen + 1);
        let raw = line.subrange(pos, pos + flen);
        assert(fields_from(line, delimiter, true, pos).map_values(
            |r: Seq<char>| unescape_raw(r),
        ) =~= seq![unescape_raw(raw)] + fields_from(line, delimiter, true, pos + flen + 1)
            .map_values(|r: Seq<char>| unescape_raw(r)));
        assert(fields_from(line, delimiter, false, pos) =~= seq![unescape_raw(raw)] + fields_from(
            line,
            delimiter,
            false,
            pos + flen + 1,
        ));
    }
}

/// Literal-mode output, unescaped field by field by the quote-stripping and
/// doubled-quote-collapsing rule, equals non-literal-mode output.
pub proof fn lemma_literal_fields_unescape(line: Seq<char>, delimiter: char)
    ensures
        row_fields(line, delimiter, false) == row_fields(line, delimiter, true).map_values(
            |raw: Seq<char>| unescape_raw(raw),
        ),
{
    lemma_fields_from_literal(line, delimiter, 0);
}

/// Collapsing doubled quotes leaves a quote-free sequence unchanged.
proof fn lemma_collapse_without_quotes(v: Seq<char>)
    requires
        forall|i: int| 0 <= i < v.len() ==> v[i] != '"',
    ensures
        collapse_quotes(v) == v,
    decreases v.len(),
{
    if v.len() > 0 {
        lemma_collapse_without_quotes(v.subrange(1, v.len() as int));
        assert(seq![v[0]] + v.subrange(1, v.len() as int) =~= v);
    }
}

/// Collapsing doubled quotes undoes quote doubling exactly.
proof fn lemma_collapse_doubled(v: Seq<char>)
    ensures
        collapse_quotes(double_quotes(v)) == v,
    decreases v.len(),
{
    if v.len() == 0 {
        assert(collapse_quotes(double_quotes(v)) =~= v);
    } else {
        let v1 = v.subrange(1, v.len() as int);
        let w = double_quotes(v);
        lemma_collapse_doubled(v1);
        if v[0] == '"' {
            assert(w[0] == '"' && w[1] == '"');
            assert(w.subrange(2, w.len() as int) =~= double_quotes(v1));
            assert(collapse_quotes(w) == seq!['"'] + collapse_quotes(double_quotes(v1)));
            assert(seq!['"'] + v1 =~= v);
        } else {
            assert(w[0] == v[0]);
            assert(w.subrange(1, w.len() as int) =~= double_quotes(v1));
            assert(collapse_quotes(w) == seq![v[0]] + collapse_quotes(double_quotes(v1)));
            assert(seq![v[0]] + v1 =~= v);
        }
    }
}

/// Unescaping reads an escaped value back exactly.
proof fn lemma_unescape_escape(v: Seq<char>, delimiter: char)
    ensures
        unescape_raw(escape_spec(v, delimiter)) == v,
{
    let e = escape_spec(v, delimiter);
    if needs_escape(v, delimiter) {
        assert(e[0] == '"' && e[e.len() - 1] == '"' && e.len() > 1);
        assert(e.subrange(1, e.len() - 1) =~= double_quotes(v));
        lemma_collapse_doubled(v);
    } else {
        assert(forall|i: int| 0 <= i < v.len() ==> v[i] != '"') by {
            assert(forall|i: int|
                0 <= i < v.len() && v[i] == '"' ==> v.contains('"'));
        }
        assert(!quoted_raw(e));
        lemma_collapse_without_quotes(v);
    }
}

/// Quote doubling preserves the absence of a quote directly before a
/// delimiter, provided the delimiter is not the quote character.
proof fn lemma_double_keeps_no_quote_before_delimiter(v: Seq<char>, delimiter: char)
    requires
        delimiter != '"',
        no_quote_before_delimiter(v, delimiter),
    ensures
        no_quote_before_delimiter(double_quotes(v), delimiter),
    decreases v.len(),
{
    if v.len() > 0 {
        let v1 = v.subrange(1, v.len() as int);
        assert(no_quote_before_delimiter(v1, delimiter)) by {
            assert forall|j: int|
                1 <= j < v1.len() implies !((#[trigger] v1[j]) == delimiter && v1[j - 1]
                == '"') by {
                assert(v1[j] == v[j + 1]);
                assert(v1[j - 1] == v[j]);
            }
        }
        lemma_double_keeps_no_quote_before_delimiter(v1, delimiter);
        let w = double_quotes(v);
        let dc = doubled_char(v[0]);
        let w1 = double_quotes(v1);
        assert(w == dc + w1);
        assert forall|j: int|
            1 <= j < w.len() implies !((#[trigger] w[j]) == delimiter && w[j - 1] == '"') by {
            if j < dc.len() {
                assert(w[j] == '"');
            } else if j == dc.len() {
                assert(w[j] == w1[0]);
                if w[j] == delimiter {
                    assert(w1 == doubled_char(v1[0]) + double_quotes(
                        v1.subrange(1, v1.len() as int),
                    ));
                    assert(w1[0] == doubled_char(v1[0])[0]);
                    assert(v1[0] == delimiter);
                    assert(v[1] == delimiter);
                    assert(!(v[1] == delimiter && v[0] == '"'));
                    assert(v[0] != '"');
                    assert(w[j - 1] == dc[dc.len() - 1]);
                    assert(w[j - 1] == v[0]);
                }
            } else {
                assert(w[j] == w1[j - dc.len()]);
                assert(w[j - 1] == w1[j - 1 - dc.len()]);
            }
        }
    }
}

/// Inside the text of one escaped value no offset ends the field scan.
proof fn lemma_no_break_inside_escaped(line: Seq<char>, delimiter: char, pos: int, v: Seq<char>)
    requires
        delimiter != '"',
        no_quote_before_delimiter(v, delimiter),
        0 <= pos,
        pos + escape_spec(v, delimiter).len() <= line.len(),
        line.subrange(pos, pos + escape_spec(v, delimiter).len()) == escape_spec(v, delimiter),
    ensures
        forall|i: int|
            0 <= i < escape_spec(v, delimiter).len() ==> !is_break(line, delimiter, pos, i),
{
    let e = escape_spec(v, delimiter);
    assert forall|i: int| 0 <= i < e.len() implies !is_break(line, delimiter, pos, i) by {
        assert(line[pos + i] == e[i]) by {
            assert(line.subrange(pos, pos + e.len())[i] == line[pos + i]);
        }
        if needs_escape(v, delimiter) {
            let w = double_quotes(v);
            lemma_double_keeps_no_quote_before_delimiter(v, delimiter);
            assert(e[0] == '"');
            assert(line[pos] == '"') by {
                assert(line.subrange(pos, pos + e.len())[0] == line[pos]);
            }
            if line[pos + i] == delimiter && i >= 2 && line[pos + i - 1] == '"' {
                assert(e[e.len() - 1] == '"');
                assert(1 <= i < e.len() - 1);
                assert(e[i] == w[i - 1]);
                assert(line[pos + i - 1] == e[i - 1]) by {
                    assert(line.subrange(pos, pos + e.len())[i - 1] == line[pos + i - 1]);
                }
                assert(e[i - 1] == w[i - 2]);
                assert(!(w[i - 1] == delimiter && w[i - 2] == '"'));
                assert(false);
            }
        } else {
            if line[pos + i] == delimiter {
                assert(e[i] == delimiter);
                assert(v.contains(delimiter));
                assert(false);
            }
        }
    }
}

/// From a cursor standing at the text of a non-empty run of escaped values,
/// tokenization in non-literal mode yields those values exactly.
proof fn lemma_round_trip_from(line: Seq<char>, delimiter: char, values: Seq<Seq<char>>, pos: int)
    requires
        delimiter != '"',
        line.len() > 0,
        0 <= pos <= line.len(),
        line.subrange(pos, line.len() as int) == join_escaped(values, delimiter),
        values.len() >= 1,
        forall|i: int|
            0 <= i < values.len() ==> no_quote_before_delimiter(#[trigger] values[i], delimiter),
    ensures
        fields_from(line, delimiter, false, pos) == values,
    decreases values.len(),
{
    let v0 = values[0];
    let e0 = escape_spec(v0, delimiter);
    let q = e0.len() as int;
    let suffix = line.subrange(pos, line.len() as int);
    lemma_unescape_escape(v0, delimiter);
    if values.len() == 1 {
        assert(suffix == e0);
        assert(line.len() - pos == q);
        assert(line.subrange(pos, pos + q) =~= suffix);
        lemma_no_break_inside_escaped(line, delimiter, pos, v0);
        lemma_scan_determined(line, delimiter, pos, 0, q);
        assert(field_len(line, delimiter, pos) == q);
        assert(field_output(line.subrange(pos, pos + q), false) == v0);
        assert(fields_from(line, delimiter, false, pos + q + 1) == Seq::<Seq<char>>::empty());
        assert(fields_from(line, delimiter, false, pos) =~= values);
    } else {
        let rest = values.drop_first();
        let jr = join_escaped(rest, delimiter);
        assert(suffix == e0 + seq![delimiter] + jr);
        assert(line.len() - pos == q + 1 + jr.len());
        assert(line.subrange(pos, pos + q) =~= suffix.subrange(0, q));
        assert(suffix.subrange(0, q) =~= e0);
        assert(line[pos + q] == delimiter) by {
            assert(suffix[q] == delimiter);
            assert(suffix[q] == line[pos + q]);
        }
        lemma_no_break_inside_escaped(line, delimiter, pos, v0);
        assert(is_break(line, delimiter, pos, q)) by {
            if needs_escape(v0, delimiter) {
                assert(e0[0] == '"' && e0[q - 1] == '"' && q >= 2);
                assert(line[pos + q - 1] == e0[q - 1]) by {
                    assert(line.subrange(pos, pos + q)[q - 1] == line[pos + q - 1]);
                }
                assert(line[pos] == e0[0]) by {
                    assert(line.subrange(pos, pos + q)[0] == line[pos]);
                }
            } else {
                if q == 0 {
                    assert(line[pos] == delimiter);
                    assert(line[pos] != '"');
                } else {
                    assert(line[pos] == e0[0]) by {
                        assert(line.subrange(pos, pos + q)[0] == line[pos]);
                    }
                    if e0[0] == '"' {
                        assert(v0.contains('"'));
                        assert(false);
                    }
                }
            }
        }
        lemma_scan_determined(line, delimiter, pos, 0, q);
        assert(field_len(line, delimiter, pos) == q);
        assert(field_output(line.subrange(pos, pos + q), false) == v0);
        assert(forall|i: int|
            0 <= i < rest.len() ==> no_quote_before_delimiter(
                #[trigger] rest[i],
                delimiter,
            )) by {
            assert(forall|i: int| 0 <= i < rest.len() ==> rest[i] == values[i + 1]);
        }
        assert(line.subrange(pos + q + 1, line.len() as int) =~= jr) by {
            assert forall|k: int|
                0 <= k < line.len() - pos - q - 1 implies line.subrange(
                pos + q + 1,
                line.len() as int,
            )[k] == jr[k] by {
                assert(line[pos + q + 1 + k] == suffix[q + 1 + k]);
            }
        }
        lemma_round_trip_from(line, delimiter, rest, pos + q + 1);
        assert(fields_from(line, delimiter, false, pos) =~= seq![v0] + rest);
        assert(seq![v0] + rest =~= values);
    }
}

/// Round trip: a row built by escaping each value and joining the escaped
/// values with the delimiter tokenizes, in non-literal mode, back to the
/// values exactly. Two families of inputs are left out, on which the rule
/// cannot hold: a single empty value (its row text is the empty line, which
/// yields no fields rather than one empty field), and a value in which a
/// quote directly precedes the delimiter (the scan reads such a quote as
/// closing the field early).
pub proof fn lemma_escape_round_trip(values: Seq<Seq<char>>, delimiter: char)
    requires
        delimiter != '"',
        !(values.len() == 1 && values[0].len() == 0),
        forall|i: int|
            0 <= i < values.len() ==> no_quote_before_delimiter(#[trigger] values[i], delimiter),
    ensures
        row_fields(join_escaped(values, delimiter), delimiter, false) == values,
{
    let line = join_escaped(values, delimiter);
    if values.len() == 0 {
        assert(row_fields(line, delimiter, false) =~= values);
    } else {
        if values.len() == 1 {
            assert(values[0].len() > 0);
            if !needs_escape(values[0], delimiter) {
                assert(line == values[0]);
            }
        }
        assert(line.len() > 0);
        assert(line.subrange(0, line.len() as int) =~= line);
        lemma_round_trip_from(line, delimiter, values, 0);
    }
}

} // verus!
