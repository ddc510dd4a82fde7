//! Mathematical model of the tokenizer and the escaper: what the fields of a
//! line are, and what text stands for a value, both over sequences of
//! characters.

use vstd::prelude::*;

verus! {

/// Holds when the character at offset `i` of the field that begins at `start`
/// ends the scan for that field: it is the delimiter, and either the field did
/// not open with a quote, or a quote was consumed just before it and the field
/// already holds more than the opening quote (so a lone quote cannot close
/// itself).
pub open spec fn is_break(line: Seq<char>, delimiter: char, start: int, i: int) -> bool {
    line[start + i] == delimiter && (line[start] != '"' || (i >= 2 && line[start + i - 1] == '"'))
}

/// Offset, relative to `start`, of the first scan-ending delimiter at or after
/// offset `i`; the end of the line when no delimiter ends the scan.
pub open spec fn scan_from(line: Seq<char>, delimiter: char, start: int, i: int) -> int
    decreases line.len() - start - i,
{
    if start < 0 || i < 0 || start + i >= line.len() {
        i
    } else if is_break(line, delimiter, start, i) {
        i
    } else {
        scan_from(line, delimiter, start, i + 1)
    }
}

/// Number of characters of the raw field that begins at `start`.
pub open spec fn field_len(line: Seq<char>, delimiter: char, start: int) -> int {
    scan_from(line, delimiter, start, 0)
}

/// The scan result lies between its starting offset and the end of the line,
/// no earlier offset ends the scan, and the result either ends the scan or is
/// the end of the line.
pub proof fn lemma_scan_bounds(line: Seq<char>, delimiter: char, start: int, i: int)
    requires
        0 <= start,
        0 <= i,
        start + i <= line.len(),
    ensures
        i <= scan_from(line, delimiter, start, i),
        start + scan_from(line, delimiter, start, i) <= line.len(),
        forall|j: int|
            i <= j < scan_from(line, delimiter, start, i) ==> !is_break(line, delimiter, start, j),
        start + scan_from(line, delimiter, start, i) == line.len() || is_break(
            line,
            delimiter,
            start,
            scan_from(line, delimiter, start, i),
        ),
    decreases line.len() - start - i,
{
    if start + i >= line.len() || is_break(line, delimiter, start, i) {
    } else {
        lemma_scan_bounds(line, delimiter, start, i + 1);
    }
}

/// A scan is pinned down by its two defining properties: if no offset in
/// `[i, k)` ends the scan and `k` ends it (or is the end of the line), the
/// scan from `i` returns `k`.
pub proof fn lemma_scan_determined(line: Seq<char>, delimiter: char, start: int, i: int, k: int)
    requires
        0 <= start,
        0 <= i <= k,
        start + k <= line.len(),
        forall|j: int| i <= j < k ==> !is_break(line, delimiter, start, j),
        start + k == line.len() || is_break(line, delimiter, start, k),
    ensures
        scan_from(line, delimiter, start, i) == k,
    decreases k - i,
{
    if i < k {
        assert(!is_break(line, delimiter, start, i));
        lemma_scan_determined(line, delimiter, start, i + 1, k);
    }
}

/// A raw field counts as quoted once captured when it begins and ends with a
/// quote character and is more than that one character long.
pub open spec fn quoted_raw(raw: Seq<char>) -> bool {
    raw.len() > 1 && raw[0] == '"' && raw[raw.len() - 1] == '"'
}

/// Every doubled quote collapsed to a single quote, scanning left to right.
pub open spec fn collapse_quotes(s: Seq<char>) -> Seq<char>
    decreases s.len(),
{
    if s.len() == 0 {
        Seq::empty()
    } else if s.len() >= 2 && s[0] == '"' && s[1] == '"' {
        seq!['"'] + collapse_quotes(s.subrange(2, s.len() as int))
    } else {
        seq![s[0]] + collapse_quotes(s.subrange(1, s.len() as int))
    }
}

/// The unescaped reading of a raw field: the enclosing quotes stripped when
/// the field counts as quoted, then every doubled quote collapsed.
pub open spec fn unescape_raw(raw: Seq<char>) -> Seq<char> {
    if quoted_raw(raw) {
        collapse_quotes(raw.subrange(1, raw.len() - 1))
    } else {
        collapse_quotes(raw)
    }
}

/// What one captured raw field is rendered as in each mode.
pub open spec fn field_output(raw: Seq<char>, literal: bool) -> Seq<char> {
    if literal {
        raw
    } else {
        unescape_raw(raw)
    }
}

/// The fields of `line` from cursor position `pos` on. A cursor past the end
/// of the line, and the empty line, yield no fields; otherwise one raw field
/// is captured, rendered, and the cursor moves past it and past the delimiter
/// that ended it.
pub open spec fn fields_from(line: Seq<char>, delimiter: char, literal: bool, pos: int) -> Seq<
    Seq<char>,
>
    decreases line.len() + 1 - pos,
{
    if line.len() == 0 || pos < 0 || pos > line.len() {
        Seq::empty()
    } else {
        let flen = field_len(line, delimiter, pos);
        proof {
            lemma_scan_bounds(line, delimiter, pos, 0);
        }
        seq![field_output(line.subrange(pos, pos + flen), literal)] + fields_from(
            line,
            delimiter,
            literal,
            pos + flen + 1,
        )
    }
}

/// All fields of one line; the empty line yields none.
pub open spec fn row_fields(line: Seq<char>, delimiter: char, literal: bool) -> Seq<Seq<char>> {
    fields_from(line, delimiter, literal, 0)
}

/// One character as it appears inside an escaped, quoted value.
pub open spec fn doubled_char(c: char) -> Seq<char> {
    if c == '"' {
        seq!['"', '"']
    } else {
        seq![c]
    }
}

/// The value with every quote character doubled.
pub open spec fn double_quotes(v: Seq<char>) -> Seq<char>
    decreases v.len(),
{
    if v.len() == 0 {
        Seq::empty()
    } else {
        doubled_char(v[0]) + double_quotes(v.subrange(1, v.len() as int))
    }
}

/// Whether a value must be quoted to survive a round through the tokenizer.
pub open spec fn needs_escape(v: Seq<char>, delimiter: char) -> bool {
    v.contains(delimiter) || v.contains('"')
}

/// The text that stands for the value `v` in a row that uses `delimiter`.
pub open spec fn escape_spec(v: Seq<char>, delimiter: char) -> Seq<char> {
    if needs_escape(v, delimiter) {
        seq!['"'] + double_quotes(v) + seq!['"']
    } else {
        v
    }
}

/// Number of occurrences of `c` in `line` at or after position `pos`.
pub open spec fn count_char_from(line: Seq<char>, c: char, pos: int) -> int
    decreases line.len() - pos,
{
    if pos < 0 || pos >= line.len() {
        0
    } else {
        (if line[pos] == c {
            1int
        } else {
            0int
        }) + count_char_from(line, c, pos + 1)
    }
}

/// Number of occurrences of `c` in `line`.
pub open spec fn count_char(line: Seq<char>, c: char) -> int {
    count_char_from(line, c, 0)
}

/// Holds when no occurrence of the delimiter in `v` directly follows a quote
/// character.
pub open spec fn no_quote_before_delimiter(v: Seq<char>, delimiter: char) -> bool {
    forall|j: int| 1 <= j < v.len() ==> !((#[trigger] v[j]) == delimiter && v[j - 1] == '"')
}

/// The row text built by escaping each value and joining the escaped values
/// with the delimiter.
pub open spec fn join_escaped(values: Seq<Seq<char>>, delimiter: char) -> Seq<char>
    decreases values.len(),
{
    if values.len() == 0 {
        Seq::empty()
    } else if values.len() == 1 {
        escape_spec(values[0], delimiter)
    } else {
        escape_spec(values[0], delimiter) + seq![delimiter] + join_escaped(
            values.drop_first(),
            delimiter,
        )
    }
}

} // verus!
