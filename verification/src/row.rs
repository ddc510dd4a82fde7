//! The tokenizer: one pass over one line, yielding its fields in order.

use crate::model::{
    collapse_quotes, field_len, field_output, fields_from, is_break, lemma_scan_determined,
    quoted_raw, row_fields, unescape_raw,
};
use vstd::prelude::*;
use vstd::string::StrSliceExecFns;
use vstd::string::StringExecFns;

verus! {

/// A tokenization session over one line: the line, the delimiter, the output
/// mode, and a cursor that only moves forward. Created once per line and
/// discarded once the line is exhausted.
pub struct CsvRow<'a> {
    pub line: &'a str,
    pub delimiter: char,
    pub literal: bool,
    pos: usize,
    done: bool,
}

impl<'a> CsvRow<'a> {
    /// The line under tokenization, as a sequence of characters.
    pub closed spec fn spec_line(self) -> Seq<char> {
        self.line@
    }

    /// The delimiter this session splits on.
    pub closed spec fn spec_delimiter(self) -> char {
        self.delimiter
    }

    /// Whether this session yields fields literally.
    pub closed spec fn spec_literal(self) -> bool {
        self.literal
    }

    /// The fields not yet yielded, in order.
    pub closed spec fn remaining(self) -> Seq<Seq<char>> {
        if self.done {
            Seq::empty()
        } else {
            fields_from(self.line@, self.delimiter, self.literal, self.pos as int)
        }
    }

    /// Opens a tokenization session over `line`, with the cursor at its
    /// start: every field of the line is still to come.
    pub fn new(line: &'a str, delimiter: char, literal: bool) -> (row: CsvRow<'a>)
        ensures
            row.spec_line() == line@,
            row.spec_delimiter() == delimiter,
            row.spec_literal() == literal,
            row.remaining() == row_fields(line@, delimiter, literal),
    {
        CsvRow { line, delimiter, literal, pos: 0, done: false }
    }

    /// Yields the next field, or `None` once the line is exhausted; after
    /// exhaustion every further call yields `None` again.
    #[verifier::loop_isolation(false)]
    pub fn next(&mut self) -> (field: Option<String>)
        ensures
            final(self).spec_line() == old(self).spec_line(),
            final(self).spec_delimiter() == old(self).spec_delimiter(),
            final(self).spec_literal() == old(self).spec_literal(),
            old(self).remaining().len() == 0 ==> field is None && final(self).remaining() == old(
                self,
            ).remaining(),
            old(self).remaining().len() > 0 ==> (field matches Some(f) && f@ == old(
                self,
            ).remaining()[0] && final(self).remaining() == old(self).remaining().drop_first()),
    {
        let ghost l = self.line@;
        let ghost d = self.delimiter;
        let n = self.line.unicode_len();
        if self.done || n == 0 || self.pos > n {
            return None;
        }
        let start = self.pos;
        let quoted_open = start < n && self.line.get_char(start) == '"';

        let mut flen: usize = 0;
        while start + flen < n && !hits_break(self.line, self.delimiter, quoted_open, start, flen)
            invariant
                start + flen <= n,
                forall|j: int| 0 <= j < flen ==> !is_break(l, d, start as int, j),
            decreases n - start - flen,
        {
            flen = flen + 1;
        }
        let terminated = start + flen < n;
        proof {
            lemma_scan_determined(l, d, start as int, 0, flen as int);
            assert(flen as int == field_len(l, d, start as int));
        }
        let ghost raw = l.subrange(start as int, start as int + flen as int);

        let quoted = quoted_open && flen >= 2 && self.line.get_char(start + flen - 1) == '"';
        proof {
            assert(quoted == quoted_raw(raw));
        }

        let field: String;
        if self.literal {
            field = String::from_str(self.line.substring_char(start, start + flen));
        } else if quoted {
            field = collapse_copy(self.line, start + 1, start + flen - 1);
            proof {
                assert(l.subrange(start + 1, start as int + flen - 1) =~= raw.subrange(
                    1,
                    raw.len() - 1,
                ));
            }
        } else {
            field = collapse_copy(self.line, start, start + flen);
        }
        proof {
            assert(field@ == field_output(raw, self.literal));
        }

        if terminated {
            self.pos = start + flen + 1;
        } else {
            self.pos = start + flen;
            self.done = true;
        }
        proof {
            let lit = old(self).literal;
            assert(old(self).remaining() == fields_from(l, d, lit, start as int));
            assert(fields_from(l, d, lit, start as int) == seq![field_output(raw, lit)]
                + fields_from(l, d, lit, start as int + flen as int + 1));
            if terminated {
                assert(self.remaining() == fields_from(l, d, lit, start as int + flen as int + 1));
            } else {
                assert(start as int + flen as int + 1 > l.len());
                assert(fields_from(l, d, lit, start as int + flen as int + 1) == Seq::<Seq<char>>::empty());
                assert(self.remaining() == Seq::<Seq<char>>::empty());
            }
            assert(old(self).remaining() =~= seq![field_output(raw, old(self).literal)]
                + self.remaining());
            assert(self.remaining() =~= old(self).remaining().drop_first());
        }
        Some(field)
    }

    /// Yields every remaining field at once, in order, leaving the session
    /// exhausted.
    #[verifier::loop_isolation(false)]
    pub fn fields(&mut self) -> (all: Vec<String>)
        ensures
            all@.map_values(|f: String| f@) == old(self).remaining(),
            final(self).remaining().len() == 0,
    {
        let ghost orig = *old(self);
        let mut all: Vec<String> = Vec::new();
        loop
            invariant
                all@.map_values(|f: String| f@) + self.remaining() == orig.remaining(),
            decreases self.remaining().len(),
        {
            let ghost before = all@;
            let ghost rem = self.remaining();
            match self.next() {
                Some(field) => {
                    all.push(field);
                    proof {
                        assert(all@ =~= before.push(all@[all@.len() - 1]));
                        assert(all@.map_values(|f: String| f@) =~= before.map_values(
                            |f: String| f@,
                        ).push(rem[0]));
                        assert(rem =~= seq![rem[0]] + self.remaining());
                        assert(all@.map_values(|f: String| f@) + self.remaining()
                            =~= before.map_values(|f: String| f@) + rem);
                    }
                },
                None => {
                    proof {
                        assert(all@.map_values(|f: String| f@) =~= orig.remaining());
                    }
                    return all;
                },
            }
        }
    }
}

/// Reads one field as captured in literal mode back to its unescaped value:
/// strips the enclosing quotes when the field counts as quoted, then collapses
/// every doubled quote.
pub fn unescape_field(raw: &str) -> (value: String)
    ensures
        value@ == unescape_raw(raw@),
{
    let n = raw.unicode_len();
    let quoted = n >= 2 && raw.get_char(0) == '"' && raw.get_char(n - 1) == '"';
    proof {
        assert(quoted == quoted_raw(raw@));
    }
    if quoted {
        let value = collapse_copy(raw, 1, n - 1);
        proof {
            assert(raw@.subrange(1, n - 1) =~= raw@.subrange(1, raw@.len() - 1));
        }
        value
    } else {
        let value = collapse_copy(raw, 0, n);
        proof {
            assert(raw@.subrange(0, n as int) =~= raw@);
        }
        value
    }
}

/// Copies `text[lo..hi]` with every doubled quote collapsed to one quote.
fn collapse_copy(text: &str, lo: usize, hi: usize) -> (out: String)
    requires
        lo <= hi <= text@.len(),
    ensures
        out@ == collapse_quotes(text@.subrange(lo as int, hi as int)),
{
    let ghost whole = text@.subrange(lo as int, hi as int);
    let mut out = String::new();
    let mut j = lo;
    while j < hi
        invariant
            lo <= j <= hi <= text@.len(),
            collapse_quotes(whole) == out@ + collapse_quotes(text@.subrange(j as int, hi as int)),
            whole == text@.subrange(lo as int, hi as int),
        decreases hi - j,
    {
        let ghost tail = text@.subrange(j as int, hi as int);
        let c = text.get_char(j);
        out.append(text.substring_char(j, j + 1));
        proof {
            assert(text@.subrange(j as int, j + 1) =~= seq![tail[0]]);
        }
        if c == '"' && j + 1 < hi && text.get_char(j + 1) == '"' {
            proof {
                assert(tail[0] == '"' && tail[1] == '"');
                assert(tail.subrange(2, tail.len() as int) =~= text@.subrange(j + 2, hi as int));
                assert(collapse_quotes(tail) == seq!['"'] + collapse_quotes(
                    text@.subrange(j + 2, hi as int),
                ));
            }
            j = j + 2;
        } else {
            proof {
                assert(tail.len() >= 2 ==> !(tail[0] == '"' && tail[1] == '"'));
                assert(tail.subrange(1, tail.len() as int) =~= text@.subrange(j + 1, hi as int));
                assert(collapse_quotes(tail) == seq![tail[0]] + collapse_quotes(
                    text@.subrange(j + 1, hi as int),
                ));
            }
            j = j + 1;
        }
    }
    proof {
        assert(text@.subrange(hi as int, hi as int) =~= Seq::<char>::empty());
    }
    out
}

/// Whether the scan for the field that begins at `start` ends at offset `i`.
fn hits_break(text: &str, delimiter: char, quoted_open: bool, start: usize, i: usize) -> (b: bool)
    requires
        start + i < text@.len() <= usize::MAX,
        quoted_open == (text@[start as int] == '"'),
    ensures
        b == is_break(text@, delimiter, start as int, i as int),
{
    let c = text.get_char(start + i);
    c == delimiter && (!quoted_open || (i >= 2 && text.get_char(start + i - 1) == '"'))
}

} // verus!
