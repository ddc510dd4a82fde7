//! The escaper: renders a raw value as the text that stands for it in a row.

use crate::model::{double_quotes, doubled_char, escape_spec, needs_escape};
use vstd::prelude::*;
use vstd::string::StrSliceExecFns;
use vstd::string::StringExecFns;

verus! {

/// `double_quotes` distributes over appending one character at the end.
proof fn lemma_double_quotes_push(v: Seq<char>, c: char)
    ensures
        double_quotes(v.push(c)) == double_quotes(v) + doubled_char(c),
    decreases v.len(),
{
    let w = v.push(c);
    if v.len() == 0 {
        assert(w.subrange(1, w.len() as int) =~= Seq::<char>::empty());
        assert(double_quotes(Seq::<char>::empty()) == Seq::<char>::empty());
        assert(w[0] == c);
        assert(double_quotes(w) =~= doubled_char(c));
        assert(double_quotes(v) + doubled_char(c) =~= doubled_char(c));
    } else {
        let v1 = v.subrange(1, v.len() as int);
        assert(w.subrange(1, w.len() as int) =~= v1.push(c));
        lemma_double_quotes_push(v1, c);
        assert(double_quotes(w) == doubled_char(v[0]) + (double_quotes(v1) + doubled_char(c)));
        assert(doubled_char(v[0]) + (double_quotes(v1) + doubled_char(c)) =~= double_quotes(v)
            + doubled_char(c));
    }
}

/// Escapes `expression` for embedding in a row that uses `delimiter`: a value
/// holding the delimiter or a quote character is wrapped in quote characters
/// with every inner quote doubled; any other value is returned unchanged.
#[verifier::loop_isolation(false)]
pub fn escape(expression: &str, delimiter: char) -> (escaped: String)
    ensures
        escaped@ == escape_spec(expression@, delimiter),
{
    let ghost l = expression@;
    let n = expression.unicode_len();

    let mut needs = false;
    let mut i: usize = 0;
    while i < n
        invariant
            i <= n,
            needs == exists|j: int| 0 <= j < i && (l[j] == delimiter || l[j] == '"'),
        decreases n - i,
    {
        let c = expression.get_char(i);
        if c == delimiter || c == '"' {
            needs = true;
        }
        i = i + 1;
    }
    proof {
        assert(needs == needs_escape(l, delimiter));
    }
    if !needs {
        return String::from_str(expression);
    }

    let mut out = String::from_str("\"");
    proof {
        reveal_strlit("\"");
        assert(out@ =~= seq!['"']);
    }
    let mut i: usize = 0;
    while i < n
        invariant
            i <= n,
            out@ == seq!['"'] + double_quotes(l.subrange(0, i as int)),
        decreases n - i,
    {
        let c = expression.get_char(i);
        if c == '"' {
            out.append("\"\"");
            proof {
                reveal_strlit("\"\"");
                assert("\"\""@ =~= doubled_char(c));
            }
        } else {
            out.append(expression.substring_char(i, i + 1));
            proof {
                assert(l.subrange(i as int, i + 1) =~= doubled_char(c));
            }
        }
        proof {
            assert(l.subrange(0, i + 1) =~= l.subrange(0, i as int).push(l[i as int]));
            lemma_double_quotes_push(l.subrange(0, i as int), l[i as int]);
            assert(seq!['"'] + double_quotes(l.subrange(0, i as int)) + doubled_char(c) =~= seq![
                '"',
            ] + double_quotes(l.subrange(0, i + 1)));
        }
        i = i + 1;
    }
    out.append("\"");
    proof {
        reveal_strlit("\"");
        assert(l.subrange(0, n as int) =~= l);
        assert(out@ =~= seq!['"'] + double_quotes(l) + seq!['"']);
    }
    out
}

} // verus!
