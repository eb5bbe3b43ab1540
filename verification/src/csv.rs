//! Shared CSV text building: standard double-quote escaping and quoted
//! fields.

use vstd::prelude::*;

use crate::foreign;
use crate::utils;

verus! {

/// `s` with every double quote doubled, from index `i` on.
pub open spec fn spec_csv_escape_from(s: Seq<char>, i: int) -> Seq<char>
    decreases s.len() - i,
{
    if i < 0 || i >= s.len() {
        Seq::empty()
    } else if s[i] == '"' {
        seq!['"', '"'] + spec_csv_escape_from(s, i + 1)
    } else {
        seq![s[i]] + spec_csv_escape_from(s, i + 1)
    }
}

/// `s` with every double quote doubled.
pub open spec fn spec_csv_escape(s: Seq<char>) -> Seq<char> {
    spec_csv_escape_from(s, 0)
}

/// `s` wrapped in double quotes.
pub open spec fn spec_quoted(s: Seq<char>) -> Seq<char> {
    seq!['"'] + s + seq!['"']
}

/// `s` escaped and wrapped in double quotes.
pub open spec fn spec_quoted_escaped(s: Seq<char>) -> Seq<char> {
    spec_quoted(spec_csv_escape(s))
}

/// Append `s` with every double quote doubled.
#[verifier::loop_isolation(false)]
pub fn push_csv_escaped(out: &mut Vec<char>, s: &[char])
    ensures
        final(out)@ == old(out)@ + spec_csv_escape(s@),
{
    let mut i: usize = 0;
    loop
        invariant
            i <= s@.len(),
            old(out)@ + spec_csv_escape(s@) == out@ + spec_csv_escape_from(s@, i as int),
        decreases s@.len() - i,
    {
        let ghost out0 = out@;
        if i >= s.len() {
            proof {
                utils::lemma_seq_concat_empty(out@);
            }
            return ;
        }
        let c = s[i];
        if c == '"' {
            out.push('"');
            out.push('"');
            proof {
                assert(out@ =~= out0 + seq!['"', '"']);
                utils::lemma_seq_concat_assoc(
                    out0,
                    seq!['"', '"'],
                    spec_csv_escape_from(s@, i + 1),
                );
            }
        } else {
            out.push(c);
            proof {
                assert(out@ =~= out0 + seq![s@[i as int]]);
                utils::lemma_seq_concat_assoc(
                    out0,
                    seq![s@[i as int]],
                    spec_csv_escape_from(s@, i + 1),
                );
            }
        }
        i = i + 1;
    }
}

/// Append `s` as chars.
#[verifier::loop_isolation(false)]
pub fn push_chars(out: &mut Vec<char>, s: &[char])
    ensures
        final(out)@ == old(out)@ + s@,
{
    let mut k: usize = 0;
    loop
        invariant
            k <= s@.len(),
            out@ == old(out)@ + s@.subrange(0, k as int),
        decreases s@.len() - k,
    {
        if k >= s.len() {
            assert(s@.subrange(0, k as int) =~= s@);
            return ;
        }
        out.push(s[k]);
        assert(out@ =~= old(out)@ + s@.subrange(0, k + 1));
        k = k + 1;
    }
}

/// Append the chars of a literal.
pub fn push_lit(out: &mut Vec<char>, s: &str)
    ensures
        final(out)@ == old(out)@ + s@,
{
    let chars = foreign::str_chars(s);
    push_chars(out, chars.as_slice());
}

/// Append `s` wrapped in quotes, escaped.
pub fn push_quoted_escaped(out: &mut Vec<char>, s: &[char])
    ensures
        final(out)@ == old(out)@ + spec_quoted_escaped(s@),
{
    let ghost out0 = out@;
    out.push('"');
    push_csv_escaped(out, s);
    out.push('"');
    proof {
        assert(out@ =~= out0 + (seq!['"'] + spec_csv_escape(s@) + seq!['"']));
    }
}

/// Append `s` wrapped in quotes, unescaped.
pub fn push_quoted_raw(out: &mut Vec<char>, s: &[char])
    ensures
        final(out)@ == old(out)@ + spec_quoted(s@),
{
    let ghost out0 = out@;
    out.push('"');
    push_chars(out, s);
    out.push('"');
    proof {
        assert(out@ =~= out0 + (seq!['"'] + s@ + seq!['"']));
    }
}

/// Append a decimal number wrapped in quotes.
pub fn push_quoted_u64(out: &mut Vec<char>, n: u64)
    ensures
        final(out)@ == old(out)@ + spec_quoted(crate::decoder::spec_dec_digits(n as int)),
{
    let ghost out0 = out@;
    out.push('"');
    crate::decoder::push_dec_u64(out, n);
    out.push('"');
    proof {
        assert(out@ =~= out0 + (seq!['"'] + crate::decoder::spec_dec_digits(n as int) + seq![
            '"',
        ]));
    }
}

} // verus!
