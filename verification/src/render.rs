//! Deterministic textual rendering of values, for shell output and error
//! messages.
//!
//! An exception renders as `raise <quoted-name>`, followed by its metadata
//! object only when that is non-empty; `null`, `true` and `false` render as
//! those words; a number renders in its exact integer or fractional form;
//! a string renders double-quoted with escaping; arrays render `[v, v]`,
//! objects `{k: v}` in iteration order; a function value renders as the
//! opaque placeholder `def (...)`. A hashable value renders identically to
//! its widened value form.

use vstd::prelude::*;
use crate::rational::Rational;
use crate::value::{
    Value, HashableValue, VModel, HModel, vmodel, hmodel, vfull, vfull_seq, pfull, vmodels,
    pairs_model, lemma_vmodels_index, lemma_pairs_model_index,
};
use vstd::string::StrSliceExecFns;

verus! {

pub open spec fn digit_char(d: int) -> char {
    if d == 0 { '0' }
    else if d == 1 { '1' }
    else if d == 2 { '2' }
    else if d == 3 { '3' }
    else if d == 4 { '4' }
    else if d == 5 { '5' }
    else if d == 6 { '6' }
    else if d == 7 { '7' }
    else if d == 8 { '8' }
    else { '9' }
}

/// Decimal digits of a natural number, most significant first.
pub open spec fn dec_digits(n: nat) -> Seq<char>
    decreases n,
{
    if n < 10 {
        seq![digit_char(n as int)]
    } else {
        dec_digits(n / 10) + seq![digit_char((n % 10) as int)]
    }
}

/// Decimal form of an integer, with a leading minus sign when negative.
pub open spec fn dec_int(n: int) -> Seq<char> {
    if n < 0 {
        seq!['-'] + dec_digits((-n) as nat)
    } else {
        dec_digits(n as nat)
    }
}

/// A rational renders as its integer form when the denominator is one,
/// else as `numerator/denominator`.
pub open spec fn render_rational(r: Rational) -> Seq<char> {
    if r.den == 1 {
        dec_int(r.num as int)
    } else {
        dec_int(r.num as int) + seq!['/'] + dec_int(r.den as int)
    }
}

/// Escaping inside double-quoted strings: quote, backslash, newline, tab
/// and carriage return are escaped; all other characters stand for
/// themselves.
pub open spec fn escape_char(c: char) -> Seq<char> {
    if c == '"' { seq!['\\', '"'] }
    else if c == '\\' { seq!['\\', '\\'] }
    else if c == '\n' { seq!['\\', 'n'] }
    else if c == '\t' { seq!['\\', 't'] }
    else if c == '\r' { seq!['\\', 'r'] }
    else { seq![c] }
}

pub open spec fn escape_str(s: Seq<char>) -> Seq<char>
    decreases s,
{
    if s.len() == 0 {
        Seq::empty()
    } else {
        escape_char(s[0]) + escape_str(s.drop_first())
    }
}

pub open spec fn quoted(s: Seq<char>) -> Seq<char> {
    seq!['"'] + escape_str(s) + seq!['"']
}

/// The rendering of a value.
pub open spec fn render_value(v: VModel) -> Seq<char>
    decreases vfull(v),
{
    match v {
        VModel::Exception(n, m) => seq!['r', 'a', 'i', 's', 'e', ' '] + quoted(n) + (
            if m.len() == 0 {
                Seq::empty()
            } else {
                seq![' ', '{'] + render_pairs(m) + seq!['}']
            }
        ),
        VModel::Null => seq!['n', 'u', 'l', 'l'],
        VModel::Boolean(b) => if b {
            seq!['t', 'r', 'u', 'e']
        } else {
            seq!['f', 'a', 'l', 's', 'e']
        },
        VModel::Number(r) => render_rational(r),
        VModel::String(s) => quoted(s),
        VModel::Array(s) => seq!['['] + render_elems(s) + seq![']'],
        VModel::Object(m) => seq!['{'] + render_pairs(m) + seq!['}'],
        VModel::Function => seq!['d', 'e', 'f', ' ', '(', '.', '.', '.', ')'],
    }
}

/// Comma-separated renderings of array elements.
pub open spec fn render_elems(s: Seq<VModel>) -> Seq<char>
    decreases vfull_seq(s),
{
    if s.len() == 0 {
        Seq::empty()
    } else if s.len() == 1 {
        render_value(s[0])
    } else {
        render_value(s[0]) + seq![',', ' '] + render_elems(s.drop_first())
    }
}

/// Comma-separated `key: value` renderings of object entries, in iteration
/// order; keys render as their widened value form.
pub open spec fn render_pairs(s: Seq<(HModel, VModel)>) -> Seq<char>
    decreases pfull(s),
    via render_pairs_decreases
{
    if s.len() == 0 {
        Seq::empty()
    } else if s.len() == 1 {
        render_value(crate::value::widen(s[0].0)) + seq![':', ' '] + render_value(s[0].1)
    } else {
        render_value(crate::value::widen(s[0].0)) + seq![':', ' '] + render_value(s[0].1)
            + seq![',', ' '] + render_pairs(s.drop_first())
    }
}

#[via_fn]
proof fn render_pairs_decreases(s: Seq<(HModel, VModel)>) {
    if s.len() != 0 {
        crate::value::lemma_vfull_widen(s[0].0);
    }
}

// ---------------------------------------------------------------------------
// Executable rendering.
// ---------------------------------------------------------------------------

proof fn lemma_escape_str_snoc(t: Seq<char>, c: char)
    ensures
        escape_str(t.push(c)) == escape_str(t) + escape_char(c),
    decreases t.len(),
{
    if t.len() == 0 {
        assert(t.push(c)[0] == c);
        assert(t.push(c).drop_first() =~= Seq::<char>::empty());
        assert(escape_str(t) + escape_char(c) =~= escape_char(c));
        assert(escape_str(t.push(c)) =~= escape_char(c) + escape_str(Seq::<char>::empty()));
        assert(escape_char(c) + escape_str(Seq::<char>::empty()) =~= escape_char(c));
    } else {
        lemma_escape_str_snoc(t.drop_first(), c);
        assert(t.push(c).drop_first() =~= t.drop_first().push(c));
        assert(escape_str(t.push(c)) == escape_char(t[0]) + escape_str(t.drop_first().push(c)));
        assert(escape_char(t[0]) + (escape_str(t.drop_first()) + escape_char(c))
            =~= (escape_char(t[0]) + escape_str(t.drop_first())) + escape_char(c));
    }
}

/// Appends the decimal digits of `n`.
#[verifier::loop_isolation(false)]
fn push_dec(n: u64, out: &mut Vec<char>)
    ensures
        final(out)@ == old(out)@ + dec_digits(n as nat),
    decreases n,
{
    if n >= 10 {
        push_dec(n / 10, out);
    }
    let d = (n % 10) as u8;
    let c: char = if d == 0 { '0' }
        else if d == 1 { '1' }
        else if d == 2 { '2' }
        else if d == 3 { '3' }
        else if d == 4 { '4' }
        else if d == 5 { '5' }
        else if d == 6 { '6' }
        else if d == 7 { '7' }
        else if d == 8 { '8' }
        else { '9' };
    assert(c == digit_char((n % 10) as int));
    out.push(c);
    proof {
        if n < 10 {
            assert(old(out)@ + dec_digits(n as nat) =~= out@);
        } else {
            assert(old(out)@ + dec_digits(n as nat) =~= out@);
        }
    }
}

/// Appends the decimal form of `n`.
fn push_int(n: i64, out: &mut Vec<char>)
    ensures
        final(out)@ == old(out)@ + dec_int(n as int),
{
    if n < 0 {
        out.push('-');
        let m: u64 = (-(n as i128)) as u64;
        push_dec(m, out);
        proof {
            assert(out@ =~= old(out)@ + dec_int(n as int));
        }
    } else {
        push_dec(n as u64, out);
    }
}

/// Appends the rendering of a rational.
fn push_rational(r: &Rational, out: &mut Vec<char>)
    ensures
        final(out)@ == old(out)@ + render_rational(*r),
{
    if r.den == 1 {
        push_int(r.num, out);
    } else {
        push_int(r.num, out);
        out.push('/');
        push_int(r.den, out);
        proof {
            assert(out@ =~= old(out)@ + render_rational(*r));
        }
    }
}

/// Appends the double-quoted, escaped rendering of a string.
#[verifier::loop_isolation(false)]
fn push_quoted(s: &String, out: &mut Vec<char>)
    ensures
        final(out)@ == old(out)@ + quoted(s@),
{
    out.push('"');
    let n = s.as_str().unicode_len();
    let mut i: usize = 0;
    while i < n
        invariant
            n == s@.len(),
            i <= n,
            out@ == old(out)@ + seq!['"'] + escape_str(s@.take(i as int)),
        decreases n - i,
    {
        let c = s.as_str().get_char(i);
        proof {
            lemma_escape_str_snoc(s@.take(i as int), c);
            assert(s@.take(i as int).push(c) =~= s@.take(i + 1));
        }
        if c == '"' {
            out.push('\\');
            out.push('"');
        } else if c == '\\' {
            out.push('\\');
            out.push('\\');
        } else if c == '\n' {
            out.push('\\');
            out.push('n');
        } else if c == '\t' {
            out.push('\\');
            out.push('t');
        } else if c == '\r' {
            out.push('\\');
            out.push('r');
        } else {
            out.push(c);
        }
        proof {
            assert(out@ =~= old(out)@ + seq!['"'] + escape_str(s@.take(i + 1)));
        }
        i += 1;
    }
    out.push('"');
    proof {
        assert(s@.take(n as int) =~= s@);
        assert(out@ =~= old(out)@ + quoted(s@));
    }
}

/// Appends the rendering of a value.
pub fn render_value_into(v: &Value, out: &mut Vec<char>)
    ensures
        final(out)@ == old(out)@ + render_value(vmodel(*v)),
    decreases vfull(vmodel(*v)),
{
    match v {
        Value::Exception(n, m) => {
            out.push('r');
            out.push('a');
            out.push('i');
            out.push('s');
            out.push('e');
            out.push(' ');
            push_quoted(n, out);
            if m.entries.len() > 0 {
                out.push(' ');
                out.push('{');
                proof {
                    lemma_pairs_model_index(m.entries@);
                    assert(pairs_model(m.entries@).skip(0) =~= pairs_model(m.entries@));
                }
                render_pairs_from(&m.entries, 0, out);
                out.push('}');
            } else {
                proof {
                    lemma_pairs_model_index(m.entries@);
                }
            }
            proof {
                assert(out@ =~= old(out)@ + render_value(vmodel(*v)));
            }
        },
        Value::Null => {
            out.push('n');
            out.push('u');
            out.push('l');
            out.push('l');
            proof {
                assert(out@ =~= old(out)@ + render_value(vmodel(*v)));
            }
        },
        Value::Boolean(b) => {
            if *b {
                out.push('t');
                out.push('r');
                out.push('u');
                out.push('e');
            } else {
                out.push('f');
                out.push('a');
                out.push('l');
                out.push('s');
                out.push('e');
            }
            proof {
                assert(out@ =~= old(out)@ + render_value(vmodel(*v)));
            }
        },
        Value::Number(r) => {
            push_rational(r, out);
        },
        Value::String(s) => {
            push_quoted(s, out);
        },
        Value::Array(items) => {
            out.push('[');
            proof {
                lemma_vmodels_index(items@);
                assert(vmodels(items@).skip(0) =~= vmodels(items@));
            }
            render_elems_from(items, 0, out);
            out.push(']');
            proof {
                assert(out@ =~= old(out)@ + render_value(vmodel(*v)));
            }
        },
        Value::Object(o) => {
            out.push('{');
            proof {
                lemma_pairs_model_index(o.entries@);
                assert(pairs_model(o.entries@).skip(0) =~= pairs_model(o.entries@));
            }
            render_pairs_from(&o.entries, 0, out);
            out.push('}');
            proof {
                assert(out@ =~= old(out)@ + render_value(vmodel(*v)));
            }
        },
        Value::Function => {
            out.push('d');
            out.push('e');
            out.push('f');
            out.push(' ');
            out.push('(');
            out.push('.');
            out.push('.');
            out.push('.');
            out.push(')');
            proof {
                assert(out@ =~= old(out)@ + render_value(vmodel(*v)));
            }
        },
    }
}

/// Appends the renderings of the array elements from index `idx` on,
/// comma-separated.
fn render_elems_from(items: &Vec<Value>, idx: usize, out: &mut Vec<char>)
    requires
        idx <= items@.len(),
    ensures
        final(out)@ == old(out)@ + render_elems(vmodels(items@).skip(idx as int)),
    decreases vfull_seq(vmodels(items@).skip(idx as int)),
{
    proof {
        lemma_vmodels_index(items@);
    }
    if idx < items.len() {
        let ghost suffix = vmodels(items@).skip(idx as int);
        proof {
            assert(suffix[0] == vmodel(items@[idx as int]));
            assert(suffix.drop_first() =~= vmodels(items@).skip(idx + 1));
        }
        render_value_into(&items[idx], out);
        if idx + 1 < items.len() {
            out.push(',');
            out.push(' ');
            render_elems_from(items, idx + 1, out);
            proof {
                assert(out@ =~= old(out)@ + render_elems(suffix));
            }
        } else {
            proof {
                assert(render_elems(suffix) == render_value(suffix[0]));
            }
        }
    } else {
        proof {
            assert(vmodels(items@).skip(idx as int) =~= Seq::<VModel>::empty());
            assert(out@ =~= old(out)@ + render_elems(vmodels(items@).skip(idx as int)));
        }
    }
}

/// Appends the `key: value` renderings of the object entries from index
/// `idx` on, comma-separated; keys render as their widened value form.
fn render_pairs_from(entries: &Vec<(HashableValue, Value)>, idx: usize, out: &mut Vec<char>)
    requires
        idx <= entries@.len(),
    ensures
        final(out)@ == old(out)@ + render_pairs(pairs_model(entries@).skip(idx as int)),
    decreases pfull(pairs_model(entries@).skip(idx as int)),
{
    proof {
        lemma_pairs_model_index(entries@);
    }
    if idx < entries.len() {
        let ghost suffix = pairs_model(entries@).skip(idx as int);
        proof {
            assert(suffix[0] == (hmodel(entries@[idx as int].0), vmodel(entries@[idx as int].1)));
            assert(suffix.drop_first() =~= pairs_model(entries@).skip(idx + 1));
            crate::value::lemma_vfull_widen(suffix[0].0);
        }
        let wk = Value::from_hashable_ref(&entries[idx].0);
        render_value_into(&wk, out);
        out.push(':');
        out.push(' ');
        render_value_into(&entries[idx].1, out);
        if idx + 1 < entries.len() {
            out.push(',');
            out.push(' ');
            render_pairs_from(entries, idx + 1, out);
            proof {
                assert(out@ =~= old(out)@ + render_pairs(suffix));
            }
        } else {
            proof {
                assert(out@ =~= old(out)@ + render_pairs(suffix));
            }
        }
    } else {
        proof {
            assert(pairs_model(entries@).skip(idx as int) =~= Seq::<(HModel, VModel)>::empty());
            assert(out@ =~= old(out)@ + render_pairs(pairs_model(entries@).skip(idx as int)));
        }
    }
}

/// Relies on `String`'s `FromIterator` over `char`: collecting characters
/// yields the string of exactly those characters, in order.
#[verifier::external_body]
fn chars_to_string(cs: Vec<char>) -> (r: String)
    ensures
        r@ == cs@,
{
    cs.into_iter().collect()
}

impl Value {
    /// The deterministic textual rendering of this value.
    pub fn to_display_string(&self) -> (r: String)
        ensures
            r@ == render_value(vmodel(*self)),
    {
        let mut out: Vec<char> = Vec::new();
        render_value_into(self, &mut out);
        proof {
            assert(out@ =~= render_value(vmodel(*self)));
        }
        chars_to_string(out)
    }
}

impl HashableValue {
    /// A hashable value renders identically to its widened value form.
    pub fn to_display_string(&self) -> (r: String)
        ensures
            r@ == render_value(crate::value::widen(hmodel(*self))),
    {
        let wide = Value::from_hashable_ref(self);
        wide.to_display_string()
    }
}

} // verus!
