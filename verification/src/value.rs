use vstd::prelude::*;
use vstd::string::StrSliceExecFns;
use vstd::string::StringExecFns;

verus! {

/// Mathematical model of a cell: text as a character sequence, a boolean,
/// or an unbounded integer (the executable side keeps it within `i64`).
#[verifier::ext_equal]
pub enum ValueS {
    Text(Seq<char>),
    Boolean(bool),
    Integer(int),
}

/// A cell of a relation: text, boolean, or 64-bit signed integer.
/// No null variant exists; anything unrecognised stays text.
#[derive(Debug, PartialEq, Eq)]
pub enum Value {
    Text(String),
    Boolean(bool),
    Integer(i64),
}

impl View for Value {
    type V = ValueS;

    open spec fn view(&self) -> ValueS {
        match self {
            Value::Text(s) => ValueS::Text(s@),
            Value::Boolean(b) => ValueS::Boolean(*b),
            Value::Integer(i) => ValueS::Integer(*i as int),
        }
    }
}

impl DeepView for Value {
    type V = ValueS;

    open spec fn deep_view(&self) -> ValueS {
        self.view()
    }
}

impl Value {
    /// Copy a cell; cells are copied whenever they pass between operators.
    pub fn dup(&self) -> (r: Value)
        ensures
            r@ == self@,
    {
        match self {
            Value::Text(s) => Value::Text(s.clone()),
            Value::Boolean(b) => Value::Boolean(*b),
            Value::Integer(i) => Value::Integer(*i),
        }
    }
}

/// Truthiness coercion: the rule mapping any value to a boolean for
/// conditional use. Booleans stand for themselves, integers are true when
/// non-zero, text is true when non-empty.
pub open spec fn spec_truthy(v: ValueS) -> bool {
    match v {
        ValueS::Boolean(b) => b,
        ValueS::Integer(i) => i != 0,
        ValueS::Text(s) => s.len() > 0,
    }
}

/// Coerce a `Value` to a boolean condition.
pub fn eval_value_as_bool(value: Value) -> (r: bool)
    ensures
        r == spec_truthy(value@),
{
    match value {
        Value::Boolean(b) => b,
        Value::Integer(i) => i != 0,
        Value::Text(s) => !s.as_str().is_empty(),
    }
}

/// Character-by-character string equality, so that contracts can speak of
/// the views directly.
pub fn eq_str(a: &str, b: &str) -> (r: bool)
    ensures
        r == (a@ == b@),
{
    let na = a.unicode_len();
    let nb = b.unicode_len();
    if na != nb {
        return false;
    }
    let mut i: usize = 0;
    while i < na
        invariant
            0 <= i <= na,
            na == a@.len(),
            na == b@.len(),
            forall|j: int| 0 <= j < i ==> a@[j] == b@[j],
        decreases na - i,
    {
        if a.get_char(i) != b.get_char(i) {
            return false;
        }
        i += 1;
    }
    proof {
        assert(a@ =~= b@);
    }
    true
}

pub open spec fn is_digit_char(c: char) -> bool {
    48 <= c as int && c as int <= 57
}

pub open spec fn digit_val(c: char) -> int {
    c as int - 48
}

pub open spec fn all_digits(s: Seq<char>) -> bool {
    forall|i: int| 0 <= i < s.len() ==> is_digit_char(#[trigger] s[i])
}

/// The number denoted by a sequence of decimal digits, most significant first.
pub open spec fn digits_value(s: Seq<char>) -> int
    decreases s.len(),
{
    if s.len() == 0 {
        0
    } else {
        digits_value(s.drop_last()) * 10 + digit_val(s.last())
    }
}

/// The digits of an integer literal, the optional leading sign stripped.
pub open spec fn int_literal_digits(s: Seq<char>) -> Seq<char> {
    if s.len() > 0 && (s[0] == '-' || s[0] == '+') {
        s.subrange(1, s.len() as int)
    } else {
        s
    }
}

/// Whether `s` has the exact shape of a signed decimal integer literal:
/// an optional `+` or `-`, then one or more digits, nothing else.
pub open spec fn is_int_literal(s: Seq<char>) -> bool {
    int_literal_digits(s).len() > 0 && all_digits(int_literal_digits(s))
}

/// The signed value denoted by an integer literal.
pub open spec fn int_literal_value(s: Seq<char>) -> int {
    if s.len() > 0 && s[0] == '-' {
        -digits_value(int_literal_digits(s))
    } else {
        digits_value(int_literal_digits(s))
    }
}

/// What parsing text as a 64-bit signed integer yields: the denoted value
/// when the text is a well-formed literal that fits, nothing otherwise.
pub open spec fn spec_parse_i64(s: Seq<char>) -> Option<int> {
    if is_int_literal(s) && i64::MIN <= int_literal_value(s) <= i64::MAX {
        Some(int_literal_value(s))
    } else {
        None
    }
}

pub proof fn lemma_digits_value_nonneg(s: Seq<char>)
    requires
        all_digits(s),
    ensures
        digits_value(s) >= 0,
    decreases s.len(),
{
    if s.len() > 0 {
        assert(all_digits(s.drop_last()));
        lemma_digits_value_nonneg(s.drop_last());
    }
}

/// A digit prefix never denotes more than the whole digit string.
pub proof fn lemma_digits_prefix_le(s: Seq<char>, k: int)
    requires
        all_digits(s),
        0 <= k <= s.len(),
    ensures
        digits_value(s.subrange(0, k)) <= digits_value(s),
    decreases s.len() - k,
{
    if k == s.len() {
        assert(s.subrange(0, k) =~= s);
    } else {
        let p = s.subrange(0, k);
        let q = s.subrange(0, k + 1);
        assert(q.drop_last() =~= p);
        assert(all_digits(p));
        lemma_digits_value_nonneg(p);
        assert(digits_value(q) == digits_value(p) * 10 + digit_val(q.last()));
        assert(digits_value(p) * 10 >= digits_value(p)) by (nonlinear_arith)
            requires digits_value(p) >= 0;
        assert(digit_val(q.last()) >= 0);
        lemma_digits_prefix_le(s, k + 1);
    }
}

/// Parse a signed 64-bit integer: exactly an optional sign and decimal
/// digits, rejected when malformed or out of range.
pub fn parse_i64(s: &str) -> (r: Option<i64>)
    ensures
        match r {
            Some(v) => spec_parse_i64(s@) == Some(v as int),
            None => spec_parse_i64(s@) is None,
        },
{
    let n = s.unicode_len();
    if n == 0 {
        return None;
    }
    let c0 = s.get_char(0);
    let neg = c0 == '-';
    let start: usize = if c0 == '-' || c0 == '+' {
        1
    } else {
        0
    };
    let ghost ds = int_literal_digits(s@);
    proof {
        assert(ds =~= s@.subrange(start as int, n as int));
    }
    if start == n {
        proof {
            assert(ds.len() == 0);
        }
        return None;
    }
    let limit: u64 = if neg {
        9223372036854775808u64
    } else {
        9223372036854775807u64
    };
    let mut acc: u64 = 0;
    let mut i: usize = start;
    while i < n
        invariant
            start <= i <= n,
            n == s@.len(),
            start < n,
            start == 0 || start == 1,
            ds == int_literal_digits(s@),
            neg == (s@[0] == '-'),
            ds == s@.subrange(start as int, n as int),
            ds.len() == n - start,
            neg ==> limit == 9223372036854775808u64,
            !neg ==> limit == 9223372036854775807u64,
            all_digits(ds.subrange(0, i - start)),
            acc as int == digits_value(ds.subrange(0, i - start)),
            acc <= limit,
        decreases n - i,
    {
        let c = s.get_char(i);
        let cu = c as u32;
        if cu < 48 || cu > 57 {
            proof {
                assert(ds[i - start] == s@[i as int]);
                assert(!is_digit_char(ds[i - start]));
                assert(!all_digits(ds));
            }
            return None;
        }
        let d: u64 = (cu - 48) as u64;
        let ghost p = ds.subrange(0, i - start);
        let ghost q = ds.subrange(0, i + 1 - start);
        proof {
            assert(q.drop_last() =~= p);
            assert(q.last() == s@[i as int]);
            assert(digits_value(q) == acc as int * 10 + d);
        }
        if acc > (limit - d) / 10 {
            proof {
                assert(acc as int * 10 + d > limit) by (nonlinear_arith)
                    requires
                        acc as int > ((limit - d) as int) / 10,
                        0 <= d <= 9,
                        limit >= d,
                        acc >= 0;
                if is_int_literal(s@) {
                    lemma_digits_prefix_le(ds, i + 1 - start);
                    assert(digits_value(ds) > limit);
                    if neg {
                        assert(int_literal_value(s@) < i64::MIN);
                    } else {
                        assert(int_literal_value(s@) > i64::MAX);
                    }
                }
            }
            return None;
        }
        acc = acc * 10 + d;
        i += 1;
        proof {
            assert(ds.subrange(0, i - start) =~= q);
            assert(all_digits(q));
        }
    }
    proof {
        assert(ds.subrange(0, n - start) =~= ds);
        assert(is_int_literal(s@));
    }
    if neg {
        if acc == 9223372036854775808u64 {
            Some(i64::MIN)
        } else {
            Some(-(acc as i64))
        }
    } else {
        Some(acc as i64)
    }
}

/// Lenient, total, deterministic inference from raw text: the boolean
/// literals `true` and `false` (case-sensitive) first, then a signed
/// 64-bit integer literal, else the text itself, verbatim.
pub open spec fn spec_infer(s: Seq<char>) -> ValueS {
    if s == "true"@ {
        ValueS::Boolean(true)
    } else if s == "false"@ {
        ValueS::Boolean(false)
    } else {
        match spec_parse_i64(s) {
            Some(v) => ValueS::Integer(v),
            None => ValueS::Text(s),
        }
    }
}

/// Infer the typed cell a raw text field denotes.
pub fn infer(text: String) -> (v: Value)
    ensures
        v@ == spec_infer(text@),
{
    if eq_str(text.as_str(), "true") {
        Value::Boolean(true)
    } else if eq_str(text.as_str(), "false") {
        Value::Boolean(false)
    } else {
        match parse_i64(text.as_str()) {
            Some(i) => Value::Integer(i),
            None => Value::Text(text),
        }
    }
}

/// Relies on `String::push`: appends exactly the one character at the end.
#[verifier::external_body]
fn push_char(s: &mut String, c: char)
    ensures
        final(s)@ == old(s)@.push(c),
{
    s.push(c);
}

pub open spec fn spec_digit_char(d: int) -> char {
    ((d + 48) as u8) as char
}

/// The decimal digit characters of a non-negative integer, no leading zero
/// except for zero itself.
pub open spec fn spec_dec_digits(n: int) -> Seq<char>
    decreases n,
{
    if n < 10 {
        seq![spec_digit_char(n)]
    } else {
        spec_dec_digits(n / 10).push(spec_digit_char(n % 10))
    }
}

/// The decimal rendering of a signed integer.
pub open spec fn spec_render_int(i: int) -> Seq<char> {
    if i < 0 {
        seq!['-'] + spec_dec_digits(-i)
    } else {
        spec_dec_digits(i)
    }
}

/// How a cell is rendered back to CSV text: text verbatim, booleans as the
/// literals `true` and `false`, integers in decimal.
pub open spec fn spec_render_value(v: ValueS) -> Seq<char> {
    match v {
        ValueS::Text(s) => s,
        ValueS::Boolean(b) => if b {
            "true"@
        } else {
            "false"@
        },
        ValueS::Integer(i) => spec_render_int(i),
    }
}

fn digit_to_char(d: u64) -> (c: char)
    requires
        d < 10,
    ensures
        c == spec_digit_char(d as int),
{
    (48 + d as u8) as char
}

fn push_dec_digits(out: &mut String, n: u64)
    ensures
        final(out)@ == old(out)@ + spec_dec_digits(n as int),
    decreases n,
{
    if n < 10 {
        push_char(out, digit_to_char(n));
        proof {
            assert(out@ =~= old(out)@ + spec_dec_digits(n as int));
        }
    } else {
        push_dec_digits(out, n / 10);
        push_char(out, digit_to_char(n % 10));
        proof {
            assert(out@ =~= old(out)@ + spec_dec_digits(n as int));
        }
    }
}

/// Render one cell as CSV field text.
pub fn render_value(v: &Value) -> (s: String)
    ensures
        s@ == spec_render_value(v@),
{
    match v {
        Value::Text(t) => t.clone(),
        Value::Boolean(b) => {
            if *b {
                String::from_str("true")
            } else {
                String::from_str("false")
            }
        },
        Value::Integer(i) => {
            let mut out = String::new();
            if *i < 0 {
                push_char(&mut out, '-');
                let m: u64 = if *i == i64::MIN {
                    9223372036854775808u64
                } else {
                    (-(*i)) as u64
                };
                push_dec_digits(&mut out, m);
                proof {
                    assert(out@ =~= spec_render_int(*i as int));
                }
            } else {
                push_dec_digits(&mut out, *i as u64);
                proof {
                    assert(out@ =~= spec_render_int(*i as int));
                }
            }
            out
        },
    }
}

} // verus!
