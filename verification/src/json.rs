//! A minimal JSON value model together with its text encoding.
//!
//! [`JsonValue`] is the executable representation; [`JsonModel`] is the
//! mathematical one used in contracts.  [`json_text`] defines the wire
//! form character by character, and [`json_to_string`] is the verified
//! encoder producing exactly that text.

use vstd::prelude::*;

verus! {

/// A JSON value.  Numbers are restricted to signed 64-bit integers.
#[derive(Debug, PartialEq)]
pub enum JsonValue {
    Null,
    Bool(bool),
    Int(i64),
    Str(String),
    Array(Vec<JsonValue>),
    Object(Vec<(String, JsonValue)>),
}

/// The mathematical shape of a JSON value, used in specifications.
pub enum JsonModel {
    Null,
    Bool(bool),
    Int(int),
    Str(Seq<char>),
    Array(Seq<JsonModel>),
    Object(Seq<(Seq<char>, JsonModel)>),
}

/// The mathematical value of a [`JsonValue`].
pub open spec fn json_model(v: JsonValue) -> JsonModel
    decreases v, 1int,
{
    match v {
        JsonValue::Null => JsonModel::Null,
        JsonValue::Bool(b) => JsonModel::Bool(b),
        JsonValue::Int(i) => JsonModel::Int(i as int),
        JsonValue::Str(s) => JsonModel::Str(s@),
        JsonValue::Array(a) => JsonModel::Array(json_model_seq(a@)),
        JsonValue::Object(m) => JsonModel::Object(json_model_entries(m@)),
    }
}

/// The mathematical values of a sequence of JSON values.
pub open spec fn json_model_seq(a: Seq<JsonValue>) -> Seq<JsonModel>
    decreases a, 0int,
{
    if a.len() == 0 {
        Seq::empty()
    } else {
        json_model_seq(a.subrange(0, a.len() - 1)).push(json_model(a[a.len() - 1]))
    }
}

/// The mathematical values of a sequence of JSON object entries.
pub open spec fn json_model_entries(m: Seq<(String, JsonValue)>) -> Seq<(Seq<char>, JsonModel)>
    decreases m, 0int,
{
    if m.len() == 0 {
        Seq::empty()
    } else {
        json_model_entries(m.subrange(0, m.len() - 1)).push(
            (m[m.len() - 1].0@, json_model(m[m.len() - 1].1)),
        )
    }
}

/// `json_model_seq` maps each element to its model, in order.
pub proof fn lemma_json_model_seq(a: Seq<JsonValue>)
    ensures
        json_model_seq(a).len() == a.len(),
        forall|i: int| 0 <= i < a.len() ==> json_model_seq(a)[i] == json_model(a[i]),
    decreases a.len(),
{
    if a.len() > 0 {
        lemma_json_model_seq(a.subrange(0, a.len() - 1));
    }
}

/// `json_model_entries` maps each entry to its model, in order.
pub proof fn lemma_json_model_entries(m: Seq<(String, JsonValue)>)
    ensures
        json_model_entries(m).len() == m.len(),
        forall|i: int| 0 <= i < m.len() ==> json_model_entries(m)[i] == (
            m[i].0@,
            json_model(m[i].1),
        ),
    decreases m.len(),
{
    if m.len() > 0 {
        lemma_json_model_entries(m.subrange(0, m.len() - 1));
    }
}

/// Appending one value appends its model.
pub proof fn lemma_json_model_seq_push(v: Seq<JsonValue>, x: JsonValue)
    ensures
        json_model_seq(v.push(x)) == json_model_seq(v).push(json_model(x)),
{
    let w = v.push(x);
    assert(w.subrange(0, w.len() - 1) =~= v);
    assert(w[w.len() - 1] == x);
}

/// Appending one entry appends its model.
pub proof fn lemma_json_model_entries_push(v: Seq<(String, JsonValue)>, x: (String, JsonValue))
    ensures
        json_model_entries(v.push(x)) == json_model_entries(v).push((x.0@, json_model(x.1))),
{
    let w = v.push(x);
    assert(w.subrange(0, w.len() - 1) =~= v);
    assert(w[w.len() - 1] == x);
}

impl View for JsonValue {
    type V = JsonModel;

    open spec fn view(&self) -> JsonModel {
        json_model(*self)
    }
}

/// The decimal digit character for `d`.
pub open spec fn dec_digit(d: int) -> char {
    if d == 0 {
        '0'
    } else if d == 1 {
        '1'
    } else if d == 2 {
        '2'
    } else if d == 3 {
        '3'
    } else if d == 4 {
        '4'
    } else if d == 5 {
        '5'
    } else if d == 6 {
        '6'
    } else if d == 7 {
        '7'
    } else if d == 8 {
        '8'
    } else {
        '9'
    }
}

/// The lowercase hexadecimal digit character for `d`.
pub open spec fn hex_digit(d: int) -> char {
    if d < 10 {
        dec_digit(d)
    } else if d == 10 {
        'a'
    } else if d == 11 {
        'b'
    } else if d == 12 {
        'c'
    } else if d == 13 {
        'd'
    } else if d == 14 {
        'e'
    } else {
        'f'
    }
}

/// The decimal form of a natural number, without sign or leading zeros.
pub open spec fn dec_nat(n: nat) -> Seq<char>
    decreases n,
{
    if n < 10 {
        seq![dec_digit(n as int)]
    } else {
        dec_nat(n / 10).push(dec_digit((n % 10) as int))
    }
}

/// The decimal form of an integer.
pub open spec fn dec_int(i: int) -> Seq<char> {
    if i < 0 {
        seq!['-'] + dec_nat((-i) as nat)
    } else {
        dec_nat(i as nat)
    }
}

/// Whether `c` is a decimal digit character.
pub open spec fn is_dec_digit(c: char) -> bool {
    c == '0' || c == '1' || c == '2' || c == '3' || c == '4' || c == '5' || c == '6' || c == '7'
        || c == '8' || c == '9'
}

/// The numeric value of a decimal digit character (0 for non-digits).
pub open spec fn dval(c: char) -> int {
    if c == '1' {
        1
    } else if c == '2' {
        2
    } else if c == '3' {
        3
    } else if c == '4' {
        4
    } else if c == '5' {
        5
    } else if c == '6' {
        6
    } else if c == '7' {
        7
    } else if c == '8' {
        8
    } else if c == '9' {
        9
    } else {
        0
    }
}

/// `dec_digit` and `dval` are inverse on single digits.
pub proof fn lemma_dec_digit_val(d: int)
    requires
        0 <= d <= 9,
    ensures
        is_dec_digit(dec_digit(d)),
        dval(dec_digit(d)) == d,
        d >= 1 ==> dec_digit(d) != '0',
{
}

/// The decimal form of a number between 100 and 999 is its three digits.
pub proof fn lemma_dec_nat_three_digits(n: nat)
    requires
        100 <= n <= 999,
    ensures
        dec_nat(n) =~= seq![
            dec_digit(n as int / 100),
            dec_digit((n as int / 10) % 10),
            dec_digit(n as int % 10),
        ],
{
    let q = n / 10;
    let q2 = q / 10;
    assert(dec_nat(n) == dec_nat(q).push(dec_digit((n % 10) as int)));
    assert(dec_nat(q) == dec_nat(q2).push(dec_digit((q % 10) as int)));
    assert(dec_nat(q2) == seq![dec_digit(q2 as int)]);
    assert(q2 == n / 100) by {
        vstd::arithmetic::div_mod::lemma_div_denominator(n as int, 10, 10);
    }
}

/// Whether some entry of `m` carries `key`.
pub open spec fn has_key(m: Seq<(Seq<char>, JsonModel)>, key: Seq<char>) -> bool
    decreases m.len(),
{
    if m.len() == 0 {
        false
    } else if m[0].0 == key {
        true
    } else {
        has_key(m.subrange(1, m.len() as int), key)
    }
}

/// How lookup and key presence distribute over concatenation.
pub proof fn lemma_obj_lookup_append(
    a: Seq<(Seq<char>, JsonModel)>,
    b: Seq<(Seq<char>, JsonModel)>,
    key: Seq<char>,
)
    ensures
        has_key(a + b, key) == (has_key(a, key) || has_key(b, key)),
        obj_lookup(a + b, key) == if has_key(a, key) {
            obj_lookup(a, key)
        } else {
            obj_lookup(b, key)
        },
    decreases a.len(),
{
    if a.len() == 0 {
        assert(a + b =~= b);
    } else {
        let t = a + b;
        assert(t[0] == a[0]);
        assert(t.subrange(1, t.len() as int) =~= a.subrange(1, a.len() as int) + b);
        lemma_obj_lookup_append(a.subrange(1, a.len() as int), b, key);
    }
}

/// [`lemma_obj_lookup_append`], for every key at once.
pub proof fn lemma_obj_lookup_append_all(
    a: Seq<(Seq<char>, JsonModel)>,
    b: Seq<(Seq<char>, JsonModel)>,
)
    ensures
        forall|key: Seq<char>|
            #![auto]
            has_key(a + b, key) == (has_key(a, key) || has_key(b, key)),
        forall|key: Seq<char>|
            #![auto]
            obj_lookup(a + b, key) == if has_key(a, key) {
                obj_lookup(a, key)
            } else {
                obj_lookup(b, key)
            },
{
    assert forall|key: Seq<char>|
        #![auto]
        has_key(a + b, key) == (has_key(a, key) || has_key(b, key)) && obj_lookup(a + b, key)
            == (if has_key(a, key) {
            obj_lookup(a, key)
        } else {
            obj_lookup(b, key)
        }) by {
        lemma_obj_lookup_append(a, b, key);
    }
}

/// The JSON escape of one character inside a string literal.
pub open spec fn esc_char(c: char) -> Seq<char> {
    if c == '"' {
        seq!['\\', '"']
    } else if c == '\\' {
        seq!['\\', '\\']
    } else if c == '\u{8}' {
        seq!['\\', 'b']
    } else if c == '\t' {
        seq!['\\', 't']
    } else if c == '\n' {
        seq!['\\', 'n']
    } else if c == '\u{c}' {
        seq!['\\', 'f']
    } else if c == '\r' {
        seq!['\\', 'r']
    } else if (c as u32) < 0x20 {
        seq!['\\', 'u', '0', '0', hex_digit((c as u32) as int / 16), hex_digit((c as u32) as int % 16)]
    } else {
        seq![c]
    }
}

/// The JSON escape of a whole string, character by character.
pub open spec fn esc_string(s: Seq<char>) -> Seq<char>
    decreases s.len(),
{
    if s.len() == 0 {
        Seq::empty()
    } else {
        esc_string(s.subrange(0, s.len() - 1)) + esc_char(s[s.len() - 1])
    }
}

/// A JSON string literal: the escaped text between double quotes.
pub open spec fn quoted(s: Seq<char>) -> Seq<char> {
    seq!['"'] + esc_string(s) + seq!['"']
}

/// The JSON text of a value.
pub open spec fn json_text(j: JsonModel) -> Seq<char>
    decreases j, 1int,
{
    match j {
        JsonModel::Null => seq!['n', 'u', 'l', 'l'],
        JsonModel::Bool(b) => if b {
            seq!['t', 'r', 'u', 'e']
        } else {
            seq!['f', 'a', 'l', 's', 'e']
        },
        JsonModel::Int(i) => dec_int(i),
        JsonModel::Str(s) => quoted(s),
        JsonModel::Array(a) => seq!['['] + json_text_seq(a) + seq![']'],
        JsonModel::Object(m) => seq!['{'] + json_text_entries(m) + seq!['}'],
    }
}

/// The comma-separated JSON texts of the elements of an array.
pub open spec fn json_text_seq(a: Seq<JsonModel>) -> Seq<char>
    decreases a, 0int,
{
    if a.len() == 0 {
        Seq::empty()
    } else if a.len() == 1 {
        json_text(a[0])
    } else {
        json_text_seq(a.subrange(0, a.len() - 1)) + seq![','] + json_text(a[a.len() - 1])
    }
}

/// The comma-separated `"key":value` texts of the entries of an object.
pub open spec fn json_text_entries(m: Seq<(Seq<char>, JsonModel)>) -> Seq<char>
    decreases m, 0int,
{
    if m.len() == 0 {
        Seq::empty()
    } else if m.len() == 1 {
        quoted(m[0].0) + seq![':'] + json_text(m[0].1)
    } else {
        json_text_entries(m.subrange(0, m.len() - 1)) + seq![','] + quoted(m[m.len() - 1].0)
            + seq![':'] + json_text(m[m.len() - 1].1)
    }
}

/// Relies on std's `FromIterator` impl for `String`: collecting a sequence
/// of characters yields the string of exactly those characters.
#[verifier::external_body]
fn chars_to_string(v: Vec<char>) -> (s: String)
    ensures
        s@ == v@,
{
    v.into_iter().collect()
}

fn push_dec_digit(d: u64, out: &mut Vec<char>)
    requires
        d < 10,
    ensures
        final(out)@ == old(out)@.push(dec_digit(d as int)),
{
    let c: char = if d == 0 {
        '0'
    } else if d == 1 {
        '1'
    } else if d == 2 {
        '2'
    } else if d == 3 {
        '3'
    } else if d == 4 {
        '4'
    } else if d == 5 {
        '5'
    } else if d == 6 {
        '6'
    } else if d == 7 {
        '7'
    } else if d == 8 {
        '8'
    } else {
        '9'
    };
    out.push(c);
}

fn push_hex_digit(d: u32, out: &mut Vec<char>)
    requires
        d < 16,
    ensures
        final(out)@ == old(out)@.push(hex_digit(d as int)),
{
    if d < 10 {
        push_dec_digit(d as u64, out);
    } else {
        let c: char = if d == 10 {
            'a'
        } else if d == 11 {
            'b'
        } else if d == 12 {
            'c'
        } else if d == 13 {
            'd'
        } else if d == 14 {
            'e'
        } else {
            'f'
        };
        out.push(c);
    }
}

/// Append the decimal form of `n`.
fn write_u64(n: u64, out: &mut Vec<char>)
    ensures
        final(out)@ == old(out)@ + dec_nat(n as nat),
    decreases n,
{
    if n < 10 {
        push_dec_digit(n, out);
        assert(out@ =~= old(out)@ + dec_nat(n as nat));
    } else {
        write_u64(n / 10, out);
        push_dec_digit(n % 10, out);
        assert(out@ =~= old(out)@ + dec_nat(n as nat));
    }
}

/// Append the decimal form of `i`, with a leading minus sign when negative.
fn write_i64(i: i64, out: &mut Vec<char>)
    ensures
        final(out)@ == old(out)@ + dec_int(i as int),
{
    if i < 0 {
        out.push('-');
        let mag: u64 = if i == i64::MIN {
            9223372036854775808u64
        } else {
            (-i) as u64
        };
        assert(mag as nat == (-(i as int)) as nat);
        write_u64(mag, out);
        assert(out@ =~= old(out)@ + dec_int(i as int));
    } else {
        write_u64(i as u64, out);
    }
}

/// Append the JSON escape of one character.
fn write_esc_char(c: char, out: &mut Vec<char>)
    ensures
        final(out)@ == old(out)@ + esc_char(c),
{
    if c == '"' {
        out.push('\\');
        out.push('"');
    } else if c == '\\' {
        out.push('\\');
        out.push('\\');
    } else if c == '\u{8}' {
        out.push('\\');
        out.push('b');
    } else if c == '\t' {
        out.push('\\');
        out.push('t');
    } else if c == '\n' {
        out.push('\\');
        out.push('n');
    } else if c == '\u{c}' {
        out.push('\\');
        out.push('f');
    } else if c == '\r' {
        out.push('\\');
        out.push('r');
    } else {
        let u = c as u32;
        if u < 0x20 {
            out.push('\\');
            out.push('u');
            out.push('0');
            out.push('0');
            push_hex_digit(u / 16, out);
            push_hex_digit(u % 16, out);
        } else {
            out.push(c);
        }
    }
    assert(out@ =~= old(out)@ + esc_char(c));
}

/// Append a JSON string literal holding the text of `s`.
fn write_quoted(s: &str, out: &mut Vec<char>)
    ensures
        final(out)@ == old(out)@ + quoted(s@),
{
    out.push('"');
    let n = s.unicode_len();
    let mut i: usize = 0;
    while i < n
        invariant
            i <= n,
            n == s@.len(),
            out@ == old(out)@ + seq!['"'] + esc_string(s@.take(i as int)),
        decreases n - i,
    {
        let c = s.get_char(i);
        write_esc_char(c, out);
        proof {
            let t = s@.take(i as int + 1);
            assert(t.subrange(0, t.len() - 1) =~= s@.take(i as int));
            assert(t[t.len() - 1] == s@[i as int]);
            assert(out@ =~= old(out)@ + seq!['"'] + esc_string(t));
        }
        i = i + 1;
    }
    out.push('"');
    proof {
        assert(s@.take(n as int) =~= s@);
        assert(out@ =~= old(out)@ + quoted(s@));
    }
}

/// Append the JSON text of `v`.
fn write_json(v: &JsonValue, out: &mut Vec<char>)
    ensures
        final(out)@ == old(out)@ + json_text(v@),
    decreases v, 1int,
{
    match v {
        JsonValue::Null => {
            out.push('n');
            out.push('u');
            out.push('l');
            out.push('l');
            assert(out@ =~= old(out)@ + json_text(v@));
        },
        JsonValue::Bool(b) => {
            if *b {
                out.push('t');
                out.push('r');
                out.push('u');
                out.push('e');
            } else {
                out.push('f');
                out.push('a');
                out.push('l');
                out.push('s');
                out.push('e');
            }
            assert(out@ =~= old(out)@ + json_text(v@));
        },
        JsonValue::Int(i) => {
            write_i64(*i, out);
        },
        JsonValue::Str(s) => {
            write_quoted(s.as_str(), out);
        },
        JsonValue::Array(a) => {
            out.push('[');
            write_items(a, a.len(), out);
            out.push(']');
            proof {
                assert(a@.take(a@.len() as int) =~= a@);
                assert(out@ =~= old(out)@ + json_text(v@));
            }
        },
        JsonValue::Object(m) => {
            out.push('{');
            write_entries(m, m.len(), out);
            out.push('}');
            proof {
                assert(m@.take(m@.len() as int) =~= m@);
                assert(out@ =~= old(out)@ + json_text(v@));
            }
        },
    }
}

/// Append the comma-separated JSON texts of the first `k` elements of `a`.
fn write_items(a: &Vec<JsonValue>, k: usize, out: &mut Vec<char>)
    requires
        k <= a@.len(),
    ensures
        final(out)@ == old(out)@ + json_text_seq(json_model_seq(a@.take(k as int))),
    decreases a, 0int, k,
{
    if k == 0 {
    } else {
        write_items(a, k - 1, out);
        if k > 1 {
            out.push(',');
        }
        write_json(&a[k - 1], out);
        proof {
            lemma_json_model_seq(a@.take(k as int));
            lemma_json_model_seq(a@.take(k as int - 1));
            let ms = json_model_seq(a@.take(k as int));
            let msp = json_model_seq(a@.take(k as int - 1));
            assert(ms.subrange(0, ms.len() - 1) =~= msp);
            assert(ms[ms.len() - 1] == json_model(a@[k as int - 1]));
            assert(out@ =~= old(out)@ + json_text_seq(ms));
        }
    }
}

/// Append the comma-separated `"key":value` texts of the first `k` entries of `m`.
fn write_entries(m: &Vec<(String, JsonValue)>, k: usize, out: &mut Vec<char>)
    requires
        k <= m@.len(),
    ensures
        final(out)@ == old(out)@ + json_text_entries(json_model_entries(m@.take(k as int))),
    decreases m, 0int, k,
{
    if k == 0 {
    } else {
        write_entries(m, k - 1, out);
        if k > 1 {
            out.push(',');
        }
        write_quoted(m[k - 1].0.as_str(), out);
        out.push(':');
        write_json(&m[k - 1].1, out);
        proof {
            lemma_json_model_entries(m@.take(k as int));
            lemma_json_model_entries(m@.take(k as int - 1));
            let ms = json_model_entries(m@.take(k as int));
            let msp = json_model_entries(m@.take(k as int - 1));
            assert(ms.subrange(0, ms.len() - 1) =~= msp);
            assert(ms[ms.len() - 1] == (m@[k as int - 1].0@, json_model(m@[k as int - 1].1)));
            assert(out@ =~= old(out)@ + json_text_entries(ms));
        }
    }
}

/// A copy of `v` with the same mathematical value.
pub fn clone_json(v: &JsonValue) -> (r: JsonValue)
    ensures
        r@ == v@,
    decreases v, 1int,
{
    match v {
        JsonValue::Null => JsonValue::Null,
        JsonValue::Bool(b) => JsonValue::Bool(*b),
        JsonValue::Int(i) => JsonValue::Int(*i),
        JsonValue::Str(s) => JsonValue::Str(s.clone()),
        JsonValue::Array(a) => {
            let r = JsonValue::Array(clone_items(a, a.len()));
            proof {
                assert(a@.take(a@.len() as int) =~= a@);
            }
            r
        },
        JsonValue::Object(m) => {
            let r = JsonValue::Object(clone_entries(m, m.len()));
            proof {
                assert(m@.take(m@.len() as int) =~= m@);
            }
            r
        },
    }
}

fn clone_items(a: &Vec<JsonValue>, k: usize) -> (r: Vec<JsonValue>)
    requires
        k <= a@.len(),
    ensures
        r@.len() == k,
        json_model_seq(r@) == json_model_seq(a@.take(k as int)),
    decreases a, 0int, k,
{
    if k == 0 {
        let r: Vec<JsonValue> = Vec::new();
        proof {
            assert(json_model_seq(r@) =~= json_model_seq(a@.take(0int)));
        }
        r
    } else {
        let mut r = clone_items(a, k - 1);
        let c = clone_json(&a[k - 1]);
        let ghost cv = c;
        let ghost prev = r@;
        r.push(c);
        proof {
            lemma_json_model_seq_push(prev, cv);
            let t = a@.take(k as int);
            assert(t.subrange(0, t.len() - 1) =~= a@.take(k as int - 1));
            assert(t[t.len() - 1] == a@[k as int - 1]);
            assert(json_model_seq(r@) =~= json_model_seq(t));
        }
        r
    }
}

/// A copy of the first `k` object entries of `m`, with the same mathematical value.
pub fn clone_entries(m: &Vec<(String, JsonValue)>, k: usize) -> (r: Vec<(String, JsonValue)>)
    requires
        k <= m@.len(),
    ensures
        r@.len() == k,
        json_model_entries(r@) == json_model_entries(m@.take(k as int)),
    decreases m, 0int, k,
{
    if k == 0 {
        let r: Vec<(String, JsonValue)> = Vec::new();
        proof {
            assert(json_model_entries(r@) =~= json_model_entries(m@.take(0int)));
        }
        r
    } else {
        let mut r = clone_entries(m, k - 1);
        let c = (m[k - 1].0.clone(), clone_json(&m[k - 1].1));
        let ghost cv = c;
        let ghost prev = r@;
        r.push(c);
        proof {
            lemma_json_model_entries_push(prev, cv);
            let t = m@.take(k as int);
            assert(t.subrange(0, t.len() - 1) =~= m@.take(k as int - 1));
            assert(t[t.len() - 1] == m@[k as int - 1]);
            assert(json_model_entries(r@) =~= json_model_entries(t));
        }
        r
    }
}

/// The decimal string of `n`.
pub fn u64_to_string(n: u64) -> (s: String)
    ensures
        s@ == dec_nat(n as nat),
{
    let mut out: Vec<char> = Vec::new();
    write_u64(n, &mut out);
    chars_to_string(out)
}

/// The value under `key` in a sequence of object entries: the first
/// entry with that key wins, as in a map built by repeated insertion.
pub open spec fn obj_lookup(m: Seq<(Seq<char>, JsonModel)>, key: Seq<char>) -> Option<JsonModel>
    decreases m.len(),
{
    if m.len() == 0 {
        None
    } else if m[0].0 == key {
        Some(m[0].1)
    } else {
        obj_lookup(m.subrange(1, m.len() as int), key)
    }
}

/// Find the first entry of `entries` whose key equals `key`.
pub fn lookup<'a>(entries: &'a Vec<(String, JsonValue)>, key: &String) -> (r: Option<
    &'a JsonValue,
>)
    ensures
        match r {
            Some(v) => obj_lookup(json_model_entries(entries@), key@) == Some(v@),
            None => obj_lookup(json_model_entries(entries@), key@) is None,
        },
{
    proof {
        lemma_json_model_entries(entries@);
    }
    let ghost me = json_model_entries(entries@);
    proof {
        assert(me.subrange(0, me.len() as int) =~= me);
    }
    let n = entries.len();
    let mut i: usize = 0;
    while i < n
        invariant
            i <= n,
            n == entries@.len(),
            me == json_model_entries(entries@),
            me.len() == n,
            forall|j: int| 0 <= j < me.len() ==> me[j] == (
                entries@[j].0@,
                json_model(entries@[j].1),
            ),
            obj_lookup(me.subrange(i as int, me.len() as int), key@) == obj_lookup(me, key@),
        decreases n - i,
    {
        if entries[i].0.eq(key) {
            proof {
                let tail = me.subrange(i as int, me.len() as int);
                assert(tail[0] == me[i as int]);
                assert(obj_lookup(tail, key@) == Some(me[i as int].1));
            }
            return Some(&entries[i].1);
        }
        proof {
            let tail = me.subrange(i as int, me.len() as int);
            assert(tail[0] == me[i as int]);
            assert(tail.subrange(1, tail.len() as int) =~= me.subrange(
                i as int + 1,
                me.len() as int,
            ));
        }
        i = i + 1;
    }
    proof {
        assert(me.subrange(n as int, me.len() as int) =~= Seq::<(Seq<char>, JsonModel)>::empty());
    }
    None
}

/// The verified JSON encoder: the returned text is exactly [`json_text`] of `v`.
pub fn json_to_string(v: &JsonValue) -> (s: String)
    ensures
        s@ == json_text(v@),
{
    let mut out: Vec<char> = Vec::new();
    write_json(v, &mut out);
    chars_to_string(out)
}

} // verus!
