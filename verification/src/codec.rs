//! The snapshot codec: converts a whole collection snapshot to and from its
//! durable text representation, a pretty-printed, self-describing format.
//! A snapshot is laid out as an array of records, each record as an object
//! of named fields, and a field value is an unsigned integer, a boolean,
//! null, a quoted string or an array of quoted strings.
//!
//! Encoding is canonical: the decoder accepts exactly the text the encoder
//! produces, and its contract states both soundness (whatever decodes is the
//! encoding of the decoded value) and completeness (the encoding of any
//! valid value decodes back to it).

use vstd::prelude::*;
use crate::text::{plain_char, plain_text, is_plain_str};

verus! {

/// One field value of a record.
pub enum FieldValue {
    U64(u64),
    Bool(bool),
    Null,
    Str(String),
    StrList(Vec<String>),
}

/// The mathematical value of a `FieldValue`.
pub enum FieldValueV {
    U64(u64),
    Bool(bool),
    Null,
    Str(Seq<char>),
    StrList(Seq<Seq<char>>),
}

impl View for FieldValue {
    type V = FieldValueV;

    open spec fn view(&self) -> FieldValueV {
        match self {
            FieldValue::U64(n) => FieldValueV::U64(*n),
            FieldValue::Bool(b) => FieldValueV::Bool(*b),
            FieldValue::Null => FieldValueV::Null,
            FieldValue::Str(s) => FieldValueV::Str(s@),
            FieldValue::StrList(v) => FieldValueV::StrList(v.deep_view()),
        }
    }
}

impl DeepView for FieldValue {
    type V = FieldValueV;

    open spec fn deep_view(&self) -> FieldValueV {
        self.view()
    }
}

/// One named field of a record.
pub struct Field {
    pub name: String,
    pub value: FieldValue,
}

/// The mathematical value of a `Field`.
pub struct FieldV {
    pub name: Seq<char>,
    pub value: FieldValueV,
}

impl View for Field {
    type V = FieldV;

    open spec fn view(&self) -> FieldV {
        FieldV { name: self.name@, value: self.value@ }
    }
}

impl DeepView for Field {
    type V = FieldV;

    open spec fn deep_view(&self) -> FieldV {
        self.view()
    }
}

/// A value is encodable when all its text is plain.
pub open spec fn valid_value(v: FieldValueV) -> bool {
    match v {
        FieldValueV::U64(_) => true,
        FieldValueV::Bool(_) => true,
        FieldValueV::Null => true,
        FieldValueV::Str(s) => plain_text(s),
        FieldValueV::StrList(items) => forall|i: int|
            0 <= i < items.len() ==> plain_text(#[trigger] items[i]),
    }
}

pub open spec fn valid_field(f: FieldV) -> bool {
    plain_text(f.name) && valid_value(f.value)
}

/// A record's field list is encodable when every field is and the record has
/// at least one field (every record carries at least its identity).
pub open spec fn valid_fields(fs: Seq<FieldV>) -> bool {
    &&& fs.len() >= 1
    &&& forall|i: int| 0 <= i < fs.len() ==> valid_field(#[trigger] fs[i])
}

pub open spec fn valid_snapshot_fields(items: Seq<Seq<FieldV>>) -> bool {
    forall|i: int| 0 <= i < items.len() ==> valid_fields(#[trigger] items[i])
}

// ---------------------------------------------------------------------------
// decimal numerals
// ---------------------------------------------------------------------------

pub open spec fn digit_char(d: nat) -> char {
    if d == 0 { '0' }
    else if d == 1 { '1' }
    else if d == 2 { '2' }
    else if d == 3 { '3' }
    else if d == 4 { '4' }
    else if d == 5 { '5' }
    else if d == 6 { '6' }
    else if d == 7 { '7' }
    else if d == 8 { '8' }
    else { '9' }
}

/// The value of a digit character, or 10 for any other character.
pub open spec fn digit_val(c: char) -> nat {
    if c == '0' { 0 }
    else if c == '1' { 1 }
    else if c == '2' { 2 }
    else if c == '3' { 3 }
    else if c == '4' { 4 }
    else if c == '5' { 5 }
    else if c == '6' { 6 }
    else if c == '7' { 7 }
    else if c == '8' { 8 }
    else if c == '9' { 9 }
    else { 10 }
}

pub open spec fn is_digit(c: char) -> bool {
    digit_val(c) < 10
}

/// The decimal numeral of `n`, most significant digit first, no leading zero.
pub open spec fn dec_u64(n: nat) -> Seq<char>
    decreases n,
{
    if n < 10 {
        seq![digit_char(n)]
    } else {
        dec_u64(n / 10).push(digit_char(n % 10))
    }
}

/// The value of a digit string.
pub open spec fn val_digits(s: Seq<char>) -> nat
    decreases s.len(),
{
    if s.len() == 0 {
        0
    } else {
        val_digits(s.drop_last()) * 10 + digit_val(s.last())
    }
}

pub open spec fn all_digits(s: Seq<char>) -> bool {
    forall|i: int| 0 <= i < s.len() ==> is_digit(#[trigger] s[i])
}

pub proof fn lemma_digit_roundtrip(d: nat)
    requires
        d < 10,
    ensures
        digit_val(digit_char(d)) == d,
        is_digit(digit_char(d)),
{
}

pub proof fn lemma_dec_u64_props(n: nat)
    ensures
        dec_u64(n).len() >= 1,
        all_digits(dec_u64(n)),
        val_digits(dec_u64(n)) == n,
        n > 0 ==> dec_u64(n)[0] != '0',
    decreases n,
{
    if n < 10 {
        lemma_digit_roundtrip(n);
        let s = dec_u64(n);
        assert(s =~= seq![digit_char(n)]);
        assert(s.drop_last() =~= Seq::<char>::empty());
        assert(s.last() == s[0]);
        assert(val_digits(Seq::<char>::empty()) == 0);
        assert(val_digits(s) == digit_val(s[0]));
    } else {
        lemma_dec_u64_props(n / 10);
        lemma_digit_roundtrip(n % 10);
        let p = dec_u64(n / 10);
        let s = dec_u64(n);
        assert(s == p.push(digit_char(n % 10)));
        assert(s.drop_last() =~= p);
        assert(s.last() == digit_char(n % 10));
        assert(val_digits(s) == (n / 10) * 10 + n % 10);
        assert((n / 10) * 10 + n % 10 == n) by (nonlinear_arith);
        assert(s[0] == p[0]);
    }
}

/// A digit string with no leading zero is the numeral of its value.
pub proof fn lemma_digits_canonical(s: Seq<char>)
    requires
        s.len() >= 1,
        all_digits(s),
        s.len() > 1 ==> s[0] != '0',
    ensures
        val_digits(s) >= 1 ==> s[0] != '0',
        dec_u64(val_digits(s)) == s,
    decreases s.len(),
{
    if s.len() == 1 {
        assert(s.drop_last() =~= Seq::<char>::empty());
        assert(s.last() == s[0]);
        assert(val_digits(Seq::<char>::empty()) == 0);
        assert(val_digits(s) == digit_val(s[0]));
        lemma_digit_roundtrip(digit_val(s[0]));
        assert(dec_u64(val_digits(s)) =~= s);
    } else {
        let p = s.drop_last();
        let d = digit_val(s.last());
        lemma_digits_canonical(p);
        assert(val_digits(p) >= 1) by {
            if val_digits(p) == 0 {
                lemma_val_digits_zero(p);
            }
        }
        let v = val_digits(s);
        assert(v == val_digits(p) * 10 + d);
        assert(v >= 10) by (nonlinear_arith)
            requires v == val_digits(p) * 10 + d, val_digits(p) >= 1, d >= 0;
        assert(v / 10 == val_digits(p) && v % 10 == d) by (nonlinear_arith)
            requires v == val_digits(p) * 10 + d, 0 <= d < 10;
        assert(dec_u64(v) == dec_u64(val_digits(p)).push(digit_char(d)));
        assert(digit_char(digit_val(s.last())) == s.last());
        assert(dec_u64(v) =~= s);
        assert(s[0] == p[0]);
    }
}

/// A nonzero-valued digit string starts with a nonzero digit somewhere:
/// if its value is zero every digit is zero.
proof fn lemma_val_digits_zero(s: Seq<char>)
    requires
        s.len() >= 1,
        all_digits(s),
        val_digits(s) == 0,
    ensures
        s[0] == '0',
    decreases s.len(),
{
    if s.len() == 1 {
        assert(s.drop_last() =~= Seq::<char>::empty());
    } else {
        let p = s.drop_last();
        assert(val_digits(p) * 10 <= val_digits(s)) by (nonlinear_arith)
            requires val_digits(s) == val_digits(p) * 10 + digit_val(s.last());
        lemma_val_digits_zero(p);
        assert(s[0] == p[0]);
    }
}

/// The value of a digit-string prefix never exceeds the value of the whole.
pub proof fn lemma_val_digits_prefix(s: Seq<char>, k: int)
    requires
        all_digits(s),
        0 <= k <= s.len(),
    ensures
        val_digits(s.take(k)) <= val_digits(s),
    decreases s.len() - k,
{
    if k < s.len() {
        lemma_val_digits_prefix(s, k + 1);
        let t = s.take(k + 1);
        assert(t.drop_last() =~= s.take(k));
        assert(t.last() == s[k]);
        assert(val_digits(s.take(k)) <= val_digits(t)) by (nonlinear_arith)
            requires val_digits(t) == val_digits(s.take(k)) * 10 + digit_val(s[k]);
    } else {
        assert(s.take(k) =~= s);
    }
}

// ---------------------------------------------------------------------------
// the encoding
// ---------------------------------------------------------------------------

/// Lines joined by the separator `",\n"`.
pub open spec fn joined(lines: Seq<Seq<char>>) -> Seq<char>
    decreases lines.len(),
{
    if lines.len() == 0 {
        Seq::empty()
    } else if lines.len() == 1 {
        lines[0]
    } else {
        lines[0] + seq![',', '\n'] + joined(lines.drop_first())
    }
}

pub proof fn lemma_joined_push(lines: Seq<Seq<char>>, x: Seq<char>)
    requires
        lines.len() >= 1,
    ensures
        joined(lines.push(x)) == joined(lines) + seq![',', '\n'] + x,
    decreases lines.len(),
{
    if lines.len() == 1 {
        let p = lines.push(x);
        assert(p.drop_first() =~= seq![x]);
        assert(joined(p.drop_first()) == x);
        assert(joined(lines.push(x)) =~= joined(lines) + seq![',', '\n'] + x);
    } else {
        lemma_joined_push(lines.drop_first(), x);
        assert(lines.push(x).drop_first() =~= lines.drop_first().push(x));
        assert(joined(lines.push(x)) =~= joined(lines) + seq![',', '\n'] + x);
    }
}

/// The encoding of one value.
pub open spec fn enc_value(v: FieldValueV) -> Seq<char> {
    match v {
        FieldValueV::U64(n) => dec_u64(n as nat),
        FieldValueV::Bool(b) => if b { seq!['t', 'r', 'u', 'e'] } else {
            seq!['f', 'a', 'l', 's', 'e']
        },
        FieldValueV::Null => seq!['n', 'u', 'l', 'l'],
        FieldValueV::Str(s) => seq!['"'] + s + seq!['"'],
        FieldValueV::StrList(items) => if items.len() == 0 {
            seq!['[', ']']
        } else {
            seq!['[', '\n'] + joined(items.map_values(|s: Seq<char>| list_line(s)))
                + seq!['\n', ' ', ' ', ' ', ' ', ']']
        },
    }
}

/// One line of a string-list value: six spaces of indent and a quoted string.
pub open spec fn list_line(s: Seq<char>) -> Seq<char> {
    seq![' ', ' ', ' ', ' ', ' ', ' ', '"'] + s + seq!['"']
}

/// One field line: four spaces of indent, the quoted name, a colon, the value.
pub open spec fn field_line(f: FieldV) -> Seq<char> {
    seq![' ', ' ', ' ', ' ', '"'] + f.name + seq!['"', ':', ' '] + enc_value(f.value)
}

/// One record: an object block of field lines at two spaces of indent.
pub open spec fn enc_item(fs: Seq<FieldV>) -> Seq<char> {
    seq![' ', ' ', '{', '\n'] + joined(fs.map_values(|f: FieldV| field_line(f)))
        + seq!['\n', ' ', ' ', '}']
}

/// A whole snapshot: an array of record objects.
pub open spec fn enc_snapshot(items: Seq<Seq<FieldV>>) -> Seq<char> {
    if items.len() == 0 {
        seq!['[', ']']
    } else {
        seq!['[', '\n'] + joined(items.map_values(|fs: Seq<FieldV>| enc_item(fs)))
            + seq!['\n', ']']
    }
}


// ---------------------------------------------------------------------------
// literal pieces of the format
// ---------------------------------------------------------------------------

fn lit_true() -> (r: &'static str)
    ensures
        r@ == seq!['t', 'r', 'u', 'e'],
{
    proof {
        reveal_strlit("true");
        assert("true"@ =~= seq!['t', 'r', 'u', 'e']);
    }
    "true"
}

fn lit_false() -> (r: &'static str)
    ensures
        r@ == seq!['f', 'a', 'l', 's', 'e'],
{
    proof {
        reveal_strlit("false");
        assert("false"@ =~= seq!['f', 'a', 'l', 's', 'e']);
    }
    "false"
}

fn lit_null() -> (r: &'static str)
    ensures
        r@ == seq!['n', 'u', 'l', 'l'],
{
    proof {
        reveal_strlit("null");
        assert("null"@ =~= seq!['n', 'u', 'l', 'l']);
    }
    "null"
}

fn lit_quote() -> (r: &'static str)
    ensures
        r@ == seq!['"'],
{
    proof {
        reveal_strlit("\"");
        assert("\""@ =~= seq!['"']);
    }
    "\""
}

fn lit_empty_array() -> (r: &'static str)
    ensures
        r@ == seq!['[', ']'],
{
    proof {
        reveal_strlit("[]");
        assert("[]"@ =~= seq!['[', ']']);
    }
    "[]"
}

fn lit_array_open() -> (r: &'static str)
    ensures
        r@ == seq!['[', '\n'],
{
    proof {
        reveal_strlit("[\n");
        assert("[\n"@ =~= seq!['[', '\n']);
    }
    "[\n"
}

fn lit_array_close() -> (r: &'static str)
    ensures
        r@ == seq!['\n', ']'],
{
    proof {
        reveal_strlit("\n]");
        assert("\n]"@ =~= seq!['\n', ']']);
    }
    "\n]"
}

fn lit_item_open() -> (r: &'static str)
    ensures
        r@ == seq![' ', ' ', '{', '\n'],
{
    proof {
        reveal_strlit("  {\n");
        assert("  {\n"@ =~= seq![' ', ' ', '{', '\n']);
    }
    "  {\n"
}

fn lit_item_close() -> (r: &'static str)
    ensures
        r@ == seq!['\n', ' ', ' ', '}'],
{
    proof {
        reveal_strlit("\n  }");
        assert("\n  }"@ =~= seq!['\n', ' ', ' ', '}']);
    }
    "\n  }"
}

fn lit_sep() -> (r: &'static str)
    ensures
        r@ == seq![',', '\n'],
{
    proof {
        reveal_strlit(",\n");
        assert(",\n"@ =~= seq![',', '\n']);
    }
    ",\n"
}

fn lit_ind4_quote() -> (r: &'static str)
    ensures
        r@ == seq![' ', ' ', ' ', ' ', '"'],
{
    proof {
        reveal_strlit("    \"");
        assert("    \""@ =~= seq![' ', ' ', ' ', ' ', '"']);
    }
    "    \""
}

fn lit_ind6_quote() -> (r: &'static str)
    ensures
        r@ == seq![' ', ' ', ' ', ' ', ' ', ' ', '"'],
{
    proof {
        reveal_strlit("      \"");
        assert("      \""@ =~= seq![' ', ' ', ' ', ' ', ' ', ' ', '"']);
    }
    "      \""
}

fn lit_name_end() -> (r: &'static str)
    ensures
        r@ == seq!['"', ':', ' '],
{
    proof {
        reveal_strlit("\": ");
        assert("\": "@ =~= seq!['"', ':', ' ']);
    }
    "\": "
}

fn lit_list_close() -> (r: &'static str)
    ensures
        r@ == seq!['\n', ' ', ' ', ' ', ' ', ']'],
{
    proof {
        reveal_strlit("\n    ]");
        assert("\n    ]"@ =~= seq!['\n', ' ', ' ', ' ', ' ', ']']);
    }
    "\n    ]"
}

// ---------------------------------------------------------------------------
// the encoder
// ---------------------------------------------------------------------------

fn digit_str(d: u64) -> (r: &'static str)
    requires
        d < 10,
    ensures
        r@ == seq![digit_char(d as nat)],
{
    if d == 0 {
        proof { reveal_strlit("0"); assert("0"@ =~= seq![digit_char(0)]); }
        "0"
    } else if d == 1 {
        proof { reveal_strlit("1"); assert("1"@ =~= seq![digit_char(1)]); }
        "1"
    } else if d == 2 {
        proof { reveal_strlit("2"); assert("2"@ =~= seq![digit_char(2)]); }
        "2"
    } else if d == 3 {
        proof { reveal_strlit("3"); assert("3"@ =~= seq![digit_char(3)]); }
        "3"
    } else if d == 4 {
        proof { reveal_strlit("4"); assert("4"@ =~= seq![digit_char(4)]); }
        "4"
    } else if d == 5 {
        proof { reveal_strlit("5"); assert("5"@ =~= seq![digit_char(5)]); }
        "5"
    } else if d == 6 {
        proof { reveal_strlit("6"); assert("6"@ =~= seq![digit_char(6)]); }
        "6"
    } else if d == 7 {
        proof { reveal_strlit("7"); assert("7"@ =~= seq![digit_char(7)]); }
        "7"
    } else if d == 8 {
        proof { reveal_strlit("8"); assert("8"@ =~= seq![digit_char(8)]); }
        "8"
    } else {
        proof { reveal_strlit("9"); assert("9"@ =~= seq![digit_char(9)]); }
        "9"
    }
}

/// Renders `n` as its decimal numeral.
pub fn u64_dec_str(n: u64) -> (r: String)
    ensures
        r@ == dec_u64(n as nat),
    decreases n,
{
    if n < 10 {
        String::from_str(digit_str(n))
    } else {
        let mut s = u64_dec_str(n / 10);
        s.append(digit_str(n % 10));
        proof {
            assert(dec_u64((n / 10) as nat) + seq![digit_char((n % 10) as nat)]
                =~= dec_u64((n / 10) as nat).push(digit_char((n % 10) as nat)));
        }
        s
    }
}

#[verifier::loop_isolation(false)]
fn check_value_valid(v: &FieldValue) -> (r: bool)
    ensures
        r == valid_value(v@),
{
    match v {
        FieldValue::U64(_) => true,
        FieldValue::Bool(_) => true,
        FieldValue::Null => true,
        FieldValue::Str(s) => is_plain_str(s.as_str()),
        FieldValue::StrList(items) => {
            let n = items.len();
            proof {
                assert(items.deep_view().len() == items@.len());
            }
            let mut k: usize = 0;
            while k < n
                invariant
                    n == items@.len(),
                    0 <= k <= n,
                    forall|i: int| 0 <= i < k ==> plain_text(#[trigger] items.deep_view()[i]),
                decreases n - k,
            {
                if !is_plain_str(items[k].as_str()) {
                    proof {
                        assert(v@->StrList_0 =~= items.deep_view());
                        assert(items.deep_view()[k as int] == items@[k as int]@);
                        assert(!plain_text(items.deep_view()[k as int]));
                    }
                    return false;
                }
                k = k + 1;
            }
            true
        },
    }
}

#[verifier::loop_isolation(false)]
fn check_fields_valid(fs: &Vec<Field>) -> (r: bool)
    ensures
        r == valid_fields(fs.deep_view()),
{
    let n = fs.len();
    proof {
        assert(fs.deep_view().len() == fs@.len());
    }
    if n == 0 {
        return false;
    }
    let mut k: usize = 0;
    while k < n
        invariant
            n == fs@.len(),
            0 <= k <= n,
            forall|i: int| 0 <= i < k ==> valid_field(#[trigger] fs.deep_view()[i]),
        decreases n - k,
    {
        proof {
            assert(fs.deep_view()[k as int] == fs@[k as int]@);
        }
        if !is_plain_str(fs[k].name.as_str()) {
            assert(!valid_field(fs.deep_view()[k as int]));
            return false;
        }
        if !check_value_valid(&fs[k].value) {
            assert(!valid_field(fs.deep_view()[k as int]));
            return false;
        }
        k = k + 1;
    }
    true
}

#[verifier::loop_isolation(false)]
fn append_value(out: &mut String, v: &FieldValue)
    requires
        valid_value(v@),
    ensures
        final(out)@ == old(out)@ + enc_value(v@),
{
    match v {
        FieldValue::U64(n) => {
            let d = u64_dec_str(*n);
            out.append(d.as_str());
        },
        FieldValue::Bool(b) => {
            if *b {
                out.append(lit_true());
            } else {
                out.append(lit_false());
            }
        },
        FieldValue::Null => {
            out.append(lit_null());
        },
        FieldValue::Str(s) => {
            out.append(lit_quote());
            out.append(s.as_str());
            out.append(lit_quote());
            proof {
                assert(old(out)@ + seq!['"'] + s@ + seq!['"']
                    =~= old(out)@ + (seq!['"'] + s@ + seq!['"']));
            }
        },
        FieldValue::StrList(items) => {
            let n = items.len();
            if n == 0 {
                out.append(lit_empty_array());
            } else {
                let ghost lines = items.deep_view().map_values(|s: Seq<char>| list_line(s));
                let ghost base = old(out)@ + seq!['[', '\n'];
                proof {
                    assert(items.deep_view().len() == items@.len());
                }
                out.append(lit_array_open());
                out.append(lit_ind6_quote());
                out.append(items[0].as_str());
                out.append(lit_quote());
                proof {
                    assert(items.deep_view()[0] == items@[0]@);
                    assert(lines[0] == list_line(items.deep_view()[0]));
                    assert(out@ =~= base + joined(lines.take(1))) by {
                        assert(lines.take(1) =~= seq![lines[0]]);
                        assert(joined(lines.take(1)) == lines[0]);
                        assert(out@ =~= base + lines[0]);
                    }
                }
                let mut k: usize = 1;
                while k < n
                    invariant
                        1 <= k <= n,
                        n == items@.len(),
                        valid_value(FieldValueV::StrList(items.deep_view())),
                        lines == items.deep_view().map_values(|s: Seq<char>| list_line(s)),
                        out@ == base + joined(lines.take(k as int)),
                    decreases n - k,
                {
                    out.append(lit_sep());
                    out.append(lit_ind6_quote());
                    out.append(items[k].as_str());
                    out.append(lit_quote());
                    proof {
                        lemma_joined_push(lines.take(k as int), lines[k as int]);
                        assert(lines.take(k as int).push(lines[k as int]) =~= lines.take(k + 1));
                        assert(items.deep_view()[k as int] == items@[k as int]@);
                        assert(lines[k as int] == list_line(items.deep_view()[k as int]));
                        assert(out@ =~= base + joined(lines.take(k + 1)));
                    }
                    k = k + 1;
                }
                out.append(lit_list_close());
                proof {
                    assert(lines.take(n as int) =~= lines);
                    assert(out@ =~= old(out)@ + enc_value(v@));
                }
            }
        },
    }
}

fn append_field(out: &mut String, f: &Field)
    requires
        valid_field(f@),
    ensures
        final(out)@ == old(out)@ + field_line(f@),
{
    out.append(lit_ind4_quote());
    out.append(f.name.as_str());
    out.append(lit_name_end());
    append_value(out, &f.value);
    proof {
        assert(out@ =~= old(out)@ + field_line(f@));
    }
}

#[verifier::loop_isolation(false)]
fn append_item(out: &mut String, fs: &Vec<Field>)
    requires
        valid_fields(fs.deep_view()),
    ensures
        final(out)@ == old(out)@ + enc_item(fs.deep_view()),
{
    let n = fs.len();
    let ghost lines = fs.deep_view().map_values(|f: FieldV| field_line(f));
    let ghost base = old(out)@ + seq![' ', ' ', '{', '\n'];
    proof {
        assert(fs.deep_view().len() == fs@.len());
        assert(fs.deep_view()[0] == fs@[0]@);
    }
    out.append(lit_item_open());
    append_field(out, &fs[0]);
    proof {
        assert(lines[0] == field_line(fs.deep_view()[0]));
        assert(lines.take(1) =~= seq![lines[0]]);
        assert(joined(lines.take(1)) == lines[0]);
        assert(out@ =~= base + joined(lines.take(1)));
    }
    let mut k: usize = 1;
    while k < n
        invariant
            1 <= k <= n,
            n == fs@.len(),
            valid_fields(fs.deep_view()),
            lines == fs.deep_view().map_values(|f: FieldV| field_line(f)),
            out@ == base + joined(lines.take(k as int)),
        decreases n - k,
    {
        proof {
            assert(fs.deep_view()[k as int] == fs@[k as int]@);
        }
        out.append(lit_sep());
        append_field(out, &fs[k]);
        proof {
            lemma_joined_push(lines.take(k as int), lines[k as int]);
            assert(lines.take(k as int).push(lines[k as int]) =~= lines.take(k + 1));
            assert(lines[k as int] == field_line(fs.deep_view()[k as int]));
            assert(out@ =~= base + joined(lines.take(k + 1)));
        }
        k = k + 1;
    }
    out.append(lit_item_close());
    proof {
        assert(lines.take(n as int) =~= lines);
        assert(out@ =~= old(out)@ + enc_item(fs.deep_view()));
    }
}

/// Encodes a whole snapshot, already laid out as field lists, to its durable
/// text; fails exactly when some record is not encodable (text that is not
/// plain, or a record without fields).
#[verifier::loop_isolation(false)]
pub fn encode_snapshot_text(items: &Vec<Vec<Field>>) -> (r: Option<String>)
    ensures
        match r {
            Some(s) => valid_snapshot_fields(items.deep_view()) && s@ == enc_snapshot(
                items.deep_view(),
            ),
            None => !valid_snapshot_fields(items.deep_view()),
        },
{
    let n = items.len();
    proof {
        assert(items.deep_view().len() == items@.len());
    }
    let mut k: usize = 0;
    while k < n
        invariant
            0 <= k <= n,
            n == items@.len(),
            items.deep_view().len() == n,
            forall|i: int| 0 <= i < k ==> valid_fields(#[trigger] items.deep_view()[i]),
        decreases n - k,
    {
        proof {
            assert(items.deep_view()[k as int] == items@[k as int].deep_view());
        }
        if !check_fields_valid(&items[k]) {
            assert(!valid_fields(items.deep_view()[k as int]));
            return None;
        }
        k = k + 1;
    }
    let mut out = String::new();
    if n == 0 {
        out.append(lit_empty_array());
        proof {
            assert(out@ =~= enc_snapshot(items.deep_view()));
        }
        return Some(out);
    }
    let ghost lines = items.deep_view().map_values(|fs: Seq<FieldV>| enc_item(fs));
    let ghost base = seq!['[', '\n'];
    out.append(lit_array_open());
    proof {
        assert(out@ =~= base);
    }
    proof {
        assert(items.deep_view()[0] == items@[0].deep_view());
    }
    append_item(&mut out, &items[0]);
    proof {
        assert(lines[0] == enc_item(items.deep_view()[0]));
        assert(lines.take(1) =~= seq![lines[0]]);
        assert(joined(lines.take(1)) == lines[0]);
        assert(out@ =~= base + joined(lines.take(1)));
    }
    let mut k: usize = 1;
    while k < n
        invariant
            1 <= k <= n,
            n == items@.len(),
            valid_snapshot_fields(items.deep_view()),
            lines == items.deep_view().map_values(|fs: Seq<FieldV>| enc_item(fs)),
            out@ == base + joined(lines.take(k as int)),
        decreases n - k,
    {
        proof {
            assert(items.deep_view()[k as int] == items@[k as int].deep_view());
        }
        out.append(lit_sep());
        append_item(&mut out, &items[k]);
        proof {
            lemma_joined_push(lines.take(k as int), lines[k as int]);
            assert(lines.take(k as int).push(lines[k as int]) =~= lines.take(k + 1));
            assert(lines[k as int] == enc_item(items.deep_view()[k as int]));
            assert(out@ =~= base + joined(lines.take(k + 1)));
        }
        k = k + 1;
    }
    out.append(lit_array_close());
    proof {
        assert(lines.take(n as int) =~= lines);
        assert(out@ =~= enc_snapshot(items.deep_view()));
    }
    Some(out)
}



// ---------------------------------------------------------------------------
// the decoder
// ---------------------------------------------------------------------------

pub proof fn lemma_subrange_split(s: Seq<char>, i: int, mid: int, j: int)
    requires
        0 <= i <= mid <= j <= s.len(),
    ensures
        s.subrange(i, j) == s.subrange(i, mid) + s.subrange(mid, j),
{
    assert(s.subrange(i, j) =~= s.subrange(i, mid) + s.subrange(mid, j));
}

pub proof fn lemma_concat_inj(x: Seq<char>, y: Seq<char>, a: Seq<char>, b: Seq<char>)
    requires
        x + y == a + b,
        x.len() == a.len(),
    ensures
        x == a,
        y == b,
{
    assert forall|k: int| 0 <= k < x.len() implies x[k] == a[k] by {
        assert((x + y)[k] == x[k]);
        assert((a + b)[k] == a[k]);
    }
    assert(x =~= a);
    assert((x + y).len() == x.len() + y.len());
    assert((a + b).len() == a.len() + b.len());
    assert(y.len() == b.len());
    assert forall|k: int| 0 <= k < y.len() implies y[k] == b[k] by {
        assert(0 <= x.len() + k < (x + y).len());
        assert((x + y)[x.len() + k] == y[k]);
        assert((a + b)[a.len() + k] == b[k]);
    }
    assert(y =~= b);
}

fn lit_ind4() -> (r: &'static str)
    ensures
        r@ == seq![' ', ' ', ' ', ' '],
{
    proof {
        reveal_strlit("    ");
        assert("    "@ =~= seq![' ', ' ', ' ', ' ']);
    }
    "    "
}

fn lit_ind6() -> (r: &'static str)
    ensures
        r@ == seq![' ', ' ', ' ', ' ', ' ', ' '],
{
    proof {
        reveal_strlit("      ");
        assert("      "@ =~= seq![' ', ' ', ' ', ' ', ' ', ' ']);
    }
    "      "
}

fn digit_of(c: char) -> (r: u64)
    ensures
        r == digit_val(c),
{
    if c == '0' { 0 }
    else if c == '1' { 1 }
    else if c == '2' { 2 }
    else if c == '3' { 3 }
    else if c == '4' { 4 }
    else if c == '5' { 5 }
    else if c == '6' { 6 }
    else if c == '7' { 7 }
    else if c == '8' { 8 }
    else if c == '9' { 9 }
    else { 10 }
}

/// Consumes the exact text `pat` at position `i`, and fails exactly when it
/// does not stand there.
#[verifier::loop_isolation(false)]
fn expect_lit(s: &str, n: usize, i: usize, pat: &str) -> (r: Option<usize>)
    requires
        n == s@.len(),
        i <= n,
    ensures
        match r {
            Some(j) => i + pat@.len() == j && j <= n && s@.subrange(i as int, j as int) == pat@,
            None => !(i + pat@.len() <= n && s@.subrange(i as int, i + pat@.len()) == pat@),
        },
{
    let pn = pat.unicode_len();
    if pn > n - i {
        return None;
    }
    let mut k: usize = 0;
    while k < pn
        invariant
            0 <= k <= pn,
            forall|m: int| 0 <= m < k ==> s@[i + m] == pat@[m],
        decreases pn - k,
    {
        if s.get_char(i + k) != pat.get_char(k) {
            proof {
                assert(s@.subrange(i as int, i + pat@.len())[k as int] != pat@[k as int]);
            }
            return None;
        }
        k = k + 1;
    }
    proof {
        assert(s@.subrange(i as int, i + pat@.len()) =~= pat@);
    }
    Some(i + pn)
}

/// Parses a decimal numeral. Sound: what it returns is the canonical numeral
/// of the value. Complete: wherever a canonical numeral stands, delimited by
/// the end of input or a non-digit, it is returned with its exact extent.
#[verifier::loop_isolation(false)]
fn parse_u64(s: &str, n: usize, i: usize) -> (r: Option<(u64, usize)>)
    requires
        n == s@.len(),
        i <= n,
    ensures
        r matches Some(p) ==> i < p.1 <= n && s@.subrange(i as int, p.1 as int) == dec_u64(
            p.0 as nat,
        ),
        forall|m: u64, j: int|
            i <= j <= n && s@.subrange(i as int, j) == dec_u64(m as nat) && (j == n || !is_digit(
                s@[j],
            )) ==> r == Some((m, j as usize)),
{
    if i == n {
        proof {
            assert forall|m: u64, j: int|
                !(i <= j <= n && s@.subrange(i as int, j) == dec_u64(m as nat)) by {
                if i <= j <= n && s@.subrange(i as int, j) == dec_u64(m as nat) {
                    lemma_dec_u64_props(m as nat);
                    assert(s@.subrange(i as int, j).len() == j - i);
                }
            }
        }
        return None;
    }
    let c0 = s.get_char(i);
    let d0 = digit_of(c0);
    if d0 >= 10 {
        proof {
            assert forall|m: u64, j: int|
                !(i <= j <= n && s@.subrange(i as int, j) == dec_u64(m as nat)) by {
                if i <= j <= n && s@.subrange(i as int, j) == dec_u64(m as nat) {
                    lemma_dec_u64_props(m as nat);
                    assert(s@.subrange(i as int, j).len() == j - i);
                    assert(s@.subrange(i as int, j)[0] == s@[i as int]);
                    assert(is_digit(dec_u64(m as nat)[0]));
                }
            }
        }
        return None;
    }
    if c0 == '0' {
        // a canonical numeral never has a leading zero, so this is the numeral 0
        proof {
            assert(s@.subrange(i as int, i + 1) =~= seq![s@[i as int]]);
            assert(dec_u64(0) =~= seq![digit_char(0)]);
            assert forall|m: u64, j: int|
                i <= j <= n && s@.subrange(i as int, j) == dec_u64(m as nat) && (j == n
                    || !is_digit(s@[j])) implies (m, j as usize) == (0u64, (i + 1) as usize) by {
                lemma_dec_u64_props(m as nat);
                assert(s@.subrange(i as int, j).len() == j - i);
                assert(s@.subrange(i as int, j)[0] == s@[i as int]);
                if m > 0 {
                    assert(dec_u64(m as nat)[0] != '0');
                }
                assert(m == 0);
                assert(j - i == dec_u64(0).len());
            }
        }
        return Some((0, i + 1));
    }
    let mut acc: u64 = d0;
    let mut j: usize = i + 1;
    proof {
        assert(s@.subrange(i as int, i + 1) =~= seq![s@[i as int]]);
        assert(s@.subrange(i as int, i + 1).drop_last() =~= Seq::<char>::empty());
        assert(val_digits(Seq::<char>::empty()) == 0);
        assert(s@.subrange(i as int, i + 1).last() == s@[i as int]);
        assert(val_digits(s@.subrange(i as int, j as int)) == d0);
    }
    loop
        invariant
            n == s@.len(),
            i < j <= n,
            all_digits(s@.subrange(i as int, j as int)),
            s@[i as int] != '0',
            s@.subrange(i as int, j as int)[0] == s@[i as int],
            acc as nat == val_digits(s@.subrange(i as int, j as int)),
        decreases n - j,
    {
        if j == n {
            break;
        }
        let c = s.get_char(j);
        let d = digit_of(c);
        if d >= 10 {
            break;
        }
        // the next digit extends the numeral; fail on a value out of range
        let ten: u64 = 10;
        let shifted = match acc.checked_mul(ten) {
            Some(x) => match x.checked_add(d) {
                Some(y) => Some(y),
                None => None,
            },
            None => None,
        };
        match shifted {
            Some(next) => {
                proof {
                    let t = s@.subrange(i as int, j + 1);
                    assert(t.drop_last() =~= s@.subrange(i as int, j as int));
                    assert(t.last() == s@[j as int]);
                    assert(all_digits(t));
                    assert(val_digits(t) == acc as nat * 10 + d);
                }
                acc = next;
                j = j + 1;
            },
            None => {
                // the digits from `i` name a value beyond the largest
                // representable one, so no candidate numeral stands here
                proof {
                    let t = s@.subrange(i as int, j + 1);
                    assert(t.drop_last() =~= s@.subrange(i as int, j as int));
                    assert(t.last() == s@[j as int]);
                    assert(all_digits(t));
                    assert(val_digits(t) == acc as nat * 10 + d);
                    assert(val_digits(t) > u64::MAX);
                    assert forall|m: u64, jc: int|
                        !(i <= jc <= n && s@.subrange(i as int, jc) == dec_u64(m as nat) && (jc
                            == n || !is_digit(s@[jc]))) by {
                        if i <= jc <= n && s@.subrange(i as int, jc) == dec_u64(m as nat) && (jc
                            == n || !is_digit(s@[jc])) {
                            lemma_dec_u64_props(m as nat);
                            let cand = s@.subrange(i as int, jc);
                            assert(cand.len() == jc - i);
                            assert(all_digits(cand));
                            assert forall|q: int| i <= q < jc implies is_digit(s@[q]) by {
                                assert(cand[q - i] == s@[q]);
                            }
                            // every position up to j is a digit, so jc > j
                            assert(jc > j) by {
                                if jc < j {
                                    assert(s@.subrange(i as int, j as int)[jc - i] == s@[jc]);
                                    assert(is_digit(s@[jc]));
                                }
                            }
                            assert(cand.take(j + 1 - i) =~= t);
                            lemma_val_digits_prefix(cand, j + 1 - i);
                            assert(val_digits(cand) == m as nat);
                        }
                    }
                }
                return None;
            },
        }
    }
    proof {
        let run = s@.subrange(i as int, j as int);
        lemma_digits_canonical(run);
        assert(dec_u64(acc as nat) == run);
        assert forall|m: u64, jc: int|
            i <= jc <= n && s@.subrange(i as int, jc) == dec_u64(m as nat) && (jc == n
                || !is_digit(s@[jc])) implies (m, jc as usize) == (acc, j) by {
            lemma_dec_u64_props(m as nat);
            let cand = s@.subrange(i as int, jc);
            assert(cand.len() == jc - i);
            assert(all_digits(cand));
            assert forall|q: int| i <= q < jc implies is_digit(s@[q]) by {
                assert(cand[q - i] == s@[q]);
            }
            assert forall|q: int| i <= q < j implies is_digit(s@[q]) by {
                assert(run[q - i] == s@[q]);
            }
            assert(jc >= j) by {
                if jc < j {
                    assert(is_digit(s@[jc]));
                }
            }
            assert(jc <= j) by {
                if jc > j {
                    assert(is_digit(s@[j as int]));
                    assert(j < n);
                }
            }
            assert(cand =~= run);
            assert(val_digits(dec_u64(m as nat)) == m as nat);
            assert(m == acc);
        }
    }
    Some((acc, j))
}

/// Parses a quoted string of plain characters. Sound and complete: exactly
/// the quoted plain strings are recognized, with their exact extent.
#[verifier::loop_isolation(false)]
fn parse_quoted(s: &str, n: usize, i: usize) -> (r: Option<(String, usize)>)
    requires
        n == s@.len(),
        i <= n,
    ensures
        r matches Some(p) ==> i < p.1 <= n && plain_text(p.0@) && s@.subrange(
            i as int,
            p.1 as int,
        ) == seq!['"'] + p.0@ + seq!['"'],
        forall|u: Seq<char>, j: int|
            plain_text(u) && i <= j <= n && s@.subrange(i as int, j) == seq!['"'] + u + seq!['"']
                ==> (r matches Some(p) && p.0@ == u && p.1 == j),
{
    if i == n {
        proof {
            assert forall|u: Seq<char>, j: int|
                !(i <= j <= n && s@.subrange(i as int, j) == seq!['"'] + u + seq!['"']) by {
                if i <= j <= n && s@.subrange(i as int, j) == seq!['"'] + u + seq!['"'] {
                    assert(s@.subrange(i as int, j).len() == j - i);
                    assert((seq!['"'] + u + seq!['"']).len() == u.len() + 2);
                }
            }
        }
        return None;
    }
    if s.get_char(i) != '"' {
        proof {
            assert forall|u: Seq<char>, j: int|
                !(i <= j <= n && s@.subrange(i as int, j) == seq!['"'] + u + seq!['"']) by {
                if i <= j <= n && s@.subrange(i as int, j) == seq!['"'] + u + seq!['"'] {
                    assert(s@.subrange(i as int, j).len() == j - i);
                    assert((seq!['"'] + u + seq!['"']).len() == u.len() + 2);
                    assert(s@.subrange(i as int, j)[0] == s@[i as int]);
                    assert((seq!['"'] + u + seq!['"'])[0] == '"');
                }
            }
        }
        return None;
    }
    let mut k: usize = i + 1;
    loop
        invariant
            n == s@.len(),
            i < k <= n,
            s@[i as int] == '"',
            forall|m: int| i < m < k ==> plain_char(s@[m]) && s@[m] != '"',
        decreases n - k,
    {
        if k == n {
            // no closing quote can stand anywhere: fail
            proof {
                assert forall|u: Seq<char>, j: int|
                    !(plain_text(u) && i <= j <= n && s@.subrange(i as int, j) == seq!['"'] + u
                        + seq!['"']) by {
                    if plain_text(u) && i <= j <= n && s@.subrange(i as int, j) == seq!['"'] + u
                        + seq!['"'] {
                        assert(s@.subrange(i as int, j).len() == j - i);
                        assert((seq!['"'] + u + seq!['"']).len() == u.len() + 2);
                        assert(s@.subrange(i as int, j)[j - i - 1] == s@[j - 1]);
                        assert((seq!['"'] + u + seq!['"'])[j - i - 1] == '"');
                        assert(i < j - 1 < k);
                    }
                }
            }
            return None;
        }
        let c = s.get_char(k);
        if c == '"' {
            let text = String::from_str(s.substring_char(i + 1, k));
            proof {
                assert(s@.subrange(i as int, k + 1) =~= seq!['"'] + s@.subrange(i + 1, k as int)
                    + seq!['"']);
                assert forall|m: int| 0 <= m < text@.len() implies plain_char(text@[m]) by {
                    assert(text@[m] == s@[i + 1 + m]);
                }
                assert forall|u: Seq<char>, j: int|
                    plain_text(u) && i <= j <= n && s@.subrange(i as int, j) == seq!['"'] + u
                        + seq!['"'] implies u == text@ && j == k + 1 by {
                    let w = s@.subrange(i as int, j);
                    assert(w.len() == j - i);
                    assert((seq!['"'] + u + seq!['"']).len() == u.len() + 2);
                    assert(w[j - i - 1] == s@[j - 1]);
                    assert(w[j - i - 1] == '"');
                    // the closing quote of the candidate is the first quote
                    // after the content, which is the one found at k
                    assert(j - 1 >= k) by {
                        if j - 1 < k {
                            assert(i < j - 1 < k);
                            assert(s@[j - 1] != '"');
                        }
                    }
                    assert(j - 1 <= k) by {
                        if j - 1 > k {
                            assert(w[k - i] == s@[k as int]);
                            assert(w[k - i] == u[k - i - 1]);
                            assert(plain_char(u[k - i - 1]));
                        }
                    }
                    assert forall|m: int| 0 <= m < u.len() implies u[m] == s@.subrange(
                        i + 1,
                        k as int,
                    )[m] by {
                        assert(w[m + 1] == s@[i + 1 + m]);
                        assert(w[m + 1] == (seq!['"'] + u + seq!['"'])[m + 1]);
                    }
                    assert(u =~= s@.subrange(i + 1, k as int));
                }
            }
            return Some((text, k + 1));
        }
        if c == '\\' || (c as u32) < 32 {
            // a character that no plain string holds stands before any
            // closing quote: no candidate exists
            proof {
                assert(!plain_char(s@[k as int]));
                assert forall|u: Seq<char>, j: int|
                    !(plain_text(u) && i <= j <= n && s@.subrange(i as int, j) == seq!['"'] + u
                        + seq!['"']) by {
                    if plain_text(u) && i <= j <= n && s@.subrange(i as int, j) == seq!['"'] + u
                        + seq!['"'] {
                        let w = s@.subrange(i as int, j);
                        assert(w.len() == j - i);
                        assert((seq!['"'] + u + seq!['"']).len() == u.len() + 2);
                        assert(w[j - i - 1] == s@[j - 1]);
                        assert(w[j - i - 1] == '"');
                        assert(j - 1 >= k) by {
                            if j - 1 < k {
                                assert(i < j - 1 < k);
                                assert(s@[j - 1] != '"');
                            }
                        }
                        if j - 1 == k {
                            assert(s@[k as int] == '"');
                        } else {
                            assert(w[k - i] == s@[k as int]);
                            assert(w[k - i] == u[k - i - 1]);
                            assert(plain_char(u[k - i - 1]));
                        }
                    }
                }
            }
            return None;
        }
        k = k + 1;
    }
}


fn lit_colon_sp() -> (r: &'static str)
    ensures
        r@ == seq![':', ' '],
{
    proof {
        reveal_strlit(": ");
        assert(": "@ =~= seq![':', ' ']);
    }
    ": "
}

pub proof fn lemma_enc_value_first(w: FieldValueV)
    ensures
        enc_value(w).len() >= 1,
        w matches FieldValueV::U64(m) ==> is_digit(enc_value(w)[0]),
        w matches FieldValueV::Bool(b) ==> enc_value(w)[0] == (if b { 't' } else { 'f' }),
        w matches FieldValueV::Null ==> enc_value(w)[0] == 'n',
        w matches FieldValueV::Str(_) ==> enc_value(w)[0] == '"',
        w matches FieldValueV::StrList(_) ==> enc_value(w)[0] == '[',
{
    match w {
        FieldValueV::U64(m) => {
            lemma_dec_u64_props(m as nat);
        },
        _ => {},
    }
}
/// A candidate parse of one value: a valid value whose encoding stands
/// exactly between `i` and `j`, delimited by the end of input, a comma or a
/// line break.
pub open spec fn value_cand(sv: Seq<char>, i: int, n: int, w: FieldValueV, j: int) -> bool {
    &&& valid_value(w)
    &&& i <= j <= n
    &&& n == sv.len()
    &&& sv.subrange(i, j) == enc_value(w)
    &&& (j == n || sv[j] == ',' || sv[j] == '\n')
}

pub proof fn lemma_cand_first(sv: Seq<char>, i: int, j: int, w: FieldValueV)
    requires
        0 <= i <= j <= sv.len(),
        sv.subrange(i, j) == enc_value(w),
    ensures
        j - i == enc_value(w).len(),
        j - i >= 1,
        enc_value(w)[0] == sv[i],
        j - i >= 2 ==> enc_value(w)[1] == sv[i + 1],
{
    lemma_enc_value_first(w);
    assert(sv.subrange(i, j).len() == j - i);
    assert(sv.subrange(i, j)[0] == sv[i]);
    if j - i >= 2 {
        assert(sv.subrange(i, j)[1] == sv[i + 1]);
    }
}

/// Parses one value. Sound and complete for every valid value whose encoding
/// stands at `i` delimited by the end of input, a comma or a line break.
#[verifier::rlimit(100)]
fn parse_value(s: &str, n: usize, i: usize) -> (r: Option<(FieldValue, usize)>)
    requires
        n == s@.len(),
        i <= n,
    ensures
        r matches Some(p) ==> i < p.1 <= n && valid_value(p.0@) && s@.subrange(
            i as int,
            p.1 as int,
        ) == enc_value(p.0@),
        forall|w: FieldValueV, j: int|
            value_cand(s@, i as int, n as int, w, j) ==> (r matches Some(p) && p.0@ == w && p.1
                == j),
    decreases n - i, 1int,
{
    if i == n {
        proof {
            assert forall|w: FieldValueV, j: int|
                !value_cand(s@, i as int, n as int, w, j) by {
                if value_cand(s@, i as int, n as int, w, j) {
                    lemma_cand_first(s@, i as int, j, w);
                }
            }
        }
        return None;
    }
    let c = s.get_char(i);
    let d = digit_of(c);
    let r: Option<(FieldValue, usize)> = if d < 10 {
        match parse_u64(s, n, i) {
            Some((m0, j0)) => Some((FieldValue::U64(m0), j0)),
            None => None,
        }
    } else if c == '"' {
        match parse_quoted(s, n, i) {
            Some((text, j0)) => Some((FieldValue::Str(text), j0)),
            None => None,
        }
    } else if c == 't' {
        match expect_lit(s, n, i, lit_true()) {
            Some(j0) => Some((FieldValue::Bool(true), j0)),
            None => None,
        }
    } else if c == 'f' {
        match expect_lit(s, n, i, lit_false()) {
            Some(j0) => Some((FieldValue::Bool(false), j0)),
            None => None,
        }
    } else if c == 'n' {
        match expect_lit(s, n, i, lit_null()) {
            Some(j0) => Some((FieldValue::Null, j0)),
            None => None,
        }
    } else if c == '[' {
        return parse_str_list(s, n, i);
    } else {
        None
    };
    proof {
        assert forall|w: FieldValueV, j: int|
            value_cand(s@, i as int, n as int, w, j) implies (r matches Some(p) && p.0@ == w
            && p.1 == j) by {
            lemma_cand_first(s@, i as int, j, w);
            assert(enc_value(w)[0] == s@[i as int]);
            match w {
                FieldValueV::U64(m) => {
                    lemma_dec_u64_props(m as nat);
                    assert(is_digit(s@[i as int]));
                    assert(!is_digit(',') && !is_digit('\n'));
                },
                FieldValueV::Bool(b) => {
                    assert(!is_digit(s@[i as int]));
                    assert(enc_value(w).len() == j - i);
                },
                FieldValueV::Null => {
                    assert(!is_digit(s@[i as int]));
                    assert(enc_value(w).len() == j - i);
                },
                FieldValueV::Str(u) => {
                    assert(!is_digit(s@[i as int]));
                    assert(s@.subrange(i as int, j) == seq!['"'] + u + seq!['"']);
                },
                FieldValueV::StrList(_) => {
                    assert(!is_digit(s@[i as int]));
                },
            }
        }
    }
    r
}

/// Parses a string-list value, starting at its opening bracket.
#[verifier::rlimit(100)]
fn parse_str_list(s: &str, n: usize, i: usize) -> (r: Option<(FieldValue, usize)>)
    requires
        n == s@.len(),
        i < n,
        s@[i as int] == '[',
    ensures
        r matches Some(p) ==> i < p.1 <= n && valid_value(p.0@) && s@.subrange(
            i as int,
            p.1 as int,
        ) == enc_value(p.0@),
        forall|w: FieldValueV, j: int|
            value_cand(s@, i as int, n as int, w, j) ==> (r matches Some(p) && p.0@ == w && p.1
                == j),
    decreases n - i, 0int,
{
    if n - i < 2 {
        proof {
            assert forall|w: FieldValueV, j: int|
                !value_cand(s@, i as int, n as int, w, j) by {
                if value_cand(s@, i as int, n as int, w, j) {
                    lemma_cand_first(s@, i as int, j, w);
                    lemma_str_list_shape(s@, i as int, j, w);
                }
            }
        }
        return None;
    }
    let c1 = s.get_char(i + 1);
    if c1 == ']' {
        let empty_list: Vec<String> = Vec::new();
        proof {
            assert(empty_list.deep_view() =~= Seq::<Seq<char>>::empty());
            assert(s@.subrange(i as int, i + 2) =~= seq!['[', ']']);
            assert(enc_value(FieldValueV::StrList(empty_list.deep_view())) == seq!['[', ']']);
            assert forall|w: FieldValueV, j: int|
                value_cand(s@, i as int, n as int, w, j) implies (w == FieldValueV::StrList(
                empty_list.deep_view(),
            ) && j == i + 2) by {
                lemma_cand_first(s@, i as int, j, w);
                lemma_str_list_shape(s@, i as int, j, w);
                let items = w->StrList_0;
                if items.len() > 0 {
                    assert(enc_value(w)[1] == '\n');
                } else {
                    assert(enc_value(w) =~= seq!['[', ']']);
                    assert(items =~= empty_list.deep_view());
                }
            }
        }
        return Some((FieldValue::StrList(empty_list), i + 2));
    }
    if c1 != '\n' {
        proof {
            assert forall|w: FieldValueV, j: int|
                !value_cand(s@, i as int, n as int, w, j) by {
                if value_cand(s@, i as int, n as int, w, j) {
                    lemma_cand_first(s@, i as int, j, w);
                    lemma_str_list_shape(s@, i as int, j, w);
                    let items = w->StrList_0;
                    if items.len() > 0 {
                        assert(enc_value(w)[1] == '\n');
                    } else {
                        assert(enc_value(w) =~= seq!['[', ']']);
                        assert(enc_value(w)[1] == ']');
                    }
                }
            }
        }
        return None;
    }
    // a nonempty list: its lines, then the closing line
    let r0 = parse_list_lines(s, n, i + 2);
    match r0 {
        Some((items0, j1)) => {
            match expect_lit(s, n, j1, lit_list_close()) {
                Some(j2) => {
                    proof {
                        let dv = items0.deep_view();
                        assert(dv.len() >= 1);
                        assert(s@.subrange(i as int, j2 as int) =~= seq!['[', '\n']
                            + s@.subrange(i + 2, j1 as int) + s@.subrange(j1 as int, j2 as int));
                        assert(s@.subrange(i as int, j2 as int) == enc_value(
                            FieldValueV::StrList(dv),
                        ));
                        assert forall|w: FieldValueV, j: int|
                            value_cand(s@, i as int, n as int, w, j) implies (w
                            == FieldValueV::StrList(dv) && j == j2) by {
                            lemma_cand_first(s@, i as int, j, w);
                            lemma_str_list_shape(s@, i as int, j, w);
                            let items = w->StrList_0;
                            if items.len() == 0 {
                                assert(enc_value(w) =~= seq!['[', ']']);
                                assert(enc_value(w)[1] == ']');
                            }
                            lemma_str_list_parts(s@, i as int, j, w);
                            let wlines = items.map_values(|t: Seq<char>| list_line(t));
                            let jm = i + 2 + joined(wlines).len();
                            assert(list_cand(s@, i + 2, n as int, items, jm));
                            assert(items0.deep_view() == items && j1 == jm);
                            assert(s@.subrange(j1 as int, j1 + 6) == seq!['\n', ' ', ' ', ' ',
                                ' ', ']']);
                            assert(j == jm + 6);
                        }
                    }
                    Some((FieldValue::StrList(items0), j2))
                },
                None => {
                    proof {
                        assert forall|w: FieldValueV, j: int|
                            !value_cand(s@, i as int, n as int, w, j) by {
                            if value_cand(s@, i as int, n as int, w, j) {
                                lemma_cand_first(s@, i as int, j, w);
                                lemma_str_list_shape(s@, i as int, j, w);
                                let items = w->StrList_0;
                                if items.len() == 0 {
                                    assert(enc_value(w) =~= seq!['[', ']']);
                                    assert(enc_value(w)[1] == ']');
                                }
                                lemma_str_list_parts(s@, i as int, j, w);
                                let wlines = items.map_values(|t: Seq<char>| list_line(t));
                                let jm = i + 2 + joined(wlines).len();
                                assert(list_cand(s@, i + 2, n as int, items, jm));
                                assert(items0.deep_view() == items && j1 == jm);
                                assert(s@.subrange(j1 as int, j1 + 6) == seq!['\n', ' ', ' ',
                                    ' ', ' ', ']']);
                            }
                        }
                    }
                    None
                },
            }
        },
        None => {
            proof {
                assert forall|w: FieldValueV, j: int|
                    !value_cand(s@, i as int, n as int, w, j) by {
                    if value_cand(s@, i as int, n as int, w, j) {
                        lemma_cand_first(s@, i as int, j, w);
                        lemma_str_list_shape(s@, i as int, j, w);
                        let items = w->StrList_0;
                        if items.len() == 0 {
                            assert(enc_value(w) =~= seq!['[', ']']);
                            assert(enc_value(w)[1] == ']');
                        }
                        lemma_str_list_parts(s@, i as int, j, w);
                        let wlines = items.map_values(|t: Seq<char>| list_line(t));
                        let jm = i + 2 + joined(wlines).len();
                        assert(list_cand(s@, i + 2, n as int, items, jm));
                    }
                }
            }
            None
        },
    }
}

/// Within a string-list candidate whose second character is a line break,
/// the value is a nonempty string list.
proof fn lemma_str_list_shape(sv: Seq<char>, i: int, j: int, w: FieldValueV)
    requires
        0 <= i <= j <= sv.len(),
        sv.subrange(i, j) == enc_value(w),
        sv[i] == '[',
    ensures
        w is StrList,
{
    lemma_cand_first(sv, i, j, w);
    match w {
        FieldValueV::U64(m) => {
            lemma_dec_u64_props(m as nat);
            assert(is_digit(sv[i]));
        },
        _ => {},
    }
}

/// Decomposes the encoding of a nonempty string list standing between `i`
/// and `j`: the lines sit after the opening bracket line, and the closing
/// line follows them.
proof fn lemma_str_list_parts(sv: Seq<char>, i: int, j: int, w: FieldValueV)
    requires
        0 <= i <= j <= sv.len(),
        sv.subrange(i, j) == enc_value(w),
        w is StrList,
        w->StrList_0.len() >= 1,
        valid_value(w),
        j < sv.len() ==> (sv[j] == ',' || sv[j] == '\n'),
    ensures
        ({
            let items = w->StrList_0;
            let wlines = items.map_values(|t: Seq<char>| list_line(t));
            let jm = i + 2 + joined(wlines).len();
            &&& jm + 6 == j
            &&& sv.subrange(i + 2, jm) == joined(wlines)
            &&& jm < sv.len()
            &&& sv[jm] == '\n'
            &&& sv.subrange(jm, j) == seq!['\n', ' ', ' ', ' ', ' ', ']']
            &&& (forall|m: int| 0 <= m < items.len() ==> plain_text(#[trigger] items[m]))
        }),
{
    let items = w->StrList_0;
    let wlines = items.map_values(|t: Seq<char>| list_line(t));
    let jm = i + 2 + joined(wlines).len();
    let tail: Seq<char> = seq!['\n', ' ', ' ', ' ', ' ', ']'];
    assert(enc_value(w) == seq!['[', '\n'] + joined(wlines) + tail);
    assert(sv.subrange(i, j).len() == j - i);
    assert(j - i == enc_value(w).len());
    assert(enc_value(w).len() == 2 + joined(wlines).len() + 6);
    lemma_subrange_split(sv, i, jm, j);
    assert(seq!['[', '\n'] + joined(wlines) + tail == (seq!['[', '\n'] + joined(wlines))
        + tail);
    lemma_concat_inj(
        sv.subrange(i, jm),
        sv.subrange(jm, j),
        seq!['[', '\n'] + joined(wlines),
        tail,
    );
    lemma_subrange_split(sv, i, i + 2, jm);
    lemma_concat_inj(
        sv.subrange(i, i + 2),
        sv.subrange(i + 2, jm),
        seq!['[', '\n'],
        joined(wlines),
    );
    assert(sv.subrange(jm, j)[0] == sv[jm]);
}

/// A candidate parse of string-list lines: a nonempty, plain line sequence
/// whose joined encoding stands exactly between `i` and `j`, with a line
/// break right after.
pub open spec fn list_cand(sv: Seq<char>, i: int, n: int, x: Seq<Seq<char>>, j: int) -> bool {
    &&& x.len() >= 1
    &&& (forall|m: int| 0 <= m < x.len() ==> plain_text(#[trigger] x[m]))
    &&& i <= j <= n
    &&& n == sv.len()
    &&& sv.subrange(i, j) == joined(x.map_values(|t: Seq<char>| list_line(t)))
    &&& j < n
    &&& sv[j] == '\n'
}

pub proof fn lemma_list_split(sv: Seq<char>, i: int, j: int, x: Seq<Seq<char>>)
    requires
        0 <= i <= j <= sv.len(),
        x.len() >= 1,
        sv.subrange(i, j) == joined(x.map_values(|t: Seq<char>| list_line(t))),
    ensures
        j - i >= 8 + x[0].len(),
        sv.subrange(i, i + 6) == seq![' ', ' ', ' ', ' ', ' ', ' '],
        sv.subrange(i + 6, i + 8 + x[0].len()) == seq!['"'] + x[0] + seq!['"'],
        x.len() == 1 ==> j == i + 8 + x[0].len(),
        x.len() >= 2 ==> i + 8 + x[0].len() + 2 <= j && sv[i + 8 + x[0].len()] == ','
            && sv.subrange(i + 8 + x[0].len(), i + 8 + x[0].len() + 2) == seq![',', '\n']
            && sv.subrange(i + 8 + x[0].len() + 2, j) == joined(
            x.drop_first().map_values(|t: Seq<char>| list_line(t)),
        ),
{
    let lines = x.map_values(|t: Seq<char>| list_line(t));
    let el0 = list_line(x[0]);
    assert(lines[0] == el0);
    assert(el0.len() == 8 + x[0].len());
    let jq = i + 8 + x[0].len();
    if x.len() == 1 {
        assert(joined(lines) == el0);
        assert(j - i == el0.len());
        assert(sv.subrange(i, j) == el0);
        assert(sv.subrange(i, i + 6) =~= seq![' ', ' ', ' ', ' ', ' ', ' ']) by {
            assert forall|m: int| 0 <= m < 6 implies sv.subrange(i, i + 6)[m] == el0[m] by {
                assert(sv.subrange(i, j)[m] == sv[i + m]);
                assert(sv.subrange(i, i + 6)[m] == sv[i + m]);
            }
        }
        assert(sv.subrange(i + 6, jq) =~= seq!['"'] + x[0] + seq!['"']) by {
            assert forall|m: int| #![trigger sv.subrange(i + 6, jq)[m]] 0 <= m < 2
                + x[0].len() implies sv.subrange(i + 6, jq)[m] == el0[6 + m] by {
                assert(sv.subrange(i, j)[6 + m] == sv[i + 6 + m]);
                assert(sv.subrange(i + 6, jq)[m] == sv[i + 6 + m]);
            }
            assert forall|m: int| #![trigger el0[6 + m]] 0 <= m < 2 + x[0].len() implies el0[6
                + m] == (seq!['"'] + x[0] + seq!['"'])[m] by {
                assert(el0 == seq![' ', ' ', ' ', ' ', ' ', ' ', '"'] + x[0] + seq!['"']);
            }
        }
    } else {
        assert(lines.len() >= 2);
        assert(joined(lines) == lines[0] + seq![',', '\n'] + joined(lines.drop_first()));
        assert(joined(lines).len() == el0.len() + 2 + joined(lines.drop_first()).len());
        assert(j - i == joined(lines).len());
        lemma_subrange_split(sv, i, jq, j);
        assert(el0 + seq![',', '\n'] + joined(lines.drop_first()) == el0 + (seq![',', '\n']
            + joined(lines.drop_first())));
        lemma_concat_inj(
            sv.subrange(i, jq),
            sv.subrange(jq, j),
            el0,
            seq![',', '\n'] + joined(lines.drop_first()),
        );
        lemma_subrange_split(sv, jq, jq + 2, j);
        lemma_concat_inj(
            sv.subrange(jq, jq + 2),
            sv.subrange(jq + 2, j),
            seq![',', '\n'],
            joined(lines.drop_first()),
        );
        assert(sv[jq] == sv.subrange(jq, jq + 2)[0]);
        assert(lines.drop_first() =~= x.drop_first().map_values(|t: Seq<char>| list_line(t)));
        lemma_subrange_split(sv, i, i + 6, jq);
        assert(el0 =~= seq![' ', ' ', ' ', ' ', ' ', ' '] + (seq!['"'] + x[0] + seq!['"']));
        lemma_concat_inj(
            sv.subrange(i, i + 6),
            sv.subrange(i + 6, jq),
            seq![' ', ' ', ' ', ' ', ' ', ' '],
            seq!['"'] + x[0] + seq!['"'],
        );
    }
}

/// Parses the lines of a nonempty string list. Complete for every line
/// sequence whose joined encoding stands at `i` followed by a line break.
fn parse_list_lines(s: &str, n: usize, i: usize) -> (r: Option<(Vec<String>, usize)>)
    requires
        n == s@.len(),
        i <= n,
    ensures
        r matches Some(p) ==> {
            &&& i < p.1 <= n
            &&& p.0@.len() >= 1
            &&& forall|m: int|
                0 <= m < p.0.deep_view().len() ==> plain_text(#[trigger] p.0.deep_view()[m])
            &&& s@.subrange(i as int, p.1 as int) == joined(
                p.0.deep_view().map_values(|t: Seq<char>| list_line(t)),
            )
        },
        forall|x: Seq<Seq<char>>, j: int|
            list_cand(s@, i as int, n as int, x, j) ==> (r matches Some(p) && p.0.deep_view() == x
                && p.1 == j),
    decreases n - i,
{
    let j0 = match expect_lit(s, n, i, lit_ind6()) {
        Some(j0) => j0,
        None => {
            proof {
                assert forall|x: Seq<Seq<char>>, j: int|
                    !list_cand(s@, i as int, n as int, x, j) by {
                    if list_cand(s@, i as int, n as int, x, j) {
                        lemma_list_split(s@, i as int, j, x);
                    }
                }
            }
            return None;
        },
    };
    let (text, j1) = match parse_quoted(s, n, j0) {
        Some(p) => p,
        None => {
            proof {
                assert forall|x: Seq<Seq<char>>, j: int|
                    !list_cand(s@, i as int, n as int, x, j) by {
                    if list_cand(s@, i as int, n as int, x, j) {
                        lemma_list_split(s@, i as int, j, x);
                        assert(plain_text(x[0]));
                    }
                }
            }
            return None;
        },
    };
    let has_more = j1 < n && s.get_char(j1) == ',';
    if has_more {
        let j2 = match expect_lit(s, n, j1, lit_sep()) {
            Some(j2) => j2,
            None => {
                proof {
                    assert forall|x: Seq<Seq<char>>, j: int|
                        !list_cand(s@, i as int, n as int, x, j) by {
                        if list_cand(s@, i as int, n as int, x, j) {
                            lemma_list_split(s@, i as int, j, x);
                            assert(plain_text(x[0]));
                            assert(text@ == x[0] && j1 == i + 8 + x[0].len());
                            if x.len() == 1 {
                                assert(s@[j1 as int] == '\n');
                            }
                        }
                    }
                }
                return None;
            },
        };
        match parse_list_lines(s, n, j2) {
            Some((mut rest, j3)) => {
                let ghost old_rest_dv = rest.deep_view();
                rest.insert(0, text);
                proof {
                    assert(rest.deep_view() =~= seq![text@] + old_rest_dv);
                    let dv = rest.deep_view();
                    let lines = dv.map_values(|t: Seq<char>| list_line(t));
                    assert(lines.drop_first() =~= old_rest_dv.map_values(
                        |t: Seq<char>| list_line(t),
                    ));
                    assert(lines[0] == list_line(text@));
                    assert(joined(lines) == lines[0] + seq![',', '\n'] + joined(
                        lines.drop_first(),
                    ));
                    assert(s@.subrange(i as int, j3 as int) =~= s@.subrange(i as int, j1 as int)
                        + s@.subrange(j1 as int, j2 as int) + s@.subrange(j2 as int, j3 as int));
                    assert(s@.subrange(i as int, j1 as int) =~= seq![' ', ' ', ' ', ' ', ' ', ' ']
                        + (seq!['"'] + text@ + seq!['"']));
                    assert(s@.subrange(i as int, j1 as int) == lines[0]);
                    assert(s@.subrange(i as int, j3 as int) == joined(lines));
                    assert forall|m: int| 0 <= m < dv.len() implies plain_text(
                        #[trigger] dv[m],
                    ) by {
                        if m >= 1 {
                            assert(dv[m] == old_rest_dv[m - 1]);
                        }
                    }
                    assert forall|x: Seq<Seq<char>>, j: int|
                        list_cand(s@, i as int, n as int, x, j) implies dv == x && j3 == j by {
                        lemma_list_split(s@, i as int, j, x);
                        assert(text@ == x[0] && j1 == i + 8 + x[0].len());
                        if x.len() == 1 {
                            assert(s@[j1 as int] == '\n');
                            assert(false);
                        }
                        assert(list_cand(s@, j2 as int, n as int, x.drop_first(), j)) by {
                            assert forall|m: int| 0 <= m < x.drop_first().len() implies plain_text(
                                #[trigger] x.drop_first()[m],
                            ) by {
                                assert(x.drop_first()[m] == x[m + 1]);
                            }
                        }
                        assert(old_rest_dv == x.drop_first() && j3 == j);
                        assert(dv =~= x);
                    }
                }
                Some((rest, j3))
            },
            None => {
                proof {
                    assert forall|x: Seq<Seq<char>>, j: int|
                        !list_cand(s@, i as int, n as int, x, j) by {
                        if list_cand(s@, i as int, n as int, x, j) {
                            lemma_list_split(s@, i as int, j, x);
                            assert(text@ == x[0] && j1 == i + 8 + x[0].len());
                            if x.len() == 1 {
                                assert(s@[j1 as int] == '\n');
                            } else {
                                assert(list_cand(s@, j2 as int, n as int, x.drop_first(), j)) by {
                                    assert forall|m: int|
                                        0 <= m < x.drop_first().len() implies plain_text(
                                        #[trigger] x.drop_first()[m],
                                    ) by {
                                        assert(x.drop_first()[m] == x[m + 1]);
                                    }
                                }
                            }
                        }
                    }
                }
                None
            },
        }
    } else {
        let out: Vec<String> = vec![text];
        proof {
            assert(out.deep_view() =~= seq![text@]);
            assert(out.deep_view().map_values(|t: Seq<char>| list_line(t)) =~= seq![list_line(
                text@,
            )]);
            assert(joined(seq![list_line(text@)]) == list_line(text@));
            assert(s@.subrange(i as int, j1 as int) =~= seq![' ', ' ', ' ', ' ', ' ', ' '] + (seq![
                '"',
            ] + text@ + seq!['"']));
            assert forall|x: Seq<Seq<char>>, j: int|
                list_cand(s@, i as int, n as int, x, j) implies out.deep_view() == x && j1
                == j by {
                lemma_list_split(s@, i as int, j, x);
                assert(text@ == x[0] && j1 == i + 8 + x[0].len());
                if x.len() >= 2 {
                    assert(s@[j1 as int] == ',');
                    assert(j1 < n);
                    assert(false);
                }
                assert(out.deep_view() =~= x);
            }
        }
        Some((out, j1))
    }
}


/// A candidate parse of one field: a valid field whose line stands exactly
/// between `i` and `j`, delimited by the end of input, a comma or a line
/// break.
pub open spec fn field_cand(sv: Seq<char>, i: int, n: int, g: FieldV, j: int) -> bool {
    &&& valid_field(g)
    &&& i <= j <= n
    &&& n == sv.len()
    &&& sv.subrange(i, j) == field_line(g)
    &&& (j == n || sv[j] == ',' || sv[j] == '\n')
}

pub proof fn lemma_field_split(sv: Seq<char>, i: int, j: int, g: FieldV)
    requires
        0 <= i <= j <= sv.len(),
        sv.subrange(i, j) == field_line(g),
    ensures
        j - i == 8 + g.name.len() + enc_value(g.value).len(),
        sv.subrange(i, i + 4) == seq![' ', ' ', ' ', ' '],
        sv.subrange(i + 4, i + 6 + g.name.len()) == seq!['"'] + g.name + seq!['"'],
        sv.subrange(i + 6 + g.name.len(), i + 8 + g.name.len()) == seq![':', ' '],
        sv.subrange(i + 8 + g.name.len(), j) == enc_value(g.value),
{
    let c1: Seq<char> = seq![' ', ' ', ' ', ' '];
    let c2: Seq<char> = seq!['"'] + g.name + seq!['"'];
    let c3: Seq<char> = seq![':', ' '];
    let c4 = enc_value(g.value);
    assert(field_line(g) =~= c1 + (c2 + (c3 + c4)));
    assert(sv.subrange(i, j).len() == j - i);
    let p1 = i + 4;
    let p2 = i + 6 + g.name.len();
    let p3 = i + 8 + g.name.len();
    lemma_subrange_split(sv, i, p1, j);
    lemma_concat_inj(sv.subrange(i, p1), sv.subrange(p1, j), c1, c2 + (c3 + c4));
    lemma_subrange_split(sv, p1, p2, j);
    lemma_concat_inj(sv.subrange(p1, p2), sv.subrange(p2, j), c2, c3 + c4);
    lemma_subrange_split(sv, p2, p3, j);
    lemma_concat_inj(sv.subrange(p2, p3), sv.subrange(p3, j), c3, c4);
}

/// Parses one field line. Sound and complete for every valid field whose
/// line stands at `i` delimited by the end of input, a comma or a line break.
#[verifier::rlimit(100)]
fn parse_field(s: &str, n: usize, i: usize) -> (r: Option<(Field, usize)>)
    requires
        n == s@.len(),
        i <= n,
    ensures
        r matches Some(p) ==> i < p.1 <= n && valid_field(p.0@) && s@.subrange(
            i as int,
            p.1 as int,
        ) == field_line(p.0@),
        forall|g: FieldV, j: int|
            field_cand(s@, i as int, n as int, g, j) ==> (r matches Some(p) && p.0@ == g && p.1
                == j),
{
    let j0 = match expect_lit(s, n, i, lit_ind4()) {
        Some(j0) => j0,
        None => {
            proof {
                assert forall|g: FieldV, j: int| !field_cand(s@, i as int, n as int, g, j) by {
                    if field_cand(s@, i as int, n as int, g, j) {
                        lemma_field_split(s@, i as int, j, g);
                    }
                }
            }
            return None;
        },
    };
    let (name, j1) = match parse_quoted(s, n, j0) {
        Some(p) => p,
        None => {
            proof {
                assert forall|g: FieldV, j: int| !field_cand(s@, i as int, n as int, g, j) by {
                    if field_cand(s@, i as int, n as int, g, j) {
                        lemma_field_split(s@, i as int, j, g);
                        assert(plain_text(g.name));
                    }
                }
            }
            return None;
        },
    };
    let j2 = match expect_lit(s, n, j1, lit_colon_sp()) {
        Some(j2) => j2,
        None => {
            proof {
                assert forall|g: FieldV, j: int| !field_cand(s@, i as int, n as int, g, j) by {
                    if field_cand(s@, i as int, n as int, g, j) {
                        lemma_field_split(s@, i as int, j, g);
                        assert(plain_text(g.name));
                        assert(name@ == g.name && j1 == i + 6 + g.name.len());
                    }
                }
            }
            return None;
        },
    };
    match parse_value(s, n, j2) {
        Some((val, j3)) => {
            let f = Field { name, value: val };
            proof {
                assert(s@.subrange(i as int, j3 as int) =~= seq![' ', ' ', ' ', ' '] + (seq!['"']
                    + f.name@ + seq!['"']) + seq![':', ' '] + enc_value(f.value@));
                assert(s@.subrange(i as int, j3 as int) =~= field_line(f@));
                assert forall|g: FieldV, j: int|
                    field_cand(s@, i as int, n as int, g, j) implies f@ == g && j3 == j by {
                    lemma_field_split(s@, i as int, j, g);
                    assert(plain_text(g.name));
                    assert(name@ == g.name && j1 == i + 6 + g.name.len());
                    assert(value_cand(s@, j2 as int, n as int, g.value, j));
                    assert(val@ == g.value && j3 == j);
                }
            }
            Some((f, j3))
        },
        None => {
            proof {
                assert forall|g: FieldV, j: int| !field_cand(s@, i as int, n as int, g, j) by {
                    if field_cand(s@, i as int, n as int, g, j) {
                        lemma_field_split(s@, i as int, j, g);
                        assert(plain_text(g.name));
                        assert(name@ == g.name && j1 == i + 6 + g.name.len());
                        assert(value_cand(s@, j2 as int, n as int, g.value, j));
                    }
                }
            }
            None
        },
    }
}

/// A candidate parse of a record's field lines: a valid, nonempty field
/// sequence whose joined lines stand exactly between `i` and `j`, with a
/// line break right after.
pub open spec fn fields_cand(sv: Seq<char>, i: int, n: int, x: Seq<FieldV>, j: int) -> bool {
    &&& valid_fields(x)
    &&& i <= j <= n
    &&& n == sv.len()
    &&& sv.subrange(i, j) == joined(x.map_values(|g: FieldV| field_line(g)))
    &&& j < n
    &&& sv[j] == '\n'
}

pub proof fn lemma_fields_split(sv: Seq<char>, i: int, j: int, x: Seq<FieldV>)
    requires
        0 <= i <= j <= sv.len(),
        x.len() >= 1,
        sv.subrange(i, j) == joined(x.map_values(|g: FieldV| field_line(g))),
    ensures
        j - i >= field_line(x[0]).len(),
        sv.subrange(i, i + field_line(x[0]).len()) == field_line(x[0]),
        x.len() == 1 ==> j == i + field_line(x[0]).len(),
        x.len() >= 2 ==> i + field_line(x[0]).len() + 2 <= j && sv[i + field_line(x[0]).len()]
            == ',' && sv.subrange(
            i + field_line(x[0]).len(),
            i + field_line(x[0]).len() + 2,
        ) == seq![',', '\n'] && sv.subrange(i + field_line(x[0]).len() + 2, j) == joined(
            x.drop_first().map_values(|g: FieldV| field_line(g)),
        ),
{
    let lines = x.map_values(|g: FieldV| field_line(g));
    let el0 = field_line(x[0]);
    assert(lines[0] == el0);
    let jq = i + el0.len();
    if x.len() == 1 {
        assert(joined(lines) == el0);
        assert(sv.subrange(i, j).len() == j - i);
        assert(sv.subrange(i, jq) =~= el0);
    } else {
        assert(lines.len() >= 2);
        assert(joined(lines) == lines[0] + seq![',', '\n'] + joined(lines.drop_first()));
        assert(joined(lines).len() == el0.len() + 2 + joined(lines.drop_first()).len());
        assert(sv.subrange(i, j).len() == j - i);
        lemma_subrange_split(sv, i, jq, j);
        assert(el0 + seq![',', '\n'] + joined(lines.drop_first()) == el0 + (seq![',', '\n']
            + joined(lines.drop_first())));
        lemma_concat_inj(
            sv.subrange(i, jq),
            sv.subrange(jq, j),
            el0,
            seq![',', '\n'] + joined(lines.drop_first()),
        );
        lemma_subrange_split(sv, jq, jq + 2, j);
        lemma_concat_inj(
            sv.subrange(jq, jq + 2),
            sv.subrange(jq + 2, j),
            seq![',', '\n'],
            joined(lines.drop_first()),
        );
        assert(sv[jq] == sv.subrange(jq, jq + 2)[0]);
        assert(lines.drop_first() =~= x.drop_first().map_values(|g: FieldV| field_line(g)));
    }
}

/// Parses the field lines of one record. Complete for every valid field
/// sequence whose joined lines stand at `i` followed by a line break.
#[verifier::rlimit(100)]
fn parse_fields(s: &str, n: usize, i: usize) -> (r: Option<(Vec<Field>, usize)>)
    requires
        n == s@.len(),
        i <= n,
    ensures
        r matches Some(p) ==> {
            &&& i < p.1 <= n
            &&& valid_fields(p.0.deep_view())
            &&& s@.subrange(i as int, p.1 as int) == joined(
                p.0.deep_view().map_values(|g: FieldV| field_line(g)),
            )
        },
        forall|x: Seq<FieldV>, j: int|
            fields_cand(s@, i as int, n as int, x, j) ==> (r matches Some(p) && p.0.deep_view()
                == x && p.1 == j),
    decreases n - i,
{
    let (first, j1) = match parse_field(s, n, i) {
        Some(p) => p,
        None => {
            proof {
                assert forall|x: Seq<FieldV>, j: int|
                    !fields_cand(s@, i as int, n as int, x, j) by {
                    if fields_cand(s@, i as int, n as int, x, j) {
                        lemma_fields_split(s@, i as int, j, x);
                        assert(valid_field(x[0]));
                        if x.len() == 1 {
                            assert(field_cand(s@, i as int, n as int, x[0], j));
                        } else {
                            assert(field_cand(
                                s@,
                                i as int,
                                n as int,
                                x[0],
                                i + field_line(x[0]).len(),
                            ));
                        }
                    }
                }
            }
            return None;
        },
    };
    let has_more = j1 < n && s.get_char(j1) == ',';
    if has_more {
        let j2 = match expect_lit(s, n, j1, lit_sep()) {
            Some(j2) => j2,
            None => {
                proof {
                    assert forall|x: Seq<FieldV>, j: int|
                        !fields_cand(s@, i as int, n as int, x, j) by {
                        if fields_cand(s@, i as int, n as int, x, j) {
                            lemma_fields_split(s@, i as int, j, x);
                            if x.len() == 1 {
                                assert(field_cand(s@, i as int, n as int, x[0], j));
                                assert(j1 == j);
                            } else {
                                assert(field_cand(
                                    s@,
                                    i as int,
                                    n as int,
                                    x[0],
                                    i + field_line(x[0]).len(),
                                ));
                                assert(j1 == i + field_line(x[0]).len());
                            }
                        }
                    }
                }
                return None;
            },
        };
        match parse_fields(s, n, j2) {
            Some((mut rest, j3)) => {
                let ghost old_rest_dv = rest.deep_view();
                rest.insert(0, first);
                proof {
                    assert(rest.deep_view() =~= seq![first@] + old_rest_dv);
                    let dv = rest.deep_view();
                    let lines = dv.map_values(|g: FieldV| field_line(g));
                    assert(lines.drop_first() =~= old_rest_dv.map_values(
                        |g: FieldV| field_line(g),
                    ));
                    assert(lines[0] == field_line(first@));
                    assert(joined(lines) == lines[0] + seq![',', '\n'] + joined(
                        lines.drop_first(),
                    ));
                    assert(s@.subrange(i as int, j3 as int) =~= s@.subrange(i as int, j1 as int)
                        + s@.subrange(j1 as int, j2 as int) + s@.subrange(j2 as int, j3 as int));
                    assert(s@.subrange(i as int, j3 as int) == joined(lines));
                    assert forall|m: int| 0 <= m < dv.len() implies valid_field(
                        #[trigger] dv[m],
                    ) by {
                        if m >= 1 {
                            assert(dv[m] == old_rest_dv[m - 1]);
                        }
                    }
                    assert forall|x: Seq<FieldV>, j: int|
                        fields_cand(s@, i as int, n as int, x, j) implies dv == x && j3 == j by {
                        lemma_fields_split(s@, i as int, j, x);
                        if x.len() == 1 {
                            assert(field_cand(s@, i as int, n as int, x[0], j));
                            assert(j1 == j);
                            assert(s@[j1 as int] == '\n');
                            assert(false);
                        }
                        assert(field_cand(
                            s@,
                            i as int,
                            n as int,
                            x[0],
                            i + field_line(x[0]).len(),
                        ));
                        assert(first@ == x[0] && j1 == i + field_line(x[0]).len());
                        assert(fields_cand(s@, j2 as int, n as int, x.drop_first(), j)) by {
                            assert forall|m: int| 0 <= m < x.drop_first().len() implies valid_field(
                                #[trigger] x.drop_first()[m],
                            ) by {
                                assert(x.drop_first()[m] == x[m + 1]);
                            }
                        }
                        assert(old_rest_dv == x.drop_first() && j3 == j);
                        assert(dv =~= x);
                    }
                }
                Some((rest, j3))
            },
            None => {
                proof {
                    assert forall|x: Seq<FieldV>, j: int|
                        !fields_cand(s@, i as int, n as int, x, j) by {
                        if fields_cand(s@, i as int, n as int, x, j) {
                            lemma_fields_split(s@, i as int, j, x);
                            if x.len() == 1 {
                                assert(field_cand(s@, i as int, n as int, x[0], j));
                                assert(j1 == j);
                                assert(s@[j1 as int] == '\n');
                            } else {
                                assert(field_cand(
                                    s@,
                                    i as int,
                                    n as int,
                                    x[0],
                                    i + field_line(x[0]).len(),
                                ));
                                assert(first@ == x[0] && j1 == i + field_line(x[0]).len());
                                assert(fields_cand(s@, j2 as int, n as int, x.drop_first(), j)) by {
                                    assert forall|m: int|
                                        0 <= m < x.drop_first().len() implies valid_field(
                                        #[trigger] x.drop_first()[m],
                                    ) by {
                                        assert(x.drop_first()[m] == x[m + 1]);
                                    }
                                }
                            }
                        }
                    }
                }
                None
            },
        }
    } else {
        let out: Vec<Field> = vec![first];
        proof {
            assert(out.deep_view() =~= seq![first@]);
            assert(out.deep_view().map_values(|g: FieldV| field_line(g)) =~= seq![field_line(
                first@,
            )]);
            assert(joined(seq![field_line(first@)]) == field_line(first@));
            assert forall|x: Seq<FieldV>, j: int|
                fields_cand(s@, i as int, n as int, x, j) implies out.deep_view() == x && j1
                == j by {
                lemma_fields_split(s@, i as int, j, x);
                if x.len() >= 2 {
                    assert(field_cand(s@, i as int, n as int, x[0], i + field_line(x[0]).len()));
                    assert(j1 == i + field_line(x[0]).len());
                    assert(s@[j1 as int] == ',');
                    assert(j1 < n);
                    assert(false);
                }
                assert(field_cand(s@, i as int, n as int, x[0], j));
                assert(out.deep_view() =~= x);
            }
        }
        Some((out, j1))
    }
}

/// A candidate parse of one record object standing exactly between `i` and
/// `j`; record objects are self-delimiting.
pub open spec fn item_cand(sv: Seq<char>, i: int, n: int, fs: Seq<FieldV>, j: int) -> bool {
    &&& valid_fields(fs)
    &&& i <= j <= n
    &&& n == sv.len()
    &&& sv.subrange(i, j) == enc_item(fs)
}

pub proof fn lemma_item_split(sv: Seq<char>, i: int, j: int, fs: Seq<FieldV>)
    requires
        0 <= i <= j <= sv.len(),
        sv.subrange(i, j) == enc_item(fs),
    ensures
        j - i == 8 + joined(fs.map_values(|g: FieldV| field_line(g))).len(),
        sv.subrange(i, i + 4) == seq![' ', ' ', '{', '\n'],
        sv.subrange(i + 4, j - 4) == joined(fs.map_values(|g: FieldV| field_line(g))),
        sv.subrange(j - 4, j) == seq!['\n', ' ', ' ', '}'],
        sv[j - 4] == '\n',
{
    let mid = joined(fs.map_values(|g: FieldV| field_line(g)));
    assert(enc_item(fs) =~= seq![' ', ' ', '{', '\n'] + (mid + seq!['\n', ' ', ' ', '}']));
    assert(sv.subrange(i, j).len() == j - i);
    lemma_subrange_split(sv, i, i + 4, j);
    lemma_concat_inj(
        sv.subrange(i, i + 4),
        sv.subrange(i + 4, j),
        seq![' ', ' ', '{', '\n'],
        mid + seq!['\n', ' ', ' ', '}'],
    );
    lemma_subrange_split(sv, i + 4, j - 4, j);
    lemma_concat_inj(
        sv.subrange(i + 4, j - 4),
        sv.subrange(j - 4, j),
        mid,
        seq!['\n', ' ', ' ', '}'],
    );
    assert(sv.subrange(j - 4, j)[0] == sv[j - 4]);
}

/// Parses one record object. Sound and complete for every valid field list
/// whose object stands exactly at `i`.
#[verifier::rlimit(100)]
fn parse_item(s: &str, n: usize, i: usize) -> (r: Option<(Vec<Field>, usize)>)
    requires
        n == s@.len(),
        i <= n,
    ensures
        r matches Some(p) ==> {
            &&& i < p.1 <= n
            &&& valid_fields(p.0.deep_view())
            &&& s@.subrange(i as int, p.1 as int) == enc_item(p.0.deep_view())
        },
        forall|fs: Seq<FieldV>, j: int|
            item_cand(s@, i as int, n as int, fs, j) ==> (r matches Some(p) && p.0.deep_view()
                == fs && p.1 == j),
    decreases n - i,
{
    let j0 = match expect_lit(s, n, i, lit_item_open()) {
        Some(j0) => j0,
        None => {
            proof {
                assert forall|fs: Seq<FieldV>, j: int|
                    !item_cand(s@, i as int, n as int, fs, j) by {
                    if item_cand(s@, i as int, n as int, fs, j) {
                        lemma_item_split(s@, i as int, j, fs);
                    }
                }
            }
            return None;
        },
    };
    let (fields, j1) = match parse_fields(s, n, j0) {
        Some(p) => p,
        None => {
            proof {
                assert forall|fs: Seq<FieldV>, j: int|
                    !item_cand(s@, i as int, n as int, fs, j) by {
                    if item_cand(s@, i as int, n as int, fs, j) {
                        lemma_item_split(s@, i as int, j, fs);
                        assert(fields_cand(s@, i + 4, n as int, fs, j - 4));
                    }
                }
            }
            return None;
        },
    };
    match expect_lit(s, n, j1, lit_item_close()) {
        Some(j2) => {
            proof {
                assert(s@.subrange(i as int, j2 as int) =~= seq![' ', ' ', '{', '\n']
                    + s@.subrange(j0 as int, j1 as int) + s@.subrange(j1 as int, j2 as int));
                assert(s@.subrange(i as int, j2 as int) == enc_item(fields.deep_view()));
                assert forall|fs: Seq<FieldV>, j: int|
                    item_cand(s@, i as int, n as int, fs, j) implies fields.deep_view() == fs
                    && j2 == j by {
                    lemma_item_split(s@, i as int, j, fs);
                    assert(fields_cand(s@, i + 4, n as int, fs, j - 4));
                    assert(fields.deep_view() == fs && j1 == j - 4);
                }
            }
            Some((fields, j2))
        },
        None => {
            proof {
                assert forall|fs: Seq<FieldV>, j: int|
                    !item_cand(s@, i as int, n as int, fs, j) by {
                    if item_cand(s@, i as int, n as int, fs, j) {
                        lemma_item_split(s@, i as int, j, fs);
                        assert(fields_cand(s@, i + 4, n as int, fs, j - 4));
                        assert(fields.deep_view() == fs && j1 == j - 4);
                    }
                }
            }
            None
        },
    }
}

/// A candidate parse of the record objects of a nonempty snapshot, standing
/// exactly between `i` and `j` with a line break right after.
pub open spec fn items_cand(sv: Seq<char>, i: int, n: int, x: Seq<Seq<FieldV>>, j: int) -> bool {
    &&& x.len() >= 1
    &&& valid_snapshot_fields(x)
    &&& i <= j <= n
    &&& n == sv.len()
    &&& sv.subrange(i, j) == joined(x.map_values(|fs: Seq<FieldV>| enc_item(fs)))
    &&& j < n
    &&& sv[j] == '\n'
}

pub proof fn lemma_items_split(sv: Seq<char>, i: int, j: int, x: Seq<Seq<FieldV>>)
    requires
        0 <= i <= j <= sv.len(),
        x.len() >= 1,
        sv.subrange(i, j) == joined(x.map_values(|fs: Seq<FieldV>| enc_item(fs))),
    ensures
        j - i >= enc_item(x[0]).len(),
        sv.subrange(i, i + enc_item(x[0]).len()) == enc_item(x[0]),
        x.len() == 1 ==> j == i + enc_item(x[0]).len(),
        x.len() >= 2 ==> i + enc_item(x[0]).len() + 2 <= j && sv[i + enc_item(x[0]).len()] == ','
            && sv.subrange(i + enc_item(x[0]).len(), i + enc_item(x[0]).len() + 2) == seq![',',
            '\n',
        ] && sv.subrange(i + enc_item(x[0]).len() + 2, j) == joined(
            x.drop_first().map_values(|fs: Seq<FieldV>| enc_item(fs)),
        ),
{
    let lines = x.map_values(|fs: Seq<FieldV>| enc_item(fs));
    let el0 = enc_item(x[0]);
    assert(lines[0] == el0);
    let jq = i + el0.len();
    if x.len() == 1 {
        assert(joined(lines) == el0);
        assert(sv.subrange(i, j).len() == j - i);
        assert(sv.subrange(i, jq) =~= el0);
    } else {
        assert(lines.len() >= 2);
        assert(joined(lines) == lines[0] + seq![',', '\n'] + joined(lines.drop_first()));
        assert(joined(lines).len() == el0.len() + 2 + joined(lines.drop_first()).len());
        assert(sv.subrange(i, j).len() == j - i);
        lemma_subrange_split(sv, i, jq, j);
        assert(el0 + seq![',', '\n'] + joined(lines.drop_first()) == el0 + (seq![',', '\n']
            + joined(lines.drop_first())));
        lemma_concat_inj(
            sv.subrange(i, jq),
            sv.subrange(jq, j),
            el0,
            seq![',', '\n'] + joined(lines.drop_first()),
        );
        lemma_subrange_split(sv, jq, jq + 2, j);
        lemma_concat_inj(
            sv.subrange(jq, jq + 2),
            sv.subrange(jq + 2, j),
            seq![',', '\n'],
            joined(lines.drop_first()),
        );
        assert(sv[jq] == sv.subrange(jq, jq + 2)[0]);
        assert(lines.drop_first() =~= x.drop_first().map_values(
            |fs: Seq<FieldV>| enc_item(fs),
        ));
    }
}

/// Parses the record objects of a nonempty snapshot. Complete for every
/// valid object sequence standing at `i` followed by a line break.
#[verifier::rlimit(100)]
fn parse_items(s: &str, n: usize, i: usize) -> (r: Option<(Vec<Vec<Field>>, usize)>)
    requires
        n == s@.len(),
        i <= n,
    ensures
        r matches Some(p) ==> {
            &&& i < p.1 <= n
            &&& p.0@.len() >= 1
            &&& valid_snapshot_fields(p.0.deep_view())
            &&& s@.subrange(i as int, p.1 as int) == joined(
                p.0.deep_view().map_values(|fs: Seq<FieldV>| enc_item(fs)),
            )
        },
        forall|x: Seq<Seq<FieldV>>, j: int|
            items_cand(s@, i as int, n as int, x, j) ==> (r matches Some(p) && p.0.deep_view()
                == x && p.1 == j),
    decreases n - i,
{
    let (first, j1) = match parse_item(s, n, i) {
        Some(p) => p,
        None => {
            proof {
                assert forall|x: Seq<Seq<FieldV>>, j: int|
                    !items_cand(s@, i as int, n as int, x, j) by {
                    if items_cand(s@, i as int, n as int, x, j) {
                        lemma_items_split(s@, i as int, j, x);
                        assert(valid_fields(x[0]));
                        if x.len() == 1 {
                            assert(item_cand(s@, i as int, n as int, x[0], j));
                        } else {
                            assert(item_cand(
                                s@,
                                i as int,
                                n as int,
                                x[0],
                                i + enc_item(x[0]).len(),
                            ));
                        }
                    }
                }
            }
            return None;
        },
    };
    let has_more = j1 < n && s.get_char(j1) == ',';
    if has_more {
        let j2 = match expect_lit(s, n, j1, lit_sep()) {
            Some(j2) => j2,
            None => {
                proof {
                    assert forall|x: Seq<Seq<FieldV>>, j: int|
                        !items_cand(s@, i as int, n as int, x, j) by {
                        if items_cand(s@, i as int, n as int, x, j) {
                            lemma_items_split(s@, i as int, j, x);
                            if x.len() == 1 {
                                assert(item_cand(s@, i as int, n as int, x[0], j));
                                assert(j1 == j);
                            } else {
                                assert(item_cand(
                                    s@,
                                    i as int,
                                    n as int,
                                    x[0],
                                    i + enc_item(x[0]).len(),
                                ));
                                assert(j1 == i + enc_item(x[0]).len());
                            }
                        }
                    }
                }
                return None;
            },
        };
        match parse_items(s, n, j2) {
            Some((mut rest, j3)) => {
                let ghost old_rest_dv = rest.deep_view();
                rest.insert(0, first);
                proof {
                    assert(rest.deep_view() =~= seq![first.deep_view()] + old_rest_dv);
                    let dv = rest.deep_view();
                    let lines = dv.map_values(|fs: Seq<FieldV>| enc_item(fs));
                    assert(lines.drop_first() =~= old_rest_dv.map_values(
                        |fs: Seq<FieldV>| enc_item(fs),
                    ));
                    assert(lines[0] == enc_item(first.deep_view()));
                    assert(joined(lines) == lines[0] + seq![',', '\n'] + joined(
                        lines.drop_first(),
                    ));
                    assert(s@.subrange(i as int, j3 as int) =~= s@.subrange(i as int, j1 as int)
                        + s@.subrange(j1 as int, j2 as int) + s@.subrange(j2 as int, j3 as int));
                    assert(s@.subrange(i as int, j3 as int) == joined(lines));
                    assert forall|m: int| 0 <= m < dv.len() implies valid_fields(
                        #[trigger] dv[m],
                    ) by {
                        if m >= 1 {
                            assert(dv[m] == old_rest_dv[m - 1]);
                        }
                    }
                    assert forall|x: Seq<Seq<FieldV>>, j: int|
                        items_cand(s@, i as int, n as int, x, j) implies dv == x && j3 == j by {
                        lemma_items_split(s@, i as int, j, x);
                        if x.len() == 1 {
                            assert(item_cand(s@, i as int, n as int, x[0], j));
                            assert(j1 == j);
                            assert(s@[j1 as int] == '\n');
                            assert(false);
                        }
                        assert(item_cand(s@, i as int, n as int, x[0], i + enc_item(x[0]).len()));
                        assert(first.deep_view() == x[0] && j1 == i + enc_item(x[0]).len());
                        assert(items_cand(s@, j2 as int, n as int, x.drop_first(), j)) by {
                            assert forall|m: int|
                                0 <= m < x.drop_first().len() implies valid_fields(
                                #[trigger] x.drop_first()[m],
                            ) by {
                                assert(x.drop_first()[m] == x[m + 1]);
                            }
                        }
                        assert(old_rest_dv == x.drop_first() && j3 == j);
                        assert(dv =~= x);
                    }
                }
                Some((rest, j3))
            },
            None => {
                proof {
                    assert forall|x: Seq<Seq<FieldV>>, j: int|
                        !items_cand(s@, i as int, n as int, x, j) by {
                        if items_cand(s@, i as int, n as int, x, j) {
                            lemma_items_split(s@, i as int, j, x);
                            if x.len() == 1 {
                                assert(item_cand(s@, i as int, n as int, x[0], j));
                                assert(j1 == j);
                                assert(s@[j1 as int] == '\n');
                            } else {
                                assert(item_cand(
                                    s@,
                                    i as int,
                                    n as int,
                                    x[0],
                                    i + enc_item(x[0]).len(),
                                ));
                                assert(first.deep_view() == x[0] && j1 == i + enc_item(
                                    x[0],
                                ).len());
                                assert(items_cand(s@, j2 as int, n as int, x.drop_first(), j)) by {
                                    assert forall|m: int|
                                        0 <= m < x.drop_first().len() implies valid_fields(
                                        #[trigger] x.drop_first()[m],
                                    ) by {
                                        assert(x.drop_first()[m] == x[m + 1]);
                                    }
                                }
                            }
                        }
                    }
                }
                None
            },
        }
    } else {
        let out: Vec<Vec<Field>> = vec![first];
        proof {
            assert(out.deep_view() =~= seq![first.deep_view()]);
            assert(out.deep_view().map_values(|fs: Seq<FieldV>| enc_item(fs)) =~= seq![enc_item(
                first.deep_view(),
            )]);
            assert(joined(seq![enc_item(first.deep_view())]) == enc_item(first.deep_view()));
            assert forall|x: Seq<Seq<FieldV>>, j: int|
                items_cand(s@, i as int, n as int, x, j) implies out.deep_view() == x && j1
                == j by {
                lemma_items_split(s@, i as int, j, x);
                if x.len() >= 2 {
                    assert(item_cand(s@, i as int, n as int, x[0], i + enc_item(x[0]).len()));
                    assert(j1 == i + enc_item(x[0]).len());
                    assert(s@[j1 as int] == ',');
                    assert(j1 < n);
                    assert(false);
                }
                assert(item_cand(s@, i as int, n as int, x[0], j));
                assert(out.deep_view() =~= x);
            }
        }
        Some((out, j1))
    }
}

/// Decodes a whole snapshot from its durable text. Sound: whatever decodes
/// is a valid snapshot whose encoding is exactly the input. Complete: the
/// encoding of every valid snapshot decodes back to it, so decoding the
/// encoding of a snapshot always reproduces it.
#[verifier::rlimit(100)]
pub fn decode_snapshot_text(s: &str) -> (r: Option<Vec<Vec<Field>>>)
    ensures
        r matches Some(items) ==> valid_snapshot_fields(items.deep_view()) && s@ == enc_snapshot(
            items.deep_view(),
        ),
        forall|x: Seq<Seq<FieldV>>|
            valid_snapshot_fields(x) && s@ == enc_snapshot(x) ==> (r matches Some(items)
                && items.deep_view() == x),
{
    let n = s.unicode_len();
    proof {
        assert forall|x: Seq<Seq<FieldV>>|
            valid_snapshot_fields(x) && s@ == enc_snapshot(x) implies n >= 2 && s@[0] == '['
            && (x.len() == 0 <==> s@[1] == ']') by {
            if x.len() == 0 {
                assert(enc_snapshot(x) == seq!['[', ']']);
            } else {
                let lines = x.map_values(|fs: Seq<FieldV>| enc_item(fs));
                assert(enc_snapshot(x) == seq!['[', '\n'] + joined(lines) + seq!['\n', ']']);
                assert(s@[0] == '[');
                assert(s@[1] == '\n');
            }
        }
    }
    if n < 2 {
        return None;
    }
    let c0 = s.get_char(0);
    if c0 != '[' {
        return None;
    }
    let c1 = s.get_char(1);
    if c1 == ']' {
        if n == 2 {
            let out: Vec<Vec<Field>> = Vec::new();
            proof {
                assert(out.deep_view() =~= Seq::<Seq<FieldV>>::empty());
                assert(s@ =~= seq!['[', ']']);
                assert(enc_snapshot(out.deep_view()) == seq!['[', ']']);
                assert forall|x: Seq<Seq<FieldV>>|
                    valid_snapshot_fields(x) && s@ == enc_snapshot(x) implies out.deep_view()
                    == x by {
                    if x.len() > 0 {
                        assert(s@[1] == ']');
                    }
                    assert(x =~= out.deep_view());
                }
            }
            return Some(out);
        } else {
            proof {
                assert forall|x: Seq<Seq<FieldV>>|
                    !(valid_snapshot_fields(x) && s@ == enc_snapshot(x)) by {
                    if valid_snapshot_fields(x) && s@ == enc_snapshot(x) {
                        if x.len() == 0 {
                            assert(enc_snapshot(x) == seq!['[', ']']);
                            assert(s@.len() == 2);
                        } else {
                            assert(s@[1] == '\n');
                        }
                    }
                }
            }
            return None;
        }
    }
    if c1 != '\n' {
        return None;
    }
    // a nonempty snapshot: its record objects, then the closing line
    proof {
        assert forall|x: Seq<Seq<FieldV>>|
            valid_snapshot_fields(x) && s@ == enc_snapshot(x) implies x.len() >= 1 && items_cand(
            s@,
            2,
            n as int,
            x,
            n - 2,
        ) by {
            if x.len() == 0 {
                assert(enc_snapshot(x) == seq!['[', ']']);
                assert(s@[1] == ']');
            }
            let lines = x.map_values(|fs: Seq<FieldV>| enc_item(fs));
            assert(enc_snapshot(x) == seq!['[', '\n'] + joined(lines) + seq!['\n', ']']);
            assert(s@.len() == 2 + joined(lines).len() + 2);
            assert(s@.subrange(0, n as int) =~= s@);
            lemma_subrange_split(s@, 0, n - 2, n as int);
            assert(seq!['[', '\n'] + joined(lines) + seq!['\n', ']'] == (seq!['[', '\n']
                + joined(lines)) + seq!['\n', ']']);
            lemma_concat_inj(
                s@.subrange(0, n - 2),
                s@.subrange(n - 2, n as int),
                seq!['[', '\n'] + joined(lines),
                seq!['\n', ']'],
            );
            lemma_subrange_split(s@, 0, 2, n - 2);
            lemma_concat_inj(
                s@.subrange(0, 2),
                s@.subrange(2, n - 2),
                seq!['[', '\n'],
                joined(lines),
            );
            assert(s@[n - 2] == s@.subrange(n - 2, n as int)[0]);
        }
    }
    match parse_items(s, n, 2) {
        Some((items, j1)) => {
            match expect_lit(s, n, j1, lit_array_close()) {
                Some(j2) => {
                    if j2 == n {
                        proof {
                            assert(s@ =~= s@.subrange(0, 2) + s@.subrange(2, j1 as int)
                                + s@.subrange(j1 as int, n as int));
                            assert(s@.subrange(0, 2) =~= seq!['[', '\n']);
                            assert(s@ == enc_snapshot(items.deep_view()));
                        }
                        Some(items)
                    } else {
                        proof {
                            assert forall|x: Seq<Seq<FieldV>>|
                                !(valid_snapshot_fields(x) && s@ == enc_snapshot(x)) by {
                                if valid_snapshot_fields(x) && s@ == enc_snapshot(x) {
                                    assert(items_cand(s@, 2, n as int, x, n - 2));
                                    assert(items.deep_view() == x && j1 == n - 2);
                                }
                            }
                        }
                        None
                    }
                },
                None => {
                    proof {
                        assert forall|x: Seq<Seq<FieldV>>|
                            !(valid_snapshot_fields(x) && s@ == enc_snapshot(x)) by {
                            if valid_snapshot_fields(x) && s@ == enc_snapshot(x) {
                                assert(items_cand(s@, 2, n as int, x, n - 2));
                                assert(items.deep_view() == x && j1 == n - 2);
                                assert(s@.subrange(n - 2, n as int) == seq!['\n', ']']);
                            }
                        }
                    }
                    None
                },
            }
        },
        None => {
            proof {
                assert forall|x: Seq<Seq<FieldV>>|
                    !(valid_snapshot_fields(x) && s@ == enc_snapshot(x)) by {
                    if valid_snapshot_fields(x) && s@ == enc_snapshot(x) {
                        assert(items_cand(s@, 2, n as int, x, n - 2));
                    }
                }
            }
            None
        },
    }
}

} // verus!
