//! Reading a price, in cents, from the JSON answer of a price service.
use vstd::prelude::*;
use lite_json::json::JsonValue;

verus! {

/// A JSON number as the price logic reads it: its integer part, its
/// fraction digits as a number, and how many fraction digits there are.
pub type JsonNumber = (u64, u64, u32);

/// A JSON value as the price logic reads it: which kind of value it is,
/// and the parts of a number.
#[derive(Clone, Copy, Debug)]
pub enum JsonField {
    Object,
    Array,
    String,
    Number(JsonNumber),
    Boolean,
    Null,
}

impl DeepView for JsonField {
    type V = JsonField;

    open spec fn deep_view(&self) -> JsonField {
        *self
    }
}

/// A parsed JSON document as the price logic reads it: the entries of an
/// object at the top level, or the kind of any other top-level value.
#[derive(Debug)]
pub enum JsonDocument {
    Object(Vec<(Vec<char>, JsonField)>),
    Other(JsonField),
}

/// What a `JsonDocument` stands for.
pub enum JsonDocumentView {
    Object(Seq<(Seq<char>, JsonField)>),
    Other(JsonField),
}

impl DeepView for JsonDocument {
    type V = JsonDocumentView;

    open spec fn deep_view(&self) -> JsonDocumentView {
        match self {
            JsonDocument::Object(es) => JsonDocumentView::Object(es.deep_view()),
            JsonDocument::Other(f) => JsonDocumentView::Other(*f),
        }
    }
}

/// The document that `lite_json::parse_json` reads in `s`, or `None` when
/// `s` is not a JSON document.
pub uninterp spec fn json_parse(s: Seq<char>) -> Option<JsonDocumentView>;

/// Whether `c` is an ASCII decimal digit.
pub open spec fn is_digit_char(c: char) -> bool {
    '0' <= c <= '9'
}

/// The value of the digit `c`.
pub open spec fn digit_value(c: char) -> int {
    (c as int) - ('0' as int)
}

/// Where a scan of a JSON text stands: outside any string, inside a
/// string, or just after a backslash inside a string.
pub enum LexState {
    Outside,
    InString,
    Escaped,
}

/// Where a scan of `s` stands before its character `k`.
pub open spec fn lex_state(s: Seq<char>, k: nat) -> LexState
    decreases k,
{
    if k == 0 {
        LexState::Outside
    } else {
        let c = s[k - 1];
        match lex_state(s, (k - 1) as nat) {
            LexState::Outside => if c == '"' { LexState::InString } else { LexState::Outside },
            LexState::InString => if c == '"' {
                LexState::Outside
            } else if c == '\\' {
                LexState::Escaped
            } else {
                LexState::InString
            },
            LexState::Escaped => LexState::InString,
        }
    }
}

/// Where the run of digits of `s` that ends before `k` starts.
pub open spec fn run_start(s: Seq<char>, k: nat) -> nat
    decreases k,
{
    if k > 0 && is_digit_char(s[k - 1]) {
        run_start(s, (k - 1) as nat)
    } else {
        k
    }
}

/// The decimal value of the run of digits of `s` that ends before `k`.
pub open spec fn run_value(s: Seq<char>, k: nat) -> int
    decreases k,
{
    if k > 0 && is_digit_char(s[k - 1]) {
        run_value(s, (k - 1) as nat) * 10 + digit_value(s[k - 1])
    } else {
        0
    }
}

/// Whether a run of digits that starts at `start` of `s` is the exponent of
/// a number: it follows `e` or `E`, alone or with a sign.
pub open spec fn exponent_run(s: Seq<char>, start: nat) -> bool {
    let is_e = |c: char| c == 'e' || c == 'E';
    ||| start >= 1 && is_e(s[start - 1])
    ||| start >= 2 && (s[start - 1] == '+' || s[start - 1] == '-') && is_e(s[start - 2])
}

/// Whether every number part of the JSON text `s` fits where the parser
/// accumulates it: each run of digits outside strings has a value that
/// fits in an `i32` if it is an exponent, and in a `u64` otherwise.
pub open spec fn numbers_fit(s: Seq<char>) -> bool {
    forall|k: nat|
        0 < k <= s.len() && lex_state(s, (k - 1) as nat) is Outside && is_digit_char(s[k - 1])
            ==> #[trigger] run_value(s, k) <= (if exponent_run(s, run_start(s, k)) {
            i32::MAX as int
        } else {
            u64::MAX as int
        })
}

/// Calls `lite_json::parse_json` on `text` and keeps what the price logic
/// reads: the top-level value's kind, each entry of a top-level object
/// with its value's kind, and the parts of each number. The parser
/// accumulates the digits of a number's integer part and fraction in a
/// `u64` and of its exponent in an `i32`, and overflows when a run of
/// digits does not fit there. It counts positions in a `u32`, one per
/// character, and when it tries the words `null`, `true` and `false` it
/// advances that count by up to five characters past the current one;
/// `requires` leaves out the texts where either would overflow. Its result is a function of its argument
/// alone, named `json_parse`.
#[verifier::external_body]
fn parse_json_document(text: &str) -> (r: Option<JsonDocument>)
    requires
        text@.len() + 5 <= u32::MAX,
        numbers_fit(text@),
    ensures
        r.deep_view() == json_parse(text@),
{
    let f = |v: JsonValue| match v {
        JsonValue::Object(_) => JsonField::Object,
        JsonValue::Array(_) => JsonField::Array,
        JsonValue::String(_) => JsonField::String,
        JsonValue::Number(n) => JsonField::Number((n.integer, n.fraction, n.fraction_length)),
        JsonValue::Boolean(_) => JsonField::Boolean,
        JsonValue::Null => JsonField::Null,
    };
    match lite_json::parse_json(text) {
        Ok(JsonValue::Object(obj)) => Some(JsonDocument::Object(obj.into_iter().map(|(k, v)| (k, f(v))).collect())),
        Ok(v) => Some(JsonDocument::Other(f(v))),
        Err(_) => None,
    }
}

/// The key under which the price is given.
pub open spec fn usd() -> Seq<char> {
    seq!['U', 'S', 'D']
}

/// The value of the first entry of `es` whose key is `USD`, if there is one.
pub open spec fn first_usd(es: Seq<(Seq<char>, JsonField)>) -> Option<JsonField>
    decreases es.len(),
{
    if es.len() == 0 {
        None
    } else if es[0].0 == usd() {
        Some(es[0].1)
    } else {
        first_usd(es.skip(1))
    }
}

/// The number of fraction digits beyond the cents.
pub open spec fn cents_exp(fraction_length: u32) -> nat {
    if fraction_length >= 2 { (fraction_length - 2) as nat } else { 0 }
}

/// Ten to the power `n`.
pub open spec fn pow10(n: nat) -> int
    decreases n,
{
    if n == 0 { 1 } else { 10 * pow10((n - 1) as nat) }
}

/// The cents that the fraction of `n` stands for: a single fraction digit
/// counts tens of cents, and digits beyond the second are dropped.
pub open spec fn fraction_cents(n: JsonNumber) -> int {
    if n.2 == 1 {
        n.1 * 10
    } else {
        n.1 as int / pow10(cents_exp(n.2))
    }
}

/// The price in cents of the number `n`.
pub open spec fn price_cents_spec(n: JsonNumber) -> int {
    n.0 * 100 + fraction_cents(n)
}

/// Whether the price in cents of `n` fits in a `u32`.
pub open spec fn price_fits(n: JsonNumber) -> bool {
    price_cents_spec(n) <= u32::MAX
}

/// Ten to the power `n`, for `n` below 20.
fn pow10_u64(n: u32) -> (r: u64)
    requires
        n < 20,
    ensures
        r == pow10(n as nat),
        r >= 1,
{
    proof {
        lemma_pow10_le(n as nat, n as nat);
    }
    let mut r: u64 = 1;
    let mut i: u32 = 0;
    while i < n
        invariant
            i <= n < 20,
            r == pow10(i as nat),
            pow10(i as nat) <= 10000000000000000000,
        decreases n - i,
    {
        proof {
            lemma_pow10_le(i as nat + 1, 19);
            lemma_pow10_19();
        }
        r = r * 10;
        i = i + 1;
    }
    r
}

/// Ten to a power at most `b` is at most ten to the power `b`.
proof fn lemma_pow10_le(a: nat, b: nat)
    requires
        a <= b,
    ensures
        1 <= pow10(a) <= pow10(b),
    decreases b,
{
    if a < b {
        lemma_pow10_le(a, (b - 1) as nat);
    } else if a > 0 {
        lemma_pow10_le((a - 1) as nat, (a - 1) as nat);
    }
}

/// Ten to the power 19, and to the power 20.
proof fn lemma_pow10_19()
    ensures
        pow10(19) == 10000000000000000000,
        pow10(20) == 100000000000000000000,
{
    reveal_with_fuel(pow10, 21);
}

/// The price in cents of the number `n`, or `None` when it does not fit
/// in a `u32`.
pub fn price_cents(n: JsonNumber) -> (r: Option<u32>)
    ensures
        r == (if price_fits(n) {
            Some(price_cents_spec(n) as u32)
        } else {
            None
        }),
{
    let (integer, fraction, fraction_length) = n;
    let frac: u64 = if fraction_length == 1 {
        match fraction.checked_mul(10) {
            Some(f) => f,
            None => return None,
        }
    } else {
        let exp: u32 = if fraction_length >= 2 { fraction_length - 2 } else { 0 };
        if exp >= 20 {
            proof {
                lemma_pow10_le(20, exp as nat);
                lemma_pow10_19();
                vstd::arithmetic::div_mod::lemma_basic_div(fraction as int, pow10(exp as nat));
            }
            0
        } else {
            fraction / pow10_u64(exp)
        }
    };
    assert(frac == fraction_cents(n));
    let cents = match integer.checked_mul(100) {
        Some(c) => c,
        None => return None,
    };
    match cents.checked_add(frac) {
        Some(total) => if total <= u32::MAX as u64 {
            Some(total as u32)
        } else {
            None
        },
        None => None,
    }
}

/// The value of the first entry of `entries` whose key is `USD`, if any.
pub fn find_usd(entries: &Vec<(Vec<char>, JsonField)>) -> (r: Option<JsonField>)
    ensures
        r == first_usd(entries.deep_view()),
{
    let ghost es = entries.deep_view();
    proof {
        assert(es.skip(0) == es);
    }
    let mut i: usize = 0;
    while i < entries.len()
        invariant
            i <= entries@.len(),
            es == entries.deep_view(),
            es.len() == entries@.len(),
            first_usd(es) == first_usd(es.skip(i as int)),
        decreases entries@.len() - i,
    {
        let key = &entries[i].0;
        proof {
            assert(es[i as int].0 == key@);
            assert(es.skip(i as int)[0] == es[i as int]);
            assert(es.skip(i as int).skip(1) == es.skip(i as int + 1));
        }
        if key.len() == 3 && key[0] == 'U' && key[1] == 'S' && key[2] == 'D' {
            proof {
                assert(key@ == usd());
            }
            return Some(entries[i].1);
        }
        proof {
            assert(key@ != usd()) by {
                if key@ == usd() {
                    assert(key@.len() == 3 && key@[0] == 'U' && key@[1] == 'S' && key@[2] == 'D');
                }
            }
        }
        i = i + 1;
    }
    proof {
        assert(es.skip(i as int).len() == 0);
    }
    None
}

/// The price in cents that the parsed document `doc` gives: the first
/// `USD` entry of a top-level object, when it is a number whose price in
/// cents fits in a `u32`.
pub open spec fn price_of_document(doc: Option<JsonDocumentView>) -> Option<u32> {
    match doc {
        Some(JsonDocumentView::Object(es)) => match first_usd(es) {
            Some(JsonField::Number(n)) => if price_fits(n) {
                Some(price_cents_spec(n) as u32)
            } else {
                None
            },
            _ => None,
        },
        _ => None,
    }
}

/// The price in cents that the parsed document `doc` gives; `None` when it
/// is no document, its top level is not an object, the object has no
/// `USD` entry, the first such entry is not a number, or its price in
/// cents does not fit in a `u32`.
pub fn price_from_document(doc: &Option<JsonDocument>) -> (r: Option<u32>)
    ensures
        r == price_of_document(doc.deep_view()),
{
    match doc {
        Some(JsonDocument::Object(entries)) => match find_usd(entries) {
            Some(JsonField::Number(n)) => price_cents(n),
            _ => None,
        },
        _ => None,
    }
}

/// The price in cents given under `USD` in the top-level object of the
/// JSON document `price_str`.
pub fn parse_price(price_str: &str) -> (r: Option<u32>)
    requires
        price_str@.len() + 5 <= u32::MAX,
        numbers_fit(price_str@),
    ensures
        r == price_of_document(json_parse(price_str@)),
{
    let doc = parse_json_document(price_str);
    price_from_document(&doc)
}

} // verus!
