//! The configuration text format.
//!
//! Configuration values travel as JSON text: objects of string keys bound
//! to strings, integers, booleans, nested objects or arrays of objects.
//! This module pins the format down mathematically: [`ser_obj`] says what
//! text a value serializes to, and [`sp_obj`] is the grammar, written as a
//! recursive-descent parse function over the character sequence.  The
//! executable serializer and parser (on the configuration value type)
//! mirror these functions exactly, and [`lemma_round_trip_document`]
//! proves that parsing a serialized value gives the value back.
//!
//! The serializer is canonical: no whitespace, strings escaping only the
//! quote and the backslash.  The parser accepts exactly the grammar here;
//! anything else is malformed.

use vstd::prelude::*;

use crate::settings::{
    has_key, keys_unique, nul_free, wf_items, wf_obj, wf_val, ValModel,
};

verus! {

/// Decimal digit?
pub open spec fn is_digit(c: char) -> bool {
    48 <= c as u32 <= 57
}

/// The digit character for `d` (a single decimal digit).
pub open spec fn digit_char(d: int) -> char {
    if d == 0 {
        '0'
    } else if d == 1 {
        '1'
    } else if d == 2 {
        '2'
    } else if d == 3 {
        '3'
    } else if d == 4 {
        '4'
    } else if d == 5 {
        '5'
    } else if d == 6 {
        '6'
    } else if d == 7 {
        '7'
    } else if d == 8 {
        '8'
    } else {
        '9'
    }
}

/// The value of a digit character.
pub open spec fn digit_val(c: char) -> int {
    c as u32 - 48
}

/// Ten to the `k`.
pub open spec fn pow10(k: nat) -> nat
    decreases k,
{
    if k == 0 {
        1
    } else {
        10 * pow10((k - 1) as nat)
    }
}

/// The decimal digits of `n`, most significant first.
pub open spec fn ser_nat(n: nat) -> Seq<char>
    decreases n,
{
    if n < 10 {
        seq![digit_char(n as int)]
    } else {
        ser_nat(n / 10).push(digit_char((n % 10) as int))
    }
}

/// The decimal text of `n`, with a leading minus when negative.
pub open spec fn ser_int(n: int) -> Seq<char> {
    if n < 0 {
        seq!['-'] + ser_nat((-n) as nat)
    } else {
        ser_nat(n as nat)
    }
}

/// One string character, escaped when it is the quote or the backslash.
pub open spec fn esc_char(c: char) -> Seq<char> {
    if c == '"' || c == '\\' {
        seq!['\\', c]
    } else {
        seq![c]
    }
}

/// A string body with quote and backslash escaped.
pub open spec fn esc(s: Seq<char>) -> Seq<char>
    decreases s.len(),
{
    if s.len() == 0 {
        Seq::empty()
    } else {
        esc_char(s[0]) + esc(s.drop_first())
    }
}

/// A quoted, escaped string.
pub open spec fn ser_string(s: Seq<char>) -> Seq<char> {
    seq!['"'] + esc(s) + seq!['"']
}

/// The text of one value.
pub open spec fn ser_val(v: ValModel) -> Seq<char>
    decreases v, 0int,
{
    match v {
        ValModel::S(s) => ser_string(s),
        ValModel::I(n) => ser_int(n),
        ValModel::B(b) => if b {
            seq!['t', 'r', 'u', 'e']
        } else {
            seq!['f', 'a', 'l', 's', 'e']
        },
        ValModel::O(entries) => ser_obj(entries),
        ValModel::A(items) => ser_arr(items),
    }
}

/// The text of one object: braces around comma-separated entries.
pub open spec fn ser_obj(entries: Seq<(Seq<char>, ValModel)>) -> Seq<char>
    decreases entries, 2int,
{
    seq!['{'] + ser_entries(entries) + seq!['}']
}

/// The text of one `"key":value` entry.
pub open spec fn ser_entry(e: (Seq<char>, ValModel)) -> Seq<char>
    decreases e, 1int,
{
    ser_string(e.0) + seq![':'] + ser_val(e.1)
}

/// Comma-separated entries, in order.
pub open spec fn ser_entries(entries: Seq<(Seq<char>, ValModel)>) -> Seq<char>
    decreases entries, 1int,
{
    if entries.len() == 0 {
        Seq::empty()
    } else if entries.len() == 1 {
        ser_entry(entries[0])
    } else {
        ser_entry(entries[0]) + seq![','] + ser_entries(entries.drop_first())
    }
}

/// The text of one array: brackets around comma-separated objects.
pub open spec fn ser_arr(items: Seq<Seq<(Seq<char>, ValModel)>>) -> Seq<char>
    decreases items, 2int,
{
    seq!['['] + ser_items(items) + seq![']']
}

/// Comma-separated objects, in order.
pub open spec fn ser_items(items: Seq<Seq<(Seq<char>, ValModel)>>) -> Seq<char>
    decreases items, 1int,
{
    if items.len() == 0 {
        Seq::empty()
    } else if items.len() == 1 {
        ser_obj(items[0])
    } else {
        ser_obj(items[0]) + seq![','] + ser_items(items.drop_first())
    }
}

// ---------------------------------------------------------------------
// The grammar, as a recursive-descent parse over the character sequence.
// Each function takes the text and a position and yields the parsed
// model and the position after it, or nothing when the text is
// malformed there.
// ---------------------------------------------------------------------

/// A string body after its opening quote: plain characters, the two
/// escapes, no NUL, up to the closing quote.
pub open spec fn sp_str_body(s: Seq<char>, i: int) -> Option<(Seq<char>, int)>
    decreases s.len() - i, 0int,
{
    if i < 0 || i >= s.len() {
        None
    } else if s[i] == '"' {
        Some((Seq::empty(), i + 1))
    } else if s[i] == '\\' {
        if i + 1 < s.len() && (s[i + 1] == '"' || s[i + 1] == '\\') {
            match sp_str_body(s, i + 2) {
                Some((t, j)) => Some((seq![s[i + 1]] + t, j)),
                None => None,
            }
        } else {
            None
        }
    } else if s[i] == '\0' {
        None
    } else {
        match sp_str_body(s, i + 1) {
            Some((t, j)) => Some((seq![s[i]] + t, j)),
            None => None,
        }
    }
}

/// A quoted string.
pub open spec fn sp_string(s: Seq<char>, i: int) -> Option<(Seq<char>, int)>
    decreases s.len() - i, 1int,
{
    if 0 <= i < s.len() && s[i] == '"' {
        sp_str_body(s, i + 1)
    } else {
        None
    }
}

/// The end of the digit run starting at `i`.
pub open spec fn digit_run_end(s: Seq<char>, i: int) -> int
    decreases s.len() - i, 0int,
{
    if 0 <= i < s.len() && is_digit(s[i]) {
        digit_run_end(s, i + 1)
    } else {
        i
    }
}

/// The value of the digit run `s[i..j)`.
pub open spec fn sp_digits_val(s: Seq<char>, i: int, j: int) -> int
    decreases j - i,
{
    if j <= i {
        0
    } else {
        sp_digits_val(s, i, j - 1) * 10 + digit_val(s[j - 1])
    }
}

/// An integer: optional minus, one to nineteen digits, within the
/// machine's signed 64-bit range.
pub open spec fn sp_int(s: Seq<char>, i: int) -> Option<(int, int)>
    decreases s.len() - i, 1int,
{
    if !(0 <= i < s.len()) {
        None
    } else {
        let neg = s[i] == '-';
        let st = if neg {
            i + 1
        } else {
            i
        };
        let e = digit_run_end(s, st);
        let l = e - st;
        if l < 1 || l > 19 {
            None
        } else {
            let mag = sp_digits_val(s, st, e);
            let n = if neg {
                -mag
            } else {
                mag
            };
            if n < i64::MIN as int || n > i64::MAX as int {
                None
            } else {
                Some((n, e))
            }
        }
    }
}

/// One value: a string, an integer, a boolean, an object or an array.
pub open spec fn sp_val(s: Seq<char>, i: int) -> Option<(ValModel, int)>
    decreases s.len() - i, 4int,
{
    if !(0 <= i < s.len()) {
        None
    } else if s[i] == '"' {
        match sp_string(s, i) {
            Some((t, j)) => Some((ValModel::S(t), j)),
            None => None,
        }
    } else if s[i] == '{' {
        match sp_obj(s, i) {
            Some((e, j)) => Some((ValModel::O(e), j)),
            None => None,
        }
    } else if s[i] == '[' {
        match sp_arr(s, i) {
            Some((a, j)) => Some((ValModel::A(a), j)),
            None => None,
        }
    } else if s[i] == 't' {
        if i + 4 <= s.len() && s[i + 1] == 'r' && s[i + 2] == 'u' && s[i + 3] == 'e' {
            Some((ValModel::B(true), i + 4))
        } else {
            None
        }
    } else if s[i] == 'f' {
        if i + 5 <= s.len() && s[i + 1] == 'a' && s[i + 2] == 'l' && s[i + 3] == 's' && s[i + 4]
            == 'e' {
            Some((ValModel::B(false), i + 5))
        } else {
            None
        }
    } else if s[i] == '-' || is_digit(s[i]) {
        match sp_int(s, i) {
            Some((n, j)) => Some((ValModel::I(n), j)),
            None => None,
        }
    } else {
        None
    }
}

/// An object: `{}` or `{` entries `}`.
pub open spec fn sp_obj(s: Seq<char>, i: int) -> Option<(Seq<(Seq<char>, ValModel)>, int)>
    decreases s.len() - i, 2int,
{
    if !(0 <= i < s.len() && s[i] == '{') {
        None
    } else if i + 1 < s.len() && s[i + 1] == '}' {
        Some((Seq::empty(), i + 2))
    } else {
        sp_entries(s, i + 1, Seq::empty())
    }
}

/// Entries after `{` or `,`: one `"key":value`, then a comma and more
/// entries or the closing brace.  A repeated key is malformed.
pub open spec fn sp_entries(
    s: Seq<char>,
    i: int,
    done: Seq<(Seq<char>, ValModel)>,
) -> Option<(Seq<(Seq<char>, ValModel)>, int)>
    decreases s.len() - i, 2int,
{
    match sp_string(s, i) {
        None => None,
        Some((k, j)) => if j <= i || has_key(done, k) {
            None
        } else if !(j < s.len() && s[j] == ':') {
            None
        } else {
            match sp_val(s, j + 1) {
                None => None,
                Some((v, j2)) => if j2 <= j {
                    None
                } else if j2 < s.len() && s[j2] == ',' {
                    sp_entries(s, j2 + 1, done.push((k, v)))
                } else if j2 < s.len() && s[j2] == '}' {
                    Some((done.push((k, v)), j2 + 1))
                } else {
                    None
                },
            }
        },
    }
}

/// An array: `[]` or `[` objects `]`.
pub open spec fn sp_arr(s: Seq<char>, i: int) -> Option<(Seq<Seq<(Seq<char>, ValModel)>>, int)>
    decreases s.len() - i, 3int,
{
    if !(0 <= i < s.len() && s[i] == '[') {
        None
    } else if i + 1 < s.len() && s[i + 1] == ']' {
        Some((Seq::empty(), i + 2))
    } else {
        sp_items(s, i + 1, Seq::empty())
    }
}

/// Objects after `[` or `,`: one object, then a comma and more objects
/// or the closing bracket.
pub open spec fn sp_items(
    s: Seq<char>,
    i: int,
    done: Seq<Seq<(Seq<char>, ValModel)>>,
) -> Option<(Seq<Seq<(Seq<char>, ValModel)>>, int)>
    decreases s.len() - i, 3int,
{
    match sp_obj(s, i) {
        None => None,
        Some((o, j)) => if j <= i {
            None
        } else if j < s.len() && s[j] == ',' {
            sp_items(s, j + 1, done.push(o))
        } else if j < s.len() && s[j] == ']' {
            Some((done.push(o), j + 1))
        } else {
            None
        },
    }
}

/// A whole configuration document: one object covering all of the text.
pub open spec fn spec_parse_document(s: Seq<char>) -> Option<Seq<(Seq<char>, ValModel)>> {
    match sp_obj(s, 0) {
        Some((e, j)) => if j == s.len() {
            Some(e)
        } else {
            None
        },
        None => None,
    }
}

// ---------------------------------------------------------------------
// Round trip: parsing a serialized value yields the value back.
// ---------------------------------------------------------------------

/// Does `x` stand at position `i` of `s`?
pub open spec fn matches_at(s: Seq<char>, i: int, x: Seq<char>) -> bool {
    &&& 0 <= i
    &&& i + x.len() <= s.len()
    &&& forall|k: int| 0 <= k < x.len() ==> s[i + k] == x[k]
}

/// A concatenation stands at `i` exactly when its parts stand in turn.
pub proof fn lemma_matches_split(s: Seq<char>, i: int, x: Seq<char>, y: Seq<char>)
    requires
        matches_at(s, i, x + y),
    ensures
        matches_at(s, i, x),
        matches_at(s, i + x.len(), y),
{
    assert forall|k: int| 0 <= k < x.len() implies s[i + k] == x[k] by {
        assert((x + y)[k] == x[k]);
        assert(s[i + k] == (x + y)[k]);
    }
    assert forall|k: int| 0 <= k < y.len() implies s[i + x.len() + k] == y[k] by {
        assert((x + y)[x.len() + k] == y[k]);
        assert(s[i + (x.len() + k)] == (x + y)[x.len() + k]);
    }
}

/// One character of a match, read off at its position.
pub proof fn lemma_matches_index(s: Seq<char>, i: int, x: Seq<char>, k: int)
    requires
        matches_at(s, i, x),
        0 <= k < x.len(),
    ensures
        s[i + k] == x[k],
{
}

/// The digit character of a digit value, and back.
pub proof fn lemma_digit_char_val(d: int)
    requires
        0 <= d < 10,
    ensures
        is_digit(digit_char(d)),
        digit_val(digit_char(d)) == d,
{
}

/// Powers of ten grow.
pub proof fn lemma_pow10_mono(a: nat, b: nat)
    requires
        a <= b,
    ensures
        pow10(a) <= pow10(b),
    decreases b,
{
    if a < b {
        lemma_pow10_mono(a, (b - 1) as nat);
    }
}

/// The decimal digits of `n`: at least one, all digits, and exactly
/// enough of them.
pub proof fn lemma_ser_nat_digits(n: nat)
    ensures
        1 <= ser_nat(n).len(),
        forall|k: int| 0 <= k < ser_nat(n).len() ==> is_digit(#[trigger] ser_nat(n)[k]),
        n < pow10(ser_nat(n).len() as nat),
        n >= 10 ==> ser_nat(n).len() >= 2,
        n > 0 ==> pow10((ser_nat(n).len() - 1) as nat) <= n,
    decreases n,
{
    if n < 10 {
        lemma_digit_char_val(n as int);
    } else {
        lemma_ser_nat_digits(n / 10);
        lemma_digit_char_val((n % 10) as int);
        let l = ser_nat(n / 10).len();
        assert(ser_nat(n).len() == l + 1);
        assert forall|k: int| 0 <= k < ser_nat(n).len() implies is_digit(
            #[trigger] ser_nat(n)[k],
        ) by {
            if k < l {
                assert(ser_nat(n)[k] == ser_nat(n / 10)[k]);
            }
        }
        assert(n / 10 < pow10(l));
        assert(n == (n / 10) * 10 + (n % 10)) by {
            vstd::arithmetic::div_mod::lemma_fundamental_div_mod(n as int, 10);
        }
        assert((n / 10) * 10 <= (pow10(l) - 1) * 10);
        assert(n < pow10(l) * 10);
        assert(pow10(l + 1) == 10 * pow10(l));
        assert(pow10((l - 1) as nat) <= n / 10);
        assert(pow10(l) == 10 * pow10((l - 1) as nat));
        assert(10 * (n / 10) <= n);
    }
}

/// A run of digits closed off by a non-digit (or the end) ends exactly
/// there.
pub proof fn lemma_digit_run(s: Seq<char>, i: int, j: int)
    requires
        0 <= i <= j <= s.len(),
        forall|k: int| i <= k < j ==> is_digit(#[trigger] s[k]),
        j == s.len() || !is_digit(s[j]),
    ensures
        digit_run_end(s, i) == j,
    decreases j - i,
{
    if i < j {
        lemma_digit_run(s, i + 1, j);
    }
}

/// The value of a serialized number's digit run is the number.
pub proof fn lemma_digits_val_of_ser(s: Seq<char>, i: int, n: nat)
    requires
        matches_at(s, i, ser_nat(n)),
    ensures
        sp_digits_val(s, i, i + ser_nat(n).len()) == n,
    decreases n,
{
    let l = ser_nat(n).len();
    if n < 10 {
        lemma_digit_char_val(n as int);
        assert(s[i] == ser_nat(n)[0]);
        assert(sp_digits_val(s, i, i + 1) == sp_digits_val(s, i, i) * 10 + digit_val(s[i]));
    } else {
        assert(ser_nat(n) =~= ser_nat(n / 10) + seq![digit_char((n % 10) as int)]);
        lemma_matches_split(s, i, ser_nat(n / 10), seq![digit_char((n % 10) as int)]);
        lemma_digits_val_of_ser(s, i, n / 10);
        lemma_digit_char_val((n % 10) as int);
        lemma_matches_index(s, i + (l - 1), seq![digit_char((n % 10) as int)], 0);
        assert(s[i + (l - 1)] == digit_char((n % 10) as int));
        assert(sp_digits_val(s, i, i + l) == sp_digits_val(s, i, i + l - 1) * 10 + digit_val(
            s[i + l - 1],
        ));
        assert(n == (n / 10) * 10 + (n % 10)) by {
            vstd::arithmetic::div_mod::lemma_fundamental_div_mod(n as int, 10);
        }
    }
}

/// A serialized integer in machine range parses back to itself.
pub proof fn lemma_parse_ser_int(s: Seq<char>, i: int, n: int)
    requires
        i64::MIN as int <= n <= i64::MAX as int,
        matches_at(s, i, ser_int(n)),
        i + ser_int(n).len() == s.len() || !is_digit(s[i + ser_int(n).len()]),
    ensures
        sp_int(s, i) == Some((n, i + ser_int(n).len())),
{
    assert(pow10(19) == 10000000000000000000) by {
        reveal_with_fuel(pow10, 21);
    }
    if n >= 0 {
        lemma_ser_nat_digits(n as nat);
        let l = ser_nat(n as nat).len();
        assert forall|k: int| i <= k < i + l implies is_digit(#[trigger] s[k]) by {
            lemma_matches_index(s, i, ser_nat(n as nat), k - i);
            assert(s[k] == ser_nat(n as nat)[k - i]);
        }
        lemma_matches_index(s, i, ser_nat(n as nat), 0);
        assert(s[i] == ser_nat(n as nat)[0]);
        assert(is_digit(s[i]));
        assert(s[i] != '-');
        lemma_digit_run(s, i, i + l);
        assert(l <= 19) by {
            if l > 19 {
                lemma_pow10_mono(19, (l - 1) as nat);
                assert(pow10((l - 1) as nat) <= n);
            }
        }
        lemma_digits_val_of_ser(s, i, n as nat);
    } else {
        let m = (-n) as nat;
        lemma_ser_nat_digits(m);
        let l = ser_nat(m).len();
        assert(ser_int(n) == seq!['-'] + ser_nat(m));
        lemma_matches_split(s, i, seq!['-'], ser_nat(m));
        lemma_matches_index(s, i, seq!['-'], 0);
        assert(s[i] == '-');
        assert forall|k: int| i + 1 <= k < i + 1 + l implies is_digit(#[trigger] s[k]) by {
            lemma_matches_index(s, i + 1, ser_nat(m), k - (i + 1));
            assert(s[k] == ser_nat(m)[k - (i + 1)]);
        }
        lemma_digit_run(s, i + 1, i + 1 + l);
        assert(l <= 19) by {
            if l > 19 {
                lemma_pow10_mono(19, (l - 1) as nat);
                assert(pow10((l - 1) as nat) <= m);
            }
        }
        lemma_digits_val_of_ser(s, i + 1, m);
    }
}

/// Escaping then appending to the string appends the escape.
pub proof fn lemma_esc_push(s: Seq<char>, c: char)
    ensures
        esc(s.push(c)) == esc(s) + esc_char(c),
    decreases s.len(),
{
    if s.len() == 0 {
        assert(s.push(c)[0] == c);
        assert(s.push(c).drop_first() =~= Seq::<char>::empty());
        assert(esc(Seq::<char>::empty()) == Seq::<char>::empty());
        assert(esc(s.push(c)) == esc_char(c) + esc(s.push(c).drop_first()));
        assert(esc(s) == Seq::<char>::empty());
        assert(esc(s.push(c)) =~= esc(s) + esc_char(c));
    } else {
        assert(s.push(c)[0] == s[0]);
        assert(s.push(c).drop_first() =~= s.drop_first().push(c));
        lemma_esc_push(s.drop_first(), c);
        assert(esc(s.push(c)) == esc_char(s[0]) + (esc(s.drop_first()) + esc_char(c)));
        assert(esc_char(s[0]) + (esc(s.drop_first()) + esc_char(c)) =~= (esc_char(s[0]) + esc(
            s.drop_first(),
        )) + esc_char(c));
    }
}

/// A serialized NUL-free string body, closed by its quote, parses back
/// to itself.
pub proof fn lemma_parse_esc(s: Seq<char>, i: int, t: Seq<char>)
    requires
        nul_free(t),
        matches_at(s, i, esc(t) + seq!['"']),
    ensures
        sp_str_body(s, i) == Some((t, i + esc(t).len() + 1)),
    decreases t.len(),
{
    if t.len() == 0 {
        assert(s[i] == (esc(t) + seq!['"'])[0]);
    } else {
        let c = t[0];
        let rest = t.drop_first();
        assert(esc(t) == esc_char(c) + esc(rest));
        assert(nul_free(rest)) by {
            assert(forall|k: int| 0 <= k < rest.len() ==> rest[k] == t[k + 1]);
        }
        assert(c != '\0') by {
            assert(t[0] == c);
        }
        assert((esc_char(c) + esc(rest)) + seq!['"'] =~= esc_char(c) + (esc(rest) + seq!['"']));
        lemma_matches_split(s, i, esc_char(c), esc(rest) + seq!['"']);
        lemma_parse_esc(s, i + esc_char(c).len(), rest);
        if c == '"' || c == '\\' {
            assert(s[i] == esc_char(c)[0]);
            assert(s[i + 1] == esc_char(c)[1]);
            assert(s[i] == '\\');
            assert(s[i + 1] == c);
            assert(sp_str_body(s, i + 2) == Some((rest, i + 2 + esc(rest).len() + 1)));
            assert(seq![s[i + 1]] + rest =~= t);
        } else {
            assert(s[i] == esc_char(c)[0]);
            assert(s[i] == c);
            assert(sp_str_body(s, i + 1) == Some((rest, i + 1 + esc(rest).len() + 1)));
            assert(seq![s[i]] + rest =~= t);
        }
    }
}

/// A non-empty entry list's text begins with the key's opening quote.
pub proof fn lemma_ser_entries_first(e: Seq<(Seq<char>, ValModel)>)
    requires
        e.len() >= 1,
    ensures
        ser_entries(e).len() >= 1,
        ser_entries(e)[0] == '"',
{
    assert(ser_entry(e[0]) == ser_string(e[0].0) + seq![':'] + ser_val(e[0].1));
    assert(ser_string(e[0].0)[0] == '"');
    assert(ser_entry(e[0])[0] == '"');
}

/// A non-empty item list's text begins with the object's opening brace.
pub proof fn lemma_ser_items_first(items: Seq<Seq<(Seq<char>, ValModel)>>)
    requires
        items.len() >= 1,
    ensures
        ser_items(items).len() >= 1,
        ser_items(items)[0] == '{',
{
    assert(ser_obj(items[0])[0] == '{');
}

/// A serialized well-formed value, not followed by a digit, parses back
/// to itself.
pub proof fn lemma_parse_ser_val(s: Seq<char>, i: int, v: ValModel)
    requires
        wf_val(v),
        matches_at(s, i, ser_val(v)),
        i + ser_val(v).len() == s.len() || !is_digit(s[i + ser_val(v).len()]),
    ensures
        sp_val(s, i) == Some((v, i + ser_val(v).len())),
    decreases v, 2int,
{
    match v {
        ValModel::S(t) => {
            assert(ser_val(v) =~= seq!['"'] + (esc(t) + seq!['"']));
            lemma_matches_split(s, i, seq!['"'], esc(t) + seq!['"']);
            lemma_matches_index(s, i, seq!['"'], 0);
            assert(s[i] == '"');
            lemma_parse_esc(s, i + 1, t);
        },
        ValModel::I(n) => {
            lemma_matches_index(s, i, ser_int(n), 0);
            if n < 0 {
                assert(ser_int(n)[0] == '-');
                assert(s[i] == '-');
            } else {
                lemma_ser_nat_digits(n as nat);
                assert(ser_int(n)[0] == ser_nat(n as nat)[0]);
                assert(is_digit(s[i]));
            }
            assert(s[i] != '"' && s[i] != '{' && s[i] != '[' && s[i] != 't' && s[i] != 'f');
            lemma_parse_ser_int(s, i, n);
        },
        ValModel::B(b) => {
            if b {
                lemma_matches_index(s, i, ser_val(v), 0);
                lemma_matches_index(s, i, ser_val(v), 1);
                lemma_matches_index(s, i, ser_val(v), 2);
                lemma_matches_index(s, i, ser_val(v), 3);
            } else {
                lemma_matches_index(s, i, ser_val(v), 0);
                lemma_matches_index(s, i, ser_val(v), 1);
                lemma_matches_index(s, i, ser_val(v), 2);
                lemma_matches_index(s, i, ser_val(v), 3);
                lemma_matches_index(s, i, ser_val(v), 4);
            }
        },
        ValModel::O(e) => {
            lemma_parse_ser_obj(s, i, e);
            assert(ser_obj(e)[0] == '{');
            lemma_matches_index(s, i, ser_obj(e), 0);
            assert(s[i] == '{');
        },
        ValModel::A(items) => {
            lemma_parse_ser_arr(s, i, items);
            assert(ser_arr(items)[0] == '[');
            lemma_matches_index(s, i, ser_arr(items), 0);
            assert(s[i] == '[');
        },
    }
}

/// A serialized well-formed object parses back to itself.
pub proof fn lemma_parse_ser_obj(s: Seq<char>, i: int, e: Seq<(Seq<char>, ValModel)>)
    requires
        wf_obj(e),
        matches_at(s, i, ser_obj(e)),
    ensures
        sp_obj(s, i) == Some((e, i + ser_obj(e).len())),
    decreases e, 1int,
{
    assert(ser_obj(e) =~= seq!['{'] + (ser_entries(e) + seq!['}']));
    lemma_matches_split(s, i, seq!['{'], ser_entries(e) + seq!['}']);
    lemma_matches_index(s, i, seq!['{'], 0);
    assert(s[i] == '{');
    if e.len() == 0 {
        lemma_matches_index(s, i + 1, ser_entries(e) + seq!['}'], 0);
        assert(s[i + 1] == '}');
    } else {
        lemma_ser_entries_first(e);
        lemma_matches_index(s, i + 1, ser_entries(e) + seq!['}'], 0);
        assert(s[i + 1] == '"');
        lemma_parse_ser_entries(s, i + 1, e, Seq::empty());
        assert(Seq::<(Seq<char>, ValModel)>::empty() + e =~= e);
    }
}

/// A serialized well-formed array parses back to itself.
pub proof fn lemma_parse_ser_arr(s: Seq<char>, i: int, items: Seq<Seq<(Seq<char>, ValModel)>>)
    requires
        wf_items(items),
        matches_at(s, i, ser_arr(items)),
    ensures
        sp_arr(s, i) == Some((items, i + ser_arr(items).len())),
    decreases items, 1int,
{
    assert(ser_arr(items) =~= seq!['['] + (ser_items(items) + seq![']']));
    lemma_matches_split(s, i, seq!['['], ser_items(items) + seq![']']);
    lemma_matches_index(s, i, seq!['['], 0);
    assert(s[i] == '[');
    if items.len() == 0 {
        lemma_matches_index(s, i + 1, ser_items(items) + seq![']'], 0);
        assert(s[i + 1] == ']');
    } else {
        lemma_ser_items_first(items);
        lemma_matches_index(s, i + 1, ser_items(items) + seq![']'], 0);
        assert(s[i + 1] == '{');
        lemma_parse_ser_items(s, i + 1, items, Seq::empty());
        assert(Seq::<Seq<(Seq<char>, ValModel)>>::empty() + items =~= items);
    }
}

/// Serialized entries, closed off by the brace, parse back onto what was
/// already collected.
pub proof fn lemma_parse_ser_entries(
    s: Seq<char>,
    i: int,
    e: Seq<(Seq<char>, ValModel)>,
    done: Seq<(Seq<char>, ValModel)>,
)
    requires
        e.len() >= 1,
        wf_obj(done + e),
        matches_at(s, i, ser_entries(e) + seq!['}']),
    ensures
        sp_entries(s, i, done) == Some((done + e, i + ser_entries(e).len() + 1)),
    decreases e, 0int,
{
    let k = e[0].0;
    let v = e[0].1;
    let sk = ser_string(k);
    let sv = ser_val(v);
    assert((done + e)[done.len() as int] == e[0]);
    assert(nul_free(k) && wf_val(v)) by {
        assert(nul_free((done + e)[done.len() as int].0));
        assert(wf_val((done + e)[done.len() as int].1));
    }
    assert(!has_key(done, k)) by {
        if has_key(done, k) {
            let di = choose|di: int| 0 <= di < done.len() && done[di].0 == k;
            assert((done + e)[di] == done[di]);
            assert(keys_unique(done + e));
            assert((done + e)[di].0 == (done + e)[done.len() as int].0);
        }
    }
    let jk = i + sk.len();
    let jv = jk + 1 + sv.len();
    if e.len() == 1 {
        assert(ser_entries(e) == ser_entry(e[0]));
        assert(ser_entries(e) + seq!['}'] =~= sk + (seq![':'] + (sv + seq!['}'])));
        lemma_matches_split(s, i, sk, seq![':'] + (sv + seq!['}']));
        lemma_matches_split(s, jk, seq![':'], sv + seq!['}']);
        lemma_matches_split(s, jk + 1, sv, seq!['}']);
        assert(sk =~= seq!['"'] + (esc(k) + seq!['"']));
        lemma_matches_split(s, i, seq!['"'], esc(k) + seq!['"']);
        lemma_matches_index(s, i, seq!['"'], 0);
        lemma_parse_esc(s, i + 1, k);
        assert(sp_string(s, i) == Some((k, jk)));
        lemma_matches_index(s, jk, seq![':'], 0);
        assert(s[jk] == ':');
        lemma_matches_index(s, jv, seq!['}'], 0);
        assert(s[jv] == '}');
        lemma_parse_ser_val(s, jk + 1, v);
        assert(sp_val(s, jk + 1) == Some((v, jv)));
        assert(done.push(e[0]) =~= done + e);
    } else {
        let rest = e.drop_first();
        assert(ser_entries(e) == ser_entry(e[0]) + seq![','] + ser_entries(rest));
        assert(ser_entries(e) + seq!['}'] =~= sk + (seq![':'] + (sv + (seq![','] + (ser_entries(
            rest,
        ) + seq!['}'])))));
        lemma_matches_split(s, i, sk, seq![':'] + (sv + (seq![','] + (ser_entries(rest)
            + seq!['}']))));
        lemma_matches_split(s, jk, seq![':'], sv + (seq![','] + (ser_entries(rest) + seq!['}'])));
        lemma_matches_split(s, jk + 1, sv, seq![','] + (ser_entries(rest) + seq!['}']));
        lemma_matches_split(s, jv, seq![','], ser_entries(rest) + seq!['}']);
        assert(sk =~= seq!['"'] + (esc(k) + seq!['"']));
        lemma_matches_split(s, i, seq!['"'], esc(k) + seq!['"']);
        lemma_matches_index(s, i, seq!['"'], 0);
        lemma_parse_esc(s, i + 1, k);
        assert(sp_string(s, i) == Some((k, jk)));
        lemma_matches_index(s, jk, seq![':'], 0);
        assert(s[jk] == ':');
        lemma_matches_index(s, jv, seq![','], 0);
        assert(s[jv] == ',');
        lemma_parse_ser_val(s, jk + 1, v);
        assert(sp_val(s, jk + 1) == Some((v, jv)));
        assert(done.push(e[0]) + rest =~= done + e);
        lemma_parse_ser_entries(s, jv + 1, rest, done.push(e[0]));
    }
}

/// Serialized items, closed off by the bracket, parse back onto what was
/// already collected.
pub proof fn lemma_parse_ser_items(
    s: Seq<char>,
    i: int,
    items: Seq<Seq<(Seq<char>, ValModel)>>,
    done: Seq<Seq<(Seq<char>, ValModel)>>,
)
    requires
        items.len() >= 1,
        wf_items(items),
        matches_at(s, i, ser_items(items) + seq![']']),
    ensures
        sp_items(s, i, done) == Some((done + items, i + ser_items(items).len() + 1)),
    decreases items, 0int,
{
    let o = items[0];
    let so = ser_obj(o);
    assert(wf_obj(o)) by {
        assert(wf_obj(items[0]));
    }
    let jo = i + so.len();
    if items.len() == 1 {
        assert(ser_items(items) == so);
        assert(ser_items(items) + seq![']'] =~= so + seq![']']);
        lemma_matches_split(s, i, so, seq![']']);
        lemma_parse_ser_obj(s, i, o);
        lemma_matches_index(s, jo, seq![']'], 0);
        assert(s[jo] == ']');
        assert(done.push(o) =~= done + items);
    } else {
        let rest = items.drop_first();
        assert(wf_items(rest)) by {
            assert(forall|x: int| 0 <= x < rest.len() ==> rest[x] == items[x + 1]);
            assert(forall|x: int|
                0 <= x < rest.len() ==> wf_obj(#[trigger] items[x + 1]));
            assert forall|x: int| 0 <= x < rest.len() implies wf_obj(#[trigger] rest[x]) by {
                assert(rest[x] == items[x + 1]);
                assert(wf_obj(items[x + 1]));
            }
        }
        assert(ser_items(items) == so + seq![','] + ser_items(rest));
        assert(ser_items(items) + seq![']'] =~= so + (seq![','] + (ser_items(rest) + seq![']'])));
        lemma_matches_split(s, i, so, seq![','] + (ser_items(rest) + seq![']']));
        lemma_matches_split(s, jo, seq![','], ser_items(rest) + seq![']']);
        lemma_parse_ser_obj(s, i, o);
        lemma_matches_index(s, jo, seq![','], 0);
        assert(s[jo] == ',');
        assert(done.push(o) + rest =~= done + items);
        lemma_parse_ser_items(s, jo + 1, rest, done.push(o));
    }
}

/// Appending an entry appends its text, after a comma when any entry
/// came before.
pub proof fn lemma_ser_entries_snoc(p: Seq<(Seq<char>, ValModel)>, x: (Seq<char>, ValModel))
    ensures
        p.len() == 0 ==> ser_entries(p.push(x)) == ser_entry(x),
        p.len() >= 1 ==> ser_entries(p.push(x)) == ser_entries(p) + seq![','] + ser_entry(x),
    decreases p.len(),
{
    if p.len() == 0 {
        assert(p.push(x)[0] == x);
    } else {
        assert(p.push(x)[0] == p[0]);
        assert(p.push(x).drop_first() =~= p.drop_first().push(x));
        lemma_ser_entries_snoc(p.drop_first(), x);
        if p.len() == 1 {
            assert(ser_entries(p.push(x)) == ser_entry(p[0]) + seq![','] + ser_entries(
                p.drop_first().push(x),
            ));
            assert(ser_entries(p) == ser_entry(p[0]));
        } else {
            assert(ser_entries(p.push(x)) == ser_entry(p[0]) + seq![','] + ser_entries(
                p.drop_first().push(x),
            ));
            assert(ser_entry(p[0]) + seq![','] + (ser_entries(p.drop_first()) + seq![',']
                + ser_entry(x)) =~= (ser_entry(p[0]) + seq![','] + ser_entries(p.drop_first()))
                + seq![','] + ser_entry(x));
        }
    }
}

/// Appending an object appends its text, after a comma when any object
/// came before.
pub proof fn lemma_ser_items_snoc(p: Seq<Seq<(Seq<char>, ValModel)>>, x: Seq<(Seq<char>, ValModel)>)
    ensures
        p.len() == 0 ==> ser_items(p.push(x)) == ser_obj(x),
        p.len() >= 1 ==> ser_items(p.push(x)) == ser_items(p) + seq![','] + ser_obj(x),
    decreases p.len(),
{
    if p.len() == 0 {
        assert(p.push(x)[0] == x);
    } else {
        assert(p.push(x)[0] == p[0]);
        assert(p.push(x).drop_first() =~= p.drop_first().push(x));
        lemma_ser_items_snoc(p.drop_first(), x);
        if p.len() == 1 {
            assert(ser_items(p.push(x)) == ser_obj(p[0]) + seq![','] + ser_items(
                p.drop_first().push(x),
            ));
            assert(ser_items(p) == ser_obj(p[0]));
        } else {
            assert(ser_items(p.push(x)) == ser_obj(p[0]) + seq![','] + ser_items(
                p.drop_first().push(x),
            ));
            assert(ser_obj(p[0]) + seq![','] + (ser_items(p.drop_first()) + seq![','] + ser_obj(
                x,
            )) =~= (ser_obj(p[0]) + seq![','] + ser_items(p.drop_first())) + seq![','] + ser_obj(
                x,
            ));
        }
    }
}

/// A digit run ends within the text, and everything in it is a digit.
pub proof fn lemma_digit_run_end_digits(s: Seq<char>, i: int)
    requires
        0 <= i <= s.len(),
    ensures
        i <= digit_run_end(s, i) <= s.len(),
        forall|k: int| i <= k < digit_run_end(s, i) ==> is_digit(#[trigger] s[k]),
    decreases s.len() - i,
{
    if i < s.len() && is_digit(s[i]) {
        lemma_digit_run_end_digits(s, i + 1);
    }
}

/// The value of a digit run is non-negative and grows with the run.
pub proof fn lemma_sp_digits_val_nonneg(s: Seq<char>, i: int, j: int)
    requires
        i <= j,
        forall|k: int| i <= k < j ==> is_digit(#[trigger] s[k]),
    ensures
        0 <= sp_digits_val(s, i, j),
        i < j ==> sp_digits_val(s, i, j - 1) <= sp_digits_val(s, i, j),
    decreases j - i,
{
    if i < j {
        lemma_sp_digits_val_nonneg(s, i, j - 1);
        assert(is_digit(s[j - 1]));
        assert(digit_val(s[j - 1]) >= 0);
    }
}

/// A digit run of length `l` is worth less than ten to the `l`.
pub proof fn lemma_sp_digits_val_bound(s: Seq<char>, i: int, j: int)
    requires
        i <= j,
        forall|k: int| i <= k < j ==> is_digit(#[trigger] s[k]),
    ensures
        0 <= sp_digits_val(s, i, j) < pow10((j - i) as nat),
    decreases j - i,
{
    if i < j {
        lemma_sp_digits_val_bound(s, i, j - 1);
        assert(is_digit(s[j - 1]));
        assert(digit_val(s[j - 1]) <= 9);
        assert(pow10((j - i) as nat) == 10 * pow10((j - i - 1) as nat));
    } else {
        assert(pow10(0) == 1);
    }
}

/// The round trip: parsing the canonical text of a well-formed
/// configuration document yields exactly the document, keys, values and
/// entry order alike.
pub proof fn lemma_round_trip_document(e: Seq<(Seq<char>, ValModel)>)
    requires
        wf_obj(e),
    ensures
        spec_parse_document(ser_obj(e)) == Some(e),
{
    let s = ser_obj(e);
    assert(matches_at(s, 0, ser_obj(e)));
    lemma_parse_ser_obj(s, 0, e);
}

} // verus!
