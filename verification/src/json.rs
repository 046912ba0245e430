//! A small JSON document model with a verified printer and parser.
//!
//! The wire format of a snapshot is JSON restricted to what the schema uses:
//! objects, arrays, strings without escape sequences, and unsigned integers
//! that fit in `u32`. The printer emits a canonical compact form; the parser
//! accepts arbitrary interleaved whitespace and rejects everything outside
//! this subset with a syntax error.

use vstd::prelude::*;

verus! {

/// Mathematical model of a JSON document.
#[verifier::ext_equal]
pub enum JsonV {
    Num(u32),
    Str(Seq<char>),
    Arr(Seq<JsonV>),
    Obj(Seq<(Seq<char>, JsonV)>),
}

/// In-memory JSON document, the executable counterpart of [`JsonV`].
pub enum Json {
    Num(u32),
    Str(Vec<char>),
    Arr(Vec<Json>),
    Obj(Vec<(Vec<char>, Json)>),
}

/// The model of an executable JSON tree.
pub open spec fn json_view(j: Json) -> JsonV
    decreases j,
{
    match j {
        Json::Num(n) => JsonV::Num(n),
        Json::Str(s) => JsonV::Str(s@),
        Json::Arr(items) => JsonV::Arr(jsons_view(items@)),
        Json::Obj(fields) => JsonV::Obj(fields_view(fields@)),
    }
}

/// The model of a sequence of executable JSON trees.
pub open spec fn jsons_view(items: Seq<Json>) -> Seq<JsonV>
    decreases items,
{
    if items.len() == 0 {
        Seq::empty()
    } else {
        seq![json_view(items[0])] + jsons_view(items.subrange(1, items.len() as int))
    }
}

/// The model of a sequence of executable JSON object fields.
pub open spec fn fields_view(fields: Seq<(Vec<char>, Json)>) -> Seq<(Seq<char>, JsonV)>
    decreases fields,
{
    if fields.len() == 0 {
        Seq::empty()
    } else {
        seq![(fields[0].0@, json_view(fields[0].1))] + fields_view(
            fields.subrange(1, fields.len() as int),
        )
    }
}

impl View for Json {
    type V = JsonV;

    open spec fn view(&self) -> JsonV {
        json_view(*self)
    }
}

/// A string is printable when it needs no escaping: it contains neither a
/// quote nor a backslash. The schema only ever carries such strings.
pub open spec fn str_ok(s: Seq<char>) -> bool {
    forall|k: int| 0 <= k < s.len() ==> s[k] != '"' && s[k] != '\\'
}

/// A document is printable when every string in it is.
pub open spec fn json_wf(j: JsonV) -> bool
    decreases j,
{
    match j {
        JsonV::Num(_) => true,
        JsonV::Str(s) => str_ok(s),
        JsonV::Arr(items) => forall|k: int| 0 <= k < items.len() ==> json_wf(#[trigger] items[k]),
        JsonV::Obj(fields) => forall|k: int|
            0 <= k < fields.len() ==> str_ok((#[trigger] fields[k]).0) && json_wf(fields[k].1),
    }
}

/// The decimal digit for a value below ten.
pub open spec fn digit_char(d: nat) -> char {
    if d == 0 {
        '0'
    } else if d == 1 {
        '1'
    } else if d == 2 {
        '2'
    } else if d == 3 {
        '3'
    } else if d == 4 {
        '4'
    } else if d == 5 {
        '5'
    } else if d == 6 {
        '6'
    } else if d == 7 {
        '7'
    } else if d == 8 {
        '8'
    } else {
        '9'
    }
}

/// The numeric value of a decimal digit character.
pub open spec fn char_digit(c: char) -> nat {
    (c as u32 - 48) as nat
}

/// Whether `c` is a decimal digit.
pub open spec fn is_digit(c: char) -> bool {
    48 <= c as u32 && c as u32 <= 57
}

/// Whether `c` is JSON whitespace.
pub open spec fn is_ws(c: char) -> bool {
    c == ' ' || c == '\n' || c == '\r' || c == '\t'
}

/// The canonical decimal form of `n`: most significant digit first, no sign,
/// no leading zero except for zero itself.
pub open spec fn spec_digits(n: nat) -> Seq<char>
    decreases n,
{
    if n < 10 {
        seq![digit_char(n)]
    } else {
        spec_digits(n / 10).push(digit_char(n % 10))
    }
}

/// Canonical compact printing of a document: no whitespace, fields and items
/// separated by single commas.
pub open spec fn spec_print(j: JsonV) -> Seq<char>
    decreases j,
{
    match j {
        JsonV::Num(n) => spec_digits(n as nat),
        JsonV::Str(s) => seq!['"'] + s + seq!['"'],
        JsonV::Arr(items) => seq!['['] + spec_print_items(items) + seq![']'],
        JsonV::Obj(fields) => seq!['{'] + spec_print_fields(fields) + seq!['}'],
    }
}

/// Printing of comma-separated array items.
pub open spec fn spec_print_items(items: Seq<JsonV>) -> Seq<char>
    decreases items,
{
    if items.len() == 0 {
        Seq::empty()
    } else if items.len() == 1 {
        spec_print(items[0])
    } else {
        spec_print(items[0]) + seq![','] + spec_print_items(items.subrange(1, items.len() as int))
    }
}

/// Printing of comma-separated object fields, each as `"key":value`.
pub open spec fn spec_print_fields(fields: Seq<(Seq<char>, JsonV)>) -> Seq<char>
    decreases fields,
{
    if fields.len() == 0 {
        Seq::empty()
    } else {
        let head = seq!['"'] + fields[0].0 + seq!['"', ':'] + spec_print(fields[0].1);
        if fields.len() == 1 {
            head
        } else {
            head + seq![','] + spec_print_fields(fields.subrange(1, fields.len() as int))
        }
    }
}

/// The number of consecutive whitespace characters at position `i`.
pub open spec fn ws_run(s: Seq<char>, i: nat) -> nat
    decreases s.len() - i,
{
    if i < s.len() && is_ws(s[i as int]) {
        (1 + ws_run(s, i + 1)) as nat
    } else {
        0
    }
}

/// The first non-whitespace position at or after `i`.
pub open spec fn skip_ws(s: Seq<char>, i: nat) -> nat {
    i + ws_run(s, i)
}

/// The number of consecutive decimal digits at position `i`.
pub open spec fn digit_run(s: Seq<char>, i: nat) -> nat
    decreases s.len() - i,
{
    if i < s.len() && is_digit(s[i as int]) {
        (1 + digit_run(s, i + 1)) as nat
    } else {
        0
    }
}

/// The value of the digit string `d` appended to an accumulated prefix value
/// `acc`: the fold that a left-to-right scan of a decimal number computes.
pub open spec fn undigits(d: Seq<char>, acc: nat) -> nat
    decreases d.len(),
{
    if d.len() == 0 {
        acc
    } else {
        undigits(d.subrange(1, d.len() as int), acc * 10 + char_digit(d[0]))
    }
}

/// Parse an unsigned number at position `i` (the caller has checked that a
/// digit stands there). Rejected: runs of more than ten digits and values
/// above `u32::MAX`.
pub open spec fn spec_parse_num(s: Seq<char>, i: nat) -> Option<(JsonV, nat)> {
    let run = digit_run(s, i);
    if run == 0 || run > 10 {
        None
    } else {
        let v = undigits(s.subrange(i as int, i + run as int), 0);
        if v <= 0xFFFF_FFFFnat {
            Some((JsonV::Num(v as u32), (i + run) as nat))
        } else {
            None
        }
    }
}

/// Parse the remainder of a string literal starting just after the opening
/// quote: characters up to the closing quote, with escapes rejected.
pub open spec fn spec_parse_str(s: Seq<char>, i: nat) -> Option<(Seq<char>, nat)>
    decreases s.len() - i,
{
    if i >= s.len() {
        None
    } else if s[i as int] == '"' {
        Some((Seq::empty(), (i + 1) as nat))
    } else if s[i as int] == '\\' {
        None
    } else {
        match spec_parse_str(s, i + 1) {
            Some((t, e)) => Some((seq![s[i as int]] + t, e)),
            None => None,
        }
    }
}

/// Parse one value at position `i`, which must hold the value's first
/// character. Each sub-parse is bounds-checked before the parse goes on, so
/// that progress is evident on every path.
pub open spec fn spec_parse_value(s: Seq<char>, i: nat) -> Option<(JsonV, nat)>
    decreases s.len() - i, 0nat,
{
    if i >= s.len() {
        None
    } else if is_digit(s[i as int]) {
        spec_parse_num(s, i)
    } else if s[i as int] == '"' {
        match spec_parse_str(s, i + 1) {
            Some((t, e)) => Some((JsonV::Str(t), e)),
            None => None,
        }
    } else if s[i as int] == '[' {
        let i1 = skip_ws(s, i + 1);
        if i1 < s.len() && s[i1 as int] == ']' {
            Some((JsonV::Arr(Seq::empty()), (i1 + 1) as nat))
        } else if i1 <= s.len() {
            match spec_parse_items(s, i1) {
                Some((items, e)) => Some((JsonV::Arr(items), e)),
                None => None,
            }
        } else {
            None
        }
    } else if s[i as int] == '{' {
        let i1 = skip_ws(s, i + 1);
        if i1 < s.len() && s[i1 as int] == '}' {
            Some((JsonV::Obj(Seq::empty()), (i1 + 1) as nat))
        } else if i1 <= s.len() {
            match spec_parse_fields(s, i1) {
                Some((fields, e)) => Some((JsonV::Obj(fields), e)),
                None => None,
            }
        } else {
            None
        }
    } else {
        None
    }
}

/// Parse one or more comma-separated array items followed by `]`.
pub open spec fn spec_parse_items(s: Seq<char>, i: nat) -> Option<(Seq<JsonV>, nat)>
    decreases s.len() - i, 1nat,
{
    let i0 = skip_ws(s, i);
    if i0 > s.len() {
        None
    } else {
        match spec_parse_value(s, i0) {
            None => None,
            Some((v, e)) => if e <= i || e > s.len() {
                None
            } else {
                let i1 = skip_ws(s, e);
                if i1 >= s.len() {
                    None
                } else if s[i1 as int] == ']' {
                    Some((seq![v], (i1 + 1) as nat))
                } else if s[i1 as int] == ',' {
                    match spec_parse_items(s, i1 + 1) {
                        Some((rest, e2)) => Some((seq![v] + rest, e2)),
                        None => None,
                    }
                } else {
                    None
                }
            },
        }
    }
}

/// Parse one or more comma-separated `"key":value` fields followed by `}`.
pub open spec fn spec_parse_fields(s: Seq<char>, i: nat) -> Option<
    (Seq<(Seq<char>, JsonV)>, nat),
>
    decreases s.len() - i, 1nat,
{
    let i0 = skip_ws(s, i);
    if i0 >= s.len() {
        None
    } else if s[i0 as int] != '"' {
        None
    } else {
        match spec_parse_str(s, i0 + 1) {
            None => None,
            Some((key, e1)) => if e1 <= i0 || e1 > s.len() {
                None
            } else {
                let i1 = skip_ws(s, e1);
                if i1 >= s.len() || s[i1 as int] != ':' {
                    None
                } else {
                    let i2 = skip_ws(s, i1 + 1);
                    if i2 > s.len() {
                        None
                    } else {
                        match spec_parse_value(s, i2) {
                            None => None,
                            Some((v, e2)) => if e2 <= i0 || e2 > s.len() {
                                None
                            } else {
                                let i3 = skip_ws(s, e2);
                                if i3 >= s.len() {
                                    None
                                } else if s[i3 as int] == '}' {
                                    Some((seq![(key, v)], (i3 + 1) as nat))
                                } else if s[i3 as int] == ',' {
                                    match spec_parse_fields(s, i3 + 1) {
                                        Some((rest, e3)) => Some((seq![(key, v)] + rest, e3)),
                                        None => None,
                                    }
                                } else {
                                    None
                                }
                            },
                        }
                    }
                }
            },
        }
    }
}

/// Parse a whole document: optional whitespace, one value, optional
/// whitespace, end of input. Trailing content is a syntax error.
pub open spec fn spec_parse_document(s: Seq<char>) -> Option<JsonV> {
    let i0 = skip_ws(s, 0);
    if i0 > s.len() {
        None
    } else {
        match spec_parse_value(s, i0) {
            None => None,
            Some((v, e)) => if e > s.len() {
                None
            } else if skip_ws(s, e) == s.len() {
                Some(v)
            } else {
                None
            },
        }
    }
}

/// Powers of ten, used to bound the accumulator of the number parser.
pub open spec fn pow10(k: nat) -> nat
    decreases k,
{
    if k == 0 {
        1
    } else {
        10 * pow10((k - 1) as nat)
    }
}

/// Every position inside a digit run holds a digit, and the run stays inside
/// the input.
proof fn lemma_digit_run_digits(s: Seq<char>, i: nat)
    requires
        i <= s.len(),
    ensures
        i + digit_run(s, i) <= s.len(),
        forall|t: int| i <= t < i + digit_run(s, i) ==> is_digit(s[t]),
    decreases s.len() - i,
{
    if i < s.len() && is_digit(s[i as int]) {
        lemma_digit_run_digits(s, i + 1);
    }
}

/// `jsons_view` keeps the length of the sequence it maps.
pub proof fn lemma_jsons_view_len(items: Seq<Json>)
    ensures
        jsons_view(items).len() == items.len(),
    decreases items,
{
    if items.len() > 0 {
        lemma_jsons_view_len(items.subrange(1, items.len() as int));
    }
}

/// `fields_view` keeps the length of the sequence it maps.
pub proof fn lemma_fields_view_len(fields: Seq<(Vec<char>, Json)>)
    ensures
        fields_view(fields).len() == fields.len(),
    decreases fields,
{
    if fields.len() > 0 {
        lemma_fields_view_len(fields.subrange(1, fields.len() as int));
    }
}

/// Advance over whitespace, returning the first position at or after `i`
/// that does not hold whitespace.
fn scan_ws(s: &Vec<char>, i: usize) -> (r: usize)
    requires
        i <= s@.len(),
    ensures
        r == skip_ws(s@, i as nat),
        i <= r <= s@.len(),
{
    let mut k: usize = i;
    while k < s.len() && (s[k] == ' ' || s[k] == '\n' || s[k] == '\r' || s[k] == '\t')
        invariant
            i <= k <= s@.len(),
            skip_ws(s@, i as nat) == skip_ws(s@, k as nat),
        decreases s@.len() - k,
    {
        k = k + 1;
    }
    k
}

/// The decimal digit character for a value below ten.
fn digit_to_char(d: u32) -> (c: char)
    requires
        d < 10,
    ensures
        c == digit_char(d as nat),
{
    if d == 0 {
        '0'
    } else if d == 1 {
        '1'
    } else if d == 2 {
        '2'
    } else if d == 3 {
        '3'
    } else if d == 4 {
        '4'
    } else if d == 5 {
        '5'
    } else if d == 6 {
        '6'
    } else if d == 7 {
        '7'
    } else if d == 8 {
        '8'
    } else {
        '9'
    }
}

/// Parse an unsigned number at position `i`, which must hold a digit.
fn parse_num(s: &Vec<char>, i: usize) -> (r: Option<(Json, usize)>)
    requires
        i < s@.len(),
        is_digit(s@[i as int]),
    ensures
        ({
            let sp = spec_parse_num(s@, i as nat);
            match r {
                Some(p) => sp == Some((p.0@, p.1 as nat)) && i < p.1 <= s@.len(),
                None => sp is None,
            }
        }),
{
    proof {
        lemma_digit_run_digits(s@, i as nat);
    }
    let n = s.len();
    let mut j: usize = i;
    while j < n && (s[j] as u32) >= 48 && (s[j] as u32) <= 57
        invariant
            i <= j <= n,
            n == s@.len(),
            digit_run(s@, i as nat) == (j - i) + digit_run(s@, j as nat),
        decreases n - j,
    {
        j = j + 1;
    }
    proof {
        assert(digit_run(s@, j as nat) == 0);
    }
    let cnt = j - i;
    if cnt > 10 {
        return None;
    }
    let ghost d_all = s@.subrange(i as int, (i + cnt) as int);
    let mut acc: u64 = 0;
    let mut k: usize = 0;
    while k < cnt
        invariant
            k <= cnt,
            cnt <= 10,
            i + cnt <= n,
            n == s@.len(),
            d_all == s@.subrange(i as int, (i + cnt) as int),
            forall|t: int| i <= t < i + cnt ==> is_digit(s@[t]),
            undigits(d_all, 0) == undigits(
                s@.subrange((i + k) as int, (i + cnt) as int),
                acc as nat,
            ),
            acc < pow10(k as nat),
        decreases cnt - k,
    {
        let c = s[i + k];
        proof {
            assert(is_digit(s@[(i + k) as int]));
        }
        let d: u32 = (c as u32) - 48;
        proof {
            let rem = s@.subrange((i + k) as int, (i + cnt) as int);
            assert(rem[0] == s@[(i + k) as int]);
            assert(rem.subrange(1, rem.len() as int) =~= s@.subrange(
                (i + k + 1) as int,
                (i + cnt) as int,
            ));
            assert(pow10((k + 1) as nat) == 10 * pow10(k as nat));
            assert(pow10(10) == 10_000_000_000) by {
                reveal_with_fuel(pow10, 11);
            }
            lemma_pow10_mono(k as nat, 10);
        }
        acc = acc * 10 + (d as u64);
        k = k + 1;
    }
    proof {
        assert(s@.subrange((i + cnt) as int, (i + cnt) as int) =~= Seq::<char>::empty());
    }
    if acc > 0xFFFF_FFFF {
        None
    } else {
        Some((Json::Num(acc as u32), i + cnt))
    }
}

/// `pow10` is monotone in its exponent.
proof fn lemma_pow10_mono(a: nat, b: nat)
    requires
        a <= b,
    ensures
        pow10(a) <= pow10(b),
    decreases b,
{
    if a < b {
        lemma_pow10_mono(a, (b - 1) as nat);
        assert(pow10(b) == 10 * pow10((b - 1) as nat));
    }
}

/// Parse the remainder of a string literal, starting just after the opening
/// quote.
fn parse_str(s: &Vec<char>, i: usize) -> (r: Option<(Vec<char>, usize)>)
    requires
        i <= s@.len(),
    ensures
        ({
            let sp = spec_parse_str(s@, i as nat);
            match r {
                Some(p) => sp == Some((p.0@, p.1 as nat)) && i < p.1 <= s@.len(),
                None => sp is None,
            }
        }),
{
    let mut t: Vec<char> = Vec::new();
    let mut k: usize = i;
    loop
        invariant
            i <= k <= s@.len(),
            spec_parse_str(s@, i as nat) == (match spec_parse_str(s@, k as nat) {
                Some((t2, e)) => Some((t@ + t2, e)),
                None => None::<(Seq<char>, nat)>,
            }),
        decreases s@.len() - k,
    {
        if k >= s.len() {
            return None;
        }
        let c = s[k];
        if c == '"' {
            proof {
                assert(t@ + Seq::<char>::empty() =~= t@);
            }
            return Some((t, k + 1));
        }
        if c == '\\' {
            return None;
        }
        let ghost t_old = t@;
        t.push(c);
        proof {
            if let Some((t2, e)) = spec_parse_str(s@, (k + 1) as nat) {
                assert(t_old + (seq![c] + t2) =~= t@ + t2);
            }
        }
        k = k + 1;
    }
}

/// Parse one value at position `i`, which must hold the value's first
/// character (no leading whitespace).
pub fn parse_value(s: &Vec<char>, i: usize) -> (r: Option<(Json, usize)>)
    requires
        i <= s@.len(),
    ensures
        ({
            let sp = spec_parse_value(s@, i as nat);
            match r {
                Some(p) => sp == Some((p.0@, p.1 as nat)) && i < p.1 <= s@.len(),
                None => sp is None,
            }
        }),
    decreases s@.len() - i, 0nat,
{
    if i >= s.len() {
        return None;
    }
    let c = s[i];
    if (c as u32) >= 48 && (c as u32) <= 57 {
        parse_num(s, i)
    } else if c == '"' {
        match parse_str(s, i + 1) {
            Some(p) => Some((Json::Str(p.0), p.1)),
            None => None,
        }
    } else if c == '[' {
        let i1 = scan_ws(s, i + 1);
        if i1 < s.len() && s[i1] == ']' {
            proof {
                assert(jsons_view(Seq::<Json>::empty()) =~= Seq::<JsonV>::empty());
            }
            return Some((Json::Arr(Vec::new()), i1 + 1));
        }
        match parse_items(s, i1) {
            Some(p) => Some((Json::Arr(p.0), p.1)),
            None => None,
        }
    } else if c == '{' {
        let i1 = scan_ws(s, i + 1);
        if i1 < s.len() && s[i1] == '}' {
            proof {
                assert(fields_view(Seq::<(Vec<char>, Json)>::empty()) =~= Seq::<
                    (Seq<char>, JsonV),
                >::empty());
            }
            return Some((Json::Obj(Vec::new()), i1 + 1));
        }
        match parse_fields(s, i1) {
            Some(p) => Some((Json::Obj(p.0), p.1)),
            None => None,
        }
    } else {
        None
    }
}

/// Parse one or more comma-separated array items followed by `]`.
fn parse_items(s: &Vec<char>, i: usize) -> (r: Option<(Vec<Json>, usize)>)
    requires
        i <= s@.len(),
    ensures
        ({
            let sp = spec_parse_items(s@, i as nat);
            match r {
                Some(p) => sp == Some((jsons_view(p.0@), p.1 as nat)) && i < p.1 <= s@.len(),
                None => sp is None,
            }
        }),
    decreases s@.len() - i, 1nat,
{
    let i0 = scan_ws(s, i);
    match parse_value(s, i0) {
        None => None,
        Some(pv) => {
            let v = pv.0;
            let e = pv.1;
            let i1 = scan_ws(s, e);
            if i1 >= s.len() {
                return None;
            }
            let c1 = s[i1];
            if c1 == ']' {
                let mut items: Vec<Json> = Vec::new();
                items.push(v);
                proof {
                    assert(items@.subrange(1, 1) =~= Seq::<Json>::empty());
                    assert(jsons_view(items@.subrange(1, 1)) =~= Seq::<JsonV>::empty());
                    assert(jsons_view(items@) =~= seq![json_view(items@[0])]);
                }
                Some((items, i1 + 1))
            } else if c1 == ',' {
                match parse_items(s, i1 + 1) {
                    Some(pr) => {
                        let mut items = pr.0;
                        let ghost rest = items@;
                        items.insert(0, v);
                        proof {
                            assert(items@ =~= seq![v] + rest);
                            assert(items@.subrange(1, items@.len() as int) =~= rest);
                            assert(jsons_view(items@) =~= seq![json_view(v)] + jsons_view(rest));
                        }
                        Some((items, pr.1))
                    },
                    None => None,
                }
            } else {
                None
            }
        },
    }
}

/// Parse one or more comma-separated `"key":value` fields followed by `}`.
fn parse_fields(s: &Vec<char>, i: usize) -> (r: Option<(Vec<(Vec<char>, Json)>, usize)>)
    requires
        i <= s@.len(),
    ensures
        ({
            let sp = spec_parse_fields(s@, i as nat);
            match r {
                Some(p) => sp == Some((fields_view(p.0@), p.1 as nat)) && i < p.1 <= s@.len(),
                None => sp is None,
            }
        }),
    decreases s@.len() - i, 1nat,
{
    let i0 = scan_ws(s, i);
    if i0 >= s.len() {
        return None;
    }
    if s[i0] != '"' {
        return None;
    }
    match parse_str(s, i0 + 1) {
        None => None,
        Some(pk) => {
            let key = pk.0;
            let e1 = pk.1;
            let i1 = scan_ws(s, e1);
            if i1 >= s.len() {
                return None;
            }
            if s[i1] != ':' {
                return None;
            }
            let i2 = scan_ws(s, i1 + 1);
            match parse_value(s, i2) {
                None => None,
                Some(pv) => {
                    let v = pv.0;
                    let e2 = pv.1;
                    let i3 = scan_ws(s, e2);
                    if i3 >= s.len() {
                        return None;
                    }
                    let c3 = s[i3];
                    if c3 == '}' {
                        let mut fields: Vec<(Vec<char>, Json)> = Vec::new();
                        fields.push((key, v));
                        proof {
                            assert(fields@.subrange(1, 1) =~= Seq::<(Vec<char>, Json)>::empty());
                            assert(fields_view(fields@.subrange(1, 1)) =~= Seq::<
                                (Seq<char>, JsonV),
                            >::empty());
                            assert(fields_view(fields@) =~= seq![
                                (fields@[0].0@, json_view(fields@[0].1)),
                            ]);
                        }
                        Some((fields, i3 + 1))
                    } else if c3 == ',' {
                        match parse_fields(s, i3 + 1) {
                            Some(pr) => {
                                let mut fields = pr.0;
                                let ghost rest = fields@;
                                let ghost kv = (key@, json_view(v));
                                fields.insert(0, (key, v));
                                proof {
                                    assert(fields@.subrange(1, fields@.len() as int) =~= rest);
                                    assert(fields_view(fields@) =~= seq![kv] + fields_view(rest));
                                }
                                Some((fields, pr.1))
                            },
                            None => None,
                        }
                    } else {
                        None
                    }
                },
            }
        },
    }
}

/// Parse a whole document: optional whitespace, one value, optional
/// whitespace, end of input.
pub fn parse_document(s: &Vec<char>) -> (r: Option<Json>)
    ensures
        ({
            let sp = spec_parse_document(s@);
            match r {
                Some(j) => sp == Some(j@),
                None => sp is None,
            }
        }),
{
    let i0 = scan_ws(s, 0);
    match parse_value(s, i0) {
        None => None,
        Some(pv) => {
            let i1 = scan_ws(s, pv.1);
            if i1 == s.len() {
                Some(pv.0)
            } else {
                None
            }
        },
    }
}

/// Append the characters of `t` to `out`.
fn push_chars(out: &mut Vec<char>, t: &Vec<char>)
    ensures
        final(out)@ == old(out)@ + t@,
{
    let mut k: usize = 0;
    while k < t.len()
        invariant
            k <= t@.len(),
            out@ == old(out)@ + t@.subrange(0, k as int),
        decreases t@.len() - k,
    {
        let ghost before = out@;
        out.push(t[k]);
        proof {
            assert(before + seq![t@[k as int]] =~= old(out)@ + t@.subrange(0, (k + 1) as int));
        }
        k = k + 1;
    }
    proof {
        assert(t@.subrange(0, t@.len() as int) =~= t@);
    }
}

/// Append the canonical decimal form of `n` to `out`.
fn print_num(n: u32, out: &mut Vec<char>)
    ensures
        final(out)@ == old(out)@ + spec_digits(n as nat),
    decreases n,
{
    if n < 10 {
        out.push(digit_to_char(n));
    } else {
        print_num(n / 10, out);
        out.push(digit_to_char(n % 10));
    }
}

/// Append the canonical compact printing of `j` to `out`.
pub fn print_value(j: &Json, out: &mut Vec<char>)
    ensures
        final(out)@ == old(out)@ + spec_print(j@),
    decreases j, 0nat,
{
    match j {
        Json::Num(n) => {
            print_num(*n, out);
        },
        Json::Str(t) => {
            out.push('"');
            push_chars(out, t);
            out.push('"');
            proof {
                assert(out@ =~= old(out)@ + (seq!['"'] + t@ + seq!['"']));
            }
        },
        Json::Arr(items) => {
            out.push('[');
            print_items(items, 0, out);
            out.push(']');
            proof {
                assert(items@.subrange(0, items@.len() as int) =~= items@);
                assert(out@ =~= old(out)@ + (seq!['['] + spec_print_items(jsons_view(items@))
                    + seq![']']));
            }
        },
        Json::Obj(fields) => {
            out.push('{');
            print_fields(fields, 0, out);
            out.push('}');
            proof {
                assert(fields@.subrange(0, fields@.len() as int) =~= fields@);
                assert(out@ =~= old(out)@ + (seq!['{'] + spec_print_fields(fields_view(fields@))
                    + seq!['}']));
            }
        },
    }
}

/// Append the printing of the items from index `k` on, comma-separated.
fn print_items(items: &Vec<Json>, k: usize, out: &mut Vec<char>)
    requires
        k <= items@.len(),
    ensures
        final(out)@ == old(out)@ + spec_print_items(
            jsons_view(items@.subrange(k as int, items@.len() as int)),
        ),
    decreases items@, items@.len() - k,
{
    let ghost sub = items@.subrange(k as int, items@.len() as int);
    proof {
        lemma_jsons_view_len(sub);
    }
    if k == items.len() {
        proof {
            assert(sub =~= Seq::<Json>::empty());
            assert(out@ =~= old(out)@ + spec_print_items(jsons_view(sub)));
        }
        return ;
    }
    proof {
        assert(sub[0] == items@[k as int]);
        assert(sub.subrange(1, sub.len() as int) =~= items@.subrange(
            (k + 1) as int,
            items@.len() as int,
        ));
        assert(jsons_view(sub) == seq![json_view(sub[0])] + jsons_view(
            sub.subrange(1, sub.len() as int),
        ));
        assert(jsons_view(sub)[0] == json_view(items@[k as int]));
        assert(jsons_view(sub).subrange(1, jsons_view(sub).len() as int) =~= jsons_view(
            items@.subrange((k + 1) as int, items@.len() as int),
        ));
    }
    print_value(&items[k], out);
    if k + 1 < items.len() {
        out.push(',');
        print_items(items, k + 1, out);
        proof {
            assert(out@ =~= old(out)@ + spec_print_items(jsons_view(sub)));
        }
    } else {
        proof {
            assert(items@.subrange((k + 1) as int, items@.len() as int) =~= Seq::<Json>::empty());
            assert(jsons_view(sub).len() == 1);
            assert(out@ =~= old(out)@ + spec_print_items(jsons_view(sub)));
        }
    }
}

/// Append the printing of the fields from index `k` on, comma-separated.
fn print_fields(fields: &Vec<(Vec<char>, Json)>, k: usize, out: &mut Vec<char>)
    requires
        k <= fields@.len(),
    ensures
        final(out)@ == old(out)@ + spec_print_fields(
            fields_view(fields@.subrange(k as int, fields@.len() as int)),
        ),
    decreases fields@, fields@.len() - k,
{
    let ghost sub = fields@.subrange(k as int, fields@.len() as int);
    proof {
        lemma_fields_view_len(sub);
    }
    if k == fields.len() {
        proof {
            assert(sub =~= Seq::<(Vec<char>, Json)>::empty());
            assert(out@ =~= old(out)@ + spec_print_fields(fields_view(sub)));
        }
        return ;
    }
    proof {
        assert(sub[0] == fields@[k as int]);
        assert(sub.subrange(1, sub.len() as int) =~= fields@.subrange(
            (k + 1) as int,
            fields@.len() as int,
        ));
        assert(fields_view(sub) == seq![(sub[0].0@, json_view(sub[0].1))] + fields_view(
            sub.subrange(1, sub.len() as int),
        ));
        assert(fields_view(sub)[0] == (fields@[k as int].0@, json_view(fields@[k as int].1)));
        assert(fields_view(sub).subrange(1, fields_view(sub).len() as int) =~= fields_view(
            fields@.subrange((k + 1) as int, fields@.len() as int),
        ));
    }
    out.push('"');
    push_chars(out, &fields[k].0);
    out.push('"');
    out.push(':');
    print_value(&fields[k].1, out);
    if k + 1 < fields.len() {
        out.push(',');
        print_fields(fields, k + 1, out);
        proof {
            assert(out@ =~= old(out)@ + spec_print_fields(fields_view(sub)));
        }
    } else {
        proof {
            assert(fields@.subrange((k + 1) as int, fields@.len() as int) =~= Seq::<
                (Vec<char>, Json),
            >::empty());
            assert(fields_view(sub).len() == 1);
            assert(out@ =~= old(out)@ + spec_print_fields(fields_view(sub)));
        }
    }
}

/// Splitting a known subrange of `s` at a concatenation boundary, with
/// pointwise correspondence for both parts.
proof fn lemma_subrange_split(s: Seq<char>, i: int, p1: Seq<char>, p2: Seq<char>)
    requires
        0 <= i,
        i + p1.len() + p2.len() <= s.len(),
        s.subrange(i, i + p1.len() + p2.len()) == p1 + p2,
    ensures
        s.subrange(i, i + p1.len()) == p1,
        s.subrange(i + p1.len(), i + p1.len() + p2.len()) == p2,
        forall|k: int| 0 <= k < p1.len() ==> s[i + k] == #[trigger] p1[k],
        forall|k: int| 0 <= k < p2.len() ==> s[i + p1.len() + k] == #[trigger] p2[k],
{
    let whole = s.subrange(i, i + p1.len() + p2.len());
    assert forall|k: int| 0 <= k < p1.len() implies s[i + k] == #[trigger] p1[k] by {
        assert(whole[k] == (p1 + p2)[k]);
    }
    assert forall|k: int| 0 <= k < p2.len() implies s[i + p1.len() + k] == #[trigger] p2[k] by {
        assert(whole[p1.len() + k] == (p1 + p2)[p1.len() + k]);
    }
    assert(s.subrange(i, i + p1.len()) =~= p1);
    assert(s.subrange(i + p1.len(), i + p1.len() + p2.len()) =~= p2);
}

/// The canonical decimal form is never empty and consists of digits only.
proof fn lemma_digits_shape(n: nat)
    ensures
        spec_digits(n).len() >= 1,
        forall|k: int| 0 <= k < spec_digits(n).len() ==> is_digit(#[trigger] spec_digits(n)[k]),
    decreases n,
{
    if n < 10 {
        assert(is_digit(digit_char(n)));
    } else {
        lemma_digits_shape(n / 10);
        assert(is_digit(digit_char(n % 10)));
    }
}

/// The left-to-right scan value of a concatenation: scan the first part, then
/// the second from the accumulated value.
proof fn lemma_undigits_append(d1: Seq<char>, d2: Seq<char>, acc: nat)
    ensures
        undigits(d1 + d2, acc) == undigits(d2, undigits(d1, acc)),
    decreases d1.len(),
{
    if d1.len() == 0 {
        assert(d1 + d2 =~= d2);
    } else {
        assert((d1 + d2).subrange(1, (d1 + d2).len() as int) =~= d1.subrange(
            1,
            d1.len() as int,
        ) + d2);
        lemma_undigits_append(d1.subrange(1, d1.len() as int), d2, acc * 10 + char_digit((d1
            + d2)[0]));
    }
}

/// The scan value of the canonical decimal form of `n` is `n` itself.
proof fn lemma_undigits_digits(n: nat)
    ensures
        undigits(spec_digits(n), 0) == n,
    decreases n,
{
    if n < 10 {
        let d = spec_digits(n);
        let rest = d.subrange(1, d.len() as int);
        assert(rest =~= Seq::<char>::empty());
        assert(undigits(rest, char_digit(d[0])) == char_digit(d[0]));
        assert(char_digit(digit_char(n)) == n);
    } else {
        lemma_undigits_digits(n / 10);
        let tail = seq![digit_char(n % 10)];
        assert(spec_digits(n) =~= spec_digits(n / 10) + tail);
        lemma_undigits_append(spec_digits(n / 10), tail, 0);
        let x = (n / 10) * 10 + char_digit(tail[0]);
        let rest = tail.subrange(1, 1);
        assert(rest =~= Seq::<char>::empty());
        assert(undigits(rest, x) == x);
        assert(undigits(tail, n / 10) == x);
        assert(char_digit(digit_char(n % 10)) == n % 10);
    }
}

/// A value below `pow10(k)` prints to at most `k` digits.
proof fn lemma_digits_len_le(n: nat, k: nat)
    requires
        1 <= k,
        n < pow10(k),
    ensures
        spec_digits(n).len() <= k,
    decreases k,
{
    if n < 10 {
    } else {
        assert(pow10(k) == 10 * pow10((k - 1) as nat));
        lemma_digits_len_le(n / 10, (k - 1) as nat);
    }
}

/// A digit run over exactly the digits `s[i..i+m]`, stopped by the input's
/// end or a non-digit, has length `m`.
proof fn lemma_digit_run_exact(s: Seq<char>, i: nat, m: nat)
    requires
        i + m <= s.len(),
        forall|t: int| i <= t < i + m ==> is_digit(#[trigger] s[t]),
        i + m == s.len() || !is_digit(s[(i + m) as int]),
    ensures
        digit_run(s, i) == m,
    decreases m,
{
    if m == 0 {
    } else {
        assert(is_digit(s[i as int]));
        lemma_digit_run_exact(s, i + 1, (m - 1) as nat);
    }
}

/// The printed form of a value is never empty, and its first character is
/// neither whitespace nor a closing delimiter.
proof fn lemma_print_first(j: JsonV)
    ensures
        spec_print(j).len() >= 1,
        !is_ws(spec_print(j)[0]),
        spec_print(j)[0] != ']',
        spec_print(j)[0] != '}',
{
    match j {
        JsonV::Num(n) => {
            lemma_digits_shape(n as nat);
            assert(is_digit(spec_print(j)[0]));
        },
        JsonV::Str(t) => {
            assert(spec_print(j)[0] == '"');
        },
        JsonV::Arr(items) => {
            assert(spec_print(j)[0] == '[');
        },
        JsonV::Obj(fields) => {
            assert(spec_print(j)[0] == '{');
        },
    }
}

/// Parsing the printed form of a printable string literal body recovers it.
proof fn lemma_parse_str_print(t: Seq<char>, s: Seq<char>, i: nat)
    requires
        str_ok(t),
        i + t.len() + 1 <= s.len(),
        forall|k: int| 0 <= k < t.len() ==> s[i + k] == #[trigger] t[k],
        s[(i + t.len()) as int] == '"',
    ensures
        spec_parse_str(s, i) == Some((t, (i + t.len() + 1) as nat)),
    decreases t.len(),
{
    if t.len() == 0 {
    } else {
        let t1 = t.subrange(1, t.len() as int);
        assert forall|k: int| 0 <= k < t1.len() implies s[i + 1 + k] == #[trigger] t1[k] by {
            assert(s[i + (1 + k)] == t[1 + k]);
        }
        lemma_parse_str_print(t1, s, i + 1);
        assert(s[i as int] == t[0]);
        assert(t[0] != '"' && t[0] != '\\');
        assert(seq![t[0]] + t1 =~= t);
    }
}

/// Parsing the printed decimal form of `n`, embedded in a larger input and
/// followed (if by anything) by a non-digit, recovers `n` and stops exactly
/// at its end.
proof fn lemma_parse_print_num(n: u32, s: Seq<char>, i: nat)
    requires
        i + spec_digits(n as nat).len() <= s.len(),
        s.subrange(i as int, (i + spec_digits(n as nat).len()) as int) == spec_digits(n as nat),
        i + spec_digits(n as nat).len() == s.len() || !is_digit(
            s[(i + spec_digits(n as nat).len()) as int],
        ),
    ensures
        spec_parse_value(s, i) == Some(
            (JsonV::Num(n), (i + spec_digits(n as nat).len()) as nat),
        ),
{
    let p = spec_digits(n as nat);
    assert forall|k: int| 0 <= k < p.len() implies s[i + k] == #[trigger] p[k] by {
        assert(s.subrange(i as int, (i + p.len()) as int)[k] == s[i + k]);
    }
    lemma_digits_shape(n as nat);
    assert(s[i as int] == p[0]);
    assert(is_digit(s[i as int]));
    assert forall|t: int| i <= t < i + p.len() implies is_digit(#[trigger] s[t]) by {
        assert(s[i + (t - i)] == p[t - i]);
        assert(is_digit(p[t - i]));
    }
    lemma_digit_run_exact(s, i, p.len());
    assert(pow10(10) == 10_000_000_000) by {
        reveal_with_fuel(pow10, 11);
    }
    lemma_digits_len_le(n as nat, 10);
    assert(s.subrange(i as int, (i + digit_run(s, i)) as int) == spec_digits(n as nat));
    lemma_undigits_digits(n as nat);
    assert(spec_parse_num(s, i) == Some((JsonV::Num(n), (i + p.len()) as nat)));
    assert(spec_parse_value(s, i) == spec_parse_num(s, i));
}

/// Parsing the printed form of a printable value, embedded in a larger input
/// and followed (if by anything) by a non-digit, recovers the value and stops
/// exactly at its end.
#[verifier::rlimit(60)]
pub proof fn lemma_parse_print(j: JsonV, s: Seq<char>, i: nat)
    requires
        json_wf(j),
        i + spec_print(j).len() <= s.len(),
        s.subrange(i as int, (i + spec_print(j).len()) as int) == spec_print(j),
        i + spec_print(j).len() == s.len() || !is_digit(s[(i + spec_print(j).len()) as int]),
    ensures
        spec_parse_value(s, i) matches Some(pr) && pr.0 == j && pr.1 == i + spec_print(j).len(),
    decreases j, 0nat,
{
    let p = spec_print(j);
    assert forall|k: int| 0 <= k < p.len() implies s[i + k] == #[trigger] p[k] by {
        assert(s.subrange(i as int, (i + p.len()) as int)[k] == s[i + k]);
    }
    match j {
        JsonV::Num(n) => {
            lemma_parse_print_num(n, s, i);
            assert(j == JsonV::Num(n));
            assert(spec_print(j) == spec_digits(n as nat));
            assert(spec_parse_value(s, i) == Some(
                (JsonV::Num(n), (i + spec_digits(n as nat).len()) as nat),
            ));
        },
        JsonV::Str(t) => {
            assert(s[i as int] == p[0]);
            assert(p[0] == '"');
            assert(!is_digit('"'));
            assert forall|k: int| 0 <= k < t.len() implies s[i + 1 + k] == #[trigger] t[k] by {
                assert(s[i + (1 + k)] == p[1 + k]);
                assert(p[1 + k] == t[k]);
            }
            assert(s[(i + 1 + t.len()) as int] == p[(1 + t.len()) as int]);
            assert(p[(1 + t.len()) as int] == '"');
            lemma_parse_str_print(t, s, i + 1);
        },
        JsonV::Arr(items) => {
            assert(s[i as int] == p[0]);
            assert(p[0] == '[');
            if items.len() == 0 {
                assert(items =~= Seq::<JsonV>::empty());
                assert(spec_print_items(items) =~= Seq::<char>::empty());
                assert(s[(i + 1) as int] == p[1]);
                assert(p[1] == ']');
                assert(ws_run(s, i + 1) == 0);
            } else {
                let body = spec_print_items(items);
                assert(p =~= seq!['['] + (body + seq![']']));
                lemma_subrange_split(s, i as int, seq!['['], body + seq![']']);
                lemma_subrange_split(s, (i + 1) as int, body, seq![']']);
                assert(s[(i + 1 + body.len()) as int] == (seq![']'])[0]);
                lemma_parse_print_items(items, s, i + 1);
                lemma_print_first(items[0]);
                assert(body[0] == spec_print(items[0])[0]) by {
                    if items.len() > 1 {
                        assert(body[0] == ((spec_print(items[0]) + seq![',']) + spec_print_items(
                            items.subrange(1, items.len() as int),
                        ))[0]);
                        assert((spec_print(items[0]) + seq![','])[0] == spec_print(items[0])[0]);
                    }
                }
                assert(s[(i + 1) as int] == body[0]);
                assert(!is_ws(s[(i + 1) as int]));
                assert(ws_run(s, i + 1) == 0);
                assert(s[(i + 1) as int] != ']');
            }
        },
        JsonV::Obj(fields) => {
            assert(s[i as int] == p[0]);
            assert(p[0] == '{');
            if fields.len() == 0 {
                assert(fields =~= Seq::<(Seq<char>, JsonV)>::empty());
                assert(spec_print_fields(fields) =~= Seq::<char>::empty());
                assert(s[(i + 1) as int] == p[1]);
                assert(p[1] == '}');
                assert(ws_run(s, i + 1) == 0);
            } else {
                let body = spec_print_fields(fields);
                assert(p =~= seq!['{'] + (body + seq!['}']));
                lemma_subrange_split(s, i as int, seq!['{'], body + seq!['}']);
                lemma_subrange_split(s, (i + 1) as int, body, seq!['}']);
                assert(s[(i + 1 + body.len()) as int] == (seq!['}'])[0]);
                lemma_parse_print_fields(fields, s, i + 1);
                assert(body[0] == '"') by {
                    let head = seq!['"'] + fields[0].0 + seq!['"', ':'] + spec_print(fields[0].1);
                    assert(head[0] == '"');
                    if fields.len() > 1 {
                        assert(body[0] == ((head + seq![',']) + spec_print_fields(
                            fields.subrange(1, fields.len() as int),
                        ))[0]);
                        assert((head + seq![','])[0] == head[0]);
                    }
                }
                assert(s[(i + 1) as int] == body[0]);
                assert(ws_run(s, i + 1) == 0);
                assert(s[(i + 1) as int] != '}');
            }
        },
    }
}

/// Parsing the printed form of one or more array items, followed by `]`,
/// recovers the items and consumes the closing bracket.
proof fn lemma_parse_print_items(items: Seq<JsonV>, s: Seq<char>, i: nat)
    requires
        items.len() >= 1,
        forall|k: int| 0 <= k < items.len() ==> json_wf(#[trigger] items[k]),
        i + spec_print_items(items).len() < s.len(),
        s.subrange(i as int, (i + spec_print_items(items).len()) as int) == spec_print_items(
            items,
        ),
        s[(i + spec_print_items(items).len()) as int] == ']',
    ensures
        spec_parse_items(s, i) == Some(
            (items, (i + spec_print_items(items).len() + 1) as nat),
        ),
    decreases items, 1nat,
{
    let body = spec_print_items(items);
    let p0 = spec_print(items[0]);
    lemma_print_first(items[0]);
    assert(json_wf(items[0]));
    if items.len() == 1 {
        assert(body == p0);
        lemma_parse_print(items[0], s, i);
        assert(s.subrange(i as int, (i + p0.len()) as int)[0] == s[i as int]);
        assert(!is_ws(s[i as int]));
        assert(ws_run(s, i) == 0);
        let e = (i + p0.len()) as nat;
        assert(ws_run(s, e) == 0);
        assert(seq![items[0]] =~= items);
    } else {
        let rest = items.subrange(1, items.len() as int);
        assert(forall|k: int| 0 <= k < rest.len() ==> json_wf(#[trigger] rest[k]));
        assert(body =~= p0 + (seq![','] + spec_print_items(rest)));
        lemma_subrange_split(s, i as int, p0, seq![','] + spec_print_items(rest));
        lemma_subrange_split(s, (i + p0.len()) as int, seq![','], spec_print_items(rest));
        let e = (i + p0.len()) as nat;
        assert(s[e as int] == (seq![','])[0]);
        assert(s[e as int] == ',');
        assert(!is_digit(','));
        lemma_parse_print(items[0], s, i);
        assert(s[i as int] == p0[0]);
        assert(!is_ws(s[i as int]));
        assert(ws_run(s, i) == 0);
        assert(ws_run(s, e) == 0);
        lemma_parse_print_items(rest, s, e + 1);
        assert(seq![items[0]] + rest =~= items);
    }
}

/// Parsing the printed form of one or more object fields, followed by `}`,
/// recovers the fields and consumes the closing brace.
proof fn lemma_parse_print_fields(fields: Seq<(Seq<char>, JsonV)>, s: Seq<char>, i: nat)
    requires
        fields.len() >= 1,
        forall|k: int|
            0 <= k < fields.len() ==> str_ok((#[trigger] fields[k]).0) && json_wf(fields[k].1),
        i + spec_print_fields(fields).len() < s.len(),
        s.subrange(i as int, (i + spec_print_fields(fields).len()) as int) == spec_print_fields(
            fields,
        ),
        s[(i + spec_print_fields(fields).len()) as int] == '}',
    ensures
        spec_parse_fields(s, i) == Some(
            (fields, (i + spec_print_fields(fields).len() + 1) as nat),
        ),
    decreases fields, 1nat,
{
    let body = spec_print_fields(fields);
    let key = fields[0].0;
    let v = fields[0].1;
    let pv = spec_print(v);
    let head = seq!['"'] + key + seq!['"', ':'] + pv;
    lemma_print_first(v);
    assert(str_ok(key) && json_wf(v));
    let tail: Seq<char> = if fields.len() == 1 {
        seq![]
    } else {
        seq![','] + spec_print_fields(fields.subrange(1, fields.len() as int))
    };
    assert(body =~= head + tail);
    lemma_subrange_split(s, i as int, head, tail);
    assert(head =~= (seq!['"'] + key) + (seq!['"', ':'] + pv));
    lemma_subrange_split(s, i as int, seq!['"'] + key, seq!['"', ':'] + pv);
    lemma_subrange_split(s, (i + 1 + key.len()) as int, seq!['"', ':'], pv);
    assert(s[i as int] == (seq!['"'] + key)[0]);
    assert(s[i as int] == '"');
    assert(ws_run(s, i) == 0);
    assert forall|k: int| 0 <= k < key.len() implies s[i + 1 + k] == #[trigger] key[k] by {
        assert(s[i + (1 + k)] == (seq!['"'] + key)[1 + k]);
    }
    assert(s[(i + 1 + key.len()) as int] == (seq!['"', ':'])[0]);
    assert(s[(i + 1 + key.len()) as int] == '"');
    assert(s[(i + 1 + key.len() + 1) as int] == (seq!['"', ':'])[1]);
    assert(s[(i + 2 + key.len()) as int] == ':');
    lemma_parse_str_print(key, s, i + 1);
    let e1 = (i + key.len() + 2) as nat;
    assert(ws_run(s, (e1 - 1) as nat) == 0);
    assert(ws_run(s, e1) == 0) by {
        assert(s[e1 as int] == ':');
    }
    let i2 = (e1 + 1) as nat;
    assert(s.subrange(i2 as int, (i2 + pv.len()) as int) == pv);
    assert(s[i2 as int] == pv[0]) by {
        assert(s[(i + 1 + key.len() + 2) as int] == pv[0]);
    }
    assert(!is_ws(s[i2 as int]));
    assert(ws_run(s, i2) == 0);
    let e2 = (i2 + pv.len()) as nat;
    if fields.len() == 1 {
        assert(tail =~= Seq::<char>::empty());
        assert(head.len() == body.len());
        assert(e2 == i + body.len());
        assert(s[e2 as int] == '}');
        assert(!is_digit('}'));
        lemma_parse_print(v, s, i2);
        assert(ws_run(s, e2) == 0);
        assert(seq![(key, v)] =~= fields);
    } else {
        let rest = fields.subrange(1, fields.len() as int);
        assert(forall|k: int|
            0 <= k < rest.len() ==> str_ok((#[trigger] rest[k]).0) && json_wf(rest[k].1));
        assert(s.subrange((i + head.len()) as int, (i + head.len() + tail.len()) as int) == tail);
        assert(tail =~= seq![','] + spec_print_fields(rest));
        lemma_subrange_split(s, e2 as int, seq![','], spec_print_fields(rest));
        assert(s[e2 as int] == (seq![','])[0]);
        assert(s[e2 as int] == ',');
        assert(!is_digit(','));
        lemma_parse_print(v, s, i2);
        assert(ws_run(s, e2) == 0);
        lemma_parse_print_fields(rest, s, e2 + 1);
        assert(seq![(key, v)] + rest =~= fields);
    }
}

/// Round trip at the document level: parsing the canonical printing of a
/// printable document recovers it exactly.
pub proof fn lemma_parse_print_document(j: JsonV)
    requires
        json_wf(j),
    ensures
        spec_parse_document(spec_print(j)) == Some(j),
{
    let s = spec_print(j);
    lemma_print_first(j);
    assert(ws_run(s, 0) == 0);
    assert(s.subrange(0, s.len() as int) =~= s);
    lemma_parse_print(j, s, 0);
    assert(ws_run(s, s.len()) == 0);
}

/// Print a whole document to characters.
pub fn print_document(j: &Json) -> (out: Vec<char>)
    ensures
        out@ == spec_print(j@),
{
    let mut out: Vec<char> = Vec::new();
    print_value(j, &mut out);
    proof {
        assert(Seq::<char>::empty() + spec_print(j@) =~= spec_print(j@));
    }
    out
}

} // verus!
