//! Reading the summary of a policy-network training run from its log text.
//!
//! The log is read line by line. Header lines give the number of epochs, the
//! batch size, the learning rate, the steps per episode and the parameter
//! counts; lines with an `[Epoch` tag give per-epoch loss, reward and learning
//! rate, of which the record of the highest epoch is kept. Decimal values are
//! returned as their text; integer counts are parsed.
//!
//! Everything is defined on the UTF-8 bytes of the text. The searched keys and
//! the characters that numbers are made of are ASCII, and no byte of a
//! multi-byte character is ASCII, so scanning bytes finds exactly what
//! scanning characters finds.

use vstd::prelude::*;

verus! {

broadcast use vstd::string::group_string_axioms;

pub const NEWLINE: u8 = 10;
pub const CARRIAGE_RETURN: u8 = 13;
pub const COMMA: u8 = 44;
pub const MINUS: u8 = 45;
pub const DOT: u8 = 46;

pub open spec fn is_digit(b: u8) -> bool {
    48 <= b <= 57
}

/// The bytes of an ASCII text.
pub open spec fn bytes_of(s: Seq<char>) -> Seq<u8> {
    Seq::new(s.len(), |i: int| s[i] as u8)
}

/// `pat` occurs in `s` at index `i`.
pub open spec fn matches_at(s: Seq<u8>, pat: Seq<u8>, i: int) -> bool {
    0 <= i && i + pat.len() <= s.len() && s.subrange(i, i + pat.len()) == pat
}

/// The first index at or after `start` where `pat` occurs.
pub open spec fn find_from(s: Seq<u8>, pat: Seq<u8>, start: int) -> Option<int>
    decreases s.len() + 1 - start,
{
    if start < 0 || start + pat.len() > s.len() {
        None
    } else if matches_at(s, pat, start) {
        Some(start)
    } else {
        find_from(s, pat, start + 1)
    }
}

/// A found occurrence lies at or after `start`, inside `s`, and is the first.
pub proof fn lemma_find_from_bounds(s: Seq<u8>, pat: Seq<u8>, start: int)
    requires
        0 <= start,
    ensures
        match find_from(s, pat, start) {
            Some(k) => start <= k && k + pat.len() <= s.len() && matches_at(s, pat, k)
                && forall|j: int| start <= j < k ==> !matches_at(s, pat, j),
            None => forall|j: int| start <= j ==> !matches_at(s, pat, j),
        },
    decreases s.len() + 1 - start,
{
    if start + pat.len() > s.len() {
    } else if matches_at(s, pat, start) {
    } else {
        lemma_find_from_bounds(s, pat, start + 1);
    }
}

/// Classes of bytes that numbers are scanned by.
#[derive(Clone, Copy, Debug, PartialEq, Eq, Structural)]
pub enum CharClass {
    /// `0`-`9`
    Digit,
    /// digits and `.`
    Number,
    /// digits, `.` and `-`
    SignedNumber,
    /// digits and `,`
    DigitOrComma,
}

pub open spec fn in_class(b: u8, c: CharClass) -> bool {
    match c {
        CharClass::Digit => is_digit(b),
        CharClass::Number => is_digit(b) || b == DOT,
        CharClass::SignedNumber => is_digit(b) || b == DOT || b == MINUS,
        CharClass::DigitOrComma => is_digit(b) || b == COMMA,
    }
}

/// The first index in `[i, end)` whose byte is in class `c`, or `end`.
pub open spec fn skip_to_class(s: Seq<u8>, i: int, end: int, c: CharClass) -> int
    decreases end - i,
{
    if i >= end {
        end
    } else if in_class(s[i], c) {
        i
    } else {
        skip_to_class(s, i + 1, end, c)
    }
}

/// The first index in `[i, end)` whose byte is not in class `c`, or `end`.
pub open spec fn class_run_end(s: Seq<u8>, i: int, end: int, c: CharClass) -> int
    decreases end - i,
{
    if i >= end {
        end
    } else if !in_class(s[i], c) {
        i
    } else {
        class_run_end(s, i + 1, end, c)
    }
}

/// The text is a decimal number as the standard library's float parser reads
/// it when made of digits, dots and minus signs: an optional leading minus,
/// then digits with at most one dot and at least one digit.
pub open spec fn float_text_ok(t: Seq<u8>) -> bool {
    float_body_ok(unsigned_part(t))
}

/// The text without a leading minus sign.
pub open spec fn unsigned_part(t: Seq<u8>) -> Seq<u8> {
    if t.len() > 0 && t[0] == MINUS { t.subrange(1, t.len() as int) } else { t }
}

/// Digits with at most one dot and at least one digit.
pub open spec fn float_body_ok(u: Seq<u8>) -> bool {
    &&& forall|i: int| 0 <= i < u.len() ==> is_digit(#[trigger] u[i]) || u[i] == DOT
    &&& forall|i: int, j: int| 0 <= i < j < u.len() ==> !(#[trigger] u[i] == DOT && #[trigger] u[j] == DOT)
    &&& exists|i: int| 0 <= i < u.len() && is_digit(#[trigger] u[i])
}

/// The value of a digit string.
pub open spec fn digits_value(d: Seq<u8>) -> nat
    decreases d.len(),
{
    if d.len() == 0 {
        0
    } else {
        digits_value(d.drop_last()) * 10 + (d.last() - 48) as nat
    }
}

/// The text with its commas removed.
pub open spec fn strip_commas(t: Seq<u8>) -> Seq<u8>
    decreases t.len(),
{
    if t.len() == 0 {
        t
    } else {
        strip_commas(t.drop_last()) + (if t.last() == COMMA { Seq::empty() } else { seq![t.last()] })
    }
}

/// The unsigned integer a non-empty digit string denotes, when at most `max`.
pub open spec fn parse_dec(d: Seq<u8>, max: nat) -> Option<nat> {
    if d.len() > 0 && (forall|i: int| 0 <= i < d.len() ==> is_digit(#[trigger] d[i])) && digits_value(d) <= max {
        Some(digits_value(d))
    } else {
        None
    }
}

pub open spec fn key_epochs() -> Seq<u8> { bytes_of("Epochs"@) }
pub open spec fn key_colon() -> Seq<u8> { bytes_of(":"@) }
pub open spec fn key_batch_size() -> Seq<u8> { bytes_of("Batch size"@) }
pub open spec fn key_learning_rate() -> Seq<u8> { bytes_of("Learning rate"@) }
pub open spec fn key_max_steps() -> Seq<u8> { bytes_of("Max steps/episode"@) }
pub open spec fn key_policy_params() -> Seq<u8> { bytes_of("PolicyNetwork parameters:"@) }
pub open spec fn key_parameters() -> Seq<u8> { bytes_of("parameters:"@) }
pub open spec fn key_epoch_tag() -> Seq<u8> { bytes_of("[Epoch"@) }
pub open spec fn key_avg_loss() -> Seq<u8> { bytes_of("avg_loss="@) }
pub open spec fn key_avg_reward() -> Seq<u8> { bytes_of("avg_reward="@) }
pub open spec fn key_lr() -> Seq<u8> { bytes_of("lr="@) }

/// The number after the first `key` in `line`: bytes after the key are
/// skipped up to the first digit or dot, and the run of digits and dots that
/// starts there is the number's text; `None` when the key is missing or the
/// text is not a decimal number.
pub open spec fn number_after(line: Seq<u8>, key: Seq<u8>) -> Option<Seq<u8>> {
    match find_from(line, key, 0) {
        None => None,
        Some(i) => {
            let st = skip_to_class(line, i + key.len(), line.len() as int, CharClass::Number);
            let en = class_run_end(line, st, line.len() as int, CharClass::Number);
            let t = line.subrange(st, en);
            if float_text_ok(t) { Some(t) } else { None }
        },
    }
}

/// The signed number right after the first `prefix` in `line` (the run of
/// digits, dots and minus signs that starts there); `None` when the prefix is
/// missing or the run is not a decimal number.
pub open spec fn value_after(line: Seq<u8>, prefix: Seq<u8>) -> Option<Seq<u8>> {
    match find_from(line, prefix, 0) {
        None => None,
        Some(i) => {
            let st = i + prefix.len();
            let en = class_run_end(line, st, line.len() as int, CharClass::SignedNumber);
            let t = line.subrange(st, en);
            if float_text_ok(t) { Some(t) } else { None }
        },
    }
}

/// The part of `line` between the first occurrence of `pat` and the next one
/// (or the end of the line), as a byte range.
pub open spec fn segment_after(line: Seq<u8>, pat: Seq<u8>) -> Option<(int, int)> {
    match find_from(line, pat, 0) {
        None => None,
        Some(i) => {
            let a = i + pat.len();
            let e = match find_from(line, pat, a) {
                Some(j) => j,
                None => line.len() as int,
            };
            Some((a, e))
        },
    }
}

/// The epoch number of an `[Epoch` line: the first run of digits after the
/// tag, before any further tag, as a 32-bit number.
pub open spec fn epoch_number(line: Seq<u8>) -> Option<nat> {
    match segment_after(line, key_epoch_tag()) {
        None => None,
        Some((a, e)) => {
            let st = skip_to_class(line, a, e, CharClass::Digit);
            let en = class_run_end(line, st, e, CharClass::Digit);
            parse_dec(line.subrange(st, en), u32::MAX as nat)
        },
    }
}

/// A run of digits and commas in `[start, e)` parsed with its commas removed,
/// and the index where the run ends; `None` as the run when there is none.
pub open spec fn count_token(line: Seq<u8>, start: int, e: int) -> (Option<Option<nat>>, int) {
    let st = skip_to_class(line, start, e, CharClass::DigitOrComma);
    if st >= e {
        (None, e)
    } else {
        let en = class_run_end(line, st, e, CharClass::DigitOrComma);
        (Some(parse_dec(strip_commas(line.subrange(st, en)), u64::MAX as nat)), en)
    }
}

/// The first and second counts after `parameters:`: the first two runs of
/// digits and commas before any further `parameters:`, each with its commas
/// removed; `None` where a run is missing or does not parse as a 64-bit count.
pub open spec fn param_counts(line: Seq<u8>) -> (Option<nat>, Option<nat>) {
    match segment_after(line, key_parameters()) {
        None => (None, None),
        Some((a, e)) => {
            let (t1, e1) = count_token(line, a, e);
            let (t2, _e2) = count_token(line, e1, e);
            (
                match t1 { Some(v) => v, None => None },
                match t2 { Some(v) => v, None => None },
            )
        },
    }
}

fn ascii_key(s: &'static str) -> (r: &'static [u8])
    requires
        vstd::utf8::is_ascii_chars(s@),
    ensures
        r@ == bytes_of(s@),
{
    let r = s.as_bytes();
    proof {
        vstd::utf8::is_ascii_chars_encode_utf8(s@);
        assert(r@ =~= bytes_of(s@));
    }
    r
}

fn epochs_key() -> (r: &'static [u8])
    ensures
        r@ == key_epochs(),
{
    proof { reveal_strlit("Epochs"); }
    ascii_key("Epochs")
}

/// `pat` occurs in `s` at `i`.
fn matches_exec(s: &[u8], pat: &[u8], i: usize) -> (r: bool)
    requires
        i + pat@.len() <= s@.len(),
    ensures
        r == matches_at(s@, pat@, i as int),
{
    let n = s.len();
    let mut k: usize = 0;
    while k < pat.len()
        invariant
            n == s@.len(),
            i + pat@.len() <= s@.len(),
            k <= pat@.len(),
            forall|j: int| 0 <= j < k ==> s@[i + j] == pat@[j],
        decreases pat@.len() - k,
    {
        if s[i + k] != pat[k] {
            assert(s@.subrange(i as int, i + pat@.len())[k as int] != pat@[k as int]);
            return false;
        }
        k = k + 1;
    }
    assert(s@.subrange(i as int, i + pat@.len()) =~= pat@);
    true
}

/// The first index at or after `start` where `pat` occurs in `s`.
pub fn find_from_exec(s: &[u8], pat: &[u8], start: usize) -> (r: Option<usize>)
    ensures
        match r {
            Some(k) => find_from(s@, pat@, start as int) == Some(k as int),
            None => find_from(s@, pat@, start as int) is None,
        },
{
    if pat.len() > s.len() {
        proof { lemma_find_from_bounds(s@, pat@, start as int); }
        return None;
    }
    let last = s.len() - pat.len();
    let mut i = start;
    while i <= last
        invariant
            last + pat@.len() == s@.len(),
            start <= i,
            find_from(s@, pat@, start as int) == find_from(s@, pat@, i as int),
        decreases last + 1 - i,
    {
        if matches_exec(s, pat, i) {
            return Some(i);
        }
        if i == last {
            return None;
        }
        i = i + 1;
    }
    None
}

/// The first index in `[i, end)` whose byte is in class `c`, or `end`.
fn skip_to_class_exec(s: &[u8], i: usize, end: usize, c: CharClass) -> (r: usize)
    requires
        i <= end <= s@.len(),
    ensures
        r == skip_to_class(s@, i as int, end as int, c),
        i <= r <= end,
{
    let mut j = i;
    while j < end
        invariant
            i <= j <= end <= s@.len(),
            skip_to_class(s@, i as int, end as int, c) == skip_to_class(s@, j as int, end as int, c),
        decreases end - j,
    {
        if in_class_exec(s[j], c) {
            return j;
        }
        j = j + 1;
    }
    j
}

/// The first index in `[i, end)` whose byte is not in class `c`, or `end`.
fn class_run_end_exec(s: &[u8], i: usize, end: usize, c: CharClass) -> (r: usize)
    requires
        i <= end <= s@.len(),
    ensures
        r == class_run_end(s@, i as int, end as int, c),
        i <= r <= end,
        forall|k: int| i <= k < r ==> in_class(#[trigger] s@[k], c),
{
    let mut j = i;
    while j < end
        invariant
            i <= j <= end <= s@.len(),
            class_run_end(s@, i as int, end as int, c) == class_run_end(s@, j as int, end as int, c),
            forall|k: int| i <= k < j ==> in_class(#[trigger] s@[k], c),
        decreases end - j,
    {
        if !in_class_exec(s[j], c) {
            return j;
        }
        j = j + 1;
    }
    j
}

fn in_class_exec(b: u8, c: CharClass) -> (r: bool)
    ensures
        r == in_class(b, c),
{
    let digit = 48 <= b && b <= 57;
    match c {
        CharClass::Digit => digit,
        CharClass::Number => digit || b == DOT,
        CharClass::SignedNumber => digit || b == DOT || b == MINUS,
        CharClass::DigitOrComma => digit || b == COMMA,
    }
}

/// A copy of `s[a..b]`.
fn copy_range(s: &[u8], a: usize, b: usize) -> (r: Vec<u8>)
    requires
        a <= b <= s@.len(),
    ensures
        r@ == s@.subrange(a as int, b as int),
{
    let mut v: Vec<u8> = Vec::new();
    let mut k = a;
    while k < b
        invariant
            a <= k <= b <= s@.len(),
            v@ == s@.subrange(a as int, k as int),
        decreases b - k,
    {
        v.push(s[k]);
        k = k + 1;
        assert(v@ =~= s@.subrange(a as int, k as int));
    }
    v
}

/// Whether `s[a..b]` is a decimal number text (see `float_text_ok`).
fn float_text_ok_exec(s: &[u8], a: usize, b: usize) -> (r: bool)
    requires
        a <= b <= s@.len(),
    ensures
        r == float_text_ok(s@.subrange(a as int, b as int)),
{
    let ghost t = s@.subrange(a as int, b as int);
    let mut k = a;
    if k < b && s[k] == MINUS {
        k = k + 1;
    }
    let start = k;
    let ghost u = unsigned_part(t);
    assert(u =~= s@.subrange(start as int, b as int));
    let mut seen_dot = false;
    let mut seen_digit = false;
    let ghost mut dot_at: int = 0;
    while k < b
        invariant
            a <= start <= k <= b <= s@.len(),
            u == s@.subrange(start as int, b as int),
            t == s@.subrange(a as int, b as int),
            u == unsigned_part(t),
            forall|i: int| start <= i < k ==> is_digit(#[trigger] s@[i]) || s@[i] == DOT,
            seen_dot ==> start <= dot_at < k && s@[dot_at] == DOT,
            !seen_dot ==> forall|i: int| start <= i < k ==> #[trigger] s@[i] != DOT,
            seen_digit <==> exists|i: int| start <= i < k && is_digit(#[trigger] s@[i]),
            forall|i: int, j: int| start <= i < j < k ==> !(#[trigger] s@[i] == DOT && #[trigger] s@[j] == DOT),
        decreases b - k,
    {
        let c = s[k];
        if 48 <= c && c <= 57 {
            seen_digit = true;
        } else if c == DOT {
            if seen_dot {
                proof {
                    let i0 = dot_at - start;
                    let j0 = k - start;
                    assert(u[i0] == DOT && u[j0] == DOT);
                    assert(!float_body_ok(u));
                }
                return false;
            }
            seen_dot = true;
            proof {
                dot_at = k as int;
            }
        } else {
            proof {
                assert(!(is_digit(u[k - start]) || u[k - start] == DOT));
            }
            return false;
        }
        k = k + 1;
    }
    proof {
        if seen_digit {
            let i = choose|i: int| start <= i < k && is_digit(#[trigger] s@[i]);
            assert(is_digit(u[i - start]));
        } else {
            assert forall|i: int| 0 <= i < u.len() implies !is_digit(#[trigger] u[i]) by {
                assert(u[i] == s@[start + i]);
            }
        }
        assert forall|i: int| 0 <= i < u.len() implies is_digit(#[trigger] u[i]) || u[i] == DOT by {
            assert(u[i] == s@[start + i]);
        }
        assert forall|i: int, j: int| 0 <= i < j < u.len() implies !(#[trigger] u[i] == DOT && #[trigger] u[j] == DOT) by {
            assert(u[i] == s@[start + i]);
            assert(u[j] == s@[start + j]);
        }
    }
    seen_digit
}

/// The bytes that are parsed as digits: the text, without its commas when
/// `skip_commas`.
pub open spec fn digit_text(t: Seq<u8>, skip_commas: bool) -> Seq<u8> {
    if skip_commas { strip_commas(t) } else { t }
}

/// Parses `s[a..b]` (commas removed when `skip_commas`) as an unsigned integer
/// of at most `max`.
fn parse_dec_exec(s: &[u8], a: usize, b: usize, skip_commas: bool, max: u64) -> (r: Option<u64>)
    requires
        a <= b <= s@.len(),
    ensures
        match r {
            Some(v) => parse_dec(digit_text(s@.subrange(a as int, b as int), skip_commas), max as nat) == Some(v as nat),
            None => parse_dec(digit_text(s@.subrange(a as int, b as int), skip_commas), max as nat) is None,
        },
{
    let mut k = a;
    let mut bad = false;
    let mut over = false;
    let mut any = false;
    let mut val: u128 = 0;
    let ghost mut bad_at: int = 0;
    proof {
        assert(s@.subrange(a as int, a as int) =~= Seq::<u8>::empty());
    }
    while k < b
        invariant
            a <= k <= b <= s@.len(),
            ({
                let d = digit_text(s@.subrange(a as int, k as int), skip_commas);
                &&& any <==> d.len() > 0
                &&& bad ==> 0 <= bad_at < d.len() && !is_digit(d[bad_at])
                &&& !bad ==> forall|i: int| 0 <= i < d.len() ==> is_digit(#[trigger] d[i])
                &&& !bad && over ==> digits_value(d) > max
                &&& !bad && !over ==> val == digits_value(d) && val <= max
            }),
        decreases b - k,
    {
        let c = s[k];
        let ghost d0 = digit_text(s@.subrange(a as int, k as int), skip_commas);
        let ghost t1 = s@.subrange(a as int, k + 1);
        assert(t1.drop_last() =~= s@.subrange(a as int, k as int));
        assert(t1.last() == c);
        if skip_commas && c == COMMA {
            assert(digit_text(t1, skip_commas) =~= d0);
        } else {
            let ghost d1 = digit_text(t1, skip_commas);
            assert(d1 =~= d0.push(c));
            assert(d1.drop_last() =~= d0);
            any = true;
            if !bad {
                if 48 <= c && c <= 57 {
                    if !over {
                        let nv = val * 10 + ((c - 48) as u128);
                        if nv > max as u128 {
                            over = true;
                        } else {
                            val = nv;
                        }
                    }
                } else {
                    bad = true;
                    proof {
                        bad_at = d0.len() as int;
                    }
                }
            }
        }
        k = k + 1;
    }
    if bad || !any || over {
        None
    } else {
        Some(val as u64)
    }
}

fn colon_key() -> (r: &'static [u8])
    ensures
        r@ == key_colon(),
{
    proof { reveal_strlit(":"); }
    ascii_key(":")
}

fn batch_size_key() -> (r: &'static [u8])
    ensures
        r@ == key_batch_size(),
{
    proof { reveal_strlit("Batch size"); }
    ascii_key("Batch size")
}

fn learning_rate_key() -> (r: &'static [u8])
    ensures
        r@ == key_learning_rate(),
{
    proof { reveal_strlit("Learning rate"); }
    ascii_key("Learning rate")
}

fn max_steps_key() -> (r: &'static [u8])
    ensures
        r@ == key_max_steps(),
{
    proof { reveal_strlit("Max steps/episode"); }
    ascii_key("Max steps/episode")
}

fn policy_params_key() -> (r: &'static [u8])
    ensures
        r@ == key_policy_params(),
{
    proof { reveal_strlit("PolicyNetwork parameters:"); }
    ascii_key("PolicyNetwork parameters:")
}

fn parameters_key() -> (r: &'static [u8])
    ensures
        r@ == key_parameters(),
{
    proof { reveal_strlit("parameters:"); }
    ascii_key("parameters:")
}

fn epoch_tag_key() -> (r: &'static [u8])
    ensures
        r@ == key_epoch_tag(),
{
    proof { reveal_strlit("[Epoch"); }
    ascii_key("[Epoch")
}

fn avg_loss_key() -> (r: &'static [u8])
    ensures
        r@ == key_avg_loss(),
{
    proof { reveal_strlit("avg_loss="); }
    ascii_key("avg_loss=")
}

fn avg_reward_key() -> (r: &'static [u8])
    ensures
        r@ == key_avg_reward(),
{
    proof { reveal_strlit("avg_reward="); }
    ascii_key("avg_reward=")
}

fn lr_key() -> (r: &'static [u8])
    ensures
        r@ == key_lr(),
{
    proof { reveal_strlit("lr="); }
    ascii_key("lr=")
}

pub open spec fn opt_bytes(o: Option<Vec<u8>>) -> Option<Seq<u8>> {
    match o {
        Some(v) => Some(v@),
        None => None,
    }
}

pub open spec fn opt_nat(o: Option<u64>) -> Option<nat> {
    match o {
        Some(v) => Some(v as nat),
        None => None,
    }
}

/// The number after the first `key` in `line` (see `number_after`).
pub fn number_after_exec(line: &[u8], key: &[u8]) -> (r: Option<Vec<u8>>)
    ensures
        opt_bytes(r) == number_after(line@, key@),
{
    match find_from_exec(line, key, 0) {
        None => None,
        Some(i) => {
            proof { lemma_find_from_bounds(line@, key@, 0); }
            let _n = line.len();
            let st = skip_to_class_exec(line, i + key.len(), line.len(), CharClass::Number);
            let en = class_run_end_exec(line, st, line.len(), CharClass::Number);
            if float_text_ok_exec(line, st, en) {
                Some(copy_range(line, st, en))
            } else {
                None
            }
        },
    }
}

/// The signed number right after the first `prefix` in `line` (see `value_after`).
pub fn value_after_exec(line: &[u8], prefix: &[u8]) -> (r: Option<Vec<u8>>)
    ensures
        opt_bytes(r) == value_after(line@, prefix@),
{
    match find_from_exec(line, prefix, 0) {
        None => None,
        Some(i) => {
            proof { lemma_find_from_bounds(line@, prefix@, 0); }
            let _n = line.len();
            let st = i + prefix.len();
            let en = class_run_end_exec(line, st, line.len(), CharClass::SignedNumber);
            if float_text_ok_exec(line, st, en) {
                Some(copy_range(line, st, en))
            } else {
                None
            }
        },
    }
}

fn segment_after_exec(line: &[u8], pat: &[u8]) -> (r: Option<(usize, usize)>)
    ensures
        match r {
            Some((a, e)) => segment_after(line@, pat@) == Some((a as int, e as int)) && a <= e <= line@.len(),
            None => segment_after(line@, pat@) is None,
        },
{
    match find_from_exec(line, pat, 0) {
        None => None,
        Some(i) => {
            proof { lemma_find_from_bounds(line@, pat@, 0); }
            let _n = line.len();
            let a = i + pat.len();
            let e = match find_from_exec(line, pat, a) {
                Some(j) => {
                    proof { lemma_find_from_bounds(line@, pat@, a as int); }
                    j
                },
                None => line.len(),
            };
            Some((a, e))
        },
    }
}

/// The epoch number of an `[Epoch` line (see `epoch_number`).
pub fn epoch_number_exec(line: &[u8]) -> (r: Option<u32>)
    ensures
        opt_nat(match r { Some(v) => Some(v as u64), None => None }) == epoch_number(line@),
{
    match segment_after_exec(line, epoch_tag_key()) {
        None => None,
        Some((a, e)) => {
            let st = skip_to_class_exec(line, a, e, CharClass::Digit);
            let en = class_run_end_exec(line, st, e, CharClass::Digit);
            match parse_dec_exec(line, st, en, false, 4294967295u64) {
                Some(v) => Some(v as u32),
                None => None,
            }
        },
    }
}

fn count_token_exec(line: &[u8], start: usize, e: usize) -> (r: (Option<Option<u64>>, usize))
    requires
        start <= e <= line@.len(),
    ensures
        r.1 <= e,
        start <= r.1,
        count_token(line@, start as int, e as int) == (
            match r.0 {
                Some(v) => Some(opt_nat(v)),
                None => None,
            },
            r.1 as int,
        ),
{
    let st = skip_to_class_exec(line, start, e, CharClass::DigitOrComma);
    if st >= e {
        (None, e)
    } else {
        let en = class_run_end_exec(line, st, e, CharClass::DigitOrComma);
        (Some(parse_dec_exec(line, st, en, true, 18446744073709551615u64)), en)
    }
}

/// The two counts after `parameters:` (see `param_counts`).
pub fn param_counts_exec(line: &[u8]) -> (r: (Option<u64>, Option<u64>))
    ensures
        param_counts(line@) == (opt_nat(r.0), opt_nat(r.1)),
{
    match segment_after_exec(line, parameters_key()) {
        None => (None, None),
        Some((a, e)) => {
            let (t1, e1) = count_token_exec(line, a, e);
            let (t2, _e2) = count_token_exec(line, e1, e);
            (
                match t1 { Some(v) => v, None => None },
                match t2 { Some(v) => v, None => None },
            )
        },
    }
}

fn contains_exec(line: &[u8], pat: &[u8]) -> (r: bool)
    ensures
        r == find_from(line@, pat@, 0) is Some,
{
    match find_from_exec(line, pat, 0) {
        Some(_) => true,
        None => false,
    }
}

fn header_value_exec(line: &[u8], key: &[u8]) -> (r: Option<Vec<u8>>)
    ensures
        opt_bytes(r) == header_value(line@, key@),
{
    if contains_exec(line, key) && contains_exec(line, colon_key()) {
        number_after_exec(line, key)
    } else {
        None
    }
}

/// What the training log says; numbers of decimal values are kept as text.
pub struct LogSummary {
    pub epochs: Option<Seq<u8>>,
    pub batch_size: Option<Seq<u8>>,
    pub learning_rate: Option<Seq<u8>>,
    pub max_steps_per_episode: Option<Seq<u8>>,
    pub total_params: Option<nat>,
    pub trainable_params: Option<nat>,
    pub last_epoch: nat,
    pub last_avg_loss: Option<Seq<u8>>,
    pub last_avg_reward: Option<Seq<u8>>,
    pub last_lr: Option<Seq<u8>>,
}

/// The summary before any line is read.
pub open spec fn empty_summary() -> LogSummary {
    LogSummary {
        epochs: None,
        batch_size: None,
        learning_rate: None,
        max_steps_per_episode: None,
        total_params: None,
        trainable_params: None,
        last_epoch: 0,
        last_avg_loss: None,
        last_avg_reward: None,
        last_lr: None,
    }
}

/// `new` when it is a value, else `old`.
pub open spec fn replace_if<T>(old: Option<T>, new: Option<T>) -> Option<T> {
    match new {
        Some(v) => Some(v),
        None => old,
    }
}

/// A header value: the number after `key` on a line that holds `key` and a colon.
pub open spec fn header_value(line: Seq<u8>, key: Seq<u8>) -> Option<Seq<u8>> {
    if find_from(line, key, 0) is Some && find_from(line, key_colon(), 0) is Some {
        number_after(line, key)
    } else {
        None
    }
}

/// The summary after reading one more line.
#[verifier::opaque]
pub open spec fn scan_line(acc: LogSummary, line: Seq<u8>) -> LogSummary {
    let (p1, p2) = if find_from(line, key_policy_params(), 0) is Some {
        param_counts(line)
    } else {
        (None, None)
    };
    let with_headers = LogSummary {
        epochs: replace_if(acc.epochs, header_value(line, key_epochs())),
        batch_size: replace_if(acc.batch_size, header_value(line, key_batch_size())),
        learning_rate: replace_if(acc.learning_rate, header_value(line, key_learning_rate())),
        max_steps_per_episode: replace_if(acc.max_steps_per_episode, header_value(line, key_max_steps())),
        total_params: replace_if(acc.total_params, p1),
        trainable_params: replace_if(acc.trainable_params, p2),
        ..acc
    };
    if find_from(line, key_epoch_tag(), 0) is Some {
        match epoch_number(line) {
            Some(n) => if n > acc.last_epoch {
                LogSummary {
                    last_epoch: n,
                    last_avg_loss: value_after(line, key_avg_loss()),
                    last_avg_reward: value_after(line, key_avg_reward()),
                    last_lr: value_after(line, key_lr()),
                    ..with_headers
                }
            } else {
                with_headers
            },
            None => with_headers,
        }
    } else {
        with_headers
    }
}

/// A line ending at a newline loses one carriage return before it.
pub open spec fn strip_cr(line: Seq<u8>) -> Seq<u8> {
    if line.len() > 0 && line.last() == CARRIAGE_RETURN { line.drop_last() } else { line }
}

/// The summary after reading the lines of `s` from byte `start` on. Lines end
/// at a newline (which, with a carriage return before it, is not part of the
/// line); a last line without a newline is read as it is; there is no empty
/// line after a final newline.
pub open spec fn scan_from(s: Seq<u8>, start: int, acc: LogSummary) -> LogSummary
    decreases s.len() - start,
{
    if start < 0 || start >= s.len() {
        acc
    } else {
        proof {
            lemma_find_from_bounds(s, seq![NEWLINE], start);
        }
        match find_from(s, seq![NEWLINE], start) {
            Some(k) => scan_from(s, k + 1, scan_line(acc, strip_cr(s.subrange(start, k)))),
            None => scan_line(acc, s.subrange(start, s.len() as int)),
        }
    }
}

/// What the whole log says.
pub open spec fn summarize_log(s: Seq<u8>) -> LogSummary {
    scan_from(s, 0, empty_summary())
}


/// What the training log says (see `LogSummary`); decimal values as text.
#[derive(Debug)]
pub struct TrainingLogScan {
    pub epochs: Option<Vec<u8>>,
    pub batch_size: Option<Vec<u8>>,
    pub learning_rate: Option<Vec<u8>>,
    pub max_steps_per_episode: Option<Vec<u8>>,
    pub total_params: Option<u64>,
    pub trainable_params: Option<u64>,
    pub last_epoch: u32,
    pub last_avg_loss: Option<Vec<u8>>,
    pub last_avg_reward: Option<Vec<u8>>,
    pub last_lr: Option<Vec<u8>>,
}

impl TrainingLogScan {
    /// The summary this scan holds.
    pub open spec fn summary(&self) -> LogSummary {
        LogSummary {
            epochs: opt_bytes(self.epochs),
            batch_size: opt_bytes(self.batch_size),
            learning_rate: opt_bytes(self.learning_rate),
            max_steps_per_episode: opt_bytes(self.max_steps_per_episode),
            total_params: opt_nat(self.total_params),
            trainable_params: opt_nat(self.trainable_params),
            last_epoch: self.last_epoch as nat,
            last_avg_loss: opt_bytes(self.last_avg_loss),
            last_avg_reward: opt_bytes(self.last_avg_reward),
            last_lr: opt_bytes(self.last_lr),
        }
    }
}

/// Values reported when the log does not give them.
pub const DEFAULT_EPOCHS: u32 = 5000;
pub const DEFAULT_BATCH_SIZE: u32 = 32;
pub const DEFAULT_MAX_STEPS_PER_EPISODE: u32 = 8;
pub const DEFAULT_TOTAL_PARAMS: u64 = 1142184;
pub const DEFAULT_TRAINABLE_PARAMS: u64 = 493720;

fn text_of(o: &Option<Vec<u8>>) -> (r: Option<&[u8]>)
    ensures
        match r {
            Some(t) => opt_bytes(*o) == Some(t@),
            None => o.is_none(),
        },
{
    match o {
        Some(v) => Some(v.as_slice()),
        None => None,
    }
}

impl TrainingLogScan {
    /// The total parameter count, or its default when the log gives none.
    pub fn total_params_or_default(&self) -> (r: u64)
        ensures
            r == match self.total_params { Some(v) => v, None => DEFAULT_TOTAL_PARAMS },
    {
        match self.total_params {
            Some(v) => v,
            None => DEFAULT_TOTAL_PARAMS,
        }
    }

    /// The trainable parameter count, or its default when the log gives none.
    pub fn trainable_params_or_default(&self) -> (r: u64)
        ensures
            r == match self.trainable_params { Some(v) => v, None => DEFAULT_TRAINABLE_PARAMS },
    {
        match self.trainable_params {
            Some(v) => v,
            None => DEFAULT_TRAINABLE_PARAMS,
        }
    }

    /// The loss, reward and learning-rate texts of the kept epoch record;
    /// none of them when no epoch line was read (the kept epoch is 0).
    pub fn epoch_texts(&self) -> (r: (Option<&[u8]>, Option<&[u8]>, Option<&[u8]>))
        ensures
            self.last_epoch == 0 ==> r.0.is_none() && r.1.is_none() && r.2.is_none(),
            self.last_epoch > 0 ==> match r.0 { Some(t) => opt_bytes(self.last_avg_loss) == Some(t@), None => self.last_avg_loss.is_none() },
            self.last_epoch > 0 ==> match r.1 { Some(t) => opt_bytes(self.last_avg_reward) == Some(t@), None => self.last_avg_reward.is_none() },
            self.last_epoch > 0 ==> match r.2 { Some(t) => opt_bytes(self.last_lr) == Some(t@), None => self.last_lr.is_none() },
    {
        if self.last_epoch == 0 {
            (None, None, None)
        } else {
            (text_of(&self.last_avg_loss), text_of(&self.last_avg_reward), text_of(&self.last_lr))
        }
    }
}

fn replace_if_some<T>(old: Option<T>, new: Option<T>) -> (r: Option<T>)
    ensures
        r == replace_if(old, new),
{
    match new {
        Some(v) => Some(v),
        None => old,
    }
}

/// Reads one line of the log into `scan`.
pub fn scan_line_exec(scan: TrainingLogScan, line: &[u8]) -> (r: TrainingLogScan)
    ensures
        r.summary() == scan_line(scan.summary(), line@),
{
    proof {
        reveal(scan_line);
    }
    let (p1, p2) = if contains_exec(line, policy_params_key()) {
        param_counts_exec(line)
    } else {
        (None, None)
    };
    let mut next = TrainingLogScan {
        epochs: replace_if_some(scan.epochs, header_value_exec(line, epochs_key())),
        batch_size: replace_if_some(scan.batch_size, header_value_exec(line, batch_size_key())),
        learning_rate: replace_if_some(scan.learning_rate, header_value_exec(line, learning_rate_key())),
        max_steps_per_episode: replace_if_some(scan.max_steps_per_episode, header_value_exec(line, max_steps_key())),
        total_params: replace_if_some(scan.total_params, p1),
        trainable_params: replace_if_some(scan.trainable_params, p2),
        last_epoch: scan.last_epoch,
        last_avg_loss: scan.last_avg_loss,
        last_avg_reward: scan.last_avg_reward,
        last_lr: scan.last_lr,
    };
    if contains_exec(line, epoch_tag_key()) {
        match epoch_number_exec(line) {
            Some(n) => {
                if n > next.last_epoch {
                    next.last_epoch = n;
                    next.last_avg_loss = value_after_exec(line, avg_loss_key());
                    next.last_avg_reward = value_after_exec(line, avg_reward_key());
                    next.last_lr = value_after_exec(line, lr_key());
                }
            },
            None => {},
        }
    }
    next
}

/// An empty scan.
pub fn empty_scan() -> (r: TrainingLogScan)
    ensures
        r.summary() == empty_summary(),
{
    TrainingLogScan {
        epochs: None,
        batch_size: None,
        learning_rate: None,
        max_steps_per_episode: None,
        total_params: None,
        trainable_params: None,
        last_epoch: 0,
        last_avg_loss: None,
        last_avg_reward: None,
        last_lr: None,
    }
}

/// Reads a whole training log (its UTF-8 bytes).
pub fn scan_training_log(content: &[u8]) -> (r: TrainingLogScan)
    ensures
        r.summary() == summarize_log(content@),
{
    let n = content.len();
    let mut scan = empty_scan();
    let mut start: usize = 0;
    let nl: [u8; 1] = [NEWLINE];
    let nl_slice: &[u8] = nl.as_slice();
    proof {
        assert(nl_slice@ =~= seq![NEWLINE]);
    }
    while start < n
        invariant
            n == content@.len(),
            start <= n,
            nl_slice@ == seq![NEWLINE],
            summarize_log(content@) == scan_from(content@, start as int, scan.summary()),
        decreases n - start,
    {
        proof {
            lemma_find_from_bounds(content@, seq![NEWLINE], start as int);
        }
        match find_from_exec(content, nl_slice, start) {
            Some(k) => {
                let end = if k > start && content[k - 1] == CARRIAGE_RETURN { k - 1 } else { k };
                let line = copy_range(content, start, end);
                proof {
                    let raw = content@.subrange(start as int, k as int);
                    if k > start && content@[k - 1] == CARRIAGE_RETURN {
                        assert(strip_cr(raw) =~= line@);
                    } else {
                        assert(strip_cr(raw) =~= line@);
                    }
                }
                scan = scan_line_exec(scan, line.as_slice());
                start = k + 1;
            },
            None => {
                let line = copy_range(content, start, n);
                scan = scan_line_exec(scan, line.as_slice());
                start = n;
                proof {
                    assert(scan_from(content@, n as int, scan.summary()) == scan.summary());
                }
            },
        }
    }
    scan
}

/// Reading a line keeps the highest epoch seen: the kept epoch becomes the
/// line's epoch number when that is higher, with the loss, reward and learning
/// rate of that line, and otherwise stays as it was with its values.
pub proof fn lemma_scan_line_keeps_highest_epoch(acc: LogSummary, line: Seq<u8>)
    ensures
        ({
            let next = scan_line(acc, line);
            let tagged = find_from(line, key_epoch_tag(), 0) is Some;
            &&& next.last_epoch >= acc.last_epoch
            &&& (tagged && epoch_number(line) is Some) ==> next.last_epoch >= epoch_number(line)->Some_0
            &&& if tagged && epoch_number(line) is Some && epoch_number(line)->Some_0 > acc.last_epoch {
                &&& next.last_epoch == epoch_number(line)->Some_0
                &&& next.last_avg_loss == value_after(line, key_avg_loss())
                &&& next.last_avg_reward == value_after(line, key_avg_reward())
                &&& next.last_lr == value_after(line, key_lr())
            } else {
                &&& next.last_epoch == acc.last_epoch
                &&& next.last_avg_loss == acc.last_avg_loss
                &&& next.last_avg_reward == acc.last_avg_reward
                &&& next.last_lr == acc.last_lr
            }
        }),
{
    reveal(scan_line);
}

/// Reading more lines never lowers the kept epoch.
pub proof fn lemma_scan_never_lowers_epoch(s: Seq<u8>, start: int, acc: LogSummary)
    ensures
        scan_from(s, start, acc).last_epoch >= acc.last_epoch,
    decreases s.len() - start,
{
    if start < 0 || start >= s.len() {
    } else {
        lemma_find_from_bounds(s, seq![NEWLINE], start);
        match find_from(s, seq![NEWLINE], start) {
            Some(k) => {
                let next = scan_line(acc, strip_cr(s.subrange(start, k)));
                lemma_scan_line_keeps_highest_epoch(acc, strip_cr(s.subrange(start, k)));
                lemma_scan_never_lowers_epoch(s, k + 1, next);
            },
            None => {
                lemma_scan_line_keeps_highest_epoch(acc, s.subrange(start, s.len() as int));
            },
        }
    }
}

/// Each header line with a value overwrites that field, so the last such
/// line wins; a line without it leaves the field as it was. Likewise the
/// parameter counts of a `PolicyNetwork parameters:` line overwrite those read
/// before.
pub proof fn lemma_scan_line_headers(acc: LogSummary, line: Seq<u8>)
    ensures
        ({
            let next = scan_line(acc, line);
            &&& next.epochs == (match header_value(line, key_epochs()) { Some(v) => Some(v), None => acc.epochs })
            &&& next.batch_size == (match header_value(line, key_batch_size()) { Some(v) => Some(v), None => acc.batch_size })
            &&& next.learning_rate == (match header_value(line, key_learning_rate()) {
                Some(v) => Some(v),
                None => acc.learning_rate,
            })
            &&& next.max_steps_per_episode == (match header_value(line, key_max_steps()) {
                Some(v) => Some(v),
                None => acc.max_steps_per_episode,
            })
            &&& find_from(line, key_policy_params(), 0) is Some ==> (
                next.total_params == (match param_counts(line).0 { Some(v) => Some(v), None => acc.total_params })
                && next.trainable_params == (match param_counts(line).1 { Some(v) => Some(v), None => acc.trainable_params }))
            &&& find_from(line, key_policy_params(), 0) is None ==>
                next.total_params == acc.total_params && next.trainable_params == acc.trainable_params
        }),
{
    reveal(scan_line);
}

/// Two logs that differ only by a later header line report that line's value:
/// reading a line with an `Epochs` value after any summary gives that value.
pub proof fn lemma_later_header_wins(acc: LogSummary, first: Seq<u8>, second: Seq<u8>)
    requires
        header_value(second, key_epochs()) is Some,
    ensures
        scan_line(scan_line(acc, first), second).epochs == header_value(second, key_epochs()),
{
    reveal(scan_line);
}

} // verus!
