//! The text form of a token's claims: `{"iat":I,"exp":E,"sub":"S"}`, its
//! rendering and its parsing, and the decimal numbers inside it.
use vstd::prelude::*;
use vstd::string::*;

verus! {

/// The lifetime of a session token, in seconds: one day.
pub const ONE_DAY: i64 = 86400;

/// Whether `c` is an ASCII decimal digit.
pub open spec fn is_digit(c: char) -> bool {
    '0' <= c && c <= '9'
}

/// The value of a decimal digit character.
pub open spec fn digit_value(c: char) -> int {
    c as int - '0' as int
}

/// The character of a decimal digit `d < 10`.
pub open spec fn digit_char(d: nat) -> char {
    if d == 0 { '0' }
    else if d == 1 { '1' }
    else if d == 2 { '2' }
    else if d == 3 { '3' }
    else if d == 4 { '4' }
    else if d == 5 { '5' }
    else if d == 6 { '6' }
    else if d == 7 { '7' }
    else if d == 8 { '8' }
    else { '9' }
}

/// The shortest decimal representation of `n`.
pub open spec fn digits_of(n: nat) -> Seq<char>
    decreases n,
{
    if n < 10 {
        seq![digit_char(n)]
    } else {
        digits_of(n / 10).push(digit_char(n % 10))
    }
}

/// The value of a sequence of decimal digits (leading zeros allowed).
pub open spec fn digits_value(s: Seq<char>) -> int
    decreases s.len(),
{
    if s.len() == 0 {
        0
    } else {
        digits_value(s.drop_last()) * 10 + digit_value(s.last())
    }
}

/// The number of digit characters at the start of `s`.
pub open spec fn digit_run(s: Seq<char>) -> nat
    decreases s.len(),
{
    if s.len() > 0 && is_digit(s[0]) {
        1 + digit_run(s.drop_first())
    } else {
        0
    }
}

/// The number at the start of `s` and the count of its digits, when there is
/// one that fits in an `i64`.
pub open spec fn number_at(s: Seq<char>) -> Option<(int, nat)> {
    let n = digit_run(s);
    if n == 0 || digits_value(s.take(n as int)) > i64::MAX {
        None
    } else {
        Some((digits_value(s.take(n as int)), n))
    }
}

/// `s` holds neither a double quote nor a backslash, so it stands inside a
/// JSON string literal as it is.
pub open spec fn is_plain(s: Seq<char>) -> bool {
    forall|i: int| 0 <= i < s.len() ==> s[i] != '"' && s[i] != '\\'
}

pub open spec fn iat_key() -> Seq<char> {
    seq!['{', '"', 'i', 'a', 't', '"', ':']
}

pub open spec fn exp_key() -> Seq<char> {
    seq![',', '"', 'e', 'x', 'p', '"', ':']
}

pub open spec fn sub_key() -> Seq<char> {
    seq![',', '"', 's', 'u', 'b', '"', ':', '"']
}

pub open spec fn closing() -> Seq<char> {
    seq!['"', '}']
}

/// The claims text of a token issued at `iat`, expiring at `exp`, for the
/// subject `sub`.
pub open spec fn claims_text(iat: nat, exp: nat, sub: Seq<char>) -> Seq<char> {
    iat_key() + digits_of(iat) + exp_key() + digits_of(exp) + sub_key() + sub + closing()
}

/// What follows `key` in `s`, when `s` starts with it.
pub open spec fn after_key(s: Seq<char>, key: Seq<char>) -> Option<Seq<char>> {
    if key.is_prefix_of(s) {
        Some(s.skip(key.len() as int))
    } else {
        None
    }
}

/// The subject of a claims text, from what follows its subject key.
pub open spec fn subject_of(r: Seq<char>) -> Option<Seq<char>> {
    if r.len() >= 2 && r.skip(r.len() - 2) == closing() && is_plain(r.take(r.len() - 2)) {
        Some(r.take(r.len() - 2))
    } else {
        None
    }
}

/// The claims `(iat, exp, sub)` that a text holds, if it is a claims text.
pub open spec fn parse_claims(t: Seq<char>) -> Option<(int, int, Seq<char>)> {
    match after_key(t, iat_key()) {
        None => None,
        Some(r) => claims_after_iat(r),
    }
}

/// The claims that follow the key of the issue time.
pub open spec fn claims_after_iat(r: Seq<char>) -> Option<(int, int, Seq<char>)> {
    match number_at(r) {
        None => None,
        Some((iat, n)) => match after_key(r.skip(n as int), exp_key()) {
            None => None,
            Some(r2) => claims_after_exp(iat, r2),
        },
    }
}

/// The rest of the claims that follow the key of the expiry time.
pub open spec fn claims_after_exp(iat: int, r: Seq<char>) -> Option<(int, int, Seq<char>)> {
    match number_at(r) {
        None => None,
        Some((exp, n)) => match after_key(r.skip(n as int), sub_key()) {
            None => None,
            Some(r3) => match subject_of(r3) {
                None => None,
                Some(sub) => Some((iat, exp, sub)),
            },
        },
    }
}

proof fn lemma_digit_char(d: nat)
    requires
        d < 10,
    ensures
        is_digit(digit_char(d)),
        digit_value(digit_char(d)) == d,
{
}

proof fn lemma_digits_of(n: nat)
    ensures
        digits_of(n).len() >= 1,
        forall|i: int| 0 <= i < digits_of(n).len() ==> is_digit(#[trigger] digits_of(n)[i]),
        digits_value(digits_of(n)) == n,
    decreases n,
{
    if n < 10 {
        lemma_digit_char(n);
        assert(digits_of(n).drop_last() =~= Seq::<char>::empty());
        assert(digits_value(Seq::<char>::empty()) == 0);
    } else {
        lemma_digits_of(n / 10);
        lemma_digit_char(n % 10);
        assert(digits_of(n).drop_last() =~= digits_of(n / 10));
        assert(digits_of(n).last() == digit_char(n % 10));
        assert(digits_value(digits_of(n)) == (n / 10) * 10 + n % 10);
    }
}

proof fn lemma_digit_run(s: Seq<char>, rest: Seq<char>)
    requires
        forall|i: int| 0 <= i < s.len() ==> is_digit(#[trigger] s[i]),
        rest.len() == 0 || !is_digit(rest[0]),
    ensures
        digit_run(s + rest) == s.len(),
    decreases s.len(),
{
    if s.len() > 0 {
        assert((s + rest).drop_first() =~= s.drop_first() + rest);
        lemma_digit_run(s.drop_first(), rest);
    } else {
        assert(s + rest =~= rest);
    }
}

proof fn lemma_number_at(n: nat, rest: Seq<char>)
    requires
        n <= i64::MAX,
        rest.len() == 0 || !is_digit(rest[0]),
    ensures
        number_at(digits_of(n) + rest) == Some((n as int, digits_of(n).len())),
        (digits_of(n) + rest).skip(digits_of(n).len() as int) == rest,
{
    lemma_digits_of(n);
    lemma_digit_run(digits_of(n), rest);
    assert((digits_of(n) + rest).take(digits_of(n).len() as int) =~= digits_of(n));
    assert((digits_of(n) + rest).skip(digits_of(n).len() as int) =~= rest);
}

proof fn lemma_after_key(key: Seq<char>, rest: Seq<char>)
    ensures
        after_key(key + rest, key) == Some(rest),
{
    assert(key.is_prefix_of(key + rest)) by {
        assert((key + rest).take(key.len() as int) =~= key);
    }
    assert((key + rest).skip(key.len() as int) =~= rest);
}

/// Parsing the claims text of a token gives back the claims it was rendered
/// from.
#[verifier::rlimit(30)]
pub proof fn lemma_claims_round_trip(iat: nat, exp: nat, sub: Seq<char>)
    requires
        iat <= i64::MAX,
        exp <= i64::MAX,
        is_plain(sub),
    ensures
        parse_claims(claims_text(iat, exp, sub)) == Some((iat as int, exp as int, sub)),
{
    let r3 = sub + closing();
    let r2 = digits_of(exp) + (sub_key() + r3);
    let r1 = digits_of(iat) + (exp_key() + r2);
    assert(claims_text(iat, exp, sub) =~= iat_key() + r1);
    lemma_after_key(iat_key(), r1);
    lemma_number_at(iat, exp_key() + r2);
    let n1 = digits_of(iat).len();
    assert(r1.skip(n1 as int) == exp_key() + r2);
    lemma_after_key(exp_key(), r2);
    lemma_number_at(exp, sub_key() + r3);
    let n2 = digits_of(exp).len();
    assert(r2.skip(n2 as int) == sub_key() + r3);
    lemma_after_key(sub_key(), r3);
    assert(r3.skip(r3.len() - 2) =~= closing());
    assert(r3.take(r3.len() - 2) =~= sub);
    assert(subject_of(r3) == Some(sub));
}

proof fn lemma_value_nonneg(s: Seq<char>)
    requires
        forall|i: int| 0 <= i < s.len() ==> is_digit(#[trigger] s[i]),
    ensures
        digits_value(s) >= 0,
    decreases s.len(),
{
    if s.len() > 0 {
        lemma_value_nonneg(s.drop_last());
    }
}

proof fn lemma_value_grows(s: Seq<char>, k: int, m: int)
    requires
        0 <= k <= m <= s.len(),
        forall|i: int| 0 <= i < s.len() ==> is_digit(#[trigger] s[i]),
    ensures
        digits_value(s.take(k)) <= digits_value(s.take(m)),
    decreases m - k,
{
    if k < m {
        lemma_value_grows(s, k, m - 1);
        assert(s.take(m).drop_last() =~= s.take(m - 1));
        lemma_value_nonneg(s.take(m - 1));
    }
}

fn digit_text(d: u64) -> (r: &'static str)
    requires
        d < 10,
    ensures
        r@ == seq![digit_char(d as nat)],
{
    if d == 0 {
        proof { reveal_strlit("0"); }
        "0"
    } else if d == 1 {
        proof { reveal_strlit("1"); }
        "1"
    } else if d == 2 {
        proof { reveal_strlit("2"); }
        "2"
    } else if d == 3 {
        proof { reveal_strlit("3"); }
        "3"
    } else if d == 4 {
        proof { reveal_strlit("4"); }
        "4"
    } else if d == 5 {
        proof { reveal_strlit("5"); }
        "5"
    } else if d == 6 {
        proof { reveal_strlit("6"); }
        "6"
    } else if d == 7 {
        proof { reveal_strlit("7"); }
        "7"
    } else if d == 8 {
        proof { reveal_strlit("8"); }
        "8"
    } else {
        proof { reveal_strlit("9"); }
        "9"
    }
}

/// Appends the decimal digits of `n` to `out`.
fn append_digits(out: &mut String, n: u64)
    ensures
        final(out)@ == old(out)@ + digits_of(n as nat),
    decreases n,
{
    if n >= 10 {
        append_digits(out, n / 10);
    }
    out.append(digit_text(n % 10));
    proof {
        if n >= 10 {
            assert(digits_of(n as nat) == digits_of((n / 10) as nat).push(digit_char((n % 10) as nat)));
        }
    }
    assert(final(out)@ =~= old(out)@ + digits_of(n as nat));
}

/// Renders the claims text of a token issued at `iat`, expiring at `exp`, for
/// the subject `sub`.
pub fn render_claims(iat: i64, exp: i64, sub: &str) -> (r: String)
    requires
        0 <= iat,
        0 <= exp,
    ensures
        r@ == claims_text(iat as nat, exp as nat, sub@),
{
    proof {
        reveal_strlit("{\"iat\":");
        reveal_strlit(",\"exp\":");
        reveal_strlit(",\"sub\":\"");
        reveal_strlit("\"}");
    }
    let mut out = String::from_str("{\"iat\":");
    append_digits(&mut out, iat as u64);
    out.append(",\"exp\":");
    append_digits(&mut out, exp as u64);
    out.append(",\"sub\":\"");
    out.append(sub);
    out.append("\"}");
    assert(out@ =~= claims_text(iat as nat, exp as nat, sub@));
    out
}

/// The position after `key` where `t` holds it at `at`.
pub(crate) fn key_at(t: &str, tlen: usize, at: usize, key: &str) -> (r: Option<usize>)
    requires
        tlen == t@.len(),
        at <= tlen,
    ensures
        r == (if key@.is_prefix_of(t@.skip(at as int)) {
            Some((at + key@.len()) as usize)
        } else {
            None::<usize>
        }),
{
    let klen = key.unicode_len();
    if klen > tlen - at {
        return None;
    }
    let mut i: usize = 0;
    while i < klen
        invariant
            klen == key@.len(),
            tlen == t@.len(),
            at + klen <= tlen,
            i <= klen,
            forall|j: int| 0 <= j < i ==> key@[j] == t@[at + j],
        decreases klen - i,
    {
        if key.get_char(i) != t.get_char(at + i) {
            assert(t@.skip(at as int)[i as int] == t@[at + i]);
            return None;
        }
        i += 1;
    }
    assert(key@ =~= t@.skip(at as int).take(klen as int));
    Some(at + klen)
}

/// The number that `t` holds at `at`, and its count of digits.
fn number_in(t: &str, tlen: usize, at: usize) -> (r: Option<(i64, usize)>)
    requires
        tlen == t@.len(),
        at <= tlen,
    ensures
        match r {
            Some((v, n)) => number_at(t@.skip(at as int)) == Some((v as int, n as nat))
                && at + n <= tlen,
            None => number_at(t@.skip(at as int)) is None,
        },
{
    let ghost s = t@.skip(at as int);
    let mut j: usize = at;
    while j < tlen && '0' <= t.get_char(j) && t.get_char(j) <= '9'
        invariant
            tlen == t@.len(),
            at <= j <= tlen,
            forall|i: int| at <= i < j ==> is_digit(#[trigger] t@[i]),
        decreases tlen - j,
    {
        j += 1;
    }
    let n = j - at;
    let ghost run = t@.subrange(at as int, j as int);
    proof {
        assert forall|i: int| 0 <= i < run.len() implies is_digit(#[trigger] run[i]) by {
            assert(run[i] == t@[at + i]);
        }
        assert(s =~= run + s.skip(n as int));
        lemma_digit_run(run, s.skip(n as int));
        assert(s.take(n as int) =~= run);
    }
    if n == 0 {
        return None;
    }
    let mut v: i64 = 0;
    let mut i: usize = at;
    while i < j
        invariant
            tlen == t@.len(),
            at <= i <= j <= tlen,
            n == j - at,
            s == t@.skip(at as int),
            digit_run(s) == n,
            s.take(n as int) == run,
            run == t@.subrange(at as int, j as int),
            forall|k: int| 0 <= k < run.len() ==> is_digit(#[trigger] run[k]),
            v as int == digits_value(run.take(i - at)),
        decreases j - i,
    {
        let c = t.get_char(i);
        assert(c == run[i - at]);
        let d = (c as u32 - '0' as u32) as i64;
        assert(d as int == digit_value(c));
        assert(run.take(i - at + 1).drop_last() =~= run.take(i - at));
        assert(run.take(i - at + 1).last() == c);
        assert(digits_value(run.take(i - at + 1)) == v * 10 + d);
        assert(run.take(n as int) =~= run);
        match v.checked_mul(10) {
            None => {
                proof {
                    lemma_value_nonneg(run.take(i - at));
                    lemma_value_grows(run, i - at + 1, n as int);
                }
                return None;
            },
            Some(m) => match m.checked_add(d) {
                None => {
                    proof { lemma_value_grows(run, i - at + 1, n as int); }
                    return None;
                },
                Some(w) => {
                    v = w;
                },
            },
        }
        i += 1;
    }
    assert(run.take(n as int) =~= run);
    Some((v, n))
}

/// The subject that closes a claims text, where `t` holds it from `at` on.
fn subject_in(t: &str, tlen: usize, at: usize) -> (r: Option<String>)
    requires
        tlen == t@.len(),
        at <= tlen,
    ensures
        match r {
            Some(sub) => subject_of(t@.skip(at as int)) == Some(sub@),
            None => subject_of(t@.skip(at as int)) is None,
        },
{
    let ghost r3 = t@.skip(at as int);
    if tlen - at < 2 || t.get_char(tlen - 2) != '"' || t.get_char(tlen - 1) != '}' {
        proof {
            if r3.len() >= 2 && r3.skip(r3.len() - 2) == closing() {
                assert(r3.skip(r3.len() - 2)[0] == t@[tlen - 2]);
                assert(r3.skip(r3.len() - 2)[1] == t@[tlen - 1]);
            }
        }
        return None;
    }
    assert(r3.skip(r3.len() - 2) =~= closing());
    let end = tlen - 2;
    let mut i: usize = at;
    while i < end
        invariant
            tlen == t@.len(),
            at <= i <= end,
            end == tlen - 2,
            r3 == t@.skip(at as int),
            forall|k: int| at <= k < i ==> t@[k] != '"' && t@[k] != '\\',
        decreases end - i,
    {
        let c = t.get_char(i);
        if c == '"' || c == '\\' {
            assert(r3.take(r3.len() - 2)[i - at] == c);
            return None;
        }
        i += 1;
    }
    let sub = String::from_str(t.substring_char(at, end));
    assert(sub@ =~= r3.take(r3.len() - 2));
    assert forall|k: int| 0 <= k < sub@.len() implies sub@[k] != '"' && sub@[k] != '\\' by {
        assert(sub@[k] == t@[at + k]);
    }
    Some(sub)
}

fn claims_after_exp_in(t: &str, tlen: usize, at: usize, iat: i64) -> (r: Option<(i64, i64, String)>)
    requires
        tlen == t@.len(),
        at <= tlen,
    ensures
        match r {
            Some((i, exp, sub)) => i == iat && claims_after_exp(iat as int, t@.skip(at as int))
                == Some((iat as int, exp as int, sub@)),
            None => claims_after_exp(iat as int, t@.skip(at as int)) is None,
        },
{
    proof { reveal_strlit(",\"sub\":\""); }
    let (exp, n) = match number_in(t, tlen, at) {
        None => return None,
        Some(x) => x,
    };
    assert(t@.skip(at as int).skip(n as int) =~= t@.skip(at + n));
    let p = match key_at(t, tlen, at + n, ",\"sub\":\"") {
        None => return None,
        Some(p) => p,
    };
    assert(t@.skip(at + n).skip(8) =~= t@.skip(p as int));
    match subject_in(t, tlen, p) {
        None => None,
        Some(sub) => Some((iat, exp, sub)),
    }
}

fn claims_after_iat_in(t: &str, tlen: usize, at: usize) -> (r: Option<(i64, i64, String)>)
    requires
        tlen == t@.len(),
        at <= tlen,
    ensures
        match r {
            Some((iat, exp, sub)) => claims_after_iat(t@.skip(at as int))
                == Some((iat as int, exp as int, sub@)),
            None => claims_after_iat(t@.skip(at as int)) is None,
        },
{
    proof { reveal_strlit(",\"exp\":"); }
    let (iat, n) = match number_in(t, tlen, at) {
        None => return None,
        Some(x) => x,
    };
    assert(t@.skip(at as int).skip(n as int) =~= t@.skip(at + n));
    let p = match key_at(t, tlen, at + n, ",\"exp\":") {
        None => return None,
        Some(p) => p,
    };
    assert(t@.skip(at + n).skip(7) =~= t@.skip(p as int));
    claims_after_exp_in(t, tlen, p, iat)
}

/// The claims that a text holds, if it is a claims text.
pub fn parse_claims_text(t: &str) -> (r: Option<(i64, i64, String)>)
    ensures
        match r {
            Some((iat, exp, sub)) => parse_claims(t@) == Some((iat as int, exp as int, sub@)),
            None => parse_claims(t@) is None,
        },
{
    proof { reveal_strlit("{\"iat\":"); }
    let tlen = t.unicode_len();
    assert(t@.skip(0) =~= t@);
    match key_at(t, tlen, 0, "{\"iat\":") {
        None => None,
        Some(p) => claims_after_iat_in(t, tlen, p),
    }
}

/// Whether `s` holds neither a double quote nor a backslash.
pub fn plain_text(s: &str) -> (r: bool)
    ensures
        r == is_plain(s@),
{
    let n = s.unicode_len();
    let mut i: usize = 0;
    while i < n
        invariant
            n == s@.len(),
            i <= n,
            forall|k: int| 0 <= k < i ==> s@[k] != '"' && s@[k] != '\\',
        decreases n - i,
    {
        let c = s.get_char(i);
        if c == '"' || c == '\\' {
            return false;
        }
        i += 1;
    }
    true
}

} // verus!
