//! The Stripe HTTP boundary: how a session read from Stripe becomes a paid
//! session, what is sent to Stripe, and how errors are worded. Network
//! failures become plain-English errors; the restricted key and customer
//! emails never appear in them.

use base64::Engine;
use vstd::prelude::*;
use crate::money::{non_empty, DisputeRecord, HarvestLinkLine, Offer, PaidLine, PaidSession, RefundRecord, UnparsedSession};
use crate::text::{
    contains_char, contains_seq, dec_int, dec_nat, has_char, has_prefix, occurs_at, push_char, push_int,
    push_nat, push_str, starts_with, str_eq,
};
use crate::trays::{clone_opt, opt_view};

verus! {

/// What base64 (standard alphabet, padded) makes of the UTF-8 bytes of a text.
pub uninterp spec fn base64_standard(text: Seq<char>) -> Seq<char>;

/// `base64::engine::general_purpose::STANDARD.encode`. Trusted: the result is
/// the named encoding of the text's bytes.
#[verifier::external_body]
fn base64_encode(text: &str) -> (r: String)
    ensures
        r@ == base64_standard(text@),
{
    base64::engine::general_purpose::STANDARD.encode(text)
}

/// The RFC 3339 text (UTC, milliseconds, `Z`) of a Unix time in seconds.
pub uninterp spec fn rfc3339_millis(secs: i64) -> Option<Seq<char>>;

/// `chrono::DateTime::from_timestamp(secs, 0)` written with
/// `to_rfc3339_opts(SecondsFormat::Millis, true)`. Trusted: the result is the
/// named text, `None` when chrono has no such time.
#[verifier::external_body]
fn format_unix_millis(secs: i64) -> (r: Option<String>)
    ensures
        opt_view(r) == rfc3339_millis(secs),
{
    match chrono::DateTime::from_timestamp(secs, 0) {
        Some(dt) => Some(dt.to_rfc3339_opts(chrono::SecondsFormat::Millis, true)),
        None => None,
    }
}

/// An RFC 3339 UTC stamp with milliseconds, as chrono writes one: at least
/// four year digits, `-MM-DDTHH:MM:SS.mmm`, and `Z`.
pub open spec fn utc_millis_shape(t: Seq<char>) -> bool {
    t.len() >= 24 && t.last() == 'Z'
}

/// The handlers' clock: `chrono::Utc::now()` written with
/// `to_rfc3339_opts(SecondsFormat::Millis, true)`. Trusted: chrono writes the
/// year (four digits, or a sign and more for years outside 0..=9999), the
/// rest of the date and time to the millisecond, and `Z` for the zero UTC
/// offset, so the text has at least 24 characters and ends in `Z`. The time
/// itself is the clock's and is not stated.
#[verifier::external_body]
pub fn handler_now() -> (r: String)
    ensures
        utc_millis_shape(r@),
{
    chrono::Utc::now().to_rfc3339_opts(chrono::SecondsFormat::Millis, true)
}

// --- Secrets in messages ----------------------------------------------------------

/// `str::replace`: every occurrence of `pat`, left to right and without
/// overlap, replaced by `rep`.
pub open spec fn replace_all(s: Seq<char>, pat: Seq<char>, rep: Seq<char>) -> Seq<char>
    decreases s.len(),
{
    if s.len() == 0 || pat.len() == 0 {
        s
    } else if has_prefix(s, pat) {
        rep + replace_all(s.subrange(pat.len() as int, s.len() as int), pat, rep)
    } else {
        seq![s[0]] + replace_all(s.drop_first(), pat, rep)
    }
}

pub open spec fn replace_from(s: Seq<char>, pat: Seq<char>, rep: Seq<char>, i: int) -> Seq<char> {
    replace_all(s.subrange(i, s.len() as int), pat, rep)
}

fn replace_str(s: &str, pat: &str, rep: &str) -> (r: String)
    requires
        pat@.len() > 0,
    ensures
        r@ == replace_all(s@, pat@, rep@),
{
    let n = s.unicode_len();
    let m = pat.unicode_len();
    let mut out = String::new();
    let mut i: usize = 0;
    assert(s@.subrange(0, n as int) =~= s@);
    assert(out@ + replace_from(s@, pat@, rep@, 0) =~= replace_all(s@, pat@, rep@));
    while i < n
        invariant
            n == s@.len(),
            m == pat@.len(),
            m > 0,
            i <= n,
            out@ + replace_from(s@, pat@, rep@, i as int) == replace_all(s@, pat@, rep@),
        decreases n - i,
    {
        let ghost rest = s@.subrange(i as int, n as int);
        let ghost before = out@;
        let here = m <= n - i && str_eq(s.substring_char(i, i + m), pat);
        proof {
            if m <= n - i {
                assert(s@.subrange(i as int, i + m) =~= rest.subrange(0, m as int));
            }
            assert(has_prefix(rest, pat@) == here);
        }
        if here {
            push_str(&mut out, rep);
            proof {
                assert(rest.subrange(m as int, rest.len() as int) =~= s@.subrange(i + m, n as int));
                assert(replace_from(s@, pat@, rep@, i as int) == rep@ + replace_from(s@, pat@, rep@, i + m));
                assert(out@ + replace_from(s@, pat@, rep@, i + m) =~= before + replace_from(s@, pat@, rep@, i as int));
            }
            i = i + m;
        } else {
            let c = s.get_char(i);
            push_char(&mut out, c);
            proof {
                assert(rest.drop_first() =~= s@.subrange(i + 1, n as int));
                assert(rest[0] == c);
                assert(replace_from(s@, pat@, rep@, i as int) == seq![c] + replace_from(s@, pat@, rep@, i + 1));
                assert(out@ + replace_from(s@, pat@, rep@, i + 1) =~= before + replace_from(s@, pat@, rep@, i as int));
            }
            i = i + 1;
        }
    }
    assert(s@.subrange(n as int, n as int) =~= Seq::<char>::empty());
    assert(out@ + replace_from(s@, pat@, rep@, n as int) =~= out@);
    out
}

/// A character that can start or continue a word that might be an address.
pub open spec fn word_char(c: char) -> bool {
    ('a' <= c && c <= 'z') || ('A' <= c && c <= 'Z') || ('0' <= c && c <= '9')
        || c == '.' || c == '_' || c == '%' || c == '+' || c == '-'
}

/// Length of the word at the start of `s`: one word character, then word
/// characters or `@`.
pub open spec fn word_len(s: Seq<char>, i: int) -> int
    decreases s.len() - i,
{
    if i >= s.len() || i < 1 {
        i
    } else if word_char(s[i]) || s[i] == '@' {
        word_len(s, i + 1)
    } else {
        i
    }
}

pub open spec fn at_count(s: Seq<char>) -> nat
    decreases s.len(),
{
    if s.len() == 0 {
        0
    } else {
        at_count(s.drop_last()) + if s.last() == '@' { 1nat } else { 0nat }
    }
}

/// Every word with exactly one `@` becomes `[redacted]`; everything else is kept.
pub open spec fn scrub_text(s: Seq<char>) -> Seq<char>
    decreases s.len(),
{
    if s.len() == 0 {
        s
    } else if word_char(s[0]) {
        proof {
            lemma_word_len_bounds(s, 1);
        }
        let n = word_len(s, 1);
        let w = s.subrange(0, n);
        (if at_count(w) == 1 { "[redacted]"@ } else { w }) + scrub_text(s.subrange(n, s.len() as int))
    } else {
        seq![s[0]] + scrub_text(s.drop_first())
    }
}

pub proof fn lemma_word_len_bounds(s: Seq<char>, i: int)
    requires
        1 <= i <= s.len(),
    ensures
        i <= word_len(s, i) <= s.len(),
        forall|k: int| i <= k < word_len(s, i) ==> word_char(#[trigger] s[k]) || s[k] == '@',
    decreases s.len() - i,
{
    if i < s.len() && (word_char(s[i]) || s[i] == '@') {
        lemma_word_len_bounds(s, i + 1);
    }
}

proof fn lemma_at_count_push(s: Seq<char>, c: char)
    ensures
        at_count(s.push(c)) == at_count(s) + if c == '@' { 1nat } else { 0nat },
{
    assert(s.push(c).drop_last() =~= s);
}

fn word_start(c: char) -> (r: bool)
    ensures
        r == word_char(c),
{
    ('a' <= c && c <= 'z') || ('A' <= c && c <= 'Z') || ('0' <= c && c <= '9')
        || c == '.' || c == '_' || c == '%' || c == '+' || c == '-'
}

fn word_or_at(c: char) -> (r: bool)
    ensures
        r == (word_char(c) || c == '@'),
{
    word_start(c) || c == '@'
}

pub fn scrub_emails(s: &str) -> (r: String)
    ensures
        r@ == scrub_text(s@),
{
    let n = s.unicode_len();
    let mut out = String::new();
    let mut i: usize = 0;
    assert(s@.subrange(0, n as int) =~= s@);
    assert(out@ + scrub_text(s@.subrange(0, n as int)) =~= scrub_text(s@));
    while i < n
        invariant
            n == s@.len(),
            i <= n,
            out@ + scrub_text(s@.subrange(i as int, n as int)) == scrub_text(s@),
        decreases n - i,
    {
        let ghost rest = s@.subrange(i as int, n as int);
        let ghost before = out@;
        let c = s.get_char(i);
        assert(rest[0] == c);
        if word_start(c) {
            let mut j = i + 1;
            let mut ats: usize = 0;
            proof {
                assert(rest.subrange(0, 1).drop_last() =~= Seq::<char>::empty());
                assert(rest.subrange(0, 1).last() == c);
                assert(c != '@');
                reveal_with_fuel(at_count, 2);
                assert(at_count(rest.subrange(0, 1)) == 0);
            }
            while j < n && word_or_at(s.get_char(j))
                invariant
                    n == s@.len(),
                    i < j <= n,
                    rest == s@.subrange(i as int, n as int),
                    word_len(rest, 1) == word_len(rest, j - i),
                    ats == at_count(rest.subrange(0, j - i)),
                    ats <= j - i,
                decreases n - j,
            {
                let d = s.get_char(j);
                assert(rest[j - i] == d);
                proof {
                    assert(rest.subrange(0, j + 1 - i) =~= rest.subrange(0, j - i).push(d));
                    lemma_at_count_push(rest.subrange(0, j - i), d);
                }
                if d == '@' {
                    ats = ats + 1;
                }
                j = j + 1;
            }
            proof {
                if j < n {
                    assert(rest[j - i] == s@[j as int]);
                }
                assert(word_len(rest, 1) == j - i);
            }
            let ghost w = rest.subrange(0, j - i);
            let ghost piece = if at_count(w) == 1 { "[redacted]"@ } else { w };
            if ats == 1 {
                push_str(&mut out, "[redacted]");
            } else {
                let word = s.substring_char(i, j);
                assert(word@ =~= w);
                push_str(&mut out, word);
            }
            proof {
                assert(rest.subrange(j - i, rest.len() as int) =~= s@.subrange(j as int, n as int));
                assert(scrub_text(rest) == piece + scrub_text(s@.subrange(j as int, n as int)));
                assert(out@ + scrub_text(s@.subrange(j as int, n as int)) =~= before + scrub_text(rest));
            }
            i = j;
        } else {
            push_char(&mut out, c);
            proof {
                assert(rest.drop_first() =~= s@.subrange(i + 1, n as int));
                assert(scrub_text(rest) == seq![c] + scrub_text(s@.subrange(i + 1, n as int)));
                assert(out@ + scrub_text(s@.subrange(i + 1, n as int)) =~= before + scrub_text(rest));
            }
            i = i + 1;
        }
    }
    assert(s@.subrange(n as int, n as int) =~= Seq::<char>::empty());
    assert(out@ + scrub_text(Seq::<char>::empty()) =~= out@);
    out
}

/// What an error message becomes before anyone sees it: the key replaced by
/// `[redacted]`, and then, when an `@` remains, every address-like word too.
pub open spec fn redacted_text(message: Seq<char>, key: Seq<char>) -> Seq<char> {
    let out = if key.len() > 0 { replace_all(message, key, "[redacted]"@) } else { message };
    if has_char(out, '@') { scrub_text(out) } else { out }
}

/// A key that redaction can hide for good: letters, digits and `._%+-`,
/// with at least one `_` (every restricted key, `rk_...`, is one).
pub open spec fn redaction_safe(key: Seq<char>) -> bool {
    &&& key.len() > 0
    &&& forall|i: int| 0 <= i < key.len() ==> word_char(#[trigger] key[i])
    &&& exists|i: int| 0 <= i < key.len() && key[i] == '_'
}

/// Until the first `[`, the replaced text reads as the original.
proof fn lemma_replace_keeps_prefix(s: Seq<char>, key: Seq<char>, j: int)
    requires
        key.len() > 0,
        0 <= j <= replace_all(s, key, "[redacted]"@).len(),
        forall|t: int| 0 <= t < j ==> replace_all(s, key, "[redacted]"@)[t] != '[',
    ensures
        j <= s.len(),
        replace_all(s, key, "[redacted]"@).subrange(0, j) == s.subrange(0, j),
    decreases s.len(),
{
    reveal_strlit("[redacted]");
    let rep = "[redacted]"@;
    let out = replace_all(s, key, rep);
    if j == 0 {
        assert(out.subrange(0, 0) =~= s.subrange(0, 0));
    } else if s.len() == 0 {
    } else if has_prefix(s, key) {
        assert(out[0] == rep[0]);
    } else {
        let d = s.drop_first();
        let t = replace_all(d, key, rep);
        assert(out == seq![s[0]] + t);
        assert forall|u: int| 0 <= u < j - 1 implies t[u] != '[' by {
            assert(t[u] == out[u + 1]);
        }
        lemma_replace_keeps_prefix(d, key, j - 1);
        assert forall|u: int| 0 <= u < j implies out[u] == s[u] by {
            if u > 0 {
                assert(out[u] == t[u - 1]);
                assert(t.subrange(0, j - 1)[u - 1] == d.subrange(0, j - 1)[u - 1]);
            }
        }
        assert(out.subrange(0, j) =~= s.subrange(0, j));
    }
}

/// Replacing every copy of a safe key leaves none behind.
proof fn lemma_replace_removes_key(s: Seq<char>, key: Seq<char>)
    requires
        redaction_safe(key),
    ensures
        !contains_seq(replace_all(s, key, "[redacted]"@), key),
    decreases s.len(),
{
    reveal_strlit("[redacted]");
    let rep = "[redacted]"@;
    let out = replace_all(s, key, rep);
    let k = key.len() as int;
    if s.len() == 0 {
        assert forall|i: int| !occurs_at(out, key, i) by {}
    } else if has_prefix(s, key) {
        let rest = s.subrange(k, s.len() as int);
        lemma_replace_removes_key(rest, key);
        let t = replace_all(rest, key, rep);
        assert(out == rep + t);
        assert forall|i: int| !occurs_at(out, key, i) by {
            if occurs_at(out, key, i) {
                let q = choose|q: int| 0 <= q < key.len() && key[q] == '_';
                if i >= 10 {
                    assert(t.subrange(i - 10, i - 10 + k) =~= out.subrange(i, i + k));
                    assert(occurs_at(t, key, i - 10));
                } else if i + k > 10 {
                    assert(key[9 - i] == out.subrange(i, i + k)[9 - i]);
                    assert(out[9] == rep[9]);
                    assert(word_char(key[9 - i]));
                } else {
                    assert(key[q] == out.subrange(i, i + k)[q]);
                    assert(out[i + q] == rep[i + q]);
                }
            }
        }
    } else {
        let d = s.drop_first();
        lemma_replace_removes_key(d, key);
        let t = replace_all(d, key, rep);
        assert(out == seq![s[0]] + t);
        assert forall|i: int| !occurs_at(out, key, i) by {
            if occurs_at(out, key, i) {
                if i >= 1 {
                    assert(t.subrange(i - 1, i - 1 + k) =~= out.subrange(i, i + k));
                    assert(occurs_at(t, key, i - 1));
                } else {
                    assert forall|u: int| 0 <= u < k implies out[u] != '[' by {
                        assert(out[u] == out.subrange(0, k)[u]);
                        assert(word_char(key[u]));
                    }
                    lemma_replace_keeps_prefix(s, key, k);
                    assert(s.subrange(0, k) == key);
                }
            }
        }
    }
}

/// A word ends just before a character that is neither a word character nor `@`.
proof fn lemma_word_len_stop(s: Seq<char>, i: int)
    requires
        1 <= i <= s.len(),
    ensures
        word_len(s, i) < s.len() ==> !(word_char(s[word_len(s, i)]) || s[word_len(s, i)] == '@'),
    decreases s.len() - i,
{
    if i < s.len() && (word_char(s[i]) || s[i] == '@') {
        lemma_word_len_stop(s, i + 1);
    }
}

proof fn lemma_no_key_in_suffix(s: Seq<char>, key: Seq<char>, n: int)
    requires
        0 <= n <= s.len(),
        !contains_seq(s, key),
    ensures
        !contains_seq(s.subrange(n, s.len() as int), key),
{
    let r = s.subrange(n, s.len() as int);
    assert forall|i: int| !occurs_at(r, key, i) by {
        if occurs_at(r, key, i) {
            assert(s.subrange(i + n, i + n + key.len()) =~= r.subrange(i, i + key.len()));
            assert(occurs_at(s, key, i + n));
        }
    }
}

/// Scrubbing addresses puts no copy of a safe key into a text that had none.
proof fn lemma_scrub_adds_no_key(s: Seq<char>, key: Seq<char>)
    requires
        redaction_safe(key),
        !contains_seq(s, key),
    ensures
        !contains_seq(scrub_text(s), key),
    decreases s.len(),
{
    reveal_strlit("[redacted]");
    let rep = "[redacted]"@;
    let out = scrub_text(s);
    let k = key.len() as int;
    if s.len() == 0 {
        assert forall|i: int| !occurs_at(out, key, i) by {}
    } else if word_char(s[0]) {
        lemma_word_len_bounds(s, 1);
        lemma_word_len_stop(s, 1);
        let n = word_len(s, 1);
        let w = s.subrange(0, n);
        let rest = s.subrange(n, s.len() as int);
        lemma_no_key_in_suffix(s, key, n);
        lemma_scrub_adds_no_key(rest, key);
        let t = scrub_text(rest);
        let piece = if at_count(w) == 1 { rep } else { w };
        assert(out == piece + t);
        let pl = piece.len() as int;
        assert forall|i: int| !occurs_at(out, key, i) by {
            if occurs_at(out, key, i) {
                let q = choose|q: int| 0 <= q < key.len() && key[q] == '_';
                if i >= pl {
                    assert(t.subrange(i - pl, i - pl + k) =~= out.subrange(i, i + k));
                    assert(occurs_at(t, key, i - pl));
                } else if i + k > pl {
                    assert(key[pl - i] == out.subrange(i, i + k)[pl - i]);
                    if at_count(w) == 1 {
                        assert(key[9 - i] == out.subrange(i, i + k)[9 - i]);
                        assert(out[9] == rep[9]);
                        assert(word_char(key[9 - i]));
                    } else {
                        assert(rest.len() > 0);
                        assert(t[0] == rest[0]);
                        assert(out[pl] == t[0]);
                        assert(word_char(key[pl - i]));
                    }
                } else if at_count(w) == 1 {
                    assert(key[q] == out.subrange(i, i + k)[q]);
                    assert(out[i + q] == rep[i + q]);
                } else {
                    assert(s.subrange(i, i + k) =~= out.subrange(i, i + k));
                    assert(occurs_at(s, key, i));
                }
            }
        }
    } else {
        let d = s.drop_first();
        lemma_no_key_in_suffix(s, key, 1);
        assert(s.subrange(1, s.len() as int) =~= d);
        lemma_scrub_adds_no_key(d, key);
        let t = scrub_text(d);
        assert(out == seq![s[0]] + t);
        assert forall|i: int| !occurs_at(out, key, i) by {
            if occurs_at(out, key, i) {
                if i >= 1 {
                    assert(t.subrange(i - 1, i - 1 + k) =~= out.subrange(i, i + k));
                    assert(occurs_at(t, key, i - 1));
                } else {
                    assert(key[0] == out.subrange(0, k)[0]);
                    assert(word_char(key[0]));
                }
            }
        }
    }
}

/// The restricted key never shows in an error message: once redacted, the
/// text holds no copy of it, whatever the message was.
pub proof fn lemma_redacted_never_shows_key(message: Seq<char>, key: Seq<char>)
    requires
        redaction_safe(key),
    ensures
        !contains_seq(redacted_text(message, key), key),
{
    lemma_replace_removes_key(message, key);
    let out = replace_all(message, key, "[redacted]"@);
    if has_char(out, '@') {
        lemma_scrub_adds_no_key(out, key);
    }
}

pub fn redact_secrets(message: &str, key: &str) -> (r: String)
    ensures
        r@ == redacted_text(message@, key@),
{
    let out = if key.unicode_len() > 0 {
        replace_str(message, key, "[redacted]")
    } else {
        String::from_str(message)
    };
    if contains_char(out.as_str(), '@') {
        scrub_emails(out.as_str())
    } else {
        out
    }
}

// --- The HTTP client's own rules ----------------------------------------------------

/// The HTTP transport: the restricted key it authenticates with.
#[derive(Debug)]
pub struct UreqHttp {
    key: String,
}

impl UreqHttp {
    pub closed spec fn key_view(&self) -> Seq<char> {
        self.key@
    }

    pub fn new(key: String) -> (r: UreqHttp)
        ensures
            r.key_view() == key@,
    {
        UreqHttp { key }
    }

    /// `Basic` authentication with the key as user and no password.
    pub fn auth_header(&self) -> (r: String)
        ensures
            r@ == "Basic "@ + base64_standard(self.key_view() + ":"@),
    {
        let mut user = self.key.clone();
        push_str(&mut user, ":");
        let enc = base64_encode(user.as_str());
        let mut h = String::from_str("Basic ");
        push_str(&mut h, enc.as_str());
        h
    }

    /// The message for a failed request: an HTTP status from Stripe, or no
    /// answer at all; redacted.
    pub fn error_message(&self, status: Option<u16>) -> (r: String)
        ensures
            r@ == redacted_text(
                match status {
                    Some(code) => "Stripe returned an error (HTTP "@ + dec_nat(code as nat) + "). Check the key scopes and try again."@,
                    None => "Farm OS couldn't reach Stripe. Check the connection and try again."@,
                },
                self.key_view(),
            ),
    {
        let raw = match status {
            Some(code) => {
                let mut m = String::from_str("Stripe returned an error (HTTP ");
                push_nat(&mut m, code as u64);
                push_str(&mut m, "). Check the key scopes and try again.");
                m
            },
            None => String::from_str("Farm OS couldn't reach Stripe. Check the connection and try again."),
        };
        redact_secrets(raw.as_str(), self.key.as_str())
    }
}

/// A cursor that is a non-empty run of ASCII digits.
pub open spec fn unix_like(s: Seq<char>) -> bool {
    s.len() > 0 && forall|i: int| 0 <= i < s.len() ==> '0' <= #[trigger] s[i] && s[i] <= '9'
}

pub fn looks_like_unix(s: &str) -> (r: bool)
    ensures
        r == unix_like(s@),
{
    let n = s.unicode_len();
    if n == 0 {
        return false;
    }
    let mut i: usize = 0;
    while i < n
        invariant
            n == s@.len(),
            i <= n,
            forall|k: int| 0 <= k < i ==> '0' <= #[trigger] s@[k] && s@[k] <= '9',
        decreases n - i,
    {
        let c = s.get_char(i);
        if !('0' <= c && c <= '9') {
            return false;
        }
        i = i + 1;
    }
    true
}

/// The `created` filter a list request carries: only a stored cursor that
/// looks like a Unix time.
pub fn created_filter(since: Option<&str>) -> (r: Option<&str>)
    ensures
        match since {
            Some(s) => if unix_like(s@) { r == Some(s) } else { r is None },
            None => r is None,
        },
{
    match since {
        Some(s) => if looks_like_unix(s) { Some(s) } else { None },
        None => None,
    }
}

/// The account name shown to the grower: the dashboard display name, else the
/// business name, else `Stripe account`.
pub open spec fn display_name_text(display: Option<Seq<char>>, business: Option<Seq<char>>) -> Seq<char> {
    match non_empty(display) {
        Some(d) => d,
        None => match non_empty(business) {
            Some(b) => b,
            None => "Stripe account"@,
        },
    }
}

pub fn account_display_name(display_name: &Option<String>, business_name: &Option<String>) -> (r: String)
    ensures
        r@ == display_name_text(opt_view(*display_name), opt_view(*business_name)),
{
    match display_name {
        Some(d) => if d.unicode_len() > 0 {
            return d.clone();
        },
        None => {},
    }
    match business_name {
        Some(b) => if b.unicode_len() > 0 {
            return b.clone();
        },
        None => {},
    }
    String::from_str("Stripe account")
}

// --- Checkout Sessions read from Stripe ------------------------------------------------

/// A line item as Stripe sends it, each field as found (absent when missing or
/// of another JSON type).
#[derive(Debug)]
pub struct RawLineItem {
    pub quantity: Option<i64>,
    /// `price.id`, when the price is expanded.
    pub price_id: Option<String>,
    /// `price`, when it is a bare id.
    pub price: Option<String>,
    pub amount_total: Option<i64>,
    /// `price.unit_amount`.
    pub unit_amount: Option<i64>,
}

/// A Checkout Session as Stripe sends it.
#[derive(Debug)]
pub struct RawSession {
    pub id: Option<String>,
    pub amount_total: Option<i64>,
    pub currency: Option<String>,
    /// `payment_intent`, as an id or as the id of an expanded object.
    pub payment_intent: Option<String>,
    /// `customer_details.email`.
    pub customer_details_email: Option<String>,
    pub customer_email: Option<String>,
    pub created: Option<i64>,
    pub client_reference_id: Option<String>,
}

pub open spec fn qty_of(li: RawLineItem) -> i64 {
    match li.quantity { Some(q) => q, None => 0 }
}

pub open spec fn price_of(li: RawLineItem) -> Option<Seq<char>> {
    match li.price_id {
        Some(p) => Some(p@),
        None => opt_view(li.price),
    }
}

/// A line's amount: its total, else unit price times quantity.
pub open spec fn amount_of(li: RawLineItem) -> int {
    match li.amount_total {
        Some(a) => a as int,
        None => (match li.unit_amount { Some(u) => u as int, None => 0 }) * qty_of(li),
    }
}

/// The counted line items (quantity at least one), in order.
pub open spec fn counted_items(items: Seq<RawLineItem>) -> Seq<RawLineItem>
    decreases items.len(),
{
    if items.len() == 0 {
        Seq::empty()
    } else if qty_of(items.last()) >= 1 {
        counted_items(items.drop_last()).push(items.last())
    } else {
        counted_items(items.drop_last())
    }
}

pub open spec fn lines_total(items: Seq<RawLineItem>) -> int
    decreases items.len(),
{
    if items.len() == 0 { 0 } else { lines_total(items.drop_last()) + amount_of(items.last()) }
}

pub open spec fn line_view(l: PaidLine) -> (Seq<char>, i64, i64) {
    (l.price_id@, l.quantity, l.amount_cents)
}

/// Whether `build_paid_session` reads the session, and, when it does not,
/// why: no id; a counted line without a price; no counted line.
pub open spec fn session_problem(raw: RawSession, items: Seq<RawLineItem>) -> Option<Seq<char>> {
    let cs = counted_items(items);
    if raw.id is None {
        Some("session missing id"@)
    } else if exists|k: int| 0 <= k < cs.len() && price_of(#[trigger] cs[k]) is None {
        Some("line item missing price id"@)
    } else if cs.len() == 0 {
        Some("session has no line item quantity"@)
    } else {
        None
    }
}

/// Reads a paid session from the session and its line items. Attribution uses
/// the price id only, never metadata. The session total falls back to the sum
/// of its lines, the currency to `cad`, the paid time to the session's
/// creation time (or, when chrono has no such time, the clock).
pub fn build_paid_session(raw: &RawSession, items: &Vec<RawLineItem>) -> (r: Result<PaidSession, String>)
    requires
        items@.len() < 0x8000_0000,
        forall|k: int| 0 <= k < items@.len() && qty_of(items@[k]) >= 1 ==> i64::MIN <= #[trigger] amount_of(items@[k]) <= i64::MAX,
        raw.amount_total is None ==> forall|k: int| 0 <= k <= counted_items(items@).len() ==> i64::MIN <= #[trigger] lines_total(counted_items(items@).take(k)) <= i64::MAX,
    ensures
        match r {
            Err(e) => session_problem(*raw, items@) == Some(e@),
            Ok(s) => {
                let cs = counted_items(items@);
                &&& session_problem(*raw, items@) is None
                &&& Some(s.session_id@) == opt_view(raw.id)
                &&& s.lines@.len() == cs.len()
                &&& forall|k: int| 0 <= k < cs.len() ==> line_view(#[trigger] s.lines@[k]) == (price_of(cs[k])->0, qty_of(cs[k]), amount_of(cs[k]) as i64)
                &&& s.amount_cents == match raw.amount_total { Some(a) => a as int, None => lines_total(cs) }
                &&& s.currency@ == match raw.currency { Some(c) => c@, None => "cad"@ }
                &&& s.payment_intent == raw.payment_intent
                &&& opt_view(s.customer_email) == match raw.customer_details_email {
                    Some(e) => Some(e@),
                    None => opt_view(raw.customer_email),
                }
                &&& s.created == match raw.created { Some(c) => c, None => 0 }
                &&& (rfc3339_millis(s.created) matches Some(t) ==> s.paid_at@ == t)
                &&& (rfc3339_millis(s.created) is None ==> utc_millis_shape(s.paid_at@))
                &&& opt_view(s.client_reference) == non_empty(opt_view(raw.client_reference_id))
            },
        },
{
    let session_id = match &raw.id {
        Some(id) => id.clone(),
        None => return Err(String::from_str("session missing id")),
    };
    let n = items.len();
    let mut lines: Vec<PaidLine> = Vec::new();
    let mut i: usize = 0;
    while i < n
        invariant
            n == items@.len(),
            n < 0x8000_0000,
            i <= n,
            raw.id is Some,
            forall|k: int| 0 <= k < items@.len() && qty_of(items@[k]) >= 1 ==> i64::MIN <= #[trigger] amount_of(items@[k]) <= i64::MAX,
            lines@.len() == counted_items(items@.take(i as int)).len(),
            forall|k: int| 0 <= k < lines@.len() ==> {
                let c = counted_items(items@.take(i as int))[k];
                line_view(#[trigger] lines@[k]) == (price_of(c)->0, qty_of(c), amount_of(c) as i64)
            },
            forall|k: int| 0 <= k < lines@.len() ==> price_of(#[trigger] counted_items(items@.take(i as int))[k]) is Some,
        decreases n - i,
    {
        let ghost cs0 = counted_items(items@.take(i as int));
        proof {
            assert(items@.take(i + 1).drop_last() =~= items@.take(i as int));
            assert(items@.take(i + 1).last() == items@[i as int]);
        }
        let li = &items[i];
        let quantity: i64 = match li.quantity { Some(q) => q, None => 0 };
        if quantity >= 1 {
            let price_id = match &li.price_id {
                Some(p) => p.clone(),
                None => match &li.price {
                    Some(p) => p.clone(),
                    None => {
                        proof {
                            let cs1 = counted_items(items@.take(i + 1));
                            assert(cs1 == cs0.push(*li));
                            assert(cs1[cs0.len() as int] == *li);
                            lemma_counted_items_prefix(items@, i + 1);
                            let cs = counted_items(items@);
                            assert(cs[cs0.len() as int] == *li);
                            assert(price_of(cs[cs0.len() as int]) is None);
                        }
                        return Err(String::from_str("line item missing price id"));
                    },
                },
            };
            let amount_cents: i64 = match li.amount_total {
                Some(a) => a,
                None => {
                    let unit: i64 = match li.unit_amount { Some(u) => u, None => 0 };
                    proof {
                        assert(amount_of(items@[i as int]) == unit * quantity);
                    }
                    unit * quantity
                },
            };
            let ghost before = lines@;
            lines.push(PaidLine { price_id, quantity, amount_cents });
            proof {
                let cs1 = counted_items(items@.take(i + 1));
                assert(cs1 == cs0.push(*li));
                assert(cs1.drop_last() =~= cs0);
                assert forall|k: int| 0 <= k < lines@.len() implies {
                    let c = cs1[k];
                    line_view(#[trigger] lines@[k]) == (price_of(c)->0, qty_of(c), amount_of(c) as i64)
                } by {
                    if k < before.len() {
                        assert(lines@[k] == before[k]);
                        assert(cs1[k] == cs0[k]);
                    }
                }
                assert forall|k: int| 0 <= k < lines@.len() implies price_of(#[trigger] cs1[k]) is Some by {
                    if k < before.len() {
                        assert(cs1[k] == cs0[k]);
                    }
                }
            }
        }
        i = i + 1;
    }
    proof {
        assert(items@.take(n as int) =~= items@);
    }
    if lines.len() == 0 {
        return Err(String::from_str("session has no line item quantity"));
    }
    let ghost cs = counted_items(items@);
    proof {
        lemma_counted_amounts_fit(items@);
    }
    let amount_cents = match raw.amount_total {
        Some(a) => a,
        None => {
            let mut total: i64 = 0;
            let mut j: usize = 0;
            while j < lines.len()
                invariant
                    j <= lines@.len(),
                    lines@.len() == cs.len(),
                    forall|k: int| 0 <= k < lines@.len() ==> line_view(#[trigger] lines@[k]) == (price_of(cs[k])->0, qty_of(cs[k]), amount_of(cs[k]) as i64),
                    forall|k: int| 0 <= k < cs.len() ==> i64::MIN <= #[trigger] amount_of(cs[k]) <= i64::MAX,
                    forall|k: int| 0 <= k <= cs.len() ==> i64::MIN <= #[trigger] lines_total(cs.take(k)) <= i64::MAX,
                    total == lines_total(cs.take(j as int)),
                decreases lines@.len() - j,
            {
                proof {
                    assert(cs.take(j + 1).drop_last() =~= cs.take(j as int));
                    assert(cs.take(j + 1).last() == cs[j as int]);
                    assert(line_view(lines@[j as int]).2 == amount_of(cs[j as int]) as i64);
                    assert(i64::MIN <= amount_of(cs[j as int]) <= i64::MAX);
                    assert(i64::MIN <= lines_total(cs.take(j + 1)) <= i64::MAX);
                }
                total = total + lines[j].amount_cents;
                j = j + 1;
            }
            proof {
                assert(cs.take(cs.len() as int) =~= cs);
            }
            total
        },
    };
    let currency = match &raw.currency {
        Some(c) => c.clone(),
        None => String::from_str("cad"),
    };
    let customer_email = match &raw.customer_details_email {
        Some(e) => Some(e.clone()),
        None => clone_opt(&raw.customer_email),
    };
    let created: i64 = match raw.created { Some(c) => c, None => 0 };
    let paid_at = match format_unix_millis(created) {
        Some(t) => t,
        None => handler_now(),
    };
    let client_reference = match &raw.client_reference_id {
        Some(c) => if c.unicode_len() > 0 { Some(c.clone()) } else { None },
        None => None,
    };
    Ok(PaidSession {
        session_id,
        payment_intent: clone_opt(&raw.payment_intent),
        lines,
        currency,
        customer_email,
        paid_at,
        created,
        amount_cents,
        client_reference,
    })
}

/// Each counted item is an item with a quantity of at least one.
proof fn lemma_counted_amounts_fit(items: Seq<RawLineItem>)
    requires
        forall|k: int| 0 <= k < items.len() && qty_of(items[k]) >= 1 ==> i64::MIN <= #[trigger] amount_of(items[k]) <= i64::MAX,
    ensures
        forall|k: int| 0 <= k < counted_items(items).len() ==> i64::MIN <= #[trigger] amount_of(counted_items(items)[k]) <= i64::MAX,
    decreases items.len(),
{
    if items.len() > 0 {
        let d = items.drop_last();
        assert forall|k: int| 0 <= k < d.len() && qty_of(d[k]) >= 1 implies i64::MIN <= #[trigger] amount_of(d[k]) <= i64::MAX by {
            assert(d[k] == items[k]);
        }
        lemma_counted_amounts_fit(d);
        let cd = counted_items(d);
        if qty_of(items.last()) >= 1 {
            assert(amount_of(items[items.len() - 1]) == amount_of(items.last()));
            assert forall|k: int| 0 <= k < counted_items(items).len() implies i64::MIN <= #[trigger] amount_of(counted_items(items)[k]) <= i64::MAX by {
                if k < cd.len() {
                    assert(counted_items(items)[k] == cd[k]);
                }
            }
        }
    }
}

/// The counted items of a prefix are a prefix of the counted items.
proof fn lemma_counted_items_prefix(items: Seq<RawLineItem>, j: int)
    requires
        0 <= j <= items.len(),
    ensures
        counted_items(items.take(j)).len() <= counted_items(items).len(),
        counted_items(items).take(counted_items(items.take(j)).len() as int) == counted_items(items.take(j)),
    decreases items.len() - j,
{
    if j < items.len() {
        lemma_counted_items_prefix(items, j + 1);
        assert(items.take(j + 1).drop_last() =~= items.take(j));
        assert(items.take(j + 1).last() == items[j]);
        let a = counted_items(items.take(j));
        let b = counted_items(items.take(j + 1));
        let c = counted_items(items);
        assert(c.take(a.len() as int) =~= b.take(a.len() as int));
        assert(b.take(a.len() as int) =~= a);
    } else {
        assert(items.take(j) =~= items);
        assert(counted_items(items).take(counted_items(items).len() as int) =~= counted_items(items));
    }
}

/// A refund as Stripe lists it: passed over without an id; its creation time
/// reads as 0 when absent. The session is not known at this point.
pub fn refund_of_raw(id: Option<String>, payment_intent: Option<String>, created: Option<i64>) -> (r: Option<RefundRecord>)
    ensures
        id is None <==> r is None,
        r matches Some(rec) ==> {
            &&& Some(rec.refund_id) == id
            &&& rec.payment_intent == payment_intent
            &&& rec.session_id is None
            &&& rec.created == match created { Some(c) => c, None => 0 }
        },
{
    match id {
        Some(refund_id) => Some(RefundRecord {
            refund_id,
            payment_intent,
            session_id: None,
            created: match created { Some(c) => c, None => 0 },
        }),
        None => None,
    }
}

/// A dispute as Stripe lists it, read as a refund is.
pub fn dispute_of_raw(id: Option<String>, payment_intent: Option<String>, created: Option<i64>) -> (r: Option<DisputeRecord>)
    ensures
        id is None <==> r is None,
        r matches Some(rec) ==> {
            &&& Some(rec.dispute_id) == id
            &&& rec.payment_intent == payment_intent
            &&& rec.session_id is None
            &&& rec.created == match created { Some(c) => c, None => 0 }
        },
{
    match id {
        Some(dispute_id) => Some(DisputeRecord {
            dispute_id,
            payment_intent,
            session_id: None,
            created: match created { Some(c) => c, None => 0 },
        }),
        None => None,
    }
}

/// Which sessions of a listed page are read, by their `payment_status`:
/// exactly those Stripe reports as `paid`, in page order. Nothing unpaid goes
/// further, so nothing unpaid can take capacity.
pub fn paid_positions(statuses: &Vec<Option<String>>) -> (r: Vec<usize>)
    ensures
        forall|j: int| 0 <= j < r@.len() ==> (#[trigger] r@[j] as int) < statuses@.len() && opt_view(statuses@[r@[j] as int]) == Some("paid"@),
        forall|i: int| 0 <= i < statuses@.len() && opt_view(statuses@[i]) == Some("paid"@) ==> #[trigger] r@.contains(i as usize),
        forall|a: int, b: int| 0 <= a < b < r@.len() ==> #[trigger] r@[a] < #[trigger] r@[b],
{
    let mut out: Vec<usize> = Vec::new();
    let n = statuses.len();
    let mut i: usize = 0;
    while i < n
        invariant
            n == statuses@.len(),
            i <= n,
            forall|j: int| 0 <= j < out@.len() ==> (#[trigger] out@[j] as int) < i && opt_view(statuses@[out@[j] as int]) == Some("paid"@),
            forall|x: int| 0 <= x < i && opt_view(statuses@[x]) == Some("paid"@) ==> #[trigger] out@.contains(x as usize),
            forall|a: int, b: int| 0 <= a < b < out@.len() ==> #[trigger] out@[a] < #[trigger] out@[b],
        decreases n - i,
    {
        let paid = match &statuses[i] {
            Some(st) => str_eq(st.as_str(), "paid"),
            None => false,
        };
        if paid {
            let ghost before = out@;
            out.push(i);
            proof {
                assert(out@[out@.len() - 1] == i);
                assert forall|x: int| 0 <= x < i + 1 && opt_view(statuses@[x]) == Some("paid"@) implies #[trigger] out@.contains(x as usize) by {
                    if x < i {
                        assert(before.contains(x as usize));
                        let t = choose|t: int| 0 <= t < before.len() && before[t] == x as usize;
                        assert(out@[t] == before[t]);
                    } else {
                        assert(out@[out@.len() - 1] == x as usize);
                    }
                }
            }
        }
        i = i + 1;
    }
    out
}

/// A paid session that could not be read, kept for the grower: id (else
/// `unknown-{created}`), creation time, total and currency, with defaults.
pub fn unparsed_from_raw(raw: &RawSession, reason: String) -> (r: UnparsedSession)
    ensures
        r.created == match raw.created { Some(c) => c, None => 0 },
        r.session_id@ == match raw.id {
            Some(id) => id@,
            None => "unknown-"@ + dec_int(r.created as int),
        },
        r.amount_cents == match raw.amount_total { Some(a) => a, None => 0 },
        r.currency@ == match raw.currency { Some(c) => c@, None => "cad"@ },
        r.reason == reason,
{
    let created: i64 = match raw.created { Some(c) => c, None => 0 };
    let session_id = match &raw.id {
        Some(id) => id.clone(),
        None => {
            let mut s = String::from_str("unknown-");
            push_int(&mut s, created);
            s
        },
    };
    let amount_cents: i64 = match raw.amount_total { Some(a) => a, None => 0 };
    let currency = match &raw.currency {
        Some(c) => c.clone(),
        None => String::from_str("cad"),
    };
    UnparsedSession { session_id, created, amount_cents, currency, reason }
}

// --- Paging through a Stripe list ----------------------------------------------------

/// What one page of a Stripe list decides: keep the page (it has items),
/// continue after its last id, or stop.
#[derive(Debug)]
pub struct PageStep {
    pub keep: bool,
    pub starting_after: Option<String>,
    pub more: bool,
}

/// `ids` are the ids of the page's items (absent where an item has none);
/// `has_more` is Stripe's flag, absent counting as no.
pub fn list_page_step(ids: &Vec<Option<String>>, has_more: Option<bool>) -> (r: Result<PageStep, String>)
    ensures
        ids@.len() > 0 && ids@.last() is None <==> r is Err,
        r matches Err(e) ==> e@ == "Stripe list page was missing an id for pagination."@,
        r matches Ok(p) ==> {
            &&& p.keep == (ids@.len() > 0)
            &&& (ids@.len() > 0 ==> opt_view(p.starting_after) == opt_view(ids@.last()))
            &&& (ids@.len() == 0 ==> p.starting_after is None)
            &&& p.more == (has_more == Some(true) && ids@.len() > 0)
        },
{
    let n = ids.len();
    let more = match has_more { Some(b) => b, None => false } && n > 0;
    if n == 0 {
        return Ok(PageStep { keep: false, starting_after: None, more });
    }
    match &ids[n - 1] {
        Some(id) => Ok(PageStep { keep: true, starting_after: Some(id.clone()), more }),
        None => Err(String::from_str("Stripe list page was missing an id for pagination.")),
    }
}

// --- Forms sent to Stripe ----------------------------------------------------------------

/// `x.clamp(0, 99)`.
pub open spec fn clamp_99(x: int) -> int {
    if x < 0 { 0 } else if x > 99 { 99 } else { x }
}

/// The form fields of one Payment Link line.
pub open spec fn link_line_fields(i: nat, l: HarvestLinkLine) -> Seq<(Seq<char>, Seq<char>)> {
    let p = "line_items["@ + dec_nat(i) + "]"@;
    seq![
        (p + "[price]"@, l.price_id@),
        (p + "[quantity]"@, "1"@),
        (p + "[adjustable_quantity][enabled]"@, "true"@),
        (p + "[adjustable_quantity][minimum]"@, "0"@),
        (p + "[adjustable_quantity][maximum]"@, dec_int(clamp_99(l.max_quantity as int))),
    ]
}

pub open spec fn link_lines_fields(ls: Seq<HarvestLinkLine>, k: int) -> Seq<(Seq<char>, Seq<char>)>
    decreases k,
{
    if k <= 0 {
        Seq::empty()
    } else {
        link_lines_fields(ls, k - 1) + link_line_fields((k - 1) as nat, ls[k - 1])
    }
}

pub open spec fn fields_view(v: Seq<(String, String)>) -> Seq<(Seq<char>, Seq<char>)> {
    v.map_values(|f: (String, String)| (f.0@, f.1@))
}

fn push_field(form: &mut Vec<(String, String)>, key: String, value: String)
    ensures
        fields_view(final(form)@) == fields_view(old(form)@).push((key@, value@)),
{
    form.push((key, value));
    assert(fields_view(final(form)@) =~= fields_view(old(form)@).push((key@, value@)));
}

fn line_key(i: usize, tail: &str) -> (r: String)
    ensures
        r@ == "line_items["@ + dec_nat(i as nat) + "]"@ + tail@,
{
    let mut k = String::from_str("line_items[");
    push_nat(&mut k, i as u64);
    push_str(&mut k, "]");
    push_str(&mut k, tail);
    k
}

/// The form of a legacy harvest Payment Link: each line adjustable from 0 to
/// its capacity (at most 99), and the harvest date as metadata.
pub fn payment_link_form(harvest_date: &str, lines: &Vec<HarvestLinkLine>) -> (r: Result<Vec<(String, String)>, String>)
    ensures
        lines@.len() == 0 <==> r is Err,
        r matches Err(e) ==> e@ == "A harvest Payment Link needs at least one crop."@,
        r matches Ok(f) ==> fields_view(f@) == link_lines_fields(lines@, lines@.len() as int) + seq![
            ("metadata[harvest_date]"@, harvest_date@),
            ("payment_intent_data[metadata][harvest_date]"@, harvest_date@),
        ],
{
    let n = lines.len();
    if n == 0 {
        return Err(String::from_str("A harvest Payment Link needs at least one crop."));
    }
    let mut form: Vec<(String, String)> = Vec::new();
    let mut i: usize = 0;
    while i < n
        invariant
            n == lines@.len(),
            i <= n,
            fields_view(form@) == link_lines_fields(lines@, i as int),
        decreases n - i,
    {
        let l = &lines[i];
        let max: i64 = if l.max_quantity < 0 { 0 } else if l.max_quantity > 99 { 99 } else { l.max_quantity };
        let mut max_s = String::new();
        push_int(&mut max_s, max);
        let ghost before = fields_view(form@);
        push_field(&mut form, line_key(i, "[price]"), l.price_id.clone());
        push_field(&mut form, line_key(i, "[quantity]"), String::from_str("1"));
        push_field(&mut form, line_key(i, "[adjustable_quantity][enabled]"), String::from_str("true"));
        push_field(&mut form, line_key(i, "[adjustable_quantity][minimum]"), String::from_str("0"));
        push_field(&mut form, line_key(i, "[adjustable_quantity][maximum]"), max_s);
        proof {
            assert(max_s@ =~= dec_int(clamp_99(l.max_quantity as int)));
            assert(fields_view(form@) =~= before + link_line_fields(i as nat, lines@[i as int]));
        }
        i = i + 1;
    }
    let ghost before = fields_view(form@);
    push_field(&mut form, String::from_str("metadata[harvest_date]"), String::from_str(harvest_date));
    push_field(&mut form, String::from_str("payment_intent_data[metadata][harvest_date]"), String::from_str(harvest_date));
    proof {
        assert(fields_view(form@) =~= before + seq![
            ("metadata[harvest_date]"@, harvest_date@),
            ("payment_intent_data[metadata][harvest_date]"@, harvest_date@),
        ]);
    }
    Ok(form)
}

/// The Product created for an offer: named `crop · date`, with the offer's
/// date, crop and id as metadata (for the dashboard only).
pub fn product_form(offer: &Offer) -> (r: Vec<(String, String)>)
    ensures
        fields_view(r@) == seq![
            ("name"@, offer.crop_id@ + " · "@ + offer.harvest_date@),
            ("metadata[harvest_date]"@, offer.harvest_date@),
            ("metadata[crop_id]"@, offer.crop_id@),
            ("metadata[offer_id]"@, offer.id@),
        ],
{
    let mut name = offer.crop_id.clone();
    push_str(&mut name, " · ");
    push_str(&mut name, offer.harvest_date.as_str());
    let mut form: Vec<(String, String)> = Vec::new();
    push_field(&mut form, String::from_str("name"), name);
    push_field(&mut form, String::from_str("metadata[harvest_date]"), offer.harvest_date.clone());
    push_field(&mut form, String::from_str("metadata[crop_id]"), offer.crop_id.clone());
    push_field(&mut form, String::from_str("metadata[offer_id]"), offer.id.clone());
    assert(fields_view(form@) =~= seq![
        ("name"@, offer.crop_id@ + " · "@ + offer.harvest_date@),
        ("metadata[harvest_date]"@, offer.harvest_date@),
        ("metadata[crop_id]"@, offer.crop_id@),
        ("metadata[offer_id]"@, offer.id@),
    ]);
    form
}

/// The Price created for an offer: in CAD, the offer's price in cents, under
/// the product just made.
pub fn price_form(offer: &Offer, product_id: &str) -> (r: Vec<(String, String)>)
    ensures
        fields_view(r@) == seq![
            ("product"@, product_id@),
            ("unit_amount"@, dec_int(offer.price_cents as int)),
            ("currency"@, "cad"@),
            ("metadata[harvest_date]"@, offer.harvest_date@),
            ("metadata[crop_id]"@, offer.crop_id@),
            ("metadata[offer_id]"@, offer.id@),
        ],
{
    let mut unit = String::new();
    push_int(&mut unit, offer.price_cents);
    assert(unit@ =~= dec_int(offer.price_cents as int));
    let mut form: Vec<(String, String)> = Vec::new();
    push_field(&mut form, String::from_str("product"), String::from_str(product_id));
    push_field(&mut form, String::from_str("unit_amount"), unit);
    push_field(&mut form, String::from_str("currency"), String::from_str("cad"));
    push_field(&mut form, String::from_str("metadata[harvest_date]"), offer.harvest_date.clone());
    push_field(&mut form, String::from_str("metadata[crop_id]"), offer.crop_id.clone());
    push_field(&mut form, String::from_str("metadata[offer_id]"), offer.id.clone());
    assert(fields_view(form@) =~= seq![
        ("product"@, product_id@),
        ("unit_amount"@, dec_int(offer.price_cents as int)),
        ("currency"@, "cad"@),
        ("metadata[harvest_date]"@, offer.harvest_date@),
        ("metadata[crop_id]"@, offer.crop_id@),
        ("metadata[offer_id]"@, offer.id@),
    ]);
    form
}

} // verus!
