//! Character-level text scanning: the shared vocabulary for the grammar
//! parsers, the name normalizer, and the prefix-match policy.

use vstd::prelude::*;

verus! {

// ---------------------------------------------------------------------------
// Character classes
// ---------------------------------------------------------------------------

/// ASCII whitespace, the separators recognised inside pipeline descriptions
/// and log lines.
pub open spec fn is_ws_char(c: char) -> bool {
    c == ' ' || c == '\t' || c == '\n' || c == '\r'
}

/// A decimal digit.
pub open spec fn is_digit_char(c: char) -> bool {
    48 <= (c as int) && (c as int) <= 57
}

/// A character that may appear inside a captured field token: anything but
/// whitespace and the `,` / `;` field delimiters of the diagnostic grammar.
pub open spec fn is_token_char(c: char) -> bool {
    !is_ws_char(c) && c != ',' && c != ';'
}

fn ws_char(c: char) -> (b: bool)
    ensures
        b == is_ws_char(c),
{
    c == ' ' || c == '\t' || c == '\n' || c == '\r'
}

fn digit_char(c: char) -> (b: bool)
    ensures
        b == is_digit_char(c),
{
    let u = c as u32;
    48 <= u && u <= 57
}

fn token_char(c: char) -> (b: bool)
    ensures
        b == is_token_char(c),
{
    !ws_char(c) && c != ',' && c != ';'
}

// ---------------------------------------------------------------------------
// Scanning: first occurrence of a character, leading runs of a class
// ---------------------------------------------------------------------------

/// Index of the first occurrence of `c` in `s`, or `s.len()` when absent.
pub open spec fn char_pos(s: Seq<char>, c: char) -> nat
    decreases s.len(),
{
    if s.len() == 0 {
        0
    } else if s[0] == c {
        0
    } else {
        1 + char_pos(s.skip(1), c)
    }
}

/// `char_pos` yields the index of the first occurrence of `c`, or the length
/// of `s` when `c` does not occur.
pub proof fn lemma_char_pos(s: Seq<char>, c: char)
    ensures
        char_pos(s, c) <= s.len(),
        forall|j: int| 0 <= j < char_pos(s, c) ==> s[j] != c,
        char_pos(s, c) < s.len() ==> s[char_pos(s, c) as int] == c,
    decreases s.len(),
{
    if s.len() == 0 || s[0] == c {
    } else {
        lemma_char_pos(s.skip(1), c);
        assert forall|j: int| 0 <= j < char_pos(s, c) implies s[j] != c by {
            if j > 0 {
                assert(s[j] == s.skip(1)[j - 1]);
            }
        }
        if char_pos(s, c) < s.len() {
            assert(s[char_pos(s, c) as int] == s.skip(1)[char_pos(s.skip(1), c) as int]);
        }
    }
}

/// Length of the leading run of field-token characters.
pub open spec fn token_run(s: Seq<char>) -> nat
    decreases s.len(),
{
    if s.len() == 0 {
        0
    } else if !is_token_char(s[0]) {
        0
    } else {
        1 + token_run(s.skip(1))
    }
}

/// `token_run` yields the first index whose character is no token character,
/// or the length of `s` when every character is one.
pub proof fn lemma_token_run(s: Seq<char>)
    ensures
        token_run(s) <= s.len(),
        forall|j: int| 0 <= j < token_run(s) ==> is_token_char(s[j]),
        token_run(s) < s.len() ==> !is_token_char(s[token_run(s) as int]),
    decreases s.len(),
{
    if s.len() == 0 || !is_token_char(s[0]) {
    } else {
        lemma_token_run(s.skip(1));
        assert forall|j: int| 0 <= j < token_run(s) implies is_token_char(s[j]) by {
            if j > 0 {
                assert(s[j] == s.skip(1)[j - 1]);
            }
        }
        if token_run(s) < s.len() {
            assert(s[token_run(s) as int] == s.skip(1)[token_run(s.skip(1)) as int]);
        }
    }
}

/// Length of the leading run of decimal digits.
pub open spec fn digit_run(s: Seq<char>) -> nat
    decreases s.len(),
{
    if s.len() == 0 {
        0
    } else if !is_digit_char(s[0]) {
        0
    } else {
        1 + digit_run(s.skip(1))
    }
}

/// `digit_run` yields the first index whose character is no digit, or the
/// length of `s` when every character is one.
pub proof fn lemma_digit_run(s: Seq<char>)
    ensures
        digit_run(s) <= s.len(),
        forall|j: int| 0 <= j < digit_run(s) ==> is_digit_char(s[j]),
        digit_run(s) < s.len() ==> !is_digit_char(s[digit_run(s) as int]),
    decreases s.len(),
{
    if s.len() == 0 || !is_digit_char(s[0]) {
    } else {
        lemma_digit_run(s.skip(1));
        assert forall|j: int| 0 <= j < digit_run(s) implies is_digit_char(s[j]) by {
            if j > 0 {
                assert(s[j] == s.skip(1)[j - 1]);
            }
        }
        if digit_run(s) < s.len() {
            assert(s[digit_run(s) as int] == s.skip(1)[digit_run(s.skip(1)) as int]);
        }
    }
}

/// First index `>= from` holding `c`, or the length of `s` when `c` does not
/// occur at or after `from`.
pub fn find_char(s: &str, from: usize, c: char) -> (r: usize)
    requires
        from <= s@.len(),
    ensures
        from <= r <= s@.len(),
        r - from == char_pos(s@.skip(from as int), c),
        r < s@.len() ==> s@[r as int] == c,
        forall|j: int| from <= j < r ==> s@[j] != c,
{
    let n = s.unicode_len();
    let mut i = from;
    while i < n && s.get_char(i) != c
        invariant
            from <= i <= n,
            n == s@.len(),
            forall|j: int| from <= j < i ==> s@[j] != c,
        decreases n - i,
    {
        i += 1;
    }
    proof {
        lemma_char_pos(s@.skip(from as int), c);
        let sw = char_pos(s@.skip(from as int), c) as int;
        if from + sw < i {
            assert(s@.skip(from as int)[sw] == s@[from + sw]);
            assert(false);
        }
        if i < from + sw {
            assert(s@.skip(from as int)[i - from] == s@[i as int]);
            assert(false);
        }
    }
    i
}

/// First index `>= from` whose character is not a token character, or the
/// length of `s`.
pub fn token_end(s: &str, from: usize) -> (r: usize)
    requires
        from <= s@.len(),
    ensures
        from <= r <= s@.len(),
        r - from == token_run(s@.skip(from as int)),
{
    let n = s.unicode_len();
    let mut i = from;
    while i < n && token_char(s.get_char(i))
        invariant
            from <= i <= n,
            n == s@.len(),
            forall|j: int| from <= j < i ==> is_token_char(s@[j]),
        decreases n - i,
    {
        i += 1;
    }
    proof {
        lemma_token_run(s@.skip(from as int));
        let sw = token_run(s@.skip(from as int)) as int;
        if from + sw < i {
            assert(s@.skip(from as int)[sw] == s@[from + sw]);
            assert(false);
        }
        if i < from + sw {
            assert(s@.skip(from as int)[i - from] == s@[i as int]);
            assert(false);
        }
    }
    i
}

/// First index `>= from` whose character is not a decimal digit, or the
/// length of `s`.
pub fn digit_end(s: &str, from: usize) -> (r: usize)
    requires
        from <= s@.len(),
    ensures
        from <= r <= s@.len(),
        r - from == digit_run(s@.skip(from as int)),
{
    let n = s.unicode_len();
    let mut i = from;
    while i < n && digit_char(s.get_char(i))
        invariant
            from <= i <= n,
            n == s@.len(),
            forall|j: int| from <= j < i ==> is_digit_char(s@[j]),
        decreases n - i,
    {
        i += 1;
    }
    proof {
        lemma_digit_run(s@.skip(from as int));
        let sw = digit_run(s@.skip(from as int)) as int;
        if from + sw < i {
            assert(s@.skip(from as int)[sw] == s@[from + sw]);
            assert(false);
        }
        if i < from + sw {
            assert(s@.skip(from as int)[i - from] == s@[i as int]);
            assert(false);
        }
    }
    i
}

// ---------------------------------------------------------------------------
// Prefixes and substring search
// ---------------------------------------------------------------------------

/// `p` is a prefix of `s`.
pub open spec fn is_prefix(p: Seq<char>, s: Seq<char>) -> bool {
    p.len() <= s.len() && s.take(p.len() as int) == p
}

/// Whether `p@` occurs in `s@` starting at index `at`.
pub fn has_prefix_at(s: &str, at: usize, p: &str) -> (b: bool)
    requires
        at <= s@.len(),
    ensures
        b == is_prefix(p@, s@.skip(at as int)),
{
    let n = s.unicode_len();
    let m = p.unicode_len();
    if m > n - at {
        proof {
            assert(s@.skip(at as int).len() == n - at);
        }
        return false;
    }
    let mut i: usize = 0;
    while i < m && s.get_char(at + i) == p.get_char(i)
        invariant
            0 <= i <= m,
            m == p@.len(),
            n == s@.len(),
            at <= n,
            m <= n - at,
            forall|j: int| 0 <= j < i ==> s@[at + j] == p@[j],
        decreases m - i,
    {
        i += 1;
    }
    if i == m {
        proof {
            assert forall|j: int| 0 <= j < m implies s@.skip(at as int).take(m as int)[j] == p@[j] by {
                assert(s@.skip(at as int)[j] == s@[at + j]);
            }
            assert(s@.skip(at as int).take(m as int) =~= p@);
        }
        true
    } else {
        proof {
            if is_prefix(p@, s@.skip(at as int)) {
                assert(s@.skip(at as int).take(m as int)[i as int] == p@[i as int]);
                assert(s@.skip(at as int)[i as int] == s@[at + i]);
                assert(false);
            }
        }
        false
    }
}

/// Whether the pattern `p` occurs in `s` starting at index `i`.
pub open spec fn matches_at(s: Seq<char>, p: Seq<char>, i: int) -> bool {
    0 <= i && i + p.len() <= s.len() && s.subrange(i, i + p.len() as int) == p
}

/// Index of the leftmost occurrence of `p` in `s`, or `-1` when `p` does not
/// occur.
pub open spec fn find_pat(s: Seq<char>, p: Seq<char>) -> int
    decreases s.len(),
{
    if p.len() == 0 {
        0
    } else if s.len() < p.len() {
        -1
    } else if s.take(p.len() as int) == p {
        0
    } else {
        let r = find_pat(s.skip(1), p);
        if r < 0 {
            -1
        } else {
            r + 1
        }
    }
}

/// `find_pat` yields the leftmost occurrence of `p`, and `-1` exactly when
/// there is none.
pub proof fn lemma_find_pat(s: Seq<char>, p: Seq<char>)
    ensures
        find_pat(s, p) >= -1,
        find_pat(s, p) == -1 ==> forall|i: int| !matches_at(s, p, i),
        find_pat(s, p) >= 0 ==> matches_at(s, p, find_pat(s, p)) && (forall|i: int|
            0 <= i < find_pat(s, p) ==> !matches_at(s, p, i)),
    decreases s.len(),
{
    if p.len() == 0 {
        assert(s.subrange(0, 0) =~= p);
    } else if s.len() < p.len() {
    } else if s.take(p.len() as int) == p {
        assert(s.subrange(0, p.len() as int) == s.take(p.len() as int));
    } else {
        lemma_find_pat(s.skip(1), p);
        assert forall|i: int| 0 <= i implies matches_at(s, p, i + 1) == matches_at(
            s.skip(1),
            p,
            i,
        ) by {
            if i + 1 + p.len() <= s.len() {
                assert(s.subrange(i + 1, i + 1 + p.len() as int) =~= s.skip(1).subrange(
                    i,
                    i + p.len() as int,
                ));
            }
        }
        assert(!matches_at(s, p, 0)) by {
            assert(s.subrange(0, p.len() as int) == s.take(p.len() as int));
        }
        let r = find_pat(s.skip(1), p);
        if r < 0 {
            assert forall|i: int| !matches_at(s, p, i) by {
                if i >= 1 {
                    assert(!matches_at(s.skip(1), p, i - 1));
                    assert(matches_at(s, p, i) == matches_at(s.skip(1), p, i - 1));
                }
            }
        } else {
            assert(matches_at(s, p, r + 1) == matches_at(s.skip(1), p, r));
            assert forall|i: int| 0 <= i < r + 1 implies !matches_at(s, p, i) by {
                if i >= 1 {
                    assert(matches_at(s, p, i) == matches_at(s.skip(1), p, i - 1));
                }
            }
        }
    }
}

/// Index of the leftmost occurrence of `p` in `s`, or `None` when `p` does
/// not occur.
pub fn find_substr(s: &str, p: &str) -> (r: Option<usize>)
    ensures
        match r {
            Some(i) => find_pat(s@, p@) == i,
            None => find_pat(s@, p@) == -1,
        },
{
    let n = s.unicode_len();
    let m = p.unicode_len();
    if m == 0 {
        return Some(0);
    }
    if m > n {
        proof {
            lemma_find_pat(s@, p@);
            if find_pat(s@, p@) >= 0 {
                assert(matches_at(s@, p@, find_pat(s@, p@)));
            }
        }
        return None;
    }
    let mut i: usize = 0;
    while i <= n - m
        invariant
            0 <= i <= n - m + 1,
            1 <= m <= n,
            n == s@.len(),
            m == p@.len(),
            forall|j: int| 0 <= j < i ==> !matches_at(s@, p@, j),
        decreases n - i,
    {
        if has_prefix_at(s, i, p) {
            proof {
                assert(s@.skip(i as int).take(m as int) =~= s@.subrange(i as int, i + m));
                assert(matches_at(s@, p@, i as int));
                lemma_find_pat(s@, p@);
            }
            return Some(i);
        }
        proof {
            assert(s@.skip(i as int).take(m as int) =~= s@.subrange(i as int, i + m));
        }
        i += 1;
    }
    proof {
        lemma_find_pat(s@, p@);
        if find_pat(s@, p@) >= 0 {
            assert(matches_at(s@, p@, find_pat(s@, p@)));
        }
    }
    None
}

// ---------------------------------------------------------------------------
// Decimal digit runs as numbers
// ---------------------------------------------------------------------------

/// The number denoted by a sequence of decimal digits, most significant
/// first.
pub open spec fn digits_val(s: Seq<char>) -> int
    decreases s.len(),
{
    if s.len() == 0 {
        0
    } else {
        digits_val(s.drop_last()) * 10 + (s.last() as int - 48)
    }
}

pub proof fn lemma_digits_val_nonneg(s: Seq<char>)
    requires
        forall|j: int| 0 <= j < s.len() ==> is_digit_char(s[j]),
    ensures
        0 <= digits_val(s),
    decreases s.len(),
{
    if s.len() > 0 {
        lemma_digits_val_nonneg(s.drop_last());
    }
}

/// Extending a digit run by one digit multiplies its value by ten and adds
/// the digit.
pub proof fn lemma_digits_val_extend(s: Seq<char>, k: int)
    requires
        0 <= k < s.len(),
    ensures
        digits_val(s.take(k + 1)) == digits_val(s.take(k)) * 10 + (s[k] as int - 48),
{
    assert(s.take(k + 1).drop_last() =~= s.take(k));
    assert(s.take(k + 1).last() == s[k]);
}

/// A digit run is worth at least as much as any of its prefixes.
pub proof fn lemma_digits_val_grow(s: Seq<char>, k: int)
    requires
        0 <= k <= s.len(),
        forall|j: int| 0 <= j < s.len() ==> is_digit_char(s[j]),
    ensures
        digits_val(s) >= digits_val(s.take(k)),
    decreases s.len() - k,
{
    if k == s.len() {
        assert(s.take(k) =~= s);
    } else {
        lemma_digits_val_extend(s, k);
        assert(forall|j: int| 0 <= j < s.take(k).len() ==> is_digit_char(s.take(k)[j]));
        lemma_digits_val_nonneg(s.take(k));
        lemma_digits_val_grow(s, k + 1);
    }
}

/// Reads the digit run `s[from..to]` as a `u64`; `None` exactly when the
/// value does not fit.
pub fn parse_u64_digits(s: &str, from: usize, to: usize) -> (r: Option<u64>)
    requires
        from <= to <= s@.len(),
        forall|j: int| from <= j < to ==> is_digit_char(s@[j]),
    ensures
        match r {
            Some(v) => v as int == digits_val(s@.subrange(from as int, to as int)),
            None => digits_val(s@.subrange(from as int, to as int)) > u64::MAX,
        },
{
    let ghost whole = s@.subrange(from as int, to as int);
    proof {
        assert(whole.len() == to - from);
        assert(forall|j: int| 0 <= j < whole.len() ==> is_digit_char(#[trigger] whole[j]));
    }
    let mut acc: u64 = 0;
    let mut i = from;
    while i < to
        invariant
            from <= i <= to <= s@.len(),
            whole == s@.subrange(from as int, to as int),
            whole.len() == to - from,
            forall|j: int| from <= j < to ==> is_digit_char(s@[j]),
            forall|j: int| 0 <= j < whole.len() ==> is_digit_char(#[trigger] whole[j]),
            acc as int == digits_val(s@.subrange(from as int, i as int)),
        decreases to - i,
    {
        let c = s.get_char(i);
        proof {
            assert(is_digit_char(s@[i as int]));
        }
        let d = (c as u32 - 48) as u64;
        let step = acc.checked_mul(10);
        proof {
            assert(s@.subrange(from as int, i + 1).drop_last() =~= s@.subrange(
                from as int,
                i as int,
            ));
            assert(s@.subrange(from as int, i + 1).last() == s@[i as int]);
        }
        match step {
            Some(v) => {
                match v.checked_add(d) {
                    Some(w) => {
                        acc = w;
                        i += 1;
                    },
                    None => {
                        proof {
                            lemma_digits_val_grow(whole, i + 1 - from);
                            assert(whole.take(i + 1 - from) =~= s@.subrange(from as int, i + 1));
                        }
                        return None;
                    },
                }
            },
            None => {
                proof {
                    lemma_digits_val_grow(whole, i + 1 - from);
                    assert(whole.take(i + 1 - from) =~= s@.subrange(from as int, i + 1));
                }
                return None;
            },
        }
    }
    proof {
        assert(s@.subrange(from as int, to as int) =~= s@.subrange(from as int, i as int));
    }
    Some(acc)
}

// ---------------------------------------------------------------------------
// Name normalization and the prefix-match policy
// ---------------------------------------------------------------------------

/// The canonical element identifier derived from a raw pad or element token:
/// the substring before the first underscore. The reduction is deliberately
/// lossy; distinct raw tokens may share one canonical identifier, and the
/// correlation policy relies on that.
pub open spec fn normalize_spec(s: Seq<char>) -> Seq<char> {
    s.take(char_pos(s, '_') as int)
}

/// Derives the canonical element identifier from a raw pad or element token
/// by taking the substring before the first underscore.
pub fn extract_element_name(pad_name: &str) -> (r: String)
    ensures
        r@ == normalize_spec(pad_name@),
{
    proof {
        assert(pad_name@.skip(0) =~= pad_name@);
        lemma_char_pos(pad_name@, '_');
    }
    let e = find_char(pad_name, 0, '_');
    let cut = pad_name.substring_char(0, e);
    proof {
        assert(pad_name@.subrange(0, e as int) == pad_name@.take(e as int));
    }
    cut.to_owned()
}

/// The entity-matching policy: a graph entity named `entity` matches a raw
/// log token `raw` when `entity` is a prefix of the normalized form of
/// `raw`.
pub open spec fn prefix_match_spec(entity: Seq<char>, raw: Seq<char>) -> bool {
    is_prefix(entity, normalize_spec(raw))
}

/// Decides whether the entity named `entity_id` matches the raw log token
/// `raw` under the name-prefix policy.
pub fn prefix_match(entity_id: &str, raw: &str) -> (b: bool)
    ensures
        b == prefix_match_spec(entity_id@, raw@),
{
    let norm = extract_element_name(raw);
    let b = has_prefix_at(norm.as_str(), 0, entity_id);
    proof {
        assert(norm@.skip(0) =~= norm@);
    }
    b
}

// ---------------------------------------------------------------------------
// Whitespace runs and trimming
// ---------------------------------------------------------------------------

/// Length of the leading run of whitespace.
pub open spec fn ws_run(s: Seq<char>) -> nat
    decreases s.len(),
{
    if s.len() == 0 {
        0
    } else if !is_ws_char(s[0]) {
        0
    } else {
        1 + ws_run(s.skip(1))
    }
}

pub proof fn lemma_ws_run(s: Seq<char>)
    ensures
        ws_run(s) <= s.len(),
        forall|j: int| 0 <= j < ws_run(s) ==> is_ws_char(s[j]),
        ws_run(s) < s.len() ==> !is_ws_char(s[ws_run(s) as int]),
    decreases s.len(),
{
    if s.len() == 0 || !is_ws_char(s[0]) {
    } else {
        lemma_ws_run(s.skip(1));
        assert forall|j: int| 0 <= j < ws_run(s) implies is_ws_char(s[j]) by {
            if j > 0 {
                assert(s[j] == s.skip(1)[j - 1]);
            }
        }
        if ws_run(s) < s.len() {
            assert(s[ws_run(s) as int] == s.skip(1)[ws_run(s.skip(1)) as int]);
        }
    }
}

/// Index of the first whitespace character, or the length of `s` when there
/// is none.
pub open spec fn ws_pos(s: Seq<char>) -> nat
    decreases s.len(),
{
    if s.len() == 0 {
        0
    } else if is_ws_char(s[0]) {
        0
    } else {
        1 + ws_pos(s.skip(1))
    }
}

pub proof fn lemma_ws_pos(s: Seq<char>)
    ensures
        ws_pos(s) <= s.len(),
        forall|j: int| 0 <= j < ws_pos(s) ==> !is_ws_char(s[j]),
        ws_pos(s) < s.len() ==> is_ws_char(s[ws_pos(s) as int]),
    decreases s.len(),
{
    if s.len() == 0 || is_ws_char(s[0]) {
    } else {
        lemma_ws_pos(s.skip(1));
        assert forall|j: int| 0 <= j < ws_pos(s) implies !is_ws_char(s[j]) by {
            if j > 0 {
                assert(s[j] == s.skip(1)[j - 1]);
            }
        }
        if ws_pos(s) < s.len() {
            assert(s[ws_pos(s) as int] == s.skip(1)[ws_pos(s.skip(1)) as int]);
        }
    }
}

/// Length of the trailing run of whitespace.
pub open spec fn rtrim_len(s: Seq<char>) -> nat
    decreases s.len(),
{
    if s.len() == 0 {
        0
    } else if !is_ws_char(s.last()) {
        0
    } else {
        1 + rtrim_len(s.drop_last())
    }
}

pub proof fn lemma_rtrim_len(s: Seq<char>)
    ensures
        rtrim_len(s) <= s.len(),
        forall|j: int| s.len() - rtrim_len(s) <= j < s.len() ==> is_ws_char(s[j]),
        rtrim_len(s) < s.len() ==> !is_ws_char(s[s.len() - rtrim_len(s) - 1]),
    decreases s.len(),
{
    if s.len() == 0 || !is_ws_char(s.last()) {
    } else {
        lemma_rtrim_len(s.drop_last());
        assert forall|j: int| s.len() - rtrim_len(s) <= j < s.len() implies is_ws_char(s[j]) by {
            if j < s.len() - 1 {
                assert(s[j] == s.drop_last()[j]);
            }
        }
        if rtrim_len(s) < s.len() {
            assert(s[s.len() - rtrim_len(s) - 1] == s.drop_last()[s.drop_last().len() - rtrim_len(
                s.drop_last(),
            ) - 1]);
        }
    }
}

/// The trimmed core of `s`: what is left after removing leading and trailing
/// whitespace.
pub open spec fn trim_spec(s: Seq<char>) -> Seq<char> {
    if ws_run(s) == s.len() {
        Seq::empty()
    } else {
        s.subrange(ws_run(s) as int, s.len() - rtrim_len(s))
    }
}

/// First index `>= from` whose character is not whitespace, or the length of
/// `s`.
pub fn ws_end(s: &str, from: usize) -> (r: usize)
    requires
        from <= s@.len(),
    ensures
        from <= r <= s@.len(),
        r - from == ws_run(s@.skip(from as int)),
{
    let n = s.unicode_len();
    let mut i = from;
    while i < n && ws_char(s.get_char(i))
        invariant
            from <= i <= n,
            n == s@.len(),
            forall|j: int| from <= j < i ==> is_ws_char(s@[j]),
        decreases n - i,
    {
        i += 1;
    }
    proof {
        lemma_ws_run(s@.skip(from as int));
        let sw = ws_run(s@.skip(from as int)) as int;
        if from + sw < i {
            assert(s@.skip(from as int)[sw] == s@[from + sw]);
            assert(false);
        }
        if i < from + sw {
            assert(s@.skip(from as int)[i - from] == s@[i as int]);
            assert(false);
        }
    }
    i
}

/// First index `>= from` whose character is whitespace, or the length of
/// `s`.
pub fn word_end(s: &str, from: usize) -> (r: usize)
    requires
        from <= s@.len(),
    ensures
        from <= r <= s@.len(),
        r - from == ws_pos(s@.skip(from as int)),
{
    let n = s.unicode_len();
    let mut i = from;
    while i < n && !ws_char(s.get_char(i))
        invariant
            from <= i <= n,
            n == s@.len(),
            forall|j: int| from <= j < i ==> !is_ws_char(s@[j]),
        decreases n - i,
    {
        i += 1;
    }
    proof {
        lemma_ws_pos(s@.skip(from as int));
        let sw = ws_pos(s@.skip(from as int)) as int;
        if from + sw < i {
            assert(s@.skip(from as int)[sw] == s@[from + sw]);
            assert(false);
        }
        if i < from + sw {
            assert(s@.skip(from as int)[i - from] == s@[i as int]);
            assert(false);
        }
    }
    i
}

/// Index just past the last non-whitespace character of `s`, or `0` when `s`
/// is all whitespace.
pub fn rtrim_point(s: &str) -> (r: usize)
    ensures
        r <= s@.len(),
        r == s@.len() - rtrim_len(s@),
{
    let n = s.unicode_len();
    let mut i = n;
    while i > 0 && ws_char(s.get_char(i - 1))
        invariant
            0 <= i <= n,
            n == s@.len(),
            forall|j: int| i <= j < n ==> is_ws_char(s@[j]),
        decreases i,
    {
        i -= 1;
    }
    proof {
        lemma_rtrim_len(s@);
        let p = s@.len() - rtrim_len(s@);
        if i > p {
            assert(is_ws_char(s@[i - 1]));
            assert(false);
        }
        if i < p {
            assert(is_ws_char(s@[p - 1]));
            assert(false);
        }
    }
    i
}

} // verus!
