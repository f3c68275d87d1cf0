use vstd::prelude::*;

verus! {

// ---------------------------------------------------------------------------
// Decimal numbers
// ---------------------------------------------------------------------------

/// The ASCII digit for `d` (for `d < 10`).
pub open spec fn digit_char(d: nat) -> char {
    (48 + d) as char
}

/// The decimal representation of `n`, without sign or leading zeros, as
/// `format!("{}", n)` writes it.
pub open spec fn decimal(n: nat) -> Seq<char>
    decreases n,
{
    if n < 10 {
        seq![digit_char(n)]
    } else {
        decimal(n / 10).push(digit_char(n % 10))
    }
}

pub open spec fn is_digit(c: char) -> bool {
    48 <= c as int <= 57
}

pub open spec fn digit_value(c: char) -> nat {
    (c as int - 48) as nat
}

pub open spec fn all_digits(s: Seq<char>) -> bool {
    forall|i: int| 0 <= i < s.len() ==> is_digit(#[trigger] s[i])
}

/// The number that a string of decimal digits denotes (leading zeros allowed).
pub open spec fn digits_value(s: Seq<char>) -> nat
    decreases s.len(),
{
    if s.len() == 0 {
        0
    } else {
        digits_value(s.drop_last()) * 10 + digit_value(s.last())
    }
}

/// The digits of an unsigned number in text: a single leading `+` is allowed.
pub open spec fn unsigned_digits(s: Seq<char>) -> Seq<char> {
    if s.len() > 0 && s[0] == '+' {
        s.drop_first()
    } else {
        s
    }
}

/// What parsing `s` as an unsigned integer type whose largest value is `max`
/// gives (the rules of `str::parse` for unsigned integers): an optional `+`,
/// then at least one decimal digit and nothing else, and a value that fits.
pub open spec fn parse_unsigned(s: Seq<char>, max: nat) -> Option<nat> {
    let d = unsigned_digits(s);
    if d.len() > 0 && all_digits(d) && digits_value(d) <= max {
        Some(digits_value(d))
    } else {
        None
    }
}

/// Bytes read as text, one character per byte. For the questions asked here
/// (is a byte a digit or a `+`) this agrees with a lossy UTF-8 decoding: a
/// byte that is not ASCII is neither in any decoding.
pub open spec fn bytes_as_chars(b: Seq<u8>) -> Seq<char> {
    b.map_values(|x: u8| x as char)
}

/// Text written as bytes, for characters that are ASCII.
pub open spec fn chars_as_bytes(s: Seq<char>) -> Seq<u8> {
    s.map_values(|c: char| c as u8)
}

pub proof fn lemma_digit_char(d: nat)
    requires
        d < 10,
    ensures
        is_digit(digit_char(d)),
        digit_value(digit_char(d)) == d,
        digit_char(d) != '+',
        digit_char(d) as u8 == 48 + d,
{
    assert(((48 + d) as char) as int == 48 + d);
}

pub proof fn lemma_decimal_digits(n: nat)
    ensures
        all_digits(decimal(n)),
        decimal(n).len() >= 1,
        digits_value(decimal(n)) == n,
        decimal(n)[0] != '+',
    decreases n,
{
    lemma_digit_char(n % 10);
    if n < 10 {
        assert(decimal(n) == seq![digit_char(n)]);
        assert(seq![digit_char(n)].drop_last().len() == 0);
        assert(digits_value(decimal(n)) == digits_value(decimal(n).drop_last()) * 10 + digit_value(
            digit_char(n),
        ));
    } else {
        lemma_decimal_digits(n / 10);
        let s = decimal(n / 10).push(digit_char(n % 10));
        assert(s.drop_last() == decimal(n / 10));
        assert forall|i: int| 0 <= i < s.len() implies is_digit(#[trigger] s[i]) by {
            if i < s.len() - 1 {
                assert(s[i] == decimal(n / 10)[i]);
            }
        }
    }
}

/// Decimal text read back gives the number: parsing inverts formatting.
pub proof fn lemma_parse_decimal(n: nat, max: nat)
    requires
        n <= max,
    ensures
        parse_unsigned(decimal(n), max) == Some(n),
{
    lemma_decimal_digits(n);
}

/// The one-character text of a digit.
fn digit_str(d: u32) -> (s: &'static str)
    requires
        d < 10,
    ensures
        s@ == seq![digit_char(d as nat)],
{
    match d {
        0 => {
            proof {
                reveal_strlit("0");
            }
            "0"
        },
        1 => {
            proof {
                reveal_strlit("1");
            }
            "1"
        },
        2 => {
            proof {
                reveal_strlit("2");
            }
            "2"
        },
        3 => {
            proof {
                reveal_strlit("3");
            }
            "3"
        },
        4 => {
            proof {
                reveal_strlit("4");
            }
            "4"
        },
        5 => {
            proof {
                reveal_strlit("5");
            }
            "5"
        },
        6 => {
            proof {
                reveal_strlit("6");
            }
            "6"
        },
        7 => {
            proof {
                reveal_strlit("7");
            }
            "7"
        },
        8 => {
            proof {
                reveal_strlit("8");
            }
            "8"
        },
        _ => {
            proof {
                reveal_strlit("9");
            }
            "9"
        },
    }
}

/// Appends the decimal text of `n` to `s`.
pub fn push_decimal(s: &mut String, n: u32)
    ensures
        final(s)@ == old(s)@ + decimal(n as nat),
    decreases n,
{
    if n < 10 {
        s.append(digit_str(n));
    } else {
        push_decimal(s, n / 10);
        s.append(digit_str(n % 10));
        assert(decimal(n as nat) == decimal((n / 10) as nat).push(digit_char((n % 10) as nat)));
    }
}

/// Appends a literal piece of text to `s`.
pub fn push_str(s: &mut String, piece: &str)
    ensures
        final(s)@ == old(s)@ + piece@,
{
    s.append(piece);
}

/// Parses `s` as an unsigned number no larger than `max`, with the rules of
/// `str::parse` for unsigned integers.
pub fn parse_unsigned_chars(s: &Vec<char>, max: u32) -> (r: Option<u32>)
    ensures
        match parse_unsigned(s@, max as nat) {
            Some(v) => r == Some(v as u32),
            None => r is None,
        },
{
    let n = s.len();
    let mut start: usize = 0;
    if n > 0 && s[0] == '+' {
        start = 1;
    }
    if start == n {
        return None;
    }
    let ghost d = unsigned_digits(s@);
    assert(d == s@.subrange(start as int, n as int));
    let mut val: u64 = 0;
    let mut i: usize = start;
    while i < n
        invariant
            start <= i <= n,
            n == s@.len(),
            d == s@.subrange(start as int, n as int),
            d == unsigned_digits(s@),
            all_digits(d.subrange(0, i - start)),
            digits_value(d.subrange(0, i - start)) <= max ==> val == digits_value(
                d.subrange(0, i - start),
            ),
            digits_value(d.subrange(0, i - start)) > max ==> val > max,
            val <= (max as u64) * 10 + 9,
        decreases n - i,
    {
        let c = s[i];
        if c < '0' || c > '9' {
            assert(d[i - start] == c);
            assert(!is_digit(d[i - start]));
            return None;
        }
        let ghost prev = d.subrange(0, i - start);
        let ghost next = d.subrange(0, i + 1 - start);
        assert(next.drop_last() == prev);
        assert(next.last() == c);
        assert forall|j: int| 0 <= j < next.len() implies is_digit(#[trigger] next[j]) by {
            if j < prev.len() {
                assert(next[j] == prev[j]);
            }
        }
        if val <= max as u64 {
            val = val * 10 + (c as u64 - 48);
        }
        i = i + 1;
    }
    assert(d.subrange(0, n - start) == d);
    if val <= max as u64 {
        Some(val as u32)
    } else {
        None
    }
}

/// The bytes of `b`, one character each.
pub fn bytes_to_chars(b: &[u8]) -> (v: Vec<char>)
    ensures
        v@ == bytes_as_chars(b@),
{
    let mut v: Vec<char> = Vec::new();
    let mut i: usize = 0;
    while i < b.len()
        invariant
            i <= b@.len(),
            v@ == bytes_as_chars(b@.subrange(0, i as int)),
        decreases b@.len() - i,
    {
        v.push(b[i] as char);
        i = i + 1;
        assert(bytes_as_chars(b@.subrange(0, i as int)) =~= bytes_as_chars(
            b@.subrange(0, i - 1),
        ).push(b@[i - 1] as char));
    }
    assert(b@.subrange(0, b@.len() as int) == b@);
    v
}

// ---------------------------------------------------------------------------
// Words
// ---------------------------------------------------------------------------

/// The characters with the Unicode property `White_Space`, the ones that
/// `char::is_whitespace` accepts.
pub open spec fn is_whitespace(c: char) -> bool {
    let u = c as int;
    ||| 9 <= u <= 13
    ||| u == 32
    ||| u == 0x85
    ||| u == 0xA0
    ||| u == 0x1680
    ||| 0x2000 <= u <= 0x200A
    ||| u == 0x2028
    ||| u == 0x2029
    ||| u == 0x202F
    ||| u == 0x205F
    ||| u == 0x3000
}

pub fn is_whitespace_char(c: char) -> (r: bool)
    ensures
        r == is_whitespace(c),
{
    ('\u{9}' <= c && c <= '\u{D}') || c == ' ' || c == '\u{85}' || c == '\u{A0}' || c == '\u{1680}'
        || ('\u{2000}' <= c && c <= '\u{200A}') || c == '\u{2028}' || c == '\u{2029}' || c
        == '\u{202F}' || c == '\u{205F}' || c == '\u{3000}'
}

/// How many characters at the front of `s` are not whitespace.
pub open spec fn word_len(s: Seq<char>) -> nat
    decreases s.len(),
{
    if s.len() == 0 || is_whitespace(s[0]) {
        0
    } else {
        1 + word_len(s.drop_first())
    }
}

pub proof fn lemma_word_len_bound(s: Seq<char>)
    ensures
        word_len(s) <= s.len(),
        s.len() > 0 && !is_whitespace(s[0]) ==> word_len(s) >= 1,
    decreases s.len(),
{
    if s.len() > 0 && !is_whitespace(s[0]) {
        lemma_word_len_bound(s.drop_first());
    }
}

/// The words of `s`: its maximal runs of characters that are not whitespace,
/// in order, as `str::split_whitespace` gives them.
pub open spec fn words(s: Seq<char>) -> Seq<Seq<char>>
    decreases s.len(),
{
    if s.len() == 0 {
        seq![]
    } else if is_whitespace(s[0]) {
        words(s.drop_first())
    } else {
        proof {
            lemma_word_len_bound(s);
        }
        seq![s.take(word_len(s) as int)] + words(s.skip(word_len(s) as int))
    }
}

pub open spec fn no_whitespace(s: Seq<char>) -> bool {
    forall|i: int| 0 <= i < s.len() ==> !is_whitespace(#[trigger] s[i])
}

/// A word followed by whitespace or by nothing is read as one word.
pub proof fn lemma_word_len_of_word(w: Seq<char>, rest: Seq<char>)
    requires
        no_whitespace(w),
        rest.len() == 0 || is_whitespace(rest[0]),
    ensures
        word_len(w + rest) == w.len(),
    decreases w.len(),
{
    if w.len() > 0 {
        assert(!is_whitespace(w[0]));
        assert((w + rest).drop_first() == w.drop_first() + rest);
        lemma_word_len_of_word(w.drop_first(), rest);
    } else {
        assert(w + rest == rest);
    }
}

/// The words of a nonempty word followed by whitespace (or nothing) and more text.
pub proof fn lemma_words_of_word(w: Seq<char>, rest: Seq<char>)
    requires
        w.len() > 0,
        no_whitespace(w),
        rest.len() == 0 || is_whitespace(rest[0]),
    ensures
        words(w + rest) == seq![w] + words(rest),
{
    lemma_word_len_of_word(w, rest);
    let s = w + rest;
    assert(!is_whitespace(s[0]));
    assert(s.take(w.len() as int) == w);
    assert(s.skip(w.len() as int) == rest);
}

/// Leading whitespace does not change the words.
pub proof fn lemma_words_skip_space(c: char, rest: Seq<char>)
    requires
        is_whitespace(c),
    ensures
        words(seq![c] + rest) == words(rest),
{
    let s = seq![c] + rest;
    assert(s.drop_first() == rest);
}

/// Text made only of whitespace.
pub open spec fn all_whitespace(w: Seq<char>) -> bool {
    forall|i: int| 0 <= i < w.len() ==> is_whitespace(#[trigger] w[i])
}

/// A word stops where whitespace (or the end) comes.
proof fn lemma_word_len_before_space(a: Seq<char>, rest: Seq<char>)
    requires
        rest.len() == 0 || is_whitespace(rest[0]),
    ensures
        word_len(a + rest) == word_len(a),
    decreases a.len(),
{
    if a.len() == 0 {
        assert(a + rest == rest);
    } else {
        assert((a + rest)[0] == a[0]);
        if !is_whitespace(a[0]) {
            assert((a + rest).drop_first() == a.drop_first() + rest);
            lemma_word_len_before_space(a.drop_first(), rest);
        }
    }
}

/// Whitespace alone has no words, and leading whitespace changes no words.
pub proof fn lemma_words_after_space(w: Seq<char>, b: Seq<char>)
    requires
        all_whitespace(w),
    ensures
        words(w + b) == words(b),
    decreases w.len(),
{
    if w.len() == 0 {
        assert(w + b == b);
    } else {
        let s = w + b;
        assert(s[0] == w[0]);
        assert(s.drop_first() == w.drop_first() + b);
        lemma_words_after_space(w.drop_first(), b);
    }
}

/// The words of two texts joined by a nonempty run of whitespace are the
/// words of the first followed by the words of the second.
pub proof fn lemma_words_split_at_space(a: Seq<char>, w: Seq<char>, b: Seq<char>)
    requires
        w.len() > 0,
        all_whitespace(w),
    ensures
        words(a + w + b) == words(a) + words(b),
    decreases a.len(),
{
    let s = a + w + b;
    if a.len() == 0 {
        assert(s == w + b);
        lemma_words_after_space(w, b);
        assert(words(a) == Seq::<Seq<char>>::empty());
        assert(words(a) + words(b) == words(b));
    } else if is_whitespace(a[0]) {
        assert(s[0] == a[0]);
        assert(s.drop_first() == a.drop_first() + w + b);
        lemma_words_split_at_space(a.drop_first(), w, b);
    } else {
        assert(s[0] == a[0]);
        lemma_word_len_bound(a);
        assert(s == a + (w + b));
        lemma_word_len_before_space(a, w + b);
        let k = word_len(a) as int;
        assert(s.take(k) == a.take(k));
        assert(s.skip(k) == a.skip(k) + w + b);
        lemma_words_split_at_space(a.skip(k), w, b);
        assert(words(a) == seq![a.take(k)] + words(a.skip(k)));
        assert(words(s) == seq![s.take(k)] + words(s.skip(k)));
        assert(words(s) =~= words(a) + words(b));
    }
}

/// Replacing a nonempty run of whitespace by another one, or adding or
/// dropping whitespace at either end, leaves the words as they are.
pub proof fn lemma_words_whitespace_runs(
    a: Seq<char>,
    w1: Seq<char>,
    w2: Seq<char>,
    b: Seq<char>,
    lead: Seq<char>,
    trail: Seq<char>,
)
    requires
        w1.len() > 0,
        w2.len() > 0,
        all_whitespace(w1),
        all_whitespace(w2),
        all_whitespace(lead),
        all_whitespace(trail),
    ensures
        words(a + w1 + b) == words(a + w2 + b),
        words(lead + a + trail) == words(a),
{
    lemma_words_split_at_space(a, w1, b);
    lemma_words_split_at_space(a, w2, b);
    assert(lead + a + trail == lead + (a + trail));
    lemma_words_after_space(lead, a + trail);
    if trail.len() > 0 {
        assert(a + trail == a + trail + Seq::<char>::empty());
        lemma_words_split_at_space(a, trail, Seq::<char>::empty());
        assert(words(Seq::<char>::empty()) == Seq::<Seq<char>>::empty());
        assert(words(a) + words(Seq::<char>::empty()) == words(a));
    } else {
        assert(a + trail == a);
    }
}

/// Splits `s` into its words.
pub fn split_words(s: &Vec<char>) -> (r: Vec<Vec<char>>)
    ensures
        r@.len() == words(s@).len(),
        forall|i: int| 0 <= i < r@.len() ==> (#[trigger] r@[i])@ == words(s@)[i],
{
    let n = s.len();
    let mut r: Vec<Vec<char>> = Vec::new();
    let ghost mut done: Seq<Seq<char>> = seq![];
    let mut i: usize = 0;
    assert(s@.skip(0) == s@);
    while i < n
        invariant
            i <= n,
            n == s@.len(),
            words(s@) == done + words(s@.skip(i as int)),
            r@.len() == done.len(),
            forall|j: int| 0 <= j < r@.len() ==> (#[trigger] r@[j])@ == done[j],
        decreases n - i,
    {
        if is_whitespace_char(s[i]) {
            assert(s@.skip(i as int).drop_first() == s@.skip(i + 1));
            i = i + 1;
        } else {
            let start = i;
            let mut w: Vec<char> = Vec::new();
            while i < n && !is_whitespace_char(s[i])
                invariant
                    start <= i <= n,
                    n == s@.len(),
                    w@ == s@.subrange(start as int, i as int),
                    word_len(s@.skip(start as int)) == (i - start) + word_len(s@.skip(i as int)),
                decreases n - i,
            {
                assert(s@.skip(i as int).drop_first() == s@.skip(i + 1));
                w.push(s[i]);
                i = i + 1;
                assert(w@ == s@.subrange(start as int, i as int));
            }
            let ghost t = s@.skip(start as int);
            let ghost k = (i - start) as int;
            assert(word_len(s@.skip(i as int)) == 0);
            assert(t.take(k) == w@);
            assert(t.skip(k) == s@.skip(i as int));
            assert(words(t) == seq![w@] + words(s@.skip(i as int)));
            proof {
                done = done.push(w@);
            }
            r.push(w);
        }
    }
    assert(words(s@.skip(n as int)) == Seq::<Seq<char>>::empty());
    assert(done + Seq::<Seq<char>>::empty() == done);
    r
}

/// Whether `a` and `b` hold the same characters.
pub fn same_chars(a: &Vec<char>, b: &Vec<char>) -> (r: bool)
    ensures
        r == (a@ == b@),
{
    if a.len() != b.len() {
        return false;
    }
    let mut i: usize = 0;
    while i < a.len()
        invariant
            i <= a@.len(),
            a@.len() == b@.len(),
            forall|j: int| 0 <= j < i ==> a@[j] == b@[j],
        decreases a@.len() - i,
    {
        if a[i] != b[i] {
            return false;
        }
        i = i + 1;
    }
    assert(a@ == b@);
    true
}

/// The characters of `s`, in order.
pub fn chars_of(s: &str) -> (v: Vec<char>)
    ensures
        v@ == s@,
{
    let n = s.unicode_len();
    let mut v: Vec<char> = Vec::new();
    let mut i: usize = 0;
    while i < n
        invariant
            i <= n,
            n == s@.len(),
            v@ == s@.subrange(0, i as int),
        decreases n - i,
    {
        v.push(s.get_char(i));
        i = i + 1;
        assert(v@ == s@.subrange(0, i as int));
    }
    assert(s@.subrange(0, n as int) == s@);
    v
}

// ---------------------------------------------------------------------------
// Debug text of lists and maps of numbers
// ---------------------------------------------------------------------------

/// The items of `v`, separated by `", "`.
pub open spec fn list_body(v: Seq<u32>) -> Seq<char>
    decreases v.len(),
{
    if v.len() == 0 {
        seq![]
    } else if v.len() == 1 {
        decimal(v[0] as nat)
    } else {
        list_body(v.drop_last()) + seq![',', ' '] + decimal(v.last() as nat)
    }
}

/// `format!("{:?}", v)` for a vector of numbers: `[1, 2, 3]`.
pub open spec fn list_text(v: Seq<u32>) -> Seq<char> {
    seq!['['] + list_body(v) + seq![']']
}

/// One entry of a map in debug text: `key: value`.
pub open spec fn entry_text(e: (u32, u32)) -> Seq<char> {
    decimal(e.0 as nat) + seq![':', ' '] + decimal(e.1 as nat)
}

/// The entries `v`, separated by `", "`.
pub open spec fn entries_body(v: Seq<(u32, u32)>) -> Seq<char>
    decreases v.len(),
{
    if v.len() == 0 {
        seq![]
    } else if v.len() == 1 {
        entry_text(v[0])
    } else {
        entries_body(v.drop_last()) + seq![',', ' '] + entry_text(v.last())
    }
}

/// `format!("{:?}", m)` for a map whose entries come in the order `v`:
/// `{1: 0, 2: 3}`.
pub open spec fn entries_text(v: Seq<(u32, u32)>) -> Seq<char> {
    seq!['{'] + entries_body(v) + seq!['}']
}

/// Appends the debug text of `v` to `s`.
pub fn push_list(s: &mut String, v: &Vec<u32>)
    ensures
        final(s)@ == old(s)@ + list_text(v@),
{
    proof {
        reveal_strlit("[");
        reveal_strlit("]");
        reveal_strlit(", ");
    }
    push_str(s, "[");
    let ghost start = s@;
    let mut i: usize = 0;
    while i < v.len()
        invariant
            i <= v@.len(),
            s@ == start + list_body(v@.take(i as int)),
        decreases v@.len() - i,
    {
        assert(v@.take(i + 1).drop_last() == v@.take(i as int));
        assert(v@.take(i + 1).last() == v@[i as int]);
        let ghost prev = s@;
        if i > 0 {
            proof {
                reveal_strlit(", ");
            }
            push_str(s, ", ");
            push_decimal(s, v[i]);
            assert(s@ =~= prev + seq![',', ' '] + decimal(v@[i as int] as nat));
        } else {
            assert(v@.take(0).len() == 0);
            assert(list_body(v@.take(0)) == Seq::<char>::empty());
            push_decimal(s, v[i]);
            assert(v@.take(1).len() == 1);
        }
        i = i + 1;
        assert(s@ =~= start + list_body(v@.take(i as int)));
    }
    assert(v@.take(v@.len() as int) == v@);
    push_str(s, "]");
    assert(s@ =~= old(s)@ + list_text(v@));
}

} // verus!
