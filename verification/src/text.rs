//! Text as a sequence of characters: splitting, trimming, numbers and order.

use vstd::prelude::*;

verus! {

/// `String::push`: appends the given character to the end of the string.
pub assume_specification[ String::push ](s: &mut String, c: char)
    ensures
        final(s)@ == old(s)@.push(c),
;

// ─── meaning ────────────────────────────────────────────────────────────────
/// White space in the sense of the Unicode property of that name.
pub open spec fn white(c: char) -> bool {
    let n = c as int;
    ||| 0x09 <= n <= 0x0d
    ||| n == 0x20
    ||| n == 0x85
    ||| n == 0xa0
    ||| n == 0x1680
    ||| 0x2000 <= n <= 0x200a
    ||| n == 0x2028
    ||| n == 0x2029
    ||| n == 0x202f
    ||| n == 0x205f
    ||| n == 0x3000
}

/// `s` without the white space in front.
pub open spec fn trim_start(s: Seq<char>) -> Seq<char>
    decreases s.len(),
{
    if s.len() > 0 && white(s[0]) {
        trim_start(s.drop_first())
    } else {
        s
    }
}

/// `s` without the white space at the end.
pub open spec fn trim_end(s: Seq<char>) -> Seq<char>
    decreases s.len(),
{
    if s.len() > 0 && white(s.last()) {
        trim_end(s.drop_last())
    } else {
        s
    }
}

/// `s` without the white space at either end.
pub open spec fn trimmed(s: Seq<char>) -> Seq<char> {
    trim_end(trim_start(s))
}

/// How many characters stand before the first white space of `s`.
pub open spec fn word_len(s: Seq<char>) -> nat
    decreases s.len(),
{
    if s.len() > 0 && !white(s[0]) {
        1 + word_len(s.drop_first())
    } else {
        0
    }
}

/// The first run of characters that are not white space, if there is one.
pub open spec fn first_word_of(s: Seq<char>) -> Option<Seq<char>> {
    let rest = trim_start(s);
    if rest.len() == 0 {
        None
    } else {
        Some(rest.take(word_len(rest) as int))
    }
}

/// How many characters stand before the first `c` in `s`: all of them when it
/// does not occur.
pub open spec fn before(s: Seq<char>, c: char) -> nat
    decreases s.len(),
{
    if s.len() == 0 || s[0] == c {
        0
    } else {
        1 + before(s.drop_first(), c)
    }
}

/// `s` without one carriage return at its end.
pub open spec fn without_cr(s: Seq<char>) -> Seq<char> {
    if s.len() > 0 && s.last() == '\r' {
        s.drop_last()
    } else {
        s
    }
}

/// The lines of `s`. A line ends with a line feed, or with a carriage return
/// and a line feed; the last line may lack its end.
pub open spec fn lines_of(s: Seq<char>) -> Seq<Seq<char>>
    decreases s.len(),
{
    if s.len() == 0 {
        seq![]
    } else {
        let n = before(s, '\n') as int;
        if n < s.len() {
            seq![without_cr(s.take(n))] + lines_of(s.skip(n + 1))
        } else {
            seq![s]
        }
    }
}

/// The pieces of `s` between the occurrences of `sep`, empty ones included.
pub open spec fn pieces_of(s: Seq<char>, sep: char) -> Seq<Seq<char>>
    decreases s.len(),
{
    let n = before(s, sep) as int;
    if n < s.len() {
        seq![s.take(n)] + pieces_of(s.skip(n + 1), sep)
    } else {
        seq![s]
    }
}

/// The characters of each string.
pub open spec fn texts(v: Seq<String>) -> Seq<Seq<char>> {
    Seq::new(v.len(), |i: int| v[i]@)
}

/// The characters of an optional string.
pub open spec fn text_opt(s: Option<String>) -> Option<Seq<char>> {
    match s {
        Some(t) => Some(t@),
        None => None,
    }
}

pub open spec fn is_digit(c: char) -> bool {
    48 <= c as int <= 57
}

/// What a decimal digit stands for.
pub open spec fn digit_value(c: char) -> nat {
    (c as int - 48) as nat
}

/// What a row of decimal digits stands for.
pub open spec fn digits_value(s: Seq<char>) -> nat
    decreases s.len(),
{
    if s.len() == 0 {
        0
    } else {
        digits_value(s.drop_last()) * 10 + digit_value(s.last())
    }
}

pub open spec fn all_digits(s: Seq<char>) -> bool {
    forall|i: int| 0 <= i < s.len() ==> is_digit(#[trigger] s[i])
}

/// `s` without one plus sign in front.
pub open spec fn without_plus(s: Seq<char>) -> Seq<char> {
    if s.len() > 0 && s[0] == '+' {
        s.skip(1)
    } else {
        s
    }
}

/// The number at most `max` that `s` spells: decimal digits, with a plus sign
/// in front or without.
pub open spec fn number_of(s: Seq<char>, max: nat) -> Option<nat> {
    let body = without_plus(s);
    if body.len() > 0 && all_digits(body) && digits_value(body) <= max {
        Some(digits_value(body))
    } else {
        None
    }
}

pub open spec fn digit_char(d: nat) -> char {
    (48 + d) as char
}

/// `n` in decimal, without leading zeros.
pub open spec fn decimal(n: nat) -> Seq<char>
    decreases n,
{
    if n < 10 {
        seq![digit_char(n)]
    } else {
        decimal(n / 10).push(digit_char(n % 10))
    }
}

pub open spec fn spaces(n: int) -> Seq<char> {
    Seq::new(
        if n > 0 {
            n as nat
        } else {
            0
        },
        |i: int| ' ',
    )
}

/// `s` in a column of `width` characters, flush left.
pub open spec fn flush_left(s: Seq<char>, width: nat) -> Seq<char> {
    s + spaces(width - s.len())
}

/// `s` in a column of `width` characters, flush right.
pub open spec fn flush_right(s: Seq<char>, width: nat) -> Seq<char> {
    spaces(width - s.len()) + s
}

/// `c`, in lower case if it is an ASCII letter.
pub open spec fn ascii_lower(c: char) -> char {
    if 65 <= c as int <= 90 {
        (c as int + 32) as char
    } else {
        c
    }
}

/// Equality that takes ASCII letters of either case for the same.
pub open spec fn same_but_for_case(a: Seq<char>, b: Seq<char>) -> bool {
    &&& a.len() == b.len()
    &&& forall|i: int| 0 <= i < a.len() ==> ascii_lower(#[trigger] a[i]) == ascii_lower(b[i])
}

/// Whether `part` stands somewhere in `text`.
pub open spec fn contains(text: Seq<char>, part: Seq<char>) -> bool {
    exists|i: int|
        0 <= i <= text.len() - part.len() && #[trigger] text.subrange(i, i + part.len()) == part
}

/// Lexicographic order by code point.
pub open spec fn in_order(a: Seq<char>, b: Seq<char>) -> bool
    decreases a.len(),
{
    if a.len() == 0 {
        true
    } else if b.len() == 0 {
        false
    } else if a[0] != b[0] {
        (a[0] as int) < (b[0] as int)
    } else {
        in_order(a.drop_first(), b.drop_first())
    }
}

// ─── lemmas ─────────────────────────────────────────────────────────────────
proof fn lemma_trim_start(s: Seq<char>, i: int)
    requires
        0 <= i <= s.len(),
        forall|k: int| 0 <= k < i ==> white(#[trigger] s[k]),
        i < s.len() ==> !white(s[i]),
    ensures
        trim_start(s) == s.skip(i),
    decreases i,
{
    if i > 0 {
        lemma_trim_start(s.drop_first(), i - 1);
        assert(white(s[0]));
        assert(s.drop_first().skip(i - 1) =~= s.skip(i));
    } else {
        assert(s.skip(0) =~= s);
    }
}

proof fn lemma_trim_end(s: Seq<char>, j: int)
    requires
        0 <= j <= s.len(),
        forall|k: int| j <= k < s.len() ==> white(#[trigger] s[k]),
        j > 0 ==> !white(s[j - 1]),
    ensures
        trim_end(s) == s.take(j),
    decreases s.len(),
{
    if j < s.len() {
        assert(white(s[s.len() - 1]));
        lemma_trim_end(s.drop_last(), j);
        assert(s.drop_last().take(j) =~= s.take(j));
    } else {
        assert(s.take(j) =~= s);
    }
}

proof fn lemma_word_len(s: Seq<char>, i: int)
    requires
        0 <= i <= s.len(),
        forall|k: int| 0 <= k < i ==> !white(#[trigger] s[k]),
        i < s.len() ==> white(s[i]),
    ensures
        word_len(s) == i,
    decreases i,
{
    if i > 0 {
        assert(!white(s[0]));
        lemma_word_len(s.drop_first(), i - 1);
    }
}

proof fn lemma_before(s: Seq<char>, c: char, i: int)
    requires
        0 <= i <= s.len(),
        forall|k: int| 0 <= k < i ==> #[trigger] s[k] != c,
        i < s.len() ==> s[i] == c,
    ensures
        before(s, c) == i,
    decreases i,
{
    if i > 0 {
        assert(s[0] != c);
        lemma_before(s.drop_first(), c, i - 1);
    }
}

proof fn lemma_value_grows(s: Seq<char>, k: int)
    requires
        0 <= k <= s.len(),
    ensures
        digits_value(s.take(k)) <= digits_value(s),
    decreases s.len() - k,
{
    if k < s.len() {
        lemma_value_grows(s.drop_last(), k);
        assert(s.drop_last().take(k) =~= s.take(k));
    } else {
        assert(s.take(k) =~= s);
    }
}

/// What was put between two texts stands in the whole.
pub proof fn lemma_contains_middle(front: Seq<char>, part: Seq<char>, back: Seq<char>)
    ensures
        contains(front + part + back, part),
{
    let text = front + part + back;
    assert(text.subrange(front.len() as int, front.len() as int + part.len()) =~= part);
}

/// What is written in decimal reads back as the same number.
pub proof fn decimal_reads_back(n: nat, max: nat)
    requires
        n <= max,
    ensures
        number_of(decimal(n), max) == Some(n),
{
    lemma_decimal(n);
    assert(decimal(n)[0] != '+') by {
        assert(is_digit(decimal(n)[0]));
    }
}

/// A number in decimal is digits that stand for it, the first of them not zero
/// unless the number is.
pub proof fn lemma_decimal(n: nat)
    ensures
        decimal(n).len() > 0,
        all_digits(decimal(n)),
        digits_value(decimal(n)) == n,
        n > 0 ==> decimal(n)[0] != '0',
    decreases n,
{
    let s = decimal(n);
    if n < 10 {
        assert(s.drop_last() =~= seq![]);
        assert(digits_value(s.drop_last()) == 0);
    } else {
        lemma_decimal(n / 10);
        assert(s.drop_last() =~= decimal(n / 10));
    }
}

/// The order of texts is total.
pub proof fn order_is_total(a: Seq<char>, b: Seq<char>)
    ensures
        in_order(a, b) || in_order(b, a),
    decreases a.len(),
{
    if a.len() > 0 && b.len() > 0 && a[0] == b[0] {
        order_is_total(a.drop_first(), b.drop_first());
    }
}

/// The order of texts is transitive.
pub proof fn order_is_transitive(a: Seq<char>, b: Seq<char>, c: Seq<char>)
    requires
        in_order(a, b),
        in_order(b, c),
    ensures
        in_order(a, c),
    decreases a.len(),
{
    if a.len() > 0 && a[0] == b[0] && b[0] == c[0] {
        order_is_transitive(a.drop_first(), b.drop_first(), c.drop_first());
    }
}

/// Two texts that stand in order both ways are equal.
pub proof fn order_is_antisymmetric(a: Seq<char>, b: Seq<char>)
    requires
        in_order(a, b),
        in_order(b, a),
    ensures
        a == b,
    decreases a.len(),
{
    if a.len() > 0 && b.len() > 0 {
        order_is_antisymmetric(a.drop_first(), b.drop_first());
        assert(a =~= seq![a[0]] + a.drop_first());
        assert(b =~= seq![b[0]] + b.drop_first());
    } else {
        assert(a =~= b);
    }
}

// ─── laws ───────────────────────────────────────────────────────────────────
/// Blanks, tabs and ends of lines are white space, and what is visible in ASCII is not.
pub proof fn white_space_in_ascii(c: char)
    requires
        c as int <= 126,
    ensures
        white(c) <==> c == ' ' || 9 <= c as int <= 13,
{
}

/// White space is these characters, and no others.
pub proof fn white_space_in_full(c: char)
    ensures
        white(c) <==> seq![
            0x09int,
            0x0a,
            0x0b,
            0x0c,
            0x0d,
            0x20,
            0x85,
            0xa0,
            0x1680,
            0x2000,
            0x2001,
            0x2002,
            0x2003,
            0x2004,
            0x2005,
            0x2006,
            0x2007,
            0x2008,
            0x2009,
            0x200a,
            0x2028,
            0x2029,
            0x202f,
            0x205f,
            0x3000,
        ].contains(c as int),
{
    let all = seq![
        0x09int,
        0x0a,
        0x0b,
        0x0c,
        0x0d,
        0x20,
        0x85,
        0xa0,
        0x1680,
        0x2000,
        0x2001,
        0x2002,
        0x2003,
        0x2004,
        0x2005,
        0x2006,
        0x2007,
        0x2008,
        0x2009,
        0x200a,
        0x2028,
        0x2029,
        0x202f,
        0x205f,
        0x3000,
    ];
    let n = c as int;
    if white(c) {
        let i: int = if n <= 0x0d {
            n - 0x09
        } else if n == 0x20 {
            5
        } else if n == 0x85 {
            6
        } else if n == 0xa0 {
            7
        } else if n == 0x1680 {
            8
        } else if n <= 0x200a {
            n - 0x2000 + 9
        } else if n == 0x2028 {
            20
        } else if n == 0x2029 {
            21
        } else if n == 0x202f {
            22
        } else if n == 0x205f {
            23
        } else {
            24
        };
        assert(all[i] == n);
    }
}

/// Trimming takes away the white space at either end and nothing else.
pub proof fn trimming_takes_the_white_space_around(a: Seq<char>, m: Seq<char>, b: Seq<char>)
    requires
        forall|i: int| 0 <= i < a.len() ==> white(#[trigger] a[i]),
        forall|i: int| 0 <= i < b.len() ==> white(#[trigger] b[i]),
        m.len() > 0 ==> !white(m[0]) && !white(m[m.len() - 1]),
    ensures
        trimmed(a + m + b) == m,
{
    let s = a + m + b;
    if m.len() > 0 {
        assert(s[a.len() as int] == m[0]);
        assert forall|k: int| 0 <= k < a.len() implies white(#[trigger] s[k]) by {
            assert(s[k] == a[k]);
        }
        lemma_trim_start(s, a.len() as int);
        let t = s.skip(a.len() as int);
        assert(t =~= m + b);
        assert forall|k: int| m.len() <= k < t.len() implies white(#[trigger] t[k]) by {
            assert(t[k] == b[k - m.len()]);
        }
        assert(t[m.len() - 1] == m[m.len() - 1]);
        lemma_trim_end(t, m.len() as int);
        assert(t.take(m.len() as int) =~= m);
    } else {
        assert forall|k: int| 0 <= k < s.len() implies white(#[trigger] s[k]) by {
            if k < a.len() {
                assert(s[k] == a[k]);
            } else {
                assert(s[k] == b[k - a.len()]);
            }
        }
        lemma_trim_start(s, s.len() as int);
        assert(s.skip(s.len() as int) =~= m);
        assert(trim_end(m) =~= m);
    }
}

/// A text is nothing but white space if and only if trimming leaves nothing of it.
pub proof fn blank_means_white(s: Seq<char>)
    ensures
        trimmed(s).len() == 0 <==> (forall|i: int| 0 <= i < s.len() ==> white(#[trigger] s[i])),
{
    if forall|i: int| 0 <= i < s.len() ==> white(#[trigger] s[i]) {
        trimming_takes_the_white_space_around(s, seq![], seq![]);
        assert(s + seq![] + seq![] =~= s);
    } else {
        let i = choose|i: int| 0 <= i < s.len() && !white(#[trigger] s[i]);
        lemma_trim_start_keeps(s, i);
        let t = trim_start(s);
        let k = choose|k: int| 0 <= k < t.len() && t[k] == s[i];
        lemma_trim_end_keeps(t, k);
    }
}

proof fn lemma_trim_start_keeps(s: Seq<char>, i: int)
    requires
        0 <= i < s.len(),
        !white(s[i]),
    ensures
        exists|k: int| 0 <= k < trim_start(s).len() && trim_start(s)[k] == s[i],
    decreases s.len(),
{
    if white(s[0]) {
        assert(s.drop_first()[i - 1] == s[i]);
        lemma_trim_start_keeps(s.drop_first(), i - 1);
        let t = trim_start(s.drop_first());
        let k = choose|k: int| 0 <= k < t.len() && t[k] == s.drop_first()[i - 1];
        assert(trim_start(s) == t);
        assert(0 <= k < trim_start(s).len() && trim_start(s)[k] == s[i]);
    } else {
        assert(trim_start(s) == s);
        assert(0 <= i < trim_start(s).len() && trim_start(s)[i] == s[i]);
    }
}

proof fn lemma_trim_end_keeps(s: Seq<char>, i: int)
    requires
        0 <= i < s.len(),
        !white(s[i]),
    ensures
        trim_end(s).len() > 0,
    decreases s.len(),
{
    if white(s.last()) {
        assert(s.drop_last()[i] == s[i]);
        lemma_trim_end_keeps(s.drop_last(), i);
    }
}

/// The first word is what stands between the white space in front and the next.
pub proof fn the_first_word_ends_at_white_space(a: Seq<char>, word: Seq<char>, rest: Seq<char>)
    requires
        forall|i: int| 0 <= i < a.len() ==> white(#[trigger] a[i]),
        forall|i: int| 0 <= i < word.len() ==> !white(#[trigger] word[i]),
        rest.len() > 0 ==> word.len() > 0 && white(rest[0]),
    ensures
        first_word_of(a + word + rest) == (if word.len() > 0 {
            Some(word)
        } else {
            None
        }),
{
    let s = a + word + rest;
    assert forall|k: int| 0 <= k < a.len() implies white(#[trigger] s[k]) by {
        assert(s[k] == a[k]);
    }
    if word.len() > 0 {
        assert(s[a.len() as int] == word[0]);
    }
    lemma_trim_start(s, a.len() as int);
    let t = s.skip(a.len() as int);
    assert(t =~= word + rest);
    if word.len() > 0 {
        assert forall|k: int| 0 <= k < word.len() implies !white(#[trigger] t[k]) by {
            assert(t[k] == word[k]);
        }
        if rest.len() > 0 {
            assert(t[word.len() as int] == rest[0]);
        }
        lemma_word_len(t, word.len() as int);
        assert(t.take(word.len() as int) =~= word);
    }
}

/// A line ends at its line feed, or at the carriage return before it; what follows are
/// the other lines. The last one may lack its end, and nothing is no line.
pub proof fn lines_end_at_line_feeds(line: Seq<char>, rest: Seq<char>)
    requires
        forall|i: int| 0 <= i < line.len() ==> #[trigger] line[i] != '\n',
    ensures
        line.len() > 0 && line[line.len() - 1] == '\r' ==> lines_of(line + seq!['\n'] + rest)
            == seq![line.take(line.len() - 1)] + lines_of(rest),
        !(line.len() > 0 && line[line.len() - 1] == '\r') ==> lines_of(line + seq!['\n'] + rest)
            == seq![line] + lines_of(rest),
        line.len() > 0 ==> lines_of(line) == seq![line],
        line.len() == 0 ==> lines_of(line) == Seq::<Seq<char>>::empty(),
{
    let s = line + seq!['\n'] + rest;
    let n = line.len() as int;
    assert forall|k: int| 0 <= k < n implies #[trigger] s[k] != '\n' by {
        assert(s[k] == line[k]);
    }
    assert(s[n] == '\n');
    lemma_before(s, '\n', n);
    assert(s.take(n) =~= line);
    assert(s.skip(n + 1) =~= rest);
    if n > 0 {
        lemma_before(line, '\n', n);
        assert(line.drop_last() =~= line.take(n - 1));
    }
}

/// A piece ends at the separator, and what follows are the other pieces.
pub proof fn pieces_end_at_separators(piece: Seq<char>, rest: Seq<char>, sep: char)
    requires
        forall|i: int| 0 <= i < piece.len() ==> #[trigger] piece[i] != sep,
    ensures
        pieces_of(piece + seq![sep] + rest, sep) == seq![piece] + pieces_of(rest, sep),
        pieces_of(piece, sep) == seq![piece],
{
    let s = piece + seq![sep] + rest;
    let n = piece.len() as int;
    assert forall|k: int| 0 <= k < n implies #[trigger] s[k] != sep by {
        assert(s[k] == piece[k]);
    }
    assert(s[n] == sep);
    lemma_before(s, sep, n);
    assert(s.take(n) =~= piece);
    assert(s.skip(n + 1) =~= rest);
    lemma_before(piece, sep, n);
}

/// Strings are taken one by one, in their order.
pub proof fn texts_are_taken_one_by_one(v: Seq<String>)
    ensures
        texts(v).len() == v.len(),
        forall|i: int| 0 <= i < v.len() ==> #[trigger] texts(v)[i] == v[i]@,
{
}

/// A number is read digit by digit: each one stands for ten times as much as the next,
/// anything else is no number, and neither is what exceeds the limit.
pub proof fn numbers_are_read_digit_by_digit(s: Seq<char>, c: char, max: nat)
    requires
        s.len() > 0,
        s != seq!['+'],
    ensures
        number_of(s.push(c), max) == (match number_of(s, max) {
            Some(n) => if 48 <= c as int <= 57 && 10 * n + (c as int - 48) <= max {
                Some((10 * n + (c as int - 48)) as nat)
            } else {
                None
            },
            None => None,
        }),
{
    let t = s.push(c);
    let body = without_plus(s);
    if s[0] == '+' {
        assert(s =~= seq!['+'] + body);
        assert(body.len() > 0) by {
            if body.len() == 0 {
                assert(s =~= seq!['+']);
            }
        }
    }
    assert(without_plus(t) =~= body.push(c));
    assert(body.push(c).drop_last() =~= body);
    assert(body.push(c).last() == c);
    if all_digits(body.push(c)) {
        assert forall|i: int| 0 <= i < body.len() implies is_digit(#[trigger] body[i]) by {
            assert(body.push(c)[i] == body[i]);
        }
        assert(is_digit(body.push(c)[body.len() as int]));
    }
    if all_digits(body) && is_digit(c) {
        assert(all_digits(body.push(c)));
    }
}

/// One digit is a number, with a plus sign in front or without; a plus sign alone is
/// none, and neither are two, or nothing.
pub proof fn numbers_begin_with_a_digit(c: char, s: Seq<char>, max: nat)
    ensures
        number_of(seq![], max) is None,
        number_of(seq!['+'], max) is None,
        number_of(seq![c], max) == (if 48 <= c as int <= 57 && c as int - 48 <= max {
            Some((c as int - 48) as nat)
        } else {
            None
        }),
        number_of(seq!['+'] + s, max) == (if s.len() > 0 && s[0] == '+' {
            None
        } else {
            number_of(s, max)
        }),
{
    assert(without_plus(seq!['+']) =~= seq![]);
    assert(seq![c].drop_last() =~= seq![]);
    assert(digits_value(seq![c].drop_last()) == 0);
    if c == '+' {
        assert(seq![c] =~= seq!['+']);
    } else {
        assert(without_plus(seq![c]) =~= seq![c]);
        assert(digits_value(seq![c]) == digit_value(c));
        assert(seq![c][0] == c);
        if is_digit(c) {
            assert(all_digits(seq![c]));
        }
    }
    assert(without_plus(seq!['+'] + s) =~= s);
    if s.len() > 0 && s[0] == '+' {
        assert(!is_digit(s[0]));
    }
}

/// A number below ten is one digit in decimal, and each further digit stands for what is
/// left over by ten.
pub proof fn decimal_is_written_digit_by_digit(n: nat, d: nat)
    requires
        d < 10,
    ensures
        decimal(d).len() == 1,
        decimal(d)[0] as int == 48 + d,
        n > 0 ==> decimal(10 * n + d) == decimal(n) + decimal(d),
{
    if n > 0 {
        assert((10 * n + d) / 10 == n && (10 * n + d) % 10 == d);
        assert(decimal(n).push(digit_char(d)) =~= decimal(n) + decimal(d));
    }
}

/// A text in a column begins it or ends it, blanks fill the rest, and a text that is
/// wider than the column is left as it is.
pub proof fn columns_are_filled_with_blanks(s: Seq<char>, width: nat)
    ensures
        s.len() >= width ==> flush_left(s, width) == s && flush_right(s, width) == s,
        s.len() < width ==> {
            &&& flush_left(s, width).len() == width
            &&& flush_left(s, width).take(s.len() as int) == s
            &&& forall|i: int| s.len() <= i < width ==> #[trigger] flush_left(s, width)[i] == ' '
            &&& flush_right(s, width).len() == width
            &&& flush_right(s, width).skip(width - s.len()) == s
            &&& forall|i: int|
                0 <= i < width - s.len() ==> #[trigger] flush_right(s, width)[i] == ' '
        },
{
    if s.len() >= width {
        assert(flush_left(s, width) =~= s);
        assert(flush_right(s, width) =~= s);
    } else {
        assert(flush_left(s, width).take(s.len() as int) =~= s);
        assert(flush_right(s, width).skip(width - s.len()) =~= s);
    }
}

/// Whether two characters are the same, or one ASCII letter in either case.
pub open spec fn same_letter(a: char, b: char) -> bool {
    ||| a == b
    ||| 65 <= a as int <= 90 && b as int == a as int + 32
    ||| 65 <= b as int <= 90 && a as int == b as int + 32
}

/// Texts are the same but for case if and only if they are so letter by letter.
pub proof fn case_is_set_aside_letter_by_letter(a: Seq<char>, b: Seq<char>)
    ensures
        same_but_for_case(a, b) <==> a.len() == b.len() && forall|i: int|
            0 <= i < a.len() ==> same_letter(#[trigger] a[i], b[i]),
{
    if same_but_for_case(a, b) {
        assert forall|i: int| 0 <= i < a.len() implies same_letter(#[trigger] a[i], b[i]) by {
            assert(ascii_lower(a[i]) as int == ascii_lower(b[i]) as int);
        }
    }
}

/// Texts stand in order by the first character in which they differ, and a text before
/// all that it begins.
pub proof fn order_goes_by_the_first_difference(p: Seq<char>, x: Seq<char>, y: Seq<char>)
    requires
        x.len() > 0 && y.len() > 0 ==> x[0] != y[0],
    ensures
        in_order(p + x, p + y) <==> x.len() == 0 || (y.len() > 0 && (x[0] as int) < (y[0] as int)),
    decreases p.len(),
{
    if p.len() > 0 {
        order_goes_by_the_first_difference(p.drop_first(), x, y);
        assert((p + x).drop_first() =~= p.drop_first() + x);
        assert((p + y).drop_first() =~= p.drop_first() + y);
    } else {
        assert(p + x =~= x);
        assert(p + y =~= y);
    }
}

/// A part stands in a text if and only if the text is that part with something before
/// and behind it.
pub proof fn parts_stand_between_others(text: Seq<char>, part: Seq<char>)
    ensures
        contains(text, part) <==> exists|front: Seq<char>, back: Seq<char>|
            text == #[trigger] (front + part + back),
{
    if contains(text, part) {
        let i = choose|i: int|
            0 <= i <= text.len() - part.len() && #[trigger] text.subrange(i, i + part.len())
                == part;
        let front = text.take(i);
        let back = text.skip(i + part.len());
        assert(text =~= front + part + back);
    }
    if exists|front: Seq<char>, back: Seq<char>| text == #[trigger] (front + part + back) {
        let (front, back) = choose|front: Seq<char>, back: Seq<char>|
            text == #[trigger] (front + part + back);
        lemma_contains_middle(front, part, back);
    }
}

// ─── functions ──────────────────────────────────────────────────────────────
/// The characters of `s`, in order.
pub fn chars_of(s: &str) -> (chars: Vec<char>)
    ensures
        chars@ == s@,
{
    let mut chars: Vec<char> = Vec::new();
    for c in it: s.chars()
        invariant
            chars@ == s@.take(it.index() as int),
            it.seq() == s@,
    {
        chars.push(c);
    }
    chars
}

/// The text made of `chars[from..to]`.
pub fn text_of(chars: &Vec<char>, from: usize, to: usize) -> (s: String)
    requires
        from <= to <= chars@.len(),
    ensures
        s@ == chars@.subrange(from as int, to as int),
{
    let mut s = String::new();
    let mut i: usize = from;
    while i < to
        invariant
            from <= i <= to <= chars@.len(),
            s@ == chars@.subrange(from as int, i as int),
        decreases to - i,
    {
        s.push(chars[i]);
        i = i + 1;
    }
    s
}

/// Whether the two texts are the same.
pub fn same_text(a: &str, b: &str) -> (r: bool)
    ensures
        r == (a@ == b@),
{
    let x = chars_of(a);
    let y = chars_of(b);
    if x.len() != y.len() {
        return false;
    }
    let mut i: usize = 0;
    while i < x.len()
        invariant
            x@ == a@,
            y@ == b@,
            i <= x@.len(),
            x@.len() == y@.len(),
            forall|k: int| 0 <= k < i ==> x@[k] == y@[k],
        decreases x@.len() - i,
    {
        if x[i] != y[i] {
            return false;
        }
        i = i + 1;
    }
    assert(a@ =~= b@);
    true
}

/// Whether `s` begins with `prefix`.
pub fn starts_with(s: &str, prefix: &str) -> (r: bool)
    ensures
        r == prefix@.is_prefix_of(s@),
{
    let x = chars_of(s);
    let p = chars_of(prefix);
    if p.len() > x.len() {
        return false;
    }
    let mut i: usize = 0;
    while i < p.len()
        invariant
            x@ == s@,
            p@ == prefix@,
            i <= p@.len() <= x@.len(),
            forall|k: int| 0 <= k < i ==> p@[k] == x@[k],
        decreases p@.len() - i,
    {
        if p[i] != x[i] {
            assert(x@.subrange(0, p@.len() as int)[i as int] != p@[i as int]);
            return false;
        }
        i = i + 1;
    }
    assert(p@ =~= x@.subrange(0, p@.len() as int));
    true
}

/// What follows `prefix` in `s`, if `s` begins with it.
pub fn strip_prefix(s: &str, prefix: &str) -> (r: Option<String>)
    ensures
        text_opt(r) == (if prefix@.is_prefix_of(s@) {
            Some(s@.skip(prefix@.len() as int))
        } else {
            None
        }),
{
    if starts_with(s, prefix) {
        let x = chars_of(s);
        let n = chars_of(prefix).len();
        Some(text_of(&x, n, x.len()))
    } else {
        None
    }
}

/// The code point of `c`.
fn code_of(c: char) -> (n: u32)
    ensures
        n == c as int,
{
    c as u32
}

/// Whether `c` is white space.
pub fn is_white(c: char) -> (r: bool)
    ensures
        r == white(c),
{
    let n = code_of(c);
    (0x09 <= n && n <= 0x0d) || n == 0x20 || n == 0x85 || n == 0xa0 || n == 0x1680 || (0x2000 <= n
        && n <= 0x200a) || n == 0x2028 || n == 0x2029 || n == 0x202f || n == 0x205f || n == 0x3000
}

/// `s` without the white space at either end.
pub fn trim(s: &str) -> (r: String)
    ensures
        r@ == trimmed(s@),
{
    let x = chars_of(s);
    let mut i: usize = 0;
    while i < x.len() && is_white(x[i])
        invariant
            i <= x@.len(),
            forall|k: int| 0 <= k < i ==> white(#[trigger] x@[k]),
        decreases x@.len() - i,
    {
        i = i + 1;
    }
    let mut j: usize = x.len();
    while j > i && is_white(x[j - 1])
        invariant
            i <= j <= x@.len(),
            forall|k: int| j <= k < x@.len() ==> white(#[trigger] x@[k]),
        decreases j,
    {
        j = j - 1;
    }
    proof {
        lemma_trim_start(x@, i as int);
        let rest = x@.skip(i as int);
        assert forall|k: int| j - i <= k < rest.len() implies white(#[trigger] rest[k]) by {
            assert(white(x@[k + i]));
        }
        lemma_trim_end(rest, j - i);
        assert(rest.take(j - i) =~= x@.subrange(i as int, j as int));
    }
    text_of(&x, i, j)
}

/// The first run of characters in `s` that are not white space.
pub fn first_word(s: &str) -> (r: Option<String>)
    ensures
        text_opt(r) == first_word_of(s@),
{
    let x = chars_of(s);
    let mut i: usize = 0;
    while i < x.len() && is_white(x[i])
        invariant
            i <= x@.len(),
            forall|k: int| 0 <= k < i ==> white(#[trigger] x@[k]),
        decreases x@.len() - i,
    {
        i = i + 1;
    }
    proof {
        lemma_trim_start(x@, i as int);
    }
    if i == x.len() {
        return None;
    }
    let mut j: usize = i;
    while j < x.len() && !is_white(x[j])
        invariant
            i <= j <= x@.len(),
            forall|k: int| i <= k < j ==> !white(#[trigger] x@[k]),
        decreases x@.len() - j,
    {
        j = j + 1;
    }
    proof {
        let rest = x@.skip(i as int);
        assert forall|k: int| 0 <= k < j - i implies !white(#[trigger] rest[k]) by {
            assert(!white(x@[k + i]));
        }
        lemma_word_len(rest, j - i);
        assert(rest.take(j - i) =~= x@.subrange(i as int, j as int));
    }
    Some(text_of(&x, i, j))
}

/// The first place at or after `from` where `c` stands, or the length.
fn find(x: &Vec<char>, c: char, from: usize) -> (i: usize)
    requires
        from <= x@.len(),
    ensures
        from <= i <= x@.len(),
        before(x@.skip(from as int), c) == i - from,
        i < x@.len() ==> x@[i as int] == c,
{
    let mut i: usize = from;
    while i < x.len() && x[i] != c
        invariant
            from <= i <= x@.len(),
            forall|k: int| from <= k < i ==> #[trigger] x@[k] != c,
        decreases x@.len() - i,
    {
        i = i + 1;
    }
    proof {
        let rest = x@.skip(from as int);
        assert forall|k: int| 0 <= k < i - from implies #[trigger] rest[k] != c by {
            assert(x@[k + from] != c);
        }
        lemma_before(rest, c, i - from);
    }
    i
}

/// The lines of `s`, without their ends.
pub fn lines(s: &str) -> (r: Vec<String>)
    ensures
        texts(r@) == lines_of(s@),
{
    let x = chars_of(s);
    let mut out: Vec<String> = Vec::new();
    let mut start: usize = 0;
    proof {
        assert(x@.skip(0) =~= x@);
        assert(texts(out@) + lines_of(x@.skip(0)) =~= lines_of(x@));
    }
    while start < x.len()
        invariant
            start <= x@.len(),
            texts(out@) + lines_of(x@.skip(start as int)) == lines_of(x@),
        decreases x@.len() - start,
    {
        let ghost rest = x@.skip(start as int);
        let ghost done = texts(out@);
        let end = find(&x, '\n', start);
        if end < x.len() {
            let stop: usize = if end > start && x[end - 1] == '\r' {
                end - 1
            } else {
                end
            };
            let line = text_of(&x, start, stop);
            proof {
                assert(rest.take(end - start) =~= x@.subrange(start as int, end as int));
                assert(line@ =~= without_cr(rest.take(end - start)));
                assert(rest.skip(end - start + 1) =~= x@.skip(end + 1));
            }
            out.push(line);
            proof {
                assert(texts(out@) =~= done.push(line@));
                assert(done + (seq![line@] + lines_of(x@.skip(end + 1))) =~= texts(out@)
                    + lines_of(x@.skip(end + 1)));
            }
            start = end + 1;
        } else {
            let line = text_of(&x, start, end);
            proof {
                assert(line@ =~= rest);
            }
            out.push(line);
            proof {
                assert(texts(out@) =~= done.push(line@));
                assert(lines_of(x@.skip(end as int)) =~= seq![]);
                assert(done + seq![rest] =~= texts(out@) + lines_of(x@.skip(end as int)));
            }
            start = end;
        }
    }
    assert(texts(out@) + lines_of(x@.skip(start as int)) =~= texts(out@));
    out
}

/// The pieces of `s` between the occurrences of `sep`.
pub fn split(s: &str, sep: char) -> (r: Vec<String>)
    ensures
        texts(r@) == pieces_of(s@, sep),
{
    let x = chars_of(s);
    let mut out: Vec<String> = Vec::new();
    let mut start: usize = 0;
    let mut end: usize = find(&x, sep, 0);
    proof {
        assert(x@.skip(0) =~= x@);
        assert(texts(out@) + pieces_of(x@.skip(0), sep) =~= pieces_of(x@, sep));
    }
    while end < x.len()
        invariant
            start <= end <= x@.len(),
            end < x@.len() ==> x@[end as int] == sep,
            before(x@.skip(start as int), sep) == end - start,
            texts(out@) + pieces_of(x@.skip(start as int), sep) == pieces_of(x@, sep),
        decreases x@.len() - end,
    {
        let ghost rest = x@.skip(start as int);
        let ghost done = texts(out@);
        let piece = text_of(&x, start, end);
        proof {
            assert(rest.take(end - start) =~= piece@);
            assert(rest.skip(end - start + 1) =~= x@.skip(end + 1));
        }
        out.push(piece);
        proof {
            assert(texts(out@) =~= done.push(piece@));
            assert(done + (seq![piece@] + pieces_of(x@.skip(end + 1), sep)) =~= texts(out@)
                + pieces_of(x@.skip(end + 1), sep));
        }
        start = end + 1;
        end = find(&x, sep, start);
    }
    let ghost done = texts(out@);
    let piece = text_of(&x, start, end);
    proof {
        assert(piece@ =~= x@.skip(start as int));
    }
    out.push(piece);
    proof {
        assert(texts(out@) =~= done + seq![piece@]);
    }
    out
}

/// The number at most `max` that `s` spells in decimal.
pub fn parse_number(s: &str, max: u64) -> (r: Option<u64>)
    ensures
        r is Some <==> number_of(s@, max as nat) is Some,
        r is Some ==> r->0 == number_of(s@, max as nat)->0,
{
    let x = chars_of(s);
    let from: usize = if x.len() > 0 && x[0] == '+' {
        1
    } else {
        0
    };
    let ghost body = x@.skip(from as int);
    proof {
        assert(body =~= without_plus(s@));
    }
    if from == x.len() {
        return None;
    }
    let mut total: u64 = 0;
    let mut i: usize = from;
    proof {
        assert(body.take(0) =~= seq![]);
    }
    while i < x.len()
        invariant
            from <= i <= x@.len(),
            body == x@.skip(from as int),
            body == without_plus(s@),
            forall|k: int| 0 <= k < i - from ==> is_digit(#[trigger] body[k]),
            total == digits_value(body.take(i - from)),
            total <= max,
        decreases x@.len() - i,
    {
        let c = x[i];
        let n = code_of(c);
        assert(body[i - from] == c);
        if !(48 <= n && n <= 57) {
            assert(!is_digit(body[i - from]));
            return None;
        }
        let next: u128 = (total as u128) * 10 + ((n - 48) as u128);
        proof {
            let upto = body.take(i - from + 1);
            assert(upto.drop_last() =~= body.take(i - from));
            assert(upto.last() == c);
            assert(next == digits_value(upto));
            lemma_value_grows(body, i - from + 1);
        }
        if next > max as u128 {
            return None;
        }
        total = next as u64;
        i = i + 1;
    }
    proof {
        assert(body.take(i - from) =~= body);
    }
    Some(total)
}

/// `n` in decimal.
pub fn to_decimal(n: u64) -> (s: String)
    ensures
        s@ == decimal(n as nat),
    decreases n,
{
    if n < 10 {
        let mut s = String::new();
        s.push((48 + n as u8) as char);
        assert(s@ =~= seq![digit_char(n as nat)]);
        s
    } else {
        let mut s = to_decimal(n / 10);
        s.push((48 + (n % 10) as u8) as char);
        s
    }
}

/// `s` in a column of `width` characters, flush left.
pub fn pad_right(s: &str, width: usize) -> (r: String)
    ensures
        r@ == flush_left(s@, width as nat),
{
    let mut r = String::new();
    r.append(s);
    let n = chars_of(s).len();
    let mut i: usize = n;
    assert(r@ =~= s@ + spaces(0));
    while i < width
        invariant
            n == s@.len(),
            n <= i,
            i <= width || i == n,
            r@ == s@ + spaces(i - n),
        decreases width - i,
    {
        r.push(' ');
        i = i + 1;
        assert(r@ =~= s@ + spaces(i - n));
    }
    assert(r@ =~= flush_left(s@, width as nat));
    r
}

/// `s` in a column of `width` characters, flush right.
pub fn pad_left(s: &str, width: usize) -> (r: String)
    ensures
        r@ == flush_right(s@, width as nat),
{
    let mut r = String::new();
    let n = chars_of(s).len();
    let mut i: usize = n;
    assert(r@ =~= spaces(0));
    while i < width
        invariant
            n == s@.len(),
            n <= i,
            i <= width || i == n,
            r@ == spaces(i - n),
        decreases width - i,
    {
        r.push(' ');
        i = i + 1;
        assert(r@ =~= spaces(i - n));
    }
    r.append(s);
    assert(r@ =~= flush_right(s@, width as nat));
    r
}

fn lower(c: char) -> (r: char)
    ensures
        r == ascii_lower(c),
{
    let n = code_of(c);
    if 65 <= n && n <= 90 {
        (n as u8 + 32) as char
    } else {
        c
    }
}

/// Whether the two texts are the same but for the case of ASCII letters.
pub fn same_ignoring_case(a: &str, b: &str) -> (r: bool)
    ensures
        r == same_but_for_case(a@, b@),
{
    let x = chars_of(a);
    let y = chars_of(b);
    if x.len() != y.len() {
        return false;
    }
    let mut i: usize = 0;
    while i < x.len()
        invariant
            x@ == a@,
            y@ == b@,
            i <= x@.len(),
            x@.len() == y@.len(),
            forall|k: int|
                0 <= k < i ==> ascii_lower(#[trigger] x@[k]) == ascii_lower(y@[k]),
        decreases x@.len() - i,
    {
        if lower(x[i]) != lower(y[i]) {
            assert(ascii_lower(a@[i as int]) != ascii_lower(b@[i as int]));
            return false;
        }
        i = i + 1;
    }
    true
}

/// Whether `a` stands before `b` or is the same.
pub fn is_in_order(a: &str, b: &str) -> (r: bool)
    ensures
        r == in_order(a@, b@),
{
    let x = chars_of(a);
    let y = chars_of(b);
    let mut i: usize = 0;
    assert(x@.skip(0) =~= x@);
    assert(y@.skip(0) =~= y@);
    while i < x.len() && i < y.len() && x[i] == y[i]
        invariant
            x@ == a@,
            y@ == b@,
            i <= x@.len(),
            i <= y@.len(),
            in_order(a@, b@) == in_order(x@.skip(i as int), y@.skip(i as int)),
        decreases x@.len() - i,
    {
        proof {
            assert(x@.skip(i as int).drop_first() =~= x@.skip(i + 1));
            assert(y@.skip(i as int).drop_first() =~= y@.skip(i + 1));
        }
        i = i + 1;
    }
    if i == x.len() {
        true
    } else if i == y.len() {
        false
    } else {
        code_of(x[i]) < code_of(y[i])
    }
}

/// A copy of each string.
pub fn copy_texts(v: &Vec<String>) -> (r: Vec<String>)
    ensures
        texts(r@) == texts(v@),
{
    let mut r: Vec<String> = Vec::new();
    let mut i: usize = 0;
    while i < v.len()
        invariant
            i <= v@.len(),
            r@.len() == i,
            forall|k: int| 0 <= k < i ==> (#[trigger] r@[k])@ == v@[k]@,
        decreases v@.len() - i,
    {
        r.push(v[i].clone());
        i = i + 1;
    }
    assert(texts(r@) =~= texts(v@));
    r
}

} // verus!
