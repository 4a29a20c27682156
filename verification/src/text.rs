//! Character-sequence helpers: building text in a `Vec<char>` buffer, decimal
//! numbers, line splitting and trimming, and the first word of a string.
use vstd::prelude::*;

verus! {

/// The characters of `s`, in order.
pub fn chars_of(s: &str) -> (v: Vec<char>)
    ensures
        v@ == s@,
{
    let mut v: Vec<char> = Vec::new();
    for c in it: s.chars()
        invariant
            v@ == it.seq().take(it.index() as int),
    {
        v.push(c);
    }
    v
}

/// Appends the characters of `s` to `out`.
pub fn push_str(out: &mut Vec<char>, s: &str)
    ensures
        final(out)@ == old(out)@ + s@,
{
    let ghost start = out@;
    for c in it: s.chars()
        invariant
            out@ == start + it.seq().take(it.index() as int),
    {
        out.push(c);
    }
}

/// Appends the characters of `s` to `out`.
pub fn push_chars(out: &mut Vec<char>, s: &Vec<char>)
    ensures
        final(out)@ == old(out)@ + s@,
{
    let ghost start = out@;
    let mut i: usize = 0;
    while i < s.len()
        invariant
            0 <= i <= s.len(),
            out@ == start + s@.take(i as int),
        decreases s.len() - i,
    {
        out.push(s[i]);
        i += 1;
        assert(s@.take(i as int) =~= s@.take(i - 1) + seq![s@[i - 1]]);
    }
    assert(s@.take(s.len() as int) =~= s@);
}

/// Calls std's `String::from_iter` on the characters of `v` (through
/// `Iterator::collect`); trusted to build the string of exactly those
/// characters, in order.
#[verifier::external_body]
pub(crate) fn string_of(v: &Vec<char>) -> (s: String)
    ensures
        s@ == v@,
{
    v.iter().collect()
}

/// `n` copies of `c`.
pub open spec fn repeat(c: char, n: nat) -> Seq<char> {
    Seq::new(n, |i: int| c)
}

/// Appends `n` copies of `c` to `out`.
pub fn push_repeat(out: &mut Vec<char>, c: char, n: u64)
    ensures
        final(out)@ == old(out)@ + repeat(c, n as nat),
{
    let ghost start = out@;
    let mut i: u64 = 0;
    while i < n
        invariant
            0 <= i <= n,
            out@ == start + repeat(c, i as nat),
        decreases n - i,
    {
        out.push(c);
        i += 1;
        assert(repeat(c, i as nat) =~= repeat(c, (i - 1) as nat).push(c));
    }
}

/// The decimal digit character for `d < 10`.
pub open spec fn digit_char(d: nat) -> char {
    if d == 0 {
        '0'
    } else if d == 1 {
        '1'
    } else if d == 2 {
        '2'
    } else if d == 3 {
        '3'
    } else if d == 4 {
        '4'
    } else if d == 5 {
        '5'
    } else if d == 6 {
        '6'
    } else if d == 7 {
        '7'
    } else if d == 8 {
        '8'
    } else {
        '9'
    }
}

/// The decimal notation of `n`, without leading zeros (`"0"` for zero).
pub open spec fn decimal(n: nat) -> Seq<char>
    decreases n,
{
    if n < 10 {
        seq![digit_char(n)]
    } else {
        decimal(n / 10).push(digit_char(n % 10))
    }
}

/// The value of a decimal digit character (`'0'` is 0, ..., `'9'` is 9).
pub open spec fn digit_value(c: char) -> int {
    c as int - '0' as int
}

/// The number that a string of decimal digits spells.
pub open spec fn digits_value(s: Seq<char>) -> int
    decreases s.len(),
{
    if s.len() == 0 {
        0
    } else {
        digits_value(s.drop_last()) * 10 + digit_value(s.last())
    }
}

/// Law: the decimal notation of `n` is made of digits `'0'..='9'`, has no
/// leading zero (unless it is `"0"`), and spells `n`.
pub proof fn lemma_decimal_spells(n: nat)
    ensures
        decimal(n).len() > 0,
        n >= 10 ==> decimal(n).len() > 1,
        forall|i: int| 0 <= i < decimal(n).len() ==> '0' <= #[trigger] decimal(n)[i] <= '9',
        decimal(n).len() > 1 ==> decimal(n)[0] != '0',
        digits_value(decimal(n)) == n,
    decreases n,
{
    if n >= 10 {
        lemma_decimal_spells(n / 10);
        let d = decimal(n / 10);
        let s = d.push(digit_char(n % 10));
        assert(s.drop_last() =~= d);
        assert(s[0] == d[0]);
        assert forall|i: int| 0 <= i < s.len() implies '0' <= #[trigger] s[i] <= '9' by {
            if i < d.len() {
                assert(s[i] == d[i]);
            }
        }
        assert(digit_value(digit_char(n % 10)) == n % 10);
        assert(n == (n / 10) * 10 + n % 10);
        assert(digits_value(s) == digits_value(d) * 10 + digit_value(s.last()));
        assert(s.last() == digit_char(n % 10));
        if n / 10 < 10 {
            assert(d == seq![digit_char(n / 10)]);
            assert(digit_char(n / 10) != '0');
        }
    } else {
        assert(digit_value(digit_char(n)) == n);
        assert(seq![digit_char(n)].drop_last() =~= Seq::<char>::empty());
        assert(digits_value(decimal(n)) == digits_value(Seq::<char>::empty()) * 10 + digit_value(
            digit_char(n),
        ));
    }
}

fn digit(d: u64) -> (c: char)
    requires
        d < 10,
    ensures
        c == digit_char(d as nat),
{
    if d == 0 {
        '0'
    } else if d == 1 {
        '1'
    } else if d == 2 {
        '2'
    } else if d == 3 {
        '3'
    } else if d == 4 {
        '4'
    } else if d == 5 {
        '5'
    } else if d == 6 {
        '6'
    } else if d == 7 {
        '7'
    } else if d == 8 {
        '8'
    } else {
        '9'
    }
}

/// Appends the decimal notation of `n` to `out`.
pub fn push_decimal(out: &mut Vec<char>, n: u64)
    ensures
        final(out)@ == old(out)@ + decimal(n as nat),
    decreases n,
{
    if n < 10 {
        out.push(digit(n));
        assert(decimal(n as nat) =~= seq![digit_char(n as nat)]);
    } else {
        push_decimal(out, n / 10);
        out.push(digit(n % 10));
        assert(decimal(n as nat) =~= decimal((n / 10) as nat).push(digit_char((n % 10) as nat)));
    }
}

/// `s` with every trailing `c` removed (`str::trim_end_matches(c)`).
pub open spec fn trim_end_char(s: Seq<char>, c: char) -> Seq<char>
    decreases s.len(),
{
    if s.len() > 0 && s.last() == c {
        trim_end_char(s.drop_last(), c)
    } else {
        s
    }
}

/// `s` with every trailing `'\n'` removed.
pub open spec fn trim_end_newlines(s: Seq<char>) -> Seq<char> {
    trim_end_char(s, '\n')
}

/// Appends `s` without its trailing `c` characters to `out`.
pub fn push_trimmed(out: &mut Vec<char>, s: &Vec<char>, c: char)
    ensures
        final(out)@ == old(out)@ + trim_end_char(s@, c),
{
    let mut k: usize = s.len();
    assert(s@.take(k as int) =~= s@);
    while k > 0 && s[k - 1] == c
        invariant
            0 <= k <= s.len(),
            trim_end_char(s@, c) == trim_end_char(s@.take(k as int), c),
        decreases k,
    {
        assert(s@.take(k as int).drop_last() =~= s@.take(k - 1));
        k -= 1;
    }
    assert(trim_end_char(s@.take(k as int), c) == s@.take(k as int));
    let ghost start = out@;
    let mut i: usize = 0;
    while i < k
        invariant
            0 <= i <= k <= s.len(),
            out@ == start + s@.take(i as int),
        decreases k - i,
    {
        out.push(s[i]);
        i += 1;
        assert(s@.take(i as int) =~= s@.take(i - 1) + seq![s@[i - 1]]);
    }
}

/// Appends `s` without its trailing newlines to `out`.
pub fn push_trimmed_newlines(out: &mut Vec<char>, s: &Vec<char>)
    ensures
        final(out)@ == old(out)@ + trim_end_newlines(s@),
{
    push_trimmed(out, s, '\n');
}

/// Law: a string trimmed of a character does not end with it.
pub proof fn lemma_trim_end_char(s: Seq<char>, c: char)
    ensures
        trim_end_char(s, c).len() > 0 ==> trim_end_char(s, c).last() != c,
        trim_end_char(s, c).len() <= s.len(),
    decreases s.len(),
{
    if s.len() > 0 && s.last() == c {
        lemma_trim_end_char(s.drop_last(), c);
    }
}

/// Law: trimming removes only trailing copies of the character: the string
/// is its trimmed form followed by copies of `c`, and the trimmed form does
/// not end with `c`.
pub proof fn lemma_trim_end_char_splits(s: Seq<char>, c: char)
    ensures
        trim_end_char(s, c).len() <= s.len(),
        s == trim_end_char(s, c) + repeat(c, (s.len() - trim_end_char(s, c).len()) as nat),
        trim_end_char(s, c).len() > 0 ==> trim_end_char(s, c).last() != c,
    decreases s.len(),
{
    lemma_trim_end_char(s, c);
    if s.len() > 0 && s.last() == c {
        lemma_trim_end_char_splits(s.drop_last(), c);
        let t = trim_end_char(s, c);
        let k = (s.len() - t.len()) as nat;
        assert(repeat(c, (k - 1) as nat).push(c) =~= repeat(c, k));
        assert(s =~= s.drop_last().push(c));
        assert(t + repeat(c, k) =~= (t + repeat(c, (k - 1) as nat)).push(c));
    } else {
        assert(s + repeat(c, 0) =~= s);
    }
}

/// `s` without one trailing `'\r'`, if it has one.
pub open spec fn strip_cr(s: Seq<char>) -> Seq<char> {
    if s.len() > 0 && s.last() == '\r' {
        s.drop_last()
    } else {
        s
    }
}

/// The lines of `cur + s`, where `cur` is the part of the current line read
/// so far: lines end at `'\n'` (a `'\r'` just before it is dropped), and the
/// final line ending is optional.
pub open spec fn lines_from(s: Seq<char>, cur: Seq<char>) -> Seq<Seq<char>>
    decreases s.len(),
{
    if s.len() == 0 {
        if cur.len() == 0 {
            seq![]
        } else {
            seq![cur]
        }
    } else if s[0] == '\n' {
        seq![strip_cr(cur)] + lines_from(s.drop_first(), seq![])
    } else {
        lines_from(s.drop_first(), cur.push(s[0]))
    }
}

/// The lines of `s`, as `str::lines` yields them.
pub open spec fn lines(s: Seq<char>) -> Seq<Seq<char>> {
    lines_from(s, seq![])
}

/// The lines `ls`, each followed by a newline.
pub open spec fn unlines(ls: Seq<Seq<char>>) -> Seq<char>
    decreases ls.len(),
{
    if ls.len() == 0 {
        seq![]
    } else {
        ls[0] + "\n"@ + unlines(ls.drop_first())
    }
}

/// A line: no newline in it, and no carriage return at its end.
pub open spec fn is_line(l: Seq<char>) -> bool {
    &&& forall|i: int| 0 <= i < l.len() ==> l[i] != '\n'
    &&& l.len() > 0 ==> l.last() != '\r'
}

proof fn lemma_lines_from_line(l: Seq<char>, rest: Seq<char>, cur: Seq<char>)
    requires
        forall|i: int| 0 <= i < l.len() ==> l[i] != '\n',
    ensures
        lines_from(l + seq!['\n'] + rest, cur) == seq![strip_cr(cur + l)] + lines_from(rest, seq![]),
    decreases l.len(),
{
    let s = l + seq!['\n'] + rest;
    if l.len() == 0 {
        assert(s.drop_first() =~= rest);
        assert(cur + l =~= cur);
    } else {
        assert(s[0] == l[0]);
        assert(s.drop_first() =~= l.drop_first() + seq!['\n'] + rest);
        lemma_lines_from_line(l.drop_first(), rest, cur.push(l[0]));
        assert(cur.push(l[0]) + l.drop_first() =~= cur + l);
    }
}

/// Law: splitting text made of lines, each ended by a newline, gives back
/// exactly those lines.
pub proof fn lemma_lines_of_unlines(ls: Seq<Seq<char>>)
    requires
        forall|i: int| 0 <= i < ls.len() ==> is_line(#[trigger] ls[i]),
    ensures
        lines(unlines(ls)) == ls,
    decreases ls.len(),
{
    if ls.len() > 0 {
        let l = ls[0];
        assert(is_line(ls[0]));
        assert forall|i: int| 0 <= i < ls.drop_first().len() implies is_line(
            #[trigger] ls.drop_first()[i],
        ) by {
            assert(ls.drop_first()[i] == ls[i + 1]);
            assert(is_line(ls[i + 1]));
        }
        lemma_lines_of_unlines(ls.drop_first());
        reveal_strlit("\n");
        assert("\n"@ =~= seq!['\n']);
        lemma_lines_from_line(l, unlines(ls.drop_first()), seq![]);
        assert(Seq::<char>::empty() + l =~= l);
        assert(ls =~= seq![l] + ls.drop_first());
    }
}

/// Splits `s` into its lines.
pub fn split_lines(s: &Vec<char>) -> (ls: Vec<Vec<char>>)
    ensures
        ls@.len() == lines(s@).len(),
        forall|i: int| 0 <= i < ls@.len() ==> #[trigger] ls@[i]@ == lines(s@)[i],
{
    let mut ls: Vec<Vec<char>> = Vec::new();
    let mut cur: Vec<char> = Vec::new();
    let mut i: usize = 0;
    let ghost mut done: Seq<Seq<char>> = seq![];
    assert(s@.skip(0) =~= s@);
    assert(done + lines_from(s@.skip(0), cur@) =~= lines(s@));
    while i < s.len()
        invariant
            0 <= i <= s.len(),
            ls@.len() == done.len(),
            forall|k: int| 0 <= k < ls@.len() ==> #[trigger] ls@[k]@ == done[k],
            lines(s@) == done + lines_from(s@.skip(i as int), cur@),
        decreases s.len() - i,
    {
        let c = s[i];
        assert(s@.skip(i as int).drop_first() =~= s@.skip(i + 1));
        if c == '\n' {
            let ghost line = strip_cr(cur@);
            if cur.len() > 0 && cur[cur.len() - 1] == '\r' {
                cur.pop();
            }
            assert(cur@ == line);
            proof {
                done = done.push(line);
            }
            assert(lines(s@) =~= done + lines_from(s@.skip(i + 1), seq![]));
            ls.push(cur);
            cur = Vec::new();
        } else {
            cur.push(c);
        }
        i += 1;
    }
    assert(s@.skip(i as int) =~= Seq::<char>::empty());
    if cur.len() > 0 {
        proof {
            done = done.push(cur@);
        }
        ls.push(cur);
    }
    assert(lines(s@) =~= done);
    ls
}

/// Whether `c` has the Unicode `White_Space` property (the property that
/// `char::is_whitespace` reports): the 25 code points U+0009..U+000D, U+0020,
/// U+0085, U+00A0, U+1680, U+2000..U+200A, U+2028, U+2029, U+202F, U+205F and
/// U+3000.
pub open spec fn unicode_white_space(c: char) -> bool {
    ('\u{9}' <= c && c <= '\u{d}') || c == ' ' || c == '\u{85}' || c == '\u{a0}' || c
        == '\u{1680}' || ('\u{2000}' <= c && c <= '\u{200a}') || c == '\u{2028}' || c
        == '\u{2029}' || c == '\u{202f}' || c == '\u{205f}' || c == '\u{3000}'
}

/// Whether `c` is Unicode whitespace.
pub fn is_white_space(c: char) -> (r: bool)
    ensures
        r == unicode_white_space(c),
{
    ('\u{9}' <= c && c <= '\u{d}') || c == ' ' || c == '\u{85}' || c == '\u{a0}' || c
        == '\u{1680}' || ('\u{2000}' <= c && c <= '\u{200a}') || c == '\u{2028}' || c
        == '\u{2029}' || c == '\u{202f}' || c == '\u{205f}' || c == '\u{3000}'
}

/// The leading run of non-whitespace characters of `s`.
pub open spec fn word_prefix(s: Seq<char>) -> Seq<char>
    decreases s.len(),
{
    if s.len() == 0 || unicode_white_space(s[0]) {
        seq![]
    } else {
        seq![s[0]] + word_prefix(s.drop_first())
    }
}

/// The first whitespace-separated word of `s`, or nothing
/// (`s.split_whitespace().next().unwrap_or("")`).
pub open spec fn first_word(s: Seq<char>) -> Seq<char>
    decreases s.len(),
{
    if s.len() == 0 {
        seq![]
    } else if unicode_white_space(s[0]) {
        first_word(s.drop_first())
    } else {
        word_prefix(s)
    }
}

/// Law: the leading run of non-whitespace characters holds no whitespace,
/// starts `s`, and ends at the end of `s` or at a whitespace character.
pub proof fn lemma_word_prefix(s: Seq<char>)
    ensures
        ({
            let w = word_prefix(s);
            &&& w.len() <= s.len()
            &&& s.take(w.len() as int) == w
            &&& forall|i: int| 0 <= i < w.len() ==> !unicode_white_space(#[trigger] w[i])
            &&& w.len() < s.len() ==> unicode_white_space(s[w.len() as int])
        }),
    decreases s.len(),
{
    if s.len() > 0 && !unicode_white_space(s[0]) {
        let r = s.drop_first();
        lemma_word_prefix(r);
        let w = word_prefix(s);
        let wr = word_prefix(r);
        assert(w == seq![s[0]] + wr);
        assert(s.take(w.len() as int) =~= seq![s[0]] + r.take(wr.len() as int));
        assert forall|i: int| 0 <= i < w.len() implies !unicode_white_space(#[trigger] w[i]) by {
            if i > 0 {
                assert(w[i] == wr[i - 1]);
            }
        }
        if w.len() < s.len() {
            assert(s[w.len() as int] == r[wr.len() as int]);
        }
    } else {
        assert(s.take(0) =~= Seq::<char>::empty());
    }
}

/// The number of whitespace characters that `s` starts with.
pub open spec fn leading_white(s: Seq<char>) -> nat
    decreases s.len(),
{
    if s.len() > 0 && unicode_white_space(s[0]) {
        1 + leading_white(s.drop_first())
    } else {
        0
    }
}

/// Law: the first word of `s` is what follows its leading whitespace, up to
/// the next whitespace or the end; it is empty exactly when `s` is all
/// whitespace.
pub proof fn lemma_first_word(s: Seq<char>)
    ensures
        ({
            let k = leading_white(s) as int;
            &&& k <= s.len()
            &&& forall|i: int| 0 <= i < k ==> unicode_white_space(#[trigger] s[i])
            &&& k < s.len() ==> !unicode_white_space(s[k])
            &&& first_word(s) == word_prefix(s.skip(k))
        }),
        (first_word(s).len() == 0) == (forall|i: int|
            0 <= i < s.len() ==> unicode_white_space(#[trigger] s[i])),
    decreases s.len(),
{
    if s.len() == 0 {
        assert(s.skip(0) =~= s);
    } else if unicode_white_space(s[0]) {
        let r = s.drop_first();
        lemma_first_word(r);
        let k = leading_white(r) as int;
        assert(r.skip(k) =~= s.skip(k + 1));
        assert forall|i: int| 0 <= i < k + 1 implies unicode_white_space(#[trigger] s[i]) by {
            if i > 0 {
                assert(s[i] == r[i - 1]);
            }
        }
        if k + 1 < s.len() {
            assert(s[k + 1] == r[k]);
        }
        if forall|i: int| 0 <= i < r.len() ==> unicode_white_space(#[trigger] r[i]) {
            assert forall|i: int| 0 <= i < s.len() implies unicode_white_space(#[trigger] s[i]) by {
                if i > 0 {
                    assert(s[i] == r[i - 1]);
                }
            }
        } else {
            let j = choose|j: int| 0 <= j < r.len() && !unicode_white_space(#[trigger] r[j]);
            assert(s[j + 1] == r[j]);
        }
    } else {
        assert(s.skip(0) =~= s);
        assert(word_prefix(s).len() > 0);
    }
}

/// The first whitespace-separated word of `s`.
pub fn first_word_of(s: &str) -> (w: Vec<char>)
    ensures
        w@ == first_word(s@),
{
    let cs = chars_of(s);
    let mut i: usize = 0;
    assert(cs@.skip(0) =~= cs@);
    while i < cs.len() && is_white_space(cs[i])
        invariant
            0 <= i <= cs.len(),
            cs@ == s@,
            first_word(s@) == first_word(cs@.skip(i as int)),
        decreases cs.len() - i,
    {
        assert(cs@.skip(i as int).drop_first() =~= cs@.skip(i + 1));
        i += 1;
    }
    let mut w: Vec<char> = Vec::new();
    let start = i;
    assert(first_word(s@) == word_prefix(cs@.skip(i as int)));
    while i < cs.len() && !is_white_space(cs[i])
        invariant
            start <= i <= cs.len(),
            cs@ == s@,
            first_word(s@) == w@ + word_prefix(cs@.skip(i as int)),
        decreases cs.len() - i,
    {
        assert(cs@.skip(i as int).drop_first() =~= cs@.skip(i + 1));
        assert(word_prefix(cs@.skip(i as int)) == seq![cs@[i as int]] + word_prefix(
            cs@.skip(i + 1),
        ));
        w.push(cs[i]);
        i += 1;
        assert(first_word(s@) =~= w@ + word_prefix(cs@.skip(i as int)));
    }
    assert(word_prefix(cs@.skip(i as int)) =~= Seq::<char>::empty());
    assert(first_word(s@) =~= w@);
    w
}

} // verus!
