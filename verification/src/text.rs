//! Reading and writing small pieces of text.

use vstd::prelude::*;

verus! {

/// [`String::push`] appends one character.
pub assume_specification[ String::push ](s: &mut String, c: char)
    ensures
        final(s)@ == old(s)@.push(c),
;

/// The decimal digit `d`.
pub open spec fn digit(d: nat) -> char {
    (('0' as nat) + d) as char
}

/// `n` in decimal, without leading zeros.
pub open spec fn decimal_digits(n: nat) -> Seq<char>
    decreases n,
{
    if n < 10 {
        seq![digit(n)]
    } else {
        decimal_digits(n / 10).push(digit(n % 10))
    }
}

/// `n` in decimal.
pub fn decimal(n: u64) -> (s: String)
    ensures
        s@ == decimal_digits(n as nat),
    decreases n,
{
    let mut s: String = if n < 10 {
        String::new()
    } else {
        decimal(n / 10)
    };
    let d: u8 = (n % 10) as u8;
    s.push((48u8 + d) as char);
    assert(s@ =~= decimal_digits(n as nat));
    s
}

/// `n` between `before` and `after`, in decimal.
pub fn numbered(before: &str, n: u64, after: &str) -> (s: String)
    ensures
        s@ == before@ + decimal_digits(n as nat) + after@,
{
    let mut s: String = before.to_owned();
    s.append(decimal(n).as_str());
    s.append(after);
    s
}

/// The characters of `s`.
pub fn chars_of(s: &str) -> (v: Vec<char>)
    ensures
        v@ == s@,
{
    let mut v: Vec<char> = Vec::new();
    for c in it: s.chars()
        invariant
            it.seq() == s@,
            v@ == s@.take(it.index() as int),
    {
        v.push(c);
        assert(v@ =~= s@.take(it.index() + 1));
    }
    assert(v@ =~= s@);
    v
}

/// The string of these characters.
pub fn string_of(chars: &[char]) -> (s: String)
    ensures
        s@ == chars@,
{
    let mut s: String = String::new();
    let mut i: usize = 0;
    while i < chars.len()
        invariant
            i <= chars@.len(),
            s@ == chars@.take(i as int),
        decreases chars@.len() - i,
    {
        s.push(chars[i]);
        i = i + 1;
        assert(s@ =~= chars@.take(i as int));
    }
    assert(s@ =~= chars@);
    s
}

/// Whether Unicode counts a character as white space.
pub open spec fn is_space(c: char) -> bool {
    let n = c as u32;
    ||| 0x09 <= n <= 0x0d
    ||| n == 0x20
    ||| n == 0x85
    ||| n == 0xa0
    ||| n == 0x1680
    ||| 0x2000 <= n <= 0x200a
    ||| n == 0x2028
    ||| n == 0x2029
    ||| n == 0x202f
    ||| n == 0x205f
    ||| n == 0x3000
}

fn space(c: char) -> (b: bool)
    ensures
        b == is_space(c),
{
    let n: u32 = c as u32;
    (0x09 <= n && n <= 0x0d) || n == 0x20 || n == 0x85 || n == 0xa0 || n == 0x1680 || (0x2000 <= n
        && n <= 0x200a) || n == 0x2028 || n == 0x2029 || n == 0x202f || n == 0x205f || n == 0x3000
}

/// How many characters there are before the first white space.
pub open spec fn word_len(s: Seq<char>) -> nat
    decreases s.len(),
{
    if s.len() == 0 || is_space(s[0]) {
        0
    } else {
        1 + word_len(s.skip(1))
    }
}

/// The words of a text, without the white space around them.
pub open spec fn words(s: Seq<char>) -> Seq<Seq<char>>
    decreases s.len(),
{
    if s.len() == 0 {
        Seq::empty()
    } else if is_space(s[0]) {
        words(s.skip(1))
    } else {
        let n = word_len(s);
        if 0 < n <= s.len() {
            seq![s.take(n as int)] + words(s.skip(n as int))
        } else {
            Seq::empty()
        }
    }
}

proof fn lemma_word_len(s: Seq<char>)
    ensures
        word_len(s) <= s.len(),
        s.len() > 0 && !is_space(s[0]) ==> word_len(s) > 0,
    decreases s.len(),
{
    if s.len() > 0 && !is_space(s[0]) {
        lemma_word_len(s.skip(1));
    }
}

/// Some characters of a text.
pub fn part(s: &[char], from: usize, to: usize) -> (v: Vec<char>)
    requires
        from <= to <= s@.len(),
    ensures
        v@ == s@.subrange(from as int, to as int),
{
    let mut v: Vec<char> = Vec::new();
    let mut i: usize = from;
    while i < to
        invariant
            from <= i <= to <= s@.len(),
            v@ == s@.subrange(from as int, i as int),
        decreases to - i,
    {
        v.push(s[i]);
        i = i + 1;
        assert(v@ =~= s@.subrange(from as int, i as int));
    }
    v
}

/// Some texts, as sequences.
pub open spec fn texts(v: Seq<Vec<char>>) -> Seq<Seq<char>> {
    v.map_values(|w: Vec<char>| w@)
}

/// Splits a text at its white space.
pub fn split_words(s: &[char]) -> (v: Vec<Vec<char>>)
    ensures
        texts(v@) == words(s@),
{
    let mut v: Vec<Vec<char>> = Vec::new();
    let mut i: usize = 0;
    assert(s@.skip(0) =~= s@);
    assert(texts(v@) + words(s@) =~= words(s@));
    while i < s.len()
        invariant
            i <= s@.len(),
            texts(v@) + words(s@.skip(i as int)) == words(s@),
        decreases s@.len() - i,
    {
        let ghost rest = s@.skip(i as int);
        assert(rest[0] == s@[i as int]);
        if space(s[i]) {
            assert(rest.skip(1) =~= s@.skip(i + 1));
            i = i + 1;
        } else {
            let from: usize = i;
            proof {
                lemma_word_len(rest);
            }
            while i < s.len() && !space(s[i])
                invariant
                    from <= i <= s@.len(),
                    rest == s@.skip(from as int),
                    word_len(rest) == (i - from) + word_len(s@.skip(i as int)),
                decreases s@.len() - i,
            {
                assert(s@.skip(i as int)[0] == s@[i as int]);
                assert(s@.skip(i as int).skip(1) =~= s@.skip(i + 1));
                i = i + 1;
            }
            assert(i < s@.len() ==> s@.skip(i as int)[0] == s@[i as int]);
            let word: Vec<char> = part(s, from, i);
            proof {
                let n = word_len(rest) as int;
                assert(n == i - from);
                assert(rest.take(n) =~= word@);
                assert(rest.skip(n) =~= s@.skip(i as int));
                assert(words(rest) =~= seq![word@] + words(s@.skip(i as int)));
                assert(texts(v@.push(word)) =~= texts(v@).push(word@));
                assert(texts(v@).push(word@) + words(s@.skip(i as int)) =~= texts(v@) + words(
                    rest,
                ));
            }
            v.push(word);
        }
    }
    assert(s@.skip(i as int) =~= Seq::<char>::empty());
    assert(texts(v@) + words(s@.skip(i as int)) =~= texts(v@));
    v
}

/// How many characters there are before the first `c`.
pub open spec fn len_before(s: Seq<char>, c: char) -> nat
    decreases s.len(),
{
    if s.len() == 0 || s[0] == c {
        0
    } else {
        1 + len_before(s.skip(1), c)
    }
}

/// Where the first `c` is, or the end.
pub(crate) fn find_char(s: &[char], from: usize, c: char) -> (i: usize)
    requires
        from <= s@.len(),
    ensures
        from <= i <= s@.len(),
        i - from == len_before(s@.skip(from as int), c),
        i < s@.len() ==> s@[i as int] == c,
{
    let mut i: usize = from;
    while i < s.len() && s[i] != c
        invariant
            from <= i <= s@.len(),
            len_before(s@.skip(from as int), c) == (i - from) + len_before(s@.skip(i as int), c),
        decreases s@.len() - i,
    {
        assert(s@.skip(i as int)[0] == s@[i as int]);
        assert(s@.skip(i as int).skip(1) =~= s@.skip(i + 1));
        i = i + 1;
    }
    assert(i < s@.len() ==> s@.skip(i as int)[0] == s@[i as int]);
    i
}

/// A line that ended in a line feed, without the carriage return before it.
pub open spec fn without_cr(line: Seq<char>) -> Seq<char> {
    if line.len() > 0 && line.last() == '\r' {
        line.drop_last()
    } else {
        line
    }
}

/// The lines of a text, without their endings.
pub open spec fn lines(s: Seq<char>) -> Seq<Seq<char>>
    decreases s.len(),
{
    let n = len_before(s, '\n') as int;
    if s.len() == 0 {
        Seq::empty()
    } else if n < s.len() {
        seq![without_cr(s.take(n))] + lines(s.skip(n + 1))
    } else {
        seq![s]
    }
}

/// Splits a text into lines.
pub fn split_lines(s: &[char]) -> (v: Vec<Vec<char>>)
    ensures
        texts(v@) == lines(s@),
{
    let mut v: Vec<Vec<char>> = Vec::new();
    let mut i: usize = 0;
    assert(s@.skip(0) =~= s@);
    assert(texts(v@) + lines(s@) =~= lines(s@));
    while i < s.len()
        invariant
            i <= s@.len(),
            texts(v@) + lines(s@.skip(i as int)) == lines(s@),
        decreases s@.len() - i,
    {
        let ghost rest = s@.skip(i as int);
        let end: usize = find_char(s, i, '\n');
        if end == s.len() {
            let line: Vec<char> = part(s, i, end);
            proof {
                assert(line@ =~= rest);
                assert(lines(rest) =~= seq![line@]);
                assert(texts(v@.push(line)) =~= texts(v@) + lines(rest));
                assert(s@.skip(end as int) =~= Seq::<char>::empty());
                assert(texts(v@.push(line)) + lines(s@.skip(end as int)) =~= texts(v@.push(line)));
            }
            v.push(line);
            i = end;
        } else {
            let to: usize = if end > i && s[end - 1] == '\r' {
                end - 1
            } else {
                end
            };
            let line: Vec<char> = part(s, i, to);
            proof {
                let n = end - i;
                assert(rest.take(n) =~= s@.subrange(i as int, end as int));
                assert(without_cr(rest.take(n)) =~= line@);
                assert(rest.skip(n + 1) =~= s@.skip(end + 1));
                assert(lines(rest) =~= seq![line@] + lines(s@.skip(end + 1)));
                assert(texts(v@.push(line)) =~= texts(v@).push(line@));
                assert(texts(v@).push(line@) + lines(s@.skip(end + 1)) =~= texts(v@) + lines(
                    rest,
                ));
            }
            v.push(line);
            i = end + 1;
        }
    }
    assert(s@.skip(i as int) =~= Seq::<char>::empty());
    assert(texts(v@) + lines(s@.skip(i as int)) =~= texts(v@));
    v
}

/// A text without the white space at its start.
pub open spec fn trimmed_start(s: Seq<char>) -> Seq<char>
    decreases s.len(),
{
    if s.len() > 0 && is_space(s[0]) {
        trimmed_start(s.skip(1))
    } else {
        s
    }
}

/// A text without the white space at its end.
pub open spec fn trimmed_end(s: Seq<char>) -> Seq<char>
    decreases s.len(),
{
    if s.len() > 0 && is_space(s.last()) {
        trimmed_end(s.drop_last())
    } else {
        s
    }
}

/// A text without the white space at either end.
pub open spec fn trimmed(s: Seq<char>) -> Seq<char> {
    trimmed_end(trimmed_start(s))
}

/// Takes the white space off both ends.
pub fn trim(s: &[char]) -> (v: Vec<char>)
    ensures
        v@ == trimmed(s@),
{
    let mut from: usize = 0;
    assert(s@.skip(0) =~= s@);
    while from < s.len() && space(s[from])
        invariant
            from <= s@.len(),
            trimmed_start(s@) == trimmed_start(s@.skip(from as int)),
        decreases s@.len() - from,
    {
        assert(s@.skip(from as int)[0] == s@[from as int]);
        assert(s@.skip(from as int).skip(1) =~= s@.skip(from + 1));
        from = from + 1;
    }
    assert(from < s@.len() ==> s@.skip(from as int)[0] == s@[from as int]);
    assert(trimmed_start(s@) == s@.skip(from as int));
    let mut to: usize = s.len();
    assert(s@.subrange(from as int, to as int) =~= s@.skip(from as int));
    while to > from && space(s[to - 1])
        invariant
            from <= to <= s@.len(),
            trimmed(s@) == trimmed_end(s@.subrange(from as int, to as int)),
        decreases to,
    {
        let ghost rest = s@.subrange(from as int, to as int);
        assert(rest.last() == s@[to - 1]);
        assert(rest.drop_last() =~= s@.subrange(from as int, to - 1));
        to = to - 1;
    }
    assert(to > from ==> s@.subrange(from as int, to as int).last() == s@[to - 1]);
    part(s, from, to)
}

/// Whether a text starts with another.
pub fn starts_with(s: &[char], prefix: &str) -> (b: bool)
    ensures
        b <==> prefix@.is_prefix_of(s@),
{
    let p: Vec<char> = chars_of(prefix);
    if p.len() > s.len() {
        return false;
    }
    let mut i: usize = 0;
    while i < p.len()
        invariant
            i <= p@.len() <= s@.len(),
            p@ == prefix@,
            forall|j: int| 0 <= j < i ==> p@[j] == s@[j],
        decreases p@.len() - i,
    {
        if p[i] != s[i] {
            assert(prefix@[i as int] != s@.take(prefix@.len() as int)[i as int]);
            return false;
        }
        i = i + 1;
    }
    assert(prefix@ =~= s@.take(prefix@.len() as int));
    true
}

/// A text after a prefix, if it has it.
pub open spec fn after_prefix(s: Seq<char>, prefix: Seq<char>) -> Option<Seq<char>> {
    if prefix.is_prefix_of(s) {
        Some(s.skip(prefix.len() as int))
    } else {
        None
    }
}

/// The number a digit stands for, if it is one in this radix.
pub open spec fn digit_value(c: char, radix: nat) -> Option<nat> {
    let n = c as nat;
    let v = if 0x30 <= n <= 0x39 {
        Some((n - 0x30) as nat)
    } else if 0x61 <= n <= 0x7a {
        Some((n - 0x61 + 10) as nat)
    } else if 0x41 <= n <= 0x5a {
        Some((n - 0x41 + 10) as nat)
    } else {
        None
    };
    match v {
        Some(v) => if v < radix {
            Some(v)
        } else {
            None
        },
        None => None,
    }
}

/// The number some digits stand for, if they all are digits in this radix.
pub open spec fn digits_value(s: Seq<char>, radix: nat) -> Option<nat>
    decreases s.len(),
{
    if s.len() == 0 {
        Some(0)
    } else {
        match (digits_value(s.drop_last(), radix), digit_value(s.last(), radix)) {
            (Some(v), Some(d)) => Some(v * radix + d),
            _ => None,
        }
    }
}

/// The number a text stands for: digits, at least one, and a plus sign before
/// them if there is any sign; at most `max`.
pub open spec fn number(s: Seq<char>, radix: nat, max: nat) -> Option<nat> {
    let digits = if s.len() > 0 && s[0] == '+' {
        s.skip(1)
    } else {
        s
    };
    match digits_value(digits, radix) {
        Some(v) => if digits.len() > 0 && v <= max {
            Some(v)
        } else {
            None
        },
        None => None,
    }
}

/// Fewer digits stand for no greater a number.
proof fn lemma_digits_grow(s: Seq<char>, n: int, radix: nat)
    requires
        0 <= n <= s.len(),
        radix >= 1,
        digits_value(s, radix) is Some,
    ensures
        digits_value(s.take(n), radix) is Some,
        digits_value(s.take(n), radix)->0 <= digits_value(s, radix)->0,
    decreases s.len(),
{
    if n == s.len() {
        assert(s.take(n) =~= s);
    } else {
        let most = s.drop_last();
        lemma_digits_grow(most, n, radix);
        assert(most.take(n) =~= s.take(n));
        let v = digits_value(most, radix)->0;
        assert(v <= v * radix) by (nonlinear_arith)
            requires
                radix >= 1,
        ;
    }
}

/// The number a digit stands for.
fn digit_of(c: char, radix: u64) -> (v: Option<u64>)
    requires
        radix <= 36,
    ensures
        match v {
            Some(v) => digit_value(c, radix as nat) == Some(v as nat),
            None => digit_value(c, radix as nat) is None,
        },
{
    let n: u32 = c as u32;
    let v: u64 = if 0x30 <= n && n <= 0x39 {
        (n - 0x30) as u64
    } else if 0x61 <= n && n <= 0x7a {
        (n - 0x61) as u64 + 10
    } else if 0x41 <= n && n <= 0x5a {
        (n - 0x41) as u64 + 10
    } else {
        return None;
    };
    if v < radix {
        Some(v)
    } else {
        None
    }
}

/// The number a text stands for, at most `max`.
pub fn parse(s: &[char], radix: u64, max: u64) -> (v: Option<u64>)
    requires
        2 <= radix <= 36,
    ensures
        match v {
            Some(v) => number(s@, radix as nat, max as nat) == Some(v as nat),
            None => number(s@, radix as nat, max as nat) is None,
        },
{
    let from: usize = if s.len() > 0 && s[0] == '+' {
        1
    } else {
        0
    };
    let ghost digits = s@.skip(from as int);
    assert(s@.skip(0) =~= s@);
    if from == s.len() {
        return None;
    }
    let mut v: u64 = 0;
    let mut i: usize = from;
    assert(digits.take(0) =~= Seq::<char>::empty());
    while i < s.len()
        invariant
            from <= i <= s@.len(),
            2 <= radix <= 36,
            digits == s@.skip(from as int),
            v <= max,
            digits_value(digits.take(i - from), radix as nat) == Some(v as nat),
            number(s@, radix as nat, max as nat) == (match digits_value(digits, radix as nat) {
                Some(v) => if v <= max {
                    Some(v)
                } else {
                    None
                },
                None => None,
            }),
        decreases s@.len() - i,
    {
        let ghost before = digits.take(i - from);
        let ghost now = digits.take(i + 1 - from);
        proof {
            assert(now.drop_last() =~= before);
            assert(now.last() == s@[i as int]);
            if digits_value(digits, radix as nat) is Some {
                lemma_digits_grow(digits, i + 1 - from, radix as nat);
            }
            assert(0 <= v * radix <= 0xffff_ffff_ffff_ffff * 36) by (nonlinear_arith)
                requires
                    0 <= v <= 0xffff_ffff_ffff_ffff,
                    2 <= radix <= 36,
            ;
        }
        let d: u64 = match digit_of(s[i], radix) {
            Some(d) => d,
            None => return None,
        };
        let next: u128 = v as u128 * radix as u128 + d as u128;
        if next > max as u128 {
            return None;
        }
        v = next as u64;
        i = i + 1;
    }
    assert(digits.take(i - from) =~= digits);
    Some(v)
}

/// The digits of a decimal stand for their number.
proof fn lemma_decimal_digits(n: nat)
    ensures
        digits_value(decimal_digits(n), 10) == Some(n),
        decimal_digits(n).len() > 0,
        decimal_digits(n)[0] != '+',
    decreases n,
{
    let d = n % 10;
    assert(digit_value(digit(d), 10) == Some(d));
    if n < 10 {
        assert(seq![digit(n)].drop_last() =~= Seq::<char>::empty());
        assert(digits_value(Seq::<char>::empty(), 10) == Some(0nat));
        assert(seq![digit(n)].last() == digit(d));
    } else {
        lemma_decimal_digits(n / 10);
        let most = decimal_digits(n / 10);
        assert(most.push(digit(d)).drop_last() =~= most);
        assert(most.push(digit(d))[0] == most[0]);
        assert(most.push(digit(d)).last() == digit(d));
        assert((n / 10) * 10 + d == n);
    }
}

/// A larger number has no fewer digits.
proof fn lemma_decimal_grows(n: nat, m: nat)
    requires
        n <= m,
    ensures
        decimal_digits(n).len() <= decimal_digits(m).len(),
    decreases m,
{
    if n >= 10 {
        lemma_decimal_grows(n / 10, m / 10);
    }
}

/// A machine's number has at most twenty digits.
pub(crate) proof fn lemma_decimal_length(n: nat)
    requires
        n <= u64::MAX,
    ensures
        decimal_digits(n).len() <= 20,
{
    lemma_decimal_grows(n, u64::MAX as nat);
    reveal_with_fuel(decimal_digits, 21);
}

/// A number written in decimal reads back as itself.
pub proof fn law_a_decimal_reads_back(n: nat, max: nat)
    requires
        n <= max,
    ensures
        number(decimal_digits(n), 10, max) == Some(n),
{
    lemma_decimal_digits(n);
}

/// Some texts, with `sep` between them.
pub open spec fn joined(v: Seq<Seq<char>>, sep: Seq<char>) -> Seq<char>
    decreases v.len(),
{
    if v.len() == 0 {
        Seq::empty()
    } else if v.len() == 1 {
        v[0]
    } else {
        joined(v.drop_last(), sep) + sep + v.last()
    }
}

/// Joins the texts from `from` on, with `sep` between them.
pub fn join(v: &Vec<Vec<char>>, from: usize, sep: &str) -> (s: String)
    requires
        from <= v@.len(),
    ensures
        s@ == joined(texts(v@).skip(from as int), sep@),
{
    let mut s: String = String::new();
    let mut i: usize = from;
    let ghost all = texts(v@).skip(from as int);
    assert(all.take(0) =~= Seq::<Seq<char>>::empty());
    while i < v.len()
        invariant
            from <= i <= v@.len(),
            all == texts(v@).skip(from as int),
            s@ == joined(all.take(i - from), sep@),
        decreases v@.len() - i,
    {
        let ghost before = all.take(i - from);
        let ghost now = all.take(i + 1 - from);
        assert(now.drop_last() =~= before);
        assert(now.last() == v@[i as int]@);
        let ghost so_far = s@;
        if i > from {
            s.append(sep);
        }
        s.append(string_of(v[i].as_slice()).as_str());
        assert(s@ =~= joined(now, sep@));
        i = i + 1;
    }
    assert(all.take(i - from) =~= all);
    s
}

/// Whether `needle` occurs in `hay` at `i`.
pub open spec fn occurs_at<A>(hay: Seq<A>, needle: Seq<A>, i: int) -> bool {
    0 <= i && i + needle.len() <= hay.len() && hay.subrange(i, i + needle.len()) == needle
}

/// Whether `needle` occurs in `hay`.
pub open spec fn occurs<A>(hay: Seq<A>, needle: Seq<A>) -> bool {
    exists|i: int| #[trigger] occurs_at(hay, needle, i)
}

/// Whether `needle` occurs in `hay`.
pub fn contains(hay: &[char], needle: &[char]) -> (b: bool)
    ensures
        b <==> occurs(hay@, needle@),
{
    if needle.len() > hay.len() {
        return false;
    }
    let mut i: usize = 0;
    while i <= hay.len() - needle.len()
        invariant
            needle@.len() <= hay@.len() <= usize::MAX,
            i <= hay@.len() - needle@.len() + 1,
            forall|j: int| 0 <= j < i ==> !#[trigger] occurs_at(hay@, needle@, j),
        decreases hay@.len() - needle@.len() + 1 - i,
    {
        let mut k: usize = 0;
        while k < needle.len() && hay[i + k] == needle[k]
            invariant
                k <= needle@.len(),
                i + needle@.len() <= hay@.len() <= usize::MAX,
                forall|j: int| 0 <= j < k ==> hay@[i + j] == needle@[j],
            decreases needle@.len() - k,
        {
            k = k + 1;
        }
        if k == needle.len() {
            assert(hay@.subrange(i as int, i + needle@.len()) =~= needle@);
            assert(occurs_at(hay@, needle@, i as int));
            return true;
        }
        assert(hay@.subrange(i as int, i + needle@.len())[k as int] != needle@[k as int]);
        if i == hay.len() - needle.len() {
            return false;
        }
        i = i + 1;
    }
    false
}

/// Each byte, as the character with its number.
pub open spec fn as_chars(bytes: Seq<u8>) -> Seq<char> {
    bytes.map_values(|b: u8| b as char)
}

/// Each byte, as the character with its number.
fn chars_from(bytes: &[u8]) -> (v: Vec<char>)
    ensures
        v@ == as_chars(bytes@),
{
    let mut v: Vec<char> = Vec::new();
    let mut i: usize = 0;
    while i < bytes.len()
        invariant
            i <= bytes@.len(),
            v@.len() == i,
            forall|j: int| 0 <= j < i ==> v@[j] == bytes@[j] as char,
        decreases bytes@.len() - i,
    {
        v.push(bytes[i] as char);
        i = i + 1;
    }
    assert(v@ =~= as_chars(bytes@));
    v
}

/// Bytes occur where their characters do.
proof fn lemma_chars_occur_with_bytes(hay: Seq<u8>, needle: Seq<u8>, i: int)
    ensures
        occurs_at(as_chars(hay), as_chars(needle), i) <==> occurs_at(hay, needle, i),
{
    if 0 <= i && i + needle.len() <= hay.len() {
        let here = hay.subrange(i, i + needle.len());
        assert(as_chars(hay).subrange(i, i + needle.len()) =~= as_chars(here));
        if as_chars(here) == as_chars(needle) {
            assert forall|j: int| 0 <= j < needle.len() implies here[j] == needle[j] by {
                assert(as_chars(here)[j] == as_chars(needle)[j]);
            }
            assert(here =~= needle);
        }
    }
}

/// Whether `needle` occurs in `hay`.
pub fn contains_bytes(hay: &[u8], needle: &[u8]) -> (b: bool)
    ensures
        b <==> occurs(hay@, needle@),
{
    proof {
        assert forall|i: int| #[trigger]
            occurs_at(as_chars(hay@), as_chars(needle@), i) <==> occurs_at(hay@, needle@, i) by {
            lemma_chars_occur_with_bytes(hay@, needle@, i);
        }
        assert forall|i: int| #[trigger] occurs_at(hay@, needle@, i) implies occurs_at(
            as_chars(hay@),
            as_chars(needle@),
            i,
        ) by {
            lemma_chars_occur_with_bytes(hay@, needle@, i);
        }
    }
    contains(chars_from(hay).as_slice(), chars_from(needle).as_slice())
}

/// The white space of ASCII is the tab, the line feed, the vertical tab, the
/// form feed, the carriage return and the space.
pub proof fn law_the_white_space_of_ascii(c: char)
    requires
        (c as u32) < 128,
    ensures
        is_space(c) <==> c == '\t' || c == '\n' || c == '\u{b}' || c == '\u{c}' || c == '\r' || c
            == ' ',
{
}

/// Whether a text is all white space.
pub open spec fn blank(s: Seq<char>) -> bool {
    forall|i: int| 0 <= i < s.len() ==> is_space(#[trigger] s[i])
}

/// Whether a text has no white space in it.
pub open spec fn solid(s: Seq<char>) -> bool {
    forall|i: int| 0 <= i < s.len() ==> !is_space(#[trigger] s[i])
}

/// Trimming takes the white space off both ends, and nothing else: what begins
/// and ends with something else comes back from any white space around it.
pub proof fn law_trimming_gives_back_what_white_space_surrounds(
    before: Seq<char>,
    s: Seq<char>,
    after: Seq<char>,
)
    requires
        blank(before),
        blank(after),
        s.len() > 0,
        !is_space(s[0]),
        !is_space(s.last()),
    ensures
        trimmed(before + s + after) == s,
{
    lemma_trimmed_start(before, s + after);
    assert(before + s + after =~= before + (s + after));
    lemma_trimmed_end(s, after);
}

/// Nothing is left of white space.
pub proof fn law_nothing_is_left_of_white_space(s: Seq<char>)
    requires
        blank(s),
    ensures
        trimmed(s) == Seq::<char>::empty(),
        words(s) == Seq::<Seq<char>>::empty(),
    decreases s.len(),
{
    if s.len() > 0 {
        assert(blank(s.skip(1))) by {
            assert forall|i: int| 0 <= i < s.skip(1).len() implies is_space(
                #[trigger] s.skip(1)[i],
            ) by {
                assert(s.skip(1)[i] == s[i + 1]);
            }
        }
        law_nothing_is_left_of_white_space(s.skip(1));
    } else {
        assert(s =~= Seq::empty());
    }
}

proof fn lemma_trimmed_start(before: Seq<char>, s: Seq<char>)
    requires
        blank(before),
        s.len() > 0,
        !is_space(s[0]),
    ensures
        trimmed_start(before + s) == s,
    decreases before.len(),
{
    if before.len() > 0 {
        assert((before + s)[0] == before[0]);
        assert((before + s).skip(1) =~= before.skip(1) + s);
        assert forall|i: int| 0 <= i < before.skip(1).len() implies is_space(
            #[trigger] before.skip(1)[i],
        ) by {
            assert(before.skip(1)[i] == before[i + 1]);
        }
        lemma_trimmed_start(before.skip(1), s);
    } else {
        assert(before + s =~= s);
    }
}

proof fn lemma_trimmed_end(s: Seq<char>, after: Seq<char>)
    requires
        blank(after),
        s.len() > 0,
        !is_space(s.last()),
    ensures
        trimmed_end(s + after) == s,
    decreases after.len(),
{
    if after.len() > 0 {
        assert((s + after).last() == after.last());
        assert((s + after).drop_last() =~= s + after.drop_last());
        lemma_trimmed_end(s, after.drop_last());
    } else {
        assert(s + after =~= s);
    }
}

proof fn lemma_word_ends(word: Seq<char>, rest: Seq<char>)
    requires
        solid(word),
        rest.len() == 0 || is_space(rest[0]),
    ensures
        word_len(word + rest) == word.len(),
    decreases word.len(),
{
    if word.len() > 0 {
        assert((word + rest)[0] == word[0]);
        assert((word + rest).skip(1) =~= word.skip(1) + rest);
        assert forall|i: int| 0 <= i < word.skip(1).len() implies !is_space(
            #[trigger] word.skip(1)[i],
        ) by {
            assert(word.skip(1)[i] == word[i + 1]);
        }
        lemma_word_ends(word.skip(1), rest);
    } else {
        assert(word + rest =~= rest);
    }
}

/// Words are what white space separates: a word and what follows it, with the
/// white space between them, is that word and the words of what follows.
pub proof fn law_white_space_separates_words(word: Seq<char>, space: char, rest: Seq<char>)
    requires
        word.len() > 0,
        solid(word),
        is_space(space),
    ensures
        words(word) == seq![word],
        words(word + seq![space] + rest) == seq![word] + words(rest),
        words(seq![space] + rest) == words(rest),
{
    let tail = seq![space] + rest;
    let whole = word + seq![space] + rest;
    assert(whole =~= word + tail);
    assert(tail.skip(1) =~= rest);
    assert(words(tail) == words(rest));
    lemma_word_ends(word, tail);
    assert(whole[0] == word[0]);
    assert(whole.take(word.len() as int) =~= word);
    assert(whole.skip(word.len() as int) =~= tail);
    let none = Seq::<char>::empty();
    lemma_word_ends(word, none);
    assert(word + none =~= word);
    assert(word.take(word.len() as int) =~= word);
    assert(word.skip(word.len() as int) =~= none);
    assert(words(none) =~= Seq::empty());
    assert(words(word) =~= seq![word]);
}

pub(crate) proof fn lemma_len_before(line: Seq<char>, c: char, rest: Seq<char>)
    requires
        !line.contains(c),
        rest.len() == 0 || rest[0] == c,
    ensures
        len_before(line + rest, c) == line.len(),
    decreases line.len(),
{
    if line.len() > 0 {
        assert((line + rest)[0] == line[0]);
        assert(line.contains(line[0]));
        assert((line + rest).skip(1) =~= line.skip(1) + rest);
        if line.skip(1).contains(c) {
            let i = choose|i: int| 0 <= i < line.skip(1).len() && line.skip(1)[i] == c;
            assert(line[i + 1] == c);
        }
        lemma_len_before(line.skip(1), c, rest);
    } else {
        assert(line + rest =~= rest);
    }
}

/// Lines are what line feeds end, with or without a carriage return before
/// them; a last line needs no end, and keeps what it has.
pub proof fn law_line_feeds_end_lines(line: Seq<char>, rest: Seq<char>)
    requires
        !line.contains('\n'),
    ensures
        line.len() > 0 ==> lines(line) == seq![line],
        line.len() == 0 || line.last() != '\r' ==> lines(line + seq!['\n'] + rest) == seq![line]
            + lines(rest),
        lines(line + seq!['\r', '\n'] + rest) == seq![line] + lines(rest),
{
    let none = Seq::<char>::empty();
    lemma_len_before(line, '\n', none);
    assert(line + none =~= line);
    let ended = seq!['\n'] + rest;
    let whole = line + seq!['\n'] + rest;
    lemma_len_before(line, '\n', ended);
    assert(whole =~= line + ended);
    assert(whole.take(line.len() as int) =~= line);
    assert(whole.skip(line.len() as int + 1) =~= rest);
    let with_cr = line.push('\r');
    let both = line + seq!['\r', '\n'] + rest;
    if with_cr.contains('\n') {
        let i = choose|i: int| 0 <= i < with_cr.len() && with_cr[i] == '\n';
        assert(line[i] == '\n');
    }
    lemma_len_before(with_cr, '\n', ended);
    assert(both =~= with_cr + ended);
    assert(both.take(with_cr.len() as int) =~= with_cr);
    assert(both.skip(with_cr.len() as int + 1) =~= rest);
    assert(with_cr.drop_last() =~= line);
}

/// Joining puts the separator between the texts, and nowhere else.
pub proof fn law_joining_puts_the_separator_between(
    first: Seq<char>,
    rest: Seq<Seq<char>>,
    sep: Seq<char>,
)
    ensures
        joined(seq![first], sep) == first,
        rest.len() > 0 ==> joined(seq![first] + rest, sep) == first + sep + joined(rest, sep),
    decreases rest.len(),
{
    let all = seq![first] + rest;
    if rest.len() == 1 {
        assert(all.drop_last() =~= seq![first]);
        assert(all.last() == rest[0]);
    } else if rest.len() > 1 {
        law_joining_puts_the_separator_between(first, rest.drop_last(), sep);
        assert(all.drop_last() =~= seq![first] + rest.drop_last());
        assert(joined(all, sep) =~= first + sep + joined(rest, sep));
    }
}

/// A text occurs in another exactly if that one is it, with something before
/// and behind.
pub proof fn law_what_is_surrounded_occurs<A>(
    hay: Seq<A>,
    before: Seq<A>,
    needle: Seq<A>,
    behind: Seq<A>,
)
    ensures
        occurs(before + needle + behind, needle),
        occurs(hay, needle) ==> exists|a: Seq<A>, b: Seq<A>| hay == #[trigger] (a + needle + b),
{
    let whole = before + needle + behind;
    let at = before.len() as int;
    assert(whole.subrange(at, at + needle.len()) =~= needle);
    assert(occurs_at(whole, needle, at));
    if occurs(hay, needle) {
        let i = choose|i: int| #[trigger] occurs_at(hay, needle, i);
        assert(hay =~= hay.take(i) + needle + hay.skip(i + needle.len()));
    }
}

/// The digits of a hexadecimal number count as usual, in either case, and a
/// further digit counts sixteen times as much as what it follows.
pub proof fn law_hexadecimal_digits_count_as_usual(s: Seq<char>, c: char)
    ensures
        '0' <= c <= '9' ==> digit_value(c, 16) == Some((c as int - '0' as int) as nat),
        'a' <= c <= 'f' ==> digit_value(c, 16) == Some((c as int - 'a' as int + 10) as nat),
        'A' <= c <= 'F' ==> digit_value(c, 16) == Some((c as int - 'A' as int + 10) as nat),
        !('0' <= c <= '9') && !('a' <= c <= 'f') && !('A' <= c <= 'F') ==> digit_value(c, 16)
            is None,
        digits_value(s, 16) is Some && digit_value(c, 16) is Some ==> digits_value(s.push(c), 16)
            == Some((16 * digits_value(s, 16)->0 + digit_value(c, 16)->0) as nat),
        digits_value(s, 16) is None || digit_value(c, 16) is None ==> digits_value(s.push(c), 16)
            is None,
        digits_value(Seq::empty(), 16) == Some(0nat),
{
    assert(s.push(c).drop_last() =~= s);
}

/// Beyond ASCII, white space is the next line, the no-break spaces, the space
/// mark of Ogham, the spaces of typography and of East Asian text, and the line
/// and paragraph separators.
pub proof fn law_the_white_space_beyond_ascii(c: char)
    requires
        (c as u32) >= 128,
    ensures
        is_space(c) <==> {
            ||| c == '\u{85}'
            ||| c == '\u{a0}'
            ||| c == '\u{1680}'
            ||| '\u{2000}' <= c <= '\u{200a}'
            ||| c == '\u{2028}'
            ||| c == '\u{2029}'
            ||| c == '\u{202f}'
            ||| c == '\u{205f}'
            ||| c == '\u{3000}'
        },
{
}

/// A number may have a plus sign before its digits, and must have digits, and
/// stay within what it may be.
pub proof fn law_a_number_may_have_a_plus_sign(digits: Seq<char>, radix: nat, max: nat)
    ensures
        digits.len() > 0 && digits[0] != '+' ==> number(seq!['+'] + digits, radix, max) == number(
            digits,
            radix,
            max,
        ),
        number(Seq::empty(), radix, max) is None,
        number(seq!['+'], radix, max) is None,
        number(digits, radix, max) is Some ==> number(digits, radix, max)->0 <= max,
        digits.len() > 0 && digits[0] != '+' && digits_value(digits, radix) is Some
            && digits_value(digits, radix)->0 <= max ==> number(digits, radix, max)
            == digits_value(digits, radix),
        digits.len() > 0 && digits[0] != '+' && digits_value(digits, radix) is Some
            && digits_value(digits, radix)->0 > max ==> number(digits, radix, max) is None,
{
    assert((seq!['+'] + digits).skip(1) =~= digits);
    assert(seq!['+'].skip(1) =~= Seq::empty());
}

/// What follows a prefix is what is left when it is taken off.
pub proof fn law_a_prefix_is_taken_off(prefix: Seq<char>, rest: Seq<char>)
    ensures
        after_prefix(prefix + rest, prefix) == Some(rest),
        after_prefix(rest, prefix) is Some ==> rest == prefix + after_prefix(rest, prefix)->0,
{
    assert(prefix.is_prefix_of(prefix + rest)) by {
        assert((prefix + rest).subrange(0, prefix.len() as int) =~= prefix);
    }
    assert((prefix + rest).skip(prefix.len() as int) =~= rest);
    if prefix.is_prefix_of(rest) {
        assert(rest =~= prefix + rest.skip(prefix.len() as int));
    }
}

} // verus!
